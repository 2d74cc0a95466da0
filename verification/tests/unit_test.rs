use rawsort::apply::{
    dry_run_report, move_action, needs_confirmation, needs_overwrite_prompt, should_proceed,
    MoveAction, MoveError, MoveReport,
};
use rawsort::executor::{ExecutionOptions, ExecutionPlan, Executor, ScannedEntry};
use rawsort::metadata::{
    capture_date_or_epoch, date_or_epoch, epoch, parse_capture_date, CaptureDate, ExtractError,
};
use rawsort::paths::EntryInfo;
use rawsort::registry::{Registry, TokenKind};
use rawsort::text::{dec_string, int_string};

fn date_2017() -> CaptureDate {
    CaptureDate { year: 2017, month: 11, day: 4, hour: 12, minute: 45, second: 23 }
}

fn jpg_entry(path: &str) -> ScannedEntry {
    ScannedEntry { info: EntryInfo::from_path(path.to_string()), exif: Ok(date_2017()) }
}

#[test]
fn empty_registry_leaves_template_unchanged() {
    let reg = Registry::new();
    let ent = EntryInfo::from_path("a/b.JPG".to_string());
    let got = reg.format("[year]/[foo]", &ent, &Ok(date_2017())).unwrap();
    assert_eq!(got, "[year]/[foo]");
}

#[test]
fn unknown_tokens_pass_through() {
    let mut reg = Registry::new();
    reg.add("[year]".to_string(), "Year".to_string(), TokenKind::Year);
    let ent = EntryInfo::from_path("a/b.JPG".to_string());
    let got = reg.format("[year]/[what]", &ent, &Ok(date_2017())).unwrap();
    assert_eq!(got, "2017/[what]");
}

#[test]
fn format_propagates_extract_error() {
    let mut reg = Registry::new();
    reg.add("[year]".to_string(), "Year".to_string(), TokenKind::Year);
    let ent = EntryInfo::from_path("a/b.JPG".to_string());
    let got = reg.format("[year]", &ent, &Err(ExtractError::Unreadable));
    assert_eq!(got.unwrap_err(), ExtractError::Unreadable);
}

#[test]
fn re_registration_replaces_a_token() {
    let mut reg = Registry::new();
    reg.add("[x]".to_string(), "first".to_string(), TokenKind::Year);
    reg.add("[x]".to_string(), "second".to_string(), TokenKind::Month);
    let pairs = reg.describe();
    assert_eq!(pairs.len(), 1);
    assert_eq!(pairs[0].0, "[x]");
    assert_eq!(pairs[0].1, "second");
    let ent = EntryInfo::from_path("a/b.JPG".to_string());
    assert_eq!(reg.format("[x]", &ent, &Ok(date_2017())).unwrap(), "11");
}

#[test]
fn describe_lists_registrations_in_order() {
    let mut reg = Registry::new();
    reg.add("[year]".to_string(), "Year".to_string(), TokenKind::Year);
    reg.add("[ext]".to_string(), "Extension".to_string(), TokenKind::Extension);
    let pairs = reg.describe();
    assert_eq!(
        pairs,
        vec![
            ("[year]".to_string(), "Year".to_string()),
            ("[ext]".to_string(), "Extension".to_string())
        ]
    );
}

#[test]
fn entry_info_splits_names() {
    let e = EntryInfo::from_path("a/b/photo.NEF".to_string());
    assert_eq!(e.file_name, "photo.NEF");
    assert_eq!(e.extension, "NEF");

    let no_slash = EntryInfo::from_path("photo.NEF".to_string());
    assert_eq!(no_slash.file_name, "photo.NEF");
    assert_eq!(no_slash.extension, "NEF");

    let no_ext = EntryInfo::from_path("a/photo".to_string());
    assert_eq!(no_ext.file_name, "photo");
    assert_eq!(no_ext.extension, "");

    let dotfile = EntryInfo::from_path("a/.hidden".to_string());
    assert_eq!(dotfile.file_name, ".hidden");
    assert_eq!(dotfile.extension, "");
}

#[test]
fn failed_extraction_drops_the_file_from_the_plan() {
    let mut reg = Registry::new();
    reg.add("[year]".to_string(), "Year".to_string(), TokenKind::Year);
    let exec = Executor::new(reg);
    let entries = vec![
        jpg_entry("in/a.JPG"),
        ScannedEntry {
            info: EntryInfo::from_path("in/broken.JPG".to_string()),
            exif: Err(ExtractError::Unreadable),
        },
    ];
    let plan = exec.plan(&entries, "out/[year]");
    assert_eq!(plan.moves, vec![("in/a.JPG".to_string(), "out/2017".to_string())]);
}

#[test]
fn shared_parents_are_deduplicated() {
    let mut reg = Registry::new();
    reg.add("[year]".to_string(), "Year".to_string(), TokenKind::Year);
    reg.add("[filename]".to_string(), "Name".to_string(), TokenKind::FileName);
    let exec = Executor::new(reg);
    let entries = vec![jpg_entry("in/a.JPG"), jpg_entry("in/b.JPG")];
    let plan = exec.plan(&entries, "[year]/[filename]");
    assert_eq!(
        plan.moves,
        vec![
            ("in/a.JPG".to_string(), "2017/a.JPG".to_string()),
            ("in/b.JPG".to_string(), "2017/b.JPG".to_string())
        ]
    );
    assert_eq!(plan.dirs_to_create, vec!["2017".to_string()]);
}

#[test]
fn without_existing_prunes_only_present_dirs() {
    let plan = ExecutionPlan {
        dirs_to_create: vec!["a".to_string(), "b".to_string(), "c".to_string()],
        moves: vec![("s".to_string(), "t".to_string())],
    };
    let pruned = plan.without_existing(&vec!["b".to_string()]);
    assert_eq!(pruned.dirs_to_create, vec!["a".to_string(), "c".to_string()]);
    assert_eq!(pruned.moves, vec![("s".to_string(), "t".to_string())]);
}

#[test]
fn validate_counts_distinct_paths() {
    let exec = Executor::new(Registry::new());
    let plan = ExecutionPlan {
        dirs_to_create: vec![],
        moves: vec![
            ("a".to_string(), "x".to_string()),
            ("a".to_string(), "y".to_string()),
        ],
    };
    assert_eq!(
        exec.validate(&plan).unwrap_err(),
        "Source and target file counts aren't equal: 1 file(s) for source, 2 file(s) for target."
    );
}

#[test]
fn validate_reports_empty_target_first() {
    let exec = Executor::new(Registry::new());
    let plan = ExecutionPlan {
        dirs_to_create: vec![],
        moves: vec![
            ("a".to_string(), "x".to_string()),
            ("b".to_string(), "".to_string()),
        ],
    };
    assert_eq!(exec.validate(&plan).unwrap_err(), "Found an empty target.");
}

#[test]
fn explain_counts_dirs_and_moves() {
    let exec = Executor::new(Registry::new());
    let plan = ExecutionPlan {
        dirs_to_create: vec!["d1".to_string(), "d2".to_string()],
        moves: vec![("a".to_string(), "x".to_string())],
    };
    assert_eq!(exec.explain(&plan), "This will create 2 dir(s) and move 1 file(s)");
    assert_eq!(
        exec.confirm_question(&plan),
        "This will create 2 dir(s) and move 1 file(s). Continue?"
    );
}

#[test]
fn capture_parsing_reads_the_fields() {
    let d = parse_capture_date("2017-11-04 12:45:23").unwrap();
    assert_eq!(d, date_2017());
    assert!(parse_capture_date("not a timestamp").is_none());
    assert!(parse_capture_date("2017-13-04 12:45:23").is_none());
}

#[test]
fn malformed_timestamps_fall_back_to_the_epoch() {
    assert_eq!(
        capture_date_or_epoch("2017-11-04 12:45:23"),
        date_2017()
    );
    assert_eq!(capture_date_or_epoch("junk"), epoch());
    assert_eq!(
        epoch(),
        CaptureDate { year: 1970, month: 1, day: 1, hour: 0, minute: 0, second: 0 }
    );
    assert_eq!(date_or_epoch(None), epoch());
    assert_eq!(date_or_epoch(Some(date_2017())), date_2017());
}

#[test]
fn decimal_renderings() {
    assert_eq!(dec_string(0), "0");
    assert_eq!(dec_string(7), "7");
    assert_eq!(dec_string(1234567890), "1234567890");
    assert_eq!(int_string(-45), "-45");
    assert_eq!(int_string(2017), "2017");
}

#[test]
fn top_level_confirmation_decisions() {
    let prompts = ExecutionOptions { force_overwrite: false, no_prompts: false };
    let auto = ExecutionOptions { force_overwrite: false, no_prompts: true };
    assert!(needs_confirmation(&prompts));
    assert!(!needs_confirmation(&auto));
    assert!(!should_proceed(&prompts, false));
    assert!(should_proceed(&prompts, true));
    assert!(should_proceed(&auto, false));
}

#[test]
fn per_move_decisions() {
    let plain = ExecutionOptions { force_overwrite: false, no_prompts: false };
    let force = ExecutionOptions { force_overwrite: true, no_prompts: false };
    assert!(!needs_overwrite_prompt(false, &plain));
    assert!(needs_overwrite_prompt(true, &plain));
    assert!(!needs_overwrite_prompt(true, &force));
    assert_eq!(move_action(false, &plain, false), MoveAction::Perform);
    assert_eq!(move_action(true, &plain, false), MoveAction::Skip);
    assert_eq!(move_action(true, &plain, true), MoveAction::Perform);
    assert_eq!(move_action(true, &force, false), MoveAction::Perform);
}

#[test]
fn move_report_collects_outcomes() {
    let mut report = MoveReport::new();
    report.record_moved("a".to_string(), "x".to_string());
    report.record_moved("b".to_string(), "y".to_string());
    report.record_skipped("c".to_string(), "z".to_string());
    report.record_failed(MoveError {
        source: "d".to_string(),
        destination: "w".to_string(),
        cause: "permission denied".to_string(),
    });
    assert_eq!(report.moved.len(), 2);
    assert_eq!(report.skipped, vec![("c".to_string(), "z".to_string())]);
    assert_eq!(report.failed.len(), 1);
    assert_eq!(report.failed[0].cause, "permission denied");
    assert_eq!(
        report.summary(),
        "Moved 2 file(s), skipped 1 file(s), 1 failed move(s)."
    );
}

#[test]
fn dry_run_report_lists_the_whole_plan() {
    let plan = ExecutionPlan {
        dirs_to_create: vec!["2017".to_string()],
        moves: vec![
            ("in/a.JPG".to_string(), "2017/a.JPG".to_string()),
            ("in/b.JPG".to_string(), "2017/b.JPG".to_string()),
        ],
    };
    let lines = dry_run_report(&plan);
    assert_eq!(
        lines,
        vec![
            "move in/a.JPG -> 2017/a.JPG".to_string(),
            "move in/b.JPG -> 2017/b.JPG".to_string(),
            "create directory 2017".to_string(),
        ]
    );
}
