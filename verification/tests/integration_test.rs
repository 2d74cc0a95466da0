use rawsort::executor::{ExecutionPlan, Executor, ScannedEntry};
use rawsort::metadata::CaptureDate;
use rawsort::paths::EntryInfo;
use rawsort::registry::{Registry, TokenKind};

fn build_registry() -> Registry {
    let mut reg = Registry::new();
    reg.add(
        "[year]".to_string(),
        "Year (Photo date)".to_string(),
        TokenKind::Year,
    );
    reg.add(
        "[month]".to_string(),
        "Month (Photo date)".to_string(),
        TokenKind::Month,
    );
    reg.add(
        "[day]".to_string(),
        "Day (Photo date)".to_string(),
        TokenKind::Day,
    );
    reg.add(
        "[hour]".to_string(),
        "Hour (Photo date)".to_string(),
        TokenKind::Hour,
    );
    reg.add(
        "[minute]".to_string(),
        "Minute (Photo date)".to_string(),
        TokenKind::Minute,
    );
    reg.add(
        "[second]".to_string(),
        "Second (Photo date)".to_string(),
        TokenKind::Second,
    );
    reg.add(
        "[ext]".to_string(),
        "File extension only".to_string(),
        TokenKind::Extension,
    );
    reg.add(
        "[filename]".to_string(),
        "Full file name, including ext".to_string(),
        TokenKind::FileName,
    );
    reg
}

fn entry(path: &str, date: CaptureDate) -> ScannedEntry {
    ScannedEntry {
        info: EntryInfo::from_path(path.to_string()),
        exif: Ok(date),
    }
}

fn simple_entries() -> Vec<ScannedEntry> {
    vec![entry(
        "tests/fixtures/simple/20171104-DSC_1233.NEF",
        CaptureDate { year: 2017, month: 11, day: 4, hour: 12, minute: 45, second: 23 },
    )]
}

fn multiple_entries() -> Vec<ScannedEntry> {
    vec![
        entry(
            "tests/fixtures/multiple/20171104-DSC_1236.JPG",
            CaptureDate { year: 2017, month: 11, day: 4, hour: 12, minute: 45, second: 23 },
        ),
        entry(
            "tests/fixtures/multiple/20171104-DSC_1237.JPG",
            CaptureDate { year: 2017, month: 11, day: 4, hour: 12, minute: 45, second: 34 },
        ),
    ]
}

fn moves(strs: &[(&'static str, &'static str)]) -> Vec<(String, String)> {
    strs.iter()
        .map(|(s1, s2)| (s1.to_string(), s2.to_string()))
        .collect()
}

fn dirs(strs: &[&'static str]) -> Vec<String> {
    strs.iter().map(|s| s.to_string()).collect()
}

fn make_plan(entries: Vec<ScannedEntry>, format: &str) -> (ExecutionPlan, Executor) {
    let reg = build_registry();
    let exec = Executor::new(reg);
    let plan = exec.plan(&entries, format);
    (plan, exec)
}

#[test]
fn it_detects_bad_formats() {
    let (plan, exec) = make_plan(simple_entries(), "");

    assert_eq!(
        plan.moves,
        moves(&[("tests/fixtures/simple/20171104-DSC_1233.NEF", "")])
    );
    assert_eq!(exec.validate(&plan).unwrap_err(), "Found an empty target.");
}

#[test]
fn it_will_not_format_almost_a_good_format() {
    let (plan, exec) = make_plan(simple_entries(), "year");

    assert_eq!(
        plan.moves,
        moves(&[("tests/fixtures/simple/20171104-DSC_1233.NEF", "year")])
    );
    assert_eq!(exec.validate(&plan).unwrap(), true);
}

#[test]
fn it_will_format_a_good_format() {
    let (plan, _exec) = make_plan(simple_entries(), "[year]");

    assert_eq!(
        plan.moves,
        moves(&[("tests/fixtures/simple/20171104-DSC_1233.NEF", "2017")])
    );
}

#[test]
fn it_detects_potential_overwrites() {
    let (plan, exec) = make_plan(multiple_entries(), "[year]");
    assert_eq!(
        exec.validate(&plan).unwrap_err(),
        "Source and target file counts aren't equal: 2 file(s) for source, 1 file(s) for target."
    );
}

#[test]
fn it_plans_properly() {
    let (plan, _exec) = make_plan(
        multiple_entries(),
        "[year]/[month]/[day]/[hour]/[minute]/[second]/[filename].[ext]",
    );
    assert_eq!(
        plan.moves,
        moves(&[
            (
                "tests/fixtures/multiple/20171104-DSC_1236.JPG",
                "2017/11/4/12/45/23/20171104-DSC_1236.JPG.JPG"
            ),
            (
                "tests/fixtures/multiple/20171104-DSC_1237.JPG",
                "2017/11/4/12/45/34/20171104-DSC_1237.JPG.JPG"
            )
        ])
    );
    assert_eq!(
        plan.dirs_to_create,
        dirs(&["2017/11/4/12/45/23", "2017/11/4/12/45/34"])
    );
}
