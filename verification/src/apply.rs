//! Applying a plan. The applier itself performs filesystem work outside this
//! library; everything it decides — whether to proceed at all, and what to do
//! with each move when the destination already exists — is decided here, and
//! the outcome of every move is collected into a report instead of being
//! discarded.

use vstd::prelude::*;
use vstd::string::*;
use crate::executor::{explain_msg, ExecutionOptions, ExecutionPlan, Executor};
use crate::text::{append_dec, dec_rep};

verus! {

/// The top-level question asked before anything touches disk.
pub open spec fn confirm_question_msg(dirs: nat, moves: nat) -> Seq<char> {
    explain_msg(dirs, moves) + ". Continue?"@
}

impl Executor {
    /// The top-level confirmation question for a plan.
    pub fn confirm_question(&self, plan: &ExecutionPlan) -> (r: String)
        ensures
            r@ == confirm_question_msg(plan.dirs_to_create@.len(), plan.moves@.len()),
    {
        let mut q = self.explain(plan);
        q.append(". Continue?");
        q
    }
}

/// Whether the top-level confirmation must be asked at all.
pub fn needs_confirmation(opts: &ExecutionOptions) -> (r: bool)
    ensures
        r == !opts.no_prompts,
{
    !opts.no_prompts
}

/// Whether execution proceeds, given the confirmation answer: declining the
/// top-level confirmation, with prompts enabled, proceeds with nothing.
pub fn should_proceed(opts: &ExecutionOptions, confirmed: bool) -> (r: bool)
    ensures
        r == (opts.no_prompts || confirmed),
{
    opts.no_prompts || confirmed
}

/// Whether one move needs a per-conflict prompt: only when its destination
/// already exists and overwriting is not forced.
pub fn needs_overwrite_prompt(dest_exists: bool, opts: &ExecutionOptions) -> (r: bool)
    ensures
        r == (dest_exists && !opts.force_overwrite),
{
    dest_exists && !opts.force_overwrite
}

/// What to do with one move.
#[derive(Clone, Copy, PartialEq, Eq, Structural, Debug)]
pub enum MoveAction {
    Perform,
    Skip,
}

/// The decision for one move: it is performed unless its destination exists,
/// overwriting is not forced, and the per-conflict prompt was declined; a
/// declined move is skipped, never fatal.
pub fn move_action(dest_exists: bool, opts: &ExecutionOptions, confirmed: bool) -> (r: MoveAction)
    ensures
        (r is Perform) == (!dest_exists || opts.force_overwrite || confirmed),
{
    if !dest_exists || opts.force_overwrite || confirmed {
        MoveAction::Perform
    } else {
        MoveAction::Skip
    }
}

/// One failed move: the pair it belonged to and the reported cause.
pub struct MoveError {
    pub source: String,
    pub destination: String,
    pub cause: String,
}

/// The collected outcome of executing a plan: which moves were performed,
/// which were declined, and which failed.
pub struct MoveReport {
    pub moved: Vec<(String, String)>,
    pub skipped: Vec<(String, String)>,
    pub failed: Vec<MoveError>,
}

/// The one-line summary of a report.
pub open spec fn report_msg(moved: nat, skipped: nat, failed: nat) -> Seq<char> {
    "Moved "@ + dec_rep(moved) + " file(s), skipped "@ + dec_rep(skipped) + " file(s), "@
        + dec_rep(failed) + " failed move(s)."@
}

impl MoveReport {
    /// An empty report.
    pub fn new() -> (r: MoveReport)
        ensures
            r.moved@.len() == 0,
            r.skipped@.len() == 0,
            r.failed@.len() == 0,
    {
        MoveReport { moved: Vec::new(), skipped: Vec::new(), failed: Vec::new() }
    }

    /// Records one performed move.
    pub fn record_moved(&mut self, source: String, destination: String)
        ensures
            final(self).moved@ == old(self).moved@.push((source, destination)),
            final(self).skipped@ == old(self).skipped@,
            final(self).failed@ == old(self).failed@,
    {
        self.moved.push((source, destination));
    }

    /// Records one declined move.
    pub fn record_skipped(&mut self, source: String, destination: String)
        ensures
            final(self).skipped@ == old(self).skipped@.push((source, destination)),
            final(self).moved@ == old(self).moved@,
            final(self).failed@ == old(self).failed@,
    {
        self.skipped.push((source, destination));
    }

    /// Records one failed move.
    pub fn record_failed(&mut self, e: MoveError)
        ensures
            final(self).failed@ == old(self).failed@.push(e),
            final(self).moved@ == old(self).moved@,
            final(self).skipped@ == old(self).skipped@,
    {
        self.failed.push(e);
    }

    /// The one-line summary of this report.
    pub fn summary(&self) -> (r: String)
        ensures
            r@ == report_msg(self.moved@.len(), self.skipped@.len(), self.failed@.len()),
    {
        let mut msg = "Moved ".to_owned();
        append_dec(&mut msg, self.moved.len() as u64);
        msg.append(" file(s), skipped ");
        append_dec(&mut msg, self.skipped.len() as u64);
        msg.append(" file(s), ");
        append_dec(&mut msg, self.failed.len() as u64);
        msg.append(" failed move(s).");
        proof {
            assert(msg@ =~= report_msg(
                self.moved@.len(),
                self.skipped@.len(),
                self.failed@.len(),
            ));
        }
        msg
    }
}

/// One line of the dry-run report for a move.
pub open spec fn move_line(source: Seq<char>, destination: Seq<char>) -> Seq<char> {
    "move "@ + source + " -> "@ + destination
}

/// One line of the dry-run report for a directory to create.
pub open spec fn create_dir_line(dir: Seq<char>) -> Seq<char> {
    "create directory "@ + dir
}

/// The full dry-run report of a plan: one line per move, then one line per
/// directory to create. Building it has no side effect; printing it is the
/// caller's.
pub fn dry_run_report(plan: &ExecutionPlan) -> (r: Vec<String>)
    ensures
        r@.len() == plan.moves@.len() + plan.dirs_to_create@.len(),
        forall|i: int|
            0 <= i < plan.moves@.len() ==> (#[trigger] r@[i])@ == move_line(
                plan.moves@[i].0@,
                plan.moves@[i].1@,
            ),
        forall|i: int|
            plan.moves@.len() <= i < r@.len() ==> (#[trigger] r@[i])@ == create_dir_line(
                plan.dirs_to_create@[i - plan.moves@.len()]@,
            ),
{
    let mut out: Vec<String> = Vec::new();
    let n = plan.moves.len();
    let mut i: usize = 0;
    while i < n
        invariant
            n == plan.moves@.len(),
            0 <= i <= n,
            out@.len() == i,
            forall|k: int|
                0 <= k < i ==> (#[trigger] out@[k])@ == move_line(
                    plan.moves@[k].0@,
                    plan.moves@[k].1@,
                ),
        decreases n - i,
    {
        let m = &plan.moves[i];
        let mut line = "move ".to_owned();
        line.append(m.0.as_str());
        line.append(" -> ");
        line.append(m.1.as_str());
        proof {
            assert(line@ =~= move_line(plan.moves@[i as int].0@, plan.moves@[i as int].1@));
        }
        out.push(line);
        i = i + 1;
    }
    let dn = plan.dirs_to_create.len();
    let mut j: usize = 0;
    while j < dn
        invariant
            n == plan.moves@.len(),
            dn == plan.dirs_to_create@.len(),
            0 <= j <= dn,
            out@.len() == n + j,
            forall|k: int|
                0 <= k < n ==> (#[trigger] out@[k])@ == move_line(
                    plan.moves@[k].0@,
                    plan.moves@[k].1@,
                ),
            forall|k: int|
                n <= k < n + j ==> (#[trigger] out@[k])@ == create_dir_line(
                    plan.dirs_to_create@[k - n]@,
                ),
        decreases dn - j,
    {
        let mut line = "create directory ".to_owned();
        line.append(plan.dirs_to_create[j].as_str());
        proof {
            assert(line@ =~= create_dir_line(plan.dirs_to_create@[j as int]@));
        }
        out.push(line);
        j = j + 1;
    }
    out
}

} // verus!
