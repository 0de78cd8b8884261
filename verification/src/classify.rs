//! Telling failure from success in the engine's diagnostics.

use vstd::prelude::*;
use crate::text::{contains, contains_seq, lines, lines_of, strs};

verus! {

/// Whether one run of the engine is taken to have worked.
pub enum EngineOutcome {
    Success,
    /// The run failed; the message is meant for the operator.
    Failure(String),
}

/// What becomes of one line of diagnostics.
pub enum LineAction {
    /// The line marks a failure and is reported as an error.
    Report,
    /// The line is shown as information.
    Echo,
    /// The line is dropped.
    Suppress,
}

/// A line that holds one of the engine's failure markers.
pub open spec fn is_failure_line(line: Seq<char>) -> bool {
    contains_seq(line, "Error"@) || contains_seq(line, "Conversion failed"@) || contains_seq(
        line,
        "Unknown encoder"@,
    ) || contains_seq(line, "Invalid argument"@)
}

/// Whether the line holds a failure marker.
pub fn line_is_failure(line: &str) -> (r: bool)
    ensures
        r == is_failure_line(line@),
{
    contains(line, "Error") || contains(line, "Conversion failed") || contains(
        line,
        "Unknown encoder",
    ) || contains(line, "Invalid argument")
}

/// What to do with a line: a failure is always reported, anything else is
/// shown unless output is quiet.
pub fn line_action(quiet: bool, line: &str) -> (r: LineAction)
    ensures
        is_failure_line(line@) ==> r is Report,
        !is_failure_line(line@) && quiet ==> r is Suppress,
        !is_failure_line(line@) && !quiet ==> r is Echo,
{
    if line_is_failure(line) {
        LineAction::Report
    } else if quiet {
        LineAction::Suppress
    } else {
        LineAction::Echo
    }
}

/// Some line holds a failure marker.
pub open spec fn any_failure(lines: Seq<Seq<char>>) -> bool {
    exists|i: int| 0 <= i < lines.len() && is_failure_line(#[trigger] lines[i])
}

/// The message of a failed run. Under quiet output it says how to see the
/// engine's full diagnostics.
pub open spec fn failure_message(quiet: bool) -> Seq<char> {
    if quiet {
        "Aborting due to ffmpeg failure! Run without '-q' or '--qffmpeg' to see the full ffmpeg output for why it failed."@
    } else {
        "Aborting due to ffmpeg failure!"@
    }
}

/// The outcome that the given lines of diagnostics stand for.
pub open spec fn outcome_ok(r: EngineOutcome, lines: Seq<Seq<char>>, quiet: bool) -> bool {
    match r {
        EngineOutcome::Success => !any_failure(lines),
        EngineOutcome::Failure(message) => any_failure(lines) && message@ == failure_message(quiet),
    }
}

/// Classifies a run by the lines of its diagnostics: it failed exactly when
/// some line holds a failure marker. The process's exit status has no say.
pub fn classify_lines(lines: &Vec<String>, quiet: bool) -> (r: EngineOutcome)
    ensures
        outcome_ok(r, strs(lines@), quiet),
{
    let mut failed = false;
    let mut i: usize = 0;
    while i < lines.len()
        invariant
            i <= lines.len(),
            failed == any_failure(strs(lines@).take(i as int)),
        decreases lines.len() - i,
    {
        let ghost before = strs(lines@).take(i as int);
        let ghost after = strs(lines@).take(i as int + 1);
        let hit = line_is_failure(lines[i].as_str());
        proof {
            assert(after[i as int] == lines@[i as int]@);
            if any_failure(before) {
                let w = choose|w: int| 0 <= w < before.len() && is_failure_line(#[trigger] before[w]);
                assert(after[w] == before[w]);
            }
            if hit {
                assert(is_failure_line(after[i as int]));
            }
            if any_failure(after) {
                let w = choose|w: int| 0 <= w < after.len() && is_failure_line(#[trigger] after[w]);
                if w < i {
                    assert(before[w] == after[w]);
                }
            }
        }
        if hit {
            failed = true;
        }
        i += 1;
    }
    proof {
        assert(strs(lines@).take(lines.len() as int) =~= strs(lines@));
    }
    if failed {
        let message = if quiet {
            String::from_str(
                "Aborting due to ffmpeg failure! Run without '-q' or '--qffmpeg' to see the full ffmpeg output for why it failed.",
            )
        } else {
            String::from_str("Aborting due to ffmpeg failure!")
        };
        EngineOutcome::Failure(message)
    } else {
        EngineOutcome::Success
    }
}

/// The lines of the engine's diagnostics, in order.
pub fn diagnostic_lines(diagnostics: &str) -> (r: Vec<String>)
    ensures
        strs(r@) == lines_of(diagnostics@),
{
    lines(diagnostics)
}

/// Classifies a run by the whole text of its diagnostics, line by line.
pub fn classify_output(diagnostics: &str, quiet: bool) -> (r: EngineOutcome)
    ensures
        outcome_ok(r, lines_of(diagnostics@), quiet),
{
    let lines = diagnostic_lines(diagnostics);
    classify_lines(&lines, quiet)
}

/// A line that holds `Unknown encoder` makes the run a failure, whatever
/// the other lines hold.
pub proof fn lemma_unknown_encoder_fails(lines: Seq<Seq<char>>, i: int)
    requires
        0 <= i < lines.len(),
        contains_seq(lines[i], "Unknown encoder"@),
    ensures
        any_failure(lines),
{
    assert(is_failure_line(lines[i]));
}

/// Diagnostics in which no line holds a marker are a success.
pub proof fn lemma_no_marker_succeeds(lines: Seq<Seq<char>>)
    requires
        forall|i: int| 0 <= i < lines.len() ==> !is_failure_line(#[trigger] lines[i]),
    ensures
        !any_failure(lines),
{
}

} // verus!
