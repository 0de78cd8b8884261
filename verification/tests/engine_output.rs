use mediatools::classify::{
    classify_lines, classify_output, line_action, line_is_failure, EngineOutcome, LineAction,
};

#[test]
fn unknown_encoder_is_a_failure() {
    let text = "ffmpeg version 6\nUnknown encoder 'libfoo'\nDone\n";
    assert!(matches!(classify_output(text, false), EngineOutcome::Failure(_)));
}

#[test]
fn text_without_markers_is_a_success() {
    let text = "ffmpeg version 6\nsize=  10kB time=00:00:01\n";
    assert!(matches!(classify_output(text, true), EngineOutcome::Success));
    assert!(matches!(classify_output("", false), EngineOutcome::Success));
}

#[test]
fn every_marker_fails_a_line() {
    assert!(line_is_failure("Error while opening encoder"));
    assert!(line_is_failure("[out] Conversion failed!"));
    assert!(line_is_failure("Unknown encoder 'x'"));
    assert!(line_is_failure("x: Invalid argument"));
    assert!(!line_is_failure("error in lower case"));
    assert!(!line_is_failure("Unknown"));
    assert!(!line_is_failure(""));
}

#[test]
fn failure_message_depends_on_quiet() {
    let lines = vec!["ok".to_string(), "Conversion failed!".to_string()];
    match classify_lines(&lines, false) {
        EngineOutcome::Failure(m) => assert_eq!(m, "Aborting due to ffmpeg failure!"),
        EngineOutcome::Success => panic!("a failure was expected"),
    }
    match classify_lines(&lines, true) {
        EngineOutcome::Failure(m) => assert_eq!(
            m,
            "Aborting due to ffmpeg failure! Run without '-q' or '--qffmpeg' to see the full ffmpeg output for why it failed."
        ),
        EngineOutcome::Success => panic!("a failure was expected"),
    }
}

#[test]
fn lines_are_classified_one_by_one() {
    let none: Vec<String> = Vec::new();
    assert!(matches!(classify_lines(&none, false), EngineOutcome::Success));
    let fine = vec!["a".to_string(), "b".to_string()];
    assert!(matches!(classify_lines(&fine, false), EngineOutcome::Success));
    let first = vec!["Invalid argument".to_string(), "b".to_string()];
    assert!(matches!(classify_lines(&first, false), EngineOutcome::Failure(_)));
}

#[test]
fn line_actions() {
    assert!(matches!(line_action(true, "Error"), LineAction::Report));
    assert!(matches!(line_action(false, "Error"), LineAction::Report));
    assert!(matches!(line_action(true, "frame=1"), LineAction::Suppress));
    assert!(matches!(line_action(false, "frame=1"), LineAction::Echo));
}

#[test]
fn diagnostics_are_split_into_lines() {
    assert_eq!(mediatools::classify::diagnostic_lines("a\r\nb\n\nc"), vec!["a", "b", "", "c"]);
    assert!(mediatools::classify::diagnostic_lines("").is_empty());
}
