use ff_video::error::{FFVideoError, IoFailure, IoKind, VideoProcError};
use ff_video::parse::{ParseContext, ParseError};

#[test]
fn test_send_sync_stability() {
    fn assert_send_sync<T: Send + Sync>() {}

    assert_send_sync::<FFVideoError>();
    assert!(std::mem::size_of::<FFVideoError>() < 200);
}

#[test]
fn errors_in_words() {
    let io = IoFailure { kind: IoKind::Other, text: "permission denied".to_string() };
    assert_eq!(
        VideoProcError::explain_io("couldn't spawn video process", io.clone()).message(),
        "video IO failed with couldn't spawn video process"
    );
    assert_eq!(
        VideoProcError::FinishedNormally { source: io.clone() }.message(),
        "video stream finished"
    );
    assert_eq!(
        VideoProcError::ExactReadError { source: io }.message(),
        "error reading full frame from video process"
    );
    assert_eq!(
        VideoProcError::Start("timeout".to_string()).message(),
        "couldn't parse stream info within deadline (timeout)"
    );
    assert_eq!(VideoProcError::is_missing("stderr pipe").message(), "couldn't obtain stderr pipe");
    assert_eq!(VideoProcError::ExitCode(0).message(), "video process exit code: 0");
    assert_eq!(VideoProcError::ExitCode(187).message(), "video process exit code: 187");
    assert_eq!(VideoProcError::ExitCode(-9).message(), "video process exit code: -9");
    assert_eq!(
        VideoProcError::ExitCode(i32::MIN).message(),
        "video process exit code: -2147483648"
    );
    assert_eq!(
        VideoProcError::ExitCode(i32::MAX).message(),
        "video process exit code: 2147483647"
    );
    assert_eq!(VideoProcError::Other("oops".to_string()).message(), "other error: oops");
}

#[test]
fn constructors_keep_what_they_are_given() {
    assert_eq!(
        VideoProcError::is_missing("stdout pipe"),
        VideoProcError::MissingValue("stdout pipe".to_string())
    );
    let io = IoFailure { kind: IoKind::BrokenPipe, text: "broken pipe".to_string() };
    assert_eq!(
        VideoProcError::explain_io("waiting on video process", io.clone()),
        VideoProcError::IO { msg: "waiting on video process".to_string(), source: io }
    );
}

fn refusal_text() -> String {
    ParseError {
        context: ParseContext::Input(0, "a".to_string()),
        line: " Stream #1".to_string(),
        reason: "Stream 1 didn't match Output".to_string(),
    }
    .message()
}

#[test]
fn both_kinds_of_error_become_one() {
    let processing: FFVideoError = VideoProcError::ExitCode(2).into();
    assert_eq!(processing, FFVideoError::Processing(VideoProcError::ExitCode(2)));
    assert_eq!(processing.message(), "video processing error: video process exit code: 2");
    let refusal = ParseError {
        context: ParseContext::Input(0, "a".to_string()),
        line: " Stream #1".to_string(),
        reason: "Stream 1 didn't match Output".to_string(),
    };
    let parsing = FFVideoError::from(refusal.clone());
    assert_eq!(parsing, FFVideoError::Parsing(refusal));
    assert_eq!(refusal_text(), "Stream 1 didn't match Output:  Stream #1");
    assert_eq!(parsing.message(), "parsing error: Stream 1 didn't match Output:  Stream #1");
    assert_eq!(parsing.clone(), parsing);
}
