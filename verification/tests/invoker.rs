use stack_installer::error::ErrorKind;
use stack_installer::invoker::{judge, judge_exit, Complaints, Mode, ProcessReport};

fn complaints() -> Complaints {
    Complaints {
        launch: "could not start: ".to_string(),
        wait: "could not wait: ".to_string(),
        exit: "tool failed:\n".to_string(),
    }
}

#[test]
fn exit_status_one_carries_the_error_stream() {
    let report = ProcessReport::Exited { success: false, stderr: b"permission denied".to_vec() };
    let err = judge(Mode::Captured, &complaints(), &report).unwrap_err();
    assert_eq!(err.kind, ErrorKind::NonZeroExit);
    assert!(err.message.contains("permission denied"));
    assert_eq!(err.message, "tool failed:\npermission denied");
}

#[test]
fn uncaptured_failure_has_the_generic_message() {
    let report = ProcessReport::Exited { success: false, stderr: Vec::new() };
    let err = judge(Mode::Uncaptured, &complaints(), &report).unwrap_err();
    assert_eq!(err.kind, ErrorKind::NonZeroExit);
    assert_eq!(err.message, "tool failed:\nthe process ended with a non-zero exit status");
}

#[test]
fn uncaptured_failure_ignores_any_stream() {
    let report = ProcessReport::Exited { success: false, stderr: b"noise".to_vec() };
    let err = judge(Mode::Uncaptured, &complaints(), &report).unwrap_err();
    assert_eq!(err.message, "tool failed:\nthe process ended with a non-zero exit status");
}

#[test]
fn success_is_success_in_both_modes() {
    let report = ProcessReport::Exited { success: true, stderr: b"warning: verbose".to_vec() };
    assert!(judge(Mode::Captured, &complaints(), &report).is_ok());
    assert!(judge(Mode::Uncaptured, &complaints(), &report).is_ok());
}

#[test]
fn launch_failure_names_the_cause() {
    let report = ProcessReport::LaunchFailed("Access is denied. (os error 5)".to_string());
    let err = judge(Mode::Uncaptured, &complaints(), &report).unwrap_err();
    assert_eq!(err.kind, ErrorKind::LaunchFailure);
    assert_eq!(err.message, "could not start: Access is denied. (os error 5)");
}

#[test]
fn wait_failure_names_the_cause() {
    let report = ProcessReport::WaitFailed("no child processes".to_string());
    let err = judge(Mode::Captured, &complaints(), &report).unwrap_err();
    assert_eq!(err.kind, ErrorKind::WaitFailure);
    assert_eq!(err.message, "could not wait: no child processes");
}

#[test]
fn invalid_bytes_of_the_error_stream_are_replaced() {
    let report = ProcessReport::Exited { success: false, stderr: vec![b'o', b'h', 0xff, b'!'] };
    let err = judge(Mode::Captured, &complaints(), &report).unwrap_err();
    assert_eq!(err.message, "tool failed:\noh\u{fffd}!");
}

#[test]
fn error_stream_is_decoded_as_utf8() {
    let report = ProcessReport::Exited {
        success: false,
        stderr: "Zugriff verweigert: größe".as_bytes().to_vec(),
    };
    let err = judge(Mode::Captured, &complaints(), &report).unwrap_err();
    assert_eq!(err.message, "tool failed:\nZugriff verweigert: größe");
}

#[test]
fn judge_exit_takes_the_text_as_it_is() {
    assert!(judge_exit(Mode::Captured, &complaints(), true, "ignored").is_ok());
    let err = judge_exit(Mode::Captured, &complaints(), false, "psql: FATAL").unwrap_err();
    assert_eq!(err.kind, ErrorKind::NonZeroExit);
    assert_eq!(err.message, "tool failed:\npsql: FATAL");
    let err = judge_exit(Mode::Uncaptured, &complaints(), false, "psql: FATAL").unwrap_err();
    assert_eq!(err.message, "tool failed:\nthe process ended with a non-zero exit status");
    let err = judge_exit(Mode::Captured, &complaints(), false, "").unwrap_err();
    assert_eq!(err.message, "tool failed:\n");
}
