use glow::deps::errors::{IoErrorKind, IoFailure};
use glow::deps::{go_errno, go_exec_error};

fn failure(kind: IoErrorKind, message: &str) -> IoFailure {
    IoFailure { kind, message: message.to_string() }
}

#[test]
fn errno_text_drops_rusts_os_error_suffix() {
    assert_eq!(go_errno(&failure(IoErrorKind::NotFound, "entity not found")), "no such file or directory");
    assert_eq!(go_errno(&failure(IoErrorKind::PermissionDenied, "permission denied")), "permission denied");
    let other = failure(IoErrorKind::Other, "No such device or address (os error 6)");
    assert!(!go_errno(&other).contains("os error"), "{}", go_errno(&other));
    assert_eq!(go_errno(&other), go_errno(&other).to_lowercase());
    assert_eq!(go_errno(&other), "no such device or address");
}

#[test]
fn go_errno_drops_the_os_error_suffix() {
    assert_eq!(go_errno(&failure(IoErrorKind::NotFound, "No such file or directory (os error 2)")), "no such file or directory");
}

#[test]
fn a_bare_program_name_fails_the_path_lookup() {
    assert_eq!(
        go_exec_error("nosuchpager", &failure(IoErrorKind::NotFound, "entity not found")),
        "exec: \"nosuchpager\": executable file not found in $PATH"
    );
    assert_eq!(
        go_exec_error("nosuchpager", &failure(IoErrorKind::PermissionDenied, "permission denied")),
        "exec: \"nosuchpager\": permission denied"
    );
}

#[test]
fn a_program_with_a_separator_fails_in_the_fork() {
    assert_eq!(
        go_exec_error("/opt/bin/pager", &failure(IoErrorKind::NotFound, "entity not found")),
        "fork/exec /opt/bin/pager: no such file or directory"
    );
}

#[test]
fn other_failures_keep_their_own_wording() {
    assert_eq!(go_errno(&failure(IoErrorKind::IsADirectory, "Is a directory (os error 21)")), "is a directory");
    assert_eq!(go_errno(&failure(IoErrorKind::Other, "custom failure")), "custom failure");
    assert_eq!(
        go_exec_error("less", &failure(IoErrorKind::Other, "Resource Busy (os error 16)")),
        "exec: \"less\": resource busy"
    );
}
