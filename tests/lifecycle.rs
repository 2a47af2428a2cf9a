use super_shell::framing::{clean_response, command_request, ResponseCollector};
use super_shell::session::{
    Lifecycle, Phase, ShellError, DEFAULT_PROVIDER, DEFAULT_SHELL, EXIT_COMMAND,
    IDENTITY_CHECK, PRIVILEGED_USER,
};

fn verified_session() -> Lifecycle {
    let mut l = Lifecycle::new();
    assert_eq!(l.spawn_finished(true), Ok(()));
    assert_eq!(l.identity_reported(Some("root")), Ok(()));
    l
}

#[test]
fn constants() {
    assert_eq!(DEFAULT_PROVIDER, "pkexec");
    assert_eq!(DEFAULT_SHELL, "sh");
    assert_eq!(IDENTITY_CHECK, "whoami");
    assert_eq!(PRIVILEGED_USER, "root");
    assert_eq!(EXIT_COMMAND, "exit");
}

#[test]
fn new_session_is_starting() {
    let l = Lifecycle::new();
    assert_eq!(l.phase(), Phase::Starting);
    assert!(!l.can_execute());
}

#[test]
fn spawn_failure_is_reported_as_such() {
    let mut l = Lifecycle::new();
    assert_eq!(l.spawn_finished(false), Err(ShellError::Spawn));
    assert_eq!(l.phase(), Phase::Closed);
    assert!(!l.begin_exit());
}

#[test]
fn root_answer_makes_session_ready() {
    let l = verified_session();
    assert_eq!(l.phase(), Phase::Ready);
    assert!(l.can_execute());
}

#[test]
fn untrimmed_root_answer_is_accepted() {
    let mut l = Lifecycle::new();
    l.spawn_finished(true).unwrap();
    assert_eq!(l.identity_reported(Some("  root\n")), Ok(()));
}

#[test]
fn other_identity_fails_privilege_check() {
    let mut l = Lifecycle::new();
    l.spawn_finished(true).unwrap();
    assert_eq!(l.identity_reported(Some("alice")), Err(ShellError::PrivilegeCheck));
    assert_eq!(l.phase(), Phase::Verifying);
    assert!(!l.can_execute());
    assert!(l.begin_exit());
    assert!(!l.begin_exit());
}

#[test]
fn denied_escalation_fails_privilege_check() {
    let mut l = Lifecycle::new();
    l.spawn_finished(true).unwrap();
    assert_eq!(l.identity_reported(None), Err(ShellError::PrivilegeCheck));
    let mut m = Lifecycle::new();
    m.spawn_finished(true).unwrap();
    assert_eq!(m.identity_reported(Some("")), Err(ShellError::PrivilegeCheck));
    assert_eq!(m.identity_reported(Some("rootx")), Err(ShellError::PrivilegeCheck));
}

#[test]
fn exit_twice_is_a_no_op_the_second_time() {
    let mut l = verified_session();
    assert!(l.begin_exit());
    assert_eq!(l.phase(), Phase::Closed);
    assert!(!l.begin_exit());
    assert_eq!(l.phase(), Phase::Closed);
    assert!(!l.can_execute());
}

#[test]
fn whoami_through_framing_yields_root() {
    let mut c = ResponseCollector::new();
    assert!(!c.push_line("root\n"));
    assert!(c.push_line("~end-of-command~\n"));
    let answer = c.response();
    assert_eq!(answer.trim(), "root");
    let mut l = Lifecycle::new();
    l.spawn_finished(true).unwrap();
    assert_eq!(l.identity_reported(Some(answer.as_str())), Ok(()));
}

#[test]
fn scenario_open_then_echo_hello() {
    let l = verified_session();
    assert!(l.can_execute());
    assert_eq!(
        command_request("echo hello"),
        "echo hello\necho ~end-of-command~\n"
    );
    assert_eq!(clean_response("hello\n~end-of-command~\n"), "hello");
}

#[test]
fn scenario_missing_binary_leaves_no_process() {
    let mut l = Lifecycle::new();
    assert_eq!(l.spawn_finished(false), Err(ShellError::Spawn));
    assert!(!l.begin_exit());
}
