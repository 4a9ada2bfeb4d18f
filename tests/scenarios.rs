use pisshoff::audit::{AuditLog, AuditLogAction, LoginAttemptEvent};
use pisshoff::handler::{Auth, Connection};
use pisshoff::shell::SessionAction;
use pisshoff::state::StoredPasswords;

fn connection() -> Connection {
    Connection::new(AuditLog::new(b"honeypot".to_vec(), Some(b"10.0.0.1:4242".to_vec())))
}

fn actions_of(c: &Connection) -> Vec<&AuditLogAction> {
    c.audit_log().events.iter().map(|e| &e.action).collect()
}

fn data_of(actions: &[SessionAction]) -> Vec<u8> {
    let mut out = Vec::new();
    for a in actions {
        if let SessionAction::Data(d) = a {
            out.extend_from_slice(d);
        }
    }
    out
}

#[test]
fn password_accept_then_remember() {
    let mut stored = StoredPasswords::new();
    stored.store(b"root", b"hunter2");
    let mut first = connection();
    assert_eq!(first.auth_password(&mut stored, b"root", b"hunter2", false), Auth::Accept);
    let mut second = connection();
    assert_eq!(second.auth_password(&mut stored, b"root", b"hunter2", false), Auth::Accept);
    assert_eq!(second.auth_password(&mut stored, b"root", b"letmein", false), Auth::Reject);
    assert_eq!(actions_of(&first).len(), 1);
    assert_eq!(actions_of(&second).len(), 2);
    for a in actions_of(&second) {
        assert!(matches!(a, AuditLogAction::LoginAttempt(LoginAttemptEvent::UsernamePassword { .. })));
    }
    assert_eq!(second.username(), b"root".to_vec());
}

#[test]
fn lucky_login_is_remembered() {
    let mut stored = StoredPasswords::new();
    let mut c = connection();
    assert_eq!(c.auth_password(&mut stored, b"admin", b"admin", true), Auth::Accept);
    assert!(stored.seen(b"admin", b"admin"));
    assert_eq!(c.auth_password(&mut stored, b"admin", b"admin", false), Auth::Accept);
}

#[test]
fn other_auth_methods() {
    let mut stored = StoredPasswords::new();
    let mut c = connection();
    assert_eq!(c.auth_none(), Auth::UnsupportedMethod);
    assert_eq!(c.auth_publickey(b"ssh-ed25519", b"SHA256:abc"), Auth::Reject);
    assert_eq!(c.auth_keyboard_interactive(&mut stored, b"root", None, true), Auth::Partial);
    assert_eq!(c.auth_keyboard_interactive(&mut stored, b"root", Some(b"pw"), false), Auth::Reject);
}

#[test]
fn uname_all_in_exec_mode() {
    let mut c = connection();
    let mut actions = Vec::new();
    c.exec_request(0, b"uname -a\n", &mut actions);
    assert_eq!(
        data_of(&actions),
        b"Linux cd5079c0d642 5.15.49 #1 SMP PREEMPT Tue Sep 13 07:51:32 UTC 2022 x86_64 GNU/Linux\n".to_vec()
    );
    assert!(actions.contains(&SessionAction::ExitStatus(0)));
    assert!(actions.contains(&SessionAction::Close));
    let events = actions_of(&c);
    assert_eq!(events.len(), 1);
    match events[0] {
        AuditLogAction::ExecCommand(e) => assert_eq!(e.args, vec![b"uname -a\n".to_vec()]),
        other => panic!("unexpected {other:?}"),
    }
}

#[test]
fn command_substitution() {
    let mut c = connection();
    let mut actions = Vec::new();
    c.exec_request(0, b"echo $(echo hello) world!", &mut actions);
    assert_eq!(data_of(&actions), b"hello world!\n".to_vec());
    let execs = actions_of(&c).iter().filter(|a| matches!(a, AuditLogAction::ExecCommand(_))).count();
    assert_eq!(execs, 1);
}

#[test]
fn unknown_command() {
    let mut c = connection();
    let mut actions = Vec::new();
    c.exec_request(0, b"frobnicate now", &mut actions);
    assert_eq!(data_of(&actions), b"bash: frobnicate: command not found\n".to_vec());
    assert!(actions.contains(&SessionAction::ExitStatus(1)));
}

#[test]
fn interactive_shell_prompts_and_exits() {
    let mut c = connection();
    let mut actions = Vec::new();
    c.shell_request(1, &mut actions);
    assert_eq!(actions, vec![SessionAction::Data(b"bash-5.1$ ".to_vec()), SessionAction::Success]);
    let mut actions = Vec::new();
    c.data(1, b"whoami", &mut actions);
    assert_eq!(
        actions,
        vec![
            SessionAction::Data(b"root\n".to_vec()),
            SessionAction::ExitStatus(0),
            SessionAction::Data(b"bash-5.1$ ".to_vec()),
        ]
    );
    let mut actions = Vec::new();
    c.data(1, b"\"oops", &mut actions);
    assert_eq!(data_of(&actions), b"bash: syntax error\nbash-5.1$ ".to_vec());
    let mut actions = Vec::new();
    c.data(1, b"exit 3", &mut actions);
    assert!(actions.contains(&SessionAction::ExitStatus(3)));
    assert!(actions.contains(&SessionAction::Close));
    assert_eq!(c.channel_eof(1), vec![SessionAction::ExitStatus(0), SessionAction::Success, SessionAction::Close]);
    assert_eq!(c.channel_eof(1), vec![SessionAction::Failure, SessionAction::Close]);
}

#[test]
fn scp_upload() {
    let mut c = connection();
    let mut actions = Vec::new();
    c.exec_request(0, b"scp -t hello", &mut actions);
    let mut actions = Vec::new();
    c.data(0, b"C0777 11 hello.txt\nhello world\0", &mut actions);
    let writes: Vec<_> = actions_of(&c)
        .into_iter()
        .filter_map(|a| match a {
            AuditLogAction::WriteFile(w) => Some((w.path.clone(), w.content.clone())),
            _ => None,
        })
        .collect();
    assert_eq!(writes, vec![(b"hello/hello.txt".to_vec(), b"hello world".to_vec())]);
}

#[test]
fn cat_mixed() {
    let mut c = connection();
    c.file_system().write(b"a", b"hello".to_vec()).unwrap();
    c.file_system().write(b"b", b"world".to_vec()).unwrap();
    let mut actions = Vec::new();
    c.exec_request(0, b"cat a - b", &mut actions);
    assert_eq!(data_of(&actions), b"hello".to_vec());
    let mut actions = Vec::new();
    c.data(0, b"the whole", &mut actions);
    assert_eq!(data_of(&actions), b"the wholeworld".to_vec());
    assert!(actions.contains(&SessionAction::ExitStatus(0)));
}

#[test]
fn offsets_never_decrease() {
    let mut c = connection();
    for i in 0..20 {
        c.window_adjusted(i);
    }
    let offsets: Vec<u128> = c
        .audit_log()
        .events
        .iter()
        .map(|e| e.start_offset.secs as u128 * 1_000_000_000 + e.start_offset.nanos as u128)
        .collect();
    assert_eq!(offsets.len(), 20);
    assert!(offsets.windows(2).all(|w| w[0] <= w[1]));
}

#[test]
fn requests_are_recorded_and_refused() {
    let mut c = connection();
    assert!(!c.channel_open_x11(b"1.2.3.4", 6000));
    assert!(!c.channel_open_direct_tcpip(b"example.com", 80, b"1.2.3.4", 1234));
    assert!(!c.tcpip_forward(b"0.0.0.0", 8080));
    assert!(!c.cancel_tcpip_forward(b"0.0.0.0", 8080));
    c.signal(b"INT");
    assert_eq!(c.subsystem_request(2, b"nope"), SessionAction::Failure);
    assert_eq!(c.subsystem_request(2, b"sftp"), SessionAction::Success);
    assert_eq!(c.env_request(b"LANG", b"C"), SessionAction::Success);
    assert_eq!(actions_of(&c).len(), 7);
    assert_eq!(c.audit_log().environment_variables, vec![(b"LANG".to_vec(), b"C".to_vec())]);
}
