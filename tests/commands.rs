use pisshoff::audit::{AuditLog, AuditLogAction};
use pisshoff::command::cat::Cat;
use pisshoff::command::echo::Echo;
use pisshoff::command::exit::Exit;
use pisshoff::command::ls::Ls;
use pisshoff::command::pwd::Pwd;
use pisshoff::command::scp::{Receive, Scp};
use pisshoff::command::uname::{execute, Uname, HELP_STRING, VERSION_STRING};
use pisshoff::command::whoami::Whoami;
use pisshoff::command::{argparse, Arg, CommandResult};
use pisshoff::connection::ConnectionState;

fn mock() -> ConnectionState {
    ConnectionState::new(AuditLog::new(b"test-host".to_vec(), None))
}

fn words(s: &str) -> Vec<Vec<u8>> {
    s.split_whitespace().map(|w| w.as_bytes().to_vec()).collect()
}

fn params(v: &[&str]) -> Vec<Vec<u8>> {
    v.iter().map(|s| s.as_bytes().to_vec()).collect()
}

#[test]
fn single_short_parameter() {
    assert_eq!(argparse(&words("-a")), vec![Arg::Short(b'a')]);
}

#[test]
fn multiple_short_parameter() {
    assert_eq!(
        argparse(&words("-abc")),
        vec![Arg::Short(b'a'), Arg::Short(b'b'), Arg::Short(b'c')]
    );
}

#[test]
fn full_hit() {
    assert_eq!(
        argparse(&words("-a --long operand -b -")),
        vec![
            Arg::Short(b'a'),
            Arg::Long(b"long".to_vec()),
            Arg::Operand(b"operand".to_vec()),
            Arg::Short(b'b'),
            Arg::Operand(b"-".to_vec()),
        ]
    );
}

#[test]
fn no_args() {
    let mut out = Vec::new();
    let res = Cat::new(&mut mock(), &[], false, &mut out);
    assert!(matches!(res, CommandResult::ReadStdin(_)), "{res:?}");
}

#[test]
fn file_args_with_missing() {
    let mut state = mock();
    state.file_system().mkdirall(b"/rootdir").unwrap();
    state.file_system().write(b"a", b"hello".to_vec()).unwrap();
    state.file_system().write(b"/rootdir/c", b"world".to_vec()).unwrap();
    let mut out = Vec::new();
    let res = Cat::new(&mut state, &params(&["a", "b", "/rootdir/c"]), false, &mut out);
    assert!(matches!(res, CommandResult::Exit(1)), "{res:?}");
    assert_eq!(out, b"hellocat: b: No such file or directoryworld".to_vec());
}

#[test]
fn file_args() {
    let mut state = mock();
    state.file_system().write(b"a", b"hello".to_vec()).unwrap();
    state.file_system().write(b"b", b"world".to_vec()).unwrap();
    let mut out = Vec::new();
    let res = Cat::new(&mut state, &params(&["a", "b"]), false, &mut out);
    assert!(matches!(res, CommandResult::Exit(0)), "{res:?}");
    assert_eq!(out, b"helloworld".to_vec());
}

#[test]
fn stdin() {
    let mut state = mock();
    state.file_system().write(b"a", b"hello".to_vec()).unwrap();
    state.file_system().write(b"b", b"world".to_vec()).unwrap();
    let mut out = Vec::new();
    let cat = Cat::new(&mut state, &params(&["a", "-", "b"]), false, &mut out).unwrap_stdin();
    assert_eq!(out, b"hello".to_vec());
    let res = cat.stdin(&mut state, b"the whole", &mut out);
    assert!(matches!(res, CommandResult::Exit(0)), "{res:?}");
    assert_eq!(out, b"hellothe wholeworld".to_vec());
}

#[test]
fn echo_test() {
    for (input, expected) in [
        (vec![], "\n"),
        (vec!["hello"], "hello\n"),
        (vec!["hello", "world"], "hello world\n"),
    ] {
        let mut out = Vec::new();
        let res = Echo::new(&mut mock(), &params(&input), false, &mut out);
        assert!(matches!(res, CommandResult::Exit(0)), "{res:?}");
        assert_eq!(out, expected.as_bytes().to_vec());
    }
}

#[test]
fn echo_redirected_has_no_newline() {
    let mut out = Vec::new();
    Echo::new(&mut mock(), &params(&["a", "b"]), true, &mut out);
    assert_eq!(out, b"a b".to_vec());
}

#[test]
fn exit_test() {
    for (input, expected) in [(vec![], 0u32), (vec!["3"], 3), (vec!["invalid"], 2), (vec!["+7"], 7), (vec!["4294967296"], 2)] {
        let mut out = Vec::new();
        let res = Exit::new(&mut mock(), &params(&input), false, &mut out);
        assert!(matches!(res, CommandResult::Close(v) if v == expected), "{res:?}");
    }
}

#[test]
fn empty_pwd() {
    let mut out = Vec::new();
    let res = Ls::new(&mut mock(), &[], false, &mut out);
    assert!(matches!(res, CommandResult::Exit(0)), "{res:?}");
    assert!(out.is_empty());
}

#[test]
fn multiple_empty_directories() {
    let mut state = mock();
    state.file_system().mkdirall(b"/root/a").unwrap();
    state.file_system().mkdirall(b"/root/b").unwrap();
    let mut out = Vec::new();
    let res = Ls::new(&mut state, &params(&["a", "b"]), false, &mut out);
    assert!(matches!(res, CommandResult::Exit(0)), "{res:?}");
    assert_eq!(out, b"a:\n\nb:\n".to_vec());
}

#[test]
fn ls_missing_directory_fails() {
    let mut state = mock();
    let mut out = Vec::new();
    let res = Ls::new(&mut state, &params(&["nope"]), false, &mut out);
    assert!(matches!(res, CommandResult::Exit(1)), "{res:?}");
    assert_eq!(out, b"ls: nope: No such file or directory\n".to_vec());
}

#[test]
fn ls_lists_names_with_two_spaces() {
    let mut state = mock();
    state.file_system().write(b"x", b"1".to_vec()).unwrap();
    state.file_system().write(b"y", b"2".to_vec()).unwrap();
    let mut out = Vec::new();
    Ls::new(&mut state, &[], false, &mut out);
    assert_eq!(out, b"x  y\n".to_vec());
}

#[test]
fn pwd_works() {
    let mut out = Vec::new();
    let res = Pwd::new(&mut mock(), &[], false, &mut out);
    assert!(matches!(res, CommandResult::Exit(0)), "{res:?}");
    assert_eq!(out, b"/root\n".to_vec());
}

#[test]
fn whoami_works() {
    let mut out = Vec::new();
    let res = Whoami::new(&mut mock(), &[], false, &mut out);
    assert!(matches!(res, CommandResult::Exit(0)), "{res:?}");
    assert_eq!(out, b"root\n".to_vec());
}

#[test]
fn uname_variants() {
    let all = "Linux cd5079c0d642 5.15.49 #1 SMP PREEMPT Tue Sep 13 07:51:32 UTC 2022 x86_64 GNU/Linux\n";
    let every = "Linux cd5079c0d642 5.15.49 #1 SMP PREEMPT Tue Sep 13 07:51:32 UTC 2022 x86_64 unknown unknown GNU/Linux\n";
    let cases: Vec<(&str, String, u32)> = vec![
        ("", "Linux\n".to_string(), 0),
        ("-a", all.to_string(), 0),
        ("-snrvmpio", every.to_string(), 0),
        ("-asnrvmpio", all.to_string(), 0),
        ("-sn", "Linux cd5079c0d642\n".to_string(), 0),
        ("-sn --fake", "uname: unrecognized option '--fake'\nTry 'uname --help' for more information.\n".to_string(), 1),
        ("-sn -z", "uname: invalid option -- 'z'\nTry 'uname --help' for more information.\n".to_string(), 1),
        ("-sn oper", "uname: extra operand 'oper'\nTry 'uname --help' for more information.\n".to_string(), 1),
        ("--help", HELP_STRING.to_string(), 0),
        ("--version", VERSION_STRING.to_string(), 0),
    ];
    for (input, expected, code) in cases {
        let (out, status) = execute(&words(input));
        assert_eq!(String::from_utf8(out).unwrap(), expected, "{input}");
        assert_eq!(status, code, "{input}");
    }
}

#[test]
fn uname_command_exits_with_status() {
    let mut out = Vec::new();
    let res = Uname::new(&mut mock(), &words("-z"), false, &mut out);
    assert!(matches!(res, CommandResult::Exit(1)), "{res:?}");
}

#[test]
fn file_copy() {
    let (_, actual) = Receive::parse(b"C0777 1234 test.txt\n").unwrap();
    assert_eq!(
        actual,
        Receive::FileCopy { mode: b"0777".to_vec(), length: 1234, file_name: b"test.txt".to_vec() }
    );
}

#[test]
fn directory_copy() {
    let (_, actual) = Receive::parse(b"D0777 1234 test\n").unwrap();
    assert_eq!(
        actual,
        Receive::DirectoryCopy { mode: b"0777".to_vec(), length: 1234, directory_name: b"test".to_vec() }
    );
}

#[test]
fn end_directory() {
    let (_, actual) = Receive::parse(b"E\n").unwrap();
    assert_eq!(actual, Receive::EndDirectory);
}

#[test]
fn access_time() {
    let (_, actual) = Receive::parse(b"T123 444 555 666\n").unwrap();
    assert_eq!(
        actual,
        Receive::AccessTime {
            modified_time: 123,
            modified_time_micros: 444,
            access_time: 555,
            access_time_micros: 666,
        }
    );
}

#[test]
fn scp_rejects_bad_record() {
    assert!(Receive::parse(b"X0777 1 a\n").is_none());
    assert!(Receive::parse(b"C0777 1 a").is_none());
}

#[test]
fn scp_works() {
    let mut state = mock();
    let mut out = Vec::new();
    let scp = Scp::new(&mut state, &params(&["-t", "hello"]), false, &mut out).unwrap_stdin();
    assert_eq!(out, vec![0u8]);
    let res = scp.stdin(&mut state, b"C0777 11 hello.txt\nhello world\0", &mut out);
    assert!(matches!(res, CommandResult::ReadStdin(_)), "{res:?}");
    let writes: Vec<_> = state
        .audit_log
        .events
        .iter()
        .filter_map(|e| match &e.action {
            AuditLogAction::WriteFile(w) => Some((w.path.clone(), w.content.clone())),
            _ => None,
        })
        .collect();
    assert_eq!(writes, vec![(b"hello/hello.txt".to_vec(), b"hello world".to_vec())]);
    assert_eq!(out, vec![0u8, 0, 0]);
}

#[test]
fn scp_directories_nest_and_unwind() {
    let mut state = mock();
    let mut out = Vec::new();
    let scp = Scp::new(&mut state, &params(&["-t", "base"]), false, &mut out).unwrap_stdin();
    let res = scp.stdin(&mut state, b"D0755 0 sub\nC0644 2 f\nhi\0E\nC0644 1 g\nx\0", &mut out);
    assert!(matches!(res, CommandResult::ReadStdin(_)), "{res:?}");
    let paths: Vec<_> = state
        .audit_log
        .events
        .iter()
        .filter_map(|e| match &e.action {
            AuditLogAction::WriteFile(w) => Some(w.path.clone()),
            _ => None,
        })
        .collect();
    assert_eq!(paths, vec![b"base/sub/f".to_vec(), b"base/g".to_vec()]);
}

#[test]
fn scp_without_target_is_ambiguous() {
    let mut out = Vec::new();
    let res = Scp::new(&mut mock(), &params(&["-t"]), false, &mut out);
    assert!(matches!(res, CommandResult::Exit(1)), "{res:?}");
    assert_eq!(out, b"scp: ambiguous target\n".to_vec());
}

#[test]
fn scp_bad_record_exits() {
    let mut state = mock();
    let mut out = Vec::new();
    let scp = Scp::new(&mut state, &params(&["-t", "x"]), false, &mut out).unwrap_stdin();
    let res = scp.stdin(&mut state, b"Zbad\n", &mut out);
    assert!(matches!(res, CommandResult::Exit(1)), "{res:?}");
}
