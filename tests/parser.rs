use pisshoff::command::PartialCommand;
use pisshoff::shell::iter::{Iter, IterState};
use pisshoff::shell::parser::{
    atoi,
    parse_double_quoted, parse_expansion, parse_single_quoted, parse_unquoted, tokenize, Expansion,
    ParsedPart, RedirectionTo,
};

fn s(b: &[u8]) -> ParsedPart {
    ParsedPart::String(b.to_vec())
}

fn cmd(program: &[u8], params: &[&[u8]]) -> PartialCommand {
    PartialCommand::new(Some(program.to_vec()), params.iter().map(|p| p.to_vec()).collect())
}

#[test]
fn single_nested() {
    let (rest, parts) = tokenize(b"echo $(echo hello) world!").unwrap();
    assert!(rest.is_empty());
    let env = Vec::new();
    let mut command = Iter::new(parts);
    assert_eq!(command.step(&env, None), IterState::Expand(cmd(b"echo", &[b"hello"])));
    assert_eq!(
        command.step(&env, Some(b"hello".to_vec())),
        IterState::Ready(cmd(b"echo", &[b"hello", b"world!"]))
    );
}

#[test]
fn multi_nested() {
    let (rest, parts) = tokenize(b"echo $(echo hello `echo the whole`) world!").unwrap();
    assert!(rest.is_empty());
    let env = Vec::new();
    let mut command = Iter::new(parts);
    assert_eq!(command.step(&env, None), IterState::Expand(cmd(b"echo", &[b"the", b"whole"])));
    assert_eq!(
        command.step(&env, Some(b"the whole".to_vec())),
        IterState::Expand(cmd(b"echo", &[b"hello", b"the whole"]))
    );
    assert_eq!(
        command.step(&env, Some(b"hello the whole".to_vec())),
        IterState::Ready(cmd(b"echo", &[b"hello the whole", b"world!"]))
    );
}

#[test]
fn variables_are_substituted() {
    let (_, parts) = tokenize(b"echo $HOME x${UNSET}y").unwrap();
    let env = vec![(b"HOME".to_vec(), b"/root".to_vec())];
    let mut command = Iter::new(parts);
    assert_eq!(command.step(&env, None), IterState::Ready(cmd(b"echo", &[b"/root", b"xy"])));
}

#[test]
fn messed_up() {
    let (rest, parts) = tokenize(b"echo    ${HI}'this' \"is a \\t${TEST}\"using'$(complex string)>|' $(echo parsing) for the hell of it;fin").unwrap();
    assert_eq!(rest, b";fin".to_vec());
    assert_eq!(
        parts,
        vec![
            s(b"echo"),
            ParsedPart::Break,
            ParsedPart::Expansion(Expansion::Variable(b"HI".to_vec())),
            s(b"this"),
            ParsedPart::Break,
            s(b"is a \t"),
            ParsedPart::Expansion(Expansion::Variable(b"TEST".to_vec())),
            s(b"using"),
            s(b"$(complex string)>|"),
            ParsedPart::Break,
            ParsedPart::Expansion(Expansion::Command(vec![s(b"echo"), ParsedPart::Break, s(b"parsing")])),
            ParsedPart::Break,
            s(b"for"),
            ParsedPart::Break,
            s(b"the"),
            ParsedPart::Break,
            s(b"hell"),
            ParsedPart::Break,
            s(b"of"),
            ParsedPart::Break,
            s(b"it"),
        ]
    );
}

#[test]
fn parses_named_redirects() {
    let (rest, parts) = tokenize(b"hello test 2>&1").unwrap();
    assert!(rest.is_empty());
    assert_eq!(
        parts,
        vec![
            s(b"hello"),
            ParsedPart::Break,
            s(b"test"),
            ParsedPart::Break,
            ParsedPart::Redirection(2, RedirectionTo::Stdio(1)),
        ]
    );
}

#[test]
fn parses_unnamed_redirects() {
    let (rest, parts) = tokenize(b"hello test >&1").unwrap();
    assert!(rest.is_empty());
    assert_eq!(
        parts,
        vec![
            s(b"hello"),
            ParsedPart::Break,
            s(b"test"),
            ParsedPart::Break,
            ParsedPart::Redirection(0, RedirectionTo::Stdio(1)),
        ]
    );
}

#[test]
fn redirect_to_file() {
    let (_, parts) = tokenize(b"echo hi >out").unwrap();
    assert_eq!(
        parts,
        vec![s(b"echo"), ParsedPart::Break, s(b"hi"), ParsedPart::Break, ParsedPart::Redirection(0, RedirectionTo::File(b"out".to_vec()))]
    );
}

#[test]
fn unterminated_quote_is_a_syntax_error() {
    assert!(tokenize(b"echo \"abc").is_err());
    assert!(tokenize(b"echo 'abc").is_err());
    assert!(tokenize(b"echo $(abc").is_err());
    assert!(tokenize(b"echo ${abc").is_err());
}

#[test]
fn double_dollar() {
    let (rest, e) = parse_expansion(b"$$a").unwrap();
    assert_eq!(rest, b"a".to_vec());
    assert_eq!(e, Expansion::Variable(b"$".to_vec()));
}

#[test]
fn variable() {
    let (rest, e) = parse_expansion(b"$HELLO_WORLD").unwrap();
    assert!(rest.is_empty());
    assert_eq!(e, Expansion::Variable(b"HELLO_WORLD".to_vec()));
}

#[test]
fn variable_split() {
    let (rest, e) = parse_expansion(b"$HELLO-WORLD").unwrap();
    assert_eq!(rest, b"-WORLD".to_vec());
    assert_eq!(e, Expansion::Variable(b"HELLO".to_vec()));
}

#[test]
fn braced_variable() {
    let (rest, e) = parse_expansion(b"${helloworld}").unwrap();
    assert!(rest.is_empty());
    assert_eq!(e, Expansion::Variable(b"helloworld".to_vec()));
}

#[test]
fn not_expansion() {
    assert!(parse_expansion(b"NOT_VARIABLE").is_none(), "not variable");
}

#[test]
fn nested() {
    let (rest, e) = parse_expansion(b"$('echo' 'hello')").unwrap();
    assert!(rest.is_empty(), "{rest:?}");
    assert_eq!(e, Expansion::Command(vec![s(b"echo"), ParsedPart::Break, s(b"hello")]));
}

#[test]
fn escape() {
    let (rest, w) = parse_unquoted(b"hello\\ \\world\\ \\thi\\ns\\ is\\ a\\ \\$test\\\n! dontparse").unwrap();
    assert_eq!(rest, b" dontparse".to_vec());
    assert_eq!(w, b"hello world thins is a $test!".to_vec());
}

#[test]
fn multi_quote() {
    let (rest, w) = parse_single_quoted(b"'hello''world'").unwrap();
    assert_eq!(rest, b"'world'".to_vec());
    assert_eq!(w, b"hello".to_vec());
}

#[test]
fn with_expansion() {
    let (rest, parts) = parse_double_quoted(b"\"hello world $('cat' 'test') test\"").unwrap();
    assert!(rest.is_empty());
    assert_eq!(
        parts,
        vec![
            s(b"hello world "),
            ParsedPart::Expansion(Expansion::Command(vec![s(b"cat"), ParsedPart::Break, s(b"test")])),
            s(b" test"),
        ]
    );
}

#[test]
fn with_expansion_escape() {
    let (rest, parts) = parse_double_quoted(b"\"hello world \\$('cat' 'test') test\"").unwrap();
    assert!(rest.is_empty());
    assert_eq!(parts, vec![s(b"hello world $('cat' 'test') test")]);
}

#[test]
fn with_escape_code() {
    let (rest, parts) = parse_double_quoted(b"\"hi\\nworld\"").unwrap();
    assert!(rest.is_empty());
    assert_eq!(parts, vec![s(b"hi\nworld")]);
}

#[test]
fn plain_line_reads_back() {
    let (rest, parts) = tokenize(b"echo  hello\n\nworld ").unwrap();
    assert!(rest.is_empty());
    let mut out = Vec::new();
    for p in &parts {
        match p {
            ParsedPart::Break => out.push(b' '),
            ParsedPart::String(b) => out.extend_from_slice(b),
            other => panic!("unexpected {other:?}"),
        }
    }
    assert_eq!(out, b"echo hello world ".to_vec());
}

#[test]
fn fd_numbers() {
    assert_eq!(atoi(b""), Some(0));
    assert_eq!(atoi(b"255"), Some(255));
    assert_eq!(atoi(b"256"), None);
}

#[test]
fn unset_variable_after_break_is_an_empty_parameter() {
    let parts = vec![s(b"prog"), ParsedPart::Break, ParsedPart::Expansion(Expansion::Variable(b"UNSET".to_vec()))];
    let mut it = Iter::new(parts);
    assert_eq!(it.step(&Vec::new(), None), IterState::Ready(cmd(b"prog", &[b""])));
}

#[test]
fn trailing_break_opens_no_parameter() {
    let (_, parts) = tokenize(b"uname -a\n").unwrap();
    let mut it = Iter::new(parts);
    assert_eq!(it.step(&Vec::new(), None), IterState::Ready(cmd(b"uname", &[b"-a"])));
}
