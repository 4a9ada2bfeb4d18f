//! The command line grammar of the shell.
//!
//! A line is read, byte by byte, into a flat list of parts: argument breaks,
//! literal bytes, variable and command substitutions, and redirections.
//! Reading stops at `;`, `|` or any other byte no part starts with; what is
//! left is handed back. An unterminated quote, brace or `$(` substitution is
//! a syntax error.
//!
//! Every reader works on the whole line `s` from a position `i`, and has a
//! plain-value counterpart that defines it.

use vstd::prelude::*;
use crate::text::{decimal_up_to, parse_decimal, sub_bytes};

verus! {

pub const BACKSLASH: u8 = 92;
pub const LF: u8 = 10;
pub const TAB: u8 = 9;
pub const CR: u8 = 13;
pub const SPACE: u8 = 32;
pub const DQUOTE: u8 = 34;
pub const SQUOTE: u8 = 39;
pub const DOLLAR: u8 = 36;
pub const BACKTICK: u8 = 96;
pub const GT: u8 = 62;
pub const AMP: u8 = 38;
pub const LPAREN: u8 = 40;
pub const RPAREN: u8 = 41;
pub const LBRACE: u8 = 123;
pub const RBRACE: u8 = 125;
pub const PIPE: u8 = 124;
pub const SEMI: u8 = 59;
pub const UNDERSCORE: u8 = 95;

/// Where a redirected stream goes.
#[derive(Debug, PartialEq, Eq)]
pub enum RedirectionTo {
    Stdio(u8),
    File(Vec<u8>),
}

/// A substitution.
#[derive(Debug, PartialEq, Eq)]
pub enum Expansion {
    Variable(Vec<u8>),
    Command(Vec<ParsedPart>),
}

/// One part of a command line.
#[derive(Debug, PartialEq, Eq)]
pub enum ParsedPart {
    Break,
    String(Vec<u8>),
    Expansion(Expansion),
    Redirection(u8, RedirectionTo),
}

pub enum RedirView {
    Stdio(u8),
    File(Seq<u8>),
}

pub enum ExpView {
    Variable(Seq<u8>),
    Command(Seq<PartView>),
}

/// A part as plain values.
pub enum PartView {
    Break,
    String(Seq<u8>),
    Expansion(ExpView),
    Redirection(u8, RedirView),
}

pub open spec fn redir_view(r: RedirectionTo) -> RedirView {
    match r {
        RedirectionTo::Stdio(n) => RedirView::Stdio(n),
        RedirectionTo::File(f) => RedirView::File(f@),
    }
}

pub open spec fn exp_view(e: Expansion) -> ExpView
    decreases e,
{
    match e {
        Expansion::Variable(v) => ExpView::Variable(v@),
        Expansion::Command(c) => ExpView::Command(
            Seq::new(c@.len(), |i: int| if 0 <= i < c@.len() { part_view(c@[i]) } else { PartView::Break }),
        ),
    }
}

pub open spec fn part_view(p: ParsedPart) -> PartView
    decreases p,
{
    match p {
        ParsedPart::Break => PartView::Break,
        ParsedPart::String(s) => PartView::String(s@),
        ParsedPart::Expansion(e) => PartView::Expansion(exp_view(e)),
        ParsedPart::Redirection(n, r) => PartView::Redirection(n, redir_view(r)),
    }
}

pub open spec fn parts_view(v: Seq<ParsedPart>) -> Seq<PartView> {
    Seq::new(v.len(), |i: int| part_view(v[i]))
}

impl ParsedPart {
    /// The part, owning all its bytes (it always does).
    pub fn into_owned(self) -> (r: Self)
        ensures
            r == self,
    {
        self
    }
}

impl RedirectionTo {
    /// The target, owning all its bytes (it always does).
    pub fn into_owned(self) -> (r: Self)
        ensures
            r == self,
    {
        self
    }
}

impl Expansion {
    /// The substitution, owning all its bytes (it always does).
    pub fn into_owned(self) -> (r: Self)
        ensures
            r == self,
    {
        self
    }
}

/// The outcome of a reader: what it read and where it stopped; a miss that
/// lets another reader try; or a syntax error.
pub enum Parsed<T> {
    Read(T, int),
    Soft,
    Hard,
}

pub open spec fn is_digit(b: u8) -> bool {
    48 <= b <= 57
}

pub open spec fn is_alnum(b: u8) -> bool {
    is_digit(b) || (65 <= b <= 90) || (97 <= b <= 122)
}

pub open spec fn is_name_byte(b: u8) -> bool {
    is_alnum(b) || b == UNDERSCORE
}

pub open spec fn is_blank(b: u8) -> bool {
    b == SPACE || b == TAB || b == CR || b == LF
}

/// Bytes that end an unquoted word (`dq` false) or a run of double-quoted
/// text (`dq` true).
pub open spec fn is_special(b: u8, dq: bool) -> bool {
    if dq {
        b == BACKSLASH || b == DQUOTE || b == DOLLAR || b == BACKTICK
    } else {
        b == BACKSLASH || b == LF || b == SPACE || b == DQUOTE || b == SQUOTE || b == DOLLAR || b
            == BACKTICK || b == PIPE || b == GT || b == AMP || b == LPAREN || b == RPAREN || b
            == SEMI
    }
}

/// What a backslash followed by `b` stands for; outside double quotes a
/// backslash before a line feed stands for nothing, before anything else for
/// that byte.
pub open spec fn escape_value(b: u8, dq: bool) -> Option<Seq<u8>> {
    if dq {
        if b == DQUOTE {
            Some(seq![DQUOTE])
        } else if b == 110 {
            Some(seq![LF])
        } else if b == 116 {
            Some(seq![TAB])
        } else if b == DOLLAR {
            Some(seq![DOLLAR])
        } else if b == BACKTICK {
            Some(seq![BACKTICK])
        } else if b == BACKSLASH {
            Some(seq![BACKSLASH])
        } else {
            None
        }
    } else if b == LF {
        Some(Seq::empty())
    } else {
        Some(seq![b])
    }
}

/// Literal text from `start`, escapes resolved, having read up to `j` with
/// `acc` so far: the text and where it ends. It must not start at a special
/// byte other than a backslash; a backslash at the very end is a miss.
pub open spec fn escaped(s: Seq<u8>, start: int, j: int, acc: Seq<u8>, dq: bool) -> Option<
    (Seq<u8>, int),
>
    decreases s.len() - j,
{
    if j < start || j >= s.len() {
        Some((acc, s.len() as int))
    } else if !is_special(s[j], dq) {
        escaped(s, start, j + 1, acc.push(s[j]), dq)
    } else if s[j] == BACKSLASH {
        if j + 1 >= s.len() {
            None
        } else {
            match escape_value(s[j + 1], dq) {
                Some(v) => escaped(s, start, j + 2, acc + v, dq),
                None => None,
            }
        }
    } else if j == start {
        None
    } else {
        Some((acc, j))
    }
}

/// The end of the run of bytes from `i` of a kind: 0 digits, 1 letters and
/// digits, 2 those and `_`, 3 blanks.
pub open spec fn run_end(s: Seq<u8>, i: int, kind: u8) -> int
    decreases s.len() - i,
{
    if 0 <= i < s.len() && of_kind(s[i], kind) {
        run_end(s, i + 1, kind)
    } else {
        i
    }
}

pub open spec fn of_kind(b: u8, kind: u8) -> bool {
    if kind == 0 {
        is_digit(b)
    } else if kind == 1 {
        is_alnum(b)
    } else if kind == 2 {
        is_name_byte(b)
    } else {
        is_blank(b)
    }
}

/// The position of the first `b` at or after `i`, if any.
pub open spec fn find_byte(s: Seq<u8>, i: int, b: u8) -> Option<int>
    decreases s.len() - i,
{
    if i < 0 || i >= s.len() {
        None
    } else if s[i] == b {
        Some(i)
    } else {
        find_byte(s, i + 1, b)
    }
}

/// A file descriptor number: no digits is 0, else at most 255.
pub open spec fn fd_number(d: Seq<u8>) -> Option<u8> {
    if d.len() == 0 {
        Some(0)
    } else {
        match decimal_up_to(d, 255) {
            Some(v) => Some(v as u8),
            None => None,
        }
    }
}

/// `'...'`: the bytes between the quotes, as they are.
pub open spec fn single_quoted(s: Seq<u8>, i: int) -> Option<(Seq<u8>, int)> {
    if 0 <= i < s.len() && s[i] == SQUOTE {
        match find_byte(s, i + 1, SQUOTE) {
            Some(k) => Some((s.subrange(i + 1, k), k + 1)),
            None => None,
        }
    } else {
        None
    }
}

/// One or more blanks.
pub open spec fn blanks(s: Seq<u8>, i: int) -> Option<int> {
    let e = run_end(s, i, 3);
    if e > i {
        Some(e)
    } else {
        None
    }
}

/// `[n]>&m` or `[n]>name`.
pub open spec fn redirection(s: Seq<u8>, i: int) -> Option<(PartView, int)> {
    let d = run_end(s, i, 0);
    if 0 <= i <= d && d + 1 < s.len() && s[d] == GT {
        match fd_number(s.subrange(i, d)) {
            None => None,
            Some(from) => if s[d + 1] == AMP {
                let e = run_end(s, d + 2, 0);
                if e > d + 2 {
                    match fd_number(s.subrange(d + 2, e)) {
                        Some(to) => Some((PartView::Redirection(from, RedirView::Stdio(to)), e)),
                        None => None,
                    }
                } else {
                    None
                }
            } else {
                let e = run_end(s, d + 1, 1);
                if e > d + 1 {
                    Some((PartView::Redirection(from, RedirView::File(s.subrange(d + 1, e))), e))
                } else {
                    None
                }
            },
        }
    } else {
        None
    }
}

/// Where a line stops for good: a quote or `${` that no part could be read
/// from. (A backtick may close a substitution, so reading just stops there.)
pub open spec fn syntax_stop(s: Seq<u8>, i: int) -> bool {
    0 <= i < s.len() && (s[i] == DQUOTE || s[i] == SQUOTE || (s[i] == DOLLAR && i + 1 < s.len()
        && s[i + 1] == LBRACE))
}

/// The parts of a command line from `i`, and where it stops.
pub open spec fn tokens(s: Seq<u8>, i: int) -> Parsed<Seq<PartView>>
    decreases s.len() - i, 3nat,
{
    if i < 0 || i > s.len() {
        Parsed::Hard
    } else {
        match part(s, i) {
            Parsed::Read(ps, j) => if i < j <= s.len() {
                match tokens(s, j) {
                    Parsed::Read(rest, k) => Parsed::Read(ps + rest, k),
                    Parsed::Soft => Parsed::Soft,
                    Parsed::Hard => Parsed::Hard,
                }
            } else {
                Parsed::Hard
            },
            Parsed::Hard => Parsed::Hard,
            Parsed::Soft => if syntax_stop(s, i) {
                Parsed::Hard
            } else {
                Parsed::Read(Seq::empty(), i)
            },
        }
    }
}

/// One part at `i` (a double-quoted string gives several).
pub open spec fn part(s: Seq<u8>, i: int) -> Parsed<Seq<PartView>>
    decreases s.len() - i, 2nat,
{
    if i < 0 || i >= s.len() {
        Parsed::Soft
    } else {
        match double_quoted(s, i) {
            Parsed::Read(ps, j) => Parsed::Read(ps, j),
            Parsed::Hard => Parsed::Hard,
            Parsed::Soft => match redirection(s, i) {
                Some((r, j)) => Parsed::Read(seq![r], j),
                None => match blanks(s, i) {
                    Some(j) => Parsed::Read(seq![PartView::Break], j),
                    None => match single_quoted(s, i) {
                        Some((b, j)) => Parsed::Read(seq![PartView::String(b)], j),
                        None => match expansion(s, i) {
                            Parsed::Read(e, j) => Parsed::Read(seq![PartView::Expansion(e)], j),
                            Parsed::Hard => Parsed::Hard,
                            Parsed::Soft => match escaped(s, i, i, Seq::empty(), false) {
                                Some((b, j)) => Parsed::Read(seq![PartView::String(b)], j),
                                None => Parsed::Soft,
                            },
                        },
                    },
                },
            },
        }
    }
}

/// `"..."`: text and substitutions up to the closing quote.
pub open spec fn double_quoted(s: Seq<u8>, i: int) -> Parsed<Seq<PartView>>
    decreases s.len() - i, 1nat,
{
    if 0 <= i < s.len() && s[i] == DQUOTE {
        dq_body(s, i + 1, Seq::empty())
    } else {
        Parsed::Soft
    }
}

/// The inside of a double-quoted string from `j`, with `acc` read so far.
pub open spec fn dq_body(s: Seq<u8>, j: int, acc: Seq<PartView>) -> Parsed<Seq<PartView>>
    decreases s.len() - j, 1nat,
{
    if j < 0 || j > s.len() {
        Parsed::Soft
    } else if j < s.len() && s[j] == DQUOTE {
        Parsed::Read(acc, j + 1)
    } else {
        match escaped(s, j, j, Seq::empty(), true) {
            Some((b, k)) => if j < k <= s.len() {
                dq_body(s, k, acc.push(PartView::String(b)))
            } else {
                Parsed::Soft
            },
            None => match expansion(s, j) {
                Parsed::Read(e, k) => if j < k <= s.len() {
                    dq_body(s, k, acc.push(PartView::Expansion(e)))
                } else {
                    Parsed::Soft
                },
                Parsed::Soft => Parsed::Soft,
                Parsed::Hard => Parsed::Hard,
            },
        }
    }
}

/// `$$`, `$(...)`, `$NAME`, `${...}` or a command in backticks.
pub open spec fn expansion(s: Seq<u8>, i: int) -> Parsed<ExpView>
    decreases s.len() - i, 0nat,
{
    if i < 0 || i >= s.len() {
        Parsed::Soft
    } else if s[i] == DOLLAR {
        if i + 1 >= s.len() {
            Parsed::Soft
        } else if s[i + 1] == DOLLAR {
            Parsed::Read(ExpView::Variable(seq![DOLLAR]), i + 2)
        } else if s[i + 1] == LPAREN {
            match tokens(s, i + 2) {
                Parsed::Read(ps, j) => if j < s.len() && s[j] == RPAREN {
                    Parsed::Read(ExpView::Command(ps), j + 1)
                } else {
                    Parsed::Hard
                },
                _ => Parsed::Hard,
            }
        } else if is_name_byte(s[i + 1]) {
            let e = run_end(s, i + 1, 2);
            Parsed::Read(ExpView::Variable(s.subrange(i + 1, e)), e)
        } else if s[i + 1] == LBRACE {
            match find_byte(s, i + 2, RBRACE) {
                Some(k) => Parsed::Read(ExpView::Variable(s.subrange(i + 2, k)), k + 1),
                None => Parsed::Soft,
            }
        } else {
            Parsed::Soft
        }
    } else if s[i] == BACKTICK {
        match tokens(s, i + 1) {
            Parsed::Read(ps, j) => if j < s.len() && s[j] == BACKTICK {
                Parsed::Read(ExpView::Command(ps), j + 1)
            } else {
                Parsed::Soft
            },
            Parsed::Soft => Parsed::Soft,
            Parsed::Hard => Parsed::Hard,
        }
    } else {
        Parsed::Soft
    }
}

/// The outcome of a reader, as it runs.
pub enum Step<T> {
    Read(T, usize),
    Miss,
    Fail,
}

pub open spec fn parts_step(r: Step<Vec<ParsedPart>>) -> Parsed<Seq<PartView>> {
    match r {
        Step::Read(v, k) => Parsed::Read(parts_view(v@), k as int),
        Step::Miss => Parsed::Soft,
        Step::Fail => Parsed::Hard,
    }
}

pub open spec fn exp_step(r: Step<Expansion>) -> Parsed<ExpView> {
    match r {
        Step::Read(e, k) => Parsed::Read(exp_view(e), k as int),
        Step::Miss => Parsed::Soft,
        Step::Fail => Parsed::Hard,
    }
}

/// `ps` in front of what `r` read.
pub open spec fn prepend(ps: Seq<PartView>, r: Parsed<Seq<PartView>>) -> Parsed<Seq<PartView>> {
    match r {
        Parsed::Read(rest, k) => Parsed::Read(ps + rest, k),
        Parsed::Soft => Parsed::Soft,
        Parsed::Hard => Parsed::Hard,
    }
}

pub fn is_kind(b: u8, kind: u8) -> (r: bool)
    ensures
        r == of_kind(b, kind),
{
    let digit = 48 <= b && b <= 57;
    let alnum = digit || (65 <= b && b <= 90) || (97 <= b && b <= 122);
    if kind == 0 {
        digit
    } else if kind == 1 {
        alnum
    } else if kind == 2 {
        alnum || b == UNDERSCORE
    } else {
        b == SPACE || b == TAB || b == CR || b == LF
    }
}

fn run_end_exec(s: &[u8], i: usize, kind: u8) -> (r: usize)
    requires
        i <= s@.len(),
    ensures
        r as int == run_end(s@, i as int, kind),
        i <= r <= s@.len(),
{
    let mut e = i;
    while e < s.len() && is_kind(s[e], kind)
        invariant
            i <= e <= s@.len(),
            run_end(s@, e as int, kind) == run_end(s@, i as int, kind),
        decreases s@.len() - e,
    {
        e = e + 1;
    }
    e
}

fn find_byte_exec(s: &[u8], i: usize, b: u8) -> (r: Option<usize>)
    requires
        i <= s@.len(),
    ensures
        match r {
            Some(k) => find_byte(s@, i as int, b) == Some(k as int) && i <= k < s@.len(),
            None => find_byte(s@, i as int, b) is None,
        },
{
    let mut k = i;
    while k < s.len()
        invariant
            i <= k <= s@.len(),
            find_byte(s@, k as int, b) == find_byte(s@, i as int, b),
        decreases s@.len() - k,
    {
        if s[k] == b {
            return Some(k);
        }
        k = k + 1;
    }
    None
}

fn special(b: u8, dq: bool) -> (r: bool)
    ensures
        r == is_special(b, dq),
{
    if dq {
        b == BACKSLASH || b == DQUOTE || b == DOLLAR || b == BACKTICK
    } else {
        b == BACKSLASH || b == LF || b == SPACE || b == DQUOTE || b == SQUOTE || b == DOLLAR || b
            == BACKTICK || b == PIPE || b == GT || b == AMP || b == LPAREN || b == RPAREN || b
            == SEMI
    }
}

/// Reads literal text from `start`, resolving escapes.
pub fn read_escaped(s: &[u8], start: usize, dq: bool) -> (r: Option<(Vec<u8>, usize)>)
    requires
        start <= s@.len(),
    ensures
        match r {
            Some((b, k)) => escaped(s@, start as int, start as int, Seq::empty(), dq) == Some(
                (b@, k as int),
            ) && start <= k <= s@.len(),
            None => escaped(s@, start as int, start as int, Seq::empty(), dq) is None,
        },
{
    let mut acc: Vec<u8> = Vec::new();
    let mut j = start;
    while j < s.len()
        invariant
            start <= j <= s@.len(),
            escaped(s@, start as int, j as int, acc@, dq) == escaped(
                s@,
                start as int,
                start as int,
                Seq::empty(),
                dq,
            ),
        decreases s@.len() - j,
    {
        let c = s[j];
        if !special(c, dq) {
            acc.push(c);
            j = j + 1;
        } else if c == BACKSLASH {
            if j + 1 >= s.len() {
                return None;
            }
            let n = s[j + 1];
            let ghost before = acc@;
            if dq {
                if n == DQUOTE || n == DOLLAR || n == BACKTICK || n == BACKSLASH {
                    acc.push(n);
                } else if n == 110 {
                    acc.push(LF);
                } else if n == 116 {
                    acc.push(TAB);
                } else {
                    return None;
                }
            } else if n != LF {
                acc.push(n);
            }
            assert(acc@ =~= before + escape_value(n, dq).unwrap());
            j = j + 2;
        } else if j == start {
            return None;
        } else {
            return Some((acc, j));
        }
    }
    Some((acc, s.len()))
}

/// Reads `'...'`.
pub fn read_single_quoted(s: &[u8], i: usize) -> (r: Option<(Vec<u8>, usize)>)
    requires
        i <= s@.len(),
    ensures
        match r {
            Some((b, k)) => single_quoted(s@, i as int) == Some((b@, k as int)) && i < k <= s@.len(),
            None => single_quoted(s@, i as int) is None,
        },
{
    if i < s.len() && s[i] == SQUOTE {
        match find_byte_exec(s, i + 1, SQUOTE) {
            Some(k) => Some((sub_bytes(s, i + 1, k), k + 1)),
            None => None,
        }
    } else {
        None
    }
}

/// A file descriptor number from its digits; none is 0.
pub fn atoi(v: &[u8]) -> (r: Option<u8>)
    ensures
        r == fd_number(v@),
{
    if v.len() == 0 {
        return Some(0);
    }
    match parse_decimal(v, 255) {
        Some(n) => Some(n as u8),
        None => None,
    }
}

fn read_fd(s: &[u8], a: usize, b: usize) -> (r: Option<u8>)
    requires
        a <= b <= s@.len(),
    ensures
        r == fd_number(s@.subrange(a as int, b as int)),
{
    let d = sub_bytes(s, a, b);
    atoi(d.as_slice())
}

/// Reads `[n]>&m` or `[n]>name`.
pub fn read_redirection(s: &[u8], i: usize) -> (r: Option<(ParsedPart, usize)>)
    requires
        i <= s@.len(),
    ensures
        match r {
            Some((p, k)) => redirection(s@, i as int) == Some((part_view(p), k as int)) && i < k
                <= s@.len(),
            None => redirection(s@, i as int) is None,
        },
{
    let d = run_end_exec(s, i, 0);
    if !(d < s.len() && d + 1 < s.len() && s[d] == GT) {
        return None;
    }
    let from = match read_fd(s, i, d) {
        Some(f) => f,
        None => return None,
    };
    if s[d + 1] == AMP {
        let e = run_end_exec(s, d + 2, 0);
        if e > d + 2 {
            match read_fd(s, d + 2, e) {
                Some(to) => Some((ParsedPart::Redirection(from, RedirectionTo::Stdio(to)), e)),
                None => None,
            }
        } else {
            None
        }
    } else {
        let e = run_end_exec(s, d + 1, 1);
        if e > d + 1 {
            Some((ParsedPart::Redirection(from, RedirectionTo::File(sub_bytes(s, d + 1, e))), e))
        } else {
            None
        }
    }
}

/// Reads the parts of a command line from `i`.
pub fn tokenize_from(s: &[u8], i: usize) -> (r: Step<Vec<ParsedPart>>)
    requires
        i <= s@.len(),
    ensures
        parts_step(r) == tokens(s@, i as int),
        r matches Step::Read(_, k) ==> i <= k <= s@.len(),
    decreases s@.len() - i, 3nat,
{
    let mut acc: Vec<ParsedPart> = Vec::new();
    let mut j = i;
    assert(parts_view(acc@) =~= Seq::<PartView>::empty());
    assert(prepend(Seq::empty(), tokens(s@, i as int)) == tokens(s@, i as int)) by {
        match tokens(s@, i as int) {
            Parsed::Read(rest, k) => {
                assert(Seq::<PartView>::empty() + rest =~= rest);
            },
            _ => {},
        }
    }
    loop
        invariant
            i <= j <= s@.len(),
            tokens(s@, i as int) == prepend(parts_view(acc@), tokens(s@, j as int)),
        decreases s@.len() - j,
    {
        match read_part(s, j) {
            Step::Read(ps, k) => {
                let ghost pa = parts_view(acc@);
                let ghost pp = parts_view(ps@);
                let mut ps = ps;
                acc.append(&mut ps);
                assert(parts_view(acc@) =~= pa + pp);
                proof {
                    match tokens(s@, k as int) {
                        Parsed::Read(rest, m) => {
                            assert(pa + (pp + rest) =~= (pa + pp) + rest);
                        },
                        _ => {},
                    }
                }
                j = k;
            },
            Step::Fail => {
                return Step::Fail;
            },
            Step::Miss => {
                let stop = j < s.len() && (s[j] == DQUOTE || s[j] == SQUOTE || (s[j] == DOLLAR && j
                    + 1 < s.len() && s[j + 1] == LBRACE));
                if stop {
                    return Step::Fail;
                }
                assert(parts_view(acc@) + Seq::<PartView>::empty() =~= parts_view(acc@));
                return Step::Read(acc, j);
            },
        }
    }
}

fn one_part(p: ParsedPart) -> (r: Vec<ParsedPart>)
    ensures
        parts_view(r@) == seq![part_view(p)],
{
    let mut v: Vec<ParsedPart> = Vec::new();
    v.push(p);
    assert(parts_view(v@) =~= seq![part_view(p)]);
    v
}

/// Reads one part at `i`.
pub fn read_part(s: &[u8], i: usize) -> (r: Step<Vec<ParsedPart>>)
    requires
        i <= s@.len(),
    ensures
        parts_step(r) == part(s@, i as int),
        r matches Step::Read(_, k) ==> i < k <= s@.len(),
    decreases s@.len() - i, 2nat,
{
    if i >= s.len() {
        return Step::Miss;
    }
    match read_double_quoted(s, i) {
        Step::Read(ps, j) => {
            return Step::Read(ps, j);
        },
        Step::Fail => {
            return Step::Fail;
        },
        Step::Miss => {},
    }
    match read_redirection(s, i) {
        Some((r, j)) => {
            return Step::Read(one_part(r), j);
        },
        None => {},
    }
    let e = run_end_exec(s, i, 3);
    if e > i {
        return Step::Read(one_part(ParsedPart::Break), e);
    }
    match read_single_quoted(s, i) {
        Some((b, j)) => {
            return Step::Read(one_part(ParsedPart::String(b)), j);
        },
        None => {},
    }
    match read_expansion(s, i) {
        Step::Read(x, j) => {
            return Step::Read(one_part(ParsedPart::Expansion(x)), j);
        },
        Step::Fail => {
            return Step::Fail;
        },
        Step::Miss => {},
    }
    match read_escaped(s, i, false) {
        Some((b, j)) => {
            assert(j > i) by {
                lemma_escaped_progress(s@, i as int, false);
            }
            Step::Read(one_part(ParsedPart::String(b)), j)
        },
        None => Step::Miss,
    }
}

/// Reading literal text at a byte that is not the end makes progress.
proof fn lemma_escaped_progress(s: Seq<u8>, i: int, dq: bool)
    requires
        0 <= i < s.len(),
    ensures
        escaped(s, i, i, Seq::empty(), dq) matches Some((_, k)) ==> k > i,
{
    lemma_escaped_bound(s, i, i, Seq::empty(), dq);
    if !is_special(s[i], dq) {
        lemma_escaped_bound(s, i, i + 1, seq![s[i]], dq);
    } else if s[i] == BACKSLASH && i + 1 < s.len() {
        if escape_value(s[i + 1], dq) is Some {
            lemma_escaped_bound(s, i, i + 2, escape_value(s[i + 1], dq).unwrap(), dq);
        }
    }
}

proof fn lemma_escaped_bound(s: Seq<u8>, start: int, j: int, acc: Seq<u8>, dq: bool)
    requires
        start <= j,
    ensures
        escaped(s, start, j, acc, dq) matches Some((_, k)) ==> (k >= j || k == s.len()) && (j
            < s.len() ==> k >= j),
    decreases s.len() - j,
{
    if j < s.len() {
        if !is_special(s[j], dq) {
            lemma_escaped_bound(s, start, j + 1, acc.push(s[j]), dq);
        } else if s[j] == BACKSLASH && j + 1 < s.len() {
            if escape_value(s[j + 1], dq) is Some {
                lemma_escaped_bound(s, start, j + 2, acc + escape_value(s[j + 1], dq).unwrap(), dq);
            }
        }
    }
}

/// Reads `"..."` at `i`.
pub fn read_double_quoted(s: &[u8], i: usize) -> (r: Step<Vec<ParsedPart>>)
    requires
        i <= s@.len(),
    ensures
        parts_step(r) == double_quoted(s@, i as int),
        r matches Step::Read(_, k) ==> i < k <= s@.len(),
    decreases s@.len() - i, 1nat,
{
    if !(i < s.len() && s[i] == DQUOTE) {
        return Step::Miss;
    }
    let mut acc: Vec<ParsedPart> = Vec::new();
    let mut j = i + 1;
    assert(parts_view(acc@) =~= Seq::<PartView>::empty());
    loop
        invariant
            i < j <= s@.len(),
            double_quoted(s@, i as int) == dq_body(s@, j as int, parts_view(acc@)),
        decreases s@.len() - j,
    {
        if j < s.len() && s[j] == DQUOTE {
            return Step::Read(acc, j + 1);
        }
        let ghost pa = parts_view(acc@);
        match read_escaped(s, j, true) {
            Some((b, k)) => {
                if !(j < k) {
                    return Step::Miss;
                }
                acc.push(ParsedPart::String(b));
                assert(parts_view(acc@) =~= pa.push(PartView::String(b@)));
                j = k;
            },
            None => {
                match read_expansion(s, j) {
                    Step::Read(x, k) => {
                        let ghost xv = exp_view(x);
                        acc.push(ParsedPart::Expansion(x));
                        assert(parts_view(acc@) =~= pa.push(PartView::Expansion(xv)));
                        j = k;
                    },
                    Step::Miss => {
                        return Step::Miss;
                    },
                    Step::Fail => {
                        return Step::Fail;
                    },
                }
            },
        }
    }
}

/// Reads a substitution at `i`.
pub fn read_expansion(s: &[u8], i: usize) -> (r: Step<Expansion>)
    requires
        i <= s@.len(),
    ensures
        exp_step(r) == expansion(s@, i as int),
        r matches Step::Read(_, k) ==> i < k <= s@.len(),
    decreases s@.len() - i, 0nat,
{
    if i >= s.len() {
        return Step::Miss;
    }
    if s[i] == DOLLAR {
        if i + 1 >= s.len() {
            return Step::Miss;
        }
        let c = s[i + 1];
        if c == DOLLAR {
            let mut v: Vec<u8> = Vec::new();
            v.push(DOLLAR);
            assert(v@ =~= seq![DOLLAR]);
            Step::Read(Expansion::Variable(v), i + 2)
        } else if c == LPAREN {
            match tokenize_from(s, i + 2) {
                Step::Read(ps, j) => {
                    if j < s.len() && s[j] == RPAREN {
                        let ghost pv = parts_view(ps@);
                        let x = Expansion::Command(ps);
                        assert(exp_view(x) == ExpView::Command(pv)) by {
                            assert(exp_view(x)->Command_0 =~= pv);
                        }
                        Step::Read(x, j + 1)
                    } else {
                        Step::Fail
                    }
                },
                _ => Step::Fail,
            }
        } else if is_kind(c, 2) {
            let e = run_end_exec(s, i + 1, 2);
            Step::Read(Expansion::Variable(sub_bytes(s, i + 1, e)), e)
        } else if c == LBRACE {
            match find_byte_exec(s, i + 2, RBRACE) {
                Some(k) => Step::Read(Expansion::Variable(sub_bytes(s, i + 2, k)), k + 1),
                None => Step::Miss,
            }
        } else {
            Step::Miss
        }
    } else if s[i] == BACKTICK {
        match tokenize_from(s, i + 1) {
            Step::Read(ps, j) => {
                if j < s.len() && s[j] == BACKTICK {
                    let ghost pv = parts_view(ps@);
                    let x = Expansion::Command(ps);
                    assert(exp_view(x) == ExpView::Command(pv)) by {
                        assert(exp_view(x)->Command_0 =~= pv);
                    }
                    Step::Read(x, j + 1)
                } else {
                    Step::Miss
                }
            },
            Step::Miss => Step::Miss,
            Step::Fail => Step::Fail,
        }
    } else {
        Step::Miss
    }
}

/// A command line that cannot be read.
#[derive(Debug, PartialEq, Eq)]
pub struct SyntaxError;

/// Reads one command of a line: its parts, and the bytes after it.
pub fn tokenize(s: &[u8]) -> (r: Result<(Vec<u8>, Vec<ParsedPart>), SyntaxError>)
    ensures
        match tokens(s@, 0) {
            Parsed::Read(ps, k) => r matches Ok((rest, v)) && rest@ == s@.skip(k) && parts_view(
                v@,
            ) == ps,
            _ => r is Err,
        },
{
    match tokenize_from(s, 0) {
        Step::Read(v, k) => Ok((sub_bytes(s, k, s.len()), v)),
        _ => Err(SyntaxError),
    }
}

/// Reads a substitution at the start of `s`, and the bytes after it.
pub fn parse_expansion(s: &[u8]) -> (r: Option<(Vec<u8>, Expansion)>)
    ensures
        match expansion(s@, 0) {
            Parsed::Read(x, k) => r matches Some((rest, e)) && rest@ == s@.skip(k) && exp_view(e)
                == x,
            _ => r is None,
        },
{
    match read_expansion(s, 0) {
        Step::Read(x, k) => Some((sub_bytes(s, k, s.len()), x)),
        _ => None,
    }
}

/// Reads an unquoted word at the start of `s`, escapes resolved.
pub fn parse_unquoted(s: &[u8]) -> (r: Option<(Vec<u8>, Vec<u8>)>)
    ensures
        match escaped(s@, 0, 0, Seq::empty(), false) {
            Some((b, k)) => r matches Some((rest, w)) && rest@ == s@.skip(k) && w@ == b,
            None => r is None,
        },
{
    match read_escaped(s, 0, false) {
        Some((b, k)) => Some((sub_bytes(s, k, s.len()), b)),
        None => None,
    }
}

/// Reads `'...'` at the start of `s`.
pub fn parse_single_quoted(s: &[u8]) -> (r: Option<(Vec<u8>, Vec<u8>)>)
    ensures
        match single_quoted(s@, 0) {
            Some((b, k)) => r matches Some((rest, w)) && rest@ == s@.skip(k) && w@ == b,
            None => r is None,
        },
{
    match read_single_quoted(s, 0) {
        Some((b, k)) => Some((sub_bytes(s, k, s.len()), b)),
        None => None,
    }
}

/// Reads `"..."` at the start of `s`.
pub fn parse_double_quoted(s: &[u8]) -> (r: Option<(Vec<u8>, Vec<ParsedPart>)>)
    ensures
        match double_quoted(s@, 0) {
            Parsed::Read(ps, k) => r matches Some((rest, v)) && rest@ == s@.skip(k) && parts_view(
                v@,
            ) == ps,
            _ => r is None,
        },
{
    match read_double_quoted(s, 0) {
        Step::Read(v, k) => Some((sub_bytes(s, k, s.len()), v)),
        _ => None,
    }
}

/// Whether a byte separates words: a space or a line feed.
pub open spec fn is_separator(b: u8) -> bool {
    b == SPACE || b == LF
}

/// Lines made of plain words and separators: no quotes, escapes,
/// substitutions, redirections, tabs or carriage returns.
pub open spec fn is_plain(s: Seq<u8>) -> bool {
    forall|k: int| 0 <= k < s.len() ==> is_separator(#[trigger] s[k]) || (!is_special(s[k], false) && !is_blank(s[k]))
}

/// The first separator at or after `i`, or the end.
pub open spec fn next_separator(s: Seq<u8>, i: int) -> int
    decreases s.len() - i,
{
    if 0 <= i < s.len() && !is_separator(s[i]) {
        next_separator(s, i + 1)
    } else {
        i
    }
}

/// The first byte at or after `i` that is no separator, or the end.
pub open spec fn next_word(s: Seq<u8>, i: int) -> int
    decreases s.len() - i,
{
    if 0 <= i < s.len() && is_separator(s[i]) {
        next_word(s, i + 1)
    } else {
        i
    }
}

/// The line from `i` with each run of separators written as one space.
pub open spec fn normalized(s: Seq<u8>, i: int) -> Seq<u8>
    decreases s.len() - i,
{
    if i < 0 || i >= s.len() {
        Seq::empty()
    } else if is_separator(s[i]) {
        if i < next_word(s, i) <= s.len() {
            seq![SPACE] + normalized(s, next_word(s, i))
        } else {
            Seq::empty()
        }
    } else {
        if i < next_separator(s, i) <= s.len() {
            s.subrange(i, next_separator(s, i)) + normalized(s, next_separator(s, i))
        } else {
            Seq::empty()
        }
    }
}

/// The parts written back: text as it is, each break as a space.
pub open spec fn rendered(ps: Seq<PartView>) -> Seq<u8>
    decreases ps.len(),
{
    if ps.len() == 0 {
        Seq::empty()
    } else {
        let piece = match ps[0] {
            PartView::Break => seq![SPACE],
            PartView::String(b) => b,
            _ => Seq::empty(),
        };
        piece + rendered(ps.drop_first())
    }
}

proof fn lemma_next_bounds(s: Seq<u8>, i: int)
    requires
        0 <= i <= s.len(),
    ensures
        i <= next_separator(s, i) <= s.len(),
        i <= next_word(s, i) <= s.len(),
        i < s.len() && !is_separator(s[i]) ==> next_separator(s, i) > i,
        i < s.len() && is_separator(s[i]) ==> next_word(s, i) > i,
    decreases s.len() - i,
{
    if i < s.len() {
        lemma_next_bounds(s, i + 1);
    }
}

proof fn lemma_run_end_bounds(s: Seq<u8>, i: int, kind: u8)
    requires
        0 <= i <= s.len(),
    ensures
        i <= run_end(s, i, kind) <= s.len(),
    decreases s.len() - i,
{
    if i < s.len() {
        lemma_run_end_bounds(s, i + 1, kind);
    }
}

proof fn lemma_blank_run_is_separators(s: Seq<u8>, i: int)
    requires
        is_plain(s),
        0 <= i <= s.len(),
    ensures
        run_end(s, i, 3) == next_word(s, i),
    decreases s.len() - i,
{
    if i < s.len() {
        lemma_blank_run_is_separators(s, i + 1);
    }
}

proof fn lemma_word_is_literal(s: Seq<u8>, start: int, j: int)
    requires
        is_plain(s),
        0 <= start <= j <= next_separator(s, start),
        next_separator(s, start) <= s.len(),
        forall|k: int| start <= k < next_separator(s, start) ==> !is_separator(#[trigger] s[k]),
        next_separator(s, start) < s.len() ==> is_separator(s[next_separator(s, start)]),
    ensures
        escaped(s, start, j, s.subrange(start, j), false) == if next_separator(s, start) > start {
            Some((s.subrange(start, next_separator(s, start)), next_separator(s, start)))
        } else {
            escaped(s, start, j, s.subrange(start, j), false)
        },
    decreases s.len() - j,
{
    let e = next_separator(s, start);
    if e > start {
        if j < e {
            assert(s.subrange(start, j).push(s[j]) =~= s.subrange(start, j + 1));
            lemma_word_is_literal(s, start, j + 1);
        } else if j < s.len() {
            assert(is_special(s[j], false));
        }
    }
}

proof fn lemma_separator_facts(s: Seq<u8>, i: int)
    requires
        0 <= i <= s.len(),
    ensures
        forall|k: int| i <= k < next_separator(s, i) ==> !is_separator(#[trigger] s[k]),
        next_separator(s, i) < s.len() ==> is_separator(s[next_separator(s, i)]),
    decreases s.len() - i,
{
    if i < s.len() && !is_separator(s[i]) {
        lemma_separator_facts(s, i + 1);
    }
}

/// A plain line reads to its end, and its parts, written back with a space
/// for each break, give the line with each run of separators as one space.
pub proof fn law_plain_line_lossless(s: Seq<u8>, i: int)
    requires
        is_plain(s),
        0 <= i <= s.len(),
    ensures
        tokens(s, i) matches Parsed::Read(ps, k) && k == s.len() && rendered(ps) == normalized(s, i),
    decreases s.len() - i,
{
    lemma_next_bounds(s, i);
    if i == s.len() {
        assert(part(s, i) is Soft);
        assert(rendered(Seq::<PartView>::empty()) =~= Seq::<u8>::empty());
    } else {
        let d = run_end(s, i, 0);
        lemma_run_end_bounds(s, i, 0);
        assert(d < s.len() ==> s[d] != GT);
        assert(redirection(s, i) is None);
        assert(double_quoted(s, i) is Soft);
        assert(single_quoted(s, i) is None);
        assert(expansion(s, i) is Soft);
        if is_separator(s[i]) {
            let j = next_word(s, i);
            lemma_blank_run_is_separators(s, i);
            assert(blanks(s, i) == Some(j));
            assert(part(s, i) == Parsed::Read(seq![PartView::Break], j));
            law_plain_line_lossless(s, j);
            let rest = tokens(s, j)->Read_0;
            assert((seq![PartView::Break] + rest).drop_first() =~= rest);
        } else {
            let e = next_separator(s, i);
            lemma_run_end_bounds(s, i, 3);
            assert(blanks(s, i) is None);
            lemma_separator_facts(s, i);
            assert(s.subrange(i, i) =~= Seq::<u8>::empty());
            lemma_word_is_literal(s, i, i);
            assert(part(s, i) == Parsed::Read(seq![PartView::String(s.subrange(i, e))], e));
            law_plain_line_lossless(s, e);
            let rest = tokens(s, e)->Read_0;
            assert((seq![PartView::String(s.subrange(i, e))] + rest).drop_first() =~= rest);
        }
    }
}

} // verus!
