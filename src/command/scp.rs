//! `scp -t`: the receiving end of an SCP upload. Files are never stored;
//! each one is recorded in the audit log.

use vstd::prelude::*;
use vstd::string::StringSliceAdditionalSpecFns;
use crate::audit::{appended_writes, is_write, AuditLogAction, WriteFileEvent};
use crate::command::{argparse, arg_views, parse_words, Arg, ArgView, CommandResult};
use crate::connection::ConnectionState;
use crate::file_system::{join, join_path};
use crate::text::{all_digits, append_text, copy_bytes, decimal_up_to, digits_value, parse_decimal, sub_bytes, views};

verus! {

pub const HELP: &'static str = "usage: scp [-346ABCOpqRrsTv] [-c cipher] [-D sftp_server_path] [-F ssh_config]
           [-i identity_file] [-J destination] [-l limit] [-o ssh_option]
           [-P port] [-S program] [-X sftp_option] source ... target\n";

pub const AMBIGUOUS_TARGET: &'static str = "scp: ambiguous target\n";

pub const NL: u8 = 10;

pub const SP: u8 = 32;

/// The acknowledgement sent after each record.
pub const ACK: u8 = 0;

pub open spec fn is_digit(b: u8) -> bool {
    48 <= b <= 57
}

/// The end of the run of digits that starts at `i`.
pub open spec fn digits_end(s: Seq<u8>, i: int) -> int
    decreases s.len() - i,
{
    if 0 <= i < s.len() && is_digit(s[i]) {
        digits_end(s, i + 1)
    } else {
        i
    }
}

/// The position of the first line feed at or after `i`, or the length.
pub open spec fn newline_from(s: Seq<u8>, i: int) -> int
    decreases s.len() - i,
{
    if i < 0 || i >= s.len() {
        s.len() as int
    } else if s[i] == NL {
        i
    } else {
        newline_from(s, i + 1)
    }
}

/// The number whose digits start at `i`, at most `max`, and where it ends.
pub open spec fn number_at(s: Seq<u8>, i: int, max: int) -> Option<(int, int)> {
    let e = digits_end(s, i);
    if 0 <= i <= e <= s.len() {
        match decimal_up_to(s.subrange(i, e), max) {
            Some(v) => Some((v, e)),
            None => None,
        }
    } else {
        None
    }
}

/// A control record, as plain values.
pub enum ReceiveView {
    FileCopy(Seq<u8>, int, Seq<u8>),
    DirectoryCopy(Seq<u8>, int, Seq<u8>),
    EndDirectory,
    AccessTime(int, int, int, int),
}

/// `<mode> <length> <name>\n` after the record's letter: mode, length, name
/// and the bytes the whole record takes.
pub open spec fn copy_line(s: Seq<u8>, max: int) -> Option<(Seq<u8>, int, Seq<u8>, int)> {
    if s.len() >= 6 && s[5] == SP {
        match number_at(s, 6, max) {
            Some((v, e)) => if e < s.len() && s[e] == SP && newline_from(s, e + 1) < s.len() {
                let n = newline_from(s, e + 1);
                Some((s.subrange(1, 5), v, s.subrange(e + 1, n), n + 1))
            } else {
                None
            },
            None => None,
        }
    } else {
        None
    }
}

/// `<a> <b> <c> <d>\n` after the record's letter.
pub open spec fn times_line(s: Seq<u8>) -> Option<(ReceiveView, int)> {
    let m = u64::MAX as int;
    match number_at(s, 1, m) {
        Some((a, e1)) => if e1 < s.len() && s[e1] == SP {
            match number_at(s, e1 + 1, m) {
                Some((b, e2)) => if e2 < s.len() && s[e2] == SP {
                    match number_at(s, e2 + 1, m) {
                        Some((c, e3)) => if e3 < s.len() && s[e3] == SP {
                            match number_at(s, e3 + 1, m) {
                                Some((d, e4)) => if e4 < s.len() && s[e4] == NL {
                                    Some((ReceiveView::AccessTime(a, b, c, d), e4 + 1))
                                } else {
                                    None
                                },
                                None => None,
                            }
                        } else {
                            None
                        },
                        None => None,
                    }
                } else {
                    None
                },
                None => None,
            }
        } else {
            None
        },
        None => None,
    }
}

/// The control record at the start of `s`, and the bytes it takes.
pub open spec fn receive_spec(s: Seq<u8>) -> Option<(ReceiveView, int)> {
    if s.len() == 0 {
        None
    } else if s[0] == 67 {
        match copy_line(s, usize::MAX as int) {
            Some((m, v, n, k)) => Some((ReceiveView::FileCopy(m, v, n), k)),
            None => None,
        }
    } else if s[0] == 68 {
        match copy_line(s, u64::MAX as int) {
            Some((m, v, n, k)) => Some((ReceiveView::DirectoryCopy(m, v, n), k)),
            None => None,
        }
    } else if s[0] == 69 {
        if s.len() >= 2 && s[1] == NL {
            Some((ReceiveView::EndDirectory, 2))
        } else {
            None
        }
    } else if s[0] == 84 {
        times_line(s)
    } else {
        None
    }
}

/// A control record of the SCP protocol.
#[derive(Debug, PartialEq, Eq)]
#[allow(inconsistent_fields)]
pub enum Receive {
    FileCopy { mode: Vec<u8>, length: usize, file_name: Vec<u8> },
    DirectoryCopy { mode: Vec<u8>, length: u64, directory_name: Vec<u8> },
    EndDirectory,
    AccessTime {
        modified_time: u64,
        modified_time_micros: u64,
        access_time: u64,
        access_time_micros: u64,
    },
}

impl View for Receive {
    type V = ReceiveView;

    open spec fn view(&self) -> ReceiveView {
        match self {
            Receive::FileCopy { mode, length, file_name } => ReceiveView::FileCopy(
                mode@,
                *length as int,
                file_name@,
            ),
            Receive::DirectoryCopy { mode, length, directory_name } => ReceiveView::DirectoryCopy(
                mode@,
                *length as int,
                directory_name@,
            ),
            Receive::EndDirectory => ReceiveView::EndDirectory,
            Receive::AccessTime {
                modified_time,
                modified_time_micros,
                access_time,
                access_time_micros,
            } => ReceiveView::AccessTime(
                *modified_time as int,
                *modified_time_micros as int,
                *access_time as int,
                *access_time_micros as int,
            ),
        }
    }
}

/// Reads the number whose digits start at `i`.
fn read_number(s: &[u8], i: usize, max: u64) -> (r: Option<(u64, usize)>)
    requires
        i <= s@.len(),
    ensures
        match r {
            Some((v, e)) => number_at(s@, i as int, max as int) == Some((v as int, e as int)),
            None => number_at(s@, i as int, max as int) is None,
        },
{
    let mut e: usize = i;
    while e < s.len() && 48 <= s[e] && s[e] <= 57
        invariant
            i <= e <= s@.len(),
            digits_end(s@, e as int) == digits_end(s@, i as int),
        decreases s@.len() - e,
    {
        e = e + 1;
    }
    let digits = sub_bytes(s, i, e);
    match parse_decimal(digits.as_slice(), max) {
        Some(v) => Some((v, e)),
        None => None,
    }
}

/// The position of the first line feed at or after `i`, or the length.
fn find_newline(s: &[u8], i: usize) -> (r: usize)
    requires
        i <= s@.len(),
    ensures
        r as int == newline_from(s@, i as int),
        i <= r <= s@.len(),
{
    let mut k: usize = i;
    while k < s.len() && s[k] != NL
        invariant
            i <= k <= s@.len(),
            newline_from(s@, k as int) == newline_from(s@, i as int),
        decreases s@.len() - k,
    {
        k = k + 1;
    }
    k
}

/// Reads `<mode> <length> <name>\n` after the record's letter.
fn read_copy_line(s: &[u8], max: u64) -> (r: Option<(Vec<u8>, u64, Vec<u8>, usize)>)
    ensures
        match r {
            Some((m, v, n, k)) => copy_line(s@, max as int) == Some((m@, v as int, n@, k as int))
                && 0 < k <= s@.len() && v <= max,
            None => copy_line(s@, max as int) is None,
        },
{
    if s.len() < 6 || s[5] != SP {
        return None;
    }
    match read_number(s, 6, max) {
        Some((v, e)) => {
            if e < s.len() && s[e] == SP {
                let n = find_newline(s, e + 1);
                if n < s.len() {
                    let mode = sub_bytes(s, 1, 5);
                    let name = sub_bytes(s, e + 1, n);
                    return Some((mode, v, name, n + 1));
                }
            }
            None
        },
        None => None,
    }
}

/// Reads the four numbers of a `T` record.
fn read_times(s: &[u8]) -> (r: Option<(Receive, usize)>)
    requires
        s@.len() >= 1,
    ensures
        match r {
            Some((rcv, k)) => times_line(s@) == Some((rcv@, k as int)) && 0 < k <= s@.len(),
            None => times_line(s@) is None,
        },
{
    let m: u64 = 0xffff_ffff_ffff_ffff;
    let (a, e1) = match read_number(s, 1, m) {
        Some(x) => x,
        None => return None,
    };
    if !(e1 < s.len() && s[e1] == SP) {
        return None;
    }
    let (b, e2) = match read_number(s, e1 + 1, m) {
        Some(x) => x,
        None => return None,
    };
    if !(e2 < s.len() && s[e2] == SP) {
        return None;
    }
    let (c, e3) = match read_number(s, e2 + 1, m) {
        Some(x) => x,
        None => return None,
    };
    if !(e3 < s.len() && s[e3] == SP) {
        return None;
    }
    let (d, e4) = match read_number(s, e3 + 1, m) {
        Some(x) => x,
        None => return None,
    };
    if !(e4 < s.len() && s[e4] == NL) {
        return None;
    }
    Some(
        (
            Receive::AccessTime {
                modified_time: a,
                modified_time_micros: b,
                access_time: c,
                access_time_micros: d,
            },
            e4 + 1,
        ),
    )
}

impl Receive {
    /// Reads the control record at the start of `rest`; gives it with the
    /// bytes after it.
    pub fn parse(rest: &[u8]) -> (r: Option<(Vec<u8>, Receive)>)
        ensures
            match r {
                Some((after, rcv)) => exists|k: int|
                    receive_spec(rest@) == Some((rcv@, k)) && 0 < k <= rest@.len() && after@
                        == rest@.skip(k),
                None => receive_spec(rest@) is None,
            },
    {
        let (rcv, k) = match Receive::parse_len(rest) {
            Some(x) => x,
            None => return None,
        };
        Some((sub_bytes(rest, k, rest.len()), rcv))
    }

    /// Reads the control record at the start of `rest`, and the bytes it takes.
    pub fn parse_len(rest: &[u8]) -> (r: Option<(Receive, usize)>)
        ensures
            match r {
                Some((rcv, k)) => receive_spec(rest@) == Some((rcv@, k as int)) && 0 < k
                    <= rest@.len(),
                None => receive_spec(rest@) is None,
            },
    {
        if rest.len() == 0 {
            return None;
        }
        let c = rest[0];
        if c == 67 {
            match read_copy_line(rest, usize::MAX as u64) {
                Some((mode, v, name, k)) => Some(
                    (Receive::FileCopy { mode, length: v as usize, file_name: name }, k),
                ),
                None => None,
            }
        } else if c == 68 {
            match read_copy_line(rest, 0xffff_ffff_ffff_ffff) {
                Some((mode, v, name, k)) => Some(
                    (Receive::DirectoryCopy { mode, length: v, directory_name: name }, k),
                ),
                None => None,
            }
        } else if c == 69 {
            if rest.len() >= 2 && rest[1] == NL {
                Some((Receive::EndDirectory, 2))
            } else {
                None
            }
        } else if c == 84 {
            read_times(rest)
        } else {
            None
        }
    }
}

/// `s` without slashes at its end.
pub open spec fn strip_end_slashes(s: Seq<u8>) -> Seq<u8>
    decreases s.len(),
{
    if s.len() > 0 && s.last() == crate::file_system::SLASH {
        strip_end_slashes(s.drop_last())
    } else {
        s
    }
}

/// The position of the last slash, or -1.
pub open spec fn last_slash(s: Seq<u8>) -> int
    decreases s.len(),
{
    if s.len() == 0 {
        -1
    } else if s.last() == crate::file_system::SLASH {
        s.len() - 1
    } else {
        last_slash(s.drop_last())
    }
}

/// The directory that holds `p`: none for an empty path or the root.
pub open spec fn parent_of(p: Seq<u8>) -> Option<Seq<u8>> {
    let t = strip_end_slashes(p);
    if t.len() == 0 {
        None
    } else {
        let k = last_slash(t);
        if k < 0 {
            Some(Seq::empty())
        } else {
            let h = strip_end_slashes(t.take(k));
            if h.len() == 0 {
                Some(seq![crate::file_system::SLASH])
            } else {
                Some(h)
            }
        }
    }
}

fn strip_slashes(s: &[u8], end: usize) -> (r: usize)
    requires
        end <= s@.len(),
    ensures
        r <= end,
        strip_end_slashes(s@.take(end as int)) == s@.take(r as int),
{
    let mut e = end;
    while e > 0 && s[e - 1] == crate::file_system::SLASH
        invariant
            e <= end <= s@.len(),
            strip_end_slashes(s@.take(end as int)) == strip_end_slashes(s@.take(e as int)),
        decreases e,
    {
        assert(s@.take(e as int).drop_last() =~= s@.take(e - 1));
        e = e - 1;
    }
    e
}

/// Goes up one directory, as `PathBuf::pop` does; the root and the empty
/// path stay as they are.
pub fn pop_path(p: &Vec<u8>) -> (r: Vec<u8>)
    ensures
        r@ == match parent_of(p@) {
            Some(q) => q,
            None => p@,
        },
{
    assert(p@.take(p@.len() as int) =~= p@);
    let t = strip_slashes(p.as_slice(), p.len());
    if t == 0 {
        return copy_bytes(p.as_slice());
    }
    let ghost tv = p@.take(t as int);
    let mut k = t;
    while k > 0 && p[k - 1] != crate::file_system::SLASH
        invariant
            k <= t <= p@.len(),
            tv == p@.take(t as int),
            last_slash(tv) == last_slash(p@.take(k as int)),
        decreases k,
    {
        assert(p@.take(k as int).drop_last() =~= p@.take(k - 1));
        k = k - 1;
    }
    if k == 0 {
        return Vec::new();
    }
    assert(last_slash(tv) == k - 1);
    assert(tv.take(k - 1) =~= p@.take(k - 1));
    let h = strip_slashes(p.as_slice(), k - 1);
    if h == 0 {
        let mut r: Vec<u8> = Vec::new();
        r.push(crate::file_system::SLASH);
        assert(r@ =~= seq![crate::file_system::SLASH]);
        r
    } else {
        sub_bytes(p.as_slice(), 0, h)
    }
}

/// Where the receiver stands.
#[derive(Debug)]
pub enum ScpState {
    /// Expecting a control record.
    Waiting,
    /// Expecting the bytes of a file of this length, to stand at this path.
    ReceivingFile(usize, Vec<u8>),
    /// Expecting the zero byte after a file.
    AwaitingSeparator,
}

pub enum ScpStateView {
    Waiting,
    ReceivingFile(int, Seq<u8>),
    AwaitingSeparator,
}

impl View for ScpState {
    type V = ScpStateView;

    open spec fn view(&self) -> ScpStateView {
        match self {
            ScpState::Waiting => ScpStateView::Waiting,
            ScpState::ReceivingFile(n, p) => ScpStateView::ReceivingFile(*n as int, p@),
            ScpState::AwaitingSeparator => ScpStateView::AwaitingSeparator,
        }
    }
}

/// The receiver as plain values: target directory, bytes not yet used, state.
pub struct ScpView {
    pub path: Seq<u8>,
    pub pending: Seq<u8>,
    pub state: ScpStateView,
}

pub open spec fn state_rank(s: ScpStateView) -> int {
    match s {
        ScpStateView::Waiting => 0,
        ScpStateView::AwaitingSeparator => 1,
        ScpStateView::ReceivingFile(_, _) => 2,
    }
}

/// The receiver after control record `rcv`, and what it keeps of the input.
pub open spec fn after_record(v: ScpView, rcv: ReceiveView, rest: Seq<u8>) -> ScpView {
    match rcv {
        ReceiveView::FileCopy(_, len, name) => ScpView {
            path: v.path,
            pending: rest,
            state: ScpStateView::ReceivingFile(len, join(v.path, name)),
        },
        ReceiveView::DirectoryCopy(_, _, name) => ScpView {
            path: join(v.path, name),
            pending: rest,
            state: ScpStateView::Waiting,
        },
        ReceiveView::EndDirectory => ScpView {
            path: match parent_of(v.path) {
                Some(q) => q,
                None => v.path,
            },
            pending: rest,
            state: ScpStateView::Waiting,
        },
        ReceiveView::AccessTime(_, _, _, _) => ScpView {
            path: v.path,
            pending: rest,
            state: ScpStateView::Waiting,
        },
    }
}

/// What the receiver makes of the bytes it holds: where it ends, the
/// acknowledgements it sends, the files it records (path and content), and
/// whether a record could not be read.
pub open spec fn scp_run(v: ScpView) -> (ScpView, Seq<u8>, Seq<(Seq<u8>, Seq<u8>)>, bool)
    decreases v.pending.len() * 3 + state_rank(v.state),
{
    if v.pending.len() == 0 {
        (v, Seq::empty(), Seq::empty(), false)
    } else {
        match v.state {
            ScpStateView::Waiting => match receive_spec(v.pending) {
                Some((rcv, k)) => if 0 < k <= v.pending.len() {
                    let (f, o, w, failed) = scp_run(after_record(v, rcv, v.pending.skip(k)));
                    (f, seq![ACK] + o, w, failed)
                } else {
                    (v, Seq::empty(), Seq::empty(), true)
                },
                None => (v, Seq::empty(), Seq::empty(), true),
            },
            ScpStateView::ReceivingFile(len, p) => if v.pending.len() < len || len < 0 {
                (v, Seq::empty(), Seq::empty(), false)
            } else {
                let (f, o, w, failed) = scp_run(
                    ScpView {
                        path: v.path,
                        pending: v.pending.skip(len),
                        state: ScpStateView::AwaitingSeparator,
                    },
                );
                (f, o, seq![(p, v.pending.take(len))] + w, failed)
            },
            ScpStateView::AwaitingSeparator => if v.pending[0] == ACK {
                let (f, o, w, failed) = scp_run(
                    ScpView { path: v.path, pending: v.pending.skip(1), state: ScpStateView::Waiting },
                );
                (f, seq![ACK] + o, w, failed)
            } else {
                let (f, o, w, failed) = scp_run(
                    ScpView { path: v.path, pending: v.pending, state: ScpStateView::Waiting },
                );
                (f, o, w, failed)
            },
        }
    }
}

/// The receiving end of an upload.
#[derive(Debug)]
pub struct Scp {
    pub path: Vec<u8>,
    pub pending_data: Vec<u8>,
    pub state: ScpState,
}

impl View for Scp {
    type V = ScpView;

    open spec fn view(&self) -> ScpView {
        ScpView { path: self.path@, pending: self.pending_data@, state: self.state@ }
    }
}

/// How `scp` reads its options: `-t` to receive, `-r` and `-v` allowed, the
/// last operand as target. `None` for any other option.
pub open spec fn scp_options(args: Seq<ArgView>) -> Option<(bool, Option<Seq<u8>>)>
    decreases args.len(),
{
    if args.len() == 0 {
        Some((false, None))
    } else {
        match scp_options(args.drop_last()) {
            None => None,
            Some((t, p)) => match args.last() {
                ArgView::Short(c) => if c == 116 {
                    Some((true, p))
                } else if c == 114 || c == 118 {
                    Some((t, p))
                } else {
                    None
                },
                ArgView::Operand(o) => Some((t, Some(o))),
                ArgView::Long(_) => None,
            },
        }
    }
}

impl Scp {
    /// Starts receiving into the target directory, acknowledging with a zero
    /// byte; prints help or an error and exits with 1 on other arguments.
    pub fn new(
        _connection: &mut ConnectionState,
        params: &[Vec<u8>],
        _redirected: bool,
        out: &mut Vec<u8>,
    ) -> (r: CommandResult<Self>)
        ensures
            *final(_connection) == *old(_connection),
            match scp_options(parse_words(views(params@))) {
                Some((true, Some(p))) => final(out)@ == old(out)@.push(ACK) && (r matches CommandResult::ReadStdin(s)
                    && s@ == (ScpView { path: p, pending: Seq::empty(), state: ScpStateView::Waiting })),
                Some((_, None)) => final(out)@ == old(out)@ + AMBIGUOUS_TARGET.spec_bytes() && r
                    == CommandResult::<Self>::Exit(1),
                _ => final(out)@ == old(out)@ + HELP.spec_bytes() && r == CommandResult::<Self>::Exit(1),
            },
    {
        let args = argparse(params);
        let ghost av = arg_views(args@);
        let mut transfer = false;
        let mut path: Option<Vec<u8>> = None;
        let mut i: usize = 0;
        assert(av.take(0) =~= Seq::<ArgView>::empty());
        while i < args.len()
            invariant
                av == arg_views(args@),
                av == parse_words(views(params@)),
                out@ == old(out)@,
                0 <= i <= args@.len(),
                scp_options(av.take(i as int)) == Some((transfer, match path {
                    Some(p) => Some(p@),
                    None => None::<Seq<u8>>,
                })),
            decreases args@.len() - i,
        {
            assert(av.take(i + 1).drop_last() =~= av.take(i as int));
            assert(av.take(i + 1).last() == args@[i as int]@);
            match &args[i] {
                Arg::Short(c) => {
                    if *c == 116 {
                        transfer = true;
                    } else if *c == 114 || *c == 118 {
                    } else {
                        proof {
                            lemma_options_fail(av, (i + 1) as nat);
                        }
                        append_text(out, HELP);
                        return CommandResult::Exit(1);
                    }
                },
                Arg::Operand(p) => {
                    path = Some(copy_bytes(p.as_slice()));
                },
                Arg::Long(_) => {
                    proof {
                        lemma_options_fail(av, (i + 1) as nat);
                    }
                    append_text(out, HELP);
                    return CommandResult::Exit(1);
                },
            }
            i = i + 1;
        }
        assert(av.take(args@.len() as int) =~= av);
        match path {
            None => {
                append_text(out, AMBIGUOUS_TARGET);
                CommandResult::Exit(1)
            },
            Some(p) => {
                if !transfer {
                    append_text(out, HELP);
                    return CommandResult::Exit(1);
                }
                out.push(ACK);
                CommandResult::ReadStdin(Scp { path: p, pending_data: Vec::new(), state: ScpState::Waiting })
            },
        }
    }

    /// Takes more input: reads control records and file bodies as far as the
    /// bytes go, acknowledging each, and records every file received. Exits
    /// with 1 on a record it cannot read.
    pub fn stdin(
        self,
        connection: &mut ConnectionState,
        data: &[u8],
        out: &mut Vec<u8>,
    ) -> (r: CommandResult<Self>)
        requires
            old(connection).wf(),
        ensures
            final(connection).wf(),
            final(connection).username == old(connection).username,
            final(connection).file_system == old(connection).file_system,
            final(connection).environment == old(connection).environment,
            ({
                let run = scp_run(
                    ScpView { path: self.path@, pending: self.pending_data@ + data@, state: self.state@ },
                );
                &&& final(out)@ == old(out)@ + run.1
                &&& appended_writes(
                    old(connection).audit_log.actions(),
                    final(connection).audit_log.actions(),
                    run.2,
                )
                &&& run.3 ==> r == CommandResult::<Self>::Exit(1)
                &&& !run.3 ==> (r matches CommandResult::ReadStdin(s) && s@ == run.0)
            }),
    {
        let mut this = self;
        crate::text::append_bytes(&mut this.pending_data, data);
        let ghost v0 = this@;
        let ghost run = scp_run(v0);
        let ghost acts0 = connection.audit_log.actions();
        let ghost mut done: Seq<(Seq<u8>, Seq<u8>)> = Seq::empty();
        assert(acts0.take(acts0.len() as int) =~= acts0);
        assert(old(out)@ =~= old(out)@ + Seq::<u8>::empty());
        while this.pending_data.len() > 0
            invariant
                connection.wf(),
                connection.username == old(connection).username,
                connection.file_system == old(connection).file_system,
                connection.environment == old(connection).environment,
                run == scp_run(v0),
                v0 == (ScpView {
                    path: self.path@,
                    pending: self.pending_data@ + data@,
                    state: self.state@,
                }),
                acts0 == old(connection).audit_log.actions(),
                scp_run(this@).0 == run.0,
                scp_run(this@).3 == run.3,
                out@ + scp_run(this@).1 == old(out)@ + run.1,
                done + scp_run(this@).2 == run.2,
                appended_writes(acts0, connection.audit_log.actions(), done),
            decreases this.pending_data@.len() * 3 + state_rank(this.state@),
        {
            let ghost v = this@;
            match this.state {
                ScpState::Waiting => {
                    match Receive::parse_len(this.pending_data.as_slice()) {
                        None => {
                            assert(this@ == v);
                            assert(scp_run(v).3);
                            proof {
                                lemma_run_settled(out@, done, scp_run(this@));
                            }
                            return CommandResult::Exit(1);
                        },
                        Some((rcv, k)) => {
                            let rest = sub_bytes(this.pending_data.as_slice(), k, this.pending_data.len());
                            let ghost rv = rcv@;
                            match rcv {
                                Receive::FileCopy { length, file_name, .. } => {
                                    let target = join_path(this.path.as_slice(), file_name.as_slice());
                                    this.state = ScpState::ReceivingFile(length, target);
                                },
                                Receive::DirectoryCopy { directory_name, .. } => {
                                    this.path = join_path(this.path.as_slice(), directory_name.as_slice());
                                },
                                Receive::EndDirectory => {
                                    this.path = pop_path(&this.path);
                                },
                                Receive::AccessTime { .. } => {},
                            }
                            this.pending_data = rest;
                            assert(this@ == after_record(v, rv, v.pending.skip(k as int)));
                            let ghost before = out@;
                            out.push(ACK);
                            assert(out@ + scp_run(this@).1 =~= before + (seq![ACK] + scp_run(this@).1));
                        },
                    }
                },
                ScpState::ReceivingFile(length, p) => {
                    if this.pending_data.len() < length {
                        this.state = ScpState::ReceivingFile(length, p);
                        assert(this@ == v);
                        proof {
                            lemma_run_settled(out@, done, scp_run(this@));
                        }
                        return CommandResult::ReadStdin(this);
                    }
                    let content = sub_bytes(this.pending_data.as_slice(), 0, length);
                    let rest = sub_bytes(this.pending_data.as_slice(), length, this.pending_data.len());
                    let ghost pv = p@;
                    let ghost cv = content@;
                    let ghost acts = connection.audit_log.actions();
                    connection.audit_log.push_action(
                        AuditLogAction::WriteFile(WriteFileEvent { path: p, content }),
                    );
                    this.pending_data = rest;
                    this.state = ScpState::AwaitingSeparator;
                    assert(v.pending.take(length as int) =~= cv);
                    assert(v.pending.skip(length as int) =~= this.pending_data@);
                    proof {
                        let a2 = connection.audit_log.actions();
                        assert(a2 == acts.push(a2.last()));
                        assert(is_write(a2.last(), pv, cv));
                        assert(a2.take(acts0.len() as int) =~= acts.take(acts0.len() as int));
                        let d2 = done.push((pv, cv));
                        assert forall|i: int| 0 <= i < d2.len() implies is_write(
                            #[trigger] a2[acts0.len() + i],
                            d2[i].0,
                            d2[i].1,
                        ) by {
                            if i < done.len() {
                                assert(a2[acts0.len() + i] == acts[acts0.len() + i]);
                            }
                        }
                        assert(d2 + scp_run(this@).2 =~= done + (seq![(pv, cv)] + scp_run(this@).2));
                        done = d2;
                    }
                },
                ScpState::AwaitingSeparator => {
                    if this.pending_data[0] == ACK {
                        let rest = sub_bytes(this.pending_data.as_slice(), 1, this.pending_data.len());
                        this.pending_data = rest;
                        let ghost before = out@;
                        out.push(ACK);
                        this.state = ScpState::Waiting;
                        assert(out@ + scp_run(this@).1 =~= before + (seq![ACK] + scp_run(this@).1));
                    } else {
                        this.state = ScpState::Waiting;
                    }
                },
            }
        }
        proof {
            lemma_run_settled(out@, done, scp_run(this@));
        }
        CommandResult::ReadStdin(this)
    }
}

proof fn lemma_digits_end(s: Seq<u8>, i: int, d: int)
    requires
        0 <= i,
        0 <= d,
        i + d < s.len(),
        forall|j: int| i <= j < i + d ==> is_digit(#[trigger] s[j]),
        !is_digit(s[i + d]),
    ensures
        digits_end(s, i) == i + d,
    decreases d,
{
    if d > 0 {
        lemma_digits_end(s, i + 1, d - 1);
    }
}

proof fn lemma_newline_from(s: Seq<u8>, i: int, d: int)
    requires
        0 <= i,
        0 <= d,
        i + d < s.len(),
        forall|j: int| i <= j < i + d ==> #[trigger] s[j] != NL,
        s[i + d] == NL,
    ensures
        newline_from(s, i) == i + d,
    decreases d,
{
    if d > 0 {
        lemma_newline_from(s, i + 1, d - 1);
    }
}

/// The bytes of a `C` record followed by the file and its zero byte.
pub open spec fn file_upload(mode: Seq<u8>, digits: Seq<u8>, name: Seq<u8>, content: Seq<u8>) -> Seq<u8> {
    seq![67u8] + mode + seq![SP] + digits + seq![SP] + name + seq![NL] + content + seq![ACK]
}

/// A well-formed upload of one file, sent to a waiting receiver, records
/// exactly one file: at the target directory joined with the name, with the
/// bytes sent. Both records are acknowledged and nothing is left over.
pub proof fn law_single_file_upload(
    path: Seq<u8>,
    mode: Seq<u8>,
    digits: Seq<u8>,
    name: Seq<u8>,
    content: Seq<u8>,
)
    requires
        mode.len() == 4,
        digits.len() > 0,
        all_digits(digits),
        digits_value(digits) == content.len(),
        content.len() <= usize::MAX,
        forall|j: int| 0 <= j < name.len() ==> #[trigger] name[j] != NL,
    ensures
        ({
            let run = scp_run(
                ScpView {
                    path,
                    pending: file_upload(mode, digits, name, content),
                    state: ScpStateView::Waiting,
                },
            );
            &&& run.2 == seq![(join(path, name), content)]
            &&& run.1 == seq![ACK, ACK]
            &&& !run.3
            &&& run.0.pending.len() == 0
            &&& run.0.state is Waiting
        }),
{
    let s = file_upload(mode, digits, name, content);
    let d = digits.len() as int;
    let e = 6 + d;
    let n = e + 1 + name.len();
    let k = n + 1;
    assert(s.len() == k + content.len() + 1);
    assert(s[5] == SP);
    assert forall|j: int| 6 <= j < 6 + d implies is_digit(#[trigger] s[j]) by {
        assert(s[j] == digits[j - 6]);
    }
    lemma_digits_end(s, 6, d);
    assert(s.subrange(6, e) =~= digits);
    assert(s[e] == SP);
    assert forall|j: int| e + 1 <= j < n implies #[trigger] s[j] != NL by {
        assert(s[j] == name[j - e - 1]);
    }
    lemma_newline_from(s, e + 1, name.len() as int);
    assert(s.subrange(1, 5) =~= mode);
    assert(s.subrange(e + 1, n) =~= name);
    let len = content.len() as int;
    assert(receive_spec(s) == Some((ReceiveView::FileCopy(mode, len, name), k)));
    let v1 = after_record(
        ScpView { path, pending: s, state: ScpStateView::Waiting },
        ReceiveView::FileCopy(mode, len, name),
        s.skip(k),
    );
    assert(s.skip(k) =~= content + seq![ACK]);
    let v2 = ScpView {
        path,
        pending: v1.pending.skip(len),
        state: ScpStateView::AwaitingSeparator,
    };
    assert(v1.pending.take(len) =~= content);
    assert(v1.pending.skip(len) =~= seq![ACK]);
    let v3 = ScpView { path, pending: v2.pending.skip(1), state: ScpStateView::Waiting };
    assert(v3.pending =~= Seq::<u8>::empty());
    assert(scp_run(v3).2 =~= Seq::<(Seq<u8>, Seq<u8>)>::empty());
    assert(scp_run(v2).1 =~= seq![ACK]);
    assert(scp_run(v1).2 =~= seq![(join(path, name), content)]);
}

/// A run that produced nothing more leaves what was gathered as it is.
proof fn lemma_run_settled(
    out: Seq<u8>,
    done: Seq<(Seq<u8>, Seq<u8>)>,
    run: (ScpView, Seq<u8>, Seq<(Seq<u8>, Seq<u8>)>, bool),
)
    requires
        run.1.len() == 0,
        run.2.len() == 0,
    ensures
        out + run.1 == out,
        done + run.2 == done,
{
    assert(out + run.1 =~= out);
    assert(done + run.2 =~= done);
}

/// Once an option is refused, later ones change nothing.
proof fn lemma_options_fail(av: Seq<ArgView>, k: nat)
    requires
        k <= av.len(),
        scp_options(av.take(k as int)) is None,
    ensures
        scp_options(av) is None,
    decreases av.len() - k,
{
    if k < av.len() {
        assert(av.take(k + 1 as int).drop_last() =~= av.take(k as int));
        lemma_options_fail(av, (k + 1) as nat);
    } else {
        assert(av.take(k as int) =~= av);
    }
}

} // verus!
