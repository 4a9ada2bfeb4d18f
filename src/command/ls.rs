//! `ls`: lists directories of the fake file system.

use vstd::prelude::*;
use vstd::string::StringSliceAdditionalSpecFns;
use crate::command::CommandResult;
use crate::command::echo::NEWLINE;
use crate::connection::ConnectionState;
use crate::file_system::{FileSystem, LsError};
use crate::text::{append_bytes, append_text, copy_bytes, join_bytes, join_with, views};

verus! {

/// Whether a byte is white space to `str::trim`.
pub open spec fn is_space(b: u8) -> bool {
    b == 32 || (9 <= b && b <= 13)
}

pub open spec fn trim_start(s: Seq<u8>) -> Seq<u8>
    decreases s.len(),
{
    if s.len() > 0 && is_space(s[0]) {
        trim_start(s.drop_first())
    } else {
        s
    }
}

pub open spec fn trim_end(s: Seq<u8>) -> Seq<u8>
    decreases s.len(),
{
    if s.len() > 0 && is_space(s.last()) {
        trim_end(s.drop_last())
    } else {
        s
    }
}

/// `s` without white space at either end.
pub open spec fn trim(s: Seq<u8>) -> Seq<u8> {
    trim_end(trim_start(s))
}

/// Removes white space from both ends.
pub fn trim_bytes(s: &[u8]) -> (r: Vec<u8>)
    ensures
        r@ == trim(s@),
{
    let mut i: usize = 0;
    assert(s@.skip(0) =~= s@);
    while i < s.len() && (s[i] == 32 || (9 <= s[i] && s[i] <= 13))
        invariant
            0 <= i <= s@.len(),
            trim_start(s@.skip(i as int)) == trim_start(s@),
        decreases s@.len() - i,
    {
        assert(s@.skip(i as int).drop_first() =~= s@.skip(i + 1));
        i = i + 1;
    }
    let mut j: usize = s.len();
    let ghost t = s@.skip(i as int);
    assert(trim_start(s@) == t);
    assert(s@.subrange(i as int, j as int) =~= t);
    while j > i && (s[j - 1] == 32 || (9 <= s[j - 1] && s[j - 1] <= 13))
        invariant
            0 <= i <= j <= s@.len(),
            t == s@.skip(i as int),
            trim_end(s@.subrange(i as int, j as int)) == trim_end(t),
        decreases j,
    {
        assert(s@.subrange(i as int, j as int).drop_last() =~= s@.subrange(i as int, j - 1));
        j = j - 1;
    }
    crate::text::sub_bytes(s, i, j)
}

pub const TWO_SPACES: &'static str = "  ";

/// How `ls` shows one listing: the names separated by two spaces.
pub open spec fn shown(v: Seq<Seq<u8>>) -> Seq<u8> {
    join_with(v, "  ".spec_bytes())
}

/// The error line for `name`.
pub open spec fn ls_error(name: Seq<u8>, e: LsError) -> Seq<u8> {
    "ls: ".spec_bytes() + name + ": ".spec_bytes() + e.text()
}

/// The text for several directories, and whether one of them failed.
pub open spec fn ls_many(fs: FileSystem, dirs: Seq<Seq<u8>>) -> (Seq<u8>, bool)
    decreases dirs.len(),
{
    if dirs.len() == 0 {
        (Seq::empty(), false)
    } else {
        let (o, err) = ls_many(fs, dirs.drop_last());
        let o1 = if o.len() > 0 { o.push(NEWLINE) } else { o };
        let d = dirs.last();
        match fs.listing(Some(d)) {
            Ok(v) => (o1 + d + ":\n".spec_bytes() + shown(v), err),
            Err(e) => (o1 + ls_error(d, e), true),
        }
    }
}

/// The text `ls` builds for its parameters, and whether a listing failed.
pub open spec fn ls_response(fs: FileSystem, params: Seq<Seq<u8>>) -> (Seq<u8>, bool) {
    if params.len() == 0 {
        match fs.listing(None) {
            Ok(v) => (shown(v), false),
            Err(e) => (ls_error(fs.pwd_view(), e), true),
        }
    } else if params.len() == 1 {
        match fs.listing(Some(params[0])) {
            Ok(v) => (shown(v), false),
            Err(e) => (ls_error(params[0], e), true),
        }
    } else {
        ls_many(fs, params)
    }
}

/// What `ls` prints: the text trimmed, and a line feed; nothing for no text.
pub open spec fn ls_printed(fs: FileSystem, params: Seq<Seq<u8>>) -> Seq<u8> {
    let resp = ls_response(fs, params).0;
    if resp.len() > 0 {
        trim(resp).push(NEWLINE)
    } else {
        Seq::empty()
    }
}

fn listing_text(fs: &FileSystem, dir: Option<&[u8]>, name: &[u8], out: &mut Vec<u8>) -> (err: bool)
    requires
        fs.wf(),
    ensures
        match fs.listing(crate::file_system::opt_view(dir)) {
            Ok(v) => final(out)@ == old(out)@ + shown(v) && !err,
            Err(e) => final(out)@ == old(out)@ + ls_error(name@, e) && err,
        },
{
    match fs.ls(dir) {
        Ok(v) => {
            let t = join_bytes(v.as_slice(), TWO_SPACES.as_bytes());
            append_bytes(out, t.as_slice());
            false
        },
        Err(e) => {
            append_text(out, "ls: ");
            append_bytes(out, name);
            append_text(out, ": ");
            let m = e.message();
            append_bytes(out, m.as_slice());
            true
        },
    }
}

#[derive(Debug)]
pub struct Ls {}

impl Ls {
    /// Lists the working directory, or each directory given, and exits with
    /// 1 when a listing failed.
    pub fn new(
        connection: &mut ConnectionState,
        params: &[Vec<u8>],
        _redirected: bool,
        out: &mut Vec<u8>,
    ) -> (r: CommandResult<Self>)
        requires
            old(connection).wf(),
        ensures
            final(connection).wf(),
            final(connection).username == old(connection).username,
            final(connection).environment == old(connection).environment,
            final(connection).file_system is Some,
            old(connection).file_system is Some ==> final(connection).file_system == old(
                connection,
            ).file_system,
            final(connection).audit_log == old(connection).audit_log,
            final(out)@ == old(out)@ + ls_printed(
                final(connection).file_system.unwrap(),
                views(params@),
            ),
            r == CommandResult::<Self>::Exit(
                if ls_response(final(connection).file_system.unwrap(), views(params@)).1 {
                    1
                } else {
                    0
                },
            ),
    {
        connection.ensure_file_system();
        let fs = connection.file_system.as_ref().unwrap();
        let ghost pv = views(params@);
        let mut resp: Vec<u8> = Vec::new();
        let mut error = false;
        if params.len() == 0 {
            let pwd = copy_bytes(fs.pwd());
            error = listing_text(fs, None, pwd.as_slice(), &mut resp);
            assert(resp@ =~= ls_response(*fs, pv).0);
        } else if params.len() == 1 {
            error = listing_text(fs, Some(params[0].as_slice()), params[0].as_slice(), &mut resp);
            assert(resp@ =~= ls_response(*fs, pv).0);
        } else {
            let mut i: usize = 0;
            assert(pv.take(0) =~= Seq::<Seq<u8>>::empty());
            while i < params.len()
                invariant
                    fs.wf(),
                    pv == views(params@),
                    0 <= i <= params@.len(),
                    (resp@, error) == ls_many(*fs, pv.take(i as int)),
                decreases params@.len() - i,
            {
                assert(pv.take(i + 1).drop_last() =~= pv.take(i as int));
                let ghost before = resp@;
                if resp.len() > 0 {
                    resp.push(NEWLINE);
                }
                let ghost o1 = resp@;
                let d = params[i].as_slice();
                let ghost mid = resp@;
                let mut piece: Vec<u8> = Vec::new();
                let failed = listing_text(fs, Some(d), d, &mut piece);
                if failed {
                    append_bytes(&mut resp, piece.as_slice());
                    error = true;
                } else {
                    append_bytes(&mut resp, d);
                    append_text(&mut resp, ":\n");
                    append_bytes(&mut resp, piece.as_slice());
                }
                assert(resp@ =~= ls_many(*fs, pv.take(i + 1)).0);
                i = i + 1;
            }
            assert(pv.take(params@.len() as int) =~= pv);
        }
        if resp.len() > 0 {
            let t = trim_bytes(resp.as_slice());
            append_bytes(out, t.as_slice());
            out.push(NEWLINE);
            assert(out@ =~= old(out)@ + trim(resp@).push(NEWLINE));
        } else {
            assert(out@ =~= old(out)@ + Seq::<u8>::empty());
        }
        if error {
            CommandResult::Exit(1)
        } else {
            CommandResult::Exit(0)
        }
    }

    pub fn stdin(
        self,
        _connection: &mut ConnectionState,
        _data: &[u8],
        _out: &mut Vec<u8>,
    ) -> (r: CommandResult<Self>)
        ensures
            *final(_connection) == *old(_connection),
            r == CommandResult::<Self>::Exit(0),
            final(_out)@ == old(_out)@,
    {
        CommandResult::Exit(0)
    }
}

} // verus!
