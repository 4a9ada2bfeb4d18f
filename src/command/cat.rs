//! `cat`: prints files, and standard input where `-` stands.

use vstd::prelude::*;
use vstd::string::StringSliceAdditionalSpecFns;
use crate::command::CommandResult;
use crate::command::DASH;
use crate::connection::ConnectionState;
use crate::file_system::FileSystem;
use crate::text::{append_bytes, append_text, copy_bytes, views};

verus! {

/// Where `cat` stops: waiting for standard input with the parameters left
/// and the status so far, or done with a status.
pub enum CatStep {
    Wait(Seq<Seq<u8>>, u32),
    Done(u32),
}

/// What `cat` prints for one file parameter, and the status after it.
pub open spec fn cat_one(fs: FileSystem, p: Seq<u8>, status: u32) -> (Seq<u8>, u32) {
    match fs.read_spec(p) {
        Ok(b) => (b, status),
        Err(e) => ("cat: ".spec_bytes() + p + ": ".spec_bytes() + e.text(), 1),
    }
}

/// What `cat` prints for its parameters, up to the first `-`, and where it
/// stops.
pub open spec fn cat_run(fs: FileSystem, params: Seq<Seq<u8>>, status: u32) -> (Seq<u8>, CatStep)
    decreases params.len(),
{
    if params.len() == 0 {
        (Seq::empty(), CatStep::Done(status))
    } else if params[0] == seq![DASH] {
        (Seq::empty(), CatStep::Wait(params.drop_first(), status))
    } else {
        let (o, s2) = cat_one(fs, params[0], status);
        let (rest, step) = cat_run(fs, params.drop_first(), s2);
        (o + rest, step)
    }
}

/// Copies the byte strings from position `start` on.
fn copy_from(params: &Vec<Vec<u8>>, start: usize) -> (r: Vec<Vec<u8>>)
    requires
        start <= params@.len(),
    ensures
        views(r@) == views(params@).skip(start as int),
{
    let ghost pv = views(params@);
    let mut rest: Vec<Vec<u8>> = Vec::new();
    let mut j: usize = start;
    assert(views(rest@) =~= pv.subrange(start as int, j as int));
    while j < params.len()
        invariant
            pv == views(params@),
            start <= j <= params@.len(),
            views(rest@) == pv.subrange(start as int, j as int),
        decreases params@.len() - j,
    {
        let ghost before = views(rest@);
        rest.push(copy_bytes(params[j].as_slice()));
        assert(views(rest@) =~= before.push(pv[j as int]));
        assert(pv.subrange(start as int, j + 1) =~= pv.subrange(start as int, j as int).push(pv[j as int]));
        j = j + 1;
    }
    assert(pv.subrange(start as int, pv.len() as int) =~= pv.skip(start as int));
    rest
}

#[derive(Debug)]
pub struct Cat {
    pub remaining_params: Vec<Vec<u8>>,
    pub status: u32,
}

impl Cat {
    /// Whether `r` is where `cat_run` says it stops.
    pub open spec fn stops_as(r: CommandResult<Cat>, step: CatStep) -> bool {
        match step {
            CatStep::Done(s) => r == CommandResult::<Cat>::Exit(s),
            CatStep::Wait(rest, s) => r matches CommandResult::ReadStdin(c) && views(
                c.remaining_params@,
            ) == rest && c.status == s,
        }
    }

    fn run(self, fs: &FileSystem, out: &mut Vec<u8>) -> (r: CommandResult<Self>)
        requires
            fs.wf(),
        ensures
            final(out)@ == old(out)@ + cat_run(*fs, views(self.remaining_params@), self.status).0,
            Cat::stops_as(r, cat_run(*fs, views(self.remaining_params@), self.status).1),
    {
        let ghost pv = views(self.remaining_params@);
        let params = &self.remaining_params;
        let mut status = self.status;
        let mut i: usize = 0;
        assert(pv.skip(0) =~= pv);
        assert(old(out)@ =~= old(out)@ + Seq::<u8>::empty());
        while i < params.len()
            invariant
                fs.wf(),
                pv == views(params@),
                pv == views(self.remaining_params@),
                0 <= i <= params@.len(),
                out@ + cat_run(*fs, pv.skip(i as int), status).0 == old(out)@ + cat_run(
                    *fs,
                    pv,
                    self.status,
                ).0,
                cat_run(*fs, pv.skip(i as int), status).1 == cat_run(*fs, pv, self.status).1,
            decreases params@.len() - i,
        {
            let p = params[i].as_slice();
            assert(pv.skip(i as int).drop_first() =~= pv.skip(i + 1));
            assert(pv.skip(i as int)[0] == p@);
            if p.len() == 1 && p[0] == DASH {
                assert(p@ =~= seq![DASH]);
                let rest = copy_from(params, i + 1);
                assert(pv.skip(i as int).len() > 0);
                assert(cat_run(*fs, pv.skip(i as int), status).0 =~= Seq::<u8>::empty());
                assert(cat_run(*fs, pv.skip(i as int), status).1 == CatStep::Wait(
                    pv.skip(i + 1),
                    status,
                ));
                assert(out@ =~= out@ + Seq::<u8>::empty());
                return CommandResult::ReadStdin(Cat { remaining_params: rest, status });
            }
            assert(p@ != seq![DASH]);
            let ghost before = out@;
            let ghost st0 = status;
            match fs.read(p) {
                Ok(content) => {
                    append_bytes(out, content.as_slice());
                },
                Err(e) => {
                    status = 1;
                    append_text(out, "cat: ");
                    append_bytes(out, p);
                    append_text(out, ": ");
                    let m = e.message();
                    append_bytes(out, m.as_slice());
                },
            }
            assert(out@ =~= before + cat_one(*fs, p@, st0).0);
            assert(status == cat_one(*fs, p@, st0).1);
            i = i + 1;
        }
        assert(pv.skip(i as int) =~= Seq::<Seq<u8>>::empty());
        assert(out@ =~= out@ + Seq::<u8>::empty());
        CommandResult::Exit(status)
    }

    /// Starts `cat`: with no parameters it reads standard input, else it
    /// prints the files up to the first `-`.
    pub fn new(
        connection: &mut ConnectionState,
        params: &[Vec<u8>],
        _redirected: bool,
        out: &mut Vec<u8>,
    ) -> (r: CommandResult<Self>)
        requires
            old(connection).wf(),
        ensures
            final(connection).wf(),
            final(connection).username == old(connection).username,
            final(connection).environment == old(connection).environment,
            final(connection).file_system is Some,
            old(connection).file_system is Some ==> final(connection).file_system == old(
                connection,
            ).file_system,
            final(connection).audit_log == old(connection).audit_log,
            params@.len() == 0 ==> final(out)@ == old(out)@ && (r matches CommandResult::ReadStdin(
                c,
            ) && c.remaining_params@.len() == 0 && c.status == 0),
            params@.len() > 0 ==> final(out)@ == old(out)@ + cat_run(
                final(connection).file_system.unwrap(),
                views(params@),
                0,
            ).0 && Cat::stops_as(
                r,
                cat_run(final(connection).file_system.unwrap(), views(params@), 0).1,
            ),
    {
        connection.ensure_file_system();
        let mut remaining: Vec<Vec<u8>> = Vec::new();
        let mut i: usize = 0;
        while i < params.len()
            invariant
                0 <= i <= params@.len(),
                views(remaining@) == views(params@).take(i as int),
            decreases params@.len() - i,
        {
            let ghost before = views(remaining@);
            remaining.push(copy_bytes(params[i].as_slice()));
            assert(views(remaining@) =~= before.push(params@[i as int]@));
            assert(views(params@).take(i + 1) =~= views(params@).take(i as int).push(params@[i as int]@));
            i = i + 1;
        }
        assert(views(params@).take(params@.len() as int) =~= views(params@));
        let this = Cat { remaining_params: remaining, status: 0 };
        if params.len() == 0 {
            CommandResult::ReadStdin(this)
        } else {
            this.run(connection.file_system.as_ref().unwrap(), out)
        }
    }

    /// Prints the input, then goes on with the parameters after the `-`.
    pub fn stdin(
        self,
        connection: &mut ConnectionState,
        data: &[u8],
        out: &mut Vec<u8>,
    ) -> (r: CommandResult<Self>)
        requires
            old(connection).wf(),
        ensures
            final(connection).wf(),
            final(connection).username == old(connection).username,
            final(connection).environment == old(connection).environment,
            final(connection).file_system is Some,
            old(connection).file_system is Some ==> final(connection).file_system == old(
                connection,
            ).file_system,
            final(connection).audit_log == old(connection).audit_log,
            final(out)@ == old(out)@ + data@ + cat_run(
                final(connection).file_system.unwrap(),
                views(self.remaining_params@),
                self.status,
            ).0,
            Cat::stops_as(
                r,
                cat_run(
                    final(connection).file_system.unwrap(),
                    views(self.remaining_params@),
                    self.status,
                ).1,
            ),
    {
        connection.ensure_file_system();
        append_bytes(out, data);
        self.run(connection.file_system.as_ref().unwrap(), out)
    }
}

} // verus!
