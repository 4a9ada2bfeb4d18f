//! `echo`: prints its parameters.

use vstd::prelude::*;
use crate::command::CommandResult;
use crate::connection::ConnectionState;
use crate::text::{append_bytes, join_bytes, join_with, views};

verus! {

pub const NEWLINE: u8 = 10;

pub const SPACE: u8 = 32;

#[derive(Debug)]
pub struct Echo {}

impl Echo {
    /// Prints the parameters joined by single spaces, with a line feed unless
    /// the output is redirected, and exits with 0.
    pub fn new(
        _connection: &mut ConnectionState,
        params: &[Vec<u8>],
        redirected: bool,
        out: &mut Vec<u8>,
    ) -> (r: CommandResult<Self>)
        ensures
            *final(_connection) == *old(_connection),
            r == CommandResult::<Self>::Exit(0),
            final(out)@ == old(out)@ + join_with(views(params@), seq![SPACE]) + if redirected {
                Seq::<u8>::empty()
            } else {
                seq![NEWLINE]
            },
    {
        let mut sep: Vec<u8> = Vec::new();
        sep.push(SPACE);
        assert(sep@ =~= seq![SPACE]);
        let line = join_bytes(params, sep.as_slice());
        append_bytes(out, line.as_slice());
        let ghost mid = out@;
        if !redirected {
            out.push(NEWLINE);
            assert(out@ =~= mid + seq![NEWLINE]);
        } else {
            assert(out@ =~= mid + Seq::<u8>::empty());
        }
        CommandResult::Exit(0)
    }

    pub fn stdin(
        self,
        _connection: &mut ConnectionState,
        _data: &[u8],
        _out: &mut Vec<u8>,
    ) -> (r: CommandResult<Self>)
        ensures
            *final(_connection) == *old(_connection),
            r == CommandResult::<Self>::Exit(0),
            final(_out)@ == old(_out)@,
    {
        CommandResult::Exit(0)
    }
}

} // verus!
