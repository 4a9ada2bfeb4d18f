//! `whoami`: prints the user name.

use vstd::prelude::*;
use crate::command::CommandResult;
use crate::command::echo::NEWLINE;
use crate::connection::ConnectionState;
use crate::text::append_bytes;

verus! {

#[derive(Debug)]
pub struct Whoami {}

impl Whoami {
    pub fn new(
        connection: &mut ConnectionState,
        _params: &[Vec<u8>],
        _redirected: bool,
        out: &mut Vec<u8>,
    ) -> (r: CommandResult<Self>)
        ensures
            *final(connection) == *old(connection),
            r == CommandResult::<Self>::Exit(0),
            final(out)@ == old(out)@ + old(connection).username_view().push(NEWLINE),
    {
        let name = connection.username();
        append_bytes(out, name.as_slice());
        out.push(NEWLINE);
        CommandResult::Exit(0)
    }

    pub fn stdin(
        self,
        _connection: &mut ConnectionState,
        _data: &[u8],
        _out: &mut Vec<u8>,
    ) -> (r: CommandResult<Self>)
        ensures
            *final(_connection) == *old(_connection),
            r == CommandResult::<Self>::Exit(0),
            final(_out)@ == old(_out)@,
    {
        CommandResult::Exit(0)
    }
}

} // verus!
