//! `pwd`: prints the working directory.

use vstd::prelude::*;
use crate::command::CommandResult;
use crate::command::echo::NEWLINE;
use crate::connection::ConnectionState;
use crate::text::append_bytes;

verus! {

#[derive(Debug)]
pub struct Pwd {}

impl Pwd {
    pub fn new(
        connection: &mut ConnectionState,
        _params: &[Vec<u8>],
        _redirected: bool,
        out: &mut Vec<u8>,
    ) -> (r: CommandResult<Self>)
        requires
            old(connection).wf(),
        ensures
            final(connection).wf(),
            final(connection).username == old(connection).username,
            final(connection).environment == old(connection).environment,
            final(connection).file_system is Some,
            old(connection).file_system is Some ==> final(connection).file_system == old(
                connection,
            ).file_system,
            final(connection).audit_log == old(connection).audit_log,
            r == CommandResult::<Self>::Exit(0),
            final(out)@ == old(out)@ + final(connection).file_system.unwrap().pwd_view().push(
                NEWLINE,
            ),
    {
        connection.ensure_file_system();
        let fs = connection.file_system.as_ref().unwrap();
        append_bytes(out, fs.pwd());
        out.push(NEWLINE);
        CommandResult::Exit(0)
    }

    pub fn stdin(
        self,
        _connection: &mut ConnectionState,
        _data: &[u8],
        _out: &mut Vec<u8>,
    ) -> (r: CommandResult<Self>)
        ensures
            *final(_connection) == *old(_connection),
            r == CommandResult::<Self>::Exit(0),
            final(_out)@ == old(_out)@,
    {
        CommandResult::Exit(0)
    }
}

} // verus!
