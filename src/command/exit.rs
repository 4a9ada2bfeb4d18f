//! `exit [n]`: closes the session.

use vstd::prelude::*;
use crate::command::CommandResult;
use crate::connection::ConnectionState;
use crate::text::{decimal_up_to, parse_decimal, views};

verus! {

pub const PLUS: u8 = 43;

/// What `u32::from_str` makes of `s`: decimal digits after an optional `+`,
/// no larger than `u32::MAX`.
pub open spec fn parse_u32(s: Seq<u8>) -> Option<int> {
    if s.len() > 0 && s[0] == PLUS {
        decimal_up_to(s.skip(1), u32::MAX as int)
    } else {
        decimal_up_to(s, u32::MAX as int)
    }
}

/// The status `exit` closes with: 0 without a parameter, the number given,
/// or 2 when the first parameter is no number.
pub open spec fn exit_status(params: Seq<Seq<u8>>) -> int {
    if params.len() == 0 {
        0
    } else {
        match parse_u32(params[0]) {
            Some(v) => v,
            None => 2,
        }
    }
}

#[derive(Debug)]
pub struct Exit {}

impl Exit {
    pub fn new(
        _connection: &mut ConnectionState,
        params: &[Vec<u8>],
        _redirected: bool,
        _out: &mut Vec<u8>,
    ) -> (r: CommandResult<Self>)
        ensures
            *final(_connection) == *old(_connection),
            r matches CommandResult::Close(v) && v as int == exit_status(views(params@)),
            final(_out)@ == old(_out)@,
    {
        if params.len() == 0 {
            return CommandResult::Close(0);
        }
        let p = params[0].as_slice();
        let parsed = if p.len() > 0 && p[0] == PLUS {
            let rest = crate::text::sub_bytes(p, 1, p.len());
            assert(rest@ == p@.skip(1));
            parse_decimal(rest.as_slice(), 0xffff_ffff)
        } else {
            parse_decimal(p, 0xffff_ffff)
        };
        match parsed {
            Some(v) => CommandResult::Close(v as u32),
            None => CommandResult::Close(2),
        }
    }

    pub fn stdin(
        self,
        _connection: &mut ConnectionState,
        _data: &[u8],
        _out: &mut Vec<u8>,
    ) -> (r: CommandResult<Self>)
        ensures
            *final(_connection) == *old(_connection),
            r == CommandResult::<Self>::Exit(0),
            final(_out)@ == old(_out)@,
    {
        CommandResult::Exit(0)
    }
}

} // verus!
