//! The built-in commands, and how a command line becomes one.
//!
//! A command writes what it prints to `out` and says what happens next: it
//! waits for standard input, exits, or closes the session.

pub mod cat;
pub mod echo;
pub mod exit;
pub mod ls;
pub mod pwd;
pub mod scp;
pub mod uname;
pub mod whoami;

use vstd::prelude::*;
use vstd::string::StringSliceAdditionalSpecFns;
use crate::command::cat::{cat_run, Cat};
use crate::command::echo::{Echo, NEWLINE, SPACE};
use crate::command::exit::{exit_status, Exit};
use crate::command::ls::{ls_printed, ls_response, Ls};
use crate::command::pwd::Pwd;
use crate::command::scp::{scp_options, Scp, ACK, AMBIGUOUS_TARGET, HELP};
use crate::command::uname::{uname_output, Uname};
use crate::command::whoami::Whoami;
use crate::connection::ConnectionState;
use crate::text::{append_bytes, append_text, copy_bytes, is_text, join_with, views};

verus! {

pub const DASH: u8 = 45;

/// What a command does after a step.
#[derive(Debug)]
pub enum CommandResult<T> {
    /// Wait for standard input.
    ReadStdin(T),
    /// The process exits with this status.
    Exit(u32),
    /// The session closes with this status.
    Close(u32),
}

impl<T> CommandResult<T> {
    /// The waiting command.
    pub fn unwrap_stdin(self) -> (r: T)
        requires
            self is ReadStdin,
        ensures
            self == CommandResult::<T>::ReadStdin(r),
    {
        match self {
            CommandResult::ReadStdin(val) => val,
            _ => vstd::pervasive::unreached(),
        }
    }
}

/// A command line argument, as a command sees it.
#[derive(Debug, PartialEq, Eq)]
pub enum Arg {
    Operand(Vec<u8>),
    Long(Vec<u8>),
    Short(u8),
}

/// An argument as plain values.
pub enum ArgView {
    Operand(Seq<u8>),
    Long(Seq<u8>),
    Short(u8),
}

impl View for Arg {
    type V = ArgView;

    open spec fn view(&self) -> ArgView {
        match self {
            Arg::Operand(s) => ArgView::Operand(s@),
            Arg::Long(s) => ArgView::Long(s@),
            Arg::Short(c) => ArgView::Short(*c),
        }
    }
}

pub open spec fn arg_views(v: Seq<Arg>) -> Seq<ArgView> {
    v.map_values(|a: Arg| a@)
}

/// How one word reads: `--name` is a long option, `-abc` three short ones,
/// anything else (`-` included) an operand.
pub open spec fn parse_word(a: Seq<u8>) -> Seq<ArgView> {
    if a.len() >= 2 && a[0] == DASH && a[1] == DASH {
        seq![ArgView::Long(a.skip(2))]
    } else if a.len() >= 2 && a[0] == DASH {
        a.skip(1).map_values(|c: u8| ArgView::Short(c))
    } else {
        seq![ArgView::Operand(a)]
    }
}

/// The arguments of all words, in order.
pub open spec fn parse_words(words: Seq<Seq<u8>>) -> Seq<ArgView>
    decreases words.len(),
{
    if words.len() == 0 {
        Seq::empty()
    } else {
        parse_words(words.drop_last()) + parse_word(words.last())
    }
}

/// Splits command line words into options and operands.
pub fn argparse(args: &[Vec<u8>]) -> (r: Vec<Arg>)
    ensures
        arg_views(r@) == parse_words(views(args@)),
{
    let mut out: Vec<Arg> = Vec::new();
    let mut i: usize = 0;
    assert(views(args@).take(0) =~= Seq::<Seq<u8>>::empty());
    assert(arg_views(out@) =~= Seq::<ArgView>::empty());
    while i < args.len()
        invariant
            0 <= i <= args@.len(),
            arg_views(out@) == parse_words(views(args@).take(i as int)),
        decreases args@.len() - i,
    {
        let a = &args[i];
        let ghost before = arg_views(out@);
        assert(views(args@).take(i + 1).drop_last() =~= views(args@).take(i as int));
        assert(views(args@).take(i + 1).last() == a@);
        if a.len() >= 2 && a[0] == DASH && a[1] == DASH {
            let rest = crate::text::sub_bytes(a.as_slice(), 2, a.len());
            out.push(Arg::Long(rest));
            assert(arg_views(out@) =~= before + parse_word(a@));
        } else if a.len() >= 2 && a[0] == DASH {
            let mut j: usize = 1;
            while j < a.len()
                invariant
                    1 <= j <= a@.len(),
                    a@.len() >= 2,
                    arg_views(out@) == before + a@.subrange(1, j as int).map_values(
                        |c: u8| ArgView::Short(c),
                    ),
                decreases a@.len() - j,
            {
                let ghost mid = arg_views(out@);
                out.push(Arg::Short(a[j]));
                assert(arg_views(out@) =~= mid.push(ArgView::Short(a@[j as int])));
                assert(a@.subrange(1, j + 1).map_values(|c: u8| ArgView::Short(c)) =~= a@.subrange(
                    1,
                    j as int,
                ).map_values(|c: u8| ArgView::Short(c)).push(ArgView::Short(a@[j as int])));
                j = j + 1;
            }
            assert(a@.subrange(1, a@.len() as int) =~= a@.skip(1));
        } else {
            out.push(Arg::Operand(copy_bytes(a.as_slice())));
            assert(arg_views(out@) =~= before + parse_word(a@));
        }
        i = i + 1;
    }
    assert(views(args@).take(args@.len() as int) =~= views(args@));
    out
}

/// A command line after expansion: the program and its parameters.
#[derive(Debug, PartialEq, Eq)]
pub struct PartialCommand {
    pub program: Option<Vec<u8>>,
    pub params: Vec<Vec<u8>>,
}

impl PartialCommand {
    pub fn new(program: Option<Vec<u8>>, params: Vec<Vec<u8>>) -> (r: Self)
        ensures
            r.program == program,
            r.params == params,
    {
        PartialCommand { program, params }
    }
}

/// The names of the built-in commands.
pub open spec fn is_builtin(p: Seq<u8>) -> bool {
    p == "echo".spec_bytes() || p == "exit".spec_bytes() || p == "ls".spec_bytes() || p
        == "pwd".spec_bytes() || p == "scp".spec_bytes() || p == "uname".spec_bytes() || p
        == "whoami".spec_bytes() || p == "cat".spec_bytes()
}

pub open spec fn opt_view(o: Option<Vec<u8>>) -> Option<Seq<u8>> {
    match o {
        Some(v) => Some(v@),
        None => None,
    }
}

/// Whether the program is one that reads the file system (which is made on
/// first use): `ls`, `pwd` or `cat`. Every other start leaves the connection
/// as it was.
pub open spec fn touches_file_system(program: Option<Seq<u8>>) -> bool {
    program matches Some(p) && (p == "ls".spec_bytes() || p == "pwd".spec_bytes() || p
        == "cat".spec_bytes())
}

/// What starting `program` with `params` prints, whether it closes the
/// session, and its status, for a start that never waits for input: nothing
/// runs without a program, an unknown one is refused as bash refuses it, and
/// the built-ins that never wait give their output. `None` for the others.
pub open spec fn start_outcome(
    program: Option<Seq<u8>>,
    params: Seq<Seq<u8>>,
    redirected: bool,
    user: Seq<u8>,
) -> Option<(Seq<u8>, bool, u32)> {
    match program {
        None => Some((Seq::empty(), false, 0)),
        Some(p) => if !is_builtin(p) {
            Some(("bash: ".spec_bytes() + p + ": command not found\n".spec_bytes(), false, 1))
        } else {
            simple_outcome(p, params, redirected, user)
        },
    }
}

/// Whether starting `program` with `params` gave `r` and printed what
/// `start_outcome` says.
#[verifier::opaque]
pub open spec fn started_as<T>(
    r: CommandResult<T>,
    program: Option<Seq<u8>>,
    params: Seq<Seq<u8>>,
    redirected: bool,
    user: Seq<u8>,
    out_before: Seq<u8>,
    out_after: Seq<u8>,
) -> bool {
    match start_outcome(program, params, redirected, user) {
        Some((o, close, status)) => out_after == out_before + o && ends_with(r, close, status),
        None => true,
    }
}

/// What a start that `started_as` describes printed and how it ended.
pub proof fn lemma_started<T>(
    r: CommandResult<T>,
    program: Option<Seq<u8>>,
    params: Seq<Seq<u8>>,
    redirected: bool,
    user: Seq<u8>,
    out_before: Seq<u8>,
    out_after: Seq<u8>,
)
    requires
        started_as(r, program, params, redirected, user, out_before, out_after),
        start_outcome(program, params, redirected, user) is Some,
    ensures
        ({
            let (o, close, status) = start_outcome(program, params, redirected, user)->Some_0;
            out_after == out_before + o && ends_with(r, close, status)
        }),
{
    reveal(started_as);
}

/// A running built-in command.
#[derive(Debug)]
pub enum ConcreteCommand {
    Echo(Echo),
    Exit(Exit),
    Ls(Ls),
    Pwd(Pwd),
    Scp(Scp),
    Uname(Uname),
    Whoami(Whoami),
    Cat(Cat),
}

/// What the commands that never wait print, whether they close the
/// session, and their status.
pub open spec fn simple_outcome(
    name: Seq<u8>,
    params: Seq<Seq<u8>>,
    redirected: bool,
    user: Seq<u8>,
) -> Option<(Seq<u8>, bool, u32)> {
    if name == "echo".spec_bytes() {
        Some(
            (
                join_with(params, seq![SPACE]) + if redirected {
                    Seq::<u8>::empty()
                } else {
                    seq![NEWLINE]
                },
                false,
                0,
            ),
        )
    } else if name == "exit".spec_bytes() {
        Some((Seq::empty(), true, exit_status(params) as u32))
    } else if name == "uname".spec_bytes() {
        Some((uname_output(parse_words(params)).0, false, uname_output(parse_words(params)).1))
    } else if name == "whoami".spec_bytes() {
        Some((user.push(NEWLINE), false, 0))
    } else {
        None
    }
}

/// Which built-in a name selects, in the order they are tried: 1 `echo`,
/// 2 `exit`, 3 `uname`, 4 `whoami`, 5 `ls`, 6 `pwd`, 7 `scp`, 8 `cat`, and
/// 0 for none.
pub open spec fn builtin_of(p: Seq<u8>) -> int {
    if p == "echo".spec_bytes() {
        1
    } else if p == "exit".spec_bytes() {
        2
    } else if p == "uname".spec_bytes() {
        3
    } else if p == "whoami".spec_bytes() {
        4
    } else if p == "ls".spec_bytes() {
        5
    } else if p == "pwd".spec_bytes() {
        6
    } else if p == "scp".spec_bytes() {
        7
    } else if p == "cat".spec_bytes() {
        8
    } else {
        0
    }
}

/// Whether `r` ends with `status`, closing the session or not.
pub open spec fn ends_with<T>(r: CommandResult<T>, close: bool, status: u32) -> bool {
    if close {
        r == CommandResult::<T>::Close(status)
    } else {
        r == CommandResult::<T>::Exit(status)
    }
}

impl ConcreteCommand {
    /// Starts the command named `program` with `params`. Without a program
    /// nothing runs; an unknown one prints bash's complaint and exits with 1.
    pub fn new(
        connection: &mut ConnectionState,
        program: &Option<Vec<u8>>,
        params: &[Vec<u8>],
        redirected: bool,
        out: &mut Vec<u8>,
    ) -> (r: CommandResult<Self>)
        requires
            old(connection).wf(),
        ensures
            final(connection).wf(),
            final(connection).username == old(connection).username,
            final(connection).environment == old(connection).environment,
            final(connection).audit_log == old(connection).audit_log,
            !touches_file_system(opt_view(*program)) ==> *final(connection) == *old(connection),
            (program matches Some(p) && builtin_of(p@) == 6) ==> r == CommandResult::<Self>::Exit(0),
            (program matches Some(p) && builtin_of(p@) == 6) ==> final(connection).file_system is Some,
            (program matches Some(p) && builtin_of(p@) == 6) ==> final(out)@ == old(out)@
                + final(connection).file_system.unwrap().pwd_view().push(NEWLINE),
            (program matches Some(p) && builtin_of(p@) == 5) ==> final(connection).file_system is Some,
            (program matches Some(p) && builtin_of(p@) == 5) ==> final(out)@ == old(out)@
                + ls_printed(final(connection).file_system.unwrap(), views(params@)),
            (program matches Some(p) && builtin_of(p@) == 5) ==> r == CommandResult::<Self>::Exit(
                if ls_response(final(connection).file_system.unwrap(), views(params@)).1 {
                    1
                } else {
                    0
                },
            ),
            (program matches Some(p) && builtin_of(p@) == 8) ==> final(connection).file_system is Some,
            (program matches Some(p) && builtin_of(p@) == 8 && params@.len() > 0) ==> final(out)@
                == old(out)@ + cat_run(final(connection).file_system.unwrap(), views(params@), 0).0,
            (program matches Some(p) && builtin_of(p@) == 8 && params@.len() == 0) ==> final(out)@
                == old(out)@ && r is ReadStdin,
            (program matches Some(p) && builtin_of(p@) == 7) ==> match scp_options(
                parse_words(views(params@)),
            ) {
                Some((true, Some(_))) => final(out)@ == old(out)@.push(ACK) && r is ReadStdin,
                Some((_, None)) => final(out)@ == old(out)@ + AMBIGUOUS_TARGET.spec_bytes() && r
                    == CommandResult::<Self>::Exit(1),
                _ => final(out)@ == old(out)@ + HELP.spec_bytes() && r == CommandResult::<Self>::Exit(1),
            },
            match program {
                None => r == CommandResult::<Self>::Exit(0) && final(out)@ == old(out)@,
                Some(p) => if !is_builtin(p@) {
                    r == CommandResult::<Self>::Exit(1) && final(out)@ == old(out)@
                        + "bash: ".spec_bytes() + p@ + ": command not found\n".spec_bytes()
                } else {
                    match simple_outcome(p@, views(params@), redirected, old(connection).username_view()) {
                        Some((o, close, status)) => final(out)@ == old(out)@ + o && ends_with(r, close, status),
                        None => true,
                    }
                },
            },
    {
        let p = match program {
            None => {
                return CommandResult::Exit(0);
            },
            Some(p) => p.as_slice(),
        };
        if is_text(p, "echo") {
            Echo::new(connection, params, redirected, out);
            CommandResult::Exit(0)
        } else if is_text(p, "exit") {
            match Exit::new(connection, params, redirected, out) {
                CommandResult::Close(v) => CommandResult::Close(v),
                CommandResult::Exit(v) => CommandResult::Exit(v),
                CommandResult::ReadStdin(c) => CommandResult::ReadStdin(ConcreteCommand::Exit(c)),
            }
        } else if is_text(p, "uname") {
            match Uname::new(connection, params, redirected, out) {
                CommandResult::Close(v) => CommandResult::Close(v),
                CommandResult::Exit(v) => CommandResult::Exit(v),
                CommandResult::ReadStdin(c) => CommandResult::ReadStdin(ConcreteCommand::Uname(c)),
            }
        } else if is_text(p, "whoami") {
            Whoami::new(connection, params, redirected, out);
            CommandResult::Exit(0)
        } else if is_text(p, "ls") {
            match Ls::new(connection, params, redirected, out) {
                CommandResult::Close(v) => CommandResult::Close(v),
                CommandResult::Exit(v) => CommandResult::Exit(v),
                CommandResult::ReadStdin(c) => CommandResult::ReadStdin(ConcreteCommand::Ls(c)),
            }
        } else if is_text(p, "pwd") {
            match Pwd::new(connection, params, redirected, out) {
                CommandResult::Close(v) => CommandResult::Close(v),
                CommandResult::Exit(v) => CommandResult::Exit(v),
                CommandResult::ReadStdin(c) => CommandResult::ReadStdin(ConcreteCommand::Pwd(c)),
            }
        } else if is_text(p, "scp") {
            match Scp::new(connection, params, redirected, out) {
                CommandResult::Close(v) => CommandResult::Close(v),
                CommandResult::Exit(v) => CommandResult::Exit(v),
                CommandResult::ReadStdin(c) => CommandResult::ReadStdin(ConcreteCommand::Scp(c)),
            }
        } else if is_text(p, "cat") {
            match Cat::new(connection, params, redirected, out) {
                CommandResult::Close(v) => CommandResult::Close(v),
                CommandResult::Exit(v) => CommandResult::Exit(v),
                CommandResult::ReadStdin(c) => CommandResult::ReadStdin(ConcreteCommand::Cat(c)),
            }
        } else {
            append_text(out, "bash: ");
            append_bytes(out, p);
            append_text(out, ": command not found\n");
            CommandResult::Exit(1)
        }
    }

    /// Hands standard input to the running command.
    pub fn stdin(self, connection: &mut ConnectionState, data: &[u8], out: &mut Vec<u8>) -> (r:
        CommandResult<Self>)
        requires
            old(connection).wf(),
        ensures
            final(connection).wf(),
            final(connection).username == old(connection).username,
            final(connection).environment == old(connection).environment,
    {
        match self {
            ConcreteCommand::Echo(c) => match c.stdin(connection, data, out) {
                CommandResult::ReadStdin(c) => CommandResult::ReadStdin(ConcreteCommand::Echo(c)),
                CommandResult::Exit(v) => CommandResult::Exit(v),
                CommandResult::Close(v) => CommandResult::Close(v),
            },
            ConcreteCommand::Exit(c) => match c.stdin(connection, data, out) {
                CommandResult::ReadStdin(c) => CommandResult::ReadStdin(ConcreteCommand::Exit(c)),
                CommandResult::Exit(v) => CommandResult::Exit(v),
                CommandResult::Close(v) => CommandResult::Close(v),
            },
            ConcreteCommand::Ls(c) => match c.stdin(connection, data, out) {
                CommandResult::ReadStdin(c) => CommandResult::ReadStdin(ConcreteCommand::Ls(c)),
                CommandResult::Exit(v) => CommandResult::Exit(v),
                CommandResult::Close(v) => CommandResult::Close(v),
            },
            ConcreteCommand::Pwd(c) => match c.stdin(connection, data, out) {
                CommandResult::ReadStdin(c) => CommandResult::ReadStdin(ConcreteCommand::Pwd(c)),
                CommandResult::Exit(v) => CommandResult::Exit(v),
                CommandResult::Close(v) => CommandResult::Close(v),
            },
            ConcreteCommand::Scp(c) => match c.stdin(connection, data, out) {
                CommandResult::ReadStdin(c) => CommandResult::ReadStdin(ConcreteCommand::Scp(c)),
                CommandResult::Exit(v) => CommandResult::Exit(v),
                CommandResult::Close(v) => CommandResult::Close(v),
            },
            ConcreteCommand::Uname(c) => match c.stdin(connection, data, out) {
                CommandResult::ReadStdin(c) => CommandResult::ReadStdin(ConcreteCommand::Uname(c)),
                CommandResult::Exit(v) => CommandResult::Exit(v),
                CommandResult::Close(v) => CommandResult::Close(v),
            },
            ConcreteCommand::Whoami(c) => match c.stdin(connection, data, out) {
                CommandResult::ReadStdin(c) => CommandResult::ReadStdin(ConcreteCommand::Whoami(c)),
                CommandResult::Exit(v) => CommandResult::Exit(v),
                CommandResult::Close(v) => CommandResult::Close(v),
            },
            ConcreteCommand::Cat(c) => match c.stdin(connection, data, out) {
                CommandResult::ReadStdin(c) => CommandResult::ReadStdin(ConcreteCommand::Cat(c)),
                CommandResult::Exit(v) => CommandResult::Exit(v),
                CommandResult::Close(v) => CommandResult::Close(v),
            },
        }
    }
}

impl PartialCommand {
    /// Starts the command this line names.
    pub fn into_concrete_command(
        self,
        connection: &mut ConnectionState,
        redirected: bool,
        out: &mut Vec<u8>,
    ) -> (r: CommandResult<ConcreteCommand>)
        requires
            old(connection).wf(),
        ensures
            final(connection).wf(),
            final(connection).username == old(connection).username,
            final(connection).environment == old(connection).environment,
            final(connection).audit_log == old(connection).audit_log,
            !touches_file_system(opt_view(self.program)) ==> *final(connection) == *old(connection),
            started_as(
                r,
                opt_view(self.program),
                views(self.params@),
                redirected,
                old(connection).username_view(),
                old(out)@,
                final(out)@,
            ),
    {
        let ghost out0 = out@;
        let r = ConcreteCommand::new(connection, &self.program, self.params.as_slice(), redirected, out);
        proof {
            reveal(started_as);
            assert(out0 + Seq::<u8>::empty() =~= out0);
            if let Some(p) = self.program {
                assert(out0 + ("bash: ".spec_bytes() + p@ + ": command not found\n".spec_bytes())
                    =~= out0 + "bash: ".spec_bytes() + p@ + ": command not found\n".spec_bytes());
            }
        }
        r
    }
}

} // verus!
