//! The shell: reads command lines, expands them and runs the built-in
//! commands, as one subsystem of a channel.

pub mod iter;
pub mod parser;

use vstd::prelude::*;
use vstd::string::StringSliceAdditionalSpecFns;
use crate::audit::{AuditLogAction, ExecCommandEvent};
use crate::command::{ends_with, lemma_started, start_outcome, CommandResult, ConcreteCommand};
use crate::connection::ConnectionState;
use crate::shell::iter::{
    fresh, law_one_substitution_per_step, model_pending, step_spec, Iter, IterModel, IterState,
    StepOut,
};
use crate::connection::{env_view, EnvView};
use crate::text::views;
use crate::shell::parser::{tokenize, tokens, Parsed};
use crate::text::{copy_bytes, text_bytes};

verus! {

pub const SHELL_PROMPT: &'static str = "bash-5.1$ ";

pub const SYNTAX_ERROR: &'static str = "bash: syntax error\n";

/// What the shell asks of its channel, in order.
#[derive(Debug, PartialEq, Eq)]
pub enum SessionAction {
    Data(Vec<u8>),
    ExitStatus(u32),
    Close,
    Success,
    Failure,
}

/// Sends what a command printed, if anything.
fn flush_output(actions: &mut Vec<SessionAction>, out: Vec<u8>)
    ensures
        out@.len() == 0 ==> final(actions)@ == old(actions)@,
        out@.len() > 0 ==> final(actions)@ == old(actions)@.push(SessionAction::Data(out)),
{
    if out.len() > 0 {
        actions.push(SessionAction::Data(out));
    }
}

/// Output of a substitution as it is fed back: nothing when empty.
pub open spec fn fed_back(o: Seq<u8>) -> Option<Seq<u8>> {
    if o.len() > 0 {
        Some(o)
    } else {
        None
    }
}

/// What a command line run from evaluator `m` prints, whether it closes the
/// session, and its status, when every command it starts never waits for
/// input. Each substitution's command runs with its output captured and fed
/// back; one that closes the session ends the line; the ready command's
/// output is the line's.
#[verifier::opaque]
pub open spec fn line_outcome(m: IterModel, env: EnvView, user: Seq<u8>, prev: Option<Seq<u8>>) -> Option<
    (Seq<u8>, bool, u32),
>
    decreases model_pending(m),
{
    let (m2, out) = step_spec(m, env, prev);
    match out {
        StepOut::Ready(g) => start_outcome(g.program, g.params, false, user),
        StepOut::Expand(g) => match start_outcome(g.program, g.params, true, user) {
            Some((o, close, status)) => if close {
                Some((Seq::empty(), true, status))
            } else if model_pending(m2) < model_pending(m) {
                line_outcome(m2, env, user, fed_back(o))
            } else {
                None
            },
            None => None,
        },
    }
}

/// A line whose next step hands out a command to expand.
pub proof fn lemma_line_expand(
    m: IterModel,
    env: EnvView,
    user: Seq<u8>,
    prev: Option<Seq<u8>>,
    m2: IterModel,
    g: crate::shell::iter::Gathered,
)
    requires
        step_spec(m, env, prev) == (m2, StepOut::Expand(g)),
        model_pending(m2) < model_pending(m),
    ensures
        start_outcome(g.program, g.params, true, user) is None ==> line_outcome(m, env, user, prev)
            is None,
        start_outcome(g.program, g.params, true, user) matches Some((o, close, status)) ==> (if close {
            line_outcome(m, env, user, prev) == Some((Seq::<u8>::empty(), true, status))
        } else {
            line_outcome(m, env, user, prev) == line_outcome(m2, env, user, fed_back(o))
        }),
{
    reveal(line_outcome);
}

/// A line whose next step finds the command ready.
pub proof fn lemma_line_ready(
    m: IterModel,
    env: EnvView,
    user: Seq<u8>,
    prev: Option<Seq<u8>>,
    m2: IterModel,
    g: crate::shell::iter::Gathered,
)
    requires
        step_spec(m, env, prev) == (m2, StepOut::Ready(g)),
    ensures
        line_outcome(m, env, user, prev) == start_outcome(g.program, g.params, false, user),
{
    reveal(line_outcome);
}

/// A command line being run: its evaluator, the command running now, and,
/// while that command's output feeds a substitution, the output so far.
pub struct ExecutingCommand {
    iter: Iter,
    current: ConcreteCommand,
    buf: Option<Vec<u8>>,
}

impl ExecutingCommand {
    /// Runs a parsed command line until a command waits for input or the
    /// line is done. What the final command prints goes to `out`; what the
    /// commands of substitutions print is captured and fed back.
    pub fn new(iter: Iter, connection: &mut ConnectionState, out: &mut Vec<u8>) -> (r:
        CommandResult<Self>)
        requires
            old(connection).wf(),
        ensures
            final(connection).wf(),
            final(connection).username == old(connection).username,
            final(connection).environment == old(connection).environment,
            final(connection).audit_log == old(connection).audit_log,
            line_outcome(
                iter.model(),
                env_view(old(connection).environment@),
                old(connection).username_view(),
                None,
            ) matches Some((o, close, status)) ==> final(out)@ == old(out)@ + o && ends_with(
                r,
                close,
                status,
            ),
    {
        let buf: Vec<u8> = Vec::new();
        assert(fed_back(buf@) is None);
        ExecutingCommand::new_inner(buf, iter, connection, out)
    }

    #[verifier::rlimit(100)]
    fn new_inner(buf: Vec<u8>, iter: Iter, connection: &mut ConnectionState, out: &mut Vec<u8>) -> (r:
        CommandResult<Self>)
        requires
            old(connection).wf(),
        ensures
            final(connection).wf(),
            final(connection).username == old(connection).username,
            final(connection).environment == old(connection).environment,
            final(connection).audit_log == old(connection).audit_log,
            line_outcome(
                iter.model(),
                env_view(old(connection).environment@),
                old(connection).username_view(),
                fed_back(buf@),
            ) matches Some((o, close, status)) ==> final(out)@ == old(out)@ + o && ends_with(
                r,
                close,
                status,
            ),
    {
        let ghost envv = env_view(connection.environment@);
        let ghost user = connection.username_view();
        let ghost goal = line_outcome(iter.model(), envv, user, fed_back(buf@));
        let mut captured = buf;
        let mut it = iter;
        loop
            invariant
                connection.wf(),
                connection.username == old(connection).username,
                connection.environment == old(connection).environment,
                connection.audit_log == old(connection).audit_log,
                envv == env_view(old(connection).environment@),
                user == old(connection).username_view(),
                goal == line_outcome(iter.model(), envv, user, fed_back(buf@)),
                goal is Some ==> line_outcome(it.model(), envv, user, fed_back(captured@)) == goal
                    && out@ == old(out)@,
            decreases it.pending(),
        {
            let ghost cap0 = captured@;
            let previous = if captured.len() > 0 {
                let b = captured;
                captured = Vec::new();
                Some(b)
            } else {
                None
            };
            assert(captured@ =~= Seq::<u8>::empty());
            let ghost m_before = it.model();
            let ghost prev_view = crate::command::opt_view(previous);
            assert(prev_view == fed_back(cap0));
            let step = it.step(&connection.environment, previous);
            proof {
                law_one_substitution_per_step(m_before, envv, prev_view);
            }
            let ghost m_after = it.model();
            let ghost sout = step_spec(m_before, envv, prev_view).1;
            let (has_next, current) = match step {
                IterState::Expand(cmd) => (true, cmd),
                IterState::Ready(cmd) => (false, cmd),
            };
            let ghost prog = crate::command::opt_view(current.program);
            let ghost params = views(current.params@);
            let ghost out_before = out@;
            proof {
                if has_next {
                    assert(sout == StepOut::Expand(crate::shell::iter::Gathered { program: prog, params: params, due: sout->Expand_0.due }));
                    lemma_line_expand(m_before, envv, user, prev_view, m_after, sout->Expand_0);
                } else {
                    lemma_line_ready(m_before, envv, user, prev_view, m_after, sout->Ready_0);
                }
            }
            let result = if has_next {
                current.into_concrete_command(connection, true, &mut captured)
            } else {
                current.into_concrete_command(connection, false, out)
            };
            proof {
                if goal is Some {
                    if has_next {
                        lemma_started(result, prog, params, true, user, Seq::empty(), captured@);
                        let o = start_outcome(prog, params, true, user)->Some_0.0;
                        assert(captured@ =~= o);
                    } else {
                        lemma_started(result, prog, params, false, user, out_before, out@);
                    }
                }
            }
            match result {
                CommandResult::ReadStdin(cmd) => {
                    let captured = if has_next {
                        Some(captured)
                    } else {
                        None
                    };
                    return CommandResult::ReadStdin(ExecutingCommand { iter: it, current: cmd, buf: captured });
                },
                CommandResult::Exit(status) => {
                    if !has_next {
                        return CommandResult::Exit(status);
                    }
                },
                CommandResult::Close(status) => {
                    proof {
                        if goal is Some && has_next {
                            assert(out@ =~= old(out)@ + Seq::<u8>::empty());
                        }
                    }
                    return CommandResult::Close(status);
                },
            }
        }
    }

    /// Hands input to the command running now. When a command whose output
    /// feeds a substitution exits, the line goes on; when the final one
    /// exits, the line is done.
    pub fn stdin(self, connection: &mut ConnectionState, data: &[u8], out: &mut Vec<u8>) -> (r:
        CommandResult<Self>)
        requires
            old(connection).wf(),
        ensures
            final(connection).wf(),
            final(connection).username == old(connection).username,
            final(connection).environment == old(connection).environment,
    {
        let ExecutingCommand { iter, current, buf } = self;
        let mut buf = buf;
        let result = match &mut buf {
            Some(b) => current.stdin(connection, data, b),
            None => current.stdin(connection, data, out),
        };
        match result {
            CommandResult::ReadStdin(cmd) => CommandResult::ReadStdin(
                ExecutingCommand { iter, current: cmd, buf },
            ),
            CommandResult::Exit(status) => {
                match buf {
                    Some(b) => ExecutingCommand::new_inner(b, iter, connection, out),
                    None => CommandResult::Exit(status),
                }
            },
            CommandResult::Close(status) => CommandResult::Close(status),
        }
    }
}

/// Where a shell stands.
pub enum ShellState {
    /// Waiting for a command line.
    Prompt,
    /// A command is reading standard input.
    Running(ExecutingCommand),
    /// A command exited with this status; the shell goes back to the prompt.
    Exit(u32),
    /// The session ends with this status.
    Quit(u32),
}

/// An action as plain values.
pub enum ActionView {
    Data(Seq<u8>),
    ExitStatus(u32),
    Close,
    Success,
    Failure,
}

pub open spec fn action_view(a: SessionAction) -> ActionView {
    match a {
        SessionAction::Data(d) => ActionView::Data(d@),
        SessionAction::ExitStatus(s) => ActionView::ExitStatus(s),
        SessionAction::Close => ActionView::Close,
        SessionAction::Success => ActionView::Success,
        SessionAction::Failure => ActionView::Failure,
    }
}

pub open spec fn actions_view(v: Seq<SessionAction>) -> Seq<ActionView> {
    v.map_values(|a: SessionAction| action_view(a))
}

/// What a line prints, whether it closes the session, and its status, when
/// it reads and every command it starts never waits for input.
pub open spec fn simple_line(data: Seq<u8>, env: EnvView, user: Seq<u8>) -> Option<(Seq<u8>, bool, u32)> {
    match tokens(data, 0) {
        Parsed::Read(ps, _) => line_outcome(fresh(ps), env, user, None),
        _ => None,
    }
}

/// What the shell sends for such a line: the output if any, the status,
/// then a close when the session ends or else the prompt.
pub open spec fn simple_line_actions(o: Seq<u8>, close: bool, status: u32, interactive: bool) -> Seq<ActionView> {
    let out = if o.len() > 0 { seq![ActionView::Data(o)] } else { Seq::empty() };
    if close || !interactive {
        out + seq![ActionView::ExitStatus(status), ActionView::Close]
    } else {
        out + seq![ActionView::ExitStatus(status), ActionView::Data(SHELL_PROMPT.spec_bytes())]
    }
}

/// An interactive shell, or one that runs a single command line.
pub struct Shell {
    pub interactive: bool,
    pub state: ShellState,
}

impl Shell {
    /// A shell at the prompt; an interactive one shows the prompt.
    pub fn new(interactive: bool, actions: &mut Vec<SessionAction>) -> (r: Self)
        ensures
            r.interactive == interactive,
            r.state is Prompt,
            interactive ==> final(actions)@.len() == old(actions)@.len() + 1,
            interactive ==> final(actions)@.drop_last() == old(actions)@,
            interactive ==> (final(actions)@.last() matches SessionAction::Data(d) && d@
                == SHELL_PROMPT.spec_bytes()),
            !interactive ==> final(actions)@ == old(actions)@,
    {
        if interactive {
            let ghost before = actions@;
            actions.push(SessionAction::Data(text_bytes(SHELL_PROMPT)));
            assert(actions@.drop_last() =~= before);
        }
        Shell { interactive, state: ShellState::Prompt }
    }

    fn handle_command_result(&self, result: CommandResult<ExecutingCommand>) -> (r: (
        ShellState,
        bool,
    ))
        requires
        ensures
            r.1 <==> r.0 is Running,
            result is ReadStdin ==> r.0 is Running,
            result matches CommandResult::Exit(s) ==> r.0 == if self.interactive {
                ShellState::Exit(s)
            } else {
                ShellState::Quit(s)
            },
            result matches CommandResult::Close(s) ==> r.0 == ShellState::Quit(s),
    {
        match result {
            CommandResult::ReadStdin(cmd) => (ShellState::Running(cmd), true),
            CommandResult::Exit(status) => if self.interactive {
                (ShellState::Exit(status), false)
            } else {
                (ShellState::Quit(status), false)
            },
            CommandResult::Close(status) => (ShellState::Quit(status), false),
        }
    }

    /// One round of the shell on `state`: the next state, and whether the
    /// round ends the input.
    fn round(
        &self,
        state: ShellState,
        connection: &mut ConnectionState,
        data: &[u8],
        actions: &mut Vec<SessionAction>,
    ) -> (r: (ShellState, bool, bool))
        requires
            old(connection).wf(),
        ensures
            !r.1 ==> (r.0 is Exit || r.0 is Quit),
            (state is Exit || state is Quit) ==> r.1 && r.0 is Prompt && *final(connection)
                == *old(connection),
            final(connection).wf(),
            final(connection).username == old(connection).username,
            final(connection).environment == old(connection).environment,
            state is Prompt ==> final(connection).audit_log.actions() == old(
                connection,
            ).audit_log.actions().push(final(connection).audit_log.actions().last()),
            state is Prompt ==> (final(connection).audit_log.actions().last() matches AuditLogAction::ExecCommand(e)
                && e.args@.len() == 1 && e.args@[0]@ == data@),
            (state is Prompt && simple_line(
                data@,
                env_view(old(connection).environment@),
                old(connection).username_view(),
            ) is Some) ==> ({
                let (o, close, status) = simple_line(
                    data@,
                    env_view(old(connection).environment@),
                    old(connection).username_view(),
                )->Some_0;
                &&& actions_view(final(actions)@) == actions_view(old(actions)@) + if o.len() > 0 {
                    seq![ActionView::Data(o)]
                } else {
                    Seq::empty()
                }
                &&& !r.1 && !r.2
                &&& r.0 == if close || !self.interactive {
                    ShellState::Quit(status)
                } else {
                    ShellState::Exit(status)
                }
            }),
            state matches ShellState::Exit(s) ==> actions_view(final(actions)@) == actions_view(old(actions)@).push(ActionView::ExitStatus(s)) && !r.2,
            (state is Prompt && !(tokens(data@, 0) is Read)) ==> actions_view(final(actions)@)
                == actions_view(old(actions)@).push(ActionView::Data(SYNTAX_ERROR.spec_bytes()))
                && r.0 is Prompt && r.1 && !r.2,
            state matches ShellState::Quit(s) ==> actions_view(final(actions)@) == actions_view(old(actions)@) + seq![ActionView::ExitStatus(s), ActionView::Close] && r.2,
    {
        match state {
            ShellState::Prompt => {
                let mut args: Vec<Vec<u8>> = Vec::new();
                args.push(copy_bytes(data));
                connection.audit_log.push_action(
                    AuditLogAction::ExecCommand(ExecCommandEvent { args }),
                );
                let ghost conn1 = *connection;
                let ghost before = actions@;
                match tokenize(data) {
                    Ok((_unparsed, parts)) => {
                        let iter = Iter::new(parts);
                        let mut out: Vec<u8> = Vec::new();
                        assert(out@ =~= Seq::<u8>::empty());
                        let result = ExecutingCommand::new(iter, connection, &mut out);
                        let ghost outv = out@;
                        flush_output(actions, out);
                        proof {
                            assert(conn1.environment == old(connection).environment);
                            assert(conn1.username_view() == old(connection).username_view());
                            if outv.len() > 0 {
                                assert(actions_view(actions@) =~= actions_view(before) + seq![ActionView::Data(outv)]);
                            } else {
                                assert(actions_view(actions@) =~= actions_view(before) + Seq::<ActionView>::empty());
                            }
                        }
                        let (next, end) = self.handle_command_result(result);
                        (next, end, false)
                    },
                    Err(_) => {
                        let ghost a1 = actions@;
                        actions.push(SessionAction::Data(text_bytes(SYNTAX_ERROR)));
                        assert(actions_view(actions@) =~= actions_view(a1).push(ActionView::Data(SYNTAX_ERROR.spec_bytes())));
                        (ShellState::Prompt, true, false)
                    },
                }
            },
            ShellState::Running(command) => {
                let mut out: Vec<u8> = Vec::new();
                let result = command.stdin(connection, data, &mut out);
                flush_output(actions, out);
                let (next, end) = self.handle_command_result(result);
                (next, end, false)
            },
            ShellState::Exit(status) => {
                let ghost before = actions@;
                actions.push(SessionAction::ExitStatus(status));
                assert(actions_view(actions@) =~= actions_view(before).push(ActionView::ExitStatus(status)));
                (ShellState::Prompt, true, false)
            },
            ShellState::Quit(status) => {
                let ghost before = actions@;
                actions.push(SessionAction::ExitStatus(status));
                actions.push(SessionAction::Close);
                assert(actions_view(actions@) =~= actions_view(before) + seq![ActionView::ExitStatus(status), ActionView::Close]);
                (ShellState::Prompt, true, true)
            },
        }
    }

    /// Takes a line of input: at the prompt it is recorded and run as a
    /// command line, else it goes to the command that reads input. What the
    /// shell asks of the channel is appended to `actions`: output, then an
    /// exit status (and a close, when the session ends), then the prompt
    /// when the shell is back at it and the session goes on.
    pub fn data(
        &mut self,
        connection: &mut ConnectionState,
        data: &[u8],
        actions: &mut Vec<SessionAction>,
    )
        requires
            old(connection).wf(),
        ensures
            final(self).interactive == old(self).interactive,
            final(connection).wf(),
            final(connection).username == old(connection).username,
            final(connection).environment == old(connection).environment,
            old(self).state is Prompt ==> final(connection).audit_log.actions() == old(
                connection,
            ).audit_log.actions().push(final(connection).audit_log.actions().last()),
            old(self).state is Prompt ==> (final(connection).audit_log.actions().last() matches AuditLogAction::ExecCommand(e)
                && e.args@.len() == 1 && e.args@[0]@ == data@),
            (old(self).state is Prompt && simple_line(
                data@,
                env_view(old(connection).environment@),
                old(connection).username_view(),
            ) is Some) ==> ({
                let (o, close, status) = simple_line(
                    data@,
                    env_view(old(connection).environment@),
                    old(connection).username_view(),
                )->Some_0;
                actions_view(final(actions)@) == actions_view(old(actions)@) + simple_line_actions(
                    o,
                    close,
                    status,
                    old(self).interactive,
                )
            }),
            (old(self).state is Prompt && !(tokens(data@, 0) is Read)) ==> actions_view(final(actions)@)
                == actions_view(old(actions)@) + seq![
                ActionView::Data(SYNTAX_ERROR.spec_bytes()),
                ActionView::Data(SHELL_PROMPT.spec_bytes()),
            ],
    {
        let ghost a0 = actions@;
        let mut state = ShellState::Prompt;
        std::mem::swap(&mut self.state, &mut state);
        let (next, end, mut closed) = self.round(state, connection, data, actions);
        self.state = next;
        if !end {
            let mut again = ShellState::Prompt;
            std::mem::swap(&mut self.state, &mut again);
            let (next, _, closed_now) = self.round(again, connection, data, actions);
            self.state = next;
            closed = closed_now;
        }
        let at_prompt = match self.state {
            ShellState::Prompt => !closed,
            _ => false,
        };
        let ghost a1 = actions@;
        if at_prompt {
            actions.push(SessionAction::Data(text_bytes(SHELL_PROMPT)));
            assert(actions_view(actions@) =~= actions_view(a1).push(ActionView::Data(SHELL_PROMPT.spec_bytes())));
        }
        proof {
            if old(self).state is Prompt && !(tokens(data@, 0) is Read) {
                assert(actions_view(actions@) =~= actions_view(a0) + seq![
                    ActionView::Data(SYNTAX_ERROR.spec_bytes()),
                    ActionView::Data(SHELL_PROMPT.spec_bytes()),
                ]);
            }
            let sl = simple_line(data@, env_view(old(connection).environment@), old(connection).username_view());
            if old(self).state is Prompt && sl is Some {
                let (o, close, status) = sl->Some_0;
                let out = if o.len() > 0 { seq![ActionView::Data(o)] } else { Seq::<ActionView>::empty() };
                if close || !old(self).interactive {
                    assert(actions_view(actions@) =~= actions_view(a0) + simple_line_actions(o, close, status, old(self).interactive));
                } else {
                    assert(actions_view(actions@) =~= actions_view(a0) + simple_line_actions(o, close, status, old(self).interactive));
                }
            }
        }
    }
}

} // verus!
