//! Expansion of a parsed command line: substitutions are handed out one at a
//! time to be run, and their output is spliced back in.

use vstd::prelude::*;
use crate::command::{opt_view, PartialCommand};
use crate::connection::{env_lookup, env_view, EnvView};
use crate::shell::parser::{exp_view, part_view, parts_view, ExpView, Expansion, ParsedPart, PartView, RedirectionTo};
use crate::text::{append_bytes, copy_bytes, views};

verus! {

/// What a step of the evaluator asks for.
#[derive(Debug, PartialEq, Eq)]
pub enum IterState {
    /// Run this command and step again with its output.
    Expand(PartialCommand),
    /// The command line is ready to run.
    Ready(PartialCommand),
}

/// The program and parameters gathered so far, as plain values, and whether
/// a break has asked for a new parameter that no text has opened yet.
pub struct Gathered {
    pub program: Option<Seq<u8>>,
    pub params: Seq<Seq<u8>>,
    pub due: bool,
}

/// Nothing gathered yet.
pub open spec fn nothing() -> Gathered {
    Gathered { program: None, params: Seq::empty(), due: false }
}

/// Adds a chunk of text. The first non-empty chunk names the program; after
/// a break a chunk, even an empty one, opens a new parameter; otherwise it
/// goes on the current one.
pub open spec fn add_chunk(g: Gathered, out: Seq<u8>) -> Gathered {
    match g.program {
        None => if out.len() == 0 {
            g
        } else {
            Gathered { program: Some(out), params: g.params, due: false }
        },
        Some(_) => if g.due || g.params.len() == 0 {
            Gathered { program: g.program, params: g.params.push(out), due: false }
        } else {
            Gathered {
                program: g.program,
                params: g.params.update(g.params.len() - 1, g.params.last() + out),
                due: false,
            }
        },
    }
}

/// A break: the next chunk starts a new parameter.
pub open spec fn add_break(g: Gathered) -> Gathered {
    Gathered { program: g.program, params: g.params, due: true }
}

/// Whether no part holds a command substitution.
pub open spec fn all_flat(ps: Seq<PartView>) -> bool {
    forall|k: int| 0 <= k < ps.len() ==> is_flat(#[trigger] ps[k])
}

/// Whether a part holds no command substitution.
pub open spec fn is_flat(p: PartView) -> bool {
    !(p matches PartView::Expansion(ExpView::Command(_)))
}

/// The command gathered from parts without substitutions.
pub open spec fn gather(g: Gathered, ps: Seq<PartView>, env: EnvView) -> Gathered
    decreases ps.len(),
{
    if ps.len() == 0 {
        g
    } else {
        let g2 = match ps[0] {
            PartView::Break => add_break(g),
            PartView::String(b) => add_chunk(g, b),
            PartView::Expansion(ExpView::Variable(v)) => add_chunk(g, env_lookup(env, v)),
            _ => g,
        };
        gather(g2, ps.drop_first(), env)
    }
}

/// The command substitutions in a part, nested ones included.
pub open spec fn part_count(p: PartView) -> nat
    decreases p, 0nat,
{
    match p {
        PartView::Expansion(ExpView::Command(cv)) => 1 + parts_count(cv, 0),
        _ => 0,
    }
}

/// The command substitutions in the parts from position `i` on.
pub open spec fn parts_count(s: Seq<PartView>, i: int) -> nat
    decreases s, (s.len() - i) as nat,
{
    if i < 0 || i >= s.len() {
        0
    } else {
        part_count(s[i]) + parts_count(s, i + 1)
    }
}

proof fn lemma_count_shift(s: Seq<PartView>, i: int)
    requires
        s.len() > 0,
        0 <= i,
    ensures
        parts_count(s, i + 1) == parts_count(s.drop_first(), i),
    decreases s.len() - i,
{
    if i + 1 < s.len() {
        lemma_count_shift(s, i + 1);
        assert(s.drop_first()[i] == s[i + 1]);
    }
}

/// Counting from the front: the first part, then the rest.
pub proof fn lemma_count_first(s: Seq<PartView>)
    requires
        s.len() > 0,
    ensures
        parts_count(s, 0) == part_count(s[0]) + parts_count(s.drop_first(), 0),
{
    lemma_count_shift(s, 0);
}

/// An evaluator as plain values: the parts not yet looked at, in order, the
/// substitution being run, and what is gathered.
pub struct IterModel {
    pub rest: Seq<PartView>,
    pub expanding: Option<Box<IterModel>>,
    pub gathered: Gathered,
}

/// What a step hands out: a command to run for its output, or the command
/// the line is ready to run.
pub enum StepOut {
    Expand(Gathered),
    Ready(Gathered),
}

/// A fresh evaluator for `ps`.
pub open spec fn fresh(ps: Seq<PartView>) -> IterModel {
    IterModel { rest: ps, expanding: None, gathered: nothing() }
}

/// The substitutions still to be run, the one being run included.
pub open spec fn model_pending(m: IterModel) -> nat
    decreases m,
{
    parts_count(m.rest, 0) + match m.expanding {
        Some(inner) => 1 + model_pending(*inner),
        None => 0,
    }
}

/// One step. A substitution in progress steps first; when it is ready, its
/// command is handed out to be run and it is done. Otherwise the output of
/// the substitution run last is added, and the walk goes on.
pub open spec fn step_spec(m: IterModel, env: EnvView, prev: Option<Seq<u8>>) -> (IterModel, StepOut)
    decreases model_pending(m), m.rest.len(), 1nat,
{
    match m.expanding {
        Some(inner) => {
            let (i2, out) = step_spec(*inner, env, prev);
            match out {
                StepOut::Expand(c) => (
                    IterModel { rest: m.rest, expanding: Some(Box::new(i2)), gathered: m.gathered },
                    StepOut::Expand(c),
                ),
                StepOut::Ready(c) => (
                    IterModel { rest: m.rest, expanding: None, gathered: m.gathered },
                    StepOut::Expand(c),
                ),
            }
        },
        None => walk(
            IterModel {
                rest: m.rest,
                expanding: None,
                gathered: match prev {
                    Some(o) => add_chunk(m.gathered, o),
                    None => m.gathered,
                },
            },
            env,
        ),
    }
}

/// The walk over the parts: breaks, text and variables are gathered,
/// redirections passed over; a command substitution is entered and its own
/// first step taken, so the innermost substitution is handed out first; at
/// the end the command is ready.
pub open spec fn walk(m: IterModel, env: EnvView) -> (IterModel, StepOut)
    decreases model_pending(m), m.rest.len(), 0nat,
{
    if m.rest.len() == 0 || m.expanding is Some {
        (m, StepOut::Ready(m.gathered))
    } else {
        proof {
            lemma_count_first(m.rest);
        }
        let next = IterModel { rest: m.rest.drop_first(), expanding: None, gathered: m.gathered };
        match m.rest[0] {
            PartView::Break => walk(
                IterModel { rest: next.rest, expanding: None, gathered: add_break(m.gathered) },
                env,
            ),
            PartView::String(b) => walk(
                IterModel { rest: next.rest, expanding: None, gathered: add_chunk(m.gathered, b) },
                env,
            ),
            PartView::Expansion(ExpView::Variable(v)) => walk(
                IterModel {
                    rest: next.rest,
                    expanding: None,
                    gathered: add_chunk(m.gathered, env_lookup(env, v)),
                },
                env,
            ),
            PartView::Redirection(_, _) => walk(next, env),
            PartView::Expansion(ExpView::Command(cv)) => {
                let (i2, out) = step_spec(fresh(cv), env, None);
                match out {
                    StepOut::Expand(c) => (
                        IterModel { rest: next.rest, expanding: Some(Box::new(i2)), gathered: m.gathered },
                        StepOut::Expand(c),
                    ),
                    StepOut::Ready(c) => (next, StepOut::Expand(c)),
                }
            },
        }
    }
}

/// Each step hands out one substitution and leaves one fewer to run, or
/// finds the line ready with none left. So a line with `k` substitutions,
/// nested ones included, gives exactly `k` commands to expand and then the
/// ready command.
pub proof fn law_one_substitution_per_step(m: IterModel, env: EnvView, prev: Option<Seq<u8>>)
    ensures
        step_spec(m, env, prev).1 is Expand ==> model_pending(step_spec(m, env, prev).0) + 1
            == model_pending(m),
        step_spec(m, env, prev).1 is Ready ==> model_pending(m) == 0 && model_pending(
            step_spec(m, env, prev).0,
        ) == 0,
    decreases model_pending(m), m.rest.len(), 1nat,
{
    match m.expanding {
        Some(inner) => {
            law_one_substitution_per_step(*inner, env, prev);
        },
        None => {
            let m1 = IterModel {
                rest: m.rest,
                expanding: None,
                gathered: match prev {
                    Some(o) => add_chunk(m.gathered, o),
                    None => m.gathered,
                },
            };
            lemma_walk_counts(m1, env);
        },
    }
}

proof fn lemma_walk_counts(m: IterModel, env: EnvView)
    requires
        m.expanding is None,
    ensures
        walk(m, env).1 is Expand ==> model_pending(walk(m, env).0) + 1 == model_pending(m),
        walk(m, env).1 is Ready ==> model_pending(m) == 0 && model_pending(walk(m, env).0) == 0,
    decreases model_pending(m), m.rest.len(), 0nat,
{
    if m.rest.len() > 0 {
        lemma_count_first(m.rest);
        let r = m.rest.drop_first();
        match m.rest[0] {
            PartView::Break => {
                lemma_walk_counts(IterModel { rest: r, expanding: None, gathered: add_break(m.gathered) }, env);
            },
            PartView::String(b) => {
                lemma_walk_counts(IterModel { rest: r, expanding: None, gathered: add_chunk(m.gathered, b) }, env);
            },
            PartView::Expansion(ExpView::Variable(v)) => {
                lemma_walk_counts(
                    IterModel { rest: r, expanding: None, gathered: add_chunk(m.gathered, env_lookup(env, v)) },
                    env,
                );
            },
            PartView::Redirection(_, _) => {
                lemma_walk_counts(IterModel { rest: r, expanding: None, gathered: m.gathered }, env);
            },
            PartView::Expansion(ExpView::Command(cv)) => {
                law_one_substitution_per_step(fresh(cv), env, None);
            },
        }
    }
}

/// Over parts without substitutions the walk gathers them all and is ready.
pub proof fn lemma_walk_flat(m: IterModel, env: EnvView)
    requires
        m.expanding is None,
        all_flat(m.rest),
    ensures
        walk(m, env) == (
            IterModel { rest: Seq::empty(), expanding: None, gathered: gather(m.gathered, m.rest, env) },
            StepOut::Ready(gather(m.gathered, m.rest, env)),
        ),
    decreases m.rest.len(),
{
    if m.rest.len() == 0 {
        assert(m.rest =~= Seq::<PartView>::empty());
    } else {
        lemma_count_first(m.rest);
        let r = m.rest.drop_first();
        assert(all_flat(r)) by {
            assert forall|k: int| 0 <= k < r.len() implies is_flat(#[trigger] r[k]) by {
                assert(r[k] == m.rest[k + 1]);
            }
        }
        assert(is_flat(m.rest[0]));
        match m.rest[0] {
            PartView::Break => {
                lemma_walk_flat(IterModel { rest: r, expanding: None, gathered: add_break(m.gathered) }, env);
            },
            PartView::String(b) => {
                lemma_walk_flat(IterModel { rest: r, expanding: None, gathered: add_chunk(m.gathered, b) }, env);
            },
            PartView::Expansion(ExpView::Variable(v)) => {
                lemma_walk_flat(
                    IterModel { rest: r, expanding: None, gathered: add_chunk(m.gathered, env_lookup(env, v)) },
                    env,
                );
            },
            PartView::Redirection(_, _) => {
                lemma_walk_flat(IterModel { rest: r, expanding: None, gathered: m.gathered }, env);
            },
            _ => {},
        }
    }
}

/// Whether `c` is the command gathered in `g`.
pub open spec fn command_is(c: PartialCommand, g: Gathered) -> bool {
    opt_view(c.program) == g.program && views(c.params@) == g.params
}

/// Whether the state a step returned is what `out` says.
pub open spec fn state_is(r: IterState, out: StepOut) -> bool {
    match r {
        IterState::Expand(c) => out matches StepOut::Expand(g) && command_is(c, g),
        IterState::Ready(c) => out matches StepOut::Ready(g) && command_is(c, g),
    }
}

/// Steps through a parsed command line.
pub struct Iter {
    /// The parts not yet looked at, the next one last.
    command: Vec<ParsedPart>,
    expanding: Option<Box<Iter>>,
    stdout_to: RedirectionTo,
    stderr_to: RedirectionTo,
    program: Option<Vec<u8>>,
    params: Vec<Vec<u8>>,
    break_due: bool,
}

impl Iter {
    /// The evaluator as plain values.
    pub closed spec fn model(&self) -> IterModel
        decreases self,
    {
        IterModel {
            rest: parts_view(self.command@).reverse(),
            expanding: match self.expanding {
                Some(inner) => Some(Box::new(inner.model())),
                None => None,
            },
            gathered: Gathered {
                program: opt_view(self.program),
                params: views(self.params@),
                due: self.break_due,
            },
        }
    }

    /// The substitutions still to be run.
    pub open spec fn pending(&self) -> nat {
        model_pending(self.model())
    }

    /// The parts not yet looked at, in order.
    pub open spec fn remaining(&self) -> Seq<PartView> {
        self.model().rest
    }

    pub open spec fn gathered(&self) -> Gathered {
        self.model().gathered
    }

    pub open spec fn is_expanding(&self) -> bool {
        self.model().expanding is Some
    }

    /// An evaluator for a parsed command line.
    pub fn new(command: Vec<ParsedPart>) -> (r: Self)
        ensures
            r.model() == fresh(parts_view(command@)),
    {
        let ghost orig_parts = command@;
        let mut command = command;
        let ghost orig = parts_view(command@);
        let mut rev: Vec<ParsedPart> = Vec::new();
        assert(parts_view(rev@).reverse() =~= orig.subrange(command@.len() as int, orig.len() as int));
        while command.len() > 0
            invariant
                orig.len() == command@.len() + rev@.len(),
                orig == parts_view(orig_parts),
                command@ == orig_parts.take(command@.len() as int),
                parts_view(command@) == orig.take(command@.len() as int),
                parts_view(rev@).reverse() == orig.subrange(command@.len() as int, orig.len() as int),
            decreases command@.len(),
        {
            let ghost n = command@.len();
            let ghost before = parts_view(rev@);
            let p = command.pop().unwrap();
            assert(p == orig_parts[n - 1]);
            assert(part_view(p) == orig[n - 1]);
            rev.push(p);
            assert(parts_view(command@) =~= orig.take(n - 1));
            assert(command@ =~= orig_parts.take(n - 1));
            assert(parts_view(rev@) =~= before.push(orig[n - 1]));
            assert(parts_view(rev@).reverse() =~= seq![orig[n - 1]] + before.reverse());
            assert(orig.subrange(n - 1, orig.len() as int) =~= seq![orig[n - 1]] + orig.subrange(
                n as int,
                orig.len() as int,
            ));
        }
        assert(orig.subrange(0, orig.len() as int) =~= orig);
        let r = Iter {
            command: rev,
            expanding: None,
            stdout_to: RedirectionTo::Stdio(0),
            stderr_to: RedirectionTo::Stdio(1),
            program: None,
            params: Vec::new(),
            break_due: false,
        };
        assert(views(r.params@) =~= Seq::<Seq<u8>>::empty());
        assert(r.model().gathered == nothing());
        r
    }

    fn add_chunk(&mut self, out: Vec<u8>)
        ensures
            final(self).model() == (IterModel {
                rest: old(self).model().rest,
                expanding: old(self).model().expanding,
                gathered: add_chunk(old(self).model().gathered, out@),
            }),
            final(self).command == old(self).command,
            final(self).expanding == old(self).expanding,
    {
        match &self.program {
            None => {
                if out.len() > 0 {
                    self.program = Some(out);
                    self.break_due = false;
                }
            },
            Some(_) => {
                let n = self.params.len();
                let ghost before = views(self.params@);
                if self.break_due || n == 0 {
                    self.params.push(out);
                    assert(views(self.params@) =~= before.push(out@));
                } else {
                    let mut last = copy_bytes(self.params[n - 1].as_slice());
                    append_bytes(&mut last, out.as_slice());
                    self.params.set(n - 1, last);
                    assert(views(self.params@) =~= before.update(n - 1, before.last() + out@));
                }
                self.break_due = false;
            },
        }
    }

    fn add_break(&mut self)
        ensures
            final(self).model() == (IterModel {
                rest: old(self).model().rest,
                expanding: old(self).model().expanding,
                gathered: add_break(old(self).model().gathered),
            }),
            final(self).command == old(self).command,
            final(self).expanding == old(self).expanding,
    {
        self.break_due = true;
    }

    /// The command gathered.
    fn current(&self) -> (r: PartialCommand)
        ensures
            command_is(r, self.model().gathered),
    {
        let program = match &self.program {
            Some(p) => Some(copy_bytes(p.as_slice())),
            None => None,
        };
        let mut params: Vec<Vec<u8>> = Vec::new();
        let mut i: usize = 0;
        while i < self.params.len()
            invariant
                0 <= i <= self.params@.len(),
                views(params@) == views(self.params@).take(i as int),
            decreases self.params@.len() - i,
        {
            let ghost before = views(params@);
            params.push(copy_bytes(self.params[i].as_slice()));
            assert(views(params@) =~= before.push(self.params@[i as int]@));
            assert(views(self.params@).take(i + 1) =~= views(self.params@).take(i as int).push(
                self.params@[i as int]@,
            ));
            i = i + 1;
        }
        assert(views(self.params@).take(self.params@.len() as int) =~= views(self.params@));
        PartialCommand::new(program, params)
    }

    /// Runs the command line on until a substitution must be run or the
    /// command is ready, exactly as `step_spec` says. `previous_out` is the
    /// output of the substitution handed out last; it is added to the
    /// current argument before the walk goes on.
    pub fn step(&mut self, env: &Vec<(Vec<u8>, Vec<u8>)>, previous_out: Option<Vec<u8>>) -> (r:
        IterState)
        ensures
            final(self).model() == step_spec(old(self).model(), env_view(env@), opt_view(previous_out)).0,
            state_is(r, step_spec(old(self).model(), env_view(env@), opt_view(previous_out)).1),
        decreases old(self).pending(),
    {
        let ghost m0 = self.model();
        let ghost envv = env_view(env@);
        match &mut self.expanding {
            Some(inner) => {
                let r = inner.step(env, previous_out);
                return match r {
                    IterState::Expand(cmd) => IterState::Expand(cmd),
                    IterState::Ready(cmd) => {
                        self.expanding = None;
                        IterState::Expand(cmd)
                    },
                };
            },
            None => {},
        }
        match previous_out {
            Some(out) => {
                self.add_chunk(out);
            },
            None => {},
        }
        let ghost m1 = self.model();
        assert(step_spec(m0, envv, opt_view(previous_out)) == walk(m1, envv));
        loop
            invariant
                self.expanding is None,
                m0 == old(self).model(),
                envv == env_view(env@),
                step_spec(m0, envv, opt_view(previous_out)) == walk(self.model(), envv),
                model_pending(self.model()) <= model_pending(m0),
                self.model().expanding is None,
            decreases self.command@.len(),
        {
            let ghost m = self.model();
            let ghost rem = m.rest;
            let ghost cmd_before = self.command@;
            proof {
                if rem.len() > 0 {
                    lemma_count_first(rem);
                }
            }
            match self.command.pop() {
                None => {
                    assert(rem.len() == 0);
                    let c = self.current();
                    return IterState::Ready(c);
                },
                Some(part) => {
                    assert(rem[0] == part_view(part));
                    assert(cmd_before.drop_last() == self.command@);
                    assert(parts_view(self.command@).reverse() =~= rem.drop_first());
                    match part {
                        ParsedPart::Break => {
                            self.add_break();
                        },
                        ParsedPart::String(data) => {
                            self.add_chunk(data);
                        },
                        ParsedPart::Expansion(Expansion::Command(command)) => {
                            let ghost cvv = parts_view(command@);
                            assert(exp_view(Expansion::Command(command))->Command_0 =~= cvv);
                            assert(rem[0] == PartView::Expansion(ExpView::Command(cvv)));
                            self.expanding = Some(Box::new(Iter::new(command)));
                            let inner = self.expanding.as_mut().unwrap();
                            let r = inner.step(env, None);
                            return match r {
                                IterState::Expand(cmd) => IterState::Expand(cmd),
                                IterState::Ready(cmd) => {
                                    self.expanding = None;
                                    IterState::Expand(cmd)
                                },
                            };
                        },
                        ParsedPart::Expansion(Expansion::Variable(name)) => {
                            let value = env_get(env, name.as_slice());
                            self.add_chunk(value);
                        },
                        ParsedPart::Redirection(idx, target) => {
                            if idx == 0 {
                                self.stdout_to = target;
                            } else if idx == 1 {
                                self.stderr_to = target;
                            }
                        },
                    }
                },
            }
        }
    }
}

/// The value of variable `name` in `env`, empty when unset.
pub fn env_get(env: &Vec<(Vec<u8>, Vec<u8>)>, name: &[u8]) -> (r: Vec<u8>)
    ensures
        r@ == env_lookup(env_view(env@), name@),
{
    let ghost e = env_view(env@);
    let mut i: usize = env.len();
    assert(e.take(i as int) =~= e);
    while i > 0
        invariant
            e == env_view(env@),
            0 <= i <= e.len(),
            env_lookup(e.take(i as int), name@) == env_lookup(e, name@),
        decreases i,
    {
        assert(e.take(i as int).drop_last() =~= e.take(i - 1));
        if crate::text::bytes_eq(env[i - 1].0.as_slice(), name) {
            return copy_bytes(env[i - 1].1.as_slice());
        }
        i = i - 1;
    }
    assert(e.take(0) =~= Seq::<(Seq<u8>, Seq<u8>)>::empty());
    Vec::new()
}

} // verus!
