//! The interpreter: a machine that evaluates a token tree one token at a
//! time and tells the host, after each step, what it has to do.
//!
//! The host loads a program with [`Interpreter::parse`] and calls
//! [`Interpreter::step`] or [`Interpreter::run`] until the answer is
//! [`Action::Done`]. Where the answer asks for a number or a text, the host
//! pushes it on the stack before the next step.

use crate::context::{lemma_same_state, lemma_values_push, Context};
use crate::error::Error;
use crate::evaluate::apply;
use crate::frame::{frames_of, Action, Frame, FrameKind};
use crate::machine;
use crate::machine::{FrameView, MachineView, MemoryScope, State};
use crate::token::{lemma_tokens_of, tokens_of, Token};
use crate::value::{lemma_values_of, values_of, StackType, Value};
use vstd::prelude::*;

verus! {

/// The state of an evaluation and the blocks that are under way, the
/// innermost last.
#[derive(Debug)]
pub struct Interpreter {
    pub context: Context,
    pub frames: Vec<Frame>,
}

impl View for Interpreter {
    type V = MachineView;

    open spec fn view(&self) -> MachineView {
        MachineView { state: self.context@, frames: frames_of(self.frames@) }
    }
}

/// What up to two frames stand for, in order.
pub open spec fn listed(first: Option<Frame>, second: Option<Frame>) -> Seq<FrameView> {
    match (first, second) {
        (Some(a), Some(b)) => seq![a@, b@],
        (Some(a), None) => seq![a@],
        (None, Some(b)) => seq![b@],
        (None, None) => Seq::empty(),
    }
}

/// Whether the object literal of `frame` waits for the value of the token it
/// executed last.
fn owes_value(frame: &Frame) -> (r: bool)
    ensures
        r == machine::owes_value(frame@),
{
    match &frame.kind {
        FrameKind::Object(_, built, _) => {
            proof {
                lemma_values_of(built@);
            }
            built.len() < frame.pos
        },
        _ => false,
    }
}

/// Makes `ctx` a fresh state.
fn clear(ctx: &mut Context)
    ensures
        final(ctx)@ == machine::fresh_state(),
{
    let mut fresh = Context::new();
    std::mem::swap(ctx, &mut fresh);
}

/// The property `name` with the value `value`.
fn property(name: String, value: StackType) -> (r: StackType)
    ensures
        r@ == machine::property(name@, value@),
{
    let mut pair: Vec<StackType> = Vec::new();
    let text = StackType::String(name);
    proof {
        lemma_values_push(pair@, text);
        lemma_values_push(pair@.push(text), value);
        assert(values_of(pair@.push(text).push(value)) =~= seq![Value::Text(name@), value@]);
    }
    pair.push(text);
    pair.push(value);
    StackType::Array(pair)
}

fn harvest(ctx: &mut Context, frame: Frame) -> (r: (Option<Frame>, Option<Frame>, Action))
    requires
        machine::owes_value(frame@),
    ensures
        ({
            let o = machine::harvest(old(ctx)@, frame@);
            &&& final(ctx)@ == o.state
            &&& listed(r.0, r.1) == o.frames
            &&& r.2@ == o.action
        }),
{
    let Frame { tokens, pos, kind } = frame;
    match kind {
        FrameKind::Object(names, mut built, outer) => {
            proof {
                lemma_values_of(built@);
            }
            if built.len() >= names.len() {
                let same = Frame { tokens, pos, kind: FrameKind::Object(names, built, outer) };
                return (Some(same), None, Action::Fail(Error::MalformedProgram));
            }
            if ctx.depth() < 1 {
                let same = Frame { tokens, pos, kind: FrameKind::Object(names, built, outer) };
                return (Some(same), None, Action::Fail(Error::StackUnderflow));
            }
            let value = ctx.pop();
            let pair = property(names[built.len()].clone(), value);
            proof {
                lemma_values_push(built@, pair);
            }
            built.push(pair);
            clear(ctx);
            let next = Frame { tokens, pos, kind: FrameKind::Object(names, built, outer) };
            (Some(next), None, Action::Continue)
        },
        other => {
            let same = Frame { tokens, pos, kind: other };
            (Some(same), None, Action::Fail(Error::MalformedProgram))
        },
    }
}

fn finish(ctx: &mut Context, frame: Frame) -> (r: (Option<Frame>, Option<Frame>, Action))
    ensures
        ({
            let o = machine::finish(old(ctx)@, frame@);
            &&& final(ctx)@ == o.state
            &&& listed(r.0, r.1) == o.frames
            &&& r.2@ == o.action
        }),
{
    let Frame { tokens, pos, kind } = frame;
    match kind {
        FrameKind::Block => (None, None, Action::Continue),
        FrameKind::Loop(remaining) => {
            if remaining > 0 {
                let again = Frame { tokens, pos: 0, kind: FrameKind::Loop(remaining - 1) };
                (Some(again), None, Action::Continue)
            } else {
                (None, None, Action::Continue)
            }
        },
        FrameKind::Call(scope, locals) => {
            ctx.mem_scope = scope;
            ctx.locals = locals;
            (None, None, Action::Continue)
        },
        FrameKind::Array(outer) => {
            let mut inner = outer;
            std::mem::swap(ctx, &mut inner);
            ctx.push(StackType::Array(inner.stack));
            (None, None, Action::Continue)
        },
        FrameKind::Object(_, built, outer) => {
            let mut inner = outer;
            std::mem::swap(ctx, &mut inner);
            ctx.push(StackType::Array(built));
            (None, None, Action::Continue)
        },
    }
}

fn execute(ctx: &mut Context, frame: Frame) -> (r: (Option<Frame>, Option<Frame>, Action))
    requires
        frame.pos < frame.tokens.len(),
    ensures
        ({
            let o = machine::execute(old(ctx)@, frame@);
            &&& final(ctx)@ == o.state
            &&& listed(r.0, r.1) == o.frames
            &&& r.2@ == o.action
        }),
{
    proof {
        lemma_tokens_of(frame.tokens@);
    }
    let alone = match &frame.kind {
        FrameKind::Object(_, _, _) => true,
        _ => false,
    };
    let applied = {
        let next: Option<&Token> = if alone || frame.pos + 1 >= frame.tokens.len() {
            None
        } else {
            Some(&frame.tokens[frame.pos + 1])
        };
        apply(ctx, &frame.tokens[frame.pos], next)
    };
    match applied {
        Err(e) => (Some(frame), None, Action::Fail(e)),
        Ok(a) => {
            let Frame { tokens, pos, kind } = frame;
            let rest = Frame { tokens, pos: pos + a.consumed, kind };
            (Some(rest), a.child, a.action)
        },
    }
}

fn step_frame(ctx: &mut Context, frame: Frame) -> (r: (Option<Frame>, Option<Frame>, Action))
    ensures
        ({
            let o = machine::step_frame(old(ctx)@, frame@);
            &&& final(ctx)@ == o.state
            &&& listed(r.0, r.1) == o.frames
            &&& r.2@ == o.action
        }),
{
    proof {
        lemma_tokens_of(frame.tokens@);
    }
    if owes_value(&frame) {
        harvest(ctx, frame)
    } else if frame.pos >= frame.tokens.len() {
        finish(ctx, frame)
    } else {
        execute(ctx, frame)
    }
}

impl Interpreter {
    /// An interpreter with nothing on the stack, nothing declared and
    /// nothing to evaluate.
    pub fn new() -> (r: Self)
        ensures
            r@ == (MachineView { state: machine::fresh_state(), frames: Seq::empty() }),
    {
        let r = Self { context: Context::new(), frames: Vec::new() };
        assert(frames_of(r.frames@) =~= Seq::empty());
        r
    }

    /// Schedules `tokens` for evaluation in the current state, before
    /// everything that is pending.
    pub fn parse(&mut self, tokens: Vec<Token>)
        ensures
            final(self)@ == machine::load(old(self)@, tokens_of(tokens@)),
    {
        let frame = Frame { tokens, pos: 0, kind: FrameKind::Block };
        proof {
            assert(frames_of(self.frames@.push(frame)) =~= frames_of(self.frames@).push(frame@));
        }
        self.frames.push(frame);
    }

    /// Takes one step: the innermost block moves on by one token, or ends.
    /// The answer says what the host has to do before the next step.
    pub fn step(&mut self) -> (action: Action)
        ensures
            final(self)@ == machine::step(old(self)@).0,
            action@ == machine::step(old(self)@).1,
    {
        let ghost before = self.frames@;
        match self.frames.pop() {
            None => {
                assert(frames_of(self.frames@) =~= frames_of(before));
                Action::Done
            },
            Some(frame) => {
                let ghost base = self.frames@;
                assert(frames_of(base) =~= frames_of(before).drop_last());
                assert(frames_of(before).last() == frame@);
                let (first, second, action) = step_frame(&mut self.context, frame);
                match first {
                    Some(f) => {
                        self.frames.push(f);
                    },
                    None => {},
                }
                match second {
                    Some(f) => {
                        self.frames.push(f);
                    },
                    None => {},
                }
                assert(frames_of(self.frames@) =~= frames_of(base) + listed(first, second));
                action
            },
        }
    }

    /// Steps until the host is needed, nothing is left, or `limit` steps
    /// were taken; the answer is then [`Action::Paused`].
    pub fn run(&mut self, limit: u64) -> (action: Action)
        ensures
            final(self)@ == machine::run(old(self)@, limit as nat).0,
            action@ == machine::run(old(self)@, limit as nat).1,
    {
        let ghost start = self@;
        let mut taken: u64 = 0;
        while taken < limit
            invariant
                taken <= limit,
                start == old(self)@,
                machine::run(start, limit as nat) == machine::run(self@, (limit - taken) as nat),
            decreases limit - taken,
        {
            let action = self.step();
            match action {
                Action::Continue => {},
                other => {
                    return other;
                },
            }
            taken += 1;
        }
        Action::Paused
    }

    /// Gives up everything that is pending, as after a failure: the state is
    /// that around the outermost pending array or object literal, if there
    /// is one, and the global bindings are the active ones again.
    pub fn abort(&mut self)
        ensures
            final(self)@ == machine::abandon(old(self)@),
    {
        let ghost all = frames_of(self.frames@);
        let ghost start = self.context@;
        while self.frames.len() > 0
            invariant
                self.frames.len() <= all.len(),
                frames_of(self.frames@) =~= all.take(self.frames.len() as int),
                self.context@ == (match machine::set_aside(all, self.frames.len() as int) {
                    Some(outer) => outer,
                    None => start,
                }),
            decreases self.frames.len(),
        {
            let ghost held = self.frames@;
            let frame = self.frames.pop().unwrap();
            assert(frames_of(self.frames@) =~= frames_of(held).drop_last());
            assert(frames_of(held)[held.len() - 1] == frame@);
            assert(all.take(held.len() as int)[held.len() - 1] == all[held.len() - 1]);
            assert(all[self.frames.len() as int] == frame@);
            match frame.kind {
                FrameKind::Array(outer) => {
                    let mut inner = outer;
                    std::mem::swap(&mut self.context, &mut inner);
                },
                FrameKind::Object(_, _, outer) => {
                    let mut inner = outer;
                    std::mem::swap(&mut self.context, &mut inner);
                },
                _ => {},
            }
        }
        self.context.mem_scope = MemoryScope::Global;
        self.context.locals = Vec::new();
        proof {
            let base = match machine::set_aside(all, 0) {
                Some(outer) => outer,
                None => start,
            };
            lemma_same_state(
                self.context@,
                State { mem_scope: MemoryScope::Global, locals: Seq::empty(), ..base },
            );
            assert(frames_of(self.frames@) =~= Seq::empty());
        }
    }
}

} // verus!
