//! Laws of the machine: what holds of every evaluation, whatever the
//! program and the state.

use crate::machine::{
    active, block, operator_of, owes_value, popped, pushed, run, step, step_frame, ActionView,
    FrameView, MachineView, State,
};
use crate::token::TokenView;
use crate::types::{binding_names, first_named, macro_names};
use crate::value::Value;
use vstd::prelude::*;

verus! {

/// Whether the next step of `m` executes `token`.
pub open spec fn executes(m: MachineView, token: TokenView) -> bool {
    &&& m.frames.len() > 0
    &&& !owes_value(m.frames.last())
    &&& m.frames.last().pos < m.frames.last().tokens.len()
    &&& m.frames.last().tokens[m.frames.last().pos as int] == token
}

/// The frames `frames` with the innermost moved on by one token.
pub open spec fn advanced(frames: Seq<FrameView>) -> Seq<FrameView> {
    frames.drop_last().push(FrameView { pos: frames.last().pos + 1, ..frames.last() })
}

/// The machine `m` with the frames `below` around its own.
pub open spec fn within(below: Seq<FrameView>, m: MachineView) -> MachineView {
    MachineView { state: m.state, frames: below + m.frames }
}

/// Whether `name` stands for a macro in state `s`: no active binding has
/// that name, and some macro has it.
pub open spec fn names_macro(s: State, name: Seq<char>) -> bool {
    &&& first_named(binding_names(active(s)), name, 0) is None
    &&& first_named(macro_names(s.macros), name, 0) matches Some(i)
    &&& 0 <= i < s.macros.len()
}

/// The body of the macro that `name` stands for in state `s`.
pub open spec fn macro_body(s: State, name: Seq<char>) -> Seq<TokenView> {
    s.macros[first_named(macro_names(s.macros), name, 0)->0].body
}

/// An arithmetic token takes the two numbers on top away and hands them to
/// the host with the one that was on top as the left operand: with `a`
/// pushed before `b`, the host computes `b` minus `a`, `b` over `a`.
pub proof fn law_top_is_left_operand(m: MachineView, token: TokenView, s: State, a: u64, b: u64)
    requires
        executes(m, token),
        operator_of(token) is Some,
        m.state == pushed(pushed(s, Value::Float(a)), Value::Float(b)),
    ensures
        step(m) == (
            MachineView { state: s, frames: advanced(m.frames) },
            ActionView::Arith(operator_of(token)->0, b, a),
        ),
{
    let f = m.frames.last();
    assert(popped(m.state, 2).stack =~= s.stack);
    assert(m.frames.drop_last() + seq![FrameView { pos: f.pos + 1, ..f }] =~= advanced(m.frames));
}

/// `drop` undoes a push: whatever value was pushed last, the state after
/// `drop` is the state before the push.
pub proof fn law_drop_undoes_push(m: MachineView, s: State, x: Value)
    requires
        executes(m, TokenView::Drop),
        m.state == pushed(s, x),
    ensures
        step(m) == (MachineView { state: s, frames: advanced(m.frames) }, ActionView::Continue),
{
    let f = m.frames.last();
    assert(popped(m.state, 1).stack =~= s.stack);
    assert(m.frames.drop_last() + seq![FrameView { pos: f.pos + 1, ..f }] =~= advanced(m.frames));
}

/// `dup` leaves the value that was on top twice on the stack.
pub proof fn law_dup_repeats_top(m: MachineView, s: State, x: Value)
    requires
        executes(m, TokenView::Dup),
        m.state == pushed(s, x),
    ensures
        step(m) == (
            MachineView { state: pushed(pushed(s, x), x), frames: advanced(m.frames) },
            ActionView::Continue,
        ),
{
    let f = m.frames.last();
    assert(m.frames.drop_last() + seq![FrameView { pos: f.pos + 1, ..f }] =~= advanced(m.frames));
}

/// A step that fails, and one that finds nothing to do, leave the machine as
/// it was.
pub proof fn law_failure_changes_nothing(m: MachineView)
    ensures
        step(m).1 is Fail || step(m).1 is Done ==> step(m).0 == m,
{
    if m.frames.len() > 0 {
        let f = m.frames.last();
        if step(m).1 is Fail {
            assert(step_frame(m.state, f).frames =~= seq![f]);
            assert(m.frames.drop_last() + seq![f] =~= m.frames);
        }
    }
}

/// A step looks at the innermost block alone: the blocks around those under
/// way stay as they are and change nothing of what the step does.
pub proof fn law_step_is_local(below: Seq<FrameView>, m: MachineView)
    requires
        m.frames.len() > 0,
    ensures
        step(within(below, m)) == (within(below, step(m).0), step(m).1),
{
    let all = below + m.frames;
    let outcome = step_frame(m.state, m.frames.last());
    assert(all.last() == m.frames.last());
    assert(all.drop_last() =~= below + m.frames.drop_last());
    assert(all.drop_last() + outcome.frames =~= below + (m.frames.drop_last() + outcome.frames));
}

/// Evaluation is local: as long as the blocks of `m` have something left to
/// do, a run of `m` inside other blocks does what a run of `m` alone does,
/// and leaves the blocks around it as they are.
pub proof fn law_run_is_local(below: Seq<FrameView>, m: MachineView, limit: nat)
    requires
        !(run(m, limit).1 is Done),
    ensures
        run(within(below, m), limit) == (within(below, run(m, limit).0), run(m, limit).1),
    decreases limit,
{
    if limit > 0 {
        if m.frames.len() > 0 {
            law_step_is_local(below, m);
            if step(m).1 is Continue {
                law_run_is_local(below, step(m).0, (limit - 1) as nat);
            }
        }
    }
}

/// A macro does the same wherever it is referred to: two machines in the
/// same state that both come to the name of a macro run its body to the same
/// state and the same request to the host, whatever else either of them has
/// pending. The steps counted are that which opens the body and `limit`
/// steps of the body, as far as the body has that many.
pub proof fn law_macro_is_repeatable(
    first: MachineView,
    second: MachineView,
    name: Seq<char>,
    limit: nat,
)
    requires
        first.state == second.state,
        names_macro(first.state, name),
        executes(first, TokenView::Ident(name)),
        executes(second, TokenView::Ident(name)),
        !(run(
            MachineView { state: first.state, frames: seq![block(macro_body(first.state, name))] },
            limit,
        ).1 is Done),
    ensures
        ({
            let body = MachineView {
                state: first.state,
                frames: seq![block(macro_body(first.state, name))],
            };
            &&& run(first, limit + 1) == (
                within(advanced(first.frames), run(body, limit).0),
                run(body, limit).1,
            )
            &&& run(second, limit + 1) == (
                within(advanced(second.frames), run(body, limit).0),
                run(body, limit).1,
            )
        }),
{
    let body = MachineView {
        state: first.state,
        frames: seq![block(macro_body(first.state, name))],
    };
    lemma_macro_opens(first, name);
    lemma_macro_opens(second, name);
    law_run_is_local(advanced(first.frames), body, limit);
    law_run_is_local(advanced(second.frames), body, limit);
}

/// The step that comes to the name of a macro opens the macro's body and
/// changes nothing else.
proof fn lemma_macro_opens(m: MachineView, name: Seq<char>)
    requires
        names_macro(m.state, name),
        executes(m, TokenView::Ident(name)),
    ensures
        step(m) == (
            within(
                advanced(m.frames),
                MachineView { state: m.state, frames: seq![block(macro_body(m.state, name))] },
            ),
            ActionView::Continue,
        ),
{
    let f = m.frames.last();
    let rest = FrameView { pos: f.pos + 1, ..f };
    let opened = block(macro_body(m.state, name));
    assert(m.frames.drop_last() + seq![rest, opened] =~= advanced(m.frames) + seq![opened]);
}

} // verus!
