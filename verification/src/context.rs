//! The state that evaluation reads and changes, as it is held in memory.

use crate::machine::{active, fresh_state, popped, pushed, top, with_active, MemoryScope, State};
use crate::token::{tokens_of, Token};
use crate::types::{bindings_of, functions_of, macros_of, Function, Let, Macro, MacroView};
use crate::value::{lemma_values_of, values_of, StackType};
use vstd::prelude::*;

verus! {

/// The operand stack, the global bindings, the functions and macros, and the
/// bindings of the call that is under way.
#[derive(Debug)]
pub struct Context {
    /// The operand stack; its last element is the top.
    pub stack: Vec<StackType>,
    /// The global bindings, oldest first.
    pub memory: Vec<Let>,
    pub functions: Vec<Function>,
    pub macros: Vec<Macro>,
    /// Which bindings are the active ones.
    pub mem_scope: MemoryScope,
    /// The bindings of the call that is under way.
    pub locals: Vec<Let>,
}

impl View for Context {
    type V = State;

    open spec fn view(&self) -> State {
        State {
            stack: values_of(self.stack@),
            memory: bindings_of(self.memory@),
            functions: functions_of(self.functions@),
            macros: macros_of(self.macros@),
            mem_scope: self.mem_scope,
            locals: bindings_of(self.locals@),
        }
    }
}

/// Two states with the same contents are the same state.
pub proof fn lemma_same_state(a: State, b: State)
    requires
        a.stack =~= b.stack,
        a.memory =~= b.memory,
        a.functions =~= b.functions,
        a.macros =~= b.macros,
        a.mem_scope == b.mem_scope,
        a.locals =~= b.locals,
    ensures
        a == b,
{
}

/// Taking one more value off the stack.
pub proof fn lemma_pop_more(s: State, n: int)
    requires
        0 <= n < s.stack.len(),
    ensures
        popped(popped(s, n), 1) == popped(s, n + 1),
        top(popped(s, n), 0) == top(s, n),
        popped(s, 0) == s,
{
    lemma_same_state(popped(popped(s, n), 1), popped(s, n + 1));
    lemma_same_state(popped(s, 0), s);
}

/// What a pushed value does to the values a stack stands for.
pub proof fn lemma_values_push(items: Seq<StackType>, item: StackType)
    ensures
        values_of(items.push(item)) == values_of(items).push(item@),
{
    assert(items.push(item).drop_last() =~= items);
}

/// What taking the last item away does to the values a stack stands for.
pub proof fn lemma_values_drop_last(items: Seq<StackType>)
    requires
        items.len() > 0,
    ensures
        values_of(items.drop_last()) == values_of(items).drop_last(),
        values_of(items).last() == items.last()@,
{
    lemma_values_of(items);
    lemma_values_of(items.drop_last());
    assert(values_of(items.drop_last()) =~= values_of(items).drop_last());
}

/// What a pushed binding does to what a list of bindings stands for.
pub proof fn lemma_bindings_push(items: Seq<Let>, item: Let)
    ensures
        bindings_of(items.push(item)) == bindings_of(items).push(item@),
{
    assert(bindings_of(items.push(item)) =~= bindings_of(items).push(item@));
}

impl Context {
    /// Nothing on the stack, nothing declared, the global bindings active.
    pub fn new() -> (r: Self)
        ensures
            r@ == fresh_state(),
    {
        let r = Self {
            stack: Vec::new(),
            memory: Vec::new(),
            functions: Vec::new(),
            macros: Vec::new(),
            mem_scope: MemoryScope::Global,
            locals: Vec::new(),
        };
        proof {
            lemma_same_state(r@, fresh_state());
        }
        r
    }

    /// Registers `body` as a macro under `name`, after the macros that are
    /// there.
    pub fn define_macro(&mut self, name: String, body: Vec<Token>)
        ensures
            final(self)@ == (State {
                macros: old(self)@.macros.push(MacroView { name: name@, body: tokens_of(body@) }),
                ..old(self)@
            }),
    {
        let defined = Macro { name, body };
        proof {
            assert(macros_of(self.macros@.push(defined)) =~= macros_of(self.macros@).push(
                defined@,
            ));
        }
        self.macros.push(defined);
    }

    /// How many values the stack holds.
    pub fn depth(&self) -> (r: usize)
        ensures
            r == self@.stack.len(),
    {
        proof {
            lemma_values_of(self.stack@);
        }
        self.stack.len()
    }

    /// The `k`-th value from the top, the top being the 0th.
    pub fn peek(&self, k: usize) -> (r: &StackType)
        requires
            k < self@.stack.len(),
        ensures
            r@ == top(self@, k as int),
    {
        proof {
            lemma_values_of(self.stack@);
        }
        &self.stack[self.stack.len() - 1 - k]
    }

    /// Pushes a value.
    pub fn push(&mut self, value: StackType)
        ensures
            final(self)@ == pushed(old(self)@, value@),
            final(self).memory == old(self).memory,
            final(self).functions == old(self).functions,
            final(self).macros == old(self).macros,
            final(self).mem_scope == old(self).mem_scope,
            final(self).locals == old(self).locals,
    {
        proof {
            lemma_values_push(self.stack@, value);
        }
        self.stack.push(value);
    }

    /// Takes the top value off.
    pub fn pop(&mut self) -> (r: StackType)
        requires
            old(self)@.stack.len() > 0,
        ensures
            r@ == top(old(self)@, 0),
            final(self)@ == popped(old(self)@, 1),
            final(self).memory == old(self).memory,
            final(self).functions == old(self).functions,
            final(self).macros == old(self).macros,
            final(self).mem_scope == old(self).mem_scope,
            final(self).locals == old(self).locals,
    {
        proof {
            lemma_values_of(self.stack@);
            lemma_values_drop_last(self.stack@);
        }
        let r = self.stack.pop();
        proof {
            lemma_same_state(self@, popped(old(self)@, 1));
        }
        r.unwrap()
    }

    /// The bindings that names are looked up in.
    pub fn active(&self) -> (r: &Vec<Let>)
        ensures
            bindings_of(r@) == active(self@),
            r.len() == active(self@).len(),
    {
        match self.mem_scope {
            MemoryScope::Function => &self.locals,
            MemoryScope::Global => &self.memory,
        }
    }

    /// Adds a binding after the active ones.
    pub fn bind(&mut self, binding: Let)
        ensures
            final(self)@ == with_active(old(self)@, active(old(self)@).push(binding@)),
    {
        match self.mem_scope {
            MemoryScope::Function => {
                proof {
                    lemma_bindings_push(self.locals@, binding);
                }
                self.locals.push(binding);
            },
            MemoryScope::Global => {
                proof {
                    lemma_bindings_push(self.memory@, binding);
                }
                self.memory.push(binding);
            },
        }
    }

    /// Puts `binding` in the place of the active binding at `i`.
    pub fn rebind(&mut self, i: usize, binding: Let)
        requires
            i < active(old(self)@).len(),
        ensures
            final(self)@ == with_active(old(self)@, active(old(self)@).update(i as int, binding@)),
    {
        match self.mem_scope {
            MemoryScope::Function => {
                self.locals.set(i, binding);
                proof {
                    assert(bindings_of(self.locals@) =~= bindings_of(old(self).locals@).update(
                        i as int,
                        binding@,
                    ));
                }
            },
            MemoryScope::Global => {
                self.memory.set(i, binding);
                proof {
                    assert(bindings_of(self.memory@) =~= bindings_of(old(self).memory@).update(
                        i as int,
                        binding@,
                    ));
                }
            },
        }
    }
}

} // verus!
