//! The interpreter as a mathematical machine: what one step does to the
//! stack, the bindings and the pending blocks, and what it asks of the host.

use crate::error::Error;
use crate::number::{count_as_number, count_of, index_of, Relation, ONE, ZERO};
use crate::token::TokenView;
use crate::types::{binding_names, first_named, function_names, macro_names, Binding, FunctionView, MacroView};
use crate::value::{rank, size_of, value_relation, Value};
use vstd::prelude::*;

verus! {

/// Which bindings a name is looked up in: those of the function that is
/// being called, or the global ones.
#[derive(Clone, Copy, Debug, PartialEq, Eq, Structural)]
pub enum MemoryScope {
    Function,
    Global,
}

/// An arithmetic operator. The host computes it on two doubles.
#[derive(Clone, Copy, Debug, PartialEq, Eq, Structural)]
pub enum Operator {
    Add,
    Minus,
    Div,
    Mul,
    Mod,
}

/// What evaluation reads and changes: the operand stack, the global
/// bindings, the functions and macros, and the bindings of the call that is
/// under way.
pub struct State {
    /// The operand stack; its last element is the top.
    pub stack: Seq<Value>,
    pub memory: Seq<Binding>,
    pub functions: Seq<FunctionView>,
    pub macros: Seq<MacroView>,
    pub mem_scope: MemoryScope,
    pub locals: Seq<Binding>,
}

/// What becomes of the state when a block has run to its end.
pub enum KindView {
    /// A plain block: nothing.
    Block,
    /// A loop body that is run this many more times.
    Loop(u32),
    /// A function body: the caller's scope and bindings come back.
    Call(MemoryScope, Seq<Binding>),
    /// The body of an array literal: the state around it comes back, with
    /// the array on its stack.
    Array(State),
    /// The properties of an object literal: their names, and the properties
    /// built so far. The state around it comes back, with the object on its
    /// stack.
    Object(Seq<Seq<char>>, Seq<Value>, State),
}

/// A block that is being evaluated: its tokens and the position of the next.
pub struct FrameView {
    pub tokens: Seq<TokenView>,
    pub pos: nat,
    pub kind: KindView,
}

/// What a step asks of the host.
pub enum ActionView {
    /// Nothing: take the next step.
    Continue,
    /// Nothing is left to evaluate.
    Done,
    /// The step limit was reached.
    Paused,
    /// Read this number literal and push the number.
    Literal(Seq<char>),
    /// Compute the operator on the two numbers, the left one first, and push
    /// the result.
    Arith(Operator, u64, u64),
    /// Print this value.
    Print(Value),
    /// Read the file at this path and push its contents as a text.
    ReadFile(Seq<char>),
    /// Write the second text to the file at the path that the first gives.
    WriteFile(Seq<char>, Seq<char>),
    /// Evaluation failed. The state is that before the failing step.
    Fail(Error),
}

/// The whole machine: the state and the blocks under evaluation, the
/// innermost last.
pub struct MachineView {
    pub state: State,
    pub frames: Seq<FrameView>,
}

/// What executing one token does: the new state, how many tokens of the
/// block it took, the block it opens, and what the host has to do.
pub struct Effect {
    pub state: State,
    pub consumed: nat,
    pub child: Option<FrameView>,
    pub action: ActionView,
}

/// What one step does to the innermost block: the new state, the frames that
/// take the place of that block's frame, and what the host has to do.
pub struct Outcome {
    pub state: State,
    pub frames: Seq<FrameView>,
    pub action: ActionView,
}

/// The state an array or object literal starts from: nothing on the stack,
/// nothing declared.
pub open spec fn fresh_state() -> State {
    State {
        stack: Seq::empty(),
        memory: Seq::empty(),
        functions: Seq::empty(),
        macros: Seq::empty(),
        mem_scope: MemoryScope::Global,
        locals: Seq::empty(),
    }
}

/// The bindings that names are looked up in.
pub open spec fn active(s: State) -> Seq<Binding> {
    if s.mem_scope is Function {
        s.locals
    } else {
        s.memory
    }
}

/// The state with `bindings` in place of the active bindings.
pub open spec fn with_active(s: State, bindings: Seq<Binding>) -> State {
    if s.mem_scope is Function {
        State { locals: bindings, ..s }
    } else {
        State { memory: bindings, ..s }
    }
}

/// The `k`-th value from the top of the stack, the top being the 0th.
pub open spec fn top(s: State, k: int) -> Value {
    s.stack[s.stack.len() - 1 - k]
}

/// The state with the top `n` values gone.
pub open spec fn popped(s: State, n: int) -> State {
    State { stack: s.stack.take(s.stack.len() - n), ..s }
}

/// The state with `v` pushed.
pub open spec fn pushed(s: State, v: Value) -> State {
    State { stack: s.stack.push(v), ..s }
}

/// A step that only changes the state.
pub open spec fn moved(state: State) -> Result<Effect, Error> {
    Ok(Effect { state, consumed: 1, child: None, action: ActionView::Continue })
}

/// A step that changes the state and asks something of the host.
pub open spec fn asked(state: State, action: ActionView) -> Result<Effect, Error> {
    Ok(Effect { state, consumed: 1, child: None, action })
}

/// A step that opens a block.
pub open spec fn opened(state: State, consumed: nat, child: FrameView) -> Result<Effect, Error> {
    Ok(Effect { state, consumed, child: Some(child), action: ActionView::Continue })
}

/// A plain block over `tokens`.
pub open spec fn block(tokens: Seq<TokenView>) -> FrameView {
    FrameView { tokens, pos: 0, kind: KindView::Block }
}

/// One or zero, as a value.
pub open spec fn truth(b: bool) -> Value {
    if b {
        Value::Float(ONE)
    } else {
        Value::Float(ZERO)
    }
}

/// The operator of an arithmetic token.
pub open spec fn operator_of(token: TokenView) -> Option<Operator> {
    match token {
        TokenView::Add => Some(Operator::Add),
        TokenView::Minus => Some(Operator::Minus),
        TokenView::Div => Some(Operator::Div),
        TokenView::Mul => Some(Operator::Mul),
        TokenView::Mod => Some(Operator::Mod),
        _ => None,
    }
}

/// An arithmetic token takes two numbers off the stack and hands them to
/// the host. The value that was on top is the left operand.
pub open spec fn arithmetic(s: State, op: Operator) -> Result<Effect, Error> {
    if s.stack.len() < 2 {
        Err(Error::StackUnderflow)
    } else {
        match (top(s, 0), top(s, 1)) {
            (Value::Float(left), Value::Float(right)) => asked(
                popped(s, 2),
                ActionView::Arith(op, left, right),
            ),
            _ => Err(Error::TypeMismatch),
        }
    }
}

/// What a comparison token answers, given how the value that was on top
/// stands to the one below it.
pub open spec fn verdict(token: TokenView, r: Relation) -> bool {
    match token {
        TokenView::Eq => r == Relation::Equal,
        TokenView::Noteq => r != Relation::Equal,
        TokenView::Bigger => r == Relation::Less,
        _ => r == Relation::Greater,
    }
}

/// A comparison token takes two values of one kind off the stack and pushes
/// one or zero.
pub open spec fn comparison(s: State, token: TokenView) -> Result<Effect, Error> {
    if s.stack.len() < 2 {
        Err(Error::StackUnderflow)
    } else if rank(top(s, 0)) != rank(top(s, 1)) {
        Err(Error::TypeMismatch)
    } else {
        moved(pushed(popped(s, 2), truth(verdict(token, value_relation(top(s, 0), top(s, 1))))))
    }
}

/// `swap` exchanges the two values on top.
pub open spec fn swap(s: State) -> Result<Effect, Error> {
    if s.stack.len() < 2 {
        Err(Error::StackUnderflow)
    } else {
        moved(pushed(pushed(popped(s, 2), top(s, 0)), top(s, 1)))
    }
}

/// `rot` reverses the three values on top.
pub open spec fn rot(s: State) -> Result<Effect, Error> {
    if s.stack.len() < 3 {
        Err(Error::StackUnderflow)
    } else {
        moved(pushed(pushed(pushed(popped(s, 3), top(s, 0)), top(s, 1)), top(s, 2)))
    }
}

/// `dup` pushes the top once more.
pub open spec fn dup(s: State) -> Result<Effect, Error> {
    if s.stack.len() < 1 {
        Err(Error::StackUnderflow)
    } else {
        moved(pushed(s, top(s, 0)))
    }
}

/// `drop` takes the top away.
pub open spec fn drop_top(s: State) -> Result<Effect, Error> {
    if s.stack.len() < 1 {
        Err(Error::StackUnderflow)
    } else {
        moved(popped(s, 1))
    }
}

/// `put` takes the top away and has the host print it.
pub open spec fn put(s: State) -> Result<Effect, Error> {
    if s.stack.len() < 1 {
        Err(Error::StackUnderflow)
    } else {
        asked(popped(s, 1), ActionView::Print(top(s, 0)))
    }
}

/// `then` takes the top away and opens the block that follows if the top
/// was the number one. The block is passed over either way.
pub open spec fn then_block(s: State, next: Option<TokenView>) -> Result<Effect, Error> {
    if s.stack.len() < 1 {
        Err(Error::StackUnderflow)
    } else {
        match next {
            Some(TokenView::Scope(body)) => if top(s, 0) == Value::Float(ONE) {
                opened(popped(s, 1), 2, block(body))
            } else {
                Ok(
                    Effect {
                        state: popped(s, 1),
                        consumed: 2,
                        child: None,
                        action: ActionView::Continue,
                    },
                )
            },
            _ => Err(Error::MalformedProgram),
        }
    }
}

/// `times` takes a number off the stack and runs the block that follows as
/// often as the whole part of the number says.
pub open spec fn times_block(s: State, next: Option<TokenView>) -> Result<Effect, Error> {
    if s.stack.len() < 1 {
        Err(Error::StackUnderflow)
    } else {
        match (top(s, 0), next) {
            (Value::Float(bits), Some(TokenView::Scope(body))) => Ok(
                Effect {
                    state: popped(s, 1),
                    consumed: 2,
                    child: if count_of(bits) > 0 {
                        Some(
                            FrameView {
                                tokens: body,
                                pos: 0,
                                kind: KindView::Loop((count_of(bits) - 1) as u32),
                            },
                        )
                    } else {
                        None
                    },
                    action: ActionView::Continue,
                },
            ),
            (Value::Float(_), _) => Err(Error::MalformedProgram),
            _ => Err(Error::TypeMismatch),
        }
    }
}

/// `let` takes the top away and declares it under `name`, after the
/// bindings that are already there.
pub open spec fn declare(s: State, name: Seq<char>) -> Result<Effect, Error> {
    if s.stack.len() < 1 {
        Err(Error::StackUnderflow)
    } else {
        moved(
            with_active(popped(s, 1), active(s).push(Binding { name, value: top(s, 0) })),
        )
    }
}

/// `set` takes the top away and gives it to the first binding named `name`.
pub open spec fn assign(s: State, name: Seq<char>) -> Result<Effect, Error> {
    match first_named(binding_names(active(s)), name, 0) {
        None => Err(Error::UndefinedBinding),
        Some(i) => if s.stack.len() < 1 {
            Err(Error::StackUnderflow)
        } else {
            moved(
                with_active(
                    popped(s, 1),
                    active(s).update(i, Binding { name: active(s)[i].name, value: top(s, 0) }),
                ),
            )
        },
    }
}

/// `mempop` takes the newest global binding away and pushes its value;
/// where there is none it pushes zero.
pub open spec fn mempop(s: State) -> Result<Effect, Error> {
    if s.memory.len() > 0 {
        moved(pushed(State { memory: s.memory.drop_last(), ..s }, s.memory.last().value))
    } else {
        moved(pushed(s, Value::Float(ZERO)))
    }
}

/// `memusage` pushes the number of global bindings.
pub open spec fn memusage(s: State) -> Result<Effect, Error> {
    moved(pushed(s, Value::Float(count_as_number(s.memory.len() as u64))))
}

/// The parameters of a function as bindings that hold zero.
pub open spec fn placeholders(names: Seq<Seq<char>>) -> Seq<Binding> {
    Seq::new(names.len(), |i: int| Binding { name: names[i], value: Value::Float(ZERO) })
}

/// `fn` registers a function under `name`, with the block that follows as
/// its body. Nothing is run.
pub open spec fn define(
    s: State,
    name: Seq<char>,
    parameters: Seq<Seq<char>>,
    next: Option<TokenView>,
) -> Result<Effect, Error> {
    match next {
        Some(TokenView::Scope(body)) => Ok(
            Effect {
                state: State {
                    functions: s.functions.push(
                        FunctionView { name, args: placeholders(parameters), scope: body },
                    ),
                    ..s
                },
                consumed: 2,
                child: None,
                action: ActionView::Continue,
            },
        ),
        _ => Err(Error::MalformedProgram),
    }
}

/// The bindings of a call: each parameter with a value from the stack, the
/// first parameter with the top.
pub open spec fn arguments(s: State, parameters: Seq<Binding>) -> Seq<Binding> {
    Seq::new(parameters.len(), |i: int| Binding { name: parameters[i].name, value: top(s, i) })
}

/// `call` takes one value per parameter off the stack and opens the body of
/// the first function named `name`, with those values as its bindings.
pub open spec fn call(s: State, name: Seq<char>) -> Result<Effect, Error> {
    match first_named(function_names(s.functions), name, 0) {
        None => Err(Error::UnresolvedIdentifier),
        Some(i) => {
            let f = s.functions[i];
            if s.stack.len() < f.args.len() {
                Err(Error::StackUnderflow)
            } else {
                opened(
                    State {
                        mem_scope: MemoryScope::Function,
                        locals: arguments(s, f.args),
                        ..popped(s, f.args.len() as int)
                    },
                    1,
                    FrameView { tokens: f.scope, pos: 0, kind: KindView::Call(s.mem_scope, s.locals) },
                )
            }
        },
    }
}

/// A property of an object: an array of a name and a value.
pub open spec fn is_property(v: Value) -> bool {
    v matches Value::Array(pair) && pair.len() == 2 && pair[0] is Text
}

/// An object: an array of properties.
pub open spec fn is_object(v: Value) -> bool {
    v matches Value::Array(items) && forall|i: int| 0 <= i < items.len() ==> is_property(#[trigger] items[i])
}

/// The property `name` with the value `value`.
pub open spec fn property(name: Seq<char>, value: Value) -> Value {
    Value::Array(seq![Value::Text(name), value])
}

/// The names of the properties of an object, in order.
pub open spec fn property_names(items: Seq<Value>) -> Seq<Seq<char>> {
    Seq::new(items.len(), |i: int| items[i]->Array_0[0]->Text_0)
}

/// `get` takes an object off the stack and pushes the value of its first
/// property named `name`.
pub open spec fn get(s: State, name: Seq<char>) -> Result<Effect, Error> {
    if s.stack.len() < 1 {
        Err(Error::StackUnderflow)
    } else if !is_object(top(s, 0)) {
        Err(Error::TypeMismatch)
    } else {
        let items = top(s, 0)->Array_0;
        match first_named(property_names(items), name, 0) {
            None => Err(Error::UndefinedBinding),
            Some(i) => moved(pushed(popped(s, 1), items[i]->Array_0[1])),
        }
    }
}

/// The names of the primitives.
pub open spec fn name_read_file() -> Seq<char> {
    "fs::readFile"@
}

pub open spec fn name_create_file() -> Seq<char> {
    "fs::createFile"@
}

pub open spec fn name_length() -> Seq<char> {
    "length"@
}

pub open spec fn name_nth() -> Seq<char> {
    "array::nth"@
}

pub open spec fn name_pop() -> Seq<char> {
    "array::pop"@
}

pub open spec fn name_push() -> Seq<char> {
    "array::push"@
}

/// `fs::readFile` takes a path off the stack and has the host read the file.
pub open spec fn read_file(s: State) -> Result<Effect, Error> {
    if s.stack.len() < 1 {
        Err(Error::StackUnderflow)
    } else {
        match top(s, 0) {
            Value::Text(path) => asked(popped(s, 1), ActionView::ReadFile(path)),
            _ => Err(Error::TypeMismatch),
        }
    }
}

/// `fs::createFile` takes the content and, below it, the path off the stack
/// and has the host write the file.
pub open spec fn create_file(s: State) -> Result<Effect, Error> {
    if s.stack.len() < 2 {
        Err(Error::StackUnderflow)
    } else {
        match (top(s, 0), top(s, 1)) {
            (Value::Text(content), Value::Text(path)) => asked(
                popped(s, 2),
                ActionView::WriteFile(path, content),
            ),
            _ => Err(Error::TypeMismatch),
        }
    }
}

/// `length` takes a value off the stack and pushes its size.
pub open spec fn length(s: State) -> Result<Effect, Error> {
    if s.stack.len() < 1 {
        Err(Error::StackUnderflow)
    } else {
        moved(pushed(popped(s, 1), Value::Float(count_as_number(size_of(top(s, 0)) as u64))))
    }
}

/// `array::nth` takes an index and, below it, an array off the stack and
/// pushes the element at the index.
pub open spec fn array_nth(s: State) -> Result<Effect, Error> {
    if s.stack.len() < 2 {
        Err(Error::StackUnderflow)
    } else {
        match (top(s, 0), top(s, 1)) {
            (Value::Float(bits), Value::Array(items)) => if index_of(bits) < items.len() {
                moved(pushed(popped(s, 2), items[index_of(bits) as int]))
            } else {
                Err(Error::OutOfRange)
            },
            _ => Err(Error::TypeMismatch),
        }
    }
}

/// `array::pop` takes an array off the stack and pushes its last element
/// and then the array without it.
pub open spec fn array_pop(s: State) -> Result<Effect, Error> {
    if s.stack.len() < 1 {
        Err(Error::StackUnderflow)
    } else {
        match top(s, 0) {
            Value::Array(items) => if items.len() > 0 {
                moved(pushed(pushed(popped(s, 1), items.last()), Value::Array(items.drop_last())))
            } else {
                Err(Error::OutOfRange)
            },
            _ => Err(Error::TypeMismatch),
        }
    }
}

/// `array::push` takes a value and, below it, an array off the stack and
/// pushes a new array with the value at its end.
pub open spec fn array_push(s: State) -> Result<Effect, Error> {
    if s.stack.len() < 2 {
        Err(Error::StackUnderflow)
    } else {
        match top(s, 1) {
            Value::Array(items) => moved(pushed(popped(s, 2), Value::Array(items.push(top(s, 0))))),
            _ => Err(Error::TypeMismatch),
        }
    }
}

/// A name that is neither a binding nor a macro is a primitive or nothing.
pub open spec fn primitive(s: State, name: Seq<char>) -> Result<Effect, Error> {
    if name == name_read_file() {
        read_file(s)
    } else if name == name_create_file() {
        create_file(s)
    } else if name == name_length() {
        length(s)
    } else if name == name_nth() {
        array_nth(s)
    } else if name == name_pop() {
        array_pop(s)
    } else if name == name_push() {
        array_push(s)
    } else {
        Err(Error::UnresolvedIdentifier)
    }
}

/// A name stands for the first active binding of that name, whose value it
/// pushes; failing that for the first macro of that name, whose body it
/// opens in place; failing that for a primitive.
pub open spec fn resolve(s: State, name: Seq<char>) -> Result<Effect, Error> {
    match first_named(binding_names(active(s)), name, 0) {
        Some(i) => moved(pushed(s, active(s)[i].value)),
        None => match first_named(macro_names(s.macros), name, 0) {
            Some(i) => opened(s, 1, block(s.macros[i].body)),
            None => primitive(s, name),
        },
    }
}

/// The names of the properties of an object literal, in order.
pub open spec fn literal_names(properties: Seq<(Seq<char>, TokenView)>) -> Seq<Seq<char>> {
    Seq::new(properties.len(), |i: int| properties[i].0)
}

/// The tokens of the properties of an object literal, in order.
pub open spec fn literal_tokens(properties: Seq<(Seq<char>, TokenView)>) -> Seq<TokenView> {
    Seq::new(properties.len(), |i: int| properties[i].1)
}

/// What executing `token` does in state `s`. `next` is the token after it in
/// the same block, if there is one.
pub open spec fn apply(s: State, token: TokenView, next: Option<TokenView>) -> Result<Effect, Error> {
    match token {
        TokenView::Number(text) => asked(s, ActionView::Literal(text)),
        TokenView::Add | TokenView::Minus | TokenView::Div | TokenView::Mul | TokenView::Mod => arithmetic(
            s,
            operator_of(token)->0,
        ),
        TokenView::Swap => swap(s),
        TokenView::Rot => rot(s),
        TokenView::Dup => dup(s),
        TokenView::Drop => drop_top(s),
        TokenView::Eq | TokenView::Noteq | TokenView::Bigger | TokenView::Smaller => comparison(
            s,
            token,
        ),
        TokenView::True => moved(pushed(s, truth(true))),
        TokenView::False => moved(pushed(s, truth(false))),
        TokenView::Put => put(s),
        TokenView::Str(text) => moved(pushed(s, Value::Text(text))),
        TokenView::Then => then_block(s, next),
        TokenView::Times => times_block(s, next),
        TokenView::Scope(body) => opened(s, 1, block(body)),
        TokenView::Array(body) => opened(
            fresh_state(),
            1,
            FrameView { tokens: body, pos: 0, kind: KindView::Array(s) },
        ),
        TokenView::Object(properties) => opened(
            fresh_state(),
            1,
            FrameView {
                tokens: literal_tokens(properties),
                pos: 0,
                kind: KindView::Object(literal_names(properties), Seq::empty(), s),
            },
        ),
        TokenView::Get(name) => get(s, name),
        TokenView::Import(body) => opened(s, 1, block(body)),
        TokenView::Let(name) => declare(s, name),
        TokenView::Assign(name) => assign(s, name),
        TokenView::Mempop => mempop(s),
        TokenView::Memusage => memusage(s),
        TokenView::Function(name, parameters) => define(s, name, parameters, next),
        TokenView::Call(name) => call(s, name),
        TokenView::Ident(name) => resolve(s, name),
    }
}

/// A step that fails leaves everything as it was.
pub open spec fn failed(s: State, f: FrameView, e: Error) -> Outcome {
    Outcome { state: s, frames: seq![f], action: ActionView::Fail(e) }
}

/// The token after the next one, where the block is not that of an object
/// literal: there each token stands alone.
pub open spec fn companion(f: FrameView) -> Option<TokenView> {
    if f.kind is Object || f.pos + 1 >= f.tokens.len() {
        None
    } else {
        Some(f.tokens[f.pos as int + 1])
    }
}

/// Executes the next token of a block.
pub open spec fn execute(s: State, f: FrameView) -> Outcome {
    match apply(s, f.tokens[f.pos as int], companion(f)) {
        Err(e) => failed(s, f, e),
        Ok(effect) => {
            let rest = FrameView { pos: f.pos + effect.consumed, ..f };
            Outcome {
                state: effect.state,
                frames: match effect.child {
                    Some(child) => seq![rest, child],
                    None => seq![rest],
                },
                action: effect.action,
            }
        },
    }
}

/// Ends a block that has run through.
pub open spec fn finish(s: State, f: FrameView) -> Outcome {
    match f.kind {
        KindView::Block => Outcome { state: s, frames: Seq::empty(), action: ActionView::Continue },
        KindView::Loop(remaining) => if remaining > 0 {
            Outcome {
                state: s,
                frames: seq![
                    FrameView { pos: 0, kind: KindView::Loop((remaining - 1) as u32), ..f },
                ],
                action: ActionView::Continue,
            }
        } else {
            Outcome { state: s, frames: Seq::empty(), action: ActionView::Continue }
        },
        KindView::Call(scope, locals) => Outcome {
            state: State { mem_scope: scope, locals, ..s },
            frames: Seq::empty(),
            action: ActionView::Continue,
        },
        KindView::Array(outer) => Outcome {
            state: pushed(outer, Value::Array(s.stack)),
            frames: Seq::empty(),
            action: ActionView::Continue,
        },
        KindView::Object(_, built, outer) => Outcome {
            state: pushed(outer, Value::Array(built)),
            frames: Seq::empty(),
            action: ActionView::Continue,
        },
    }
}

/// Whether the token of an object literal that was executed last has not
/// given its value yet.
pub open spec fn owes_value(f: FrameView) -> bool {
    f.kind matches KindView::Object(_, built, _) && built.len() < f.pos
}

/// Builds the next property of an object literal from its name and the top
/// of the stack, and clears the state for the property after it.
pub open spec fn harvest(s: State, f: FrameView) -> Outcome {
    match f.kind {
        KindView::Object(names, built, outer) => if built.len() >= names.len() {
            failed(s, f, Error::MalformedProgram)
        } else if s.stack.len() < 1 {
            failed(s, f, Error::StackUnderflow)
        } else {
            Outcome {
                state: fresh_state(),
                frames: seq![
                    FrameView {
                        kind: KindView::Object(
                            names,
                            built.push(property(names[built.len() as int], top(s, 0))),
                            outer,
                        ),
                        ..f
                    },
                ],
                action: ActionView::Continue,
            }
        },
        _ => failed(s, f, Error::MalformedProgram),
    }
}

/// What one step does to the innermost block.
pub open spec fn step_frame(s: State, f: FrameView) -> Outcome {
    if owes_value(f) {
        harvest(s, f)
    } else if f.pos >= f.tokens.len() {
        finish(s, f)
    } else {
        execute(s, f)
    }
}

/// One step of the machine: the innermost block moves on by one token, or
/// ends. The blocks around it are not looked at.
pub open spec fn step(m: MachineView) -> (MachineView, ActionView) {
    if m.frames.len() == 0 {
        (m, ActionView::Done)
    } else {
        let outcome = step_frame(m.state, m.frames.last());
        (
            MachineView { state: outcome.state, frames: m.frames.drop_last() + outcome.frames },
            outcome.action,
        )
    }
}

/// Steps until the host is needed, nothing is left, or `limit` steps were
/// taken.
pub open spec fn run(m: MachineView, limit: nat) -> (MachineView, ActionView)
    decreases limit,
{
    if limit == 0 {
        (m, ActionView::Paused)
    } else {
        let (next, action) = step(m);
        if action is Continue {
            run(next, (limit - 1) as nat)
        } else {
            (next, action)
        }
    }
}

/// Schedules `tokens` for evaluation, before everything that is pending.
pub open spec fn load(m: MachineView, tokens: Seq<TokenView>) -> MachineView {
    MachineView { frames: m.frames.push(block(tokens)), ..m }
}

/// The outermost state that a pending array or object literal has set aside,
/// if there is one, looking from frame `from` upward.
pub open spec fn set_aside(frames: Seq<FrameView>, from: int) -> Option<State>
    decreases frames.len() - from,
{
    if from < 0 || from >= frames.len() {
        None
    } else {
        match frames[from].kind {
            KindView::Array(outer) => Some(outer),
            KindView::Object(_, _, outer) => Some(outer),
            _ => set_aside(frames, from + 1),
        }
    }
}

/// Gives up everything that is pending: the state is that around the
/// outermost pending literal, if there is one, and the global bindings are
/// the active ones again.
pub open spec fn abandon(m: MachineView) -> MachineView {
    let base = match set_aside(m.frames, 0) {
        Some(outer) => outer,
        None => m.state,
    };
    MachineView {
        state: State { mem_scope: MemoryScope::Global, locals: Seq::empty(), ..base },
        frames: Seq::empty(),
    }
}

} // verus!
