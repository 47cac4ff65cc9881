//! What each token does to the state.

use crate::context::{lemma_pop_more, lemma_same_state, lemma_values_drop_last, lemma_values_push, Context};
use crate::error::Error;
use crate::frame::{child_of, next_of, Action, Frame, FrameKind};
use crate::machine;
use crate::machine::{Effect, MemoryScope, Operator, State};
use crate::number::{from_count, to_count, to_index, Relation, ONE, ZERO};
use crate::text::same_text;
use crate::token::{
    copy_tokens, lemma_properties_of, lemma_tokens_of, names_of, properties_of, tokens_of, Token,
};
use crate::types::{
    bindings_of, find_binding, find_function, find_macro, first_named, functions_of, Function, Let,
};
use crate::value::{lemma_values_of, rank, values_of, StackType, Value};
use vstd::prelude::*;

verus! {

/// What executing one token did, beside changing the state: how many tokens
/// of the block it took, the block it opened, and what the host has to do.
#[derive(Debug)]
pub struct Applied {
    pub consumed: usize,
    pub child: Option<Frame>,
    pub action: Action,
}

/// Whether what was done is what `expected` says: on success the new state
/// and the rest, on failure the error and an unchanged state.
pub open spec fn agrees(
    r: Result<Applied, Error>,
    before: State,
    after: State,
    expected: Result<Effect, Error>,
) -> bool {
    match r {
        Ok(a) => expected == Ok::<Effect, Error>(
            Effect {
                state: after,
                consumed: a.consumed as nat,
                child: child_of(a.child),
                action: a.action@,
            },
        ),
        Err(e) => expected == Err::<Effect, Error>(e) && after == before,
    }
}

fn moved() -> (r: Applied)
    ensures
        r.consumed == 1,
        r.child is None,
        r.action@ == machine::ActionView::Continue,
{
    Applied { consumed: 1, child: None, action: Action::Continue }
}

fn asked(action: Action) -> (r: Applied)
    ensures
        r.consumed == 1,
        r.child is None,
        r.action == action,
{
    Applied { consumed: 1, child: None, action }
}

fn block(body: &Vec<Token>) -> (r: Frame)
    ensures
        r@ == machine::block(tokens_of(body@)),
{
    Frame { tokens: copy_tokens(body), pos: 0, kind: FrameKind::Block }
}

fn rank_of(v: &StackType) -> (r: u8)
    ensures
        r == rank(v@),
{
    match v {
        StackType::Float(_) => 0,
        StackType::String(_) => 1,
        StackType::Array(_) => 2,
    }
}

fn arithmetic(ctx: &mut Context, op: Operator) -> (r: Result<Applied, Error>)
    ensures
        agrees(r, old(ctx)@, final(ctx)@, machine::arithmetic(old(ctx)@, op)),
{
    if ctx.depth() < 2 {
        return Err(Error::StackUnderflow);
    }
    let left: u64 = match ctx.peek(0) {
        StackType::Float(bits) => *bits,
        _ => {
            return Err(Error::TypeMismatch);
        },
    };
    let right: u64 = match ctx.peek(1) {
        StackType::Float(bits) => *bits,
        _ => {
            return Err(Error::TypeMismatch);
        },
    };
    let _ = ctx.pop();
    let _ = ctx.pop();
    proof {
        lemma_pop_more(old(ctx)@, 1);
    }
    Ok(asked(Action::Arith(op, left, right)))
}

fn comparison(ctx: &mut Context, token: &Token) -> (r: Result<Applied, Error>)
    requires
        token is Eq || token is Noteq || token is Bigger || token is Smaller,
    ensures
        agrees(r, old(ctx)@, final(ctx)@, machine::comparison(old(ctx)@, token@)),
{
    if ctx.depth() < 2 {
        return Err(Error::StackUnderflow);
    }
    if rank_of(ctx.peek(0)) != rank_of(ctx.peek(1)) {
        return Err(Error::TypeMismatch);
    }
    let relation = ctx.peek(0).compare(ctx.peek(1));
    let answer = match token {
        Token::Eq => relation == Relation::Equal,
        Token::Noteq => relation != Relation::Equal,
        Token::Bigger => relation == Relation::Less,
        _ => relation == Relation::Greater,
    };
    let _ = ctx.pop();
    let _ = ctx.pop();
    ctx.push(
        StackType::Float(
            if answer {
                ONE
            } else {
                ZERO
            },
        ),
    );
    proof {
        lemma_pop_more(old(ctx)@, 1);
    }
    Ok(moved())
}

fn swap(ctx: &mut Context) -> (r: Result<Applied, Error>)
    ensures
        agrees(r, old(ctx)@, final(ctx)@, machine::swap(old(ctx)@)),
{
    if ctx.depth() < 2 {
        return Err(Error::StackUnderflow);
    }
    let first = ctx.pop();
    let second = ctx.pop();
    ctx.push(first);
    ctx.push(second);
    proof {
        lemma_pop_more(old(ctx)@, 1);
    }
    Ok(moved())
}

fn rot(ctx: &mut Context) -> (r: Result<Applied, Error>)
    ensures
        agrees(r, old(ctx)@, final(ctx)@, machine::rot(old(ctx)@)),
{
    if ctx.depth() < 3 {
        return Err(Error::StackUnderflow);
    }
    let first = ctx.pop();
    let second = ctx.pop();
    let third = ctx.pop();
    ctx.push(first);
    ctx.push(second);
    ctx.push(third);
    proof {
        lemma_pop_more(old(ctx)@, 1);
        lemma_pop_more(old(ctx)@, 2);
    }
    Ok(moved())
}

fn dup(ctx: &mut Context) -> (r: Result<Applied, Error>)
    ensures
        agrees(r, old(ctx)@, final(ctx)@, machine::dup(old(ctx)@)),
{
    if ctx.depth() < 1 {
        return Err(Error::StackUnderflow);
    }
    let again = ctx.peek(0).copy();
    ctx.push(again);
    Ok(moved())
}

fn drop_top(ctx: &mut Context) -> (r: Result<Applied, Error>)
    ensures
        agrees(r, old(ctx)@, final(ctx)@, machine::drop_top(old(ctx)@)),
{
    if ctx.depth() < 1 {
        return Err(Error::StackUnderflow);
    }
    let _ = ctx.pop();
    Ok(moved())
}

fn put(ctx: &mut Context) -> (r: Result<Applied, Error>)
    ensures
        agrees(r, old(ctx)@, final(ctx)@, machine::put(old(ctx)@)),
{
    if ctx.depth() < 1 {
        return Err(Error::StackUnderflow);
    }
    let value = ctx.pop();
    Ok(asked(Action::Print(value)))
}

fn then_block(ctx: &mut Context, next: Option<&Token>) -> (r: Result<Applied, Error>)
    ensures
        agrees(r, old(ctx)@, final(ctx)@, machine::then_block(old(ctx)@, next_of(next))),
        r matches Ok(a) ==> a.consumed == 2 && next is Some,
{
    if ctx.depth() < 1 {
        return Err(Error::StackUnderflow);
    }
    match next {
        Some(Token::Scope(body)) => {
            let yes = match ctx.peek(0) {
                StackType::Float(bits) => *bits == ONE,
                _ => false,
            };
            let _ = ctx.pop();
            if yes {
                Ok(Applied { consumed: 2, child: Some(block(body)), action: Action::Continue })
            } else {
                Ok(Applied { consumed: 2, child: None, action: Action::Continue })
            }
        },
        _ => Err(Error::MalformedProgram),
    }
}

fn times_block(ctx: &mut Context, next: Option<&Token>) -> (r: Result<Applied, Error>)
    ensures
        agrees(r, old(ctx)@, final(ctx)@, machine::times_block(old(ctx)@, next_of(next))),
        r matches Ok(a) ==> a.consumed == 2 && next is Some,
{
    if ctx.depth() < 1 {
        return Err(Error::StackUnderflow);
    }
    let count: u32 = match ctx.peek(0) {
        StackType::Float(bits) => to_count(*bits),
        _ => {
            return Err(Error::TypeMismatch);
        },
    };
    match next {
        Some(Token::Scope(body)) => {
            let _ = ctx.pop();
            if count > 0 {
                let child = Frame {
                    tokens: copy_tokens(body),
                    pos: 0,
                    kind: FrameKind::Loop(count - 1),
                };
                Ok(Applied { consumed: 2, child: Some(child), action: Action::Continue })
            } else {
                Ok(Applied { consumed: 2, child: None, action: Action::Continue })
            }
        },
        _ => Err(Error::MalformedProgram),
    }
}

fn declare(ctx: &mut Context, name: &String) -> (r: Result<Applied, Error>)
    ensures
        agrees(r, old(ctx)@, final(ctx)@, machine::declare(old(ctx)@, name@)),
{
    if ctx.depth() < 1 {
        return Err(Error::StackUnderflow);
    }
    let value = ctx.pop();
    ctx.bind(Let { name: name.clone(), value });
    Ok(moved())
}

fn assign(ctx: &mut Context, name: &String) -> (r: Result<Applied, Error>)
    ensures
        agrees(r, old(ctx)@, final(ctx)@, machine::assign(old(ctx)@, name@)),
{
    match find_binding(ctx.active(), name) {
        None => Err(Error::UndefinedBinding),
        Some(i) => {
            if ctx.depth() < 1 {
                return Err(Error::StackUnderflow);
            }
            let kept = ctx.active()[i].name.clone();
            let value = ctx.pop();
            ctx.rebind(i, Let { name: kept, value });
            Ok(moved())
        },
    }
}

fn mempop(ctx: &mut Context) -> (r: Result<Applied, Error>)
    ensures
        agrees(r, old(ctx)@, final(ctx)@, machine::mempop(old(ctx)@)),
{
    match ctx.memory.pop() {
        Some(binding) => {
            proof {
                assert(bindings_of(ctx.memory@) =~= bindings_of(old(ctx).memory@).drop_last());
                lemma_same_state(
                    ctx@,
                    State { memory: old(ctx)@.memory.drop_last(), ..old(ctx)@ },
                );
            }
            ctx.push(binding.value);
            Ok(moved())
        },
        None => {
            ctx.push(StackType::Float(ZERO));
            Ok(moved())
        },
    }
}

fn memusage(ctx: &mut Context) -> (r: Result<Applied, Error>)
    ensures
        agrees(r, old(ctx)@, final(ctx)@, machine::memusage(old(ctx)@)),
{
    let count: u64 = ctx.memory.len() as u64;
    ctx.push(StackType::Float(from_count(count)));
    Ok(moved())
}

fn placeholders(parameters: &Vec<String>) -> (r: Vec<Let>)
    ensures
        bindings_of(r@) == machine::placeholders(names_of(parameters@)),
{
    let mut out: Vec<Let> = Vec::new();
    let mut i: usize = 0;
    while i < parameters.len()
        invariant
            i <= parameters.len(),
            out.len() == i,
            forall|j: int|
                0 <= j < i ==> out[j]@ == (crate::types::Binding {
                    name: parameters[j]@,
                    value: Value::Float(ZERO),
                }),
        decreases parameters.len() - i,
    {
        out.push(Let { name: parameters[i].clone(), value: StackType::Float(ZERO) });
        i += 1;
    }
    assert(bindings_of(out@) =~= machine::placeholders(names_of(parameters@)));
    out
}

fn define(ctx: &mut Context, name: &String, parameters: &Vec<String>, next: Option<&Token>) -> (r:
    Result<Applied, Error>)
    ensures
        agrees(
            r,
            old(ctx)@,
            final(ctx)@,
            machine::define(old(ctx)@, name@, names_of(parameters@), next_of(next)),
        ),
        r matches Ok(a) ==> a.consumed == 2 && next is Some,
{
    match next {
        Some(Token::Scope(body)) => {
            let mut function = Function::new(name.clone(), placeholders(parameters));
            function.set_scope(copy_tokens(body));
            proof {
                assert(functions_of(ctx.functions@.push(function)) =~= functions_of(
                    ctx.functions@,
                ).push(function@));
            }
            ctx.functions.push(function);
            Ok(Applied { consumed: 2, child: None, action: Action::Continue })
        },
        _ => Err(Error::MalformedProgram),
    }
}

fn call(ctx: &mut Context, name: &String) -> (r: Result<Applied, Error>)
    ensures
        agrees(r, old(ctx)@, final(ctx)@, machine::call(old(ctx)@, name@)),
{
    match find_function(&ctx.functions, name) {
        None => Err(Error::UnresolvedIdentifier),
        Some(i) => {
            let n: usize = ctx.functions[i].args.len();
            if ctx.depth() < n {
                return Err(Error::StackUnderflow);
            }
            let ghost parameters = old(ctx)@.functions[i as int].args;
            proof {
                lemma_same_state(ctx@, machine::popped(old(ctx)@, 0));
            }
            let mut locals: Vec<Let> = Vec::new();
            let mut k: usize = 0;
            while k < n
                invariant
                    k <= n,
                    n <= old(ctx)@.stack.len(),
                    i < ctx.functions.len(),
                    n == ctx.functions[i as int].args.len(),
                    ctx.functions == old(ctx).functions,
                    parameters == bindings_of(ctx.functions[i as int].args@),
                    ctx@ == machine::popped(old(ctx)@, k as int),
                    locals.len() == k,
                    forall|j: int|
                        0 <= j < k ==> locals[j]@ == (crate::types::Binding {
                            name: parameters[j].name,
                            value: machine::top(old(ctx)@, j),
                        }),
                decreases n - k,
            {
                proof {
                    lemma_pop_more(old(ctx)@, k as int);
                }
                let value = ctx.pop();
                let parameter = ctx.functions[i].args[k].name.clone();
                locals.push(Let { name: parameter, value });
                k += 1;
            }
            let body = copy_tokens(&ctx.functions[i].scope);
            proof {
                assert(bindings_of(locals@) =~= machine::arguments(old(ctx)@, parameters));
            }
            std::mem::swap(&mut ctx.locals, &mut locals);
            let scope = ctx.mem_scope;
            ctx.mem_scope = MemoryScope::Function;
            let child = Frame { tokens: body, pos: 0, kind: FrameKind::Call(scope, locals) };
            proof {
                lemma_same_state(
                    ctx@,
                    State {
                        mem_scope: MemoryScope::Function,
                        locals: machine::arguments(old(ctx)@, parameters),
                        ..machine::popped(old(ctx)@, n as int)
                    },
                );
            }
            Ok(Applied { consumed: 1, child: Some(child), action: Action::Continue })
        },
    }
}

/// Whether `v` is a property: an array of a name and a value.
fn is_property(v: &StackType) -> (r: bool)
    ensures
        r == machine::is_property(v@),
{
    match v {
        StackType::Array(pair) => {
            proof {
                lemma_values_of(pair@);
            }
            if pair.len() != 2 {
                return false;
            }
            match &pair[0] {
                StackType::String(_) => true,
                _ => false,
            }
        },
        _ => false,
    }
}

/// The position of the first property of the object `v` that is named
/// `name`.
fn find_property(v: &StackType, name: &String) -> (r: Result<usize, Error>)
    ensures
        match r {
            Ok(i) => machine::is_object(v@) && first_named(
                machine::property_names(v@->Array_0),
                name@,
                0,
            ) == Some(i as int) && i < v@->Array_0.len(),
            Err(e) => if machine::is_object(v@) {
                e == Error::UndefinedBinding && first_named(
                    machine::property_names(v@->Array_0),
                    name@,
                    0,
                ) is None
            } else {
                e == Error::TypeMismatch
            },
        },
{
    match v {
        StackType::Array(items) => {
            proof {
                lemma_values_of(items@);
            }
            let ghost values = values_of(items@);
            assert(v@ == Value::Array(values));
            let mut i: usize = 0;
            while i < items.len()
                invariant
                    i <= items.len(),
                    v@ == Value::Array(values),
                    values == values_of(items@),
                    values.len() == items.len(),
                    forall|j: int| 0 <= j < items.len() ==> (#[trigger] values[j]) == items[j]@,
                    forall|j: int| 0 <= j < i ==> machine::is_property(#[trigger] values[j]),
                decreases items.len() - i,
            {
                if !is_property(&items[i]) {
                    assert(!machine::is_property(values[i as int]));
                    return Err(Error::TypeMismatch);
                }
                i += 1;
            }
            let ghost names = machine::property_names(values);
            assert(machine::is_object(v@));
            let mut k: usize = 0;
            while k < items.len()
                invariant
                    k <= items.len(),
                    v@ == Value::Array(values),
                    values == values_of(items@),
                    values.len() == items.len(),
                    names == machine::property_names(values),
                    forall|j: int| 0 <= j < items.len() ==> (#[trigger] values[j]) == items[j]@,
                    forall|j: int| 0 <= j < items.len() ==> machine::is_property(#[trigger] values[j]),
                    first_named(names, name@, 0) == first_named(names, name@, k as int),
                decreases items.len() - k,
            {
                assert(machine::is_property(values[k as int]));
                match &items[k] {
                    StackType::Array(pair) => {
                        proof {
                            lemma_values_of(pair@);
                        }
                        match &pair[0] {
                            StackType::String(text) => {
                                assert(values[k as int]->Array_0[0] == pair[0]@);
                                assert(names[k as int] == text@);
                                if *text == *name {
                                    return Ok(k);
                                }
                            },
                            _ => {},
                        }
                    },
                    _ => {},
                }
                k += 1;
            }
            Err(Error::UndefinedBinding)
        },
        _ => Err(Error::TypeMismatch),
    }
}

/// A copy of the value of the property at `i` of the object `v`.
fn property_value(v: &StackType, i: usize) -> (r: StackType)
    requires
        machine::is_object(v@),
        i < v@->Array_0.len(),
    ensures
        r@ == v@->Array_0[i as int]->Array_0[1],
{
    match v {
        StackType::Array(items) => {
            proof {
                lemma_values_of(items@);
            }
            assert(machine::is_property(values_of(items@)[i as int]));
            match &items[i] {
                StackType::Array(pair) => {
                    proof {
                        lemma_values_of(pair@);
                    }
                    pair[1].copy()
                },
                _ => StackType::Float(ZERO),
            }
        },
        _ => StackType::Float(ZERO),
    }
}

fn get(ctx: &mut Context, name: &String) -> (r: Result<Applied, Error>)
    ensures
        agrees(r, old(ctx)@, final(ctx)@, machine::get(old(ctx)@, name@)),
{
    if ctx.depth() < 1 {
        return Err(Error::StackUnderflow);
    }
    match find_property(ctx.peek(0), name) {
        Err(e) => Err(e),
        Ok(i) => {
            let value = property_value(ctx.peek(0), i);
            let _ = ctx.pop();
            ctx.push(value);
            Ok(moved())
        },
    }
}

fn read_file(ctx: &mut Context) -> (r: Result<Applied, Error>)
    ensures
        agrees(r, old(ctx)@, final(ctx)@, machine::read_file(old(ctx)@)),
{
    if ctx.depth() < 1 {
        return Err(Error::StackUnderflow);
    }
    match ctx.peek(0) {
        StackType::String(_) => {},
        _ => {
            return Err(Error::TypeMismatch);
        },
    }
    match ctx.pop() {
        StackType::String(path) => Ok(asked(Action::ReadFile(path))),
        _ => Err(Error::TypeMismatch),
    }
}

fn create_file(ctx: &mut Context) -> (r: Result<Applied, Error>)
    ensures
        agrees(r, old(ctx)@, final(ctx)@, machine::create_file(old(ctx)@)),
{
    if ctx.depth() < 2 {
        return Err(Error::StackUnderflow);
    }
    match (ctx.peek(0), ctx.peek(1)) {
        (StackType::String(_), StackType::String(_)) => {},
        _ => {
            return Err(Error::TypeMismatch);
        },
    }
    let content = ctx.pop();
    let path = ctx.pop();
    proof {
        lemma_pop_more(old(ctx)@, 1);
    }
    match (path, content) {
        (StackType::String(path), StackType::String(content)) => Ok(
            asked(Action::WriteFile(path, content)),
        ),
        _ => Err(Error::TypeMismatch),
    }
}

fn length(ctx: &mut Context) -> (r: Result<Applied, Error>)
    ensures
        agrees(r, old(ctx)@, final(ctx)@, machine::length(old(ctx)@)),
{
    if ctx.depth() < 1 {
        return Err(Error::StackUnderflow);
    }
    let value = ctx.pop();
    ctx.push(StackType::Float(from_count(value.get_size())));
    Ok(moved())
}

fn array_nth(ctx: &mut Context) -> (r: Result<Applied, Error>)
    ensures
        agrees(r, old(ctx)@, final(ctx)@, machine::array_nth(old(ctx)@)),
{
    if ctx.depth() < 2 {
        return Err(Error::StackUnderflow);
    }
    let index: u64 = match ctx.peek(0) {
        StackType::Float(bits) => to_index(*bits),
        _ => {
            return Err(Error::TypeMismatch);
        },
    };
    let element = match ctx.peek(1) {
        StackType::Array(items) => {
            proof {
                lemma_values_of(items@);
            }
            if index >= items.len() as u64 {
                return Err(Error::OutOfRange);
            }
            items[index as usize].copy()
        },
        _ => {
            return Err(Error::TypeMismatch);
        },
    };
    let _ = ctx.pop();
    let _ = ctx.pop();
    ctx.push(element);
    proof {
        lemma_pop_more(old(ctx)@, 1);
    }
    Ok(moved())
}

fn array_pop(ctx: &mut Context) -> (r: Result<Applied, Error>)
    ensures
        agrees(r, old(ctx)@, final(ctx)@, machine::array_pop(old(ctx)@)),
{
    if ctx.depth() < 1 {
        return Err(Error::StackUnderflow);
    }
    match ctx.peek(0) {
        StackType::Array(items) => {
            proof {
                lemma_values_of(items@);
            }
            if items.len() == 0 {
                return Err(Error::OutOfRange);
            }
        },
        _ => {
            return Err(Error::TypeMismatch);
        },
    }
    match ctx.pop() {
        StackType::Array(mut items) => {
            proof {
                lemma_values_of(items@);
                lemma_values_drop_last(items@);
            }
            let last = items.pop().unwrap();
            ctx.push(last);
            ctx.push(StackType::Array(items));
            Ok(moved())
        },
        _ => Err(Error::TypeMismatch),
    }
}

fn array_push(ctx: &mut Context) -> (r: Result<Applied, Error>)
    ensures
        agrees(r, old(ctx)@, final(ctx)@, machine::array_push(old(ctx)@)),
{
    if ctx.depth() < 2 {
        return Err(Error::StackUnderflow);
    }
    match ctx.peek(1) {
        StackType::Array(_) => {},
        _ => {
            return Err(Error::TypeMismatch);
        },
    }
    let value = ctx.pop();
    proof {
        lemma_pop_more(old(ctx)@, 1);
    }
    match ctx.pop() {
        StackType::Array(mut items) => {
            proof {
                lemma_values_push(items@, value);
            }
            items.push(value);
            ctx.push(StackType::Array(items));
            Ok(moved())
        },
        _ => Err(Error::TypeMismatch),
    }
}

fn primitive(ctx: &mut Context, name: &String) -> (r: Result<Applied, Error>)
    ensures
        agrees(r, old(ctx)@, final(ctx)@, machine::primitive(old(ctx)@, name@)),
        r matches Ok(a) ==> a.consumed == 1,
{
    if same_text(name.as_str(), "fs::readFile") {
        read_file(ctx)
    } else if same_text(name.as_str(), "fs::createFile") {
        create_file(ctx)
    } else if same_text(name.as_str(), "length") {
        length(ctx)
    } else if same_text(name.as_str(), "array::nth") {
        array_nth(ctx)
    } else if same_text(name.as_str(), "array::pop") {
        array_pop(ctx)
    } else if same_text(name.as_str(), "array::push") {
        array_push(ctx)
    } else {
        Err(Error::UnresolvedIdentifier)
    }
}

fn resolve(ctx: &mut Context, name: &String) -> (r: Result<Applied, Error>)
    ensures
        agrees(r, old(ctx)@, final(ctx)@, machine::resolve(old(ctx)@, name@)),
        r matches Ok(a) ==> a.consumed == 1,
{
    match find_binding(ctx.active(), name) {
        Some(i) => {
            let value = ctx.active()[i].value.copy();
            ctx.push(value);
            Ok(moved())
        },
        None => match find_macro(&ctx.macros, name) {
            Some(i) => {
                let child = block(&ctx.macros[i].body);
                Ok(Applied { consumed: 1, child: Some(child), action: Action::Continue })
            },
            None => primitive(ctx, name),
        },
    }
}

/// Sets the state aside and starts from a fresh one.
fn set_aside(ctx: &mut Context) -> (outer: Context)
    ensures
        outer@ == old(ctx)@,
        final(ctx)@ == machine::fresh_state(),
{
    let mut outer = Context::new();
    std::mem::swap(ctx, &mut outer);
    outer
}

fn array_literal(ctx: &mut Context, body: &Vec<Token>) -> (r: Result<Applied, Error>)
    ensures
        agrees(
            r,
            old(ctx)@,
            final(ctx)@,
            machine::apply(old(ctx)@, crate::token::TokenView::Array(tokens_of(body@)), None),
        ),
        r matches Ok(a) ==> a.consumed == 1,
{
    let tokens = copy_tokens(body);
    let outer = set_aside(ctx);
    let child = Frame { tokens, pos: 0, kind: FrameKind::Array(outer) };
    Ok(Applied { consumed: 1, child: Some(child), action: Action::Continue })
}

fn object_literal(ctx: &mut Context, properties: &Vec<(String, Token)>) -> (r: Result<
    Applied,
    Error,
>)
    ensures
        agrees(
            r,
            old(ctx)@,
            final(ctx)@,
            machine::apply(
                old(ctx)@,
                crate::token::TokenView::Object(properties_of(properties@)),
                None,
            ),
        ),
        r matches Ok(a) ==> a.consumed == 1,
{
    let mut names: Vec<String> = Vec::new();
    let mut tokens: Vec<Token> = Vec::new();
    let mut i: usize = 0;
    while i < properties.len()
        invariant
            i <= properties.len(),
            names.len() == i,
            tokens.len() == i,
            forall|j: int| 0 <= j < i ==> names[j]@ == properties[j].0@,
            forall|j: int| 0 <= j < i ==> tokens[j]@ == properties[j].1@,
        decreases properties.len() - i,
    {
        names.push(properties[i].0.clone());
        tokens.push(properties[i].1.copy());
        i += 1;
    }
    proof {
        lemma_properties_of(properties@);
        lemma_tokens_of(tokens@);
        assert(names_of(names@) =~= machine::literal_names(properties_of(properties@)));
        assert(tokens_of(tokens@) =~= machine::literal_tokens(properties_of(properties@)));
    }
    let outer = set_aside(ctx);
    let child = Frame { tokens, pos: 0, kind: FrameKind::Object(names, Vec::new(), outer) };
    Ok(Applied { consumed: 1, child: Some(child), action: Action::Continue })
}

/// Executes `token` on `ctx`. `next` is the token after it in the same
/// block, if there is one.
pub fn apply(ctx: &mut Context, token: &Token, next: Option<&Token>) -> (r: Result<Applied, Error>)
    ensures
        agrees(r, old(ctx)@, final(ctx)@, machine::apply(old(ctx)@, token@, next_of(next))),
        r matches Ok(a) ==> a.consumed == 1 || (a.consumed == 2 && next is Some),
{
    match token {
        Token::Number(text) => Ok(asked(Action::Literal(text.clone()))),
        Token::Add => arithmetic(ctx, Operator::Add),
        Token::Minus => arithmetic(ctx, Operator::Minus),
        Token::Div => arithmetic(ctx, Operator::Div),
        Token::Mul => arithmetic(ctx, Operator::Mul),
        Token::Mod => arithmetic(ctx, Operator::Mod),
        Token::Swap => swap(ctx),
        Token::Rot => rot(ctx),
        Token::Dup => dup(ctx),
        Token::Drop => drop_top(ctx),
        Token::Eq | Token::Noteq | Token::Bigger | Token::Smaller => comparison(ctx, token),
        Token::True => {
            ctx.push(StackType::Float(ONE));
            Ok(moved())
        },
        Token::False => {
            ctx.push(StackType::Float(ZERO));
            Ok(moved())
        },
        Token::Put => put(ctx),
        Token::Str(text) => {
            ctx.push(StackType::String(text.clone()));
            Ok(moved())
        },
        Token::Then => then_block(ctx, next),
        Token::Times => times_block(ctx, next),
        Token::Scope(body) => Ok(
            Applied { consumed: 1, child: Some(block(body)), action: Action::Continue },
        ),
        Token::Array(body) => array_literal(ctx, body),
        Token::Object(properties) => object_literal(ctx, properties),
        Token::Get(name) => get(ctx, name),
        Token::Import(body) => Ok(
            Applied { consumed: 1, child: Some(block(body)), action: Action::Continue },
        ),
        Token::Let(name) => declare(ctx, name),
        Token::Assign(name) => assign(ctx, name),
        Token::Mempop => mempop(ctx),
        Token::Memusage => memusage(ctx),
        Token::Function(name, parameters) => define(ctx, name, parameters, next),
        Token::Call(name) => call(ctx, name),
        Token::Ident(name) => resolve(ctx, name),
    }
}

} // verus!
