//! What a program declares: bindings, functions and macros, and how a name
//! finds one of them.

use crate::token::{tokens_of, Token, TokenView};
use crate::value::{StackType, Value};
use vstd::prelude::*;

verus! {

/// What a [`Let`] stands for.
pub struct Binding {
    pub name: Seq<char>,
    pub value: Value,
}

/// A binding: a name and the value it holds.
#[derive(Debug)]
pub struct Let {
    pub name: String,
    pub value: StackType,
}

impl View for Let {
    type V = Binding;

    open spec fn view(&self) -> Binding {
        Binding { name: self.name@, value: self.value@ }
    }
}

/// What a sequence of bindings stands for, one for one.
pub open spec fn bindings_of(bindings: Seq<Let>) -> Seq<Binding> {
    Seq::new(bindings.len(), |i: int| bindings[i]@)
}

/// What a [`Function`] stands for.
pub struct FunctionView {
    pub name: Seq<char>,
    pub args: Seq<Binding>,
    pub scope: Seq<TokenView>,
}

/// A user function: its name, its parameters as bindings that hold a
/// placeholder until a call fills them, and its body.
#[derive(Debug)]
pub struct Function {
    pub name: String,
    pub args: Vec<Let>,
    pub scope: Vec<Token>,
}

impl View for Function {
    type V = FunctionView;

    open spec fn view(&self) -> FunctionView {
        FunctionView {
            name: self.name@,
            args: bindings_of(self.args@),
            scope: tokens_of(self.scope@),
        }
    }
}

/// What a sequence of functions stands for, one for one.
pub open spec fn functions_of(functions: Seq<Function>) -> Seq<FunctionView> {
    Seq::new(functions.len(), |i: int| functions[i]@)
}

impl Function {
    /// A function with the given name and parameters and an empty body.
    pub fn new(name: String, args: Vec<Let>) -> (r: Self)
        ensures
            r@ == (FunctionView { name: name@, args: bindings_of(args@), scope: Seq::empty() }),
    {
        Self { name, args, scope: Vec::new() }
    }

    /// Replaces the body.
    pub fn set_scope(&mut self, tokens: Vec<Token>)
        ensures
            final(self)@ == (FunctionView { scope: tokens_of(tokens@), ..old(self)@ }),
    {
        self.scope = tokens;
    }
}

/// What a [`Macro`] stands for.
pub struct MacroView {
    pub name: Seq<char>,
    pub body: Seq<TokenView>,
}

/// A macro: a name for a token sequence that is evaluated in place, on the
/// stack and the bindings of whoever refers to it.
#[derive(Debug)]
pub struct Macro {
    pub name: String,
    pub body: Vec<Token>,
}

impl View for Macro {
    type V = MacroView;

    open spec fn view(&self) -> MacroView {
        MacroView { name: self.name@, body: tokens_of(self.body@) }
    }
}

/// What a sequence of macros stands for, one for one.
pub open spec fn macros_of(macros: Seq<Macro>) -> Seq<MacroView> {
    Seq::new(macros.len(), |i: int| macros[i]@)
}

/// The first position at or after `from` whose name is `name`.
pub open spec fn first_named(names: Seq<Seq<char>>, name: Seq<char>, from: int) -> Option<int>
    decreases names.len() - from,
{
    if from < 0 || from >= names.len() {
        None
    } else if names[from] == name {
        Some(from)
    } else {
        first_named(names, name, from + 1)
    }
}

/// The names of a sequence of bindings, in order.
pub open spec fn binding_names(bindings: Seq<Binding>) -> Seq<Seq<char>> {
    Seq::new(bindings.len(), |i: int| bindings[i].name)
}

/// The names of a sequence of functions, in order.
pub open spec fn function_names(functions: Seq<FunctionView>) -> Seq<Seq<char>> {
    Seq::new(functions.len(), |i: int| functions[i].name)
}

/// The names of a sequence of macros, in order.
pub open spec fn macro_names(macros: Seq<MacroView>) -> Seq<Seq<char>> {
    Seq::new(macros.len(), |i: int| macros[i].name)
}

/// The position of the first binding named `name`.
pub fn find_binding(bindings: &Vec<Let>, name: &String) -> (r: Option<usize>)
    ensures
        r matches Some(i) ==> i < bindings.len(),
        match r {
            Some(i) => first_named(binding_names(bindings_of(bindings@)), name@, 0) == Some(
                i as int,
            ),
            None => first_named(binding_names(bindings_of(bindings@)), name@, 0) is None,
        },
{
    let ghost names = binding_names(bindings_of(bindings@));
    let mut i: usize = 0;
    while i < bindings.len()
        invariant
            i <= bindings.len(),
            names == binding_names(bindings_of(bindings@)),
            first_named(names, name@, 0) == first_named(names, name@, i as int),
        decreases bindings.len() - i,
    {
        if bindings[i].name == *name {
            return Some(i);
        }
        i += 1;
    }
    None
}

/// The position of the first function named `name`.
pub fn find_function(functions: &Vec<Function>, name: &String) -> (r: Option<usize>)
    ensures
        r matches Some(i) ==> i < functions.len(),
        match r {
            Some(i) => first_named(function_names(functions_of(functions@)), name@, 0) == Some(
                i as int,
            ),
            None => first_named(function_names(functions_of(functions@)), name@, 0) is None,
        },
{
    let ghost names = function_names(functions_of(functions@));
    let mut i: usize = 0;
    while i < functions.len()
        invariant
            i <= functions.len(),
            names == function_names(functions_of(functions@)),
            first_named(names, name@, 0) == first_named(names, name@, i as int),
        decreases functions.len() - i,
    {
        if functions[i].name == *name {
            return Some(i);
        }
        i += 1;
    }
    None
}

/// The position of the first macro named `name`.
pub fn find_macro(macros: &Vec<Macro>, name: &String) -> (r: Option<usize>)
    ensures
        r matches Some(i) ==> i < macros.len(),
        match r {
            Some(i) => first_named(macro_names(macros_of(macros@)), name@, 0) == Some(i as int),
            None => first_named(macro_names(macros_of(macros@)), name@, 0) is None,
        },
{
    let ghost names = macro_names(macros_of(macros@));
    let mut i: usize = 0;
    while i < macros.len()
        invariant
            i <= macros.len(),
            names == macro_names(macros_of(macros@)),
            first_named(names, name@, 0) == first_named(names, name@, i as int),
        decreases macros.len() - i,
    {
        if macros[i].name == *name {
            return Some(i);
        }
        i += 1;
    }
    None
}

} // verus!
