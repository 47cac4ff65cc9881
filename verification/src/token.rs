//! Tokens: what lexing gives and evaluation walks.

use vstd::prelude::*;

verus! {

/// What a [`Token`] stands for: names and texts by their characters, nested
/// bodies by the tokens they hold.
pub enum TokenView {
    Number(Seq<char>),
    Add,
    Minus,
    Div,
    Mul,
    Mod,
    Swap,
    Rot,
    Dup,
    Drop,
    Eq,
    Noteq,
    Bigger,
    Smaller,
    True,
    False,
    Put,
    Str(Seq<char>),
    Then,
    Times,
    Scope(Seq<TokenView>),
    Array(Seq<TokenView>),
    Object(Seq<(Seq<char>, TokenView)>),
    Get(Seq<char>),
    Import(Seq<TokenView>),
    Let(Seq<char>),
    Assign(Seq<char>),
    Mempop,
    Memusage,
    Function(Seq<char>, Seq<Seq<char>>),
    Call(Seq<char>),
    Ident(Seq<char>),
}

/// One instruction of a program. A number keeps the text of its literal; a
/// block keeps the tokens of its body.
#[derive(Debug)]
pub enum Token {
    /// A number literal, as it was written.
    Number(String),
    Add,
    Minus,
    Div,
    Mul,
    Mod,
    Swap,
    Rot,
    Dup,
    Drop,
    Eq,
    Noteq,
    Bigger,
    Smaller,
    True,
    False,
    /// Prints the top of the stack.
    Put,
    /// A text literal.
    Str(String),
    /// Runs the block that follows if the top of the stack is one.
    Then,
    /// Runs the block that follows as often as the top of the stack says.
    Times,
    /// A block that shares the stack and the bindings around it.
    Scope(Vec<Token>),
    /// An array literal: its body is evaluated on a stack of its own.
    Array(Vec<Token>),
    /// An object literal: each property with the one token that gives its
    /// value.
    Object(Vec<(String, Token)>),
    /// Reads a property of the object on top of the stack.
    Get(String),
    /// The tokens of an imported resource.
    Import(Vec<Token>),
    /// Declares a binding.
    Let(String),
    /// Assigns to a binding.
    Assign(String),
    /// Takes the newest global binding back.
    Mempop,
    /// Counts the global bindings.
    Memusage,
    /// Declares a function: its name and the names of its parameters. The
    /// block that follows is its body.
    Function(String, Vec<String>),
    /// Calls a function.
    Call(String),
    /// A name: a binding, a macro or a primitive.
    Ident(String),
}

/// What a token stands for.
pub open spec fn token_of(token: Token) -> TokenView
    decreases token, 0nat,
{
    match token {
        Token::Number(text) => TokenView::Number(text@),
        Token::Add => TokenView::Add,
        Token::Minus => TokenView::Minus,
        Token::Div => TokenView::Div,
        Token::Mul => TokenView::Mul,
        Token::Mod => TokenView::Mod,
        Token::Swap => TokenView::Swap,
        Token::Rot => TokenView::Rot,
        Token::Dup => TokenView::Dup,
        Token::Drop => TokenView::Drop,
        Token::Eq => TokenView::Eq,
        Token::Noteq => TokenView::Noteq,
        Token::Bigger => TokenView::Bigger,
        Token::Smaller => TokenView::Smaller,
        Token::True => TokenView::True,
        Token::False => TokenView::False,
        Token::Put => TokenView::Put,
        Token::Str(text) => TokenView::Str(text@),
        Token::Then => TokenView::Then,
        Token::Times => TokenView::Times,
        Token::Scope(body) => TokenView::Scope(tokens_of(body@)),
        Token::Array(body) => TokenView::Array(tokens_of(body@)),
        Token::Object(properties) => TokenView::Object(properties_of(properties@)),
        Token::Get(name) => TokenView::Get(name@),
        Token::Import(body) => TokenView::Import(tokens_of(body@)),
        Token::Let(name) => TokenView::Let(name@),
        Token::Assign(name) => TokenView::Assign(name@),
        Token::Mempop => TokenView::Mempop,
        Token::Memusage => TokenView::Memusage,
        Token::Function(name, parameters) => TokenView::Function(name@, names_of(parameters@)),
        Token::Call(name) => TokenView::Call(name@),
        Token::Ident(name) => TokenView::Ident(name@),
    }
}

/// What a sequence of tokens stands for, one for one.
pub open spec fn tokens_of(tokens: Seq<Token>) -> Seq<TokenView>
    decreases tokens, 1nat,
{
    if tokens.len() == 0 {
        Seq::empty()
    } else {
        tokens_of(tokens.drop_last()).push(token_of(tokens.last()))
    }
}

/// What the properties of an object literal stand for, one for one.
pub open spec fn properties_of(properties: Seq<(String, Token)>) -> Seq<(Seq<char>, TokenView)>
    decreases properties, 1nat,
{
    if properties.len() == 0 {
        Seq::empty()
    } else {
        properties_of(properties.drop_last()).push(
            (properties.last().0@, token_of(properties.last().1)),
        )
    }
}

/// The characters of each name, in order.
pub open spec fn names_of(names: Seq<String>) -> Seq<Seq<char>> {
    Seq::new(names.len(), |i: int| names[i]@)
}

impl View for Token {
    type V = TokenView;

    open spec fn view(&self) -> TokenView {
        token_of(*self)
    }
}

/// `tokens_of` keeps the length and maps each token to what it stands for.
pub proof fn lemma_tokens_of(tokens: Seq<Token>)
    ensures
        tokens_of(tokens).len() == tokens.len(),
        forall|i: int| 0 <= i < tokens.len() ==> (#[trigger] tokens_of(tokens)[i]) == tokens[i]@,
    decreases tokens.len(),
{
    if tokens.len() > 0 {
        lemma_tokens_of(tokens.drop_last());
    }
}

/// `properties_of` keeps the length and maps each property to its name and
/// to what its token stands for.
pub proof fn lemma_properties_of(properties: Seq<(String, Token)>)
    ensures
        properties_of(properties).len() == properties.len(),
        forall|i: int|
            0 <= i < properties.len() ==> (#[trigger] properties_of(properties)[i]) == (
                properties[i].0@,
                properties[i].1@,
            ),
    decreases properties.len(),
{
    if properties.len() > 0 {
        lemma_properties_of(properties.drop_last());
    }
}

impl Token {
    /// A copy that stands for the same token.
    pub fn copy(&self) -> (r: Token)
        ensures
            r@ == self@,
        decreases self, 0nat,
    {
        match self {
            Token::Number(text) => Token::Number(text.clone()),
            Token::Add => Token::Add,
            Token::Minus => Token::Minus,
            Token::Div => Token::Div,
            Token::Mul => Token::Mul,
            Token::Mod => Token::Mod,
            Token::Swap => Token::Swap,
            Token::Rot => Token::Rot,
            Token::Dup => Token::Dup,
            Token::Drop => Token::Drop,
            Token::Eq => Token::Eq,
            Token::Noteq => Token::Noteq,
            Token::Bigger => Token::Bigger,
            Token::Smaller => Token::Smaller,
            Token::True => Token::True,
            Token::False => Token::False,
            Token::Put => Token::Put,
            Token::Str(text) => Token::Str(text.clone()),
            Token::Then => Token::Then,
            Token::Times => Token::Times,
            Token::Scope(body) => Token::Scope(copy_tokens(body)),
            Token::Array(body) => Token::Array(copy_tokens(body)),
            Token::Object(properties) => Token::Object(copy_properties(properties)),
            Token::Get(name) => Token::Get(name.clone()),
            Token::Import(body) => Token::Import(copy_tokens(body)),
            Token::Let(name) => Token::Let(name.clone()),
            Token::Assign(name) => Token::Assign(name.clone()),
            Token::Mempop => Token::Mempop,
            Token::Memusage => Token::Memusage,
            Token::Function(name, parameters) => Token::Function(
                name.clone(),
                copy_names(parameters),
            ),
            Token::Call(name) => Token::Call(name.clone()),
            Token::Ident(name) => Token::Ident(name.clone()),
        }
    }
}

/// A copy of each token, in order.
pub fn copy_tokens(tokens: &Vec<Token>) -> (out: Vec<Token>)
    ensures
        tokens_of(out@) == tokens_of(tokens@),
    decreases tokens, 1nat,
{
    let mut out: Vec<Token> = Vec::new();
    let mut i: usize = 0;
    while i < tokens.len()
        invariant
            i <= tokens.len(),
            out.len() == i,
            forall|j: int| 0 <= j < i ==> out[j]@ == tokens[j]@,
        decreases tokens.len() - i,
    {
        out.push(tokens[i].copy());
        i += 1;
    }
    proof {
        lemma_tokens_of(out@);
        lemma_tokens_of(tokens@);
        assert(tokens_of(out@) =~= tokens_of(tokens@));
    }
    out
}

/// A copy of each property, in order.
pub fn copy_properties(properties: &Vec<(String, Token)>) -> (out: Vec<(String, Token)>)
    ensures
        properties_of(out@) == properties_of(properties@),
    decreases properties, 1nat,
{
    let mut out: Vec<(String, Token)> = Vec::new();
    let mut i: usize = 0;
    while i < properties.len()
        invariant
            i <= properties.len(),
            out.len() == i,
            forall|j: int|
                0 <= j < i ==> out[j].0@ == properties[j].0@ && out[j].1@ == properties[j].1@,
        decreases properties.len() - i,
    {
        let name = properties[i].0.clone();
        let value = properties[i].1.copy();
        out.push((name, value));
        i += 1;
    }
    proof {
        lemma_properties_of(out@);
        lemma_properties_of(properties@);
        assert(properties_of(out@) =~= properties_of(properties@));
    }
    out
}

/// A copy of each name, in order.
pub fn copy_names(names: &Vec<String>) -> (out: Vec<String>)
    ensures
        names_of(out@) == names_of(names@),
{
    let mut out: Vec<String> = Vec::new();
    let mut i: usize = 0;
    while i < names.len()
        invariant
            i <= names.len(),
            out.len() == i,
            forall|j: int| 0 <= j < i ==> out[j]@ == names[j]@,
        decreases names.len() - i,
    {
        out.push(names[i].clone());
        i += 1;
    }
    assert(names_of(out@) =~= names_of(names@));
    out
}

} // verus!
