//! The lexer: from source text to a token tree.
//!
//! The text is cut into words at white space. Most words are a token by
//! themselves; some take the word after them, and some open a block that
//! runs to a closing word and is lexed into a token of its own.

use crate::error::Error;
use crate::text::{chars_of, same_text, spells};
use crate::token::{
    lemma_properties_of, lemma_tokens_of, names_of, properties_of, tokens_of, Token, TokenView,
};
use crate::types::first_named;
use crate::words::{is_number, is_numeric, split_words, words_of};
use vstd::prelude::*;

verus! {

/// What a [`Resource`] stands for.
pub struct ResourceView {
    pub name: Seq<char>,
    pub text: Seq<char>,
}

/// A text that `import` can name.
#[derive(Debug)]
pub struct Resource {
    pub name: String,
    pub text: String,
}

impl View for Resource {
    type V = ResourceView;

    open spec fn view(&self) -> ResourceView {
        ResourceView { name: self.name@, text: self.text@ }
    }
}

/// What a sequence of resources stands for, one for one.
pub open spec fn resources_of(resources: Seq<Resource>) -> Seq<ResourceView> {
    Seq::new(resources.len(), |i: int| resources[i]@)
}

/// The names of a sequence of resources, in order.
pub open spec fn resource_names(resources: Seq<ResourceView>) -> Seq<Seq<char>> {
    Seq::new(resources.len(), |i: int| resources[i].name)
}

/// What a [`Lexer`] stands for.
pub struct LexerView {
    pub source: Seq<char>,
    pub resources: Seq<ResourceView>,
}

/// A source text and the resources that it can import.
pub struct Lexer {
    source: String,
    resources: Vec<Resource>,
}

impl View for Lexer {
    type V = LexerView;

    closed spec fn view(&self) -> LexerView {
        LexerView { source: self.source@, resources: resources_of(self.resources@) }
    }
}

/// Whether a word takes the word after it as its operand.
pub open spec fn takes_word(w: Seq<char>) -> bool {
    w == "str"@ || w == "let"@ || w == "set"@ || w == "call"@ || w == "get"@
}

/// Whether a word cannot stand alone: it takes an operand or opens a block.
pub open spec fn needs_more(w: Seq<char>) -> bool {
    takes_word(w) || w == "import"@ || w == "fn"@ || w == "["@ || w == "{"@ || w == "object"@
}

/// The token of a word that stands alone: an operator by its name, a number
/// literal, or else a name. A word that cannot stand alone has none.
pub open spec fn plain_token(w: Seq<char>) -> Option<TokenView> {
    if w == "add"@ {
        Some(TokenView::Add)
    } else if w == "minus"@ {
        Some(TokenView::Minus)
    } else if w == "div"@ {
        Some(TokenView::Div)
    } else if w == "mul"@ {
        Some(TokenView::Mul)
    } else if w == "mod"@ {
        Some(TokenView::Mod)
    } else if w == "swap"@ {
        Some(TokenView::Swap)
    } else if w == "rot"@ {
        Some(TokenView::Rot)
    } else if w == "dup"@ {
        Some(TokenView::Dup)
    } else if w == "drop"@ {
        Some(TokenView::Drop)
    } else if w == "eq"@ {
        Some(TokenView::Eq)
    } else if w == "noteq"@ {
        Some(TokenView::Noteq)
    } else if w == "bigger"@ {
        Some(TokenView::Bigger)
    } else if w == "smaller"@ {
        Some(TokenView::Smaller)
    } else if w == "true"@ {
        Some(TokenView::True)
    } else if w == "false"@ {
        Some(TokenView::False)
    } else if w == "put"@ {
        Some(TokenView::Put)
    } else if w == "then"@ {
        Some(TokenView::Then)
    } else if w == "times"@ {
        Some(TokenView::Times)
    } else if w == "mempop"@ {
        Some(TokenView::Mempop)
    } else if w == "memusage"@ {
        Some(TokenView::Memusage)
    } else if needs_more(w) {
        None
    } else if is_number(w) {
        Some(TokenView::Number(w))
    } else {
        Some(TokenView::Ident(w))
    }
}

/// The token of a word that takes an operand, with its operand.
pub open spec fn word_token(w: Seq<char>, operand: Seq<char>) -> TokenView {
    if w == "str"@ {
        TokenView::Str(operand)
    } else if w == "let"@ {
        TokenView::Let(operand)
    } else if w == "set"@ {
        TokenView::Assign(operand)
    } else if w == "call"@ {
        TokenView::Call(operand)
    } else {
        TokenView::Get(operand)
    }
}

/// The position of the word `close` that ends the block that is open at
/// `from`, where `depth` more blocks are open inside it: each `open` on the
/// way opens one more, and each `close` closes the innermost.
pub open spec fn matching(
    words: Seq<Seq<char>>,
    open: Seq<char>,
    close: Seq<char>,
    from: int,
    depth: nat,
) -> Option<int>
    decreases words.len() - from,
{
    if from < 0 || from >= words.len() {
        None
    } else if words[from] == close {
        if depth == 0 {
            Some(from)
        } else {
            matching(words, open, close, from + 1, (depth - 1) as nat)
        }
    } else if words[from] == open {
        matching(words, open, close, from + 1, depth + 1)
    } else {
        matching(words, open, close, from + 1, depth)
    }
}

/// The properties of an object literal from `from` on, and the position of
/// the `}` that ends it. A property is a name, `=`, and a word that stands
/// alone.
pub open spec fn properties(words: Seq<Seq<char>>, from: int) -> Result<
    (Seq<(Seq<char>, TokenView)>, int),
    Error,
>
    decreases words.len() - from,
{
    if from < 0 || from >= words.len() {
        Err(Error::MalformedProgram)
    } else if words[from] == "}"@ {
        Ok((Seq::empty(), from))
    } else if from + 2 >= words.len() || words[from + 1] != "="@ {
        Err(Error::MalformedProgram)
    } else {
        match plain_token(words[from + 2]) {
            None => Err(Error::MalformedProgram),
            Some(token) => match properties(words, from + 3) {
                Err(e) => Err(e),
                Ok((rest, close)) => Ok((seq![(words[from], token)] + rest, close)),
            },
        }
    }
}

/// Tokens in front of what lexing the rest gives.
pub open spec fn joined(done: Seq<TokenView>, rest: Result<Seq<TokenView>, Error>) -> Result<
    Seq<TokenView>,
    Error,
> {
    match rest {
        Ok(tokens) => Ok(done + tokens),
        Err(e) => Err(e),
    }
}

/// The tokens that the word at `from` gives, with the words that belong to
/// it, and the position of the first word after them.
pub open spec fn lex_one(words: Seq<Seq<char>>, from: int, resources: Seq<ResourceView>) -> Result<
    (Seq<TokenView>, int),
    Error,
>
    decreases resources.len(), words.len() - from, 0nat,
{
    let w = words[from];
    if from < 0 || from >= words.len() {
        Err(Error::MalformedProgram)
    } else if takes_word(w) {
        if from + 1 >= words.len() {
            Err(Error::MalformedProgram)
        } else {
            Ok((seq![word_token(w, words[from + 1])], from + 2))
        }
    } else if w == "import"@ {
        if from + 1 >= words.len() {
            Err(Error::MalformedProgram)
        } else {
            match first_named(resource_names(resources), words[from + 1], 0) {
                Some(i) if 0 <= i < resources.len() => match lex_from(
                    words_of(resources[i].text),
                    0,
                    resources.remove(i),
                ) {
                    Ok(body) => Ok((seq![TokenView::Import(body)], from + 2)),
                    Err(e) => Err(e),
                },
                _ => Err(Error::ResourceError),
            }
        }
    } else if w == "fn"@ {
        if from + 1 >= words.len() {
            Err(Error::MalformedProgram)
        } else {
            match first_named(words, "do"@, from + 2) {
                Some(d) if from + 2 <= d < words.len() => match matching(
                    words,
                    "fn"@,
                    "end"@,
                    d + 1,
                    0,
                ) {
                    Some(e) if d < e < words.len() => match lex_from(
                        words.subrange(d + 1, e),
                        0,
                        resources,
                    ) {
                        Ok(body) => Ok(
                            (
                                seq![
                                    TokenView::Function(words[from + 1], words.subrange(from + 2, d)),
                                    TokenView::Scope(body),
                                ],
                                e + 1,
                            ),
                        ),
                        Err(x) => Err(x),
                    },
                    _ => Err(Error::MalformedProgram),
                },
                _ => Err(Error::MalformedProgram),
            }
        }
    } else if w == "["@ {
        match first_named(words, "]"@, from + 1) {
            Some(e) if from < e < words.len() => match lex_from(
                words.subrange(from + 1, e),
                0,
                resources,
            ) {
                Ok(body) => Ok((seq![TokenView::Array(body)], e + 1)),
                Err(x) => Err(x),
            },
            _ => Err(Error::MalformedProgram),
        }
    } else if w == "{"@ {
        match matching(words, "{"@, "}"@, from + 1, 0) {
            Some(e) if from < e < words.len() => match lex_from(
                words.subrange(from + 1, e),
                0,
                resources,
            ) {
                Ok(body) => Ok((seq![TokenView::Scope(body)], e + 1)),
                Err(x) => Err(x),
            },
            _ => Err(Error::MalformedProgram),
        }
    } else if w == "object"@ {
        if from + 1 >= words.len() || words[from + 1] != "{"@ {
            Err(Error::MalformedProgram)
        } else {
            match properties(words, from + 2) {
                Ok((found, close)) => Ok((seq![TokenView::Object(found)], close + 1)),
                Err(e) => Err(e),
            }
        }
    } else {
        match plain_token(w) {
            Some(token) => Ok((seq![token], from + 1)),
            None => Err(Error::MalformedProgram),
        }
    }
}

/// The tokens of the words from `from` on.
pub open spec fn lex_from(words: Seq<Seq<char>>, from: int, resources: Seq<ResourceView>) -> Result<
    Seq<TokenView>,
    Error,
>
    decreases resources.len(), words.len() - from, 1nat,
{
    if from < 0 || from >= words.len() {
        Ok(Seq::empty())
    } else {
        let one = lex_one(words, from, resources);
        if one is Err {
            Err(one->Err_0)
        } else if from < one->Ok_0.1 <= words.len() {
            joined(one->Ok_0.0, lex_from(words, one->Ok_0.1, resources))
        } else {
            Err(Error::MalformedProgram)
        }
    }
}

/// The tokens of a source text. `import` takes the text of the first
/// resource of the name it is given; a resource cannot import itself, neither
/// directly nor through others.
pub open spec fn lex_text(source: Seq<char>, resources: Seq<ResourceView>) -> Result<
    Seq<TokenView>,
    Error,
> {
    lex_from(words_of(source), 0, resources)
}

/// The words that stand directly after a word `import`, from `from` on: the
/// names of the resources that the words may ask for.
pub open spec fn import_names(words: Seq<Seq<char>>, from: int) -> Seq<Seq<char>>
    decreases words.len() - from,
{
    if from < 0 || from + 1 >= words.len() {
        Seq::empty()
    } else if words[from] == "import"@ {
        seq![words[from + 1]] + import_names(words, from + 2)
    } else {
        import_names(words, from + 1)
    }
}

/// Whether `r` is what `expected` says, token for token.
pub open spec fn lexed(r: Result<Vec<Token>, Error>, expected: Result<Seq<TokenView>, Error>) -> bool {
    match r {
        Ok(tokens) => expected == Ok::<Seq<TokenView>, Error>(tokens_of(tokens@)),
        Err(e) => expected == Err::<Seq<TokenView>, Error>(e),
    }
}

/// Whether `word` is the word `text`.
fn word_is(word: &String, text: &str) -> (r: bool)
    ensures
        r == (word@ == text@),
{
    same_text(word.as_str(), text)
}

/// The token of a word that stands alone.
fn plain(word: &String) -> (r: Option<Token>)
    ensures
        match r {
            Some(token) => plain_token(word@) == Some(token@),
            None => plain_token(word@) is None,
        },
{
    let w = chars_of(word.as_str());
    if spells(&w, "add") {
        Some(Token::Add)
    } else if spells(&w, "minus") {
        Some(Token::Minus)
    } else if spells(&w, "div") {
        Some(Token::Div)
    } else if spells(&w, "mul") {
        Some(Token::Mul)
    } else if spells(&w, "mod") {
        Some(Token::Mod)
    } else if spells(&w, "swap") {
        Some(Token::Swap)
    } else if spells(&w, "rot") {
        Some(Token::Rot)
    } else if spells(&w, "dup") {
        Some(Token::Dup)
    } else if spells(&w, "drop") {
        Some(Token::Drop)
    } else if spells(&w, "eq") {
        Some(Token::Eq)
    } else if spells(&w, "noteq") {
        Some(Token::Noteq)
    } else if spells(&w, "bigger") {
        Some(Token::Bigger)
    } else if spells(&w, "smaller") {
        Some(Token::Smaller)
    } else if spells(&w, "true") {
        Some(Token::True)
    } else if spells(&w, "false") {
        Some(Token::False)
    } else if spells(&w, "put") {
        Some(Token::Put)
    } else if spells(&w, "then") {
        Some(Token::Then)
    } else if spells(&w, "times") {
        Some(Token::Times)
    } else if spells(&w, "mempop") {
        Some(Token::Mempop)
    } else if spells(&w, "memusage") {
        Some(Token::Memusage)
    } else if spells(&w, "str") || spells(&w, "let") || spells(&w, "set") || spells(&w, "call")
        || spells(&w, "get") || spells(&w, "import") || spells(&w, "fn") || spells(&w, "[")
        || spells(&w, "{") || spells(&w, "object") {
        None
    } else if is_numeric(&w) {
        Some(Token::Number(word.clone()))
    } else {
        Some(Token::Ident(word.clone()))
    }
}

/// The first position at or after `from` that holds the word `text`.
fn find_word(words: &Vec<String>, text: &str, from: usize) -> (r: Option<usize>)
    requires
        from <= words.len(),
    ensures
        match r {
            Some(i) => first_named(names_of(words@), text@, from as int) == Some(i as int) && from
                <= i < words.len(),
            None => first_named(names_of(words@), text@, from as int) is None,
        },
{
    let ghost ws = names_of(words@);
    let mut i: usize = from;
    while i < words.len()
        invariant
            from <= i <= words.len(),
            ws == names_of(words@),
            first_named(ws, text@, from as int) == first_named(ws, text@, i as int),
        decreases words.len() - i,
    {
        if word_is(&words[i], text) {
            return Some(i);
        }
        i += 1;
    }
    None
}

/// The position of the word `close` that ends the block that is open at
/// `from`.
fn find_matching(words: &Vec<String>, open: &str, close: &str, from: usize) -> (r: Option<usize>)
    requires
        from <= words.len(),
    ensures
        match r {
            Some(i) => matching(names_of(words@), open@, close@, from as int, 0) == Some(i as int)
                && from <= i < words.len(),
            None => matching(names_of(words@), open@, close@, from as int, 0) is None,
        },
{
    let ghost ws = names_of(words@);
    let mut depth: usize = 0;
    let mut i: usize = from;
    while i < words.len()
        invariant
            from <= i <= words.len(),
            depth <= i - from,
            ws == names_of(words@),
            matching(ws, open@, close@, from as int, 0) == matching(
                ws,
                open@,
                close@,
                i as int,
                depth as nat,
            ),
        decreases words.len() - i,
    {
        if word_is(&words[i], close) {
            if depth == 0 {
                return Some(i);
            }
            depth -= 1;
        } else if word_is(&words[i], open) {
            depth += 1;
        }
        i += 1;
    }
    None
}

/// A copy of the words from `a` up to `b`.
fn slice(words: &Vec<String>, a: usize, b: usize) -> (r: Vec<String>)
    requires
        a <= b <= words.len(),
    ensures
        names_of(r@) == names_of(words@).subrange(a as int, b as int),
        r.len() == b - a,
{
    let mut out: Vec<String> = Vec::new();
    let mut i: usize = a;
    while i < b
        invariant
            a <= i <= b <= words.len(),
            out.len() == i - a,
            forall|j: int| 0 <= j < out.len() ==> out[j]@ == words[a + j]@,
        decreases b - i,
    {
        out.push(words[i].clone());
        i += 1;
    }
    assert(names_of(out@) =~= names_of(words@).subrange(a as int, b as int));
    out
}

/// The resources but the one at `i`.
fn without(resources: &Vec<Resource>, i: usize) -> (r: Vec<Resource>)
    requires
        i < resources.len(),
    ensures
        resources_of(r@) == resources_of(resources@).remove(i as int),
        r.len() == resources.len() - 1,
{
    let mut out: Vec<Resource> = Vec::new();
    let mut k: usize = 0;
    while k < resources.len()
        invariant
            k <= resources.len(),
            i < resources.len(),
            out.len() == (if k <= i {
                k
            } else {
                (k - 1) as usize
            }),
            forall|j: int| 0 <= j < out.len() && j < i ==> out[j]@ == resources[j]@,
            forall|j: int| i <= j < out.len() ==> out[j]@ == resources[j + 1]@,
        decreases resources.len() - k,
    {
        if k != i {
            out.push(Resource { name: resources[k].name.clone(), text: resources[k].text.clone() });
        }
        k += 1;
    }
    assert(resources_of(out@) =~= resources_of(resources@).remove(i as int));
    out
}

/// The position of the first resource named `name`.
fn find_resource(resources: &Vec<Resource>, name: &String) -> (r: Option<usize>)
    ensures
        match r {
            Some(i) => first_named(resource_names(resources_of(resources@)), name@, 0) == Some(
                i as int,
            ) && i < resources.len(),
            None => first_named(resource_names(resources_of(resources@)), name@, 0) is None,
        },
{
    let ghost names = resource_names(resources_of(resources@));
    let mut i: usize = 0;
    while i < resources.len()
        invariant
            i <= resources.len(),
            names == resource_names(resources_of(resources@)),
            first_named(names, name@, 0) == first_named(names, name@, i as int),
        decreases resources.len() - i,
    {
        if resources[i].name == *name {
            return Some(i);
        }
        i += 1;
    }
    None
}

/// The properties of an object literal from `from` on, and the position of
/// the `}` that ends it.
fn lex_properties(words: &Vec<String>, from: usize) -> (r: Result<
    (Vec<(String, Token)>, usize),
    Error,
>)
    requires
        from <= words.len(),
    ensures
        match r {
            Ok((found, close)) => properties(names_of(words@), from as int) == Ok::<
                (Seq<(Seq<char>, TokenView)>, int),
                Error,
            >((properties_of(found@), close as int)) && from <= close < words.len(),
            Err(e) => properties(names_of(words@), from as int) == Err::<
                (Seq<(Seq<char>, TokenView)>, int),
                Error,
            >(e),
        },
    decreases words.len() - from,
{
    if from >= words.len() {
        return Err(Error::MalformedProgram);
    }
    if word_is(&words[from], "}") {
        let found: Vec<(String, Token)> = Vec::new();
        proof {
            lemma_properties_of(found@);
            assert(properties_of(found@) =~= Seq::empty());
        }
        return Ok((found, from));
    }
    if words.len() - from <= 2 || !word_is(&words[from + 1], "=") {
        return Err(Error::MalformedProgram);
    }
    match plain(&words[from + 2]) {
        None => Err(Error::MalformedProgram),
        Some(token) => match lex_properties(words, from + 3) {
            Err(e) => Err(e),
            Ok((rest, close)) => {
                let mut found = rest;
                let name = words[from].clone();
                proof {
                    lemma_properties_of(found@);
                    lemma_properties_of(found@.insert(0, (name, token)));
                    assert(properties_of(found@.insert(0, (name, token))) =~= seq![
                        (name@, token@),
                    ] + properties_of(found@));
                }
                found.insert(0, (name, token));
                Ok((found, close))
            },
        },
    }
}

/// What a pushed token does to what a token sequence stands for.
proof fn lemma_tokens_push(tokens: Seq<Token>, token: Token)
    ensures
        tokens_of(tokens.push(token)) == tokens_of(tokens).push(token@),
{
    assert(tokens.push(token).drop_last() =~= tokens);
}

/// What joining two token sequences does to what they stand for.
proof fn lemma_tokens_join(a: Seq<Token>, b: Seq<Token>)
    ensures
        tokens_of(a + b) == tokens_of(a) + tokens_of(b),
{
    lemma_tokens_of(a);
    lemma_tokens_of(b);
    lemma_tokens_of(a + b);
    assert(tokens_of(a + b) =~= tokens_of(a) + tokens_of(b));
}

/// The one token `token`.
fn one(token: Token) -> (r: Vec<Token>)
    ensures
        tokens_of(r@) == seq![token@],
{
    let mut out: Vec<Token> = Vec::new();
    proof {
        lemma_tokens_push(out@, token);
        assert(tokens_of(out@.push(token)) =~= seq![token@]);
    }
    out.push(token);
    out
}

/// Whether `r` is what `expected` says: the tokens one for one and the
/// position of the next word, which lies after `from` and within `len`.
pub open spec fn lexed_one(
    r: Result<(Vec<Token>, usize), Error>,
    expected: Result<(Seq<TokenView>, int), Error>,
    from: int,
    len: int,
) -> bool {
    match r {
        Ok((tokens, next)) => expected == Ok::<(Seq<TokenView>, int), Error>(
            (tokens_of(tokens@), next as int),
        ) && from < next <= len,
        Err(e) => expected == Err::<(Seq<TokenView>, int), Error>(e),
    }
}

/// The tokens that the word at `from` gives, with the words that belong to
/// it, and the position of the first word after them.
fn lex_word(words: &Vec<String>, from: usize, resources: &Vec<Resource>) -> (r: Result<
    (Vec<Token>, usize),
    Error,
>)
    requires
        from < words.len(),
    ensures
        lexed_one(
            r,
            lex_one(names_of(words@), from as int, resources_of(resources@)),
            from as int,
            words.len() as int,
        ),
    decreases resources.len(), words.len() - from, 0nat,
{
    let ghost ws = names_of(words@);
    let w = &words[from];
    assert(ws[from as int] == w@);
    assert(from + 1 < words.len() ==> ws[from + 1] == words[from + 1]@);
    if word_is(w, "str") || word_is(w, "let") || word_is(w, "set") || word_is(w, "call")
        || word_is(w, "get") {
        if from + 1 >= words.len() {
            return Err(Error::MalformedProgram);
        }
        let operand = words[from + 1].clone();
        let token = if word_is(w, "str") {
            Token::Str(operand)
        } else if word_is(w, "let") {
            Token::Let(operand)
        } else if word_is(w, "set") {
            Token::Assign(operand)
        } else if word_is(w, "call") {
            Token::Call(operand)
        } else {
            Token::Get(operand)
        };
        Ok((one(token), from + 2))
    } else if word_is(w, "import") {
        if from + 1 >= words.len() {
            return Err(Error::MalformedProgram);
        }
        match find_resource(resources, &words[from + 1]) {
            None => Err(Error::ResourceError),
            Some(i) => {
                let rest = without(resources, i);
                let text = split_words(resources[i].text.as_str());
                match lex_words(&text, &rest) {
                    Err(e) => Err(e),
                    Ok(body) => Ok((one(Token::Import(body)), from + 2)),
                }
            },
        }
    } else if word_is(w, "fn") {
        if from + 1 >= words.len() {
            return Err(Error::MalformedProgram);
        }
        match find_word(words, "do", from + 2) {
            None => Err(Error::MalformedProgram),
            Some(d) => match find_matching(words, "fn", "end", d + 1) {
                None => Err(Error::MalformedProgram),
                Some(e) => {
                    let inner = slice(words, d + 1, e);
                    match lex_words(&inner, resources) {
                        Err(x) => Err(x),
                        Ok(body) => {
                            let head = Token::Function(
                                words[from + 1].clone(),
                                slice(words, from + 2, d),
                            );
                            let mut tokens = one(head);
                            let scope = Token::Scope(body);
                            proof {
                                lemma_tokens_push(tokens@, scope);
                                assert(tokens_of(tokens@).push(scope@) =~= seq![head@, scope@]);
                            }
                            tokens.push(scope);
                            Ok((tokens, e + 1))
                        },
                    }
                },
            },
        }
    } else if word_is(w, "[") {
        match find_word(words, "]", from + 1) {
            None => Err(Error::MalformedProgram),
            Some(e) => {
                let inner = slice(words, from + 1, e);
                match lex_words(&inner, resources) {
                    Err(x) => Err(x),
                    Ok(body) => Ok((one(Token::Array(body)), e + 1)),
                }
            },
        }
    } else if word_is(w, "{") {
        match find_matching(words, "{", "}", from + 1) {
            None => Err(Error::MalformedProgram),
            Some(e) => {
                let inner = slice(words, from + 1, e);
                match lex_words(&inner, resources) {
                    Err(x) => Err(x),
                    Ok(body) => Ok((one(Token::Scope(body)), e + 1)),
                }
            },
        }
    } else if word_is(w, "object") {
        if from + 1 >= words.len() || !word_is(&words[from + 1], "{") {
            return Err(Error::MalformedProgram);
        }
        match lex_properties(words, from + 2) {
            Err(e) => Err(e),
            Ok((found, close)) => Ok((one(Token::Object(found)), close + 1)),
        }
    } else {
        match plain(w) {
            Some(token) => Ok((one(token), from + 1)),
            None => Err(Error::MalformedProgram),
        }
    }
}

/// The tokens of `words`.
fn lex_words(words: &Vec<String>, resources: &Vec<Resource>) -> (r: Result<Vec<Token>, Error>)
    ensures
        lexed(r, lex_from(names_of(words@), 0, resources_of(resources@))),
    decreases resources.len(), words.len(), 1nat,
{
    let ghost ws = names_of(words@);
    let ghost rs = resources_of(resources@);
    let mut out: Vec<Token> = Vec::new();
    let mut i: usize = 0;
    proof {
        lemma_tokens_of(out@);
        assert(tokens_of(out@) =~= Seq::empty());
        match lex_from(ws, 0, rs) {
            Ok(tokens) => {
                assert(Seq::<TokenView>::empty() + tokens =~= tokens);
            },
            Err(_) => {},
        }
    }
    while i < words.len()
        invariant
            i <= words.len(),
            ws == names_of(words@),
            rs == resources_of(resources@),
            lex_from(ws, 0, rs) == joined(tokens_of(out@), lex_from(ws, i as int, rs)),
        decreases words.len() - i,
    {
        match lex_word(words, i, resources) {
            Err(e) => {
                return Err(e);
            },
            Ok((tokens, next)) => {
                let mut tokens = tokens;
                proof {
                    lemma_tokens_join(out@, tokens@);
                    match lex_from(ws, next as int, rs) {
                        Ok(rest) => {
                            assert(tokens_of(out@) + (tokens_of(tokens@) + rest) =~= (tokens_of(
                                out@,
                            ) + tokens_of(tokens@)) + rest);
                        },
                        Err(_) => {},
                    }
                }
                out.append(&mut tokens);
                i = next;
            },
        }
    }
    proof {
        assert(tokens_of(out@) + Seq::<TokenView>::empty() =~= tokens_of(out@));
    }
    Ok(out)
}

impl Lexer {
    /// A lexer over `source` that can import nothing.
    pub fn new(source: String) -> (r: Self)
        ensures
            r@ == (LexerView { source: source@, resources: Seq::empty() }),
    {
        let r = Self { source, resources: Vec::new() };
        assert(resources_of(r.resources@) =~= Seq::empty());
        r
    }

    /// A lexer over `source` that can import `resources`.
    pub fn with_resources(source: String, resources: Vec<Resource>) -> (r: Self)
        ensures
            r@ == (LexerView { source: source@, resources: resources_of(resources@) }),
    {
        Self { source, resources }
    }

    /// The names that stand after the word `import` in the source text, in
    /// order. A host that keeps its resources elsewhere learns from them
    /// what to fetch before it lexes.
    pub fn imports(&self) -> (r: Vec<String>)
        ensures
            names_of(r@) == import_names(words_of(self@.source), 0),
    {
        let words = split_words(self.source.as_str());
        let ghost ws = names_of(words@);
        let mut out: Vec<String> = Vec::new();
        let mut i: usize = 0;
        proof {
            assert(names_of(out@) + import_names(ws, 0) =~= import_names(ws, 0));
        }
        while i < words.len() && i + 1 < words.len()
            invariant
                i <= words.len(),
                ws == names_of(words@),
                import_names(ws, 0) == names_of(out@) + import_names(ws, i as int),
            decreases words.len() - i,
        {
            if word_is(&words[i], "import") {
                let name = words[i + 1].clone();
                proof {
                    assert(names_of(out@.push(name)) =~= names_of(out@) + seq![ws[i + 1]]);
                    assert(names_of(out@) + (seq![ws[i + 1]] + import_names(ws, i + 2))
                        =~= names_of(out@) + seq![ws[i + 1]] + import_names(ws, i + 2));
                }
                out.push(name);
                i += 2;
            } else {
                i += 1;
            }
        }
        proof {
            assert(names_of(out@) + Seq::<Seq<char>>::empty() =~= names_of(out@));
        }
        out
    }

    /// The tokens of the source text.
    pub fn lex(&self) -> (r: Result<Vec<Token>, Error>)
        ensures
            lexed(r, lex_text(self@.source, self@.resources)),
    {
        let words = split_words(self.source.as_str());
        lex_words(&words, &self.resources)
    }
}

} // verus!
