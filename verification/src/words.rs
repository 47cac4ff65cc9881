//! Words: how source text is cut at white space, and which words are
//! number literals.

use crate::text::chars_of;
use crate::token::names_of;
use vstd::prelude::*;
use vstd::string::StrSliceExecFns;

verus! {

/// The characters that separate words: those with the Unicode property
/// `White_Space`.
pub open spec fn is_space(c: char) -> bool {
    let code = c as u32;
    ||| 0x09 <= code <= 0x0D
    ||| code == 0x20
    ||| code == 0x85
    ||| code == 0xA0
    ||| code == 0x1680
    ||| 0x2000 <= code <= 0x200A
    ||| code == 0x2028
    ||| code == 0x2029
    ||| code == 0x202F
    ||| code == 0x205F
    ||| code == 0x3000
}

/// The words of `text` from position `from` on, where `word` holds the
/// characters of the word that is under way at `from`. A word is a longest
/// run of characters that are no white space.
pub open spec fn split(text: Seq<char>, from: int, word: Seq<char>) -> Seq<Seq<char>>
    decreases text.len() - from,
{
    let ended = if word.len() > 0 {
        seq![word]
    } else {
        Seq::empty()
    };
    if from < 0 || from >= text.len() {
        ended
    } else if is_space(text[from]) {
        ended + split(text, from + 1, Seq::empty())
    } else {
        split(text, from + 1, word.push(text[from]))
    }
}

/// The words of `text`.
pub open spec fn words_of(text: Seq<char>) -> Seq<Seq<char>> {
    split(text, 0, Seq::empty())
}

pub open spec fn is_digit(c: char) -> bool {
    '0' <= c <= '9'
}

/// The first position at or after `from` that holds no digit.
pub open spec fn digits_end(w: Seq<char>, from: int) -> int
    decreases w.len() - from,
{
    if from < 0 || from >= w.len() || !is_digit(w[from]) {
        from
    } else {
        digits_end(w, from + 1)
    }
}

/// Whether `w` holds, from `from` to its end, as many characters as `lower`,
/// each of them that of `lower` or that of `upper` at its place.
pub open spec fn spells_from(w: Seq<char>, from: int, lower: Seq<char>, upper: Seq<char>) -> bool {
    let tail = w.subrange(from, w.len() as int);
    &&& 0 <= from <= w.len()
    &&& tail.len() == lower.len()
    &&& forall|i: int|
        0 <= i < lower.len() ==> (#[trigger] tail[i]) == lower[i] || tail[i] == upper[i]
}

/// Whether `w` holds, from `from` to its end, one of `inf`, `infinity` and
/// `nan`, each letter in either case.
pub open spec fn is_special(w: Seq<char>, from: int) -> bool {
    ||| spells_from(w, from, seq!['i', 'n', 'f'], seq!['I', 'N', 'F'])
    ||| spells_from(
        w,
        from,
        seq!['i', 'n', 'f', 'i', 'n', 'i', 't', 'y'],
        seq!['I', 'N', 'F', 'I', 'N', 'I', 'T', 'Y'],
    )
    ||| spells_from(w, from, seq!['n', 'a', 'n'], seq!['N', 'A', 'N'])
}

/// Whether `w` holds, from `from` to its end, an exponent: an optional sign
/// and at least one digit.
pub open spec fn is_exponent(w: Seq<char>, from: int) -> bool {
    let start = if from < w.len() && (w[from] == '+' || w[from] == '-') {
        from + 1
    } else {
        from
    };
    digits_end(w, start) > start && digits_end(w, start) == w.len()
}

/// Whether `w` holds, from `from` to its end, a decimal number: digits with
/// at most one point among them, at least one digit, and then perhaps `e` or
/// `E` and an exponent.
pub open spec fn is_decimal(w: Seq<char>, from: int) -> bool {
    let whole_end = digits_end(w, from);
    let pointed = whole_end < w.len() && w[whole_end] == '.';
    let end = if pointed {
        digits_end(w, whole_end + 1)
    } else {
        whole_end
    };
    let digits = if pointed {
        end - from - 1
    } else {
        end - from
    };
    &&& digits > 0
    &&& (end == w.len() || ((w[end] == 'e' || w[end] == 'E') && is_exponent(w, end + 1)))
}

/// Whether a word is a number literal: an optional sign, and then a decimal
/// number or one of `inf`, `infinity` and `nan`.
pub open spec fn is_number(w: Seq<char>) -> bool {
    let from: int = if w.len() > 0 && (w[0] == '+' || w[0] == '-') {
        1
    } else {
        0
    };
    from < w.len() && (is_decimal(w, from) || is_special(w, from))
}

/// Whether `c` separates words.
pub fn is_whitespace(c: char) -> (r: bool)
    ensures
        r == is_space(c),
{
    let code: u32 = c as u32;
    (0x09 <= code && code <= 0x0D) || code == 0x20 || code == 0x85 || code == 0xA0 || code
        == 0x1680 || (0x2000 <= code && code <= 0x200A) || code == 0x2028 || code == 0x2029
        || code == 0x202F || code == 0x205F || code == 0x3000
}

/// Cuts `source` into its words.
pub fn split_words(source: &str) -> (words: Vec<String>)
    ensures
        names_of(words@) == words_of(source@),
{
    let chars = chars_of(source);
    let mut words: Vec<String> = Vec::new();
    let mut start: usize = 0;
    let mut i: usize = 0;
    proof {
        assert(source@.subrange(0, 0) =~= Seq::<char>::empty());
        assert(names_of(words@) + words_of(source@) =~= words_of(source@));
    }
    while i < chars.len()
        invariant
            chars@ == source@,
            start <= i <= chars.len(),
            words_of(source@) == names_of(words@) + split(
                source@,
                i as int,
                source@.subrange(start as int, i as int),
            ),
        decreases chars.len() - i,
    {
        let ghost word = source@.subrange(start as int, i as int);
        if is_whitespace(chars[i]) {
            if start < i {
                let text = source.substring_char(start, i).to_owned();
                proof {
                    assert(names_of(words@.push(text)) =~= names_of(words@) + seq![word]);
                    assert(names_of(words@) + (seq![word] + split(
                        source@,
                        i as int + 1,
                        Seq::empty(),
                    )) =~= names_of(words@) + seq![word] + split(
                        source@,
                        i as int + 1,
                        Seq::empty(),
                    ));
                }
                words.push(text);
            } else {
                assert(Seq::<Seq<char>>::empty() + split(source@, i as int + 1, Seq::empty())
                    =~= split(source@, i as int + 1, Seq::empty()));
            }
            start = i + 1;
            assert(source@.subrange(start as int, i as int + 1) =~= Seq::<char>::empty());
        } else {
            assert(source@.subrange(start as int, i as int + 1) =~= word.push(source@[i as int]));
        }
        i += 1;
    }
    if start < i {
        let text = source.substring_char(start, i).to_owned();
        proof {
            assert(names_of(words@.push(text)) =~= names_of(words@) + seq![
                source@.subrange(start as int, i as int),
            ]);
        }
        words.push(text);
    } else {
        assert(names_of(words@) + Seq::<Seq<char>>::empty() =~= names_of(words@));
    }
    words
}

fn digit(c: char) -> (r: bool)
    ensures
        r == is_digit(c),
{
    '0' <= c && c <= '9'
}

/// The first position at or after `from` that holds no digit.
fn skip_digits(w: &Vec<char>, from: usize) -> (r: usize)
    requires
        from <= w.len(),
    ensures
        r == digits_end(w@, from as int),
        from <= r <= w.len(),
{
    let mut i: usize = from;
    while i < w.len() && digit(w[i])
        invariant
            from <= i <= w.len(),
            digits_end(w@, from as int) == digits_end(w@, i as int),
        decreases w.len() - i,
    {
        i += 1;
    }
    i
}

/// Whether `w` holds, from `from` to its end, as many characters as `lower`,
/// each of them that of `lower` or that of `upper` at its place.
fn spelled(w: &Vec<char>, from: usize, lower: &Vec<char>, upper: &Vec<char>) -> (r: bool)
    requires
        from <= w.len(),
        lower.len() == upper.len(),
    ensures
        r == spells_from(w@, from as int, lower@, upper@),
{
    if w.len() - from != lower.len() {
        return false;
    }
    let ghost tail = w@.subrange(from as int, w.len() as int);
    let mut i: usize = 0;
    while i < lower.len()
        invariant
            i <= lower.len(),
            from <= w.len(),
            lower.len() == upper.len(),
            w.len() - from == lower.len(),
            tail == w@.subrange(from as int, w.len() as int),
            forall|j: int| 0 <= j < i ==> (#[trigger] tail[j]) == lower[j] || tail[j] == upper[j],
        decreases lower.len() - i,
    {
        assert(tail[i as int] == w[from + i]);
        if w[from + i] != lower[i] && w[from + i] != upper[i] {
            return false;
        }
        i += 1;
    }
    true
}

/// The characters of `text`, which is a literal of plain letters.
fn letters(text: &str) -> (r: Vec<char>)
    ensures
        r@ == text@,
{
    chars_of(text)
}

fn special(w: &Vec<char>, from: usize) -> (r: bool)
    requires
        from <= w.len(),
    ensures
        r == is_special(w@, from as int),
{
    proof {
        reveal_strlit("inf");
        reveal_strlit("INF");
        reveal_strlit("infinity");
        reveal_strlit("INFINITY");
        reveal_strlit("nan");
        reveal_strlit("NAN");
        assert("inf"@ =~= seq!['i', 'n', 'f']);
        assert("INF"@ =~= seq!['I', 'N', 'F']);
        assert("infinity"@ =~= seq!['i', 'n', 'f', 'i', 'n', 'i', 't', 'y']);
        assert("INFINITY"@ =~= seq!['I', 'N', 'F', 'I', 'N', 'I', 'T', 'Y']);
        assert("nan"@ =~= seq!['n', 'a', 'n']);
        assert("NAN"@ =~= seq!['N', 'A', 'N']);
    }
    spelled(w, from, &letters("inf"), &letters("INF")) || spelled(
        w,
        from,
        &letters("infinity"),
        &letters("INFINITY"),
    ) || spelled(w, from, &letters("nan"), &letters("NAN"))
}

fn exponent(w: &Vec<char>, from: usize) -> (r: bool)
    requires
        from <= w.len(),
    ensures
        r == is_exponent(w@, from as int),
{
    let start: usize = if from < w.len() && (w[from] == '+' || w[from] == '-') {
        from + 1
    } else {
        from
    };
    let end: usize = skip_digits(w, start);
    end > start && end == w.len()
}

fn decimal(w: &Vec<char>, from: usize) -> (r: bool)
    requires
        from <= w.len(),
    ensures
        r == is_decimal(w@, from as int),
{
    let whole_end: usize = skip_digits(w, from);
    let pointed = whole_end < w.len() && w[whole_end] == '.';
    let end: usize = if pointed {
        skip_digits(w, whole_end + 1)
    } else {
        whole_end
    };
    let digits: usize = if pointed {
        end - from - 1
    } else {
        end - from
    };
    if digits == 0 {
        return false;
    }
    if end == w.len() {
        return true;
    }
    (w[end] == 'e' || w[end] == 'E') && exponent(w, end + 1)
}

/// Whether the characters `w` make a number literal.
pub fn is_numeric(w: &Vec<char>) -> (r: bool)
    ensures
        r == is_number(w@),
{
    let from: usize = if w.len() > 0 && (w[0] == '+' || w[0] == '-') {
        1
    } else {
        0
    };
    from < w.len() && (decimal(w, from) || special(w, from))
}

/// Whether `word` is a number literal.
pub fn is_string_numeric(word: &str) -> (r: bool)
    ensures
        r == is_number(word@),
{
    let w = chars_of(word);
    is_numeric(&w)
}

} // verus!
