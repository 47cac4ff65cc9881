//! Values: numbers, texts and arrays, how they compare and what their size
//! is.

use crate::number::{index_of, relation, relation_of, to_index, Relation};
use crate::text::chars_of;
use vstd::prelude::*;
use vstd::utf8::encode_utf8;

verus! {

/// What a [`StackType`] stands for: a number by its bits, a text by its
/// characters, an array by its elements.
pub enum Value {
    Float(u64),
    Text(Seq<char>),
    Array(Seq<Value>),
}

/// A value of the language, as the operand stack and the bindings hold it.
/// `Float` carries the bit pattern of an IEEE 754 double.
#[derive(Debug)]
pub enum StackType {
    Float(u64),
    String(String),
    Array(Vec<StackType>),
}

/// The value that a stack item stands for.
pub open spec fn value_of(item: StackType) -> Value
    decreases item, 0nat,
{
    match item {
        StackType::Float(bits) => Value::Float(bits),
        StackType::String(text) => Value::Text(text@),
        StackType::Array(items) => Value::Array(values_of(items@)),
    }
}

/// The values that a sequence of stack items stands for, one for one.
pub open spec fn values_of(items: Seq<StackType>) -> Seq<Value>
    decreases items, 1nat,
{
    if items.len() == 0 {
        Seq::empty()
    } else {
        values_of(items.drop_last()).push(value_of(items.last()))
    }
}

impl View for StackType {
    type V = Value;

    open spec fn view(&self) -> Value {
        value_of(*self)
    }
}

/// `values_of` keeps the length and maps each element to its value.
pub proof fn lemma_values_of(items: Seq<StackType>)
    ensures
        values_of(items).len() == items.len(),
        forall|i: int| 0 <= i < items.len() ==> (#[trigger] values_of(items)[i]) == items[i]@,
    decreases items.len(),
{
    if items.len() > 0 {
        lemma_values_of(items.drop_last());
    }
}

/// Where a kind of value stands when two values of different kinds are
/// ordered: numbers before texts before arrays.
pub open spec fn rank(v: Value) -> int {
    match v {
        Value::Float(_) => 0,
        Value::Text(_) => 1,
        Value::Array(_) => 2,
    }
}

/// Two texts compared character by character from position `i` on; where one
/// is a prefix of the other, the shorter one is less.
pub open spec fn text_relation(s: Seq<char>, t: Seq<char>, i: int) -> Relation
    decreases s.len() - i,
{
    if i < 0 {
        Relation::Unordered
    } else if i >= s.len() && i >= t.len() {
        Relation::Equal
    } else if i >= s.len() {
        Relation::Less
    } else if i >= t.len() {
        Relation::Greater
    } else if (s[i] as u32) < (t[i] as u32) {
        Relation::Less
    } else if (s[i] as u32) > (t[i] as u32) {
        Relation::Greater
    } else {
        text_relation(s, t, i + 1)
    }
}

/// How two values stand to each other. Numbers compare as IEEE 754 doubles,
/// texts and arrays element by element, and values of different kinds by
/// their kind.
pub open spec fn value_relation(a: Value, b: Value) -> Relation
    decreases a, 0nat,
{
    match (a, b) {
        (Value::Float(x), Value::Float(y)) => relation_of(x, y),
        (Value::Text(s), Value::Text(t)) => text_relation(s, t, 0),
        (Value::Array(s), Value::Array(t)) => items_relation(s, t, 0),
        _ => if rank(a) < rank(b) {
            Relation::Less
        } else {
            Relation::Greater
        },
    }
}

/// Two arrays compared element by element from position `i` on: the first
/// pair that is not equal decides, and a prefix is less.
pub open spec fn items_relation(s: Seq<Value>, t: Seq<Value>, i: int) -> Relation
    decreases s, s.len() - i,
{
    if i < 0 {
        Relation::Unordered
    } else if i >= s.len() && i >= t.len() {
        Relation::Equal
    } else if i >= s.len() {
        Relation::Less
    } else if i >= t.len() {
        Relation::Greater
    } else if value_relation(s[i], t[i]) != Relation::Equal {
        value_relation(s[i], t[i])
    } else {
        items_relation(s, t, i + 1)
    }
}

/// The size of a value: the bytes of a text in UTF-8, the elements of an
/// array, the whole part of a number.
pub open spec fn size_of(v: Value) -> nat {
    match v {
        Value::Float(bits) => index_of(bits) as nat,
        Value::Text(text) => encode_utf8(text).len(),
        Value::Array(items) => items.len(),
    }
}

impl StackType {
    /// A copy that stands for the same value.
    pub fn copy(&self) -> (r: StackType)
        ensures
            r@ == self@,
        decreases self, 0nat,
    {
        match self {
            StackType::Float(bits) => StackType::Float(*bits),
            StackType::String(text) => StackType::String(text.clone()),
            StackType::Array(items) => {
                let out = copy_items(items);
                StackType::Array(out)
            },
        }
    }

    /// How `self` stands to `other`.
    pub fn compare(&self, other: &StackType) -> (r: Relation)
        ensures
            r == value_relation(self@, other@),
        decreases self, 0nat,
    {
        match (self, other) {
            (StackType::Float(x), StackType::Float(y)) => relation(*x, *y),
            (StackType::String(s), StackType::String(t)) => compare_texts(s.as_str(), t.as_str()),
            (StackType::Array(s), StackType::Array(t)) => {
                compare_items(s, t)
            },
            (StackType::Float(_), _) => Relation::Less,
            (StackType::String(_), StackType::Float(_)) => Relation::Greater,
            (StackType::String(_), _) => Relation::Less,
            (StackType::Array(_), _) => Relation::Greater,
        }
    }

    /// The size of the value: see [`size_of`].
    pub fn get_size(&self) -> (r: u64)
        ensures
            r == size_of(self@),
    {
        match self {
            StackType::Float(bits) => to_index(*bits),
            StackType::String(text) => text.as_str().as_bytes().len() as u64,
            StackType::Array(items) => {
                proof {
                    lemma_values_of(items@);
                }
                items.len() as u64
            },
        }
    }
}

/// A copy of each element, in order.
pub fn copy_items(items: &Vec<StackType>) -> (out: Vec<StackType>)
    ensures
        values_of(out@) == values_of(items@),
    decreases items, 1nat,
{
    let mut out: Vec<StackType> = Vec::new();
    let mut i: usize = 0;
    while i < items.len()
        invariant
            i <= items.len(),
            out.len() == i,
            forall|j: int| 0 <= j < i ==> out[j]@ == items[j]@,
        decreases items.len() - i,
    {
        out.push(items[i].copy());
        i += 1;
    }
    proof {
        lemma_values_of(out@);
        lemma_values_of(items@);
        assert(values_of(out@) =~= values_of(items@));
    }
    out
}

fn compare_texts(s: &str, t: &str) -> (r: Relation)
    ensures
        r == text_relation(s@, t@, 0),
{
    let a = chars_of(s);
    let b = chars_of(t);
    let mut i: usize = 0;
    while i < a.len() && i < b.len()
        invariant
            a@ == s@,
            b@ == t@,
            i <= a.len(),
            i <= b.len(),
            text_relation(s@, t@, 0) == text_relation(s@, t@, i as int),
        decreases a.len() - i,
    {
        if (a[i] as u32) < (b[i] as u32) {
            return Relation::Less;
        }
        if (a[i] as u32) > (b[i] as u32) {
            return Relation::Greater;
        }
        i += 1;
    }
    if i >= a.len() && i >= b.len() {
        Relation::Equal
    } else if i >= a.len() {
        Relation::Less
    } else {
        Relation::Greater
    }
}

fn compare_items(s: &Vec<StackType>, t: &Vec<StackType>) -> (r: Relation)
    ensures
        r == items_relation(values_of(s@), values_of(t@), 0),
    decreases s, 1nat,
{
    let ghost vs = values_of(s@);
    let ghost vt = values_of(t@);
    proof {
        lemma_values_of(s@);
        lemma_values_of(t@);
    }
    let mut i: usize = 0;
    while i < s.len() && i < t.len()
        invariant
            vs == values_of(s@),
            vt == values_of(t@),
            vs.len() == s.len(),
            vt.len() == t.len(),
            forall|j: int| 0 <= j < s.len() ==> (#[trigger] vs[j]) == s@[j]@,
            forall|j: int| 0 <= j < t.len() ==> (#[trigger] vt[j]) == t@[j]@,
            i <= s.len(),
            i <= t.len(),
            items_relation(vs, vt, 0) == items_relation(vs, vt, i as int),
        decreases s.len() - i,
    {
        let r = s[i].compare(&t[i]);
        if r != Relation::Equal {
            return r;
        }
        i += 1;
    }
    if i >= s.len() && i >= t.len() {
        Relation::Equal
    } else if i >= s.len() {
        Relation::Less
    } else {
        Relation::Greater
    }
}

} // verus!
