//! The blocks under evaluation and what a step asks of the host, as they are
//! held in memory.

use crate::context::Context;
use crate::error::Error;
use crate::machine::{ActionView, FrameView, KindView, MemoryScope, Operator};
use crate::token::{names_of, tokens_of, Token};
use crate::types::{bindings_of, Let};
use crate::value::{values_of, StackType};
use vstd::prelude::*;

verus! {

/// What becomes of the state when a block has run to its end.
#[derive(Debug)]
pub enum FrameKind {
    /// A plain block: nothing.
    Block,
    /// A loop body that is run this many more times.
    Loop(u32),
    /// A function body: the caller's scope and bindings come back.
    Call(MemoryScope, Vec<Let>),
    /// The body of an array literal: the state around it comes back, with
    /// the array on its stack.
    Array(Context),
    /// The properties of an object literal: their names, and the properties
    /// built so far. The state around it comes back, with the object on its
    /// stack.
    Object(Vec<String>, Vec<StackType>, Context),
}

impl View for FrameKind {
    type V = KindView;

    open spec fn view(&self) -> KindView {
        match self {
            FrameKind::Block => KindView::Block,
            FrameKind::Loop(remaining) => KindView::Loop(*remaining),
            FrameKind::Call(scope, locals) => KindView::Call(*scope, bindings_of(locals@)),
            FrameKind::Array(outer) => KindView::Array(outer@),
            FrameKind::Object(names, built, outer) => KindView::Object(
                names_of(names@),
                values_of(built@),
                outer@,
            ),
        }
    }
}

/// A block that is being evaluated: its tokens and the position of the next.
#[derive(Debug)]
pub struct Frame {
    pub tokens: Vec<Token>,
    pub pos: usize,
    pub kind: FrameKind,
}

impl View for Frame {
    type V = FrameView;

    open spec fn view(&self) -> FrameView {
        FrameView { tokens: tokens_of(self.tokens@), pos: self.pos as nat, kind: self.kind@ }
    }
}

/// What a sequence of frames stands for, one for one.
pub open spec fn frames_of(frames: Seq<Frame>) -> Seq<FrameView> {
    Seq::new(frames.len(), |i: int| frames[i]@)
}

/// What a step asks of the host.
#[derive(Debug)]
pub enum Action {
    /// Nothing: take the next step.
    Continue,
    /// Nothing is left to evaluate.
    Done,
    /// The step limit was reached.
    Paused,
    /// Read this number literal and push the number.
    Literal(String),
    /// Compute the operator on the two numbers, the left one first, and push
    /// the result.
    Arith(Operator, u64, u64),
    /// Print this value.
    Print(StackType),
    /// Read the file at this path and push its contents as a text.
    ReadFile(String),
    /// Write the second text to the file at the path that the first gives.
    WriteFile(String, String),
    /// Evaluation failed. The state is that before the failing step.
    Fail(Error),
}

impl View for Action {
    type V = ActionView;

    open spec fn view(&self) -> ActionView {
        match self {
            Action::Continue => ActionView::Continue,
            Action::Done => ActionView::Done,
            Action::Paused => ActionView::Paused,
            Action::Literal(text) => ActionView::Literal(text@),
            Action::Arith(op, left, right) => ActionView::Arith(*op, *left, *right),
            Action::Print(value) => ActionView::Print(value@),
            Action::ReadFile(path) => ActionView::ReadFile(path@),
            Action::WriteFile(path, content) => ActionView::WriteFile(path@, content@),
            Action::Fail(e) => ActionView::Fail(*e),
        }
    }
}

/// What an optional frame stands for.
pub open spec fn child_of(child: Option<Frame>) -> Option<FrameView> {
    match child {
        Some(frame) => Some(frame@),
        None => None,
    }
}

/// What an optional token stands for.
pub open spec fn next_of(next: Option<&Token>) -> Option<crate::token::TokenView> {
    match next {
        Some(token) => Some(token@),
        None => None,
    }
}

} // verus!
