//! Byte ranges over the source text, and strings that remember theirs.

use vstd::prelude::*;

verus! {

/// A half-open range `[start, end)` of byte offsets into the source text.
#[derive(Debug, PartialEq, Eq, Clone, Copy, Structural)]
pub struct Span {
    pub start: usize,
    pub end: usize,
}

impl Span {
    /// A range is valid when it does not end before it starts.
    pub open spec fn valid(self) -> bool {
        self.start <= self.end
    }

    /// `self` lies wholly inside `outer`.
    pub open spec fn within(self, outer: Span) -> bool {
        outer.start <= self.start && self.end <= outer.end
    }

    /// `self` ends no later than `next` starts.
    pub open spec fn precedes(self, next: Span) -> bool {
        self.end <= next.start
    }

    pub fn new(start: usize, end: usize) -> (span: Span)
        ensures
            span.start == start,
            span.end == end,
    {
        Span { start, end }
    }

    /// The zero-width range at the start of this one.
    pub fn at_start(&self) -> (span: Span)
        ensures
            span.start == self.start,
            span.end == self.start,
    {
        Span { start: self.start, end: self.start }
    }

    /// Decides `within`.
    pub fn is_within(&self, outer: &Span) -> (inside: bool)
        ensures
            inside == self.within(*outer),
    {
        outer.start <= self.start && self.end <= outer.end
    }
}

/// A decoded string together with the range of source text it was decoded
/// from. The range covers the raw text, so it may be longer than `content`.
#[derive(Debug, PartialEq, Eq)]
pub struct SpannedString {
    pub span: Span,
    pub content: String,
}

/// What a [`SpannedString`] is to a contract: its range and its characters.
pub struct SpannedText {
    pub span: Span,
    pub content: Seq<char>,
}

impl View for SpannedString {
    type V = SpannedText;

    open spec fn view(&self) -> SpannedText {
        SpannedText { span: self.span, content: self.content@ }
    }
}

impl Clone for SpannedString {
    fn clone(&self) -> (copy: Self)
        ensures
            copy == *self,
    {
        SpannedString { span: self.span, content: self.content.clone() }
    }
}

impl SpannedString {
    /// The empty string at the zero-width range that starts `span`.
    pub fn empty_at(span: Span) -> (out: SpannedString)
        ensures
            out@ == empty_text_at(span),
    {
        SpannedString { span: span.at_start(), content: String::new() }
    }
}

/// The empty text at the zero-width range that starts `span`.
pub open spec fn empty_text_at(span: Span) -> SpannedText {
    SpannedText { span: Span { start: span.start, end: span.start }, content: Seq::empty() }
}

/// The view of what an `Option` holds, if it holds anything.
pub open spec fn option_view<T: View>(value: Option<T>) -> Option<T::V> {
    match value {
        Some(inner) => Some(inner@),
        None => None,
    }
}

/// The view of what a `Result` holds, on either side.
pub open spec fn result_view<T: View, E: View>(value: Result<T, E>) -> Result<T::V, E::V> {
    match value {
        Ok(inner) => Ok(inner@),
        Err(error) => Err(error@),
    }
}

/// The views of a sequence of values, element by element.
pub open spec fn views<T: View>(items: Seq<T>) -> Seq<T::V> {
    items.map_values(|item: T| item@)
}

/// A view of a pushed sequence is the pushed view.
pub proof fn lemma_views_push<T: View>(items: Seq<T>, item: T)
    ensures
        views(items.push(item)) == views(items).push(item@),
{
    assert(views(items.push(item)) =~= views(items).push(item@));
}

} // verus!
