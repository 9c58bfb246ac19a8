//! Shell text that may be broken over several lines, with comment lines
//! between the pieces.

use vstd::prelude::*;
use crate::error::{Error, ErrorView};
use crate::span::{Span, lemma_views_push, result_view, views};
use crate::token::{Rule, Token, unexpected, walk};

verus! {

/// Whether a fragment is text of the command or a comment between its lines.
#[derive(Debug, PartialEq, Eq, Clone, Copy, Structural)]
pub enum FragmentKind {
    Literal,
    Comment,
}

/// One piece of a breakable string, with the range it was read from.
#[derive(Debug, PartialEq, Eq, Clone)]
pub struct Fragment {
    pub span: Span,
    pub kind: FragmentKind,
    pub text: String,
}

/// What a [`Fragment`] is to a contract.
pub struct FragmentView {
    pub span: Span,
    pub kind: FragmentKind,
    pub text: Seq<char>,
}

impl View for Fragment {
    type V = FragmentView;

    open spec fn view(&self) -> FragmentView {
        FragmentView { span: self.span, kind: self.kind, text: self.text@ }
    }
}

/// The pieces of a shell expression in source order, and the range of the
/// whole expression.
#[derive(Debug, PartialEq, Eq, Clone)]
pub struct BreakableString {
    pub span: Span,
    pub fragments: Vec<Fragment>,
}

/// What a [`BreakableString`] is to a contract.
pub struct BreakableView {
    pub span: Span,
    pub fragments: Seq<FragmentView>,
}

impl View for BreakableString {
    type V = BreakableView;

    open spec fn view(&self) -> BreakableView {
        BreakableView { span: self.span, fragments: views(self.fragments@) }
    }
}

/// What a fragment adds to the effective text: its text if it is literal,
/// nothing if it is a comment.
pub open spec fn contribution(fragment: FragmentView) -> Seq<char> {
    match fragment.kind {
        FragmentKind::Literal => fragment.text,
        FragmentKind::Comment => Seq::empty(),
    }
}

/// The texts of the literal fragments, one after another.
pub open spec fn literal_text(fragments: Seq<FragmentView>) -> Seq<char>
    decreases fragments.len(),
{
    if fragments.len() == 0 {
        Seq::empty()
    } else {
        literal_text(fragments.drop_last()) + contribution(fragments.last())
    }
}

impl BreakableView {
    /// The command as the shell will see it: the literal fragments joined,
    /// with nothing added and the comments left out.
    pub open spec fn effective_text(self) -> Seq<char> {
        literal_text(self.fragments)
    }

    /// This value with one more fragment at its end.
    pub open spec fn with(self, fragment: FragmentView) -> BreakableView {
        BreakableView { span: self.span, fragments: self.fragments.push(fragment) }
    }

    /// The fragments lie inside the expression and follow one another in
    /// source order without overlap.
    pub open spec fn well_formed(self) -> bool {
        &&& forall|i: int|
            0 <= i < self.fragments.len() ==> (#[trigger] self.fragments[i]).span.within(self.span)
        &&& forall|i: int, j: int|
            0 <= i < j < self.fragments.len() ==> (#[trigger] self.fragments[i]).span.precedes(
                (#[trigger] self.fragments[j]).span,
            )
    }

    /// A fragment at `span` may come next: it lies inside the expression
    /// and after every fragment that is there.
    pub open spec fn accepts(self, span: Span) -> bool {
        &&& span.within(self.span)
        &&& forall|i: int|
            0 <= i < self.fragments.len() ==> (#[trigger] self.fragments[i]).span.precedes(span)
    }
}

/// One child of a breakable token: literal text and comments become
/// fragments, anything else is not expected.
pub open spec fn breakable_step(fragments: Seq<FragmentView>, token: Token) -> Result<
    Seq<FragmentView>,
    ErrorView,
> {
    match token.rule {
        Rule::AnyContent => Ok(
            fragments.push(
                FragmentView { span: token.span, kind: FragmentKind::Literal, text: token.text@ },
            ),
        ),
        Rule::Comment => Ok(
            fragments.push(
                FragmentView { span: token.span, kind: FragmentKind::Comment, text: token.text@ },
            ),
        ),
        _ => Err(unexpected(token)),
    }
}

/// `breakable_step` as a step of `walk`.
pub open spec fn breakable_stepper() -> spec_fn(Seq<FragmentView>, Token) -> Result<
    Seq<FragmentView>,
    ErrorView,
> {
    |fragments: Seq<FragmentView>, token: Token| breakable_step(fragments, token)
}

/// The fragment that a literal or comment token becomes.
pub open spec fn fragment_of(token: Token) -> FragmentView {
    FragmentView {
        span: token.span,
        kind: if token.rule == Rule::Comment {
            FragmentKind::Comment
        } else {
            FragmentKind::Literal
        },
        text: token.text@,
    }
}

/// A child that a breakable token may hold.
pub open spec fn is_piece(token: Token) -> bool {
    token.rule == Rule::AnyContent || token.rule == Rule::Comment
}

/// Walking literal and comment tokens adds one fragment for each, in their
/// order, with the range and the text of the token.
pub proof fn lemma_fragments_follow_tokens(fragments: Seq<FragmentView>, tokens: Seq<Token>)
    requires
        forall|i: int| 0 <= i < tokens.len() ==> is_piece(#[trigger] tokens[i]),
    ensures
        walk(fragments, tokens, breakable_stepper()) == Ok::<Seq<FragmentView>, ErrorView>(
            fragments + tokens.map_values(|token: Token| fragment_of(token)),
        ),
    decreases tokens.len(),
{
    let added = tokens.map_values(|token: Token| fragment_of(token));
    if tokens.len() == 0 {
        assert(fragments + added == fragments);
    } else {
        assert(is_piece(tokens[0]));
        let rest = tokens.skip(1);
        assert forall|i: int| 0 <= i < rest.len() implies is_piece(#[trigger] rest[i]) by {
            assert(rest[i] == tokens[i + 1]);
        }
        let next = fragments.push(fragment_of(tokens[0]));
        lemma_fragments_follow_tokens(next, rest);
        assert(next + rest.map_values(|token: Token| fragment_of(token)) == fragments + added);
    }
}

/// A breakable token that holds only literal text and comments is
/// assembled, and its fragments are its children, one for one. A single
/// unbroken line gives the one literal fragment.
pub proof fn lemma_breakable_outcome(record: Token)
    requires
        forall|i: int|
            0 <= i < record.children@.len() ==> is_piece(#[trigger] record.children@[i]),
    ensures
        BreakableString::outcome(record) == Ok::<BreakableView, ErrorView>(
            BreakableView {
                span: record.span,
                fragments: record.children@.map_values(|token: Token| fragment_of(token)),
            },
        ),
{
    let none = Seq::<FragmentView>::empty();
    lemma_fragments_follow_tokens(none, record.children@);
    assert(none + record.children@.map_values(|token: Token| fragment_of(token))
        == record.children@.map_values(|token: Token| fragment_of(token)));
}

/// The effective text of fragments joined end to end is their effective
/// texts joined, so that a comment anywhere among them adds nothing.
pub proof fn lemma_literal_text_concat(first: Seq<FragmentView>, second: Seq<FragmentView>)
    ensures
        literal_text(first + second) == literal_text(first) + literal_text(second),
    decreases second.len(),
{
    if second.len() == 0 {
        assert(first + second == first);
        assert(literal_text(first) + literal_text(second) == literal_text(first));
    } else {
        let all = first + second;
        assert(all.drop_last() == first + second.drop_last());
        assert(all.last() == second.last());
        lemma_literal_text_concat(first, second.drop_last());
        assert(literal_text(first) + literal_text(second.drop_last()) + contribution(second.last())
            == literal_text(first) + (literal_text(second.drop_last()) + contribution(
            second.last(),
        )));
    }
}

impl BreakableString {
    /// What assembling the breakable token `record` gives: one fragment
    /// for each child, in order, under the range of the token.
    pub open spec fn outcome(record: Token) -> Result<BreakableView, ErrorView> {
        match walk(Seq::<FragmentView>::empty(), record.children@, breakable_stepper()) {
            Err(error) => Err(error),
            Ok(fragments) => Ok(BreakableView { span: record.span, fragments }),
        }
    }

    /// A breakable string without fragments, for the expression at `span`.
    pub fn new(span: Span) -> (out: BreakableString)
        ensures
            out@ == (BreakableView { span, fragments: Seq::empty() }),
            out@.effective_text() == Seq::<char>::empty(),
    {
        let out = BreakableString { span, fragments: Vec::new() };
        proof {
            assert(out@.fragments =~= Seq::empty());
        }
        out
    }

    fn add(self, span: Span, kind: FragmentKind, text: &str) -> (out: BreakableString)
        ensures
            out@ == self@.with(FragmentView { span, kind, text: text@ }),
    {
        let mut fragments = self.fragments;
        let fragment = Fragment { span, kind, text: text.to_owned() };
        proof {
            lemma_views_push(fragments@, fragment);
        }
        fragments.push(fragment);
        BreakableString { span: self.span, fragments }
    }

    /// Appends a literal fragment. Its text joins the effective text as it
    /// is.
    pub fn add_literal(self, span: Span, text: &str) -> (out: BreakableString)
        ensures
            out@ == self@.with(FragmentView { span, kind: FragmentKind::Literal, text: text@ }),
            out@.effective_text() == self@.effective_text() + text@,
            self@.well_formed() && self@.accepts(span) ==> out@.well_formed(),
    {
        let out = self.add(span, FragmentKind::Literal, text);
        proof {
            assert(out@.fragments.drop_last() == self@.fragments);
        }
        out
    }

    /// Appends a comment fragment. The effective text stays as it was.
    pub fn add_comment(self, span: Span, text: &str) -> (out: BreakableString)
        ensures
            out@ == self@.with(FragmentView { span, kind: FragmentKind::Comment, text: text@ }),
            out@.effective_text() == self@.effective_text(),
            self@.well_formed() && self@.accepts(span) ==> out@.well_formed(),
    {
        let out = self.add(span, FragmentKind::Comment, text);
        proof {
            assert(out@.fragments.drop_last() == self@.fragments);
            assert(self@.effective_text() + Seq::<char>::empty() == self@.effective_text());
        }
        out
    }

    /// The command as the shell will see it: see `BreakableView::effective_text`.
    pub fn effective_text(&self) -> (text: String)
        ensures
            text@ == self@.effective_text(),
    {
        let mut text = String::new();
        let n: usize = self.fragments.len();
        let mut i: usize = 0;
        while i < n
            invariant
                i <= n,
                n == self.fragments@.len(),
                text@ == literal_text(self@.fragments.take(i as int)),
            decreases n - i,
        {
            let fragment = &self.fragments[i];
            proof {
                let upto = self@.fragments.take(i + 1);
                assert(upto.drop_last() == self@.fragments.take(i as int));
                assert(upto.last() == fragment@);
            }
            match fragment.kind {
                FragmentKind::Literal => {
                    text.append(fragment.text.as_str());
                },
                FragmentKind::Comment => {
                    proof {
                        assert(text@ + Seq::<char>::empty() == text@);
                    }
                },
            }
            i += 1;
        }
        proof {
            assert(self@.fragments.take(n as int) == self@.fragments);
        }
        text
    }

    /// Assembles a breakable string from its token. In a tree with
    /// consistent ranges the result is well formed.
    pub fn from_record(record: &Token) -> (result: Result<BreakableString, Error>)
        ensures
            result_view(result) == BreakableString::outcome(*record),
            record.well_formed() ==> match result {
                Ok(out) => out@.well_formed(),
                Err(_) => true,
            },
    {
        let mut out = BreakableString::new(record.span);
        let ghost step = breakable_stepper();
        let n: usize = record.children.len();
        let mut i: usize = 0;
        proof {
            assert(record.children@.skip(0) == record.children@);
        }
        while i < n
            invariant
                i <= n,
                n == record.children@.len(),
                step == breakable_stepper(),
                out@.span == record.span,
                walk(Seq::<FragmentView>::empty(), record.children@, step) == walk(
                    out@.fragments,
                    record.children@.skip(i as int),
                    step,
                ),
                record.well_formed() ==> out@.well_formed(),
                record.well_formed() ==> forall|j: int, k: int|
                    0 <= j < out@.fragments.len() && i <= k < n ==> (
                    #[trigger] out@.fragments[j]).span.precedes(
                        (#[trigger] record.children@[k]).span,
                    ),
            decreases n - i,
        {
            let child = &record.children[i];
            proof {
                let rest = record.children@.skip(i as int);
                assert(rest[0] == *child);
                assert(rest.skip(1) == record.children@.skip(i + 1));
                assert(*child == record.children@[i as int]);
                assert(record.well_formed() ==> child.span.within(record.span));
            }
            match child.rule {
                Rule::AnyContent => {
                    out = out.add_literal(child.span, child.text.as_str());
                },
                Rule::Comment => {
                    out = out.add_comment(child.span, child.text.as_str());
                },
                _ => {
                    return Err(child.unexpected());
                },
            }
            i += 1;
        }
        Ok(out)
    }
}

} // verus!
