//! Inline blocks of text, and the matching of their delimiters.
//!
//! An instruction may open several blocks, each with `<<` and a delimiter.
//! The lines that end them come later and close the open delimiters oldest
//! first, whatever stands between them.

use std::collections::VecDeque;
use vstd::prelude::*;
use crate::error::{Error, ErrorView, InstructionFamily, generic_error};
use crate::span::{Span, SpannedString, SpannedText, empty_text_at, option_view, result_view, views};
use crate::token::{Rule, Token, unexpected, walk};

verus! {

/// A terminator line closes a delimiter when it is the delimiter followed
/// by one newline, character for character.
pub open spec fn closes(delimiter: Seq<char>, terminator: Seq<char>) -> bool {
    terminator == delimiter.push('\n')
}

/// What closing with `terminator` gives while `pending` are open, oldest
/// first: the delimiter that it closed, or the failure.
pub open spec fn close_outcome(
    instruction: InstructionFamily,
    pending: Seq<SpannedText>,
    terminator: SpannedText,
) -> Result<SpannedText, ErrorView> {
    if pending.len() == 0 {
        Err(ErrorView::UnmatchedHeredocTerminator { terminator })
    } else if closes(pending[0].content, terminator.content) {
        Ok(pending[0])
    } else {
        Err(ErrorView::HeredocTerminatorMismatch { instruction, delimiter: pending[0], terminator })
    }
}

/// The delimiters still open after one terminator was taken.
pub open spec fn after_close(pending: Seq<SpannedText>) -> Seq<SpannedText> {
    if pending.len() == 0 {
        pending
    } else {
        pending.skip(1)
    }
}

/// What the end of the instruction gives while `pending` are open.
pub open spec fn finish_outcome(pending: Seq<SpannedText>) -> Result<(), ErrorView> {
    if pending.len() == 0 {
        Ok(())
    } else {
        Err(ErrorView::UnmatchedHeredocDelimiter { delimiter: pending[0] })
    }
}

/// Taking `terminators` one after another closes every delimiter of
/// `pending` and leaves none open.
pub open spec fn closes_all(
    instruction: InstructionFamily,
    pending: Seq<SpannedText>,
    terminators: Seq<SpannedText>,
) -> bool
    decreases terminators.len(),
{
    if terminators.len() == 0 {
        finish_outcome(pending) is Ok
    } else {
        &&& close_outcome(instruction, pending, terminators[0]) is Ok
        &&& closes_all(instruction, after_close(pending), terminators.skip(1))
    }
}

/// The queue of delimiters that one instruction has opened and not yet
/// closed.
#[derive(Debug)]
pub struct HeredocMatcher {
    instruction: InstructionFamily,
    pending: VecDeque<SpannedString>,
}

impl HeredocMatcher {
    /// The open delimiters, oldest first.
    pub closed spec fn pending(&self) -> Seq<SpannedText> {
        views(self.pending@)
    }

    /// The family of the instruction that is being assembled.
    pub closed spec fn instruction(&self) -> InstructionFamily {
        self.instruction
    }

    pub fn new(instruction: InstructionFamily) -> (matcher: HeredocMatcher)
        ensures
            matcher.pending() == Seq::<SpannedText>::empty(),
            matcher.instruction() == instruction,
    {
        let matcher = HeredocMatcher { instruction, pending: VecDeque::new() };
        proof {
            assert(matcher.pending() =~= Seq::<SpannedText>::empty());
        }
        matcher
    }

    /// Whether any delimiter is open.
    pub fn is_open(&self) -> (open: bool)
        ensures
            open == (self.pending().len() > 0),
    {
        self.pending.len() > 0
    }

    /// Takes a delimiter as the newest open one.
    pub fn open(&mut self, delimiter: SpannedString)
        ensures
            final(self).pending() == old(self).pending().push(delimiter@),
            final(self).instruction() == old(self).instruction(),
    {
        self.pending.push_back(delimiter);
        proof {
            assert(final(self).pending() =~= old(self).pending().push(delimiter@));
        }
    }

    /// Takes a terminator line. It closes the oldest open delimiter and
    /// must be that delimiter followed by a newline; the delimiter is
    /// handed back. The oldest delimiter leaves the queue either way.
    pub fn close(&mut self, terminator: &SpannedString) -> (result: Result<SpannedString, Error>)
        ensures
            result_view(result) == close_outcome(
                old(self).instruction(),
                old(self).pending(),
                terminator@,
            ),
            final(self).pending() == after_close(old(self).pending()),
            final(self).instruction() == old(self).instruction(),
    {
        match self.pending.pop_front() {
            None => Err(Error::UnmatchedHeredocTerminator { terminator: terminator.clone() }),
            Some(delimiter) => {
                proof {
                    assert(final(self).pending() =~= old(self).pending().skip(1));
                    assert(old(self).pending()[0] == delimiter@);
                }
                let mut expected = delimiter.content.clone();
                expected.push('\n');
                if expected == terminator.content {
                    Ok(delimiter)
                } else {
                    Err(
                        Error::HeredocTerminatorMismatch {
                            instruction: self.instruction,
                            delimiter,
                            terminator: terminator.clone(),
                        },
                    )
                }
            },
        }
    }

    /// Ends the instruction: no delimiter may still be open.
    pub fn finish(&self) -> (result: Result<(), Error>)
        ensures
            match result {
                Ok(_) => finish_outcome(self.pending()) is Ok,
                Err(error) => finish_outcome(self.pending()) == Err::<(), ErrorView>(error@),
            },
    {
        if self.pending.len() == 0 {
            Ok(())
        } else {
            let oldest = &self.pending[0];
            Err(Error::UnmatchedHeredocDelimiter { delimiter: oldest.clone() })
        }
    }
}

/// In a queue, the terminators close every delimiter exactly when there is
/// one for each and each closes the delimiter at its own place: the line
/// for the delimiter opened first comes first, whatever else stands between
/// the lines.
pub proof fn lemma_closes_in_opening_order(
    instruction: InstructionFamily,
    pending: Seq<SpannedText>,
    terminators: Seq<SpannedText>,
)
    ensures
        closes_all(instruction, pending, terminators) <==> {
            &&& pending.len() == terminators.len()
            &&& forall|i: int|
                0 <= i < pending.len() ==> closes(
                    (#[trigger] pending[i]).content,
                    terminators[i].content,
                )
        },
    decreases terminators.len(),
{
    if terminators.len() > 0 {
        let rest = terminators.skip(1);
        let left = after_close(pending);
        lemma_closes_in_opening_order(instruction, left, rest);
        if closes_all(instruction, pending, terminators) {
            assert forall|i: int| 0 <= i < pending.len() implies closes(
                (#[trigger] pending[i]).content,
                terminators[i].content,
            ) by {
                if i > 0 {
                    assert(left[i - 1] == pending[i]);
                    assert(rest[i - 1] == terminators[i]);
                }
            }
        }
        if pending.len() == terminators.len() && (forall|i: int|
            0 <= i < pending.len() ==> closes(
                (#[trigger] pending[i]).content,
                terminators[i].content,
            )) {
            assert(closes(pending[0].content, terminators[0].content));
            assert forall|i: int| 0 <= i < left.len() implies closes(
                (#[trigger] left[i]).content,
                rest[i].content,
            ) by {
                assert(left[i] == pending[i + 1]);
                assert(rest[i] == terminators[i + 1]);
            }
        }
    }
}

/// Terminators that would close the delimiters in the order of opening do
/// not close them when they come in the opposite order, unless the
/// delimiters read the same in both directions.
pub proof fn lemma_reversed_terminators_fail(
    instruction: InstructionFamily,
    pending: Seq<SpannedText>,
    terminators: Seq<SpannedText>,
)
    requires
        closes_all(instruction, pending, terminators),
        exists|i: int|
            0 <= i < pending.len() && (#[trigger] pending[i]).content != pending[pending.len() - 1
                - i].content,
    ensures
        !closes_all(instruction, pending, terminators.reverse()),
{
    lemma_closes_in_opening_order(instruction, pending, terminators);
    lemma_closes_in_opening_order(instruction, pending, terminators.reverse());
    if closes_all(instruction, pending, terminators.reverse()) {
        let n = pending.len() as int;
        let i = choose|i: int|
            0 <= i < pending.len() && (#[trigger] pending[i]).content != pending[pending.len() - 1
                - i].content;
        let j = n - 1 - i;
        assert(closes(pending[i].content, terminators.reverse()[i].content));
        assert(closes(pending[j].content, terminators[j].content));
        assert(terminators.reverse()[i] == terminators[j]);
        assert(pending[i].content.push('\n').drop_last() == pending[i].content);
        assert(pending[j].content.push('\n').drop_last() == pending[j].content);
    }
}

/// While a delimiter is open, a terminator closes it only if it is exact.
/// Any other line, be it the delimiter in another case or the delimiter
/// without its newline, is a mismatch that names the instruction, the
/// oldest open delimiter and the line.
pub proof fn lemma_terminator_exact(
    instruction: InstructionFamily,
    pending: Seq<SpannedText>,
    terminator: SpannedText,
)
    requires
        pending.len() > 0,
    ensures
        close_outcome(instruction, pending, terminator) is Ok <==> terminator.content
            == pending[0].content.push('\n'),
        terminator.content != pending[0].content.push('\n') ==> close_outcome(
            instruction,
            pending,
            terminator,
        ) == Err::<SpannedText, ErrorView>(
            ErrorView::HeredocTerminatorMismatch { instruction, delimiter: pending[0], terminator },
        ),
        terminator.content == pending[0].content ==> close_outcome(
            instruction,
            pending,
            terminator,
        ) is Err,
{
    assert(pending[0].content.push('\n').len() == pending[0].content.len() + 1);
}

/// An inline block of text: the delimiter that opened it, the line that
/// ended it, the text between them, and the range of the whole.
#[derive(Debug, PartialEq, Eq, Clone)]
pub struct Heredoc {
    pub span: Span,
    pub delimiter: SpannedString,
    pub terminator: SpannedString,
    pub body: SpannedString,
}

/// What a [`Heredoc`] is to a contract.
pub struct HeredocView {
    pub span: Span,
    pub delimiter: SpannedText,
    pub terminator: SpannedText,
    pub body: SpannedText,
}

impl View for Heredoc {
    type V = HeredocView;

    open spec fn view(&self) -> HeredocView {
        HeredocView {
            span: self.span,
            delimiter: self.delimiter@,
            terminator: self.terminator@,
            body: self.body@,
        }
    }
}

impl HeredocView {
    /// Every part lies inside the range of the whole.
    pub open spec fn spans_contained(self) -> bool {
        &&& self.delimiter.span.within(self.span)
        &&& self.terminator.span.within(self.span)
        &&& self.body.span.within(self.span)
    }
}

/// The text of a block: the body that came before its terminator, or, when
/// none came, the empty text at the place where the terminator starts.
pub open spec fn block_body(body: Option<SpannedText>, terminator: Span) -> SpannedText {
    match body {
        Some(text) => text,
        None => empty_text_at(terminator),
    }
}

/// Where the assembly of one block stands: the delimiters still open, the
/// body that waits for its terminator, and the block once it is closed.
pub struct HeredocState {
    pub pending: Seq<SpannedText>,
    pub body: Option<SpannedText>,
    pub resolved: Option<HeredocView>,
}

/// One child of a block token, taken in state `state`. A block has one
/// delimiter; a body is expected only while the delimiter is open and no
/// other body waits; a terminator closes the delimiter and completes the
/// block.
pub open spec fn heredoc_step(
    span: Span,
    instruction: InstructionFamily,
    state: HeredocState,
    token: Token,
) -> Result<HeredocState, ErrorView> {
    match token.rule {
        Rule::HeredocDelimiter => if state.pending.len() > 0 || state.resolved is Some {
            Err(unexpected(token))
        } else {
            Ok(HeredocState { pending: state.pending.push(token.decoded()), ..state })
        },
        Rule::HeredocBody => if state.pending.len() == 0 || state.body is Some {
            Err(unexpected(token))
        } else {
            Ok(HeredocState { body: Some(token.decoded()), ..state })
        },
        Rule::HeredocTerminator => match close_outcome(
            instruction,
            state.pending,
            token.decoded(),
        ) {
            Err(error) => Err(error),
            Ok(delimiter) => Ok(
                HeredocState {
                    pending: after_close(state.pending),
                    body: None,
                    resolved: Some(
                        HeredocView {
                            span,
                            delimiter,
                            terminator: token.decoded(),
                            body: block_body(state.body, token.span),
                        },
                    ),
                },
            ),
        },
        _ => Err(unexpected(token)),
    }
}

/// `heredoc_step` for the block with range `span`, as a step of `walk`.
pub open spec fn heredoc_stepper(span: Span, instruction: InstructionFamily) -> spec_fn(
    HeredocState,
    Token,
) -> Result<HeredocState, ErrorView> {
    |state: HeredocState, token: Token| heredoc_step(span, instruction, state, token)
}

impl Heredoc {
    /// What assembling the block token `record` gives: its children are
    /// walked from the empty state, then no delimiter may be left open and
    /// a block must have been completed.
    pub open spec fn outcome(record: Token, instruction: InstructionFamily) -> Result<
        HeredocView,
        ErrorView,
    > {
        let start = HeredocState { pending: Seq::empty(), body: None, resolved: None };
        match walk(start, record.children@, heredoc_stepper(record.span, instruction)) {
            Err(error) => Err(error),
            Ok(state) => match finish_outcome(state.pending) {
                Err(error) => Err(error),
                Ok(_) => match state.resolved {
                    None => Err(generic_error("missing heredoc")),
                    Some(block) => Ok(block),
                },
            },
        }
    }

    /// Takes the body that waits for a terminator at `terminator`, or the
    /// empty body where none waits.
    pub fn take_body(body: Option<SpannedString>, terminator: Span) -> (text: SpannedString)
        ensures
            text@ == block_body(option_view(body), terminator),
    {
        match body {
            Some(text) => text,
            None => SpannedString::empty_at(terminator),
        }
    }

    /// Assembles the inline block of an instruction of family `instruction`
    /// from its token. In a tree with consistent ranges, every part of the
    /// block lies inside the block.
    pub fn from_record(record: &Token, instruction: InstructionFamily) -> (result: Result<
        Heredoc,
        Error,
    >)
        ensures
            result_view(result) == Heredoc::outcome(*record, instruction),
            match result {
                Ok(block) => block.span == record.span && (record.well_formed()
                    ==> block@.spans_contained()),
                Err(_) => true,
            },
    {
        let mut matcher = HeredocMatcher::new(instruction);
        let mut body: Option<SpannedString> = None;
        let mut resolved: Option<Heredoc> = None;
        let ghost step = heredoc_stepper(record.span, instruction);
        let ghost start = HeredocState { pending: Seq::empty(), body: None, resolved: None };
        let n: usize = record.children.len();
        let mut i: usize = 0;
        proof {
            assert(record.children@.skip(0) == record.children@);
        }
        while i < n
            invariant
                i <= n,
                n == record.children@.len(),
                matcher.instruction() == instruction,
                step == heredoc_stepper(record.span, instruction),
                start == (HeredocState { pending: Seq::empty(), body: None, resolved: None }),
                walk(start, record.children@, step) == walk(
                    HeredocState {
                        pending: matcher.pending(),
                        body: option_view(body),
                        resolved: option_view(resolved),
                    },
                    record.children@.skip(i as int),
                    step,
                ),
                record.well_formed() ==> (match body {
                    Some(text) => text.span.within(record.span),
                    None => true,
                }),
                record.well_formed() ==> forall|j: int|
                    0 <= j < matcher.pending().len() ==> (#[trigger] matcher.pending()[j]).span.within(
                        record.span,
                    ),
                match resolved {
                    Some(block) => block.span == record.span && (record.well_formed()
                        ==> block@.spans_contained()),
                    None => true,
                },
            decreases n - i,
        {
            let child = &record.children[i];
            proof {
                let rest = record.children@.skip(i as int);
                assert(rest[0] == *child);
                assert(rest.skip(1) == record.children@.skip(i + 1));
                assert(*child == record.children@[i as int]);
                assert(record.well_formed() ==> child.well_formed() && child.span.within(
                    record.span,
                ));
            }
            match child.rule {
                Rule::HeredocDelimiter => {
                    if matcher.is_open() || resolved.is_some() {
                        return Err(child.unexpected());
                    }
                    matcher.open(child.decode());
                },
                Rule::HeredocBody => {
                    if !matcher.is_open() || body.is_some() {
                        return Err(child.unexpected());
                    }
                    body = Some(child.decode());
                },
                Rule::HeredocTerminator => {
                    let terminator = child.decode();
                    match matcher.close(&terminator) {
                        Err(error) => {
                            return Err(error);
                        },
                        Ok(delimiter) => {
                            let text = Heredoc::take_body(body, child.span);
                            body = None;
                            resolved = Some(
                                Heredoc { span: record.span, delimiter, terminator, body: text },
                            );
                        },
                    }
                },
                _ => {
                    return Err(child.unexpected());
                },
            }
            i += 1;
        }
        match matcher.finish() {
            Err(error) => Err(error),
            Ok(_) => match resolved {
                None => Err(Error::generic("missing heredoc")),
                Some(block) => Ok(block),
            },
        }
    }
}

} // verus!
