//! The copy instruction: flags, then either a list of paths of which the
//! last is the destination, or inline blocks as sources and one destination.

use vstd::prelude::*;
use crate::error::{Error, ErrorView, InstructionFamily, generic_error};
use crate::heredoc::{
    Heredoc, HeredocMatcher, after_close, block_body, close_outcome, closes, closes_all,
    finish_outcome, lemma_closes_in_opening_order,
};
use crate::pair::{pair_outcome, read_pair};
use crate::span::{Span, SpannedString, SpannedText, lemma_views_push, option_view, result_view, views};
use crate::token::{Rule, Token, decoded_among, unexpected, walk};

verus! {

/// A `--name=value` modifier of a copy instruction.
#[derive(Debug, PartialEq, Eq, Clone)]
pub struct CopyFlag {
    pub span: Span,
    pub name: SpannedString,
    pub value: SpannedString,
}

/// What a [`CopyFlag`] is to a contract.
pub struct CopyFlagView {
    pub span: Span,
    pub name: SpannedText,
    pub value: SpannedText,
}

impl View for CopyFlag {
    type V = CopyFlagView;

    open spec fn view(&self) -> CopyFlagView {
        CopyFlagView { span: self.span, name: self.name@, value: self.value@ }
    }
}

impl CopyFlagView {
    /// The name and the value lie inside the flag.
    pub open spec fn spans_contained(self) -> bool {
        self.name.span.within(self.span) && self.value.span.within(self.span)
    }
}

/// A source of a copy instruction: the path of a file, or the contents of
/// one, given inline.
#[derive(Debug, PartialEq, Eq, Clone)]
pub enum SourceType {
    FileName(SpannedString),
    FileContents(SpannedString),
}

/// What a [`SourceType`] is to a contract.
pub enum SourceView {
    FileName(SpannedText),
    FileContents(SpannedText),
}

impl View for SourceType {
    type V = SourceView;

    open spec fn view(&self) -> SourceView {
        match *self {
            SourceType::FileName(path) => SourceView::FileName(path@),
            SourceType::FileContents(text) => SourceView::FileContents(text@),
        }
    }
}

impl SourceView {
    /// The range of the path or of the contents.
    pub open spec fn span(self) -> Span {
        match self {
            SourceView::FileName(path) => path.span,
            SourceView::FileContents(text) => text.span,
        }
    }
}

/// A copy instruction.
#[derive(Debug, PartialEq, Eq, Clone)]
pub struct CopyInstruction {
    pub span: Span,
    pub flags: Vec<CopyFlag>,
    pub sources: Vec<SourceType>,
    pub destination: SpannedString,
}

/// What a [`CopyInstruction`] is to a contract.
pub struct CopyView {
    pub span: Span,
    pub flags: Seq<CopyFlagView>,
    pub sources: Seq<SourceView>,
    pub destination: SpannedText,
}

impl View for CopyInstruction {
    type V = CopyView;

    open spec fn view(&self) -> CopyView {
        CopyView {
            span: self.span,
            flags: views(self.flags@),
            sources: views(self.sources@),
            destination: self.destination@,
        }
    }
}

impl CopyView {
    /// Every flag with its name and value, every source and the
    /// destination lie inside the instruction.
    pub open spec fn spans_contained(self) -> bool {
        &&& forall|i: int|
            0 <= i < self.flags.len() ==> (#[trigger] self.flags[i]).span.within(self.span)
                && self.flags[i].spans_contained()
        &&& forall|i: int|
            0 <= i < self.sources.len() ==> (#[trigger] self.sources[i]).span().within(self.span)
        &&& self.destination.span.within(self.span)
    }
}

/// Each path as the name of a file.
pub open spec fn file_names(paths: Seq<SpannedText>) -> Seq<SourceView> {
    paths.map_values(|path: SpannedText| SourceView::FileName(path))
}

/// Each text as the contents of a file.
pub open spec fn file_contents(bodies: Seq<SpannedText>) -> Seq<SourceView> {
    bodies.map_values(|text: SpannedText| SourceView::FileContents(text))
}

/// The failure of a copy instruction that lacks a source or a destination.
pub open spec fn arity_error() -> ErrorView {
    generic_error("copy requires at least one source and a destination")
}

/// What the plain form has read: the flags and the paths, in source order.
pub struct StandardState {
    pub flags: Seq<CopyFlagView>,
    pub paths: Seq<SpannedText>,
}

/// One child of the plain form: a flag, a path, or a comment, which is
/// passed over.
pub open spec fn standard_step(state: StandardState, token: Token) -> Result<
    StandardState,
    ErrorView,
> {
    match token.rule {
        Rule::CopyFlag => match CopyFlag::outcome(token) {
            Err(error) => Err(error),
            Ok(flag) => Ok(StandardState { flags: state.flags.push(flag), ..state }),
        },
        Rule::CopyPathspec => Ok(
            StandardState { paths: state.paths.push(token.decoded()), ..state },
        ),
        Rule::Comment => Ok(state),
        _ => Err(unexpected(token)),
    }
}

/// `standard_step` as a step of `walk`.
pub open spec fn standard_stepper() -> spec_fn(StandardState, Token) -> Result<
    StandardState,
    ErrorView,
> {
    |state: StandardState, token: Token| standard_step(state, token)
}

/// What the children of the plain form `field` give.
pub open spec fn standard_walk(field: Token) -> Result<StandardState, ErrorView> {
    walk(
        StandardState { flags: Seq::empty(), paths: Seq::empty() },
        field.children@,
        standard_stepper(),
    )
}

/// The instruction with range `span` whose body is the plain form `field`:
/// of at least two paths the last is the destination and the others are the
/// sources, in their order.
pub open spec fn standard_outcome(span: Span, field: Token) -> Result<CopyView, ErrorView> {
    match standard_walk(field) {
        Err(error) => Err(error),
        Ok(state) => if state.paths.len() < 2 {
            Err(arity_error())
        } else {
            Ok(
                CopyView {
                    span,
                    flags: state.flags,
                    sources: file_names(state.paths.drop_last()),
                    destination: state.paths.last(),
                },
            )
        },
    }
}

/// The paths among `tokens`, decoded, in their order.
pub open spec fn paths_among(tokens: Seq<Token>) -> Seq<SpannedText> {
    decoded_among(tokens, Rule::CopyPathspec)
}

/// A child that the plain form takes without failing: a path, a comment,
/// or a flag with its name and value.
pub open spec fn standard_accepts(token: Token) -> bool {
    ||| token.rule == Rule::CopyPathspec
    ||| token.rule == Rule::Comment
    ||| token.rule == Rule::CopyFlag && CopyFlag::outcome(token) is Ok
}

/// Walking children that the plain form accepts does not fail, and adds
/// exactly the paths among them to the paths read before.
pub proof fn lemma_standard_paths(state: StandardState, tokens: Seq<Token>)
    requires
        forall|i: int| 0 <= i < tokens.len() ==> standard_accepts(#[trigger] tokens[i]),
    ensures
        walk(state, tokens, standard_stepper()) is Ok,
        walk(state, tokens, standard_stepper())->Ok_0.paths == state.paths + paths_among(tokens),
    decreases tokens.len(),
{
    if tokens.len() > 0 {
        assert(standard_accepts(tokens[0]));
        let next = standard_step(state, tokens[0])->Ok_0;
        let rest = tokens.skip(1);
        assert forall|i: int| 0 <= i < rest.len() implies standard_accepts(#[trigger] rest[i]) by {
            assert(rest[i] == tokens[i + 1]);
        }
        lemma_standard_paths(next, rest);
        assert(next.paths + paths_among(rest) == state.paths + paths_among(tokens));
    } else {
        assert(state.paths + paths_among(tokens) == state.paths);
    }
}

/// A copy instruction in the plain form, none of whose children fails,
/// needs two paths: with fewer it fails for want of a source or a
/// destination, and with two or more it succeeds, the last path is the
/// destination and the paths before it are the sources, in their order.
pub proof fn lemma_copy_arity(record: Token)
    requires
        record.children@.len() > 0,
        record.children@[0].rule == Rule::CopyStandard,
        forall|i: int|
            0 <= i < record.children@[0].children@.len() ==> standard_accepts(
                #[trigger] record.children@[0].children@[i],
            ),
    ensures
        ({
            let paths = paths_among(record.children@[0].children@);
            let outcome = CopyInstruction::outcome(record);
            if paths.len() < 2 {
                outcome == Err::<CopyView, ErrorView>(arity_error())
            } else {
                &&& outcome is Ok
                &&& outcome->Ok_0.span == record.span
                &&& outcome->Ok_0.destination == paths.last()
                &&& outcome->Ok_0.sources == file_names(paths.drop_last())
            }
        }),
{
    let start = StandardState { flags: Seq::empty(), paths: Seq::empty() };
    let tokens = record.children@[0].children@;
    lemma_standard_paths(start, tokens);
    assert(start.paths + paths_among(tokens) == paths_among(tokens));
}

/// What the inline form has read: the flags, the delimiters still open, the
/// body that waits for its terminator, the bodies of the closed blocks in
/// the order of closing, and the destination.
pub struct InlineState {
    pub flags: Seq<CopyFlagView>,
    pub pending: Seq<SpannedText>,
    pub body: Option<SpannedText>,
    pub sources: Seq<SpannedText>,
    pub destination: Option<SpannedText>,
}

/// One child of the inline form. A delimiter opens a block. A body is
/// expected only while a delimiter is open and no other body waits. A
/// terminator closes the oldest open delimiter, and the body before it
/// becomes a source. A path is the destination, the last one if there are
/// several.
pub open spec fn inline_step(state: InlineState, token: Token) -> Result<InlineState, ErrorView> {
    match token.rule {
        Rule::CopyFlag => match CopyFlag::outcome(token) {
            Err(error) => Err(error),
            Ok(flag) => Ok(InlineState { flags: state.flags.push(flag), ..state }),
        },
        Rule::CopyPathspec => Ok(InlineState { destination: Some(token.decoded()), ..state }),
        Rule::HeredocDelimiter => Ok(
            InlineState { pending: state.pending.push(token.decoded()), ..state },
        ),
        Rule::HeredocBody => if state.pending.len() == 0 || state.body is Some {
            Err(unexpected(token))
        } else {
            Ok(InlineState { body: Some(token.decoded()), ..state })
        },
        Rule::HeredocTerminator => match close_outcome(
            InstructionFamily::Copy,
            state.pending,
            token.decoded(),
        ) {
            Err(error) => Err(error),
            Ok(_) => Ok(
                InlineState {
                    pending: after_close(state.pending),
                    body: None,
                    sources: state.sources.push(block_body(state.body, token.span)),
                    ..state
                },
            ),
        },
        _ => Err(unexpected(token)),
    }
}

/// `inline_step` as a step of `walk`.
pub open spec fn inline_stepper() -> spec_fn(InlineState, Token) -> Result<InlineState, ErrorView> {
    |state: InlineState, token: Token| inline_step(state, token)
}

/// What the children of the inline form `field` give.
pub open spec fn inline_walk(field: Token) -> Result<InlineState, ErrorView> {
    walk(
        InlineState {
            flags: Seq::empty(),
            pending: Seq::empty(),
            body: None,
            sources: Seq::empty(),
            destination: None,
        },
        field.children@,
        inline_stepper(),
    )
}

/// The instruction with range `span` whose body is the inline form
/// `field`: no delimiter may be left open, and there must be a closed block
/// and a destination.
pub open spec fn inline_outcome(span: Span, field: Token) -> Result<CopyView, ErrorView> {
    match inline_walk(field) {
        Err(error) => Err(error),
        Ok(state) => match finish_outcome(state.pending) {
            Err(error) => Err(error),
            Ok(_) => match state.destination {
                None => Err(arity_error()),
                Some(destination) => if state.sources.len() == 0 {
                    Err(arity_error())
                } else {
                    Ok(
                        CopyView {
                            span,
                            flags: state.flags,
                            sources: file_contents(state.sources),
                            destination,
                        },
                    )
                },
            },
        },
    }
}

/// Each of `terminators` closes the delimiter at its own place in
/// `delimiters`.
pub open spec fn closed_in_order(delimiters: Seq<SpannedText>, terminators: Seq<SpannedText>) -> bool {
    &&& terminators.len() <= delimiters.len()
    &&& forall|i: int|
        0 <= i < terminators.len() ==> closes(
            (#[trigger] delimiters[i]).content,
            terminators[i].content,
        )
}

/// A walk of the inline form that does not fail keeps the order of
/// opening: if before it `closed` had closed the first of `opened` in
/// order and the rest were open, then the same holds after it of these
/// together with the delimiters and terminators among `tokens`.
pub proof fn lemma_inline_history(
    state: InlineState,
    tokens: Seq<Token>,
    opened: Seq<SpannedText>,
    closed: Seq<SpannedText>,
)
    requires
        closed_in_order(opened, closed),
        state.pending == opened.skip(closed.len() as int),
        walk(state, tokens, inline_stepper()) is Ok,
    ensures
        ({
            let end = walk(state, tokens, inline_stepper())->Ok_0;
            let delimiters = opened + decoded_among(tokens, Rule::HeredocDelimiter);
            let terminators = closed + decoded_among(tokens, Rule::HeredocTerminator);
            &&& closed_in_order(delimiters, terminators)
            &&& end.pending == delimiters.skip(terminators.len() as int)
            &&& end.sources.len() == state.sources.len() + decoded_among(
                tokens,
                Rule::HeredocTerminator,
            ).len()
        }),
    decreases tokens.len(),
{
    let more_opened = decoded_among(tokens, Rule::HeredocDelimiter);
    let more_closed = decoded_among(tokens, Rule::HeredocTerminator);
    if tokens.len() == 0 {
        assert(opened + more_opened == opened);
        assert(closed + more_closed == closed);
    } else {
        let token = tokens[0];
        let rest = tokens.skip(1);
        let next = inline_step(state, token)->Ok_0;
        if token.rule == Rule::HeredocDelimiter {
            let now_opened = opened.push(token.decoded());
            assert(next.pending == now_opened.skip(closed.len() as int));
            assert(closed_in_order(now_opened, closed)) by {
                assert forall|i: int| 0 <= i < closed.len() implies closes(
                    (#[trigger] now_opened[i]).content,
                    closed[i].content,
                ) by {
                    assert(now_opened[i] == opened[i]);
                }
            }
            lemma_inline_history(next, rest, now_opened, closed);
            assert(now_opened + decoded_among(rest, Rule::HeredocDelimiter) == opened
                + more_opened);
        } else if token.rule == Rule::HeredocTerminator {
            let now_closed = closed.push(token.decoded());
            assert(state.pending[0] == opened[closed.len() as int]);
            assert(next.pending == opened.skip(now_closed.len() as int));
            assert(closed_in_order(opened, now_closed)) by {
                assert forall|i: int| 0 <= i < now_closed.len() implies closes(
                    (#[trigger] opened[i]).content,
                    now_closed[i].content,
                ) by {
                    if i < closed.len() {
                        assert(now_closed[i] == closed[i]);
                    }
                }
            }
            lemma_inline_history(next, rest, opened, now_closed);
            assert(now_closed + decoded_among(rest, Rule::HeredocTerminator) == closed
                + more_closed);
        } else {
            assert(next.pending == state.pending);
            lemma_inline_history(next, rest, opened, closed);
        }
    }
}

/// In a copy instruction of the inline form that is assembled, there is
/// one terminator for each delimiter, and the terminators close the
/// delimiters in the order of opening, whatever stands between them: the
/// first terminator is the first delimiter followed by a newline, the
/// second the second, and so on. Each delimiter gives one source.
pub proof fn lemma_inline_opening_order(span: Span, field: Token)
    requires
        inline_outcome(span, field) is Ok,
    ensures
        closes_all(
            InstructionFamily::Copy,
            decoded_among(field.children@, Rule::HeredocDelimiter),
            decoded_among(field.children@, Rule::HeredocTerminator),
        ),
        inline_outcome(span, field)->Ok_0.sources.len() == decoded_among(
            field.children@,
            Rule::HeredocDelimiter,
        ).len(),
{
    let delimiters = decoded_among(field.children@, Rule::HeredocDelimiter);
    let terminators = decoded_among(field.children@, Rule::HeredocTerminator);
    let start = InlineState {
        flags: Seq::empty(),
        pending: Seq::empty(),
        body: None,
        sources: Seq::empty(),
        destination: None,
    };
    let none = Seq::<SpannedText>::empty();
    assert(start.pending == none.skip(0));
    lemma_inline_history(start, field.children@, none, none);
    assert(none + delimiters == delimiters);
    assert(none + terminators == terminators);
    lemma_closes_in_opening_order(InstructionFamily::Copy, delimiters, terminators);
}

impl CopyFlag {
    /// What assembling the flag token `record` gives: the name and the
    /// value among its children, both of which must be there.
    pub open spec fn outcome(record: Token) -> Result<CopyFlagView, ErrorView> {
        match pair_outcome(record, Rule::CopyFlagName, Rule::CopyFlagValue) {
            Err(error) => Err(error),
            Ok(state) => match state.name {
                None => Err(generic_error("copy flags require a key")),
                Some(name) => match state.value {
                    None => Err(generic_error("copy flags require a value")),
                    Some(value) => Ok(CopyFlagView { span: record.span, name, value }),
                },
            },
        }
    }

    /// Assembles a flag from its token. In a tree with consistent ranges
    /// the name and the value lie inside the flag.
    pub fn from_record(record: &Token) -> (result: Result<CopyFlag, Error>)
        ensures
            result_view(result) == CopyFlag::outcome(*record),
            match result {
                Ok(flag) => flag.span == record.span && (record.well_formed()
                    ==> flag@.spans_contained()),
                Err(_) => true,
            },
    {
        match read_pair(record, Rule::CopyFlagName, Rule::CopyFlagValue) {
            Err(error) => Err(error),
            Ok((name, value)) => match name {
                None => Err(Error::generic("copy flags require a key")),
                Some(name) => match value {
                    None => Err(Error::generic("copy flags require a value")),
                    Some(value) => Ok(CopyFlag { span: record.span, name, value }),
                },
            },
        }
    }
}

impl CopyInstruction {
    /// What assembling the copy token `record` gives. Its first child is
    /// the body, in the plain or in the inline form.
    pub open spec fn outcome(record: Token) -> Result<CopyView, ErrorView> {
        if record.children@.len() == 0 {
            Err(generic_error("Copy instruction expected a field"))
        } else {
            let field = record.children@[0];
            match field.rule {
                Rule::CopyStandard => standard_outcome(record.span, field),
                Rule::CopyHeredoc => inline_outcome(record.span, field),
                _ => Err(unexpected(field)),
            }
        }
    }

    /// Assembles a copy instruction from its token. Its range is that of
    /// the token. In a tree with consistent ranges every part of the
    /// instruction lies inside it.
    pub fn from_record(record: &Token) -> (result: Result<CopyInstruction, Error>)
        ensures
            result_view(result) == CopyInstruction::outcome(*record),
            record.well_formed() ==> match result {
                Ok(instruction) => instruction@.spans_contained(),
                Err(_) => true,
            },
    {
        if record.children.len() == 0 {
            return Err(Error::generic("Copy instruction expected a field"));
        }
        let field = &record.children[0];
        proof {
            assert(*field == record.children@[0]);
            assert(record.well_formed() ==> field.well_formed() && field.span.within(record.span));
        }
        match field.rule {
            Rule::CopyStandard => CopyInstruction::from_standard(record.span, field),
            Rule::CopyHeredoc => CopyInstruction::from_inline(record.span, field),
            _ => Err(field.unexpected()),
        }
    }

    /// Assembles the instruction with range `span` from a body in the
    /// plain form.
    pub fn from_standard(span: Span, field: &Token) -> (result: Result<CopyInstruction, Error>)
        ensures
            result_view(result) == standard_outcome(span, *field),
            field.well_formed() && field.span.within(span) ==> match result {
                Ok(instruction) => instruction@.spans_contained(),
                Err(_) => true,
            },
    {
        let mut flags: Vec<CopyFlag> = Vec::new();
        let mut sources: Vec<SourceType> = Vec::new();
        let mut last: Option<SpannedString> = None;
        let ghost mut paths: Seq<SpannedText> = Seq::empty();
        let ghost step = standard_stepper();
        let ghost inside = field.well_formed() && field.span.within(span);
        let n: usize = field.children.len();
        let mut i: usize = 0;
        proof {
            assert(field.children@.skip(0) == field.children@);
            assert(views(flags@) =~= Seq::<CopyFlagView>::empty());
        }
        while i < n
            invariant
                i <= n,
                n == field.children@.len(),
                step == standard_stepper(),
                inside == (field.well_formed() && field.span.within(span)),
                standard_walk(*field) == walk(
                    StandardState { flags: views(flags@), paths },
                    field.children@.skip(i as int),
                    step,
                ),
                match last {
                    None => paths.len() == 0 && sources@.len() == 0,
                    Some(path) => paths.len() > 0 && paths.last() == path@ && views(sources@)
                        == file_names(paths.drop_last()),
                },
                inside ==> forall|j: int|
                    0 <= j < flags@.len() ==> (#[trigger] flags@[j]).span.within(span)
                        && flags@[j]@.spans_contained(),
                inside ==> forall|j: int|
                    0 <= j < paths.len() ==> (#[trigger] paths[j]).span.within(span),
            decreases n - i,
        {
            let child = &field.children[i];
            proof {
                let rest = field.children@.skip(i as int);
                assert(rest[0] == *child);
                assert(rest.skip(1) == field.children@.skip(i + 1));
                assert(*child == field.children@[i as int]);
                assert(inside ==> child.well_formed() && child.span.within(span));
            }
            match child.rule {
                Rule::CopyFlag => match CopyFlag::from_record(child) {
                    Err(error) => {
                        return Err(error);
                    },
                    Ok(flag) => {
                        proof {
                            lemma_views_push(flags@, flag);
                        }
                        flags.push(flag);
                    },
                },
                Rule::CopyPathspec => {
                    let path = child.decode();
                    match last {
                        None => {
                            proof {
                                assert(views(sources@) =~= file_names(paths));
                            }
                        },
                        Some(earlier) => {
                            let source = SourceType::FileName(earlier);
                            proof {
                                lemma_views_push(sources@, source);
                                assert(file_names(paths) =~= file_names(paths.drop_last()).push(
                                    source@,
                                ));
                            }
                            sources.push(source);
                        },
                    }
                    proof {
                        assert(paths.push(path@).drop_last() == paths);
                        paths = paths.push(path@);
                    }
                    last = Some(path);
                },
                Rule::Comment => {},
                _ => {
                    return Err(child.unexpected());
                },
            }
            i += 1;
        }
        match last {
            None => Err(Error::generic("copy requires at least one source and a destination")),
            Some(destination) => if sources.len() == 0 {
                Err(Error::generic("copy requires at least one source and a destination"))
            } else {
                let instruction = CopyInstruction { span, flags, sources, destination };
                proof {
                    let found = file_names(paths.drop_last());
                    assert forall|j: int| 0 <= j < found.len() implies (#[trigger] found[j]).span().within(
                        span,
                    ) || !inside by {
                        assert(found[j].span() == paths[j].span);
                    }
                    assert(forall|j: int|
                        0 <= j < flags@.len() ==> (#[trigger] views(flags@)[j]) == flags@[j]@);
                }
                Ok(instruction)
            },
        }
    }

    /// Assembles the instruction with range `span` from a body in the
    /// inline form.
    pub fn from_inline(span: Span, field: &Token) -> (result: Result<CopyInstruction, Error>)
        ensures
            result_view(result) == inline_outcome(span, *field),
            field.well_formed() && field.span.within(span) ==> match result {
                Ok(instruction) => instruction@.spans_contained(),
                Err(_) => true,
            },
    {
        let mut flags: Vec<CopyFlag> = Vec::new();
        let mut matcher = HeredocMatcher::new(InstructionFamily::Copy);
        let mut body: Option<SpannedString> = None;
        let mut sources: Vec<SourceType> = Vec::new();
        let mut destination: Option<SpannedString> = None;
        let ghost mut bodies: Seq<SpannedText> = Seq::empty();
        let ghost step = inline_stepper();
        let ghost inside = field.well_formed() && field.span.within(span);
        let n: usize = field.children.len();
        let mut i: usize = 0;
        proof {
            assert(field.children@.skip(0) == field.children@);
            assert(views(flags@) =~= Seq::<CopyFlagView>::empty());
            assert(views(sources@) =~= file_contents(bodies));
        }
        while i < n
            invariant
                i <= n,
                n == field.children@.len(),
                step == inline_stepper(),
                inside == (field.well_formed() && field.span.within(span)),
                matcher.instruction() == InstructionFamily::Copy,
                inline_walk(*field) == walk(
                    InlineState {
                        flags: views(flags@),
                        pending: matcher.pending(),
                        body: option_view(body),
                        sources: bodies,
                        destination: option_view(destination),
                    },
                    field.children@.skip(i as int),
                    step,
                ),
                views(sources@) == file_contents(bodies),
                inside ==> forall|j: int|
                    0 <= j < flags@.len() ==> (#[trigger] flags@[j]).span.within(span)
                        && flags@[j]@.spans_contained(),
                inside ==> forall|j: int|
                    0 <= j < bodies.len() ==> (#[trigger] bodies[j]).span.within(span),
                inside ==> (body matches Some(text) ==> text.span.within(span)),
                inside ==> (destination matches Some(path) ==> path.span.within(span)),
            decreases n - i,
        {
            let child = &field.children[i];
            proof {
                let rest = field.children@.skip(i as int);
                assert(rest[0] == *child);
                assert(rest.skip(1) == field.children@.skip(i + 1));
                assert(*child == field.children@[i as int]);
                assert(inside ==> child.well_formed() && child.span.within(span));
            }
            match child.rule {
                Rule::CopyFlag => match CopyFlag::from_record(child) {
                    Err(error) => {
                        return Err(error);
                    },
                    Ok(flag) => {
                        proof {
                            lemma_views_push(flags@, flag);
                        }
                        flags.push(flag);
                    },
                },
                Rule::CopyPathspec => {
                    destination = Some(child.decode());
                },
                Rule::HeredocDelimiter => {
                    matcher.open(child.decode());
                },
                Rule::HeredocBody => {
                    if !matcher.is_open() || body.is_some() {
                        return Err(child.unexpected());
                    }
                    body = Some(child.decode());
                },
                Rule::HeredocTerminator => {
                    let terminator = child.decode();
                    match matcher.close(&terminator) {
                        Err(error) => {
                            return Err(error);
                        },
                        Ok(_) => {
                            let source = SourceType::FileContents(
                                Heredoc::take_body(body, child.span),
                            );
                            body = None;
                            proof {
                                lemma_views_push(sources@, source);
                                assert(file_contents(bodies.push(source@->FileContents_0))
                                    =~= file_contents(bodies).push(source@));
                                bodies = bodies.push(source@->FileContents_0);
                            }
                            sources.push(source);
                        },
                    }
                },
                _ => {
                    return Err(child.unexpected());
                },
            }
            i += 1;
        }
        match matcher.finish() {
            Err(error) => Err(error),
            Ok(_) => match destination {
                None => Err(Error::generic("copy requires at least one source and a destination")),
                Some(destination) => if sources.len() == 0 {
                    Err(Error::generic("copy requires at least one source and a destination"))
                } else {
                    let instruction = CopyInstruction { span, flags, sources, destination };
                    proof {
                        let found = file_contents(bodies);
                        assert forall|j: int| 0 <= j < found.len() implies (
                        #[trigger] found[j]).span().within(span) || !inside by {
                            assert(found[j].span() == bodies[j].span);
                        }
                        assert(forall|j: int|
                            0 <= j < flags@.len() ==> (#[trigger] views(flags@)[j]) == flags@[j]@);
                    }
                    Ok(instruction)
                },
            },
        }
    }
}

} // verus!
