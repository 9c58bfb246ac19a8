//! The run instruction: options, then a command in exec form (a list of
//! quoted strings) or in shell form (breakable text, an inline block, or
//! both).

use vstd::prelude::*;
use crate::breakable::{BreakableString, BreakableView};
use crate::error::{Error, ErrorView, InstructionFamily, generic_error};
use crate::heredoc::{Heredoc, HeredocView};
use crate::pair::{pair_outcome, read_pair};
use crate::span::{Span, SpannedString, SpannedText, lemma_views_push, result_view, views};
use crate::token::{Rule, Token, decoded_among, unexpected, walk};

verus! {

/// A `--name=value` option of a run instruction, with its text as written.
#[derive(Debug, PartialEq, Eq, Clone)]
pub struct RunOption {
    pub span: Span,
    pub name: SpannedString,
    pub value: SpannedString,
    pub original: String,
}

/// What a [`RunOption`] is to a contract.
pub struct RunOptionView {
    pub span: Span,
    pub name: SpannedText,
    pub value: SpannedText,
    pub original: Seq<char>,
}

impl View for RunOption {
    type V = RunOptionView;

    open spec fn view(&self) -> RunOptionView {
        RunOptionView {
            span: self.span,
            name: self.name@,
            value: self.value@,
            original: self.original@,
        }
    }
}

impl RunOptionView {
    /// The name and the value lie inside the option.
    pub open spec fn spans_contained(self) -> bool {
        self.name.span.within(self.span) && self.value.span.within(self.span)
    }
}

/// A list of strings with the range of the whole list.
#[derive(Debug, PartialEq, Eq, Clone)]
pub struct StringArray {
    pub span: Span,
    pub elements: Vec<SpannedString>,
}

/// What a [`StringArray`] is to a contract.
pub struct StringArrayView {
    pub span: Span,
    pub elements: Seq<SpannedText>,
}

impl View for StringArray {
    type V = StringArrayView;

    open spec fn view(&self) -> StringArrayView {
        StringArrayView { span: self.span, elements: views(self.elements@) }
    }
}

impl StringArrayView {
    /// Every element lies inside the list.
    pub open spec fn spans_contained(self) -> bool {
        forall|i: int|
            0 <= i < self.elements.len() ==> (#[trigger] self.elements[i]).span.within(self.span)
    }
}

/// The command of a run instruction.
#[derive(Debug, PartialEq, Eq, Clone)]
pub enum ShellOrExecExpr {
    /// A list of strings, run as they are.
    Exec(StringArray),
    /// Text for the shell.
    Shell(BreakableString),
    /// Text for the shell, followed by an inline block.
    ShellWithHeredoc(BreakableString, Heredoc),
}

/// What a [`ShellOrExecExpr`] is to a contract.
pub enum ExprView {
    Exec(StringArrayView),
    Shell(BreakableView),
    ShellWithHeredoc(BreakableView, HeredocView),
}

impl View for ShellOrExecExpr {
    type V = ExprView;

    open spec fn view(&self) -> ExprView {
        match *self {
            ShellOrExecExpr::Exec(list) => ExprView::Exec(list@),
            ShellOrExecExpr::Shell(text) => ExprView::Shell(text@),
            ShellOrExecExpr::ShellWithHeredoc(text, block) => ExprView::ShellWithHeredoc(
                text@,
                block@,
            ),
        }
    }
}

impl ExprView {
    /// The parts of the command lie inside `outer`, and what they hold
    /// lies inside them.
    pub open spec fn contained_in(self, outer: Span) -> bool {
        match self {
            ExprView::Exec(list) => list.span.within(outer) && list.spans_contained(),
            ExprView::Shell(text) => text.span.within(outer) && text.well_formed(),
            ExprView::ShellWithHeredoc(text, block) => {
                &&& text.span.within(outer)
                &&& text.well_formed()
                &&& block.span.within(outer)
                &&& block.spans_contained()
            },
        }
    }
}

/// A run instruction.
#[derive(Debug, PartialEq, Eq, Clone)]
pub struct RunInstruction {
    pub span: Span,
    pub options: Vec<RunOption>,
    pub expr: ShellOrExecExpr,
}

/// What a [`RunInstruction`] is to a contract.
pub struct RunView {
    pub span: Span,
    pub options: Seq<RunOptionView>,
    pub expr: ExprView,
}

impl View for RunInstruction {
    type V = RunView;

    open spec fn view(&self) -> RunView {
        RunView { span: self.span, options: views(self.options@), expr: self.expr@ }
    }
}

impl RunView {
    /// Every option with its name and value, and the command with its
    /// parts, lie inside the instruction.
    pub open spec fn spans_contained(self) -> bool {
        &&& forall|i: int|
            0 <= i < self.options.len() ==> (#[trigger] self.options[i]).span.within(self.span)
                && self.options[i].spans_contained()
        &&& self.expr.contained_in(self.span)
    }
}

/// One child of an exec list: a quoted string is decoded, a comment is
/// passed over.
pub open spec fn array_step(elements: Seq<SpannedText>, token: Token) -> Result<
    Seq<SpannedText>,
    ErrorView,
> {
    match token.rule {
        Rule::Quoted => Ok(elements.push(token.decoded())),
        Rule::Comment => Ok(elements),
        _ => Err(unexpected(token)),
    }
}

/// `array_step` as a step of `walk`.
pub open spec fn array_stepper() -> spec_fn(Seq<SpannedText>, Token) -> Result<
    Seq<SpannedText>,
    ErrorView,
> {
    |elements: Seq<SpannedText>, token: Token| array_step(elements, token)
}

/// Walking quoted strings and comments adds the strings, decoded, in
/// their order, and nothing for the comments.
pub proof fn lemma_elements_follow_tokens(elements: Seq<SpannedText>, tokens: Seq<Token>)
    requires
        forall|i: int|
            0 <= i < tokens.len() ==> (#[trigger] tokens[i]).rule == Rule::Quoted
                || tokens[i].rule == Rule::Comment,
    ensures
        walk(elements, tokens, array_stepper()) == Ok::<Seq<SpannedText>, ErrorView>(
            elements + decoded_among(tokens, Rule::Quoted),
        ),
    decreases tokens.len(),
{
    if tokens.len() == 0 {
        assert(elements + decoded_among(tokens, Rule::Quoted) == elements);
    } else {
        let rest = tokens.skip(1);
        assert(tokens[0].rule == Rule::Quoted || tokens[0].rule == Rule::Comment);
        assert forall|i: int| 0 <= i < rest.len() implies (#[trigger] rest[i]).rule
            == Rule::Quoted || rest[i].rule == Rule::Comment by {
            assert(rest[i] == tokens[i + 1]);
        }
        let next = array_step(elements, tokens[0])->Ok_0;
        lemma_elements_follow_tokens(next, rest);
        assert(next + decoded_among(rest, Rule::Quoted) == elements + decoded_among(
            tokens,
            Rule::Quoted,
        ));
    }
}

/// An exec list that holds only quoted strings and comments is assembled,
/// and its elements are its strings, decoded, in their order.
pub proof fn lemma_exec_list_outcome(record: Token)
    requires
        forall|i: int|
            0 <= i < record.children@.len() ==> (#[trigger] record.children@[i]).rule
                == Rule::Quoted || record.children@[i].rule == Rule::Comment,
    ensures
        StringArray::outcome(record) == Ok::<StringArrayView, ErrorView>(
            StringArrayView {
                span: record.span,
                elements: decoded_among(record.children@, Rule::Quoted),
            },
        ),
{
    let none = Seq::<SpannedText>::empty();
    lemma_elements_follow_tokens(none, record.children@);
    assert(none + decoded_among(record.children@, Rule::Quoted) == decoded_among(
        record.children@,
        Rule::Quoted,
    ));
}

/// What the instruction has read before its command: the options, and the
/// token of the command once it is reached.
pub struct RunState {
    pub options: Seq<RunOptionView>,
    pub body: Option<Token>,
}

/// One child of a run token. Until the command is reached, options are
/// collected and comments passed over; the first exec or shell form is the
/// command, and what follows it is not looked at.
pub open spec fn run_step(state: RunState, token: Token) -> Result<RunState, ErrorView> {
    if state.body is Some {
        Ok(state)
    } else {
        match token.rule {
            Rule::RunOption => match RunOption::outcome(token) {
                Err(error) => Err(error),
                Ok(option) => Ok(RunState { options: state.options.push(option), ..state }),
            },
            Rule::RunExec | Rule::RunShell => Ok(RunState { body: Some(token), ..state }),
            Rule::Comment => Ok(state),
            _ => Err(unexpected(token)),
        }
    }
}

/// `run_step` as a step of `walk`.
pub open spec fn run_stepper() -> spec_fn(RunState, Token) -> Result<RunState, ErrorView> {
    |state: RunState, token: Token| run_step(state, token)
}

/// Once the command is reached, the rest of the children change nothing.
pub proof fn lemma_rest_ignored(state: RunState, tokens: Seq<Token>)
    requires
        state.body is Some,
    ensures
        walk(state, tokens, run_stepper()) == Ok::<RunState, ErrorView>(state),
    decreases tokens.len(),
{
    if tokens.len() > 0 {
        lemma_rest_ignored(state, tokens.skip(1));
    }
}

/// The breakable string without fragments at the place where `span` starts.
pub open spec fn empty_breakable_at(span: Span) -> BreakableView {
    BreakableView { span: Span { start: span.start, end: span.start }, fragments: Seq::empty() }
}

/// The command that the shell form `field` holds. Its first child is an
/// inline block alone, or breakable text, which an inline block may follow.
pub open spec fn shell_outcome(field: Token) -> Result<ExprView, ErrorView> {
    if field.children@.len() == 0 {
        Err(generic_error("missing run shell expression"))
    } else {
        let first = field.children@[0];
        match first.rule {
            Rule::RunHeredoc => match Heredoc::outcome(first, InstructionFamily::Run) {
                Err(error) => Err(error),
                Ok(block) => Ok(ExprView::ShellWithHeredoc(empty_breakable_at(first.span), block)),
            },
            Rule::AnyBreakable => match BreakableString::outcome(first) {
                Err(error) => Err(error),
                Ok(text) => if field.children@.len() == 1 {
                    Ok(ExprView::Shell(text))
                } else {
                    let second = field.children@[1];
                    if second.rule != Rule::RunHeredoc {
                        Err(unexpected(second))
                    } else {
                        match Heredoc::outcome(second, InstructionFamily::Run) {
                            Err(error) => Err(error),
                            Ok(block) => Ok(ExprView::ShellWithHeredoc(text, block)),
                        }
                    }
                },
            },
            _ => Err(unexpected(first)),
        }
    }
}

/// The command that the token `field` holds.
pub open spec fn expr_outcome(field: Token) -> Result<ExprView, ErrorView> {
    match field.rule {
        Rule::RunExec => match StringArray::outcome(field) {
            Err(error) => Err(error),
            Ok(list) => Ok(ExprView::Exec(list)),
        },
        Rule::RunShell => shell_outcome(field),
        _ => Err(unexpected(field)),
    }
}

impl RunOption {
    /// What assembling the option token `record` gives: the name and the
    /// value among its children, both of which must be there, and the text
    /// of the token as it is.
    pub open spec fn outcome(record: Token) -> Result<RunOptionView, ErrorView> {
        match pair_outcome(record, Rule::RunOptionName, Rule::RunOptionValue) {
            Err(error) => Err(error),
            Ok(state) => match state.name {
                None => Err(generic_error("run options require a key")),
                Some(name) => match state.value {
                    None => Err(generic_error("run options require a value")),
                    Some(value) => Ok(
                        RunOptionView { span: record.span, name, value, original: record.text@ },
                    ),
                },
            },
        }
    }

    /// Assembles an option from its token. In a tree with consistent
    /// ranges the name and the value lie inside the option.
    pub fn from_record(record: &Token) -> (result: Result<RunOption, Error>)
        ensures
            result_view(result) == RunOption::outcome(*record),
            match result {
                Ok(option) => option.span == record.span && (record.well_formed()
                    ==> option@.spans_contained()),
                Err(_) => true,
            },
    {
        match read_pair(record, Rule::RunOptionName, Rule::RunOptionValue) {
            Err(error) => Err(error),
            Ok((name, value)) => match name {
                None => Err(Error::generic("run options require a key")),
                Some(name) => match value {
                    None => Err(Error::generic("run options require a value")),
                    Some(value) => Ok(
                        RunOption { span: record.span, name, value, original: record.text.clone() },
                    ),
                },
            },
        }
    }

    /// The option as it was written.
    pub fn to_string(&self) -> (text: String)
        ensures
            text@ == self.original@,
    {
        self.original.clone()
    }
}

impl StringArray {
    /// What assembling the exec list `record` gives: its quoted strings,
    /// decoded, in order.
    pub open spec fn outcome(record: Token) -> Result<StringArrayView, ErrorView> {
        match walk(Seq::<SpannedText>::empty(), record.children@, array_stepper()) {
            Err(error) => Err(error),
            Ok(elements) => Ok(StringArrayView { span: record.span, elements }),
        }
    }

    /// Assembles a list of strings from its token. In a tree with
    /// consistent ranges every string lies inside the list.
    pub fn from_record(record: &Token) -> (result: Result<StringArray, Error>)
        ensures
            result_view(result) == StringArray::outcome(*record),
            match result {
                Ok(list) => list.span == record.span && (record.well_formed()
                    ==> list@.spans_contained()),
                Err(_) => true,
            },
    {
        let mut elements: Vec<SpannedString> = Vec::new();
        let ghost step = array_stepper();
        let n: usize = record.children.len();
        let mut i: usize = 0;
        proof {
            assert(record.children@.skip(0) == record.children@);
            assert(views(elements@) =~= Seq::<SpannedText>::empty());
        }
        while i < n
            invariant
                i <= n,
                n == record.children@.len(),
                step == array_stepper(),
                walk(Seq::<SpannedText>::empty(), record.children@, step) == walk(
                    views(elements@),
                    record.children@.skip(i as int),
                    step,
                ),
                record.well_formed() ==> forall|j: int|
                    0 <= j < elements@.len() ==> (#[trigger] views(elements@)[j]).span.within(
                        record.span,
                    ),
            decreases n - i,
        {
            let child = &record.children[i];
            proof {
                let rest = record.children@.skip(i as int);
                assert(rest[0] == *child);
                assert(rest.skip(1) == record.children@.skip(i + 1));
                assert(*child == record.children@[i as int]);
                assert(record.well_formed() ==> child.span.within(record.span));
            }
            match child.rule {
                Rule::Quoted => {
                    let element = child.decode();
                    proof {
                        lemma_views_push(elements@, element);
                    }
                    elements.push(element);
                },
                Rule::Comment => {},
                _ => {
                    return Err(child.unexpected());
                },
            }
            i += 1;
        }
        Ok(StringArray { span: record.span, elements })
    }
}

impl ShellOrExecExpr {
    /// Assembles the command of a run instruction from its token, of the
    /// exec or of the shell form.
    pub fn from_record(field: &Token) -> (result: Result<ShellOrExecExpr, Error>)
        ensures
            result_view(result) == expr_outcome(*field),
            field.well_formed() ==> match result {
                Ok(expr) => expr@.contained_in(field.span),
                Err(_) => true,
            },
    {
        match field.rule {
            Rule::RunExec => match StringArray::from_record(field) {
                Err(error) => Err(error),
                Ok(list) => Ok(ShellOrExecExpr::Exec(list)),
            },
            Rule::RunShell => ShellOrExecExpr::from_shell(field),
            _ => Err(field.unexpected()),
        }
    }

    /// Assembles a command in shell form from its token.
    pub fn from_shell(field: &Token) -> (result: Result<ShellOrExecExpr, Error>)
        ensures
            result_view(result) == shell_outcome(*field),
            field.well_formed() ==> match result {
                Ok(expr) => expr@.contained_in(field.span),
                Err(_) => true,
            },
    {
        if field.children.len() == 0 {
            return Err(Error::generic("missing run shell expression"));
        }
        let first = &field.children[0];
        proof {
            assert(*first == field.children@[0]);
            assert(field.well_formed() ==> first.well_formed() && first.span.within(field.span));
        }
        match first.rule {
            Rule::RunHeredoc => match Heredoc::from_record(first, InstructionFamily::Run) {
                Err(error) => Err(error),
                Ok(block) => Ok(
                    ShellOrExecExpr::ShellWithHeredoc(
                        BreakableString::new(first.span.at_start()),
                        block,
                    ),
                ),
            },
            Rule::AnyBreakable => match BreakableString::from_record(first) {
                Err(error) => Err(error),
                Ok(text) => if field.children.len() == 1 {
                    Ok(ShellOrExecExpr::Shell(text))
                } else {
                    let second = &field.children[1];
                    proof {
                        assert(*second == field.children@[1]);
                        assert(field.well_formed() ==> second.well_formed() && second.span.within(
                            field.span,
                        ));
                    }
                    if second.rule != Rule::RunHeredoc {
                        Err(second.unexpected())
                    } else {
                        match Heredoc::from_record(second, InstructionFamily::Run) {
                            Err(error) => Err(error),
                            Ok(block) => Ok(ShellOrExecExpr::ShellWithHeredoc(text, block)),
                        }
                    }
                },
            },
            _ => Err(first.unexpected()),
        }
    }

    /// The text of a command that is shell text alone.
    pub fn into_shell(self) -> (text: Option<BreakableString>)
        ensures
            text == match self {
                ShellOrExecExpr::Shell(inner) => Some(inner),
                _ => None,
            },
    {
        match self {
            ShellOrExecExpr::Shell(inner) => Some(inner),
            _ => None,
        }
    }

    /// The text of a command that is shell text alone.
    pub fn as_shell(&self) -> (text: Option<&BreakableString>)
        ensures
            text == match *self {
                ShellOrExecExpr::Shell(inner) => Some(&inner),
                _ => None,
            },
    {
        match self {
            ShellOrExecExpr::Shell(inner) => Some(inner),
            _ => None,
        }
    }

    /// The list of a command in exec form.
    pub fn into_exec(self) -> (list: Option<StringArray>)
        ensures
            list == match self {
                ShellOrExecExpr::Exec(inner) => Some(inner),
                _ => None,
            },
    {
        match self {
            ShellOrExecExpr::Exec(inner) => Some(inner),
            _ => None,
        }
    }

    /// The list of a command in exec form.
    pub fn as_exec(&self) -> (list: Option<&StringArray>)
        ensures
            list == match *self {
                ShellOrExecExpr::Exec(inner) => Some(&inner),
                _ => None,
            },
    {
        match self {
            ShellOrExecExpr::Exec(inner) => Some(inner),
            _ => None,
        }
    }
}

impl RunInstruction {
    /// What assembling the run token `record` gives: the options before the
    /// command, and the command, which must be there.
    pub open spec fn outcome(record: Token) -> Result<RunView, ErrorView> {
        match walk(
            RunState { options: Seq::empty(), body: None },
            record.children@,
            run_stepper(),
        ) {
            Err(error) => Err(error),
            Ok(state) => match state.body {
                None => Err(generic_error("missing run expression")),
                Some(field) => match expr_outcome(field) {
                    Err(error) => Err(error),
                    Ok(expr) => Ok(RunView { span: record.span, options: state.options, expr }),
                },
            },
        }
    }

    /// Assembles a run instruction from its token. Its range is that of
    /// the token. In a tree with consistent ranges every part of the
    /// instruction lies inside it.
    pub fn from_record(record: &Token) -> (result: Result<RunInstruction, Error>)
        ensures
            result_view(result) == RunInstruction::outcome(*record),
            record.well_formed() ==> match result {
                Ok(instruction) => instruction@.spans_contained(),
                Err(_) => true,
            },
    {
        let mut options: Vec<RunOption> = Vec::new();
        let mut body: Option<&Token> = None;
        let ghost step = run_stepper();
        let ghost start = RunState { options: Seq::empty(), body: None };
        let n: usize = record.children.len();
        let mut i: usize = 0;
        proof {
            assert(record.children@.skip(0) == record.children@);
            assert(views(options@) =~= Seq::<RunOptionView>::empty());
        }
        while i < n && body.is_none()
            invariant
                i <= n,
                n == record.children@.len(),
                step == run_stepper(),
                start == (RunState { options: Seq::empty(), body: None }),
                walk(start, record.children@, step) == walk(
                    RunState {
                        options: views(options@),
                        body: match body {
                            Some(field) => Some(*field),
                            None => None,
                        },
                    },
                    record.children@.skip(i as int),
                    step,
                ),
                record.well_formed() ==> forall|j: int|
                    0 <= j < options@.len() ==> (#[trigger] options@[j]).span.within(record.span)
                        && options@[j]@.spans_contained(),
                record.well_formed() ==> (body matches Some(field) ==> field.well_formed()
                    && field.span.within(record.span)),
            decreases n - i,
        {
            let child = &record.children[i];
            proof {
                let rest = record.children@.skip(i as int);
                assert(rest[0] == *child);
                assert(rest.skip(1) == record.children@.skip(i + 1));
                assert(*child == record.children@[i as int]);
                assert(record.well_formed() ==> child.well_formed() && child.span.within(
                    record.span,
                ));
            }
            match child.rule {
                Rule::RunOption => match RunOption::from_record(child) {
                    Err(error) => {
                        return Err(error);
                    },
                    Ok(option) => {
                        proof {
                            lemma_views_push(options@, option);
                        }
                        options.push(option);
                    },
                },
                Rule::RunExec | Rule::RunShell => {
                    body = Some(child);
                },
                Rule::Comment => {},
                _ => {
                    return Err(child.unexpected());
                },
            }
            i += 1;
        }
        match body {
            None => Err(Error::generic("missing run expression")),
            Some(field) => {
                proof {
                    lemma_rest_ignored(
                        RunState { options: views(options@), body: Some(*field) },
                        record.children@.skip(i as int),
                    );
                }
                match ShellOrExecExpr::from_record(field) {
                    Err(error) => Err(error),
                    Ok(expr) => {
                        proof {
                            assert(forall|j: int|
                                0 <= j < options@.len() ==> (#[trigger] views(options@)[j])
                                    == options@[j]@);
                        }
                        Ok(RunInstruction { span: record.span, options, expr })
                    },
                }
            },
        }
    }

    /// The text of the command, if it is shell text alone.
    pub fn into_shell(self) -> (text: Option<BreakableString>)
        ensures
            text == match self.expr {
                ShellOrExecExpr::Shell(inner) => Some(inner),
                _ => None,
            },
    {
        self.expr.into_shell()
    }

    /// The text of the command, if it is shell text alone.
    pub fn as_shell(&self) -> (text: Option<&BreakableString>)
        ensures
            text == match self.expr {
                ShellOrExecExpr::Shell(inner) => Some(&inner),
                _ => None,
            },
    {
        self.expr.as_shell()
    }

    /// The list of the command, if it is in exec form.
    pub fn into_exec(self) -> (list: Option<StringArray>)
        ensures
            list == match self.expr {
                ShellOrExecExpr::Exec(inner) => Some(inner),
                _ => None,
            },
    {
        self.expr.into_exec()
    }

    /// The list of the command, if it is in exec form.
    pub fn as_exec(&self) -> (list: Option<&StringArray>)
        ensures
            list == match self.expr {
                ShellOrExecExpr::Exec(inner) => Some(&inner),
                _ => None,
            },
    {
        self.expr.as_exec()
    }
}

} // verus!
