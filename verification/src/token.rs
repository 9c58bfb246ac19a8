//! The token tree that a tokenizer hands over, and how token text is decoded.

use vstd::prelude::*;
use crate::error::{Error, ErrorView};
use crate::span::{Span, SpannedString, SpannedText};

verus! {

/// The kind of grammar rule that a token matched.
#[derive(Debug, PartialEq, Eq, Clone, Copy, Structural)]
pub enum Rule {
    /// A whole copy instruction.
    Copy,
    /// The body of a copy instruction that lists plain paths.
    CopyStandard,
    /// The body of a copy instruction whose sources are inline blocks.
    CopyHeredoc,
    /// One `--name=value` modifier of a copy instruction.
    CopyFlag,
    CopyFlagName,
    CopyFlagValue,
    /// A source or destination path.
    CopyPathspec,
    /// A whole run instruction.
    Run,
    /// One `--name=value` modifier of a run instruction.
    RunOption,
    RunOptionName,
    RunOptionValue,
    /// A run body given as a bracketed list of quoted strings.
    RunExec,
    /// A run body given as shell text.
    RunShell,
    /// An inline block inside a run body.
    RunHeredoc,
    /// Shell text that may be broken over lines and hold comments.
    AnyBreakable,
    /// One unbroken piece of literal shell text.
    AnyContent,
    /// A double-quoted string.
    Quoted,
    /// A comment line.
    Comment,
    /// The identifier after `<<` that opens an inline block.
    HeredocDelimiter,
    /// The text of an inline block.
    HeredocBody,
    /// The line that ends an inline block.
    HeredocTerminator,
}

/// A node of the token tree: the rule it matched, the range it covers, its
/// raw text, and the tokens inside it in source order.
#[derive(Debug, PartialEq, Eq)]
pub struct Token {
    pub rule: Rule,
    pub span: Span,
    pub text: String,
    pub children: Vec<Token>,
}

/// Blank characters that may surround a delimiter.
pub open spec fn is_blank(c: char) -> bool {
    c == ' ' || c == '\t'
}

/// `text` without its leading blanks.
pub open spec fn trim_start(text: Seq<char>) -> Seq<char>
    decreases text.len(),
{
    if text.len() > 0 && is_blank(text[0]) {
        trim_start(text.skip(1))
    } else {
        text
    }
}

/// `text` without its trailing blanks.
pub open spec fn trim_end(text: Seq<char>) -> Seq<char>
    decreases text.len(),
{
    if text.len() > 0 && is_blank(text.last()) {
        trim_end(text.drop_last())
    } else {
        text
    }
}

/// `text` without the blanks at either end.
pub open spec fn trim(text: Seq<char>) -> Seq<char> {
    trim_end(trim_start(text))
}

/// The character that a backslash followed by `c` stands for.
pub open spec fn escaped(c: char) -> char {
    if c == 'n' {
        '\n'
    } else if c == 't' {
        '\t'
    } else if c == 'r' {
        '\r'
    } else {
        c
    }
}

/// `text` with each backslash escape replaced by the character it stands
/// for. A backslash at the very end stands for itself.
pub open spec fn unescape(text: Seq<char>) -> Seq<char>
    decreases text.len(),
{
    if text.len() == 0 {
        text
    } else if text[0] == '\\' && text.len() >= 2 {
        seq![escaped(text[1])] + unescape(text.skip(2))
    } else {
        seq![text[0]] + unescape(text.skip(1))
    }
}

/// The part of a quoted string between its quotes: `text` without one
/// leading and one trailing double quote, where they are present.
pub open spec fn strip_quotes(text: Seq<char>) -> Seq<char> {
    let opened = if text.len() > 0 && text[0] == '"' {
        text.skip(1)
    } else {
        text
    };
    if opened.len() > 0 && opened.last() == '"' {
        opened.drop_last()
    } else {
        opened
    }
}

/// What the text of a token of kind `rule` decodes to: a quoted string
/// loses its quotes and has its escapes resolved, a delimiter loses the
/// blanks around it, and any other text is taken as it is.
pub open spec fn decoded_text(rule: Rule, text: Seq<char>) -> Seq<char> {
    match rule {
        Rule::Quoted => unescape(strip_quotes(text)),
        Rule::HeredocDelimiter => trim(text),
        _ => text,
    }
}

/// The failure that names `token` as one that was not expected where it stands.
pub open spec fn unexpected(token: Token) -> ErrorView {
    ErrorView::UnexpectedToken { rule: token.rule, span: token.span }
}

/// The state reached by taking `tokens` one after another from `state`,
/// each through `step`; the first failure of a step ends the walk and is
/// its outcome.
pub open spec fn walk<S>(
    state: S,
    tokens: Seq<Token>,
    step: spec_fn(S, Token) -> Result<S, ErrorView>,
) -> Result<S, ErrorView>
    decreases tokens.len(),
{
    if tokens.len() == 0 {
        Ok(state)
    } else {
        match step(state, tokens[0]) {
            Err(error) => Err(error),
            Ok(next) => walk(next, tokens.skip(1), step),
        }
    }
}

/// The tokens of kind `rule` among `tokens`, decoded, in their order.
pub open spec fn decoded_among(tokens: Seq<Token>, rule: Rule) -> Seq<SpannedText>
    decreases tokens.len(),
{
    if tokens.len() == 0 {
        Seq::empty()
    } else if tokens[0].rule == rule {
        seq![tokens[0].decoded()] + decoded_among(tokens.skip(1), rule)
    } else {
        decoded_among(tokens.skip(1), rule)
    }
}

/// A walk over two runs of tokens, one after the other, is the walk over
/// the first followed, where that did not fail, by the walk over the second
/// from the state it reached.
pub proof fn lemma_walk_concat<S>(
    state: S,
    first: Seq<Token>,
    second: Seq<Token>,
    step: spec_fn(S, Token) -> Result<S, ErrorView>,
)
    ensures
        walk(state, first + second, step) == match walk(state, first, step) {
            Err(error) => Err(error),
            Ok(reached) => walk(reached, second, step),
        },
    decreases first.len(),
{
    if first.len() == 0 {
        assert(first + second == second);
    } else {
        let all = first + second;
        assert(all[0] == first[0]);
        assert(all.skip(1) == first.skip(1) + second);
        match step(state, first[0]) {
            Err(_) => {},
            Ok(next) => {
                lemma_walk_concat(next, first.skip(1), second, step);
            },
        }
    }
}

/// A walk fails fast: where the step fails on the token at `at`, after the
/// tokens before it were taken without failure, that failure is the
/// outcome of the whole walk, whatever follows.
pub proof fn lemma_walk_fails_fast<S>(
    state: S,
    tokens: Seq<Token>,
    step: spec_fn(S, Token) -> Result<S, ErrorView>,
    at: int,
)
    requires
        0 <= at < tokens.len(),
        walk(state, tokens.take(at), step) is Ok,
        step(walk(state, tokens.take(at), step)->Ok_0, tokens[at]) is Err,
    ensures
        walk(state, tokens, step) == Err::<S, ErrorView>(
            step(walk(state, tokens.take(at), step)->Ok_0, tokens[at])->Err_0,
        ),
{
    let before = tokens.take(at);
    let after = tokens.skip(at);
    assert(before + after == tokens);
    lemma_walk_concat(state, before, after, step);
    assert(after[0] == tokens[at]);
}

/// `String::push` of std appends the one character to the end of the string
/// and leaves the rest as it was.
pub assume_specification[ String::push ](text: &mut String, c: char)
    ensures
        final(text)@ == old(text)@.push(c),
;

/// Decides `is_blank`.
fn blank(c: char) -> (yes: bool)
    ensures
        yes == is_blank(c),
{
    c == ' ' || c == '\t'
}

/// Computes `escaped`.
fn escaped_char(c: char) -> (out: char)
    ensures
        out == escaped(c),
{
    if c == 'n' {
        '\n'
    } else if c == 't' {
        '\t'
    } else if c == 'r' {
        '\r'
    } else {
        c
    }
}

/// Computes `trim`.
pub fn trim_blanks(text: &str) -> (out: String)
    ensures
        out@ == trim(text@),
{
    let n: usize = text.unicode_len();
    let mut start: usize = 0;
    proof {
        assert(text@.skip(0) == text@);
    }
    while start < n && blank(text.get_char(start))
        invariant
            start <= n,
            n == text@.len(),
            trim_start(text@) == trim_start(text@.skip(start as int)),
        decreases n - start,
    {
        proof {
            assert(text@.skip(start as int).skip(1) == text@.skip(start + 1));
        }
        start += 1;
    }
    let mut end: usize = n;
    while end > start && blank(text.get_char(end - 1))
        invariant
            start <= end <= n,
            n == text@.len(),
            trim_end(text@.skip(start as int)) == trim_end(
                text@.subrange(start as int, end as int),
            ),
        decreases end - start,
    {
        proof {
            assert(text@.subrange(start as int, end as int).drop_last() == text@.subrange(
                start as int,
                end - 1,
            ));
        }
        end -= 1;
    }
    text.substring_char(start, end).to_owned()
}

/// Computes `unescape`.
pub fn unescape_text(text: &str) -> (out: String)
    ensures
        out@ == unescape(text@),
{
    let n: usize = text.unicode_len();
    let mut out = String::new();
    let mut i: usize = 0;
    proof {
        assert(text@.skip(0) == text@);
    }
    while i < n
        invariant
            i <= n,
            n == text@.len(),
            out@ + unescape(text@.skip(i as int)) == unescape(text@),
        decreases n - i,
    {
        let c = text.get_char(i);
        let ghost rest = text@.skip(i as int);
        let ghost before = out@;
        if c == '\\' && n - i >= 2 {
            let d = text.get_char(i + 1);
            out.push(escaped_char(d));
            proof {
                assert(rest.skip(2) == text@.skip(i + 2));
                assert(out@ + unescape(rest.skip(2)) == before + unescape(rest));
            }
            i += 2;
        } else {
            out.push(c);
            proof {
                assert(rest.skip(1) == text@.skip(i + 1));
                assert(out@ + unescape(rest.skip(1)) == before + unescape(rest));
            }
            i += 1;
        }
    }
    proof {
        assert(out@ + unescape(text@.skip(i as int)) == out@);
    }
    out
}

/// Computes `unescape` of `strip_quotes`.
pub fn unquote(text: &str) -> (out: String)
    ensures
        out@ == unescape(strip_quotes(text@)),
{
    let n: usize = text.unicode_len();
    let start: usize = if n > 0 && text.get_char(0) == '"' {
        1
    } else {
        0
    };
    let end: usize = if n > start && text.get_char(n - 1) == '"' {
        n - 1
    } else {
        n
    };
    proof {
        let opened = text@.skip(start as int);
        assert(opened.len() > 0 ==> opened.last() == text@[n - 1]);
        assert(text@.subrange(start as int, end as int) == strip_quotes(text@));
    }
    unescape_text(text.substring_char(start, end))
}

impl Token {
    /// The ranges of the tree are consistent: no range ends before it
    /// starts, each child lies inside its parent, and the children of one
    /// parent follow one another without overlap, all the way down.
    pub open spec fn well_formed(&self) -> bool
        decreases self,
    {
        &&& self.span.valid()
        &&& forall|i: int|
            0 <= i < self.children@.len() ==> {
                &&& (#[trigger] self.children@[i]).span.within(self.span)
                &&& self.children@[i].well_formed()
            }
        &&& forall|i: int, j: int|
            0 <= i < j < self.children@.len() ==> (#[trigger] self.children@[i]).span.precedes(
                (#[trigger] self.children@[j]).span,
            )
    }

    /// The token's text decoded as its kind asks, with the token's range.
    pub open spec fn decoded(&self) -> SpannedText {
        SpannedText { span: self.span, content: decoded_text(self.rule, self.text@) }
    }

    pub fn new(rule: Rule, span: Span, text: String, children: Vec<Token>) -> (token: Token)
        ensures
            token.rule == rule,
            token.span == span,
            token.text == text,
            token.children == children,
    {
        Token { rule, span, text, children }
    }

    /// Decides `well_formed`.
    pub fn is_well_formed(&self) -> (ok: bool)
        ensures
            ok == self.well_formed(),
        decreases self,
    {
        if self.span.start > self.span.end {
            return false;
        }
        let n: usize = self.children.len();
        let mut i: usize = 0;
        while i < n
            invariant
                i <= n,
                n == self.children@.len(),
                self.span.valid(),
                forall|j: int|
                    0 <= j < i ==> (#[trigger] self.children@[j]).span.within(self.span)
                        && self.children@[j].well_formed(),
                forall|j: int, k: int|
                    0 <= j < k < i ==> (#[trigger] self.children@[j]).span.precedes(
                        (#[trigger] self.children@[k]).span,
                    ),
            decreases n - i,
        {
            let child = &self.children[i];
            proof {
                assert(*child == self.children@[i as int]);
            }
            if !child.span.is_within(&self.span) || !child.is_well_formed() {
                return false;
            }
            if i > 0 {
                let earlier = &self.children[i - 1];
                proof {
                    assert(*earlier == self.children@[i - 1]);
                }
                if earlier.span.end > child.span.start {
                    return false;
                }
                proof {
                    assert forall|j: int| 0 <= j < i implies (#[trigger] self.children@[j]).span.precedes(
                        child.span,
                    ) by {
                        if j < i - 1 {
                            assert(self.children@[j].span.precedes(earlier.span));
                            assert(earlier.well_formed());
                        }
                    }
                }
            }
            i += 1;
        }
        true
    }

    /// The failure that names this token as unexpected.
    pub fn unexpected(&self) -> (error: Error)
        ensures
            error@ == unexpected(*self),
    {
        Error::UnexpectedToken { rule: self.rule, span: self.span }
    }

    /// Decodes the token's text: see `decoded_text`.
    pub fn decode(&self) -> (out: SpannedString)
        ensures
            out@ == self.decoded(),
    {
        let content = match self.rule {
            Rule::Quoted => unquote(self.text.as_str()),
            Rule::HeredocDelimiter => trim_blanks(self.text.as_str()),
            _ => self.text.clone(),
        };
        SpannedString { span: self.span, content }
    }
}

} // verus!
