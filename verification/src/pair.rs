//! The `--name=value` modifiers that instructions carry: a token with one
//! child for the name and one for the value.

use vstd::prelude::*;
use crate::error::{Error, ErrorView};
use crate::span::{SpannedString, SpannedText, option_view};
use crate::token::{Rule, Token, unexpected, walk};

verus! {

/// The name and the value read so far.
pub struct PairState {
    pub name: Option<SpannedText>,
    pub value: Option<SpannedText>,
}

/// One child of a modifier token: a name or a value is decoded and takes
/// the place of one read before; anything else is not expected.
pub open spec fn pair_step(name_rule: Rule, value_rule: Rule, state: PairState, token: Token) -> Result<
    PairState,
    ErrorView,
> {
    if token.rule == name_rule {
        Ok(PairState { name: Some(token.decoded()), ..state })
    } else if token.rule == value_rule {
        Ok(PairState { value: Some(token.decoded()), ..state })
    } else {
        Err(unexpected(token))
    }
}

/// `pair_step` for the two kinds, as a step of `walk`.
pub open spec fn pair_stepper(name_rule: Rule, value_rule: Rule) -> spec_fn(
    PairState,
    Token,
) -> Result<PairState, ErrorView> {
    |state: PairState, token: Token| pair_step(name_rule, value_rule, state, token)
}

/// What reading the children of `record` gives.
pub open spec fn pair_outcome(record: Token, name_rule: Rule, value_rule: Rule) -> Result<
    PairState,
    ErrorView,
> {
    walk(
        PairState { name: None, value: None },
        record.children@,
        pair_stepper(name_rule, value_rule),
    )
}

/// Reads the name and the value of a modifier from the children of its
/// token. In a tree with consistent ranges both lie inside the token.
pub fn read_pair(record: &Token, name_rule: Rule, value_rule: Rule) -> (result: Result<
    (Option<SpannedString>, Option<SpannedString>),
    Error,
>)
    ensures
        match result {
            Ok((name, value)) => pair_outcome(*record, name_rule, value_rule) == Ok::<
                PairState,
                ErrorView,
            >(PairState { name: option_view(name), value: option_view(value) }),
            Err(error) => pair_outcome(*record, name_rule, value_rule) == Err::<
                PairState,
                ErrorView,
            >(error@),
        },
        record.well_formed() ==> match result {
            Ok((name, value)) => {
                &&& name matches Some(text) ==> text.span.within(record.span)
                &&& value matches Some(text) ==> text.span.within(record.span)
            },
            Err(_) => true,
        },
{
    let mut name: Option<SpannedString> = None;
    let mut value: Option<SpannedString> = None;
    let ghost step = pair_stepper(name_rule, value_rule);
    let n: usize = record.children.len();
    let mut i: usize = 0;
    proof {
        assert(record.children@.skip(0) == record.children@);
    }
    while i < n
        invariant
            i <= n,
            n == record.children@.len(),
            step == pair_stepper(name_rule, value_rule),
            pair_outcome(*record, name_rule, value_rule) == walk(
                PairState { name: option_view(name), value: option_view(value) },
                record.children@.skip(i as int),
                step,
            ),
            record.well_formed() ==> (name matches Some(text) ==> text.span.within(record.span)),
            record.well_formed() ==> (value matches Some(text) ==> text.span.within(record.span)),
        decreases n - i,
    {
        let child = &record.children[i];
        proof {
            let rest = record.children@.skip(i as int);
            assert(rest[0] == *child);
            assert(rest.skip(1) == record.children@.skip(i + 1));
            assert(*child == record.children@[i as int]);
            assert(record.well_formed() ==> child.span.within(record.span));
        }
        if child.rule == name_rule {
            name = Some(child.decode());
        } else if child.rule == value_rule {
            value = Some(child.decode());
        } else {
            return Err(child.unexpected());
        }
        i += 1;
    }
    Ok((name, value))
}

} // verus!
