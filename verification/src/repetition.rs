//! The parsers that run another parser zero or one time, or as often as it
//! succeeds. Neither of them ever fails.

use crate::cursor::{Cursor, Failure, MorsecError, MorsecStr};
use crate::parser::{single_valued, Parser};
use std::marker::PhantomData;
use vstd::prelude::*;

verus! {

/// What `optional(p)` may return: the value of `p` where `p` succeeded, and
/// nothing, at the cursor given, where `p` failed.
pub open spec fn optional_accepts<T, P: Parser<T>>(
    p: P,
    input: Cursor,
    rest: Cursor,
    value: Option<T>,
) -> bool {
    match value {
        Some(inner) => p.accepts(input, rest, inner),
        None => rest == input && exists|failure: Failure| p.rejects(input, failure),
    }
}

/// Where `p` cannot succeed, or did not, `optional(p)` produces nothing and
/// leaves the cursor as it was: the same position, the same remaining text.
pub proof fn lemma_optional_absent<T, P: Parser<T>>(
    p: P,
    input: Cursor,
    rest: Cursor,
    value: Option<T>,
)
    requires
        optional_accepts(p, input, rest, value),
        value is None || forall|after: Cursor, inner: T| !p.accepts(input, after, inner),
    ensures
        value is None,
        rest.position == input.position,
        rest.text == input.text,
{
}

#[verifier::reject_recursive_types(T)]
struct OptionalParser<T, P: Parser<T>> {
    p: P,
    marker: PhantomData<T>,
}

impl<T, P: Parser<T>> Parser<Option<T>> for OptionalParser<T, P> {
    closed spec fn accepts(&self, input: Cursor, rest: Cursor, value: Option<T>) -> bool {
        optional_accepts(self.p, input, rest, value)
    }

    closed spec fn rejects(&self, input: Cursor, failure: Failure) -> bool {
        false
    }

    fn parse(&self, input: MorsecStr) -> (outcome: Result<(MorsecStr, Option<T>), MorsecError>) {
        match self.p.parse(input.clone()) {
            Ok((rest, inner)) => Ok((rest, Some(inner))),
            Err(failure) => {
                proof {
                    assert(self.p.rejects(input@, failure@));
                    input@.lemma_reaches_itself();
                }
                Ok((input, None))
            },
        }
    }
}

/// The parser that runs `p` once: where `p` succeeds it produces the value,
/// where `p` fails it produces nothing and consumes nothing. It never fails.
pub fn optional<T>(p: impl Parser<T> + 'static) -> (parser: impl Parser<Option<T>>)
    ensures
        forall|input: Cursor, rest: Cursor, value: Option<T>| #[trigger]
            parser.accepts(input, rest, value) <==> optional_accepts(p, input, rest, value),
        forall|input: Cursor, failure: Failure| !(#[trigger] parser.rejects(input, failure)),
{
    OptionalParser { p, marker: PhantomData }
}

/// The cursors that `many(p)` passed through: `trail[0]` is the cursor given,
/// and each round `k` took `p` from `trail[k]` to `trail[k + 1]` with the
/// value `values[k]`. Only rounds that consumed something are kept.
pub open spec fn many_trail<T, P: Parser<T>>(
    p: P,
    input: Cursor,
    trail: Seq<Cursor>,
    values: Seq<T>,
) -> bool {
    &&& trail.len() == values.len() + 1
    &&& trail[0] == input
    &&& forall|k: int|
        #![trigger values[k]]
        0 <= k < values.len() ==> {
            &&& p.accepts(trail[k], trail[k + 1], values[k])
            &&& trail[k + 1].text.len() < trail[k].text.len()
        }
}

/// Where `many(p)` ends: at a cursor at which `p` failed, or succeeded
/// without consuming anything. Such a round adds no value.
pub open spec fn many_stops<T, P: Parser<T>>(p: P, at: Cursor) -> bool {
    ||| exists|failure: Failure| p.rejects(at, failure)
    ||| exists|rest: Cursor, value: T| #[trigger]
        p.accepts(at, rest, value) && rest.text.len() >= at.text.len()
}

/// What `many(p)` may return: the values of the rounds that consumed
/// something, in order, and the cursor behind the last of them.
pub open spec fn many_accepts<T, P: Parser<T>>(
    p: P,
    input: Cursor,
    rest: Cursor,
    values: Seq<T>,
) -> bool {
    exists|trail: Seq<Cursor>| #[trigger]
        many_trail(p, input, trail, values) && trail.last() == rest && many_stops(p, rest)
}

/// Two trails of a single-valued parser from one cursor agree as far as both
/// go.
proof fn lemma_trails_agree<T, P: Parser<T>>(
    p: P,
    same: spec_fn(T, T) -> bool,
    input: Cursor,
    trail: Seq<Cursor>,
    values: Seq<T>,
    other_trail: Seq<Cursor>,
    others: Seq<T>,
    k: int,
)
    requires
        single_valued(p, same),
        many_trail(p, input, trail, values),
        many_trail(p, input, other_trail, others),
        0 <= k <= values.len(),
        k <= others.len(),
    ensures
        trail[k] == other_trail[k],
        forall|j: int| 0 <= j < k ==> same(#[trigger] values[j], others[j]),
    decreases k,
{
    if k > 0 {
        lemma_trails_agree(p, same, input, trail, values, other_trail, others, k - 1);
        let value = values[k - 1];
        let other = others[k - 1];
        assert(p.accepts(trail[k - 1], trail[k], value));
        assert(p.accepts(other_trail[k - 1], other_trail[k], other));
    }
}

/// A trail that goes on where `many(p)` would stop cannot be: the parser is
/// single-valued, so the round that goes on is the round that stopped.
proof fn lemma_stop_ends_trail<T, P: Parser<T>>(
    p: P,
    same: spec_fn(T, T) -> bool,
    input: Cursor,
    trail: Seq<Cursor>,
    values: Seq<T>,
    k: int,
)
    requires
        single_valued(p, same),
        many_trail(p, input, trail, values),
        0 <= k <= values.len(),
        many_stops(p, trail[k]),
    ensures
        k == values.len(),
{
    if k < values.len() {
        let value = values[k];
        assert(p.accepts(trail[k], trail[k + 1], value));
        if exists|failure: Failure| p.rejects(trail[k], failure) {
            let failure = choose|failure: Failure| p.rejects(trail[k], failure);
            assert(false);
        } else {
            let (rest, idle) = choose|rest: Cursor, idle: T| #[trigger]
                p.accepts(trail[k], rest, idle) && rest.text.len() >= trail[k].text.len();
            assert(rest == trail[k + 1]);
            assert(false);
        }
    }
}

/// `many(p)` is as single-valued as `p`: run twice from the same cursor, it
/// stops at the same cursor with the same number of values, equal one by one.
pub proof fn lemma_many_single_valued<T, P: Parser<T>>(
    p: P,
    same: spec_fn(T, T) -> bool,
    input: Cursor,
    rest: Cursor,
    values: Seq<T>,
    other_rest: Cursor,
    others: Seq<T>,
)
    requires
        single_valued(p, same),
        many_accepts(p, input, rest, values),
        many_accepts(p, input, other_rest, others),
    ensures
        rest == other_rest,
        values.len() == others.len(),
        forall|k: int| 0 <= k < values.len() ==> same(#[trigger] values[k], others[k]),
{
    let trail = choose|trail: Seq<Cursor>| #[trigger]
        many_trail(p, input, trail, values) && trail.last() == rest && many_stops(p, rest);
    let other_trail = choose|trail: Seq<Cursor>| #[trigger]
        many_trail(p, input, trail, others) && trail.last() == other_rest && many_stops(
            p,
            other_rest,
        );
    if values.len() <= others.len() {
        let k = values.len() as int;
        lemma_trails_agree(p, same, input, trail, values, other_trail, others, k);
        lemma_stop_ends_trail(p, same, input, other_trail, others, k);
    } else {
        let k = others.len() as int;
        lemma_trails_agree(p, same, input, trail, values, other_trail, others, k);
        lemma_stop_ends_trail(p, same, input, trail, values, k);
    }
}

#[verifier::reject_recursive_types(T)]
struct ManyParser<T, P: Parser<T>> {
    p: P,
    marker: PhantomData<T>,
}

impl<T, P: Parser<T>> Parser<Vec<T>> for ManyParser<T, P> {
    closed spec fn accepts(&self, input: Cursor, rest: Cursor, value: Vec<T>) -> bool {
        many_accepts(self.p, input, rest, value@)
    }

    closed spec fn rejects(&self, input: Cursor, failure: Failure) -> bool {
        false
    }

    fn parse(&self, input: MorsecStr) -> (outcome: Result<(MorsecStr, Vec<T>), MorsecError>) {
        let ghost mut trail: Seq<Cursor> = seq![input@];
        let mut rest = input;
        let mut values: Vec<T> = Vec::new();
        proof {
            input@.lemma_reaches_itself();
        }
        loop
            invariant
                many_trail(self.p, input@, trail, values@),
                trail.last() == rest@,
                input@.reaches(rest@),
            ensures
                many_trail(self.p, input@, trail, values@),
                trail.last() == rest@,
                input@.reaches(rest@),
                many_stops(self.p, rest@),
            decreases rest@.text.len(),
        {
            let left = rest.len();
            match self.p.parse(rest.clone()) {
                Ok((next, value)) => {
                    if next.len() >= left {
                        assert(self.p.accepts(rest@, next@, value));
                        break ;
                    }
                    proof {
                        let before = trail;
                        let kept = values@;
                        trail = trail.push(next@);
                        input@.lemma_reaches_onward(rest@, next@);
                        assert forall|k: int|
                            #![trigger kept.push(value)[k]]
                            0 <= k < kept.len() + 1 implies {
                            &&& self.p.accepts(trail[k], trail[k + 1], kept.push(value)[k])
                            &&& trail[k + 1].text.len() < trail[k].text.len()
                        } by {
                            if k < kept.len() {
                                assert(kept.push(value)[k] == kept[k]);
                                assert(trail[k] == before[k]);
                                assert(trail[k + 1] == before[k + 1]);
                            }
                        }
                    }
                    values.push(value);
                    rest = next;
                },
                Err(failure) => {
                    assert(self.p.rejects(rest@, failure@));
                    break ;
                },
            }
        }
        Ok((rest, values))
    }
}

/// The parser that runs `p` again and again, each time from where the last
/// round stopped, and collects the values in order. It stops at the first
/// round that fails or consumes nothing, and keeps nothing of that round;
/// so it always ends, and it never fails.
pub fn many<T>(p: impl Parser<T> + 'static) -> (parser: impl Parser<Vec<T>>)
    ensures
        forall|input: Cursor, rest: Cursor, value: Vec<T>| #[trigger]
            parser.accepts(input, rest, value) <==> many_accepts(p, input, rest, value@),
        forall|input: Cursor, failure: Failure| !(#[trigger] parser.rejects(input, failure)),
{
    ManyParser { p, marker: PhantomData }
}

} // verus!
