//! The parsers that put two parsers together: one behind the other, keeping
//! the left value, the right value or both; or one in place of the other.

use crate::cursor::{Cursor, Failure, MorsecError, MorsecStr};
use crate::parser::Parser;
use std::marker::PhantomData;
use vstd::prelude::*;

verus! {

/// What `p` followed by `q` may return on failure: the failure of `p` at the
/// cursor given, or that of `q` at the cursor where `p` stopped. Nothing is
/// returned of a value that `p` had produced by then.
pub open spec fn then_rejects<T, U, P: Parser<T>, Q: Parser<U>>(
    p: P,
    q: Q,
    input: Cursor,
    failure: Failure,
) -> bool {
    ||| p.rejects(input, failure)
    ||| exists|mid: Cursor, first: T| #[trigger]
        p.accepts(input, mid, first) && q.rejects(mid, failure)
}

/// What `take_left(p, q)` may return on success: both succeeded in turn, and
/// the value is that of `p`.
pub open spec fn left_accepts<T, U, P: Parser<T>, Q: Parser<U>>(
    p: P,
    q: Q,
    input: Cursor,
    rest: Cursor,
    value: T,
) -> bool {
    exists|mid: Cursor, second: U|
        p.accepts(input, mid, value) && #[trigger] q.accepts(mid, rest, second)
}

/// What `take_right(p, q)` may return on success: both succeeded in turn, and
/// the value is that of `q`.
pub open spec fn right_accepts<T, U, P: Parser<T>, Q: Parser<U>>(
    p: P,
    q: Q,
    input: Cursor,
    rest: Cursor,
    value: U,
) -> bool {
    exists|mid: Cursor, first: T| #[trigger]
        p.accepts(input, mid, first) && q.accepts(mid, rest, value)
}

/// What `take_both(p, q)` may return on success: both succeeded in turn, and
/// the value is the pair of theirs.
pub open spec fn both_accepts<T, U, P: Parser<T>, Q: Parser<U>>(
    p: P,
    q: Q,
    input: Cursor,
    rest: Cursor,
    value: (T, U),
) -> bool {
    exists|mid: Cursor| #[trigger]
        p.accepts(input, mid, value.0) && q.accepts(mid, rest, value.1)
}

#[verifier::reject_recursive_types(T)]
#[verifier::reject_recursive_types(U)]
struct TakeLeftParser<T, U, P: Parser<T>, Q: Parser<U>> {
    p: P,
    q: Q,
    marker: PhantomData<(T, U)>,
}

impl<T, U, P: Parser<T>, Q: Parser<U>> Parser<T> for TakeLeftParser<T, U, P, Q> {
    closed spec fn accepts(&self, input: Cursor, rest: Cursor, value: T) -> bool {
        left_accepts(self.p, self.q, input, rest, value)
    }

    closed spec fn rejects(&self, input: Cursor, failure: Failure) -> bool {
        then_rejects(self.p, self.q, input, failure)
    }

    fn parse(&self, input: MorsecStr) -> (outcome: Result<(MorsecStr, T), MorsecError>) {
        match self.p.parse(input) {
            Ok((mid, value)) => match self.q.parse(mid) {
                Ok((rest, second)) => {
                    proof {
                        assert(self.p.accepts(input@, mid@, value) && self.q.accepts(
                            mid@,
                            rest@,
                            second,
                        ));
                        input@.lemma_reaches_onward(mid@, rest@);
                    }
                    Ok((rest, value))
                },
                Err(failure) => {
                    proof {
                        assert(self.p.accepts(input@, mid@, value) && self.q.rejects(
                            mid@,
                            failure@,
                        ));
                        input@.lemma_reaches_keeps_total(mid@);
                    }
                    Err(failure)
                },
            },
            Err(failure) => Err(failure),
        }
    }
}

/// The parser that runs `p`, then `q` from where `p` stopped, and keeps the
/// value of `p`. The first failure is handed on unchanged.
pub fn take_left<T, U>(p: impl Parser<T> + 'static, q: impl Parser<U> + 'static) -> (parser:
    impl Parser<T>)
    ensures
        forall|input: Cursor, rest: Cursor, value: T| #[trigger]
            parser.accepts(input, rest, value) <==> left_accepts(p, q, input, rest, value),
        forall|input: Cursor, failure: Failure| #[trigger]
            parser.rejects(input, failure) <==> then_rejects(p, q, input, failure),
{
    TakeLeftParser { p, q, marker: PhantomData }
}

#[verifier::reject_recursive_types(T)]
#[verifier::reject_recursive_types(U)]
struct TakeRightParser<T, U, P: Parser<T>, Q: Parser<U>> {
    p: P,
    q: Q,
    marker: PhantomData<(T, U)>,
}

impl<T, U, P: Parser<T>, Q: Parser<U>> Parser<U> for TakeRightParser<T, U, P, Q> {
    closed spec fn accepts(&self, input: Cursor, rest: Cursor, value: U) -> bool {
        right_accepts(self.p, self.q, input, rest, value)
    }

    closed spec fn rejects(&self, input: Cursor, failure: Failure) -> bool {
        then_rejects(self.p, self.q, input, failure)
    }

    fn parse(&self, input: MorsecStr) -> (outcome: Result<(MorsecStr, U), MorsecError>) {
        match self.p.parse(input) {
            Ok((mid, first)) => {
                let outcome = self.q.parse(mid);
                proof {
                    assert(self.p.accepts(input@, mid@, first));
                    input@.lemma_reaches_keeps_total(mid@);
                    if outcome is Ok {
                        input@.lemma_reaches_onward(mid@, outcome->Ok_0.0@);
                    }
                }
                outcome
            },
            Err(failure) => Err(failure),
        }
    }
}

/// The parser that runs `p`, then `q` from where `p` stopped, and keeps the
/// value of `q`. The first failure is handed on unchanged.
pub fn take_right<T, U>(p: impl Parser<T> + 'static, q: impl Parser<U> + 'static) -> (parser:
    impl Parser<U>)
    ensures
        forall|input: Cursor, rest: Cursor, value: U| #[trigger]
            parser.accepts(input, rest, value) <==> right_accepts(p, q, input, rest, value),
        forall|input: Cursor, failure: Failure| #[trigger]
            parser.rejects(input, failure) <==> then_rejects(p, q, input, failure),
{
    TakeRightParser { p, q, marker: PhantomData }
}

#[verifier::reject_recursive_types(T)]
#[verifier::reject_recursive_types(U)]
struct TakeBothParser<T, U, P: Parser<T>, Q: Parser<U>> {
    p: P,
    q: Q,
    marker: PhantomData<(T, U)>,
}

impl<T, U, P: Parser<T>, Q: Parser<U>> Parser<(T, U)> for TakeBothParser<T, U, P, Q> {
    closed spec fn accepts(&self, input: Cursor, rest: Cursor, value: (T, U)) -> bool {
        both_accepts(self.p, self.q, input, rest, value)
    }

    closed spec fn rejects(&self, input: Cursor, failure: Failure) -> bool {
        then_rejects(self.p, self.q, input, failure)
    }

    fn parse(&self, input: MorsecStr) -> (outcome: Result<(MorsecStr, (T, U)), MorsecError>) {
        match self.p.parse(input) {
            Ok((mid, first)) => match self.q.parse(mid) {
                Ok((rest, second)) => {
                    let value = (first, second);
                    proof {
                        assert(self.p.accepts(input@, mid@, value.0) && self.q.accepts(
                            mid@,
                            rest@,
                            value.1,
                        ));
                        input@.lemma_reaches_onward(mid@, rest@);
                    }
                    Ok((rest, value))
                },
                Err(failure) => {
                    proof {
                        assert(self.p.accepts(input@, mid@, first) && self.q.rejects(
                            mid@,
                            failure@,
                        ));
                        input@.lemma_reaches_keeps_total(mid@);
                    }
                    Err(failure)
                },
            },
            Err(failure) => Err(failure),
        }
    }
}

/// The parser that runs `p`, then `q` from where `p` stopped, and keeps both
/// values as a pair. The first failure is handed on unchanged.
pub fn take_both<T, U>(p: impl Parser<T> + 'static, q: impl Parser<U> + 'static) -> (parser:
    impl Parser<(T, U)>)
    ensures
        forall|input: Cursor, rest: Cursor, value: (T, U)| #[trigger]
            parser.accepts(input, rest, value) <==> both_accepts(p, q, input, rest, value),
        forall|input: Cursor, failure: Failure| #[trigger]
            parser.rejects(input, failure) <==> then_rejects(p, q, input, failure),
{
    TakeBothParser { p, q, marker: PhantomData }
}

/// The message of an alternative of which both branches failed.
pub open spec fn or_message(first: Seq<char>, second: Seq<char>) -> Seq<char> {
    first + " or "@ + second
}

/// What `take_or(p, q)` may return on success: what `p` returned, or, where
/// `p` failed, what `q` returned from the same cursor.
pub open spec fn or_accepts<T, P: Parser<T>, Q: Parser<T>>(
    p: P,
    q: Q,
    input: Cursor,
    rest: Cursor,
    value: T,
) -> bool {
    ||| p.accepts(input, rest, value)
    ||| (exists|first: Failure| p.rejects(input, first)) && q.accepts(input, rest, value)
}

/// What `take_or(p, q)` may return on failure: both failed at the cursor
/// given, and the failure joins their messages at that cursor's position.
pub open spec fn or_rejects<T, P: Parser<T>, Q: Parser<T>>(
    p: P,
    q: Q,
    input: Cursor,
    failure: Failure,
) -> bool {
    exists|first: Failure, second: Failure|
        #![trigger p.rejects(input, first), q.rejects(input, second)]
        p.rejects(input, first) && q.rejects(input, second) && failure == (Failure {
            message: or_message(first.message, second.message),
            position: input.position,
        })
}

#[verifier::reject_recursive_types(T)]
struct TakeOrParser<T, P: Parser<T>, Q: Parser<T>> {
    p: P,
    q: Q,
    marker: PhantomData<T>,
}

impl<T, P: Parser<T>, Q: Parser<T>> Parser<T> for TakeOrParser<T, P, Q> {
    closed spec fn accepts(&self, input: Cursor, rest: Cursor, value: T) -> bool {
        or_accepts(self.p, self.q, input, rest, value)
    }

    closed spec fn rejects(&self, input: Cursor, failure: Failure) -> bool {
        or_rejects(self.p, self.q, input, failure)
    }

    fn parse(&self, input: MorsecStr) -> (outcome: Result<(MorsecStr, T), MorsecError>) {
        let position = input.position();
        match self.p.parse(input.clone()) {
            Ok((rest, value)) => Ok((rest, value)),
            Err(first) => match self.q.parse(input) {
                Ok((rest, value)) => {
                    assert(self.p.rejects(input@, first@));
                    Ok((rest, value))
                },
                Err(second) => {
                    let mut message = first.message;
                    message.append(" or ");
                    message.append(second.message.as_str());
                    assert(self.p.rejects(input@, first@) && self.q.rejects(input@, second@));
                    Err(MorsecError { message, position })
                },
            },
        }
    }
}

/// The parser that runs `p` and, where `p` fails, runs `q` from the same
/// cursor. Where both fail, the failure describes both attempts and stands at
/// the position of the cursor given.
pub fn take_or<T>(p: impl Parser<T> + 'static, q: impl Parser<T> + 'static) -> (parser:
    impl Parser<T>)
    ensures
        forall|input: Cursor, rest: Cursor, value: T| #[trigger]
            parser.accepts(input, rest, value) <==> or_accepts(p, q, input, rest, value),
        forall|input: Cursor, failure: Failure| #[trigger]
            parser.rejects(input, failure) <==> or_rejects(p, q, input, failure),
{
    TakeOrParser { p, q, marker: PhantomData }
}

} // verus!
