//! The contract that every parser meets.

use crate::cursor::{Cursor, Failure, MorsecError, MorsecStr};
use vstd::prelude::*;

verus! {

/// A parser of values of type `T`: one operation, from a cursor to either the
/// cursor behind what was consumed together with the value produced, or a
/// failure.
///
/// What a parser may return is given by two relations over ghost cursors.
/// They are relations rather than functions because a parser may be built
/// around a closure, of which only its own contract is known.
pub trait Parser<T> {
    /// Started at `input`, the parser may succeed with `value` and leave the
    /// cursor at `rest`.
    spec fn accepts(&self, input: Cursor, rest: Cursor, value: T) -> bool;

    /// Started at `input`, the parser may refuse with `failure`.
    spec fn rejects(&self, input: Cursor, failure: Failure) -> bool;

    /// Runs the parser at `input`.
    ///
    /// Whatever the parser, a success never moves the cursor backwards or onto
    /// another input: the cursor it leaves is the cursor given, advanced over
    /// what was consumed. And a failure is reported at a position of the text
    /// the parser was given: not before the cursor, not behind the end of the
    /// input.
    fn parse(&self, input: MorsecStr) -> (outcome: Result<(MorsecStr, T), MorsecError>)
        ensures
            match outcome {
                Ok((rest, value)) => {
                    &&& self.accepts(input@, rest@, value)
                    &&& input@.reaches(rest@)
                },
                Err(failure) => {
                    &&& self.rejects(input@, failure@)
                    &&& input@.position <= failure@.position <= input@.total()
                },
            },
    ;
}

/// A parser that behaves as a function of the cursor: at each cursor it has
/// at most one outcome. It cannot both succeed and fail there; two successes
/// stop at the same cursor, with values that `same` holds to be equal; and two
/// failures are the same failure.
///
/// Values are compared by `same` because a value such as a `String` is known
/// to contracts by its view only.
pub open spec fn single_valued<T, P: Parser<T>>(p: P, same: spec_fn(T, T) -> bool) -> bool {
    &&& forall|input: Cursor, rest: Cursor, value: T, other_rest: Cursor, other: T|
        #![trigger p.accepts(input, rest, value), p.accepts(input, other_rest, other)]
        p.accepts(input, rest, value) && p.accepts(input, other_rest, other) ==> rest
            == other_rest && same(value, other)
    &&& forall|input: Cursor, rest: Cursor, value: T, failure: Failure|
        #![trigger p.accepts(input, rest, value), p.rejects(input, failure)]
        !(p.accepts(input, rest, value) && p.rejects(input, failure))
    &&& forall|input: Cursor, failure: Failure, other: Failure|
        #![trigger p.rejects(input, failure), p.rejects(input, other)]
        p.rejects(input, failure) && p.rejects(input, other) ==> failure == other
}

/// A boxed parser is the parser in the box. With this, a closure whose
/// branches build parsers of different shapes can return all of them as
/// `Box<dyn Parser<T>>`.
impl<T, P: Parser<T> + ?Sized> Parser<T> for Box<P> {
    open spec fn accepts(&self, input: Cursor, rest: Cursor, value: T) -> bool {
        (**self).accepts(input, rest, value)
    }

    open spec fn rejects(&self, input: Cursor, failure: Failure) -> bool {
        (**self).rejects(input, failure)
    }

    fn parse(&self, input: MorsecStr) -> (outcome: Result<(MorsecStr, T), MorsecError>) {
        (**self).parse(input)
    }
}

} // verus!
