//! A small parser-combinator engine: recursive-descent text parsers are built by
//! composing small parsers, each of which maps a cursor either to a value and the
//! cursor behind what it consumed, or to a failure.
//!
//! Every parser describes itself by two relations over ghost cursors,
//! [`Parser::accepts`] and [`Parser::rejects`]; each combinator states exactly
//! how the relations of the parser it builds follow from those of its parts.
//!
//! The cursor and the parser contract have modules of their own, and so have the
//! primitive parsers. The two combinators that transform what a parser produced,
//! `map` and `bind`, stand here at the root.

pub mod cursor;
pub mod parser;
pub mod primitive;
pub mod repetition;
pub mod structural;

pub use cursor::{Cursor, Failure, MorsecError, MorsecStr};
pub use parser::Parser;
pub use primitive::{prefix, while_parse, wrap};
pub use repetition::{many, optional};
pub use structural::{take_both, take_left, take_or, take_right};

use std::marker::PhantomData;
use vstd::prelude::*;

verus! {

/// What `map(p, f)` may return on success: what `p` returned, with `f`
/// applied to the value.
pub open spec fn map_accepts<T, U, P: Parser<T>, F: Fn(T) -> U>(
    p: P,
    f: F,
    input: Cursor,
    rest: Cursor,
    value: U,
) -> bool {
    exists|inner: T| #[trigger] p.accepts(input, rest, inner) && f.ensures((inner,), value)
}

#[verifier::reject_recursive_types(T)]
#[verifier::reject_recursive_types(U)]
struct MapParser<T, U, P: Parser<T>, F: Fn(T) -> U> {
    p: P,
    f: F,
    marker: PhantomData<(T, U)>,
}

impl<T, U, P: Parser<T>, F: Fn(T) -> U> MapParser<T, U, P, F> {
    #[verifier::type_invariant]
    spec fn takes_every_value(self) -> bool {
        forall|input: Cursor, rest: Cursor, inner: T| #[trigger]
            self.p.accepts(input, rest, inner) ==> self.f.requires((inner,))
    }
}

impl<T, U, P: Parser<T>, F: Fn(T) -> U> Parser<U> for MapParser<T, U, P, F> {
    closed spec fn accepts(&self, input: Cursor, rest: Cursor, value: U) -> bool {
        map_accepts(self.p, self.f, input, rest, value)
    }

    closed spec fn rejects(&self, input: Cursor, failure: Failure) -> bool {
        self.p.rejects(input, failure)
    }

    fn parse(&self, input: MorsecStr) -> (outcome: Result<(MorsecStr, U), MorsecError>) {
        proof {
            use_type_invariant(self);
        }
        match self.p.parse(input) {
            Ok((rest, inner)) => {
                let value = (self.f)(inner);
                assert(self.p.accepts(input@, rest@, inner) && self.f.ensures((inner,), value));
                Ok((rest, value))
            },
            Err(failure) => Err(failure),
        }
    }
}

/// The parser that runs `p` and applies `f` to the value it produced. A
/// failure of `p` is handed on unchanged.
pub fn map<T, U, F>(p: impl Parser<T> + 'static, f: F) -> (parser: impl Parser<U>) where
    F: Fn(T) -> U + 'static,

    requires
        forall|input: Cursor, rest: Cursor, inner: T| #[trigger]
            p.accepts(input, rest, inner) ==> f.requires((inner,)),
    ensures
        forall|input: Cursor, rest: Cursor, value: U| #[trigger]
            parser.accepts(input, rest, value) <==> map_accepts(p, f, input, rest, value),
        forall|input: Cursor, failure: Failure| #[trigger]
            parser.rejects(input, failure) <==> p.rejects(input, failure),
{
    MapParser { p, f, marker: PhantomData }
}

/// What `bind(p, f)` may return on success: `p` succeeded, `f` made a parser
/// from its value, and that parser succeeded from where `p` stopped.
pub open spec fn bind_accepts<T, U, P: Parser<T>, Q: Parser<U>, F: Fn(T) -> Q>(
    p: P,
    f: F,
    input: Cursor,
    rest: Cursor,
    value: U,
) -> bool {
    exists|mid: Cursor, inner: T, next: Q|
        #![trigger p.accepts(input, mid, inner), f.ensures((inner,), next)]
        p.accepts(input, mid, inner) && f.ensures((inner,), next) && next.accepts(
            mid,
            rest,
            value,
        )
}

/// What `bind(p, f)` may return on failure: the failure of `p`, or that of the
/// parser that `f` made, met where `p` stopped.
pub open spec fn bind_rejects<T, U, P: Parser<T>, Q: Parser<U>, F: Fn(T) -> Q>(
    p: P,
    f: F,
    input: Cursor,
    failure: Failure,
) -> bool {
    ||| p.rejects(input, failure)
    ||| exists|mid: Cursor, inner: T, next: Q|
        #![trigger p.accepts(input, mid, inner), f.ensures((inner,), next)]
        p.accepts(input, mid, inner) && f.ensures((inner,), next) && next.rejects(mid, failure)
}

#[verifier::reject_recursive_types(T)]
#[verifier::reject_recursive_types(U)]
#[verifier::reject_recursive_types(Q)]
struct BindParser<T, U, P: Parser<T>, Q: Parser<U>, F: Fn(T) -> Q> {
    p: P,
    f: F,
    marker: PhantomData<(T, U, Q)>,
}

impl<T, U, P: Parser<T>, Q: Parser<U>, F: Fn(T) -> Q> BindParser<T, U, P, Q, F> {
    #[verifier::type_invariant]
    spec fn takes_every_value(self) -> bool {
        forall|input: Cursor, mid: Cursor, inner: T| #[trigger]
            self.p.accepts(input, mid, inner) ==> self.f.requires((inner,))
    }
}

impl<T, U, P: Parser<T>, Q: Parser<U>, F: Fn(T) -> Q> Parser<U> for BindParser<T, U, P, Q, F> {
    closed spec fn accepts(&self, input: Cursor, rest: Cursor, value: U) -> bool {
        bind_accepts(self.p, self.f, input, rest, value)
    }

    closed spec fn rejects(&self, input: Cursor, failure: Failure) -> bool {
        bind_rejects(self.p, self.f, input, failure)
    }

    fn parse(&self, input: MorsecStr) -> (outcome: Result<(MorsecStr, U), MorsecError>) {
        proof {
            use_type_invariant(self);
        }
        match self.p.parse(input) {
            Ok((mid, inner)) => {
                let next = (self.f)(inner);
                let outcome = next.parse(mid);
                proof {
                    assert(self.p.accepts(input@, mid@, inner) && self.f.ensures((inner,), next));
                    input@.lemma_reaches_keeps_total(mid@);
                    if outcome is Ok {
                        input@.lemma_reaches_onward(mid@, outcome->Ok_0.0@);
                    }
                }
                outcome
            },
            Err(failure) => Err(failure),
        }
    }
}

/// The parser that runs `p`, hands the value to `f`, and runs the parser that
/// `f` returns from where `p` stopped: what is parsed next may depend on what
/// was parsed before. A failure of either is handed on unchanged.
pub fn bind<T, U, Q, F>(p: impl Parser<T> + 'static, f: F) -> (parser: impl Parser<U>) where
    Q: Parser<U>,
    F: Fn(T) -> Q,

    requires
        forall|input: Cursor, mid: Cursor, inner: T| #[trigger]
            p.accepts(input, mid, inner) ==> f.requires((inner,)),
    ensures
        forall|input: Cursor, rest: Cursor, value: U| #[trigger]
            parser.accepts(input, rest, value) <==> bind_accepts(p, f, input, rest, value),
        forall|input: Cursor, failure: Failure| #[trigger]
            parser.rejects(input, failure) <==> bind_rejects(p, f, input, failure),
{
    BindParser { p, f, marker: PhantomData }
}

} // verus!
