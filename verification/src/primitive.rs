//! The parsers that look at the text themselves: one that consumes nothing,
//! one that matches a literal, one that takes a run of characters.

use crate::cursor::{letters, Cursor, Failure, MorsecError, MorsecStr};
use crate::parser::{single_valued, Parser};
use vstd::prelude::*;

verus! {

/// What `wrap(x)` may return: a clone of `x`, at the cursor it was given.
pub open spec fn wrap_accepts<T: Clone>(x: T, input: Cursor, rest: Cursor, value: T) -> bool {
    &&& rest == input
    &&& cloned::<T>(x, value)
}

struct WrapParser<T> {
    x: T,
}

impl<T: Clone> Parser<T> for WrapParser<T> {
    closed spec fn accepts(&self, input: Cursor, rest: Cursor, value: T) -> bool {
        wrap_accepts(self.x, input, rest, value)
    }

    closed spec fn rejects(&self, input: Cursor, failure: Failure) -> bool {
        false
    }

    fn parse(&self, input: MorsecStr) -> (outcome: Result<(MorsecStr, T), MorsecError>) {
        proof {
            input@.lemma_reaches_itself();
        }
        Ok((input, self.x.clone()))
    }
}

/// The parser that always succeeds: it consumes nothing and produces a clone
/// of `x`.
pub fn wrap<T: Clone>(x: T) -> (parser: impl Parser<T>)
    ensures
        forall|input: Cursor, rest: Cursor, value: T| #[trigger]
            parser.accepts(input, rest, value) <==> wrap_accepts(x, input, rest, value),
        forall|input: Cursor, failure: Failure| !(#[trigger] parser.rejects(input, failure)),
{
    WrapParser { x }
}

/// The message of a literal that was not found: it names the literal, and
/// shows what stood in its place.
pub open spec fn expected_message(literal: Seq<char>, found: Seq<char>) -> Seq<char> {
    "Expected prefix '"@ + literal + "' but got '"@ + found + "'"@
}

/// What `prefix(literal)` may return on success: the text begins with the
/// literal, the cursor moves behind it, and the value is the literal.
pub open spec fn prefix_accepts(
    literal: Seq<char>,
    input: Cursor,
    rest: Cursor,
    value: Seq<char>,
) -> bool {
    &&& literal.is_prefix_of(input.text)
    &&& rest == input.advance(literal.len())
    &&& value == literal
}

/// What `prefix(literal)` may return on failure: the text does not begin with
/// the literal, and the failure stands at the cursor's own position. Its
/// message shows as many characters of the text as the literal has, or all
/// that remain where they are fewer.
pub open spec fn prefix_rejects(literal: Seq<char>, input: Cursor, failure: Failure) -> bool {
    &&& !literal.is_prefix_of(input.text)
    &&& failure == Failure {
        message: expected_message(literal, input.head(literal.len())),
        position: input.position,
    }
}

/// A literal that begins the text is always matched: the parser cannot fail,
/// it returns the literal, and it leaves the text without its first
/// `literal.len()` characters, at a position further by exactly that many.
pub proof fn lemma_prefix_present(literal: Seq<char>, input: Cursor)
    requires
        literal.is_prefix_of(input.text),
    ensures
        forall|failure: Failure| !prefix_rejects(literal, input, failure),
        prefix_accepts(literal, input, input.advance(literal.len()), literal),
        forall|rest: Cursor, value: Seq<char>| #[trigger]
            prefix_accepts(literal, input, rest, value) ==> {
                &&& value == literal
                &&& rest.text == input.text.skip(literal.len() as int)
                &&& rest.position == input.position + literal.len()
            },
{
}

/// A literal that does not begin the text is never matched, and the failure
/// reports the position of the cursor that was given, unchanged.
pub proof fn lemma_prefix_absent(literal: Seq<char>, input: Cursor)
    requires
        !literal.is_prefix_of(input.text),
    ensures
        forall|rest: Cursor, value: Seq<char>| !prefix_accepts(literal, input, rest, value),
        forall|failure: Failure| #[trigger]
            prefix_rejects(literal, input, failure) ==> failure.position == input.position,
{
}

/// Two strings with the same text.
pub open spec fn same_text(left: String, right: String) -> bool {
    left@ == right@
}

/// A literal parser behaves as a function of the cursor: what it returns is
/// fixed by the literal and the text.
pub proof fn lemma_prefix_single_valued<R: Parser<String>>(parser: R, literal: Seq<char>)
    requires
        forall|input: Cursor, rest: Cursor, value: String| #[trigger]
            parser.accepts(input, rest, value) <==> prefix_accepts(literal, input, rest, value@),
        forall|input: Cursor, failure: Failure| #[trigger]
            parser.rejects(input, failure) <==> prefix_rejects(literal, input, failure),
    ensures
        single_valued(parser, |left: String, right: String| same_text(left, right)),
{
}

struct PrefixParser {
    literal: String,
    chars: Vec<char>,
}

impl PrefixParser {
    #[verifier::type_invariant]
    spec fn chars_spell_literal(self) -> bool {
        self.chars@ == self.literal@
    }
}

/// Whether the remaining text of `input` begins with `chars`.
fn begins_with(input: &MorsecStr, chars: &Vec<char>) -> (found: bool)
    ensures
        found == chars@.is_prefix_of(input@.text),
{
    let mut matched: usize = 0;
    while matched < chars.len()
        invariant
            matched <= chars@.len(),
            matched <= input@.text.len(),
            chars@.take(matched as int) =~= input@.text.take(matched as int),
        decreases chars@.len() - matched,
    {
        match input.get(matched) {
            Some(c) if c == chars[matched] => {
                assert(chars@.take(matched + 1) =~= chars@.take(matched as int).push(c));
                assert(input@.text.take(matched + 1) =~= input@.text.take(matched as int).push(c));
                matched += 1;
            },
            Some(_) => {
                assert(!chars@.is_prefix_of(input@.text)) by {
                    if chars@.is_prefix_of(input@.text) {
                        let head = input@.text.subrange(0, chars@.len() as int);
                        assert(chars@[matched as int] == head[matched as int]);
                    }
                }
                return false;
            },
            None => {
                return false;
            },
        }
    }
    assert(chars@.take(matched as int) =~= chars@);
    true
}

/// The message of a failed literal, put together.
fn expected(literal: &String, found: &String) -> (message: String)
    ensures
        message@ == expected_message(literal@, found@),
{
    let mut message = "Expected prefix '".to_owned();
    message.append(literal.as_str());
    message.append("' but got '");
    message.append(found.as_str());
    message.append("'");
    message
}

impl Parser<String> for PrefixParser {
    closed spec fn accepts(&self, input: Cursor, rest: Cursor, value: String) -> bool {
        prefix_accepts(self.literal@, input, rest, value@)
    }

    closed spec fn rejects(&self, input: Cursor, failure: Failure) -> bool {
        prefix_rejects(self.literal@, input, failure)
    }

    fn parse(&self, input: MorsecStr) -> (outcome: Result<(MorsecStr, String), MorsecError>) {
        proof {
            use_type_invariant(self);
        }
        if begins_with(&input, &self.chars) {
            Ok((input.advance(self.chars.len()), self.literal.clone()))
        } else {
            let found = input.take(self.chars.len());
            Err(MorsecError { message: expected(&self.literal, &found), position: input.position() })
        }
    }
}

/// The parser that matches the literal `p` at the cursor, character by
/// character: it succeeds exactly when the remaining text begins with `p`.
pub fn prefix(p: String) -> (parser: impl Parser<String>)
    ensures
        forall|input: Cursor, rest: Cursor, value: String| #[trigger]
            parser.accepts(input, rest, value) <==> prefix_accepts(p@, input, rest, value@),
        forall|input: Cursor, failure: Failure| #[trigger]
            parser.rejects(input, failure) <==> prefix_rejects(p@, input, failure),
{
    let chars = letters(p.as_str());
    PrefixParser { literal: p, chars }
}

/// What `while_parse(predicate)` may return: the longest run of characters
/// at the cursor that the predicate lets through, and the cursor behind it.
/// The run ends at the end of the text or before a character that the
/// predicate turns down.
pub open spec fn while_accepts<F: Fn(char) -> bool>(
    predicate: F,
    input: Cursor,
    rest: Cursor,
    value: Seq<char>,
) -> bool {
    let count = value.len();
    &&& count <= input.text.len()
    &&& value == input.head(count)
    &&& rest == input.advance(count)
    &&& forall|k: int| 0 <= k < count ==> predicate.ensures((#[trigger] input.text[k],), true)
    &&& count < input.text.len() ==> predicate.ensures((input.text[count as int],), false)
}

/// Where the predicate lets none of the remaining characters through, the run
/// is empty and the cursor stays where it was.
pub proof fn lemma_while_none<F: Fn(char) -> bool>(
    predicate: F,
    input: Cursor,
    rest: Cursor,
    value: Seq<char>,
)
    requires
        forall|k: int|
            0 <= k < input.text.len() ==> !predicate.ensures((#[trigger] input.text[k],), true),
        while_accepts(predicate, input, rest, value),
    ensures
        value == Seq::<char>::empty(),
        rest == input,
{
    if value.len() > 0 {
        assert(predicate.ensures((input.text[0],), true));
    }
    assert(value =~= Seq::<char>::empty());
    assert(input.text.skip(0) =~= input.text);
}

/// A predicate that gives one answer for each character.
pub open spec fn decides<F: Fn(char) -> bool>(predicate: F) -> bool {
    forall|c: char|
        !(#[trigger] predicate.ensures((c,), true) && #[trigger] predicate.ensures((c,), false))
}

/// Around a predicate that gives one answer for each character, the run
/// parser behaves as a function of the cursor.
pub proof fn lemma_while_single_valued<F: Fn(char) -> bool, R: Parser<String>>(
    parser: R,
    predicate: F,
)
    requires
        decides(predicate),
        forall|input: Cursor, rest: Cursor, value: String| #[trigger]
            parser.accepts(input, rest, value) <==> while_accepts(predicate, input, rest, value@),
        forall|input: Cursor, failure: Failure| !(#[trigger] parser.rejects(input, failure)),
    ensures
        single_valued(parser, |left: String, right: String| same_text(left, right)),
{
    assert forall|input: Cursor, rest: Cursor, value: String, other_rest: Cursor, other: String|
        #![trigger parser.accepts(input, rest, value), parser.accepts(input, other_rest, other)]
        parser.accepts(input, rest, value) && parser.accepts(
            input,
            other_rest,
            other,
        ) implies rest == other_rest && same_text(value, other) by {
        let count = value@.len();
        let other_count = other@.len();
        if count < other_count {
            assert(predicate.ensures((input.text[count as int],), true));
        } else if other_count < count {
            assert(predicate.ensures((input.text[other_count as int],), true));
        }
    }
}

struct WhileParser<F: Fn(char) -> bool> {
    predicate: F,
}

impl<F: Fn(char) -> bool> WhileParser<F> {
    #[verifier::type_invariant]
    spec fn takes_every_char(self) -> bool {
        forall|c: char| #[trigger] self.predicate.requires((c,))
    }
}

impl<F: Fn(char) -> bool> Parser<String> for WhileParser<F> {
    closed spec fn accepts(&self, input: Cursor, rest: Cursor, value: String) -> bool {
        while_accepts(self.predicate, input, rest, value@)
    }

    closed spec fn rejects(&self, input: Cursor, failure: Failure) -> bool {
        false
    }

    fn parse(&self, input: MorsecStr) -> (outcome: Result<(MorsecStr, String), MorsecError>) {
        proof {
            use_type_invariant(self);
        }
        let available = input.len();
        let mut run: usize = 0;
        loop
            invariant
                run <= available == input@.text.len(),
                forall|c: char| #[trigger] self.predicate.requires((c,)),
                forall|k: int|
                    0 <= k < run ==> self.predicate.ensures((#[trigger] input@.text[k],), true),
            ensures
                run <= input@.text.len(),
                forall|k: int|
                    0 <= k < run ==> self.predicate.ensures((#[trigger] input@.text[k],), true),
                run < input@.text.len() ==> self.predicate.ensures(
                    (input@.text[run as int],),
                    false,
                ),
            decreases available - run,
        {
            match input.get(run) {
                Some(c) => {
                    if !(self.predicate)(c) {
                        break ;
                    }
                    run += 1;
                },
                None => {
                    break ;
                },
            }
        }
        let value = input.take(run);
        Ok((input.advance(run), value))
    }
}

/// The parser that takes the longest run of characters at the cursor that
/// `predicate` lets through. It never fails; the run may be empty.
pub fn while_parse<F>(predicate: F) -> (parser: impl Parser<String>) where F: Fn(char) -> bool
    requires
        forall|c: char| #[trigger] predicate.requires((c,)),
    ensures
        forall|input: Cursor, rest: Cursor, value: String| #[trigger]
            parser.accepts(input, rest, value) <==> while_accepts(predicate, input, rest, value@),
        forall|input: Cursor, failure: Failure| !(#[trigger] parser.rejects(input, failure)),
{
    WhileParser { predicate }
}

} // verus!
