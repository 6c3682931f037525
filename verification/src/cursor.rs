//! The input cursor and the failure record, each with the ghost value that
//! contracts speak of.

use std::sync::Arc;
use vstd::prelude::*;
use vstd::std_specs::iter::IteratorSpec;

verus! {

/// A cursor as contracts see it: the text that is still unconsumed, and the
/// number of characters of the original input that lie before it.
pub struct Cursor {
    pub text: Seq<char>,
    pub position: nat,
}

impl Cursor {
    /// The cursor at the beginning of `text`.
    pub open spec fn start(text: Seq<char>) -> Cursor {
        Cursor { text, position: 0 }
    }

    /// The length of the original input: what was consumed plus what remains.
    pub open spec fn total(self) -> nat {
        self.position + self.text.len()
    }

    /// `count`, or the number of characters that remain where that is less.
    pub open spec fn within(self, count: nat) -> nat {
        if count <= self.text.len() {
            count
        } else {
            self.text.len()
        }
    }

    /// The next `count` characters, or all that remain where they are fewer.
    pub open spec fn head(self, count: nat) -> Seq<char> {
        self.text.take(self.within(count) as int)
    }

    /// The cursor behind the next `count` characters, or at the end of the
    /// input where fewer remain.
    pub open spec fn advance(self, count: nat) -> Cursor {
        Cursor {
            text: self.text.skip(self.within(count) as int),
            position: self.position + self.within(count),
        }
    }

    /// `rest` is this cursor moved forward over some of its own text: it lies
    /// over the same original input, at or behind this cursor.
    pub open spec fn reaches(self, rest: Cursor) -> bool {
        &&& self.position <= rest.position <= self.total()
        &&& rest.text == self.text.skip(rest.position - self.position)
    }

    /// Every cursor reaches itself.
    pub proof fn lemma_reaches_itself(self)
        ensures
            self.reaches(self),
    {
        assert(self.text.skip(0) =~= self.text);
    }

    /// Moving forward twice is moving forward once.
    pub proof fn lemma_reaches_onward(self, mid: Cursor, rest: Cursor)
        requires
            self.reaches(mid),
            mid.reaches(rest),
        ensures
            self.reaches(rest),
    {
        let a = mid.position - self.position;
        let b = rest.position - mid.position;
        assert(self.text.skip(a).skip(b) =~= self.text.skip(a + b));
    }

    /// An advance stays on the same input.
    pub proof fn lemma_advance_reaches(self, count: nat)
        ensures
            self.reaches(self.advance(count)),
    {
    }

    /// The cursor invariant: wherever a parse has got to, the characters
    /// consumed and the characters remaining add up to the original input.
    pub proof fn lemma_reaches_keeps_total(self, rest: Cursor)
        requires
            self.reaches(rest),
        ensures
            rest.total() == self.total(),
            rest.text.len() <= self.text.len(),
            rest.text.len() == self.text.len() <==> rest == self,
    {
        if rest.text.len() == self.text.len() {
            assert(self.text.skip(0) =~= self.text);
        }
    }
}

/// A failure as contracts see it: the message and the position reported.
pub struct Failure {
    pub message: Seq<char>,
    pub position: nat,
}

/// An immutable snapshot of a parse: the original input, shared by every cursor
/// derived from it, and the number of characters consumed so far.
#[derive(Debug)]
pub struct MorsecStr {
    source: Arc<Vec<char>>,
    position: usize,
}

/// The record of a parser's refusal: what it expected, and the position of the
/// cursor at which it refused.
#[derive(Debug)]
pub struct MorsecError {
    pub message: String,
    pub position: usize,
}

impl View for MorsecStr {
    type V = Cursor;

    closed spec fn view(&self) -> Cursor {
        Cursor {
            text: self.source@.skip(self.position as int),
            position: self.position as nat,
        }
    }
}

impl View for MorsecError {
    type V = Failure;

    open spec fn view(&self) -> Failure {
        Failure { message: self.message@, position: self.position as nat }
    }
}

/// `String::push` of the standard library, which vstd leaves unspecified. The
/// contract claims what its documentation says: the character is appended, so
/// the string afterwards is the string before followed by `ch`.
pub assume_specification[ String::push ](text: &mut String, ch: char)
    ensures
        final(text)@ == old(text)@.push(ch),
;

/// The characters of `text`, one by one.
pub(crate) fn letters(text: &str) -> (chars: Vec<char>)
    ensures
        chars@ == text@,
{
    let mut chars: Vec<char> = Vec::new();
    let all = text.chars();
    assert(all.remaining() == text@);
    for c in walk: all
        invariant
            walk.seq() == text@,
            chars@ == walk.seq().take(walk.index() as int),
    {
        chars.push(c);
    }
    assert(chars@ =~= text@);
    chars
}

impl MorsecStr {
    #[verifier::type_invariant]
    spec fn within_source(self) -> bool {
        self.position <= self.source@.len()
    }

    /// The cursor at the beginning of `text`, with nothing consumed.
    pub fn from(text: String) -> (cursor: MorsecStr)
        ensures
            cursor@ == Cursor::start(text@),
    {
        let cursor = MorsecStr { source: Arc::new(letters(text.as_str())), position: 0 };
        assert(cursor@.text =~= text@);
        cursor
    }

    /// The number of characters consumed so far.
    pub fn position(&self) -> (position: usize)
        ensures
            position == self@.position,
    {
        self.position
    }

    /// The number of characters that remain.
    pub fn len(&self) -> (count: usize)
        ensures
            count == self@.text.len(),
    {
        proof {
            use_type_invariant(self);
        }
        self.source.len() - self.position
    }

    /// The remaining character at `offset`, if the remaining text is that long.
    pub fn get(&self, offset: usize) -> (found: Option<char>)
        ensures
            found == if offset < self@.text.len() {
                Some(self@.text[offset as int])
            } else {
                None
            },
    {
        proof {
            use_type_invariant(self);
        }
        if offset < self.source.len() - self.position {
            Some(self.source[self.position + offset])
        } else {
            None
        }
    }

    /// The cursor behind the next `count` characters, or at the end of the
    /// input where fewer remain. The input itself is handed on, not copied.
    pub fn advance(self, count: usize) -> (rest: MorsecStr)
        ensures
            rest@ == self@.advance(count as nat),
    {
        let left = self.len();
        let step = if count <= left { count } else { left };
        proof {
            use_type_invariant(&self);
            assert(self@.text.len() == self.source.len() - self.position);
        }
        let rest = MorsecStr { source: self.source, position: self.position + step };
        assert(rest@.text =~= self@.text.skip(step as int));
        rest
    }

    /// The next `count` characters as an owned string, or all that remain
    /// where they are fewer.
    pub fn take(&self, count: usize) -> (head: String)
        ensures
            head@ == self@.head(count as nat),
    {
        let left = self.len();
        let count = if count <= left { count } else { left };
        proof {
            use_type_invariant(self);
        }
        let mut head = String::new();
        let mut taken: usize = 0;
        while taken < count
            invariant
                taken <= count <= self@.text.len(),
                self@.text.len() == self.source.len() - self.position,
                self@.text == self.source@.skip(self.position as int),
                head@ == self@.text.take(taken as int),
            decreases count - taken,
        {
            head.push(self.source[self.position + taken]);
            assert(self@.text.take(taken + 1) =~= self@.text.take(taken as int).push(
                self@.text[taken as int],
            ));
            taken += 1;
        }
        head
    }

    /// The whole remaining text, as an owned string.
    pub fn text(&self) -> (text: String)
        ensures
            text@ == self@.text,
    {
        let text = self.take(self.len());
        assert(self@.text.take(self@.text.len() as int) =~= self@.text);
        text
    }
}

impl Clone for MorsecStr {
    /// Another cursor at the same place; the input itself is shared, not copied.
    fn clone(&self) -> (copy: Self)
        ensures
            copy@ == self@,
    {
        proof {
            use_type_invariant(self);
        }
        MorsecStr { source: self.source.clone(), position: self.position }
    }
}

impl Clone for MorsecError {
    fn clone(&self) -> (copy: Self)
        ensures
            copy == *self,
    {
        MorsecError { message: self.message.clone(), position: self.position }
    }
}

} // verus!
