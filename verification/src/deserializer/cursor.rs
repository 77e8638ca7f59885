//! A cursor over the characters of a text, with a lookahead of two.

use crate::error::{AonError, AonErrorView};
use crate::text::chars_of;
use vstd::prelude::*;

verus! {

/// What the cursor shows where the input has ended.
pub const EOF: char = '\0';

/// The character `n` places into `s`, or [`EOF`] past its end.
pub open spec fn char_at(s: Seq<char>, n: int) -> char {
    if 0 <= n < s.len() {
        s[n]
    } else {
        EOF
    }
}

/// Where the characters of `a` and `b` first differ, counted from `from`,
/// up to which they are equal.
pub open spec fn common_prefix_end(a: Seq<char>, b: Seq<char>, from: int) -> int
    decreases a.len() - from,
{
    if 0 <= from < a.len() && from < b.len() && a[from] == b[from] {
        common_prefix_end(a, b, from + 1)
    } else {
        from
    }
}

/// How many characters `a` and `b` share at their beginnings.
pub open spec fn common_prefix_len(a: Seq<char>, b: Seq<char>) -> int {
    common_prefix_end(a, b, 0)
}

/// The common beginning of two texts is no longer than either.
pub proof fn lemma_common_prefix_bounds(a: Seq<char>, b: Seq<char>, from: int)
    requires
        0 <= from <= a.len(),
        from <= b.len(),
    ensures
        from <= common_prefix_end(a, b, from) <= a.len(),
        common_prefix_end(a, b, from) <= b.len(),
    decreases a.len() - from,
{
    if from < a.len() && from < b.len() && a[from] == b[from] {
        lemma_common_prefix_bounds(a, b, from + 1);
    }
}

/// A position in a text. What lies before it has been consumed.
pub struct Cursor {
    chars: Vec<char>,
    position: usize,
}

impl Cursor {
    #[verifier::type_invariant]
    spec fn in_bounds(&self) -> bool {
        self.position <= self.chars.len()
    }

    /// The characters that have not been consumed yet.
    pub closed spec fn remaining(&self) -> Seq<char> {
        self.chars@.skip(self.position as int)
    }

    /// A cursor at the beginning of `aon`.
    pub fn new(aon: &str) -> (cursor: Cursor)
        ensures
            cursor.remaining() == aon@,
    {
        let chars = chars_of(aon);
        assert(chars@.skip(0) =~= chars@);
        Cursor { chars, position: 0 }
    }

    /// The next character, which stays where it is.
    pub fn first(&self) -> (c: char)
        ensures
            c == char_at(self.remaining(), 0),
    {
        proof {
            use_type_invariant(self);
        }
        if self.position < self.chars.len() {
            self.chars[self.position]
        } else {
            EOF
        }
    }

    /// The character after the next, which stays where it is.
    pub fn second(&self) -> (c: char)
        ensures
            c == char_at(self.remaining(), 1),
    {
        proof {
            use_type_invariant(self);
        }
        if self.position < self.chars.len() && self.position + 1 < self.chars.len() {
            self.chars[self.position + 1]
        } else {
            EOF
        }
    }

    /// Whether every character has been consumed.
    pub fn is_eof(&self) -> (at_end: bool)
        ensures
            at_end == (self.remaining().len() == 0),
    {
        proof {
            use_type_invariant(self);
        }
        self.position >= self.chars.len()
    }

    /// Consumes one character and returns it, or nothing at the end.
    pub fn bump(&mut self) -> (c: Option<char>)
        ensures
            old(self).remaining().len() == 0 ==> c.is_none(),
            old(self).remaining().len() == 0 ==> final(self).remaining() == old(self).remaining(),
            old(self).remaining().len() > 0 ==> c == Some(old(self).remaining()[0]),
            old(self).remaining().len() > 0 ==> final(self).remaining() == old(self).remaining().skip(1),
    {
        proof {
            use_type_invariant(&*self);
        }
        if self.position < self.chars.len() {
            let c = self.chars[self.position];
            self.position = self.position + 1;
            assert(self.remaining() =~= old(self).remaining().skip(1));
            Some(c)
        } else {
            None
        }
    }

    /// Consumes characters for as long as `predicate` holds of the next one,
    /// and returns them.
    ///
    /// The cursor stops at the first character of which `predicate` does not
    /// hold, or at the end of the input.
    pub fn eat_while(&mut self, predicate: impl Fn(char) -> bool) -> (eaten: String)
        requires
            forall|c: char| call_requires(predicate, (c,)),
        ensures
            eaten@.len() <= old(self).remaining().len(),
            eaten@ == old(self).remaining().take(eaten@.len() as int),
            final(self).remaining() == old(self).remaining().skip(eaten@.len() as int),
            forall|i: int|
                0 <= i < eaten@.len() ==> call_ensures(predicate, (#[trigger] eaten@[i],), true),
            eaten@.len() < old(self).remaining().len() ==> call_ensures(
                predicate,
                (old(self).remaining()[eaten@.len() as int],),
                false,
            ),
    {
        proof {
            use_type_invariant(&*self);
        }
        let ghost start = self.remaining();
        let mut eaten = String::new();
        assert(start.take(0) =~= Seq::<char>::empty());
        assert(start.skip(0) =~= start);
        loop
            invariant
                forall|c: char| call_requires(predicate, (c,)),
                self.position <= self.chars.len(),
                eaten@.len() <= start.len(),
                eaten@ == start.take(eaten@.len() as int),
                self.remaining() == start.skip(eaten@.len() as int),
                forall|i: int|
                    0 <= i < eaten@.len() ==> call_ensures(
                        predicate,
                        (#[trigger] eaten@[i],),
                        true,
                    ),
            ensures
                eaten@.len() <= start.len(),
                eaten@ == start.take(eaten@.len() as int),
                self.remaining() == start.skip(eaten@.len() as int),
                forall|i: int|
                    0 <= i < eaten@.len() ==> call_ensures(
                        predicate,
                        (#[trigger] eaten@[i],),
                        true,
                    ),
                eaten@.len() < start.len() ==> call_ensures(
                    predicate,
                    (start[eaten@.len() as int],),
                    false,
                ),
            decreases self.chars.len() - self.position,
        {
            if self.position >= self.chars.len() {
                assert(self.remaining().len() == 0);
                assert(start.skip(eaten@.len() as int).len() == start.len() - eaten@.len());
                break ;
            }
            let c = self.chars[self.position];
            assert(self.remaining().len() == self.chars.len() - self.position);
            assert(start.skip(eaten@.len() as int).len() == start.len() - eaten@.len());
            assert(c == self.remaining()[0]);
            assert(c == start[eaten@.len() as int]);
            if !predicate(c) {
                break ;
            }
            let ghost before = eaten@;
            let ghost rest = self.remaining();
            eaten.push(c);
            self.position = self.position + 1;
            assert(eaten@ == before.push(c));
            assert(eaten@ =~= start.take(eaten@.len() as int));
            assert(self.remaining() =~= rest.skip(1));
            assert(self.remaining() =~= start.skip(eaten@.len() as int));
        }
        eaten
    }

    /// Consumes `expected_text`, character by character.
    ///
    /// Where the input differs from it, the characters that agreed have been
    /// consumed, and the error names the character that did not, or [`EOF`]
    /// where the input ended.
    pub fn eat_text(&mut self, expected_text: &str) -> (outcome: Result<(), AonError>)
        ensures
            final(self).remaining() == old(self).remaining().skip(
                common_prefix_len(expected_text@, old(self).remaining()),
            ),
            common_prefix_len(expected_text@, old(self).remaining()) == expected_text@.len()
                ==> outcome.is_ok(),
            common_prefix_len(expected_text@, old(self).remaining()) != expected_text@.len()
                ==> outcome.is_err() && outcome.unwrap_err()@
                == AonErrorView::UnexpectedCharacter(
                char_at(
                    old(self).remaining(),
                    common_prefix_len(expected_text@, old(self).remaining()),
                ),
            ),
    {
        proof {
            use_type_invariant(&*self);
        }
        let expected = chars_of(expected_text);
        let ghost start = self.remaining();
        assert(start.skip(0) =~= start);
        let mut i: usize = 0;
        while i < expected.len()
            invariant
                i <= expected.len(),
                i <= start.len(),
                start == old(self).remaining(),
                expected@ == expected_text@,
                self.position <= self.chars.len(),
                self.remaining() == start.skip(i as int),
                common_prefix_len(expected@, start) == common_prefix_end(expected@, start, i as int),
            decreases expected.len() - i,
        {
            let c = self.first();
            assert(self.remaining().len() == self.chars.len() - self.position);
            assert(start.skip(i as int).len() == start.len() - i);
            if self.position >= self.chars.len() || c != expected[i] {
                return Err(AonError::UnexpectedCharacter(c));
            }
            let ghost rest = self.remaining();
            assert(rest[0] == start[i as int]);
            self.position = self.position + 1;
            assert(self.remaining() =~= rest.skip(1));
            assert(self.remaining() =~= start.skip(i + 1));
            i += 1;
        }
        Ok(())
    }
}

} // verus!
