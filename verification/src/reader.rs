//! The character cursor: a forward-only reader over source text held in
//! memory, which keeps track of the row and column it stands at.

use crate::chars::NEWLINE;
use crate::runs::{accepted_run, lemma_run_len_is, none_of, run_len};
use vstd::prelude::*;

verus! {

/// A place in a text: rows and columns are counted from 1.
pub struct Position {
    pub row: nat,
    pub col: nat,
}

/// The place of the first character of a text.
pub open spec fn origin() -> Position {
    Position { row: 1, col: 1 }
}

/// The place reached from `start` by passing over `text`: each newline
/// leads to the first column of the next row, every other character to the
/// next column.
pub open spec fn position_after(start: Position, text: Seq<char>) -> Position
    decreases text.len(),
{
    if text.len() == 0 {
        start
    } else {
        let before = position_after(start, text.drop_last());
        if text.last() == NEWLINE {
            Position { row: before.row + 1, col: 1 }
        } else {
            Position { row: before.row, col: before.col + 1 }
        }
    }
}

/// The place of the character at `index` of `source`; for `index` equal to
/// the length, the place just behind the last character.
pub open spec fn position_at(source: Seq<char>, index: int) -> Position {
    position_after(origin(), source.take(index))
}

/// Passing over one more character moves the place by that character.
pub proof fn lemma_position_step(source: Seq<char>, index: int)
    requires
        0 <= index < source.len(),
    ensures
        position_at(source, index + 1) == if source[index] == NEWLINE {
            Position { row: position_at(source, index).row + 1, col: 1 }
        } else {
            Position {
                row: position_at(source, index).row,
                col: position_at(source, index).col + 1,
            }
        },
{
    assert(source.take(index + 1).drop_last() =~= source.take(index));
}

/// Rows and columns start at 1, and together they grow by at most one for
/// each character passed.
pub proof fn lemma_position_bounds(source: Seq<char>, index: int)
    requires
        0 <= index <= source.len(),
    ensures
        1 <= position_at(source, index).row,
        1 <= position_at(source, index).col,
        position_at(source, index).row + position_at(source, index).col <= index + 2,
    decreases index,
{
    if index > 0 {
        lemma_position_bounds(source, index - 1);
        lemma_position_step(source, index - 1);
    }
}

/// Passing over two texts in turn is passing over their concatenation.
pub proof fn lemma_position_after_concat(start: Position, first: Seq<char>, second: Seq<char>)
    ensures
        position_after(start, first + second) == position_after(
            position_after(start, first),
            second,
        ),
    decreases second.len(),
{
    if second.len() == 0 {
        assert(first + second =~= first);
    } else {
        assert((first + second).drop_last() =~= first + second.drop_last());
        lemma_position_after_concat(start, first, second.drop_last());
    }
}

/// The place at `to` is reached from the place at `from` by passing over
/// the characters in between.
pub proof fn lemma_position_between(source: Seq<char>, from: int, to: int)
    requires
        0 <= from <= to <= source.len(),
    ensures
        position_at(source, to) == position_after(
            position_at(source, from),
            source.subrange(from, to),
        ),
{
    assert(source.take(to) =~= source.take(from) + source.subrange(from, to));
    lemma_position_after_concat(origin(), source.take(from), source.subrange(from, to));
}

/// Where the reader stands: the index of the next character and its place.
#[derive(Clone, Copy)]
struct Cursor {
    index: usize,
    row: usize,
    col: usize,
}

/// A cursor over source text. The text is fixed when the reader is made;
/// the cursor only moves forward, and looking ahead does not move it.
pub struct Reader {
    chars: Vec<char>,
    at: Cursor,
}

impl Reader {
    /// The whole source text.
    pub closed spec fn source(&self) -> Seq<char> {
        self.chars@
    }

    /// The index in the source of the character that `next` returns next.
    pub closed spec fn cursor(&self) -> nat {
        self.at.index as nat
    }

    /// The row and column that the reader keeps are those of the cursor.
    pub closed spec fn tracks_position(&self) -> bool {
        &&& self.at.row == position_at(self.chars@, self.at.index as int).row
        &&& self.at.col == position_at(self.chars@, self.at.index as int).col
    }

    /// What holds of every reader: the cursor is inside the text or just
    /// behind it, the text is short enough for every row and column to fit
    /// in a `usize`, and the reader knows the place of its cursor.
    #[verifier::type_invariant]
    pub open spec fn well_formed(&self) -> bool {
        &&& self.cursor() <= self.source().len() < usize::MAX
        &&& self.tracks_position()
    }

    /// The character `offset` places after the cursor, if the text reaches
    /// that far.
    pub open spec fn char_at(&self, offset: nat) -> Option<char> {
        if self.cursor() + offset < self.source().len() {
            Some(self.source()[(self.cursor() + offset) as int])
        } else {
            None
        }
    }

    /// A reader at the start of `content`.
    pub fn new(content: String) -> (reader: Self)
        requires
            content@.len() < usize::MAX,
        ensures
            reader.source() == content@,
            reader.cursor() == 0,
    {
        let mut chars: Vec<char> = Vec::new();
        for c in it: content.as_str().chars()
            invariant
                chars@ == it.seq().take(it.index() as int),
        {
            chars.push(c);
        }
        assert(chars@.take(0) =~= Seq::<char>::empty());
        Reader { chars, at: Cursor { index: 0, row: 1, col: 1 } }
    }

    /// Returns the character at the cursor and moves past it. At the end of
    /// the text it returns `None` and stays where it is, however often it is
    /// called.
    pub fn next(&mut self) -> (c: Option<char>)
        ensures
            final(self).source() == old(self).source(),
            c == old(self).char_at(0),
            final(self).cursor() == old(self).cursor() + if c is Some { 1nat } else { 0nat },
    {
        proof {
            use_type_invariant(&*self);
        }
        let at = self.at;
        if at.index < self.chars.len() {
            let c = self.chars[at.index];
            proof {
                lemma_position_step(self.chars@, at.index as int);
                lemma_position_bounds(self.chars@, at.index + 1);
            }
            if c == NEWLINE {
                self.at = Cursor { index: at.index + 1, row: at.row + 1, col: 1 };
            } else {
                self.at = Cursor { index: at.index + 1, row: at.row, col: at.col + 1 };
            }
            Some(c)
        } else {
            None
        }
    }

    /// Looks at the character at the cursor without moving.
    pub fn peek(&mut self) -> (c: Option<char>)
        ensures
            *final(self) == *old(self),
            c == old(self).char_at(0),
    {
        self.peek_nth(0)
    }

    /// Looks at the character `offset` places after the cursor without
    /// moving. Offset 0 is the character at the cursor.
    pub fn peek_nth(&self, offset: usize) -> (c: Option<char>)
        ensures
            c == self.char_at(offset as nat),
    {
        proof {
            use_type_invariant(self);
        }
        if offset < self.chars.len() - self.at.index {
            Some(self.chars[self.at.index + offset])
        } else {
            None
        }
    }

    /// Moves past `index` characters, one after the other, or to the end of
    /// the text if fewer are left.
    pub fn advance_by(&mut self, index: usize)
        ensures
            final(self).source() == old(self).source(),
            final(self).cursor() == if old(self).cursor() + index <= old(self).source().len() {
                old(self).cursor() + index
            } else {
                old(self).source().len() as int
            },
    {
        proof {
            use_type_invariant(&*self);
        }
        let mut done: usize = 0;
        while done < index && !self.is_eof()
            invariant
                done <= index,
                self.source() == old(self).source(),
                self.cursor() == old(self).cursor() + done,
                self.cursor() <= self.source().len(),
            decreases index - done,
        {
            self.next();
            done += 1;
        }
    }

    /// The row and column of the character at the cursor, counted from 1.
    pub fn position(&self) -> (place: (usize, usize))
        ensures
            place.0 == position_at(self.source(), self.cursor() as int).row,
            place.1 == position_at(self.source(), self.cursor() as int).col,
    {
        proof {
            use_type_invariant(self);
        }
        (self.at.row, self.at.col)
    }

    /// Whether the cursor has passed the last character.
    pub fn is_eof(&self) -> (at_end: bool)
        ensures
            at_end == (self.cursor() >= self.source().len()),
    {
        self.at.index >= self.chars.len()
    }

    /// The index in the source of the character at the cursor.
    pub fn index(&self) -> (index: usize)
        ensures
            index == self.cursor(),
    {
        self.at.index
    }

    /// The row of the character at the cursor, counted from 1.
    pub fn row(&self) -> (row: usize)
        ensures
            row == position_at(self.source(), self.cursor() as int).row,
    {
        proof {
            use_type_invariant(self);
        }
        self.at.row
    }

    /// The column of the character at the cursor, counted from 1.
    pub fn col(&self) -> (col: usize)
        ensures
            col == position_at(self.source(), self.cursor() as int).col,
    {
        proof {
            use_type_invariant(self);
        }
        self.at.col
    }

    /// Counts the characters from the cursor on that `accepts` answers
    /// `true` for, up to the first one it rejects, without moving.
    pub fn count_run<F: Fn(char) -> bool>(&self, accepts: F) -> (count: usize)
        requires
            forall|c: char| #[trigger] accepts.requires((c,)),
        ensures
            accepted_run(accepts, self.source(), self.cursor() as int, count as int),
    {
        proof {
            use_type_invariant(self);
        }
        let mut count: usize = 0;
        while self.at.index + count < self.chars.len()
            invariant
                self.well_formed(),
                forall|c: char| #[trigger] accepts.requires((c,)),
                self.at.index + count <= self.chars.len(),
                forall|k: int|
                    self.at.index <= k < self.at.index + count ==> accepts.ensures(
                        (#[trigger] self.chars@[k],),
                        true,
                    ),
            decreases self.chars.len() - count,
        {
            if !accepts(self.chars[self.at.index + count]) {
                return count;
            }
            count += 1;
        }
        count
    }

    /// Reads the characters from the cursor on that `accepts` answers
    /// `true` for, up to the first one it rejects, and moves past them.
    pub fn read_while<F: Fn(char) -> bool>(&mut self, accepts: F) -> (text: String)
        requires
            forall|c: char| #[trigger] accepts.requires((c,)),
        ensures
            final(self).source() == old(self).source(),
            accepted_run(accepts, old(self).source(), old(self).cursor() as int, text@.len() as int),
            text@ == old(self).source().subrange(
                old(self).cursor() as int,
                (old(self).cursor() + text@.len()) as int,
            ),
            final(self).cursor() == old(self).cursor() + text@.len(),
    {
        proof {
            use_type_invariant(&*self);
        }
        let mut text = String::new();
        loop
            invariant
                forall|c: char| #[trigger] accepts.requires((c,)),
                self.source() == old(self).source(),
                self.cursor() == old(self).cursor() + text@.len(),
                self.cursor() <= self.source().len(),
                text@ == self.source().subrange(old(self).cursor() as int, self.cursor() as int),
                forall|k: int|
                    old(self).cursor() <= k < self.cursor() ==> accepts.ensures(
                        (#[trigger] self.source()[k],),
                        true,
                    ),
            ensures
                accepted_run(
                    accepts,
                    old(self).source(),
                    old(self).cursor() as int,
                    text@.len() as int,
                ),
            decreases self.source().len() - self.cursor(),
        {
            match self.peek() {
                Some(c) => {
                    if !accepts(c) {
                        break ;
                    }
                    self.next();
                    text.push(c);
                    assert(text@ =~= self.source().subrange(
                        old(self).cursor() as int,
                        self.cursor() as int,
                    ));
                },
                None => {
                    break ;
                },
            }
        }
        text
    }

    /// Reads the characters from the cursor up to, and without, the first
    /// one that occurs in `stops`, and moves past what it read. The stop
    /// character itself is left at the cursor.
    pub fn read_until(&mut self, stops: &[char]) -> (text: String)
        ensures
            final(self).source() == old(self).source(),
            text@.len() == run_len(
                old(self).source(),
                old(self).cursor() as int,
                none_of(stops@),
            ),
            text@ == old(self).source().subrange(
                old(self).cursor() as int,
                (old(self).cursor() + text@.len()) as int,
            ),
            final(self).cursor() == old(self).cursor() + text@.len(),
    {
        proof {
            use_type_invariant(&*self);
        }
        let mut text = String::new();
        loop
            invariant
                self.source() == old(self).source(),
                self.cursor() == old(self).cursor() + text@.len(),
                self.cursor() <= self.source().len(),
                text@ == self.source().subrange(old(self).cursor() as int, self.cursor() as int),
                forall|k: int|
                    old(self).cursor() <= k < self.cursor() ==> !stops@.contains(
                        #[trigger] self.source()[k],
                    ),
            ensures
                self.cursor() < self.source().len() ==> stops@.contains(
                    self.source()[self.cursor() as int],
                ),
            decreases self.source().len() - self.cursor(),
        {
            match self.peek() {
                Some(c) => {
                    if occurs_in(stops, c) {
                        break ;
                    }
                    self.next();
                    text.push(c);
                    assert(text@ =~= self.source().subrange(
                        old(self).cursor() as int,
                        self.cursor() as int,
                    ));
                },
                None => {
                    break ;
                },
            }
        }
        proof {
            lemma_run_len_is(
                self.source(),
                old(self).cursor() as int,
                text@.len() as int,
                none_of(stops@),
            );
        }
        text
    }
}

/// Whether `c` is one of `set`.
pub fn occurs_in(set: &[char], c: char) -> (found: bool)
    ensures
        found == set@.contains(c),
{
    let mut k: usize = 0;
    while k < set.len()
        invariant
            k <= set.len(),
            forall|j: int| 0 <= j < k ==> set@[j] != c,
        decreases set.len() - k,
    {
        if set[k] == c {
            return true;
        }
        k += 1;
    }
    false
}

} // verus!
