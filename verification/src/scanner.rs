//! The position tracker: a cursor over a buffer of code points that knows the
//! line and column of the code point it stands on.

use crate::token::Location;
use vstd::prelude::*;

verus! {

/// The line of position `p` of `text`: one more than the number of newlines
/// among the first `p` code points.
pub open spec fn line_at(text: Seq<char>, p: int) -> nat
    decreases p,
{
    if p <= 0 {
        1
    } else if text[p - 1] == '\n' {
        line_at(text, p - 1) + 1
    } else {
        line_at(text, p - 1)
    }
}

/// The column of position `p` of `text`: 1 at the start of the text and right
/// after a newline, and one more than the column before it anywhere else.
pub open spec fn column_at(text: Seq<char>, p: int) -> nat
    decreases p,
{
    if p <= 0 || text[p - 1] == '\n' {
        1
    } else {
        column_at(text, p - 1) + 1
    }
}

/// The location of position `p` of `text`.  Position `text.len()` is the end
/// of the input, and has a location too.
pub open spec fn location_at(text: Seq<char>, p: int) -> Location {
    Location { line: line_at(text, p) as usize, column: column_at(text, p) as usize }
}

/// Lines and columns start at 1, and together they never run ahead of the
/// position by more than 2.
pub proof fn lemma_location_bounds(text: Seq<char>, p: int)
    requires
        0 <= p,
    ensures
        1 <= line_at(text, p),
        1 <= column_at(text, p),
        line_at(text, p) + column_at(text, p) <= p + 2,
    decreases p,
{
    if p > 0 {
        lemma_location_bounds(text, p - 1);
    }
}

/// A later position has a later location: a larger line, or the same line and
/// a larger column.
pub proof fn lemma_location_increases(text: Seq<char>, p: int, q: int)
    requires
        0 <= p < q,
    ensures
        line_at(text, p) < line_at(text, q) || (line_at(text, p) == line_at(text, q)
            && column_at(text, p) < column_at(text, q)),
    decreases q,
{
    if p < q - 1 {
        lemma_location_increases(text, p, q - 1);
    }
    lemma_location_bounds(text, q - 1);
}

/// No two positions of a text share a location, as long as every line and
/// column fits a `usize`.
pub proof fn lemma_location_unique(text: Seq<char>, p: int, q: int)
    requires
        0 <= p <= text.len(),
        0 <= q <= text.len(),
        text.len() < usize::MAX,
        location_at(text, p) == location_at(text, q),
    ensures
        p == q,
{
    lemma_location_bounds(text, p);
    lemma_location_bounds(text, q);
    if p < q {
        lemma_location_increases(text, p, q);
    } else if q < p {
        lemma_location_increases(text, q, p);
    }
}

/// The code points of `text`, in a buffer that can be read at any index.
///
/// The buffer has fewer than `usize::MAX` code points, so that each line and
/// column of the text can be counted in a `usize`.
pub fn code_points(text: &str) -> (buffer: Vec<char>)
    ensures
        buffer@ == text@,
        buffer@.len() < usize::MAX,
{
    let mut buffer: Vec<char> = Vec::new();
    for c in walk: text.chars()
        invariant
            buffer@ == walk.seq().take(walk.index()),
            walk.seq() == text@,
    {
        buffer.push(c);
    }
    // A vector that takes one more element held fewer than `usize::MAX`.
    buffer.push('\0');
    assert(buffer.len() <= usize::MAX);
    buffer.pop();
    buffer
}

/// A cursor over a buffer of code points.
///
/// The scanner stands on one position of the buffer, between 0 and the
/// buffer's length, and holds the location of that position.  It does not own
/// the buffer, so a copy of it is a cheap bookmark to come back to.
#[derive(Clone, Copy)]
pub struct CharLocationScanner<'a> {
    cur_location: Location,
    position: usize,
    chars: &'a [char],
}

impl<'a> CharLocationScanner<'a> {
    /// What holds of every scanner: it stands within its buffer, knows the
    /// location of where it stands, and the buffer is short enough for every
    /// line and column to fit a `usize`.
    #[verifier::type_invariant]
    pub closed spec fn well_formed(self) -> bool {
        &&& self.position <= self.chars@.len()
        &&& self.chars@.len() < usize::MAX
        &&& self.cur_location == location_at(self.chars@, self.position as int)
    }

    /// A scanner stands at or between the two ends of its buffer, and its
    /// location is that of the position it stands at.
    pub proof fn lemma_within_source(self)
        requires
            self.well_formed(),
        ensures
            0 <= self.position() <= self.source().len() < usize::MAX,
            self.location() == location_at(self.source(), self.position()),
    {
    }

    /// The whole buffer that the scanner walks over.
    pub closed spec fn source(self) -> Seq<char> {
        self.chars@
    }

    /// How many code points lie before the scanner.
    pub closed spec fn position(self) -> int {
        self.position as int
    }

    /// The line and the column that the scanner stands at.
    pub closed spec fn location(self) -> Location {
        self.cur_location
    }

    /// The code point the scanner stands on, `None` at the end of the input.
    pub open spec fn current(self) -> Option<char> {
        if 0 <= self.position() < self.source().len() {
            Some(self.source()[self.position()])
        } else {
            None
        }
    }

    /// A scanner on the first code point of `contents`, at line 1, column 1.
    pub fn new(contents: &'a [char]) -> (scanner: Self)
        requires
            contents@.len() < usize::MAX,
        ensures
            scanner.source() == contents@,
            scanner.position() == 0,
            scanner.location() == (Location { line: 1, column: 1 }),
    {
        CharLocationScanner {
            cur_location: Location { line: 1, column: 1 },
            position: 0,
            chars: contents,
        }
    }

    /// The code point the scanner stands on, `None` at the end of the input.
    pub fn current_char(&self) -> (c: Option<char>)
        ensures
            c == self.current(),
            0 <= self.position() <= self.source().len() < usize::MAX,
    {
        proof {
            use_type_invariant(self);
        }
        if self.position < self.chars.len() {
            Some(self.chars[self.position])
        } else {
            None
        }
    }

    /// The line and the column that the scanner stands at.
    pub fn current_location(&self) -> (location: Location)
        ensures
            location == self.location(),
            location == location_at(self.source(), self.position()),
    {
        proof {
            use_type_invariant(self);
        }
        self.cur_location
    }

    /// The code point the scanner stands on together with its location, `None`
    /// at the end of the input.
    pub fn current_char_and_location(&self) -> (r: Option<(char, Location)>)
        ensures
            r == match self.current() {
                Some(c) => Some((c, location_at(self.source(), self.position()))),
                None => None,
            },
            0 <= self.position() <= self.source().len() < usize::MAX,
    {
        match self.current_char() {
            Some(c) => Some((c, self.current_location())),
            None => None,
        }
    }

    /// Steps over the current code point.  After a newline the scanner is at
    /// column 1 of the next line, otherwise one column further on the same
    /// line.
    pub fn advance(&mut self)
        requires
            old(self).current() is Some,
        ensures
            final(self).source() == old(self).source(),
            final(self).position() == old(self).position() + 1,
            old(self).current() == Some('\n') ==> {
                &&& final(self).location().line == old(self).location().line + 1
                &&& final(self).location().column == 1
            },
            old(self).current() != Some('\n') ==> {
                &&& final(self).location().line == old(self).location().line
                &&& final(self).location().column == old(self).location().column + 1
            },
    {
        proof {
            use_type_invariant(&*self);
            lemma_location_bounds(self.chars@, self.position as int + 1);
        }
        let mut location = self.cur_location;
        if self.chars[self.position] == '\n' {
            location.line += 1;
            location.column = 0;
        }
        location.column += 1;
        *self = CharLocationScanner {
            cur_location: location,
            position: self.position + 1,
            chars: self.chars,
        };
    }
}

} // verus!
