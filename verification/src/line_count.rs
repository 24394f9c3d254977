//! Rows and columns: a cursor over characters that counts lines.

use vstd::prelude::*;
use crate::text::to_chars;

verus! {

/// The row after the first `n` characters of `s`: the number of line
/// breaks among them.
pub open spec fn row_at(s: Seq<char>, n: int) -> nat
    decreases n,
{
    if n <= 0 || n > s.len() {
        0
    } else if s[n - 1] == '\n' {
        row_at(s, n - 1) + 1
    } else {
        row_at(s, n - 1)
    }
}

/// The column after the first `n` characters of `s`: the number of
/// characters since the last line break.
pub open spec fn col_at(s: Seq<char>, n: int) -> nat
    decreases n,
{
    if n <= 0 || n > s.len() {
        0
    } else if s[n - 1] == '\n' {
        0
    } else {
        col_at(s, n - 1) + 1
    }
}

/// Rows and columns are no larger than the number of characters read.
pub proof fn lemma_place_bounds(s: Seq<char>, n: int)
    ensures
        row_at(s, n) <= n || n < 0,
        col_at(s, n) <= n || n < 0,
    decreases n,
{
    if 0 < n <= s.len() {
        lemma_place_bounds(s, n - 1);
    }
}

/// A cursor over characters that knows the row and the column it is at.
pub struct LineCount {
    chars: Vec<char>,
    at: Place,
}

/// Where a cursor is: the number of characters read, and the row and the
/// column after them.
#[derive(Clone, Copy)]
struct Place {
    pos: usize,
    row: usize,
    col: usize,
}

impl LineCount {
    #[verifier::type_invariant]
    spec fn wf(&self) -> bool {
        &&& self.at.pos <= self.chars.len()
        &&& self.at.row == row_at(self.chars@, self.at.pos as int)
        &&& self.at.col == col_at(self.chars@, self.at.pos as int)
    }

    /// The characters that the cursor runs over.
    pub closed spec fn text(&self) -> Seq<char> {
        self.chars@
    }

    /// The number of characters read so far.
    pub closed spec fn consumed(&self) -> nat {
        self.at.pos as nat
    }

    /// A cursor in front of the first character.
    pub fn new(iter: Vec<char>) -> (res: Self)
        ensures
            res.text() == iter@,
            res.consumed() == 0,
    {
        Self { chars: iter, at: Place { pos: 0, row: 0, col: 0 } }
    }

    /// Reads one character and gives it with the row and the column after
    /// it: a line break starts a new row at column 0, any other character
    /// is one more column.
    pub fn next(&mut self) -> (r: Option<(usize, usize, char)>)
        ensures
            final(self).text() == old(self).text(),
            match r {
                Some((row, col, c)) => {
                    &&& old(self).consumed() < old(self).text().len()
                    &&& final(self).consumed() == old(self).consumed() + 1
                    &&& c == old(self).text()[old(self).consumed() as int]
                    &&& row == row_at(old(self).text(), old(self).consumed() as int + 1)
                    &&& col == col_at(old(self).text(), old(self).consumed() as int + 1)
                },
                None => {
                    &&& old(self).consumed() == old(self).text().len()
                    &&& final(self).consumed() == old(self).consumed()
                },
            },
    {
        proof {
            use_type_invariant(&*self);
            lemma_place_bounds(self.chars@, self.at.pos as int);
        }
        let Place { pos, row, col } = self.at;
        if pos >= self.chars.len() {
            return None;
        }
        let c = self.chars[pos];
        let after = if c == '\n' {
            Place { pos: pos + 1, row: row + 1, col: 0 }
        } else {
            Place { pos: pos + 1, row, col: col + 1 }
        };
        self.at = after;
        Some((after.row, after.col, c))
    }
}

/// What can be read character by character with rows and columns.
pub trait LineCountable {
    /// The characters.
    spec fn characters(&self) -> Seq<char>;

    /// A cursor in front of the first character.
    fn line_count(self) -> (r: LineCount)
        ensures
            r.text() == self.characters(),
            r.consumed() == 0,
    ;
}

impl LineCountable for Vec<char> {
    open spec fn characters(&self) -> Seq<char> {
        self@
    }

    fn line_count(self) -> (r: LineCount) {
        LineCount::new(self)
    }
}

impl LineCountable for &str {
    open spec fn characters(&self) -> Seq<char> {
        self@
    }

    fn line_count(self) -> (r: LineCount) {
        LineCount::new(to_chars(self))
    }
}

/// The row and the column after the first `n` characters of `chars`; row 0
/// and column 0 where `chars` has fewer than `n`.
pub fn locate(chars: &Vec<char>, n: usize) -> (r: (usize, usize))
    ensures
        r.0 == row_at(chars@, n as int),
        r.1 == col_at(chars@, n as int),
{
    if n > chars.len() {
        return (0, 0);
    }
    let mut row: usize = 0;
    let mut col: usize = 0;
    let mut i: usize = 0;
    while i < n
        invariant
            i <= n <= chars.len(),
            row == row_at(chars@, i as int),
            col == col_at(chars@, i as int),
        decreases n - i,
    {
        proof {
            lemma_place_bounds(chars@, i as int);
        }
        if chars[i] == '\n' {
            row = row + 1;
            col = 0;
        } else {
            col = col + 1;
        }
        i = i + 1;
    }
    (row, col)
}

} // verus!
