use vstd::prelude::*;

verus! {

/// A (line, column) place in the source text; both count from 1.
/// Positions order by line, then by column.
#[derive(Clone, Copy, Debug, PartialEq, Eq, PartialOrd, Ord, Hash, Structural)]
pub struct Position {
    pub line: usize,
    pub column: usize,
}

/// A line feed or a carriage return.
pub open spec fn is_line_end(c: char) -> bool {
    c == '\n' || c == '\r'
}

/// A line break ends at index `j` of `s`: a line feed, or a carriage return that no line feed
/// follows (a carriage return and a line feed together make one break).
pub open spec fn breaks_after(s: Seq<char>, j: int) -> bool {
    s[j] == '\n' || (s[j] == '\r' && !(j + 1 < s.len() && s[j + 1] == '\n'))
}

/// The line on which the character at index `i` of `s` stands (or would stand, for `i == s.len()`).
pub open spec fn line_at(s: Seq<char>, i: int) -> nat
    decreases i,
{
    if i <= 0 {
        1
    } else if breaks_after(s, i - 1) {
        line_at(s, i - 1) + 1
    } else {
        line_at(s, i - 1)
    }
}

/// The column of the character at index `i` of `s`.
pub open spec fn column_at(s: Seq<char>, i: int) -> nat
    decreases i,
{
    if i <= 0 {
        1
    } else if breaks_after(s, i - 1) {
        1
    } else {
        column_at(s, i - 1) + 1
    }
}

pub open spec fn position_at(s: Seq<char>, i: int) -> Position {
    Position { line: line_at(s, i) as usize, column: column_at(s, i) as usize }
}

pub proof fn lemma_position_bounds(s: Seq<char>, i: int)
    requires
        0 <= i,
    ensures
        1 <= line_at(s, i) <= i + 1,
        1 <= column_at(s, i) <= i + 1,
    decreases i,
{
    if i > 0 {
        lemma_position_bounds(s, i - 1);
    }
}

/// The place of the character after `p`, when the character at `p` is `c` and `lf_next` tells
/// whether a line feed follows it.
pub fn advance(p: Position, c: char, lf_next: bool) -> (r: Position)
    requires
        p.line < usize::MAX,
        p.column < usize::MAX,
    ensures
        (c == '\n' || (c == '\r' && !lf_next)) ==> r == (Position {
            line: (p.line + 1) as usize,
            column: 1,
        }),
        !(c == '\n' || (c == '\r' && !lf_next)) ==> r == (Position {
            line: p.line,
            column: (p.column + 1) as usize,
        }),
{
    if c == '\n' || (c == '\r' && !lf_next) {
        Position { line: p.line + 1, column: 1 }
    } else {
        Position { line: p.line, column: p.column + 1 }
    }
}

} // verus!
