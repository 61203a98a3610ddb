//! Source regions: where a parsed element sits in the text it came from.

use vstd::prelude::*;

verus! {

/// 1-based line of the character at index `i` of `s`: one more than the
/// number of `'\n'` before it.
pub open spec fn line_at(s: Seq<char>, i: int) -> int
    decreases i,
{
    if i <= 0 {
        1
    } else if s[i - 1] == '\n' {
        line_at(s, i - 1) + 1
    } else {
        line_at(s, i - 1)
    }
}

/// 1-based column of the character at index `i` of `s`: its distance from the
/// start of its line, plus one.
pub open spec fn column_at(s: Seq<char>, i: int) -> int
    decreases i,
{
    if i <= 0 {
        1
    } else if s[i - 1] == '\n' {
        1
    } else {
        column_at(s, i - 1) + 1
    }
}

/// Lines and columns start at 1 and never exceed the index plus one.
pub proof fn lemma_position_bounds(s: Seq<char>, i: int)
    requires
        0 <= i,
    ensures
        1 <= line_at(s, i) <= i + 1,
        1 <= column_at(s, i) <= i + 1,
    decreases i,
{
    if i > 0 {
        lemma_position_bounds(s, i - 1);
    }
}

/// Positions grow with the index: a later character is never on an earlier
/// line, and on the same line it is in a later column.
pub proof fn lemma_position_monotonic(s: Seq<char>, i: int, j: int)
    requires
        0 <= i <= j,
    ensures
        line_at(s, i) <= line_at(s, j),
        line_at(s, i) == line_at(s, j) ==> column_at(s, j) == column_at(s, i) + (j - i),
    decreases j,
{
    if i < j {
        lemma_position_monotonic(s, i, j - 1);
    }
}

/// The span of source text that an element was parsed from: the offset of its
/// first character and its length, with the 1-based line and column of its
/// first and of its last character.
#[derive(Clone, Copy, Debug, PartialEq, Eq, Hash)]
pub struct Region {
    pub offset: usize,
    pub len: usize,
    pub start_line: usize,
    pub start_col: usize,
    pub end_line: usize,
    pub end_col: usize,
}

/// Index of the last character of the range `[start, end)`, or `start` itself
/// where the range is empty.
pub open spec fn last_index(start: int, end: int) -> int {
    if end > start {
        end - 1
    } else {
        start
    }
}

/// The region that the characters `[start, end)` of `s` cover.
pub open spec fn region_between(s: Seq<char>, start: int, end: int) -> Region {
    Region {
        offset: start as usize,
        len: (end - start) as usize,
        start_line: line_at(s, start) as usize,
        start_col: column_at(s, start) as usize,
        end_line: line_at(s, last_index(start, end)) as usize,
        end_col: column_at(s, last_index(start, end)) as usize,
    }
}

impl Region {
    /// Lines and columns are 1-based, and the start is not after the end.
    pub open spec fn wf(&self) -> bool {
        &&& 1 <= self.start_line
        &&& 1 <= self.start_col
        &&& (self.start_line < self.end_line || (self.start_line == self.end_line
            && self.start_col <= self.end_col))
    }

    /// Offset just past the last character covered.
    pub open spec fn spec_end(&self) -> int {
        self.offset + self.len
    }

    pub open spec fn spec_contains_offset(&self, offset: int) -> bool {
        self.offset <= offset < self.offset + self.len
    }

    /// `other` lies within this region.
    pub open spec fn spec_encloses(&self, other: Region) -> bool {
        self.offset <= other.offset && other.spec_end() <= self.spec_end()
    }

    /// The region of a span of `len` characters at `offset` in a text of one
    /// line.
    pub open spec fn spec_in_line(offset: usize, len: usize) -> Region {
        Region {
            offset,
            len,
            start_line: 1,
            start_col: if offset < usize::MAX {
                (offset + 1) as usize
            } else {
                usize::MAX
            },
            end_line: 1,
            end_col: if len == 0 {
                if offset < usize::MAX {
                    (offset + 1) as usize
                } else {
                    usize::MAX
                }
            } else if offset + len <= usize::MAX {
                (offset + len) as usize
            } else {
                usize::MAX
            },
        }
    }

    pub fn new(
        offset: usize,
        len: usize,
        start_line: usize,
        start_col: usize,
        end_line: usize,
        end_col: usize,
    ) -> (r: Region)
        ensures
            r == (Region { offset, len, start_line, start_col, end_line, end_col }),
    {
        Region { offset, len, start_line, start_col, end_line, end_col }
    }

    /// Region of `len` characters at `offset`, taken to lie on the first line.
    pub fn in_line(offset: usize, len: usize) -> (r: Region)
        ensures
            r == Region::spec_in_line(offset, len),
            r.wf(),
    {
        let start_col: usize = if offset < usize::MAX {
            offset + 1
        } else {
            usize::MAX
        };
        let end_col: usize = if len == 0 {
            start_col
        } else if len <= usize::MAX - offset {
            offset + len
        } else {
            usize::MAX
        };
        Region { offset, len, start_line: 1, start_col, end_line: 1, end_col }
    }

    /// Region of the characters from `start` up to `end`, on the first line;
    /// empty where `end` is before `start`.
    pub fn from_range(start: usize, end: usize) -> (r: Region)
        ensures
            r == Region::spec_in_line(
                start,
                if end >= start {
                    (end - start) as usize
                } else {
                    0usize
                },
            ),
            r.wf(),
    {
        if end >= start {
            Region::in_line(start, end - start)
        } else {
            Region::in_line(start, 0)
        }
    }

    pub fn offset(&self) -> (r: usize)
        ensures
            r == self.offset,
    {
        self.offset
    }

    pub fn len(&self) -> (r: usize)
        ensures
            r == self.len,
    {
        self.len
    }

    pub fn is_empty(&self) -> (r: bool)
        ensures
            r == (self.len == 0),
    {
        self.len == 0
    }

    /// Whether the character at `offset` lies in this region.
    pub fn contains_offset(&self, offset: usize) -> (r: bool)
        ensures
            r == self.spec_contains_offset(offset as int),
    {
        offset >= self.offset && offset - self.offset < self.len
    }

    /// Whether `other` lies within this region.
    pub fn encloses(&self, other: &Region) -> (r: bool)
        ensures
            r == self.spec_encloses(*other),
    {
        if other.offset < self.offset {
            return false;
        }
        // other.offset >= self.offset
        let shift: usize = other.offset - self.offset;
        shift <= self.len && other.len <= self.len - shift
    }
}

/// A region of a text is well formed, and encloses every region inside it.
pub proof fn lemma_region_between(s: Seq<char>, start: int, end: int)
    requires
        0 <= start <= end <= s.len() < usize::MAX,
    ensures
        region_between(s, start, end).wf(),
        region_between(s, start, end).offset == start,
        region_between(s, start, end).len == end - start,
{
    let l = last_index(start, end);
    lemma_position_bounds(s, start);
    lemma_position_bounds(s, l);
    lemma_position_monotonic(s, start, l);
}

} // verus!
