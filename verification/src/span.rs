//! The input of every parser: a window on the source text that knows where
//! its first character sits.

use crate::region::{
    column_at, lemma_position_bounds, lemma_region_between, line_at, region_between, Region,
};
use crate::text::string_from_chars;
use vstd::prelude::*;
use vstd::slice::slice_subrange;

verus! {

/// A window `[start, end)` on the characters of `src`, with the 1-based line
/// and column of the character at `start`. Parsers consume from the front;
/// what lies before `start` has been consumed.
#[derive(Clone, Copy, Debug)]
pub struct Span<'a> {
    pub src: &'a [char],
    pub start: usize,
    pub end: usize,
    pub line: usize,
    pub column: usize,
}

impl<'a> View for Span<'a> {
    type V = Seq<char>;

    /// The characters that remain to be consumed.
    open spec fn view(&self) -> Seq<char> {
        self.src@.subrange(self.start as int, self.end as int)
    }
}

impl<'a> Span<'a> {
    /// The window lies inside the source, and line and column are those of
    /// its first character.
    pub open spec fn wf(&self) -> bool {
        &&& self.start <= self.end <= self.src@.len() < usize::MAX
        &&& self.line == line_at(self.src@, self.start as int)
        &&& self.column == column_at(self.src@, self.start as int)
    }

    /// Number of characters that remain.
    pub open spec fn spec_len(&self) -> int {
        self.end - self.start
    }

    /// This span after its first `n` characters were consumed.
    pub open spec fn skip(&self, n: int) -> Span<'a> {
        Span {
            src: self.src,
            start: (self.start + n) as usize,
            end: self.end,
            line: line_at(self.src@, self.start + n) as usize,
            column: column_at(self.src@, self.start + n) as usize,
        }
    }

    /// The window on the first `n` characters of this span.
    pub open spec fn first(&self, n: int) -> Span<'a> {
        Span {
            src: self.src,
            start: self.start,
            end: (self.start + n) as usize,
            line: self.line,
            column: self.column,
        }
    }

    /// The region that the first `n` characters of this span cover.
    pub open spec fn region_of(&self, n: int) -> Region {
        region_between(self.src@, self.start as int, self.start + n)
    }

    /// `rest` is what is left of this span after some of it was consumed.
    pub open spec fn leads_to(&self, rest: Span<'a>) -> bool {
        &&& 0 <= rest.start - self.start <= self.spec_len()
        &&& rest == self.skip(rest.start - self.start)
    }

    /// Whether the span sits at the start of a line: nothing was consumed
    /// yet, or the last consumed character ended a line.
    pub open spec fn spec_at_line_start(&self) -> bool {
        self.start == 0 || self.src@[self.start - 1] == '\n'
    }

    /// Whether the span sits at the start of a line or at the end of the
    /// input.
    pub open spec fn at_boundary(&self) -> bool {
        self.spec_at_line_start() || self@.len() == 0
    }

    pub proof fn lemma_skip(&self, n: int)
        requires
            self.wf(),
            0 <= n <= self.spec_len(),
        ensures
            self.skip(n).wf(),
            self.skip(n)@ == self@.subrange(n, self@.len() as int),
            self.skip(n).spec_len() == self.spec_len() - n,
            self.skip(0) == *self,
            self.leads_to(self.skip(n)),
    {
        lemma_position_bounds(self.src@, self.start + n);
        assert(self.skip(n)@ =~= self@.subrange(n, self@.len() as int));
    }

    pub proof fn lemma_skip_skip(&self, n: int, m: int)
        requires
            self.wf(),
            0 <= n,
            0 <= m,
            n + m <= self.spec_len(),
        ensures
            self.skip(n).skip(m) == self.skip(n + m),
    {
        lemma_position_bounds(self.src@, self.start + n);
    }

    pub proof fn lemma_first(&self, n: int)
        requires
            self.wf(),
            0 <= n <= self.spec_len(),
        ensures
            self.first(n).wf(),
            self.first(n)@ == self@.subrange(0, n),
            self.first(n).spec_len() == n,
    {
        assert(self.first(n)@ =~= self@.subrange(0, n));
    }

    pub proof fn lemma_leads_to_trans(&self, mid: Span<'a>, rest: Span<'a>)
        requires
            self.wf(),
            self.leads_to(mid),
            mid.leads_to(rest),
        ensures
            self.leads_to(rest),
            mid.wf(),
            rest.wf(),
    {
        self.lemma_skip(mid.start - self.start);
        mid.lemma_skip(rest.start - mid.start);
        self.lemma_skip_skip(mid.start - self.start, rest.start - mid.start);
    }

    /// A span over the whole of `src`, at line 1 and column 1.
    pub fn new(src: &'a [char]) -> (r: Span<'a>)
        requires
            src@.len() < usize::MAX,
        ensures
            r.wf(),
            r@ == src@,
            r.src == src,
            r.start == 0,
            r.end == src@.len(),
    {
        assert(src@.subrange(0, src@.len() as int) =~= src@);
        Span { src, start: 0, end: src.len(), line: 1, column: 1 }
    }

    /// Number of characters that remain.
    pub fn len(&self) -> (r: usize)
        requires
            self.wf(),
        ensures
            r == self.spec_len(),
            r == self@.len(),
    {
        self.end - self.start
    }

    pub fn is_empty(&self) -> (r: bool)
        requires
            self.wf(),
        ensures
            r == (self@.len() == 0),
    {
        self.end == self.start
    }

    /// Offset of the first remaining character in the source.
    pub fn start_offset(&self) -> (r: usize)
        ensures
            r == self.start,
    {
        self.start
    }

    /// Offset just past the last character of the window.
    pub fn end_offset(&self) -> (r: usize)
        ensures
            r == self.end,
    {
        self.end
    }

    /// Number of characters consumed so far.
    pub fn consumed_len(&self) -> (r: usize)
        ensures
            r == self.start,
    {
        self.start
    }

    /// 1-based line of the first remaining character.
    pub fn line(&self) -> (r: usize)
        ensures
            r == self.line,
    {
        self.line
    }

    /// 1-based column of the first remaining character.
    pub fn column(&self) -> (r: usize)
        ensures
            r == self.column,
    {
        self.column
    }

    /// The `i`-th remaining character.
    pub fn get(&self, i: usize) -> (c: char)
        requires
            self.wf(),
            i < self@.len(),
        ensures
            c == self@[i as int],
    {
        self.src[self.start + i]
    }

    /// The first remaining character, if any.
    pub fn peek(&self) -> (r: Option<char>)
        requires
            self.wf(),
        ensures
            r == (if self@.len() > 0 {
                Some(self@[0])
            } else {
                None
            }),
    {
        if self.start < self.end {
            Some(self.src[self.start])
        } else {
            None
        }
    }

    /// Whether the span sits at the start of a line.
    pub fn at_line_start(&self) -> (r: bool)
        requires
            self.wf(),
        ensures
            r == self.spec_at_line_start(),
    {
        self.start == 0 || self.src[self.start - 1] == '\n'
    }

    /// The span after its first `n` characters were consumed. Line and
    /// column follow the characters passed, so the work is linear in `n`.
    pub fn advance(&self, n: usize) -> (r: Span<'a>)
        requires
            self.wf(),
            n <= self@.len(),
        ensures
            r == self.skip(n as int),
            r.wf(),
            self.leads_to(r),
            r@ == self@.subrange(n as int, self@.len() as int),
            r.start == self.start + n,
    {
        let mut line: usize = self.line;
        let mut column: usize = self.column;
        let mut i: usize = self.start;
        let stop: usize = self.start + n;
        while i < stop
            invariant
                self.wf(),
                self.start <= i <= stop <= self.end,
                line == line_at(self.src@, i as int),
                column == column_at(self.src@, i as int),
            decreases stop - i,
        {
            proof {
                lemma_position_bounds(self.src@, i + 1);
            }
            if self.src[i] == '\n' {
                line = line + 1;
                column = 1;
            } else {
                column = column + 1;
            }
            i = i + 1;
        }
        proof {
            self.lemma_skip(n as int);
        }
        Span { src: self.src, start: stop, end: self.end, line, column }
    }

    /// The window on the first `n` characters.
    pub fn take(&self, n: usize) -> (r: Span<'a>)
        requires
            self.wf(),
            n <= self@.len(),
        ensures
            r == self.first(n as int),
            r.wf(),
            r@ == self@.subrange(0, n as int),
    {
        proof {
            self.lemma_first(n as int);
        }
        Span {
            src: self.src,
            start: self.start,
            end: self.start + n,
            line: self.line,
            column: self.column,
        }
    }

    /// Splits after `n` characters: what follows them, and the window on
    /// them.
    pub fn take_split(&self, n: usize) -> (r: (Span<'a>, Span<'a>))
        requires
            self.wf(),
            n <= self@.len(),
        ensures
            r.0 == self.skip(n as int),
            r.1 == self.first(n as int),
            r.0.wf(),
            r.1.wf(),
            self.leads_to(r.0),
            r.0@ == self@.subrange(n as int, self@.len() as int),
            r.1@ == self@.subrange(0, n as int),
            r.0.start == self.start + n,
    {
        (self.advance(n), self.take(n))
    }

    /// The window without its last `n` characters.
    pub fn drop_last(&self, n: usize) -> (r: Span<'a>)
        requires
            self.wf(),
            n <= self@.len(),
        ensures
            r == self.first(self@.len() - n),
            r.wf(),
            r@ == self@.subrange(0, self@.len() - n),
    {
        self.take(self.len() - n)
    }

    /// Whether the remaining characters begin with `tag`.
    pub fn starts_with(&self, tag: &str) -> (b: bool)
        requires
            self.wf(),
        ensures
            b == tag@.is_prefix_of(self@),
    {
        let n = self.len();
        let mut i: usize = 0;
        let it = tag.chars();
        for c in iter: it
            invariant
                self.wf(),
                n == self@.len(),
                i == iter.index(),
                i <= n,
                iter.seq() == tag@,
                forall|k: int| 0 <= k < i ==> self@[k] == tag@[k],
        {
            if i >= n {
                return false;
            }
            if self.get(i) != c {
                assert(!tag@.is_prefix_of(self@)) by {
                    if tag@.len() <= self@.len() {
                        assert(self@.subrange(0, tag@.len() as int)[i as int] == self@[i as int]);
                    }
                }
                return false;
            }
            i += 1;
        }
        assert(tag@ =~= self@.subrange(0, tag@.len() as int));
        true
    }

    /// Whether the first remaining character is `c`.
    pub fn starts_with_char(&self, c: char) -> (b: bool)
        requires
            self.wf(),
        ensures
            b == (self@.len() > 0 && self@[0] == c),
    {
        self.start < self.end && self.src[self.start] == c
    }

    /// The remaining characters.
    pub fn chars(&self) -> (r: &'a [char])
        requires
            self.wf(),
        ensures
            r@ == self@,
    {
        slice_subrange(self.src, self.start, self.end)
    }

    /// The remaining characters as a string.
    pub fn to_text(&self) -> (s: String)
        requires
            self.wf(),
        ensures
            s@ == self@,
    {
        string_from_chars(slice_subrange(self.src, self.start, self.end))
    }

    /// The characters consumed so far, as a string.
    pub fn consumed_text(&self) -> (s: String)
        requires
            self.wf(),
        ensures
            s@ == self.src@.subrange(0, self.start as int),
    {
        string_from_chars(slice_subrange(self.src, 0, self.start))
    }

    /// The region covered from the start of this span up to the start of
    /// `rest`, a later state of the same span.
    pub fn region_to(&self, rest: &Span<'a>) -> (r: Region)
        requires
            self.wf(),
            self.leads_to(*rest),
        ensures
            r == self.region_of(rest.start - self.start),
            r.wf(),
    {
        let n: usize = rest.start - self.start;
        proof {
            lemma_region_between(self.src@, self.start as int, self.start + n);
            self.lemma_skip(n as int);
        }
        if n == 0 {
            Region {
                offset: self.start,
                len: 0,
                start_line: self.line,
                start_col: self.column,
                end_line: self.line,
                end_col: self.column,
            }
        } else {
            let last = self.advance(n - 1);
            Region {
                offset: self.start,
                len: n,
                start_line: self.line,
                start_col: self.column,
                end_line: last.line,
                end_col: last.column,
            }
        }
    }
}

} // verus!
