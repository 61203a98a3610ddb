//! What the building blocks of the grammar mean, stated on character
//! sequences, and the executable scans that compute it.

use crate::span::Span;
use vstd::prelude::*;

verus! {

/// Horizontal whitespace: a space or a tab.
pub open spec fn is_space(c: char) -> bool {
    c == ' ' || c == '\t'
}

/// Length of the line terminator at the front of `s`: 1 for `"\n"`, 2 for
/// `"\r\n"`, 0 where `s` does not begin with one.
pub open spec fn line_ending_len(s: Seq<char>) -> int {
    if s.len() >= 1 && s[0] == '\n' {
        1
    } else if s.len() >= 2 && s[0] == '\r' && s[1] == '\n' {
        2
    } else {
        0
    }
}

/// Whether `s` is empty or begins with a line terminator.
pub open spec fn at_end_of_line(s: Seq<char>) -> bool {
    s.len() == 0 || line_ending_len(s) > 0
}

/// Whether none of `tags` begins `t`.
pub open spec fn none_starts(tags: Seq<Seq<char>>, t: Seq<char>) -> bool {
    forall|i: int| 0 <= i < tags.len() ==> !(#[trigger] tags[i]).is_prefix_of(t)
}

/// The text from index `k` on.
pub open spec fn tail(s: Seq<char>, k: int) -> Seq<char> {
    s.subrange(k, s.len() as int)
}

/// Number of characters that a scan consumes when it goes on, one character
/// at a time, for as long as `go` holds of the text that is left.
pub open spec fn scan_len(s: Seq<char>, go: spec_fn(Seq<char>) -> bool) -> int
    decreases s.len(),
{
    if s.len() > 0 && go(s) {
        1 + scan_len(tail(s, 1), go)
    } else {
        0
    }
}

/// `n` is where a scan of `s` under `go` stops: `go` holds at every index
/// before `n`, and `n` is the end of `s` or `go` fails there.
pub open spec fn stops_at(s: Seq<char>, go: spec_fn(Seq<char>) -> bool, n: int) -> bool {
    &&& 0 <= n <= s.len()
    &&& forall|k: int| 0 <= k < n ==> go(#[trigger] tail(s, k))
    &&& (n < s.len() ==> !go(tail(s, n)))
}

pub proof fn lemma_tail_tail(s: Seq<char>, i: int, j: int)
    requires
        0 <= i,
        0 <= j,
        i + j <= s.len(),
    ensures
        tail(tail(s, i), j) == tail(s, i + j),
        tail(s, 0) == s,
{
    assert(tail(tail(s, i), j) =~= tail(s, i + j));
    assert(tail(s, 0) =~= s);
}

/// A scan stops where `scan_len` says.
pub proof fn lemma_scan_len_stops(s: Seq<char>, go: spec_fn(Seq<char>) -> bool)
    ensures
        stops_at(s, go, scan_len(s, go)),
    decreases s.len(),
{
    lemma_tail_tail(s, 0, 0);
    if s.len() > 0 && go(s) {
        let t = tail(s, 1);
        lemma_scan_len_stops(t, go);
        let n = scan_len(s, go);
        assert forall|k: int| 0 <= k < n implies go(#[trigger] tail(s, k)) by {
            if k > 0 {
                lemma_tail_tail(s, 1, k - 1);
                assert(go(tail(t, k - 1)));
            }
        }
        if n < s.len() {
            lemma_tail_tail(s, 1, n - 1);
        }
    }
}

/// There is only one place where a scan can stop.
pub proof fn lemma_scan_len_unique(s: Seq<char>, go: spec_fn(Seq<char>) -> bool, n: int)
    requires
        stops_at(s, go, n),
    ensures
        scan_len(s, go) == n,
    decreases s.len(),
{
    lemma_tail_tail(s, 0, 0);
    if n == 0 {
    } else {
        assert(go(tail(s, 0)));
        let t = tail(s, 1);
        assert forall|k: int| 0 <= k < n - 1 implies go(#[trigger] tail(t, k)) by {
            lemma_tail_tail(s, 1, k);
            assert(go(tail(s, k + 1)));
        }
        if n - 1 < t.len() {
            lemma_tail_tail(s, 1, n - 1);
        }
        lemma_scan_len_unique(t, go, n - 1);
    }
}

/// Goes on while the next character is a space or a tab.
pub open spec fn while_space() -> spec_fn(Seq<char>) -> bool {
    |t: Seq<char>| is_space(t[0])
}

/// Goes on while the next character is `c`.
pub open spec fn while_char(c: char) -> spec_fn(Seq<char>) -> bool {
    |t: Seq<char>| t[0] == c
}

/// Number of times that `c` stands at the front of `s`.
pub open spec fn leading_count(s: Seq<char>, c: char) -> int {
    scan_len(s, while_char(c))
}

/// Number of times that `c` stands at the end of `s`.
pub open spec fn trailing_count(s: Seq<char>, c: char) -> int
    decreases s.len(),
{
    if s.len() > 0 && s.last() == c {
        1 + trailing_count(s.drop_last(), c)
    } else {
        0
    }
}

/// `s` without the spaces and tabs at its two ends.
pub open spec fn trimmed(s: Seq<char>) -> Seq<char> {
    let t = tail(s, leading_spaces(s));
    t.subrange(0, t.len() - trailing_spaces(t))
}

/// Goes on while the next character is not `c`.
pub open spec fn while_not_char(c: char) -> spec_fn(Seq<char>) -> bool {
    |t: Seq<char>| t[0] != c
}

/// Goes on while the line has not ended and none of `tags` begins.
pub open spec fn while_in_line_before(tags: Seq<Seq<char>>) -> spec_fn(Seq<char>) -> bool {
    |t: Seq<char>| !at_end_of_line(t) && none_starts(tags, t)
}

/// A character that may stand in the scheme of a URI: an ASCII letter or
/// digit, `+`, `.` or `-`.
pub open spec fn is_scheme_char(c: char) -> bool {
    let n = c as u32;
    (0x61 <= n <= 0x7a) || (0x41 <= n <= 0x5a) || (0x30 <= n <= 0x39) || c == '+' || c == '.'
        || c == '-'
}

/// Goes on while the next character may stand in a scheme.
pub open spec fn while_scheme() -> spec_fn(Seq<char>) -> bool {
    |t: Seq<char>| is_scheme_char(t[0])
}

/// Length of the whitespace unit at the front of `s`: 2 for `"\r\n"`, 1 for
/// `"\n"`, a tab or a space, 0 where `s` begins with none of them.
pub open spec fn spec_multispace_len(s: Seq<char>) -> int {
    if line_ending_len(s) > 0 {
        line_ending_len(s)
    } else if s.len() > 0 && (s[0] == '\t' || s[0] == ' ') {
        1
    } else {
        0
    }
}

/// Goes on while no whitespace unit begins.
pub open spec fn while_not_blank() -> spec_fn(Seq<char>) -> bool {
    |t: Seq<char>| spec_multispace_len(t) == 0
}

/// Number of leading spaces and tabs of `s`.
pub open spec fn leading_spaces(s: Seq<char>) -> int {
    scan_len(s, while_space())
}

/// Number of characters of `s` before the first `c`, or its length.
pub open spec fn len_until_char(s: Seq<char>, c: char) -> int {
    scan_len(s, while_not_char(c))
}

/// Number of characters of the current line of `s`: those before the line
/// terminator, `"\n"` or `"\r\n"`, or all where there is none.
pub open spec fn line_len(s: Seq<char>) -> int {
    line_until_len(s, Seq::empty())
}

/// Number of trailing spaces and tabs of `s`.
pub open spec fn trailing_spaces(s: Seq<char>) -> int
    decreases s.len(),
{
    if s.len() > 0 && is_space(s.last()) {
        1 + trailing_spaces(s.drop_last())
    } else {
        0
    }
}

/// Number of characters of the current line of `s` before the first place
/// where one of `tags` begins; the line terminator is not passed.
pub open spec fn line_until_len(s: Seq<char>, tags: Seq<Seq<char>>) -> int {
    scan_len(s, while_in_line_before(tags))
}

/// Goes on while `tag` does not begin.
pub open spec fn while_not_tag(tag: Seq<char>) -> spec_fn(Seq<char>) -> bool {
    |t: Seq<char>| !tag.is_prefix_of(t)
}

/// Number of characters of `s` before the first place where `tag` begins,
/// or its length.
pub open spec fn len_until_tag(s: Seq<char>, tag: Seq<char>) -> int {
    scan_len(s, while_not_tag(tag))
}

/// The lines of `s`: what stands between its line terminators.
pub open spec fn split_lines(s: Seq<char>) -> Seq<Seq<char>>
    decreases s.len(),
{
    let n = line_len(s);
    let e = line_ending_len(tail(s, n));
    if 0 <= n && e > 0 && n + e <= s.len() {
        seq![s.subrange(0, n)] + split_lines(tail(s, n + e))
    } else {
        seq![s]
    }
}

/// Goes on while the next character is a digit.
pub open spec fn while_digit() -> spec_fn(Seq<char>) -> bool {
    |t: Seq<char>| 0x30 <= t[0] as u32 <= 0x39
}

/// A scan of a line stops at the end of the line or where a tag begins.
pub proof fn lemma_line_until_stops(s: Seq<char>, tags: Seq<Seq<char>>)
    ensures
        0 <= line_until_len(s, tags) <= s.len(),
        at_end_of_line(tail(s, line_until_len(s, tags))) || !none_starts(
            tags,
            tail(s, line_until_len(s, tags)),
        ),
{
    lemma_scan_len_stops(s, while_in_line_before(tags));
    let n = line_until_len(s, tags);
    if n == s.len() {
        assert(tail(s, n).len() == 0);
    }
}

/// The line of a text ends at a line terminator or at the end of the text,
/// and holds no line feed.
pub proof fn lemma_line_len_stops(s: Seq<char>)
    ensures
        0 <= line_len(s) <= s.len(),
        at_end_of_line(tail(s, line_len(s))),
        line_len(s) < s.len() ==> line_ending_len(tail(s, line_len(s))) > 0,
        line_len(s) + line_ending_len(tail(s, line_len(s))) <= s.len(),
        forall|k: int| 0 <= k < line_len(s) ==> #[trigger] s[k] != '\n',
{
    let tags = Seq::<Seq<char>>::empty();
    lemma_line_until_stops(s, tags);
    lemma_scan_len_stops(s, while_in_line_before(tags));
    let n = line_len(s);
    assert forall|k: int| 0 <= k < n implies #[trigger] s[k] != '\n' by {
        let t = tail(s, k);
        assert(while_in_line_before(tags)(t));
        assert(t[0] == s[k]);
    }
}

/// The texts of a list of string slices.
pub open spec fn strs_view(tags: Seq<&str>) -> Seq<Seq<char>> {
    tags.map_values(|t: &str| t@)
}

impl<'a> Span<'a> {
    /// Whether `tag` stands at index `i` of the remaining characters.
    pub fn has_at(&self, i: usize, tag: &str) -> (b: bool)
        requires
            self.wf(),
            i <= self@.len(),
        ensures
            b == tag@.is_prefix_of(tail(self@, i as int)),
    {
        let n = self.len() - i;
        let mut j: usize = 0;
        let it = tag.chars();
        let ghost rest = tail(self@, i as int);
        for c in iter: it
            invariant
                self.wf(),
                i <= self@.len(),
                n == rest.len(),
                rest == tail(self@, i as int),
                j == iter.index(),
                j <= n,
                iter.seq() == tag@,
                forall|k: int| 0 <= k < j ==> rest[k] == tag@[k],
        {
            if j >= n {
                return false;
            }
            if self.get(i + j) != c {
                assert(!tag@.is_prefix_of(rest)) by {
                    if tag@.len() <= rest.len() {
                        assert(rest.subrange(0, tag@.len() as int)[j as int] == rest[j as int]);
                    }
                }
                return false;
            }
            j += 1;
        }
        assert(tag@ =~= rest.subrange(0, tag@.len() as int));
        true
    }

    /// Whether one of `tags` stands at index `i` of the remaining
    /// characters.
    pub fn has_any_at(&self, i: usize, tags: &[&str]) -> (b: bool)
        requires
            self.wf(),
            i <= self@.len(),
        ensures
            b == !none_starts(strs_view(tags@), tail(self@, i as int)),
    {
        let mut k: usize = 0;
        let ghost views = strs_view(tags@);
        while k < tags.len()
            invariant
                self.wf(),
                i <= self@.len(),
                k <= tags@.len(),
                views == strs_view(tags@),
                forall|m: int| 0 <= m < k ==> !(#[trigger] views[m]).is_prefix_of(tail(self@, i as int)),
            decreases tags@.len() - k,
        {
            if self.has_at(i, tags[k]) {
                assert(views[k as int] == tags@[k as int]@);
                return true;
            }
            assert(views[k as int] == tags@[k as int]@);
            k += 1;
        }
        true == false
    }

    /// Length of the line terminator at index `i` of the remaining
    /// characters, 0 where there is none.
    pub fn line_ending_at(&self, i: usize) -> (n: usize)
        requires
            self.wf(),
            i <= self@.len(),
        ensures
            n == line_ending_len(tail(self@, i as int)),
    {
        let len = self.len();
        if i < len && self.get(i) == '\n' {
            1
        } else if i < len && len - i >= 2 && self.get(i) == '\r' && self.get(i + 1) == '\n' {
            2
        } else {
            0
        }
    }

    /// Whether index `i` of the remaining characters is their end or the
    /// start of a line terminator.
    pub fn end_of_line_at(&self, i: usize) -> (b: bool)
        requires
            self.wf(),
            i <= self@.len(),
        ensures
            b == at_end_of_line(tail(self@, i as int)),
    {
        i == self.len() || self.line_ending_at(i) > 0
    }

    /// Number of leading spaces and tabs from index `i` on.
    pub fn spaces_at(&self, i: usize) -> (n: usize)
        requires
            self.wf(),
            i <= self@.len(),
        ensures
            n == leading_spaces(tail(self@, i as int)),
            i + n <= self@.len(),
    {
        let len = self.len();
        let ghost s = tail(self@, i as int);
        let ghost go = while_space();
        let mut k: usize = i;
        while k < len && (self.get(k) == ' ' || self.get(k) == '\t')
            invariant
                self.wf(),
                len == self@.len(),
                i <= k <= len,
                s == tail(self@, i as int),
                go == while_space(),
                forall|m: int| 0 <= m < k - i ==> go(#[trigger] tail(s, m)),
            decreases len - k,
        {
            assert(tail(s, k - i)[0] == self@[k as int]);
            k += 1;
        }
        proof {
            if k < len {
                assert(tail(s, k - i)[0] == self@[k as int]);
            }
            lemma_scan_len_unique(s, go, k - i);
        }
        k - i
    }

    /// Number of characters from index `i` up to the next `c`, or up to the
    /// end.
    pub fn find_char_at(&self, i: usize, c: char) -> (n: usize)
        requires
            self.wf(),
            i <= self@.len(),
        ensures
            n == len_until_char(tail(self@, i as int), c),
            i + n <= self@.len(),
    {
        let len = self.len();
        let ghost s = tail(self@, i as int);
        let ghost go = while_not_char(c);
        let mut k: usize = i;
        while k < len && self.get(k) != c
            invariant
                self.wf(),
                len == self@.len(),
                i <= k <= len,
                s == tail(self@, i as int),
                go == while_not_char(c),
                forall|m: int| 0 <= m < k - i ==> go(#[trigger] tail(s, m)),
            decreases len - k,
        {
            assert(tail(s, k - i)[0] == self@[k as int]);
            k += 1;
        }
        proof {
            if k < len {
                assert(tail(s, k - i)[0] == self@[k as int]);
            }
            lemma_scan_len_unique(s, go, k - i);
        }
        k - i
    }

    /// Number of characters from index `i` up to the end of the line: up to
    /// its terminator, or to the end of the input.
    pub fn line_len_at(&self, i: usize) -> (n: usize)
        requires
            self.wf(),
            i <= self@.len(),
        ensures
            n == line_len(tail(self@, i as int)),
            i + n <= self@.len(),
    {
        let none: [&str; 0] = [];
        proof {
            assert(strs_view(none@) =~= Seq::empty());
        }
        self.line_until_at(i, none.as_slice())
    }

    /// Number of characters of the current line from index `i` up to the
    /// first place where one of `tags` begins.
    pub fn line_until_at(&self, i: usize, tags: &[&str]) -> (n: usize)
        requires
            self.wf(),
            i <= self@.len(),
        ensures
            n == line_until_len(tail(self@, i as int), strs_view(tags@)),
            i + n <= self@.len(),
    {
        let len = self.len();
        let ghost s = tail(self@, i as int);
        let ghost views = strs_view(tags@);
        let ghost go = while_in_line_before(views);
        let mut k: usize = i;
        loop
            invariant
                self.wf(),
                len == self@.len(),
                i <= k <= len,
                s == tail(self@, i as int),
                views == strs_view(tags@),
                go == while_in_line_before(views),
                forall|m: int| 0 <= m < k - i ==> go(#[trigger] tail(s, m)),
            ensures
                i <= k <= len,
                k < len ==> !go(tail(s, k - i)),
                forall|m: int| 0 <= m < k - i ==> go(#[trigger] tail(s, m)),
            decreases len - k,
        {
            proof {
                lemma_tail_tail(self@, i as int, k - i);
            }
            if self.end_of_line_at(k) || self.has_any_at(k, tags) {
                break;
            }
            k += 1;
        }
        proof {
            lemma_scan_len_unique(s, go, k - i);
        }
        k - i
    }

    /// Number of trailing spaces and tabs.
    pub fn trailing_space_count(&self) -> (n: usize)
        requires
            self.wf(),
        ensures
            n == trailing_spaces(self@),
            n <= self@.len(),
    {
        let len = self.len();
        let mut k: usize = len;
        proof {
            assert(self@.subrange(0, len as int) =~= self@);
        }
        while k > 0 && (self.get(k - 1) == ' ' || self.get(k - 1) == '\t')
            invariant
                self.wf(),
                len == self@.len(),
                k <= len,
                trailing_spaces(self@) == (len - k) + trailing_spaces(self@.subrange(0, k as int)),
            decreases k,
        {
            proof {
                let p = self@.subrange(0, k as int);
                assert(p.last() == self@[k - 1]);
                assert(p.drop_last() =~= self@.subrange(0, k - 1));
            }
            k -= 1;
        }
        proof {
            let p = self@.subrange(0, k as int);
            if k > 0 {
                assert(p.last() == self@[k - 1]);
            }
        }
        len - k
    }

    /// Length of the whitespace unit at index `i` of the remaining
    /// characters.
    pub fn multispace_at(&self, i: usize) -> (n: usize)
        requires
            self.wf(),
            i <= self@.len(),
        ensures
            n == spec_multispace_len(tail(self@, i as int)),
            i + n <= self@.len(),
    {
        let e = self.line_ending_at(i);
        if e > 0 {
            e
        } else if i < self.len() && (self.get(i) == '\t' || self.get(i) == ' ') {
            1
        } else {
            0
        }
    }

    /// Number of characters from index `i` on that may stand in a scheme.
    pub fn scheme_len_at(&self, i: usize) -> (n: usize)
        requires
            self.wf(),
            i <= self@.len(),
        ensures
            n == scan_len(tail(self@, i as int), while_scheme()),
            i + n <= self@.len(),
    {
        let len = self.len();
        let ghost s = tail(self@, i as int);
        let ghost go = while_scheme();
        let mut k: usize = i;
        let mut done = false;
        while k < len && !done
            invariant
                self.wf(),
                len == self@.len(),
                i <= k <= len,
                s == tail(self@, i as int),
                go == while_scheme(),
                forall|m: int| 0 <= m < k - i ==> go(#[trigger] tail(s, m)),
                done ==> k < len && !go(tail(s, k - i)),
            decreases len - k + (if done { 0int } else { 1int }),
        {
            let c = self.get(k);
            let n = c as u32;
            assert(tail(s, k - i)[0] == c);
            if (0x61 <= n && n <= 0x7a) || (0x41 <= n && n <= 0x5a) || (0x30 <= n && n <= 0x39)
                || c == '+' || c == '.' || c == '-' {
                k += 1;
            } else {
                done = true;
            }
        }
        proof {
            lemma_scan_len_unique(s, go, k - i);
        }
        k - i
    }

    /// Number of characters from index `i` up to the next whitespace unit.
    pub fn non_blank_len_at(&self, i: usize) -> (n: usize)
        requires
            self.wf(),
            i <= self@.len(),
        ensures
            n == scan_len(tail(self@, i as int), while_not_blank()),
            i + n <= self@.len(),
    {
        let len = self.len();
        let ghost s = tail(self@, i as int);
        let ghost go = while_not_blank();
        let mut k: usize = i;
        let mut done = false;
        while k < len && !done
            invariant
                self.wf(),
                len == self@.len(),
                i <= k <= len,
                s == tail(self@, i as int),
                go == while_not_blank(),
                forall|m: int| 0 <= m < k - i ==> go(#[trigger] tail(s, m)),
                done ==> k < len && !go(tail(s, k - i)),
            decreases len - k + (if done { 0int } else { 1int }),
        {
            proof {
                lemma_tail_tail(self@, i as int, k - i);
            }
            if self.multispace_at(k) == 0 {
                k += 1;
            } else {
                done = true;
            }
        }
        proof {
            lemma_scan_len_unique(s, go, k - i);
        }
        k - i
    }

    /// Number of times that `c` stands from index `i` on.
    pub fn count_char_at(&self, i: usize, c: char) -> (n: usize)
        requires
            self.wf(),
            i <= self@.len(),
        ensures
            n == leading_count(tail(self@, i as int), c),
            i + n <= self@.len(),
    {
        let len = self.len();
        let ghost s = tail(self@, i as int);
        let ghost go = while_char(c);
        let mut k: usize = i;
        while k < len && self.get(k) == c
            invariant
                self.wf(),
                len == self@.len(),
                i <= k <= len,
                s == tail(self@, i as int),
                go == while_char(c),
                forall|m: int| 0 <= m < k - i ==> go(#[trigger] tail(s, m)),
            decreases len - k,
        {
            assert(tail(s, k - i)[0] == self@[k as int]);
            k += 1;
        }
        proof {
            if k < len {
                assert(tail(s, k - i)[0] == self@[k as int]);
            }
            lemma_scan_len_unique(s, go, k - i);
        }
        k - i
    }

    /// Number of times that `c` stands at the end.
    pub fn trailing_char_count(&self, c: char) -> (n: usize)
        requires
            self.wf(),
        ensures
            n == trailing_count(self@, c),
            n <= self@.len(),
    {
        let len = self.len();
        let mut k: usize = len;
        proof {
            assert(self@.subrange(0, len as int) =~= self@);
        }
        while k > 0 && self.get(k - 1) == c
            invariant
                self.wf(),
                len == self@.len(),
                k <= len,
                trailing_count(self@, c) == (len - k) + trailing_count(
                    self@.subrange(0, k as int),
                    c,
                ),
            decreases k,
        {
            proof {
                let p = self@.subrange(0, k as int);
                assert(p.last() == self@[k - 1]);
                assert(p.drop_last() =~= self@.subrange(0, k - 1));
            }
            k -= 1;
        }
        proof {
            let p = self@.subrange(0, k as int);
            if k > 0 {
                assert(p.last() == self@[k - 1]);
            }
        }
        len - k
    }

    /// The span without the spaces and tabs at its two ends.
    pub open spec fn spec_trim(&self) -> Span<'a> {
        let inner = self.skip(leading_spaces(self@));
        inner.first(inner@.len() - trailing_spaces(inner@))
    }

    /// Number of digits from index `i` on.
    pub fn digits_at(&self, i: usize) -> (n: usize)
        requires
            self.wf(),
            i <= self@.len(),
        ensures
            n == scan_len(tail(self@, i as int), while_digit()),
            i + n <= self@.len(),
    {
        let len = self.len();
        let ghost s = tail(self@, i as int);
        let ghost go = while_digit();
        let mut k: usize = i;
        let mut done = false;
        while k < len && !done
            invariant
                self.wf(),
                len == self@.len(),
                i <= k <= len,
                s == tail(self@, i as int),
                go == while_digit(),
                forall|m: int| 0 <= m < k - i ==> go(#[trigger] tail(s, m)),
                done ==> k < len && !go(tail(s, k - i)),
            decreases len - k + (if done { 0int } else { 1int }),
        {
            let c = self.get(k);
            let n = c as u32;
            assert(tail(s, k - i)[0] == c);
            if 0x30 <= n && n <= 0x39 {
                k += 1;
            } else {
                done = true;
            }
        }
        proof {
            lemma_scan_len_unique(s, go, k - i);
        }
        k - i
    }

    /// The span without the spaces and tabs at its two ends.
    pub fn trim(&self) -> (r: Span<'a>)
        requires
            self.wf(),
        ensures
            r.wf(),
            r == self.spec_trim(),
            r@ == trimmed(self@),
            self.start <= r.start,
            r.end <= self.end,
            r.src == self.src,
    {
        proof {
            assert(tail(self@, 0) =~= self@);
        }
        let n = self.spaces_at(0);
        let inner = self.advance(n);
        let t = inner.trailing_space_count();
        inner.drop_last(t)
    }

    /// Number of characters from index `i` up to the next place where `tag`
    /// begins, or up to the end.
    pub fn find_tag_at(&self, i: usize, tag: &str) -> (n: usize)
        requires
            self.wf(),
            i <= self@.len(),
        ensures
            n == len_until_tag(tail(self@, i as int), tag@),
            i + n <= self@.len(),
    {
        let len = self.len();
        let ghost s = tail(self@, i as int);
        let ghost go = while_not_tag(tag@);
        let mut k: usize = i;
        let mut done = false;
        while k < len && !done
            invariant
                self.wf(),
                len == self@.len(),
                i <= k <= len,
                s == tail(self@, i as int),
                go == while_not_tag(tag@),
                forall|m: int| 0 <= m < k - i ==> go(#[trigger] tail(s, m)),
                done ==> k < len && !go(tail(s, k - i)),
            decreases len - k + (if done { 0int } else { 1int }),
        {
            proof {
                lemma_tail_tail(self@, i as int, k - i);
            }
            if self.has_at(k, tag) {
                done = true;
            } else {
                k += 1;
            }
        }
        proof {
            lemma_scan_len_unique(s, go, k - i);
        }
        k - i
    }
}

} // verus!
