//! Code blocks written out as text, and read back.

use crate::elements::code::{CodeBlock, CodeBlockView};
use crate::elements::metadata::{drawn_from, properties_map};
use crate::parsers::blocks::code::{
    key_stops, lang_stops, spec_code_block, spec_code_block_start, spec_fence_end,
    spec_fenced_body, spec_key_value, spec_lang, spec_more_pairs, spec_pairs, value_stops,
};
use crate::parsers::scanning::{
    at_end_of_line, leading_spaces, lemma_scan_len_unique, line_ending_len, line_len,
    line_until_len, scan_len, tail, while_in_line_before, while_not_char, while_space, is_space,
};
use crate::parsers::utils::spec_any_line;
use crate::span::Span;
use crate::text::{text_str, texts_view};
use vstd::prelude::*;

verus! {

/// The text of a list of pairs: each as ` key="value"`, with the space
/// before it.
pub open spec fn render_pairs(pairs: Seq<(Seq<char>, Seq<char>)>) -> Seq<char>
    decreases pairs.len(),
{
    if pairs.len() == 0 {
        Seq::empty()
    } else {
        " "@ + pairs[0].0 + "=\""@ + pairs[0].1 + "\""@ + render_pairs(pairs.drop_first())
    }
}

/// The text of a list of lines: each with a line feed after it.
pub open spec fn render_lines(lines: Seq<Seq<char>>) -> Seq<char>
    decreases lines.len(),
{
    if lines.len() == 0 {
        Seq::empty()
    } else {
        lines[0] + "\n"@ + render_lines(lines.drop_first())
    }
}

/// The text of an optional language tag.
pub open spec fn render_lang(lang: Option<Seq<char>>) -> Seq<char> {
    match lang {
        Some(l) => l,
        None => Seq::empty(),
    }
}

/// The text of a code block: the opening fence with the language tag and
/// the pairs of metadata, the lines, and the closing fence.
pub open spec fn render_code_block(
    lang: Option<Seq<char>>,
    pairs: Seq<(Seq<char>, Seq<char>)>,
    lines: Seq<Seq<char>>,
) -> Seq<char> {
    "{{{"@ + render_lang(lang) + render_pairs(pairs) + "\n"@ + render_lines(lines) + "}}}"@
        + "\n"@
}

/// Whether no character of `s` is `c`.
pub open spec fn free_of(s: Seq<char>, c: char) -> bool {
    forall|k: int| 0 <= k < s.len() ==> #[trigger] s[k] != c
}

/// Whether `s`, with `next` after it, holds no line terminator that begins
/// within it: it holds no line feed, and does not end in a carriage return
/// that a line feed follows.
pub open spec fn unbroken(s: Seq<char>, next: Seq<char>) -> bool {
    &&& free_of(s, '\n')
    &&& (s.len() > 0 && s.last() == '\r' ==> next.len() == 0 || next[0] != '\n')
}

pub proof fn lemma_tail_concat(a: Seq<char>, b: Seq<char>, k: int)
    requires
        0 <= k <= a.len(),
    ensures
        tail(a + b, k) == tail(a, k) + b,
        tail(a + b, a.len() as int) == b,
{
    assert(tail(a + b, k) =~= tail(a, k) + b);
    assert(tail(a + b, a.len() as int) =~= b);
}

/// A scan of `a` followed by `b` stops at the end of `a` where it goes on
/// throughout `a` and stops at the front of `b`.
pub proof fn lemma_scan_stops_after(a: Seq<char>, b: Seq<char>, go: spec_fn(Seq<char>) -> bool)
    requires
        forall|k: int| 0 <= k < a.len() ==> go(#[trigger] tail(a + b, k)),
        b.len() == 0 || !go(b),
    ensures
        scan_len(a + b, go) == a.len(),
{
    lemma_tail_concat(a, b, 0);
    lemma_scan_len_unique(a + b, go, a.len() as int);
}

/// No line terminator begins within an unbroken text.
pub proof fn lemma_unbroken(s: Seq<char>, next: Seq<char>, k: int)
    requires
        unbroken(s, next),
        0 <= k < s.len(),
    ensures
        !at_end_of_line(tail(s + next, k)),
{
    let t = tail(s + next, k);
    lemma_tail_concat(s, next, k);
    assert(t[0] == s[k]);
    if s[k] == '\r' && t.len() >= 2 {
        if k + 1 < s.len() {
            assert(t[1] == s[k + 1]);
        } else {
            assert(t[1] == next[0]);
        }
    }
}

/// A scan along a line up to a mark of one character passes a text that
/// holds neither the mark nor a line terminator, and stops where the mark
/// or the end of the line follows.
pub proof fn lemma_line_until_mark(s: Seq<char>, next: Seq<char>, mark: Seq<char>, c: char)
    requires
        mark.len() == 1,
        mark[0] == c,
        unbroken(s, next),
        free_of(s, c),
        next.len() == 0 || next[0] == c || next[0] == '\n',
    ensures
        line_until_len(s + next, seq![mark]) == s.len(),
{
    let tags = seq![mark];
    let go = while_in_line_before(tags);
    assert forall|k: int| 0 <= k < s.len() implies go(#[trigger] tail(s + next, k)) by {
        lemma_unbroken(s, next, k);
        let t = tail(s + next, k);
        lemma_tail_concat(s, next, k);
        assert(t[0] == s[k]);
        assert forall|i: int| 0 <= i < tags.len() implies !(#[trigger] tags[i]).is_prefix_of(t) by {
            if mark.is_prefix_of(t) {
                assert(t.subrange(0, 1)[0] == mark[0]);
            }
        }
    }
    if next.len() > 0 {
        if next[0] == c {
            assert(mark =~= next.subrange(0, 1));
            assert(tags[0].is_prefix_of(next));
        }
    }
    lemma_scan_stops_after(s, next, go);
}

/// The spaces at the front of a text that begins with something else.
pub proof fn lemma_no_leading_spaces(s: Seq<char>)
    requires
        s.len() == 0 || !is_space(s[0]),
    ensures
        leading_spaces(s) == 0,
{
    assert(tail(s, 0) =~= s);
    lemma_scan_len_unique(s, while_space(), 0);
}

/// One space before a text that begins with something else.
pub proof fn lemma_one_leading_space(s: Seq<char>)
    requires
        s.len() == 0 || !is_space(s[0]),
    ensures
        leading_spaces(" "@ + s) == 1,
        tail(" "@ + s, 1) == s,
{
    reveal_strlit(" ");
    let t = " "@ + s;
    assert(tail(t, 0) =~= t);
    assert(tail(t, 1) =~= s);
    lemma_scan_len_unique(t, while_space(), 1);
}

/// Whether a key and its value can be written as `key="value"` and read
/// back: the key is not empty, does not begin with a space or a tab, and
/// holds no `=`; the value holds no `"`; neither holds a line feed.
pub open spec fn pair_ok(p: (Seq<char>, Seq<char>)) -> bool {
    &&& p.0.len() > 0
    &&& !is_space(p.0[0])
    &&& free_of(p.0, '=')
    &&& free_of(p.0, '\n')
    &&& free_of(p.1, '"')
    &&& free_of(p.1, '\n')
}

/// Whether each pair of a list can be written and read back.
pub open spec fn pairs_ok(pairs: Seq<(Seq<char>, Seq<char>)>) -> bool {
    forall|i: int| 0 <= i < pairs.len() ==> pair_ok(#[trigger] pairs[i])
}

/// The text of a pair, without the space before it.
pub open spec fn render_pair(p: (Seq<char>, Seq<char>)) -> Seq<char> {
    p.0 + "=\""@ + p.1 + "\""@
}

/// A pair that is written out is read back as it was.
pub proof fn lemma_key_value(p: (Seq<char>, Seq<char>), next: Seq<char>)
    requires
        pair_ok(p),
    ensures
        spec_key_value(render_pair(p) + next) == Some((p, render_pair(p).len() as int)),
        render_pair(p).len() > 0,
{
    reveal_strlit("=");
    reveal_strlit("\"");
    reveal_strlit("=\"");
    let eq = "=\""@;
    let q = "\""@;
    let s = render_pair(p) + next;
    let after_key = eq + p.1 + q + next;
    assert(s =~= p.0 + after_key);
    assert(after_key[0] == '=');
    assert(key_stops() =~= seq!["="@]);
    lemma_line_until_mark(p.0, after_key, "="@, '=');
    let k = line_until_len(s, key_stops());
    assert(k == p.0.len());
    lemma_tail_concat(p.0, after_key, 0);
    let u = tail(s, k);
    assert(u =~= after_key);
    assert(eq =~= u.subrange(0, eq.len() as int));
    let w = tail(u, eq.len() as int);
    let after_value = q + next;
    assert(w =~= p.1 + after_value);
    assert(after_value[0] == '"');
    assert(value_stops() =~= seq!["\""@]);
    lemma_line_until_mark(p.1, after_value, "\""@, '"');
    let v = line_until_len(w, value_stops());
    assert(v == p.1.len());
    assert(tail(w, v) =~= after_value);
    assert(q =~= tail(w, v).subrange(0, q.len() as int));
    assert(s.subrange(0, k) =~= p.0);
    assert(w.subrange(0, v) =~= p.1);
}

/// Pairs that are written out, each with a space before it, are read back
/// as they were, where a line feed follows them.
pub proof fn lemma_more_pairs(pairs: Seq<(Seq<char>, Seq<char>)>, next: Seq<char>)
    requires
        pairs_ok(pairs),
        next.len() > 0,
        next[0] == '\n',
    ensures
        spec_more_pairs(render_pairs(pairs) + next) == (pairs, render_pairs(pairs).len() as int),
    decreases pairs.len(),
{
    if pairs.len() == 0 {
        assert(render_pairs(pairs) + next =~= next);
        lemma_no_leading_spaces(next);
    } else {
        reveal_strlit(" ");
        let p = pairs[0];
        let rest = pairs.drop_first();
        assert(pair_ok(p));
        assert forall|i: int| 0 <= i < rest.len() implies pair_ok(#[trigger] rest[i]) by {
            assert(rest[i] == pairs[i + 1]);
        }
        let more = render_pairs(rest) + next;
        let s = render_pairs(pairs) + next;
        let body = render_pair(p) + more;
        assert(s =~= " "@ + body);
        lemma_key_value(p, more);
        assert(body[0] == p.0[0]);
        lemma_one_leading_space(body);
        let n = render_pair(p).len() as int;
        assert(tail(body, n) =~= more);
        lemma_more_pairs(rest, next);
        assert(seq![p] + rest =~= pairs);
        assert(render_pairs(pairs).len() == 1 + n + render_pairs(rest).len());
    }
}

/// Pairs that are written out are read back as they were, where a line
/// feed follows them. The first is read without the space before it.
pub proof fn lemma_pairs(pairs: Seq<(Seq<char>, Seq<char>)>, next: Seq<char>)
    requires
        pairs_ok(pairs),
        next.len() > 0,
        next[0] == '\n',
    ensures
        leading_spaces(render_pairs(pairs) + next) == (if pairs.len() > 0 {
            1int
        } else {
            0int
        }),
        spec_pairs(tail(render_pairs(pairs) + next, leading_spaces(render_pairs(pairs) + next)))
            == (pairs, render_pairs(pairs).len() - leading_spaces(render_pairs(pairs) + next)),
{
    let s = render_pairs(pairs) + next;
    if pairs.len() == 0 {
        assert(s =~= next);
        lemma_no_leading_spaces(next);
        assert(tail(next, 0) =~= next);
        // no key stands before the line feed
        assert(spec_key_value(next) is None) by {
            assert(at_end_of_line(next));
            lemma_scan_len_unique(next, while_in_line_before(key_stops()), 0);
        }
    } else {
        reveal_strlit(" ");
        let p = pairs[0];
        let rest = pairs.drop_first();
        assert(pair_ok(p));
        assert forall|i: int| 0 <= i < rest.len() implies pair_ok(#[trigger] rest[i]) by {
            assert(rest[i] == pairs[i + 1]);
        }
        let more = render_pairs(rest) + next;
        let body = render_pair(p) + more;
        assert(s =~= " "@ + body);
        lemma_key_value(p, more);
        assert(body[0] == p.0[0]);
        lemma_one_leading_space(body);
        let n = render_pair(p).len() as int;
        assert(tail(body, n) =~= more);
        lemma_more_pairs(rest, next);
        assert(seq![p] + rest =~= pairs);
        assert(render_pairs(pairs).len() == 1 + n + render_pairs(rest).len());
    }
}

/// Whether a language tag can be written after the opening fence and read
/// back: it is not empty and holds no space, no `=` and no line feed; and
/// it does not end in a carriage return where the line ends after it.
pub open spec fn lang_ok(lang: Option<Seq<char>>, pairs: Seq<(Seq<char>, Seq<char>)>) -> bool {
    match lang {
        Some(l) => {
            &&& l.len() > 0
            &&& free_of(l, ' ')
            &&& free_of(l, '=')
            &&& free_of(l, '\n')
            &&& (l.last() == '\r' ==> pairs.len() > 0)
        },
        None => true,
    }
}

/// A language tag that is written out is read back as it was, and none is
/// read where none was written.
pub proof fn lemma_lang(lang: Option<Seq<char>>, pairs: Seq<(Seq<char>, Seq<char>)>, after: Seq<char>)
    requires
        lang_ok(lang, pairs),
        after.len() > 0,
        pairs.len() > 0 ==> after[0] == ' ',
        pairs.len() == 0 ==> after[0] == '\n',
    ensures
        spec_lang(render_lang(lang) + after) == (match lang {
            Some(l) => Some((l, l.len() as int)),
            None => None,
        }),
{
    reveal_strlit(" ");
    let s2 = render_lang(lang) + after;
    assert(lang_stops() =~= seq![" "@]);
    match lang {
        Some(text) => {
            lemma_line_until_mark(text, after, " "@, ' ');
            assert(s2.subrange(0, text.len() as int) =~= text);
            assert(tail(text, 0) =~= text);
            assert forall|k: int| 0 <= k < text.len() implies while_not_char('=')(
                #[trigger] tail(text, k),
            ) by {
                assert(tail(text, k)[0] == text[k]);
            }
            lemma_scan_len_unique(text, while_not_char('='), text.len() as int);
        },
        None => {
            assert(s2 =~= after);
            assert(tail(s2, 0) =~= s2);
            if pairs.len() > 0 {
                assert(" "@ =~= s2.subrange(0, 1));
                assert(lang_stops()[0].is_prefix_of(s2));
            } else {
                assert(at_end_of_line(s2));
            }
            lemma_scan_len_unique(s2, while_in_line_before(lang_stops()), 0);
        },
    }
}

/// The text of pairs begins with a space.
pub proof fn lemma_pairs_begin(pairs: Seq<(Seq<char>, Seq<char>)>, after: Seq<char>)
    requires
        after.len() > 0,
    ensures
        (render_pairs(pairs) + after).len() > 0,
        pairs.len() > 0 ==> (render_pairs(pairs) + after)[0] == ' ',
        pairs.len() == 0 ==> (render_pairs(pairs) + after)[0] == after[0],
{
    reveal_strlit(" ");
    if pairs.len() > 0 {
        assert(render_pairs(pairs) + after =~= " "@ + (pairs[0].0 + "=\""@ + pairs[0].1 + "\""@
            + render_pairs(pairs.drop_first()) + after));
    } else {
        assert(render_pairs(pairs) + after =~= after);
    }
}

/// The opening line of a code block that is written out is read back as it
/// was.
pub proof fn lemma_start_line(
    input: Span,
    lang: Option<Seq<char>>,
    pairs: Seq<(Seq<char>, Seq<char>)>,
    body: Seq<char>,
)
    requires
        input.wf(),
        input.spec_at_line_start(),
        input@ == "{{{"@ + render_lang(lang) + render_pairs(pairs) + "\n"@ + body,
        lang_ok(lang, pairs),
        pairs_ok(pairs),
    ensures
        spec_code_block_start(input) == Some(
            (
                (lang, pairs),
                ("{{{"@ + render_lang(lang) + render_pairs(pairs) + "\n"@).len() as int,
            ),
        ),
        0 < ("{{{"@ + render_lang(lang) + render_pairs(pairs) + "\n"@).len() <= input@.len(),
        tail(input@, ("{{{"@ + render_lang(lang) + render_pairs(pairs) + "\n"@).len() as int)
            == body,
        input@[("{{{"@ + render_lang(lang) + render_pairs(pairs) + "\n"@).len() - 1] == '\n',
{
    let fence = "{{{"@;
    let l = render_lang(lang);
    let p = render_pairs(pairs);
    let nl = "\n"@;
    let s0 = input@;
    let after_pairs = nl + body;
    let after_lang = p + after_pairs;
    assert(fence.len() == 3 && fence[0] == '{' && nl.len() == 1 && nl[0] == '\n') by {
        reveal_strlit("{{{");
        reveal_strlit("\n");
    }
    assert(s0 =~= fence + (l + after_lang));
    assert(s0[0] == '{');
    lemma_no_leading_spaces(s0);
    let s1 = tail(s0, 0);
    assert(s1 =~= s0);
    assert(fence =~= s1.subrange(0, fence.len() as int));
    let s2 = tail(s1, fence.len() as int);
    assert(s2 =~= l + after_lang);
    assert(after_pairs[0] == '\n');
    lemma_pairs(pairs, after_pairs);
    lemma_pairs_begin(pairs, after_pairs);
    lemma_lang(lang, pairs, after_lang);
    let used = l.len() as int;
    assert(crate::parsers::blocks::code::used(spec_lang(s2)) == used);
    let s3 = tail(s2, used);
    assert(s3 =~= after_lang);
    let b = leading_spaces(s3);
    let s4 = tail(s3, b);
    let found = spec_pairs(s4);
    assert(found == (pairs, p.len() - b));
    let s5 = tail(s4, found.1);
    assert(s5 =~= after_pairs);
    lemma_no_leading_spaces(s5);
    let s6 = tail(s5, 0);
    assert(s6 =~= s5);
    assert(line_ending_len(s6) == 1);
    let total = (fence + l + p + nl).len() as int;
    assert(total == 3 + l.len() + p.len() + 1);
    assert(tail(s0, total) =~= body);
    assert(s0[total - 1] == '\n');
}

/// Whether a line holds the fence alone, with spaces around it at most.
pub open spec fn fence_matches(s: Seq<char>, fence: Seq<char>) -> bool {
    let s1 = tail(s, leading_spaces(s));
    let s2 = tail(s1, fence.len() as int);
    let s3 = tail(s2, leading_spaces(s2));
    fence.is_prefix_of(s1) && at_end_of_line(s3)
}

/// The spaces at the front of a text that ends in a line feed are the same
/// whatever follows the text.
pub proof fn lemma_spaces_local(t: Seq<char>, rest: Seq<char>)
    requires
        t.len() > 0,
        t.last() == '\n',
    ensures
        leading_spaces(t + rest) == leading_spaces(t),
        leading_spaces(t) < t.len(),
        tail(t + rest, leading_spaces(t)) == tail(t, leading_spaces(t)) + rest,
        tail(t, leading_spaces(t)).len() > 0,
        tail(t, leading_spaces(t)).last() == '\n',
{
    let go = while_space();
    let n = leading_spaces(t);
    crate::parsers::scanning::lemma_scan_len_stops(t, go);
    if n == t.len() {
        assert(go(tail(t, n - 1)));
        assert(tail(t, n - 1)[0] == t[n - 1]);
    }
    assert forall|k: int| 0 <= k < n implies go(#[trigger] tail(t + rest, k)) by {
        assert(go(tail(t, k)));
        assert(tail(t, k)[0] == t[k]);
        assert(tail(t + rest, k)[0] == t[k]);
    }
    assert(tail(t, n)[0] == t[n]);
    assert(tail(t + rest, n)[0] == t[n]);
    lemma_scan_len_unique(t + rest, go, n);
    lemma_tail_concat(t, rest, n);
    assert(tail(t, n).last() == t[t.len() - 1]);
}

/// Whether a line holds the fence alone does not depend on what follows
/// the line.
pub proof fn lemma_fence_local(t: Seq<char>, rest: Seq<char>, fence: Seq<char>)
    requires
        t.len() > 0,
        t.last() == '\n',
        fence.len() > 0,
        free_of(fence, '\n'),
    ensures
        fence_matches(t + rest, fence) == fence_matches(t, fence),
{
    lemma_spaces_local(t, rest);
    let a = leading_spaces(t);
    let s1 = tail(t, a);
    let s1r = tail(t + rest, a);
    assert(s1r == s1 + rest);
    let f = fence.len() as int;
    if fence.is_prefix_of(s1r) && s1.len() < f {
        let j = s1.len() - 1;
        assert(s1r.subrange(0, f)[j] == fence[j]);
        assert(s1r[j] == s1[j]);
        assert(false);
    }
    if s1.len() >= f {
        assert(s1r.subrange(0, f) =~= s1.subrange(0, f));
        if fence.is_prefix_of(s1) {
            // the fence holds no line feed, so the line goes on after it
            if s1.len() == f {
                assert(s1.subrange(0, f)[f - 1] == fence[f - 1]);
                assert(false);
            }
            let s2 = tail(s1, f);
            let s2r = tail(s1r, f);
            assert(s2r =~= s2 + rest);
            assert(s2.last() == s1[s1.len() - 1]);
            lemma_spaces_local(s2, rest);
            let b = leading_spaces(s2);
            let s3 = tail(s2, b);
            let s3r = tail(s2r, b);
            assert(s3r == s3 + rest);
            assert(s3r[0] == s3[0]);
            if s3.len() >= 2 {
                assert(s3r[1] == s3[1]);
            } else {
                assert(s3[0] == '\n');
            }
        }
    }
}

/// Whether a line can be written with a line feed after it and read back:
/// it holds no line feed and does not end in a carriage return, which the
/// line feed would join to a line terminator of two characters.
pub open spec fn line_ok(line: Seq<char>) -> bool {
    free_of(line, '\n') && (line.len() == 0 || line.last() != '\r')
}

/// Whether the lines of a code block can be written out and read back:
/// each can be written as a line, and none holds the closing fence alone.
pub open spec fn lines_ok(lines: Seq<Seq<char>>) -> bool {
    forall|i: int|
        0 <= i < lines.len() ==> line_ok(#[trigger] lines[i]) && !fence_matches(
            lines[i] + "\n"@,
            "}}}"@,
        )
}

/// The lines of a code block that are written out, with the closing fence
/// after them, are read back as they were.
pub proof fn lemma_body(input: Span, lines: Seq<Seq<char>>)
    requires
        input.wf(),
        input.spec_at_line_start(),
        input@ == render_lines(lines) + "}}}"@ + "\n"@,
        lines_ok(lines),
    ensures
        spec_fenced_body(input, "}}}"@) == Some((lines, input@.len() as int)),
    decreases lines.len(),
{
    reveal_strlit("}}}");
    reveal_strlit("\n");
    let fence = "}}}"@;
    let nl = "\n"@;
    let s = input@;
    if lines.len() == 0 {
        assert(s =~= fence + nl);
        assert(s[0] == '}');
        lemma_no_leading_spaces(s);
        let s1 = tail(s, 0);
        assert(s1 =~= s);
        assert(fence =~= s1.subrange(0, 3));
        let s2 = tail(s1, 3);
        assert(s2 =~= nl);
        lemma_no_leading_spaces(s2);
        assert(tail(s2, 0) =~= s2);
        assert(line_ending_len(s2) == 1);
        assert(spec_fence_end(input, fence) == Some(4int));
    } else {
        let line = lines[0];
        let more = lines.drop_first();
        let t = line + nl;
        let rest = render_lines(more) + fence + nl;
        assert(s =~= t + rest);
        assert(free_of(fence, '\n'));
        lemma_fence_local(t, rest, fence);
        assert(!fence_matches(s, fence));
        assert(spec_fence_end(input, fence) is None);
        // the line runs up to its line feed
        let after = nl + rest;
        assert(s =~= line + after);
        let go = while_in_line_before(Seq::empty());
        assert(unbroken(line, after));
        assert forall|k: int| 0 <= k < line.len() implies go(#[trigger] tail(line + after, k)) by {
            lemma_unbroken(line, after, k);
        }
        assert(after[0] == '\n');
        assert(at_end_of_line(after));
        lemma_scan_stops_after(line, after, go);
        let n = line_len(s);
        assert(n == line.len());
        assert(s.subrange(0, n) =~= line);
        assert(tail(s, n) =~= after);
        assert(line_ending_len(tail(s, n)) == 1);
        let next = input.skip(n + 1);
        input.lemma_skip(n + 1);
        assert(next@ =~= rest);
        assert(s[n] == '\n');
        assert(input.src@[input.start + n] == s[n]);
        assert(next.spec_at_line_start());
        assert forall|i: int| 0 <= i < more.len() implies line_ok(#[trigger] more[i])
            && !fence_matches(more[i] + "\n"@, "}}}"@) by {
            assert(more[i] == lines[i + 1]);
        }
        lemma_body(next, more);
        assert(seq![line] + more =~= lines);
        assert(s.len() == n + 1 + rest.len());
    }
}

/// A code block that is written out is read back as it was: with the same
/// language tag, the same lines, and metadata that takes the same keys to
/// the same values, in whatever order the pairs were written. This holds
/// of a block whose parts can be written, as `lang_ok`, `pairs_ok` and
/// `lines_ok` say.
pub proof fn lemma_code_block_round_trip(
    input: Span,
    lang: Option<Seq<char>>,
    pairs: Seq<(Seq<char>, Seq<char>)>,
    lines: Seq<Seq<char>>,
)
    requires
        input.wf(),
        input.spec_at_line_start(),
        input@ == render_code_block(lang, pairs, lines),
        lang_ok(lang, pairs),
        pairs_ok(pairs),
        lines_ok(lines),
    ensures
        spec_code_block(input) == Some(
            (
                CodeBlockView { lang, metadata: properties_map(pairs), lines },
                input@.len() as int,
            ),
        ),
{
    let head = "{{{"@ + render_lang(lang) + render_pairs(pairs) + "\n"@;
    let body = render_lines(lines) + "}}}"@ + "\n"@;
    assert(input@ =~= head + body);
    assert(input@ =~= "{{{"@ + render_lang(lang) + render_pairs(pairs) + "\n"@ + body);
    lemma_start_line(input, lang, pairs, body);
    let n = head.len() as int;
    let next = input.skip(n);
    input.lemma_skip(n);
    assert(next@ =~= body);
    assert(input.src@[input.start + n - 1] == input@[n - 1]);
    assert(next.spec_at_line_start());
    lemma_body(next, lines);
}

/// The text of a list of pairs with one more pair.
pub proof fn lemma_render_pairs_push(pairs: Seq<(Seq<char>, Seq<char>)>, p: (Seq<char>, Seq<char>))
    ensures
        render_pairs(pairs.push(p)) == render_pairs(pairs) + " "@ + p.0 + "=\""@ + p.1 + "\""@,
    decreases pairs.len(),
{
    let all = pairs.push(p);
    if pairs.len() == 0 {
        assert(all.drop_first() =~= Seq::empty());
        assert(all[0] == p);
        assert(render_pairs(all.drop_first()) =~= Seq::<char>::empty());
        assert(render_pairs(pairs) =~= Seq::<char>::empty());
        assert(render_pairs(all) =~= " "@ + p.0 + "=\""@ + p.1 + "\""@);
        assert(render_pairs(pairs) + " "@ + p.0 + "=\""@ + p.1 + "\""@ =~= " "@ + p.0 + "=\""@
            + p.1 + "\""@);
    } else {
        assert(all.drop_first() =~= pairs.drop_first().push(p));
        lemma_render_pairs_push(pairs.drop_first(), p);
        assert(all[0] == pairs[0]);
        assert(render_pairs(all) =~= render_pairs(pairs) + " "@ + p.0 + "=\""@ + p.1 + "\""@);
    }
}

/// The text of a list of lines with one more line.
pub proof fn lemma_render_lines_push(lines: Seq<Seq<char>>, line: Seq<char>)
    ensures
        render_lines(lines.push(line)) == render_lines(lines) + line + "\n"@,
    decreases lines.len(),
{
    let all = lines.push(line);
    if lines.len() == 0 {
        assert(all.drop_first() =~= Seq::empty());
        assert(all[0] == line);
        assert(render_lines(all.drop_first()) =~= Seq::<char>::empty());
        assert(render_lines(lines) =~= Seq::<char>::empty());
        assert(render_lines(all) =~= line + "\n"@);
        assert(render_lines(lines) + line + "\n"@ =~= line + "\n"@);
    } else {
        assert(all.drop_first() =~= lines.drop_first().push(line));
        lemma_render_lines_push(lines.drop_first(), line);
        assert(all[0] == lines[0]);
        assert(render_lines(all) =~= render_lines(lines) + line + "\n"@);
    }
}

impl<'a> CodeBlock<'a> {
    /// The block as text: the opening fence with the language tag and the
    /// pairs of metadata, in the order in which their keys first came, the
    /// lines, and the closing fence.
    pub fn to_text(&self) -> (r: String)
        ensures
            r@ == render_code_block(self@.lang, self.metadata.spec_entries(), self@.lines),
            properties_map(self.metadata.spec_entries()) == self@.metadata,
    {
        proof {
            self.metadata.lemma_entries();
        }
        let ghost lang = self@.lang;
        let ghost pairs = self.metadata.spec_entries();
        let ghost lines = self@.lines;
        let mut out = "{{{".to_owned();
        match &self.lang {
            Some(l) => {
                out.append(text_str(l));
            },
            None => {
                proof {
                    assert(out@ + Seq::<char>::empty() =~= out@);
                }
            },
        }
        let ghost head = out@;
        let mut i: usize = 0;
        proof {
            assert(pairs.take(0) =~= Seq::empty());
            assert(head + render_pairs(pairs.take(0)) =~= head);
        }
        while i < self.metadata.len()
            invariant
                i <= pairs.len(),
                pairs == self.metadata.spec_entries(),
                out@ == head + render_pairs(pairs.take(i as int)),
            decreases pairs.len() - i,
        {
            let (key, value) = self.metadata.entry(i);
            let ghost before = out@;
            out.append(" ");
            out.append(key);
            out.append("=\"");
            out.append(value);
            out.append("\"");
            proof {
                let p = pairs[i as int];
                assert(pairs.take(i + 1) =~= pairs.take(i as int).push(p));
                lemma_render_pairs_push(pairs.take(i as int), p);
                assert(out@ =~= head + (render_pairs(pairs.take(i as int)) + " "@ + p.0 + "=\""@
                    + p.1 + "\""@));
            }
            i += 1;
        }
        out.append("\n");
        let ghost top = out@;
        let mut j: usize = 0;
        proof {
            assert(pairs.take(pairs.len() as int) =~= pairs);
            assert(lines.take(0) =~= Seq::empty());
            assert(top + render_lines(lines.take(0)) =~= top);
        }
        while j < self.lines.len()
            invariant
                j <= lines.len(),
                lines == texts_view(self.lines@),
                out@ == top + render_lines(lines.take(j as int)),
            decreases lines.len() - j,
        {
            out.append(text_str(&self.lines[j]));
            out.append("\n");
            proof {
                let line = lines[j as int];
                assert(lines.take(j + 1) =~= lines.take(j as int).push(line));
                lemma_render_lines_push(lines.take(j as int), line);
                assert(out@ =~= top + (render_lines(lines.take(j as int)) + line + "\n"@));
            }
            j += 1;
        }
        out.append("}}}");
        out.append("\n");
        proof {
            assert(lines.take(lines.len() as int) =~= lines);
            assert(out@ =~= render_code_block(lang, pairs, lines));
        }
        out
    }
}

/// What a scan along a line passes holds no line feed, and none of the
/// marks of one character that the scan stops at.
pub proof fn lemma_passed_is_free(s: Seq<char>, tags: Seq<Seq<char>>, i: int, c: char)
    requires
        0 <= i < tags.len(),
        tags[i].len() == 1,
        tags[i][0] == c,
    ensures
        0 <= line_until_len(s, tags) <= s.len(),
        free_of(s.subrange(0, line_until_len(s, tags)), '\n'),
        free_of(s.subrange(0, line_until_len(s, tags)), c),
{
    let go = while_in_line_before(tags);
    crate::parsers::scanning::lemma_scan_len_stops(s, go);
    let n = line_until_len(s, tags);
    let passed = s.subrange(0, n);
    assert forall|k: int| 0 <= k < passed.len() implies #[trigger] passed[k] != '\n' && passed[k]
        != c by {
        let t = tail(s, k);
        assert(go(t));
        assert(t[0] == s[k]);
        if s[k] == c {
            assert(tags[i] =~= t.subrange(0, 1));
            assert(tags[i].is_prefix_of(t));
        }
    }
}

/// A pair that was read can be written, where it was read from a text that
/// does not begin with a space.
pub proof fn lemma_read_pair_ok(s: Seq<char>)
    requires
        spec_key_value(s) is Some,
        s.len() == 0 || !is_space(s[0]),
    ensures
        pair_ok(spec_key_value(s).unwrap().0),
{
    reveal_strlit("=");
    reveal_strlit("\"");
    assert(key_stops() =~= seq!["="@]);
    assert(value_stops() =~= seq!["\""@]);
    lemma_passed_is_free(s, key_stops(), 0, '=');
    let k = line_until_len(s, key_stops());
    let u = tail(s, k);
    let w = tail(u, "=\""@.len() as int);
    lemma_passed_is_free(w, value_stops(), 0, '"');
    let key = s.subrange(0, k);
    assert(key[0] == s[0]);
}

/// The text after the spaces at the front of a text does not begin with a
/// space.
pub proof fn lemma_after_spaces(s: Seq<char>)
    ensures
        0 <= leading_spaces(s) <= s.len(),
        tail(s, leading_spaces(s)).len() == 0 || !is_space(tail(s, leading_spaces(s))[0]),
{
    crate::parsers::scanning::lemma_scan_len_stops(s, while_space());
}

/// The pairs that were read after a first one can be written.
pub proof fn lemma_read_more_pairs_ok(s: Seq<char>)
    ensures
        pairs_ok(spec_more_pairs(s).0),
    decreases s.len(),
{
    let sp = leading_spaces(s);
    if 0 < sp <= s.len() {
        let t = tail(s, sp);
        lemma_after_spaces(s);
        match spec_key_value(t) {
            Some((p, n)) => {
                if 0 < n <= t.len() {
                    lemma_read_pair_ok(t);
                    lemma_read_more_pairs_ok(tail(t, n));
                    let more = spec_more_pairs(tail(t, n)).0;
                    let all = seq![p] + more;
                    assert forall|i: int| 0 <= i < all.len() implies pair_ok(#[trigger] all[i]) by {
                        if i > 0 {
                            assert(all[i] == more[i - 1]);
                        }
                    }
                }
            },
            None => {},
        }
    }
}

/// The pairs that were read can be written, where they were read from a
/// text that does not begin with a space.
pub proof fn lemma_read_pairs_ok(s: Seq<char>)
    requires
        s.len() == 0 || !is_space(s[0]),
    ensures
        pairs_ok(spec_pairs(s).0),
{
    match spec_key_value(s) {
        Some((p, n)) => {
            lemma_read_pair_ok(s);
            lemma_read_more_pairs_ok(tail(s, n));
            let more = spec_more_pairs(tail(s, n)).0;
            let all = seq![p] + more;
            assert forall|i: int| 0 <= i < all.len() implies pair_ok(#[trigger] all[i]) by {
                if i > 0 {
                    assert(all[i] == more[i - 1]);
                }
            }
        },
        None => {},
    }
}

/// A language tag that was read is not empty and holds no space, no `=`
/// and no line feed.
pub proof fn lemma_read_lang_ok(s: Seq<char>)
    requires
        spec_lang(s) is Some,
    ensures
        spec_lang(s).unwrap().0.len() > 0,
        free_of(spec_lang(s).unwrap().0, ' '),
        free_of(spec_lang(s).unwrap().0, '='),
        free_of(spec_lang(s).unwrap().0, '\n'),
{
    reveal_strlit(" ");
    assert(lang_stops() =~= seq![" "@]);
    lemma_passed_is_free(s, lang_stops(), 0, ' ');
    let word = spec_lang(s).unwrap().0;
    crate::parsers::scanning::lemma_scan_len_stops(word, while_not_char('='));
    assert forall|k: int| 0 <= k < word.len() implies #[trigger] word[k] != '=' by {
        assert(while_not_char('=')(tail(word, k)));
        assert(tail(word, k)[0] == word[k]);
    }
}

/// The spaces at the front of a text are the same whatever follows the
/// text, where what follows begins with no space.
pub proof fn lemma_spaces_before(u: Seq<char>, x: Seq<char>)
    requires
        x.len() > 0,
        !is_space(x[0]),
    ensures
        0 <= leading_spaces(u) <= u.len(),
        leading_spaces(u + x) == leading_spaces(u),
        tail(u + x, leading_spaces(u)) == tail(u, leading_spaces(u)) + x,
{
    let go = while_space();
    let n = leading_spaces(u);
    crate::parsers::scanning::lemma_scan_len_stops(u, go);
    assert forall|k: int| 0 <= k < n implies go(#[trigger] tail(u + x, k)) by {
        assert(go(tail(u, k)));
        assert(tail(u, k)[0] == u[k]);
        assert(tail(u + x, k)[0] == u[k]);
    }
    if n < u.len() {
        assert(tail(u, n)[0] == u[n]);
        assert(tail(u + x, n)[0] == u[n]);
    } else {
        assert(tail(u + x, n)[0] == x[0]);
    }
    lemma_scan_len_unique(u + x, go, n);
    lemma_tail_concat(u, x, n);
}

/// A line that holds the fence alone when a line feed ends it does so
/// whatever line terminator ends it.
pub proof fn lemma_fence_any_end(line: Seq<char>, y: Seq<char>, fence: Seq<char>)
    requires
        line_ok(line),
        fence.len() > 0,
        free_of(fence, '\n'),
        line_ending_len(y) > 0,
        fence_matches(line + "\n"@, fence),
    ensures
        fence_matches(line + y, fence),
{
    reveal_strlit("\n");
    let x = "\n"@;
    let f = fence.len() as int;
    lemma_spaces_before(line, x);
    lemma_spaces_before(line, y);
    let a = leading_spaces(line);
    let u1 = tail(line, a);
    let s1 = u1 + x;
    let s1y = u1 + y;
    if u1.len() < f {
        assert(s1.subrange(0, f)[u1.len() as int] == fence[u1.len() as int]);
        assert(s1[u1.len() as int] == '\n');
        assert(false);
    }
    assert(s1.subrange(0, f) =~= u1.subrange(0, f));
    assert(s1y.subrange(0, f) =~= u1.subrange(0, f));
    let u2 = tail(u1, f);
    assert(tail(s1, f) =~= u2 + x);
    assert(tail(s1y, f) =~= u2 + y);
    lemma_spaces_before(u2, x);
    lemma_spaces_before(u2, y);
    let b = leading_spaces(u2);
    let u3 = tail(u2, b);
    let s3 = u3 + x;
    if u3.len() > 0 {
        assert(u3[0] == line[a + f + b]);
        assert(s3[0] == u3[0]);
        if u3.len() >= 2 {
            assert(u3[1] == line[a + f + b + 1]);
            assert(s3[1] == u3[1]);
        } else {
            assert(u3[0] == line.last());
        }
        assert(false);
    }
    assert(u3 + y =~= y);
}

/// Whether no line ends in a carriage return.
pub open spec fn no_line_ends_in_cr(lines: Seq<Seq<char>>) -> bool {
    forall|i: int| 0 <= i < lines.len() ==> (#[trigger] lines[i]).len() == 0 || lines[i].last() != '\r'
}

/// The lines of a block that were read can be written, where none of them
/// ends in a carriage return.
pub proof fn lemma_read_lines_ok(input: Span)
    requires
        input.wf(),
        spec_fenced_body(input, "}}}"@) is Some,
        no_line_ends_in_cr(spec_fenced_body(input, "}}}"@).unwrap().0),
    ensures
        lines_ok(spec_fenced_body(input, "}}}"@).unwrap().0),
    decreases input.spec_len(),
{
    reveal_strlit("}}}");
    reveal_strlit("\n");
    let fence = "}}}"@;
    let s = input@;
    if spec_fence_end(input, fence) is None {
        let (line, n) = spec_any_line(input).unwrap();
        let next = input.skip(n);
        let len = line_len(s);
        crate::parsers::scanning::lemma_line_len_stops(s);
        input.lemma_skip(n);
        let more = spec_fenced_body(next, fence).unwrap().0;
        let all = seq![line] + more;
        assert(all[0] == line);
        assert forall|i: int| 0 <= i < more.len() implies (#[trigger] more[i]).len() == 0
            || more[i].last() != '\r' by {
            assert(more[i] == all[i + 1]);
        }
        lemma_read_lines_ok(next);
        assert(free_of(line, '\n'));
        let y = tail(s, len);
        // a line terminator follows the line: the block goes on after it
        if len == s.len() {
            assert(y.len() == 0);
            assert(n == s.len());
            assert(next@.len() == 0);
            assert(tail(next@, 0) =~= next@);
            lemma_scan_len_unique(next@, while_space(), 0);
            assert(!fence.is_prefix_of(tail(next@, leading_spaces(next@))));
            assert(spec_fence_end(next, fence) is None);
            assert(s[s.len() - 1] != '\n') by {
                assert(line[s.len() - 1] == s[s.len() - 1]);
            }
            assert(input.src@[input.start + s.len() - 1] == s[s.len() - 1]);
            assert(!next.spec_at_line_start());
            assert(false);
        }
        assert(line_ending_len(y) > 0);
        assert(s =~= line + y);
        assert(free_of(fence, '\n'));
        if fence_matches(line + "\n"@, fence) {
            lemma_fence_any_end(line, y, fence);
            assert(spec_fence_end(input, fence) is Some);
        }
        assert forall|i: int| 0 <= i < all.len() implies line_ok(#[trigger] all[i])
            && !fence_matches(all[i] + "\n"@, "}}}"@) by {
            if i > 0 {
                assert(all[i] == more[i - 1]);
            }
        }
    }
}

/// A code block that was read from a text and is written out is read back
/// as it was. The pairs of its metadata may be written in any order, each
/// key once. Two kinds of block are left out, since writing puts a line
/// feed where a carriage return would join it to a line terminator of two
/// characters: a block with a line that ends in a carriage return, and a
/// block whose language tag ends in a carriage return and that has no
/// metadata.
pub proof fn lemma_read_code_block_round_trip(
    input: Span,
    written: Seq<(Seq<char>, Seq<char>)>,
    again: Span,
)
    requires
        input.wf(),
        spec_code_block(input) is Some,
        pairs_ok(written),
        properties_map(written) == spec_code_block(input).unwrap().0.metadata,
        spec_code_block(input).unwrap().0.lang matches Some(l) ==> l.last() != '\r' || written.len()
            > 0,
        no_line_ends_in_cr(spec_code_block(input).unwrap().0.lines),
        again.wf(),
        again.spec_at_line_start(),
        again@ == render_code_block(
            spec_code_block(input).unwrap().0.lang,
            written,
            spec_code_block(input).unwrap().0.lines,
        ),
    ensures
        spec_code_block(again) == Some((spec_code_block(input).unwrap().0, again@.len() as int)),
{
    let view = spec_code_block(input).unwrap().0;
    let ((lang, pairs), n) = spec_code_block_start(input).unwrap();
    let s0 = input@;
    let s1 = tail(s0, leading_spaces(s0));
    let s2 = tail(s1, "{{{"@.len() as int);
    if lang is Some {
        lemma_read_lang_ok(s2);
    }
    let next = input.skip(n);
    lemma_start_consumes(input);
    input.lemma_skip(n);
    lemma_read_lines_ok(next);
    lemma_code_block_round_trip(again, view.lang, written, view.lines);
}

/// The pairs of an opening line that was read can be written, and so can
/// each selection of them.
pub proof fn lemma_read_start_ok(input: Span, entries: Seq<(Seq<char>, Seq<char>)>)
    requires
        input.wf(),
        spec_code_block_start(input) is Some,
        drawn_from(entries, spec_code_block_start(input).unwrap().0.1),
    ensures
        pairs_ok(entries),
{
    let s0 = input@;
    let s1 = tail(s0, leading_spaces(s0));
    let s2 = tail(s1, "{{{"@.len() as int);
    let s3 = tail(s2, crate::parsers::blocks::code::used(spec_lang(s2)));
    lemma_after_spaces(s3);
    let s4 = tail(s3, leading_spaces(s3));
    lemma_read_pairs_ok(s4);
    let pairs = spec_pairs(s4).0;
    assert forall|i: int| 0 <= i < entries.len() implies pair_ok(#[trigger] entries[i]) by {
        assert(pairs.contains(entries[i]));
    }
}

/// The opening line of a code block lies within the input.
pub proof fn lemma_start_consumes(input: Span)
    requires
        input.wf(),
        spec_code_block_start(input) is Some,
    ensures
        0 <= spec_code_block_start(input).unwrap().1 <= input.spec_len(),
{
    let s0 = input@;
    let a = leading_spaces(s0);
    lemma_after_spaces(s0);
    let s1 = tail(s0, a);
    let s2 = tail(s1, "{{{"@.len() as int);
    let lang = spec_lang(s2);
    crate::parsers::scanning::lemma_line_until_stops(s2, lang_stops());
    let u = crate::parsers::blocks::code::used(lang);
    let s3 = tail(s2, u);
    lemma_after_spaces(s3);
    let b = leading_spaces(s3);
    let s4 = tail(s3, b);
    lemma_pairs_within(s4);
    let pairs = spec_pairs(s4);
    let s5 = tail(s4, pairs.1);
    lemma_after_spaces(s5);
    let c = leading_spaces(s5);
    let s6 = tail(s5, c);
}

/// A pair lies within the text that it is read from.
pub proof fn lemma_pair_within(s: Seq<char>)
    requires
        spec_key_value(s) is Some,
    ensures
        0 < spec_key_value(s).unwrap().1 <= s.len(),
{
    crate::parsers::scanning::lemma_line_until_stops(s, key_stops());
    let k = line_until_len(s, key_stops());
    let u = tail(s, k);
    let w = tail(u, "=\""@.len() as int);
    crate::parsers::scanning::lemma_line_until_stops(w, value_stops());
}

/// Pairs after a first one lie within the text that they are read from.
pub proof fn lemma_more_pairs_within(s: Seq<char>)
    ensures
        0 <= spec_more_pairs(s).1 <= s.len(),
    decreases s.len(),
{
    let sp = leading_spaces(s);
    if 0 < sp <= s.len() {
        let t = tail(s, sp);
        match spec_key_value(t) {
            Some((p, n)) => {
                if 0 < n <= t.len() {
                    lemma_more_pairs_within(tail(t, n));
                }
            },
            None => {},
        }
    }
}

/// Pairs lie within the text that they are read from.
pub proof fn lemma_pairs_within(s: Seq<char>)
    ensures
        0 <= spec_pairs(s).1 <= s.len(),
{
    match spec_key_value(s) {
        Some((p, n)) => {
            lemma_pair_within(s);
            lemma_more_pairs_within(tail(s, n));
        },
        None => {},
    }
}

} // verus!
