//! Whole pages.

use crate::elements::blocks::{BlockElement, BlockElementView};
use crate::elements::comments::{Comment, CommentView};
use crate::elements::page::{element_nested, ElementView, Page, PageView};

use crate::located::{located_views, Located};
use crate::parsers::blocks::{block_component, spec_block_component};
use crate::parsers::comments::{comment_bare, spec_comment};
use crate::parsers::nesting::lemma_blocks_nested;
use crate::parsers::utils::IResult;
use crate::span::Span;
use vstd::prelude::*;

verus! {

/// The block elements at the front of `input`, one after the other, and
/// the number of characters that they cover.
pub open spec fn spec_blocks(input: Span) -> (Seq<Located<BlockElementView>>, int)
    decreases input.spec_len(),
{
    match spec_block_component(input) {
        Some((b, n)) => if 0 < n <= input.spec_len() {
            let more = spec_blocks(input.skip(n));
            (seq![b] + more.0, n + more.1)
        } else {
            (Seq::empty(), 0)
        },
        None => (Seq::empty(), 0),
    }
}

/// The comments in `input`, in the order of their places. A comment is
/// looked for at each character that no earlier comment covers.
pub open spec fn spec_comments(input: Span) -> Seq<Located<CommentView>>
    decreases input.spec_len(),
{
    if input.spec_len() <= 0 {
        Seq::empty()
    } else {
        match spec_comment(input@) {
            Some((c, n)) => if 0 < n <= input.spec_len() {
                seq![Located { value: c, region: input.region_of(n) }] + spec_comments(
                    input.skip(n),
                )
            } else {
                spec_comments(input.skip(1))
            },
            None => spec_comments(input.skip(1)),
        }
    }
}

/// What `page` yields, before it is located.
pub open spec fn spec_page(input: Span) -> (PageView, int) {
    (
        PageView { elements: spec_blocks(input).0, comments: spec_comments(input) },
        spec_blocks(input).1,
    )
}

/// The text that the regions of `blocks` cover in `src`, region after
/// region.
pub open spec fn covered_text<V>(src: Seq<char>, blocks: Seq<Located<V>>) -> Seq<char>
    decreases blocks.len(),
{
    if blocks.len() == 0 {
        Seq::empty()
    } else {
        src.subrange(blocks[0].region.offset as int, blocks[0].region.spec_end()) + covered_text(
            src,
            blocks.drop_first(),
        )
    }
}

/// The regions of the block elements of a page, put one after the other,
/// give back the text that the elements were parsed from, with nothing
/// left out and nothing twice.
pub proof fn lemma_blocks_cover(input: Span)
    requires
        input.wf(),
    ensures
        0 <= spec_blocks(input).1 <= input.spec_len(),
        covered_text(input.src@, spec_blocks(input).0) == input@.subrange(
            0,
            spec_blocks(input).1,
        ),
    decreases input.spec_len(),
{
    match spec_block_component(input) {
        Some((b, n)) => {
            if 0 < n <= input.spec_len() {
                let next = input.skip(n);
                input.lemma_skip(n);
                lemma_blocks_cover(next);
                let more = spec_blocks(next);
                let all = seq![b] + more.0;
                assert(all.drop_first() =~= more.0);
                assert(all[0] == b);
                crate::region::lemma_region_between(
                    input.src@,
                    input.start as int,
                    input.start + n,
                );
                assert(input.src@.subrange(input.start as int, input.start + n)
                    =~= input@.subrange(0, n));
                assert(next@.subrange(0, more.1) =~= input@.subrange(n, n + more.1));
                assert(input@.subrange(0, n) + input@.subrange(n, n + more.1) =~= input@.subrange(
                    0,
                    n + more.1,
                ));
            } else {
                assert(input@.subrange(0, 0) =~= Seq::<char>::empty());
            }
        },
        None => {
            assert(input@.subrange(0, 0) =~= Seq::<char>::empty());
        },
    }
}

/// Parses the block elements of the input, one after the other, up to the
/// first place where none is found.
pub fn blocks<'a>(input: Span<'a>) -> (r: (Span<'a>, Vec<Located<BlockElement<'static>>>))
    requires
        input.wf(),
    ensures
        r.0.wf(),
        input.leads_to(r.0),
        r.0.start - input.start == spec_blocks(input).1,
        located_views(r.1@) == spec_blocks(input).0,
        input.at_boundary() ==> r.0@.len() == 0,
{
    let mut out: Vec<Located<BlockElement<'static>>> = Vec::new();
    let mut cur = input;
    let mut done = false;
    proof {
        input.lemma_skip(0);
        assert(located_views(out@) =~= Seq::empty());
        assert(Seq::<Located<BlockElementView>>::empty() + spec_blocks(input).0 =~= spec_blocks(
            input,
        ).0);
    }
    while !done
        invariant
            input.wf(),
            cur.wf(),
            input.leads_to(cur),
            spec_blocks(input).0 == located_views(out@) + spec_blocks(cur).0,
            spec_blocks(input).1 == (cur.start - input.start) + spec_blocks(cur).1,
            done ==> spec_blocks(cur).1 == 0 && spec_blocks(cur).0.len() == 0,
            input.at_boundary() ==> cur.at_boundary(),
            done && input.at_boundary() ==> cur@.len() == 0,
        decreases cur.spec_len() + (if done { 0int } else { 1int }),
    {
        if cur.is_empty() {
            done = true;
        } else {
            match block_component(cur) {
                Ok((next, b)) => {
                    proof {
                        input.lemma_leads_to_trans(cur, next);
                        let before = located_views(out@);
                        let more = spec_blocks(next);
                        assert(before + (seq![b@] + more.0) =~= before.push(b@) + more.0);
                    }
                    let ghost before = out@;
                    let ghost bv = b@;
                    out.push(b);
                    proof {
                        assert(located_views(out@) =~= located_views(before).push(bv));
                    }
                    cur = next;
                },
                Err(_) => {
                    done = true;
                },
            }
        }
    }
    proof {
        assert(located_views(out@) + Seq::<Located<BlockElementView>>::empty() =~= located_views(
            out@,
        ));
    }
    (cur, out)
}

/// Finds the comments in the input.
pub fn comments<'a>(input: Span<'a>) -> (r: Vec<Located<Comment<'static>>>)
    requires
        input.wf(),
    ensures
        located_views(r@) == spec_comments(input),
{
    let mut out: Vec<Located<Comment<'static>>> = Vec::new();
    let mut cur = input;
    proof {
        assert(located_views(out@) =~= Seq::empty());
        assert(Seq::<Located<CommentView>>::empty() + spec_comments(input) =~= spec_comments(
            input,
        ));
    }
    while !cur.is_empty()
        invariant
            cur.wf(),
            spec_comments(input) == located_views(out@) + spec_comments(cur),
        decreases cur.spec_len(),
    {
        match comment_bare(cur) {
            Ok((next, c)) => {
                let region = cur.region_to(&next);
                let item = Located::new(c, region);
                proof {
                    let before = located_views(out@);
                    let more = spec_comments(next);
                    assert(before + (seq![item@] + more) =~= before.push(item@) + more);
                }
                let ghost before = out@;
                let ghost iv = item@;
                out.push(item);
                proof {
                    assert(located_views(out@) =~= located_views(before).push(iv));
                }
                cur = next;
            },
            Err(_) => {
                cur = cur.advance(1);
            },
        }
    }
    proof {
        assert(located_views(out@) + Seq::<Located<CommentView>>::empty() =~= located_views(out@));
    }
    out
}

/// Parses a page: its block elements from the first line to the last, and
/// the comments in it. A page that begins at the start of a line is
/// consumed to its end, whatever it holds: a line that is nothing else is
/// kept as it stands. The regions of the block elements, one after the
/// other, cover what was consumed, and what stands inside a block element
/// is nested within it.
pub fn page<'a>(input: Span<'a>) -> (r: IResult<'a, Located<Page<'static>>>)
    requires
        input.wf(),
    ensures
        r matches Ok((rest, p)) && {
            &&& p.value@ == spec_page(input).0
            &&& p.region == input.region_of(spec_page(input).1)
            &&& rest.start - input.start == spec_page(input).1
            &&& input.leads_to(rest)
            &&& rest.wf()
            &&& input.at_boundary() ==> rest@.len() == 0
            &&& covered_text(input.src@, p.value@.elements) == input@.subrange(
                0,
                rest.start - input.start,
            )
            &&& forall|k: int|
                0 <= k < p.value@.elements.len() ==> element_nested(
                    Located {
                        value: ElementView::Block((#[trigger] p.value@.elements[k]).value),
                        region: p.value@.elements[k].region,
                    },
                )
        },
{
    let found = comments(input);
    let (rest, elements) = blocks(input);
    let region = input.region_to(&rest);
    proof {
        lemma_blocks_cover(input);
        lemma_blocks_nested(input);
    }
    Ok((rest, Located::new(Page::new(elements, found), region)))
}

} // verus!
