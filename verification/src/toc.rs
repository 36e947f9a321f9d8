//! The table-of-contents synthesizer: it rebuilds a hierarchical outline
//! from a flat, ordered sequence of heading records. A heading nests under
//! the most recent heading of strictly smaller level; across level gaps it
//! nests directly under that heading, and no synthetic intermediate node is
//! ever fabricated.
use vstd::prelude::*;

use crate::document::DocumentBuffer;
use crate::document::Marker;
use crate::document::MarkerType;
use crate::document::TocItem;

verus! {

/// One flat heading record: its text, its level (1 to 6) and its absolute
/// display offset.
#[derive(Debug, Clone)]
pub struct HeadingInfo {
    pub text: String,
    pub level: i32,
    pub offset: usize,
}

/// The model of a heading record.
pub struct HeadingRec {
    pub text: Seq<char>,
    pub level: int,
    pub offset: int,
}

pub open spec fn heading_rec_of(h: HeadingInfo) -> HeadingRec {
    HeadingRec { text: h.text@, level: h.level as int, offset: h.offset as int }
}

pub open spec fn heading_recs_of(hs: Seq<HeadingInfo>) -> Seq<HeadingRec> {
    hs.map(|_i: int, h: HeadingInfo| heading_rec_of(h))
}

/// The first index at or after `i` whose heading level does not exceed
/// `base`: there the run of headings nested under the heading of level
/// `base` ends. The length of `hs` if there is none.
pub open spec fn nested_run_end(hs: Seq<HeadingRec>, base: int, i: int) -> int
    decreases hs.len() - i,
{
    if i < 0 || i >= hs.len() {
        hs.len() as int
    } else if hs[i].level <= base {
        i
    } else {
        nested_run_end(hs, base, i + 1)
    }
}

pub proof fn lemma_nested_run_end_bounds(hs: Seq<HeadingRec>, base: int, i: int)
    requires
        0 <= i <= hs.len(),
    ensures
        i <= nested_run_end(hs, base, i) <= hs.len(),
    decreases hs.len() - i,
{
    if i < hs.len() && hs[i].level > base {
        lemma_nested_run_end_bounds(hs, base, i + 1);
    }
}

/// `forest` is exactly the outline synthesized from the ordered heading
/// records `hs`: the first heading becomes the first root, the following
/// headings of greater level become its descendants, and the rest of the
/// records build the remaining roots.
pub open spec fn is_toc_forest_of(forest: Seq<TocItem>, hs: Seq<HeadingRec>) -> bool
    decreases hs.len(),
    via lemma_is_toc_forest_of_decreases
{
    if hs.len() == 0 {
        forest.len() == 0
    } else {
        let j = nested_run_end(hs, hs[0].level, 1);
        forest.len() >= 1 && forest[0].name@ == hs[0].text && forest[0].reference@ == Seq::<
            char,
        >::empty() && forest[0].offset == hs[0].offset && is_toc_forest_of(
            forest[0].children@,
            hs.subrange(1, j),
        ) && is_toc_forest_of(
            forest.subrange(1, forest.len() as int),
            hs.subrange(j, hs.len() as int),
        )
    }
}

#[via_fn]
proof fn lemma_is_toc_forest_of_decreases(forest: Seq<TocItem>, hs: Seq<HeadingRec>) {
    if hs.len() > 0 {
        lemma_nested_run_end_bounds(hs, hs[0].level, 1);
    }
}

/// Builds the outline of the heading records `headings[start..end]`.
fn build_forest(headings: &[HeadingInfo], start: usize, end: usize) -> (r: Vec<TocItem>)
    requires
        start <= end <= headings@.len(),
    ensures
        is_toc_forest_of(r@, heading_recs_of(headings@).subrange(start as int, end as int)),
    decreases end - start,
{
    let ghost full = heading_recs_of(headings@);
    let ghost sub = full.subrange(start as int, end as int);
    if start >= end {
        let r = Vec::new();
        proof {
            assert(sub.len() == 0);
        }
        return r;
    }
    let base = headings[start].level;
    let mut j: usize = start + 1;
    while j < end && headings[j].level > base
        invariant
            start + 1 <= j <= end <= headings@.len(),
            base == headings@[start as int].level,
            full == heading_recs_of(headings@),
            sub == full.subrange(start as int, end as int),
            nested_run_end(sub, base as int, 1) == nested_run_end(sub, base as int, j - start),
        decreases end - j,
    {
        proof {
            assert(sub[j - start].level == headings@[j as int].level);
        }
        j = j + 1;
    }
    proof {
        lemma_nested_run_end_bounds(sub, base as int, 1);
        if j < end {
            assert(sub[j - start].level <= base);
        }
        assert(nested_run_end(sub, base as int, 1) == j - start);
    }
    let children = build_forest(headings, start + 1, j);
    let mut node = TocItem::new(headings[start].text.clone(), String::new(), headings[start].offset);
    node.children = children;
    let mut rest = build_forest(headings, j, end);
    let ghost rest0 = rest@;
    let mut result: Vec<TocItem> = Vec::new();
    result.push(node);
    result.append(&mut rest);
    proof {
        assert(sub.subrange(1, j - start) =~= full.subrange(start + 1, j as int));
        assert(sub.subrange(j - start, sub.len() as int) =~= full.subrange(j as int, end as int));
        assert(result@.subrange(1, result@.len() as int) =~= rest0);
        assert(result@[0].name@ == sub[0].text);
    }
    result
}

/// Synthesizes the outline of an ordered sequence of heading records.
pub fn build_toc_from_headings(headings: &[HeadingInfo]) -> (r: Vec<TocItem>)
    ensures
        is_toc_forest_of(r@, heading_recs_of(headings@)),
{
    let n = headings.len();
    let r = build_forest(headings, 0, n);
    proof {
        assert(heading_recs_of(headings@).subrange(0, n as int) =~= heading_recs_of(headings@));
    }
    r
}

/// The heading level a marker type denotes, or zero for a marker that is no
/// heading.
pub open spec fn heading_level_of(t: MarkerType) -> int {
    match t {
        MarkerType::Heading1 => 1,
        MarkerType::Heading2 => 2,
        MarkerType::Heading3 => 3,
        MarkerType::Heading4 => 4,
        MarkerType::Heading5 => 5,
        MarkerType::Heading6 => 6,
        _ => 0,
    }
}

/// The heading records that the buffer's heading markers carry, in marker
/// order.
pub open spec fn headings_of_markers(markers: Seq<Marker>) -> Seq<HeadingRec>
    decreases markers.len(),
{
    if markers.len() == 0 {
        Seq::empty()
    } else {
        let m = markers.last();
        let rest = headings_of_markers(markers.drop_last());
        if heading_level_of(m.marker_type) > 0 {
            rest.push(
                HeadingRec {
                    text: m.text@,
                    level: heading_level_of(m.marker_type),
                    offset: m.position as int,
                },
            )
        } else {
            rest
        }
    }
}

/// Synthesizes the outline of the heading markers a buffer holds.
pub fn build_toc_from_buffer(buffer: &DocumentBuffer) -> (r: Vec<TocItem>)
    ensures
        is_toc_forest_of(r@, headings_of_markers(buffer.markers@)),
{
    let mut headings: Vec<HeadingInfo> = Vec::new();
    let n = buffer.markers.len();
    let mut i: usize = 0;
    while i < n
        invariant
            n == buffer.markers@.len(),
            i <= n,
            heading_recs_of(headings@) == headings_of_markers(buffer.markers@.subrange(0, i as int)),
        decreases n - i,
    {
        let m = &buffer.markers[i];
        let level: i32 = match m.marker_type {
            MarkerType::Heading1 => 1,
            MarkerType::Heading2 => 2,
            MarkerType::Heading3 => 3,
            MarkerType::Heading4 => 4,
            MarkerType::Heading5 => 5,
            MarkerType::Heading6 => 6,
            _ => 0,
        };
        proof {
            let pre = buffer.markers@.subrange(0, i + 1);
            assert(pre.drop_last() =~= buffer.markers@.subrange(0, i as int));
            assert(pre.last() == buffer.markers@[i as int]);
        }
        if level > 0 {
            let ghost before = heading_recs_of(headings@);
            headings.push(HeadingInfo { text: m.text.clone(), level, offset: m.position });
            proof {
                assert(heading_recs_of(headings@) =~= before.push(
                    HeadingRec {
                        text: m.text@,
                        level: level as int,
                        offset: m.position as int,
                    },
                ));
            }
        }
        i = i + 1;
    }
    proof {
        assert(buffer.markers@.subrange(0, n as int) =~= buffer.markers@);
    }
    build_toc_from_headings(headings.as_slice())
}

} // verus!
