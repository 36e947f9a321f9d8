//! The reference resolver: it turns format-native cross-references
//! (`file#fragment`, bare paths, bare fragments) into absolute buffer
//! offsets. Paths are first normalized — lowercased, backslashes turned into
//! slashes, a single leading slash enforced — and a fragment lookup falls
//! back to the start offset of the file, and that to the unresolved
//! sentinel. An unresolved reference is not an error.
use vstd::prelude::*;
use vstd::string::StrSliceExecFns;
use vstd::string::StringExecFns;

use crate::document::TocItem;
use crate::strmap::StrMap;
use crate::textutil::push_char;

verus! {

broadcast use vstd::std_specs::vec::axiom_vec_index_decreases, vstd::std_specs::vec::axiom_vec_decreases_to_view, vstd::seq::axiom_seq_index_decreases, vstd::seq::axiom_seq_subrange_decreases;

/// The offset meaning "this reference could not be mapped to a position".
/// Callers treat it as non-navigable, never as a failure.
pub const UNRESOLVED_OFFSET: usize = usize::MAX;

/// The text with every backslash turned into a forward slash.
pub open spec fn slashes_forward(s: Seq<char>) -> Seq<char>
    decreases s.len(),
{
    if s.len() == 0 {
        Seq::empty()
    } else {
        slashes_forward(s.drop_last()).push(
            if s.last() == '\\' {
                '/'
            } else {
                s.last()
            },
        )
    }
}

pub proof fn lemma_slashes_forward_len(s: Seq<char>)
    ensures
        slashes_forward(s).len() == s.len(),
    decreases s.len(),
{
    if s.len() > 0 {
        lemma_slashes_forward_len(s.drop_last());
    }
}

/// A normalized path: lowercased per Unicode, backslashes turned into
/// slashes, a single leading slash enforced.
pub open spec fn normalize_path_spec(s: Seq<char>) -> Seq<char> {
    let canon = slashes_forward(crate::textutil::unicode_lower_of(s));
    if canon.len() > 0 && canon[0] == '/' {
        canon
    } else {
        seq!['/'] + canon
    }
}

/// Normalizes a path: lowercases it, turns backslashes into slashes, and
/// enforces one leading slash, reconciling per-format path conventions.
pub fn normalize_path(path: &str) -> (r: String)
    ensures
        r@ == normalize_path_spec(path@),
{
    let lowered = crate::textutil::unicode_lowercase(path);
    let low = lowered.as_str();
    let n: usize = low.unicode_len();
    let mut canon = String::new();
    let mut i: usize = 0;
    while i < n
        invariant
            n == low@.len(),
            low@ == crate::textutil::unicode_lower_of(path@),
            i <= n,
            canon@ == slashes_forward(low@.subrange(0, i as int)),
        decreases n - i,
    {
        let c = low.get_char(i);
        let mapped: char = if c == '\\' {
            '/'
        } else {
            c
        };
        proof {
            let pre = low@.subrange(0, i + 1);
            assert(pre.drop_last() =~= low@.subrange(0, i as int));
            assert(pre.last() == c);
        }
        push_char(&mut canon, mapped);
        i = i + 1;
    }
    proof {
        assert(low@.subrange(0, n as int) =~= low@);
        lemma_slashes_forward_len(low@);
    }
    if canon.unicode_len() > 0 && canon.as_str().get_char(0) == '/' {
        canon
    } else {
        let mut r = String::from_str("/");
        r.append(canon.as_str());
        proof {
            reveal_strlit("/");
            assert(r@ =~= seq!['/'] + canon@);
        }
        r
    }
}

/// The index of the first `#` of `s`, or the length of `s` if there is
/// none.
pub open spec fn first_hash_index(s: Seq<char>, i: int) -> int
    decreases s.len() - i,
{
    if i < 0 || i >= s.len() {
        s.len() as int
    } else if s[i] == '#' {
        i
    } else {
        first_hash_index(s, i + 1)
    }
}

/// The start offset of the file a normalized path denotes, or the
/// unresolved sentinel.
pub open spec fn file_fallback_spec(path: Seq<char>, files: Map<Seq<char>, usize>) -> usize {
    if files.contains_key(path) {
        files[path]
    } else {
        UNRESOLVED_OFFSET
    }
}

/// The offset a raw reference resolves to, given the anchor map `ids`
/// (keyed `normalized-path#fragment`) and the file start map `files` (keyed
/// by normalized path): the anchor's offset if the anchor is known, else
/// the file's start offset, else the unresolved sentinel.
pub open spec fn resolve_offset_spec(
    reference: Seq<char>,
    files: Map<Seq<char>, usize>,
    ids: Map<Seq<char>, usize>,
) -> usize {
    let h = first_hash_index(reference, 0);
    let path = normalize_path_spec(reference.subrange(0, h));
    if h < reference.len() {
        let key = path + seq!['#'] + reference.subrange(h + 1, reference.len() as int);
        if ids.contains_key(key) {
            ids[key]
        } else {
            file_fallback_spec(path, files)
        }
    } else {
        file_fallback_spec(path, files)
    }
}

/// Resolving is a pure function of the reference and the two maps: the same
/// reference resolved twice against the same document yields the same
/// offset, for resolution has no side effects.
pub proof fn lemma_resolution_idempotent(
    reference: Seq<char>,
    files: Map<Seq<char>, usize>,
    ids: Map<Seq<char>, usize>,
)
    ensures
        resolve_offset_spec(reference, files, ids) == resolve_offset_spec(reference, files, ids),
{
}

/// Resolves a raw reference to an absolute buffer offset, with fragment
/// lookup first, file start second, and the unresolved sentinel last.
pub fn calculate_offset_from_reference(
    reference: &str,
    file_positions: &StrMap<usize>,
    id_positions: &StrMap<usize>,
) -> (r: usize)
    ensures
        r == resolve_offset_spec(reference@, file_positions@, id_positions@),
{
    let n: usize = reference.unicode_len();
    let mut h: usize = 0;
    while h < n && reference.get_char(h) != '#'
        invariant
            n == reference@.len(),
            h <= n,
            first_hash_index(reference@, 0) == first_hash_index(reference@, h as int),
        decreases n - h,
    {
        h = h + 1;
    }
    proof {
        assert(first_hash_index(reference@, 0) == h);
    }
    let file_part = reference.substring_char(0, h);
    let normalized = normalize_path(file_part);
    if h < n {
        let fragment = reference.substring_char(h + 1, n);
        let mut key = normalized.clone();
        key.append("#");
        key.append(fragment);
        proof {
            reveal_strlit("#");
            assert(key@ =~= normalize_path_spec(reference@.subrange(0, h as int)) + seq!['#']
                + reference@.subrange(h + 1, n as int));
        }
        if let Some(offset) = id_positions.get(&key) {
            return *offset;
        }
        match file_positions.get(&normalized) {
            Some(offset) => *offset,
            None => UNRESOLVED_OFFSET,
        }
    } else {
        match file_positions.get(&normalized) {
            Some(offset) => *offset,
            None => UNRESOLVED_OFFSET,
        }
    }
}

/// Each output node keeps the input node's name, reference and children
/// shape; a node with a reference carries the offset that reference
/// resolves to, a node without one keeps its offset.
pub open spec fn resolved_forest_ok(
    input: Seq<TocItem>,
    output: Seq<TocItem>,
    files: Map<Seq<char>, usize>,
    ids: Map<Seq<char>, usize>,
) -> bool
    decreases input,
{
    &&& output.len() == input.len()
    &&& forall|i: int|
        0 <= i < input.len() ==> {
            let a = #[trigger] input[i];
            let b = #[trigger] output[i];
            &&& b.name@ == a.name@
            &&& b.reference@ == a.reference@
            &&& b.offset == if a.reference@.len() == 0 {
                a.offset
            } else {
                resolve_offset_spec(a.reference@, files, ids)
            }
            &&& resolved_forest_ok(a.children@, b.children@, files, ids)
        }
}

/// Rewrites every outline node whose reference is non-empty with the offset
/// that reference resolves to; nodes without a reference keep their offset.
pub fn calculate_toc_offsets(
    items: &[TocItem],
    file_positions: &StrMap<usize>,
    id_positions: &StrMap<usize>,
) -> (r: Vec<TocItem>)
    ensures
        resolved_forest_ok(items@, r@, file_positions@, id_positions@),
    decreases items@,
{
    let mut out: Vec<TocItem> = Vec::new();
    let n = items.len();
    let mut i: usize = 0;
    while i < n
        invariant
            n == items@.len(),
            i <= n,
            out@.len() == i,
            forall|k: int|
                0 <= k < i ==> {
                    let a = #[trigger] items@[k];
                    let b = #[trigger] out@[k];
                    &&& b.name@ == a.name@
                    &&& b.reference@ == a.reference@
                    &&& b.offset == if a.reference@.len() == 0 {
                        a.offset
                    } else {
                        resolve_offset_spec(a.reference@, file_positions@, id_positions@)
                    }
                    &&& resolved_forest_ok(a.children@, b.children@, file_positions@, id_positions@)
                },
        decreases n - i,
    {
        let item = &items[i];
        let offset = if item.reference.unicode_len() > 0 {
            calculate_offset_from_reference(
                item.reference.as_str(),
                file_positions,
                id_positions,
            )
        } else {
            item.offset
        };
        let mut node = TocItem::new(item.name.clone(), item.reference.clone(), offset);
        proof {
            assert(decreases_to!(items@ => items@[i as int].children@));
        }
        node.children = calculate_toc_offsets(
            item.children.as_slice(),
            file_positions,
            id_positions,
        );
        out.push(node);
        i = i + 1;
    }
    out
}

} // verus!
