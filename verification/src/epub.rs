//! The EPUB extractor's verified pieces: registry metadata, href splitting
//! and resolution against the current section, path normalization over
//! components, mime-type classification, and the mapping from navigation
//! points to outline offsets.
use vstd::prelude::*;
use vstd::string::StrSliceExecFns;
use vstd::string::StringExecFns;

use crate::document::Document;
use crate::document::DocumentBuffer;
use crate::document::Marker;
use crate::document::MarkerRec;
use crate::document::MarkerType;
use crate::document::ParserFlags;
use crate::document::TocItem;
use crate::document::marker_recs_of;
use crate::error::ParseError;
use crate::textutil::decimal_digits;
use crate::textutil::trim_string;
use crate::textutil::trim_string_spec;
use crate::textutil::usize_to_string;
use crate::toc::HeadingInfo;
use crate::registry::file_stem_spec;
use crate::resolve::first_hash_index;
use crate::strmap::StrMap;
use crate::textutil::ascii_lower_chars;
use crate::textutil::str_starts_with;
use crate::textutil::to_ascii_lowercase;

verus! {

pub struct EpubParser;

impl EpubParser {
    /// The extractor's display name.
    pub fn name(&self) -> (r: &'static str)
        ensures
            r@ == "EPUB Books"@,
    {
        "EPUB Books"
    }

    /// The file extensions this extractor claims.
    pub fn extensions(&self) -> (r: Vec<&'static str>)
        ensures
            r@.len() == 1,
            r@[0]@ == "epub"@,
    {
        let mut v = Vec::new();
        v.push("epub");
        v
    }

    /// EPUB has native sections, a table of contents and lists.
    pub fn supported_flags(&self) -> (r: ParserFlags)
        ensures
            r.bits == (crate::document::FLAG_SECTIONS | crate::document::FLAG_TOC
                | crate::document::FLAG_LISTS),
    {
        ParserFlags::supports_sections().union(ParserFlags::supports_toc()).union(
            ParserFlags::supports_lists(),
        )
    }
}

/// The title a document falls back to when its metadata names none: the
/// file name without directory and extension.
pub fn fallback_title(path: &str) -> (r: String)
    ensures
        r@ == file_stem_spec(path@),
{
    crate::registry::file_stem_of(path)
}

/// The marker type of a heading level; depths beyond the sixth flatten to
/// the deepest type.
pub open spec fn heading_marker_type_spec(level: i32) -> MarkerType {
    if level == 1 {
        MarkerType::Heading1
    } else if level == 2 {
        MarkerType::Heading2
    } else if level == 3 {
        MarkerType::Heading3
    } else if level == 4 {
        MarkerType::Heading4
    } else if level == 5 {
        MarkerType::Heading5
    } else {
        MarkerType::Heading6
    }
}

pub fn heading_marker_type(level: i32) -> (r: MarkerType)
    ensures
        r == heading_marker_type_spec(level),
{
    if level == 1 {
        MarkerType::Heading1
    } else if level == 2 {
        MarkerType::Heading2
    } else if level == 3 {
        MarkerType::Heading3
    } else if level == 4 {
        MarkerType::Heading4
    } else if level == 5 {
        MarkerType::Heading5
    } else {
        MarkerType::Heading6
    }
}

/// An href without its scheme marker: a leading `epub://` is dropped.
pub open spec fn href_body(s: Seq<char>) -> Seq<char> {
    if crate::chm::exact_prefix(s, "epub://"@) {
        s.subrange("epub://"@.len() as int, s.len() as int)
    } else {
        s
    }
}

/// The path part of an href: what stands before its first `#`.
pub open spec fn split_href_path(s: Seq<char>) -> Seq<char> {
    let t = href_body(s);
    t.subrange(0, first_hash_index(t, 0))
}

/// The fragment of an href: what follows its first `#`, if present.
pub open spec fn split_href_fragment(s: Seq<char>) -> Option<Seq<char>> {
    let t = href_body(s);
    let h = first_hash_index(t, 0);
    if h < t.len() {
        Some(t.subrange(h + 1, t.len() as int))
    } else {
        None
    }
}

/// Splits an href into its path and its optional fragment, after dropping
/// a leading `epub://`.
pub fn split_href(input: &str) -> (r: (String, Option<String>))
    ensures
        r.0@ == split_href_path(input@),
        match r.1 {
            Some(f) => split_href_fragment(input@) == Some(f@),
            None => split_href_fragment(input@) is None,
        },
{
    let trimmed: String = if str_starts_with(input, "epub://") {
        let n: usize = input.unicode_len();
        proof {
            reveal_strlit("epub://");
        }
        String::from_str(input.substring_char(7, n))
    } else {
        String::from_str(input)
    };
    let t = trimmed.as_str();
    let n: usize = t.unicode_len();
    let mut h: usize = 0;
    while h < n && t.get_char(h) != '#'
        invariant
            n == t@.len(),
            h <= n,
            first_hash_index(t@, 0) == first_hash_index(t@, h as int),
        decreases n - h,
    {
        h = h + 1;
    }
    proof {
        assert(first_hash_index(t@, 0) == h);
    }
    if h < n {
        let path = String::from_str(t.substring_char(0, h));
        let frag = String::from_str(t.substring_char(h + 1, n));
        (path, Some(frag))
    } else {
        (String::from_str(t), None)
    }
}

/// Whether a resource's mime type names text the converter can read:
/// the XML and HTML families.
pub open spec fn is_textual_mime_spec(mime: Seq<char>) -> bool {
    let lower = ascii_lower_chars(mime);
    ||| lower == "application/xhtml+xml"@
    ||| lower == "application/x-dtbook+xml"@
    ||| lower == "application/xml"@
    ||| lower == "text/xml"@
    ||| lower == "text/html"@
    ||| crate::chm::exact_prefix(lower, "text/"@)
    ||| (lower.len() >= "+xml"@.len() && lower.subrange(
        lower.len() - "+xml"@.len(),
        lower.len() as int,
    ) == "+xml"@)
}

pub fn is_textual_mime(mime: &str) -> (r: bool)
    ensures
        r == is_textual_mime_spec(mime@),
{
    let lower = to_ascii_lowercase(mime);
    let l = lower.as_str();
    if l.eq("application/xhtml+xml") || l.eq("application/x-dtbook+xml") || l.eq("application/xml")
        || l.eq("text/xml") || l.eq("text/html") {
        return true;
    }
    if str_starts_with(l, "text/") {
        return true;
    }
    let n: usize = l.unicode_len();
    proof {
        reveal_strlit("+xml");
    }
    if n >= 4 {
        let suffix = l.substring_char(n - 4, n);
        if suffix.eq("+xml") {
            return true;
        }
        proof {
            assert(lower@.subrange(lower@.len() - 4, lower@.len() as int) != "+xml"@);
        }
    }
    false
}

/// The segments of a slash-separated path.
pub open spec fn path_segments(s: Seq<char>) -> Seq<Seq<char>>
    decreases s.len(),
    via lemma_path_segments_decreases
{
    let k = crate::docx::index_of_from(s, '/', 0);
    if k >= s.len() {
        seq![s]
    } else {
        seq![s.subrange(0, k)] + path_segments(s.subrange(k + 1, s.len() as int))
    }
}

proof fn lemma_index_of_bounds(s: Seq<char>, c: char, i: int)
    requires
        0 <= i <= s.len(),
    ensures
        i <= crate::docx::index_of_from(s, c, i) <= s.len(),
    decreases s.len() - i,
{
    if i < s.len() && s[i] != c {
        lemma_index_of_bounds(s, c, i + 1);
    }
}

#[via_fn]
proof fn lemma_path_segments_decreases(s: Seq<char>) {
    lemma_index_of_bounds(s, '/', 0);
}

/// Component normalization over segments: empty segments and `.` are
/// dropped, `..` pops what was kept so far, anything else is kept.
pub open spec fn norm_segments(segs: Seq<Seq<char>>, kept: Seq<Seq<char>>) -> Seq<Seq<char>>
    decreases segs.len(),
{
    if segs.len() == 0 {
        kept
    } else {
        let first = segs[0];
        let rest = segs.subrange(1, segs.len() as int);
        if first == ".."@ {
            norm_segments(rest, if kept.len() > 0 {
                kept.drop_last()
            } else {
                kept
            })
        } else if first == "."@ || first.len() == 0 {
            norm_segments(rest, kept)
        } else {
            norm_segments(rest, kept.push(first))
        }
    }
}

/// Segments joined with slashes.
pub open spec fn join_segments(segs: Seq<Seq<char>>) -> Seq<char>
    decreases segs.len(),
{
    if segs.len() == 0 {
        Seq::empty()
    } else if segs.len() == 1 {
        segs[0]
    } else {
        join_segments(segs.drop_last()) + seq!['/'] + segs.last()
    }
}

/// A path normalized by components: split on slashes, `.` and empty
/// segments dropped, `..` popping its predecessor, the rest joined with
/// single slashes and no leading slash.
pub open spec fn normalize_components_spec(s: Seq<char>) -> Seq<char> {
    join_segments(norm_segments(path_segments(s), Seq::empty()))
}

/// Splits a path into its slash-separated segments.
fn split_path_segments(path: &str) -> (r: Vec<String>)
    ensures
        r.deep_view() == path_segments(path@),
{
    let n: usize = path.unicode_len();
    let mut out: Vec<String> = Vec::new();
    let mut start: usize = 0;
    proof {
        assert(path@.subrange(0, n as int) =~= path@);
        assert(out.deep_view() =~= Seq::<Seq<char>>::empty());
    }
    loop
        invariant
            n == path@.len(),
            start <= n,
            path_segments(path@) == out.deep_view() + path_segments(
                path@.subrange(start as int, n as int),
            ),
        decreases n - start,
    {
        let mut k: usize = start;
        while k < n && path.get_char(k) != '/'
            invariant
                n == path@.len(),
                start <= k <= n,
                crate::docx::index_of_from(path@.subrange(start as int, n as int), '/', 0)
                    == crate::docx::index_of_from(
                    path@.subrange(start as int, n as int),
                    '/',
                    k - start,
                ),
            decreases n - k,
        {
            proof {
                assert(path@.subrange(start as int, n as int)[k - start] == path@[k as int]);
            }
            k = k + 1;
        }
        let ghost cur = path@.subrange(start as int, n as int);
        proof {
            if k < n {
                assert(cur[k - start] == path@[k as int]);
            }
            assert(crate::docx::index_of_from(cur, '/', 0) == k - start);
        }
        let seg = String::from_str(path.substring_char(start, k));
        let ghost before = out.deep_view();
        out.push(seg);
        proof {
            assert(out.deep_view() =~= before.push(path@.subrange(start as int, k as int)));
            assert(cur.subrange(0, k - start) =~= path@.subrange(start as int, k as int));
        }
        if k >= n {
            proof {
                assert(path_segments(cur) =~= seq![cur.subrange(0, k - start)]);
                assert(out.deep_view() =~= path_segments(path@));
            }
            return out;
        }
        proof {
            assert(cur.subrange(k - start + 1, cur.len() as int) =~= path@.subrange(
                k + 1,
                n as int,
            ));
            assert(path_segments(cur) =~= seq![cur.subrange(0, k - start)] + path_segments(
                path@.subrange(k + 1, n as int),
            ));
            assert(out.deep_view() + path_segments(path@.subrange(k + 1, n as int)) =~= before
                + path_segments(cur));
        }
        start = k + 1;
    }
}

/// Normalizes a path by components: `.` and empty segments vanish, `..`
/// pops, and what remains is joined with single slashes.
pub fn normalize_path(path: &str) -> (r: String)
    ensures
        r@ == normalize_components_spec(path@),
{
    let segs = split_path_segments(path);
    let mut kept: Vec<String> = Vec::new();
    let n = segs.len();
    let mut i: usize = 0;
    proof {
        assert(segs.deep_view().subrange(0, n as int) =~= segs.deep_view());
        assert(kept.deep_view() =~= Seq::<Seq<char>>::empty());
    }
    while i < n
        invariant
            n == segs@.len(),
            i <= n,
            norm_segments(segs.deep_view(), Seq::empty()) == norm_segments(
                segs.deep_view().subrange(i as int, n as int),
                kept.deep_view(),
            ),
        decreases n - i,
    {
        let seg = &segs[i];
        let ghost rem = segs.deep_view().subrange(i as int, n as int);
        proof {
            assert(rem[0] == segs.deep_view()[i as int]);
            assert(rem.subrange(1, rem.len() as int) =~= segs.deep_view().subrange(
                i + 1,
                n as int,
            ));
        }
        if seg.as_str().eq("..") {
            if kept.len() > 0 {
                let ghost kv = kept.deep_view();
                kept.pop();
                proof {
                    assert(kept.deep_view() =~= kv.drop_last());
                }
            }
        } else if seg.as_str().eq(".") || seg.as_str().unicode_len() == 0 {
        } else {
            let ghost kv = kept.deep_view();
            kept.push(seg.clone());
            proof {
                assert(kept.deep_view() =~= kv.push(segs.deep_view()[i as int]));
            }
        }
        i = i + 1;
    }
    proof {
        assert(segs.deep_view().subrange(n as int, n as int) =~= Seq::<Seq<char>>::empty());
    }
    let m = kept.len();
    if m == 0 {
        proof {
            assert(join_segments(kept.deep_view()) =~= Seq::<char>::empty());
        }
        return String::new();
    }
    let mut out = kept[0].clone();
    proof {
        assert(kept.deep_view().subrange(0, 1)[0] == kept.deep_view()[0]);
        assert(join_segments(kept.deep_view().subrange(0, 1)) == kept.deep_view()[0]);
    }
    let mut i: usize = 1;
    while i < m
        invariant
            m == kept@.len(),
            1 <= i <= m,
            out@ == join_segments(kept.deep_view().subrange(0, i as int)),
        decreases m - i,
    {
        out.append("/");
        out.append(kept[i].as_str());
        proof {
            reveal_strlit("/");
            let pre = kept.deep_view().subrange(0, i + 1);
            assert(pre.drop_last() =~= kept.deep_view().subrange(0, i as int));
            assert(pre.last() == kept.deep_view()[i as int]);
            assert(out@ =~= join_segments(pre.drop_last()) + seq!['/'] + pre.last());
        }
        i = i + 1;
    }
    proof {
        assert(kept.deep_view().subrange(0, m as int) =~= kept.deep_view());
    }
    out
}

/// What an href of the current section resolves to: an external target or
/// a bare fragment verbatim; an empty path keeps the current section's
/// path; an absolute path is normalized on its own; a relative one is
/// joined onto the current path's directory and normalized. A non-empty
/// fragment is carried along behind `#`.
pub open spec fn resolve_href_spec(current_path: Seq<char>, target: Seq<char>) -> Seq<char> {
    let lower = ascii_lower_chars(target);
    if crate::chm::exact_prefix(lower, "http:"@) || crate::chm::exact_prefix(lower, "https:"@)
        || crate::chm::exact_prefix(lower, "mailto:"@) {
        target
    } else if target.len() > 0 && target[0] == '#' {
        target
    } else {
        let path_part = split_href_path(target);
        let frag = split_href_fragment(target);
        let resolved = if path_part.len() == 0 {
            current_path
        } else if path_part[0] == '/' {
            normalize_components_spec(path_part)
        } else {
            let k = crate::docx::last_index_of_before(current_path, '/', current_path.len() as int);
            let dir = if k < 0 {
                Seq::<char>::empty()
            } else {
                current_path.subrange(0, k)
            };
            normalize_components_spec(dir + seq!['/'] + path_part)
        };
        match frag {
            Some(f) => if f.len() == 0 {
                resolved
            } else {
                resolved + seq!['#'] + f
            },
            None => resolved,
        }
    }
}

/// Resolves an href against the current section's path.
pub fn resolve_href(current_path: &str, target: &str) -> (r: String)
    ensures
        r@ == resolve_href_spec(current_path@, target@),
{
    let lower = to_ascii_lowercase(target);
    if str_starts_with(lower.as_str(), "http:") || str_starts_with(lower.as_str(), "https:")
        || str_starts_with(lower.as_str(), "mailto:") {
        return String::from_str(target);
    }
    if target.unicode_len() > 0 && target.get_char(0) == '#' {
        return String::from_str(target);
    }
    let (path_part, fragment) = split_href(target);
    let resolved: String = if path_part.as_str().unicode_len() == 0 {
        String::from_str(current_path)
    } else if path_part.as_str().get_char(0) == '/' {
        normalize_path(path_part.as_str())
    } else {
        let n: usize = current_path.unicode_len();
        let mut k: usize = n;
        while k > 0 && current_path.get_char(k - 1) != '/'
            invariant
                n == current_path@.len(),
                k <= n,
                crate::docx::last_index_of_before(current_path@, '/', n as int)
                    == crate::docx::last_index_of_before(current_path@, '/', k as int),
            decreases k,
        {
            k = k - 1;
        }
        proof {
            if k > 0 {
                assert(crate::docx::last_index_of_before(current_path@, '/', k as int) == k - 1);
            } else {
                assert(crate::docx::last_index_of_before(current_path@, '/', 0int) == -1);
            }
        }
        let mut joined = if k > 0 {
            String::from_str(current_path.substring_char(0, k - 1))
        } else {
            String::new()
        };
        joined.append("/");
        joined.append(path_part.as_str());
        proof {
            reveal_strlit("/");
            if k > 0 {
                assert(joined@ =~= current_path@.subrange(0, k - 1) + seq!['/'] + path_part@);
            } else {
                assert(joined@ =~= Seq::<char>::empty() + seq!['/'] + path_part@);
            }
        }
        normalize_path(joined.as_str())
    };
    match fragment {
        Some(f) => {
            if f.as_str().unicode_len() == 0 {
                resolved
            } else {
                let mut r = resolved;
                r.append("#");
                r.append(f.as_str());
                proof {
                    reveal_strlit("#");
                }
                r
            }
        },
        None => resolved,
    }
}

/// One spine section's place in the flattened text.
#[derive(Debug, Clone)]
pub struct SectionMeta {
    pub path: String,
    pub start: usize,
    pub end: usize,
}

/// The first index at or after `i` of a section whose path reads `path`,
/// or the number of sections.
pub open spec fn section_index(sections: Seq<SectionMeta>, path: Seq<char>, i: int) -> int
    decreases sections.len() - i,
{
    if i < 0 || i >= sections.len() {
        sections.len() as int
    } else if sections[i].path@ == path {
        i
    } else {
        section_index(sections, path, i + 1)
    }
}

/// The offset a navigation reference points at: inside the section the
/// reference's path names, its fragment's anchor position if that lies
/// within the section, else the section's start; outside any section, the
/// fragment's anchor position if known; else the unresolved sentinel,
/// which callers treat as non-navigable.
pub open spec fn navpoint_offset_spec(
    reference: Seq<char>,
    sections: Seq<SectionMeta>,
    ids: Map<Seq<char>, usize>,
) -> usize {
    let path = split_href_path(reference);
    let frag = split_href_fragment(reference);
    let k = section_index(sections, path, 0);
    if k < sections.len() {
        let sec = sections[k];
        match frag {
            Some(f) => if ids.contains_key(f) && sec.start <= ids[f] < sec.end {
                ids[f]
            } else {
                sec.start
            },
            None => sec.start,
        }
    } else {
        match frag {
            Some(f) => if ids.contains_key(f) {
                ids[f]
            } else {
                crate::resolve::UNRESOLVED_OFFSET
            },
            None => crate::resolve::UNRESOLVED_OFFSET,
        }
    }
}

/// Maps a navigation reference to an absolute offset, preferring the
/// fragment's anchor within its section, then the section start, then an
/// anchor anywhere, then the unresolved sentinel.
pub fn compute_navpoint_offset(
    reference: &str,
    sections: &Vec<SectionMeta>,
    id_positions: &StrMap<usize>,
) -> (r: usize)
    ensures
        r == navpoint_offset_spec(reference@, sections@, id_positions@),
{
    let (path, fragment) = split_href(reference);
    let n = sections.len();
    let mut k: usize = 0;
    while k < n && !sections[k].path.eq(&path)
        invariant
            n == sections@.len(),
            k <= n,
            path@ == split_href_path(reference@),
            section_index(sections@, path@, 0) == section_index(sections@, path@, k as int),
        decreases n - k,
    {
        k = k + 1;
    }
    proof {
        assert(section_index(sections@, path@, 0) == k);
    }
    if k < n {
        let sec = &sections[k];
        if let Some(f) = &fragment {
            if let Some(offset) = id_positions.get(f) {
                if *offset >= sec.start && *offset < sec.end {
                    return *offset;
                }
            }
        }
        sec.start
    } else {
        if let Some(f) = &fragment {
            if let Some(offset) = id_positions.get(f) {
                return *offset;
            }
        }
        crate::resolve::UNRESOLVED_OFFSET
    }
}


/// One hyperlink the converter found, at its offset within the section's
/// text.
#[derive(Debug, Clone)]
pub struct LinkInfo {
    pub offset: usize,
    pub text: String,
    pub reference: String,
}

/// One list the converter found; `item_count` counts its items.
#[derive(Debug, Clone)]
pub struct ListInfo {
    pub offset: usize,
    pub item_count: i32,
}

/// One list item the converter found, with its nesting depth.
#[derive(Debug, Clone)]
pub struct ListItemInfo {
    pub offset: usize,
    pub text: String,
    pub level: i32,
}

/// What the markup converter extracted from one spine section: flattened
/// text and the structures found in it, all offsets relative to the
/// section's own text.
#[derive(Debug)]
pub struct SectionContent {
    pub text: String,
    pub headings: Vec<HeadingInfo>,
    pub links: Vec<LinkInfo>,
    pub lists: Vec<ListInfo>,
    pub list_items: Vec<ListItemInfo>,
    pub id_positions: Vec<(String, usize)>,
}

/// How one spine item fared before assembly: skipped for its kind, failed
/// to read, failed to convert, or converted.
#[derive(Debug)]
pub enum SpineSection {
    /// The item has no resource or a non-textual one; it is passed over in
    /// silence.
    Skipped,
    /// The item's resource could not be read.
    Unreadable { idref: String },
    /// The converter refused the item's markup.
    Failed { idref: String, error: String },
    /// The converter produced the section's content.
    Converted { path: String, content: SectionContent },
}

/// Picks a section's conversion: the XML converter's reading wins when it
/// succeeded, the HTML converter's reading is the fallback, and a section
/// neither could read is refused.
pub fn convert_section(
    xml_reading: Option<SectionContent>,
    html_reading: Option<SectionContent>,
) -> (r: Result<SectionContent, ParseError>)
    ensures
        match r {
            Ok(c) => ((xml_reading matches Some(x) && c == x) || (xml_reading is None && (
            html_reading matches Some(h) && c == h))),
            Err(e) => xml_reading is None && html_reading is None && e
                matches ParseError::FormatInvalid(_),
        },
{
    match xml_reading {
        Some(c) => Ok(c),
        None => match html_reading {
            Some(c) => Ok(c),
            None => Err(ParseError::FormatInvalid(String::from_str("unsupported content"))),
        },
    }
}

/// Every offset the converter reported points into the section's own text.
pub open spec fn section_content_wf(c: SectionContent) -> bool {
    &&& forall|i: int|
        0 <= i < c.headings@.len() ==> (#[trigger] c.headings@[i]).offset <= c.text@.len()
    &&& forall|i: int| 0 <= i < c.links@.len() ==> (#[trigger] c.links@[i]).offset <= c.text@.len()
    &&& forall|i: int| 0 <= i < c.lists@.len() ==> (#[trigger] c.lists@[i]).offset <= c.text@.len()
    &&& forall|i: int|
        0 <= i < c.list_items@.len() ==> (#[trigger] c.list_items@[i]).offset <= c.text@.len()
    &&& forall|i: int|
        0 <= i < c.id_positions@.len() ==> (#[trigger] c.id_positions@[i]).1 <= c.text@.len()
}

pub open spec fn spine_sections_wf(items: Seq<SpineSection>) -> bool {
    forall|i: int|
        0 <= i < items.len() ==> ((#[trigger] items[i]) matches SpineSection::Converted {
            content,
            ..
        } ==> section_content_wf(content))
}

/// The flattened text one spine item contributes, at most: its section's
/// text and the newline that may close it.
pub open spec fn spine_item_cost(item: SpineSection) -> nat {
    match item {
        SpineSection::Converted { content, .. } => content.text@.len() + 1,
        _ => 0,
    }
}

pub open spec fn spine_total_len(items: Seq<SpineSection>, n: int) -> nat
    decreases n,
{
    if n <= 0 {
        0
    } else {
        spine_total_len(items, n - 1) + spine_item_cost(items[n - 1])
    }
}

pub open spec fn converted_count(items: Seq<SpineSection>, n: int) -> nat
    decreases n,
{
    if n <= 0 {
        0
    } else {
        converted_count(items, n - 1) + (if items[n - 1] matches SpineSection::Converted { .. } {
            1nat
        } else {
            0nat
        })
    }
}

/// The assembly's running state: the flattened text, the markers recorded,
/// the anchor map, the sections placed, and the conversion failures seen.
pub struct EpubState {
    pub text: Seq<char>,
    pub markers: Seq<MarkerRec>,
    pub ids: Map<Seq<char>, usize>,
    pub sections: Seq<SectionMeta>,
    pub errors: Seq<Seq<char>>,
}

pub open spec fn epub_init() -> EpubState {
    EpubState {
        text: Seq::empty(),
        markers: Seq::empty(),
        ids: Map::empty(),
        sections: Seq::empty(),
        errors: Seq::empty(),
    }
}

pub open spec fn section_break_rec(start: int, index: int) -> MarkerRec {
    MarkerRec {
        marker_type: MarkerType::SectionBreak,
        position: start,
        text: "Section "@ + decimal_digits((index + 1) as nat),
        reference: Seq::empty(),
        level: 0,
    }
}

pub open spec fn heading_recs(hs: Seq<HeadingInfo>, start: int) -> Seq<MarkerRec> {
    hs.map(
        |_i: int, h: HeadingInfo|
            MarkerRec {
                marker_type: heading_marker_type_spec(h.level),
                position: start + h.offset,
                text: h.text@,
                reference: Seq::empty(),
                level: h.level as int,
            },
    )
}

pub open spec fn link_recs(ls: Seq<LinkInfo>, start: int, path: Seq<char>) -> Seq<MarkerRec> {
    ls.map(
        |_i: int, l: LinkInfo|
            MarkerRec {
                marker_type: MarkerType::Link,
                position: start + l.offset,
                text: l.text@,
                reference: resolve_href_spec(path, l.reference@),
                level: 0,
            },
    )
}

pub open spec fn list_recs(ls: Seq<ListInfo>, start: int) -> Seq<MarkerRec> {
    ls.map(
        |_i: int, l: ListInfo|
            MarkerRec {
                marker_type: MarkerType::List,
                position: start + l.offset,
                text: Seq::empty(),
                reference: Seq::empty(),
                level: l.item_count as int,
            },
    )
}

pub open spec fn list_item_recs(ls: Seq<ListItemInfo>, start: int) -> Seq<MarkerRec> {
    ls.map(
        |_i: int, l: ListItemInfo|
            MarkerRec {
                marker_type: MarkerType::ListItem,
                position: start + l.offset,
                text: l.text@,
                reference: Seq::empty(),
                level: l.level as int,
            },
    )
}

/// Anchor ids bound to absolute positions: the section's start plus each
/// relative position; a later binding of the same id wins.
pub open spec fn ids_after(
    ids: Map<Seq<char>, usize>,
    entries: Seq<(String, usize)>,
    start: int,
) -> Map<Seq<char>, usize>
    decreases entries.len(),
{
    if entries.len() == 0 {
        ids
    } else {
        ids_after(ids, entries.drop_last(), start).insert(
            entries.last().0@,
            (start + entries.last().1) as usize,
        )
    }
}

/// How one spine item advances the assembly: a converted section opens
/// with a section-break marker, lays its markers at absolute positions,
/// binds its anchors, appends its text with a closing newline, and records
/// its bounds; a failed item records a diagnostic; a skipped one changes
/// nothing.
pub open spec fn epub_step(st: EpubState, item: SpineSection, index: int) -> EpubState {
    match item {
        SpineSection::Skipped => st,
        SpineSection::Unreadable { idref } => EpubState {
            errors: st.errors.push(idref@),
            ..st
        },
        SpineSection::Failed { idref, error } => EpubState {
            errors: st.errors.push(idref@ + " ("@ + error@ + ")"@),
            ..st
        },
        SpineSection::Converted { path, content } => {
            let start = st.text.len() as int;
            let after = st.text + content.text@;
            let with_nl = if ends_with_newline_epub(after) {
                after
            } else {
                after + seq!['\n']
            };
            EpubState {
                text: with_nl,
                markers: st.markers + seq![section_break_rec(start, index)] + heading_recs(
                    content.headings@,
                    start,
                ) + link_recs(content.links@, start, path@) + list_recs(content.lists@, start)
                    + list_item_recs(content.list_items@, start),
                ids: ids_after(st.ids, content.id_positions@, start),
                sections: st.sections.push(
                    SectionMeta {
                        path,
                        start: start as usize,
                        end: with_nl.len() as usize,
                    },
                ),
                errors: st.errors,
            }
        },
    }
}

pub open spec fn ends_with_newline_epub(t: Seq<char>) -> bool {
    t.len() > 0 && t.last() == '\n'
}

/// The diagnostics joined for the failure message, comma-separated.
pub open spec fn joined_errors(errors: Seq<Seq<char>>) -> Seq<char>
    decreases errors.len(),
{
    if errors.len() == 0 {
        Seq::empty()
    } else if errors.len() == 1 {
        errors[0]
    } else {
        joined_errors(errors.drop_last()) + ", "@ + errors.last()
    }
}

/// The message a spine without one readable section is refused with: the
/// conversion failures are named, or the spine held nothing readable.
pub open spec fn epub_failure_message(errors: Seq<Seq<char>>) -> Seq<char> {
    "EPUB has no readable content ("@ + (if errors.len() == 0 {
        "no readable spine items"@
    } else {
        "failed to convert spine items: "@ + joined_errors(errors)
    }) + ")"@
}

/// The assembly's state after the first `n` spine items.
pub open spec fn epub_fold(items: Seq<SpineSection>, n: int) -> EpubState
    decreases n,
{
    if n <= 0 {
        epub_init()
    } else {
        epub_step(epub_fold(items, n - 1), items[n - 1], n - 1)
    }
}

/// One navigation point of the EPUB's native outline, with its children.
#[derive(Debug)]
pub struct NavPointInput {
    pub label: String,
    pub content: String,
    pub children: Vec<NavPointInput>,
}

/// Each outline node carries its navigation point's label, the point's
/// normalized content path as its reference, and the offset that
/// reference maps to; children correspond recursively.
pub open spec fn navpoints_resolved_ok(
    navs: Seq<NavPointInput>,
    out: Seq<TocItem>,
    sections: Seq<SectionMeta>,
    ids: Map<Seq<char>, usize>,
) -> bool
    decreases navs,
{
    &&& out.len() == navs.len()
    &&& forall|i: int|
        0 <= i < navs.len() ==> {
            let nav = #[trigger] navs[i];
            let t = #[trigger] out[i];
            &&& t.name@ == nav.label@
            &&& t.reference@ == normalize_components_spec(nav.content@)
            &&& t.offset == navpoint_offset_spec(
                normalize_components_spec(nav.content@),
                sections,
                ids,
            )
            &&& navpoints_resolved_ok(nav.children@, t.children@, sections, ids)
        }
}

/// Converts the EPUB's native navigation points into the outline: each
/// point's content path is normalized and mapped to an absolute offset.
pub fn build_toc(
    navpoints: &[NavPointInput],
    sections: &Vec<SectionMeta>,
    id_positions: &crate::strmap::StrMap<usize>,
) -> (r: Vec<TocItem>)
    ensures
        navpoints_resolved_ok(navpoints@, r@, sections@, id_positions@),
    decreases navpoints@,
{
    broadcast use vstd::std_specs::vec::axiom_vec_index_decreases, vstd::std_specs::vec::axiom_vec_decreases_to_view, vstd::seq::axiom_seq_index_decreases, vstd::seq::axiom_seq_subrange_decreases;

    let mut out: Vec<TocItem> = Vec::new();
    let n = navpoints.len();
    let mut i: usize = 0;
    while i < n
        invariant
            n == navpoints@.len(),
            i <= n,
            out@.len() == i,
            forall|k: int|
                0 <= k < i ==> {
                    let nav = #[trigger] navpoints@[k];
                    let t = #[trigger] out@[k];
                    &&& t.name@ == nav.label@
                    &&& t.reference@ == normalize_components_spec(nav.content@)
                    &&& t.offset == navpoint_offset_spec(
                        normalize_components_spec(nav.content@),
                        sections@,
                        id_positions@,
                    )
                    &&& navpoints_resolved_ok(nav.children@, t.children@, sections@, id_positions@)
                },
        decreases n - i,
    {
        let nav = &navpoints[i];
        let reference = normalize_path(nav.content.as_str());
        let offset = compute_navpoint_offset(reference.as_str(), sections, id_positions);
        let mut item = TocItem::new(nav.label.clone(), reference, offset);
        proof {
            assert(decreases_to!(navpoints@ => navpoints@[i as int].children@));
        }
        item.children = build_toc(nav.children.as_slice(), sections, id_positions);
        out.push(item);
        i = i + 1;
    }
    out
}


/// Assembles an EPUB document from its extracted parts: each converted
/// spine section is placed behind a section-break marker with its
/// headings, links, lists and anchors at absolute positions; the native
/// navigation points become the outline; the title falls back to the file
/// name and the author is trimmed; a spine with no readable section is
/// refused.
pub fn assemble_epub(
    file_path: &str,
    metadata_title: Option<String>,
    metadata_creator: Option<String>,
    spine: Vec<SpineSection>,
    spine_ids: Vec<String>,
    manifest: Vec<(String, String)>,
    navpoints: Vec<NavPointInput>,
) -> (r: Result<Document, ParseError>)
    requires
        spine_sections_wf(spine@),
        spine_total_len(spine@, spine@.len() as int) <= usize::MAX,
    ensures
        ({
            let st = epub_fold(spine@, spine@.len() as int);
            match r {
                Ok(doc) => {
                    &&& converted_count(spine@, spine@.len() as int) > 0
                    &&& doc.buffer.wf()
                    &&& doc.buffer.content@ == st.text
                    &&& marker_recs_of(doc.buffer.markers@) == st.markers
                    &&& crate::document::marker_positions_valid(doc.buffer)
                    &&& doc.id_positions@ == st.ids
                    &&& doc.spine_items@ == spine_ids@
                    &&& navpoints_resolved_ok(navpoints@, doc.toc_items@, st.sections, st.ids)
                    &&& doc.title@ == (match metadata_title {
                        Some(t) => if trim_string_spec(t@).len() > 0 {
                            t@
                        } else {
                            file_stem_spec(file_path@)
                        },
                        None => file_stem_spec(file_path@),
                    })
                    &&& doc.author@ == (match metadata_creator {
                        Some(a) => trim_string_spec(a@),
                        None => Seq::<char>::empty(),
                    })
                    &&& doc.stats.char_count == st.text.len()
                    &&& doc.stats.word_count == crate::document::word_count_spec(st.text)
                    &&& doc.stats.line_count == crate::document::line_count_spec(st.text)
                },
                Err(e) => {
                    &&& converted_count(spine@, spine@.len() as int) == 0
                    &&& (e matches ParseError::FormatInvalid(m) && m@ == epub_failure_message(
                        st.errors,
                    ))
                },
            }
        }),
{
    let mut buffer = DocumentBuffer::new();
    let mut id_positions: StrMap<usize> = StrMap::new();
    let mut sections: Vec<SectionMeta> = Vec::new();
    let mut errors: Vec<String> = Vec::new();
    let mut converted: usize = 0;
    let n = spine.len();
    let mut i: usize = 0;
    while i < n
        invariant
            n == spine@.len(),
            i <= n,
            spine_sections_wf(spine@),
            spine_total_len(spine@, n as int) <= usize::MAX,
            converted <= i,
            ({
                let st = epub_fold(spine@, i as int);
                &&& buffer.wf()
                &&& buffer.content@ == st.text
                &&& marker_recs_of(buffer.markers@) == st.markers
                &&& crate::document::marker_positions_valid(buffer)
                &&& id_positions@ == st.ids
                &&& sections@ == st.sections
                &&& errors.deep_view() == st.errors
                &&& st.text.len() <= spine_total_len(spine@, i as int)
                &&& (converted == 0 <==> converted_count(spine@, i as int) == 0)
            }),
        decreases n - i,
    {
        let ghost st = epub_fold(spine@, i as int);
        proof {
            lemma_spine_total_mono(spine@, i + 1, n as int);
            assert(epub_fold(spine@, i + 1) == epub_step(st, spine@[i as int], i as int));
        }
        let item = &spine[i];
        match item {
            SpineSection::Skipped => {},
            SpineSection::Unreadable { idref } => {
                let ghost before = errors.deep_view();
                errors.push(idref.clone());
                proof {
                    assert(errors.deep_view() =~= before.push(idref@));
                }
            },
            SpineSection::Failed { idref, error } => {
                let mut msg = idref.clone();
                msg.append(" (");
                msg.append(error.as_str());
                msg.append(")");
                let ghost before = errors.deep_view();
                proof {
                    assert(msg@ =~= idref@ + " ("@ + error@ + ")"@);
                }
                errors.push(msg);
                proof {
                    assert(errors.deep_view() =~= before.push(idref@ + " ("@ + error@ + ")"@));
                }
            },
            SpineSection::Converted { path, content } => {
                let section_start = buffer.current_position();
                let ghost start = section_start as int;
                proof {
                    assert(spine_total_len(spine@, i + 1) == spine_total_len(spine@, i as int)
                        + spine_item_cost(spine@[i as int]));
                    assert(spine_item_cost(spine@[i as int]) == content.text@.len() + 1);
                    assert(start + content.text@.len() + 1 <= usize::MAX);
                }
                let mut label = String::from_str("Section ");
                label.append(usize_to_string(i + 1).as_str());
                proof {
                    reveal_strlit("Section ");
                    assert(label@ == "Section "@ + decimal_digits((i + 1) as nat));
                }
                buffer.add_marker(
                    Marker::new(MarkerType::SectionBreak, section_start).with_text(label),
                );
                proof {
                    assert(marker_recs_of(buffer.markers@) =~= st.markers + seq![
                        section_break_rec(start, i as int),
                    ]);
                }
                let hn = content.headings.len();
                let mut k: usize = 0;
                while k < hn
                    invariant
                        hn == content.headings@.len(),
                        k <= hn,
                        section_content_wf(*content),
                        buffer.wf(),
                        buffer.content@ == st.text,
                        start == st.text.len(),
                        section_start == start,
                        start + content.text@.len() + 1 <= usize::MAX,
                        marker_recs_of(buffer.markers@) =~= st.markers + seq![
                            section_break_rec(start, i as int),
                        ] + heading_recs(content.headings@.subrange(0, k as int), start),
                    decreases hn - k,
                {
                    let h = &content.headings[k];
                    let ghost mrecs = marker_recs_of(buffer.markers@);
                    buffer.add_marker(
                        Marker::new(
                            heading_marker_type(h.level),
                            section_start + h.offset,
                        ).with_text(h.text.clone()).with_level(h.level),
                    );
                    proof {
                        assert(marker_recs_of(buffer.markers@) =~= mrecs.push(
                            MarkerRec {
                                marker_type: heading_marker_type_spec(h.level),
                                position: start + h.offset,
                                text: h.text@,
                                reference: Seq::empty(),
                                level: h.level as int,
                            },
                        ));
                        assert(heading_recs(content.headings@.subrange(0, k + 1), start)
                            =~= heading_recs(content.headings@.subrange(0, k as int), start).push(
                            heading_recs(content.headings@, start)[k as int],
                        ));
                        assert(marker_recs_of(buffer.markers@) =~= st.markers + seq![
                            section_break_rec(start, i as int),
                        ] + heading_recs(content.headings@.subrange(0, k + 1), start));
                    }
                    k = k + 1;
                }
                proof {
                    assert(content.headings@.subrange(0, hn as int) =~= content.headings@);
                }
                let ln = content.links.len();
                let mut k: usize = 0;
                while k < ln
                    invariant
                        ln == content.links@.len(),
                        k <= ln,
                        section_content_wf(*content),
                        buffer.wf(),
                        buffer.content@ == st.text,
                        start == st.text.len(),
                        section_start == start,
                        start + content.text@.len() + 1 <= usize::MAX,
                        marker_recs_of(buffer.markers@) =~= st.markers + seq![
                            section_break_rec(start, i as int),
                        ] + heading_recs(content.headings@, start) + link_recs(
                            content.links@.subrange(0, k as int),
                            start,
                            path@,
                        ),
                    decreases ln - k,
                {
                    let l = &content.links[k];
                    let resolved = resolve_href(path.as_str(), l.reference.as_str());
                    let ghost mrecs = marker_recs_of(buffer.markers@);
                    let ghost rv = resolved@;
                    buffer.add_marker(
                        Marker::new(MarkerType::Link, section_start + l.offset).with_text(
                            l.text.clone(),
                        ).with_reference(resolved),
                    );
                    proof {
                        assert(marker_recs_of(buffer.markers@) =~= mrecs.push(
                            MarkerRec {
                                marker_type: MarkerType::Link,
                                position: start + l.offset,
                                text: l.text@,
                                reference: rv,
                                level: 0,
                            },
                        ));
                        assert(link_recs(content.links@.subrange(0, k + 1), start, path@)
                            =~= link_recs(content.links@.subrange(0, k as int), start, path@).push(
                            link_recs(content.links@, start, path@)[k as int],
                        ));
                        assert(marker_recs_of(buffer.markers@) =~= st.markers + seq![
                            section_break_rec(start, i as int),
                        ] + heading_recs(content.headings@, start) + link_recs(
                            content.links@.subrange(0, k + 1),
                            start,
                            path@,
                        ));
                    }
                    k = k + 1;
                }
                proof {
                    assert(content.links@.subrange(0, ln as int) =~= content.links@);
                }
                let cn = content.lists.len();
                let mut k: usize = 0;
                while k < cn
                    invariant
                        cn == content.lists@.len(),
                        k <= cn,
                        section_content_wf(*content),
                        buffer.wf(),
                        buffer.content@ == st.text,
                        start == st.text.len(),
                        section_start == start,
                        start + content.text@.len() + 1 <= usize::MAX,
                        marker_recs_of(buffer.markers@) =~= st.markers + seq![
                            section_break_rec(start, i as int),
                        ] + heading_recs(content.headings@, start) + link_recs(
                            content.links@,
                            start,
                            path@,
                        ) + list_recs(content.lists@.subrange(0, k as int), start),
                    decreases cn - k,
                {
                    let l = &content.lists[k];
                    let ghost mrecs = marker_recs_of(buffer.markers@);
                    buffer.add_marker(
                        Marker::new(MarkerType::List, section_start + l.offset).with_level(
                            l.item_count,
                        ),
                    );
                    proof {
                        assert(marker_recs_of(buffer.markers@) =~= mrecs.push(
                            MarkerRec {
                                marker_type: MarkerType::List,
                                position: start + l.offset,
                                text: Seq::empty(),
                                reference: Seq::empty(),
                                level: l.item_count as int,
                            },
                        ));
                        assert(list_recs(content.lists@.subrange(0, k + 1), start) =~= list_recs(
                            content.lists@.subrange(0, k as int),
                            start,
                        ).push(list_recs(content.lists@, start)[k as int]));
                        assert(marker_recs_of(buffer.markers@) =~= st.markers + seq![
                            section_break_rec(start, i as int),
                        ] + heading_recs(content.headings@, start) + link_recs(
                            content.links@,
                            start,
                            path@,
                        ) + list_recs(content.lists@.subrange(0, k + 1), start));
                    }
                    k = k + 1;
                }
                proof {
                    assert(content.lists@.subrange(0, cn as int) =~= content.lists@);
                }
                let im = content.list_items.len();
                let mut k: usize = 0;
                while k < im
                    invariant
                        im == content.list_items@.len(),
                        k <= im,
                        section_content_wf(*content),
                        buffer.wf(),
                        buffer.content@ == st.text,
                        start == st.text.len(),
                        section_start == start,
                        start + content.text@.len() + 1 <= usize::MAX,
                        marker_recs_of(buffer.markers@) =~= st.markers + seq![
                            section_break_rec(start, i as int),
                        ] + heading_recs(content.headings@, start) + link_recs(
                            content.links@,
                            start,
                            path@,
                        ) + list_recs(content.lists@, start) + list_item_recs(
                            content.list_items@.subrange(0, k as int),
                            start,
                        ),
                    decreases im - k,
                {
                    let l = &content.list_items[k];
                    let ghost mrecs = marker_recs_of(buffer.markers@);
                    buffer.add_marker(
                        Marker::new(MarkerType::ListItem, section_start + l.offset).with_text(
                            l.text.clone(),
                        ).with_level(l.level),
                    );
                    proof {
                        assert(marker_recs_of(buffer.markers@) =~= mrecs.push(
                            MarkerRec {
                                marker_type: MarkerType::ListItem,
                                position: start + l.offset,
                                text: l.text@,
                                reference: Seq::empty(),
                                level: l.level as int,
                            },
                        ));
                        assert(list_item_recs(content.list_items@.subrange(0, k + 1), start)
                            =~= list_item_recs(
                            content.list_items@.subrange(0, k as int),
                            start,
                        ).push(list_item_recs(content.list_items@, start)[k as int]));
                        assert(marker_recs_of(buffer.markers@) =~= st.markers + seq![
                            section_break_rec(start, i as int),
                        ] + heading_recs(content.headings@, start) + link_recs(
                            content.links@,
                            start,
                            path@,
                        ) + list_recs(content.lists@, start) + list_item_recs(
                            content.list_items@.subrange(0, k + 1),
                            start,
                        ));
                    }
                    k = k + 1;
                }
                proof {
                    assert(content.list_items@.subrange(0, im as int) =~= content.list_items@);
                }
                let en = content.id_positions.len();
                let mut k: usize = 0;
                while k < en
                    invariant
                        en == content.id_positions@.len(),
                        k <= en,
                        section_content_wf(*content),
                        start == st.text.len(),
                        section_start == start,
                        start + content.text@.len() + 1 <= usize::MAX,
                        id_positions@ == ids_after(
                            st.ids,
                            content.id_positions@.subrange(0, k as int),
                            start,
                        ),
                    decreases en - k,
                {
                    let entry = &content.id_positions[k];
                    id_positions.insert(entry.0.clone(), section_start + entry.1);
                    proof {
                        let pre = content.id_positions@.subrange(0, k + 1);
                        assert(pre.drop_last() =~= content.id_positions@.subrange(0, k as int));
                        assert(pre.last() == content.id_positions@[k as int]);
                    }
                    k = k + 1;
                }
                proof {
                    assert(content.id_positions@.subrange(0, en as int) =~= content.id_positions@);
                }
                buffer.append(content.text.as_str());
                let endlen = buffer.current_position();
                let nl_needed = if endlen == 0 {
                    true
                } else {
                    buffer.content.as_str().get_char(endlen - 1) != '\n'
                };
                proof {
                    assert(buffer.content@ == st.text + content.text@);
                    reveal_strlit("\n");
                }
                if nl_needed {
                    buffer.append("\n");
                    proof {
                        reveal_strlit("\n");
                        assert(buffer.content@ =~= (st.text + content.text@) + seq!['\n']);
                    }
                } else {
                    proof {
                        reveal_strlit("\n");
                    }
                }
                let section_end = buffer.current_position();
                sections.push(
                    SectionMeta { path: path.clone(), start: section_start, end: section_end },
                );
                converted = converted + 1;
                proof {
                    let st2 = epub_fold(spine@, i + 1);
                    assert(buffer.content@ == st2.text);
                    assert(marker_recs_of(buffer.markers@) =~= st2.markers);
                    assert(sections@ =~= st2.sections);
                    assert forall|j: int| 0 <= j < buffer.markers@.len() implies (
                    #[trigger] buffer.markers@[j]).position <= buffer.content@.len() by {
                        assert(marker_recs_of(buffer.markers@)[j] == crate::document::marker_rec_of(
                            buffer.markers@[j],
                        ));
                    }
                }
            },
        }
        i = i + 1;
    }
    if converted == 0 {
        let ghost errs = errors.deep_view();
        let mut reason = String::from_str("EPUB has no readable content (");
        if errors.len() == 0 {
            reason.append("no readable spine items");
        } else {
            reason.append("failed to convert spine items: ");
            let ghost head = "EPUB has no readable content ("@ + "failed to convert spine items: "@;
            let en = errors.len();
            let mut k: usize = 0;
            proof {
                assert(errs.subrange(0, 0) =~= Seq::<Seq<char>>::empty());
                assert(reason@ =~= head + joined_errors(errs.subrange(0, 0)));
            }
            while k < en
                invariant
                    en == errors@.len(),
                    errs == errors.deep_view(),
                    k <= en,
                    reason@ == head + joined_errors(errs.subrange(0, k as int)),
                decreases en - k,
            {
                if k > 0 {
                    reason.append(", ");
                }
                reason.append(errors[k].as_str());
                proof {
                    let pre = errs.subrange(0, k + 1);
                    assert(pre.drop_last() =~= errs.subrange(0, k as int));
                    assert(pre.last() == errs[k as int]);
                    if k == 0 {
                        assert(joined_errors(pre) == errs[0]);
                        assert(reason@ =~= head + joined_errors(pre));
                    } else {
                        assert(joined_errors(pre) == joined_errors(errs.subrange(0, k as int))
                            + ", "@ + errs[k as int]);
                        assert(reason@ =~= head + joined_errors(pre));
                    }
                }
                k = k + 1;
            }
            proof {
                assert(errs.subrange(0, en as int) =~= errs);
            }
        }
        reason.append(")");
        proof {
            assert(reason@ =~= epub_failure_message(errs));
        }
        return Err(ParseError::FormatInvalid(reason));
    }
    let title = match metadata_title {
        Some(t) => {
            if trim_string(t.as_str()).as_str().unicode_len() > 0 {
                t
            } else {
                fallback_title(file_path)
            }
        },
        None => fallback_title(file_path),
    };
    let author = match metadata_creator {
        Some(a) => trim_string(a.as_str()),
        None => String::new(),
    };
    let toc_items = build_toc(navpoints.as_slice(), &sections, &id_positions);
    let mut document = Document::new().with_title(title).with_author(author);
    document.set_buffer(buffer);
    document.id_positions = id_positions;
    document.spine_items = spine_ids;
    let mut manifest_items: StrMap<String> = StrMap::new();
    let mn = manifest.len();
    let mut k: usize = 0;
    while k < mn
        invariant
            mn == manifest@.len(),
            k <= mn,
        decreases mn - k,
    {
        let normalized = normalize_path(manifest[k].1.as_str());
        manifest_items.insert(manifest[k].0.clone(), normalized);
        k = k + 1;
    }
    document.manifest_items = manifest_items;
    document.toc_items = toc_items;
    document.compute_stats();
    Ok(document)
}

proof fn lemma_spine_total_mono(items: Seq<SpineSection>, a: int, b: int)
    requires
        a <= b,
    ensures
        spine_total_len(items, a) <= spine_total_len(items, b),
    decreases b - a,
{
    if a < b {
        lemma_spine_total_mono(items, a, b - 1);
    }
}

} // verus!
