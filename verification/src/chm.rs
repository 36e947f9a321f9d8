//! The compiled-HTML-help extractor's verified pieces: registry metadata,
//! the title scan over the archive's system record, the ordering of
//! content files behind the outline, and link resolution against the
//! current file's directory.
use vstd::prelude::*;
use vstd::string::StrSliceExecFns;
use vstd::string::StringExecFns;

use crate::document::Document;
use crate::document::DocumentBuffer;
use crate::document::Marker;
use crate::document::MarkerRec;
use crate::document::MarkerType;
use crate::document::ParserFlags;
use crate::document::TocItem;
use crate::document::marker_recs_of;
use crate::epub::LinkInfo;
use crate::epub::heading_recs;
use crate::resolve::normalize_path_spec;
use crate::strmap::StrMap;
use crate::toc::HeadingInfo;
use crate::encoding::lossy_utf8_of;
use crate::textutil::str_starts_with;
use crate::textutil::to_ascii_lowercase;
use crate::textutil::trim_string_spec;

verus! {

broadcast use vstd::std_specs::vec::axiom_vec_index_decreases, vstd::std_specs::vec::axiom_vec_decreases_to_view, vstd::seq::axiom_seq_index_decreases, vstd::seq::axiom_seq_subrange_decreases;

pub struct ChmParser;

impl ChmParser {
    /// The extractor's display name.
    pub fn name(&self) -> (r: &'static str)
        ensures
            r@ == "Compiled HTML Help files"@,
    {
        "Compiled HTML Help files"
    }

    /// The file extensions this extractor claims.
    pub fn extensions(&self) -> (r: Vec<&'static str>)
        ensures
            r@.len() == 1,
            r@[0]@ == "chm"@,
    {
        let mut v = Vec::new();
        v.push("chm");
        v
    }

    /// Compiled HTML help carries a native table of contents.
    pub fn supported_flags(&self) -> (r: ParserFlags)
        ensures
            r.bits == crate::document::FLAG_TOC,
    {
        ParserFlags::supports_toc()
    }
}

/// The 16-bit little-endian value at `off`.
pub open spec fn le16_at(data: Seq<u8>, off: int) -> int {
    data[off] + data[off + 1] * 0x100
}

/// The title the system record stream names from `index` on: the first
/// record of code 3 whose bytes, with a trailing NUL dropped and decoded
/// lossily, hold more than whitespace. A record that overruns the stream
/// ends the scan.
pub open spec fn system_title_from(content: Seq<u8>, index: int) -> Option<Seq<char>>
    decreases content.len() - index,
{
    if index < 4 || index + 4 > content.len() {
        None
    } else {
        let code = le16_at(content, index);
        let length = le16_at(content, index + 2);
        if index + 4 + length > content.len() {
            None
        } else if code == 3 && length > 0 {
            let raw = content.subrange(index + 4, index + 4 + length);
            let bytes = if raw.last() == 0 {
                raw.drop_last()
            } else {
                raw
            };
            let title = lossy_utf8_of(bytes);
            if trim_string_spec(title).len() > 0 {
                Some(title)
            } else {
                system_title_from(content, index + 4 + length)
            }
        } else {
            system_title_from(content, index + 4 + length)
        }
    }
}

/// What scanning the whole system record stream yields.
pub open spec fn system_title_spec(content: Seq<u8>) -> Option<Seq<char>> {
    if content.len() < 4 {
        None
    } else {
        system_title_from(content, 4)
    }
}

/// Reads the document title out of the archive's system record stream: the
/// records begin after a four-byte header, each headed by a 16-bit code and
/// length; code 3 carries the title.
pub fn parse_system_file(content: &[u8]) -> (r: Option<String>)
    ensures
        match r {
            Some(title) => system_title_spec(content@) == Some(title@),
            None => system_title_spec(content@) is None,
        },
{
    let n = content.len();
    if n < 4 {
        return None;
    }
    let mut index: usize = 4;
    while index <= n - 4
        invariant
            n == content@.len(),
            n >= 4,
            4 <= index <= n,
            system_title_spec(content@) == system_title_from(content@, index as int),
        decreases n - index,
    {
        let code = (content[index] as u32) + (content[index + 1] as u32) * 0x100;
        let length = ((content[index + 2] as u32) + (content[index + 3] as u32) * 0x100) as usize;
        if length > n - index - 4 {
            return None;
        }
        if code == 3 && length > 0 {
            let raw = slice_range(content, index + 4, index + 4 + length);
            let cut = if raw[length - 1] == 0 {
                length - 1
            } else {
                length
            };
            let bytes = slice_range(raw, 0, cut);
            proof {
                let rawg = content@.subrange(index + 4, index + 4 + length);
                if rawg.last() == 0 {
                    assert(bytes@ =~= rawg.drop_last());
                } else {
                    assert(bytes@ =~= rawg);
                }
            }
            let title = crate::encoding::from_utf8_lossy(bytes);
            let trimmed = crate::textutil::trim_string(title.as_str());
            if trimmed.unicode_len() > 0 {
                return Some(title);
            }
        }
        index = index + 4 + length;
    }
    None
}

/// Relies on slice range indexing: the elements from `from` to `to`.
#[verifier::external_body]
fn slice_range<'a>(s: &'a [u8], from: usize, to: usize) -> (r: &'a [u8])
    requires
        from <= to <= s@.len(),
    ensures
        r@ == s@.subrange(from as int, to as int),
{
    &s[from..to]
}

/// The file part of an outline reference: everything before the first `#`.
pub open spec fn reference_file_part(r: Seq<char>) -> Seq<char> {
    r.subrange(0, crate::resolve::first_hash_index(r, 0))
}

/// How one outline node's own reference extends the collected list: its
/// file part is appended when it is new and non-empty.
pub open spec fn toc_acc_step(acc: Seq<Seq<char>>, item: TocItem) -> Seq<Seq<char>> {
    let file = reference_file_part(item.reference@);
    if item.reference@.len() > 0 && file.len() > 0 && !acc.contains(file) {
        acc.push(file)
    } else {
        acc
    }
}

/// The file paths the outline names, in pre-order, each kept once.
pub open spec fn toc_files_spec(items: Seq<TocItem>, acc: Seq<Seq<char>>) -> Seq<Seq<char>>
    decreases items,
{
    if items.len() == 0 {
        acc
    } else {
        let acc2 = toc_files_spec(items[0].children@, toc_acc_step(acc, items[0]));
        toc_files_spec(items.subrange(1, items.len() as int), acc2)
    }
}

/// Collects into `files` the file part of every outline reference, in
/// pre-order, skipping the ones already present.
pub fn collect_toc_files(items: &[TocItem], files: &mut Vec<String>)
    ensures
        final(files).deep_view() == toc_files_spec(items@, old(files).deep_view()),
    decreases items@,
{
    let n = items.len();
    let mut i: usize = 0;
    while i < n
        invariant
            n == items@.len(),
            i <= n,
            files.deep_view() == toc_files_spec(items@.subrange(0, i as int), old(
                files,
            ).deep_view()),
        decreases n - i,
    {
        let item = &items[i];
        let ghost before = files.deep_view();
        let ghost file = reference_file_part(item.reference@);
        if item.reference.unicode_len() > 0 {
            let m: usize = item.reference.unicode_len();
            let mut h: usize = 0;
            while h < m && item.reference.as_str().get_char(h) != '#'
                invariant
                    m == item.reference@.len(),
                    h <= m,
                    crate::resolve::first_hash_index(item.reference@, 0)
                        == crate::resolve::first_hash_index(item.reference@, h as int),
                decreases m - h,
            {
                h = h + 1;
            }
            proof {
                assert(crate::resolve::first_hash_index(item.reference@, 0) == h);
            }
            let file_path = item.reference.as_str().substring_char(0, h);
            proof {
                assert(file_path@ == file);
            }
            if file_path.unicode_len() > 0 && !contains_string(files, file_path) {
                files.push(String::from_str(file_path));
                proof {
                    assert(files.deep_view() =~= before.push(file));
                }
            }
        }
        proof {
            assert(files.deep_view() == toc_acc_step(before, items@[i as int]));
            assert(decreases_to!(items@ => items@[i as int].children@));
        }
        collect_toc_files(item.children.as_slice(), files);
        proof {
            assert(items@.subrange(0, i + 1) =~= items@.subrange(0, i as int).push(
                items@[i as int],
            ));
            lemma_toc_files_snoc(
                items@.subrange(0, i as int),
                items@[i as int],
                old(files).deep_view(),
            );
        }
        i = i + 1;
    }
    proof {
        assert(items@.subrange(0, n as int) =~= items@);
    }
}

/// Collecting over a list with one more node at its end is collecting over
/// the list, then over that node's own reference and children.
proof fn lemma_toc_files_snoc(s: Seq<TocItem>, x: TocItem, acc: Seq<Seq<char>>)
    ensures
        toc_files_spec(s.push(x), acc) == toc_files_spec(
            x.children@,
            toc_acc_step(toc_files_spec(s, acc), x),
        ),
    decreases s.len(),
{
    if s.len() == 0 {
        let one = s.push(x);
        assert(one[0] == x);
        assert(one.subrange(1, 1) =~= Seq::<TocItem>::empty());
        assert(toc_files_spec(one.subrange(1, 1), toc_files_spec(x.children@, toc_acc_step(acc, x)))
            == toc_files_spec(x.children@, toc_acc_step(acc, x)));
    } else {
        let sp = s.push(x);
        assert(sp[0] == s[0]);
        let acc2 = toc_files_spec(s[0].children@, toc_acc_step(acc, s[0]));
        assert(sp.subrange(1, sp.len() as int) =~= s.subrange(1, s.len() as int).push(x));
        lemma_toc_files_snoc(s.subrange(1, s.len() as int), x, acc2);
    }
}

/// Whether some element of `v` reads `s`.
pub fn contains_string(v: &Vec<String>, s: &str) -> (r: bool)
    ensures
        r == v.deep_view().contains(s@),
{
    let n = v.len();
    let mut i: usize = 0;
    while i < n
        invariant
            n == v@.len(),
            i <= n,
            forall|j: int| 0 <= j < i ==> v.deep_view()[j] != s@,
        decreases n - i,
    {
        if v[i].as_str().eq(s) {
            proof {
                assert(v.deep_view()[i as int] == s@);
            }
            return true;
        }
        i = i + 1;
    }
    proof {
        assert(forall|j: int| 0 <= j < v.deep_view().len() ==> v.deep_view()[j] != s@);
    }
    false
}

/// Whether `s` begins with `prefix`.
pub open spec fn exact_prefix(s: Seq<char>, prefix: Seq<char>) -> bool {
    s.len() >= prefix.len() && s.subrange(0, prefix.len() as int) == prefix
}

/// What a link of the current file resolves to: an external target
/// verbatim, anything else joined onto the current file's directory (what
/// stands before its last slash), with backslashes turned into slashes.
pub open spec fn resolve_link_spec(current_file: Seq<char>, href: Seq<char>) -> Seq<char> {
    let lower = crate::textutil::ascii_lower_chars(href);
    if exact_prefix(lower, "http:"@) || exact_prefix(lower, "https:"@) || exact_prefix(
        lower,
        "mailto:"@,
    ) {
        href
    } else {
        let k = crate::docx::last_index_of_before(current_file, '/', current_file.len() as int);
        let joined = if exact_prefix(href, "/"@) {
            href
        } else if k < 0 {
            href
        } else if k == 0 {
            seq!['/'] + href
        } else {
            current_file.subrange(0, k) + seq!['/'] + href
        };
        crate::resolve::slashes_forward(joined)
    }
}

/// Resolves a link of the current file: external targets pass through,
/// relative ones are joined onto the file's directory.
pub fn resolve_link(current_file: &str, href: &str) -> (r: String)
    ensures
        r@ == resolve_link_spec(current_file@, href@),
{
    let lower = to_ascii_lowercase(href);
    if str_starts_with(lower.as_str(), "http:") || str_starts_with(lower.as_str(), "https:")
        || str_starts_with(lower.as_str(), "mailto:") {
        return String::from_str(href);
    }
    let joined: String = if str_starts_with(href, "/") {
        String::from_str(href)
    } else {
        let n: usize = current_file.unicode_len();
        let mut k: usize = n;
        while k > 0 && current_file.get_char(k - 1) != '/'
            invariant
                n == current_file@.len(),
                k <= n,
                crate::docx::last_index_of_before(current_file@, '/', n as int)
                    == crate::docx::last_index_of_before(current_file@, '/', k as int),
            decreases k,
        {
            k = k - 1;
        }
        if k == 0 {
            proof {
                assert(crate::docx::last_index_of_before(current_file@, '/', 0int) == -1);
            }
            String::from_str(href)
        } else if k == 1 {
            let mut s = String::from_str("/");
            s.append(href);
            proof {
                reveal_strlit("/");
                assert(s@ =~= seq!['/'] + href@);
                assert(crate::docx::last_index_of_before(current_file@, '/', k as int) == 0);
            }
            s
        } else {
            let mut s = String::from_str(current_file.substring_char(0, k - 1));
            s.append("/");
            s.append(href);
            proof {
                reveal_strlit("/");
                assert(crate::docx::last_index_of_before(current_file@, '/', k as int) == k - 1);
                assert(s@ =~= current_file@.subrange(0, k - 1) + seq!['/'] + href@);
            }
            s
        }
    };
    let n2: usize = joined.as_str().unicode_len();
    let mut out = String::new();
    let mut i: usize = 0;
    while i < n2
        invariant
            n2 == joined@.len(),
            i <= n2,
            out@ == crate::resolve::slashes_forward(joined@.subrange(0, i as int)),
        decreases n2 - i,
    {
        let c = joined.as_str().get_char(i);
        proof {
            let pre = joined@.subrange(0, i + 1);
            assert(pre.drop_last() =~= joined@.subrange(0, i as int));
            assert(pre.last() == c);
        }
        if c == '\\' {
            crate::textutil::push_char(&mut out, '/');
        } else {
            crate::textutil::push_char(&mut out, c);
        }
        i = i + 1;
    }
    proof {
        assert(joined@.subrange(0, n2 as int) =~= joined@);
    }
    out
}


/// The last index of `files` whose normalized form reads `norm`, or minus
/// one: a later file with the same normalized path shadows an earlier one.
pub open spec fn last_match_index(files: Seq<String>, norm: Seq<char>) -> int
    decreases files.len(),
{
    if files.len() == 0 {
        -1
    } else if crate::resolve::normalize_path_spec(files.last()@) == norm {
        files.len() - 1
    } else {
        last_match_index(files.drop_last(), norm)
    }
}

/// The ordering pass over the outline's files: each outline file whose
/// normalized form matches a content file, and was not placed yet, places
/// that content file; the result is the placed list and the set of
/// normalized forms placed.
pub open spec fn ordered_by_toc(
    toc_files: Seq<Seq<char>>,
    files: Seq<String>,
    seen: Seq<Seq<char>>,
    acc: Seq<String>,
) -> (Seq<String>, Seq<Seq<char>>)
    decreases toc_files.len(),
{
    if toc_files.len() == 0 {
        (acc, seen)
    } else {
        let norm = crate::resolve::normalize_path_spec(toc_files[0]);
        let rest = toc_files.subrange(1, toc_files.len() as int);
        let k = last_match_index(files, norm);
        if k >= 0 && !seen.contains(norm) {
            ordered_by_toc(rest, files, seen.push(norm), acc.push(files[k]))
        } else {
            ordered_by_toc(rest, files, seen, acc)
        }
    }
}

/// The remainder pass: every content file whose normalized form was not
/// placed by the outline follows, in its own order.
pub open spec fn ordered_rest(files: Seq<String>, seen: Seq<Seq<char>>, acc: Seq<String>) -> Seq<
    String,
>
    decreases files.len(),
{
    if files.len() == 0 {
        acc
    } else {
        let rest = files.subrange(1, files.len() as int);
        if !seen.contains(crate::resolve::normalize_path_spec(files[0]@)) {
            ordered_rest(rest, seen, acc.push(files[0]))
        } else {
            ordered_rest(rest, seen, acc)
        }
    }
}

/// The reading order of the content files: without an outline, their own
/// order; with one, the files the outline names first, in outline order and
/// each once, then the rest.
pub open spec fn ordered_file_list_spec(files: Seq<String>, items: Seq<TocItem>) -> Seq<String> {
    if items.len() == 0 {
        files
    } else {
        let toc_files = toc_files_spec(items, Seq::empty());
        let placed = ordered_by_toc(toc_files, files, Seq::empty(), Seq::empty());
        ordered_rest(files, placed.1, placed.0)
    }
}

/// The last content file whose normalized form reads `norm`, if any.
fn find_last_match(files: &Vec<String>, norm: &String) -> (r: Option<usize>)
    ensures
        match r {
            Some(k) => k < files@.len() && last_match_index(files@, norm@) == k as int,
            None => last_match_index(files@, norm@) == -1,
        },
{
    let n = files.len();
    let mut j: usize = n;
    proof {
        assert(files@.subrange(0, n as int) =~= files@);
    }
    while j > 0
        invariant
            j <= n,
            n == files@.len(),
            last_match_index(files@, norm@) == last_match_index(files@.subrange(0, j as int), norm@),
        decreases j,
    {
        j = j - 1;
        let candidate = crate::resolve::normalize_path(files[j].as_str());
        proof {
            let pre = files@.subrange(0, j + 1);
            assert(pre.last() == files@[j as int]);
            assert(pre.drop_last() =~= files@.subrange(0, j as int));
        }
        if candidate.eq(norm) {
            return Some(j);
        }
    }
    proof {
        assert(files@.subrange(0, 0) =~= Seq::<String>::empty());
    }
    None
}

/// Orders the content files for reading: the files the outline names come
/// first, in outline order and each once, matched by normalized path; the
/// rest keep their own order. Without an outline the list is unchanged.
pub fn build_ordered_file_list(html_files: &Vec<String>, toc_items: &[TocItem]) -> (r: Vec<String>)
    ensures
        r@ == ordered_file_list_spec(html_files@, toc_items@),
{
    if toc_items.len() == 0 {
        let mut out: Vec<String> = Vec::new();
        let n = html_files.len();
        let mut i: usize = 0;
        while i < n
            invariant
                n == html_files@.len(),
                i <= n,
                out@ == html_files@.subrange(0, i as int),
            decreases n - i,
        {
            out.push(html_files[i].clone());
            proof {
                assert(out@ =~= html_files@.subrange(0, i + 1));
            }
            i = i + 1;
        }
        proof {
            assert(html_files@.subrange(0, n as int) =~= html_files@);
        }
        return out;
    }
    let mut toc_files: Vec<String> = Vec::new();
    proof {
        assert(toc_files.deep_view() =~= Seq::<Seq<char>>::empty());
    }
    collect_toc_files(toc_items, &mut toc_files);
    let mut ordered: Vec<String> = Vec::new();
    let mut seen: Vec<String> = Vec::new();
    let tn = toc_files.len();
    let mut i: usize = 0;
    proof {
        assert(toc_files.deep_view().subrange(0, tn as int) =~= toc_files.deep_view());
        assert(seen.deep_view() =~= Seq::<Seq<char>>::empty());
        assert(ordered@ =~= Seq::<String>::empty());
    }
    while i < tn
        invariant
            tn == toc_files@.len(),
            i <= tn,
            ordered_by_toc(toc_files.deep_view(), html_files@, Seq::empty(), Seq::empty())
                == ordered_by_toc(
                toc_files.deep_view().subrange(i as int, tn as int),
                html_files@,
                seen.deep_view(),
                ordered@,
            ),
        decreases tn - i,
    {
        let norm = crate::resolve::normalize_path(toc_files[i].as_str());
        let ghost rem = toc_files.deep_view().subrange(i as int, tn as int);
        proof {
            assert(rem[0] == toc_files.deep_view()[i as int]);
            assert(rem.subrange(1, rem.len() as int) =~= toc_files.deep_view().subrange(
                i + 1,
                tn as int,
            ));
        }
        let hit = find_last_match(html_files, &norm);
        if let Some(k) = hit {
            if !contains_string(&seen, norm.as_str()) {
                let ghost seen0 = seen.deep_view();
                let ghost ordered0 = ordered@;
                seen.push(norm);
                ordered.push(html_files[k].clone());
                proof {
                    assert(seen.deep_view() =~= seen0.push(
                        crate::resolve::normalize_path_spec(toc_files.deep_view()[i as int]),
                    ));
                    assert(ordered@ =~= ordered0.push(html_files@[k as int]));
                }
            }
        }
        i = i + 1;
    }
    proof {
        assert(toc_files.deep_view().subrange(tn as int, tn as int) =~= Seq::<Seq<char>>::empty());
    }
    let hn = html_files.len();
    let mut i: usize = 0;
    proof {
        assert(html_files@.subrange(0, hn as int) =~= html_files@);
    }
    while i < hn
        invariant
            hn == html_files@.len(),
            i <= hn,
            ordered_rest(
                html_files@,
                ordered_by_toc(
                    toc_files.deep_view(),
                    html_files@,
                    Seq::empty(),
                    Seq::empty(),
                ).1,
                ordered_by_toc(toc_files.deep_view(), html_files@, Seq::empty(), Seq::empty()).0,
            ) == ordered_rest(
                html_files@.subrange(i as int, hn as int),
                seen.deep_view(),
                ordered@,
            ),
            seen.deep_view() == ordered_by_toc(
                toc_files.deep_view(),
                html_files@,
                Seq::empty(),
                Seq::empty(),
            ).1,
        decreases hn - i,
    {
        let norm = crate::resolve::normalize_path(html_files[i].as_str());
        let ghost rem = html_files@.subrange(i as int, hn as int);
        proof {
            assert(rem[0] == html_files@[i as int]);
            assert(rem.subrange(1, rem.len() as int) =~= html_files@.subrange(i + 1, hn as int));
        }
        if !contains_string(&seen, norm.as_str()) {
            let ghost ordered0 = ordered@;
            ordered.push(html_files[i].clone());
            proof {
                assert(ordered@ =~= ordered0.push(html_files@[i as int]));
            }
        }
        i = i + 1;
    }
    proof {
        assert(html_files@.subrange(hn as int, hn as int) =~= Seq::<String>::empty());
    }
    ordered
}


/// What the markup converter extracted from one content file: flattened
/// text, headings, links, and anchor positions, all offsets relative to
/// the file's own text.
#[derive(Debug)]
pub struct ChmFileContent {
    pub text: String,
    pub headings: Vec<HeadingInfo>,
    pub links: Vec<LinkInfo>,
    pub id_positions: Vec<(String, usize)>,
}

/// One content file as assembly sees it: its archive path and, when it
/// could be read and converted, its content. A file that could not is
/// passed over in silence.
#[derive(Debug)]
pub struct ChmFileInput {
    pub path: String,
    pub content: Option<ChmFileContent>,
}

pub open spec fn chm_content_wf(c: ChmFileContent) -> bool {
    &&& forall|i: int|
        0 <= i < c.headings@.len() ==> (#[trigger] c.headings@[i]).offset <= c.text@.len()
    &&& forall|i: int| 0 <= i < c.links@.len() ==> (#[trigger] c.links@[i]).offset <= c.text@.len()
    &&& forall|i: int|
        0 <= i < c.id_positions@.len() ==> (#[trigger] c.id_positions@[i]).1 <= c.text@.len()
}

pub open spec fn chm_inputs_wf(items: Seq<ChmFileInput>) -> bool {
    forall|i: int|
        0 <= i < items.len() ==> ((#[trigger] items[i]).content matches Some(c) ==> chm_content_wf(
            c,
        ))
}

pub open spec fn chm_item_cost(item: ChmFileInput) -> nat {
    match item.content {
        Some(c) => c.text@.len() + 1,
        None => 0,
    }
}

pub open spec fn chm_total_cost(items: Seq<ChmFileInput>, n: int) -> nat
    decreases n,
{
    if n <= 0 {
        0
    } else {
        chm_total_cost(items, n - 1) + chm_item_cost(items[n - 1])
    }
}

/// The links of one file laid at absolute positions, each reference
/// resolved against the file it sits in.
pub open spec fn chm_link_recs(ls: Seq<LinkInfo>, start: int, path: Seq<char>) -> Seq<MarkerRec> {
    ls.map(
        |_i: int, l: LinkInfo|
            MarkerRec {
                marker_type: MarkerType::Link,
                position: start + l.offset,
                text: l.text@,
                reference: resolve_link_spec(path, l.reference@),
                level: 0,
            },
    )
}

/// Anchor ids bound under `normalized-path#id` to absolute positions.
pub open spec fn chm_ids_after(
    ids: Map<Seq<char>, usize>,
    entries: Seq<(String, usize)>,
    norm: Seq<char>,
    start: int,
) -> Map<Seq<char>, usize>
    decreases entries.len(),
{
    if entries.len() == 0 {
        ids
    } else {
        chm_ids_after(ids, entries.drop_last(), norm, start).insert(
            norm + seq!['#'] + entries.last().0@,
            (start + entries.last().1) as usize,
        )
    }
}

/// The assembly's state over the archive's content files.
pub struct ChmState {
    pub text: Seq<char>,
    pub markers: Seq<MarkerRec>,
    pub ids: Map<Seq<char>, usize>,
    pub files: Map<Seq<char>, usize>,
}

pub open spec fn chm_init() -> ChmState {
    ChmState { text: Seq::empty(), markers: Seq::empty(), ids: Map::empty(), files: Map::empty() }
}

/// How one content file advances the assembly: its normalized path is
/// bound to its start offset, its anchors to absolute positions, its text
/// appended with a closing newline, and its headings and links laid as
/// markers at absolute positions.
pub open spec fn chm_step(st: ChmState, item: ChmFileInput) -> ChmState {
    match item.content {
        None => st,
        Some(c) => {
            let start = st.text.len() as int;
            let norm = normalize_path_spec(item.path@);
            let text1 = st.text + c.text@;
            let text2 = if text1.len() > 0 && text1.last() == '\n' {
                text1
            } else {
                text1 + seq!['\n']
            };
            ChmState {
                text: text2,
                markers: st.markers + heading_recs(c.headings@, start) + chm_link_recs(
                    c.links@,
                    start,
                    item.path@,
                ),
                ids: chm_ids_after(st.ids, c.id_positions@, norm, start),
                files: st.files.insert(norm, start as usize),
            }
        },
    }
}

pub open spec fn chm_fold(items: Seq<ChmFileInput>, n: int) -> ChmState
    decreases n,
{
    if n <= 0 {
        chm_init()
    } else {
        chm_step(chm_fold(items, n - 1), items[n - 1])
    }
}

proof fn lemma_chm_total_mono(items: Seq<ChmFileInput>, a: int, b: int)
    requires
        a <= b,
    ensures
        chm_total_cost(items, a) <= chm_total_cost(items, b),
    decreases b - a,
{
    if a < b {
        lemma_chm_total_mono(items, a, b - 1);
    }
}

/// Assembles a compiled-HTML-help document from its extracted parts: each
/// readable content file contributes its text and markers at absolute
/// positions and binds its anchors; the outline's references are then
/// resolved against the file and anchor maps; the title falls back to the
/// file name when the archive's system record names none.
pub fn assemble_chm(
    file_path: &str,
    system_title: Option<String>,
    files: Vec<ChmFileInput>,
    toc_items: &[TocItem],
) -> (r: Document)
    requires
        chm_inputs_wf(files@),
        chm_total_cost(files@, files@.len() as int) <= usize::MAX,
    ensures
        ({
            let st = chm_fold(files@, files@.len() as int);
            &&& r.buffer.wf()
            &&& r.buffer.content@ == st.text
            &&& marker_recs_of(r.buffer.markers@) == st.markers
            &&& crate::document::marker_positions_valid(r.buffer)
            &&& r.id_positions@ == st.ids
            &&& crate::resolve::resolved_forest_ok(toc_items@, r.toc_items@, st.files, st.ids)
            &&& r.title@ == (match system_title {
                Some(t) => t@,
                None => crate::registry::file_stem_spec(file_path@),
            })
        }),
{
    let mut buffer = DocumentBuffer::new();
    let mut id_positions: StrMap<usize> = StrMap::new();
    let mut file_positions: StrMap<usize> = StrMap::new();
    let n = files.len();
    let mut i: usize = 0;
    while i < n
        invariant
            n == files@.len(),
            i <= n,
            chm_inputs_wf(files@),
            chm_total_cost(files@, n as int) <= usize::MAX,
            ({
                let st = chm_fold(files@, i as int);
                &&& buffer.wf()
                &&& buffer.content@ == st.text
                &&& marker_recs_of(buffer.markers@) == st.markers
                &&& crate::document::marker_positions_valid(buffer)
                &&& id_positions@ == st.ids
                &&& file_positions@ == st.files
                &&& st.text.len() <= chm_total_cost(files@, i as int)
            }),
        decreases n - i,
    {
        let ghost st = chm_fold(files@, i as int);
        proof {
            lemma_chm_total_mono(files@, i + 1, n as int);
            assert(chm_fold(files@, i + 1) == chm_step(st, files@[i as int]));
            assert(chm_total_cost(files@, i + 1) == chm_total_cost(files@, i as int)
                + chm_item_cost(files@[i as int]));
        }
        let item = &files[i];
        if let Some(content) = &item.content {
            let section_start = buffer.current_position();
            let ghost start = section_start as int;
            proof {
                assert(chm_item_cost(files@[i as int]) == content.text@.len() + 1);
                assert(start + content.text@.len() + 1 <= usize::MAX);
            }
            let normalized = crate::resolve::normalize_path(item.path.as_str());
            file_positions.insert(normalized.clone(), section_start);
            let en = content.id_positions.len();
            let mut k: usize = 0;
            while k < en
                invariant
                    en == content.id_positions@.len(),
                    k <= en,
                    chm_content_wf(*content),
                    start == st.text.len(),
                    section_start == start,
                    start + content.text@.len() + 1 <= usize::MAX,
                    normalized@ == normalize_path_spec(files@[i as int].path@),
                    id_positions@ == chm_ids_after(
                        st.ids,
                        content.id_positions@.subrange(0, k as int),
                        normalize_path_spec(files@[i as int].path@),
                        start,
                    ),
                decreases en - k,
            {
                let entry = &content.id_positions[k];
                let mut key = normalized.clone();
                key.append("#");
                key.append(entry.0.as_str());
                proof {
                    reveal_strlit("#");
                    assert(key@ =~= normalize_path_spec(files@[i as int].path@) + seq!['#']
                        + content.id_positions@[k as int].0@);
                    let pre = content.id_positions@.subrange(0, k + 1);
                    assert(pre.drop_last() =~= content.id_positions@.subrange(0, k as int));
                    assert(pre.last() == content.id_positions@[k as int]);
                }
                id_positions.insert(key, section_start + entry.1);
                k = k + 1;
            }
            proof {
                assert(content.id_positions@.subrange(0, en as int) =~= content.id_positions@);
            }
            buffer.append(content.text.as_str());
            let hn = content.headings.len();
            let mut k: usize = 0;
            while k < hn
                invariant
                    hn == content.headings@.len(),
                    k <= hn,
                    chm_content_wf(*content),
                    buffer.wf(),
                    buffer.content@ == st.text + content.text@,
                    start == st.text.len(),
                    section_start == start,
                    start + content.text@.len() + 1 <= usize::MAX,
                    marker_recs_of(buffer.markers@) =~= st.markers + heading_recs(
                        content.headings@.subrange(0, k as int),
                        start,
                    ),
                decreases hn - k,
            {
                let h = &content.headings[k];
                let ghost mrecs = marker_recs_of(buffer.markers@);
                buffer.add_marker(
                    Marker::new(
                        crate::epub::heading_marker_type(h.level),
                        section_start + h.offset,
                    ).with_text(h.text.clone()).with_level(h.level),
                );
                proof {
                    assert(marker_recs_of(buffer.markers@) =~= mrecs.push(
                        MarkerRec {
                            marker_type: crate::epub::heading_marker_type_spec(h.level),
                            position: start + h.offset,
                            text: h.text@,
                            reference: Seq::empty(),
                            level: h.level as int,
                        },
                    ));
                    assert(heading_recs(content.headings@.subrange(0, k + 1), start)
                        =~= heading_recs(content.headings@.subrange(0, k as int), start).push(
                        heading_recs(content.headings@, start)[k as int],
                    ));
                }
                k = k + 1;
            }
            proof {
                assert(content.headings@.subrange(0, hn as int) =~= content.headings@);
            }
            let ln = content.links.len();
            let mut k: usize = 0;
            while k < ln
                invariant
                    ln == content.links@.len(),
                    k <= ln,
                    chm_content_wf(*content),
                    buffer.wf(),
                    buffer.content@ == st.text + content.text@,
                    start == st.text.len(),
                    section_start == start,
                    start + content.text@.len() + 1 <= usize::MAX,
                    item == &files@[i as int],
                    marker_recs_of(buffer.markers@) =~= st.markers + heading_recs(
                        content.headings@,
                        start,
                    ) + chm_link_recs(
                        content.links@.subrange(0, k as int),
                        start,
                        files@[i as int].path@,
                    ),
                decreases ln - k,
            {
                let l = &content.links[k];
                let resolved = resolve_link(item.path.as_str(), l.reference.as_str());
                let ghost mrecs = marker_recs_of(buffer.markers@);
                let ghost rv = resolved@;
                buffer.add_marker(
                    Marker::new(MarkerType::Link, section_start + l.offset).with_text(
                        l.text.clone(),
                    ).with_reference(resolved),
                );
                proof {
                    assert(marker_recs_of(buffer.markers@) =~= mrecs.push(
                        MarkerRec {
                            marker_type: MarkerType::Link,
                            position: start + l.offset,
                            text: l.text@,
                            reference: rv,
                            level: 0,
                        },
                    ));
                    assert(chm_link_recs(
                        content.links@.subrange(0, k + 1),
                        start,
                        files@[i as int].path@,
                    ) =~= chm_link_recs(
                        content.links@.subrange(0, k as int),
                        start,
                        files@[i as int].path@,
                    ).push(chm_link_recs(content.links@, start, files@[i as int].path@)[k as int]));
                }
                k = k + 1;
            }
            proof {
                assert(content.links@.subrange(0, ln as int) =~= content.links@);
            }
            let endlen = buffer.current_position();
            let nl_needed = if endlen == 0 {
                true
            } else {
                buffer.content.as_str().get_char(endlen - 1) != '\n'
            };
            proof {
                reveal_strlit("\n");
            }
            if nl_needed {
                buffer.append("\n");
                proof {
                    assert(buffer.content@ =~= (st.text + content.text@) + seq!['\n']);
                }
            }
            proof {
                let st2 = chm_fold(files@, i + 1);
                assert(buffer.content@ == st2.text);
                assert(marker_recs_of(buffer.markers@) =~= st2.markers);
                assert forall|j: int| 0 <= j < buffer.markers@.len() implies (
                #[trigger] buffer.markers@[j]).position <= buffer.content@.len() by {
                    assert(marker_recs_of(buffer.markers@)[j] == crate::document::marker_rec_of(
                        buffer.markers@[j],
                    ));
                }
            }
        }
        i = i + 1;
    }
    let resolved_toc = crate::resolve::calculate_toc_offsets(
        toc_items,
        &file_positions,
        &id_positions,
    );
    let title = match system_title {
        Some(t) => t,
        None => crate::registry::file_stem_of(file_path),
    };
    let mut document = Document::new().with_title(title);
    document.set_buffer(buffer);
    document.id_positions = id_positions;
    document.toc_items = resolved_toc;
    document
}

} // verus!
