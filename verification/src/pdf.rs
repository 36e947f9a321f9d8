//! The PDF extractor's verified core: page text clean-up and the assembly
//! of page-break markers. The native PDF library itself is driven outside
//! the verified world and hands page text in as plain values.
use vstd::prelude::*;
use vstd::string::StrSliceExecFns;
use vstd::string::StringExecFns;

use crate::document::DocumentBuffer;
use crate::document::Marker;
use crate::document::MarkerRec;
use crate::document::MarkerType;
use crate::document::ParserFlags;
use crate::document::marker_recs_of;
use crate::textutil::collapse_whitespace;
use crate::textutil::collapse_whitespace_spec;
use crate::textutil::decimal_digits;
use crate::textutil::trim_string;
use crate::textutil::trim_string_spec;
use crate::textutil::usize_to_string;

verus! {

pub struct PdfParser;

impl PdfParser {
    /// The extractor's display name.
    pub fn name(&self) -> (r: &'static str)
        ensures
            r@ == "PDF Documents"@,
    {
        "PDF Documents"
    }

    /// The file extensions this extractor claims.
    pub fn extensions(&self) -> (r: Vec<&'static str>)
        ensures
            r@.len() == 1,
            r@[0]@ == "pdf"@,
    {
        let mut v = Vec::new();
        v.push("pdf");
        v
    }

    /// PDF supports pages and a native table of contents.
    pub fn supported_flags(&self) -> (r: ParserFlags)
        ensures
            r.bits == (crate::document::FLAG_PAGES | crate::document::FLAG_TOC),
    {
        ParserFlags::supports_pages().union(ParserFlags::supports_toc())
    }
}

/// One cleaned line: whitespace runs collapsed, then both ends trimmed.
pub open spec fn cleaned_line_spec(line: Seq<char>) -> Seq<char> {
    trim_string_spec(collapse_whitespace_spec(line))
}

/// The cleaned, non-empty lines of a page's raw text, where lines are
/// separated by newline characters.
pub open spec fn cleaned_lines_from(raw: Seq<char>, i: int) -> Seq<Seq<char>>
    decreases raw.len() - i,
    via lemma_cleaned_lines_decreases
{
    if i < 0 || i >= raw.len() {
        Seq::empty()
    } else {
        let j = crate::pdf::line_end(raw, i);
        let line = cleaned_line_spec(raw.subrange(i, j));
        let rest = if j < raw.len() {
            cleaned_lines_from(raw, j + 1)
        } else {
            Seq::empty()
        };
        if line.len() > 0 {
            seq![line] + rest
        } else {
            rest
        }
    }
}

/// The index of the newline ending the line that starts at `i`, or the end
/// of the text.
pub open spec fn line_end(raw: Seq<char>, i: int) -> int
    decreases raw.len() - i,
{
    if i < 0 || i >= raw.len() {
        raw.len() as int
    } else if raw[i] == '\n' {
        i
    } else {
        line_end(raw, i + 1)
    }
}

#[via_fn]
proof fn lemma_cleaned_lines_decreases(raw: Seq<char>, i: int) {
    if 0 <= i < raw.len() {
        lemma_line_end_bounds(raw, i);
    }
}

proof fn lemma_line_end_bounds(raw: Seq<char>, i: int)
    requires
        0 <= i <= raw.len(),
    ensures
        i <= line_end(raw, i) <= raw.len(),
    decreases raw.len() - i,
{
    if i < raw.len() && raw[i] != '\n' {
        lemma_line_end_bounds(raw, i + 1);
    }
}

/// Splits a page's raw text into lines, collapses whitespace runs within
/// each, trims it, and drops the lines that end up empty.
pub fn process_text_lines(raw_text: &str) -> (r: Vec<String>)
    ensures
        r.deep_view() == cleaned_lines_from(raw_text@, 0),
{
    let n: usize = raw_text.unicode_len();
    let mut out: Vec<String> = Vec::new();
    let mut i: usize = 0;
    while i < n
        invariant
            n == raw_text@.len(),
            i <= n,
            cleaned_lines_from(raw_text@, 0) == out.deep_view() + cleaned_lines_from(
                raw_text@,
                i as int,
            ),
        decreases n - i,
    {
        let mut j: usize = i;
        while j < n && raw_text.get_char(j) != '\n'
            invariant
                n == raw_text@.len(),
                i <= j <= n,
                line_end(raw_text@, i as int) == line_end(raw_text@, j as int),
            decreases n - j,
        {
            j = j + 1;
        }
        proof {
            assert(line_end(raw_text@, i as int) == j);
        }
        let line = raw_text.substring_char(i, j);
        let collapsed = collapse_whitespace(line);
        let trimmed = trim_string(collapsed.as_str());
        let ghost before = out.deep_view();
        let ghost lineg = cleaned_line_spec(raw_text@.subrange(i as int, j as int));
        if trimmed.unicode_len() > 0 {
            out.push(trimmed);
            proof {
                assert(out.deep_view() =~= before.push(lineg));
                assert(before.push(lineg) =~= before + seq![lineg]);
            }
        }
        proof {
            lemma_line_end_bounds(raw_text@, i as int);
            if j < n {
                assert(cleaned_lines_from(raw_text@, i as int) == if lineg.len() > 0 {
                    seq![lineg] + cleaned_lines_from(raw_text@, j + 1)
                } else {
                    cleaned_lines_from(raw_text@, j + 1)
                });
            } else {
                assert(cleaned_lines_from(raw_text@, i as int) == if lineg.len() > 0 {
                    seq![lineg] + Seq::<Seq<char>>::empty()
                } else {
                    Seq::<Seq<char>>::empty()
                });
                assert(cleaned_lines_from(raw_text@, n as int) =~= Seq::<Seq<char>>::empty());
            }
        }
        if j < n {
            i = j + 1;
        } else {
            i = n;
        }
    }
    out
}

/// The characters of a UTF-16 title buffer up to its terminator: the number
/// of written bytes gives the unit count, the final unit is the
/// terminator, and the text is what remains.
pub open spec fn title_units_spec(written_bytes: u32) -> int {
    written_bytes as int / 2 - 1
}

/// Names what `String::from_utf16_lossy` yields on the given units.
pub uninterp spec fn utf16_lossy_of(units: Seq<u16>) -> Seq<char>;

/// Relies on `String::from_utf16_lossy`: decodes UTF-16 units, replacing
/// unpaired surrogates.
#[verifier::external_body]
fn from_utf16_lossy(units: &[u16]) -> (r: String)
    ensures
        r@ == utf16_lossy_of(units@),
{
    String::from_utf16_lossy(units)
}

/// Cuts a native title buffer down to the units actually written, less the
/// terminator, and decodes them; a buffer of nothing but the terminator
/// yields nothing.
pub fn sanitize_utf16_buffer(buffer: &[u16], written_bytes: u32) -> (r: Option<String>)
    ensures
        match r {
            Some(s) => {
                &&& title_units_spec(written_bytes) > 0
                &&& title_units_spec(written_bytes) <= buffer@.len()
                &&& s@ == utf16_lossy_of(buffer@.subrange(0, title_units_spec(written_bytes)))
            },
            None => title_units_spec(written_bytes) <= 0 || title_units_spec(written_bytes)
                > buffer@.len(),
        },
{
    let units = written_bytes / 2;
    if units == 0 {
        return None;
    }
    let total_units = (units - 1) as usize;
    if total_units == 0 {
        return None;
    }
    if total_units > buffer.len() {
        return None;
    }
    Some(from_utf16_lossy(slice_prefix(buffer, total_units)))
}

/// Relies on slice range indexing: the elements before `to`.
#[verifier::external_body]
fn slice_prefix<'a>(s: &'a [u16], to: usize) -> (r: &'a [u16])
    requires
        to <= s@.len(),
    ensures
        r@ == s@.subrange(0, to as int),
{
    &s[..to]
}


/// The cleaned lines of a page laid into the flattened text, each closed
/// by a newline.
pub open spec fn lines_flat(lines: Seq<Seq<char>>) -> Seq<char>
    decreases lines.len(),
{
    if lines.len() == 0 {
        Seq::empty()
    } else {
        lines[0] + seq!['\n'] + lines_flat(lines.subrange(1, lines.len() as int))
    }
}

/// An upper bound on the text one page contributes.
pub open spec fn page_cost(page: Option<String>) -> nat {
    match page {
        None => 0,
        Some(t) => t@.len() + lines_count_bound(t@),
    }
}

/// The number of cleaned lines is at most the raw length plus one; each
/// line adds one newline, so this bounds the newlines added.
pub open spec fn lines_count_bound(raw: Seq<char>) -> nat {
    raw.len() + 1
}

pub open spec fn pages_total_cost(pages: Seq<Option<String>>, n: int) -> nat
    decreases n,
{
    if n <= 0 {
        0
    } else {
        pages_total_cost(pages, n - 1) + page_cost(pages[n - 1])
    }
}

/// The page assembly's state: the flattened text, the page-break markers,
/// and each page's start offset.
pub struct PdfState {
    pub text: Seq<char>,
    pub markers: Seq<MarkerRec>,
    pub offsets: Seq<usize>,
}

pub open spec fn page_break_rec(start: int, index: int) -> MarkerRec {
    MarkerRec {
        marker_type: MarkerType::PageBreak,
        position: start,
        text: "Page "@ + decimal_digits((index + 1) as nat),
        reference: Seq::empty(),
        level: 0,
    }
}

/// How one page advances the assembly: a page-break marker and the page's
/// start offset are recorded first; a page whose text was read contributes
/// its cleaned lines, each closed by a newline.
pub open spec fn pdf_step(st: PdfState, page: Option<String>, index: int) -> PdfState {
    let start = st.text.len() as int;
    let with_break = PdfState {
        text: st.text,
        markers: st.markers.push(page_break_rec(start, index)),
        offsets: st.offsets.push(start as usize),
    };
    match page {
        None => with_break,
        Some(raw) => PdfState {
            text: st.text + lines_flat(cleaned_lines_from(raw@, 0)),
            ..with_break
        },
    }
}

pub open spec fn pdf_fold(pages: Seq<Option<String>>, n: int) -> PdfState
    decreases n,
{
    if n <= 0 {
        PdfState { text: Seq::empty(), markers: Seq::empty(), offsets: Seq::empty() }
    } else {
        pdf_step(pdf_fold(pages, n - 1), pages[n - 1], n - 1)
    }
}

proof fn lemma_pages_total_mono(pages: Seq<Option<String>>, a: int, b: int)
    requires
        a <= b,
    ensures
        pages_total_cost(pages, a) <= pages_total_cost(pages, b),
    decreases b - a,
{
    if a < b {
        lemma_pages_total_mono(pages, a, b - 1);
    }
}

proof fn lemma_cleaned_lines_len(raw: Seq<char>, i: int)
    requires
        0 <= i <= raw.len(),
    ensures
        lines_flat(cleaned_lines_from(raw, i)).len() <= (raw.len() - i) + lines_count_bound(raw),
    decreases raw.len() - i,
{
    if i < raw.len() {
        lemma_line_end_bounds(raw, i);
        let j = line_end(raw, i);
        let line = cleaned_line_spec(raw.subrange(i, j));
        lemma_cleaned_line_len(raw.subrange(i, j));
        if j < raw.len() {
            lemma_cleaned_lines_len(raw, j + 1);
            let rest = cleaned_lines_from(raw, j + 1);
            if line.len() > 0 {
                assert((seq![line] + rest).subrange(1, (seq![line] + rest).len() as int) =~= rest);
            }
        } else {
            let rest = Seq::<Seq<char>>::empty();
            if line.len() > 0 {
                assert((seq![line] + rest).subrange(1, 1) =~= rest);
                assert(lines_flat(rest) =~= Seq::<char>::empty());
            } else {
                assert(lines_flat(cleaned_lines_from(raw, i)) =~= Seq::<char>::empty());
            }
        }
    }
}

proof fn lemma_cleaned_line_len(line: Seq<char>)
    ensures
        cleaned_line_spec(line).len() <= line.len(),
{
    lemma_collapse_len(line);
    let collapsed = collapse_whitespace_spec(line);
    crate::textutil::lemma_trim_len(collapsed);
}

proof fn lemma_collapse_len(line: Seq<char>)
    ensures
        collapse_whitespace_spec(line).len() <= line.len(),
{
    crate::textutil::lemma_first_non_space_bounds(line, 0);
    lemma_collapse_from_len(line, crate::textutil::first_non_space_at(line, 0), false);
}

proof fn lemma_collapse_from_len(s: Seq<char>, i: int, prev: bool)
    requires
        0 <= i <= s.len(),
    ensures
        crate::textutil::collapse_from(s, i, prev).len() <= s.len() - i,
    decreases s.len() - i,
{
    if i < s.len() {
        lemma_collapse_from_len(s, i + 1, true);
        lemma_collapse_from_len(s, i + 1, false);
    }
}

/// Lays a document's page texts into a buffer: each page opens with a
/// page-break marker at its start offset, recorded also in the returned
/// offset list; a page that could not be read leaves only its marker.
pub fn assemble_pdf_pages(pages: &Vec<Option<String>>) -> (r: (DocumentBuffer, Vec<usize>))
    requires
        pages_total_cost(pages@, pages@.len() as int) <= usize::MAX,
    ensures
        ({
            let st = pdf_fold(pages@, pages@.len() as int);
            &&& r.0.wf()
            &&& r.0.content@ == st.text
            &&& marker_recs_of(r.0.markers@) == st.markers
            &&& crate::document::marker_positions_valid(r.0)
            &&& r.1@ == st.offsets
        }),
{
    let mut buffer = DocumentBuffer::new();
    let mut offsets: Vec<usize> = Vec::new();
    let n = pages.len();
    let mut i: usize = 0;
    while i < n
        invariant
            n == pages@.len(),
            i <= n,
            pages_total_cost(pages@, n as int) <= usize::MAX,
            ({
                let st = pdf_fold(pages@, i as int);
                &&& buffer.wf()
                &&& buffer.content@ == st.text
                &&& marker_recs_of(buffer.markers@) == st.markers
                &&& crate::document::marker_positions_valid(buffer)
                &&& offsets@ == st.offsets
                &&& st.text.len() <= pages_total_cost(pages@, i as int)
            }),
        decreases n - i,
    {
        let ghost st = pdf_fold(pages@, i as int);
        proof {
            lemma_pages_total_mono(pages@, i + 1, n as int);
            assert(pdf_fold(pages@, i + 1) == pdf_step(st, pages@[i as int], i as int));
        }
        let marker_position = buffer.current_position();
        let ghost start = marker_position as int;
        let mut label = String::from_str("Page ");
        label.append(usize_to_string(i + 1).as_str());
        proof {
            reveal_strlit("Page ");
            assert(label@ == "Page "@ + decimal_digits((i + 1) as nat));
        }
        let ghost mrecs = marker_recs_of(buffer.markers@);
        buffer.add_marker(Marker::new(MarkerType::PageBreak, marker_position).with_text(label));
        offsets.push(marker_position);
        proof {
            assert(marker_recs_of(buffer.markers@) =~= mrecs.push(page_break_rec(start, i as int)));
        }
        if let Some(raw) = &pages[i] {
            proof {
                lemma_cleaned_lines_len(raw@, 0);
                assert(page_cost(pages@[i as int]) == raw@.len() + lines_count_bound(raw@));
            }
            let lines = process_text_lines(raw.as_str());
            let ghost all = lines.deep_view();
            let ln = lines.len();
            let mut k: usize = 0;
            proof {
                assert(all.subrange(0, ln as int) =~= all);
                assert(all.subrange(0, 0) =~= Seq::<Seq<char>>::empty());
                assert(lines_flat(all.subrange(0, 0)) =~= Seq::<char>::empty());
                assert(pages_total_cost(pages@, i + 1) == pages_total_cost(pages@, i as int)
                    + page_cost(pages@[i as int]));
            }
            while k < ln
                invariant
                    ln == lines@.len(),
                    all == lines.deep_view(),
                    k <= ln,
                    buffer.wf(),
                    marker_recs_of(buffer.markers@) == pdf_fold(pages@, i as int).markers.push(
                        page_break_rec(start, i as int),
                    ),
                    crate::document::marker_positions_valid(buffer),
                    buffer.content@ == pdf_fold(pages@, i as int).text + lines_flat(
                        all.subrange(0, k as int),
                    ),
                    buffer.content@.len() + lines_flat(
                        all.subrange(k as int, ln as int),
                    ).len() <= usize::MAX,
                decreases ln - k,
            {
                let ghost rem = all.subrange(k as int, ln as int);
                proof {
                    assert(rem[0] == all[k as int]);
                    assert(rem.subrange(1, rem.len() as int) =~= all.subrange(k + 1, ln as int));
                    assert(lines_flat(rem) == all[k as int] + seq!['\n'] + lines_flat(
                        all.subrange(k + 1, ln as int),
                    ));
                    reveal_strlit("\n");
                }
                buffer.append(lines[k].as_str());
                buffer.append("\n");
                proof {
                    assert(all.subrange(0, k + 1) =~= all.subrange(0, k as int).push(
                        all[k as int],
                    ));
                    lemma_lines_flat_snoc(all.subrange(0, k as int), all[k as int]);
                    assert(buffer.content@ =~= pdf_fold(pages@, i as int).text + lines_flat(
                        all.subrange(0, k + 1),
                    ));
                }
                k = k + 1;
            }
            proof {
                assert(all.subrange(0, ln as int) =~= all);
                assert(all.subrange(ln as int, ln as int) =~= Seq::<Seq<char>>::empty());
            }
        }
        i = i + 1;
    }
    (buffer, offsets)
}

/// Laying one more line is appending it and its newline at the end.
proof fn lemma_lines_flat_snoc(lines: Seq<Seq<char>>, line: Seq<char>)
    ensures
        lines_flat(lines.push(line)) == lines_flat(lines) + line + seq!['\n'],
    decreases lines.len(),
{
    if lines.len() == 0 {
        let one = lines.push(line);
        assert(one[0] == line);
        assert(one.subrange(1, 1) =~= Seq::<Seq<char>>::empty());
        assert(lines_flat(one.subrange(1, 1)) =~= Seq::<char>::empty());
        assert(lines_flat(one) =~= lines_flat(lines) + line + seq!['\n']);
    } else {
        let lp = lines.push(line);
        assert(lp[0] == lines[0]);
        assert(lp.subrange(1, lp.len() as int) =~= lines.subrange(1, lines.len() as int).push(
            line,
        ));
        lemma_lines_flat_snoc(lines.subrange(1, lines.len() as int), line);
        assert(lines_flat(lp) =~= lines_flat(lines) + line + seq!['\n']);
    }
}


pub const PDF_ERROR_PASSWORD: u32 = 4;

/// Translates the native PDF library's last-error code into the error
/// taxonomy: the password code becomes the distinguishable
/// password-required condition, any other non-zero code is reported with
/// the code behind the given message, and code zero keeps the message
/// alone.
pub fn map_pdfium_error(code: u32, default_message: &str) -> (r: crate::error::ParseError)
    ensures
        code == PDF_ERROR_PASSWORD ==> (r matches crate::error::ParseError::PasswordRequired(m)
            && m@ == "Password required or incorrect"@),
        code != PDF_ERROR_PASSWORD && code != 0 ==> (r
            matches crate::error::ParseError::OpenFailure(m) && m@ == default_message@
            + " (PDFium error code "@ + decimal_digits(code as nat) + ")"@),
        code == 0 ==> (r matches crate::error::ParseError::OpenFailure(m) && m@
            == default_message@),
{
    if code == PDF_ERROR_PASSWORD {
        crate::error::ParseError::PasswordRequired(
            String::from_str("Password required or incorrect"),
        )
    } else if code != 0 {
        let mut m = String::from_str(default_message);
        m.append(" (PDFium error code ");
        m.append(usize_to_string(code as usize).as_str());
        m.append(")");
        proof {
            assert(m@ =~= default_message@ + " (PDFium error code "@ + decimal_digits(
                code as nat,
            ) + ")"@);
        }
        crate::error::ParseError::OpenFailure(m)
    } else {
        crate::error::ParseError::OpenFailure(String::from_str(default_message))
    }
}

} // verus!
