//! The Word-document extractor's verified pieces: registry metadata, the
//! field-instruction hyperlink parser, and the digit scraper that reads a
//! heading level out of a style name.
use vstd::prelude::*;
use vstd::string::StrSliceExecFns;
use vstd::string::StringExecFns;

use crate::document::DocumentBuffer;
use crate::document::Marker;
use crate::document::MarkerRec;
use crate::document::MarkerType;
use crate::document::ParserFlags;
use crate::document::marker_recs_of;
use crate::strmap::StrMap;
use crate::textutil::trim_string;
use crate::textutil::trim_string_spec;

verus! {

pub struct DocxParser;

impl DocxParser {
    /// The extractor's display name.
    pub fn name(&self) -> (r: &'static str)
        ensures
            r@ == "Word Documents"@,
    {
        "Word Documents"
    }

    /// The file extensions this extractor claims.
    pub fn extensions(&self) -> (r: Vec<&'static str>)
        ensures
            r@.len() == 2,
            r@[0]@ == "docx"@,
            r@[1]@ == "docm"@,
    {
        let mut v = Vec::new();
        v.push("docx");
        v.push("docm");
        v
    }

    /// Word documents get a synthesized table of contents.
    pub fn supported_flags(&self) -> (r: ParserFlags)
        ensures
            r.bits == crate::document::FLAG_TOC,
    {
        ParserFlags::supports_toc()
    }
}

/// The first index at or after `i` holding `c`, or the length of `s`.
pub open spec fn index_of_from(s: Seq<char>, c: char, i: int) -> int
    decreases s.len() - i,
{
    if i < 0 || i >= s.len() {
        s.len() as int
    } else if s[i] == c {
        i
    } else {
        index_of_from(s, c, i + 1)
    }
}

/// The last index below `i` holding `c`, or minus one.
pub open spec fn last_index_of_before(s: Seq<char>, c: char, i: int) -> int
    decreases i,
{
    if i <= 0 || i > s.len() {
        -1
    } else if s[i - 1] == c {
        i - 1
    } else {
        last_index_of_before(s, c, i - 1)
    }
}

/// What a `HYPERLINK` field instruction targets: the text between the first
/// and the last double quote, prefixed with `#` when the instruction names
/// a local anchor with `\l`; nothing when the quotes are missing or
/// coincide.
pub open spec fn hyperlink_target_spec(s: Seq<char>) -> Seq<char> {
    let first = index_of_from(s, '"', 0);
    let last = last_index_of_before(s, '"', s.len() as int);
    if first < s.len() && first < last {
        let target = s.subrange(first + 1, last);
        if index_of_from(s, '\\', 0) + 1 < s.len() && exists|k: int|
            0 <= k < s.len() - 1 && #[trigger] s[k] == '\\' && s[k + 1] == 'l' {
            seq!['#'] + target
        } else {
            target
        }
    } else {
        Seq::empty()
    }
}

/// Whether the instruction holds the `\l` switch marking a local anchor.
fn has_local_switch(s: &str) -> (r: bool)
    ensures
        r == exists|k: int| 0 <= k < s@.len() - 1 && #[trigger] s@[k] == '\\' && s@[k + 1] == 'l',
{
    let n: usize = s.unicode_len();
    if n < 2 {
        return false;
    }
    let mut i: usize = 0;
    while i < n - 1
        invariant
            n == s@.len(),
            n >= 2,
            i <= n,
            forall|k: int| 0 <= k < i ==> !(#[trigger] s@[k] == '\\' && s@[k + 1] == 'l'),
        decreases n - i,
    {
        if s.get_char(i) == '\\' && s.get_char(i + 1) == 'l' {
            return true;
        }
        i = i + 1;
    }
    false
}

/// Reads the target of a `HYPERLINK` field instruction: the quoted string,
/// as a local `#anchor` when the `\l` switch is present.
pub fn parse_hyperlink_instruction(instruction: &str) -> (r: String)
    ensures
        r@ == hyperlink_target_spec(instruction@),
{
    let n: usize = instruction.unicode_len();
    let mut first: usize = 0;
    while first < n && instruction.get_char(first) != '"'
        invariant
            n == instruction@.len(),
            first <= n,
            index_of_from(instruction@, '"', 0) == index_of_from(instruction@, '"', first as int),
        decreases n - first,
    {
        first = first + 1;
    }
    proof {
        assert(index_of_from(instruction@, '"', 0) == first);
    }
    let mut last: usize = n;
    while last > 0 && instruction.get_char(last - 1) != '"'
        invariant
            n == instruction@.len(),
            last <= n,
            last_index_of_before(instruction@, '"', n as int) == last_index_of_before(
                instruction@,
                '"',
                last as int,
            ),
        decreases last,
    {
        last = last - 1;
    }
    proof {
        if last > 0 {
            assert(last_index_of_before(instruction@, '"', n as int) == last - 1);
        }
    }
    if first < n && last > 0 && first < last - 1 {
        let target = instruction.substring_char(first + 1, last - 1);
        if has_local_switch(instruction) {
            proof {
                lemma_backslash_index(instruction@);
            }
            let mut r = String::from_str("#");
            r.append(target);
            proof {
                reveal_strlit("#");
                assert(r@ =~= seq!['#'] + instruction@.subrange(first + 1, last - 1));
            }
            r
        } else {
            String::from_str(target)
        }
    } else {
        proof {
            if first < n {
                assert(instruction@[first as int] == '"');
                if last == 0 {
                    lemma_last_index_ge(instruction@, '"', first as int, n as int);
                    assert(false);
                }
            }
        }
        String::new()
    }
}

/// A `\l` switch implies the first backslash sits before the last
/// character.
proof fn lemma_backslash_index(s: Seq<char>)
    requires
        exists|k: int| 0 <= k < s.len() - 1 && #[trigger] s[k] == '\\' && s[k + 1] == 'l',
    ensures
        index_of_from(s, '\\', 0) + 1 < s.len(),
{
    let k = choose|k: int| 0 <= k < s.len() - 1 && s[k] == '\\' && #[trigger] s[k + 1] == 'l';
    lemma_index_of_le(s, '\\', 0, k);
}

/// The last index found lies below the scan's start.
pub proof fn lemma_last_index_bounds(s: Seq<char>, c: char, i: int)
    requires
        0 <= i <= s.len(),
    ensures
        -1 <= last_index_of_before(s, c, i) < i || (i == 0 && last_index_of_before(s, c, i) == -1),
        last_index_of_before(s, c, i) < i || last_index_of_before(s, c, i) == -1,
        -1 <= last_index_of_before(s, c, i),
    decreases i,
{
    if 0 < i <= s.len() && s[i - 1] != c {
        lemma_last_index_bounds(s, c, i - 1);
    }
}

proof fn lemma_last_index_ge(s: Seq<char>, c: char, k: int, i: int)
    requires
        0 <= k < i <= s.len(),
        s[k] == c,
    ensures
        last_index_of_before(s, c, i) >= k,
    decreases i,
{
    if i - 1 > k && s[i - 1] != c {
        lemma_last_index_ge(s, c, k, i - 1);
    }
}

proof fn lemma_index_of_le(s: Seq<char>, c: char, i: int, k: int)
    requires
        0 <= i <= k < s.len(),
        s[k] == c,
    ensures
        index_of_from(s, c, i) <= k,
    decreases k - i,
{
    if i < k && s[i] != c {
        lemma_index_of_le(s, c, i + 1, k);
    }
}

/// The number the ASCII digits of `s` spell from position `i` on, read
/// left to right on top of `acc`; nothing when no digit was seen or the
/// value leaves the `i32` range.
pub open spec fn digits_value_from(s: Seq<char>, i: int, acc: int, seen: bool) -> Option<int>
    decreases s.len() - i,
{
    if i < 0 || i >= s.len() {
        if seen {
            Some(acc)
        } else {
            None
        }
    } else if '0' <= s[i] && s[i] <= '9' {
        let d = s[i] as u32 - '0' as u32;
        if acc * 10 + d > 0x7FFF_FFFF {
            None
        } else {
            digits_value_from(s, i + 1, acc * 10 + d, true)
        }
    } else {
        digits_value_from(s, i + 1, acc, seen)
    }
}

/// Collects the ASCII digits of `s` and parses them as a number; `None`
/// when there is no digit or the value leaves the `i32` range.
pub fn extract_number_from_string(s: &str) -> (r: Option<i32>)
    ensures
        match r {
            Some(v) => digits_value_from(s@, 0, 0, false) == Some(v as int),
            None => digits_value_from(s@, 0, 0, false) is None,
        },
{
    let n: usize = s.unicode_len();
    let mut acc: i32 = 0;
    let mut seen = false;
    let mut i: usize = 0;
    while i < n
        invariant
            n == s@.len(),
            i <= n,
            0 <= acc,
            digits_value_from(s@, 0, 0, false) == digits_value_from(
                s@,
                i as int,
                acc as int,
                seen,
            ),
        decreases n - i,
    {
        let c = s.get_char(i);
        if '0' <= c && c <= '9' {
            let d = (c as u32 - 48) as i32;
            proof {
                assert(c as u32 - '0' as u32 == d);
            }
            if acc < 214748364 || (acc == 214748364 && d <= 7) {
                acc = acc * 10 + d;
                seen = true;
            } else {
                proof {
                    assert(acc as int * 10 + d > 0x7FFF_FFFF);
                }
                return None;
            }
        }
        i = i + 1;
    }
    if seen {
        Some(acc)
    } else {
        None
    }
}


/// One run of a paragraph: its text and the heading level its character
/// style names, zero when it names none.
#[derive(Debug, Clone)]
pub struct RunPiece {
    pub text: String,
    pub heading_level: i32,
}

/// One piece of a paragraph, in document order, as the tree walk hands
/// them over.
#[derive(Debug)]
pub enum ParagraphPiece {
    /// The paragraph's own style named this heading level.
    Style { heading_level: i32 },
    /// A bookmark anchors this position under its name.
    Bookmark { name: String },
    /// A hyperlink over its runs, with its resolved target (possibly
    /// empty, in which case only the text is kept).
    Hyperlink { target: String, runs: Vec<RunPiece> },
    /// A field instruction named a link target, shown with this display
    /// text.
    FieldLink { target: String, display: String },
    /// An ordinary run.
    Run(RunPiece),
}

/// The text of a row of runs, concatenated.
pub open spec fn runs_text(runs: Seq<RunPiece>) -> Seq<char>
    decreases runs.len(),
{
    if runs.len() == 0 {
        Seq::empty()
    } else {
        runs_text(runs.drop_last()) + runs.last().text@
    }
}

/// An upper bound on the text one piece can add.
pub open spec fn piece_cost(piece: ParagraphPiece) -> nat {
    match piece {
        ParagraphPiece::Style { .. } => 0,
        ParagraphPiece::Bookmark { .. } => 0,
        ParagraphPiece::Hyperlink { runs, .. } => runs_text(runs@).len(),
        ParagraphPiece::FieldLink { display, .. } => display@.len(),
        ParagraphPiece::Run(r) => r.text@.len(),
    }
}

pub open spec fn pieces_cost(pieces: Seq<ParagraphPiece>, n: int) -> nat
    decreases n,
{
    if n <= 0 {
        0
    } else {
        pieces_cost(pieces, n - 1) + piece_cost(pieces[n - 1])
    }
}

/// The paragraph assembly's running state: the paragraph text gathered so
/// far, the link markers and anchors recorded against it, the heading
/// level chosen, and whether the paragraph's own style chose it.
pub struct DocxParaState {
    pub text: Seq<char>,
    pub markers: Seq<MarkerRec>,
    pub ids: Map<Seq<char>, usize>,
    pub heading_level: i32,
    pub para_style: bool,
}

pub open spec fn docx_para_init(ids: Map<Seq<char>, usize>) -> DocxParaState {
    DocxParaState {
        text: Seq::empty(),
        markers: Seq::empty(),
        ids,
        heading_level: 0,
        para_style: false,
    }
}

/// How one piece advances the paragraph: a style piece takes the heading
/// level; a bookmark anchors the current position; a hyperlink lays its
/// marker (when it has a target) and its text; a field link likewise; an
/// ordinary run adds its text and may supply the heading level when none
/// was chosen yet.
pub open spec fn docx_para_step(st: DocxParaState, piece: ParagraphPiece, start: int) -> DocxParaState {
    match piece {
        ParagraphPiece::Style { heading_level } => DocxParaState {
            heading_level,
            para_style: st.para_style || heading_level > 0,
            ..st
        },
        ParagraphPiece::Bookmark { name } => DocxParaState {
            ids: st.ids.insert(name@, (start + st.text.len()) as usize),
            ..st
        },
        ParagraphPiece::Hyperlink { target, runs } => {
            let ltext = runs_text(runs@);
            if ltext.len() == 0 {
                st
            } else {
                DocxParaState {
                    markers: if target@.len() > 0 {
                        st.markers.push(
                            MarkerRec {
                                marker_type: MarkerType::Link,
                                position: start + st.text.len(),
                                text: ltext,
                                reference: target@,
                                level: 0,
                            },
                        )
                    } else {
                        st.markers
                    },
                    text: st.text + ltext,
                    ..st
                }
            }
        },
        ParagraphPiece::FieldLink { target, display } => {
            if target@.len() > 0 && display@.len() > 0 {
                DocxParaState {
                    markers: st.markers.push(
                        MarkerRec {
                            marker_type: MarkerType::Link,
                            position: start + st.text.len(),
                            text: display@,
                            reference: target@,
                            level: 0,
                        },
                    ),
                    text: st.text + display@,
                    ..st
                }
            } else {
                st
            }
        },
        ParagraphPiece::Run(r) => DocxParaState {
            heading_level: if st.heading_level == 0 {
                r.heading_level
            } else {
                st.heading_level
            },
            text: st.text + r.text@,
            ..st
        },
    }
}

pub open spec fn docx_para_fold(
    pieces: Seq<ParagraphPiece>,
    ids: Map<Seq<char>, usize>,
    start: int,
    n: int,
) -> DocxParaState
    decreases n,
{
    if n <= 0 {
        docx_para_init(ids)
    } else {
        docx_para_step(docx_para_fold(pieces, ids, start, n - 1), pieces[n - 1], start)
    }
}

/// The text of the runs whose character style names exactly `level`, in
/// document order, hyperlink runs included.
pub open spec fn level_runs_text(pieces: Seq<ParagraphPiece>, level: i32, n: int) -> Seq<char>
    decreases n,
{
    if n <= 0 {
        Seq::empty()
    } else {
        level_runs_text(pieces, level, n - 1) + (match pieces[n - 1] {
            ParagraphPiece::Run(r) => if r.heading_level == level {
                r.text@
            } else {
                Seq::empty()
            },
            ParagraphPiece::Hyperlink { runs, .. } => matching_runs_text(runs@, level),
            _ => Seq::empty(),
        })
    }
}

pub open spec fn matching_runs_text(runs: Seq<RunPiece>, level: i32) -> Seq<char>
    decreases runs.len(),
{
    if runs.len() == 0 {
        Seq::empty()
    } else {
        matching_runs_text(runs.drop_last(), level) + (if runs.last().heading_level == level {
            runs.last().text@
        } else {
            Seq::empty()
        })
    }
}

/// The heading text the finished paragraph records: the trimmed paragraph
/// text when the paragraph's own style chose the level, else the trimmed
/// text of the runs styled at that level.
pub open spec fn docx_heading_text(
    pieces: Seq<ParagraphPiece>,
    st: DocxParaState,
) -> Seq<char> {
    if st.para_style {
        trim_string_spec(st.text)
    } else {
        trim_string_spec(level_runs_text(pieces, st.heading_level, pieces.len() as int))
    }
}

proof fn lemma_pieces_cost_mono(pieces: Seq<ParagraphPiece>, a: int, b: int)
    requires
        a <= b,
    ensures
        pieces_cost(pieces, a) <= pieces_cost(pieces, b),
    decreases b - a,
{
    if a < b {
        lemma_pieces_cost_mono(pieces, a, b - 1);
    }
}

/// Concatenates the runs of a row, proving the concatenation exact.
fn concat_runs(runs: &Vec<RunPiece>) -> (r: String)
    ensures
        r@ == runs_text(runs@),
{
    let mut out = String::new();
    let n = runs.len();
    let mut k: usize = 0;
    while k < n
        invariant
            n == runs@.len(),
            k <= n,
            out@ == runs_text(runs@.subrange(0, k as int)),
        decreases n - k,
    {
        out.append(runs[k].text.as_str());
        proof {
            let pre = runs@.subrange(0, k + 1);
            assert(pre.drop_last() =~= runs@.subrange(0, k as int));
            assert(pre.last() == runs@[k as int]);
        }
        k = k + 1;
    }
    proof {
        assert(runs@.subrange(0, n as int) =~= runs@);
    }
    out
}

/// Concatenates the runs of a row styled at `level`.
fn concat_level_runs(runs: &Vec<RunPiece>, level: i32) -> (r: String)
    ensures
        r@ == matching_runs_text(runs@, level),
{
    let mut out = String::new();
    let n = runs.len();
    let mut k: usize = 0;
    while k < n
        invariant
            n == runs@.len(),
            k <= n,
            out@ == matching_runs_text(runs@.subrange(0, k as int), level),
        decreases n - k,
    {
        proof {
            let pre = runs@.subrange(0, k + 1);
            assert(pre.drop_last() =~= runs@.subrange(0, k as int));
            assert(pre.last() == runs@[k as int]);
        }
        if runs[k].heading_level == level {
            out.append(runs[k].text.as_str());
        }
        k = k + 1;
    }
    proof {
        assert(runs@.subrange(0, n as int) =~= runs@);
    }
    out
}

/// Lays one paragraph into the buffer: the pieces build the paragraph
/// text with link markers and anchors at absolute positions; the trimmed
/// text and a closing newline are appended; a chosen heading level whose
/// heading text is non-empty records a heading marker at the paragraph's
/// start.
pub fn assemble_docx_paragraph(
    buffer: &mut DocumentBuffer,
    id_positions: &mut StrMap<usize>,
    pieces: &Vec<ParagraphPiece>,
) -> (heading: Option<i32>)
    requires
        old(buffer).spec_position() + pieces_cost(pieces@, pieces@.len() as int) + 1
            <= usize::MAX,
    ensures
        ({
            let start = old(buffer).spec_position() as int;
            let st = docx_para_fold(pieces@, old(id_positions)@, start, pieces@.len() as int);
            let trimmed = trim_string_spec(st.text);
            let ht = docx_heading_text(pieces@, st);
            let with_heading = st.heading_level > 0 && trimmed.len() > 0 && ht.len() > 0;
            &&& final(buffer).content@ == old(buffer).content@ + trimmed + seq!['\n']
            &&& final(buffer).spec_position() == old(buffer).spec_position() + trimmed.len() + 1
            &&& old(buffer).wf() ==> final(buffer).wf()
            &&& final(id_positions)@ == st.ids
            &&& marker_recs_of(final(buffer).markers@) == marker_recs_of(old(buffer).markers@)
                + st.markers + (if with_heading {
                seq![
                    MarkerRec {
                        marker_type: crate::epub::heading_marker_type_spec(st.heading_level),
                        position: start,
                        text: ht,
                        reference: Seq::empty(),
                        level: st.heading_level as int,
                    },
                ]
            } else {
                Seq::empty()
            })
            &&& heading == (if with_heading {
                Some(st.heading_level)
            } else {
                None::<i32>
            })
        }),
{
    let paragraph_start = buffer.current_position();
    let ghost start = paragraph_start as int;
    let ghost mrecs0 = marker_recs_of(old(buffer).markers@);
    let mut paragraph_text = String::new();
    let mut heading_level: i32 = 0;
    let mut para_style = false;
    let n = pieces.len();
    let mut i: usize = 0;
    while i < n
        invariant
            n == pieces@.len(),
            i <= n,
            paragraph_start == start,
            old(buffer).spec_position() + pieces_cost(pieces@, n as int) + 1 <= usize::MAX,
            start == old(buffer).spec_position(),
            buffer.content == old(buffer).content,
            buffer.spec_position() == old(buffer).spec_position(),
            buffer.wf() == old(buffer).wf(),
            mrecs0 == marker_recs_of(old(buffer).markers@),
            ({
                let st = docx_para_fold(pieces@, old(id_positions)@, start, i as int);
                &&& paragraph_text@ == st.text
                &&& marker_recs_of(buffer.markers@) == mrecs0 + st.markers
                &&& id_positions@ == st.ids
                &&& heading_level == st.heading_level
                &&& para_style == st.para_style
                &&& st.text.len() <= pieces_cost(pieces@, i as int)
            }),
        decreases n - i,
    {
        let ghost st = docx_para_fold(pieces@, old(id_positions)@, start, i as int);
        proof {
            lemma_pieces_cost_mono(pieces@, i + 1, n as int);
            assert(docx_para_fold(pieces@, old(id_positions)@, start, i + 1) == docx_para_step(
                st,
                pieces@[i as int],
                start,
            ));
            assert(pieces_cost(pieces@, i + 1) == pieces_cost(pieces@, i as int) + piece_cost(
                pieces@[i as int],
            ));
        }
        let piece = &pieces[i];
        match piece {
            ParagraphPiece::Style { heading_level: level } => {
                heading_level = *level;
                if *level > 0 {
                    para_style = true;
                }
            },
            ParagraphPiece::Bookmark { name } => {
                let pos = paragraph_start + paragraph_text.as_str().unicode_len();
                id_positions.insert(name.clone(), pos);
            },
            ParagraphPiece::Hyperlink { target, runs } => {
                let ltext = concat_runs(runs);
                if ltext.as_str().unicode_len() > 0 {
                    let link_offset = paragraph_start + paragraph_text.as_str().unicode_len();
                    let ghost pend0 = marker_recs_of(buffer.markers@);
                    if target.as_str().unicode_len() > 0 {
                        buffer.add_marker(
                            Marker::new(MarkerType::Link, link_offset).with_text(
                                ltext.clone(),
                            ).with_reference(target.clone()),
                        );
                        proof {
                            assert(marker_recs_of(buffer.markers@) =~= pend0.push(
                                MarkerRec {
                                    marker_type: MarkerType::Link,
                                    position: start + st.text.len(),
                                    text: runs_text(runs@),
                                    reference: target@,
                                    level: 0,
                                },
                            ));
                        }
                    }
                    paragraph_text.append(ltext.as_str());
                }
            },
            ParagraphPiece::FieldLink { target, display } => {
                if target.as_str().unicode_len() > 0 && display.as_str().unicode_len() > 0 {
                    let link_offset = paragraph_start + paragraph_text.as_str().unicode_len();
                    let ghost pend0 = marker_recs_of(buffer.markers@);
                    buffer.add_marker(
                        Marker::new(MarkerType::Link, link_offset).with_text(
                            display.clone(),
                        ).with_reference(target.clone()),
                    );
                    proof {
                        assert(marker_recs_of(buffer.markers@) =~= pend0.push(
                            MarkerRec {
                                marker_type: MarkerType::Link,
                                position: start + st.text.len(),
                                text: display@,
                                reference: target@,
                                level: 0,
                            },
                        ));
                    }
                    paragraph_text.append(display.as_str());
                }
            },
            ParagraphPiece::Run(r) => {
                if heading_level == 0 {
                    heading_level = r.heading_level;
                }
                paragraph_text.append(r.text.as_str());
            },
        }
        i = i + 1;
    }
    let ghost st = docx_para_fold(pieces@, old(id_positions)@, start, n as int);
    let trimmed = trim_string(paragraph_text.as_str());
    proof {
        crate::textutil::lemma_trim_len(st.text);
        reveal_strlit("\n");
    }
    buffer.append(trimmed.as_str());
    buffer.append("\n");
    proof {
        assert(buffer.content@ =~= old(buffer).content@ + trim_string_spec(st.text) + seq![
            '\n',
        ]);
    }
    if heading_level > 0 && trimmed.as_str().unicode_len() > 0 {
        let heading_text: String = if para_style {
            trimmed
        } else {
            let mut acc = String::new();
            let mut k: usize = 0;
            while k < n
                invariant
                    n == pieces@.len(),
                    k <= n,
                    acc@ == level_runs_text(pieces@, heading_level, k as int),
                decreases n - k,
            {
                match &pieces[k] {
                    ParagraphPiece::Run(r) => {
                        if r.heading_level == heading_level {
                            acc.append(r.text.as_str());
                        }
                    },
                    ParagraphPiece::Hyperlink { runs, .. } => {
                        let part = concat_level_runs(runs, heading_level);
                        acc.append(part.as_str());
                    },
                    _ => {},
                }
                proof {
                    assert(acc@ =~= level_runs_text(pieces@, heading_level, k + 1));
                }
                k = k + 1;
            }
            trim_string(acc.as_str())
        };
        if heading_text.as_str().unicode_len() > 0 {
            let ghost pend0 = marker_recs_of(buffer.markers@);
            let level = heading_level;
            buffer.add_marker(
                Marker::new(crate::epub::heading_marker_type(level), paragraph_start).with_text(
                    heading_text,
                ).with_level(level),
            );
            proof {
                assert(marker_recs_of(buffer.markers@) =~= pend0.push(
                    MarkerRec {
                        marker_type: crate::epub::heading_marker_type_spec(st.heading_level),
                        position: start,
                        text: docx_heading_text(pieces@, st),
                        reference: Seq::empty(),
                        level: st.heading_level as int,
                    },
                ));
            }
            Some(level)
        } else {
            proof {
                assert(marker_recs_of(buffer.markers@) =~= mrecs0 + st.markers + Seq::<
                    MarkerRec,
                >::empty());
            }
            None
        }
    } else {
        proof {
            assert(marker_recs_of(buffer.markers@) =~= mrecs0 + st.markers + Seq::<
                MarkerRec,
            >::empty());
        }
        None
    }
}

} // verus!
