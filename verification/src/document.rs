//! The document model: typed markers over a position-tracked text buffer,
//! the navigation outline, derived statistics, and the context a parse call
//! receives. Positions are always display positions: counts of characters,
//! never of raw bytes.
use vstd::prelude::*;
use vstd::string::StrSliceExecFns;
use vstd::string::StringExecFns;

use crate::strmap::StrMap;
use crate::textutil::display_len;
use crate::textutil::is_space_char;

verus! {

/// The kind of an annotation recorded against the flattened text.
#[derive(Clone, Copy, Debug, PartialEq, Eq, Structural)]
pub enum MarkerType {
    Heading1,
    Heading2,
    Heading3,
    Heading4,
    Heading5,
    Heading6,
    PageBreak,
    SectionBreak,
    TocItem,
    Link,
    List,
    ListItem,
}

pub open spec fn marker_type_int(t: MarkerType) -> i32 {
    match t {
        MarkerType::Heading1 => 0,
        MarkerType::Heading2 => 1,
        MarkerType::Heading3 => 2,
        MarkerType::Heading4 => 3,
        MarkerType::Heading5 => 4,
        MarkerType::Heading6 => 5,
        MarkerType::PageBreak => 6,
        MarkerType::SectionBreak => 7,
        MarkerType::TocItem => 8,
        MarkerType::Link => 9,
        MarkerType::List => 10,
        MarkerType::ListItem => 11,
    }
}

pub open spec fn marker_type_of_int(value: i32) -> Option<MarkerType> {
    if value == 0 {
        Some(MarkerType::Heading1)
    } else if value == 1 {
        Some(MarkerType::Heading2)
    } else if value == 2 {
        Some(MarkerType::Heading3)
    } else if value == 3 {
        Some(MarkerType::Heading4)
    } else if value == 4 {
        Some(MarkerType::Heading5)
    } else if value == 5 {
        Some(MarkerType::Heading6)
    } else if value == 6 {
        Some(MarkerType::PageBreak)
    } else if value == 7 {
        Some(MarkerType::SectionBreak)
    } else if value == 8 {
        Some(MarkerType::TocItem)
    } else if value == 9 {
        Some(MarkerType::Link)
    } else if value == 10 {
        Some(MarkerType::List)
    } else if value == 11 {
        Some(MarkerType::ListItem)
    } else {
        None
    }
}

impl MarkerType {
    /// The wire number of this marker type.
    pub fn to_int(&self) -> (r: i32)
        ensures
            r == marker_type_int(*self),
    {
        match self {
            MarkerType::Heading1 => 0,
            MarkerType::Heading2 => 1,
            MarkerType::Heading3 => 2,
            MarkerType::Heading4 => 3,
            MarkerType::Heading5 => 4,
            MarkerType::Heading6 => 5,
            MarkerType::PageBreak => 6,
            MarkerType::SectionBreak => 7,
            MarkerType::TocItem => 8,
            MarkerType::Link => 9,
            MarkerType::List => 10,
            MarkerType::ListItem => 11,
        }
    }

    /// The marker type a wire number denotes, if any.
    pub fn from_int(value: i32) -> (r: Option<MarkerType>)
        ensures
            r == marker_type_of_int(value),
    {
        if value == 0 {
            Some(MarkerType::Heading1)
        } else if value == 1 {
            Some(MarkerType::Heading2)
        } else if value == 2 {
            Some(MarkerType::Heading3)
        } else if value == 3 {
            Some(MarkerType::Heading4)
        } else if value == 4 {
            Some(MarkerType::Heading5)
        } else if value == 5 {
            Some(MarkerType::Heading6)
        } else if value == 6 {
            Some(MarkerType::PageBreak)
        } else if value == 7 {
            Some(MarkerType::SectionBreak)
        } else if value == 8 {
            Some(MarkerType::TocItem)
        } else if value == 9 {
            Some(MarkerType::Link)
        } else if value == 10 {
            Some(MarkerType::List)
        } else if value == 11 {
            Some(MarkerType::ListItem)
        } else {
            None
        }
    }
}

/// Round trip between a marker type and its wire number: decoding what
/// `to_int` produced gives the type back.
pub proof fn lemma_marker_type_int_round_trip(t: MarkerType)
    ensures
        marker_type_of_int(marker_type_int(t)) == Some(t),
{
}

/// A positioned annotation over the flattened text.
#[derive(Debug, Clone)]
pub struct Marker {
    pub marker_type: MarkerType,
    pub position: usize,
    pub text: String,
    pub reference: String,
    pub level: i32,
}

impl Marker {
    /// A marker of the given kind at the given display position, with empty
    /// text and reference and level zero.
    pub fn new(marker_type: MarkerType, position: usize) -> (r: Self)
        ensures
            r.marker_type == marker_type,
            r.position == position,
            r.text@ == Seq::<char>::empty(),
            r.reference@ == Seq::<char>::empty(),
            r.level == 0,
    {
        Marker { marker_type, position, text: String::new(), reference: String::new(), level: 0 }
    }

    /// The same marker with its text replaced.
    pub fn with_text(self, text: String) -> (r: Self)
        ensures
            r == (Marker { text, ..self }),
    {
        Marker { text, ..self }
    }

    /// The same marker with its raw reference replaced.
    pub fn with_reference(self, reference: String) -> (r: Self)
        ensures
            r == (Marker { reference, ..self }),
    {
        Marker { reference, ..self }
    }

    /// The same marker with its level replaced.
    pub fn with_level(self, level: i32) -> (r: Self)
        ensures
            r == (Marker { level, ..self }),
    {
        Marker { level, ..self }
    }
}

/// The flattened text under construction, with its ordered markers and a
/// running display-position counter.
#[derive(Debug, Clone)]
pub struct DocumentBuffer {
    pub content: String,
    pub markers: Vec<Marker>,
    pub content_display_len: usize,
}

impl DocumentBuffer {
    /// The buffer's running counter.
    pub open spec fn spec_position(self) -> usize {
        self.content_display_len
    }

    /// The counter agrees with the display length of the content; every
    /// buffer the methods below build keeps this.
    pub open spec fn wf(self) -> bool {
        self.content_display_len == self.content@.len()
    }

    /// An empty buffer at position zero.
    pub fn new() -> (r: Self)
        ensures
            r.wf(),
            r.content@ == Seq::<char>::empty(),
            r.markers@ == Seq::<Marker>::empty(),
            r.spec_position() == 0,
    {
        DocumentBuffer { content: String::new(), markers: Vec::new(), content_display_len: 0 }
    }

    /// A buffer holding `content`, at the position its display length gives,
    /// with no markers.
    pub fn with_content(content: String) -> (r: Self)
        ensures
            r.wf(),
            r.content@ == content@,
            r.markers@ == Seq::<Marker>::empty(),
            r.spec_position() == content@.len(),
    {
        let len = display_len(content.as_str());
        DocumentBuffer { content, markers: Vec::new(), content_display_len: len }
    }

    /// Records a marker. Neither the text nor the position counter moves.
    pub fn add_marker(&mut self, marker: Marker)
        ensures
            final(self).markers@ == old(self).markers@.push(marker),
            final(self).content == old(self).content,
            final(self).spec_position() == old(self).spec_position(),
            old(self).wf() ==> final(self).wf(),
    {
        self.markers.push(marker);
    }

    /// Concatenates `text` to the content and advances the position by the
    /// display length of `text`: the old content stays a prefix of the new
    /// one. Markers are untouched; no recorded position changes. Only the
    /// machine limit on the position counter is asked of the caller.
    pub fn append(&mut self, text: &str)
        requires
            old(self).spec_position() + text@.len() <= usize::MAX,
        ensures
            final(self).content@ == old(self).content@ + text@,
            final(self).markers@ == old(self).markers@,
            final(self).spec_position() == old(self).spec_position() + text@.len(),
            old(self).wf() ==> final(self).wf(),
    {
        self.content.append(text);
        self.content_display_len = self.content_display_len + display_len(text);
    }

    /// The current display position: the display length of everything
    /// appended so far.
    pub fn current_position(&self) -> (r: usize)
        ensures
            r == self.spec_position(),
            self.wf() ==> r == self.content@.len(),
    {
        self.content_display_len
    }
}

/// Every marker position stays within a text of display length `limit`.
pub open spec fn markers_within(markers: Seq<Marker>, limit: nat) -> bool {
    forall|i: int| 0 <= i < markers.len() ==> (#[trigger] markers[i]).position <= limit
}

/// All marker positions of the buffer lie within its content.
pub open spec fn marker_positions_valid(b: DocumentBuffer) -> bool {
    markers_within(b.markers@, b.content@.len())
}

/// Marker validity survives growth of the text: a marker that points into
/// the text goes on pointing into it after more text is appended.
pub proof fn lemma_markers_within_grows(markers: Seq<Marker>, shorter: nat, longer: nat)
    requires
        markers_within(markers, shorter),
        shorter <= longer,
    ensures
        markers_within(markers, longer),
{
}

/// Marker validity survives recording a marker at or before the current end
/// of the text.
pub proof fn lemma_markers_within_push(markers: Seq<Marker>, limit: nat, m: Marker)
    requires
        markers_within(markers, limit),
        m.position <= limit,
    ensures
        markers_within(markers.push(m), limit),
{
    assert forall|i: int| 0 <= i < markers.push(m).len() implies (#[trigger] markers.push(
        m,
    )[i]).position <= limit by {
        if i < markers.len() {
            assert(markers.push(m)[i] == markers[i]);
        }
    }
}

/// The model of a marker.
pub struct MarkerRec {
    pub marker_type: MarkerType,
    pub position: int,
    pub text: Seq<char>,
    pub reference: Seq<char>,
    pub level: int,
}

pub open spec fn marker_rec_of(m: Marker) -> MarkerRec {
    MarkerRec {
        marker_type: m.marker_type,
        position: m.position as int,
        text: m.text@,
        reference: m.reference@,
        level: m.level as int,
    }
}

pub open spec fn marker_recs_of(ms: Seq<Marker>) -> Seq<MarkerRec> {
    ms.map(|_i: int, m: Marker| marker_rec_of(m))
}

/// The concatenation of a sequence of texts.
pub open spec fn concat_texts(texts: Seq<Seq<char>>) -> Seq<char>
    decreases texts.len(),
{
    if texts.len() == 0 {
        Seq::empty()
    } else {
        concat_texts(texts.drop_last()) + texts.last()
    }
}

/// The sum of the display lengths of a sequence of texts.
pub open spec fn total_display_len(texts: Seq<Seq<char>>) -> nat
    decreases texts.len(),
{
    if texts.len() == 0 {
        0
    } else {
        total_display_len(texts.drop_last()) + texts.last().len()
    }
}

/// After any sequence of `append` calls, the buffer's position equals the
/// sum of the display lengths of all texts appended: the display length of
/// the concatenated content is that sum.
pub proof fn lemma_position_is_sum_of_display_lengths(texts: Seq<Seq<char>>)
    ensures
        concat_texts(texts).len() == total_display_len(texts),
    decreases texts.len(),
{
    if texts.len() > 0 {
        lemma_position_is_sum_of_display_lengths(texts.drop_last());
    }
}

/// The position never decreases: appending more texts can only grow the sum
/// of display lengths.
pub proof fn lemma_position_nondecreasing(texts: Seq<Seq<char>>, i: int, j: int)
    requires
        0 <= i <= j <= texts.len(),
    ensures
        total_display_len(texts.subrange(0, i)) <= total_display_len(texts.subrange(0, j)),
    decreases j - i,
{
    if i < j {
        lemma_position_nondecreasing(texts, i, j - 1);
        let pre = texts.subrange(0, j);
        assert(pre.drop_last() =~= texts.subrange(0, j - 1));
    }
}

/// One node of the navigation outline; each parent exclusively owns its
/// children.
#[derive(Debug)]
pub struct TocItem {
    pub name: String,
    pub reference: String,
    pub offset: usize,
    pub children: Vec<TocItem>,
}

impl TocItem {
    /// A leaf node.
    pub fn new(name: String, reference: String, offset: usize) -> (r: Self)
        ensures
            r.name == name,
            r.reference == reference,
            r.offset == offset,
            r.children@ == Seq::<TocItem>::empty(),
    {
        TocItem { name, reference, offset, children: Vec::new() }
    }

    /// Appends a child node.
    pub fn add_child(&mut self, child: Self)
        ensures
            final(self).children@ == old(self).children@.push(child),
            final(self).name == old(self).name,
            final(self).reference == old(self).reference,
            final(self).offset == old(self).offset,
    {
        self.children.push(child);
    }
}

/// How many words remain in `s` from position `i` on, when `in_word` says
/// whether position `i` is already inside a word.
pub open spec fn words_from(s: Seq<char>, i: int, in_word: bool) -> nat
    decreases s.len() - i,
{
    if i < 0 || i >= s.len() {
        0
    } else if is_space_char(s[i]) {
        words_from(s, i + 1, false)
    } else if in_word {
        words_from(s, i + 1, true)
    } else {
        1 + words_from(s, i + 1, true)
    }
}

/// The number of whitespace-delimited tokens of the text.
pub open spec fn word_count_spec(s: Seq<char>) -> nat {
    words_from(s, 0, false)
}

/// How many newline characters `s` holds from position `i` on.
pub open spec fn newlines_from(s: Seq<char>, i: int) -> nat
    decreases s.len() - i,
{
    if i < 0 || i >= s.len() {
        0
    } else if s[i] == '\n' {
        1 + newlines_from(s, i + 1)
    } else {
        newlines_from(s, i + 1)
    }
}

/// The number of lines of the text, counted as `str::lines` does: newline
/// characters terminate lines, and a last line without a terminator still
/// counts.
pub open spec fn line_count_spec(s: Seq<char>) -> nat {
    if s.len() == 0 {
        0
    } else if s.last() == '\n' {
        newlines_from(s, 0)
    } else {
        newlines_from(s, 0) + 1
    }
}

/// Derived counts over the final flattened text.
#[derive(Debug, Clone)]
pub struct DocumentStats {
    pub word_count: usize,
    pub line_count: usize,
    pub char_count: usize,
}

impl DocumentStats {
    /// All three counts zero.
    pub fn new() -> (r: Self)
        ensures
            r.word_count == 0,
            r.line_count == 0,
            r.char_count == 0,
    {
        DocumentStats { word_count: 0, line_count: 0, char_count: 0 }
    }

    /// Counts words, lines and characters of `text`. The character count is
    /// the display length of the text: text units, not bytes.
    pub fn from_text(text: &str) -> (r: Self)
        ensures
            r.word_count == word_count_spec(text@),
            r.line_count == line_count_spec(text@),
            r.char_count == text@.len(),
    {
        let n: usize = text.unicode_len();
        let mut words: usize = 0;
        let mut newlines: usize = 0;
        let mut in_word = false;
        let mut i: usize = 0;
        while i < n
            invariant
                n == text@.len(),
                i <= n,
                words <= i,
                newlines <= i,
                word_count_spec(text@) == words + words_from(text@, i as int, in_word),
                newlines_from(text@, 0) == newlines + newlines_from(text@, i as int),
            decreases n - i,
        {
            let c = text.get_char(i);
            if crate::textutil::is_space(c) {
                in_word = false;
            } else {
                if !in_word {
                    words = words + 1;
                }
                in_word = true;
            }
            if c == '\n' {
                newlines = newlines + 1;
            }
            i = i + 1;
        }
        let line_count = if n == 0 {
            0
        } else if text.get_char(n - 1) == '\n' {
            newlines
        } else {
            if newlines < usize::MAX {
                newlines + 1
            } else {
                newlines
            }
        };
        proof {
            if n != 0 && text@.last() != '\n' {
                lemma_newlines_bound_strict(text@, 0);
            }
        }
        DocumentStats { word_count: words, line_count, char_count: n }
    }
}

proof fn lemma_newlines_bound_strict(s: Seq<char>, i: int)
    requires
        0 <= i < s.len(),
        s.last() != '\n',
    ensures
        newlines_from(s, i) <= s.len() - i - 1,
    decreases s.len() - i,
{
    if i < s.len() - 1 {
        lemma_newlines_bound_strict(s, i + 1);
    } else {
        assert(newlines_from(s, s.len() as int) == 0);
    }
}

/// The character count of the statistics equals the display length the
/// buffer accounts with: `from_text` counts the text's units, and a
/// well-formed buffer's position counter counts the same units, so the
/// two agree on the buffer's content.
pub proof fn lemma_char_count_matches_display_length(b: DocumentBuffer)
    requires
        b.wf(),
    ensures
        b.spec_position() == b.content@.len(),
{
}

/// What a single parse call receives: the file to read and an optional
/// password for encrypted formats.
#[derive(Debug, Clone)]
pub struct ParserContext {
    pub file_path: String,
    pub password: Option<String>,
}

impl ParserContext {
    /// A context without a password.
    pub fn new(file_path: String) -> (r: Self)
        ensures
            r.file_path == file_path,
            r.password == None::<String>,
    {
        ParserContext { file_path, password: None }
    }

    /// The same context with a password set.
    pub fn with_password(self, password: String) -> (r: Self)
        ensures
            r.file_path == self.file_path,
            r.password == Some(password),
    {
        ParserContext { password: Some(password), ..self }
    }
}

pub const FLAG_SECTIONS: u32 = 1;

pub const FLAG_TOC: u32 = 2;

pub const FLAG_PAGES: u32 = 4;

pub const FLAG_LISTS: u32 = 8;

/// The capability set an extractor advertises: which of sections, a native
/// table of contents, pages and lists its format supports.
#[derive(Clone, Copy, Debug, PartialEq, Eq, Structural)]
pub struct ParserFlags {
    pub bits: u32,
}

impl ParserFlags {
    /// No capability.
    pub fn none() -> (r: Self)
        ensures
            r.bits == 0,
    {
        ParserFlags { bits: 0 }
    }

    /// The extractor emits section break markers.
    pub fn supports_sections() -> (r: Self)
        ensures
            r.bits == FLAG_SECTIONS,
    {
        ParserFlags { bits: FLAG_SECTIONS }
    }

    /// The extractor can produce a table of contents.
    pub fn supports_toc() -> (r: Self)
        ensures
            r.bits == FLAG_TOC,
    {
        ParserFlags { bits: FLAG_TOC }
    }

    /// The extractor emits page break markers.
    pub fn supports_pages() -> (r: Self)
        ensures
            r.bits == FLAG_PAGES,
    {
        ParserFlags { bits: FLAG_PAGES }
    }

    /// The extractor emits list markers.
    pub fn supports_lists() -> (r: Self)
        ensures
            r.bits == FLAG_LISTS,
    {
        ParserFlags { bits: FLAG_LISTS }
    }

    /// The union of two capability sets.
    pub fn union(self, other: Self) -> (r: Self)
        ensures
            r.bits == self.bits | other.bits,
    {
        ParserFlags { bits: self.bits | other.bits }
    }

    /// Whether every capability of `other` is also in `self`.
    pub fn contains(self, other: Self) -> (r: bool)
        ensures
            r == (self.bits & other.bits == other.bits),
    {
        self.bits & other.bits == other.bits
    }

    /// The raw bit mask.
    pub fn bits(self) -> (r: u32)
        ensures
            r == self.bits,
    {
        self.bits
    }
}

/// The complete result of one parse call.
#[derive(Debug)]
pub struct Document {
    pub title: String,
    pub author: String,
    pub buffer: DocumentBuffer,
    pub toc_items: Vec<TocItem>,
    pub id_positions: StrMap<usize>,
    pub spine_items: Vec<String>,
    pub manifest_items: StrMap<String>,
    pub stats: DocumentStats,
}

impl Document {
    /// An empty document: no text, no markers, no outline, zero statistics.
    pub fn new() -> (r: Self)
        ensures
            r.title@ == Seq::<char>::empty(),
            r.author@ == Seq::<char>::empty(),
            r.buffer.wf(),
            r.buffer.content@ == Seq::<char>::empty(),
            r.buffer.markers@ == Seq::<Marker>::empty(),
            r.buffer.spec_position() == 0,
            r.toc_items@ == Seq::<TocItem>::empty(),
            r.id_positions@ == Map::<Seq<char>, usize>::empty(),
            r.spine_items@ == Seq::<String>::empty(),
            r.manifest_items@ == Map::<Seq<char>, String>::empty(),
            r.stats.word_count == 0 && r.stats.line_count == 0 && r.stats.char_count == 0,
    {
        Document {
            title: String::new(),
            author: String::new(),
            buffer: DocumentBuffer::new(),
            toc_items: Vec::new(),
            id_positions: StrMap::new(),
            spine_items: Vec::new(),
            manifest_items: StrMap::new(),
            stats: DocumentStats::new(),
        }
    }

    /// The same document with its title replaced.
    pub fn with_title(self, title: String) -> (r: Self)
        ensures
            r == (Document { title, ..self }),
    {
        Document { title, ..self }
    }

    /// The same document with its author replaced.
    pub fn with_author(self, author: String) -> (r: Self)
        ensures
            r == (Document { author, ..self }),
    {
        Document { author, ..self }
    }

    /// Replaces the buffer.
    pub fn set_buffer(&mut self, buffer: DocumentBuffer)
        ensures
            *final(self) == (Document { buffer, ..*old(self) }),
    {
        self.buffer = buffer;
    }

    /// Recomputes the statistics from the final flattened text.
    pub fn compute_stats(&mut self)
        ensures
            final(self).stats.word_count == word_count_spec(old(self).buffer.content@),
            final(self).stats.line_count == line_count_spec(old(self).buffer.content@),
            final(self).stats.char_count == old(self).buffer.content@.len(),
            *final(self) == (Document { stats: final(self).stats, ..*old(self) }),
    {
        self.stats = DocumentStats::from_text(self.buffer.content.as_str());
    }
}

} // verus!
