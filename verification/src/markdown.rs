//! The Markdown extractor: the event stream of the Markdown parser is
//! folded, by a verified state machine, into flattened text with heading
//! and link records, anchor positions, and a synthesized outline.
use vstd::prelude::*;
use vstd::string::StrSliceExecFns;
use vstd::string::StringExecFns;

use pulldown_cmark::Event as PdEvent;
use pulldown_cmark::Tag as PdTag;
use pulldown_cmark::TagEnd as PdTagEnd;

use crate::document::Document;
use crate::document::DocumentBuffer;
use crate::document::Marker;
use crate::document::ParserFlags;
use crate::strmap::StrMap;
use crate::textutil::push_char;
use crate::textutil::trim_string;
use crate::textutil::trim_string_spec;
use crate::toc::HeadingInfo;

verus! {

/// One event of the Markdown stream, reduced to what the fold below
/// distinguishes: headings, links, text runs, breaks, and the block
/// boundaries that shape the flattened text.
#[derive(Debug, Clone)]
pub enum MdEvent {
    /// A heading opens, with its level and optional anchor id.
    HeadingStart(u32, Option<String>),
    /// A heading closes.
    HeadingEnd,
    /// A link opens, with its destination.
    LinkStart(String),
    /// A link closes.
    LinkEnd,
    /// A run of text or inline code.
    Text(String),
    /// A soft or hard line break.
    Break,
    /// A paragraph opens.
    ParagraphStart,
    /// A list, code block or block quote opens.
    BlockStart,
    /// A paragraph, code block or block quote closes.
    BlockEnd,
    /// A list or list item closes.
    LineEnd,
    /// Anything the fold ignores.
    Skip,
}

/// One recorded heading, in model form.
pub struct MdHeadingModel {
    pub text: Seq<char>,
    pub level: u32,
    pub position: usize,
}

/// One recorded link, in model form.
pub struct MdLinkModel {
    pub position: usize,
    pub text: Seq<char>,
    pub target: Seq<char>,
}

/// The fold's state: the flattened text so far, the records collected, and
/// the heading or link currently open.
pub struct MdFoldState {
    pub text: Seq<char>,
    pub headings: Seq<MdHeadingModel>,
    pub links: Seq<MdLinkModel>,
    pub ids: Map<Seq<char>, usize>,
    pub heading: Option<(u32, Seq<char>)>,
    pub link: Option<(Seq<char>, Seq<char>)>,
}

pub open spec fn ends_with_newline(t: Seq<char>) -> bool {
    t.len() > 0 && t.last() == '\n'
}

pub open spec fn ends_with_blank_line(t: Seq<char>) -> bool {
    t.len() >= 2 && t[t.len() - 1] == '\n' && t[t.len() - 2] == '\n'
}

pub open spec fn md_init() -> MdFoldState {
    MdFoldState {
        text: Seq::empty(),
        headings: Seq::empty(),
        links: Seq::empty(),
        ids: Map::empty(),
        heading: None,
        link: None,
    }
}

/// How one event advances the fold. The order of the cases mirrors the
/// extractor's rules: an open heading captures text first, then an open
/// link; block boundaries keep the flattened text's newline discipline.
pub open spec fn md_step(st: MdFoldState, e: MdEvent) -> MdFoldState {
    match e {
        MdEvent::HeadingStart(level, id) => {
            let with_id = match id {
                Some(anchor) => MdFoldState {
                    ids: st.ids.insert(anchor@, st.text.len() as usize),
                    ..st
                },
                None => st,
            };
            MdFoldState { heading: Some((level, Seq::empty())), ..with_id }
        },
        MdEvent::HeadingEnd => match st.heading {
            Some((level, acc)) => {
                let ht = trim_string_spec(acc);
                if ht.len() > 0 {
                    MdFoldState {
                        headings: st.headings.push(
                            MdHeadingModel {
                                text: ht,
                                level,
                                position: st.text.len() as usize,
                            },
                        ),
                        text: st.text + ht + seq!['\n', '\n'],
                        heading: None,
                        ..st
                    }
                } else {
                    MdFoldState { heading: None, ..st }
                }
            },
            None => st,
        },
        MdEvent::LinkStart(url) => MdFoldState { link: Some((url@, Seq::empty())), ..st },
        MdEvent::LinkEnd => match st.link {
            Some((url, acc)) => MdFoldState {
                links: st.links.push(
                    MdLinkModel { position: st.text.len() as usize, text: acc, target: url },
                ),
                text: st.text + acc,
                link: None,
                ..st
            },
            None => st,
        },
        MdEvent::Text(t) => match st.heading {
            Some((level, acc)) => MdFoldState { heading: Some((level, acc + t@)), ..st },
            None => match st.link {
                Some((url, acc)) => MdFoldState { link: Some((url, acc + t@)), ..st },
                None => MdFoldState { text: st.text + t@, ..st },
            },
        },
        MdEvent::Break => match st.link {
            Some((url, acc)) => MdFoldState { link: Some((url, acc + seq![' '])), ..st },
            None => match st.heading {
                Some(_) => st,
                None => MdFoldState { text: st.text + seq!['\n'], ..st },
            },
        },
        MdEvent::ParagraphStart => if st.text.len() > 0 && !ends_with_newline(st.text) {
            MdFoldState { text: st.text + seq!['\n'], ..st }
        } else {
            st
        },
        MdEvent::BlockStart => if st.text.len() > 0 && !ends_with_blank_line(st.text) {
            MdFoldState { text: st.text + seq!['\n'], ..st }
        } else {
            st
        },
        MdEvent::BlockEnd => {
            let once = if !ends_with_newline(st.text) {
                st.text + seq!['\n']
            } else {
                st.text
            };
            MdFoldState { text: once + seq!['\n'], ..st }
        },
        MdEvent::LineEnd => if !ends_with_newline(st.text) {
            MdFoldState { text: st.text + seq!['\n'], ..st }
        } else {
            st
        },
        MdEvent::Skip => st,
    }
}

/// The state after folding all events, from the empty state.
pub open spec fn md_fold(events: Seq<MdEvent>) -> MdFoldState
    decreases events.len(),
{
    if events.len() == 0 {
        md_init()
    } else {
        md_step(md_fold(events.drop_last()), events.last())
    }
}

/// Every position the state records points into its text, and an open
/// heading or link only defers text that is not yet placed.
pub open spec fn md_state_valid(st: MdFoldState) -> bool {
    &&& forall|i: int|
        0 <= i < st.headings.len() ==> (#[trigger] st.headings[i]).position <= st.text.len()
    &&& forall|i: int| 0 <= i < st.links.len() ==> (#[trigger] st.links[i]).position <= st.text.len()
    &&& forall|k: Seq<char>| st.ids.contains_key(k) ==> st.ids[k] <= st.text.len()
}

/// One step never invalidates a recorded position: the text never shrinks,
/// and new records point at its current end.
pub proof fn lemma_md_step_preserves_valid(st: MdFoldState, e: MdEvent)
    requires
        md_state_valid(st),
        st.text.len() <= usize::MAX,
    ensures
        md_state_valid(md_step(st, e)),
        st.text.len() <= md_step(st, e).text.len(),
        md_step(st, e).text.subrange(0, st.text.len() as int) == st.text,
{
    let st2 = md_step(st, e);
    assert(st.text.len() <= st2.text.len());
    assert(st2.text.subrange(0, st.text.len() as int) =~= st.text);
}

proof fn lemma_i32_u32_roundtrip(x: i32)
    ensures
        (x as u32) as i32 == x,
{
    assert((x as u32) as i32 == x) by (bit_vector);
}

proof fn lemma_u32_i32_roundtrip(x: u32)
    ensures
        (x as i32) as u32 == x,
{
    assert((x as i32) as u32 == x) by (bit_vector);
}

/// One recorded link of the flattened text.
#[derive(Debug, Clone)]
pub struct MdLink {
    pub position: usize,
    pub text: String,
    pub target: String,
}

pub open spec fn heading_models(hs: Seq<HeadingInfo>) -> Seq<MdHeadingModel> {
    hs.map(
        |_i: int, h: HeadingInfo|
            MdHeadingModel { text: h.text@, level: h.level as u32, position: h.offset },
    )
}

/// The heading records, for outline synthesis, that the fold's heading
/// models denote.
pub open spec fn md_heading_recs(hs: Seq<MdHeadingModel>) -> Seq<crate::toc::HeadingRec> {
    hs.map(
        |_i: int, h: MdHeadingModel|
            crate::toc::HeadingRec {
                text: h.text,
                level: h.level as i32 as int,
                offset: h.position as int,
            },
    )
}

pub open spec fn link_models(ls: Seq<MdLink>) -> Seq<MdLinkModel> {
    ls.map(
        |_i: int, l: MdLink| MdLinkModel { position: l.position, text: l.text@, target: l.target@ },
    )
}

/// Names what the Markdown parser's event stream reduces to for a given
/// input; the stream depends on the input text alone.
pub uninterp spec fn md_events_of(s: Seq<char>) -> Seq<MdEvent>;

#[verifier::external_type_specification]
#[verifier::external_body]
pub struct ExTagEnd(PdTagEnd);

/// Relies on `pulldown_cmark::TagEnd`: tells the closing events apart, one
/// arm each, for the reduction below.
#[verifier::external_body]
fn end_event(te: PdTagEnd) -> (r: MdEvent) {
    match te {
        PdTagEnd::Heading(_) => MdEvent::HeadingEnd,
        PdTagEnd::Link => MdEvent::LinkEnd,
        PdTagEnd::Paragraph | PdTagEnd::CodeBlock | PdTagEnd::BlockQuote(_) => MdEvent::BlockEnd,
        PdTagEnd::List(_) | PdTagEnd::Item => MdEvent::LineEnd,
        _ => MdEvent::Skip,
    }
}

/// Relies on `pulldown_cmark::Parser::new` with default options: the
/// library's event stream, reduced arm by arm to the vocabulary the fold
/// distinguishes.
#[verifier::external_body]
fn md_events(s: &str) -> (r: Vec<MdEvent>)
    ensures
        r@ == md_events_of(s@),
{
    pulldown_cmark::Parser::new(s).map(|e| match e {
        PdEvent::Start(PdTag::Heading { level, id, .. }) => MdEvent::HeadingStart(level as u32, id.map(|v| v.to_string())),
        PdEvent::Start(PdTag::Link { dest_url, .. }) => MdEvent::LinkStart(dest_url.to_string()),
        PdEvent::Text(t) | PdEvent::Code(t) => MdEvent::Text(t.to_string()),
        PdEvent::SoftBreak | PdEvent::HardBreak => MdEvent::Break,
        PdEvent::Start(PdTag::Paragraph) => MdEvent::ParagraphStart,
        PdEvent::Start(PdTag::List(_) | PdTag::CodeBlock(_) | PdTag::BlockQuote(_)) => MdEvent::BlockStart,
        PdEvent::End(te) => end_event(te),
        _ => MdEvent::Skip,
    }).collect()
}

/// Folds a Markdown event stream into flattened text, heading and link
/// records, and anchor positions, exactly as `md_fold` states.
pub fn fold_markdown_events(events: &Vec<MdEvent>) -> (r: (
    String,
    Vec<HeadingInfo>,
    Vec<MdLink>,
    StrMap<usize>,
))
    ensures
        ({
            let st = md_fold(events@);
            &&& r.0@ == st.text
            &&& heading_models(r.1@) == st.headings
            &&& link_models(r.2@) == st.links
            &&& r.3@ == st.ids
            &&& md_state_valid(st)
        }),
{
    let n = events.len();
    let mut text = String::new();
    let mut headings: Vec<HeadingInfo> = Vec::new();
    let mut links: Vec<MdLink> = Vec::new();
    let mut ids: StrMap<usize> = StrMap::new();
    let mut heading_level: u32 = 0;
    let mut in_heading = false;
    let mut heading_text = String::new();
    let mut in_link = false;
    let mut link_url = String::new();
    let mut link_text = String::new();
    let mut i: usize = 0;
    proof {
        assert(heading_models(headings@) =~= Seq::<MdHeadingModel>::empty());
        assert(link_models(links@) =~= Seq::<MdLinkModel>::empty());
    }
    while i < n
        invariant
            n == events@.len(),
            i <= n,
            ({
                let st = md_fold(events@.subrange(0, i as int));
                &&& text@ == st.text
                &&& heading_models(headings@) == st.headings
                &&& link_models(links@) == st.links
                &&& ids@ == st.ids
                &&& st.heading == if in_heading {
                    Some((heading_level, heading_text@))
                } else {
                    None::<(u32, Seq<char>)>
                }
                &&& st.link == if in_link {
                    Some((link_url@, link_text@))
                } else {
                    None::<(Seq<char>, Seq<char>)>
                }
                &&& md_state_valid(st)
            }),
        decreases n - i,
    {
        let ghost st = md_fold(events@.subrange(0, i as int));
        let witness_len = text.as_str().unicode_len();
        proof {
            let pre = events@.subrange(0, i + 1);
            assert(pre.drop_last() =~= events@.subrange(0, i as int));
            assert(pre.last() == events@[i as int]);
            lemma_md_step_preserves_valid(st, events@[i as int]);
        }
        let e = &events[i];
        match e {
            MdEvent::HeadingStart(level, id) => {
                if let Some(anchor) = id {
                    let pos = text.as_str().unicode_len();
                    ids.insert(anchor.clone(), pos);
                }
                heading_level = *level;
                in_heading = true;
                heading_text = String::new();
            },
            MdEvent::HeadingEnd => {
                if in_heading {
                    let ht = trim_string(heading_text.as_str());
                    if ht.as_str().unicode_len() > 0 {
                        let pos = text.as_str().unicode_len();
                        headings.push(
                            HeadingInfo {
                                text: ht.clone(),
                                level: heading_level as i32,
                                offset: pos,
                            },
                        );
                        text.append(ht.as_str());
                        push_char(&mut text, '\n');
                        push_char(&mut text, '\n');
                        proof {
                            lemma_u32_i32_roundtrip(heading_level);
                            let m = MdHeadingModel {
                                text: ht@,
                                level: heading_level,
                                position: st.text.len() as usize,
                            };
                            assert(heading_models(headings@) =~= st.headings.push(m));
                            assert(text@ =~= st.text + ht@ + seq!['\n', '\n']);
                        }
                    }
                    in_heading = false;
                    heading_text = String::new();
                }
            },
            MdEvent::LinkStart(url) => {
                in_link = true;
                link_url = url.clone();
                link_text = String::new();
            },
            MdEvent::LinkEnd => {
                if in_link {
                    let pos = text.as_str().unicode_len();
                    links.push(
                        MdLink { position: pos, text: link_text.clone(), target: link_url.clone() },
                    );
                    text.append(link_text.as_str());
                    in_link = false;
                    proof {
                        let m = MdLinkModel {
                            position: st.text.len() as usize,
                            text: link_text@,
                            target: link_url@,
                        };
                        assert(link_models(links@) =~= st.links.push(m));
                    }
                }
            },
            MdEvent::Text(t) => {
                if in_heading {
                    heading_text.append(t.as_str());
                } else if in_link {
                    link_text.append(t.as_str());
                } else {
                    text.append(t.as_str());
                }
            },
            MdEvent::Break => {
                if in_link {
                    push_char(&mut link_text, ' ');
                    proof {
                        assert(link_text@ =~= st.link.unwrap().1 + seq![' ']);
                    }
                } else if in_heading {
                } else {
                    push_char(&mut text, '\n');
                    proof {
                        assert(text@ =~= st.text + seq!['\n']);
                    }
                }
            },
            MdEvent::ParagraphStart => {
                let len = text.as_str().unicode_len();
                if len > 0 && text.as_str().get_char(len - 1) != '\n' {
                    push_char(&mut text, '\n');
                    proof {
                        assert(text@ =~= st.text + seq!['\n']);
                    }
                }
            },
            MdEvent::BlockStart => {
                let len = text.as_str().unicode_len();
                let blank = len >= 2 && text.as_str().get_char(len - 1) == '\n'
                    && text.as_str().get_char(len - 2) == '\n';
                if len > 0 && !blank {
                    push_char(&mut text, '\n');
                    proof {
                        assert(text@ =~= st.text + seq!['\n']);
                    }
                }
            },
            MdEvent::BlockEnd => {
                let len = text.as_str().unicode_len();
                if !(len > 0 && text.as_str().get_char(len - 1) == '\n') {
                    push_char(&mut text, '\n');
                }
                push_char(&mut text, '\n');
                proof {
                    let once = if !ends_with_newline(st.text) {
                        st.text + seq!['\n']
                    } else {
                        st.text
                    };
                    assert(text@ =~= once + seq!['\n']);
                }
            },
            MdEvent::LineEnd => {
                let len = text.as_str().unicode_len();
                if !(len > 0 && text.as_str().get_char(len - 1) == '\n') {
                    push_char(&mut text, '\n');
                    proof {
                        assert(text@ =~= st.text + seq!['\n']);
                    }
                }
            },
            MdEvent::Skip => {},
        }
        i = i + 1;
    }
    proof {
        assert(events@.subrange(0, n as int) =~= events@);
    }
    (text, headings, links, ids)
}

/// Parses Markdown text: the event stream is taken from the Markdown
/// parser and folded into flattened text, heading and link records, and
/// anchor positions.
pub fn parse_markdown_to_text(markdown: &str) -> (r: (
    String,
    Vec<HeadingInfo>,
    Vec<MdLink>,
    StrMap<usize>,
))
    ensures
        ({
            let st = md_fold(md_events_of(markdown@));
            &&& r.0@ == st.text
            &&& heading_models(r.1@) == st.headings
            &&& link_models(r.2@) == st.links
            &&& r.3@ == st.ids
            &&& md_state_valid(st)
        }),
{
    let events = md_events(markdown);
    fold_markdown_events(&events)
}

pub struct MarkdownParser;

impl MarkdownParser {
    /// The extractor's display name.
    pub fn name(&self) -> (r: &'static str)
        ensures
            r@ == "Markdown Files"@,
    {
        "Markdown Files"
    }

    /// The file extensions this extractor claims.
    pub fn extensions(&self) -> (r: Vec<&'static str>)
        ensures
            r@.len() == 5,
            r@[0]@ == "md"@,
            r@[1]@ == "markdown"@,
            r@[2]@ == "mdown"@,
            r@[3]@ == "mkdn"@,
            r@[4]@ == "mkd"@,
    {
        let mut v = Vec::new();
        v.push("md");
        v.push("markdown");
        v.push("mdown");
        v.push("mkdn");
        v.push("mkd");
        v
    }

    /// Markdown gets a synthesized table of contents.
    pub fn supported_flags(&self) -> (r: ParserFlags)
        ensures
            r.bits == crate::document::FLAG_TOC,
    {
        ParserFlags::supports_toc()
    }

    /// Parses the raw bytes of a Markdown file: empty input is rejected;
    /// anything else is decoded and folded into a document whose buffer
    /// holds the flattened text with one marker per heading and per link,
    /// whose outline is synthesized from the headings, and whose markers
    /// all point into the text.
    pub fn parse_bytes(&self, file_path: &str, bytes: &[u8]) -> (r: Result<
        Document,
        crate::error::ParseError,
    >)
        ensures
            match r {
                Ok(doc) => {
                    let st = md_fold(md_events_of(crate::encoding::convert_to_utf8_spec(bytes@)));
                    &&& bytes@.len() > 0
                    &&& doc.buffer.wf()
                    &&& doc.buffer.content@ == st.text
                    &&& doc.title@ == crate::registry::file_stem_spec(file_path@)
                    &&& doc.id_positions@ == st.ids
                    &&& doc.buffer.markers@.len() == st.headings.len() + st.links.len()
                    &&& (forall|j: int|
                        0 <= j < st.headings.len() ==> {
                            let m = #[trigger] doc.buffer.markers@[j];
                            let h = st.headings[j];
                            &&& m.marker_type == crate::epub::heading_marker_type_spec(
                                h.level as i32,
                            )
                            &&& m.position == h.position
                            &&& m.text@ == h.text
                            &&& m.level == h.level as i32
                            &&& m.reference@ == Seq::<char>::empty()
                        })
                    &&& (forall|j: int|
                        0 <= j < st.links.len() ==> {
                            let m = #[trigger] doc.buffer.markers@[st.headings.len() + j];
                            let l = st.links[j];
                            &&& m.marker_type == crate::document::MarkerType::Link
                            &&& m.position == l.position
                            &&& m.text@ == l.text
                            &&& m.reference@ == l.target
                        })
                    &&& crate::document::marker_positions_valid(doc.buffer)
                    &&& crate::toc::is_toc_forest_of(doc.toc_items@, md_heading_recs(st.headings))
                    &&& doc.stats.char_count == st.text.len()
                    &&& doc.stats.word_count == crate::document::word_count_spec(st.text)
                    &&& doc.stats.line_count == crate::document::line_count_spec(st.text)
                },
                Err(e) => bytes@.len() == 0 && e matches crate::error::ParseError::EmptyInput(_),
            },
    {
        if bytes.len() == 0 {
            let mut msg = String::from_str("Markdown file is empty: ");
            msg.append(file_path);
            return Err(crate::error::ParseError::EmptyInput(msg));
        }
        let content = crate::encoding::convert_to_utf8(bytes);
        let (text, headings, links, id_positions) = parse_markdown_to_text(content.as_str());
        let ghost st = md_fold(md_events_of(content@));
        let title = crate::registry::file_stem_of(file_path);
        let mut buffer = DocumentBuffer::with_content(text);
        let hn = headings.len();
        let mut hi: usize = 0;
        while hi < hn
            invariant
                hn == headings@.len(),
                hi <= hn,
                buffer.wf(),
                buffer.content@ == st.text,
                heading_models(headings@) == st.headings,
                buffer.markers@.len() == hi,
                forall|j: int|
                    0 <= j < hi ==> {
                        let m = #[trigger] buffer.markers@[j];
                        let h = headings@[j];
                        &&& m.marker_type == crate::epub::heading_marker_type_spec(h.level)
                        &&& m.position == h.offset
                        &&& m.text@ == h.text@
                        &&& m.level == h.level
                        &&& m.reference@ == Seq::<char>::empty()
                    },
            decreases hn - hi,
        {
            let h = &headings[hi];
            let m = Marker::new(crate::epub::heading_marker_type(h.level), h.offset).with_text(
                h.text.clone(),
            ).with_level(h.level);
            buffer.add_marker(m);
            hi = hi + 1;
        }
        let ln = links.len();
        let mut li: usize = 0;
        while li < ln
            invariant
                ln == links@.len(),
                li <= ln,
                hn == headings@.len(),
                buffer.wf(),
                buffer.content@ == st.text,
                heading_models(headings@) == st.headings,
                link_models(links@) == st.links,
                buffer.markers@.len() == hn + li,
                forall|j: int|
                    0 <= j < hn ==> {
                        let m = #[trigger] buffer.markers@[j];
                        let h = headings@[j];
                        &&& m.marker_type == crate::epub::heading_marker_type_spec(h.level)
                        &&& m.position == h.offset
                        &&& m.text@ == h.text@
                        &&& m.level == h.level
                        &&& m.reference@ == Seq::<char>::empty()
                    },
                forall|j: int|
                    0 <= j < li ==> {
                        let m = #[trigger] buffer.markers@[hn + j];
                        let l = links@[j];
                        &&& m.marker_type == crate::document::MarkerType::Link
                        &&& m.position == l.position
                        &&& m.text@ == l.text@
                        &&& m.reference@ == l.target@
                    },
            decreases ln - li,
        {
            let l = &links[li];
            let m = Marker::new(crate::document::MarkerType::Link, l.position).with_text(
                l.text.clone(),
            ).with_reference(l.target.clone());
            buffer.add_marker(m);
            li = li + 1;
        }
        let toc_items = crate::toc::build_toc_from_headings(headings.as_slice());
        proof {
            assert forall|j: int| 0 <= j < headings@.len() implies crate::toc::heading_recs_of(
                headings@,
            )[j] == md_heading_recs(st.headings)[j] by {
                assert(st.headings[j] == heading_models(headings@)[j]);
                lemma_i32_u32_roundtrip(headings@[j].level);
            }
            assert(crate::toc::heading_recs_of(headings@) =~= md_heading_recs(st.headings));
        }
        let mut doc = Document::new().with_title(title);
        doc.set_buffer(buffer);
        doc.id_positions = id_positions;
        doc.toc_items = toc_items;
        doc.compute_stats();
        proof {
            assert forall|j: int| 0 <= j < doc.buffer.markers@.len() implies (
            #[trigger] doc.buffer.markers@[j]).position <= doc.buffer.content@.len() by {
                if j < hn as int {
                    assert(st.headings[j] == heading_models(headings@)[j]);
                    assert(doc.buffer.markers@[j].position == headings@[j].offset);
                    assert(st.headings[j].position <= st.text.len());
                } else {
                    assert(st.links[j - hn] == link_models(links@)[j - hn]);
                    assert(doc.buffer.markers@[hn + (j - hn)].position == links@[j
                        - hn].position);
                    assert(st.links[j - hn].position <= st.text.len());
                }
            }
            assert forall|j: int| 0 <= j < st.headings.len() implies {
                let m = #[trigger] doc.buffer.markers@[j];
                let h = st.headings[j];
                &&& m.marker_type == crate::epub::heading_marker_type_spec(h.level as i32)
                &&& m.position == h.position
                &&& m.text@ == h.text
                &&& m.level == h.level as i32
                &&& m.reference@ == Seq::<char>::empty()
            } by {
                assert(st.headings[j] == heading_models(headings@)[j]);
                lemma_i32_u32_roundtrip(headings@[j].level);
            }
            assert forall|j: int| 0 <= j < st.links.len() implies {
                let m = #[trigger] doc.buffer.markers@[st.headings.len() + j];
                let l = st.links[j];
                &&& m.marker_type == crate::document::MarkerType::Link
                &&& m.position == l.position
                &&& m.text@ == l.text
                &&& m.reference@ == l.target
            } by {
                assert(st.links[j] == link_models(links@)[j]);
                assert(st.headings.len() == hn as int);
                assert(doc.buffer.markers@[hn + j].marker_type
                    == crate::document::MarkerType::Link);
            }
        }
        Ok(doc)
    }
}

} // verus!
