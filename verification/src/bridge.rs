//! The flat records a document crosses a foreign-function boundary as:
//! markers by wire number, the outline flattened in pre-order, and the
//! statistics as plain counts. The flattening drops the tree's depth, so
//! only traversal order survives it.
use vstd::prelude::*;

use crate::document::Document;
use crate::document::Marker;
use crate::document::TocItem;
use crate::document::marker_type_int;
use crate::registry::get_all_parsers;

verus! {

broadcast use vstd::std_specs::vec::axiom_vec_index_decreases, vstd::std_specs::vec::axiom_vec_decreases_to_view, vstd::seq::axiom_seq_index_decreases, vstd::seq::axiom_seq_subrange_decreases;

/// An extractor's record, with its capability set as a raw mask.
#[derive(Debug)]
pub struct ParserInfo {
    pub name: String,
    pub extensions: Vec<String>,
    pub flags: u32,
}

/// A marker with its type as a wire number.
#[derive(Debug, Clone)]
pub struct FfiMarker {
    pub marker_type: i32,
    pub position: usize,
    pub text: String,
    pub reference: String,
    pub level: i32,
}

/// One flattened outline node.
#[derive(Debug, Clone)]
pub struct FfiTocItem {
    pub name: String,
    pub reference: String,
    pub offset: usize,
}

/// The statistics as plain counts.
#[derive(Debug, Clone)]
pub struct FfiDocumentStats {
    pub word_count: usize,
    pub line_count: usize,
    pub char_count: usize,
}

/// A whole document in boundary shape.
#[derive(Debug)]
pub struct FfiDocument {
    pub title: String,
    pub author: String,
    pub content: String,
    pub markers: Vec<FfiMarker>,
    pub toc_items: Vec<FfiTocItem>,
    pub stats: FfiDocumentStats,
}

/// The model of one flattened outline node.
pub struct FlatTocRec {
    pub name: Seq<char>,
    pub reference: Seq<char>,
    pub offset: int,
}

pub open spec fn flat_rec_of_item(t: TocItem) -> FlatTocRec {
    FlatTocRec { name: t.name@, reference: t.reference@, offset: t.offset as int }
}

pub open spec fn flat_recs_of(items: Seq<FfiTocItem>) -> Seq<FlatTocRec> {
    items.map(
        |_i: int, t: FfiTocItem|
            FlatTocRec { name: t.name@, reference: t.reference@, offset: t.offset as int },
    )
}

/// The pre-order flattening of an outline forest: each node before its
/// children, each subtree before its right siblings.
pub open spec fn flatten_toc_spec(items: Seq<TocItem>) -> Seq<FlatTocRec>
    decreases items,
{
    if items.len() == 0 {
        Seq::empty()
    } else {
        seq![flat_rec_of_item(items[0])] + flatten_toc_spec(items[0].children@)
            + flatten_toc_spec(items.subrange(1, items.len() as int))
    }
}

proof fn lemma_flatten_toc_snoc(s: Seq<TocItem>, x: TocItem)
    ensures
        flatten_toc_spec(s.push(x)) == flatten_toc_spec(s) + seq![flat_rec_of_item(x)]
            + flatten_toc_spec(x.children@),
    decreases s.len(),
{
    if s.len() == 0 {
        let one = s.push(x);
        assert(one[0] == x);
        assert(one.subrange(1, 1) =~= Seq::<TocItem>::empty());
        assert(flatten_toc_spec(one.subrange(1, 1)) =~= Seq::<FlatTocRec>::empty());
        assert(flatten_toc_spec(s) =~= Seq::<FlatTocRec>::empty());
        assert(flatten_toc_spec(one) =~= flatten_toc_spec(s) + seq![flat_rec_of_item(x)]
            + flatten_toc_spec(x.children@));
    } else {
        let sp = s.push(x);
        assert(sp[0] == s[0]);
        assert(sp.subrange(1, sp.len() as int) =~= s.subrange(1, s.len() as int).push(x));
        lemma_flatten_toc_snoc(s.subrange(1, s.len() as int), x);
        assert(flatten_toc_spec(sp) =~= flatten_toc_spec(s) + seq![flat_rec_of_item(x)]
            + flatten_toc_spec(x.children@));
    }
}

/// Flattens an outline forest in pre-order. Depth and parenthood are not
/// recorded: the receiving side sees traversal order alone.
pub fn flatten_toc_items(items: &[TocItem]) -> (r: Vec<FfiTocItem>)
    ensures
        flat_recs_of(r@) == flatten_toc_spec(items@),
    decreases items@,
{
    let mut out: Vec<FfiTocItem> = Vec::new();
    let n = items.len();
    let mut i: usize = 0;
    proof {
        assert(flat_recs_of(out@) =~= Seq::<FlatTocRec>::empty());
        assert(flatten_toc_spec(items@.subrange(0, 0)) =~= Seq::<FlatTocRec>::empty());
    }
    while i < n
        invariant
            n == items@.len(),
            i <= n,
            flat_recs_of(out@) == flatten_toc_spec(items@.subrange(0, i as int)),
        decreases n - i,
    {
        let item = &items[i];
        let ghost before = flat_recs_of(out@);
        out.push(
            FfiTocItem {
                name: item.name.clone(),
                reference: item.reference.clone(),
                offset: item.offset,
            },
        );
        proof {
            assert(flat_recs_of(out@) =~= before + seq![flat_rec_of_item(items@[i as int])]);
            assert(decreases_to!(items@ => items@[i as int].children@));
        }
        let mut children = flatten_toc_items(item.children.as_slice());
        let ghost childview = flat_recs_of(children@);
        let ghost outview = flat_recs_of(out@);
        out.append(&mut children);
        proof {
            assert(flat_recs_of(out@) =~= outview + childview);
            assert(items@.subrange(0, i + 1) =~= items@.subrange(0, i as int).push(
                items@[i as int],
            ));
            lemma_flatten_toc_snoc(items@.subrange(0, i as int), items@[i as int]);
        }
        i = i + 1;
    }
    proof {
        assert(items@.subrange(0, n as int) =~= items@);
    }
    out
}

/// A document in boundary shape: markers by wire number, outline
/// flattened, counts copied.
pub fn document_to_ffi(doc: Document) -> (r: FfiDocument)
    ensures
        r.title == doc.title,
        r.author == doc.author,
        r.content == doc.buffer.content,
        r.markers@.len() == doc.buffer.markers@.len(),
        forall|j: int|
            0 <= j < doc.buffer.markers@.len() ==> {
                let m = doc.buffer.markers@[j];
                let f = #[trigger] r.markers@[j];
                &&& f.marker_type == marker_type_int(m.marker_type)
                &&& f.position == m.position
                &&& f.text == m.text
                &&& f.reference == m.reference
                &&& f.level == m.level
            },
        flat_recs_of(r.toc_items@) == flatten_toc_spec(doc.toc_items@),
        r.stats.word_count == doc.stats.word_count,
        r.stats.line_count == doc.stats.line_count,
        r.stats.char_count == doc.stats.char_count,
{
    let toc_items = flatten_toc_items(doc.toc_items.as_slice());
    let mut markers: Vec<FfiMarker> = Vec::new();
    let n = doc.buffer.markers.len();
    let mut i: usize = 0;
    while i < n
        invariant
            n == doc.buffer.markers@.len(),
            i <= n,
            markers@.len() == i,
            forall|j: int|
                0 <= j < i ==> {
                    let m = doc.buffer.markers@[j];
                    let f = #[trigger] markers@[j];
                    &&& f.marker_type == marker_type_int(m.marker_type)
                    &&& f.position == m.position
                    &&& f.text == m.text
                    &&& f.reference == m.reference
                    &&& f.level == m.level
                },
        decreases n - i,
    {
        let m = &doc.buffer.markers[i];
        markers.push(
            FfiMarker {
                marker_type: m.marker_type.to_int(),
                position: m.position,
                text: m.text.clone(),
                reference: m.reference.clone(),
                level: m.level,
            },
        );
        i = i + 1;
    }
    FfiDocument {
        title: doc.title,
        author: doc.author,
        content: doc.buffer.content,
        markers,
        toc_items,
        stats: FfiDocumentStats {
            word_count: doc.stats.word_count,
            line_count: doc.stats.line_count,
            char_count: doc.stats.char_count,
        },
    }
}

/// One boundary record carries exactly this name, this extension list and
/// this raw capability mask.
pub open spec fn ffi_record_ok(
    p: ParserInfo,
    name: Seq<char>,
    extensions: Seq<Seq<char>>,
    flag_bits: u32,
) -> bool {
    &&& p.name@ == name
    &&& p.extensions.deep_view() == extensions
    &&& p.flags == flag_bits
}

/// Capability discovery in boundary shape: each extractor's record with
/// its name, extension set and capability bits as the registry declares
/// them, the flags as a raw mask.
pub fn get_available_parsers() -> (r: Vec<ParserInfo>)
    ensures
        r@.len() == 8,
        ffi_record_ok(r@[0], "EPUB Books"@, seq!["epub"@], crate::registry::EPUB_FLAGS),
        ffi_record_ok(r@[1], "Text Files"@, seq!["txt"@, "log"@], 0u32),
        ffi_record_ok(
            r@[2],
            "Markdown Files"@,
            seq!["md"@, "markdown"@, "mdown"@, "mkdn"@, "mkd"@],
            crate::document::FLAG_TOC,
        ),
        ffi_record_ok(
            r@[3],
            "Compiled HTML Help files"@,
            seq!["chm"@],
            crate::document::FLAG_TOC,
        ),
        ffi_record_ok(
            r@[4],
            "Word Documents"@,
            seq!["docx"@, "docm"@],
            crate::document::FLAG_TOC,
        ),
        ffi_record_ok(
            r@[5],
            "OpenDocument Text Files"@,
            seq!["odt"@],
            crate::document::FLAG_TOC,
        ),
        ffi_record_ok(r@[6], "FictionBook Documents"@, seq!["fb2"@], crate::registry::FB2_FLAGS),
        ffi_record_ok(r@[7], "PDF Documents"@, seq!["pdf"@], crate::registry::PDF_FLAGS),
{
    let parsers = get_all_parsers();
    let mut out: Vec<ParserInfo> = Vec::new();
    let n = parsers.len();
    let mut i: usize = 0;
    while i < n
        invariant
            n == parsers@.len(),
            i <= n,
            out@.len() == i,
            forall|j: int|
                0 <= j < i ==> {
                    let p = parsers@[j];
                    let f = #[trigger] out@[j];
                    &&& f.name@ == p.name@
                    &&& f.extensions.deep_view() == p.extensions.deep_view()
                    &&& f.flags == p.flags.bits
                },
        decreases n - i,
    {
        let p = &parsers[i];
        let mut extensions: Vec<String> = Vec::new();
        let m = p.extensions.len();
        let mut k: usize = 0;
        while k < m
            invariant
                m == p.extensions@.len(),
                k <= m,
                extensions@.len() == k,
                forall|j: int|
                    0 <= j < k ==> (#[trigger] extensions.deep_view()[j])
                        == p.extensions.deep_view()[j],
            decreases m - k,
        {
            let ghost before = extensions.deep_view();
            extensions.push(p.extensions[k].clone());
            proof {
                assert(extensions.deep_view() =~= before.push(p.extensions@[k as int]@));
            }
            k = k + 1;
        }
        proof {
            assert(extensions.deep_view() =~= p.extensions.deep_view());
        }
        out.push(ParserInfo { name: p.name.clone(), extensions, flags: p.flags.bits() });
        i = i + 1;
    }
    out
}

} // verus!
