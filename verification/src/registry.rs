//! The parser registry: a fixed, closed set of extractors, each advertising
//! a name, an extension set and a capability set. Dispatch lowercases the
//! requested extension and takes the first registered extractor that claims
//! it; extension sets are disjoint by construction.
use vstd::prelude::*;
use vstd::string::StrSliceExecFns;
use vstd::string::StringExecFns;

use crate::chm::ChmParser;
use crate::document::ParserFlags;
use crate::docx::DocxParser;
use crate::docx::last_index_of_before;
use crate::error::ParseError;
use crate::fb2::Fb2Parser;
use crate::markdown::MarkdownParser;
use crate::odt::OdtParser;
use crate::pdf::PdfParser;
use crate::text::TextParser;
use crate::textutil::ascii_lower_chars;
use crate::textutil::to_ascii_lowercase;

verus! {

/// What the registry records of one extractor.
#[derive(Debug)]
pub struct ParserInfo {
    pub name: String,
    pub extensions: Vec<String>,
    pub flags: ParserFlags,
}

/// Whether the extractor claims `ext` (already lower case; the stored
/// extension sets are lower case by construction).
pub open spec fn claims_extension(info: ParserInfo, ext: Seq<char>) -> bool {
    exists|k: int| 0 <= k < info.extensions.deep_view().len() && info.extensions.deep_view()[k] == ext
}

/// The first index at or after `i` of an extractor that claims `ext`, or
/// the number of extractors.
pub open spec fn claim_index(parsers: Seq<ParserInfo>, ext: Seq<char>, i: int) -> int
    decreases parsers.len() - i,
{
    if i < 0 || i >= parsers.len() {
        parsers.len() as int
    } else if claims_extension(parsers[i], ext) {
        i
    } else {
        claim_index(parsers, ext, i + 1)
    }
}

/// The first index at or after `i` of an extractor of the given name, or
/// the number of extractors.
pub open spec fn name_index(parsers: Seq<ParserInfo>, name: Seq<char>, i: int) -> int
    decreases parsers.len() - i,
{
    if i < 0 || i >= parsers.len() {
        parsers.len() as int
    } else if parsers[i].name@ == name {
        i
    } else {
        name_index(parsers, name, i + 1)
    }
}

/// The capability masks of the formats that advertise more than one bit.
pub const EPUB_FLAGS: u32 = crate::document::FLAG_SECTIONS | crate::document::FLAG_TOC
    | crate::document::FLAG_LISTS;

pub const FB2_FLAGS: u32 = crate::document::FLAG_TOC | crate::document::FLAG_SECTIONS;

pub const PDF_FLAGS: u32 = crate::document::FLAG_PAGES | crate::document::FLAG_TOC;

/// One registry record carries exactly this name, this extension list and
/// these capability bits.
pub open spec fn registry_record_ok(
    p: ParserInfo,
    name: Seq<char>,
    extensions: Seq<Seq<char>>,
    flag_bits: u32,
) -> bool {
    &&& p.name@ == name
    &&& p.extensions.deep_view() == extensions
    &&& p.flags.bits == flag_bits
}

/// The registry: the extractors in registration order.
pub struct ParserRegistry {
    pub parsers: Vec<ParserInfo>,
}

impl ParserRegistry {
    /// An empty registry.
    pub fn new() -> (r: Self)
        ensures
            r.parsers@.len() == 0,
    {
        ParserRegistry { parsers: Vec::new() }
    }

    /// Registers an extractor. One registered earlier under the same name is
    /// replaced in place; otherwise the new one is appended.
    pub fn register(&mut self, info: ParserInfo)
        ensures
            ({
                let k = name_index(old(self).parsers@, info.name@, 0);
                if k < old(self).parsers@.len() {
                    final(self).parsers@ == old(self).parsers@.update(k, info)
                } else {
                    final(self).parsers@ == old(self).parsers@.push(info)
                }
            }),
    {
        let n = self.parsers.len();
        let mut i: usize = 0;
        while i < n
            invariant
                n == self.parsers@.len(),
                i <= n,
                self == old(self),
                name_index(self.parsers@, info.name@, 0) == name_index(
                    self.parsers@,
                    info.name@,
                    i as int,
                ),
            decreases n - i,
        {
            if self.parsers[i].name.eq(&info.name) {
                proof {
                    assert(name_index(self.parsers@, info.name@, i as int) == i);
                }
                self.parsers.set(i, info);
                return ;
            }
            i = i + 1;
        }
        self.parsers.push(info);
    }

    /// The extractor registered under `name`, if any.
    pub fn get_parser(&self, name: &str) -> (r: Option<&ParserInfo>)
        ensures
            ({
                let k = name_index(self.parsers@, name@, 0);
                match r {
                    Some(p) => k < self.parsers@.len() && *p == self.parsers@[k],
                    None => k == self.parsers@.len(),
                }
            }),
    {
        let n = self.parsers.len();
        let mut i: usize = 0;
        while i < n
            invariant
                n == self.parsers@.len(),
                i <= n,
                name_index(self.parsers@, name@, 0) == name_index(self.parsers@, name@, i as int),
            decreases n - i,
        {
            if self.parsers[i].name.as_str().eq(name) {
                proof {
                    assert(name_index(self.parsers@, name@, i as int) == i);
                }
                return Some(&self.parsers[i]);
            }
            i = i + 1;
        }
        None
    }

    /// The first registered extractor that claims the extension, compared
    /// case-insensitively.
    pub fn get_parser_for_extension(&self, extension: &str) -> (r: Option<&ParserInfo>)
        ensures
            ({
                let k = claim_index(self.parsers@, ascii_lower_chars(extension@), 0);
                match r {
                    Some(p) => k < self.parsers@.len() && *p == self.parsers@[k],
                    None => k == self.parsers@.len(),
                }
            }),
    {
        let ext = to_ascii_lowercase(extension);
        let ghost e = ascii_lower_chars(extension@);
        let n = self.parsers.len();
        let mut i: usize = 0;
        while i < n
            invariant
                n == self.parsers@.len(),
                ext@ == e,
                e == ascii_lower_chars(extension@),
                claim_index(self.parsers@, e, 0) == claim_index(self.parsers@, e, i as int),
                i <= n,
            decreases n - i,
        {
            let p = &self.parsers[i];
            let m = p.extensions.len();
            let mut k: usize = 0;
            while k < m
                invariant
                    claim_index(self.parsers@, e, 0) == claim_index(self.parsers@, e, i as int),
                    e == ascii_lower_chars(extension@),
                    i < n == self.parsers@.len(),
                    p == &self.parsers@[i as int],
                    m == p.extensions@.len(),
                    k <= m,
                    ext@ == e,
                    forall|j: int| 0 <= j < k ==> (#[trigger] p.extensions.deep_view()[j]) != e,
                decreases m - k,
            {
                if p.extensions[k].eq(&ext) {
                    proof {
                        assert(p.extensions.deep_view()[k as int] == e);
                        assert(claims_extension(self.parsers@[i as int], e));
                        assert(claim_index(self.parsers@, e, i as int) == i);
                    }
                    return Some(&self.parsers[i]);
                }
                k = k + 1;
            }
            proof {
                assert(!claims_extension(self.parsers@[i as int], e));
            }
            i = i + 1;
        }
        None
    }

    /// A copy of every extractor's record, in registration order.
    pub fn all_parsers(&self) -> (r: Vec<ParserInfo>)
        ensures
            r@.len() == self.parsers@.len(),
            forall|i: int|
                0 <= i < r@.len() ==> (#[trigger] r@[i]).name@ == self.parsers@[i].name@
                    && r@[i].extensions.deep_view() == self.parsers@[i].extensions.deep_view()
                    && r@[i].flags == self.parsers@[i].flags,
    {
        let n = self.parsers.len();
        let mut out: Vec<ParserInfo> = Vec::new();
        let mut i: usize = 0;
        while i < n
            invariant
                n == self.parsers@.len(),
                i <= n,
                out@.len() == i,
                forall|j: int|
                    0 <= j < i ==> (#[trigger] out@[j]).name@ == self.parsers@[j].name@
                        && out@[j].extensions.deep_view() == self.parsers@[j].extensions.deep_view()
                        && out@[j].flags == self.parsers@[j].flags,
            decreases n - i,
        {
            let p = &self.parsers[i];
            let mut exts: Vec<String> = Vec::new();
            let m = p.extensions.len();
            let mut k: usize = 0;
            while k < m
                invariant
                    m == p.extensions@.len(),
                    k <= m,
                    exts@.len() == k,
                    forall|j: int|
                        0 <= j < k ==> exts.deep_view()[j] == p.extensions.deep_view()[j],
                decreases m - k,
            {
                let ghost before = exts.deep_view();
                exts.push(p.extensions[k].clone());
                proof {
                    assert(exts.deep_view() =~= before.push(p.extensions@[k as int]@));
                }
                k = k + 1;
            }
            proof {
                assert(exts.deep_view() =~= p.extensions.deep_view());
            }
            out.push(ParserInfo { name: p.name.clone(), extensions: exts, flags: p.flags });
            i = i + 1;
        }
        out
    }

    /// The process-wide registry: the fixed, closed set of extractors, in
    /// registration order.
    pub fn global() -> (r: ParserRegistry)
        ensures
            r.parsers@.len() == 8,
            registry_record_ok(r.parsers@[0], "EPUB Books"@, seq!["epub"@], EPUB_FLAGS),
            registry_record_ok(r.parsers@[1], "Text Files"@, seq!["txt"@, "log"@], 0u32),
            registry_record_ok(
                r.parsers@[2],
                "Markdown Files"@,
                seq!["md"@, "markdown"@, "mdown"@, "mkdn"@, "mkd"@],
                crate::document::FLAG_TOC,
            ),
            registry_record_ok(
                r.parsers@[3],
                "Compiled HTML Help files"@,
                seq!["chm"@],
                crate::document::FLAG_TOC,
            ),
            registry_record_ok(
                r.parsers@[4],
                "Word Documents"@,
                seq!["docx"@, "docm"@],
                crate::document::FLAG_TOC,
            ),
            registry_record_ok(
                r.parsers@[5],
                "OpenDocument Text Files"@,
                seq!["odt"@],
                crate::document::FLAG_TOC,
            ),
            registry_record_ok(
                r.parsers@[6],
                "FictionBook Documents"@,
                seq!["fb2"@],
                FB2_FLAGS,
            ),
            registry_record_ok(r.parsers@[7], "PDF Documents"@, seq!["pdf"@], PDF_FLAGS),
    {
        let mut registry = ParserRegistry::new();
        let epub = crate::epub::EpubParser;
        let epub_exts = strs_to_strings(epub.extensions());
        proof {
            assert(epub_exts.deep_view() =~= seq!["epub"@]);
        }
        registry.parsers.push(
            ParserInfo {
                name: String::from_str(epub.name()),
                extensions: epub_exts,
                flags: epub.supported_flags(),
            },
        );
        let text = TextParser;
        let text_exts = strs_to_strings(text.extensions());
        proof {
            assert(text_exts.deep_view() =~= seq!["txt"@, "log"@]);
        }
        registry.parsers.push(
            ParserInfo {
                name: String::from_str(text.name()),
                extensions: text_exts,
                flags: text.supported_flags(),
            },
        );
        let markdown = MarkdownParser;
        let markdown_exts = strs_to_strings(markdown.extensions());
        proof {
            assert(markdown_exts.deep_view() =~= seq![
                "md"@,
                "markdown"@,
                "mdown"@,
                "mkdn"@,
                "mkd"@,
            ]);
        }
        registry.parsers.push(
            ParserInfo {
                name: String::from_str(markdown.name()),
                extensions: markdown_exts,
                flags: markdown.supported_flags(),
            },
        );
        let chm = ChmParser;
        let chm_exts = strs_to_strings(chm.extensions());
        proof {
            assert(chm_exts.deep_view() =~= seq!["chm"@]);
        }
        registry.parsers.push(
            ParserInfo {
                name: String::from_str(chm.name()),
                extensions: chm_exts,
                flags: chm.supported_flags(),
            },
        );
        let docx = DocxParser;
        let docx_exts = strs_to_strings(docx.extensions());
        proof {
            assert(docx_exts.deep_view() =~= seq!["docx"@, "docm"@]);
        }
        registry.parsers.push(
            ParserInfo {
                name: String::from_str(docx.name()),
                extensions: docx_exts,
                flags: docx.supported_flags(),
            },
        );
        let odt = OdtParser;
        let odt_exts = strs_to_strings(odt.extensions());
        proof {
            assert(odt_exts.deep_view() =~= seq!["odt"@]);
        }
        registry.parsers.push(
            ParserInfo {
                name: String::from_str(odt.name()),
                extensions: odt_exts,
                flags: odt.supported_flags(),
            },
        );
        let fb2 = Fb2Parser;
        let fb2_exts = strs_to_strings(fb2.extensions());
        proof {
            assert(fb2_exts.deep_view() =~= seq!["fb2"@]);
        }
        registry.parsers.push(
            ParserInfo {
                name: String::from_str(fb2.name()),
                extensions: fb2_exts,
                flags: fb2.supported_flags(),
            },
        );
        let pdf = PdfParser;
        let pdf_exts = strs_to_strings(pdf.extensions());
        proof {
            assert(pdf_exts.deep_view() =~= seq!["pdf"@]);
        }
        registry.parsers.push(
            ParserInfo {
                name: String::from_str(pdf.name()),
                extensions: pdf_exts,
                flags: pdf.supported_flags(),
            },
        );
        registry
    }
}

/// Owned copies of a list of string slices.
fn strs_to_strings(v: Vec<&str>) -> (r: Vec<String>)
    ensures
        r@.len() == v@.len(),
        forall|i: int| 0 <= i < v@.len() ==> (#[trigger] r.deep_view()[i]) == v@[i]@,
{
    let n = v.len();
    let mut out: Vec<String> = Vec::new();
    let mut i: usize = 0;
    while i < n
        invariant
            n == v@.len(),
            i <= n,
            out@.len() == i,
            forall|j: int| 0 <= j < i ==> (#[trigger] out.deep_view()[j]) == v@[j]@,
        decreases n - i,
    {
        let ghost before = out.deep_view();
        out.push(String::from_str(v[i]));
        proof {
            assert(out.deep_view() =~= before.push(v@[i as int]@));
        }
        i = i + 1;
    }
    out
}

/// Capability discovery: every extractor's record, with its name,
/// extension set and capability bits as the registry declares them.
pub fn get_all_parsers() -> (r: Vec<ParserInfo>)
    ensures
        r@.len() == 8,
        registry_record_ok(r@[0], "EPUB Books"@, seq!["epub"@], EPUB_FLAGS),
        registry_record_ok(r@[1], "Text Files"@, seq!["txt"@, "log"@], 0u32),
        registry_record_ok(
            r@[2],
            "Markdown Files"@,
            seq!["md"@, "markdown"@, "mdown"@, "mkdn"@, "mkd"@],
            crate::document::FLAG_TOC,
        ),
        registry_record_ok(
            r@[3],
            "Compiled HTML Help files"@,
            seq!["chm"@],
            crate::document::FLAG_TOC,
        ),
        registry_record_ok(r@[4], "Word Documents"@, seq!["docx"@, "docm"@], crate::document::FLAG_TOC),
        registry_record_ok(
            r@[5],
            "OpenDocument Text Files"@,
            seq!["odt"@],
            crate::document::FLAG_TOC,
        ),
        registry_record_ok(r@[6], "FictionBook Documents"@, seq!["fb2"@], FB2_FLAGS),
        registry_record_ok(r@[7], "PDF Documents"@, seq!["pdf"@], PDF_FLAGS),
{
    let registry = ParserRegistry::global();
    registry.all_parsers()
}

/// The name of the extractor a lower-cased extension dispatches to, under
/// the fixed registry.
pub open spec fn dispatch_table(ext: Seq<char>) -> Option<Seq<char>> {
    if ext == "epub"@ {
        Some("EPUB Books"@)
    } else if ext == "txt"@ || ext == "log"@ {
        Some("Text Files"@)
    } else if ext == "md"@ || ext == "markdown"@ || ext == "mdown"@ || ext == "mkdn"@ || ext
        == "mkd"@ {
        Some("Markdown Files"@)
    } else if ext == "chm"@ {
        Some("Compiled HTML Help files"@)
    } else if ext == "docx"@ || ext == "docm"@ {
        Some("Word Documents"@)
    } else if ext == "odt"@ {
        Some("OpenDocument Text Files"@)
    } else if ext == "fb2"@ {
        Some("FictionBook Documents"@)
    } else if ext == "pdf"@ {
        Some("PDF Documents"@)
    } else {
        None
    }
}

/// Dispatch preview: the name of the extractor the extension dispatches to,
/// case-insensitively; nothing when no extractor claims it.
pub fn get_parser_name_for_extension(extension: &str) -> (r: Option<String>)
    ensures
        match r {
            Some(name) => dispatch_table(ascii_lower_chars(extension@)) == Some(name@),
            None => dispatch_table(ascii_lower_chars(extension@)) is None,
        },
{
    let ext = to_ascii_lowercase(extension);
    if string_is("epub", &ext) {
        Some(String::from_str("EPUB Books"))
    } else if string_is("txt", &ext) || string_is("log", &ext) {
        Some(String::from_str("Text Files"))
    } else if string_is("md", &ext) || string_is("markdown", &ext) || string_is("mdown", &ext)
        || string_is("mkdn", &ext) || string_is("mkd", &ext) {
        Some(String::from_str("Markdown Files"))
    } else if string_is("chm", &ext) {
        Some(String::from_str("Compiled HTML Help files"))
    } else if string_is("docx", &ext) || string_is("docm", &ext) {
        Some(String::from_str("Word Documents"))
    } else if string_is("odt", &ext) {
        Some(String::from_str("OpenDocument Text Files"))
    } else if string_is("fb2", &ext) {
        Some(String::from_str("FictionBook Documents"))
    } else if string_is("pdf", &ext) {
        Some(String::from_str("PDF Documents"))
    } else {
        None
    }
}

/// Whether the string reads as the literal.
fn string_is(lit: &str, s: &String) -> (r: bool)
    ensures
        r == (s@ == lit@),
{
    s.as_str().eq(lit)
}

/// Dispatch is case-insensitive: an extension and its lower-cased form
/// dispatch to the same extractor, for lowering twice is lowering once.
pub proof fn lemma_dispatch_case_insensitive(ext: Seq<char>)
    ensures
        dispatch_table(ascii_lower_chars(ascii_lower_chars(ext))) == dispatch_table(
            ascii_lower_chars(ext),
        ),
{
    crate::textutil::lemma_ascii_lower_idempotent(ext);
}

/// The character after the last dot of the file name, when the dot does not
/// lead the name: the file path's extension.
pub open spec fn extension_spec(path: Seq<char>) -> Option<Seq<char>> {
    let base_start = last_index_of_before(path, '/', path.len() as int) + 1;
    let base = path.subrange(base_start, path.len() as int);
    let dot = last_index_of_before(base, '.', base.len() as int);
    if dot > 0 {
        Some(base.subrange(dot + 1, base.len() as int))
    } else {
        None
    }
}

/// The file name without its directory and extension; `Untitled` when the
/// path yields no name.
pub open spec fn file_stem_spec(path: Seq<char>) -> Seq<char> {
    let base_start = last_index_of_before(path, '/', path.len() as int) + 1;
    let base = path.subrange(base_start, path.len() as int);
    let dot = last_index_of_before(base, '.', base.len() as int);
    if base.len() == 0 {
        "Untitled"@
    } else if dot > 0 {
        base.subrange(0, dot)
    } else {
        base
    }
}

/// The base name of a path: what follows its last slash.
fn base_name(path: &str) -> (r: String)
    ensures
        r@ == path@.subrange(
            last_index_of_before(path@, '/', path@.len() as int) + 1,
            path@.len() as int,
        ),
{
    let n: usize = path.unicode_len();
    let mut k: usize = n;
    while k > 0 && path.get_char(k - 1) != '/'
        invariant
            n == path@.len(),
            k <= n,
            last_index_of_before(path@, '/', n as int) == last_index_of_before(
                path@,
                '/',
                k as int,
            ),
        decreases k,
    {
        k = k - 1;
    }
    proof {
        if k > 0 {
            assert(last_index_of_before(path@, '/', k as int) == k - 1);
        } else {
            assert(last_index_of_before(path@, '/', 0int) == -1);
        }
    }
    String::from_str(path.substring_char(k, n))
}

/// The position just after the last dot of `base`, when that dot does not
/// lead it.
fn last_dot(base: &str) -> (r: usize)
    ensures
        r == last_index_of_before(base@, '.', base@.len() as int) + 1,
{
    let n: usize = base.unicode_len();
    let mut k: usize = n;
    while k > 0 && base.get_char(k - 1) != '.'
        invariant
            n == base@.len(),
            k <= n,
            last_index_of_before(base@, '.', n as int) == last_index_of_before(
                base@,
                '.',
                k as int,
            ),
        decreases k,
    {
        k = k - 1;
    }
    proof {
        if k > 0 {
            assert(last_index_of_before(base@, '.', k as int) == k - 1);
        } else {
            assert(last_index_of_before(base@, '.', 0int) == -1);
        }
    }
    k
}

/// The extension of a file path, if its file name has one.
pub fn extension_of(path: &str) -> (r: Option<String>)
    ensures
        match r {
            Some(e) => extension_spec(path@) == Some(e@),
            None => extension_spec(path@) is None,
        },
{
    let base = base_name(path);
    let dot = last_dot(base.as_str());
    proof {
        crate::docx::lemma_last_index_bounds(base@, '.', base@.len() as int);
    }
    if dot > 1 {
        let n: usize = base.as_str().unicode_len();
        Some(String::from_str(base.as_str().substring_char(dot, n)))
    } else {
        None
    }
}

/// The file name of a path, without directory or extension; `Untitled`
/// when the path yields none.
pub fn file_stem_of(path: &str) -> (r: String)
    ensures
        r@ == file_stem_spec(path@),
{
    let base = base_name(path);
    let n: usize = base.as_str().unicode_len();
    if n == 0 {
        return String::from_str("Untitled");
    }
    let dot = last_dot(base.as_str());
    proof {
        crate::docx::lemma_last_index_bounds(base@, '.', base@.len() as int);
    }
    if dot > 1 {
        String::from_str(base.as_str().substring_char(0, dot - 1))
    } else {
        base
    }
}

/// Which extractor a parse of this path dispatches to: the extension is
/// taken from the file name and looked up case-insensitively; a path
/// without an extension, or with one no extractor claims, is refused.
pub fn resolve_parser_for_path(file_path: &str) -> (r: Result<String, ParseError>)
    ensures
        match r {
            Ok(name) => extension_spec(file_path@) matches Some(e) && dispatch_table(
                ascii_lower_chars(e),
            ) == Some(name@),
            Err(e) => {
                &&& e matches ParseError::UnsupportedExtension(_)
                &&& (extension_spec(file_path@) is None || (extension_spec(file_path@) matches Some(
                    x,
                ) && dispatch_table(ascii_lower_chars(x)) is None))
            },
        },
{
    match extension_of(file_path) {
        None => {
            let mut msg = String::from_str("No file extension found for: ");
            msg.append(file_path);
            Err(ParseError::UnsupportedExtension(msg))
        },
        Some(ext) => {
            match get_parser_name_for_extension(ext.as_str()) {
                Some(name) => Ok(name),
                None => {
                    let mut msg = String::from_str("No parser found for extension: .");
                    msg.append(ext.as_str());
                    Err(ParseError::UnsupportedExtension(msg))
                },
            }
        },
    }
}

} // verus!
