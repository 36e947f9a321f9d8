//! The plain-text extractor: the whole file, decoded and stripped of soft
//! hyphens, becomes the flattened text; there is no structure to recover.
use vstd::prelude::*;
use vstd::string::StringExecFns;

use crate::document::Document;
use crate::document::DocumentBuffer;
use crate::document::ParserFlags;
use crate::document::line_count_spec;
use crate::document::word_count_spec;
use crate::encoding::convert_to_utf8;
use crate::encoding::convert_to_utf8_spec;
use crate::error::ParseError;
use crate::registry::file_stem_of;
use crate::registry::file_stem_spec;
use crate::textutil::remove_soft_hyphens;
use crate::textutil::remove_soft_hyphens_spec;

verus! {

pub struct TextParser;

/// The flattened text a plain-text parse yields: the bytes decoded to
/// UTF-8, soft hyphens removed.
pub open spec fn text_content_spec(bytes: Seq<u8>) -> Seq<char> {
    remove_soft_hyphens_spec(convert_to_utf8_spec(bytes))
}

impl TextParser {
    /// The extractor's display name.
    pub fn name(&self) -> (r: &'static str)
        ensures
            r@ == "Text Files"@,
    {
        "Text Files"
    }

    /// The file extensions this extractor claims.
    pub fn extensions(&self) -> (r: Vec<&'static str>)
        ensures
            r@.len() == 2,
            r@[0]@ == "txt"@,
            r@[1]@ == "log"@,
    {
        let mut v = Vec::new();
        v.push("txt");
        v.push("log");
        v
    }

    /// Plain text supports no structural capability.
    pub fn supported_flags(&self) -> (r: ParserFlags)
        ensures
            r.bits == 0,
    {
        ParserFlags::none()
    }

    /// Parses the raw bytes of a plain text file: empty input is rejected,
    /// anything else is decoded, stripped of soft hyphens, and becomes the
    /// document's whole content, with the title taken from the file name.
    pub fn parse_bytes(&self, file_path: &str, bytes: &[u8]) -> (r: Result<Document, ParseError>)
        ensures
            match r {
                Ok(doc) => {
                    &&& bytes@.len() > 0
                    &&& doc.buffer.content@ == text_content_spec(bytes@)
                    &&& doc.buffer.wf()
                    &&& doc.buffer.markers@.len() == 0
                    &&& doc.title@ == file_stem_spec(file_path@)
                    &&& doc.stats.char_count == doc.buffer.content@.len()
                    &&& doc.stats.word_count == word_count_spec(doc.buffer.content@)
                    &&& doc.stats.line_count == line_count_spec(doc.buffer.content@)
                },
                Err(e) => bytes@.len() == 0 && e matches ParseError::EmptyInput(_),
            },
    {
        if bytes.len() == 0 {
            let mut msg = String::from_str("Text file is empty: ");
            msg.append(file_path);
            return Err(ParseError::EmptyInput(msg));
        }
        let utf8_content = convert_to_utf8(bytes);
        let processed = remove_soft_hyphens(utf8_content.as_str());
        let title = file_stem_of(file_path);
        let mut doc = Document::new().with_title(title);
        doc.set_buffer(DocumentBuffer::with_content(processed));
        doc.compute_stats();
        Ok(doc)
    }
}

} // verus!
