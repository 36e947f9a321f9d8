//! The OpenDocument text extractor's verified face: its registry metadata.
//! The XML tree walk that feeds the buffer happens outside the verified
//! world, against the buffer's and resolver's contracts.
use vstd::prelude::*;

use crate::document::ParserFlags;

verus! {

pub struct OdtParser;

impl OdtParser {
    /// The extractor's display name.
    pub fn name(&self) -> (r: &'static str)
        ensures
            r@ == "OpenDocument Text Files"@,
    {
        "OpenDocument Text Files"
    }

    /// The file extensions this extractor claims.
    pub fn extensions(&self) -> (r: Vec<&'static str>)
        ensures
            r@.len() == 1,
            r@[0]@ == "odt"@,
    {
        let mut v = Vec::new();
        v.push("odt");
        v
    }

    /// OpenDocument text gets a synthesized table of contents.
    pub fn supported_flags(&self) -> (r: ParserFlags)
        ensures
            r.bits == crate::document::FLAG_TOC,
    {
        ParserFlags::supports_toc()
    }
}

} // verus!
