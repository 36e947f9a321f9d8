//! The FictionBook extractor's verified pieces: registry metadata and the
//! XML attribute escaper used when the document is re-serialized without
//! its embedded binaries.
use vstd::prelude::*;
use vstd::string::StrSliceExecFns;
use vstd::string::StringExecFns;

use crate::document::ParserFlags;

verus! {

pub struct Fb2Parser;

impl Fb2Parser {
    /// The extractor's display name.
    pub fn name(&self) -> (r: &'static str)
        ensures
            r@ == "FictionBook Documents"@,
    {
        "FictionBook Documents"
    }

    /// The file extensions this extractor claims.
    pub fn extensions(&self) -> (r: Vec<&'static str>)
        ensures
            r@.len() == 1,
            r@[0]@ == "fb2"@,
    {
        let mut v = Vec::new();
        v.push("fb2");
        v
    }

    /// FictionBook has native sections and a table of contents.
    pub fn supported_flags(&self) -> (r: ParserFlags)
        ensures
            r.bits == (crate::document::FLAG_TOC | crate::document::FLAG_SECTIONS),
    {
        ParserFlags::supports_toc().union(ParserFlags::supports_sections())
    }
}

/// What one character becomes under XML escaping.
pub open spec fn escape_xml_char(c: char) -> Seq<char> {
    if c == '&' {
        "&amp;"@
    } else if c == '<' {
        "&lt;"@
    } else if c == '>' {
        "&gt;"@
    } else if c == '"' {
        "&quot;"@
    } else if c == '\'' {
        "&apos;"@
    } else {
        seq![c]
    }
}

pub open spec fn escape_xml_spec(s: Seq<char>) -> Seq<char>
    decreases s.len(),
{
    if s.len() == 0 {
        Seq::empty()
    } else {
        escape_xml_spec(s.drop_last()) + escape_xml_char(s.last())
    }
}

/// Escapes the five XML special characters as entities.
pub fn escape_xml(s: &str) -> (r: String)
    ensures
        r@ == escape_xml_spec(s@),
{
    let n: usize = s.unicode_len();
    let mut out = String::new();
    let mut i: usize = 0;
    while i < n
        invariant
            n == s@.len(),
            i <= n,
            out@ == escape_xml_spec(s@.subrange(0, i as int)),
        decreases n - i,
    {
        let c = s.get_char(i);
        proof {
            let pre = s@.subrange(0, i + 1);
            assert(pre.drop_last() =~= s@.subrange(0, i as int));
            assert(pre.last() == c);
        }
        if c == '&' {
            out.append("&amp;");
        } else if c == '<' {
            out.append("&lt;");
        } else if c == '>' {
            out.append("&gt;");
        } else if c == '"' {
            out.append("&quot;");
        } else if c == '\'' {
            out.append("&apos;");
        } else {
            crate::textutil::push_char(&mut out, c);
            proof {
                assert(out@ =~= escape_xml_spec(s@.subrange(0, i as int)) + seq![c]);
            }
        }
        i = i + 1;
    }
    proof {
        assert(s@.subrange(0, n as int) =~= s@);
    }
    out
}

} // verus!
