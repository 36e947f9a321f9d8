//! A verified core for a document-reading library: a position-tracked text
//! buffer with typed markers, a table-of-contents synthesizer, a
//! cross-reference resolver, and a registry of format extractors, together
//! with the text and encoding utilities they share.
pub mod bridge;
pub mod chm;
pub mod document;
pub mod docx;
pub mod encoding;
pub mod epub;
pub mod error;
pub mod fb2;
pub mod markdown;
pub mod odt;
pub mod pdf;
pub mod registry;
pub mod resolve;
pub mod strmap;
pub mod text;
pub mod textutil;
pub mod toc;
pub mod update;
pub mod ziputil;
