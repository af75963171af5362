//! ViperPad's document logic: file kinds, text extraction from office and
//! RTF documents, HTML escaping and previews, header decoding, the in-memory
//! file store and the rules for fetching remote files.

pub mod error;
pub mod text;
pub mod kind;
pub mod rtf;
pub mod extract;
pub mod header;
pub mod html;
pub mod office;
pub mod store;
pub mod page;
pub mod remote;
pub mod tls;
