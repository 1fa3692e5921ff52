//! Recovery and forensic inspection of text-armored binary payloads:
//! header metadata parsing, marker and whitespace normalization, a decode
//! cascade over four base-85/Base64 codecs, binary signature scanning,
//! printable-string extraction, and registry indexing over many documents.

pub mod analysis;
pub mod armor;
pub mod base85;
pub mod codec;
pub mod header;
pub mod registry;
pub mod scan;
pub mod text;
