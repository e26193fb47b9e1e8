//! Streaming, allocation-free conversion between UTF-8 bytes, Unicode scalar
//! values and UTF-32 code units, on input that may arrive in any number of
//! buffers split at any byte.
//!
//! Malformed input is replaced by the replacement character U+FFFD, one per
//! maximal ill-formed subpart, and recorded in a flag of the session.
pub mod adapters;
pub mod buf;
pub mod decode;
pub mod encode;
pub mod laws;
pub mod session;

pub use crate::adapters::{
    char_iter_to_utf32_iter, char_ref_iter_to_char_iter, utf32_ref_iter_to_utf32_iter,
    utf8_ref_iter_to_utf8_iter, CharRefIterToUtf8Iter, CharRefToCharStruct, CharToUtf32Struct,
    Utf32IterToUtf8Iter, Utf32RefToUtf32Struct, Utf8IterToCharIter, Utf8RefIterToCharIter,
    Utf8RefToUtf8Struct,
};
pub use crate::buf::FifoBytes;
pub use crate::decode::{utf8_decode, Utf8EndEnum, REPLACE_UTF32};
pub use crate::encode::{classify_utf32, Utf8TypeEnum, REPLACE_PART1, REPLACE_PART2, REPLACE_PART3};
pub use crate::session::{parse_mapper_char_to_utf32, FromUnicode, FromUtf8, MoreEnum, UtfParserCommon};
