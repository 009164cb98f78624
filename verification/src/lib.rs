//! The two lowest layers of a content-addressed version-control store:
//! a codec for loose objects and a decoder for the staging-area index.
//!
//! Every function here works on bytes already in memory. Reading files,
//! finding the repository and printing results belong to the caller.
//!
//! - [`utils`] encodes an object into its hash and its compressed form,
//!   decodes it again, and says where an object is stored.
//! - [`commands`] holds what each command computes: hashing a blob, showing
//!   an object, and decoding the index.
//! - [`bytes`] and [`text`] read fields from a buffer and render bytes as
//!   hexadecimal and decimal digits.
//! - [`errors`] names what can go wrong.
//!
//! Three things are taken on trust and not proved: the SHA-1 digest of the
//! `sha1` crate, the zlib compressor and decompressor of the `flate2` crate,
//! and the UTF-8 check of the standard library's `String::from_utf8`. Each
//! stands where it is used, with a comment that says what is claimed of it.

pub mod bytes;
pub mod commands;
pub mod errors;
pub mod text;
pub mod utils;
