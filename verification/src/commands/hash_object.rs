//! Hashing content as a blob: the name it gets and the bytes to store.

use crate::errors::GeneralError;
use crate::text::{hex_chars, to_hex};
use crate::utils::{
    compress_object, object_bytes, object_hash, zlib_deflated, zlib_inflated, ObjectType,
};
use vstd::prelude::*;

verus! {

/// Content hashed as a blob, ready to be stored.
#[derive(Clone, Debug, PartialEq, Eq)]
pub struct HashedObject {
    /// The hash in small hexadecimal digits: the name of the object.
    pub hex_hash: String,
    /// The compressed object, as it goes into the object's file.
    pub compressed: Vec<u8>,
}

/// Hashes `data` as a blob. The result is there exactly where the
/// compressor makes a stream of header and `data`: it holds the hash in 40
/// small hexadecimal digits and that stream, which decompresses to header
/// and `data`. Where the compressor reports a failure, and only there, the
/// error is `Io`.
pub fn hash_object(data: &[u8]) -> (r: Result<HashedObject, GeneralError>)
    ensures
        match zlib_deflated(object_bytes(ObjectType::Blob, data@)) {
            Some(packed) => {
                &&& r matches Ok(hashed) && hashed.hex_hash@ == hex_chars(
                    object_hash(ObjectType::Blob, data@),
                    false,
                ) && hashed.hex_hash@.len() == 40 && hashed.compressed@ == packed
                &&& zlib_inflated(packed) == Some(object_bytes(ObjectType::Blob, data@))
            },
            None => r matches Err(e) && e == GeneralError::Io,
        },
{
    let (hash, compressed): (Vec<u8>, Vec<u8>) = compress_object(ObjectType::Blob, data)?;
    Ok(HashedObject { hex_hash: to_hex(hash.as_slice(), false), compressed })
}

} // verus!
