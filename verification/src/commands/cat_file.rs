//! Showing a stored object: the payload behind its header.

use crate::errors::GeneralError;
use crate::utils::{decode_object, decoded_object};
use vstd::prelude::*;

verus! {

/// The payload of the stored object `object_body`, which is the content of
/// an object's file: what is left once it is decompressed and its header is
/// cut off. The size that the header gives is not held against it.
pub fn cat_file(object_body: &[u8]) -> (r: Result<Vec<u8>, GeneralError>)
    ensures
        match decoded_object(object_body@) {
            Ok(parts) => r matches Ok(payload) && payload@ == parts.payload,
            Err(fault) => r matches Err(e) && e == fault,
        },
{
    let object = decode_object(object_body)?;
    Ok(object.payload)
}

} // verus!
