//! The codec for loose objects: a header in front of the payload, hashed and
//! compressed for storage, and taken apart again when read.

use crate::bytes::{find_byte, index_of_byte, lemma_index_of_byte, lemma_index_of_byte_unique};
use crate::errors::{FormatFault, GeneralError};
use crate::text::{decimal_digits, lemma_decimal_digits, push_decimal};
use flate2::read::ZlibDecoder;
use flate2::write::ZlibEncoder;
use flate2::Compression;
use sha1::{Digest, Sha1};
use std::io::{Read, Write};
use vstd::prelude::*;
use vstd::slice::{slice_subrange, slice_to_vec};
use vstd::string::StringExecFns;
use vstd::utf8::{
    decode_utf8, encode_utf8, encode_utf8_decode_utf8, is_ascii_chars, is_ascii_chars_encode_utf8,
    is_char_boundary,
};

verus! {

/// The error type of the standard library's readers and writers.
#[verifier::external_type_specification]
#[verifier::external_body]
pub struct ExIoError(std::io::Error);

/// The SHA-1 digest of `data`.
pub uninterp spec fn sha1_digest(data: Seq<u8>) -> Seq<u8>;

/// The zlib stream that the compressor makes of `data` at its default
/// level; `None` where the compressor reports a failure.
pub uninterp spec fn zlib_deflated(data: Seq<u8>) -> Option<Seq<u8>>;

/// What the zlib stream at the front of `data` holds once decompressed;
/// `None` where `data` does not begin with a complete, well-formed stream.
pub uninterp spec fn zlib_inflated(data: Seq<u8>) -> Option<Seq<u8>>;

/// Hashes `data` with SHA-1.
///
/// Trusted: this is `Sha1::digest` of the `sha1` crate. Its result is taken
/// to depend on `data` alone and to be 20 bytes long.
#[verifier::external_body]
fn sha1_of(data: &[u8]) -> (hash: Vec<u8>)
    ensures
        hash@ == sha1_digest(data@),
        hash@.len() == 20,
{
    Sha1::digest(data).as_slice().to_owned()
}

/// Compresses `data` into one zlib stream at the default level.
///
/// Trusted: this is `ZlibEncoder` of the `flate2` crate, writing into a
/// vector. Whether it succeeds, and with which bytes, is taken to depend on
/// `data` alone, and decompressing the bytes it gives is taken to give
/// `data` back. That it succeeds is not claimed: its source has a path that
/// reports a failure.
#[verifier::external_body]
fn zlib_deflate(data: &[u8]) -> (r: Result<Vec<u8>, std::io::Error>)
    ensures
        match r {
            Ok(packed) => zlib_deflated(data@) == Some(packed@) && zlib_inflated(packed@) == Some(
                data@,
            ),
            Err(_) => zlib_deflated(data@) is None,
        },
{
    let mut encoder = ZlibEncoder::new(Vec::new(), Compression::default());
    encoder.write_all(data)?;
    encoder.finish()
}

/// Decompresses the zlib stream at the front of `data`.
///
/// Trusted: this is `ZlibDecoder` of the `flate2` crate, read to its end.
/// Whether it succeeds, and with what, is taken to depend on `data` alone,
/// as long as there is memory for the result.
#[verifier::external_body]
fn zlib_inflate(data: &[u8]) -> (r: Result<Vec<u8>, std::io::Error>)
    ensures
        match r {
            Ok(bytes) => zlib_inflated(data@) == Some(bytes@),
            Err(_) => zlib_inflated(data@) is None,
        },
{
    let mut decoder = ZlibDecoder::new(data);
    let mut bytes = Vec::new();
    decoder.read_to_end(&mut bytes)?;
    Ok(bytes)
}

/// The kind of a stored object.
#[derive(Clone, Copy, Debug, PartialEq, Eq)]
pub enum ObjectType {
    Blob,
    Tree,
    Commit,
    Tag,
}

impl ObjectType {
    /// The name of the type as the header of an object spells it.
    pub open spec fn spec_name(self) -> Seq<char> {
        match self {
            ObjectType::Blob => "blob"@,
            ObjectType::Tree => "tree"@,
            ObjectType::Commit => "commit"@,
            ObjectType::Tag => "tag"@,
        }
    }

    /// The bytes of the name.
    pub open spec fn name_bytes(self) -> Seq<u8> {
        encode_utf8(self.spec_name())
    }

    /// The name of the type as the header of an object spells it.
    pub fn name(&self) -> (text: &'static str)
        ensures
            text@ == self.spec_name(),
    {
        match self {
            ObjectType::Blob => "blob",
            ObjectType::Tree => "tree",
            ObjectType::Commit => "commit",
            ObjectType::Tag => "tag",
        }
    }
}

/// The header of an object of `size` bytes: the name of the type, a space,
/// the size in decimal and a zero byte.
pub open spec fn object_header(objtype: ObjectType, size: nat) -> Seq<u8> {
    objtype.name_bytes() + seq![0x20u8] + decimal_digits(size) + seq![0u8]
}

/// The bytes that are hashed and stored for an object: its header, then the
/// payload as it is.
pub open spec fn object_bytes(objtype: ObjectType, payload: Seq<u8>) -> Seq<u8> {
    object_header(objtype, payload.len()) + payload
}

/// The hash that names an object: the SHA-1 digest of header and payload.
pub open spec fn object_hash(objtype: ObjectType, payload: Seq<u8>) -> Seq<u8> {
    sha1_digest(object_bytes(objtype, payload))
}

/// Builds the bytes that are hashed and stored for an object.
pub fn object_content(objtype: ObjectType, data: &[u8]) -> (content: Vec<u8>)
    ensures
        content@ == object_bytes(objtype, data@),
{
    let mut content: Vec<u8> = slice_to_vec(objtype.name().as_bytes());
    content.push(0x20);
    push_decimal(&mut content, data.len());
    content.push(0);
    content.extend_from_slice(data);
    assert(content@ =~= object_bytes(objtype, data@));
    content
}

/// Pairs a hash with what the compressor gave: the stored form where it
/// succeeded, an I/O error where it failed.
pub fn pack_object(hash: Vec<u8>, deflated: Result<Vec<u8>, std::io::Error>) -> (r: Result<
    (Vec<u8>, Vec<u8>),
    GeneralError,
>)
    ensures
        match deflated {
            Ok(packed) => r matches Ok((h, c)) && h == hash && c == packed,
            Err(_) => r matches Err(e) && e == GeneralError::Io,
        },
{
    match deflated {
        Ok(packed) => Ok((hash, packed)),
        Err(_) => Err(GeneralError::Io),
    }
}

/// Encodes an object: gives its 20-byte hash and its compressed form.
///
/// The payload may be any bytes. The result is there exactly where the
/// compressor makes a stream of header and payload: the hash is then that
/// of header and payload together, and the compressed bytes are that stream,
/// which decompresses to exactly those. Where the compressor reports a
/// failure, and only there, the error is `Io`.
pub fn compress_object(objtype: ObjectType, data: &[u8]) -> (r: Result<
    (Vec<u8>, Vec<u8>),
    GeneralError,
>)
    ensures
        match zlib_deflated(object_bytes(objtype, data@)) {
            Some(packed) => {
                &&& r matches Ok((hash, compressed)) && hash@ == object_hash(objtype, data@)
                    && hash@.len() == 20 && compressed@ == packed
                &&& zlib_inflated(packed) == Some(object_bytes(objtype, data@))
            },
            None => r matches Err(e) && e == GeneralError::Io,
        },
{
    let content = object_content(objtype, data);
    let hash = sha1_of(content.as_slice());
    let deflated = zlib_deflate(content.as_slice());
    pack_object(hash, deflated)
}

/// Decompresses a stored object into header and payload.
pub fn decompress_object(data: &[u8]) -> (r: Result<Vec<u8>, GeneralError>)
    ensures
        match zlib_inflated(data@) {
            Some(bytes) => r matches Ok(content) && content@ == bytes,
            None => r matches Err(e) && e == GeneralError::InvalidFormat(
                FormatFault::BadCompression,
            ),
        },
{
    match zlib_inflate(data) {
        Ok(content) => Ok(content),
        Err(_) => Err(GeneralError::InvalidFormat(FormatFault::BadCompression)),
    }
}

/// A stored object taken apart: the type name and the size as the header
/// spells them, and the payload.
#[derive(Clone, Debug, PartialEq, Eq)]
pub struct LooseObject {
    /// The bytes in front of the first space.
    pub kind: Vec<u8>,
    /// The bytes between that space and the first zero byte behind it: the
    /// size in decimal, as written. It is not held against the payload.
    pub size: Vec<u8>,
    /// Everything behind that zero byte.
    pub payload: Vec<u8>,
}

/// What a [`LooseObject`] holds.
pub struct LooseObjectView {
    pub kind: Seq<u8>,
    pub size: Seq<u8>,
    pub payload: Seq<u8>,
}

impl View for LooseObject {
    type V = LooseObjectView;

    open spec fn view(&self) -> LooseObjectView {
        LooseObjectView { kind: self.kind@, size: self.size@, payload: self.payload@ }
    }
}

/// The parts of a decompressed object: it is cut at its first space and at
/// the first zero byte behind that space, and is malformed without them.
pub open spec fn parse_object(bytes: Seq<u8>) -> Result<LooseObjectView, GeneralError> {
    let space = index_of_byte(bytes, 0x20, 0);
    let zero = index_of_byte(bytes, 0, space + 1);
    if space >= bytes.len() || zero >= bytes.len() {
        Err(GeneralError::InvalidFormat(FormatFault::MissingSeparator))
    } else {
        Ok(
            LooseObjectView {
                kind: bytes.subrange(0, space),
                size: bytes.subrange(space + 1, zero),
                payload: bytes.subrange(zero + 1, bytes.len() as int),
            },
        )
    }
}

/// What decoding a stored object gives: the parts of what it decompresses
/// to, or the reason why there are none.
pub open spec fn decoded_object(compressed: Seq<u8>) -> Result<LooseObjectView, GeneralError> {
    match zlib_inflated(compressed) {
        Some(bytes) => parse_object(bytes),
        None => Err(GeneralError::InvalidFormat(FormatFault::BadCompression)),
    }
}

/// Takes a decompressed object apart into type name, size and payload.
pub fn split_object(bytes: &[u8]) -> (r: Result<LooseObject, GeneralError>)
    ensures
        match parse_object(bytes@) {
            Ok(parts) => r matches Ok(object) && object@ == parts,
            Err(fault) => r matches Err(e) && e == fault,
        },
{
    let space: usize = find_byte(bytes, 0x20, 0);
    if space >= bytes.len() {
        return Err(GeneralError::InvalidFormat(FormatFault::MissingSeparator));
    }
    let zero: usize = find_byte(bytes, 0, space + 1);
    if zero >= bytes.len() {
        return Err(GeneralError::InvalidFormat(FormatFault::MissingSeparator));
    }
    proof {
        lemma_index_of_byte(bytes@, 0x20, 0);
        lemma_index_of_byte(bytes@, 0, space + 1);
    }
    Ok(
        LooseObject {
            kind: slice_to_vec(slice_subrange(bytes, 0, space)),
            size: slice_to_vec(slice_subrange(bytes, space + 1, zero)),
            payload: slice_to_vec(slice_subrange(bytes, zero + 1, bytes.len())),
        },
    )
}

/// Decodes a stored object: decompresses it and takes it apart.
pub fn decode_object(compressed: &[u8]) -> (r: Result<LooseObject, GeneralError>)
    ensures
        match decoded_object(compressed@) {
            Ok(parts) => r matches Ok(object) && object@ == parts,
            Err(fault) => r matches Err(e) && e == fault,
        },
{
    let content = decompress_object(compressed)?;
    split_object(content.as_slice())
}

/// The name of a type is made of small letters: neither a space nor a zero
/// byte is in it, and no two types share a name.
pub proof fn lemma_name_bytes(objtype: ObjectType)
    ensures
        objtype.name_bytes().len() == objtype.spec_name().len(),
        forall|i: int|
            0 <= i < objtype.name_bytes().len() ==> 0x61 <= #[trigger] objtype.name_bytes()[i]
                <= 0x7a,
        forall|other: ObjectType| other.name_bytes() == objtype.name_bytes() ==> other == objtype,
{
    reveal_strlit("blob");
    reveal_strlit("tree");
    reveal_strlit("commit");
    reveal_strlit("tag");
    is_ascii_chars_encode_utf8(ObjectType::Blob.spec_name());
    is_ascii_chars_encode_utf8(ObjectType::Tree.spec_name());
    is_ascii_chars_encode_utf8(ObjectType::Commit.spec_name());
    is_ascii_chars_encode_utf8(ObjectType::Tag.spec_name());
    assert forall|other: ObjectType| other.name_bytes() == objtype.name_bytes() implies other
        == objtype by {
        assert(other.name_bytes().len() == objtype.name_bytes().len());
        assert(other.name_bytes()[0] == objtype.name_bytes()[0]);
        assert(other.name_bytes()[1] == objtype.name_bytes()[1]);
    }
}

/// Taking apart the bytes built for an object gives back the name of its
/// type, the length of its payload in decimal, and the payload.
pub proof fn lemma_parse_object_bytes(objtype: ObjectType, payload: Seq<u8>)
    ensures
        parse_object(object_bytes(objtype, payload)) == Ok::<LooseObjectView, GeneralError>(
            LooseObjectView {
                kind: objtype.name_bytes(),
                size: decimal_digits(payload.len()),
                payload: payload,
            },
        ),
{
    let name = objtype.name_bytes();
    let digits = decimal_digits(payload.len());
    let bytes = object_bytes(objtype, payload);
    let space = name.len() as int;
    let zero = space + 1 + digits.len();
    lemma_name_bytes(objtype);
    lemma_decimal_digits(payload.len());
    assert forall|i: int| 0 <= i < space implies bytes[i] != 0x20 by {
        assert(bytes[i] == name[i]);
    }
    assert(bytes[space] == 0x20);
    lemma_index_of_byte_unique(bytes, 0x20, 0, space);
    assert forall|i: int| space + 1 <= i < zero implies bytes[i] != 0 by {
        assert(bytes[i] == digits[i - space - 1]);
    }
    assert(bytes[zero] == 0);
    lemma_index_of_byte_unique(bytes, 0, space + 1, zero);
    assert(bytes.subrange(0, space) =~= name);
    assert(bytes.subrange(space + 1, zero) =~= digits);
    assert(bytes.subrange(zero + 1, bytes.len() as int) =~= payload);
}

/// Round trip: whatever compressed bytes stand for an object, decoding them
/// gives back the name of its type, the length of its payload and the
/// payload itself.
pub proof fn lemma_round_trip(objtype: ObjectType, payload: Seq<u8>, compressed: Seq<u8>)
    ensures
        zlib_inflated(compressed) == Some(object_bytes(objtype, payload)) ==> decoded_object(
            compressed,
        ) == Ok::<LooseObjectView, GeneralError>(
            LooseObjectView {
                kind: objtype.name_bytes(),
                size: decimal_digits(payload.len()),
                payload: payload,
            },
        ),
{
    lemma_parse_object_bytes(objtype, payload);
}

/// Two objects are hashed over the same bytes only if they agree in type
/// and payload; equal type and payload always give the same hash.
pub proof fn lemma_hash_input_determined(
    first_type: ObjectType,
    first: Seq<u8>,
    second_type: ObjectType,
    second: Seq<u8>,
)
    ensures
        first_type == second_type && first == second ==> object_hash(first_type, first)
            == object_hash(second_type, second),
        object_bytes(first_type, first) == object_bytes(second_type, second) ==> first_type
            == second_type && first == second,
{
    lemma_parse_object_bytes(first_type, first);
    lemma_parse_object_bytes(second_type, second);
    lemma_name_bytes(first_type);
}

/// Whether an object can be looked up under `id`: its first two bytes
/// must be there and must not end in the middle of a character.
pub open spec fn can_locate(id: Seq<char>) -> bool {
    encode_utf8(id).len() >= 2 && is_char_boundary(encode_utf8(id), 2)
}

/// The directory of the object `id` below the repository: `objects/` and the
/// first two bytes of `id`.
pub open spec fn object_directory(id: Seq<char>) -> Seq<char> {
    "objects/"@ + decode_utf8(encode_utf8(id).subrange(0, 2))
}

/// The file of the object `id` below the repository: its directory, a slash
/// and the rest of `id`.
pub open spec fn object_file(id: Seq<char>) -> Seq<char> {
    object_directory(id) + "/"@ + decode_utf8(
        encode_utf8(id).subrange(2, encode_utf8(id).len() as int),
    )
}

/// Where the object named `id`, a hash in hexadecimal, is stored below the
/// repository directory: its directory and its file. `None` where `id` is
/// too short to be cut behind its second byte.
pub fn object_location(id: &str) -> (r: Option<(String, String)>)
    ensures
        match r {
            Some((directory, file)) => can_locate(id@) && directory@ == object_directory(id@)
                && file@ == object_file(id@),
            None => !can_locate(id@),
        },
{
    if id.as_bytes().len() < 2 || !id.is_char_boundary(2) {
        return None;
    }
    let (head, tail): (&str, &str) = id.split_at(2);
    proof {
        encode_utf8_decode_utf8(head@);
        encode_utf8_decode_utf8(tail@);
    }
    let mut directory = "objects/".to_owned();
    directory.append(head);
    let mut file = directory.clone();
    file.append("/");
    file.append(tail);
    Some((directory, file))
}

/// For an `id` of plain ASCII, such as a hash in hexadecimal, the location
/// is cut behind its second character.
pub proof fn lemma_location_of_ascii(id: Seq<char>)
    requires
        is_ascii_chars(id),
        id.len() >= 2,
    ensures
        can_locate(id),
        object_directory(id) == "objects/"@ + id.subrange(0, 2),
        object_file(id) == "objects/"@ + id.subrange(0, 2) + "/"@ + id.subrange(2, id.len() as int),
{
    let bytes = encode_utf8(id);
    let head = id.subrange(0, 2);
    let tail = id.subrange(2, id.len() as int);
    is_ascii_chars_encode_utf8(id);
    is_ascii_chars_encode_utf8(head);
    is_ascii_chars_encode_utf8(tail);
    assert(encode_utf8(head) =~= bytes.subrange(0, 2));
    assert(encode_utf8(tail) =~= bytes.subrange(2, bytes.len() as int));
    encode_utf8_decode_utf8(head);
    encode_utf8_decode_utf8(tail);
    assert(bytes =~= encode_utf8(head) + encode_utf8(tail));
    lemma_boundary_behind_prefix(head, tail);
    assert(head + tail =~= id);
}

/// The end of the encoding of `head` is a character boundary in the
/// encoding of `head` followed by `tail`.
proof fn lemma_boundary_behind_prefix(head: Seq<char>, tail: Seq<char>)
    ensures
        is_char_boundary(encode_utf8(head + tail), encode_utf8(head).len() as int),
    decreases head.len(),
{
    let whole = head + tail;
    vstd::utf8::encode_utf8_valid_utf8(whole);
    if head.len() > 0 {
        vstd::utf8::encode_utf8_first_scalar(whole);
        vstd::utf8::encode_utf8_first_scalar(head);
        assert(whole[0] == head[0]);
        assert(whole.drop_first() =~= head.drop_first() + tail);
        assert(vstd::utf8::pop_first_scalar(encode_utf8(whole)) =~= encode_utf8(
            whole.drop_first(),
        ));
        assert(encode_utf8(head).len() == vstd::utf8::length_of_first_scalar(encode_utf8(whole))
            + encode_utf8(head.drop_first()).len());
        lemma_boundary_behind_prefix(head.drop_first(), tail);
    }
}

} // verus!
