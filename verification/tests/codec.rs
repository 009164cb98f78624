use flate2::write::ZlibEncoder;
use flate2::Compression;
use gitcore::commands::cat_file::cat_file;
use gitcore::commands::hash_object::hash_object;
use gitcore::errors::{FormatFault, GeneralError};
use gitcore::utils::{
    compress_object, decode_object, decompress_object, object_content, object_location,
    pack_object, split_object, ObjectType,
};
use std::io::Write;

const ABC_BLOB: [u8; 18] = [120, 156, 75, 202, 201, 79, 82, 48, 102, 72, 76, 74, 6, 0, 17, 217, 3, 25];

fn hex(bytes: &[u8]) -> String {
    bytes.iter().map(|b| format!("{:02x}", b)).collect()
}

fn zlib(bytes: &[u8]) -> Vec<u8> {
    let mut encoder = ZlibEncoder::new(Vec::new(), Compression::default());
    encoder.write_all(bytes).unwrap();
    encoder.finish().unwrap()
}

fn missing_separator() -> GeneralError {
    GeneralError::InvalidFormat(FormatFault::MissingSeparator)
}

fn bad_compression() -> GeneralError {
    GeneralError::InvalidFormat(FormatFault::BadCompression)
}

#[test]
fn compress_simple() {
    let dat = "abc".as_bytes();
    let (hash, content) = compress_object(ObjectType::Blob, dat).unwrap();
    assert_eq!(
        hash,
        [242, 186, 143, 132, 171, 92, 27, 206, 132, 167, 180, 65, 203, 25, 89, 207, 199, 9, 59, 127]
    );
    assert_eq!(content, [120, 156, 75, 202, 201, 79, 82, 48, 102, 72, 76, 74, 6, 0, 17, 217, 3, 25]);
}

#[test]
fn decompress_simple() {
    let dat = [120, 156, 75, 202, 201, 79, 82, 48, 102, 72, 76, 74, 6, 0, 17, 217, 3, 25];
    let res = decompress_object(&dat).unwrap();
    assert_eq!(res, "blob 3\0abc".as_bytes());
}

#[test]
fn known_vector_of_abc() {
    let (hash, compressed) = compress_object(ObjectType::Blob, b"abc").unwrap();
    assert_eq!(hex(&hash), "f2ba8f84ab5c1bce84a7b441cb1959cfc7093b7f");
    assert_eq!(decompress_object(&compressed).unwrap(), b"blob 3\0abc");
}

#[test]
fn known_hashes_of_empty_objects() {
    let (blob, _) = compress_object(ObjectType::Blob, b"").unwrap();
    assert_eq!(hex(&blob), "e69de29bb2d1d6434b8b29ae775ad8c2e48c5391");
    let (tree, _) = compress_object(ObjectType::Tree, b"").unwrap();
    assert_eq!(hex(&tree), "4b825dc642cb6eb9a060e54bf8d69288fbee4904");
}

#[test]
fn hash_has_twenty_bytes() {
    for payload in [&b""[..], b"a", &[0u8; 1000]] {
        let (hash, _) = compress_object(ObjectType::Commit, payload).unwrap();
        assert_eq!(hash.len(), 20);
    }
}

#[test]
fn object_content_is_header_and_payload() {
    assert_eq!(object_content(ObjectType::Blob, b"abc"), b"blob 3\0abc");
    assert_eq!(object_content(ObjectType::Tree, b""), b"tree 0\0");
    assert_eq!(object_content(ObjectType::Commit, b"0123456789"), b"commit 10\x000123456789");
    assert_eq!(object_content(ObjectType::Tag, b" \0 "), b"tag 3\0 \0 ");
    let long = vec![b'x'; 12345];
    let content = object_content(ObjectType::Blob, &long);
    assert_eq!(&content[..11], b"blob 12345\0");
    assert_eq!(&content[11..], &long[..]);
}

#[test]
fn type_names() {
    assert_eq!(ObjectType::Blob.name(), "blob");
    assert_eq!(ObjectType::Tree.name(), "tree");
    assert_eq!(ObjectType::Commit.name(), "commit");
    assert_eq!(ObjectType::Tag.name(), "tag");
}

#[test]
fn round_trip_of_every_type() {
    let payloads: [&[u8]; 6] = [
        b"",
        b"abc",
        b"with space and \0 zero",
        b"\0\0\0",
        b"   ",
        "text in UTF-8: \u{3042}\u{1F600}".as_bytes(),
    ];
    for objtype in [ObjectType::Blob, ObjectType::Tree, ObjectType::Commit, ObjectType::Tag] {
        for payload in payloads {
            let (_, compressed) = compress_object(objtype, payload).unwrap();
            let object = decode_object(&compressed).unwrap();
            assert_eq!(object.kind, objtype.name().as_bytes());
            assert_eq!(object.size, payload.len().to_string().as_bytes());
            assert_eq!(object.payload, payload);
        }
    }
}

#[test]
fn round_trip_of_a_large_payload() {
    let payload: Vec<u8> = (0..200_000u32).map(|i| (i * 31 % 251) as u8).collect();
    let (_, compressed) = compress_object(ObjectType::Blob, &payload).unwrap();
    let object = decode_object(&compressed).unwrap();
    assert_eq!(object.kind, b"blob");
    assert_eq!(object.size, b"200000");
    assert_eq!(object.payload, payload);
}

/// The payload is taken as bytes: it need not be text in UTF-8.
#[test]
fn payload_that_is_not_utf8_is_encoded_as_it_is() {
    let payload: Vec<u8> = vec![0xFF, 0xFE, 0x00, 0x80, 0xC3, 0x28, 0x20, 0xF0, 0x9F];
    assert!(std::str::from_utf8(&payload).is_err());
    let (hash, compressed) = compress_object(ObjectType::Blob, &payload).unwrap();
    assert_eq!(hash.len(), 20);
    let content = decompress_object(&compressed).unwrap();
    assert_eq!(&content[..7], b"blob 9\0");
    assert_eq!(&content[7..], &payload[..]);
    let object = decode_object(&compressed).unwrap();
    assert_eq!(object.kind, b"blob");
    assert_eq!(object.size, b"9");
    assert_eq!(object.payload, payload);
    let all: Vec<u8> = (0..=255u8).collect();
    let (_, compressed) = compress_object(ObjectType::Tag, &all).unwrap();
    assert_eq!(decode_object(&compressed).unwrap().payload, all);
}

#[test]
fn hash_is_the_same_for_the_same_input() {
    let payload = b"the same bytes";
    let (first, _) = compress_object(ObjectType::Blob, payload).unwrap();
    let (second, _) = compress_object(ObjectType::Blob, payload).unwrap();
    assert_eq!(first, second);
}

#[test]
fn hash_differs_with_type_and_payload() {
    let (blob, _) = compress_object(ObjectType::Blob, b"abc").unwrap();
    let (tree, _) = compress_object(ObjectType::Tree, b"abc").unwrap();
    let (commit, _) = compress_object(ObjectType::Commit, b"abc").unwrap();
    let (tag, _) = compress_object(ObjectType::Tag, b"abc").unwrap();
    let (other, _) = compress_object(ObjectType::Blob, b"abd").unwrap();
    let (longer, _) = compress_object(ObjectType::Blob, b"abc\0").unwrap();
    let all = [blob, tree, commit, tag, other, longer];
    for i in 0..all.len() {
        for j in 0..i {
            assert_ne!(all[i], all[j]);
        }
    }
}

#[test]
fn decode_of_the_known_vector() {
    let object = decode_object(&ABC_BLOB).unwrap();
    assert_eq!(object.kind, b"blob");
    assert_eq!(object.size, b"3");
    assert_eq!(object.payload, b"abc");
}

#[test]
fn split_cuts_at_the_first_space_and_the_next_zero() {
    let object = split_object(b"blob 3\0abc").unwrap();
    assert_eq!(object.kind, b"blob");
    assert_eq!(object.size, b"3");
    assert_eq!(object.payload, b"abc");
    let object = split_object(b"tree 12 34\0pay load\0more").unwrap();
    assert_eq!(object.kind, b"tree");
    assert_eq!(object.size, b"12 34");
    assert_eq!(object.payload, b"pay load\0more");
    let object = split_object(b" \0").unwrap();
    assert_eq!(object.kind, b"");
    assert_eq!(object.size, b"");
    assert_eq!(object.payload, b"");
    let object = split_object(b"a\0b c\0d").unwrap();
    assert_eq!(object.kind, b"a\0b");
    assert_eq!(object.size, b"c");
    assert_eq!(object.payload, b"d");
}

#[test]
fn split_does_not_hold_the_size_against_the_payload() {
    let object = split_object(b"blob 999\0abc").unwrap();
    assert_eq!(object.size, b"999");
    assert_eq!(object.payload, b"abc");
    let object = split_object(b"blob x\0").unwrap();
    assert_eq!(object.size, b"x");
    assert_eq!(object.payload, b"");
}

#[test]
fn split_without_separators_fails() {
    assert_eq!(split_object(b"").unwrap_err(), missing_separator());
    assert_eq!(split_object(b"blob").unwrap_err(), missing_separator());
    assert_eq!(split_object(b"blob3\0abc").unwrap_err(), missing_separator());
    assert_eq!(split_object(b"blob 3abc").unwrap_err(), missing_separator());
    assert_eq!(split_object(b"blob\0 3").unwrap_err(), missing_separator());
    assert_eq!(split_object(b"blob ").unwrap_err(), missing_separator());
    assert_eq!(split_object(b"\0\0\0").unwrap_err(), missing_separator());
}

#[test]
fn decode_of_a_stream_without_header_fails() {
    assert_eq!(decode_object(&zlib(b"no-header")).unwrap_err(), missing_separator());
    assert_eq!(decode_object(&zlib(b"")).unwrap_err(), missing_separator());
    assert_eq!(decode_object(&zlib(b"blob 3")).unwrap_err(), missing_separator());
}

#[test]
fn decode_of_bytes_made_elsewhere() {
    let object = decode_object(&zlib(b"commit 5\0hello")).unwrap();
    assert_eq!(object.kind, b"commit");
    assert_eq!(object.size, b"5");
    assert_eq!(object.payload, b"hello");
}

#[test]
fn corrupt_stream_is_bad_compression() {
    assert_eq!(decompress_object(b"this is no zlib stream").unwrap_err(), bad_compression());
    assert_eq!(decode_object(&[0, 1, 2, 3]).unwrap_err(), bad_compression());
    let mut damaged = ABC_BLOB.to_vec();
    damaged[4] ^= 0xFF;
    assert_eq!(decompress_object(&damaged).unwrap_err(), bad_compression());
}

#[test]
fn stream_cut_short_is_bad_compression() {
    assert_eq!(decompress_object(&[]).unwrap_err(), bad_compression());
    assert_eq!(decompress_object(&ABC_BLOB[..1]).unwrap_err(), bad_compression());
    let long = zlib(&vec![7u8; 5000]);
    assert_eq!(decompress_object(&long[..long.len() / 2]).unwrap_err(), bad_compression());
}

#[test]
fn bytes_behind_the_stream_are_ignored() {
    let mut stream = ABC_BLOB.to_vec();
    stream.extend_from_slice(b"trailing");
    assert_eq!(decompress_object(&stream).unwrap(), b"blob 3\0abc");
}

#[test]
fn pack_object_keeps_what_the_compressor_gave() {
    let packed = pack_object(vec![1, 2, 3], Ok(vec![9, 8, 7])).unwrap();
    assert_eq!(packed, (vec![1, 2, 3], vec![9, 8, 7]));
}

#[test]
fn pack_object_reports_a_failed_compressor() {
    let failure = std::io::Error::new(std::io::ErrorKind::WriteZero, "sink is full");
    assert_eq!(pack_object(vec![1, 2, 3], Err(failure)).unwrap_err(), GeneralError::Io);
}

#[test]
fn hash_object_names_a_blob() {
    let hashed = hash_object(b"abc").unwrap();
    assert_eq!(hashed.hex_hash, "f2ba8f84ab5c1bce84a7b441cb1959cfc7093b7f");
    assert_eq!(decompress_object(&hashed.compressed).unwrap(), b"blob 3\0abc");
    let hashed = hash_object(b"").unwrap();
    assert_eq!(hashed.hex_hash, "e69de29bb2d1d6434b8b29ae775ad8c2e48c5391");
    assert_eq!(hashed.hex_hash.len(), 40);
    let hashed = hash_object(b"hello world\n").unwrap();
    assert_eq!(hashed.hex_hash, "3b18e512dba79e4c8300dd08aeb37f8e728b8dad");
}

#[test]
fn cat_file_gives_the_payload() {
    assert_eq!(cat_file(&ABC_BLOB).unwrap(), b"abc");
    let hashed = hash_object(b"line one\nline two\n").unwrap();
    assert_eq!(cat_file(&hashed.compressed).unwrap(), b"line one\nline two\n");
    assert_eq!(cat_file(&zlib(b"tag 0\0")).unwrap(), b"");
}

#[test]
fn cat_file_of_malformed_objects_fails() {
    assert_eq!(cat_file(b"garbage").unwrap_err(), bad_compression());
    assert_eq!(cat_file(&zlib(b"blob3abc")).unwrap_err(), missing_separator());
}

#[test]
fn location_of_a_hash() {
    let (directory, file) = object_location("f2ba8f84ab5c1bce84a7b441cb1959cfc7093b7f").unwrap();
    assert_eq!(directory, "objects/f2");
    assert_eq!(file, "objects/f2/ba8f84ab5c1bce84a7b441cb1959cfc7093b7f");
    let hashed = hash_object(b"").unwrap();
    let (directory, file) = object_location(&hashed.hex_hash).unwrap();
    assert_eq!(directory, "objects/e6");
    assert_eq!(file, "objects/e6/9de29bb2d1d6434b8b29ae775ad8c2e48c5391");
}

#[test]
fn location_of_short_names() {
    assert_eq!(object_location(""), None);
    assert_eq!(object_location("a"), None);
    assert_eq!(
        object_location("ab"),
        Some(("objects/ab".to_string(), "objects/ab/".to_string()))
    );
    assert_eq!(
        object_location("abc"),
        Some(("objects/ab".to_string(), "objects/ab/c".to_string()))
    );
}

#[test]
fn location_is_cut_behind_the_second_byte() {
    assert_eq!(object_location("a\u{e9}"), None);
    assert_eq!(object_location("\u{3042}"), None);
    assert_eq!(
        object_location("\u{e9}x"),
        Some(("objects/\u{e9}".to_string(), "objects/\u{e9}/x".to_string()))
    );
}

/// An object file as git writes it, compressed at another level.
#[test]
fn decode_of_an_object_that_git_wrote() {
    let stored = [
        0x78, 0x01, 0x4b, 0xca, 0xc9, 0x4f, 0x52, 0x30, 0x34, 0x62, 0xc8, 0x48, 0xcd, 0xc9, 0xc9,
        0x57, 0x28, 0xcf, 0x2f, 0xca, 0x49, 0xe1, 0x02, 0x00, 0x44, 0x11, 0x06, 0x89,
    ];
    let object = decode_object(&stored).unwrap();
    assert_eq!(object.kind, b"blob");
    assert_eq!(object.size, b"12");
    assert_eq!(object.payload, b"hello world\n");
    assert_eq!(cat_file(&stored).unwrap(), b"hello world\n");
    let hashed = hash_object(&object.payload).unwrap();
    assert_eq!(hashed.hex_hash, "3b18e512dba79e4c8300dd08aeb37f8e728b8dad");
    assert_eq!(decompress_object(&hashed.compressed).unwrap(), decompress_object(&stored).unwrap());
}

#[test]
fn compressed_bytes_are_the_same_for_the_same_input() {
    let payload: Vec<u8> = (0..5000u32).map(|i| (i % 7 * 13) as u8).collect();
    let (_, first) = compress_object(ObjectType::Commit, &payload).unwrap();
    let (_, second) = compress_object(ObjectType::Commit, &payload).unwrap();
    assert_eq!(first, second);
    assert_ne!(first, object_content(ObjectType::Commit, &payload));
    let hashed = hash_object(b"abc").unwrap();
    assert_eq!(hashed.compressed, ABC_BLOB);
}

#[test]
fn every_type_and_payload_is_encoded() {
    let payloads: [&[u8]; 5] = [b"", b"abc", &[0xC3, 0xA9], &[0xFF, 0xFE], &[0u8; 70_000]];
    for objtype in [ObjectType::Blob, ObjectType::Tree, ObjectType::Commit, ObjectType::Tag] {
        for payload in payloads {
            let (hash, compressed) = compress_object(objtype, payload).unwrap();
            assert_eq!(hash.len(), 20);
            assert_eq!(decompress_object(&compressed).unwrap(), object_content(objtype, payload));
        }
    }
    let (_, compressed) = compress_object(ObjectType::Blob, &[0xC3, 0xA9]).unwrap();
    assert_eq!(
        decompress_object(&compressed).unwrap(),
        [98, 108, 111, 98, 32, 50, 0, 0xC3, 0xA9]
    );
}
