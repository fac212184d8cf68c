use pngme::chunk::Chunk;
use pngme::chunk_type::ChunkType;
use pngme::error::PngError;
use pngme::png::{signature, Png};
use pngme::{decode, encode, remove};

fn chunk_from(chunk_type: &str, data: &str) -> Chunk {
    let chunk_type = ChunkType::from_str(chunk_type).unwrap();
    Chunk::new(chunk_type, data.as_bytes().to_vec())
}

fn testing_png_bytes() -> Vec<u8> {
    let mut bytes: Vec<u8> = signature().to_vec();
    for chunk in [
        chunk_from("FrSt", "I am the first chunk"),
        chunk_from("miDl", "I am another chunk"),
        chunk_from("LASt", "I am the last chunk"),
    ] {
        bytes.extend_from_slice(&chunk.as_bytes());
    }
    bytes
}

#[test]
fn test_png_parse_and_serialize_round_trip() {
    let bytes = testing_png_bytes();
    let png = Png::parse(&bytes).unwrap();
    assert_eq!(png.as_bytes(), bytes);

    let reparsed = Png::parse(&png.as_bytes()).unwrap();
    assert_eq!(reparsed.as_bytes(), bytes);
    let first = reparsed.chunk_by_type("FrSt").unwrap();
    assert_eq!(first.data_as_string().unwrap(), "I am the first chunk");
}

#[test]
fn test_png_parse_empty_container() {
    let bytes: Vec<u8> = signature().to_vec();
    let png = Png::parse(&bytes).unwrap();
    assert_eq!(png.as_bytes(), bytes);
    assert!(png.chunk_by_type("FrSt").is_none());
}

#[test]
fn test_png_bad_signature() {
    // Alter each byte of the signature in turn; the remainder is a
    // well-formed record sequence every time.
    let good = testing_png_bytes();
    for i in 0..8 {
        let mut bytes = good.clone();
        bytes[i] ^= 0x01;
        assert!(matches!(Png::parse(&bytes), Err(PngError::BadSignature)));
    }
    assert!(matches!(Png::parse(&[137u8, 80]), Err(PngError::BadSignature)));
    assert!(matches!(Png::parse(&[]), Err(PngError::BadSignature)));
}

#[test]
fn test_png_truncated_trailing_bytes() {
    let mut bytes = testing_png_bytes();
    // Leftover partial bytes after the last whole record.
    bytes.extend_from_slice(&[0, 0, 0]);
    assert!(matches!(Png::parse(&bytes), Err(PngError::Truncated)));
}

#[test]
fn test_png_append_then_lookup_then_remove() {
    let mut png = Png::parse(&testing_png_bytes()).unwrap();
    png.append_chunk(chunk_from("TeSt", "Message"));

    let found = png.chunk_by_type("TeSt").unwrap();
    assert_eq!(found.data_as_string().unwrap(), "Message");

    png.remove_chunk("TeSt").unwrap();
    assert!(png.chunk_by_type("TeSt").is_none());

    // The other records keep their original relative order.
    assert_eq!(png.as_bytes(), testing_png_bytes());
}

#[test]
fn test_png_remove_missing_chunk() {
    let mut png = Png::parse(&testing_png_bytes()).unwrap();
    assert!(matches!(png.remove_chunk("TeSt"), Err(PngError::NotFound)));
    // An invalid search string yields absence, not a crash.
    assert!(matches!(png.remove_chunk("T3St"), Err(PngError::NotFound)));
    assert!(png.chunk_by_type("T3St").is_none());
    assert_eq!(png.as_bytes(), testing_png_bytes());
}

#[test]
fn test_png_lookup_first_of_duplicates() {
    let mut png = Png::parse(&testing_png_bytes()).unwrap();
    png.append_chunk(chunk_from("DuPl", "first of two"));
    png.append_chunk(chunk_from("DuPl", "second of two"));
    let found = png.chunk_by_type("DuPl").unwrap();
    assert_eq!(found.data_as_string().unwrap(), "first of two");
    // Removal takes the first match and leaves the second.
    png.remove_chunk("DuPl").unwrap();
    let found = png.chunk_by_type("DuPl").unwrap();
    assert_eq!(found.data_as_string().unwrap(), "second of two");
}

#[test]
fn test_png_render_listing() {
    let mut bytes: Vec<u8> = signature().to_vec();
    let chunk = chunk_from("RuSt", "This is where your secret message will be!");
    bytes.extend_from_slice(&chunk.as_bytes());
    let png = Png::parse(&bytes).unwrap();
    assert_eq!(
        png.render(),
        "Chunk (Type: RuSt; CRC: 2882656334; Length: 42)\n"
    );
}

#[test]
fn test_encode_decode_remove() {
    let original = testing_png_bytes();

    let encoded = encode(&original, "RuSt", "Hidden words").unwrap();
    assert_eq!(decode(&encoded, "RuSt").unwrap(), "Hidden words");

    let removed = remove(&encoded, "RuSt").unwrap();
    assert_eq!(removed, original);
    assert!(matches!(decode(&removed, "RuSt"), Err(PngError::NotFound)));
}

#[test]
fn test_encode_rejects_bad_type_code() {
    let original = testing_png_bytes();
    assert!(matches!(
        encode(&original, "Ru1t", "Hidden words"),
        Err(PngError::InvalidTypeCode)
    ));
}

#[test]
fn test_encode_propagates_parse_failure() {
    assert!(matches!(
        encode(&[1, 2, 3], "RuSt", "Hidden words"),
        Err(PngError::BadSignature)
    ));
    assert!(matches!(decode(&[1, 2, 3], "RuSt"), Err(PngError::BadSignature)));
    assert!(matches!(remove(&[1, 2, 3], "RuSt"), Err(PngError::BadSignature)));
}
