use pngme::chunk::Chunk;
use pngme::chunk_type::ChunkType;
use pngme::error::PngError;

fn testing_chunk() -> Chunk {
    let data_length: u32 = 42;
    let chunk_type = "RuSt".as_bytes();
    let message_bytes = "This is where your secret message will be!".as_bytes();
    let crc: u32 = 2882656334;

    let chunk_data: Vec<u8> = data_length
        .to_be_bytes()
        .iter()
        .chain(chunk_type.iter())
        .chain(message_bytes.iter())
        .chain(crc.to_be_bytes().iter())
        .copied()
        .collect();

    Chunk::parse(chunk_data.as_ref()).unwrap()
}

#[test]
fn test_new_chunk() {
    let chunk_type = ChunkType::from_str("RuSt").unwrap();
    let data = "This is where your secret message will be!".as_bytes().to_vec();
    let chunk = Chunk::new(chunk_type, data);
    assert_eq!(chunk.length(), 42);
    assert_eq!(chunk.crc(), 2882656334);
}

#[test]
fn test_chunk_length() {
    let chunk = testing_chunk();
    assert_eq!(chunk.length(), 42);
}

#[test]
fn test_chunk_type() {
    let chunk = testing_chunk();
    assert_eq!(chunk.chunk_type().as_text(), String::from("RuSt"));
}

#[test]
fn test_chunk_string() {
    let chunk = testing_chunk();
    let chunk_string = chunk.data_as_string().unwrap();
    let expected_chunk_string = String::from("This is where your secret message will be!");
    assert_eq!(chunk_string, expected_chunk_string);
}

#[test]
fn test_chunk_crc() {
    let chunk = testing_chunk();
    assert_eq!(chunk.crc(), 2882656334);
}

#[test]
fn test_valid_chunk_from_bytes() {
    let data_length: u32 = 42;
    let chunk_type = "RuSt".as_bytes();
    let message_bytes = "This is where your secret message will be!".as_bytes();
    let crc: u32 = 2882656334;

    let chunk_data: Vec<u8> = data_length
        .to_be_bytes()
        .iter()
        .chain(chunk_type.iter())
        .chain(message_bytes.iter())
        .chain(crc.to_be_bytes().iter())
        .copied()
        .collect();

    let chunk = Chunk::parse(chunk_data.as_ref()).unwrap();

    let chunk_string = chunk.data_as_string().unwrap();
    let expected_chunk_string = String::from("This is where your secret message will be!");

    assert_eq!(chunk.length(), 42);
    assert_eq!(chunk.chunk_type().as_text(), String::from("RuSt"));
    assert_eq!(chunk_string, expected_chunk_string);
    assert_eq!(chunk.crc(), 2882656334);
}

#[test]
fn test_invalid_chunk_from_bytes() {
    let data_length: u32 = 42;
    let chunk_type = "RuSt".as_bytes();
    let message_bytes = "This is where your secret message will be!".as_bytes();
    let crc: u32 = 2882656333;

    let chunk_data: Vec<u8> = data_length
        .to_be_bytes()
        .iter()
        .chain(chunk_type.iter())
        .chain(message_bytes.iter())
        .chain(crc.to_be_bytes().iter())
        .copied()
        .collect();

    let chunk = Chunk::parse(chunk_data.as_ref());

    assert!(chunk.is_err());
}

#[test]
pub fn test_chunk_trait_impls() {
    let data_length: u32 = 42;
    let chunk_type = "RuSt".as_bytes();
    let message_bytes = "This is where your secret message will be!".as_bytes();
    let crc: u32 = 2882656334;

    let chunk_data: Vec<u8> = data_length
        .to_be_bytes()
        .iter()
        .chain(chunk_type.iter())
        .chain(message_bytes.iter())
        .chain(crc.to_be_bytes().iter())
        .copied()
        .collect();

    let chunk: Chunk = Chunk::parse(chunk_data.as_ref()).unwrap();

    let _chunk_string = chunk.render();
}

#[test]
fn test_chunk_round_trip() {
    let chunk_type = ChunkType::from_str("TeSt").unwrap();
    let chunk = Chunk::new(chunk_type, vec![1, 2, 3, 4, 5]);
    let bytes = chunk.as_bytes();
    let parsed = Chunk::parse(&bytes).unwrap();
    assert_eq!(parsed.length(), chunk.length());
    assert_eq!(parsed.chunk_type().bytes(), chunk.chunk_type().bytes());
    assert_eq!(parsed.data(), chunk.data());
    assert_eq!(parsed.crc(), chunk.crc());
}

#[test]
fn test_single_bit_flip_fails_checksum() {
    let chunk = testing_chunk();
    let bytes = chunk.as_bytes();
    // Flip each single bit of the type-code and payload regions in turn;
    // every corruption must be caught by the checksum cross-check.
    for byte_index in 4..(bytes.len() - 4) {
        for bit in 0..8 {
            let mut corrupted = bytes.clone();
            corrupted[byte_index] ^= 1u8 << bit;
            match Chunk::parse(&corrupted) {
                Err(PngError::ChecksumMismatch) => {}
                Err(PngError::InvalidTypeCode) => {
                    // A flip inside the type code may first fail the
                    // letter check; only those bytes may do so.
                    assert!(byte_index < 8);
                }
                other => panic!("corruption not detected: {:?}", other),
            }
        }
    }
}

#[test]
fn test_checksum_mismatch_error_kind() {
    let chunk = testing_chunk();
    let mut bytes = chunk.as_bytes();
    let last = bytes.len() - 1;
    bytes[last] ^= 1;
    assert!(matches!(Chunk::parse(&bytes), Err(PngError::ChecksumMismatch)));
}

#[test]
fn test_truncated_chunk() {
    assert!(matches!(Chunk::parse(&[0, 0, 0]), Err(PngError::Truncated)));
    // Length field promises 5 payload bytes but only 2 are present.
    let bytes = [0u8, 0, 0, 5, 82, 117, 83, 116, 1, 2];
    assert!(matches!(Chunk::parse(&bytes), Err(PngError::Truncated)));
}

#[test]
fn test_chunk_invalid_type_code() {
    // A digit in the type-code field fails before any checksum check.
    let bytes = [0u8, 0, 0, 0, 82, 117, 49, 116, 0, 0, 0, 0];
    assert!(matches!(Chunk::parse(&bytes), Err(PngError::InvalidTypeCode)));
}

#[test]
fn test_data_as_string_rejects_invalid_utf8() {
    let chunk_type = ChunkType::from_str("RuSt").unwrap();
    let chunk = Chunk::new(chunk_type, vec![0xff, 0xfe, 0x01]);
    assert!(matches!(chunk.data_as_string(), Err(PngError::EncodingError)));
}

#[test]
fn test_data_as_string_multibyte_utf8() {
    let chunk_type = ChunkType::from_str("RuSt").unwrap();
    let message = "na\u{ef}ve \u{2014} caf\u{e9}";
    let chunk = Chunk::new(chunk_type, message.as_bytes().to_vec());
    assert_eq!(chunk.data_as_string().unwrap(), message);
}

#[test]
fn test_chunk_render_line() {
    let chunk = testing_chunk();
    assert_eq!(
        chunk.render(),
        "Chunk (Type: RuSt; CRC: 2882656334; Length: 42)"
    );
}
