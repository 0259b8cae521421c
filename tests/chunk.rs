use enigma::{Chunk, ChunkType, PngError};

fn testing_chunk() -> Chunk {
    let data_length: u32 = 42;
    let chunk_type = "RuSt".as_bytes();
    let message_bytes = "This is where your secret message will be!".as_bytes();
    let crc: u32 = 2882656334;

    let chunk_data: Vec<u8> = data_length
        .to_be_bytes()
        .iter()
        .chain(chunk_type.iter())
        .chain(message_bytes.iter())
        .chain(crc.to_be_bytes().iter())
        .copied()
        .collect();

    Chunk::try_from(chunk_data.as_ref()).unwrap()
}

#[test]
fn test_new_chunk() {
    let chunk_type = ChunkType::from_str("RuSt").unwrap();
    let data = "This is where your secret message will be!".as_bytes().to_vec();
    let chunk = Chunk::new(chunk_type, data);
    assert_eq!(chunk.length(), 42);
    assert_eq!(chunk.crc(), 2882656334);
}

#[test]
fn test_chunk_length() {
    let chunk = testing_chunk();
    assert_eq!(chunk.length(), 42);
}

#[test]
fn test_chunk_type() {
    let chunk = testing_chunk();
    assert_eq!(chunk.chunk_type().to_string(), String::from("RuSt"));
}

#[test]
fn test_chunk_string() {
    let chunk = testing_chunk();
    let chunk_string = chunk.data_as_string().unwrap();
    let expected_chunk_string = String::from("This is where your secret message will be!");
    assert_eq!(chunk_string, expected_chunk_string);
}

#[test]
fn test_chunk_crc() {
    let chunk = testing_chunk();
    assert_eq!(chunk.crc(), 2882656334);
}

#[test]
fn test_valid_chunk_from_bytes() {
    let data_length: u32 = 42;
    let chunk_type = "RuSt".as_bytes();
    let message_bytes = "This is where your secret message will be!".as_bytes();
    let crc: u32 = 2882656334;

    let chunk_data: Vec<u8> = data_length
        .to_be_bytes()
        .iter()
        .chain(chunk_type.iter())
        .chain(message_bytes.iter())
        .chain(crc.to_be_bytes().iter())
        .copied()
        .collect();

    let chunk = Chunk::try_from(chunk_data.as_ref()).unwrap();

    let chunk_string = chunk.data_as_string().unwrap();
    let expected_chunk_string = String::from("This is where your secret message will be!");

    assert_eq!(chunk.length(), 42);
    assert_eq!(chunk.chunk_type().to_string(), String::from("RuSt"));
    assert_eq!(chunk_string, expected_chunk_string);
    assert_eq!(chunk.crc(), 2882656334);
}

#[test]
fn test_invalid_chunk_from_bytes() {
    let data_length: u32 = 42;
    let chunk_type = "RuSt".as_bytes();
    let message_bytes = "This is where your secret message will be!".as_bytes();
    let crc: u32 = 2882656333;

    let chunk_data: Vec<u8> = data_length
        .to_be_bytes()
        .iter()
        .chain(chunk_type.iter())
        .chain(message_bytes.iter())
        .chain(crc.to_be_bytes().iter())
        .copied()
        .collect();

    let chunk = Chunk::try_from(chunk_data.as_ref());

    assert!(chunk.is_err());
}

#[test]
pub fn test_chunk_trait_impls() {
    let data_length: u32 = 42;
    let chunk_type = "RuSt".as_bytes();
    let message_bytes = "This is where your secret message will be!".as_bytes();
    let crc: u32 = 2882656334;

    let chunk_data: Vec<u8> = data_length
        .to_be_bytes()
        .iter()
        .chain(chunk_type.iter())
        .chain(message_bytes.iter())
        .chain(crc.to_be_bytes().iter())
        .copied()
        .collect();

    let chunk: Chunk = Chunk::try_from(chunk_data.as_ref()).unwrap();

    let _chunk_string = format!("{:?}", chunk);
}

fn message_chunk() -> Chunk {
    let kind = ChunkType::from_str("RuSt").unwrap();
    Chunk::new(kind, "This is where your secret message will be!".as_bytes().to_vec())
}

#[test]
fn serialized_chunk_layout() {
    let chunk = message_chunk();
    let bytes = chunk.as_bytes();
    assert_eq!(bytes.len(), 12 + 42);
    assert_eq!(&bytes[0..4], &[0u8, 0, 0, 42][..]);
    assert_eq!(&bytes[4..8], "RuSt".as_bytes());
    assert_eq!(&bytes[8..50], "This is where your secret message will be!".as_bytes());
    assert_eq!(&bytes[50..54], &2882656334u32.to_be_bytes()[..]);
}

#[test]
fn chunk_round_trip() {
    let chunk = message_chunk();
    let parsed = Chunk::try_from(chunk.as_bytes().as_slice()).unwrap();
    assert_eq!(parsed, chunk);
    assert_eq!(parsed.crc(), chunk.crc());
    assert_eq!(parsed.data(), chunk.data());
}

#[test]
fn chunk_round_trip_empty_data() {
    let kind = ChunkType::from_str("IEND").unwrap();
    let chunk = Chunk::new(kind, Vec::new());
    let bytes = chunk.as_bytes();
    assert_eq!(bytes.len(), 12);
    // The standard IEND chunk of every PNG file.
    assert_eq!(chunk.crc(), 0xAE426082);
    let parsed = Chunk::try_from(bytes.as_slice()).unwrap();
    assert_eq!(parsed, chunk);
    assert_eq!(parsed.length(), 0);
}

#[test]
fn trailing_bytes_after_chunk_are_ignored() {
    let chunk = message_chunk();
    let mut bytes = chunk.as_bytes();
    bytes.extend_from_slice(&[1, 2, 3]);
    assert_eq!(Chunk::try_from(bytes.as_slice()).unwrap(), chunk);
}

#[test]
fn flipped_data_bit_is_checksum_mismatch() {
    let bytes = message_chunk().as_bytes();
    for k in 8..50 {
        for bit in 0..8 {
            let mut altered = bytes.clone();
            altered[k] ^= 1 << bit;
            assert_eq!(Chunk::try_from(altered.as_slice()), Err(PngError::ChecksumMismatch));
        }
    }
}

#[test]
fn flipped_type_bit_is_rejected() {
    let bytes = message_chunk().as_bytes();
    let mut case_flip = bytes.clone();
    case_flip[4] ^= 0x20;
    assert_eq!(Chunk::try_from(case_flip.as_slice()), Err(PngError::ChecksumMismatch));
    let mut not_letter = bytes.clone();
    not_letter[5] ^= 0x40;
    assert_eq!(Chunk::try_from(not_letter.as_slice()), Err(PngError::InvalidTypeCode));
}

#[test]
fn short_input_is_truncated() {
    let bytes = message_chunk().as_bytes();
    assert_eq!(Chunk::try_from(&bytes[0..11]), Err(PngError::Truncated));
    assert_eq!(Chunk::try_from(&bytes[0..53]), Err(PngError::Truncated));
    assert_eq!(Chunk::try_from(&[][..]), Err(PngError::Truncated));
}

#[test]
fn invalid_utf8_data_is_invalid_encoding() {
    let kind = ChunkType::from_str("ruSt").unwrap();
    let chunk = Chunk::new(kind, vec![0xff, 0xfe, 0x41]);
    assert_eq!(chunk.data_as_string(), Err(PngError::InvalidEncoding));
}

#[test]
fn utf8_data_reads_as_text() {
    let kind = ChunkType::from_str("ruSt").unwrap();
    let chunk = Chunk::new(kind, "h\u{e9}llo".as_bytes().to_vec());
    assert_eq!(chunk.data_as_string().unwrap(), "h\u{e9}llo");
}
