use enigma::edit::{decode_bytes, encode_bytes, remove_bytes};
use enigma::{Chunk, ChunkType, Png, PngError};

const SIGNATURE: [u8; 8] = [137, 80, 78, 71, 13, 10, 26, 10];

fn chunk(kind: &str, data: &str) -> Chunk {
    Chunk::new(ChunkType::from_str(kind).unwrap(), data.as_bytes().to_vec())
}

fn sample_png() -> Png {
    Png::from_chunks(vec![
        chunk("FrSt", "I am the first chunk"),
        chunk("miDl", "I am another chunk"),
        chunk("LASt", "I am the last chunk"),
    ])
}

#[test]
fn header_is_png_signature() {
    assert_eq!(Png::header(), SIGNATURE);
}

#[test]
fn signature_only_is_empty_file() {
    let png = Png::try_from(&SIGNATURE[..]).unwrap();
    assert!(png.chunks().is_empty());
    assert_eq!(png.as_bytes(), SIGNATURE.to_vec());
}

#[test]
fn bad_signature_is_rejected() {
    let mut bytes = sample_png().as_bytes();
    bytes[1] = b'Q';
    assert_eq!(Png::try_from(bytes.as_slice()).unwrap_err(), PngError::BadSignature);
    assert_eq!(Png::try_from(&SIGNATURE[..7]).unwrap_err(), PngError::BadSignature);
    assert_eq!(Png::try_from(&[][..]).unwrap_err(), PngError::BadSignature);
}

#[test]
fn truncated_final_chunk_is_rejected() {
    let bytes = sample_png().as_bytes();
    let cut = &bytes[..bytes.len() - 5];
    assert_eq!(Png::try_from(cut).unwrap_err(), PngError::Truncated);
    let mut declared_too_long = SIGNATURE.to_vec();
    declared_too_long.extend_from_slice(&chunk("ruSt", "abc").as_bytes());
    declared_too_long[11] = 200;
    assert_eq!(Png::try_from(declared_too_long.as_slice()).unwrap_err(), PngError::Truncated);
    let mut short_tail = bytes.clone();
    short_tail.extend_from_slice(&[0, 0, 0]);
    assert_eq!(Png::try_from(short_tail.as_slice()).unwrap_err(), PngError::Truncated);
}

#[test]
fn chunk_error_aborts_parse() {
    let mut bytes = sample_png().as_bytes();
    let last = bytes.len() - 1;
    bytes[last] ^= 1;
    assert_eq!(Png::try_from(bytes.as_slice()).unwrap_err(), PngError::ChecksumMismatch);
}

#[test]
fn serialize_parse_serialize_is_identity() {
    let bytes = sample_png().as_bytes();
    let png = Png::try_from(bytes.as_slice()).unwrap();
    assert_eq!(png.chunks().len(), 3);
    assert_eq!(png.chunks()[1], chunk("miDl", "I am another chunk"));
    assert_eq!(png.as_bytes(), bytes);
}

#[test]
fn serialized_length_is_sum_of_parts() {
    let bytes = sample_png().as_bytes();
    assert_eq!(bytes.len(), 8 + (12 + 20) + (12 + 18) + (12 + 19));
    assert_eq!(&bytes[..8], &SIGNATURE[..]);
}

#[test]
fn append_then_lookup_then_remove() {
    let mut png = sample_png();
    let added = chunk("TeSt", "Message");
    png.append_chunk(added.clone());
    assert_eq!(png.chunks().len(), 4);
    assert_eq!(png.chunk_by_type("TeSt"), Some(&added));
    let removed = png.remove_first_chunk("TeSt").unwrap();
    assert_eq!(removed, added);
    assert_eq!(png.chunk_by_type("TeSt"), None);
    assert_eq!(png.as_bytes(), sample_png().as_bytes());
}

#[test]
fn lookup_finds_first_of_type() {
    let mut png = sample_png();
    png.append_chunk(chunk("miDl", "second of its type"));
    assert_eq!(png.chunk_by_type("miDl").unwrap().data_as_string().unwrap(), "I am another chunk");
    assert_eq!(png.chunk_by_type("MIDL"), None);
    assert_eq!(png.chunk_by_type("miD"), None);
}

#[test]
fn remove_takes_first_and_keeps_order() {
    let mut png = sample_png();
    png.append_chunk(chunk("miDl", "second of its type"));
    let removed = png.remove_first_chunk("miDl").unwrap();
    assert_eq!(removed.data_as_string().unwrap(), "I am another chunk");
    let kinds: Vec<String> = png.chunks().iter().map(|c| c.chunk_type().to_string()).collect();
    assert_eq!(kinds, vec!["FrSt", "LASt", "miDl"]);
}

#[test]
fn remove_absent_is_not_found() {
    let mut png = sample_png();
    let before = png.as_bytes();
    assert_eq!(png.remove_first_chunk("NoNe").unwrap_err(), PngError::NotFound);
    assert_eq!(png.as_bytes(), before);
    assert_eq!(png.chunks().len(), 3);
}

#[test]
fn encode_decode_remove_on_bytes() {
    let file = sample_png().as_bytes();
    let encoded = encode_bytes(&file, "ruSt", "hidden words").unwrap();
    assert_eq!(encoded.len(), file.len() + 12 + 12);
    assert_eq!(decode_bytes(&encoded, "ruSt").unwrap(), "hidden words");
    let (rest, removed) = remove_bytes(&encoded, "ruSt").unwrap();
    assert_eq!(removed.data_as_string().unwrap(), "hidden words");
    assert_eq!(rest, file);
    assert_eq!(decode_bytes(&rest, "ruSt").unwrap_err(), PngError::NotFound);
    assert_eq!(remove_bytes(&rest, "ruSt").unwrap_err(), PngError::NotFound);
}

#[test]
fn encode_rejects_bad_type_and_bad_file() {
    let file = sample_png().as_bytes();
    assert_eq!(encode_bytes(&file, "ru5t", "x").unwrap_err(), PngError::InvalidTypeCode);
    assert_eq!(encode_bytes(&file[1..], "ruSt", "x").unwrap_err(), PngError::BadSignature);
    assert_eq!(decode_bytes(&file[1..], "ruSt").unwrap_err(), PngError::BadSignature);
}

#[test]
fn decode_of_binary_data_is_invalid_encoding() {
    let mut png = sample_png();
    png.append_chunk(Chunk::new(ChunkType::from_str("biNa").unwrap(), vec![0xc3, 0x28]));
    let file = png.as_bytes();
    assert_eq!(decode_bytes(&file, "biNa").unwrap_err(), PngError::InvalidEncoding);
}
