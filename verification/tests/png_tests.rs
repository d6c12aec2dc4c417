use pngme::chunk::Chunk;
use pngme::chunk_type::ChunkType;
use pngme::commands::{decode, encode, remove};
use pngme::error::PngError;
use pngme::png::Png;

fn chunk_from(type_text: &str, data: &[u8]) -> Chunk {
    let t = ChunkType::from_text(type_text).unwrap();
    Chunk::new(t, data.to_vec())
}

#[test]
fn chunk_type_from_bytes_keeps_the_quadruple() {
    let quad = [82u8, 117, 83, 116];
    let t = ChunkType::from_bytes(quad).unwrap();
    assert_eq!(t.bytes(), quad);

    let quad2 = [97u8, 122, 65, 90];
    let t2 = ChunkType::from_bytes(quad2).unwrap();
    assert_eq!(t2.bytes(), quad2);
}

#[test]
fn chunk_type_rejects_non_letters() {
    assert_eq!(
        ChunkType::from_bytes([82u8, 117, 51, 116]).unwrap_err(),
        PngError::InvalidBytes
    );
    assert_eq!(
        ChunkType::from_bytes([32u8, 97, 98, 99]).unwrap_err(),
        PngError::InvalidBytes
    );
    assert_eq!(
        ChunkType::from_bytes([64u8, 91, 96, 123]).unwrap_err(),
        PngError::InvalidBytes
    );
    assert_eq!(
        ChunkType::from_text("Ru1t").unwrap_err(),
        PngError::InvalidBytes
    );
    assert_eq!(
        ChunkType::from_text("abc").unwrap_err(),
        PngError::InvalidBytes
    );
    assert_eq!(
        ChunkType::from_text("abcde").unwrap_err(),
        PngError::InvalidBytes
    );
}

#[test]
fn chunk_type_validity_follows_the_reserved_byte() {
    let valid = ChunkType::from_text("RuSt").unwrap();
    assert!(valid.is_valid());
    assert!(valid.is_reserved_bit_valid());
    assert!(valid.is_critical());
    assert!(!valid.is_public());
    assert!(valid.is_safe_to_copy());

    let invalid = ChunkType::from_text("Rust").unwrap();
    assert!(!invalid.is_valid());
    assert!(!invalid.is_reserved_bit_valid());
}

#[test]
fn chunk_round_trip_preserves_every_field() {
    let original = chunk_from("TeSt", &[0u8, 255, 1, 254, 77]);
    let bytes = original.as_bytes();
    let parsed = Chunk::parse(&bytes).unwrap();
    assert_eq!(parsed.length(), original.length());
    assert_eq!(parsed.crc(), original.crc());
    assert_eq!(parsed.chunk_type().bytes(), original.chunk_type().bytes());
    assert_eq!(parsed.data(), original.data());
}

#[test]
fn crc_catches_every_single_bit_flip() {
    let chunk = chunk_from("RuSt", b"hello");
    let bytes = chunk.as_bytes();
    let payload_start = 8;
    let payload_end = bytes.len();
    for i in payload_start..payload_end {
        for bit in 0..8 {
            let mut corrupt = bytes.clone();
            corrupt[i] ^= 1 << bit;
            let r = Chunk::parse(&corrupt);
            assert_eq!(r.unwrap_err(), PngError::CrcMismatch);
        }
    }
}

#[test]
fn concrete_reference_vector() {
    let chunk = chunk_from("RuSt", b"This is where your secret message will be!");
    assert_eq!(chunk.length(), 42);
    assert_eq!(chunk.crc(), 2882656334);

    let mut bytes = chunk.as_bytes();
    let n = bytes.len();
    bytes[n - 1] = bytes[n - 1].wrapping_sub(1);
    assert!(Chunk::parse(&bytes).is_err());
}

#[test]
fn png_round_trip_reproduces_the_chunk_sequence() {
    let mut png = Png::new();
    png.append_chunk(chunk_from("FrSt", b"first"));
    png.append_chunk(chunk_from("TeSt", b"middle"));
    png.append_chunk(chunk_from("TeSt", &[250u8, 251, 252]));
    png.append_chunk(chunk_from("LaSt", b""));

    let bytes = png.as_bytes();
    let reparsed = Png::from_bytes(&bytes).unwrap();

    let before = png.chunks();
    let after = reparsed.chunks();
    assert_eq!(after.len(), before.len());
    for (a, b) in after.iter().zip(before.iter()) {
        assert_eq!(a.chunk_type().bytes(), b.chunk_type().bytes());
        assert_eq!(a.data(), b.data());
        assert_eq!(a.length(), b.length());
        assert_eq!(a.crc(), b.crc());
    }
}

#[test]
fn remove_takes_only_the_first_of_duplicates() {
    let mut png = Png::new();
    png.append_chunk(chunk_from("FrSt", b"one"));
    png.append_chunk(chunk_from("TeSt", b"two"));
    png.append_chunk(chunk_from("TeSt", b"three"));

    png.remove_first_chunk("TeSt").unwrap();

    let chunks = png.chunks();
    assert_eq!(chunks.len(), 2);
    assert_eq!(chunks[0].chunk_type().to_text(), "FrSt");
    assert_eq!(chunks[0].data().as_slice(), b"one");
    assert_eq!(chunks[1].chunk_type().to_text(), "TeSt");
    assert_eq!(chunks[1].data().as_slice(), b"three");

    let err = png.remove_first_chunk("NoNe").unwrap_err();
    assert_eq!(err, PngError::ChunkNotFound);
    assert_eq!(png.chunks().len(), 2);
    assert_eq!(png.chunks()[0].data().as_slice(), b"one");
    assert_eq!(png.chunks()[1].data().as_slice(), b"three");
}

#[test]
fn lookup_reports_absence_without_failing() {
    let empty = Png::new();
    assert!(empty.chunk_by_type("TeSt").is_none());

    let mut png = Png::new();
    png.append_chunk(chunk_from("FrSt", b"one"));
    assert!(png.chunk_by_type("TeSt").is_none());

    let found = png.chunk_by_type("FrSt").unwrap();
    assert_eq!(found.data().as_slice(), b"one");
}

#[test]
fn bad_signature_is_reported_whatever_follows() {
    let mut png = Png::new();
    png.append_chunk(chunk_from("TeSt", b"payload"));
    let mut bytes = png.as_bytes();
    bytes[0] = 0;
    assert_eq!(Png::from_bytes(&bytes).unwrap_err(), PngError::BadSignature);

    let other = [1u8, 2, 3, 4, 5, 6, 7, 8, 9, 10];
    assert_eq!(Png::from_bytes(&other).unwrap_err(), PngError::BadSignature);

    let short = [137u8, 80, 78];
    assert_eq!(Png::from_bytes(&short).unwrap_err(), PngError::TooShort);
}

#[test]
fn header_is_the_fixed_signature() {
    assert_eq!(Png::header(), [137u8, 80, 78, 71, 13, 10, 26, 10]);
    let empty = Png::new();
    assert_eq!(empty.as_bytes(), vec![137u8, 80, 78, 71, 13, 10, 26, 10]);
    let reparsed = Png::from_bytes(&empty.as_bytes()).unwrap();
    assert_eq!(reparsed.chunks().len(), 0);
}

#[test]
fn truncated_and_trailing_bytes_fail_parsing() {
    assert_eq!(
        Chunk::parse(&[0u8, 0, 0, 1, 82]).unwrap_err(),
        PngError::TooShort
    );

    let chunk = chunk_from("TeSt", b"data");
    let mut declared_too_long = chunk.as_bytes();
    declared_too_long[3] = 200;
    assert_eq!(
        Chunk::parse(&declared_too_long).unwrap_err(),
        PngError::TooShort
    );

    let mut png = Png::new();
    png.append_chunk(chunk_from("TeSt", b"data"));
    let mut bytes = png.as_bytes();
    bytes.extend_from_slice(&[1u8, 2, 3]);
    assert_eq!(Png::from_bytes(&bytes).unwrap_err(), PngError::TooShort);
}

#[test]
fn stream_with_bad_type_bytes_fails_parsing() {
    let mut bytes = Png::header().to_vec();
    bytes.extend_from_slice(&[0u8, 0, 0, 0]);
    bytes.extend_from_slice(b"Te5t");
    bytes.extend_from_slice(&[0u8, 0, 0, 0]);
    assert_eq!(Png::from_bytes(&bytes).unwrap_err(), PngError::InvalidBytes);
}

#[test]
fn payload_that_is_not_utf8_is_a_decoding_error() {
    let chunk = chunk_from("TeSt", &[0xC3u8, 0x28]);
    assert_eq!(chunk.data_as_string().unwrap_err(), PngError::NotUtf8);
}

#[test]
fn display_text_names_the_fields() {
    let chunk = chunk_from("RuSt", b"This is where your secret message will be!");
    let text = chunk.to_text();
    assert!(text.contains("Chunk Type: RuSt"));
    assert!(text.contains("Length: 42"));
    assert!(text.contains("CRC: 2882656334"));
    assert!(text.contains("Data: This is where your secret message will be!"));

    let lossy = chunk_from("TeSt", &[0xFFu8, 0xFE]).to_text();
    assert!(lossy.contains('\u{FFFD}'));
}

#[test]
fn encode_appends_exactly_one_chunk() {
    let png = encode(Png::new(), "TeSt", "hello there").unwrap();
    assert_eq!(png.chunks().len(), 1);
    assert_eq!(png.chunks()[0].chunk_type().to_text(), "TeSt");
    assert_eq!(png.chunks()[0].data().as_slice(), b"hello there");

    assert_eq!(
        encode(Png::new(), "12ab", "hello").unwrap_err(),
        PngError::InvalidBytes
    );
}

#[test]
fn decode_finds_the_hidden_message() {
    let png = encode(Png::new(), "TeSt", "the secret").unwrap();

    let chunk = decode(&png, "TeSt").unwrap();
    assert_eq!(chunk.data_as_string().unwrap(), "the secret");

    assert_eq!(decode(&png, "Te5t").unwrap_err(), PngError::InvalidBytes);
    assert_eq!(decode(&png, "Test").unwrap_err(), PngError::InvalidBytes);
    assert_eq!(decode(&png, "AbCd").unwrap_err(), PngError::ChunkNotFound);
}

#[test]
fn remove_command_round_trip() {
    let png = encode(Png::new(), "TeSt", "gone soon").unwrap();
    let png = remove(png, "TeSt").unwrap();
    assert_eq!(png.chunks().len(), 0);

    assert_eq!(
        remove(Png::new(), "TeSt").unwrap_err(),
        PngError::ChunkNotFound
    );
    assert_eq!(
        remove(Png::new(), "bad!").unwrap_err(),
        PngError::InvalidBytes
    );
}
