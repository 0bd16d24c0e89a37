use pngme::chunk::Chunk;
use pngme::chunk_type::ChunkType;
use pngme::png::Png;
use pngme::PngError;

fn chunk_from(tag: &str, message: &str) -> Chunk {
    Chunk::new(
        ChunkType::from_text(tag).unwrap(),
        message.as_bytes().to_vec(),
    )
}

fn testing_png() -> Png {
    let chunks = vec![
        chunk_from("FrSt", "I am the first chunk"),
        chunk_from("miDl", "I am another chunk"),
        chunk_from("LASt", "I am the last chunk"),
    ];
    Png::from_chunks(chunks)
}

#[test]
fn test_chunk_round_trip_exact() {
    let chunk = chunk_from("RuSt", "This is where your secret message will be!");
    let encoded = chunk.as_bytes();
    assert_eq!(encoded.len(), 12 + 42);
    let decoded = Chunk::parse(&encoded).unwrap();
    assert_eq!(decoded.length(), chunk.length());
    assert_eq!(decoded.chunk_type().bytes(), chunk.chunk_type().bytes());
    assert_eq!(decoded.data(), chunk.data());
    assert_eq!(decoded.crc(), chunk.crc());
}

#[test]
fn test_png_round_trip() {
    let png = testing_png();
    let bytes = png.as_bytes();
    let reparsed = Png::parse(&bytes).unwrap();
    assert_eq!(reparsed.chunks().len(), png.chunks().len());
    for (a, b) in reparsed.chunks().iter().zip(png.chunks().iter()) {
        assert_eq!(a.chunk_type().bytes(), b.chunk_type().bytes());
        assert_eq!(a.data(), b.data());
        assert_eq!(a.crc(), b.crc());
    }
}

#[test]
fn test_png_as_bytes_layout() {
    let png = testing_png();
    let bytes = png.as_bytes();
    assert_eq!(&bytes[0..8], &[137, 80, 78, 71, 13, 10, 26, 10]);
    let mut expected: Vec<u8> = Png::signature().to_vec();
    for chunk in png.chunks() {
        expected.extend_from_slice(&chunk.as_bytes());
    }
    assert_eq!(bytes, expected);
}

#[test]
fn test_crc_bit_flip_in_crc_field_fails() {
    let chunk = chunk_from("RuSt", "hidden");
    let encoded = chunk.as_bytes();
    let crc_start = encoded.len() - 4;
    for byte in crc_start..encoded.len() {
        for bit in 0..8 {
            let mut corrupt = encoded.clone();
            corrupt[byte] ^= 1 << bit;
            assert_eq!(Chunk::parse(&corrupt).unwrap_err(), PngError::ChecksumMismatch);
        }
    }
}

#[test]
fn test_bit_flip_in_data_or_type_fails() {
    let chunk = chunk_from("RuSt", "hidden");
    let encoded = chunk.as_bytes();
    for byte in 4..(encoded.len() - 4) {
        for bit in 0..8 {
            let mut corrupt = encoded.clone();
            corrupt[byte] ^= 1 << bit;
            assert!(Chunk::parse(&corrupt).is_err());
        }
    }
}

#[test]
fn test_tag_alphabet() {
    for b in 0..=255u8 {
        let r = ChunkType::try_new([b, 117, 83, 116]);
        if b.is_ascii_uppercase() || b.is_ascii_lowercase() {
            assert_eq!(r.unwrap().bytes(), [b, 117, 83, 116]);
        } else {
            assert_eq!(r.unwrap_err(), PngError::InvalidTag);
        }
    }
    assert_eq!(
        ChunkType::from_text("RuS").unwrap_err(),
        PngError::InvalidTag
    );
    assert_eq!(
        ChunkType::from_text("RuSty").unwrap_err(),
        PngError::InvalidTag
    );
    assert_eq!(
        ChunkType::from_text("Ru;t").unwrap_err(),
        PngError::InvalidTag
    );
}

#[test]
fn test_lookup_and_remove_first_duplicate() {
    let mut png = Png::from_chunks(vec![
        chunk_from("AaAa", "one"),
        chunk_from("BbBb", "two"),
        chunk_from("AaAa", "three"),
    ]);

    let found = png.chunk_by_type("AaAa").unwrap();
    assert_eq!(found.data_as_string().unwrap(), "one");

    let removed = png.remove_chunk("AaAa").unwrap();
    assert_eq!(removed.data_as_string().unwrap(), "one");

    assert_eq!(png.chunks().len(), 2);
    assert_eq!(png.chunks()[0].chunk_type().to_text(), "BbBb");
    assert_eq!(png.chunks()[1].chunk_type().to_text(), "AaAa");
    assert_eq!(png.chunks()[1].data_as_string().unwrap(), "three");

    assert_eq!(
        png.remove_chunk("NoPe").unwrap_err(),
        PngError::ChunkNotFound
    );
    assert!(png.chunk_by_type("NoPe").is_none());
}

#[test]
fn test_signature_rejection() {
    let png = testing_png();
    let mut bytes = png.as_bytes();
    bytes[0] = 42;
    assert_eq!(Png::parse(&bytes).unwrap_err(), PngError::InvalidSignature);
    assert_eq!(Png::parse(&[137, 80, 78]).unwrap_err(), PngError::InvalidSignature);
    assert_eq!(Png::parse(&[]).unwrap_err(), PngError::InvalidSignature);
}

#[test]
fn test_truncated_chunk_fails() {
    let chunk = chunk_from("RuSt", "hidden");
    let encoded = chunk.as_bytes();
    assert_eq!(
        Chunk::parse(&encoded[0..7]).unwrap_err(),
        PngError::TruncatedInput
    );
    assert_eq!(
        Chunk::parse(&encoded[0..encoded.len() - 1]).unwrap_err(),
        PngError::TruncatedInput
    );

    let mut png_bytes: Vec<u8> = Png::signature().to_vec();
    png_bytes.extend_from_slice(&encoded[0..encoded.len() - 1]);
    assert_eq!(Png::parse(&png_bytes).unwrap_err(), PngError::TruncatedInput);
}

#[test]
fn test_invalid_utf8_payload() {
    let chunk = Chunk::new(
        ChunkType::from_text("RuSt").unwrap(),
        vec![0xff, 0xfe, 0x41],
    );
    assert_eq!(chunk.data_as_string().unwrap_err(), PngError::InvalidUtf8);
}

#[test]
fn test_embed_keeps_terminator_last() {
    let mut png = Png::from_chunks(vec![
        chunk_from("FrSt", "I am the first chunk"),
        chunk_from("IEND", ""),
    ]);
    png.embed_chunk(chunk_from("RuSt", "hidden"));

    assert_eq!(png.chunks().len(), 3);
    assert_eq!(png.chunks()[0].chunk_type().to_text(), "FrSt");
    assert_eq!(png.chunks()[1].chunk_type().to_text(), "RuSt");
    assert_eq!(png.chunks()[2].chunk_type().to_text(), "IEND");
}

#[test]
fn test_embed_without_terminator_appends() {
    let mut png = Png::from_chunks(vec![chunk_from("FrSt", "I am the first chunk")]);
    png.embed_chunk(chunk_from("RuSt", "hidden"));

    assert_eq!(png.chunks().len(), 2);
    assert_eq!(png.chunks()[1].chunk_type().to_text(), "RuSt");
}

#[test]
fn test_parse_empty_png() {
    let bytes = Png::signature();
    let png = Png::parse(&bytes).unwrap();
    assert_eq!(png.chunks().len(), 0);
    assert_eq!(png.as_bytes(), bytes.to_vec());
}

#[test]
fn test_empty_payload_chunk() {
    let chunk = chunk_from("RuSt", "");
    assert_eq!(chunk.length(), 0);
    assert_eq!(chunk.data_as_string().unwrap(), "");
    let encoded = chunk.as_bytes();
    assert_eq!(encoded.len(), 12);
    let decoded = Chunk::parse(&encoded).unwrap();
    assert_eq!(decoded.crc(), chunk.crc());
}
