use pngsm::Chunk;
use pngsm::ChunkError;
use pngsm::ChunkType;
use pngsm::ChunkTypeError;
use pngsm::Png;
use pngsm::PngError;

fn chunk_of(tag: &str, payload: &[u8]) -> Chunk {
    Chunk::new(ChunkType::from_str(tag).unwrap(), payload.to_vec())
}

fn testing_png() -> Png {
    Png::from_chunks(vec![
        chunk_of("FrSt", b"I am the first chunk"),
        chunk_of("miDl", b"I am another chunk"),
        chunk_of("LASt", b"I am the last chunk"),
    ])
}

#[test]
fn test_chunk_round_trip() {
    let chunk = chunk_of("RuSt", b"round and round");
    let wire = chunk.as_bytes();
    assert_eq!(wire.len(), 12 + 15);
    let parsed = Chunk::try_from(wire.as_ref()).unwrap();
    assert_eq!(parsed.chunk_type(), chunk.chunk_type());
    assert_eq!(parsed.data(), chunk.data());
    assert_eq!(parsed.crc(), chunk.crc());
}

#[test]
fn test_container_round_trip() {
    let png = testing_png();
    let wire = png.as_bytes();
    let parsed = Png::try_from(wire.as_ref()).unwrap();
    assert_eq!(parsed.chunks().len(), png.chunks().len());
    for (a, b) in parsed.chunks().iter().zip(png.chunks().iter()) {
        assert_eq!(a.chunk_type(), b.chunk_type());
        assert_eq!(a.data(), b.data());
    }
    assert_eq!(parsed.as_bytes(), wire);
}

#[test]
fn test_corrupt_crc_any_byte() {
    let chunk = chunk_of("RuSt", b"guarded by a checksum");
    let wire = chunk.as_bytes();
    let n = wire.len();
    for i in n - 4..n {
        let mut bad = wire.clone();
        bad[i] = bad[i].wrapping_add(1);
        match Chunk::try_from(bad.as_ref()) {
            Err(ChunkError::InvalidCrc(computed, stored)) => {
                assert_eq!(computed, chunk.crc());
                assert_ne!(computed, stored);
            },
            other => panic!("expected an integrity error, got {:?}", other),
        }
    }
}

#[test]
fn test_corrupt_header_any_byte() {
    let png = testing_png();
    let wire = png.as_bytes();
    for i in 0..8 {
        let mut bad = wire.clone();
        bad[i] = bad[i].wrapping_add(1);
        assert_eq!(Png::try_from(bad.as_ref()).unwrap_err(), PngError::WrongHeader);
    }
}

#[test]
fn test_remove_missing_type() {
    let mut png = testing_png();
    let before = png.chunks().len();
    assert_eq!(png.remove_chunk("NoNe").unwrap_err(), PngError::NoChunkType);
    assert_eq!(png.chunks().len(), before);
}

#[test]
fn test_lookup_missing_type() {
    let png = testing_png();
    assert!(png.chunk_by_type("NoNe").is_none());
    assert!(png.chunk_by_type("not a tag").is_none());
}

#[test]
fn test_secret_message_scenario() {
    let message = "This is where your secret message will be!";
    let chunk = chunk_of("RuSt", message.as_bytes());
    assert_eq!(chunk.length(), 42);
    assert_eq!(chunk.crc(), 2882656334);
    let wire = chunk.as_bytes();
    assert_eq!(wire.len(), 54);
    let parsed = Chunk::try_from(wire.as_ref()).unwrap();
    assert_eq!(parsed.data_as_string().unwrap(), message);
}

#[test]
fn test_reserved_bit_gate() {
    let lax = ChunkType::from_str("Rust").unwrap();
    assert!(!lax.is_valid());
    let wire = Chunk::new(lax, b"hidden".to_vec()).as_bytes();
    assert_eq!(
        Chunk::try_from(wire.as_ref()).unwrap_err(),
        ChunkError::InvalidChunkType
    );

    let strict = ChunkType::from_str("RuSt").unwrap();
    assert!(strict.is_valid());
    let wire = Chunk::new(strict, b"hidden".to_vec()).as_bytes();
    assert!(Chunk::try_from(wire.as_ref()).is_ok());
}

#[test]
fn test_append_then_remove() {
    let mut png = testing_png();
    let before = png.as_bytes();
    png.append_chunk(chunk_of("TeSt", b"passing through"));
    let removed = png.remove_chunk("TeSt").unwrap();
    assert_eq!(removed.data(), b"passing through");
    assert_eq!(png.as_bytes(), before);
}

#[test]
fn test_remove_takes_first_match() {
    let mut png = Png::from_chunks(vec![
        chunk_of("DuPl", b"one"),
        chunk_of("DuPl", b"two"),
    ]);
    let removed = png.remove_chunk("DuPl").unwrap();
    assert_eq!(removed.data(), b"one");
    assert_eq!(png.chunks().len(), 1);
    assert_eq!(png.chunks()[0].data(), b"two");
}

#[test]
fn test_lookup_finds_first_match() {
    let png = Png::from_chunks(vec![
        chunk_of("DuPl", b"one"),
        chunk_of("DuPl", b"two"),
    ]);
    assert_eq!(png.chunk_by_type("DuPl").unwrap().data(), b"one");
}

#[test]
fn test_remove_invalid_type_string() {
    let mut png = testing_png();
    assert_eq!(
        png.remove_chunk("Ru1t").unwrap_err(),
        PngError::InvalidType(ChunkTypeError::InvalidChar('1'))
    );
    assert_eq!(
        png.remove_chunk("toolong").unwrap_err(),
        PngError::InvalidType(ChunkTypeError::InvalidLen(7))
    );
}

#[test]
fn test_chunk_too_small() {
    let short = [0u8; 11];
    assert_eq!(
        Chunk::try_from(short.as_ref()).unwrap_err(),
        ChunkError::InputValueTooSmall
    );
}

#[test]
fn test_chunk_truncated() {
    let mut wire = chunk_of("RuSt", b"cut off").as_bytes();
    wire[3] += 1;
    assert_eq!(
        Chunk::try_from(wire.as_ref()).unwrap_err(),
        ChunkError::Truncated
    );
}

#[test]
fn test_truncation_beats_bad_tag() {
    let mut bytes = vec![0xFF, 0xFF, 0xFF, 0xFF];
    bytes.extend_from_slice(b"1111");
    bytes.extend_from_slice(&[0, 0, 0, 0]);
    assert_eq!(
        Chunk::try_from(bytes.as_ref()).unwrap_err(),
        ChunkError::Truncated
    );
}

#[test]
fn test_chunk_type_bad_byte() {
    assert_eq!(
        ChunkType::try_from([82, 117, 49, 116]).unwrap_err(),
        ChunkTypeError::InvalidValue(49)
    );
}

#[test]
fn test_unreadable_payload() {
    let chunk = chunk_of("RuSt", &[72, 105, 0]);
    assert_eq!(chunk.data_as_string().unwrap_err(), ChunkError::NotReadable);
}

#[test]
fn test_container_propagates_chunk_error() {
    let png = testing_png();
    let mut wire = png.as_bytes();
    let n = wire.len();
    wire[n - 1] = wire[n - 1].wrapping_add(1);
    match Png::try_from(wire.as_ref()) {
        Err(PngError::InvalidChunk(ChunkError::InvalidCrc(_, _))) => {},
        other => panic!("expected an integrity error, got {:?}", other),
    }
}

#[test]
fn test_container_rejects_leftover_bytes() {
    let png = testing_png();
    let mut wire = png.as_bytes();
    wire.extend_from_slice(&[0, 0, 0]);
    assert_eq!(
        Png::try_from(wire.as_ref()).unwrap_err(),
        PngError::InvalidChunk(ChunkError::InputValueTooSmall)
    );
}

#[test]
fn test_empty_payload_round_trip() {
    let chunk = chunk_of("EmTy", b"");
    let wire = chunk.as_bytes();
    assert_eq!(wire.len(), 12);
    let parsed = Chunk::try_from(wire.as_ref()).unwrap();
    assert_eq!(parsed.length(), 0);
    assert_eq!(parsed.data_as_string().unwrap(), "");
}

#[test]
fn test_empty_container_round_trip() {
    let png = Png::from_chunks(Vec::new());
    let wire = png.as_bytes();
    assert_eq!(wire, Png::standard_header().to_vec());
    let parsed = Png::try_from(wire.as_ref()).unwrap();
    assert_eq!(parsed.chunks().len(), 0);
}
