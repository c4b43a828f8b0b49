use zmanager_core::lzop_decoder::{decode_lzop, LzopErrorKind, LzopFailure, LzopReader};

/// A minimal valid lzop stream with one stored (uncompressed) block and no
/// optional checksums.
fn stored_lzop_stream(payload: &[u8]) -> Vec<u8> {
    let mut stream = Vec::new();
    stream.extend_from_slice(&[0x89, 0x4c, 0x5a, 0x4f, 0x00, 0x0d, 0x0a, 0x1a, 0x0a]);

    let mut header = Vec::new();
    header.extend_from_slice(&0x1030_u16.to_be_bytes());
    header.extend_from_slice(&0x2080_u16.to_be_bytes());
    header.extend_from_slice(&0x0940_u16.to_be_bytes());
    header.push(1);
    header.push(5);
    header.extend_from_slice(&0_u32.to_be_bytes());
    header.extend_from_slice(&0_u32.to_be_bytes());
    header.extend_from_slice(&0_u64.to_be_bytes());
    header.push(0);
    stream.extend_from_slice(&header);
    stream.extend_from_slice(&adler2::adler32_slice(&header).to_be_bytes());

    stream.extend_from_slice(&u32::try_from(payload.len()).unwrap().to_be_bytes());
    stream.extend_from_slice(&u32::try_from(payload.len()).unwrap().to_be_bytes());
    stream.extend_from_slice(payload);
    stream.extend_from_slice(&0_u32.to_be_bytes());
    stream
}

fn read_to_end(reader: &mut LzopReader) -> Result<Vec<u8>, zmanager_core::lzop_decoder::LzopError> {
    let mut decoded = Vec::new();
    loop {
        let chunk = reader.read(7)?;
        if chunk.is_empty() {
            return Ok(decoded);
        }
        decoded.extend_from_slice(&chunk);
    }
}

#[test]
fn decodes_stored_block_stream() {
    let payload = b"lzop stored block payload";
    let stream = stored_lzop_stream(payload);
    let mut reader = LzopReader::new(stream).unwrap();
    let decoded = read_to_end(&mut reader).unwrap();
    assert_eq!(decoded, payload);
}

#[test]
fn rejects_bad_magic() {
    let error = LzopReader::new(b"not lzop at all".to_vec()).err().unwrap();
    assert_eq!(error.kind(), LzopErrorKind::InvalidData);
}

#[test]
fn rejects_corrupted_header_checksum() {
    let mut stream = stored_lzop_stream(b"payload");
    stream[10] ^= 0xff;
    let error = LzopReader::new(stream).err().unwrap();
    assert_eq!(error.kind(), LzopErrorKind::InvalidData);
    assert!(error.message.contains("corrupted lzop header"), "{}", error.message);
}

#[test]
fn rejects_oversized_block_declaration() {
    let mut stream = stored_lzop_stream(b"payload");
    let block_size_offset = 9 + 25 + 4;
    stream[block_size_offset..block_size_offset + 4].copy_from_slice(&(70 * 1024 * 1024_u32).to_be_bytes());
    let mut reader = LzopReader::new(stream).unwrap();
    let error = read_to_end(&mut reader).err().unwrap();
    assert!(error.message.contains("64 MiB"), "{}", error.message);
}

#[test]
fn whole_stream_decoding_matches_the_reader() {
    let payload = b"one block, stored";
    let stream = stored_lzop_stream(payload);
    assert_eq!(decode_lzop(&stream).unwrap(), payload);
}

#[test]
fn truncated_stream_is_invalid_data() {
    let stream = stored_lzop_stream(b"payload");
    let error = decode_lzop(&stream[..20]).err().unwrap();
    assert_eq!(error.failure, LzopFailure::Truncated);
    assert_eq!(error.kind(), LzopErrorKind::InvalidData);
}

#[test]
fn empty_stream_has_no_blocks() {
    let stream = stored_lzop_stream(b"");
    // An empty first block size ends the stream at once.
    assert_eq!(decode_lzop(&stream).unwrap(), Vec::<u8>::new());
}
