use utf16_reader::DecodeError;
use utf16_reader::Decoder;
use utf16_reader::decode_chunks;
use utf16_reader::read_to_string;

fn be_bytes(text: &str) -> Vec<u8> {
    let mut out: Vec<u8> = Vec::new();
    for u in text.encode_utf16() {
        out.push((u >> 8) as u8);
        out.push((u & 0xFF) as u8);
    }
    out
}

fn le_bytes(text: &str) -> Vec<u8> {
    let mut out: Vec<u8> = Vec::new();
    for u in text.encode_utf16() {
        out.push((u & 0xFF) as u8);
        out.push((u >> 8) as u8);
    }
    out
}

#[test]
fn decode_big_endian_with_bom() {
    let mut bytes = vec![0xFE, 0xFF];
    bytes.extend(be_bytes("This is a test"));
    assert_eq!(read_to_string(&bytes).unwrap(), "This is a test");
}

#[test]
fn decode_little_endian_with_bom() {
    let mut bytes = vec![0xFF, 0xFE];
    bytes.extend(le_bytes("This is a test"));
    assert_eq!(read_to_string(&bytes).unwrap(), "This is a test");
}

#[test]
fn decode_no_bom_defaults_to_big_endian() {
    let bytes = be_bytes("This is a test");
    assert_eq!(read_to_string(&bytes).unwrap(), "This is a test");
}

#[test]
fn decode_concrete_big_endian_bytes() {
    let bytes = [0x00, 0x54, 0x00, 0x68, 0x00, 0x69, 0x00, 0x73];
    assert_eq!(read_to_string(&bytes).unwrap(), "This");
}

#[test]
fn round_trip_with_surrogate_pair() {
    let text = "a\u{1F600}z";
    let mut bytes = vec![0xFE, 0xFF];
    bytes.extend(be_bytes(text));
    assert_eq!(read_to_string(&bytes).unwrap(), text);

    let mut bytes = vec![0xFF, 0xFE];
    bytes.extend(le_bytes(text));
    assert_eq!(read_to_string(&bytes).unwrap(), text);
}

#[test]
fn empty_input_decodes_to_empty() {
    assert_eq!(read_to_string(&[]).unwrap(), "");
}

#[test]
fn bom_only_decodes_to_empty() {
    assert_eq!(read_to_string(&[0xFE, 0xFF]).unwrap(), "");
    assert_eq!(read_to_string(&[0xFF, 0xFE]).unwrap(), "");
}

#[test]
fn streaming_one_byte_chunks_match_single_chunk() {
    let mut bytes = vec![0xFE, 0xFF];
    bytes.extend(be_bytes("This is a \u{1F600} test"));
    let whole = read_to_string(&bytes).unwrap();

    let mut d = Decoder::new();
    for b in &bytes {
        d.push_bytes(&[*b]);
    }
    assert_eq!(d.finish(false).unwrap(), whole);
}

#[test]
fn streaming_split_inside_code_unit() {
    // "Th" big-endian without a BOM, split between the two bytes of 'T'
    // and between the two bytes of 'h'.
    let mut d = Decoder::new();
    d.push_bytes(&[0x00]);
    d.push_bytes(&[0x54, 0x00]);
    d.push_bytes(&[0x68]);
    assert_eq!(d.finish(false).unwrap(), "Th");
}

#[test]
fn streaming_split_between_surrogate_halves() {
    // U+1F600 is the pair D83D DE00; split between the two code units.
    let mut d = Decoder::new();
    d.push_bytes(&[0xD8, 0x3D]);
    d.push_bytes(&[0xDE, 0x00]);
    assert_eq!(d.finish(false).unwrap(), "\u{1F600}");
}

#[test]
fn streaming_varying_chunks_match_single_chunk() {
    let mut bytes = vec![0xFF, 0xFE];
    bytes.extend(le_bytes("stream me \u{1F600} in pieces"));
    let whole = read_to_string(&bytes).unwrap();

    for size in 1..8 {
        let mut d = Decoder::new();
        for chunk in bytes.chunks(size) {
            d.push_bytes(chunk);
        }
        assert_eq!(d.finish(false).unwrap(), whole);
    }
}

#[test]
fn decode_chunks_matches_single_chunk() {
    let mut bytes = vec![0xFE, 0xFF];
    bytes.extend(be_bytes("chunked \u{1F600} input"));
    let whole = read_to_string(&bytes).unwrap();

    let chunks: Vec<Vec<u8>> = bytes.chunks(3).map(|c| c.to_vec()).collect();
    assert_eq!(decode_chunks(&chunks, false).unwrap(), whole);

    let with_empty: Vec<Vec<u8>> = vec![Vec::new(), bytes.clone(), Vec::new()];
    assert_eq!(decode_chunks(&with_empty, true).unwrap(), whole);
}

#[test]
fn isolated_high_surrogate_fails() {
    // A lone high surrogate 0xD800, big-endian, nothing after it.
    assert_eq!(
        read_to_string(&[0xD8, 0x00]),
        Err(DecodeError::InvalidSurrogatePair)
    );
}

#[test]
fn high_surrogate_before_non_low_fails() {
    // 0xD800 followed by 'T' instead of a low surrogate.
    assert_eq!(
        read_to_string(&[0xD8, 0x00, 0x00, 0x54]),
        Err(DecodeError::InvalidSurrogatePair)
    );
}

#[test]
fn lone_low_surrogate_fails() {
    // 0xDC00 with no high surrogate before it.
    assert_eq!(
        read_to_string(&[0x00, 0x54, 0xDC, 0x00]),
        Err(DecodeError::InvalidSurrogatePair)
    );
}

#[test]
fn strict_finish_reports_dangling_byte() {
    let mut d = Decoder::new();
    d.push_bytes(&[0x00, 0x54, 0x00]);
    assert_eq!(d.finish(true), Err(DecodeError::TruncatedInput));
}

#[test]
fn lenient_finish_drops_dangling_byte() {
    let mut d = Decoder::new();
    d.push_bytes(&[0x00, 0x54, 0x00]);
    assert_eq!(d.finish(false).unwrap(), "T");
}

#[test]
fn single_byte_stream() {
    assert_eq!(read_to_string(&[0x54]).unwrap(), "");
    let mut d = Decoder::new();
    d.push_bytes(&[0x54]);
    assert_eq!(d.finish(true), Err(DecodeError::TruncatedInput));
}

#[test]
fn non_bom_leading_bytes_are_data() {
    // Anything but FE FF / FF FE at the start is data, read big-endian.
    let bytes = [0x04, 0x10, 0x04, 0x11];
    assert_eq!(read_to_string(&bytes).unwrap(), "\u{0410}\u{0411}");
}
