use radium::container::{decode, Container, Ending, Payload};
use radium::cursor::Cursor;
use radium::error::DecodeError;

fn push_string(out: &mut Vec<u8>, s: &[u8]) {
    out.extend_from_slice(&(s.len() as u64).to_le_bytes());
    out.extend_from_slice(s);
}

fn preamble() -> Vec<u8> {
    let mut v = vec![0x01];
    v.extend_from_slice(&[0u8; 8]);
    v.extend_from_slice(&[0u8; 4]);
    v
}

fn font_stream(name: &[u8], codes: &[u16]) -> Vec<u8> {
    let mut v = preamble();
    v.extend_from_slice(&[0x00, 0x00, 0x00, 0x00]);
    push_string(&mut v, b"Font");
    v.extend_from_slice(&[0u8; 16]);
    push_string(&mut v, name);
    v.extend_from_slice(&[0u8; 6]);
    for c in codes {
        v.extend_from_slice(&c.to_le_bytes());
    }
    v
}

fn only_section(c: &Container) -> &Payload {
    assert_eq!(c.sections.len(), 1);
    &c.sections[0].payload
}

#[test]
fn zero_font_scenario() {
    let data = font_stream(b"", &[0u16; 113]);
    let c = decode(&data).expect("decodes");
    assert!(matches!(c.ending, Ending::EndOfInput));
    assert_eq!(c.sections[0].tag, "Font");
    match only_section(&c) {
        Payload::Font(f) => {
            assert_eq!(f.name, "");
            assert_eq!(f.codes.len(), 113);
            assert!(f.codes.iter().all(|&x| x == 0));
        }
        _ => panic!("expected a Font payload"),
    }
}

#[test]
fn font_codes_kept_in_order() {
    let codes: Vec<u16> = (0..113u16).map(|i| 0x1220 + i).collect();
    let data = font_stream(b"Sans", &codes);
    let c = decode(&data).expect("decodes");
    match only_section(&c) {
        Payload::Font(f) => {
            assert_eq!(f.name, "Sans");
            assert_eq!(f.codes, codes);
            assert_eq!(f.char_at(0), 0x20);
            assert_eq!(f.char_at(33), 0x41);
        }
        _ => panic!("expected a Font payload"),
    }
}

#[test]
fn short_inputs_are_truncated() {
    assert_eq!(decode(&[]).unwrap_err(), DecodeError::TruncatedInput { offset: 0 });
    for len in 1..9 {
        let mut data = vec![0x01];
        data.resize(len, 0);
        assert_eq!(decode(&data).unwrap_err(), DecodeError::TruncatedInput { offset: 1 });
    }
    let data = vec![0x01; 12];
    assert_eq!(decode(&data).unwrap_err(), DecodeError::TruncatedInput { offset: 9 });
}

#[test]
fn wrong_sentinel_is_bad_magic() {
    assert_eq!(decode(&[0x02]).unwrap_err(), DecodeError::BadMagic { found: 0x02 });
    let mut data = font_stream(b"", &[0u16; 113]);
    data[0] = 0x00;
    assert_eq!(decode(&data).unwrap_err(), DecodeError::BadMagic { found: 0x00 });
}

#[test]
fn empty_body_ends_cleanly() {
    let c = decode(&preamble()).expect("decodes");
    assert!(c.sections.is_empty());
    assert!(matches!(c.ending, Ending::EndOfInput));
}

#[test]
fn opaque_counts_are_kept() {
    let mut data = vec![0x01, 1, 2, 3, 4, 5, 6, 7, 8, 9, 10, 11, 12];
    data.extend_from_slice(&[0, 0, 0, 0]);
    push_string(&mut data, b"Text");
    let c = decode(&data).expect("decodes");
    assert_eq!(c.block_count, vec![1, 2, 3, 4, 5, 6, 7, 8]);
    assert_eq!(c.section_count, vec![9, 10, 11, 12]);
}

#[test]
fn unrecognized_tag_stops_decoding() {
    let mut data = preamble();
    data.extend_from_slice(&[0x05, 0x00, 0xAA, 0xBB]);
    push_string(&mut data, b"Sprite");
    data.extend_from_slice(&[0xFF; 40]);
    let c = decode(&data).expect("no error");
    assert!(c.sections.is_empty());
    match &c.ending {
        Ending::UnrecognizedSectionType { tag } => assert_eq!(tag, "Sprite"),
        _ => panic!("expected an unrecognized tag"),
    }
}

#[test]
fn tags_match_case_sensitively() {
    let mut data = preamble();
    data.extend_from_slice(&[0, 0, 0, 0]);
    push_string(&mut data, b"font");
    let c = decode(&data).expect("no error");
    match &c.ending {
        Ending::UnrecognizedSectionType { tag } => assert_eq!(tag, "font"),
        _ => panic!("expected an unrecognized tag"),
    }
}

#[test]
fn sections_before_unknown_tag_are_kept() {
    let mut data = font_stream(b"A", &[7u16; 113]);
    data.extend_from_slice(&[0, 0, 0, 0]);
    push_string(&mut data, b"Shape");
    let c = decode(&data).expect("no error");
    assert_eq!(c.sections.len(), 1);
    match &c.ending {
        Ending::UnrecognizedSectionType { tag } => assert_eq!(tag, "Shape"),
        _ => panic!("expected an unrecognized tag"),
    }
}

#[test]
fn oversized_section_tag() {
    let mut data = preamble();
    data.extend_from_slice(&[0, 0, 0, 0]);
    data.extend_from_slice(&1025u64.to_le_bytes());
    assert_eq!(
        decode(&data).unwrap_err(),
        DecodeError::OversizedString { offset: 17, length: 1025 }
    );
}

#[test]
fn truncated_mid_record() {
    let mut data = font_stream(b"", &[0u16; 113]);
    data.pop();
    let start = data.len() - 225;
    assert_eq!(decode(&data).unwrap_err(), DecodeError::TruncatedInput { offset: start });
}

#[test]
fn decoding_twice_gives_the_same_result() {
    let codes: Vec<u16> = (0..113u16).collect();
    let data = font_stream(b"Mono", &codes);
    let a = format!("{:?}", decode(&data));
    let b = format!("{:?}", decode(&data));
    assert_eq!(a, b);
    let bad = [0x07u8, 1, 2];
    assert_eq!(decode(&bad).unwrap_err(), decode(&bad).unwrap_err());
}

fn video_stream() -> Vec<u8> {
    let mut v = preamble();
    v.extend_from_slice(&[0x01, 0x00, 0x00, 0x00]);
    push_string(&mut v, b"Video");
    v.extend_from_slice(&[0x02, 0x00, 0x10, 0x20]);
    v.extend_from_slice(&[0xA0, 0xA1, 0xA2, 0xA3]);
    push_string(&mut v, b"intro clips");
    v.extend_from_slice(&[0xB0, 0xB1, 0xB2, 0xB3]);
    v.extend_from_slice(&[9u8; 9]);
    v.extend_from_slice(&2u64.to_le_bytes());
    for (name, path, size) in [("a", "/v/a.mp4", 1000u32), ("b", "/v/b.mp4", 0x01020304u32)] {
        push_string(&mut v, name.as_bytes());
        v.extend_from_slice(&[0x03, 0x00, 0x00, 0x00]);
        push_string(&mut v, path.as_bytes());
        v.extend_from_slice(&size.to_le_bytes());
    }
    v.extend_from_slice(&[0u8; 68]);
    v
}

#[test]
fn video_section_decodes() {
    let c = decode(&video_stream()).expect("decodes");
    assert!(matches!(c.ending, Ending::EndOfInput));
    assert_eq!(c.sections[0].header.id, 1);
    match only_section(&c) {
        Payload::Video(v) => {
            assert_eq!(v.header.id, 2);
            assert_eq!(v.header.trailer, vec![0x10, 0x20]);
            assert_eq!(v.lead, vec![0xA0, 0xA1, 0xA2, 0xA3]);
            assert_eq!(v.description, "intro clips");
            assert_eq!(v.mid, vec![0xB0, 0xB1, 0xB2, 0xB3]);
            assert_eq!(v.opaque, vec![9u8; 9]);
            assert_eq!(v.items.len(), 2);
            assert_eq!(v.items[0].name, "a");
            assert_eq!(v.items[0].path, "/v/a.mp4");
            assert_eq!(v.items[0].size, 1000);
            assert_eq!(v.items[1].header.id, 3);
            assert_eq!(v.items[1].size, 0x01020304);
            assert_eq!(v.trailer.len(), 68);
        }
        _ => panic!("expected a Video payload"),
    }
}

#[test]
fn video_trailer_missing_is_truncated() {
    let mut data = video_stream();
    data.truncate(data.len() - 1);
    let start = data.len() - 67;
    assert_eq!(decode(&data).unwrap_err(), DecodeError::TruncatedInput { offset: start });
}

#[test]
fn video_surface_section_decodes() {
    let mut v = preamble();
    v.extend_from_slice(&[0x04, 0x00, 0x00, 0x00]);
    push_string(&mut v, b"VideoSurface");
    v.extend_from_slice(&[1, 2, 3, 4]);
    v.extend_from_slice(&[0u8; 113]);
    v.extend_from_slice(&[0x06, 0x01, 0x00, 0x00]);
    v.extend_from_slice(&[5, 6, 7, 8]);
    push_string(&mut v, b"loop");
    v.extend_from_slice(&[0u8; 13]);
    v.extend_from_slice(&3u64.to_le_bytes());
    for (name, id) in [("x", 10u32), ("y", 0xDEADBEEFu32), ("z", 0)] {
        push_string(&mut v, name.as_bytes());
        v.extend_from_slice(&id.to_le_bytes());
    }
    v.extend_from_slice(&[0u8; 20]);
    let c = decode(&v).expect("decodes");
    assert!(matches!(c.ending, Ending::EndOfInput));
    match only_section(&c) {
        Payload::VideoSurface(s) => {
            assert_eq!(s.lead, vec![1, 2, 3, 4]);
            assert_eq!(s.header.id, 0x0106);
            assert_eq!(s.mark, vec![5, 6, 7, 8]);
            assert_eq!(s.playlist, "loop");
            assert_eq!(s.entries.len(), 3);
            assert_eq!(s.entries[1].video_name, "y");
            assert_eq!(s.entries[1].id, 0xDEADBEEF);
            assert_eq!(s.trailer, vec![0u8; 20]);
        }
        _ => panic!("expected a VideoSurface payload"),
    }
}

#[test]
fn string_round_trip() {
    let long = "x".repeat(1024);
    for s in ["", "Font", "héllo wörld ✓", long.as_str()] {
        let mut data = Vec::new();
        push_string(&mut data, s.as_bytes());
        data.extend_from_slice(&[0xEE, 0xEE]);
        let mut c = Cursor::new(&data);
        assert_eq!(c.read_length_prefixed_string().unwrap(), s);
        assert_eq!(c.position(), 8 + s.len());
    }
}

#[test]
fn invalid_utf8_is_replaced() {
    let mut data = Vec::new();
    push_string(&mut data, &[b'a', 0xFF, b'b']);
    let mut c = Cursor::new(&data);
    assert_eq!(c.read_length_prefixed_string().unwrap(), "a\u{FFFD}b");
}

#[test]
fn oversized_string_whatever_follows() {
    for len in [1025u64, 4096, u64::MAX] {
        let mut data = len.to_le_bytes().to_vec();
        data.extend_from_slice(&[0x41; 2000]);
        let mut c = Cursor::new(&data);
        assert_eq!(
            c.read_length_prefixed_string().unwrap_err(),
            DecodeError::OversizedString { offset: 0, length: len }
        );
    }
}

#[test]
fn string_body_truncated() {
    let mut data = 5u64.to_le_bytes().to_vec();
    data.extend_from_slice(b"abc");
    let mut c = Cursor::new(&data);
    assert_eq!(
        c.read_length_prefixed_string().unwrap_err(),
        DecodeError::TruncatedInput { offset: 8 }
    );
}

#[test]
fn little_endian_reads() {
    let data = [0x34, 0x12, 0x78, 0x56, 0x34, 0x12, 1, 2, 3, 4, 5, 6, 7, 8, 0xAB];
    let mut c = Cursor::new(&data);
    assert_eq!(c.read_u16_le().unwrap(), 0x1234);
    assert_eq!(c.read_u32_le().unwrap(), 0x12345678);
    assert_eq!(c.read_u64_le().unwrap(), 0x0807060504030201);
    assert!(!c.at_end());
    assert_eq!(c.read_u16_le().unwrap_err(), DecodeError::TruncatedInput { offset: 14 });
    assert_eq!(c.read_bytes(1).unwrap(), vec![0xAB]);
    assert!(c.at_end());
}

#[test]
fn skip_and_read_bytes() {
    let data = [1u8, 2, 3, 4, 5];
    let mut c = Cursor::new(&data);
    c.skip(2).unwrap();
    assert_eq!(c.position(), 2);
    assert_eq!(c.read_bytes(2).unwrap(), vec![3, 4]);
    assert_eq!(c.skip(2).unwrap_err(), DecodeError::TruncatedInput { offset: 4 });
    assert_eq!(c.read_bytes(0).unwrap(), Vec::<u8>::new());
}
