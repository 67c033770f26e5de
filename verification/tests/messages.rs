use dnsbl::txt::{decode_chunk, join_record, message};

fn chunks(parts: &[&[u8]]) -> Vec<Vec<u8>> {
    parts.iter().map(|part| part.to_vec()).collect()
}

fn joined_by_std(records: &[Vec<Vec<u8>>]) -> Option<String> {
    let text = records
        .iter()
        .map(|record| {
            record
                .iter()
                .map(|chunk| String::from_utf8(chunk.to_vec()).unwrap_or_else(|_| "".to_owned()))
                .collect::<Vec<_>>()
                .join(" ")
        })
        .collect::<Vec<_>>()
        .join(" ");
    Some(text).filter(|text| !text.is_empty())
}

#[test]
fn decodes_a_chunk_of_utf8() {
    assert_eq!(decode_chunk(&b"listed".to_vec()), "listed");
    assert_eq!(decode_chunk(&"bloqué ✓ 🦀".as_bytes().to_vec()), "bloqué ✓ 🦀");
    assert_eq!(decode_chunk(&Vec::new()), "");
}

#[test]
fn reads_a_malformed_chunk_as_empty() {
    assert_eq!(decode_chunk(&vec![0xff, 0xfe]), "");
    // A truncated sequence, an overlong encoding and a surrogate.
    assert_eq!(decode_chunk(&vec![b'a', 0xe2, 0x9c]), "");
    assert_eq!(decode_chunk(&vec![0xc0, 0xaf]), "");
    assert_eq!(decode_chunk(&vec![0xed, 0xa0, 0x80]), "");
    // The first code point past the last one, and a leading octet of no use.
    assert_eq!(decode_chunk(&vec![0xf4, 0x90, 0x80, 0x80]), "");
    assert_eq!(decode_chunk(&vec![0xf5, 0x80, 0x80, 0x80]), "");
    assert_eq!(decode_chunk(&vec![0x80]), "");
}

#[test]
fn decodes_the_ends_of_each_width() {
    assert_eq!(decode_chunk(&vec![0x00]), "\u{0}");
    assert_eq!(decode_chunk(&vec![0x7f]), "\u{7f}");
    assert_eq!(decode_chunk(&vec![0xc2, 0x80]), "\u{80}");
    assert_eq!(decode_chunk(&vec![0xdf, 0xbf]), "\u{7ff}");
    assert_eq!(decode_chunk(&vec![0xe0, 0xa0, 0x80]), "\u{800}");
    assert_eq!(decode_chunk(&vec![0xed, 0x9f, 0xbf]), "\u{d7ff}");
    assert_eq!(decode_chunk(&vec![0xee, 0x80, 0x80]), "\u{e000}");
    assert_eq!(decode_chunk(&vec![0xef, 0xbf, 0xbf]), "\u{ffff}");
    assert_eq!(decode_chunk(&vec![0xf0, 0x90, 0x80, 0x80]), "\u{10000}");
    assert_eq!(decode_chunk(&vec![0xf4, 0x8f, 0xbf, 0xbf]), "\u{10ffff}");
}

#[test]
fn joins_the_chunks_of_a_record_with_single_spaces() {
    assert_eq!(
        join_record(&chunks(&[b"see", b"https://bl.test/", b"why"])),
        "see https://bl.test/ why"
    );
    assert_eq!(join_record(&chunks(&[b"alone"])), "alone");
    assert_eq!(join_record(&Vec::new()), "");
}

#[test]
fn keeps_the_space_beside_a_malformed_chunk() {
    assert_eq!(join_record(&chunks(&[b"a", &[0xff], b"b"])), "a  b");
    assert_eq!(join_record(&chunks(&[&[0xff], b"b"])), " b");
    assert_eq!(join_record(&chunks(&[b"a", &[0xff]])), "a ");
}

#[test]
fn joins_the_records_with_single_spaces() {
    let records = vec![chunks(&[b"listed", b"by"]), chunks(&[b"policy"]), chunks(&[b"42"])];
    assert_eq!(message(&records), Some("listed by policy 42".to_owned()));
}

#[test]
fn gives_the_text_of_a_single_chunk() {
    assert_eq!(message(&vec![chunks(&[b"spam source"])]), Some("spam source".to_owned()));
}

#[test]
fn gives_no_message_for_an_answer_without_text() {
    assert_eq!(message(&Vec::new()), None);
    assert_eq!(message(&vec![Vec::new()]), None);
    assert_eq!(message(&vec![chunks(&[b""])]), None);
    assert_eq!(message(&vec![chunks(&[&[0xff, 0xff]])]), None);
}

#[test]
fn gives_the_spaces_between_blank_chunks_as_the_message() {
    assert_eq!(message(&vec![chunks(&[b"", b""])]), Some(" ".to_owned()));
    assert_eq!(message(&vec![chunks(&[b""]), chunks(&[&[0xff]])]), Some(" ".to_owned()));
    assert_eq!(message(&vec![Vec::new(), Vec::new(), Vec::new()]), Some("  ".to_owned()));
}

#[test]
fn keeps_the_spaces_around_a_record_without_chunks() {
    let records = vec![chunks(&[b"a"]), Vec::new(), chunks(&[b"b"])];
    assert_eq!(message(&records), Some("a  b".to_owned()));
}

#[test]
fn joins_as_the_standard_library_does() {
    let samples: Vec<Vec<Vec<Vec<u8>>>> = vec![
        Vec::new(),
        vec![Vec::new()],
        vec![chunks(&[b"a"])],
        vec![chunks(&[b"a", b"b"]), chunks(&[b"c"])],
        vec![chunks(&[b"", b"x", b""]), Vec::new(), chunks(&[&[0x80], "é".as_bytes()])],
        vec![chunks(&[b" "]), chunks(&[b" "])],
        vec![chunks(&[&[0xf0, 0x9f, 0xa6, 0x80], &[0xf0, 0x9f, 0xa6]])],
    ];
    for records in samples {
        assert_eq!(message(&records), joined_by_std(&records));
    }
}
