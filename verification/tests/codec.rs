use dns2::{Class, Data, FormatError, Packet, Question, QueryKind, Record, ResponseCode, Type};

fn query_with_question(id: i16, name: &[u8], ty: Type) -> Packet {
    let mut packet = Packet::query(id);
    packet.question.push(Question { name: name.to_vec(), ty, class: Class::In });
    packet
}

#[test]
fn query_preset_header() {
    let p = Packet::query(7);
    assert_eq!(p.id, 7);
    assert!(p.is_query);
    assert_eq!(p.kind, QueryKind::Standard);
    assert!(!p.is_authoritative);
    assert!(!p.truncated);
    assert!(p.recursion_desired);
    assert!(!p.recursion_available);
    assert_eq!(p.response_code, ResponseCode::NoError);
    assert!(p.question.is_empty());
    assert!(p.answer.is_empty());
    assert!(p.authority.is_empty());
    assert!(p.additional.is_empty());
}

#[test]
fn example_query_exact_bytes() {
    let packet = query_with_question(12345, b"example.com", Type::A);
    let mut buf = vec![0u8; 512];
    let len = packet.format(&mut buf).unwrap();
    let expected: Vec<u8> = vec![
        0x30, 0x39, 0x01, 0x00, 0, 1, 0, 0, 0, 0, 0, 0, 7, b'e', b'x', b'a', b'm', b'p', b'l',
        b'e', 3, b'c', b'o', b'm', 0, 0x00, 0x01, 0x00, 0x01,
    ];
    assert_eq!(len, 29);
    assert_eq!(&buf[..len], &expected[..]);
}

#[test]
fn example_query_length() {
    let packet = query_with_question(12345, b"example.com", Type::A);
    assert_eq!(dns2::len::packet(&packet), 29);
}

#[test]
fn round_trip_query() {
    let packet = query_with_question(-20000, b"www.example.com", Type::Aaaa);
    let mut buf = vec![0u8; 512];
    let len = packet.format(&mut buf).unwrap();
    let (read, parsed) = Packet::parse(&buf[..len]).unwrap();
    assert_eq!(read, len);
    assert_eq!(parsed, packet);
}

#[test]
fn round_trip_all_record_kinds() {
    let mut packet = Packet::query(77);
    packet.is_query = false;
    packet.is_authoritative = true;
    packet.recursion_available = true;
    packet.response_code = ResponseCode::NameError;
    packet.question.push(Question { name: b"example.com".to_vec(), ty: Type::All, class: Class::All });
    packet.answer.push(Record {
        name: b"example.com".to_vec(),
        class: Class::In,
        time_to_live: 300,
        data: Data::A([93, 184, 216, 34]),
    });
    packet.answer.push(Record {
        name: b"example.com".to_vec(),
        class: Class::In,
        time_to_live: -1,
        data: Data::Aaaa([0x2606, 0x2800, 0x220, 0x1, 0x248, 0x1893, 0x25c8, 0x1946]),
    });
    packet.authority.push(Record {
        name: b"example.com".to_vec(),
        class: Class::In,
        time_to_live: 0,
        data: Data::Mx(-5, b"mail.example.com".to_vec()),
    });
    packet.authority.push(Record {
        name: b"4.3.2.1.in-addr.arpa".to_vec(),
        class: Class::In,
        time_to_live: 60,
        data: Data::Ptr(b"host.example.com".to_vec()),
    });
    packet.additional.push(Record {
        name: b"example.com".to_vec(),
        class: Class::All,
        time_to_live: 86400,
        data: Data::Rp(b"admin.example.com".to_vec(), b"txt.example.com".to_vec()),
    });
    packet.additional.push(Record {
        name: b"example.com".to_vec(),
        class: Class::In,
        time_to_live: 1,
        data: Data::Txt(vec![b"hello world".to_vec(), Vec::new(), b"v=spf1 -all".to_vec()]),
    });
    let mut buf = vec![0u8; 512];
    let len = packet.format(&mut buf).unwrap();
    let (read, parsed) = Packet::parse(&buf[..len]).unwrap();
    assert_eq!(read, len);
    assert_eq!(parsed, packet);
}

#[test]
fn size_ceiling_rejected_before_writing() {
    let mut packet = Packet::query(1);
    for _ in 0..3 {
        packet.answer.push(Record {
            name: b"a".to_vec(),
            class: Class::In,
            time_to_live: 0,
            data: Data::Txt(vec![vec![b'x'; 200]]),
        });
    }
    assert!(dns2::len::packet(&packet) > 512);
    let mut buf = vec![0u8; 1024];
    assert_eq!(packet.format(&mut buf), Err(FormatError::Size));
    assert!(buf.iter().all(|&b| b == 0));
}

#[test]
fn buffer_one_byte_short() {
    let packet = query_with_question(5, b"example.com", Type::A);
    let need = dns2::len::packet(&packet);
    let mut small = vec![0u8; need - 1];
    assert_eq!(packet.format(&mut small), Err(FormatError::Buffer(need)));
    assert!(small.iter().all(|&b| b == 0));
    let mut exact = vec![0u8; need];
    assert_eq!(packet.format(&mut exact), Ok(need));
}

#[test]
fn label_bound_63_and_64() {
    let packet = query_with_question(5, &vec![b'a'; 64], Type::A);
    let mut buf = vec![0u8; 512];
    assert_eq!(packet.format(&mut buf), Err(FormatError::Label(64)));
    assert!(buf.iter().all(|&b| b == 0));
    let packet = query_with_question(5, &vec![b'a'; 63], Type::A);
    assert!(packet.format(&mut buf).is_ok());
}

#[test]
fn string_bound_255_and_256() {
    let mut packet = Packet::query(5);
    packet.answer.push(Record {
        name: b"e.com".to_vec(),
        class: Class::In,
        time_to_live: 0,
        data: Data::Txt(vec![vec![b't'; 256]]),
    });
    let mut buf = vec![0u8; 512];
    assert_eq!(packet.format(&mut buf), Err(FormatError::String(256)));
    assert!(buf.iter().all(|&b| b == 0));
    let mut packet = Packet::query(5);
    packet.answer.push(Record {
        name: b"e.com".to_vec(),
        class: Class::In,
        time_to_live: 0,
        data: Data::Txt(vec![vec![b't'; 255]]),
    });
    assert!(packet.format(&mut buf).is_ok());
}

/// A response whose answer's name is a compression pointer to the
/// question's name at offset 12.
fn pointer_response() -> Vec<u8> {
    let mut bytes: Vec<u8> = vec![
        0x30, 0x39, 0x80, 0x00, 0, 1, 0, 1, 0, 0, 0, 0, 7, b'e', b'x', b'a', b'm', b'p', b'l',
        b'e', 3, b'c', b'o', b'm', 0, 0x00, 0x01, 0x00, 0x01,
    ];
    bytes.extend_from_slice(&[
        0xC0, 12, 0x00, 0x01, 0x00, 0x01, 0x00, 0x00, 0x01, 0x2C, 0x00, 0x04, 93, 184, 216, 34,
    ]);
    bytes
}

#[test]
fn compression_pointer_decodes_to_same_name() {
    let bytes = pointer_response();
    let (read, packet) = Packet::parse(&bytes).unwrap();
    assert_eq!(read, bytes.len());
    assert_eq!(packet.question.len(), 1);
    assert_eq!(packet.answer.len(), 1);
    assert_eq!(packet.answer[0].name, packet.question[0].name);
    assert_eq!(packet.answer[0].name, b"example.com".to_vec());
}

#[test]
fn pointer_response_fields() {
    let bytes = pointer_response();
    let (_, packet) = Packet::parse(&bytes).unwrap();
    assert!(!packet.is_query);
    assert_eq!(packet.answer[0].time_to_live, 300);
    assert_eq!(packet.answer[0].data, Data::A([93, 184, 216, 34]));
}

#[test]
fn pointer_to_itself_fails() {
    // a question whose name is a pointer targeting its own offset
    let bytes: Vec<u8> = vec![0, 1, 0x01, 0x00, 0, 1, 0, 0, 0, 0, 0, 0, 0xC0, 12, 0, 1, 0, 1];
    assert_eq!(Packet::parse(&bytes), Err(()));
}

#[test]
fn pointer_pair_cycle_fails() {
    // two pointers targeting each other inside the question's name
    let bytes: Vec<u8> = vec![
        0, 1, 0x01, 0x00, 0, 1, 0, 0, 0, 0, 0, 0, 0xC0, 14, 0xC0, 12, 0, 1, 0, 1,
    ];
    assert_eq!(Packet::parse(&bytes), Err(()));
}

#[test]
fn unknown_record_type_is_skipped() {
    // one answer of unrecognized type 99 with five data bytes, then a
    // recognized address record
    let mut bytes: Vec<u8> = vec![
        0, 1, 0x80, 0x00, 0, 0, 0, 2, 0, 0, 0, 0,
    ];
    bytes.extend_from_slice(&[1, b'a', 0, 0, 99, 0, 1, 0, 0, 0, 0, 0, 5, 9, 9, 9, 9, 9]);
    bytes.extend_from_slice(&[1, b'a', 0, 0, 1, 0, 1, 0, 0, 0, 9, 0, 4, 10, 0, 0, 1]);
    let (read, packet) = Packet::parse(&bytes).unwrap();
    assert_eq!(read, bytes.len());
    assert_eq!(packet.answer.len(), 1);
    assert_eq!(packet.answer[0].name, b"a".to_vec());
    assert_eq!(packet.answer[0].data, Data::A([10, 0, 0, 1]));
}

#[test]
fn unknown_record_type_with_overlong_length_fails() {
    let mut bytes: Vec<u8> = vec![0, 1, 0x80, 0x00, 0, 0, 0, 1, 0, 0, 0, 0];
    bytes.extend_from_slice(&[1, b'a', 0, 0, 99, 0, 1, 0, 0, 0, 0, 0, 50, 1, 2, 3]);
    assert_eq!(Packet::parse(&bytes), Err(()));
}

#[test]
fn unknown_question_type_aborts() {
    let mut bytes: Vec<u8> = vec![0, 1, 0x01, 0x00, 0, 1, 0, 0, 0, 0, 0, 0];
    bytes.extend_from_slice(&[1, b'a', 0, 0, 99, 0, 1]);
    assert_eq!(Packet::parse(&bytes), Err(()));
}

#[test]
fn invalid_utf8_label_fails() {
    let mut bytes: Vec<u8> = vec![0, 1, 0x01, 0x00, 0, 1, 0, 0, 0, 0, 0, 0];
    bytes.extend_from_slice(&[1, 0xFF, 0, 0, 1, 0, 1]);
    assert_eq!(Packet::parse(&bytes), Err(()));
}

#[test]
fn truncated_header_fails() {
    assert_eq!(Packet::parse(&[0, 1, 0x01, 0x00, 0, 0]), Err(()));
    assert_eq!(Packet::parse(&[]), Err(()));
}

#[test]
fn invalid_kind_or_response_code_fails() {
    // kind bits 7
    let bytes: Vec<u8> = vec![0, 1, 0b0011_1000, 0x00, 0, 0, 0, 0, 0, 0, 0, 0];
    assert_eq!(Packet::parse(&bytes), Err(()));
    // response code 15
    let bytes: Vec<u8> = vec![0, 1, 0x00, 0x0F, 0, 0, 0, 0, 0, 0, 0, 0];
    assert_eq!(Packet::parse(&bytes), Err(()));
}

#[test]
fn flags_round_trip() {
    let mut packet = Packet::query(-1);
    packet.is_query = false;
    packet.kind = QueryKind::Inverse;
    packet.is_authoritative = true;
    packet.truncated = true;
    packet.recursion_desired = false;
    packet.recursion_available = true;
    packet.response_code = ResponseCode::Refused;
    let mut buf = vec![0u8; 64];
    let len = packet.format(&mut buf).unwrap();
    // response bit, inverse kind, authoritative, truncated; then
    // recursion-available and the refused code
    assert_eq!(buf[2], 0b1000_1110);
    assert_eq!(buf[3], 0b1000_0101);
    let (read, parsed) = Packet::parse(&buf[..len]).unwrap();
    assert_eq!(read, len);
    assert_eq!(parsed, packet);
}

#[test]
fn status_kind_round_trip() {
    let mut packet = query_with_question(3, b"e.com", Type::Txt);
    packet.kind = QueryKind::Status;
    packet.response_code = ResponseCode::NotImplemented;
    let mut buf = vec![0u8; 64];
    let len = packet.format(&mut buf).unwrap();
    let (_, parsed) = Packet::parse(&buf[..len]).unwrap();
    assert_eq!(parsed, packet);
}

#[test]
fn data_to_type_mapping() {
    assert_eq!(Data::A([0; 4]).to_type(), Type::A);
    assert_eq!(Data::Aaaa([0; 8]).to_type(), Type::Aaaa);
    assert_eq!(Data::Mx(1, Vec::new()).to_type(), Type::Mx);
    assert_eq!(Data::Ptr(Vec::new()).to_type(), Type::Ptr);
    assert_eq!(Data::Rp(Vec::new(), Vec::new()).to_type(), Type::Rp);
    assert_eq!(Data::Txt(Vec::new()).to_type(), Type::Txt);
}

#[test]
fn wire_code_mapping() {
    assert_eq!(Type::A.code(), 1);
    assert_eq!(Type::Aaaa.code(), 28);
    assert_eq!(Type::Mx.code(), 15);
    assert_eq!(Type::Ptr.code(), 12);
    assert_eq!(Type::Rp.code(), 17);
    assert_eq!(Type::Txt.code(), 16);
    assert_eq!(Type::All.code(), 255);
    assert_eq!(Class::In.code(), 1);
    assert_eq!(Class::All.code(), 255);
    assert_eq!(dns2::parse::ty(28), Ok(Type::Aaaa));
    assert_eq!(dns2::parse::ty(2), Err(()));
    assert_eq!(dns2::parse::class(1), Ok(Class::In));
    assert_eq!(dns2::parse::class(2), Err(()));
    assert_eq!(dns2::parse::kind(2), Ok(QueryKind::Status));
    assert_eq!(dns2::parse::kind(3), Err(()));
    assert_eq!(dns2::parse::response_code(5), Ok(ResponseCode::Refused));
    assert_eq!(dns2::parse::response_code(6), Err(()));
}

#[test]
fn length_calculator_per_value() {
    assert_eq!(dns2::len::domain_name(b"example.com"), 13);
    assert_eq!(dns2::len::domain_name(b"a"), 3);
    assert_eq!(dns2::len::character_string(b"hi"), 3);
    assert_eq!(dns2::len::a(), 4);
    assert_eq!(dns2::len::aaaa(), 16);
    assert_eq!(dns2::len::mx(b"mail.example.com"), 20);
    assert_eq!(dns2::len::ptr(b"host.example.com"), 18);
    assert_eq!(dns2::len::rp(b"a.com", b"b.com"), 14);
    assert_eq!(dns2::len::txt(&vec![b"abc".to_vec(), b"de".to_vec()]), 7);
    assert_eq!(
        dns2::len::data(&Data::Txt(vec![b"abc".to_vec(), b"de".to_vec()])),
        7
    );
}

#[test]
fn format_reports_written_count_parse_reports_read_count() {
    let packet = query_with_question(2, b"a.b.c", Type::Mx);
    let mut buf = vec![0u8; 100];
    let len = packet.format(&mut buf).unwrap();
    assert_eq!(len, dns2::len::packet(&packet));
    let (read, _) = Packet::parse(&buf).unwrap();
    assert_eq!(read, len);
}

#[test]
fn format_leaves_tail_of_buffer_alone() {
    let packet = query_with_question(2, b"e.com", Type::A);
    let mut buf = vec![0xAAu8; 100];
    let len = packet.format(&mut buf).unwrap();
    assert!(buf[len..].iter().all(|&b| b == 0xAA));
}

#[test]
fn cursor_round_trips() {
    let mut out: Vec<u8> = Vec::new();
    dns2::cursor::write_u8(&mut out, 7);
    dns2::cursor::write_u16_be(&mut out, 0xBEEF);
    dns2::cursor::write_i16_be(&mut out, -2);
    dns2::cursor::write_u32_be(&mut out, 0xDEADBEEF);
    dns2::cursor::write_i32_be(&mut out, -300);
    assert_eq!(dns2::cursor::read_u8(&out, 0), Some(7));
    assert_eq!(dns2::cursor::read_u16_be(&out, 1), Some(0xBEEF));
    assert_eq!(dns2::cursor::read_i16_be(&out, 3), Some(-2));
    assert_eq!(dns2::cursor::read_u32_be(&out, 5), Some(0xDEADBEEF));
    assert_eq!(dns2::cursor::read_i32_be(&out, 9), Some(-300));
    assert_eq!(dns2::cursor::read_u8(&out, 13), None);
    assert_eq!(dns2::cursor::read_u16_be(&out, 12), None);
}

#[test]
fn utf8_checker_matches_std() {
    let cases: Vec<Vec<u8>> = vec![
        Vec::new(),
        b"plain ascii".to_vec(),
        "h\u{e9}llo w\u{f6}rld".as_bytes().to_vec(),
        "\u{65e5}\u{672c}\u{8a9e}".as_bytes().to_vec(),
        "\u{1f642}".as_bytes().to_vec(),
        vec![0xFF],
        vec![0xC0, 0xAF],
        vec![0xE0, 0x80, 0x80],
        vec![0xED, 0xA0, 0x80],
        vec![0xF4, 0x90, 0x80, 0x80],
        vec![0xC2],
        vec![0xE2, 0x82],
    ];
    for case in cases {
        assert_eq!(
            dns2::parse::is_utf8(&case),
            std::str::from_utf8(&case).is_ok(),
            "{:?}",
            case
        );
    }
}

#[test]
fn size_boundary_exactly_512_and_513() {
    // 12 header + 3 name + 10 fixed = 25; data fills up to the ceiling
    let mut packet = Packet::query(9);
    packet.answer.push(Record {
        name: b"a".to_vec(),
        class: Class::In,
        time_to_live: 0,
        data: Data::Txt(vec![vec![b'x'; 255], vec![b'y'; 229], Vec::new()]),
    });
    assert_eq!(dns2::len::packet(&packet), 512);
    let mut buf = vec![0u8; 512];
    assert_eq!(packet.format(&mut buf), Ok(512));

    let mut packet = Packet::query(9);
    packet.answer.push(Record {
        name: b"a".to_vec(),
        class: Class::In,
        time_to_live: 0,
        data: Data::Txt(vec![vec![b'x'; 255], vec![b'y'; 230], Vec::new()]),
    });
    assert_eq!(dns2::len::packet(&packet), 513);
    assert_eq!(packet.format(&mut buf), Err(FormatError::Size));
}

#[test]
fn empty_text_list_round_trips() {
    let mut packet = Packet::query(4);
    packet.answer.push(Record {
        name: b"e.com".to_vec(),
        class: Class::In,
        time_to_live: 5,
        data: Data::Txt(Vec::new()),
    });
    let mut buf = vec![0u8; 64];
    let len = packet.format(&mut buf).unwrap();
    let (read, parsed) = Packet::parse(&buf[..len]).unwrap();
    assert_eq!(read, len);
    assert_eq!(parsed, packet);
}
