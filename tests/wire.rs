use dnsproxy::{
    create_message, parse_domain_label, parse_message, to_u16, Header, HostAddress, NamePattern,
    ResourceRecord, SynthesisError,
};

fn query(id: u16, flags: u16, qd_count: u16, name: &str, qtype: u16) -> Vec<u8> {
    let mut b = vec![
        (id >> 8) as u8,
        id as u8,
        (flags >> 8) as u8,
        flags as u8,
        (qd_count >> 8) as u8,
        qd_count as u8,
        0,
        0,
        0,
        0,
        0,
        0,
    ];
    for label in name.split('.').filter(|l| !l.is_empty()) {
        b.push(label.len() as u8);
        b.extend_from_slice(label.as_bytes());
    }
    b.push(0);
    b.extend_from_slice(&[(qtype >> 8) as u8, qtype as u8, 0, 1]);
    b
}

fn literal_record(name: &str, octets: [u8; 4], ttl: u32) -> ResourceRecord {
    ResourceRecord {
        rdata: HostAddress::V4(octets),
        name: NamePattern::Literal(name.to_string()),
        ttl,
    }
}

#[test]
fn to_u16_reads_big_endian() {
    assert_eq!(to_u16(&[0x12, 0x34, 0x56], 0), 0x1234);
    assert_eq!(to_u16(&[0x12, 0x34, 0x56], 1), 0x3456);
}

#[test]
fn header_validity() {
    assert!(Header { id: 7, flags: 0x0100, qd_count: 1 }.is_valid_query());
    assert!(!Header { id: 7, flags: 0x0100, qd_count: 0 }.is_valid_query());
    assert!(!Header { id: 7, flags: 0x8100, qd_count: 1 }.is_valid_query());
    assert!(!Header { id: 7, flags: 0x0800, qd_count: 1 }.is_valid_query());
    assert!(!Header { id: 7, flags: 0x1000, qd_count: 1 }.is_valid_query());
}

#[test]
fn domain_label_cases() {
    assert_eq!(parse_domain_label(&[0, 9]), Ok(None));
    assert_eq!(parse_domain_label(&[3, b'a', b'p', b'i', 0]), Ok(Some((4, "api"))));
    assert_eq!(parse_domain_label(&[]), Err(()));
    assert_eq!(parse_domain_label(&[4, b'a', b'p']), Err(()));
    assert_eq!(parse_domain_label(&[64, b'a']), Err(()));
    assert_eq!(parse_domain_label(&[192, 12]), Err(()));
    assert_eq!(parse_domain_label(&[2, 0xff, 0xfe]), Err(()));
}

#[test]
fn parses_a_query() {
    let q = query(0xabcd, 0x0100, 1, "api.dev.local", 1);
    let (prefix, question) = parse_message(&q).unwrap();
    assert_eq!(prefix, &q[..]);
    assert_eq!(prefix.len(), 12 + 15 + 4);
    assert_eq!(question.qname, "api.dev.local");
    assert_eq!(question.qtype, 1);
    assert_eq!(question.qclass, 1);
}

#[test]
fn prefix_excludes_trailing_bytes() {
    let mut q = query(1, 0, 1, "a.b", 28);
    let len = q.len();
    q.extend_from_slice(&[9, 9, 9]);
    let (prefix, question) = parse_message(&q).unwrap();
    assert_eq!(prefix.len(), len);
    assert_eq!(question.qname, "a.b");
    assert_eq!(question.qtype, 28);
}

#[test]
fn root_name_parses_empty() {
    let q = query(1, 0, 1, "", 1);
    let (prefix, question) = parse_message(&q).unwrap();
    assert_eq!(prefix.len(), 17);
    assert_eq!(question.qname, "");
}

#[test]
fn short_buffers_rejected() {
    for n in 0..12 {
        let b = vec![0u8; n];
        assert!(parse_message(&b).is_none());
    }
    let q = query(1, 0, 1, "x", 1);
    assert!(parse_message(&q[..11]).is_none());
}

#[test]
fn zero_question_count_rejected() {
    let q = query(1, 0x0100, 0, "example.com", 1);
    assert!(parse_message(&q).is_none());
}

#[test]
fn replies_and_non_standard_opcodes_rejected() {
    assert!(parse_message(&query(1, 0x8000, 1, "a.b", 1)).is_none());
    assert!(parse_message(&query(1, 0x0800, 1, "a.b", 1)).is_none());
    assert!(parse_message(&query(1, 0x2000, 1, "a.b", 1)).is_none());
}

#[test]
fn unanswerable_type_rejected() {
    assert!(parse_message(&query(1, 0, 1, "a.b", 15)).is_none());
    assert!(parse_message(&query(1, 0, 1, "a.b", 16)).is_none());
}

#[test]
fn malformed_names_rejected() {
    let mut long = query(1, 0, 1, "", 1);
    long.truncate(12);
    long.push(64);
    long.extend_from_slice(&[b'a'; 64]);
    long.extend_from_slice(&[0, 0, 1, 0, 1]);
    assert!(parse_message(&long).is_none());

    let mut pointer = query(1, 0, 1, "", 1);
    pointer.truncate(12);
    pointer.extend_from_slice(&[0xC0, 0x0C, 0, 1, 0, 1]);
    assert!(parse_message(&pointer).is_none());

    let mut overrun = query(1, 0, 1, "", 1);
    overrun.truncate(12);
    overrun.extend_from_slice(&[10, b'a', b'b']);
    assert!(parse_message(&overrun).is_none());

    let mut no_type = query(1, 0, 1, "ab", 1);
    no_type.truncate(no_type.len() - 1);
    assert!(parse_message(&no_type).is_none());

    let mut bad_utf8 = query(1, 0, 1, "", 1);
    bad_utf8.truncate(12);
    bad_utf8.extend_from_slice(&[2, 0xc3, 0x28, 0, 0, 1, 0, 1]);
    assert!(parse_message(&bad_utf8).is_none());
}

#[test]
fn parsing_twice_gives_the_same_result() {
    let q = query(0x0102, 0x0100, 1, "twice.example", 1);
    let (first_prefix, first_question) = parse_message(&q).unwrap();
    let (second_prefix, second_question) = parse_message(&q).unwrap();
    assert_eq!(first_prefix, second_prefix);
    assert_eq!(first_question.qname, second_question.qname);
    assert_eq!((first_question.qtype, first_question.qclass), (second_question.qtype, second_question.qclass));
    let bad = query(1, 0x8000, 1, "x", 1);
    assert!(parse_message(&bad).is_none());
    assert!(parse_message(&bad).is_none());
}

#[test]
fn create_message_exact_bytes() {
    let q = query(0xbeef, 0x0100, 1, "ab", 1);
    let record = literal_record("ab", [192, 168, 1, 2], 0x01020304);
    let reply = create_message(&q, &record).unwrap();
    let mut expected = vec![0xbe, 0xef, 0x80, 0, 0, 1, 0, 1, 0, 0, 0, 0];
    expected.extend_from_slice(&[2, b'a', b'b', 0, 0, 1, 0, 1]);
    expected.extend_from_slice(&[0xC0, 0x0C, 0, 1, 0, 1, 1, 2, 3, 4, 0, 4, 192, 168, 1, 2]);
    assert_eq!(reply, expected);
}

#[test]
fn reply_header_counts_and_id() {
    let q = query(0x4242, 0x0120, 1, "host.lan", 1);
    let record = literal_record("host.lan", [10, 1, 2, 3], 300);
    let reply = create_message(&q, &record).unwrap();
    assert_eq!(to_u16(&reply, 0), 0x4242);
    assert_eq!(to_u16(&reply, 2) & 0x8000, 0x8000);
    assert_eq!(to_u16(&reply, 4), 1);
    assert_eq!(to_u16(&reply, 6), 1);
    assert_eq!(to_u16(&reply, 8), 0);
    assert_eq!(to_u16(&reply, 10), 0);
    assert_eq!(reply.len(), q.len() + 16);
}

#[test]
fn create_message_refuses_ipv6() {
    let q = query(1, 0, 1, "ab", 1);
    let record = ResourceRecord {
        rdata: HostAddress::V6([0, 0, 0, 0, 0, 0, 0, 1]),
        name: NamePattern::Literal("ab".to_string()),
        ttl: 5,
    };
    assert_eq!(create_message(&q, &record), Err(SynthesisError::UnsupportedAddressFamily));
}
