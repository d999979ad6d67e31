use dnsproxy::{
    DefaultInterceptor, DnsInterceptor, HostAddress, Interceptor, NamePattern, Pattern,
    ResourceRecord,
};

fn query(id: u16, name: &str, qtype: u16) -> Vec<u8> {
    let mut b = vec![(id >> 8) as u8, id as u8, 0x01, 0x00, 0, 1, 0, 0, 0, 0, 0, 0];
    for label in name.split('.').filter(|l| !l.is_empty()) {
        b.push(label.len() as u8);
        b.extend_from_slice(label.as_bytes());
    }
    b.push(0);
    b.extend_from_slice(&[(qtype >> 8) as u8, qtype as u8, 0, 1]);
    b
}

fn record(pattern: NamePattern, octets: [u8; 4], ttl: u32) -> ResourceRecord {
    ResourceRecord { rdata: HostAddress::V4(octets), name: pattern, ttl }
}

fn literal(text: &str) -> NamePattern {
    NamePattern::Literal(text.to_string())
}

fn regex(text: &str) -> NamePattern {
    NamePattern::Regex(Pattern::new(text).unwrap())
}

#[test]
fn pattern_compilation() {
    assert_eq!(Pattern::new(r".+\.dev\.local").unwrap().as_str(), r".+\.dev\.local");
    assert!(Pattern::new("foo(bar").is_none());
}

#[test]
fn literal_and_regex_satisfaction() {
    assert!(literal("a.example").satisfies_query("a.example"));
    assert!(!literal("a.example").satisfies_query("b.a.example"));
    assert!(!literal("a.example").satisfies_query("A.example"));
    assert!(regex(r"\.example$").satisfies_query("b.a.example"));
    assert!(regex("exam").satisfies_query("b.a.example"));
    assert!(!regex(r"^example$").satisfies_query("b.a.example"));
}

#[test]
fn literal_match_answers_with_id_and_address() {
    let interceptor = DnsInterceptor::new(vec![
        record(literal("other.lan"), [1, 1, 1, 1], 10),
        record(literal("printer.lan"), [192, 168, 0, 9], 120),
    ]);
    let q = query(0x1f2e, "printer.lan", 1);
    let reply = interceptor.decide(&q).unwrap();
    assert_eq!(&reply[0..2], &[0x1f, 0x2e]);
    assert_eq!(&reply[reply.len() - 4..], &[192, 168, 0, 9]);
    assert_eq!(&reply[reply.len() - 10..reply.len() - 6], &[0, 0, 0, 120]);
    assert_eq!(interceptor.intercept(&q), Some(reply));
}

#[test]
fn unmatched_name_is_forwarded() {
    let interceptor = DnsInterceptor::new(vec![
        record(literal("printer.lan"), [192, 168, 0, 9], 120),
        record(regex(r"\.dev\.local$"), [10, 0, 0, 1], 60),
    ]);
    assert!(interceptor.decide(&query(7, "www.example.com", 1)).is_none());
    assert!(interceptor.intercept(&query(7, "printer.lan.evil", 1)).is_none());
    assert!(DnsInterceptor::new(vec![]).decide(&query(7, "printer.lan", 1)).is_none());
}

#[test]
fn first_configured_match_wins() {
    let interceptor = DnsInterceptor::new(vec![
        record(regex(r"\.local$"), [10, 0, 0, 1], 60),
        record(literal("api.dev.local"), [10, 0, 0, 2], 60),
    ]);
    let found = interceptor.find_override("api.dev.local").unwrap();
    assert!(matches!(found.rdata, HostAddress::V4([10, 0, 0, 1])));
    let reply = interceptor.decide(&query(3, "api.dev.local", 1)).unwrap();
    assert_eq!(&reply[reply.len() - 4..], &[10, 0, 0, 1]);
    assert!(interceptor.find_override("api.dev.other").is_none());
}

#[test]
fn regex_record_answer_bytes() {
    let interceptor = DnsInterceptor::new(vec![record(regex(r".+\.dev\.local"), [10, 0, 0, 5], 60)]);
    let q = query(0x0a0b, "api.dev.local", 1);
    let reply = interceptor.decide(&q).unwrap();
    let answer = &reply[q.len()..];
    assert_eq!(answer, &[0xC0, 0x0C, 0, 1, 0, 1, 0x00, 0x00, 0x00, 0x3C, 0, 4, 0x0A, 0x00, 0x00, 0x05]);
    assert_eq!(&reply[..2], &q[..2]);
    assert_eq!(&reply[2..12], &[0x80, 0, 0, 1, 0, 1, 0, 0, 0, 0]);
    assert_eq!(&reply[12..q.len()], &q[12..]);
}

#[test]
fn aaaa_query_without_override_is_forwarded() {
    let interceptor = DnsInterceptor::new(vec![record(literal("printer.lan"), [192, 168, 0, 9], 120)]);
    let q = query(5, "www.example.com", 28);
    assert!(dnsproxy::parse_message(&q).is_some());
    assert!(interceptor.decide(&q).is_none());
}

#[test]
fn aaaa_query_for_ipv4_record_is_forwarded() {
    let interceptor = DnsInterceptor::new(vec![record(literal("printer.lan"), [192, 168, 0, 9], 120)]);
    assert!(interceptor.decide(&query(5, "printer.lan", 28)).is_none());
}

#[test]
fn ipv6_record_is_forwarded() {
    let interceptor = DnsInterceptor::new(vec![ResourceRecord {
        rdata: HostAddress::V6([0xfe80, 0, 0, 0, 0, 0, 0, 1]),
        name: literal("v6.lan"),
        ttl: 60,
    }]);
    assert!(interceptor.decide(&query(5, "v6.lan", 1)).is_none());
}

#[test]
fn malformed_datagram_is_forwarded() {
    let interceptor = DnsInterceptor::new(vec![record(regex("."), [1, 2, 3, 4], 1)]);
    assert!(interceptor.decide(&[0, 1, 2]).is_none());
    let mut reply_bit = query(1, "a.b", 1);
    reply_bit[2] = 0x80;
    assert!(interceptor.decide(&reply_bit).is_none());
}

#[test]
fn default_interceptor_answers_nothing() {
    assert!(DefaultInterceptor.intercept(&query(1, "a.b", 1)).is_none());
    assert!(DefaultInterceptor.intercept(&[]).is_none());
}
