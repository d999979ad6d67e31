//! Decoding of a query's header and question, and encoding of a
//! synthesized address answer.

use vstd::prelude::*;
use vstd::string::*;
use vstd::utf8::*;

use crate::record::{HostAddress, ResourceRecord};

verus! {

/// Size of the fixed DNS message header.
pub const DNS_HEADER_SIZE: usize = 12;

/// The big-endian 16-bit value stored at `b[i]`, `b[i + 1]`.
pub open spec fn be16(b: Seq<u8>, i: int) -> u16 {
    (b[i] as int * 256 + b[i + 1] as int) as u16
}

/// Reads the big-endian 16-bit value at `offset`.
pub fn to_u16(buffer: &[u8], offset: usize) -> (r: u16)
    requires
        offset + 1 < buffer@.len(),
    ensures
        r == be16(buffer@, offset as int),
{
    let hi = buffer[offset];
    let lo = buffer[offset + 1];
    let r = ((hi as u16) << 8u16) | lo as u16;
    assert(((hi as u16) << 8u16) | lo as u16 == (hi as u16) * 256 + lo as u16) by (bit_vector)
        requires
            hi < 256,
            lo < 256,
    ;
    r
}

/// Query type of an IPv4 address record.
pub const TYPE_A: u16 = 1;

/// Query type of an IPv6 address record.
pub const TYPE_AAAA: u16 = 28;

/// The fixed header fields that decide whether a datagram is a query.
pub struct Header {
    pub id: u16,
    pub flags: u16,
    pub qd_count: u16,
}

/// A header describes a standard query: it asks at least one question,
/// the QR bit is clear and the opcode is zero.
pub open spec fn valid_query_fields(flags: u16, qd_count: u16) -> bool {
    &&& qd_count > 0
    &&& flags & 0x8000 == 0
    &&& flags & 0x7800 == 0
}

impl Header {
    pub fn is_valid_query(&self) -> (r: bool)
        ensures
            r == valid_query_fields(self.flags, self.qd_count),
    {
        self.qd_count > 0 && (self.flags & 0x8000) == 0 && (self.flags & 0x7800) == 0
    }
}

/// The decoded question of a query.
pub struct Question {
    pub qname: String,
    pub qtype: u16,
    pub qclass: u16,
}

/// `b` holds a whole header that describes a standard query.
pub open spec fn header_ok(b: Seq<u8>) -> bool {
    b.len() >= DNS_HEADER_SIZE && valid_query_fields(be16(b, 2), be16(b, 4))
}

/// The raw labels of the name that starts at `pos`, and the position just
/// after its terminating zero byte; `None` where a length byte is 64 or
/// more, or a label or the terminator lies past the end of `b`.
pub open spec fn read_labels(b: Seq<u8>, pos: int) -> Option<(Seq<Seq<u8>>, int)>
    decreases b.len() - pos,
{
    if pos < 0 || pos >= b.len() {
        None
    } else if b[pos] == 0 {
        Some((Seq::empty(), pos + 1))
    } else if b[pos] >= 64 || pos + 1 + b[pos] > b.len() {
        None
    } else {
        match read_labels(b, pos + 1 + b[pos]) {
            Some((rest, end)) => Some((seq![b.subrange(pos + 1, pos + 1 + b[pos])] + rest, end)),
            None => None,
        }
    }
}

/// Every label is valid UTF-8.
pub open spec fn all_utf8(labels: Seq<Seq<u8>>) -> bool {
    forall|i: int| 0 <= i < labels.len() ==> valid_utf8(#[trigger] labels[i])
}

/// The text of each label.
pub open spec fn decoded(labels: Seq<Seq<u8>>) -> Seq<Seq<char>> {
    labels.map_values(|l: Seq<u8>| decode_utf8(l))
}

/// The labels joined with `.` between them.
pub open spec fn dotted(labels: Seq<Seq<char>>) -> Seq<char>
    decreases labels.len(),
{
    if labels.len() == 0 {
        Seq::empty()
    } else if labels.len() == 1 {
        labels[0]
    } else {
        dotted(labels.drop_last()) + seq!['.'] + labels.last()
    }
}

/// Query types that this relay may answer.
pub open spec fn answerable(qtype: u16) -> bool {
    qtype == TYPE_A || qtype == TYPE_AAAA
}

/// The outcome of parsing the datagram `b`: the length of the prefix that
/// holds header and question, the query name, its type and its class.
pub open spec fn parsed_query(b: Seq<u8>) -> Option<(int, Seq<char>, u16, u16)> {
    if !header_ok(b) {
        None
    } else {
        match read_labels(b, DNS_HEADER_SIZE as int) {
            None => None,
            Some((labels, end)) => {
                if end + 4 <= b.len() && all_utf8(labels) && answerable(be16(b, end)) {
                    Some((end + 4, dotted(decoded(labels)), be16(b, end), be16(b, end + 2)))
                } else {
                    None
                }
            },
        }
    }
}

/// `r` is what parsing `input` yields: nothing where `parsed_query` gives
/// nothing, else the prefix it spans, the name, the type and the class.
pub open spec fn parse_agrees(input: Seq<u8>, r: Option<(Seq<u8>, Seq<char>, u16, u16)>) -> bool {
    match r {
        None => parsed_query(input) is None,
        Some((prefix, name, qtype, qclass)) => {
            &&& parsed_query(input) == Some((prefix.len() as int, name, qtype, qclass))
            &&& prefix == input.subrange(0, prefix.len() as int)
        },
    }
}

proof fn lemma_read_labels_end(b: Seq<u8>, pos: int)
    ensures
        read_labels(b, pos) matches Some((_, end)) ==> pos < end <= b.len(),
    decreases b.len() - pos,
{
    if 0 <= pos < b.len() && b[pos] != 0 && b[pos] < 64 && pos + 1 + b[pos] <= b.len() {
        lemma_read_labels_end(b, pos + 1 + b[pos]);
    }
}

/// What parses spans the header, a name of at least its terminator, and
/// the type and class, within the datagram.
pub proof fn lemma_parsed_prefix_len(input: Seq<u8>)
    ensures
        parsed_query(input) matches Some((len, _, _, _)) ==> DNS_HEADER_SIZE + 5 <= len
            <= input.len(),
{
    lemma_read_labels_end(input, DNS_HEADER_SIZE as int);
}

/// A datagram shorter than the header never parses.
pub proof fn lemma_short_datagram_rejected(input: Seq<u8>)
    requires
        input.len() < DNS_HEADER_SIZE,
    ensures
        parsed_query(input) is None,
        parse_agrees(input, None),
{
}

/// Parsing depends on the bytes alone: any two results that `parse_message`
/// may give for the same bytes are the same.
pub proof fn lemma_parse_deterministic(
    input: Seq<u8>,
    a: Option<(Seq<u8>, Seq<char>, u16, u16)>,
    b: Option<(Seq<u8>, Seq<char>, u16, u16)>,
)
    requires
        parse_agrees(input, a),
        parse_agrees(input, b),
    ensures
        a == b,
{
    if let (Some((pa, na, ta, ca)), Some((pb, nb, tb, cb))) = (a, b) {
        assert(pa.len() == pb.len());
        assert(pa =~= pb);
    }
}

/// Relies on `std::str::from_utf8`: it succeeds exactly on valid UTF-8 and
/// then yields the text those bytes encode.
#[verifier::external_body]
fn utf8_text(b: &[u8]) -> (r: Option<&str>)
    ensures
        r is Some <==> valid_utf8(b@),
        r matches Some(s) ==> s@ == decode_utf8(b@),
{
    std::str::from_utf8(b).ok()
}

/// Reads the label at the start of `input`: `Ok(None)` at the terminating
/// zero byte, `Ok(Some((size, text)))` for a label of `size` bytes with its
/// length byte, and `Err(())` for a malformed one.
pub fn parse_domain_label(input: &[u8]) -> (r: Result<Option<(usize, &str)>, ()>)
    ensures
        r == Ok::<Option<(usize, &str)>, ()>(None) <==> (input@.len() > 0 && input@[0] == 0),
        r matches Ok(Some((size, text))) ==> {
            &&& 0 < input@[0] < 64
            &&& size == input@[0] + 1
            &&& size <= input@.len()
            &&& valid_utf8(input@.subrange(1, size as int))
            &&& text@ == decode_utf8(input@.subrange(1, size as int))
        },
        r is Err <==> (input@.len() == 0 || (input@[0] != 0 && (input@[0] >= 64 || input@[0]
            + 1 > input@.len() || !valid_utf8(input@.subrange(1, input@[0] + 1))))),
{
    if input.len() == 0 {
        return Err(());
    }
    let len = input[0] as usize;
    if len == 0 {
        return Ok(None);
    }
    if len >= 64 || len + 1 > input.len() {
        return Err(());
    }
    match utf8_text(&input[1..len + 1]) {
        Some(text) => Ok(Some((len + 1, text))),
        None => Err(()),
    }
}

/// The labels `acc` followed by those of the rest of the name, `r`.
pub open spec fn after(acc: Seq<Seq<u8>>, r: Option<(Seq<Seq<u8>>, int)>) -> Option<
    (Seq<Seq<u8>>, int),
> {
    match r {
        Some((rest, end)) => Some((acc + rest, end)),
        None => None,
    }
}

proof fn lemma_dotted_push(labels: Seq<Seq<char>>, l: Seq<char>)
    ensures
        dotted(labels.push(l)) == if labels.len() == 0 {
            l
        } else {
            dotted(labels) + seq!['.'] + l
        },
{
    assert(labels.push(l).drop_last() =~= labels);
    if labels.len() == 0 {
        assert(labels.push(l).len() == 1);
    }
}

/// Parses a query datagram: on success, the prefix of `input` that holds
/// the header and the question, and the decoded question.
pub fn parse_message(input: &[u8]) -> (r: Option<(&[u8], Question)>)
    ensures
        parse_agrees(
            input@,
            match r {
                None => None,
                Some((prefix, q)) => Some((prefix@, q.qname@, q.qtype, q.qclass)),
            },
        ),
        r matches Some((prefix, _)) ==> prefix@.len() > DNS_HEADER_SIZE,
{
    if input.len() < DNS_HEADER_SIZE {
        return None;
    }
    let header = Header {
        id: to_u16(input, 0),
        flags: to_u16(input, 2),
        qd_count: to_u16(input, 4),
    };
    if !header.is_valid_query() {
        return None;
    }
    let mut consumed: usize = DNS_HEADER_SIZE;
    let mut qname = String::new();
    let mut first: bool = true;
    let ghost mut labels: Seq<Seq<u8>> = Seq::empty();
    assert(labels + Seq::<Seq<u8>>::empty() =~= labels);
    loop
        invariant_except_break
            DNS_HEADER_SIZE <= consumed <= input@.len(),
            read_labels(input@, DNS_HEADER_SIZE as int) == after(
                labels,
                read_labels(input@, consumed as int),
            ),
        invariant
            header_ok(input@),
            all_utf8(labels),
            qname@ == dotted(decoded(labels)),
            first == (labels.len() == 0),
        ensures
            DNS_HEADER_SIZE < consumed <= input@.len(),
            read_labels(input@, DNS_HEADER_SIZE as int) == Some((labels, consumed as int)),
            all_utf8(labels),
            qname@ == dotted(decoded(labels)),
        decreases input@.len() - consumed,
    {
        let ghost b = input@;
        let ghost pos = consumed as int;
        let rest = &input[consumed..input.len()];
        assert(rest@ =~= b.subrange(pos, b.len() as int));
        match parse_domain_label(rest) {
            Err(()) => {
                proof {
                    if pos < b.len() && b[pos] != 0 && b[pos] < 64 && pos + 1 + b[pos] <= b.len() {
                        let lab = b.subrange(pos + 1, pos + 1 + b[pos]);
                        assert(rest@.subrange(1, b[pos] + 1) =~= lab);
                        if let Some((tail, end)) = read_labels(b, pos + 1 + b[pos]) {
                            let all = labels + (seq![lab] + tail);
                            assert(all[labels.len() as int] == lab);
                        }
                    }
                }
                return None;
            },
            Ok(None) => {
                proof {
                    assert(labels + Seq::<Seq<u8>>::empty() =~= labels);
                }
                consumed = consumed + 1;
                break ;
            },
            Ok(Some((size, text))) => {
                proof {
                    let lab = b.subrange(pos + 1, pos + size);
                    assert(rest@.subrange(1, size as int) =~= lab);
                    if let Some((tail, end)) = read_labels(b, pos + size) {
                        assert(labels + (seq![lab] + tail) =~= labels.push(lab) + tail);
                    }
                    assert(forall|i: int|
                        0 <= i < labels.push(lab).len() ==> #[trigger] labels.push(lab)[i] == (
                        if i < labels.len() {
                            labels[i]
                        } else {
                            lab
                        }));
                    assert(decoded(labels.push(lab)) =~= decoded(labels).push(decode_utf8(lab)));
                    lemma_dotted_push(decoded(labels), decode_utf8(lab));
                    reveal_strlit(".");
                }
                if !first {
                    qname.append(".");
                }
                qname.append(text);
                first = false;
                consumed = consumed + size;
                proof {
                    labels = labels.push(b.subrange(pos + 1, pos + size));
                }
            },
        }
    }
    if input.len() - consumed < 4 {
        return None;
    }
    let qtype = to_u16(input, consumed);
    let qclass = to_u16(input, consumed + 2);
    if qtype != TYPE_A && qtype != TYPE_AAAA {
        return None;
    }
    let prefix = &input[0..consumed + 4];
    Some((prefix, Question { qname, qtype, qclass }))
}

/// Header bytes 2 to 12 of a synthesized reply: QR set, no error, one
/// question, one answer, no authority or additional records.
pub open spec fn reply_sub_header() -> Seq<u8> {
    seq![0x80u8, 0u8, 0u8, 1u8, 0u8, 1u8, 0u8, 0u8, 0u8, 0u8]
}

/// `ttl` as four big-endian bytes.
pub open spec fn ttl_bytes(ttl: u32) -> Seq<u8> {
    seq![(ttl >> 24u32) as u8, (ttl >> 16u32) as u8, (ttl >> 8u32) as u8, ttl as u8]
}

/// An IN class A record for the name at offset 12, with the given TTL and
/// the four address octets.
pub open spec fn answer_record(ttl: u32, octets: Seq<u8>) -> Seq<u8> {
    seq![0xC0u8, 0x0Cu8, 0u8, 1u8, 0u8, 1u8] + ttl_bytes(ttl) + seq![0u8, 4u8] + octets
}

/// The reply to the query whose header and question are `base`: its ID,
/// the reply sub-header, its question, then one answer.
pub open spec fn synthesized(base: Seq<u8>, ttl: u32, octets: Seq<u8>) -> Seq<u8> {
    base.subrange(0, 2) + reply_sub_header() + base.subrange(DNS_HEADER_SIZE as int, base.len() as int)
        + answer_record(ttl, octets)
}

/// Why no answer could be built for a record.
#[derive(Debug, PartialEq, Eq, Structural)]
pub enum SynthesisError {
    /// Only IPv4 addresses can be put in an answer.
    UnsupportedAddressFamily,
}

/// A synthesized reply, read as a DNS message, keeps the query's ID, has
/// the QR bit set, one question and one answer.
pub proof fn lemma_reply_header(base: Seq<u8>, ttl: u32, octets: Seq<u8>)
    requires
        base.len() >= DNS_HEADER_SIZE,
    ensures
        ({
            let m = synthesized(base, ttl, octets);
            &&& m.len() == base.len() + 12 + octets.len()
            &&& m.subrange(0, 2) == base.subrange(0, 2)
            &&& be16(m, 0) == be16(base, 0)
            &&& be16(m, 2) & 0x8000 == 0x8000
            &&& be16(m, 4) == 1
            &&& be16(m, 6) == 1
            &&& be16(m, 8) == 0
            &&& be16(m, 10) == 0
        }),
{
    let m = synthesized(base, ttl, octets);
    assert(m.subrange(0, 2) =~= base.subrange(0, 2));
    assert(m.subrange(2, 12) =~= reply_sub_header());
    assert(m[2] == m.subrange(2, 12)[0] && m[3] == m.subrange(2, 12)[1]);
    assert(m[4] == m.subrange(2, 12)[2] && m[5] == m.subrange(2, 12)[3]);
    assert(m[6] == m.subrange(2, 12)[4] && m[7] == m.subrange(2, 12)[5]);
    assert(m[8] == m.subrange(2, 12)[6] && m[9] == m.subrange(2, 12)[7]);
    assert(m[10] == m.subrange(2, 12)[8] && m[11] == m.subrange(2, 12)[9]);
    assert(be16(m, 2) == 0x8000);
    assert(0x8000u16 & 0x8000 == 0x8000) by (bit_vector);
}

fn append_bytes(message: &mut Vec<u8>, bytes: &[u8])
    ensures
        final(message)@ == old(message)@ + bytes@,
{
    let mut i: usize = 0;
    while i < bytes.len()
        invariant
            i <= bytes@.len(),
            message@ == old(message)@ + bytes@.subrange(0, i as int),
        decreases bytes@.len() - i,
    {
        message.push(bytes[i]);
        i = i + 1;
        assert(message@ =~= old(message)@ + bytes@.subrange(0, i as int));
    }
    assert(bytes@.subrange(0, i as int) =~= bytes@);
}

/// Builds the reply that answers the query `base` (its header and question,
/// as `parse_message` returned them) with the address of `record`.
pub fn create_message(base: &[u8], record: &ResourceRecord) -> (r: Result<Vec<u8>, SynthesisError>)
    requires
        base@.len() >= DNS_HEADER_SIZE,
    ensures
        match record.rdata {
            HostAddress::V4(octets) => r matches Ok(m) && m@ == synthesized(
                base@,
                record.ttl,
                octets@,
            ),
            HostAddress::V6(_) => r == Err::<Vec<u8>, SynthesisError>(
                SynthesisError::UnsupportedAddressFamily,
            ),
        },
{
    let octets = match &record.rdata {
        HostAddress::V4(octets) => octets,
        HostAddress::V6(_) => return Err(SynthesisError::UnsupportedAddressFamily),
    };
    let ttl = record.ttl;
    let header: [u8; 10] = [0x80, 0, 0, 1, 0, 1, 0, 0, 0, 0];
    let answer: [u8; 12] = [
        0xC0,
        0x0C,
        0,
        1,
        0,
        1,
        (ttl >> 24u32) as u8,
        (ttl >> 16u32) as u8,
        (ttl >> 8u32) as u8,
        ttl as u8,
        0,
        4,
    ];
    let mut message: Vec<u8> = Vec::new();
    append_bytes(&mut message, &base[0..2]);
    append_bytes(&mut message, header.as_slice());
    append_bytes(&mut message, &base[DNS_HEADER_SIZE..base.len()]);
    append_bytes(&mut message, answer.as_slice());
    append_bytes(&mut message, octets.as_slice());
    assert(header@ =~= reply_sub_header());
    assert(answer@ =~= seq![0xC0u8, 0x0Cu8, 0u8, 1u8, 0u8, 1u8] + ttl_bytes(ttl) + seq![0u8, 4u8]);
    assert(message@ =~= synthesized(base@, ttl, octets@));
    Ok(message)
}

} // verus!
