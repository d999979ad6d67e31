//! The DNS policy: answers queries for configured names, in place of the
//! upstream server.

use vstd::prelude::*;

use crate::record::{pattern_matches, HostAddress, NamePattern, ResourceRecord};
use crate::relay::Interceptor;
use crate::wire::{
    create_message, lemma_parsed_prefix_len, lemma_reply_header, parse_message, parsed_query, synthesized, DNS_HEADER_SIZE,
    TYPE_A,
};

verus! {

/// The index of the first record from `i` on whose pattern accepts `name`.
pub open spec fn first_match_from(records: Seq<ResourceRecord>, name: Seq<char>, i: int) -> Option<
    int,
>
    decreases records.len() - i,
{
    if i < 0 || i >= records.len() {
        None
    } else if pattern_matches(records[i].name, name) {
        Some(i)
    } else {
        first_match_from(records, name, i + 1)
    }
}

/// The index of the first record whose pattern accepts `name`.
pub open spec fn first_match(records: Seq<ResourceRecord>, name: Seq<char>) -> Option<int> {
    first_match_from(records, name, 0)
}

/// The reply owed to `datagram`: it parses as an A query whose name the
/// first matching record, one with an IPv4 address, answers.
pub open spec fn decide_spec(records: Seq<ResourceRecord>, datagram: Seq<u8>) -> Option<Seq<u8>> {
    match parsed_query(datagram) {
        None => None,
        Some((len, name, qtype, _)) => {
            if qtype != TYPE_A {
                None
            } else {
                match first_match(records, name) {
                    None => None,
                    Some(i) => match records[i].rdata {
                        HostAddress::V4(octets) => Some(
                            synthesized(datagram.subrange(0, len), records[i].ttl, octets@),
                        ),
                        HostAddress::V6(_) => None,
                    },
                }
            }
        },
    }
}

/// Answers DNS queries from a list of override records, first match first.
pub struct DnsInterceptor {
    records: Vec<ResourceRecord>,
}

impl DnsInterceptor {
    /// The override records, in configured order.
    pub closed spec fn records(&self) -> Seq<ResourceRecord> {
        self.records@
    }

    pub fn new(records: Vec<ResourceRecord>) -> (r: DnsInterceptor)
        ensures
            r.records() == records@,
    {
        DnsInterceptor { records }
    }

    /// The first record, in configured order, whose pattern accepts `qname`.
    pub fn find_override(&self, qname: &str) -> (r: Option<&ResourceRecord>)
        ensures
            match first_match(self.records(), qname@) {
                None => r is None,
                Some(i) => r == Some(&self.records()[i]),
            },
    {
        let mut i: usize = 0;
        while i < self.records.len()
            invariant
                i <= self.records@.len(),
                first_match(self.records@, qname@) == first_match_from(
                    self.records@,
                    qname@,
                    i as int,
                ),
            decreases self.records@.len() - i,
        {
            if self.records[i].name.satisfies_query(qname) {
                return Some(&self.records[i]);
            }
            i = i + 1;
        }
        None
    }

    /// The reply to `datagram`, or `None` to have it forwarded upstream.
    pub fn decide(&self, datagram: &[u8]) -> (r: Option<Vec<u8>>)
        ensures
            match r {
                Some(reply) => decide_spec(self.records(), datagram@) == Some(reply@),
                None => decide_spec(self.records(), datagram@) is None,
            },
    {
        let (prefix, question) = match parse_message(datagram) {
            Some(parsed) => parsed,
            None => return None,
        };
        if question.qtype != TYPE_A {
            return None;
        }
        let record = match self.find_override(question.qname.as_str()) {
            Some(record) => record,
            None => return None,
        };
        match create_message(prefix, record) {
            Ok(reply) => Some(reply),
            Err(_) => None,
        }
    }
}

impl Interceptor for DnsInterceptor {
    open spec fn reply_for(&self, datagram: Seq<u8>) -> Option<Seq<u8>> {
        decide_spec(self.records(), datagram)
    }

    fn intercept(&self, datagram: &[u8]) -> (r: Option<Vec<u8>>) {
        self.decide(datagram)
    }
}

proof fn lemma_first_match_from_at(records: Seq<ResourceRecord>, name: Seq<char>, k: int, i: int)
    requires
        0 <= k <= i < records.len(),
        pattern_matches(records[i].name, name),
        forall|j: int| k <= j < i ==> !pattern_matches(#[trigger] records[j].name, name),
    ensures
        first_match_from(records, name, k) == Some(i),
    decreases i - k,
{
    if k < i {
        lemma_first_match_from_at(records, name, k + 1, i);
    }
}

proof fn lemma_first_match_from_spec(records: Seq<ResourceRecord>, name: Seq<char>, k: int)
    requires
        0 <= k,
    ensures
        match first_match_from(records, name, k) {
            Some(i) => {
                &&& k <= i < records.len()
                &&& pattern_matches(records[i].name, name)
                &&& forall|j: int| k <= j < i ==> !pattern_matches(#[trigger] records[j].name, name)
            },
            None => forall|j: int|
                k <= j < records.len() ==> !pattern_matches(#[trigger] records[j].name, name),
        },
    decreases records.len() - k,
{
    if k < records.len() {
        lemma_first_match_from_spec(records, name, k + 1);
    }
}

/// First match wins: where two records both accept a name, the record
/// chosen for it is the earlier one or one before it, never the later one,
/// whatever their patterns.
pub proof fn lemma_first_match_wins(records: Seq<ResourceRecord>, name: Seq<char>, i: int, j: int)
    requires
        0 <= i < j < records.len(),
        pattern_matches(records[i].name, name),
        pattern_matches(records[j].name, name),
    ensures
        first_match(records, name) matches Some(k) && k <= i,
{
    lemma_first_match_from_spec(records, name, 0);
}

/// A query whose name no record accepts is not answered.
pub proof fn lemma_unmatched_forwarded(records: Seq<ResourceRecord>, datagram: Seq<u8>)
    requires
        parsed_query(datagram) matches Some((_, name, _, _)) && forall|j: int|
            0 <= j < records.len() ==> !pattern_matches(#[trigger] records[j].name, name),
    ensures
        decide_spec(records, datagram) is None,
{
    let name = parsed_query(datagram)->Some_0.1;
    lemma_first_match_from_spec(records, name, 0);
}

/// An A query whose name equals the text of a literal record with an IPv4
/// address, and which no earlier record accepts, is answered with a reply
/// that keeps the query's ID and ends with that address.
pub proof fn lemma_literal_answered(records: Seq<ResourceRecord>, datagram: Seq<u8>, i: int)
    requires
        0 <= i < records.len(),
        parsed_query(datagram) matches Some((_, name, qtype, _)) && {
            &&& qtype == TYPE_A
            &&& records[i].name matches NamePattern::Literal(l) && l@ == name
            &&& forall|j: int| 0 <= j < i ==> !pattern_matches(#[trigger] records[j].name, name)
        },
        records[i].rdata is V4,
    ensures
        decide_spec(records, datagram) matches Some(reply) && {
            &&& reply.subrange(0, 2) == datagram.subrange(0, 2)
            &&& reply.subrange(reply.len() - 4, reply.len() as int)
                == records[i].rdata->V4_0@
        },
{
    let (len, name, qtype, qclass) = parsed_query(datagram)->Some_0;
    lemma_first_match_from_at(records, name, 0, i);
    let base = datagram.subrange(0, len);
    let octets = records[i].rdata->V4_0@;
    lemma_parsed_prefix_len(datagram);
    lemma_reply_header(base, records[i].ttl, octets);
    let reply = synthesized(base, records[i].ttl, octets);
    assert(reply.subrange(reply.len() - 4, reply.len() as int) =~= octets);
    assert(base.subrange(0, 2) =~= datagram.subrange(0, 2));
}

} // verus!
