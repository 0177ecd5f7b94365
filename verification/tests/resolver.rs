use cdn_dns::dns_header::ResultCode;
use cdn_dns::dns_message::{DnsMessage, QueryType};
use cdn_dns::dns_question::DnsQuestion;
use cdn_dns::dns_record::{DnsRecord, RecordData};
use cdn_dns::dns_resolver::{resolve, resolver_response, ResolveStep};

fn ns_authority(zone: &str, host: &str) -> DnsRecord {
    DnsRecord {
        domain: String::from(zone),
        qtype: QueryType::NS,
        class: 1,
        ttl: 60,
        data_len: 0,
        data: RecordData::NS { host: String::from(host) },
    }
}

#[test]
fn nxdomain_short_circuits() {
    let mut response = DnsMessage::new();
    response.header.rescode = ResultCode::NXDOMAIN;
    response.authorities.push(ns_authority("example.com", "ns1.example.com"));
    // despite a usable referral, the denial is final
    let step = cdn_dns::dns_resolver::resolve_step(&response, "www.example.com");
    assert!(matches!(step, ResolveStep::Accept));
}

#[test]
fn answer_with_noerror_is_final() {
    let mut response = DnsMessage::new();
    response.answers.push(DnsRecord::new_a(0x01020304, String::from("www.example.com"), 60));
    let step = cdn_dns::dns_resolver::resolve_step(&response, "www.example.com");
    assert!(matches!(step, ResolveStep::Accept));
}

#[test]
fn glued_referral_queries_by_address() {
    let mut response = DnsMessage::new();
    response.authorities.push(ns_authority("example.com", "ns1.example.com"));
    response.resources.push(DnsRecord::new_a(0x0A000001, String::from("ns1.example.com"), 60));
    let step = cdn_dns::dns_resolver::resolve_step(&response, "www.example.com");
    match step {
        ResolveStep::UseServer { ip } => assert_eq!(ip, 0x0A000001),
        other => panic!("expected an address referral, got {:?}", step_name(&other)),
    }
}

#[test]
fn unglued_chase_resolves_ns_by_name() {
    // the referral names a server but brings no glue
    let mut response = DnsMessage::new();
    response.authorities.push(ns_authority("example.com", "ns1.example.com"));
    let step = cdn_dns::dns_resolver::resolve_step(&response, "www.example.com");
    match step {
        ResolveStep::Chase { host } => assert_eq!(host, "ns1.example.com"),
        other => panic!("expected a chase, got {:?}", step_name(&other)),
    }

    // after one chase, the child lookup's first A answer becomes the server
    let mut chased = DnsMessage::new();
    chased.answers.push(DnsRecord::new_a(0x0A000009, String::from("ns1.example.com"), 60));
    assert_eq!(chased.random_ipv4(), Some(0x0A000009));
}

#[test]
fn exhausted_referrals_return_last_response() {
    let response = DnsMessage::new();
    let step = cdn_dns::dns_resolver::resolve_step(&response, "www.example.com");
    assert!(matches!(step, ResolveStep::Accept));
}

#[test]
fn resolver_response_envelopes() {
    // no question: a format error
    let r = resolver_response(7, true, None, None);
    assert_eq!(r.header.id, 7);
    assert!(r.header.response && r.header.recursion_available && r.header.recursion_desired);
    assert_eq!(r.header.rescode, ResultCode::FORMERR);
    assert!(r.questions.is_empty() && r.answers.is_empty());

    // a failed recursion: a server failure
    let q = DnsQuestion::new(String::from("www.example.com"), QueryType::A);
    let r = resolver_response(8, true, Some(q), None);
    assert_eq!(r.header.rescode, ResultCode::SERVFAIL);
    assert!(r.questions.is_empty() && r.answers.is_empty());

    // a successful recursion: code and sections copied, question echoed
    let q = DnsQuestion::new(String::from("www.example.com"), QueryType::A);
    let mut lookup = DnsMessage::new();
    lookup.answers.push(DnsRecord::new_a(0x7F000001, String::from("www.example.com"), 60));
    let r = resolver_response(9, true, Some(q), Some(lookup));
    assert_eq!(r.header.rescode, ResultCode::NOERROR);
    assert_eq!(r.questions.len(), 1);
    assert_eq!(r.questions[0].qname, "www.example.com");
    assert_eq!(r.answers.len(), 1);

    assert!(resolve("www.example.com", QueryType::A).is_ok());
}

fn step_name(s: &ResolveStep) -> &'static str {
    match s {
        ResolveStep::Accept => "accept",
        ResolveStep::UseServer { .. } => "use-server",
        ResolveStep::Chase { .. } => "chase",
    }
}
