use cdn_dns::dns_header::ResultCode;
use cdn_dns::dns_message::QueryType;
use cdn_dns::dns_question::DnsQuestion;
use cdn_dns::dns_record::RecordData;
use cdn_dns::load_balancer::{
    balancer_response, client_ip, parse_ipv4, select_upstream, Connection, ConnectionList,
    LoadBalancer,
};

fn table() -> ConnectionList {
    ConnectionList::from(vec![
        Connection { client: String::from("192.168.10.2"), server: String::from("10.0.0.5") },
        Connection { client: String::from("192.168.10.3"), server: String::from("10.0.0.6") },
        Connection { client: String::from("192.168.10.2"), server: String::from("10.0.0.7") },
    ])
}

#[test]
fn iter_servers_filters_by_client() {
    let list = table();
    assert_eq!(list.iter_servers("192.168.10.2"), vec!["10.0.0.5", "10.0.0.7"]);
    assert_eq!(list.iter_servers("192.168.10.9"), Vec::<String>::new());

    let balancer = LoadBalancer::from(vec![Connection {
        client: String::from("192.168.10.2"),
        server: String::from("10.0.0.5"),
    }]);
    assert_eq!(balancer.iter_servers("192.168.10.2"), vec!["10.0.0.5"]);
}

#[test]
fn balancer_hit_answers_with_affine_server() {
    let list = table();
    let ups = vec![String::from("10.9.9.9")];
    let q = DnsQuestion::new(String::from("cdn.example"), QueryType::A);
    let r = balancer_response(0x42, true, Some(q), "cdn.example", "192.168.10.2:33000", &list, &ups);
    assert_eq!(r.header.id, 0x42);
    assert!(r.header.response && r.header.recursion_desired);
    assert_eq!(r.header.rescode, ResultCode::NOERROR);
    assert_eq!(r.questions.len(), 1);
    assert_eq!(r.answers.len(), 1);
    assert_eq!(r.answers[0].domain, "cdn.example");
    match &r.answers[0].data {
        RecordData::A { addr } => assert_eq!(*addr, 0x0A000005), // 10.0.0.5
        other => panic!("not an A record: {:?}", other),
    }
}

#[test]
fn balancer_miss_falls_back_to_first_upstream() {
    let list = table();
    let ups = vec![String::from("10.9.9.9"), String::from("10.8.8.8")];
    let q = DnsQuestion::new(String::from("cdn.example"), QueryType::A);
    let r = balancer_response(1, false, Some(q), "cdn.example", "192.168.10.99:5353", &list, &ups);
    assert_eq!(r.header.rescode, ResultCode::NOERROR);
    match &r.answers[0].data {
        RecordData::A { addr } => assert_eq!(*addr, 0x0A090909), // 10.9.9.9
        other => panic!("not an A record: {:?}", other),
    }

    // with no upstream left, the balancer is down
    let none: Vec<String> = vec![];
    let q = DnsQuestion::new(String::from("cdn.example"), QueryType::A);
    let r = balancer_response(1, false, Some(q), "cdn.example", "192.168.10.99:5353", &list, &none);
    assert_eq!(r.header.rescode, ResultCode::SERVFAIL);
    assert!(r.answers.is_empty());
}

#[test]
fn balancer_rejects_foreign_and_missing_questions() {
    let list = table();
    let ups = vec![String::from("10.9.9.9")];
    let q = DnsQuestion::new(String::from("other.example"), QueryType::A);
    let r = balancer_response(2, true, Some(q), "cdn.example", "192.168.10.2:1", &list, &ups);
    assert_eq!(r.header.rescode, ResultCode::SERVFAIL);
    assert!(r.questions.is_empty() && r.answers.is_empty());

    let r = balancer_response(2, true, None, "cdn.example", "192.168.10.2:1", &list, &ups);
    assert_eq!(r.header.rescode, ResultCode::FORMERR);
}

#[test]
fn same_table_and_client_give_same_server() {
    let ups = vec![String::from("10.9.9.9")];
    let a = select_upstream(&table(), "192.168.10.2", &ups);
    let b = select_upstream(&table(), "192.168.10.2", &ups);
    assert_eq!(a, b);
    assert_eq!(a, Some(String::from("10.0.0.5")));
}

#[test]
fn parse_ipv4_accepts_quads_and_rejects_junk() {
    assert_eq!(parse_ipv4("192.0.2.1"), Some(0xC0000201));
    assert_eq!(parse_ipv4("0.0.0.0"), Some(0));
    assert_eq!(parse_ipv4("255.255.255.255"), Some(0xFFFFFFFF));
    assert_eq!(parse_ipv4("256.0.0.1"), None);
    assert_eq!(parse_ipv4("01.2.3.4"), None);
    assert_eq!(parse_ipv4("1.2.3"), None);
    assert_eq!(parse_ipv4("1.2.3.4.5"), None);
    assert_eq!(parse_ipv4(""), None);
    assert_eq!(parse_ipv4("a.b.c.d"), None);
}

#[test]
fn client_ip_strips_the_port() {
    assert_eq!(client_ip("192.168.10.2:33000"), "192.168.10.2");
    assert_eq!(client_ip("10.0.0.1"), "10.0.0.1");
    assert_eq!(client_ip(":9"), "");
}
