use cdn_dns::dns_header::ResultCode;
use cdn_dns::dns_message::{DnsMessage, QueryType};
use cdn_dns::dns_question::DnsQuestion;
use cdn_dns::dns_record::{DnsRecord, RecordData};
use cdn_dns::errors::DnsError;
use cdn_dns::packet_buffer::PacketBuffer;

/// Builds the compressed referral fixture: one question `www.example.com A`,
/// two NS authorities whose names point back into the question, and two glue
/// A records whose names point at the NS hosts.
fn referral_fixture() -> PacketBuffer {
    let mut buffer = PacketBuffer::new();
    let bytes: Vec<u8> = vec![
        0x12, 0x34, // id
        0x00, 0x00, // flags
        0x00, 0x01, // questions
        0x00, 0x00, // answers
        0x00, 0x02, // authorities
        0x00, 0x02, // additionals
        // question at 12: www.example.com A IN
        3, b'w', b'w', b'w', 7, b'e', b'x', b'a', b'm', b'p', b'l', b'e', 3, b'c', b'o', b'm', 0,
        0x00, 0x01, 0x00, 0x01,
        // authority 1 at 33: example.com NS ns1.example.com
        0xC0, 0x10, 0x00, 0x02, 0x00, 0x01, 0x00, 0x00, 0x00, 0x00, 0x00, 0x06,
        3, b'n', b's', b'1', 0xC0, 0x10,
        // authority 2 at 51: example.com NS ns2.example.com
        0xC0, 0x10, 0x00, 0x02, 0x00, 0x01, 0x00, 0x00, 0x00, 0x00, 0x00, 0x06,
        3, b'n', b's', b'2', 0xC0, 0x10,
        // additional 1 at 69: ns1.example.com A 10.0.0.1
        0xC0, 0x2D, 0x00, 0x01, 0x00, 0x01, 0x00, 0x00, 0x00, 0x00, 0x00, 0x04, 10, 0, 0, 1,
        // additional 2 at 85: ns2.example.com A 10.0.0.2
        0xC0, 0x3F, 0x00, 0x01, 0x00, 0x01, 0x00, 0x00, 0x00, 0x00, 0x00, 0x04, 10, 0, 0, 2,
    ];
    for (i, b) in bytes.iter().enumerate() {
        buffer.buf[i] = *b;
    }
    buffer
}

#[test]
fn encode_a_answer() {
    let mut m = DnsMessage::new();
    m.header.id = 0x1234;
    m.answers.push(DnsRecord::new_a(
        0xC0000201, // 192.0.2.1
        String::from("example.com"),
        300,
    ));
    let buffer = m.into_buf().expect("encode failed");
    // 12 header + 13 owner name + 10 fixed record words + 4 address octets
    assert_eq!(buffer.pos(), 39);
    let b = &buffer.buf;
    // header: id, then zero flags, counts 0/1/0/0
    assert_eq!(&b[0..12], &[0x12, 0x34, 0, 0, 0, 0, 0, 1, 0, 0, 0, 0]);
    // owner name
    assert_eq!(
        &b[12..25],
        &[7, b'e', b'x', b'a', b'm', b'p', b'l', b'e', 3, b'c', b'o', b'm', 0]
    );
    // type A, class IN, ttl 300, rdlength 4, address
    assert_eq!(&b[25..35], &[0, 1, 0, 1, 0, 0, 1, 44, 0, 4]);
    assert_eq!(&b[35..39], &[192, 0, 2, 1]);
}

#[test]
fn decode_compressed_referral() {
    let mut buffer = referral_fixture();
    let m = DnsMessage::from_buf(&mut buffer).expect("decode failed");
    assert_eq!(m.questions.len(), 1);
    assert_eq!(m.questions[0].qname, "www.example.com");
    assert_eq!(m.answers.len(), 0);
    assert_eq!(m.authorities.len(), 2);
    assert_eq!(m.resources.len(), 2);
    assert_eq!(m.authorities[0].domain, "example.com");
    match &m.authorities[0].data {
        RecordData::NS { host } => assert_eq!(host, "ns1.example.com"),
        other => panic!("not an NS record: {:?}", other),
    }
    assert_eq!(m.resources[0].domain, "ns1.example.com");
    // the first glue address wins
    assert_eq!(m.get_resolved_ns("www.example.com"), Some(0x0A000001));
    assert_eq!(m.get_unresolved_ns("www.example.com"), Some("ns1.example.com"));
}

#[test]
fn decode_preserves_section_counts() {
    let mut buffer = referral_fixture();
    let m = DnsMessage::from_buf(&mut buffer).expect("decode failed");
    assert_eq!(m.header.questions as usize, m.questions.len());
    assert_eq!(m.header.answers as usize, m.answers.len());
    assert_eq!(m.header.authoritative_entries as usize, m.authorities.len());
    assert_eq!(m.header.resource_entries as usize, m.resources.len());
}

#[test]
fn encode_decode_encode_is_stable() {
    let mut m = DnsMessage::new();
    m.header.id = 0xBEEF;
    m.header.recursion_desired = true;
    m.questions.push(DnsQuestion::new(String::from("www.example.com"), QueryType::A));
    m.answers.push(DnsRecord::new_a(0x0A000005, String::from("www.example.com"), 60));
    m.answers.push(DnsRecord {
        domain: String::from("mail.example.com"),
        qtype: QueryType::MX,
        class: 1,
        ttl: 120,
        data_len: 0,
        data: RecordData::MX { priority: 10, host: String::from("mx.example.com") },
    });
    m.authorities.push(DnsRecord {
        domain: String::from("example.com"),
        qtype: QueryType::NS,
        class: 1,
        ttl: 360,
        data_len: 0,
        data: RecordData::NS { host: String::from("ns1.example.com") },
    });
    m.resources.push(DnsRecord {
        domain: String::from("host6.example.com"),
        qtype: QueryType::AAAA,
        class: 1,
        ttl: 60,
        data_len: 0,
        data: RecordData::AAAA { addr: [0x2001, 0xdb8, 0, 0, 0, 0, 0, 1] },
    });
    let first = m.into_buf().expect("first encode failed");
    let len1 = first.pos();

    let mut wire = PacketBuffer::new();
    wire.buf = first.buf.clone();
    let mut decoded = DnsMessage::from_buf(&mut wire).expect("decode failed");
    let second = decoded.into_buf().expect("second encode failed");

    assert_eq!(second.pos(), len1);
    assert_eq!(second.buf, first.buf);
}

#[test]
fn pointer_to_forward_offset_decodes() {
    let mut buffer = PacketBuffer::new();
    // a pointer at 12 to a name that lies further ahead at 20
    buffer.buf[12] = 0xC0;
    buffer.buf[13] = 20;
    let ahead: Vec<u8> = vec![3, b'f', b'o', b'o', 0];
    for (i, b) in ahead.iter().enumerate() {
        buffer.buf[20 + i] = *b;
    }
    buffer.seek(12).unwrap();
    let mut name = String::new();
    buffer.read_qname(&mut name).expect("decode failed");
    assert_eq!(name, "foo");
    // the cursor lands just past the pointer, not past the target
    assert_eq!(buffer.pos(), 14);
}

#[test]
fn pointer_loop_hits_jump_limit() {
    let mut buffer = PacketBuffer::new();
    // a name at offset 12 that points at itself
    buffer.buf[12] = 0xC0;
    buffer.buf[13] = 0x0C;
    buffer.seek(12).unwrap();
    let mut name = String::new();
    let r = buffer.read_qname(&mut name);
    assert_eq!(r, Err(DnsError::JumpLimitExceeded));
}

#[test]
fn decoded_names_are_lowercase() {
    let mut buffer = PacketBuffer::new();
    let bytes: Vec<u8> = vec![3, b'W', b'w', b'W', 7, b'E', b'x', b'A', b'm', b'P', b'l', b'E', 3,
        b'C', b'o', b'M', 0];
    for (i, b) in bytes.iter().enumerate() {
        buffer.buf[i] = *b;
    }
    let mut name = String::new();
    buffer.read_qname(&mut name).expect("decode failed");
    assert_eq!(name, "www.example.com");
    assert_eq!(name, name.to_lowercase());
}

#[test]
fn max_label_roundtrips_and_longer_fails() {
    let long_label = "a".repeat(63);
    let name = format!("{}.example", long_label);
    let mut buffer = PacketBuffer::new();
    buffer.write_qname(&name).expect("63-octet label must encode");
    buffer.seek(0).unwrap();
    let mut back = String::new();
    buffer.read_qname(&mut back).expect("decode failed");
    assert_eq!(back, name);

    let too_long = "b".repeat(64);
    let mut buffer2 = PacketBuffer::new();
    assert_eq!(buffer2.write_qname(&too_long), Err(DnsError::LabelTooLong));
}

#[test]
fn empty_name_decodes_at_terminator() {
    let mut buffer = PacketBuffer::new();
    // byte 0 is already a zero octet: the root name
    let mut name = String::new();
    buffer.read_qname(&mut name).expect("decode failed");
    assert_eq!(name, "");
    assert_eq!(buffer.pos(), 1);
}

#[test]
fn data_len_beyond_buffer_fails() {
    let mut buffer = PacketBuffer::new();
    let bytes: Vec<u8> = vec![
        0, 0, 0, 0, 0, 0, 0, 1, 0, 0, 0, 0, // header: one answer
        0, // root owner name
        0x00, 0x63, // type 99: unmodelled
        0x00, 0x01, // class
        0, 0, 0, 0, // ttl
        0xFF, 0xFF, // data length far past the buffer
    ];
    for (i, b) in bytes.iter().enumerate() {
        buffer.buf[i] = *b;
    }
    match DnsMessage::from_buf(&mut buffer) {
        Err(e) => assert_eq!(e, DnsError::OutOfBounds),
        Ok(_) => panic!("an over-long data length must not decode"),
    }
}

#[test]
fn unknown_qtype_passes_through() {
    let mut buffer = PacketBuffer::new();
    let bytes: Vec<u8> = vec![
        0, 7, 0, 0, 0, 0, 0, 1, 0, 0, 0, 0, // header: one answer
        1, b'x', 0, // owner name "x"
        0x00, 0x63, // type 99
        0x00, 0x01, // class
        0, 0, 0, 5, // ttl
        0x00, 0x02, // data length 2
        0xAB, 0xCD, // skipped body
        0xFF, // trailing byte, not part of the record
    ];
    for (i, b) in bytes.iter().enumerate() {
        buffer.buf[i] = *b;
    }
    let m = DnsMessage::from_buf(&mut buffer).expect("decode failed");
    assert_eq!(m.answers.len(), 1);
    assert_eq!(m.answers[0].qtype, QueryType::UNKNOWN(99));
    assert_eq!(m.answers[0].data_len, 2);
    assert!(matches!(m.answers[0].data, RecordData::UNKNOWN));
    // the cursor skipped exactly the declared body
    assert_eq!(buffer.pos(), 27);
}

#[test]
fn header_flags_roundtrip() {
    let mut m = DnsMessage::new();
    m.header.id = 0xABCD;
    m.header.recursion_desired = true;
    m.header.authoritative_answer = true;
    m.header.opcode = 5;
    m.header.response = true;
    m.header.rescode = ResultCode::REFUSED;
    m.header.authed_data = true;
    m.header.recursion_available = true;
    let encoded = m.into_buf().expect("encode failed");
    let mut wire = PacketBuffer::new();
    wire.buf = encoded.buf.clone();
    let back = DnsMessage::from_buf(&mut wire).expect("decode failed");
    assert_eq!(back.header, m.header);
}

#[test]
fn result_code_from_unknown_is_noerror() {
    assert_eq!(ResultCode::from(3u8), ResultCode::NXDOMAIN);
    assert_eq!(ResultCode::from(9u8), ResultCode::NOERROR);
    assert_eq!(QueryType::from(28u16), QueryType::AAAA);
    assert_eq!(QueryType::from(99u16), QueryType::UNKNOWN(99));
    assert_eq!(QueryType::from(15u16).to_num(), 15);
}
