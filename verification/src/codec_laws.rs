//! Round-trip laws of the wire-format codec: a message this system encodes
//! decodes back to the same message, and encoding that decode yields the
//! same bytes. The laws hold for well-formed messages: lowercase ASCII
//! names with nonempty labels, bodies matching their type tags, and no type
//! tag hidden behind `UNKNOWN` that the codec models itself.

use vstd::prelude::*;

use crate::dns_header::{
    enc_header, flags_a, flags_b, rescode_num, rescode_of, spec_read_header, spec_write_header,
    DnsHeader,
};
use crate::dns_message::{
    qtype_num, qtype_of, spec_read_message, spec_read_questions, spec_read_records,
    spec_write_message, spec_write_questions, spec_write_records, zero_buf, MessageV, QueryType,
};
use crate::dns_question::{spec_read_question, spec_write_question, QuestionV};
use crate::dns_record::{
    spec_read_data, spec_read_record, spec_write_data, spec_write_hextets, spec_write_record,
    RecordDataV, RecordV,
};
use crate::errors::DnsError;
use crate::packet_buffer::{
    be16_bytes, be32_bytes, byte_to_lower_char, first_dot, join_name, lemma_first_dot_range,
    lemma_first_dot_spec, qname_decode, splice, spec_read_u16, spec_read_u32, spec_write_qname,
    QnameRes,
};

verus! {

/// A name byte the codec leaves unchanged on decode: plain ASCII and not a
/// capital letter.
pub open spec fn byte_lower_ascii(b: u8) -> bool {
    b < 128 && !(65 <= b <= 90)
}

/// A well-formed name on the encode side: every label nonempty, every byte
/// lowercase ASCII. Such a name survives the decoder's case folding intact.
pub open spec fn wf_qname_bytes(nb: Seq<u8>) -> bool
    decreases nb.len(),
{
    let i = first_dot(nb);
    &&& i >= 1
    &&& forall|k: int| 0 <= k < i ==> byte_lower_ascii(#[trigger] nb[k])
    &&& (0 <= i < nb.len() ==> wf_qname_bytes(nb.subrange(i + 1, nb.len() as int)))
}

/// The characters of an ASCII name's bytes.
pub open spec fn name_of_bytes(nb: Seq<u8>) -> Seq<char> {
    Seq::new(nb.len(), |i: int| nb[i] as char)
}

/// A name write touches nothing outside the region it fills.
pub proof fn lemma_write_qname_frame(nb: Seq<u8>, buf: Seq<u8>, pos: int)
    requires
        buf.len() == 512,
    ensures
        spec_write_qname(nb, buf, pos) matches Ok((b1, end)) ==> forall|k: int|
            0 <= k < 512 && !(pos <= k < end) ==> b1[k] == buf[k],
    decreases nb.len(),
{
    crate::packet_buffer::lemma_write_qname_range(nb, buf, pos);
    lemma_first_dot_range(nb);
    let i = first_dot(nb);
    let label = nb.subrange(0, i);
    if label.len() <= 63 && pos >= 0 && pos + 1 + label.len() <= 512 {
        let buf2 = splice(buf, pos, seq![label.len() as u8] + label);
        let pos2 = pos + 1 + i;
        if 0 <= i < nb.len() {
            let rest = nb.subrange(i + 1, nb.len() as int);
            crate::packet_buffer::lemma_write_qname_range(rest, buf2, pos2);
            lemma_write_qname_frame(rest, buf2, pos2);
        }
    }
}

/// Decoding a name just written yields the same characters and lands the
/// cursor just past the name, whatever else was written elsewhere in the
/// buffer afterwards and whatever jump budget remains.
pub proof fn lemma_qname_roundtrip(
    nb: Seq<u8>,
    buf: Seq<u8>,
    pos: int,
    b1: Seq<u8>,
    end: int,
    bufx: Seq<u8>,
    jumps: int,
)
    requires
        buf.len() == 512,
        bufx.len() == 512,
        spec_write_qname(nb, buf, pos) == Ok::<(Seq<u8>, int), DnsError>((b1, end)),
        wf_qname_bytes(nb),
        0 <= jumps <= 5,
        forall|k: int| pos <= k < end ==> bufx[k] == b1[k],
    ensures
        qname_decode(bufx, pos, jumps) == (QnameRes::Done { name: name_of_bytes(nb), end }),
    decreases nb.len(),
{
    crate::packet_buffer::lemma_write_qname_range(nb, buf, pos);
    lemma_first_dot_spec(nb);
    let i = first_dot(nb);
    let label = nb.subrange(0, i);
    let buf2 = splice(buf, pos, seq![label.len() as u8] + label);
    let pos2 = pos + 1 + i;
    let content = seq![label.len() as u8] + label;
    assert(1 <= i <= 63);
    assert(pos >= 0 && pos2 <= 512);

    let len_byte = i as u8;
    assert(len_byte & 0xC0 != 0xC0) by (bit_vector)
        requires
            len_byte <= 63,
    ;

    if 0 <= i < nb.len() {
        let rest = nb.subrange(i + 1, nb.len() as int);
        crate::packet_buffer::lemma_write_qname_range(rest, buf2, pos2);
        lemma_write_qname_frame(rest, buf2, pos2);
        // the label region survives the deeper writes
        assert forall|k: int| pos <= k < pos2 implies bufx[k] == content[k - pos] by {
            assert(b1[k] == buf2[k]);
            assert(buf2[k] == content[k - pos]);
        }
        assert(bufx[pos] == len_byte);
        let rest_chars = name_of_bytes(rest);
        lemma_qname_roundtrip(rest, buf2, pos2, b1, end, bufx, jumps);
        let label_chars = Seq::new(i as nat, |k: int| byte_to_lower_char(bufx[pos + 1 + k]));
        assert(label_chars =~= name_of_bytes(label)) by {
            assert forall|k: int| 0 <= k < i implies label_chars[k] == name_of_bytes(label)[k] by {
                assert(bufx[pos + 1 + k] == content[1 + k]);
                assert(content[1 + k] == label[k]);
                assert(byte_lower_ascii(nb[k]));
            }
        }
        assert(join_name(label_chars, rest_chars) =~= name_of_bytes(nb)) by {
            assert(rest_chars.len() == rest.len());
            assert(wf_qname_bytes(rest));
            assert(rest.len() > 0) by {
                lemma_first_dot_range(rest);
                assert(first_dot(rest) >= 1);
            }
            assert forall|k: int|
                0 <= k < nb.len() implies join_name(label_chars, rest_chars)[k] == name_of_bytes(
                nb,
            )[k] by {
                if k < i {
                } else if k == i {
                    assert(nb[k] == 46) by {
                        assert(nb[i] == 0x2E);
                    }
                    assert(('.') as int == 46);
                } else {
                    assert(rest[k - i - 1] == nb[k]);
                }
            }
        }
        assert(qname_decode(bufx, pos, jumps) == (QnameRes::Done {
            name: join_name(label_chars, rest_chars),
            end,
        }));
    } else {
        assert(i == nb.len());
        assert(end == pos2 + 1);
        let written = buf2.update(pos2, 0u8);
        assert(b1 == written);
        assert forall|k: int| pos <= k < pos2 implies bufx[k] == content[k - pos] by {
            assert(written[k] == buf2[k]);
            assert(buf2[k] == content[k - pos]);
        }
        assert(bufx[pos] == len_byte);
        assert(bufx[pos2] == 0);
        assert((0u8 & 0xC0) != 0xC0) by (bit_vector);
        let label_chars = Seq::new(i as nat, |k: int| byte_to_lower_char(bufx[pos + 1 + k]));
        assert(label_chars =~= name_of_bytes(nb)) by {
            assert forall|k: int| 0 <= k < i implies label_chars[k] == name_of_bytes(nb)[k] by {
                assert(bufx[pos + 1 + k] == content[1 + k]);
                assert(content[1 + k] == label[k]);
                assert(label[k] == nb[k]);
                assert(byte_lower_ascii(nb[k]));
            }
        }
        assert(qname_decode(bufx, pos2, jumps) == (QnameRes::Done {
            name: Seq::<char>::empty(),
            end: pos2 + 1,
        }));
        assert(join_name(label_chars, Seq::<char>::empty()) == label_chars);
    }
}

/// Reading two octets that hold `v` in network order yields `v`.
pub proof fn lemma_read_be16(bufx: Seq<u8>, pos: int, v: u16)
    requires
        bufx.len() == 512,
        0 <= pos,
        pos + 2 <= 512,
        bufx[pos] == be16_bytes(v)[0],
        bufx[pos + 1] == be16_bytes(v)[1],
    ensures
        spec_read_u16(bufx, pos) == Ok::<(u16, int), DnsError>((v, pos + 2)),
{
    assert((v / 256) * 256 + v % 256 == v);
}

/// Reading four octets that hold `v` in network order yields `v`.
pub proof fn lemma_read_be32(bufx: Seq<u8>, pos: int, v: u32)
    requires
        bufx.len() == 512,
        0 <= pos,
        pos + 4 <= 512,
        forall|k: int| 0 <= k < 4 ==> bufx[pos + k] == be32_bytes(v)[k],
    ensures
        spec_read_u32(bufx, pos) == Ok::<(u32, int), DnsError>((v, pos + 4)),
{
    assert(bufx[pos + 0] == be32_bytes(v)[0]);
    assert(bufx[pos + 1] == be32_bytes(v)[1]);
    assert(bufx[pos + 2] == be32_bytes(v)[2]);
    assert(bufx[pos + 3] == be32_bytes(v)[3]);
    assert(bufx[pos] == (v / 0x1000000) as u8);
    assert(bufx[pos + 1] == ((v / 0x10000) % 256) as u8);
    assert(bufx[pos + 2] == ((v / 256) % 256) as u8);
    assert(bufx[pos + 3] == (v % 256) as u8);
    let hi = ((v / 0x1000000) * 256 + (v / 0x10000) % 256) as u16;
    let lo = (((v / 256) % 256) * 256 + v % 256) as u16;
    assert((hi as int) * 0x10000 + lo as int == v) by {
        assert((v / 0x1000000) * 0x1000000 + ((v / 0x10000) % 256) * 0x10000 + ((v / 256) % 256)
            * 256 + v % 256 == v) by (bit_vector);
    }
}

/// Decoding a header just written yields the same header, wherever else the
/// buffer was touched afterwards.
pub proof fn lemma_header_roundtrip(h: DnsHeader, buf: Seq<u8>, pos: int, bufx: Seq<u8>)
    requires
        h.wf(),
        buf.len() == 512,
        bufx.len() == 512,
        spec_write_header(h, buf, pos) is Ok,
        forall|k: int|
            pos <= k < pos + 12 ==> bufx[k] == spec_write_header(h, buf, pos)->Ok_0.0[k],
    ensures
        spec_read_header(bufx, pos) == Ok::<(DnsHeader, int), DnsError>((h, pos + 12)),
{
    let e = enc_header(h);
    assert forall|k: int| 0 <= k < 12 implies bufx[pos + k] == e[k] by {
        assert(spec_write_header(h, buf, pos)->Ok_0.0[pos + k] == splice(buf, pos, e)[pos + k]);
    }
    let a = flags_a(h);
    let b = flags_b(h);
    let rd: u8 = if h.recursion_desired { 1 } else { 0 };
    let tm: u8 = if h.truncated_message { 1 } else { 0 };
    let aa: u8 = if h.authoritative_answer { 1 } else { 0 };
    let resp: u8 = if h.response { 1 } else { 0 };
    let op: u8 = h.opcode;
    assert(a == rd + 2 * tm + 4 * aa + 8 * op + 128 * resp);
    assert({
        &&& a as int % 2 == rd
        &&& (a as int / 2) % 2 == tm
        &&& (a as int / 4) % 2 == aa
        &&& (a as int / 8) % 16 == op
        &&& (a as int / 128) % 2 == resp
    }) by (bit_vector)
        requires
            a == rd + 2 * tm + 4 * aa + 8 * op + 128 * resp,
            rd <= 1,
            tm <= 1,
            aa <= 1,
            resp <= 1,
            op < 16,
    ;
    let rc: u8 = rescode_num(h.rescode);
    let cd: u8 = if h.checking_disabled { 1 } else { 0 };
    let ad: u8 = if h.authed_data { 1 } else { 0 };
    let z: u8 = if h.z { 1 } else { 0 };
    let ra: u8 = if h.recursion_available { 1 } else { 0 };
    assert(b == rc + 16 * cd + 32 * ad + 64 * z + 128 * ra);
    assert({
        &&& b as int % 16 == rc
        &&& (b as int / 16) % 2 == cd
        &&& (b as int / 32) % 2 == ad
        &&& (b as int / 64) % 2 == z
        &&& (b as int / 128) % 2 == ra
    }) by (bit_vector)
        requires
            b == rc + 16 * cd + 32 * ad + 64 * z + 128 * ra,
            rc < 16,
            cd <= 1,
            ad <= 1,
            z <= 1,
            ra <= 1,
    ;
    assert(rescode_of(rc) == h.rescode);
    assert((h.id / 256) * 256 + h.id % 256 == h.id);
    assert((h.questions / 256) * 256 + h.questions % 256 == h.questions);
    assert((h.answers / 256) * 256 + h.answers % 256 == h.answers);
    assert((h.authoritative_entries / 256) * 256 + h.authoritative_entries % 256
        == h.authoritative_entries);
    assert((h.resource_entries / 256) * 256 + h.resource_entries % 256 == h.resource_entries);
    match spec_read_header(bufx, pos) {
        Ok((h2, p2)) => {
            assert(h2 == h);
        },
        Err(_) => {
            assert(false);
        },
    }
}

/// A well-formed question for the encoder: a lowercase ASCII name with
/// nonempty labels, under a type tag the codec models by that tag.
pub open spec fn wf_question(q: QuestionV) -> bool {
    &&& vstd::utf8::is_ascii_chars(q.qname)
    &&& wf_qname_bytes(vstd::utf8::encode_utf8(q.qname))
    &&& qtype_of(qtype_num(q.qtype)) == q.qtype
}

/// The characters of an ASCII name's UTF-8 bytes are the name itself.
pub proof fn lemma_ascii_name_bytes(s: Seq<char>)
    requires
        vstd::utf8::is_ascii_chars(s),
    ensures
        name_of_bytes(vstd::utf8::encode_utf8(s)) == s,
        vstd::utf8::encode_utf8(s).len() == s.len(),
{
    vstd::utf8::is_ascii_chars_encode_utf8(s);
    let nb = vstd::utf8::encode_utf8(s);
    assert forall|i: int| 0 <= i < s.len() implies name_of_bytes(nb)[i] == s[i] by {
        assert(nb[i] == s[i] as u8);
        assert((s[i] as int) < 128);
    }
    assert(name_of_bytes(nb) =~= s);
}

/// A successful question write lands strictly past where it started, inside
/// the buffer, keeps the buffer's length, and touches nothing outside the
/// region it fills.
pub proof fn lemma_write_question_props(q: QuestionV, buf: Seq<u8>, pos: int)
    requires
        buf.len() == 512,
    ensures
        spec_write_question(q, buf, pos) matches Ok((b, p)) ==> {
            &&& pos < p <= 512
            &&& b.len() == 512
            &&& forall|k: int| 0 <= k < 512 && !(pos <= k < p) ==> b[k] == buf[k]
        },
{
    let nb = vstd::utf8::encode_utf8(q.qname);
    crate::packet_buffer::lemma_write_qname_range(nb, buf, pos);
    lemma_write_qname_frame(nb, buf, pos);
}

/// Decoding a question just written yields the same question, wherever else
/// the buffer was touched afterwards.
pub proof fn lemma_question_roundtrip(q: QuestionV, buf: Seq<u8>, pos: int, bufx: Seq<u8>)
    requires
        wf_question(q),
        buf.len() == 512,
        bufx.len() == 512,
        spec_write_question(q, buf, pos) is Ok,
        forall|k: int|
            pos <= k < spec_write_question(q, buf, pos)->Ok_0.1 ==> bufx[k] == spec_write_question(
                q,
                buf,
                pos,
            )->Ok_0.0[k],
    ensures
        spec_read_question(bufx, pos) == Ok::<(QuestionV, int), DnsError>(
            (q, spec_write_question(q, buf, pos)->Ok_0.1),
        ),
{
    let nb = vstd::utf8::encode_utf8(q.qname);
    crate::packet_buffer::lemma_write_qname_range(nb, buf, pos);
    match spec_write_qname(nb, buf, pos) {
        Ok((b1, p1)) => {
            // the two type/class words, written after the name, stay put
            lemma_qname_roundtrip(nb, buf, pos, b1, p1, bufx, 0);
            lemma_ascii_name_bytes(q.qname);
            let b2 = splice(b1, p1, be16_bytes(qtype_num(q.qtype)));
            let b3 = splice(b2, p1 + 2, be16_bytes(q.qclass));
            assert(bufx[p1 + 0] == be16_bytes(qtype_num(q.qtype))[0] && bufx[p1 + 1] == be16_bytes(
                qtype_num(q.qtype),
            )[1]) by {
                assert(b3[p1 + 0] == b2[p1 + 0] && b3[p1 + 1] == b2[p1 + 1]);
            }
            lemma_read_be16(bufx, p1, qtype_num(q.qtype));
            assert(bufx[p1 + 2] == be16_bytes(q.qclass)[0] && bufx[p1 + 3] == be16_bytes(
                q.qclass,
            )[1]);
            lemma_read_be16(bufx, p1 + 2, q.qclass);
        },
        Err(_) => {
            assert(false);
        },
    }
}

/// Whether a record's data body is the one its type tag selects.
pub open spec fn data_matches(t: QueryType, d: RecordDataV) -> bool {
    match t {
        QueryType::A => d is A,
        QueryType::NS => d is NS,
        QueryType::CNAME => d is CNAME,
        QueryType::MX => d is MX,
        QueryType::AAAA => d is AAAA,
        QueryType::UNKNOWN(_) => d is UNKNOWN,
    }
}

/// A well-formed data body for the encoder: every name in it lowercase ASCII
/// with nonempty labels, and an IPv6 body of exactly eight hextets.
pub open spec fn wf_data(d: RecordDataV) -> bool {
    match d {
        RecordDataV::NS { host } => vstd::utf8::is_ascii_chars(host) && wf_qname_bytes(
            vstd::utf8::encode_utf8(host),
        ),
        RecordDataV::CNAME { host } => vstd::utf8::is_ascii_chars(host) && wf_qname_bytes(
            vstd::utf8::encode_utf8(host),
        ),
        RecordDataV::MX { priority, host } => vstd::utf8::is_ascii_chars(host) && wf_qname_bytes(
            vstd::utf8::encode_utf8(host),
        ),
        RecordDataV::AAAA { addr } => addr.len() == 8,
        _ => true,
    }
}

/// A well-formed record for the encoder: a well-formed owner name and body,
/// matching each other through the type tag, which the codec decodes back to
/// itself.
pub open spec fn wf_record(rv: RecordV) -> bool {
    &&& vstd::utf8::is_ascii_chars(rv.domain)
    &&& wf_qname_bytes(vstd::utf8::encode_utf8(rv.domain))
    &&& qtype_of(qtype_num(rv.qtype)) == rv.qtype
    &&& data_matches(rv.qtype, rv.data)
    &&& wf_data(rv.data)
}

/// A hextet write fills exactly its region with the hextets' network-order
/// octets.
pub proof fn lemma_write_hextets_props(hx: Seq<u16>, buf: Seq<u8>, pos: int, i: int)
    requires
        buf.len() == 512,
        0 <= pos <= 512,
        0 <= i <= hx.len(),
    ensures
        spec_write_hextets(hx, buf, pos, i) matches Ok((b, p)) ==> {
            &&& p == pos + 2 * (hx.len() - i)
            &&& p <= 512
            &&& b.len() == 512
            &&& forall|k: int| 0 <= k < 512 && !(pos <= k < p) ==> b[k] == buf[k]
            &&& forall|j: int|
                i <= j < hx.len() ==> b[pos + 2 * (j - i)] == be16_bytes(hx[j])[0] && b[pos + 2 * (
                j - i) + 1] == be16_bytes(hx[j])[1]
        },
    decreases hx.len() - i,
{
    if i < hx.len() {
        if pos + 2 <= 512 {
            let b1 = splice(buf, pos, be16_bytes(hx[i]));
            lemma_write_hextets_props(hx, b1, pos + 2, i + 1);
            match spec_write_hextets(hx, b1, pos + 2, i + 1) {
                Ok((b, p)) => {
                    assert forall|j: int|
                        i <= j < hx.len() implies b[pos + 2 * (j - i)] == be16_bytes(hx[j])[0]
                        && b[pos + 2 * (j - i) + 1] == be16_bytes(hx[j])[1] by {
                        if j == i {
                            assert(b[pos] == b1[pos]);
                            assert(b[pos + 1] == b1[pos + 1]);
                        } else {
                            assert(b[pos + 2 + 2 * (j - i - 1)] == be16_bytes(hx[j])[0]);
                            assert(b[pos + 2 + 2 * (j - i - 1) + 1] == be16_bytes(hx[j])[1]);
                        }
                    }
                },
                Err(_) => {},
            }
        }
    }
}

/// A data-body write lands at or past where it started, inside the buffer,
/// keeps the buffer's length, and touches nothing outside its region.
pub proof fn lemma_write_data_props(d: RecordDataV, buf: Seq<u8>, pos: int)
    requires
        buf.len() == 512,
        0 <= pos <= 512,
    ensures
        spec_write_data(d, buf, pos) matches Ok((b, p)) ==> {
            &&& pos <= p <= 512
            &&& b.len() == 512
            &&& forall|k: int| 0 <= k < 512 && !(pos <= k < p) ==> b[k] == buf[k]
        },
{
    match d {
        RecordDataV::NS { host } => {
            crate::packet_buffer::lemma_write_qname_range(
                vstd::utf8::encode_utf8(host),
                buf,
                pos,
            );
            lemma_write_qname_frame(vstd::utf8::encode_utf8(host), buf, pos);
        },
        RecordDataV::CNAME { host } => {
            crate::packet_buffer::lemma_write_qname_range(
                vstd::utf8::encode_utf8(host),
                buf,
                pos,
            );
            lemma_write_qname_frame(vstd::utf8::encode_utf8(host), buf, pos);
        },
        RecordDataV::MX { priority, host } => {
            if pos + 2 <= 512 {
                let b1 = splice(buf, pos, be16_bytes(priority));
                crate::packet_buffer::lemma_write_qname_range(
                    vstd::utf8::encode_utf8(host),
                    b1,
                    pos + 2,
                );
                lemma_write_qname_frame(vstd::utf8::encode_utf8(host), b1, pos + 2);
            }
        },
        RecordDataV::AAAA { addr } => {
            lemma_write_hextets_props(addr, buf, pos, 0);
        },
        _ => {},
    }
}

/// Decoding a data body just written under its own type tag and patched
/// length yields the same body and lands the cursor just past it.
pub proof fn lemma_data_roundtrip(
    t: QueryType,
    d: RecordDataV,
    b5: Seq<u8>,
    p5: int,
    b6: Seq<u8>,
    p6: int,
    bufx: Seq<u8>,
    dl: u16,
)
    requires
        data_matches(t, d),
        wf_data(d),
        b5.len() == 512,
        bufx.len() == 512,
        0 <= p5 <= 512,
        spec_write_data(d, b5, p5) == Ok::<(Seq<u8>, int), DnsError>((b6, p6)),
        p6 - p5 == dl,
        forall|k: int| p5 <= k < p6 ==> bufx[k] == b6[k],
    ensures
        spec_read_data(bufx, p5, t, dl) == Ok::<(RecordDataV, int), DnsError>((d, p6)),
{
    lemma_write_data_props(d, b5, p5);
    match d {
        RecordDataV::A { addr } => {
            let b = splice(b5, p5, be32_bytes(addr));
            assert forall|k: int| 0 <= k < 4 implies bufx[p5 + k] == be32_bytes(addr)[k] by {
                assert(b[p5 + k] == be32_bytes(addr)[k]);
            }
            lemma_read_be32(bufx, p5, addr);
        },
        RecordDataV::NS { host } => {
            let nb = vstd::utf8::encode_utf8(host);
            lemma_qname_roundtrip(nb, b5, p5, b6, p6, bufx, 0);
            lemma_ascii_name_bytes(host);
        },
        RecordDataV::CNAME { host } => {
            let nb = vstd::utf8::encode_utf8(host);
            lemma_qname_roundtrip(nb, b5, p5, b6, p6, bufx, 0);
            lemma_ascii_name_bytes(host);
        },
        RecordDataV::MX { priority, host } => {
            let b1 = splice(b5, p5, be16_bytes(priority));
            let nb = vstd::utf8::encode_utf8(host);
            crate::packet_buffer::lemma_write_qname_range(nb, b1, p5 + 2);
            lemma_write_qname_frame(nb, b1, p5 + 2);
            assert(bufx[p5 + 0] == be16_bytes(priority)[0] && bufx[p5 + 1] == be16_bytes(
                priority,
            )[1]) by {
                assert(b6[p5 + 0] == b1[p5 + 0] && b6[p5 + 1] == b1[p5 + 1]);
            }
            lemma_read_be16(bufx, p5, priority);
            lemma_qname_roundtrip(nb, b1, p5 + 2, b6, p6, bufx, 0);
            lemma_ascii_name_bytes(host);
        },
        RecordDataV::AAAA { addr } => {
            lemma_write_hextets_props(addr, b5, p5, 0);
            assert(p6 == p5 + 16);
            let got = Seq::new(
                8,
                |i: int| ((bufx[p5 + 2 * i] as int) * 256 + bufx[p5 + 2 * i + 1] as int) as u16,
            );
            assert(got =~= addr) by {
                assert forall|j: int| 0 <= j < 8 implies got[j] == addr[j] by {
                    assert(b6[p5 + 2 * j] == be16_bytes(addr[j])[0]);
                    assert(b6[p5 + 2 * j + 1] == be16_bytes(addr[j])[1]);
                    assert((addr[j] / 256) * 256 + addr[j] % 256 == addr[j]);
                }
            }
        },
        RecordDataV::UNKNOWN => {
            assert(p6 == p5);
            assert(dl == 0);
        },
    }
}

/// A successful record write lands strictly past where it started, inside
/// the buffer, keeps the buffer's length, touches nothing outside its
/// region, and reports exactly the octet count of its body.
#[verifier::spinoff_prover]
pub proof fn lemma_write_record_props(rv: RecordV, buf: Seq<u8>, pos: int)
    requires
        buf.len() == 512,
    ensures
        spec_write_record(rv, buf, pos) matches Ok((b, p, dl)) ==> {
            &&& pos < p <= 512
            &&& b.len() == 512
            &&& forall|k: int| 0 <= k < 512 && !(pos <= k < p) ==> b[k] == buf[k]
        },
{
    reveal(spec_write_record);
    let nb = vstd::utf8::encode_utf8(rv.domain);
    crate::packet_buffer::lemma_write_qname_range(nb, buf, pos);
    lemma_write_qname_frame(nb, buf, pos);
    match spec_write_qname(nb, buf, pos) {
        Ok((b1, p1)) => {
            if p1 + 10 <= 512 {
                let b2 = splice(b1, p1, be16_bytes(qtype_num(rv.qtype)));
                let b3 = splice(b2, p1 + 2, be16_bytes(rv.class));
                let b4 = splice(b3, p1 + 4, be32_bytes(rv.ttl));
                let b5 = splice(b4, p1 + 8, be16_bytes(0u16));
                lemma_write_data_props(rv.data, b5, p1 + 10);
            }
        },
        Err(_) => {},
    }
}

/// Decoding a record just written yields the same record, its data length
/// now the patched octet count of the body, wherever else the buffer was
/// touched afterwards.
#[verifier::spinoff_prover]
#[verifier::rlimit(100)]
pub proof fn lemma_record_roundtrip(rv: RecordV, buf: Seq<u8>, pos: int, bufx: Seq<u8>)
    requires
        wf_record(rv),
        buf.len() == 512,
        bufx.len() == 512,
        spec_write_record(rv, buf, pos) is Ok,
        forall|k: int|
            pos <= k < spec_write_record(rv, buf, pos)->Ok_0.1 ==> bufx[k] == spec_write_record(
                rv,
                buf,
                pos,
            )->Ok_0.0[k],
    ensures
        spec_read_record(bufx, pos) == Ok::<(RecordV, int), DnsError>(
            (
                RecordV { data_len: spec_write_record(rv, buf, pos)->Ok_0.2, ..rv },
                spec_write_record(rv, buf, pos)->Ok_0.1,
            ),
        ),
{
    reveal(spec_write_record);
    let nb = vstd::utf8::encode_utf8(rv.domain);
    crate::packet_buffer::lemma_write_qname_range(nb, buf, pos);
    lemma_write_qname_frame(nb, buf, pos);
    match spec_write_qname(nb, buf, pos) {
        Ok((b1, p1)) => {
            let b2 = splice(b1, p1, be16_bytes(qtype_num(rv.qtype)));
            let b3 = splice(b2, p1 + 2, be16_bytes(rv.class));
            let b4 = splice(b3, p1 + 4, be32_bytes(rv.ttl));
            let b5 = splice(b4, p1 + 8, be16_bytes(0u16));
            let p5 = p1 + 10;
            assert(p5 <= 512);
            lemma_write_data_props(rv.data, b5, p5);
            match spec_write_data(rv.data, b5, p5) {
                Ok((b6, p6)) => {
                    let dl = ((p6 - p5) as int % 0x10000) as u16;
                    assert(p6 - p5 <= 512);
                    assert(dl == p6 - p5);
                    let b7 = splice(b6, p1 + 8, be16_bytes(dl));
                    assert(spec_write_record(rv, buf, pos) == Ok::<
                        (Seq<u8>, int, u16),
                        DnsError,
                    >((b7, p6, dl)));
                    // the owner name's region survives all later writes
                    assert forall|k: int| pos <= k < p1 implies bufx[k] == b1[k] by {
                        assert(b7[k] == b6[k]);
                        assert(b6[k] == b5[k]);
                        assert(b5[k] == b4[k]);
                        assert(b4[k] == b3[k]);
                        assert(b3[k] == b2[k]);
                        assert(b2[k] == b1[k]);
                    }
                    lemma_qname_roundtrip(nb, buf, pos, b1, p1, bufx, 0);
                    lemma_ascii_name_bytes(rv.domain);
                    // the fixed header words
                    assert(bufx[p1 + 0] == be16_bytes(qtype_num(rv.qtype))[0] && bufx[p1 + 1]
                        == be16_bytes(qtype_num(rv.qtype))[1]) by {
                        assert(b7[p1 + 0] == b6[p1 + 0] && b6[p1 + 0] == b5[p1 + 0] && b5[p1 + 0]
                            == b4[p1 + 0] && b4[p1 + 0] == b3[p1 + 0] && b3[p1 + 0] == b2[p1 + 0]);
                        assert(b7[p1 + 1] == b6[p1 + 1] && b6[p1 + 1] == b5[p1 + 1] && b5[p1 + 1]
                            == b4[p1 + 1] && b4[p1 + 1] == b3[p1 + 1] && b3[p1 + 1] == b2[p1 + 1]);
                    }
                    lemma_read_be16(bufx, p1, qtype_num(rv.qtype));
                    assert(bufx[p1 + 2] == be16_bytes(rv.class)[0] && bufx[p1 + 3] == be16_bytes(
                        rv.class,
                    )[1]) by {
                        assert(b7[p1 + 2] == b3[p1 + 2] && b7[p1 + 3] == b3[p1 + 3]);
                    }
                    lemma_read_be16(bufx, p1 + 2, rv.class);
                    assert forall|k: int| 0 <= k < 4 implies bufx[p1 + 4 + k] == be32_bytes(
                        rv.ttl,
                    )[k] by {
                        assert(b7[p1 + 4 + k] == b4[p1 + 4 + k]);
                    }
                    lemma_read_be32(bufx, p1 + 4, rv.ttl);
                    // the patched length word
                    assert(bufx[p1 + 8] == be16_bytes(dl)[0] && bufx[p1 + 9] == be16_bytes(
                        dl,
                    )[1]) by {
                        assert(b7[p1 + 8] == be16_bytes(dl)[0]);
                        assert(b7[p1 + 9] == be16_bytes(dl)[1]);
                    }
                    lemma_read_be16(bufx, p1 + 8, dl);
                    // the body, untouched by the patch two octets before it
                    assert forall|k: int| p5 <= k < p6 implies bufx[k] == b6[k] by {
                        assert(b7[k] == b6[k]);
                    }
                    lemma_data_roundtrip(rv.qtype, rv.data, b5, p5, b6, p6, bufx, dl);
                    assert(spec_read_data(bufx, p5, qtype_of(qtype_num(rv.qtype)), dl) == Ok::<
                        (RecordDataV, int),
                        DnsError,
                    >((rv.data, p6)));
                },
                Err(_) => {},
            }
        },
        Err(_) => {},
    }
}

/// A question-section write stays inside the buffer and touches nothing
/// outside its region.
pub proof fn lemma_write_questions_props(qs: Seq<QuestionV>, buf: Seq<u8>, pos: int)
    requires
        buf.len() == 512,
        0 <= pos <= 512,
    ensures
        spec_write_questions(qs, buf, pos) matches Ok((b, p)) ==> {
            &&& pos <= p <= 512
            &&& b.len() == 512
            &&& forall|k: int| 0 <= k < 512 && !(pos <= k < p) ==> b[k] == buf[k]
        },
    decreases qs.len(),
{
    if qs.len() > 0 {
        lemma_write_question_props(qs[0], buf, pos);
        match spec_write_question(qs[0], buf, pos) {
            Ok((b1, p1)) => {
                lemma_write_questions_props(qs.drop_first(), b1, p1);
            },
            Err(_) => {},
        }
    }
}

/// A record-section write stays inside the buffer, touches nothing outside
/// its region, and yields the same records with only their data lengths
/// patched.
pub proof fn lemma_write_records_props(rs: Seq<RecordV>, buf: Seq<u8>, pos: int)
    requires
        buf.len() == 512,
        0 <= pos <= 512,
    ensures
        spec_write_records(rs, buf, pos) matches Ok((b, p, rvs)) ==> {
            &&& pos <= p <= 512
            &&& b.len() == 512
            &&& forall|k: int| 0 <= k < 512 && !(pos <= k < p) ==> b[k] == buf[k]
            &&& rvs.len() == rs.len()
            &&& forall|j: int|
                0 <= j < rs.len() ==> #[trigger] rvs[j] == (RecordV {
                    data_len: rvs[j].data_len,
                    ..rs[j]
                })
        },
    decreases rs.len(),
{
    if rs.len() > 0 {
        lemma_write_record_props(rs[0], buf, pos);
        match spec_write_record(rs[0], buf, pos) {
            Ok((b1, p1, dl)) => {
                lemma_write_records_props(rs.drop_first(), b1, p1);
            },
            Err(_) => {},
        }
    }
}

/// Decoding a question section just written yields the same questions.
pub proof fn lemma_questions_roundtrip(qs: Seq<QuestionV>, buf: Seq<u8>, pos: int, bufx: Seq<u8>)
    requires
        forall|j: int| 0 <= j < qs.len() ==> wf_question(#[trigger] qs[j]),
        buf.len() == 512,
        bufx.len() == 512,
        0 <= pos <= 512,
        spec_write_questions(qs, buf, pos) is Ok,
        forall|k: int|
            pos <= k < spec_write_questions(qs, buf, pos)->Ok_0.1 ==> bufx[k]
                == spec_write_questions(qs, buf, pos)->Ok_0.0[k],
    ensures
        spec_read_questions(bufx, pos, qs.len() as int) == Ok::<(Seq<QuestionV>, int), DnsError>(
            (qs, spec_write_questions(qs, buf, pos)->Ok_0.1),
        ),
    decreases qs.len(),
{
    if qs.len() == 0 {
        assert(spec_read_questions(bufx, pos, 0) == Ok::<(Seq<QuestionV>, int), DnsError>(
            (Seq::empty(), pos),
        ));
        assert(qs =~= Seq::<QuestionV>::empty());
    } else {
        lemma_write_question_props(qs[0], buf, pos);
        match spec_write_question(qs[0], buf, pos) {
            Ok((b1, p1)) => {
                lemma_write_questions_props(qs.drop_first(), b1, p1);
                match spec_write_questions(qs.drop_first(), b1, p1) {
                    Ok((b2, p2)) => {
                        assert forall|k: int| pos <= k < p1 implies bufx[k] == b1[k] by {
                            assert(b2[k] == b1[k]);
                        }
                        lemma_question_roundtrip(qs[0], buf, pos, bufx);
                        lemma_questions_roundtrip(qs.drop_first(), b1, p1, bufx);
                        assert(seq![qs[0]] + qs.drop_first() =~= qs);
                    },
                    Err(_) => {},
                }
            },
            Err(_) => {},
        }
    }
}

/// Decoding a record section just written yields the records with their
/// patched data lengths.
pub proof fn lemma_records_roundtrip(rs: Seq<RecordV>, buf: Seq<u8>, pos: int, bufx: Seq<u8>)
    requires
        forall|j: int| 0 <= j < rs.len() ==> wf_record(#[trigger] rs[j]),
        buf.len() == 512,
        bufx.len() == 512,
        0 <= pos <= 512,
        spec_write_records(rs, buf, pos) is Ok,
        forall|k: int|
            pos <= k < spec_write_records(rs, buf, pos)->Ok_0.1 ==> bufx[k] == spec_write_records(
                rs,
                buf,
                pos,
            )->Ok_0.0[k],
    ensures
        spec_read_records(bufx, pos, rs.len() as int) == Ok::<(Seq<RecordV>, int), DnsError>(
            (spec_write_records(rs, buf, pos)->Ok_0.2, spec_write_records(rs, buf, pos)->Ok_0.1),
        ),
    decreases rs.len(),
{
    if rs.len() == 0 {
        assert(spec_read_records(bufx, pos, 0) == Ok::<(Seq<RecordV>, int), DnsError>(
            (Seq::empty(), pos),
        ));
    } else {
        lemma_write_record_props(rs[0], buf, pos);
        match spec_write_record(rs[0], buf, pos) {
            Ok((b1, p1, dl)) => {
                lemma_write_records_props(rs.drop_first(), b1, p1);
                match spec_write_records(rs.drop_first(), b1, p1) {
                    Ok((b2, p2, rest)) => {
                        assert forall|k: int| pos <= k < p1 implies bufx[k] == b1[k] by {
                            assert(b2[k] == b1[k]);
                        }
                        lemma_record_roundtrip(rs[0], buf, pos, bufx);
                        lemma_records_roundtrip(rs.drop_first(), b1, p1, bufx);
                    },
                    Err(_) => {},
                }
            },
            Err(_) => {},
        }
    }
}

/// A well-formed message for the encoder: a four-bit opcode, well-formed
/// questions and records throughout, and section lengths that fit the
/// sixteen-bit header counts.
pub open spec fn wf_message(m: MessageV) -> bool {
    &&& m.header.wf()
    &&& m.questions.len() <= 0xFFFF
    &&& m.answers.len() <= 0xFFFF
    &&& m.authorities.len() <= 0xFFFF
    &&& m.resources.len() <= 0xFFFF
    &&& forall|j: int| 0 <= j < m.questions.len() ==> wf_question(#[trigger] m.questions[j])
    &&& forall|j: int| 0 <= j < m.answers.len() ==> wf_record(#[trigger] m.answers[j])
    &&& forall|j: int| 0 <= j < m.authorities.len() ==> wf_record(#[trigger] m.authorities[j])
    &&& forall|j: int| 0 <= j < m.resources.len() ==> wf_record(#[trigger] m.resources[j])
}

/// Decoding an encoded well-formed message yields exactly the message the
/// encoder reports: the same header with its counts rewritten from the
/// section lengths, the same sections with each record's data length
/// patched. Every section's length equals its header count.
#[verifier::spinoff_prover]
#[verifier::rlimit(100)]
pub proof fn lemma_message_roundtrip(m: MessageV)
    requires
        wf_message(m),
        spec_write_message(m) is Ok,
    ensures
        ({
            let (bytes, len, m1) = spec_write_message(m)->Ok_0;
            spec_read_message(bytes, 0) == Ok::<(MessageV, int), DnsError>((m1, len))
        }),
{
    let h = DnsHeader {
        questions: m.questions.len() as u16,
        answers: m.answers.len() as u16,
        authoritative_entries: m.authorities.len() as u16,
        resource_entries: m.resources.len() as u16,
        ..m.header
    };
    let (bytes, len, m1) = spec_write_message(m)->Ok_0;
    let z = zero_buf();
    assert(z.len() == 512);
    match spec_write_header(h, z, 0) {
        Ok((b0, p0)) => {
            assert(p0 == 12);
            match spec_write_questions(m.questions, b0, p0) {
                Ok((b1, p1)) => {
                    lemma_write_questions_props(m.questions, b0, p0);
                    match spec_write_records(m.answers, b1, p1) {
                        Ok((b2, p2, an)) => {
                            lemma_write_records_props(m.answers, b1, p1);
                            match spec_write_records(m.authorities, b2, p2) {
                                Ok((b3, p3, au)) => {
                                    lemma_write_records_props(m.authorities, b2, p2);
                                    match spec_write_records(m.resources, b3, p3) {
                                        Ok((b4, p4, re)) => {
                                            lemma_write_records_props(m.resources, b3, p3);
                                            assert(bytes == b4 && len == p4);
                                            assert forall|k: int|
                                                0 <= k < 12 implies bytes[k] == b0[k] by {
                                                assert(b4[k] == b3[k]);
                                                assert(b3[k] == b2[k]);
                                                assert(b2[k] == b1[k]);
                                            }
                                            lemma_header_roundtrip(h, z, 0, bytes);
                                            assert(h.questions as int == m.questions.len());
                                            assert(h.answers as int == m.answers.len());
                                            assert(h.authoritative_entries as int
                                                == m.authorities.len());
                                            assert(h.resource_entries as int
                                                == m.resources.len());
                                            assert forall|k: int|
                                                p0 <= k < p1 implies bytes[k] == b1[k] by {
                                                assert(b4[k] == b3[k]);
                                                assert(b3[k] == b2[k]);
                                            }
                                            lemma_questions_roundtrip(m.questions, b0, p0, bytes);
                                            assert forall|k: int|
                                                p1 <= k < p2 implies bytes[k] == b2[k] by {
                                                assert(b4[k] == b3[k]);
                                            }
                                            lemma_records_roundtrip(m.answers, b1, p1, bytes);
                                            lemma_records_roundtrip(m.authorities, b2, p2, bytes);
                                            lemma_records_roundtrip(m.resources, b3, p3, bytes);
                                        },
                                        Err(_) => {},
                                    }
                                },
                                Err(_) => {},
                            }
                        },
                        Err(_) => {},
                    }
                },
                Err(_) => {},
            }
        },
        Err(_) => {},
    }
}

/// A record write never looks at the record's stored data length: a record
/// with a patched length writes the same bytes and patches the same length.
pub proof fn lemma_write_record_ignores_len(rv: RecordV, dl0: u16, buf: Seq<u8>, pos: int)
    ensures
        spec_write_record(RecordV { data_len: dl0, ..rv }, buf, pos) == spec_write_record(
            rv,
            buf,
            pos,
        ),
{
    reveal(spec_write_record);
}

/// Writing a record section a second time, with the data lengths the first
/// write patched in, gives the same bytes and the same records back.
pub proof fn lemma_records_write_fixpoint(rs: Seq<RecordV>, buf: Seq<u8>, pos: int)
    requires
        spec_write_records(rs, buf, pos) is Ok,
    ensures
        ({
            let (b, p, rvs) = spec_write_records(rs, buf, pos)->Ok_0;
            spec_write_records(rvs, buf, pos) == Ok::<(Seq<u8>, int, Seq<RecordV>), DnsError>(
                (b, p, rvs),
            )
        }),
    decreases rs.len(),
{
    if rs.len() == 0 {
        let (b, p, rvs) = spec_write_records(rs, buf, pos)->Ok_0;
        assert(rvs =~= Seq::<RecordV>::empty());
    } else {
        match spec_write_record(rs[0], buf, pos) {
            Ok((b1, p1, dl)) => {
                lemma_write_record_ignores_len(rs[0], dl, buf, pos);
                match spec_write_records(rs.drop_first(), b1, p1) {
                    Ok((b2, p2, rest)) => {
                        lemma_records_write_fixpoint(rs.drop_first(), b1, p1);
                        let rvs = seq![RecordV { data_len: dl, ..rs[0] }] + rest;
                        assert(rvs[0] == (RecordV { data_len: dl, ..rs[0] }));
                        assert(rvs.drop_first() =~= rest);
                        assert((RecordV { data_len: dl, ..rvs[0] }) == rvs[0]);
                        assert(seq![RecordV { data_len: dl, ..rvs[0] }] + rest =~= rvs);
                    },
                    Err(_) => {},
                }
            },
            Err(_) => {},
        }
    }
}

/// The round-trip law of the codec: encoding a well-formed message, decoding
/// those bytes and encoding the decoded message again produces bytes
/// identical to the first encode — and the decoded message is the encoder's
/// own normalized message, so a second round trip changes nothing at all.
#[verifier::spinoff_prover]
#[verifier::rlimit(100)]
pub proof fn lemma_encode_decode_encode(m: MessageV)
    requires
        wf_message(m),
        spec_write_message(m) is Ok,
    ensures
        ({
            let (bytes, len, m1) = spec_write_message(m)->Ok_0;
            &&& spec_read_message(bytes, 0) == Ok::<(MessageV, int), DnsError>((m1, len))
            &&& spec_write_message(m1) == spec_write_message(m)
        }),
{
    lemma_message_roundtrip(m);
    let (bytes, len, m1) = spec_write_message(m)->Ok_0;
    let h = DnsHeader {
        questions: m.questions.len() as u16,
        answers: m.answers.len() as u16,
        authoritative_entries: m.authorities.len() as u16,
        resource_entries: m.resources.len() as u16,
        ..m.header
    };
    assert(zero_buf().len() == 512);
    match spec_write_header(h, zero_buf(), 0) {
        Ok((b0, p0)) => {
            assert(b0.len() == 512 && p0 == 12);
            match spec_write_questions(m.questions, b0, p0) {
                Ok((b1, p1)) => {
                    lemma_write_questions_props(m.questions, b0, p0);
                    match spec_write_records(m.answers, b1, p1) {
                        Ok((b2, p2, an)) => {
                            lemma_write_records_props(m.answers, b1, p1);
                            lemma_records_write_fixpoint(m.answers, b1, p1);
                            match spec_write_records(m.authorities, b2, p2) {
                                Ok((b3, p3, au)) => {
                                    lemma_write_records_props(m.authorities, b2, p2);
                                    lemma_records_write_fixpoint(m.authorities, b2, p2);
                                    match spec_write_records(m.resources, b3, p3) {
                                        Ok((b4, p4, re)) => {
                                            lemma_write_records_props(m.resources, b3, p3);
                                            lemma_records_write_fixpoint(m.resources, b3, p3);
                                            let h1 = DnsHeader {
                                                questions: m1.questions.len() as u16,
                                                answers: m1.answers.len() as u16,
                                                authoritative_entries: m1.authorities.len() as u16,
                                                resource_entries: m1.resources.len() as u16,
                                                ..m1.header
                                            };
                                            assert(h1 == h);
                                        },
                                        Err(_) => {},
                                    }
                                },
                                Err(_) => {},
                            }
                        },
                        Err(_) => {},
                    }
                },
                Err(_) => {},
            }
        },
        Err(_) => {},
    }
}

} // verus!
