//! The DNS message model: the query-type tag, whole-message encode and
//! decode over the packet buffer, and the referral helpers the resolver
//! walks.

use vstd::prelude::*;

use crate::dns_header::{header_new, spec_read_header, spec_write_header, DnsHeader};
use crate::dns_question::{spec_read_question, spec_write_question, DnsQuestion, QuestionV};
use crate::dns_record::{spec_read_record, spec_write_record, DnsRecord, RecordData, RecordDataV, RecordV};
use crate::errors::DnsError;
use crate::packet_buffer::PacketBuffer;

verus! {

/// A record or question type tag. `UNKNOWN` keeps the numeric type of a
/// record this codec does not model, so its header fields round-trip.
#[derive(PartialEq, Eq, Debug, Clone, Hash, Copy, Structural)]
pub enum QueryType {
    UNKNOWN(u16),
    A,
    NS,
    CNAME,
    MX,
    AAAA,
}

/// The wire value of a query type.
pub open spec fn qtype_num(t: QueryType) -> u16 {
    match t {
        QueryType::A => 1,
        QueryType::NS => 2,
        QueryType::CNAME => 5,
        QueryType::MX => 15,
        QueryType::AAAA => 28,
        QueryType::UNKNOWN(v) => v,
    }
}

/// The query type decoded from a wire value; an unmodelled value is kept as
/// `UNKNOWN`.
pub open spec fn qtype_of(v: u16) -> QueryType {
    match v {
        1u16 => QueryType::A,
        2u16 => QueryType::NS,
        5u16 => QueryType::CNAME,
        15u16 => QueryType::MX,
        28u16 => QueryType::AAAA,
        _ => QueryType::UNKNOWN(v),
    }
}

impl From<u16> for QueryType {
    /// The type for a decoded wire value.
    fn from(value: u16) -> (r: Self) {
        match value {
            1 => Self::A,
            2 => Self::NS,
            5 => Self::CNAME,
            15 => Self::MX,
            28 => Self::AAAA,
            _ => Self::UNKNOWN(value),
        }
    }
}

impl vstd::std_specs::convert::FromSpecImpl<u16> for QueryType {
    open spec fn obeys_from_spec() -> bool {
        true
    }

    open spec fn from_spec(v: u16) -> Self {
        qtype_of(v)
    }
}

impl QueryType {
    /// The numeric wire value of this type.
    pub fn to_num(self) -> (r: u16)
        ensures
            r == qtype_num(self),
    {
        match self {
            Self::A => 1,
            Self::NS => 2,
            Self::CNAME => 5,
            Self::MX => 15,
            Self::AAAA => 28,
            Self::UNKNOWN(value) => value,
        }
    }
}

/// A whole DNS message: header and the four sections.
#[derive(Clone, Debug)]
pub struct DnsMessage {
    pub header: DnsHeader,
    pub questions: Vec<DnsQuestion>,
    pub answers: Vec<DnsRecord>,
    pub authorities: Vec<DnsRecord>,
    pub resources: Vec<DnsRecord>,
}

/// The mathematical value of a message.
pub struct MessageV {
    pub header: DnsHeader,
    pub questions: Seq<QuestionV>,
    pub answers: Seq<RecordV>,
    pub authorities: Seq<RecordV>,
    pub resources: Seq<RecordV>,
}

/// The values of a sequence of questions.
pub open spec fn qs_view(qs: Seq<DnsQuestion>) -> Seq<QuestionV> {
    qs.map_values(|q: DnsQuestion| q@)
}

/// The values of a sequence of records.
pub open spec fn recs_view(rs: Seq<DnsRecord>) -> Seq<RecordV> {
    rs.map_values(|r: DnsRecord| r@)
}

impl View for DnsMessage {
    type V = MessageV;

    open spec fn view(&self) -> MessageV {
        MessageV {
            header: self.header,
            questions: qs_view(self.questions@),
            answers: recs_view(self.answers@),
            authorities: recs_view(self.authorities@),
            resources: recs_view(self.resources@),
        }
    }
}

/// `n` questions read one after another from `pos`.
pub open spec fn spec_read_questions(buf: Seq<u8>, pos: int, n: int) -> Result<
    (Seq<QuestionV>, int),
    DnsError,
>
    decreases n,
{
    if n <= 0 {
        Ok((Seq::empty(), pos))
    } else {
        match spec_read_question(buf, pos) {
            Ok((q, p)) => match spec_read_questions(buf, p, n - 1) {
                Ok((rest, p2)) => Ok((seq![q] + rest, p2)),
                Err(e) => Err(e),
            },
            Err(e) => Err(e),
        }
    }
}

/// `n` records read one after another from `pos`.
pub open spec fn spec_read_records(buf: Seq<u8>, pos: int, n: int) -> Result<
    (Seq<RecordV>, int),
    DnsError,
>
    decreases n,
{
    if n <= 0 {
        Ok((Seq::empty(), pos))
    } else {
        match spec_read_record(buf, pos) {
            Ok((rec, p)) => match spec_read_records(buf, p, n - 1) {
                Ok((rest, p2)) => Ok((seq![rec] + rest, p2)),
                Err(e) => Err(e),
            },
            Err(e) => Err(e),
        }
    }
}

/// A whole message read at `pos`: the header, then exactly as many questions,
/// answers, authorities and additional records as the header counts, in that
/// order.
pub open spec fn spec_read_message(buf: Seq<u8>, pos: int) -> Result<(MessageV, int), DnsError> {
    match spec_read_header(buf, pos) {
        Ok((h, p0)) => match spec_read_questions(buf, p0, h.questions as int) {
            Ok((qs, p1)) => match spec_read_records(buf, p1, h.answers as int) {
                Ok((an, p2)) => match spec_read_records(buf, p2, h.authoritative_entries as int) {
                    Ok((au, p3)) => match spec_read_records(buf, p3, h.resource_entries as int) {
                        Ok((re, p4)) => Ok(
                            (
                                MessageV {
                                    header: h,
                                    questions: qs,
                                    answers: an,
                                    authorities: au,
                                    resources: re,
                                },
                                p4,
                            ),
                        ),
                        Err(e) => Err(e),
                    },
                    Err(e) => Err(e),
                },
                Err(e) => Err(e),
            },
            Err(e) => Err(e),
        },
        Err(e) => Err(e),
    }
}

/// Reads `n` questions at the buffer's cursor.
fn read_questions(buffer: &mut PacketBuffer, n: u16) -> (r: Result<Vec<DnsQuestion>, DnsError>)
    requires
        old(buffer).wf(),
    ensures
        final(buffer).wf(),
        final(buffer).buf@ == old(buffer).buf@,
        match spec_read_questions(old(buffer).buf@, old(buffer).pos as int, n as int) {
            Ok((qs, p)) => {
                &&& r is Ok
                &&& qs_view(r->Ok_0@) == qs
                &&& final(buffer).pos == p
            },
            Err(e) => r == Err::<Vec<DnsQuestion>, DnsError>(e),
        },
{
    let ghost buf0 = buffer.buf@;
    let ghost pos0 = buffer.pos as int;
    let mut out: Vec<DnsQuestion> = Vec::new();
    let mut i: u16 = 0;
    while i < n
        invariant
            i <= n,
            buffer.wf(),
            buffer.buf@ == buf0,
            buf0 == old(buffer).buf@,
            pos0 == old(buffer).pos,
            out@.len() == i,
            spec_read_questions(buf0, pos0, n as int) == (match spec_read_questions(
                buf0,
                buffer.pos as int,
                n - i,
            ) {
                Ok((rest, p)) => Ok::<(Seq<QuestionV>, int), DnsError>(
                    (qs_view(out@) + rest, p),
                ),
                Err(e) => Err(e),
            }),
        decreases n - i,
    {
        let ghost pin = buffer.pos as int;
        let ghost out_before = out@;
        let mut question = DnsQuestion::new(String::new(), QueryType::UNKNOWN(0));
        match question.read(buffer) {
            Ok(()) => {},
            Err(e) => {
                return Err(e);
            },
        }
        out.push(question);
        proof {
            match spec_read_question(buf0, pin) {
                Ok((q, p)) => {
                    assert(Seq::<char>::empty() + q.qname =~= q.qname);
                    assert(question@ == q);
                    assert(out@.drop_last() =~= out_before);
                    assert(qs_view(out@) =~= qs_view(out_before) + seq![q]);
                    assert(spec_read_questions(buf0, pin, n - i) == (
                    match spec_read_questions(buf0, p, n - i - 1) {
                        Ok((rest2, p2)) => Ok::<(Seq<QuestionV>, int), DnsError>(
                            (seq![q] + rest2, p2),
                        ),
                        Err(e) => Err(e),
                    }));
                    match spec_read_questions(buf0, p, n - i - 1) {
                        Ok((rest2, p2)) => {
                            assert(qs_view(out_before) + (seq![q] + rest2) =~= qs_view(out@)
                                + rest2);
                        },
                        Err(_) => {},
                    }
                },
                Err(_) => {
                    assert(false);
                },
            }
        }
        i = i + 1;
    }
    proof {
        assert(qs_view(out@) + Seq::<QuestionV>::empty() =~= qs_view(out@));
    }
    Ok(out)
}

/// Reads `n` records at the buffer's cursor.
fn read_records(buffer: &mut PacketBuffer, n: u16) -> (r: Result<Vec<DnsRecord>, DnsError>)
    requires
        old(buffer).wf(),
    ensures
        final(buffer).wf(),
        final(buffer).buf@ == old(buffer).buf@,
        match spec_read_records(old(buffer).buf@, old(buffer).pos as int, n as int) {
            Ok((rs, p)) => {
                &&& r is Ok
                &&& recs_view(r->Ok_0@) == rs
                &&& final(buffer).pos == p
            },
            Err(e) => r == Err::<Vec<DnsRecord>, DnsError>(e),
        },
{
    let ghost buf0 = buffer.buf@;
    let ghost pos0 = buffer.pos as int;
    let mut out: Vec<DnsRecord> = Vec::new();
    let mut i: u16 = 0;
    while i < n
        invariant
            i <= n,
            buffer.wf(),
            buffer.buf@ == buf0,
            buf0 == old(buffer).buf@,
            pos0 == old(buffer).pos,
            out@.len() == i,
            spec_read_records(buf0, pos0, n as int) == (match spec_read_records(
                buf0,
                buffer.pos as int,
                n - i,
            ) {
                Ok((rest, p)) => Ok::<(Seq<RecordV>, int), DnsError>(
                    (recs_view(out@) + rest, p),
                ),
                Err(e) => Err(e),
            }),
        decreases n - i,
    {
        let ghost pin = buffer.pos as int;
        let ghost out_before = out@;
        let rec = match DnsRecord::read(buffer) {
            Ok(rec) => rec,
            Err(e) => {
                return Err(e);
            },
        };
        out.push(rec);
        proof {
            match spec_read_record(buf0, pin) {
                Ok((rv, p)) => {
                    assert(rec@ == rv);
                    assert(out@.drop_last() =~= out_before);
                    assert(recs_view(out@) =~= recs_view(out_before) + seq![rv]);
                    assert(spec_read_records(buf0, pin, n - i) == (
                    match spec_read_records(buf0, p, n - i - 1) {
                        Ok((rest2, p2)) => Ok::<(Seq<RecordV>, int), DnsError>(
                            (seq![rv] + rest2, p2),
                        ),
                        Err(e) => Err(e),
                    }));
                    match spec_read_records(buf0, p, n - i - 1) {
                        Ok((rest2, p2)) => {
                            assert(recs_view(out_before) + (seq![rv] + rest2) =~= recs_view(out@)
                                + rest2);
                        },
                        Err(_) => {},
                    }
                },
                Err(_) => {
                    assert(false);
                },
            }
        }
        i = i + 1;
    }
    proof {
        assert(recs_view(out@) + Seq::<RecordV>::empty() =~= recs_view(out@));
    }
    Ok(out)
}

impl DnsMessage {
    /// An empty message: a zeroed header and four empty sections.
    pub fn new() -> (r: Self)
        ensures
            r@.header == header_new(),
            r@.questions == Seq::<QuestionV>::empty(),
            r@.answers == Seq::<RecordV>::empty(),
            r@.authorities == Seq::<RecordV>::empty(),
            r@.resources == Seq::<RecordV>::empty(),
            r.header.wf(),
    {
        let r = Self {
            header: DnsHeader::new(),
            questions: Vec::new(),
            answers: Vec::new(),
            authorities: Vec::new(),
            resources: Vec::new(),
        };
        proof {
            assert(qs_view(r.questions@) =~= Seq::<QuestionV>::empty());
            assert(recs_view(r.answers@) =~= Seq::<RecordV>::empty());
            assert(recs_view(r.authorities@) =~= Seq::<RecordV>::empty());
            assert(recs_view(r.resources@) =~= Seq::<RecordV>::empty());
        }
        r
    }

    /// Encodes the whole message into a fresh buffer: the four header counts
    /// are overwritten from the section lengths, then the header and the
    /// sections are emitted in order. Each written record's `data_len` is
    /// patched to the octets its body emitted. Fails when a label is over 63
    /// octets or the datagram would pass 512 octets.
    pub fn into_buf(&mut self) -> (r: Result<PacketBuffer, DnsError>)
        requires
            old(self).header.wf(),
        ensures
            match spec_write_message(old(self)@) {
                Ok((b, p, mv)) => {
                    &&& r is Ok
                    &&& r->Ok_0.wf()
                    &&& r->Ok_0.buf@ == b
                    &&& r->Ok_0.pos == p
                    &&& final(self)@ == mv
                },
                Err(e) => r == Err::<PacketBuffer, DnsError>(e),
            },
    {
        self.header.questions = #[verifier::truncate] (self.questions.len() as u16);
        self.header.answers = #[verifier::truncate] (self.answers.len() as u16);
        self.header.authoritative_entries = #[verifier::truncate] (self.authorities.len() as u16);
        self.header.resource_entries = #[verifier::truncate] (self.resources.len() as u16);

        let ghost h = self.header;
        let mut buffer = PacketBuffer::new();
        proof {
            assert(buffer.buf@ =~= zero_buf());
        }
        self.header.write(&mut buffer)?;
        write_questions(&self.questions, &mut buffer)?;
        write_records(&mut self.answers, &mut buffer)?;
        write_records(&mut self.authorities, &mut buffer)?;
        write_records(&mut self.resources, &mut buffer)?;
        Ok(buffer)
    }

    /// Decodes a whole message at the buffer's cursor: the header, then each
    /// section with exactly the entry count the header declares. A buffer too
    /// short for those counts fails with the bounds error.
    pub fn from_buf(buffer: &mut PacketBuffer) -> (r: Result<DnsMessage, DnsError>)
        requires
            old(buffer).wf(),
        ensures
            final(buffer).wf(),
            final(buffer).buf@ == old(buffer).buf@,
            match spec_read_message(old(buffer).buf@, old(buffer).pos as int) {
                Ok((m, p)) => {
                    &&& r is Ok
                    &&& r->Ok_0@ == m
                    &&& final(buffer).pos == p
                },
                Err(e) => r == Err::<DnsMessage, DnsError>(e),
            },
            r is Ok ==> r->Ok_0@.questions.len() == r->Ok_0@.header.questions
                && r->Ok_0@.answers.len() == r->Ok_0@.header.answers
                && r->Ok_0@.authorities.len() == r->Ok_0@.header.authoritative_entries
                && r->Ok_0@.resources.len() == r->Ok_0@.header.resource_entries,
    {
        let mut result = DnsMessage::new();
        result.header.read(buffer)?;

        let questions = read_questions(buffer, result.header.questions)?;
        result.questions = questions;

        let answers = read_records(buffer, result.header.answers)?;
        result.answers = answers;

        let authorities = read_records(buffer, result.header.authoritative_entries)?;
        result.authorities = authorities;

        let resources = read_records(buffer, result.header.resource_entries)?;
        result.resources = resources;

        proof {
            lemma_decode_preserves_counts(old(buffer).buf@, old(buffer).pos as int);
        }
        Ok(result)
    }
}

/// `n` reads produce exactly `n` entries.
proof fn lemma_read_sections_len(buf: Seq<u8>, pos: int, n: int)
    ensures
        spec_read_questions(buf, pos, n) matches Ok((qs, _)) ==> qs.len() == (if n >= 0 {
            n
        } else {
            0
        }),
        spec_read_records(buf, pos, n) matches Ok((rs, _)) ==> rs.len() == (if n >= 0 {
            n
        } else {
            0
        }),
    decreases n,
{
    if n > 0 {
        match spec_read_question(buf, pos) {
            Ok((q, p)) => {
                lemma_read_sections_len(buf, p, n - 1);
            },
            Err(_) => {},
        }
        match spec_read_record(buf, pos) {
            Ok((rec, p)) => {
                lemma_read_sections_len(buf, p, n - 1);
            },
            Err(_) => {},
        }
    }
}

/// Decoding preserves every section's declared length: in any message a
/// decode yields, each section holds exactly as many entries as the header
/// count that was read for it.
pub proof fn lemma_decode_preserves_counts(buf: Seq<u8>, pos: int)
    ensures
        spec_read_message(buf, pos) matches Ok((m, _)) ==> {
            &&& m.questions.len() == m.header.questions
            &&& m.answers.len() == m.header.answers
            &&& m.authorities.len() == m.header.authoritative_entries
            &&& m.resources.len() == m.header.resource_entries
        },
{
    match spec_read_header(buf, pos) {
        Ok((h, p0)) => {
            lemma_read_sections_len(buf, p0, h.questions as int);
            match spec_read_questions(buf, p0, h.questions as int) {
                Ok((qs, p1)) => {
                    lemma_read_sections_len(buf, p1, h.answers as int);
                    match spec_read_records(buf, p1, h.answers as int) {
                        Ok((an, p2)) => {
                            lemma_read_sections_len(buf, p2, h.authoritative_entries as int);
                            match spec_read_records(buf, p2, h.authoritative_entries as int) {
                                Ok((au, p3)) => {
                                    lemma_read_sections_len(buf, p3, h.resource_entries as int);
                                },
                                Err(_) => {},
                            }
                        },
                        Err(_) => {},
                    }
                },
                Err(_) => {},
            }
        },
        Err(_) => {},
    }
}

/// The all-zero datagram buffer an encode starts from.
pub open spec fn zero_buf() -> Seq<u8> {
    Seq::new(512, |i: int| 0u8)
}

/// The questions of `qs` written one after another from `pos`.
pub open spec fn spec_write_questions(qs: Seq<QuestionV>, buf: Seq<u8>, pos: int) -> Result<
    (Seq<u8>, int),
    DnsError,
>
    decreases qs.len(),
{
    if qs.len() == 0 {
        Ok((buf, pos))
    } else {
        match spec_write_question(qs[0], buf, pos) {
            Ok((b, p)) => spec_write_questions(qs.drop_first(), b, p),
            Err(e) => Err(e),
        }
    }
}

/// The records of `rs` written one after another from `pos`; the third
/// component carries the records with their patched data lengths.
pub open spec fn spec_write_records(rs: Seq<RecordV>, buf: Seq<u8>, pos: int) -> Result<
    (Seq<u8>, int, Seq<RecordV>),
    DnsError,
>
    decreases rs.len(),
{
    if rs.len() == 0 {
        Ok((buf, pos, Seq::empty()))
    } else {
        match spec_write_record(rs[0], buf, pos) {
            Ok((b, p, dl)) => match spec_write_records(rs.drop_first(), b, p) {
                Ok((b2, p2, rest)) => Ok(
                    (b2, p2, seq![RecordV { data_len: dl, ..rs[0] }] + rest),
                ),
                Err(e) => Err(e),
            },
            Err(e) => Err(e),
        }
    }
}

/// A whole message encoded into a fresh zeroed buffer: the header counts are
/// first overwritten from the section lengths, then the header and the four
/// sections are emitted in order. The third component is the message as it
/// stands after the encode: counts rewritten and record data lengths patched.
pub open spec fn spec_write_message(m: MessageV) -> Result<(Seq<u8>, int, MessageV), DnsError> {
    let h = DnsHeader {
        questions: m.questions.len() as u16,
        answers: m.answers.len() as u16,
        authoritative_entries: m.authorities.len() as u16,
        resource_entries: m.resources.len() as u16,
        ..m.header
    };
    match spec_write_header(h, zero_buf(), 0) {
        Ok((b0, p0)) => match spec_write_questions(m.questions, b0, p0) {
            Ok((b1, p1)) => match spec_write_records(m.answers, b1, p1) {
                Ok((b2, p2, an)) => match spec_write_records(m.authorities, b2, p2) {
                    Ok((b3, p3, au)) => match spec_write_records(m.resources, b3, p3) {
                        Ok((b4, p4, re)) => Ok(
                            (
                                b4,
                                p4,
                                MessageV {
                                    header: h,
                                    questions: m.questions,
                                    answers: an,
                                    authorities: au,
                                    resources: re,
                                },
                            ),
                        ),
                        Err(e) => Err(e),
                    },
                    Err(e) => Err(e),
                },
                Err(e) => Err(e),
            },
            Err(e) => Err(e),
        },
        Err(e) => Err(e),
    }
}

/// Writes every question of `questions` at the buffer's cursor.
fn write_questions(questions: &Vec<DnsQuestion>, buffer: &mut PacketBuffer) -> (r: Result<
    (),
    DnsError,
>)
    requires
        old(buffer).wf(),
    ensures
        final(buffer).wf(),
        match spec_write_questions(qs_view(questions@), old(buffer).buf@, old(buffer).pos as int) {
            Ok((b, p)) => {
                &&& r == Ok::<(), DnsError>(())
                &&& final(buffer).buf@ == b
                &&& final(buffer).pos == p
            },
            Err(e) => r == Err::<(), DnsError>(e),
        },
{
    let ghost b0 = buffer.buf@;
    let ghost p0 = buffer.pos as int;
    let n = questions.len();
    proof {
        assert(qs_view(questions@).skip(0) =~= qs_view(questions@));
    }
    let mut i: usize = 0;
    while i < n
        invariant
            i <= n,
            n == questions@.len(),
            buffer.wf(),
            b0 == old(buffer).buf@,
            p0 == old(buffer).pos,
            spec_write_questions(qs_view(questions@), b0, p0) == spec_write_questions(
                qs_view(questions@).skip(i as int),
                buffer.buf@,
                buffer.pos as int,
            ),
        decreases n - i,
    {
        let ghost pin = buffer.pos as int;
        let ghost bin = buffer.buf@;
        match questions[i].write(buffer) {
            Ok(()) => {},
            Err(e) => {
                return Err(e);
            },
        }
        proof {
            assert(qs_view(questions@).skip(i as int)[0] == questions@[i as int]@);
            assert(qs_view(questions@).skip(i as int).drop_first() =~= qs_view(questions@).skip(
                i + 1,
            ));
        }
        i = i + 1;
    }
    proof {
        assert(qs_view(questions@).skip(n as int) =~= Seq::<QuestionV>::empty());
    }
    Ok(())
}

/// Shifting the updated element out of the pending suffix and onto the done
/// prefix keeps the record views aligned.
proof fn lemma_view_shift(before: Seq<DnsRecord>, after: Seq<DnsRecord>, i: int)
    requires
        0 <= i < before.len(),
        after.len() == before.len(),
        forall|k: int| 0 <= k < before.len() && k != i ==> after[k] == before[k],
    ensures
        recs_view(before.skip(i)).drop_first() == recs_view(after.skip(i + 1)),
        recs_view(after.take(i + 1)) == recs_view(before.take(i)) + seq![after[i]@],
        recs_view(before.skip(i))[0] == before[i]@,
        recs_view(after.take(i)) == recs_view(before.take(i)),
{
    assert(recs_view(before.skip(i)).drop_first() =~= recs_view(after.skip(i + 1)));
    assert(recs_view(after.take(i + 1)) =~= recs_view(before.take(i)) + seq![after[i]@]);
    assert(recs_view(after.take(i)) =~= recs_view(before.take(i)));
}

/// Concatenation of record views associates over a pushed element.
proof fn lemma_prefix_assoc(a: Seq<RecordV>, x: RecordV, b: Seq<RecordV>)
    ensures
        a + (seq![x] + b) == (a + seq![x]) + b,
{
    assert(a + (seq![x] + b) =~= (a + seq![x]) + b);
}

/// One record written out of the pending suffix moves, with its patched
/// length, onto the done prefix without disturbing the overall encode.
#[verifier::spinoff_prover]
proof fn lemma_write_records_step(
    rv0: Seq<RecordV>,
    b0: Seq<u8>,
    p0: int,
    rs_before: Seq<DnsRecord>,
    rs_after: Seq<DnsRecord>,
    i: int,
    bin: Seq<u8>,
    pin: int,
    bout: Seq<u8>,
    pout: int,
    dl: u16,
)
    requires
        0 <= i < rs_before.len(),
        rs_after.len() == rs_before.len(),
        forall|k: int| 0 <= k < rs_before.len() && k != i ==> rs_after[k] == rs_before[k],
        spec_write_record(rs_before[i]@, bin, pin) == Ok::<(Seq<u8>, int, u16), DnsError>(
            (bout, pout, dl),
        ),
        rs_after[i]@ == (RecordV { data_len: dl, ..rs_before[i]@ }),
        spec_write_records(rv0, b0, p0) == (match spec_write_records(
            recs_view(rs_before.skip(i)),
            bin,
            pin,
        ) {
            Ok((b, p, rest)) => Ok::<(Seq<u8>, int, Seq<RecordV>), DnsError>(
                (b, p, recs_view(rs_before.take(i)) + rest),
            ),
            Err(e) => Err(e),
        }),
    ensures
        spec_write_records(rv0, b0, p0) == (match spec_write_records(
            recs_view(rs_after.skip(i + 1)),
            bout,
            pout,
        ) {
            Ok((b, p, rest)) => Ok::<(Seq<u8>, int, Seq<RecordV>), DnsError>(
                (b, p, recs_view(rs_after.take(i + 1)) + rest),
            ),
            Err(e) => Err(e),
        }),
{
    lemma_view_shift(rs_before, rs_after, i);
    assert(recs_view(rs_before.skip(i)).len() > 0);
    match spec_write_records(recs_view(rs_after.skip(i + 1)), bout, pout) {
        Ok((b, p, rest)) => {
            lemma_prefix_assoc(recs_view(rs_before.take(i)), rs_after[i]@, rest);
            assert(recs_view(rs_after.take(i + 1)) + rest =~= recs_view(rs_before.take(i)) + (seq![
                rs_after[i]@,
            ] + rest));
        },
        Err(_) => {},
    }
}

/// Writes every record of `records` at the buffer's cursor, patching each
/// record's data length as it goes.
#[verifier::rlimit(100)]
#[verifier::spinoff_prover]
fn write_records(records: &mut Vec<DnsRecord>, buffer: &mut PacketBuffer) -> (r: Result<
    (),
    DnsError,
>)
    requires
        old(buffer).wf(),
    ensures
        final(buffer).wf(),
        final(records)@.len() == old(records)@.len(),
        match spec_write_records(
            recs_view(old(records)@),
            old(buffer).buf@,
            old(buffer).pos as int,
        ) {
            Ok((b, p, rvs)) => {
                &&& r == Ok::<(), DnsError>(())
                &&& final(buffer).buf@ == b
                &&& final(buffer).pos == p
                &&& recs_view(final(records)@) == rvs
            },
            Err(e) => r == Err::<(), DnsError>(e),
        },
{
    let ghost b0 = buffer.buf@;
    let ghost p0 = buffer.pos as int;
    let ghost rv0 = recs_view(records@);
    let n = records.len();
    proof {
        assert(recs_view(records@.skip(0)) =~= rv0);
        assert(recs_view(records@.take(0)) =~= Seq::<RecordV>::empty());
        match spec_write_records(rv0, b0, p0) {
            Ok((b, p, rest)) => {
                assert(Seq::<RecordV>::empty() + rest =~= rest);
            },
            Err(_) => {},
        }
    }
    let mut i: usize = 0;
    while i < n
        invariant
            i <= n,
            n == records@.len(),
            records@.len() == old(records)@.len(),
            buffer.wf(),
            b0 == old(buffer).buf@,
            p0 == old(buffer).pos,
            rv0 == recs_view(old(records)@),
            forall|k: int| i <= k < n ==> records@[k] == old(records)@[k],
            spec_write_records(rv0, b0, p0) == (match spec_write_records(
                recs_view(records@.skip(i as int)),
                buffer.buf@,
                buffer.pos as int,
            ) {
                Ok((b, p, rest)) => Ok::<(Seq<u8>, int, Seq<RecordV>), DnsError>(
                    (b, p, recs_view(records@.take(i as int)) + rest),
                ),
                Err(e) => Err(e),
            }),
        decreases n - i,
    {
        let ghost recs_before = records@;
        let ghost bin = buffer.buf@;
        let ghost pin = buffer.pos as int;
        proof {
            assert(recs_view(recs_before.skip(i as int))[0] == recs_before[i as int]@);
        }
        match records[i].write(buffer) {
            Ok(_) => {},
            Err(e) => {
                return Err(e);
            },
        }
        proof {
            match spec_write_record(recs_before[i as int]@, bin, pin) {
                Ok((bo, po, dl)) => {
                    assert(records@[i as int]@ == (RecordV {
                        data_len: dl,
                        ..recs_before[i as int]@
                    }));
                    lemma_write_records_step(
                        rv0,
                        b0,
                        p0,
                        recs_before,
                        records@,
                        i as int,
                        bin,
                        pin,
                        buffer.buf@,
                        buffer.pos as int,
                        dl,
                    );
                },
                Err(_) => {
                    assert(false);
                },
            }
        }
        i = i + 1;
    }
    proof {
        assert(recs_view(records@.skip(n as int)) =~= Seq::<RecordV>::empty());
        assert(recs_view(records@.take(n as int)) =~= recs_view(records@));
        assert(recs_view(records@.take(n as int)) + Seq::<RecordV>::empty() =~= recs_view(
            records@,
        ));
    }
    Ok(())
}

/// Whether `suffix` ends `s`.
pub open spec fn ends_with(s: Seq<char>, suffix: Seq<char>) -> bool {
    suffix.len() <= s.len() && s.subrange(s.len() - suffix.len(), s.len() as int) == suffix
}

/// Whether two strings hold the same characters.
pub fn str_eq(a: &str, b: &str) -> (r: bool)
    ensures
        r == (a@ == b@),
{
    let n = a.unicode_len();
    let m = b.unicode_len();
    if n != m {
        return false;
    }
    let mut j: usize = 0;
    while j < n
        invariant
            j <= n,
            n == a@.len(),
            n == b@.len(),
            forall|k: int| 0 <= k < j ==> a@[k] == b@[k],
        decreases n - j,
    {
        if a.get_char(j) != b.get_char(j) {
            return false;
        }
        j = j + 1;
    }
    proof {
        assert(a@ =~= b@);
    }
    true
}

/// Whether a string ends with another, character for character.
pub fn str_ends_with(s: &str, suffix: &str) -> (r: bool)
    ensures
        r == ends_with(s@, suffix@),
{
    let n = s.unicode_len();
    let m = suffix.unicode_len();
    if m > n {
        proof {
            assert(!ends_with(s@, suffix@));
        }
        return false;
    }
    let mut j: usize = 0;
    while j < m
        invariant
            j <= m,
            m <= n,
            n == s@.len(),
            m == suffix@.len(),
            forall|k: int| 0 <= k < j ==> s@[n - m + k] == suffix@[k],
        decreases m - j,
    {
        let a = s.get_char(n - m + j);
        let b = suffix.get_char(j);
        if a != b {
            proof {
                assert(s@.subrange(n - m, n as int)[j as int] != suffix@[j as int]);
            }
            return false;
        }
        j = j + 1;
    }
    proof {
        assert(s@.subrange(n - m, n as int) =~= suffix@);
    }
    true
}

/// The first IPv4 address among `rs`, in wire order.
pub open spec fn first_a(rs: Seq<RecordV>) -> Option<u32>
    decreases rs.len(),
{
    if rs.len() == 0 {
        None
    } else {
        match rs[0].data {
            RecordDataV::A { addr } => Some(addr),
            _ => first_a(rs.drop_first()),
        }
    }
}

/// Whether `rec` is a name-server record whose zone is a suffix of `qname`.
pub open spec fn ns_matches(rec: RecordV, qname: Seq<char>) -> bool {
    rec.data is NS && ends_with(qname, rec.domain)
}

/// The host of the first name-server record in `auths` whose zone covers
/// `qname`.
pub open spec fn first_ns_host(auths: Seq<RecordV>, qname: Seq<char>) -> Option<Seq<char>>
    decreases auths.len(),
{
    if auths.len() == 0 {
        None
    } else if ns_matches(auths[0], qname) {
        Some(auths[0].data->NS_host)
    } else {
        first_ns_host(auths.drop_first(), qname)
    }
}

/// The first IPv4 address among `res` whose owner name is `host`.
pub open spec fn first_glue(res: Seq<RecordV>, host: Seq<char>) -> Option<u32>
    decreases res.len(),
{
    if res.len() == 0 {
        None
    } else {
        match res[0].data {
            RecordDataV::A { addr } => if res[0].domain == host {
                Some(addr)
            } else {
                first_glue(res.drop_first(), host)
            },
            _ => first_glue(res.drop_first(), host),
        }
    }
}

/// The glue address of the first covering name server that has one: walking
/// the authorities in wire order, the first matching name server whose host
/// owns an IPv4 record in `res`.
pub open spec fn resolved_ns(auths: Seq<RecordV>, res: Seq<RecordV>, qname: Seq<char>) -> Option<
    u32,
>
    decreases auths.len(),
{
    if auths.len() == 0 {
        None
    } else if ns_matches(auths[0], qname) {
        match first_glue(res, auths[0].data->NS_host) {
            Some(addr) => Some(addr),
            None => resolved_ns(auths.drop_first(), res, qname),
        }
    } else {
        resolved_ns(auths.drop_first(), res, qname)
    }
}

impl DnsMessage {
    /// The first IPv4 answer's address, if any answer carries one.
    pub fn random_ipv4(&self) -> (r: Option<u32>)
        ensures
            r == first_a(self@.answers),
    {
        let n = self.answers.len();
        proof {
            assert(self@.answers.skip(0) =~= self@.answers);
        }
        let mut i: usize = 0;
        while i < n
            invariant
                i <= n,
                n == self.answers@.len(),
                first_a(self@.answers) == first_a(self@.answers.skip(i as int)),
            decreases n - i,
        {
            let ghost pre = self@.answers.skip(i as int);
            match &self.answers[i].data {
                RecordData::A { addr } => {
                    return Some(*addr);
                },
                _ => {},
            }
            proof {
                assert(pre.drop_first() =~= self@.answers.skip(i + 1));
            }
            i = i + 1;
        }
        proof {
            assert(self@.answers.skip(n as int) =~= Seq::<RecordV>::empty());
        }
        None
    }

    /// The IPv4 glue address of the first name server covering `qname` whose
    /// host has a glue record in the additionals section.
    pub fn get_resolved_ns(&self, qname: &str) -> (r: Option<u32>)
        ensures
            r == resolved_ns(self@.authorities, self@.resources, qname@),
    {
        let n = self.authorities.len();
        proof {
            assert(self@.authorities.skip(0) =~= self@.authorities);
        }
        let mut i: usize = 0;
        while i < n
            invariant
                i <= n,
                n == self.authorities@.len(),
                resolved_ns(self@.authorities, self@.resources, qname@) == resolved_ns(
                    self@.authorities.skip(i as int),
                    self@.resources,
                    qname@,
                ),
            decreases n - i,
        {
            let ghost pre = self@.authorities.skip(i as int);
            match &self.authorities[i].data {
                RecordData::NS { host } => {
                    if str_ends_with(qname, self.authorities[i].domain.as_str()) {
                        match self.first_glue_of(host.as_str()) {
                            Some(addr) => {
                                return Some(addr);
                            },
                            None => {},
                        }
                    }
                },
                _ => {},
            }
            proof {
                assert(pre.drop_first() =~= self@.authorities.skip(i + 1));
            }
            i = i + 1;
        }
        proof {
            assert(self@.authorities.skip(n as int) =~= Seq::<RecordV>::empty());
        }
        None
    }

    /// The first IPv4 record in the additionals section owned by `host`.
    fn first_glue_of(&self, host: &str) -> (r: Option<u32>)
        ensures
            r == first_glue(self@.resources, host@),
    {
        let n = self.resources.len();
        proof {
            assert(self@.resources.skip(0) =~= self@.resources);
        }
        let mut i: usize = 0;
        while i < n
            invariant
                i <= n,
                n == self.resources@.len(),
                first_glue(self@.resources, host@) == first_glue(
                    self@.resources.skip(i as int),
                    host@,
                ),
            decreases n - i,
        {
            let ghost pre = self@.resources.skip(i as int);
            match &self.resources[i].data {
                RecordData::A { addr } => {
                    if str_eq(self.resources[i].domain.as_str(), host) {
                        return Some(*addr);
                    }
                },
                _ => {},
            }
            proof {
                assert(pre.drop_first() =~= self@.resources.skip(i + 1));
            }
            i = i + 1;
        }
        proof {
            assert(self@.resources.skip(n as int) =~= Seq::<RecordV>::empty());
        }
        None
    }

    /// The host of the first name-server record covering `qname`, whether or
    /// not it has glue.
    pub fn get_unresolved_ns<'a>(&'a self, qname: &str) -> (r: Option<&'a str>)
        ensures
            match first_ns_host(self@.authorities, qname@) {
                Some(h) => r is Some && r->0@ == h,
                None => r is None,
            },
    {
        let n = self.authorities.len();
        proof {
            assert(self@.authorities.skip(0) =~= self@.authorities);
        }
        let mut i: usize = 0;
        while i < n
            invariant
                i <= n,
                n == self.authorities@.len(),
                first_ns_host(self@.authorities, qname@) == first_ns_host(
                    self@.authorities.skip(i as int),
                    qname@,
                ),
            decreases n - i,
        {
            let ghost pre = self@.authorities.skip(i as int);
            match &self.authorities[i].data {
                RecordData::NS { host } => {
                    if str_ends_with(qname, self.authorities[i].domain.as_str()) {
                        return Some(host.as_str());
                    }
                },
                _ => {},
            }
            proof {
                assert(pre.drop_first() =~= self@.authorities.skip(i + 1));
            }
            i = i + 1;
        }
        proof {
            assert(self@.authorities.skip(n as int) =~= Seq::<RecordV>::empty());
        }
        None
    }
}

} // verus!
