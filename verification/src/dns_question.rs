//! One entry of a message's question section: a name, a query type and a
//! class.

use vstd::prelude::*;

use crate::dns_message::{qtype_num, qtype_of, QueryType};
use crate::errors::DnsError;
use crate::packet_buffer::{
    qname_decode, spec_read_u16, spec_write_qname, spec_write_u16_at, PacketBuffer, QnameRes,
};

verus! {

/// A question as it stands in a message. The class is 1 (`IN`) on every
/// question this system builds, and whatever the wire carried on decode.
#[derive(Clone, Debug)]
pub struct DnsQuestion {
    pub qname: String,
    pub qtype: QueryType,
    pub qclass: u16,
}

/// The mathematical value of a question: its name's characters, its type and
/// its class.
pub struct QuestionV {
    pub qname: Seq<char>,
    pub qtype: QueryType,
    pub qclass: u16,
}

impl View for DnsQuestion {
    type V = QuestionV;

    open spec fn view(&self) -> QuestionV {
        QuestionV { qname: self.qname@, qtype: self.qtype, qclass: self.qclass }
    }
}

/// The question whose bytes start at `pos`: a compressed name, then the type
/// and class words.
pub open spec fn spec_read_question(buf: Seq<u8>, pos: int) -> Result<(QuestionV, int), DnsError> {
    match qname_decode(buf, pos, 0) {
        QnameRes::Done { name, end } => match spec_read_u16(buf, end) {
            Ok((t, p1)) => match spec_read_u16(buf, p1) {
                Ok((c, p2)) => Ok((QuestionV { qname: name, qtype: qtype_of(t), qclass: c }, p2)),
                Err(e) => Err(e),
            },
            Err(e) => Err(e),
        },
        QnameRes::TooManyJumps => Err(DnsError::JumpLimitExceeded),
        QnameRes::OutOfBounds => Err(DnsError::OutOfBounds),
    }
}

/// Writing a question at `pos`: the uncompressed name, then the type and
/// class words.
pub open spec fn spec_write_question(q: QuestionV, buf: Seq<u8>, pos: int) -> Result<
    (Seq<u8>, int),
    DnsError,
> {
    match spec_write_qname(vstd::utf8::encode_utf8(q.qname), buf, pos) {
        Ok((b1, p1)) => match spec_write_u16_at(b1, p1, qtype_num(q.qtype)) {
            Ok((b2, p2)) => spec_write_u16_at(b2, p2, q.qclass),
            Err(e) => Err(e),
        },
        Err(e) => Err(e),
    }
}

impl DnsQuestion {
    /// A question for `qname` of type `qtype`, in the `IN` class.
    pub fn new(qname: String, qtype: QueryType) -> (r: Self)
        ensures
            r@.qname == qname@,
            r@.qtype == qtype,
            r@.qclass == 1,
    {
        Self { qname, qtype, qclass: 1 }
    }

    /// Reads a question at the buffer's cursor into `self`; the decoded name
    /// is appended to the name already held.
    pub fn read(&mut self, buffer: &mut PacketBuffer) -> (r: Result<(), DnsError>)
        requires
            old(buffer).wf(),
        ensures
            final(buffer).wf(),
            final(buffer).buf@ == old(buffer).buf@,
            match spec_read_question(old(buffer).buf@, old(buffer).pos as int) {
                Ok((q, p)) => {
                    &&& r == Ok::<(), DnsError>(())
                    &&& final(self).qname@ == old(self).qname@ + q.qname
                    &&& final(self).qtype == q.qtype
                    &&& final(self).qclass == q.qclass
                    &&& final(buffer).pos == p
                },
                Err(e) => r == Err::<(), DnsError>(e),
            },
    {
        buffer.read_qname(&mut self.qname)?;
        self.qtype = buffer.read_u16()?.into();
        self.qclass = buffer.read_u16()?;
        Ok(())
    }

    /// Writes this question at the buffer's cursor.
    pub fn write(&self, buffer: &mut PacketBuffer) -> (r: Result<(), DnsError>)
        requires
            old(buffer).wf(),
        ensures
            final(buffer).wf(),
            match spec_write_question(self@, old(buffer).buf@, old(buffer).pos as int) {
                Ok((b, p)) => {
                    &&& r == Ok::<(), DnsError>(())
                    &&& final(buffer).buf@ == b
                    &&& final(buffer).pos == p
                },
                Err(e) => r == Err::<(), DnsError>(e),
            },
    {
        buffer.write_qname(self.qname.as_str())?;
        buffer.write_u16(self.qtype.to_num())?;
        buffer.write_u16(self.qclass)?;
        Ok(())
    }
}

} // verus!
