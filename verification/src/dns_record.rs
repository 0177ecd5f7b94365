//! One resource record: shared header fields and a tag-dispatched data body.
//! The modelled bodies are A, NS, CNAME, MX and AAAA; anything else is
//! skipped by its declared length and kept as `UNKNOWN`.

use vstd::prelude::*;

use crate::dns_message::{qtype_num, qtype_of, QueryType};
use crate::errors::DnsError;
use crate::packet_buffer::{
    lemma_write_qname_range, qname_decode, spec_read_u16, spec_read_u32, spec_write_qname,
    spec_write_u16_at, spec_write_u32_at, PacketBuffer, QnameRes,
};

verus! {

/// A record's data body.
#[derive(Clone, Debug)]
pub enum RecordData {
    UNKNOWN,
    A { addr: u32 },
    NS { host: String },
    CNAME { host: String },
    MX { priority: u16, host: String },
    AAAA { addr: [u16; 8] },
}

/// The mathematical value of a record's data body. An IPv4 address is its
/// 32-bit network-order value; an IPv6 address its eight network-order
/// hextets.
pub enum RecordDataV {
    UNKNOWN,
    A { addr: u32 },
    NS { host: Seq<char> },
    CNAME { host: Seq<char> },
    MX { priority: u16, host: Seq<char> },
    AAAA { addr: Seq<u16> },
}

impl View for RecordData {
    type V = RecordDataV;

    open spec fn view(&self) -> RecordDataV {
        match self {
            RecordData::UNKNOWN => RecordDataV::UNKNOWN,
            RecordData::A { addr } => RecordDataV::A { addr: *addr },
            RecordData::NS { host } => RecordDataV::NS { host: host@ },
            RecordData::CNAME { host } => RecordDataV::CNAME { host: host@ },
            RecordData::MX { priority, host } => RecordDataV::MX {
                priority: *priority,
                host: host@,
            },
            RecordData::AAAA { addr } => RecordDataV::AAAA { addr: addr@ },
        }
    }
}

impl RecordData {
    /// The empty body.
    pub fn new() -> (r: Self)
        ensures
            r@ == RecordDataV::UNKNOWN,
    {
        Self::UNKNOWN
    }

    /// An IPv4 body from its raw 32-bit value.
    pub fn read_ipv4(raw_addr: u32) -> (r: RecordData)
        ensures
            r@ == (RecordDataV::A { addr: raw_addr }),
    {
        RecordData::A { addr: raw_addr }
    }

    /// An IPv6 body from its eight raw hextets.
    pub fn read_ipv6(raw_addr: [u16; 8]) -> (r: RecordData)
        ensures
            r@ == (RecordDataV::AAAA { addr: raw_addr@ }),
    {
        RecordData::AAAA { addr: raw_addr }
    }

    /// A name-server body.
    pub fn read_ns(host: String) -> (r: RecordData)
        ensures
            r@ == (RecordDataV::NS { host: host@ }),
    {
        RecordData::NS { host }
    }

    /// A canonical-name body.
    pub fn read_cname(host: String) -> (r: RecordData)
        ensures
            r@ == (RecordDataV::CNAME { host: host@ }),
    {
        RecordData::CNAME { host }
    }

    /// A mail-exchanger body.
    pub fn read_mx(priority: u16, host: String) -> (r: RecordData)
        ensures
            r@ == (RecordDataV::MX { priority, host: host@ }),
    {
        RecordData::MX { priority, host }
    }
}

/// A resource record: its owner name, type, class, time to live, declared
/// data length and data body. On write `data_len` is recomputed from the
/// octets the body actually emits and patched into place.
#[derive(Clone, Debug)]
pub struct DnsRecord {
    pub domain: String,
    pub qtype: QueryType,
    pub class: u16,
    pub ttl: u32,
    pub data_len: u16,
    pub data: RecordData,
}

/// The mathematical value of a record.
pub struct RecordV {
    pub domain: Seq<char>,
    pub qtype: QueryType,
    pub class: u16,
    pub ttl: u32,
    pub data_len: u16,
    pub data: RecordDataV,
}

impl View for DnsRecord {
    type V = RecordV;

    open spec fn view(&self) -> RecordV {
        RecordV {
            domain: self.domain@,
            qtype: self.qtype,
            class: self.class,
            ttl: self.ttl,
            data_len: self.data_len,
            data: self.data@,
        }
    }
}

/// The data body of type `t` with declared length `dl`, read at `pos`.
pub open spec fn spec_read_data(buf: Seq<u8>, pos: int, t: QueryType, dl: u16) -> Result<
    (RecordDataV, int),
    DnsError,
> {
    match t {
        QueryType::A => match spec_read_u32(buf, pos) {
            Ok((v, p)) => Ok((RecordDataV::A { addr: v }, p)),
            Err(e) => Err(e),
        },
        QueryType::NS => match qname_decode(buf, pos, 0) {
            QnameRes::Done { name, end } => Ok((RecordDataV::NS { host: name }, end)),
            QnameRes::TooManyJumps => Err(DnsError::JumpLimitExceeded),
            QnameRes::OutOfBounds => Err(DnsError::OutOfBounds),
        },
        QueryType::CNAME => match qname_decode(buf, pos, 0) {
            QnameRes::Done { name, end } => Ok((RecordDataV::CNAME { host: name }, end)),
            QnameRes::TooManyJumps => Err(DnsError::JumpLimitExceeded),
            QnameRes::OutOfBounds => Err(DnsError::OutOfBounds),
        },
        QueryType::MX => match spec_read_u16(buf, pos) {
            Ok((prio, p1)) => match qname_decode(buf, p1, 0) {
                QnameRes::Done { name, end } => Ok(
                    (RecordDataV::MX { priority: prio, host: name }, end),
                ),
                QnameRes::TooManyJumps => Err(DnsError::JumpLimitExceeded),
                QnameRes::OutOfBounds => Err(DnsError::OutOfBounds),
            },
            Err(e) => Err(e),
        },
        QueryType::AAAA => {
            if pos < 0 || pos + 16 > 512 {
                Err(DnsError::OutOfBounds)
            } else {
                Ok(
                    (
                        RecordDataV::AAAA {
                            addr: Seq::new(
                                8,
                                |i: int| ((buf[pos + 2 * i] as int) * 256 + buf[pos + 2 * i
                                    + 1] as int) as u16,
                            ),
                        },
                        pos + 16,
                    ),
                )
            }
        },
        QueryType::UNKNOWN(_) => {
            if pos < 0 || pos + dl > 512 {
                Err(DnsError::OutOfBounds)
            } else {
                Ok((RecordDataV::UNKNOWN, pos + dl))
            }
        },
    }
}

/// The record whose bytes start at `pos`: owner name, type, class, time to
/// live, data length, then the body that the type selects.
pub open spec fn spec_read_record(buf: Seq<u8>, pos: int) -> Result<(RecordV, int), DnsError> {
    match qname_decode(buf, pos, 0) {
        QnameRes::Done { name: domain, end } => match spec_read_u16(buf, end) {
            Ok((tv, p1)) => match spec_read_u16(buf, p1) {
                Ok((cl, p2)) => match spec_read_u32(buf, p2) {
                    Ok((ttl, p3)) => match spec_read_u16(buf, p3) {
                        Ok((dl, p4)) => match spec_read_data(buf, p4, qtype_of(tv), dl) {
                            Ok((data, p5)) => Ok(
                                (
                                    RecordV {
                                        domain,
                                        qtype: qtype_of(tv),
                                        class: cl,
                                        ttl,
                                        data_len: dl,
                                        data,
                                    },
                                    p5,
                                ),
                            ),
                            Err(e) => Err(e),
                        },
                        Err(e) => Err(e),
                    },
                    Err(e) => Err(e),
                },
                Err(e) => Err(e),
            },
            Err(e) => Err(e),
        },
        QnameRes::TooManyJumps => Err(DnsError::JumpLimitExceeded),
        QnameRes::OutOfBounds => Err(DnsError::OutOfBounds),
    }
}

/// Writing the hextets of an IPv6 body from index `i` on.
pub open spec fn spec_write_hextets(hx: Seq<u16>, buf: Seq<u8>, pos: int, i: int) -> Result<
    (Seq<u8>, int),
    DnsError,
>
    decreases hx.len() - i,
{
    if i < 0 || i >= hx.len() {
        Ok((buf, pos))
    } else {
        match spec_write_u16_at(buf, pos, hx[i]) {
            Ok((b, p)) => spec_write_hextets(hx, b, p, i + 1),
            Err(e) => Err(e),
        }
    }
}

/// Writing a data body at `pos`. An `UNKNOWN` body emits nothing: an
/// unmodelled record is skipped on read, so there is nothing to write back.
pub open spec fn spec_write_data(d: RecordDataV, buf: Seq<u8>, pos: int) -> Result<
    (Seq<u8>, int),
    DnsError,
> {
    match d {
        RecordDataV::A { addr } => spec_write_u32_at(buf, pos, addr),
        RecordDataV::NS { host } => spec_write_qname(vstd::utf8::encode_utf8(host), buf, pos),
        RecordDataV::CNAME { host } => spec_write_qname(vstd::utf8::encode_utf8(host), buf, pos),
        RecordDataV::MX { priority, host } => match spec_write_u16_at(buf, pos, priority) {
            Ok((b, p)) => spec_write_qname(vstd::utf8::encode_utf8(host), b, p),
            Err(e) => Err(e),
        },
        RecordDataV::AAAA { addr } => spec_write_hextets(addr, buf, pos, 0),
        RecordDataV::UNKNOWN => Ok((buf, pos)),
    }
}

/// Writing a record at `pos`: owner name, type, class, time to live, a
/// placeholder length word, the body, and the body's actual octet count
/// patched back over the placeholder. Yields the buffer, the cursor past the
/// record and the patched length.
#[verifier::opaque]
pub open spec fn spec_write_record(rec: RecordV, buf: Seq<u8>, pos: int) -> Result<
    (Seq<u8>, int, u16),
    DnsError,
> {
    match spec_write_qname(vstd::utf8::encode_utf8(rec.domain), buf, pos) {
        Ok((b1, p1)) => match spec_write_u16_at(b1, p1, qtype_num(rec.qtype)) {
            Ok((b2, p2)) => match spec_write_u16_at(b2, p2, rec.class) {
                Ok((b3, p3)) => match spec_write_u32_at(b3, p3, rec.ttl) {
                    Ok((b4, p4)) => match spec_write_u16_at(b4, p4, 0u16) {
                        Ok((b5, p5)) => match spec_write_data(rec.data, b5, p5) {
                            Ok((b6, p6)) => {
                                let dl = ((p6 - p5) as int % 0x10000) as u16;
                                match spec_write_u16_at(b6, p4, dl) {
                                    Ok((b7, _)) => Ok((b7, p6, dl)),
                                    Err(e) => Err(e),
                                }
                            },
                            Err(e) => Err(e),
                        },
                        Err(e) => Err(e),
                    },
                    Err(e) => Err(e),
                },
                Err(e) => Err(e),
            },
            Err(e) => Err(e),
        },
        Err(e) => Err(e),
    }
}

impl DnsRecord {
    /// An empty record: no name, type `UNKNOWN(0)`, class `IN`, no body.
    pub fn new() -> (r: Self)
        ensures
            r@.domain == Seq::<char>::empty(),
            r@.qtype == QueryType::UNKNOWN(0u16),
            r@.class == 1,
            r@.ttl == 0,
            r@.data_len == 0,
            r@.data == RecordDataV::UNKNOWN,
    {
        Self {
            domain: String::new(),
            qtype: QueryType::from(0u16),
            class: 1,
            ttl: 0,
            data_len: 0,
            data: RecordData::new(),
        }
    }

    /// An A record answering `host` with `addr`, living `ttl` seconds.
    pub fn new_a(addr: u32, host: String, ttl: u32) -> (r: Self)
        ensures
            r@.domain == host@,
            r@.qtype == QueryType::A,
            r@.class == 1,
            r@.ttl == ttl,
            r@.data_len == 0,
            r@.data == (RecordDataV::A { addr }),
    {
        Self {
            domain: host,
            qtype: QueryType::A,
            class: 1,
            ttl,
            data_len: 0,
            data: RecordData::A { addr },
        }
    }

    /// Fills `record.data` with the body that `record.qtype` selects, read at
    /// the buffer's cursor; an unmodelled type skips `record.data_len` octets.
    fn read_data(record: &mut Self, buffer: &mut PacketBuffer) -> (r: Result<(), DnsError>)
        requires
            old(buffer).wf(),
        ensures
            final(buffer).wf(),
            final(buffer).buf@ == old(buffer).buf@,
            match spec_read_data(
                old(buffer).buf@,
                old(buffer).pos as int,
                old(record).qtype,
                old(record).data_len,
            ) {
                Ok((d, p)) => {
                    &&& r == Ok::<(), DnsError>(())
                    &&& final(record).data@ == d
                    &&& final(buffer).pos == p
                    &&& final(record).domain == old(record).domain
                    &&& final(record).qtype == old(record).qtype
                    &&& final(record).class == old(record).class
                    &&& final(record).ttl == old(record).ttl
                    &&& final(record).data_len == old(record).data_len
                },
                Err(e) => r == Err::<(), DnsError>(e),
            },
    {
        match record.qtype {
            QueryType::A => {
                let raw_addr = buffer.read_u32()?;
                record.data = RecordData::read_ipv4(raw_addr);
            },
            QueryType::NS => {
                let mut host = String::new();
                buffer.read_qname(&mut host)?;
                record.data = RecordData::read_ns(host);
            },
            QueryType::CNAME => {
                let mut host = String::new();
                buffer.read_qname(&mut host)?;
                record.data = RecordData::read_cname(host);
            },
            QueryType::MX => {
                let priority = buffer.read_u16()?;
                let mut host = String::new();
                buffer.read_qname(&mut host)?;
                record.data = RecordData::read_mx(priority, host);
            },
            QueryType::AAAA => {
                let h0 = buffer.read_u16()?;
                let h1 = buffer.read_u16()?;
                let h2 = buffer.read_u16()?;
                let h3 = buffer.read_u16()?;
                let h4 = buffer.read_u16()?;
                let h5 = buffer.read_u16()?;
                let h6 = buffer.read_u16()?;
                let h7 = buffer.read_u16()?;
                let raw_addr: [u16; 8] = [h0, h1, h2, h3, h4, h5, h6, h7];
                proof {
                    let p0 = old(buffer).pos as int;
                    let b = old(buffer).buf@;
                    assert(raw_addr@ =~= Seq::new(
                        8,
                        |i: int| ((b[p0 + 2 * i] as int) * 256 + b[p0 + 2 * i + 1] as int) as u16,
                    ));
                }
                record.data = RecordData::read_ipv6(raw_addr);
            },
            QueryType::UNKNOWN(_) => {
                buffer.advance(record.data_len as usize)?;
                record.data = RecordData::new();
            },
        }
        Ok(())
    }

    /// Reads one record at the buffer's cursor: the shared header fields,
    /// then the body selected by the decoded type.
    pub fn read(buffer: &mut PacketBuffer) -> (r: Result<Self, DnsError>)
        requires
            old(buffer).wf(),
        ensures
            final(buffer).wf(),
            final(buffer).buf@ == old(buffer).buf@,
            match spec_read_record(old(buffer).buf@, old(buffer).pos as int) {
                Ok((rec, p)) => {
                    &&& r is Ok
                    &&& r->Ok_0@ == rec
                    &&& final(buffer).pos == p
                },
                Err(e) => r == Err::<Self, DnsError>(e),
            },
    {
        let mut result = Self::new();
        buffer.read_qname(&mut result.domain)?;
        result.qtype = buffer.read_u16()?.into();
        result.class = buffer.read_u16()?;
        result.ttl = buffer.read_u32()?;
        result.data_len = buffer.read_u16()?;
        Self::read_data(&mut result, buffer)?;
        Ok(result)
    }

    /// Writes the record's data length placeholder and body at the buffer's
    /// cursor, then patches the placeholder with the octet count the body
    /// emitted, stored in `self.data_len` as well.
    fn write_data(&mut self, buffer: &mut PacketBuffer) -> (r: Result<(), DnsError>)
        requires
            old(buffer).wf(),
        ensures
            final(buffer).wf(),
            final(self).domain == old(self).domain,
            final(self).qtype == old(self).qtype,
            final(self).class == old(self).class,
            final(self).ttl == old(self).ttl,
            final(self).data == old(self).data,
            r is Ok ==> final(buffer).pos >= old(buffer).pos + 2,
            match spec_write_u16_at(old(buffer).buf@, old(buffer).pos as int, 0u16) {
                Ok((b5, p5)) => match spec_write_data(old(self).data@, b5, p5) {
                    Ok((b6, p6)) => {
                        let dl = ((p6 - p5) as int % 0x10000) as u16;
                        &&& r == Ok::<(), DnsError>(())
                        &&& final(self).data_len == dl
                        &&& final(buffer).buf@ == spec_write_u16_at(
                            b6,
                            old(buffer).pos as int,
                            dl,
                        )->Ok_0.0
                        &&& final(buffer).pos == p6
                    },
                    Err(e) => r == Err::<(), DnsError>(e),
                },
                Err(e) => r == Err::<(), DnsError>(e),
            },
    {
        let start_pos = buffer.pos();
        buffer.write_u16(0)?;
        let ghost b5 = buffer.buf@;
        let ghost p5 = buffer.pos as int;
        match &self.data {
            RecordData::A { addr } => {
                buffer.write_u32(*addr)?;
            },
            RecordData::NS { host } => {
                buffer.write_qname(host.as_str())?;
                proof {
                    lemma_write_qname_range(vstd::utf8::encode_utf8(host@), b5, p5);
                }
            },
            RecordData::CNAME { host } => {
                buffer.write_qname(host.as_str())?;
                proof {
                    lemma_write_qname_range(vstd::utf8::encode_utf8(host@), b5, p5);
                }
            },
            RecordData::MX { priority, host } => {
                buffer.write_u16(*priority)?;
                let ghost bm = buffer.buf@;
                let ghost pm = buffer.pos as int;
                buffer.write_qname(host.as_str())?;
                proof {
                    lemma_write_qname_range(vstd::utf8::encode_utf8(host@), bm, pm);
                }
            },
            RecordData::AAAA { addr } => {
                let mut i: usize = 0;
                while i < 8
                    invariant
                        i <= 8,
                        buffer.wf(),
                        addr@.len() == 8,
                        *self == *old(self),
                        self.data@ == (RecordDataV::AAAA { addr: addr@ }),
                        start_pos == old(buffer).pos,
                        spec_write_u16_at(old(buffer).buf@, old(buffer).pos as int, 0u16)
                            == Ok::<(Seq<u8>, int), DnsError>((b5, p5)),
                        p5 == start_pos + 2,
                        p5 <= buffer.pos <= 512,
                        spec_write_hextets(addr@, b5, p5, 0) == spec_write_hextets(
                            addr@,
                            buffer.buf@,
                            buffer.pos as int,
                            i as int,
                        ),
                    decreases 8 - i,
                {
                    buffer.write_u16(addr[i])?;
                    i = i + 1;
                }
            },
            RecordData::UNKNOWN => {},
        }
        let dl_usize = buffer.pos() - (start_pos + 2);
        self.data_len = dl_usize as u16;
        buffer.set_u16(start_pos, self.data_len)?;
        Ok(())
    }

    /// Writes the whole record at the buffer's cursor and returns how many
    /// octets it occupies. `self.data_len` afterwards holds the body's octet
    /// count, as patched into the wire bytes.
    pub fn write(&mut self, buffer: &mut PacketBuffer) -> (r: Result<usize, DnsError>)
        requires
            old(buffer).wf(),
        ensures
            final(buffer).wf(),
            final(self).domain == old(self).domain,
            final(self).qtype == old(self).qtype,
            final(self).class == old(self).class,
            final(self).ttl == old(self).ttl,
            final(self).data == old(self).data,
            match spec_write_record(old(self)@, old(buffer).buf@, old(buffer).pos as int) {
                Ok((b, p, dl)) => {
                    &&& r is Ok
                    &&& r->Ok_0 == p - old(buffer).pos
                    &&& final(buffer).buf@ == b
                    &&& final(buffer).pos == p
                    &&& final(self).data_len == dl
                },
                Err(e) => r == Err::<usize, DnsError>(e),
            },
    {
        proof {
            reveal(spec_write_record);
        }
        let start_pos = buffer.pos();
        let ghost b0 = buffer.buf@;
        let ghost p0 = buffer.pos as int;
        buffer.write_qname(self.domain.as_str())?;
        proof {
            lemma_write_qname_range(vstd::utf8::encode_utf8(self.domain@), b0, p0);
        }
        buffer.write_u16(self.qtype.to_num())?;
        buffer.write_u16(self.class)?;
        buffer.write_u32(self.ttl)?;
        self.write_data(buffer)?;
        Ok(buffer.pos() - start_pos)
    }
}

} // verus!
