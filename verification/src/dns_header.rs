//! The 12-octet DNS message header: transaction id, two flag octets split
//! into ten named fields, and the four section counts.

use vstd::prelude::*;

use crate::errors::DnsError;
use crate::packet_buffer::{splice, lemma_splice_concat, be16_bytes, PacketBuffer};

verus! {

/// A response code, with its ordinal wire value given by [`rescode_num`].
/// A decoded code outside the six known values maps to `NOERROR`.
#[derive(Copy, Clone, Debug, PartialEq, Eq, Structural)]
pub enum ResultCode {
    NOERROR,
    FORMERR,
    SERVFAIL,
    NXDOMAIN,
    NOTIMP,
    REFUSED,
}

/// The wire value of a response code.
pub open spec fn rescode_num(c: ResultCode) -> u8 {
    match c {
        ResultCode::NOERROR => 0,
        ResultCode::FORMERR => 1,
        ResultCode::SERVFAIL => 2,
        ResultCode::NXDOMAIN => 3,
        ResultCode::NOTIMP => 4,
        ResultCode::REFUSED => 5,
    }
}

/// The response code decoded from a wire value; unknown values become
/// `NOERROR`.
pub open spec fn rescode_of(v: u8) -> ResultCode {
    match v {
        1u8 => ResultCode::FORMERR,
        2u8 => ResultCode::SERVFAIL,
        3u8 => ResultCode::NXDOMAIN,
        4u8 => ResultCode::NOTIMP,
        5u8 => ResultCode::REFUSED,
        _ => ResultCode::NOERROR,
    }
}

impl ResultCode {
    /// The ordinal wire value, the low four bits of the second flag octet.
    pub fn to_num(self) -> (r: u8)
        ensures
            r == rescode_num(self),
    {
        match self {
            ResultCode::NOERROR => 0,
            ResultCode::FORMERR => 1,
            ResultCode::SERVFAIL => 2,
            ResultCode::NXDOMAIN => 3,
            ResultCode::NOTIMP => 4,
            ResultCode::REFUSED => 5,
        }
    }
}

impl From<u8> for ResultCode {
    /// The code for a decoded wire value.
    fn from(value: u8) -> (r: Self) {
        match value {
            1 => ResultCode::FORMERR,
            2 => ResultCode::SERVFAIL,
            3 => ResultCode::NXDOMAIN,
            4 => ResultCode::NOTIMP,
            5 => ResultCode::REFUSED,
            _ => ResultCode::NOERROR,
        }
    }
}

impl vstd::std_specs::convert::FromSpecImpl<u8> for ResultCode {
    open spec fn obeys_from_spec() -> bool {
        true
    }

    open spec fn from_spec(v: u8) -> Self {
        rescode_of(v)
    }
}

/// The header of a DNS message. The four counts say how many entries each
/// section carries on the wire; the encoder overwrites them from the actual
/// section lengths before serializing.
#[derive(Clone, Debug, PartialEq, Eq, Structural)]
pub struct DnsHeader {
    pub id: u16,
    pub recursion_desired: bool,
    pub truncated_message: bool,
    pub authoritative_answer: bool,
    pub opcode: u8,
    pub response: bool,
    pub rescode: ResultCode,
    pub checking_disabled: bool,
    pub authed_data: bool,
    pub z: bool,
    pub recursion_available: bool,
    pub questions: u16,
    pub answers: u16,
    pub authoritative_entries: u16,
    pub resource_entries: u16,
}

/// 1 for a set flag, 0 for a clear one.
pub open spec fn bit_val(b: bool) -> int {
    if b {
        1
    } else {
        0
    }
}

/// The first flag octet: recursion desired, truncation, authority, the
/// four-bit opcode and the response bit.
pub open spec fn flags_a(h: DnsHeader) -> u8 {
    (bit_val(h.recursion_desired) + 2 * bit_val(h.truncated_message) + 4 * bit_val(
        h.authoritative_answer,
    ) + 8 * (h.opcode as int) + 128 * bit_val(h.response)) as u8
}

/// The second flag octet: the four-bit response code, checking disabled,
/// authenticated data, the reserved bit and recursion available.
pub open spec fn flags_b(h: DnsHeader) -> u8 {
    (rescode_num(h.rescode) + 16 * bit_val(h.checking_disabled) + 32 * bit_val(h.authed_data) + 64
        * bit_val(h.z) + 128 * bit_val(h.recursion_available)) as u8
}

/// The twelve octets of a header on the wire.
pub open spec fn enc_header(h: DnsHeader) -> Seq<u8> {
    be16_bytes(h.id) + seq![flags_a(h), flags_b(h)] + be16_bytes(h.questions) + be16_bytes(
        h.answers,
    ) + be16_bytes(h.authoritative_entries) + be16_bytes(h.resource_entries)
}

/// The header whose twelve octets start at `pos`, and the cursor past them.
pub open spec fn spec_read_header(buf: Seq<u8>, pos: int) -> Result<(DnsHeader, int), DnsError> {
    if pos < 0 || pos + 12 > 512 {
        Err(DnsError::OutOfBounds)
    } else {
        let a = buf[pos + 2];
        let b = buf[pos + 3];
        Ok(
            (
                DnsHeader {
                    id: ((buf[pos] as int) * 256 + buf[pos + 1] as int) as u16,
                    recursion_desired: a as int % 2 == 1,
                    truncated_message: (a as int / 2) % 2 == 1,
                    authoritative_answer: (a as int / 4) % 2 == 1,
                    opcode: ((a as int / 8) % 16) as u8,
                    response: (a as int / 128) % 2 == 1,
                    rescode: rescode_of((b as int % 16) as u8),
                    checking_disabled: (b as int / 16) % 2 == 1,
                    authed_data: (b as int / 32) % 2 == 1,
                    z: (b as int / 64) % 2 == 1,
                    recursion_available: (b as int / 128) % 2 == 1,
                    questions: ((buf[pos + 4] as int) * 256 + buf[pos + 5] as int) as u16,
                    answers: ((buf[pos + 6] as int) * 256 + buf[pos + 7] as int) as u16,
                    authoritative_entries: ((buf[pos + 8] as int) * 256 + buf[pos + 9] as int) as u16,
                    resource_entries: ((buf[pos + 10] as int) * 256 + buf[pos + 11] as int) as u16,
                },
                pos + 12,
            ),
        )
    }
}

/// Writing the twelve header octets at `pos`.
pub open spec fn spec_write_header(h: DnsHeader, buf: Seq<u8>, pos: int) -> Result<
    (Seq<u8>, int),
    DnsError,
> {
    if pos < 0 || pos + 12 > 512 {
        Err(DnsError::OutOfBounds)
    } else {
        Ok((splice(buf, pos, enc_header(h)), pos + 12))
    }
}

/// The zeroed header that [`DnsHeader::new`] yields.
pub open spec fn header_new() -> DnsHeader {
    DnsHeader {
        id: 0u16,
        recursion_desired: false,
        truncated_message: false,
        authoritative_answer: false,
        opcode: 0u8,
        response: false,
        rescode: ResultCode::NOERROR,
        checking_disabled: false,
        authed_data: false,
        z: false,
        recursion_available: false,
        questions: 0u16,
        answers: 0u16,
        authoritative_entries: 0u16,
        resource_entries: 0u16,
    }
}

impl DnsHeader {
    /// The header's fields all lie inside their wire-format ranges: the
    /// opcode is a four-bit field.
    pub open spec fn wf(&self) -> bool {
        self.opcode < 16
    }

    /// A zeroed header: no flags, `NOERROR`, empty counts.
    pub fn new() -> (r: DnsHeader)
        ensures
            r == header_new(),
            r.wf(),
    {
        DnsHeader {
            id: 0,
            recursion_desired: false,
            truncated_message: false,
            authoritative_answer: false,
            opcode: 0,
            response: false,
            rescode: ResultCode::NOERROR,
            checking_disabled: false,
            authed_data: false,
            z: false,
            recursion_available: false,
            questions: 0,
            answers: 0,
            authoritative_entries: 0,
            resource_entries: 0,
        }
    }

    /// Reads the twelve header octets at the buffer's cursor into `self`,
    /// splitting the two flag octets into the named fields.
    #[verifier::rlimit(60)]
    pub fn read(&mut self, buffer: &mut PacketBuffer) -> (r: Result<(), DnsError>)
        requires
            old(buffer).wf(),
        ensures
            final(buffer).wf(),
            final(buffer).buf@ == old(buffer).buf@,
            match spec_read_header(old(buffer).buf@, old(buffer).pos as int) {
                Ok((h, p)) => {
                    &&& r == Ok::<(), DnsError>(())
                    &&& *final(self) == h
                    &&& final(self).wf()
                    &&& final(buffer).pos == p
                },
                Err(e) => r == Err::<(), DnsError>(e),
            },
    {
        self.id = buffer.read_u16()?;

        let flags = buffer.read_u16()?;
        let tmp_a = (flags / 256) as u8;
        let tmp_b = (flags % 256) as u8;

        self.recursion_desired = tmp_a % 2 == 1;
        self.truncated_message = (tmp_a / 2) % 2 == 1;
        self.authoritative_answer = (tmp_a / 4) % 2 == 1;
        self.opcode = (tmp_a / 8) % 16;
        self.response = (tmp_a / 128) % 2 == 1;

        self.rescode = ResultCode::from(tmp_b % 16);
        self.checking_disabled = (tmp_b / 16) % 2 == 1;
        self.authed_data = (tmp_b / 32) % 2 == 1;
        self.z = (tmp_b / 64) % 2 == 1;
        self.recursion_available = (tmp_b / 128) % 2 == 1;

        self.questions = buffer.read_u16()?;
        self.answers = buffer.read_u16()?;
        self.authoritative_entries = buffer.read_u16()?;
        self.resource_entries = buffer.read_u16()?;

        Ok(())
    }

    /// Writes the twelve header octets at the buffer's cursor, recombining
    /// the named fields into the two flag octets.
    #[verifier::rlimit(100)]
    pub fn write(&self, buffer: &mut PacketBuffer) -> (r: Result<(), DnsError>)
        requires
            old(buffer).wf(),
            self.wf(),
        ensures
            final(buffer).wf(),
            r is Ok <==> old(buffer).pos + 12 <= 512,
            r is Ok ==> final(buffer).buf@ == splice(
                old(buffer).buf@,
                old(buffer).pos as int,
                enc_header(*self),
            ) && final(buffer).pos == old(buffer).pos + 12,
            r is Err ==> r == Err::<(), DnsError>(DnsError::OutOfBounds),
    {
        let ghost buf0 = buffer.buf@;
        let ghost pos0 = buffer.pos as int;
        let ghost mut c: Seq<u8> = Seq::empty();
        buffer.write_u16(self.id)?;
        proof {
            assert(splice(buf0, pos0, be16_bytes(self.id)) =~= splice(
                buf0,
                pos0,
                c + be16_bytes(self.id),
            ));
            c = c + be16_bytes(self.id);
        }

        let a: u8 = (if self.recursion_desired {
            1
        } else {
            0
        }) + (if self.truncated_message {
            2
        } else {
            0
        }) + (if self.authoritative_answer {
            4
        } else {
            0
        }) + self.opcode * 8 + (if self.response {
            128
        } else {
            0
        });
        buffer.write(a)?;
        proof {
            lemma_splice_concat(buf0, pos0, c, seq![a]);
            c = c + seq![a];
        }

        let b: u8 = self.rescode.to_num() + (if self.checking_disabled {
            16
        } else {
            0
        }) + (if self.authed_data {
            32
        } else {
            0
        }) + (if self.z {
            64
        } else {
            0
        }) + (if self.recursion_available {
            128
        } else {
            0
        });
        buffer.write(b)?;
        proof {
            lemma_splice_concat(buf0, pos0, c, seq![b]);
            c = c + seq![b];
        }

        buffer.write_u16(self.questions)?;
        proof {
            lemma_splice_concat(buf0, pos0, c, be16_bytes(self.questions));
            c = c + be16_bytes(self.questions);
        }
        buffer.write_u16(self.answers)?;
        proof {
            lemma_splice_concat(buf0, pos0, c, be16_bytes(self.answers));
            c = c + be16_bytes(self.answers);
        }
        buffer.write_u16(self.authoritative_entries)?;
        proof {
            lemma_splice_concat(buf0, pos0, c, be16_bytes(self.authoritative_entries));
            c = c + be16_bytes(self.authoritative_entries);
        }
        buffer.write_u16(self.resource_entries)?;
        proof {
            lemma_splice_concat(buf0, pos0, c, be16_bytes(self.resource_entries));
            c = c + be16_bytes(self.resource_entries);
            assert(c =~= enc_header(*self));
            assert(a == flags_a(*self));
            assert(b == flags_b(*self));
        }
        Ok(())
    }
}

} // verus!
