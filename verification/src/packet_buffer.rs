//! The fixed 512-octet cursor-oriented packet buffer: bounds-checked reads
//! and writes, big-endian integers, and domain-name encode/decode with
//! RFC 1035 label-pointer compression.
//!
//! Every operation is specified against a pure model over `Seq<u8>` and a
//! cursor position; the spec functions here are that model.

use vstd::prelude::*;
use vstd::string::StringSliceAdditionalSpecFns;

use crate::errors::{index_out_of_bound, jumps_limit, DnsError};

verus! {

/// Octets in one DNS datagram: the hard cap of classic DNS over UDP.
pub const BUF_SIZE: usize = 512;

/// A fixed-capacity byte buffer plus a cursor. Reads and writes advance the
/// cursor by the octets consumed or emitted; bounds violations fail the
/// operation and leave the buffer unchanged.
pub struct PacketBuffer {
    pub buf: Vec<u8>,
    pub pos: usize,
}

/// The two bytes of `v` in network order.
pub open spec fn be16_bytes(v: u16) -> Seq<u8> {
    seq![(v / 256) as u8, (v % 256) as u8]
}

/// The four bytes of `v` in network order.
pub open spec fn be32_bytes(v: u32) -> Seq<u8> {
    seq![
        (v / 0x1000000) as u8,
        ((v / 0x10000) % 256) as u8,
        ((v / 256) % 256) as u8,
        (v % 256) as u8,
    ]
}

/// A 16-bit write at `pos`: the new buffer and cursor.
pub open spec fn spec_write_u16_at(buf: Seq<u8>, pos: int, v: u16) -> Result<
    (Seq<u8>, int),
    DnsError,
> {
    if pos < 0 || pos + 2 > 512 {
        Err(DnsError::OutOfBounds)
    } else {
        Ok((splice(buf, pos, be16_bytes(v)), pos + 2))
    }
}

/// A 32-bit write at `pos`: the new buffer and cursor.
pub open spec fn spec_write_u32_at(buf: Seq<u8>, pos: int, v: u32) -> Result<
    (Seq<u8>, int),
    DnsError,
> {
    if pos < 0 || pos + 4 > 512 {
        Err(DnsError::OutOfBounds)
    } else {
        Ok((splice(buf, pos, be32_bytes(v)), pos + 4))
    }
}

/// Splicing `x` at `pos` and then `y` right after it is one splice of the
/// concatenation.
pub proof fn lemma_splice_concat(buf: Seq<u8>, pos: int, x: Seq<u8>, y: Seq<u8>)
    ensures
        splice(splice(buf, pos, x), pos + x.len(), y) == splice(buf, pos, x + y),
{
    assert(splice(splice(buf, pos, x), pos + x.len(), y) =~= splice(buf, pos, x + y));
}

/// One byte read at `pos`: the byte and the advanced cursor.
pub open spec fn spec_read_u8(buf: Seq<u8>, pos: int) -> Result<(u8, int), DnsError> {
    if 0 <= pos < 512 {
        Ok((buf[pos], pos + 1))
    } else {
        Err(DnsError::OutOfBounds)
    }
}

/// A big-endian 16-bit read at `pos`.
pub open spec fn spec_read_u16(buf: Seq<u8>, pos: int) -> Result<(u16, int), DnsError> {
    match spec_read_u8(buf, pos) {
        Ok((hi, p1)) => match spec_read_u8(buf, p1) {
            Ok((lo, p2)) => Ok((((hi as int) * 256 + lo as int) as u16, p2)),
            Err(e) => Err(e),
        },
        Err(e) => Err(e),
    }
}

/// A big-endian 32-bit read at `pos`.
pub open spec fn spec_read_u32(buf: Seq<u8>, pos: int) -> Result<(u32, int), DnsError> {
    match spec_read_u16(buf, pos) {
        Ok((hi, p1)) => match spec_read_u16(buf, p1) {
            Ok((lo, p2)) => Ok((((hi as int) * 0x10000 + lo as int) as u32, p2)),
            Err(e) => Err(e),
        },
        Err(e) => Err(e),
    }
}

impl PacketBuffer {
    /// The buffer invariant: fixed 512-octet capacity, cursor inside it.
    pub open spec fn wf(&self) -> bool {
        self.buf@.len() == 512 && self.pos <= 512
    }

    /// A zeroed buffer with the cursor at the start.
    pub fn new() -> (r: Self)
        ensures
            r.wf(),
            r.pos == 0,
            r.buf@ == Seq::new(512, |i: int| 0u8),
    {
        let buf: Vec<u8> = vec![0u8; BUF_SIZE];
        proof {
            assert(buf@ =~= Seq::new(512, |i: int| 0u8));
        }
        Self { buf, pos: 0 }
    }

    /// The cursor position.
    pub fn pos(&self) -> (r: usize)
        ensures
            r == self.pos,
    {
        self.pos
    }

    /// Moves the cursor forward by `steps` octets; fails without moving it
    /// when that would pass the end of the buffer.
    pub fn advance(&mut self, steps: usize) -> (r: Result<(), DnsError>)
        requires
            old(self).wf(),
        ensures
            final(self).wf(),
            final(self).buf@ == old(self).buf@,
            r is Ok <==> old(self).pos + steps <= 512,
            r is Ok ==> final(self).pos == old(self).pos + steps,
            r is Err ==> *final(self) == *old(self) && r == Err::<(), DnsError>(DnsError::OutOfBounds),
    {
        if steps > 512 - self.pos {
            return Err(index_out_of_bound());
        }
        self.pos = self.pos + steps;
        Ok(())
    }

    /// Places the cursor at the absolute position `pos`; fails without moving
    /// it when `pos` lies past the end of the buffer.
    pub fn seek(&mut self, pos: usize) -> (r: Result<(), DnsError>)
        requires
            old(self).wf(),
        ensures
            final(self).wf(),
            final(self).buf@ == old(self).buf@,
            r is Ok <==> pos <= 512,
            r is Ok ==> final(self).pos == pos,
            r is Err ==> *final(self) == *old(self) && r == Err::<(), DnsError>(DnsError::OutOfBounds),
    {
        if pos > 512 {
            return Err(index_out_of_bound());
        }
        self.pos = pos;
        Ok(())
    }

    /// Reads the byte under the cursor and advances past it.
    pub fn read(&mut self) -> (r: Result<u8, DnsError>)
        requires
            old(self).wf(),
        ensures
            final(self).wf(),
            final(self).buf@ == old(self).buf@,
            match spec_read_u8(old(self).buf@, old(self).pos as int) {
                Ok((v, end)) => r == Ok::<u8, DnsError>(v) && final(self).pos == end,
                Err(e) => r == Err::<u8, DnsError>(e) && *final(self) == *old(self),
            },
    {
        if self.pos >= 512 {
            return Err(index_out_of_bound());
        }
        let res = self.buf[self.pos];
        self.pos = self.pos + 1;
        Ok(res)
    }

    /// The byte at the absolute position `pos`, without moving the cursor.
    pub fn get(&self, pos: usize) -> (r: Result<u8, DnsError>)
        requires
            self.wf(),
        ensures
            pos < 512 ==> r == Ok::<u8, DnsError>(self.buf@[pos as int]),
            pos >= 512 ==> r == Err::<u8, DnsError>(DnsError::OutOfBounds),
    {
        if pos >= 512 {
            return Err(index_out_of_bound());
        }
        Ok(self.buf[pos])
    }

    /// The `len` bytes starting at the absolute position `start`, without
    /// moving the cursor.
    pub fn get_range(&self, start: usize, len: usize) -> (r: Result<&[u8], DnsError>)
        requires
            self.wf(),
        ensures
            start + len <= 512 ==> r is Ok && r->Ok_0@ == self.buf@.subrange(
                start as int,
                start + len,
            ),
            start + len > 512 ==> r == Err::<&[u8], DnsError>(DnsError::OutOfBounds),
    {
        if start > 512 || len > 512 - start {
            return Err(index_out_of_bound());
        }
        Ok(&self.buf.as_slice()[start..start + len])
    }

    /// Reads a big-endian 16-bit integer at the cursor.
    pub fn read_u16(&mut self) -> (r: Result<u16, DnsError>)
        requires
            old(self).wf(),
        ensures
            final(self).wf(),
            final(self).buf@ == old(self).buf@,
            match spec_read_u16(old(self).buf@, old(self).pos as int) {
                Ok((v, end)) => r == Ok::<u16, DnsError>(v) && final(self).pos == end,
                Err(e) => r == Err::<u16, DnsError>(e),
            },
    {
        let hi = self.read()?;
        let lo = self.read()?;
        Ok((hi as u16) * 256 + (lo as u16))
    }

    /// Reads a big-endian 32-bit integer at the cursor.
    pub fn read_u32(&mut self) -> (r: Result<u32, DnsError>)
        requires
            old(self).wf(),
        ensures
            final(self).wf(),
            final(self).buf@ == old(self).buf@,
            match spec_read_u32(old(self).buf@, old(self).pos as int) {
                Ok((v, end)) => r == Ok::<u32, DnsError>(v) && final(self).pos == end,
                Err(e) => r == Err::<u32, DnsError>(e),
            },
    {
        let hi = self.read_u16()?;
        let lo = self.read_u16()?;
        Ok((hi as u32) * 0x10000 + (lo as u32))
    }

    /// Writes one byte at the cursor and advances past it; fails without
    /// changing anything when the cursor is at the end.
    pub fn write(&mut self, val: u8) -> (r: Result<(), DnsError>)
        requires
            old(self).wf(),
        ensures
            final(self).wf(),
            r is Ok <==> old(self).pos < 512,
            r is Ok ==> final(self).buf@ == old(self).buf@.update(old(self).pos as int, val)
                && final(self).buf@ == splice(old(self).buf@, old(self).pos as int, seq![val])
                && final(self).pos == old(self).pos + 1,
            r is Err ==> *final(self) == *old(self) && r == Err::<(), DnsError>(DnsError::OutOfBounds),
    {
        if self.pos >= 512 {
            return Err(index_out_of_bound());
        }
        self.buf[self.pos] = val;
        self.pos = self.pos + 1;
        proof {
            assert(self.buf@ =~= splice(old(self).buf@, old(self).pos as int, seq![val]));
        }
        Ok(())
    }

    /// Writes a big-endian 16-bit integer at the cursor.
    pub fn write_u16(&mut self, val: u16) -> (r: Result<(), DnsError>)
        requires
            old(self).wf(),
        ensures
            final(self).wf(),
            r is Ok <==> old(self).pos + 2 <= 512,
            r is Ok ==> final(self).buf@ == splice(
                old(self).buf@,
                old(self).pos as int,
                be16_bytes(val),
            ) && final(self).pos == old(self).pos + 2,
            r is Err ==> r == Err::<(), DnsError>(DnsError::OutOfBounds) && final(self).pos == 512
                && (forall|i: int|
                0 <= i < 512 ==> final(self).buf@[i] == (if old(self).pos <= i {
                    be16_bytes(val)[i - old(self).pos]
                } else {
                    old(self).buf@[i]
                })),
    {
        let ghost buf0 = self.buf@;
        let ghost pos0 = self.pos as int;
        self.write((val / 256) as u8)?;
        self.write((val % 256) as u8)?;
        proof {
            assert(self.buf@ =~= splice(buf0, pos0, be16_bytes(val)));
        }
        Ok(())
    }

    /// Writes a big-endian 32-bit integer at the cursor.
    pub fn write_u32(&mut self, val: u32) -> (r: Result<(), DnsError>)
        requires
            old(self).wf(),
        ensures
            final(self).wf(),
            r is Ok <==> old(self).pos + 4 <= 512,
            r is Ok ==> final(self).buf@ == splice(
                old(self).buf@,
                old(self).pos as int,
                be32_bytes(val),
            ) && final(self).pos == old(self).pos + 4,
            r is Err ==> r == Err::<(), DnsError>(DnsError::OutOfBounds) && final(self).pos == 512
                && (forall|i: int|
                0 <= i < 512 ==> final(self).buf@[i] == (if old(self).pos <= i {
                    be32_bytes(val)[i - old(self).pos]
                } else {
                    old(self).buf@[i]
                })),
    {
        let ghost buf0 = self.buf@;
        let ghost pos0 = self.pos as int;
        self.write((val / 0x1000000) as u8)?;
        self.write(((val / 0x10000) % 256) as u8)?;
        self.write(((val / 256) % 256) as u8)?;
        self.write((val % 256) as u8)?;
        proof {
            assert(self.buf@ =~= splice(buf0, pos0, be32_bytes(val)));
        }
        Ok(())
    }

    /// Overwrites the two octets at the absolute position `pos` with `val` in
    /// network order, without moving the cursor. Used to back-patch a record's
    /// data length after its body has been emitted.
    pub fn set_u16(&mut self, pos: usize, val: u16) -> (r: Result<(), DnsError>)
        requires
            old(self).wf(),
        ensures
            final(self).wf(),
            final(self).pos == old(self).pos,
            r is Ok <==> pos + 2 <= 512,
            r is Ok ==> final(self).buf@ == splice(old(self).buf@, pos as int, be16_bytes(val)),
            r is Err ==> *final(self) == *old(self) && r == Err::<(), DnsError>(DnsError::OutOfBounds),
    {
        if pos >= 512 || pos + 1 >= 512 {
            return Err(index_out_of_bound());
        }
        self.buf[pos] = (val / 256) as u8;
        self.buf[pos + 1] = (val % 256) as u8;
        proof {
            assert(self.buf@ =~= splice(old(self).buf@, pos as int, be16_bytes(val)));
        }
        Ok(())
    }
}

/// The outcome of decoding one compressed domain name: the name's characters
/// and the main cursor's final position, or the error that stops the decode.
pub enum QnameRes {
    Done { name: Seq<char>, end: int },
    OutOfBounds,
    TooManyJumps,
}

/// An ASCII uppercase letter folded to lower case; any other byte unchanged.
pub open spec fn lower_byte(b: u8) -> u8 {
    if 65 <= b <= 90 {
        (b + 32) as u8
    } else {
        b
    }
}

/// One label byte as a character of the decoded name: ASCII bytes are folded
/// to lower case, and any byte outside ASCII becomes the replacement
/// character, which no case folding touches.
pub open spec fn byte_to_lower_char(b: u8) -> char {
    if b < 128 {
        lower_byte(b) as char
    } else {
        '\u{FFFD}'
    }
}

/// A decoded label joined onto the rest of a name: a dot separates two
/// nonempty parts, and an empty rest adds nothing.
pub open spec fn join_name(label: Seq<char>, rest: Seq<char>) -> Seq<char> {
    if rest.len() == 0 {
        label
    } else {
        label + seq!['.'] + rest
    }
}

/// The name accumulated so far joined onto what the remaining decode yields.
pub open spec fn acc_join(acc: Seq<char>, rest: Seq<char>) -> Seq<char> {
    if acc.len() == 0 {
        rest
    } else if rest.len() == 0 {
        acc
    } else {
        acc + seq!['.'] + rest
    }
}

/// Decoding a domain name from `buf` at `pos` with `jumps` pointer
/// dereferences already taken: a sequence of length-prefixed labels ends at a
/// zero octet; a length octet with both top bits set is a 14-bit back-pointer.
/// More than five dereferences in one name stop the decode. The reported end
/// is the position just past the first pointer when one occurs, and just past
/// the terminating zero octet otherwise.
pub open spec fn qname_decode(buf: Seq<u8>, pos: int, jumps: int) -> QnameRes
    decreases 6 - jumps, 16384 - pos,
{
    if jumps > 5 {
        QnameRes::TooManyJumps
    } else if !(0 <= pos < 512) {
        QnameRes::OutOfBounds
    } else {
        let len = buf[pos];
        if len & 0xC0 == 0xC0 {
            if pos + 1 >= 512 {
                QnameRes::OutOfBounds
            } else {
                let target = ((len ^ 0xC0) as int) * 256 + buf[pos + 1];
                match qname_decode(buf, target, jumps + 1) {
                    QnameRes::Done { name, end } => QnameRes::Done { name, end: pos + 2 },
                    e => e,
                }
            }
        } else if len == 0 {
            QnameRes::Done { name: Seq::empty(), end: pos + 1 }
        } else if pos + 1 + len > 512 {
            QnameRes::OutOfBounds
        } else {
            let label = Seq::new(len as nat, |i: int| byte_to_lower_char(buf[pos + 1 + i]));
            match qname_decode(buf, pos + 1 + len, jumps) {
                QnameRes::Done { name, end } => QnameRes::Done {
                    name: join_name(label, name),
                    end,
                },
                e => e,
            }
        }
    }
}

/// One label byte folded for the decoded name, as the spec model folds it.
fn lower_char_of_byte(b: u8) -> (c: char)
    ensures
        c == byte_to_lower_char(b),
{
    if b < 128 {
        let lb: u8 = if 65 <= b && b <= 90 {
            b + 32
        } else {
            b
        };
        lb as char
    } else {
        '\u{FFFD}'
    }
}

/// Relies on String::push: appends exactly one character to the string.
#[verifier::external_body]
fn push_char(s: &mut String, c: char)
    ensures
        final(s)@ == old(s)@.push(c),
{
    s.push(c);
}

/// Joining one more decoded label onto the accumulated name commutes with
/// the recursive join of the remaining labels.
proof fn lemma_acc_join_step(acc: Seq<char>, label: Seq<char>, rest: Seq<char>)
    requires
        label.len() > 0,
    ensures
        acc_join(acc, join_name(label, rest)) == acc_join(
            if acc.len() == 0 {
                label
            } else {
                acc + seq!['.'] + label
            },
            rest,
        ),
{
    if acc.len() == 0 {
        assert(acc_join(acc, join_name(label, rest)) == join_name(label, rest));
    } else {
        if rest.len() == 0 {
            assert(acc_join(acc, join_name(label, rest)) == acc + seq!['.'] + label);
        } else {
            assert(acc + seq!['.'] + (label + seq!['.'] + rest) =~= (acc + seq!['.'] + label)
                + seq!['.'] + rest);
        }
    }
}

impl PacketBuffer {
    /// Follows one compression pointer: reads the low offset byte just past
    /// `pos`, moves the scratch cursor to the 14-bit target offset and counts
    /// the dereference. The buffer itself is untouched.
    fn qname_jump(&mut self, pos: &mut usize, len: u8, num_jumps: &mut u8) -> (r: Result<
        bool,
        DnsError,
    >)
        requires
            old(self).wf(),
            *old(pos) < 512,
            *old(num_jumps) <= 5,
            len & 0xC0 == 0xC0,
        ensures
            *final(self) == *old(self),
            *old(pos) + 1 < 512 ==> {
                &&& r == Ok::<bool, DnsError>(true)
                &&& *final(pos) == ((len ^ 0xC0) as int) * 256 + old(self).buf@[*old(pos) + 1]
                &&& *final(pos) <= 16383
                &&& *final(num_jumps) == *old(num_jumps) + 1
            },
            *old(pos) + 1 >= 512 ==> {
                &&& r == Err::<bool, DnsError>(DnsError::OutOfBounds)
                &&& *final(pos) == *old(pos)
                &&& *final(num_jumps) == *old(num_jumps)
            },
    {
        let byte = match self.get(*pos + 1) {
            Ok(b) => b as u16,
            Err(e) => {
                return Err(e);
            },
        };
        assert((len ^ 0xC0) <= 0x3F) by (bit_vector)
            requires
                len & 0xC0 == 0xC0,
        ;
        let offset = ((len ^ 0xC0) as u16) * 256 + byte;
        *pos = offset as usize;
        *num_jumps = *num_jumps + 1;
        Ok(true)
    }

    /// Appends the pending delimiter and one lowercased label of `len` octets
    /// at the scratch cursor to `outstr`, then moves the scratch cursor past
    /// the label. On a range past the buffer only the delimiter has been
    /// appended.
    fn qname_push(&mut self, outstr: &mut String, delim: &str, pos: &mut usize, len: u8) -> (r:
        Result<(), DnsError>)
        requires
            old(self).wf(),
        ensures
            *final(self) == *old(self),
            *old(pos) + len <= 512 ==> {
                &&& r == Ok::<(), DnsError>(())
                &&& *final(pos) == *old(pos) + len
                &&& final(outstr)@ == old(outstr)@ + delim@ + Seq::new(
                    len as nat,
                    |i: int| byte_to_lower_char(old(self).buf@[*old(pos) + i]),
                )
            },
            *old(pos) + len > 512 ==> {
                &&& r == Err::<(), DnsError>(DnsError::OutOfBounds)
                &&& final(outstr)@ == old(outstr)@ + delim@
                &&& *final(pos) == *old(pos)
            },
    {
        outstr.append(delim);
        let str_buf = match self.get_range(*pos, len as usize) {
            Ok(s) => s,
            Err(e) => {
                return Err(e);
            },
        };
        let ghost mid = outstr@;
        let mut i: usize = 0;
        while i < len as usize
            invariant
                i <= len,
                str_buf@.len() == len,
                str_buf@ == old(self).buf@.subrange(*old(pos) as int, *old(pos) + len),
                outstr@ == mid + Seq::new(i as nat, |j: int| byte_to_lower_char(str_buf@[j])),
            decreases len - i,
        {
            let c = lower_char_of_byte(str_buf[i]);
            push_char(outstr, c);
            proof {
                assert(outstr@ =~= mid + Seq::new(
                    (i + 1) as nat,
                    |j: int| byte_to_lower_char(str_buf@[j]),
                ));
            }
            i = i + 1;
        }
        proof {
            assert(Seq::new(len as nat, |j: int| byte_to_lower_char(str_buf@[j])) =~= Seq::new(
                len as nat,
                |j: int| byte_to_lower_char(old(self).buf@[*old(pos) + j]),
            ));
        }
        *pos = *pos + len as usize;
        Ok(())
    }

    /// Decodes one domain name at the cursor into `outstr`, lowercased and
    /// dot-joined, following up to five compression pointers. The cursor ends
    /// just past the name's bytes — past the first pointer when one occurred.
    /// The outcome and the cursor are exactly those of the spec model
    /// [`qname_decode`].
    pub fn read_qname(&mut self, outstr: &mut String) -> (r: Result<(), DnsError>)
        requires
            old(self).wf(),
        ensures
            final(self).wf(),
            final(self).buf@ == old(self).buf@,
            match qname_decode(old(self).buf@, old(self).pos as int, 0) {
                QnameRes::Done { name, end } => r == Ok::<(), DnsError>(()) && final(outstr)@
                    == old(outstr)@ + name && final(self).pos == end,
                QnameRes::OutOfBounds => r == Err::<(), DnsError>(DnsError::OutOfBounds),
                QnameRes::TooManyJumps => r == Err::<(), DnsError>(DnsError::JumpLimitExceeded),
            },
    {
        let ghost buf0 = self.buf@;
        let ghost start = self.pos as int;
        let ghost out0 = outstr@;
        let ghost mut acc: Seq<char> = Seq::empty();

        let mut pos = self.pos();
        let mut jumped = false;
        let mut num_jumps: u8 = 0;
        let max_jumps: u8 = 5;
        let mut delim = "";
        proof {
            reveal_strlit("");
            reveal_strlit(".");
            assert(out0 + acc =~= out0);
        }

        loop
            invariant_except_break
                self.wf(),
                self.buf@ == buf0,
                buf0 == old(self).buf@,
                start == old(self).pos,
                out0 == old(outstr)@,
                max_jumps == 5,
                num_jumps <= 6,
                pos < 16384,
                outstr@ == out0 + acc,
                delim@ == if acc.len() == 0 {
                    Seq::<char>::empty()
                } else {
                    seq!['.']
                },
                !jumped ==> self.pos == start,
                qname_decode(buf0, start, 0) == (match qname_decode(
                    buf0,
                    pos as int,
                    num_jumps as int,
                ) {
                    QnameRes::Done { name, end } => QnameRes::Done {
                        name: acc_join(acc, name),
                        end: if jumped {
                            self.pos as int
                        } else {
                            end
                        },
                    },
                    QnameRes::OutOfBounds => QnameRes::OutOfBounds,
                    QnameRes::TooManyJumps => QnameRes::TooManyJumps,
                }),
            ensures
                self.wf(),
                self.buf@ == buf0,
                buf0 == old(self).buf@,
                start == old(self).pos,
                out0 == old(outstr)@,
                outstr@ == out0 + acc,
                qname_decode(buf0, start, 0) == (QnameRes::Done {
                    name: acc,
                    end: self.pos as int,
                }),
            decreases 6 - num_jumps as int, 16384 - pos as int,
        {
            if num_jumps > max_jumps {
                return Err(jumps_limit(max_jumps));
            }
            let len = match self.get(pos) {
                Ok(l) => l,
                Err(e) => {
                    return Err(e);
                },
            };
            if (len & 0xC0) == 0xC0 {
                if !jumped {
                    match self.seek(pos + 2) {
                        Ok(()) => {},
                        Err(e) => {
                            return Err(e);
                        },
                    }
                }
                jumped = match self.qname_jump(&mut pos, len, &mut num_jumps) {
                    Ok(j) => j,
                    Err(e) => {
                        return Err(e);
                    },
                };
                continue;
            }

            pos = pos + 1;
            if len == 0 {
                proof {
                    assert(acc_join(acc, Seq::<char>::empty()) == acc);
                }
                if !jumped {
                    match self.seek(pos) {
                        Ok(()) => {},
                        Err(e) => {
                            proof {
                                assert(false);
                            }
                            return Err(e);
                        },
                    }
                }
                break;
            }

            let ghost label = Seq::new(
                len as nat,
                |i: int| byte_to_lower_char(buf0[pos as int + i]),
            );
            match self.qname_push(outstr, delim, &mut pos, len) {
                Ok(()) => {},
                Err(e) => {
                    return Err(e);
                },
            }
            proof {
                match qname_decode(buf0, pos as int, num_jumps as int) {
                    QnameRes::Done { name: n, end: e } => {
                        lemma_acc_join_step(acc, label, n);
                    },
                    _ => {},
                }
                acc = if acc.len() == 0 {
                    label
                } else {
                    acc + seq!['.'] + label
                };
                assert(outstr@ =~= out0 + acc);
            }
            delim = ".";
            proof {
                reveal_strlit(".");
                assert(delim@ =~= seq!['.']);
            }
        }

        Ok(())
    }
}

/// `content` written into `buf` at `pos`, octet for octet; everything else
/// unchanged.
pub open spec fn splice(buf: Seq<u8>, pos: int, content: Seq<u8>) -> Seq<u8> {
    Seq::new(buf.len(), |k: int| if pos <= k < pos + content.len() {
        content[k - pos]
    } else {
        buf[k]
    })
}

/// The index of the first dot octet in `b`, or `b.len()` when there is none.
pub open spec fn first_dot(b: Seq<u8>) -> int
    decreases b.len(),
{
    if b.len() == 0 {
        0
    } else if b[0] == 0x2E {
        0
    } else {
        1 + first_dot(b.drop_first())
    }
}

/// The labels of a name's bytes: the maximal runs between dot octets, in
/// order, kept even when empty.
pub open spec fn split_labels(b: Seq<u8>) -> Seq<Seq<u8>>
    decreases b.len(),
{
    let i = first_dot(b);
    if 0 <= i < b.len() {
        seq![b.subrange(0, i)] + split_labels(b.subrange(i + 1, b.len() as int))
    } else {
        seq![b]
    }
}

/// Writing a name's remaining bytes into `buf` at `pos`: each label becomes a
/// length octet and its bytes, a zero octet closes the name. A label of more
/// than 63 octets or a write past the buffer stops the encode.
pub open spec fn spec_write_qname(name: Seq<u8>, buf: Seq<u8>, pos: int) -> Result<
    (Seq<u8>, int),
    DnsError,
>
    decreases name.len(),
{
    let i = first_dot(name);
    let label = name.subrange(0, i);
    if label.len() > 63 {
        Err(DnsError::LabelTooLong)
    } else if pos < 0 || pos + 1 + label.len() > 512 {
        Err(DnsError::OutOfBounds)
    } else {
        let buf2 = splice(buf, pos, seq![label.len() as u8] + label);
        let pos2 = pos + 1 + i;
        if 0 <= i < name.len() {
            spec_write_qname(name.subrange(i + 1, name.len() as int), buf2, pos2)
        } else if pos2 + 1 > 512 {
            Err(DnsError::OutOfBounds)
        } else {
            Ok((buf2.update(pos2, 0u8), pos2 + 1))
        }
    }
}

/// The first dot's index never passes the end of the sequence.
pub proof fn lemma_first_dot_range(b: Seq<u8>)
    ensures
        0 <= first_dot(b) <= b.len(),
    decreases b.len(),
{
    if b.len() != 0 && b[0] != 0x2E {
        lemma_first_dot_range(b.drop_first());
    }
}

/// The first dot's index points at a dot, and nothing before it is one.
pub proof fn lemma_first_dot_spec(b: Seq<u8>)
    ensures
        0 <= first_dot(b) <= b.len(),
        first_dot(b) < b.len() ==> b[first_dot(b)] == 0x2E,
        forall|k: int| 0 <= k < first_dot(b) ==> b[k] != 0x2E,
    decreases b.len(),
{
    if b.len() != 0 && b[0] != 0x2E {
        lemma_first_dot_spec(b.drop_first());
        let i = first_dot(b);
        assert forall|k: int| 0 <= k < i implies b[k] != 0x2E by {
            if k > 0 {
                assert(b.drop_first()[k - 1] == b[k]);
            }
        }
        if i < b.len() {
            assert(b.drop_first()[i - 1] == b[i]);
        }
    }
}

/// A successful name write lands strictly past where it started, inside the
/// buffer, and keeps the buffer's length.
pub proof fn lemma_write_qname_range(name: Seq<u8>, buf: Seq<u8>, pos: int)
    requires
        buf.len() == 512,
    ensures
        spec_write_qname(name, buf, pos) is Ok ==> {
            let (b, p) = spec_write_qname(name, buf, pos)->Ok_0;
            pos < p <= 512 && b.len() == buf.len()
        },
    decreases name.len(),
{
    lemma_first_dot_range(name);
    let i = first_dot(name);
    let label = name.subrange(0, i);
    if label.len() <= 63 && pos >= 0 && pos + 1 + label.len() <= 512 {
        let buf2 = splice(buf, pos, seq![label.len() as u8] + label);
        let pos2 = pos + 1 + i;
        assert(buf2.len() == buf.len());
        if 0 <= i < name.len() {
            assert(spec_write_qname(name, buf, pos) == spec_write_qname(
                name.subrange(i + 1, name.len() as int),
                buf2,
                pos2,
            ));
            lemma_write_qname_range(name.subrange(i + 1, name.len() as int), buf2, pos2);
        } else {
            assert(i == name.len());
            if pos2 + 1 <= 512 {
                assert(spec_write_qname(name, buf, pos) == Ok::<(Seq<u8>, int), DnsError>(
                    (buf2.update(pos2, 0u8), pos2 + 1),
                ));
                assert(buf2.update(pos2, 0u8).len() == buf.len());
            }
        }
    } else {
        assert(spec_write_qname(name, buf, pos) is Err);
    }
}

/// `first_dot` is the scan that stops at the first dot octet.
proof fn lemma_first_dot_at(b: Seq<u8>, i: int)
    requires
        0 <= i <= b.len(),
        forall|k: int| 0 <= k < i ==> b[k] != 0x2E,
        i < b.len() ==> b[i] == 0x2E,
    ensures
        first_dot(b) == i,
    decreases i,
{
    if i > 0 {
        assert(b[0] != 0x2E);
        assert forall|k: int| 0 <= k < i - 1 implies b.drop_first()[k] != 0x2E by {
            assert(b.drop_first()[k] == b[k + 1]);
        }
        if i - 1 < b.drop_first().len() {
            assert(b.drop_first()[i - 1] == b[i]);
        }
        lemma_first_dot_at(b.drop_first(), i - 1);
    }
}

impl PacketBuffer {
    /// Writes the labels of `bytes` from index `from` on, each length-prefixed,
    /// then the closing zero octet, exactly as the spec model
    /// [`spec_write_qname`] lays them out.
    fn write_labels(&mut self, bytes: &[u8], from: usize) -> (r: Result<(), DnsError>)
        requires
            old(self).wf(),
            from <= bytes@.len(),
        ensures
            final(self).wf(),
            match spec_write_qname(
                bytes@.skip(from as int),
                old(self).buf@,
                old(self).pos as int,
            ) {
                Ok((b, p)) => {
                    &&& r == Ok::<(), DnsError>(())
                    &&& final(self).buf@ == b
                    &&& final(self).pos == p
                },
                Err(e) => r == Err::<(), DnsError>(e),
            },
        decreases bytes@.len() - from,
    {
        let ghost name = bytes@.skip(from as int);
        let n = bytes.len();
        let mut i = from;
        while i < n && bytes[i] != 0x2E
            invariant
                from <= i <= n,
                n == bytes@.len(),
                forall|k: int| from <= k < i ==> bytes@[k] != 0x2E,
            decreases n - i,
        {
            i = i + 1;
        }
        proof {
            assert forall|k: int| 0 <= k < i - from implies name[k] != 0x2E by {
                assert(name[k] == bytes@[from + k]);
            }
            if i < n {
                assert(name[i - from] == bytes@[i as int]);
            }
            lemma_first_dot_at(name, i - from);
            assert(name.subrange(0, i - from) =~= bytes@.subrange(from as int, i as int));
        }
        let llen = i - from;
        if llen > 63 {
            return Err(crate::errors::label_len_limit());
        }
        if self.pos > 512 || 1 + llen > 512 - self.pos {
            return Err(index_out_of_bound());
        }
        let ghost buf_in = self.buf@;
        let ghost pos_in = self.pos as int;
        let ghost content = seq![llen as u8] + name.subrange(0, i - from);
        match self.write(llen as u8) {
            Ok(()) => {},
            Err(_) => {
                proof {
                    assert(false);
                }
                return Err(index_out_of_bound());
            },
        }
        let mut j = from;
        while j < i
            invariant
                from <= j <= i <= n,
                n == bytes@.len(),
                self.wf(),
                i - from <= 63,
                pos_in + 1 + (i - from) <= 512,
                buf_in.len() == 512,
                content == seq![(i - from) as u8] + bytes@.subrange(from as int, i as int),
                self.pos == pos_in + 1 + (j - from),
                self.buf@ == splice(buf_in, pos_in, content.subrange(0, 1 + j - from)),
            decreases i - j,
        {
            let ghost before = self.buf@;
            match self.write(bytes[j]) {
                Ok(()) => {},
                Err(_) => {
                    proof {
                        assert(false);
                    }
                    return Err(index_out_of_bound());
                },
            }
            proof {
                assert(self.buf@ =~= splice(buf_in, pos_in, content.subrange(0, 1 + (j + 1) - from)));
            }
            j = j + 1;
        }
        proof {
            assert(content.subrange(0, 1 + i - from) =~= content);
        }
        if i == n {
            proof {
                assert(i - from == name.len());
            }
            match self.write(0u8) {
                Ok(()) => {},
                Err(e) => {
                    return Err(e);
                },
            }
            proof {
                assert(final(self).buf@ =~= splice(buf_in, pos_in, content).update(
                    pos_in + 1 + (i - from),
                    0u8,
                ));
            }
            Ok(())
        } else {
            proof {
                assert(name.subrange(i - from + 1, name.len() as int) =~= bytes@.skip(i + 1));
            }
            self.write_labels(bytes, i + 1)
        }
    }

    /// Encodes a domain name at the cursor: each dot-separated label as a
    /// length octet and its bytes, closed by a zero octet. A label of more
    /// than 63 octets fails the encode; no compression is emitted.
    pub fn write_qname(&mut self, qname: &str) -> (r: Result<(), DnsError>)
        requires
            old(self).wf(),
        ensures
            final(self).wf(),
            match spec_write_qname(qname.spec_bytes(), old(self).buf@, old(self).pos as int) {
                Ok((b, p)) => {
                    &&& r == Ok::<(), DnsError>(())
                    &&& final(self).buf@ == b
                    &&& final(self).pos == p
                },
                Err(e) => r == Err::<(), DnsError>(e),
            },
    {
        let bytes = qname.as_bytes();
        proof {
            assert(bytes@.skip(0) =~= qname.spec_bytes());
        }
        self.write_labels(bytes, 0)
    }
}

/// A character the name decoder may emit: never an ASCII capital, and either
/// plain ASCII or the replacement character — both untouched by lowercasing.
pub open spec fn lower_char(c: char) -> bool {
    !(65 <= c as int <= 90) && ((c as int) < 128 || (c as int) == 0xFFFD)
}

/// Whether every character of a name is already lower case.
pub open spec fn name_is_lowercase(s: Seq<char>) -> bool {
    forall|i: int| 0 <= i < s.len() ==> lower_char(#[trigger] s[i])
}

/// Every name the decoder yields equals its own lowercase form: each
/// character is folded as it is read, so no ASCII capital survives.
pub proof fn lemma_qname_decode_lowercase(buf: Seq<u8>, pos: int, jumps: int)
    ensures
        qname_decode(buf, pos, jumps) matches QnameRes::Done { name, .. }
            ==> name_is_lowercase(name),
    decreases 6 - jumps, 16384 - pos,
{
    if jumps > 5 || !(0 <= pos < 512) {
    } else {
        let len = buf[pos];
        if len & 0xC0 == 0xC0 {
            if pos + 1 < 512 {
                let target = ((len ^ 0xC0) as int) * 256 + buf[pos + 1];
                lemma_qname_decode_lowercase(buf, target, jumps + 1);
            }
        } else if len == 0 {
        } else if pos + 1 + len <= 512 {
            lemma_qname_decode_lowercase(buf, pos + 1 + len, jumps);
            let label = Seq::new(len as nat, |i: int| byte_to_lower_char(buf[pos + 1 + i]));
            assert forall|i: int| 0 <= i < label.len() implies lower_char(#[trigger] label[i]) by {
                assert(label[i] == byte_to_lower_char(buf[pos + 1 + i]));
            }
            match qname_decode(buf, pos + 1 + len, jumps) {
                QnameRes::Done { name, end } => {
                    assert forall|i: int|
                        0 <= i < join_name(label, name).len() implies lower_char(
                        #[trigger] join_name(label, name)[i],
                    ) by {
                        if name.len() != 0 {
                            assert(('.') as int == 46);
                        }
                    }
                },
                _ => {},
            }
        }
    }
}

} // verus!
