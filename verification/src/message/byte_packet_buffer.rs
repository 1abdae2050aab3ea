//! The 512-octet datagram buffer with its cursor, and the big-endian integer
//! and domain-name encodings that are read from it and written to it.

use super::name::{
    label_to_text, labels_fit, labels_of, labels_wire, lemma_labels_wire_take, name_at,
    name_problem, name_text, name_wire, split_labels, views, walk_after, MAX_JUMPS, MAX_LABEL,
    POINTER_TAG, NameWalk,
};
use vstd::prelude::*;
use vstd::string::*;

verus! {

/// What can go wrong while a datagram is read or written.
#[derive(Debug, Clone, Copy, PartialEq, Eq, Structural)]
pub enum BytePacketBufferError {
    /// A write would pass the end of the buffer.
    Overflow,
    /// A read, a peek or a cursor move would pass the end of the buffer.
    UnexpectedEof,
    /// A label of a name to be written is longer than 63 octets.
    InvalidDomainNameFormat,
    /// Decoding a name met a sixth compression pointer.
    ExceededJumpLimit,
    /// A compression pointer leads outside the buffer.
    MalformedPointer,
    /// The header holds an opcode that is not assigned.
    UnknownOpCode,
    /// The header holds a response code that is not assigned.
    UnknownRCode,
    /// The reserved header bit is set.
    ReservedBitSet,
    /// A question or a record holds a class code that is not assigned.
    UnknownClass,
    /// A CAA tag to be written is longer than 255 octets.
    InvalidTagLength,
}

/// The number of octets in a datagram.
pub const BUFFER_SIZE: usize = 512;

/// 256 to the power `n`.
pub open spec fn pow256(n: nat) -> nat
    decreases n,
{
    if n == 0 {
        1
    } else {
        256 * pow256((n - 1) as nat)
    }
}

/// The number that the octets `s` spell in big-endian order.
pub open spec fn be_value(s: Seq<u8>) -> nat
    decreases s.len(),
{
    if s.len() == 0 {
        0
    } else {
        be_value(s.drop_last()) * 256 + s.last() as nat
    }
}

/// The `n` low-order octets of `v` in big-endian order.
pub open spec fn be_bytes(v: nat, n: nat) -> Seq<u8>
    decreases n,
{
    if n == 0 {
        Seq::empty()
    } else {
        be_bytes(v / 256, (n - 1) as nat).push((v % 256) as u8)
    }
}

/// `buf` with `bytes` written over it from index `at` on.
pub open spec fn splice(buf: Seq<u8>, at: int, bytes: Seq<u8>) -> Seq<u8> {
    Seq::new(
        buf.len(),
        |i: int|
            if at <= i < at + bytes.len() {
                bytes[i - at]
            } else {
                buf[i]
            },
    )
}

/// Powers of 256 are positive.
pub proof fn lemma_pow256_positive(n: nat)
    ensures
        pow256(n) >= 1,
    decreases n,
{
    if n > 0 {
        lemma_pow256_positive((n - 1) as nat);
    }
}

/// The powers of 256 that bound the integers of one, two, four and sixteen
/// octets.
pub proof fn lemma_pow256_values()
    ensures
        pow256(0) == 1,
        pow256(1) == 0x100,
        pow256(2) == 0x1_0000,
        pow256(4) == 0x1_0000_0000,
        pow256(16) == 0x1_0000_0000_0000_0000_0000_0000_0000_0000,
{
    reveal_with_fuel(pow256, 17);
}

/// A higher power of 256 is no smaller.
pub proof fn lemma_pow256_monotonic(a: nat, b: nat)
    requires
        a <= b,
    ensures
        pow256(a) <= pow256(b),
    decreases b,
{
    if a < b {
        lemma_pow256_monotonic(a, (b - 1) as nat);
        lemma_pow256_positive((b - 1) as nat);
    }
}

/// `n` octets are `n` octets long.
pub proof fn lemma_be_bytes_len(v: nat, n: nat)
    ensures
        be_bytes(v, n).len() == n,
    decreases n,
{
    if n > 0 {
        lemma_be_bytes_len(v / 256, (n - 1) as nat);
    }
}

/// The number that `n` octets spell is below 256 to the power `n`.
pub proof fn lemma_be_value_bound(s: Seq<u8>)
    ensures
        be_value(s) < pow256(s.len()),
    decreases s.len(),
{
    if s.len() > 0 {
        lemma_be_value_bound(s.drop_last());
    }
}

/// Big-endian octets spell the number they were made from.
pub proof fn lemma_be_value_of_bytes(v: nat, n: nat)
    requires
        v < pow256(n),
    ensures
        be_value(be_bytes(v, n)) == v,
    decreases n,
{
    if n > 0 {
        let rest = be_bytes(v / 256, (n - 1) as nat);
        lemma_be_value_of_bytes(v / 256, (n - 1) as nat);
        assert(rest.push((v % 256) as u8).drop_last() =~= rest);
    }
}

/// Writing `a` and then `b` behind it is writing `a + b`.
pub proof fn lemma_splice_append(buf: Seq<u8>, at: int, a: Seq<u8>, b: Seq<u8>)
    requires
        0 <= at,
        at + a.len() + b.len() <= buf.len(),
    ensures
        splice(splice(buf, at, a), at + a.len(), b) == splice(buf, at, a + b),
{
}

/// `after` is `before` with `written` laid down from `start` on, and the
/// cursor behind it.
pub open spec fn carries(
    after: BytePacketBuffer,
    before: BytePacketBuffer,
    start: int,
    written: Seq<u8>,
) -> bool {
    &&& 0 <= start
    &&& after.pos == start + written.len()
    &&& after.pos <= BUFFER_SIZE
    &&& after.buf@ == splice(before.buf@, start, written)
}

/// What a write of `wire` at the cursor comes to: the error `problem` where
/// there is one, else `Overflow` where `wire` does not fit, in both cases with
/// nothing changed; else `wire` in the buffer and the cursor behind it.
pub open spec fn write_outcome(
    before: BytePacketBuffer,
    after: BytePacketBuffer,
    r: Result<(), BytePacketBufferError>,
    problem: Option<BytePacketBufferError>,
    wire: Seq<u8>,
) -> bool {
    match problem {
        Some(e) => r == Err::<(), BytePacketBufferError>(e) && after == before,
        None => if before.pos + wire.len() > BUFFER_SIZE {
            r == Err::<(), BytePacketBufferError>(BytePacketBufferError::Overflow) && after
                == before
        } else {
            r == Ok::<(), BytePacketBufferError>(()) && carries(
                after,
                before,
                before.pos as int,
                wire,
            )
        },
    }
}

/// A piece written behind what a buffer carries is carried too.
pub proof fn lemma_carries_more(
    after: BytePacketBuffer,
    mid: BytePacketBuffer,
    before: BytePacketBuffer,
    start: int,
    written: Seq<u8>,
    piece: Seq<u8>,
)
    requires
        carries(mid, before, start, written),
        after.pos == mid.pos + piece.len(),
        after.pos <= BUFFER_SIZE,
        after.buf@ == splice(mid.buf@, mid.pos as int, piece),
    ensures
        carries(after, before, start, written + piece),
{
    lemma_splice_append(before.buf@, start, written, piece);
}

/// A datagram: 512 octets and a cursor.
pub struct BytePacketBuffer {
    /// The octets of the datagram.
    pub buf: [u8; 512],
    /// The cursor: where the next read or write takes place.
    pub pos: usize,
}

impl BytePacketBuffer {
    /// The cursor lies inside the buffer or just past its end.
    pub open spec fn wf(&self) -> bool {
        self.pos <= BUFFER_SIZE
    }

    /// A buffer of zeroes with the cursor at the start.
    pub fn new() -> (r: BytePacketBuffer)
        ensures
            r.pos == 0,
            r.buf@ == Seq::new(512, |i: int| 0u8),
    {
        BytePacketBuffer { buf: [0u8; 512], pos: 0 }
    }

    /// The cursor.
    pub fn pos(&self) -> (p: usize)
        ensures
            p == self.pos,
    {
        self.pos
    }

    /// Moves the cursor forward by `steps`, unless that would pass the end.
    pub fn step(&mut self, steps: usize) -> (r: Result<(), BytePacketBufferError>)
        ensures
            old(self).wf() ==> final(self).wf(),
            final(self).buf == old(self).buf,
            old(self).pos + steps <= BUFFER_SIZE ==> r == Ok::<(), BytePacketBufferError>(())
                && final(self).pos == old(self).pos + steps,
            old(self).pos + steps > BUFFER_SIZE ==> r == Err::<(), BytePacketBufferError>(
                BytePacketBufferError::UnexpectedEof,
            ) && final(self).pos == old(self).pos,
    {
        if self.pos > BUFFER_SIZE || steps > BUFFER_SIZE - self.pos {
            Err(BytePacketBufferError::UnexpectedEof)
        } else {
            self.pos = self.pos + steps;
            Ok(())
        }
    }

    /// Sets the cursor to `pos`, unless that lies past the end.
    pub fn seek(&mut self, pos: usize) -> (r: Result<(), BytePacketBufferError>)
        ensures
            old(self).wf() ==> final(self).wf(),
            final(self).buf == old(self).buf,
            pos <= BUFFER_SIZE ==> r == Ok::<(), BytePacketBufferError>(()) && final(self).pos
                == pos,
            pos > BUFFER_SIZE ==> r == Err::<(), BytePacketBufferError>(
                BytePacketBufferError::UnexpectedEof,
            ) && final(self).pos == old(self).pos,
    {
        if pos > BUFFER_SIZE {
            Err(BytePacketBufferError::UnexpectedEof)
        } else {
            self.pos = pos;
            Ok(())
        }
    }

    /// Reads the octet under the cursor and moves the cursor past it.
    pub fn read_u8(&mut self) -> (r: Result<u8, BytePacketBufferError>)
        ensures
            old(self).wf() ==> final(self).wf(),
            final(self).buf == old(self).buf,
            old(self).pos < BUFFER_SIZE ==> r == Ok::<u8, BytePacketBufferError>(
                old(self).buf@[old(self).pos as int],
            ) && final(self).pos == old(self).pos + 1,
            old(self).pos >= BUFFER_SIZE ==> r == Err::<u8, BytePacketBufferError>(
                BytePacketBufferError::UnexpectedEof,
            ) && final(self).pos == old(self).pos,
    {
        if self.pos >= BUFFER_SIZE {
            Err(BytePacketBufferError::UnexpectedEof)
        } else {
            let res: u8 = self.buf[self.pos];
            self.pos = self.pos + 1;
            Ok(res)
        }
    }

    /// The octet at `pos`; the cursor stays.
    pub fn get_byte(&self, pos: usize) -> (r: Result<u8, BytePacketBufferError>)
        ensures
            pos < BUFFER_SIZE ==> r == Ok::<u8, BytePacketBufferError>(self.buf@[pos as int]),
            pos >= BUFFER_SIZE ==> r == Err::<u8, BytePacketBufferError>(
                BytePacketBufferError::UnexpectedEof,
            ),
    {
        if pos >= BUFFER_SIZE {
            Err(BytePacketBufferError::UnexpectedEof)
        } else {
            Ok(self.buf[pos])
        }
    }

    /// The `len` octets from `start` on; the cursor stays.
    pub fn get_byte_range(&self, start: usize, len: usize) -> (r: Result<
        &[u8],
        BytePacketBufferError,
    >)
        ensures
            start + len <= BUFFER_SIZE ==> r is Ok && r->Ok_0@ == self.buf@.subrange(
                start as int,
                start + len,
            ),
            start + len > BUFFER_SIZE ==> r == Err::<&[u8], BytePacketBufferError>(
                BytePacketBufferError::UnexpectedEof,
            ),
    {
        if start > BUFFER_SIZE || len > BUFFER_SIZE - start {
            Err(BytePacketBufferError::UnexpectedEof)
        } else {
            Ok(vstd::slice::slice_subrange(self.buf.as_slice(), start, start + len))
        }
    }

    /// The big-endian number spelled by the `n` octets from `start` on.
    fn peek_be(&self, start: usize, n: usize) -> (v: u128)
        requires
            n <= 16,
            start + n <= BUFFER_SIZE,
        ensures
            v == be_value(self.buf@.subrange(start as int, start + n)),
            v < pow256(n as nat),
    {
        let mut result: u128 = 0;
        let mut i: usize = 0;
        while i < n
            invariant
                i <= n <= 16,
                start + n <= BUFFER_SIZE,
                result == be_value(self.buf@.subrange(start as int, start + i)),
            decreases n - i,
        {
            let b: u8 = self.buf[start + i];
            proof {
                let so_far = self.buf@.subrange(start as int, start + i);
                let next = self.buf@.subrange(start as int, start + i + 1);
                lemma_be_value_bound(so_far);
                lemma_pow256_monotonic(i as nat, 15);
                lemma_pow256_values();
                assert(next.drop_last() =~= so_far);
            }
            result = result * 256 + b as u128;
            i = i + 1;
        }
        proof {
            lemma_be_value_bound(self.buf@.subrange(start as int, start + n));
        }
        result
    }

    /// Writes the `n` low-order octets of `val` in big-endian order under the
    /// cursor and moves the cursor past them.
    fn put_be(&mut self, val: u128, n: usize)
        requires
            n <= 16,
            old(self).pos + n <= BUFFER_SIZE,
        ensures
            old(self).wf() ==> final(self).wf(),
            final(self).pos == old(self).pos + n,
            final(self).buf@ == splice(
                old(self).buf@, old(self).pos as int, be_bytes(val as nat, n as nat),
            ),
    {
        let start: usize = self.pos;
        let ghost before = self.buf@;
        let mut v: u128 = val;
        let mut k: usize = n;
        while k > 0
            invariant
                k <= n <= 16,
                start + n <= BUFFER_SIZE,
                self.pos == start,
                be_bytes(val as nat, n as nat) =~= be_bytes(v as nat, k as nat)
                    + self.buf@.subrange(start + k, start + n),
                forall|j: int|
                    0 <= j < 512 && !(start + k <= j < start + n) ==> self.buf@[j] == before[j],
            decreases k,
        {
            k = k - 1;
            let b: u8 = (v % 256) as u8;
            self.buf[start + k] = b;
            v = v / 256;
        }
        self.pos = start + n;
        proof {
            lemma_be_bytes_len(val as nat, n as nat);
        }
    }

    /// Reads two octets as a big-endian number and moves the cursor past them.
    pub fn read_u16(&mut self) -> (r: Result<u16, BytePacketBufferError>)
        ensures
            old(self).wf() ==> final(self).wf(),
            final(self).buf == old(self).buf,
            old(self).pos + 2 <= BUFFER_SIZE ==> r is Ok && r->Ok_0 == be_value(
                old(self).buf@.subrange(old(self).pos as int, old(self).pos + 2),
            ) && final(self).pos == old(self).pos + 2,
            old(self).pos + 2 > BUFFER_SIZE ==> r == Err::<u16, BytePacketBufferError>(
                BytePacketBufferError::UnexpectedEof,
            ) && final(self).pos == old(self).pos,
    {
        if self.pos > BUFFER_SIZE - 2 {
            Err(BytePacketBufferError::UnexpectedEof)
        } else {
            let v: u128 = self.peek_be(self.pos, 2);
            proof {
                lemma_pow256_values();
            }
            self.pos = self.pos + 2;
            Ok(v as u16)
        }
    }

    /// Reads four octets as a big-endian number and moves the cursor past them.
    pub fn read_u32(&mut self) -> (r: Result<u32, BytePacketBufferError>)
        ensures
            old(self).wf() ==> final(self).wf(),
            final(self).buf == old(self).buf,
            old(self).pos + 4 <= BUFFER_SIZE ==> r is Ok && r->Ok_0 == be_value(
                old(self).buf@.subrange(old(self).pos as int, old(self).pos + 4),
            ) && final(self).pos == old(self).pos + 4,
            old(self).pos + 4 > BUFFER_SIZE ==> r == Err::<u32, BytePacketBufferError>(
                BytePacketBufferError::UnexpectedEof,
            ) && final(self).pos == old(self).pos,
    {
        if self.pos > BUFFER_SIZE - 4 {
            Err(BytePacketBufferError::UnexpectedEof)
        } else {
            let v: u128 = self.peek_be(self.pos, 4);
            proof {
                lemma_pow256_values();
            }
            self.pos = self.pos + 4;
            Ok(v as u32)
        }
    }

    /// Reads sixteen octets as a big-endian number and moves the cursor past
    /// them.
    pub fn read_u128(&mut self) -> (r: Result<u128, BytePacketBufferError>)
        ensures
            old(self).wf() ==> final(self).wf(),
            final(self).buf == old(self).buf,
            old(self).pos + 16 <= BUFFER_SIZE ==> r is Ok && r->Ok_0 == be_value(
                old(self).buf@.subrange(old(self).pos as int, old(self).pos + 16),
            ) && final(self).pos == old(self).pos + 16,
            old(self).pos + 16 > BUFFER_SIZE ==> r == Err::<u128, BytePacketBufferError>(
                BytePacketBufferError::UnexpectedEof,
            ) && final(self).pos == old(self).pos,
    {
        if self.pos > BUFFER_SIZE - 16 {
            Err(BytePacketBufferError::UnexpectedEof)
        } else {
            let v: u128 = self.peek_be(self.pos, 16);
            self.pos = self.pos + 16;
            Ok(v)
        }
    }

    /// Writes `val` under the cursor and moves the cursor past it.
    pub fn write_u8(&mut self, val: u8) -> (r: Result<(), BytePacketBufferError>)
        ensures
            old(self).wf() ==> final(self).wf(),
            old(self).pos < BUFFER_SIZE ==> r == Ok::<(), BytePacketBufferError>(())
                && final(self).pos == old(self).pos + 1 && final(self).buf@ == splice(
                old(self).buf@,
                old(self).pos as int,
                seq![val],
            ),
            old(self).pos >= BUFFER_SIZE ==> r == Err::<(), BytePacketBufferError>(
                BytePacketBufferError::Overflow,
            ) && *final(self) == *old(self),
    {
        if self.pos >= BUFFER_SIZE {
            Err(BytePacketBufferError::Overflow)
        } else {
            self.put_u8(val);
            Ok(())
        }
    }

    /// Writes `val` as two big-endian octets and moves the cursor past them.
    /// Where they do not fit, nothing is written.
    pub fn write_u16(&mut self, val: u16) -> (r: Result<(), BytePacketBufferError>)
        ensures
            old(self).wf() ==> final(self).wf(),
            old(self).pos + 2 <= BUFFER_SIZE ==> r == Ok::<(), BytePacketBufferError>(())
                && final(self).pos == old(self).pos + 2 && final(self).buf@ == splice(
                old(self).buf@,
                old(self).pos as int,
                be_bytes(val as nat, 2),
            ),
            old(self).pos + 2 > BUFFER_SIZE ==> r == Err::<(), BytePacketBufferError>(
                BytePacketBufferError::Overflow,
            ) && *final(self) == *old(self),
    {
        if self.pos > BUFFER_SIZE - 2 {
            Err(BytePacketBufferError::Overflow)
        } else {
            self.put_be(val as u128, 2);
            Ok(())
        }
    }

    /// Writes `val` as four big-endian octets and moves the cursor past them.
    /// Where they do not fit, nothing is written.
    pub fn write_u32(&mut self, val: u32) -> (r: Result<(), BytePacketBufferError>)
        ensures
            old(self).wf() ==> final(self).wf(),
            old(self).pos + 4 <= BUFFER_SIZE ==> r == Ok::<(), BytePacketBufferError>(())
                && final(self).pos == old(self).pos + 4 && final(self).buf@ == splice(
                old(self).buf@,
                old(self).pos as int,
                be_bytes(val as nat, 4),
            ),
            old(self).pos + 4 > BUFFER_SIZE ==> r == Err::<(), BytePacketBufferError>(
                BytePacketBufferError::Overflow,
            ) && *final(self) == *old(self),
    {
        if self.pos > BUFFER_SIZE - 4 {
            Err(BytePacketBufferError::Overflow)
        } else {
            self.put_be(val as u128, 4);
            Ok(())
        }
    }

    /// Writes `val` as sixteen big-endian octets and moves the cursor past
    /// them. Where they do not fit, nothing is written.
    pub fn write_u128(&mut self, val: u128) -> (r: Result<(), BytePacketBufferError>)
        ensures
            old(self).wf() ==> final(self).wf(),
            old(self).pos + 16 <= BUFFER_SIZE ==> r == Ok::<(), BytePacketBufferError>(())
                && final(self).pos == old(self).pos + 16 && final(self).buf@ == splice(
                old(self).buf@,
                old(self).pos as int,
                be_bytes(val as nat, 16),
            ),
            old(self).pos + 16 > BUFFER_SIZE ==> r == Err::<(), BytePacketBufferError>(
                BytePacketBufferError::Overflow,
            ) && *final(self) == *old(self),
    {
        if self.pos > BUFFER_SIZE - 16 {
            Err(BytePacketBufferError::Overflow)
        } else {
            self.put_be(val, 16);
            Ok(())
        }
    }

    /// Writes `val` under the cursor, where there is room for it.
    fn put_u8(&mut self, val: u8)
        requires
            old(self).pos < BUFFER_SIZE,
        ensures
            old(self).wf() ==> final(self).wf(),
            final(self).pos == old(self).pos + 1,
            final(self).buf@ == splice(old(self).buf@, old(self).pos as int, seq![val]),
    {
        self.buf[self.pos] = val;
        self.pos = self.pos + 1;
    }

    /// Writes `bytes` under the cursor, where there is room for them.
    fn put_bytes(&mut self, bytes: &[u8])
        requires
            old(self).pos + bytes@.len() <= BUFFER_SIZE,
        ensures
            old(self).wf() ==> final(self).wf(),
            final(self).pos == old(self).pos + bytes@.len(),
            final(self).buf@ == splice(old(self).buf@, old(self).pos as int, bytes@),
    {
        let n: usize = bytes.len();
        let start: usize = self.pos;
        let ghost before = self.buf@;
        let mut i: usize = 0;
        while i < n
            invariant
                i <= n,
                n == bytes@.len(),
                start + n <= BUFFER_SIZE,
                self.pos == start + i,
                before.len() == 512,
                self.buf@ == splice(before, start as int, bytes@.take(i as int)),
            decreases n - i,
        {
            self.buf[self.pos] = bytes[i];
            self.pos = self.pos + 1;
            i = i + 1;
        }
    }

    /// Writes `bytes` under the cursor and moves the cursor past them. Where
    /// they do not fit, nothing is written.
    pub fn write_bytes(&mut self, bytes: &[u8]) -> (r: Result<(), BytePacketBufferError>)
        ensures
            old(self).wf() ==> final(self).wf(),
            old(self).pos + bytes@.len() <= BUFFER_SIZE ==> r == Ok::<(), BytePacketBufferError>(
                (),
            ) && final(self).pos == old(self).pos + bytes@.len() && final(self).buf@ == splice(
                old(self).buf@,
                old(self).pos as int,
                bytes@,
            ),
            old(self).pos + bytes@.len() > BUFFER_SIZE ==> r == Err::<(), BytePacketBufferError>(
                BytePacketBufferError::Overflow,
            ) && *final(self) == *old(self),
    {
        if self.pos > BUFFER_SIZE || bytes.len() > BUFFER_SIZE - self.pos {
            Err(BytePacketBufferError::Overflow)
        } else {
            self.put_bytes(bytes);
            Ok(())
        }
    }

    /// Reads `len` octets and moves the cursor past them.
    pub fn read_bytes(&mut self, len: usize) -> (r: Result<Vec<u8>, BytePacketBufferError>)
        ensures
            old(self).wf() ==> final(self).wf(),
            final(self).buf == old(self).buf,
            old(self).pos + len <= BUFFER_SIZE ==> r is Ok && r->Ok_0@ == old(self).buf@.subrange(
                old(self).pos as int,
                old(self).pos + len,
            ) && final(self).pos == old(self).pos + len,
            old(self).pos + len > BUFFER_SIZE ==> r == Err::<Vec<u8>, BytePacketBufferError>(
                BytePacketBufferError::UnexpectedEof,
            ) && final(self).pos == old(self).pos,
    {
        if self.pos > BUFFER_SIZE || len > BUFFER_SIZE - self.pos {
            Err(BytePacketBufferError::UnexpectedEof)
        } else {
            let start: usize = self.pos;
            let out: Vec<u8> = vstd::slice::slice_to_vec(
                vstd::slice::slice_subrange(self.buf.as_slice(), start, start + len),
            );
            self.pos = start + len;
            Ok(out)
        }
    }

    /// Writes `qname` as length-prefixed labels and a closing zero octet, and
    /// moves the cursor past them. Empty labels are left out. Nothing is
    /// written where a label is longer than 63 octets, or where the name does
    /// not fit.
    pub fn write_qname(&mut self, qname: &str) -> (r: Result<(), BytePacketBufferError>)
        ensures
            old(self).wf() ==> final(self).wf(),
            write_outcome(
                *old(self),
                *final(self),
                r,
                name_problem(qname.spec_bytes()),
                name_wire(qname.spec_bytes()),
            ),
    {
        let labels: Vec<Vec<u8>> = split_labels(qname.as_bytes());
        let ghost all = views(labels@);
        let count: usize = labels.len();
        let mut i: usize = 0;
        while i < count
            invariant
                i <= count,
                count == labels@.len(),
                all == views(labels@),
                all == labels_of(qname.spec_bytes()),
                *self == *old(self),
                forall|k: int| 0 <= k < i ==> (#[trigger] all[k]).len() <= MAX_LABEL,
            decreases count - i,
        {
            if labels[i].len() > MAX_LABEL {
                assert(all[i as int].len() > MAX_LABEL);
                return Err(BytePacketBufferError::InvalidDomainNameFormat);
            }
            i = i + 1;
        }
        if self.pos >= BUFFER_SIZE {
            return Err(BytePacketBufferError::Overflow);
        }
        let mut room: usize = BUFFER_SIZE - self.pos - 1;
        i = 0;
        while i < count
            invariant
                i <= count,
                count == labels@.len(),
                all == views(labels@),
                labels_fit(all),
                all == labels_of(qname.spec_bytes()),
                *self == *old(self),
                self.pos < BUFFER_SIZE,
                room + labels_wire(all.take(i as int)).len() + 1 == BUFFER_SIZE - self.pos,
            decreases count - i,
        {
            proof {
                lemma_labels_wire_take(all, i as int);
            }
            let need: usize = labels[i].len() + 1;
            if need > room {
                return Err(BytePacketBufferError::Overflow);
            }
            room = room - need;
            i = i + 1;
        }
        assert(all.take(count as int) =~= all);
        let start: usize = self.pos;
        let ghost before = self.buf@;
        i = 0;
        while i < count
            invariant
                i <= count,
                count == labels@.len(),
                all == views(labels@),
                labels_fit(all),
                before.len() == 512,
                start + labels_wire(all).len() + 1 <= BUFFER_SIZE,
                self.pos == start + labels_wire(all.take(i as int)).len(),
                self.buf@ == splice(before, start as int, labels_wire(all.take(i as int))),
            decreases count - i,
        {
            let ghost written = labels_wire(all.take(i as int));
            proof {
                lemma_labels_wire_take(all, i as int);
            }
            let len: usize = labels[i].len();
            self.put_u8(len as u8);
            self.put_bytes(labels[i].as_slice());
            proof {
                let head = seq![len as u8];
                lemma_splice_append(before, start as int, written, head);
                lemma_splice_append(before, start as int, written + head, all[i as int]);
            }
            i = i + 1;
        }
        self.put_u8(0);
        proof {
            lemma_splice_append(before, start as int, labels_wire(all), seq![0u8]);
            assert(labels_wire(all) + seq![0u8] =~= labels_wire(all).push(0u8));
        }
        Ok(())
    }

    /// Reads the name under the cursor, follows its compression pointers, and
    /// appends its dotted lower-case text to `outstr`. The cursor ends behind
    /// the name, or behind the first pointer where there is one. Where the
    /// name cannot be read, nothing changes.
    pub fn read_qname(&mut self, outstr: &mut String) -> (r: Result<(), BytePacketBufferError>)
        ensures
            old(self).wf() ==> final(self).wf(),
            final(self).buf == old(self).buf,
            match name_at(old(self).buf@, old(self).pos as int, 0) {
                Ok(walk) => r == Ok::<(), BytePacketBufferError>(()) && final(self).pos
                    == walk.end && final(outstr)@ == old(outstr)@ + name_text(walk.labels),
                Err(e) => r == Err::<(), BytePacketBufferError>(e) && *final(self) == *old(self)
                    && final(outstr)@ == old(outstr)@,
            },
    {
        if self.pos >= BUFFER_SIZE {
            return Err(BytePacketBufferError::UnexpectedEof);
        }
        let mut p: usize = self.pos;
        let mut jumps: usize = 0;
        let mut pointer_end: Option<usize> = None;
        let mut name: String = String::new();
        let mut started: bool = false;
        let ghost mut done: Seq<Seq<u8>> = Seq::empty();
        let ghost whole = name_at(self.buf@, self.pos as int, 0);
        loop
            invariant_except_break
                jumps <= MAX_JUMPS,
                whole == walk_after(
                    done,
                    match pointer_end {
                        Some(e) => Some(e as int),
                        None => None,
                    },
                    name_at(self.buf@, p as int, jumps as nat),
                ),
            invariant
                *self == *old(self),
                *outstr == *old(outstr),
                whole == name_at(old(self).buf@, old(self).pos as int, 0),
                name@ == name_text(done),
                started <==> done.len() > 0,
                pointer_end matches Some(e) ==> e <= BUFFER_SIZE,
                p <= BUFFER_SIZE,
            ensures
                whole == Ok::<NameWalk, BytePacketBufferError>(
                    NameWalk {
                        labels: done,
                        end: match pointer_end {
                            Some(e) => e as int,
                            None => p as int,
                        },
                    },
                ),
            decreases MAX_JUMPS - jumps, BUFFER_SIZE - p,
        {
            let len: u8 = match self.get_byte(p) {
                Ok(b) => b,
                Err(e) => {
                    return Err(e);
                },
            };
            if len >= POINTER_TAG {
                let low: u8 = match self.get_byte(p + 1) {
                    Ok(b) => b,
                    Err(e) => {
                        return Err(e);
                    },
                };
                if jumps >= MAX_JUMPS {
                    return Err(BytePacketBufferError::ExceededJumpLimit);
                }
                let target: usize = (len - POINTER_TAG) as usize * 256 + low as usize;
                if target >= BUFFER_SIZE {
                    return Err(BytePacketBufferError::MalformedPointer);
                }
                if pointer_end.is_none() {
                    pointer_end = Some(p + 2);
                }
                p = target;
                jumps = jumps + 1;
            } else if len == 0 {
                p = p + 1;
                break ;
            } else {
                let label: &[u8] = match self.get_byte_range(p + 1, len as usize) {
                    Ok(l) => l,
                    Err(e) => {
                        return Err(e);
                    },
                };
                let text: String = label_to_text(label);
                if started {
                    proof {
                        reveal_strlit(".");
                    }
                    name.append(".");
                }
                name.append(text.as_str());
                proof {
                    let next = p + 1 + len;
                    let more = done.push(label@);
                    assert(more.drop_last() =~= done);
                    match name_at(self.buf@, next, jumps as nat) {
                        Ok(walk) => {
                            assert(done + (seq![label@] + walk.labels) =~= more + walk.labels);
                        },
                        Err(_) => {},
                    }
                    done = more;
                }
                started = true;
                p = p + 1 + len as usize;
            }
        }
        self.pos =
        match pointer_end {
            Some(e) => e,
            None => p,
        };
        outstr.append(name.as_str());
        Ok(())
    }
}

} // verus!
