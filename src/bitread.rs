use vstd::prelude::*;

verus! {

/// Bit `i` of `buf` read most significant bit first; zero past the end.
pub open spec fn bit_be(buf: Seq<u8>, i: nat) -> nat {
    if i / 8 < buf.len() {
        ((buf[(i / 8) as int] >> ((7 - i % 8) as u8)) & 1u8) as nat
    } else {
        0
    }
}

/// Bit `i` counted from the tail of `buf`, least significant bit of the last byte first;
/// zero past the start.
pub open spec fn bit_rev(buf: Seq<u8>, i: nat) -> nat {
    if i / 8 < buf.len() {
        ((buf[buf.len() - 1 - (i / 8) as int] >> ((i % 8) as u8)) & 1u8) as nat
    } else {
        0
    }
}

pub open spec fn pow2(n: nat) -> nat
    decreases n,
{
    if n == 0 {
        1
    } else {
        2 * pow2((n - 1) as nat)
    }
}

/// The `n` bits from position `pos` on, the first one the most significant.
pub open spec fn bits_be(buf: Seq<u8>, pos: nat, n: nat) -> nat
    decreases n,
{
    if n == 0 {
        0
    } else {
        2 * bits_be(buf, pos, (n - 1) as nat) + bit_be(buf, (pos + n - 1) as nat)
    }
}

/// The `n` bits from tail position `pos` on, the first one the least significant.
pub open spec fn bits_rev(buf: Seq<u8>, pos: nat, n: nat) -> nat
    decreases n,
{
    if n == 0 {
        0
    } else {
        bit_rev(buf, pos) + 2 * bits_rev(buf, pos + 1, (n - 1) as nat)
    }
}

/// Where a cursor stands after moving `n` bits on from `pos`: it stops at the end of the buffer,
/// past which every bit reads as zero.
pub open spec fn advance(buf: Seq<u8>, pos: nat, n: nat) -> nat {
    if pos + n <= 8 * buf.len() {
        pos + n
    } else {
        8 * buf.len()
    }
}

proof fn lemma_low_bit(b: u8, s: u8)
    by (bit_vector)
    ensures
        (b >> s) & 1u8 <= 1u8,
{
}

proof fn lemma_bits_at_most_one(buf: Seq<u8>, i: nat)
    ensures
        bit_be(buf, i) <= 1,
        bit_rev(buf, i) <= 1,
{
    if i / 8 < buf.len() {
        lemma_low_bit(buf[(i / 8) as int], (7 - i % 8) as u8);
        lemma_low_bit(buf[buf.len() - 1 - (i / 8) as int], (i % 8) as u8);
    }
}

pub proof fn lemma_pow2_mono(a: nat, b: nat)
    requires
        a <= b,
    ensures
        pow2(a) <= pow2(b),
    decreases b - a,
{
    if a < b {
        lemma_pow2_mono(a, (b - 1) as nat);
    }
}

pub proof fn lemma_pow2_32()
    ensures
        pow2(32) == 0x1_0000_0000,
{
    reveal_with_fuel(pow2, 33);
}

pub proof fn lemma_bits_be_bound(buf: Seq<u8>, pos: nat, n: nat)
    ensures
        bits_be(buf, pos, n) < pow2(n),
    decreases n,
{
    if n > 0 {
        lemma_bits_be_bound(buf, pos, (n - 1) as nat);
        lemma_bits_at_most_one(buf, (pos + n - 1) as nat);
    }
}

pub proof fn lemma_bits_rev_bound(buf: Seq<u8>, pos: nat, n: nat)
    ensures
        bits_rev(buf, pos, n) < pow2(n),
    decreases n,
{
    if n > 0 {
        lemma_bits_rev_bound(buf, pos + 1, (n - 1) as nat);
        lemma_bits_at_most_one(buf, pos);
    }
}

/// Bits past the end of the buffer read as zero, so a cursor that stops there reads the same.
proof fn lemma_past_end(buf: Seq<u8>, pos: nat, n: nat)
    requires
        pos >= 8 * buf.len(),
    ensures
        bits_be(buf, pos, n) == 0,
        bits_rev(buf, pos, n) == 0,
    decreases n,
{
    if n > 0 {
        lemma_past_end(buf, pos, (n - 1) as nat);
        lemma_past_end(buf, pos + 1, (n - 1) as nat);
    }
}

fn get_bit_be(buf: &[u8], i: usize) -> (r: u32)
    ensures
        r as nat == bit_be(buf@, i as nat),
        r <= 1,
{
    if i / 8 < buf.len() {
        let b = buf[i / 8];
        let s = (7 - i % 8) as u8;
        let r = (b >> s) & 1u8;
        proof {
            lemma_low_bit(b, s);
        }
        r as u32
    } else {
        0
    }
}

fn get_bit_rev(buf: &[u8], i: usize) -> (r: u32)
    ensures
        r as nat == bit_rev(buf@, i as nat),
        r <= 1,
{
    if i / 8 < buf.len() {
        let b = buf[buf.len() - 1 - i / 8];
        let s = (i % 8) as u8;
        let r = (b >> s) & 1u8;
        proof {
            lemma_low_bit(b, s);
        }
        r as u32
    } else {
        0
    }
}

/// A cursor that reads bits from the front of a byte buffer, most significant bit first.
pub struct BitReadBE<'a> {
    buffer: &'a [u8],
    index: usize,
}

/// A cursor that reads bits from the tail of a byte buffer backwards, least significant bit of
/// the last byte first.
pub struct ReverseBitReadLE<'a> {
    buffer: &'a [u8],
    index: usize,
}

impl<'a> BitReadBE<'a> {
    pub closed spec fn data(&self) -> Seq<u8> {
        self.buffer@
    }

    /// How many bits have been read.
    pub closed spec fn pos(&self) -> nat {
        self.index as nat
    }

    pub closed spec fn wf(&self) -> bool {
        &&& 8 * self.buffer@.len() <= usize::MAX
        &&& self.index <= 8 * self.buffer@.len()
    }

    /// Length of the buffer in bytes.
    pub fn len(&self) -> (r: usize)
        ensures
            r == self.data().len(),
    {
        self.buffer.len()
    }

    pub fn new(buffer: &'a [u8]) -> (r: Self)
        requires
            8 * buffer@.len() <= usize::MAX,
        ensures
            r.wf(),
            r.data() == buffer@,
            r.pos() == 0,
    {
        BitReadBE { buffer, index: 0 }
    }

    /// Reads `n` bits, the first one the most significant.
    pub fn get_bits_32(&mut self, n: usize) -> (r: u32)
        requires
            old(self).wf(),
            n <= 32,
        ensures
            final(self).wf(),
            final(self).data() == old(self).data(),
            final(self).pos() == advance(old(self).data(), old(self).pos(), n as nat),
            r as nat == bits_be(old(self).data(), old(self).pos(), n as nat),
    {
        let ghost buf = self.buffer@;
        let ghost pos = self.index as nat;
        let mut v: u64 = 0;
        let mut k: usize = 0;
        while k < n
            invariant
                self.buffer@ == buf,
                self.index as nat == pos,
                8 * buf.len() <= usize::MAX,
                pos <= 8 * buf.len(),
                k <= n,
                n <= 32,
                v as nat == bits_be(buf, pos, k as nat),
            decreases n - k,
        {
            proof {
                lemma_bits_be_bound(buf, pos, k as nat);
                lemma_pow2_mono(k as nat, 31);
                lemma_pow2_32();
            }
            let i = if self.index <= usize::MAX - k { self.index + k } else { usize::MAX };
            let b = if self.index <= usize::MAX - k {
                get_bit_be(self.buffer, i)
            } else {
                0
            };
            proof {
                if self.index > usize::MAX - k {
                    lemma_past_end(buf, (pos + k) as nat, 1);
                }
            }
            v = 2 * v + b as u64;
            k = k + 1;
        }
        proof {
            lemma_bits_be_bound(buf, pos, n as nat);
            lemma_pow2_mono(n as nat, 32);
            lemma_pow2_32();
        }
        let len8 = 8 * self.buffer.len();
        self.index = if n <= len8 - self.index { self.index + n } else { len8 };
        v as u32
    }
}

impl<'a> ReverseBitReadLE<'a> {
    pub closed spec fn data(&self) -> Seq<u8> {
        self.buffer@
    }

    /// How many bits have been read.
    pub closed spec fn pos(&self) -> nat {
        self.index as nat
    }

    pub closed spec fn wf(&self) -> bool {
        &&& 8 * self.buffer@.len() <= usize::MAX
        &&& self.index <= 8 * self.buffer@.len()
    }

    pub fn new(buffer: &'a [u8]) -> (r: Self)
        requires
            8 * buffer@.len() <= usize::MAX,
        ensures
            r.wf(),
            r.data() == buffer@,
            r.pos() == 0,
    {
        ReverseBitReadLE { buffer, index: 0 }
    }

    /// Reads `n` bits from the tail, the first one the least significant.
    pub fn get_bits_32(&mut self, n: usize) -> (r: u32)
        requires
            old(self).wf(),
            n <= 32,
        ensures
            final(self).wf(),
            final(self).data() == old(self).data(),
            final(self).pos() == advance(old(self).data(), old(self).pos(), n as nat),
            r as nat == bits_rev(old(self).data(), old(self).pos(), n as nat),
    {
        let ghost buf = self.buffer@;
        let ghost pos = self.index as nat;
        let mut v: u64 = 0;
        let mut k: usize = n;
        while k > 0
            invariant
                self.buffer@ == buf,
                self.index as nat == pos,
                8 * buf.len() <= usize::MAX,
                pos <= 8 * buf.len(),
                k <= n,
                n <= 32,
                v as nat == bits_rev(buf, (pos + k) as nat, (n - k) as nat),
            decreases k,
        {
            proof {
                lemma_bits_rev_bound(buf, (pos + k) as nat, (n - k) as nat);
                lemma_pow2_mono((n - k) as nat, 31);
                lemma_pow2_32();
            }
            let b = if self.index <= usize::MAX - k {
                get_bit_rev(self.buffer, self.index + k - 1)
            } else {
                0
            };
            proof {
                if self.index > usize::MAX - k {
                    lemma_past_end(buf, (pos + k - 1) as nat, 1);
                }
                assert(bits_rev(buf, (pos + k - 1) as nat, (n - k + 1) as nat) == bit_rev(
                    buf,
                    (pos + k - 1) as nat,
                ) + 2 * bits_rev(buf, (pos + k) as nat, (n - k) as nat));
            }
            v = 2 * v + b as u64;
            k = k - 1;
        }
        proof {
            lemma_bits_rev_bound(buf, pos, n as nat);
            lemma_pow2_mono(n as nat, 32);
            lemma_pow2_32();
        }
        let len8 = 8 * self.buffer.len();
        self.index = if n <= len8 - self.index { self.index + n } else { len8 };
        v as u32
    }
}

} // verus!
