//! Byte-level wire primitives: big-endian integer fields over byte
//! sequences, and a read cursor that leaves its underlying bytes intact
//! so that a failed decode can always be retried.

use vstd::prelude::*;

verus! {

use vstd::arithmetic::div_mod::lemma_fundamental_div_mod;

// ---------------------------------------------------------------------------
// Big-endian field values
// ---------------------------------------------------------------------------

/// The big-endian 16-bit value stored at offset `i` of `s`.
pub open spec fn be16_at(s: Seq<u8>, i: int) -> u16 {
    (s[i] * 256 + s[i + 1]) as u16
}

/// The big-endian 32-bit value stored at offset `i` of `s`.
pub open spec fn be32_at(s: Seq<u8>, i: int) -> u32 {
    (be16_at(s, i) * 65536 + be16_at(s, i + 2)) as u32
}

/// High byte of a 16-bit big-endian field.
pub open spec fn hi8(v: u16) -> u8 {
    (v / 256) as u8
}

/// Low byte of a 16-bit big-endian field.
pub open spec fn lo8(v: u16) -> u8 {
    (v % 256) as u8
}

/// High half of a 32-bit big-endian field.
pub open spec fn hi16(v: u32) -> u16 {
    (v / 65536) as u16
}

/// Low half of a 32-bit big-endian field.
pub open spec fn lo16(v: u32) -> u16 {
    (v % 65536) as u16
}

/// The two wire bytes of a 16-bit value.
pub open spec fn ser_u16(v: u16) -> Seq<u8> {
    seq![hi8(v), lo8(v)]
}

/// The four wire bytes of a 32-bit value.
pub open spec fn ser_u32(v: u32) -> Seq<u8> {
    ser_u16(hi16(v)) + ser_u16(lo16(v))
}

/// The unsigned 32-bit wire image of a signed 32-bit value
/// (two's complement).
pub open spec fn u32_of_i32(v: i32) -> u32 {
    if v >= 0 {
        v as u32
    } else {
        ((v as int) + 0x1_0000_0000) as u32
    }
}

/// The signed reading of an unsigned 32-bit wire value
/// (two's complement).
pub open spec fn i32_of_u32(u: u32) -> i32 {
    if u < 0x8000_0000 {
        u as i32
    } else {
        ((u as int) - 0x1_0000_0000) as i32
    }
}

/// The four wire bytes of a signed 32-bit value.
pub open spec fn ser_i32(v: i32) -> Seq<u8> {
    ser_u32(u32_of_i32(v))
}

/// The signed 32-bit value stored at offset `i` of `s`.
pub open spec fn i32_at(s: Seq<u8>, i: int) -> i32 {
    i32_of_u32(be32_at(s, i))
}

// ---------------------------------------------------------------------------
// Round-trip facts
// ---------------------------------------------------------------------------

/// Splitting a 16-bit value into bytes and reassembling them gives the
/// value back.
pub proof fn lemma_u16_round(v: u16)
    ensures
        hi8(v) * 256 + lo8(v) == v,
{
    lemma_fundamental_div_mod(v as int, 256);
}

/// Splitting a 32-bit value into halves and reassembling them gives the
/// value back.
pub proof fn lemma_u32_round(v: u32)
    ensures
        hi16(v) * 65536 + lo16(v) == v,
{
    lemma_fundamental_div_mod(v as int, 65536);
}

/// Reading a 16-bit field back from its own wire bytes gives the value.
pub proof fn lemma_be16_ser(s: Seq<u8>, i: int, v: u16)
    requires
        s[i] == hi8(v),
        s[i + 1] == lo8(v),
    ensures
        be16_at(s, i) == v,
{
    lemma_u16_round(v);
}

/// Reading a 32-bit field back from its own wire bytes gives the value.
pub proof fn lemma_be32_ser(s: Seq<u8>, i: int, v: u32)
    requires
        s[i] == hi8(hi16(v)),
        s[i + 1] == lo8(hi16(v)),
        s[i + 2] == hi8(lo16(v)),
        s[i + 3] == lo8(lo16(v)),
    ensures
        be32_at(s, i) == v,
{
    lemma_be16_ser(s, i, hi16(v));
    lemma_be16_ser(s, i + 2, lo16(v));
    lemma_u32_round(v);
}

/// The signed/unsigned 32-bit wire conversions are mutually inverse.
pub proof fn lemma_i32_round(v: i32)
    ensures
        i32_of_u32(u32_of_i32(v)) == v,
{
}

/// Reading a signed 32-bit field back from its own wire bytes gives the
/// value.
pub proof fn lemma_i32_ser(s: Seq<u8>, i: int, v: i32)
    requires
        s[i] == hi8(hi16(u32_of_i32(v))),
        s[i + 1] == lo8(hi16(u32_of_i32(v))),
        s[i + 2] == hi8(lo16(u32_of_i32(v))),
        s[i + 3] == lo8(lo16(u32_of_i32(v))),
    ensures
        i32_at(s, i) == v,
{
    lemma_be32_ser(s, i, u32_of_i32(v));
    lemma_i32_round(v);
}

/// Dividing a non-negative value by a positive one never increases it.
pub proof fn lemma_div_le_num(x: int, d: int)
    requires
        0 <= x,
        1 <= d,
    ensures
        0 <= x / d <= x,
{
    vstd::arithmetic::div_mod::lemma_div_pos_is_pos(x, d);
    vstd::arithmetic::div_mod::lemma_div_is_ordered_by_denominator(x, 1, d);
    assert(x / 1 == x);
}

// ---------------------------------------------------------------------------
// Read cursor
// ---------------------------------------------------------------------------

/// A read cursor over a byte buffer. Reads inspect bytes at offsets past
/// the cursor; `advance` commits consumed bytes. The underlying bytes are
/// never modified, so a decode that fails part-way leaves the buffer as
/// it was.
pub struct ReadBuf {
    data: Vec<u8>,
    pos: usize,
}

impl View for ReadBuf {
    type V = Seq<u8>;

    /// The unread bytes.
    closed spec fn view(&self) -> Seq<u8> {
        self.data@.skip(self.pos as int)
    }
}

impl ReadBuf {
    #[verifier::type_invariant]
    spec fn type_inv(&self) -> bool {
        self.pos <= self.data.len()
    }

    /// Wrap a buffer; the cursor starts at its first byte.
    pub fn new(data: Vec<u8>) -> (r: ReadBuf)
        ensures
            r@ == data@,
            r.consumed() == 0,
    {
        let r = ReadBuf { data, pos: 0 };
        proof {
            assert(r@ =~= r.data@);
        }
        r
    }

    /// How many bytes the cursor has committed so far.
    pub closed spec fn consumed(&self) -> int {
        self.pos as int
    }

    /// How many bytes the cursor has committed so far.
    pub fn consumed_len(&self) -> (n: usize)
        ensures
            n == self.consumed(),
    {
        self.pos
    }

    /// Number of unread bytes.
    pub fn remaining(&self) -> (n: usize)
        ensures
            n == self@.len(),
    {
        proof {
            use_type_invariant(self);
        }
        self.data.len() - self.pos
    }

    /// The unread byte at offset `i`.
    pub fn byte_at(&self, i: usize) -> (b: u8)
        requires
            i < self@.len(),
        ensures
            b == self@[i as int],
    {
        proof {
            use_type_invariant(self);
        }
        self.data[self.pos + i]
    }

    /// The big-endian 16-bit field at offset `i`.
    pub fn get_u16_at(&self, i: usize) -> (v: u16)
        requires
            i + 2 <= self@.len(),
        ensures
            v == be16_at(self@, i as int),
    {
        proof {
            use_type_invariant(self);
            assert(self@.len() + self.pos == self.data@.len());
        }
        let b0 = self.byte_at(i);
        let b1 = self.byte_at(i + 1);
        (b0 as u16) * 256 + (b1 as u16)
    }

    /// The big-endian 32-bit field at offset `i`.
    pub fn get_u32_at(&self, i: usize) -> (v: u32)
        requires
            i + 4 <= self@.len(),
        ensures
            v == be32_at(self@, i as int),
    {
        proof {
            use_type_invariant(self);
            assert(self@.len() + self.pos == self.data@.len());
        }
        let h = self.get_u16_at(i);
        let l = self.get_u16_at(i + 2);
        (h as u32) * 65536 + (l as u32)
    }

    /// The big-endian signed 32-bit field at offset `i`.
    pub fn get_i32_at(&self, i: usize) -> (v: i32)
        requires
            i + 4 <= self@.len(),
        ensures
            v == i32_at(self@, i as int),
    {
        let u = self.get_u32_at(i);
        if u < 0x8000_0000 {
            u as i32
        } else {
            ((u as i64) - 0x1_0000_0000i64) as i32
        }
    }

    /// Copy out `n` unread bytes starting at offset `i`.
    pub fn take_vec(&self, i: usize, n: usize) -> (v: Vec<u8>)
        requires
            i + n <= self@.len(),
        ensures
            v@ == self@.subrange(i as int, i as int + n as int),
    {
        proof {
            use_type_invariant(self);
            assert(self@.len() + self.pos == self.data@.len());
        }
        let mut v: Vec<u8> = Vec::new();
        let mut j: usize = 0;
        while j < n
            invariant
                j <= n,
                i + n <= self@.len(),
                self@.len() <= usize::MAX,
                v@ == self@.subrange(i as int, i as int + j as int),
            decreases n - j,
        {
            let b = self.byte_at(i + j);
            v.push(b);
            j = j + 1;
            proof {
                assert(v@ =~= self@.subrange(i as int, i as int + j as int));
            }
        }
        v
    }

    /// Commit `n` bytes: they leave the unread view.
    pub fn advance(&mut self, n: usize)
        requires
            n <= old(self)@.len(),
        ensures
            final(self)@ == old(self)@.skip(n as int),
            final(self).consumed() == old(self).consumed() + n,
    {
        proof {
            use_type_invariant(&*self);
        }
        self.pos = self.pos + n;
        proof {
            assert(self@ =~= old(self)@.skip(n as int));
        }
    }
}

// ---------------------------------------------------------------------------
// Write primitives
// ---------------------------------------------------------------------------

/// Append one byte.
pub fn put_u8(buf: &mut Vec<u8>, v: u8)
    ensures
        final(buf)@ == old(buf)@ + seq![v],
{
    buf.push(v);
    proof {
        assert(buf@ =~= old(buf)@ + seq![v]);
    }
}

/// Append a 16-bit value, big-endian.
pub fn put_u16(buf: &mut Vec<u8>, v: u16)
    ensures
        final(buf)@ == old(buf)@ + ser_u16(v),
{
    buf.push((v / 256) as u8);
    buf.push((v % 256) as u8);
    proof {
        assert(buf@ =~= old(buf)@ + ser_u16(v));
    }
}

/// Append a 32-bit value, big-endian.
pub fn put_u32(buf: &mut Vec<u8>, v: u32)
    ensures
        final(buf)@ == old(buf)@ + ser_u32(v),
{
    put_u16(buf, (v / 65536) as u16);
    put_u16(buf, (v % 65536) as u16);
    proof {
        assert(buf@ =~= old(buf)@ + ser_u32(v));
    }
}

/// Append a signed 32-bit value, big-endian two's complement.
pub fn put_i32(buf: &mut Vec<u8>, v: i32)
    ensures
        final(buf)@ == old(buf)@ + ser_i32(v),
{
    let u: u32 = if v >= 0 {
        v as u32
    } else {
        ((v as i64) + 0x1_0000_0000i64) as u32
    };
    put_u32(buf, u);
}

/// Append a copy of `data`.
pub fn put_bytes(buf: &mut Vec<u8>, data: &Vec<u8>)
    ensures
        final(buf)@ == old(buf)@ + data@,
{
    let mut j: usize = 0;
    while j < data.len()
        invariant
            j <= data.len(),
            buf@ == old(buf)@ + data@.take(j as int),
        decreases data.len() - j,
    {
        buf.push(data[j]);
        j = j + 1;
        proof {
            assert(buf@ =~= old(buf)@ + data@.take(j as int));
        }
    }
    proof {
        assert(buf@ =~= old(buf)@ + data@);
    }
}

} // verus!
