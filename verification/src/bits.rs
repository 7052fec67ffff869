//! Reading bits and big-endian integers from a byte stream.

use vstd::arithmetic::power2::pow2;
use vstd::prelude::*;

verus! {

/// The `index`-th bit of `data`, the most significant bit of each byte first.
pub open spec fn bit_at(data: Seq<u8>, index: int) -> bool {
    (data[index / 8] >> ((7 - index % 8) as u8)) & 1u8 == 1u8
}

/// The bits of `data` from `start` up to `end`.
pub open spec fn bit_range(data: Seq<u8>, start: int, end: int) -> Seq<bool> {
    Seq::new((end - start) as nat, |k: int| bit_at(data, start + k))
}

/// The number that a bit string denotes, its most significant bit first.
pub open spec fn bits_value(bits: Seq<bool>) -> nat
    decreases bits.len(),
{
    if bits.len() == 0 {
        0
    } else {
        2 * bits_value(bits.drop_last()) + if bits.last() { 1nat } else { 0nat }
    }
}

/// The bit string of length `width` that denotes `value`.
pub open spec fn value_bits(value: nat, width: nat) -> Seq<bool>
    decreases width,
{
    if width == 0 {
        Seq::empty()
    } else {
        value_bits(value / 2, (width - 1) as nat).push(value % 2 == 1)
    }
}

/// The big-endian 32-bit number that starts at a byte.
pub open spec fn word_at(data: Seq<u8>, at: int) -> int {
    data[at] * 0x100_0000 + data[at + 1] * 0x1_0000 + data[at + 2] * 0x100 + data[at + 3]
}

/// The number in two's complement that a 32-bit word denotes.
pub open spec fn signed_word(word: int) -> int {
    if word < 0x8000_0000 {
        word
    } else {
        word - 0x1_0000_0000
    }
}

/// A bit string of length `n` denotes a number below 2^n.
pub proof fn lemma_bits_value_bound(bits: Seq<bool>)
    ensures
        bits_value(bits) < pow2(bits.len()),
    decreases bits.len(),
{
    if bits.len() == 0 {
        vstd::arithmetic::power2::lemma2_to64();
    } else {
        lemma_bits_value_bound(bits.drop_last());
        vstd::arithmetic::power2::lemma_pow2_unfold(bits.len());
    }
}

/// The number of two joined bit strings: the first one counts in steps of 2^n.
pub proof fn lemma_bits_value_concat(high: Seq<bool>, low: Seq<bool>)
    ensures
        bits_value(high + low) == bits_value(high) * pow2(low.len()) + bits_value(low),
    decreases low.len(),
{
    if low.len() == 0 {
        assert(high + low =~= high);
        vstd::arithmetic::power2::lemma2_to64();
        assert(pow2(low.len()) == 1);
        assert(bits_value(high) * pow2(low.len()) == bits_value(high)) by (nonlinear_arith)
            requires
                pow2(low.len()) == 1,
        ;
    } else {
        lemma_bits_value_concat(high, low.drop_last());
        assert((high + low).drop_last() =~= high + low.drop_last());
        vstd::arithmetic::power2::lemma_pow2_unfold(low.len());
        let value = bits_value(high);
        let block = pow2(low.drop_last().len());
        assert((high + low).last() == low.last());
        assert(pow2(low.len()) == 2 * block);
        assert(2 * (value * block) == value * (2 * block)) by (nonlinear_arith);
    }
}

pub proof fn lemma_value_bits_length(value: nat, width: nat)
    ensures
        value_bits(value, width).len() == width,
    decreases width,
{
    if width > 0 {
        lemma_value_bits_length(value / 2, (width - 1) as nat);
    }
}

/// Writing a number out in `width` bits and reading it back gives the number again.
pub proof fn lemma_value_of_value_bits(value: nat, width: nat)
    requires
        value < pow2(width),
    ensures
        value_bits(value, width).len() == width,
        bits_value(value_bits(value, width)) == value,
    decreases width,
{
    if width == 0 {
        vstd::arithmetic::power2::lemma2_to64();
    } else {
        vstd::arithmetic::power2::lemma_pow2_unfold(width);
        lemma_value_of_value_bits(value / 2, (width - 1) as nat);
        let bits = value_bits(value, width);
        assert(bits.drop_last() =~= value_bits(value / 2, (width - 1) as nat));
    }
}

/// Reading a bit string as a number and writing the number out gives the string again.
pub proof fn lemma_value_bits_of_value(bits: Seq<bool>)
    ensures
        value_bits(bits_value(bits), bits.len()) == bits,
    decreases bits.len(),
{
    if bits.len() == 0 {
        assert(value_bits(bits_value(bits), bits.len()) =~= bits);
    } else {
        lemma_value_bits_of_value(bits.drop_last());
        assert(bits_value(bits) / 2 == bits_value(bits.drop_last()));
        assert((bits_value(bits) % 2 == 1) == bits.last());
        assert(bits.drop_last().push(bits.last()) =~= bits);
    }
}

/// A reader for bits and big-endian integers.
#[derive(Debug)]
pub struct Reader<'a> {
    data: &'a [u8],
    byte_pos: usize,
    bit_pos: u8,
}

impl<'a> Reader<'a> {
    /// The bytes that are read from.
    pub closed spec fn data(&self) -> Seq<u8> {
        self.data@
    }

    /// The number of bits read so far.
    pub closed spec fn pos(&self) -> int {
        self.byte_pos * 8 + self.bit_pos
    }

    /// The position lies within the data.
    #[verifier::type_invariant]
    pub closed spec fn wf(&self) -> bool {
        &&& self.byte_pos <= self.data@.len()
        &&& self.bit_pos < 8
        &&& self.byte_pos == self.data@.len() ==> self.bit_pos == 0
    }

    /// The number of bits in the data.
    pub open spec fn total(&self) -> int {
        self.data().len() as int * 8
    }

    /// The bits that have not been read yet.
    pub open spec fn rest(&self) -> Seq<bool> {
        bit_range(self.data(), self.pos(), self.total())
    }

    /// The reader stands at the start of a byte.
    pub open spec fn aligned(&self) -> bool {
        self.pos() % 8 == 0
    }

    /// The next unread byte of an aligned reader.
    pub open spec fn byte(&self, offset: int) -> u8 {
        self.data()[self.pos() / 8 + offset]
    }

    /// The big-endian 32-bit number that starts `offset` bytes after an aligned reader.
    pub open spec fn word(&self, offset: int) -> int {
        word_at(self.data(), self.pos() / 8 + offset)
    }

    /// `count` whole bytes are left.
    pub open spec fn has_bytes(&self, count: int) -> bool {
        self.pos() + 8 * count <= self.total()
    }

    /// The position never passes the end.
    pub proof fn lemma_pos(&self)
        requires
            self.wf(),
        ensures
            0 <= self.pos() <= self.total(),
    {
    }

    /// Create a reader at the start of the data.
    pub fn new(data: &'a [u8]) -> (reader: Self)
        ensures
            reader.data() == data@,
            reader.pos() == 0,
    {
        Reader { data, byte_pos: 0, bit_pos: 0 }
    }

    /// Whether every byte has been read.
    pub fn at_end(&self) -> (end: bool)
        ensures
            end == (self.pos() == self.total()),
    {
        proof {
            use_type_invariant(self);
        }
        self.byte_pos >= self.data.len()
    }

    /// The number of whole bytes that are left.
    ///
    /// Assumes that the reader is currently byte-aligned.
    pub fn bytes_left(&self) -> (left: usize)
        requires
            self.aligned(),
        ensures
            self.total() - self.pos() == left * 8,
            0 <= self.pos(),
    {
        proof {
            use_type_invariant(self);
        }
        self.data.len() - self.byte_pos
    }

    /// The bytes that are left.
    ///
    /// Assumes that the reader is currently byte-aligned.
    pub fn tail(&self) -> (rest: &'a [u8])
        requires
            self.aligned(),
        ensures
            rest@ == self.data().skip(self.pos() / 8),
            0 <= self.pos() <= self.total(),
    {
        proof {
            use_type_invariant(self);
        }
        vstd::slice::slice_subrange(self.data, self.byte_pos, self.data.len())
    }

    /// Read the given number of bytes.
    ///
    /// Assumes that the reader is currently byte-aligned.
    pub fn read_bytes(&mut self, len: usize) -> (bytes: Option<&'a [u8]>)
        requires
            old(self).aligned(),
        ensures
            final(self).data() == old(self).data(),
            0 <= old(self).pos() <= old(self).total(),
            bytes is Some <==> old(self).has_bytes(len as int),
            bytes is None ==> final(self).pos() == old(self).pos(),
            bytes matches Some(b) ==> {
                &&& final(self).pos() == old(self).pos() + 8 * len
                &&& b@ == old(self).data().subrange(
                    old(self).pos() / 8,
                    old(self).pos() / 8 + len,
                )
            },
    {
        proof {
            use_type_invariant(&*self);
        }
        if len > self.data.len() - self.byte_pos {
            return None;
        }
        let data = self.data;
        let start: usize = self.byte_pos;
        let byte_pos: usize = start + len;
        let bit_pos: u8 = self.bit_pos;
        *self = Reader { data, byte_pos, bit_pos };
        Some(vstd::slice::slice_subrange(data, start, byte_pos))
    }

    /// Read a single bit.
    pub fn read_bit(&mut self) -> (bit: Option<u8>)
        ensures
            final(self).data() == old(self).data(),
            0 <= old(self).pos() <= old(self).total(),
            bit is None <==> old(self).pos() == old(self).total(),
            bit is None ==> final(self).pos() == old(self).pos(),
            bit matches Some(b) ==> {
                &&& final(self).pos() == old(self).pos() + 1
                &&& b == if bit_at(old(self).data(), old(self).pos()) { 1u8 } else { 0u8 }
            },
    {
        proof {
            use_type_invariant(&*self);
        }
        if self.byte_pos >= self.data.len() {
            return None;
        }
        let byte: u8 = self.data[self.byte_pos];
        let set = (byte >> (7 - self.bit_pos)) & 1u8 == 1u8;
        let (byte_pos, bit_pos): (usize, u8) = if self.bit_pos == 7 {
            (self.byte_pos + 1, 0)
        } else {
            (self.byte_pos, self.bit_pos + 1)
        };
        let data = self.data;
        *self = Reader { data, byte_pos, bit_pos };
        Some(if set { 1 } else { 0 })
    }

    /// Read the given number of bits as an unsigned number.
    ///
    /// Where fewer bits are left, all of them are consumed.
    pub fn read_bits(&mut self, count: u8) -> (value: Option<u32>)
        requires
            count <= 32,
        ensures
            final(self).data() == old(self).data(),
            0 <= old(self).pos() <= old(self).total(),
            value is Some <==> old(self).pos() + count <= old(self).total(),
            value is None ==> final(self).pos() == old(self).total(),
            value matches Some(v) ==> {
                &&& final(self).pos() == old(self).pos() + count
                &&& v as nat == bits_value(
                    bit_range(old(self).data(), old(self).pos(), old(self).pos() + count),
                )
            },
    {
        let mut value: u32 = 0;
        let mut done: u8 = 0;
        let ghost start = self.pos();
        let ghost data = self.data();
        proof {
            use_type_invariant(&*self);
            vstd::arithmetic::power2::lemma2_to64();
        }
        while done < count
            invariant
                done <= count <= 32,
                self.data() == data,
                data == old(self).data(),
                start == old(self).pos(),
                0 <= start,
                start + done <= data.len() * 8,
                self.pos() == start + done,
                value as nat == bits_value(bit_range(data, start, start + done)),
            decreases count - done,
        {
            proof {
                let shorter = bit_range(data, start, start + done);
                let longer = bit_range(data, start, start + done + 1);
                assert(longer.drop_last() =~= shorter);
                lemma_bits_value_bound(shorter);
                vstd::arithmetic::power2::lemma2_to64();
                if done < 31 {
                    vstd::arithmetic::power2::lemma_pow2_strictly_increases(done as nat, 31);
                }
            }
            match self.read_bit() {
                None => {
                    return None;
                },
                Some(bit) => {
                    value = value * 2 + bit as u32;
                    done = done + 1;
                },
            }
        }
        Some(value)
    }

    /// Read a single byte.
    ///
    /// Assumes that the reader is currently byte-aligned.
    pub fn read_byte(&mut self) -> (byte: Option<u8>)
        requires
            old(self).aligned(),
        ensures
            final(self).data() == old(self).data(),
            0 <= old(self).pos() <= old(self).total(),
            byte is Some <==> old(self).has_bytes(1),
            byte is None ==> final(self).pos() == old(self).pos(),
            byte matches Some(b) ==> {
                &&& final(self).pos() == old(self).pos() + 8
                &&& b == old(self).byte(0)
            },
    {
        proof {
            use_type_invariant(&*self);
        }
        if self.byte_pos >= self.data.len() {
            return None;
        }
        let byte: u8 = self.data[self.byte_pos];
        let data = self.data;
        let byte_pos: usize = self.byte_pos + 1;
        let bit_pos: u8 = self.bit_pos;
        *self = Reader { data, byte_pos, bit_pos };
        Some(byte)
    }

    /// Read a big-endian 16-bit number.
    ///
    /// Assumes that the reader is currently byte-aligned.
    pub fn read_u16(&mut self) -> (value: Option<u16>)
        requires
            old(self).aligned(),
        ensures
            final(self).data() == old(self).data(),
            0 <= old(self).pos() <= old(self).total(),
            value is Some <==> old(self).has_bytes(2),
            value is None ==> final(self).pos() == old(self).pos(),
            value matches Some(v) ==> {
                &&& final(self).pos() == old(self).pos() + 16
                &&& v as int == old(self).byte(0) * 0x100 + old(self).byte(1)
            },
    {
        proof {
            use_type_invariant(&*self);
        }
        if self.data.len() - self.byte_pos < 2 {
            return None;
        }
        let high: u16 = self.data[self.byte_pos] as u16;
        let low: u16 = self.data[self.byte_pos + 1] as u16;
        let data = self.data;
        let byte_pos: usize = self.byte_pos + 2;
        let bit_pos: u8 = self.bit_pos;
        *self = Reader { data, byte_pos, bit_pos };
        Some(high * 0x100 + low)
    }

    /// Read a big-endian 32-bit number.
    ///
    /// Assumes that the reader is currently byte-aligned.
    pub fn read_u32(&mut self) -> (value: Option<u32>)
        requires
            old(self).aligned(),
        ensures
            final(self).data() == old(self).data(),
            0 <= old(self).pos() <= old(self).total(),
            value is Some <==> old(self).has_bytes(4),
            value is None ==> final(self).pos() == old(self).pos(),
            value matches Some(v) ==> {
                &&& final(self).pos() == old(self).pos() + 32
                &&& v as int == old(self).word(0)
            },
    {
        proof {
            use_type_invariant(&*self);
        }
        if self.data.len() - self.byte_pos < 4 {
            return None;
        }
        let b0: u32 = self.data[self.byte_pos] as u32;
        let b1: u32 = self.data[self.byte_pos + 1] as u32;
        let b2: u32 = self.data[self.byte_pos + 2] as u32;
        let b3: u32 = self.data[self.byte_pos + 3] as u32;
        let data = self.data;
        let byte_pos: usize = self.byte_pos + 4;
        let bit_pos: u8 = self.bit_pos;
        *self = Reader { data, byte_pos, bit_pos };
        Some(b0 * 0x100_0000 + b1 * 0x1_0000 + b2 * 0x100 + b3)
    }

    /// Read a big-endian 32-bit number in two's complement.
    ///
    /// Assumes that the reader is currently byte-aligned.
    pub fn read_i32(&mut self) -> (value: Option<i32>)
        requires
            old(self).aligned(),
        ensures
            final(self).data() == old(self).data(),
            0 <= old(self).pos() <= old(self).total(),
            value is Some <==> old(self).has_bytes(4),
            value is None ==> final(self).pos() == old(self).pos(),
            value matches Some(v) ==> {
                &&& final(self).pos() == old(self).pos() + 32
                &&& v as int == signed_word(old(self).word(0))
            },
    {
        match self.read_u32() {
            None => None,
            Some(value) => if value < 0x8000_0000 {
                Some(value as i32)
            } else {
                Some((value as i64 - 0x1_0000_0000) as i32)
            },
        }
    }
}

} // verus!
