use vstd::prelude::*;

verus! {

/// Whether bit `k` (counted from the least significant bit) of `b` is set.
pub open spec fn bit_of(b: u8, k: u8) -> bool {
    (b >> k) & 1u8 == 1u8
}

/// The byte `b` with bit `k` set to `value`.
pub open spec fn with_bit(b: u8, k: u8, value: bool) -> u8 {
    if value {
        b | (1u8 << k)
    } else {
        b & !(1u8 << k)
    }
}

/// Bit `i` of a packed byte sequence, eight bits per byte, least significant bit first.
pub open spec fn packed_bit(bytes: Seq<u8>, i: int) -> bool {
    bit_of(bytes[i / 8], (i % 8) as u8)
}

/// The number of bytes needed to hold `size` bits.
pub open spec fn byte_len_for(size: int) -> int {
    (size + 7) / 8
}

proof fn lemma_with_bit(b: u8, k: u8, j: u8, value: bool)
    requires
        k < 8,
        j < 8,
    ensures
        bit_of(with_bit(b, k, value), j) == if j == k { value } else { bit_of(b, j) },
{
    if value {
        assert(((b | (1u8 << k)) >> j) & 1u8 == 1u8 <==> (j == k || (b >> j) & 1u8 == 1u8))
            by (bit_vector)
            requires
                k < 8,
                j < 8,
        ;
    } else {
        assert(((b & !(1u8 << k)) >> j) & 1u8 == 1u8 <==> (j != k && (b >> j) & 1u8 == 1u8))
            by (bit_vector)
            requires
                k < 8,
                j < 8,
        ;
    }
}

proof fn lemma_mask_test(b: u8, k: u8)
    requires
        k < 8,
    ensures
        (b & (1u8 << k) != 0) == bit_of(b, k),
{
    assert((b & (1u8 << k) != 0) == ((b >> k) & 1u8 == 1u8)) by (bit_vector)
        requires
            k < 8,
    ;
}

proof fn lemma_and_or_bits(x: u8, y: u8, k: u8)
    requires
        k < 8,
    ensures
        bit_of(x & y, k) == (bit_of(x, k) && bit_of(y, k)),
        bit_of(x | y, k) == (bit_of(x, k) || bit_of(y, k)),
{
    assert((((x & y) >> k) & 1u8 == 1u8) == (((x >> k) & 1u8 == 1u8) && ((y >> k) & 1u8
        == 1u8))) by (bit_vector);
    assert((((x | y) >> k) & 1u8 == 1u8) == (((x >> k) & 1u8 == 1u8) || ((y >> k) & 1u8
        == 1u8))) by (bit_vector);
}

/// The wire layout of a packed bit map: bit `i` lives in byte `i / 8`, under the mask
/// `1 << (i % 8)`.
pub proof fn lemma_packed_bit_mask(bytes: Seq<u8>, i: int)
    requires
        0 <= i,
    ensures
        packed_bit(bytes, i) <==> bytes[i / 8] & (1u8 << ((i % 8) as u8)) != 0,
{
    lemma_mask_test(bytes[i / 8], (i % 8) as u8);
}

proof fn lemma_zero_byte_bits(k: u8)
    ensures
        !bit_of(0u8, k),
{
    assert((0u8 >> k) & 1u8 == 0u8) by (bit_vector);
}

/// A fixed-size array of bits packed eight to a byte, least significant bit first.
#[derive(Debug)]
pub struct BitArray {
    bits: Vec<u8>,
    size: usize,
}

impl BitArray {
    #[verifier::type_invariant]
    spec fn inv(self) -> bool {
        self.size <= 8 * self.bits@.len()
    }

    /// The packed bytes.
    pub closed spec fn bytes(&self) -> Seq<u8> {
        self.bits@
    }

    /// The number of addressable bits.
    pub closed spec fn size(&self) -> nat {
        self.size as nat
    }

    /// Bit `i` of the array.
    pub open spec fn bit(&self, i: int) -> bool {
        packed_bit(self.bytes(), i)
    }

    /// A zeroed array of `size` bits.
    pub fn new(size: usize) -> (r: Self)
        ensures
            r.size() == size,
            r.bytes() == Seq::new(byte_len_for(size as int) as nat, |i: int| 0u8),
            forall|i: int| 0 <= i < size ==> !#[trigger] r.bit(i),
    {
        let byte_len = size / 8 + if size % 8 == 0 {
            0
        } else {
            1
        };
        let bits = vec![0u8; byte_len];
        let r = Self { bits, size };
        assert(r.bytes() =~= Seq::new(byte_len_for(size as int) as nat, |i: int| 0u8));
        assert forall|i: int| 0 <= i < size implies !#[trigger] r.bit(i) by {
            lemma_zero_byte_bits((i % 8) as u8);
        }
        r
    }

    /// Changes the number of bits; bytes that are added are zero and kept bytes are unchanged.
    pub fn resize(&mut self, size: usize) -> (r: &mut Self)
        ensures
            r.size() == size,
            r.bytes().len() == byte_len_for(size as int),
            forall|i: int|
                0 <= i < r.bytes().len() ==> #[trigger] r.bytes()[i] == if i < old(
                    self,
                ).bytes().len() {
                    old(self).bytes()[i]
                } else {
                    0u8
                },
            *final(self) == *final(r),
    {
        let new_len = size / 8 + if size % 8 == 0 {
            0
        } else {
            1
        };
        let mut taken = BitArray { bits: Vec::new(), size: 0 };
        std::mem::swap(self, &mut taken);
        let mut bits = taken.bits;
        bits.resize(new_len, 0u8);
        *self = BitArray { bits, size };
        self
    }

    /// Sets bit `index` to `value`.
    pub fn set(&mut self, index: usize, value: bool) -> (r: &mut Self)
        requires
            index < old(self).size(),
        ensures
            r.size() == old(self).size(),
            r.bytes().len() == old(self).bytes().len(),
            r.bytes() == old(self).bytes().update(
                (index / 8) as int,
                with_bit(old(self).bytes()[(index / 8) as int], (index % 8) as u8, value),
            ),
            r.bit(index as int) == value,
            forall|j: int|
                0 <= j < r.size() && j != index ==> #[trigger] r.bit(j) == old(self).bit(j),
            *final(self) == *final(r),
    {
        proof {
            use_type_invariant(&*self);
        }
        let byte_index = index / 8;
        let bit_index = (index % 8) as u8;
        let b = self.bits[byte_index];
        if value {
            self.bits[byte_index] = b | (1u8 << bit_index);
        } else {
            self.bits[byte_index] = b & !(1u8 << bit_index);
        }
        proof {
            lemma_with_bit(b, bit_index, bit_index, value);
            assert forall|j: int|
                0 <= j < self.size() && j != index implies #[trigger] self.bit(j) == old(
                self,
            ).bit(j) by {
                if j / 8 == index / 8 {
                    lemma_with_bit(b, bit_index, (j % 8) as u8, value);
                }
            }
        }
        self
    }

    /// Reads bit `index`.
    pub fn get(&self, index: usize) -> (r: bool)
        requires
            index < self.size(),
        ensures
            r == self.bit(index as int),
    {
        proof {
            use_type_invariant(self);
        }
        let byte_index = index / 8;
        let bit_index = (index % 8) as u8;
        proof {
            lemma_mask_test(self.bits@[byte_index as int], bit_index);
        }
        (self.bits[byte_index] & (1u8 << bit_index)) != 0
    }

    /// A copy of the packed bytes.
    pub fn bits(&mut self) -> (r: Vec<u8>)
        ensures
            r@ == old(self).bytes(),
            *final(self) == *old(self),
    {
        let mut out: Vec<u8> = Vec::new();
        let mut i: usize = 0;
        while i < self.bits.len()
            invariant
                i <= self.bits@.len(),
                out@ == self.bits@.subrange(0, i as int),
            decreases self.bits@.len() - i,
        {
            out.push(self.bits[i]);
            i += 1;
        }
        assert(out@ =~= self.bits@);
        out
    }

    /// Replaces each byte with the bitwise AND of it and the byte of `rhs` at the same place.
    pub fn bitand_assign(&mut self, rhs: Self)
        requires
            old(self).bytes().len() == rhs.bytes().len(),
        ensures
            final(self).size() == old(self).size(),
            final(self).bytes().len() == old(self).bytes().len(),
            forall|i: int|
                0 <= i < final(self).bytes().len() ==> #[trigger] final(self).bytes()[i] == (
                old(self).bytes()[i] & rhs.bytes()[i]),
            forall|i: int|
                0 <= i < 8 * final(self).bytes().len() ==> #[trigger] final(self).bit(i) == (old(
                    self,
                ).bit(i) && rhs.bit(i)),
    {
        let n = self.bits.len();
        let mut out: Vec<u8> = Vec::new();
        let mut i: usize = 0;
        while i < n
            invariant
                n == self.bits@.len(),
                n == rhs.bits@.len(),
                i <= n,
                out@.len() == i,
                forall|k: int| 0 <= k < i ==> #[trigger] out@[k] == (self.bits@[k] & rhs.bits@[k]),
            decreases n - i,
        {
            out.push(self.bits[i] & rhs.bits[i]);
            i += 1;
        }
        proof {
            use_type_invariant(&*self);
        }
        self.bits = out;
        proof {
            assert forall|i: int|
                0 <= i < 8 * self.bytes().len() implies #[trigger] self.bit(i) == (old(self).bit(i)
                && rhs.bit(i)) by {
                lemma_and_or_bits(old(self).bytes()[i / 8], rhs.bytes()[i / 8], (i % 8) as u8);
            }
        }
    }

    /// Replaces each byte with the bitwise OR of it and the byte of `rhs` at the same place.
    pub fn bitor_assign(&mut self, rhs: Self)
        requires
            old(self).bytes().len() == rhs.bytes().len(),
        ensures
            final(self).size() == old(self).size(),
            final(self).bytes().len() == old(self).bytes().len(),
            forall|i: int|
                0 <= i < final(self).bytes().len() ==> #[trigger] final(self).bytes()[i] == (
                old(self).bytes()[i] | rhs.bytes()[i]),
            forall|i: int|
                0 <= i < 8 * final(self).bytes().len() ==> #[trigger] final(self).bit(i) == (old(
                    self,
                ).bit(i) || rhs.bit(i)),
    {
        let n = self.bits.len();
        let mut out: Vec<u8> = Vec::new();
        let mut i: usize = 0;
        while i < n
            invariant
                n == self.bits@.len(),
                n == rhs.bits@.len(),
                i <= n,
                out@.len() == i,
                forall|k: int| 0 <= k < i ==> #[trigger] out@[k] == (self.bits@[k] | rhs.bits@[k]),
            decreases n - i,
        {
            out.push(self.bits[i] | rhs.bits[i]);
            i += 1;
        }
        proof {
            use_type_invariant(&*self);
        }
        self.bits = out;
        proof {
            assert forall|i: int|
                0 <= i < 8 * self.bytes().len() implies #[trigger] self.bit(i) == (old(self).bit(i)
                || rhs.bit(i)) by {
                lemma_and_or_bits(old(self).bytes()[i / 8], rhs.bytes()[i / 8], (i % 8) as u8);
            }
        }
    }
}

impl From<Vec<u8>> for BitArray {
    fn from(data: Vec<u8>) -> (r: Self) {
        let size = data.len();
        Self { bits: data, size }
    }
}

impl vstd::std_specs::convert::FromSpecImpl<Vec<u8>> for BitArray {
    open spec fn obeys_from_spec() -> bool {
        true
    }

    closed spec fn from_spec(data: Vec<u8>) -> Self {
        BitArray { bits: data, size: data.len() }
    }
}

/// What `BitArray::from` makes of a byte vector: those bytes, one addressable bit per byte.
pub proof fn lemma_from_bytes(data: Vec<u8>)
    ensures
        <BitArray as vstd::std_specs::convert::FromSpec<Vec<u8>>>::from_spec(data).bytes()
            == data@,
        <BitArray as vstd::std_specs::convert::FromSpec<Vec<u8>>>::from_spec(data).size()
            == data@.len(),
{
}

} // verus!
