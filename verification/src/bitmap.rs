//! Bit-packed validity masks: one bit per slot, least significant bit first,
//! a set bit meaning that the slot holds a value.
use vstd::prelude::*;
use crate::error::Error;

verus! {

/// Whether bit `k` of `byte` is set, counting from the least significant bit.
pub open spec fn bit_of(byte: u8, k: u8) -> bool {
    (byte >> k) & 1u8 == 1u8
}

/// Bit `i` of a packed buffer: bit `i % 8` of byte `i / 8`.
pub open spec fn bit_at(bytes: Seq<u8>, i: int) -> bool {
    bit_of(bytes[i / 8], (i % 8) as u8)
}

/// The first `len` bits of a packed buffer, as booleans.
pub open spec fn unpacked(bytes: Seq<u8>, len: nat) -> Seq<bool> {
    Seq::new(len, |i: int| bit_at(bytes, i))
}

/// How many entries of `bits` are `false`.
pub open spec fn unset_count(bits: Seq<bool>) -> nat
    decreases bits.len(),
{
    if bits.len() == 0 {
        0
    } else {
        unset_count(bits.drop_last()) + if bits.last() {
            0nat
        } else {
            1nat
        }
    }
}

/// `len` copies of `value`.
pub open spec fn constant_bits(len: nat, value: bool) -> Seq<bool> {
    Seq::new(len, |i: int| value)
}

/// The unset count of two sequences put together is the sum of theirs.
pub proof fn lemma_unset_count_add(a: Seq<bool>, b: Seq<bool>)
    ensures
        unset_count(a + b) == unset_count(a) + unset_count(b),
    decreases b.len(),
{
    if b.len() == 0 {
        assert(a + b =~= a);
    } else {
        lemma_unset_count_add(a, b.drop_last());
        assert((a + b).drop_last() =~= a + b.drop_last());
    }
}

/// A run of equal bits has as many unset bits as it is long, or none.
pub proof fn lemma_unset_count_constant(len: nat, value: bool)
    ensures
        unset_count(constant_bits(len, value)) == if value {
            0
        } else {
            len
        },
    decreases len,
{
    if len > 0 {
        lemma_unset_count_constant((len - 1) as nat, value);
        assert(constant_bits(len, value).drop_last() =~= constant_bits((len - 1) as nat, value));
    }
}

fn read_bit(bytes: &Vec<u8>, i: usize) -> (r: bool)
    requires
        i < bytes@.len() * 8,
    ensures
        r == bit_at(bytes@, i as int),
{
    let byte = bytes[i / 8];
    let k: u8 = (i % 8) as u8;
    (byte >> k) & 1u8 == 1u8
}

fn with_bit(byte: u8, k: u8, value: bool) -> (r: u8)
    requires
        k < 8,
    ensures
        forall|j: u8| j < 8 ==> bit_of(r, j) == if j == k { value } else { bit_of(byte, j) },
{
    let mask: u8 = 1u8 << k;
    if value {
        let r = byte | mask;
        assert forall|j: u8| j < 8 implies bit_of(r, j) == if j == k {
            true
        } else {
            bit_of(byte, j)
        } by {
            assert(((r >> j) & 1u8 == 1u8) == if j == k { true } else { (byte >> j) & 1u8 == 1u8 })
                by (bit_vector)
                requires
                    j < 8,
                    k < 8,
                    mask == 1u8 << k,
                    r == byte | mask,
            ;
        }
        r
    } else {
        let r = byte & !mask;
        assert forall|j: u8| j < 8 implies bit_of(r, j) == if j == k {
            false
        } else {
            bit_of(byte, j)
        } by {
            assert(((r >> j) & 1u8 == 1u8) == if j == k { false } else { (byte >> j) & 1u8 == 1u8 })
                by (bit_vector)
                requires
                    j < 8,
                    k < 8,
                    mask == 1u8 << k,
                    r == byte & !mask,
            ;
        }
        r
    }
}

/// A validity mask that is finished and no longer changes.
pub struct Bitmap {
    bytes: Vec<u8>,
    length: usize,
}

impl View for Bitmap {
    type V = Seq<bool>;

    closed spec fn view(&self) -> Seq<bool> {
        unpacked(self.bytes@, self.length as nat)
    }
}

impl Bitmap {
    /// The buffer holds at least as many bits as the mask is long.
    pub closed spec fn wf(&self) -> bool {
        self.length <= self.bytes@.len() * 8
    }

    /// Takes the first `length` bits of `bytes` as a mask.
    pub fn try_new(bytes: Vec<u8>, length: usize) -> (r: Result<Bitmap, Error>)
        ensures
            match r {
                Ok(b) => length <= bytes@.len() * 8 && b.wf() && b@ == unpacked(
                    bytes@,
                    length as nat,
                ),
                Err(e) => e == Error::InvalidBitmap && length > bytes@.len() * 8,
            },
    {
        let whole: usize = length / 8;
        let needed: usize = if length % 8 == 0 {
            whole
        } else {
            whole + 1
        };
        if bytes.len() < needed {
            Err(Error::InvalidBitmap)
        } else {
            Ok(Bitmap { bytes, length })
        }
    }

    /// The number of slots.
    pub fn len(&self) -> (r: usize)
        requires
            self.wf(),
        ensures
            r == self@.len(),
    {
        self.length
    }

    /// Whether slot `i` holds a value.
    pub fn get_bit(&self, i: usize) -> (r: bool)
        requires
            self.wf(),
            i < self@.len(),
        ensures
            r == self@[i as int],
    {
        read_bit(&self.bytes, i)
    }

    /// The number of slots that hold no value.
    pub fn unset_bits(&self) -> (r: usize)
        requires
            self.wf(),
        ensures
            r == unset_count(self@),
    {
        let mut count: usize = 0;
        let mut i: usize = 0;
        while i < self.length
            invariant
                self.wf(),
                i <= self.length,
                count <= i,
                count == unset_count(self@.take(i as int)),
            decreases self.length - i,
        {
            let bit = read_bit(&self.bytes, i);
            proof {
                assert(self@.take(i + 1).drop_last() =~= self@.take(i as int));
            }
            if !bit {
                count = count + 1;
            }
            i = i + 1;
        }
        proof {
            assert(self@.take(i as int) =~= self@);
        }
        count
    }
}

/// The bits of a finished mask that may be absent.
pub open spec fn validity_view(validity: Option<Bitmap>) -> Option<Seq<bool>> {
    match validity {
        Some(b) => Some(b@),
        None => None,
    }
}

/// The bits of a borrowed mask that may be absent.
pub open spec fn borrowed_view(validity: Option<&Bitmap>) -> Option<Seq<bool>> {
    match validity {
        Some(b) => Some(b@),
        None => None,
    }
}

/// The bits of a mask under construction that may be absent.
pub open spec fn mutable_view(validity: Option<MutableBitmap>) -> Option<Seq<bool>> {
    match validity {
        Some(b) => Some(b@),
        None => None,
    }
}

/// A validity mask under construction: bits are appended at its end.
pub struct MutableBitmap {
    buffer: Vec<u8>,
    length: usize,
}

impl View for MutableBitmap {
    type V = Seq<bool>;

    closed spec fn view(&self) -> Seq<bool> {
        unpacked(self.buffer@, self.length as nat)
    }
}

impl MutableBitmap {
    /// The buffer holds exactly the bytes that the bits written so far need.
    pub closed spec fn wf(&self) -> bool {
        self.length <= self.buffer@.len() * 8 < self.length + 8
    }

    /// An empty mask.
    pub fn new() -> (r: MutableBitmap)
        ensures
            r.wf(),
            r@ == Seq::<bool>::empty(),
    {
        MutableBitmap { buffer: Vec::new(), length: 0 }
    }

    /// An empty mask with room set aside for `capacity` bits. The room
    /// spares later growth and is no part of the mask: it holds no bit,
    /// and the mask is the one that [`MutableBitmap::new`] gives.
    pub fn with_capacity(capacity: usize) -> (r: MutableBitmap)
        ensures
            r.wf(),
            r@ == Seq::<bool>::empty(),
    {
        MutableBitmap { buffer: Vec::with_capacity(capacity / 8 + 1), length: 0 }
    }

    /// The number of bits written so far.
    pub fn len(&self) -> (r: usize)
        requires
            self.wf(),
        ensures
            r == self@.len(),
    {
        self.length
    }

    /// Appends one bit.
    pub fn push(&mut self, value: bool)
        requires
            old(self).wf(),
            old(self)@.len() < usize::MAX,
        ensures
            final(self).wf(),
            final(self)@ == old(self)@.push(value),
    {
        let k: usize = self.length % 8;
        if k == 0 {
            self.buffer.push(0u8);
        }
        let idx: usize = self.length / 8;
        let ghost before = self.buffer@;
        let byte = self.buffer[idx];
        let updated = with_bit(byte, k as u8, value);
        self.buffer.set(idx, updated);
        self.length = self.length + 1;
        proof {
            let old_bits = old(self)@;
            let new_bits = self@;
            assert(new_bits.len() == old_bits.len() + 1);
            assert forall|i: int| 0 <= i < new_bits.len() implies new_bits[i] == old_bits.push(
                value,
            )[i] by {
                if i / 8 == idx as int {
                    assert(((i % 8) as u8) < 8);
                    if i < old_bits.len() {
                        assert(i % 8 < k as int);
                        assert(old(self).buffer@[i / 8] == byte);
                    }
                } else {
                    assert(i < old_bits.len());
                    assert(self.buffer@[i / 8] == old(self).buffer@[i / 8]);
                }
            }
            assert(new_bits =~= old_bits.push(value));
        }
    }

    /// Appends `additional` bits, all equal to `value`.
    pub fn extend_constant(&mut self, additional: usize, value: bool)
        requires
            old(self).wf(),
            old(self)@.len() + additional <= usize::MAX,
        ensures
            final(self).wf(),
            final(self)@ == old(self)@ + constant_bits(additional as nat, value),
    {
        let mut i: usize = 0;
        while i < additional
            invariant
                self.wf(),
                i <= additional,
                old(self)@.len() + additional <= usize::MAX,
                self@ == old(self)@ + constant_bits(i as nat, value),
            decreases additional - i,
        {
            self.push(value);
            i = i + 1;
            proof {
                assert(self@ =~= old(self)@ + constant_bits(i as nat, value));
            }
        }
    }

    /// Appends the bits `start .. start + len` of `source`.
    pub fn extend_from_bitmap(&mut self, source: &Bitmap, start: usize, len: usize)
        requires
            old(self).wf(),
            source.wf(),
            start + len <= source@.len(),
            old(self)@.len() + len <= usize::MAX,
        ensures
            final(self).wf(),
            final(self)@ == old(self)@ + source@.subrange(start as int, start + len),
    {
        let mut i: usize = 0;
        while i < len
            invariant
                self.wf(),
                source.wf(),
                i <= len,
                start + len <= source@.len(),
                old(self)@.len() + len <= usize::MAX,
                self@ == old(self)@ + source@.subrange(start as int, start + i),
            decreases len - i,
        {
            let bit = source.get_bit(start + i);
            self.push(bit);
            i = i + 1;
            proof {
                assert(self@ =~= old(self)@ + source@.subrange(start as int, start + i));
            }
        }
    }

    /// Ends the construction: the same bits, as a finished mask.
    pub fn freeze(self) -> (r: Bitmap)
        requires
            self.wf(),
        ensures
            r.wf(),
            r@ == self@,
    {
        Bitmap { bytes: self.buffer, length: self.length }
    }
}

} // verus!
