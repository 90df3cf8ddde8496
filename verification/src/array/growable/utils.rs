//! The parts that every builder shares: how a validity mask comes into
//! being and grows, and how raw bytes are appended.
use crate::array::growable::model::{
    extended_validity, lemma_width_positive, materialized, validity_with_nulls, zeros,
};
use crate::bitmap::{borrowed_view, mutable_view, Bitmap, MutableBitmap};
use crate::datatypes::DataType;
use vstd::prelude::*;

verus! {

/// No mask unless `use_validity` asks for one; else an empty mask with
/// room set aside for `capacity` bits.
pub fn prepare_validity(use_validity: bool, capacity: usize) -> (r: Option<MutableBitmap>)
    ensures
        r is Some == use_validity,
        r matches Some(b) ==> b.wf() && b@ == Seq::<bool>::empty(),
{
    if use_validity {
        Some(MutableBitmap::with_capacity(capacity))
    } else {
        None
    }
}

/// The mask in `target`, taken out of it; where there is none, a new one
/// that marks each of the `filled` slots written so far as valid.
fn take_materialized(target: &mut Option<MutableBitmap>, filled: usize) -> (r: MutableBitmap)
    requires
        *old(target) matches Some(b) ==> b.wf() && b@.len() == filled,
    ensures
        r.wf(),
        r@ == materialized(mutable_view(*old(target)), filled as nat),
        r@.len() == filled,
        *final(target) is None,
{
    match target.take() {
        Some(b) => b,
        None => {
            let mut b = MutableBitmap::with_capacity(filled);
            b.extend_constant(filled, true);
            b
        },
    }
}

/// Records in `target` the validity of the slots `start .. start + len`
/// copied from a source whose mask is `source`, onto a builder that holds
/// `filled` slots. The bits of a source with a mask are copied, into a
/// mask that is made on the spot if the builder had none. A source
/// without a mask adds valid bits to a mask that exists, and nothing to a
/// builder without one.
pub fn extend_validity(
    target: &mut Option<MutableBitmap>,
    filled: usize,
    source: Option<&Bitmap>,
    start: usize,
    len: usize,
)
    requires
        *old(target) matches Some(b) ==> b.wf() && b@.len() == filled,
        source matches Some(s) ==> s.wf() && start + len <= s@.len(),
        filled + len <= usize::MAX,
    ensures
        *final(target) matches Some(b) ==> b.wf(),
        mutable_view(*final(target)) == extended_validity(
            mutable_view(*old(target)),
            filled as nat,
            borrowed_view(source),
            start as nat,
            len as nat,
        ),
{
    match source {
        Some(bits) => {
            let mut mask = take_materialized(target, filled);
            mask.extend_from_bitmap(bits, start, len);
            *target = Some(mask);
        },
        None => {
            match target.take() {
                Some(mut mask) => {
                    mask.extend_constant(len, true);
                    *target = Some(mask);
                },
                None => {},
            }
        },
    }
}

/// Records in `target` that `additional` null slots follow the `filled`
/// slots that the builder holds. Where any null follows, a builder
/// without a mask gets one; where none follows, `target` is left alone.
pub fn extend_validity_nulls(target: &mut Option<MutableBitmap>, filled: usize, additional: usize)
    requires
        *old(target) matches Some(b) ==> b.wf() && b@.len() == filled,
        filled + additional <= usize::MAX,
    ensures
        *final(target) matches Some(b) ==> b.wf(),
        mutable_view(*final(target)) == validity_with_nulls(
            mutable_view(*old(target)),
            filled as nat,
            additional as nat,
        ),
{
    if additional > 0 {
        let mut mask = take_materialized(target, filled);
        mask.extend_constant(additional, false);
        *target = Some(mask);
    }
}

/// Whether an array of type `data_type` that holds `filled` slots can take
/// `additional` more and still have all its bytes addressed.
pub fn room_for(filled: usize, data_type: &DataType, additional: usize) -> (r: bool)
    requires
        data_type.sizes_positive(),
    ensures
        r == ((filled + additional) * data_type.width() <= usize::MAX),
{
    proof {
        lemma_width_positive(*data_type);
    }
    match filled.checked_add(additional) {
        None => {
            assert((filled + additional) * data_type.width() >= filled + additional)
                by (nonlinear_arith)
                requires
                    data_type.width() >= 1,
            ;
            false
        },
        Some(total) => {
            if total == 0 {
                assert(0nat * data_type.width() == 0) by (nonlinear_arith);
                true
            } else {
                match data_type.checked_width() {
                    Some(width) => total.checked_mul(width).is_some(),
                    None => {
                        assert(total * data_type.width() > usize::MAX) by (nonlinear_arith)
                            requires
                                total >= 1,
                                data_type.width() > usize::MAX,
                        ;
                        false
                    },
                }
            }
        },
    }
}

/// Appends the bytes `from .. to` of `source` to `target`.
pub fn append_bytes(target: &mut Vec<u8>, source: &Vec<u8>, from: usize, to: usize)
    requires
        from <= to <= source@.len(),
    ensures
        final(target)@ == old(target)@ + source@.subrange(from as int, to as int),
{
    let mut i: usize = from;
    while i < to
        invariant
            from <= i <= to <= source@.len(),
            target@ == old(target)@ + source@.subrange(from as int, i as int),
        decreases to - i,
    {
        target.push(source[i]);
        i = i + 1;
        proof {
            assert(target@ =~= old(target)@ + source@.subrange(from as int, i as int));
        }
    }
    proof {
        assert(target@ =~= old(target)@ + source@.subrange(from as int, to as int));
    }
}

/// Appends `n` zero bytes to `target`.
pub fn append_zeros(target: &mut Vec<u8>, n: usize)
    ensures
        final(target)@ == old(target)@ + zeros(n as nat),
{
    let mut i: usize = 0;
    while i < n
        invariant
            i <= n,
            target@ == old(target)@ + zeros(i as nat),
        decreases n - i,
    {
        target.push(0u8);
        i = i + 1;
        proof {
            assert(target@ =~= old(target)@ + zeros(i as nat));
        }
    }
}

} // verus!
