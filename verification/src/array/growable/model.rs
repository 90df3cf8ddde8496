//! What the builders do, stated on the content of arrays.
//!
//! A builder is bound to a list of source arrays and holds the array that
//! it has assembled so far. Each of its operations is a function from that
//! pending array to the next one; the functions are defined here, together
//! with the facts about them that the builders and their callers rely on.
use crate::array::{lemma_multiple, lemma_raw_len, lemma_wf_sizes, ArrayView, Payload, Slot};
use crate::bitmap::constant_bits;
use crate::datatypes::DataType;
use vstd::prelude::*;

verus! {

/// The sources that a builder can be bound to: at least one array, all of
/// them well formed and of the logical type of the first.
pub open spec fn bindable(sources: Seq<ArrayView>) -> bool {
    &&& sources.len() > 0
    &&& forall|i: int|
        0 <= i < sources.len() ==> (#[trigger] sources[i]).wf() && sources[i].data_type
            == sources[0].data_type
}

/// Whether any of the sources has a null slot.
pub open spec fn any_nulls(sources: Seq<ArrayView>) -> bool {
    exists|i: int| 0 <= i < sources.len() && (#[trigger] sources[i]).null_count() > 0
}

/// The child arrays of the sources, in the same order.
pub open spec fn children(sources: Seq<ArrayView>) -> Seq<ArrayView> {
    Seq::new(sources.len(), |i: int| sources[i].child())
}

/// `n` zero bytes.
pub open spec fn zeros(n: nat) -> Seq<u8> {
    Seq::new(n, |i: int| 0u8)
}

/// The mask itself, or, where there is none yet, a mask that marks each of
/// the `filled` slots written so far as valid: a builder has no mask only
/// as long as no null has reached it.
pub open spec fn materialized(target: Option<Seq<bool>>, filled: nat) -> Seq<bool> {
    match target {
        Some(bits) => bits,
        None => constant_bits(filled, true),
    }
}

/// The mask of a builder after it has copied the slots `start .. start + len`
/// of a source. A source with a mask has its bits copied, and brings the
/// builder's mask into being if it had none; a source without one adds
/// valid bits to a mask that exists and leaves a missing one missing.
pub open spec fn extended_validity(
    target: Option<Seq<bool>>,
    filled: nat,
    source: Option<Seq<bool>>,
    start: nat,
    len: nat,
) -> Option<Seq<bool>> {
    match source {
        Some(bits) => Some(
            materialized(target, filled) + bits.subrange(start as int, (start + len) as int),
        ),
        None => match target {
            Some(mask) => Some(mask + constant_bits(len, true)),
            None => None,
        },
    }
}

/// The mask of a builder after `additional` null slots have been appended
/// to the `filled` slots that it holds. Appending none leaves the mask as
/// it is, missing if it was missing; else the mask, brought into being if
/// need be, grows by that many unset bits.
pub open spec fn validity_with_nulls(
    target: Option<Seq<bool>>,
    filled: nat,
    additional: nat,
) -> Option<Seq<bool>> {
    if additional == 0 {
        target
    } else {
        Some(materialized(target, filled) + constant_bits(additional, false))
    }
}

/// The pending array of a builder that has just been bound to `sources`,
/// whose logical type is `data_type`. It is empty. It has a validity mask
/// from the start if the caller asks for one or any source has a null
/// slot. A child builder is bound to the children of the sources and is
/// not asked for a mask.
pub open spec fn fresh(
    data_type: DataType,
    sources: Seq<ArrayView>,
    use_validity: bool,
) -> ArrayView
    decreases data_type,
{
    ArrayView {
        data_type,
        validity: if use_validity || any_nulls(sources) {
            Some(Seq::empty())
        } else {
            None
        },
        payload: match data_type {
            DataType::FixedSizeBinary(_) => Payload::Bytes(Seq::empty()),
            DataType::FixedSizeList(child, _) => Payload::Child(
                Box::new(fresh(*child, children(sources), false)),
            ),
        },
    }
}

impl ArrayView {
    /// The array after the slots `start .. start + len` of `source` have
    /// been appended to it: the mask follows [`extended_validity`], and the
    /// payload grows by the bytes, or by the child slots, of that range.
    pub open spec fn extended(self, source: ArrayView, start: nat, len: nat) -> ArrayView
        decreases self,
    {
        ArrayView {
            data_type: self.data_type,
            validity: extended_validity(self.validity, self.len(), source.validity, start, len),
            payload: match self.payload {
                Payload::Bytes(b) => Payload::Bytes(
                    b + source.bytes().subrange(
                        (start * self.size()) as int,
                        ((start + len) * self.size()) as int,
                    ),
                ),
                Payload::Child(c) => Payload::Child(
                    Box::new(c.extended(source.child(), start * self.size(), len * self.size())),
                ),
            },
        }
    }

    /// The array after `additional` null slots have been appended to it.
    /// Appending none leaves the array as it is, at every level. Else the
    /// mask, brought into being if need be, grows by that many unset bits,
    /// and the payload by zero bytes, or by null child slots, for them.
    pub open spec fn with_nulls(self, additional: nat) -> ArrayView
        decreases self,
    {
        if additional == 0 {
            self
        } else {
            ArrayView {
                data_type: self.data_type,
                validity: validity_with_nulls(self.validity, self.len(), additional),
                payload: match self.payload {
                    Payload::Bytes(b) => Payload::Bytes(b + zeros(additional * self.size())),
                    Payload::Child(c) => Payload::Child(
                        Box::new(c.with_nulls(additional * self.size())),
                    ),
                },
            }
        }
    }

    /// The pending array of a builder after its content has been taken
    /// out of it: empty, and without a mask, at every level.
    pub open spec fn emptied(self) -> ArrayView
        decreases self,
    {
        ArrayView {
            data_type: self.data_type,
            validity: None,
            payload: match self.payload {
                Payload::Bytes(_) => Payload::Bytes(Seq::empty()),
                Payload::Child(c) => Payload::Child(Box::new(c.emptied())),
            },
        }
    }

    /// The array can grow by `additional` slots and still have all its
    /// bytes addressed: the new number of slots times the bytes of one
    /// slot is no more than the largest `usize`.
    pub open spec fn has_room(self, additional: nat) -> bool {
        (self.len() + additional) * self.data_type.width() <= usize::MAX
    }
}

/// A fresh pending array is well formed and empty.
pub proof fn lemma_fresh(data_type: DataType, sources: Seq<ArrayView>, use_validity: bool)
    requires
        data_type.sizes_positive(),
    ensures
        fresh(data_type, sources, use_validity).wf(),
        fresh(data_type, sources, use_validity).len() == 0,
        fresh(data_type, sources, use_validity).data_type == data_type,
        fresh(data_type, sources, use_validity).has_room(0),
    decreases data_type,
{
    let f = fresh(data_type, sources, use_validity);
    match data_type {
        DataType::FixedSizeBinary(n) => {
            assert(f.bytes().len() == 0);
        },
        DataType::FixedSizeList(child, n) => {
            lemma_fresh(*child, children(sources), false);
            assert(0nat * f.size() == 0) by (nonlinear_arith);
        },
    }
    lemma_multiple(0, f.size());
    assert(0nat * f.size() == 0) by (nonlinear_arith);
    assert(0nat * f.data_type.width() == 0) by (nonlinear_arith);
}

/// Taking the content out leaves a well-formed, empty pending array.
pub proof fn lemma_emptied(a: ArrayView)
    requires
        a.wf(),
    ensures
        a.emptied().wf(),
        a.emptied().len() == 0,
        a.emptied().data_type == a.data_type,
        a.emptied().has_room(0),
    decreases a,
{
    match a.payload {
        Payload::Bytes(_) => {},
        Payload::Child(c) => {
            lemma_emptied(*c);
        },
    }
    lemma_multiple(0, a.size());
    assert(0nat * a.size() == 0) by (nonlinear_arith);
    assert(0nat * a.data_type.width() == 0) by (nonlinear_arith);
}

/// The slots `start .. start + len` of an array lie in its payload from
/// `start * size` to `(start + len) * size`, which is within the payload.
pub proof fn lemma_child_range(s: ArrayView, start: nat, len: nat)
    requires
        s.wf(),
        start + len <= s.len(),
    ensures
        start * s.size() + len * s.size() == (start + len) * s.size(),
        (start + len) * s.size() <= s.raw_len(),
{
    let n = s.size();
    lemma_raw_len(s);
    assert(start * n + len * n == (start + len) * n) by (nonlinear_arith);
    assert((start + len) * n <= s.len() * n) by (nonlinear_arith)
        requires
            start + len <= s.len(),
    ;
}

/// Appending a range of a source of the same type keeps the array well
/// formed and makes it longer by the length of the range.
pub proof fn lemma_extended(p: ArrayView, s: ArrayView, start: nat, len: nat)
    requires
        p.wf(),
        s.wf(),
        p.data_type == s.data_type,
        start + len <= s.len(),
    ensures
        p.extended(s, start, len).wf(),
        p.extended(s, start, len).len() == p.len() + len,
        p.extended(s, start, len).data_type == p.data_type,
    decreases p,
{
    let n = p.size();
    let e = p.extended(s, start, len);
    lemma_child_range(s, start, len);
    lemma_raw_len(p);
    assert(p.len() * n + len * n == (p.len() + len) * n) by (nonlinear_arith);
    lemma_multiple(p.len() + len, n);
    match p.payload {
        Payload::Bytes(b) => {
            assert(e.raw_len() == (p.len() + len) * n);
        },
        Payload::Child(c) => {
            lemma_extended(*c, s.child(), start * n, len * n);
            assert(e.raw_len() == (p.len() + len) * n);
        },
    }
}

/// Appending null slots keeps the array well formed and makes it longer
/// by their number; its payload grows by one slot size for each. The
/// array has a mask afterwards if it had one or if any null was appended.
pub proof fn lemma_with_nulls(p: ArrayView, additional: nat)
    requires
        p.wf(),
    ensures
        p.with_nulls(additional).wf(),
        p.with_nulls(additional).len() == p.len() + additional,
        p.with_nulls(additional).raw_len() == p.raw_len() + additional * p.size(),
        p.with_nulls(additional).data_type == p.data_type,
        p.with_nulls(additional).validity is Some <==> p.validity is Some || additional > 0,
    decreases p,
{
    let n = p.size();
    let e = p.with_nulls(additional);
    lemma_raw_len(p);
    assert(p.len() * n + additional * n == (p.len() + additional) * n) by (nonlinear_arith);
    if additional > 0 {
        lemma_multiple(p.len() + additional, n);
        match p.payload {
            Payload::Bytes(b) => {
                assert(e.raw_len() == (p.len() + additional) * n);
            },
            Payload::Child(c) => {
                lemma_with_nulls(*c, additional * n);
                assert(e.raw_len() == (p.len() + additional) * n);
            },
        }
    }
}

/// A type whose sizes are positive has a positive width.
pub proof fn lemma_width_positive(data_type: DataType)
    requires
        data_type.sizes_positive(),
    ensures
        data_type.width() >= 1,
    decreases data_type,
{
    match data_type {
        DataType::FixedSizeBinary(_) => {},
        DataType::FixedSizeList(child, n) => {
            lemma_width_positive(*child);
            assert(n as nat * child.width() >= 1) by (nonlinear_arith)
                requires
                    n >= 1,
                    child.width() >= 1,
            ;
        },
    }
}

/// What room for `additional` slots means, level by level: the number of
/// slots and the length of the payload stay within `usize`, and a child
/// array has room for the slots that it gets.
pub proof fn lemma_room(p: ArrayView, additional: nat)
    requires
        p.wf(),
        p.has_room(additional),
    ensures
        p.len() + additional <= usize::MAX,
        p.raw_len() + additional * p.size() <= usize::MAX,
        p.payload matches Payload::Child(c) ==> c.has_room(additional * p.size()),
{
    let n = p.size();
    let w = p.data_type.width();
    let total = p.len() + additional;
    lemma_wf_sizes(p);
    lemma_width_positive(p.data_type);
    lemma_raw_len(p);
    assert(p.len() * n + additional * n == total * n) by (nonlinear_arith)
        requires
            total == p.len() + additional,
    ;
    assert(total <= total * w) by (nonlinear_arith)
        requires
            w >= 1,
    ;
    match p.payload {
        Payload::Bytes(_) => {},
        Payload::Child(c) => {
            let wc = c.data_type.width();
            lemma_width_positive(c.data_type);
            assert(w == n * wc);
            assert(total * n * wc == total * (n * wc)) by (nonlinear_arith);
            assert(total * n <= total * n * wc) by (nonlinear_arith)
                requires
                    wc >= 1,
            ;
            assert((c.len() + additional * n) * wc == total * n * wc) by (nonlinear_arith)
                requires
                    c.len() + additional * n == total * n,
            ;
        },
    }
}

/// What a reader sees in slot `i` after a range of a source was appended:
/// the old slot, or the slot of the source that was copied there.
pub proof fn lemma_extended_slot(p: ArrayView, s: ArrayView, start: nat, len: nat, i: int)
    requires
        p.wf(),
        s.wf(),
        p.data_type == s.data_type,
        start + len <= s.len(),
        0 <= i < p.len() + len,
    ensures
        p.extended(s, start, len).slot(i) == if i < p.len() {
            p.slot(i)
        } else {
            s.slot(start + i - p.len())
        },
    decreases p,
{
    let n = p.size();
    let e = p.extended(s, start, len);
    let filled = p.len();
    let k = i - filled;
    lemma_child_range(s, start, len);
    lemma_raw_len(p);
    lemma_raw_len(s);
    lemma_extended(p, s, start, len);
    assert((i + 1) * n == i * n + n) by (nonlinear_arith);
    assert(0 <= i * n) by (nonlinear_arith)
        requires
            0 <= i,
            0 <= n,
    ;
    if i < filled {
        assert((i + 1) * n <= filled * n) by (nonlinear_arith)
            requires
                i + 1 <= filled,
        ;
        assert(e.is_null(i) == p.is_null(i));
    } else {
        assert(i * n == filled * n + k * n) by (nonlinear_arith)
            requires
                k == i - filled,
        ;
        assert((start + k) * n == start * n + k * n) by (nonlinear_arith);
        assert((start + k + 1) * n == (start + k) * n + n) by (nonlinear_arith);
        assert((start + k + 1) * n <= (start + len) * n) by (nonlinear_arith)
            requires
                start + k + 1 <= start + len,
        ;
        assert(e.is_null(i) == s.is_null(start + k));
    }
    if e.is_null(i) {
        assert(e.slot(i) == Slot::Null);
    } else {
        match p.payload {
            Payload::Bytes(b) => {
                if i < filled {
                    assert(e.bytes().subrange(i * n, (i + 1) * n) =~= b.subrange(
                        i * n,
                        (i + 1) * n,
                    ));
                    assert(e.slot(i) == p.slot(i));
                } else {
                    assert(e.bytes().subrange(i * n, (i + 1) * n) =~= s.bytes().subrange(
                        (start + k) * n,
                        (start + k + 1) * n,
                    ));
                    assert(e.slot(i) == s.slot(start + k));
                }
            },
            Payload::Child(c) => {
                let ec = e.child();
                let sc = s.child();
                let after = Seq::new(n, |j: int| ec.slot(i * n + j));
                let before = if i < filled {
                    Seq::new(n, |j: int| c.slot(i * n + j))
                } else {
                    Seq::new(n, |j: int| sc.slot((start + k) * n + j))
                };
                assert forall|j: int| 0 <= j < n implies #[trigger] after[j] == before[j] by {
                    lemma_extended_slot(*c, sc, start * n, len * n, i * n + j);
                }
                assert(after =~= before);
                assert(e.slot(i) matches Slot::List(items) && items =~= after);
                if i < filled {
                    assert(p.slot(i) matches Slot::List(items) && items =~= before);
                } else {
                    assert(s.slot(start + k) matches Slot::List(items) && items =~= before);
                }
            },
        }
    }
}

/// What a reader sees in slot `i` after null slots were appended: the old
/// slot, or a null.
pub proof fn lemma_with_nulls_slot(p: ArrayView, additional: nat, i: int)
    requires
        p.wf(),
        0 <= i < p.len() + additional,
    ensures
        p.with_nulls(additional).slot(i) == if i < p.len() {
            p.slot(i)
        } else {
            Slot::Null
        },
    decreases p,
{
    let n = p.size();
    let e = p.with_nulls(additional);
    let filled = p.len();
    lemma_raw_len(p);
    if i < filled {
        assert((i + 1) * n == i * n + n) by (nonlinear_arith);
        assert(0 <= i * n) by (nonlinear_arith)
            requires
                0 <= i,
                0 <= n,
        ;
        assert((i + 1) * n <= filled * n) by (nonlinear_arith)
            requires
                i + 1 <= filled,
        ;
        assert(e.is_null(i) == p.is_null(i));
        if !e.is_null(i) {
            match p.payload {
                Payload::Bytes(b) => {
                    assert(e.bytes().subrange(i * n, (i + 1) * n) =~= b.subrange(
                        i * n,
                        (i + 1) * n,
                    ));
                },
                Payload::Child(c) => {
                    let ec = e.child();
                    let after = Seq::new(n, |j: int| ec.slot(i * n + j));
                    let before = Seq::new(n, |j: int| c.slot(i * n + j));
                    assert forall|j: int| 0 <= j < n implies #[trigger] after[j] == before[j] by {
                        lemma_with_nulls_slot(*c, additional * n, i * n + j);
                    }
                    assert(after =~= before);
                    assert(e.slot(i) matches Slot::List(items) && items =~= after);
                    assert(p.slot(i) matches Slot::List(items) && items =~= before);
                },
            }
        }
    } else {
        assert(e.is_null(i));
    }
}

} // verus!
