//! What holds of every run of a builder.
//!
//! A run is a list of steps, each of them one call of `extend` or of
//! `extend_validity`. The array that a builder gives up at the end is the
//! pending array that the steps lead to, so the laws are stated on that.
use crate::array::growable::model::{
    any_nulls, bindable, fresh, lemma_extended, lemma_extended_slot, lemma_fresh,
    lemma_with_nulls, lemma_with_nulls_slot, materialized,
};
use crate::array::{lemma_wf_sizes, ArrayView, Payload, Slot};
use crate::bitmap::{constant_bits, lemma_unset_count_add, lemma_unset_count_constant};
use vstd::prelude::*;

verus! {

/// One call on a builder.
pub enum Step {
    /// Append the slots `start .. start + len` of the source `index`.
    Extend { index: nat, start: nat, len: nat },
    /// Append `additional` null slots.
    Nulls { additional: nat },
}

/// Every step that copies from a source names a source that exists and a
/// range that lies within it.
pub open spec fn allowed(sources: Seq<ArrayView>, steps: Seq<Step>) -> bool {
    forall|k: int|
        0 <= k < steps.len() ==> ((#[trigger] steps[k]) matches Step::Extend { index, start, len }
            ==> index < sources.len() && start + len <= sources[index as int].len())
}

/// The pending array that `steps` lead to, from `pending` on.
pub open spec fn driven(pending: ArrayView, sources: Seq<ArrayView>, steps: Seq<Step>) -> ArrayView
    decreases steps.len(),
{
    if steps.len() == 0 {
        pending
    } else {
        let before = driven(pending, sources, steps.drop_last());
        match steps.last() {
            Step::Extend { index, start, len } => before.extended(
                sources[index as int],
                start,
                len,
            ),
            Step::Nulls { additional } => before.with_nulls(additional),
        }
    }
}

/// `n` null slots.
pub open spec fn nulls(n: nat) -> Seq<Slot> {
    Seq::new(n, |i: int| Slot::Null)
}

/// What the steps append, slot by slot: for a copy, the slots of the
/// range as a reader of the source sees them, and for nulls, nulls.
pub open spec fn gathered(sources: Seq<ArrayView>, steps: Seq<Step>) -> Seq<Slot>
    decreases steps.len(),
{
    if steps.len() == 0 {
        Seq::empty()
    } else {
        gathered(sources, steps.drop_last()) + match steps.last() {
            Step::Extend { index, start, len } => sources[index as int].slots().subrange(
                start as int,
                (start + len) as int,
            ),
            Step::Nulls { additional } => nulls(additional),
        }
    }
}

/// The slots of the first `n` sources, one source after the other.
pub open spec fn joined(sources: Seq<ArrayView>, n: nat) -> Seq<Slot>
    decreases n,
{
    if n == 0 {
        Seq::empty()
    } else {
        joined(sources, (n - 1) as nat) + sources[n - 1].slots()
    }
}

/// The concatenation of the sources, as a reader sees it.
pub open spec fn concatenation(sources: Seq<ArrayView>) -> Seq<Slot> {
    joined(sources, sources.len())
}

/// The places that the steps copy from, in the order in which they are
/// copied: a place is the number of a source and of a slot in it.
pub open spec fn visited(steps: Seq<Step>) -> Seq<(int, int)>
    decreases steps.len(),
{
    if steps.len() == 0 {
        Seq::empty()
    } else {
        visited(steps.drop_last()) + match steps.last() {
            Step::Extend { index, start, len } => Seq::new(
                len,
                |k: int| (index as int, start + k),
            ),
            Step::Nulls { additional } => Seq::empty(),
        }
    }
}

/// Every place of the first `n` sources, in their order.
pub open spec fn places(sources: Seq<ArrayView>, n: nat) -> Seq<(int, int)>
    decreases n,
{
    if n == 0 {
        Seq::empty()
    } else {
        places(sources, (n - 1) as nat) + Seq::new(sources[n - 1].len(), |k: int| (n - 1, k))
    }
}

/// The steps are copies only, and between them they copy every slot of
/// every source exactly once, in the order of the sources.
pub open spec fn covers(sources: Seq<ArrayView>, steps: Seq<Step>) -> bool {
    &&& forall|k: int| 0 <= k < steps.len() ==> (#[trigger] steps[k]) is Extend
    &&& visited(steps) == places(sources, sources.len())
}

/// What a reader sees at each of the places.
pub open spec fn seen(sources: Seq<ArrayView>, at: Seq<(int, int)>) -> Seq<Slot> {
    Seq::new(at.len(), |i: int| sources[at[i].0].slot(at[i].1))
}

/// After a range of a source has been appended, a reader sees the old
/// slots followed by the slots of the range.
pub proof fn lemma_extended_slots(p: ArrayView, s: ArrayView, start: nat, len: nat)
    requires
        p.wf(),
        s.wf(),
        p.data_type == s.data_type,
        start + len <= s.len(),
    ensures
        p.extended(s, start, len).slots() == p.slots() + s.slots().subrange(
            start as int,
            (start + len) as int,
        ),
{
    let e = p.extended(s, start, len);
    let expected = p.slots() + s.slots().subrange(start as int, (start + len) as int);
    lemma_extended(p, s, start, len);
    assert forall|i: int| 0 <= i < e.len() implies #[trigger] e.slots()[i] == expected[i] by {
        lemma_extended_slot(p, s, start, len, i);
    }
    assert(e.slots() =~= expected);
}

/// After null slots have been appended, a reader sees the old slots
/// followed by as many nulls.
pub proof fn lemma_with_nulls_slots(p: ArrayView, additional: nat)
    requires
        p.wf(),
    ensures
        p.with_nulls(additional).slots() == p.slots() + nulls(additional),
{
    let e = p.with_nulls(additional);
    let expected = p.slots() + nulls(additional);
    lemma_with_nulls(p, additional);
    assert forall|i: int| 0 <= i < e.len() implies #[trigger] e.slots()[i] == expected[i] by {
        lemma_with_nulls_slot(p, additional, i);
    }
    assert(e.slots() =~= expected);
}

/// A run keeps the pending array well formed and of its type, never
/// drops a validity mask, and appends what its steps gather.
pub proof fn lemma_driven(pending: ArrayView, sources: Seq<ArrayView>, steps: Seq<Step>)
    requires
        pending.wf(),
        bindable(sources),
        pending.data_type == sources[0].data_type,
        allowed(sources, steps),
    ensures
        driven(pending, sources, steps).wf(),
        driven(pending, sources, steps).data_type == pending.data_type,
        driven(pending, sources, steps).slots() == pending.slots() + gathered(sources, steps),
        pending.validity is Some ==> driven(pending, sources, steps).validity is Some,
    decreases steps.len(),
{
    if steps.len() == 0 {
        assert(pending.slots() + gathered(sources, steps) =~= pending.slots());
    } else {
        let earlier = steps.drop_last();
        assert(allowed(sources, earlier)) by {
            assert forall|k: int| 0 <= k < earlier.len() implies earlier[k] == steps[k] by {}
        }
        lemma_driven(pending, sources, earlier);
        let before = driven(pending, sources, earlier);
        let last = steps[steps.len() - 1];
        match last {
            Step::Extend { index, start, len } => {
                let source = sources[index as int];
                lemma_extended(before, source, start, len);
                lemma_extended_slots(before, source, start, len);
                assert(before.extended(source, start, len).slots() =~= pending.slots() + gathered(
                    sources,
                    steps,
                ));
            },
            Step::Nulls { additional } => {
                lemma_with_nulls(before, additional);
                lemma_with_nulls_slots(before, additional);
                assert(before.with_nulls(additional).slots() =~= pending.slots() + gathered(
                    sources,
                    steps,
                ));
            },
        }
    }
}

/// What copies gather is what a reader sees at the places that they visit.
proof fn lemma_gathered_seen(sources: Seq<ArrayView>, steps: Seq<Step>)
    requires
        allowed(sources, steps),
        forall|k: int| 0 <= k < steps.len() ==> (#[trigger] steps[k]) is Extend,
    ensures
        gathered(sources, steps) == seen(sources, visited(steps)),
    decreases steps.len(),
{
    if steps.len() == 0 {
        assert(gathered(sources, steps) =~= seen(sources, visited(steps)));
    } else {
        let earlier = steps.drop_last();
        assert forall|k: int| 0 <= k < earlier.len() implies (#[trigger] earlier[k]) is Extend && (
        earlier[k] matches Step::Extend { index, start, len } ==> index < sources.len() && start
            + len <= sources[index as int].len()) by {
            assert(earlier[k] == steps[k]);
        }
        lemma_gathered_seen(sources, earlier);
        let last = steps[steps.len() - 1];
        assert(last is Extend);
        assert(gathered(sources, steps) =~= seen(sources, visited(steps)));
    }
}

/// The slots of the first `n` sources are what a reader sees at their places.
proof fn lemma_joined_seen(sources: Seq<ArrayView>, n: nat)
    requires
        n <= sources.len(),
    ensures
        joined(sources, n) == seen(sources, places(sources, n)),
    decreases n,
{
    if n == 0 {
        assert(joined(sources, n) =~= seen(sources, places(sources, n)));
    } else {
        lemma_joined_seen(sources, (n - 1) as nat);
        assert(joined(sources, n) =~= seen(sources, places(sources, n)));
    }
}

/// The plainest run: one step for each of the first `n` sources, which
/// copies the whole of it.
pub open spec fn source_by_source(sources: Seq<ArrayView>, n: nat) -> Seq<Step> {
    Seq::new(n, |i: int| Step::Extend { index: i as nat, start: 0, len: sources[i].len() })
}

/// Copying each source whole, one after the other, covers the sources.
pub proof fn lemma_source_by_source_covers(sources: Seq<ArrayView>)
    ensures
        allowed(sources, source_by_source(sources, sources.len())),
        covers(sources, source_by_source(sources, sources.len())),
{
    lemma_source_by_source_visits(sources, sources.len());
}

/// Copying each of the first `n` sources whole visits their places in order.
proof fn lemma_source_by_source_visits(sources: Seq<ArrayView>, n: nat)
    requires
        n <= sources.len(),
    ensures
        visited(source_by_source(sources, n)) == places(sources, n),
    decreases n,
{
    let steps = source_by_source(sources, n);
    if n > 0 {
        lemma_source_by_source_visits(sources, (n - 1) as nat);
        assert(steps.drop_last() =~= source_by_source(sources, (n - 1) as nat));
        assert(visited(steps) =~= places(sources, n));
    }
}

/// A builder that is driven with calls of `extend` which between them
/// cover every slot of every source exactly once, in the order of the
/// sources, assembles the concatenation of the sources: an array of the
/// type of the sources in which a reader sees the slots of the first
/// source, then those of the second, and so on.
pub proof fn law_concatenation(sources: Seq<ArrayView>, use_validity: bool, steps: Seq<Step>)
    requires
        bindable(sources),
        allowed(sources, steps),
        covers(sources, steps),
    ensures
        ({
            let built = driven(fresh(sources[0].data_type, sources, use_validity), sources, steps);
            &&& built.wf()
            &&& built.data_type == sources[0].data_type
            &&& built.slots() == concatenation(sources)
        }),
{
    let start = fresh(sources[0].data_type, sources, use_validity);
    lemma_wf_sizes(sources[0]);
    lemma_fresh(sources[0].data_type, sources, use_validity);
    lemma_driven(start, sources, steps);
    lemma_gathered_seen(sources, steps);
    lemma_joined_seen(sources, sources.len());
    assert(start.slots() =~= Seq::<Slot>::empty());
    assert(start.slots() + gathered(sources, steps) =~= gathered(sources, steps));
}

/// Appending `additional` null slots, at any moment of a run, makes the
/// array longer by exactly that many slots, all of which a reader sees as
/// null, and leaves the slots before them as they were: the array has
/// exactly that many more nulls. The payload grows by exactly
/// `additional` times the slot size: for a list, that many slots of the
/// child array. The array has a mask afterwards if it had one or if any
/// null was appended.
pub proof fn law_nulls_appended(pending: ArrayView, additional: nat)
    requires
        pending.wf(),
    ensures
        pending.with_nulls(additional).wf(),
        pending.with_nulls(additional).len() == pending.len() + additional,
        pending.with_nulls(additional).slots() == pending.slots() + nulls(additional),
        pending.with_nulls(additional).null_count() == pending.null_count() + additional,
        pending.with_nulls(additional).raw_len() == pending.raw_len() + additional
            * pending.size(),
        pending.with_nulls(additional).validity is Some <==> pending.validity is Some
            || additional > 0,
{
    lemma_with_nulls(pending, additional);
    lemma_with_nulls_slots(pending, additional);
    if additional > 0 {
        let before = materialized(pending.validity, pending.len());
        lemma_unset_count_add(before, constant_bits(additional, false));
        lemma_unset_count_constant(additional, false);
        lemma_unset_count_constant(pending.len(), true);
    }
}

/// Appending no null slot changes nothing: not the length, not the
/// payload, and not the mask, which stays missing where it was missing.
/// Appending `first` null slots and then `second` gives the same array as
/// appending `first + second` at once.
pub proof fn law_nulls_add_up(pending: ArrayView, first: nat, second: nat)
    requires
        pending.wf(),
    ensures
        pending.with_nulls(0) == pending,
        pending.with_nulls(first).with_nulls(second) == pending.with_nulls(first + second),
    decreases pending,
{
    let n = pending.size();
    let once = pending.with_nulls(first);
    let twice = once.with_nulls(second);
    let whole = pending.with_nulls(first + second);
    if first > 0 && second > 0 {
        lemma_with_nulls(pending, first);
        assert(first * n + second * n == (first + second) * n) by (nonlinear_arith);
        assert(first * n > 0 && second * n > 0) by (nonlinear_arith)
            requires
                first > 0,
                second > 0,
                n > 0,
        ;
        assert(twice.validity->0 =~= whole.validity->0);
        match pending.payload {
            Payload::Bytes(b) => {
                assert(twice.bytes() =~= whole.bytes());
            },
            Payload::Child(c) => {
                law_nulls_add_up(*c, first * n, second * n);
            },
        }
    }
}

/// A builder bound to sources of which any has a null slot gives up an
/// array with a validity mask, whatever it was asked and however it was
/// driven, even if no null was ever copied.
pub proof fn law_nulls_force_validity(
    sources: Seq<ArrayView>,
    use_validity: bool,
    steps: Seq<Step>,
)
    requires
        bindable(sources),
        any_nulls(sources),
        allowed(sources, steps),
    ensures
        driven(fresh(sources[0].data_type, sources, use_validity), sources, steps).validity is Some,
{
    let start = fresh(sources[0].data_type, sources, use_validity);
    lemma_wf_sizes(sources[0]);
    lemma_fresh(sources[0].data_type, sources, use_validity);
    lemma_driven(start, sources, steps);
}

} // verus!
