//! Destination volumes as the contracts see them, and what follows from
//! their numbers.

use vstd::prelude::*;

verus! {

/// A destination volume as the contracts see it.
pub struct Volume {
    /// Where the volume is mounted; no two volumes share a path.
    pub path: Seq<char>,
    /// Nominal capacity in bytes.
    pub capacity: nat,
    /// Number of current-generation plots on the volume.
    pub finished: nat,
    /// Number of plots of the reference size that the capacity allows.
    pub max: nat,
    /// Capacity less the bytes of all files on the volume. Negative when the
    /// files outgrow the nominal capacity.
    pub remaining: int,
    /// Throughput of the transfer in flight, in bytes per second.
    pub rate: nat,
    /// Bytes written so far by the transfer in flight.
    pub transferred: nat,
    /// Whether a transfer to this volume is in flight.
    pub busy: bool,
}

/// Slots of a volume that are still free: none when it holds as many plots
/// as it allows, or more.
pub open spec fn free_slots(v: Volume) -> nat {
    if v.max > v.finished {
        (v.max - v.finished) as nat
    } else {
        0
    }
}

/// Free slots of all volumes together.
pub open spec fn total_free_slots(vs: Seq<Volume>) -> nat
    decreases vs.len(),
{
    if vs.len() == 0 {
        0
    } else {
        total_free_slots(vs.drop_last()) + free_slots(vs.last())
    }
}

/// Slots of all volumes together, free or taken.
pub open spec fn total_max_slots(vs: Seq<Volume>) -> nat
    decreases vs.len(),
{
    if vs.len() == 0 {
        0
    } else {
        total_max_slots(vs.drop_last()) + vs.last().max
    }
}

/// The volume mounted at `path` stands at position `i`.
pub open spec fn mounted_at(vs: Seq<Volume>, path: Seq<char>, i: int) -> bool {
    0 <= i < vs.len() && vs[i].path == path
}

/// No two volumes share a path.
pub open spec fn distinct_paths(vs: Seq<Volume>) -> bool {
    forall|i: int, j: int| 0 <= i < j < vs.len() ==> vs[i].path != vs[j].path
}

/// The volumes after the transfer flag of the one mounted at `path` was
/// flipped and its live counters were set to zero.
pub open spec fn flipped(vs: Seq<Volume>, path: Seq<char>) -> Seq<Volume> {
    vs.map_values(
        |v: Volume|
            if v.path == path {
                Volume { busy: !v.busy, rate: 0, transferred: 0, ..v }
            } else {
                v
            },
    )
}

/// The volume with the live counters of its transfer set anew.
pub open spec fn with_progress(v: Volume, rate: u64, transferred: u64) -> Volume {
    Volume { rate: rate as nat, transferred: transferred as nat, ..v }
}

/// The volumes after the live counters of the one mounted at `path` were set
/// anew.
pub open spec fn progressed(vs: Seq<Volume>, path: Seq<char>, rate: u64, transferred: u64) -> Seq<
    Volume,
> {
    vs.map_values(
        |v: Volume|
            if v.path == path {
                with_progress(v, rate, transferred)
            } else {
                v
            },
    )
}

/// The volume with `remaining` bytes left and everything else as it was.
pub open spec fn with_remaining(v: Volume, remaining: int) -> Volume {
    Volume { remaining, ..v }
}

/// The volume after a plot of `size` bytes was stored on it.
pub open spec fn with_plot(v: Volume, size: u64) -> Volume {
    Volume { remaining: v.remaining - size, finished: v.finished + 1, ..v }
}

/// The counters of the volume can take one more plot of `size` bytes.
pub open spec fn can_take_plot(v: Volume, size: u64) -> bool {
    v.remaining - size >= i128::MIN && v.finished < usize::MAX
}

/// Taking one more volume into account adds its slots to both totals.
pub proof fn lemma_total_slots_step(vs: Seq<Volume>, n: int)
    requires
        0 <= n < vs.len(),
    ensures
        total_max_slots(vs.take(n + 1)) == total_max_slots(vs.take(n)) + vs[n].max,
        total_free_slots(vs.take(n + 1)) == total_free_slots(vs.take(n)) + free_slots(vs[n]),
{
    assert(vs.take(n + 1).drop_last() =~= vs.take(n));
}

/// There are never more free slots than slots.
pub proof fn lemma_free_within_max(vs: Seq<Volume>)
    ensures
        total_free_slots(vs) <= total_max_slots(vs),
    decreases vs.len(),
{
    if vs.len() > 0 {
        lemma_free_within_max(vs.drop_last());
    }
}

/// The first volumes have no more slots than all of them, and never more free
/// slots than slots.
pub proof fn lemma_total_slots_grow(vs: Seq<Volume>, n: int)
    requires
        0 <= n <= vs.len(),
    ensures
        total_max_slots(vs.take(n)) <= total_max_slots(vs),
        total_free_slots(vs.take(n)) <= total_free_slots(vs),
        total_free_slots(vs.take(n)) <= total_max_slots(vs.take(n)),
    decreases vs.len() - n,
{
    lemma_free_within_max(vs.take(n));
    if n < vs.len() {
        lemma_total_slots_step(vs, n);
        lemma_total_slots_grow(vs, n + 1);
    } else {
        assert(vs.take(n) =~= vs);
    }
}

/// Volumes that agree in their paths and slot limits agree in what makes an
/// inventory well formed.
pub proof fn lemma_same_slots(before: Seq<Volume>, after: Seq<Volume>)
    requires
        before.len() == after.len(),
        forall|k: int|
            0 <= k < before.len() ==> before[k].path == after[k].path && before[k].max
                == after[k].max,
    ensures
        total_max_slots(after) == total_max_slots(before),
        distinct_paths(before) ==> distinct_paths(after),
    decreases before.len(),
{
    if before.len() > 0 {
        lemma_same_slots(before.drop_last(), after.drop_last());
    }
}

/// Volumes that agree in their slot limits and in their finished plots have
/// the same free slots.
pub proof fn lemma_same_free_slots(before: Seq<Volume>, after: Seq<Volume>)
    requires
        before.len() == after.len(),
        forall|k: int|
            0 <= k < before.len() ==> before[k].max == after[k].max && before[k].finished
                == after[k].finished,
    ensures
        total_free_slots(after) == total_free_slots(before),
    decreases before.len(),
{
    if before.len() > 0 {
        lemma_same_free_slots(before.drop_last(), after.drop_last());
    }
}

/// Replacing one volume changes the free slots of all by what that volume
/// gained or lost.
pub proof fn lemma_free_slots_update(vs: Seq<Volume>, i: int, v: Volume)
    requires
        0 <= i < vs.len(),
    ensures
        total_free_slots(vs.update(i, v)) + free_slots(vs[i]) == total_free_slots(vs) + free_slots(
            v,
        ),
    decreases vs.len(),
{
    if i == vs.len() - 1 {
        assert(vs.update(i, v).drop_last() =~= vs.drop_last());
    } else {
        assert(vs.update(i, v).drop_last() =~= vs.drop_last().update(i, v));
        lemma_free_slots_update(vs.drop_last(), i, v);
    }
}

/// Storing a plot on a volume that had a free slot takes exactly one slot
/// from the total; on a volume that had none, the total stays as it was. It
/// never grows.
pub proof fn lemma_stored_plot_takes_slot(vs: Seq<Volume>, i: int, size: u64)
    requires
        0 <= i < vs.len(),
    ensures
        free_slots(vs[i]) > 0 ==> total_free_slots(vs.update(i, with_plot(vs[i], size))) + 1
            == total_free_slots(vs),
        free_slots(vs[i]) == 0 ==> total_free_slots(vs.update(i, with_plot(vs[i], size)))
            == total_free_slots(vs),
        total_free_slots(vs.update(i, with_plot(vs[i], size))) <= total_free_slots(vs),
{
    lemma_free_slots_update(vs, i, with_plot(vs[i], size));
}

/// Where the slot limits stay and no volume loses a finished plot, the free
/// slots of all volumes together do not grow.
pub proof fn lemma_free_slots_never_grow(before: Seq<Volume>, after: Seq<Volume>)
    requires
        before.len() == after.len(),
        forall|k: int|
            0 <= k < before.len() ==> before[k].max == after[k].max && before[k].finished
                <= after[k].finished,
    ensures
        total_free_slots(after) <= total_free_slots(before),
    decreases before.len(),
{
    if before.len() > 0 {
        lemma_free_slots_never_grow(before.drop_last(), after.drop_last());
    }
}

/// Where no two volumes share a path, a path names one volume at most.
pub proof fn lemma_path_names_one_volume(vs: Seq<Volume>, path: Seq<char>, i: int, j: int)
    requires
        distinct_paths(vs),
        mounted_at(vs, path, i),
        mounted_at(vs, path, j),
    ensures
        i == j,
{
    if i < j {
        assert(vs[i].path != vs[j].path);
    } else if j < i {
        assert(vs[j].path != vs[i].path);
    }
}

/// The volume has no more bytes left than its free slots hold, and a part of
/// one slot more.
pub open spec fn snug(v: Volume, reference: u64) -> bool {
    v.remaining < (free_slots(v) + 1) * reference
}

/// A snug volume with room for a plot no smaller than the reference has a
/// free slot.
pub proof fn lemma_room_on_snug_volume_is_a_slot(v: Volume, reference: u64, size: u64)
    requires
        snug(v, reference),
        size >= reference,
        v.remaining > size,
    ensures
        free_slots(v) > 0,
{
    if free_slots(v) == 0 {
        assert((free_slots(v) + 1) * reference == reference) by (nonlinear_arith)
            requires
                free_slots(v) == 0,
        ;
    }
}

/// A snug volume stays snug when a plot no smaller than the reference is
/// stored on it.
pub proof fn lemma_stored_plot_keeps_snug(v: Volume, reference: u64, size: u64)
    requires
        snug(v, reference),
        size >= reference,
    ensures
        snug(with_plot(v, size), reference),
{
    let w = with_plot(v, size);
    let f: int = free_slots(v) as int;
    let g: int = free_slots(w) as int;
    let c: int = reference as int;
    if f > 0 {
        assert(g == f - 1);
        assert((f + 1) * c - c == (g + 1) * c) by (nonlinear_arith)
            requires
                g == f - 1,
        ;
    } else {
        assert(g == 0);
        assert((f + 1) * c == c && (g + 1) * c == c) by (nonlinear_arith)
            requires
                f == 0,
                g == 0,
        ;
    }
}

} // verus!
