//! Where the next plot goes: the roomiest volume that no transfer has
//! claimed, or, when none has room, the one with the most free slots.

use vstd::prelude::*;
use crate::volume::{free_slots, lemma_room_on_snug_volume_is_a_slot, snug, Volume};

verus! {

/// Where the next plot goes.
#[derive(Debug, Clone, Copy, PartialEq, Eq, Structural)]
pub enum Placement {
    /// The volume at this position has room for the plot as it is.
    Direct(usize),
    /// No volume has room; the volume at this position has the most free
    /// slots, and legacy files must leave it before the plot is sent.
    AfterEviction(usize),
    /// No volume can take the plot now.
    Unavailable,
}

/// The volume at position `i` exists and is not claimed by a transfer.
pub open spec fn unclaimed(vs: Seq<Volume>, claimed: Set<Seq<char>>, i: int) -> bool {
    0 <= i < vs.len() && !claimed.contains(vs[i].path)
}

/// Among the unclaimed volumes, the one at `i` has the most bytes left, and
/// is the first of those that have as many.
pub open spec fn roomiest(vs: Seq<Volume>, claimed: Set<Seq<char>>, i: int) -> bool {
    &&& unclaimed(vs, claimed, i)
    &&& forall|j: int| #[trigger] unclaimed(vs, claimed, j) ==> vs[j].remaining <= vs[i].remaining
    &&& forall|j: int|
        #[trigger] unclaimed(vs, claimed, j) && j < i ==> vs[j].remaining < vs[i].remaining
}

/// Among the unclaimed volumes, the one at `i` has the most free slots, and
/// is the first of those that have as many.
pub open spec fn most_slots(vs: Seq<Volume>, claimed: Set<Seq<char>>, i: int) -> bool {
    &&& unclaimed(vs, claimed, i)
    &&& forall|j: int|
        #[trigger] unclaimed(vs, claimed, j) ==> free_slots(vs[j]) <= free_slots(vs[i])
    &&& forall|j: int|
        #[trigger] unclaimed(vs, claimed, j) && j < i ==> free_slots(vs[j]) < free_slots(vs[i])
}

/// Some unclaimed volume has more than `size` bytes left.
pub open spec fn fits_somewhere(vs: Seq<Volume>, claimed: Set<Seq<char>>, size: u64) -> bool {
    exists|j: int| #[trigger] unclaimed(vs, claimed, j) && vs[j].remaining > size
}

/// `choice` is the placement of a plot of `size` bytes.
///
/// If some unclaimed volume has more than `size` bytes left, the plot goes to
/// the roomiest. Otherwise it goes, after an eviction, to the unclaimed
/// volume with the most free slots, if any has a free slot at all. Ties go to
/// the volume declared first.
pub open spec fn is_placement(
    choice: Placement,
    vs: Seq<Volume>,
    claimed: Set<Seq<char>>,
    size: u64,
) -> bool {
    match choice {
        Placement::Direct(i) => roomiest(vs, claimed, i as int) && vs[i as int].remaining > size,
        Placement::AfterEviction(i) => {
            &&& !fits_somewhere(vs, claimed, size)
            &&& most_slots(vs, claimed, i as int)
            &&& free_slots(vs[i as int]) > 0
        },
        Placement::Unavailable => {
            &&& !fits_somewhere(vs, claimed, size)
            &&& forall|j: int| #[trigger] unclaimed(vs, claimed, j) ==> free_slots(vs[j]) == 0
        },
    }
}

/// Placement is a function of the inventory, the claims and the size: two
/// placements of the same plot on the same state are the same placement.
pub proof fn lemma_placement_is_determined(
    first: Placement,
    second: Placement,
    vs: Seq<Volume>,
    claimed: Set<Seq<char>>,
    size: u64,
)
    requires
        is_placement(first, vs, claimed, size),
        is_placement(second, vs, claimed, size),
    ensures
        first == second,
{
    match (first, second) {
        (Placement::Direct(a), Placement::Direct(b)) => {
            assert(unclaimed(vs, claimed, a as int) && unclaimed(vs, claimed, b as int));
        },
        (Placement::AfterEviction(a), Placement::AfterEviction(b)) => {
            assert(unclaimed(vs, claimed, a as int) && unclaimed(vs, claimed, b as int));
        },
        (Placement::Direct(a), _) => {
            assert(unclaimed(vs, claimed, a as int));
        },
        (_, Placement::Direct(b)) => {
            assert(unclaimed(vs, claimed, b as int));
        },
        (Placement::AfterEviction(a), Placement::Unavailable) => {
            assert(unclaimed(vs, claimed, a as int));
        },
        (Placement::Unavailable, Placement::AfterEviction(b)) => {
            assert(unclaimed(vs, claimed, b as int));
        },
        (Placement::Unavailable, Placement::Unavailable) => {},
    }
}

/// When two unclaimed volumes have the same bytes left and both have room,
/// a direct placement never names the one declared later.
pub proof fn lemma_tie_goes_to_first(
    vs: Seq<Volume>,
    claimed: Set<Seq<char>>,
    size: u64,
    a: int,
    b: int,
    chosen: usize,
)
    requires
        a < b,
        unclaimed(vs, claimed, a),
        unclaimed(vs, claimed, b),
        vs[a].remaining == vs[b].remaining,
        is_placement(Placement::Direct(chosen), vs, claimed, size),
    ensures
        chosen != b,
{
}

/// A plot no smaller than the reference is never placed on a volume without
/// a free slot, as long as the volume it is sent to directly is snug.
pub proof fn lemma_placement_lands_on_slot(
    choice: Placement,
    vs: Seq<Volume>,
    claimed: Set<Seq<char>>,
    size: u64,
    reference: u64,
)
    requires
        is_placement(choice, vs, claimed, size),
        size >= reference,
        choice matches Placement::Direct(i) ==> snug(vs[i as int], reference),
    ensures
        choice matches Placement::Direct(i) ==> free_slots(vs[i as int]) > 0,
        choice matches Placement::AfterEviction(i) ==> free_slots(vs[i as int]) > 0,
{
    match choice {
        Placement::Direct(i) => {
            lemma_room_on_snug_volume_is_a_slot(vs[i as int], reference, size);
        },
        _ => {},
    }
}

} // verus!
