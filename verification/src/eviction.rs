//! The eviction planner: which legacy files leave a saturated volume so that
//! the next plot fits.
//!
//! The planner walks the files of a volume in the order of their listing. A
//! file within the tolerance band of the reference size is never touched.
//! Every other file is marked for deletion and its size is counted as freed,
//! until the space that remains exceeds what is needed. The listing order is
//! whatever the file system yields; the planner adds no order of its own.

use vstd::prelude::*;
use crate::band::{in_band, is_current_generation};

verus! {

/// What the planner decided for one volume.
#[derive(Debug)]
pub struct EvictionPlan {
    /// Positions in the listing of the files to delete, in listing order.
    pub deletions: Vec<usize>,
    /// How many leading files of the listing were looked at.
    pub examined: usize,
    /// The space that remains on the volume once the deletions are done.
    pub remaining: i128,
    /// Whether that space exceeds what was needed.
    pub enough: bool,
}

/// Bytes held by the legacy files among the first `upto` files.
pub open spec fn legacy_bytes(sizes: Seq<u64>, reference: u64, upto: int) -> nat
    decreases upto,
{
    if upto <= 0 || upto > sizes.len() {
        0
    } else if in_band(sizes[upto - 1], reference) {
        legacy_bytes(sizes, reference, upto - 1)
    } else {
        legacy_bytes(sizes, reference, upto - 1) + sizes[upto - 1] as nat
    }
}

/// Positions of the legacy files among the first `upto` files, ascending.
pub open spec fn legacy_positions(sizes: Seq<u64>, reference: u64, upto: int) -> Seq<usize>
    decreases upto,
{
    if upto <= 0 || upto > sizes.len() {
        Seq::empty()
    } else if in_band(sizes[upto - 1], reference) {
        legacy_positions(sizes, reference, upto - 1)
    } else {
        legacy_positions(sizes, reference, upto - 1).push((upto - 1) as usize)
    }
}

/// Deleting the legacy files among the first `upto` files leaves more than
/// `needed` bytes.
pub open spec fn frees_enough(
    remaining: int,
    needed: u64,
    reference: u64,
    sizes: Seq<u64>,
    upto: int,
) -> bool {
    remaining + legacy_bytes(sizes, reference, upto) > needed
}

/// `plan` is the planner's answer for a volume with `remaining` bytes left
/// whose files have the given `sizes`, when more than `needed` bytes are
/// wanted.
///
/// The plan looks at the shortest run of leading files whose legacy members
/// free enough, or at all files if no run does; it deletes exactly the legacy
/// files of that run; and it reports success exactly when the legacy files of
/// the whole listing would free enough.
pub open spec fn is_eviction_plan(
    plan: EvictionPlan,
    remaining: int,
    needed: u64,
    reference: u64,
    sizes: Seq<u64>,
) -> bool {
    &&& 0 <= plan.examined <= sizes.len()
    &&& forall|k: int|
        0 <= k < plan.examined ==> !#[trigger] frees_enough(remaining, needed, reference, sizes, k)
    &&& plan.enough == frees_enough(remaining, needed, reference, sizes, plan.examined as int)
    &&& !plan.enough ==> plan.examined == sizes.len()
    &&& plan.deletions@ == legacy_positions(sizes, reference, plan.examined as int)
    &&& plan.remaining == remaining + legacy_bytes(sizes, reference, plan.examined as int)
}

/// Looking at more files never frees less.
pub proof fn lemma_legacy_bytes_grow(sizes: Seq<u64>, reference: u64, a: int, b: int)
    requires
        0 <= a <= b <= sizes.len(),
    ensures
        legacy_bytes(sizes, reference, a) <= legacy_bytes(sizes, reference, b),
    decreases b - a,
{
    if a < b {
        lemma_legacy_bytes_grow(sizes, reference, a, b - 1);
    }
}

/// A plan succeeds exactly when the legacy files of the whole volume, taken
/// together, free enough: it never reports success on too little, and never
/// fails while enough legacy data is there to delete.
pub proof fn lemma_plan_succeeds_iff_legacy_suffices(
    plan: EvictionPlan,
    remaining: int,
    needed: u64,
    reference: u64,
    sizes: Seq<u64>,
)
    requires
        is_eviction_plan(plan, remaining, needed, reference, sizes),
    ensures
        plan.enough <==> remaining + legacy_bytes(sizes, reference, sizes.len() as int) > needed,
        plan.enough ==> plan.remaining > needed,
{
    lemma_legacy_bytes_grow(sizes, reference, plan.examined as int, sizes.len() as int);
}

/// Every file a plan deletes is a legacy file of the listing, and no file of
/// the current generation is ever among them.
pub proof fn lemma_plan_spares_current_generation(
    sizes: Seq<u64>,
    reference: u64,
    upto: int,
    k: int,
)
    requires
        0 <= upto <= sizes.len() <= usize::MAX,
        0 <= k < legacy_positions(sizes, reference, upto).len(),
    ensures
        legacy_positions(sizes, reference, upto)[k] < upto,
        !in_band(sizes[legacy_positions(sizes, reference, upto)[k] as int], reference),
    decreases upto,
{
    if upto > 0 {
        let shorter = legacy_positions(sizes, reference, upto - 1);
        if k < shorter.len() {
            lemma_plan_spares_current_generation(sizes, reference, upto - 1, k);
        }
    }
}

/// Plans the eviction on a volume with `remaining` bytes left so that more
/// than `needed` bytes remain, given the sizes of its files in listing order.
pub fn plan_eviction(remaining: i128, needed: u64, reference: u64, sizes: &Vec<u64>) -> (plan:
    EvictionPlan)
    ensures
        is_eviction_plan(plan, remaining as int, needed, reference, sizes@),
{
    let mut deletions: Vec<usize> = Vec::new();
    let mut left: i128 = remaining;
    let mut at: usize = 0;
    while at < sizes.len() && left <= needed as i128
        invariant
            at <= sizes@.len(),
            left == remaining + legacy_bytes(sizes@, reference, at as int),
            deletions@ == legacy_positions(sizes@, reference, at as int),
            forall|k: int|
                0 <= k < at ==> !#[trigger] frees_enough(
                    remaining as int,
                    needed,
                    reference,
                    sizes@,
                    k,
                ),
        decreases sizes@.len() - at,
    {
        let size: u64 = sizes[at];
        if !is_current_generation(size, reference) {
            deletions.push(at);
            left = left + size as i128;
        }
        at = at + 1;
    }
    EvictionPlan { deletions, examined: at, remaining: left, enough: left > needed as i128 }
}

} // verus!
