//! A run as the contracts see it: the inventory, the claims, the transfers
//! in flight and the place of the loop; what holds of them at every moment;
//! and what each step makes of them.

use vstd::prelude::*;
use crate::placement::unclaimed;
use crate::volume::{
    distinct_paths, flipped, free_slots, lemma_free_slots_never_grow, lemma_free_slots_update,
    lemma_same_free_slots, lemma_same_slots, progressed, total_free_slots, total_max_slots,
    with_plot, with_remaining, Volume,
};

verus! {

/// Where the loop stands.
#[derive(Debug, Clone, Copy, PartialEq, Eq, Structural)]
pub enum Phase {
    /// About to count the free slots.
    Scanning,
    /// Waiting for the listing of the staging directory.
    WaitingForSource,
    /// A plot is claimed; waiting for its size.
    Sizing,
    /// A volume is chosen that must be cleared; waiting for its listing.
    Evicting,
    /// No slot is free. Nothing is started any more.
    Done,
}

/// A transfer in flight.
pub struct Job {
    /// The name of the plot.
    pub plot: Seq<char>,
    /// The path of the volume it goes to.
    pub dir: Seq<char>,
    /// The position of that volume in the inventory.
    pub disk: usize,
    /// The size of the plot in bytes.
    pub size: u64,
}

/// The whole run.
pub struct RunState {
    /// The inventory.
    pub volumes: Seq<Volume>,
    /// The reference plot size of the inventory.
    pub reference: u64,
    /// Names of the plots that are spoken for.
    pub claimed_plots: Set<Seq<char>>,
    /// Paths of the volumes that are spoken for.
    pub claimed_dirs: Set<Seq<char>>,
    /// The transfers in flight, oldest first.
    pub in_flight: Seq<Job>,
    /// Where the loop stands.
    pub phase: Phase,
    /// The plot being placed, while the phase is `Sizing` or `Evicting`.
    pub pending_plot: Seq<char>,
    /// Its size, while the phase is `Evicting`.
    pub pending_size: u64,
    /// The position of the volume being cleared, while the phase is
    /// `Evicting`.
    pub pending_disk: usize,
    /// Whether a plot that found no volume is released for a later attempt.
    pub release_unplaced: bool,
}

/// A plot is being placed.
pub open spec fn placing(r: RunState) -> bool {
    r.phase == Phase::Sizing || r.phase == Phase::Evicting
}

/// Some transfer in flight carries the plot named `plot`.
pub open spec fn plot_in_flight(jobs: Seq<Job>, plot: Seq<char>) -> bool {
    exists|k: int| 0 <= k < jobs.len() && (#[trigger] jobs[k]).plot == plot
}

/// Some transfer in flight goes to the volume mounted at `dir`.
pub open spec fn dir_in_flight(jobs: Seq<Job>, dir: Seq<char>) -> bool {
    exists|k: int| 0 <= k < jobs.len() && (#[trigger] jobs[k]).dir == dir
}

/// The transfer at position `k` carries `plot` to `dir`.
pub open spec fn job_at(jobs: Seq<Job>, plot: Seq<char>, dir: Seq<char>, k: int) -> bool {
    0 <= k < jobs.len() && jobs[k].plot == plot && jobs[k].dir == dir
}

/// No two transfers in flight share a volume, and none share a plot.
pub open spec fn exclusive(jobs: Seq<Job>) -> bool {
    forall|a: int, b: int|
        0 <= a < b < jobs.len() ==> jobs[a].dir != jobs[b].dir && jobs[a].plot != jobs[b].plot
}

/// What holds of a run at every moment.
///
/// The inventory is well formed. Transfers in flight are exclusive. A
/// volume is claimed exactly while a transfer to it is in flight, and it is
/// marked busy exactly while it is claimed. The plot of every transfer in
/// flight, and the plot being placed, are claimed, and the plot being placed
/// belongs to no transfer yet. Every transfer in flight knows the position
/// of its volume. The volume being cleared is not claimed and has a free
/// slot. Where unplaced
/// plots are released, no other plot is claimed. A run that is done has no
/// free slot left.
pub open spec fn run_wf(r: RunState) -> bool {
    &&& distinct_paths(r.volumes)
    &&& total_max_slots(r.volumes) <= usize::MAX
    &&& r.reference > 0
    &&& exclusive(r.in_flight)
    &&& forall|d: Seq<char>| r.claimed_dirs.contains(d) <==> dir_in_flight(r.in_flight, d)
    &&& forall|i: int|
        0 <= i < r.volumes.len() ==> ((#[trigger] r.volumes[i]).busy <==> r.claimed_dirs.contains(
            r.volumes[i].path,
        ))
    &&& forall|k: int|
        0 <= k < r.in_flight.len() ==> r.claimed_plots.contains((#[trigger] r.in_flight[k]).plot)
    &&& forall|k: int|
        0 <= k < r.in_flight.len() ==> (#[trigger] r.in_flight[k]).disk < r.volumes.len()
            && r.volumes[r.in_flight[k].disk as int].path == r.in_flight[k].dir
    &&& placing(r) ==> r.claimed_plots.contains(r.pending_plot) && !plot_in_flight(
        r.in_flight,
        r.pending_plot,
    )
    &&& r.phase == Phase::Evicting ==> unclaimed(r.volumes, r.claimed_dirs, r.pending_disk as int)
        && free_slots(r.volumes[r.pending_disk as int]) > 0
    &&& r.release_unplaced ==> forall|p: Seq<char>|
        r.claimed_plots.contains(p) ==> plot_in_flight(r.in_flight, p) || (placing(r) && p
            == r.pending_plot)
    &&& r.phase == Phase::Done ==> total_free_slots(r.volumes) == 0
}

/// `k` is the position of the first name that nobody has claimed.
pub open spec fn first_free(names: Seq<String>, claimed: Set<Seq<char>>, k: int) -> bool {
    &&& 0 <= k < names.len()
    &&& !claimed.contains(names[k]@)
    &&& forall|j: int| 0 <= j < k ==> claimed.contains((#[trigger] names[j])@)
}

/// The run after `plot` was claimed for placing.
pub open spec fn claimed_for_placing(r: RunState, plot: Seq<char>) -> RunState {
    RunState {
        phase: Phase::Sizing,
        pending_plot: plot,
        claimed_plots: r.claimed_plots.insert(plot),
        ..r
    }
}

/// The run after the plot being placed was sent to the volume at `disk`: the
/// volume is claimed and marked busy with its live counters at zero, the
/// transfer is in flight, and the loop scans again.
pub open spec fn dispatched(r: RunState, disk: usize, size: u64) -> RunState {
    let dir = r.volumes[disk as int].path;
    RunState {
        volumes: flipped(r.volumes, dir),
        claimed_dirs: r.claimed_dirs.insert(dir),
        in_flight: r.in_flight.push(Job { plot: r.pending_plot, dir, disk, size }),
        phase: Phase::Scanning,
        ..r
    }
}

/// The run after the plot being placed found no volume: the loop scans
/// again, and the plot is released where the run releases unplaced plots.
pub open spec fn unplaced(r: RunState) -> RunState {
    RunState {
        phase: Phase::Scanning,
        claimed_plots: if r.release_unplaced {
            r.claimed_plots.remove(r.pending_plot)
        } else {
            r.claimed_plots
        },
        ..r
    }
}

/// The run after the volume at `disk` was found to have `remaining` bytes
/// left.
pub open spec fn cleared(r: RunState, disk: usize, remaining: int) -> RunState {
    RunState {
        volumes: r.volumes.update(disk as int, with_remaining(r.volumes[disk as int], remaining)),
        ..r
    }
}

/// The run after the transfer at position `k` ended: it is in flight no
/// more, its plot and its volume are free again, and the volume is marked
/// idle with its live counters at zero.
pub open spec fn released(r: RunState, k: int) -> RunState {
    let job = r.in_flight[k];
    RunState {
        volumes: flipped(r.volumes, job.dir),
        claimed_plots: r.claimed_plots.remove(job.plot),
        claimed_dirs: r.claimed_dirs.remove(job.dir),
        in_flight: r.in_flight.remove(k),
        ..r
    }
}

/// The run after a plot of `size` bytes was counted on the volume at `disk`.
pub open spec fn stored(r: RunState, disk: usize, size: u64) -> RunState {
    RunState {
        volumes: r.volumes.update(disk as int, with_plot(r.volumes[disk as int], size)),
        ..r
    }
}

/// The run after the live counters of the volume mounted at `dir` were set
/// anew.
pub open spec fn reported(r: RunState, dir: Seq<char>, rate: u64, transferred: u64) -> RunState {
    RunState { volumes: progressed(r.volumes, dir, rate, transferred), ..r }
}

/// Two transfers in flight never go to the same volume, and never carry the
/// same plot; and a volume is marked busy exactly while a transfer to it is
/// in flight.
pub proof fn lemma_one_transfer_per_volume_and_plot(r: RunState, a: int, b: int, i: int)
    requires
        run_wf(r),
        0 <= a < r.in_flight.len(),
        0 <= b < r.in_flight.len(),
        a != b,
        0 <= i < r.volumes.len(),
    ensures
        r.in_flight[a].dir != r.in_flight[b].dir,
        r.in_flight[a].plot != r.in_flight[b].plot,
        r.volumes[i].busy <==> dir_in_flight(r.in_flight, r.volumes[i].path),
{
    lemma_job_stands_alone(r.in_flight, b, a);
}

/// A run about to scan in which nothing is marked busy, claimed or in flight
/// is well formed.
pub proof fn lemma_fresh_run_wf(r: RunState)
    requires
        distinct_paths(r.volumes),
        total_max_slots(r.volumes) <= usize::MAX,
        r.reference > 0,
        forall|i: int| 0 <= i < r.volumes.len() ==> !r.volumes[i].busy,
        r.claimed_plots == Set::<Seq<char>>::empty(),
        r.claimed_dirs == Set::<Seq<char>>::empty(),
        r.in_flight == Seq::<Job>::empty(),
        r.phase == Phase::Scanning,
    ensures
        run_wf(r),
{
}

/// Changes to numbers that no claim looks at keep the run well formed: the
/// paths, the slot limits and the busy marks of the volumes stay, no volume
/// loses a finished plot, the volume being cleared gains none, and everything
/// else is as it was.
pub proof fn lemma_same_claims_wf(r: RunState, volumes: Seq<Volume>)
    requires
        run_wf(r),
        volumes.len() == r.volumes.len(),
        forall|i: int|
            0 <= i < volumes.len() ==> {
                &&& volumes[i].path == r.volumes[i].path
                &&& volumes[i].max == r.volumes[i].max
                &&& volumes[i].busy == r.volumes[i].busy
                &&& volumes[i].finished >= r.volumes[i].finished
            },
        r.phase == Phase::Evicting ==> volumes[r.pending_disk as int].finished
            == r.volumes[r.pending_disk as int].finished,
    ensures
        run_wf(RunState { volumes, ..r }),
        total_free_slots(volumes) <= total_free_slots(r.volumes),
{
    let after = RunState { volumes, ..r };
    lemma_same_slots(r.volumes, volumes);
    lemma_free_slots_never_grow(r.volumes, volumes);
    assert forall|i: int| 0 <= i < after.volumes.len() implies ((#[trigger] after.volumes[i]).busy
        <==> after.claimed_dirs.contains(after.volumes[i].path)) by {
        assert(r.volumes[i].busy <==> r.claimed_dirs.contains(r.volumes[i].path));
    }
    assert forall|k: int| 0 <= k < after.in_flight.len() implies (#[trigger] after.in_flight[k]).disk
        < after.volumes.len() && after.volumes[after.in_flight[k].disk as int].path
        == after.in_flight[k].dir by {
        assert(r.in_flight[k].disk < r.volumes.len());
    }
}

/// Claiming a free plot for placing keeps the run well formed.
pub proof fn lemma_claimed_for_placing_wf(r: RunState, plot: Seq<char>)
    requires
        run_wf(r),
        !placing(r),
        !r.claimed_plots.contains(plot),
    ensures
        run_wf(claimed_for_placing(r, plot)),
{
    let after = claimed_for_placing(r, plot);
    assert(!plot_in_flight(r.in_flight, plot)) by {
        if plot_in_flight(r.in_flight, plot) {
            let j = choose|j: int| 0 <= j < r.in_flight.len() && (#[trigger] r.in_flight[j]).plot
                == plot;
            assert(r.claimed_plots.contains(r.in_flight[j].plot));
        }
    }
    assert forall|k: int| 0 <= k < after.in_flight.len() implies after.claimed_plots.contains(
        (#[trigger] after.in_flight[k]).plot,
    ) by {
        assert(r.claimed_plots.contains(r.in_flight[k].plot));
    }
}

/// Sending the plot being placed to an unclaimed volume keeps the run well
/// formed, and marks that volume busy.
pub proof fn lemma_dispatched_wf(r: RunState, disk: usize, size: u64)
    requires
        run_wf(r),
        placing(r),
        unclaimed(r.volumes, r.claimed_dirs, disk as int),
    ensures
        run_wf(dispatched(r, disk, size)),
        dispatched(r, disk, size).volumes[disk as int].busy,
{
    let after = dispatched(r, disk, size);
    let dir = r.volumes[disk as int].path;
    let jobs = r.in_flight;
    lemma_same_slots(r.volumes, after.volumes);
    assert(!dir_in_flight(jobs, dir));
    assert forall|k: int| 0 <= k < jobs.len() implies after.in_flight[k] == jobs[k] by {}
    assert(exclusive(after.in_flight)) by {
        assert forall|a: int, b: int| 0 <= a < b < after.in_flight.len() implies after.in_flight[a].dir
            != after.in_flight[b].dir && after.in_flight[a].plot != after.in_flight[b].plot by {
            if b == jobs.len() {
                assert(jobs[a].dir != dir);
                assert(jobs[a].plot != r.pending_plot);
            }
        }
    }
    assert forall|d: Seq<char>| after.claimed_dirs.contains(d) <==> dir_in_flight(
        after.in_flight,
        d,
    ) by {
        if after.claimed_dirs.contains(d) {
            if d == dir {
                assert(after.in_flight[jobs.len() as int].dir == d);
            } else {
                let k = choose|k: int| 0 <= k < jobs.len() && (#[trigger] jobs[k]).dir == d;
                assert(after.in_flight[k].dir == d);
            }
        }
        if dir_in_flight(after.in_flight, d) {
            let k = choose|k: int|
                0 <= k < after.in_flight.len() && (#[trigger] after.in_flight[k]).dir == d;
            if k < jobs.len() {
                assert(jobs[k].dir == d);
            }
        }
    }
    assert forall|i: int| 0 <= i < after.volumes.len() implies ((#[trigger] after.volumes[i]).busy
        <==> after.claimed_dirs.contains(after.volumes[i].path)) by {
        assert(r.volumes[i].busy <==> r.claimed_dirs.contains(r.volumes[i].path));
        assert(r.volumes[disk as int].busy <==> r.claimed_dirs.contains(
            r.volumes[disk as int].path,
        ));
    }
    assert forall|k: int| 0 <= k < after.in_flight.len() implies after.claimed_plots.contains(
        (#[trigger] after.in_flight[k]).plot,
    ) by {
        if k < jobs.len() {
            assert(r.claimed_plots.contains(jobs[k].plot));
        }
    }
    assert forall|k: int| 0 <= k < after.in_flight.len() implies (#[trigger] after.in_flight[k]).disk
        < after.volumes.len() && after.volumes[after.in_flight[k].disk as int].path
        == after.in_flight[k].dir by {
        if k < jobs.len() {
            assert(jobs[k].disk < r.volumes.len());
        }
    }
    if after.release_unplaced {
        assert forall|p: Seq<char>| after.claimed_plots.contains(p) implies plot_in_flight(
            after.in_flight,
            p,
        ) by {
            if p == r.pending_plot {
                assert(after.in_flight[jobs.len() as int].plot == p);
            } else {
                let k = choose|k: int| 0 <= k < jobs.len() && (#[trigger] jobs[k]).plot == p;
                assert(after.in_flight[k].plot == p);
            }
        }
    }
    assert(r.volumes[disk as int].busy <==> r.claimed_dirs.contains(r.volumes[disk as int].path));
}

/// Giving up on the plot being placed keeps the run well formed.
pub proof fn lemma_unplaced_wf(r: RunState)
    requires
        run_wf(r),
        placing(r),
    ensures
        run_wf(unplaced(r)),
{
    let after = unplaced(r);
    assert forall|k: int| 0 <= k < after.in_flight.len() implies after.claimed_plots.contains(
        (#[trigger] after.in_flight[k]).plot,
    ) by {
        assert(r.claimed_plots.contains(r.in_flight[k].plot));
    }
}

/// Where the transfer at position `j` stood before the one at `k` left.
pub open spec fn before_leaving(j: int, k: int) -> int {
    if j < k {
        j
    } else {
        j + 1
    }
}

/// Where the transfer at position `j` stands after the one at `k` left.
pub open spec fn after_leaving(j: int, k: int) -> int {
    if j < k {
        j
    } else {
        j - 1
    }
}

/// When the transfer at `k` leaves, the others stay in their order and close
/// the gap: each of those left stood at `before_leaving`, and each of the
/// others stands at `after_leaving`.
pub proof fn lemma_others_stay(jobs: Seq<Job>, k: int)
    requires
        0 <= k < jobs.len(),
    ensures
        jobs.remove(k).len() == jobs.len() - 1,
        forall|j: int|
            0 <= j < jobs.len() - 1 ==> #[trigger] jobs.remove(k)[j] == jobs[before_leaving(j, k)]
                && 0 <= before_leaving(j, k) < jobs.len() && before_leaving(j, k) != k,
        forall|j: int|
            0 <= j < jobs.len() && j != k ==> #[trigger] jobs[j] == jobs.remove(k)[after_leaving(
                j,
                k,
            )] && 0 <= after_leaving(j, k) < jobs.len() - 1,
{
}

/// Among exclusive transfers, no other goes to the volume of the one at `k`
/// or carries its plot.
pub proof fn lemma_job_stands_alone(jobs: Seq<Job>, k: int, j: int)
    requires
        exclusive(jobs),
        0 <= k < jobs.len(),
        0 <= j < jobs.len(),
        j != k,
    ensures
        jobs[j].dir != jobs[k].dir,
        jobs[j].plot != jobs[k].plot,
{
    if j < k {
        assert(jobs[j].dir != jobs[k].dir);
    } else {
        assert(jobs[k].dir != jobs[j].dir);
    }
}

/// Ending a transfer keeps the run well formed, and marks its volume idle.
pub proof fn lemma_released_wf(r: RunState, k: int)
    requires
        run_wf(r),
        0 <= k < r.in_flight.len(),
    ensures
        run_wf(released(r, k)),
        !released(r, k).volumes[r.in_flight[k].disk as int].busy,
{
    let after = released(r, k);
    let job = r.in_flight[k];
    let jobs = r.in_flight;
    let left = after.in_flight;
    lemma_same_slots(r.volumes, after.volumes);
    lemma_same_free_slots(r.volumes, after.volumes);
    lemma_others_stay(jobs, k);
    assert forall|j: int| 0 <= j < left.len() implies (#[trigger] left[j]).dir != job.dir
        && left[j].plot != job.plot && r.claimed_plots.contains(left[j].plot) && left[j].disk
        < r.volumes.len() && r.volumes[left[j].disk as int].path == left[j].dir by {
        let o = before_leaving(j, k);
        lemma_job_stands_alone(jobs, k, o);
        assert(r.claimed_plots.contains(jobs[o].plot));
        assert(jobs[o].disk < r.volumes.len());
    }
    assert(exclusive(left)) by {
        assert forall|a: int, b: int| 0 <= a < b < left.len() implies left[a].dir != left[b].dir
            && left[a].plot != left[b].plot by {
            assert(before_leaving(a, k) < before_leaving(b, k));
            assert(jobs[before_leaving(a, k)].dir != jobs[before_leaving(b, k)].dir);
        }
    }
    assert forall|d: Seq<char>| after.claimed_dirs.contains(d) <==> dir_in_flight(left, d) by {
        if after.claimed_dirs.contains(d) {
            let j = choose|j: int| 0 <= j < jobs.len() && (#[trigger] jobs[j]).dir == d;
            assert(left[after_leaving(j, k)].dir == d);
        }
        if dir_in_flight(left, d) {
            let j = choose|j: int| 0 <= j < left.len() && (#[trigger] left[j]).dir == d;
            assert(jobs[before_leaving(j, k)].dir == d);
        }
    }
    assert(jobs[k].dir == job.dir && jobs[k].plot == job.plot && jobs[k].disk == job.disk);
    assert forall|i: int| 0 <= i < after.volumes.len() implies ((#[trigger] after.volumes[i]).busy
        <==> after.claimed_dirs.contains(after.volumes[i].path)) by {
        assert(r.volumes[i].busy <==> r.claimed_dirs.contains(r.volumes[i].path));
    }
    if placing(r) {
        assert(!plot_in_flight(left, r.pending_plot)) by {
            if plot_in_flight(left, r.pending_plot) {
                let j = choose|j: int| 0 <= j < left.len() && (#[trigger] left[j]).plot
                    == r.pending_plot;
                assert(jobs[before_leaving(j, k)].plot == r.pending_plot);
            }
        }
    }
    if r.release_unplaced {
        assert forall|p: Seq<char>| after.claimed_plots.contains(p) implies plot_in_flight(left, p)
            || (placing(after) && p == after.pending_plot) by {
            if plot_in_flight(jobs, p) {
                let j = choose|j: int| 0 <= j < jobs.len() && (#[trigger] jobs[j]).plot == p;
                assert(left[after_leaving(j, k)].plot == p);
            }
        }
    }
    assert(r.volumes[job.disk as int].busy <==> r.claimed_dirs.contains(
        r.volumes[job.disk as int].path,
    ));
}

/// A transfer that is counted on a volume with a free slot takes exactly one
/// slot from the total; one that is not counted, or that is counted on a
/// volume without a free slot, leaves the total as it was.
pub proof fn lemma_counted_transfer_takes_slot(r: RunState, k: int)
    requires
        run_wf(r),
        0 <= k < r.in_flight.len(),
    ensures
        total_free_slots(released(r, k).volumes) == total_free_slots(r.volumes),
        free_slots(r.volumes[r.in_flight[k].disk as int]) > 0 ==> total_free_slots(
            stored(released(r, k), r.in_flight[k].disk, r.in_flight[k].size).volumes,
        ) + 1 == total_free_slots(r.volumes),
        free_slots(r.volumes[r.in_flight[k].disk as int]) == 0 ==> total_free_slots(
            stored(released(r, k), r.in_flight[k].disk, r.in_flight[k].size).volumes,
        ) == total_free_slots(r.volumes),
{
    let job = r.in_flight[k];
    let idle = released(r, k).volumes;
    assert(job.disk < r.volumes.len());
    lemma_same_free_slots(r.volumes, idle);
    lemma_free_slots_update(idle, job.disk as int, with_plot(idle[job.disk as int], job.size));
}

/// One step of a run, whatever brought it about.
pub enum Step {
    /// Nothing changes: an event out of turn, or an empty staging directory.
    Idle,
    /// The loop finds no free slot, or is done already.
    Finish,
    /// The loop finds a free slot and turns to the staging directory.
    Resume,
    /// Every plot of the listing is claimed; the loop scans again.
    Retreat,
    /// A free plot is claimed for placing.
    Claim { plot: Seq<char> },
    /// The plot being placed is sent to an unclaimed volume.
    Send { disk: usize, size: u64 },
    /// An unclaimed volume with a free slot is chosen to be cleared for a
    /// plot of this size.
    Clear { disk: usize, size: u64 },
    /// The plot being placed finds no volume.
    GiveUp,
    /// The volume being cleared has this much left, and the plot is sent
    /// to it.
    ClearAndSend { remaining: int },
    /// The volume being cleared has this much left, which is not enough.
    ClearAndGiveUp { remaining: int },
    /// The transfer at this position ends, and is counted or not.
    End { k: int, counted: bool },
    /// The live counters of a volume are set anew.
    Report { dir: Seq<char>, rate: u64, transferred: u64 },
}

/// The step can be taken from `r`.
pub open spec fn enabled(r: RunState, step: Step) -> bool {
    match step {
        Step::Idle => true,
        Step::Finish => r.phase == Phase::Done || (r.phase == Phase::Scanning && total_free_slots(
            r.volumes,
        ) == 0),
        Step::Resume => r.phase == Phase::Scanning && total_free_slots(r.volumes) > 0,
        Step::Retreat => r.phase == Phase::WaitingForSource,
        Step::Claim { plot } => r.phase == Phase::WaitingForSource && !r.claimed_plots.contains(
            plot,
        ),
        Step::Send { disk, size } => r.phase == Phase::Sizing && unclaimed(
            r.volumes,
            r.claimed_dirs,
            disk as int,
        ),
        Step::Clear { disk, size } => r.phase == Phase::Sizing && unclaimed(
            r.volumes,
            r.claimed_dirs,
            disk as int,
        ) && free_slots(r.volumes[disk as int]) > 0,
        Step::GiveUp => r.phase == Phase::Sizing,
        Step::ClearAndSend { remaining } => r.phase == Phase::Evicting,
        Step::ClearAndGiveUp { remaining } => r.phase == Phase::Evicting,
        Step::End { k, counted } => 0 <= k < r.in_flight.len(),
        Step::Report { dir, rate, transferred } => true,
    }
}

/// What the step makes of `r`.
pub open spec fn after(r: RunState, step: Step) -> RunState {
    match step {
        Step::Idle => r,
        Step::Finish => RunState { phase: Phase::Done, ..r },
        Step::Resume => RunState { phase: Phase::WaitingForSource, ..r },
        Step::Retreat => RunState { phase: Phase::Scanning, ..r },
        Step::Claim { plot } => claimed_for_placing(r, plot),
        Step::Send { disk, size } => dispatched(r, disk, size),
        Step::Clear { disk, size } => RunState {
            phase: Phase::Evicting,
            pending_size: size,
            pending_disk: disk,
            ..r
        },
        Step::GiveUp => unplaced(r),
        Step::ClearAndSend { remaining } => dispatched(
            cleared(r, r.pending_disk, remaining),
            r.pending_disk,
            r.pending_size,
        ),
        Step::ClearAndGiveUp { remaining } => unplaced(cleared(r, r.pending_disk, remaining)),
        Step::End { k, counted } => if counted {
            stored(released(r, k), r.in_flight[k].disk, r.in_flight[k].size)
        } else {
            released(r, k)
        },
        Step::Report { dir, rate, transferred } => reported(r, dir, rate, transferred),
    }
}

/// The step counts a transfer on a volume that had a free slot.
pub open spec fn takes_slot(r: RunState, step: Step) -> bool {
    step matches Step::End { k, counted } && counted && free_slots(
        r.volumes[r.in_flight[k].disk as int],
    ) > 0
}

/// The step puts a transfer in flight.
pub open spec fn starts_transfer(step: Step) -> bool {
    step is Send || step is ClearAndSend
}

/// Every step keeps the run well formed. It takes one free slot when it
/// counts a transfer on a volume that had one, and leaves the free slots as
/// they were otherwise. It adds a transfer to those in flight only when it
/// starts one, and a run that is done stays done and starts none.
pub proof fn lemma_step(r: RunState, step: Step)
    requires
        run_wf(r),
        enabled(r, step),
    ensures
        run_wf(after(r, step)),
        total_free_slots(after(r, step).volumes) + (if takes_slot(r, step) {
            1nat
        } else {
            0nat
        }) == total_free_slots(r.volumes),
        starts_transfer(step) ==> after(r, step).in_flight.len() == r.in_flight.len() + 1,
        !starts_transfer(step) ==> after(r, step).in_flight.len() <= r.in_flight.len(),
        r.phase == Phase::Done ==> after(r, step).phase == Phase::Done && !starts_transfer(step),
{
    match step {
        Step::Idle => {},
        Step::Finish => {},
        Step::Resume => {},
        Step::Retreat => {},
        Step::Claim { plot } => {
            lemma_claimed_for_placing_wf(r, plot);
        },
        Step::Send { disk, size } => {
            lemma_dispatched_wf(r, disk, size);
            lemma_same_free_slots(r.volumes, after(r, step).volumes);
        },
        Step::Clear { disk, size } => {},
        Step::GiveUp => {
            lemma_unplaced_wf(r);
        },
        Step::ClearAndSend { remaining } => {
            let roomy = cleared(r, r.pending_disk, remaining);
            lemma_same_claims_wf(r, roomy.volumes);
            lemma_same_free_slots(r.volumes, roomy.volumes);
            lemma_dispatched_wf(roomy, r.pending_disk, r.pending_size);
            lemma_same_free_slots(roomy.volumes, after(r, step).volumes);
        },
        Step::ClearAndGiveUp { remaining } => {
            let roomy = cleared(r, r.pending_disk, remaining);
            lemma_same_claims_wf(r, roomy.volumes);
            lemma_same_free_slots(r.volumes, roomy.volumes);
            lemma_unplaced_wf(roomy);
        },
        Step::End { k, counted } => {
            lemma_released_wf(r, k);
            lemma_counted_transfer_takes_slot(r, k);
            lemma_others_stay(r.in_flight, k);
            if counted {
                let idle = released(r, k);
                assert(r.in_flight[k].disk < r.volumes.len());
                lemma_same_claims_wf(idle, after(r, step).volumes);
            }
        },
        Step::Report { dir, rate, transferred } => {
            lemma_same_claims_wf(r, after(r, step).volumes);
            lemma_same_free_slots(r.volumes, after(r, step).volumes);
        },
    }
}

/// `next` is what one step makes of `r`.
pub open spec fn steps_to(r: RunState, next: RunState) -> bool {
    exists|step: Step| enabled(r, step) && next == #[trigger] after(r, step)
}

/// What an enabled step makes of a run is one step away from it.
pub proof fn lemma_is_step(r: RunState, step: Step)
    requires
        enabled(r, step),
    ensures
        steps_to(r, after(r, step)),
{
}

/// A step from a well-formed run leads to a well-formed run. The free slots
/// do not grow, and shrink by one at most; and a run that is done stays done
/// with no more transfers in flight than before.
pub proof fn lemma_steps_to(r: RunState, next: RunState)
    requires
        run_wf(r),
        steps_to(r, next),
    ensures
        run_wf(next),
        total_free_slots(next.volumes) <= total_free_slots(r.volumes) <= total_free_slots(
            next.volumes,
        ) + 1,
        r.phase == Phase::Done ==> next.phase == Phase::Done && next.in_flight.len()
            <= r.in_flight.len(),
{
    let step = choose|step: Step| enabled(r, step) && next == #[trigger] after(r, step);
    lemma_step(r, step);
}

/// A run from a well-formed state: each state but the first is what the
/// step before it made of the state before it.
pub open spec fn is_run(states: Seq<RunState>, steps: Seq<Step>) -> bool {
    &&& states.len() == steps.len() + 1
    &&& run_wf(states[0])
    &&& forall|i: int|
        0 <= i < steps.len() ==> enabled(states[i], #[trigger] steps[i]) && states[i + 1] == after(
            states[i],
            steps[i],
        )
}

/// How many of the steps counted a transfer on a volume that had a free
/// slot.
pub open spec fn slots_taken(states: Seq<RunState>, steps: Seq<Step>) -> nat
    decreases steps.len(),
{
    if steps.len() == 0 {
        0
    } else {
        slots_taken(states.drop_last(), steps.drop_last()) + (if takes_slot(
            states[steps.len() - 1],
            steps.last(),
        ) {
            1nat
        } else {
            0nat
        })
    }
}

/// Over a whole run, whatever its events: every state is well formed; the
/// free slots at its end are those at its start less one for each transfer
/// that was counted on a volume with a free slot; and a run that is done has
/// counted exactly as many such transfers as there were free slots at its
/// start.
pub proof fn lemma_run_accounts_for_slots(states: Seq<RunState>, steps: Seq<Step>)
    requires
        is_run(states, steps),
    ensures
        run_wf(states.last()),
        total_free_slots(states.last().volumes) + slots_taken(states, steps) == total_free_slots(
            states[0].volumes,
        ),
        states.last().phase == Phase::Done ==> slots_taken(states, steps) == total_free_slots(
            states[0].volumes,
        ),
    decreases steps.len(),
{
    if steps.len() > 0 {
        let n = steps.len() - 1;
        let head = states.drop_last();
        let firsts = steps.drop_last();
        assert(is_run(head, firsts)) by {
            assert forall|i: int| 0 <= i < firsts.len() implies enabled(
                head[i],
                #[trigger] firsts[i],
            ) && head[i + 1] == after(head[i], firsts[i]) by {
                assert(steps[i] == firsts[i]);
            }
        }
        lemma_run_accounts_for_slots(head, firsts);
        assert(head.last() == states[n]);
        assert(enabled(states[n], steps[n]) && states[n + 1] == after(states[n], steps[n]));
        lemma_step(states[n], steps[n]);
    }
}

/// Once a run is done it stays done and starts nothing: from then on the
/// transfers in flight only grow fewer, and no free slot is left.
pub proof fn lemma_nothing_starts_once_done(
    states: Seq<RunState>,
    steps: Seq<Step>,
    done: int,
    later: int,
)
    requires
        is_run(states, steps),
        0 <= done <= later < states.len(),
        states[done].phase == Phase::Done,
    ensures
        states[later].phase == Phase::Done,
        states[later].in_flight.len() <= states[done].in_flight.len(),
        total_free_slots(states[later].volumes) == 0,
        forall|i: int| done <= i < later ==> !starts_transfer(#[trigger] steps[i]),
    decreases later - done,
{
    lemma_run_reaches_well_formed(states, steps, later);
    if done < later {
        lemma_nothing_starts_once_done(states, steps, done, later - 1);
        lemma_run_reaches_well_formed(states, steps, later - 1);
        assert(enabled(states[later - 1], steps[later - 1]) && states[later] == after(
            states[later - 1],
            steps[later - 1],
        ));
        lemma_step(states[later - 1], steps[later - 1]);
    }
}

/// Every state of a run is well formed.
pub proof fn lemma_run_reaches_well_formed(states: Seq<RunState>, steps: Seq<Step>, at: int)
    requires
        is_run(states, steps),
        0 <= at < states.len(),
    ensures
        run_wf(states[at]),
    decreases at,
{
    if at > 0 {
        lemma_run_reaches_well_formed(states, steps, at - 1);
        assert(enabled(states[at - 1], steps[at - 1]) && states[at] == after(
            states[at - 1],
            steps[at - 1],
        ));
        lemma_step(states[at - 1], steps[at - 1]);
    }
}

/// A free slot waits for every transfer in flight.
pub open spec fn settled(r: RunState) -> bool {
    forall|k: int|
        0 <= k < r.in_flight.len() ==> free_slots(
            r.volumes[(#[trigger] r.in_flight[k]).disk as int],
        ) > 0
}

/// The step starts no transfer to a volume without a free slot, and leaves
/// no transfer that ends uncounted.
pub open spec fn careful(r: RunState, step: Step) -> bool {
    &&& step matches Step::Send { disk, size } ==> free_slots(r.volumes[disk as int]) > 0
    &&& step matches Step::End { k, counted } ==> counted
}

/// While a free slot waits for every transfer in flight, a careful step
/// keeps it so, and every transfer that ends takes its slot.
pub proof fn lemma_careful_step(r: RunState, step: Step)
    requires
        run_wf(r),
        settled(r),
        enabled(r, step),
        careful(r, step),
    ensures
        settled(after(r, step)),
        step is End ==> takes_slot(r, step),
{
    let next = after(r, step);
    lemma_step(r, step);
    match step {
        Step::Send { disk, size } => {
            assert forall|k: int| 0 <= k < next.in_flight.len() implies free_slots(
                next.volumes[(#[trigger] next.in_flight[k]).disk as int],
            ) > 0 by {
                if k < r.in_flight.len() {
                    assert(next.in_flight[k] == r.in_flight[k]);
                    assert(r.in_flight[k].disk < r.volumes.len());
                }
            }
        },
        Step::ClearAndSend { remaining } => {
            let roomy = cleared(r, r.pending_disk, remaining);
            assert forall|k: int| 0 <= k < next.in_flight.len() implies free_slots(
                next.volumes[(#[trigger] next.in_flight[k]).disk as int],
            ) > 0 by {
                if k < r.in_flight.len() {
                    assert(next.in_flight[k] == r.in_flight[k]);
                    assert(r.in_flight[k].disk < r.volumes.len());
                }
            }
        },
        Step::ClearAndGiveUp { remaining } => {
            assert forall|k: int| 0 <= k < next.in_flight.len() implies free_slots(
                next.volumes[(#[trigger] next.in_flight[k]).disk as int],
            ) > 0 by {
                assert(r.in_flight[k].disk < r.volumes.len());
            }
        },
        Step::End { k, counted } => {
            lemma_others_stay(r.in_flight, k);
            assert(r.in_flight[k].disk < r.volumes.len());
            assert forall|j: int| 0 <= j < next.in_flight.len() implies free_slots(
                next.volumes[(#[trigger] next.in_flight[j]).disk as int],
            ) > 0 by {
                let o = before_leaving(j, k);
                assert(next.in_flight[j] == r.in_flight[o]);
                lemma_job_stands_alone(r.in_flight, k, o);
                assert(r.in_flight[o].disk < r.volumes.len());
                assert(r.in_flight[o].disk != r.in_flight[k].disk);
            }
        },
        Step::Report { dir, rate, transferred } => {
            assert forall|k: int| 0 <= k < next.in_flight.len() implies free_slots(
                next.volumes[(#[trigger] next.in_flight[k]).disk as int],
            ) > 0 by {
                assert(r.in_flight[k].disk < r.volumes.len());
            }
        },
        _ => {},
    }
}

/// How many of the steps started a transfer.
pub open spec fn started(steps: Seq<Step>) -> nat
    decreases steps.len(),
{
    if steps.len() == 0 {
        0
    } else {
        started(steps.drop_last()) + (if starts_transfer(steps.last()) {
            1nat
        } else {
            0nat
        })
    }
}

/// How many of the steps were the end of a transfer.
pub open spec fn ended(steps: Seq<Step>) -> nat
    decreases steps.len(),
{
    if steps.len() == 0 {
        0
    } else {
        ended(steps.drop_last()) + (if steps.last() is End {
            1nat
        } else {
            0nat
        })
    }
}

/// Every step of the run is careful.
pub open spec fn is_careful_run(states: Seq<RunState>, steps: Seq<Step>) -> bool {
    &&& is_run(states, steps)
    &&& forall|i: int| 0 <= i < steps.len() ==> careful(states[i], #[trigger] steps[i])
}

/// A run that begins with nothing in flight, starts transfers only to
/// volumes with a free slot and counts every transfer that ends: the
/// transfers it started are those that ended and those still in flight, and
/// each that ended took one free slot. So when such a run is done and
/// nothing is in flight any more, it has started exactly as many transfers
/// as there were free slots at its start.
pub proof fn lemma_careful_run_starts_one_transfer_per_slot(
    states: Seq<RunState>,
    steps: Seq<Step>,
)
    requires
        is_careful_run(states, steps),
        states[0].in_flight.len() == 0,
    ensures
        run_wf(states.last()),
        settled(states.last()),
        started(steps) == ended(steps) + states.last().in_flight.len(),
        ended(steps) == slots_taken(states, steps),
        total_free_slots(states.last().volumes) + ended(steps) == total_free_slots(
            states[0].volumes,
        ),
        states.last().phase == Phase::Done && states.last().in_flight.len() == 0 ==> started(steps)
            == total_free_slots(states[0].volumes),
    decreases steps.len(),
{
    lemma_run_accounts_for_slots(states, steps);
    if steps.len() > 0 {
        let n = steps.len() - 1;
        let head = states.drop_last();
        let firsts = steps.drop_last();
        assert(is_careful_run(head, firsts)) by {
            assert forall|i: int| 0 <= i < firsts.len() implies enabled(
                head[i],
                #[trigger] firsts[i],
            ) && head[i + 1] == after(head[i], firsts[i]) && careful(head[i], firsts[i]) by {
                assert(steps[i] == firsts[i]);
            }
        }
        lemma_careful_run_starts_one_transfer_per_slot(head, firsts);
        assert(head.last() == states[n]);
        assert(enabled(states[n], steps[n]) && states[n + 1] == after(states[n], steps[n])
            && careful(states[n], steps[n]));
        lemma_step(states[n], steps[n]);
        lemma_careful_step(states[n], steps[n]);
        if steps[n] is End {
            lemma_others_stay(states[n].in_flight, steps[n]->End_k);
        }
    }
}

} // verus!
