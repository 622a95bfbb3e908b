//! The volume inventory: one record per destination volume, and the
//! bookkeeping that placement and transfers do on it.

use vstd::prelude::*;
use vstd::string::*;
use crate::band::{in_band, is_current_generation};
use crate::claims::ClaimSet;
use crate::eviction::{is_eviction_plan, plan_eviction, EvictionPlan};
use crate::placement::{is_placement, unclaimed, Placement};
use crate::userset::{FinalDir, UserSet};
use crate::volume::{
    can_take_plot, distinct_paths, flipped, free_slots, lemma_path_names_one_volume,
    lemma_same_slots, lemma_stored_plot_takes_slot, lemma_total_slots_grow,
    lemma_total_slots_step, mounted_at, progressed, total_free_slots, total_max_slots, with_plot,
    with_remaining, Volume,
};

verus! {

/// The record kept for one destination volume.
#[derive(Debug)]
pub struct DiskInfo {
    /// Where the volume is mounted.
    pub path: String,
    /// Nominal capacity in bytes.
    pub capacity: u64,
    /// Number of current-generation plots on the volume.
    pub finished_num: usize,
    /// Number of plots of the reference size that the capacity allows.
    pub max_num: usize,
    /// Capacity less the bytes of all files on the volume.
    pub remaining_size: i128,
    /// Throughput of the transfer in flight, in bytes per second.
    pub transfer_rate: u64,
    /// Bytes written so far by the transfer in flight.
    pub total_transfered: u64,
    /// Whether a transfer to this volume is in flight.
    pub transfer_state: bool,
}

impl View for DiskInfo {
    type V = Volume;

    open spec fn view(&self) -> Volume {
        Volume {
            path: self.path@,
            capacity: self.capacity as nat,
            finished: self.finished_num as nat,
            max: self.max_num as nat,
            remaining: self.remaining_size as int,
            rate: self.transfer_rate as nat,
            transferred: self.total_transfered as nat,
            busy: self.transfer_state,
        }
    }
}

/// What a volume is doing, as a status display names it.
#[derive(Debug, Clone, Copy, PartialEq, Eq, Structural)]
pub enum DiskState {
    /// Every slot of the volume is taken.
    Finished,
    /// A transfer to the volume is in flight.
    Transfering,
    /// The volume has free slots and no transfer.
    Waiting,
}

/// The state of a volume follows from its slots first, and from its
/// transfer flag only while slots are free.
pub open spec fn state_of(v: Volume) -> DiskState {
    if v.finished >= v.max {
        DiskState::Finished
    } else if v.busy {
        DiskState::Transfering
    } else {
        DiskState::Waiting
    }
}

/// The words a status display shows for a state.
pub open spec fn label_of(state: DiskState) -> Seq<char> {
    match state {
        DiskState::Finished => "Finished"@,
        DiskState::Transfering => "Transfering..."@,
        DiskState::Waiting => "Waiting for transfer...."@,
    }
}

impl DiskState {
    /// The words a status display shows for this state.
    pub fn label(&self) -> (text: &'static str)
        ensures
            text@ == label_of(*self),
    {
        match self {
            DiskState::Finished => "Finished",
            DiskState::Transfering => "Transfering...",
            DiskState::Waiting => "Waiting for transfer....",
        }
    }
}

impl DiskInfo {
    /// What the volume is doing.
    pub fn state(&self) -> (state: DiskState)
        ensures
            state == state_of(self@),
    {
        if self.finished_num >= self.max_num {
            DiskState::Finished
        } else if self.transfer_state {
            DiskState::Transfering
        } else {
            DiskState::Waiting
        }
    }

    /// The free slots of the volume.
    pub fn slots_left(&self) -> (slots: usize)
        ensures
            slots == free_slots(self@),
    {
        if self.max_num > self.finished_num {
            self.max_num - self.finished_num
        } else {
            0
        }
    }
}

/// Bytes held by files of the given sizes.
pub open spec fn occupied_bytes(sizes: Seq<u64>) -> nat
    decreases sizes.len(),
{
    if sizes.len() == 0 {
        0
    } else {
        occupied_bytes(sizes.drop_last()) + sizes.last() as nat
    }
}

/// How many of the given sizes lie within the tolerance band of `reference`.
pub open spec fn band_count(sizes: Seq<u64>, reference: u64) -> nat
    decreases sizes.len(),
{
    if sizes.len() == 0 {
        0
    } else if in_band(sizes.last(), reference) {
        band_count(sizes.drop_last(), reference) + 1
    } else {
        band_count(sizes.drop_last(), reference)
    }
}

/// The record of a volume that was found holding plot files of the given
/// sizes: every file counts against the capacity, and those within the band
/// of the reference size count as finished plots.
pub open spec fn surveyed(dir: FinalDir, reference: u64, sizes: Seq<u64>) -> Volume {
    Volume {
        path: dir.path@,
        capacity: dir.size as nat,
        finished: band_count(sizes, reference),
        max: (dir.size / reference) as nat,
        remaining: dir.size - occupied_bytes(sizes),
        rate: 0,
        transferred: 0,
        busy: false,
    }
}

/// The records of all volumes, in the order of their declaration.
pub open spec fn surveyed_all(dirs: Seq<FinalDir>, reference: u64, listings: Seq<Vec<u64>>) -> Seq<
    Volume,
> {
    Seq::new(dirs.len(), |i: int| surveyed(dirs[i], reference, listings[i]@))
}

/// The records fit the machine: the slots of all volumes together can be
/// counted, and no volume is further over its capacity than can be written
/// down.
pub open spec fn representable(vs: Seq<Volume>) -> bool {
    &&& total_max_slots(vs) <= usize::MAX
    &&& forall|i: int| 0 <= i < vs.len() ==> (#[trigger] vs[i]).remaining >= i128::MIN
}

/// Why an inventory could not be built.
#[derive(Debug, Clone, Copy, PartialEq, Eq, Structural)]
pub enum InventoryError {
    /// The reference plot has no bytes, so no slot count can be derived.
    ZeroPlotSize,
    /// The number of listings differs from the number of volumes.
    ListingMismatch,
    /// Two volumes were declared with the same path.
    DuplicatePath,
    /// A count or a byte total does not fit the machine.
    Overflow,
    /// No volume is mounted at the path that was named.
    UnknownVolume,
}

/// The first reason, if any, for which no inventory can be built from these
/// inputs.
pub open spec fn survey_error(dirs: Seq<FinalDir>, reference: u64, listings: Seq<Vec<u64>>)
    -> Option<InventoryError> {
    if reference == 0 {
        Some(InventoryError::ZeroPlotSize)
    } else if listings.len() != dirs.len() {
        Some(InventoryError::ListingMismatch)
    } else if !distinct_paths(surveyed_all(dirs, reference, listings)) {
        Some(InventoryError::DuplicatePath)
    } else if !representable(surveyed_all(dirs, reference, listings)) {
        Some(InventoryError::Overflow)
    } else {
        None
    }
}

/// Taking one more file into account adds its bytes, and adds it to the
/// finished plots exactly when it lies within the band.
pub proof fn lemma_survey_step(sizes: Seq<u64>, reference: u64, n: int)
    requires
        0 <= n < sizes.len(),
    ensures
        occupied_bytes(sizes.take(n + 1)) == occupied_bytes(sizes.take(n)) + sizes[n],
        band_count(sizes.take(n + 1), reference) == band_count(sizes.take(n), reference) + (if in_band(
            sizes[n],
            reference,
        ) {
            1nat
        } else {
            0nat
        }),
{
    assert(sizes.take(n + 1).drop_last() =~= sizes.take(n));
}

/// A file found on a volume always counts against the bytes that remain. One
/// within the band of the reference size is a finished plot and takes a slot;
/// one outside the band takes none.
pub proof fn lemma_found_file_is_counted(dir: FinalDir, reference: u64, sizes: Seq<u64>, size: u64)
    ensures
        surveyed(dir, reference, sizes.push(size)).remaining == surveyed(
            dir,
            reference,
            sizes,
        ).remaining - size,
        in_band(size, reference) ==> surveyed(dir, reference, sizes.push(size)).finished
            == surveyed(dir, reference, sizes).finished + 1,
        !in_band(size, reference) ==> surveyed(dir, reference, sizes.push(size)).finished
            == surveyed(dir, reference, sizes).finished,
{
    assert(sizes.push(size).drop_last() =~= sizes);
}

/// The first files of a listing hold no more bytes than all of them.
pub proof fn lemma_occupied_bytes_grow(sizes: Seq<u64>, n: int)
    requires
        0 <= n <= sizes.len(),
    ensures
        occupied_bytes(sizes.take(n)) <= occupied_bytes(sizes),
    decreases sizes.len() - n,
{
    if n < sizes.len() {
        lemma_survey_step(sizes, 0, n);
        lemma_occupied_bytes_grow(sizes, n + 1);
    } else {
        assert(sizes.take(n) =~= sizes);
    }
}

/// What was found on one volume: the number of finished plots and the bytes
/// that remain, or nothing when the remainder cannot be written down.
fn survey_volume(dir: &FinalDir, reference: u64, sizes: &Vec<u64>) -> (found: Option<
    (usize, i128),
>)
    ensures
        match found {
            Some((finished, remaining)) => {
                &&& finished == band_count(sizes@, reference)
                &&& remaining == dir.size - occupied_bytes(sizes@)
            },
            None => dir.size - occupied_bytes(sizes@) < i128::MIN,
        },
{
    let mut finished: usize = 0;
    let mut remaining: i128 = dir.size as i128;
    let mut k: usize = 0;
    while k < sizes.len()
        invariant
            k <= sizes@.len(),
            finished == band_count(sizes@.take(k as int), reference),
            finished <= k,
            remaining == dir.size - occupied_bytes(sizes@.take(k as int)),
        decreases sizes@.len() - k,
    {
        let size: u64 = sizes[k];
        proof {
            lemma_survey_step(sizes@, reference, k as int);
        }
        if remaining < i128::MIN + size as i128 {
            proof {
                lemma_occupied_bytes_grow(sizes@, k + 1);
            }
            return None;
        }
        remaining = remaining - size as i128;
        if is_current_generation(size, reference) {
            finished = finished + 1;
        }
        k = k + 1;
    }
    assert(sizes@.take(k as int) =~= sizes@);
    Some((finished, remaining))
}

/// Tells whether no two of the declared volumes share a path.
fn paths_differ(dirs: &Vec<FinalDir>) -> (distinct: bool)
    ensures
        distinct == (forall|i: int, j: int|
            0 <= i < j < dirs@.len() ==> dirs@[i].path@ != dirs@[j].path@),
{
    let mut j: usize = 0;
    while j < dirs.len()
        invariant
            j <= dirs@.len(),
            forall|a: int, b: int| 0 <= a < b < j ==> dirs@[a].path@ != dirs@[b].path@,
        decreases dirs@.len() - j,
    {
        let mut i: usize = 0;
        while i < j
            invariant
                i <= j < dirs@.len(),
                forall|a: int| 0 <= a < i ==> dirs@[a].path@ != dirs@[j as int].path@,
            decreases j - i,
        {
            if dirs[i].path == dirs[j].path {
                return false;
            }
            i = i + 1;
        }
        j = j + 1;
    }
    true
}

/// The inventory of all destination volumes, in the order of their
/// declaration, together with the reference plot size that anchors the
/// tolerance band.
pub struct ShowInfos {
    disks: Vec<DiskInfo>,
    plot_size: u64,
}

impl View for ShowInfos {
    type V = Seq<Volume>;

    closed spec fn view(&self) -> Seq<Volume> {
        self.disks@.map_values(|d: DiskInfo| d@)
    }
}

impl ShowInfos {
    /// The reference plot size in bytes.
    pub closed spec fn plot_size(&self) -> u64 {
        self.plot_size
    }

    /// What holds of every inventory: paths identify volumes, the reference
    /// size is not zero, and the slots of all volumes can be counted.
    pub open spec fn wf(&self) -> bool {
        &&& distinct_paths(self@)
        &&& total_max_slots(self@) <= usize::MAX
        &&& self.plot_size() > 0
    }

    /// Builds the inventory from the declared volumes and from the sizes of
    /// the plot files found on each, `plot_sizes[i]` belonging to
    /// `user_set.final_dirs[i]`. `new_plot_size` is the size of the first
    /// plot seen in the staging directory.
    pub fn new(user_set: &UserSet, new_plot_size: u64, plot_sizes: &Vec<Vec<u64>>) -> (built: Result<
        ShowInfos,
        InventoryError,
    >)
        ensures
            match built {
                Ok(infos) => {
                    &&& survey_error(user_set.final_dirs@, new_plot_size, plot_sizes@) is None
                    &&& infos@ == surveyed_all(user_set.final_dirs@, new_plot_size, plot_sizes@)
                    &&& infos.plot_size() == new_plot_size
                    &&& infos.wf()
                },
                Err(e) => survey_error(user_set.final_dirs@, new_plot_size, plot_sizes@) == Some(e),
            },
    {
        let dirs = &user_set.final_dirs;
        let ghost all = surveyed_all(dirs@, new_plot_size, plot_sizes@);
        if new_plot_size == 0 {
            return Err(InventoryError::ZeroPlotSize);
        }
        if plot_sizes.len() != dirs.len() {
            return Err(InventoryError::ListingMismatch);
        }
        if !paths_differ(dirs) {
            proof {
                let (i, j) = choose|i: int, j: int|
                    0 <= i < j < dirs@.len() && dirs@[i].path@ == dirs@[j].path@;
                assert(all[i].path == all[j].path);
            }
            return Err(InventoryError::DuplicatePath);
        }
        assert(distinct_paths(all)) by {
            assert forall|i: int, j: int| 0 <= i < j < all.len() implies all[i].path
                != all[j].path by {
                assert(dirs@[i].path@ != dirs@[j].path@);
            }
        }
        let mut disks: Vec<DiskInfo> = Vec::new();
        let mut slots: usize = 0;
        let mut i: usize = 0;
        while i < dirs.len()
            invariant
                i <= dirs@.len(),
                new_plot_size > 0,
                plot_sizes@.len() == dirs@.len(),
                all == surveyed_all(dirs@, new_plot_size, plot_sizes@),
                distinct_paths(all),
                dirs@ == user_set.final_dirs@,
                disks@.len() == i,
                forall|k: int| 0 <= k < i ==> (#[trigger] disks@[k])@ == all[k],
                slots == total_max_slots(all.take(i as int)),
            decreases dirs@.len() - i,
        {
            let dir = &dirs[i];
            proof {
                lemma_total_slots_step(all, i as int);
                lemma_total_slots_grow(all, i + 1);
            }
            let allowed: u64 = dir.size / new_plot_size;
            assert(all[i as int] == surveyed(dirs@[i as int], new_plot_size, plot_sizes@[i as int]@));
            if allowed > (usize::MAX - slots) as u64 {
                return Err(InventoryError::Overflow);
            }
            match survey_volume(dir, new_plot_size, &plot_sizes[i]) {
                None => {
                    assert(all[i as int].remaining < i128::MIN);
                    return Err(InventoryError::Overflow);
                },
                Some((finished_num, remaining_size)) => {
                    slots = slots + allowed as usize;
                    disks.push(
                        DiskInfo {
                            path: dir.path.clone(),
                            capacity: dir.size,
                            finished_num,
                            max_num: allowed as usize,
                            remaining_size,
                            transfer_rate: 0,
                            total_transfered: 0,
                            transfer_state: false,
                        },
                    );
                },
            }
            i = i + 1;
        }
        let infos = ShowInfos { disks, plot_size: new_plot_size };
        proof {
            assert(all.take(i as int) =~= all);
            assert(infos@ =~= all);
        }
        Ok(infos)
    }

    /// The number of volumes.
    pub fn len(&self) -> (n: usize)
        ensures
            n == self@.len(),
    {
        self.disks.len()
    }

    /// The reference plot size in bytes.
    pub fn reference_size(&self) -> (size: u64)
        ensures
            size == self.plot_size(),
    {
        self.plot_size
    }

    /// The records of all volumes, for a status display to read.
    pub fn disks(&self) -> (records: &Vec<DiskInfo>)
        ensures
            records@.map_values(|d: DiskInfo| d@) == self@,
    {
        &self.disks
    }

    /// The record of the volume at position `i`.
    pub fn disk(&self, i: usize) -> (record: &DiskInfo)
        requires
            i < self@.len(),
        ensures
            record@ == self@[i as int],
    {
        &self.disks[i]
    }

    /// The free slots of all volumes together. The run is over when none is
    /// left.
    pub fn total_remaining(&self) -> (slots: usize)
        requires
            self.wf(),
        ensures
            slots == total_free_slots(self@),
    {
        let mut slots: usize = 0;
        let mut i: usize = 0;
        while i < self.disks.len()
            invariant
                i <= self.disks@.len(),
                self@.len() == self.disks@.len(),
                forall|k: int| 0 <= k < self.disks@.len() ==> self@[k] == (#[trigger] self.disks@[k])@,
                total_max_slots(self@) <= usize::MAX,
                slots == total_free_slots(self@.take(i as int)),
            decreases self.disks@.len() - i,
        {
            let item = &self.disks[i];
            proof {
                lemma_total_slots_step(self@, i as int);
                lemma_total_slots_grow(self@, i + 1);
            }
            slots = slots + item.slots_left();
            i = i + 1;
        }
        assert(self@.take(i as int) =~= self@);
        slots
    }

    /// The position of the volume mounted at `dir`, if there is one.
    pub fn position(&self, dir: &str) -> (found: Option<usize>)
        ensures
            match found {
                Some(i) => i < self@.len() && self@[i as int].path == dir@,
                None => forall|k: int| 0 <= k < self@.len() ==> self@[k].path != dir@,
            },
    {
        let wanted: String = dir.to_owned();
        let mut i: usize = 0;
        while i < self.disks.len()
            invariant
                i <= self.disks@.len(),
                wanted@ == dir@,
                self@.len() == self.disks@.len(),
                forall|k: int| 0 <= k < i ==> self@[k].path != dir@,
            decreases self.disks@.len() - i,
        {
            assert(self@[i as int] == self.disks@[i as int]@);
            if self.disks[i].path == wanted {
                return Some(i);
            }
            i = i + 1;
        }
        None
    }

    /// Flips the transfer flag of the volume mounted at `dir` and sets its
    /// live counters back to zero. Called once when a transfer to the volume
    /// starts and once when it ends. Without such a volume nothing changes.
    pub fn change_state(&mut self, dir: &str)
        requires
            old(self).wf(),
        ensures
            final(self).wf(),
            final(self).plot_size() == old(self).plot_size(),
            final(self)@ == flipped(old(self)@, dir@),
    {
        match self.position(dir) {
            None => {
                assert(self@ =~= flipped(self@, dir@));
            },
            Some(i) => {
                let busy: bool = self.disks[i].transfer_state;
                self.disks[i].transfer_state = !busy;
                self.disks[i].transfer_rate = 0;
                self.disks[i].total_transfered = 0;
                proof {
                    assert(self@ =~= flipped(old(self)@, dir@));
                    lemma_same_slots(old(self)@, self@);
                }
            },
        }
    }

    /// Records the throughput and the bytes written so far of the transfer
    /// to the volume mounted at `dir`, for display. Placement never reads
    /// them. Without such a volume nothing changes.
    pub fn updtate_transfering_msg(&mut self, dir: &str, transfer_rate: u64, total_transfered: u64)
        requires
            old(self).wf(),
        ensures
            final(self).wf(),
            final(self).plot_size() == old(self).plot_size(),
            final(self)@ == progressed(old(self)@, dir@, transfer_rate, total_transfered),
    {
        let ghost wanted = progressed(old(self)@, dir@, transfer_rate, total_transfered);
        match self.position(dir) {
            None => {
                assert(self@ =~= wanted);
            },
            Some(i) => {
                self.disks[i].transfer_rate = transfer_rate;
                self.disks[i].total_transfered = total_transfered;
                proof {
                    assert(self@ =~= wanted);
                    lemma_same_slots(old(self)@, self@);
                }
            },
        }
    }

    /// Records that a plot of `new_plot_size` bytes was stored on the volume
    /// mounted at `dir`: the volume has that many bytes less, and one
    /// finished plot more. That takes one free slot from the total where the
    /// volume had one, and none where it had none. Nothing changes when
    /// there is no such volume, or when its counters cannot take the plot.
    pub fn add_one_plot(&mut self, dir: &str, new_plot_size: u64) -> (stored: Result<
        (),
        InventoryError,
    >)
        requires
            old(self).wf(),
        ensures
            final(self).wf(),
            final(self).plot_size() == old(self).plot_size(),
            match stored {
                Ok(()) => {
                    &&& exists|i: int| mounted_at(old(self)@, dir@, i)
                    &&& forall|i: int| #[trigger]
                        mounted_at(old(self)@, dir@, i) ==> {
                            &&& can_take_plot(old(self)@[i], new_plot_size)
                            &&& final(self)@ == old(self)@.update(
                                i,
                                with_plot(old(self)@[i], new_plot_size),
                            )
                            &&& total_free_slots(final(self)@) + (if free_slots(old(self)@[i]) > 0 {
                                1nat
                            } else {
                                0nat
                            }) == total_free_slots(old(self)@)
                        }
                },
                Err(InventoryError::UnknownVolume) => {
                    &&& final(self)@ == old(self)@
                    &&& forall|i: int| !mounted_at(old(self)@, dir@, i)
                },
                Err(InventoryError::Overflow) => {
                    &&& final(self)@ == old(self)@
                    &&& exists|i: int| mounted_at(old(self)@, dir@, i)
                    &&& forall|i: int| #[trigger]
                        mounted_at(old(self)@, dir@, i) ==> !can_take_plot(
                            old(self)@[i],
                            new_plot_size,
                        )
                },
                Err(_) => false,
            },
    {
        match self.position(dir) {
            None => Err(InventoryError::UnknownVolume),
            Some(i) => {
                assert(self@[i as int] == self.disks@[i as int]@);
                assert(mounted_at(self@, dir@, i as int));
                assert forall|j: int| #[trigger] mounted_at(self@, dir@, j) implies j == i by {
                    lemma_path_names_one_volume(self@, dir@, j, i as int);
                }
                let remaining: i128 = self.disks[i].remaining_size;
                let finished: usize = self.disks[i].finished_num;
                if remaining < i128::MIN + new_plot_size as i128 || finished == usize::MAX {
                    return Err(InventoryError::Overflow);
                }
                self.disks[i].remaining_size = remaining - new_plot_size as i128;
                self.disks[i].finished_num = finished + 1;
                proof {
                    assert(self@ =~= old(self)@.update(
                        i as int,
                        with_plot(old(self)@[i as int], new_plot_size),
                    ));
                    lemma_same_slots(old(self)@, self@);
                    lemma_stored_plot_takes_slot(old(self)@, i as int, new_plot_size);
                }
                Ok(())
            },
        }
    }

    /// Makes room on the volume at position `id` for a plot of
    /// `choose_plot_size` bytes, given the sizes of the plot files on that
    /// volume in listing order. The plan names the files to delete; the
    /// bytes they free are counted as remaining at once, whether or not
    /// they suffice.
    pub fn del_plot(&mut self, id: usize, choose_plot_size: u64, sizes: &Vec<u64>) -> (plan:
        EvictionPlan)
        requires
            old(self).wf(),
            id < old(self)@.len(),
        ensures
            final(self).wf(),
            final(self).plot_size() == old(self).plot_size(),
            is_eviction_plan(
                plan,
                old(self)@[id as int].remaining,
                choose_plot_size,
                old(self).plot_size(),
                sizes@,
            ),
            final(self)@ == old(self)@.update(
                id as int,
                with_remaining(old(self)@[id as int], plan.remaining as int),
            ),
    {
        assert(self@[id as int] == self.disks@[id as int]@);
        let plan = plan_eviction(
            self.disks[id].remaining_size,
            choose_plot_size,
            self.plot_size,
            sizes,
        );
        self.disks[id].remaining_size = plan.remaining;
        proof {
            assert(self@ =~= old(self)@.update(
                id as int,
                with_remaining(old(self)@[id as int], plan.remaining as int),
            ));
            lemma_same_slots(old(self)@, self@);
        }
        plan
    }

    /// Chooses the volume for a plot of `choose_plot_size` bytes among those
    /// that no transfer has claimed.
    pub fn get_most_suitable_dir(&self, transfering_dirs: &ClaimSet, choose_plot_size: u64) -> (choice:
        Placement)
        requires
            self.wf(),
        ensures
            is_placement(choice, self@, transfering_dirs@, choose_plot_size),
    {
        let ghost vs = self@;
        let ghost claimed = transfering_dirs@;
        let mut best: Option<usize> = None;
        let mut most: Option<usize> = None;
        let mut i: usize = 0;
        while i < self.disks.len()
            invariant
                i <= self.disks@.len(),
                vs == self@,
                claimed == transfering_dirs@,
                vs.len() == self.disks@.len(),
                forall|k: int| 0 <= k < vs.len() ==> vs[k] == (#[trigger] self.disks@[k])@,
                match best {
                    None => forall|j: int| #[trigger] unclaimed(vs, claimed, j) ==> j >= i,
                    Some(b) => {
                        &&& b < i
                        &&& unclaimed(vs, claimed, b as int)
                        &&& forall|j: int|
                            #[trigger] unclaimed(vs, claimed, j) && j < i ==> vs[j].remaining
                                <= vs[b as int].remaining
                        &&& forall|j: int|
                            #[trigger] unclaimed(vs, claimed, j) && j < b ==> vs[j].remaining
                                < vs[b as int].remaining
                    },
                },
                match most {
                    None => forall|j: int| #[trigger] unclaimed(vs, claimed, j) ==> j >= i,
                    Some(m) => {
                        &&& m < i
                        &&& unclaimed(vs, claimed, m as int)
                        &&& forall|j: int|
                            #[trigger] unclaimed(vs, claimed, j) && j < i ==> free_slots(vs[j])
                                <= free_slots(vs[m as int])
                        &&& forall|j: int|
                            #[trigger] unclaimed(vs, claimed, j) && j < m ==> free_slots(vs[j])
                                < free_slots(vs[m as int])
                    },
                },
            decreases self.disks@.len() - i,
        {
            let item = &self.disks[i];
            assert(vs[i as int] == item@);
            if !transfering_dirs.contains(item.path.as_str()) {
                assert(unclaimed(vs, claimed, i as int));
                let roomier: bool = match best {
                    None => true,
                    Some(b) => item.remaining_size > self.disks[b].remaining_size,
                };
                if roomier {
                    best = Some(i);
                }
                let emptier: bool = match most {
                    None => true,
                    Some(m) => item.slots_left() > self.disks[m].slots_left(),
                };
                if emptier {
                    most = Some(i);
                }
            }
            i = i + 1;
        }
        match best {
            None => {
                assert(forall|j: int| !unclaimed(vs, claimed, j));
                Placement::Unavailable
            },
            Some(b) => {
                if self.disks[b].remaining_size > choose_plot_size as i128 {
                    Placement::Direct(b)
                } else {
                    let m: usize = most.unwrap();
                    if self.disks[m].slots_left() > 0 {
                        Placement::AfterEviction(m)
                    } else {
                        Placement::Unavailable
                    }
                }
            },
        }
    }
}

} // verus!
