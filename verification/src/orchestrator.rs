//! The control loop as a state machine.
//!
//! The loop itself waits, lists directories and starts transfers; none of
//! that happens here. What it saw comes in as an event, and what to do next
//! goes out as an [`Action`]. Transfers run beside the loop and report their
//! end at any time.

use vstd::prelude::*;
use vstd::string::*;
use crate::claims::ClaimSet;
use crate::eviction::{is_eviction_plan, EvictionPlan};
use crate::names::{plots_among, scan_plot};
use crate::placement::{is_placement, unclaimed, Placement};
use crate::run::{
    claimed_for_placing, cleared, dispatched, first_free, job_at, lemma_claimed_for_placing_wf,
    lemma_dispatched_wf, lemma_fresh_run_wf, lemma_is_step, lemma_released_wf,
    lemma_same_claims_wf, lemma_unplaced_wf, placing, released, reported, run_wf, steps_to,
    stored, unplaced, Job, Phase, RunState, Step,
};
use crate::show::ShowInfos;
use crate::volume::{can_take_plot, mounted_at, total_free_slots};

verus! {

/// Seconds between two looks at an empty staging directory.
pub const POLL_SECONDS: u64 = 10;

/// Seconds to wait after a plot found no volume.
pub const BACKOFF_SECONDS: u64 = 10;

/// A transfer in flight: the plot, the volume it goes to with its position
/// in the inventory, and the size of the plot.
#[derive(Debug)]
pub struct Transfer {
    pub plot: String,
    pub dir: String,
    pub disk: usize,
    pub size: u64,
}

impl View for Transfer {
    type V = Job;

    open spec fn view(&self) -> Job {
        Job { plot: self.plot@, dir: self.dir@, disk: self.disk, size: self.size }
    }
}

/// What the loop is to do next.
#[derive(Debug)]
pub enum Action {
    /// The event does not belong to the phase the loop is in. Nothing
    /// changed.
    OutOfTurn,
    /// No slot is free: start nothing more, and wait for the transfers in
    /// flight to end.
    Finish,
    /// List the staging directory and report what it holds.
    ListSource,
    /// The staging directory holds no plot: wait [`POLL_SECONDS`], then list
    /// it again.
    PollSource,
    /// Report the size of this plot in the staging directory.
    MeasurePlot { plot: String },
    /// List the plot files of this volume and report their sizes.
    ListVolume { dir: String, disk: usize },
    /// Start the transfer of this plot to this volume.
    Transfer { plot: String, dir: String, disk: usize, size: u64 },
    /// Delete the files that the plan names from the volume, then start the
    /// transfer of this plot to this volume.
    EvictThenTransfer { plot: String, dir: String, disk: usize, size: u64, plan: EvictionPlan },
    /// Delete the files that the plan names from the volume. They do not
    /// make room enough: report the failure, wait [`BACKOFF_SECONDS`], then
    /// scan again.
    EvictThenBackOff { dir: String, disk: usize, plan: EvictionPlan },
    /// No volume can take a plot now: wait [`BACKOFF_SECONDS`], then scan
    /// again.
    BackOff,
}

/// How the end of a transfer was taken.
#[derive(Debug, Clone, Copy, PartialEq, Eq, Structural)]
pub enum Completion {
    /// No transfer of that plot to that volume is in flight. Nothing
    /// changed.
    Unknown,
    /// The transfer succeeded and the plot is counted on its volume.
    Stored,
    /// The transfer failed. Its claims are released and nothing is counted.
    Abandoned,
    /// The transfer succeeded, but the counters of the volume cannot take
    /// the plot. Its claims are released and nothing is counted.
    Uncounted,
}

/// The loop and everything it shares with the transfers.
pub struct Orchestrator {
    infos: ShowInfos,
    transfering_plots: ClaimSet,
    transfering_dirs: ClaimSet,
    handles: Vec<Transfer>,
    phase: Phase,
    pending_plot: String,
    pending_size: u64,
    pending_disk: usize,
    release_unplaced: bool,
}

impl View for Orchestrator {
    type V = RunState;

    closed spec fn view(&self) -> RunState {
        RunState {
            volumes: self.infos@,
            reference: self.infos.plot_size(),
            claimed_plots: self.transfering_plots@,
            claimed_dirs: self.transfering_dirs@,
            in_flight: self.handles@.map_values(|t: Transfer| t@),
            phase: self.phase,
            pending_plot: self.pending_plot@,
            pending_size: self.pending_size,
            pending_disk: self.pending_disk,
            release_unplaced: self.release_unplaced,
        }
    }
}

impl Orchestrator {
    /// What holds of every orchestrator.
    pub open spec fn wf(&self) -> bool {
        run_wf(self@)
    }

    /// An orchestrator at the start of a run: nothing is claimed, nothing is
    /// in flight, and the loop is about to scan. `release_unplaced` says
    /// whether a plot that found no volume is released for a later attempt,
    /// or stays claimed for the rest of the run. There is no orchestrator
    /// for an inventory in which a volume is marked busy.
    pub fn new(infos: ShowInfos, release_unplaced: bool) -> (made: Option<Orchestrator>)
        requires
            infos.wf(),
        ensures
            match made {
                Some(o) => {
                    &&& o.wf()
                    &&& forall|i: int| 0 <= i < infos@.len() ==> !infos@[i].busy
                    &&& o@.volumes == infos@
                    &&& o@.reference == infos.plot_size()
                    &&& o@.claimed_plots == Set::<Seq<char>>::empty()
                    &&& o@.claimed_dirs == Set::<Seq<char>>::empty()
                    &&& o@.in_flight == Seq::<Job>::empty()
                    &&& o@.phase == Phase::Scanning
                    &&& o@.release_unplaced == release_unplaced
                },
                None => exists|i: int| 0 <= i < infos@.len() && infos@[i].busy,
            },
    {
        let mut i: usize = 0;
        while i < infos.len()
            invariant
                i <= infos@.len(),
                forall|k: int| 0 <= k < i ==> !infos@[k].busy,
            decreases infos@.len() - i,
        {
            if infos.disk(i).transfer_state {
                return None;
            }
            i = i + 1;
        }
        let made = Orchestrator {
            infos,
            transfering_plots: ClaimSet::new(),
            transfering_dirs: ClaimSet::new(),
            handles: Vec::new(),
            phase: Phase::Scanning,
            pending_plot: String::new(),
            pending_size: 0,
            pending_disk: 0,
            release_unplaced,
        };
        proof {
            assert(made@.in_flight =~= Seq::<Job>::empty());
            lemma_fresh_run_wf(made@);
        }
        Some(made)
    }

    /// The inventory, for a status display to read.
    pub fn infos(&self) -> (infos: &ShowInfos)
        ensures
            infos@ == self@.volumes,
            infos.plot_size() == self@.reference,
    {
        &self.infos
    }

    /// Where the loop stands.
    pub fn phase(&self) -> (phase: Phase)
        ensures
            phase == self@.phase,
    {
        self.phase
    }

    /// The number of transfers in flight.
    pub fn in_flight(&self) -> (n: usize)
        ensures
            n == self@.in_flight.len(),
    {
        self.handles.len()
    }

    /// Counts the free slots and decides whether the run goes on. With no
    /// free slot the run is done, and stays done; otherwise the loop turns
    /// to the staging directory.
    pub fn scan(&mut self) -> (action: Action)
        requires
            old(self).wf(),
        ensures
            final(self).wf(),
            steps_to(old(self)@, final(self)@),
            match action {
                Action::Finish => {
                    &&& old(self)@.phase == Phase::Done || (old(self)@.phase == Phase::Scanning
                        && total_free_slots(old(self)@.volumes) == 0)
                    &&& final(self)@ == RunState { phase: Phase::Done, ..old(self)@ }
                },
                Action::ListSource => {
                    &&& old(self)@.phase == Phase::Scanning
                    &&& total_free_slots(old(self)@.volumes) > 0
                    &&& final(self)@ == RunState { phase: Phase::WaitingForSource, ..old(self)@ }
                },
                Action::OutOfTurn => {
                    &&& old(self)@.phase != Phase::Scanning
                    &&& old(self)@.phase != Phase::Done
                    &&& final(self)@ == old(self)@
                },
                _ => false,
            },
    {
        match self.phase {
            Phase::Done => {
                proof {
                    lemma_is_step(old(self)@, Step::Finish);
                }
                Action::Finish
            },
            Phase::Scanning => {
                if self.infos.total_remaining() == 0 {
                    self.phase = Phase::Done;
                    proof {
                        lemma_is_step(old(self)@, Step::Finish);
                    }
                    Action::Finish
                } else {
                    self.phase = Phase::WaitingForSource;
                    proof {
                        lemma_is_step(old(self)@, Step::Resume);
                    }
                    Action::ListSource
                }
            },
            _ => {
                proof {
                    lemma_is_step(old(self)@, Step::Idle);
                }
                Action::OutOfTurn
            },
        }
    }

    /// Takes the listing of the staging directory. Without a plot in it the
    /// loop polls again. Otherwise the first plot that nobody has claimed is
    /// claimed and its size is asked for; when every plot is claimed the loop
    /// backs off and scans again.
    pub fn on_listing(&mut self, entries: &Vec<String>) -> (action: Action)
        requires
            old(self).wf(),
        ensures
            final(self).wf(),
            steps_to(old(self)@, final(self)@),
            match action {
                Action::OutOfTurn => {
                    &&& old(self)@.phase != Phase::WaitingForSource
                    &&& final(self)@ == old(self)@
                },
                Action::PollSource => {
                    &&& old(self)@.phase == Phase::WaitingForSource
                    &&& plots_among(entries@).len() == 0
                    &&& final(self)@ == old(self)@
                },
                Action::BackOff => {
                    &&& old(self)@.phase == Phase::WaitingForSource
                    &&& plots_among(entries@).len() > 0
                    &&& forall|j: int|
                        0 <= j < plots_among(entries@).len() ==> old(self)@.claimed_plots.contains(
                            (#[trigger] plots_among(entries@)[j])@,
                        )
                    &&& final(self)@ == RunState { phase: Phase::Scanning, ..old(self)@ }
                },
                Action::MeasurePlot { plot } => {
                    &&& old(self)@.phase == Phase::WaitingForSource
                    &&& exists|k: int|
                        first_free(plots_among(entries@), old(self)@.claimed_plots, k) && plot@
                            == (#[trigger] plots_among(entries@)[k])@
                    &&& final(self)@ == claimed_for_placing(old(self)@, plot@)
                },
                _ => false,
            },
    {
        proof {
            lemma_is_step(old(self)@, Step::Idle);
        }
        if self.phase != Phase::WaitingForSource {
            return Action::OutOfTurn;
        }
        let plots = scan_plot(entries);
        if plots.len() == 0 {
            return Action::PollSource;
        }
        let mut k: usize = 0;
        while k < plots.len()
            invariant
                k <= plots@.len(),
                plots@.len() > 0,
                plots@ == plots_among(entries@),
                old(self).wf(),
                *self == *old(self),
                self.phase == Phase::WaitingForSource,
                forall|j: int| 0 <= j < k ==> self.transfering_plots@.contains((#[trigger] plots@[j])@),
            decreases plots@.len() - k,
        {
            if !self.transfering_plots.contains(plots[k].as_str()) {
                assert(first_free(plots@, self.transfering_plots@, k as int));
                let plot: String = plots[k].clone();
                self.transfering_plots.claim(plot.as_str());
                self.pending_plot = plot.clone();
                self.phase = Phase::Sizing;
                proof {
                    lemma_claimed_for_placing_wf(old(self)@, plot@);
                    lemma_is_step(old(self)@, Step::Claim { plot: plot@ });
                }
                return Action::MeasurePlot { plot };
            }
            k = k + 1;
        }
        self.phase = Phase::Scanning;
        proof {
            lemma_is_step(old(self)@, Step::Retreat);
        }
        Action::BackOff
    }

    /// Sends the plot being placed to the volume at `disk`.
    fn dispatch(&mut self, disk: usize, size: u64) -> (dir: String)
        requires
            old(self).wf(),
            placing(old(self)@),
            unclaimed(old(self)@.volumes, old(self)@.claimed_dirs, disk as int),
        ensures
            final(self).wf(),
            final(self)@ == dispatched(old(self)@, disk, size),
            dir@ == old(self)@.volumes[disk as int].path,
    {
        let dir: String = self.infos.disk(disk).path.clone();
        let ghost before = self@;
        self.transfering_dirs.claim(dir.as_str());
        self.infos.change_state(dir.as_str());
        self.handles.push(
            Transfer { plot: self.pending_plot.clone(), dir: dir.clone(), disk, size },
        );
        self.phase = Phase::Scanning;
        proof {
            let job = Job { plot: before.pending_plot, dir: dir@, disk, size };
            assert(self@.in_flight =~= before.in_flight.push(job));
            lemma_dispatched_wf(before, disk, size);
        }
        dir
    }

    /// Gives up on the plot being placed.
    fn unplace(&mut self)
        requires
            old(self).wf(),
            placing(old(self)@),
        ensures
            final(self).wf(),
            final(self)@ == unplaced(old(self)@),
    {
        let ghost before = self@;
        if self.release_unplaced {
            let plot: String = self.pending_plot.clone();
            self.transfering_plots.release(plot.as_str());
        }
        self.phase = Phase::Scanning;
        proof {
            lemma_unplaced_wf(before);
        }
    }

    /// Takes the size of the plot being placed and places it. The plot goes
    /// at once to a volume that has room; or a volume is to be cleared
    /// first, and its listing is asked for; or no volume can take the plot,
    /// and the loop backs off.
    pub fn on_plot_size(&mut self, size: u64) -> (action: Action)
        requires
            old(self).wf(),
        ensures
            final(self).wf(),
            steps_to(old(self)@, final(self)@),
            match action {
                Action::OutOfTurn => {
                    &&& old(self)@.phase != Phase::Sizing
                    &&& final(self)@ == old(self)@
                },
                Action::Transfer { plot, dir, disk, size: sent } => {
                    &&& old(self)@.phase == Phase::Sizing
                    &&& is_placement(
                        Placement::Direct(disk),
                        old(self)@.volumes,
                        old(self)@.claimed_dirs,
                        size,
                    )
                    &&& plot@ == old(self)@.pending_plot
                    &&& dir@ == old(self)@.volumes[disk as int].path
                    &&& sent == size
                    &&& final(self)@ == dispatched(old(self)@, disk, size)
                },
                Action::ListVolume { dir, disk } => {
                    &&& old(self)@.phase == Phase::Sizing
                    &&& is_placement(
                        Placement::AfterEviction(disk),
                        old(self)@.volumes,
                        old(self)@.claimed_dirs,
                        size,
                    )
                    &&& dir@ == old(self)@.volumes[disk as int].path
                    &&& final(self)@ == RunState {
                        phase: Phase::Evicting,
                        pending_size: size,
                        pending_disk: disk,
                        ..old(self)@
                    }
                },
                Action::BackOff => {
                    &&& old(self)@.phase == Phase::Sizing
                    &&& is_placement(
                        Placement::Unavailable,
                        old(self)@.volumes,
                        old(self)@.claimed_dirs,
                        size,
                    )
                    &&& final(self)@ == unplaced(old(self)@)
                },
                _ => false,
            },
    {
        if self.phase != Phase::Sizing {
            proof {
                lemma_is_step(old(self)@, Step::Idle);
            }
            return Action::OutOfTurn;
        }
        match self.infos.get_most_suitable_dir(&self.transfering_dirs, size) {
            Placement::Direct(disk) => {
                let plot: String = self.pending_plot.clone();
                let dir: String = self.dispatch(disk, size);
                proof {
                    lemma_is_step(old(self)@, Step::Send { disk, size });
                }
                Action::Transfer { plot, dir, disk, size }
            },
            Placement::AfterEviction(disk) => {
                let dir: String = self.infos.disk(disk).path.clone();
                self.pending_size = size;
                self.pending_disk = disk;
                self.phase = Phase::Evicting;
                proof {
                    lemma_is_step(old(self)@, Step::Clear { disk, size });
                }
                Action::ListVolume { dir, disk }
            },
            Placement::Unavailable => {
                self.unplace();
                proof {
                    lemma_is_step(old(self)@, Step::GiveUp);
                }
                Action::BackOff
            },
        }
    }

    /// Takes the sizes of the plot files on the volume being cleared, in
    /// listing order, and plans the eviction. The files the plan names are
    /// to be deleted either way. When they make room enough, the transfer
    /// starts after them; when they do not, the volume is not handed out and
    /// the loop backs off.
    pub fn on_volume_listing(&mut self, sizes: &Vec<u64>) -> (action: Action)
        requires
            old(self).wf(),
        ensures
            final(self).wf(),
            steps_to(old(self)@, final(self)@),
            match action {
                Action::OutOfTurn => {
                    &&& old(self)@.phase != Phase::Evicting
                    &&& final(self)@ == old(self)@
                },
                Action::EvictThenTransfer { plot, dir, disk, size, plan } => {
                    &&& old(self)@.phase == Phase::Evicting
                    &&& disk == old(self)@.pending_disk
                    &&& size == old(self)@.pending_size
                    &&& plot@ == old(self)@.pending_plot
                    &&& dir@ == old(self)@.volumes[disk as int].path
                    &&& is_eviction_plan(
                        plan,
                        old(self)@.volumes[disk as int].remaining,
                        size,
                        old(self)@.reference,
                        sizes@,
                    )
                    &&& plan.enough
                    &&& final(self)@ == dispatched(
                        cleared(old(self)@, disk, plan.remaining as int),
                        disk,
                        size,
                    )
                },
                Action::EvictThenBackOff { dir, disk, plan } => {
                    &&& old(self)@.phase == Phase::Evicting
                    &&& disk == old(self)@.pending_disk
                    &&& dir@ == old(self)@.volumes[disk as int].path
                    &&& is_eviction_plan(
                        plan,
                        old(self)@.volumes[disk as int].remaining,
                        old(self)@.pending_size,
                        old(self)@.reference,
                        sizes@,
                    )
                    &&& !plan.enough
                    &&& final(self)@ == unplaced(cleared(old(self)@, disk, plan.remaining as int))
                },
                _ => false,
            },
    {
        if self.phase != Phase::Evicting {
            proof {
                lemma_is_step(old(self)@, Step::Idle);
            }
            return Action::OutOfTurn;
        }
        let disk: usize = self.pending_disk;
        let size: u64 = self.pending_size;
        let ghost before = self@;
        let plan = self.infos.del_plot(disk, size, sizes);
        proof {
            assert(self@ == cleared(before, disk, plan.remaining as int));
            lemma_same_claims_wf(before, self@.volumes);
        }
        if plan.enough {
            let plot: String = self.pending_plot.clone();
            let dir: String = self.dispatch(disk, size);
            proof {
                lemma_is_step(before, Step::ClearAndSend { remaining: plan.remaining as int });
            }
            Action::EvictThenTransfer { plot, dir, disk, size, plan }
        } else {
            let dir: String = self.infos.disk(disk).path.clone();
            self.unplace();
            proof {
                lemma_is_step(before, Step::ClearAndGiveUp { remaining: plan.remaining as int });
            }
            Action::EvictThenBackOff { dir, disk, plan }
        }
    }

    /// Takes the end of the transfer of `plot` to the volume mounted at
    /// `dir`. The transfer leaves the ones in flight, its plot and its
    /// volume are released, and the volume is marked idle. A transfer that
    /// succeeded is counted on its volume.
    pub fn on_transfer_done(&mut self, plot: &str, dir: &str, succeeded: bool) -> (outcome:
        Completion)
        requires
            old(self).wf(),
        ensures
            final(self).wf(),
            steps_to(old(self)@, final(self)@),
            match outcome {
                Completion::Unknown => {
                    &&& forall|k: int| !job_at(old(self)@.in_flight, plot@, dir@, k)
                    &&& final(self)@ == old(self)@
                },
                Completion::Abandoned => {
                    &&& !succeeded
                    &&& exists|k: int|
                        #[trigger] job_at(old(self)@.in_flight, plot@, dir@, k) && final(self)@
                            == released(old(self)@, k)
                },
                Completion::Stored => {
                    &&& succeeded
                    &&& exists|k: int|
                        {
                            &&& #[trigger] job_at(old(self)@.in_flight, plot@, dir@, k)
                            &&& can_take_plot(
                                old(self)@.volumes[old(self)@.in_flight[k].disk as int],
                                old(self)@.in_flight[k].size,
                            )
                            &&& final(self)@ == stored(
                                released(old(self)@, k),
                                old(self)@.in_flight[k].disk,
                                old(self)@.in_flight[k].size,
                            )
                        }
                },
                Completion::Uncounted => {
                    &&& succeeded
                    &&& exists|k: int|
                        {
                            &&& #[trigger] job_at(old(self)@.in_flight, plot@, dir@, k)
                            &&& !can_take_plot(
                                old(self)@.volumes[old(self)@.in_flight[k].disk as int],
                                old(self)@.in_flight[k].size,
                            )
                            &&& final(self)@ == released(old(self)@, k)
                        }
                },
            },
    {
        let wanted_plot: String = plot.to_owned();
        let wanted_dir: String = dir.to_owned();
        let mut k: usize = 0;
        while k < self.handles.len()
            invariant
                k <= self.handles@.len(),
                *self == *old(self),
                wanted_plot@ == plot@,
                wanted_dir@ == dir@,
                self@.in_flight.len() == self.handles@.len(),
                forall|j: int| 0 <= j < k ==> !job_at(self@.in_flight, plot@, dir@, j),
            ensures
                k < self.handles@.len() ==> job_at(self@.in_flight, plot@, dir@, k as int),
            decreases self.handles@.len() - k,
        {
            assert(self@.in_flight[k as int] == self.handles@[k as int]@);
            if self.handles[k].plot == wanted_plot && self.handles[k].dir == wanted_dir {
                break ;
            }
            k = k + 1;
        }
        if k >= self.handles.len() {
            proof {
                lemma_is_step(old(self)@, Step::Idle);
            }
            return Completion::Unknown;
        }
        let ghost before = self@;
        assert(before.in_flight[k as int] == self.handles@[k as int]@);
        assert(job_at(before.in_flight, plot@, dir@, k as int));
        let job: Transfer = self.handles.remove(k);
        self.transfering_plots.release(job.plot.as_str());
        self.transfering_dirs.release(job.dir.as_str());
        self.infos.change_state(job.dir.as_str());
        proof {
            assert(self@.in_flight =~= before.in_flight.remove(k as int));
            assert(self@ == released(before, k as int));
            lemma_released_wf(before, k as int);
            lemma_is_step(before, Step::End { k: k as int, counted: false });
        }
        if !succeeded {
            return Completion::Abandoned;
        }
        let ghost idle = self@;
        assert(before.in_flight[k as int].disk < before.volumes.len());
        assert(mounted_at(idle.volumes, job.dir@, job.disk as int));
        match self.infos.add_one_plot(job.dir.as_str(), job.size) {
            Ok(()) => {
                proof {
                    assert(self@ == stored(idle, job.disk, job.size));
                    lemma_same_claims_wf(idle, self@.volumes);
                    lemma_is_step(before, Step::End { k: k as int, counted: true });
                }
                Completion::Stored
            },
            Err(_) => Completion::Uncounted,
        }
    }

    /// Takes the throughput and the bytes written so far of the transfer to
    /// the volume mounted at `dir`, for display. Nothing else changes.
    pub fn on_progress(&mut self, dir: &str, transfer_rate: u64, total_transfered: u64)
        requires
            old(self).wf(),
        ensures
            final(self).wf(),
            steps_to(old(self)@, final(self)@),
            final(self)@ == reported(old(self)@, dir@, transfer_rate, total_transfered),
    {
        let ghost before = self@;
        self.infos.updtate_transfering_msg(dir, transfer_rate, total_transfered);
        proof {
            lemma_same_claims_wf(before, self@.volumes);
            lemma_is_step(
                before,
                Step::Report { dir: dir@, rate: transfer_rate, transferred: total_transfered },
            );
        }
    }
}

} // verus!
