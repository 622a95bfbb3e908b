use hello_plot_max::{
    Action, Completion, FinalDir, Orchestrator, Phase, ShowInfos, UserSet, BACKOFF_SECONDS,
    POLL_SECONDS,
};

const GIB: u64 = 1 << 30;

fn names(list: &[&str]) -> Vec<String> {
    list.iter().map(|s| s.to_string()).collect()
}

fn inventory(dirs: &[(&str, u64)], reference: u64, listings: Vec<Vec<u64>>) -> ShowInfos {
    let user_set = UserSet {
        source_dir_path: "/staging".to_string(),
        hdd_limit_rate: 50 * 1024 * 1024,
        final_dirs: dirs
            .iter()
            .map(|(path, size)| FinalDir { path: path.to_string(), size: *size })
            .collect(),
    };
    match ShowInfos::new(&user_set, reference, &listings) {
        Ok(infos) => infos,
        Err(e) => panic!("no inventory: {:?}", e),
    }
}

fn orchestrator(infos: ShowInfos, release_unplaced: bool) -> Orchestrator {
    match Orchestrator::new(infos, release_unplaced) {
        Some(o) => o,
        None => panic!("no orchestrator"),
    }
}

#[test]
fn the_waits_are_ten_seconds() {
    assert_eq!(POLL_SECONDS, 10);
    assert_eq!(BACKOFF_SECONDS, 10);
}

#[test]
fn a_run_starts_scanning_with_nothing_in_flight() {
    let o = orchestrator(inventory(&[("/a", 100)], 10, vec![vec![]]), true);
    assert_eq!(o.phase(), Phase::Scanning);
    assert_eq!(o.in_flight(), 0);
    assert_eq!(o.infos().len(), 1);
}

#[test]
fn a_busy_inventory_starts_no_run() {
    let mut infos = inventory(&[("/a", 100)], 10, vec![vec![]]);
    infos.change_state("/a");
    assert!(Orchestrator::new(infos, true).is_none());
}

#[test]
fn a_run_without_free_slots_is_done_at_once() {
    let mut o = orchestrator(inventory(&[("/a", 100)], 100, vec![vec![100]]), true);
    assert!(matches!(o.scan(), Action::Finish));
    assert_eq!(o.phase(), Phase::Done);
    assert!(matches!(o.scan(), Action::Finish));
    assert!(matches!(o.on_listing(&names(&["a.plot"])), Action::OutOfTurn));
    assert!(matches!(o.on_plot_size(100), Action::OutOfTurn));
    assert!(matches!(o.on_volume_listing(&vec![]), Action::OutOfTurn));
    assert_eq!(o.phase(), Phase::Done);
    assert_eq!(o.in_flight(), 0);
}

#[test]
fn an_empty_staging_directory_is_polled_again() {
    let mut o = orchestrator(inventory(&[("/a", 100)], 10, vec![vec![]]), true);
    assert!(matches!(o.scan(), Action::ListSource));
    assert_eq!(o.phase(), Phase::WaitingForSource);
    assert!(matches!(o.on_listing(&names(&[])), Action::PollSource));
    assert!(matches!(o.on_listing(&names(&["a.plot.tmp", "notes"])), Action::PollSource));
    assert_eq!(o.phase(), Phase::WaitingForSource);
}

#[test]
fn events_out_of_turn_change_nothing() {
    let mut o = orchestrator(inventory(&[("/a", 100)], 10, vec![vec![]]), true);
    assert!(matches!(o.on_listing(&names(&["a.plot"])), Action::OutOfTurn));
    assert!(matches!(o.on_plot_size(5), Action::OutOfTurn));
    assert!(matches!(o.on_volume_listing(&vec![1]), Action::OutOfTurn));
    assert_eq!(o.phase(), Phase::Scanning);
    assert!(matches!(o.scan(), Action::ListSource));
    assert!(matches!(o.scan(), Action::OutOfTurn));
    assert_eq!(o.phase(), Phase::WaitingForSource);
    assert_eq!(o.on_transfer_done("a.plot", "/a", true), Completion::Unknown);
    assert_eq!(o.infos().disk(0).finished_num, 0);
}

#[test]
fn a_plot_goes_to_the_first_of_two_equal_volumes() {
    let mut o = orchestrator(
        inventory(&[("/a", 3 * GIB), ("/b", 3 * GIB)], GIB, vec![vec![], vec![]]),
        true,
    );
    assert!(matches!(o.scan(), Action::ListSource));
    match o.on_listing(&names(&["junk.tmp", "a.plot", "b.plot"])) {
        Action::MeasurePlot { plot } => assert_eq!(plot, "a.plot"),
        other => panic!("unexpected {:?}", other),
    }
    assert_eq!(o.phase(), Phase::Sizing);
    match o.on_plot_size(GIB) {
        Action::Transfer { plot, dir, disk, size } => {
            assert_eq!(plot, "a.plot");
            assert_eq!(dir, "/a");
            assert_eq!(disk, 0);
            assert_eq!(size, GIB);
        },
        other => panic!("unexpected {:?}", other),
    }
    assert_eq!(o.phase(), Phase::Scanning);
    assert_eq!(o.in_flight(), 1);
    assert!(o.infos().disk(0).transfer_state);
    assert!(!o.infos().disk(1).transfer_state);
}

#[test]
fn two_transfers_never_share_a_volume_or_a_plot() {
    let mut o = orchestrator(
        inventory(&[("/a", 3 * GIB), ("/b", 3 * GIB)], GIB, vec![vec![], vec![]]),
        true,
    );
    let listing = names(&["a.plot", "b.plot"]);
    assert!(matches!(o.scan(), Action::ListSource));
    assert!(matches!(o.on_listing(&listing), Action::MeasurePlot { .. }));
    assert!(matches!(o.on_plot_size(GIB), Action::Transfer { disk: 0, .. }));
    assert!(matches!(o.scan(), Action::ListSource));
    match o.on_listing(&listing) {
        Action::MeasurePlot { plot } => assert_eq!(plot, "b.plot"),
        other => panic!("unexpected {:?}", other),
    }
    match o.on_plot_size(GIB) {
        Action::Transfer { plot, dir, disk, .. } => {
            assert_eq!(plot, "b.plot");
            assert_eq!(dir, "/b");
            assert_eq!(disk, 1);
        },
        other => panic!("unexpected {:?}", other),
    }
    assert_eq!(o.in_flight(), 2);
    assert!(o.infos().disk(0).transfer_state);
    assert!(o.infos().disk(1).transfer_state);
    // every plot of the listing is claimed, and so is every volume
    assert!(matches!(o.scan(), Action::ListSource));
    assert!(matches!(o.on_listing(&listing), Action::BackOff));
    assert_eq!(o.phase(), Phase::Scanning);
    assert!(matches!(o.scan(), Action::ListSource));
    assert!(matches!(o.on_listing(&names(&["a.plot", "b.plot", "c.plot"])), Action::MeasurePlot { .. }));
    assert!(matches!(o.on_plot_size(GIB), Action::BackOff));
    assert_eq!(o.in_flight(), 2);
}

#[test]
fn a_finished_transfer_is_counted_and_its_claims_are_released() {
    let mut o = orchestrator(
        inventory(&[("/a", 3 * GIB), ("/b", 3 * GIB)], GIB, vec![vec![], vec![]]),
        true,
    );
    let listing = names(&["a.plot"]);
    o.scan();
    o.on_listing(&listing);
    o.on_plot_size(GIB);
    assert_eq!(o.on_transfer_done("a.plot", "/b", true), Completion::Unknown);
    assert_eq!(o.on_transfer_done("b.plot", "/a", true), Completion::Unknown);
    assert_eq!(o.in_flight(), 1);
    assert_eq!(o.on_transfer_done("a.plot", "/a", true), Completion::Stored);
    assert_eq!(o.in_flight(), 0);
    let disk = o.infos().disk(0);
    assert!(!disk.transfer_state);
    assert_eq!(disk.finished_num, 1);
    assert_eq!(disk.remaining_size, 2 * GIB as i128);
    assert_eq!(o.infos().total_remaining(), 5);
    assert_eq!(o.on_transfer_done("a.plot", "/a", true), Completion::Unknown);
    // a plot of the same name may come again, and /b is now the roomier
    assert!(matches!(o.scan(), Action::ListSource));
    assert!(matches!(o.on_listing(&listing), Action::MeasurePlot { .. }));
    assert!(matches!(o.on_plot_size(GIB), Action::Transfer { disk: 1, .. }));
}

#[test]
fn a_failed_transfer_releases_its_claims_and_counts_nothing() {
    let mut o = orchestrator(inventory(&[("/a", 3 * GIB)], GIB, vec![vec![]]), true);
    let listing = names(&["a.plot"]);
    o.scan();
    o.on_listing(&listing);
    assert!(matches!(o.on_plot_size(GIB), Action::Transfer { .. }));
    assert_eq!(o.on_transfer_done("a.plot", "/a", false), Completion::Abandoned);
    assert_eq!(o.in_flight(), 0);
    let disk = o.infos().disk(0);
    assert!(!disk.transfer_state);
    assert_eq!(disk.finished_num, 0);
    assert_eq!(disk.remaining_size, 3 * GIB as i128);
    assert!(matches!(o.scan(), Action::ListSource));
    match o.on_listing(&listing) {
        Action::MeasurePlot { plot } => assert_eq!(plot, "a.plot"),
        other => panic!("unexpected {:?}", other),
    }
    assert!(matches!(o.on_plot_size(GIB), Action::Transfer { disk: 0, .. }));
}

#[test]
fn progress_is_shown_on_the_volume_of_the_transfer() {
    let mut o = orchestrator(
        inventory(&[("/a", 3 * GIB), ("/b", 2 * GIB)], GIB, vec![vec![], vec![]]),
        true,
    );
    o.scan();
    o.on_listing(&names(&["a.plot"]));
    assert!(matches!(o.on_plot_size(GIB), Action::Transfer { disk: 0, .. }));
    o.on_progress("/a", 52_428_800, 819_200_000);
    assert_eq!(o.infos().disk(0).transfer_rate, 52_428_800);
    assert_eq!(o.infos().disk(0).total_transfered, 819_200_000);
    assert_eq!(o.infos().disk(1).transfer_rate, 0);
    assert!(o.infos().disk(0).transfer_state);
    assert_eq!(o.in_flight(), 1);
    assert_eq!(o.phase(), Phase::Scanning);
    assert_eq!(o.on_transfer_done("a.plot", "/a", true), Completion::Stored);
    assert_eq!(o.infos().disk(0).transfer_rate, 0);
    assert_eq!(o.infos().disk(0).total_transfered, 0);
}

#[test]
fn progress_of_a_transfer_is_cleared_at_its_start() {
    let mut infos = inventory(&[("/a", 3 * GIB)], GIB, vec![vec![]]);
    infos.updtate_transfering_msg("/a", 5, 6);
    let mut o = orchestrator(infos, true);
    o.scan();
    o.on_listing(&names(&["a.plot"]));
    o.on_plot_size(GIB);
    assert_eq!(o.infos().disk(0).transfer_rate, 0);
    assert_eq!(o.infos().disk(0).total_transfered, 0);
}

#[test]
fn an_unplaced_plot_is_released_where_the_run_says_so() {
    let mut o = orchestrator(
        inventory(&[("/a", 3 * GIB), ("/b", GIB)], GIB, vec![vec![], vec![GIB]]),
        true,
    );
    let listing = names(&["a.plot", "b.plot"]);
    o.scan();
    o.on_listing(&listing);
    assert!(matches!(o.on_plot_size(GIB), Action::Transfer { disk: 0, .. }));
    o.scan();
    match o.on_listing(&listing) {
        Action::MeasurePlot { plot } => assert_eq!(plot, "b.plot"),
        other => panic!("unexpected {:?}", other),
    }
    assert!(matches!(o.on_plot_size(GIB), Action::BackOff));
    assert_eq!(o.phase(), Phase::Scanning);
    o.scan();
    match o.on_listing(&listing) {
        Action::MeasurePlot { plot } => assert_eq!(plot, "b.plot"),
        other => panic!("unexpected {:?}", other),
    }
}

#[test]
fn an_unplaced_plot_stays_claimed_where_the_run_says_so() {
    let mut o = orchestrator(
        inventory(&[("/a", 3 * GIB), ("/b", GIB)], GIB, vec![vec![], vec![GIB]]),
        false,
    );
    let listing = names(&["a.plot", "b.plot"]);
    o.scan();
    o.on_listing(&listing);
    assert!(matches!(o.on_plot_size(GIB), Action::Transfer { disk: 0, .. }));
    o.scan();
    assert!(matches!(o.on_listing(&listing), Action::MeasurePlot { .. }));
    assert!(matches!(o.on_plot_size(GIB), Action::BackOff));
    o.scan();
    assert!(matches!(o.on_listing(&listing), Action::BackOff));
    assert_eq!(o.on_transfer_done("a.plot", "/a", true), Completion::Stored);
    o.scan();
    match o.on_listing(&listing) {
        Action::MeasurePlot { plot } => assert_eq!(plot, "a.plot"),
        other => panic!("unexpected {:?}", other),
    }
}

#[test]
fn a_full_volume_is_cleared_before_the_plot_is_sent() {
    let plot = 100 * GIB;
    let legacy = vec![50 * GIB, 50 * GIB, 50 * GIB];
    let mut o = orchestrator(
        inventory(&[("/a", 150 * GIB), ("/b", 150 * GIB)], plot, vec![
            legacy.clone(),
            legacy.clone(),
        ]),
        true,
    );
    assert_eq!(o.infos().disk(0).remaining_size, 0);
    assert_eq!(o.infos().disk(1).remaining_size, 0);
    assert_eq!(o.infos().disk(0).max_num, 1);
    assert_eq!(o.infos().disk(0).finished_num, 0);
    assert!(matches!(o.scan(), Action::ListSource));
    match o.on_listing(&names(&["a.plot"])) {
        Action::MeasurePlot { plot } => assert_eq!(plot, "a.plot"),
        other => panic!("unexpected {:?}", other),
    }
    match o.on_plot_size(plot) {
        Action::ListVolume { dir, disk } => {
            assert_eq!(dir, "/a");
            assert_eq!(disk, 0);
        },
        other => panic!("unexpected {:?}", other),
    }
    assert_eq!(o.phase(), Phase::Evicting);
    assert_eq!(o.in_flight(), 0);
    match o.on_volume_listing(&legacy) {
        Action::EvictThenTransfer { plot: name, dir, disk, size, plan } => {
            assert_eq!(name, "a.plot");
            assert_eq!(dir, "/a");
            assert_eq!(disk, 0);
            assert_eq!(size, plot);
            assert!(plan.enough);
            assert_eq!(plan.deletions, vec![0, 1, 2]);
            assert_eq!(plan.remaining, 150 * GIB as i128);
        },
        other => panic!("unexpected {:?}", other),
    }
    assert_eq!(o.phase(), Phase::Scanning);
    assert_eq!(o.in_flight(), 1);
    assert!(o.infos().disk(0).transfer_state);
    assert_eq!(o.infos().disk(0).remaining_size, 150 * GIB as i128);
    assert_eq!(o.on_transfer_done("a.plot", "/a", true), Completion::Stored);
    let disk = o.infos().disk(0);
    assert_eq!(disk.finished_num, 1);
    assert_eq!(disk.remaining_size, 50 * GIB as i128);
    assert!(!disk.transfer_state);
    assert_eq!(o.infos().disk(1).finished_num, 0);
    assert_eq!(o.infos().total_remaining(), 1);
}

#[test]
fn a_volume_that_cannot_be_cleared_is_not_handed_out() {
    let plot = 100 * GIB;
    let mut o = orchestrator(
        inventory(&[("/a", 150 * GIB)], plot, vec![vec![50 * GIB, 50 * GIB, 50 * GIB]]),
        true,
    );
    o.scan();
    o.on_listing(&names(&["a.plot"]));
    assert!(matches!(o.on_plot_size(plot), Action::ListVolume { disk: 0, .. }));
    // by now only two of the files are left on the volume
    match o.on_volume_listing(&vec![50 * GIB, 50 * GIB]) {
        Action::EvictThenBackOff { dir, disk, plan } => {
            assert_eq!(dir, "/a");
            assert_eq!(disk, 0);
            assert!(!plan.enough);
            assert_eq!(plan.deletions, vec![0, 1]);
            assert_eq!(plan.remaining, 100 * GIB as i128);
        },
        other => panic!("unexpected {:?}", other),
    }
    assert_eq!(o.phase(), Phase::Scanning);
    assert_eq!(o.in_flight(), 0);
    assert!(!o.infos().disk(0).transfer_state);
    assert_eq!(o.infos().disk(0).remaining_size, 100 * GIB as i128);
    assert_eq!(o.infos().disk(0).finished_num, 0);
}

#[test]
fn a_transfer_may_end_while_a_plot_is_being_placed() {
    let mut o = orchestrator(
        inventory(&[("/a", 3 * GIB), ("/b", 2 * GIB)], GIB, vec![vec![], vec![]]),
        true,
    );
    let listing = names(&["a.plot", "b.plot"]);
    o.scan();
    o.on_listing(&listing);
    assert!(matches!(o.on_plot_size(GIB), Action::Transfer { disk: 0, .. }));
    o.scan();
    assert!(matches!(o.on_listing(&listing), Action::MeasurePlot { .. }));
    assert_eq!(o.on_transfer_done("a.plot", "/a", true), Completion::Stored);
    assert_eq!(o.phase(), Phase::Sizing);
    // /a and /b now both have two GiB left, and the first of them wins
    assert!(matches!(o.on_plot_size(GIB), Action::Transfer { disk: 0, .. }));
    assert_eq!(o.on_transfer_done("b.plot", "/a", true), Completion::Stored);
    assert_eq!(o.infos().disk(0).finished_num, 2);
    assert_eq!(o.infos().disk(0).remaining_size, GIB as i128);
}

#[test]
fn the_run_ends_when_every_slot_is_taken() {
    let mut o = orchestrator(inventory(&[("/a", 2 * GIB + 1)], GIB, vec![vec![]]), true);
    let mut sent = 0;
    loop {
        match o.scan() {
            Action::Finish => break,
            Action::ListSource => {},
            other => panic!("unexpected {:?}", other),
        }
        let name = format!("plot-{}.plot", sent);
        assert!(matches!(o.on_listing(&vec![name.clone()]), Action::MeasurePlot { .. }));
        assert!(matches!(o.on_plot_size(GIB), Action::Transfer { .. }));
        assert_eq!(o.on_transfer_done(&name, "/a", true), Completion::Stored);
        sent += 1;
        assert!(sent <= 2);
    }
    assert_eq!(sent, 2);
    assert_eq!(o.phase(), Phase::Done);
    assert_eq!(o.infos().total_remaining(), 0);
    assert_eq!(o.infos().disk(0).state().label(), "Finished");
}

#[test]
fn a_run_counts_as_many_transfers_as_there_were_free_slots() {
    let mut o = orchestrator(
        inventory(&[("/a", 2 * GIB + 1), ("/b", 3 * GIB + 1)], GIB, vec![vec![], vec![GIB]]),
        true,
    );
    let free_at_start = o.infos().total_remaining();
    assert_eq!(free_at_start, 4);
    let mut waiting: Vec<String> = (0..10).map(|n| format!("plot-{}.plot", n)).collect();
    let mut started = 0;
    let mut stored = 0;
    loop {
        match o.scan() {
            Action::Finish => break,
            Action::ListSource => {},
            other => panic!("unexpected {:?}", other),
        }
        let plot = match o.on_listing(&waiting) {
            Action::MeasurePlot { plot } => plot,
            other => panic!("unexpected {:?}", other),
        };
        let dir = match o.on_plot_size(GIB) {
            Action::Transfer { plot: sent, dir, .. } => {
                assert_eq!(sent, plot);
                dir
            },
            other => panic!("unexpected {:?}", other),
        };
        started += 1;
        let before = o.infos().total_remaining();
        assert_eq!(o.on_transfer_done(&plot, &dir, true), Completion::Stored);
        assert_eq!(o.infos().total_remaining(), before - 1);
        stored += 1;
        waiting.retain(|name| name != &plot);
        assert!(started <= free_at_start);
    }
    assert_eq!(started, 4);
    assert_eq!(stored, 4);
    assert_eq!(waiting.len(), 6);
    assert_eq!(o.phase(), Phase::Done);
    assert_eq!(o.in_flight(), 0);
    assert_eq!(o.infos().total_remaining(), 0);
    assert!(o.infos().disks().iter().all(|d| !d.transfer_state));
    assert_eq!(o.infos().disk(0).finished_num, 2);
    assert_eq!(o.infos().disk(1).finished_num, 3);
    // done stays done, and nothing is started
    assert!(matches!(o.on_listing(&waiting), Action::OutOfTurn));
    assert!(matches!(o.on_plot_size(GIB), Action::OutOfTurn));
    assert!(matches!(o.scan(), Action::Finish));
    assert_eq!(o.in_flight(), 0);
}

#[test]
fn transfers_that_end_late_are_still_counted_one_slot_each() {
    let mut o = orchestrator(
        inventory(&[("/a", GIB + 1), ("/b", GIB + 1)], GIB, vec![vec![], vec![]]),
        true,
    );
    let listing = names(&["a.plot", "b.plot", "c.plot"]);
    assert_eq!(o.infos().total_remaining(), 2);
    o.scan();
    o.on_listing(&listing);
    assert!(matches!(o.on_plot_size(GIB), Action::Transfer { disk: 0, .. }));
    o.scan();
    o.on_listing(&listing);
    assert!(matches!(o.on_plot_size(GIB), Action::Transfer { disk: 1, .. }));
    // both slots are spoken for but not yet counted: the third plot finds no volume
    assert_eq!(o.infos().total_remaining(), 2);
    assert!(matches!(o.scan(), Action::ListSource));
    assert!(matches!(o.on_listing(&listing), Action::MeasurePlot { .. }));
    assert!(matches!(o.on_plot_size(GIB), Action::BackOff));
    assert_eq!(o.in_flight(), 2);
    assert_eq!(o.on_transfer_done("b.plot", "/b", true), Completion::Stored);
    assert_eq!(o.infos().total_remaining(), 1);
    assert!(matches!(o.scan(), Action::ListSource));
    assert_eq!(o.on_transfer_done("a.plot", "/a", true), Completion::Stored);
    assert_eq!(o.infos().total_remaining(), 0);
    assert!(matches!(o.on_listing(&listing), Action::MeasurePlot { .. }));
    assert!(matches!(o.on_plot_size(GIB), Action::BackOff));
    assert!(matches!(o.scan(), Action::Finish));
    assert_eq!(o.in_flight(), 0);
}
