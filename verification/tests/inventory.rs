use hello_plot_max::{
    ClaimSet, DiskState, FinalDir, InventoryError, Placement, ShowInfos, UserSet, TOLERANCE_BYTES,
};

const GIB: u64 = 1 << 30;

fn settings(dirs: &[(&str, u64)]) -> UserSet {
    UserSet {
        source_dir_path: "/staging".to_string(),
        hdd_limit_rate: 50 * 1024 * 1024,
        final_dirs: dirs
            .iter()
            .map(|(path, size)| FinalDir { path: path.to_string(), size: *size })
            .collect(),
    }
}

fn inventory(dirs: &[(&str, u64)], reference: u64, listings: Vec<Vec<u64>>) -> ShowInfos {
    match ShowInfos::new(&settings(dirs), reference, &listings) {
        Ok(infos) => infos,
        Err(e) => panic!("no inventory: {:?}", e),
    }
}

#[test]
fn an_empty_volume_has_all_its_capacity_left() {
    let infos = inventory(&[("/mnt/d1", 1000 * GIB)], 100 * GIB, vec![vec![]]);
    assert_eq!(infos.len(), 1);
    let disk = infos.disk(0);
    assert_eq!(disk.path, "/mnt/d1");
    assert_eq!(disk.capacity, 1000 * GIB);
    assert_eq!(disk.max_num, 10);
    assert_eq!(disk.finished_num, 0);
    assert_eq!(disk.remaining_size, 1000 * GIB as i128);
    assert_eq!(disk.transfer_rate, 0);
    assert_eq!(disk.total_transfered, 0);
    assert!(!disk.transfer_state);
    assert_eq!(infos.reference_size(), 100 * GIB);
}

#[test]
fn slots_are_the_capacity_over_the_reference_rounded_down() {
    let infos = inventory(
        &[("/a", 999), ("/b", 1000), ("/c", 1001), ("/d", 99), ("/e", 0)],
        100,
        vec![vec![], vec![], vec![], vec![], vec![]],
    );
    assert_eq!(infos.disk(0).max_num, 9);
    assert_eq!(infos.disk(1).max_num, 10);
    assert_eq!(infos.disk(2).max_num, 10);
    assert_eq!(infos.disk(3).max_num, 0);
    assert_eq!(infos.disk(4).max_num, 0);
}

#[test]
fn a_plot_in_the_band_counts_as_finished() {
    let reference = 100 * GIB;
    let found = vec![reference + TOLERANCE_BYTES, 30 * GIB, reference - TOLERANCE_BYTES];
    let infos = inventory(&[("/mnt/d1", 1000 * GIB)], reference, vec![found]);
    let disk = infos.disk(0);
    assert_eq!(disk.finished_num, 2);
    assert_eq!(disk.remaining_size, (1000 * GIB - 230 * GIB) as i128);
}

#[test]
fn a_file_outside_the_band_takes_room_but_no_slot() {
    let reference = 100 * GIB;
    let found = vec![reference + TOLERANCE_BYTES + 1, reference - TOLERANCE_BYTES - 1];
    let infos = inventory(&[("/mnt/d1", 1000 * GIB)], reference, vec![found]);
    let disk = infos.disk(0);
    assert_eq!(disk.finished_num, 0);
    assert_eq!(disk.remaining_size, 800 * GIB as i128);
}

#[test]
fn a_volume_over_its_capacity_has_less_than_nothing_left() {
    let infos = inventory(&[("/mnt/d1", 10)], GIB, vec![vec![7, 8]]);
    assert_eq!(infos.disk(0).remaining_size, -5);
    assert_eq!(infos.disk(0).max_num, 0);
}

#[test]
fn volumes_keep_their_declared_order() {
    let infos = inventory(&[("/z", 5), ("/a", 6), ("/m", 7)], 1, vec![vec![], vec![1], vec![]]);
    let records = infos.disks();
    assert_eq!(records.len(), 3);
    assert_eq!(records[0].path, "/z");
    assert_eq!(records[1].path, "/a");
    assert_eq!(records[2].path, "/m");
    assert_eq!(records[1].remaining_size, 5);
    assert_eq!(records[1].finished_num, 1);
}

#[test]
fn a_reference_of_no_bytes_is_refused() {
    let built = ShowInfos::new(&settings(&[("/a", 5)]), 0, &vec![vec![]]);
    assert!(matches!(built, Err(InventoryError::ZeroPlotSize)));
}

#[test]
fn a_reference_of_no_bytes_is_refused_first() {
    let built = ShowInfos::new(&settings(&[("/a", 5), ("/a", 5)]), 0, &vec![]);
    assert!(matches!(built, Err(InventoryError::ZeroPlotSize)));
}

#[test]
fn listings_must_match_the_volumes() {
    let built = ShowInfos::new(&settings(&[("/a", 5), ("/b", 5)]), 1, &vec![vec![]]);
    assert!(matches!(built, Err(InventoryError::ListingMismatch)));
    let built = ShowInfos::new(&settings(&[]), 1, &vec![vec![]]);
    assert!(matches!(built, Err(InventoryError::ListingMismatch)));
}

#[test]
fn two_volumes_may_not_share_a_path() {
    let built = ShowInfos::new(
        &settings(&[("/a", 5), ("/b", 5), ("/a", 9)]),
        1,
        &vec![vec![], vec![], vec![]],
    );
    assert!(matches!(built, Err(InventoryError::DuplicatePath)));
}

#[test]
fn more_slots_than_can_be_counted_are_refused() {
    let built = ShowInfos::new(
        &settings(&[("/a", u64::MAX), ("/b", u64::MAX)]),
        1,
        &vec![vec![], vec![]],
    );
    assert!(matches!(built, Err(InventoryError::Overflow)));
}

#[test]
fn no_volume_at_all_is_an_inventory() {
    let infos = inventory(&[], 1, vec![]);
    assert_eq!(infos.len(), 0);
    assert_eq!(infos.total_remaining(), 0);
    assert_eq!(infos.get_most_suitable_dir(&ClaimSet::new(), 1), Placement::Unavailable);
}

#[test]
fn total_remaining_adds_the_free_slots() {
    let infos = inventory(&[("/a", 300), ("/b", 250), ("/c", 99)], 100, vec![
        vec![100],
        vec![],
        vec![],
    ]);
    assert_eq!(infos.total_remaining(), 2 + 2 + 0);
}

#[test]
fn total_remaining_counts_an_overfull_volume_as_zero() {
    let infos = inventory(&[("/a", 100), ("/b", 200)], 100, vec![vec![100, 100, 100], vec![]]);
    assert_eq!(infos.disk(0).max_num, 1);
    assert_eq!(infos.disk(0).finished_num, 3);
    assert_eq!(infos.total_remaining(), 2);
}

#[test]
fn position_finds_a_volume_by_its_path() {
    let infos = inventory(&[("/a", 1), ("/b", 1)], 1, vec![vec![], vec![]]);
    assert_eq!(infos.position("/a"), Some(0));
    assert_eq!(infos.position("/b"), Some(1));
    assert_eq!(infos.position("/c"), None);
    assert_eq!(infos.position(""), None);
}

#[test]
fn a_tie_on_remaining_bytes_goes_to_the_first_volume() {
    let infos = inventory(&[("/a", 100), ("/b", 100)], GIB, vec![vec![], vec![]]);
    assert_eq!(infos.disk(0).remaining_size, 100);
    assert_eq!(infos.disk(1).remaining_size, 100);
    assert_eq!(infos.get_most_suitable_dir(&ClaimSet::new(), 50), Placement::Direct(0));
}

#[test]
fn the_roomiest_volume_is_chosen() {
    let infos = inventory(&[("/a", 100), ("/b", 300), ("/c", 200)], GIB, vec![
        vec![],
        vec![],
        vec![],
    ]);
    assert_eq!(infos.get_most_suitable_dir(&ClaimSet::new(), 50), Placement::Direct(1));
}

#[test]
fn a_claimed_volume_is_passed_over() {
    let infos = inventory(&[("/a", 100), ("/b", 300), ("/c", 200)], GIB, vec![
        vec![],
        vec![],
        vec![],
    ]);
    let mut claimed = ClaimSet::new();
    claimed.claim("/b");
    assert_eq!(infos.get_most_suitable_dir(&claimed, 50), Placement::Direct(2));
    claimed.claim("/c");
    assert_eq!(infos.get_most_suitable_dir(&claimed, 50), Placement::Direct(0));
    claimed.claim("/a");
    assert_eq!(infos.get_most_suitable_dir(&claimed, 50), Placement::Unavailable);
}

#[test]
fn room_must_exceed_the_plot() {
    let infos = inventory(&[("/a", 100)], 50, vec![vec![]]);
    assert_eq!(infos.get_most_suitable_dir(&ClaimSet::new(), 99), Placement::Direct(0));
    assert_eq!(infos.get_most_suitable_dir(&ClaimSet::new(), 100), Placement::AfterEviction(0));
}

#[test]
fn without_room_the_volume_with_most_free_slots_is_cleared() {
    let infos = inventory(&[("/a", 200), ("/b", 500), ("/c", 500)], 100, vec![
        vec![150],
        vec![100, 100, 250],
        vec![100, 350],
    ]);
    assert_eq!(infos.disk(0).remaining_size, 50);
    assert_eq!(infos.disk(1).remaining_size, 50);
    assert_eq!(infos.disk(2).remaining_size, 50);
    assert_eq!(infos.get_most_suitable_dir(&ClaimSet::new(), 100), Placement::AfterEviction(2));
    let mut claimed = ClaimSet::new();
    claimed.claim("/c");
    assert_eq!(infos.get_most_suitable_dir(&claimed, 100), Placement::AfterEviction(1));
}

#[test]
fn a_tie_on_free_slots_goes_to_the_first_volume() {
    let half = GIB / 2;
    let infos = inventory(&[("/a", 2 * GIB), ("/b", 2 * GIB)], GIB, vec![
        vec![half, half, half, half],
        vec![half, half, half, half],
    ]);
    assert_eq!(infos.disk(0).remaining_size, 0);
    assert_eq!(infos.disk(0).finished_num, 0);
    assert_eq!(infos.disk(0).max_num, 2);
    assert_eq!(infos.get_most_suitable_dir(&ClaimSet::new(), GIB), Placement::AfterEviction(0));
}

#[test]
fn without_room_and_without_slots_nothing_is_placed() {
    let infos = inventory(&[("/a", 100), ("/b", 100)], 100, vec![vec![100], vec![100]]);
    assert_eq!(infos.get_most_suitable_dir(&ClaimSet::new(), 100), Placement::Unavailable);
}

#[test]
fn change_state_flips_the_flag_and_clears_the_counters() {
    let mut infos = inventory(&[("/a", 100), ("/b", 100)], 10, vec![vec![], vec![]]);
    infos.change_state("/b");
    assert!(!infos.disk(0).transfer_state);
    assert!(infos.disk(1).transfer_state);
    infos.updtate_transfering_msg("/b", 7, 9);
    assert_eq!(infos.disk(1).transfer_rate, 7);
    assert_eq!(infos.disk(1).total_transfered, 9);
    infos.change_state("/b");
    assert!(!infos.disk(1).transfer_state);
    assert_eq!(infos.disk(1).transfer_rate, 0);
    assert_eq!(infos.disk(1).total_transfered, 0);
}

#[test]
fn change_state_of_an_unknown_path_changes_nothing() {
    let mut infos = inventory(&[("/a", 100)], 10, vec![vec![]]);
    infos.change_state("/zz");
    assert!(!infos.disk(0).transfer_state);
}

#[test]
fn progress_touches_only_its_volume() {
    let mut infos = inventory(&[("/a", 100), ("/b", 100)], 10, vec![vec![], vec![]]);
    infos.updtate_transfering_msg("/a", 52_428_800, 204_800);
    assert_eq!(infos.disk(0).transfer_rate, 52_428_800);
    assert_eq!(infos.disk(0).total_transfered, 204_800);
    assert_eq!(infos.disk(1).transfer_rate, 0);
    assert_eq!(infos.disk(1).total_transfered, 0);
    assert_eq!(infos.disk(0).remaining_size, 100);
    assert_eq!(infos.get_most_suitable_dir(&ClaimSet::new(), 50), Placement::Direct(0));
    infos.updtate_transfering_msg("/nowhere", 1, 1);
    assert_eq!(infos.disk(0).transfer_rate, 52_428_800);
}

#[test]
fn a_stored_plot_takes_its_bytes_and_one_slot() {
    let mut infos = inventory(&[("/a", 300), ("/b", 300)], 100, vec![vec![], vec![]]);
    assert_eq!(infos.total_remaining(), 6);
    assert_eq!(infos.add_one_plot("/b", 100), Ok(()));
    assert_eq!(infos.disk(1).remaining_size, 200);
    assert_eq!(infos.disk(1).finished_num, 1);
    assert_eq!(infos.disk(0).remaining_size, 300);
    assert_eq!(infos.disk(0).finished_num, 0);
    assert_eq!(infos.total_remaining(), 5);
}

#[test]
fn a_plot_stored_on_a_full_volume_leaves_the_total() {
    let mut infos = inventory(&[("/a", 100), ("/b", 100)], 100, vec![vec![100], vec![]]);
    assert_eq!(infos.total_remaining(), 1);
    assert_eq!(infos.add_one_plot("/a", 100), Ok(()));
    assert_eq!(infos.disk(0).finished_num, 2);
    assert_eq!(infos.disk(0).remaining_size, -100);
    assert_eq!(infos.total_remaining(), 1);
}

#[test]
fn a_plot_for_an_unknown_volume_is_not_stored() {
    let mut infos = inventory(&[("/a", 300)], 100, vec![vec![]]);
    assert_eq!(infos.add_one_plot("/b", 100), Err(InventoryError::UnknownVolume));
    assert_eq!(infos.disk(0).remaining_size, 300);
    assert_eq!(infos.disk(0).finished_num, 0);
}

#[test]
fn del_plot_counts_the_freed_bytes_as_remaining() {
    let mut infos = inventory(&[("/a", 22), ("/b", 50)], GIB, vec![vec![3, 4, 5], vec![]]);
    assert_eq!(infos.disk(0).remaining_size, 10);
    let plan = infos.del_plot(0, 12, &vec![3, 4, 5]);
    assert!(plan.enough);
    assert_eq!(plan.deletions, vec![0]);
    assert_eq!(plan.remaining, 13);
    assert_eq!(infos.disk(0).remaining_size, 13);
    assert_eq!(infos.disk(1).remaining_size, 50);
}

#[test]
fn del_plot_that_fails_still_counts_what_it_deleted() {
    let mut infos = inventory(&[("/a", 22)], GIB, vec![vec![3, 4, 5]]);
    let plan = infos.del_plot(0, 30, &vec![3, 4, 5]);
    assert!(!plan.enough);
    assert_eq!(plan.deletions, vec![0, 1, 2]);
    assert_eq!(infos.disk(0).remaining_size, 22);
}

#[test]
fn del_plot_goes_by_the_reference_of_the_inventory() {
    let reference = 100 * GIB;
    let found = vec![reference, 60 * GIB, reference + 5];
    let mut infos = inventory(&[("/a", 260 * GIB + 5)], reference, vec![found.clone()]);
    assert_eq!(infos.disk(0).remaining_size, 0);
    let plan = infos.del_plot(0, 50 * GIB, &found);
    assert!(plan.enough);
    assert_eq!(plan.deletions, vec![1]);
    assert_eq!(infos.disk(0).remaining_size, 60 * GIB as i128);
}

#[test]
fn a_volume_is_finished_when_its_slots_are_taken() {
    let mut infos = inventory(&[("/a", 100), ("/b", 200)], 100, vec![vec![100], vec![]]);
    assert_eq!(infos.disk(0).state(), DiskState::Finished);
    assert_eq!(infos.disk(1).state(), DiskState::Waiting);
    infos.change_state("/b");
    assert_eq!(infos.disk(1).state(), DiskState::Transfering);
    infos.change_state("/a");
    assert_eq!(infos.disk(0).state(), DiskState::Finished);
}

#[test]
fn free_slots_are_never_negative() {
    let infos = inventory(&[("/a", 100), ("/b", 250)], 100, vec![vec![100, 100, 100], vec![100]]);
    assert_eq!(infos.disk(0).slots_left(), 0);
    assert_eq!(infos.disk(1).slots_left(), 1);
}

#[test]
fn states_have_their_words() {
    assert_eq!(DiskState::Finished.label(), "Finished");
    assert_eq!(DiskState::Transfering.label(), "Transfering...");
    assert_eq!(DiskState::Waiting.label(), "Waiting for transfer....");
}

#[test]
fn room_is_looked_at_before_slots() {
    // the one plot on the volume is of the current generation but smaller than
    // the reference, so the volume has room left though its only slot is taken
    let small = GIB - 300_000_000;
    let infos = inventory(&[("/a", GIB + 600_000_000)], GIB, vec![vec![small]]);
    assert_eq!(infos.disk(0).max_num, 1);
    assert_eq!(infos.disk(0).finished_num, 1);
    assert_eq!(infos.disk(0).slots_left(), 0);
    assert_eq!(infos.disk(0).remaining_size, 900_000_000);
    assert_eq!(infos.total_remaining(), 0);
    assert_eq!(infos.get_most_suitable_dir(&ClaimSet::new(), small), Placement::Direct(0));
    assert_eq!(infos.get_most_suitable_dir(&ClaimSet::new(), GIB), Placement::Unavailable);
}
