use fasthtcacheclean::stats::Stats;

/// Tests `Stats` `Default` implementation
#[test]
fn stats_test_stats_default() {
    let result = <Stats as Default>::default();
    assert_eq!(result.deleted, 0);
    assert_eq!(result.deleted_folders, 0);
    assert_eq!(result.failed, 0);
}

/// Tests `Stats` counting
#[test]
fn stats_test_stats_counting() {
    let mut result = <Stats as Default>::default();
    result.count(Err(()));
    result.count(Err(()));
    result.count_folder(Err(()));
    result.count::<()>(Ok(true));
    result.count::<&'static str>(Ok(true));
    result.count::<i32>(Ok(false));
    result.count_folder::<()>(Ok(true));
    result.count::<bool>(Ok(false));
    result.add_failed();

    assert_eq!(result.deleted, 2);
    assert_eq!(result.deleted_folders, 1);
    assert_eq!(result.failed, 4);
}

fn four_items() -> [Stats; 4] {
    [
        Stats { deleted: 50, deleted_folders: 3, failed: 12 },
        Stats { deleted: 20, deleted_folders: 2, failed: 29 },
        Stats { deleted: 0, deleted_folders: 0, failed: 0 },
        Stats { deleted: 0, deleted_folders: 0, failed: 1 },
    ]
}

fn five_outcomes() -> [Result<Stats, ()>; 5] {
    [
        Ok(Stats { deleted: 50, deleted_folders: 3, failed: 12 }),
        Ok(Stats { deleted: 20, deleted_folders: 2, failed: 29 }),
        Ok(Stats { deleted: 0, deleted_folders: 0, failed: 0 }),
        Err(()),
        Ok(Stats { deleted: 0, deleted_folders: 0, failed: 1 }),
    ]
}

/// Tests `Stats` summing
#[test]
fn stats_test_stats_summing() {
    let items = four_items();

    let result: Stats = Stats::sum(&items);
    assert_eq!(result.deleted, 70);
    assert_eq!(result.deleted_folders, 5);
    assert_eq!(result.failed, 42);
}

/// Tests `Stats` summing
#[test]
fn stats_test_stats_result_summing() {
    let items: [Result<Stats, ()>; 5] = five_outcomes();

    let result: Stats = Stats::sum_results(&items);
    assert_eq!(result.deleted, 70);
    assert_eq!(result.deleted_folders, 5);
    assert_eq!(result.failed, 43);
}

/// Tests `Stats` `Default` implementation
#[test]
fn tests_test_stats_default() {
    let result = <Stats as Default>::default();
    assert_eq!(result.deleted, 0);
    assert_eq!(result.deleted_folders, 0);
    assert_eq!(result.failed, 0);
}

/// Tests `Stats` counting
#[test]
fn tests_test_stats_counting() {
    let mut result = <Stats as Default>::default();
    result.count(Err(()));
    result.count(Err(()));
    result.count_folder(Err(()));
    result.count::<()>(Ok(true));
    result.count::<&'static str>(Ok(true));
    result.count::<i32>(Ok(false));
    result.count_folder::<()>(Ok(true));
    result.count::<bool>(Ok(false));

    assert_eq!(result.deleted, 2);
    assert_eq!(result.deleted_folders, 1);
    assert_eq!(result.failed, 3);
}

/// Tests `Stats` summing
#[test]
fn tests_test_stats_summing() {
    let items = four_items();

    let result: Stats = Stats::sum(&items);
    assert_eq!(result.deleted, 70);
    assert_eq!(result.deleted_folders, 5);
    assert_eq!(result.failed, 42);
}

/// Tests `Stats` summing
#[test]
fn tests_test_stats_result_summing() {
    let items: [Result<Stats, ()>; 5] = five_outcomes();

    let result: Stats = Stats::sum_results(&items);
    assert_eq!(result.deleted, 70);
    assert_eq!(result.deleted_folders, 5);
    assert_eq!(result.failed, 43);
}

/// The sum of a sequence is what merging its items one after the other gives.
#[test]
fn sum_is_fold_of_merge() {
    let items = four_items();
    let mut folded = Stats::default();
    for item in items {
        folded.merge(item);
    }
    let summed = Stats::sum(&items);
    assert_eq!(summed.deleted, folded.deleted);
    assert_eq!(summed.deleted_folders, folded.deleted_folders);
    assert_eq!(summed.failed, folded.failed);

    let outcomes = five_outcomes();
    let mut folded = Stats::default();
    for outcome in outcomes {
        folded.merge_result(outcome);
    }
    let summed = Stats::sum_results(&outcomes);
    assert_eq!(summed.deleted, folded.deleted);
    assert_eq!(summed.deleted_folders, folded.deleted_folders);
    assert_eq!(summed.failed, folded.failed);
}

/// The sum of nothing is zero.
#[test]
fn sum_of_nothing() {
    let none: [Stats; 0] = [];
    let result = Stats::sum(&none);
    assert_eq!((result.deleted, result.deleted_folders, result.failed), (0, 0, 0));
}

/// Merging adds each counter to its own kind.
#[test]
fn merge_is_componentwise() {
    let mut a = Stats { deleted: 1, deleted_folders: 2, failed: 3 };
    a.merge(Stats { deleted: 10, deleted_folders: 20, failed: 30 });
    assert_eq!((a.deleted, a.deleted_folders, a.failed), (11, 22, 33));
    a.merge_result::<()>(Err(()));
    assert_eq!((a.deleted, a.deleted_folders, a.failed), (11, 22, 34));
}

/// Room for one more count ends at the largest number.
#[test]
fn room_ends_at_the_top() {
    let full = Stats { deleted: 0, deleted_folders: 0, failed: u64::MAX };
    assert!(!full.has_room());
    assert!(Stats::default().has_room());
    assert!(!full.can_merge(&Stats { deleted: 0, deleted_folders: 0, failed: 1 }));
    assert!(full.can_merge(&Stats { deleted: 5, deleted_folders: 5, failed: 0 }));
}
