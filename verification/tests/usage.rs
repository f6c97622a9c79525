use fasthtcacheclean::size_spec::{Percent, SizeSpec};
use fasthtcacheclean::usage::{calculate_usage, is_measurable, FsStats, Pressure, Usage};

fn fs(blocks: u64, available: u64, files: u64, free: u64) -> FsStats {
    FsStats { block_size: 4096, blocks, blocks_available: available, files, files_free: free }
}

fn percent(n: u64) -> SizeSpec {
    SizeSpec::Percentage(Percent::whole(n))
}

/// Used space and inodes are set against what may be used.
#[test]
fn usage_formula() {
    let usage = calculate_usage(&fs(1000, 100, 500, 50), &percent(10), &percent(5));
    assert_eq!(usage.space, Pressure { used: 900 * 4096, target: 1000 * 4096 - 409600 });
    assert_eq!(usage.inodes, Pressure { used: 450, target: 475 });
    // 100 * 3686400 / 3686401 and 100 * 450 / 476
    assert_eq!(usage.space.per_mille(), 999);
    assert_eq!(usage.inodes.per_mille(), 945);
    assert_eq!(usage.per_mille(), 999);
}

/// Absolute limits are taken as they are, and never leave less than nothing.
#[test]
fn usage_with_absolute_limits() {
    let usage = calculate_usage(
        &fs(1000, 100, 500, 50),
        &SizeSpec::Absolute(96),
        &SizeSpec::Absolute(1000),
    );
    assert_eq!(usage.space.target, 1000 * 4096 - 96);
    assert_eq!(usage.inodes, Pressure { used: 450, target: 0 });
    assert_eq!(usage.inodes.per_mille(), 450_000);
    assert!(usage.is_desperate());
}

/// More blocks available than there are in all counts as nothing in use.
#[test]
fn usage_saturates() {
    let usage = calculate_usage(&fs(10, 20, 10, 20), &percent(10), &percent(10));
    assert_eq!(usage.space.used, 0);
    assert_eq!(usage.inodes.used, 0);
    assert!(usage.is_below(1));
    assert!(!usage.needs_cleaning());
    let empty = calculate_usage(&fs(0, 0, 0, 0), &percent(10), &percent(10));
    assert_eq!(empty.space, Pressure { used: 0, target: 0 });
    assert_eq!(empty.per_mille(), 0);
}

/// The thresholds are exact.
#[test]
fn usage_thresholds() {
    let at = |used: u64, target: u64| Usage {
        space: Pressure { used, target },
        inodes: Pressure { used: 0, target: 0 },
    };
    // 90 %: 900 of 1000.
    assert!(at(900, 999).needs_cleaning());
    assert!(!at(899, 999).needs_cleaning());
    // 99 %.
    assert!(at(989, 999).is_below(990));
    assert!(!at(990, 999).is_below(990));
    // 99.5 %.
    assert!(at(1989, 1999).is_below(995));
    assert!(!at(1990, 1999).is_below(995));
    // 105 %.
    assert!(at(1051, 999).is_desperate());
    assert!(!at(1050, 999).is_desperate());
    assert!(at(u64::MAX, 0).is_desperate());
    assert!(at(u64::MAX, u64::MAX).is_below(1000));
    assert!(!at(u64::MAX, u64::MAX).is_below(999));
}

/// The higher of space and inodes decides.
#[test]
fn usage_is_the_higher_part() {
    let usage = Usage {
        space: Pressure { used: 10, target: 99 },
        inodes: Pressure { used: 200, target: 99 },
    };
    assert!(usage.is_desperate());
    assert!(usage.needs_cleaning());
    assert!(!usage.is_below(990));
    assert_eq!(usage.per_mille(), 2000);
    let usage = Usage {
        space: Pressure { used: 98, target: 99 },
        inodes: Pressure { used: 10, target: 99 },
    };
    assert!(usage.is_below(990));
    assert!(!usage.is_desperate());
    assert_eq!(usage.per_mille(), 980);
}

/// The usage rises with what is in use and with what is to stay free.
#[test]
fn usage_is_monotone() {
    let mut last = 0;
    for available in (0..=1000).rev().step_by(50) {
        let usage = calculate_usage(&fs(1000, available, 1000, available), &percent(10), &percent(10));
        assert!(usage.per_mille() >= last);
        last = usage.per_mille();
    }
    let mut last = 0;
    for keep in 0..=100 {
        let usage = calculate_usage(&fs(1000, 500, 1000, 500), &percent(keep), &percent(keep));
        assert!(usage.per_mille() >= last);
        last = usage.per_mille();
    }
    let low = Pressure::measure(50, 100, &SizeSpec::Absolute(10));
    let high = Pressure::measure(50, 100, &SizeSpec::Absolute(20));
    assert_eq!(low.per_mille(), 549);
    assert_eq!(high.per_mille(), 617);
}

/// A filesystem with more bytes than a `u64` counts is not measured.
#[test]
fn usage_needs_countable_space() {
    assert!(is_measurable(&fs(1000, 100, 500, 50)));
    assert!(is_measurable(&fs(u64::MAX / 4096, 0, 0, 0)));
    assert!(!is_measurable(&fs(u64::MAX / 4096 + 1, 0, 0, 0)));
}
