//! How close the filesystem is to the configured limits of free space and
//! free inodes.
//!
//! A usage is a percentage: 100 means that what is used is exactly what may
//! be used. It is kept as an exact fraction and compared with thresholds
//! given in tenths of a percent.

use crate::size_spec::{saturated, Size, SizeSpec};
use vstd::prelude::*;

verus! {

/// Below this usage, in tenths of a percent, nothing is cleaned: 90 %.
pub const CLEAN_FROM: u32 = 900;

/// Below this usage, in tenths of a percent, deleting stops: 99 %.
pub const STOP_BELOW: u32 = 990;

/// Below this usage, in tenths of a percent, deleting may stop by chance:
/// 99.5 %.
pub const MAY_STOP_BELOW: u32 = 995;

/// Above this usage, in tenths of a percent, a scan is desperate: 105 %.
pub const DESPERATE_ABOVE: u32 = 1050;

/// What the filesystem reports about itself: the size of a block, the number
/// of blocks in all and of those available, the number of inodes in all and
/// of those free.
#[derive(Debug, Clone, Copy, PartialEq, Eq, Structural)]
pub struct FsStats {
    pub block_size: u64,
    pub blocks: u64,
    pub blocks_available: u64,
    pub files: u64,
    pub files_free: u64,
}

/// The usage of one resource: `used` against the amount `target` that may be
/// used. As a percentage it is `100 * used / (target + 1)`; the one added
/// keeps the fraction defined where nothing may be used.
#[derive(Debug, Clone, Copy, PartialEq, Eq, Structural)]
pub struct Pressure {
    pub used: u64,
    pub target: u64,
}

/// `a` less `b`, or zero where `b` is larger.
pub open spec fn less(a: nat, b: nat) -> nat {
    if a >= b {
        (a - b) as nat
    } else {
        0
    }
}

/// The amount of a resource that may be used, when `total` is there and
/// `min_free` is to stay free.
pub open spec fn target_of(total: nat, min_free: Size) -> nat {
    less(total, saturated(min_free.value(total)))
}

impl Pressure {
    /// The usage is below `tenths` tenths of a percent.
    pub open spec fn below(self, tenths: nat) -> bool {
        1000 * self.used < tenths * (self.target + 1)
    }

    /// The usage is above `tenths` tenths of a percent.
    pub open spec fn above(self, tenths: nat) -> bool {
        1000 * self.used > tenths * (self.target + 1)
    }

    /// The usage is no higher than `other`.
    pub open spec fn le(self, other: Pressure) -> bool {
        self.used * (other.target + 1) <= other.used * (self.target + 1)
    }

    /// The usage in tenths of a percent, rounded down.
    pub open spec fn spec_per_mille(self) -> nat {
        1000 * (self.used as nat) / ((self.target + 1) as nat)
    }

    /// The usage when `used` of `total` is in use and `min_free` is to stay
    /// free.
    pub fn measure(used: u64, total: u64, min_free: &SizeSpec) -> (p: Pressure)
        ensures
            p.used == used,
            p.target == target_of(total as nat, min_free@),
    {
        let reserve = min_free.value(total);
        Pressure { used, target: total.saturating_sub(reserve) }
    }

    /// Whether the usage is below `tenths` tenths of a percent.
    pub fn is_below(&self, tenths: u32) -> (b: bool)
        ensures
            b == self.below(tenths as nat),
    {
        assert(tenths * (self.target + 1) <= 0xffff_ffff * 0x1_0000_0000_0000_0000)
            by (nonlinear_arith)
            requires
                tenths <= 0xffff_ffff,
                self.target + 1 <= 0x1_0000_0000_0000_0000,
        ;
        1000 * (self.used as u128) < (tenths as u128) * (self.target as u128 + 1)
    }

    /// Whether the usage is above `tenths` tenths of a percent.
    pub fn is_above(&self, tenths: u32) -> (b: bool)
        ensures
            b == self.above(tenths as nat),
    {
        assert(tenths * (self.target + 1) <= 0xffff_ffff * 0x1_0000_0000_0000_0000)
            by (nonlinear_arith)
            requires
                tenths <= 0xffff_ffff,
                self.target + 1 <= 0x1_0000_0000_0000_0000,
        ;
        1000 * (self.used as u128) > (tenths as u128) * (self.target as u128 + 1)
    }

    /// The usage in tenths of a percent, rounded down.
    pub fn per_mille(&self) -> (r: u128)
        ensures
            r == self.spec_per_mille(),
    {
        1000 * (self.used as u128) / (self.target as u128 + 1)
    }
}

/// How close the used space and the used inodes are to their limits. The
/// usage of the filesystem is the higher of the two.
#[derive(Debug, Clone, Copy, PartialEq, Eq, Structural)]
pub struct Usage {
    pub space: Pressure,
    pub inodes: Pressure,
}

impl Usage {
    /// The usage is below `tenths` tenths of a percent: both parts are.
    pub open spec fn below(self, tenths: nat) -> bool {
        self.space.below(tenths) && self.inodes.below(tenths)
    }

    /// The usage is above `tenths` tenths of a percent: one of the parts is.
    pub open spec fn above(self, tenths: nat) -> bool {
        self.space.above(tenths) || self.inodes.above(tenths)
    }

    /// The usage is no higher than `other`: each part is no higher than one
    /// of the parts of `other`.
    pub open spec fn le(self, other: Usage) -> bool {
        &&& self.space.le(other.space) || self.space.le(other.inodes)
        &&& self.inodes.le(other.space) || self.inodes.le(other.inodes)
    }

    /// Whether the usage is below `tenths` tenths of a percent.
    pub fn is_below(&self, tenths: u32) -> (b: bool)
        ensures
            b == self.below(tenths as nat),
    {
        self.space.is_below(tenths) && self.inodes.is_below(tenths)
    }

    /// Whether the usage is above `tenths` tenths of a percent.
    pub fn is_above(&self, tenths: u32) -> (b: bool)
        ensures
            b == self.above(tenths as nat),
    {
        self.space.is_above(tenths) || self.inodes.is_above(tenths)
    }

    /// Whether the cache is to be cleaned at all: the usage is at least 90 %.
    pub fn needs_cleaning(&self) -> (b: bool)
        ensures
            b == !self.below(CLEAN_FROM as nat),
    {
        !self.is_below(CLEAN_FROM)
    }

    /// Whether a scan is to give up the protection of variants: the usage is
    /// above 105 %.
    pub fn is_desperate(&self) -> (b: bool)
        ensures
            b == self.above(DESPERATE_ABOVE as nat),
    {
        self.is_above(DESPERATE_ABOVE)
    }

    /// The usage in tenths of a percent, rounded down: the higher of the two
    /// parts.
    pub fn per_mille(&self) -> (r: u128)
        ensures
            r == if self.space.spec_per_mille() >= self.inodes.spec_per_mille() {
                self.space.spec_per_mille()
            } else {
                self.inodes.spec_per_mille()
            },
    {
        let space = self.space.per_mille();
        let inodes = self.inodes.per_mille();
        if space >= inodes {
            space
        } else {
            inodes
        }
    }
}

/// Space in bytes on a filesystem with the given block size and blocks.
pub open spec fn total_space(fs: FsStats) -> nat {
    (fs.block_size * fs.blocks) as nat
}

/// Space in bytes that is in use: the blocks that are not available.
pub open spec fn used_space(fs: FsStats) -> nat {
    less(fs.blocks as nat, fs.blocks_available as nat) * (fs.block_size as nat)
}

/// Inodes that are in use: those that are not free.
pub open spec fn used_inodes(fs: FsStats) -> nat {
    less(fs.files as nat, fs.files_free as nat)
}

/// The usage of a filesystem with the given statistics, when `minspace` of
/// its space and `mininodes` of its inodes are to stay free.
pub open spec fn spec_usage(fs: FsStats, minspace: Size, mininodes: Size) -> Usage {
    Usage {
        space: Pressure {
            used: used_space(fs) as u64,
            target: target_of(total_space(fs), minspace) as u64,
        },
        inodes: Pressure {
            used: used_inodes(fs) as u64,
            target: target_of(fs.files as nat, mininodes) as u64,
        },
    }
}

/// Calculates how close the used space and the used inodes of the filesystem
/// are to the limits that `minspace` and `mininodes` leave.
pub fn calculate_usage(fs: &FsStats, minspace: &SizeSpec, mininodes: &SizeSpec) -> (usage: Usage)
    requires
        total_space(*fs) <= u64::MAX,
    ensures
        usage == spec_usage(*fs, minspace@, mininodes@),
        usage.space.used == used_space(*fs),
        usage.space.target == target_of(total_space(*fs), minspace@),
        usage.inodes.used == used_inodes(*fs),
        usage.inodes.target == target_of(fs.files as nat, mininodes@),
{
    let used_blocks = fs.blocks.saturating_sub(fs.blocks_available);
    assert(used_blocks * fs.block_size <= fs.blocks * fs.block_size) by (nonlinear_arith)
        requires
            used_blocks <= fs.blocks,
    ;
    assert(fs.blocks * fs.block_size == fs.block_size * fs.blocks) by (nonlinear_arith);
    let total = fs.block_size * fs.blocks;
    let used = used_blocks * fs.block_size;
    let used_files = fs.files.saturating_sub(fs.files_free);
    Usage {
        space: Pressure::measure(used, total, minspace),
        inodes: Pressure::measure(used_files, fs.files, mininodes),
    }
}

/// Usage that would overflow is not measured: the statistics of a filesystem
/// whose space in bytes a `u64` holds.
pub fn is_measurable(fs: &FsStats) -> (b: bool)
    ensures
        b == (total_space(*fs) <= u64::MAX),
{
    fs.block_size.checked_mul(fs.blocks).is_some()
}

/// More in use is no less usage: with the same amount that may be used, the
/// usage does not fall when the amount in use rises.
pub proof fn lemma_pressure_monotone_in_used(a: Pressure, b: Pressure)
    requires
        a.used <= b.used,
        a.target == b.target,
    ensures
        a.le(b),
{
    assert(a.used * (b.target + 1) <= b.used * (a.target + 1)) by (nonlinear_arith)
        requires
            a.used <= b.used,
            a.target == b.target,
    ;
}

/// More to stay free is no less usage: for the same total and the same amount
/// in use, the usage does not fall when the amount that is to stay free
/// rises.
pub proof fn lemma_pressure_monotone_in_min_free(
    used: u64,
    total: u64,
    min_free: nat,
    more_free: nat,
)
    requires
        min_free <= more_free,
    ensures
        (Pressure { used, target: less(total as nat, min_free) as u64 }).le(
            Pressure { used, target: less(total as nat, more_free) as u64 },
        ),
{
    let t1 = less(total as nat, min_free);
    let t2 = less(total as nat, more_free);
    assert(used * (t2 + 1) <= used * (t1 + 1)) by (nonlinear_arith)
        requires
            t2 <= t1,
            used >= 0,
    ;
}

/// More to stay free is no more usage only where it changes nothing: for
/// the same total and the same amount in use, the usage does not rise with
/// the amount that is to stay free if nothing is in use, or if the amount
/// that may be used stays the same.
pub proof fn lemma_pressure_antimonotone_in_min_free(
    used: u64,
    total: u64,
    min_free: nat,
    more_free: nat,
)
    requires
        min_free <= more_free,
        used == 0 || less(total as nat, min_free) == less(total as nat, more_free),
    ensures
        (Pressure { used, target: less(total as nat, more_free) as u64 }).le(
            Pressure { used, target: less(total as nat, min_free) as u64 },
        ),
{
    let t1 = less(total as nat, min_free);
    let t2 = less(total as nat, more_free);
    if used == 0 {
        assert(0 * (t1 + 1) <= 0 * (t2 + 1)) by (nonlinear_arith);
    }
}

/// A usage that is no higher than one below a threshold is below it too.
pub proof fn lemma_pressure_le_below(a: Pressure, b: Pressure, tenths: nat)
    requires
        a.le(b),
        b.below(tenths),
    ensures
        a.below(tenths),
{
    let x = 1000 * a.used;
    let ta = a.target + 1;
    let tb = b.target + 1;
    assert(1000 * a.used * tb <= 1000 * b.used * ta) by (nonlinear_arith)
        requires
            a.used * tb <= b.used * ta,
    ;
    assert(1000 * b.used * ta < tenths * tb * ta) by (nonlinear_arith)
        requires
            1000 * b.used < tenths * tb,
            ta > 0,
    ;
    assert(1000 * a.used < tenths * ta) by (nonlinear_arith)
        requires
            1000 * a.used * tb < tenths * tb * ta,
            tb > 0,
    ;
}

/// A usage that is no lower than one above a threshold is above it too.
pub proof fn lemma_pressure_le_above(a: Pressure, b: Pressure, tenths: nat)
    requires
        a.le(b),
        a.above(tenths),
    ensures
        b.above(tenths),
{
    let ta = a.target + 1;
    let tb = b.target + 1;
    assert(1000 * a.used * tb <= 1000 * b.used * ta) by (nonlinear_arith)
        requires
            a.used * tb <= b.used * ta,
    ;
    assert(1000 * a.used * tb > tenths * ta * tb) by (nonlinear_arith)
        requires
            1000 * a.used > tenths * ta,
            tb > 0,
    ;
    assert(1000 * b.used > tenths * tb) by (nonlinear_arith)
        requires
            1000 * b.used * ta > tenths * ta * tb,
            ta > 0,
    ;
}

/// What is used of a filesystem that can be measured fits where it is
/// counted.
pub proof fn lemma_used_fits(fs: FsStats)
    requires
        total_space(fs) <= u64::MAX,
    ensures
        used_space(fs) <= total_space(fs),
        used_inodes(fs) <= fs.files,
{
    let used_blocks = less(fs.blocks as nat, fs.blocks_available as nat);
    assert(used_blocks * fs.block_size <= fs.block_size * fs.blocks) by (nonlinear_arith)
        requires
            used_blocks <= fs.blocks,
    ;
}

/// The usage is monotone in what is used: of two filesystems of the same
/// size with the same limits, the one with fewer blocks available and fewer
/// inodes free has no lower usage.
pub proof fn lemma_usage_monotone_in_used(
    fs: FsStats,
    fuller: FsStats,
    minspace: Size,
    mininodes: Size,
)
    requires
        total_space(fs) <= u64::MAX,
        fuller.block_size == fs.block_size,
        fuller.blocks == fs.blocks,
        fuller.files == fs.files,
        fuller.blocks_available <= fs.blocks_available,
        fuller.files_free <= fs.files_free,
    ensures
        spec_usage(fs, minspace, mininodes).le(spec_usage(fuller, minspace, mininodes)),
{
    lemma_used_fits(fs);
    lemma_used_fits(fuller);
    let a = spec_usage(fs, minspace, mininodes);
    let b = spec_usage(fuller, minspace, mininodes);
    let used_a = less(fs.blocks as nat, fs.blocks_available as nat);
    let used_b = less(fuller.blocks as nat, fuller.blocks_available as nat);
    assert(used_a * fs.block_size <= used_b * fs.block_size) by (nonlinear_arith)
        requires
            used_a <= used_b,
    ;
    lemma_pressure_monotone_in_used(a.space, b.space);
    lemma_pressure_monotone_in_used(a.inodes, b.inodes);
}

/// The usage is monotone in what is to stay free: for the same filesystem,
/// limits that keep no less space and no fewer inodes free give no lower
/// usage.
pub proof fn lemma_usage_monotone_in_min_free(
    fs: FsStats,
    minspace: Size,
    mininodes: Size,
    more_space: Size,
    more_inodes: Size,
)
    requires
        total_space(fs) <= u64::MAX,
        minspace.value(total_space(fs)) <= more_space.value(total_space(fs)),
        mininodes.value(fs.files as nat) <= more_inodes.value(fs.files as nat),
    ensures
        spec_usage(fs, minspace, mininodes).le(spec_usage(fs, more_space, more_inodes)),
{
    lemma_used_fits(fs);
    lemma_pressure_monotone_in_min_free(
        used_space(fs) as u64,
        total_space(fs) as u64,
        saturated(minspace.value(total_space(fs))),
        saturated(more_space.value(total_space(fs))),
    );
    lemma_pressure_monotone_in_min_free(
        used_inodes(fs) as u64,
        fs.files,
        saturated(mininodes.value(fs.files as nat)),
        saturated(more_inodes.value(fs.files as nat)),
    );
}

/// The usage falls with what is to stay free only where it stays the same:
/// for the same filesystem, limits that keep no less free give no higher
/// usage if nothing is in use, or if they leave as much to be used as before.
pub proof fn lemma_usage_antimonotone_in_min_free(
    fs: FsStats,
    minspace: Size,
    mininodes: Size,
    more_space: Size,
    more_inodes: Size,
)
    requires
        total_space(fs) <= u64::MAX,
        minspace.value(total_space(fs)) <= more_space.value(total_space(fs)),
        mininodes.value(fs.files as nat) <= more_inodes.value(fs.files as nat),
        used_space(fs) == 0 || target_of(total_space(fs), minspace) == target_of(
            total_space(fs),
            more_space,
        ),
        used_inodes(fs) == 0 || target_of(fs.files as nat, mininodes) == target_of(
            fs.files as nat,
            more_inodes,
        ),
    ensures
        spec_usage(fs, more_space, more_inodes).le(spec_usage(fs, minspace, mininodes)),
{
    lemma_used_fits(fs);
    lemma_pressure_antimonotone_in_min_free(
        used_space(fs) as u64,
        total_space(fs) as u64,
        saturated(minspace.value(total_space(fs))),
        saturated(more_space.value(total_space(fs))),
    );
    lemma_pressure_antimonotone_in_min_free(
        used_inodes(fs) as u64,
        fs.files,
        saturated(mininodes.value(fs.files as nat)),
        saturated(more_inodes.value(fs.files as nat)),
    );
}

/// A usage that is no higher than one below a threshold is below it too, and
/// one that is no lower than one above a threshold is above it too.
pub proof fn lemma_usage_le_thresholds(a: Usage, b: Usage, tenths: nat)
    requires
        a.le(b),
    ensures
        b.below(tenths) ==> a.below(tenths),
        a.above(tenths) ==> b.above(tenths),
{
    if b.below(tenths) {
        if a.space.le(b.space) {
            lemma_pressure_le_below(a.space, b.space, tenths);
        } else {
            lemma_pressure_le_below(a.space, b.inodes, tenths);
        }
        if a.inodes.le(b.space) {
            lemma_pressure_le_below(a.inodes, b.space, tenths);
        } else {
            lemma_pressure_le_below(a.inodes, b.inodes, tenths);
        }
    }
    if a.space.above(tenths) {
        if a.space.le(b.space) {
            lemma_pressure_le_above(a.space, b.space, tenths);
        } else {
            lemma_pressure_le_above(a.space, b.inodes, tenths);
        }
    } else if a.inodes.above(tenths) {
        if a.inodes.le(b.space) {
            lemma_pressure_le_above(a.inodes, b.space, tenths);
        } else {
            lemma_pressure_le_above(a.inodes, b.inodes, tenths);
        }
    }
}

} // verus!
