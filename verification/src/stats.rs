//! Counters for what a cleanup run deleted and where it failed.

use vstd::prelude::*;

verus! {

/// Mathematical value of a [`Stats`]: three unbounded counters.
pub struct Tally {
    pub deleted: nat,
    pub deleted_folders: nat,
    pub failed: nat,
}

impl Tally {
    /// The tally in which nothing was counted.
    pub open spec fn zero() -> Tally {
        Tally { deleted: 0, deleted_folders: 0, failed: 0 }
    }

    /// Componentwise addition.
    pub open spec fn plus(self, other: Tally) -> Tally {
        Tally {
            deleted: self.deleted + other.deleted,
            deleted_folders: self.deleted_folders + other.deleted_folders,
            failed: self.failed + other.failed,
        }
    }

    /// The tally with one more failure.
    pub open spec fn plus_failed(self) -> Tally {
        Tally { failed: self.failed + 1, ..self }
    }

    /// The tally after counting the outcome of one file deletion.
    pub open spec fn counted<E>(self, r: Result<bool, E>) -> Tally {
        match r {
            Ok(true) => Tally { deleted: self.deleted + 1, ..self },
            Ok(false) => self,
            Err(_) => self.plus_failed(),
        }
    }

    /// The tally after counting the outcome of one folder deletion.
    pub open spec fn counted_folder<E>(self, r: Result<bool, E>) -> Tally {
        match r {
            Ok(true) => Tally { deleted_folders: self.deleted_folders + 1, ..self },
            Ok(false) => self,
            Err(_) => self.plus_failed(),
        }
    }

    /// The tally after merging the outcome of a nested run.
    pub open spec fn merged<E>(self, r: Result<Stats, E>) -> Tally {
        match r {
            Ok(stats) => self.plus(stats@),
            Err(_) => self.plus_failed(),
        }
    }

    /// Every counter can be held in a `u64`.
    pub open spec fn fits(self) -> bool {
        &&& self.deleted <= u64::MAX
        &&& self.deleted_folders <= u64::MAX
        &&& self.failed <= u64::MAX
    }

    /// Every counter can take one more.
    pub open spec fn has_room(self) -> bool {
        &&& self.deleted < u64::MAX
        &&& self.deleted_folders < u64::MAX
        &&& self.failed < u64::MAX
    }

    /// No counter of `self` exceeds the same counter of `other`.
    pub open spec fn le(self, other: Tally) -> bool {
        &&& self.deleted <= other.deleted
        &&& self.deleted_folders <= other.deleted_folders
        &&& self.failed <= other.failed
    }

    /// Left fold of [`Tally::plus`] over a sequence of statistics.
    pub open spec fn sum(items: Seq<Stats>) -> Tally {
        items.fold_left(Tally::zero(), |acc: Tally, s: Stats| acc.plus(s@))
    }

    /// Left fold of [`Tally::merged`] over a sequence of outcomes.
    pub open spec fn sum_results<E>(items: Seq<Result<Stats, E>>) -> Tally {
        items.fold_left(Tally::zero(), |acc: Tally, r: Result<Stats, E>| acc.merged(r))
    }
}

/// Statistic results of a cleanup run.
#[derive(Debug, Clone, Copy)]
pub struct Stats {
    pub deleted: u64,
    pub deleted_folders: u64,
    pub failed: u64,
}

impl View for Stats {
    type V = Tally;

    open spec fn view(&self) -> Tally {
        Tally {
            deleted: self.deleted as nat,
            deleted_folders: self.deleted_folders as nat,
            failed: self.failed as nat,
        }
    }
}

impl Default for Stats {
    fn default() -> (s: Stats)
        ensures
            s@ == Tally::zero(),
    {
        Stats { deleted: 0, deleted_folders: 0, failed: 0 }
    }
}

impl Stats {
    /// Whether every counter can take one more.
    pub fn has_room(&self) -> (b: bool)
        ensures
            b == self@.has_room(),
    {
        self.deleted < u64::MAX && self.deleted_folders < u64::MAX && self.failed < u64::MAX
    }

    /// Whether the counts of `other` can be merged into these.
    pub fn can_merge(&self, other: &Stats) -> (b: bool)
        ensures
            b == self@.plus(other@).fits(),
    {
        self.deleted <= u64::MAX - other.deleted && self.deleted_folders <= u64::MAX
            - other.deleted_folders && self.failed <= u64::MAX - other.failed
    }

    /// Increment the failed counter.
    pub fn add_failed(&mut self)
        requires
            old(self)@.plus_failed().fits(),
        ensures
            final(self)@ == old(self)@.plus_failed(),
    {
        self.failed = self.failed + 1;
    }

    /// Count the outcome of one file deletion: a deletion, nothing, or a failure.
    pub fn count<E>(&mut self, r: Result<bool, E>)
        requires
            old(self)@.counted(r).fits(),
        ensures
            final(self)@ == old(self)@.counted(r),
    {
        match r {
            Ok(true) => {
                self.deleted = self.deleted + 1;
            },
            Ok(false) => {},
            Err(_) => {
                self.failed = self.failed + 1;
            },
        }
    }

    /// Count the outcome of one folder deletion: a deletion, nothing, or a failure.
    pub fn count_folder<E>(&mut self, r: Result<bool, E>)
        requires
            old(self)@.counted_folder(r).fits(),
        ensures
            final(self)@ == old(self)@.counted_folder(r),
    {
        match r {
            Ok(true) => {
                self.deleted_folders = self.deleted_folders + 1;
            },
            Ok(false) => {},
            Err(_) => {
                self.failed = self.failed + 1;
            },
        }
    }

    /// Merge the counts of a nested run, or count one failure if it did not complete.
    pub fn merge_result<E>(&mut self, r: Result<Stats, E>)
        requires
            old(self)@.merged(r).fits(),
        ensures
            final(self)@ == old(self)@.merged(r),
    {
        match r {
            Ok(stats) => {
                self.deleted = self.deleted + stats.deleted;
                self.deleted_folders = self.deleted_folders + stats.deleted_folders;
                self.failed = self.failed + stats.failed;
            },
            Err(_) => {
                self.failed = self.failed + 1;
            },
        }
    }

    /// Merge the counts of the given statistics into these.
    pub fn merge(&mut self, stats: Stats)
        requires
            old(self)@.plus(stats@).fits(),
        ensures
            final(self)@ == old(self)@.plus(stats@),
    {
        self.deleted = self.deleted + stats.deleted;
        self.deleted_folders = self.deleted_folders + stats.deleted_folders;
        self.failed = self.failed + stats.failed;
    }

    /// Sum of a sequence of statistics: the fold of [`Stats::merge`] from zero.
    pub fn sum(items: &[Stats]) -> (total: Stats)
        requires
            Tally::sum(items@).fits(),
        ensures
            total@ == Tally::sum(items@),
    {
        let mut acc = Stats::default();
        let mut i: usize = 0;
        while i < items.len()
            invariant
                i <= items.len(),
                acc@ == Tally::sum(items@.take(i as int)),
                Tally::sum(items@).fits(),
            decreases items.len() - i,
        {
            proof {
                lemma_sum_step(items@, i as int);
                lemma_sum_prefix_le(items@, i as int + 1);
            }
            acc.merge(items[i]);
            i = i + 1;
        }
        proof {
            assert(items@.take(i as int) =~= items@);
        }
        acc
    }

    /// Sum of a sequence of outcomes: the fold of [`Stats::merge_result`] from zero.
    pub fn sum_results<E: Copy>(items: &[Result<Stats, E>]) -> (total: Stats)
        requires
            Tally::sum_results(items@).fits(),
        ensures
            total@ == Tally::sum_results(items@),
    {
        let mut acc = Stats::default();
        let mut i: usize = 0;
        while i < items.len()
            invariant
                i <= items.len(),
                acc@ == Tally::sum_results(items@.take(i as int)),
                Tally::sum_results(items@).fits(),
            decreases items.len() - i,
        {
            proof {
                lemma_sum_results_step(items@, i as int);
                lemma_sum_results_prefix_le(items@, i as int + 1);
            }
            acc.merge_result(items[i]);
            i = i + 1;
        }
        proof {
            assert(items@.take(i as int) =~= items@);
        }
        acc
    }
}

/// Extending a prefix by one item adds that item to the sum.
pub proof fn lemma_sum_step(items: Seq<Stats>, i: int)
    requires
        0 <= i < items.len(),
    ensures
        Tally::sum(items.take(i + 1)) == Tally::sum(items.take(i)).plus(items[i]@),
{
    assert(items.take(i + 1).drop_last() =~= items.take(i));
}

/// The sum of a prefix is no larger than the sum of the whole sequence.
pub proof fn lemma_sum_prefix_le(items: Seq<Stats>, i: int)
    requires
        0 <= i <= items.len(),
    ensures
        Tally::sum(items.take(i)).le(Tally::sum(items)),
    decreases items.len() - i,
{
    if i == items.len() {
        assert(items.take(i) =~= items);
    } else {
        lemma_sum_step(items, i);
        lemma_sum_prefix_le(items, i + 1);
    }
}

/// Extending a prefix by one outcome merges that outcome into the sum.
pub proof fn lemma_sum_results_step<E>(items: Seq<Result<Stats, E>>, i: int)
    requires
        0 <= i < items.len(),
    ensures
        Tally::sum_results(items.take(i + 1)) == Tally::sum_results(items.take(i)).merged(
            items[i],
        ),
{
    assert(items.take(i + 1).drop_last() =~= items.take(i));
}

/// The sum of a prefix of outcomes is no larger than the sum of the whole sequence.
pub proof fn lemma_sum_results_prefix_le<E>(items: Seq<Result<Stats, E>>, i: int)
    requires
        0 <= i <= items.len(),
    ensures
        Tally::sum_results(items.take(i)).le(Tally::sum_results(items)),
    decreases items.len() - i,
{
    if i == items.len() {
        assert(items.take(i) =~= items);
    } else {
        lemma_sum_results_step(items, i);
        lemma_sum_results_prefix_le(items, i + 1);
    }
}

} // verus!
