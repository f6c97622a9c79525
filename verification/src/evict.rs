//! The plan of a cleanup run: how the folders of the cache are handed out to
//! workers, which entries are queued for eviction, and how far the queue is
//! worked off.

use crate::cache_file_info::{spec_data_path, CacheFileInfo};
use crate::cache_priority_queue::{
    holds_smallest, is_sorted, lemma_push_keeps_smallest, pushed, CachePriorityQueue,
};
use crate::stats::Stats;
use crate::usage::{Usage, MAY_STOP_BELOW, STOP_BELOW};
use vstd::multiset::Multiset;
use vstd::prelude::*;

verus! {

/// The number of entries that one run deletes at most.
pub const MAX_DELETE_COUNT: usize = 1000000;

/// The number of entries for which the queue has room from the start; also
/// the number of entries that may wait between the workers and the queue.
pub const QUEUE_CAPACITY: usize = 1000;

/// The number of entries that are deleted between two looks at the usage.
pub const DELETE_CHUNK: usize = 10;

/// The number of folders that one worker gets when `len` folders go to
/// `jobs` workers: the share of one worker, rounded up, and one more.
pub open spec fn spec_chunk_size(len: nat, jobs: nat) -> nat {
    ((len + jobs - 1) / (jobs as int) + 1) as nat
}

/// With chunks of that size, `jobs` chunks hold more than all folders.
pub proof fn lemma_chunks_suffice(len: nat, jobs: nat)
    requires
        jobs > 0,
    ensures
        spec_chunk_size(len, jobs) * jobs > len,
        spec_chunk_size(len, jobs) >= 1,
{
    let share = (len + jobs - 1) / (jobs as int);
    vstd::arithmetic::div_mod::lemma_fundamental_div_mod(len + jobs - 1, jobs as int);
    vstd::arithmetic::div_mod::lemma_mod_bound(len + jobs - 1, jobs as int);
    vstd::arithmetic::div_mod::lemma_div_pos_is_pos(len + jobs - 1, jobs as int);
    assert((share + 1) * jobs == jobs * share + jobs) by (nonlinear_arith);
}

/// The number of folders that one worker gets, see [`spec_chunk_size`].
pub fn chunk_size(len: usize, jobs: usize) -> (size: usize)
    requires
        jobs > 0,
        len < usize::MAX,
    ensures
        size == spec_chunk_size(len as nat, jobs as nat),
{
    let share = len / jobs;
    let rest = len % jobs;
    proof {
        vstd::arithmetic::div_mod::lemma_fundamental_div_mod(len as int, jobs as int);
        let q = len as int / jobs as int;
        let r = len as int % jobs as int;
        vstd::arithmetic::div_mod::lemma_div_pos_is_pos(len as int, jobs as int);
        assert(q <= len) by (nonlinear_arith)
            requires
                len == jobs * q + r,
                r >= 0,
                jobs >= 1,
                q >= 0,
        ;
        if r > 0 {
            assert(q + q <= len) by (nonlinear_arith)
                requires
                    len == jobs * q + r,
                    r >= 0,
                    jobs >= 2,
                    q >= 0,
            ;
        }
        if r == 0 {
            assert(jobs * q + jobs - 1 == jobs * q + (jobs - 1));
            vstd::arithmetic::div_mod::lemma_fundamental_div_mod_converse(
                len + jobs - 1,
                jobs as int,
                q,
                jobs - 1,
            );
        } else {
            assert(jobs * (q + 1) + (r - 1) == jobs * q + r + jobs - 1) by (nonlinear_arith);
            vstd::arithmetic::div_mod::lemma_fundamental_div_mod_converse(
                len + jobs - 1,
                jobs as int,
                q + 1,
                r - 1,
            );
        }
    }
    if rest == 0 {
        share + 1
    } else {
        share + 2
    }
}

/// Calls `rand::seq::SliceRandom::shuffle` with the generator of the thread:
/// the same items in an order that chance decides.
#[verifier::external_body]
fn shuffle<T>(items: &mut Vec<T>)
    ensures
        final(items)@.to_multiset() == old(items)@.to_multiset(),
        final(items).len() == old(items).len(),
{
    rand::seq::SliceRandom::shuffle(items.as_mut_slice(), &mut rand::thread_rng());
}

/// Calls `rand::Rng::gen` with the generator of the thread: a byte that
/// chance decides.
#[verifier::external_body]
fn random_byte() -> u8 {
    rand::Rng::gen::<u8>(&mut rand::thread_rng())
}

/// The items of all chunks, one chunk after the other.
pub open spec fn joined<T>(chunks: Seq<Vec<T>>) -> Seq<T>
    decreases chunks.len(),
{
    if chunks.len() == 0 {
        Seq::<T>::empty()
    } else {
        joined(chunks.drop_last()) + chunks.last()@
    }
}

/// Shuffles the folders and hands them out to the workers in chunks of
/// [`spec_chunk_size`]: no folder is lost or added, there are at most `jobs`
/// chunks, none is empty, and all but the last are full.
pub fn distribute<T>(folders: Vec<T>, jobs: usize) -> (chunks: Vec<Vec<T>>)
    requires
        jobs > 0,
        folders.len() < usize::MAX,
    ensures
        joined(chunks@).to_multiset() == folders@.to_multiset(),
        chunks.len() <= jobs,
        forall|i: int|
            0 <= i < chunks.len() ==> 0 < (#[trigger] chunks@[i]).len() <= spec_chunk_size(
                folders.len() as nat,
                jobs as nat,
            ),
        forall|i: int|
            0 <= i < chunks.len() - 1 ==> (#[trigger] chunks@[i]).len() == spec_chunk_size(
                folders.len() as nat,
                jobs as nat,
            ),
{
    let mut rest = folders;
    shuffle(&mut rest);
    let ghost shuffled = rest@;
    let size = chunk_size(rest.len(), jobs);
    proof {
        lemma_chunks_suffice(rest.len() as nat, jobs as nat);
    }
    let mut chunks: Vec<Vec<T>> = Vec::new();
    proof {
        assert(joined(chunks@) + rest@ =~= shuffled);
        assert(0 * size == 0) by (nonlinear_arith);
    }
    while rest.len() > size
        invariant
            size >= 1,
            size == spec_chunk_size(shuffled.len(), jobs as nat),
            size * jobs > shuffled.len(),
            joined(chunks@) + rest@ == shuffled,
            chunks.len() * size + rest.len() == shuffled.len(),
            forall|i: int| 0 <= i < chunks.len() ==> (#[trigger] chunks@[i]).len() == size,
        decreases rest.len(),
    {
        let ghost before = chunks@;
        let ghost whole = rest@;
        let tail = rest.split_off(size);
        let ghost chunk = rest@;
        chunks.push(rest);
        rest = tail;
        proof {
            assert(chunks@.drop_last() =~= before);
            assert(whole =~= chunk + rest@);
            assert(joined(chunks@) + rest@ =~= joined(before) + whole);
            assert((before.len() + 1) * size == before.len() * size + size)
                by (nonlinear_arith);
        }
    }
    proof {
        let full = chunks.len() as int;
        if rest.len() > 0 {
            assert(full < jobs) by (nonlinear_arith)
                requires
                    full * size + rest.len() == shuffled.len(),
                    size * jobs > shuffled.len(),
                    rest.len() > 0,
                    size >= 1,
                    full >= 0,
            ;
        } else {
            assert(full <= jobs) by (nonlinear_arith)
                requires
                    full * size == shuffled.len(),
                    size * jobs > shuffled.len(),
                    size >= 1,
                    full >= 0,
            ;
        }
    }
    if rest.len() > 0 {
        let ghost before = chunks@;
        let ghost last = rest@;
        chunks.push(rest);
        proof {
            assert(chunks@.drop_last() =~= before);
            assert(joined(chunks@) =~= joined(before) + last);
        }
    } else {
        proof {
            assert(joined(chunks@) + rest@ =~= joined(chunks@));
        }
    }
    chunks
}

/// Whether deleting stops after a look at the usage: below 99 % always, and
/// below 99.5 % if the byte that chance gave is zero, which is one time in
/// 256.
pub open spec fn stops_at(usage: Usage, dice: u8) -> bool {
    usage.below(STOP_BELOW as nat) || (usage.below(MAY_STOP_BELOW as nat) && dice < 1)
}

/// Whether deleting stops after a look at the usage, see [`stops_at`].
pub fn should_stop(usage: &Usage, dice: u8) -> (stop: bool)
    ensures
        stop == stops_at(*usage, dice),
{
    usage.is_below(STOP_BELOW) || (usage.is_below(MAY_STOP_BELOW) && dice < 1)
}

/// The two files of a cache entry that are to be removed: the data file,
/// whose absence is no failure, and the header, whose removal counts.
#[derive(Debug)]
pub struct Removal {
    pub data_path: Vec<u8>,
    pub header_path: Vec<u8>,
}

/// Says what is to be removed for a cache entry that leaves the cache: its
/// data file first, then its header.
pub fn process_header_file(fileinfo: &CacheFileInfo) -> (removal: Removal)
    ensures
        removal.data_path@ == spec_data_path(fileinfo@.header_path),
        removal.header_path@ == fileinfo@.header_path,
{
    Removal { data_path: fileinfo.data_path(), header_path: fileinfo.header_path().clone() }
}

/// Collects the cache entries that the workers find, and what they counted.
///
/// Of all entries that were found it queues a choice of the
/// [`MAX_DELETE_COUNT`] that come first in the eviction order.
pub struct Evictor {
    queue: CachePriorityQueue<CacheFileInfo>,
    stats: Stats,
    seen: Ghost<Multiset<CacheFileInfo>>,
}

impl Evictor {
    #[verifier::type_invariant]
    spec fn queues_the_first(self) -> bool {
        &&& self.queue.limit() == MAX_DELETE_COUNT
        &&& holds_smallest(self.seen@, MAX_DELETE_COUNT as nat, self.queue@)
    }

    /// All entries that were found so far.
    pub closed spec fn seen(&self) -> Multiset<CacheFileInfo> {
        self.seen@
    }

    /// The entries that are queued for eviction.
    pub closed spec fn queued(&self) -> Multiset<CacheFileInfo> {
        self.queue@
    }

    /// What was deleted and what failed so far.
    pub closed spec fn stats(&self) -> Stats {
        self.stats
    }

    /// An evictor that has found nothing, with a queue that takes no room
    /// yet.
    fn idle(stats: Stats, room: usize) -> (evictor: Evictor)
        requires
            room <= MAX_DELETE_COUNT,
        ensures
            evictor.seen() == Multiset::<CacheFileInfo>::empty(),
            evictor.queued() == Multiset::<CacheFileInfo>::empty(),
            evictor.stats() == stats,
    {
        broadcast use vstd::multiset::group_multiset_axioms;

        Evictor {
            queue: CachePriorityQueue::with_capacity(room, MAX_DELETE_COUNT),
            stats,
            seen: Ghost(Multiset::empty()),
        }
    }

    /// Begins with nothing found and with what the sweep of temporary files
    /// counted.
    pub fn new(swept: Stats) -> (evictor: Evictor)
        ensures
            evictor.seen() == Multiset::<CacheFileInfo>::empty(),
            evictor.queued() == Multiset::<CacheFileInfo>::empty(),
            evictor.stats() == swept,
    {
        Evictor::idle(swept, QUEUE_CAPACITY)
    }

    /// Takes an entry that a worker found: it is queued, and at the limit of
    /// the queue an entry that comes last in the eviction order is dropped
    /// for it, which may be the new one.
    pub fn found(&mut self, fileinfo: CacheFileInfo)
        ensures
            final(self).seen() == old(self).seen().insert(fileinfo),
            pushed(old(self).queued(), MAX_DELETE_COUNT as nat, fileinfo, final(self).queued()),
            holds_smallest(final(self).seen(), MAX_DELETE_COUNT as nat, final(self).queued()),
            final(self).stats() == old(self).stats(),
    {
        let mut taken = Evictor::idle(self.stats, 0);
        core::mem::swap(self, &mut taken);
        proof {
            use_type_invariant(&taken);
        }
        let Evictor { queue, stats, seen } = taken;
        let mut queue = queue;
        let ghost held = queue@;
        queue.push(fileinfo);
        proof {
            lemma_push_keeps_smallest(seen@, MAX_DELETE_COUNT as nat, held, fileinfo, queue@);
        }
        *self = Evictor { queue, stats, seen: Ghost(seen@.insert(fileinfo)) };
    }

    /// Whether the outcome of a worker can be counted.
    pub fn can_merge(&self, result: &Result<Stats, ()>) -> (b: bool)
        ensures
            b == self.stats()@.merged(*result).fits(),
    {
        match result {
            Ok(stats) => self.stats.can_merge(stats),
            Err(_) => self.stats.failed < u64::MAX,
        }
    }

    /// Merges what a worker counted for one folder, or counts one failure if
    /// its scan did not complete.
    pub fn merge_result(&mut self, result: Result<Stats, ()>)
        requires
            old(self).stats()@.merged(result).fits(),
        ensures
            final(self).stats()@ == old(self).stats()@.merged(result),
            final(self).queued() == old(self).queued(),
            final(self).seen() == old(self).seen(),
    {
        proof {
            use_type_invariant(&*self);
        }
        let mut stats = self.stats;
        stats.merge_result(result);
        self.stats = stats;
    }

    /// Ends the collection: the queued entries in eviction order, ready to
    /// be deleted from the first on. They are a choice of the
    /// [`MAX_DELETE_COUNT`] entries that come first of all that were found.
    pub fn into_deletion(self) -> (deletion: Deletion)
        ensures
            is_sorted(deletion.entries()),
            deletion.entries().to_multiset() == self.queued(),
            holds_smallest(self.seen(), MAX_DELETE_COUNT as nat, deletion.entries().to_multiset()),
            deletion.position() == 0,
            deletion.in_chunk() == 0,
            !deletion.stopped(),
            deletion.stats() == self.stats(),
    {
        proof {
            use_type_invariant(&self);
        }
        let Evictor { queue, stats, seen } = self;
        Deletion { entries: queue.into_sorted_vec(), position: 0, in_chunk: 0, stopped: false, stats }
    }
}

/// What the caller is to do next while the queue is worked off.
#[derive(Debug)]
pub enum DeleteStep {
    /// Remove the two files of an entry, for [`Deletion::removed`].
    Remove(Removal),
    /// Measure the usage, for [`Deletion::usage_checked`].
    CheckUsage,
    /// Nothing more is to be deleted.
    Finished,
}

/// Works off the queue: the entries in eviction order, how many of them were
/// handed out, how many of these since the last look at the usage, and
/// whether the usage has fallen far enough.
#[derive(Debug)]
pub struct Deletion {
    entries: Vec<CacheFileInfo>,
    position: usize,
    in_chunk: usize,
    stopped: bool,
    stats: Stats,
}

impl Deletion {
    #[verifier::type_invariant]
    spec fn in_order(self) -> bool {
        &&& is_sorted(self.entries@)
        &&& self.position <= self.entries.len()
        &&& self.in_chunk <= DELETE_CHUNK
    }

    /// The entries in eviction order.
    pub closed spec fn entries(&self) -> Seq<CacheFileInfo> {
        self.entries@
    }

    /// The number of entries that were handed out for removal.
    pub closed spec fn position(&self) -> nat {
        self.position as nat
    }

    /// The number of entries that were handed out since the last look at the
    /// usage.
    pub closed spec fn in_chunk(&self) -> nat {
        self.in_chunk as nat
    }

    /// Whether the usage has fallen far enough.
    pub closed spec fn stopped(&self) -> bool {
        self.stopped
    }

    /// What was deleted and what failed so far.
    pub closed spec fn stats(&self) -> Stats {
        self.stats
    }

    /// Nothing is left to do: deleting has stopped, or all entries were
    /// handed out and the usage was looked at since.
    pub open spec fn is_finished(&self) -> bool {
        self.stopped() || (self.position() >= self.entries().len() && self.in_chunk() == 0)
    }

    /// The usage is to be looked at: a chunk is full, or the last entry was
    /// handed out.
    pub open spec fn is_check_due(&self) -> bool {
        !self.is_finished() && (self.in_chunk() >= DELETE_CHUNK || self.position()
            >= self.entries().len())
    }

    /// Says what is to be done next: the next entry in eviction order is
    /// removed, but after every [`DELETE_CHUNK`] entries and after the last
    /// one the usage is looked at first. No entry that is handed out comes
    /// before one that was handed out earlier, and no more than
    /// [`DELETE_CHUNK`] are handed out between two looks at the usage.
    pub fn next(&mut self) -> (step: DeleteStep)
        ensures
            final(self).entries() == old(self).entries(),
            is_sorted(final(self).entries()),
            final(self).position() <= final(self).entries().len(),
            final(self).in_chunk() <= DELETE_CHUNK,
            final(self).stopped() == old(self).stopped(),
            final(self).stats() == old(self).stats(),
            if old(self).is_finished() {
                &&& step is Finished
                &&& final(self).position() == old(self).position()
                &&& final(self).in_chunk() == old(self).in_chunk()
            } else if old(self).is_check_due() {
                &&& step is CheckUsage
                &&& final(self).position() == old(self).position()
                &&& final(self).in_chunk() == old(self).in_chunk()
            } else {
                &&& step matches DeleteStep::Remove(removal)
                &&& removal.header_path@ == old(self).entries()[old(
                    self,
                ).position() as int]@.header_path
                &&& removal.data_path@ == spec_data_path(removal.header_path@)
                &&& final(self).position() == old(self).position() + 1
                &&& final(self).in_chunk() == old(self).in_chunk() + 1
            },
    {
        proof {
            use_type_invariant(&*self);
        }
        if self.stopped || (self.position >= self.entries.len() && self.in_chunk == 0) {
            DeleteStep::Finished
        } else if self.in_chunk >= DELETE_CHUNK || self.position >= self.entries.len() {
            DeleteStep::CheckUsage
        } else {
            let removal = process_header_file(&self.entries[self.position]);
            self.position = self.position + 1;
            self.in_chunk = self.in_chunk + 1;
            DeleteStep::Remove(removal)
        }
    }

    /// Whether one more removal can be counted.
    pub fn has_room(&self) -> (b: bool)
        ensures
            b == self.stats()@.has_room(),
    {
        self.stats.has_room()
    }

    /// Takes whether the header of an entry was removed: a deletion if so,
    /// else a failure.
    pub fn removed(&mut self, removed: bool)
        requires
            old(self).stats()@.has_room(),
        ensures
            final(self).stats()@ == old(self).stats()@.counted(
                if removed {
                    Ok::<bool, ()>(true)
                } else {
                    Err::<bool, ()>(())
                },
            ),
            final(self).entries() == old(self).entries(),
            final(self).position() == old(self).position(),
            final(self).in_chunk() == old(self).in_chunk(),
            final(self).stopped() == old(self).stopped(),
    {
        let outcome: Result<bool, ()> = if removed {
            Ok(true)
        } else {
            Err(())
        };
        proof {
            use_type_invariant(&*self);
        }
        let mut stats = self.stats;
        stats.count(outcome);
        self.stats = stats;
    }

    /// Takes the usage that was measured and the byte that chance gave: a
    /// new chunk begins, and deleting stops if [`stops_at`] says so.
    pub fn usage_checked_with(&mut self, usage: &Usage, dice: u8) -> (go_on: bool)
        ensures
            final(self).stopped() == (old(self).stopped() || stops_at(*usage, dice)),
            go_on == !final(self).stopped(),
            final(self).in_chunk() == 0,
            final(self).entries() == old(self).entries(),
            final(self).position() == old(self).position(),
            final(self).stats() == old(self).stats(),
    {
        proof {
            use_type_invariant(&*self);
        }
        self.in_chunk = 0;
        if should_stop(usage, dice) {
            self.stopped = true;
        }
        !self.stopped
    }

    /// Takes the usage that was measured: a new chunk begins; deleting stops
    /// if the usage is below 99 %, goes on if it is at least 99.5 %, and
    /// between the two chance decides. Returns whether deleting goes on, in
    /// which case the caller lets other work run first.
    pub fn usage_checked(&mut self, usage: &Usage) -> (go_on: bool)
        ensures
            old(self).stopped() || usage.below(STOP_BELOW as nat) ==> final(self).stopped(),
            !old(self).stopped() && !usage.below(MAY_STOP_BELOW as nat) ==> !final(self).stopped(),
            go_on == !final(self).stopped(),
            final(self).in_chunk() == 0,
            final(self).entries() == old(self).entries(),
            final(self).position() == old(self).position(),
            final(self).stats() == old(self).stats(),
    {
        let dice: u8 = if usage.is_below(MAY_STOP_BELOW) && !usage.is_below(STOP_BELOW) {
            random_byte()
        } else {
            1
        };
        self.usage_checked_with(usage, dice)
    }

    /// Ends the run: what was deleted and what failed.
    pub fn finish(self) -> (stats: Stats)
        ensures
            stats == self.stats(),
    {
        self.stats
    }
}

/// The folders of the cache in chunks for the workers, and the collector for
/// what the workers find.
pub struct Plan<T> {
    pub chunks: Vec<Vec<T>>,
    pub evictor: Evictor,
}

/// Plans the processing of the subfolders of the cache in parallel.
///
/// The folders are shuffled, so that large and small ones mix, and handed
/// out to at most `jobs` workers. What the workers find is collected by the
/// evictor, which begins with what the sweep of temporary files counted.
pub fn process_folder_parallel<T>(folders: Vec<T>, jobs: usize, swept: Stats) -> (plan: Plan<T>)
    requires
        jobs > 0,
        folders.len() < usize::MAX,
    ensures
        joined(plan.chunks@).to_multiset() == folders@.to_multiset(),
        plan.chunks.len() <= jobs,
        forall|i: int|
            0 <= i < plan.chunks.len() ==> 0 < (#[trigger] plan.chunks@[i]).len()
                <= spec_chunk_size(folders.len() as nat, jobs as nat),
        forall|i: int|
            0 <= i < plan.chunks.len() - 1 ==> (#[trigger] plan.chunks@[i]).len()
                == spec_chunk_size(folders.len() as nat, jobs as nat),
        plan.evictor.seen() == Multiset::<CacheFileInfo>::empty(),
        plan.evictor.queued() == Multiset::<CacheFileInfo>::empty(),
        plan.evictor.stats() == swept,
{
    Plan { chunks: distribute(folders, jobs), evictor: Evictor::new(swept) }
}

} // verus!
