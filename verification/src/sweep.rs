//! Deleting the files of rows that were evicted, one after the other.
use vstd::prelude::*;

use crate::budget;
use crate::manifest;
use crate::manifest::{ListedView, ManifestRow};
use crate::types;
use crate::types::{CacheHandle, ErrorView, EvictionReport, KvCacheError};

verus! {

/// How the deletion of a file went.
pub enum FileRemoval {
    Removed,
    NotFound,
    /// It failed, for the reason given.
    Failed(String),
}

/// How many of the rows have a handle that is no safe filename.
pub open spec fn unsafe_count(rows: Seq<ListedView>) -> nat
    decreases rows.len(),
{
    if rows.len() == 0 {
        0
    } else {
        unsafe_count(rows.drop_last()) + if types::is_single_component(rows.last().handle) {
            0nat
        } else {
            1nat
        }
    }
}

/// The handles that are no safe filenames.
pub open spec fn unsafe_handles(rows: Seq<ListedView>) -> Seq<Seq<char>>
    decreases rows.len(),
{
    if rows.len() == 0 {
        seq![]
    } else if types::is_single_component(rows.last().handle) {
        unsafe_handles(rows.drop_last())
    } else {
        unsafe_handles(rows.drop_last()).push(rows.last().handle)
    }
}

/// The rows of an eviction pass, whose files are to be deleted in order, and what has been
/// done so far. The rows themselves are gone from the table already; a row whose handle is
/// no safe filename is counted, and no file is deleted for it.
pub struct FileSweep {
    removed: Vec<ManifestRow>,
    next: usize,
    evicted: u64,
    freed: u128,
    skipped_unsafe: u64,
}

impl FileSweep {
    /// The rows, in the order of their eviction.
    pub closed spec fn rows(&self) -> Seq<ListedView> {
        manifest::views(self.removed@)
    }

    /// How many of them are dealt with.
    pub closed spec fn done(&self) -> nat {
        self.next as nat
    }

    /// The counters agree with the rows that are dealt with.
    pub closed spec fn valid(&self) -> bool {
        let past = self.rows().take(self.next as int);
        &&& self.next <= self.removed.len()
        &&& self.evicted == self.next
        &&& self.freed == budget::sum(manifest::listed_sizes(past))
        &&& self.skipped_unsafe == unsafe_count(past)
        &&& self.skipped_unsafe <= self.next
    }

    /// Whether the next row is one whose file is to be deleted.
    pub open spec fn awaits_removal(&self) -> bool {
        self.done() < self.rows().len() && types::is_single_component(
            self.rows()[self.done() as int].handle,
        )
    }

    /// A sweep over rows that were evicted, with nothing done yet.
    pub fn new(removed: Vec<ManifestRow>) -> (sweep: Self)
        ensures
            sweep.valid(),
            sweep.rows() == manifest::views(removed@),
            sweep.done() == 0,
    {
        let sweep = FileSweep { removed, next: 0, evicted: 0, freed: 0, skipped_unsafe: 0 };
        assert(manifest::listed_sizes(sweep.rows().take(0)) =~= Seq::<nat>::empty());
        sweep
    }

    /// Counts the next row as evicted.
    fn count_one(&mut self, file_is_safe: bool)
        requires
            old(self).valid(),
            old(self).done() < old(self).rows().len(),
            file_is_safe == types::is_single_component(
                old(self).rows()[old(self).done() as int].handle,
            ),
        ensures
            final(self).valid(),
            final(self).rows() == old(self).rows(),
            final(self).done() == old(self).done() + 1,
    {
        let ghost rows = self.rows();
        let ghost i = self.next as int;
        let ghost all = manifest::listed_sizes(rows);
        proof {
            assert(rows[i] == self.removed[i]@);
            budget::lemma_sum_step(all, i);
            budget::lemma_sum_split(all, i + 1);
            budget::lemma_sum_bound(all);
            assert(manifest::listed_sizes(rows.take(i)) =~= all.take(i));
            assert(manifest::listed_sizes(rows.take(i + 1)) =~= all.take(i + 1));
            assert(rows.take(i + 1).drop_last() =~= rows.take(i));
            assert(rows.take(i + 1).last() == rows[i]);
        }
        if !file_is_safe {
            self.skipped_unsafe = self.skipped_unsafe + 1;
        }
        self.evicted = self.evicted + 1;
        self.freed = self.freed + self.removed[self.next].size_bytes as u128;
        self.next = self.next + 1;
    }

    /// Moves on to the next row whose file is to be deleted, counting the rows without a safe
    /// filename on the way, and returns the name of that file; `None` when all rows are dealt
    /// with.
    pub fn next_file(&mut self) -> (filename: Option<String>)
        requires
            old(self).valid(),
        ensures
            final(self).valid(),
            final(self).rows() == old(self).rows(),
            old(self).done() <= final(self).done() <= final(self).rows().len(),
            forall|i: int|
                old(self).done() <= i < final(self).done() ==> !types::is_single_component(
                    (#[trigger] final(self).rows()[i]).handle,
                ),
            match filename {
                Some(name) => {
                    &&& final(self).awaits_removal()
                    &&& name@ == final(self).rows()[final(self).done() as int].handle
                },
                None => final(self).done() == final(self).rows().len(),
            },
    {
        while self.next < self.removed.len()
            invariant
                self.valid(),
                self.rows() == old(self).rows(),
                self.rows().len() == self.removed.len(),
                old(self).done() <= self.done() <= self.rows().len(),
                forall|i: int|
                    old(self).done() <= i < self.done() ==> !types::is_single_component(
                        (#[trigger] self.rows()[i]).handle,
                    ),
            decreases self.removed.len() - self.next,
        {
            assert(self.rows()[self.next as int] == self.removed[self.next as int]@);
            if self.removed[self.next].handle.is_safe_filename() {
                return Some(self.removed[self.next].handle.as_str().to_owned());
            }
            self.count_one(false);
        }
        None
    }

    /// Takes note of how the deletion of the file went that `next_file` named. A file that
    /// was not there counts as deleted; a failure ends the sweep with an error.
    pub fn file_removed(&mut self, outcome: FileRemoval) -> (done: Result<(), KvCacheError>)
        requires
            old(self).valid(),
            old(self).awaits_removal(),
        ensures
            final(self).valid(),
            final(self).rows() == old(self).rows(),
            match outcome {
                FileRemoval::Failed(reason) => {
                    &&& done matches Err(e) && e@ == (ErrorView::Backend { words: reason@ })
                    &&& *final(self) == *old(self)
                },
                _ => done is Ok && final(self).done() == old(self).done() + 1,
            },
    {
        match outcome {
            FileRemoval::Failed(reason) => Err(KvCacheError::Backend(reason)),
            _ => {
                self.count_one(true);
                Ok(())
            },
        }
    }

    /// How many rows are dealt with.
    pub fn evicted(&self) -> (evicted: u64)
        requires
            self.valid(),
        ensures
            evicted == self.done(),
    {
        self.evicted
    }

    /// How many bytes the rows that are dealt with took up.
    pub fn freed(&self) -> (freed: u128)
        requires
            self.valid(),
        ensures
            freed == budget::sum(manifest::listed_sizes(self.rows().take(self.done() as int))),
    {
        self.freed
    }

    /// How many rows are dealt with, and how many bytes they took up, as far as a report can
    /// hold it.
    pub fn report(&self) -> (report: EvictionReport)
        requires
            self.valid(),
            budget::sum(manifest::listed_sizes(self.rows().take(self.done() as int))) <= u64::MAX,
        ensures
            report.evicted_count == self.done(),
            report.bytes_freed == budget::sum(
                manifest::listed_sizes(self.rows().take(self.done() as int)),
            ),
    {
        EvictionReport { evicted_count: self.evicted, bytes_freed: self.freed as u64 }
    }

    /// What the report will be once every row is dealt with.
    pub fn planned(&self) -> (report: EvictionReport)
        requires
            budget::sum(manifest::listed_sizes(self.rows())) <= u64::MAX,
        ensures
            report.evicted_count == self.rows().len(),
            report.bytes_freed == budget::sum(manifest::listed_sizes(self.rows())),
    {
        let ghost all = manifest::listed_sizes(self.rows());
        let mut bytes_freed: u64 = 0;
        let mut i: usize = 0;
        assert(all.take(0) =~= Seq::<nat>::empty());
        while i < self.removed.len()
            invariant
                i <= self.removed.len(),
                all == manifest::listed_sizes(self.rows()),
                all.len() == self.removed.len(),
                budget::sum(all) <= u64::MAX,
                bytes_freed == budget::sum(all.take(i as int)),
            decreases self.removed.len() - i,
        {
            proof {
                budget::lemma_sum_step(all, i as int);
                budget::lemma_sum_split(all, i + 1);
                assert(self.rows()[i as int] == self.removed[i as int]@);
            }
            bytes_freed = bytes_freed + self.removed[i].size_bytes;
            i = i + 1;
        }
        assert(all.take(i as int) =~= all);
        EvictionReport { evicted_count: self.removed.len() as u64, bytes_freed }
    }

    /// How many of the rows that are dealt with had no safe filename.
    pub fn skipped(&self) -> (skipped: u64)
        requires
            self.valid(),
        ensures
            skipped == unsafe_count(self.rows().take(self.done() as int)),
    {
        self.skipped_unsafe
    }

    /// The handles of the rows that are dealt with and had no safe filename.
    pub fn skipped_handles(&self) -> (handles: Vec<CacheHandle>)
        requires
            self.valid(),
        ensures
            handles@.map_values(|handle: CacheHandle| handle@) == unsafe_handles(
                self.rows().take(self.done() as int),
            ),
    {
        let ghost rows = self.rows();
        let ghost text = |handle: CacheHandle| handle@;
        let mut handles: Vec<CacheHandle> = Vec::new();
        let mut i: usize = 0;
        assert(rows.take(0) =~= Seq::<ListedView>::empty());
        assert(handles@.map_values(text) =~= Seq::<Seq<char>>::empty());
        while i < self.next
            invariant
                i <= self.next <= self.removed.len(),
                rows == self.rows(),
                text == |handle: CacheHandle| handle@,
                handles@.map_values(text) == unsafe_handles(rows.take(i as int)),
            decreases self.next - i,
        {
            let ghost so_far = handles@;
            let handle = &self.removed[i].handle;
            proof {
                assert(rows[i as int] == self.removed[i as int]@);
                assert(rows.take(i + 1).drop_last() =~= rows.take(i as int));
                assert(rows.take(i + 1).last() == rows[i as int]);
            }
            if !handle.is_safe_filename() {
                handles.push(handle.clone());
                assert(handles@.map_values(text) =~= so_far.map_values(text).push(handle@));
            }
            i = i + 1;
        }
        handles
    }
}

} // verus!
