//! What is done with each entry of a cache directory.
//!
//! A [`DirScan`] goes through the entries of one directory. It never touches
//! the filesystem: for each entry it says in a [`Step`] what is to be looked
//! up or removed, and the caller hands back what came of it.

use crate::apache_cache::{Abi, Format};
use crate::cache_file_info::{
    data_suffix, data_suffix_bytes, header_suffix, header_suffix_bytes, opt_view, spec_data_path,
    spec_new, spec_vary_path, vdir_suffix, vdir_suffix_bytes, CacheFileInfo, CacheFileView,
};
use crate::paths::{
    ends_with, has_prefix, has_suffix, join, replace_suffix, spec_join, starts_with,
    without_suffix,
};
use crate::stats::{Stats, Tally};
use crate::stem_set::StemSet;
use crate::timestamp::{spec_aged, Timestamp};
use crate::usage::Usage;
use vstd::prelude::*;
use vstd::slice::slice_subrange;

verus! {

/// Age in seconds from which a temporary file is removed.
pub const TEMPFILE_MAX_AGE: u64 = 600;

/// Age in seconds from which a data file without a header is removed.
pub const ORPHAN_MAX_AGE: u64 = 120;

/// Age in seconds from which an empty folder is removed.
pub const FOLDER_MAX_AGE: u64 = 300;

/// Length of the name of a temporary file: `aptmp` and six more characters.
pub const TEMPFILE_NAME_LEN: usize = 11;

/// The number of links above which a folder is known to have subfolders.
pub const LINKS_OF_EMPTY_FOLDER: u64 = 2;

/// Start of the name of a temporary file: `aptmp`.
pub open spec fn tempfile_base() -> Seq<u8> {
    seq!['a' as u8, 'p' as u8, 't' as u8, 'm' as u8, 'p' as u8]
}

/// The bytes of [`tempfile_base`].
pub fn tempfile_base_bytes() -> (b: [u8; 5])
    ensures
        b@ == tempfile_base(),
{
    let b = ['a' as u8, 'p' as u8, 't' as u8, 'm' as u8, 'p' as u8];
    assert(b@ =~= tempfile_base());
    b
}

/// What the name of a directory entry says it is.
#[derive(Debug, Clone, Copy, PartialEq, Eq, Structural)]
pub enum EntryClass {
    /// A temporary file of the server.
    TempFile,
    /// The header of a cache entry.
    Header,
    /// The data of a cache entry.
    Data,
    /// A directory of variants.
    VaryDir,
    /// Anything else, a folder of the cache tree among them.
    Other,
}

/// `name` is the name of a temporary file: eleven bytes that start with
/// `aptmp`.
pub open spec fn is_tempfile_name(name: Seq<u8>) -> bool {
    name.len() == TEMPFILE_NAME_LEN && starts_with(name, tempfile_base())
}

/// The class of an entry by its name. The first rule that fits decides:
/// temporary file, then the suffix `.header`, then `.data`, then `.vary`.
pub open spec fn classify_spec(name: Seq<u8>) -> EntryClass {
    if is_tempfile_name(name) {
        EntryClass::TempFile
    } else if ends_with(name, header_suffix()) {
        EntryClass::Header
    } else if ends_with(name, data_suffix()) {
        EntryClass::Data
    } else if ends_with(name, vdir_suffix()) {
        EntryClass::VaryDir
    } else {
        EntryClass::Other
    }
}

/// The class of an entry by its name, see [`classify_spec`].
pub fn classify(name: &[u8]) -> (class: EntryClass)
    ensures
        class == classify_spec(name@),
{
    let base = tempfile_base_bytes();
    let header = header_suffix_bytes();
    let data = data_suffix_bytes();
    let vdir = vdir_suffix_bytes();
    if name.len() == TEMPFILE_NAME_LEN && has_prefix(name, base.as_slice()) {
        EntryClass::TempFile
    } else if has_suffix(name, header.as_slice()) {
        EntryClass::Header
    } else if has_suffix(name, data.as_slice()) {
        EntryClass::Data
    } else if has_suffix(name, vdir.as_slice()) {
        EntryClass::VaryDir
    } else {
        EntryClass::Other
    }
}

/// What kind of thing a directory entry is.
#[derive(Debug, Clone, Copy, PartialEq, Eq, Structural)]
pub enum FileKind {
    File,
    Directory,
    Other,
}

/// What the filesystem says about a file or folder. The time of the last read
/// is not known everywhere.
#[derive(Debug, Clone, Copy, PartialEq, Eq)]
pub struct FileFacts {
    pub kind: FileKind,
    pub nlink: u64,
    pub modified: Timestamp,
    pub accessed: Option<Timestamp>,
}

/// What is to be done with a file or folder that may be too old.
#[derive(Debug, Clone, Copy, PartialEq, Eq, Structural)]
pub enum Verdict {
    /// It stays.
    Keep,
    /// It is to be removed.
    Remove,
    /// Its age could not be told: this counts as a failure.
    Fail,
}

/// Whether something last written at `modified` and last read at `accessed`
/// is to be removed at `now` for not having been touched for `seconds`
/// seconds: both times must lie that far back.
pub open spec fn age_verdict(
    modified: Timestamp,
    accessed: Option<Timestamp>,
    now: Timestamp,
    seconds: u64,
) -> Verdict {
    if !spec_aged(modified@, now@, seconds) {
        Verdict::Keep
    } else {
        match accessed {
            None => Verdict::Fail,
            Some(a) => if spec_aged(a@, now@, seconds) {
                Verdict::Remove
            } else {
                Verdict::Keep
            },
        }
    }
}

/// Whether a file is to be removed: only a regular file that was neither
/// written nor read for `seconds` seconds.
pub open spec fn file_verdict(facts: FileFacts, now: Timestamp, seconds: u64) -> Verdict {
    if facts.kind != FileKind::File {
        Verdict::Keep
    } else {
        age_verdict(facts.modified, facts.accessed, now, seconds)
    }
}

/// Whether a folder is to be removed: only a directory with no more than two
/// links, which can have no subfolder, that was neither written nor read for
/// `seconds` seconds.
pub open spec fn folder_verdict(facts: FileFacts, now: Timestamp, seconds: u64) -> Verdict {
    if facts.kind != FileKind::Directory {
        Verdict::Keep
    } else if facts.nlink > LINKS_OF_EMPTY_FOLDER {
        Verdict::Keep
    } else {
        age_verdict(facts.modified, facts.accessed, now, seconds)
    }
}

/// Decides by its age whether something is to be removed, see
/// [`age_verdict`].
fn verdict_by_age(
    modified: &Timestamp,
    accessed: &Option<Timestamp>,
    now: &Timestamp,
    seconds: u64,
) -> (v: Verdict)
    ensures
        v == age_verdict(*modified, *accessed, *now, seconds),
{
    if !modified.aged(now, seconds) {
        return Verdict::Keep;
    }
    match accessed {
        None => Verdict::Fail,
        Some(a) => if a.aged(now, seconds) {
            Verdict::Remove
        } else {
            Verdict::Keep
        },
    }
}

/// Decides whether a file is to be deleted for not having been modified or
/// accessed recently, see [`file_verdict`].
///
/// Meant for temporary files and for data files without a header.
pub fn delete_file_if_not_recent(facts: &FileFacts, now: &Timestamp, seconds: u64) -> (v: Verdict)
    ensures
        v == file_verdict(*facts, *now, seconds),
{
    match facts.kind {
        FileKind::File => verdict_by_age(&facts.modified, &facts.accessed, now, seconds),
        _ => Verdict::Keep,
    }
}

/// Decides whether a folder is to be deleted for not having been modified
/// or accessed recently, see [`folder_verdict`].
pub fn delete_folder_if_not_recent(facts: &FileFacts, now: &Timestamp, seconds: u64) -> (v:
    Verdict)
    ensures
        v == folder_verdict(*facts, *now, seconds),
{
    match facts.kind {
        FileKind::Directory => {
            if facts.nlink > LINKS_OF_EMPTY_FOLDER {
                Verdict::Keep
            } else {
                verdict_by_age(&facts.modified, &facts.accessed, now, seconds)
            }
        },
        _ => Verdict::Keep,
    }
}

/// What came of the attempt to remove a folder.
#[derive(Debug, Clone, Copy, PartialEq, Eq, Structural)]
pub enum RemoveOutcome {
    /// It is gone.
    Removed,
    /// It is still there; `os_error` is the error number of the system, if
    /// there was one.
    Failed { os_error: Option<i32> },
}

/// How the attempt to remove a folder counts: a folder that is gone as a
/// deletion, one that was not empty as nothing, any other failure as a
/// failure.
pub open spec fn folder_removal_result(outcome: RemoveOutcome, not_empty_errno: i32) -> Result<
    bool,
    (),
> {
    match outcome {
        RemoveOutcome::Removed => Ok(true),
        RemoveOutcome::Failed { os_error } => if os_error == Some(not_empty_errno) {
            Ok(false)
        } else {
            Err(())
        },
    }
}

/// How the attempt to remove a folder counts, see [`folder_removal_result`].
pub fn judge_folder_removal(outcome: RemoveOutcome, not_empty_errno: i32) -> (r: Result<bool, ()>)
    ensures
        r == folder_removal_result(outcome, not_empty_errno),
{
    match outcome {
        RemoveOutcome::Removed => Ok(true),
        RemoveOutcome::Failed { os_error } => match os_error {
            Some(code) => if code == not_empty_errno {
                Ok(false)
            } else {
                Err(())
            },
            None => Err(()),
        },
    }
}

/// The error number `libc::ENOTEMPTY` with which this system refuses to
/// remove a directory that is not empty. It differs between systems; nothing
/// is claimed of it.
#[verifier::external_body]
fn not_empty_errno() -> i32 {
    libc::ENOTEMPTY
}

/// What holds for a whole scan.
#[derive(Debug, Clone, Copy, PartialEq, Eq)]
pub struct ScanContext {
    /// The time at which the cleanup began.
    pub now: Timestamp,
    /// Whether the directory lies below a directory of variants.
    pub in_vary: bool,
    /// Whether the protection of variants is given up.
    pub desperate: bool,
    /// Whether only temporary files are dealt with.
    pub tempfiles_only: bool,
    /// Byte order and integer widths of the machine that wrote the headers.
    pub abi: Abi,
    /// The error number for a directory that is not empty.
    pub not_empty_errno: i32,
}

impl ScanContext {
    /// The context of a scan on this machine.
    pub fn native(now: Timestamp, in_vary: bool, desperate: bool) -> (context: ScanContext)
        ensures
            context.now == now,
            context.in_vary == in_vary,
            context.desperate == desperate,
            !context.tempfiles_only,
    {
        ScanContext {
            now,
            in_vary,
            desperate,
            tempfiles_only: false,
            abi: Abi::native(),
            not_empty_errno: not_empty_errno(),
        }
    }
}

/// Times and leading bytes of a header file.
#[derive(Debug)]
pub struct LoadedHeader {
    pub modified: Timestamp,
    pub accessed: Option<Timestamp>,
    pub prefix: Vec<u8>,
}

/// What the caller is to do next for the entry at hand, and to which method
/// of [`DirScan`] the result goes.
#[derive(Debug)]
pub enum Step {
    /// Nothing more: go on with the next entry.
    Done,
    /// Look up the entry, without following a link, for
    /// [`DirScan::file_facts`].
    StatFile { seconds: u64 },
    /// Remove the entry, a file, for [`DirScan::file_removed`].
    RemoveFile,
    /// Look up the entry and read the start of its content, for
    /// [`DirScan::header_loaded`].
    LoadHeader { path: Vec<u8> },
    /// Remove the file at `data_path`, for [`DirScan::data_removed`].
    RemoveData { info: CacheFileInfo, data_path: Vec<u8> },
    /// Look up what lies at `vary_path`, following links, for
    /// [`DirScan::vary_facts`].
    StatVaryDir { info: CacheFileInfo, vary_path: Vec<u8> },
    /// Hand the entry on to the eviction queue, then go on with the next
    /// entry.
    Send { info: CacheFileInfo },
    /// See whether anything lies at `header_path`, for
    /// [`DirScan::header_exists`].
    CheckHeader { header_path: Vec<u8> },
    /// Look up the entry for [`DirScan::entry_facts`].
    StatEntry,
    /// Scan the directory at `path` with a scan of its own, for
    /// [`DirScan::subscan_done`].
    Recurse { path: Vec<u8>, in_vary: bool, facts: Option<FileFacts> },
    /// Look up the entry for [`DirScan::folder_facts`].
    StatFolder,
    /// Remove the entry, a folder, for [`DirScan::folder_removed`].
    RemoveFolder,
}

/// The entry that a header file gives, see [`spec_new`]; a path that does not
/// end in `.header` and a file that could not be read give none.
pub open spec fn loaded_entry(path: Seq<u8>, loaded: Option<LoadedHeader>, abi: Abi) -> Option<
    CacheFileView,
> {
    match loaded {
        Some(l) => if ends_with(path, header_suffix()) {
            match spec_new(path, l.modified@, opt_view(l.accessed), l.prefix@, abi) {
                Ok(view) => Some(view),
                Err(_) => None,
            }
        } else {
            None
        },
        None => None,
    }
}

/// The scan of one directory: what holds for the scan, the headers seen in the
/// directory so far, and what was deleted and what failed so far.
#[derive(Debug)]
pub struct DirScan {
    dir: Vec<u8>,
    context: ScanContext,
    known_headers: StemSet,
    stats: Stats,
}

impl DirScan {
    /// The path of the directory.
    pub closed spec fn dir(&self) -> Seq<u8> {
        self.dir@
    }

    /// What holds for the whole scan.
    pub closed spec fn context(&self) -> ScanContext {
        self.context
    }

    /// The stems of the headers seen in the directory so far.
    pub closed spec fn known_headers(&self) -> Set<Seq<u8>> {
        self.known_headers@
    }

    /// What was deleted and what failed so far.
    pub closed spec fn stats(&self) -> Stats {
        self.stats
    }

    /// Directory and context of `self` are those of `other`.
    pub open spec fn same_scan(&self, other: &DirScan) -> bool {
        self.dir() == other.dir() && self.context() == other.context()
    }

    /// Nothing but the step changed.
    pub open spec fn unchanged(&self, other: &DirScan) -> bool {
        &&& self.same_scan(other)
        &&& self.known_headers() == other.known_headers()
        &&& self.stats() == other.stats()
    }

    /// Nothing changed but that one thing more was counted.
    pub open spec fn counted(&self, other: &DirScan, tally: Tally) -> bool {
        &&& self.same_scan(other)
        &&& self.known_headers() == other.known_headers()
        &&& self.stats()@ == tally
    }

    /// Begins the scan of the directory at `dir` in the given context.
    pub fn new(dir: Vec<u8>, context: ScanContext) -> (scan: DirScan)
        ensures
            scan.dir() == dir@,
            scan.context() == context,
            scan.known_headers() == Set::<Seq<u8>>::empty(),
            scan.stats()@ == Tally::zero(),
    {
        DirScan { dir, context, known_headers: StemSet::new(), stats: Stats::default() }
    }

    /// Begins the scan of the directory at `path` that removes nothing but
    /// old temporary files.
    pub fn tempfiles(path: Vec<u8>, now: Timestamp) -> (scan: DirScan)
        ensures
            scan.dir() == path@,
            scan.context().now == now,
            scan.context().tempfiles_only,
            !scan.context().in_vary,
            !scan.context().desperate,
            scan.known_headers() == Set::<Seq<u8>>::empty(),
            scan.stats()@ == Tally::zero(),
    {
        let context = ScanContext::native(now, false, false);
        DirScan::new(path, ScanContext { tempfiles_only: true, ..context })
    }

    /// Begins the scan of a directory below this one, in the same context
    /// but for `in_vary`.
    pub fn nested(&self, path: Vec<u8>, in_vary: bool) -> (scan: DirScan)
        ensures
            scan.dir() == path@,
            scan.context() == (ScanContext { in_vary, ..self.context() }),
            scan.known_headers() == Set::<Seq<u8>>::empty(),
            scan.stats()@ == Tally::zero(),
    {
        DirScan::new(path, ScanContext { in_vary, ..self.context })
    }

    /// Whether every counter can take one more, as most steps need.
    pub fn has_room(&self) -> (b: bool)
        ensures
            b == self.stats()@.has_room(),
    {
        self.stats.has_room()
    }

    /// Whether the outcome of a nested scan can be counted, with room for one
    /// more, as [`DirScan::subscan_done`] needs.
    pub fn can_take(&self, result: &Result<Stats, ()>) -> (b: bool)
        ensures
            b == self.stats()@.merged(*result).has_room(),
    {
        match result {
            Ok(nested) => {
                self.stats.deleted < u64::MAX - nested.deleted && self.stats.deleted_folders
                    < u64::MAX - nested.deleted_folders && self.stats.failed < u64::MAX
                    - nested.failed
            },
            Err(_) => {
                self.stats.deleted < u64::MAX && self.stats.deleted_folders < u64::MAX
                    && self.stats.failed < u64::MAX - 1
            },
        }
    }

    /// Takes up the next entry of the directory, by its name.
    ///
    /// A temporary file is looked up to see whether it is old. A header is
    /// noted and loaded. A data file whose header was seen in this directory
    /// is left alone; for another one the header is looked for. A directory of
    /// variants is scanned. Anything else is looked up to see whether it is a
    /// folder. A scan for temporary files leaves everything else alone.
    pub fn entry(&mut self, name: &[u8]) -> (step: Step)
        ensures
            final(self).same_scan(old(self)),
            final(self).stats() == old(self).stats(),
            classify_spec(name@) != EntryClass::Header || old(self).context().tempfiles_only
                ==> final(self).known_headers() == old(self).known_headers(),
            match classify_spec(name@) {
                EntryClass::TempFile => step matches Step::StatFile { seconds }
                    && seconds == TEMPFILE_MAX_AGE,
                _ if old(self).context().tempfiles_only => step is Done,
                EntryClass::Header => {
                    &&& step matches Step::LoadHeader { path }
                    &&& path@ == spec_join(old(self).dir(), name@)
                    &&& final(self).known_headers() == old(self).known_headers().insert(
                        without_suffix(name@, header_suffix().len() as int),
                    )
                },
                EntryClass::Data => if old(self).known_headers().contains(
                    without_suffix(name@, data_suffix().len() as int),
                ) {
                    step is Done
                } else {
                    step matches Step::CheckHeader { header_path } && header_path@ == spec_join(
                        old(self).dir(),
                        without_suffix(name@, data_suffix().len() as int) + header_suffix(),
                    )
                },
                EntryClass::VaryDir => {
                    &&& step matches Step::Recurse { path, in_vary, facts }
                    &&& path@ == spec_join(old(self).dir(), name@)
                    &&& in_vary
                    &&& facts is None
                },
                EntryClass::Other => step is StatEntry,
            },
    {
        match classify(name) {
            EntryClass::TempFile => Step::StatFile { seconds: TEMPFILE_MAX_AGE },
            _ if self.context.tempfiles_only => Step::Done,
            EntryClass::Header => {
                let stem = slice_subrange(name, 0, name.len() - 7);
                self.known_headers.insert(vstd::slice::slice_to_vec(stem));
                Step::LoadHeader { path: join(self.dir.as_slice(), name) }
            },
            EntryClass::Data => {
                let stem = slice_subrange(name, 0, name.len() - 5);
                if self.known_headers.contains(stem) {
                    Step::Done
                } else {
                    let suffix = header_suffix_bytes();
                    let header_name = replace_suffix(name, 5, suffix.as_slice());
                    Step::CheckHeader {
                        header_path: join(self.dir.as_slice(), header_name.as_slice()),
                    }
                }
            },
            EntryClass::VaryDir => Step::Recurse {
                path: join(self.dir.as_slice(), name),
                in_vary: true,
                facts: None,
            },
            EntryClass::Other => Step::StatEntry,
        }
    }

    /// Takes what the filesystem says about a file that may be too old;
    /// `None` if it could not be looked up, which counts as a failure.
    pub fn file_facts(&mut self, facts: Option<FileFacts>, seconds: u64) -> (step: Step)
        requires
            old(self).stats()@.has_room(),
        ensures
            match facts {
                None => step is Done && final(self).counted(
                    old(self),
                    old(self).stats()@.plus_failed(),
                ),
                Some(f) => match file_verdict(f, old(self).context().now, seconds) {
                    Verdict::Keep => step is Done && final(self).unchanged(old(self)),
                    Verdict::Remove => step is RemoveFile && final(self).unchanged(old(self)),
                    Verdict::Fail => step is Done && final(self).counted(
                        old(self),
                        old(self).stats()@.plus_failed(),
                    ),
                },
            },
    {
        match facts {
            None => {
                self.stats.add_failed();
                Step::Done
            },
            Some(f) => match delete_file_if_not_recent(&f, &self.context.now, seconds) {
                Verdict::Keep => Step::Done,
                Verdict::Remove => Step::RemoveFile,
                Verdict::Fail => {
                    self.stats.add_failed();
                    Step::Done
                },
            },
        }
    }

    /// Takes whether the file was removed: a deletion if so, else a failure.
    pub fn file_removed(&mut self, removed: bool) -> (step: Step)
        requires
            old(self).stats()@.has_room(),
        ensures
            step is Done,
            final(self).counted(
                old(self),
                old(self).stats()@.counted(
                    if removed {
                        Ok::<bool, ()>(true)
                    } else {
                        Err::<bool, ()>(())
                    },
                ),
            ),
    {
        let outcome: Result<bool, ()> = if removed {
            Ok(true)
        } else {
            Err(())
        };
        self.stats.count(outcome);
        Step::Done
    }

    /// Takes the times and the leading bytes of the header file at `path`;
    /// `None` if it could not be looked up or read.
    ///
    /// A header that cannot be made into an entry counts as a failure. The
    /// header of a directory of variants that does not itself lie below one
    /// has its data file removed. Every other entry goes to the queue.
    pub fn header_loaded(&mut self, path: Vec<u8>, loaded: Option<LoadedHeader>) -> (step: Step)
        requires
            old(self).stats()@.has_room(),
        ensures
            match loaded_entry(path@, loaded, old(self).context().abi) {
                None => step is Done && final(self).counted(
                    old(self),
                    old(self).stats()@.plus_failed(),
                ),
                Some(view) => {
                    &&& final(self).unchanged(old(self))
                    &&& if !old(self).context().in_vary && view.format == Format::Vary {
                        &&& step matches Step::RemoveData { info, data_path }
                        &&& info@ == view
                        &&& data_path@ == spec_data_path(path@)
                    } else {
                        step matches Step::Send { info } && info@ == view
                    }
                },
            },
    {
        let suffix = header_suffix_bytes();
        let built = match loaded {
            Some(l) => {
                if has_suffix(path.as_slice(), suffix.as_slice()) {
                    match CacheFileInfo::new(
                        path,
                        l.modified,
                        l.accessed,
                        l.prefix.as_slice(),
                        &self.context.abi,
                    ) {
                        Ok(info) => Some(info),
                        Err(_) => None,
                    }
                } else {
                    None
                }
            },
            None => None,
        };
        match built {
            None => {
                self.stats.add_failed();
                Step::Done
            },
            Some(info) => {
                if !self.context.in_vary && info.is_vary() {
                    let data_path = info.data_path();
                    Step::RemoveData { info, data_path }
                } else {
                    Step::Send { info }
                }
            },
        }
    }

    /// Takes whether the data file beside the header of a directory of
    /// variants was removed, which counts as a deletion if so.
    ///
    /// A desperate scan sends the entry to the queue. Any other looks at the
    /// directory of variants first.
    pub fn data_removed(&mut self, info: CacheFileInfo, removed: bool) -> (step: Step)
        requires
            old(self).stats()@.has_room(),
        ensures
            final(self).counted(old(self), old(self).stats()@.counted(Ok::<bool, ()>(removed))),
            if old(self).context().desperate {
                step matches Step::Send { info: sent } && sent@ == info@
            } else {
                &&& step matches Step::StatVaryDir { info: kept, vary_path }
                &&& kept@ == info@
                &&& vary_path@ == spec_vary_path(info@.header_path)
            },
    {
        let outcome: Result<bool, ()> = Ok(removed);
        self.stats.count(outcome);
        if self.context.desperate {
            Step::Send { info }
        } else {
            let vary_path = info.vary_path();
            Step::StatVaryDir { info, vary_path }
        }
    }

    /// Takes what lies at the path of the directory of variants of `info`;
    /// `None` if nothing lies there or it could not be looked up.
    ///
    /// A directory with more than two links has subfolders: its header stays
    /// out of the queue. Otherwise the entry goes to the queue.
    pub fn vary_facts(&self, info: CacheFileInfo, facts: Option<FileFacts>) -> (step: Step)
        ensures
            if facts matches Some(f) && f.kind == FileKind::Directory && f.nlink
                > LINKS_OF_EMPTY_FOLDER {
                step is Done
            } else {
                step matches Step::Send { info: sent } && sent@ == info@
            },
    {
        match facts {
            Some(f) => {
                match f.kind {
                    FileKind::Directory => {
                        if f.nlink > LINKS_OF_EMPTY_FOLDER {
                            return Step::Done;
                        }
                    },
                    _ => {},
                }
            },
            None => {},
        }
        Step::Send { info }
    }

    /// Takes whether the header of a data file exists. A data file without a
    /// header is looked up to see whether it is old.
    pub fn header_exists(&self, found: bool) -> (step: Step)
        ensures
            if found {
                step is Done
            } else {
                step matches Step::StatFile { seconds } && seconds == ORPHAN_MAX_AGE
            },
    {
        if found {
            Step::Done
        } else {
            Step::StatFile { seconds: ORPHAN_MAX_AGE }
        }
    }

    /// Takes what the filesystem says about the entry `name`, which is
    /// neither file of the cache nor directory of variants; `None` if it
    /// could not be looked up. A directory is scanned; anything else is left
    /// alone.
    pub fn entry_facts(&self, name: &[u8], facts: Option<FileFacts>) -> (step: Step)
        ensures
            if facts matches Some(f) && f.kind == FileKind::Directory {
                &&& step matches Step::Recurse { path, in_vary, facts: known }
                &&& path@ == spec_join(self.dir(), name@)
                &&& in_vary == self.context().in_vary
                &&& known == facts
            } else {
                step is Done
            },
    {
        match facts {
            Some(f) => {
                match f.kind {
                    FileKind::Directory => Step::Recurse {
                        path: join(self.dir.as_slice(), name),
                        in_vary: self.context.in_vary,
                        facts: Some(f),
                    },
                    _ => Step::Done,
                }
            },
            None => Step::Done,
        }
    }

    /// The tally after the scan of a subfolder: its counts are merged in, or
    /// one failure is counted if it did not complete; and where the facts
    /// about the folder are known and do not tell its age, that is one more
    /// failure.
    pub open spec fn after_subscan(
        tally: Tally,
        result: Result<Stats, ()>,
        facts: Option<FileFacts>,
        now: Timestamp,
    ) -> Tally {
        if facts matches Some(f) && folder_verdict(f, now, FOLDER_MAX_AGE) == Verdict::Fail {
            tally.merged(result).plus_failed()
        } else {
            tally.merged(result)
        }
    }

    /// Takes the outcome of the scan of a subfolder, and what was known of
    /// the folder before.
    ///
    /// The counts are merged. Then the folder is removed if it is empty and
    /// old: by the facts that were known before the scan, or else it is
    /// looked up now.
    pub fn subscan_done(&mut self, result: Result<Stats, ()>, facts: Option<FileFacts>) -> (step:
        Step)
        requires
            old(self).stats()@.merged(result).has_room(),
        ensures
            final(self).counted(
                old(self),
                Self::after_subscan(old(self).stats()@, result, facts, old(self).context().now),
            ),
            match facts {
                None => step is StatFolder,
                Some(f) => match folder_verdict(f, old(self).context().now, FOLDER_MAX_AGE) {
                    Verdict::Remove => step is RemoveFolder,
                    _ => step is Done,
                },
            },
    {
        self.stats.merge_result(result);
        match facts {
            None => Step::StatFolder,
            Some(f) => match delete_folder_if_not_recent(&f, &self.context.now, FOLDER_MAX_AGE) {
                Verdict::Keep => Step::Done,
                Verdict::Remove => Step::RemoveFolder,
                Verdict::Fail => {
                    self.stats.add_failed();
                    Step::Done
                },
            },
        }
    }

    /// Takes what the filesystem says about a folder that may be empty and
    /// old; `None` if it could not be looked up, which counts as a failure.
    pub fn folder_facts(&mut self, facts: Option<FileFacts>) -> (step: Step)
        requires
            old(self).stats()@.has_room(),
        ensures
            match facts {
                None => step is Done && final(self).counted(
                    old(self),
                    old(self).stats()@.plus_failed(),
                ),
                Some(f) => match folder_verdict(f, old(self).context().now, FOLDER_MAX_AGE) {
                    Verdict::Keep => step is Done && final(self).unchanged(old(self)),
                    Verdict::Remove => step is RemoveFolder && final(self).unchanged(old(self)),
                    Verdict::Fail => step is Done && final(self).counted(
                        old(self),
                        old(self).stats()@.plus_failed(),
                    ),
                },
            },
    {
        match facts {
            None => {
                self.stats.add_failed();
                Step::Done
            },
            Some(f) => match delete_folder_if_not_recent(&f, &self.context.now, FOLDER_MAX_AGE) {
                Verdict::Keep => Step::Done,
                Verdict::Remove => Step::RemoveFolder,
                Verdict::Fail => {
                    self.stats.add_failed();
                    Step::Done
                },
            },
        }
    }

    /// Takes what came of the attempt to remove a folder: a folder that is
    /// gone counts as a deleted folder, one that was not empty after all as
    /// nothing, any other failure as a failure.
    pub fn folder_removed(&mut self, outcome: RemoveOutcome) -> (step: Step)
        requires
            old(self).stats()@.has_room(),
        ensures
            step is Done,
            final(self).counted(
                old(self),
                old(self).stats()@.counted_folder(
                    folder_removal_result(outcome, old(self).context().not_empty_errno),
                ),
            ),
    {
        self.stats.count_folder(judge_folder_removal(outcome, self.context.not_empty_errno));
        Step::Done
    }

    /// Whether the caller is to let other work run before it goes on: after
    /// every directory that does not lie below a directory of variants.
    pub fn yields_after(&self) -> (b: bool)
        ensures
            b == !self.context().in_vary,
    {
        !self.context.in_vary
    }

    /// Ends the scan of the directory: what was deleted and what failed.
    pub fn finish(self) -> (stats: Stats)
        ensures
            stats == self.stats(),
    {
        self.stats
    }
}

/// Begins the scan of one folder of the cache in the context of this machine.
///
/// If `desperate` is true, the headers of directories of variants are not
/// protected.
pub fn scan_folder(path: Vec<u8>, now: Timestamp, in_vary: bool, desperate: bool) -> (scan:
    DirScan)
    ensures
        scan.dir() == path@,
        scan.context().now == now,
        scan.context().in_vary == in_vary,
        scan.context().desperate == desperate,
        !scan.context().tempfiles_only,
        scan.known_headers() == Set::<Seq<u8>>::empty(),
        scan.stats()@ == Tally::zero(),
{
    DirScan::new(path, ScanContext::native(now, in_vary, desperate))
}

/// Begins the scan of one of the folders at the root of the cache.
///
/// The scan is desperate if the usage is over 105 % of the limits.
pub fn process_folder(path: Vec<u8>, usage: &Usage, now: Timestamp) -> (scan: DirScan)
    ensures
        scan.dir() == path@,
        scan.context().now == now,
        !scan.context().in_vary,
        scan.context().desperate == usage.above(crate::usage::DESPERATE_ABOVE as nat),
        !scan.context().tempfiles_only,
        scan.known_headers() == Set::<Seq<u8>>::empty(),
        scan.stats()@ == Tally::zero(),
{
    scan_folder(path, now, false, usage.is_desperate())
}

} // verus!
