//! A cache entry as the janitor sees it: where its header lies, what the
//! header says, and when the file was last written and read.

use crate::apache_cache::{parse_with, spec_parse, Abi, Format, Header, HeaderError};
use crate::order::TotalOrder;
use crate::paths::{
    ends_with, is_lex_le, lemma_lex_le_antisymmetric, lemma_lex_le_total,
    lemma_lex_le_transitive, lex_le, replace_suffix, without_suffix,
};
use crate::timestamp::Timestamp;
use vstd::prelude::*;

verus! {

/// Suffix of the name of a header file: `.header`.
pub open spec fn header_suffix() -> Seq<u8> {
    seq!['.' as u8, 'h' as u8, 'e' as u8, 'a' as u8, 'd' as u8, 'e' as u8, 'r' as u8]
}

/// Suffix of the name of a data file: `.data`.
pub open spec fn data_suffix() -> Seq<u8> {
    seq!['.' as u8, 'd' as u8, 'a' as u8, 't' as u8, 'a' as u8]
}

/// Suffix of the name of a directory of variants: `.vary`.
pub open spec fn vdir_suffix() -> Seq<u8> {
    seq!['.' as u8, 'v' as u8, 'a' as u8, 'r' as u8, 'y' as u8]
}

/// Suffix of the directory of variants that belongs to a header: `.header.vary`.
pub open spec fn header_vdir_suffix() -> Seq<u8> {
    header_suffix() + vdir_suffix()
}

/// The bytes of [`header_suffix`].
pub fn header_suffix_bytes() -> (b: [u8; 7])
    ensures
        b@ == header_suffix(),
{
    let b = ['.' as u8, 'h' as u8, 'e' as u8, 'a' as u8, 'd' as u8, 'e' as u8, 'r' as u8];
    assert(b@ =~= header_suffix());
    b
}

/// The bytes of [`data_suffix`].
pub fn data_suffix_bytes() -> (b: [u8; 5])
    ensures
        b@ == data_suffix(),
{
    let b = ['.' as u8, 'd' as u8, 'a' as u8, 't' as u8, 'a' as u8];
    assert(b@ =~= data_suffix());
    b
}

/// The bytes of [`vdir_suffix`].
pub fn vdir_suffix_bytes() -> (b: [u8; 5])
    ensures
        b@ == vdir_suffix(),
{
    let b = ['.' as u8, 'v' as u8, 'a' as u8, 'r' as u8, 'y' as u8];
    assert(b@ =~= vdir_suffix());
    b
}

/// The bytes of [`header_vdir_suffix`].
pub fn header_vdir_suffix_bytes() -> (b: [u8; 12])
    ensures
        b@ == header_vdir_suffix(),
{
    let b = [
        '.' as u8,
        'h' as u8,
        'e' as u8,
        'a' as u8,
        'd' as u8,
        'e' as u8,
        'r' as u8,
        '.' as u8,
        'v' as u8,
        'a' as u8,
        'r' as u8,
        'y' as u8,
    ];
    assert(b@ =~= header_vdir_suffix());
    b
}

/// The path of the data file that belongs to the header at `header_path`: the
/// same stem with the suffix `.data`.
pub open spec fn spec_data_path(header_path: Seq<u8>) -> Seq<u8> {
    without_suffix(header_path, header_suffix().len() as int) + data_suffix()
}

/// The path of the directory of variants that belongs to the header at
/// `header_path`: the same stem with the suffix `.header.vary`.
pub open spec fn spec_vary_path(header_path: Seq<u8>) -> Seq<u8> {
    without_suffix(header_path, header_suffix().len() as int) + header_vdir_suffix()
}

/// Mathematical value of a [`CacheFileInfo`]; times in nanoseconds since the
/// Unix epoch.
pub struct CacheFileView {
    pub header_path: Seq<u8>,
    pub format: Format,
    pub expiry: int,
    pub modified: int,
    pub accessed: int,
}

impl CacheFileView {
    /// The later of expiry and last write: the first key of the eviction order.
    pub open spec fn valid_until(self) -> int {
        if self.expiry >= self.modified {
            self.expiry
        } else {
            self.modified
        }
    }

    /// The later of last read and last write: the second key of the eviction
    /// order.
    pub open spec fn last_touched(self) -> int {
        if self.accessed >= self.modified {
            self.accessed
        } else {
            self.modified
        }
    }

    /// The eviction order: by [`Self::valid_until`], then by
    /// [`Self::last_touched`], then by last write, then by the path of the
    /// header in lexicographic order. What comes first is evicted first.
    pub open spec fn le(self, other: CacheFileView) -> bool {
        if self.valid_until() != other.valid_until() {
            self.valid_until() < other.valid_until()
        } else if self.last_touched() != other.last_touched() {
            self.last_touched() < other.last_touched()
        } else if self.modified != other.modified {
            self.modified < other.modified
        } else {
            lex_le(self.header_path, other.header_path)
        }
    }
}

/// Basic information about a cache file entry.
#[derive(Debug, PartialEq, Eq)]
pub struct CacheFileInfo {
    header_path: Vec<u8>,
    header_info: Header,
    modified: Timestamp,
    accessed: Timestamp,
}

impl View for CacheFileInfo {
    type V = CacheFileView;

    closed spec fn view(&self) -> CacheFileView {
        CacheFileView {
            header_path: self.header_path@,
            format: self.header_info.format,
            expiry: self.header_info.expiry@,
            modified: self.modified@,
            accessed: self.accessed@,
        }
    }
}

/// What [`CacheFileInfo::new`] returns for the given path, file times and
/// header bytes: the decoded header with the times, where a missing time of
/// last read is replaced by the time of last write.
pub open spec fn spec_new(
    header_path: Seq<u8>,
    modified: int,
    accessed: Option<int>,
    header_bytes: Seq<u8>,
    abi: Abi,
) -> Result<CacheFileView, HeaderError> {
    match spec_parse(header_bytes, abi) {
        Ok(header) => Ok(
            CacheFileView {
                header_path,
                format: header.format,
                expiry: header.expiry,
                modified,
                accessed: match accessed {
                    Some(a) => a,
                    None => modified,
                },
            },
        ),
        Err(e) => Err(e),
    }
}

/// The view of an optional timestamp.
pub open spec fn opt_view(t: Option<Timestamp>) -> Option<int> {
    match t {
        Some(t) => Some(t@),
        None => None,
    }
}

impl CacheFileInfo {
    #[verifier::type_invariant]
    spec fn names_a_header(self) -> bool {
        ends_with(self.header_path@, header_suffix())
    }

    /// Builds the entry for the header file at `header_path` from the times of
    /// the file and the leading bytes of its content.
    pub fn new(
        header_path: Vec<u8>,
        modified: Timestamp,
        accessed: Option<Timestamp>,
        header_bytes: &[u8],
        abi: &Abi,
    ) -> (r: Result<CacheFileInfo, HeaderError>)
        requires
            ends_with(header_path@, header_suffix()),
        ensures
            match r {
                Ok(info) => spec_new(
                    header_path@,
                    modified@,
                    opt_view(accessed),
                    header_bytes@,
                    *abi,
                ) == Ok::<CacheFileView, HeaderError>(info@),
                Err(e) => spec_new(header_path@, modified@, opt_view(accessed), header_bytes@, *abi)
                    == Err::<CacheFileView, HeaderError>(e),
            },
    {
        let accessed = match accessed {
            Some(a) => a,
            None => modified,
        };
        match parse_with(header_bytes, abi) {
            Ok(header_info) => Ok(CacheFileInfo { header_path, header_info, modified, accessed }),
            Err(e) => Err(e),
        }
    }

    /// Path to the `.header` file, which ends with `.header`.
    pub fn header_path(&self) -> (path: &Vec<u8>)
        ensures
            path@ == self@.header_path,
            ends_with(path@, header_suffix()),
    {
        proof {
            use_type_invariant(self);
        }
        &self.header_path
    }

    /// Path to the associated `.data` file.
    pub fn data_path(&self) -> (path: Vec<u8>)
        ensures
            path@ == spec_data_path(self@.header_path),
    {
        proof {
            use_type_invariant(self);
        }
        let suffix = data_suffix_bytes();
        replace_suffix(self.header_path.as_slice(), 7, suffix.as_slice())
    }

    /// Path to the associated `.header.vary` directory.
    pub fn vary_path(&self) -> (path: Vec<u8>)
        ensures
            path@ == spec_vary_path(self@.header_path),
    {
        proof {
            use_type_invariant(self);
        }
        let suffix = header_vdir_suffix_bytes();
        replace_suffix(self.header_path.as_slice(), 7, suffix.as_slice())
    }

    /// The time at which the entry expires.
    pub fn expires(&self) -> (t: &Timestamp)
        ensures
            t@ == self@.expiry,
    {
        &self.header_info.expiry
    }

    /// The time of the last write to the header file.
    pub fn modified(&self) -> (t: &Timestamp)
        ensures
            t@ == self@.modified,
    {
        &self.modified
    }

    /// The time of the last read of the header file.
    pub fn accessed(&self) -> (t: &Timestamp)
        ensures
            t@ == self@.accessed,
    {
        &self.accessed
    }

    /// Whether the header points to a directory of variants.
    pub fn is_vary(&self) -> (b: bool)
        ensures
            b == (self@.format == Format::Vary),
    {
        match self.header_info.format {
            Format::Vary => true,
            Format::Disk => false,
        }
    }
}

impl Clone for CacheFileInfo {
    fn clone(&self) -> (copy: CacheFileInfo)
        ensures
            copy@ == self@,
    {
        proof {
            use_type_invariant(self);
        }
        CacheFileInfo {
            header_path: self.header_path.clone(),
            header_info: self.header_info,
            modified: self.modified,
            accessed: self.accessed,
        }
    }
}

impl TotalOrder for CacheFileInfo {
    /// Chronological order for deciding what leaves the cache first, see
    /// [`CacheFileView::le`].
    open spec fn le(&self, other: &CacheFileInfo) -> bool {
        self@.le(other@)
    }

    proof fn le_total(a: &CacheFileInfo, b: &CacheFileInfo) {
        lemma_eviction_order_total(a@, b@);
    }

    proof fn le_transitive(a: &CacheFileInfo, b: &CacheFileInfo, c: &CacheFileInfo) {
        lemma_eviction_order_transitive(a@, b@, c@);
    }

    fn is_le(&self, other: &CacheFileInfo) -> (r: bool) {
        let until_a = self.header_info.expiry.max(self.modified);
        let until_b = other.header_info.expiry.max(other.modified);
        if !until_a.is_same(&until_b) {
            return until_a.is_before(&until_b);
        }
        let touched_a = self.accessed.max(self.modified);
        let touched_b = other.accessed.max(other.modified);
        if !touched_a.is_same(&touched_b) {
            return touched_a.is_before(&touched_b);
        }
        if !self.modified.is_same(&other.modified) {
            return self.modified.is_before(&other.modified);
        }
        is_lex_le(self.header_path.as_slice(), other.header_path.as_slice())
    }
}

/// The eviction order is total: of two entries one comes no later than the
/// other.
pub proof fn lemma_eviction_order_total(a: CacheFileView, b: CacheFileView)
    ensures
        a.le(b) || b.le(a),
{
    lemma_lex_le_total(a.header_path, b.header_path);
}

/// The eviction order is transitive.
pub proof fn lemma_eviction_order_transitive(a: CacheFileView, b: CacheFileView, c: CacheFileView)
    requires
        a.le(b),
        b.le(c),
    ensures
        a.le(c),
{
    if a.valid_until() == b.valid_until() && b.valid_until() == c.valid_until()
        && a.last_touched() == b.last_touched() && b.last_touched() == c.last_touched()
        && a.modified == b.modified && b.modified == c.modified {
        lemma_lex_le_transitive(a.header_path, b.header_path, c.header_path);
    }
}

/// The path breaks every tie: two entries that come no later than each other
/// have the same keys and the same path.
pub proof fn lemma_eviction_order_ties(a: CacheFileView, b: CacheFileView)
    requires
        a.le(b),
        b.le(a),
    ensures
        a.valid_until() == b.valid_until(),
        a.last_touched() == b.last_touched(),
        a.modified == b.modified,
        a.header_path == b.header_path,
{
    lemma_lex_le_antisymmetric(a.header_path, b.header_path);
}

} // verus!
