//! How many workers a cleanup run uses: a fixed number, or as many as suit
//! the machine.

use crate::decimal::{parse_integer, push_digits, digits_of, spec_parse_integer};
use crate::size_spec::{chars_of, codes_of};
use vstd::prelude::*;
use vstd::string::{StrSliceExecFns, StringExecFns};

verus! {

/// Representation for a job count specification. A fixed count is positive.
#[derive(Copy, Clone, Debug, PartialEq, Eq, Structural)]
pub enum JobCount {
    Auto,
    Fixed(usize),
}

impl Default for JobCount {
    fn default() -> (count: JobCount)
        ensures
            count == JobCount::Auto,
    {
        JobCount::Auto
    }
}

/// Error type for parsing a `JobCount`: the text is neither `auto` nor a
/// positive whole number that fits.
#[derive(Copy, Clone, Debug, PartialEq, Eq, Structural)]
pub struct ParseJobCountError;

/// `s` is the word `auto`, in upper or lower case.
pub open spec fn is_auto(s: Seq<char>) -> bool {
    &&& s.len() == 4
    &&& (s[0] == 'a' || s[0] == 'A')
    &&& (s[1] == 'u' || s[1] == 'U')
    &&& (s[2] == 't' || s[2] == 'T')
    &&& (s[3] == 'o' || s[3] == 'O')
}

/// The job count that the text `s` denotes: `auto` in any case, or a
/// positive whole number that a `usize` holds.
pub open spec fn spec_parse(s: Seq<char>) -> Result<JobCount, ParseJobCountError> {
    if is_auto(s) {
        Ok(JobCount::Auto)
    } else {
        match codes_of(s) {
            Some(codes) => match spec_parse_integer(codes) {
                Some(n) => if 0 < n <= usize::MAX {
                    Ok(JobCount::Fixed(n as usize))
                } else {
                    Err(ParseJobCountError)
                },
                None => Err(ParseJobCountError),
            },
            None => Err(ParseJobCountError),
        }
    }
}

/// The number of jobs for a machine with `cpus` processors: half of them,
/// and one at least.
pub open spec fn spec_default_jobs(cpus: usize) -> usize {
    if cpus / 2 >= 1 {
        cpus / 2
    } else {
        1
    }
}

/// The number of jobs for a machine with `cpus` processors, see
/// [`spec_default_jobs`].
pub fn default_jobs(cpus: usize) -> (jobs: usize)
    ensures
        jobs == spec_default_jobs(cpus),
        jobs >= 1,
{
    let half = cpus / 2;
    if half >= 1 {
        half
    } else {
        1
    }
}

/// Calls `num_cpus::get`: the number of processors that this process can
/// use, which depends on the machine; nothing is claimed of it.
#[verifier::external_body]
fn cpu_count() -> usize {
    num_cpus::get()
}

/// The number of jobs that suits this machine: half of its processors, and
/// one at least.
pub fn auto_jobs() -> (jobs: usize)
    ensures
        jobs >= 1,
{
    default_jobs(cpu_count())
}

impl JobCount {
    /// Returns the fixed job count or computes the `auto` job count from the
    /// closure.
    pub fn unwrap_or_else<F: FnOnce() -> usize>(self, f: F) -> (jobs: usize)
        requires
            self is Auto ==> f.requires(()),
        ensures
            match self {
                JobCount::Auto => f.ensures((), jobs),
                JobCount::Fixed(n) => jobs == n,
            },
    {
        match self {
            JobCount::Auto => f(),
            JobCount::Fixed(n) => n,
        }
    }

    /// Returns the fixed job count, or the count that suits this machine.
    pub fn resolve(self) -> (jobs: usize)
        ensures
            self matches JobCount::Fixed(n) ==> jobs == n,
            self is Auto ==> jobs >= 1,
    {
        match self {
            JobCount::Auto => auto_jobs(),
            JobCount::Fixed(n) => n,
        }
    }

    /// Reads a job count, see [`spec_parse`].
    pub fn parse(s: &str) -> (r: Result<JobCount, ParseJobCountError>)
        ensures
            r == spec_parse(s@),
            r matches Ok(JobCount::Fixed(n)) ==> n > 0,
    {
        let len = s.unicode_len();
        if len == 4 {
            let a = s.get_char(0);
            let u = s.get_char(1);
            let t = s.get_char(2);
            let o = s.get_char(3);
            if (a == 'a' || a == 'A') && (u == 'u' || u == 'U') && (t == 't' || t == 'T') && (o
                == 'o' || o == 'O') {
                return Ok(JobCount::Auto);
            }
        }
        if !s.is_ascii() {
            return Err(ParseJobCountError);
        }
        let bytes = s.as_bytes();
        proof {
            vstd::string::is_ascii_spec_bytes(s);
            assert(codes_of(s@)->Some_0 =~= bytes@);
        }
        match parse_integer(bytes) {
            Some(n) => {
                if n == 0 || n > usize::MAX as u64 {
                    Err(ParseJobCountError)
                } else {
                    Ok(JobCount::Fixed(n as usize))
                }
            },
            None => Err(ParseJobCountError),
        }
    }

    /// The text of the job count: `auto`, or the digits of the number.
    pub open spec fn spec_display(self) -> Seq<char> {
        match self {
            JobCount::Auto => seq!['a', 'u', 't', 'o'],
            JobCount::Fixed(n) => chars_of(digits_of(n as nat)),
        }
    }

    /// The text of the job count, see [`JobCount::spec_display`].
    pub fn to_string(&self) -> (text: String)
        ensures
            text@ == self.spec_display(),
    {
        match self {
            JobCount::Auto => {
                proof {
                    reveal_strlit("auto");
                }
                let text = String::from_str("auto");
                assert(text@ =~= seq!['a', 'u', 't', 'o']);
                text
            },
            JobCount::Fixed(n) => {
                let mut codes: Vec<u8> = Vec::new();
                push_digits(&mut codes, *n as u64);
                proof {
                    crate::decimal::lemma_digits_of(*n as nat);
                    assert(codes@ =~= digits_of(*n as nat));
                }
                crate::size_spec::text_to_string(&codes)
            },
        }
    }
}

impl core::str::FromStr for JobCount {
    type Err = ParseJobCountError;

    fn from_str(s: &str) -> (r: Result<JobCount, ParseJobCountError>)
        ensures
            r == spec_parse(s@),
    {
        JobCount::parse(s)
    }
}

} // verus!
