//! Decoding of the fixed prefix of a cache header file.
//!
//! The server writes the header in the byte order and with the integer widths
//! of the machine it runs on, so the decoder takes both as an [`Abi`].

use crate::timestamp::Timestamp;
use vstd::prelude::*;

verus! {

/// Number of bytes of the format tag at the start of a header file.
pub const TAG_LEN: usize = 4;

/// Number of bytes of the expiry time.
pub const EXPIRY_LEN: usize = 8;

/// Format tag of a header that points to a directory of variants.
pub const VARY_FORMAT_VERSION: u32 = 5;

/// Format tag of a header that describes a stored response.
pub const DISK_FORMAT_VERSION: u32 = 6;

/// The two kinds of header file.
#[derive(Debug, PartialEq, Eq, Structural, Clone, Copy)]
pub enum Format {
    Vary,
    Disk,
}

/// Error for a format tag that is not known.
#[derive(Debug, Clone, Copy, PartialEq, Eq, Structural)]
pub struct FormatError(pub u32);

/// The format for a tag, or the tag itself as an error.
pub open spec fn format_of_tag(tag: u32) -> Result<Format, FormatError> {
    if tag == VARY_FORMAT_VERSION {
        Ok(Format::Vary)
    } else if tag == DISK_FORMAT_VERSION {
        Ok(Format::Disk)
    } else {
        Err(FormatError(tag))
    }
}

impl TryFrom<u32> for Format {
    type Error = FormatError;

    fn try_from(value: u32) -> (r: Result<Format, FormatError>)
        ensures
            r == format_of_tag(value),
    {
        if value == VARY_FORMAT_VERSION {
            Ok(Format::Vary)
        } else if value == DISK_FORMAT_VERSION {
            Ok(Format::Disk)
        } else {
            Err(FormatError(value))
        }
    }
}

impl vstd::std_specs::convert::TryFromSpecImpl<u32> for Format {
    open spec fn obeys_try_from_spec() -> bool {
        true
    }

    open spec fn try_from_spec(v: u32) -> Result<Format, FormatError> {
        format_of_tag(v)
    }
}

/// Why a header prefix could not be decoded.
#[derive(Debug, Clone, Copy, PartialEq, Eq, Structural)]
pub enum HeaderError {
    /// The bytes end before the field that was to be read.
    UnexpectedEof,
    /// The format tag is not known.
    InvalidData(FormatError),
}

/// Byte order and integer widths of the machine that wrote the header.
#[derive(Debug, Clone, Copy, PartialEq, Eq, Structural)]
pub struct Abi {
    /// Whether the least significant byte of an integer comes first.
    pub little_endian: bool,
    /// Size in bytes of C's `int`.
    pub c_int_size: usize,
    /// Size in bytes of a pointer, and of C's `size_t`.
    pub pointer_size: usize,
}

impl Abi {
    /// Number of bytes that follow the tag in a header of format `Disk`: an
    /// `int`, two `size_t` and two eight-byte values, of which the last is the
    /// expiry time.
    pub open spec fn disk_payload_len(self) -> int {
        self.c_int_size + 2 * self.pointer_size + 16
    }

    /// Number of bytes that follow the tag in a header of the given format.
    pub open spec fn payload_len(self, format: Format) -> int {
        match format {
            Format::Vary => EXPIRY_LEN as int,
            Format::Disk => self.disk_payload_len(),
        }
    }

    /// The byte order and integer widths of this machine.
    pub fn native() -> (abi: Abi)
        ensures
            abi.pointer_size == vstd::layout::size_of::<usize>(),
    {
        let probe: [u8; 2] = [1, 0];
        Abi {
            little_endian: native_u16(probe) == 1,
            c_int_size: c_int_size(),
            pointer_size: core::mem::size_of::<usize>(),
        }
    }

    /// Number of bytes of the payload of a `Disk` header, if a slice can be that
    /// long.
    pub fn checked_disk_payload_len(&self) -> (len: Option<usize>)
        ensures
            len == if self.disk_payload_len() <= usize::MAX {
                Some(self.disk_payload_len() as usize)
            } else {
                None::<usize>
            },
    {
        let pointers = match self.pointer_size.checked_mul(2) {
            Some(p) => p,
            None => {
                return None;
            },
        };
        let fields = match self.c_int_size.checked_add(pointers) {
            Some(f) => f,
            None => {
                return None;
            },
        };
        fields.checked_add(16)
    }

    /// Number of leading bytes of a header file that suffice to decode either
    /// format, if a slice can be that long.
    pub fn prefix_len(&self) -> (len: Option<usize>)
        ensures
            len == if TAG_LEN + self.disk_payload_len() <= usize::MAX {
                Some((TAG_LEN + self.disk_payload_len()) as usize)
            } else {
                None::<usize>
            },
    {
        match self.checked_disk_payload_len() {
            Some(payload) => payload.checked_add(TAG_LEN),
            None => None,
        }
    }
}

/// Calls `u16::from_ne_bytes`: the two bytes read as one integer in the byte
/// order of this machine, which is either the little-endian or the big-endian
/// reading.
#[verifier::external_body]
fn native_u16(bytes: [u8; 2]) -> (value: u16)
    ensures
        value == bytes[0] + 256 * bytes[1] || value == 256 * bytes[0] + bytes[1],
{
    u16::from_ne_bytes(bytes)
}

/// Size in bytes of `libc::c_int`, which differs between machines; nothing is
/// claimed of it.
#[verifier::external_body]
fn c_int_size() -> usize {
    core::mem::size_of::<libc::c_int>()
}

/// Basic header file information. Its view keeps the format and gives the
/// expiry time in nanoseconds since the Unix epoch.
#[derive(Debug, PartialEq, Eq, Clone, Copy)]
pub struct Header {
    pub format: Format,
    pub expiry: Timestamp,
}

/// Mathematical value of a [`Header`].
pub struct HeaderView {
    pub format: Format,
    pub expiry: int,
}

impl View for Header {
    type V = HeaderView;

    open spec fn view(&self) -> HeaderView {
        HeaderView { format: self.format, expiry: self.expiry@ }
    }
}

/// The unsigned integer that `bytes` hold in the given byte order.
pub open spec fn unsigned(bytes: Seq<u8>, little_endian: bool) -> nat
    decreases bytes.len(),
{
    if bytes.len() == 0 {
        0
    } else if little_endian {
        bytes[0] as nat + 256 * unsigned(bytes.drop_first(), true)
    } else {
        bytes.last() as nat + 256 * unsigned(bytes.drop_last(), false)
    }
}

/// 256 to the power of `n`.
pub open spec fn radix(n: nat) -> nat
    decreases n,
{
    if n == 0 {
        1
    } else {
        256 * radix((n - 1) as nat)
    }
}

/// An integer of `n` bytes is below 256 to the power of `n`.
pub proof fn lemma_unsigned_bound(bytes: Seq<u8>, little_endian: bool)
    ensures
        unsigned(bytes, little_endian) < radix(bytes.len()),
    decreases bytes.len(),
{
    if bytes.len() > 0 {
        if little_endian {
            lemma_unsigned_bound(bytes.drop_first(), true);
        } else {
            lemma_unsigned_bound(bytes.drop_last(), false);
        }
    }
}

/// Eight bytes hold a `u64`.
pub proof fn lemma_radix_values()
    ensures
        radix(4) == 0x1_0000_0000,
        radix(8) == 0x1_0000_0000_0000_0000,
{
    assert(radix(0) == 1);
    assert(radix(1) == 0x100);
    assert(radix(2) == 0x1_0000);
    assert(radix(3) == 0x100_0000);
    assert(radix(4) == 0x1_0000_0000);
    assert(radix(5) == 0x100_0000_0000);
    assert(radix(6) == 0x1_0000_0000_0000);
    assert(radix(7) == 0x100_0000_0000_0000);
    assert(radix(8) == 0x1_0000_0000_0000_0000);
}

/// Format and expiry time that the prefix `bytes` of a header file holds: the
/// tag in the first four bytes, and the expiry time in microseconds in the last
/// eight bytes of the payload that follows the tag.
pub open spec fn spec_parse(bytes: Seq<u8>, abi: Abi) -> Result<HeaderView, HeaderError> {
    if bytes.len() < TAG_LEN {
        Err(HeaderError::UnexpectedEof)
    } else {
        match format_of_tag(unsigned(bytes.take(TAG_LEN as int), abi.little_endian) as u32) {
            Err(e) => Err(HeaderError::InvalidData(e)),
            Ok(format) => {
                let end = TAG_LEN + abi.payload_len(format);
                if bytes.len() < end {
                    Err(HeaderError::UnexpectedEof)
                } else {
                    Ok(
                        HeaderView {
                            format,
                            expiry: unsigned(
                                bytes.subrange(end - EXPIRY_LEN, end),
                                abi.little_endian,
                            ) as int * 1_000,
                        },
                    )
                }
            },
        }
    }
}

/// Reads the `len` bytes from `start` as one unsigned integer.
fn read_unsigned(bytes: &[u8], start: usize, len: usize, little_endian: bool) -> (value: u64)
    requires
        len <= 8,
        start + len <= bytes.len(),
    ensures
        value == unsigned(bytes@.subrange(start as int, start + len), little_endian),
{
    let ghost field = bytes@.subrange(start as int, start + len);
    let mut value: u64 = 0;
    let mut i: usize = 0;
    while i < len
        invariant
            i <= len <= 8,
            start + len <= bytes.len(),
            field == bytes@.subrange(start as int, start + len),
            little_endian ==> value == unsigned(field.subrange(len - i, len as int), true),
            !little_endian ==> value == unsigned(field.subrange(0, i as int), false),
        decreases len - i,
    {
        let ghost part = if little_endian {
            field.subrange(len - i, len as int)
        } else {
            field.subrange(0, i as int)
        };
        let ghost next = if little_endian {
            field.subrange(len - i - 1, len as int)
        } else {
            field.subrange(0, i + 1)
        };
        let byte = if little_endian {
            bytes[start + (len - i - 1)]
        } else {
            bytes[start + i]
        };
        proof {
            lemma_unsigned_bound(part, little_endian);
            lemma_unsigned_bound(next, little_endian);
            lemma_radix_values();
            lemma_radix_monotonic(next.len(), 8);
            if little_endian {
                assert(next.drop_first() =~= part);
            } else {
                assert(next.drop_last() =~= part);
            }
        }
        value = value * 256 + byte as u64;
        i = i + 1;
    }
    proof {
        assert(field.subrange(0, len as int) =~= field);
    }
    value
}

/// A larger power of 256 is not smaller.
pub proof fn lemma_radix_monotonic(m: nat, n: nat)
    requires
        m <= n,
    ensures
        radix(m) <= radix(n),
    decreases n,
{
    if m < n {
        lemma_radix_monotonic(m, (n - 1) as nat);
    }
}

/// Decodes the prefix of a header file that a machine of the given [`Abi`]
/// wrote.
pub fn parse_with(bytes: &[u8], abi: &Abi) -> (r: Result<Header, HeaderError>)
    ensures
        match r {
            Ok(header) => spec_parse(bytes@, *abi) == Ok::<HeaderView, HeaderError>(header@),
            Err(e) => spec_parse(bytes@, *abi) == Err::<HeaderView, HeaderError>(e),
        },
{
    if bytes.len() < TAG_LEN {
        return Err(HeaderError::UnexpectedEof);
    }
    proof {
        assert(bytes@.subrange(0, TAG_LEN as int) =~= bytes@.take(TAG_LEN as int));
        lemma_unsigned_bound(bytes@.take(TAG_LEN as int), abi.little_endian);
        lemma_radix_values();
    }
    let tag = read_unsigned(bytes, 0, TAG_LEN, abi.little_endian) as u32;
    let format = match Format::try_from(tag) {
        Ok(format) => format,
        Err(e) => {
            return Err(HeaderError::InvalidData(e));
        },
    };
    let payload = match format {
        Format::Vary => Some(EXPIRY_LEN),
        Format::Disk => abi.checked_disk_payload_len(),
    };
    let end = match payload {
        Some(payload) => match payload.checked_add(TAG_LEN) {
            Some(end) => end,
            None => {
                return Err(HeaderError::UnexpectedEof);
            },
        },
        None => {
            return Err(HeaderError::UnexpectedEof);
        },
    };
    if bytes.len() < end {
        return Err(HeaderError::UnexpectedEof);
    }
    let micros = read_unsigned(bytes, end - EXPIRY_LEN, EXPIRY_LEN, abi.little_endian);
    Ok(Header { format, expiry: Timestamp::from_micros(micros) })
}

/// Decodes the prefix of a header file that this machine wrote.
pub fn parse(bytes: &[u8]) -> (r: Result<Header, HeaderError>)
    ensures
        exists|abi: Abi|
            match r {
                Ok(header) => #[trigger] spec_parse(bytes@, abi) == Ok::<HeaderView, HeaderError>(
                    header@,
                ),
                Err(e) => spec_parse(bytes@, abi) == Err::<HeaderView, HeaderError>(e),
            },
{
    let abi = Abi::native();
    parse_with(bytes, &abi)
}

/// The expiry time that the prefix of a header file holds, as written by a
/// machine of the given [`Abi`].
pub fn read_expiration_time_with(bytes: &[u8], abi: &Abi) -> (r: Result<Timestamp, HeaderError>)
    ensures
        match r {
            Ok(expiry) => spec_parse(bytes@, *abi) is Ok && spec_parse(bytes@, *abi)->Ok_0.expiry
                == expiry@,
            Err(e) => spec_parse(bytes@, *abi) == Err::<HeaderView, HeaderError>(e),
        },
{
    match parse_with(bytes, abi) {
        Ok(header) => Ok(header.expiry),
        Err(e) => Err(e),
    }
}

/// The expiry time that the prefix of a header file holds, as written by this
/// machine.
pub fn read_expiration_time(bytes: &[u8]) -> (r: Result<Timestamp, HeaderError>)
    ensures
        exists|abi: Abi|
            match r {
                Ok(expiry) => (#[trigger] spec_parse(bytes@, abi)) is Ok && spec_parse(
                    bytes@,
                    abi,
                )->Ok_0.expiry == expiry@,
                Err(e) => spec_parse(bytes@, abi) == Err::<HeaderView, HeaderError>(e),
            },
{
    let abi = Abi::native();
    read_expiration_time_with(bytes, &abi)
}

/// A header whose tag is neither 5 nor 6 is refused as of unknown format,
/// whatever follows the tag.
pub proof fn lemma_unknown_format(bytes: Seq<u8>, abi: Abi)
    requires
        bytes.len() >= TAG_LEN,
        unsigned(bytes.take(TAG_LEN as int), abi.little_endian) != VARY_FORMAT_VERSION,
        unsigned(bytes.take(TAG_LEN as int), abi.little_endian) != DISK_FORMAT_VERSION,
    ensures
        spec_parse(bytes, abi) == Err::<HeaderView, HeaderError>(
            HeaderError::InvalidData(
                FormatError(unsigned(bytes.take(TAG_LEN as int), abi.little_endian) as u32),
            ),
        ),
{
    lemma_unsigned_bound(bytes.take(TAG_LEN as int), abi.little_endian);
    lemma_radix_values();
}

} // verus!
