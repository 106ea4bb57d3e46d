//! What the filesystem backends share: errors, and reads of fixed structures.

use vstd::prelude::*;

use crate::bytes::{bytes_at, has_at, imax, max_u64};
use crate::recover::options::{format_uuid, uuid_text};
use crate::source::{intact, BlockSource, ReadError, MAX_SOURCE_LEN};
use crate::text::{chars_of, lossy_text, opt_text, string_of, trim_chars, trimmed, utf8_lossy};

verus! {

/// Why there is no volume at an offset.
#[derive(Clone, Copy, Debug, PartialEq, Eq, Structural)]
pub enum VolumeError {
    /// The device did not serve a read.
    Read(ReadError),
    /// The source ends before the structure does.
    Truncated,
    /// The signature is missing.
    NotRecognised,
    /// The signature is there but the geometry makes no sense.
    Implausible,
}

impl VolumeError {
    /// The message for the user.
    pub open spec fn text(self) -> &'static str {
        match self {
            VolumeError::Read(_) => "reading from source",
            VolumeError::Truncated => "could not read the header of the volume",
            VolumeError::NotRecognised => "no supported volume at this offset",
            VolumeError::Implausible => "invalid volume geometry",
        }
    }

    /// The message for the user.
    pub fn message(self) -> (r: &'static str)
        ensures
            r == self.text(),
    {
        match self {
            VolumeError::Read(_) => "reading from source",
            VolumeError::Truncated => "could not read the header of the volume",
            VolumeError::NotRecognised => "no supported volume at this offset",
            VolumeError::Implausible => "invalid volume geometry",
        }
    }
}

/// Whether a structure of `len` bytes lies in the image, and its bytes.
pub open spec fn structure(img: Seq<u8>, offset: int, len: int) -> Result<Seq<u8>, VolumeError> {
    if offset + len <= img.len() {
        Ok(img.subrange(offset, offset + len))
    } else {
        Err(VolumeError::Truncated)
    }
}

/// Whether a result is as specified, or a read failed.
pub open spec fn as_specified<T>(r: Result<T, VolumeError>, s: Result<T, VolumeError>) -> bool {
    r matches Err(VolumeError::Read(_)) || r == s
}

/// Read a structure of `len` bytes.
pub fn read_structure<S: BlockSource>(src: &S, offset: u64, len: usize) -> (r: Result<
    Vec<u8>,
    VolumeError,
>)
    requires
        len > 0,
    ensures
        match r {
            Ok(v) => structure(src.image(), offset as int, len as int) == Ok::<
                Seq<u8>,
                VolumeError,
            >(v@) && v@.len() == len,
            Err(VolumeError::Read(_)) => !src.readable(offset as int, len as int),
            Err(e) => structure(src.image(), offset as int, len as int) == Err::<
                Seq<u8>,
                VolumeError,
            >(e),
        },
        intact(src) ==> !(r matches Err(VolumeError::Read(_))),
        src.image().len() <= MAX_SOURCE_LEN,
{
    match src.read_at(offset, len) {
        Ok(v) => if v.len() < len {
            assert(!(offset + len <= src.image().len()));
            Err(VolumeError::Truncated)
        } else {
            assert(v@ =~= src.image().subrange(offset as int, offset + len));
            Ok(v)
        },
        Err(e) => Err(VolumeError::Read(e)),
    }
}

/// Index of the first zero byte at or after `i`, or the length.
pub open spec fn first_nul(b: Seq<u8>, i: int) -> int
    decreases b.len() - i,
{
    if i >= b.len() || b[i] == 0 {
        i
    } else {
        first_nul(b, i + 1)
    }
}

/// The first zero is at or after where the search begins.
pub proof fn lemma_first_nul(b: Seq<u8>, i: int)
    ensures
        first_nul(b, i) >= i,
    decreases b.len() - i,
{
    if i < b.len() && b[i] != 0 {
        lemma_first_nul(b, i + 1);
    }
}

/// The text of a field: its bytes up to the first zero.
pub open spec fn nul_text(b: Seq<u8>) -> Seq<char> {
    utf8_lossy(b.take(first_nul(b, 0)))
}

/// Read the text of a field.
pub(crate) fn text_field(b: &[u8]) -> (r: String)
    ensures
        r@ == nul_text(b@),
{
    let mut n: usize = 0;
    while n < b.len() && b[n] != 0
        invariant
            n <= b@.len(),
            first_nul(b@, 0) == first_nul(b@, n as int),
        decreases b.len() - n,
    {
        n = n + 1;
    }
    let part = vstd::slice::slice_subrange(b, 0, n);
    assert(part@ =~= b@.take(n as int));
    lossy_text(part)
}

/// The text of a field without white space at its ends; `None` when nothing is
/// left.
pub open spec fn trimmed_field(b: Seq<u8>) -> Option<Seq<char>> {
    let t = trimmed(nul_text(b));
    if t.len() == 0 {
        None
    } else {
        Some(t)
    }
}

/// Read the text of a field, without white space at its ends.
pub(crate) fn trimmed_text_field(b: &[u8]) -> (r: Option<String>)
    ensures
        opt_text(r) == trimmed_field(b@),
{
    let t = trim_chars(&chars_of(text_field(b).as_str()));
    if t.len() == 0 {
        None
    } else {
        Some(string_of(&t))
    }
}

/// Read the text in part of a structure.
pub(crate) fn text_in(b: &[u8], from: usize, to: usize) -> (r: String)
    requires
        from <= to <= b@.len(),
    ensures
        r@ == nul_text(b@.subrange(from as int, to as int)),
{
    text_field(vstd::slice::slice_subrange(b, from, to))
}

/// Read the UUID in part of a structure.
pub(crate) fn uuid_in(b: &[u8], from: usize) -> (r: Option<String>)
    requires
        from + 16 <= b@.len(),
    ensures
        opt_text(r) == uuid_text(b@.subrange(from as int, from + 16)),
{
    let _n: usize = b.len();
    format_uuid(vstd::slice::slice_subrange(b, from, from + 16))
}

/// What a parsed volume says, or why there is none.
pub open spec fn viewed<V: View>(r: Result<V, VolumeError>) -> Result<V::V, VolumeError> {
    match r {
        Ok(v) => Ok(v@),
        Err(e) => Err(e),
    }
}

/// Read a structure of `len` bytes that lies `base` bytes into a volume.
pub(crate) fn read_inside<S: BlockSource>(src: &S, offset: u64, base: u64, len: usize) -> (r:
    Result<Vec<u8>, VolumeError>)
    requires
        len > 0,
        base <= 0x1000_0000,
    ensures
        match r {
            Ok(v) => structure(src.image(), offset + base, len as int) == Ok::<
                Seq<u8>,
                VolumeError,
            >(v@) && v@.len() == len,
            Err(VolumeError::Read(_)) => !src.readable(offset + base, len as int),
            Err(e) => structure(src.image(), offset + base, len as int) == Err::<
                Seq<u8>,
                VolumeError,
            >(e),
        },
        intact(src) ==> !(r matches Err(VolumeError::Read(_))),
        r is Ok ==> offset <= MAX_SOURCE_LEN,
        src.image().len() <= MAX_SOURCE_LEN,
{
    if offset > MAX_SOURCE_LEN {
        let _size: u64 = src.size();
        return Err(VolumeError::Truncated);
    }
    read_structure(src, offset + base, len)
}

/// Do the bytes `base` into a volume read `pat`? Not when they cannot be read.
pub(crate) fn marked_at<S: BlockSource>(src: &S, offset: u64, base: u64, pat: &[u8]) -> (r: bool)
    requires
        pat@.len() > 0,
        base <= 0x1000_0000,
    ensures
        r ==> bytes_at(src.image(), offset + base, pat@),
        !r && bytes_at(src.image(), offset + base, pat@) ==> !src.readable(
            offset + base,
            pat@.len() as int,
        ),
        intact(src) ==> r == bytes_at(src.image(), offset + base, pat@),
{
    match read_inside(src, offset, base, pat.len()) {
        Ok(b) => {
            assert(b@.subrange(0, pat@.len() as int) =~= b@);
            has_at(b.as_slice(), 0, pat)
        },
        Err(_) => false,
    }
}

/// The bytes from an offset to the end of the image.
pub open spec fn span(img: Seq<u8>, offset: int) -> int {
    imax(img.len() - offset, 0)
}

/// Bytes from an offset to the end of the source.
pub(crate) fn span_from<S: BlockSource>(src: &S, offset: u64) -> (r: u64)
    ensures
        r == span(src.image(), offset as int),
        r <= MAX_SOURCE_LEN,
{
    let size: u64 = src.size();
    if size > offset {
        size - offset
    } else {
        0
    }
}

/// A recorded size, if the source or one unit can hold it; else what the source
/// holds.
pub open spec fn fitted(recorded: int, available: int, unit: int) -> int {
    if 0 < recorded <= imax(available, unit) {
        recorded
    } else {
        available
    }
}

/// The size that `count` units make, if it is plausible.
pub(crate) fn fit(count: u64, each: u64, available: u64, unit: u64) -> (r: u64)
    ensures
        r == fitted(count * each, available as int, unit as int),
{
    match count.checked_mul(each) {
        Some(n) => if n > 0 && n <= max_u64(available, unit) {
            n
        } else {
            available
        },
        None => available,
    }
}

/// A number, unless it is zero.
pub open spec fn unless_zero(n: u64) -> Option<u64> {
    if n == 0 {
        None
    } else {
        Some(n)
    }
}

pub(crate) fn non_zero(n: u64) -> (r: Option<u64>)
    ensures
        r == unless_zero(n),
{
    if n == 0 {
        None
    } else {
        Some(n)
    }
}

/// Where a volume lies, how large it is, and what identifies it.
pub struct Identity {
    pub offset: int,
    pub size: int,
    pub label: Seq<char>,
    pub uuid: Option<Seq<char>>,
}

} // verus!
