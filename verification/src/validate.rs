//! Lightweight structural validation of carved files.
//!
//! Signature carving matches only a handful of magic bytes, so a magic that
//! occurs by coincidence inside unrelated data produces a bogus "file". These
//! validators inspect a recovered file's header for the fixed structural fields
//! the format guarantees and reject candidates that cannot be real.
//!
//! They are deliberately **conservative**: a check returns [`Validity::Invalid`]
//! only on a definite structural violation, and returns [`Validity::Unknown`]
//! (which the carver accepts) whenever there is not enough data or no validator
//! exists for the type. The goal is to drop obvious garbage without ever
//! discarding a genuine file.

use vstd::prelude::*;

use crate::bytes::{be32, get_be32, get_le16, get_le32, le16, le32};
use crate::signatures::Signature;
use crate::text::str_eq;

verus! {

/// Verdict for a carved file's header.
#[derive(Debug, Clone, Copy, PartialEq, Eq, Structural)]
pub enum Validity {
    /// The header matches the format's fixed structure.
    Valid,
    /// The header violates the format; the magic match is almost certainly
    /// coincidental.
    Invalid,
    /// Not enough information to decide. Treated as acceptable.
    Unknown,
}

impl Validity {
    /// Whether the carver should keep a file with this verdict. Only a definite
    /// [`Validity::Invalid`] is rejected.
    pub fn accept(self) -> (r: bool)
        ensures
            r == (self != Validity::Invalid),
    {
        !matches!(self, Validity::Invalid)
    }
}

/// Number of leading bytes the validators need to inspect. The carver reads at
/// most this many bytes of each candidate before deciding.
pub const HEADER_LEN: usize = 64;

/// `Valid` or `Invalid`, as `ok` says, once there are `need` bytes.
pub open spec fn verdict(d: Seq<u8>, need: int, ok: bool) -> Validity {
    if d.len() < need {
        Validity::Unknown
    } else if ok {
        Validity::Valid
    } else {
        Validity::Invalid
    }
}

/// The first marker of a JPEG is never padding (`0xFF`), a stuffed zero, or
/// another start or end of image.
pub open spec fn jpeg_marker(m: u8) -> bool {
    0xC0 <= m <= 0xFE && m != 0xD8 && m != 0xD9
}

/// The first chunk of a PNG is an `IHDR` of 13 bytes with a non-empty image.
pub open spec fn png_header(d: Seq<u8>) -> bool {
    be32(d, 8) == 13 && be32(d, 12) == 0x4948_4452 && be32(d, 16) != 0 && be32(d, 20) != 0
}

/// The logical screen of a GIF is not empty.
pub open spec fn gif_screen(d: Seq<u8>) -> bool {
    le16(d, 6) != 0 && le16(d, 8) != 0
}

/// Sizes of the DIB headers: core (12), info (40), V2 to V5 (52, 56, 108, 124).
pub open spec fn dib_size(n: int) -> bool {
    n == 12 || n == 40 || n == 52 || n == 56 || n == 108 || n == 124
}

/// The bytes of a SQLite header that the file format fixes.
pub open spec fn sqlite_header(d: Seq<u8>) -> bool {
    1 <= d[18] <= 2 && 1 <= d[19] <= 2 && d[21] == 64 && d[22] == 32 && d[23] == 32
}

/// The verdict on a header of a file with the given extension.
pub open spec fn validity(ext: Seq<char>, d: Seq<u8>) -> Validity {
    if ext == "jpg"@ {
        verdict(d, 4, jpeg_marker(d[3]))
    } else if ext == "png"@ {
        verdict(d, 24, png_header(d))
    } else if ext == "gif"@ {
        verdict(d, 10, gif_screen(d))
    } else if ext == "bmp"@ {
        verdict(d, 18, dib_size(le32(d, 14)))
    } else if ext == "sqlite"@ {
        verdict(d, 24, sqlite_header(d))
    } else {
        Validity::Unknown
    }
}

/// Validate the leading bytes of a carved file of type `sig`.
///
/// `data` holds up to [`HEADER_LEN`] bytes from the start of the candidate file
/// (fewer if the file is shorter).
pub fn validate(sig: &Signature, data: &[u8]) -> (r: Validity)
    ensures
        r == validity(sig.ext@, data@),
{
    if str_eq(sig.ext, "jpg") {
        jpeg(data)
    } else if str_eq(sig.ext, "png") {
        png(data)
    } else if str_eq(sig.ext, "gif") {
        gif(data)
    } else if str_eq(sig.ext, "bmp") {
        bmp(data)
    } else if str_eq(sig.ext, "sqlite") {
        sqlite(data)
    } else {
        // No structural check for the remaining types; their length strategy
        // (footer search, atom walk, etc.) already rejects most spurious hits.
        Validity::Unknown
    }
}

/// JPEG: the SOI magic `FF D8 FF` is immediately followed by a marker code. A
/// real stream's first marker is an APPn/DQT/DHT/COM/SOFn — never padding
/// (`0xFF`), a stuffed zero (`0x00`), or another SOI/EOI.
fn jpeg(d: &[u8]) -> (r: Validity)
    ensures
        r == verdict(d@, 4, jpeg_marker(d@[3])),
{
    if d.len() < 4 {
        return Validity::Unknown;
    }
    let marker: u8 = d[3];
    if 0xC0 <= marker && marker <= 0xFE && marker != 0xD8 && marker != 0xD9 {
        Validity::Valid
    } else {
        Validity::Invalid
    }
}

/// PNG: the 8-byte signature must be followed by an `IHDR` chunk — a length of
/// exactly 13, the `IHDR` type, then non-zero width and height (big-endian).
fn png(d: &[u8]) -> (r: Validity)
    ensures
        r == verdict(d@, 24, png_header(d@)),
{
    if d.len() < 24 {
        return Validity::Unknown;
    }
    if get_be32(d, 8) != 13 || get_be32(d, 12) != 0x4948_4452 {
        return Validity::Invalid;
    }
    if get_be32(d, 16) == 0 || get_be32(d, 20) == 0 {
        return Validity::Invalid;
    }
    Validity::Valid
}

/// GIF: after the 6-byte `GIF87a`/`GIF89a` header comes the logical screen
/// descriptor, whose canvas width and height (little-endian) are non-zero.
fn gif(d: &[u8]) -> (r: Validity)
    ensures
        r == verdict(d@, 10, gif_screen(d@)),
{
    if d.len() < 10 {
        return Validity::Unknown;
    }
    if get_le16(d, 6) == 0 || get_le16(d, 8) == 0 {
        return Validity::Invalid;
    }
    Validity::Valid
}

/// BMP: past the 14-byte file header sits the DIB header, whose first field is
/// its own size — one of a small set of standard values.
fn bmp(d: &[u8]) -> (r: Validity)
    ensures
        r == verdict(d@, 18, dib_size(le32(d@, 14))),
{
    if d.len() < 18 {
        return Validity::Unknown;
    }
    let n: u32 = get_le32(d, 14);
    if n == 12 || n == 40 || n == 52 || n == 56 || n == 108 || n == 124 {
        Validity::Valid
    } else {
        Validity::Invalid
    }
}

/// SQLite: the database header has several bytes fixed by the file format —
/// the read/write format versions are 1 or 2, and the payload fractions are the
/// constants 64/32/32. A coincidental "SQLite format 3\0" almost never has all
/// of these right.
fn sqlite(d: &[u8]) -> (r: Validity)
    ensures
        r == verdict(d@, 24, sqlite_header(d@)),
{
    if d.len() < 24 {
        return Validity::Unknown;
    }
    if d[18] < 1 || d[18] > 2 || d[19] < 1 || d[19] > 2 {
        return Validity::Invalid;
    }
    if d[21] != 64 || d[22] != 32 || d[23] != 32 {
        return Validity::Invalid;
    }
    Validity::Valid
}

/// The validators judge by the first [`HEADER_LEN`] bytes: more bytes do not
/// change a verdict that these allow.
pub proof fn lemma_header_suffices(ext: Seq<char>, d: Seq<u8>)
    requires
        d.len() >= HEADER_LEN,
    ensures
        validity(ext, d.take(HEADER_LEN as int)) == validity(ext, d),
{
}

/// A header that is too short to judge is accepted.
pub proof fn lemma_short_headers_accepted(ext: Seq<char>, d: Seq<u8>)
    requires
        d.len() < 4,
    ensures
        validity(ext, d) == Validity::Unknown,
{
}

} // verus!
