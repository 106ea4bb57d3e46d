//! Read-only access to the device or image that files are recovered from.
//!
//! A source is **never** written to: the only operations are its size and
//! positioned reads.

use vstd::prelude::*;

use crate::bytes::imin;

verus! {

/// The largest size of a source: file offsets are signed 64-bit integers.
pub const MAX_SOURCE_LEN: u64 = 0x7FFF_FFFF_FFFF_FFFF;

/// A positioned read that the device did not complete.
#[derive(Clone, Copy, Debug, PartialEq, Eq, Structural)]
pub struct ReadError {
    /// Error number of the operating system, 0 when there is none.
    pub code: i32,
}

/// The bytes of `image` from `offset`, at most `len` of them.
pub open spec fn window(image: Seq<u8>, offset: int, len: int) -> Seq<u8> {
    image.subrange(imin(offset, image.len() as int), imin(offset + len, image.len() as int))
}

/// Whether the `len` bytes from `offset` all lie inside `image`.
pub open spec fn within(image: Seq<u8>, offset: int, len: int) -> bool {
    offset + len <= image.len()
}

/// The byte at `i`, zero past the end: what a zero-initialised buffer holds
/// after a short read.
pub open spec fn padded_byte(image: Seq<u8>, i: int) -> u8 {
    if i < image.len() {
        image[i]
    } else {
        0
    }
}

/// `len` bytes from `offset`, zero past the end of the image.
pub open spec fn padded(image: Seq<u8>, offset: int, len: nat) -> Seq<u8> {
    Seq::new(len, |i: int| padded_byte(image, offset + i))
}

/// A positioned byte source: a device or a disk image.
///
/// Its contents do not change while it is open. A read that the device
/// completes gives the bytes of the image, short only at its end. A device may
/// refuse a read; it does not refuse one that `readable` says it serves.
pub trait BlockSource {
    /// The bytes of the device.
    open spec fn image(&self) -> Seq<u8> {
        arbitrary()
    }

    /// Whether the device certainly serves a read of `len` bytes at `offset`; none
    /// unless it says so.
    open spec fn readable(&self, offset: int, len: int) -> bool {
        false
    }

    /// Total size in bytes.
    fn size(&self) -> (n: u64)
        ensures
            n == self.image().len(),
            n <= MAX_SOURCE_LEN,
    ;

    /// Read up to `len` bytes starting at absolute `offset`.
    fn read_at(&self, offset: u64, len: usize) -> (r: Result<Vec<u8>, ReadError>)
        ensures
            self.image().len() <= MAX_SOURCE_LEN,
            r matches Ok(v) ==> v@ == window(self.image(), offset as int, len as int),
            self.readable(offset as int, len as int) ==> r is Ok,
    ;
}

/// Whether the device serves every read.
pub open spec fn intact<S: BlockSource>(src: &S) -> bool {
    forall|o: int, l: int| #[trigger] src.readable(o, l)
}

/// A source held in memory.
pub struct Source {
    data: Vec<u8>,
}

impl Source {
    /// The bytes of the source.
    pub closed spec fn bytes(&self) -> Seq<u8> {
        self.data@
    }

    #[verifier::type_invariant]
    spec fn inv(self) -> bool {
        self.data@.len() <= MAX_SOURCE_LEN
    }

    /// A source whose contents are `data`.
    pub fn new(data: Vec<u8>) -> (s: Source)
        requires
            data@.len() <= MAX_SOURCE_LEN,
        ensures
            s.bytes() == data@,
            s.image() == data@,
            intact(&s),
    {
        Source { data }
    }
}

impl BlockSource for Source {
    open spec fn image(&self) -> Seq<u8> {
        self.bytes()
    }

    open spec fn readable(&self, offset: int, len: int) -> bool {
        true
    }

    fn size(&self) -> (n: u64) {
        proof {
            use_type_invariant(self);
        }
        self.data.len() as u64
    }

    fn read_at(&self, offset: u64, len: usize) -> (r: Result<Vec<u8>, ReadError>) {
        proof {
            use_type_invariant(self);
        }
        let size: usize = self.data.len();
        if offset >= size as u64 {
            let out: Vec<u8> = Vec::new();
            assert(out@ =~= window(self.image(), offset as int, len as int));
            return Ok(out);
        }
        let from: usize = offset as usize;
        let to: usize = if len <= size - from {
            from + len
        } else {
            size
        };
        Ok(crate::bytes::sub_vec(self.data.as_slice(), from, to))
    }
}

/// Read exactly `len` bytes at `offset`; `None` when the source ends before.
pub fn read_full<S: BlockSource>(src: &S, offset: u64, len: usize) -> (r: Result<
    Option<Vec<u8>>,
    ReadError,
>)
    requires
        len > 0,
    ensures
        src.image().len() <= MAX_SOURCE_LEN,
        r matches Ok(Some(v)) ==> {
            &&& within(src.image(), offset as int, len as int)
            &&& v@.len() == len
            &&& v@ == src.image().subrange(offset as int, offset + len)
        },
        r matches Ok(None) ==> !within(src.image(), offset as int, len as int),
        src.readable(offset as int, len as int) ==> r is Ok,
{
    match src.read_at(offset, len) {
        Ok(v) => {
            if v.len() < len {
                Ok(None)
            } else {
                Ok(Some(v))
            }
        },
        Err(e) => Err(e),
    }
}

/// Read `len` bytes at `offset` into a zero-initialised buffer. Returns the
/// buffer and how many of its bytes the source gave.
pub fn read_padded<S: BlockSource>(src: &S, offset: u64, len: usize) -> (r: Result<
    (Vec<u8>, usize),
    ReadError,
>)
    ensures
        src.image().len() <= MAX_SOURCE_LEN,
        r matches Ok((v, n)) ==> {
            &&& v@ == padded(src.image(), offset as int, len as nat)
            &&& n == window(src.image(), offset as int, len as int).len()
        },
        src.readable(offset as int, len as int) ==> r is Ok,
{
    match src.read_at(offset, len) {
        Ok(mut v) => {
            let n: usize = v.len();
            let ghost start = v@;
            while v.len() < len
                invariant
                    n <= v@.len() <= len,
                    start.len() == n,
                    forall|i: int| 0 <= i < n ==> v@[i] == start[i],
                    forall|i: int| n <= i < v@.len() ==> v@[i] == 0,
                decreases len - v.len(),
            {
                v.push(0);
            }
            assert forall|i: int| 0 <= i < len implies v@[i] == padded_byte(
                src.image(),
                offset + i,
            ) by {
                if i < n {
                    assert(start[i] == src.image()[offset + i]);
                }
            }
            assert(v@ =~= padded(src.image(), offset as int, len as nat));
            Ok((v, n))
        },
        Err(e) => Err(e),
    }
}

} // verus!
