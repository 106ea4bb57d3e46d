//! Content-based file-type identification.
//!
//! Recovered files — especially carved ones — may have a generic or wrong
//! extension. This matches a file's leading bytes against the same signature
//! table and structural validators the carver uses, so an unknown blob can be
//! identified by content.

use vstd::prelude::*;

use crate::bytes::{bytes_at, has_at};
use crate::signatures::table::{lemma_table_shape, signature_table, signatures};
use crate::signatures::{classify_zip, zip_format, Signature};
use crate::text::str_eq;
use crate::validate::{validate, validity, Validity};

verus! {

/// A detected file type.
#[derive(Clone, Copy, Debug)]
pub struct Detected {
    /// File-type extension, e.g. `"jpg"`.
    pub ext: &'static str,
    /// Human-readable type name.
    pub name: &'static str,
    /// True when a structural validator confirmed the header (not just the
    /// magic). False means the type has no validator, so it was matched by
    /// magic (and any secondary tag) alone.
    pub validated: bool,
}

/// Whether a file that begins with `head` has the magic of `sig` and its
/// secondary tag where they belong.
pub open spec fn has_magic(sig: Signature, head: Seq<u8>) -> bool {
    &&& bytes_at(head, sig.magic_offset as int, sig.magic@)
    &&& sig.secondary matches Some((off, tag)) ==> bytes_at(head, sig.magic_offset + off, tag@)
}

/// Whether `head` can be a file of type `sig`: it has the magic, and the
/// validator does not reject it.
pub open spec fn plausible(sig: Signature, head: Seq<u8>) -> bool {
    has_magic(sig, head) && validity(sig.ext@, head) != Validity::Invalid
}

/// The first table entry from `i` on that is plausible.
pub open spec fn first_plausible(head: Seq<u8>, i: int) -> Option<Signature>
    decreases signature_table().len() - i,
{
    if i < 0 || i >= signature_table().len() {
        None
    } else if plausible(signature_table()[i], head) {
        Some(signature_table()[i])
    } else {
        first_plausible(head, i + 1)
    }
}

/// The type of `sig`; a ZIP is refined by its content.
pub open spec fn detected(sig: Signature, head: Seq<u8>) -> Detected {
    let validated = validity(sig.ext@, head) == Validity::Valid;
    if sig.ext@ == "zip"@ {
        match zip_format(head) {
            Some((ext, name)) => Detected { ext, name, validated },
            None => Detected { ext: sig.ext, name: sig.name, validated },
        }
    } else {
        Detected { ext: sig.ext, name: sig.name, validated }
    }
}

/// The type of a file that begins with `head`.
pub open spec fn identity(head: Seq<u8>) -> Option<Detected> {
    match first_plausible(head, 0) {
        Some(sig) => Some(detected(sig, head)),
        None => None,
    }
}

/// Identify the type of a file from its leading bytes, or `None` if no known
/// signature matches. Tries signatures in table order (most specific first) and
/// skips any whose structural validator rejects the header outright.
pub fn identify(head: &[u8]) -> (r: Option<Detected>)
    ensures
        r == identity(head@),
{
    let all = signatures();
    proof {
        lemma_table_shape();
    }
    let mut i: usize = 0;
    while i < all.len()
        invariant
            i <= all@.len(),
            all@ == signature_table(),
            forall|k: int|
                0 <= k < all@.len() ==> (#[trigger] all@[k]).magic@.len() <= 16
                    && all@[k].magic_offset <= 40,
            first_plausible(head@, 0) == first_plausible(head@, i as int),
        decreases all.len() - i,
    {
        let sig: Signature = all[i];
        i = i + 1;
        let off: usize = sig.magic_offset as usize;
        if !has_at(head, off, sig.magic) {
            continue;
        }
        let tagged: bool = match sig.secondary {
            Some((soff, tag)) => {
                if soff > head.len() {
                    false
                } else {
                    has_at(head, off + soff, tag)
                }
            },
            None => true,
        };
        if !tagged {
            continue;
        }
        let verdict = validate(&sig, head);
        if verdict == Validity::Invalid {
            continue;
        }
        let validated: bool = verdict == Validity::Valid;
        // A ZIP may actually be a DOCX/EPUB/APK/…; refine it from its content.
        if str_eq(sig.ext, "zip") {
            match classify_zip(head) {
                Some((ext, name)) => {
                    return Some(Detected { ext, name, validated });
                },
                None => {},
            }
        }
        return Some(Detected { ext: sig.ext, name: sig.name, validated });
    }
    None
}

} // verus!
