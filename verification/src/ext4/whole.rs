//! What comes back of a deleted ext file.

use vstd::prelude::*;

use super::blocks::{block_pieces, blocks_for, file_blocks, file_pieces};
use super::Volume;
use crate::bytes::{imax, imin};
use crate::recover::plan::{contents, contents_of, piece_bytes, Piece};
use crate::source::{window, MAX_SOURCE_LEN};

verus! {

/// The byte at position `q` of a file whose blocks are mapped: a block that is not
/// there reads as zeros.
pub open spec fn file_byte(img: Seq<u8>, v: Volume, blocks: Seq<u64>, q: int) -> u8 {
    let bs = v.block_size as int;
    if blocks[q / bs] == 0 {
        0
    } else {
        img[v.offset + blocks[q / bs] * bs + q % bs]
    }
}

/// Whether every mapped block lies in the image.
pub open spec fn mapped_within(img: Seq<u8>, v: Volume, blocks: Seq<u64>) -> bool {
    forall|k: int| #![trigger blocks[k]]
        0 <= k < blocks.len() ==> blocks[k] == 0 || v.offset + blocks[k] * v.block_size
            + v.block_size <= img.len()
}

proof fn lemma_contents_after(img: Seq<u8>, p: Piece, rest: Seq<Piece>, n: int)
    requires
        0 <= n <= rest.len(),
    ensures
        contents_of(img, seq![p] + rest, n + 1) == piece_bytes(img, p) + contents_of(img, rest, n),
    decreases n,
{
    let all = seq![p] + rest;
    if n == 0 {
        assert(contents_of(img, all, 0) =~= Seq::empty());
        assert(contents_of(img, all, 1) =~= piece_bytes(img, p));
    } else {
        lemma_contents_after(img, p, rest, n - 1);
        assert(all[n] == rest[n - 1]);
        assert(contents_of(img, all, n + 1) =~= piece_bytes(img, p) + contents_of(img, rest, n));
    }
}

proof fn lemma_blocks_from(img: Seq<u8>, v: Volume, blocks: Seq<u64>, i: int, size: int)
    requires
        img.len() <= MAX_SOURCE_LEN,
        v.block_size > 0,
        0 <= size <= u64::MAX,
        0 <= i <= blocks.len(),
        mapped_within(img, v, blocks),
    ensures
        ({
            let bs = v.block_size as int;
            let c = contents(img, block_pieces(img, v, blocks, i, size, i * bs));
            &&& c.len() == imax(0, imin(size, blocks.len() * bs) - i * bs)
            &&& forall|j: int|
                0 <= j < c.len() ==> #[trigger] c[j] == file_byte(img, v, blocks, i * bs + j)
        }),
    decreases blocks.len() - i,
{
    let bs = v.block_size as int;
    let done = i * bs;
    let ps = block_pieces(img, v, blocks, i, size, done);
    let c = contents(img, ps);
    assert((i + 1) * bs == done + bs) by (nonlinear_arith)
        requires
            done == i * bs,
    ;
    assert(done <= blocks.len() * bs) by (nonlinear_arith)
        requires
            done == i * bs,
            i <= blocks.len(),
            bs > 0,
    ;
    assert(done >= 0) by (nonlinear_arith)
        requires
            done == i * bs,
            i >= 0,
            bs > 0,
    ;
    if i >= blocks.len() || done >= size {
        assert(c =~= Seq::empty());
        if i >= blocks.len() {
            assert(i == blocks.len());
        }
    } else {
        let want = imin(size - done, bs);
        let b = blocks[i];
        let p = if b == 0 {
            Piece::Hole { len: want as u64 }
        } else {
            super::blocks::block_piece(v, b, want)
        };
        let at = v.offset + b * bs;
        assert(b * bs >= 0) by (nonlinear_arith)
            requires
                b >= 0,
                bs > 0,
        ;
        if b != 0 {
            assert(window(img, at, want) =~= img.subrange(at, at + want));
        }
        assert(piece_bytes(img, p).len() == want);
        assert forall|j: int| 0 <= j < want implies #[trigger] piece_bytes(img, p)[j] == file_byte(
            img,
            v,
            blocks,
            done + j,
        ) by {
            vstd::arithmetic::div_mod::lemma_fundamental_div_mod_converse(done + j, bs, i, j);
        }
        assert((i + 1) * bs <= blocks.len() * bs) by (nonlinear_arith)
            requires
                i + 1 <= blocks.len(),
                bs > 0,
        ;
        let rest = block_pieces(img, v, blocks, i + 1, size, done + want);
        assert(ps == seq![p] + rest);
        lemma_contents_after(img, p, rest, rest.len() as int);
        assert(c == piece_bytes(img, p) + contents(img, rest));
        if want == bs {
            lemma_blocks_from(img, v, blocks, i + 1, size);
            let d = contents(img, rest);
            assert forall|j: int| 0 <= j < c.len() implies #[trigger] c[j] == file_byte(
                img,
                v,
                blocks,
                done + j,
            ) by {
                if j >= want {
                    assert(c[j] == d[j - want]);
                    assert((i + 1) * bs + (j - want) == done + j);
                } else {
                    assert(c[j] == piece_bytes(img, p)[j]);
                }
            }
        } else {
            assert(rest =~= Seq::empty());
            assert(contents(img, rest) =~= Seq::empty());
            assert(c =~= piece_bytes(img, p));
        }
    }
}

/// A deleted file whose block map is intact comes back whole, however its blocks are
/// scattered: it has its recorded size, and each of its bytes is the one that the map
/// leads to.
pub proof fn lemma_reassembled(img: Seq<u8>, v: Volume, inode: Seq<u8>, size: int)
    requires
        img.len() <= MAX_SOURCE_LEN,
        v.block_size > 0,
        0 < size <= v.total_blocks * v.block_size,
        size <= u64::MAX,
        blocks_for(v, size) <= usize::MAX,
        file_blocks(img, v, inode, blocks_for(v, size)).len() == blocks_for(v, size),
        mapped_within(img, v, file_blocks(img, v, inode, blocks_for(v, size))),
    ensures
        ({
            let blocks = file_blocks(img, v, inode, blocks_for(v, size));
            let c = contents(img, file_pieces(img, v, inode, size));
            &&& c.len() == size
            &&& forall|q: int| 0 <= q < size ==> #[trigger] c[q] == file_byte(img, v, blocks, q)
        }),
{
    let bs = v.block_size as int;
    let n = blocks_for(v, size);
    let blocks = file_blocks(img, v, inode, n);
    vstd::arithmetic::div_mod::lemma_fundamental_div_mod(size + bs - 1, bs);
    assert(size <= n * bs) by (nonlinear_arith)
        requires
            size + bs - 1 == bs * n + (size + bs - 1) % bs,
            (size + bs - 1) % bs < bs,
    ;
    assert(0 * bs == 0);
    lemma_blocks_from(img, v, blocks, 0, size);
    let c = contents(img, file_pieces(img, v, inode, size));
    assert forall|q: int| 0 <= q < size implies #[trigger] c[q] == file_byte(img, v, blocks, q) by {
        assert(0 * bs + q == q);
    }
}

} // verus!
