//! SHA-256 (FIPS 180-4), used to fingerprint recovered files.

use vstd::prelude::*;

use crate::bytes::{be32, get_be32};

verus! {

/// The round constants.
pub const ROUND: [u32; 64] = [
    0x428A_2F98, 0x7137_4491, 0xB5C0_FBCF, 0xE9B5_DBA5, 0x3956_C25B, 0x59F1_11F1,
    0x923F_82A4, 0xAB1C_5ED5, 0xD807_AA98, 0x1283_5B01, 0x2431_85BE, 0x550C_7DC3,
    0x72BE_5D74, 0x80DE_B1FE, 0x9BDC_06A7, 0xC19B_F174, 0xE49B_69C1, 0xEFBE_4786,
    0x0FC1_9DC6, 0x240C_A1CC, 0x2DE9_2C6F, 0x4A74_84AA, 0x5CB0_A9DC, 0x76F9_88DA,
    0x983E_5152, 0xA831_C66D, 0xB003_27C8, 0xBF59_7FC7, 0xC6E0_0BF3, 0xD5A7_9147,
    0x06CA_6351, 0x1429_2967, 0x27B7_0A85, 0x2E1B_2138, 0x4D2C_6DFC, 0x5338_0D13,
    0x650A_7354, 0x766A_0ABB, 0x81C2_C92E, 0x9272_2C85, 0xA2BF_E8A1, 0xA81A_664B,
    0xC24B_8B70, 0xC76C_51A3, 0xD192_E819, 0xD699_0624, 0xF40E_3585, 0x106A_A070,
    0x19A4_C116, 0x1E37_6C08, 0x2748_774C, 0x34B0_BCB5, 0x391C_0CB3, 0x4ED8_AA4A,
    0x5B9C_CA4F, 0x682E_6FF3, 0x748F_82EE, 0x78A5_636F, 0x84C8_7814, 0x8CC7_0208,
    0x90BE_FFFA, 0xA450_6CEB, 0xBEF9_A3F7, 0xC671_78F2,
];

/// Sum modulo 2^32.
pub open spec fn wadd(a: u32, b: u32) -> u32 {
    if a + b > u32::MAX {
        (a + b - 0x1_0000_0000) as u32
    } else {
        (a + b) as u32
    }
}

fn add32(a: u32, b: u32) -> (r: u32)
    ensures
        r == wadd(a, b),
{
    a.wrapping_add(b)
}

/// Rotation to the right by `n` bits.
pub open spec fn rotr(x: u32, n: u32) -> u32 {
    (x >> n) | (x << ((32 - n) as u32))
}

fn rot(x: u32, n: u32) -> (r: u32)
    requires
        0 < n < 32,
    ensures
        r == rotr(x, n),
{
    (x >> n) | (x << (32 - n))
}

pub open spec fn big_sigma0(x: u32) -> u32 {
    rotr(x, 2) ^ rotr(x, 13) ^ rotr(x, 22)
}

pub open spec fn big_sigma1(x: u32) -> u32 {
    rotr(x, 6) ^ rotr(x, 11) ^ rotr(x, 25)
}

pub open spec fn small_sigma0(x: u32) -> u32 {
    rotr(x, 7) ^ rotr(x, 18) ^ (x >> 3)
}

pub open spec fn small_sigma1(x: u32) -> u32 {
    rotr(x, 17) ^ rotr(x, 19) ^ (x >> 10)
}

pub open spec fn choice(x: u32, y: u32, z: u32) -> u32 {
    (x & y) ^ (!x & z)
}

pub open spec fn majority(x: u32, y: u32, z: u32) -> u32 {
    (x & y) ^ (x & z) ^ (y & z)
}

/// The eight working variables.
#[derive(Clone, Copy)]
pub struct Words {
    pub a: u32,
    pub b: u32,
    pub c: u32,
    pub d: u32,
    pub e: u32,
    pub f: u32,
    pub g: u32,
    pub h: u32,
}

/// The initial hash value.
pub open spec fn initial() -> Words {
    Words {
        a: 0x6A09_E667,
        b: 0xBB67_AE85,
        c: 0x3C6E_F372,
        d: 0xA54F_F53A,
        e: 0x510E_527F,
        f: 0x9B05_688C,
        g: 0x1F83_D9AB,
        h: 0x5BE0_CD19,
    }
}

/// Word `t` of the message schedule of a 64-byte block.
pub open spec fn schedule(block: Seq<u8>, t: int) -> u32
    decreases t,
{
    if t < 16 {
        be32(block, 4 * t) as u32
    } else {
        wadd(
            wadd(small_sigma1(schedule(block, t - 2)), schedule(block, t - 7)),
            wadd(small_sigma0(schedule(block, t - 15)), schedule(block, t - 16)),
        )
    }
}

/// One round with schedule word `w` and round constant `k`.
pub open spec fn round(s: Words, w: u32, k: u32) -> Words {
    let t1 = wadd(wadd(s.h, big_sigma1(s.e)), wadd(choice(s.e, s.f, s.g), wadd(k, w)));
    let t2 = wadd(big_sigma0(s.a), majority(s.a, s.b, s.c));
    Words {
        a: wadd(t1, t2),
        b: s.a,
        c: s.b,
        d: s.c,
        e: wadd(s.d, t1),
        f: s.e,
        g: s.f,
        h: s.g,
    }
}

/// The working variables after the first `n` rounds over a block.
pub open spec fn rounds(s: Words, block: Seq<u8>, n: int) -> Words
    decreases n,
{
    if n <= 0 {
        s
    } else {
        round(rounds(s, block, n - 1), schedule(block, n - 1), ROUND@[n - 1])
    }
}

/// The hash value after a 64-byte block.
#[verifier::opaque]
pub open spec fn compress(s: Words, block: Seq<u8>) -> Words {
    let w = rounds(s, block, 64);
    Words {
        a: wadd(s.a, w.a),
        b: wadd(s.b, w.b),
        c: wadd(s.c, w.c),
        d: wadd(s.d, w.d),
        e: wadd(s.e, w.e),
        f: wadd(s.f, w.f),
        g: wadd(s.g, w.g),
        h: wadd(s.h, w.h),
    }
}

/// The hash value after the first `n` blocks of `m`.
pub open spec fn absorbed(m: Seq<u8>, n: int) -> Words
    decreases n,
{
    if n <= 0 {
        initial()
    } else {
        compress(absorbed(m, n - 1), m.subrange(64 * (n - 1), 64 * n))
    }
}

/// The eight bytes of `n`, most significant first.
pub open spec fn be_bytes8(n: u64) -> Seq<u8> {
    seq![
        (n / 0x100_0000_0000_0000) as u8,
        (n / 0x1_0000_0000_0000 % 256) as u8,
        (n / 0x100_0000_0000 % 256) as u8,
        (n / 0x1_0000_0000 % 256) as u8,
        (n / 0x100_0000 % 256) as u8,
        (n / 0x1_0000 % 256) as u8,
        (n / 0x100 % 256) as u8,
        (n % 256) as u8,
    ]
}

/// The four bytes of `n`, most significant first.
pub open spec fn be_bytes4(n: u32) -> Seq<u8> {
    seq![
        (n / 0x100_0000) as u8,
        (n / 0x1_0000 % 256) as u8,
        (n / 0x100 % 256) as u8,
        (n % 256) as u8,
    ]
}

/// Number of zero bytes that pad a message of `len` bytes.
pub open spec fn zero_pad(len: int) -> int {
    if len % 64 < 56 {
        55 - len % 64
    } else {
        119 - len % 64
    }
}

/// The padding of a message of `len` bytes: the byte 0x80, zeros, and the length
/// in bits.
pub open spec fn padding(len: int) -> Seq<u8> {
    seq![0x80u8] + Seq::new(zero_pad(len) as nat, |i: int| 0u8) + be_bytes8((8 * len) as u64)
}

/// The message with its padding.
pub open spec fn padded_message(m: Seq<u8>) -> Seq<u8> {
    m + padding(m.len() as int)
}

/// The bytes of a hash value.
#[verifier::opaque]
pub open spec fn word_bytes(s: Words) -> Seq<u8> {
    be_bytes4(s.a) + be_bytes4(s.b) + be_bytes4(s.c) + be_bytes4(s.d) + be_bytes4(s.e) + be_bytes4(
        s.f,
    ) + be_bytes4(s.g) + be_bytes4(s.h)
}

/// The SHA-256 digest of a message.
pub open spec fn sha256(m: Seq<u8>) -> Seq<u8> {
    let p = padded_message(m);
    word_bytes(absorbed(p, p.len() as int / 64))
}

/// A digest has 32 bytes.
pub proof fn lemma_digest_len(m: Seq<u8>)
    ensures
        sha256(m).len() == 32,
{
    reveal(word_bytes);
}

/// The longest message that can be hashed.
pub const MAX_MESSAGE: u64 = 0x1FFF_FFFF_FFFF_FFFF;

/// The message schedule of a block.
fn expand(block: &[u8]) -> (w: Vec<u32>)
    requires
        block@.len() == 64,
    ensures
        w@.len() == 64,
        forall|t: int| 0 <= t < 64 ==> w@[t] == schedule(block@, t),
{
    let mut w: Vec<u32> = Vec::new();
    let mut t: usize = 0;
    while t < 64
        invariant
            t <= 64,
            block@.len() == 64,
            w@.len() == t,
            forall|k: int| 0 <= k < t ==> w@[k] == schedule(block@, k),
        decreases 64 - t,
    {
        if t < 16 {
            let v: u32 = get_be32(block, 4 * t);
            w.push(v);
        } else {
            let x: u32 = w[t - 2];
            let y: u32 = w[t - 15];
            let s1: u32 = rot(x, 17) ^ rot(x, 19) ^ (x >> 10);
            let s0: u32 = rot(y, 7) ^ rot(y, 18) ^ (y >> 3);
            let v: u32 = add32(add32(s1, w[t - 7]), add32(s0, w[t - 16]));
            assert(v == schedule(block@, t as int));
            w.push(v);
        }
        t = t + 1;
    }
    w
}

fn one_round(s: Words, w: u32, k: u32) -> (r: Words)
    ensures
        r == round(s, w, k),
{
    let s1: u32 = rot(s.e, 6) ^ rot(s.e, 11) ^ rot(s.e, 25);
    let ch: u32 = (s.e & s.f) ^ (!s.e & s.g);
    let t1: u32 = add32(add32(s.h, s1), add32(ch, add32(k, w)));
    let s0: u32 = rot(s.a, 2) ^ rot(s.a, 13) ^ rot(s.a, 22);
    let maj: u32 = (s.a & s.b) ^ (s.a & s.c) ^ (s.b & s.c);
    let t2: u32 = add32(s0, maj);
    Words {
        a: add32(t1, t2),
        b: s.a,
        c: s.b,
        d: s.c,
        e: add32(s.d, t1),
        f: s.e,
        g: s.f,
        h: s.g,
    }
}

fn compress_block(s: Words, block: &[u8]) -> (r: Words)
    requires
        block@.len() == 64,
    ensures
        r == compress(s, block@),
{
    reveal(compress);
    let w = expand(block);
    let mut v = s;
    let mut t: usize = 0;
    while t < 64
        invariant
            t <= 64,
            block@.len() == 64,
            w@.len() == 64,
            forall|k: int| 0 <= k < 64 ==> w@[k] == schedule(block@, k),
            v == rounds(s, block@, t as int),
        decreases 64 - t,
    {
        v = one_round(v, w[t], ROUND[t]);
        t = t + 1;
    }
    Words {
        a: add32(s.a, v.a),
        b: add32(s.b, v.b),
        c: add32(s.c, v.c),
        d: add32(s.d, v.d),
        e: add32(s.e, v.e),
        f: add32(s.f, v.f),
        g: add32(s.g, v.g),
        h: add32(s.h, v.h),
    }
}

/// Blocks that two messages share leave the same hash value.
proof fn lemma_absorbed_prefix(m: Seq<u8>, p: Seq<u8>, n: int)
    requires
        0 <= n,
        64 * n <= m.len(),
        64 * n <= p.len(),
        m.take(64 * n) == p.take(64 * n),
    ensures
        absorbed(m, n) == absorbed(p, n),
    decreases n,
{
    if n > 0 {
        assert(m.take(64 * n).take(64 * (n - 1)) =~= m.take(64 * (n - 1)));
        assert(p.take(64 * n).take(64 * (n - 1)) =~= p.take(64 * (n - 1)));
        lemma_absorbed_prefix(m, p, n - 1);
        assert(m.take(64 * n).subrange(64 * (n - 1), 64 * n) =~= m.subrange(64 * (n - 1), 64 * n));
        assert(p.take(64 * n).subrange(64 * (n - 1), 64 * n) =~= p.subrange(64 * (n - 1), 64 * n));
    }
}

/// A digest under computation: the bytes hashed so far are its view.
pub struct Sha256 {
    state: Words,
    tail: Vec<u8>,
    len: u64,
    message: Ghost<Seq<u8>>,
}

impl Sha256 {
    #[verifier::type_invariant]
    spec fn inv(self) -> bool {
        let n = self.message@.len() as int / 64;
        &&& self.len == self.message@.len()
        &&& self.len <= MAX_MESSAGE
        &&& self.tail@ == self.message@.skip(64 * n)
        &&& self.state == absorbed(self.message@, n)
    }

    /// The bytes hashed so far.
    pub closed spec fn view(&self) -> Seq<u8> {
        self.message@
    }

    /// A digest of nothing yet.
    pub fn new() -> (r: Sha256)
        ensures
            r@ == Seq::<u8>::empty(),
    {
        let state = Words {
            a: 0x6A09_E667,
            b: 0xBB67_AE85,
            c: 0x3C6E_F372,
            d: 0xA54F_F53A,
            e: 0x510E_527F,
            f: 0x9B05_688C,
            g: 0x1F83_D9AB,
            h: 0x5BE0_CD19,
        };
        let tail: Vec<u8> = Vec::new();
        assert(tail@ =~= Seq::<u8>::empty().skip(0));
        Sha256 { state, tail, len: 0, message: Ghost(Seq::empty()) }
    }

    /// Hash further bytes.
    pub fn update(self, data: &[u8]) -> (r: Sha256)
        requires
            self@.len() + data@.len() <= MAX_MESSAGE,
        ensures
            r@ == self@ + data@,
    {
        proof {
            use_type_invariant(&self);
        }
        let ghost before = self.message@;
        let mut state = self.state;
        let mut tail = self.tail;
        let mut i: usize = 0;
        assert(before + data@.take(0) =~= before);
        while i < data.len()
            invariant
                i <= data@.len(),
                before.len() + data@.len() <= MAX_MESSAGE,
                ({
                    let m = before + data@.take(i as int);
                    let n = m.len() as int / 64;
                    &&& tail@ == m.skip(64 * n)
                    &&& state == absorbed(m, n)
                }),
            decreases data.len() - i,
        {
            let ghost m = before + data@.take(i as int);
            let ghost n = m.len() as int / 64;
            tail.push(data[i]);
            i = i + 1;
            let ghost m2 = before + data@.take(i as int);
            assert(m2 =~= m.push(data@[i - 1]));
            assert(m.take(64 * n) =~= m2.take(64 * n));
            proof {
                lemma_absorbed_prefix(m, m2, n);
            }
            assert(tail@ =~= m2.skip(64 * n));
            if tail.len() == 64 {
                assert(m2.len() == 64 * (n + 1));
                assert(tail@ =~= m2.subrange(64 * n, 64 * (n + 1)));
                state = compress_block(state, tail.as_slice());
                tail = Vec::new();
                assert(tail@ =~= m2.skip(64 * (n + 1)));
                assert(m2.len() as int / 64 == n + 1);
            } else {
                assert(m2.len() as int / 64 == n);
            }
        }
        assert(data@.take(i as int) =~= data@);
        let len: u64 = self.len + data.len() as u64;
        Sha256 { state, tail, len, message: Ghost(before + data@) }
    }

    /// The digest of all bytes hashed.
    pub fn finalize(self) -> (r: Vec<u8>)
        ensures
            r@ == sha256(self@),
            r@.len() == 32,
    {
        proof {
            use_type_invariant(&self);
        }
        let ghost m = self.message@;
        let mut tail = self.tail;
        push_padding(&mut tail, self.len);
        proof {
            lemma_tail(m);
            lemma_finished(m, tail@);
        }
        state_bytes(finish_blocks(self.state, &tail))
    }
}

/// The hash value after one or two final blocks.
pub open spec fn finished(s: Words, tail: Seq<u8>) -> Words {
    if tail.len() == 64 {
        compress(s, tail.subrange(0, 64))
    } else {
        compress(compress(s, tail.subrange(0, 64)), tail.subrange(64, 128))
    }
}

/// Finishing from the whole blocks of a message gives its hash value.
proof fn lemma_finished(m: Seq<u8>, tail: Seq<u8>)
    requires
        tail == padded_message(m).skip(64 * (m.len() as int / 64)),
        tail.len() == 64 || tail.len() == 128,
    ensures
        absorbed(padded_message(m), padded_message(m).len() as int / 64) == finished(
            absorbed(m, m.len() as int / 64),
            tail,
        ),
{
    let p = padded_message(m);
    let n = m.len() as int / 64;
    assert(m.take(64 * n) =~= p.take(64 * n));
    lemma_absorbed_prefix(m, p, n);
    assert(p.subrange(64 * n, 64 * (n + 1)) =~= tail.subrange(0, 64));
    if tail.len() == 128 {
        assert(p.subrange(64 * (n + 1), 64 * (n + 2)) =~= tail.subrange(64, 128));
        assert(p.len() as int / 64 == n + 2);
        assert(absorbed(p, n + 1) == compress(absorbed(p, n), p.subrange(64 * n, 64 * (n + 1))));
    } else {
        assert(p.len() as int / 64 == n + 1);
    }
}

/// The part of a padded message past its whole blocks.
proof fn lemma_tail(m: Seq<u8>)
    ensures
        ({
            let n = m.len() as int / 64;
            let p = padded_message(m);
            &&& m.skip(64 * n).len() < 64
            &&& p.skip(64 * n) == m.skip(64 * n) + padding(m.len() as int)
            &&& p.len() == 64 * (n + 1) || p.len() == 64 * (n + 2)
        }),
{
    let n = m.len() as int / 64;
    assert(padded_message(m).skip(64 * n) =~= m.skip(64 * n) + padding(m.len() as int));
}

/// Append the padding of a message of `len` bytes to its last partial block.
fn push_padding(tail: &mut Vec<u8>, len: u64)
    requires
        old(tail)@.len() == len as int % 64,
        len <= MAX_MESSAGE,
    ensures
        final(tail)@ == old(tail)@ + padding(len as int),
{
    let ghost before = tail@;
    let used: usize = tail.len();
    tail.push(0x80);
    let pad: usize = if used < 56 {
        55 - used
    } else {
        119 - used
    };
    let ghost head = tail@;
    let mut i: usize = 0;
    assert(tail@ =~= head + Seq::new(0, |k: int| 0u8));
    while i < pad
        invariant
            i <= pad <= 63,
            tail@ == head + Seq::new(i as nat, |k: int| 0u8),
        decreases pad - i,
    {
        tail.push(0);
        i = i + 1;
        assert(tail@ =~= head + Seq::new(i as nat, |k: int| 0u8));
    }
    push_be8(tail, 8 * len);
    assert(tail@ =~= before + padding(len as int));
}

/// Absorb one or two final blocks.
fn finish_blocks(s: Words, tail: &Vec<u8>) -> (r: Words)
    requires
        tail@.len() == 64 || tail@.len() == 128,
    ensures
        r == finished(s, tail@),
{
    let state = compress_block(s, vstd::slice::slice_subrange(tail.as_slice(), 0, 64));
    if tail.len() > 64 {
        compress_block(state, vstd::slice::slice_subrange(tail.as_slice(), 64, 128))
    } else {
        state
    }
}

/// The bytes of a hash value.
fn state_bytes(state: Words) -> (r: Vec<u8>)
    ensures
        r@ == word_bytes(state),
        r@.len() == 32,
{
    reveal(word_bytes);
    let mut out: Vec<u8> = Vec::new();
    push_be4(&mut out, state.a);
    push_be4(&mut out, state.b);
    push_be4(&mut out, state.c);
    push_be4(&mut out, state.d);
    push_be4(&mut out, state.e);
    push_be4(&mut out, state.f);
    push_be4(&mut out, state.g);
    push_be4(&mut out, state.h);
    assert(out@ =~= word_bytes(state));
    out
}

fn push_be4(out: &mut Vec<u8>, n: u32)
    ensures
        final(out)@ == old(out)@ + be_bytes4(n),
{
    out.push((n / 0x100_0000) as u8);
    out.push((n / 0x1_0000 % 256) as u8);
    out.push((n / 0x100 % 256) as u8);
    out.push((n % 256) as u8);
    assert(out@ =~= old(out)@ + be_bytes4(n));
}

fn push_be8(out: &mut Vec<u8>, n: u64)
    ensures
        final(out)@ == old(out)@ + be_bytes8(n),
{
    out.push((n / 0x100_0000_0000_0000) as u8);
    out.push((n / 0x1_0000_0000_0000 % 256) as u8);
    out.push((n / 0x100_0000_0000 % 256) as u8);
    out.push((n / 0x1_0000_0000 % 256) as u8);
    out.push((n / 0x100_0000 % 256) as u8);
    out.push((n / 0x1_0000 % 256) as u8);
    out.push((n / 0x100 % 256) as u8);
    out.push((n % 256) as u8);
    assert(out@ =~= old(out)@ + be_bytes8(n));
}

/// The SHA-256 digest of `data`.
pub fn digest(data: &[u8]) -> (r: Vec<u8>)
    requires
        data@.len() <= MAX_MESSAGE,
    ensures
        r@ == sha256(data@),
        r@.len() == 32,
{
    let h = Sha256::new().update(data);
    assert(h@ =~= data@);
    h.finalize()
}

} // verus!
