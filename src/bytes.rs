//! Little-endian integers and byte ranges inside an account's data.

use vstd::prelude::*;

use crate::pubkey::Pubkey;

verus! {

/// The value of the four bytes at `p`, least significant first.
pub open spec fn le_u32(d: Seq<u8>, p: int) -> nat {
    (d[p] + 256 * d[p + 1] + 65536 * d[p + 2] + 16777216 * d[p + 3]) as nat
}

/// The value of the eight bytes at `p`, least significant first.
pub open spec fn le_u64(d: Seq<u8>, p: int) -> nat {
    le_u32(d, p) + 4294967296 * le_u32(d, p + 4)
}

/// The four bytes that encode `x`, least significant first.
pub open spec fn u32_le_bytes(x: nat) -> Seq<u8> {
    seq![
        (x % 256) as u8,
        ((x / 256) % 256) as u8,
        ((x / 65536) % 256) as u8,
        ((x / 16777216) % 256) as u8,
    ]
}

/// The eight bytes that encode `x`, least significant first.
pub open spec fn u64_le_bytes(x: nat) -> Seq<u8> {
    u32_le_bytes(x % 4294967296) + u32_le_bytes(x / 4294967296)
}

/// `d` with the bytes from `p` on replaced by `t`.
pub open spec fn spliced(d: Seq<u8>, p: int, t: Seq<u8>) -> Seq<u8> {
    Seq::new(d.len(), |k: int| if p <= k < p + t.len() { t[k - p] } else { d[k] })
}

/// `d` with the bytes in `[lo, hi)` set to zero.
pub open spec fn zeroed(d: Seq<u8>, lo: int, hi: int) -> Seq<u8> {
    Seq::new(d.len(), |k: int| if lo <= k < hi { 0u8 } else { d[k] })
}

/// True when the bytes in `[lo, hi)` are all zero.
pub open spec fn all_zero(d: Seq<u8>, lo: int, hi: int) -> bool {
    forall|k: int| lo <= k < hi ==> #[trigger] d[k] == 0u8
}

pub proof fn lemma_u32_round_trip(x: nat)
    requires
        x < 4294967296,
    ensures
        le_u32(u32_le_bytes(x), 0) == x,
{
}

/// A `u32` reads the same from two byte strings that agree on its bytes.
pub proof fn lemma_u32_unchanged(a: Seq<u8>, b: Seq<u8>, q: int)
    requires
        forall|k: int| q <= k < q + 4 ==> a[k] == b[k],
    ensures
        le_u32(a, q) == le_u32(b, q),
{
    assert(a[q] == b[q] && a[q + 1] == b[q + 1] && a[q + 2] == b[q + 2] && a[q + 3] == b[q + 3]);
}

/// A `u64` reads the same from two byte strings that agree on its bytes.
pub proof fn lemma_u64_unchanged(a: Seq<u8>, b: Seq<u8>, q: int)
    requires
        forall|k: int| q <= k < q + 8 ==> a[k] == b[k],
    ensures
        le_u64(a, q) == le_u64(b, q),
{
    lemma_u32_unchanged(a, b, q);
    lemma_u32_unchanged(a, b, q + 4);
}

/// Bytes outside a splice are unchanged.
pub proof fn lemma_u32_outside_splice(d: Seq<u8>, p: int, t: Seq<u8>, q: int)
    requires
        0 <= q,
        q + 4 <= d.len(),
        q + 4 <= p || p + t.len() <= q,
    ensures
        le_u32(spliced(d, p, t), q) == le_u32(d, q),
{
    let s = spliced(d, p, t);
    assert(s[q] == d[q]);
    assert(s[q + 1] == d[q + 1]);
    assert(s[q + 2] == d[q + 2]);
    assert(s[q + 3] == d[q + 3]);
}

/// A range of bytes outside a splice is unchanged.
pub proof fn lemma_range_outside_splice(d: Seq<u8>, p: int, t: Seq<u8>, a: int, b: int)
    requires
        0 <= a <= b <= d.len(),
        b <= p || p + t.len() <= a,
    ensures
        spliced(d, p, t).subrange(a, b) == d.subrange(a, b),
{
    assert(spliced(d, p, t).subrange(a, b) =~= d.subrange(a, b));
}

/// A range of bytes outside a zeroed range is unchanged.
pub proof fn lemma_range_outside_zeroed(d: Seq<u8>, lo: int, hi: int, a: int, b: int)
    requires
        0 <= a <= b <= d.len(),
        b <= lo || hi <= a,
    ensures
        zeroed(d, lo, hi).subrange(a, b) == d.subrange(a, b),
{
    assert(zeroed(d, lo, hi).subrange(a, b) =~= d.subrange(a, b));
}

/// The spliced range reads back.
pub proof fn lemma_range_in_splice(d: Seq<u8>, p: int, t: Seq<u8>)
    requires
        0 <= p,
        p + t.len() <= d.len(),
    ensures
        spliced(d, p, t).subrange(p, p + t.len()) == t,
{
    assert(spliced(d, p, t).subrange(p, p + t.len()) =~= t);
}

/// A spliced `u32` reads back.
pub proof fn lemma_u32_in_splice(d: Seq<u8>, p: int, x: nat)
    requires
        0 <= p,
        p + 4 <= d.len(),
        x < 4294967296,
    ensures
        le_u32(spliced(d, p, u32_le_bytes(x)), p) == x,
{
    let t = u32_le_bytes(x);
    let s = spliced(d, p, t);
    lemma_u32_round_trip(x);
    assert(s[p] == t[0]);
    assert(s[p + 1] == t[1]);
    assert(s[p + 2] == t[2]);
    assert(s[p + 3] == t[3]);
}

/// Reads the little-endian `u32` at `p`.
pub fn read_u32(d: &Vec<u8>, p: usize) -> (r: u32)
    requires
        p + 4 <= d@.len(),
    ensures
        r == le_u32(d@, p as int),
{
    let n: usize = d.len();
    assert(p + 3 < n);
    let b0 = d[p] as u32;
    let b1 = d[p + 1] as u32;
    let b2 = d[p + 2] as u32;
    let b3 = d[p + 3] as u32;
    b0 + 256 * b1 + 65536 * b2 + 16777216 * b3
}

/// Reads the little-endian `u64` at `p`.
pub fn read_u64(d: &Vec<u8>, p: usize) -> (r: u64)
    requires
        p + 8 <= d@.len(),
    ensures
        r == le_u64(d@, p as int),
{
    let n: usize = d.len();
    assert(p + 4 < n);
    let lo = read_u32(d, p) as u64;
    let hi = read_u32(d, p + 4) as u64;
    lo + 4294967296 * hi
}

/// Copies `t` into `d` from `p` on.
pub fn write_bytes(d: &mut Vec<u8>, p: usize, t: &Vec<u8>)
    requires
        p + t@.len() <= old(d)@.len(),
    ensures
        final(d)@ == spliced(old(d)@, p as int, t@),
{
    let ghost d0 = d@;
    let n: usize = d.len();
    let mut i: usize = 0;
    while i < t.len()
        invariant
            i <= t@.len(),
            n == d0.len(),
            p + t@.len() <= d0.len(),
            d@.len() == d0.len(),
            forall|k: int| 0 <= k < d0.len() ==> #[trigger] d@[k] == if p <= k < p + i {
                t@[k - p]
            } else {
                d0[k]
            },
        decreases t@.len() - i,
    {
        d.set(p + i, t[i]);
        i = i + 1;
    }
    assert(d@ =~= spliced(d0, p as int, t@));
}

/// Writes `x` as four little-endian bytes at `p`.
pub fn write_u32(d: &mut Vec<u8>, p: usize, x: u32)
    requires
        p + 4 <= old(d)@.len(),
    ensures
        final(d)@ == spliced(old(d)@, p as int, u32_le_bytes(x as nat)),
        le_u32(final(d)@, p as int) == x,
{
    let ghost d0 = d@;
    let n: usize = d.len();
    assert(p + 3 < n);
    d.set(p, (x % 256) as u8);
    d.set(p + 1, ((x / 256) % 256) as u8);
    d.set(p + 2, ((x / 65536) % 256) as u8);
    d.set(p + 3, ((x / 16777216) % 256) as u8);
    assert(d@ =~= spliced(d0, p as int, u32_le_bytes(x as nat)));
}

/// Writes `x` as eight little-endian bytes at `p`.
pub fn write_u64(d: &mut Vec<u8>, p: usize, x: u64)
    requires
        p + 8 <= old(d)@.len(),
    ensures
        final(d)@ == spliced(old(d)@, p as int, u64_le_bytes(x as nat)),
        le_u64(final(d)@, p as int) == x,
{
    let ghost d0 = d@;
    let n: usize = d.len();
    assert(p + 4 < n);
    let lo = (x % 4294967296) as u32;
    let hi = (x / 4294967296) as u32;
    write_u32(d, p, lo);
    write_u32(d, p + 4, hi);
    assert(d@ =~= spliced(d0, p as int, u64_le_bytes(x as nat)));
}

/// The eight little-endian bytes of `x`.
pub fn u64_bytes(x: u64) -> (r: Vec<u8>)
    ensures
        r@ == u64_le_bytes(x as nat),
{
    let mut r: Vec<u8> = vec![0u8; 8];
    write_u64(&mut r, 0, x);
    assert(r@ =~= u64_le_bytes(x as nat));
    r
}

/// Writes the 32 bytes of `k` at `p`.
pub fn write_key(d: &mut Vec<u8>, p: usize, k: &Pubkey)
    requires
        p + 32 <= old(d)@.len(),
    ensures
        final(d)@ == spliced(old(d)@, p as int, k@),
{
    let t = k.to_vec();
    write_bytes(d, p, &t);
}

/// Reads the 32 bytes at `p` as an address.
pub fn read_key(d: &Vec<u8>, p: usize) -> (r: Pubkey)
    requires
        p + 32 <= d@.len(),
    ensures
        r@ == d@.subrange(p as int, p + 32),
{
    let n: usize = d.len();
    let mut bytes = [0u8; 32];
    let mut i: usize = 0;
    while i < 32
        invariant
            i <= 32,
            n == d@.len(),
            p + 32 <= d@.len(),
            bytes@.len() == 32,
            forall|k: int| 0 <= k < i ==> #[trigger] bytes@[k] == d@[p + k],
        decreases 32 - i,
    {
        bytes.set(i, d[p + i]);
        i = i + 1;
    }
    let r = Pubkey::new_from_array(bytes);
    assert(r@ =~= d@.subrange(p as int, p + 32));
    r
}

/// True when the 32 bytes at `p` equal `k`.
pub fn key_at_equals(d: &Vec<u8>, p: usize, k: &Pubkey) -> (r: bool)
    requires
        p + 32 <= d@.len(),
    ensures
        r == (d@.subrange(p as int, p + 32) == k@),
{
    let n: usize = d.len();
    let mut i: usize = 0;
    while i < 32
        invariant
            i <= 32,
            n == d@.len(),
            p + 32 <= d@.len(),
            k@.len() == 32,
            forall|j: int| 0 <= j < i ==> d@[p + j] == k@[j],
        decreases 32 - i,
    {
        if d[p + i] != k.bytes[i] {
            assert(d@.subrange(p as int, p + 32)[i as int] != k@[i as int]);
            return false;
        }
        i = i + 1;
    }
    assert(d@.subrange(p as int, p + 32) =~= k@);
    true
}

/// Sets the bytes in `[lo, hi)` to zero.
pub fn zero_range(d: &mut Vec<u8>, lo: usize, hi: usize)
    requires
        lo <= hi <= old(d)@.len(),
    ensures
        final(d)@ == zeroed(old(d)@, lo as int, hi as int),
{
    let ghost d0 = d@;
    let mut i: usize = lo;
    while i < hi
        invariant
            lo <= i <= hi,
            hi <= d0.len(),
            d@.len() == d0.len(),
            forall|k: int| 0 <= k < d0.len() ==> #[trigger] d@[k] == if lo <= k < i {
                0u8
            } else {
                d0[k]
            },
        decreases hi - i,
    {
        d.set(i, 0);
        i = i + 1;
    }
    assert(d@ =~= zeroed(d0, lo as int, hi as int));
}

/// Copies the `len` bytes at `src` to `dst`, where `dst <= src`.
pub fn copy_down(d: &mut Vec<u8>, src: usize, dst: usize, len: usize)
    requires
        dst <= src,
        src + len <= old(d)@.len(),
    ensures
        final(d)@ == spliced(old(d)@, dst as int, old(d)@.subrange(src as int, src + len)),
{
    let ghost d0 = d@;
    let n: usize = d.len();
    let mut i: usize = 0;
    while i < len
        invariant
            i <= len,
            n == d0.len(),
            dst <= src,
            src + len <= d0.len(),
            d@.len() == d0.len(),
            forall|k: int| 0 <= k < d0.len() ==> #[trigger] d@[k] == if dst <= k < dst + i {
                d0[k - dst + src]
            } else {
                d0[k]
            },
        decreases len - i,
    {
        let b = d[src + i];
        d.set(dst + i, b);
        i = i + 1;
    }
    assert(d@ =~= spliced(d0, dst as int, d0.subrange(src as int, src + len)));
}

} // verus!
