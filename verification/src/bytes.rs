//! Fixed-length byte strings, held as big-endian integers so that equality is
//! structural and the lexicographic order of the bytes is the numeric order.
//! Also the little- and big-endian byte arithmetic that the wire format uses.

use vstd::prelude::*;

verus! {

/// `256` raised to `k`.
pub open spec fn pow256(k: nat) -> nat
    decreases k,
{
    if k == 0 {
        1
    } else {
        256 * pow256((k - 1) as nat)
    }
}

/// The `k` lowest bytes of `x`, least significant first.
pub open spec fn le_bytes(x: nat, k: nat) -> Seq<u8>
    decreases k,
{
    if k == 0 {
        seq![]
    } else {
        seq![(x % 256) as u8] + le_bytes(x / 256, (k - 1) as nat)
    }
}

/// The `k` lowest bytes of `x`, most significant first.
pub open spec fn be_bytes(x: nat, k: nat) -> Seq<u8>
    decreases k,
{
    if k == 0 {
        seq![]
    } else {
        be_bytes(x / 256, (k - 1) as nat) + seq![(x % 256) as u8]
    }
}

/// The number that a little-endian byte string denotes.
pub open spec fn from_le(s: Seq<u8>) -> nat
    decreases s.len(),
{
    if s.len() == 0 {
        0
    } else {
        s[0] as nat + 256 * from_le(s.drop_first())
    }
}

/// The number that a big-endian byte string denotes.
pub open spec fn from_be(s: Seq<u8>) -> nat
    decreases s.len(),
{
    if s.len() == 0 {
        0
    } else {
        from_be(s.drop_last()) * 256 + s.last() as nat
    }
}

pub proof fn lemma_pow256_positive(k: nat)
    ensures
        pow256(k) >= 1,
    decreases k,
{
    if k > 0 {
        lemma_pow256_positive((k - 1) as nat);
    }
}

pub proof fn lemma_pow256_values()
    ensures
        pow256(1) == 0x100,
        pow256(2) == 0x1_0000,
        pow256(4) == 0x1_0000_0000,
        pow256(8) == 0x1_0000_0000_0000_0000,
        pow256(16) == 0x1_0000_0000_0000_0000_0000_0000_0000_0000,
{
    reveal_with_fuel(pow256, 17);
}

pub proof fn lemma_pow256_monotone(j: nat, k: nat)
    requires
        j <= k,
    ensures
        pow256(j) <= pow256(k),
    decreases k,
{
    if j < k {
        lemma_pow256_monotone(j, (k - 1) as nat);
        lemma_pow256_positive((k - 1) as nat);
    }
}

pub proof fn lemma_le_bytes_len(x: nat, k: nat)
    ensures
        le_bytes(x, k).len() == k,
    decreases k,
{
    if k > 0 {
        lemma_le_bytes_len(x / 256, (k - 1) as nat);
    }
}

pub proof fn lemma_be_bytes_len(x: nat, k: nat)
    ensures
        be_bytes(x, k).len() == k,
    decreases k,
{
    if k > 0 {
        lemma_be_bytes_len(x / 256, (k - 1) as nat);
    }
}

/// Reading back the `k` little-endian bytes of a number below `256^k` gives the number.
pub proof fn lemma_from_le_bytes(x: nat, k: nat)
    requires
        x < pow256(k),
    ensures
        from_le(le_bytes(x, k)) == x,
    decreases k,
{
    if k > 0 {
        let s = le_bytes(x, k);
        lemma_le_bytes_len(x / 256, (k - 1) as nat);
        assert(s.drop_first() =~= le_bytes(x / 256, (k - 1) as nat));
        assert(x / 256 < pow256((k - 1) as nat));
        lemma_from_le_bytes(x / 256, (k - 1) as nat);
    }
}

/// Reading back the `k` big-endian bytes of a number below `256^k` gives the number.
pub proof fn lemma_from_be_bytes(x: nat, k: nat)
    requires
        x < pow256(k),
    ensures
        from_be(be_bytes(x, k)) == x,
    decreases k,
{
    if k > 0 {
        let s = be_bytes(x, k);
        lemma_be_bytes_len(x / 256, (k - 1) as nat);
        assert(s.drop_last() =~= be_bytes(x / 256, (k - 1) as nat));
        assert(x / 256 < pow256((k - 1) as nat));
        lemma_from_be_bytes(x / 256, (k - 1) as nat);
    }
}

/// A big-endian string of `k` bytes denotes a number below `256^k`.
pub proof fn lemma_from_be_bound(s: Seq<u8>)
    ensures
        from_be(s) < pow256(s.len()),
    decreases s.len(),
{
    if s.len() > 0 {
        lemma_from_be_bound(s.drop_last());
    }
}

/// Appends the `k` big-endian bytes of `x` to `out`.
pub fn push_be(x: u128, k: usize, out: &mut Vec<u8>)
    requires
        k <= 16,
    ensures
        final(out)@ == old(out)@ + be_bytes(x as nat, k as nat),
    decreases k,
{
    if k > 0 {
        push_be(x / 256, k - 1, out);
        out.push((x % 256) as u8);
        assert(final(out)@ =~= old(out)@ + be_bytes(x as nat, k as nat));
    } else {
        assert(final(out)@ =~= old(out)@ + be_bytes(x as nat, k as nat));
    }
}

/// Appends the `k` little-endian bytes of `x` to `out`.
pub fn push_le(x: u128, k: usize, out: &mut Vec<u8>)
    requires
        k <= 16,
    ensures
        final(out)@ == old(out)@ + le_bytes(x as nat, k as nat),
    decreases k,
{
    if k > 0 {
        out.push((x % 256) as u8);
        push_le(x / 256, k - 1, out);
        assert(final(out)@ =~= old(out)@ + le_bytes(x as nat, k as nat));
    } else {
        assert(final(out)@ =~= old(out)@ + le_bytes(x as nat, k as nat));
    }
}

/// Reads `k` big-endian bytes of `s` from `pos`.
pub fn read_be(s: &[u8], pos: usize, k: usize) -> (x: u128)
    requires
        k <= 16,
        pos + k <= s@.len(),
    ensures
        x as nat == from_be(s@.subrange(pos as int, pos + k)),
{
    let mut acc: u128 = 0;
    let mut i: usize = 0;
    let n = s.len();
    while i < k
        invariant
            n == s@.len(),
            i <= k,
            k <= 16,
            pos + k <= s@.len(),
            acc as nat == from_be(s@.subrange(pos as int, pos + i)),
        decreases k - i,
    {
        let ghost prefix = s@.subrange(pos as int, pos + i + 1);
        assert(prefix.drop_last() =~= s@.subrange(pos as int, pos + i));
        proof {
            lemma_from_be_bound(s@.subrange(pos as int, pos + i));
            lemma_pow256_monotone(i as nat, 15);
            lemma_pow256_values();
            assert(pow256(16) == 256 * pow256(15));
        }
        acc = acc * 256 + s[pos + i] as u128;
        i = i + 1;
    }
    acc
}

/// Four bytes, most significant first.
#[derive(Clone, Copy, PartialEq, Eq, Structural, Debug)]
pub struct Bytes4(pub u32);

/// Eight bytes, most significant first.
#[derive(Clone, Copy, PartialEq, Eq, Structural, Debug)]
pub struct Bytes8(pub u64);

/// Sixteen bytes, most significant first.
#[derive(Clone, Copy, PartialEq, Eq, Structural, Debug)]
pub struct Bytes16(pub u128);

/// Twenty bytes: the first four in `hi`, the last sixteen in `lo`.
#[derive(Clone, Copy, PartialEq, Eq, Structural, Debug)]
pub struct Bytes20 {
    pub hi: u32,
    pub lo: u128,
}

/// Thirty-two bytes: the first sixteen in `hi`, the last sixteen in `lo`.
#[derive(Clone, Copy, PartialEq, Eq, Structural, Debug)]
pub struct Bytes32 {
    pub hi: u128,
    pub lo: u128,
}

impl Bytes4 {
    pub open spec fn bytes(self) -> Seq<u8> {
        be_bytes(self.0 as nat, 4)
    }
}

impl Bytes8 {
    pub open spec fn bytes(self) -> Seq<u8> {
        be_bytes(self.0 as nat, 8)
    }
}

impl Bytes16 {
    pub open spec fn bytes(self) -> Seq<u8> {
        be_bytes(self.0 as nat, 16)
    }
}

impl Bytes20 {
    pub open spec fn bytes(self) -> Seq<u8> {
        be_bytes(self.hi as nat, 4) + be_bytes(self.lo as nat, 16)
    }
}

impl Bytes32 {
    pub open spec fn bytes(self) -> Seq<u8> {
        be_bytes(self.hi as nat, 16) + be_bytes(self.lo as nat, 16)
    }

    /// The value whose bytes are `a`.
    pub fn from_array(a: [u8; 32]) -> (r: Bytes32)
        ensures
            r.bytes() == a@,
    {
        let s = a.as_slice();
        let hi = read_be(s, 0, 16);
        let lo = read_be(s, 16, 16);
        proof {
            lemma_from_be_bound(a@.subrange(0, 16));
            lemma_from_be_bound(a@.subrange(16, 32));
            lemma_be_of_from_be(a@.subrange(0, 16));
            lemma_be_of_from_be(a@.subrange(16, 32));
            assert(a@ =~= a@.subrange(0, 16) + a@.subrange(16, 32));
        }
        Bytes32 { hi, lo }
    }
}

/// Writing back the number that a big-endian string denotes gives the string.
pub proof fn lemma_be_of_from_be(s: Seq<u8>)
    ensures
        be_bytes(from_be(s), s.len()) == s,
    decreases s.len(),
{
    if s.len() > 0 {
        let x = from_be(s);
        let p = s.drop_last();
        lemma_be_of_from_be(p);
        assert(x / 256 == from_be(p));
        assert(x % 256 == s.last() as nat);
        assert(be_bytes(x, s.len()) =~= s);
    }
}

} // verus!
