//! Big-endian byte strings read as natural numbers.

use vstd::prelude::*;

verus! {

/// The natural number that `s` denotes in big-endian base 256.
pub open spec fn be_value(s: Seq<u8>) -> nat
    decreases s.len(),
{
    if s.len() == 0 {
        0
    } else {
        be_value(s.drop_last()) * 256 + s.last() as nat
    }
}

/// 256 to the power `n`.
pub open spec fn pow256(n: nat) -> nat
    decreases n,
{
    if n == 0 {
        1
    } else {
        256 * pow256((n - 1) as nat)
    }
}

/// 2^256, the least number that 32 bytes cannot hold.
pub open spec fn two_pow_256() -> nat {
    0x1_0000000000000000_0000000000000000_0000000000000000_0000000000000000nat
}

/// How two numbers stand to each other.
#[derive(Clone, Copy, Debug, PartialEq, Eq)]
pub enum Relation {
    /// The first is smaller.
    Below,
    /// They are equal.
    Same,
    /// The first is larger.
    Above,
}

/// The relation of `x` to `y`.
pub open spec fn relation_of(x: nat, y: nat) -> Relation {
    if x < y {
        Relation::Below
    } else if x == y {
        Relation::Same
    } else {
        Relation::Above
    }
}

/// Appending one byte multiplies the value by 256 and adds the byte.
pub proof fn lemma_prefix_step(s: Seq<u8>, i: int)
    requires
        0 <= i < s.len(),
    ensures
        be_value(s.subrange(0, i + 1)) == be_value(s.subrange(0, i)) * 256 + s[i] as nat,
{
    assert(s.subrange(0, i + 1).drop_last() =~= s.subrange(0, i));
}

/// A byte string of length `n` denotes a number below 256^n.
pub proof fn lemma_be_value_bound(s: Seq<u8>)
    ensures
        be_value(s) < pow256(s.len()),
    decreases s.len(),
{
    if s.len() > 0 {
        lemma_be_value_bound(s.drop_last());
    }
}

/// 32 bytes denote a number below 2^256.
pub proof fn lemma_be_value_bound_32(s: Seq<u8>)
    requires
        s.len() == 32,
    ensures
        be_value(s) < two_pow_256(),
{
    lemma_be_value_bound(s);
    assert(pow256(32) == two_pow_256()) by {
        reveal_with_fuel(pow256, 33);
    }
}

/// Byte strings of one length that denote the same number are equal.
pub proof fn lemma_be_value_injective(a: Seq<u8>, b: Seq<u8>)
    requires
        a.len() == b.len(),
        be_value(a) == be_value(b),
    ensures
        a == b,
    decreases a.len(),
{
    if a.len() > 0 {
        lemma_be_value_injective(a.drop_last(), b.drop_last());
        assert(a =~= a.drop_last().push(a.last()));
        assert(b =~= b.drop_last().push(b.last()));
    } else {
        assert(a =~= b);
    }
}

/// The parity of the number is the parity of the last byte.
pub proof fn lemma_be_value_parity(s: Seq<u8>)
    requires
        s.len() > 0,
    ensures
        be_value(s) % 2 == (s.last() as nat) % 2,
{
}

/// A string of zero bytes denotes zero.
pub proof fn lemma_be_value_zeros(s: Seq<u8>)
    requires
        forall|i: int| 0 <= i < s.len() ==> s[i] == 0,
    ensures
        be_value(s) == 0,
    decreases s.len(),
{
    if s.len() > 0 {
        lemma_be_value_zeros(s.drop_last());
    }
}

/// Compares two 32-byte numbers.
pub fn relation(a: &[u8; 32], b: &[u8; 32]) -> (r: Relation)
    ensures
        r == relation_of(be_value(a@), be_value(b@)),
{
    let mut state = Relation::Same;
    let mut i: usize = 0;
    while i < 32
        invariant
            i <= 32,
            state == relation_of(be_value(a@.subrange(0, i as int)), be_value(b@.subrange(0, i as int))),
        decreases 32 - i,
    {
        proof {
            lemma_prefix_step(a@, i as int);
            lemma_prefix_step(b@, i as int);
        }
        let x: u8 = a[i];
        let y: u8 = b[i];
        match state {
            Relation::Same => {
                if x < y {
                    state = Relation::Below;
                } else if x > y {
                    state = Relation::Above;
                }
            },
            _ => {},
        }
        i = i + 1;
    }
    proof {
        assert(a@.subrange(0, 32) =~= a@);
        assert(b@.subrange(0, 32) =~= b@);
    }
    state
}

/// Whether the first number is smaller than the second.
pub fn less_than(a: &[u8; 32], b: &[u8; 32]) -> (r: bool)
    ensures
        r == (be_value(a@) < be_value(b@)),
{
    match relation(a, b) {
        Relation::Below => true,
        _ => false,
    }
}

/// Whether the two numbers are equal, which is whether the arrays are.
pub fn equal(a: &[u8; 32], b: &[u8; 32]) -> (r: bool)
    ensures
        r == (be_value(a@) == be_value(b@)),
        r == (a@ == b@),
{
    proof {
        if be_value(a@) == be_value(b@) {
            lemma_be_value_injective(a@, b@);
        }
    }
    match relation(a, b) {
        Relation::Same => true,
        _ => false,
    }
}

/// Whether the number is zero.
pub fn is_zero(a: &[u8; 32]) -> (r: bool)
    ensures
        r == (be_value(a@) == 0),
{
    let zero: [u8; 32] = [0u8; 32];
    proof {
        lemma_be_value_zeros(zero@);
    }
    equal(a, &zero)
}

/// Whether the number is odd.
pub fn is_odd(a: &[u8; 32]) -> (r: bool)
    ensures
        r == (be_value(a@) % 2 == 1),
{
    proof {
        lemma_be_value_parity(a@);
    }
    a[31] % 2 == 1
}

/// The `N` bytes of `src` that start at `at`.
pub fn read_array<const N: usize>(src: &[u8], at: usize) -> (r: [u8; N])
    requires
        at + N <= src@.len(),
    ensures
        r@ == src@.subrange(at as int, at + N),
{
    let n: usize = src.len();
    let mut out: [u8; N] = [0u8; N];
    let mut i: usize = 0;
    while i < N
        invariant
            i <= N,
            n == src@.len(),
            at + N <= n,
            forall|j: int| 0 <= j < i ==> out@[j] == src@[at + j],
        decreases N - i,
    {
        out[i] = src[at + i];
        i = i + 1;
    }
    assert(out@ =~= src@.subrange(at as int, at + N));
    out
}

/// Writes `src` over the bytes of `dst` that start at `at`.
pub fn write_at<const N: usize>(dst: &mut [u8; N], at: usize, src: &[u8])
    requires
        at + src@.len() <= N,
    ensures
        final(dst)@ == old(dst)@.subrange(0, at as int) + src@ + old(dst)@.subrange(
            at + src@.len(),
            N as int,
        ),
{
    let n: usize = src.len();
    let mut i: usize = 0;
    while i < n
        invariant
            i <= n,
            n == src@.len(),
            at + n <= N,
            forall|j: int| 0 <= j < at ==> dst@[j] == old(dst)@[j],
            forall|j: int| at + n <= j < N ==> dst@[j] == old(dst)@[j],
            forall|j: int| 0 <= j < i ==> dst@[at + j] == src@[j],
        decreases n - i,
    {
        dst[at + i] = src[i];
        i = i + 1;
    }
    assert(dst@ =~= old(dst)@.subrange(0, at as int) + src@ + old(dst)@.subrange(
        at + src@.len(),
        N as int,
    ));
}

/// The value of 32 bytes, written out byte by byte.
pub open spec fn be_value_32(s: Seq<u8>) -> nat {
    (s[0] as nat) * 0x100000000000000000000000000000000000000000000000000000000000000nat
        + (s[1] as nat) * 0x1000000000000000000000000000000000000000000000000000000000000nat
        + (s[2] as nat) * 0x10000000000000000000000000000000000000000000000000000000000nat
        + (s[3] as nat) * 0x100000000000000000000000000000000000000000000000000000000nat
        + (s[4] as nat) * 0x1000000000000000000000000000000000000000000000000000000nat
        + (s[5] as nat) * 0x10000000000000000000000000000000000000000000000000000nat
        + (s[6] as nat) * 0x100000000000000000000000000000000000000000000000000nat
        + (s[7] as nat) * 0x1000000000000000000000000000000000000000000000000nat
        + (s[8] as nat) * 0x10000000000000000000000000000000000000000000000nat
        + (s[9] as nat) * 0x100000000000000000000000000000000000000000000nat
        + (s[10] as nat) * 0x1000000000000000000000000000000000000000000nat
        + (s[11] as nat) * 0x10000000000000000000000000000000000000000nat
        + (s[12] as nat) * 0x100000000000000000000000000000000000000nat
        + (s[13] as nat) * 0x1000000000000000000000000000000000000nat
        + (s[14] as nat) * 0x10000000000000000000000000000000000nat
        + (s[15] as nat) * 0x100000000000000000000000000000000nat
        + (s[16] as nat) * 0x1000000000000000000000000000000nat
        + (s[17] as nat) * 0x10000000000000000000000000000nat
        + (s[18] as nat) * 0x100000000000000000000000000nat
        + (s[19] as nat) * 0x1000000000000000000000000nat
        + (s[20] as nat) * 0x10000000000000000000000nat
        + (s[21] as nat) * 0x100000000000000000000nat
        + (s[22] as nat) * 0x1000000000000000000nat
        + (s[23] as nat) * 0x10000000000000000nat
        + (s[24] as nat) * 0x100000000000000nat
        + (s[25] as nat) * 0x1000000000000nat
        + (s[26] as nat) * 0x10000000000nat
        + (s[27] as nat) * 0x100000000nat
        + (s[28] as nat) * 0x1000000nat
        + (s[29] as nat) * 0x10000nat
        + (s[30] as nat) * 0x100nat
        + (s[31] as nat) * 0x1nat
}

/// For 32 bytes the recursive and the written-out value agree.
pub proof fn lemma_be_value_32(s: Seq<u8>)
    requires
        s.len() == 32,
    ensures
        be_value(s) == be_value_32(s),
{
    reveal_with_fuel(be_value, 33);
}

} // verus!
