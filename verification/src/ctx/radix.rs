//! Numbers as runs of bytes: what a run of bytes spells in either byte order, the bytes of a
//! number, and the loops that compute both.

use vstd::prelude::*;
use vstd::arithmetic::div_mod::lemma_div_denominator;

verus! {

/// 256 to the power of `n`: the number of values that `n` bytes can spell.
pub open spec fn radix(n: nat) -> nat
    decreases n,
{
    if n == 0 {
        1
    } else {
        256 * radix((n - 1) as nat)
    }
}

/// The number that `bytes` spell with the least significant byte first.
pub open spec fn le_value(bytes: Seq<u8>) -> nat
    decreases bytes.len(),
{
    if bytes.len() == 0 {
        0
    } else {
        bytes[0] as nat + 256 * le_value(bytes.drop_first())
    }
}

/// The number that `bytes` spell with the most significant byte first.
pub open spec fn be_value(bytes: Seq<u8>) -> nat
    decreases bytes.len(),
{
    if bytes.len() == 0 {
        0
    } else {
        256 * be_value(bytes.drop_last()) + bytes.last() as nat
    }
}

/// The `n` low bytes of `x`, least significant first.
pub open spec fn le_bytes(x: nat, n: nat) -> Seq<u8> {
    Seq::new(n, |k: int| ((x / radix(k as nat)) % 256) as u8)
}

/// The `n` low bytes of `x`, most significant first.
pub open spec fn be_bytes(x: nat, n: nat) -> Seq<u8> {
    Seq::new(n, |k: int| ((x / radix((n - 1 - k) as nat)) % 256) as u8)
}

/// The number that `bytes` spell in the given byte order.
pub open spec fn number(bytes: Seq<u8>, little: bool) -> nat {
    if little {
        le_value(bytes)
    } else {
        be_value(bytes)
    }
}

/// The `n` low bytes of `x` in the given byte order.
pub open spec fn number_bytes(x: nat, n: nat, little: bool) -> Seq<u8> {
    if little {
        le_bytes(x, n)
    } else {
        be_bytes(x, n)
    }
}

/// The number whose `n` bytes, least significant first, are the bytes of `x` in the given
/// byte order. In little endian order that is `x` itself; in big endian order it is `x`
/// with its `n` bytes reversed.
pub open spec fn reorder(x: nat, n: nat, little: bool) -> nat {
    if little {
        x
    } else {
        be_value(le_bytes(x, n))
    }
}

/// The signed number that the `n`-byte pattern `x` stands for in two's complement.
pub open spec fn signed(x: nat, n: nat) -> int {
    if 2 * x < radix(n) {
        x as int
    } else {
        x - radix(n)
    }
}

/// The `n`-byte pattern that stands for the signed number `x` in two's complement.
pub open spec fn unsigned(x: int, n: nat) -> nat {
    if x >= 0 {
        x as nat
    } else {
        (x + radix(n)) as nat
    }
}

/// No power of 256 is zero.
pub proof fn lemma_radix_positive(n: nat)
    ensures
        radix(n) > 0,
    decreases n,
{
    if n > 0 {
        lemma_radix_positive((n - 1) as nat);
    }
}

/// The values of `radix` at the widths of the fixed-width integers.
pub proof fn lemma_radix_values()
    ensures
        radix(0) == 1,
        radix(1) == 0x100,
        radix(2) == 0x1_0000,
        radix(4) == 0x1_0000_0000,
        radix(8) == 0x1_0000_0000_0000_0000,
        radix(16) == 0x1_0000_0000_0000_0000_0000_0000_0000_0000,
{
    reveal_with_fuel(radix, 5);
    assert(radix(4) == 0x1_0000_0000);
    assert(radix(8) == 0x1_0000_0000 * radix(4));
    assert(radix(12) == 0x1_0000_0000 * radix(8));
    assert(radix(16) == 0x1_0000_0000 * radix(12));
}

/// More bytes spell more numbers.
pub proof fn lemma_radix_monotonic(m: nat, n: nat)
    requires
        m <= n,
    ensures
        radix(m) <= radix(n),
    decreases n,
{
    if m < n {
        lemma_radix_monotonic(m, (n - 1) as nat);
        lemma_radix_positive((n - 1) as nat);
    }
}

/// `n` bytes spell a number below `radix(n)`, least significant byte first.
pub proof fn lemma_le_value_bound(bytes: Seq<u8>)
    ensures
        le_value(bytes) < radix(bytes.len()),
    decreases bytes.len(),
{
    if bytes.len() > 0 {
        lemma_le_value_bound(bytes.drop_first());
    }
}

/// `n` bytes spell a number below `radix(n)`, most significant byte first.
pub proof fn lemma_be_value_bound(bytes: Seq<u8>)
    ensures
        be_value(bytes) < radix(bytes.len()),
    decreases bytes.len(),
{
    if bytes.len() > 0 {
        lemma_be_value_bound(bytes.drop_last());
    }
}

/// Reading most significant byte first is reading the reversed bytes least significant
/// byte first.
pub proof fn lemma_be_value_reverse(bytes: Seq<u8>)
    ensures
        be_value(bytes) == le_value(bytes.reverse()),
    decreases bytes.len(),
{
    if bytes.len() > 0 {
        lemma_be_value_reverse(bytes.drop_last());
        assert(bytes.reverse().drop_first() =~= bytes.drop_last().reverse());
    }
}

/// The bytes of a number, most significant first, are its bytes least significant first,
/// reversed.
pub proof fn lemma_be_bytes_reverse(x: nat, n: nat)
    ensures
        be_bytes(x, n) == le_bytes(x, n).reverse(),
{
    assert(be_bytes(x, n) =~= le_bytes(x, n).reverse());
}

/// Behind its lowest byte, a number's bytes are the bytes of the number divided by 256.
pub proof fn lemma_le_bytes_shift(x: nat, n: nat)
    requires
        n > 0,
    ensures
        le_bytes(x, n)[0] == x % 256,
        le_bytes(x, n).drop_first() == le_bytes(x / 256, (n - 1) as nat),
{
    assert(radix(0) == 1);
    assert(le_bytes(x, n)[0] == ((x / radix(0)) % 256) as u8);
    assert forall|k: int| 0 <= k < n - 1 implies le_bytes(x, n).drop_first()[k] == le_bytes(
        x / 256,
        (n - 1) as nat,
    )[k] by {
        lemma_radix_positive(k as nat);
        lemma_div_denominator(x as int, 256, radix(k as nat) as int);
        assert(radix((k + 1) as nat) == 256 * radix(k as nat));
    }
    assert(le_bytes(x, n).drop_first() =~= le_bytes(x / 256, (n - 1) as nat));
}

/// The `n` bytes of a number below `radix(n)` spell that number, least significant first.
pub proof fn lemma_le_round_trip(x: nat, n: nat)
    requires
        x < radix(n),
    ensures
        le_value(le_bytes(x, n)) == x,
    decreases n,
{
    if n > 0 {
        lemma_le_bytes_shift(x, n);
        lemma_le_round_trip(x / 256, (n - 1) as nat);
    }
}

/// The bytes of the number that `bytes` spell are `bytes`, least significant first.
pub proof fn lemma_le_bytes_of_value(bytes: Seq<u8>)
    ensures
        le_bytes(le_value(bytes), bytes.len()) == bytes,
    decreases bytes.len(),
{
    let n = bytes.len();
    if n > 0 {
        let x = le_value(bytes);
        lemma_le_bytes_shift(x, n);
        lemma_le_bytes_of_value(bytes.drop_first());
        assert(x / 256 == le_value(bytes.drop_first()));
        assert(le_bytes(x, n) =~= seq![le_bytes(x, n)[0]] + le_bytes(x, n).drop_first());
        assert(bytes =~= seq![bytes[0]] + bytes.drop_first());
    }
    assert(le_bytes(le_value(bytes), n) =~= bytes);
}

/// The `n` bytes of a number below `radix(n)` spell that number, most significant first.
pub proof fn lemma_be_round_trip(x: nat, n: nat)
    requires
        x < radix(n),
    ensures
        be_value(be_bytes(x, n)) == x,
{
    lemma_be_value_reverse(be_bytes(x, n));
    lemma_be_bytes_reverse(x, n);
    assert(le_bytes(x, n).reverse().reverse() =~= le_bytes(x, n));
    lemma_le_round_trip(x, n);
}

/// Reordering what bytes spell least significant first gives what they spell in the
/// byte order.
pub proof fn lemma_reorder_value(bytes: Seq<u8>, little: bool)
    ensures
        reorder(le_value(bytes), bytes.len(), little) == number(bytes, little),
        number(bytes, little) < radix(bytes.len()),
{
    lemma_le_bytes_of_value(bytes);
    lemma_le_value_bound(bytes);
    lemma_be_value_bound(bytes);
}

/// The bytes of a reordered number, least significant first, are the number's bytes in the
/// byte order.
pub proof fn lemma_reorder_bytes(x: nat, n: nat, little: bool)
    requires
        x < radix(n),
    ensures
        reorder(x, n, little) < radix(n),
        le_bytes(reorder(x, n, little), n) == number_bytes(x, n, little),
{
    if !little {
        let t = le_bytes(x, n);
        lemma_be_value_bound(t);
        lemma_be_value_reverse(t);
        lemma_le_bytes_of_value(t.reverse());
        lemma_be_bytes_reverse(x, n);
    }
}

/// Two's complement patterns stand for the numbers from `-radix(n) / 2` up to, but not
/// including, `radix(n) / 2`, each for one.
pub proof fn lemma_signed_unsigned(x: int, n: nat)
    requires
        n > 0,
        -radix(n) <= 2 * x < radix(n),
    ensures
        unsigned(x, n) < radix(n),
        signed(unsigned(x, n), n) == x,
{
}

/// Each `n`-byte pattern is the pattern of the signed number that it stands for.
pub proof fn lemma_unsigned_signed(x: nat, n: nat)
    requires
        n > 0,
        x < radix(n),
    ensures
        -radix(n) <= 2 * signed(x, n) < radix(n),
        unsigned(signed(x, n), n) == x,
{
}

/// Reads the first `n` bytes of `bytes` as a number, least significant byte first.
pub(crate) fn load(bytes: &[u8], n: usize) -> (v: u128)
    requires
        n <= 16,
        n <= bytes@.len(),
    ensures
        v == le_value(bytes@.take(n as int)),
{
    let mut v: u128 = 0;
    let mut k: usize = n;
    while k > 0
        invariant
            k <= n <= 16,
            n <= bytes@.len(),
            v == le_value(bytes@.subrange(k as int, n as int)),
        decreases k,
    {
        k -= 1;
        proof {
            let s = bytes@.subrange(k as int, n as int);
            assert(s.drop_first() =~= bytes@.subrange(k + 1, n as int));
            lemma_le_value_bound(s);
            lemma_radix_monotonic(s.len(), 16);
            lemma_radix_values();
        }
        v = v * 256 + bytes[k] as u128;
    }
    assert(bytes@.subrange(0, n as int) =~= bytes@.take(n as int));
    v
}

/// Writes the `n` low bytes of `v` to the head of `bytes`, least significant byte first.
pub(crate) fn store(bytes: &mut [u8], v: u128, n: usize)
    requires
        n <= 16,
        n <= old(bytes)@.len(),
    ensures
        final(bytes)@ == le_bytes(v as nat, n as nat) + old(bytes)@.skip(n as int),
{
    let ghost before = bytes@;
    let mut x: u128 = v;
    let mut k: usize = 0;
    proof {
        assert(radix(0) == 1);
    }
    while k < n
        invariant
            k <= n <= 16,
            n <= bytes@.len(),
            bytes@.len() == before.len(),
            x == v as nat / radix(k as nat),
            forall|j: int| 0 <= j < k ==> bytes@[j] == le_bytes(v as nat, n as nat)[j],
            forall|j: int| k <= j < bytes@.len() ==> bytes@[j] == before[j],
        decreases n - k,
    {
        proof {
            lemma_radix_positive(k as nat);
            lemma_div_denominator(v as int, radix(k as nat) as int, 256);
            assert(radix((k + 1) as nat) == radix(k as nat) * 256);
        }
        bytes[k] = (x % 256) as u8;
        x = x / 256;
        k += 1;
    }
    assert(bytes@ =~= le_bytes(v as nat, n as nat) + before.skip(n as int));
}

/// The number whose `n` low bytes are those of `v` in the opposite order.
pub(crate) fn reversed(v: u128, n: usize) -> (r: u128)
    requires
        n <= 16,
    ensures
        r == be_value(le_bytes(v as nat, n as nat)),
{
    let ghost all = le_bytes(v as nat, n as nat);
    let mut r: u128 = 0;
    let mut x: u128 = v;
    let mut k: usize = 0;
    proof {
        assert(radix(0) == 1);
    }
    while k < n
        invariant
            k <= n <= 16,
            all == le_bytes(v as nat, n as nat),
            x == v as nat / radix(k as nat),
            r == be_value(all.take(k as int)),
        decreases n - k,
    {
        proof {
            let t = all.take(k + 1);
            assert(t.drop_last() =~= all.take(k as int));
            assert(t.last() == (x % 256) as u8);
            lemma_be_value_bound(t);
            lemma_radix_monotonic(t.len(), 16);
            lemma_radix_values();
            lemma_radix_positive(k as nat);
            lemma_div_denominator(v as int, radix(k as nat) as int, 256);
            assert(radix((k + 1) as nat) == radix(k as nat) * 256);
        }
        r = r * 256 + x % 256;
        x = x / 256;
        k += 1;
    }
    assert(all.take(n as int) =~= all);
    r
}

/// The two's complement pattern of `x`, in a width whose patterns number `2 * half`.
pub(crate) fn pattern_of(x: i128, half: u128) -> (r: u128)
    requires
        0 < half <= 0x8000_0000_0000_0000_0000_0000_0000_0000,
        -half <= x < half,
    ensures
        r == if x >= 0 {
            x as int
        } else {
            x + 2 * half
        },
{
    if x >= 0 {
        x as u128
    } else {
        ((x + (half - 1) as i128 + 1) as u128) + half
    }
}

/// The signed number that the pattern `v` stands for, in a width whose patterns number
/// `2 * half`.
pub(crate) fn of_pattern(v: u128, half: u128) -> (r: i128)
    requires
        0 < half <= 0x8000_0000_0000_0000_0000_0000_0000_0000,
        v < 2 * half,
    ensures
        r == if v < half {
            v as int
        } else {
            v - 2 * half
        },
{
    if v < half {
        v as i128
    } else {
        ((v - half) as i128 - (half - 1) as i128) - 1
    }
}

} // verus!
