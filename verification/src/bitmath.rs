//! Mathematical model of bit-level storage: how a byte decomposes into bits
//! (most-significant bit first) and how bit sequences fold into integer values.

use vstd::arithmetic::power2::pow2;
use vstd::prelude::*;

verus! {

/// Bit `k` of byte `b`, counting from the most significant bit (`k == 0` is
/// the topmost bit).
pub open spec fn bit_of_byte(b: u8, k: int) -> bool {
    (b >> (7 - k) as u8) & 1 == 1
}

/// The eight bits of a byte, most significant first.
pub open spec fn byte_bits(b: u8) -> Seq<bool> {
    Seq::new(8, |k: int| bit_of_byte(b, k))
}

/// The bits of a byte sequence, each byte contributing its bits most
/// significant first.
pub open spec fn bits_of_bytes(s: Seq<u8>) -> Seq<bool> {
    Seq::new(s.len() * 8, |i: int| bit_of_byte(s[i / 8], i % 8))
}

/// Number of bytes needed to hold `n` bits.
pub open spec fn bytes_for_bits(n: nat) -> nat {
    if n % 8 == 0 {
        n / 8
    } else {
        n / 8 + 1
    }
}

pub broadcast proof fn lemma_bits_of_bytes_index(s: Seq<u8>, i: int)
    requires
        0 <= i < s.len() * 8,
    ensures
        #[trigger] bits_of_bytes(s)[i] == bit_of_byte(s[i / 8], i % 8),
{
}

pub open spec fn bit_nat(b: bool) -> nat {
    if b {
        1
    } else {
        0
    }
}

/// The value of a bit sequence folded most-significant bit first:
/// each bit doubles the accumulator and adds itself.
pub open spec fn be_value(s: Seq<bool>) -> nat
    decreases s.len(),
{
    if s.len() == 0 {
        0
    } else {
        2 * be_value(s.drop_last()) + bit_nat(s.last())
    }
}

/// The `n` low bits of `v`, most significant first.
pub open spec fn be_bits(v: u32, n: nat) -> Seq<bool> {
    Seq::new(n, |i: int| v >> ((n - 1 - i) as u32) & 1 == 1)
}

/// The value of a bit sequence split into 8-bit chunks taken in
/// little-endian order; within each chunk bits stay most significant first,
/// and a trailing partial chunk holds the topmost bits.
pub open spec fn le_value(s: Seq<bool>) -> nat
    decreases s.len(),
{
    if s.len() <= 8 {
        be_value(s)
    } else {
        be_value(s.take(8)) + 256 * le_value(s.skip(8))
    }
}

/// The `n` low bits of `v` laid out in little-endian byte order: the lowest
/// eight bits first (each chunk most significant bit first), any final
/// partial chunk holding the topmost bits.
pub open spec fn le_bits(v: u32, n: nat) -> Seq<bool>
    decreases n,
{
    if n <= 8 {
        be_bits(v, n)
    } else {
        be_bits(v & 0xff, 8) + le_bits(v >> 8, (n - 8) as nat)
    }
}

pub proof fn lemma_be_value_bound(s: Seq<bool>)
    ensures
        be_value(s) < pow2(s.len()),
    decreases s.len(),
{
    vstd::arithmetic::power2::lemma_pow2_pos(s.len());
    if s.len() > 0 {
        lemma_be_value_bound(s.drop_last());
        vstd::arithmetic::power2::lemma_pow2_unfold(s.len());
    }
}

/// Folding one more bit doubles the value and adds the bit.
pub proof fn lemma_be_value_step(s: Seq<bool>, i: int)
    requires
        0 <= i < s.len(),
    ensures
        be_value(s.take(i + 1)) == 2 * be_value(s.take(i)) + bit_nat(s[i]),
{
    assert(s.take(i + 1).drop_last() =~= s.take(i));
    assert(s.take(i + 1).last() == s[i]);
}

/// Loading big-endian bits that were stored from `v` gives back `v`.
pub proof fn lemma_be_round_trip(v: u32, n: nat)
    requires
        n <= 32,
        v < pow2(n),
    ensures
        be_value(be_bits(v, n)) == v,
    decreases n,
{
    if n == 0 {
        vstd::arithmetic::power2::lemma2_to64();
    } else {
        let s = be_bits(v, n);
        let v1 = v >> 1u32;
        assert(s.drop_last() =~= be_bits(v1, (n - 1) as nat)) by {
            assert forall|i: int| 0 <= i < n - 1 implies s[i] == (v1 >> ((n - 2 - i) as u32) & 1
                == 1) by {
                let k = (n - 1 - i) as u32;
                assert(k >= 1 && k < 32 ==> (v >> k) & 1 == ((v >> 1u32) >> (k - 1) as u32)
                    & 1) by (bit_vector);
            }
        }
        assert(v1 < pow2((n - 1) as nat)) by {
            vstd::arithmetic::power2::lemma_pow2_unfold(n);
            assert(v >> 1u32 == v / 2) by (bit_vector);
        }
        lemma_be_round_trip(v1, (n - 1) as nat);
        assert(bit_nat(s.last()) == (v & 1)) by {
            assert(s.last() == (v >> ((n - 1 - (n - 1)) as u32) & 1 == 1));
            assert((n - 1 - (n - 1)) as u32 == 0u32);
            assert((v >> 0u32) & 1 == v & 1) by (bit_vector);
            assert(v & 1 == 1 || v & 1 == 0) by (bit_vector);
        }
        assert(2 * (v >> 1u32) + (v & 1) == v) by (bit_vector);
    }
}

pub proof fn lemma_le_value_bound(s: Seq<bool>)
    ensures
        le_value(s) < pow2(s.len()),
    decreases s.len(),
{
    if s.len() <= 8 {
        lemma_be_value_bound(s);
    } else {
        lemma_be_value_bound(s.take(8));
        lemma_le_value_bound(s.skip(8));
        vstd::arithmetic::power2::lemma_pow2_adds(8, (s.len() - 8) as nat);
        vstd::arithmetic::power2::lemma2_to64();
    }
}

/// Loading little-endian bits that were stored from `v` gives back `v`.
pub proof fn lemma_le_round_trip(v: u32, n: nat)
    requires
        n <= 32,
        v < pow2(n),
    ensures
        le_value(le_bits(v, n)) == v,
    decreases n,
{
    if n <= 8 {
        lemma_be_round_trip(v, n);
    } else {
        let low = v & 0xff;
        let high = v >> 8u32;
        assert(low < pow2(8)) by {
            vstd::arithmetic::power2::lemma2_to64();
            assert(v & 0xff < 256) by (bit_vector);
        }
        lemma_be_round_trip(low, 8);
        assert(high < pow2((n - 8) as nat)) by {
            vstd::arithmetic::power2::lemma_pow2_adds(8, (n - 8) as nat);
            vstd::arithmetic::power2::lemma2_to64();
            assert(v >> 8u32 == v / 256) by (bit_vector);
        }
        lemma_le_round_trip(high, (n - 8) as nat);
        let s = le_bits(v, n);
        assert(s.take(8) =~= be_bits(low, 8));
        assert(s.skip(8) =~= le_bits(high, (n - 8) as nat));
        assert((v & 0xff) + 256 * (v >> 8u32) == v) by (bit_vector);
    }
}

/// A byte's bits, read back as a big-endian field, give the byte's value.
pub proof fn lemma_byte_bits_value(b: u8)
    ensures
        be_value(byte_bits(b)) == b,
{
    assert(byte_bits(b) =~= be_bits(b as u32, 8)) by {
        assert forall|i: int| 0 <= i < 8 implies bit_of_byte(b, i) == ((b as u32) >> ((7 - i) as u32)
            & 1 == 1) by {
            let k = i as u8;
            assert(k < 8 ==> ((b >> ((7u8 - k) as u8)) & 1 == 1) == (((b as u32) >> ((7u8
                - k) as u32)) & 1 == 1)) by (bit_vector);
        }
    }
    assert((b as u32) < pow2(8)) by {
        vstd::arithmetic::power2::lemma2_to64();
    }
    lemma_be_round_trip(b as u32, 8);
}

/// The bits of consecutive bytes, sliced at one byte, are that byte's bits.
pub proof fn lemma_bits_of_bytes_slice(s: Seq<u8>, j: int)
    requires
        0 <= j < s.len(),
    ensures
        bits_of_bytes(s).subrange(8 * j, 8 * j + 8) =~= byte_bits(s[j]),
{
    assert forall|k: int| 0 <= k < 8 implies bits_of_bytes(s)[8 * j + k] == bit_of_byte(s[j], k) by {
        assert((8 * j + k) / 8 == j && (8 * j + k) % 8 == k) by (nonlinear_arith)
            requires 0 <= k < 8 && 0 <= j;
    }
}

/// Appending a byte appends its eight bits.
pub proof fn lemma_bits_of_bytes_push(s: Seq<u8>, b: u8)
    ensures
        bits_of_bytes(s.push(b)) =~= bits_of_bytes(s) + byte_bits(b),
{
    assert forall|i: int| 0 <= i < (s.len() + 1) * 8 implies bits_of_bytes(s.push(b))[i] == (
    bits_of_bytes(s) + byte_bits(b))[i] by {
        assert(i / 8 <= s.len() && (i / 8 == s.len() ==> i - 8 * s.len() == i % 8) && (i / 8
            < s.len() ==> i < 8 * s.len())) by (nonlinear_arith)
            requires 0 <= i < (s.len() + 1) * 8;
    }
}

/// The value of concatenated bit runs: the front run is shifted left by the
/// length of the back run.
pub proof fn lemma_be_value_concat(a: Seq<bool>, b: Seq<bool>)
    ensures
        be_value(a + b) == be_value(a) * pow2(b.len()) + be_value(b),
    decreases b.len(),
{
    if b.len() == 0 {
        assert(a + b =~= a);
        vstd::arithmetic::power2::lemma2_to64();
        assert(pow2(0) == 1);
        assert(be_value(a) * 1nat == be_value(a)) by (nonlinear_arith);
        assert(be_value(a + b) == be_value(a) * pow2(b.len()) + be_value(b));
    } else {
        lemma_be_value_concat(a, b.drop_last());
        assert((a + b).drop_last() =~= a + b.drop_last());
        assert((a + b).last() == b.last());
        vstd::arithmetic::power2::lemma_pow2_unfold(b.len());
        let x = be_value(a);
        let p = pow2((b.len() - 1) as nat);
        let y = be_value(b.drop_last());
        let z = bit_nat(b.last());
        assert(be_value(a + b) == 2 * (x * p + y) + z);
        assert(2 * (x * p + y) + z == x * (2 * p) + (2 * y + z)) by (nonlinear_arith);
        assert(pow2(b.len()) == 2 * p);
        assert(be_value(b) == 2 * y + z);
    }
}

/// Storing a loaded big-endian field reproduces the bits: the inverse
/// direction of the round trip.
pub proof fn lemma_be_bits_inverse(s: Seq<bool>)
    requires
        s.len() <= 32,
    ensures
        be_value(s) <= u32::MAX,
        be_bits(be_value(s) as u32, s.len()) =~= s,
    decreases s.len(),
{
    lemma_be_value_bound(s);
    assert(pow2(32) == 0x100000000) by {
        vstd::arithmetic::power2::lemma2_to64();
    }
    if (s.len() as nat) < 32 {
        vstd::arithmetic::power2::lemma_pow2_strictly_increases(s.len(), 32);
    }
    if s.len() > 0 {
        let n = s.len();
        let v = be_value(s) as u32;
        let a = be_value(s.drop_last()) as u32;
        lemma_be_bits_inverse(s.drop_last());
        assert(v == 2 * a + bit_nat(s.last()));
        assert(be_bits(v, n as nat).drop_last() =~= be_bits(a, (n - 1) as nat)) by {
            assert(v >> 1u32 == a) by {
                let b: u32 = if s.last() {
                    1
                } else {
                    0
                };
                assert(v == 2 * a + b && b < 2 && a < 0x80000000 ==> v >> 1u32 == a) by (bit_vector);
                lemma_be_value_bound(s.drop_last());
                if ((n - 1) as nat) < 31 {
                    vstd::arithmetic::power2::lemma_pow2_strictly_increases((n - 1) as nat, 31);
                }
                vstd::arithmetic::power2::lemma2_to64();
            }
            assert forall|i: int| 0 <= i < n - 1 implies be_bits(v, n as nat)[i] == be_bits(
                v >> 1u32,
                (n - 1) as nat,
            )[i] by {
                let k = (n - 1 - i) as u32;
                assert(k >= 1 && k < 32 ==> (v >> k) & 1 == ((v >> 1u32) >> (k - 1) as u32)
                    & 1) by (bit_vector);
            }
        }
        assert(be_bits(v, n as nat).last() == s.last()) by {
            let b: u32 = if s.last() {
                1
            } else {
                0
            };
            assert((n - 1 - (n - 1)) as u32 == 0u32);
            assert(v == 2 * a + b && b < 2 ==> ((v >> 0u32) & 1 == 1) == (b == 1)) by (bit_vector);
        }
        assert(be_bits(v, n as nat) =~= be_bits(v, n as nat).drop_last().push(
            be_bits(v, n as nat).last(),
        ));
    }
}

/// Bits of a byte subrange are the matching subrange of the bytes' bits.
pub proof fn lemma_bits_of_bytes_subrange(s: Seq<u8>, a: int, b: int)
    requires
        0 <= a <= b <= s.len(),
    ensures
        bits_of_bytes(s.subrange(a, b)) =~= bits_of_bytes(s).subrange(8 * a, 8 * b),
{
    assert forall|i: int| 0 <= i < (b - a) * 8 implies bits_of_bytes(s.subrange(a, b))[i]
        == bits_of_bytes(s).subrange(8 * a, 8 * b)[i] by {
        assert((8 * a + i) / 8 == a + i / 8 && (8 * a + i) % 8 == i % 8 && 0 <= i / 8 < b - a && 0
            <= i % 8 < 8 && 8 * (i / 8) + i % 8 == i) by (nonlinear_arith)
            requires 0 <= i < (b - a) * 8 && 0 <= a <= b;
        assert(0 <= 8 * a + i < 8 * s.len()) by (nonlinear_arith)
            requires 0 <= i < (b - a) * 8 && 0 <= a <= b <= s.len();
    }
}

/// Replacing one byte replaces exactly that byte's eight bits.
pub proof fn lemma_bits_of_bytes_update(s: Seq<u8>, j: int, b: u8)
    requires
        0 <= j < s.len(),
    ensures
        bits_of_bytes(s.update(j, b)).len() == bits_of_bytes(s).len(),
        forall|i: int|
            0 <= i < s.len() * 8 && i / 8 != j ==> bits_of_bytes(s.update(j, b))[i] == bits_of_bytes(
                s,
            )[i],
        bits_of_bytes(s.update(j, b)).subrange(8 * j, 8 * j + 8) =~= byte_bits(b),
{
    lemma_bits_of_bytes_slice(s.update(j, b), j);
}

/// Appending a whole byte's worth of bits multiplies the front value by 256.
pub proof fn lemma_be_value_concat_byte(a: Seq<bool>, b: Seq<bool>)
    requires
        b.len() == 8,
    ensures
        be_value(a + b) == 256 * be_value(a) + be_value(b),
{
    lemma_be_value_concat(a, b);
    vstd::arithmetic::power2::lemma2_to64();
    assert(be_value(a) * pow2(8) == 256 * be_value(a)) by (nonlinear_arith)
        requires
            pow2(8) == 256,
    ;
}

/// A big-endian field of at least one byte starts with its top byte's bits.
pub proof fn lemma_be_bits_split_top(v: u32, n: nat)
    requires
        8 <= n <= 32,
    ensures
        be_bits(v, n) =~= byte_bits((v >> ((n - 8) as u32)) as u8) + be_bits(v, (n - 8) as nat),
{
    let top = (v >> ((n - 8) as u32)) as u8;
    assert forall|i: int| 0 <= i < 8 implies byte_bits(top)[i] == be_bits(v, n)[i] by {
        let s = (n - 8) as u32;
        let k = (7 - i) as u32;
        assert(s <= 24 && k < 8 ==> ((((v >> s) as u8) >> (k as u8)) & 1 == 1) == ((v >> ((s
            + k) as u32)) & 1 == 1)) by (bit_vector);
        assert((n - 1 - i) as u32 == s + k);
    }
}

/// An 8-bit field holds the bits of the value's low byte.
pub proof fn lemma_be_bits_low_byte(v: u32)
    ensures
        be_bits(v, 8) =~= byte_bits(v as u8),
        be_bits(v & 0xff, 8) =~= byte_bits(v as u8),
{
    assert forall|i: int| 0 <= i < 8 implies be_bits(v, 8)[i] == byte_bits(v as u8)[i] && be_bits(
        v & 0xff,
        8,
    )[i] == byte_bits(v as u8)[i] by {
        let k = (7 - i) as u32;
        assert(k < 8 ==> ((v >> k) & 1 == 1) == (((v as u8) >> (k as u8)) & 1 == 1) && (((v & 0xff)
            >> k) & 1 == 1) == (((v as u8) >> (k as u8)) & 1 == 1)) by (bit_vector);
    }
}

/// Little-endian fields have as many bits as requested.
pub proof fn lemma_le_bits_len(v: u32, n: nat)
    ensures
        le_bits(v, n).len() == n,
    decreases n,
{
    if n > 8 {
        lemma_le_bits_len(v >> 8, (n - 8) as nat);
    }
}

/// The value of a byte sequence composed whole bytes at a time, first byte
/// most significant: the accelerated big-endian byte path.
pub open spec fn be_bytes_value(s: Seq<u8>) -> nat
    decreases s.len(),
{
    if s.len() == 0 {
        0
    } else {
        (256 * be_bytes_value(s.drop_last()) + s.last()) as nat
    }
}

/// The value of a byte sequence composed whole bytes at a time, first byte
/// least significant: the accelerated little-endian byte path.
pub open spec fn le_bytes_value(s: Seq<u8>) -> nat
    decreases s.len(),
{
    if s.len() == 0 {
        0
    } else {
        (s[0] + 256 * le_bytes_value(s.skip(1))) as nat
    }
}

/// Byte-boundary equivalence, big-endian: composing a field whole bytes at a
/// time gives the same value as folding its bits one by one.
pub proof fn lemma_be_byte_path_equivalence(s: Seq<u8>)
    ensures
        be_value(bits_of_bytes(s)) == be_bytes_value(s),
    decreases s.len(),
{
    if s.len() == 0 {
        assert(bits_of_bytes(s) =~= Seq::<bool>::empty());
    } else {
        lemma_be_byte_path_equivalence(s.drop_last());
        assert(s =~= s.drop_last().push(s.last()));
        lemma_bits_of_bytes_push(s.drop_last(), s.last());
        lemma_be_value_concat_byte(bits_of_bytes(s.drop_last()), byte_bits(s.last()));
        lemma_byte_bits_value(s.last());
    }
}

/// Byte-boundary equivalence, little-endian: composing a field whole bytes
/// at a time, lowest byte first, gives the same value as the chunked
/// little-endian bit fold.
pub proof fn lemma_le_byte_path_equivalence(s: Seq<u8>)
    ensures
        le_value(bits_of_bytes(s)) == le_bytes_value(s),
    decreases s.len(),
{
    if s.len() == 0 {
        assert(bits_of_bytes(s) =~= Seq::<bool>::empty());
    } else {
        let bits = bits_of_bytes(s);
        assert(bits.take(8) =~= byte_bits(s[0])) by {
            lemma_bits_of_bytes_slice(s, 0);
        }
        lemma_byte_bits_value(s[0]);
        if s.len() == 1 {
            assert(bits =~= byte_bits(s[0]));
            assert(s.skip(1) =~= Seq::<u8>::empty());
            assert(le_bytes_value(Seq::<u8>::empty()) == 0);
        } else {
            assert(bits.skip(8) =~= bits_of_bytes(s.skip(1))) by {
                lemma_bits_of_bytes_subrange(s, 1, s.len() as int);
                assert(s.subrange(1, s.len() as int) =~= s.skip(1));
                assert(bits.subrange(8, 8 * s.len() as int) =~= bits.skip(8));
            }
            lemma_le_byte_path_equivalence(s.skip(1));
            assert(le_value(bits) == be_value(bits.take(8)) + 256 * le_value(bits.skip(8)));
        }
    }
}

/// Reading one bit of a byte, most-significant bit first.
pub fn get_bit_in_byte(b: u8, k: usize) -> (r: bool)
    requires
        k < 8,
    ensures
        r == bit_of_byte(b, k as int),
{
    let shift: u8 = 7 - (k as u8);
    ((b >> shift) & 1) == 1
}

/// Writing one bit of a byte, most-significant bit first; the other bits keep
/// their values.
pub fn set_bit_in_byte(b: u8, k: usize, v: bool) -> (r: u8)
    requires
        k < 8,
    ensures
        forall|j: int| 0 <= j < 8 && j != k ==> bit_of_byte(r, j) == bit_of_byte(b, j),
        bit_of_byte(r, k as int) == v,
{
    let shift: u8 = 7 - (k as u8);
    let mask: u8 = 1u8 << shift;
    let r = if v {
        b | mask
    } else {
        b & !mask
    };
    proof {
        let k8 = k as u8;
        if v {
            assert forall|j: int| 0 <= j < 8 && j != k implies bit_of_byte(b | (1u8 << ((7u8 - k8) as u8)), j)
                == bit_of_byte(b, j) by {
                let j8 = j as u8;
                assert(j8 != k8 && j8 < 8 && k8 < 8 ==> ((b | (1u8 << ((7u8 - k8) as u8))) >> ((7u8 - j8) as u8)) & 1
                    == (b >> ((7u8 - j8) as u8)) & 1) by (bit_vector);
            }
            assert(k8 < 8 ==> ((b | (1u8 << ((7u8 - k8) as u8))) >> ((7u8 - k8) as u8)) & 1 == 1) by (bit_vector);
        } else {
            assert forall|j: int| 0 <= j < 8 && j != k implies bit_of_byte(b & !(1u8 << ((7u8 - k8) as u8)), j)
                == bit_of_byte(b, j) by {
                let j8 = j as u8;
                assert(j8 != k8 && j8 < 8 && k8 < 8 ==> ((b & !(1u8 << ((7u8 - k8) as u8))) >> ((7u8 - j8) as u8)) & 1
                    == (b >> ((7u8 - j8) as u8)) & 1) by (bit_vector);
            }
            assert(k8 < 8 ==> ((b & !(1u8 << ((7u8 - k8) as u8))) >> ((7u8 - k8) as u8)) & 1 == 0) by (bit_vector);
        }
    }
    r
}

} // verus!
