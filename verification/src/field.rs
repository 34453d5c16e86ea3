//! A prime field with high two-adicity, the scalar domain of the trace
//! algebra. The modulus is `P = 3 * 2^30 + 1`, so the multiplicative group
//! has order `3 * 2^30` and contains a subgroup of order `2^k` for every
//! `k <= 30`; those subgroups serve as trace and low-degree-extension
//! domains. Elements are kept in canonical reduced form (`0 <= v < P`).

use vstd::prelude::*;
use vstd::arithmetic::div_mod::{
    lemma_add_mod_noop, lemma_fundamental_div_mod, lemma_mod_multiples_basic,
    lemma_mul_mod_noop_general, lemma_mul_mod_noop_left, lemma_mul_mod_noop_right,
    lemma_small_mod,
};
use vstd::arithmetic::mul::{
    lemma_mul_equality_converse, lemma_mul_is_associative, lemma_mul_left_inequality,
    lemma_mul_upper_bound,
};
use vstd::arithmetic::power::{
    lemma_pow0, lemma_pow1, lemma_pow_adds, lemma_pow_mod_noop, lemma_pow_multiplies, pow,
};
use vstd::arithmetic::power2::{lemma2_to64, lemma_pow2, lemma_pow2_adds, lemma_pow2_pos, pow2};

verus! {

/// The field modulus, a prime: `3 * 2^30 + 1`.
pub const P: u64 = 3221225473;

/// A generator of the whole multiplicative group of the field (order `P - 1`).
pub const GENERATOR: u64 = 5;

/// Number of bytes in the canonical encoding of one field element.
pub const ELEMENT_BYTES: usize = 4;

/// Field addition on canonical representatives.
pub open spec fn fadd(a: nat, b: nat) -> nat {
    (a + b) % (P as nat)
}

/// Field negation on canonical representatives.
pub open spec fn fneg(a: nat) -> nat {
    (((P as nat) - (a % (P as nat))) % (P as int)) as nat
}

/// Field subtraction on canonical representatives.
pub open spec fn fsub(a: nat, b: nat) -> nat {
    fadd(a, fneg(b))
}

/// Field multiplication on canonical representatives.
pub open spec fn fmul(a: nat, b: nat) -> nat {
    (a * b) % (P as nat)
}

/// Field exponentiation: `a^e` reduced modulo `P`.
pub open spec fn fpow(a: nat, e: nat) -> nat
    decreases e,
{
    if e == 0 {
        1
    } else {
        fmul(a, fpow(a, (e - 1) as nat))
    }
}

/// The multiplicative-inverse representative used by this field: `a^(P-2)`.
pub open spec fn finv(a: nat) -> nat {
    fpow(a, (P - 2) as nat)
}

/// The canonical `n`-th root of unity used for domains of size `n`:
/// the generator raised to `(P - 1) / n`.
pub open spec fn root_of_unity_spec(n: nat) -> nat {
    fpow(GENERATOR as nat, (P - 1) as nat / n)
}

/// `fpow` agrees with the mathematical power reduced modulo `P`.
pub proof fn lemma_fpow_is_pow_mod(a: nat, e: nat)
    ensures
        fpow(a, e) == pow(a as int, e) % (P as int),
    decreases e,
{
    if e == 0 {
        lemma_pow0(a as int);
        assert(1int % (P as int) == 1);
    } else {
        lemma_fpow_is_pow_mod(a, (e - 1) as nat);
        reveal(pow);
        assert(pow(a as int, e) == (a as int) * pow(a as int, (e - 1) as nat));
        lemma_mul_mod_noop_right(a as int, pow(a as int, (e - 1) as nat), P as int);
        assert(fpow(a, e) == (a * fpow(a, (e - 1) as nat)) % (P as nat));
        assert((a as int) * (pow(a as int, (e - 1) as nat) % (P as int)) % (P as int)
            == (a as int) * pow(a as int, (e - 1) as nat) % (P as int));
    }
}

/// Every `fpow` value is a canonical representative.
pub proof fn lemma_fpow_bound(a: nat, e: nat)
    ensures
        fpow(a, e) < P as nat,
{
    if e == 0 {
    } else {
        assert(fpow(a, e) == fmul(a, fpow(a, (e - 1) as nat)));
    }
}

/// `fmul` is associative.
pub proof fn lemma_fmul_assoc(a: nat, b: nat, c: nat)
    ensures
        fmul(fmul(a, b), c) == fmul(a, fmul(b, c)),
{
    lemma_mul_mod_noop_left((a * b) as int, c as int, P as int);
    lemma_mul_mod_noop_right(a as int, (b * c) as int, P as int);
    lemma_mul_is_associative(a as int, b as int, c as int);
}

/// Squaring the base halves the exponent: `(a*a mod P)^m = a^(2m) mod P`.
pub proof fn lemma_fpow_square(a: nat, m: nat)
    ensures
        fpow(fmul(a, a), m) == fpow(a, 2 * m),
{
    lemma_fpow_is_pow_mod(fmul(a, a), m);
    lemma_fpow_is_pow_mod(a, 2 * m);
    lemma_pow1(a as int);
    lemma_pow_adds(a as int, 1, 1);
    assert(pow(a as int, 2) == a * a);
    lemma_pow_mod_noop((a * a) as int, m, P as int);
    assert(pow((a * a) as int % (P as int), m) % (P as int) == pow((a * a) as int, m) % (P as int));
    lemma_pow_multiplies(a as int, 2, m);
    assert(pow(pow(a as int, 2), m) == pow(a as int, 2 * m));
}

/// Whether `n` is an admissible evaluation-domain size: a power of two no
/// larger than `2^30`, so that the field contains an `n`-th root of unity.
pub open spec fn domain_size_ok(n: nat) -> bool {
    exists|k: nat| k <= 30 && n == pow2(k)
}

/// An admissible domain size is positive, below the modulus, and divides
/// the multiplicative group order `P - 1`.
pub proof fn lemma_domain_size_divides(n: nat)
    requires
        domain_size_ok(n),
    ensures
        1 <= n,
        n < P as nat,
        (P - 1) as int % (n as int) == 0,
{
    let k = choose|k: nat| k <= 30 && n == pow2(k);
    lemma_pow2_pos(k);
    lemma_pow2_pos((30 - k) as nat);
    lemma_pow2_adds(k, (30 - k) as nat);
    lemma2_to64();
    assert((P - 1) as int == 3 * pow2(30));
    lemma_mul_left_inequality(pow2(k) as int, 1, pow2((30 - k) as nat) as int);
    assert(pow2(k) * 1 == pow2(k));
    lemma_mul_is_associative(3, pow2((30 - k) as nat) as int, pow2(k) as int);
    assert((P - 1) as int == (3 * pow2((30 - k) as nat)) * (n as int));
    lemma_mod_multiples_basic(3 * pow2((30 - k) as nat) as int, n as int);
}

/// The generator raised to the full multiplicative group order is one.
/// Established by a concrete square-and-multiply chain, thirty squarings
/// down to a cube.
pub proof fn lemma_generator_order()
    ensures
        fpow(GENERATOR as nat, (P - 1) as nat) == 1,
{
    assert(fmul(5, 5) == 25);
    lemma_fpow_square(5, 1610612736);
    assert(fmul(25, 25) == 625);
    lemma_fpow_square(25, 805306368);
    assert(fmul(625, 625) == 390625);
    lemma_fpow_square(625, 402653184);
    assert(fmul(390625, 390625) == 1190293394);
    lemma_fpow_square(390625, 201326592);
    assert(fmul(1190293394, 1190293394) == 2658181409);
    lemma_fpow_square(1190293394, 100663296);
    assert(fmul(2658181409, 2658181409) == 2609614933);
    lemma_fpow_square(2658181409, 50331648);
    assert(fmul(2609614933, 2609614933) == 3182078740);
    lemma_fpow_square(2609614933, 25165824);
    assert(fmul(3182078740, 3182078740) == 898048269);
    lemma_fpow_square(3182078740, 12582912);
    assert(fmul(898048269, 898048269) == 3004042235);
    lemma_fpow_square(898048269, 6291456);
    assert(fmul(3004042235, 3004042235) == 2869428413);
    lemma_fpow_square(3004042235, 3145728);
    assert(fmul(2869428413, 2869428413) == 829835748);
    lemma_fpow_square(2869428413, 1572864);
    assert(fmul(829835748, 829835748) == 784716921);
    lemma_fpow_square(829835748, 786432);
    assert(fmul(784716921, 784716921) == 590197985);
    lemma_fpow_square(784716921, 393216);
    assert(fmul(590197985, 590197985) == 2524259225);
    lemma_fpow_square(590197985, 196608);
    assert(fmul(2524259225, 2524259225) == 2766529116);
    lemma_fpow_square(2524259225, 98304);
    assert(fmul(2766529116, 2766529116) == 2468311158);
    lemma_fpow_square(2766529116, 49152);
    assert(fmul(2468311158, 2468311158) == 20925706);
    lemma_fpow_square(2468311158, 24576);
    assert(fmul(20925706, 20925706) == 1444475235);
    lemma_fpow_square(20925706, 12288);
    assert(fmul(1444475235, 1444475235) == 2207243129);
    lemma_fpow_square(1444475235, 6144);
    assert(fmul(2207243129, 2207243129) == 2838507500);
    lemma_fpow_square(2207243129, 3072);
    assert(fmul(2838507500, 2838507500) == 1147292615);
    lemma_fpow_square(2838507500, 1536);
    assert(fmul(1147292615, 1147292615) == 2054098098);
    lemma_fpow_square(1147292615, 768);
    assert(fmul(2054098098, 2054098098) == 2632611347);
    lemma_fpow_square(2054098098, 384);
    assert(fmul(2632611347, 2632611347) == 955475771);
    lemma_fpow_square(2632611347, 192);
    assert(fmul(955475771, 955475771) == 1656619387);
    lemma_fpow_square(955475771, 96);
    assert(fmul(1656619387, 1656619387) == 1808672996);
    lemma_fpow_square(1656619387, 48);
    assert(fmul(1808672996, 1808672996) == 821039136);
    lemma_fpow_square(1808672996, 24);
    assert(fmul(821039136, 821039136) == 814403528);
    lemma_fpow_square(821039136, 12);
    assert(fmul(814403528, 814403528) == 1610563585);
    lemma_fpow_square(814403528, 6);
    assert(fmul(1610563585, 1610563585) == 1610563584);
    lemma_fpow_square(1610563585, 3);
    assert(fpow(1610563584, 3) == fmul(1610563584, fpow(1610563584, 2)));
    assert(fpow(1610563584, 2) == fmul(1610563584, fpow(1610563584, 1)));
    assert(fpow(1610563584, 1) == fmul(1610563584, fpow(1610563584, 0)));
    assert(fmul(1610563584, 1) == 1610563584);
    assert(fmul(1610563584, 1610563584) == 1610661888);
    assert(fmul(1610563584, 1610661888) == 1);
}

/// Exponentiation composes multiplicatively: `(a^b)^c = a^(b*c)` in the field.
pub proof fn lemma_fpow_multiplies(a: nat, b: nat, c: nat)
    ensures
        fpow(fpow(a, b), c) == fpow(a, b * c),
{
    lemma_fpow_is_pow_mod(a, b);
    lemma_fpow_is_pow_mod(fpow(a, b), c);
    lemma_pow_mod_noop(pow(a as int, b), c, P as int);
    lemma_pow_multiplies(a as int, b, c);
    lemma_fpow_is_pow_mod(a, b * c);
}

/// The canonical root of unity for an admissible domain size `n` is an
/// `n`-th root of unity: raised to `n` it is one.
pub proof fn lemma_root_of_unity_order(n: nat)
    requires
        domain_size_ok(n),
    ensures
        fpow(root_of_unity_spec(n), n) == 1,
{
    lemma_domain_size_divides(n);
    let a = (P - 1) as nat / n;
    lemma_fundamental_div_mod((P - 1) as int, n as int);
    assert(a * n == (P - 1) as nat);
    lemma_fpow_multiplies(GENERATOR as nat, a, n);
    lemma_generator_order();
}

/// Two raised to the full multiplicative group order is one.
/// Established like `lemma_generator_order`, by a concrete chain.
pub proof fn lemma_two_order()
    ensures
        fpow(2, (P - 1) as nat) == 1,
{
    assert(fmul(2, 2) == 4);
    lemma_fpow_square(2, 1610612736);
    assert(fmul(4, 4) == 16);
    lemma_fpow_square(4, 805306368);
    assert(fmul(16, 16) == 256);
    lemma_fpow_square(16, 402653184);
    assert(fmul(256, 256) == 65536);
    lemma_fpow_square(256, 201326592);
    assert(fmul(65536, 65536) == 1073741823);
    lemma_fpow_square(65536, 100663296);
    assert(fmul(1073741823, 1073741823) == 1789569709);
    lemma_fpow_square(1073741823, 50331648);
    assert(fmul(1789569709, 1789569709) == 2823543319);
    lemma_fpow_square(1789569709, 25165824);
    assert(fmul(2823543319, 2823543319) == 2680181363);
    lemma_fpow_square(2823543319, 12582912);
    assert(fmul(2680181363, 2680181363) == 2619512439);
    lemma_fpow_square(2680181363, 6291456);
    assert(fmul(2619512439, 2619512439) == 2568188054);
    lemma_fpow_square(2619512439, 3145728);
    assert(fmul(2568188054, 2568188054) == 968661630);
    lemma_fpow_square(2568188054, 1572864);
    assert(fmul(968661630, 968661630) == 284107013);
    lemma_fpow_square(968661630, 786432);
    assert(fmul(284107013, 284107013) == 169472026);
    lemma_fpow_square(284107013, 393216);
    assert(fmul(169472026, 169472026) == 2377954849);
    lemma_fpow_square(169472026, 196608);
    assert(fmul(2377954849, 2377954849) == 1936264007);
    lemma_fpow_square(2377954849, 98304);
    assert(fmul(1936264007, 1936264007) == 2237516130);
    lemma_fpow_square(1936264007, 49152);
    assert(fmul(2237516130, 2237516130) == 1727764320);
    lemma_fpow_square(2237516130, 24576);
    assert(fmul(1727764320, 1727764320) == 948291965);
    lemma_fpow_square(1727764320, 12288);
    assert(fmul(948291965, 948291965) == 2580793757);
    lemma_fpow_square(948291965, 6144);
    assert(fmul(2580793757, 2580793757) == 2790750043);
    lemma_fpow_square(2580793757, 3072);
    assert(fmul(2790750043, 2790750043) == 2338520778);
    lemma_fpow_square(2790750043, 1536);
    assert(fmul(2338520778, 2338520778) == 2265749702);
    lemma_fpow_square(2338520778, 768);
    assert(fmul(2265749702, 2265749702) == 1656619387);
    lemma_fpow_square(2265749702, 384);
    assert(fmul(1656619387, 1656619387) == 1808672996);
    lemma_fpow_square(1656619387, 192);
    assert(fmul(1808672996, 1808672996) == 821039136);
    lemma_fpow_square(1808672996, 96);
    assert(fmul(821039136, 821039136) == 814403528);
    lemma_fpow_square(821039136, 48);
    assert(fmul(814403528, 814403528) == 1610563585);
    lemma_fpow_square(814403528, 24);
    assert(fmul(1610563585, 1610563585) == 1610563584);
    lemma_fpow_square(1610563585, 12);
    assert(fmul(1610563584, 1610563584) == 1610661888);
    lemma_fpow_square(1610563584, 6);
    assert(fmul(1610661888, 1610661888) == 1610563584);
    lemma_fpow_square(1610661888, 3);
    assert(fpow(1610563584, 3) == fmul(1610563584, fpow(1610563584, 2)));
    assert(fpow(1610563584, 2) == fmul(1610563584, fpow(1610563584, 1)));
    assert(fpow(1610563584, 1) == fmul(1610563584, fpow(1610563584, 0)));
    assert(fmul(1610563584, 1) == 1610563584);
    assert(fmul(1610563584, 1610563584) == 1610661888);
    assert(fmul(1610563584, 1610661888) == 1);
}

/// The exponent of one is absorbed: `1^e == 1`.
pub proof fn lemma_fpow_one_base(e: nat)
    ensures
        fpow(1, e) == 1,
    decreases e,
{
    if e > 0 {
        lemma_fpow_one_base((e - 1) as nat);
        assert(fmul(1, 1) == 1);
    }
}

/// Every power of the generator is invertible, with `finv` its inverse.
pub proof fn lemma_generator_power_inverse(a: nat)
    ensures
        fmul(fpow(GENERATOR as nat, a), finv(fpow(GENERATOR as nat, a))) == 1,
{
    let x = fpow(GENERATOR as nat, a);
    assert(fpow(x, (P - 1) as nat) == fmul(x, fpow(x, (P - 2) as nat)));
    lemma_fpow_multiplies(GENERATOR as nat, a, (P - 1) as nat);
    lemma_fpow_multiplies(GENERATOR as nat, (P - 1) as nat, a);
    lemma_generator_order();
    lemma_fpow_one_base(a);
}

/// The two constants interpolation divides by are genuine multiplicative
/// inverses: for an admissible domain size `n`, the `n`-th root of unity
/// times its `finv` is one, and `n` times its `finv` is one.
pub proof fn lemma_interpolation_constants(n: nat)
    requires
        domain_size_ok(n),
    ensures
        fmul(root_of_unity_spec(n), finv(root_of_unity_spec(n))) == 1,
        fmul(n, finv(n)) == 1,
{
    lemma_generator_power_inverse((P - 1) as nat / n);
    lemma_domain_size_divides(n);
    let k = choose|k: nat| k <= 30 && n == pow2(k);
    lemma_pow2(k);
    lemma_fpow_is_pow_mod(2, k);
    lemma_small_mod(n, P as nat);
    assert(fpow(2, k) == n);
    assert(fpow(n, (P - 1) as nat) == fmul(n, fpow(n, (P - 2) as nat)));
    lemma_fpow_multiplies(2, k, (P - 1) as nat);
    lemma_fpow_multiplies(2, (P - 1) as nat, k);
    lemma_two_order();
    lemma_fpow_one_base(k);
}

/// The generator raised to half the group order is `P - 1` (minus one):
/// the generator is a quadratic non-residue. Established by a concrete
/// square-and-multiply chain.
pub proof fn lemma_half_order()
    ensures
        fpow(GENERATOR as nat, ((P - 1) / 2) as nat) == (P - 1) as nat,
{
    assert(fmul(5, 5) == 25);
    lemma_fpow_square(5, 805306368);
    assert(fmul(25, 25) == 625);
    lemma_fpow_square(25, 402653184);
    assert(fmul(625, 625) == 390625);
    lemma_fpow_square(625, 201326592);
    assert(fmul(390625, 390625) == 1190293394);
    lemma_fpow_square(390625, 100663296);
    assert(fmul(1190293394, 1190293394) == 2658181409);
    lemma_fpow_square(1190293394, 50331648);
    assert(fmul(2658181409, 2658181409) == 2609614933);
    lemma_fpow_square(2658181409, 25165824);
    assert(fmul(2609614933, 2609614933) == 3182078740);
    lemma_fpow_square(2609614933, 12582912);
    assert(fmul(3182078740, 3182078740) == 898048269);
    lemma_fpow_square(3182078740, 6291456);
    assert(fmul(898048269, 898048269) == 3004042235);
    lemma_fpow_square(898048269, 3145728);
    assert(fmul(3004042235, 3004042235) == 2869428413);
    lemma_fpow_square(3004042235, 1572864);
    assert(fmul(2869428413, 2869428413) == 829835748);
    lemma_fpow_square(2869428413, 786432);
    assert(fmul(829835748, 829835748) == 784716921);
    lemma_fpow_square(829835748, 393216);
    assert(fmul(784716921, 784716921) == 590197985);
    lemma_fpow_square(784716921, 196608);
    assert(fmul(590197985, 590197985) == 2524259225);
    lemma_fpow_square(590197985, 98304);
    assert(fmul(2524259225, 2524259225) == 2766529116);
    lemma_fpow_square(2524259225, 49152);
    assert(fmul(2766529116, 2766529116) == 2468311158);
    lemma_fpow_square(2766529116, 24576);
    assert(fmul(2468311158, 2468311158) == 20925706);
    lemma_fpow_square(2468311158, 12288);
    assert(fmul(20925706, 20925706) == 1444475235);
    lemma_fpow_square(20925706, 6144);
    assert(fmul(1444475235, 1444475235) == 2207243129);
    lemma_fpow_square(1444475235, 3072);
    assert(fmul(2207243129, 2207243129) == 2838507500);
    lemma_fpow_square(2207243129, 1536);
    assert(fmul(2838507500, 2838507500) == 1147292615);
    lemma_fpow_square(2838507500, 768);
    assert(fmul(1147292615, 1147292615) == 2054098098);
    lemma_fpow_square(1147292615, 384);
    assert(fmul(2054098098, 2054098098) == 2632611347);
    lemma_fpow_square(2054098098, 192);
    assert(fmul(2632611347, 2632611347) == 955475771);
    lemma_fpow_square(2632611347, 96);
    assert(fmul(955475771, 955475771) == 1656619387);
    lemma_fpow_square(955475771, 48);
    assert(fmul(1656619387, 1656619387) == 1808672996);
    lemma_fpow_square(1656619387, 24);
    assert(fmul(1808672996, 1808672996) == 821039136);
    lemma_fpow_square(1808672996, 12);
    assert(fmul(821039136, 821039136) == 814403528);
    lemma_fpow_square(821039136, 6);
    assert(fmul(814403528, 814403528) == 1610563585);
    lemma_fpow_square(814403528, 3);
    assert(fpow(1610563585, 3) == fmul(1610563585, fpow(1610563585, 2)));
    assert(fpow(1610563585, 2) == fmul(1610563585, fpow(1610563585, 1)));
    assert(fpow(1610563585, 1) == fmul(1610563585, fpow(1610563585, 0)));
    assert(fmul(1610563585, 1) == 1610563585);
    assert(fmul(1610563585, 1610563585) == 1610563584);
    assert(fmul(1610563585, 1610563584) == 3221225472);
}

/// Exponents add: `a^(e1+e2) == a^e1 * a^e2` in the field.
pub proof fn lemma_fpow_adds(a: nat, e1: nat, e2: nat)
    ensures
        fpow(a, e1 + e2) == fmul(fpow(a, e1), fpow(a, e2)),
{
    lemma_fpow_is_pow_mod(a, e1 + e2);
    lemma_fpow_is_pow_mod(a, e1);
    lemma_fpow_is_pow_mod(a, e2);
    lemma_pow_adds(a as int, e1, e2);
    lemma_mul_mod_noop_general(pow(a as int, e1), pow(a as int, e2), P as int);
}

/// Exponents of an element of order dividing `t` matter only modulo `t`.
pub proof fn lemma_fpow_cycle(x: nat, t: nat, e: nat)
    requires
        1 <= t,
        fpow(x, t) == 1,
    ensures
        fpow(x, e) == fpow(x, ((e as int) % (t as int)) as nat),
{
    let q = ((e as int) / (t as int)) as nat;
    let r = ((e as int) % (t as int)) as nat;
    lemma_fundamental_div_mod(e as int, t as int);
    assert(e == t * q + r);
    lemma_fpow_adds(x, t * q, r);
    lemma_fpow_multiplies(x, t, q);
    lemma_fpow_one_base(q);
    lemma_fpow_bound(x, r);
    lemma_small_mod(fpow(x, r), P as nat);
    assert(fmul(1, fpow(x, r)) == fpow(x, r));
}

/// Multiplication distributes over addition in the field.
pub proof fn lemma_fmul_distrib(a: nat, b: nat, c: nat)
    ensures
        fmul(a, fadd(b, c)) == fadd(fmul(a, b), fmul(a, c)),
{
    lemma_mul_mod_noop_right(a as int, (b + c) as int, P as int);
    lemma_add_mod_noop((a * b) as int, (a * c) as int, P as int);
    assert(a * (b + c) == a * b + a * c) by (nonlinear_arith);
}

/// The extended domain nests the trace domain: the root of unity of the
/// larger domain, raised to the blowup factor, is the root of unity of the
/// smaller.
pub proof fn lemma_domain_nesting(l: nat, b: nat)
    requires
        domain_size_ok(l),
        b >= 1,
        domain_size_ok(l * b),
    ensures
        fpow(root_of_unity_spec(l * b), b) == root_of_unity_spec(l),
{
    lemma_domain_size_divides(l);
    lemma_domain_size_divides(l * b);
    let d = l * b;
    let ad = (P - 1) as nat / d;
    let al = (P - 1) as nat / l;
    lemma_fundamental_div_mod((P - 1) as int, d as int);
    lemma_fundamental_div_mod((P - 1) as int, l as int);
    assert((P - 1) as nat == d * ad);
    assert((P - 1) as nat == l * al);
    assert(d * ad == l * (ad * b)) by (nonlinear_arith)
        requires
            d == l * b,
    ;
    lemma_mul_equality_converse(l as int, al as int, (ad * b) as int);
    assert(al == ad * b);
    lemma_fpow_multiplies(GENERATOR as nat, ad, b);
}

/// A field element in canonical reduced form.
#[derive(Clone, Copy, PartialEq, Eq, Structural, Debug)]
pub struct Felt {
    v: u64,
}

impl View for Felt {
    type V = nat;

    closed spec fn view(&self) -> nat {
        self.v as nat
    }
}

impl Felt {
    #[verifier::type_invariant]
    pub closed spec fn canonical(self) -> bool {
        self.v < P
    }

    /// Builds the element with representative `value mod P`.
    pub fn new(value: u64) -> (r: Felt)
        ensures
            r@ == value as nat % (P as nat),
    {
        Felt { v: value % P }
    }

    /// The additive identity.
    pub fn zero() -> (r: Felt)
        ensures
            r@ == 0,
    {
        Felt { v: 0 }
    }

    /// The multiplicative identity.
    pub fn one() -> (r: Felt)
        ensures
            r@ == 1,
    {
        Felt { v: 1 }
    }

    /// The canonical representative as a machine integer.
    pub fn value(&self) -> (r: u64)
        ensures
            r as nat == self@,
    {
        self.v
    }

    /// Field addition.
    pub fn add(self, other: Felt) -> (r: Felt)
        ensures
            r@ == fadd(self@, other@),
    {
        proof {
            use_type_invariant(self);
            use_type_invariant(other);
        }
        Felt { v: (self.v + other.v) % P }
    }

    /// Field negation.
    pub fn neg(self) -> (r: Felt)
        ensures
            r@ == fneg(self@),
    {
        proof {
            use_type_invariant(self);
            lemma_small_mod(self.v as nat, P as nat);
            if self.v != 0 {
                lemma_small_mod((P - self.v) as nat, P as nat);
            }
        }
        if self.v == 0 {
            Felt { v: 0 }
        } else {
            Felt { v: P - self.v }
        }
    }

    /// Field subtraction.
    pub fn sub(self, other: Felt) -> (r: Felt)
        ensures
            r@ == fsub(self@, other@),
    {
        self.add(other.neg())
    }

    /// Field multiplication.
    pub fn mul(self, other: Felt) -> (r: Felt)
        ensures
            r@ == fmul(self@, other@),
    {
        proof {
            use_type_invariant(self);
            use_type_invariant(other);
            lemma_mul_upper_bound(self.v as int, (P - 1) as int, other.v as int, (P - 1) as int);
            assert((P - 1) as int * (P - 1) as int <= u64::MAX as int) by (nonlinear_arith);
        }
        Felt { v: (self.v * other.v) % P }
    }

    /// Field exponentiation by square and multiply.
    pub fn exp(self, power: u64) -> (r: Felt)
        ensures
            r@ == fpow(self@, power as nat),
    {
        proof {
            use_type_invariant(self);
        }
        let mut acc = Felt::one();
        let mut base = self;
        let mut e: u64 = power;
        proof {
            lemma_fpow_bound(self@, power as nat);
            lemma_small_mod(fpow(self@, power as nat), P as nat);
        }
        while e > 0
            invariant
                fmul(acc@, fpow(base@, e as nat)) == fpow(self@, power as nat),
            decreases e,
        {
            proof {
                use_type_invariant(acc);
                use_type_invariant(base);
            }
            let ghost prev_acc: nat = acc@;
            let ghost prev_base: nat = base@;
            let ghost prev_e: nat = e as nat;
            if e % 2 == 1 {
                acc = acc.mul(base);
            }
            base = base.mul(base);
            e = e / 2;
            proof {
                lemma_fpow_square(prev_base, e as nat);
                if prev_e % 2 == 1 {
                    assert(prev_e == 2 * (e as nat) + 1);
                    assert(fpow(prev_base, prev_e) == fmul(prev_base, fpow(prev_base, 2 * (e as nat))));
                    assert(fmul(prev_acc, fmul(prev_base, fpow(base@, e as nat)))
                        == fmul(fmul(prev_acc, prev_base), fpow(base@, e as nat))) by {
                        lemma_fmul_assoc(prev_acc, prev_base, fpow(base@, e as nat));
                    }
                } else {
                    assert(prev_e == 2 * (e as nat));
                }
            }
        }
        proof {
            assert(fpow(base@, 0) == 1);
            use_type_invariant(acc);
            assert(acc@ * 1 == acc@);
            lemma_small_mod(acc@, P as nat);
            assert(fmul(acc@, 1) == (acc@ * 1) % (P as nat));
            assert(fmul(acc@, 1) == acc@);
        }
        acc
    }

    /// The multiplicative inverse representative `self^(P-2)`.
    pub fn inv(self) -> (r: Felt)
        ensures
            r@ == finv(self@),
    {
        self.exp(P - 2)
    }

    /// The canonical `n`-th root of unity, for `n` dividing the
    /// multiplicative group order `P - 1`.
    pub fn get_root_of_unity(n: u64) -> (r: Felt)
        requires
            1 <= n,
            (P - 1) % (n as int) == 0,
        ensures
            r@ == root_of_unity_spec(n as nat),
    {
        let g = Felt::new(GENERATOR);
        proof {
            lemma_small_mod(GENERATOR as nat, P as nat);
        }
        g.exp((P - 1) / n)
    }
}

} // verus!
