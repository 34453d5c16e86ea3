//! Correctness of trace interpolation: evaluating the interpolant of a
//! column at the domain points reproduces the column's values. The proof
//! rests on the orthogonality of the power sums of the domain's root of
//! unity, established by halving the domain, with no appeal to general
//! inverse existence.

use vstd::prelude::*;
use vstd::arithmetic::div_mod::{
    lemma_add_mod_noop, lemma_add_mod_noop_right, lemma_div_by_multiple,
    lemma_fundamental_div_mod, lemma_fundamental_div_mod_converse_mod, lemma_mod_multiples_basic,
    lemma_small_mod,
};
use vstd::arithmetic::power2::{lemma_pow2_pos, lemma_pow2_unfold, pow2};
use crate::field::{
    domain_size_ok, fadd, finv, fmul, fpow, lemma_domain_size_divides, lemma_fmul_assoc,
    lemma_fmul_distrib, lemma_fpow_adds, lemma_fpow_cycle,
    lemma_fpow_multiplies, lemma_fpow_one_base, lemma_half_order,
    lemma_domain_nesting, lemma_interpolation_constants, lemma_root_of_unity_order,
    root_of_unity_spec, GENERATOR, P,
};
use crate::polynom::peval;
use crate::trace_builder::interpolate_spec;

verus! {

/// The field sum of a sequence of representatives.
pub open spec fn fsum(s: Seq<nat>) -> nat
    decreases s.len(),
{
    if s.len() == 0 {
        0
    } else {
        fadd(fsum(s.drop_last()), s.last())
    }
}

/// The sum of the first `n` powers of `x`.
pub open spec fn power_sum(x: nat, n: nat) -> nat {
    fsum(Seq::new(n, |k: int| fpow(x, k as nat)))
}

proof fn lemma_fsum_bound(s: Seq<nat>)
    ensures
        fsum(s) < P as nat,
    decreases s.len(),
{
    if s.len() > 0 {
        lemma_fsum_bound(s.drop_last());
    }
}

proof fn lemma_fadd_assoc(a: nat, b: nat, c: nat)
    ensures
        fadd(fadd(a, b), c) == fadd(a, fadd(b, c)),
{
    lemma_add_mod_noop((a + b) as int, c as int, P as int);
    lemma_add_mod_noop(a as int, (b + c) as int, P as int);
}

proof fn lemma_fsum_concat(s1: Seq<nat>, s2: Seq<nat>)
    ensures
        fsum(s1 + s2) == fadd(fsum(s1), fsum(s2)),
    decreases s2.len(),
{
    if s2.len() == 0 {
        assert(s1 + s2 =~= s1);
        lemma_fsum_bound(s1);
        lemma_small_mod(fsum(s1), P as nat);
    } else {
        assert((s1 + s2).drop_last() =~= s1 + s2.drop_last());
        assert((s1 + s2).last() == s2.last());
        lemma_fsum_concat(s1, s2.drop_last());
        lemma_fadd_assoc(fsum(s1), fsum(s2.drop_last()), s2.last());
    }
}

proof fn lemma_fsum_scale(a: nat, s: Seq<nat>)
    ensures
        fsum(s.map_values(|v: nat| fmul(a, v))) == fmul(a, fsum(s)),
    decreases s.len(),
{
    let scaled = s.map_values(|v: nat| fmul(a, v));
    if s.len() == 0 {
        assert(a * 0 == 0);
    } else {
        assert(scaled.drop_last() =~= s.drop_last().map_values(|v: nat| fmul(a, v)));
        assert(scaled.last() == fmul(a, s.last()));
        lemma_fsum_scale(a, s.drop_last());
        lemma_fmul_distrib(a, fsum(s.drop_last()), s.last());
    }
}

proof fn lemma_fsum_pointwise_add(x: Seq<nat>, y: Seq<nat>)
    requires
        x.len() == y.len(),
    ensures
        fsum(Seq::new(x.len(), |j: int| fadd(x[j], y[j]))) == fadd(fsum(x), fsum(y)),
    decreases x.len(),
{
    let z = Seq::new(x.len(), |j: int| fadd(x[j], y[j]));
    if x.len() == 0 {
        assert(fadd(0, 0) == 0);
    } else {
        let n = (x.len() - 1) as nat;
        assert(z.drop_last() =~= Seq::new(n, |j: int| fadd(x.drop_last()[j], y.drop_last()[j])));
        lemma_fsum_pointwise_add(x.drop_last(), y.drop_last());
        let sa = fsum(x.drop_last());
        let sb = fsum(y.drop_last());
        let xl = x.last();
        let yl = y.last();
        // both groupings equal (sa + sb + xl + yl) % P
        lemma_add_mod_noop((sa + sb) as int, (xl + yl) as int, P as int);
        lemma_add_mod_noop((sa + xl) as int, (sb + yl) as int, P as int);
        assert(fadd(fadd(sa, sb), fadd(xl, yl)) == (sa + sb + xl + yl) % (P as nat));
        assert(fadd(fadd(sa, xl), fadd(sb, yl)) == (sa + xl + sb + yl) % (P as nat));
    }
}

proof fn lemma_fsum_zero(s: Seq<nat>)
    requires
        forall|j: int| 0 <= j < s.len() ==> s[j] == 0,
    ensures
        fsum(s) == 0,
    decreases s.len(),
{
    if s.len() > 0 {
        lemma_fsum_zero(s.drop_last());
        assert(fadd(0, 0) == 0);
    }
}

proof fn lemma_fsum_single(s: Seq<nat>, i: int)
    requires
        0 <= i < s.len(),
        s[i] < P as nat,
        forall|j: int| 0 <= j < s.len() && j != i ==> s[j] == 0,
    ensures
        fsum(s) == s[i],
    decreases s.len(),
{
    if i == s.len() - 1 {
        lemma_fsum_zero(s.drop_last());
        lemma_small_mod(s[i], P as nat);
    } else {
        lemma_fsum_single(s.drop_last(), i);
        lemma_small_mod(s[i], P as nat);
        assert(s.last() == 0);
    }
}

proof fn lemma_peval_append(c: Seq<nat>, t: nat, x: nat)
    ensures
        peval(c.push(t), x) == fadd(peval(c, x), fmul(t, fpow(x, c.len()))),
    decreases c.len(),
{
    if c.len() == 0 {
        assert(c.push(t)[0] == t);
        assert(c.push(t).subrange(1, 1) =~= Seq::<nat>::empty());
        assert(x * 0 == 0);
        assert(fmul(x, 0) == 0);
        assert(peval(c.push(t), x) == fadd(
            c.push(t)[0],
            fmul(x, peval(c.push(t).subrange(1, 1), x)),
        ));
        assert(peval(c.push(t), x) == fadd(t, 0));
        assert(t * 1 == t);
        assert(fmul(t, 1) == t % (P as nat));
        lemma_add_mod_noop_right(0, t as int, P as int);
        assert(fadd(0, t % (P as nat)) == (0 + t) % (P as nat));
    } else {
        let rest = c.subrange(1, c.len() as int);
        assert(c.push(t)[0] == c[0]);
        assert(c.push(t).subrange(1, c.len() as int + 1) =~= rest.push(t));
        lemma_peval_append(rest, t, x);
        // peval(c.push(t), x) == fadd(c[0], fmul(x, fadd(peval(rest, x), fmul(t, fpow(x, len-1)))))
        lemma_fmul_distrib(x, peval(rest, x), fmul(t, fpow(x, rest.len())));
        // x * (t * x^(len-1)) == t * x^len
        let pw = fpow(x, rest.len());
        lemma_fmul_assoc(x, t, pw);
        lemma_fmul_assoc(t, x, pw);
        assert(fmul(x, t) == fmul(t, x));
        assert(fpow(x, c.len()) == fmul(x, fpow(x, rest.len())));
        assert(fmul(x, fmul(t, pw)) == fmul(t, fpow(x, c.len())));
        lemma_fadd_assoc(c[0], fmul(x, peval(rest, x)), fmul(t, fpow(x, c.len())));
    }
}

proof fn lemma_peval_is_sum(c: Seq<nat>, x: nat)
    ensures
        peval(c, x) == fsum(Seq::new(c.len(), |k: int| fmul(c[k], fpow(x, k as nat)))),
    decreases c.len(),
{
    let terms = Seq::new(c.len(), |k: int| fmul(c[k], fpow(x, k as nat)));
    if c.len() == 0 {
    } else {
        let front = c.drop_last();
        assert(c =~= front.push(c.last()));
        lemma_peval_append(front, c.last(), x);
        lemma_peval_is_sum(front, x);
        assert(terms.drop_last() =~= Seq::new(front.len(), |k: int| fmul(front[k], fpow(x, k as nat))));
        assert(terms.last() == fmul(c.last(), fpow(x, front.len())));
        assert(peval(front.push(c.last()), x) == peval(c, x));
    }
}

proof fn lemma_power_sum_split(x: nat, n: nat)
    ensures
        power_sum(x, 2 * n) == fadd(power_sum(x, n), fmul(fpow(x, n), power_sum(x, n))),
{
    let lo = Seq::new(n, |k: int| fpow(x, k as nat));
    let hi = Seq::new(n, |k: int| fpow(x, (n + k) as nat));
    assert(Seq::new(2 * n, |k: int| fpow(x, k as nat)) =~= lo + hi);
    lemma_fsum_concat(lo, hi);
    assert forall|k: int| 0 <= k < n implies #[trigger] hi[k] == fmul(fpow(x, n), lo[k]) by {
        lemma_fpow_adds(x, n, k as nat);
    }
    assert(hi =~= lo.map_values(|v: nat| fmul(fpow(x, n), v)));
    lemma_fsum_scale(fpow(x, n), lo);
}

proof fn lemma_power_sum_ones(n: nat)
    requires
        n < P as nat,
    ensures
        power_sum(1, n) == n,
    decreases n,
{
    let s = Seq::new(n, |k: int| fpow(1nat, k as nat));
    if n == 0 {
    } else {
        lemma_power_sum_ones((n - 1) as nat);
        assert(s.drop_last() =~= Seq::new((n - 1) as nat, |k: int| fpow(1nat, k as nat)));
        lemma_fpow_one_base((n - 1) as nat);
        assert(s.last() == 1);
        lemma_small_mod(n, P as nat);
        assert(fadd((n - 1) as nat, 1) == n % (P as nat));
    }
}

proof fn lemma_neg_one_pow(m: nat)
    ensures
        fpow((P - 1) as nat, m) == if m % 2 == 0 {
            1nat
        } else {
            (P - 1) as nat
        },
    decreases m,
{
    if m > 0 {
        lemma_neg_one_pow((m - 1) as nat);
        if m % 2 == 1 {
            assert(fmul((P - 1) as nat, 1) == (P - 1) as nat);
        } else {
            assert(fmul((P - 1) as nat, (P - 1) as nat) == 1);
        }
    }
}

/// Orthogonality of the domain's character sums: for an admissible domain
/// size `l` and any shift `m` strictly between zero and `l`, the powers of
/// the `l`-th root of unity taken at stride `m` sum to zero.
pub proof fn lemma_orthogonality(l: nat, m: nat)
    requires
        domain_size_ok(l),
        0 < m < l,
    ensures
        power_sum(fpow(root_of_unity_spec(l), m), l) == 0,
    decreases l,
{
    lemma_domain_size_divides(l);
    let w = root_of_unity_spec(l);
    let a = (P - 1) as nat / l;
    let y = fpow(w, m);
    let k = choose|k: nat| k <= 30 && l == pow2(k);
    assert(k >= 1) by {
        if k == 0 {
            vstd::arithmetic::power2::lemma2_to64();
            assert(pow2(0) == 1);
        }
    }
    let h = pow2((k - 1) as nat);
    lemma_pow2_unfold(k);
    assert(l == 2 * h);
    lemma_pow2_pos((k - 1) as nat);
    assert(domain_size_ok(h));
    lemma_power_sum_split(y, h);
    // l * a == P - 1
    lemma_fundamental_div_mod((P - 1) as int, l as int);
    assert((P - 1) as nat == l * a);
    // fpow(w, h) == P - 1
    assert(h * a == ((P - 1) / 2) as nat) by {
        assert(2 * (h * a) == (P - 1) as nat) by (nonlinear_arith)
            requires
                (P - 1) as nat == l * a,
                l == 2 * h,
        ;
    }
    lemma_fpow_multiplies(GENERATOR as nat, a, h);
    assert(fpow(w, h) == fpow(GENERATOR as nat, a * h));
    lemma_half_order();
    assert(a * h == h * a);
    assert(fpow(w, h) == (P - 1) as nat);
    // fpow(y, h) == fpow(fpow(w, h), m) == (P-1)^m
    lemma_fpow_multiplies(w, m, h);
    lemma_fpow_multiplies(w, h, m);
    assert(m * h == h * m);
    assert(fpow(y, h) == fpow((P - 1) as nat, m));
    lemma_neg_one_pow(m);
    let s = power_sum(y, h);
    if m % 2 == 1 {
        // sum = s + (P-1)*s == P*s == 0 (mod P)
        assert(fpow(y, h) == (P - 1) as nat);
        lemma_fsum_bound(Seq::new(h, |k2: int| fpow(y, k2 as nat)));
        let t = ((P - 1) as nat * s) % (P as nat);
        lemma_add_mod_noop_right(s as int, ((P - 1) as nat * s) as int, P as int);
        assert(fadd(s, t) == (s + (P - 1) as nat * s) % (P as nat));
        assert(s + (P - 1) as nat * s == s * (P as nat)) by (nonlinear_arith);
        lemma_mod_multiples_basic(s as int, P as int);
        assert(power_sum(y, l) == fadd(s, fmul((P - 1) as nat, s)));
        assert(fmul((P - 1) as nat, s) == t);
    } else {
        // recurse on the half-size domain
        let m2 = m / 2;
        assert(m == 2 * m2);
        // fpow(w, 2) == root_of_unity_spec(h)
        lemma_fpow_multiplies(GENERATOR as nat, a, 2);
        assert(fpow(w, 2) == fpow(GENERATOR as nat, a * 2));
        assert((P - 1) as nat == h * (2 * a)) by (nonlinear_arith)
            requires
                (P - 1) as nat == l * a,
                l == 2 * h,
        ;
        lemma_div_by_multiple((2 * a) as int, h as int);
        assert(((2 * a) as int * h as int) / (h as int) == (2 * a) as int);
        assert((2 * a) as int * h as int == (P - 1) as int) by (nonlinear_arith)
            requires
                (P - 1) as nat == h * (2 * a),
        ;
        assert((P - 1) as nat / h == 2 * a);
        assert(a * 2 == 2 * a);
        assert(root_of_unity_spec(h) == fpow(GENERATOR as nat, 2 * a));
        // y == fpow(root_of_unity_spec(h), m2)
        lemma_fpow_multiplies(w, 2, m2);
        assert(fpow(fpow(w, 2), m2) == fpow(w, 2 * m2));
        lemma_orthogonality(h, m2);
        assert(s == 0);
        assert(fpow(y, h) * 0 == 0);
        assert(fmul(fpow(y, h), 0) == 0);
        assert(fadd(0, 0) == 0);
    }
}

proof fn lemma_fsum_exchange(m: Seq<Seq<nat>>, cols: nat)
    requires
        forall|r: int| 0 <= r < m.len() ==> #[trigger] m[r].len() == cols,
    ensures
        fsum(m.map_values(|row: Seq<nat>| fsum(row))) == fsum(
            Seq::new(cols, |j: int| fsum(m.map_values(|row: Seq<nat>| row[j]))),
        ),
    decreases m.len(),
{
    let rowsums = m.map_values(|row: Seq<nat>| fsum(row));
    let colsums = Seq::new(cols, |j: int| fsum(m.map_values(|row: Seq<nat>| row[j])));
    if m.len() == 0 {
        assert forall|j: int| 0 <= j < cols implies colsums[j] == 0 by {
            assert(m.map_values(|row: Seq<nat>| row[j]) =~= Seq::<nat>::empty());
        }
        lemma_fsum_zero(colsums);
    } else {
        let front = m.drop_last();
        let last = m.last();
        lemma_fsum_exchange(front, cols);
        let colsums_front = Seq::new(cols, |j: int| fsum(front.map_values(|row: Seq<nat>| row[j])));
        assert(rowsums.drop_last() =~= front.map_values(|row: Seq<nat>| fsum(row)));
        assert(rowsums.last() == fsum(last));
        assert forall|j: int| 0 <= j < cols implies #[trigger] colsums[j] == fadd(
            colsums_front[j],
            last[j],
        ) by {
            let col_all = m.map_values(|row: Seq<nat>| row[j]);
            assert(col_all.drop_last() =~= front.map_values(|row: Seq<nat>| row[j]));
            assert(col_all.last() == last[j]);
        }
        lemma_fsum_pointwise_add(colsums_front, last);
        assert(colsums =~= Seq::new(colsums_front.len(), |j: int| fadd(colsums_front[j], last[j])));
    }
}

/// Interpolation inverts evaluation: for a column of canonical values over
/// an admissible power-of-two domain, the interpolant evaluated at the
/// `i`-th domain point (the `i`-th power of the domain's root of unity)
/// returns the `i`-th value.
#[verifier::rlimit(100)]
pub proof fn lemma_interpolation_inverts_evaluation(values: Seq<nat>, i: int)
    requires
        domain_size_ok(values.len()),
        forall|j: int| 0 <= j < values.len() ==> values[j] < P as nat,
        0 <= i < values.len(),
    ensures
        peval(interpolate_spec(values), fpow(root_of_unity_spec(values.len()), i as nat))
            == values[i],
{
    let l = values.len();
    let w = root_of_unity_spec(l);
    let linv = finv(l);
    let winv = finv(w);
    let c = interpolate_spec(values);
    let xi = fpow(w, i as nat);
    lemma_domain_size_divides(l);
    lemma_root_of_unity_order(l);
    lemma_peval_is_sum(c, xi);
    let outer = Seq::new(l, |k: int| fmul(c[k], fpow(xi, k as nat)));
    let mat = Seq::new(
        l,
        |k: int|
            Seq::new(
                l,
                |j: int|
                    fmul(
                        values[j],
                        fpow(
                            w,
                            (i as nat) * (k as nat) + ((P - 2) as nat) * (k as nat) * (j as nat),
                        ),
                    ),
            ),
    );
    assert forall|k: int| 0 <= k < l implies #[trigger] outer[k] == fmul(linv, fsum(mat[k])) by {
        let yk = fpow(winv, k as nat);
        lemma_peval_is_sum(values, yk);
        let inner = Seq::new(l, |j: int| fmul(values[j], fpow(yk, j as nat)));
        assert(c[k] == fmul(linv, fsum(inner)));
        lemma_fpow_multiplies(w, i as nat, k as nat);
        lemma_fpow_multiplies(w, (P - 2) as nat, k as nat);
        let g = fpow(w, (i as nat) * (k as nat));
        assert(fpow(xi, k as nat) == g);
        lemma_fmul_assoc(linv, fsum(inner), g);
        assert(fmul(fsum(inner), g) == fmul(g, fsum(inner)));
        lemma_fsum_scale(g, inner);
        assert forall|j: int| 0 <= j < l implies inner.map_values(|v: nat| fmul(g, v))[j]
            == mat[k][j] by {
            lemma_fpow_multiplies(w, ((P - 2) as nat) * (k as nat), j as nat);
            let e2 = ((P - 2) as nat) * (k as nat) * (j as nat);
            assert(fpow(yk, j as nat) == fpow(w, e2));
            lemma_fmul_assoc(g, values[j], fpow(w, e2));
            assert(fmul(g, values[j]) == fmul(values[j], g));
            lemma_fmul_assoc(values[j], g, fpow(w, e2));
            lemma_fpow_adds(w, (i as nat) * (k as nat), e2);
        }
        assert(inner.map_values(|v: nat| fmul(g, v)) =~= mat[k]);
    }
    let rowsums = mat.map_values(|row: Seq<nat>| fsum(row));
    assert(outer =~= rowsums.map_values(|v: nat| fmul(linv, v)));
    lemma_fsum_scale(linv, rowsums);
    lemma_fsum_exchange(mat, l);
    let colsums = Seq::new(l, |j: int| fsum(mat.map_values(|row: Seq<nat>| row[j])));
    let a = (P - 1) as nat / l;
    lemma_fundamental_div_mod((P - 1) as int, l as int);
    assert((P - 1) as nat == l * a);
    assert(a >= 1) by {
        if a == 0 {
            assert(l * 0 == 0);
        }
    }
    assert forall|j: int| 0 <= j < l implies #[trigger] colsums[j] == (if j == i {
        fmul(values[i], l)
    } else {
        0nat
    }) by {
        let col = mat.map_values(|row: Seq<nat>| row[j]);
        let mj: nat = (i as nat) + ((P - 2) as nat) * (j as nat);
        let yj = fpow(w, mj);
        assert forall|k: int| 0 <= k < l implies col[k] == fmul(values[j], fpow(yj, k as nat)) by {
            assert((i as nat) * (k as nat) + ((P - 2) as nat) * (k as nat) * (j as nat) == mj * (
            k as nat)) by (nonlinear_arith)
                requires
                    mj == (i as nat) + ((P - 2) as nat) * (j as nat),
                    0 <= k,
                    0 <= j,
            ;
            lemma_fpow_multiplies(w, mj, k as nat);
        }
        let powers = Seq::new(l, |k: int| fpow(yj, k as nat));
        assert(col =~= powers.map_values(|v: nat| fmul(values[j], v)));
        lemma_fsum_scale(values[j], powers);
        lemma_fpow_cycle(w, l, mj);
        // mj == l * (a * j) + (i - j)
        let pm1: int = (P - 1) as int;
        assert(mj as int == i + (pm1 - 1) * j);
        assert(i + (pm1 - 1) * j == (a * j) as int * (l as int) + (i - j)) by (nonlinear_arith)
            requires
                pm1 == (l as int) * (a as int),
        ;
        assert(mj as int == (a * j) * (l as int) + (i - j));
        if j == i {
            lemma_fundamental_div_mod_converse_mod(mj as int, l as int, (a * j) as int, 0);
            assert(mj as int % (l as int) == 0);
            assert(yj == fpow(w, 0));
            assert(powers =~= Seq::new(l, |k: int| fpow(1nat, k as nat)));
            lemma_power_sum_ones(l);
            assert(fsum(powers) == l);
        } else {
            let r: int = if i > j {
                i - j
            } else {
                l as int + i - j
            };
            let q: int = if i > j {
                (a * j) as int
            } else {
                (a * j) as int - 1
            };
            if i < j {
                assert(a * j >= 1) by (nonlinear_arith)
                    requires
                        a >= 1,
                        j >= 1,
                ;
            }
            if i < j {
                assert(((a * j) as int - 1) * (l as int) + (l as int + i - j) == (a * j) as int * (
                l as int) + (i - j)) by (nonlinear_arith);
            }
            assert(mj as int == q * (l as int) + r);
            assert(0 < r < l as int);
            lemma_fundamental_div_mod_converse_mod(mj as int, l as int, q, r);
            assert(mj as int % (l as int) == r);
            lemma_orthogonality(l, r as nat);
            assert(yj == fpow(w, r as nat));
            assert(fsum(powers) == 0);
            assert(values[j] * 0 == 0);
            assert(fmul(values[j], 0) == 0);
        }
    }
    lemma_fsum_single(colsums, i);
    // fsum(outer) == fmul(linv, fmul(values[i], l)) == values[i]
    let vi = values[i as int];
    assert(vi < P as nat);
    assert(fmul(vi, l) == fmul(l, vi));
    lemma_fmul_assoc(linv, l, vi);
    assert(fmul(linv, l) == fmul(l, linv));
    lemma_interpolation_constants(l);
    assert(fmul(linv, fmul(l, vi)) == fmul(fmul(linv, l), vi));
    lemma_small_mod(vi, P as nat);
    assert(1 * vi == vi);
    assert(fmul(1, vi) == vi);
}

/// The low-degree extension restricted to the trace domain is the trace:
/// at every extended-domain point whose index is a multiple of the blowup
/// factor, the interpolant takes the corresponding original value.
pub proof fn lemma_lde_restriction(values: Seq<nat>, b: nat, i: int)
    requires
        domain_size_ok(values.len()),
        b >= 1,
        domain_size_ok(values.len() * b),
        forall|j: int| 0 <= j < values.len() ==> values[j] < P as nat,
        0 <= i < values.len(),
    ensures
        peval(
            interpolate_spec(values),
            fpow(root_of_unity_spec(values.len() * b), (i as nat) * b),
        ) == values[i],
{
    let d = values.len() * b;
    lemma_domain_nesting(values.len(), b);
    lemma_fpow_multiplies(root_of_unity_spec(d), b, i as nat);
    assert(b * (i as nat) == (i as nat) * b);
    lemma_interpolation_inverts_evaluation(values, i);
}

} // verus!
