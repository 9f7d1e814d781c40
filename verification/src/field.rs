//! Arithmetic in the scalar field of the signature scheme.
//!
//! Key shares, nonces and signature scalars live in the prime field
//! `GF(FIELD_MODULUS)`; the modulus is the Mersenne prime `2^61 - 1`, so a
//! product of two canonical elements fits in a `u128` and every operation
//! can be computed exactly and proved against its mathematical statement.

use vstd::prelude::*;
use vstd::arithmetic::div_mod::{
    lemma_small_mod, lemma_mod_add_multiples_vanish, lemma_mod_bound, lemma_mod_multiples_vanish,
    lemma_mul_mod_noop_general, lemma_mul_mod_noop_left, lemma_sub_mod_noop,
};
use vstd::arithmetic::mul::{
    lemma_mul_is_commutative, lemma_mul_is_distributive_sub, lemma_mul_upper_bound,
};

verus! {

/// The field modulus: the Mersenne prime `2^61 - 1`.
pub const FIELD_MODULUS: u64 = 2305843009213693951;

/// A canonical field element is a residue below the modulus.
pub open spec fn in_field(a: int) -> bool {
    0 <= a < FIELD_MODULUS
}

/// Field addition, as a statement about mathematical integers.
pub open spec fn fadd(a: int, b: int) -> int {
    (a + b) % (FIELD_MODULUS as int)
}

/// Field subtraction, as a statement about mathematical integers.
pub open spec fn fsub(a: int, b: int) -> int {
    (a - b) % (FIELD_MODULUS as int)
}

/// Field multiplication, as a statement about mathematical integers.
pub open spec fn fmul(a: int, b: int) -> int {
    (a * b) % (FIELD_MODULUS as int)
}

/// `v` is the canonical multiplicative inverse of `d` in the field.
pub open spec fn is_inverse(d: int, v: int) -> bool {
    in_field(v) && fmul(d, v) == 1
}

/// `d` has a multiplicative inverse in the field.
pub open spec fn has_inverse(d: int) -> bool {
    exists|v: int| is_inverse(d, v)
}

/// The canonical multiplicative inverse of `d`, where one exists.
pub open spec fn finv(d: int) -> int {
    choose|v: int| is_inverse(d, v)
}

/// Multiplication in the field is commutative.
pub proof fn lemma_fmul_comm(a: int, b: int)
    ensures
        fmul(a, b) == fmul(b, a),
{
    lemma_mul_is_commutative(a, b);
}

/// Multiplication in the field is associative.
pub proof fn lemma_fmul_assoc(a: int, b: int, c: int)
    ensures
        fmul(fmul(a, b), c) == fmul(a, fmul(b, c)),
{
    let m = FIELD_MODULUS as int;
    lemma_mul_mod_noop_general(a * b, c, m);
    lemma_mul_mod_noop_general(a, b * c, m);
    assert((a * b) * c == a * (b * c)) by (nonlinear_arith);
}

/// Congruence modulo the field modulus.
pub open spec fn congruent(x: int, y: int) -> bool {
    (x - y) % (FIELD_MODULUS as int) == 0
}

/// Reducing an integer keeps its congruence class.
pub proof fn lemma_cong_reduce(x: int)
    ensures
        congruent(x % (FIELD_MODULUS as int), x),
        in_field(x % (FIELD_MODULUS as int)),
{
    let m = FIELD_MODULUS as int;
    vstd::arithmetic::div_mod::lemma_fundamental_div_mod(x, m);
    lemma_mod_bound(x, m);
    assert(x % m - x == m * (-(x / m)) + 0) by (nonlinear_arith)
        requires
            x == m * (x / m) + x % m,
    ;
    lemma_mod_multiples_vanish(-(x / m), 0, m);
    lemma_small_mod(0nat, m as nat);
}

/// Congruence is transitive (and symmetric, by swapping arguments).
pub proof fn lemma_cong_trans(x: int, y: int, z: int)
    requires
        congruent(x, y),
        congruent(y, z),
    ensures
        congruent(x, z),
{
    let m = FIELD_MODULUS as int;
    vstd::arithmetic::div_mod::lemma_add_mod_noop(x - y, y - z, m);
    lemma_small_mod(0nat, m as nat);
}

/// Congruence is symmetric.
pub proof fn lemma_cong_sym(x: int, y: int)
    requires
        congruent(x, y),
    ensures
        congruent(y, x),
{
    let m = FIELD_MODULUS as int;
    vstd::arithmetic::div_mod::lemma_fundamental_div_mod(x - y, m);
    assert(y - x == m * (-((x - y) / m)) + 0) by (nonlinear_arith)
        requires
            x - y == m * ((x - y) / m),
    ;
    lemma_mod_multiples_vanish(-((x - y) / m), 0, m);
    lemma_small_mod(0nat, m as nat);
}

/// Congruent values stay congruent under multiplication.
pub proof fn lemma_cong_mul(x: int, y: int, z: int)
    requires
        congruent(x, y),
    ensures
        congruent(x * z, y * z),
{
    let m = FIELD_MODULUS as int;
    lemma_mul_mod_noop_left(x - y, z, m);
    assert((0int * z) == 0) by (nonlinear_arith);
    lemma_small_mod(0nat, m as nat);
    assert(x * z - y * z == (x - y) * z) by (nonlinear_arith);
}

/// Congruent canonical values are equal.
pub proof fn lemma_cong_to_eq(x: int, y: int)
    requires
        congruent(x, y),
        in_field(x),
        in_field(y),
    ensures
        x == y,
{
    let m = FIELD_MODULUS as int;
    vstd::arithmetic::div_mod::lemma_mod_equivalence(x, y, m);
    lemma_small_mod(x as nat, m as nat);
    lemma_small_mod(y as nat, m as nat);
}

/// A field sum is congruent to the plain integer sum.
pub proof fn lemma_fadd_cong(a: int, b: int)
    ensures
        congruent(fadd(a, b), a + b),
        in_field(fadd(a, b)),
{
    lemma_cong_reduce(a + b);
}

/// A field product is congruent to the plain integer product.
pub proof fn lemma_fmul_cong(a: int, b: int)
    ensures
        congruent(fmul(a, b), a * b),
        in_field(fmul(a, b)),
{
    lemma_cong_reduce(a * b);
}

/// A field difference is congruent to the plain integer difference.
pub proof fn lemma_fsub_cong(a: int, b: int)
    ensures
        congruent(fsub(a, b), a - b),
        in_field(fsub(a, b)),
{
    lemma_cong_reduce(a - b);
}

/// Congruent factors give congruent products.
pub proof fn lemma_cong_mul_both(x1: int, y1: int, x2: int, y2: int)
    requires
        congruent(x1, y1),
        congruent(x2, y2),
    ensures
        congruent(x1 * x2, y1 * y2),
{
    lemma_cong_mul(x1, y1, x2);
    lemma_cong_mul(x2, y2, y1);
    lemma_mul_is_commutative(x2, y1);
    lemma_mul_is_commutative(y2, y1);
    lemma_cong_trans(x1 * x2, y1 * x2, y1 * y2);
}

/// Congruent summands give congruent sums.
pub proof fn lemma_cong_add_both(x1: int, y1: int, x2: int, y2: int)
    requires
        congruent(x1, y1),
        congruent(x2, y2),
    ensures
        congruent(x1 + x2, y1 + y2),
{
    let m = FIELD_MODULUS as int;
    vstd::arithmetic::div_mod::lemma_add_mod_noop(x1 - y1, x2 - y2, m);
    lemma_small_mod(0nat, m as nat);
}

/// A canonical element is unchanged by multiplication with one.
pub proof fn lemma_fmul_one(a: int)
    requires
        in_field(a),
    ensures
        fmul(a, 1) == a,
{
    lemma_small_mod(a as nat, FIELD_MODULUS as nat);
}

/// Inverses in the field are unique: the inverse certificate pins the value.
pub proof fn lemma_inverse_unique(d: int, v1: int, v2: int)
    requires
        is_inverse(d, v1),
        is_inverse(d, v2),
    ensures
        v1 == v2,
{
    lemma_fmul_one(v1);
    assert(fmul(v1, fmul(d, v2)) == fmul(fmul(v1, d), v2)) by {
        lemma_fmul_assoc(v1, d, v2);
    }
    assert(fmul(v1, d) == 1) by {
        lemma_fmul_comm(v1, d);
    }
    assert(fmul(1, v2) == v2) by {
        lemma_fmul_comm(1, v2);
        lemma_fmul_one(v2);
    }
}

/// A witnessed inverse is the canonical inverse `finv`.
pub proof fn lemma_finv_of(d: int, v: int)
    requires
        is_inverse(d, v),
    ensures
        has_inverse(d),
        finv(d) == v,
{
    assert(is_inverse(d, v));
    let w = finv(d);
    assert(is_inverse(d, w));
    lemma_inverse_unique(d, w, v);
}

/// Adds two canonical field elements.
pub fn add_mod(a: u64, b: u64) -> (r: u64)
    requires
        in_field(a as int),
        in_field(b as int),
    ensures
        in_field(r as int),
        r as int == fadd(a as int, b as int),
{
    let s = a + b;
    if s >= FIELD_MODULUS {
        proof {
            lemma_mod_add_multiples_vanish(s - FIELD_MODULUS, FIELD_MODULUS as int);
            lemma_small_mod((s - FIELD_MODULUS) as nat, FIELD_MODULUS as nat);
        }
        s - FIELD_MODULUS
    } else {
        proof {
            lemma_small_mod(s as nat, FIELD_MODULUS as nat);
        }
        s
    }
}

/// Subtracts one canonical field element from another.
pub fn sub_mod(a: u64, b: u64) -> (r: u64)
    requires
        in_field(a as int),
        in_field(b as int),
    ensures
        in_field(r as int),
        r as int == fsub(a as int, b as int),
{
    if a >= b {
        proof {
            lemma_small_mod((a - b) as nat, FIELD_MODULUS as nat);
        }
        a - b
    } else {
        proof {
            lemma_mod_add_multiples_vanish(a - b, FIELD_MODULUS as int);
            lemma_small_mod((a + FIELD_MODULUS - b) as nat, FIELD_MODULUS as nat);
        }
        a + FIELD_MODULUS - b
    }
}

/// Multiplies two canonical field elements through a 128-bit product.
pub fn mul_mod(a: u64, b: u64) -> (r: u64)
    requires
        in_field(a as int),
        in_field(b as int),
    ensures
        in_field(r as int),
        r as int == fmul(a as int, b as int),
{
    proof {
        lemma_mul_upper_bound(a as int, FIELD_MODULUS as int, b as int, FIELD_MODULUS as int);
    }
    let wide = (a as u128) * (b as u128);
    let rem = wide % (FIELD_MODULUS as u128);
    proof {
        lemma_mod_bound(wide as int, FIELD_MODULUS as int);
    }
    rem as u64
}

/// No element with a common divisor `g >= 2` with the modulus has an
/// inverse: an inverse certificate would make `g` divide one.
proof fn lemma_common_divisor_no_inverse(a: int, g: int, v: int)
    requires
        2 <= g,
        a % g == 0,
        (FIELD_MODULUS as int) % g == 0,
    ensures
        !is_inverse(a, v),
{
    if is_inverse(a, v) {
        let m = FIELD_MODULUS as int;
        vstd::arithmetic::div_mod::lemma_fundamental_div_mod(a, g);
        vstd::arithmetic::div_mod::lemma_fundamental_div_mod(m, g);
        vstd::arithmetic::div_mod::lemma_fundamental_div_mod(a * v, m);
        let k = (a * v) / m;
        // 1 == a * v - m * k is a multiple of g.
        assert(a * v - m * k == g * ((a / g) * v - (m / g) * k)) by (nonlinear_arith)
            requires
                a == g * (a / g),
                m == g * (m / g),
        ;
        let w = (a / g) * v - (m / g) * k;
        assert((g * w) % g == 0) by {
            vstd::arithmetic::div_mod::lemma_mod_multiples_basic(w, g);
            lemma_mul_is_commutative(g, w);
        }
        lemma_small_mod(1nat, g as nat);
    }
}

/// Computes the multiplicative inverse of `a` by the extended Euclidean
/// algorithm. The Bezout identity is carried as a ghost certificate, so a
/// returned inverse is correct without appeal to the primality of the
/// modulus, and the final remainder witnesses that no inverse exists when
/// `None` comes back (which a prime modulus never produces for nonzero
/// canonical `a`).
pub fn inv_mod(a: u64) -> (res: Option<u64>)
    requires
        in_field(a as int),
    ensures
        res matches Some(v) ==> is_inverse(a as int, v as int) && has_inverse(a as int) && finv(
            a as int,
        ) == v as int,
        res is None ==> !has_inverse(a as int),
{
    if a == 0 {
        proof {
            assert forall|v: int| !is_inverse(0int, v) by {
                if is_inverse(0int, v) {
                    assert((0int * v) == 0) by (nonlinear_arith);
                    lemma_small_mod(0nat, FIELD_MODULUS as nat);
                }
            }
        }
        return None;
    }
    let m = FIELD_MODULUS;
    let mut r0: u64 = a;
    let mut r1: u64 = m;
    let mut s0: u64 = 1;
    let mut s1: u64 = 0;
    let ghost mut gs0: int = 1;
    let ghost mut gt0: int = 0;
    let ghost mut gs1: int = 0;
    let ghost mut gt1: int = 1;
    while r1 != 0
        invariant
            0 < a < FIELD_MODULUS,
            m == FIELD_MODULUS,
            0 < r0 <= m,
            r1 <= m,
            gs0 * a + gt0 * m == r0 as int,
            gs1 * a + gt1 * m == r1 as int,
            s0 as int == gs0 % (m as int),
            s1 as int == gs1 % (m as int),
            forall|d: int|
                2 <= d && #[trigger] (r0 as int % d) == 0 && r1 as int % d == 0 ==> a as int % d
                    == 0 && FIELD_MODULUS as int % d == 0,
        decreases r1,
    {
        let q = r0 / r1;
        let r2 = r0 % r1;
        proof {
            // A common divisor of the new remainder pair divides the old pair.
            assert forall|d: int|
                2 <= d && #[trigger] (r1 as int % d) == 0 && r2 as int % d == 0 implies a as int % d
                == 0 && FIELD_MODULUS as int % d == 0 by {
                vstd::arithmetic::div_mod::lemma_fundamental_div_mod(r0 as int, r1 as int);
                assert(r0 as int == r1 as int * q as int + r2 as int);
                lemma_mul_mod_noop_left(r1 as int, q as int, d);
                vstd::arithmetic::div_mod::lemma_add_mod_noop(r1 as int * q as int, r2 as int, d);
                assert((0int * q as int) == 0) by (nonlinear_arith);
                lemma_small_mod(0nat, d as nat);
                assert(r0 as int % d == 0);
            }
        }
        let qm = q % m;
        let s2 = sub_mod(s0, mul_mod(qm, s1));
        proof {
            let mi = m as int;
            let gs2 = gs0 - q * gs1;
            let gt2 = gt0 - q * gt1;
            // The new remainder keeps a Bezout certificate.
            assert(r2 as int == r0 - q * r1) by {
                vstd::arithmetic::div_mod::lemma_fundamental_div_mod(r0 as int, r1 as int);
            }
            assert(gs2 * a + gt2 * mi == r0 - q * r1) by {
                lemma_mul_is_distributive_sub(a as int, gs0, q * gs1);
                lemma_mul_is_distributive_sub(mi, gt0, q * gt1);
                lemma_mul_is_commutative(gs2, a as int);
                lemma_mul_is_commutative(gs0, a as int);
                lemma_mul_is_commutative(gt2, mi);
                lemma_mul_is_commutative(gt0, mi);
                assert(a as int * (q * gs1) == q * (gs1 * a)) by (nonlinear_arith);
                assert(mi * (q * gt1) == q * (gt1 * mi)) by (nonlinear_arith);
                assert(q * (gs1 * a) + q * (gt1 * mi) == q * (gs1 * a + gt1 * mi))
                    by (nonlinear_arith);
            }
            // The executable coefficient stays the canonical residue of the
            // ghost coefficient.
            assert(s2 as int == gs2 % mi) by {
                lemma_mod_bound(q as int, mi);
                lemma_mul_mod_noop_general(q as int, gs1, mi);
                lemma_sub_mod_noop(gs0, q * gs1, mi);
            }
            gs0 = gs1;
            gt0 = gt1;
            gs1 = gs2;
            gt1 = gt2;
        }
        r0 = r1;
        r1 = r2;
        s0 = s1;
        s1 = s2;
    }
    if r0 == 1 {
        proof {
            let mi = m as int;
            // From the certificate gs0 * a + gt0 * m == 1:
            assert(gs0 * a == mi * (-gt0) + 1) by {
                lemma_mul_is_commutative(gt0, mi);
                assert(mi * (-gt0) == -(mi * gt0)) by (nonlinear_arith);
            }
            lemma_mod_multiples_vanish(-gt0, 1, mi);
            lemma_small_mod(1nat, m as nat);
            lemma_mul_mod_noop_left(gs0, a as int, mi);
            lemma_mul_is_commutative(s0 as int, a as int);
            lemma_finv_of(a as int, s0 as int);
        }
        Some(s0)
    } else {
        proof {
            // The final remainder is a common divisor of `a` and the
            // modulus other than one, so no inverse can exist.
            let g = r0 as int;
            vstd::arithmetic::div_mod::lemma_mod_self_0(g);
            lemma_small_mod(0nat, g as nat);
            assert(a as int % g == 0 && FIELD_MODULUS as int % g == 0);
            assert forall|v: int| !is_inverse(a as int, v) by {
                if is_inverse(a as int, v) {
                    lemma_common_divisor_no_inverse(a as int, g, v);
                }
            }
        }
        None
    }
}

} // verus!
