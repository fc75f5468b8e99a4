use vstd::arithmetic::power::{lemma_pow_adds, lemma_pow_multiplies, lemma_pow_positive, pow};
use vstd::prelude::*;

verus! {

/// The value of little-endian 32-bit limbs.
pub open spec fn limbs_val(s: Seq<u32>) -> int
    decreases s.len(),
{
    if s.len() == 0 {
        0
    } else {
        limbs_val(s.drop_last()) + s.last() * limb_pow((s.len() - 1) as nat)
    }
}

/// The weight of limb `i`: `2^(32 * i)`.
pub open spec fn limb_pow(i: nat) -> int {
    pow(2, 32 * i)
}

/// `x <= y` gives `x^n <= y^n`, and `x < y` gives `x^n < y^n` for `n >= 1`.
proof fn lemma_pow_base_monotone(x: int, y: int, n: nat)
    requires
        0 <= x <= y,
    ensures
        pow(x, n) <= pow(y, n),
        0 <= pow(x, n),
        x < y && n >= 1 ==> pow(x, n) < pow(y, n),
    decreases n,
{
    reveal(pow);
    if n > 0 {
        lemma_pow_base_monotone(x, y, (n - 1) as nat);
        let a = pow(x, (n - 1) as nat);
        let b = pow(y, (n - 1) as nat);
        assert(x * a <= y * b) by (nonlinear_arith)
            requires
                0 <= x <= y,
                0 <= a <= b,
        ;
        assert(0 <= x * a) by (nonlinear_arith)
            requires
                0 <= x,
                0 <= a,
        ;
        if x < y {
            if n == 1 {
                reveal(pow);
                assert(a == 1 && b == 1);
            } else {
                assert(a < b);
            }
            assert(x * a < y * b) by (nonlinear_arith)
                requires
                    0 <= x < y,
                    0 <= a,
                    1 <= b,
                    a <= b,
            ;
        }
    }
}

proof fn lemma_pow2_facts(i: nat)
    ensures
        pow(2, i) >= 1,
        pow(2, i + 1) == 2 * pow(2, i),
        pow(2, i) > i,
    decreases i,
{
    lemma_pow_positive(2, i);
    lemma_pow_adds(2, i, 1);
    reveal(pow);
    if i > 0 {
        lemma_pow2_facts((i - 1) as nat);
    }
}

proof fn lemma_pow2_constants()
    ensures
        pow(2, 62) == 0x4000_0000_0000_0000,
        pow(2, 96) == 0x1_0000_0000_0000_0000_0000_0000,
        pow(2, 34) == 0x4_0000_0000,
        pow(2, 63) == 0x8000_0000_0000_0000,
        pow(2, 1) == 2,
        pow(2, 0) == 1,
        pow(2, 32) == 0x1_0000_0000,
{
    reveal_with_fuel(pow, 100);
}

proof fn lemma_limb_pow_step(i: nat)
    ensures
        limb_pow(i + 1) == limb_pow(i) * 0x1_0000_0000,
        limb_pow(i) > 0,
{
    lemma_pow2_constants();
    lemma_pow_adds(2, 32 * i, 32);
    assert(32 * (i + 1) == 32 * i + 32);
    lemma_pow_positive(2, 32 * i);
}

proof fn lemma_val_bound(s: Seq<u32>)
    ensures
        0 <= limbs_val(s) < limb_pow(s.len()),
    decreases s.len(),
{
    lemma_limb_pow_step(s.len());
    if s.len() == 0 {
        reveal_with_fuel(pow, 1);
    } else {
        let n = (s.len() - 1) as nat;
        lemma_val_bound(s.drop_last());
        lemma_limb_pow_step(n);
        let x = s.last() as int;
        assert(0 <= limbs_val(s.drop_last()) + x * limb_pow(n) < limb_pow(n) * 0x1_0000_0000) by (nonlinear_arith)
            requires
                0 <= limbs_val(s.drop_last()) < limb_pow(n),
                0 <= x < 0x1_0000_0000,
                limb_pow(n) > 0,
        ;
    }
}

proof fn lemma_val_push(s: Seq<u32>, x: u32)
    ensures
        limbs_val(s.push(x)) == limbs_val(s) + x * limb_pow(s.len()),
{
    assert(s.push(x).drop_last() =~= s);
}

proof fn lemma_val_take(s: Seq<u32>, i: int)
    requires
        0 <= i < s.len(),
    ensures
        limbs_val(s.take(i + 1)) == limbs_val(s.take(i)) + s[i] * limb_pow(i as nat),
{
    assert(s.take(i + 1).drop_last() =~= s.take(i));
}

/// Limbs above `j` that are all zero add nothing.
proof fn lemma_val_strip(s: Seq<u32>, j: int)
    requires
        0 <= j <= s.len(),
        forall|i: int| j <= i < s.len() ==> s[i] == 0,
    ensures
        limbs_val(s) == limbs_val(s.take(j)),
    decreases s.len() - j,
{
    if j < s.len() {
        lemma_val_strip(s, j + 1);
        lemma_val_take(s, j);
    } else {
        assert(s.take(j) =~= s);
    }
}

/// Limbs that are all zero are worth zero.
proof fn lemma_val_zero(s: Seq<u32>)
    requires
        forall|i: int| 0 <= i < s.len() ==> s[i] == 0,
    ensures
        limbs_val(s) == 0,
{
    lemma_val_strip(s, 0);
    assert(s.take(0) =~= Seq::<u32>::empty());
}

/// `a * k`, for a multiplier under `2^96`.
fn mul_small(a: &Vec<u32>, k: u128) -> (r: Vec<u32>)
    requires
        k < 0x1_0000_0000_0000_0000_0000_0000,
    ensures
        limbs_val(r@) == limbs_val(a@) * k,
        r@.len() == a@.len() + 3,
{
    let mut r: Vec<u32> = Vec::new();
    let mut c: u128 = 0;
    let mut i: usize = 0;
    let n = a.len();
    while i < n
        invariant
            n == a@.len(),
            i <= n,
            r@.len() == i,
            c < 0x1_0000_0000_0000_0000_0000_0000,
            k < 0x1_0000_0000_0000_0000_0000_0000,
            limbs_val(r@) + c * limb_pow(i as nat) == limbs_val(a@.take(i as int)) * k,
        decreases n - i,
    {
        let x = a[i];
        assert(x as int * k + c < 0x1_0000_0000_0000_0000_0000_0000_0000_0000) by (nonlinear_arith)
            requires
                x < 0x1_0000_0000,
                k < 0x1_0000_0000_0000_0000_0000_0000,
                c < 0x1_0000_0000_0000_0000_0000_0000,
        ;
        let t: u128 = x as u128 * k + c;
        let lo = (t % 0x1_0000_0000) as u32;
        let c2 = t / 0x1_0000_0000;
        proof {
            lemma_val_push(r@, lo);
            lemma_val_take(a@, i as int);
            lemma_limb_pow_step(i as nat);
            let lp = limb_pow(i as nat);
            assert(lo * lp + c2 * (lp * 0x1_0000_0000) == t * lp) by (nonlinear_arith)
                requires
                    lo == t % 0x1_0000_0000,
                    c2 == t / 0x1_0000_0000,
            ;
            assert(t * lp == x * k * lp + c * lp) by (nonlinear_arith)
                requires
                    t == x * k + c,
            ;
            assert(limbs_val(a@.take(i as int)) * k + x * k * lp == (limbs_val(a@.take(i as int))
                + x * lp) * k) by (nonlinear_arith);
        }
        r.push(lo);
        c = c2;
        i = i + 1;
    }
    proof {
        assert(a@.take(n as int) =~= a@);
        lemma_limb_pow_step(n as nat);
        lemma_limb_pow_step((n + 1) as nat);
        lemma_val_push(r@, (c % 0x1_0000_0000) as u32);
    }
    let c0 = (c % 0x1_0000_0000) as u32;
    let c1 = ((c / 0x1_0000_0000) % 0x1_0000_0000) as u32;
    let c2 = (c / 0x1_0000_0000 / 0x1_0000_0000) as u32;
    let ghost r0 = r@;
    r.push(c0);
    proof {
        lemma_val_push(r@, c1);
    }
    r.push(c1);
    proof {
        lemma_val_push(r@, c2);
        let lp = limb_pow(n as nat);
        let q = c / 0x1_0000_0000;
        assert(c == c0 + q * 0x1_0000_0000) by (nonlinear_arith)
            requires
                c0 == c % 0x1_0000_0000,
                q == c / 0x1_0000_0000,
        ;
        assert(q == c1 + c2 * 0x1_0000_0000) by (nonlinear_arith)
            requires
                c1 == q % 0x1_0000_0000,
                c2 == q / 0x1_0000_0000,
        ;
        assert(c0 * lp + c1 * (lp * 0x1_0000_0000) + c2 * (lp * 0x1_0000_0000 * 0x1_0000_0000) == c
            * lp) by (nonlinear_arith)
            requires
                c == c0 + q * 0x1_0000_0000,
                q == c1 + c2 * 0x1_0000_0000,
        ;
    }
    r.push(c2);
    r
}

/// `s[i] * 2^(32 * i)` is part of the value.
proof fn lemma_val_ge_limb(s: Seq<u32>, i: int)
    requires
        0 <= i < s.len(),
    ensures
        limbs_val(s) >= s[i] * limb_pow(i as nat),
    decreases s.len(),
{
    lemma_val_bound(s.drop_last());
    lemma_limb_pow_step((s.len() - 1) as nat);
    if i < s.len() - 1 {
        lemma_val_ge_limb(s.drop_last(), i);
        assert(s.last() * limb_pow((s.len() - 1) as nat) >= 0) by (nonlinear_arith)
            requires
                limb_pow((s.len() - 1) as nat) > 0,
        ;
    }
}

/// The bit length of a non-zero limb: `p == 2^k <= x < 2 * p`.
fn limb_log2(x: u32) -> (r: (u64, u64))
    requires
        x >= 1,
    ensures
        r.1 as int == pow(2, r.0 as nat),
        r.1 <= x < 2 * r.1,
        r.0 < 32,
{
    let mut v: u64 = x as u64;
    let mut k: u64 = 0;
    let mut p: u64 = 1;
    proof {
        reveal_with_fuel(pow, 1);
    }
    while v >= 2
        invariant
            p as int == pow(2, k as nat),
            1 <= v,
            p >= 1,
            p * v <= x < p * (v + 1),
        decreases v,
    {
        proof {
            lemma_pow2_facts(k as nat);
            assert(p * 2 * (v / 2) <= p * v && p * v < p * 2 * (v / 2 + 1) && p * 2 <= p * v) by (nonlinear_arith)
                requires
                    p >= 1,
                    v >= 2,
            ;
        }
        let ghost v0 = v;
        let ghost p0 = p;
        v = v / 2;
        p = p * 2;
        k = k + 1;
        proof {
            assert(p * v <= x < p * (v + 1)) by (nonlinear_arith)
                requires
                    p == p0 * 2,
                    v == v0 / 2,
                    p0 * 2 * (v0 / 2) <= p0 * v0,
                    p0 * v0 < p0 * 2 * (v0 / 2 + 1),
                    p0 * v0 <= x < p0 * (v0 + 1),
            ;
        }
    }
    proof {
        assert(p <= x < 2 * p) by (nonlinear_arith)
            requires
                p * v <= x < p * (v + 1),
                1 <= v < 2,
        ;
        lemma_pow2_constants();
        if k >= 32 {
            vstd::arithmetic::power::lemma_pow_increases(2, 32, k as nat);
        }
    }
    (k, p)
}

/// The exponent of the highest power of two at most the value, and whether the value
/// is that power exactly: `2^e == val`, or `2^e < val < 2^(e + 1)`.
fn floor_log2_limbs(s: &Vec<u32>) -> (r: (u64, bool))
    requires
        limbs_val(s@) >= 1,
        s@.len() <= 0x1_0000_0000,
    ensures
        r.1 ==> limbs_val(s@) == pow(2, r.0 as nat),
        !r.1 ==> pow(2, r.0 as nat) < limbs_val(s@) < 2 * pow(2, r.0 as nat),
        r.0 < 0x40_0000_0000,
{
    let mut j: usize = s.len();
    while j > 0 && s[j - 1] == 0
        invariant
            j <= s@.len(),
            forall|i: int| j <= i < s@.len() ==> s@[i] == 0,
        decreases j,
    {
        j = j - 1;
    }
    if j == 0 {
        proof {
            lemma_val_zero(s@);
            assert(false);
        }
        return (0, true);
    }
    let top = j - 1;
    proof {
        lemma_val_strip(s@, j as int);
        lemma_val_take(s@, top as int);
        lemma_val_bound(s@.take(top as int));
    }
    let x = s[top];
    let (k, p) = limb_log2(x);
    let mut lower_zero = true;
    let mut i: usize = 0;
    while i < top
        invariant
            i <= top,
            top < s@.len(),
            lower_zero <==> forall|l: int| 0 <= l < i ==> s@[l] == 0,
        decreases top - i,
    {
        if s[i] != 0 {
            lower_zero = false;
        }
        i = i + 1;
    }
    let e: u64 = 32 * top as u64 + k;
    proof {
        let lp = limb_pow(top as nat);
        let low = limbs_val(s@.take(top as int));
        lemma_limb_pow_step(top as nat);
        lemma_pow_adds(2, 32 * (top as nat), k as nat);
        assert(pow(2, e as nat) == lp * p);
        lemma_pow_adds(2, e as nat, 1);
        lemma_pow2_constants();
        assert(limbs_val(s@) == low + x * lp);
        assert(lp * p <= x * lp && low + x * lp < 2 * (lp * p)) by (nonlinear_arith)
            requires
                p <= x < 2 * p,
                0 <= low < lp,
                lp > 0,
        ;
        if lower_zero && x == p {
            assert(s@.take(top as int).len() == top);
            assert forall|l: int| 0 <= l < top implies s@.take(top as int)[l] == 0 by {
                assert(s@[l] == 0);
            }
            lemma_val_zero(s@.take(top as int));
            assert(limbs_val(s@) == x * lp);
            assert(x * lp == lp * p) by (nonlinear_arith)
                requires
                    x == p,
            ;
        } else if !lower_zero {
            let l = choose|l: int| 0 <= l < top && s@[l] != 0;
            lemma_val_ge_limb(s@.take(top as int), l);
            lemma_limb_pow_step(l as nat);
            assert(s@.take(top as int)[l] * limb_pow(l as nat) > 0) by (nonlinear_arith)
                requires
                    s@.take(top as int)[l] >= 1,
                    limb_pow(l as nat) > 0,
            ;
        } else {
            assert(lp * p < x * lp) by (nonlinear_arith)
                requires
                    p < x,
                    lp > 0,
            ;
        }
    }
    (e, lower_zero && x as u64 == p)
}

/// `b` is `floor(f * log2(ONE / m))`, stated without logarithms:
/// `2^b * m^f <= ONE^f < 2 * 2^b * m^f`.
pub open spec fn floor_ok(b: int, m: int, f: nat) -> bool {
    &&& b >= 0
    &&& pow(2, b as nat) * pow(m, f) <= pow(0x1_0000_0000_0000_0000_0000_0000, f)
    &&& pow(0x1_0000_0000_0000_0000_0000_0000, f) < 2 * pow(2, b as nat) * pow(m, f)
}

/// Largest factor that the automatic budget takes: `m^factor` is formed exactly, and
/// this keeps it within about 12 KiB.
pub const MAX_SEQ_ITER_FACT: u32 = 1024;

/// The extra iterations that the automatic budget gives a span of `m / ONE` under 1:
/// exactly `floor(factor * log2(ONE / m))`; see `floor_ok`. The power `m^factor` is
/// formed exactly, and its bit length gives the logarithm's floor.
pub fn budget_floor(m: u128, factor: u32) -> (b: u64)
    requires
        1 <= m < 0x1_0000_0000_0000_0000_0000_0000,
        factor <= MAX_SEQ_ITER_FACT,
    ensures
        floor_ok(b as int, m as int, factor as nat),
        b <= 96 * MAX_SEQ_ITER_FACT,
{
    let mut v: Vec<u32> = Vec::new();
    v.push(1);
    proof {
        reveal_with_fuel(pow, 1);
        lemma_val_push(Seq::<u32>::empty(), 1u32);
        reveal_with_fuel(limbs_val, 1);
        lemma_pow2_constants();
        assert(limb_pow(0) == 1);
    }
    let mut i: u32 = 0;
    while i < factor
        invariant
            i <= factor,
            factor <= MAX_SEQ_ITER_FACT,
            limbs_val(v@) == pow(m as int, i as nat),
            v@.len() == 1 + 3 * i,
            m < 0x1_0000_0000_0000_0000_0000_0000,
        decreases factor - i,
    {
        v = mul_small(&v, m);
        proof {
            lemma_pow_adds(m as int, i as nat, 1);
            reveal_with_fuel(pow, 2);
        }
        i = i + 1;
    }
    let ghost f = factor as nat;
    proof {
        lemma_pow_positive(m as int, f);
        lemma_pow2_constants();
        lemma_pow_base_monotone(m as int, 0x1_0000_0000_0000_0000_0000_0000, f);
        lemma_pow_multiplies(2, 96, f);
    }
    let (e, exact) = floor_log2_limbs(&v);
    let ceil: u64 = if exact {
        e
    } else {
        e + 1
    };
    proof {
        let full = 96 * f;
        let mm = pow(m as int, f);
        lemma_pow_adds(2, e as nat, 1);
        assert(mm <= pow(2, full));
        if ceil > full {
            if exact {
                vstd::arithmetic::power::lemma_pow_strictly_increases(2, full, e as nat);
            } else {
                if e >= full {
                    vstd::arithmetic::power::lemma_pow_increases(2, full, e as nat);
                }
            }
        }
        assert(ceil <= full);
    }
    let b: u64 = 96 * factor as u64 - ceil;
    proof {
        let mm = pow(m as int, f);
        lemma_pow_adds(2, b as nat, ceil as nat);
        lemma_pow_positive(2, b as nat);
        assert(mm <= pow(2, ceil as nat) && pow(2, ceil as nat) < 2 * mm);
        let q = pow(2, b as nat);
        assert(q * mm <= q * pow(2, ceil as nat) && q * pow(2, ceil as nat) < 2 * q * mm) by (nonlinear_arith)
            requires
                mm <= pow(2, ceil as nat),
                pow(2, ceil as nat) < 2 * mm,
                q > 0,
        ;
    }
    b
}

} // verus!
