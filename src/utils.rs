use vstd::prelude::*;

verus! {

/// An RGB color, one byte per channel.
#[derive(PartialEq, Eq, PartialOrd, Ord, Debug, Clone, Copy)]
pub struct ConversionColor(pub u8, pub u8, pub u8);

/// An exact rational number `num / den`; `den` is positive in a well-formed value.
#[derive(PartialEq, Eq, Debug, Clone, Copy)]
pub struct Fraction {
    pub num: i64,
    pub den: u64,
}

impl Fraction {
    pub open spec fn wf(self) -> bool {
        self.den > 0
    }

    pub fn new(num: i64, den: u64) -> (r: Fraction)
        requires
            den > 0,
        ensures
            r.num == num,
            r.den == den,
            r.wf(),
    {
        Fraction { num, den }
    }

    /// The integer `n` as a fraction.
    pub fn from_int(n: i64) -> (r: Fraction)
        ensures
            r.num == n,
            r.den == 1,
            r.wf(),
    {
        Fraction { num: n, den: 1 }
    }
}

/// `n / d` rounded to the nearest integer, halves rounded up (for `n >= 0`, `d > 0`).
pub open spec fn round_div(n: int, d: int) -> int {
    (2 * n + d) / (2 * d)
}

/// `x` held within `[lo, hi]`.
pub open spec fn clamp_int(x: int, lo: int, hi: int) -> int {
    if x < lo {
        lo
    } else if x > hi {
        hi
    } else {
        x
    }
}

/// The color of the red-green-blue gradient at `off / w` of the way along it:
/// red at 0, green at one half, blue at 1, linear in between.
pub open spec fn half_gradient(off: int, w: int) -> (int, int, int) {
    if 2 * off <= w {
        (round_div(255 * (w - 2 * off), w), round_div(255 * 2 * off, w), 0)
    } else {
        (0, round_div(255 * (2 * w - 2 * off), w), round_div(255 * (2 * off - w), w))
    }
}

/// The color that `distance_gradient` gives to `num / den` on the range `[start, end]`:
/// the value is clamped to the range, and the gradient runs across it.
pub open spec fn distance_gradient_spec(start: int, end: int, num: int, den: int) -> (int, int, int) {
    let w = (end - start) * den;
    half_gradient(clamp_int(num - start * den, 0, w), w)
}

pub open spec fn color_is(c: ConversionColor, rgb: (int, int, int)) -> bool {
    c.0 as int == rgb.0 && c.1 as int == rgb.1 && c.2 as int == rgb.2
}

proof fn lemma_round_div_bounds(n: int, d: int)
    requires
        0 <= n <= 255 * d,
        d > 0,
    ensures
        0 <= round_div(n, d) <= 255,
{
    assert(0 <= (2 * n + d) / (2 * d)) by (nonlinear_arith)
        requires
            0 <= n,
            d > 0,
    ;
    assert((2 * n + d) / (2 * d) <= 255) by (nonlinear_arith)
        requires
            n <= 255 * d,
            d > 0,
    ;
}

pub proof fn lemma_mul_bounded(a: int, b: int, ma: int, mb: int)
    requires
        0 <= a <= ma,
        0 <= b <= mb,
    ensures
        0 <= a * b <= ma * mb,
{
    assert(0 <= a * b <= ma * mb) by (nonlinear_arith)
        requires
            0 <= a <= ma,
            0 <= b <= mb,
    ;
}

/// `n / d` rounded to the nearest integer, for a result that fits in a byte.
pub(crate) fn round_div_u8(n: u128, d: u128) -> (r: u8)
    requires
        d > 0,
        n <= 255 * d,
        d <= 0x1_0000_0000_0000_0000_0000_0000_0000,
    ensures
        r as int == round_div(n as int, d as int),
{
    proof {
        lemma_round_div_bounds(n as int, d as int);
    }
    ((2 * n + d) / (2 * d)) as u8
}

/// Colors `value` by its place in `[START, END]`: red at `START`, green at the middle,
/// blue at `END`, each channel linear in between and rounded; values outside the range
/// are clamped to it first.
pub fn distance_gradient<const START: u32, const END: u32>(value: Fraction) -> (r: ConversionColor)
    requires
        START < END,
        value.wf(),
    ensures
        color_is(r, distance_gradient_spec(START as int, END as int, value.num as int, value.den as int)),
{
    let den = value.den as i128;
    proof {
        lemma_mul_bounded((END - START) as int, den as int, 0xFFFF_FFFF, 0xFFFF_FFFF_FFFF_FFFF);
        lemma_mul_bounded(START as int, den as int, 0xFFFF_FFFF, 0xFFFF_FFFF_FFFF_FFFF);
    }
    let w: i128 = (END - START) as i128 * den;
    let raw: i128 = value.num as i128 - START as i128 * den;
    let off: i128 = if raw < 0 {
        0
    } else if raw > w {
        w
    } else {
        raw
    };
    assert(w > 0) by (nonlinear_arith)
        requires
            w == (END - START) as int * den,
            START < END,
            den > 0,
    ;
    let wu = w as u128;
    let ou = off as u128;
    if 2 * off <= w {
        let red = round_div_u8(255 * (wu - 2 * ou), wu);
        let green = round_div_u8(255 * 2 * ou, wu);
        ConversionColor(red, green, 0)
    } else {
        let green = round_div_u8(255 * (2 * wu - 2 * ou), wu);
        let blue = round_div_u8(255 * (2 * ou - wu), wu);
        ConversionColor(0, green, blue)
    }
}

pub(crate) proof fn lemma_round_div_facts(n1: int, n2: int, d: int)
    requires
        0 <= n1 <= n2,
        d > 0,
    ensures
        round_div(n1, d) <= round_div(n2, d),
        round_div(0, d) == 0,
        round_div(255 * d, d) == 255,
        n2 <= 255 * d ==> round_div(n2, d) <= 255,
{
    assert((2 * n1 + d) / (2 * d) <= (2 * n2 + d) / (2 * d)) by (nonlinear_arith)
        requires
            0 <= n1 <= n2,
            d > 0,
    ;
    assert((2 * (255 * d) + d) / (2 * d) == 255) by (nonlinear_arith)
        requires
            d > 0,
    ;
    assert(d / (2 * d) == 0) by (nonlinear_arith)
        requires
            d > 0,
    ;
    if n2 <= 255 * d {
        assert((2 * n2 + d) / (2 * d) <= 255) by (nonlinear_arith)
            requires
                n2 <= 255 * d,
                d > 0,
        ;
    }
}

/// The range's gradient is red at `start`, green at the middle and blue at `end`; a
/// value below the range takes the color of `start` and one above it that of `end`.
/// For two values `n1 / den <= n2 / den`, red falls and green rises while both lie in
/// the first half, and green falls and blue rises while both lie in the second.
pub proof fn lemma_distance_gradient_shape(start: int, end: int, n1: int, n2: int, den: int)
    requires
        0 <= start < end,
        den > 0,
        n1 <= n2,
    ensures
        distance_gradient_spec(start, end, start * den, den) == (255int, 0int, 0int),
        distance_gradient_spec(start, end, start + end, 2) == (0int, 255int, 0int),
        distance_gradient_spec(start, end, end * den, den) == (0int, 0int, 255int),
        n1 <= start * den ==> distance_gradient_spec(start, end, n1, den) == distance_gradient_spec(
            start,
            end,
            start * den,
            den,
        ),
        n2 >= end * den ==> distance_gradient_spec(start, end, n2, den) == distance_gradient_spec(
            start,
            end,
            end * den,
            den,
        ),
        2 * n2 <= (start + end) * den ==> ({
            let a = distance_gradient_spec(start, end, n1, den);
            let b = distance_gradient_spec(start, end, n2, den);
            a.0 >= b.0 && a.1 <= b.1 && a.2 == 0 && b.2 == 0
        }),
        2 * n1 > (start + end) * den ==> ({
            let a = distance_gradient_spec(start, end, n1, den);
            let b = distance_gradient_spec(start, end, n2, den);
            a.0 == 0 && b.0 == 0 && a.1 >= b.1 && a.2 <= b.2
        }),
{
    let w = (end - start) * den;
    assert(w > 0) by (nonlinear_arith)
        requires
            w == (end - start) * den,
            start < end,
            den > 0,
    ;
    lemma_round_div_facts(0, 0, w);
    assert(255 * (w - 2 * 0) == 255 * w);
    assert(255 * (2 * w - 2 * w) == 0);
    assert(255 * (2 * w - w) == 255 * w);
    assert(end * den - start * den == w) by (nonlinear_arith)
        requires
            w == (end - start) * den,
    ;
    let w2 = (end - start) * 2;
    lemma_round_div_facts(0, 0, w2);
    assert(start + end - start * 2 == end - start);
    assert(2 * (end - start) == w2);
    assert(255 * (w2 - 2 * (end - start)) == 0);
    assert(255 * 2 * (end - start) == 255 * w2) by (nonlinear_arith)
        requires
            w2 == (end - start) * 2,
    ;
    let o1 = clamp_int(n1 - start * den, 0, w);
    let o2 = clamp_int(n2 - start * den, 0, w);
    assert(2 * n2 <= (start + end) * den ==> 2 * (n2 - start * den) <= w) by (nonlinear_arith)
        requires
            w == (end - start) * den,
    ;
    assert(2 * n1 > (start + end) * den ==> 2 * (n1 - start * den) > w) by (nonlinear_arith)
        requires
            w == (end - start) * den,
    ;
    assert(o1 <= o2);
    if 2 * o2 <= w {
        lemma_round_div_facts(255 * (w - 2 * o2), 255 * (w - 2 * o1), w);
        lemma_round_div_facts(255 * 2 * o1, 255 * 2 * o2, w);
    }
    if 2 * o1 > w {
        lemma_round_div_facts(255 * (2 * w - 2 * o2), 255 * (2 * w - 2 * o1), w);
        lemma_round_div_facts(255 * (2 * o1 - w), 255 * (2 * o2 - w), w);
    }
}

} // verus!
