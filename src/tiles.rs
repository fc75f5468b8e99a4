use vstd::prelude::*;

verus! {

/// A rectangle of the canvas, in pixels.
#[derive(Clone, Copy, Debug, PartialEq, Eq, Default)]
pub struct RenderRect {
    pub left: u32,
    pub top: u32,
    pub width: u32,
    pub height: u32,
}

/// The height of each band but the last when `height` rows are shared by `count` bands.
pub open spec fn band(count: int, height: int) -> int {
    height / count
}

/// The first row of band `i`.
pub open spec fn band_top(i: int, count: int, height: int) -> int {
    i * band(count, height)
}

/// The rows of band `i`: the last band also takes the rows left over.
pub open spec fn band_height(i: int, count: int, height: int) -> int {
    if i == count - 1 {
        height - band(count, height) * (count - 1)
    } else {
        band(count, height)
    }
}

/// Row `y` lies in band `i`.
pub open spec fn in_band(y: int, i: int, count: int, height: int) -> bool {
    band_top(i, count, height) <= y < band_top(i, count, height) + band_height(i, count, height)
}

/// The band that holds row `y`.
pub open spec fn row_owner(y: int, count: int, height: int) -> int {
    let b = band(count, height);
    if b == 0 {
        count - 1
    } else if y / b >= count - 1 {
        count - 1
    } else {
        y / b
    }
}

/// The rectangle of band `i` of a `width` by `height` canvas shared by `count` bands.
pub open spec fn tile_spec(i: int, count: int, width: int, height: int) -> RenderRect {
    RenderRect {
        left: 0,
        top: band_top(i, count, height) as u32,
        width: width as u32,
        height: band_height(i, count, height) as u32,
    }
}

proof fn lemma_band_facts(i: int, count: int, height: int)
    requires
        0 <= i < count,
        0 <= height,
    ensures
        0 <= band(count, height),
        band(count, height) * count <= height,
        0 <= band_top(i, count, height),
        0 <= band_height(i, count, height),
        band_top(i, count, height) + band_height(i, count, height) <= height,
        i == count - 1 ==> band_top(i, count, height) + band_height(i, count, height) == height,
{
    let b = band(count, height);
    assert(0 <= b && b * count <= height) by (nonlinear_arith)
        requires
            b == height / count,
            0 < count,
            0 <= height,
    ;
    assert(0 <= i * b && i * b + b <= b * count) by (nonlinear_arith)
        requires
            0 <= i < count,
            0 <= b,
    ;
    if i == count - 1 {
        assert(i * b == b * (count - 1)) by (nonlinear_arith)
            requires
                i == count - 1,
        ;
    }
}

/// The rectangle of band `i` of `count` horizontal bands over a `width` by `height`
/// canvas: each band is `height / count` rows high, and the last also takes the rows
/// left over.
pub fn tile_rect(i: u32, count: u32, width: u32, height: u32) -> (r: RenderRect)
    requires
        i < count,
    ensures
        r == tile_spec(i as int, count as int, width as int, height as int),
        r.top as int == band_top(i as int, count as int, height as int),
        r.height as int == band_height(i as int, count as int, height as int),
        r.top + r.height <= height,
{
    proof {
        lemma_band_facts(i as int, count as int, height as int);
    }
    let b = height / count;
    let top = i * b;
    let h = if i == count - 1 {
        height - b * (count - 1)
    } else {
        b
    };
    RenderRect { left: 0, top, width, height: h }
}

/// The rectangles of the `count` bands, in order.
pub fn tile_rects(count: u32, width: u32, height: u32) -> (r: Vec<RenderRect>)
    requires
        count > 0,
    ensures
        r@.len() == count,
        forall|i: int| 0 <= i < count ==> r@[i] == tile_spec(i, count as int, width as int, height as int),
{
    let mut rects: Vec<RenderRect> = Vec::new();
    let mut i: u32 = 0;
    while i < count
        invariant
            i <= count,
            rects@.len() == i,
            forall|j: int| 0 <= j < i ==> rects@[j] == tile_spec(j, count as int, width as int, height as int),
        decreases count - i,
    {
        let rect = tile_rect(i, count, width, height);
        rects.push(rect);
        i = i + 1;
    }
    rects
}

/// The bands cover the canvas's rows without gap or overlap: each row `y` of
/// `[0, height)` lies in exactly one band. Where the rows left over number at most
/// one, any two bands differ in height by at most one row.
pub proof fn lemma_tiles_partition(count: int, height: int, y: int)
    requires
        count > 0,
        0 <= y < height,
    ensures
        0 <= row_owner(y, count, height) < count,
        in_band(y, row_owner(y, count, height), count, height),
        forall|i: int| 0 <= i < count && #[trigger] in_band(y, i, count, height) ==> i == row_owner(
            y,
            count,
            height,
        ),
        height % count <= 1 ==> forall|i: int, j: int|
            0 <= i < count && 0 <= j < count ==> band_height(i, count, height) <= band_height(
                j,
                count,
                height,
            ) + 1,
{
    let b = band(count, height);
    let o = row_owner(y, count, height);
    lemma_band_facts(o, count, height);
    assert(height == b * count + height % count) by (nonlinear_arith)
        requires
            b == height / count,
            count > 0,
    ;
    if b == 0 {
        assert(band_top(o, count, height) == 0);
    } else {
        assert(0 <= y / b);
        if y / b >= count - 1 {
            assert(band_top(o, count, height) <= y) by (nonlinear_arith)
                requires
                    o == count - 1,
                    o <= y / b,
                    b > 0,
                    band_top(o, count, height) == o * b,
                    y >= 0,
            ;
        } else {
            assert(o * b <= y < o * b + b) by (nonlinear_arith)
                requires
                    o == y / b,
                    b > 0,
                    y >= 0,
            ;
        }
    }
    assert forall|i: int| 0 <= i < count && #[trigger] in_band(y, i, count, height) implies i == o by {
        lemma_band_facts(i, count, height);
        if i != o {
            if b == 0 {
                assert(band_height(i, count, height) == 0);
            } else if i < o {
                assert(i * b + b <= o * b) by (nonlinear_arith)
                    requires
                        i < o,
                        b > 0,
                ;
                assert(band_height(i, count, height) == b);
            } else {
                assert(o * b + b <= i * b) by (nonlinear_arith)
                    requires
                        o < i,
                        b > 0,
                ;
                assert(o < count - 1);
                assert(y < o * b + b) by (nonlinear_arith)
                    requires
                        o == y / b,
                        b > 0,
                        y >= 0,
                ;
            }
        }
    }
    if height % count <= 1 {
        assert forall|i: int, j: int| 0 <= i < count && 0 <= j < count implies band_height(
            i,
            count,
            height,
        ) <= band_height(j, count, height) + 1 by {
            assert(height - b * (count - 1) == b + height % count) by (nonlinear_arith)
                requires
                    height == b * count + height % count,
            ;
        }
    }
}

} // verus!
