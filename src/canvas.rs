//! A packed RGB pixel buffer with single-pixel and vertical-line writes.
//!
//! Writes outside the canvas are clipped: they leave the buffer unchanged.
use vstd::arithmetic::div_mod::lemma_fundamental_div_mod_converse;
use vstd::prelude::*;

verus! {

/// The `k`-th channel (0 = red, 1 = green, 2 = blue) of a colour triple.
pub open spec fn channel(c: (u8, u8, u8), k: int) -> u8 {
    if k == 0 {
        c.0
    } else if k == 1 {
        c.1
    } else {
        c.2
    }
}

/// Column of the pixel that byte `i` of a row-major RGB buffer of width `w` belongs to.
pub open spec fn byte_column(w: int, i: int) -> int {
    (i / 3) % w
}

/// Row of the pixel that byte `i` of a row-major RGB buffer of width `w` belongs to.
pub open spec fn byte_row(w: int, i: int) -> int {
    (i / 3) / w
}

/// `after` is `before` with the pixels of column `x`, rows `lo .. hi`, set to `c`;
/// pixels of that span that lie outside the buffer are ignored.
pub open spec fn column_painted(
    before: Seq<u8>,
    after: Seq<u8>,
    w: int,
    x: int,
    lo: int,
    hi: int,
    c: (u8, u8, u8),
) -> bool {
    &&& after.len() == before.len()
    &&& forall|i: int|
        0 <= i < after.len() ==> #[trigger] after[i] == if 0 <= x < w && byte_column(w, i) == x
            && lo <= byte_row(w, i) < hi {
            channel(c, i % 3)
        } else {
            before[i]
        }
}

/// Byte `i` lies in the pixel at column `x`, row `y` exactly when it lies in the
/// three bytes that start at `(w * y + x) * 3`.
proof fn lemma_byte_position(w: int, x: int, y: int, i: int)
    requires
        0 <= x < w,
        0 <= y,
        0 <= i,
    ensures
        (byte_column(w, i) == x && byte_row(w, i) == y) <==> ((w * y + x) * 3 <= i < (w * y
            + x) * 3 + 3),
        (w * y + x) * 3 <= i < (w * y + x) * 3 + 3 ==> i % 3 == i - (w * y + x) * 3,
{
    let p = i / 3;
    lemma_fundamental_div_mod_converse(i, 3, p, i % 3);
    assert(i == p * 3 + i % 3) by {
        vstd::arithmetic::div_mod::lemma_fundamental_div_mod(i, 3);
    }
    if byte_column(w, i) == x && byte_row(w, i) == y {
        vstd::arithmetic::div_mod::lemma_fundamental_div_mod(p, w);
        assert(p == w * y + x);
    }
    if (w * y + x) * 3 <= i < (w * y + x) * 3 + 3 {
        assert(p == w * y + x);
        assert(y * w == w * y) by (nonlinear_arith);
        lemma_fundamental_div_mod_converse(p, w, y, x);
    }
}

/// Every byte of a `w` by `h` buffer lies in a row of the canvas.
proof fn lemma_byte_row_bounds(w: int, h: int, i: int)
    requires
        0 < w,
        0 <= h,
        0 <= i < w * h * 3,
    ensures
        0 <= byte_row(w, i) < h,
{
    let p = i / 3;
    vstd::arithmetic::div_mod::lemma_fundamental_div_mod(i, 3);
    assert(p < w * h) by (nonlinear_arith)
        requires
            i == 3 * p + i % 3,
            0 <= i % 3,
            i < w * h * 3,
    ;
    assert(0 <= p);
    vstd::arithmetic::div_mod::lemma_div_pos_is_pos(p, w);
    vstd::arithmetic::div_mod::lemma_fundamental_div_mod(p, w);
    assert(p / w < h) by (nonlinear_arith)
        requires
            p == w * (p / w) + p % w,
            0 <= p % w,
            p < w * h,
            0 < w,
    ;
}

/// `px` with the pixels of column `x`, rows `lo .. hi`, set to `c` (rows and
/// columns outside the canvas are ignored).
pub open spec fn paint(px: Seq<u8>, w: int, x: int, lo: int, hi: int, c: (u8, u8, u8)) -> Seq<u8> {
    Seq::new(
        px.len(),
        |i: int|
            if 0 <= x < w && byte_column(w, i) == x && lo <= byte_row(w, i) < hi {
                channel(c, i % 3)
            } else {
                px[i]
            },
    )
}

/// `px` after painting the spans `(lo, hi, colour)` of column `x`, in order.
pub open spec fn paint_spans(px: Seq<u8>, w: int, x: int, spans: Seq<(int, int, (u8, u8, u8))>) -> Seq<u8>
    decreases spans.len(),
{
    if spans.len() == 0 {
        px
    } else {
        let s = spans.last();
        paint(paint_spans(px, w, x, spans.drop_last()), w, x, s.0, s.1, s.2)
    }
}

/// A painted column is the column painted.
pub proof fn lemma_painted_is_paint(
    before: Seq<u8>,
    after: Seq<u8>,
    w: int,
    x: int,
    lo: int,
    hi: int,
    c: (u8, u8, u8),
)
    requires
        column_painted(before, after, w, x, lo, hi, c),
    ensures
        after == paint(before, w, x, lo, hi, c),
{
    assert(after =~= paint(before, w, x, lo, hi, c));
}

/// Painting a span of rows is the same as painting its part that lies within
/// rows `0 .. h` of a `w` by `h` buffer.
pub proof fn lemma_paint_clipped(px: Seq<u8>, w: int, h: int, x: int, lo: int, hi: int, lo2: int, hi2: int, c: (u8, u8, u8))
    requires
        px.len() == w * h * 3,
        0 <= h,
        lo2 == if lo < 0 { 0 } else if lo > h { h } else { lo },
        hi2 == if hi < 0 { 0 } else if hi > h { h } else { hi },
    ensures
        paint(px, w, x, lo, hi, c) == paint(px, w, x, lo2, hi2, c),
{
    assert forall|i: int| 0 <= i < px.len() implies #[trigger] paint(px, w, x, lo, hi, c)[i] == paint(px, w, x, lo2, hi2, c)[i] by {
        if 0 <= x < w {
            lemma_byte_row_bounds(w, h, i);
        }
    }
    assert(paint(px, w, x, lo, hi, c) =~= paint(px, w, x, lo2, hi2, c));
}

/// Painting one more span extends the painting of the earlier ones.
pub proof fn lemma_paint_spans_push(px: Seq<u8>, w: int, x: int, spans: Seq<(int, int, (u8, u8, u8))>, s: (int, int, (u8, u8, u8)))
    ensures
        paint_spans(px, w, x, spans.push(s)) == paint(paint_spans(px, w, x, spans), w, x, s.0, s.1, s.2),
{
    assert(spans.push(s).drop_last() =~= spans);
}

/// A vertical line paints only rows of the canvas that lie in `y1 .. y2`: none
/// when `y1 >= y2`, from row 0 when `y1 < 0`, and at most through row `h - 1`
/// when `y2 > h`; within those rows it paints column `x` fully.
pub proof fn lemma_vertical_line_rows(
    before: Seq<u8>,
    after: Seq<u8>,
    w: int,
    h: int,
    x: int,
    y1: int,
    y2: int,
    c: (u8, u8, u8),
)
    requires
        0 < w,
        0 <= h,
        before.len() == w * h * 3,
        column_painted(before, after, w, x, y1, y2, c),
    ensures
        y1 >= y2 ==> after == before,
        forall|i: int|
            0 <= i < after.len() && after[i] != before[i] ==> {
                let lo = if y1 < 0 { 0 } else { y1 };
                let hi = if y2 > h { h } else { y2 };
                lo <= #[trigger] byte_row(w, i) < hi && byte_column(w, i) == x
            },
        forall|i: int|
            0 <= i < after.len() && 0 <= x < w && byte_column(w, i) == x && 0 <= byte_row(w, i) && y1
                <= byte_row(w, i) < y2 ==> #[trigger] after[i] == channel(c, i % 3),
{
    assert forall|i: int| 0 <= i < after.len() && after[i] != before[i] implies {
        let lo = if y1 < 0 { 0 } else { y1 };
        let hi = if y2 > h { h } else { y2 };
        lo <= #[trigger] byte_row(w, i) < hi && byte_column(w, i) == x
    } by {
        lemma_byte_row_bounds(w, h, i);
    }
    if y1 >= y2 {
        assert(after =~= before);
    }
}

pub struct Canvas {
    pub width: u32,
    pub height: u32,
    pub pixels: Vec<u8>,
}

impl Canvas {
    /// The buffer holds exactly one RGB triple per pixel.
    pub open spec fn wf(&self) -> bool {
        self.pixels@.len() == self.width * self.height * 3
    }

    /// A black canvas of the given size.
    pub fn new(width: u32, height: u32) -> (r: Canvas)
        requires
            width * height * 3 <= usize::MAX,
        ensures
            r.wf(),
            r.width == width,
            r.height == height,
            forall|i: int| 0 <= i < r.pixels@.len() ==> r.pixels@[i] == 0,
    {
        let n: usize = (width as usize) * (height as usize) * 3;
        let pixels: Vec<u8> = vec![0u8; n];
        Canvas { width, height, pixels }
    }

    /// Sets the pixel at column `x`, row `y` to `(c1, c2, c3)`; a pixel outside the
    /// canvas is left alone.
    pub fn set_pixel(&mut self, x: i32, y: i32, c1: u8, c2: u8, c3: u8)
        requires
            old(self).wf(),
        ensures
            final(self).wf(),
            final(self).width == old(self).width,
            final(self).height == old(self).height,
            column_painted(
                old(self).pixels@,
                final(self).pixels@,
                old(self).width as int,
                x as int,
                y as int,
                y + 1,
                (c1, c2, c3),
            ),
    {
        let ghost before = self.pixels@;
        let ghost w = self.width as int;
        let len: usize = self.pixels.len();
        if 0 <= x && (x as u32) < self.width && 0 <= y && (y as u32) < self.height {
            proof {
                assert((w * y + x) * 3 + 3 <= w * self.height * 3) by (nonlinear_arith)
                    requires
                        0 <= x < w,
                        0 <= y < self.height,
                ;
                assert(w * y <= w * y + x);
                assert(0 <= w * y) by (nonlinear_arith)
                    requires
                        0 <= w,
                        0 <= y,
                ;
            }
            let base: usize = ((self.width as usize) * (y as usize) + (x as usize)) * 3;
            self.pixels.set(base, c1);
            self.pixels.set(base + 1, c2);
            self.pixels.set(base + 2, c3);
            proof {
                assert forall|i: int| 0 <= i < self.pixels@.len() implies #[trigger] self.pixels@[i]
                    == if 0 <= x < w && byte_column(w, i) == x && y <= byte_row(w, i) < y + 1 {
                    channel((c1, c2, c3), i % 3)
                } else {
                    before[i]
                } by {
                    lemma_byte_position(w, x as int, y as int, i);
                }
            }
        } else {
            proof {
                assert forall|i: int| 0 <= i < self.pixels@.len() implies #[trigger] self.pixels@[i]
                    == if 0 <= x < w && byte_column(w, i) == x && y <= byte_row(w, i) < y + 1 {
                    channel((c1, c2, c3), i % 3)
                } else {
                    before[i]
                } by {
                    if 0 <= x < w && byte_column(w, i) == x && y <= byte_row(w, i) < y + 1 {
                        lemma_byte_row_bounds(w, self.height as int, i);
                    }
                }
            }
        }
    }

    /// Sets column `x`, rows `y1 .. y2`, to `(c1, c2, c3)`. Rows are clipped to the
    /// canvas, and a column outside it is left alone.
    pub fn draw_vertical_line(&mut self, x: i32, y1: i32, y2: i32, c1: u8, c2: u8, c3: u8)
        requires
            old(self).wf(),
        ensures
            final(self).wf(),
            final(self).width == old(self).width,
            final(self).height == old(self).height,
            column_painted(
                old(self).pixels@,
                final(self).pixels@,
                old(self).width as int,
                x as int,
                y1 as int,
                y2 as int,
                (c1, c2, c3),
            ),
    {
        let ghost before = self.pixels@;
        let ghost w = self.width as int;
        let ghost h = self.height as int;
        let lo: i64 = if y1 < 0 { 0 } else { y1 as i64 };
        let hi: i64 = if (self.height as i64) < (y2 as i64) { self.height as i64 } else { y2 as i64 };
        let mut y: i64 = lo;
        while y < hi
            invariant
                self.wf(),
                self.width == w,
                self.height == h,
                h == old(self).height,
                before == old(self).pixels@,
                0 <= lo <= y,
                lo == if y1 < 0 { 0 } else { y1 as int },
                hi == if h < y2 { h } else { y2 as int },
                y == lo || y <= hi,
                column_painted(before, self.pixels@, w, x as int, lo as int, y as int, (c1, c2, c3)),
            decreases hi - y,
        {
            let ghost mid = self.pixels@;
            self.set_pixel(x, y as i32, c1, c2, c3);
            proof {
                assert forall|i: int| 0 <= i < self.pixels@.len() implies #[trigger] self.pixels@[i]
                    == if 0 <= x < w && byte_column(w, i) == x && lo <= byte_row(w, i) < y + 1 {
                    channel((c1, c2, c3), i % 3)
                } else {
                    before[i]
                } by {
                    assert(self.pixels@[i] == if 0 <= x < w && byte_column(w, i) == x && y <= byte_row(w, i) < y + 1 {
                        channel((c1, c2, c3), i % 3)
                    } else {
                        mid[i]
                    });
                    assert(mid[i] == if 0 <= x < w && byte_column(w, i) == x && lo <= byte_row(w, i) < y {
                        channel((c1, c2, c3), i % 3)
                    } else {
                        before[i]
                    });
                }
            }
            y = y + 1;
        }
        proof {
            assert forall|i: int| 0 <= i < self.pixels@.len() implies #[trigger] self.pixels@[i]
                == if 0 <= x < w && byte_column(w, i) == x && y1 <= byte_row(w, i) < y2 {
                channel((c1, c2, c3), i % 3)
            } else {
                before[i]
            } by {
                assert(self.pixels@[i] == if 0 <= x < w && byte_column(w, i) == x && lo <= byte_row(w, i) < y {
                    channel((c1, c2, c3), i % 3)
                } else {
                    before[i]
                });
                if 0 <= x < w {
                    lemma_byte_row_bounds(w, h, i);
                    assert(lo <= y);
                    assert((lo <= byte_row(w, i) < y) <==> (y1 <= byte_row(w, i) < y2));
                }
            }
        }
    }
}

} // verus!
