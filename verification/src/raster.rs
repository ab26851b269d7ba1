//! Small images drawn pixel by pixel: the tray icon and the test patterns
//! of simulated captures. An image is its bytes, row after row, each pixel
//! `channels` bytes wide.

use vstd::prelude::*;
use vstd::arithmetic::div_mod::{lemma_fundamental_div_mod, lemma_fundamental_div_mod_converse};

verus! {

/// An image held as bytes.
#[derive(Debug)]
pub struct Raster {
    pub width: u32,
    pub height: u32,
    pub channels: u32,
    pub data: Vec<u8>,
}

/// Whether the image's bytes are exactly its pixels.
pub open spec fn raster_wf(r: Raster) -> bool {
    &&& r.width > 0
    &&& r.height > 0
    &&& 1 <= r.channels <= 4
    &&& r.data@.len() == r.width * r.height * r.channels
}

/// The column of the pixel that byte `k` belongs to.
pub open spec fn col_of(k: int, width: int, channels: int) -> int {
    (k / channels) % width
}

/// The row of the pixel that byte `k` belongs to.
pub open spec fn row_of(k: int, width: int, channels: int) -> int {
    (k / channels) / width
}

/// Which pixel a byte belongs to, and which channel it is.
pub proof fn lemma_byte_pixel(k: int, w: int, h: int, c: int, x: int, y: int)
    requires
        w > 0,
        h > 0,
        c > 0,
        0 <= x < w,
        0 <= y,
        0 <= k < w * h * c,
    ensures
        0 <= col_of(k, w, c) < w,
        0 <= row_of(k, w, c) < h,
        (col_of(k, w, c) == x && row_of(k, w, c) == y) <==> ((y * w + x) * c <= k < (y * w + x) * c
            + c),
        ((y * w + x) * c <= k < (y * w + x) * c + c) ==> k % c == k - (y * w + x) * c,
{
    let p = k / c;
    let j = k % c;
    lemma_fundamental_div_mod(k, c);
    assert(0 <= j < c) by {
        lemma_fundamental_div_mod_converse(k, c, k / c, k % c);
    }
    assert(k == p * c + j) by (nonlinear_arith)
        requires
            k == c * (k / c) + (k % c),
            p == k / c,
            j == k % c,
    ;
    assert(0 <= p) by (nonlinear_arith)
        requires
            k == p * c + j,
            0 <= k,
            0 <= j < c,
            c > 0,
    ;
    assert(p < w * h) by (nonlinear_arith)
        requires
            k == p * c + j,
            k < w * h * c,
            0 <= j,
            c > 0,
    ;
    lemma_fundamental_div_mod(p, w);
    lemma_fundamental_div_mod_converse(p, w, p / w, p % w);
    assert(0 <= p % w < w) by {
        vstd::arithmetic::div_mod::lemma_mod_pos_bound(p, w);
    }
    assert(p == (p / w) * w + p % w) by (nonlinear_arith)
        requires
            p == w * (p / w) + (p % w),
    ;
    assert(0 <= p / w < h) by (nonlinear_arith)
        requires
            p == (p / w) * w + p % w,
            0 <= p % w < w,
            0 <= p < w * h,
            w > 0,
    ;
    let base = (y * w + x) * c;
    if col_of(k, w, c) == x && row_of(k, w, c) == y {
        assert(p == y * w + x);
        assert(base <= k < base + c) by (nonlinear_arith)
            requires
                k == p * c + j,
                p == y * w + x,
                base == (y * w + x) * c,
                0 <= j < c,
        ;
    }
    if base <= k < base + c {
        lemma_fundamental_div_mod_converse(k, c, y * w + x, k - base);
        lemma_fundamental_div_mod_converse(y * w + x, w, y, x);
    }
}

/// An image whose every pixel is `color`.
pub fn filled(width: u32, height: u32, channels: u32, color: &Vec<u8>) -> (r: Raster)
    requires
        width > 0,
        height > 0,
        1 <= channels <= 4,
        color@.len() == channels,
        width * height * channels <= usize::MAX,
    ensures
        raster_wf(r),
        r.width == width,
        r.height == height,
        r.channels == channels,
        forall|k: int| 0 <= k < r.data@.len() ==> #[trigger] r.data@[k] == color@[k % channels as int],
{
    assert(width * height <= width * height * channels) by (nonlinear_arith)
        requires
            channels >= 1,
    ;
    let total = (width as usize) * (height as usize) * (channels as usize);
    let mut data: Vec<u8> = Vec::new();
    let mut i: usize = 0;
    while i < total
        invariant
            i <= total,
            total == width * height * channels,
            1 <= channels <= 4,
            color@.len() == channels,
            data@.len() == i,
            forall|k: int| 0 <= k < i ==> #[trigger] data@[k] == color@[k % channels as int],
        decreases total - i,
    {
        data.push(color[i % (channels as usize)]);
        i = i + 1;
    }
    Raster { width, height, channels, data }
}

impl Raster {
    /// Sets pixel (`x`, `y`) to `color`.
    pub fn put_pixel(&mut self, x: u32, y: u32, color: &Vec<u8>)
        requires
            raster_wf(*old(self)),
            x < old(self).width,
            y < old(self).height,
            color@.len() == old(self).channels,
        ensures
            raster_wf(*final(self)),
            final(self).width == old(self).width,
            final(self).height == old(self).height,
            final(self).channels == old(self).channels,
            forall|k: int|
                0 <= k < final(self).data@.len() ==> #[trigger] final(self).data@[k] == if col_of(
                    k,
                    old(self).width as int,
                    old(self).channels as int,
                ) == x && row_of(k, old(self).width as int, old(self).channels as int) == y {
                    color@[k % old(self).channels as int]
                } else {
                    old(self).data@[k]
                },
    {
        let w = self.width as usize;
        let c = self.channels as usize;
        let n = self.data.len();
        let ghost h = self.height as int;
        assert((y * w + x) * c + c <= w * h * c) by (nonlinear_arith)
            requires
                x < w,
                y < h,
                c > 0,
        ;
        assert(y * w <= y * w + x <= (y * w + x) * c) by (nonlinear_arith)
            requires
                c >= 1,
                x >= 0,
                y >= 0,
                w >= 0,
        ;
        let base = ((y as usize) * w + (x as usize)) * c;
        let ghost start = self.data@;
        let mut j: usize = 0;
        while j < c
            invariant
                self.width == old(self).width,
                self.height == old(self).height,
                self.channels == old(self).channels,
                j <= c,
                c == self.channels,
                c <= 4,
                base + c <= self.data@.len(),
                self.data@.len() == n,
                self.data@.len() == start.len(),
                color@.len() == c,
                forall|k: int|
                    0 <= k < self.data@.len() ==> #[trigger] self.data@[k] == if base <= k < base
                        + j {
                        color@[k - base]
                    } else {
                        start[k]
                    },
            decreases c - j,
        {
            self.data.set(base + j, color[j]);
            j = j + 1;
        }
        proof {
            assert forall|k: int| 0 <= k < self.data@.len() implies #[trigger] self.data@[k] == if col_of(
                k,
                w as int,
                c as int,
            ) == x && row_of(k, w as int, c as int) == y {
                color@[k % c as int]
            } else {
                start[k]
            } by {
                lemma_byte_pixel(k, w as int, h, c as int, x as int, y as int);
            }
        }
    }
}

/// Whether pixel (`px`, `py`) lies in the rectangle from (`x0`, `y0`) up to
/// but not including (`x1`, `y1`).
pub open spec fn in_box(px: int, py: int, x0: int, x1: int, y0: int, y1: int) -> bool {
    x0 <= px < x1 && y0 <= py < y1
}

/// `a`, or `b` when smaller.
pub open spec fn min_u32(a: int, b: int) -> int {
    if a < b {
        a
    } else {
        b
    }
}

impl Raster {
    /// Paints the rectangle at (`x`, `y`) of `w` by `h` pixels, clipped to
    /// the image, in `color`.
    pub fn paint_rect(&mut self, x: u32, y: u32, w: u32, h: u32, color: &Vec<u8>)
        requires
            raster_wf(*old(self)),
            color@.len() == old(self).channels,
            x + w <= u32::MAX,
            y + h <= u32::MAX,
        ensures
            raster_wf(*final(self)),
            final(self).width == old(self).width,
            final(self).height == old(self).height,
            final(self).channels == old(self).channels,
            forall|k: int|
                0 <= k < final(self).data@.len() ==> #[trigger] final(self).data@[k] == if in_box(
                    col_of(k, old(self).width as int, old(self).channels as int),
                    row_of(k, old(self).width as int, old(self).channels as int),
                    x as int,
                    min_u32(x + w, old(self).width as int),
                    y as int,
                    min_u32(y + h, old(self).height as int),
                ) {
                    color@[k % old(self).channels as int]
                } else {
                    old(self).data@[k]
                },
    {
        let ghost start = self.data@;
        let ghost wd = self.width as int;
        let ghost c = self.channels as int;
        let x_end = if x + w < self.width {
            x + w
        } else {
            self.width
        };
        let y_end = if y + h < self.height {
            y + h
        } else {
            self.height
        };
        let mut ty = y;
        while ty < y_end
            invariant
                raster_wf(*self),
                self.width == old(self).width,
                self.height == old(self).height,
                self.channels == old(self).channels,
                wd == self.width,
                c == self.channels,
                color@.len() == c,
                start == old(self).data@,
                y <= ty,
                ty <= y_end || ty == y,
                y_end <= self.height,
                x_end <= self.width,
                x_end == min_u32(x + w, wd),
                y_end == min_u32(y + h, self.height as int),
                forall|k: int|
                    0 <= k < self.data@.len() ==> #[trigger] self.data@[k] == if in_box(
                        col_of(k, wd, c),
                        row_of(k, wd, c),
                        x as int,
                        x_end as int,
                        y as int,
                        ty as int,
                    ) {
                        color@[k % c]
                    } else {
                        start[k]
                    },
            decreases y_end - ty,
        {
            let mut tx = x;
            while tx < x_end
                invariant
                    raster_wf(*self),
                    self.width == old(self).width,
                    self.height == old(self).height,
                    self.channels == old(self).channels,
                    wd == self.width,
                    c == self.channels,
                    color@.len() == c,
                    start == old(self).data@,
                    y <= ty < y_end,
                    x <= tx,
                    tx <= x_end || tx == x,
                    y_end <= self.height,
                    x_end <= self.width,
                    forall|k: int|
                        0 <= k < self.data@.len() ==> #[trigger] self.data@[k] == if in_box(
                            col_of(k, wd, c),
                            row_of(k, wd, c),
                            x as int,
                            x_end as int,
                            y as int,
                            ty as int,
                        ) || (row_of(k, wd, c) == ty && x <= col_of(k, wd, c) < tx) {
                            color@[k % c]
                        } else {
                            start[k]
                        },
                decreases x_end - tx,
            {
                self.put_pixel(tx, ty, color);
                tx = tx + 1;
            }
            proof {
                assert forall|k: int| 0 <= k < self.data@.len() implies (in_box(
                    col_of(k, wd, c),
                    row_of(k, wd, c),
                    x as int,
                    x_end as int,
                    y as int,
                    ty as int,
                ) || (row_of(k, wd, c) == ty && x <= col_of(k, wd, c) < tx)) == in_box(
                    col_of(k, wd, c),
                    row_of(k, wd, c),
                    x as int,
                    x_end as int,
                    y as int,
                    ty + 1,
                ) by {}
            }
            ty = ty + 1;
        }
        proof {
            assert forall|k: int| 0 <= k < self.data@.len() implies in_box(
                col_of(k, wd, c),
                row_of(k, wd, c),
                x as int,
                x_end as int,
                y as int,
                ty as int,
            ) == in_box(
                col_of(k, wd, c),
                row_of(k, wd, c),
                x as int,
                x_end as int,
                y as int,
                y_end as int,
            ) by {}
        }
    }

    /// Paints every pixel whose column or row is a multiple of `step`.
    pub fn paint_grid(&mut self, step: u32, color: &Vec<u8>)
        requires
            raster_wf(*old(self)),
            color@.len() == old(self).channels,
            step > 0,
        ensures
            raster_wf(*final(self)),
            final(self).width == old(self).width,
            final(self).height == old(self).height,
            final(self).channels == old(self).channels,
            forall|k: int|
                0 <= k < final(self).data@.len() ==> #[trigger] final(self).data@[k] == if col_of(
                    k,
                    old(self).width as int,
                    old(self).channels as int,
                ) % step as int == 0 || row_of(k, old(self).width as int, old(self).channels as int)
                    % step as int == 0 {
                    color@[k % old(self).channels as int]
                } else {
                    old(self).data@[k]
                },
    {
        let ghost start = self.data@;
        let ghost wd = self.width as int;
        let ghost hd = self.height as int;
        let ghost c = self.channels as int;
        let mut gx: u32 = 0;
        while gx < self.width
            invariant
                raster_wf(*self),
                self.width == old(self).width,
                self.height == old(self).height,
                self.channels == old(self).channels,
                wd == self.width,
                hd == self.height,
                c == self.channels,
                color@.len() == c,
                start == old(self).data@,
                step > 0,
                gx <= self.width,
                forall|k: int|
                    0 <= k < self.data@.len() ==> #[trigger] self.data@[k] == if col_of(k, wd, c)
                        < gx && col_of(k, wd, c) % step as int == 0 {
                        color@[k % c]
                    } else {
                        start[k]
                    },
            decreases self.width - gx,
        {
            if gx % step == 0 {
                let mut gy: u32 = 0;
                while gy < self.height
                    invariant
                        raster_wf(*self),
                        self.width == old(self).width,
                        self.height == old(self).height,
                        self.channels == old(self).channels,
                        wd == self.width,
                        hd == self.height,
                        c == self.channels,
                        color@.len() == c,
                        start == old(self).data@,
                        step > 0,
                        gx < self.width,
                        gx % step == 0,
                        gy <= self.height,
                        forall|k: int|
                            0 <= k < self.data@.len() ==> #[trigger] self.data@[k] == if (col_of(
                                k,
                                wd,
                                c,
                            ) < gx && col_of(k, wd, c) % step as int == 0) || (col_of(k, wd, c)
                                == gx && row_of(k, wd, c) < gy) {
                                color@[k % c]
                            } else {
                                start[k]
                            },
                    decreases self.height - gy,
                {
                    self.put_pixel(gx, gy, color);
                    gy = gy + 1;
                }
                proof {
                    assert forall|k: int| 0 <= k < self.data@.len() implies row_of(k, wd, c) < gy by {
                        lemma_byte_pixel(k, wd, hd, c, 0, 0);
                    }
                }
            }
            gx = gx + 1;
        }
        let ghost mid = self.data@;
        let mut ry: u32 = 0;
        while ry < self.height
            invariant
                raster_wf(*self),
                self.width == old(self).width,
                self.height == old(self).height,
                self.channels == old(self).channels,
                wd == self.width,
                hd == self.height,
                c == self.channels,
                color@.len() == c,
                start == old(self).data@,
                step > 0,
                ry <= self.height,
                forall|k: int|
                    0 <= k < self.data@.len() ==> #[trigger] self.data@[k] == if col_of(k, wd, c)
                        % step as int == 0 || (row_of(k, wd, c) < ry && row_of(k, wd, c)
                        % step as int == 0) {
                        color@[k % c]
                    } else {
                        start[k]
                    },
            decreases self.height - ry,
        {
            if ry % step == 0 {
                let mut rx: u32 = 0;
                while rx < self.width
                    invariant
                        raster_wf(*self),
                        self.width == old(self).width,
                        self.height == old(self).height,
                        self.channels == old(self).channels,
                        wd == self.width,
                        hd == self.height,
                        c == self.channels,
                        color@.len() == c,
                        start == old(self).data@,
                        step > 0,
                        ry < self.height,
                        ry % step == 0,
                        rx <= self.width,
                        forall|k: int|
                            0 <= k < self.data@.len() ==> #[trigger] self.data@[k] == if col_of(
                                k,
                                wd,
                                c,
                            ) % step as int == 0 || (row_of(k, wd, c) < ry && row_of(k, wd, c)
                                % step as int == 0) || (row_of(k, wd, c) == ry && col_of(k, wd, c)
                                < rx) {
                                color@[k % c]
                            } else {
                                start[k]
                            },
                    decreases self.width - rx,
                {
                    self.put_pixel(rx, ry, color);
                    rx = rx + 1;
                }
                proof {
                    assert forall|k: int| 0 <= k < self.data@.len() implies col_of(k, wd, c) < rx by {
                        lemma_byte_pixel(k, wd, hd, c, 0, 0);
                    }
                }
            }
            ry = ry + 1;
        }
        proof {
            assert forall|k: int| 0 <= k < self.data@.len() implies row_of(k, wd, c) < ry by {
                lemma_byte_pixel(k, wd, hd, c, 0, 0);
            }
        }
    }
}


/// Whether pixel (`px`, `py`) lies within the disc of squared radius `r2`
/// around (`cx`, `cy`).
pub open spec fn in_disc(px: int, py: int, cx: int, cy: int, r2: int) -> bool {
    (px - cx) * (px - cx) + (py - cy) * (py - cy) <= r2
}

impl Raster {
    /// Paints the pixels of the box from (`x0`, `y0`) up to (`x1`, `y1`)
    /// that lie within the disc of squared radius `r2` around (`cx`, `cy`).
    pub fn paint_disc(
        &mut self,
        cx: u32,
        cy: u32,
        r2: u32,
        x0: u32,
        x1: u32,
        y0: u32,
        y1: u32,
        color: &Vec<u8>,
    )
        requires
            raster_wf(*old(self)),
            color@.len() == old(self).channels,
            x1 <= old(self).width,
            y1 <= old(self).height,
        ensures
            raster_wf(*final(self)),
            final(self).width == old(self).width,
            final(self).height == old(self).height,
            final(self).channels == old(self).channels,
            forall|k: int|
                0 <= k < final(self).data@.len() ==> #[trigger] final(self).data@[k] == if in_box(
                    col_of(k, old(self).width as int, old(self).channels as int),
                    row_of(k, old(self).width as int, old(self).channels as int),
                    x0 as int,
                    x1 as int,
                    y0 as int,
                    y1 as int,
                ) && in_disc(
                    col_of(k, old(self).width as int, old(self).channels as int),
                    row_of(k, old(self).width as int, old(self).channels as int),
                    cx as int,
                    cy as int,
                    r2 as int,
                ) {
                    color@[k % old(self).channels as int]
                } else {
                    old(self).data@[k]
                },
    {
        let ghost start = self.data@;
        let ghost wd = self.width as int;
        let ghost c = self.channels as int;
        let mut ty = y0;
        while ty < y1
            invariant
                raster_wf(*self),
                self.width == old(self).width,
                self.height == old(self).height,
                self.channels == old(self).channels,
                wd == self.width,
                c == self.channels,
                color@.len() == c,
                start == old(self).data@,
                y0 <= ty,
                ty <= y1 || ty == y0,
                x1 <= self.width,
                y1 <= self.height,
                forall|k: int|
                    0 <= k < self.data@.len() ==> #[trigger] self.data@[k] == if in_box(
                        col_of(k, wd, c),
                        row_of(k, wd, c),
                        x0 as int,
                        x1 as int,
                        y0 as int,
                        ty as int,
                    ) && in_disc(col_of(k, wd, c), row_of(k, wd, c), cx as int, cy as int, r2 as int) {
                        color@[k % c]
                    } else {
                        start[k]
                    },
            decreases y1 - ty,
        {
            let mut tx = x0;
            while tx < x1
                invariant
                    raster_wf(*self),
                    self.width == old(self).width,
                    self.height == old(self).height,
                    self.channels == old(self).channels,
                    wd == self.width,
                    c == self.channels,
                    color@.len() == c,
                    start == old(self).data@,
                    y0 <= ty < y1,
                    x0 <= tx,
                    tx <= x1 || tx == x0,
                    x1 <= self.width,
                    y1 <= self.height,
                    forall|k: int|
                        0 <= k < self.data@.len() ==> #[trigger] self.data@[k] == if (in_box(
                            col_of(k, wd, c),
                            row_of(k, wd, c),
                            x0 as int,
                            x1 as int,
                            y0 as int,
                            ty as int,
                        ) || (row_of(k, wd, c) == ty && x0 <= col_of(k, wd, c) < tx)) && in_disc(
                            col_of(k, wd, c),
                            row_of(k, wd, c),
                            cx as int,
                            cy as int,
                            r2 as int,
                        ) {
                            color@[k % c]
                        } else {
                            start[k]
                        },
                decreases x1 - tx,
            {
                let dx = tx as i64 - cx as i64;
                let dy = ty as i64 - cy as i64;
                assert(dx * dx <= 0x1_0000_0000 * 0x1_0000_0000) by (nonlinear_arith)
                    requires
                        -0x1_0000_0000 <= dx <= 0x1_0000_0000,
                ;
                assert(dy * dy <= 0x1_0000_0000 * 0x1_0000_0000) by (nonlinear_arith)
                    requires
                        -0x1_0000_0000 <= dy <= 0x1_0000_0000,
                ;
                assert(dx * dx >= 0 && dy * dy >= 0) by (nonlinear_arith);
                let d2: i128 = (dx as i128) * (dx as i128) + (dy as i128) * (dy as i128);
                if d2 <= r2 as i128 {
                    self.put_pixel(tx, ty, color);
                }
                tx = tx + 1;
            }
            proof {
                assert forall|k: int| 0 <= k < self.data@.len() implies (in_box(
                    col_of(k, wd, c),
                    row_of(k, wd, c),
                    x0 as int,
                    x1 as int,
                    y0 as int,
                    ty as int,
                ) || (row_of(k, wd, c) == ty && x0 <= col_of(k, wd, c) < tx)) == in_box(
                    col_of(k, wd, c),
                    row_of(k, wd, c),
                    x0 as int,
                    x1 as int,
                    y0 as int,
                    ty + 1,
                ) by {}
            }
            ty = ty + 1;
        }
        proof {
            assert forall|k: int| 0 <= k < self.data@.len() implies in_box(
                col_of(k, wd, c),
                row_of(k, wd, c),
                x0 as int,
                x1 as int,
                y0 as int,
                ty as int,
            ) == in_box(
                col_of(k, wd, c),
                row_of(k, wd, c),
                x0 as int,
                x1 as int,
                y0 as int,
                y1 as int,
            ) by {}
        }
    }
}

} // verus!
