//! Braille dot-grid canvas and waveform rasterization.
//!
//! Each terminal cell is treated as a 2-wide, 4-tall grid of pseudo-pixel
//! dots; a filled pattern is packed into an 8-bit offset from the braille
//! base codepoint.

use vstd::prelude::*;

verus! {

/// The 8-bit braille offset a 4-row x 2-column dot pattern packs to.
///
/// Dot positions map to bits as:
///
/// ```text
/// | b0 | b3 |
/// | b1 | b4 |
/// | b2 | b5 |
/// | b6 | b7 |
/// ```
pub open spec fn braille_offset(
    d00: bool,
    d01: bool,
    d10: bool,
    d11: bool,
    d20: bool,
    d21: bool,
    d30: bool,
    d31: bool,
) -> int {
    (if d00 {
        1int
    } else {
        0int
    }) + (if d10 {
        2int
    } else {
        0int
    }) + (if d20 {
        4int
    } else {
        0int
    }) + (if d30 {
        64int
    } else {
        0int
    }) + (if d01 {
        8int
    } else {
        0int
    }) + (if d11 {
        16int
    } else {
        0int
    }) + (if d21 {
        32int
    } else {
        0int
    }) + (if d31 {
        128int
    } else {
        0int
    })
}

/// The braille offset of a whole 4x2 dot block, rows top to bottom.
pub open spec fn braille_offset_of(dots: [[bool; 2]; 4]) -> int {
    braille_offset(
        dots[0][0],
        dots[0][1],
        dots[1][0],
        dots[1][1],
        dots[2][0],
        dots[2][1],
        dots[3][0],
        dots[3][1],
    )
}

/// Relies on char::from_u32: it returns Some exactly for Unicode scalar
/// values (below the surrogate range, or between it and 0x10FFFF), and
/// the returned char has the given value.
#[verifier::external_body]
fn char_from_u32(v: u32) -> (r: Option<char>)
    ensures
        r is Some <==> (v < 0xD800 || (0xE000 <= v && v <= 0x10FFFF)),
        r is Some ==> r->Some_0 as u32 == v,
{
    char::from_u32(v)
}

/// Convert a 4-row x 2-column dot grid to a braille character: the
/// codepoint is the braille base plus the packed 8-bit dot pattern, so an
/// empty cell maps to the base and a full cell to base + 255.
pub fn dots_to_braille(dots: [[bool; 2]; 4]) -> (c: char)
    ensures
        c as u32 == 0x2800 + braille_offset_of(dots),
{
    let mut bits: u32 = 0;
    // Left column: bits 0, 1, 2, 6
    if dots[0][0] {
        bits = bits + 1;
    }
    if dots[1][0] {
        bits = bits + 2;
    }
    if dots[2][0] {
        bits = bits + 4;
    }
    if dots[3][0] {
        bits = bits + 64;
    }
    // Right column: bits 3, 4, 5, 7
    if dots[0][1] {
        bits = bits + 8;
    }
    if dots[1][1] {
        bits = bits + 16;
    }
    if dots[2][1] {
        bits = bits + 32;
    }
    if dots[3][1] {
        bits = bits + 128;
    }
    match char_from_u32(0x2800 + bits) {
        Some(c) => c,
        None => {
            proof {
                assert(false);
            }
            ' '
        },
    }
}

/// A canvas of dot-pixels that maps to braille characters.
///
/// Each terminal cell is 2 dots wide and 4 dots tall.
pub struct BrailleCanvas {
    width: usize,  // in dot pixels (terminal_cols * 2)
    height: usize,  // in dot pixels (terminal_rows * 4)
    dots: Vec<bool>,
}

impl BrailleCanvas {
    /// The backing store holds one flag per dot, rows concatenated.
    pub closed spec fn wf(&self) -> bool {
        self.dots@.len() == self.width * self.height
    }

    /// Width of the canvas in dot pixels.
    pub closed spec fn spec_width(&self) -> usize {
        self.width
    }

    /// Height of the canvas in dot pixels.
    pub closed spec fn spec_height(&self) -> usize {
        self.height
    }

    /// Whether the dot at `(x, y)` is set; false outside the canvas.
    pub closed spec fn dot(&self, x: int, y: int) -> bool {
        &&& 0 <= x < self.width
        &&& 0 <= y < self.height
        &&& self.dots@[y * self.width + x]
    }

    /// A blank canvas for the given terminal area.
    pub fn new(terminal_cols: usize, terminal_rows: usize) -> (r: Self)
        requires
            terminal_cols * 2 <= usize::MAX,
            terminal_rows * 4 <= usize::MAX,
            terminal_cols * 2 * (terminal_rows * 4) <= usize::MAX,
        ensures
            r.wf(),
            r.spec_width() == terminal_cols * 2,
            r.spec_height() == terminal_rows * 4,
            forall|x: int, y: int| !r.dot(x, y),
    {
        let width = terminal_cols * 2;
        let height = terminal_rows * 4;
        let mut dots: Vec<bool> = Vec::new();
        let n = width * height;
        let mut i: usize = 0;
        while i < n
            invariant
                i <= n,
                dots@.len() == i,
                forall|k: int| 0 <= k < i ==> !dots@[k],
            decreases n - i,
        {
            dots.push(false);
            i = i + 1;
        }
        let r = Self { width, height, dots };
        proof {
            assert forall|x: int, y: int| !r.dot(x, y) by {
                if 0 <= x < width && 0 <= y < height {
                    assert(y * width + x < width * height) by (nonlinear_arith)
                        requires
                            0 <= x < width,
                            0 <= y < height,
                    ;
                }
            }
        }
        r
    }

    /// Width of the canvas in dot pixels.
    pub fn width(&self) -> (r: usize)
        ensures
            r == self.spec_width(),
    {
        self.width
    }

    /// Height of the canvas in dot pixels.
    pub fn height(&self) -> (r: usize)
        ensures
            r == self.spec_height(),
    {
        self.height
    }

    /// Set the dot at `(x, y)`; out-of-range coordinates are ignored.
    pub fn set_dot(&mut self, x: usize, y: usize)
        requires
            old(self).wf(),
        ensures
            final(self).wf(),
            final(self).spec_width() == old(self).spec_width(),
            final(self).spec_height() == old(self).spec_height(),
            forall|i: int, j: int|
                (#[trigger] final(self).dot(i, j)) == ((i == x && j == y && x < old(
                    self,
                ).spec_width() && y < old(self).spec_height()) || old(self).dot(i, j)),
    {
        if x < self.width && y < self.height {
            // Materialize the store's length so the index fits a usize.
            let _n = self.dots.len();
            proof {
                assert(y * self.width + x < self.width * self.height) by (nonlinear_arith)
                    requires
                        0 <= x < self.width,
                        0 <= y < self.height,
                ;
            }
            let idx = y * self.width + x;
            self.dots[idx] = true;
            proof {
                assert forall|i: int, j: int|
                    (#[trigger] self.dot(i, j)) == ((i == x && j == y) || old(self).dot(i, j)) by {
                    if 0 <= i < self.width && 0 <= j < self.height {
                        assert(j * self.width + i < self.width * self.height) by (nonlinear_arith)
                            requires
                                0 <= i < self.width,
                                0 <= j < self.height,
                        ;
                        if i == x && j == y {
                        } else {
                            assert(j * self.width + i != y * self.width + x) by (nonlinear_arith)
                                requires
                                    0 <= i < self.width,
                                    0 <= j < self.height,
                                    0 <= x < self.width,
                                    0 <= y < self.height,
                                    i != x || j != y,
                            ;
                        }
                    }
                }
            }
        }
    }

    /// Whether the dot at `(x, y)` is set; out-of-range reads are false,
    /// never a panic.
    pub fn get_dot(&self, x: usize, y: usize) -> (r: bool)
        requires
            self.wf(),
        ensures
            r == self.dot(x as int, y as int),
    {
        if x < self.width && y < self.height {
            // Materialize the store's length so the index fits a usize.
            let _n = self.dots.len();
            proof {
                assert(y * self.width + x < self.width * self.height) by (nonlinear_arith)
                    requires
                        0 <= x < self.width,
                        0 <= y < self.height,
                ;
            }
            let idx = y * self.width + x;
            self.dots[idx]
        } else {
            false
        }
    }

    /// Fill a vertical line of dots from `y_start` to `y_end` (inclusive,
    /// in either order), clipped to the canvas; nothing else changes.
    pub fn fill_vertical_line(&mut self, x: usize, y_start: usize, y_end: usize)
        requires
            old(self).wf(),
        ensures
            final(self).wf(),
            final(self).spec_width() == old(self).spec_width(),
            final(self).spec_height() == old(self).spec_height(),
            forall|i: int, j: int|
                (#[trigger] final(self).dot(i, j)) == (old(self).dot(i, j) || (i == x && vstd::math::min(
                    y_start as int,
                    y_end as int,
                ) <= j <= vstd::math::max(y_start as int, y_end as int) && 0 <= i
                    < old(self).spec_width() && 0 <= j < old(self).spec_height())),
    {
        if x >= self.width || self.height == 0 {
            return ;
        }
        let start = if y_start < y_end {
            y_start
        } else {
            y_end
        };
        let top = if y_start < y_end {
            y_end
        } else {
            y_start
        };
        let end = if top < self.height - 1 {
            top
        } else {
            self.height - 1
        };
        let ghost pre = *self;
        let mut y = start;
        while y <= end
            invariant
                self.wf(),
                pre.wf(),
                self.spec_width() == pre.spec_width(),
                self.spec_height() == pre.spec_height(),
                x < pre.spec_width(),
                start <= y,
                end < pre.spec_height(),
                forall|i: int, j: int|
                    (#[trigger] self.dot(i, j)) == (pre.dot(i, j) || (i == x && start <= j < y
                        && j <= end)),
            decreases end + 1 - y,
        {
            self.set_dot(x, y);
            y = y + 1;
        }
        proof {
            assert forall|i: int, j: int|
                (#[trigger] self.dot(i, j)) == (pre.dot(i, j) || (i == x && vstd::math::min(
                    y_start as int,
                    y_end as int,
                ) <= j <= vstd::math::max(y_start as int, y_end as int) && 0 <= i
                    < pre.spec_width() && 0 <= j < pre.spec_height())) by {
                assert(start == vstd::math::min(y_start as int, y_end as int));
                assert(top == vstd::math::max(y_start as int, y_end as int));
                if i == x && start <= j <= end {
                    assert(self.dot(i, j));
                }
            }
        }
    }

    /// The braille offset packed from the 4x2 dot block of cell
    /// `(row, col)`.
    pub open spec fn cell_offset(&self, row: int, col: int) -> int {
        braille_offset(
            self.dot(2 * col, 4 * row),
            self.dot(2 * col + 1, 4 * row),
            self.dot(2 * col, 4 * row + 1),
            self.dot(2 * col + 1, 4 * row + 1),
            self.dot(2 * col, 4 * row + 2),
            self.dot(2 * col + 1, 4 * row + 2),
            self.dot(2 * col, 4 * row + 3),
            self.dot(2 * col + 1, 4 * row + 3),
        )
    }

    /// Convert the dot canvas to a grid of braille characters, one per
    /// terminal cell.
    pub fn to_braille_grid(&self) -> (grid: Vec<Vec<char>>)
        requires
            self.wf(),
        ensures
            grid@.len() == self.spec_height() / 4,
            forall|row: int|
                0 <= row < grid@.len() ==> (#[trigger] grid@[row])@.len() == self.spec_width() / 2,
            forall|row: int, col: int|
                0 <= row < grid@.len() && 0 <= col < self.spec_width() / 2 ==> (#[trigger] grid@[row]@[col])
                    as u32 == 0x2800 + self.cell_offset(row, col),
    {
        let cols = self.width / 2;
        let rows = self.height / 4;
        proof {
            vstd::arithmetic::div_mod::lemma_fundamental_div_mod(self.width as int, 2);
            vstd::arithmetic::div_mod::lemma_fundamental_div_mod(self.height as int, 4);
        }
        let mut grid: Vec<Vec<char>> = Vec::new();
        let mut row: usize = 0;
        while row < rows
            invariant
                self.wf(),
                cols == self.spec_width() / 2,
                rows == self.spec_height() / 4,
                2 * cols <= self.spec_width(),
                4 * rows <= self.spec_height(),
                row <= rows,
                grid@.len() == row,
                forall|r: int| 0 <= r < row ==> (#[trigger] grid@[r])@.len() == cols,
                forall|r: int, c: int|
                    0 <= r < row && 0 <= c < cols ==> (#[trigger] grid@[r]@[c]) as u32 == 0x2800
                        + self.cell_offset(r, c),
            decreases rows - row,
        {
            let mut line: Vec<char> = Vec::new();
            let mut col: usize = 0;
            while col < cols
                invariant
                    self.wf(),
                    cols == self.spec_width() / 2,
                    rows == self.spec_height() / 4,
                    2 * cols <= self.spec_width(),
                    4 * rows <= self.spec_height(),
                    row < rows,
                    col <= cols,
                    line@.len() == col,
                    forall|c: int|
                        0 <= c < col ==> (#[trigger] line@[c]) as u32 == 0x2800 + self.cell_offset(
                            row as int,
                            c,
                        ),
                decreases cols - col,
            {
                let px = col * 2;
                let py = row * 4;
                let block = [
                    [self.get_dot(px, py), self.get_dot(px + 1, py)],
                    [self.get_dot(px, py + 1), self.get_dot(px + 1, py + 1)],
                    [self.get_dot(px, py + 2), self.get_dot(px + 1, py + 2)],
                    [self.get_dot(px, py + 3), self.get_dot(px + 1, py + 3)],
                ];
                line.push(dots_to_braille(block));
                col = col + 1;
            }
            grid.push(line);
            row = row + 1;
        }
        grid
    }
}

/// Render waveform amplitudes onto a braille canvas as a symmetric
/// mirrored display.  Bar `k` of `extents` is the bar's half-height in
/// dots (clamped to the vertical center); both sub-pixel columns of
/// terminal column `k` are filled from `center - extent` to
/// `center + extent - 1`, a contiguous band of `2 * extent` dots centered
/// on the canvas middle.  On a blank canvas the result is vertically
/// symmetric about the center.
pub fn render_waveform_to_canvas(extents: &[usize], canvas: &mut BrailleCanvas)
    requires
        old(canvas).wf(),
    ensures
        final(canvas).wf(),
        final(canvas).spec_width() == old(canvas).spec_width(),
        final(canvas).spec_height() == old(canvas).spec_height(),
        forall|i: int, j: int|
            (#[trigger] final(canvas).dot(i, j)) == (old(canvas).dot(i, j) || (0 <= i && i / 2 < extents@.len()
                && 0 <= i < old(canvas).spec_width() && 0 <= j < old(canvas).spec_height() && old(
                canvas,
            ).spec_height() as int / 2 - vstd::math::min(
                extents@[i / 2] as int,
                old(canvas).spec_height() as int / 2,
            ) <= j <= old(canvas).spec_height() as int / 2 + vstd::math::min(
                extents@[i / 2] as int,
                old(canvas).spec_height() as int / 2,
            ) - 1)),
        (forall|i: int, j: int| !old(canvas).dot(i, j)) ==> (forall|x: int, off: int|
            1 <= off <= old(canvas).spec_height() / 2 ==> #[trigger] final(canvas).dot(
                x,
                old(canvas).spec_height() / 2 - off,
            ) == final(canvas).dot(x, old(canvas).spec_height() / 2 + off - 1)),
{
    let center = canvas.height() / 2;
    let ghost pre = *canvas;
    let ghost h = pre.spec_height() as int;
    let ghost w = pre.spec_width() as int;
    proof {
        vstd::arithmetic::div_mod::lemma_fundamental_div_mod(h, 2);
    }
    let mut k: usize = 0;
    while k < extents.len()
        invariant
            canvas.wf(),
            pre.wf(),
            canvas.spec_width() == pre.spec_width(),
            canvas.spec_height() == pre.spec_height(),
            w == pre.spec_width() as int,
            h == pre.spec_height() as int,
            center == h / 2,
            2 * (h / 2) <= h,
            k <= extents@.len(),
            forall|i: int, j: int|
                (#[trigger] canvas.dot(i, j)) == (pre.dot(i, j) || (0 <= i && i / 2 < k && 0 <= i
                    < w && 0 <= j < h && h / 2 - vstd::math::min(extents@[i / 2] as int, h / 2)
                    <= j <= h / 2 + vstd::math::min(extents@[i / 2] as int, h / 2) - 1)),
        decreases extents@.len() - k,
    {
        let ghost mid = *canvas;
        let ghost e = vstd::math::min(extents@[k as int] as int, h / 2);
        if k <= (usize::MAX - 1) / 2 {
            let raw = extents[k];
            let ext = if raw < center {
                raw
            } else {
                center
            };
            proof {
                assert(ext == e);
            }
            if ext > 0 {
                let px_left = k * 2;
                let px_right = k * 2 + 1;
                let y_top = center - ext;
                let y_bot = center + ext - 1;
                canvas.fill_vertical_line(px_left, y_top, y_bot);
                canvas.fill_vertical_line(px_right, y_top, y_bot);
                proof {
                    assert forall|i: int, j: int|
                        (#[trigger] canvas.dot(i, j)) == (mid.dot(i, j) || ((i == 2 * (k as int) || i == 2 * (
                        k as int) + 1) && 0 <= i < w && 0 <= j < h && h / 2 - e <= j <= h / 2 + e
                            - 1)) by {
                        assert(vstd::math::min(y_top as int, y_bot as int) == h / 2 - e);
                        assert(vstd::math::max(y_top as int, y_bot as int) == h / 2 + e - 1);
                    }
                }
            } else {
                proof {
                    assert(e == 0);
                }
            }
        } else {
            proof {
                assert(2 * (k as int) > usize::MAX);
                assert(w <= usize::MAX);
            }
        }
        proof {
            assert forall|i: int, j: int|
                (#[trigger] canvas.dot(i, j)) == (pre.dot(i, j) || (0 <= i && i / 2 < k + 1 && 0
                    <= i < w && 0 <= j < h && h / 2 - vstd::math::min(extents@[i / 2] as int, h / 2)
                    <= j <= h / 2 + vstd::math::min(extents@[i / 2] as int, h / 2) - 1)) by {
                if 0 <= i && i / 2 == k {
                    assert(i == 2 * (k as int) || i == 2 * (k as int) + 1);
                    assert(extents@[i / 2] == extents@[k as int]);
                }
            }
        }
        k = k + 1;
    }
    proof {
        if forall|i: int, j: int| !pre.dot(i, j) {
            assert forall|x: int, off: int|
                1 <= off <= h / 2 implies #[trigger] canvas.dot(x, h / 2 - off) == canvas.dot(
                x,
                h / 2 + off - 1,
            ) by {
                let e = if 0 <= x && x / 2 < extents@.len() {
                    vstd::math::min(extents@[x / 2] as int, h / 2)
                } else {
                    0
                };
                assert(!pre.dot(x, h / 2 - off));
                assert(!pre.dot(x, h / 2 + off - 1));
            }
        }
    }
}


/// Enforce well-formed log-binning boundaries over `half_len` spectrum
/// bins: each group's upper boundary is raised to keep a minimum group
/// width of 1, boundaries never decrease, none passes `half_len`, and
/// the final boundary is exactly `half_len`.  Degenerate raw boundaries
/// (as the logarithmic formula produces for small spectra) come out
/// repaired rather than rejected.
pub fn enforce_bin_boundaries(raw: &[usize], half_len: usize) -> (r: Vec<usize>)
    ensures
        r@.len() == raw@.len(),
        forall|i: int| 0 <= i < r@.len() ==> #[trigger] r@[i] <= half_len,
        forall|i: int| 0 < i < r@.len() ==> #[trigger] r@[i] >= r@[i - 1],
        forall|i: int|
            0 < i < r@.len() ==> #[trigger] r@[i] >= vstd::math::min(
                r@[i - 1] + 1,
                half_len as int,
            ),
        r@.len() > 0 ==> r@[r@.len() - 1] == half_len,
{
    let mut r: Vec<usize> = Vec::new();
    let mut prev: usize = 0;
    let n = raw.len();
    let mut i: usize = 0;
    while i < n
        invariant
            n == raw@.len(),
            i <= n,
            r@.len() == i,
            prev <= half_len,
            i > 0 ==> prev == r@[i - 1],
            forall|k: int| 0 <= k < i ==> #[trigger] r@[k] <= half_len,
            forall|k: int| 0 < k < i ==> #[trigger] r@[k] >= r@[k - 1],
            forall|k: int|
                0 < k < i ==> #[trigger] r@[k] >= vstd::math::min(
                    r@[k - 1] + 1,
                    half_len as int,
                ),
            i == n && n > 0 ==> r@[n - 1] == half_len,
        decreases n - i,
    {
        let b = if i == n - 1 {
            half_len
        } else {
            let lifted = if raw[i] > prev {
                raw[i]
            } else if prev < half_len {
                prev + 1
            } else {
                half_len
            };
            if lifted < half_len {
                lifted
            } else {
                half_len
            }
        };
        r.push(b);
        prev = b;
        i = i + 1;
    }
    r
}

/// Partition `len` samples into `num_windows` equal-size chunks for RMS
/// windowing: chunk `k` covers `[k * c, (k + 1) * c)` with
/// `c = len / num_windows`, except the final chunk, which absorbs the
/// remainder and ends at `len`.  Empty when there is nothing to
/// partition or more windows than samples.
pub fn rms_window_bounds(len: usize, num_windows: usize) -> (r: Vec<(usize, usize)>)
    ensures
        (len == 0 || num_windows == 0 || len / num_windows == 0) ==> r@.len() == 0,
        !(len == 0 || num_windows == 0 || len / num_windows == 0) ==> {
            &&& r@.len() == num_windows
            &&& forall|k: int|
                0 <= k < num_windows ==> (#[trigger] r@[k]).0 == k * (len / num_windows)
            &&& forall|k: int|
                0 <= k < num_windows - 1 ==> (#[trigger] r@[k]).1 == (k + 1) * (len
                    / num_windows)
            &&& r@[num_windows - 1].1 == len
        },
{
    let mut r: Vec<(usize, usize)> = Vec::new();
    if len == 0 || num_windows == 0 {
        return r;
    }
    let chunk = len / num_windows;
    if chunk == 0 {
        return r;
    }
    proof {
        vstd::arithmetic::div_mod::lemma_fundamental_div_mod(len as int, num_windows as int);
        vstd::arithmetic::div_mod::lemma_mod_bound(len as int, num_windows as int);
    }
    let mut k: usize = 0;
    while k < num_windows
        invariant
            chunk as int == len as int / num_windows as int,
            chunk >= 1,
            num_windows * chunk <= len,
            k <= num_windows,
            r@.len() == k,
            forall|q: int| 0 <= q < k ==> (#[trigger] r@[q]).0 == q * chunk,
            forall|q: int|
                0 <= q < k && q < num_windows - 1 ==> (#[trigger] r@[q]).1 == (q + 1) * chunk,
            k == num_windows ==> r@[num_windows - 1].1 == len,
        decreases num_windows - k,
    {
        proof {
            assert((k + 1) * chunk <= num_windows * chunk) by (nonlinear_arith)
                requires
                    k + 1 <= num_windows,
                    chunk >= 1,
            ;
            assert(k * chunk + chunk == (k + 1) * chunk) by (nonlinear_arith);
        }
        let start = k * chunk;
        let end = if k == num_windows - 1 {
            len
        } else {
            start + chunk
        };
        r.push((start, end));
        k = k + 1;
    }
    r
}

} // verus!
