//! Pixel storage and the pixel-level operations behind the BitmapData
//! surface.
//!
//! A bitmap is a grid of 32-bit ARGB pixels stored row by row.  For a
//! bitmap without transparency the alpha channel is forced opaque on
//! every write.  Coordinates outside the grid are ignored by writes and
//! read as zero.

use vstd::prelude::*;

verus! {

/// A bitmap pixel record.
pub struct BitmapData {
    pub width: u32,
    pub height: u32,
    pub transparency: bool,
    pub disposed: bool,
    pub rows: Vec<Vec<u32>>,
}

impl BitmapData {
    /// Dimensions agree with the pixel grid and stay within the format's
    /// hard limit.
    pub open spec fn wf(self) -> bool {
        &&& self.rows@.len() == self.height
        &&& (forall|j: int| 0 <= j < self.rows@.len()
            ==> (#[trigger] self.rows@[j])@.len() == self.width)
        &&& self.width <= 8191
        &&& self.height <= 8191
    }
}

/// The pixel at column `x` of row `y`.
pub open spec fn pix(b: BitmapData, x: int, y: int) -> u32 {
    b.rows@[y]@[x]
}

/// Whether a coordinate lies on the grid.
pub open spec fn in_bounds(b: BitmapData, x: int, y: int) -> bool {
    0 <= x < b.width && 0 <= y < b.height
}

/// Clamp `v` into `[lo, hi]`.
pub open spec fn clampi(v: int, lo: int, hi: int) -> int {
    if v < lo {
        lo
    } else if v > hi {
        hi
    } else {
        v
    }
}

/// The pixel value a color coerces to on a bitmap with or without
/// transparency: opaque bitmaps force the alpha channel to 255.
pub open spec fn effective_color(transparency: bool, color: i32) -> u32 {
    if transparency {
        color as u32
    } else {
        (color as u32) | 0xFF00_0000
    }
}

/// Whether the documented size limits accept a bitmap of these
/// dimensions: both sides positive; through format version 9 at most
/// 2880 on a side, afterwards at most 8191 on a side and at most
/// 16777215 pixels in all.
pub open spec fn spec_size_valid(swf_version: u8, width: u32, height: u32) -> bool {
    &&& width >= 1
    &&& height >= 1
    &&& if swf_version > 9 {
        width <= 8191 && height <= 8191 && width * height <= 16_777_215
    } else {
        width <= 2880 && height <= 2880
    }
}

/// Check the documented size limits.
pub fn is_size_valid(swf_version: u8, width: u32, height: u32) -> (r: bool)
    ensures
        r == spec_size_valid(swf_version, width, height),
{
    if width == 0 || height == 0 {
        return false;
    }
    if swf_version > 9 {
        if width <= 8191 && height <= 8191 {
            proof {
                assert(width as int * height as int <= 8191 * 8191) by (nonlinear_arith)
                    requires
                        width <= 8191,
                        height <= 8191,
                ;
            }
            (width as u64) * (height as u64) <= 16_777_215u64
        } else {
            false
        }
    } else {
        width <= 2880 && height <= 2880
    }
}

/// A row of `n` copies of one pixel.
pub fn uniform_row(n: usize, c: u32) -> (r: Vec<u32>)
    ensures
        r@.len() == n,
        forall|i: int| 0 <= i < n ==> r@[i] == c,
{
    let mut r: Vec<u32> = Vec::new();
    let mut i: usize = 0;
    while i < n
        invariant
            i <= n,
            r@.len() == i,
            forall|j: int| 0 <= j < i ==> r@[j] == c,
        decreases n - i,
    {
        r.push(c);
        i += 1;
    }
    r
}

/// A fresh copy of one pixel row.
pub fn copy_row(v: &Vec<u32>) -> (r: Vec<u32>)
    ensures
        r@ == v@,
{
    let mut r: Vec<u32> = Vec::new();
    let mut i: usize = 0;
    while i < v.len()
        invariant
            i <= v@.len(),
            r@ == v@.take(i as int),
        decreases v@.len() - i,
    {
        r.push(v[i]);
        proof {
            assert(r@ =~= v@.take(i as int + 1));
        }
        i += 1;
    }
    proof {
        assert(v@.take(v@.len() as int) =~= v@);
    }
    r
}

/// A fresh copy of a whole pixel grid.
pub fn copy_grid(v: &Vec<Vec<u32>>) -> (r: Vec<Vec<u32>>)
    ensures
        r@.len() == v@.len(),
        forall|j: int| 0 <= j < v@.len() ==> (#[trigger] r@[j])@ == v@[j]@,
{
    let mut r: Vec<Vec<u32>> = Vec::new();
    let mut j: usize = 0;
    while j < v.len()
        invariant
            j <= v@.len(),
            r@.len() == j,
            forall|t: int| 0 <= t < j ==> (#[trigger] r@[t])@ == v@[t]@,
        decreases v@.len() - j,
    {
        let row = copy_row(&v[j]);
        r.push(row);
        j += 1;
    }
    r
}

/// A fresh bitmap of one uniform pixel value.
pub fn new_bitmap(width: u32, height: u32, transparency: bool, c: u32) -> (r: BitmapData)
    requires
        width <= 8191,
        height <= 8191,
    ensures
        r.wf(),
        r.width == width,
        r.height == height,
        r.transparency == transparency,
        !r.disposed,
        forall|j: int, i: int| 0 <= j < height && 0 <= i < width ==> pix(r, i, j) == c,
{
    let mut rows: Vec<Vec<u32>> = Vec::new();
    let mut j: usize = 0;
    while j < height as usize
        invariant
            j <= height as usize,
            rows@.len() == j,
            forall|t: int| 0 <= t < j ==> (#[trigger] rows@[t])@.len() == width,
            forall|t: int, i: int| 0 <= t < j && 0 <= i < width ==> rows@[t]@[i] == c,
        decreases height as usize - j,
    {
        let row = uniform_row(width as usize, c);
        rows.push(row);
        j += 1;
    }
    BitmapData { width, height, transparency, disposed: false, rows }
}

/// Replace a bitmap's contents: new dimensions, transparency, and a
/// uniform fill whose alpha is forced opaque on a non-transparent
/// bitmap.
pub fn init_pixels(bm: &mut BitmapData, width: u32, height: u32, transparency: bool, fill: i32)
    requires
        width <= 8191,
        height <= 8191,
    ensures
        final(bm).wf(),
        final(bm).width == width,
        final(bm).height == height,
        final(bm).transparency == transparency,
        final(bm).disposed == old(bm).disposed,
        forall|j: int, i: int| 0 <= j < height && 0 <= i < width
            ==> pix(*final(bm), i, j) == effective_color(transparency, fill),
{
    let c = if transparency {
        fill as u32
    } else {
        (fill as u32) | 0xFF00_0000
    };
    let fresh = new_bitmap(width, height, transparency, c);
    let ghost fr = fresh;
    bm.width = fresh.width;
    bm.height = fresh.height;
    bm.transparency = fresh.transparency;
    bm.rows = fresh.rows;
    proof {
        assert forall|j: int, i: int| 0 <= j < height && 0 <= i < width implies pix(
            *bm,
            i,
            j,
        ) == effective_color(transparency, fill) by {
            assert(pix(fr, i, j) == c);
            assert(bm.rows@ == fr.rows@);
        }
    }
}

/// Mark a bitmap disposed: its contents are dropped and its dimensions
/// collapse to zero.
pub fn dispose_bitmap(bm: &mut BitmapData)
    ensures
        final(bm).wf(),
        final(bm).disposed,
        final(bm).width == 0,
        final(bm).height == 0,
        final(bm).transparency == old(bm).transparency,
{
    bm.disposed = true;
    bm.width = 0;
    bm.height = 0;
    bm.rows = Vec::new();
}

/// A fresh independent copy of a bitmap's pixels and flags.
pub fn clone_bitmap(bm: &BitmapData) -> (r: BitmapData)
    requires
        bm.wf(),
    ensures
        r.wf(),
        r.width == bm.width,
        r.height == bm.height,
        r.transparency == bm.transparency,
        r.disposed == bm.disposed,
        forall|j: int, i: int| 0 <= j < bm.height && 0 <= i < bm.width
            ==> pix(r, i, j) == pix(*bm, i, j),
{
    let rows = copy_grid(&bm.rows);
    BitmapData {
        width: bm.width,
        height: bm.height,
        transparency: bm.transparency,
        disposed: bm.disposed,
        rows,
    }
}

/// The RGB part of the pixel at a coordinate, zero off the grid.
pub fn op_get_pixel(bm: &BitmapData, x: u32, y: u32) -> (r: i32)
    requires
        bm.wf(),
    ensures
        r == (if in_bounds(*bm, x as int, y as int) {
            (pix(*bm, x as int, y as int) & 0x00FF_FFFF) as i32
        } else {
            0i32
        }),
{
    if x < bm.width && y < bm.height {
        (bm.rows[y as usize][x as usize] & 0x00FF_FFFF) as i32
    } else {
        0
    }
}

/// The full ARGB pixel at a coordinate, zero off the grid.
pub fn op_get_pixel32(bm: &BitmapData, x: u32, y: u32) -> (r: i32)
    requires
        bm.wf(),
    ensures
        r == (if in_bounds(*bm, x as int, y as int) {
            pix(*bm, x as int, y as int) as i32
        } else {
            0i32
        }),
{
    if x < bm.width && y < bm.height {
        bm.rows[y as usize][x as usize] as i32
    } else {
        0
    }
}

/// How `set_pixel` changes a bitmap: on the grid, one pixel's RGB under
/// its old alpha; off the grid, nothing.
pub open spec fn set_pixel_rel(pre: BitmapData, post: BitmapData, x: u32, y: u32, color: i32) -> bool {
    &&& post.width == pre.width
    &&& post.height == pre.height
    &&& post.transparency == pre.transparency
    &&& post.disposed == pre.disposed
    &&& if in_bounds(pre, x as int, y as int) {
        post.rows@.len() == pre.rows@.len() && (forall|j: int|
            0 <= j < pre.rows@.len() && j != y ==> post.rows@[j] == pre.rows@[j])
            && post.rows@[y as int]@ == pre.rows@[y as int]@.update(
            x as int,
            set_pixel_value(pix(pre, x as int, y as int), color),
        )
    } else {
        post == pre
    }
}

/// How `set_pixel32` changes a bitmap: on the grid, one full pixel with
/// alpha forced opaque on a non-transparent bitmap; off the grid,
/// nothing.
pub open spec fn set_pixel32_rel(pre: BitmapData, post: BitmapData, x: u32, y: u32, color: i32) -> bool {
    &&& post.width == pre.width
    &&& post.height == pre.height
    &&& post.transparency == pre.transparency
    &&& post.disposed == pre.disposed
    &&& if in_bounds(pre, x as int, y as int) {
        post.rows@.len() == pre.rows@.len() && (forall|j: int|
            0 <= j < pre.rows@.len() && j != y ==> post.rows@[j] == pre.rows@[j])
            && post.rows@[y as int]@ == pre.rows@[y as int]@.update(
            x as int,
            effective_color(pre.transparency, color),
        )
    } else {
        post == pre
    }
}

/// How `fill_rect` changes a bitmap: every row of the clipped rectangle
/// is range-filled with the effective color, the rest untouched.
pub open spec fn fill_rect_rel(pre: BitmapData, post: BitmapData, x: i32, y: i32, w: i32, h: i32, color: i32) -> bool {
    &&& post.width == pre.width
    &&& post.height == pre.height
    &&& post.transparency == pre.transparency
    &&& post.disposed == pre.disposed
    &&& post.rows@.len() == pre.rows@.len()
    &&& ({
        let x0 = clampi(x as int, 0, pre.width as int);
        let x1 = clampi(x as int + w as int, x0, pre.width as int);
        let y0 = clampi(y as int, 0, pre.height as int);
        let y1 = clampi(y as int + h as int, y0, pre.height as int);
        let c = effective_color(pre.transparency, color);
        forall|j: int| 0 <= j < pre.rows@.len() ==> if y0 <= j < y1 {
            row_filled(#[trigger] post.rows@[j]@, pre.rows@[j]@, x0, x1, c)
        } else {
            post.rows@[j] == pre.rows@[j]
        }
    })
}

/// How `flood_fill` changes a bitmap: only pixels holding the seed's
/// original value change, to the fill color, and the seed is filled;
/// off-grid seeds change nothing.
pub open spec fn flood_fill_rel(pre: BitmapData, post: BitmapData, x: u32, y: u32, color: i32) -> bool {
    &&& post.width == pre.width
    &&& post.height == pre.height
    &&& post.transparency == pre.transparency
    &&& post.disposed == pre.disposed
    &&& if in_bounds(pre, x as int, y as int) {
        ({
            let target = pix(pre, x as int, y as int);
            let c = effective_color(pre.transparency, color);
            (forall|j: int, i: int| 0 <= j < pre.height && 0 <= i < pre.width
                ==> #[trigger] pix(post, i, j) == pix(pre, i, j) || (pix(pre, i, j) == target
                && pix(post, i, j) == c)) && pix(post, x as int, y as int) == c
        })
    } else {
        post == pre
    }
}

/// The value `set_pixel` writes: the new RGB under the old alpha.
pub open spec fn set_pixel_value(old_pix: u32, color: i32) -> u32 {
    (old_pix & 0xFF00_0000) | ((color as u32) & 0x00FF_FFFF)
}

/// Write the RGB part of one pixel, keeping its alpha; off the grid this
/// is a no-op.
pub fn op_set_pixel(bm: &mut BitmapData, x: u32, y: u32, color: i32)
    requires
        old(bm).wf(),
    ensures
        final(bm).wf(),
        set_pixel_rel(*old(bm), *final(bm), x, y, color),
{
    if x < bm.width && y < bm.height {
        let old_pix = bm.rows[y as usize][x as usize];
        let c = (old_pix & 0xFF00_0000) | ((color as u32) & 0x00FF_FFFF);
        bm.rows[y as usize][x as usize] = c;
    }
}

/// Write one full ARGB pixel, forcing alpha opaque on a non-transparent
/// bitmap; off the grid this is a no-op.
pub fn op_set_pixel32(bm: &mut BitmapData, x: u32, y: u32, color: i32)
    requires
        old(bm).wf(),
    ensures
        final(bm).wf(),
        set_pixel32_rel(*old(bm), *final(bm), x, y, color),
{
    if x < bm.width && y < bm.height {
        let c = if bm.transparency {
            color as u32
        } else {
            (color as u32) | 0xFF00_0000
        };
        bm.rows[y as usize][x as usize] = c;
    }
}

/// The greater of two integers.
pub open spec fn imax(a: int, b: int) -> int {
    if a >= b {
        a
    } else {
        b
    }
}

/// The lesser of two integers.
pub open spec fn imin(a: int, b: int) -> int {
    if a <= b {
        a
    } else {
        b
    }
}

/// One 8-bit channel of a pixel.
pub open spec fn chan(p: u32, sh: u32) -> u32 {
    (p >> sh) & 0xFF
}

/// A merge multiplier clamped into its documented `[0, 256]` range.
pub open spec fn mclamp(m: i32) -> u32 {
    if m < 0 {
        0
    } else if m > 256 {
        256
    } else {
        m as u32
    }
}

/// A pixel-grid snapshot with the given dimensions.
pub open spec fn grid_wf(g: Seq<Vec<u32>>, w: int, h: int) -> bool {
    g.len() == h && (forall|j: int| 0 <= j < h ==> (#[trigger] g[j])@.len() == w)
}

/// A per-pixel operation applied over a clipped rectangle copied from a
/// source grid onto a destination bitmap.
pub enum RegionOp {
    /// Replace one destination channel with one source channel.
    CopyChannel { src_shift: u32, dst_shift: u32 },
    /// Per-channel weighted mix of source over destination, multipliers
    /// in 1/256 units clamped to `[0, 256]`.
    Merge { red_mult: i32, green_mult: i32, blue_mult: i32, alpha_mult: i32 },
    /// Replace the pixel by the sum of four per-channel table lookups on
    /// the source pixel, wrapping modulo 2^32.
    PaletteMap { reds: Vec<u32>, greens: Vec<u32>, blues: Vec<u32>, alphas: Vec<u32> },
    /// Test the masked source pixel against a masked threshold; matching
    /// pixels become `color`, the rest copy the source or keep the
    /// destination.
    Threshold { cmp: u8, threshold: u32, color: u32, mask: u32, copy_source: bool },
    /// Copy source pixels, optionally alpha-blending them over the
    /// destination; an opaque source or destination forces alpha to 255.
    CopyPixels { merge_alpha: bool, src_transparency: bool, dst_transparency: bool },
    /// Per-channel affine transform of the destination itself,
    /// multipliers in 1/256 units clamped to `[0, 256]`, offsets added
    /// then clamped to `[0, 255]`.
    ColorTransform {
        red_mult: i32,
        green_mult: i32,
        blue_mult: i32,
        alpha_mult: i32,
        red_off: i32,
        green_off: i32,
        blue_off: i32,
        alpha_off: i32,
    },
}

/// Structural demands on an operation: channel shifts name a channel and
/// palette tables have one entry per byte value.
pub open spec fn region_op_wf(op: RegionOp) -> bool {
    match op {
        RegionOp::CopyChannel { src_shift, dst_shift } => (src_shift == 0 || src_shift == 8
            || src_shift == 16 || src_shift == 24) && (dst_shift == 0 || dst_shift == 8
            || dst_shift == 16 || dst_shift == 24),
        RegionOp::PaletteMap { reds, greens, blues, alphas } => reds@.len() == 256
            && greens@.len() == 256 && blues@.len() == 256 && alphas@.len() == 256,
        _ => true,
    }
}

/// One channel of the weighted merge of source over destination.
pub open spec fn merged_channel(s: u32, d: u32, sh: u32, m: i32) -> int {
    (chan(s, sh) * mclamp(m) + chan(d, sh) * (256 - mclamp(m))) / 256
}

/// The weighted merge of a source pixel over a destination pixel.
pub open spec fn merge_pixel(d: u32, s: u32, rm: i32, gm: i32, bmu: i32, am: i32) -> u32 {
    (merged_channel(s, d, 24, am) * 0x0100_0000 + merged_channel(s, d, 16, rm) * 0x0001_0000
        + merged_channel(s, d, 8, gm) * 0x100 + merged_channel(s, d, 0, bmu)) as u32
}

/// One color channel of the source alpha-blended over the destination.
pub open spec fn blend_channel(s: u32, d: u32, sh: u32) -> int {
    (chan(s, sh) * chan(s, 24) + chan(d, sh) * (255 - chan(s, 24))) / 255
}

/// The alpha channel of the source blended over the destination.
pub open spec fn blend_alpha(s: u32, d: u32) -> int {
    chan(s, 24) + (chan(d, 24) * (255 - chan(s, 24))) / 255
}

/// The source pixel alpha-blended over the destination pixel.
pub open spec fn blend_pixel(s: u32, d: u32) -> u32 {
    (blend_alpha(s, d) * 0x0100_0000 + blend_channel(s, d, 16) * 0x0001_0000 + blend_channel(
        s,
        d,
        8,
    ) * 0x100 + blend_channel(s, d, 0)) as u32
}

/// The palette-map result for one source pixel.
pub open spec fn palette_pixel(
    s: u32,
    reds: Seq<u32>,
    greens: Seq<u32>,
    blues: Seq<u32>,
    alphas: Seq<u32>,
) -> u32 {
    ((alphas[chan(s, 24) as int] + reds[chan(s, 16) as int] + greens[chan(s, 8) as int]
        + blues[chan(s, 0) as int]) % 0x1_0000_0000) as u32
}

/// One channel of the affine color transform, clamped to a byte.
pub open spec fn ct_channel(d: u32, sh: u32, m: i32, o: i32) -> int {
    clampi((chan(d, sh) * mclamp(m)) / 256 + o, 0, 255)
}

/// The affine color transform of one pixel.
pub open spec fn ct_pixel(
    d: u32,
    rm: i32,
    gm: i32,
    bmu: i32,
    am: i32,
    ro: i32,
    go: i32,
    bo: i32,
    ao: i32,
) -> u32 {
    (ct_channel(d, 24, am, ao) * 0x0100_0000 + ct_channel(d, 16, rm, ro) * 0x0001_0000
        + ct_channel(d, 8, gm, go) * 0x100 + ct_channel(d, 0, bmu, bo)) as u32
}

/// The threshold comparison, by comparison code: `<`, `<=`, `>`, `>=`,
/// `==`, and any other code meaning `!=`.
pub open spec fn threshold_test(cmp: u8, masked: u32, thr: u32) -> bool {
    if cmp == 0 {
        masked < thr
    } else if cmp == 1 {
        masked <= thr
    } else if cmp == 2 {
        masked > thr
    } else if cmp == 3 {
        masked >= thr
    } else if cmp == 4 {
        masked == thr
    } else {
        masked != thr
    }
}

/// What one destination pixel becomes under a region operation.
pub open spec fn region_pixel(op: RegionOp, d: u32, s: u32) -> u32 {
    match op {
        RegionOp::CopyChannel { src_shift, dst_shift } => (d & (0xFFFF_FFFFu32 ^ (0xFFu32
            << dst_shift))) | (chan(s, src_shift) << dst_shift),
        RegionOp::Merge { red_mult, green_mult, blue_mult, alpha_mult } => merge_pixel(
            d,
            s,
            red_mult,
            green_mult,
            blue_mult,
            alpha_mult,
        ),
        RegionOp::PaletteMap { reds, greens, blues, alphas } => palette_pixel(
            s,
            reds@,
            greens@,
            blues@,
            alphas@,
        ),
        RegionOp::Threshold { cmp, threshold, color, mask, copy_source } => if threshold_test(
            cmp,
            s & mask,
            threshold & mask,
        ) {
            color
        } else if copy_source {
            s
        } else {
            d
        },
        RegionOp::CopyPixels { merge_alpha, src_transparency, dst_transparency } => {
            let se = if src_transparency {
                s
            } else {
                s | 0xFF00_0000
            };
            let o = if merge_alpha {
                blend_pixel(se, d)
            } else {
                se
            };
            if dst_transparency {
                o
            } else {
                o | 0xFF00_0000
            }
        },
        RegionOp::ColorTransform {
            red_mult,
            green_mult,
            blue_mult,
            alpha_mult,
            red_off,
            green_off,
            blue_off,
            alpha_off,
        } => ct_pixel(
            d,
            red_mult,
            green_mult,
            blue_mult,
            alpha_mult,
            red_off,
            green_off,
            blue_off,
            alpha_off,
        ),
    }
}

/// Whether a source pixel counts toward the operation's modified-pixel
/// total: only the threshold test counts.
pub open spec fn region_counts(op: RegionOp, s: u32) -> bool {
    match op {
        RegionOp::Threshold { cmp, threshold, mask, .. } => threshold_test(
            cmp,
            s & mask,
            threshold & mask,
        ),
        _ => false,
    }
}

/// Counting pixels of one row segment.
pub open spec fn count_row_op(op: RegionOp, row: Seq<u32>, s0: int, n: int) -> int
    decreases n,
{
    if n <= 0 {
        0
    } else {
        count_row_op(op, row, s0, n - 1) + if region_counts(op, row[s0 + n - 1]) {
            1int
        } else {
            0int
        }
    }
}

/// Counting pixels of a rectangle of the source grid.
pub open spec fn count_rect_op(
    op: RegionOp,
    src: Seq<Vec<u32>>,
    s0: int,
    sj0: int,
    n: int,
    rows: int,
) -> int
    decreases rows,
{
    if rows <= 0 {
        0
    } else {
        count_rect_op(op, src, s0, sj0, n, rows - 1) + count_row_op(
            op,
            src[sj0 + rows - 1]@,
            s0,
            n,
        )
    }
}

/// Whether destination coordinate `(i, j)` receives a source pixel when
/// the rectangle `(sx, sy, sw, sh)` of the source is copied to
/// destination point `(dx, dy)`.
pub open spec fn in_copy_region(
    i: int,
    j: int,
    sx: int,
    sy: int,
    sw: int,
    sh: int,
    dx: int,
    dy: int,
    src_w: int,
    src_h: int,
) -> bool {
    &&& dx <= i < dx + sw
    &&& dy <= j < dy + sh
    &&& 0 <= i - dx + sx < src_w
    &&& 0 <= j - dy + sy < src_h
}

/// Lowest copied column offset within the source rectangle.
pub open spec fn cdi_lo(sx: int, dx: int) -> int {
    imax(0, imax(-sx, -dx))
}

/// One past the highest copied column offset.
pub open spec fn cdi_hi(sw: int, src_w: int, sx: int, dst_w: int, dx: int) -> int {
    imin(sw, imin(src_w - sx, dst_w - dx))
}

/// One row after a region operation over `[d0, d0 + n)` with source
/// pixels from `srcr` starting at `s0`.
pub open spec fn row_transformed(
    newr: Seq<u32>,
    oldr: Seq<u32>,
    srcr: Seq<u32>,
    d0: int,
    s0: int,
    n: int,
    op: RegionOp,
) -> bool {
    newr.len() == oldr.len() && (forall|i: int|
        0 <= i < oldr.len() ==> newr[i] == (if d0 <= i < d0 + n {
            region_pixel(op, oldr[i], srcr[i - d0 + s0])
        } else {
            oldr[i]
        }))
}

/// Extract one channel of a pixel.
fn chan_of(p: u32, sh: u32) -> (r: u32)
    requires
        sh == 0 || sh == 8 || sh == 16 || sh == 24,
    ensures
        r == chan(p, sh),
        r < 256,
{
    let r = (p >> sh) & 0xFF;
    proof {
        assert((p >> sh) & 0xFF < 256) by (bit_vector);
    }
    r
}

/// Clamp a merge multiplier into `[0, 256]`.
fn mclamp_of(m: i32) -> (r: u32)
    ensures
        r == mclamp(m),
        r <= 256,
{
    if m < 0 {
        0
    } else if m > 256 {
        256
    } else {
        m as u32
    }
}

/// Apply a region operation to one destination/source pixel pair.
fn apply_region_pixel(op: &RegionOp, d: u32, s: u32) -> (r: u32)
    requires
        region_op_wf(*op),
    ensures
        r == region_pixel(*op, d, s),
{
    match op {
        RegionOp::CopyChannel { src_shift, dst_shift } => {
            (d & (0xFFFF_FFFFu32 ^ (0xFFu32 << *dst_shift))) | (chan_of(s, *src_shift)
                << *dst_shift)
        },
        RegionOp::Merge { red_mult, green_mult, blue_mult, alpha_mult } => {
            let ac = merged_channel_of(s, d, 24, *alpha_mult);
            let rc = merged_channel_of(s, d, 16, *red_mult);
            let gc = merged_channel_of(s, d, 8, *green_mult);
            let bc = merged_channel_of(s, d, 0, *blue_mult);
            (ac * 0x0100_0000 + rc * 0x0001_0000 + gc * 0x100 + bc) as u32
        },
        RegionOp::PaletteMap { reds, greens, blues, alphas } => {
            let aa = alphas[chan_of(s, 24) as usize];
            let rr = reds[chan_of(s, 16) as usize];
            let gg = greens[chan_of(s, 8) as usize];
            let bb = blues[chan_of(s, 0) as usize];
            ((aa as u64 + rr as u64 + gg as u64 + bb as u64) % 0x1_0000_0000u64) as u32
        },
        RegionOp::Threshold { cmp, threshold, color, mask, copy_source } => {
            let masked = s & *mask;
            let thr = *threshold & *mask;
            let c = *cmp;
            let test = if c == 0 {
                masked < thr
            } else if c == 1 {
                masked <= thr
            } else if c == 2 {
                masked > thr
            } else if c == 3 {
                masked >= thr
            } else if c == 4 {
                masked == thr
            } else {
                masked != thr
            };
            if test {
                *color
            } else if *copy_source {
                s
            } else {
                d
            }
        },
        RegionOp::CopyPixels { merge_alpha, src_transparency, dst_transparency } => {
            let se = if *src_transparency {
                s
            } else {
                s | 0xFF00_0000
            };
            let o = if *merge_alpha {
                let sa = chan_of(se, 24);
                let da = chan_of(d, 24);
                proof {
                    assert(da as int * (255 - sa as int) <= 255 * (255 - sa as int))
                        by (nonlinear_arith)
                        requires
                            da < 256,
                            sa < 256,
                    ;
                }
                let oa = (sa as u64 + (da as u64 * (255 - sa as u64)) / 255) as u64;
                let rc = blend_channel_of(se, d, 16);
                let gc = blend_channel_of(se, d, 8);
                let bc = blend_channel_of(se, d, 0);
                (oa * 0x0100_0000 + rc * 0x0001_0000 + gc * 0x100 + bc) as u32
            } else {
                se as u64 as u32
            };
            if *dst_transparency {
                o
            } else {
                o | 0xFF00_0000
            }
        },
        RegionOp::ColorTransform {
            red_mult,
            green_mult,
            blue_mult,
            alpha_mult,
            red_off,
            green_off,
            blue_off,
            alpha_off,
        } => {
            let ac = ct_channel_of(d, 24, *alpha_mult, *alpha_off);
            let rc = ct_channel_of(d, 16, *red_mult, *red_off);
            let gc = ct_channel_of(d, 8, *green_mult, *green_off);
            let bc = ct_channel_of(d, 0, *blue_mult, *blue_off);
            (ac * 0x0100_0000 + rc * 0x0001_0000 + gc * 0x100 + bc) as u32
        },
    }
}

/// One merged channel as a machine integer.
fn merged_channel_of(s: u32, d: u32, sh: u32, m: i32) -> (r: u64)
    requires
        sh == 0 || sh == 8 || sh == 16 || sh == 24,
    ensures
        r == merged_channel(s, d, sh, m),
        r < 256,
{
    let cs = chan_of(s, sh);
    let cd = chan_of(d, sh);
    let mc = mclamp_of(m);
    proof {
        assert(cs as int * mc as int + cd as int * (256 - mc as int) <= 255 * 256)
            by (nonlinear_arith)
            requires
                cs < 256,
                cd < 256,
                mc <= 256,
        ;
    }
    let num = cs as u64 * mc as u64 + cd as u64 * (256 - mc) as u64;
    num / 256
}

/// One blended color channel as a machine integer.
fn blend_channel_of(s: u32, d: u32, sh: u32) -> (r: u64)
    requires
        sh == 0 || sh == 8 || sh == 16 || sh == 24,
    ensures
        r == blend_channel(s, d, sh),
        r < 256,
{
    let cs = chan_of(s, sh);
    let cd = chan_of(d, sh);
    let sa = chan_of(s, 24);
    proof {
        assert(cs as int * sa as int + cd as int * (255 - sa as int) <= 255 * 255)
            by (nonlinear_arith)
            requires
                cs < 256,
                cd < 256,
                sa < 256,
        ;
    }
    let num = cs as u64 * sa as u64 + cd as u64 * (255 - sa) as u64;
    num / 255
}

/// One affine-transformed channel as a machine integer.
fn ct_channel_of(d: u32, sh: u32, m: i32, o: i32) -> (r: u64)
    requires
        sh == 0 || sh == 8 || sh == 16 || sh == 24,
    ensures
        r == ct_channel(d, sh, m, o),
        r < 256,
{
    let cd = chan_of(d, sh);
    let mc = mclamp_of(m);
    proof {
        assert(cd as int * mc as int <= 255 * 256) by (nonlinear_arith)
            requires
                cd < 256,
                mc <= 256,
        ;
    }
    let scaled = (cd as i64 * mc as i64) / 256;
    let t = scaled + o as i64;
    let c = if t < 0 {
        0i64
    } else if t > 255 {
        255i64
    } else {
        t
    };
    c as u64
}

/// Whether a source pixel counts toward the modified-pixel total.
fn region_counts_of(op: &RegionOp, s: u32) -> (r: bool)
    ensures
        r == region_counts(*op, s),
{
    match op {
        RegionOp::Threshold { cmp, threshold, mask, .. } => {
            let masked = s & *mask;
            let thr = *threshold & *mask;
            let c = *cmp;
            if c == 0 {
                masked < thr
            } else if c == 1 {
                masked <= thr
            } else if c == 2 {
                masked > thr
            } else if c == 3 {
                masked >= thr
            } else if c == 4 {
                masked == thr
            } else {
                masked != thr
            }
        },
        _ => false,
    }
}

/// Apply a region operation to the segment `[d0, d0 + n)` of one row,
/// returning the new row and the count of counting source pixels.
fn apply_region_row(
    dst: &Vec<u32>,
    srcr: &Vec<u32>,
    d0: usize,
    s0: usize,
    n: usize,
    op: &RegionOp,
) -> (res: (Vec<u32>, u64))
    requires
        region_op_wf(*op),
        d0 + n <= dst@.len(),
        s0 + n <= srcr@.len(),
    ensures
        row_transformed(res.0@, dst@, srcr@, d0 as int, s0 as int, n as int, *op),
        res.1 == count_row_op(*op, srcr@, s0 as int, n as int),
        res.1 <= n,
{
    let dlen = dst.len();
    let slen = srcr.len();
    let mut out = copy_row(dst);
    let mut count: u64 = 0;
    let mut t: usize = 0;
    while t < n
        invariant
            region_op_wf(*op),
            d0 + n <= dst@.len(),
            s0 + n <= srcr@.len(),
            t <= n,
            dlen == dst@.len(),
            slen == srcr@.len(),
            d0 + n <= dlen,
            s0 + n <= slen,
            out@.len() == dst@.len(),
            forall|i: int| 0 <= i < dst@.len() && !(d0 <= i < d0 + t) ==> out@[i] == dst@[i],
            forall|i: int| d0 <= i < d0 + t ==> out@[i] == region_pixel(
                *op,
                dst@[i],
                srcr@[i - d0 + s0],
            ),
            count == count_row_op(*op, srcr@, s0 as int, t as int),
            count <= t,
        decreases n - t,
    {
        let v = apply_region_pixel(op, out[d0 + t], srcr[s0 + t]);
        proof {
            assert(out@[d0 + t] == dst@[d0 + t]);
        }
        out[d0 + t] = v;
        if region_counts_of(op, srcr[s0 + t]) {
            count = count + 1;
        }
        t += 1;
    }
    (out, count)
}

/// How a region operation changes a bitmap: dimensions and flags are
/// kept; a destination pixel inside the copied region becomes the
/// operation of its old value and its source pixel, every other pixel is
/// untouched.
pub open spec fn copy_region_rel(
    pre: BitmapData,
    post: BitmapData,
    src: Seq<Vec<u32>>,
    src_w: int,
    src_h: int,
    sx: int,
    sy: int,
    sw: int,
    sh: int,
    dx: int,
    dy: int,
    op: RegionOp,
) -> bool {
    &&& post.width == pre.width
    &&& post.height == pre.height
    &&& post.transparency == pre.transparency
    &&& post.disposed == pre.disposed
    &&& post.rows@.len() == pre.rows@.len()
    &&& (forall|j: int, i: int| 0 <= j < pre.height && 0 <= i < pre.width
        ==> #[trigger] post.rows@[j]@[i] == (if in_copy_region(i, j, sx, sy, sw, sh, dx, dy,
        src_w, src_h) {
        region_pixel(op, pre.rows@[j]@[i], src[j - dy + sy]@[i - dx + sx])
    } else {
        pre.rows@[j]@[i]
    }))
}

/// The number of counting source pixels inside the clipped region.
pub open spec fn region_count_spec(
    pre: BitmapData,
    src: Seq<Vec<u32>>,
    src_w: int,
    src_h: int,
    sx: int,
    sy: int,
    sw: int,
    sh: int,
    dx: int,
    dy: int,
    op: RegionOp,
) -> int {
    let di_lo = cdi_lo(sx, dx);
    let di_hi = cdi_hi(sw, src_w, sx, pre.width as int, dx);
    let dj_lo = cdi_lo(sy, dy);
    let dj_hi = cdi_hi(sh, src_h, sy, pre.height as int, dy);
    if di_lo < di_hi && dj_lo < dj_hi {
        count_rect_op(op, src, sx + di_lo, sy + dj_lo, di_hi - di_lo, dj_hi - dj_lo)
    } else {
        0
    }
}

/// Apply a region operation: the rectangle `(sx, sy, sw, sh)` of the
/// source grid is combined pixel by pixel onto the destination starting
/// at `(dx, dy)`, clipped to both grids; the count of counting source
/// pixels in the clipped region is returned.
#[verifier::rlimit(60)]
pub fn op_copy_region(
    bm: &mut BitmapData,
    src: &Vec<Vec<u32>>,
    src_w: u32,
    src_h: u32,
    sx: i32,
    sy: i32,
    sw: i32,
    sh: i32,
    dx: i32,
    dy: i32,
    op: &RegionOp,
) -> (count: u64)
    requires
        old(bm).wf(),
        grid_wf(src@, src_w as int, src_h as int),
        src_w <= 8191,
        src_h <= 8191,
        region_op_wf(*op),
    ensures
        final(bm).wf(),
        copy_region_rel(
            *old(bm),
            *final(bm),
            src@,
            src_w as int,
            src_h as int,
            sx as int,
            sy as int,
            sw as int,
            sh as int,
            dx as int,
            dy as int,
            *op,
        ),
        count == region_count_spec(
            *old(bm),
            src@,
            src_w as int,
            src_h as int,
            sx as int,
            sy as int,
            sw as int,
            sh as int,
            dx as int,
            dy as int,
            *op,
        ),
        count <= 67108864,
{
    let dst_w = bm.width as i64;
    let dst_h = bm.height as i64;
    let sxl = sx as i64;
    let syl = sy as i64;
    let dxl = dx as i64;
    let dyl = dy as i64;
    let mut di_lo: i64 = 0;
    if -sxl > di_lo {
        di_lo = -sxl;
    }
    if -dxl > di_lo {
        di_lo = -dxl;
    }
    let mut di_hi: i64 = sw as i64;
    if src_w as i64 - sxl < di_hi {
        di_hi = src_w as i64 - sxl;
    }
    if dst_w - dxl < di_hi {
        di_hi = dst_w - dxl;
    }
    let mut dj_lo: i64 = 0;
    if -syl > dj_lo {
        dj_lo = -syl;
    }
    if -dyl > dj_lo {
        dj_lo = -dyl;
    }
    let mut dj_hi: i64 = sh as i64;
    if src_h as i64 - syl < dj_hi {
        dj_hi = src_h as i64 - syl;
    }
    if dst_h - dyl < dj_hi {
        dj_hi = dst_h - dyl;
    }
    proof {
        assert(di_lo as int == cdi_lo(sx as int, dx as int));
        assert(di_hi as int == cdi_hi(sw as int, src_w as int, sx as int, old(bm).width as int,
            dx as int));
        assert(dj_lo as int == cdi_lo(sy as int, dy as int));
        assert(dj_hi as int == cdi_hi(sh as int, src_h as int, sy as int, old(bm).height as int,
            dy as int));
    }
    if di_lo >= di_hi || dj_lo >= dj_hi {
        proof {
            assert forall|j: int, i: int| 0 <= j < old(bm).height && 0 <= i < old(bm).width
                implies !in_copy_region(i, j, sx as int, sy as int, sw as int, sh as int,
                dx as int, dy as int, src_w as int, src_h as int) by {}
        }
        return 0;
    }
    let n = (di_hi - di_lo) as usize;
    let rows = (dj_hi - dj_lo) as usize;
    let d0 = (dxl + di_lo) as usize;
    let s0 = (sxl + di_lo) as usize;
    let mut count: u64 = 0;
    let mut t: usize = 0;
    while t < rows
        invariant
            region_op_wf(*op),
            grid_wf(src@, src_w as int, src_h as int),
            old(bm).wf(),
            src_w <= 8191,
            src_h <= 8191,
            t <= rows,
            dyl == dy as i64,
            syl == sy as i64,
            dxl == dx as i64,
            sxl == sx as i64,
            di_lo as int == cdi_lo(sx as int, dx as int),
            di_hi as int == cdi_hi(sw as int, src_w as int, sx as int, old(bm).width as int,
                dx as int),
            dj_lo as int == cdi_lo(sy as int, dy as int),
            dj_hi as int == cdi_hi(sh as int, src_h as int, sy as int, old(bm).height as int,
                dy as int),
            di_lo < di_hi,
            dj_lo < dj_hi,
            n as int == di_hi - di_lo,
            rows as int == dj_hi - dj_lo,
            d0 as int == dx + di_lo,
            s0 as int == sx + di_lo,
            bm.width == old(bm).width,
            bm.height == old(bm).height,
            bm.transparency == old(bm).transparency,
            bm.disposed == old(bm).disposed,
            bm.rows@.len() == old(bm).rows@.len(),
            forall|r: int| 0 <= r < bm.rows@.len() && !(dy + dj_lo <= r < dy + dj_lo + t)
                ==> bm.rows@[r] == old(bm).rows@[r],
            forall|r: int| dy + dj_lo <= r < dy + dj_lo + t ==> row_transformed(
                #[trigger] bm.rows@[r]@,
                old(bm).rows@[r]@,
                src@[r - dy + sy]@,
                d0 as int,
                s0 as int,
                n as int,
                *op,
            ),
            count == count_rect_op(*op, src@, sx + di_lo, sy + dj_lo, n as int, t as int),
            count <= t * 8192,
        decreases rows - t,
    {
        proof {
            assert(n <= 8191);
            assert(0 <= dy + dj_lo as int);
            assert(dy + dj_lo as int + t < old(bm).height);
            assert(0 <= sy + dj_lo as int);
            assert(sy + dj_lo as int + t < src_h);
        }
        let jd = (dyl + dj_lo) as usize + t;
        let js = (syl + dj_lo) as usize + t;
        proof {
            assert(jd as int == dy + dj_lo as int + t);
            assert(js as int == sy + dj_lo as int + t);
            assert(jd < bm.rows@.len());
            assert(js < src@.len());
            assert(old(bm).rows@[jd as int]@.len() == old(bm).width);
            assert(src@[js as int]@.len() == src_w);
            assert(bm.rows@[jd as int] == old(bm).rows@[jd as int]);
            assert(d0 + n <= old(bm).width);
            assert(s0 + n <= src_w);
        }
        let (new_row, rc) = apply_region_row(&bm.rows[jd], &src[js], d0, s0, n, op);
        bm.rows[jd] = new_row;
        count = count + rc;
        t += 1;
        proof {
            assert(count_rect_op(*op, src@, sx + di_lo, sy + dj_lo, n as int, t as int)
                == count_rect_op(*op, src@, sx + di_lo, sy + dj_lo, n as int, t as int - 1)
                + count_row_op(*op, src@[sy + dj_lo + t - 1]@, sx + di_lo, n as int));
            assert(src@[sy + dj_lo as int + t - 1] == src@[js as int]);
        }
    }
    proof {
        assert forall|j: int, i: int| 0 <= j < old(bm).height && 0 <= i < old(bm).width implies
            #[trigger] bm.rows@[j]@[i] == (if in_copy_region(i, j, sx as int, sy as int, sw as int,
            sh as int, dx as int, dy as int, src_w as int, src_h as int) {
            region_pixel(*op, old(bm).rows@[j]@[i], src@[j - dy + sy]@[i - dx + sx])
        } else {
            old(bm).rows@[j]@[i]
        }) by {
            if dy + dj_lo <= j < dy + dj_hi {
                assert(row_transformed(bm.rows@[j]@, old(bm).rows@[j]@, src@[j - dy + sy]@,
                    d0 as int, s0 as int, n as int, *op));
            } else {
                assert(bm.rows@[j] == old(bm).rows@[j]);
            }
        }
    }
    count
}

/// The absolute difference of two channel values.
pub open spec fn abs_diff(a: u32, b: u32) -> int {
    if a >= b {
        a - b
    } else {
        b - a
    }
}

/// The difference pixel `compare` produces: zero for equal pixels; for a
/// color difference, an opaque pixel of the per-channel differences; for
/// an alpha-only difference, the alpha difference over white.
pub open spec fn compare_pixel(p1: u32, p2: u32) -> u32 {
    let dr = abs_diff(chan(p1, 16), chan(p2, 16));
    let dg = abs_diff(chan(p1, 8), chan(p2, 8));
    let db = abs_diff(chan(p1, 0), chan(p2, 0));
    let da = abs_diff(chan(p1, 24), chan(p2, 24));
    if dr != 0 || dg != 0 || db != 0 {
        (0xFF00_0000 + dr * 0x0001_0000 + dg * 0x100 + db) as u32
    } else if da != 0 {
        (da * 0x0100_0000 + 0x00FF_FFFF) as u32
    } else {
        0u32
    }
}

/// Absolute difference of two channels as a machine integer.
fn abs_diff_of(a: u32, b: u32) -> (r: u32)
    requires
        a < 256,
        b < 256,
    ensures
        r == abs_diff(a, b),
        r < 256,
{
    if a >= b {
        a - b
    } else {
        b - a
    }
}

/// The difference pixel of two pixels.
fn compare_pixel_of(p1: u32, p2: u32) -> (r: u32)
    ensures
        r == compare_pixel(p1, p2),
{
    let dr = abs_diff_of(chan_of(p1, 16), chan_of(p2, 16));
    let dg = abs_diff_of(chan_of(p1, 8), chan_of(p2, 8));
    let db = abs_diff_of(chan_of(p1, 0), chan_of(p2, 0));
    let da = abs_diff_of(chan_of(p1, 24), chan_of(p2, 24));
    if dr != 0 || dg != 0 || db != 0 {
        (0xFF00_0000u64 + dr as u64 * 0x0001_0000 + dg as u64 * 0x100 + db as u64) as u32
    } else if da != 0 {
        (da as u64 * 0x0100_0000 + 0x00FF_FFFF) as u32
    } else {
        0
    }
}

/// The difference row of two equal-length rows, and whether they differ
/// anywhere.
fn compare_row(ra: &Vec<u32>, rb: &Vec<u32>) -> (res: (Vec<u32>, bool))
    requires
        ra@.len() == rb@.len(),
    ensures
        res.0@.len() == ra@.len(),
        forall|i: int| 0 <= i < ra@.len() ==> res.0@[i] == compare_pixel(ra@[i], rb@[i]),
        res.1 == exists|i: int| 0 <= i < ra@.len() && ra@[i] != rb@[i],
{
    let mut out: Vec<u32> = Vec::new();
    let mut found = false;
    let mut i: usize = 0;
    while i < ra.len()
        invariant
            ra@.len() == rb@.len(),
            i <= ra@.len(),
            out@.len() == i,
            forall|t: int| 0 <= t < i ==> out@[t] == compare_pixel(ra@[t], rb@[t]),
            found == exists|t: int| 0 <= t < i && ra@[t] != rb@[t],
        decreases ra@.len() - i,
    {
        out.push(compare_pixel_of(ra[i], rb[i]));
        if ra[i] != rb[i] {
            found = true;
        }
        i += 1;
    }
    (out, found)
}

/// Compare two equal-sized bitmaps: `None` when every pixel is equal,
/// otherwise the bitmap of per-pixel differences.
pub fn op_compare(a: &BitmapData, b: &BitmapData) -> (r: Option<BitmapData>)
    requires
        a.wf(),
        b.wf(),
        a.width == b.width,
        a.height == b.height,
    ensures
        if forall|j: int, i: int| 0 <= j < a.height && 0 <= i < a.width
            ==> pix(*a, i, j) == pix(*b, i, j) {
            r is None
        } else {
            r matches Some(d) && d.wf() && d.width == a.width && d.height == a.height
                && d.transparency && !d.disposed && (forall|j: int, i: int|
                0 <= j < a.height && 0 <= i < a.width ==> pix(d, i, j) == compare_pixel(
                    pix(*a, i, j),
                    pix(*b, i, j),
                ))
        },
{
    let mut rows: Vec<Vec<u32>> = Vec::new();
    let mut any = false;
    let mut j: usize = 0;
    while j < a.height as usize
        invariant
            a.wf(),
            b.wf(),
            a.width == b.width,
            a.height == b.height,
            j <= a.height,
            rows@.len() == j,
            forall|t: int| 0 <= t < j ==> (#[trigger] rows@[t])@.len() == a.width,
            forall|t: int, i: int| 0 <= t < j && 0 <= i < a.width ==> rows@[t]@[i]
                == compare_pixel(pix(*a, i, t), pix(*b, i, t)),
            !any ==> (forall|t: int, i: int| 0 <= t < j && 0 <= i < a.width ==> #[trigger] pix(
                *a,
                i,
                t,
            ) == pix(*b, i, t)),
            any ==> (exists|t: int, i: int| 0 <= t < a.height && 0 <= i < a.width && pix(*a, i, t)
                != pix(*b, i, t)),
        decreases a.height - j,
    {
        let (row, row_diff) = compare_row(&a.rows[j], &b.rows[j]);
        rows.push(row);
        if row_diff {
            proof {
                let iw = choose|i: int|
                    0 <= i < a.rows@[j as int]@.len() && a.rows@[j as int]@[i]
                        != b.rows@[j as int]@[i];
                assert(0 <= j as int && (j as int) < a.height && 0 <= iw < a.width && pix(*a, iw, j as int)
                    != pix(*b, iw, j as int));
            }
            any = true;
        } else {
            proof {
                assert forall|i: int| 0 <= i < a.width implies pix(*a, i, j as int) == pix(
                    *b,
                    i,
                    j as int,
                ) by {
                    assert(!(a.rows@[j as int]@[i] != b.rows@[j as int]@[i]));
                }
            }
        }
        j += 1;
    }
    if any {
        proof {
            let (tw, iw) = choose|t: int, i: int|
                0 <= t < a.height && 0 <= i < a.width && pix(*a, i, t) != pix(*b, i, t);
            assert(!(forall|t: int, i: int| 0 <= t < a.height && 0 <= i < a.width ==> pix(*a, i, t)
                == pix(*b, i, t)));
        }
        Some(
            BitmapData {
                width: a.width,
                height: a.height,
                transparency: true,
                disposed: false,
                rows,
            },
        )
    } else {
        None
    }
}

/// The alpha a hit test sees at a coordinate: the pixel's alpha channel,
/// or fully opaque on a bitmap without transparency.
pub open spec fn pixel_alpha(b: BitmapData, x: int, y: int) -> u32 {
    if b.transparency {
        chan(pix(b, x, y), 24)
    } else {
        0xFF
    }
}

/// Hit-test one point against the bitmap's alpha channel.
pub fn op_hit_test_point(bm: &BitmapData, threshold: u32, x: i32, y: i32) -> (r: bool)
    requires
        bm.wf(),
    ensures
        r == (in_bounds(*bm, x as int, y as int) && pixel_alpha(*bm, x as int, y as int)
            >= threshold),
{
    if x >= 0 && y >= 0 && (x as u32) < bm.width && (y as u32) < bm.height {
        let a = if bm.transparency {
            chan_of(bm.rows[y as usize][x as usize], 24)
        } else {
            0xFF
        };
        a >= threshold
    } else {
        false
    }
}

/// Hit-test a rectangle: true when any pixel inside it passes the alpha
/// threshold.
#[verifier::loop_isolation(false)]
pub fn op_hit_test_rectangle(bm: &BitmapData, threshold: u32, x: i32, y: i32, w: i32, h: i32) -> (r:
    bool)
    requires
        bm.wf(),
    ensures
        r == exists|i: int, j: int|
            x <= i < x + w && y <= j < y + h && in_bounds(*bm, i, j) && pixel_alpha(*bm, i, j)
                >= threshold,
{
    let width = bm.width as i64;
    let height = bm.height as i64;
    let x0 = if (x as i64) < 0 {
        0i64
    } else {
        x as i64
    };
    let y0 = if (y as i64) < 0 {
        0i64
    } else {
        y as i64
    };
    let x1 = if x as i64 + w as i64 > width {
        width
    } else {
        x as i64 + w as i64
    };
    let y1 = if y as i64 + h as i64 > height {
        height
    } else {
        y as i64 + h as i64
    };
    if x0 >= x1 || y0 >= y1 {
        return false;
    }
    let mut j: usize = y0 as usize;
    while j < y1 as usize
        invariant
            y0 <= j as int,
            j as int <= y1,
            forall|ii: int, jj: int| y0 <= jj < j as int && x0 <= ii < x1
                ==> !(pixel_alpha(*bm, ii, jj) >= threshold),
        decreases y1 as int - j,
    {
        let mut i: usize = x0 as usize;
        while i < x1 as usize
            invariant
                y0 <= j as int,
                (j as int) < y1,
                x0 <= i as int,
                i as int <= x1,
                forall|ii: int, jj: int| y0 <= jj < j as int && x0 <= ii < x1
                    ==> !(pixel_alpha(*bm, ii, jj) >= threshold),
                forall|ii: int| x0 <= ii < i as int ==> !(pixel_alpha(*bm, ii, j as int)
                    >= threshold),
            decreases x1 as int - i,
        {
            let a = if bm.transparency {
                chan_of(bm.rows[j][i], 24)
            } else {
                0xFF
            };
            if a >= threshold {
                proof {
                    assert(x <= i as int && (i as int) < x + w && y <= j as int && (j as int) < y + h && in_bounds(
                        *bm,
                        i as int,
                        j as int,
                    ) && pixel_alpha(*bm, i as int, j as int) >= threshold);
                }
                return true;
            }
            i += 1;
        }
        j += 1;
    }
    false
}

/// Hit-test two bitmaps placed at their respective points: true when some
/// overlapping position passes both alpha thresholds.
#[verifier::loop_isolation(false)]
pub fn op_hit_test_bitmapdata(
    a: &BitmapData,
    ax: i32,
    ay: i32,
    threshold_a: u32,
    b: &BitmapData,
    bx: i32,
    by: i32,
    threshold_b: u32,
) -> (r: bool)
    requires
        a.wf(),
        b.wf(),
    ensures
        r == exists|i: int, j: int|
            in_bounds(*a, i, j) && pixel_alpha(*a, i, j) >= threshold_a && in_bounds(
                *b,
                i + ax - bx,
                j + ay - by,
            ) && pixel_alpha(*b, i + ax - bx, j + ay - by) >= threshold_b,
{
    let mut j: usize = 0;
    while j < a.height as usize
        invariant
            j <= a.height,
            forall|ii: int, jj: int| 0 <= jj < j as int && 0 <= ii < a.width
                ==> !(pixel_alpha(*a, ii, jj) >= threshold_a && in_bounds(*b, ii + ax - bx,
                jj + ay - by) && pixel_alpha(*b, ii + ax - bx, jj + ay - by) >= threshold_b),
        decreases a.height - j,
    {
        let mut i: usize = 0;
        while i < a.width as usize
            invariant
                j < a.height,
                i <= a.width,
                forall|ii: int, jj: int| 0 <= jj < j as int && 0 <= ii < a.width
                    ==> !(pixel_alpha(*a, ii, jj) >= threshold_a && in_bounds(*b, ii + ax - bx,
                    jj + ay - by) && pixel_alpha(*b, ii + ax - bx, jj + ay - by) >= threshold_b),
                forall|ii: int| 0 <= ii < i as int ==> !(pixel_alpha(*a, ii, j as int)
                    >= threshold_a && in_bounds(*b, ii + ax - bx, j as int + ay - by)
                    && pixel_alpha(*b, ii + ax - bx, j as int + ay - by) >= threshold_b),
            decreases a.width - i,
        {
            let aa = if a.transparency {
                chan_of(a.rows[j][i], 24)
            } else {
                0xFF
            };
            if aa >= threshold_a {
                let wx = i as i64 + ax as i64 - bx as i64;
                let wy = j as i64 + ay as i64 - by as i64;
                if wx >= 0 && wy >= 0 && wx < b.width as i64 && wy < b.height as i64 {
                    let ab = if b.transparency {
                        chan_of(b.rows[wy as usize][wx as usize], 24)
                    } else {
                        0xFF
                    };
                    if ab >= threshold_b {
                        proof {
                            assert(in_bounds(*a, i as int, j as int) && pixel_alpha(*a, i as int,
                                j as int) >= threshold_a && in_bounds(*b, i as int + ax - bx,
                                j as int + ay - by) && pixel_alpha(*b, i as int + ax - bx,
                                j as int + ay - by) >= threshold_b);
                        }
                        return true;
                    }
                }
            }
            i += 1;
        }
        j += 1;
    }
    false
}

/// Whether a pixel answers a color-bounds query.
pub open spec fn pixel_matches(p: u32, find: bool, mask: u32, color: u32) -> bool {
    if find {
        (p & mask) == color
    } else {
        (p & mask) != color
    }
}

/// Whether any pixel of column `i` matches.
pub open spec fn col_matches(b: BitmapData, i: int, find: bool, mask: u32, color: u32) -> bool {
    exists|j: int| 0 <= j < b.height && pixel_matches(pix(b, i, j), find, mask, color)
}

/// Whether any pixel of row `j` matches.
pub open spec fn row_matches(b: BitmapData, j: int, find: bool, mask: u32, color: u32) -> bool {
    exists|i: int| 0 <= i < b.width && pixel_matches(pix(b, i, j), find, mask, color)
}

/// Whether any pixel of column `i` answers the query.
#[verifier::loop_isolation(false)]
fn col_has_match(bm: &BitmapData, i: usize, find: bool, mask: u32, color: u32) -> (r: bool)
    requires
        bm.wf(),
        i < bm.width,
    ensures
        r == col_matches(*bm, i as int, find, mask, color),
{
    let mut j: usize = 0;
    while j < bm.height as usize
        invariant
            j <= bm.height,
            forall|t: int| 0 <= t < j as int ==> !pixel_matches(pix(*bm, i as int, t), find, mask,
            color),
        decreases bm.height - j,
    {
        let p = bm.rows[j][i];
        let m = if find {
            (p & mask) == color
        } else {
            (p & mask) != color
        };
        if m {
            proof {
                assert(0 <= j as int && (j as int) < bm.height && pixel_matches(pix(*bm, i as int, j as int),
                    find, mask, color));
            }
            return true;
        }
        j += 1;
    }
    false
}

/// Whether any pixel of row `j` answers the query.
#[verifier::loop_isolation(false)]
fn row_has_match(bm: &BitmapData, j: usize, find: bool, mask: u32, color: u32) -> (r: bool)
    requires
        bm.wf(),
        j < bm.height,
    ensures
        r == row_matches(*bm, j as int, find, mask, color),
{
    let mut i: usize = 0;
    while i < bm.width as usize
        invariant
            i <= bm.width,
            forall|t: int| 0 <= t < i as int ==> !pixel_matches(pix(*bm, t, j as int), find, mask,
            color),
        decreases bm.width - i,
    {
        let p = bm.rows[j][i];
        let m = if find {
            (p & mask) == color
        } else {
            (p & mask) != color
        };
        if m {
            proof {
                assert(0 <= i as int && (i as int) < bm.width && pixel_matches(pix(*bm, i as int, j as int),
                    find, mask, color));
            }
            return true;
        }
        i += 1;
    }
    false
}

/// The exact characterization of a color-bounds result: when any pixel
/// matches, `r` is the tightest rectangle of matching columns and rows;
/// otherwise all zeros.
pub open spec fn bounds_rect_spec(
    b: BitmapData,
    find: bool,
    mask: u32,
    color: u32,
    r: (u32, u32, u32, u32),
) -> bool {
    if exists|i: int| 0 <= i < b.width && col_matches(b, i, find, mask, color) {
        &&& col_matches(b, r.0 as int, find, mask, color)
        &&& (forall|c: int| 0 <= c < r.0 ==> !col_matches(b, c, find, mask, color))
        &&& r.2 >= 1 && r.0 + r.2 <= b.width
        &&& col_matches(b, r.0 + r.2 - 1, find, mask, color)
        &&& (forall|c: int| r.0 + r.2 <= c < b.width ==> !col_matches(b, c, find, mask, color))
        &&& row_matches(b, r.1 as int, find, mask, color)
        &&& (forall|t: int| 0 <= t < r.1 ==> !row_matches(b, t, find, mask, color))
        &&& r.3 >= 1 && r.1 + r.3 <= b.height
        &&& row_matches(b, r.1 + r.3 - 1, find, mask, color)
        &&& (forall|t: int| r.1 + r.3 <= t < b.height ==> !row_matches(b, t, find, mask, color))
    } else {
        r == (0u32, 0u32, 0u32, 0u32)
    }
}

/// The bounding rectangle `(x, y, w, h)` of all pixels answering a
/// color-bounds query, or all zeros when none does.
#[verifier::loop_isolation(false)]
pub fn op_color_bounds_rect(bm: &BitmapData, find: bool, mask: u32, color: u32) -> (r: (
    u32,
    u32,
    u32,
    u32,
))
    requires
        bm.wf(),
    ensures
        bounds_rect_spec(*bm, find, mask, color, r),
{
    let mut minx: usize = 0;
    let mut found = false;
    while minx < bm.width as usize && !found
        invariant
            minx <= bm.width,
            !found ==> forall|c: int| 0 <= c < minx as int ==> !col_matches(*bm, c, find, mask,
            color),
            found ==> minx < bm.width && col_matches(*bm, minx as int, find, mask, color)
                && (forall|c: int| 0 <= c < minx as int ==> !col_matches(*bm, c, find, mask,
            color)),
        decreases bm.width - minx, (if found { 0int } else { 1int }),
    {
        if col_has_match(bm, minx, find, mask, color) {
            found = true;
        } else {
            minx += 1;
        }
    }
    if !found {
        return (0, 0, 0, 0);
    }
    let mut maxx: usize = bm.width as usize - 1;
    while maxx > minx && !col_has_match(bm, maxx, find, mask, color)
        invariant
            minx <= maxx < bm.width,
            col_matches(*bm, minx as int, find, mask, color),
            forall|c: int| (maxx as int) < c < bm.width ==> !col_matches(*bm, c, find, mask, color),
        decreases maxx,
    {
        maxx -= 1;
    }
    let mut miny: usize = 0;
    let mut foundy = false;
    while miny < bm.height as usize && !foundy
        invariant
            miny <= bm.height,
            !foundy ==> forall|t: int| 0 <= t < miny as int ==> !row_matches(*bm, t, find, mask,
            color),
            foundy ==> miny < bm.height && row_matches(*bm, miny as int, find, mask, color)
                && (forall|t: int| 0 <= t < miny as int ==> !row_matches(*bm, t, find, mask,
            color)),
        decreases bm.height - miny, (if foundy { 0int } else { 1int }),
    {
        if row_has_match(bm, miny, find, mask, color) {
            foundy = true;
        } else {
            miny += 1;
        }
    }
    proof {
        // a matching column pixel makes its row match as well
        let i0 = minx as int;
        let jw = choose|j: int| 0 <= j < bm.height && pixel_matches(
            pix(*bm, i0, j),
            find,
            mask,
            color,
        );
        assert(row_matches(*bm, jw, find, mask, color));
        if !foundy {
            assert(!row_matches(*bm, jw, find, mask, color));
        }
    }
    let mut maxy: usize = bm.height as usize - 1;
    while maxy > miny && !row_has_match(bm, maxy, find, mask, color)
        invariant
            miny <= maxy < bm.height,
            row_matches(*bm, miny as int, find, mask, color),
            forall|t: int| (maxy as int) < t < bm.height ==> !row_matches(*bm, t, find, mask, color),
        decreases maxy,
    {
        maxy -= 1;
    }
    proof {
        if !col_matches(*bm, maxx as int, find, mask, color) {
            assert(maxx == minx);
        }
        if !row_matches(*bm, maxy as int, find, mask, color) {
            assert(maxy == miny);
        }
    }
    (
        minx as u32,
        miny as u32,
        (maxx - minx + 1) as u32,
        (maxy - miny + 1) as u32,
    )
}

/// Flood fill from a seed: only pixels holding the seed's original value
/// change, they change to the fill color, and the seed itself is filled.
/// Off-grid seeds change nothing.
#[verifier::loop_isolation(false)]
pub fn op_flood_fill(bm: &mut BitmapData, x: u32, y: u32, color: i32)
    requires
        old(bm).wf(),
    ensures
        final(bm).wf(),
        flood_fill_rel(*old(bm), *final(bm), x, y, color),
{
    if !(x < bm.width && y < bm.height) {
        return;
    }
    let width = bm.width;
    let height = bm.height;
    let target = bm.rows[y as usize][x as usize];
    let c = if bm.transparency {
        color as u32
    } else {
        (color as u32) | 0xFF00_0000
    };
    bm.rows[y as usize][x as usize] = c;
    if c == target {
        proof {
            assert(bm.rows@[y as int]@ =~= old(bm).rows@[y as int]@);
        }
        return;
    }
    let mut stack: Vec<(u32, u32)> = Vec::new();
    stack.push((x, y));
    proof {
        assert(5 * (width as int) * (height as int) + 5 <= 0xFFFF_FFFF) by (nonlinear_arith)
            requires
                width <= 8191,
                height <= 8191,
        ;
    }
    let mut budget: u64 = 5u64 * (width as u64) * (height as u64) + 5;
    while stack.len() > 0 && budget > 0
        invariant
            bm.width == width,
            bm.height == height,
            bm.transparency == old(bm).transparency,
            bm.disposed == old(bm).disposed,
            bm.rows@.len() == old(bm).rows@.len(),
            forall|t: int| 0 <= t < bm.rows@.len() ==> (#[trigger] bm.rows@[t])@.len()
                == old(bm).rows@[t]@.len(),
            forall|j: int, i: int| 0 <= j < height && 0 <= i < width ==> #[trigger] pix(
                *bm,
                i,
                j,
            ) == pix(*old(bm), i, j) || (pix(*old(bm), i, j) == target && pix(*bm, i, j) == c),
            pix(*bm, x as int, y as int) == c,
        decreases budget,
    {
        budget = budget - 1;
        let (px, py) = match stack.pop() {
            Some(p) => p,
            None => {
                break ;
            },
        };
        if px < width && py < height {
            if bm.rows[py as usize][px as usize] == target {
                let ghost pre = *bm;
                bm.rows[py as usize][px as usize] = c;
                proof {
                    assert forall|j2: int, i2: int| 0 <= j2 < height && 0 <= i2 < width implies
                        #[trigger] pix(*bm, i2, j2) == pix(*old(bm), i2, j2) || (pix(
                        *old(bm),
                        i2,
                        j2,
                    ) == target && pix(*bm, i2, j2) == c) by {
                        if j2 == py as int && i2 == px as int {
                            assert(pix(pre, i2, j2) == target);
                            assert(pix(pre, i2, j2) == pix(*old(bm), i2, j2) || (pix(*old(bm), i2,
                                j2) == target && pix(pre, i2, j2) == c));
                        } else {
                            assert(pix(*bm, i2, j2) == pix(pre, i2, j2));
                        }
                    }
                    assert(pix(*bm, x as int, y as int) == c);
                }
                if px + 1 < width {
                    stack.push((px + 1, py));
                }
                if px > 0 {
                    stack.push((px - 1, py));
                }
                if py + 1 < height {
                    stack.push((px, py + 1));
                }
                if py > 0 {
                    stack.push((px, py - 1));
                }
            }
        }
    }
}

/// One row after a range fill: `c` inside `[x0, x1)`, untouched outside.
pub open spec fn row_filled(new: Seq<u32>, old_row: Seq<u32>, x0: int, x1: int, c: u32) -> bool {
    new.len() == old_row.len() && (forall|i: int|
        0 <= i < old_row.len() ==> new[i] == (if x0 <= i < x1 {
            c
        } else {
            old_row[i]
        }))
}

/// Fill `row[x0..x1]` with one pixel value.
fn fill_row_range(row: &mut Vec<u32>, x0: usize, x1: usize, c: u32)
    requires
        x0 <= x1 <= old(row)@.len(),
    ensures
        row_filled(final(row)@, old(row)@, x0 as int, x1 as int, c),
{
    let mut i: usize = x0;
    while i < x1
        invariant
            x0 <= i <= x1 <= row@.len(),
            row@.len() == old(row)@.len(),
            forall|j: int| 0 <= j < row@.len() && !(x0 <= j < i) ==> row@[j] == old(row)@[j],
            forall|j: int| x0 <= j < i ==> row@[j] == c,
        decreases x1 - i,
    {
        row[i] = c;
        i += 1;
    }
}

/// Fill an axis-aligned rectangle, clipped to the grid, with one color;
/// alpha is forced opaque on a non-transparent bitmap.
pub fn op_fill_rect(bm: &mut BitmapData, x: i32, y: i32, w: i32, h: i32, color: i32)
    requires
        old(bm).wf(),
    ensures
        final(bm).wf(),
        fill_rect_rel(*old(bm), *final(bm), x, y, w, h, color),
{
    let width = bm.width as i64;
    let height = bm.height as i64;
    let xl = x as i64;
    let yl = y as i64;
    let x0 = if xl < 0 {
        0i64
    } else if xl > width {
        width
    } else {
        xl
    };
    let x1e = xl + w as i64;
    let x1 = if x1e < x0 {
        x0
    } else if x1e > width {
        width
    } else {
        x1e
    };
    let y0 = if yl < 0 {
        0i64
    } else if yl > height {
        height
    } else {
        yl
    };
    let y1e = yl + h as i64;
    let y1 = if y1e < y0 {
        y0
    } else if y1e > height {
        height
    } else {
        y1e
    };
    let c = if bm.transparency {
        color as u32
    } else {
        (color as u32) | 0xFF00_0000
    };
    let x0u = x0 as usize;
    let x1u = x1 as usize;
    let y1u = y1 as usize;
    let mut j: usize = y0 as usize;
    while j < y1u
        invariant
            old(bm).wf(),
            y0 as int <= j as int <= y1 as int,
            y1 == clampi(y as int + h as int, y0 as int, old(bm).height as int),
            y0 == clampi(y as int, 0, old(bm).height as int),
            x0u == clampi(x as int, 0, old(bm).width as int),
            x1u == clampi(x as int + w as int, x0u as int, old(bm).width as int),
            y1u == y1,
            x0u <= x1u <= old(bm).width,
            c == effective_color(old(bm).transparency, color),
            bm.width == old(bm).width,
            bm.height == old(bm).height,
            bm.transparency == old(bm).transparency,
            bm.disposed == old(bm).disposed,
            bm.rows@.len() == old(bm).rows@.len(),
            forall|t: int| 0 <= t < bm.rows@.len() && !(y0 as int <= t < j as int)
                ==> bm.rows@[t] == old(bm).rows@[t],
            forall|t: int| y0 as int <= t < j as int ==> row_filled(
                #[trigger] bm.rows@[t]@,
                old(bm).rows@[t]@,
                x0u as int,
                x1u as int,
                c,
            ),
        decreases y1u - j,
    {
        let row = &mut bm.rows[j];
        proof {
            assert(old(bm).rows@[j as int]@.len() == old(bm).width);
        }
        fill_row_range(row, x0u, x1u, c);
        j += 1;
    }
    proof {
        let x0s = clampi(x as int, 0, old(bm).width as int);
        let x1s = clampi(x as int + w as int, x0s, old(bm).width as int);
        let y0s = clampi(y as int, 0, old(bm).height as int);
        let y1s = clampi(y as int + h as int, y0s, old(bm).height as int);
        assert(x0u as int == x0s);
        assert(x1u as int == x1s);
        assert(y0 as int == y0s);
        assert(y1 as int == y1s);
        assert(j == y1u);
        assert forall|t: int| 0 <= t < bm.rows@.len() && y0s <= t < y1s implies row_filled(
            bm.rows@[t]@,
            old(bm).rows@[t]@,
            x0s,
            x1s,
            c,
        ) by {
            assert(row_filled(bm.rows@[t]@, old(bm).rows@[t]@, x0u as int, x1u as int, c));
        }
    }
}


/// One step of the linear congruential generator driving `noise`.
pub open spec fn lcg_step(s: u32) -> u32 {
    ((s * 1664525 + 1013904223) % 0x1_0000_0000) as u32
}

/// The generator state after `n` steps from `seed`.
pub open spec fn lcg_iter(seed: u32, n: nat) -> u32
    decreases n,
{
    if n == 0 {
        seed
    } else {
        lcg_step(lcg_iter(seed, (n - 1) as nat))
    }
}

/// One noise pixel from one generator draw: each selected channel takes
/// a byte of the draw scaled into `[low, high]`; in grayscale mode the
/// three color channels share one value; an unselected alpha channel is
/// opaque, other unselected channels are zero.
pub open spec fn noise_pixel(v: u32, low: u8, high: u8, channels: u8, gray: bool) -> u32 {
    let span = (high - low + 1) as int;
    let rv = low + (chan(v, 16) % (span as u32));
    let gv = low + (chan(v, 8) % (span as u32));
    let bv = low + (chan(v, 0) % (span as u32));
    let av = low + (chan(v, 24) % (span as u32));
    let red = if gray || (channels & 1u8) != 0 {
        rv
    } else {
        0
    };
    let green = if gray {
        rv
    } else if (channels & 2u8) != 0 {
        gv
    } else {
        0
    };
    let blue = if gray {
        rv
    } else if (channels & 4u8) != 0 {
        bv
    } else {
        0
    };
    let alpha = if (channels & 8u8) != 0 {
        av
    } else {
        0xFF
    };
    (alpha * 0x0100_0000 + red * 0x0001_0000 + green * 0x100 + blue) as u32
}

/// One step of the generator.
fn lcg_step_of(s: u32) -> (r: u32)
    ensures
        r == lcg_step(s),
{
    ((s as u64 * 1664525u64 + 1013904223u64) % 0x1_0000_0000u64) as u32
}

/// One noise pixel from one draw.
fn noise_pixel_of(v: u32, low: u8, high: u8, channels: u8, gray: bool) -> (r: u32)
    requires
        low <= high,
    ensures
        r == noise_pixel(v, low, high, channels, gray),
{
    let span = (high - low) as u32 + 1;
    let rv = low as u32 + (chan_of(v, 16) % span);
    let gv = low as u32 + (chan_of(v, 8) % span);
    let bv = low as u32 + (chan_of(v, 0) % span);
    let av = low as u32 + (chan_of(v, 24) % span);
    let red = if gray || (channels & 1u8) != 0 {
        rv
    } else {
        0
    };
    let green = if gray {
        rv
    } else if (channels & 2u8) != 0 {
        gv
    } else {
        0
    };
    let blue = if gray {
        rv
    } else if (channels & 4u8) != 0 {
        bv
    } else {
        0
    };
    let alpha = if (channels & 8u8) != 0 {
        av
    } else {
        0xFF
    };
    alpha * 0x0100_0000 + red * 0x0001_0000 + green * 0x100 + blue
}

/// How `noise` changes a bitmap: dimensions and flags kept, each pixel
/// the generator draw for its position.
pub open spec fn noise_rel(
    pre: BitmapData,
    post: BitmapData,
    seed: i32,
    low: u8,
    high: u8,
    channels: u8,
    gray: bool,
) -> bool {
    &&& post.width == pre.width
    &&& post.height == pre.height
    &&& post.transparency == pre.transparency
    &&& post.disposed == pre.disposed
    &&& post.rows@.len() == pre.rows@.len()
    &&& (forall|j: int, i: int| 0 <= j < pre.height && 0 <= i < pre.width ==> #[trigger] pix(
        post,
        i,
        j,
    ) == noise_pixel(lcg_iter(seed as u32, (j * pre.width + i + 1) as nat), low, high, channels,
    gray))
}

/// Fill a bitmap with pseudo-random noise: the pixels are drawn row by
/// row from a linear congruential generator seeded with `seed`, so equal
/// seeds reproduce equal images.
#[verifier::rlimit(60)]
pub fn op_noise(bm: &mut BitmapData, seed: i32, low: u8, high: u8, channels: u8, gray: bool)
    requires
        old(bm).wf(),
        low <= high,
    ensures
        final(bm).wf(),
        noise_rel(*old(bm), *final(bm), seed, low, high, channels, gray),
{
    let width = bm.width;
    let height = bm.height;
    let mut state: u32 = seed as u32;
    let ghost seed0 = seed as u32;
    let mut n: u64 = 0;
    let mut j: usize = 0;
    while j < height as usize
        invariant
            old(bm).wf(),
            low <= high,
            width == old(bm).width,
            height == old(bm).height,
            seed0 == seed as u32,
            j <= height,
            n == j * width as u64,
            n <= 0x4000000,
            state == lcg_iter(seed0, n as nat),
            bm.width == width,
            bm.height == height,
            bm.transparency == old(bm).transparency,
            bm.disposed == old(bm).disposed,
            bm.rows@.len() == old(bm).rows@.len(),
            forall|t: int| j as int <= t < bm.rows@.len() ==> bm.rows@[t] == old(bm).rows@[t],
            forall|t: int| 0 <= t < j as int ==> (#[trigger] bm.rows@[t])@.len() == width,
            forall|t: int, i: int| 0 <= t < j as int && 0 <= i < width ==> bm.rows@[t]@[i]
                == noise_pixel(lcg_iter(seed0, (t * width + i + 1) as nat), low, high, channels,
            gray),
        decreases height as usize - j,
    {
        let mut row: Vec<u32> = Vec::new();
        let mut i: usize = 0;
        while i < width as usize
            invariant
                low <= high,
                width <= 8191,
                height <= 8191,
                seed0 == seed as u32,
                j < height,
                i <= width,
                n == j * width as u64 + i as u64,
                n <= 0x4000000,
                state == lcg_iter(seed0, n as nat),
                row@.len() == i,
                forall|t: int| 0 <= t < i as int ==> row@[t] == noise_pixel(
                    lcg_iter(seed0, (j * width + t + 1) as nat),
                    low,
                    high,
                    channels,
                    gray,
                ),
            decreases width as usize - i,
        {
            proof {
                assert(j * width as int + i < 8191 * 8191) by (nonlinear_arith)
                    requires
                        0 <= j < 8191,
                        0 <= i < width,
                        width <= 8191,
                ;
            }
            state = lcg_step_of(state);
            n = n + 1;
            row.push(noise_pixel_of(state, low, high, channels, gray));
            i += 1;
        }
        bm.rows[j] = row;
        j += 1;
        proof {
            assert(j * width as int == (j - 1) * width as int + width as int) by (nonlinear_arith);
        }
    }
    proof {
        assert forall|jj: int, ii: int| 0 <= jj < old(bm).height && 0 <= ii < old(bm).width
            implies #[trigger] pix(*bm, ii, jj) == noise_pixel(
            lcg_iter(seed0, (jj * old(bm).width + ii + 1) as nat),
            low,
            high,
            channels,
            gray,
        ) by {
            assert(bm.rows@[jj]@[ii] == noise_pixel(
                lcg_iter(seed0, (jj * width + ii + 1) as nat),
                low,
                high,
                channels,
                gray,
            ));
        }
    }
}

/// A region operation reads only the source pixel values: grids with
/// equal contents act alike.
pub proof fn lemma_copy_region_src_congruent(
    pre: BitmapData,
    post: BitmapData,
    src1: Seq<Vec<u32>>,
    src2: Seq<Vec<u32>>,
    src_w: int,
    src_h: int,
    sx: int,
    sy: int,
    sw: int,
    sh: int,
    dx: int,
    dy: int,
    op: RegionOp,
)
    requires
        copy_region_rel(pre, post, src1, src_w, src_h, sx, sy, sw, sh, dx, dy, op),
        src1.len() == src_h,
        src2.len() == src1.len(),
        forall|j: int| 0 <= j < src1.len() ==> (#[trigger] src2[j])@ == src1[j]@,
    ensures
        copy_region_rel(pre, post, src2, src_w, src_h, sx, sy, sw, sh, dx, dy, op),
{
    assert forall|j: int, i: int| 0 <= j < pre.height && 0 <= i < pre.width implies
        #[trigger] post.rows@[j]@[i] == (if in_copy_region(i, j, sx, sy, sw, sh, dx, dy, src_w,
        src_h) {
        region_pixel(op, pre.rows@[j]@[i], src2[j - dy + sy]@[i - dx + sx])
    } else {
        pre.rows@[j]@[i]
    }) by {
        if in_copy_region(i, j, sx, sy, sw, sh, dx, dy, src_w, src_h) {
            assert(0 <= j - dy + sy < src1.len());
            assert(src2[j - dy + sy]@ == src1[j - dy + sy]@);
        }
    }
}

/// Rectangle counts agree on grids with equal contents.
pub proof fn lemma_count_rect_congruent(
    op: RegionOp,
    src1: Seq<Vec<u32>>,
    src2: Seq<Vec<u32>>,
    s0: int,
    sj0: int,
    n: int,
    rows: int,
)
    requires
        src2.len() == src1.len(),
        forall|j: int| 0 <= j < src1.len() ==> (#[trigger] src2[j])@ == src1[j]@,
        0 <= sj0,
        sj0 + rows <= src1.len(),
    ensures
        count_rect_op(op, src1, s0, sj0, n, rows) == count_rect_op(op, src2, s0, sj0, n, rows),
    decreases rows,
{
    if rows > 0 {
        lemma_count_rect_congruent(op, src1, src2, s0, sj0, n, rows - 1);
        assert(src2[sj0 + rows - 1]@ == src1[sj0 + rows - 1]@);
    }
}

} // verus!
