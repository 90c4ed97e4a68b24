//! Drawing: which sheep are on an output, and what its pixels then look like.
//!
//! The sheep exist in a single global coordinate space spanning every monitor;
//! each panel draws whichever of them overlap its own output, so a sheep
//! crossing the seam is simply drawn on both.

use vstd::prelude::*;

use crate::fixed::{quotient_of, Fixed, UNIT};
use crate::number::{clamped, one, ratio, zero, Number};
use crate::sheep::Sheep;
use crate::sprites::Sheet;

verus! {

/// One output's overlay surface.
#[derive(Debug)]
pub struct Panel<N> {
    /// Logical size, as configured by the compositor.
    pub width: u32,
    pub height: u32,
    /// Output scale; the buffer is this many times larger.
    pub scale: u32,
    /// Global logical position of this output's top-left corner.
    pub origin: (N, N),
}

/// How the sprites are cut out of the sheet and how big they are drawn.
#[derive(Debug)]
pub struct Cut<N> {
    /// Size of one tile in the sheet. Tiles are not always a whole number of
    /// pixels, so the sheet is sampled at the exact fraction.
    pub src_w: N,
    pub src_h: N,
    /// Size the sprite is drawn at, in logical pixels: the tile times the
    /// configured scale. This is the sheep's size as far as everything else
    /// is concerned - collision, hit-testing and the input region.
    pub tile: N,
    /// How many tiles a row of the sheet has.
    pub tiles_x: u32,
}

impl<N: Number> Cut<N> {
    /// How a sheet of so many tiles each way is cut up for sheep of this
    /// scale. A sheet that declares none is taken for one tile.
    #[verifier::allow_in_spec]
    pub fn new(width: u32, height: u32, tiles_x: u32, tiles_y: u32, scale: N) -> Cut<N>
        returns
            ({
                let src_w = share::<N>(width, tiles_x);
                Cut {
                    src_w,
                    src_h: share(height, tiles_y),
                    tile: src_w.times(scale),
                    tiles_x,
                }
            }),
    {
        let src_w: N = share(width, tiles_x);
        Cut { src_w, src_h: share(height, tiles_y), tile: src_w.times(scale), tiles_x }
    }
}

/// How long one of `tiles` along a side is; no tiles at all count as one.
#[verifier::allow_in_spec]
pub fn share<N: Number>(side: u32, tiles: u32) -> N
    returns
        ratio::<N>(
            side as i64,
            if tiles < 1 {
                1i64
            } else {
                tiles as i64
            },
        ),
{
    ratio(
        side as i64,
        if tiles < 1 {
            1
        } else {
            tiles as i64
        },
    )
}

/// The whole part of a number, held within 32 bits.
#[verifier::allow_in_spec]
pub fn to_i32<N: Number>(x: N) -> i32
    returns
        ({
            let v = x.to_i64();
            if v < i32::MIN {
                i32::MIN
            } else if v > i32::MAX {
                i32::MAX
            } else {
                v as i32
            }
        }),
{
    let v: i64 = x.to_i64();
    if v < i32::MIN as i64 {
        i32::MIN
    } else if v > i32::MAX as i64 {
        i32::MAX
    } else {
        v as i32
    }
}

/// The whole part of a number, held within 32 bits and not below zero.
#[verifier::allow_in_spec]
pub fn to_u32<N: Number>(x: N) -> u32
    returns
        ({
            let v = x.to_u64();
            if v > u32::MAX {
                u32::MAX
            } else {
                v as u32
            }
        }),
{
    let v: u64 = x.to_u64();
    if v > u32::MAX as u64 {
        u32::MAX
    } else {
        v as u32
    }
}

/// How many pixels of the sheet a tile of this size is taken from each way.
#[verifier::allow_in_spec]
pub fn tile_pixels<N: Number>(size: N) -> u32
    returns
        ({
            let n = to_u32(size.round());
            if n < 1 {
                1u32
            } else {
                n
            }
        }),
{
    let n: u32 = to_u32(size.round());
    if n < 1 {
        1
    } else {
        n
    }
}

/// Which of `src` source pixels the destination pixel `at` of `dst` takes its
/// colour from, sampling at the centre of the destination pixel so the mapping
/// is symmetric.
#[verifier::allow_in_spec]
pub fn sample<N: Number>(at: i64, dst: i64, src: u32) -> u32
    returns
        ({
            let i = to_u32(
                N::whole(at).plus(ratio::<N>(1, 2)).over(
                    N::whole(
                        if dst < 1 {
                            1i64
                        } else {
                            dst
                        },
                    ),
                ).times(N::whole(src as i64)),
            );
            let last = if src == 0 {
                0u32
            } else {
                (src - 1) as u32
            };
            if i < last {
                i
            } else {
                last
            }
        }),
{
    let across: i64 = if dst < 1 {
        1
    } else {
        dst
    };
    let i: u32 = to_u32(
        N::whole(at).plus(ratio::<N>(1, 2)).over(N::whole(across)).times(N::whole(src as i64)),
    );
    let last: u32 = if src == 0 {
        0
    } else {
        src - 1
    };
    if i < last {
        i
    } else {
        last
    }
}

/// Where a sheep is on a panel.
#[verifier::allow_in_spec]
pub fn place_on<N: Number>(s: &Sheep<N>, panel: &Panel<N>) -> (N, N)
    returns
        (
            s.x.minus(panel.origin.0),
            s.y.plus(s.offset_y).minus(panel.origin.1),
        ),
{
    (s.x.minus(panel.origin.0), s.y.plus(s.offset_y).minus(panel.origin.1))
}

/// Does any of the sheep show on the panel?
#[verifier::allow_in_spec]
pub fn shows_on<N: Number>(s: &Sheep<N>, panel: &Panel<N>, tile: N) -> bool
    returns
        ({
            let (lx, ly) = place_on(s, panel);
            !(lx.plus(tile).at_most(zero()) || ly.plus(tile).at_most(zero()) || N::whole(
                panel.width as i64,
            ).at_most(lx) || N::whole(panel.height as i64).at_most(ly))
        }),
{
    let (lx, ly) = place_on(s, panel);
    !(lx.plus(tile).at_most(zero()) || ly.plus(tile).at_most(zero()) || N::whole(
        panel.width as i64,
    ).at_most(lx) || N::whole(panel.height as i64).at_most(ly))
}

/// A sprite laid out on a panel's buffer.
#[derive(Debug)]
pub struct Stamp<N> {
    /// Where its top-left corner is, in device pixels.
    pub ox: i64,
    pub oy: i64,
    /// How many device pixels it covers each way: its drawn size times the
    /// output scale.
    pub dev: i64,
    /// How many pixels of the sheet it is taken from each way.
    pub src: u32,
    /// Where on the sheet they start.
    pub sx0: u32,
    pub sy0: u32,
    pub flipped: bool,
    pub alpha: N,
}

impl<N: Copy> Copy for Stamp<N> {

}

impl<N: Copy> Clone for Stamp<N> {
    fn clone(&self) -> (r: Self)
        ensures
            r == *self,
    {
        *self
    }
}

/// The sheep's sprite as laid out on a panel's buffer.
pub open spec fn stamp_of<N: Number>(s: Sheep<N>, panel: Panel<N>, cut: Cut<N>) -> Stamp<N> {
    let (lx, ly) = place_on(&s, &panel);
    let scale = panel.scale as int;
    Stamp {
        ox: (to_i32(lx.round()) * scale) as i64,
        oy: (to_i32(ly.round()) * scale) as i64,
        dev: (to_i32(cut.tile.round()) * scale) as i64,
        src: tile_pixels(cut.src_w),
        sx0: to_u32(N::whole((s.frame % cut.tiles_x) as i64).times(cut.src_w).round()),
        sy0: to_u32(N::whole((s.frame / cut.tiles_x) as i64).times(cut.src_h).round()),
        flipped: s.flipped,
        alpha: clamped(s.opacity, zero(), one()),
    }
}

/// Lays a sheep's sprite out on a panel's buffer.
fn stamp<N: Number>(s: &Sheep<N>, panel: &Panel<N>, cut: &Cut<N>) -> (r: Stamp<N>)
    requires
        cut.tiles_x > 0,
    ensures
        r == stamp_of(*s, *panel, *cut),
{
    let (lx, ly) = place_on(s, panel);
    let scale: i64 = panel.scale as i64;
    let x: i64 = to_i32(lx.round()) as i64;
    let y: i64 = to_i32(ly.round()) as i64;
    let size: i64 = to_i32(cut.tile.round()) as i64;
    assert(-0x8000_0000 * 0xffff_ffff <= x * scale <= 0x8000_0000 * 0xffff_ffff)
        by (nonlinear_arith)
        requires
            -0x8000_0000 <= x <= 0x7fff_ffff,
            0 <= scale <= 0xffff_ffff,
    ;
    assert(-0x8000_0000 * 0xffff_ffff <= y * scale <= 0x8000_0000 * 0xffff_ffff)
        by (nonlinear_arith)
        requires
            -0x8000_0000 <= y <= 0x7fff_ffff,
            0 <= scale <= 0xffff_ffff,
    ;
    assert(-0x8000_0000 * 0xffff_ffff <= size * scale <= 0x8000_0000 * 0xffff_ffff)
        by (nonlinear_arith)
        requires
            -0x8000_0000 <= size <= 0x7fff_ffff,
            0 <= scale <= 0xffff_ffff,
    ;
    Stamp {
        ox: x * scale,
        oy: y * scale,
        dev: size * scale,
        src: tile_pixels(cut.src_w),
        sx0: to_u32(N::whole((s.frame % cut.tiles_x) as i64).times(cut.src_w).round()),
        sy0: to_u32(N::whole((s.frame / cut.tiles_x) as i64).times(cut.src_h).round()),
        flipped: s.flipped,
        alpha: clamped(s.opacity, zero(), one()),
    }
}

/// A colour part with the alpha multiplied in.
#[verifier::allow_in_spec]
pub fn premultiplied(c: u8, a: u8) -> u8
    returns
        ((c as u32 * a as u32) as u32 / 255) as u8,
{
    assert(c as u32 * a as u32 <= 255 * 255) by (nonlinear_arith)
        requires
            c <= 255,
            a <= 255,
    ;
    ((c as u32 * a as u32) / 255) as u8
}

/// How solid a pixel is drawn: its own alpha times the sheep's.
#[verifier::allow_in_spec]
pub fn faded<N: Number>(a: u8, alpha: N) -> u8
    returns
        ({
            let v = N::whole(a as i64).times(alpha).to_u64();
            if v > 255 {
                255u8
            } else {
                v as u8
            }
        }),
{
    let v: u64 = N::whole(a as i64).times(alpha).to_u64();
    if v > 255 {
        255
    } else {
        v as u8
    }
}

/// A pixel in the compositor's layout: alpha, red, green and blue from the
/// highest byte down, with the alpha multiplied in.
#[verifier::allow_in_spec]
pub fn argb(r: u8, g: u8, b: u8, a: u8) -> u32
    returns
        (a as u32 * 0x100_0000 + premultiplied(r, a) as u32 * 0x1_0000 + premultiplied(g, a) as u32
            * 0x100 + premultiplied(b, a) as u32) as u32,
{
    a as u32 * 0x100_0000 + premultiplied(r, a) as u32 * 0x1_0000 + premultiplied(g, a) as u32
        * 0x100 + premultiplied(b, a) as u32
}

impl<N: Number> Stamp<N> {
    /// The column of the sheet a column of the sprite is taken from.
    pub open spec fn column(self, dx: int) -> int {
        let sx = sample::<N>(dx as i64, self.dev, self.src);
        self.sx0 + if self.flipped {
            self.src - 1 - sx
        } else {
            sx as int
        }
    }

    /// The row of the sheet a row of the sprite is taken from.
    pub open spec fn line(self, dy: int) -> int {
        self.sy0 + sample::<N>(dy as i64, self.dev, self.src)
    }

    /// Does the sprite reach the pixel?
    pub open spec fn reaches(self, px: int, py: int) -> bool {
        0 <= px - self.ox < self.dev && 0 <= py - self.oy < self.dev
    }

    /// What the sprite puts in a pixel of the buffer, if anything.
    pub open spec fn shade(self, sheet: Sheet, px: int, py: int) -> Option<u32> {
        if self.reaches(px, py) {
            let p = sheet.spec_pixel(self.column(px - self.ox), self.line(py - self.oy));
            let a = faded(p[3], self.alpha);
            if p[3] == 0 || a == 0 {
                None
            } else {
                Some(argb(p[0], p[1], p[2], a))
            }
        } else {
            None
        }
    }

    /// What the sprite puts in a pixel of its own.
    fn colour(&self, row: &[u8], sheet: &Sheet, dx: i64, dy: i64) -> (r: Option<u32>)
        requires
            sheet.wf(),
            0 <= dx < self.dev,
            0 <= dy < self.dev,
            self.src > 0,
            self.line(dy as int) >= sheet.height ==> row@.len() == 0,
            self.line(dy as int) < sheet.height ==> row@.len() == 4 * sheet.width && row@
                == sheet.pixels@.subrange(
                4 * (self.line(dy as int) * sheet.width),
                4 * (self.line(dy as int) * sheet.width) + 4 * sheet.width,
            ),
        ensures
            r == self.shade(*sheet, dx + self.ox, dy + self.oy),
    {
        let ghost y = self.line(dy as int);
        let sx: u32 = sample::<N>(dx, self.dev, self.src);
        // Flipping mirrors the sprite horizontally; the sheep's velocity is
        // mirrored to match.
        let sx: u32 = if self.flipped {
            self.src - 1 - sx
        } else {
            sx
        };
        let x: u64 = self.sx0 as u64 + sx as u64;
        assert(x == self.column(dx as int));
        if row.len() == 0 || x >= sheet.width as u64 {
            assert(sheet.spec_pixel(x as int, y)[3] == 0);
            return None;
        }
        let n: usize = row.len();
        assert(4 * x + 4 <= n);
        let i: usize = 4 * (x as usize);
        assert(sheet.spec_pixel(x as int, y) == row@.subrange(i as int, i + 4)) by {
            assert(4 * (y * sheet.width + x) == 4 * (y * sheet.width) + i);
            assert(4 * (y * sheet.width + x) + 4 <= sheet.pixels@.len() && 0 <= y * sheet.width)
                by (nonlinear_arith)
                requires
                    0 <= y < sheet.height,
                    0 <= x < sheet.width,
                    sheet.pixels@.len() == 4 * (sheet.width * sheet.height),
            ;
            assert(4 * (y * sheet.width) + 4 * sheet.width <= sheet.pixels@.len())
                by (nonlinear_arith)
                requires
                    0 <= y < sheet.height,
                    sheet.pixels@.len() == 4 * (sheet.width * sheet.height),
            ;
            assert(row@.subrange(i as int, i + 4) =~= sheet.pixels@.subrange(
                4 * (y * sheet.width) + i,
                4 * (y * sheet.width) + i + 4,
            ));
        }
        let (r, g, b, a) = (row[i], row[i + 1], row[i + 2], row[i + 3]);
        if a == 0 {
            return None;
        }
        let a: u8 = faded(a, self.alpha);
        if a == 0 {
            return None;
        }
        Some(argb(r, g, b, a))
    }
}

/// What a pixel of the buffer is after the first `n` sprites: the last of them
/// that puts anything there, else transparent.
pub open spec fn painted<N: Number>(
    stamps: Seq<Stamp<N>>,
    sheet: Sheet,
    n: int,
    px: int,
    py: int,
) -> u32
    decreases n,
{
    if 0 < n <= stamps.len() {
        match stamps[n - 1].shade(sheet, px, py) {
            Some(c) => c,
            None => painted(stamps, sheet, n - 1, px, py),
        }
    } else {
        0
    }
}

/// The sprites of the sheep from place `i` on that show on the panel.
pub open spec fn stamps_from<N: Number>(
    flock: Seq<Sheep<N>>,
    panel: Panel<N>,
    cut: Cut<N>,
    i: int,
) -> Seq<Stamp<N>>
    decreases flock.len() - i,
{
    if 0 <= i < flock.len() {
        if shows_on(&flock[i], &panel, cut.tile) {
            seq![stamp_of(flock[i], panel, cut)] + stamps_from(flock, panel, cut, i + 1)
        } else {
            stamps_from(flock, panel, cut, i + 1)
        }
    } else {
        seq![]
    }
}

/// Lays out the sprites that show on the panel.
fn lay_out<N: Number>(flock: &Vec<Sheep<N>>, panel: &Panel<N>, cut: &Cut<N>) -> (r: Vec<Stamp<N>>)
    requires
        cut.tiles_x > 0,
    ensures
        r@ == stamps_from(flock@, *panel, *cut, 0),
{
    let mut out: Vec<Stamp<N>> = Vec::new();
    let mut i: usize = 0;
    while i < flock.len()
        invariant
            i <= flock@.len(),
            cut.tiles_x > 0,
            stamps_from(flock@, *panel, *cut, 0) == out@ + stamps_from(
                flock@,
                *panel,
                *cut,
                i as int,
            ),
        decreases flock@.len() - i,
    {
        if shows_on(&flock[i], panel, cut.tile) {
            let ghost before = out@;
            let one = stamp(&flock[i], panel, cut);
            out.push(one);
            assert(before + (seq![one] + stamps_from(flock@, *panel, *cut, i + 1)) == out@
                + stamps_from(flock@, *panel, *cut, i + 1));
        }
        i = i + 1;
    }
    assert(out@ + stamps_from(flock@, *panel, *cut, i as int) == out@);
    out
}

/// Where in the buffer a pixel is.
pub open spec fn spot(px: int, py: int, bw: int) -> int {
    py * bw + px
}

proof fn lemma_spot(px: int, py: int, bw: int, bh: int)
    requires
        0 <= px < bw,
        0 <= py < bh,
    ensures
        0 <= spot(px, py, bw) < bw * bh,
{
    assert(0 <= py * bw + px < bw * bh) by (nonlinear_arith)
        requires
            0 <= px < bw,
            0 <= py < bh,
    ;
}

proof fn lemma_spots_differ(px: int, py: int, qx: int, qy: int, bw: int)
    requires
        0 <= px < bw,
        0 <= qx < bw,
        px != qx || py != qy,
    ensures
        spot(px, py, bw) != spot(qx, qy, bw),
{
    if py < qy {
        assert(py * bw + px < qy * bw + qx) by (nonlinear_arith)
            requires
                0 <= px < bw,
                0 <= qx < bw,
                py + 1 <= qy,
        ;
    } else if qy < py {
        assert(qy * bw + qx < py * bw + px) by (nonlinear_arith)
            requires
                0 <= px < bw,
                0 <= qx < bw,
                qy + 1 <= py,
        ;
    }
}

/// The first of `n` places that a stretch from `from` covers.
fn first_in(from: i64, n: i64) -> (r: i64)
    requires
        n >= 0,
    ensures
        0 <= r <= n,
        from <= r || r == n,
        r > 0 ==> r <= from,
{
    if from < 0 {
        0
    } else if from > n {
        n
    } else {
        from
    }
}

/// Paints one sprite over the buffer.
fn paint<N: Number>(
    canvas: &mut Vec<u32>,
    stamps: &Vec<Stamp<N>>,
    k: usize,
    sheet: &Sheet,
    bw: i64,
    bh: i64,
)
    requires
        k < stamps@.len(),
        stamps@[k as int].src > 0,
        sheet.wf(),
        0 <= bw <= i32::MAX,
        0 <= bh <= i32::MAX,
        old(canvas)@.len() == bw * bh,
        forall|x: int, y: int|
            0 <= x < bw && 0 <= y < bh ==> old(canvas)@[#[trigger] spot(x, y, bw as int)]
                == painted(stamps@, *sheet, k as int, x, y),
    ensures
        final(canvas)@.len() == bw * bh,
        forall|x: int, y: int|
            0 <= x < bw && 0 <= y < bh ==> final(canvas)@[#[trigger] spot(x, y, bw as int)]
                == painted(stamps@, *sheet, k + 1, x, y),
{
    let s: Stamp<N> = stamps[k];
    let x0: i64 = first_in(s.ox, bw);
    let mut py: i64 = first_in(s.oy, bh);
    assert forall|x: int, y: int| 0 <= x < bw && 0 <= y < py implies #[trigger] painted(
        stamps@,
        *sheet,
        k + 1,
        x,
        y,
    ) == painted(stamps@, *sheet, k as int, x, y) by {
        assert(!s.reaches(x, y));
    }
    while py < bh && (py as i128 - s.oy as i128) < s.dev as i128
        invariant
            s == stamps@[k as int],
            k < stamps@.len(),
            s.src > 0,
            sheet.wf(),
            0 <= bw <= i32::MAX,
            0 <= bh <= i32::MAX,
            0 <= x0 <= bw,
            s.ox <= x0 || x0 == bw,
            x0 > 0 ==> x0 <= s.ox,
            0 <= py <= bh,
            s.oy <= py || py == bh,
            canvas@.len() == bw * bh,
            forall|x: int, y: int|
                0 <= x < bw && 0 <= y < py ==> canvas@[#[trigger] spot(x, y, bw as int)]
                    == painted(stamps@, *sheet, k + 1, x, y),
            forall|x: int, y: int|
                0 <= x < bw && py <= y < bh ==> canvas@[#[trigger] spot(x, y, bw as int)]
                    == painted(stamps@, *sheet, k as int, x, y),
        decreases bh - py,
    {
        let dy: i64 = py - s.oy;
        let line: u64 = s.sy0 as u64 + sample::<N>(dy, s.dev, s.src) as u64;
        assert(line == s.line(dy as int));
        let row: &[u8] = if line < sheet.height as u64 {
            sheet.row(line as u32)
        } else {
            sheet.row(sheet.height)
        };
        let mut px: i64 = x0;
        assert forall|x: int| 0 <= x < px implies #[trigger] painted(
            stamps@,
            *sheet,
            k + 1,
            x,
            py as int,
        ) == painted(stamps@, *sheet, k as int, x, py as int) by {
            assert(!s.reaches(x, py as int));
        }
        while px < bw && (px as i128 - s.ox as i128) < s.dev as i128
            invariant
                s == stamps@[k as int],
                k < stamps@.len(),
                s.src > 0,
                sheet.wf(),
                0 <= bw <= i32::MAX,
                0 <= bh <= i32::MAX,
                0 <= px <= bw,
                s.ox <= px || px == bw,
                0 <= py < bh,
                dy == py - s.oy,
                0 <= dy < s.dev,
                s.line(dy as int) >= sheet.height ==> row@.len() == 0,
                s.line(dy as int) < sheet.height ==> row@.len() == 4 * sheet.width && row@
                    == sheet.pixels@.subrange(
                    4 * (s.line(dy as int) * sheet.width),
                    4 * (s.line(dy as int) * sheet.width) + 4 * sheet.width,
                ),
                canvas@.len() == bw * bh,
                forall|x: int, y: int|
                    0 <= x < bw && 0 <= y < py ==> canvas@[#[trigger] spot(x, y, bw as int)]
                        == painted(stamps@, *sheet, k + 1, x, y),
                forall|x: int|
                    0 <= x < px ==> canvas@[#[trigger] spot(x, py as int, bw as int)] == painted(
                        stamps@,
                        *sheet,
                        k + 1,
                        x,
                        py as int,
                    ),
                forall|x: int|
                    px <= x < bw ==> canvas@[#[trigger] spot(x, py as int, bw as int)] == painted(
                        stamps@,
                        *sheet,
                        k as int,
                        x,
                        py as int,
                    ),
                forall|x: int, y: int|
                    0 <= x < bw && py < y < bh ==> canvas@[#[trigger] spot(x, y, bw as int)]
                        == painted(stamps@, *sheet, k as int, x, y),
            decreases bw - px,
        {
            let dx: i64 = px - s.ox;
            let colour = s.colour(row, sheet, dx, dy);
            proof {
                lemma_spot(px as int, py as int, bw as int, bh as int);
            }
            if let Some(c) = colour {
                let ghost before = canvas@;
                assert(py * bw + px < bw * bh);
                assert(0 <= py * bw <= i32::MAX * i32::MAX) by (nonlinear_arith)
                    requires
                        0 <= py <= i32::MAX,
                        0 <= bw <= i32::MAX,
                ;
                let n: usize = canvas.len();
                assert(py * bw + px < n);
                let at: usize = (py * bw + px) as usize;
                assert(at == spot(px as int, py as int, bw as int));
                canvas.set(at, c);
                proof {
                    assert forall|x: int, y: int|
                        0 <= x < bw && 0 <= y < bh && (x != px || y != py) implies canvas@[
                        #[trigger] spot(x, y, bw as int)] == before[spot(x, y, bw as int)] by {
                        lemma_spots_differ(x, y, px as int, py as int, bw as int);
                        lemma_spot(x, y, bw as int, bh as int);
                    }
                }
            }
            px = px + 1;
        }
        assert forall|x: int| px <= x < bw implies #[trigger] painted(
            stamps@,
            *sheet,
            k + 1,
            x,
            py as int,
        ) == painted(stamps@, *sheet, k as int, x, py as int) by {
            assert(!s.reaches(x, py as int));
        }
        py = py + 1;
    }
    assert forall|x: int, y: int| 0 <= x < bw && py <= y < bh implies #[trigger] painted(
        stamps@,
        *sheet,
        k + 1,
        x,
        y,
    ) == painted(stamps@, *sheet, k as int, x, y) by {
        assert(!s.reaches(x, y));
    }
}

/// What a panel shows: one number for every device pixel, row by row. It is
/// fully transparent everywhere except the sheep, and where sheep overlap the
/// later in the flock is in front. Nearest-neighbour throughout - both the
/// user's scale and the output's - keeps the pixel art crisp rather than
/// blurred.
pub fn draw<N: Number>(
    flock: &Vec<Sheep<N>>,
    sheet: &Sheet,
    panel: &Panel<N>,
    cut: &Cut<N>,
) -> (r: Vec<u32>)
    requires
        sheet.wf(),
        cut.tiles_x > 0,
        panel.width * panel.scale <= i32::MAX,
        panel.height * panel.scale <= i32::MAX,
        (panel.width * panel.scale) * (panel.height * panel.scale) <= usize::MAX,
    ensures
        ({
            let bw = panel.width * panel.scale;
            let bh = panel.height * panel.scale;
            let stamps = stamps_from(flock@, *panel, *cut, 0);
            &&& r@.len() == bw * bh
            &&& forall|x: int, y: int|
                0 <= x < bw && 0 <= y < bh ==> r@[#[trigger] spot(x, y, bw)] == painted(
                    stamps,
                    *sheet,
                    stamps.len() as int,
                    x,
                    y,
                )
        }),
{
    let ghost w: int = panel.width * panel.scale;
    let ghost h: int = panel.height * panel.scale;
    assert(0 <= w && 0 <= h && 0 <= w * h) by (nonlinear_arith)
        requires
            w == panel.width * panel.scale,
            h == panel.height * panel.scale,
    ;
    let bw: i64 = panel.width as i64 * panel.scale as i64;
    let bh: i64 = panel.height as i64 * panel.scale as i64;
    assert(bw == w && bh == h);
    assert(w * h <= i32::MAX * i32::MAX) by (nonlinear_arith)
        requires
            0 <= w <= i32::MAX,
            0 <= h <= i32::MAX,
    ;
    let size: usize = (bw * bh) as usize;
    let mut canvas: Vec<u32> = Vec::new();
    while canvas.len() < size
        invariant
            canvas@.len() <= size,
            forall|i: int| 0 <= i < canvas@.len() ==> (#[trigger] canvas@[i]) == 0,
        decreases size - canvas@.len(),
    {
        canvas.push(0);
    }
    let stamps = lay_out(flock, panel, cut);
    proof {
        lemma_stamps_have_pixels(flock@, *panel, *cut, 0);
        assert forall|x: int, y: int| 0 <= x < bw && 0 <= y < bh implies canvas@[
        #[trigger] spot(x, y, bw as int)] == painted(stamps@, *sheet, 0, x, y) by {
            lemma_spot(x, y, bw as int, bh as int);
        }
    }
    let mut k: usize = 0;
    while k < stamps.len()
        invariant
            k <= stamps@.len(),
            sheet.wf(),
            0 <= bw <= i32::MAX,
            0 <= bh <= i32::MAX,
            canvas@.len() == bw * bh,
            forall|i: int| 0 <= i < stamps@.len() ==> (#[trigger] stamps@[i]).src > 0,
            forall|x: int, y: int|
                0 <= x < bw && 0 <= y < bh ==> canvas@[#[trigger] spot(x, y, bw as int)]
                    == painted(stamps@, *sheet, k as int, x, y),
        decreases stamps@.len() - k,
    {
        paint(&mut canvas, &stamps, k, sheet, bw, bh);
        k = k + 1;
    }
    canvas
}

proof fn lemma_stamps_have_pixels<N: Number>(
    flock: Seq<Sheep<N>>,
    panel: Panel<N>,
    cut: Cut<N>,
    i: int,
)
    requires
        0 <= i,
    ensures
        ({
            let stamps = stamps_from(flock, panel, cut, i);
            forall|j: int| 0 <= j < stamps.len() ==> (#[trigger] stamps[j]).src > 0
        }),
    decreases flock.len() - i,
{
    if i < flock.len() {
        lemma_stamps_have_pixels(flock, panel, cut, i + 1);
        let rest = stamps_from(flock, panel, cut, i + 1);
        let stamps = stamps_from(flock, panel, cut, i);
        assert forall|j: int| 0 <= j < stamps.len() implies (#[trigger] stamps[j]).src > 0 by {
            if shows_on(&flock[i], &panel, cut.tile) {
                if j > 0 {
                    assert(stamps[j] == rest[j - 1]);
                }
            } else {
                assert(stamps == rest);
            }
        }
    }
}

/// Where on a panel a sheep can be taken hold of: its top-left corner.
#[derive(Clone, Copy, Debug, PartialEq, Eq, Structural)]
pub struct Grip {
    pub x: i32,
    pub y: i32,
}

/// Where the sheep from place `i` on that show on the panel can be taken hold
/// of.
pub open spec fn grips_from<N: Number>(
    flock: Seq<Sheep<N>>,
    panel: Panel<N>,
    tile: N,
    i: int,
) -> Seq<Grip>
    decreases flock.len() - i,
{
    if 0 <= i < flock.len() {
        if shows_on(&flock[i], &panel, tile) {
            let (lx, ly) = place_on(&flock[i], &panel);
            seq![Grip { x: to_i32(lx.round()), y: to_i32(ly.round()) }] + grips_from(
                flock,
                panel,
                tile,
                i + 1,
            )
        } else {
            grips_from(flock, panel, tile, i + 1)
        }
    } else {
        seq![]
    }
}

/// Where on a panel input is wanted: on the sheep themselves, so that clicks
/// anywhere else fall through to the window underneath. With dragging off
/// there is nowhere, and the overlay stays entirely click-through.
pub fn input_region<N: Number>(
    flock: &Vec<Sheep<N>>,
    panel: &Panel<N>,
    tile: N,
    draggable: bool,
) -> (r: Vec<Grip>)
    ensures
        r@ == if draggable {
            grips_from(flock@, *panel, tile, 0)
        } else {
            seq![]
        },
{
    let mut out: Vec<Grip> = Vec::new();
    if !draggable {
        return out;
    }
    let mut i: usize = 0;
    while i < flock.len()
        invariant
            i <= flock@.len(),
            grips_from(flock@, *panel, tile, 0) == out@ + grips_from(
                flock@,
                *panel,
                tile,
                i as int,
            ),
        decreases flock@.len() - i,
    {
        if shows_on(&flock[i], panel, tile) {
            let ghost before = out@;
            let (lx, ly) = place_on(&flock[i], panel);
            let grip = Grip { x: to_i32(lx.round()), y: to_i32(ly.round()) };
            out.push(grip);
            assert(before + (seq![grip] + grips_from(flock@, *panel, tile, i + 1)) == out@
                + grips_from(flock@, *panel, tile, i + 1));
        }
        i = i + 1;
    }
    assert(out@ + grips_from(flock@, *panel, tile, i as int) == out@);
    out
}

// -- what holds of every picture --

/// A pixel that no sprite reaches is transparent.
pub proof fn a_pixel_without_sheep_is_clear<N: Number>(
    stamps: Seq<Stamp<N>>,
    sheet: Sheet,
    n: int,
    px: int,
    py: int,
)
    requires
        n <= stamps.len(),
        forall|i: int| 0 <= i < n ==> !(#[trigger] stamps[i]).reaches(px, py),
    ensures
        painted(stamps, sheet, n, px, py) == 0,
    decreases n,
{
    if n > 0 {
        assert(!stamps[n - 1].reaches(px, py));
        a_pixel_without_sheep_is_clear(stamps, sheet, n - 1, px, py);
    }
}

/// No part of a colour is brighter than its alpha allows.
pub proof fn colours_keep_under_their_alpha(c: u8, a: u8)
    ensures
        premultiplied(c, a) <= a,
        premultiplied(c, 255) == c,
        premultiplied(c, 0) == 0,
{
    assert(c as u32 * a as u32 <= 255 * a) by (nonlinear_arith)
        requires
            c <= 255,
    ;
    assert(c as u32 * 255u32 / 255 == c) by (nonlinear_arith);
    assert(c as u32 * 0u32 == 0) by (nonlinear_arith);
}

/// Every pixel of a sprite is taken from within its tile.
pub proof fn samples_stay_within_the_tile<N: Number>(at: i64, dst: i64, src: u32)
    requires
        src > 0,
    ensures
        sample::<N>(at, dst, src) < src,
{
}

/// Which source pixel the centre of a destination pixel lies in. The centre is
/// at `at + 1/2` out of `dst`, which is counted in halves.
pub open spec fn centre_lies_in(at: int, dst: int, src: int) -> int {
    (2 * at + 1) * src / (2 * dst)
}

/// Does the centre of a destination pixel lie on the border of two source
/// pixels?
pub open spec fn centre_on_border(at: int, dst: int, src: int) -> bool {
    ((2 * at + 1) * src) % (2 * dst) == 0
}

proof fn lemma_centres_are_symmetric(at: int, dst: int, src: int)
    requires
        0 <= at < dst,
        src > 0,
        !centre_on_border(at, dst, src),
    ensures
        0 <= centre_lies_in(at, dst, src) < src,
        centre_lies_in(at, dst, src) + centre_lies_in(dst - 1 - at, dst, src) == src - 1,
        !centre_on_border(dst - 1 - at, dst, src),
{
    let whole = 2 * dst;
    let here = (2 * at + 1) * src;
    let there = (2 * (dst - 1 - at) + 1) * src;
    let q = here / whole;
    let r = here % whole;
    assert(here == whole * q + r && 0 < r < whole) by {
        vstd::arithmetic::div_mod::lemma_fundamental_div_mod(here, whole);
        vstd::arithmetic::div_mod::lemma_mod_bound(here, whole);
    }
    assert(0 < here < whole * src) by (nonlinear_arith)
        requires
            here == (2 * at + 1) * src,
            whole == 2 * dst,
            0 <= at < dst,
            src > 0,
    ;
    assert(0 <= q < src) by (nonlinear_arith)
        requires
            here == whole * q + r,
            0 < r < whole,
            0 < here < whole * src,
    ;
    assert(there == whole * src - here) by (nonlinear_arith)
        requires
            here == (2 * at + 1) * src,
            there == (2 * (dst - 1 - at) + 1) * src,
            whole == 2 * dst,
    ;
    assert(there == whole * (src - 1 - q) + (whole - r)) by (nonlinear_arith)
        requires
            there == whole * src - here,
            here == whole * q + r,
    ;
    vstd::arithmetic::div_mod::lemma_fundamental_div_mod_converse(
        there,
        whole,
        src - 1 - q,
        whole - r,
    );
}

/// Sampling is symmetric wherever the numbers find the source pixels that the
/// centres lie in: a pixel as far from the right as another is from the left
/// takes its colour from as far from the right. A centre on the border of two
/// source pixels has no mirror image.
pub proof fn sampling_is_symmetric<N: Number>(at: i64, dst: i64, src: u32)
    requires
        0 <= at < dst,
        src > 0,
        !centre_on_border(at as int, dst as int, src as int),
        sample::<N>(at, dst, src) == centre_lies_in(at as int, dst as int, src as int),
        sample::<N>((dst - 1 - at) as i64, dst, src) == centre_lies_in(
            dst - 1 - at,
            dst as int,
            src as int,
        ),
    ensures
        sample::<N>(at, dst, src) + sample::<N>((dst - 1 - at) as i64, dst, src) == src - 1,
{
    lemma_centres_are_symmetric(at as int, dst as int, src as int);
}

/// A share of `d` units of the way across, cut off at the last place, still
/// ends in the source pixel that the centre lies in.
proof fn lemma_decimal_centre(at: int, dst: int, src: int, d: int, q: int)
    requires
        0 <= at < dst <= 0xffff,
        0 < src <= 0xffff,
        !centre_on_border(at, dst, src),
        d == (2 * at + 1) * (UNIT as int / 2) / dst,
        q == centre_lies_in(at, dst, src),
    ensures
        d >= 0,
        q * UNIT <= d * src < (q + 1) * UNIT,
{
    let half = UNIT as int / 2;
    let odd = 2 * at + 1;
    let (centre, here) = (odd * half, odd * src);
    let (e, r) = (centre % dst, here % (2 * dst));
    assert(centre == dst * d + e && 0 <= e < dst) by {
        vstd::arithmetic::div_mod::lemma_fundamental_div_mod(centre, dst);
        vstd::arithmetic::div_mod::lemma_mod_bound(centre, dst);
    }
    assert(here == (2 * dst) * q + r && 0 < r < 2 * dst) by {
        vstd::arithmetic::div_mod::lemma_fundamental_div_mod(here, 2 * dst);
        vstd::arithmetic::div_mod::lemma_mod_bound(here, 2 * dst);
    }
    assert(centre > 0) by (nonlinear_arith)
        requires
            centre == odd * half,
            odd > 0,
            half == 5_000_000_000,
    ;
    assert(d >= 0) by (nonlinear_arith)
        requires
            centre == dst * d + e,
            centre > 0,
            0 <= e < dst,
    ;
    let spare = r * half - e * src;
    let (reached, pixel) = (d * src, q * UNIT);
    assert(dst * reached == dst * pixel + spare) by {
        assert(centre * src == here * half) by (nonlinear_arith)
            requires
                centre == odd * half,
                here == odd * src,
        ;
        assert(centre * src == dst * reached + e * src) by (nonlinear_arith)
            requires
                centre == dst * d + e,
                reached == d * src,
        ;
        assert(here * half == dst * pixel + r * half) by (nonlinear_arith)
            requires
                here == (2 * dst) * q + r,
                pixel == q * UNIT,
                UNIT == 2 * half,
        ;
    }
    assert(0 <= spare < dst * UNIT) by {
        assert(0 <= e * src <= 0xffff * 0xffff) by (nonlinear_arith)
            requires
                0 <= e < 0xffff,
                0 < src <= 0xffff,
        ;
        assert(dst * UNIT == (2 * dst) * half) by (nonlinear_arith)
            requires
                UNIT == 2 * half,
        ;
        assert(half <= r * half < (2 * dst) * half) by (nonlinear_arith)
            requires
                0 < r < 2 * dst,
                half == 5_000_000_000,
        ;
    }
    assert(pixel <= reached < pixel + UNIT) by (nonlinear_arith)
        requires
            dst * reached == dst * pixel + spare,
            0 <= spare < dst * UNIT,
            dst > 0,
    ;
    assert((q + 1) * UNIT == q * UNIT + UNIT) by (nonlinear_arith);
}

proof fn lemma_decimal_sample(at: i64, dst: i64, src: u32)
    requires
        0 <= at < dst <= 0xffff,
        0 < src <= 0xffff,
        !centre_on_border(at as int, dst as int, src as int),
    ensures
        sample::<Fixed>(at, dst, src) == centre_lies_in(at as int, dst as int, src as int),
{
    let half = UNIT as int / 2;
    assert(ratio::<Fixed>(1, 2).raw == half) by {
        let (a, b) = (UNIT * UNIT, 2 * UNIT);
        assert(a / b == half) by (nonlinear_arith)
            requires
                a == UNIT * UNIT,
                b == 2 * UNIT,
                half == UNIT as int / 2,
                UNIT == 10_000_000_000,
        ;
        assert(quotient_of(a, b) == a / b);
    }
    let centre = (2 * at + 1) * half;
    let middle = Fixed::whole(at).plus(ratio::<Fixed>(1, 2));
    assert(middle.raw == centre) by (nonlinear_arith)
        requires
            middle.raw == at * UNIT + half,
            centre == (2 * at + 1) * half,
            UNIT == 2 * half,
    ;
    let across = Fixed::whole(dst);
    let d = centre / dst as int;
    assert(middle.over(across).raw == d) by {
        let (a, b) = (centre * UNIT, dst * UNIT);
        assert(a / b == d) by {
            vstd::arithmetic::div_mod::lemma_truncate_middle(centre, dst as int, UNIT as int);
            vstd::arithmetic::div_mod::lemma_div_denominator(a, UNIT as int, dst as int);
            vstd::arithmetic::div_mod::lemma_div_multiples_vanish(centre, UNIT as int);
            assert(UNIT * dst == dst * UNIT);
            assert(centre * UNIT == UNIT * centre);
        }
        assert(a >= 0 && b > 0) by (nonlinear_arith)
            requires
                a == centre * UNIT,
                b == dst * UNIT,
                centre >= 0,
                dst > 0,
                UNIT == 10_000_000_000,
        ;
        assert(quotient_of(a, b) == a / b);
        assert(0 <= d <= centre) by (nonlinear_arith)
            requires
                d == centre / dst as int,
                centre >= 0,
                dst > 0,
        ;
    }
    let q = centre_lies_in(at as int, dst as int, src as int);
    lemma_centres_are_symmetric(at as int, dst as int, src as int);
    lemma_decimal_centre(at as int, dst as int, src as int, d, q);
    let share = middle.over(across);
    let size = Fixed::whole(src as i64);
    assert(share.times(size).raw == d * src) by {
        let a = d * (src * UNIT);
        assert(a == (d * src) * UNIT && a >= 0) by (nonlinear_arith)
            requires
                a == d * (src * UNIT),
                d >= 0,
                UNIT == 10_000_000_000,
        ;
        vstd::arithmetic::div_mod::lemma_div_multiples_vanish(d * src, UNIT as int);
        assert((d * src) * UNIT == UNIT * (d * src)) by (nonlinear_arith);
        assert(quotient_of(a, UNIT as int) == d * src);
        assert((q + 1) * UNIT <= 0xffff * UNIT) by (nonlinear_arith)
            requires
                q < src <= 0xffff,
                UNIT == 10_000_000_000,
        ;
    }
    vstd::arithmetic::div_mod::lemma_fundamental_div_mod_converse(
        d * src,
        UNIT as int,
        q,
        d * src - q * UNIT,
    );
}

/// The decimal numbers find the source pixel of every centre that is not on a
/// border, and so sampling is symmetric in them, on all sides of up to 65535
/// pixels.
pub proof fn decimal_sampling_is_symmetric(at: i64, dst: i64, src: u32)
    requires
        0 <= at < dst <= 0xffff,
        0 < src <= 0xffff,
        !centre_on_border(at as int, dst as int, src as int),
    ensures
        sample::<Fixed>(at, dst, src) == centre_lies_in(at as int, dst as int, src as int),
        sample::<Fixed>(at, dst, src) + sample::<Fixed>((dst - 1 - at) as i64, dst, src) == src - 1,
{
    lemma_centres_are_symmetric(at as int, dst as int, src as int);
    lemma_decimal_sample(at, dst, src);
    lemma_decimal_sample((dst - 1 - at) as i64, dst, src);
    sampling_is_symmetric::<Fixed>(at, dst, src);
}

} // verus!
