//! What a panel shows, pixel by pixel, of sheets whose tiles are whole pixels.

use vstd::prelude::*;

use crate::blit::{
    argb, centre_lies_in, centre_on_border, decimal_sampling_is_symmetric, faded, painted,
    premultiplied, share, shows_on, stamp_of, stamps_from, to_i32, to_u32, Cut, Panel, Stamp,
};
use crate::decimals::{
    is_cut_off, rounding_goes_to_whole_numbers, size, whole_multiples_are_exact,
    whole_numbers_are_their_own_whole_parts, whole_shares_are_cut_off,
};
use crate::fixed::{Fixed, UNIT};
use crate::number::Number;
use crate::sheep::Sheep;
use crate::sprites::Sheet;

verus! {

/// Is `n` the whole number of pixels nearest to `v` units, the one further
/// from zero where two are as near?
pub open spec fn is_nearest_pixel(n: int, v: int) -> bool {
    &&& -10_000_000_000 < 2 * (size(n) * 10_000_000_000 - size(v)) <= 10_000_000_000
    &&& n > 0 ==> v > 0
    &&& n < 0 ==> v < 0
}

/// Are the tiles of the sheet `w` by `h` pixels, and drawn `zoom` times as
/// big?
pub open spec fn is_cut_whole(cut: Cut<Fixed>, w: int, h: int, zoom: int) -> bool {
    &&& 1 <= w <= 0xffff
    &&& 1 <= h <= 0xffff
    &&& 1 <= zoom
    &&& w * zoom <= 0xffff
    &&& cut.src_w.raw == w * 10_000_000_000
    &&& cut.src_h.raw == h * 10_000_000_000
    &&& cut.tile.raw == (w * zoom) * 10_000_000_000
    &&& cut.tiles_x > 0
}

/// A sheet that is so many tiles of whole pixels each way is cut into those
/// tiles, and a whole scale draws them so many times as big.
pub proof fn a_sheet_is_cut_into_its_tiles(w: int, h: int, tx: u32, ty: u32, zoom: int)
    requires
        1 <= w <= 0xffff,
        1 <= h <= 0xffff,
        1 <= zoom,
        w * zoom <= 0xffff,
        1 <= tx <= 0xffff,
        1 <= ty <= 0xffff,
        w * tx <= 0x2fff_ffff,
        h * ty <= 0x2fff_ffff,
    ensures
        is_cut_whole(
            Cut::new((w * tx) as u32, (h * ty) as u32, tx, ty, Fixed::whole(zoom as i64)),
            w,
            h,
            zoom,
        ),
        Cut::new(
            (w * tx) as u32,
            (h * ty) as u32,
            tx,
            ty,
            Fixed::whole(zoom as i64),
        ).tiles_x == tx,
{
    lemma_share(w, tx);
    lemma_share(h, ty);
    assert(zoom <= 0xffff) by (nonlinear_arith)
        requires
            1 <= w,
            1 <= zoom,
            w * zoom <= 0xffff,
    ;
    let src_w = share::<Fixed>((w * tx) as u32, tx);
    assert((w * 10_000_000_000) * zoom == (w * zoom) * 10_000_000_000) by (nonlinear_arith);
    whole_multiples_are_exact(src_w, zoom);
}

proof fn lemma_share(w: int, tiles: u32)
    requires
        1 <= w <= 0xffff,
        1 <= tiles <= 0xffff,
        w * tiles <= 0x2fff_ffff,
    ensures
        0 < w * tiles,
        share::<Fixed>((w * tiles) as u32, tiles).raw == w * 10_000_000_000,
{
    assert(0 < w * tiles) by (nonlinear_arith)
        requires
            1 <= w,
            1 <= tiles,
    ;
    let side = Fixed::whole((w * tiles) as i64);
    whole_shares_are_cut_off(side, tiles as int);
    let r = side.over(Fixed::whole(tiles as i64)).raw;
    assert(side.raw == (w * tiles) * UNIT);
    let x = size(r as int);
    assert(x == w * UNIT) by (nonlinear_arith)
        requires
            x * tiles <= (w * tiles) * UNIT < (x + 1) * tiles,
            tiles >= 1,
    ;
}

/// A sheet that its tiles do not divide evenly is cut at the exact fraction,
/// to the last place.
pub proof fn a_tile_is_its_share_of_the_sheet(side: u32, tiles: u32)
    requires
        side <= 900_000_000,
        1 <= tiles <= 900_000_000,
    ensures
        is_cut_off(
            share::<Fixed>(side, tiles).raw as int,
            side * 10_000_000_000,
            tiles as int,
        ),
{
    whole_shares_are_cut_off(Fixed::whole(side as i64), tiles as int);
}

pub(crate) proof fn lemma_rounded(v: Fixed, n: int)
    requires
        is_nearest_pixel(n, v.raw as int),
        -0x2fff_ffff <= n <= 0x2fff_ffff,
    ensures
        to_i32(v.round()) == n,
{
    rounding_goes_to_whole_numbers(v);
    let r = v.round();
    let k = r.raw as int / 10_000_000_000;
    assert(r.raw == k * 10_000_000_000);
    whole_numbers_are_their_own_whole_parts(r, k);
    assert(size(k) == size(n));
}

/// A sprite is laid out on the nearest pixels, whether or not the tiles of its
/// sheet are whole ones: where it is drawn and how big, which square of the
/// sheet it is taken from, a pixel at least, and where on the sheet that
/// starts.
pub proof fn a_sprite_is_laid_out_on_the_nearest_pixels(
    s: Sheep<Fixed>,
    panel: Panel<Fixed>,
    cut: Cut<Fixed>,
    at: (int, int),
    side: int,
    taken: int,
    from: (int, int),
)
    requires
        cut.tiles_x > 0,
        0 <= cut.src_w.raw,
        0 <= cut.src_h.raw,
        -4_000_000_000_000_000_000 <= s.y.raw <= 4_000_000_000_000_000_000,
        -4_000_000_000_000_000_000 <= s.offset_y.raw <= 4_000_000_000_000_000_000,
        -0x2fff_ffff <= at.0 <= 0x2fff_ffff,
        -0x2fff_ffff <= at.1 <= 0x2fff_ffff,
        0 <= side <= 0x2fff_ffff,
        0 <= taken <= 0x2fff_ffff,
        0 <= from.0 <= 0x2fff_ffff,
        0 <= from.1 <= 0x2fff_ffff,
        s.frame <= 900_000_000,
        is_nearest_pixel(at.0, s.x.raw - panel.origin.0.raw),
        is_nearest_pixel(at.1, s.y.raw + s.offset_y.raw - panel.origin.1.raw),
        is_nearest_pixel(side, cut.tile.raw as int),
        is_nearest_pixel(taken, cut.src_w.raw as int),
        is_nearest_pixel(from.0, cut.src_w.raw * (s.frame as int % cut.tiles_x as int)),
        is_nearest_pixel(from.1, cut.src_h.raw * (s.frame as int / cut.tiles_x as int)),
    ensures
        ({
            let stamp = stamp_of(s, panel, cut);
            &&& stamp.ox == at.0 * panel.scale
            &&& stamp.oy == at.1 * panel.scale
            &&& stamp.dev == side * panel.scale
            &&& taken > 0 ==> stamp.src == taken
            &&& taken == 0 ==> stamp.src == 1
            &&& stamp.sx0 == from.0
            &&& stamp.sy0 == from.1
            &&& stamp.flipped == s.flipped
            &&& s.opacity.raw < 0 ==> stamp.alpha.raw == 0
            &&& s.opacity.raw > 10_000_000_000 ==> stamp.alpha.raw == 10_000_000_000
            &&& 0 <= s.opacity.raw <= 10_000_000_000 ==> stamp.alpha == s.opacity
        }),
{
    lemma_rounded(s.x.minus(panel.origin.0), at.0);
    lemma_rounded(s.y.plus(s.offset_y).minus(panel.origin.1), at.1);
    lemma_rounded(cut.tile, side);
    lemma_counted(cut.src_w, taken);
    let (col, row) = (s.frame as int % cut.tiles_x as int, s.frame as int / cut.tiles_x as int);
    assert(0 <= col <= 900_000_000 && 0 <= row <= 900_000_000) by (nonlinear_arith)
        requires
            col == s.frame as int % cut.tiles_x as int,
            row == s.frame as int / cut.tiles_x as int,
            s.frame <= 900_000_000,
            cut.tiles_x > 0,
    ;
    assert(cut.src_w.raw * col >= 0 && cut.src_h.raw * row >= 0) by (nonlinear_arith)
        requires
            0 <= cut.src_w.raw,
            0 <= cut.src_h.raw,
            0 <= col,
            0 <= row,
    ;
    whole_multiples_are_exact(cut.src_w, col);
    whole_multiples_are_exact(cut.src_h, row);
    lemma_counted(Fixed::whole(col as i64).times(cut.src_w), from.0);
    lemma_counted(Fixed::whole(row as i64).times(cut.src_h), from.1);
    let scale = panel.scale as int;
    assert(-0x2fff_ffff * 0xffff_ffff <= at.0 * scale <= 0x2fff_ffff * 0xffff_ffff && -0x2fff_ffff
        * 0xffff_ffff <= at.1 * scale <= 0x2fff_ffff * 0xffff_ffff && 0 <= side * scale
        <= 0x2fff_ffff * 0xffff_ffff) by (nonlinear_arith)
        requires
            0 <= scale <= 0xffff_ffff,
            -0x2fff_ffff <= at.0 <= 0x2fff_ffff,
            -0x2fff_ffff <= at.1 <= 0x2fff_ffff,
            0 <= side <= 0x2fff_ffff,
    ;
}

proof fn lemma_counted(v: Fixed, n: int)
    requires
        is_nearest_pixel(n, v.raw as int),
        0 <= n <= 0x2fff_ffff,
        0 <= v.raw,
    ensures
        to_u32(v.round()) == n,
{
    rounding_goes_to_whole_numbers(v);
    let r = v.round();
    let k = r.raw as int / 10_000_000_000;
    assert(r.raw == k * 10_000_000_000);
    whole_numbers_are_their_own_whole_parts(r, k);
    assert(size(k) == size(n));
}

proof fn lemma_source_corner(count: int, size_of: Fixed, w: int)
    requires
        size_of.raw == w * UNIT,
        0 <= count <= 900_000_000,
        0 <= w,
        count * w <= 900_000_000,
    ensures
        to_u32(Fixed::whole(count as i64).times(size_of).round()) == count * w,
{
    assert(size_of.raw * count == (count * w) * UNIT) by (nonlinear_arith)
        requires
            size_of.raw == w * UNIT,
    ;
    assert(0 <= count * w) by (nonlinear_arith)
        requires
            0 <= count,
            0 <= w,
    ;
    whole_multiples_are_exact(size_of, count);
    whole_numbers_are_their_own_whole_parts(
        Fixed::whole(count as i64).times(size_of),
        count * w,
    );
}

proof fn lemma_zoomed(at: int, times: int, w: int)
    requires
        0 <= at < times * w,
        1 <= w <= 0xffff,
        1 <= times,
        times * w <= 0xffff,
    ensures
        !centre_on_border(at, times * w, w),
        centre_lies_in(at, times * w, w) == at / times,
        0 <= at / times < w,
{
    let (q, r) = (at / times, at % times);
    assert(at == times * q + r && 0 <= r < times) by {
        vstd::arithmetic::div_mod::lemma_fundamental_div_mod(at, times);
        vstd::arithmetic::div_mod::lemma_mod_bound(at, times);
    }
    let (here, whole, rest) = ((2 * at + 1) * w, 2 * (times * w), (2 * r + 1) * w);
    assert(here == whole * q + rest) by (nonlinear_arith)
        requires
            at == times * q + r,
            here == (2 * at + 1) * w,
            whole == 2 * (times * w),
            rest == (2 * r + 1) * w,
    ;
    assert(0 < rest < whole) by (nonlinear_arith)
        requires
            rest == (2 * r + 1) * w,
            whole == 2 * (times * w),
            0 <= r < times,
            w >= 1,
    ;
    vstd::arithmetic::div_mod::lemma_fundamental_div_mod_converse(here, whole, q, rest);
    assert(0 <= q < w) by (nonlinear_arith)
        requires
            at == times * q + r,
            0 <= r < times,
            0 <= at < times * w,
    ;
}

/// The sprite of a sheep covers its tile, so many times as big as it is drawn,
/// from the pixel nearest to where the sheep is. The pixel `dx`, `dy` of it
/// is taken from the tile of the frame that the sheep shows: the frames stand
/// in rows on the sheet, and a flipped sheep is mirrored left to right.
pub proof fn a_sprite_is_its_frames_tile(
    s: Sheep<Fixed>,
    panel: Panel<Fixed>,
    cut: Cut<Fixed>,
    w: int,
    h: int,
    zoom: int,
    x: int,
    y: int,
)
    requires
        is_cut_whole(cut, w, h, zoom),
        1 <= panel.scale,
        (zoom * panel.scale) * w <= 0xffff,
        -0x2fff_ffff <= x <= 0x2fff_ffff,
        -0x2fff_ffff <= y <= 0x2fff_ffff,
        -4_000_000_000_000_000_000 <= s.y.raw <= 4_000_000_000_000_000_000,
        -4_000_000_000_000_000_000 <= s.offset_y.raw <= 4_000_000_000_000_000_000,
        is_nearest_pixel(x, s.x.raw - panel.origin.0.raw),
        is_nearest_pixel(y, s.y.raw + s.offset_y.raw - panel.origin.1.raw),
        (s.frame as int % cut.tiles_x as int) * w <= 900_000_000,
        (s.frame as int / cut.tiles_x as int) * h <= 900_000_000,
        (s.frame as int % cut.tiles_x as int) <= 900_000_000,
        (s.frame as int / cut.tiles_x as int) <= 900_000_000,
    ensures
        ({
            let stamp = stamp_of(s, panel, cut);
            let times = zoom * panel.scale;
            let side = times * w;
            &&& forall|px: int, py: int|
                stamp.reaches(px, py) <==> x * panel.scale <= px < x * panel.scale + side && y
                    * panel.scale <= py < y * panel.scale + side
            &&& forall|dx: int|
                0 <= dx < side ==> #[trigger] stamp.column(dx) == (s.frame as int
                    % cut.tiles_x as int) * w + if s.flipped {
                    w - 1 - dx / times
                } else {
                    dx / times
                }
            &&& forall|dy: int|
                0 <= dy < side ==> #[trigger] stamp.line(dy) == (s.frame as int
                    / cut.tiles_x as int) * h + dy / times
            &&& stamp.ox == x * panel.scale
            &&& stamp.oy == y * panel.scale
        }),
{
    let stamp = stamp_of(s, panel, cut);
    let p = panel.scale as int;
    let times = zoom * p;
    let side = times * w;
    let lx = s.x.minus(panel.origin.0);
    let ly = s.y.plus(s.offset_y).minus(panel.origin.1);
    assert(size(x) <= 0x2fff_ffff && size(y) <= 0x2fff_ffff);
    assert(lx.raw == s.x.raw - panel.origin.0.raw);
    assert(ly.raw == s.y.raw + s.offset_y.raw - panel.origin.1.raw);
    lemma_rounded(lx, x);
    lemma_rounded(ly, y);
    assert(w * zoom >= 1 && side == (w * zoom) * p && p <= 0xffff) by (nonlinear_arith)
        requires
            1 <= w,
            1 <= zoom,
            1 <= p,
            times == zoom * p,
            side == times * w,
            side <= 0xffff,
    ;
    whole_numbers_are_their_own_whole_parts(cut.tile, w * zoom);
    assert(to_i32(cut.tile.round()) == w * zoom);
    assert(-0x2fff_ffff * 0xffff <= x * p <= 0x2fff_ffff * 0xffff) by (nonlinear_arith)
        requires
            -0x2fff_ffff <= x <= 0x2fff_ffff,
            1 <= p <= 0xffff,
    ;
    assert(-0x2fff_ffff * 0xffff <= y * p <= 0x2fff_ffff * 0xffff) by (nonlinear_arith)
        requires
            -0x2fff_ffff <= y <= 0x2fff_ffff,
            1 <= p <= 0xffff,
    ;
    assert(stamp.dev == side);
    whole_numbers_are_their_own_whole_parts(cut.src_w, w);
    assert(stamp.src == w);
    lemma_source_corner(s.frame as int % cut.tiles_x as int, cut.src_w, w);
    lemma_source_corner(s.frame as int / cut.tiles_x as int, cut.src_h, h);
    assert(1 <= times) by (nonlinear_arith)
        requires
            times == zoom * p,
            1 <= zoom,
            1 <= p,
    ;
    assert forall|dx: int| 0 <= dx < side implies #[trigger] stamp.column(dx) == (s.frame as int
        % cut.tiles_x as int) * w + if s.flipped {
        w - 1 - dx / times
    } else {
        dx / times
    } by {
        lemma_zoomed(dx, times, w);
        decimal_sampling_is_symmetric(dx as i64, side as i64, w as u32);
    }
    assert forall|dy: int| 0 <= dy < side implies #[trigger] stamp.line(dy) == (s.frame as int
        / cut.tiles_x as int) * h + dy / times by {
        lemma_zoomed(dy, times, w);
        decimal_sampling_is_symmetric(dy as i64, side as i64, w as u32);
    }
}

/// One part of the pixel in column `x` of row `y` of a sheet: red, green, blue
/// or alpha.
pub open spec fn part_at(sheet: Sheet, x: int, y: int, part: int) -> int {
    sheet.pixels@[4 * (y * sheet.width + x) + part] as int
}

/// The colour of that pixel at so many units of opacity out of a whole one,
/// with the alpha multiplied in, as the compositor wants it.
pub open spec fn colour_at(sheet: Sheet, x: int, y: int, opacity: int) -> int {
    let a = part_at(sheet, x, y, 3) * opacity / 10_000_000_000;
    let red = part_at(sheet, x, y, 0) * a / 255;
    let green = part_at(sheet, x, y, 1) * a / 255;
    let blue = part_at(sheet, x, y, 2) * a / 255;
    ((a * 256 + red) * 256 + green) * 256 + blue
}

proof fn lemma_premultiplied(c: u8, a: u8)
    ensures
        premultiplied(c, a) == c as int * a as int / 255,
{
    assert(0 <= c as int * a as int <= 255 * 255) by (nonlinear_arith)
        requires
            c <= 255,
            a <= 255,
    ;
    assert(c as u32 * a as u32 == c as int * a as int);
    assert(0 <= c as int * a as int / 255 <= 255);
}

proof fn lemma_colour(
    stamp: Stamp<Fixed>,
    sheet: Sheet,
    px: int,
    py: int,
    col: int,
    row: int,
    opacity: int,
)
    requires
        sheet.wf(),
        stamp.reaches(px, py),
        stamp.column(px - stamp.ox) == col,
        stamp.line(py - stamp.oy) == row,
        0 <= col < sheet.width,
        0 <= row < sheet.height,
        stamp.alpha.raw == opacity,
        0 <= opacity <= 10_000_000_000,
    ensures
        ({
            let a = part_at(sheet, col, row, 3) * opacity / 10_000_000_000;
            &&& a > 0 ==> stamp.shade(sheet, px, py) is Some && (stamp.shade(
                sheet,
                px,
                py,
            )->0) as int == colour_at(sheet, col, row, opacity)
            &&& a == 0 ==> stamp.shade(sheet, px, py) is None
        }),
{
    let at = 4 * (row * sheet.width + col);
    assert(0 <= at && at + 4 <= sheet.pixels@.len()) by (nonlinear_arith)
        requires
            at == 4 * (row * sheet.width + col),
            0 <= row < sheet.height,
            0 <= col < sheet.width,
            sheet.pixels@.len() == 4 * (sheet.width * sheet.height),
    ;
    let p = sheet.spec_pixel(col, row);
    assert(p[0] == sheet.pixels@[at] && p[1] == sheet.pixels@[at + 1] && p[2] == sheet.pixels@[at
        + 2] && p[3] == sheet.pixels@[at + 3]);
    let alpha = p[3];
    let n = alpha as int;
    let a = n * opacity / 10_000_000_000;
    assert(0 <= n * opacity <= n * 10_000_000_000) by (nonlinear_arith)
        requires
            0 <= opacity <= 10_000_000_000,
            0 <= n,
    ;
    assert(0 <= a <= n);
    assert(opacity * n == n * opacity) by (nonlinear_arith);
    whole_multiples_are_exact(stamp.alpha, n);
    let solid = Fixed::whole(alpha as i64).times(stamp.alpha);
    assert(solid.raw == n * opacity);
    assert(faded(alpha, stamp.alpha) == a);
    if n == 0 {
        assert(n * opacity == 0) by (nonlinear_arith)
            requires
                n == 0,
        ;
    }
    let f = faded(alpha, stamp.alpha);
    lemma_premultiplied(p[0], f);
    lemma_premultiplied(p[1], f);
    lemma_premultiplied(p[2], f);
    assert(premultiplied(p[0], f) <= 255 && premultiplied(p[1], f) <= 255);
    assert(f as u32 * 0x100_0000 + premultiplied(p[0], f) as u32 * 0x1_0000 + premultiplied(
        p[1],
        f,
    ) as u32 * 0x100 + premultiplied(p[2], f) as u32 <= u32::MAX);
    assert(argb(p[0], p[1], p[2], f) == f * 0x100_0000 + premultiplied(p[0], f) * 0x1_0000
        + premultiplied(p[1], f) * 0x100 + premultiplied(p[2], f));
}

/// The units of an opacity, held between clear and solid.
pub open spec fn solidity(s: Sheep<Fixed>) -> int {
    if s.opacity.raw < 0 {
        0
    } else if s.opacity.raw > 10_000_000_000 {
        10_000_000_000
    } else {
        s.opacity.raw as int
    }
}

proof fn lemma_later_stamps<N: Number>(
    flock: Seq<Sheep<N>>,
    panel: Panel<N>,
    cut: Cut<N>,
    sheet: Sheet,
    i: int,
    k: int,
    px: int,
    py: int,
)
    requires
        0 <= i <= k < flock.len(),
        shows_on(&flock[k], &panel, cut.tile),
        stamp_of(flock[k], panel, cut).shade(sheet, px, py) is Some,
        forall|j: int|
            k < j < flock.len() ==> stamp_of(#[trigger] flock[j], panel, cut).shade(
                sheet,
                px,
                py,
            ) is None,
    ensures
        ({
            let stamps = stamps_from(flock, panel, cut, i);
            exists|n: int| #![trigger stamps[n]]
                0 <= n < stamps.len() && stamps[n] == stamp_of(flock[k], panel, cut) && (forall|
                    m: int,
                |
                    n < m < stamps.len() ==> (#[trigger] stamps[m]).shade(sheet, px, py) is None)
        }),
    decreases k - i,
{
    let stamps = stamps_from(flock, panel, cut, i);
    let rest = stamps_from(flock, panel, cut, i + 1);
    if i < k {
        lemma_later_stamps(flock, panel, cut, sheet, i + 1, k, px, py);
        let n = choose|n: int| #![trigger rest[n]]
            0 <= n < rest.len() && rest[n] == stamp_of(flock[k], panel, cut) && (forall|m: int|
                n < m < rest.len() ==> (#[trigger] rest[m]).shade(sheet, px, py) is None);
        let more = if shows_on(&flock[i], &panel, cut.tile) {
            1int
        } else {
            0
        };
        assert forall|m: int| more <= m < stamps.len() implies #[trigger] stamps[m] == rest[m
            - more] by {}
        assert(stamps[n + more] == stamp_of(flock[k], panel, cut));
    } else {
        lemma_no_shade(flock, panel, cut, sheet, i + 1, px, py);
        assert(stamps[0] == stamp_of(flock[k], panel, cut));
        assert forall|m: int| 0 < m < stamps.len() implies (#[trigger] stamps[m]).shade(
            sheet,
            px,
            py,
        ) is None by {
            assert(stamps[m] == rest[m - 1]);
        }
    }
}

proof fn lemma_no_shade<N: Number>(
    flock: Seq<Sheep<N>>,
    panel: Panel<N>,
    cut: Cut<N>,
    sheet: Sheet,
    i: int,
    px: int,
    py: int,
)
    requires
        0 <= i <= flock.len(),
        forall|j: int|
            i <= j < flock.len() ==> stamp_of(#[trigger] flock[j], panel, cut).shade(
                sheet,
                px,
                py,
            ) is None,
    ensures
        ({
            let stamps = stamps_from(flock, panel, cut, i);
            forall|m: int| 0 <= m < stamps.len() ==> (#[trigger] stamps[m]).shade(sheet, px, py)
                is None
        }),
    decreases flock.len() - i,
{
    if i < flock.len() {
        lemma_no_shade(flock, panel, cut, sheet, i + 1, px, py);
        let stamps = stamps_from(flock, panel, cut, i);
        let rest = stamps_from(flock, panel, cut, i + 1);
        if shows_on(&flock[i], &panel, cut.tile) {
            assert forall|m: int| 0 <= m < stamps.len() implies (#[trigger] stamps[m]).shade(
                sheet,
                px,
                py,
            ) is None by {
                if m > 0 {
                    assert(stamps[m] == rest[m - 1]);
                }
            }
        }
    }
}

proof fn lemma_painted<N: Number>(
    stamps: Seq<Stamp<N>>,
    sheet: Sheet,
    n: int,
    m: int,
    px: int,
    py: int,
)
    requires
        0 <= n < m <= stamps.len(),
        stamps[n].shade(sheet, px, py) is Some,
        forall|j: int| n < j < m ==> (#[trigger] stamps[j]).shade(sheet, px, py) is None,
    ensures
        painted(stamps, sheet, m, px, py) == stamps[n].shade(sheet, px, py)->0,
    decreases m,
{
    if m > n + 1 {
        assert(stamps[m - 1].shade(sheet, px, py) is None);
        lemma_painted(stamps, sheet, n, m - 1, px, py);
    }
}

/// A panel shows, in every pixel that a sheep covers and no sheep after it in
/// the flock paints, the pixel of the sheep's frame that belongs there: the
/// one in the frame's tile as far right and as far down as the pixel is in
/// the sheep, or as far left in a flipped one.
pub proof fn a_panel_shows_the_frontmost_sheep(
    flock: Seq<Sheep<Fixed>>,
    k: int,
    sheet: Sheet,
    panel: Panel<Fixed>,
    cut: Cut<Fixed>,
    w: int,
    h: int,
    zoom: int,
    x: int,
    y: int,
    dx: int,
    dy: int,
)
    requires
        sheet.wf(),
        0 <= k < flock.len(),
        is_cut_whole(cut, w, h, zoom),
        1 <= panel.scale,
        (zoom * panel.scale) * w <= 0xffff,
        -0x2fff_ffff <= x <= 0x2fff_ffff,
        -0x2fff_ffff <= y <= 0x2fff_ffff,
        -4_000_000_000_000_000_000 <= flock[k].y.raw <= 4_000_000_000_000_000_000,
        -4_000_000_000_000_000_000 <= flock[k].offset_y.raw <= 4_000_000_000_000_000_000,
        is_nearest_pixel(x, flock[k].x.raw - panel.origin.0.raw),
        is_nearest_pixel(y, flock[k].y.raw + flock[k].offset_y.raw - panel.origin.1.raw),
        panel.width <= 0x2fff_ffff,
        panel.height <= 0x2fff_ffff,
        0 <= dx < (zoom * panel.scale) * w,
        0 <= dy < (zoom * panel.scale) * w,
        0 <= x * panel.scale + dx < panel.width * panel.scale,
        0 <= y * panel.scale + dy < panel.height * panel.scale,
        ({
            let (f, tx, times) = (
                flock[k].frame as int,
                cut.tiles_x as int,
                zoom * panel.scale,
            );
            let col = (f % tx) * w + if flock[k].flipped {
                w - 1 - dx / times
            } else {
                dx / times
            };
            let row = (f / tx) * h + dy / times;
            &&& f % tx <= 900_000_000
            &&& f / tx <= 900_000_000
            &&& (f % tx) * w <= 900_000_000
            &&& (f / tx) * h <= 900_000_000
            &&& col < sheet.width
            &&& row < sheet.height
            &&& part_at(sheet, col, row, 3) * solidity(flock[k]) >= 10_000_000_000
        }),
        forall|j: int|
            k < j < flock.len() ==> stamp_of(#[trigger] flock[j], panel, cut).shade(
                sheet,
                x * panel.scale + dx,
                y * panel.scale + dy,
            ) is None,
    ensures
        ({
            let (f, tx, times) = (
                flock[k].frame as int,
                cut.tiles_x as int,
                zoom * panel.scale,
            );
            let col = (f % tx) * w + if flock[k].flipped {
                w - 1 - dx / times
            } else {
                dx / times
            };
            let row = (f / tx) * h + dy / times;
            let stamps = stamps_from(flock, panel, cut, 0);
            painted(
                stamps,
                sheet,
                stamps.len() as int,
                x * panel.scale + dx,
                y * panel.scale + dy,
            ) as int == colour_at(sheet, col, row, solidity(flock[k]))
        }),
{
    let s = flock[k];
    let p = panel.scale as int;
    let times = zoom * p;
    let (f, tx) = (s.frame as int, cut.tiles_x as int);
    a_sprite_is_its_frames_tile(s, panel, cut, w, h, zoom, x, y);
    let stamp = stamp_of(s, panel, cut);
    let (px, py) = (x * p + dx, y * p + dy);
    let col = (f % tx) * w + if s.flipped {
        w - 1 - dx / times
    } else {
        dx / times
    };
    let row = (f / tx) * h + dy / times;
    assert(1 <= times) by (nonlinear_arith)
        requires
            times == zoom * p,
            1 <= zoom,
            1 <= p,
    ;
    lemma_zoomed(dx, times, w);
    lemma_zoomed(dy, times, w);
    assert(0 <= (f % tx) * w && 0 <= (f / tx) * h) by (nonlinear_arith)
        requires
            0 <= f,
            0 < tx,
            1 <= w,
            1 <= h,
    ;
    assert(stamp.reaches(px, py));
    assert(stamp.column(px - stamp.ox) == col);
    assert(stamp.line(py - stamp.oy) == row);
    let a = part_at(sheet, col, row, 3) * solidity(s);
    assert(a / 10_000_000_000 > 0);
    lemma_colour(stamp, sheet, px, py, col, row, solidity(s));
    lemma_shows(s, panel, cut, w, zoom, x, y, dx, dy);
    let stamps = stamps_from(flock, panel, cut, 0);
    lemma_later_stamps(flock, panel, cut, sheet, 0, k, px, py);
    let n = choose|n: int| #![trigger stamps[n]]
        0 <= n < stamps.len() && stamps[n] == stamp_of(flock[k], panel, cut) && (forall|m: int|
            n < m < stamps.len() ==> (#[trigger] stamps[m]).shade(sheet, px, py) is None);
    lemma_painted(stamps, sheet, n, stamps.len() as int, px, py);
}

proof fn lemma_shows(
    s: Sheep<Fixed>,
    panel: Panel<Fixed>,
    cut: Cut<Fixed>,
    w: int,
    zoom: int,
    x: int,
    y: int,
    dx: int,
    dy: int,
)
    requires
        1 <= w,
        1 <= zoom,
        w * zoom <= 0xffff,
        cut.tile.raw == (w * zoom) * 10_000_000_000,
        1 <= panel.scale,
        -0x2fff_ffff <= x <= 0x2fff_ffff,
        -0x2fff_ffff <= y <= 0x2fff_ffff,
        -4_000_000_000_000_000_000 <= s.y.raw <= 4_000_000_000_000_000_000,
        -4_000_000_000_000_000_000 <= s.offset_y.raw <= 4_000_000_000_000_000_000,
        is_nearest_pixel(x, s.x.raw - panel.origin.0.raw),
        is_nearest_pixel(y, s.y.raw + s.offset_y.raw - panel.origin.1.raw),
        panel.width <= 0x2fff_ffff,
        panel.height <= 0x2fff_ffff,
        0 <= dx < (zoom * panel.scale) * w,
        0 <= dy < (zoom * panel.scale) * w,
        0 <= x * panel.scale + dx < panel.width * panel.scale,
        0 <= y * panel.scale + dy < panel.height * panel.scale,
    ensures
        shows_on(&s, &panel, cut.tile),
{
    let p = panel.scale as int;
    let t = w * zoom;
    assert((zoom * p) * w == t * p) by (nonlinear_arith)
        requires
            t == w * zoom,
    ;
    assert(x + t >= 1 && x < panel.width) by (nonlinear_arith)
        requires
            0 <= x * p + dx < panel.width * p,
            0 <= dx < t * p,
            p >= 1,
    ;
    assert(y + t >= 1 && y < panel.height) by (nonlinear_arith)
        requires
            0 <= y * p + dy < panel.height * p,
            0 <= dy < t * p,
            p >= 1,
    ;
}

/// A pixel that no sheep paints is clear.
pub proof fn a_panel_is_clear_elsewhere<N: Number>(
    flock: Seq<Sheep<N>>,
    sheet: Sheet,
    panel: Panel<N>,
    cut: Cut<N>,
    px: int,
    py: int,
)
    requires
        forall|j: int|
            0 <= j < flock.len() ==> stamp_of(#[trigger] flock[j], panel, cut).shade(
                sheet,
                px,
                py,
            ) is None,
    ensures
        ({
            let stamps = stamps_from(flock, panel, cut, 0);
            painted(stamps, sheet, stamps.len() as int, px, py) == 0
        }),
{
    lemma_no_shade(flock, panel, cut, sheet, 0, px, py);
    let stamps = stamps_from(flock, panel, cut, 0);
    lemma_unpainted(stamps, sheet, stamps.len() as int, px, py);
}

proof fn lemma_unpainted<N: Number>(
    stamps: Seq<Stamp<N>>,
    sheet: Sheet,
    m: int,
    px: int,
    py: int,
)
    requires
        m <= stamps.len(),
        forall|j: int| 0 <= j < m ==> (#[trigger] stamps[j]).shade(sheet, px, py) is None,
    ensures
        painted(stamps, sheet, m, px, py) == 0,
    decreases m,
{
    if m > 0 {
        assert(stamps[m - 1].shade(sheet, px, py) is None);
        lemma_unpainted(stamps, sheet, m - 1, px, py);
    }
}

} // verus!
