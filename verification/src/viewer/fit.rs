//! How the picture is fitted into the window: as large as it goes, with its
//! aspect ratio kept, centred, and sampled from its corner of the slot it is
//! in.
//!
//! Everything here is a ratio of whole numbers; whoever draws divides.

use crate::input::denormalised;
use vstd::prelude::*;

verus! {

/// `over / under`.
#[derive(Debug, Clone, Copy, PartialEq, Eq, Structural)]
pub struct Ratio {
    pub over: u64,
    pub under: u64,
}

/// Where the picture goes, and what of the slot it is.
#[derive(Debug, Clone, Copy)]
pub struct Fit {
    /// How much of the window the picture takes, across and down.
    pub scale: (Ratio, Ratio),
    /// How much of the slot is picture.
    pub part: (Ratio, Ratio),
    /// The middle of the last pixel that is: sampling past it would blend in
    /// what is left of a larger picture.
    pub limit: (Ratio, Ratio),
}

/// A size that can be divided by.
pub open spec fn at_least_one(n: u32) -> int {
    if n == 0 {
        1
    } else {
        n as int
    }
}

fn one_or_more(n: u32) -> (m: u64)
    ensures
        m == at_least_one(n),
        1 <= m <= u32::MAX,
{
    if n == 0 {
        1
    } else {
        n as u64
    }
}

/// The window is at most as wide as the picture, for its height: the picture
/// fills it from side to side.
pub open spec fn narrower(video: (u32, u32), window: (u32, u32)) -> bool {
    at_least_one(window.0) * at_least_one(video.1) <= at_least_one(window.1) * at_least_one(video.0)
}

fn product(a: u64, b: u64) -> (c: u64)
    requires
        1 <= a <= u32::MAX,
        1 <= b <= u32::MAX,
    ensures
        c == a * b,
        c >= 1,
{
    assert(1 <= a * b <= 0xffff_ffff * 0xffff_ffff) by (nonlinear_arith)
        requires
            1 <= a <= 0xffff_ffff,
            1 <= b <= 0xffff_ffff,
    ;
    a * b
}

/// This is how much of the window `video` takes, fitted inside it.
pub open spec fn takes(video: (u32, u32), window: (u32, u32), scale: (Ratio, Ratio)) -> bool {
    &&& scale.0.under > 0
    &&& scale.1.under > 0
    &&& if narrower(video, window) {
        &&& scale.0 == (Ratio { over: 1, under: 1 })
        &&& scale.1.over == at_least_one(window.0) * at_least_one(video.1)
        &&& scale.1.under == at_least_one(window.1) * at_least_one(video.0)
    } else {
        &&& scale.0.over == at_least_one(window.1) * at_least_one(video.0)
        &&& scale.0.under == at_least_one(window.0) * at_least_one(video.1)
        &&& scale.1 == (Ratio { over: 1, under: 1 })
    }
}

/// How much of the window `video` takes, fitted inside it.
pub fn fit_scale(video: (u32, u32), window: (u32, u32)) -> (scale: (Ratio, Ratio))
    ensures
        scale.0.under > 0,
        scale.1.under > 0,
        takes(video, window, scale),
{
    let across: u64 = product(one_or_more(window.0), one_or_more(video.1));
    let down: u64 = product(one_or_more(window.1), one_or_more(video.0));
    if across <= down {
        (Ratio { over: 1, under: 1 }, Ratio { over: across, under: down })
    } else {
        (Ratio { over: down, under: across }, Ratio { over: 1, under: 1 })
    }
}

/// The smaller of two sizes.
pub open spec fn smaller(a: u32, b: u32) -> int {
    if a <= b {
        a as int
    } else {
        b as int
    }
}

/// Twice the middle of the last of `n` pixels; the first has to be there.
pub open spec fn last_middle(n: int) -> int {
    if n >= 1 {
        2 * n - 1
    } else {
        1
    }
}

fn within(video: u32, slot: u32) -> (parts: (Ratio, Ratio))
    ensures
        parts.0.over == smaller(video, slot),
        parts.0.under == at_least_one(slot),
        parts.1.over == last_middle(smaller(video, slot)),
        parts.1.under == 2 * at_least_one(slot),
{
    let size: u64 = if video <= slot {
        video as u64
    } else {
        slot as u64
    };
    let whole: u64 = one_or_more(slot);
    let middle: u64 = if size >= 1 {
        2 * size - 1
    } else {
        1
    };
    (Ratio { over: size, under: whole }, Ratio { over: middle, under: 2 * whole })
}

/// This is `video` fitted inside `window`, and sampled from the top-left
/// corner of a `slot`.
pub open spec fn fitted(
    video: (u32, u32),
    window: (u32, u32),
    slot: (u32, u32),
    fit: &Fit,
) -> bool {
    &&& takes(video, window, fit.scale)
    &&& fit.part.0.over == smaller(video.0, slot.0)
    &&& fit.part.0.under == at_least_one(slot.0)
    &&& fit.part.1.over == smaller(video.1, slot.1)
    &&& fit.part.1.under == at_least_one(slot.1)
    &&& fit.limit.0.over == last_middle(smaller(video.0, slot.0))
    &&& fit.limit.0.under == 2 * at_least_one(slot.0)
    &&& fit.limit.1.over == last_middle(smaller(video.1, slot.1))
    &&& fit.limit.1.under == 2 * at_least_one(slot.1)
}

/// `video` fitted inside `window`, and sampled from the top-left corner of a
/// `slot`.
pub fn fit_uniform(video: (u32, u32), window: (u32, u32), slot: (u32, u32)) -> (fit: Fit)
    ensures
        fitted(video, window, slot, &fit),
{
    let scale = fit_scale(video, window);
    let (part_x, limit_x) = within(video.0, slot.0);
    let (part_y, limit_y) = within(video.1, slot.1);
    Fit { scale, part: (part_x, part_y), limit: (limit_x, limit_y) }
}

/// The picture keeps its aspect ratio: its width in the window is to its
/// height as the video's width is to the video's height.
pub proof fn lemma_aspect_is_kept(video: (u32, u32), window: (u32, u32), scale: (Ratio, Ratio))
    requires
        takes(video, window, scale),
    ensures
        (scale.0.over * at_least_one(window.0)) * at_least_one(video.1) * scale.1.under == (
        scale.1.over * at_least_one(window.1)) * at_least_one(video.0) * scale.0.under,
        scale.0.over <= scale.0.under,
        scale.1.over <= scale.1.under,
        scale.0.over == scale.0.under || scale.1.over == scale.1.under,
{
    let (vw, vh) = (at_least_one(video.0), at_least_one(video.1));
    let (ww, wh) = (at_least_one(window.0), at_least_one(window.1));
    let across = ww * vh;
    let down = wh * vw;
    if narrower(video, window) {
        assert((1 * ww) * vh * down == (across * wh) * vw * 1) by (nonlinear_arith)
            requires
                across == ww * vh,
                down == wh * vw,
        ;
    } else {
        assert((down * ww) * vh * 1 == (1 * wh) * vw * across) by (nonlinear_arith)
            requires
                across == ww * vh,
                down == wh * vw,
        ;
    }
}

/// Nothing outside the slot is sampled: the picture's part of it, and the
/// last pixel's middle, are within.
pub proof fn lemma_sampled_within_the_slot(video: u32, slot: u32)
    requires
        slot >= 1,
    ensures
        0 <= smaller(video, slot) <= at_least_one(slot),
        0 < last_middle(smaller(video, slot)) < 2 * at_least_one(slot),
        video >= 1 ==> last_middle(smaller(video, slot)) < 2 * smaller(video, slot),
{
}

/// Of a slot that has pixels, the part that is the picture is sampled, as many
/// pixels of it as there are of both, and nothing behind the middle of the
/// last of them.
pub proof fn lemma_the_picture_is_sampled(
    video: (u32, u32),
    window: (u32, u32),
    slot: (u32, u32),
    fit: Fit,
)
    requires
        fitted(video, window, slot, &fit),
        video.0 >= 1 && video.1 >= 1,
        slot.0 >= 1 && slot.1 >= 1,
    ensures
        video.0 <= slot.0 ==> fit.part.0.over * slot.0 == video.0 * fit.part.0.under,
        video.0 >= slot.0 ==> fit.part.0.over == fit.part.0.under,
        video.1 <= slot.1 ==> fit.part.1.over * slot.1 == video.1 * fit.part.1.under,
        video.1 >= slot.1 ==> fit.part.1.over == fit.part.1.under,
        video.0 <= slot.0 ==> fit.limit.0.over * (2 * slot.0) == (2 * video.0 - 1)
            * fit.limit.0.under,
        video.0 >= slot.0 ==> fit.limit.0.over * (2 * slot.0) == (2 * slot.0 - 1)
            * fit.limit.0.under,
        video.1 <= slot.1 ==> fit.limit.1.over * (2 * slot.1) == (2 * video.1 - 1)
            * fit.limit.1.under,
        video.1 >= slot.1 ==> fit.limit.1.over * (2 * slot.1) == (2 * slot.1 - 1)
            * fit.limit.1.under,
{
}

// --- The pointer over the picture ------------------------------------------------

/// A position in the window is counted in this many parts of a pixel.
pub const PARTS: i64 = 65_536;

/// What one pixel of the video takes of the window, over and under.
pub open spec fn zoom(video: (u32, u32), window: (u32, u32)) -> (int, int) {
    if narrower(video, window) {
        (at_least_one(window.0), at_least_one(video.0))
    } else {
        (at_least_one(window.1), at_least_one(video.1))
    }
}

/// The pixel of a video `size` long that is under `at`, in a window `window`
/// long where it is centred and zoomed; the nearest there is, over the bars.
pub open spec fn pixel_under(at: int, window: int, size: int, zoom: (int, int)) -> int {
    let pixel = (2 * at * zoom.1 - PARTS * (window * zoom.1 - size * zoom.0)) / (2 * PARTS
        * zoom.0);
    if pixel < 0 {
        0
    } else if pixel > size - 1 {
        size - 1
    } else {
        pixel
    }
}

/// A pixel, scaled so that the last one is 65535.
pub open spec fn on_scale(pixel: int, size: int) -> int {
    if size <= 1 {
        0
    } else {
        pixel * 65535 / (size - 1)
    }
}

/// What a window position comes to on the video.
pub open spec fn normalised(at: (int, int), window: (u32, u32), video: (u32, u32)) -> (int, int) {
    let (w, v) = (
        (at_least_one(window.0), at_least_one(window.1)),
        (at_least_one(video.0), at_least_one(video.1)),
    );
    let zoom = zoom(video, window);
    (
        on_scale(pixel_under(at.0, w.0, v.0, zoom), v.0),
        on_scale(pixel_under(at.1, w.1, v.1, zoom), v.1),
    )
}

/// A window position, in parts of a pixel, as normalised coordinates on the
/// video: the pixel under the pointer, scaled so the last pixel is 65535.
pub fn normalise(at: (i64, i64), window: (u32, u32), video: (u32, u32)) -> (point: (u16, u16))
    ensures
        (point.0 as int, point.1 as int) == normalised((at.0 as int, at.1 as int), window, video),
{
    let (ww, wh) = (one_or_more(window.0), one_or_more(window.1));
    let (vw, vh) = (one_or_more(video.0), one_or_more(video.1));
    let (over, under) = if product(ww, vh) <= product(wh, vw) {
        (ww, vw)
    } else {
        (wh, vh)
    };
    (axis(at.0, ww, vw, over, under), axis(at.1, wh, vh, over, under))
}

fn axis(at: i64, window: u64, size: u64, over: u64, under: u64) -> (point: u16)
    requires
        1 <= window <= u32::MAX,
        1 <= size <= u32::MAX,
        1 <= over <= u32::MAX,
        1 <= under <= u32::MAX,
    ensures
        point == on_scale(
            pixel_under(at as int, window as int, size as int, (over as int, under as int)),
            size as int,
        ),
{
    let room: i128 = product(window, under) as i128;
    let taken: i128 = product(size, over) as i128;
    let ghost doubled = 2 * at * under;
    assert(-0x2_0000_0000_0000_0000_0000_0000 <= doubled
        <= 0x2_0000_0000_0000_0000_0000_0000) by (nonlinear_arith)
        requires
            doubled == 2 * at * under,
            -0x8000_0000_0000_0000 <= at <= 0x7fff_ffff_ffff_ffff,
            1 <= under <= 0xffff_ffff,
    ;
    let top: i128 = 2 * at as i128 * under as i128 - 65_536 * (room - taken);
    let bottom: i128 = 131_072 * over as i128;
    let last: u64 = size - 1;
    let ghost pixel = pixel_under(
        at as int,
        window as int,
        size as int,
        (over as int, under as int),
    );
    let inside: u64 = if top < 0 {
        proof {
            lemma_negative_quotient(top as int, bottom as int);
        }
        0
    } else {
        let whole: i128 = top / bottom;
        if whole > last as i128 {
            last
        } else {
            whole as u64
        }
    };
    assert(inside == pixel);
    if last == 0 {
        return 0;
    }
    assert(0 <= inside * 65535 <= 0xffff_ffff * 65535 && inside * 65535 / (last as int) <= 65535)
        by (nonlinear_arith)
        requires
            0 <= inside <= last,
            1 <= last <= 0xffff_ffff,
    ;
    (inside * 65_535 / last) as u16
}

proof fn lemma_negative_quotient(top: int, bottom: int)
    by (nonlinear_arith)
    requires
        top < 0,
        bottom > 0,
    ensures
        top / bottom < 0,
{
}

/// Where the pointer is put on the host is never more than a pixel off the
/// one it was over here.
pub proof fn lemma_pointer_lands_within_a_pixel(pixel: int, size: u16)
    requires
        2 <= size,
        0 <= pixel < size,
    ensures
        0 <= on_scale(pixel, size as int) <= 65535,
        pixel - 1 <= denormalised(on_scale(pixel, size as int) as u16, size) <= pixel + 1,
{
    let last = size - 1;
    let v = pixel * 65535 / last;
    assert(0 <= v <= 65535 && v * last <= pixel * 65535 < v * last + last) by (nonlinear_arith)
        requires
            v == pixel * 65535 / last,
            0 <= pixel <= last,
            1 <= last,
    ;
    assert(pixel - 1 <= v * size / 65535 <= pixel + 1) by (nonlinear_arith)
        requires
            v * last <= pixel * 65535 < v * last + last,
            size == last + 1,
            0 <= v <= 65535,
            1 <= last <= 65534,
    ;
}

/// `n / d` is the largest that the picture can be drawn at: it is inside the
/// window, and fills it one way.
pub open spec fn drawn_at(video: (u32, u32), window: (u32, u32), n: int, d: int) -> bool {
    &&& n > 0 && d > 0
    &&& n * video.0 <= d * window.0
    &&& n * video.1 <= d * window.1
    &&& n * video.0 == d * window.0 || n * video.1 == d * window.1
}

/// Whatever the picture is drawn at is the zoom that the pointer goes by.
proof fn lemma_drawn_at_the_zoom(video: (u32, u32), window: (u32, u32), n: int, d: int)
    requires
        video.0 >= 1 && video.1 >= 1 && window.0 >= 1 && window.1 >= 1,
        drawn_at(video, window, n, d),
    ensures
        n * zoom(video, window).1 == zoom(video, window).0 * d,
        zoom(video, window).0 >= 1 && zoom(video, window).1 >= 1,
{
    let (vw, vh) = (video.0 as int, video.1 as int);
    let (ww, wh) = (window.0 as int, window.1 as int);
    if narrower(video, window) {
        if n * vw != d * ww {
            assert(false) by (nonlinear_arith)
                requires
                    n > 0 && d > 0 && vw >= 1 && vh >= 1 && ww >= 1 && wh >= 1,
                    n * vw < d * ww,
                    n * vh == d * wh,
                    ww * vh <= wh * vw,
            {
                assert((n * vw) * vh < (d * ww) * vh);
                assert((d * ww) * vh == d * (ww * vh));
                assert(d * (ww * vh) <= d * (wh * vw));
                assert(d * (wh * vw) == (n * vh) * vw);
            }
        }
    } else if n * vh != d * wh {
        assert(false) by (nonlinear_arith)
            requires
                n > 0 && d > 0 && vw >= 1 && vh >= 1 && ww >= 1 && wh >= 1,
                n * vh < d * wh,
                n * vw == d * ww,
                ww * vh > wh * vw,
        {
            assert((n * vh) * vw < (d * wh) * vw);
            assert((d * wh) * vw == d * (wh * vw));
            assert(d * (wh * vw) < d * (ww * vh));
            assert(d * (ww * vh) == (n * vw) * vh);
        }
    }
    assert(d * ww == ww * d && d * wh == wh * d) by (nonlinear_arith);
}

/// Where pixel `x` begins, in parts of a window's pixel and times `2 * d`:
/// the picture is in the middle of the window.
pub open spec fn begins(window: int, size: int, n: int, d: int, x: int) -> int {
    65_536 * (window * d - size * n + 2 * x * n)
}

proof fn lemma_pixel_at(at: int, window: int, size: int, zoom: (int, int), n: int, d: int, x: int)
    requires
        n > 0 && d > 0 && zoom.0 >= 1 && zoom.1 >= 1,
        n * zoom.1 == zoom.0 * d,
        size >= 1,
        begins(window, size, n, d, x) <= 2 * d * at < begins(window, size, n, d, x + 1),
    ensures
        (2 * at * zoom.1 - PARTS * (window * zoom.1 - size * zoom.0)) / (2 * PARTS * zoom.0) == x,
{
    let (z0, z1) = zoom;
    let top = 2 * at * z1 - 65536 * (window * z1 - size * z0);
    let b = begins(window, size, n, d, x);
    let e = begins(window, size, n, d, x + 1);
    assert(b * z1 == d * (65536 * (window * z1 - size * z0 + 2 * x * z0))) by (nonlinear_arith)
        requires
            b == 65536 * (window * d - size * n + 2 * x * n),
            n * z1 == z0 * d,
    ;
    assert(e * z1 == d * (65536 * (window * z1 - size * z0 + 2 * (x + 1) * z0)))
        by (nonlinear_arith)
        requires
            e == 65536 * (window * d - size * n + 2 * (x + 1) * n),
            n * z1 == z0 * d,
    ;
    let low = 65536 * (window * z1 - size * z0 + 2 * x * z0);
    let high = 65536 * (window * z1 - size * z0 + 2 * (x + 1) * z0);
    assert(low <= 2 * at * z1 < high) by (nonlinear_arith)
        requires
            d > 0 && z1 >= 1,
            b * z1 == d * low,
            e * z1 == d * high,
            b <= 2 * d * at < e,
    {
        assert(b * z1 <= (2 * d * at) * z1);
        assert((2 * d * at) * z1 < e * z1);
        assert((2 * d * at) * z1 == d * (2 * at * z1));
    }
    let bottom = 131072 * z0;
    assert(top / bottom == x) by (nonlinear_arith)
        requires
            z0 >= 1,
            bottom == 131072 * z0,
            65536 * (window * z1 - size * z0 + 2 * x * z0) <= 2 * at * z1 < 65536 * (window * z1
                - size * z0 + 2 * (x + 1) * z0),
            top == 2 * at * z1 - 65536 * (window * z1 - size * z0),
    {
        assert(bottom * x <= top < bottom * x + bottom);
    }
}

/// The pointer goes by the picture as it is drawn, and that is the largest
/// that is inside the window: where pixel `(x, y)` of the video is drawn, the
/// pointer is over pixel `(x, y)`, which is scaled so that the last pixel of a
/// side is 65535.
pub proof fn lemma_the_pointer_is_over_what_is_drawn_there(
    at: (int, int),
    window: (u32, u32),
    video: (u32, u32),
    n: int,
    d: int,
    x: int,
    y: int,
)
    requires
        video.0 >= 2 && video.1 >= 2 && window.0 >= 1 && window.1 >= 1,
        drawn_at(video, window, n, d),
        0 <= x < video.0,
        0 <= y < video.1,
        begins(window.0 as int, video.0 as int, n, d, x) <= 2 * d * at.0 < begins(
            window.0 as int,
            video.0 as int,
            n,
            d,
            x + 1,
        ),
        begins(window.1 as int, video.1 as int, n, d, y) <= 2 * d * at.1 < begins(
            window.1 as int,
            video.1 as int,
            n,
            d,
            y + 1,
        ),
    ensures
        normalised(at, window, video) == (x * 65535 / (video.0 - 1), y * 65535 / (video.1 - 1)),
{
    lemma_drawn_at_the_zoom(video, window, n, d);
    let zoom = zoom(video, window);
    lemma_pixel_at(at.0, window.0 as int, video.0 as int, zoom, n, d, x);
    lemma_pixel_at(at.1, window.1 as int, video.1 as int, zoom, n, d, y);
}

/// Over the bars beside the picture the pointer is at the picture's edge.
pub proof fn lemma_the_bars_are_the_edge(
    at: (int, int),
    window: (u32, u32),
    video: (u32, u32),
    n: int,
    d: int,
)
    requires
        video.0 >= 2 && video.1 >= 2 && window.0 >= 1 && window.1 >= 1,
        drawn_at(video, window, n, d),
    ensures
        2 * d * at.0 < begins(window.0 as int, video.0 as int, n, d, 0) ==> normalised(
            at,
            window,
            video,
        ).0 == 0,
        2 * d * at.0 >= begins(window.0 as int, video.0 as int, n, d, video.0 as int)
            ==> normalised(at, window, video).0 == 65535,
        2 * d * at.1 < begins(window.1 as int, video.1 as int, n, d, 0) ==> normalised(
            at,
            window,
            video,
        ).1 == 0,
        2 * d * at.1 >= begins(window.1 as int, video.1 as int, n, d, video.1 as int)
            ==> normalised(at, window, video).1 == 65535,
{
    lemma_drawn_at_the_zoom(video, window, n, d);
    let zoom = zoom(video, window);
    lemma_edge(at.0, window.0 as int, video.0 as int, zoom, n, d);
    lemma_edge(at.1, window.1 as int, video.1 as int, zoom, n, d);
}

proof fn lemma_edge(at: int, window: int, size: int, zoom: (int, int), n: int, d: int)
    requires
        n > 0 && d > 0 && zoom.0 >= 1 && zoom.1 >= 1,
        n * zoom.1 == zoom.0 * d,
        size >= 2,
    ensures
        2 * d * at < begins(window, size, n, d, 0) ==> on_scale(
            pixel_under(at, window, size, zoom),
            size,
        ) == 0,
        2 * d * at >= begins(window, size, n, d, size) ==> on_scale(
            pixel_under(at, window, size, zoom),
            size,
        ) == 65535,
{
    let b = begins(window, size, n, d, 0);
    let at2 = 2 * d * at;
    // The pixel that this would be, were the picture endless.
    let x = (at2 - b) / (2 * 65536 * n);
    let unit = 2 * 65536 * n;
    assert(unit > 0) by (nonlinear_arith)
        requires
            n > 0,
            unit == 2 * 65536 * n,
    ;
    assert(unit * x <= at2 - b < unit * x + unit) by (nonlinear_arith)
        requires
            unit > 0,
            x == (at2 - b) / unit,
    ;
    assert(begins(window, size, n, d, x) == b + unit * x) by (nonlinear_arith)
        requires
            unit == 2 * 65536 * n,
            b == 65536 * (window * d - size * n + 2 * 0 * n),
            begins(window, size, n, d, x) == 65536 * (window * d - size * n + 2 * x * n),
    ;
    assert(begins(window, size, n, d, x + 1) == b + unit * x + unit) by (nonlinear_arith)
        requires
            unit == 2 * 65536 * n,
            b == 65536 * (window * d - size * n + 2 * 0 * n),
            begins(window, size, n, d, x + 1) == 65536 * (window * d - size * n + 2 * (x + 1) * n),
    ;
    lemma_pixel_at(at, window, size, zoom, n, d, x);
    assert(pixel_under(at, window, size, zoom) == (if x < 0 {
        0
    } else if x > size - 1 {
        size - 1
    } else {
        x
    }));
    if at2 < b {
        assert(x < 0) by (nonlinear_arith)
            requires
                unit * x <= at2 - b,
                at2 < b,
                unit > 0,
        ;
        let last = size - 1;
        assert(0int / last == 0) by (nonlinear_arith)
            requires
                last >= 1,
        ;
    }
    if at2 >= begins(window, size, n, d, size) {
        assert(begins(window, size, n, d, size) == b + unit * size) by (nonlinear_arith)
            requires
                unit == 2 * 65536 * n,
                b == 65536 * (window * d - size * n + 2 * 0 * n),
                begins(window, size, n, d, size) == 65536 * (window * d - size * n + 2 * size * n),
        ;
        assert(x >= size) by (nonlinear_arith)
            requires
                at2 - b < unit * x + unit,
                at2 >= b + unit * size,
                unit > 0,
        ;
        let last = size - 1;
        assert(last * 65535 / last == 65535) by (nonlinear_arith)
            requires
                last >= 1,
        ;
    }
}

/// What the picture takes of the window is what it is drawn at.
pub proof fn lemma_the_picture_is_drawn_there(
    video: (u32, u32),
    window: (u32, u32),
    scale: (Ratio, Ratio),
    n: int,
    d: int,
)
    requires
        video.0 >= 1 && video.1 >= 1 && window.0 >= 1 && window.1 >= 1,
        takes(video, window, scale),
        drawn_at(video, window, n, d),
    ensures
        (scale.0.over * window.0) * d == (n * video.0) * scale.0.under,
        (scale.1.over * window.1) * d == (n * video.1) * scale.1.under,
{
    lemma_drawn_at_the_zoom(video, window, n, d);
    let (vw, vh) = (video.0 as int, video.1 as int);
    let (ww, wh) = (window.0 as int, window.1 as int);
    if narrower(video, window) {
        assert(n * vw == ww * d);
        assert((1 * ww) * d == (n * vw) * 1);
        assert(((ww * vh) * wh) * d == (n * vh) * (wh * vw)) by (nonlinear_arith)
            requires
                n * vw == ww * d,
        {
            assert((n * vh) * (wh * vw) == (n * vw) * (wh * vh));
            assert(((ww * vh) * wh) * d == (ww * d) * (wh * vh));
        }
    } else {
        assert(n * vh == wh * d);
        assert((1 * wh) * d == (n * vh) * 1);
        assert(((wh * vw) * ww) * d == (n * vw) * (ww * vh)) by (nonlinear_arith)
            requires
                n * vh == wh * d,
        {
            assert((n * vw) * (ww * vh) == (n * vh) * (ww * vw));
            assert(((wh * vw) * ww) * d == (wh * d) * (ww * vw));
        }
    }
}

}
