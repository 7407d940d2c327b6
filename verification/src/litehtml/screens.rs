//! What holds of the comparison of screenshots.

use crate::litehtml::pixels::{
    as_rgba, diff_count, diff_image, differs, padded, percentage, ColorType,
};
use crate::number::exact::{is_worth, whole_numbers_are_exact};
use crate::number::order::at_most;
use crate::number::whole::{per_cent_is_ordered, share_in_per_cent};
use vstd::prelude::*;

verus! {

/// How far apart the channel `c` of two pixels is at most.
pub open spec fn channel_near(p: Seq<u8>, r: Seq<u8>, i: int, c: int) -> bool {
    -13 <= p[4 * i + c] - r[4 * i + c] <= 13
}

/// Two pixels are the same where red, green and blue are each at most thirteen
/// apart; how opaque they are does not count.
pub proof fn same_in_every_colour(p: Seq<u8>, r: Seq<u8>, i: int)
    ensures
        differs(p, r, i) <==> !(-13 <= p[4 * i] - r[4 * i] <= 13) || !(-13 <= p[4 * i + 1] - r[4 * i
            + 1] <= 13) || !(-13 <= p[4 * i + 2] - r[4 * i + 2] <= 13),
        differs(p, r, i) <==> exists|c: int| 0 <= c < 3 && !#[trigger] channel_near(p, r, i, c),
{
    assert(channel_near(p, r, i, 0) == (-13 <= p[4 * i] - r[4 * i] <= 13));
    assert(channel_near(p, r, i, 1) == (-13 <= p[4 * i + 1] - r[4 * i + 1] <= 13));
    assert(channel_near(p, r, i, 2) == (-13 <= p[4 * i + 2] - r[4 * i + 2] <= 13));
}

/// No pixel is counted exactly where every colour of every pixel is at most
/// thirteen apart.
pub proof fn nothing_differs_exactly(p: Seq<u8>, r: Seq<u8>, n: nat)
    ensures
        diff_count(p, r, n) == 0 <==> forall|i: int, c: int|
            0 <= i < n && 0 <= c < 3 ==> #[trigger] channel_near(p, r, i, c),
    decreases n,
{
    if n > 0 {
        nothing_differs_exactly(p, r, (n - 1) as nat);
        same_in_every_colour(p, r, n - 1);
        if diff_count(p, r, n) == 0 {
            assert forall|i: int, c: int| 0 <= i < n && 0 <= c < 3 implies #[trigger] channel_near(
                p,
                r,
                i,
                c,
            ) by {}
        }
    }
}

/// A pixel more is counted exactly where one of its colours is too far apart, and
/// the others are counted as before.
pub proof fn each_pixel_counts_once(p: Seq<u8>, r: Seq<u8>, n: nat)
    ensures
        diff_count(p, r, 0) == 0,
        diff_count(p, r, n + 1) == diff_count(p, r, n) + if channel_near(p, r, n as int, 0)
            && channel_near(p, r, n as int, 1) && channel_near(p, r, n as int, 2) {
            0nat
        } else {
            1nat
        },
{
    same_in_every_colour(p, r, n as int);
}

/// Whether two images have the same colours in a pixel.
pub open spec fn same_colours(p: Seq<u8>, q: Seq<u8>, i: int) -> bool {
    p[4 * i] == q[4 * i] && p[4 * i + 1] == q[4 * i + 1] && p[4 * i + 2] == q[4 * i + 2]
}

/// The count looks at nothing but the colours.
pub proof fn count_is_of_colours(p: Seq<u8>, q: Seq<u8>, r: Seq<u8>, n: nat)
    requires
        forall|i: int| 0 <= i < n ==> #[trigger] same_colours(p, q, i),
    ensures
        diff_count(p, r, n) == diff_count(q, r, n),
    decreases n,
{
    if n > 0 {
        assert(same_colours(p, q, n - 1));
        count_is_of_colours(p, q, r, (n - 1) as nat);
    }
}

/// The picture of the differences: opaque red where a colour is too far apart, and
/// a third of the reference where none is.
pub proof fn picture_shows_the_differences(p: Seq<u8>, r: Seq<u8>, n: nat, i: int)
    requires
        0 <= i < n,
    ensures
        diff_image(p, r, n).len() == 4 * n,
        ({
            let d = diff_image(p, r, n);
            let near = channel_near(p, r, i, 0) && channel_near(p, r, i, 1) && channel_near(p, r, i, 2);
            &&& d[4 * i + 3] == 255
            &&& !near ==> d[4 * i] == 255 && d[4 * i + 1] == 0 && d[4 * i + 2] == 0
            &&& near ==> d[4 * i] == r[4 * i] / 3 && d[4 * i + 1] == r[4 * i + 1] / 3 && d[4 * i
                + 2] == r[4 * i + 2] / 3
        }),
{
    same_in_every_colour(p, r, i);
}

proof fn place_of(x: int, y: int, w: int, c: int)
    requires
        0 <= x < w,
        0 <= y,
        0 <= c < 4,
    ensures
        ((y * w + x) * 4 + c) % (w * 4) == x * 4 + c,
        ((y * w + x) * 4 + c) / (w * 4) == y,
{
    let k = (y * w + x) * 4 + c;
    assert(k == y * (w * 4) + (x * 4 + c)) by (nonlinear_arith)
        requires
            k == (y * w + x) * 4 + c,
    ;
    vstd::arithmetic::div_mod::lemma_fundamental_div_mod_converse(k, w * 4, y, x * 4 + c);
}

proof fn place_within(x: int, y: int, w: int, h: int, c: int)
    requires
        0 <= x < w,
        0 <= y < h,
        0 <= c < 4,
    ensures
        0 <= (y * w + x) * 4 + c < h * (w * 4),
{
    assert(0 <= (y * w + x) * 4 + c < h * (w * 4)) by (nonlinear_arith)
        requires
            0 <= x < w,
            0 <= y < h,
            0 <= c < 4,
    ;
}

/// An image that is extended keeps each of its pixels where it stands, and is
/// white beyond them.
pub proof fn extended_with_white(
    rgba: Seq<u8>,
    w: int,
    h: int,
    tw: int,
    th: int,
    x: int,
    y: int,
    c: int,
)
    requires
        0 <= x < tw,
        0 <= y < th,
        0 <= c < 4,
        0 <= w,
    ensures
        x < w && y < h ==> padded(rgba, w, h, tw, th)[(y * tw + x) * 4 + c] == rgba[(y * w + x) * 4
            + c],
        !(x < w && y < h) ==> padded(rgba, w, h, tw, th)[(y * tw + x) * 4 + c] == 255,
        padded(rgba, w, h, tw, th).len() == tw * th * 4,
{
    place_of(x, y, tw, c);
    place_within(x, y, tw, th, c);
    if x < w && y < h {
        assert(y * (w * 4) + (x * 4 + c) == (y * w + x) * 4 + c) by (nonlinear_arith);
    }
    assert(th * (tw * 4) == tw * th * 4) by (nonlinear_arith);
    assert(th * (tw * 4) >= 0) by (nonlinear_arith)
        requires
            th >= 0,
            tw >= 0,
    ;
}

/// Samples become pixels: colours stay, grey is all three colours, and what has no
/// word on it is opaque.
pub proof fn samples_become_pixels(buf: Seq<u8>, i: int)
    requires
        0 <= i,
    ensures
        as_rgba(buf, ColorType::Rgba) == buf,
        3 * i + 2 < buf.len() ==> {
            let v = as_rgba(buf, ColorType::Rgb);
            v[4 * i] == buf[3 * i] && v[4 * i + 1] == buf[3 * i + 1] && v[4 * i + 2] == buf[3 * i
                + 2] && v[4 * i + 3] == 255
        },
        i < buf.len() ==> {
            let v = as_rgba(buf, ColorType::Grayscale);
            v[4 * i] == buf[i] && v[4 * i + 1] == buf[i] && v[4 * i + 2] == buf[i] && v[4 * i + 3]
                == 255
        },
        2 * i + 1 < buf.len() ==> {
            let v = as_rgba(buf, ColorType::GrayscaleAlpha);
            v[4 * i] == buf[2 * i] && v[4 * i + 1] == buf[2 * i] && v[4 * i + 2] == buf[2 * i]
                && v[4 * i + 3] == buf[2 * i + 1]
        },
        as_rgba(buf, ColorType::Rgb).len() == 4 * (buf.len() / 3),
        as_rgba(buf, ColorType::Grayscale).len() == 4 * buf.len(),
        as_rgba(buf, ColorType::GrayscaleAlpha).len() == 4 * (buf.len() / 2),
{
}

/// All pixels are a hundred per cent, half of them fifty, none nothing.
pub proof fn percentage_ends(part: nat, whole: nat)
    requires
        part <= whole <= 0x20_0000_0000_0000,
    ensures
        part == whole && whole > 0 ==> is_worth(percentage(part, whole), 100),
        part == 0 ==> is_worth(percentage(part, whole), 0),
        2 * part == whole && whole > 0 ==> is_worth(percentage(part, whole), 50),
{
    if whole > 0 {
        share_in_per_cent(part, whole);
    }
    whole_numbers_are_exact(0);
}

/// More pixels are no less per cent, and the same share of more pixels is the same.
pub proof fn percentage_grows(a: nat, b: nat, whole: nat, k: nat)
    requires
        a <= b <= whole,
        0 < whole,
        0 < k,
        whole * k <= 0x20_0000_0000_0000,
    ensures
        at_most(percentage(a, whole), percentage(b, whole)),
        percentage(a * k, whole * k) == percentage(a, whole),
{
    per_cent_is_ordered(a, b, whole, k);
}

} // verus!
