use vstd::prelude::*;
use vstd::arithmetic::div_mod::{lemma_fundamental_div_mod, lemma_fundamental_div_mod_converse};

verus! {

/// Byte `c` (0 red, 1 green, 2 blue, 3 alpha) of an opaque RGBA pixel.
pub open spec fn channel(rgb: (u8, u8, u8), c: int) -> u8 {
    if c == 0 {
        rgb.0
    } else if c == 1 {
        rgb.1
    } else if c == 2 {
        rgb.2
    } else {
        255u8
    }
}

/// Whether pixel number `pos` of a bitmap `w` pixels wide lies in the
/// `ps x ps` block that logical pixel `(x, y)` covers.
pub open spec fn in_block(pos: int, w: int, ps: int, x: int, y: int) -> bool {
    &&& x * ps <= pos % w < x * ps + ps
    &&& y * ps <= pos / w < y * ps + ps
}

/// An RGBA buffer after the block of logical pixel `(x, y)` is painted `rgb`.
pub open spec fn put_block(img: Seq<u8>, w: int, ps: int, x: int, y: int, rgb: (u8, u8, u8)) -> Seq<u8> {
    Seq::new(
        img.len(),
        |j: int|
            if in_block(j / 4, w, ps, x, y) {
                channel(rgb, j % 4)
            } else {
                img[j]
            },
    )
}

/// The part of a block that the row-by-column fill has painted: columns
/// before `ex`, and in column `ex` the rows before `ey`.
spec fn in_filled(pos: int, w: int, bx: int, by: int, ps: int, ex: int, ey: int) -> bool {
    let cx = pos % w - bx;
    let cy = pos / w - by;
    &&& 0 <= cx < ps
    &&& 0 <= cy < ps
    &&& (cx < ex || (cx == ex && cy < ey))
}

spec fn filled(img: Seq<u8>, w: int, bx: int, by: int, ps: int, ex: int, ey: int, rgb: (u8, u8, u8)) -> Seq<u8> {
    Seq::new(
        img.len(),
        |j: int|
            if in_filled(j / 4, w, bx, by, ps, ex, ey) {
                channel(rgb, j % 4)
            } else {
                img[j]
            },
    )
}

fn set_pixel(image: &mut Vec<u8>, pos: usize, rgb: (u8, u8, u8))
    requires
        4 * pos + 4 <= old(image)@.len(),
        4 * pos + 4 <= usize::MAX,
    ensures
        final(image)@ == Seq::new(
            old(image)@.len(),
            |j: int|
                if j / 4 == pos {
                    channel(rgb, j % 4)
                } else {
                    old(image)@[j]
                },
        ),
{
    let i = 4 * pos;
    image.set(i, rgb.0);
    image.set(i + 1, rgb.1);
    image.set(i + 2, rgb.2);
    image.set(i + 3, 255);
    assert(image@ =~= Seq::new(
        old(image)@.len(),
        |j: int|
            if j / 4 == pos {
                channel(rgb, j % 4)
            } else {
                old(image)@[j]
            },
    ));
}

proof fn lemma_position(w: int, h: int, cx: int, cy: int)
    requires
        0 <= cx < w,
        0 <= cy < h,
    ensures
        0 <= cx + cy * w < w * h,
        (cx + cy * w) % w == cx,
        (cx + cy * w) / w == cy,
{
    assert(cy * w <= (h - 1) * w) by (nonlinear_arith)
        requires
            0 <= cy < h,
            0 < w,
    ;
    assert((h - 1) * w == h * w - w) by (nonlinear_arith);
    assert(w * h == h * w) by (nonlinear_arith);
    assert(0 <= cy * w) by (nonlinear_arith)
        requires
            0 <= cy,
            0 < w,
    ;
    lemma_fundamental_div_mod_converse(cx + cy * w, w, cy, cx);
}

/// Paints the `ps x ps` block of logical pixel `(x, y)` in a buffer of
/// `w x h` RGBA pixels.
pub fn fill_block(image: &mut Vec<u8>, w: usize, h: usize, ps: usize, x: usize, y: usize, rgb: (u8, u8, u8))
    requires
        old(image)@.len() == w * h * 4,
        w * h * 4 <= usize::MAX,
        0 < ps,
        x * ps + ps <= w,
        y * ps + ps <= h,
    ensures
        final(image)@ == put_block(old(image)@, w as int, ps as int, x as int, y as int, rgb),
{
    let ghost img0 = image@;
    let bx = x * ps;
    let by = y * ps;
    let mut ex: usize = 0;
    assert(image@ =~= filled(img0, w as int, bx as int, by as int, ps as int, 0, 0, rgb));
    while ex < ps
        invariant
            0 <= ex <= ps,
            bx == x * ps,
            by == y * ps,
            bx + ps <= w,
            by + ps <= h,
            img0.len() == w * h * 4,
            w * h * 4 <= usize::MAX,
            image@ == filled(img0, w as int, bx as int, by as int, ps as int, ex as int, 0, rgb),
        decreases ps - ex,
    {
        let mut ey: usize = 0;
        while ey < ps
            invariant
                0 <= ex < ps,
                0 <= ey <= ps,
                bx + ps <= w,
                by + ps <= h,
                img0.len() == w * h * 4,
                w * h * 4 <= usize::MAX,
                image@ == filled(img0, w as int, bx as int, by as int, ps as int, ex as int, ey as int, rgb),
            decreases ps - ey,
        {
            let cx = bx + ex;
            let cy = by + ey;
            proof {
                lemma_position(w as int, h as int, cx as int, cy as int);
            }
            let pos = cx + cy * w;
            let ghost before = image@;
            set_pixel(image, pos, rgb);
            proof {
                let wi = w as int;
                assert forall|j: int| 0 <= j < img0.len() implies #[trigger] image@[j] == filled(
                    img0, wi, bx as int, by as int, ps as int, ex as int, ey + 1, rgb)[j] by {
                    let p = j / 4;
                    lemma_fundamental_div_mod(p, wi);
                    if p != pos {
                        assert(!(p % wi == cx && p / wi == cy)) by {
                            if p % wi == cx && p / wi == cy {
                                assert(p == wi * cy + cx);
                                assert(wi * cy == cy * wi) by (nonlinear_arith);
                            }
                        }
                    }
                }
                assert(image@ =~= filled(img0, wi, bx as int, by as int, ps as int, ex as int, ey + 1, rgb));
            }
            ey = ey + 1;
        }
        assert(filled(img0, w as int, bx as int, by as int, ps as int, ex as int, ps as int, rgb) =~= filled(
            img0, w as int, bx as int, by as int, ps as int, ex + 1, 0, rgb));
        ex = ex + 1;
    }
    assert(image@ =~= put_block(img0, w as int, ps as int, x as int, y as int, rgb));
}

} // verus!
