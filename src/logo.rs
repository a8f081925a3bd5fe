use vstd::prelude::*;
use crate::color::{decode_color, token_color, token_decodes};
use crate::raster::{fill_block, in_block, put_block};

verus! {

/// How a logo is rendered: the scale of one logical pixel, an optional
/// single character to render alone, and whether that character's empty
/// top margin is cropped.
#[derive(Debug, Clone, Copy)]
pub struct LogoOptions {
    pub size: Option<u32>,
    pub character: Option<usize>,
    pub crop: bool,
}

impl Default for LogoOptions {
    fn default() -> (r: Self)
        ensures
            r.size.is_none(),
            r.character.is_none(),
            !r.crop,
    {
        LogoOptions { size: None, character: None, crop: false }
    }
}

/// A logo description: characters, each a list of panels, each a list of
/// color tokens in raster order, eight to a row.
#[derive(Debug, Clone)]
pub struct LogoResponse {
    pub logo: Vec<Vec<Vec<String>>>,
}

impl View for LogoResponse {
    type V = Seq<Seq<Seq<Seq<char>>>>;

    open spec fn view(&self) -> Seq<Seq<Seq<Seq<char>>>> {
        self.logo.deep_view()
    }
}

/// A rendered RGBA8 bitmap.
#[derive(Debug, Clone)]
pub struct Logo {
    pub width: usize,
    pub height: usize,
    pub data: Vec<u8>,
}

/// Why a logo could not be rendered.
#[derive(Debug, Clone, Copy, PartialEq, Eq)]
pub enum RenderError {
    /// The requested character is not in the description.
    InvalidCharacterIndex(usize),
    /// A color token of a color length holds a character that is no
    /// hexadecimal digit.
    ColorParse,
    /// A pixel belongs to a panel that has no place in its character's
    /// glyph table, or lands outside the canvas.
    UnplacedPixel,
    /// The bitmap could not be encoded as PNG.
    Encode,
}

/// Where each panel of each of the seven character shapes starts, in
/// logical pixels from the character's corner.
pub open spec fn origin_row(ci: int) -> Seq<(int, int)> {
    if ci == 0 {
        seq![(0, 0), (0, 16), (0, 24), (0, 32)]
    } else if ci == 1 || ci == 5 {
        seq![(0, 0), (0, 8), (8, 8), (0, 16), (0, 24), (8, 24), (16, 24)]
    } else if ci == 2 {
        seq![(0, 8), (8, 8), (16, 8), (0, 16), (16, 16), (0, 24), (8, 24), (16, 24)]
    } else if ci == 3 {
        seq![(0, 8), (8, 8), (16, 8), (0, 16), (0, 24)]
    } else if ci == 4 {
        seq![(8, 8), (16, 8), (0, 16), (16, 16), (0, 24), (8, 24), (16, 24)]
    } else if ci == 6 {
        seq![(0, 8), (8, 8), (16, 8), (0, 16), (16, 16), (0, 24), (8, 24)]
    } else {
        seq![]
    }
}

/// The origin of panel `p` of character `ci`, if the glyph table has one.
pub open spec fn panel_origin(ci: int, p: int) -> Option<(int, int)> {
    let row = origin_row(ci);
    if 0 <= p < row.len() {
        Some(row[p])
    } else {
        None
    }
}

fn origin_of(ci: usize, p: usize) -> (r: Option<(i64, i64)>)
    ensures
        r.is_some() == panel_origin(ci as int, p as int).is_some(),
        r.is_none() == panel_origin(ci as int, p as int).is_none(),
        r.is_some() ==> (r.unwrap().0 as int, r.unwrap().1 as int) == panel_origin(
            ci as int,
            p as int,
        ).unwrap(),
        r.is_some() ==> 0 <= r.unwrap().0 <= 16 && 0 <= r.unwrap().1 <= 32,
{
    let row: Vec<(i64, i64)> = if ci == 0 {
        vec![(0, 0), (0, 16), (0, 24), (0, 32)]
    } else if ci == 1 || ci == 5 {
        vec![(0, 0), (0, 8), (8, 8), (0, 16), (0, 24), (8, 24), (16, 24)]
    } else if ci == 2 {
        vec![(0, 8), (8, 8), (16, 8), (0, 16), (16, 16), (0, 24), (8, 24), (16, 24)]
    } else if ci == 3 {
        vec![(0, 8), (8, 8), (16, 8), (0, 16), (0, 24)]
    } else if ci == 4 {
        vec![(8, 8), (16, 8), (0, 16), (16, 16), (0, 24), (8, 24), (16, 24)]
    } else if ci == 6 {
        vec![(0, 8), (8, 8), (16, 8), (0, 16), (16, 16), (0, 24), (8, 24)]
    } else {
        vec![]
    };
    if p < row.len() {
        Some(row[p])
    } else {
        None
    }
}


/// The scale of one logical pixel.
pub open spec fn pixel_scale(o: LogoOptions) -> int {
    match o.size {
        Some(s) => s as int,
        None => 1,
    }
}

/// Whether the largest canvas at this scale has a byte length that fits
/// in memory.
pub open spec fn scale_fits(o: LogoOptions) -> bool {
    152 * 32 * 4 * pixel_scale(o) * pixel_scale(o) <= usize::MAX
}

/// How far right character `ci` starts in the full strip; characters past
/// the seventh have no glyph and get no offset.
pub open spec fn letter_x(ci: int) -> int {
    if ci == 0 {
        0
    } else if ci < 7 {
        (ci * 3 - 2) * 8
    } else {
        0
    }
}

/// The vertical shift of a character rendered alone: cropping lifts the
/// shapes whose glyph starts a panel lower.
pub open spec fn crop_shift(o: LogoOptions, i: int) -> int {
    if o.crop && !(i == 0 || i == 1 || i == 5) {
        -8
    } else {
        0
    }
}

/// The canvas width in logical pixels.
pub open spec fn canvas_cols(o: LogoOptions) -> int {
    match o.character {
        None => 152,
        Some(i) => if i == 0 {
            8
        } else {
            24
        },
    }
}

/// The canvas height in logical pixels.
pub open spec fn canvas_rows(o: LogoOptions) -> int {
    match o.character {
        None => 32,
        Some(i) => 32 + crop_shift(o, i as int),
    }
}

/// Where token `k` of panel `p` of character `ci` lands, in logical pixels.
pub open spec fn pixel_place(ci: int, p: int, k: int, lx: int, ly: int) -> (int, int) {
    let o = panel_origin(ci, p).unwrap();
    (o.0 + k % 8 + lx, o.1 + k / 8 + ly)
}

/// Whether token `k` of panel `p` has a place on a `cols x rows` canvas.
pub open spec fn pixel_fits(ci: int, p: int, k: int, lx: int, ly: int, cols: int, rows: int) -> bool {
    &&& panel_origin(ci, p).is_some()
    &&& 0 <= pixel_place(ci, p, k, lx, ly).0 < cols
    &&& 0 <= pixel_place(ci, p, k, lx, ly).1 < rows
}

/// The first `k` tokens of panel `p` have a place on the canvas and decode.
pub open spec fn tokens_ok(
    panel: Seq<Seq<char>>,
    k: int,
    ci: int,
    p: int,
    lx: int,
    ly: int,
    cols: int,
    rows: int,
) -> bool {
    forall|j: int|
        #![trigger panel[j]]
        #![trigger pixel_fits(ci, p, j, lx, ly, cols, rows)]
        0 <= j < k ==> pixel_fits(ci, p, j, lx, ly, cols, rows) && token_decodes(panel[j])
}

/// The first `n` panels of a character have all their tokens placed and
/// decodable.
pub open spec fn panels_ok(
    chr: Seq<Seq<Seq<char>>>,
    n: int,
    ci: int,
    lx: int,
    ly: int,
    cols: int,
    rows: int,
) -> bool {
    forall|p: int|
        0 <= p < n ==> #[trigger] tokens_ok(chr[p], chr[p].len() as int, ci, p, lx, ly, cols, rows)
}

/// Every token of a character has a place on the canvas and decodes.
pub open spec fn character_placed(
    chr: Seq<Seq<Seq<char>>>,
    ci: int,
    lx: int,
    ly: int,
    cols: int,
    rows: int,
) -> bool {
    panels_ok(chr, chr.len() as int, ci, lx, ly, cols, rows)
}

/// What goes wrong with token `k` of panel `p`, if anything: a token with
/// no place on the canvas is unplaced; a placed one may fail to decode.
pub open spec fn token_error(
    token: Seq<char>,
    ci: int,
    p: int,
    k: int,
    lx: int,
    ly: int,
    cols: int,
    rows: int,
) -> Option<RenderError> {
    if !pixel_fits(ci, p, k, lx, ly, cols, rows) {
        Some(RenderError::UnplacedPixel)
    } else if !token_decodes(token) {
        Some(RenderError::ColorParse)
    } else {
        None
    }
}

/// The error of the first failing token among the first `k` of a panel.
pub open spec fn panel_error(
    panel: Seq<Seq<char>>,
    k: int,
    ci: int,
    p: int,
    lx: int,
    ly: int,
    cols: int,
    rows: int,
) -> Option<RenderError>
    decreases k,
{
    if k <= 0 {
        None
    } else {
        let before = panel_error(panel, k - 1, ci, p, lx, ly, cols, rows);
        if before.is_some() {
            before
        } else {
            token_error(panel[k - 1], ci, p, k - 1, lx, ly, cols, rows)
        }
    }
}

/// The error of the first failing token, panel by panel and in raster
/// order, among the first `n` panels of a character.
pub open spec fn character_error(
    chr: Seq<Seq<Seq<char>>>,
    n: int,
    ci: int,
    lx: int,
    ly: int,
    cols: int,
    rows: int,
) -> Option<RenderError>
    decreases n,
{
    if n <= 0 {
        None
    } else {
        let before = character_error(chr, n - 1, ci, lx, ly, cols, rows);
        if before.is_some() {
            before
        } else {
            panel_error(chr[n - 1], chr[n - 1].len() as int, ci, n - 1, lx, ly, cols, rows)
        }
    }
}

/// Every token of a character has a place on the canvas and decodes.
pub open spec fn character_ok(
    chr: Seq<Seq<Seq<char>>>,
    ci: int,
    lx: int,
    ly: int,
    cols: int,
    rows: int,
) -> bool {
    character_error(chr, chr.len() as int, ci, lx, ly, cols, rows).is_none()
}

/// The result a character's first failing token gives.
pub open spec fn error_result(e: Option<RenderError>) -> Result<(), RenderError> {
    match e {
        None => Ok(()),
        Some(x) => Err(x),
    }
}

/// No error, or one that a token causes.
pub open spec fn token_caused(e: Option<RenderError>) -> bool {
    e.is_none() || e == Some(RenderError::UnplacedPixel) || e == Some(RenderError::ColorParse)
}

proof fn lemma_panel_error_kind(
    panel: Seq<Seq<char>>,
    k: int,
    ci: int,
    p: int,
    lx: int,
    ly: int,
    cols: int,
    rows: int,
)
    ensures
        token_caused(panel_error(panel, k, ci, p, lx, ly, cols, rows)),
    decreases k,
{
    if k > 0 {
        lemma_panel_error_kind(panel, k - 1, ci, p, lx, ly, cols, rows);
    }
}

proof fn lemma_character_error_kind(
    chr: Seq<Seq<Seq<char>>>,
    n: int,
    ci: int,
    lx: int,
    ly: int,
    cols: int,
    rows: int,
)
    ensures
        token_caused(character_error(chr, n, ci, lx, ly, cols, rows)),
    decreases n,
{
    if n > 0 {
        lemma_character_error_kind(chr, n - 1, ci, lx, ly, cols, rows);
        lemma_panel_error_kind(chr[n - 1], chr[n - 1].len() as int, ci, n - 1, lx, ly, cols, rows);
    }
}

proof fn lemma_panel_error_stays(
    panel: Seq<Seq<char>>,
    k1: int,
    k2: int,
    ci: int,
    p: int,
    lx: int,
    ly: int,
    cols: int,
    rows: int,
)
    requires
        0 <= k1 <= k2,
        panel_error(panel, k1, ci, p, lx, ly, cols, rows).is_some(),
    ensures
        panel_error(panel, k2, ci, p, lx, ly, cols, rows) == panel_error(panel, k1, ci, p, lx, ly, cols, rows),
    decreases k2,
{
    if k2 > k1 {
        lemma_panel_error_stays(panel, k1, k2 - 1, ci, p, lx, ly, cols, rows);
    }
}

proof fn lemma_character_error_stays(
    chr: Seq<Seq<Seq<char>>>,
    n1: int,
    n2: int,
    ci: int,
    lx: int,
    ly: int,
    cols: int,
    rows: int,
)
    requires
        0 <= n1 <= n2,
        character_error(chr, n1, ci, lx, ly, cols, rows).is_some(),
    ensures
        character_error(chr, n2, ci, lx, ly, cols, rows) == character_error(chr, n1, ci, lx, ly, cols, rows),
    decreases n2,
{
    if n2 > n1 {
        lemma_character_error_stays(chr, n1, n2 - 1, ci, lx, ly, cols, rows);
    }
}

proof fn lemma_panel_error_none(
    panel: Seq<Seq<char>>,
    k: int,
    ci: int,
    p: int,
    lx: int,
    ly: int,
    cols: int,
    rows: int,
)
    requires
        0 <= k <= panel.len(),
        panel_error(panel, k, ci, p, lx, ly, cols, rows).is_none(),
    ensures
        tokens_ok(panel, k, ci, p, lx, ly, cols, rows),
    decreases k,
{
    if k > 0 {
        lemma_panel_error_none(panel, k - 1, ci, p, lx, ly, cols, rows);
        assert(token_error(panel[k - 1], ci, p, k - 1, lx, ly, cols, rows).is_none());
        lemma_tokens_extend(panel, k - 1, ci, p, lx, ly, cols, rows);
    }
}

proof fn lemma_character_error_none(
    chr: Seq<Seq<Seq<char>>>,
    n: int,
    ci: int,
    lx: int,
    ly: int,
    cols: int,
    rows: int,
)
    requires
        0 <= n <= chr.len(),
        character_error(chr, n, ci, lx, ly, cols, rows).is_none(),
    ensures
        panels_ok(chr, n, ci, lx, ly, cols, rows),
    decreases n,
{
    if n > 0 {
        lemma_character_error_none(chr, n - 1, ci, lx, ly, cols, rows);
        lemma_panel_error_none(chr[n - 1], chr[n - 1].len() as int, ci, n - 1, lx, ly, cols, rows);
        assert forall|q: int| 0 <= q < n implies #[trigger] tokens_ok(
            chr[q],
            chr[q].len() as int,
            ci,
            q,
            lx,
            ly,
            cols,
            rows,
        ) by {
            if q < n - 1 {
            }
        }
    }
}

/// A buffer `w` pixels wide after the first `k` tokens of panel `p` of
/// character `ci` are painted, each as a `ps x ps` block.
pub open spec fn paint_panel(
    img: Seq<u8>,
    panel: Seq<Seq<char>>,
    k: int,
    ci: int,
    p: int,
    lx: int,
    ly: int,
    w: int,
    ps: int,
) -> Seq<u8>
    decreases k,
{
    if k <= 0 {
        img
    } else {
        let at = pixel_place(ci, p, k - 1, lx, ly);
        put_block(
            paint_panel(img, panel, k - 1, ci, p, lx, ly, w, ps),
            w,
            ps,
            at.0,
            at.1,
            token_color(panel[k - 1]),
        )
    }
}

/// A buffer after the first `n` panels of character `ci` are painted.
pub open spec fn paint_character(
    img: Seq<u8>,
    chr: Seq<Seq<Seq<char>>>,
    n: int,
    ci: int,
    lx: int,
    ly: int,
    w: int,
    ps: int,
) -> Seq<u8>
    decreases n,
{
    if n <= 0 {
        img
    } else {
        let before = paint_character(img, chr, n - 1, ci, lx, ly, w, ps);
        paint_panel(before, chr[n - 1], chr[n - 1].len() as int, ci, n - 1, lx, ly, w, ps)
    }
}

proof fn lemma_tokens_extend(
    panel: Seq<Seq<char>>,
    k: int,
    ci: int,
    p: int,
    lx: int,
    ly: int,
    cols: int,
    rows: int,
)
    requires
        0 <= k < panel.len(),
        tokens_ok(panel, k, ci, p, lx, ly, cols, rows),
        pixel_fits(ci, p, k, lx, ly, cols, rows),
        token_decodes(panel[k]),
    ensures
        tokens_ok(panel, k + 1, ci, p, lx, ly, cols, rows),
{
    assert forall|j: int|
        #![trigger panel[j]]
        #![trigger pixel_fits(ci, p, j, lx, ly, cols, rows)]
        0 <= j < k + 1 implies pixel_fits(ci, p, j, lx, ly, cols, rows) && token_decodes(panel[j]) by {
        if j < k {
            assert(token_decodes(panel[j]));
        }
    }
    assert(tokens_ok(panel, k + 1, ci, p, lx, ly, cols, rows));
}

proof fn lemma_bad_token(
    chr: Seq<Seq<Seq<char>>>,
    p: int,
    k: int,
    ci: int,
    lx: int,
    ly: int,
    cols: int,
    rows: int,
)
    requires
        0 <= p < chr.len(),
        0 <= k < chr[p].len(),
        !(pixel_fits(ci, p, k, lx, ly, cols, rows) && token_decodes(chr[p][k])),
    ensures
        !character_placed(chr, ci, lx, ly, cols, rows),
{
    if character_placed(chr, ci, lx, ly, cols, rows) {
        assert(tokens_ok(chr[p], chr[p].len() as int, ci, p, lx, ly, cols, rows));
        assert(token_decodes(chr[p][k]));
    }
}

/// Paints the blocks of a character's tokens in order; a token without a
/// place or a color stops it, with part of the canvas painted.
fn paint_character_blocks(
    chr: &Vec<Vec<String>>,
    char_index: usize,
    pixel_size: usize,
    cols: usize,
    rows: usize,
    image: &mut Vec<u8>,
    letter_x: i64,
    letter_y: i64,
) -> (r: Result<(), RenderError>)
    requires
        0 < pixel_size,
        cols <= 152,
        rows <= 32,
        0 <= letter_x <= 128,
        -8 <= letter_y <= 0,
        cols * pixel_size <= usize::MAX,
        rows * pixel_size <= usize::MAX,
        old(image)@.len() == (cols * pixel_size) * (rows * pixel_size) * 4,
        (cols * pixel_size) * (rows * pixel_size) * 4 <= usize::MAX,
    ensures
        final(image)@.len() == old(image)@.len(),
        r.is_ok() == character_placed(
            chr.deep_view(),
            char_index as int,
            letter_x as int,
            letter_y as int,
            cols as int,
            rows as int,
        ),
        r.is_ok() ==> final(image)@ == paint_character(
            old(image)@,
            chr.deep_view(),
            chr@.len() as int,
            char_index as int,
            letter_x as int,
            letter_y as int,
            (cols * pixel_size) as int,
            pixel_size as int,
        ),
        r.is_err() ==> r == Err::<(), RenderError>(RenderError::ColorParse) || r == Err::<
            (),
            RenderError,
        >(RenderError::UnplacedPixel),
{
    let ghost img0 = image@;
    let ghost dv = chr.deep_view();
    let ghost ci = char_index as int;
    let ghost lx = letter_x as int;
    let ghost ly = letter_y as int;
    let w = cols * pixel_size;
    let h = rows * pixel_size;
    let ghost wi = w as int;
    let ghost ps = pixel_size as int;
    let mut p: usize = 0;
    while p < chr.len()
        invariant
            0 <= p <= chr@.len(),
            dv == chr.deep_view(),
            ci == char_index as int,
            lx == letter_x as int,
            ly == letter_y as int,
            wi == w as int,
            ps == pixel_size as int,
            img0 == old(image)@,
            w == cols * pixel_size,
            h == rows * pixel_size,
            0 < pixel_size,
            cols <= 152,
            rows <= 32,
            0 <= letter_x <= 128,
            -8 <= letter_y <= 0,
            image@.len() == w * h * 4,
            img0.len() == w * h * 4,
            w * h * 4 <= usize::MAX,
            image@ == paint_character(img0, dv, p as int, ci, lx, ly, wi, ps),
            panels_ok(dv, p as int, ci, lx, ly, cols as int, rows as int),
        decreases chr@.len() - p,
    {
        let panel = &chr[p];
        let ghost start = image@;
        let mut k: usize = 0;
        while k < panel.len()
            invariant
                0 <= p < chr@.len(),
                0 <= k <= panel@.len(),
                *panel == chr@[p as int],
                dv == chr.deep_view(),
                ci == char_index as int,
                lx == letter_x as int,
                ly == letter_y as int,
                wi == w as int,
                ps == pixel_size as int,
                img0 == old(image)@,
                w == cols * pixel_size,
                h == rows * pixel_size,
                0 < pixel_size,
                cols <= 152,
                rows <= 32,
                0 <= letter_x <= 128,
                -8 <= letter_y <= 0,
                image@.len() == w * h * 4,
                img0.len() == w * h * 4,
                image@.len() == img0.len(),
                w * h * 4 <= usize::MAX,
                start == paint_character(img0, dv, p as int, ci, lx, ly, wi, ps),
                image@ == paint_panel(start, dv[p as int], k as int, ci, p as int, lx, ly, wi, ps),
                panels_ok(dv, p as int, ci, lx, ly, cols as int, rows as int),
                tokens_ok(dv[p as int], k as int, ci, p as int, lx, ly, cols as int, rows as int),
            decreases panel@.len() - k,
        {
            assert(dv[p as int][k as int] == panel@[k as int]@);
            let origin = origin_of(char_index, p);
            if origin.is_none() {
                proof {
                    assert(panel_origin(ci, p as int).is_none());
                    lemma_bad_token(dv, p as int, k as int, ci, lx, ly, cols as int, rows as int);
                }
                return Err(RenderError::UnplacedPixel);
            }
            let (ox, oy) = origin.unwrap();
            let x: i64 = ox + (k % 8) as i64 + letter_x;
            let y: i64 = oy + (k / 8) as i64 + letter_y;
            proof {
                let at = pixel_place(ci, p as int, k as int, lx, ly);
                assert(panel_origin(ci, p as int).is_some());
                assert(at.0 == x as int);
                assert(at.1 == y as int);
            }
            if x < 0 || x >= cols as i64 || y < 0 || y >= rows as i64 {
                proof {
                    lemma_bad_token(dv, p as int, k as int, ci, lx, ly, cols as int, rows as int);
                }
                return Err(RenderError::UnplacedPixel);
            }
            let rgb = match decode_color(panel[k].as_str()) {
                Ok(c) => c,
                Err(_) => {
                    proof {
                        lemma_bad_token(dv, p as int, k as int, ci, lx, ly, cols as int, rows as int);
                    }
                    return Err(RenderError::ColorParse);
                },
            };
            assert(token_decodes(dv[p as int][k as int]));
            assert(pixel_fits(ci, p as int, k as int, lx, ly, cols as int, rows as int));
            proof {
                lemma_tokens_extend(dv[p as int], k as int, ci, p as int, lx, ly, cols as int, rows as int);
            }
            let xu = x as usize;
            let yu = y as usize;
            assert(xu * pixel_size + pixel_size <= w) by (nonlinear_arith)
                requires
                    xu < cols,
                    w == cols * pixel_size,
            ;
            assert(yu * pixel_size + pixel_size <= h) by (nonlinear_arith)
                requires
                    yu < rows,
                    h == rows * pixel_size,
            ;
            fill_block(image, w, h, pixel_size, xu, yu, rgb);
            k = k + 1;
        }
        assert(dv[p as int].len() == panel@.len());
        assert(panels_ok(dv, p + 1, ci, lx, ly, cols as int, rows as int)) by {
            assert forall|q: int| 0 <= q < p + 1 implies #[trigger] tokens_ok(
                dv[q],
                dv[q].len() as int,
                ci,
                q,
                lx,
                ly,
                cols as int,
                rows as int,
            ) by {
                if q < p {
                }
            }
        }
        p = p + 1;
    }
    Ok(())
}

fn check_character(
    chr: &Vec<Vec<String>>,
    char_index: usize,
    cols: usize,
    rows: usize,
    letter_x: i64,
    letter_y: i64,
) -> (r: Result<(), RenderError>)
    requires
        cols <= 152,
        rows <= 32,
        0 <= letter_x <= 128,
        -8 <= letter_y <= 0,
    ensures
        r == error_result(
            character_error(
                chr.deep_view(),
                chr@.len() as int,
                char_index as int,
                letter_x as int,
                letter_y as int,
                cols as int,
                rows as int,
            ),
        ),
{
    let ghost dv = chr.deep_view();
    let ghost ci = char_index as int;
    let ghost lx = letter_x as int;
    let ghost ly = letter_y as int;
    let ghost c = cols as int;
    let ghost rw = rows as int;
    assert(dv.len() == chr@.len());
    let mut p: usize = 0;
    while p < chr.len()
        invariant
            0 <= p <= chr@.len(),
            dv == chr.deep_view(),
            ci == char_index as int,
            lx == letter_x as int,
            ly == letter_y as int,
            c == cols as int,
            rw == rows as int,
            cols <= 152,
            rows <= 32,
            0 <= letter_x <= 128,
            -8 <= letter_y <= 0,
            character_error(dv, p as int, ci, lx, ly, c, rw).is_none(),
        decreases chr@.len() - p,
    {
        let panel = &chr[p];
        let mut k: usize = 0;
        while k < panel.len()
            invariant
                0 <= p < chr@.len(),
                0 <= k <= panel@.len(),
                *panel == chr@[p as int],
                dv == chr.deep_view(),
                ci == char_index as int,
                lx == letter_x as int,
                ly == letter_y as int,
                c == cols as int,
                rw == rows as int,
                cols <= 152,
                rows <= 32,
                0 <= letter_x <= 128,
                -8 <= letter_y <= 0,
                character_error(dv, p as int, ci, lx, ly, c, rw).is_none(),
                panel_error(dv[p as int], k as int, ci, p as int, lx, ly, c, rw).is_none(),
            decreases panel@.len() - k,
        {
            assert(dv[p as int][k as int] == panel@[k as int]@);
            assert(dv[p as int].len() == panel@.len());
            let mut failure: Option<RenderError> = None;
            let origin = origin_of(char_index, p);
            if origin.is_none() {
                failure = Some(RenderError::UnplacedPixel);
            } else {
                let (ox, oy) = origin.unwrap();
                let x: i64 = ox + (k % 8) as i64 + letter_x;
                let y: i64 = oy + (k / 8) as i64 + letter_y;
                proof {
                    let at = pixel_place(ci, p as int, k as int, lx, ly);
                    assert(at.0 == x as int);
                    assert(at.1 == y as int);
                }
                if x < 0 || x >= cols as i64 || y < 0 || y >= rows as i64 {
                    failure = Some(RenderError::UnplacedPixel);
                } else if decode_color(panel[k].as_str()).is_err() {
                    failure = Some(RenderError::ColorParse);
                }
            }
            assert(failure == token_error(dv[p as int][k as int], ci, p as int, k as int, lx, ly, c, rw));
            if let Some(e) = failure {
                proof {
                    let n = dv[p as int].len() as int;
                    assert(panel_error(dv[p as int], k + 1, ci, p as int, lx, ly, c, rw) == Some(e));
                    lemma_panel_error_stays(dv[p as int], k + 1, n, ci, p as int, lx, ly, c, rw);
                    assert(character_error(dv, p + 1, ci, lx, ly, c, rw) == Some(e));
                    lemma_character_error_stays(dv, p + 1, dv.len() as int, ci, lx, ly, c, rw);
                }
                return Err(e);
            }
            k = k + 1;
        }
        assert(dv[p as int].len() == panel@.len());
        assert(character_error(dv, p + 1, ci, lx, ly, c, rw).is_none());
        p = p + 1;
    }
    Ok(())
}

/// Writes one character into a canvas of `cols x rows` logical pixels at
/// scale `pixel_size`, shifted by `(letter_x, letter_y)`. The error is that
/// of the first failing token, panel by panel and in raster order; on an
/// error the canvas is left as it was.
fn write_character(
    chr: &Vec<Vec<String>>,
    char_index: usize,
    pixel_size: usize,
    cols: usize,
    rows: usize,
    image: &mut Vec<u8>,
    letter_x: i64,
    letter_y: i64,
) -> (r: Result<(), RenderError>)
    requires
        0 < pixel_size,
        cols <= 152,
        rows <= 32,
        0 <= letter_x <= 128,
        -8 <= letter_y <= 0,
        cols * pixel_size <= usize::MAX,
        rows * pixel_size <= usize::MAX,
        old(image)@.len() == (cols * pixel_size) * (rows * pixel_size) * 4,
        (cols * pixel_size) * (rows * pixel_size) * 4 <= usize::MAX,
    ensures
        final(image)@.len() == old(image)@.len(),
        r == error_result(
            character_error(
                chr.deep_view(),
                chr@.len() as int,
                char_index as int,
                letter_x as int,
                letter_y as int,
                cols as int,
                rows as int,
            ),
        ),
        r.is_ok() ==> final(image)@ == paint_character(
            old(image)@,
            chr.deep_view(),
            chr@.len() as int,
            char_index as int,
            letter_x as int,
            letter_y as int,
            (cols * pixel_size) as int,
            pixel_size as int,
        ),
        r.is_err() ==> final(image)@ == old(image)@,
        r.is_err() ==> r == Err::<(), RenderError>(RenderError::ColorParse) || r == Err::<(), RenderError>(
            RenderError::UnplacedPixel,
        ),
{
    proof {
        lemma_character_error_kind(
            chr.deep_view(),
            chr@.len() as int,
            char_index as int,
            letter_x as int,
            letter_y as int,
            cols as int,
            rows as int,
        );
    }
    match check_character(chr, char_index, cols, rows, letter_x, letter_y) {
        Err(e) => {
            return Err(e);
        },
        Ok(()) => {},
    }
    proof {
        lemma_character_error_none(
            chr.deep_view(),
            chr@.len() as int,
            char_index as int,
            letter_x as int,
            letter_y as int,
            cols as int,
            rows as int,
        );
    }
    assert(chr.deep_view().len() == chr@.len());
    let painted = paint_character_blocks(chr, char_index, pixel_size, cols, rows, image, letter_x, letter_y);
    assert(painted.is_ok());
    Ok(())
}

/// A canvas of `n` zero bytes: every pixel transparent black.
pub open spec fn blank(n: int) -> Seq<u8> {
    Seq::new(n as nat, |j: int| 0u8)
}

/// The error of the first failing token among the first `n` characters of
/// a full strip.
pub open spec fn strip_error(desc: Seq<Seq<Seq<Seq<char>>>>, n: int) -> Option<RenderError>
    decreases n,
{
    if n <= 0 {
        None
    } else {
        let before = strip_error(desc, n - 1);
        if before.is_some() {
            before
        } else {
            character_error(desc[n - 1], desc[n - 1].len() as int, n - 1, letter_x(n - 1), 0, 152, 32)
        }
    }
}

proof fn lemma_strip_error_stays(desc: Seq<Seq<Seq<Seq<char>>>>, n1: int, n2: int)
    requires
        0 <= n1 <= n2,
        strip_error(desc, n1).is_some(),
    ensures
        strip_error(desc, n2) == strip_error(desc, n1),
    decreases n2,
{
    if n2 > n1 {
        lemma_strip_error_stays(desc, n1, n2 - 1);
    }
}

/// Every character of the first `n` of a full strip is well placed.
pub open spec fn strip_ok(desc: Seq<Seq<Seq<Seq<char>>>>, n: int) -> bool {
    strip_error(desc, n).is_none()
}

/// Why a description cannot be rendered with these options, if it cannot:
/// a missing character, or the first failing token.
pub open spec fn render_error(desc: Seq<Seq<Seq<Seq<char>>>>, o: LogoOptions) -> Option<RenderError> {
    match o.character {
        None => strip_error(desc, desc.len() as int),
        Some(i) => if i >= desc.len() {
            Some(RenderError::InvalidCharacterIndex(i))
        } else {
            character_error(
                desc[i as int],
                desc[i as int].len() as int,
                i as int,
                0,
                crop_shift(o, i as int),
                canvas_cols(o),
                canvas_rows(o),
            )
        },
    }
}

/// A full-strip buffer `w` pixels wide after its first `n` characters are
/// painted.
pub open spec fn paint_strip(img: Seq<u8>, desc: Seq<Seq<Seq<Seq<char>>>>, n: int, w: int, ps: int) -> Seq<u8>
    decreases n,
{
    if n <= 0 {
        img
    } else {
        let before = paint_strip(img, desc, n - 1, w, ps);
        paint_character(before, desc[n - 1], desc[n - 1].len() as int, n - 1, letter_x(n - 1), 0, w, ps)
    }
}

/// Whether a description can be rendered with these options.
pub open spec fn render_ok(desc: Seq<Seq<Seq<Seq<char>>>>, o: LogoOptions) -> bool {
    render_error(desc, o).is_none()
}

/// The RGBA bytes of a rendered description.
pub open spec fn rendered(desc: Seq<Seq<Seq<Seq<char>>>>, o: LogoOptions) -> Seq<u8> {
    let ps = pixel_scale(o);
    let w = canvas_cols(o) * ps;
    let h = canvas_rows(o) * ps;
    match o.character {
        None => paint_strip(blank(w * h * 4), desc, desc.len() as int, w, ps),
        Some(i) => paint_character(
            blank(w * h * 4),
            desc[i as int],
            desc[i as int].len() as int,
            i as int,
            0,
            crop_shift(o, i as int),
            w,
            ps,
        ),
    }
}

fn blank_canvas(n: usize) -> (v: Vec<u8>)
    ensures
        v@ == blank(n as int),
{
    let mut v: Vec<u8> = Vec::with_capacity(n);
    let mut i: usize = 0;
    while i < n
        invariant
            i <= n,
            v@ == blank(i as int),
        decreases n - i,
    {
        v.push(0);
        i = i + 1;
        assert(v@ =~= blank(i as int));
    }
    v
}

proof fn lemma_canvas_size(ps: int, cols: int, rows: int)
    requires
        1 <= ps,
        0 <= cols <= 152,
        0 <= rows <= 32,
        152 * 32 * 4 * ps * ps <= usize::MAX,
    ensures
        cols * ps <= usize::MAX,
        rows * ps <= usize::MAX,
        (cols * ps) * (rows * ps) * 4 <= usize::MAX,
        0 <= (cols * ps) * (rows * ps) * 4,
{
    assert(cols * ps <= 152 * ps) by (nonlinear_arith)
        requires
            cols <= 152,
            1 <= ps,
    ;
    assert(rows * ps <= 32 * ps) by (nonlinear_arith)
        requires
            rows <= 32,
            1 <= ps,
    ;
    assert(0 <= cols * ps) by (nonlinear_arith)
        requires
            0 <= cols,
            1 <= ps,
    ;
    assert(0 <= rows * ps) by (nonlinear_arith)
        requires
            0 <= rows,
            1 <= ps,
    ;
    assert((cols * ps) * (rows * ps) <= (152 * ps) * (32 * ps)) by (nonlinear_arith)
        requires
            0 <= cols * ps <= 152 * ps,
            0 <= rows * ps <= 32 * ps,
    ;
    assert((152 * ps) * (32 * ps) * 4 == 152 * 32 * 4 * ps * ps) by (nonlinear_arith);
    assert(152 * ps <= 152 * 32 * 4 * ps * ps) by (nonlinear_arith)
        requires
            1 <= ps,
    ;
    assert(0 <= (cols * ps) * (rows * ps)) by (nonlinear_arith)
        requires
            0 <= cols * ps,
            0 <= rows * ps,
    ;
}

/// Renders a description into an RGBA8 bitmap.
///
/// Without a character the whole strip is drawn on a 152 x 32 canvas, each
/// character shifted right by its strip offset. With a character only that
/// one is drawn, on a canvas 8 (first character) or 24 wide and 32 high, or
/// 24 high when cropping lifts it by 8 rows. Every logical pixel becomes a
/// block of `size x size` pixels; pixels no token covers stay `(0, 0, 0, 0)`.
pub fn get_logo_data(description: &LogoResponse, options: LogoOptions) -> (r: Result<Logo, RenderError>)
    requires
        pixel_scale(options) >= 1,
        scale_fits(options),
    ensures
        r.is_ok() == render_ok(description@, options),
        r.is_err() ==> r == Err::<Logo, RenderError>(render_error(description@, options).unwrap()),
        r.is_ok() ==> r.unwrap().width == canvas_cols(options) * pixel_scale(options),
        r.is_ok() ==> r.unwrap().height == canvas_rows(options) * pixel_scale(options),
        r.is_ok() ==> r.unwrap().data@ == rendered(description@, options),
        r.is_ok() ==> r.unwrap().data@.len() == r.unwrap().width * r.unwrap().height * 4,
        r.is_err() ==> r != Err::<Logo, RenderError>(RenderError::Encode),
        forall|i: usize|
            #![auto]
            (r == Err::<Logo, RenderError>(RenderError::InvalidCharacterIndex(i))) <==> (
            options.character == Some(i) && i >= description@.len()),
{
    let ps: usize = match options.size {
        Some(s) => s as usize,
        None => 1,
    };
    let ghost desc = description@;
    match options.character {
        None => {
            let cols: usize = 152;
            let rows: usize = 32;
            proof {
                lemma_canvas_size(ps as int, cols as int, rows as int);
            }
            let width = cols * ps;
            let height = rows * ps;
            let mut image = blank_canvas(width * height * 4);
            let ghost img0 = image@;
            let mut c: usize = 0;
            while c < description.logo.len()
                invariant
                    0 <= c <= description.logo@.len(),
                    desc == description@,
                    options.character.is_none(),
                    ps == pixel_scale(options),
                    1 <= ps,
                    width == cols * ps,
                    height == rows * ps,
                    cols == 152,
                    rows == 32,
                    cols * ps <= usize::MAX,
                    rows * ps <= usize::MAX,
                    width * height * 4 <= usize::MAX,
                    img0 == blank((width * height * 4) as int),
                    image@.len() == width * height * 4,
                    image@ == paint_strip(img0, desc, c as int, width as int, ps as int),
                    strip_ok(desc, c as int),
                decreases description.logo@.len() - c,
            {
                let lx: i64 = if c == 0 {
                    0
                } else if c < 7 {
                    ((c as i64) * 3 - 2) * 8
                } else {
                    0
                };
                assert(desc[c as int] == description.logo@[c as int].deep_view());
                assert(lx as int == letter_x(c as int));
                let res = write_character(&description.logo[c], c, ps, cols, rows, &mut image, lx, 0);
                match res {
                    Ok(()) => {},
                    Err(e) => {
                        proof {
                            assert(strip_error(desc, c + 1) == Some(e));
                            lemma_strip_error_stays(desc, c + 1, desc.len() as int);
                        }
                        return Err(e);
                    },
                }
                assert(strip_ok(desc, c + 1));
                c = c + 1;
            }
            Ok(Logo { width, height, data: image })
        },
        Some(character) => {
            let y: i64 = if options.crop {
                if character == 0 || character == 1 || character == 5 {
                    0
                } else {
                    -8
                }
            } else {
                0
            };
            let rows: usize = (y + 32) as usize;
            let cols: usize = if character == 0 {
                8
            } else {
                24
            };
            proof {
                lemma_canvas_size(ps as int, cols as int, rows as int);
            }
            let width = cols * ps;
            let height = rows * ps;
            if character >= description.logo.len() {
                return Err(RenderError::InvalidCharacterIndex(character));
            }
            let mut image = blank_canvas(width * height * 4);
            assert(desc[character as int] == description.logo@[character as int].deep_view());
            let res = write_character(&description.logo[character], character, ps, cols, rows, &mut image, 0, y);
            match res {
                Ok(()) => Ok(Logo { width, height, data: image }),
                Err(e) => Err(e),
            }
        },
    }
}

#[verifier::external_type_specification]
#[verifier::external_body]
pub struct ExEncodingError(png::EncodingError);

/// The bytes png's encoder writes for an RGBA8 image of these dimensions.
pub uninterp spec fn png_rgba8_of(width: int, height: int, data: Seq<u8>) -> Seq<u8>;

/// Relies on png's `Encoder` with RGBA color and 8-bit depth, then
/// `Writer::write_header` and `Writer::write_image_data`: the bytes depend on
/// the dimensions and pixels alone. The header step refuses a zero side; RGBA
/// at depth 8 is a valid pairing, the data length is the one the encoder
/// expects, and writing into a `Vec` cannot fail, so nothing else errs.
#[verifier::external_body]
fn encode_png(width: usize, height: usize, data: &Vec<u8>) -> (r: Result<Vec<u8>, png::EncodingError>)
    requires
        width <= u32::MAX,
        height <= u32::MAX,
        data@.len() == width * height * 4,
    ensures
        r.is_ok() ==> r.unwrap()@ == png_rgba8_of(width as int, height as int, data@),
        0 < width && 0 < height ==> r.is_ok(),
{
    let mut out = Vec::new();
    {
        let mut encoder = png::Encoder::new(&mut out, width as u32, height as u32);
        encoder.set_color(png::ColorType::RGBA);
        encoder.set_depth(png::BitDepth::Eight);
        let mut writer = encoder.write_header()?;
        writer.write_image_data(data)?;
    }
    Ok(out)
}

/// Renders a description and encodes the bitmap as PNG.
///
/// Rendering errors come back as `get_logo_data` gives them; `Encode` comes
/// only from a bitmap that rendered with a side longer than PNG can hold.
pub fn get_logo_png(description: &LogoResponse, options: LogoOptions) -> (r: Result<Vec<u8>, RenderError>)
    requires
        pixel_scale(options) >= 1,
        scale_fits(options),
    ensures
        !render_ok(description@, options) ==> r.is_err() && r != Err::<Vec<u8>, RenderError>(
            RenderError::Encode,
        ),
        r.is_ok() ==> render_ok(description@, options) && r.unwrap()@ == png_rgba8_of(
            canvas_cols(options) * pixel_scale(options),
            canvas_rows(options) * pixel_scale(options),
            rendered(description@, options),
        ),
        !render_ok(description@, options) ==> r == Err::<Vec<u8>, RenderError>(
            render_error(description@, options).unwrap(),
        ),
        render_ok(description@, options) && canvas_cols(options) * pixel_scale(options) <= u32::MAX
            && canvas_rows(options) * pixel_scale(options) <= u32::MAX ==> r.is_ok(),
        r == Err::<Vec<u8>, RenderError>(RenderError::Encode) ==> canvas_cols(options) * pixel_scale(
            options,
        ) > u32::MAX || canvas_rows(options) * pixel_scale(options) > u32::MAX,
        forall|i: usize|
            #![auto]
            (r == Err::<Vec<u8>, RenderError>(RenderError::InvalidCharacterIndex(i))) <==> (
            options.character == Some(i) && i >= description@.len()),
{
    let logo = match get_logo_data(description, options) {
        Ok(l) => l,
        Err(e) => {
            return Err(e);
        },
    };
    if logo.width > u32::MAX as usize || logo.height > u32::MAX as usize {
        return Err(RenderError::Encode);
    }
    proof {
        lemma_canvas_size(pixel_scale(options), canvas_cols(options), canvas_rows(options));
        assert(0 < canvas_cols(options) * pixel_scale(options)) by (nonlinear_arith)
            requires
                0 < canvas_cols(options),
                0 < pixel_scale(options),
        ;
        assert(0 < canvas_rows(options) * pixel_scale(options)) by (nonlinear_arith)
            requires
                0 < canvas_rows(options),
                0 < pixel_scale(options),
        ;
    }
    match encode_png(logo.width, logo.height, &logo.data) {
        Ok(bytes) => Ok(bytes),
        Err(_) => Err(RenderError::Encode),
    }
}

/// Every pixel of a buffer is opaque (alpha 255) or untouched background
/// (all four bytes zero).
pub open spec fn opaque_or_blank(img: Seq<u8>) -> bool {
    forall|j: int|
        #![trigger img[j]]
        0 <= j < img.len() && j % 4 == 3 ==> (img[j] == 255 || (img[j - 3] == 0 && img[j - 2] == 0 && img[j
            - 1] == 0 && img[j] == 0))
}

proof fn lemma_put_block_opaque(img: Seq<u8>, w: int, ps: int, x: int, y: int, rgb: (u8, u8, u8))
    requires
        opaque_or_blank(img),
        img.len() % 4 == 0,
    ensures
        opaque_or_blank(put_block(img, w, ps, x, y, rgb)),
        put_block(img, w, ps, x, y, rgb).len() == img.len(),
{
    let out = put_block(img, w, ps, x, y, rgb);
    assert forall|j: int| #![trigger out[j]] 0 <= j < out.len() && j % 4 == 3 implies (out[j] == 255 || (out[j - 3]
        == 0 && out[j - 2] == 0 && out[j - 1] == 0 && out[j] == 0)) by {
        assert((j - 3) / 4 == j / 4 && (j - 2) / 4 == j / 4 && (j - 1) / 4 == j / 4);
        if !in_block(j / 4, w, ps, x, y) {
            assert(img[j] == 255 || (img[j - 3] == 0 && img[j - 2] == 0 && img[j - 1] == 0 && img[j] == 0));
        }
    }
}

proof fn lemma_paint_panel_opaque(
    img: Seq<u8>,
    panel: Seq<Seq<char>>,
    k: int,
    ci: int,
    p: int,
    lx: int,
    ly: int,
    w: int,
    ps: int,
)
    requires
        opaque_or_blank(img),
        img.len() % 4 == 0,
    ensures
        opaque_or_blank(paint_panel(img, panel, k, ci, p, lx, ly, w, ps)),
        paint_panel(img, panel, k, ci, p, lx, ly, w, ps).len() == img.len(),
    decreases k,
{
    if k > 0 {
        lemma_paint_panel_opaque(img, panel, k - 1, ci, p, lx, ly, w, ps);
        let at = pixel_place(ci, p, k - 1, lx, ly);
        lemma_put_block_opaque(
            paint_panel(img, panel, k - 1, ci, p, lx, ly, w, ps),
            w,
            ps,
            at.0,
            at.1,
            token_color(panel[k - 1]),
        );
    }
}

proof fn lemma_paint_character_opaque(
    img: Seq<u8>,
    chr: Seq<Seq<Seq<char>>>,
    n: int,
    ci: int,
    lx: int,
    ly: int,
    w: int,
    ps: int,
)
    requires
        opaque_or_blank(img),
        img.len() % 4 == 0,
    ensures
        opaque_or_blank(paint_character(img, chr, n, ci, lx, ly, w, ps)),
        paint_character(img, chr, n, ci, lx, ly, w, ps).len() == img.len(),
    decreases n,
{
    if n > 0 {
        lemma_paint_character_opaque(img, chr, n - 1, ci, lx, ly, w, ps);
        let before = paint_character(img, chr, n - 1, ci, lx, ly, w, ps);
        lemma_paint_panel_opaque(before, chr[n - 1], chr[n - 1].len() as int, ci, n - 1, lx, ly, w, ps);
    }
}

proof fn lemma_paint_strip_opaque(img: Seq<u8>, desc: Seq<Seq<Seq<Seq<char>>>>, n: int, w: int, ps: int)
    requires
        opaque_or_blank(img),
        img.len() % 4 == 0,
    ensures
        opaque_or_blank(paint_strip(img, desc, n, w, ps)),
        paint_strip(img, desc, n, w, ps).len() == img.len(),
    decreases n,
{
    if n > 0 {
        lemma_paint_strip_opaque(img, desc, n - 1, w, ps);
        let before = paint_strip(img, desc, n - 1, w, ps);
        lemma_paint_character_opaque(before, desc[n - 1], desc[n - 1].len() as int, n - 1, letter_x(n - 1), 0, w, ps);
    }
}

/// A rendered bitmap holds exactly `width * height * 4` bytes, and each of
/// its pixels is either painted, with alpha 255, or background, with all
/// four bytes zero: no partly transparent pixel is ever produced.
pub proof fn lemma_rendered_opaque(desc: Seq<Seq<Seq<Seq<char>>>>, o: LogoOptions)
    requires
        pixel_scale(o) >= 1,
        scale_fits(o),
    ensures
        rendered(desc, o).len() == (canvas_cols(o) * pixel_scale(o)) * (canvas_rows(o) * pixel_scale(o)) * 4,
        opaque_or_blank(rendered(desc, o)),
{
    let ps = pixel_scale(o);
    let w = canvas_cols(o) * ps;
    let h = canvas_rows(o) * ps;
    lemma_canvas_size(ps, canvas_cols(o), canvas_rows(o));
    let b = blank(w * h * 4);
    assert((w * h * 4) % 4 == 0) by (nonlinear_arith)
        requires
            0 <= w * h,
    ;
    assert(b.len() % 4 == 0);
    match o.character {
        None => {
            lemma_paint_strip_opaque(b, desc, desc.len() as int, w, ps);
        },
        Some(i) => {
            lemma_paint_character_opaque(b, desc[i as int], desc[i as int].len() as int, i as int, 0, crop_shift(o, i as int), w, ps);
        },
    }
}

/// Rendering is a function of the description and the options: two
/// renders of equal descriptions with the same options give the same bytes.
pub proof fn lemma_render_deterministic(a: Seq<Seq<Seq<Seq<char>>>>, b: Seq<Seq<Seq<Seq<char>>>>, o: LogoOptions)
    requires
        a == b,
    ensures
        render_ok(a, o) == render_ok(b, o),
        rendered(a, o) == rendered(b, o),
{
}

/// Whether pixel `pos` lies in the block of one of the first `k` tokens of
/// panel `p`.
pub open spec fn covered_by_panel(
    pos: int,
    k: int,
    ci: int,
    p: int,
    lx: int,
    ly: int,
    w: int,
    ps: int,
) -> bool
    decreases k,
{
    if k <= 0 {
        false
    } else {
        let at = pixel_place(ci, p, k - 1, lx, ly);
        covered_by_panel(pos, k - 1, ci, p, lx, ly, w, ps) || in_block(pos, w, ps, at.0, at.1)
    }
}

/// Whether pixel `pos` lies in the block of a token of the first `n` panels.
pub open spec fn covered_by_character(
    pos: int,
    chr: Seq<Seq<Seq<char>>>,
    n: int,
    ci: int,
    lx: int,
    ly: int,
    w: int,
    ps: int,
) -> bool
    decreases n,
{
    if n <= 0 {
        false
    } else {
        covered_by_character(pos, chr, n - 1, ci, lx, ly, w, ps) || covered_by_panel(
            pos,
            chr[n - 1].len() as int,
            ci,
            n - 1,
            lx,
            ly,
            w,
            ps,
        )
    }
}

/// Whether pixel `pos` lies in the block of a token of the first `n`
/// characters of the strip.
pub open spec fn covered_by_strip(pos: int, desc: Seq<Seq<Seq<Seq<char>>>>, n: int, w: int, ps: int) -> bool
    decreases n,
{
    if n <= 0 {
        false
    } else {
        covered_by_strip(pos, desc, n - 1, w, ps) || covered_by_character(
            pos,
            desc[n - 1],
            desc[n - 1].len() as int,
            n - 1,
            letter_x(n - 1),
            0,
            w,
            ps,
        )
    }
}

/// Whether pixel `pos` of the bitmap lies in the block of a placed token.
pub open spec fn covered(desc: Seq<Seq<Seq<Seq<char>>>>, o: LogoOptions, pos: int) -> bool {
    let ps = pixel_scale(o);
    let w = canvas_cols(o) * ps;
    match o.character {
        None => covered_by_strip(pos, desc, desc.len() as int, w, ps),
        Some(i) => covered_by_character(
            pos,
            desc[i as int],
            desc[i as int].len() as int,
            i as int,
            0,
            crop_shift(o, i as int),
            w,
            ps,
        ),
    }
}

/// Pixel `pos` of `after` is opaque where `cov` holds and keeps its bytes
/// from `before` elsewhere.
pub open spec fn painted_where(before: Seq<u8>, after: Seq<u8>, pos: int, cov: bool) -> bool {
    &&& after.len() == before.len()
    &&& cov ==> after[4 * pos + 3] == 255
    &&& !cov ==> (after[4 * pos] == before[4 * pos] && after[4 * pos + 1] == before[4 * pos + 1]
        && after[4 * pos + 2] == before[4 * pos + 2] && after[4 * pos + 3] == before[4 * pos + 3])
}

proof fn lemma_panel_cover(
    img: Seq<u8>,
    panel: Seq<Seq<char>>,
    k: int,
    ci: int,
    p: int,
    lx: int,
    ly: int,
    w: int,
    ps: int,
    pos: int,
)
    requires
        0 <= pos,
        4 * pos + 3 < img.len(),
    ensures
        painted_where(
            img,
            paint_panel(img, panel, k, ci, p, lx, ly, w, ps),
            pos,
            covered_by_panel(pos, k, ci, p, lx, ly, w, ps),
        ),
    decreases k,
{
    if k > 0 {
        lemma_panel_cover(img, panel, k - 1, ci, p, lx, ly, w, ps, pos);
        let at = pixel_place(ci, p, k - 1, lx, ly);
        assert((4 * pos) / 4 == pos && (4 * pos + 1) / 4 == pos && (4 * pos + 2) / 4 == pos && (4 * pos + 3) / 4
            == pos);
        assert((4 * pos + 3) % 4 == 3);
    }
}

proof fn lemma_character_cover(
    img: Seq<u8>,
    chr: Seq<Seq<Seq<char>>>,
    n: int,
    ci: int,
    lx: int,
    ly: int,
    w: int,
    ps: int,
    pos: int,
)
    requires
        0 <= pos,
        4 * pos + 3 < img.len(),
    ensures
        painted_where(
            img,
            paint_character(img, chr, n, ci, lx, ly, w, ps),
            pos,
            covered_by_character(pos, chr, n, ci, lx, ly, w, ps),
        ),
    decreases n,
{
    if n > 0 {
        lemma_character_cover(img, chr, n - 1, ci, lx, ly, w, ps, pos);
        let before = paint_character(img, chr, n - 1, ci, lx, ly, w, ps);
        lemma_panel_cover(before, chr[n - 1], chr[n - 1].len() as int, ci, n - 1, lx, ly, w, ps, pos);
    }
}

proof fn lemma_strip_cover(img: Seq<u8>, desc: Seq<Seq<Seq<Seq<char>>>>, n: int, w: int, ps: int, pos: int)
    requires
        0 <= pos,
        4 * pos + 3 < img.len(),
    ensures
        painted_where(img, paint_strip(img, desc, n, w, ps), pos, covered_by_strip(pos, desc, n, w, ps)),
    decreases n,
{
    if n > 0 {
        lemma_strip_cover(img, desc, n - 1, w, ps, pos);
        let before = paint_strip(img, desc, n - 1, w, ps);
        lemma_character_cover(before, desc[n - 1], desc[n - 1].len() as int, n - 1, letter_x(n - 1), 0, w, ps, pos);
    }
}

/// In a rendered bitmap, pixel `pos` is opaque (alpha 255) exactly when it
/// lies in the block of a placed token; every other pixel keeps the
/// background `(0, 0, 0, 0)`. So every alpha is 255 exactly when the tokens
/// cover the whole canvas.
pub proof fn lemma_rendered_coverage(desc: Seq<Seq<Seq<Seq<char>>>>, o: LogoOptions, pos: int)
    requires
        pixel_scale(o) >= 1,
        scale_fits(o),
        0 <= pos < (canvas_cols(o) * pixel_scale(o)) * (canvas_rows(o) * pixel_scale(o)),
    ensures
        (rendered(desc, o)[4 * pos + 3] == 255) == covered(desc, o, pos),
        !covered(desc, o, pos) ==> (rendered(desc, o)[4 * pos] == 0 && rendered(desc, o)[4 * pos + 1] == 0
            && rendered(desc, o)[4 * pos + 2] == 0 && rendered(desc, o)[4 * pos + 3] == 0),
{
    let ps = pixel_scale(o);
    let w = canvas_cols(o) * ps;
    let h = canvas_rows(o) * ps;
    lemma_canvas_size(ps, canvas_cols(o), canvas_rows(o));
    let b = blank(w * h * 4);
    assert(4 * pos + 3 < b.len());
    match o.character {
        None => {
            lemma_strip_cover(b, desc, desc.len() as int, w, ps, pos);
        },
        Some(i) => {
            lemma_character_cover(
                b,
                desc[i as int],
                desc[i as int].len() as int,
                i as int,
                0,
                crop_shift(o, i as int),
                w,
                ps,
                pos,
            );
        },
    }
}

} // verus!
