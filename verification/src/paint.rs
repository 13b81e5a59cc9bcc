//! Paint geometry: clipping signed layout rectangles to the viewport, border
//! strips, image rectangles, opacity, transform lengths and named colors.
use vstd::prelude::*;
use crate::layout::{
    in_i32, sat_i32, sat_i64, saturating_add_i32, saturating_mul_i64, spec_trunc_div, trunc_div_i64,
    CssPx, EdgeSizes, LayoutRect, Length, LengthUnit,
};
use crate::renderer::{Rectangle, Rgba8};

verus! {

pub open spec fn clamp_range(v: int, lo: int, hi: int) -> int {
    if v < lo {
        lo
    } else if v > hi {
        hi
    } else {
        v
    }
}

/// The part of a signed rectangle inside a `width` x `height` viewport, if
/// any pixel of it is.
pub open spec fn spec_clip_to_viewport(rect: LayoutRect, width: int, height: int) -> Option<Rectangle> {
    let x0 = clamp_range(rect.x.0 as int, 0, width);
    let y0 = clamp_range(rect.y.0 as int, 0, height);
    let x1 = clamp_range(sat_i32(rect.x.0 + rect.width.0), 0, width);
    let y1 = clamp_range(sat_i32(rect.y.0 + rect.height.0), 0, height);
    if x1 <= x0 || y1 <= y0 {
        None
    } else {
        Some(Rectangle { x: x0 as u32, y: y0 as u32, width: (x1 - x0) as u32, height: (y1 - y0) as u32 })
    }
}

fn clamp_i32(v: i32, lo: i32, hi: i32) -> (r: i32)
    requires
        lo <= hi,
    ensures
        r == clamp_range(v as int, lo as int, hi as int),
{
    if v < lo {
        lo
    } else if v > hi {
        hi
    } else {
        v
    }
}

/// The viewport rectangle a signed layout rectangle fills, clipped; `None`
/// when nothing of it is visible.
pub fn clip_to_viewport(rect: LayoutRect, viewport_width: u32, viewport_height: u32) -> (r: Option<Rectangle>)
    requires
        viewport_width <= i32::MAX,
        viewport_height <= i32::MAX,
    ensures
        r == spec_clip_to_viewport(rect, viewport_width as int, viewport_height as int),
{
    let w = viewport_width as i32;
    let h = viewport_height as i32;
    let x0 = clamp_i32(rect.x.0, 0, w);
    let y0 = clamp_i32(rect.y.0, 0, h);
    let x1 = clamp_i32(saturating_add_i32(rect.x.0, rect.width.0), 0, w);
    let y1 = clamp_i32(saturating_add_i32(rect.y.0, rect.height.0), 0, h);
    if x1 <= x0 || y1 <= y0 {
        return None;
    }
    Some(Rectangle::new(x0 as u32, y0 as u32, (x1 - x0) as u32, (y1 - y0) as u32))
}

/// A clipped rectangle lies inside the viewport and inside the rectangle it
/// was clipped from.
pub proof fn law_clip_stays_inside(rect: LayoutRect, width: int, height: int)
    requires
        0 <= width <= i32::MAX,
        0 <= height <= i32::MAX,
    ensures
        spec_clip_to_viewport(rect, width, height) matches Some(c) ==> {
            &&& c.x + c.width <= width
            &&& c.y + c.height <= height
            &&& c.width > 0 && c.height > 0
            &&& rect.x.0 <= c.x
            &&& rect.y.0 <= c.y
            &&& c.x + c.width <= rect.x.0 + rect.width.0
            &&& c.y + c.height <= rect.y.0 + rect.height.0
        },
{
}

/// A rectangle moved by an offset.
pub fn translated(rect: LayoutRect, x: CssPx, y: CssPx) -> (r: LayoutRect)
    requires
        in_i32(rect.x.0 + x.0),
        in_i32(rect.y.0 + y.0),
    ensures
        r == (LayoutRect {
            x: CssPx((rect.x.0 + x.0) as i32),
            y: CssPx((rect.y.0 + y.0) as i32),
            ..rect
        }),
{
    LayoutRect { x: CssPx(rect.x.0 + x.0), y: CssPx(rect.y.0 + y.0), ..rect }
}

/// The top, right, bottom and left border strips of a border box.
pub open spec fn spec_border_strips(rect: LayoutRect, border: EdgeSizes) -> Seq<LayoutRect> {
    seq![
        LayoutRect { height: border.top, ..rect },
        LayoutRect { x: CssPx((rect.x.0 + rect.width.0 - border.right.0) as i32), width: border.right, ..rect },
        LayoutRect { y: CssPx((rect.y.0 + rect.height.0 - border.bottom.0) as i32), height: border.bottom, ..rect },
        LayoutRect { width: border.left, ..rect },
    ]
}

/// The four border strips, in the order they are painted.
pub fn border_strips(rect: LayoutRect, border: EdgeSizes) -> (r: Vec<LayoutRect>)
    requires
        in_i32(rect.x.0 + rect.width.0),
        in_i32(rect.x.0 + rect.width.0 - border.right.0),
        in_i32(rect.y.0 + rect.height.0),
        in_i32(rect.y.0 + rect.height.0 - border.bottom.0),
    ensures
        r@ == spec_border_strips(rect, border),
{
    let right_x = rect.x.0 + rect.width.0 - border.right.0;
    let bottom_y = rect.y.0 + rect.height.0 - border.bottom.0;
    let top = LayoutRect { height: border.top, ..rect };
    let right = LayoutRect { x: CssPx(right_x), width: border.right, ..rect };
    let bottom = LayoutRect { y: CssPx(bottom_y), height: border.bottom, ..rect };
    let left = LayoutRect { width: border.left, ..rect };
    let r = vec![top, right, bottom, left];
    assert(r@ =~= spec_border_strips(rect, border));
    r
}

/// The one-pixel top, bottom, left and right lines of a focus outline.
pub open spec fn spec_outline_strips(rect: LayoutRect) -> Seq<LayoutRect> {
    seq![
        LayoutRect { height: CssPx(1), ..rect },
        LayoutRect { y: CssPx((rect.y.0 + rect.height.0 - 1) as i32), height: CssPx(1), ..rect },
        LayoutRect { width: CssPx(1), ..rect },
        LayoutRect { x: CssPx((rect.x.0 + rect.width.0 - 1) as i32), width: CssPx(1), ..rect },
    ]
}

/// The four lines of a focus outline around `rect`, in the order they are painted.
pub fn outline_strips(rect: LayoutRect) -> (r: Vec<LayoutRect>)
    requires
        in_i32(rect.x.0 + rect.width.0),
        in_i32(rect.x.0 + rect.width.0 - 1),
        in_i32(rect.y.0 + rect.height.0),
        in_i32(rect.y.0 + rect.height.0 - 1),
    ensures
        r@ == spec_outline_strips(rect),
{
    let top = LayoutRect { height: CssPx(1), ..rect };
    let bottom = LayoutRect { y: CssPx(rect.y.0 + rect.height.0 - 1), height: CssPx(1), ..rect };
    let left = LayoutRect { width: CssPx(1), ..rect };
    let right = LayoutRect { x: CssPx(rect.x.0 + rect.width.0 - 1), width: CssPx(1), ..rect };
    let r = vec![top, bottom, left, right];
    assert(r@ =~= spec_outline_strips(rect));
    r
}

/// The viewport rectangle an image's content box occupies once offset.
pub open spec fn spec_image_rectangle(content: LayoutRect, width: int, height: int, dx: int, dy: int) -> Option<
    Rectangle,
> {
    let ox = sat_i32(content.x.0 + dx);
    let oy = sat_i32(content.y.0 + dy);
    let x0 = if ox < 0 { 0 } else { ox };
    let y0 = if oy < 0 { 0 } else { oy };
    let x1 = clamp_range(sat_i32(ox + content.width.0), 0, width);
    let y1 = clamp_range(sat_i32(oy + content.height.0), 0, height);
    if x1 > x0 && y1 > y0 {
        Some(Rectangle { x: x0 as u32, y: y0 as u32, width: (x1 - x0) as u32, height: (y1 - y0) as u32 })
    } else {
        None
    }
}

/// Where an image is drawn: its offset content box within the viewport.
pub fn image_rectangle(content: LayoutRect, viewport_width: u32, viewport_height: u32, offset_x: i32, offset_y: i32) -> (r: Option<
    Rectangle,
>)
    requires
        viewport_width <= i32::MAX,
        viewport_height <= i32::MAX,
    ensures
        r == spec_image_rectangle(
            content,
            viewport_width as int,
            viewport_height as int,
            offset_x as int,
            offset_y as int,
        ),
{
    let ox = saturating_add_i32(content.x.0, offset_x);
    let oy = saturating_add_i32(content.y.0, offset_y);
    let x0 = if ox < 0 { 0 } else { ox };
    let y0 = if oy < 0 { 0 } else { oy };
    let x1 = clamp_i32(saturating_add_i32(ox, content.width.0), 0, viewport_width as i32);
    let y1 = clamp_i32(saturating_add_i32(oy, content.height.0), 0, viewport_height as i32);
    if x1 > x0 && y1 > y0 {
        Some(Rectangle::new(x0 as u32, y0 as u32, (x1 - x0) as u32, (y1 - y0) as u32))
    } else {
        None
    }
}

/// Layer opacity for a computed opacity number (in units of `1 / scale`):
/// clamped to `0..=1` and scaled to `0..=u16::MAX`, rounding down.
pub open spec fn spec_opacity_value(scaled: int, scale: int) -> int {
    clamp_range(scaled, 0, scale) * 65535 / scale
}

/// The layer opacity of a computed `opacity` number.
pub fn opacity_value(scaled: i64, scale: i64) -> (r: u16)
    requires
        scale > 0,
    ensures
        r == spec_opacity_value(scaled as int, scale as int),
{
    let clamped: i64 = if scaled < 0 {
        0
    } else if scaled > scale {
        scale
    } else {
        scaled
    };
    let wide: u128 = (clamped as u128) * 65535;
    assert(wide <= (scale as u128) * 65535) by (nonlinear_arith)
        requires
            wide == (clamped as u128) * 65535,
            clamped <= scale,
            clamped >= 0,
    ;
    let q: u128 = wide / (scale as u128);
    assert(q <= 65535) by (nonlinear_arith)
        requires
            q == wide / (scale as u128),
            wide <= (scale as u128) * 65535,
            scale > 0,
    ;
    q as u16
}

/// Pixels of a transform length: percentages of `basis`, `em`/`rem` of 16px,
/// rounded toward zero and clamped to `i32`.
pub open spec fn spec_transform_length(length: Length, basis: int, scale: int) -> int {
    let scaled = match length.unit {
        LengthUnit::Px => length.scaled as int,
        LengthUnit::Percent => spec_trunc_div(sat_i64(length.scaled * basis), 100),
        LengthUnit::Em | LengthUnit::Rem => sat_i64(length.scaled * 16),
    };
    clamp_range(spec_trunc_div(scaled, scale), i32::MIN as int, i32::MAX as int)
}

/// Resolves a translation length against the border box side `basis`.
pub fn transform_length(length: Length, basis: CssPx, scale: i64) -> (r: i32)
    requires
        scale > 0,
    ensures
        r == spec_transform_length(length, basis.0 as int, scale as int),
{
    let scaled: i64 = match length.unit {
        LengthUnit::Px => length.scaled,
        LengthUnit::Percent => trunc_div_i64(saturating_mul_i64(length.scaled, basis.0 as i64), 100),
        LengthUnit::Em | LengthUnit::Rem => saturating_mul_i64(length.scaled, 16),
    };
    let v = trunc_div_i64(scaled, scale);
    if v < i32::MIN as i64 {
        i32::MIN
    } else if v > i32::MAX as i64 {
        i32::MAX
    } else {
        v as i32
    }
}

} // verus!

use crate::fragment_tree::GlyphFragment;
use crate::fonts::FontSlant;
use crate::shaping::spec_is_combining_mark;
use crate::text_util::is_white_space;

verus! {

/// Whether column `col` (0 = leftmost of 5) of a bitmap row is inked.
pub open spec fn bit_set(row: u8, col: int) -> bool {
    row & (1u8 << ((4 - col) as u8)) != 0
}

/// Horizontal shift of bitmap row `r` of an italic glyph.
pub open spec fn row_skew(italic: bool, r: int) -> int {
    if italic {
        (6 - r) / 3
    } else {
        0
    }
}

pub open spec fn pixel_rect(x: int, y: int) -> LayoutRect {
    LayoutRect { x: CssPx(x as i32), y: CssPx(y as i32), width: CssPx(1), height: CssPx(1) }
}

/// The pixels of the first `n` columns of bitmap row `r`; bold glyphs ink
/// each pixel's right neighbour too.
pub open spec fn row_pixels(g: GlyphFragment, row: u8, r: int, ox: int, oy: int, n: int) -> Seq<LayoutRect>
    decreases n,
{
    if n <= 0 {
        Seq::empty()
    } else {
        let prev = row_pixels(g, row, r, ox, oy, n - 1);
        let col = n - 1;
        if bit_set(row, col) {
            let x = g.x.0 + ox + col + row_skew(g.style.slant == FontSlant::Italic, r);
            let y = g.baseline.0 - 7 + oy + r;
            let p = prev.push(pixel_rect(x, y));
            if g.style.weight >= 600 {
                p.push(pixel_rect(x + 1, y))
            } else {
                p
            }
        } else {
            prev
        }
    }
}

/// The pixels of the first `n` bitmap rows, top row first.
pub open spec fn bitmap_pixels(g: GlyphFragment, rows: Seq<u8>, ox: int, oy: int, n: int) -> Seq<LayoutRect>
    decreases n,
{
    if n <= 0 {
        Seq::empty()
    } else {
        bitmap_pixels(g, rows, ox, oy, n - 1) + row_pixels(g, rows[n - 1], n - 1, ox, oy, 5)
    }
}

/// Underline, then line-through, one pixel high and at least one wide.
pub open spec fn decoration_rects(g: GlyphFragment, ox: int, oy: int) -> Seq<LayoutRect> {
    let w = CssPx(if g.advance.0 >= 1 { g.advance.0 } else { 1i32 });
    let under = if g.style.decorations.underline {
        seq![LayoutRect { x: CssPx((g.x.0 + ox) as i32), y: CssPx((g.baseline.0 + 1 + oy) as i32), width: w, height: CssPx(1) }]
    } else {
        Seq::empty()
    };
    let through = if g.style.decorations.line_through {
        seq![LayoutRect { x: CssPx((g.x.0 + ox) as i32), y: CssPx((g.baseline.0 - 4 + oy) as i32), width: w, height: CssPx(1) }]
    } else {
        Seq::empty()
    };
    under + through
}

/// The signed rectangles a glyph fills: nothing for whitespace, a short bar
/// for a combining mark, else its bitmap pixels and decorations (nothing
/// without a bitmap).
pub open spec fn glyph_rects(g: GlyphFragment, rows: Option<Seq<u8>>, ox: int, oy: int) -> Seq<LayoutRect> {
    if is_white_space(g.character) {
        Seq::empty()
    } else if spec_is_combining_mark(g.character) {
        seq![
            LayoutRect {
                x: CssPx((g.x.0 + 2 + ox) as i32),
                y: CssPx((g.baseline.0 - 10 + oy) as i32),
                width: CssPx(2),
                height: CssPx(1),
            },
        ]
    } else {
        match rows {
            None => Seq::empty(),
            Some(rs) => bitmap_pixels(g, rs, ox, oy, 7) + decoration_rects(g, ox, oy),
        }
    }
}

/// Each rectangle clipped to the viewport, the invisible ones dropped.
pub open spec fn clip_all(rects: Seq<LayoutRect>, w: int, h: int) -> Seq<Rectangle>
    decreases rects.len(),
{
    if rects.len() == 0 {
        Seq::empty()
    } else {
        let prev = clip_all(rects.drop_last(), w, h);
        match spec_clip_to_viewport(rects.last(), w, h) {
            Some(c) => prev.push(c),
            None => prev,
        }
    }
}

/// Every coordinate that painting the glyph computes fits in `i32`.
pub open spec fn glyph_paint_fits(g: GlyphFragment, rows: Option<Seq<u8>>, ox: int, oy: int) -> bool {
    let x = g.x.0 as int;
    let b = g.baseline.0 as int;
    let italic = g.style.slant == FontSlant::Italic;
    !is_white_space(g.character) ==> {
        &&& spec_is_combining_mark(g.character) ==> in_i32(x + 2) && in_i32(x + 2 + ox) && in_i32(b - 10)
            && in_i32(b - 10 + oy)
        &&& (!spec_is_combining_mark(g.character) && rows is Some) ==> {
            let rs = rows->0;
            &&& rs.len() == 7
            &&& in_i32(b - 7) && in_i32(b - 7 + oy)
            &&& forall|r: int, col: int|
                0 <= r < 7 && 0 <= col < 5 && #[trigger] bit_set(rs[r], col) ==> {
                    &&& in_i32(x + ox) && in_i32(x + ox + col) && in_i32(x + ox + col + row_skew(italic, r))
                    &&& in_i32(b - 7 + oy + r)
                    &&& g.style.weight >= 600 ==> in_i32(x + ox + col + row_skew(italic, r) + 1)
                }
            &&& g.style.decorations.underline ==> in_i32(x + ox) && in_i32(b + 1) && in_i32(b + 1 + oy)
            &&& g.style.decorations.line_through ==> in_i32(x + ox) && in_i32(b - 4) && in_i32(b - 4 + oy)
        }
    }
}

fn push_clipped(out: &mut Vec<Rectangle>, rect: LayoutRect, w: u32, h: u32)
    requires
        w <= i32::MAX,
        h <= i32::MAX,
    ensures
        final(out)@ == (match spec_clip_to_viewport(rect, w as int, h as int) {
            Some(c) => old(out)@.push(c),
            None => old(out)@,
        }),
{
    if let Some(c) = clip_to_viewport(rect, w, h) {
        out.push(c);
    }
}

proof fn lemma_clip_all_concat(a: Seq<LayoutRect>, b: Seq<LayoutRect>, w: int, h: int)
    ensures
        clip_all(a + b, w, h) == clip_all(a, w, h) + clip_all(b, w, h),
    decreases b.len(),
{
    if b.len() == 0 {
        assert(a + b =~= a);
        assert(clip_all(a, w, h) + clip_all(b, w, h) =~= clip_all(a, w, h));
    } else {
        lemma_clip_all_concat(a, b.drop_last(), w, h);
        assert((a + b).drop_last() =~= a + b.drop_last());
        assert((a + b).last() == b.last());
        match spec_clip_to_viewport(b.last(), w, h) {
            Some(c) => {
                assert(clip_all(a, w, h) + clip_all(b.drop_last(), w, h).push(c) =~= (clip_all(a, w, h)
                    + clip_all(b.drop_last(), w, h)).push(c));
            },
            None => {},
        }
    }
}

proof fn lemma_clip_all_push(a: Seq<LayoutRect>, r: LayoutRect, w: int, h: int)
    ensures
        clip_all(a.push(r), w, h) == (match spec_clip_to_viewport(r, w, h) {
            Some(c) => clip_all(a, w, h).push(c),
            None => clip_all(a, w, h),
        }),
{
    assert(a.push(r).drop_last() =~= a);
}

/// The viewport rectangles that painting one glyph fills with its color, in
/// paint order; `rows` is the glyph's 5x7 bitmap, if the pixel font has one.
pub fn glyph_paint_rects(
    glyph: &GlyphFragment,
    rows: Option<[u8; 7]>,
    viewport_width: u32,
    viewport_height: u32,
    offset_x: i32,
    offset_y: i32,
) -> (r: Vec<Rectangle>)
    requires
        viewport_width <= i32::MAX,
        viewport_height <= i32::MAX,
        glyph_paint_fits(
            *glyph,
            match rows {
                Some(a) => Some(a@),
                None => None,
            },
            offset_x as int,
            offset_y as int,
        ),
    ensures
        r@ == clip_all(
            glyph_rects(
                *glyph,
                match rows {
                    Some(a) => Some(a@),
                    None => None,
                },
                offset_x as int,
                offset_y as int,
            ),
            viewport_width as int,
            viewport_height as int,
        ),
{
    let w = viewport_width;
    let h = viewport_height;
    let mut out: Vec<Rectangle> = Vec::new();
    if crate::text_util::char_is_whitespace(glyph.character) {
        return out;
    }
    if crate::shaping::is_combining_mark(glyph.character) {
        let bar = LayoutRect {
            x: CssPx(glyph.x.0 + 2 + offset_x),
            y: CssPx(glyph.baseline.0 - 10 + offset_y),
            width: CssPx(2),
            height: CssPx(1),
        };
        push_clipped(&mut out, bar, w, h);
        proof {
            lemma_clip_all_push(Seq::empty(), bar, w as int, h as int);
            assert(seq![bar] =~= Seq::<LayoutRect>::empty().push(bar));
        }
        return out;
    }
    let bitmap = match rows {
        None => {
            return out;
        },
        Some(a) => a,
    };
    let ghost rs = bitmap@;
    let italic = match glyph.style.slant {
        FontSlant::Italic => true,
        FontSlant::Normal => false,
    };
    let bold = glyph.style.weight >= 600;
    let top = glyph.baseline.0 - 7 + offset_y;
    let mut r: usize = 0;
    while r < 7
        invariant
            r <= 7,
            rs == bitmap@,
            rs.len() == 7,
            w <= i32::MAX,
            h <= i32::MAX,
            italic == (glyph.style.slant == FontSlant::Italic),
            bold == (glyph.style.weight >= 600),
            top == glyph.baseline.0 - 7 + offset_y,
            glyph_paint_fits(*glyph, Some(rs), offset_x as int, offset_y as int),
            !is_white_space(glyph.character),
            !spec_is_combining_mark(glyph.character),
            out@ == clip_all(bitmap_pixels(*glyph, rs, offset_x as int, offset_y as int, r as int), w as int, h as int),
        decreases 7 - r,
    {
        let row = bitmap[r];
        let skew: i32 = if italic { (6 - r as i32) / 3 } else { 0 };
        let ghost before = bitmap_pixels(*glyph, rs, offset_x as int, offset_y as int, r as int);
        let mut col: usize = 0;
        while col < 5
            invariant
                r < 7,
                col <= 5,
                rs == bitmap@,
                rs.len() == 7,
                row == rs[r as int],
                w <= i32::MAX,
                h <= i32::MAX,
                skew == row_skew(italic, r as int),
                italic == (glyph.style.slant == FontSlant::Italic),
                bold == (glyph.style.weight >= 600),
                top == glyph.baseline.0 - 7 + offset_y,
                glyph_paint_fits(*glyph, Some(rs), offset_x as int, offset_y as int),
                !is_white_space(glyph.character),
                !spec_is_combining_mark(glyph.character),
                out@ == clip_all(before + row_pixels(*glyph, row, r as int, offset_x as int, offset_y as int, col as int), w as int, h as int),
            decreases 5 - col,
        {
            if row & (1u8 << ((4 - col) as u8)) != 0 {
                assert(bit_set(rs[r as int], col as int));
                let x = glyph.x.0 + offset_x + col as i32 + skew;
                let y = top + r as i32;
                let ghost prefix = before + row_pixels(*glyph, row, r as int, offset_x as int, offset_y as int, col as int);
                push_clipped(&mut out, LayoutRect { x: CssPx(x), y: CssPx(y), width: CssPx(1), height: CssPx(1) }, w, h);
                proof {
                    lemma_clip_all_push(prefix, pixel_rect(x as int, y as int), w as int, h as int);
                }
                if bold {
                    let ghost prefix2 = prefix.push(pixel_rect(x as int, y as int));
                    push_clipped(&mut out, LayoutRect { x: CssPx(x + 1), y: CssPx(y), width: CssPx(1), height: CssPx(1) }, w, h);
                    proof {
                        lemma_clip_all_push(prefix2, pixel_rect(x + 1, y as int), w as int, h as int);
                    }
                }
                assert(before + row_pixels(*glyph, row, r as int, offset_x as int, offset_y as int, col + 1) =~= (if bold {
                    prefix.push(pixel_rect(x as int, y as int)).push(pixel_rect(x + 1, y as int))
                } else {
                    prefix.push(pixel_rect(x as int, y as int))
                }));
            } else {
                assert(!bit_set(rs[r as int], col as int));
                assert(row_pixels(*glyph, row, r as int, offset_x as int, offset_y as int, col + 1) == row_pixels(*glyph, row, r as int, offset_x as int, offset_y as int, col as int));
            }
            col += 1;
        }
        assert(bitmap_pixels(*glyph, rs, offset_x as int, offset_y as int, r + 1) == before + row_pixels(*glyph, row, r as int, offset_x as int, offset_y as int, 5));
        r += 1;
    }
    let ghost pixels = bitmap_pixels(*glyph, rs, offset_x as int, offset_y as int, 7);
    let width = CssPx(if glyph.advance.0 >= 1 { glyph.advance.0 } else { 1 });
    let ghost decorations = decoration_rects(*glyph, offset_x as int, offset_y as int);
    if glyph.style.decorations.underline {
        let u = LayoutRect {
            x: CssPx(glyph.x.0 + offset_x),
            y: CssPx(glyph.baseline.0 + 1 + offset_y),
            width,
            height: CssPx(1),
        };
        let ghost prefix = pixels;
        push_clipped(&mut out, u, w, h);
        proof {
            lemma_clip_all_push(prefix, u, w as int, h as int);
        }
    }
    let ghost after_under = if glyph.style.decorations.underline {
        pixels.push(LayoutRect {
            x: CssPx((glyph.x.0 + offset_x) as i32),
            y: CssPx((glyph.baseline.0 + 1 + offset_y) as i32),
            width,
            height: CssPx(1),
        })
    } else {
        pixels
    };
    assert(out@ == clip_all(after_under, w as int, h as int));
    if glyph.style.decorations.line_through {
        let t = LayoutRect {
            x: CssPx(glyph.x.0 + offset_x),
            y: CssPx(glyph.baseline.0 - 4 + offset_y),
            width,
            height: CssPx(1),
        };
        push_clipped(&mut out, t, w, h);
        proof {
            lemma_clip_all_push(after_under, t, w as int, h as int);
        }
    }
    assert(pixels + decorations =~= (if glyph.style.decorations.line_through {
        after_under.push(LayoutRect {
            x: CssPx((glyph.x.0 + offset_x) as i32),
            y: CssPx((glyph.baseline.0 - 4 + offset_y) as i32),
            width,
            height: CssPx(1),
        })
    } else {
        after_under
    }));
    out
}

} // verus!

verus! {

/// The pixels of the first `n` columns of a bitmap row drawn at `(x, y)`.
pub open spec fn plain_row_pixels(row: u8, x: int, y: int, n: int) -> Seq<LayoutRect>
    decreases n,
{
    if n <= 0 {
        Seq::empty()
    } else {
        let prev = plain_row_pixels(row, x, y, n - 1);
        if bit_set(row, n - 1) {
            prev.push(pixel_rect(x + n - 1, y))
        } else {
            prev
        }
    }
}

/// The pixels of the first `n` rows of a 5x7 bitmap whose top-left is `(x, top)`.
pub open spec fn plain_bitmap_pixels(rows: Seq<u8>, x: int, top: int, n: int) -> Seq<LayoutRect>
    decreases n,
{
    if n <= 0 {
        Seq::empty()
    } else {
        plain_bitmap_pixels(rows, x, top, n - 1) + plain_row_pixels(rows[n - 1], x, top + n - 1, 5)
    }
}

/// The pixels of a run of bitmap characters, six pixels apart, starting at
/// `x` on `baseline`; a character without a bitmap leaves a gap.
pub open spec fn bitmap_text_pixels(bitmaps: Seq<Option<[u8; 7]>>, x: int, baseline: int) -> Seq<
    LayoutRect,
>
    decreases bitmaps.len(),
{
    if bitmaps.len() == 0 {
        Seq::empty()
    } else {
        let prev = bitmap_text_pixels(bitmaps.drop_last(), x, baseline);
        match bitmaps.last() {
            Some(rows) => prev + plain_bitmap_pixels(
                rows@,
                x + 6 * (bitmaps.len() - 1),
                baseline - 7,
                7,
            ),
            None => prev,
        }
    }
}

/// The viewport rectangles that writing a run of characters in the 5x7
/// pixel font fills; `bitmaps` holds each character's bitmap, if the font has one.
pub fn bitmap_text_rects(
    bitmaps: &[Option<[u8; 7]>],
    x: i32,
    baseline: i32,
    viewport_width: u32,
    viewport_height: u32,
) -> (r: Vec<Rectangle>)
    requires
        viewport_width <= i32::MAX,
        viewport_height <= i32::MAX,
        x + 6 * bitmaps@.len() <= i32::MAX,
        baseline - 7 >= i32::MIN,
    ensures
        r@ == clip_all(
            bitmap_text_pixels(bitmaps@, x as int, baseline as int),
            viewport_width as int,
            viewport_height as int,
        ),
{
    let w = viewport_width;
    let h = viewport_height;
    let ghost wi = w as int;
    let ghost hi = h as int;
    let top = baseline - 7;
    let mut out: Vec<Rectangle> = Vec::new();
    let mut cursor: i32 = x;
    let mut i: usize = 0;
    while i < bitmaps.len()
        invariant
            i <= bitmaps@.len(),
            w <= i32::MAX,
            h <= i32::MAX,
            wi == w,
            hi == h,
            top == baseline - 7,
            x + 6 * bitmaps@.len() <= i32::MAX,
            cursor == x + 6 * i,
            out@ == clip_all(bitmap_text_pixels(bitmaps@.take(i as int), x as int, baseline as int), wi, hi),
        decreases bitmaps@.len() - i,
    {
        let ghost done = bitmap_text_pixels(bitmaps@.take(i as int), x as int, baseline as int);
        assert(bitmaps@.take(i + 1).drop_last() =~= bitmaps@.take(i as int));
        assert(bitmaps@.take(i + 1).last() == bitmaps@[i as int]);
        if let Some(rows) = bitmaps[i] {
            let mut r: usize = 0;
            assert(plain_bitmap_pixels(rows@, cursor as int, top as int, 0) =~= Seq::<LayoutRect>::empty());
            assert(done + Seq::<LayoutRect>::empty() =~= done);
            while r < 7
                invariant
                    r <= 7,
                    w <= i32::MAX,
                    h <= i32::MAX,
                    wi == w,
                    hi == h,
                    top == baseline - 7,
                    cursor == x + 6 * i,
                    i < bitmaps@.len(),
                    x + 6 * bitmaps@.len() <= i32::MAX,
                    out@ == clip_all(done + plain_bitmap_pixels(rows@, cursor as int, top as int, r as int), wi, hi),
                decreases 7 - r,
            {
                let row = rows[r];
                let y = top + r as i32;
                let ghost before = done + plain_bitmap_pixels(rows@, cursor as int, top as int, r as int);
                let mut col: usize = 0;
                assert(before + plain_row_pixels(row, cursor as int, y as int, 0) =~= before);
                while col < 5
                    invariant
                        r < 7,
                        col <= 5,
                        w <= i32::MAX,
                        h <= i32::MAX,
                        wi == w,
                        hi == h,
                        y == top + r,
                        cursor == x + 6 * i,
                        i < bitmaps@.len(),
                        x + 6 * bitmaps@.len() <= i32::MAX,
                        out@ == clip_all(before + plain_row_pixels(row, cursor as int, y as int, col as int), wi, hi),
                    decreases 5 - col,
                {
                    let ghost prefix = before + plain_row_pixels(row, cursor as int, y as int, col as int);
                    if row & (1u8 << ((4 - col) as u8)) != 0 {
                        let px = LayoutRect {
                            x: CssPx(cursor + col as i32),
                            y: CssPx(y),
                            width: CssPx(1),
                            height: CssPx(1),
                        };
                        push_clipped(&mut out, px, w, h);
                        proof {
                            lemma_clip_all_push(prefix, px, wi, hi);
                            assert(px == pixel_rect(cursor + col, y as int));
                            assert(prefix.push(px) =~= before + plain_row_pixels(
                                row,
                                cursor as int,
                                y as int,
                                col + 1,
                            ));
                        }
                    } else {
                        assert(prefix =~= before + plain_row_pixels(row, cursor as int, y as int, col + 1));
                    }
                    col += 1;
                }
                assert(before + plain_row_pixels(row, cursor as int, y as int, 5) =~= done
                    + plain_bitmap_pixels(rows@, cursor as int, top as int, r + 1));
                r += 1;
            }
        } else {
        }
        assert(out@ == clip_all(bitmap_text_pixels(bitmaps@.take(i + 1), x as int, baseline as int), wi, hi));
        cursor = cursor + 6;
        i += 1;
    }
    assert(bitmaps@.take(i as int) =~= bitmaps@);
    out
}

} // verus!

verus! {

/// CSS named colors of the supported subset.
#[derive(Clone, Copy, Debug, PartialEq, Eq, Structural)]
pub enum NamedColor {
    Black,
    Silver,
    Gray,
    White,
    Maroon,
    Red,
    Purple,
    Fuchsia,
    Green,
    Lime,
    Olive,
    Yellow,
    Navy,
    Blue,
    Teal,
    Aqua,
    Orange,
    Gold,
    Crimson,
    RebeccaPurple,
}

/// Opaque red, green and blue of a named color.
pub open spec fn named_rgb(color: NamedColor) -> (u8, u8, u8) {
    match color {
        NamedColor::Black => (0, 0, 0),
        NamedColor::Silver => (192, 192, 192),
        NamedColor::Gray => (128, 128, 128),
        NamedColor::White => (255, 255, 255),
        NamedColor::Maroon => (128, 0, 0),
        NamedColor::Red => (255, 0, 0),
        NamedColor::Purple => (128, 0, 128),
        NamedColor::Fuchsia => (255, 0, 255),
        NamedColor::Green => (0, 128, 0),
        NamedColor::Lime => (0, 255, 0),
        NamedColor::Olive => (128, 128, 0),
        NamedColor::Yellow => (255, 255, 0),
        NamedColor::Navy => (0, 0, 128),
        NamedColor::Blue => (0, 0, 255),
        NamedColor::Teal => (0, 128, 128),
        NamedColor::Aqua => (0, 255, 255),
        NamedColor::Orange => (255, 165, 0),
        NamedColor::Gold => (255, 215, 0),
        NamedColor::Crimson => (220, 20, 60),
        NamedColor::RebeccaPurple => (102, 51, 153),
    }
}

/// The opaque color of a CSS color name.
pub fn named_color(color: NamedColor) -> (r: Rgba8)
    ensures
        r.channels() == (named_rgb(color).0, named_rgb(color).1, named_rgb(color).2, 255u8),
{
    match color {
        NamedColor::Black => Rgba8::rgb(0, 0, 0),
        NamedColor::Silver => Rgba8::rgb(192, 192, 192),
        NamedColor::Gray => Rgba8::rgb(128, 128, 128),
        NamedColor::White => Rgba8::rgb(255, 255, 255),
        NamedColor::Maroon => Rgba8::rgb(128, 0, 0),
        NamedColor::Red => Rgba8::rgb(255, 0, 0),
        NamedColor::Purple => Rgba8::rgb(128, 0, 128),
        NamedColor::Fuchsia => Rgba8::rgb(255, 0, 255),
        NamedColor::Green => Rgba8::rgb(0, 128, 0),
        NamedColor::Lime => Rgba8::rgb(0, 255, 0),
        NamedColor::Olive => Rgba8::rgb(128, 128, 0),
        NamedColor::Yellow => Rgba8::rgb(255, 255, 0),
        NamedColor::Navy => Rgba8::rgb(0, 0, 128),
        NamedColor::Blue => Rgba8::rgb(0, 0, 255),
        NamedColor::Teal => Rgba8::rgb(0, 128, 128),
        NamedColor::Aqua => Rgba8::rgb(0, 255, 255),
        NamedColor::Orange => Rgba8::rgb(255, 165, 0),
        NamedColor::Gold => Rgba8::rgb(255, 215, 0),
        NamedColor::Crimson => Rgba8::rgb(220, 20, 60),
        NamedColor::RebeccaPurple => Rgba8::rgb(102, 51, 153),
    }
}

/// A computed color value.
#[derive(Clone, Copy, Debug, PartialEq, Eq, Structural)]
pub enum ColorValue {
    Transparent,
    CurrentColor,
    Named(NamedColor),
    Rgba { red: u8, green: u8, blue: u8, alpha: u8 },
}

/// The paint color of a computed color; `currentColor` is resolved during
/// computed style and never reaches painting.
pub fn color_property(value: ColorValue) -> (r: Rgba8)
    requires
        value != ColorValue::CurrentColor,
    ensures
        r.channels() == (match value {
            ColorValue::Transparent => (0u8, 0u8, 0u8, 0u8),
            ColorValue::Named(n) => (named_rgb(n).0, named_rgb(n).1, named_rgb(n).2, 255u8),
            ColorValue::Rgba { red, green, blue, alpha } => (red, green, blue, alpha),
            ColorValue::CurrentColor => (0u8, 0u8, 0u8, 0u8),
        }),
{
    match value {
        ColorValue::Transparent => Rgba8::new(0, 0, 0, 0),
        ColorValue::Named(n) => named_color(n),
        ColorValue::Rgba { red, green, blue, alpha } => Rgba8::new(red, green, blue, alpha),
        ColorValue::CurrentColor => Rgba8::new(0, 0, 0, 0),
    }
}

} // verus!
