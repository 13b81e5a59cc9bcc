use meow_engine::fonts::{FontId, FontSlant, Script};
use meow_engine::fragment_tree::{BoxId, GlyphFragment, InlinePaintStyle};
use meow_engine::fragments::{FragmentId, TextDecorations};
use meow_engine::layout::{CssPx, EdgeSizes, LayoutRect, Length, LengthUnit};
use meow_engine::paint::{
    bitmap_text_rects, border_strips, clip_to_viewport, outline_strips, color_property, glyph_paint_rects, image_rectangle, named_color,
    opacity_value, transform_length, translated, ColorValue, NamedColor,
};
use meow_engine::renderer::{Rectangle, Rgba8};
use meow_engine::shaping::TextDirection;

fn rect(x: i32, y: i32, width: i32, height: i32) -> LayoutRect {
    LayoutRect { x: CssPx(x), y: CssPx(y), width: CssPx(width), height: CssPx(height) }
}

#[test]
fn signed_rectangles_are_clipped_to_the_viewport() {
    assert_eq!(clip_to_viewport(rect(-5, -5, 20, 10), 100, 50), Some(Rectangle::new(0, 0, 15, 5)));
    assert_eq!(clip_to_viewport(rect(90, 40, 20, 20), 100, 50), Some(Rectangle::new(90, 40, 10, 10)));
    assert_eq!(clip_to_viewport(rect(100, 0, 5, 5), 100, 50), None);
    assert_eq!(clip_to_viewport(rect(0, 0, 0, 5), 100, 50), None);
    assert_eq!(clip_to_viewport(rect(i32::MAX - 1, 0, 10, 5), 100, 50), None);
}

#[test]
fn borders_are_four_strips_of_the_border_box() {
    let strips = border_strips(
        rect(10, 20, 100, 50),
        EdgeSizes { top: CssPx(1), right: CssPx(2), bottom: CssPx(3), left: CssPx(4) },
    );
    assert_eq!(strips, vec![rect(10, 20, 100, 1), rect(108, 20, 2, 50), rect(10, 67, 100, 3), rect(10, 20, 4, 50)]);
    assert_eq!(translated(rect(1, 2, 3, 4), CssPx(10), CssPx(-20)), rect(11, -18, 3, 4));
}

#[test]
fn image_rectangles_follow_the_offset_content_box() {
    assert_eq!(image_rectangle(rect(10, 10, 50, 40), 100, 100, 5, -20), Some(Rectangle::new(15, 0, 50, 30)));
    assert_eq!(image_rectangle(rect(10, 10, 50, 40), 100, 100, 0, -60), None);
    assert_eq!(image_rectangle(rect(80, 0, 50, 40), 100, 100, 0, 0), Some(Rectangle::new(80, 0, 20, 40)));
}

#[test]
fn opacity_and_transform_lengths_use_fixed_point_numbers() {
    assert_eq!(opacity_value(1000, 1000), u16::MAX);
    assert_eq!(opacity_value(500, 1000), 32767);
    assert_eq!(opacity_value(-3, 1000), 0);
    assert_eq!(opacity_value(7000, 1000), u16::MAX);
    let px = Length { scaled: 12_500, unit: LengthUnit::Px };
    assert_eq!(transform_length(px, CssPx(0), 1000), 12);
    let pct = Length { scaled: 50_000, unit: LengthUnit::Percent };
    assert_eq!(transform_length(pct, CssPx(200), 1000), 100);
    let em = Length { scaled: -2_000, unit: LengthUnit::Em };
    assert_eq!(transform_length(em, CssPx(0), 1000), -32);
    assert_eq!(transform_length(Length { scaled: i64::MAX, unit: LengthUnit::Px }, CssPx(0), 1), i32::MAX);
}

#[test]
fn named_and_rgba_colors() {
    assert_eq!(named_color(NamedColor::RebeccaPurple), Rgba8::rgb(102, 51, 153));
    assert_eq!(named_color(NamedColor::Orange), Rgba8::rgb(255, 165, 0));
    assert_eq!(color_property(ColorValue::Transparent), Rgba8::new(0, 0, 0, 0));
    assert_eq!(color_property(ColorValue::Named(NamedColor::Crimson)), Rgba8::rgb(220, 20, 60));
    assert_eq!(
        color_property(ColorValue::Rgba { red: 1, green: 2, blue: 3, alpha: 4 }),
        Rgba8::new(1, 2, 3, 4)
    );
}

fn glyph(character: char, weight: u16, slant: FontSlant, underline: bool) -> GlyphFragment {
    GlyphFragment {
        id: FragmentId(0),
        box_id: BoxId(0),
        source: None,
        font: FontId(0),
        script: Script::Latin,
        direction: TextDirection::Ltr,
        character,
        cluster: 0,
        x: CssPx(10),
        baseline: CssPx(20),
        advance: CssPx(8),
        style: InlinePaintStyle {
            color: Rgba8::rgb(0, 0, 0),
            weight,
            slant,
            decorations: TextDecorations { underline, line_through: false },
        },
    }
}

#[test]
fn glyph_bitmaps_become_pixels_with_bold_italic_and_decorations() {
    let rows = Some([0b10000, 0, 0, 0, 0, 0, 0b00001]);
    let plain = glyph_paint_rects(&glyph('x', 400, FontSlant::Normal, false), rows, 100, 100, 0, 0);
    assert_eq!(plain, vec![Rectangle::new(10, 13, 1, 1), Rectangle::new(14, 19, 1, 1)]);
    let bold_italic = glyph_paint_rects(&glyph('x', 700, FontSlant::Italic, true), rows, 100, 100, 0, 0);
    assert_eq!(
        bold_italic,
        vec![
            Rectangle::new(12, 13, 1, 1),
            Rectangle::new(13, 13, 1, 1),
            Rectangle::new(14, 19, 1, 1),
            Rectangle::new(15, 19, 1, 1),
            Rectangle::new(10, 21, 8, 1),
        ]
    );
    assert!(glyph_paint_rects(&glyph(' ', 400, FontSlant::Normal, true), rows, 100, 100, 0, 0).is_empty());
    assert!(glyph_paint_rects(&glyph('x', 400, FontSlant::Normal, true), None, 100, 100, 0, 0).is_empty());
    assert_eq!(
        glyph_paint_rects(&glyph('\u{301}', 400, FontSlant::Normal, false), None, 100, 100, 0, 0),
        vec![Rectangle::new(12, 10, 2, 1)]
    );
    assert_eq!(
        glyph_paint_rects(&glyph('x', 400, FontSlant::Normal, false), rows, 12, 100, 0, -12),
        vec![Rectangle::new(10, 1, 1, 1)]
    );
}

#[test]
fn focus_outline_is_four_one_pixel_lines() {
    assert_eq!(
        outline_strips(rect(10, 20, 30, 40)),
        vec![rect(10, 20, 30, 1), rect(10, 59, 30, 1), rect(10, 20, 1, 40), rect(39, 20, 1, 40)]
    );
}

#[test]
fn bitmap_text_advances_six_pixels_per_character() {
    let dot = Some([0b10000u8, 0, 0, 0, 0, 0, 0b00001]);
    let rects = bitmap_text_rects(&[dot, None, dot], 2, 10, 100, 100);
    assert_eq!(
        rects,
        vec![
            Rectangle::new(2, 3, 1, 1),
            Rectangle::new(6, 9, 1, 1),
            Rectangle::new(14, 3, 1, 1),
            Rectangle::new(18, 9, 1, 1),
        ]
    );
    let clipped = bitmap_text_rects(&[dot], -4, 4, 10, 10);
    assert_eq!(clipped, vec![Rectangle::new(0, 3, 1, 1)]);
    assert!(bitmap_text_rects(&[], 0, 10, 10, 10).is_empty());
}
