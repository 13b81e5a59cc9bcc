use meow_engine::layout::{
    collapse_margins, distribute_flex_space, flex_free_space, main_axis_offsets, replaced_image_height,
    resolve_horizontal, resolve_length, resolve_used_height, specified_content_height, AutoLength,
    BoxSizing, CssPx, EdgeSizes, HorizontalStyle, Length, LengthUnit,
};

#[test]
fn negative_and_mixed_margins_follow_the_w15_subset() {
    assert_eq!(collapse_margins(CssPx(-10), CssPx(-5)), CssPx(-10));
    assert_eq!(collapse_margins(CssPx(20), CssPx(-5)), CssPx(15));
    assert_eq!(collapse_margins(CssPx(7), CssPx(12)), CssPx(12));
}

#[test]
fn margin_collapsing_is_symmetric() {
    for (a, b) in [(-10, -5), (20, -5), (7, 12), (0, -3)] {
        assert_eq!(collapse_margins(CssPx(a), CssPx(b)), collapse_margins(CssPx(b), CssPx(a)));
    }
}

#[test]
fn flex_growth_hands_out_all_free_space() {
    let sizes = distribute_flex_space(&[CssPx(10), CssPx(20), CssPx(30)], &[1, 1, 1], &[1, 1, 1], 100);
    assert_eq!(sizes, vec![CssPx(43), CssPx(53), CssPx(64)]);
    let total: i32 = sizes.iter().map(|size| size.0).sum();
    assert_eq!(total, 60 + 100);
}

#[test]
fn flex_shrink_uses_shrink_weights() {
    let sizes = distribute_flex_space(&[CssPx(200), CssPx(150)], &[0, 0], &[200, 150], -30);
    assert_eq!(sizes, vec![CssPx(183), CssPx(137)]);
}

#[test]
fn flex_without_weights_keeps_bases() {
    let bases = [CssPx(5), CssPx(6)];
    assert_eq!(distribute_flex_space(&bases, &[0, 0], &[1, 1], 40), bases.to_vec());
}

const SCALE: i64 = 1000;

fn px(v: i64) -> Length {
    Length { scaled: v * SCALE, unit: LengthUnit::Px }
}

fn edges(left: i32, right: i32) -> EdgeSizes {
    EdgeSizes { top: CssPx(0), right: CssPx(right), bottom: CssPx(0), left: CssPx(left) }
}

fn block_style() -> HorizontalStyle {
    HorizontalStyle {
        padding: edges(0, 0),
        border: edges(0, 0),
        margin_top: AutoLength::Length(CssPx(0)),
        margin_right: AutoLength::Length(CssPx(0)),
        margin_bottom: AutoLength::Length(CssPx(0)),
        margin_left: AutoLength::Length(CssPx(0)),
        box_sizing: BoxSizing::ContentBox,
        width: None,
        min_width: CssPx(0),
        max_width: None,
    }
}

#[test]
fn auto_width_fills_the_containing_block_after_edges() {
    let style = HorizontalStyle {
        padding: edges(20, 20),
        border: edges(5, 5),
        margin_left: AutoLength::Length(CssPx(10)),
        margin_right: AutoLength::Length(CssPx(10)),
        ..block_style()
    };
    let used = resolve_horizontal(Some(&style), CssPx(300));
    assert_eq!(used.content_width, CssPx(230));
    assert_eq!(used.content_width.0 + 20 + 20 + 5 + 5, 280);
}

#[test]
fn border_box_and_auto_margins_center_the_used_box() {
    let style = HorizontalStyle {
        padding: edges(20, 20),
        border: edges(5, 5),
        margin_left: AutoLength::Auto,
        margin_right: AutoLength::Auto,
        box_sizing: BoxSizing::BorderBox,
        width: Some(CssPx(200)),
        ..block_style()
    };
    let used = resolve_horizontal(Some(&style), CssPx(300));
    assert_eq!(used.content_width, CssPx(150));
    assert_eq!(used.margin_left, CssPx(50));
    assert_eq!(used.margin_right, CssPx(50));
}

#[test]
fn min_and_max_width_clamp_the_selected_sizing_box() {
    let min = HorizontalStyle { width: Some(CssPx(20)), min_width: CssPx(80), ..block_style() };
    assert_eq!(resolve_horizontal(Some(&min), CssPx(300)).content_width, CssPx(80));
    let max = HorizontalStyle { width: Some(CssPx(180)), max_width: Some(CssPx(120)), ..block_style() };
    assert_eq!(resolve_horizontal(Some(&max), CssPx(300)).content_width, CssPx(120));
}

#[test]
fn min_width_wins_over_a_smaller_max_width() {
    let style = HorizontalStyle {
        width: Some(CssPx(100)),
        min_width: CssPx(90),
        max_width: Some(CssPx(50)),
        ..block_style()
    };
    assert_eq!(resolve_horizontal(Some(&style), CssPx(300)).content_width, CssPx(90));
}

#[test]
fn unstyled_boxes_fill_the_containing_block() {
    let used = resolve_horizontal(None, CssPx(321));
    assert_eq!(used.content_width, CssPx(321));
    assert_eq!(used.margin_left, CssPx(0));
}

#[test]
fn min_and_max_height_clamp_content_height() {
    let min_content = specified_content_height(Some(px(10)), Some(CssPx(400)), BoxSizing::ContentBox, 0, SCALE);
    assert_eq!(min_content, Some(CssPx(10)));
    let min = resolve_used_height(BoxSizing::ContentBox, CssPx(0), Some(CssPx(400)), 0, min_content, px(30), None, SCALE);
    assert_eq!(min, CssPx(30));
    let max = resolve_used_height(BoxSizing::ContentBox, CssPx(40), Some(CssPx(400)), 0, None, px(0), Some(px(25)), SCALE);
    assert_eq!(max, CssPx(25));
}

#[test]
fn percentage_heights_need_a_definite_containing_height() {
    let half = Length { scaled: 50 * SCALE, unit: LengthUnit::Percent };
    assert_eq!(specified_content_height(Some(half), None, BoxSizing::ContentBox, 0, SCALE), None);
    assert_eq!(specified_content_height(Some(half), Some(CssPx(300)), BoxSizing::ContentBox, 0, SCALE), Some(CssPx(150)));
    assert_eq!(specified_content_height(Some(half), Some(CssPx(300)), BoxSizing::BorderBox, 20, SCALE), Some(CssPx(130)));
    assert_eq!(specified_content_height(None, Some(CssPx(300)), BoxSizing::ContentBox, 0, SCALE), None);
}

#[test]
fn lengths_resolve_by_unit_and_saturate() {
    assert_eq!(resolve_length(px(12), CssPx(0), SCALE), CssPx(12));
    assert_eq!(resolve_length(Length { scaled: 2 * SCALE, unit: LengthUnit::Em }, CssPx(0), SCALE), CssPx(32));
    assert_eq!(resolve_length(Length { scaled: 1500, unit: LengthUnit::Rem }, CssPx(0), SCALE), CssPx(24));
    assert_eq!(resolve_length(Length { scaled: 25 * SCALE, unit: LengthUnit::Percent }, CssPx(200), SCALE), CssPx(50));
    assert_eq!(resolve_length(Length { scaled: -1500, unit: LengthUnit::Px }, CssPx(0), SCALE), CssPx(-1));
    assert_eq!(resolve_length(Length { scaled: i64::MAX, unit: LengthUnit::Px }, CssPx(0), SCALE), CssPx(i32::MAX));
    assert_eq!(resolve_length(Length { scaled: i64::MIN, unit: LengthUnit::Em }, CssPx(0), SCALE), CssPx(i32::MIN));
}

#[test]
fn replaced_images_keep_their_aspect_ratio() {
    assert_eq!(replaced_image_height(None, CssPx(200), Some((400, 300)), SCALE), CssPx(150));
    assert_eq!(replaced_image_height(None, CssPx(200), Some((0, 300)), SCALE), CssPx(0));
    assert_eq!(replaced_image_height(None, CssPx(-5), Some((4, 3)), SCALE), CssPx(0));
    assert_eq!(replaced_image_height(None, CssPx(200), None, SCALE), CssPx(0));
    assert_eq!(replaced_image_height(Some(px(-7)), CssPx(200), Some((4, 3)), SCALE), CssPx(0));
    assert_eq!(replaced_image_height(Some(px(70)), CssPx(200), Some((4, 3)), SCALE), CssPx(70));
}

#[test]
fn flex_row_distributes_grow_and_gap_for_nav_layout() {
    let bases = [CssPx(0), CssPx(0)];
    let (gaps, free) = flex_free_space(300, 10, &bases);
    assert_eq!((gaps, free), (10, 290));
    let sizes = distribute_flex_space(&bases, &[SCALE, 2 * SCALE], &[0, 0], free);
    assert_eq!(sizes, vec![CssPx(96), CssPx(194)]);
    let offsets = main_axis_offsets(&[96, 194], 0, 10, 0, false);
    assert_eq!(offsets[1] - (offsets[0] + 96), 10);
}

#[test]
fn flex_row_shrinks_cards_by_weighted_basis() {
    let bases = [CssPx(200), CssPx(200)];
    let (gaps, free) = flex_free_space(300, 0, &bases);
    assert_eq!((gaps, free), (0, -100));
    let shrink = [SCALE * 200, SCALE * 200];
    let sizes = distribute_flex_space(&bases, &[0, 0], &shrink, free);
    assert_eq!(sizes, vec![CssPx(150), CssPx(150)]);
}
