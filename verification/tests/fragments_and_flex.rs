use meow_engine::fonts::{FontDatabase, FontId, FontRequest, FontSlant, Script};
use meow_engine::fragment_tree::{
    build_paragraph, font_request, inline_style, line_starts, paragraph_fragment, BoxId, FontStyleValues,
    FragmentContext, FragmentTree, InlineStyleValues,
};
use meow_engine::fragments::{
    collapse_pieces, font_families, font_slant, font_weight, parse_u16, span_source,
    text_align, text_decorations, FragmentId,
};
use meow_engine::layout::{align_offset, justify_offsets, main_axis_offsets, CssPx, LayoutRect};
use meow_engine::line_breaking::{layout_paragraph, TextAlign};
use meow_engine::renderer::Rgba8;
use meow_engine::shaping::TextDirection;

#[test]
fn justify_content_keywords_split_the_free_space() {
    assert_eq!(justify_offsets("flex-start", 30, 3), (0, 0));
    assert_eq!(justify_offsets("flex-end", 30, 3), (30, 0));
    assert_eq!(justify_offsets("center", 30, 3), (15, 0));
    assert_eq!(justify_offsets("space-between", 30, 3), (0, 15));
    assert_eq!(justify_offsets("space-around", 30, 3), (5, 10));
    assert_eq!(justify_offsets("space-evenly", 30, 3), (7, 7));
    assert_eq!(justify_offsets("space-between", 30, 1), (0, 0));
    assert_eq!(justify_offsets("center", 30, 0), (0, 0));
    assert_eq!(justify_offsets("center", -5, 2), (-2, 0));
}

#[test]
fn align_items_keywords_offset_the_cross_axis() {
    assert_eq!(align_offset("flex-end", 9), 9);
    assert_eq!(align_offset("center", 9), 4);
    assert_eq!(align_offset("stretch", 9), 0);
}

#[test]
fn main_axis_offsets_advance_by_size_gap_and_extra_in_visit_order() {
    assert_eq!(main_axis_offsets(&[10, 20, 30], 5, 2, 1, false), vec![5, 18, 41]);
    assert_eq!(main_axis_offsets(&[10, 20, 30], 5, 2, 1, true), vec![61, 38, 5]);
    assert_eq!(main_axis_offsets(&[], 5, 2, 1, false), Vec::<i32>::new());
    assert_eq!(main_axis_offsets(&[i32::MAX, 1], 0, 0, 0, false), vec![0, i32::MAX]);
}

#[test]
fn unsigned_parse_follows_std() {
    for text in ["0", "12", "+12", "65535", "007", "65536", "", "+", "-1", "1a", " 1", "99999999999"] {
        assert_eq!(parse_u16(text), text.parse::<u16>().ok(), "{text:?}");
    }
}

#[test]
fn font_weight_keywords_numbers_and_fallback() {
    assert_eq!(font_weight("normal"), 400);
    assert_eq!(font_weight("bold"), 700);
    assert_eq!(font_weight("bolder"), 700);
    assert_eq!(font_weight("lighter"), 300);
    assert_eq!(font_weight("900"), 900);
    assert_eq!(font_weight("1200"), 1000);
    assert_eq!(font_weight("0"), 1);
    assert_eq!(font_weight("heavy"), 400);
    assert_eq!(font_weight("70000"), 400);
}

#[test]
fn font_style_and_text_align_keywords() {
    assert_eq!(font_slant("italic"), FontSlant::Italic);
    assert_eq!(font_slant("oblique"), FontSlant::Italic);
    assert_eq!(font_slant("normal"), FontSlant::Normal);
    assert_eq!(text_align(Some("center")), TextAlign::Center);
    assert_eq!(text_align(Some("justify")), TextAlign::Justify);
    assert_eq!(text_align(Some("end")), TextAlign::End);
    assert_eq!(text_align(Some("bogus")), TextAlign::Start);
    assert_eq!(text_align(None), TextAlign::Start);
}

#[test]
fn font_family_lists_are_trimmed_unquoted_and_non_empty() {
    assert_eq!(
        font_families(" 'Meow Sans', serif, , \"Meow Arabic\" ,''"),
        vec!["Meow Sans".to_owned(), "serif".to_owned(), "Meow Arabic".to_owned()]
    );
    assert!(font_families("").is_empty());
}

#[test]
fn decoration_lines_are_whole_tokens() {
    let both = text_decorations("underline  line-through");
    assert!(both.underline && both.line_through);
    let none = text_decorations("none");
    assert!(!none.underline && !none.line_through);
    let partial = text_decorations("underlined\tline-through");
    assert!(!partial.underline && partial.line_through);
}

#[test]
fn styled_pieces_collapse_whitespace_and_keep_sources() {
    let styled = collapse_pieces(vec![
        (Some(1), "  Hello ".to_owned()),
        (Some(2), " world".to_owned()),
        (None, "!".to_owned()),
    ]);
    assert_eq!(styled.text, "Hello world!");
    let spans: Vec<_> = styled.spans.iter().map(|s| (s.start, s.end, s.source)).collect();
    assert_eq!(spans, vec![(0, 5, Some(1)), (5, 11, Some(2)), (11, 12, None)]);
    assert_eq!(span_source(&styled.spans, 0), Some(1));
    assert_eq!(span_source(&styled.spans, 5), Some(2));
    assert_eq!(span_source(&styled.spans, 11), None);
    assert_eq!(span_source(&styled.spans, 12), None);
}

#[test]
fn collapsed_space_takes_the_following_source_when_whitespace_had_none() {
    let styled = collapse_pieces(vec![
        (Some(7), "a".to_owned()),
        (None, " ".to_owned()),
        (Some(8), "b".to_owned()),
    ]);
    assert_eq!(styled.text, "a b");
    let spans: Vec<_> = styled.spans.iter().map(|s| (s.start, s.end, s.source)).collect();
    assert_eq!(spans, vec![(0, 1, Some(7)), (1, 3, Some(8))]);
}

#[test]
fn line_starts_follow_the_wrapped_lines() {
    let lines = vec!["hello".to_owned(), "world foo".to_owned(), "bar".to_owned()];
    assert_eq!(line_starts("hello world foo  bar", &lines), vec![0, 6, 17]);
    let missing = vec!["zzz".to_owned(), "a".to_owned()];
    assert_eq!(line_starts("a a", &missing), vec![0, 3]);
}

#[test]
fn inline_style_defaults_and_computed_values() {
    let default = inline_style(None);
    assert_eq!(default.color, Rgba8::rgb(0, 0, 0));
    assert_eq!(default.weight, 400);
    assert_eq!(default.slant, FontSlant::Normal);
    let values = InlineStyleValues {
        color: Rgba8::rgb(1, 2, 3),
        font_weight: "bold".to_owned(),
        font_style: "italic".to_owned(),
        text_decoration_line: "underline".to_owned(),
    };
    let style = inline_style(Some(&values));
    assert_eq!(style.color, Rgba8::rgb(1, 2, 3));
    assert_eq!(style.weight, 700);
    assert_eq!(style.slant, FontSlant::Italic);
    assert!(style.decorations.underline && !style.decorations.line_through);
}

#[test]
fn font_requests_come_from_the_container_style() {
    let default = font_request(None);
    assert_eq!(default.families, vec!["serif".to_owned()]);
    let values = FontStyleValues {
        font_family: "\"Meow Sans\", sans-serif".to_owned(),
        font_weight: "300".to_owned(),
        font_style: "oblique".to_owned(),
    };
    let request = font_request(Some(&values));
    assert_eq!(request.families, vec!["Meow Sans".to_owned(), "sans-serif".to_owned()]);
    assert_eq!(request.weight, 300);
    assert_eq!(request.slant, FontSlant::Italic);
    assert_eq!(request.locale, None);
}

#[test]
fn paragraph_fragments_place_glyphs_in_page_space_with_sources() {
    let styled = collapse_pieces(vec![(Some(3), "ab ".to_owned()), (Some(4), "cd".to_owned())]);
    let mut database = FontDatabase::deterministic();
    let request = FontRequest::new(vec!["Meow Sans".to_owned()]);
    let layout = layout_paragraph(&mut database, &request, &styled.text, 20, TextAlign::Start);
    assert_eq!(layout.lines.len(), 2);
    let ctx = FragmentContext {
        box_id: BoxId(9),
        source: Some(1),
        content: LayoutRect { x: CssPx(100), y: CssPx(50), width: CssPx(20), height: CssPx(0) },
    };
    let bold = InlineStyleValues {
        color: Rgba8::rgb(9, 9, 9),
        font_weight: "bold".to_owned(),
        font_style: "normal".to_owned(),
        text_decoration_line: "none".to_owned(),
    };
    let mut next_id = 10;
    let paragraph = paragraph_fragment(&layout, &styled, &ctx, &[(4, bold)], &mut next_id);
    assert_eq!(paragraph.id, FragmentId(10));
    assert_eq!(paragraph.rect.height, CssPx(32));
    assert_eq!(paragraph.lines[0].id, FragmentId(11));
    assert_eq!(paragraph.lines[0].rect.y, CssPx(50));
    assert_eq!(paragraph.lines[1].rect.y, CssPx(66));
    let first = &paragraph.lines[0].glyphs;
    assert_eq!(first.len(), 2);
    assert_eq!((first[0].id, first[0].character, first[0].cluster), (FragmentId(12), 'a', 0));
    assert_eq!((first[0].x, first[0].baseline), (CssPx(100), CssPx(62)));
    assert_eq!(first[0].source, Some(3));
    assert_eq!(first[0].style.weight, 400);
    let second = &paragraph.lines[1].glyphs;
    assert_eq!(paragraph.lines[1].id, FragmentId(14));
    assert_eq!((second[0].id, second[0].character, second[0].cluster), (FragmentId(15), 'c', 3));
    assert_eq!(second[0].source, Some(4));
    assert_eq!(second[0].style.weight, 700);
    assert_eq!(second[0].font, FontId(0));
    assert_eq!(second[0].script, Script::Latin);
    assert_eq!(second[0].direction, TextDirection::Ltr);
    assert_eq!(next_id, 17);

    let tree = FragmentTree::new(vec![paragraph]);
    assert_eq!(tree.inline_heights(), vec![(BoxId(9), CssPx(32))]);
    let dump = tree.dump();
    assert!(dump.starts_with(
        "#fragment-tree\nparagraph fragment=10 box=9 source=1 rect=(100,50 20x32) text=\"ab cd\"\n  line fragment=11 rect=(100,50 20x16) baseline=62 used=16\n    glyph fragment=12 box=9 source=3 font=0 script=Latin direction=Ltr char='a' cluster=0 x=100 baseline=62 advance=8 color=#000000ff weight=400 slant=Normal decoration=(false,false)\n"
    ));
    assert!(dump.contains("color=#090909ff weight=700"));
    assert_eq!(dump.lines().count(), 8);
}

#[test]
fn paragraphs_are_built_only_for_text_that_survives_collapsing() {
    let mut database = FontDatabase::deterministic();
    let request = FontRequest::new(vec!["Meow Sans".to_owned()]);
    let ctx = FragmentContext {
        box_id: BoxId(2),
        source: Some(1),
        content: LayoutRect { x: CssPx(8), y: CssPx(8), width: CssPx(200), height: CssPx(0) },
    };
    let mut next_id = 5;
    let empty = build_paragraph(
        &mut database,
        &request,
        vec![(Some(3), " \n\t ".to_owned()), (None, String::new())],
        200,
        TextAlign::Start,
        &ctx,
        &[],
        &mut next_id,
    );
    assert!(empty.is_none());
    assert_eq!(next_id, 5);

    let built = build_paragraph(
        &mut database,
        &request,
        vec![(Some(3), "  hi ".to_owned()), (Some(4), " there".to_owned())],
        200,
        TextAlign::Start,
        &ctx,
        &[],
        &mut next_id,
    )
    .unwrap();
    assert_eq!(built.id, FragmentId(5));
    assert_eq!(built.text, "hi there");
    assert_eq!(built.rect, LayoutRect { x: CssPx(8), y: CssPx(8), width: CssPx(200), height: CssPx(16) });
    assert_eq!(built.lines.len(), 1);
    assert_eq!(built.lines[0].id, FragmentId(6));
    assert_eq!(built.lines[0].glyphs.len(), 8);
    assert_eq!(built.lines[0].glyphs[0].source, Some(3));
    assert_eq!(built.lines[0].glyphs[3].source, Some(4));
    assert_eq!(next_id, 15);
}
