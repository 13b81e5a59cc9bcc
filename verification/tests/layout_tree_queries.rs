use meow_engine::fonts::{FontId, FontSlant, Script};
use meow_engine::fragment_tree::{
    BoxId, FragmentTree, GlyphFragment, InlinePaintStyle, LineFragment, ParagraphFragment,
};
use meow_engine::fragments::{FragmentId, TextDecorations};
use meow_engine::layout::{CssPx, EdgeSizes, LayoutRect, LayoutViewport, OverflowMetadata};
use meow_engine::layout_tree::{
    build_scroll_tree, collect_source_bounds, find_box, find_source, flex_column_space,
    outer_height, outer_width, translate_layout, update_overflow, BoxKind, LayoutBox, LayoutTree,
};
use meow_engine::renderer::Rgba8;
use meow_engine::shaping::TextDirection;

fn rect(x: i32, y: i32, width: i32, height: i32) -> LayoutRect {
    LayoutRect { x: CssPx(x), y: CssPx(y), width: CssPx(width), height: CssPx(height) }
}

fn edges(top: i32, right: i32, bottom: i32, left: i32) -> EdgeSizes {
    EdgeSizes { top: CssPx(top), right: CssPx(right), bottom: CssPx(bottom), left: CssPx(left) }
}

fn layout_box(id: u32, source: Option<u64>, content: LayoutRect, children: Vec<LayoutBox>) -> LayoutBox {
    LayoutBox {
        box_id: BoxId(id),
        kind: BoxKind::PrincipalBlock,
        source,
        containing_block_width: CssPx(800),
        content,
        padding: edges(0, 0, 0, 0),
        border: edges(0, 0, 0, 0),
        margin: edges(0, 0, 0, 0),
        overflow: OverflowMetadata::default(),
        children,
    }
}

fn glyph(source: Option<u64>, x: i32, baseline: i32, advance: i32) -> GlyphFragment {
    GlyphFragment {
        id: FragmentId(9),
        box_id: BoxId(9),
        source,
        font: FontId(0),
        script: Script::Latin,
        direction: TextDirection::Ltr,
        character: 'a',
        cluster: 0,
        x: CssPx(x),
        baseline: CssPx(baseline),
        advance: CssPx(advance),
        style: InlinePaintStyle {
            color: Rgba8::rgb(0, 0, 0),
            weight: 400,
            slant: FontSlant::Normal,
            decorations: TextDecorations { underline: false, line_through: false },
        },
    }
}

fn paragraph(source: Option<u64>, rect_: LayoutRect, glyphs: Vec<GlyphFragment>) -> ParagraphFragment {
    ParagraphFragment {
        id: FragmentId(1),
        box_id: BoxId(5),
        source,
        rect: rect_,
        text: "a".to_owned(),
        lines: vec![LineFragment {
            id: FragmentId(2),
            rect: rect_,
            baseline: CssPx(12),
            used_width: CssPx(8),
            glyphs,
        }],
    }
}

#[test]
fn border_and_margin_boxes_add_the_edges() {
    let mut node = layout_box(1, None, rect(20, 30, 100, 50), Vec::new());
    node.padding = edges(1, 2, 3, 4);
    node.border = edges(5, 6, 7, 8);
    node.margin = edges(10, 20, 30, 40);
    assert_eq!(node.border_box_width(), CssPx(120));
    assert_eq!(node.border_box_height(), CssPx(66));
    assert_eq!(node.border_box_rect(), rect(8, 24, 120, 66));
    assert_eq!(outer_width(&node), 180);
    assert_eq!(outer_height(&node), 106);
}

#[test]
fn lookups_return_the_first_box_in_preorder() {
    let grandchild = layout_box(3, Some(7), rect(0, 0, 1, 1), Vec::new());
    let child = layout_box(2, Some(7), rect(0, 0, 2, 2), vec![grandchild]);
    let sibling = layout_box(4, Some(8), rect(0, 0, 3, 3), Vec::new());
    let root = layout_box(1, None, rect(0, 0, 10, 10), vec![child, sibling]);
    assert_eq!(find_box(&root, BoxId(3)).map(|b| b.content.width), Some(CssPx(1)));
    assert_eq!(find_source(&root, 7).map(|b| b.box_id), Some(BoxId(2)));
    assert_eq!(find_source(&root, 8).map(|b| b.box_id), Some(BoxId(4)));
    assert!(find_box(&root, BoxId(99)).is_none());
    assert!(find_source(&root, 99).is_none());

    let other = layout_box(5, Some(8), rect(0, 0, 4, 4), Vec::new());
    let tree = LayoutTree::new(LayoutViewport::new(800, 600), vec![root, other]);
    assert_eq!(tree.viewport(), LayoutViewport::new(800, 600));
    assert_eq!(tree.roots().len(), 2);
    assert_eq!(tree.box_by_id(BoxId(5)).map(|b| b.source), Some(Some(8)));
    assert_eq!(tree.find_source(8).map(|b| b.box_id), Some(BoxId(4)));
    assert!(tree.box_by_id(BoxId(0)).is_none());
}

#[test]
fn scroll_tree_covers_boxes_and_paragraphs_and_lists_overflowing_boxes() {
    let mut scroller = layout_box(2, Some(4), rect(10, 10, 50, 40), Vec::new());
    scroller.overflow = OverflowMetadata {
        horizontal: false,
        vertical: true,
        scroll_width: CssPx(50),
        scroll_height: CssPx(90),
    };
    let wide = layout_box(3, None, rect(0, 60, 900, 20), Vec::new());
    let root = layout_box(1, None, rect(0, 0, 800, 100), vec![scroller, wide]);
    let tree = LayoutTree::new(LayoutViewport::new(800, 600), vec![root]);
    let fragments = FragmentTree::new(vec![paragraph(None, rect(0, 500, 100, 150), Vec::new())]);
    let scroll = build_scroll_tree(&tree, &fragments, 800, 600);
    assert_eq!(scroll.content_width(), 900);
    assert_eq!(scroll.content_height(), 650);
    let nodes = scroll.nodes();
    assert_eq!(nodes.len(), 2);
    assert_eq!(nodes[0].id, 0);
    assert_eq!(nodes[0].clip, rect(0, 0, 800, 600));
    assert_eq!(nodes[0].content_width, CssPx(900));
    assert_eq!(nodes[1].id, 1);
    assert_eq!(nodes[1].source, Some(4));
    assert_eq!(nodes[1].clip, rect(10, 10, 50, 40));
    assert_eq!(nodes[1].content_height, CssPx(90));

    let empty = LayoutTree::new(LayoutViewport::new(100, 50), Vec::new());
    let small = build_scroll_tree(&empty, &FragmentTree::new(Vec::new()), 100, 50);
    assert_eq!((small.content_width(), small.content_height()), (100, 50));
    assert_eq!(small.nodes().len(), 1);
}

#[test]
fn source_bounds_union_boxes_paragraphs_and_glyph_marks() {
    let a = layout_box(2, Some(7), rect(10, 10, 20, 20), Vec::new());
    let b = layout_box(3, Some(7), rect(50, 5, 10, 10), Vec::new());
    let c = layout_box(4, Some(9), rect(0, 0, 5, 5), Vec::new());
    let root = layout_box(1, None, rect(0, 0, 800, 600), vec![a, b, c]);
    let tree = LayoutTree::new(LayoutViewport::new(800, 600), vec![root]);
    let fragments = FragmentTree::new(vec![paragraph(
        Some(11),
        rect(100, 100, 40, 16),
        vec![glyph(Some(12), 100, 112, 0), glyph(Some(12), 108, 112, 8), glyph(None, 116, 112, 8)],
    )]);
    let bounds = collect_source_bounds(&tree, &fragments);
    assert_eq!(bounds.get(7), Some(rect(10, 5, 50, 25)));
    assert_eq!(bounds.get(9), Some(rect(0, 0, 5, 5)));
    assert_eq!(bounds.get(11), Some(rect(100, 100, 40, 16)));
    assert_eq!(bounds.get(12), Some(rect(100, 100, 16, 16)));
    assert_eq!(bounds.get(1), None);
}

#[test]
fn translation_moves_every_box_of_the_subtree() {
    let leaf = layout_box(3, None, rect(5, 6, 7, 8), Vec::new());
    let child = layout_box(2, None, rect(1, 2, 3, 4), vec![leaf]);
    let mut root = layout_box(1, None, rect(0, 0, 10, 10), vec![child]);
    translate_layout(&mut root, 10, -5);
    assert_eq!(root.content, rect(10, -5, 10, 10));
    assert_eq!(root.children[0].content, rect(11, -3, 3, 4));
    assert_eq!(root.children[0].children[0].content, rect(15, 1, 7, 8));
    translate_layout(&mut root, i32::MAX, 0);
    assert_eq!(root.content.x, CssPx(i32::MAX));
}

#[test]
fn overflow_records_how_far_children_reach() {
    let child = layout_box(2, None, rect(10, 10, 150, 30), Vec::new());
    let mut node = layout_box(1, None, rect(10, 10, 100, 20), vec![child]);
    update_overflow(&mut node, CssPx(25));
    assert_eq!(
        node.overflow,
        OverflowMetadata {
            horizontal: true,
            vertical: true,
            scroll_width: CssPx(150),
            scroll_height: CssPx(30),
        }
    );
    let mut quiet = layout_box(1, None, rect(0, 0, 100, 20), Vec::new());
    update_overflow(&mut quiet, CssPx(5));
    assert!(!quiet.overflow.horizontal && !quiet.overflow.vertical);
    assert_eq!(quiet.overflow.scroll_height, CssPx(20));
}

#[test]
fn flex_column_space_sums_items_and_gaps() {
    let mut first = layout_box(1, None, rect(0, 0, 10, 30), Vec::new());
    first.margin = edges(5, 0, 5, 0);
    let second = layout_box(2, None, rect(0, 0, 10, 20), Vec::new());
    let items = vec![first, second];
    assert_eq!(flex_column_space(&items, 10, Some(CssPx(200))), (70, 130));
    assert_eq!(flex_column_space(&items, 10, Some(CssPx(50))), (70, 0));
    assert_eq!(flex_column_space(&items, 10, None), (70, 0));
    assert_eq!(flex_column_space(&[], 10, Some(CssPx(40))), (0, 40));
}
