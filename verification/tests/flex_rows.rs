use meow_engine::flex::{
    content_width_for, flex_column_placement, flex_row_placement, flex_row_sizes, FlexColumnChild,
    FlexItem, FlexRowChild,
};
use meow_engine::layout::{CssPx, EdgeSizes, LayoutRect};

fn item(basis: i32, grow: i64, shrink: i64) -> FlexItem {
    FlexItem { basis: CssPx(basis), grow, shrink }
}

fn child(outer_width: i32, outer_height: i32) -> FlexRowChild {
    FlexRowChild { outer_width, outer_height, margin_left: 0, margin_top: 0 }
}

#[test]
fn row_sizes_share_free_space_by_grow_and_shrink() {
    let grown = flex_row_sizes(400, CssPx(10), &[item(100, 1000, 1000), item(100, 1000, 1000), item(100, 1000, 1000)]);
    assert_eq!(grown, vec![CssPx(126), CssPx(126), CssPx(128)]);
    let shrunk = flex_row_sizes(400, CssPx(0), &[item(300, 0, 1000), item(300, 0, 1000), item(300, 0, 1000)]);
    assert_eq!(shrunk, vec![CssPx(134), CssPx(134), CssPx(132)]);
    let rigid = flex_row_sizes(400, CssPx(-5), &[item(-20, 0, 1000), item(50, 0, 1000)]);
    assert_eq!(rigid, vec![CssPx(0), CssPx(50)]);
    assert!(flex_row_sizes(400, CssPx(10), &[]).is_empty());
}

#[test]
fn row_placement_justifies_and_aligns_items() {
    let content = LayoutRect { x: CssPx(10), y: CssPx(20), width: CssPx(400), height: CssPx(0) };
    let children = [child(126, 20), child(126, 30), child(128, 10)];
    let (cross, positions) = flex_row_placement(content, CssPx(10), "flex-start", "center", false, &children);
    assert_eq!(cross, 30);
    assert_eq!(positions, vec![(10, 25), (146, 20), (282, 30)]);
    let (_, reversed) = flex_row_placement(content, CssPx(10), "flex-start", "flex-start", true, &children);
    assert_eq!(reversed, vec![(284, 20), (148, 20), (10, 20)]);

    let small = [FlexRowChild { outer_width: 50, outer_height: 10, margin_left: 5, margin_top: 3 }, child(50, 10)];
    let (_, centered) = flex_row_placement(content, CssPx(0), "center", "flex-end", false, &small);
    assert_eq!(centered, vec![(165, 23), (210, 20)]);
    let (cross, none) = flex_row_placement(content, CssPx(0), "center", "center", false, &[]);
    assert_eq!((cross, none), (0, Vec::new()));
}

#[test]
fn content_width_leaves_out_padding_and_border() {
    let edges = EdgeSizes { top: CssPx(0), right: CssPx(4), bottom: CssPx(0), left: CssPx(6) };
    assert_eq!(content_width_for(CssPx(100), edges, edges), CssPx(80));
    assert_eq!(content_width_for(CssPx(10), edges, edges), CssPx(0));
}

#[test]
fn column_placement_justifies_in_a_definite_height_and_aligns_across() {
    let content = LayoutRect { x: CssPx(10), y: CssPx(20), width: CssPx(200), height: CssPx(0) };
    let item = |outer_width, outer_height| FlexColumnChild {
        outer_width,
        outer_height,
        margin_top: 0,
        containing_block_width: 200,
        border_x: 10,
    };
    let children = [item(50, 30), item(100, 20)];
    let (total, placed) =
        flex_column_placement(content, CssPx(10), "center", "center", false, Some(CssPx(100)), &children);
    assert_eq!(total, 60);
    assert_eq!(placed, vec![(40, 115), (80, 140)]);
    let (total, reversed) =
        flex_column_placement(content, CssPx(10), "flex-start", "flex-start", true, None, &children);
    assert_eq!(total, 60);
    assert_eq!(reversed, vec![(50, 40), (20, 90)]);
}
