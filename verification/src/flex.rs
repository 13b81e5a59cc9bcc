//! Single-line flex rows: sizing the items along the main axis, then placing
//! them once their heights are known.
use vstd::prelude::*;
use crate::layout::{saturating_sub_i32, EdgeSizes,
    align_offset, distribute_flex_space, flex_free_space, flex_inputs_ok, in_i32, justify_offsets,
    main_axis_offsets, main_cursor, sat_i32, sat_i64, saturating_mul_i64, spec_align_offset,
    spec_flex_gaps, spec_flex_size, spec_justify_offsets, sum_px, visit_index, CssPx, LayoutRect,
};

verus! {

/// What sizing reads of one flex item: its flex basis, resolved against the
/// container's content width, and its `flex-grow` and `flex-shrink` factors
/// (scaled numbers).
#[derive(Clone, Copy, Debug, PartialEq, Eq, Structural)]
pub struct FlexItem {
    pub basis: CssPx,
    pub grow: i64,
    pub shrink: i64,
}

/// The flex bases, negative ones taken as zero.
pub open spec fn item_bases(items: Seq<FlexItem>) -> Seq<CssPx> {
    Seq::new(
        items.len(),
        |i: int| CssPx(if items[i].basis.0 < 0 { 0 } else { items[i].basis.0 }),
    )
}

pub open spec fn item_grows(items: Seq<FlexItem>) -> Seq<i64> {
    Seq::new(items.len(), |i: int| items[i].grow)
}

/// Shrink weights: each shrink factor times its flex basis, saturating.
pub open spec fn item_shrink_weights(items: Seq<FlexItem>) -> Seq<i64> {
    Seq::new(items.len(), |i: int| sat_i64(items[i].shrink * item_bases(items)[i].0) as i64)
}

/// The free space of the row: the content width less the gaps and the bases.
pub open spec fn row_free_space(content_width: int, gap: int, items: Seq<FlexItem>) -> int {
    let g = if gap < 0 { 0 } else { gap };
    sat_i32(sat_i32(content_width - spec_flex_gaps(g, items.len() as int)) - sum_px(item_bases(items)))
}

/// The inputs on which sizing a row runs without overflow.
pub open spec fn row_sizes_fit(content_width: int, gap: int, items: Seq<FlexItem>) -> bool {
    &&& items.len() <= i32::MAX
    &&& forall|k: int| 0 <= k <= items.len() ==> in_i32(#[trigger] sum_px(item_bases(items).take(k)))
    &&& flex_inputs_ok(
        item_bases(items),
        item_grows(items),
        item_shrink_weights(items),
        row_free_space(content_width, gap, items),
    )
}

/// The main sizes (border-box widths) of the items of a flex row: the free
/// space left by the bases and gaps is shared out by grow factors when it is
/// positive and by shrink weights when it is negative.
pub fn flex_row_sizes(content_width: i32, gap: CssPx, items: &[FlexItem]) -> (r: Vec<CssPx>)
    requires
        row_sizes_fit(content_width as int, gap.0 as int, items@),
    ensures
        r@.len() == items@.len(),
        forall|i: int|
            0 <= i < items@.len() ==> #[trigger] r@[i].0 == spec_flex_size(
                item_bases(items@),
                item_grows(items@),
                item_shrink_weights(items@),
                row_free_space(content_width as int, gap.0 as int, items@),
                i,
            ),
{
    let gap = gap.max_zero();
    let mut bases: Vec<CssPx> = Vec::new();
    let mut grows: Vec<i64> = Vec::new();
    let mut shrink_weights: Vec<i64> = Vec::new();
    let mut i: usize = 0;
    while i < items.len()
        invariant
            i <= items@.len(),
            bases@ == item_bases(items@).take(i as int),
            grows@ == item_grows(items@).take(i as int),
            shrink_weights@ == item_shrink_weights(items@).take(i as int),
        decreases items@.len() - i,
    {
        let base = items[i].basis.max_zero();
        bases.push(base);
        grows.push(items[i].grow);
        shrink_weights.push(saturating_mul_i64(items[i].shrink, base.0 as i64));
        assert(bases@ =~= item_bases(items@).take(i + 1));
        assert(grows@ =~= item_grows(items@).take(i + 1));
        assert(shrink_weights@ =~= item_shrink_weights(items@).take(i + 1));
        i += 1;
    }
    assert(bases@ =~= item_bases(items@));
    assert(grows@ =~= item_grows(items@));
    assert(shrink_weights@ =~= item_shrink_weights(items@));
    let (_gaps, free) = flex_free_space(content_width, gap.0, bases.as_slice());
    distribute_flex_space(bases.as_slice(), grows.as_slice(), shrink_weights.as_slice(), free)
}

/// What placing reads of one item once it is sized and laid out: its margin
/// box width and height and its left and top margins.
#[derive(Clone, Copy, Debug, PartialEq, Eq, Structural)]
pub struct FlexRowChild {
    pub outer_width: i32,
    pub outer_height: i32,
    pub margin_left: i32,
    pub margin_top: i32,
}

/// The tallest margin box, or zero.
pub open spec fn max_outer_height(children: Seq<FlexRowChild>) -> int
    decreases children.len(),
{
    if children.len() == 0 {
        0
    } else {
        let prev = max_outer_height(children.drop_last());
        if children.last().outer_height > prev {
            children.last().outer_height as int
        } else {
            prev
        }
    }
}

pub open spec fn outer_widths(children: Seq<FlexRowChild>) -> Seq<i32> {
    Seq::new(children.len(), |i: int| children[i].outer_width)
}

pub open spec fn sum_widths(children: Seq<FlexRowChild>) -> int
    decreases children.len(),
{
    if children.len() == 0 {
        0
    } else {
        sum_widths(children.drop_last()) + children.last().outer_width
    }
}

/// The justification start and extra gap of a row.
pub open spec fn row_justify(
    content: LayoutRect,
    gap: int,
    justify: Seq<char>,
    children: Seq<FlexRowChild>,
) -> (int, int) {
    let g = if gap < 0 { 0 } else { gap };
    let used = sum_widths(children) + spec_flex_gaps(g, children.len() as int);
    let remaining = sat_i32(content.width.0 - used);
    spec_justify_offsets(
        justify,
        if remaining < 0 { 0 } else { remaining },
        children.len() as int,
    )
}

/// Cross offset of child `i` under `align-items`.
pub open spec fn row_cross_offset(align: Seq<char>, children: Seq<FlexRowChild>, i: int) -> int {
    let free = sat_i32(max_outer_height(children) - children[i].outer_height);
    spec_align_offset(align, if free < 0 { 0 } else { free })
}

/// Main cursor of child `i` along the row.
pub open spec fn row_main_offset(
    content: LayoutRect,
    gap: int,
    justify: Seq<char>,
    reverse: bool,
    children: Seq<FlexRowChild>,
    i: int,
) -> int {
    let g = if gap < 0 { 0 } else { gap };
    let (start, extra) = row_justify(content, gap, justify, children);
    main_cursor(
        outer_widths(children),
        start,
        g,
        extra,
        visit_index(children.len() as int, i, reverse),
        reverse,
    )
}

/// The inputs on which placing a row runs without overflow.
pub open spec fn row_placement_fits(
    content: LayoutRect,
    gap: int,
    justify: Seq<char>,
    align: Seq<char>,
    reverse: bool,
    children: Seq<FlexRowChild>,
) -> bool {
    let g = if gap < 0 { 0 } else { gap };
    &&& children.len() < i32::MAX
    &&& forall|k: int| 0 <= k <= children.len() ==> in_i32(#[trigger] sum_widths(children.take(k)))
    &&& in_i32(sum_widths(children) + spec_flex_gaps(g, children.len() as int))
    &&& forall|i: int|
        0 <= i < children.len() ==> {
            &&& in_i32(content.y.0 + row_cross_offset(align, children, i))
            &&& in_i32(content.y.0 + row_cross_offset(align, children, i) + (
            #[trigger] children[i]).margin_top)
            &&& in_i32(content.x.0 + row_main_offset(content, gap, justify, reverse, children, i))
            &&& in_i32(content.x.0 + row_main_offset(content, gap, justify, reverse, children, i)
                + children[i].margin_left)
        }
}

/// Places the sized and laid-out items of a flex row: the cross size is the
/// tallest margin box; each item's border box goes to the left edge that
/// `justify-content` (and a reversed direction) gives it along the content
/// box, and to the top edge that `align-items` gives it across the row.
/// Returns the cross size and each item's border-box position.
pub fn flex_row_placement(
    content: LayoutRect,
    gap: CssPx,
    justify: &str,
    align: &str,
    reverse: bool,
    children: &[FlexRowChild],
) -> (r: (i32, Vec<(i32, i32)>))
    requires
        row_placement_fits(content, gap.0 as int, justify@, align@, reverse, children@),
    ensures
        r.0 == max_outer_height(children@),
        r.1@.len() == children@.len(),
        forall|i: int|
            0 <= i < children@.len() ==> (#[trigger] r.1@[i]).0 == content.x.0 + row_main_offset(
                content,
                gap.0 as int,
                justify@,
                reverse,
                children@,
                i,
            ) + children@[i].margin_left && r.1@[i].1 == content.y.0 + row_cross_offset(
                align@,
                children@,
                i,
            ) + children@[i].margin_top,
{
    let g = gap.max_zero();
    let n = children.len();
    let mut cross: i32 = 0;
    let mut used: i32 = 0;
    let mut widths: Vec<i32> = Vec::new();
    let mut i: usize = 0;
    assert(children@.take(0) =~= Seq::<FlexRowChild>::empty());
    while i < n
        invariant
            n == children@.len(),
            i <= n,
            row_placement_fits(content, gap.0 as int, justify@, align@, reverse, children@),
            cross == max_outer_height(children@.take(i as int)),
            used == sum_widths(children@.take(i as int)),
            widths@ == outer_widths(children@).take(i as int),
        decreases n - i,
    {
        assert(children@.take(i + 1).drop_last() =~= children@.take(i as int));
        assert(children@.take(i + 1).last() == children@[i as int]);
        assert(in_i32(sum_widths(children@.take(i + 1))));
        let c = children[i];
        if c.outer_height > cross {
            cross = c.outer_height;
        }
        used = used + c.outer_width;
        widths.push(c.outer_width);
        assert(widths@ =~= outer_widths(children@).take(i + 1));
        i += 1;
    }
    assert(children@.take(n as int) =~= children@);
    assert(widths@ =~= outer_widths(children@));
    let pairs: i32 = if n >= 1 {
        (n - 1) as i32
    } else {
        0
    };
    let gaps = crate::layout::saturating_mul_i32(g.0, pairs);
    let total = used + gaps;
    let rem0 = crate::layout::saturating_sub_i32(content.width.0, total);
    let remaining = if rem0 < 0 {
        0
    } else {
        rem0
    };
    let (start, extra) = justify_offsets(justify, remaining, n);
    let offsets = main_axis_offsets(widths.as_slice(), start, g.0, extra, reverse);
    let mut out: Vec<(i32, i32)> = Vec::new();
    let mut k: usize = 0;
    while k < n
        invariant
            n == children@.len(),
            k <= n,
            row_placement_fits(content, gap.0 as int, justify@, align@, reverse, children@),
            cross == max_outer_height(children@),
            widths@ == outer_widths(children@),
            (start as int, extra as int) == row_justify(content, gap.0 as int, justify@, children@),
            g.0 == (if gap.0 < 0 { 0 } else { gap.0 }),
            offsets@.len() == n,
            forall|m: int|
                0 <= m < n ==> #[trigger] offsets@[visit_index(n as int, m, reverse)] == main_cursor(
                    widths@,
                    start as int,
                    g.0 as int,
                    extra as int,
                    m,
                    reverse,
                ),
            out@.len() == k,
            forall|j: int|
                0 <= j < k ==> (#[trigger] out@[j]).0 == content.x.0 + row_main_offset(
                    content,
                    gap.0 as int,
                    justify@,
                    reverse,
                    children@,
                    j,
                ) + children@[j].margin_left && out@[j].1 == content.y.0 + row_cross_offset(
                    align@,
                    children@,
                    j,
                ) + children@[j].margin_top,
        decreases n - k,
    {
        let c = children[k];
        let ghost vk = visit_index(n as int, k as int, reverse);
        assert(visit_index(n as int, vk, reverse) == k);
        assert(offsets@[k as int] == main_cursor(widths@, start as int, g.0 as int, extra as int, vk, reverse));
        assert(offsets@[k as int] == row_main_offset(content, gap.0 as int, justify@, reverse, children@, k as int));
        let free0 = crate::layout::saturating_sub_i32(cross, c.outer_height);
        let free = if free0 < 0 {
            0
        } else {
            free0
        };
        let off = align_offset(align, free);
        assert(off == row_cross_offset(align@, children@, k as int));
        assert(c == children@[k as int]);
        let x = content.x.0 + offsets[k] + c.margin_left;
        let y = content.y.0 + off + c.margin_top;
        out.push((x, y));
        k += 1;
    }
    (cross, out)
}

/// The content width that gives a box the border-box width `width`: the
/// width less horizontal padding and border, at least zero.
pub fn content_width_for(width: CssPx, padding: EdgeSizes, border: EdgeSizes) -> (r: CssPx)
    requires
        in_i32(padding.left.0 + padding.right.0),
        in_i32(padding.left.0 + padding.right.0 + border.left.0),
        in_i32(padding.left.0 + padding.right.0 + border.left.0 + border.right.0),
    ensures
        r.0 == ({
            let v = sat_i32(
                width.0 - (padding.left.0 + padding.right.0 + border.left.0 + border.right.0),
            );
            if v < 0 {
                0
            } else {
                v
            }
        }),
{
    let non_content = padding.left.0 + padding.right.0 + border.left.0 + border.right.0;
    CssPx(saturating_sub_i32(width.0, non_content)).max_zero()
}

} // verus!

verus! {

/// What placing reads of one item of a flex column once it is laid out: its
/// margin box width and height, its top margin, its containing block width
/// and the left edge of its border box.
#[derive(Clone, Copy, Debug, PartialEq, Eq, Structural)]
pub struct FlexColumnChild {
    pub outer_width: i32,
    pub outer_height: i32,
    pub margin_top: i32,
    pub containing_block_width: i32,
    pub border_x: i32,
}

pub open spec fn column_heights(children: Seq<FlexColumnChild>) -> Seq<i32> {
    Seq::new(children.len(), |i: int| children[i].outer_height)
}

pub open spec fn sum_heights(children: Seq<FlexColumnChild>) -> int
    decreases children.len(),
{
    if children.len() == 0 {
        0
    } else {
        sum_heights(children.drop_last()) + children.last().outer_height
    }
}

/// The main size of a column: its items' margin boxes and the gaps.
pub open spec fn column_total(gap: int, children: Seq<FlexColumnChild>) -> int {
    let g = if gap < 0 { 0 } else { gap };
    sum_heights(children) + spec_flex_gaps(g, children.len() as int)
}

/// The justification start and extra gap of a column: the free space is
/// what a definite containing height leaves beyond the items.
pub open spec fn column_justify(
    gap: int,
    justify: Seq<char>,
    containing_height: Option<CssPx>,
    children: Seq<FlexColumnChild>,
) -> (int, int) {
    let total = column_total(gap, children);
    let available = match containing_height {
        Some(h) => if h.0 >= total { h.0 as int } else { total },
        None => total,
    };
    spec_justify_offsets(justify, sat_i32(available - total), children.len() as int)
}

/// Main cursor of child `i` down the column.
pub open spec fn column_main_offset(
    gap: int,
    justify: Seq<char>,
    reverse: bool,
    containing_height: Option<CssPx>,
    children: Seq<FlexColumnChild>,
    i: int,
) -> int {
    let g = if gap < 0 { 0 } else { gap };
    let (start, extra) = column_justify(gap, justify, containing_height, children);
    main_cursor(
        column_heights(children),
        start,
        g,
        extra,
        visit_index(children.len() as int, i, reverse),
        reverse,
    )
}

/// How far child `i` moves across the column under `align-items`.
pub open spec fn column_cross_shift(content: LayoutRect, align: Seq<char>, c: FlexColumnChild) -> int {
    let free0 = sat_i32(content.width.0 - c.outer_width);
    let free = if free0 < 0 { 0 } else { free0 };
    let desired = sat_i32(c.containing_block_width - free) + spec_align_offset(align, free);
    sat_i32(desired - c.border_x)
}

/// The inputs on which placing a column runs without overflow.
pub open spec fn column_placement_fits(
    content: LayoutRect,
    gap: int,
    justify: Seq<char>,
    align: Seq<char>,
    reverse: bool,
    containing_height: Option<CssPx>,
    children: Seq<FlexColumnChild>,
) -> bool {
    &&& children.len() < i32::MAX
    &&& forall|k: int| 0 <= k <= children.len() ==> in_i32(#[trigger] sum_heights(children.take(k)))
    &&& in_i32(column_total(gap, children))
    &&& forall|i: int|
        0 <= i < children.len() ==> {
            let c = #[trigger] children[i];
            let free0 = sat_i32(content.width.0 - c.outer_width);
            let free = if free0 < 0 { 0 } else { free0 };
            &&& in_i32(content.y.0 + column_main_offset(gap, justify, reverse, containing_height, children, i))
            &&& in_i32(content.y.0 + column_main_offset(gap, justify, reverse, containing_height, children, i)
                + c.margin_top)
            &&& in_i32(sat_i32(c.containing_block_width - free) + spec_align_offset(align, free))
        }
}

/// Places the laid-out items of a flex column: the main size is the items'
/// margin boxes and gaps; each item's border box goes to the top edge that
/// `justify-content` (and a reversed direction) gives it in the free space
/// of a definite containing height, and moves across by what `align-items`
/// gives it. Returns the main size and, for each item, its border-box top
/// and its horizontal move.
pub fn flex_column_placement(
    content: LayoutRect,
    gap: CssPx,
    justify: &str,
    align: &str,
    reverse: bool,
    containing_height: Option<CssPx>,
    children: &[FlexColumnChild],
) -> (r: (i32, Vec<(i32, i32)>))
    requires
        column_placement_fits(content, gap.0 as int, justify@, align@, reverse, containing_height, children@),
    ensures
        r.0 == column_total(gap.0 as int, children@),
        r.1@.len() == children@.len(),
        forall|i: int|
            0 <= i < children@.len() ==> (#[trigger] r.1@[i]).0 == content.y.0 + column_main_offset(
                gap.0 as int,
                justify@,
                reverse,
                containing_height,
                children@,
                i,
            ) + children@[i].margin_top && r.1@[i].1 == column_cross_shift(content, align@, children@[i]),
{
    let g = gap.max_zero();
    let n = children.len();
    let mut sum: i32 = 0;
    let mut heights: Vec<i32> = Vec::new();
    let mut i: usize = 0;
    assert(children@.take(0) =~= Seq::<FlexColumnChild>::empty());
    while i < n
        invariant
            n == children@.len(),
            i <= n,
            column_placement_fits(content, gap.0 as int, justify@, align@, reverse, containing_height, children@),
            sum == sum_heights(children@.take(i as int)),
            heights@ == column_heights(children@).take(i as int),
        decreases n - i,
    {
        assert(children@.take(i + 1).drop_last() =~= children@.take(i as int));
        assert(children@.take(i + 1).last() == children@[i as int]);
        assert(in_i32(sum_heights(children@.take(i + 1))));
        sum = sum + children[i].outer_height;
        heights.push(children[i].outer_height);
        assert(heights@ =~= column_heights(children@).take(i + 1));
        i += 1;
    }
    assert(children@.take(n as int) =~= children@);
    assert(heights@ =~= column_heights(children@));
    let pairs: i32 = if n >= 1 {
        (n - 1) as i32
    } else {
        0
    };
    let total = sum + crate::layout::saturating_mul_i32(g.0, pairs);
    let available = match containing_height {
        Some(h) => if h.0 >= total {
            h.0
        } else {
            total
        },
        None => total,
    };
    let remaining = saturating_sub_i32(available, total);
    let (start, extra) = justify_offsets(justify, remaining, n);
    let offsets = main_axis_offsets(heights.as_slice(), start, g.0, extra, reverse);
    let mut out: Vec<(i32, i32)> = Vec::new();
    let mut k: usize = 0;
    while k < n
        invariant
            n == children@.len(),
            k <= n,
            column_placement_fits(content, gap.0 as int, justify@, align@, reverse, containing_height, children@),
            heights@ == column_heights(children@),
            (start as int, extra as int) == column_justify(gap.0 as int, justify@, containing_height, children@),
            g.0 == (if gap.0 < 0 { 0 } else { gap.0 }),
            offsets@.len() == n,
            forall|m: int|
                0 <= m < n ==> #[trigger] offsets@[visit_index(n as int, m, reverse)] == main_cursor(
                    heights@,
                    start as int,
                    g.0 as int,
                    extra as int,
                    m,
                    reverse,
                ),
            out@.len() == k,
            forall|j: int|
                0 <= j < k ==> (#[trigger] out@[j]).0 == content.y.0 + column_main_offset(
                    gap.0 as int,
                    justify@,
                    reverse,
                    containing_height,
                    children@,
                    j,
                ) + children@[j].margin_top && out@[j].1 == column_cross_shift(content, align@, children@[j]),
        decreases n - k,
    {
        let c = children[k];
        let ghost vk = visit_index(n as int, k as int, reverse);
        assert(visit_index(n as int, vk, reverse) == k);
        assert(offsets@[k as int] == column_main_offset(gap.0 as int, justify@, reverse, containing_height, children@, k as int));
        assert(c == children@[k as int]);
        let y = content.y.0 + offsets[k] + c.margin_top;
        let free0 = saturating_sub_i32(content.width.0, c.outer_width);
        let free = if free0 < 0 {
            0
        } else {
            free0
        };
        let desired = saturating_sub_i32(c.containing_block_width, free) + align_offset(align, free);
        let shift = saturating_sub_i32(desired, c.border_x);
        out.push((y, shift));
        k += 1;
    }
    (total, out)
}

} // verus!
