//! The resolved layout tree: boxes with geometry, lookups, and the scroll
//! extents derived from it.
use vstd::prelude::*;
use crate::fragment_tree::BoxId;
use crate::layout::{in_i32, sat_i32, saturating_add_i32, saturating_mul_i32, saturating_sub_i32, spec_flex_gaps, CssPx, EdgeSizes, LayoutRect, LayoutViewport, OverflowMetadata};
use crate::fragment_tree::{FragmentTree, GlyphFragment, LineFragment, ParagraphFragment};
use crate::interaction::{root_scroll_node, spec_union, union, union_fits, ScrollNode, ScrollTree};

verus! {

/// What generated a box.
#[derive(Clone, Copy, Debug, PartialEq, Eq, Structural)]
pub enum BoxKind {
    PrincipalBlock,
    PrincipalInline,
    PrincipalFlex,
    AnonymousBlock,
    TextRun,
    ReplacedImage,
}

/// One box with resolved geometry; `source` is the DOM node that generated it.
#[derive(Debug)]
pub struct LayoutBox {
    pub box_id: BoxId,
    pub kind: BoxKind,
    pub source: Option<u64>,
    pub containing_block_width: CssPx,
    pub content: LayoutRect,
    pub padding: EdgeSizes,
    pub border: EdgeSizes,
    pub margin: EdgeSizes,
    pub overflow: OverflowMetadata,
    pub children: Vec<LayoutBox>,
}

/// Width of the border box: content plus horizontal padding and border.
pub open spec fn spec_border_box_width(b: LayoutBox) -> int {
    b.content.width.0 + b.padding.left.0 + b.padding.right.0 + b.border.left.0 + b.border.right.0
}

/// Height of the border box: content plus vertical padding and border.
pub open spec fn spec_border_box_height(b: LayoutBox) -> int {
    b.content.height.0 + b.padding.top.0 + b.padding.bottom.0 + b.border.top.0 + b.border.bottom.0
}

/// Every partial sum of the border box's edges fits in `i32`.
pub open spec fn border_box_fits(b: LayoutBox) -> bool {
    &&& in_i32(b.content.width.0 + b.padding.left.0)
    &&& in_i32(b.content.width.0 + b.padding.left.0 + b.padding.right.0)
    &&& in_i32(b.content.width.0 + b.padding.left.0 + b.padding.right.0 + b.border.left.0)
    &&& in_i32(spec_border_box_width(b))
    &&& in_i32(b.content.height.0 + b.padding.top.0)
    &&& in_i32(b.content.height.0 + b.padding.top.0 + b.padding.bottom.0)
    &&& in_i32(b.content.height.0 + b.padding.top.0 + b.padding.bottom.0 + b.border.top.0)
    &&& in_i32(spec_border_box_height(b))
    &&& in_i32(b.content.x.0 - b.padding.left.0)
    &&& in_i32(b.content.x.0 - b.padding.left.0 - b.border.left.0)
    &&& in_i32(b.content.y.0 - b.padding.top.0)
    &&& in_i32(b.content.y.0 - b.padding.top.0 - b.border.top.0)
}

/// The border box: the content box grown by padding and border.
pub open spec fn spec_border_box_rect(b: LayoutBox) -> LayoutRect {
    LayoutRect {
        x: CssPx((b.content.x.0 - b.padding.left.0 - b.border.left.0) as i32),
        y: CssPx((b.content.y.0 - b.padding.top.0 - b.border.top.0) as i32),
        width: CssPx(spec_border_box_width(b) as i32),
        height: CssPx(spec_border_box_height(b) as i32),
    }
}

impl LayoutBox {
    pub fn border_box_width(&self) -> (r: CssPx)
        requires
            border_box_fits(*self),
        ensures
            r.0 == spec_border_box_width(*self),
    {
        CssPx(
            self.content.width.0 + self.padding.left.0 + self.padding.right.0 + self.border.left.0
                + self.border.right.0,
        )
    }

    pub fn border_box_height(&self) -> (r: CssPx)
        requires
            border_box_fits(*self),
        ensures
            r.0 == spec_border_box_height(*self),
    {
        CssPx(
            self.content.height.0 + self.padding.top.0 + self.padding.bottom.0 + self.border.top.0
                + self.border.bottom.0,
        )
    }

    pub fn border_box_rect(&self) -> (r: LayoutRect)
        requires
            border_box_fits(*self),
        ensures
            r == spec_border_box_rect(*self),
    {
        LayoutRect {
            x: CssPx(self.content.x.0 - self.padding.left.0 - self.border.left.0),
            y: CssPx(self.content.y.0 - self.padding.top.0 - self.border.top.0),
            width: self.border_box_width(),
            height: self.border_box_height(),
        }
    }
}

/// Width of the margin box: the border box plus horizontal margins.
pub open spec fn spec_outer_width(b: LayoutBox) -> int {
    b.margin.left.0 + spec_border_box_width(b) + b.margin.right.0
}

/// Height of the margin box: the border box plus vertical margins.
pub open spec fn spec_outer_height(b: LayoutBox) -> int {
    b.margin.top.0 + spec_border_box_height(b) + b.margin.bottom.0
}

/// The margin box width of a box.
pub fn outer_width(node: &LayoutBox) -> (r: i32)
    requires
        border_box_fits(*node),
        in_i32(node.margin.left.0 + spec_border_box_width(*node)),
        in_i32(spec_outer_width(*node)),
    ensures
        r == spec_outer_width(*node),
{
    node.margin.left.0 + node.border_box_width().0 + node.margin.right.0
}

/// The margin box height of a box.
pub fn outer_height(node: &LayoutBox) -> (r: i32)
    requires
        border_box_fits(*node),
        in_i32(node.margin.top.0 + spec_border_box_height(*node)),
        in_i32(spec_outer_height(*node)),
    ensures
        r == spec_outer_height(*node),
{
    node.margin.top.0 + node.border_box_height().0 + node.margin.bottom.0
}

/// The boxes of a tree in preorder: the box, then each child's subtree in turn.
pub open spec fn preorder(b: LayoutBox) -> Seq<LayoutBox>
    decreases b, 1int,
{
    seq![b] + forest_preorder(b.children@)
}

/// The preorder of each tree of `forest`, concatenated.
pub open spec fn forest_preorder(forest: Seq<LayoutBox>) -> Seq<LayoutBox>
    decreases forest, 0int,
{
    if forest.len() == 0 {
        Seq::empty()
    } else {
        preorder(forest[0]) + forest_preorder(forest.drop_first())
    }
}

/// Preorder of a forest with one more tree at its end.
pub proof fn lemma_forest_preorder_push(forest: Seq<LayoutBox>, t: LayoutBox)
    ensures
        forest_preorder(forest.push(t)) == forest_preorder(forest) + preorder(t),
    decreases forest.len(),
{
    if forest.len() == 0 {
        assert(forest.push(t).drop_first() =~= Seq::<LayoutBox>::empty());
        assert(forest_preorder(Seq::<LayoutBox>::empty()) =~= Seq::<LayoutBox>::empty());
        assert(forest_preorder(forest.push(t)) =~= preorder(t));
        assert(forest_preorder(forest) + preorder(t) =~= preorder(t));
    } else {
        lemma_forest_preorder_push(forest.drop_first(), t);
        assert(forest.push(t).drop_first() =~= forest.drop_first().push(t));
        assert(forest.push(t)[0] == forest[0]);
        assert(forest_preorder(forest.push(t)) =~= preorder(forest[0]) + (forest_preorder(
            forest.drop_first(),
        ) + preorder(t)));
    }
}

/// The first box of `boxes` whose id is `id`.
pub open spec fn first_with_id(boxes: Seq<LayoutBox>, id: BoxId) -> Option<LayoutBox>
    decreases boxes.len(),
{
    if boxes.len() == 0 {
        None
    } else if boxes[0].box_id == id {
        Some(boxes[0])
    } else {
        first_with_id(boxes.drop_first(), id)
    }
}

/// The first box of `boxes` generated by the node `source`.
pub open spec fn first_with_source(boxes: Seq<LayoutBox>, source: u64) -> Option<LayoutBox>
    decreases boxes.len(),
{
    if boxes.len() == 0 {
        None
    } else if boxes[0].source == Some(source) {
        Some(boxes[0])
    } else {
        first_with_source(boxes.drop_first(), source)
    }
}

proof fn lemma_first_with_id_concat(a: Seq<LayoutBox>, b: Seq<LayoutBox>, id: BoxId)
    ensures
        first_with_id(a + b, id) == (match first_with_id(a, id) {
            Some(x) => Some(x),
            None => first_with_id(b, id),
        }),
    decreases a.len(),
{
    if a.len() == 0 {
        assert(a + b =~= b);
    } else {
        lemma_first_with_id_concat(a.drop_first(), b, id);
        assert((a + b).drop_first() =~= a.drop_first() + b);
    }
}

proof fn lemma_first_with_source_concat(a: Seq<LayoutBox>, b: Seq<LayoutBox>, source: u64)
    ensures
        first_with_source(a + b, source) == (match first_with_source(a, source) {
            Some(x) => Some(x),
            None => first_with_source(b, source),
        }),
    decreases a.len(),
{
    if a.len() == 0 {
        assert(a + b =~= b);
    } else {
        lemma_first_with_source_concat(a.drop_first(), b, source);
        assert((a + b).drop_first() =~= a.drop_first() + b);
    }
}

/// The first box of `node`'s subtree, in preorder, whose id is `id`.
pub fn find_box(node: &LayoutBox, id: BoxId) -> (r: Option<&LayoutBox>)
    ensures
        match r {
            Some(b) => first_with_id(preorder(*node), id) == Some(*b),
            None => first_with_id(preorder(*node), id) is None,
        },
    decreases node,
{
    if node.box_id == id {
        return Some(node);
    }
    let ghost rest = forest_preorder(node.children@);
    proof {
        lemma_first_with_id_concat(seq![*node], rest, id);
        assert(seq![*node].drop_first() =~= Seq::<LayoutBox>::empty());
        assert(first_with_id(Seq::<LayoutBox>::empty(), id) is None);
        assert(seq![*node][0] == *node);
        assert(node.box_id != id);
        assert(first_with_id(seq![*node], id) is None);
    }
    let mut i: usize = 0;
    assert(node.children@.take(0) =~= Seq::<LayoutBox>::empty());
    while i < node.children.len()
        invariant
            i <= node.children@.len(),
            node.box_id != id,
            first_with_id(preorder(*node), id) == first_with_id(forest_preorder(node.children@), id),
            first_with_id(forest_preorder(node.children@.take(i as int)), id) is None,
        decreases node.children@.len() - i,
    {
        let child = &node.children[i];
        proof {
            assert(decreases_to!(*node => node.children));
            assert(decreases_to!(node.children => node.children@));
            assert(decreases_to!(node.children@ => node.children@[i as int]));
        }
        let found = find_box(child, id);
        proof {
            assert(node.children@.take(i + 1) =~= node.children@.take(i as int).push(*child));
            lemma_forest_preorder_push(node.children@.take(i as int), *child);
            lemma_first_with_id_concat(
                forest_preorder(node.children@.take(i as int)),
                preorder(*child),
                id,
            );
            assert(node.children@ =~= node.children@.take(i + 1) + node.children@.skip(i + 1));
        }
        if found.is_some() {
            proof {
                lemma_forest_concat(node.children@.take(i + 1), node.children@.skip(i + 1));
                lemma_first_with_id_concat(
                    forest_preorder(node.children@.take(i + 1)),
                    forest_preorder(node.children@.skip(i + 1)),
                    id,
                );
            }
            return found;
        }
        i += 1;
    }
    assert(node.children@.take(i as int) =~= node.children@);
    None
}

/// Preorder of two forests placed one after the other.
pub proof fn lemma_forest_concat(a: Seq<LayoutBox>, b: Seq<LayoutBox>)
    ensures
        forest_preorder(a + b) == forest_preorder(a) + forest_preorder(b),
    decreases b.len(),
{
    if b.len() == 0 {
        assert(a + b =~= a);
        assert(forest_preorder(b) =~= Seq::<LayoutBox>::empty());
        assert(forest_preorder(a) + forest_preorder(b) =~= forest_preorder(a));
    } else {
        lemma_forest_concat(a, b.drop_last());
        assert(a + b =~= (a + b.drop_last()).push(b.last()));
        assert(b =~= b.drop_last().push(b.last()));
        lemma_forest_preorder_push(a + b.drop_last(), b.last());
        lemma_forest_preorder_push(b.drop_last(), b.last());
        assert(forest_preorder(a) + (forest_preorder(b.drop_last()) + preorder(b.last())) =~= (
        forest_preorder(a) + forest_preorder(b.drop_last())) + preorder(b.last()));
    }
}

/// The first box of `node`'s subtree, in preorder, generated by `source`.
pub fn find_source(node: &LayoutBox, source: u64) -> (r: Option<&LayoutBox>)
    ensures
        match r {
            Some(b) => first_with_source(preorder(*node), source) == Some(*b),
            None => first_with_source(preorder(*node), source) is None,
        },
    decreases node,
{
    if node.source == Some(source) {
        return Some(node);
    }
    let ghost rest = forest_preorder(node.children@);
    proof {
        lemma_first_with_source_concat(seq![*node], rest, source);
        assert(seq![*node].drop_first() =~= Seq::<LayoutBox>::empty());
        assert(first_with_source(Seq::<LayoutBox>::empty(), source) is None);
        assert(seq![*node][0] == *node);
        assert(first_with_source(seq![*node], source) is None);
    }
    let mut i: usize = 0;
    assert(node.children@.take(0) =~= Seq::<LayoutBox>::empty());
    while i < node.children.len()
        invariant
            i <= node.children@.len(),
            first_with_source(preorder(*node), source) == first_with_source(
                forest_preorder(node.children@),
                source,
            ),
            first_with_source(forest_preorder(node.children@.take(i as int)), source) is None,
        decreases node.children@.len() - i,
    {
        let child = &node.children[i];
        proof {
            assert(decreases_to!(*node => node.children));
            assert(decreases_to!(node.children => node.children@));
            assert(decreases_to!(node.children@ => node.children@[i as int]));
        }
        let found = find_source(child, source);
        proof {
            assert(node.children@.take(i + 1) =~= node.children@.take(i as int).push(*child));
            lemma_forest_preorder_push(node.children@.take(i as int), *child);
            lemma_first_with_source_concat(
                forest_preorder(node.children@.take(i as int)),
                preorder(*child),
                source,
            );
            assert(node.children@ =~= node.children@.take(i + 1) + node.children@.skip(i + 1));
        }
        if found.is_some() {
            proof {
                lemma_forest_concat(node.children@.take(i + 1), node.children@.skip(i + 1));
                lemma_first_with_source_concat(
                    forest_preorder(node.children@.take(i + 1)),
                    forest_preorder(node.children@.skip(i + 1)),
                    source,
                );
            }
            return found;
        }
        i += 1;
    }
    assert(node.children@.take(i as int) =~= node.children@);
    None
}

/// A fully resolved layout tree: the viewport and the root boxes.
#[derive(Debug)]
pub struct LayoutTree {
    viewport: LayoutViewport,
    roots: Vec<LayoutBox>,
}

impl LayoutTree {
    pub closed spec fn spec_viewport(&self) -> LayoutViewport {
        self.viewport
    }

    pub closed spec fn spec_roots(&self) -> Seq<LayoutBox> {
        self.roots@
    }

    /// Every box of the tree, in preorder.
    pub open spec fn boxes(&self) -> Seq<LayoutBox> {
        forest_preorder(self.spec_roots())
    }

    pub fn new(viewport: LayoutViewport, roots: Vec<LayoutBox>) -> (r: Self)
        ensures
            r.spec_viewport() == viewport,
            r.spec_roots() == roots@,
    {
        LayoutTree { viewport, roots }
    }

    pub fn viewport(&self) -> (r: LayoutViewport)
        ensures
            r == self.spec_viewport(),
    {
        self.viewport
    }

    pub fn roots(&self) -> (r: &[LayoutBox])
        ensures
            r@ == self.spec_roots(),
    {
        self.roots.as_slice()
    }

    /// The first box in preorder whose id is `id`.
    pub fn box_by_id(&self, id: BoxId) -> (r: Option<&LayoutBox>)
        ensures
            match r {
                Some(b) => first_with_id(self.boxes(), id) == Some(*b),
                None => first_with_id(self.boxes(), id) is None,
            },
    {
        let mut i: usize = 0;
        assert(self.roots@.take(0) =~= Seq::<LayoutBox>::empty());
        while i < self.roots.len()
            invariant
                i <= self.roots@.len(),
                first_with_id(forest_preorder(self.roots@.take(i as int)), id) is None,
            decreases self.roots@.len() - i,
        {
            let root = &self.roots[i];
            let found = find_box(root, id);
            proof {
                assert(self.roots@.take(i + 1) =~= self.roots@.take(i as int).push(*root));
                lemma_forest_preorder_push(self.roots@.take(i as int), *root);
                lemma_first_with_id_concat(
                    forest_preorder(self.roots@.take(i as int)),
                    preorder(*root),
                    id,
                );
                assert(self.roots@ =~= self.roots@.take(i + 1) + self.roots@.skip(i + 1));
            }
            if found.is_some() {
                proof {
                    lemma_forest_concat(self.roots@.take(i + 1), self.roots@.skip(i + 1));
                    lemma_first_with_id_concat(
                        forest_preorder(self.roots@.take(i + 1)),
                        forest_preorder(self.roots@.skip(i + 1)),
                        id,
                    );
                }
                return found;
            }
            i += 1;
        }
        assert(self.roots@.take(i as int) =~= self.roots@);
        None
    }

    /// The first box in preorder generated by the node `source`.
    pub fn find_source(&self, source: u64) -> (r: Option<&LayoutBox>)
        ensures
            match r {
                Some(b) => first_with_source(self.boxes(), source) == Some(*b),
                None => first_with_source(self.boxes(), source) is None,
            },
    {
        let mut i: usize = 0;
        assert(self.roots@.take(0) =~= Seq::<LayoutBox>::empty());
        while i < self.roots.len()
            invariant
                i <= self.roots@.len(),
                first_with_source(forest_preorder(self.roots@.take(i as int)), source) is None,
            decreases self.roots@.len() - i,
        {
            let root = &self.roots[i];
            let found = find_source(root, source);
            proof {
                assert(self.roots@.take(i + 1) =~= self.roots@.take(i as int).push(*root));
                lemma_forest_preorder_push(self.roots@.take(i as int), *root);
                lemma_first_with_source_concat(
                    forest_preorder(self.roots@.take(i as int)),
                    preorder(*root),
                    source,
                );
                assert(self.roots@ =~= self.roots@.take(i + 1) + self.roots@.skip(i + 1));
            }
            if found.is_some() {
                proof {
                    lemma_forest_concat(self.roots@.take(i + 1), self.roots@.skip(i + 1));
                    lemma_first_with_source_concat(
                        forest_preorder(self.roots@.take(i + 1)),
                        forest_preorder(self.roots@.skip(i + 1)),
                        source,
                    );
                }
                return found;
            }
            i += 1;
        }
        assert(self.roots@.take(i as int) =~= self.roots@);
        None
    }
}

/// Right edge of the border box.
pub open spec fn box_right(b: LayoutBox) -> int {
    spec_border_box_rect(b).x.0 + spec_border_box_rect(b).width.0
}

/// Bottom edge of the border box.
pub open spec fn box_bottom(b: LayoutBox) -> int {
    spec_border_box_rect(b).y.0 + spec_border_box_rect(b).height.0
}

/// The border box and its far edges fit in `i32`.
pub open spec fn scroll_fits(b: LayoutBox) -> bool {
    border_box_fits(b) && in_i32(box_right(b)) && in_i32(box_bottom(b))
}

/// Every box of `boxes` satisfies `scroll_fits`.
pub open spec fn all_scroll_fit(boxes: Seq<LayoutBox>) -> bool {
    forall|k: int| 0 <= k < boxes.len() ==> scroll_fits(#[trigger] boxes[k])
}

pub open spec fn max_i(a: int, b: int) -> int {
    if a >= b {
        a
    } else {
        b
    }
}

/// `start` widened to the right edge of every box of `boxes`.
pub open spec fn reach_x(boxes: Seq<LayoutBox>, start: int) -> int
    decreases boxes.len(),
{
    if boxes.len() == 0 {
        start
    } else {
        max_i(reach_x(boxes.drop_last(), start), box_right(boxes.last()))
    }
}

/// `start` widened to the bottom edge of every box of `boxes`.
pub open spec fn reach_y(boxes: Seq<LayoutBox>, start: int) -> int
    decreases boxes.len(),
{
    if boxes.len() == 0 {
        start
    } else {
        max_i(reach_y(boxes.drop_last(), start), box_bottom(boxes.last()))
    }
}

/// Whether a box's content overflows it on either axis.
pub open spec fn overflows(b: LayoutBox) -> bool {
    b.overflow.horizontal || b.overflow.vertical
}

/// The scroll node of an overflowing box: its content box clips its scroll extent.
pub open spec fn scroll_node_of(b: LayoutBox, id: u32) -> ScrollNode {
    ScrollNode {
        id,
        source: b.source,
        clip: b.content,
        content_width: b.overflow.scroll_width,
        content_height: b.overflow.scroll_height,
    }
}

/// `first + count`, saturating at `u32::MAX`.
pub open spec fn next_scroll_id(first: u32, count: int) -> u32 {
    if first + count > u32::MAX {
        u32::MAX
    } else {
        (first + count) as u32
    }
}

/// The scroll nodes of the overflowing boxes of `boxes`, in order, numbered
/// from `first` (saturating).
pub open spec fn nested_scroll_nodes(boxes: Seq<LayoutBox>, first: u32) -> Seq<ScrollNode>
    decreases boxes.len(),
{
    if boxes.len() == 0 {
        Seq::empty()
    } else {
        let prev = nested_scroll_nodes(boxes.drop_last(), first);
        if overflows(boxes.last()) {
            prev.push(scroll_node_of(boxes.last(), next_scroll_id(first, prev.len() as int)))
        } else {
            prev
        }
    }
}

proof fn lemma_reach_concat(a: Seq<LayoutBox>, b: Seq<LayoutBox>, start: int)
    ensures
        reach_x(a + b, start) == reach_x(b, reach_x(a, start)),
        reach_y(a + b, start) == reach_y(b, reach_y(a, start)),
    decreases b.len(),
{
    if b.len() == 0 {
        assert(a + b =~= a);
    } else {
        lemma_reach_concat(a, b.drop_last(), start);
        assert((a + b).drop_last() =~= a + b.drop_last());
        assert((a + b).last() == b.last());
    }
}

proof fn lemma_next_id_add(first: u32, m: int, n: int)
    requires
        m >= 0,
        n >= 0,
    ensures
        next_scroll_id(next_scroll_id(first, m), n) == next_scroll_id(first, m + n),
{
}

proof fn lemma_nested_concat(a: Seq<LayoutBox>, b: Seq<LayoutBox>, first: u32)
    ensures
        nested_scroll_nodes(a + b, first) == nested_scroll_nodes(a, first) + nested_scroll_nodes(
            b,
            next_scroll_id(first, nested_scroll_nodes(a, first).len() as int),
        ),
    decreases b.len(),
{
    let na = nested_scroll_nodes(a, first);
    let mid = next_scroll_id(first, na.len() as int);
    if b.len() == 0 {
        assert(a + b =~= a);
        assert(na + Seq::<ScrollNode>::empty() =~= na);
    } else {
        lemma_nested_concat(a, b.drop_last(), first);
        assert((a + b).drop_last() =~= a + b.drop_last());
        assert((a + b).last() == b.last());
        let nb = nested_scroll_nodes(b.drop_last(), mid);
        lemma_next_id_add(first, na.len() as int, nb.len() as int);
        if overflows(b.last()) {
            assert((na + nb).len() == na.len() + nb.len());
            assert((na + nb).push(scroll_node_of(b.last(), next_scroll_id(first, (na + nb).len() as int)))
                =~= na + nb.push(scroll_node_of(b.last(), next_scroll_id(mid, nb.len() as int))));
        }
    }
}

proof fn lemma_preorder_fits(node: LayoutBox, i: int)
    requires
        all_scroll_fit(preorder(node)),
        0 <= i < node.children@.len(),
    ensures
        all_scroll_fit(preorder(node.children@[i])),
        scroll_fits(node),
{
    let f = node.children@;
    assert(preorder(node)[0] == node);
    assert(f =~= f.take(i) + f.skip(i));
    lemma_forest_concat(f.take(i), f.skip(i));
    assert(f.skip(i)[0] == f[i]);
    let tail = forest_preorder(f.skip(i));
    assert(tail =~= preorder(f[i]) + forest_preorder(f.skip(i).drop_first()));
    let before = seq![node] + forest_preorder(f.take(i));
    assert(preorder(node) =~= before + (preorder(f[i]) + forest_preorder(f.skip(i).drop_first())));
    assert forall|k: int| 0 <= k < preorder(f[i]).len() implies scroll_fits(
        #[trigger] preorder(f[i])[k],
    ) by {
        assert(preorder(node)[before.len() + k] == preorder(f[i])[k]);
    }
}

/// Widens the content extent to every box of `node`'s subtree and appends
/// the scroll node of each overflowing box, in preorder.
fn collect_scroll_nodes(
    node: &LayoutBox,
    content_width: &mut i32,
    content_height: &mut i32,
    next_id: &mut u32,
    output: &mut Vec<ScrollNode>,
)
    requires
        all_scroll_fit(preorder(*node)),
    ensures
        *final(content_width) == reach_x(preorder(*node), *old(content_width) as int),
        *final(content_height) == reach_y(preorder(*node), *old(content_height) as int),
        final(output)@ == old(output)@ + nested_scroll_nodes(preorder(*node), *old(next_id)),
        *final(next_id) == next_scroll_id(
            *old(next_id),
            nested_scroll_nodes(preorder(*node), *old(next_id)).len() as int,
        ),
    decreases node,
{
    let ghost w0 = *content_width as int;
    let ghost h0 = *content_height as int;
    let ghost id0 = *next_id;
    let ghost out0 = output@;
    assert(preorder(*node)[0] == *node);
    let rect = node.border_box_rect();
    let right = rect.x.0 + rect.width.0;
    let bottom = rect.y.0 + rect.height.0;
    if right > *content_width {
        *content_width = right;
    }
    if bottom > *content_height {
        *content_height = bottom;
    }
    let overflowing = node.overflow.horizontal || node.overflow.vertical;
    if overflowing {
        output.push(
            ScrollNode {
                id: *next_id,
                source: node.source,
                clip: node.content,
                content_width: node.overflow.scroll_width,
                content_height: node.overflow.scroll_height,
            },
        );
        *next_id = if *next_id < u32::MAX {
            *next_id + 1
        } else {
            u32::MAX
        };
    }
    let ghost head = seq![*node];
    proof {
        assert(head.drop_last() =~= Seq::<LayoutBox>::empty());
        assert(head.last() == *node);
        assert(reach_x(head.drop_last(), w0) == w0);
        assert(reach_y(head.drop_last(), h0) == h0);
        assert(right == box_right(*node));
        assert(bottom == box_bottom(*node));
        assert(*content_width == reach_x(head, w0));
        assert(*content_height == reach_y(head, h0));
        assert(nested_scroll_nodes(Seq::<LayoutBox>::empty(), id0) =~= Seq::<ScrollNode>::empty());
        assert(output@ =~= out0 + nested_scroll_nodes(head, id0));
        assert(*next_id == next_scroll_id(id0, nested_scroll_nodes(head, id0).len() as int));
    }
    let mut i: usize = 0;
    assert(node.children@.take(0) =~= Seq::<LayoutBox>::empty());
    assert(head + forest_preorder(Seq::<LayoutBox>::empty()) =~= head);
    while i < node.children.len()
        invariant
            i <= node.children@.len(),
            all_scroll_fit(preorder(*node)),
            head == seq![*node],
            ({
                let done = head + forest_preorder(node.children@.take(i as int));
                &&& *content_width == reach_x(done, w0)
                &&& *content_height == reach_y(done, h0)
                &&& output@ == out0 + nested_scroll_nodes(done, id0)
                &&& *next_id == next_scroll_id(id0, nested_scroll_nodes(done, id0).len() as int)
            }),
        decreases node.children@.len() - i,
    {
        let child = &node.children[i];
        proof {
            assert(decreases_to!(*node => node.children));
            assert(decreases_to!(node.children => node.children@));
            assert(decreases_to!(node.children@ => node.children@[i as int]));
            lemma_preorder_fits(*node, i as int);
        }
        let ghost done = head + forest_preorder(node.children@.take(i as int));
        let ghost id_before = *next_id;
        let ghost out_before = output@;
        collect_scroll_nodes(child, content_width, content_height, next_id, output);
        proof {
            assert(node.children@.take(i + 1) =~= node.children@.take(i as int).push(*child));
            lemma_forest_preorder_push(node.children@.take(i as int), *child);
            let next_done = head + forest_preorder(node.children@.take(i + 1));
            assert(next_done =~= done + preorder(*child));
            lemma_reach_concat(done, preorder(*child), w0);
            lemma_reach_concat(done, preorder(*child), h0);
            lemma_nested_concat(done, preorder(*child), id0);
            let nd = nested_scroll_nodes(done, id0);
            let nc = nested_scroll_nodes(preorder(*child), id_before);
            assert(output@ =~= out0 + (nd + nc));
            lemma_next_id_add(id0, nd.len() as int, nc.len() as int);
        }
        i += 1;
    }
    assert(node.children@.take(i as int) =~= node.children@);
}

/// The scroll metadata of a laid-out document: the content extent covers the
/// viewport, every box's border box and every paragraph; the root node is
/// followed by one node per overflowing box, in preorder, numbered from 1.
pub open spec fn scroll_extent_fits(layout: LayoutTree, paragraphs: Seq<ParagraphFragment>) -> bool {
    &&& all_scroll_fit(layout.boxes())
    &&& forall|k: int|
        0 <= k < paragraphs.len() ==> in_i32(#[trigger] paragraphs[k].rect.x.0 + paragraphs[k].rect.width.0)
            && in_i32(paragraphs[k].rect.y.0 + paragraphs[k].rect.height.0)
}

/// `start` widened to the right edge of every paragraph.
pub open spec fn paragraphs_reach_x(paragraphs: Seq<ParagraphFragment>, start: int) -> int
    decreases paragraphs.len(),
{
    if paragraphs.len() == 0 {
        start
    } else {
        max_i(
            paragraphs_reach_x(paragraphs.drop_last(), start),
            paragraphs.last().rect.x.0 + paragraphs.last().rect.width.0,
        )
    }
}

/// `start` widened to the bottom edge of every paragraph.
pub open spec fn paragraphs_reach_y(paragraphs: Seq<ParagraphFragment>, start: int) -> int
    decreases paragraphs.len(),
{
    if paragraphs.len() == 0 {
        start
    } else {
        max_i(
            paragraphs_reach_y(paragraphs.drop_last(), start),
            paragraphs.last().rect.y.0 + paragraphs.last().rect.height.0,
        )
    }
}

/// Builds the scroll metadata of a laid-out document.
pub fn build_scroll_tree(
    layout: &LayoutTree,
    fragments: &FragmentTree,
    viewport_width: u32,
    viewport_height: u32,
) -> (r: ScrollTree)
    requires
        viewport_width <= i32::MAX,
        viewport_height <= i32::MAX,
        scroll_extent_fits(*layout, fragments.spec_paragraphs()),
    ensures
        r.wf(),
        r.spec_viewport() == (viewport_width, viewport_height),
        ({
            let w = paragraphs_reach_x(
                fragments.spec_paragraphs(),
                reach_x(layout.boxes(), viewport_width as int),
            );
            let h = paragraphs_reach_y(
                fragments.spec_paragraphs(),
                reach_y(layout.boxes(), viewport_height as int),
            );
            &&& r.spec_content().0 == max_i(w, 0)
            &&& r.spec_content().1 == max_i(h, 0)
            &&& r.spec_nodes() == seq![
                root_scroll_node(viewport_width, viewport_height, max_i(w, 0), max_i(h, 0)),
            ] + nested_scroll_nodes(layout.boxes(), 1)
        }),
{
    let mut content_width: i32 = viewport_width as i32;
    let mut content_height: i32 = viewport_height as i32;
    let mut nested: Vec<ScrollNode> = Vec::new();
    let mut next_id: u32 = 1;
    let roots = layout.roots();
    let ghost w0 = viewport_width as int;
    let ghost h0 = viewport_height as int;
    let mut i: usize = 0;
    assert(roots@.take(0) =~= Seq::<LayoutBox>::empty());
    assert(nested_scroll_nodes(Seq::<LayoutBox>::empty(), 1) =~= Seq::<ScrollNode>::empty());
    while i < roots.len()
        invariant
            i <= roots@.len(),
            roots@ == layout.spec_roots(),
            all_scroll_fit(layout.boxes()),
            w0 == viewport_width,
            h0 == viewport_height,
            ({
                let done = forest_preorder(roots@.take(i as int));
                &&& content_width == reach_x(done, w0)
                &&& content_height == reach_y(done, h0)
                &&& nested@ == nested_scroll_nodes(done, 1)
                &&& next_id == next_scroll_id(1, nested_scroll_nodes(done, 1).len() as int)
            }),
        decreases roots@.len() - i,
    {
        let root = &roots[i];
        let ghost done = forest_preorder(roots@.take(i as int));
        let ghost id_before = next_id;
        proof {
            assert(roots@ =~= roots@.take(i as int) + roots@.skip(i as int));
            lemma_forest_concat(roots@.take(i as int), roots@.skip(i as int));
            assert(roots@.skip(i as int)[0] == *root);
            assert(forest_preorder(roots@.skip(i as int)) =~= preorder(*root) + forest_preorder(
                roots@.skip(i as int).drop_first(),
            ));
            assert forall|k: int| 0 <= k < preorder(*root).len() implies scroll_fits(
                #[trigger] preorder(*root)[k],
            ) by {
                assert(layout.boxes()[done.len() + k] == preorder(*root)[k]);
            }
        }
        collect_scroll_nodes(root, &mut content_width, &mut content_height, &mut next_id, &mut nested);
        proof {
            assert(roots@.take(i + 1) =~= roots@.take(i as int).push(*root));
            lemma_forest_preorder_push(roots@.take(i as int), *root);
            lemma_reach_concat(done, preorder(*root), w0);
            lemma_reach_concat(done, preorder(*root), h0);
            lemma_nested_concat(done, preorder(*root), 1);
            let nd = nested_scroll_nodes(done, 1);
            let nc = nested_scroll_nodes(preorder(*root), id_before);
            lemma_next_id_add(1, nd.len() as int, nc.len() as int);
        }
        i += 1;
    }
    assert(roots@.take(i as int) =~= roots@);
    let ghost wb = content_width as int;
    let ghost hb = content_height as int;
    let paragraphs = fragments.paragraphs();
    let mut k: usize = 0;
    assert(paragraphs@.take(0) =~= Seq::<ParagraphFragment>::empty());
    while k < paragraphs.len()
        invariant
            k <= paragraphs@.len(),
            paragraphs@ == fragments.spec_paragraphs(),
            scroll_extent_fits(*layout, fragments.spec_paragraphs()),
            content_width == paragraphs_reach_x(paragraphs@.take(k as int), wb),
            content_height == paragraphs_reach_y(paragraphs@.take(k as int), hb),
        decreases paragraphs@.len() - k,
    {
        let rect = paragraphs[k].rect;
        assert(paragraphs@.take(k + 1).drop_last() =~= paragraphs@.take(k as int));
        assert(in_i32(paragraphs@[k as int].rect.x.0 + paragraphs@[k as int].rect.width.0));
        let right = rect.x.0 + rect.width.0;
        let bottom = rect.y.0 + rect.height.0;
        if right > content_width {
            content_width = right;
        }
        if bottom > content_height {
            content_height = bottom;
        }
        k += 1;
    }
    assert(paragraphs@.take(k as int) =~= paragraphs@);
    ScrollTree::new(viewport_width, viewport_height, content_width, content_height, nested)
}

/// `start` widened to how far each box's border box reaches past `origin`
/// horizontally.
pub open spec fn extent_x(boxes: Seq<LayoutBox>, origin: int, start: int) -> int
    decreases boxes.len(),
{
    if boxes.len() == 0 {
        start
    } else {
        max_i(extent_x(boxes.drop_last(), origin, start), box_right(boxes.last()) - origin)
    }
}

/// `start` widened to how far each box's border box reaches past `origin`
/// vertically.
pub open spec fn extent_y(boxes: Seq<LayoutBox>, origin: int, start: int) -> int
    decreases boxes.len(),
{
    if boxes.len() == 0 {
        start
    } else {
        max_i(extent_y(boxes.drop_last(), origin, start), box_bottom(boxes.last()) - origin)
    }
}

/// Every child's border box, and its reach past the parent's content origin,
/// fits in `i32`.
pub open spec fn overflow_fits(node: LayoutBox) -> bool {
    forall|k: int|
        0 <= k < node.children@.len() ==> {
            &&& scroll_fits(#[trigger] node.children@[k])
            &&& in_i32(box_right(node.children@[k]) - node.content.x.0)
            &&& in_i32(box_bottom(node.children@[k]) - node.content.y.0)
        }
}

/// The overflow facts of a box whose content is `auto_extent` tall: its
/// scroll extent covers its content box and every child's border box.
pub open spec fn spec_overflow(node: LayoutBox, auto_extent: int) -> OverflowMetadata {
    let w = max_i(extent_x(node.children@, node.content.x.0 as int, node.content.width.0 as int), 0);
    let h = max_i(
        extent_y(
            node.children@,
            node.content.y.0 as int,
            max_i(auto_extent, node.content.height.0 as int),
        ),
        0,
    );
    OverflowMetadata {
        horizontal: w > node.content.width.0,
        vertical: h > node.content.height.0,
        scroll_width: CssPx(w as i32),
        scroll_height: CssPx(h as i32),
    }
}

/// Records how far a box's children reach past its content box.
pub fn update_overflow(node: &mut LayoutBox, auto_extent: CssPx)
    requires
        overflow_fits(*old(node)),
    ensures
        final(node).overflow == spec_overflow(*old(node), auto_extent.0 as int),
        final(node).box_id == old(node).box_id,
        final(node).kind == old(node).kind,
        final(node).source == old(node).source,
        final(node).containing_block_width == old(node).containing_block_width,
        final(node).content == old(node).content,
        final(node).padding == old(node).padding,
        final(node).border == old(node).border,
        final(node).margin == old(node).margin,
        final(node).children == old(node).children,
{
    let mut scroll_width: i32 = node.content.width.0;
    let mut scroll_height: i32 = if auto_extent.0 >= node.content.height.0 {
        auto_extent.0
    } else {
        node.content.height.0
    };
    let ghost sw0 = scroll_width as int;
    let ghost sh0 = scroll_height as int;
    let mut i: usize = 0;
    assert(node.children@.take(0) =~= Seq::<LayoutBox>::empty());
    while i < node.children.len()
        invariant
            i <= node.children@.len(),
            overflow_fits(*node),
            scroll_width == extent_x(node.children@.take(i as int), node.content.x.0 as int, sw0),
            scroll_height == extent_y(node.children@.take(i as int), node.content.y.0 as int, sh0),
        decreases node.children@.len() - i,
    {
        let child = &node.children[i];
        assert(scroll_fits(node.children@[i as int]));
        let rect = child.border_box_rect();
        let reach_x = rect.x.0 + rect.width.0 - node.content.x.0;
        let reach_y = rect.y.0 + rect.height.0 - node.content.y.0;
        if reach_x > scroll_width {
            scroll_width = reach_x;
        }
        if reach_y > scroll_height {
            scroll_height = reach_y;
        }
        assert(node.children@.take(i + 1).drop_last() =~= node.children@.take(i as int));
        i += 1;
    }
    assert(node.children@.take(i as int) =~= node.children@);
    let w = if scroll_width < 0 {
        0
    } else {
        scroll_width
    };
    let h = if scroll_height < 0 {
        0
    } else {
        scroll_height
    };
    node.overflow.scroll_width = CssPx(w);
    node.overflow.scroll_height = CssPx(h);
    node.overflow.horizontal = w > node.content.width.0;
    node.overflow.vertical = h > node.content.height.0;
}

/// The union of two rectangles as a rectangle.
pub open spec fn union_rect(a: LayoutRect, b: LayoutRect) -> LayoutRect {
    let (x, y, w, h) = spec_union(a, b);
    LayoutRect { x: CssPx(x as i32), y: CssPx(y as i32), width: CssPx(w as i32), height: CssPx(h as i32) }
}

/// The bounds of each node after folding `entries` in order: the first
/// rectangle of a node, then its union with each later one.
pub open spec fn bounds_after(entries: Seq<(u64, LayoutRect)>) -> Map<u64, LayoutRect>
    decreases entries.len(),
{
    if entries.len() == 0 {
        Map::empty()
    } else {
        let m = bounds_after(entries.drop_last());
        let (k, r) = entries.last();
        if m.contains_key(k) {
            m.insert(k, union_rect(m[k], r))
        } else {
            m.insert(k, r)
        }
    }
}

/// Every union that folding `entries` computes fits in `i32`.
pub open spec fn bounds_fit(entries: Seq<(u64, LayoutRect)>) -> bool
    decreases entries.len(),
{
    entries.len() == 0 || {
        let m = bounds_after(entries.drop_last());
        let (k, r) = entries.last();
        &&& bounds_fit(entries.drop_last())
        &&& m.contains_key(k) ==> union_fits(m[k], r)
    }
}

/// The map held by a list of (node, rectangle) pairs with distinct nodes.
pub open spec fn pairs_map(v: Seq<(u64, LayoutRect)>) -> Map<u64, LayoutRect>
    decreases v.len(),
{
    if v.len() == 0 {
        Map::empty()
    } else {
        pairs_map(v.drop_last()).insert(v.last().0, v.last().1)
    }
}

pub open spec fn distinct_keys(v: Seq<(u64, LayoutRect)>) -> bool {
    forall|i: int, j: int| 0 <= i < j < v.len() ==> v[i].0 != v[j].0
}

pub open spec fn has_pair_key(v: Seq<(u64, LayoutRect)>, k: u64) -> bool {
    exists|i: int| 0 <= i < v.len() && #[trigger] v[i].0 == k
}

proof fn lemma_pairs_map_has(v: Seq<(u64, LayoutRect)>)
    requires
        distinct_keys(v),
    ensures
        forall|i: int|
            0 <= i < v.len() ==> pairs_map(v).contains_key(#[trigger] v[i].0) && pairs_map(v)[v[i].0]
                == v[i].1,
        forall|k: u64| #[trigger] pairs_map(v).contains_key(k) ==> has_pair_key(v, k),
    decreases v.len(),
{
    if v.len() > 0 {
        let p = v.drop_last();
        let last = v.last();
        lemma_pairs_map_has(p);
        assert forall|i: int| 0 <= i < v.len() implies pairs_map(v).contains_key(#[trigger] v[i].0)
            && pairs_map(v)[v[i].0] == v[i].1 by {
            if i < v.len() - 1 {
                assert(p[i] == v[i]);
                assert(v[i].0 != last.0);
                assert(pairs_map(p).contains_key(p[i].0));
            }
        }
        assert forall|k: u64| #[trigger] pairs_map(v).contains_key(k) implies has_pair_key(v, k) by {
            if k == last.0 {
                assert(v[v.len() - 1].0 == k);
            } else {
                assert(pairs_map(p).contains_key(k));
                assert(has_pair_key(p, k));
                let i = choose|i: int| 0 <= i < p.len() && #[trigger] p[i].0 == k;
                assert(p[i] == v[i]);
                assert(v[i].0 == k);
            }
        }
    }
}

/// Bounds of the DOM nodes that generated boxes and fragments.
#[derive(Debug)]
pub struct SourceBounds {
    entries: Vec<(u64, LayoutRect)>,
}

impl View for SourceBounds {
    type V = Map<u64, LayoutRect>;

    closed spec fn view(&self) -> Map<u64, LayoutRect> {
        pairs_map(self.entries@)
    }
}

impl SourceBounds {
    pub closed spec fn wf(&self) -> bool {
        distinct_keys(self.entries@)
    }

    pub fn new() -> (r: Self)
        ensures
            r.wf(),
            r@ == Map::<u64, LayoutRect>::empty(),
    {
        SourceBounds { entries: Vec::new() }
    }

    /// The bounds recorded for `source`.
    pub fn get(&self, source: u64) -> (r: Option<LayoutRect>)
        requires
            self.wf(),
        ensures
            r == (if self@.contains_key(source) {
                Some(self@[source])
            } else {
                None
            }),
    {
        proof {
            lemma_pairs_map_has(self.entries@);
        }
        let mut i: usize = 0;
        while i < self.entries.len()
            invariant
                i <= self.entries@.len(),
                self.wf(),
                forall|j: int| 0 <= j < i ==> self.entries@[j].0 != source,
            decreases self.entries@.len() - i,
        {
            if self.entries[i].0 == source {
                proof {
                    lemma_pairs_map_has(self.entries@);
                }
                assert(self.entries@[i as int].0 == source);
                return Some(self.entries[i].1);
            }
            i += 1;
        }
        proof {
            if self@.contains_key(source) {
                assert(has_pair_key(self.entries@, source));
                let j = choose|j: int| 0 <= j < self.entries@.len() && #[trigger] self.entries@[j].0 == source;
                assert(self.entries@[j].0 != source);
            }
        }
        None
    }

    /// Grows the bounds of `source` to cover `rect`, or records `rect` as
    /// its first bounds.
    pub fn add(&mut self, source: u64, rect: LayoutRect)
        requires
            old(self).wf(),
            old(self)@.contains_key(source) ==> union_fits(old(self)@[source], rect),
        ensures
            final(self).wf(),
            final(self)@ == (if old(self)@.contains_key(source) {
                old(self)@.insert(source, union_rect(old(self)@[source], rect))
            } else {
                old(self)@.insert(source, rect)
            }),
    {
        proof {
            lemma_pairs_map_has(self.entries@);
        }
        let ghost old_entries = self.entries@;
        let mut i: usize = 0;
        while i < self.entries.len()
            invariant
                i <= self.entries@.len(),
                self.entries@ == old_entries,
                old_entries == old(self).entries@,
                distinct_keys(old_entries),
                old(self)@.contains_key(source) ==> union_fits(old(self)@[source], rect),
                forall|j: int| 0 <= j < i ==> self.entries@[j].0 != source,
            decreases self.entries@.len() - i,
        {
            if self.entries[i].0 == source {
                let current = self.entries[i].1;
                proof {
                    lemma_pairs_map_has(old_entries);
                }
                assert(old_entries[i as int].0 == source);
                assert(pairs_map(old_entries)[source] == current);
                let u = union(current, rect);
                assert(u == union_rect(current, rect));
                self.entries.set(i, (source, u));
                proof {
                    let nv = self.entries@;
                    assert(distinct_keys(nv));
                    lemma_pairs_map_has(nv);
                    assert(pairs_map(nv) =~= old(self)@.insert(source, union_rect(current, rect))) by {
                        assert forall|k: u64| pairs_map(nv).contains_key(k) <==> old(self)@.insert(
                            source,
                            union_rect(current, rect),
                        ).contains_key(k) by {
                            if k != source {
                                if pairs_map(nv).contains_key(k) {
                                    let j = choose|j: int| 0 <= j < nv.len() && nv[j].0 == k;
                                    assert(old_entries[j].0 == k);
                                }
                                if old(self)@.contains_key(k) {
                                    let j = choose|j: int| 0 <= j < old_entries.len() && old_entries[j].0 == k;
                                    assert(nv[j].0 == k);
                                }
                            } else {
                                assert(nv[i as int].0 == k);
                            }
                        }
                        assert forall|k: u64| #[trigger] pairs_map(nv).contains_key(k) implies pairs_map(nv)[k]
                            == old(self)@.insert(source, union_rect(current, rect))[k] by {
                            let j = choose|j: int| 0 <= j < nv.len() && nv[j].0 == k;
                            assert(pairs_map(nv)[nv[j].0] == nv[j].1);
                            if j != i {
                                assert(pairs_map(old_entries)[old_entries[j].0] == old_entries[j].1);
                            }
                        }
                    }
                }
                return;
            }
            i += 1;
        }
        self.entries.push((source, rect));
        proof {
            let nv = self.entries@;
            assert(nv.drop_last() =~= old_entries);
            assert(forall|k: u64| old(self)@.contains_key(k) ==> k != source);
        }
    }
}

/// The (node, rectangle) pairs of the boxes of `boxes` that a node generated.
pub open spec fn box_source_entries(boxes: Seq<LayoutBox>) -> Seq<(u64, LayoutRect)>
    decreases boxes.len(),
{
    if boxes.len() == 0 {
        Seq::empty()
    } else {
        let prev = box_source_entries(boxes.drop_last());
        match boxes.last().source {
            Some(s) => prev.push((s, spec_border_box_rect(boxes.last()))),
            None => prev,
        }
    }
}

proof fn lemma_box_entries_concat(a: Seq<LayoutBox>, b: Seq<LayoutBox>)
    ensures
        box_source_entries(a + b) == box_source_entries(a) + box_source_entries(b),
    decreases b.len(),
{
    if b.len() == 0 {
        assert(a + b =~= a);
        assert(box_source_entries(a) + box_source_entries(b) =~= box_source_entries(a));
    } else {
        lemma_box_entries_concat(a, b.drop_last());
        assert((a + b).drop_last() =~= a + b.drop_last());
        assert((a + b).last() == b.last());
        match b.last().source {
            Some(s) => {
                assert(box_source_entries(a) + box_source_entries(b.drop_last()).push(
                    (s, spec_border_box_rect(b.last())),
                ) =~= (box_source_entries(a) + box_source_entries(b.drop_last())).push(
                    (s, spec_border_box_rect(b.last())),
                ));
            },
            None => {},
        }
    }
}

/// Every box of `boxes` satisfies `border_box_fits`.
pub open spec fn all_border_boxes_fit(boxes: Seq<LayoutBox>) -> bool {
    forall|k: int| 0 <= k < boxes.len() ==> border_box_fits(#[trigger] boxes[k])
}

proof fn lemma_child_boxes_fit(node: LayoutBox, i: int)
    requires
        all_border_boxes_fit(preorder(node)),
        0 <= i < node.children@.len(),
    ensures
        all_border_boxes_fit(preorder(node.children@[i])),
        border_box_fits(node),
{
    let f = node.children@;
    assert(preorder(node)[0] == node);
    assert(f =~= f.take(i) + f.skip(i));
    lemma_forest_concat(f.take(i), f.skip(i));
    assert(f.skip(i)[0] == f[i]);
    assert(forest_preorder(f.skip(i)) =~= preorder(f[i]) + forest_preorder(f.skip(i).drop_first()));
    let before = seq![node] + forest_preorder(f.take(i));
    assert(preorder(node) =~= before + (preorder(f[i]) + forest_preorder(f.skip(i).drop_first())));
    assert forall|k: int| 0 <= k < preorder(f[i]).len() implies border_box_fits(
        #[trigger] preorder(f[i])[k],
    ) by {
        assert(preorder(node)[before.len() + k] == preorder(f[i])[k]);
    }
}

/// Appends the (node, border box) pair of every box of `node`'s subtree that
/// a node generated, in preorder.
fn gather_box_bounds(node: &LayoutBox, out: &mut Vec<(u64, LayoutRect)>)
    requires
        all_border_boxes_fit(preorder(*node)),
    ensures
        final(out)@ == old(out)@ + box_source_entries(preorder(*node)),
    decreases node,
{
    let ghost start = out@;
    assert(preorder(*node)[0] == *node);
    let ghost head = seq![*node];
    if let Some(source) = node.source {
        let rect = node.border_box_rect();
        out.push((source, rect));
    }
    proof {
        assert(head.drop_last() =~= Seq::<LayoutBox>::empty());
        assert(box_source_entries(Seq::<LayoutBox>::empty()) =~= Seq::<(u64, LayoutRect)>::empty());
        assert(head.last() == *node);
        assert(out@ =~= start + box_source_entries(head));
    }
    let mut i: usize = 0;
    assert(node.children@.take(0) =~= Seq::<LayoutBox>::empty());
    assert(head + forest_preorder(Seq::<LayoutBox>::empty()) =~= head);
    while i < node.children.len()
        invariant
            i <= node.children@.len(),
            all_border_boxes_fit(preorder(*node)),
            head == seq![*node],
            out@ == start + box_source_entries(head + forest_preorder(node.children@.take(i as int))),
        decreases node.children@.len() - i,
    {
        let child = &node.children[i];
        proof {
            assert(decreases_to!(*node => node.children));
            assert(decreases_to!(node.children => node.children@));
            assert(decreases_to!(node.children@ => node.children@[i as int]));
            lemma_child_boxes_fit(*node, i as int);
        }
        let ghost done = head + forest_preorder(node.children@.take(i as int));
        gather_box_bounds(child, out);
        proof {
            assert(node.children@.take(i + 1) =~= node.children@.take(i as int).push(*child));
            lemma_forest_preorder_push(node.children@.take(i as int), *child);
            assert(head + forest_preorder(node.children@.take(i + 1)) =~= done + preorder(*child));
            lemma_box_entries_concat(done, preorder(*child));
            assert(out@ =~= start + (box_source_entries(done) + box_source_entries(preorder(*child))));
        }
        i += 1;
    }
    assert(node.children@.take(i as int) =~= node.children@);
}

/// The box a glyph marks for its node: the advance (at least one pixel)
/// wide, from 12 pixels above the baseline, 16 pixels tall.
pub open spec fn glyph_bounds(g: GlyphFragment) -> LayoutRect {
    LayoutRect {
        x: g.x,
        y: CssPx((g.baseline.0 - 12) as i32),
        width: CssPx(
            if g.advance.0 >= 1 {
                g.advance.0
            } else {
                1
            },
        ),
        height: CssPx(16),
    }
}

/// The (node, rectangle) pairs of the glyphs of `glyphs` that a node generated.
pub open spec fn glyph_entries(glyphs: Seq<GlyphFragment>) -> Seq<(u64, LayoutRect)>
    decreases glyphs.len(),
{
    if glyphs.len() == 0 {
        Seq::empty()
    } else {
        let prev = glyph_entries(glyphs.drop_last());
        match glyphs.last().source {
            Some(s) => prev.push((s, glyph_bounds(glyphs.last()))),
            None => prev,
        }
    }
}

/// The glyph pairs of each line of `lines`, in order.
pub open spec fn line_entries(lines: Seq<LineFragment>) -> Seq<(u64, LayoutRect)>
    decreases lines.len(),
{
    if lines.len() == 0 {
        Seq::empty()
    } else {
        line_entries(lines.drop_last()) + glyph_entries(lines.last().glyphs@)
    }
}

/// For each paragraph, its own pair (if a node generated it) and then its glyphs' pairs.
pub open spec fn paragraph_entries(paragraphs: Seq<ParagraphFragment>) -> Seq<(u64, LayoutRect)>
    decreases paragraphs.len(),
{
    if paragraphs.len() == 0 {
        Seq::empty()
    } else {
        let p = paragraphs.last();
        let own = match p.source {
            Some(s) => seq![(s, p.rect)],
            None => Seq::empty(),
        };
        paragraph_entries(paragraphs.drop_last()) + own + line_entries(p.lines@)
    }
}

/// Every glyph's baseline lies at least 12 pixels above `i32::MIN`.
pub open spec fn glyphs_fit(paragraphs: Seq<ParagraphFragment>) -> bool {
    forall|p: int, l: int, g: int|
        0 <= p < paragraphs.len() && 0 <= l < paragraphs[p].lines@.len() && 0 <= g
            < paragraphs[p].lines@[l].glyphs@.len() ==> in_i32(
            #[trigger] paragraphs[p].lines@[l].glyphs@[g].baseline.0 - 12,
        )
}

/// The pairs that the bounds of a laid-out document are folded from: the
/// boxes in preorder, then the paragraphs with their glyphs.
pub open spec fn source_entries(layout: LayoutTree, paragraphs: Seq<ParagraphFragment>) -> Seq<
    (u64, LayoutRect),
> {
    box_source_entries(layout.boxes()) + paragraph_entries(paragraphs)
}

fn push_glyph_entries(glyphs: &Vec<GlyphFragment>, out: &mut Vec<(u64, LayoutRect)>)
    requires
        forall|g: int| 0 <= g < glyphs@.len() ==> in_i32(#[trigger] glyphs@[g].baseline.0 - 12),
    ensures
        final(out)@ == old(out)@ + glyph_entries(glyphs@),
{
    let ghost start = out@;
    let mut i: usize = 0;
    assert(glyphs@.take(0) =~= Seq::<GlyphFragment>::empty());
    assert(start + Seq::<(u64, LayoutRect)>::empty() =~= start);
    while i < glyphs.len()
        invariant
            i <= glyphs@.len(),
            forall|g: int| 0 <= g < glyphs@.len() ==> in_i32(#[trigger] glyphs@[g].baseline.0 - 12),
            out@ == start + glyph_entries(glyphs@.take(i as int)),
        decreases glyphs@.len() - i,
    {
        let g = &glyphs[i];
        assert(glyphs@.take(i + 1).drop_last() =~= glyphs@.take(i as int));
        assert(glyphs@.take(i + 1).last() == glyphs@[i as int]);
        assert(in_i32(glyphs@[i as int].baseline.0 - 12));
        if let Some(source) = g.source {
            let rect = LayoutRect {
                x: g.x,
                y: CssPx(g.baseline.0 - 12),
                width: CssPx(
                    if g.advance.0 >= 1 {
                        g.advance.0
                    } else {
                        1
                    },
                ),
                height: CssPx(16),
            };
            out.push((source, rect));
            assert(out@ =~= start + glyph_entries(glyphs@.take(i + 1)));
        }
        i += 1;
    }
    assert(glyphs@.take(i as int) =~= glyphs@);
}

fn push_paragraph_entries(paragraphs: &[ParagraphFragment], out: &mut Vec<(u64, LayoutRect)>)
    requires
        glyphs_fit(paragraphs@),
    ensures
        final(out)@ == old(out)@ + paragraph_entries(paragraphs@),
{
    let ghost start = out@;
    let mut i: usize = 0;
    assert(paragraphs@.take(0) =~= Seq::<ParagraphFragment>::empty());
    assert(start + Seq::<(u64, LayoutRect)>::empty() =~= start);
    while i < paragraphs.len()
        invariant
            i <= paragraphs@.len(),
            glyphs_fit(paragraphs@),
            out@ == start + paragraph_entries(paragraphs@.take(i as int)),
        decreases paragraphs@.len() - i,
    {
        let paragraph = &paragraphs[i];
        assert(paragraphs@.take(i + 1).drop_last() =~= paragraphs@.take(i as int));
        assert(paragraphs@.take(i + 1).last() == paragraphs@[i as int]);
        let ghost before = out@;
        if let Some(source) = paragraph.source {
            out.push((source, paragraph.rect));
        }
        let ghost own = match paragraph.source {
            Some(s) => seq![(s, paragraph.rect)],
            None => Seq::<(u64, LayoutRect)>::empty(),
        };
        assert(out@ =~= before + own);
        let ghost after_own = out@;
        let mut l: usize = 0;
        assert(paragraph.lines@.take(0) =~= Seq::<LineFragment>::empty());
        assert(after_own + Seq::<(u64, LayoutRect)>::empty() =~= after_own);
        while l < paragraph.lines.len()
            invariant
                l <= paragraph.lines@.len(),
                i < paragraphs@.len(),
                *paragraph == paragraphs@[i as int],
                glyphs_fit(paragraphs@),
                out@ == after_own + line_entries(paragraph.lines@.take(l as int)),
            decreases paragraph.lines@.len() - l,
        {
            let line = &paragraph.lines[l];
            assert(paragraph.lines@.take(l + 1).drop_last() =~= paragraph.lines@.take(l as int));
            assert(paragraph.lines@.take(l + 1).last() == paragraph.lines@[l as int]);
            assert forall|g: int| 0 <= g < line.glyphs@.len() implies in_i32(
                #[trigger] line.glyphs@[g].baseline.0 - 12,
            ) by {
                assert(in_i32(paragraphs@[i as int].lines@[l as int].glyphs@[g].baseline.0 - 12));
            }
            let ghost mid = out@;
            push_glyph_entries(&line.glyphs, out);
            assert(out@ =~= after_own + line_entries(paragraph.lines@.take(l + 1)));
            l += 1;
        }
        assert(paragraph.lines@.take(l as int) =~= paragraph.lines@);
        assert(out@ =~= start + paragraph_entries(paragraphs@.take(i + 1)));
        i += 1;
    }
    assert(paragraphs@.take(i as int) =~= paragraphs@);
}

/// The bounds of every DOM node of a laid-out document: the union of the
/// border boxes it generated, the paragraphs it generated and its glyphs'
/// marks, folded in that order.
pub fn collect_source_bounds(layout: &LayoutTree, fragments: &FragmentTree) -> (r: SourceBounds)
    requires
        all_border_boxes_fit(layout.boxes()),
        glyphs_fit(fragments.spec_paragraphs()),
        bounds_fit(source_entries(*layout, fragments.spec_paragraphs())),
    ensures
        r.wf(),
        r@ == bounds_after(source_entries(*layout, fragments.spec_paragraphs())),
{
    let mut entries: Vec<(u64, LayoutRect)> = Vec::new();
    let roots = layout.roots();
    let mut i: usize = 0;
    assert(roots@.take(0) =~= Seq::<LayoutBox>::empty());
    while i < roots.len()
        invariant
            i <= roots@.len(),
            roots@ == layout.spec_roots(),
            all_border_boxes_fit(layout.boxes()),
            entries@ == box_source_entries(forest_preorder(roots@.take(i as int))),
        decreases roots@.len() - i,
    {
        let root = &roots[i];
        let ghost done = forest_preorder(roots@.take(i as int));
        proof {
            assert(roots@ =~= roots@.take(i as int) + roots@.skip(i as int));
            lemma_forest_concat(roots@.take(i as int), roots@.skip(i as int));
            assert(roots@.skip(i as int)[0] == *root);
            assert(forest_preorder(roots@.skip(i as int)) =~= preorder(*root) + forest_preorder(
                roots@.skip(i as int).drop_first(),
            ));
            assert forall|k: int| 0 <= k < preorder(*root).len() implies border_box_fits(
                #[trigger] preorder(*root)[k],
            ) by {
                assert(layout.boxes()[done.len() + k] == preorder(*root)[k]);
            }
        }
        gather_box_bounds(root, &mut entries);
        proof {
            assert(roots@.take(i + 1) =~= roots@.take(i as int).push(*root));
            lemma_forest_preorder_push(roots@.take(i as int), *root);
            lemma_box_entries_concat(done, preorder(*root));
        }
        i += 1;
    }
    assert(roots@.take(i as int) =~= roots@);
    push_paragraph_entries(fragments.paragraphs(), &mut entries);
    let ghost all = entries@;
    assert(all == source_entries(*layout, fragments.spec_paragraphs()));
    let mut bounds = SourceBounds::new();
    let mut k: usize = 0;
    assert(all.take(0) =~= Seq::<(u64, LayoutRect)>::empty());
    while k < entries.len()
        invariant
            k <= all.len(),
            entries@ == all,
            bounds_fit(all),
            bounds.wf(),
            bounds@ == bounds_after(all.take(k as int)),
        decreases all.len() - k,
    {
        let (source, rect) = entries[k];
        proof {
            assert(all.take(k + 1).drop_last() =~= all.take(k as int));
            assert(all.take(k + 1).last() == all[k as int]);
            lemma_bounds_fit_prefix(all, k + 1);
        }
        bounds.add(source, rect);
        k += 1;
    }
    assert(all.take(k as int) =~= all);
    bounds
}

proof fn lemma_bounds_fit_prefix(entries: Seq<(u64, LayoutRect)>, n: int)
    requires
        bounds_fit(entries),
        0 <= n <= entries.len(),
    ensures
        bounds_fit(entries.take(n)),
    decreases entries.len() - n,
{
    if n < entries.len() {
        lemma_bounds_fit_prefix(entries, n + 1);
        assert(entries.take(n + 1).drop_last() =~= entries.take(n));
    } else {
        assert(entries.take(n) =~= entries);
    }
}

/// `b` is `a` with its content box moved by `(dx, dy)` (saturating) and
/// nothing else changed but its children.
pub open spec fn moved_box(a: LayoutBox, b: LayoutBox, dx: int, dy: int) -> bool {
    &&& b.box_id == a.box_id
    &&& b.kind == a.kind
    &&& b.source == a.source
    &&& b.containing_block_width == a.containing_block_width
    &&& b.content == LayoutRect {
        x: CssPx(sat_i32(a.content.x.0 + dx) as i32),
        y: CssPx(sat_i32(a.content.y.0 + dy) as i32),
        ..a.content
    }
    &&& b.padding == a.padding
    &&& b.border == a.border
    &&& b.margin == a.margin
    &&& b.overflow == a.overflow
    &&& b.children@.len() == a.children@.len()
}

/// Each box of `b` is the box of `a` at the same place, moved by `(dx, dy)`.
pub open spec fn all_moved(a: Seq<LayoutBox>, b: Seq<LayoutBox>, dx: int, dy: int) -> bool {
    &&& a.len() == b.len()
    &&& forall|k: int| 0 <= k < a.len() ==> moved_box(#[trigger] a[k], b[k], dx, dy)
}

proof fn lemma_all_moved_concat(
    a1: Seq<LayoutBox>,
    b1: Seq<LayoutBox>,
    a2: Seq<LayoutBox>,
    b2: Seq<LayoutBox>,
    dx: int,
    dy: int,
)
    requires
        all_moved(a1, b1, dx, dy),
        all_moved(a2, b2, dx, dy),
    ensures
        all_moved(a1 + a2, b1 + b2, dx, dy),
{
    assert forall|k: int| 0 <= k < (a1 + a2).len() implies moved_box(
        #[trigger] (a1 + a2)[k],
        (b1 + b2)[k],
        dx,
        dy,
    ) by {
        if k < a1.len() {
            assert(moved_box(a1[k], b1[k], dx, dy));
        } else {
            assert(moved_box(a2[k - a1.len()], b2[k - a1.len()], dx, dy));
        }
    }
}

/// Moves a box and its whole subtree by `(delta_x, delta_y)`, saturating.
pub fn translate_layout(node: &mut LayoutBox, delta_x: i32, delta_y: i32)
    ensures
        all_moved(preorder(*old(node)), preorder(*final(node)), delta_x as int, delta_y as int),
    decreases *old(node),
{
    let ghost original = *node;
    node.content.x = CssPx(saturating_add_i32(node.content.x.0, delta_x));
    node.content.y = CssPx(saturating_add_i32(node.content.y.0, delta_y));
    let n = node.children.len();
    let mut i: usize = 0;
    assert(original.children@.take(0) =~= Seq::<LayoutBox>::empty());
    assert(node.children@.take(0) =~= Seq::<LayoutBox>::empty());
    while i < n
        invariant
            i <= n,
            n == node.children@.len(),
            n == original.children@.len(),
            original == *old(node),
            moved_box(original, *node, delta_x as int, delta_y as int),
            forall|j: int| i <= j < n ==> node.children@[j] == original.children@[j],
            all_moved(
                forest_preorder(original.children@.take(i as int)),
                forest_preorder(node.children@.take(i as int)),
                delta_x as int,
                delta_y as int,
            ),
        decreases n - i,
    {
        let ghost before = node.children@;
        proof {
            assert(decreases_to!(original => original.children));
            assert(decreases_to!(original.children => original.children@));
            assert(decreases_to!(original.children@ => original.children@[i as int]));
            assert(node.children@[i as int] == original.children@[i as int]);
            assert(decreases_to!(*old(node) => node.children@[i as int]));
        }
        translate_layout(&mut node.children[i], delta_x, delta_y);
        proof {
            let after = node.children@;
            assert(after =~= before.update(i as int, after[i as int]));
            assert(original.children@.take(i + 1) =~= original.children@.take(i as int).push(
                original.children@[i as int],
            ));
            assert(after.take(i + 1) =~= after.take(i as int).push(after[i as int]));
            assert(after.take(i as int) =~= before.take(i as int));
            lemma_forest_preorder_push(original.children@.take(i as int), original.children@[i as int]);
            lemma_forest_preorder_push(after.take(i as int), after[i as int]);
            lemma_all_moved_concat(
                forest_preorder(original.children@.take(i as int)),
                forest_preorder(after.take(i as int)),
                preorder(original.children@[i as int]),
                preorder(after[i as int]),
                delta_x as int,
                delta_y as int,
            );
        }
        i += 1;
    }
    proof {
        assert(original.children@.take(i as int) =~= original.children@);
        assert(node.children@.take(i as int) =~= node.children@);
        let head_a = seq![original];
        let head_b = seq![*node];
        assert(all_moved(head_a, head_b, delta_x as int, delta_y as int)) by {
            assert(head_a[0] == original);
            assert(head_b[0] == *node);
        }
        lemma_all_moved_concat(
            head_a,
            head_b,
            forest_preorder(original.children@),
            forest_preorder(node.children@),
            delta_x as int,
            delta_y as int,
        );
    }
}

/// Sum of the margin box heights of `boxes`.
pub open spec fn sum_outer_heights(boxes: Seq<LayoutBox>) -> int
    decreases boxes.len(),
{
    if boxes.len() == 0 {
        0
    } else {
        sum_outer_heights(boxes.drop_last()) + spec_outer_height(boxes.last())
    }
}

/// Every item's margin box height, and every running total of them, fits in `i32`.
pub open spec fn column_items_fit(items: Seq<LayoutBox>) -> bool {
    &&& forall|k: int|
        0 <= k < items.len() ==> {
            &&& border_box_fits(#[trigger] items[k])
            &&& in_i32(items[k].margin.top.0 + spec_border_box_height(items[k]))
            &&& in_i32(spec_outer_height(items[k]))
        }
    &&& forall|k: int| 0 <= k <= items.len() ==> in_i32(#[trigger] sum_outer_heights(items.take(k)))
}

/// The main-axis size of a flex column (its items' margin boxes and the
/// gaps between them) and the free space left in a definite containing
/// height, or none without one.
pub fn flex_column_space(items: &[LayoutBox], gap: i32, containing_height: Option<CssPx>) -> (r: (
    i32,
    i32,
))
    requires
        items@.len() <= i32::MAX as int + 1,
        column_items_fit(items@),
        in_i32(sum_outer_heights(items@) + spec_flex_gaps(gap as int, items@.len() as int)),
    ensures
        r.0 == sum_outer_heights(items@) + spec_flex_gaps(gap as int, items@.len() as int),
        r.1 == match containing_height {
            Some(h) => sat_i32(max_i(h.0 as int, r.0 as int) - r.0),
            None => 0,
        },
{
    let count = items.len();
    let mut heights: i32 = 0;
    let mut i: usize = 0;
    while i < count
        invariant
            count == items@.len(),
            i <= count,
            column_items_fit(items@),
            heights == sum_outer_heights(items@.take(i as int)),
        decreases count - i,
    {
        assert(items@.take(i + 1).drop_last() =~= items@.take(i as int));
        assert(items@.take(i + 1).last() == items@[i as int]);
        assert(in_i32(sum_outer_heights(items@.take(i + 1))));
        let h = outer_height(&items[i]);
        heights = heights + h;
        i += 1;
    }
    assert(items@.take(count as int) =~= items@);
    let pairs: i32 = if count >= 1 {
        (count - 1) as i32
    } else {
        0
    };
    let total = heights + saturating_mul_i32(gap, pairs);
    let available = match containing_height {
        Some(h) => if h.0 >= total {
            h.0
        } else {
            total
        },
        None => total,
    };
    (total, saturating_sub_i32(available, total))
}

} // verus!
