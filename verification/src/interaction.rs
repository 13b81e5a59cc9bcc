//! Points, scroll offsets, hit testing, and the geometry of form controls.
use vstd::prelude::*;
use crate::layout::{sat_i32, saturating_add_i32, saturating_mul_i32, CssPx, LayoutRect};
use crate::style::StyleSharingMetrics;

verus! {

/// Integer point in viewport or document CSS pixels.
#[derive(Clone, Copy, Debug, Default, PartialEq, Eq, Structural)]
pub struct InteractionPoint {
    pub x: i32,
    pub y: i32,
}

impl InteractionPoint {
    pub fn new(x: i32, y: i32) -> (r: Self)
        ensures
            r.x == x && r.y == y,
    {
        InteractionPoint { x, y }
    }
}

/// Root document scroll offset.
#[derive(Clone, Copy, Debug, Default, PartialEq, Eq, Structural)]
pub struct ScrollOffset {
    pub x: i32,
    pub y: i32,
}

/// Public category returned by hit testing.
#[derive(Clone, Copy, Debug, PartialEq, Eq, Structural)]
pub enum HitTestKind {
    Link,
    TextInput,
    Checkbox,
    Button,
}

/// Backend-neutral keyboard command mapped by the embedder.
#[derive(Clone, Debug, PartialEq, Eq)]
pub enum KeyboardCommand {
    Text(String),
    Tab { reverse: bool },
    Enter,
    Space,
    Backspace,
}

/// Timings and counts of one document view build.
#[derive(Clone, Copy, Debug, Default, PartialEq, Eq, Structural)]
pub struct DocumentViewMetrics {
    pub style_micros: u64,
    pub box_tree_micros: u64,
    pub fragment_layout_micros: u64,
    pub interaction_micros: u64,
    pub total_build_micros: u64,
    pub style_elements: usize,
    pub style_sharing: StyleSharingMetrics,
    pub box_nodes: usize,
    pub layout_boxes: usize,
    pub paragraphs: usize,
    pub glyphs: usize,
    pub images: usize,
}

pub open spec fn max_int(a: int, b: int) -> int {
    if a >= b {
        a
    } else {
        b
    }
}

pub open spec fn min_i(a: int, b: int) -> int {
    if a <= b {
        a
    } else {
        b
    }
}

/// Whether `point` lies in `rect`; the far edges are exclusive and
/// saturate at the `i32` range.
pub open spec fn spec_contains(rect: LayoutRect, point: InteractionPoint) -> bool {
    &&& point.x >= rect.x.0
    &&& point.y >= rect.y.0
    &&& point.x < sat_i32(rect.x.0 + rect.width.0)
    &&& point.y < sat_i32(rect.y.0 + rect.height.0)
}

/// Whether `point` lies in `rect`.
pub fn contains(rect: LayoutRect, point: InteractionPoint) -> (r: bool)
    ensures
        r == spec_contains(rect, point),
{
    point.x >= rect.x.0 && point.y >= rect.y.0 && point.x < saturating_add_i32(rect.x.0, rect.width.0)
        && point.y < saturating_add_i32(rect.y.0, rect.height.0)
}

/// `rect` moved from document to viewport coordinates by the scroll offset.
pub fn translate_for_scroll(rect: LayoutRect, scroll: ScrollOffset) -> (r: LayoutRect)
    requires
        i32::MIN <= rect.x.0 - scroll.x <= i32::MAX,
        i32::MIN <= rect.y.0 - scroll.y <= i32::MAX,
    ensures
        r.x.0 == rect.x.0 - scroll.x,
        r.y.0 == rect.y.0 - scroll.y,
        r.width == rect.width,
        r.height == rect.height,
{
    LayoutRect { x: CssPx(rect.x.0 - scroll.x), y: CssPx(rect.y.0 - scroll.y), ..rect }
}

/// The smallest rectangle holding both; a negative extent becomes zero.
pub open spec fn spec_union(left: LayoutRect, right: LayoutRect) -> (int, int, int, int) {
    let x0 = min_i(left.x.0 as int, right.x.0 as int);
    let y0 = min_i(left.y.0 as int, right.y.0 as int);
    let x1 = max_int(left.x.0 + left.width.0, right.x.0 + right.width.0);
    let y1 = max_int(left.y.0 + left.height.0, right.y.0 + right.height.0);
    (x0, y0, max_int(x1 - x0, 0), max_int(y1 - y0, 0))
}

/// The union of two rectangles, when every edge and extent fits in `i32`.
pub open spec fn union_fits(left: LayoutRect, right: LayoutRect) -> bool {
    let x0 = min_i(left.x.0 as int, right.x.0 as int);
    let y0 = min_i(left.y.0 as int, right.y.0 as int);
    let x1 = max_int(left.x.0 + left.width.0, right.x.0 + right.width.0);
    let y1 = max_int(left.y.0 + left.height.0, right.y.0 + right.height.0);
    &&& i32::MIN <= left.x.0 + left.width.0 <= i32::MAX
    &&& i32::MIN <= right.x.0 + right.width.0 <= i32::MAX
    &&& i32::MIN <= left.y.0 + left.height.0 <= i32::MAX
    &&& i32::MIN <= right.y.0 + right.height.0 <= i32::MAX
    &&& i32::MIN <= x1 - x0 <= i32::MAX
    &&& i32::MIN <= y1 - y0 <= i32::MAX
}

/// The bounding rectangle of two rectangles.
pub fn union(left: LayoutRect, right: LayoutRect) -> (r: LayoutRect)
    requires
        union_fits(left, right),
    ensures
        (r.x.0 as int, r.y.0 as int, r.width.0 as int, r.height.0 as int) == spec_union(left, right),
{
    let x0 = if left.x.0 <= right.x.0 {
        left.x.0
    } else {
        right.x.0
    };
    let y0 = if left.y.0 <= right.y.0 {
        left.y.0
    } else {
        right.y.0
    };
    let lx = left.x.0 + left.width.0;
    let rx = right.x.0 + right.width.0;
    let ly = left.y.0 + left.height.0;
    let ry = right.y.0 + right.height.0;
    let x1 = if lx >= rx {
        lx
    } else {
        rx
    };
    let y1 = if ly >= ry {
        ly
    } else {
        ry
    };
    let w = x1 - x0;
    let h = y1 - y0;
    LayoutRect {
        x: CssPx(x0),
        y: CssPx(y0),
        width: CssPx(if w > 0 { w } else { 0 }),
        height: CssPx(if h > 0 { h } else { 0 }),
    }
}

/// The union contains both rectangles' points.
pub proof fn law_union_covers(left: LayoutRect, right: LayoutRect, x: int, y: int)
    requires
        union_fits(left, right),
        left.width.0 >= 0 && left.height.0 >= 0,
        right.width.0 >= 0 && right.height.0 >= 0,
        (left.x.0 <= x < left.x.0 + left.width.0 && left.y.0 <= y < left.y.0 + left.height.0) || (
        right.x.0 <= x < right.x.0 + right.width.0 && right.y.0 <= y < right.y.0 + right.height.0),
    ensures
        ({
            let (ux, uy, uw, uh) = spec_union(left, right);
            ux <= x < ux + uw && uy <= y < uy + uh
        }),
{
}

/// Kind of control whose target rectangle is sized.
#[derive(Clone, Copy, Debug, PartialEq, Eq, Structural)]
pub enum TargetGeometry {
    Link,
    TextInput,
    Checkbox,
    Button,
}

/// The minimum width of a button with a label of `chars` characters.
pub open spec fn button_width(chars: int) -> int {
    let count = if chars > i32::MAX {
        i32::MAX as int
    } else {
        chars
    };
    max_int(sat_i32(sat_i32(count * 6) + 16), 64)
}

/// The target rectangle of a control: its layout rectangle (or an empty one)
/// grown to the control's minimum size.
pub open spec fn spec_target_rect(rect: Option<LayoutRect>, geometry: TargetGeometry, label_chars: int) -> LayoutRect {
    let r = match rect {
        Some(r) => r,
        None => LayoutRect { x: CssPx(0), y: CssPx(0), width: CssPx(0), height: CssPx(0) },
    };
    match geometry {
        TargetGeometry::Link => LayoutRect {
            width: CssPx(max_int(r.width.0 as int, 1) as i32),
            height: CssPx(max_int(r.height.0 as int, 16) as i32),
            ..r
        },
        TargetGeometry::TextInput => LayoutRect {
            width: CssPx(max_int(r.width.0 as int, 160) as i32),
            height: CssPx(max_int(r.height.0 as int, 22) as i32),
            ..r
        },
        TargetGeometry::Checkbox => LayoutRect { width: CssPx(18), height: CssPx(18), ..r },
        TargetGeometry::Button => LayoutRect {
            width: CssPx(max_int(r.width.0 as int, button_width(label_chars)) as i32),
            height: CssPx(max_int(r.height.0 as int, 22) as i32),
            ..r
        },
    }
}

/// Sizes a control's target rectangle.
pub fn target_rect(rect: Option<LayoutRect>, geometry: TargetGeometry, label: &str) -> (r: LayoutRect)
    ensures
        r == spec_target_rect(rect, geometry, label@.len() as int),
{
    let mut r = match rect {
        Some(r) => r,
        None => LayoutRect { x: CssPx(0), y: CssPx(0), width: CssPx(0), height: CssPx(0) },
    };
    match geometry {
        TargetGeometry::Link => {
            r.width = CssPx(if r.width.0 >= 1 { r.width.0 } else { 1 });
            r.height = CssPx(if r.height.0 >= 16 { r.height.0 } else { 16 });
        },
        TargetGeometry::TextInput => {
            r.width = CssPx(if r.width.0 >= 160 { r.width.0 } else { 160 });
            r.height = CssPx(if r.height.0 >= 22 { r.height.0 } else { 22 });
        },
        TargetGeometry::Checkbox => {
            r.width = CssPx(18);
            r.height = CssPx(18);
        },
        TargetGeometry::Button => {
            let chars = crate::text_util::str_to_chars(label);
            let count: i32 = if chars.len() > i32::MAX as usize {
                i32::MAX
            } else {
                chars.len() as i32
            };
            let intrinsic = saturating_add_i32(saturating_mul_i32(count, 6), 16);
            let minimum = if intrinsic >= 64 {
                intrinsic
            } else {
                64
            };
            r.width = CssPx(if r.width.0 >= minimum { r.width.0 } else { minimum });
            r.height = CssPx(if r.height.0 >= 22 { r.height.0 } else { 22 });
        },
    }
    r
}

/// A control target to be laid out in rows; links keep their rectangle.
#[derive(Clone, Copy, Debug, PartialEq, Eq, Structural)]
pub struct ControlTarget {
    pub link: bool,
    pub rect: LayoutRect,
}

/// Row-layout state: cursor position and the height of the current row.
pub open spec fn arrange_state(targets: Seq<ControlTarget>, maximum_x: int) -> (Seq<ControlTarget>, int, int, int)
    decreases targets.len(),
{
    if targets.len() == 0 {
        (Seq::empty(), 8, 8, 0)
    } else {
        let (done, cx, cy, rh) = arrange_state(targets.drop_last(), maximum_x);
        let t = targets.last();
        if t.link {
            (done.push(t), cx, cy, rh)
        } else {
            let preferred_y = max_int(t.rect.y.0 as int, 8);
            let (cx1, cy1, rh1) = if preferred_y > sat_i32(sat_i32(cy + rh) + 8) {
                (8int, preferred_y, 0int)
            } else {
                (cx, cy, rh)
            };
            let (cx2, cy2, rh2) = if sat_i32(cx1 + t.rect.width.0) > maximum_x && cx1 > 8 {
                (8int, sat_i32(sat_i32(cy1 + rh1) + 8), 0int)
            } else {
                (cx1, cy1, rh1)
            };
            let placed = ControlTarget {
                link: false,
                rect: LayoutRect { x: CssPx(cx2 as i32), y: CssPx(cy2 as i32), ..t.rect },
            };
            (
                done.push(placed),
                sat_i32(sat_i32(cx2 + t.rect.width.0) + 8),
                cy2,
                max_int(rh2, t.rect.height.0 as int),
            )
        }
    }
}

pub proof fn lemma_arrange_state_ranges(targets: Seq<ControlTarget>, maximum_x: int)
    ensures
        ({
            let (done, cx, cy, rh) = arrange_state(targets, maximum_x);
            &&& done.len() == targets.len()
            &&& i32::MIN <= cx <= i32::MAX
            &&& i32::MIN <= cy <= i32::MAX
            &&& 0 <= rh <= i32::MAX
        }),
    decreases targets.len(),
{
    if targets.len() > 0 {
        lemma_arrange_state_ranges(targets.drop_last(), maximum_x);
    }
}

/// Lays non-link control targets out in rows from the top left, wrapping
/// before `viewport_width - 8`.
pub fn arrange_control_targets(targets: &mut Vec<ControlTarget>, viewport_width: u32)
    requires
        viewport_width <= i32::MAX,
    ensures
        final(targets)@ == arrange_state(old(targets)@, viewport_width - 8).0,
{
    let ghost original = targets@;
    let maximum_x: i32 = viewport_width as i32 - 8;
    let mut cursor_x: i32 = 8;
    let mut cursor_y: i32 = 8;
    let mut row_height: i32 = 0;
    let mut i: usize = 0;
    assert(original.take(0) =~= Seq::<ControlTarget>::empty());
    while i < targets.len()
        invariant
            i <= targets@.len(),
            targets@.len() == original.len(),
            maximum_x == viewport_width - 8,
            forall|j: int| i <= j < original.len() ==> targets@[j] == original[j],
            ({
                let (done, cx, cy, rh) = arrange_state(original.take(i as int), maximum_x as int);
                &&& targets@.take(i as int) == done
                &&& cx == cursor_x
                &&& cy == cursor_y
                &&& rh == row_height
            }),
        decreases targets@.len() - i,
    {
        proof {
            assert(original.take(i + 1).drop_last() =~= original.take(i as int));
            lemma_arrange_state_ranges(original.take(i as int), maximum_x as int);
        }
        let t = targets[i];
        if !t.link {
            let preferred_y = if t.rect.y.0 >= 8 {
                t.rect.y.0
            } else {
                8
            };
            if preferred_y > saturating_add_i32(saturating_add_i32(cursor_y, row_height), 8) {
                cursor_x = 8;
                cursor_y = preferred_y;
                row_height = 0;
            }
            if saturating_add_i32(cursor_x, t.rect.width.0) > maximum_x && cursor_x > 8 {
                cursor_x = 8;
                cursor_y = saturating_add_i32(saturating_add_i32(cursor_y, row_height), 8);
                row_height = 0;
            }
            let placed = ControlTarget {
                link: false,
                rect: LayoutRect { x: CssPx(cursor_x), y: CssPx(cursor_y), ..t.rect },
            };
            targets.set(i, placed);
            cursor_x = saturating_add_i32(saturating_add_i32(cursor_x, t.rect.width.0), 8);
            row_height = if row_height >= t.rect.height.0 {
                row_height
            } else {
                t.rect.height.0
            };
        }
        assert(targets@.take(i + 1) =~= arrange_state(original.take(i + 1), maximum_x as int).0);
        i += 1;
    }
    assert(original.take(i as int) =~= original);
    assert(targets@.take(i as int) =~= targets@);
}

/// Whitespace-separated words of `value` joined by single spaces.
pub fn normalized_label(value: &str) -> (r: String)
    ensures
        r@ == crate::line_breaking::spec_collapse_whitespace(value@),
{
    crate::line_breaking::collapse_whitespace(value)
}

/// The first `limit` characters of `value`.
pub fn first_characters(value: &str, limit: usize) -> (r: String)
    ensures
        r@ == value@.take(min_i(limit as int, value@.len() as int)),
{
    let chars = crate::text_util::str_to_chars(value);
    let n = if limit < chars.len() {
        limit
    } else {
        chars.len()
    };
    let mut out = String::new();
    let mut i: usize = 0;
    while i < n
        invariant
            i <= n,
            n <= chars@.len(),
            chars@ == value@,
            out@ == value@.take(i as int),
        decreases n - i,
    {
        crate::text_util::string_push(&mut out, chars[i]);
        assert(out@ =~= value@.take(i + 1));
        i += 1;
    }
    out
}

/// The last `limit` characters of `value`.
pub fn tail_characters(value: &str, limit: usize) -> (r: String)
    ensures
        r@ == value@.skip(if value@.len() > limit { value@.len() - limit } else { 0 }),
{
    let chars = crate::text_util::str_to_chars(value);
    let count = chars.len();
    let start = if count > limit {
        count - limit
    } else {
        0
    };
    let mut out = String::new();
    let mut i: usize = start;
    while i < count
        invariant
            start <= i <= count,
            count == chars@.len(),
            chars@ == value@,
            out@ == value@.subrange(start as int, i as int),
        decreases count - i,
    {
        crate::text_util::string_push(&mut out, chars[i]);
        assert(out@ =~= value@.subrange(start as int, i + 1));
        i += 1;
    }
    assert(value@.subrange(start as int, count as int) =~= value@.skip(start as int));
    out
}

/// One scrollable layout node: its clip and the extent of what it holds.
#[derive(Clone, Copy, Debug, PartialEq, Eq, Structural)]
pub struct ScrollNode {
    pub id: u32,
    pub source: Option<u64>,
    pub clip: LayoutRect,
    pub content_width: CssPx,
    pub content_height: CssPx,
}

/// The root scroll node: the viewport, holding the whole document.
pub open spec fn root_scroll_node(
    viewport_width: u32,
    viewport_height: u32,
    content_width: int,
    content_height: int,
) -> ScrollNode {
    ScrollNode {
        id: 0,
        source: None,
        clip: LayoutRect {
            x: CssPx(0),
            y: CssPx(0),
            width: CssPx(viewport_width as i32),
            height: CssPx(viewport_height as i32),
        },
        content_width: CssPx(content_width as i32),
        content_height: CssPx(content_height as i32),
    }
}

/// Scroll metadata of a document: the viewport, the extent of its content,
/// and its scroll nodes, the root one first.
#[derive(Clone, Debug, PartialEq, Eq)]
pub struct ScrollTree {
    viewport_width: u32,
    viewport_height: u32,
    content_width: i32,
    content_height: i32,
    nodes: Vec<ScrollNode>,
}

impl ScrollTree {
    pub closed spec fn spec_viewport(&self) -> (u32, u32) {
        (self.viewport_width, self.viewport_height)
    }

    pub closed spec fn spec_content(&self) -> (i32, i32) {
        (self.content_width, self.content_height)
    }

    pub closed spec fn spec_nodes(&self) -> Seq<ScrollNode> {
        self.nodes@
    }

    /// The viewport fits in `i32` and the content extent is not negative.
    pub open spec fn wf(&self) -> bool {
        &&& self.spec_viewport().0 <= i32::MAX
        &&& self.spec_viewport().1 <= i32::MAX
        &&& self.spec_content().0 >= 0
        &&& self.spec_content().1 >= 0
    }

    /// Scroll metadata for a viewport and content extent, a negative extent
    /// becoming zero; the root node comes first, then `nested`.
    pub fn new(
        viewport_width: u32,
        viewport_height: u32,
        content_width: i32,
        content_height: i32,
        nested: Vec<ScrollNode>,
    ) -> (r: Self)
        requires
            viewport_width <= i32::MAX,
            viewport_height <= i32::MAX,
        ensures
            r.wf(),
            r.spec_viewport() == (viewport_width, viewport_height),
            r.spec_content() == ((if content_width > 0 { content_width } else { 0i32 }), (
            if content_height > 0 {
                content_height
            } else {
                0i32
            })),
            r.spec_nodes() == seq![
                root_scroll_node(
                    viewport_width,
                    viewport_height,
                    r.spec_content().0 as int,
                    r.spec_content().1 as int,
                ),
            ] + nested@,
    {
        let cw = if content_width > 0 {
            content_width
        } else {
            0
        };
        let ch = if content_height > 0 {
            content_height
        } else {
            0
        };
        let mut nodes: Vec<ScrollNode> = Vec::new();
        nodes.push(
            ScrollNode {
                id: 0,
                source: None,
                clip: LayoutRect {
                    x: CssPx(0),
                    y: CssPx(0),
                    width: CssPx(viewport_width as i32),
                    height: CssPx(viewport_height as i32),
                },
                content_width: CssPx(cw),
                content_height: CssPx(ch),
            },
        );
        let mut i: usize = 0;
        while i < nested.len()
            invariant
                i <= nested@.len(),
                nodes@ == seq![
                    root_scroll_node(viewport_width, viewport_height, cw as int, ch as int),
                ] + nested@.take(i as int),
            decreases nested@.len() - i,
        {
            nodes.push(nested[i]);
            assert(nested@.take(i + 1) =~= nested@.take(i as int).push(nested@[i as int]));
            assert(nodes@ =~= seq![root_scroll_node(viewport_width, viewport_height, cw as int, ch as int)]
                + nested@.take(i + 1));
            i += 1;
        }
        assert(nested@.take(i as int) =~= nested@);
        ScrollTree {
            viewport_width,
            viewport_height,
            content_width: cw,
            content_height: ch,
            nodes,
        }
    }

    pub fn viewport(&self) -> (r: (u32, u32))
        ensures
            r == self.spec_viewport(),
    {
        (self.viewport_width, self.viewport_height)
    }

    pub fn nodes(&self) -> (r: &[ScrollNode])
        ensures
            r@ == self.spec_nodes(),
    {
        self.nodes.as_slice()
    }

    pub fn content_width(&self) -> (r: i32)
        ensures
            r == self.spec_content().0,
    {
        self.content_width
    }

    pub fn content_height(&self) -> (r: i32)
        ensures
            r == self.spec_content().1,
    {
        self.content_height
    }

    /// The largest scroll offset: how far the content reaches past the viewport.
    pub fn maximum_offset(&self) -> (r: ScrollOffset)
        requires
            self.wf(),
        ensures
            r.x == max_int(self.spec_content().0 - self.spec_viewport().0, 0),
            r.y == max_int(self.spec_content().1 - self.spec_viewport().1, 0),
    {
        let dx = self.content_width - self.viewport_width as i32;
        let dy = self.content_height - self.viewport_height as i32;
        ScrollOffset { x: if dx > 0 { dx } else { 0 }, y: if dy > 0 { dy } else { 0 } }
    }

    /// `offset` clamped to `0..=maximum_offset()` on each axis.
    pub fn clamp(&self, offset: ScrollOffset) -> (r: ScrollOffset)
        requires
            self.wf(),
        ensures
            ({
                let mx = max_int(self.spec_content().0 - self.spec_viewport().0, 0);
                let my = max_int(self.spec_content().1 - self.spec_viewport().1, 0);
                &&& r.x == (if offset.x < 0 { 0 } else if offset.x > mx { mx } else { offset.x as int })
                &&& r.y == (if offset.y < 0 { 0 } else if offset.y > my { my } else { offset.y as int })
            }),
    {
        let maximum = self.maximum_offset();
        ScrollOffset {
            x: if offset.x < 0 {
                0
            } else if offset.x > maximum.x {
                maximum.x
            } else {
                offset.x
            },
            y: if offset.y < 0 {
                0
            } else if offset.y > maximum.y {
                maximum.y
            } else {
                offset.y
            },
        }
    }
}

/// Clamping always yields an offset within the scroll bounds, and clamping
/// twice changes nothing.
pub proof fn law_clamp_in_bounds_and_idempotent(content: int, viewport: int, offset: int)
    requires
        content >= 0,
        viewport >= 0,
    ensures
        ({
            let m = max_int(content - viewport, 0);
            let c = if offset < 0 { 0 } else if offset > m { m } else { offset };
            let cc = if c < 0 { 0 } else if c > m { m } else { c };
            0 <= c <= m && cc == c
        }),
{
}

/// One document-space hit-test entry in paint order.
#[derive(Clone, Debug, PartialEq, Eq)]
pub struct HitTestEntry {
    pub node: u64,
    pub rect: LayoutRect,
    pub kind: HitTestKind,
    pub label: String,
}

/// The last of the first `n` entries whose rectangle contains `point`.
pub open spec fn spec_last_hit(entries: Seq<HitTestEntry>, point: InteractionPoint, n: int) -> Option<
    HitTestEntry,
>
    decreases n,
{
    if n <= 0 {
        None
    } else if spec_contains(entries[n - 1].rect, point) {
        Some(entries[n - 1])
    } else {
        spec_last_hit(entries, point, n - 1)
    }
}

/// Hit-test entries in paint order.
#[derive(Clone, Debug, PartialEq, Eq)]
pub struct HitTestList {
    pub entries: Vec<HitTestEntry>,
}

impl HitTestList {
    pub fn entries(&self) -> (r: &[HitTestEntry])
        ensures
            r@ == self.entries@,
    {
        self.entries.as_slice()
    }

    /// The topmost entry (the last in paint order) containing `point`.
    pub fn hit_test(&self, point: InteractionPoint) -> (r: Option<&HitTestEntry>)
        ensures
            match r {
                Some(e) => spec_last_hit(self.entries@, point, self.entries@.len() as int) == Some(*e),
                None => spec_last_hit(self.entries@, point, self.entries@.len() as int) is None,
            },
            match r {
                Some(e) => exists|i: int|
                    0 <= i < self.entries@.len() && *e == self.entries@[i] && spec_contains(
                        self.entries@[i].rect,
                        point,
                    ) && forall|j: int|
                        i < j < self.entries@.len() ==> !spec_contains(
                            #[trigger] self.entries@[j].rect,
                            point,
                        ),
                None => forall|j: int|
                    0 <= j < self.entries@.len() ==> !spec_contains(
                        #[trigger] self.entries@[j].rect,
                        point,
                    ),
            },
    {
        let mut i = self.entries.len();
        while i > 0
            invariant
                i <= self.entries@.len(),
                spec_last_hit(self.entries@, point, self.entries@.len() as int) == spec_last_hit(
                    self.entries@,
                    point,
                    i as int,
                ),
                forall|j: int|
                    i <= j < self.entries@.len() ==> !spec_contains(
                        #[trigger] self.entries@[j].rect,
                        point,
                    ),
            decreases i,
        {
            i -= 1;
            if contains(self.entries[i].rect, point) {
                return Some(&self.entries[i]);
            }
        }
        None
    }
}

} // verus!
