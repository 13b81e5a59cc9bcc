//! What the interaction layer paints over a document: control boxes, their
//! live text and check marks, button labels, and focus rings, moved by the
//! scroll offset and clipped to the viewport.
use vstd::prelude::*;
use crate::interaction::{first_characters, tail_characters, ScrollOffset};
use crate::interaction_state::{
    lookup, spec_clamp, ControlValue, InteractionState, InteractionView, Target, TargetKind,
};
use crate::layout::{in_i32, CssPx, LayoutRect};
use crate::paint::{clip_to_viewport, outline_strips, spec_clip_to_viewport, spec_outline_strips};
use crate::renderer::{Rectangle, Rgba8};

verus! {

/// One paint command: fill a viewport rectangle, or write a run of text in
/// the pixel font at a left edge and baseline.
#[derive(Clone, Debug, PartialEq, Eq)]
pub enum PaintCommand {
    Fill { rect: Rectangle, color: Rgba8 },
    Text { text: String, x: i32, baseline: i32, color: Rgba8 },
}

/// A paint command as plain values, colors by their channels.
pub enum PaintModel {
    Fill(Rectangle, (u8, u8, u8, u8)),
    Text(Seq<char>, int, int, (u8, u8, u8, u8)),
}

pub open spec fn command_view(c: PaintCommand) -> PaintModel {
    match c {
        PaintCommand::Fill { rect, color } => PaintModel::Fill(rect, color.channels()),
        PaintCommand::Text { text, x, baseline, color } => PaintModel::Text(
            text@,
            x as int,
            baseline as int,
            color.channels(),
        ),
    }
}

pub open spec fn commands_view(cs: Seq<PaintCommand>) -> Seq<PaintModel> {
    Seq::new(cs.len(), |i: int| command_view(cs[i]))
}

pub open spec fn control_background() -> (u8, u8, u8, u8) {
    (255, 255, 255, 255)
}

pub open spec fn control_border() -> (u8, u8, u8, u8) {
    (90, 96, 108, 255)
}

pub open spec fn control_text() -> (u8, u8, u8, u8) {
    (18, 23, 33, 255)
}

pub open spec fn button_background() -> (u8, u8, u8, u8) {
    (232, 235, 240, 255)
}

pub open spec fn focus_ring() -> (u8, u8, u8, u8) {
    (40, 102, 220, 255)
}

pub open spec fn check_mark() -> (u8, u8, u8, u8) {
    (32, 89, 190, 255)
}

/// The fill of `rect` clipped to the viewport, if any of it shows.
pub open spec fn fill_model(rect: LayoutRect, color: (u8, u8, u8, u8), w: int, h: int) -> Seq<PaintModel> {
    match spec_clip_to_viewport(rect, w, h) {
        Some(c) => seq![PaintModel::Fill(c, color)],
        None => Seq::empty(),
    }
}

/// The four one-pixel lines around `rect`, each clipped.
pub open spec fn outline_model(rect: LayoutRect, color: (u8, u8, u8, u8), w: int, h: int) -> Seq<PaintModel> {
    let s = spec_outline_strips(rect);
    fill_model(s[0], color, w, h) + fill_model(s[1], color, w, h) + fill_model(s[2], color, w, h)
        + fill_model(s[3], color, w, h)
}

/// `rect` grown by two pixels on every side.
pub open spec fn ring_rect(rect: LayoutRect) -> LayoutRect {
    LayoutRect {
        x: CssPx((rect.x.0 - 2) as i32),
        y: CssPx((rect.y.0 - 2) as i32),
        width: CssPx((rect.width.0 + 4) as i32),
        height: CssPx((rect.height.0 + 4) as i32),
    }
}

/// A control box: its background, its border, and a focus ring two pixels
/// outside it when focused.
pub open spec fn control_box_model(
    rect: LayoutRect,
    focused: bool,
    background: (u8, u8, u8, u8),
    w: int,
    h: int,
) -> Seq<PaintModel> {
    fill_model(rect, background, w, h) + outline_model(rect, control_border(), w, h) + if focused {
        outline_model(ring_rect(rect), focus_ring(), w, h)
    } else {
        Seq::empty()
    }
}

/// The last `limit` characters of `s`.
pub open spec fn tail_of(s: Seq<char>, limit: int) -> Seq<char> {
    s.skip(if s.len() > limit { s.len() - limit } else { 0 })
}

/// Characters of the pixel font that fit in `width - margin` pixels.
pub open spec fn fitting_chars(width: int, margin: int) -> int {
    (if width - margin > 0 { width - margin } else { 0 }) / 6
}

/// `rect` in viewport coordinates.
pub open spec fn scrolled(rect: LayoutRect, scroll: ScrollOffset) -> LayoutRect {
    LayoutRect {
        x: CssPx((rect.x.0 - scroll.x) as i32),
        y: CssPx((rect.y.0 - scroll.y) as i32),
        ..rect
    }
}

/// What one interactive target paints, given the live control values, the
/// focused node and the scroll offset.
pub open spec fn target_model(
    t: Target,
    values: Seq<(u64, ControlValue)>,
    focused: Option<u64>,
    scroll: ScrollOffset,
    w: int,
    h: int,
) -> Seq<PaintModel> {
    let rect = scrolled(t.rect, scroll);
    let is_focused = focused == Some(t.node);
    match t.kind {
        TargetKind::TextInput { .. } => control_box_model(rect, is_focused, control_background(), w, h)
            + match lookup(values, t.node) {
            Some(ControlValue::Text(v)) => seq![
                PaintModel::Text(
                    tail_of(v@, fitting_chars(rect.width.0 as int, 8)),
                    rect.x.0 + 4,
                    rect.y.0 + 15,
                    control_text(),
                ),
            ],
            _ => Seq::empty(),
        },
        TargetKind::Checkbox => control_box_model(rect, is_focused, control_background(), w, h)
            + match lookup(values, t.node) {
            Some(ControlValue::Checkbox { checked, .. }) => if checked {
                seq![PaintModel::Text(seq!['x'], rect.x.0 + 6, rect.y.0 + 14, check_mark())]
            } else {
                Seq::empty()
            },
            _ => Seq::empty(),
        },
        TargetKind::Button { .. } => control_box_model(rect, is_focused, button_background(), w, h)
            + seq![
            PaintModel::Text(
                t.label@.take(
                    if fitting_chars(rect.width.0 as int, 12) < t.label@.len() {
                        fitting_chars(rect.width.0 as int, 12)
                    } else {
                        t.label@.len() as int
                    },
                ),
                rect.x.0 + 6,
                rect.y.0 + 15,
                control_text(),
            ),
        ],
        TargetKind::Link(_) => if is_focused {
            outline_model(rect, focus_ring(), w, h)
        } else {
            Seq::empty()
        },
    }
}

/// What the first `n` targets paint, in order.
pub open spec fn targets_model(
    ts: Seq<Target>,
    values: Seq<(u64, ControlValue)>,
    focused: Option<u64>,
    scroll: ScrollOffset,
    w: int,
    h: int,
    n: int,
) -> Seq<PaintModel>
    decreases n,
{
    if n <= 0 {
        Seq::empty()
    } else {
        targets_model(ts, values, focused, scroll, w, h, n - 1) + target_model(
            ts[n - 1],
            values,
            focused,
            scroll,
            w,
            h,
        )
    }
}

/// Every coordinate that painting target `t` at `scroll` computes fits in `i32`.
pub open spec fn target_fits(t: Target, scroll: ScrollOffset) -> bool {
    let x = t.rect.x.0 - scroll.x;
    let y = t.rect.y.0 - scroll.y;
    let r = scrolled(t.rect, scroll);
    &&& in_i32(x) && in_i32(y)
    &&& in_i32(x + t.rect.width.0) && in_i32(x + t.rect.width.0 - 1)
    &&& in_i32(y + t.rect.height.0) && in_i32(y + t.rect.height.0 - 1)
    &&& in_i32(x - 2) && in_i32(y - 2) && in_i32(t.rect.width.0 + 4) && in_i32(t.rect.height.0 + 4)
    &&& in_i32(r.x.0 - 2 + (t.rect.width.0 + 4)) && in_i32(r.x.0 - 2 + (t.rect.width.0 + 4) - 1)
    &&& in_i32(r.y.0 - 2 + (t.rect.height.0 + 4)) && in_i32(r.y.0 - 2 + (t.rect.height.0 + 4) - 1)
    &&& in_i32(x + 15) && in_i32(y + 15)
    &&& in_i32(t.rect.width.0 - 12)
}

/// What the interaction layer paints over the document for `state` in
/// `view`: each target in order, at the clamped scroll offset.
pub open spec fn spec_control_overlay(view: InteractionView, state: InteractionState) -> Seq<PaintModel> {
    let scroll = spec_clamp(view.scroll_tree, state.spec_scroll());
    targets_model(
        view.targets@,
        state.spec_values(),
        state.spec_focused(),
        scroll,
        view.scroll_tree.spec_viewport().0 as int,
        view.scroll_tree.spec_viewport().1 as int,
        view.targets@.len() as int,
    )
}

fn color(c: (u8, u8, u8)) -> (r: Rgba8)
    ensures
        r.channels() == (c.0, c.1, c.2, 255u8),
{
    Rgba8::rgb(c.0, c.1, c.2)
}

fn push_fill(out: &mut Vec<PaintCommand>, rect: LayoutRect, c: Rgba8, w: u32, h: u32)
    requires
        w <= i32::MAX,
        h <= i32::MAX,
    ensures
        commands_view(final(out)@) == commands_view(old(out)@) + fill_model(rect, c.channels(), w as int, h as int),
{
    let ghost before = commands_view(out@);
    if let Some(clipped) = clip_to_viewport(rect, w, h) {
        out.push(PaintCommand::Fill { rect: clipped, color: c });
        assert(commands_view(out@) =~= before + seq![PaintModel::Fill(clipped, c.channels())]);
    } else {
        assert(before + Seq::<PaintModel>::empty() =~= before);
    }
}

fn push_outline(out: &mut Vec<PaintCommand>, rect: LayoutRect, c: Rgba8, w: u32, h: u32)
    requires
        w <= i32::MAX,
        h <= i32::MAX,
        in_i32(rect.x.0 + rect.width.0),
        in_i32(rect.x.0 + rect.width.0 - 1),
        in_i32(rect.y.0 + rect.height.0),
        in_i32(rect.y.0 + rect.height.0 - 1),
    ensures
        commands_view(final(out)@) == commands_view(old(out)@) + outline_model(rect, c.channels(), w as int, h as int),
{
    let ghost before = commands_view(out@);
    let strips = outline_strips(rect);
    let ghost s = spec_outline_strips(rect);
    push_fill(out, strips[0], c, w, h);
    push_fill(out, strips[1], c, w, h);
    push_fill(out, strips[2], c, w, h);
    push_fill(out, strips[3], c, w, h);
    let ghost cc = c.channels();
    let ghost wi = w as int;
    let ghost hi = h as int;
    assert(commands_view(out@) =~= before + (fill_model(s[0], cc, wi, hi) + fill_model(s[1], cc, wi, hi)
        + fill_model(s[2], cc, wi, hi) + fill_model(s[3], cc, wi, hi)));
}

fn push_control_box(
    out: &mut Vec<PaintCommand>,
    rect: LayoutRect,
    focused: bool,
    background: Rgba8,
    w: u32,
    h: u32,
)
    requires
        w <= i32::MAX,
        h <= i32::MAX,
        in_i32(rect.x.0 + rect.width.0),
        in_i32(rect.x.0 + rect.width.0 - 1),
        in_i32(rect.y.0 + rect.height.0),
        in_i32(rect.y.0 + rect.height.0 - 1),
        in_i32(rect.x.0 - 2) && in_i32(rect.y.0 - 2),
        in_i32(rect.width.0 + 4) && in_i32(rect.height.0 + 4),
        in_i32(rect.x.0 - 2 + (rect.width.0 + 4)) && in_i32(rect.x.0 - 2 + (rect.width.0 + 4) - 1),
        in_i32(rect.y.0 - 2 + (rect.height.0 + 4)) && in_i32(rect.y.0 - 2 + (rect.height.0 + 4) - 1),
    ensures
        commands_view(final(out)@) == commands_view(old(out)@) + control_box_model(
            rect,
            focused,
            background.channels(),
            w as int,
            h as int,
        ),
{
    let ghost before = commands_view(out@);
    let ghost wi = w as int;
    let ghost hi = h as int;
    push_fill(out, rect, background, w, h);
    let border = color((90, 96, 108));
    push_outline(out, rect, border, w, h);
    if focused {
        let ring = LayoutRect {
            x: CssPx(rect.x.0 - 2),
            y: CssPx(rect.y.0 - 2),
            width: CssPx(rect.width.0 + 4),
            height: CssPx(rect.height.0 + 4),
        };
        assert(ring == ring_rect(rect));
        push_outline(out, ring, color((40, 102, 220)), w, h);
        assert(commands_view(out@) =~= before + (fill_model(rect, background.channels(), wi, hi)
            + outline_model(rect, control_border(), wi, hi) + outline_model(ring_rect(rect), focus_ring(), wi, hi)));
    } else {
        assert(commands_view(out@) =~= before + (fill_model(rect, background.channels(), wi, hi)
            + outline_model(rect, control_border(), wi, hi) + Seq::<PaintModel>::empty()));
    }
}

fn push_target(
    out: &mut Vec<PaintCommand>,
    t: &Target,
    state: &InteractionState,
    scroll: ScrollOffset,
    w: u32,
    h: u32,
)
    requires
        w <= i32::MAX,
        h <= i32::MAX,
        state.wf(),
        target_fits(*t, scroll),
    ensures
        commands_view(final(out)@) == commands_view(old(out)@) + target_model(
            *t,
            state.spec_values(),
            state.spec_focused(),
            scroll,
            w as int,
            h as int,
        ),
{
    let ghost before = commands_view(out@);
    let ghost wi = w as int;
    let ghost hi = h as int;
    let rect = LayoutRect {
        x: CssPx(t.rect.x.0 - scroll.x),
        y: CssPx(t.rect.y.0 - scroll.y),
        width: t.rect.width,
        height: t.rect.height,
    };
    assert(rect == scrolled(t.rect, scroll));
    let focused = match state.focused_node() {
        Some(n) => n == t.node,
        None => false,
    };
    assert(focused == (state.spec_focused() == Some(t.node)));
    match &t.kind {
        TargetKind::TextInput { .. } => {
            push_control_box(out, rect, focused, color((255, 255, 255)), w, h);
            let ghost mid = commands_view(out@);
            match state.text_value(t.node) {
                Some(value) => {
                    let room: i32 = if rect.width.0 - 8 > 0 { rect.width.0 - 8 } else { 0 };
                    let available = (room / 6) as usize;
                    let visible = tail_characters(value, available);
                    out.push(
                        PaintCommand::Text {
                            text: visible,
                            x: rect.x.0 + 4,
                            baseline: rect.y.0 + 15,
                            color: color((18, 23, 33)),
                        },
                    );
                    proof {
                        let v = lookup(state.spec_values(), t.node);
                        assert(v matches Some(ControlValue::Text(s)) && s@ == value@);
                        assert(commands_view(out@) =~= mid + seq![
                            PaintModel::Text(
                                tail_of(value@, fitting_chars(rect.width.0 as int, 8)),
                                rect.x.0 + 4,
                                rect.y.0 + 15,
                                control_text(),
                            ),
                        ]);
                    }
                },
                None => {
                    assert(mid + Seq::<PaintModel>::empty() =~= mid);
                },
            }
        },
        TargetKind::Checkbox => {
            push_control_box(out, rect, focused, color((255, 255, 255)), w, h);
            let ghost mid = commands_view(out@);
            if state.checkbox_checked(t.node) == Some(true) {
                let mut mark = String::new();
                crate::text_util::string_push(&mut mark, 'x');
                out.push(
                    PaintCommand::Text {
                        text: mark,
                        x: rect.x.0 + 6,
                        baseline: rect.y.0 + 14,
                        color: color((32, 89, 190)),
                    },
                );
                assert(commands_view(out@) =~= mid + seq![
                    PaintModel::Text(seq!['x'], rect.x.0 + 6, rect.y.0 + 14, check_mark()),
                ]);
            } else {
                assert(mid + Seq::<PaintModel>::empty() =~= mid);
            }
        },
        TargetKind::Button { .. } => {
            push_control_box(out, rect, focused, color((232, 235, 240)), w, h);
            let ghost mid = commands_view(out@);
            let room: i32 = if rect.width.0 - 12 > 0 { rect.width.0 - 12 } else { 0 };
            let available = (room / 6) as usize;
            let label = first_characters(t.label.as_str(), available);
            out.push(
                PaintCommand::Text {
                    text: label,
                    x: rect.x.0 + 6,
                    baseline: rect.y.0 + 15,
                    color: color((18, 23, 33)),
                },
            );
            assert(commands_view(out@) =~= mid + seq![
                PaintModel::Text(
                    t.label@.take(
                        if fitting_chars(rect.width.0 as int, 12) < t.label@.len() {
                            fitting_chars(rect.width.0 as int, 12)
                        } else {
                            t.label@.len() as int
                        },
                    ),
                    rect.x.0 + 6,
                    rect.y.0 + 15,
                    control_text(),
                ),
            ]);
        },
        TargetKind::Link(_) => {
            if focused {
                push_outline(out, rect, color((40, 102, 220)), w, h);
            } else {
                assert(before + Seq::<PaintModel>::empty() =~= before);
            }
        },
    }
}

/// The paint commands of the interaction layer for `state` in `view`: each
/// target in order, moved by the clamped scroll offset and clipped to the
/// viewport; text runs are left to the pixel font.
pub fn control_overlay(view: &InteractionView, state: &InteractionState) -> (r: Vec<PaintCommand>)
    requires
        state.wf(),
        view.scroll_tree.wf(),
        forall|i: int|
            0 <= i < view.targets@.len() ==> target_fits(
                #[trigger] view.targets@[i],
                spec_clamp(view.scroll_tree, state.spec_scroll()),
            ),
    ensures
        commands_view(r@) == spec_control_overlay(*view, *state),
{
    let scroll = view.scroll_tree.clamp(state.scroll_offset());
    let (w, h) = view.scroll_tree.viewport();
    let ghost wi = w as int;
    let ghost hi = h as int;
    assert(scroll == spec_clamp(view.scroll_tree, state.spec_scroll()));
    let mut out: Vec<PaintCommand> = Vec::new();
    let mut i: usize = 0;
    assert(commands_view(out@) =~= Seq::<PaintModel>::empty());
    while i < view.targets.len()
        invariant
            i <= view.targets@.len(),
            w <= i32::MAX,
            h <= i32::MAX,
            wi == w,
            hi == h,
            state.wf(),
            forall|k: int| 0 <= k < view.targets@.len() ==> target_fits(#[trigger] view.targets@[k], scroll),
            commands_view(out@) == targets_model(
                view.targets@,
                state.spec_values(),
                state.spec_focused(),
                scroll,
                wi,
                hi,
                i as int,
            ),
        decreases view.targets@.len() - i,
    {
        push_target(&mut out, &view.targets[i], state, scroll, w, h);
        i += 1;
    }
    out
}

} // verus!
