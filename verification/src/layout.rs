//! Integer CSS box geometry: margins, widths, flex distribution, and
//! justification offsets.
use vstd::prelude::*;

verus! {

/// Integer CSS pixel used by deterministic layout snapshots.
#[derive(Clone, Copy, Debug, Default, PartialEq, Eq, Structural, PartialOrd, Ord)]
pub struct CssPx(pub i32);

impl CssPx {
    /// Clamps negative values to zero.
    pub fn max_zero(self) -> (r: CssPx)
        ensures
            r.0 == (if self.0 < 0 { 0 } else { self.0 }),
    {
        CssPx(if self.0 < 0 { 0 } else { self.0 })
    }
}

/// Four physical edges in top/right/bottom/left order.
#[derive(Clone, Copy, Debug, Default, PartialEq, Eq, Structural)]
pub struct EdgeSizes {
    pub top: CssPx,
    pub right: CssPx,
    pub bottom: CssPx,
    pub left: CssPx,
}

/// Pixel-aligned layout rectangle.
#[derive(Clone, Copy, Debug, Default, PartialEq, Eq, Structural)]
pub struct LayoutRect {
    pub x: CssPx,
    pub y: CssPx,
    pub width: CssPx,
    pub height: CssPx,
}

/// Viewport passed to the layout stage.
#[derive(Clone, Copy, Debug, PartialEq, Eq, Structural)]
pub struct LayoutViewport {
    pub width: CssPx,
    pub height: CssPx,
}

impl LayoutViewport {
    /// Creates a viewport; each side must fit in `i32`.
    pub fn new(width: u32, height: u32) -> (r: LayoutViewport)
        requires
            width <= i32::MAX,
            height <= i32::MAX,
        ensures
            r.width.0 == width,
            r.height.0 == height,
    {
        LayoutViewport { width: CssPx(width as i32), height: CssPx(height as i32) }
    }
}

/// Overflow facts produced by vertical flow.
#[derive(Clone, Copy, Debug, Default, PartialEq, Eq, Structural)]
pub struct OverflowMetadata {
    pub horizontal: bool,
    pub vertical: bool,
    pub scroll_width: CssPx,
    pub scroll_height: CssPx,
}

/// The collapsed gap between two adjacent block margins.
pub open spec fn spec_collapse_margins(first: int, second: int) -> int {
    if first >= 0 && second >= 0 {
        if first >= second {
            first
        } else {
            second
        }
    } else if first <= 0 && second <= 0 {
        if first <= second {
            first
        } else {
            second
        }
    } else {
        first + second
    }
}

/// Collapses two adjacent block sibling margins: the larger of two positive
/// margins, the more negative of two negative margins, otherwise their sum.
pub fn collapse_margins(first: CssPx, second: CssPx) -> (r: CssPx)
    ensures
        r.0 == spec_collapse_margins(first.0 as int, second.0 as int),
{
    if first.0 >= 0 && second.0 >= 0 {
        if first.0 >= second.0 {
            first
        } else {
            second
        }
    } else if first.0 <= 0 && second.0 <= 0 {
        if first.0 <= second.0 {
            first
        } else {
            second
        }
    } else {
        CssPx(first.0 + second.0)
    }
}

/// Margin collapsing does not depend on which sibling comes first.
pub proof fn law_collapse_margins_symmetric(a: int, b: int)
    ensures
        spec_collapse_margins(a, b) == spec_collapse_margins(b, a),
{
}

/// Collapsing never produces a gap larger than the larger margin, nor smaller
/// than the smaller one, when both margins have the same sign.
pub proof fn law_collapse_margins_same_sign_bounds(a: int, b: int)
    requires
        (a >= 0 && b >= 0) || (a <= 0 && b <= 0),
    ensures
        spec_collapse_margins(a, b) == a || spec_collapse_margins(a, b) == b,
{
}

/// A margin or width that may be `auto`.
#[derive(Clone, Copy, Debug, PartialEq, Eq, Structural)]
pub enum AutoLength {
    Auto,
    Length(CssPx),
}

/// Which box a specified width or height measures.
#[derive(Clone, Copy, Debug, PartialEq, Eq, Structural)]
pub enum BoxSizing {
    ContentBox,
    BorderBox,
}

pub open spec fn spec_auto_to_zero(value: AutoLength) -> int {
    match value {
        AutoLength::Auto => 0,
        AutoLength::Length(v) => v.0 as int,
    }
}

/// Resolves an `auto` length to zero.
pub fn auto_to_zero(value: AutoLength) -> (r: CssPx)
    ensures
        r.0 == spec_auto_to_zero(value),
{
    match value {
        AutoLength::Auto => CssPx(0),
        AutoLength::Length(v) => v,
    }
}

pub open spec fn clamp_zero(v: int) -> int {
    if v < 0 {
        0
    } else {
        v
    }
}

/// Used content width and horizontal margins of one block box.
#[derive(Clone, Copy, Debug, PartialEq, Eq, Structural)]
pub struct WidthSolution {
    pub content_width: CssPx,
    pub margin_left: CssPx,
    pub margin_right: CssPx,
}

pub open spec fn spec_solved_content_width(
    containing_width: int,
    specified: Option<CssPx>,
    box_sizing: BoxSizing,
    non_content: int,
    margin_left: AutoLength,
    margin_right: AutoLength,
) -> int {
    match specified {
        None => clamp_zero(
            containing_width - spec_auto_to_zero(margin_left) - spec_auto_to_zero(margin_right)
                - non_content,
        ),
        Some(w) => match box_sizing {
            BoxSizing::ContentBox => clamp_zero(w.0 as int),
            BoxSizing::BorderBox => clamp_zero(w.0 - non_content),
        },
    }
}

pub open spec fn in_i32(v: int) -> bool {
    i32::MIN <= v <= i32::MAX
}

/// Every intermediate of the width equation stays inside `i32`.
pub open spec fn width_inputs_fit(
    containing_width: int,
    specified: Option<CssPx>,
    box_sizing: BoxSizing,
    non_content: int,
    margin_left: AutoLength,
    margin_right: AutoLength,
) -> bool {
    let l = spec_auto_to_zero(margin_left);
    let r = spec_auto_to_zero(margin_right);
    match specified {
        None => {
            &&& in_i32(containing_width - l)
            &&& in_i32(containing_width - l - r)
            &&& in_i32(containing_width - l - r - non_content)
        },
        Some(w) => {
            let content = spec_solved_content_width(
                containing_width,
                specified,
                box_sizing,
                non_content,
                margin_left,
                margin_right,
            );
            let remaining = containing_width - non_content - content - l - r;
            &&& (box_sizing == BoxSizing::BorderBox ==> in_i32(w.0 - non_content))
            &&& in_i32(containing_width - non_content)
            &&& in_i32(containing_width - non_content - content)
            &&& in_i32(containing_width - non_content - content - l)
            &&& in_i32(remaining)
            &&& (margin_left is Length && margin_right is Length ==> in_i32(r + remaining))
        },
    }
}

/// The width equation's solution as a value.
pub open spec fn spec_solve_width(
    containing_width: int,
    specified: Option<CssPx>,
    box_sizing: BoxSizing,
    non_content: int,
    margin_left: AutoLength,
    margin_right: AutoLength,
) -> WidthSolution {
    let l = spec_auto_to_zero(margin_left);
    let r = spec_auto_to_zero(margin_right);
    let content = spec_solved_content_width(
        containing_width,
        specified,
        box_sizing,
        non_content,
        margin_left,
        margin_right,
    );
    if specified is None {
        WidthSolution {
            content_width: CssPx(content as i32),
            margin_left: CssPx(l as i32),
            margin_right: CssPx(r as i32),
        }
    } else {
        let remaining = containing_width - non_content - content - l - r;
        let (used_l, used_r) = match (margin_left, margin_right) {
            (AutoLength::Auto, AutoLength::Auto) => {
                let half = spec_trunc_div(remaining, 2);
                (half, remaining - half)
            },
            (AutoLength::Auto, AutoLength::Length(_)) => (remaining, r),
            (AutoLength::Length(_), AutoLength::Auto) => (l, remaining),
            (AutoLength::Length(_), AutoLength::Length(_)) => (l, r + remaining),
        };
        WidthSolution {
            content_width: CssPx(content as i32),
            margin_left: CssPx(used_l as i32),
            margin_right: CssPx(used_r as i32),
        }
    }
}

/// Solves the horizontal box equation for one block: `auto` width fills the
/// containing block; a specified width leaves the remaining space to the
/// `auto` margins (split evenly, left rounded toward zero), or to the right
/// margin when neither is `auto`.
pub fn solve_width(
    containing_width: CssPx,
    specified_sizing_box: Option<CssPx>,
    box_sizing: BoxSizing,
    non_content: i32,
    margin_left: AutoLength,
    margin_right: AutoLength,
) -> (r: WidthSolution)
    requires
        width_inputs_fit(
            containing_width.0 as int,
            specified_sizing_box,
            box_sizing,
            non_content as int,
            margin_left,
            margin_right,
        ),
    ensures
        r == spec_solve_width(
            containing_width.0 as int,
            specified_sizing_box,
            box_sizing,
            non_content as int,
            margin_left,
            margin_right,
        ),
        r.content_width.0 == spec_solved_content_width(
            containing_width.0 as int,
            specified_sizing_box,
            box_sizing,
            non_content as int,
            margin_left,
            margin_right,
        ),
        specified_sizing_box is None ==> r.margin_left.0 == spec_auto_to_zero(margin_left)
            && r.margin_right.0 == spec_auto_to_zero(margin_right),
        specified_sizing_box is Some ==> r.margin_left.0 + r.margin_right.0 + r.content_width.0
            + non_content == containing_width.0,
        specified_sizing_box is Some && margin_left is Length ==> r.margin_left.0
            == spec_auto_to_zero(margin_left),
        specified_sizing_box is Some && margin_left is Auto && margin_right is Length
            ==> r.margin_right.0 == spec_auto_to_zero(margin_right),
        specified_sizing_box is Some && margin_left is Auto && margin_right is Auto ==> {
            let remaining = containing_width.0 - non_content - r.content_width.0;
            &&& r.margin_left.0 == (if remaining >= 0 {
                remaining / 2
            } else {
                -((-remaining) / 2)
            })
        },
{
    let fixed_left = auto_to_zero(margin_left);
    let fixed_right = auto_to_zero(margin_right);
    let content_width = match specified_sizing_box {
        None => CssPx(containing_width.0 - fixed_left.0 - fixed_right.0 - non_content).max_zero(),
        Some(width) => match box_sizing {
            BoxSizing::ContentBox => width.max_zero(),
            BoxSizing::BorderBox => CssPx(width.0 - non_content).max_zero(),
        },
    };
    if specified_sizing_box.is_none() {
        return WidthSolution { content_width, margin_left: fixed_left, margin_right: fixed_right };
    }
    let remaining = containing_width.0 - non_content - content_width.0 - fixed_left.0
        - fixed_right.0;
    let (used_left, used_right) = match (margin_left, margin_right) {
        (AutoLength::Auto, AutoLength::Auto) => {
            let left = trunc_div_i32(remaining, 2);
            (CssPx(left), CssPx(remaining - left))
        },
        (AutoLength::Auto, AutoLength::Length(right)) => (CssPx(remaining), right),
        (AutoLength::Length(left), AutoLength::Auto) => (left, CssPx(remaining)),
        (AutoLength::Length(left), AutoLength::Length(right)) => (
            left,
            CssPx(right.0 + remaining),
        ),
    };
    WidthSolution { content_width, margin_left: used_left, margin_right: used_right }
}

/// Integer division rounding toward zero, as Rust's `/` does.
pub open spec fn spec_trunc_div(n: int, d: int) -> int {
    if n >= 0 {
        n / d
    } else {
        -((-n) / d)
    }
}

/// Rust's truncating `/` on `i32` for a positive divisor.
pub fn trunc_div_i32(n: i32, d: i32) -> (r: i32)
    requires
        d > 0,
    ensures
        r == spec_trunc_div(n as int, d as int),
{
    proof {
        lemma_trunc_div_bounded(n as int, d as int);
    }
    trunc_div_i64(n as i64, d as i64) as i32
}

/// Rust's truncating `/` on `i64` for a positive divisor.
pub fn trunc_div_i64(n: i64, d: i64) -> (r: i64)
    requires
        d > 0,
    ensures
        r == spec_trunc_div(n as int, d as int),
{
    if n >= 0 {
        n / d
    } else {
        let m: i128 = -(n as i128);
        let q: i128 = m / (d as i128);
        assert(q <= m);
        (-q) as i64
    }
}

/// `i64::saturating_mul` as a mathematical function.
pub open spec fn sat_i64(v: int) -> int {
    if v > i64::MAX {
        i64::MAX as int
    } else if v < i64::MIN {
        i64::MIN as int
    } else {
        v
    }
}

pub open spec fn clamp_i32_nonneg(v: int) -> int {
    if v < 0 {
        0
    } else if v > i32::MAX {
        i32::MAX as int
    } else {
        v
    }
}

pub open spec fn sum_i64(s: Seq<i64>) -> int
    decreases s.len(),
{
    if s.len() == 0 {
        0
    } else {
        sum_i64(s.drop_last()) + s.last()
    }
}

pub open spec fn sum_px(s: Seq<CssPx>) -> int
    decreases s.len(),
{
    if s.len() == 0 {
        0
    } else {
        sum_px(s.drop_last()) + s.last().0
    }
}

pub open spec fn abs_int(v: int) -> int {
    if v < 0 {
        -v
    } else {
        v
    }
}

/// The share of the free space that item `i` receives before the sign is
/// applied; `remaining` is what is left once items before `i` took theirs.
pub open spec fn flex_share(weights: Seq<i64>, total: int, magnitude: int, i: int) -> int
    decreases i, 1int,
{
    if i + 1 == weights.len() {
        flex_remaining(weights, total, magnitude, i)
    } else {
        spec_trunc_div(sat_i64(magnitude * weights[i]), total)
    }
}

pub open spec fn flex_remaining(weights: Seq<i64>, total: int, magnitude: int, i: int) -> int
    decreases i, 0int,
{
    if i <= 0 {
        magnitude
    } else {
        sat_i64(
            flex_remaining(weights, total, magnitude, i - 1) - flex_share(
                weights,
                total,
                magnitude,
                i - 1,
            ),
        )
    }
}

/// The size that the flex algorithm assigns to item `i`.
pub open spec fn spec_flex_size(
    bases: Seq<CssPx>,
    grows: Seq<i64>,
    shrink_weights: Seq<i64>,
    free: int,
    i: int,
) -> int {
    let weights = if free >= 0 {
        grows
    } else {
        shrink_weights
    };
    let total = sum_i64(weights);
    if total <= 0 || free == 0 {
        bases[i].0 as int
    } else {
        let share = flex_share(weights, total, abs_int(free), i);
        let signed = if free >= 0 {
            share
        } else {
            -share
        };
        clamp_i32_nonneg(sat_i64(bases[i].0 + signed))
    }
}

pub open spec fn flex_weights(grows: Seq<i64>, shrink_weights: Seq<i64>, free: int) -> Seq<i64> {
    if free >= 0 {
        grows
    } else {
        shrink_weights
    }
}

/// The inputs on which the flex distribution runs without overflow: the
/// three sequences have one entry per item, every running sum of the
/// selected weights fits in `i64`, and shrink weights are not negative.
pub open spec fn flex_inputs_ok(
    bases: Seq<CssPx>,
    grows: Seq<i64>,
    shrink_weights: Seq<i64>,
    free: int,
) -> bool {
    &&& bases.len() == grows.len()
    &&& bases.len() == shrink_weights.len()
    &&& forall|k: int|
        0 <= k <= bases.len() ==> i64::MIN <= #[trigger] sum_i64(
            flex_weights(grows, shrink_weights, free).take(k),
        ) <= i64::MAX
    &&& free < 0 ==> forall|i: int| 0 <= i < shrink_weights.len() ==> shrink_weights[i] >= 0
}

proof fn lemma_sum_i64_take(s: Seq<i64>, i: int)
    requires
        0 <= i < s.len(),
    ensures
        sum_i64(s.take(i + 1)) == sum_i64(s.take(i)) + s[i],
{
    assert(s.take(i + 1).drop_last() =~= s.take(i));
}

proof fn lemma_sum_px_take(s: Seq<CssPx>, i: int)
    requires
        0 <= i < s.len(),
    ensures
        sum_px(s.take(i + 1)) == sum_px(s.take(i)) + s[i].0,
{
    assert(s.take(i + 1).drop_last() =~= s.take(i));
}

proof fn lemma_sum_i64_prefix_le(s: Seq<i64>, k: int)
    requires
        0 <= k <= s.len(),
        forall|i: int| 0 <= i < s.len() ==> s[i] >= 0,
    ensures
        0 <= sum_i64(s.take(k)) <= sum_i64(s),
    decreases s.len() - k,
{
    if k == s.len() {
        assert(s.take(k) =~= s);
        lemma_sum_i64_nonneg(s);
    } else {
        lemma_sum_i64_prefix_le(s, k + 1);
        lemma_sum_i64_take(s, k);
        assert(forall|i: int| 0 <= i < s.take(k).len() ==> s.take(k)[i] >= 0);
        lemma_sum_i64_nonneg(s.take(k));
    }
}

proof fn lemma_sum_i64_nonneg(s: Seq<i64>)
    requires
        forall|i: int| 0 <= i < s.len() ==> s[i] >= 0,
    ensures
        sum_i64(s) >= 0,
    decreases s.len(),
{
    if s.len() > 0 {
        lemma_sum_i64_nonneg(s.drop_last());
    }
}

proof fn lemma_share_step(m: int, t: int, w: int, partial: int, rem: int, s: int)
    by (nonlinear_arith)
    requires
        t > 0,
        m >= 0,
        w >= 0,
        0 <= rem <= m,
        (m - rem) * t <= m * partial,
        partial + w <= t,
        s >= 0,
        s * t <= m * w,
    ensures
        s <= rem,
        (m - (rem - s)) * t <= m * (partial + w),
{
    assert(m * partial + m * w == m * (partial + w));
    assert(m * (partial + w) <= m * t);
}

proof fn lemma_floor_share(m: int, w: int, t: int)
    by (nonlinear_arith)
    requires
        t > 0,
        m >= 0,
        w >= 0,
    ensures
        sat_i64(m * w) / t >= 0,
        (sat_i64(m * w) / t) * t <= m * w,
{
    let a = sat_i64(m * w);
    assert(0 <= a <= m * w);
    assert((a / t) * t <= a);
}

/// `i64::saturating_mul`.
pub fn saturating_mul_i64(a: i64, b: i64) -> (r: i64)
    ensures
        r == sat_i64(a * b),
{
    assert(-0x8000_0000_0000_0000_0000_0000_0000_0000 < (a as i128) * (b as i128)
        < 0x7fff_ffff_ffff_ffff_ffff_ffff_ffff_ffff) by (nonlinear_arith)
        requires
            i64::MIN <= a <= i64::MAX,
            i64::MIN <= b <= i64::MAX,
    ;
    let p: i128 = (a as i128) * (b as i128);
    if p > i64::MAX as i128 {
        i64::MAX
    } else if p < i64::MIN as i128 {
        i64::MIN
    } else {
        p as i64
    }
}

/// `i64::saturating_add`.
pub fn saturating_add_i64(a: i64, b: i64) -> (r: i64)
    ensures
        r == sat_i64(a + b),
{
    let p: i128 = (a as i128) + (b as i128);
    if p > i64::MAX as i128 {
        i64::MAX
    } else if p < i64::MIN as i128 {
        i64::MIN
    } else {
        p as i64
    }
}

/// `i64::saturating_sub`.
pub fn saturating_sub_i64(a: i64, b: i64) -> (r: i64)
    ensures
        r == sat_i64(a - b),
{
    let p: i128 = (a as i128) - (b as i128);
    if p > i64::MAX as i128 {
        i64::MAX
    } else if p < i64::MIN as i128 {
        i64::MIN
    } else {
        p as i64
    }
}

/// Distributes positive free space by `grows` or negative free space by
/// `shrink_weights`; every item but the last receives its weighted share
/// (rounded toward zero) and the last item absorbs the remainder. Sizes are
/// clamped to `0..=i32::MAX`.
pub fn distribute_flex_space(
    bases: &[CssPx],
    grows: &[i64],
    shrink_weights: &[i64],
    free: i32,
) -> (out: Vec<CssPx>)
    requires
        flex_inputs_ok(bases@, grows@, shrink_weights@, free as int),
    ensures
        out.len() == bases.len(),
        forall|i: int|
            0 <= i < bases.len() ==> #[trigger] out@[i].0 == spec_flex_size(
                bases@,
                grows@,
                shrink_weights@,
                free as int,
                i,
            ),
{
    let weights = if free >= 0 {
        grows
    } else {
        shrink_weights
    };
    let ghost wv = weights@;
    assert(wv == flex_weights(grows@, shrink_weights@, free as int));
    let mut total: i64 = 0;
    let mut k: usize = 0;
    while k < weights.len()
        invariant
            weights@ == wv,
            wv == flex_weights(grows@, shrink_weights@, free as int),
            flex_inputs_ok(bases@, grows@, shrink_weights@, free as int),
            k <= weights.len(),
            total == sum_i64(wv.take(k as int)),
        decreases weights.len() - k,
    {
        proof {
            lemma_sum_i64_take(wv, k as int);
            assert(i64::MIN <= sum_i64(wv.take(k + 1)) <= i64::MAX);
        }
        total = total + weights[k];
        k += 1;
    }
    proof {
        assert(wv.take(wv.len() as int) =~= wv);
    }
    if total <= 0 || free == 0 {
        let mut out: Vec<CssPx> = Vec::new();
        let mut j: usize = 0;
        while j < bases.len()
            invariant
                j <= bases.len(),
                out.len() == j,
                total == sum_i64(wv),
                wv == flex_weights(grows@, shrink_weights@, free as int),
                total <= 0 || free == 0,
                forall|i: int|
                    0 <= i < j ==> #[trigger] out@[i].0 == spec_flex_size(
                        bases@,
                        grows@,
                        shrink_weights@,
                        free as int,
                        i,
                    ),
            decreases bases.len() - j,
        {
            out.push(bases[j]);
            j += 1;
        }
        return out;
    }
    let magnitude: i64 = if free >= 0 {
        free as i64
    } else {
        -(free as i64)
    };
    let mut remaining: i64 = magnitude;
    let mut out: Vec<CssPx> = Vec::new();
    let mut index: usize = 0;
    assert(wv.take(0) =~= Seq::<i64>::empty());
    while index < bases.len()
        invariant
            index <= bases.len(),
            bases.len() == weights.len(),
            weights@ == wv,
            wv == flex_weights(grows@, shrink_weights@, free as int),
            flex_inputs_ok(bases@, grows@, shrink_weights@, free as int),
            total == sum_i64(wv),
            total > 0,
            free != 0,
            magnitude == abs_int(free as int),
            out.len() == index,
            remaining == flex_remaining(wv, total as int, magnitude as int, index as int),
            forall|i: int|
                0 <= i < index ==> #[trigger] out@[i].0 == spec_flex_size(
                    bases@,
                    grows@,
                    shrink_weights@,
                    free as int,
                    i,
                ),
            free < 0 ==> 0 <= remaining <= magnitude,
            free < 0 ==> (magnitude - remaining) * total <= magnitude * sum_i64(
                wv.take(index as int),
            ),
        decreases bases.len() - index,
    {
        let share: i64 = if index + 1 == bases.len() {
            remaining
        } else {
            trunc_div_i64(saturating_mul_i64(magnitude, weights[index]), total)
        };
        assert(share == flex_share(wv, total as int, magnitude as int, index as int));
        proof {
            if free < 0 {
                lemma_sum_i64_prefix_le(wv, index + 1);
                lemma_sum_i64_take(wv, index as int);
                if index + 1 != bases.len() {
                    lemma_floor_share(magnitude as int, wv[index as int] as int, total as int);
                    lemma_share_step(
                        magnitude as int,
                        total as int,
                        wv[index as int] as int,
                        sum_i64(wv.take(index as int)),
                        remaining as int,
                        share as int,
                    );
                } else {
                    assert((magnitude - 0) * total <= magnitude * sum_i64(wv.take(index + 1)))
                        by (nonlinear_arith)
                        requires
                            sum_i64(wv.take(index + 1)) == total,
                            total > 0,
                            magnitude >= 0,
                    ;
                }
            }
        }
        let next_remaining = saturating_sub_i64(remaining, share);
        assert(next_remaining == flex_remaining(
            wv,
            total as int,
            magnitude as int,
            index + 1,
        ));
        remaining = next_remaining;
        let signed: i64 = if free >= 0 {
            share
        } else {
            -share
        };
        let sum: i64 = saturating_add_i64(bases[index].0 as i64, signed);
        let clamped: i32 = if sum < 0 {
            0
        } else if sum > i32::MAX as i64 {
            i32::MAX
        } else {
            sum as i32
        };
        out.push(CssPx(clamped));
        index += 1;
    }
    out
}

} // verus!

verus! {

/// Sum of the shares of the first `i` items.
pub open spec fn share_sum(weights: Seq<i64>, total: int, magnitude: int, i: int) -> int
    decreases i,
{
    if i <= 0 {
        0
    } else {
        share_sum(weights, total, magnitude, i - 1) + flex_share(weights, total, magnitude, i - 1)
    }
}

proof fn lemma_flex_remaining_tracks(weights: Seq<i64>, total: int, magnitude: int, i: int)
    requires
        0 <= i < weights.len(),
        total == sum_i64(weights),
        total > 0,
        0 <= magnitude <= i64::MAX,
        forall|k: int| 0 <= k < weights.len() ==> weights[k] >= 0,
        forall|k: int| 0 <= k < weights.len() ==> #[trigger] (magnitude * weights[k]) <= i64::MAX,
    ensures
        0 <= flex_remaining(weights, total, magnitude, i) <= magnitude,
        flex_remaining(weights, total, magnitude, i) * total >= magnitude * (total - sum_i64(
            weights.take(i),
        )),
        flex_remaining(weights, total, magnitude, i) == magnitude - share_sum(
            weights,
            total,
            magnitude,
            i,
        ),
    decreases i,
{
    if i > 0 {
        let j = i - 1;
        lemma_flex_remaining_tracks(weights, total, magnitude, j);
        let r = flex_remaining(weights, total, magnitude, j);
        let w = weights[j] as int;
        let p = magnitude * w;
        assert(p >= 0) by (nonlinear_arith)
            requires
                magnitude >= 0,
                w >= 0,
                p == magnitude * w,
        ;
        assert(magnitude * weights[j] <= i64::MAX);
        let share = p / total;
        assert(flex_share(weights, total, magnitude, j) == share);
        assert(0 <= share && share * total <= p) by (nonlinear_arith)
            requires
                p >= 0,
                total > 0,
                share == p / total,
        ;
        assert(share <= p) by (nonlinear_arith)
            requires
                p >= 0,
                total > 0,
                share >= 0,
                share * total <= p,
        ;
        lemma_sum_i64_take(weights, j);
        lemma_sum_i64_prefix_le(weights, i);
        let wj = sum_i64(weights.take(j));
        assert((r - share) * total >= magnitude * (total - (wj + w))) by (nonlinear_arith)
            requires
                r * total >= magnitude * (total - wj),
                share * total <= p,
                p == magnitude * w,
        ;
        assert(magnitude * (total - (wj + w)) >= 0) by (nonlinear_arith)
            requires
                magnitude >= 0,
                wj + w <= total,
        ;
        assert(r - share >= 0) by (nonlinear_arith)
            requires
                (r - share) * total >= 0,
                total > 0,
        ;
    }
}

/// When the selected weights are not negative and no weighted share
/// saturates, the shares handed out add up to exactly the free space: the
/// last item absorbs what rounding left over.
pub proof fn law_flex_shares_sum_to_free_space(weights: Seq<i64>, magnitude: int)
    requires
        weights.len() > 0,
        sum_i64(weights) > 0,
        0 <= magnitude <= i64::MAX,
        forall|k: int| 0 <= k < weights.len() ==> weights[k] >= 0,
        forall|k: int| 0 <= k < weights.len() ==> #[trigger] (magnitude * weights[k]) <= i64::MAX,
    ensures
        share_sum(weights, sum_i64(weights), magnitude, weights.len() as int) == magnitude,
{
    let n = weights.len() as int;
    let total = sum_i64(weights);
    lemma_flex_remaining_tracks(weights, total, magnitude, n - 1);
    assert(flex_share(weights, total, magnitude, n - 1) == flex_remaining(
        weights,
        total,
        magnitude,
        n - 1,
    ));
}

} // verus!

verus! {

/// Start offset and extra gap that `justify-content` gives `count` items
/// sharing `remaining` free pixels.
pub open spec fn spec_justify_offsets(value: Seq<char>, remaining: int, count: int) -> (int, int) {
    if count == 0 {
        (0, 0)
    } else if value == "flex-end"@ {
        (remaining, 0)
    } else if value == "center"@ {
        (spec_trunc_div(remaining, 2), 0)
    } else if value == "space-between"@ && count > 1 {
        (0, spec_trunc_div(remaining, count - 1))
    } else if value == "space-around"@ {
        let spacing = spec_trunc_div(remaining, count);
        (spec_trunc_div(spacing, 2), spacing)
    } else if value == "space-evenly"@ {
        let spacing = spec_trunc_div(remaining, count + 1);
        (spacing, spacing)
    } else {
        (0, 0)
    }
}

proof fn lemma_trunc_div_bounded(n: int, d: int)
    requires
        d >= 1,
    ensures
        n >= 0 ==> 0 <= spec_trunc_div(n, d) <= n,
        n < 0 ==> n <= spec_trunc_div(n, d) <= 0,
{
    if n >= 0 {
        assert(n / d <= n) by (nonlinear_arith)
            requires
                n >= 0,
                d >= 1,
        ;
    } else {
        assert((-n) / d <= -n) by (nonlinear_arith)
            requires
                -n > 0,
                d >= 1,
        ;
    }
}

/// The start offset and the extra gap between items for a `justify-content`
/// keyword; unknown keywords pack items at the start.
pub fn justify_offsets(value: &str, remaining: i32, count: usize) -> (r: (i32, i32))
    requires
        count < i32::MAX,
    ensures
        r.0 == spec_justify_offsets(value@, remaining as int, count as int).0,
        r.1 == spec_justify_offsets(value@, remaining as int, count as int).1,
{
    if count == 0 {
        return (0, 0);
    }
    let rem: i64 = remaining as i64;
    let n: i64 = count as i64;
    if crate::text_util::str_equal(value, "flex-end") {
        (remaining, 0)
    } else if crate::text_util::str_equal(value, "center") {
        proof { lemma_trunc_div_bounded(rem as int, 2); }
        (trunc_div_i64(rem, 2) as i32, 0)
    } else if crate::text_util::str_equal(value, "space-between") && count > 1 {
        proof { lemma_trunc_div_bounded(rem as int, n - 1); }
        (0, trunc_div_i64(rem, n - 1) as i32)
    } else if crate::text_util::str_equal(value, "space-around") {
        proof { lemma_trunc_div_bounded(rem as int, n as int); }
        let spacing: i64 = trunc_div_i64(rem, n);
        proof { lemma_trunc_div_bounded(spacing as int, 2); }
        (trunc_div_i64(spacing, 2) as i32, spacing as i32)
    } else if crate::text_util::str_equal(value, "space-evenly") {
        proof { lemma_trunc_div_bounded(rem as int, n + 1); }
        let spacing: i64 = trunc_div_i64(rem, n + 1);
        (spacing as i32, spacing as i32)
    } else {
        (0, 0)
    }
}

/// Cross-axis offset that `align-items` gives an item with `free` spare pixels.
pub open spec fn spec_align_offset(value: Seq<char>, free: int) -> int {
    if value == "flex-end"@ {
        free
    } else if value == "center"@ {
        spec_trunc_div(free, 2)
    } else {
        0
    }
}

/// Cross-axis offset of one flex item for an `align-items` keyword.
pub fn align_offset(value: &str, free: i32) -> (r: i32)
    ensures
        r == spec_align_offset(value@, free as int),
{
    if crate::text_util::str_equal(value, "flex-end") {
        free
    } else if crate::text_util::str_equal(value, "center") {
        proof { lemma_trunc_div_bounded(free as int, 2); }
        trunc_div_i64(free as i64, 2) as i32
    } else {
        0
    }
}

/// `v` clamped to the range of `i32`.
pub open spec fn sat_i32(v: int) -> int {
    if v > i32::MAX {
        i32::MAX as int
    } else if v < i32::MIN {
        i32::MIN as int
    } else {
        v
    }
}

/// `i32::saturating_add`.
pub fn saturating_add_i32(a: i32, b: i32) -> (r: i32)
    ensures
        r == sat_i32(a + b),
{
    let wide = (a as i64) + (b as i64);
    if wide > i32::MAX as i64 {
        i32::MAX
    } else if wide < i32::MIN as i64 {
        i32::MIN
    } else {
        wide as i32
    }
}

/// `i32::saturating_mul`.
pub fn saturating_mul_i32(a: i32, b: i32) -> (r: i32)
    ensures
        r == sat_i32(a * b),
{
    let x = a as i64;
    let y = b as i64;
    assert(i64::MIN <= x * y <= i64::MAX) by (nonlinear_arith)
        requires
            i32::MIN <= x <= i32::MAX,
            i32::MIN <= y <= i32::MAX,
    ;
    let wide = x * y;
    if wide > i32::MAX as i64 {
        i32::MAX
    } else if wide < i32::MIN as i64 {
        i32::MIN
    } else {
        wide as i32
    }
}

/// The visiting order of `count` flex items.
pub open spec fn visit_index(count: int, k: int, reverse: bool) -> int {
    if reverse {
        count - 1 - k
    } else {
        k
    }
}

/// Cursor before the `k`-th visited item: each visited item advances the
/// cursor by its outer size, then the gap, then the justification gap, each
/// addition saturating.
pub open spec fn main_cursor(
    sizes: Seq<i32>,
    start: int,
    gap: int,
    extra: int,
    k: int,
    reverse: bool,
) -> int
    decreases k,
{
    if k <= 0 {
        start
    } else {
        let prev = main_cursor(sizes, start, gap, extra, k - 1, reverse);
        let size = sizes[visit_index(sizes.len() as int, k - 1, reverse)];
        sat_i32(sat_i32(sat_i32(prev + size) + gap) + extra)
    }
}

/// Main-axis offsets of flex items within the container's content box, items
/// being visited in order or, for a reversed direction, from the last.
pub fn main_axis_offsets(sizes: &[i32], start: i32, gap: i32, extra: i32, reverse: bool) -> (r: Vec<
    i32,
>)
    ensures
        r@.len() == sizes@.len(),
        forall|k: int|
            0 <= k < sizes@.len() ==> #[trigger] r@[visit_index(sizes@.len() as int, k, reverse)]
                == main_cursor(sizes@, start as int, gap as int, extra as int, k, reverse),
{
    let n = sizes.len();
    let mut r: Vec<i32> = Vec::new();
    let mut j: usize = 0;
    while j < n
        invariant
            n == sizes@.len(),
            j <= n,
            r@.len() == j,
        decreases n - j,
    {
        r.push(0);
        j += 1;
    }
    let mut cursor: i32 = start;
    let mut k: usize = 0;
    while k < n
        invariant
            n == sizes@.len(),
            k <= n,
            r@.len() == n,
            cursor == main_cursor(sizes@, start as int, gap as int, extra as int, k as int, reverse),
            forall|m: int|
                0 <= m < k ==> #[trigger] r@[visit_index(n as int, m, reverse)] == main_cursor(
                    sizes@,
                    start as int,
                    gap as int,
                    extra as int,
                    m,
                    reverse,
                ),
        decreases n - k,
    {
        let index: usize = if reverse { n - 1 - k } else { k };
        r.set(index, cursor);
        assert forall|m: int| 0 <= m < k + 1 implies #[trigger] r@[visit_index(n as int, m, reverse)]
            == main_cursor(sizes@, start as int, gap as int, extra as int, m, reverse) by {
            if m < k {
                assert(visit_index(n as int, m, reverse) != index as int);
            }
        }
        cursor = saturating_add_i32(saturating_add_i32(saturating_add_i32(cursor, sizes[index]), gap), extra);
        k += 1;
    }
    r
}

} // verus!

verus! {

/// The resolved horizontal style of a block box: lengths already resolved
/// against the containing block, `None` widths meaning `auto` / `none`.
#[derive(Clone, Copy, Debug, PartialEq, Eq, Structural)]
pub struct HorizontalStyle {
    pub padding: EdgeSizes,
    pub border: EdgeSizes,
    pub margin_top: AutoLength,
    pub margin_right: AutoLength,
    pub margin_bottom: AutoLength,
    pub margin_left: AutoLength,
    pub box_sizing: BoxSizing,
    pub width: Option<CssPx>,
    pub min_width: CssPx,
    pub max_width: Option<CssPx>,
}

/// Used horizontal geometry of one block box.
#[derive(Clone, Copy, Debug, Default, PartialEq, Eq, Structural)]
pub struct HorizontalUsed {
    pub content_width: CssPx,
    pub margin_top: CssPx,
    pub margin_right: CssPx,
    pub margin_bottom: CssPx,
    pub margin_left: CssPx,
    pub padding: EdgeSizes,
    pub border: EdgeSizes,
}

/// Horizontal padding and border of a style.
pub open spec fn non_content_of(s: HorizontalStyle) -> int {
    s.padding.left.0 + s.padding.right.0 + s.border.left.0 + s.border.right.0
}

/// The sizing box that the first solution gives, then clamped by `max-width`
/// and raised to `min-width`.
pub open spec fn first_solution(s: HorizontalStyle, cw: int) -> WidthSolution {
    spec_solve_width(cw, s.width, s.box_sizing, non_content_of(s), s.margin_left, s.margin_right)
}

pub open spec fn sizing_box_of(s: HorizontalStyle, content: int) -> int {
    match s.box_sizing {
        BoxSizing::ContentBox => content,
        BoxSizing::BorderBox => content + non_content_of(s),
    }
}

pub open spec fn constrained_of(s: HorizontalStyle, current: int) -> int {
    let capped = match s.max_width {
        Some(m) => if current <= m.0 {
            current
        } else {
            m.0 as int
        },
        None => current,
    };
    if capped >= s.min_width.0 {
        capped
    } else {
        s.min_width.0 as int
    }
}

/// Used geometry: the width equation is solved, and solved again for the
/// clamped sizing box when `min-width` or `max-width` changes it.
pub open spec fn spec_resolve_horizontal(style: Option<HorizontalStyle>, cw: int) -> HorizontalUsed {
    match style {
        None => HorizontalUsed {
            content_width: CssPx(cw as i32),
            margin_top: CssPx(0),
            margin_right: CssPx(0),
            margin_bottom: CssPx(0),
            margin_left: CssPx(0),
            padding: EdgeSizes { top: CssPx(0), right: CssPx(0), bottom: CssPx(0), left: CssPx(0) },
            border: EdgeSizes { top: CssPx(0), right: CssPx(0), bottom: CssPx(0), left: CssPx(0) },
        },
        Some(s) => {
            let first = first_solution(s, cw);
            let current = sizing_box_of(s, first.content_width.0 as int);
            let constrained = constrained_of(s, current);
            let solved = if constrained != current {
                spec_solve_width(
                    cw,
                    Some(CssPx(constrained as i32)),
                    s.box_sizing,
                    non_content_of(s),
                    s.margin_left,
                    s.margin_right,
                )
            } else {
                first
            };
            HorizontalUsed {
                content_width: solved.content_width,
                margin_top: CssPx(spec_auto_to_zero(s.margin_top) as i32),
                margin_right: solved.margin_right,
                margin_bottom: CssPx(spec_auto_to_zero(s.margin_bottom) as i32),
                margin_left: solved.margin_left,
                padding: s.padding,
                border: s.border,
            }
        },
    }
}

/// Every intermediate of resolving a style's horizontal geometry stays inside `i32`.
pub open spec fn horizontal_fits(s: HorizontalStyle, cw: int) -> bool {
    let nc = non_content_of(s);
    let first = first_solution(s, cw);
    let current = sizing_box_of(s, first.content_width.0 as int);
    let constrained = constrained_of(s, current);
    &&& in_i32(s.padding.left.0 + s.padding.right.0)
    &&& in_i32(s.padding.left.0 + s.padding.right.0 + s.border.left.0)
    &&& in_i32(nc)
    &&& width_inputs_fit(cw, s.width, s.box_sizing, nc, s.margin_left, s.margin_right)
    &&& in_i32(current)
    &&& (constrained != current ==> width_inputs_fit(
        cw,
        Some(CssPx(constrained as i32)),
        s.box_sizing,
        nc,
        s.margin_left,
        s.margin_right,
    ))
}

/// Resolves the used width, margins, padding and border of a block box for
/// its containing block's width; a box without a style fills the block.
pub fn resolve_horizontal(style: Option<&HorizontalStyle>, containing_width: CssPx) -> (r: HorizontalUsed)
    requires
        style matches Some(s) ==> horizontal_fits(*s, containing_width.0 as int),
    ensures
        r == spec_resolve_horizontal(
            match style {
                Some(s) => Some(*s),
                None => None,
            },
            containing_width.0 as int,
        ),
{
    let s = match style {
        None => {
            return HorizontalUsed {
                content_width: containing_width,
                margin_top: CssPx(0),
                margin_right: CssPx(0),
                margin_bottom: CssPx(0),
                margin_left: CssPx(0),
                padding: EdgeSizes { top: CssPx(0), right: CssPx(0), bottom: CssPx(0), left: CssPx(0) },
                border: EdgeSizes { top: CssPx(0), right: CssPx(0), bottom: CssPx(0), left: CssPx(0) },
            };
        },
        Some(s) => s,
    };
    let non_content = s.padding.left.0 + s.padding.right.0 + s.border.left.0 + s.border.right.0;
    let mut solved = solve_width(
        containing_width,
        s.width,
        s.box_sizing,
        non_content,
        s.margin_left,
        s.margin_right,
    );
    let current_sizing_box = match s.box_sizing {
        BoxSizing::ContentBox => solved.content_width,
        BoxSizing::BorderBox => CssPx(solved.content_width.0 + non_content),
    };
    let capped = match s.max_width {
        Some(m) => if current_sizing_box.0 <= m.0 {
            current_sizing_box.0
        } else {
            m.0
        },
        None => current_sizing_box.0,
    };
    let constrained = CssPx(if capped >= s.min_width.0 { capped } else { s.min_width.0 });
    if constrained.0 != current_sizing_box.0 {
        solved = solve_width(
            containing_width,
            Some(constrained),
            s.box_sizing,
            non_content,
            s.margin_left,
            s.margin_right,
        );
    }
    HorizontalUsed {
        content_width: solved.content_width,
        margin_top: auto_to_zero(s.margin_top),
        margin_right: solved.margin_right,
        margin_bottom: auto_to_zero(s.margin_bottom),
        margin_left: solved.margin_left,
        padding: s.padding,
        border: s.border,
    }
}

} // verus!

verus! {

/// `i32::saturating_sub`.
pub fn saturating_sub_i32(a: i32, b: i32) -> (r: i32)
    ensures
        r == sat_i32(a - b),
{
    let wide = (a as i64) - (b as i64);
    if wide > i32::MAX as i64 {
        i32::MAX
    } else if wide < i32::MIN as i64 {
        i32::MIN
    } else {
        wide as i32
    }
}

/// Space taken by the gaps between `count` flex items.
pub open spec fn spec_flex_gaps(gap: int, count: int) -> int {
    sat_i32(gap * (if count >= 1 { count - 1 } else { 0 }))
}

/// The gaps between a row's items and the free space left on the main axis
/// once the gaps and the items' flex bases are taken from the content width.
pub fn flex_free_space(content_width: i32, gap: i32, bases: &[CssPx]) -> (r: (i32, i32))
    requires
        bases@.len() <= i32::MAX as int + 1,
        forall|k: int| 0 <= k <= bases@.len() ==> in_i32(#[trigger] sum_px(bases@.take(k))),
    ensures
        r.0 == spec_flex_gaps(gap as int, bases@.len() as int),
        r.1 == sat_i32(sat_i32(content_width - r.0) - sum_px(bases@)),
{
    let count = bases.len();
    let pairs: i32 = if count >= 1 { (count - 1) as i32 } else { 0 };
    let gaps = saturating_mul_i32(gap, pairs);
    let available = saturating_sub_i32(content_width, gaps);
    let mut total: i32 = 0;
    let mut i: usize = 0;
    while i < count
        invariant
            count == bases@.len(),
            i <= count,
            total == sum_px(bases@.take(i as int)),
            forall|k: int| 0 <= k <= bases@.len() ==> in_i32(#[trigger] sum_px(bases@.take(k))),
        decreases count - i,
    {
        assert(bases@.take(i + 1).drop_last() =~= bases@.take(i as int));
        assert(in_i32(sum_px(bases@.take(i + 1))));
        total = total + bases[i].0;
        i += 1;
    }
    assert(bases@.take(count as int) =~= bases@);
    (gaps, saturating_sub_i32(available, total))
}

} // verus!

verus! {

/// Units of a computed CSS length.
#[derive(Clone, Copy, Debug, PartialEq, Eq, Structural)]
pub enum LengthUnit {
    Px,
    Em,
    Rem,
    Percent,
}

/// A computed CSS length: a fixed-point number (in units of `1 / scale`) and a unit.
#[derive(Clone, Copy, Debug, PartialEq, Eq, Structural)]
pub struct Length {
    pub scaled: i64,
    pub unit: LengthUnit,
}

/// Default font size that `em` and `rem` resolve against.
pub const DEFAULT_FONT_SIZE: i32 = 16;

/// `v` clamped to the range of `i32`.
pub open spec fn clamp_i32(v: int) -> int {
    if v < i32::MIN {
        i32::MIN as int
    } else if v > i32::MAX {
        i32::MAX as int
    } else {
        v
    }
}

/// Pixels of a length: percentages of `basis`, `em`/`rem` of the default font
/// size, rounded toward zero and clamped to `i32`.
pub open spec fn spec_resolve_length(length: Length, basis: int, scale: int) -> int {
    let unit_basis = match length.unit {
        LengthUnit::Px => 1,
        LengthUnit::Em | LengthUnit::Rem => 16,
        LengthUnit::Percent => basis,
    };
    let divisor = if length.unit == LengthUnit::Percent {
        scale * 100
    } else {
        scale
    };
    clamp_i32(spec_trunc_div(sat_i64(length.scaled * unit_basis), divisor))
}

/// Resolves a computed length to pixels; `scale` is the fixed-point scale of
/// the CSS number model.
pub fn resolve_length(length: Length, percentage_basis: CssPx, scale: i64) -> (r: CssPx)
    requires
        0 < scale,
        scale * 100 <= i64::MAX,
    ensures
        r.0 == spec_resolve_length(length, percentage_basis.0 as int, scale as int),
{
    let unit_basis: i64 = match length.unit {
        LengthUnit::Px => 1,
        LengthUnit::Em | LengthUnit::Rem => DEFAULT_FONT_SIZE as i64,
        LengthUnit::Percent => percentage_basis.0 as i64,
    };
    let divisor: i64 = if length.unit == LengthUnit::Percent {
        scale * 100
    } else {
        scale
    };
    let value = trunc_div_i64(saturating_mul_i64(length.scaled, unit_basis), divisor);
    if value < i32::MIN as i64 {
        CssPx(i32::MIN)
    } else if value > i32::MAX as i64 {
        CssPx(i32::MAX)
    } else {
        CssPx(value as i32)
    }
}

/// A `min-height`-like constraint: percentages need a definite containing height.
pub open spec fn spec_constraint_length(length: Length, containing: Option<CssPx>, scale: int) -> Option<int> {
    if length.unit == LengthUnit::Percent {
        match containing {
            Some(b) => Some(spec_resolve_length(length, b.0 as int, scale)),
            None => None,
        }
    } else {
        Some(spec_resolve_length(length, 0, scale))
    }
}

/// Resolves a vertical constraint length against an optional containing height.
pub fn constraint_length(length: Length, containing: Option<CssPx>, scale: i64) -> (r: Option<CssPx>)
    requires
        0 < scale,
        scale * 100 <= i64::MAX,
    ensures
        match r {
            Some(v) => spec_constraint_length(length, containing, scale as int) == Some(v.0 as int),
            None => spec_constraint_length(length, containing, scale as int) is None,
        },
{
    if length.unit == LengthUnit::Percent {
        match containing {
            Some(b) => Some(resolve_length(length, b, scale)),
            None => None,
        }
    } else {
        Some(resolve_length(length, CssPx(0), scale))
    }
}

/// The content height an explicit `height` gives, if it is definite.
pub open spec fn spec_specified_content_height(
    height: Option<Length>,
    containing: Option<CssPx>,
    box_sizing: BoxSizing,
    non_content: int,
    scale: int,
) -> Option<int> {
    match height {
        None => None,
        Some(len) => match spec_constraint_length(len, containing, scale) {
            None => None,
            Some(v) => Some(
                match box_sizing {
                    BoxSizing::ContentBox => clamp_zero(v),
                    BoxSizing::BorderBox => clamp_zero(v - non_content),
                },
            ),
        },
    }
}

/// The content height of an explicit `height` (`None` for `auto`), or `None`
/// when a percentage has no definite containing height.
pub fn specified_content_height(
    height: Option<Length>,
    containing: Option<CssPx>,
    box_sizing: BoxSizing,
    non_content: i32,
    scale: i64,
) -> (r: Option<CssPx>)
    requires
        0 < scale,
        scale * 100 <= i64::MAX,
        box_sizing == BoxSizing::BorderBox ==> (height matches Some(len) ==> (spec_constraint_length(
            len,
            containing,
            scale as int,
        ) matches Some(v) ==> in_i32(v - non_content))),
    ensures
        match r {
            Some(v) => spec_specified_content_height(
                height,
                containing,
                box_sizing,
                non_content as int,
                scale as int,
            ) == Some(v.0 as int),
            None => spec_specified_content_height(
                height,
                containing,
                box_sizing,
                non_content as int,
                scale as int,
            ) is None,
        },
{
    let len = match height {
        None => return None,
        Some(len) => len,
    };
    let specified = match constraint_length(len, containing, scale) {
        None => return None,
        Some(v) => v,
    };
    Some(
        match box_sizing {
            BoxSizing::ContentBox => specified.max_zero(),
            BoxSizing::BorderBox => CssPx(specified.0 - non_content).max_zero(),
        },
    )
}

/// The sizing box of a block's height: the specified or automatic content
/// height as a sizing box, capped by `max-height`, then raised to `min-height`.
pub open spec fn spec_height_constrained(
    box_sizing: BoxSizing,
    auto_extent: int,
    containing: Option<CssPx>,
    non_content: int,
    specified_content: Option<CssPx>,
    min_height: Length,
    max_height: Option<Length>,
    scale: int,
) -> int {
    let content = match specified_content {
        Some(c) => c.0 as int,
        None => auto_extent,
    };
    let sizing_box = match box_sizing {
        BoxSizing::ContentBox => content,
        BoxSizing::BorderBox => content + non_content,
    };
    let min = match spec_constraint_length(min_height, containing, scale) {
        Some(v) => v,
        None => 0,
    };
    let capped = match max_height {
        None => sizing_box,
        Some(m) => match spec_constraint_length(m, containing, scale) {
            None => sizing_box,
            Some(v) => if sizing_box <= v {
                sizing_box
            } else {
                v
            },
        },
    };
    if capped >= min {
        capped
    } else {
        min
    }
}

/// The used content height: the constrained sizing box back as a
/// non-negative content height.
pub open spec fn spec_resolve_used_height(
    box_sizing: BoxSizing,
    auto_extent: int,
    containing: Option<CssPx>,
    non_content: int,
    specified_content: Option<CssPx>,
    min_height: Length,
    max_height: Option<Length>,
    scale: int,
) -> int {
    let constrained = spec_height_constrained(
        box_sizing,
        auto_extent,
        containing,
        non_content,
        specified_content,
        min_height,
        max_height,
        scale,
    );
    match box_sizing {
        BoxSizing::ContentBox => clamp_zero(constrained),
        BoxSizing::BorderBox => clamp_zero(constrained - non_content),
    }
}

/// Used content height of a block box from its automatic extent and its
/// `height`, `min-height` and `max-height`.
pub fn resolve_used_height(
    box_sizing: BoxSizing,
    auto_extent: CssPx,
    containing: Option<CssPx>,
    non_content: i32,
    specified_content: Option<CssPx>,
    min_height: Length,
    max_height: Option<Length>,
    scale: i64,
) -> (r: CssPx)
    requires
        0 < scale,
        scale * 100 <= i64::MAX,
        box_sizing == BoxSizing::BorderBox ==> in_i32(
            match specified_content {
                Some(c) => c.0 as int,
                None => auto_extent.0 as int,
            } + non_content,
        ),
        box_sizing == BoxSizing::BorderBox ==> in_i32(
            spec_height_constrained(
                box_sizing,
                auto_extent.0 as int,
                containing,
                non_content as int,
                specified_content,
                min_height,
                max_height,
                scale as int,
            ) - non_content,
        ),
    ensures
        r.0 == spec_resolve_used_height(
            box_sizing,
            auto_extent.0 as int,
            containing,
            non_content as int,
            specified_content,
            min_height,
            max_height,
            scale as int,
        ),
{
    let content = match specified_content {
        Some(c) => c,
        None => auto_extent,
    };
    let sizing_box = match box_sizing {
        BoxSizing::ContentBox => content,
        BoxSizing::BorderBox => CssPx(content.0 + non_content),
    };
    let min = match constraint_length(min_height, containing, scale) {
        Some(v) => v,
        None => CssPx(0),
    };
    let max = match max_height {
        None => None,
        Some(m) => constraint_length(m, containing, scale),
    };
    let capped = match max {
        None => sizing_box.0,
        Some(v) => if sizing_box.0 <= v.0 {
            sizing_box.0
        } else {
            v.0
        },
    };
    let constrained = if capped >= min.0 {
        capped
    } else {
        min.0
    };
    match box_sizing {
        BoxSizing::ContentBox => CssPx(constrained).max_zero(),
        BoxSizing::BorderBox => CssPx(constrained - non_content).max_zero(),
    }
}

/// Height of a replaced image: an explicit length height resolved against the
/// used width, else the intrinsic aspect ratio applied to the used width.
pub open spec fn spec_replaced_image_height(
    explicit: Option<Length>,
    content_width: int,
    intrinsic: Option<(u32, u32)>,
    scale: int,
) -> int {
    match explicit {
        Some(len) => clamp_zero(spec_resolve_length(len, content_width, scale)),
        None => match intrinsic {
            None => 0,
            Some((w, h)) => if w == 0 {
                0
            } else {
                let used = clamp_zero(content_width);
                let v = sat_i64(used * h) / (w as int);
                if v > i32::MAX {
                    i32::MAX as int
                } else {
                    v
                }
            },
        },
    }
}

/// Used height of a replaced image box.
pub fn replaced_image_height(
    explicit: Option<Length>,
    content_width: CssPx,
    intrinsic: Option<(u32, u32)>,
    scale: i64,
) -> (r: CssPx)
    requires
        0 < scale,
        scale * 100 <= i64::MAX,
    ensures
        r.0 == spec_replaced_image_height(explicit, content_width.0 as int, intrinsic, scale as int),
{
    if let Some(len) = explicit {
        return resolve_length(len, content_width, scale).max_zero();
    }
    let (width, height) = match intrinsic {
        None => return CssPx(0),
        Some(size) => size,
    };
    if width == 0 {
        return CssPx(0);
    }
    let used: i64 = if content_width.0 < 0 { 0 } else { content_width.0 as i64 };
    let product = saturating_mul_i64(used, height as i64);
    proof {
        assert(product >= 0) by (nonlinear_arith)
            requires
                product == sat_i64(used * height),
                used >= 0,
                height >= 0,
        ;
    }
    let v = product / (width as i64);
    if v > i32::MAX as i64 {
        CssPx(i32::MAX)
    } else {
        CssPx(v as i32)
    }
}

} // verus!
