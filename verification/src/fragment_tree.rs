//! Paragraph fragments: locating wrapped lines in the paragraph text, placing
//! glyph fragments in page space, and the fragment-tree snapshot.
use vstd::prelude::*;
use vstd::utf8::encode_utf8;

verus! {

/// Whether `needle` occurs in `hay` at byte `p`.
pub open spec fn occurs_at(hay: Seq<u8>, needle: Seq<u8>, p: int) -> bool {
    0 <= p && p + needle.len() <= hay.len() && hay.subrange(p, p + needle.len()) == needle
}

/// The first byte offset at or after `from` where `needle` occurs, as
/// `str::find` on `hay[from..]` reports it (shifted by `from`).
pub open spec fn spec_find_from(hay: Seq<u8>, from: int, needle: Seq<u8>) -> Option<int>
    decreases hay.len() - from,
{
    if from < 0 || from + needle.len() > hay.len() {
        None
    } else if occurs_at(hay, needle, from) {
        Some(from)
    } else if from >= hay.len() {
        None
    } else {
        spec_find_from(hay, from + 1, needle)
    }
}

/// First occurrence of `needle` in `hay` at or after byte `from`.
pub fn find_bytes_from(hay: &[u8], from: usize, needle: &[u8]) -> (r: Option<usize>)
    requires
        from <= hay@.len(),
    ensures
        match r {
            Some(p) => spec_find_from(hay@, from as int, needle@) == Some(p as int),
            None => spec_find_from(hay@, from as int, needle@) is None,
        },
{
    let n = hay.len();
    let m = needle.len();
    if m > n {
        return None;
    }
    let mut p: usize = from;
    while p <= n - m
        invariant
            n == hay@.len(),
            m == needle@.len(),
            m <= n,
            from <= p,
            spec_find_from(hay@, from as int, needle@) == spec_find_from(hay@, p as int, needle@),
        decreases n - p,
    {
        let mut k: usize = 0;
        let mut same = true;
        assert(hay@.subrange(p as int, p as int) =~= needle@.take(0));
        while k < m
            invariant
                n == hay@.len(),
                m == needle@.len(),
                p + m <= n,
                k <= m,
                same == (hay@.subrange(p as int, p + k) == needle@.take(k as int)),
            decreases m - k,
        {
            let ghost prev = hay@.subrange(p as int, p + k);
            let ghost pn = needle@.take(k as int);
            if same && hay[p + k] != needle[k] {
                same = false;
            }
            proof {
                let a = hay@.subrange(p as int, p + k + 1);
                let b = needle@.take(k + 1);
                assert(a =~= prev.push(hay@[p + k]));
                assert(b =~= pn.push(needle@[k as int]));
                if a == b {
                    assert(a.drop_last() =~= prev);
                    assert(b.drop_last() =~= pn);
                    assert(a.last() == b.last());
                }
            }
            k += 1;
        }
        assert(needle@.take(m as int) =~= needle@);
        if same {
            return Some(p);
        }
        p += 1;
    }
    None
}

/// Whether byte `i` of a UTF-8 text starts a character (or is its end).
pub open spec fn is_char_start(t: Seq<u8>, i: int) -> bool {
    i == t.len() || (0 <= i < t.len() && (t[i] < 0x80 || t[i] >= 0xc0))
}

/// The byte offset after skipping ASCII spaces from `c`.
pub open spec fn skip_spaces(t: Seq<u8>, c: int) -> int
    decreases t.len() - c,
{
    if 0 <= c < t.len() && t[c] == 0x20 {
        skip_spaces(t, c + 1)
    } else {
        c
    }
}

/// Where the search for line `k` begins: after the previous line's text and
/// the spaces that follow it.
pub open spec fn line_cursor(t: Seq<u8>, lines: Seq<Seq<u8>>, k: int) -> int
    decreases k, 0int,
{
    if k <= 0 {
        0
    } else {
        skip_spaces(t, line_start(t, lines, k - 1) + lines[k - 1].len())
    }
}

/// Byte offset of line `k` in the paragraph text: its first occurrence at or
/// after the cursor, or the cursor itself when it does not occur.
pub open spec fn line_start(t: Seq<u8>, lines: Seq<Seq<u8>>, k: int) -> int
    decreases k, 1int,
{
    let c = line_cursor(t, lines, k);
    match spec_find_from(t, c, lines[k]) {
        Some(p) => p,
        None => c,
    }
}

/// Every search begins inside the text at a character start, so slicing the
/// text there is well defined.
pub open spec fn line_search_ok(t: Seq<u8>, lines: Seq<Seq<u8>>) -> bool {
    &&& forall|k: int|
        0 <= k < lines.len() ==> #[trigger] line_cursor(t, lines, k) <= t.len() && is_char_start(
            t,
            line_cursor(t, lines, k),
        )
    &&& forall|k: int|
        0 <= k < lines.len() ==> line_start(t, lines, k) + #[trigger] lines[k].len() <= usize::MAX
}

proof fn lemma_find_bounds(hay: Seq<u8>, from: int, needle: Seq<u8>)
    ensures
        spec_find_from(hay, from, needle) matches Some(p) ==> from <= p && occurs_at(hay, needle, p),
    decreases hay.len() - from,
{
    if !(from < 0 || from + needle.len() > hay.len()) && !occurs_at(hay, needle, from) && from
        < hay.len() {
        lemma_find_bounds(hay, from + 1, needle);
    }
}

pub open spec fn lines_bytes(lines: Seq<String>) -> Seq<Seq<u8>> {
    Seq::new(lines.len(), |i: int| encode_utf8(lines[i]@))
}

/// Byte offsets in `text` at which each wrapped line's text begins.
pub fn line_starts(text: &str, lines: &[String]) -> (r: Vec<usize>)
    requires
        line_search_ok(encode_utf8(text@), lines_bytes(lines@)),
    ensures
        r@.len() == lines@.len(),
        forall|k: int|
            0 <= k < lines@.len() ==> #[trigger] r@[k] == line_start(
                encode_utf8(text@),
                lines_bytes(lines@),
                k,
            ),
{
    let t = text.as_bytes();
    let ghost ls = lines_bytes(lines@);
    let mut out: Vec<usize> = Vec::new();
    let mut cursor: usize = 0;
    let mut k: usize = 0;
    while k < lines.len()
        invariant
            t@ == encode_utf8(text@),
            ls == lines_bytes(lines@),
            line_search_ok(t@, ls),
            k <= lines@.len(),
            out@.len() == k,
            k < lines@.len() ==> cursor == line_cursor(t@, ls, k as int),
            forall|j: int| 0 <= j < k ==> #[trigger] out@[j] == line_start(t@, ls, j),
        decreases lines@.len() - k,
    {
        assert(line_cursor(t@, ls, k as int) <= t@.len());
        let needle = lines[k].as_str().as_bytes();
        assert(needle@ == ls[k as int]);
        let found = find_bytes_from(t, cursor, needle);
        proof {
            lemma_find_bounds(t@, cursor as int, needle@);
        }
        let start: usize = match found {
            Some(p) => p,
            None => cursor,
        };
        assert(start == line_start(t@, ls, k as int));
        assert(start + ls[k as int].len() <= usize::MAX);
        let mut c: usize = start + needle.len();
        while c < t.len() && t[c] == 0x20
            invariant
                skip_spaces(t@, c as int) == skip_spaces(t@, start + needle@.len()),
                c >= start + needle@.len(),
            decreases t@.len() - c,
        {
            c += 1;
        }
        out.push(start);
        cursor = c;
        k += 1;
    }
    out
}

} // verus!

use crate::fonts::{FontId, FontRequest, FontSlant, Script};
use crate::fragments::{
    spec_font_families, spec_font_slant, spec_font_weight, spec_text_decorations, FragmentId,
    TextDecorations,
};
use crate::layout::{CssPx, LayoutRect};
use crate::renderer::Rgba8;
use crate::shaping::TextDirection;

verus! {

/// Identity of a box in the box tree.
#[derive(Clone, Copy, Debug, PartialEq, Eq, Structural, PartialOrd, Ord, Hash)]
pub struct BoxId(pub u32);

/// Paint-relevant computed inline style.
#[derive(Clone, Copy, Debug, PartialEq, Eq, Structural)]
pub struct InlinePaintStyle {
    pub color: Rgba8,
    pub weight: u16,
    pub slant: FontSlant,
    pub decorations: TextDecorations,
}

/// The computed values an inline paint style is made from: the used color
/// and the `font-weight`, `font-style` and `text-decoration-line` values.
#[derive(Clone, Debug)]
pub struct InlineStyleValues {
    pub color: Rgba8,
    pub font_weight: String,
    pub font_style: String,
    pub text_decoration_line: String,
}

/// Paint style of a glyph whose source node has the given computed values,
/// or black, 400, upright and undecorated when it has none.
pub open spec fn spec_inline_style(values: Option<InlineStyleValues>) -> InlinePaintStyle {
    match values {
        Some(v) => InlinePaintStyle {
            color: v.color,
            weight: spec_font_weight(v.font_weight@),
            slant: spec_font_slant(v.font_style@),
            decorations: spec_text_decorations(v.text_decoration_line@),
        },
        None => InlinePaintStyle {
            color: black(),
            weight: 400,
            slant: FontSlant::Normal,
            decorations: TextDecorations { underline: false, line_through: false },
        },
    }
}

/// Opaque black.
pub open spec fn black() -> Rgba8 {
    choose|c: Rgba8| c.channels() == (0u8, 0u8, 0u8, 255u8)
}

/// The paint style of an inline glyph from its source node's computed values.
pub fn inline_style(values: Option<&InlineStyleValues>) -> (r: InlinePaintStyle)
    ensures
        r == spec_inline_style(
            match values {
                Some(v) => Some(*v),
                None => None,
            },
        ),
{
    match values {
        Some(v) => InlinePaintStyle {
            color: v.color,
            weight: crate::fragments::font_weight(v.font_weight.as_str()),
            slant: crate::fragments::font_slant(v.font_style.as_str()),
            decorations: crate::fragments::text_decorations(v.text_decoration_line.as_str()),
        },
        None => {
            let color = Rgba8::rgb(0, 0, 0);
            proof {
                lemma_black_unique(color);
            }
            InlinePaintStyle {
                color,
                weight: 400,
                slant: FontSlant::Normal,
                decorations: TextDecorations { underline: false, line_through: false },
            }
        },
    }
}

proof fn lemma_black_unique(c: Rgba8)
    requires
        c.channels() == (0u8, 0u8, 0u8, 255u8),
    ensures
        c == black(),
{
    assert(exists|x: Rgba8| x.channels() == (0u8, 0u8, 0u8, 255u8)) by {
        assert(c.channels() == (0u8, 0u8, 0u8, 255u8));
    }
    Rgba8::lemma_channels_determine(c, black());
}

/// The computed font values a paragraph's font request is made from.
#[derive(Clone, Debug)]
pub struct FontStyleValues {
    pub font_family: String,
    pub font_weight: String,
    pub font_style: String,
}

/// The font request of a paragraph container: its family list, weight and
/// slant, with no locale; the default request when it has no style.
pub fn font_request(values: Option<&FontStyleValues>) -> (r: FontRequest)
    ensures
        values is None ==> r.families@.len() == 1 && r.families@[0]@ == "serif"@ && r.weight
            == 400 && r.slant == FontSlant::Normal && r.locale is None,
        values matches Some(v) ==> {
            &&& r.families@.len() == spec_font_families(v.font_family@).len()
            &&& forall|i: int|
                0 <= i < r.families@.len() ==> #[trigger] r.families@[i]@ == spec_font_families(
                    v.font_family@,
                )[i]
            &&& r.weight == spec_font_weight(v.font_weight@)
            &&& r.slant == spec_font_slant(v.font_style@)
            &&& r.locale is None
        },
{
    match values {
        None => FontRequest::default(),
        Some(v) => FontRequest {
            families: crate::fragments::font_families(v.font_family.as_str()),
            weight: crate::fragments::font_weight(v.font_weight.as_str()),
            slant: crate::fragments::font_slant(v.font_style.as_str()),
            locale: None,
        },
    }
}

} // verus!

use crate::fragments::{spec_span_source, or_source, StyledSpan, StyledText};
use crate::line_breaking::{LineBox, LineRun, ParagraphLayout, PositionedGlyph};

verus! {

/// One glyph fragment with final page-space baseline coordinates.
#[derive(Clone, Copy, Debug, PartialEq, Eq, Structural)]
pub struct GlyphFragment {
    pub id: FragmentId,
    pub box_id: BoxId,
    pub source: Option<u64>,
    pub font: FontId,
    pub script: Script,
    pub direction: TextDirection,
    pub character: char,
    pub cluster: usize,
    pub x: CssPx,
    pub baseline: CssPx,
    pub advance: CssPx,
    pub style: InlinePaintStyle,
}

/// One final line fragment.
#[derive(Clone, Debug)]
pub struct LineFragment {
    pub id: FragmentId,
    pub rect: LayoutRect,
    pub baseline: CssPx,
    pub used_width: CssPx,
    pub glyphs: Vec<GlyphFragment>,
}

/// One paragraph formatting fragment associated with a box.
#[derive(Clone, Debug)]
pub struct ParagraphFragment {
    pub id: FragmentId,
    pub box_id: BoxId,
    pub source: Option<u64>,
    pub rect: LayoutRect,
    pub text: String,
    pub lines: Vec<LineFragment>,
}

/// The computed inline values of the first entry for `source`, if any.
pub open spec fn lookup_style(styles: Seq<(u64, InlineStyleValues)>, source: Option<u64>) -> Option<
    InlineStyleValues,
>
    decreases styles.len(),
{
    match source {
        None => None,
        Some(s) => if styles.len() == 0 {
            None
        } else if styles[0].0 == s {
            Some(styles[0].1)
        } else {
            lookup_style(styles.drop_first(), source)
        },
    }
}

fn find_style<'a>(styles: &'a [(u64, InlineStyleValues)], source: Option<u64>) -> (r: Option<
    &'a InlineStyleValues,
>)
    ensures
        match r {
            Some(v) => lookup_style(styles@, source) == Some(*v),
            None => lookup_style(styles@, source) is None,
        },
{
    match source {
        None => None,
        Some(s) => {
            let mut i: usize = 0;
            assert(styles@.skip(0) =~= styles@);
            while i < styles.len()
                invariant
                    i <= styles@.len(),
                    source == Some(s),
                    lookup_style(styles@, source) == lookup_style(styles@.skip(i as int), source),
                decreases styles@.len() - i,
            {
                assert(styles@.skip(i as int).drop_first() =~= styles@.skip(i + 1));
                assert(styles@.skip(i as int)[0] == styles@[i as int]);
                if styles[i].0 == s {
                    return Some(&styles[i].1);
                }
                i += 1;
            }
            None
        },
    }
}

/// The glyphs of a line's runs in order, each with the run it belongs to.
pub open spec fn line_items(runs: Seq<LineRun>) -> Seq<(LineRun, PositionedGlyph)>
    decreases runs.len(),
{
    if runs.len() == 0 {
        Seq::empty()
    } else {
        line_items(runs.drop_last()) + Seq::new(
            runs.last().glyphs@.len(),
            |i: int| (runs.last(), runs.last().glyphs@[i]),
        )
    }
}

/// Identities used by the first `l` lines: one per line and one per glyph.
pub open spec fn ids_before(lines: Seq<LineBox>, l: int) -> int
    decreases l,
{
    if l <= 0 {
        0
    } else {
        ids_before(lines, l - 1) + 1 + line_items(lines[l - 1].runs@).len()
    }
}

/// Where a paragraph's fragments are placed and what they are attributed to.
pub struct FragmentContext {
    pub box_id: BoxId,
    pub source: Option<u64>,
    pub content: LayoutRect,
}

/// The glyph fragment of one positioned glyph of a line starting at byte
/// `start` of the paragraph text.
pub open spec fn spec_glyph_fragment(
    id: int,
    ctx: FragmentContext,
    item: (LineRun, PositionedGlyph),
    start: int,
    spans: Seq<StyledSpan>,
    styles: Seq<(u64, InlineStyleValues)>,
) -> GlyphFragment {
    let (run, g) = item;
    let cluster = start + g.glyph.cluster;
    let source = or_source(spec_span_source(spans, cluster), ctx.source);
    GlyphFragment {
        id: FragmentId(id as u32),
        box_id: ctx.box_id,
        source,
        font: run.font,
        script: run.script,
        direction: run.direction,
        character: g.glyph.character,
        cluster: cluster as usize,
        x: CssPx((ctx.content.x.0 + g.x) as i32),
        baseline: CssPx((ctx.content.y.0 + g.baseline_y) as i32),
        advance: CssPx(g.glyph.advance),
        style: spec_inline_style(lookup_style(styles, source)),
    }
}

} // verus!

verus! {

/// Every glyph of the line can be placed without leaving the range of its type.
pub open spec fn line_glyphs_fit(ctx: FragmentContext, line: LineBox, start: int) -> bool {
    forall|r: int, g: int|
        0 <= r < line.runs@.len() && 0 <= g < line.runs@[r].glyphs@.len() ==> {
            let pg = #[trigger] line.runs@[r].glyphs@[g];
            &&& start + pg.glyph.cluster <= usize::MAX
            &&& i32::MIN <= ctx.content.x.0 + pg.x <= i32::MAX
            &&& i32::MIN <= ctx.content.y.0 + pg.baseline_y <= i32::MAX
        }
}

/// The line's own coordinates fit in `i32` once moved into page space.
pub open spec fn line_box_fits(ctx: FragmentContext, line: LineBox) -> bool {
    &&& i32::MIN <= ctx.content.y.0 + line.y <= i32::MAX
    &&& i32::MIN <= ctx.content.y.0 + line.baseline <= i32::MAX
}

/// The line fragment for `line`, whose identity is `first_id` and whose glyphs
/// take the identities that follow.
pub open spec fn line_fragment_ok(
    f: LineFragment,
    first_id: int,
    ctx: FragmentContext,
    line: LineBox,
    start: int,
    spans: Seq<StyledSpan>,
    styles: Seq<(u64, InlineStyleValues)>,
) -> bool {
    let items = line_items(line.runs@);
    &&& f.id == FragmentId(first_id as u32)
    &&& f.rect == LayoutRect {
        x: ctx.content.x,
        y: CssPx((ctx.content.y.0 + line.y) as i32),
        width: ctx.content.width,
        height: CssPx(16),
    }
    &&& f.baseline == CssPx((ctx.content.y.0 + line.baseline) as i32)
    &&& f.used_width == CssPx(line.used_width)
    &&& f.glyphs@.len() == items.len()
    &&& forall|k: int|
        0 <= k < items.len() ==> #[trigger] f.glyphs@[k] == spec_glyph_fragment(
            first_id + 1 + k,
            ctx,
            items[k],
            start,
            spans,
            styles,
        )
}

proof fn lemma_line_items_take_len(runs: Seq<LineRun>, r: int, s: int)
    requires
        0 <= r <= s <= runs.len(),
    ensures
        line_items(runs.take(r)).len() <= line_items(runs.take(s)).len(),
    decreases s - r,
{
    if r < s {
        lemma_line_items_take_len(runs, r, s - 1);
        assert(runs.take(s).drop_last() =~= runs.take(s - 1));
    }
}

fn glyph_fragment(
    id: u32,
    ctx: &FragmentContext,
    run: &LineRun,
    pg: &PositionedGlyph,
    start: usize,
    spans: &[StyledSpan],
    styles: &[(u64, InlineStyleValues)],
) -> (r: GlyphFragment)
    requires
        start + pg.glyph.cluster <= usize::MAX,
        i32::MIN <= ctx.content.x.0 + pg.x <= i32::MAX,
        i32::MIN <= ctx.content.y.0 + pg.baseline_y <= i32::MAX,
    ensures
        r == spec_glyph_fragment(id as int, *ctx, (*run, *pg), start as int, spans@, styles@),
{
    let cluster = start + pg.glyph.cluster;
    let found = crate::fragments::span_source(spans, cluster);
    let source = match found {
        Some(s) => Some(s),
        None => ctx.source,
    };
    let values = find_style(styles, source);
    GlyphFragment {
        id: FragmentId(id),
        box_id: ctx.box_id,
        source,
        font: run.font,
        script: run.script,
        direction: run.direction,
        character: pg.glyph.character,
        cluster,
        x: CssPx(ctx.content.x.0 + pg.x),
        baseline: CssPx(ctx.content.y.0 + pg.baseline_y),
        advance: CssPx(pg.glyph.advance),
        style: inline_style(values),
    }
}

/// The line fragment of one laid-out line starting at byte `start` of the
/// paragraph text; identities are taken from `next_id` in order.
pub fn line_fragment(
    line: &LineBox,
    ctx: &FragmentContext,
    start: usize,
    spans: &[StyledSpan],
    styles: &[(u64, InlineStyleValues)],
    next_id: &mut u32,
) -> (f: LineFragment)
    requires
        *old(next_id) + 1 + line_items(line.runs@).len() <= u32::MAX,
        line_glyphs_fit(*ctx, *line, start as int),
        line_box_fits(*ctx, *line),
    ensures
        line_fragment_ok(f, *old(next_id) as int, *ctx, *line, start as int, spans@, styles@),
        *final(next_id) == *old(next_id) + 1 + line_items(line.runs@).len(),
{
    let ghost first = *next_id as int;
    let ghost total = line_items(line.runs@).len();
    let line_id = FragmentId(*next_id);
    *next_id = *next_id + 1;
    let mut glyphs: Vec<GlyphFragment> = Vec::new();
    let mut r: usize = 0;
    while r < line.runs.len()
        invariant
            r <= line.runs@.len(),
            first + 1 + total <= u32::MAX,
            total == line_items(line.runs@).len(),
            line_glyphs_fit(*ctx, *line, start as int),
            glyphs@.len() == line_items(line.runs@.take(r as int)).len(),
            *next_id == first + 1 + glyphs@.len(),
            forall|k: int|
                0 <= k < glyphs@.len() ==> #[trigger] glyphs@[k] == spec_glyph_fragment(
                    first + 1 + k,
                    *ctx,
                    line_items(line.runs@.take(r as int))[k],
                    start as int,
                    spans@,
                    styles@,
                ),
        decreases line.runs@.len() - r,
    {
        let run = &line.runs[r];
        let ghost before = line_items(line.runs@.take(r as int));
        let ghost after = line_items(line.runs@.take(r + 1));
        assert(line.runs@.take(r + 1).drop_last() =~= line.runs@.take(r as int));
        assert(line.runs@.take(r + 1).last() == *run);
        assert(after.len() == before.len() + run.glyphs@.len());
        proof {
            lemma_line_items_take_len(line.runs@, r + 1, line.runs@.len() as int);
            assert(line.runs@.take(line.runs@.len() as int) =~= line.runs@);
        }
        let mut g: usize = 0;
        while g < run.glyphs.len()
            invariant
                r < line.runs@.len(),
                *run == line.runs@[r as int],
                g <= run.glyphs@.len(),
                first + 1 + total <= u32::MAX,
                after.len() <= total,
                after.len() == before.len() + run.glyphs@.len(),
                after == line_items(line.runs@.take(r + 1)),
                forall|k: int| 0 <= k < before.len() ==> #[trigger] after[k] == before[k],
                forall|k: int|
                    0 <= k < run.glyphs@.len() ==> #[trigger] after[before.len() + k] == (
                        *run,
                        run.glyphs@[k],
                    ),
                line_glyphs_fit(*ctx, *line, start as int),
                glyphs@.len() == before.len() + g,
                *next_id == first + 1 + glyphs@.len(),
                forall|k: int|
                    0 <= k < glyphs@.len() ==> #[trigger] glyphs@[k] == spec_glyph_fragment(
                        first + 1 + k,
                        *ctx,
                        after[k],
                        start as int,
                        spans@,
                        styles@,
                    ),
            decreases run.glyphs@.len() - g,
        {
            let pg = &run.glyphs[g];
            assert(line.runs@[r as int].glyphs@[g as int] == *pg);
            let frag = glyph_fragment(*next_id, ctx, run, pg, start, spans, styles);
            assert(after[before.len() + g] == (*run, *pg));
            glyphs.push(frag);
            *next_id = *next_id + 1;
            g += 1;
        }
        r += 1;
    }
    assert(line.runs@.take(line.runs@.len() as int) =~= line.runs@);
    LineFragment {
        id: line_id,
        rect: LayoutRect {
            x: ctx.content.x,
            y: CssPx(ctx.content.y.0 + line.y),
            width: ctx.content.width,
            height: CssPx(16),
        },
        baseline: CssPx(ctx.content.y.0 + line.baseline),
        used_width: CssPx(line.used_width),
        glyphs,
    }
}

} // verus!

verus! {

/// UTF-8 bytes of each line's text.
pub open spec fn line_texts(lines: Seq<LineBox>) -> Seq<Seq<u8>> {
    Seq::new(lines.len(), |i: int| encode_utf8(lines[i].text@))
}

/// The paragraph fragment of a laid-out paragraph: each line is located in
/// the paragraph text, and its glyphs take their clusters, sources and paint
/// styles from there; identities are taken from `next_id` in order.
pub fn paragraph_fragment(
    paragraph: &ParagraphLayout,
    styled: &StyledText,
    ctx: &FragmentContext,
    styles: &[(u64, InlineStyleValues)],
    next_id: &mut u32,
) -> (r: ParagraphFragment)
    requires
        paragraph.lines@.len() * 16 <= i32::MAX,
        line_search_ok(encode_utf8(styled.text@), line_texts(paragraph.lines@)),
        *old(next_id) + 1 + ids_before(paragraph.lines@, paragraph.lines@.len() as int) <= u32::MAX,
        forall|l: int|
            0 <= l < paragraph.lines@.len() ==> line_glyphs_fit(
                *ctx,
                #[trigger] paragraph.lines@[l],
                line_start(encode_utf8(styled.text@), line_texts(paragraph.lines@), l),
            ) && line_box_fits(*ctx, paragraph.lines@[l]),
    ensures
        r.id == FragmentId(*old(next_id)),
        r.box_id == ctx.box_id,
        r.source == ctx.source,
        r.rect == (LayoutRect {
            x: ctx.content.x,
            y: ctx.content.y,
            width: ctx.content.width,
            height: CssPx((paragraph.lines@.len() * 16) as i32),
        }),
        r.text@ == styled.text@,
        r.lines@.len() == paragraph.lines@.len(),
        forall|l: int|
            0 <= l < paragraph.lines@.len() ==> line_fragment_ok(
                #[trigger] r.lines@[l],
                *old(next_id) + 1 + ids_before(paragraph.lines@, l),
                *ctx,
                paragraph.lines@[l],
                line_start(encode_utf8(styled.text@), line_texts(paragraph.lines@), l),
                styled.spans@,
                styles@,
            ),
        *final(next_id) == *old(next_id) + 1 + ids_before(
            paragraph.lines@,
            paragraph.lines@.len() as int,
        ),
{
    let ghost first = *next_id as int;
    let height = paragraph.height();
    let paragraph_id = FragmentId(*next_id);
    proof {
        lemma_ids_before_mono(paragraph.lines@, 0, paragraph.lines@.len() as int);
    }
    *next_id = *next_id + 1;
    let mut texts: Vec<String> = Vec::new();
    let mut i: usize = 0;
    while i < paragraph.lines.len()
        invariant
            i <= paragraph.lines@.len(),
            texts@.len() == i,
            forall|k: int| 0 <= k < i ==> #[trigger] texts@[k]@ == paragraph.lines@[k].text@,
        decreases paragraph.lines@.len() - i,
    {
        texts.push(paragraph.lines[i].text.clone());
        i += 1;
    }
    assert(lines_bytes(texts@) =~= line_texts(paragraph.lines@));
    let starts = line_starts(styled.text.as_str(), texts.as_slice());
    let ghost tb = encode_utf8(styled.text@);
    let ghost lt = line_texts(paragraph.lines@);
    let mut lines: Vec<LineFragment> = Vec::new();
    let mut l: usize = 0;
    while l < paragraph.lines.len()
        invariant
            l <= paragraph.lines@.len(),
            starts@.len() == paragraph.lines@.len(),
            forall|k: int| 0 <= k < paragraph.lines@.len() ==> #[trigger] starts@[k] == line_start(tb, lt, k),
            first + 1 + ids_before(paragraph.lines@, paragraph.lines@.len() as int) <= u32::MAX,
            forall|k: int|
                0 <= k < paragraph.lines@.len() ==> line_glyphs_fit(
                    *ctx,
                    #[trigger] paragraph.lines@[k],
                    line_start(tb, lt, k),
                ) && line_box_fits(*ctx, paragraph.lines@[k]),
            lines@.len() == l,
            *next_id == first + 1 + ids_before(paragraph.lines@, l as int),
            forall|k: int|
                0 <= k < l ==> line_fragment_ok(
                    #[trigger] lines@[k],
                    first + 1 + ids_before(paragraph.lines@, k),
                    *ctx,
                    paragraph.lines@[k],
                    line_start(tb, lt, k),
                    styled.spans@,
                    styles@,
                ),
        decreases paragraph.lines@.len() - l,
    {
        proof {
            lemma_ids_before_mono(paragraph.lines@, l + 1, paragraph.lines@.len() as int);
        }
        assert(starts@[l as int] == line_start(tb, lt, l as int));
        let f = line_fragment(&paragraph.lines[l], ctx, starts[l], styled.spans.as_slice(), styles, next_id);
        lines.push(f);
        l += 1;
    }
    ParagraphFragment {
        id: paragraph_id,
        box_id: ctx.box_id,
        source: ctx.source,
        rect: LayoutRect { x: ctx.content.x, y: ctx.content.y, width: ctx.content.width, height: CssPx(height) },
        text: styled.text.clone(),
        lines,
    }
}

proof fn lemma_ids_before_mono(lines: Seq<LineBox>, a: int, b: int)
    requires
        0 <= a <= b,
    ensures
        ids_before(lines, a) <= ids_before(lines, b),
    decreases b - a,
{
    if a < b {
        lemma_ids_before_mono(lines, a, b - 1);
    }
}

} // verus!

use crate::text_util::{decimal, int_decimal, str_debug, char_debug};

verus! {

/// DOM-independent final inline fragment tree.
#[derive(Clone, Debug)]
pub struct FragmentTree {
    paragraphs: Vec<ParagraphFragment>,
}

impl FragmentTree {
    pub closed spec fn spec_paragraphs(&self) -> Seq<ParagraphFragment> {
        self.paragraphs@
    }

    /// A tree of the given paragraph fragments, in order.
    pub fn new(paragraphs: Vec<ParagraphFragment>) -> (r: Self)
        ensures
            r.spec_paragraphs() == paragraphs@,
    {
        FragmentTree { paragraphs }
    }

    /// The paragraph fragments in document order.
    pub fn paragraphs(&self) -> (r: &[ParagraphFragment])
        ensures
            r@ == self.spec_paragraphs(),
    {
        self.paragraphs.as_slice()
    }

    /// The measured height of each paragraph's box, in paragraph order.
    pub fn inline_heights(&self) -> (r: Vec<(BoxId, CssPx)>)
        ensures
            r@.len() == self.spec_paragraphs().len(),
            forall|i: int|
                0 <= i < r@.len() ==> #[trigger] r@[i] == (
                    self.spec_paragraphs()[i].box_id,
                    self.spec_paragraphs()[i].rect.height,
                ),
    {
        let mut out: Vec<(BoxId, CssPx)> = Vec::new();
        let mut i: usize = 0;
        while i < self.paragraphs.len()
            invariant
                i <= self.paragraphs@.len(),
                out@.len() == i,
                forall|k: int|
                    0 <= k < i ==> #[trigger] out@[k] == (
                        self.paragraphs@[k].box_id,
                        self.paragraphs@[k].rect.height,
                    ),
            decreases self.paragraphs@.len() - i,
        {
            out.push((self.paragraphs[i].box_id, self.paragraphs[i].rect.height));
            i += 1;
        }
        out
    }
}

/// A source node's slot, or `-` for anonymous content.
pub open spec fn source_slot(source: Option<u64>) -> Seq<char> {
    match source {
        Some(s) => decimal(s as nat),
        None => "-"@,
    }
}

pub open spec fn bool_text(b: bool) -> Seq<char> {
    if b {
        "true"@
    } else {
        "false"@
    }
}

/// `(x,y wxh)` of a rectangle.
pub open spec fn rect_text(r: LayoutRect) -> Seq<char> {
    "("@ + int_decimal(r.x.0 as int) + ","@ + int_decimal(r.y.0 as int) + " "@ + int_decimal(
        r.width.0 as int,
    ) + "x"@ + int_decimal(r.height.0 as int) + ")"@
}

/// One glyph line of the fragment-tree dump.
pub open spec fn glyph_fragment_line(g: GlyphFragment) -> Seq<char> {
    let (cr, cg, cb, ca) = g.style.color.channels();
    "    glyph fragment="@ + decimal(g.id.0 as nat) + " box="@ + decimal(g.box_id.0 as nat)
        + " source="@ + source_slot(g.source) + " font="@ + decimal(g.font.0 as nat) + " script="@
        + crate::fonts::script_name(g.script) + " direction="@ + crate::shaping::direction_name(
        g.direction,
    ) + " char="@ + char_debug(g.character) + " cluster="@ + decimal(g.cluster as nat) + " x="@
        + int_decimal(g.x.0 as int) + " baseline="@ + int_decimal(g.baseline.0 as int)
        + " advance="@ + int_decimal(g.advance.0 as int) + " color=#"@ + crate::storage::hex_of(
        seq![cr, cg, cb, ca],
    ) + " weight="@ + decimal(g.style.weight as nat) + " slant="@ + crate::fonts::slant_name(
        g.style.slant,
    ) + " decoration=("@ + bool_text(g.style.decorations.underline) + ","@ + bool_text(
        g.style.decorations.line_through,
    ) + ")\n"@
}

pub open spec fn glyph_fragment_lines(gs: Seq<GlyphFragment>, n: int) -> Seq<char>
    decreases n,
{
    if n <= 0 {
        Seq::empty()
    } else {
        glyph_fragment_lines(gs, n - 1) + glyph_fragment_line(gs[n - 1])
    }
}

/// A line fragment's line followed by its glyph lines.
pub open spec fn line_fragment_block(l: LineFragment) -> Seq<char> {
    "  line fragment="@ + decimal(l.id.0 as nat) + " rect="@ + rect_text(l.rect) + " baseline="@
        + int_decimal(l.baseline.0 as int) + " used="@ + int_decimal(l.used_width.0 as int) + "\n"@
        + glyph_fragment_lines(l.glyphs@, l.glyphs@.len() as int)
}

pub open spec fn line_fragment_blocks(ls: Seq<LineFragment>, n: int) -> Seq<char>
    decreases n,
{
    if n <= 0 {
        Seq::empty()
    } else {
        line_fragment_blocks(ls, n - 1) + line_fragment_block(ls[n - 1])
    }
}

/// A paragraph fragment's line followed by its line blocks.
pub open spec fn paragraph_block(p: ParagraphFragment) -> Seq<char> {
    "paragraph fragment="@ + decimal(p.id.0 as nat) + " box="@ + decimal(p.box_id.0 as nat)
        + " source="@ + source_slot(p.source) + " rect="@ + rect_text(p.rect) + " text="@
        + str_debug(p.text@) + "\n"@ + line_fragment_blocks(p.lines@, p.lines@.len() as int)
}

pub open spec fn paragraph_blocks(ps: Seq<ParagraphFragment>, n: int) -> Seq<char>
    decreases n,
{
    if n <= 0 {
        Seq::empty()
    } else {
        paragraph_blocks(ps, n - 1) + paragraph_block(ps[n - 1])
    }
}

fn push_dec(out: &mut String, v: u64)
    ensures
        final(out)@ == old(out)@ + decimal(v as nat),
{
    let d = crate::text_util::u64_to_decimal(v);
    crate::text_util::push_str(out, d.as_str());
}

fn push_signed(out: &mut String, v: i32)
    ensures
        final(out)@ == old(out)@ + int_decimal(v as int),
{
    let d = crate::text_util::i64_to_decimal(v as i64);
    crate::text_util::push_str(out, d.as_str());
}

fn push_source(out: &mut String, source: Option<u64>)
    ensures
        final(out)@ == old(out)@ + source_slot(source),
{
    match source {
        Some(s) => push_dec(out, s),
        None => crate::text_util::push_str(out, "-"),
    }
}

fn push_bool(out: &mut String, b: bool)
    ensures
        final(out)@ == old(out)@ + bool_text(b),
{
    if b {
        crate::text_util::push_str(out, "true");
    } else {
        crate::text_util::push_str(out, "false");
    }
}

fn push_rect(out: &mut String, r: LayoutRect)
    ensures
        final(out)@ == old(out)@ + rect_text(r),
{
    let ghost start = out@;
    crate::text_util::push_str(out, "(");
    push_signed(out, r.x.0);
    crate::text_util::push_str(out, ",");
    push_signed(out, r.y.0);
    crate::text_util::push_str(out, " ");
    push_signed(out, r.width.0);
    crate::text_util::push_str(out, "x");
    push_signed(out, r.height.0);
    crate::text_util::push_str(out, ")");
    assert(out@ =~= start + rect_text(r));
}

fn push_hex_byte(out: &mut String, b: u8)
    ensures
        final(out)@ == old(out)@ + seq![
            crate::storage::spec_hex_digit(b / 16),
            crate::storage::spec_hex_digit(b % 16),
        ],
{
    let ghost start = out@;
    crate::text_util::string_push(out, crate::storage::hex_digit(b / 16));
    crate::text_util::string_push(out, crate::storage::hex_digit(b % 16));
    assert(out@ =~= start + seq![
        crate::storage::spec_hex_digit(b / 16),
        crate::storage::spec_hex_digit(b % 16),
    ]);
}

fn push_color(out: &mut String, c: Rgba8)
    ensures
        final(out)@ == old(out)@ + crate::storage::hex_of(
            seq![c.channels().0, c.channels().1, c.channels().2, c.channels().3],
        ),
{
    let ghost start = out@;
    proof {
        reveal_with_fuel(crate::storage::hex_of, 5);
    }
    let ghost s = seq![c.channels().0, c.channels().1, c.channels().2, c.channels().3];
    push_hex_byte(out, c.red());
    push_hex_byte(out, c.green());
    push_hex_byte(out, c.blue());
    push_hex_byte(out, c.alpha());
    assert(s.drop_last().drop_last().drop_last().drop_last() =~= Seq::<u8>::empty());
    assert(s.drop_last().drop_last().drop_last() =~= seq![c.channels().0]);
    assert(s.drop_last().drop_last() =~= seq![c.channels().0, c.channels().1]);
    assert(s.drop_last() =~= seq![c.channels().0, c.channels().1, c.channels().2]);
    assert(out@ =~= start + crate::storage::hex_of(s));
}

fn glyph_fragment_string(g: &GlyphFragment) -> (s: String)
    ensures
        s@ == glyph_fragment_line(*g),
{
    let mut out = String::from_str("    glyph fragment=");
    push_dec(&mut out, g.id.0 as u64);
    crate::text_util::push_str(&mut out, " box=");
    push_dec(&mut out, g.box_id.0 as u64);
    crate::text_util::push_str(&mut out, " source=");
    push_source(&mut out, g.source);
    crate::text_util::push_str(&mut out, " font=");
    push_dec(&mut out, g.font.0 as u64);
    crate::text_util::push_str(&mut out, " script=");
    let sc = crate::fonts::script_debug(g.script);
    crate::text_util::push_str(&mut out, sc.as_str());
    crate::text_util::push_str(&mut out, " direction=");
    let dir = crate::shaping::direction_debug(g.direction);
    crate::text_util::push_str(&mut out, dir.as_str());
    crate::text_util::push_str(&mut out, " char=");
    let ch = crate::text_util::debug_char(g.character);
    crate::text_util::push_str(&mut out, ch.as_str());
    crate::text_util::push_str(&mut out, " cluster=");
    push_dec(&mut out, g.cluster as u64);
    crate::text_util::push_str(&mut out, " x=");
    push_signed(&mut out, g.x.0);
    crate::text_util::push_str(&mut out, " baseline=");
    push_signed(&mut out, g.baseline.0);
    crate::text_util::push_str(&mut out, " advance=");
    push_signed(&mut out, g.advance.0);
    crate::text_util::push_str(&mut out, " color=#");
    push_color(&mut out, g.style.color);
    crate::text_util::push_str(&mut out, " weight=");
    push_dec(&mut out, g.style.weight as u64);
    crate::text_util::push_str(&mut out, " slant=");
    let sl = crate::fonts::slant_debug(g.style.slant);
    crate::text_util::push_str(&mut out, sl.as_str());
    crate::text_util::push_str(&mut out, " decoration=(");
    push_bool(&mut out, g.style.decorations.underline);
    crate::text_util::push_str(&mut out, ",");
    push_bool(&mut out, g.style.decorations.line_through);
    crate::text_util::push_str(&mut out, ")\n");
    out
}

fn line_fragment_string(l: &LineFragment) -> (s: String)
    ensures
        s@ == line_fragment_block(*l),
{
    let mut out = String::from_str("  line fragment=");
    push_dec(&mut out, l.id.0 as u64);
    crate::text_util::push_str(&mut out, " rect=");
    push_rect(&mut out, l.rect);
    crate::text_util::push_str(&mut out, " baseline=");
    push_signed(&mut out, l.baseline.0);
    crate::text_util::push_str(&mut out, " used=");
    push_signed(&mut out, l.used_width.0);
    crate::text_util::push_str(&mut out, "\n");
    let ghost head = out@;
    let mut i: usize = 0;
    while i < l.glyphs.len()
        invariant
            i <= l.glyphs@.len(),
            out@ == head + glyph_fragment_lines(l.glyphs@, i as int),
        decreases l.glyphs@.len() - i,
    {
        let line = glyph_fragment_string(&l.glyphs[i]);
        crate::text_util::push_str(&mut out, line.as_str());
        i += 1;
    }
    out
}

#[verifier::spinoff_prover]
#[verifier::rlimit(30)]
fn paragraph_string(p: &ParagraphFragment) -> (s: String)
    ensures
        s@ == paragraph_block(*p),
{
    let mut out = String::from_str("paragraph fragment=");
    push_dec(&mut out, p.id.0 as u64);
    crate::text_util::push_str(&mut out, " box=");
    push_dec(&mut out, p.box_id.0 as u64);
    crate::text_util::push_str(&mut out, " source=");
    push_source(&mut out, p.source);
    crate::text_util::push_str(&mut out, " rect=");
    push_rect(&mut out, p.rect);
    crate::text_util::push_str(&mut out, " text=");
    let t = crate::text_util::debug_quoted(p.text.as_str());
    crate::text_util::push_str(&mut out, t.as_str());
    crate::text_util::push_str(&mut out, "\n");
    let ghost head = out@;
    let mut i: usize = 0;
    while i < p.lines.len()
        invariant
            i <= p.lines@.len(),
            out@ == head + line_fragment_blocks(p.lines@, i as int),
        decreases p.lines@.len() - i,
    {
        let block = line_fragment_string(&p.lines[i]);
        crate::text_util::push_str(&mut out, block.as_str());
        i += 1;
    }
    out
}

impl FragmentTree {
    /// A stable text listing of paragraphs, lines and glyph fragments.
    pub fn dump(&self) -> (r: String)
        ensures
            r@ == "#fragment-tree\n"@ + paragraph_blocks(
                self.spec_paragraphs(),
                self.spec_paragraphs().len() as int,
            ),
    {
        let mut out = String::from_str("#fragment-tree\n");
        let ghost head = out@;
        let mut i: usize = 0;
        while i < self.paragraphs.len()
            invariant
                i <= self.paragraphs@.len(),
                out@ == head + paragraph_blocks(self.paragraphs@, i as int),
            decreases self.paragraphs@.len() - i,
        {
            let block = paragraph_string(&self.paragraphs[i]);
            let ghost before = out@;
            crate::text_util::push_str(&mut out, block.as_str());
            assert(out@ =~= head + paragraph_blocks(self.paragraphs@, i + 1)) by {
                assert(before == head + paragraph_blocks(self.paragraphs@, i as int));
                assert(block@ == paragraph_block(self.paragraphs@[i as int]));
            }
            i += 1;
        }
        out
    }
}

} // verus!

use crate::fonts::{FontDatabase, FontFace};
use crate::fragments::{collapse_pieces, pieces_view, styled_pieces};
use crate::line_breaking::{layout_paragraph, line_matches, spec_collapse_whitespace, spec_wrap_text, TextAlign};
use crate::shaping::{chars_covered, spec_paragraph_direction};
use crate::line_breaking::law_collapse_whitespace_idempotent;
use crate::fragments::{law_collapse_pieces_matches_collapse_whitespace, pieces_text};

verus! {

/// What `layout_paragraph` promises of the layout of `text`.
pub open spec fn layout_admits(
    pl: ParagraphLayout,
    faces: Seq<FontFace>,
    request: FontRequest,
    text: Seq<char>,
    width: i32,
    align: TextAlign,
) -> bool {
    let w: int = if width >= 1 { width as int } else { 1 };
    let wrapped = spec_wrap_text(faces, request, w, spec_collapse_whitespace(text));
    &&& pl.width == w
    &&& pl.align == align
    &&& pl.collapsed_text@ == spec_collapse_whitespace(text)
    &&& pl.direction == spec_paragraph_direction(pl.collapsed_text@)
    &&& pl.lines@.len() == wrapped.len()
    &&& forall|i: int|
        0 <= i < pl.lines@.len() ==> line_matches(
            #[trigger] pl.lines@[i],
            faces,
            request,
            wrapped[i],
            w,
            align,
            i,
            i + 1 == pl.lines@.len(),
        )
}

/// The fragment of a laid-out paragraph can be built without leaving the
/// range of a type: what `paragraph_fragment` requires.
pub open spec fn fragment_fits(
    pl: ParagraphLayout,
    styled: StyledText,
    ctx: FragmentContext,
    next_id: u32,
) -> bool {
    &&& pl.lines@.len() * 16 <= i32::MAX
    &&& line_search_ok(encode_utf8(styled.text@), line_texts(pl.lines@))
    &&& next_id + 1 + ids_before(pl.lines@, pl.lines@.len() as int) <= u32::MAX
    &&& forall|l: int|
        0 <= l < pl.lines@.len() ==> line_glyphs_fit(
            ctx,
            #[trigger] pl.lines@[l],
            line_start(encode_utf8(styled.text@), line_texts(pl.lines@), l),
        ) && line_box_fits(ctx, pl.lines@[l])
}

/// What `paragraph_fragment` promises of the fragment `p` of `pl`.
pub open spec fn fragment_admits(
    p: ParagraphFragment,
    pl: ParagraphLayout,
    styled: StyledText,
    ctx: FragmentContext,
    styles: Seq<(u64, InlineStyleValues)>,
    first_id: u32,
    next_id: u32,
) -> bool {
    &&& p.id == FragmentId(first_id)
    &&& p.box_id == ctx.box_id
    &&& p.source == ctx.source
    &&& p.rect == (LayoutRect {
        x: ctx.content.x,
        y: ctx.content.y,
        width: ctx.content.width,
        height: CssPx((pl.lines@.len() * 16) as i32),
    })
    &&& p.text@ == styled.text@
    &&& p.lines@.len() == pl.lines@.len()
    &&& forall|l: int|
        0 <= l < pl.lines@.len() ==> line_fragment_ok(
            #[trigger] p.lines@[l],
            first_id + 1 + ids_before(pl.lines@, l),
            ctx,
            pl.lines@[l],
            line_start(encode_utf8(styled.text@), line_texts(pl.lines@), l),
            styled.spans@,
            styles,
        )
    &&& next_id == first_id + 1 + ids_before(pl.lines@, pl.lines@.len() as int)
}

/// Every layout that `layout_paragraph` may give for the collapsed text of
/// `pieces` yields a fragment that fits.
pub open spec fn paragraph_fits(
    faces: Seq<FontFace>,
    request: FontRequest,
    pieces: Seq<(Option<u64>, String)>,
    width: i32,
    align: TextAlign,
    ctx: FragmentContext,
    next_id: u32,
) -> bool {
    let text = styled_pieces(pieces_view(pieces)).text;
    forall|pl: ParagraphLayout, styled: StyledText|
        #![trigger layout_admits(pl, faces, request, text, width, align), fragment_fits(pl, styled, ctx, next_id)]
        layout_admits(pl, faces, request, text, width, align) && styled.text@ == text
            && styled.spans@ == styled_pieces(pieces_view(pieces)).spans ==> fragment_fits(
            pl,
            styled,
            ctx,
            next_id,
        )
}

/// The paragraph fragment of a block whose inline content is `pieces` (each
/// text run with the node it came from): none when the collapsed text is
/// empty; otherwise the collapsed text is laid out in `width` and the
/// fragment built from the layout, taking identities from `next_id`.
pub fn build_paragraph(
    database: &mut FontDatabase,
    request: &FontRequest,
    pieces: Vec<(Option<u64>, String)>,
    width: i32,
    align: TextAlign,
    ctx: &FragmentContext,
    styles: &[(u64, InlineStyleValues)],
    next_id: &mut u32,
) -> (r: Option<ParagraphFragment>)
    requires
        old(database).wf(),
        chars_covered(old(database).spec_faces(), styled_pieces(pieces_view(pieces@)).text),
        styled_pieces(pieces_view(pieces@)).text.len() <= 134_000_000,
        paragraph_fits(old(database).spec_faces(), *request, pieces@, width, align, *ctx, *old(next_id)),
    ensures
        final(database).wf(),
        final(database).spec_faces() == old(database).spec_faces(),
        r is None <==> styled_pieces(pieces_view(pieces@)).text.len() == 0,
        r is None ==> *final(next_id) == *old(next_id),
        r matches Some(p) ==> exists|pl: ParagraphLayout, styled: StyledText|
            #![trigger layout_admits(pl, old(database).spec_faces(), *request, styled.text@, width, align)]
            layout_admits(
                pl,
                old(database).spec_faces(),
                *request,
                styled.text@,
                width,
                align,
            ) && styled.text@ == styled_pieces(pieces_view(pieces@)).text && styled.spans@
                == styled_pieces(pieces_view(pieces@)).spans && fragment_admits(
                p,
                pl,
                styled,
                *ctx,
                styles@,
                *old(next_id),
                *final(next_id),
            ),
{
    let ghost faces = database.spec_faces();
    let ghost text = styled_pieces(pieces_view(pieces@)).text;
    let styled = collapse_pieces(pieces);
    if crate::text_util::str_to_chars(styled.text.as_str()).len() == 0 {
        return None;
    }
    let ghost first = *next_id;
    proof {
        law_collapse_pieces_matches_collapse_whitespace(pieces_view(pieces@));
        law_collapse_whitespace_idempotent(pieces_text(pieces_view(pieces@)));
        assert(spec_collapse_whitespace(styled.text@) == styled.text@);
    }
    let paragraph = layout_paragraph(database, request, styled.text.as_str(), width, align);
    assert(layout_admits(paragraph, faces, *request, text, width, align));
    assert(fragment_fits(paragraph, styled, *ctx, first));
    let p = paragraph_fragment(&paragraph, &styled, ctx, styles, next_id);
    assert(fragment_admits(p, paragraph, styled, *ctx, styles@, first, *next_id));
    Some(p)
}

} // verus!
