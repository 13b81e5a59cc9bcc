//! Identities and decorations of inline fragments.
use vstd::prelude::*;

verus! {

/// Stable identity inside one fragment tree.
#[derive(Clone, Copy, Debug, PartialEq, Eq, Structural, PartialOrd, Ord, Hash)]
pub struct FragmentId(pub u32);

/// Text-decoration lines.
#[derive(Clone, Copy, Debug, PartialEq, Eq, Structural)]
pub struct TextDecorations {
    pub underline: bool,
    pub line_through: bool,
}

impl Default for TextDecorations {
    fn default() -> (r: Self)
        ensures
            !r.underline && !r.line_through,
    {
        TextDecorations { underline: false, line_through: false }
    }
}

} // verus!

use crate::fonts::FontSlant;
use crate::line_breaking::TextAlign;
use crate::text_util::is_ascii_digit_char;

verus! {

/// Value of a run of ASCII decimal digits.
pub open spec fn digits_value(s: Seq<char>) -> nat
    decreases s.len(),
{
    if s.len() == 0 {
        0
    } else {
        digits_value(s.drop_last()) * 10 + ((s.last() as int - '0' as int) as nat)
    }
}

/// Whether every character is an ASCII digit.
pub open spec fn all_digits(s: Seq<char>) -> bool {
    forall|i: int| 0 <= i < s.len() ==> is_ascii_digit_char(#[trigger] s[i])
}

/// The digits that `u16::from_str` reads: an optional leading `+` is skipped.
pub open spec fn unsigned_digits(s: Seq<char>) -> Seq<char> {
    if s.len() > 0 && s[0] == '+' {
        s.drop_first()
    } else {
        s
    }
}

/// `u16::from_str`: an optional `+`, then one or more ASCII digits whose value
/// fits in `u16`.
pub open spec fn spec_parse_u16(s: Seq<char>) -> Option<u16> {
    let d = unsigned_digits(s);
    if d.len() > 0 && all_digits(d) && digits_value(d) <= u16::MAX {
        Some(digits_value(d) as u16)
    } else {
        None
    }
}

/// Parses a decimal `u16` as `str::parse::<u16>` does.
pub fn parse_u16(value: &str) -> (r: Option<u16>)
    ensures
        r == spec_parse_u16(value@),
{
    let chars = crate::text_util::str_to_chars(value);
    let n = chars.len();
    let mut i: usize = 0;
    if n > 0 && chars[0] == '+' {
        i = 1;
    }
    let ghost d = unsigned_digits(value@);
    assert(d =~= chars@.skip(i as int));
    if i >= n {
        return None;
    }
    let start = i;
    let mut acc: u32 = 0;
    let mut over = false;
    while i < n
        invariant
            chars@ == value@,
            n == chars@.len(),
            start <= i <= n,
            d =~= chars@.skip(start as int),
            d == unsigned_digits(value@),
            all_digits(chars@.subrange(start as int, i as int)),
            !over ==> acc == digits_value(chars@.subrange(start as int, i as int)),
            !over ==> acc <= u16::MAX,
            over ==> digits_value(chars@.subrange(start as int, i as int)) > u16::MAX,
        decreases n - i,
    {
        let c = chars[i];
        if !('0' <= c && c <= '9') {
            proof {
                assert(d[i - start] == c);
                assert(!is_ascii_digit_char(d[i - start]));
                assert(!all_digits(d));
            }
            return None;
        }
        let ghost prev = chars@.subrange(start as int, i as int);
        let ghost next = chars@.subrange(start as int, i + 1);
        assert(next.drop_last() =~= prev);
        assert(next.last() == c);
        let digit: u32 = (c as u32) - ('0' as u32);
        if !over {
            let v: u32 = acc * 10 + digit;
            if v > 65535 {
                over = true;
            } else {
                acc = v;
            }
        } else {
            assert(digits_value(next) >= digits_value(prev)) by (nonlinear_arith)
                requires
                    digits_value(next) == digits_value(prev) * 10 + (c as int - '0' as int),
                    '0' <= c <= '9',
            ;
        }
        i += 1;
    }
    assert(chars@.subrange(start as int, n as int) =~= d);
    if over {
        None
    } else {
        Some(acc as u16)
    }
}

/// `font-weight` keyword or number as a numeric weight.
pub open spec fn spec_font_weight(value: Seq<char>) -> u16 {
    if value == "normal"@ {
        400
    } else if value == "bold"@ || value == "bolder"@ {
        700
    } else if value == "lighter"@ {
        300
    } else {
        match spec_parse_u16(value) {
            Some(w) => if w < 1 {
                1
            } else if w > 1000 {
                1000
            } else {
                w
            },
            None => 400,
        }
    }
}

/// Numeric weight of a computed `font-weight` value; unparsable values are 400
/// and numbers are clamped to 1..=1000.
pub fn font_weight(value: &str) -> (r: u16)
    ensures
        r == spec_font_weight(value@),
        1 <= r <= 1000,
{
    if crate::text_util::str_equal(value, "normal") {
        400
    } else if crate::text_util::str_equal(value, "bold") || crate::text_util::str_equal(
        value,
        "bolder",
    ) {
        700
    } else if crate::text_util::str_equal(value, "lighter") {
        300
    } else {
        match parse_u16(value) {
            Some(w) => if w < 1 {
                1
            } else if w > 1000 {
                1000
            } else {
                w
            },
            None => 400,
        }
    }
}

/// Slant of a computed `font-style` value.
pub open spec fn spec_font_slant(value: Seq<char>) -> FontSlant {
    if value == "italic"@ || value == "oblique"@ {
        FontSlant::Italic
    } else {
        FontSlant::Normal
    }
}

/// Slant of a computed `font-style` value: `italic` and `oblique` slant.
pub fn font_slant(value: &str) -> (r: FontSlant)
    ensures
        r == spec_font_slant(value@),
{
    if crate::text_util::str_equal(value, "italic") || crate::text_util::str_equal(
        value,
        "oblique",
    ) {
        FontSlant::Italic
    } else {
        FontSlant::Normal
    }
}

/// Alignment of a computed `text-align` value, `start` when absent or unknown.
pub open spec fn spec_text_align(value: Option<Seq<char>>) -> TextAlign {
    match value {
        Some(v) => if v == "end"@ {
            TextAlign::End
        } else if v == "left"@ {
            TextAlign::Left
        } else if v == "right"@ {
            TextAlign::Right
        } else if v == "center"@ {
            TextAlign::Center
        } else if v == "justify"@ {
            TextAlign::Justify
        } else {
            TextAlign::Start
        },
        None => TextAlign::Start,
    }
}

/// Alignment of a paragraph for its container's `text-align`, if it has a style.
pub fn text_align(value: Option<&str>) -> (r: TextAlign)
    ensures
        r == spec_text_align(
            match value {
                Some(v) => Some(v@),
                None => None,
            },
        ),
{
    match value {
        Some(v) => if crate::text_util::str_equal(v, "end") {
            TextAlign::End
        } else if crate::text_util::str_equal(v, "left") {
            TextAlign::Left
        } else if crate::text_util::str_equal(v, "right") {
            TextAlign::Right
        } else if crate::text_util::str_equal(v, "center") {
            TextAlign::Center
        } else if crate::text_util::str_equal(v, "justify") {
            TextAlign::Justify
        } else {
            TextAlign::Start
        },
        None => TextAlign::Start,
    }
}

} // verus!

use crate::text_util::{is_white_space, split_on, trim_class, TrimClass};

verus! {

/// One `font-family` entry: surrounding whitespace, then surrounding quotes removed.
pub open spec fn family_name(part: Seq<char>) -> Seq<char> {
    trim_class(trim_class(part, TrimClass::Whitespace), TrimClass::Quotes)
}

/// The family names of the parts that are not empty once trimmed, in order.
pub open spec fn nonempty_family_names(parts: Seq<Seq<char>>) -> Seq<Seq<char>>
    decreases parts.len(),
{
    if parts.len() == 0 {
        Seq::empty()
    } else {
        let rest = nonempty_family_names(parts.drop_last());
        let name = family_name(parts.last());
        if name.len() > 0 {
            rest.push(name)
        } else {
            rest
        }
    }
}

/// The families of a computed `font-family` list, split at commas.
pub open spec fn spec_font_families(value: Seq<char>) -> Seq<Seq<char>> {
    nonempty_family_names(split_on(value, ','))
}

/// The non-empty, unquoted family names of a comma-separated `font-family` value.
pub fn font_families(value: &str) -> (r: Vec<String>)
    ensures
        r@.len() == spec_font_families(value@).len(),
        forall|i: int| 0 <= i < r@.len() ==> #[trigger] r@[i]@ == spec_font_families(value@)[i],
{
    let chars = crate::text_util::str_to_chars(value);
    let parts = crate::text_util::split_chars(chars.as_slice(), ',');
    let ghost spec_parts = split_on(value@, ',');
    assert(spec_parts.len() == parts@.len());
    let mut out: Vec<String> = Vec::new();
    let mut i: usize = 0;
    while i < parts.len()
        invariant
            i <= parts@.len(),
            spec_parts.len() == parts@.len(),
            forall|k: int| 0 <= k < parts@.len() ==> #[trigger] parts@[k]@ == spec_parts[k],
            out@.len() == nonempty_family_names(spec_parts.take(i as int)).len(),
            forall|k: int|
                0 <= k < out@.len() ==> #[trigger] out@[k]@ == nonempty_family_names(
                    spec_parts.take(i as int),
                )[k],
        decreases parts@.len() - i,
    {
        let trimmed = crate::text_util::trim_chars(parts[i].as_slice(), TrimClass::Whitespace);
        let name = crate::text_util::trim_chars(trimmed.as_slice(), TrimClass::Quotes);
        assert(spec_parts.take(i + 1).drop_last() =~= spec_parts.take(i as int));
        assert(spec_parts.take(i + 1).last() == parts@[i as int]@);
        if name.len() > 0 {
            let s = crate::text_util::chars_to_string(name.as_slice());
            out.push(s);
        }
        i += 1;
    }
    assert(spec_parts.take(parts@.len() as int) =~= spec_parts);
    out
}

/// Whitespace-separated tokens (`str::split_whitespace`) with the token in
/// progress: the complete tokens so far and the current partial token.
pub open spec fn token_state(s: Seq<char>) -> (Seq<Seq<char>>, Seq<char>)
    decreases s.len(),
{
    if s.len() == 0 {
        (Seq::empty(), Seq::empty())
    } else {
        let (done, cur) = token_state(s.drop_last());
        let c = s.last();
        if is_white_space(c) {
            if cur.len() > 0 {
                (done.push(cur), Seq::empty())
            } else {
                (done, cur)
            }
        } else {
            (done, cur.push(c))
        }
    }
}

/// The tokens of `str::split_whitespace`.
pub open spec fn whitespace_tokens(s: Seq<char>) -> Seq<Seq<char>> {
    let (done, cur) = token_state(s);
    if cur.len() > 0 {
        done.push(cur)
    } else {
        done
    }
}

/// The decorations of a computed `text-decoration-line` value.
pub open spec fn spec_text_decorations(value: Seq<char>) -> TextDecorations {
    TextDecorations {
        underline: whitespace_tokens(value).contains("underline"@),
        line_through: whitespace_tokens(value).contains("line-through"@),
    }
}

proof fn lemma_contains_push(s: Seq<Seq<char>>, x: Seq<char>, t: Seq<char>)
    ensures
        s.push(x).contains(t) == (s.contains(t) || x == t),
{
    let n = s.push(x);
    if x == t {
        assert(n[n.len() - 1] == x);
    }
    if n.contains(t) && x != t {
        let k = choose|k: int| 0 <= k < n.len() && n[k] == t;
        assert(s[k] == t);
    }
    if s.contains(t) {
        let k = choose|k: int| 0 <= k < s.len() && s[k] == t;
        assert(n[k] == t);
    }
}

/// Underline and line-through flags of a `text-decoration-line` value.
pub fn text_decorations(value: &str) -> (r: TextDecorations)
    ensures
        r == spec_text_decorations(value@),
{
    let chars = crate::text_util::str_to_chars(value);
    let underline: Vec<char> = vec!['u', 'n', 'd', 'e', 'r', 'l', 'i', 'n', 'e'];
    let line_through: Vec<char> = vec!['l', 'i', 'n', 'e', '-', 't', 'h', 'r', 'o', 'u', 'g', 'h'];
    proof {
        reveal_strlit("underline");
        reveal_strlit("line-through");
    }
    assert(underline@ =~= "underline"@);
    assert(line_through@ =~= "line-through"@);
    let mut has_underline = false;
    let mut has_line_through = false;
    let mut cur: Vec<char> = Vec::new();
    let mut i: usize = 0;
    while i < chars.len()
        invariant
            i <= chars@.len(),
            chars@ == value@,
            underline@ == "underline"@,
            line_through@ == "line-through"@,
            cur@ == token_state(chars@.take(i as int)).1,
            has_underline == token_state(chars@.take(i as int)).0.contains("underline"@),
            has_line_through == token_state(chars@.take(i as int)).0.contains("line-through"@),
        decreases chars@.len() - i,
    {
        let c = chars[i];
        assert(chars@.take(i + 1).drop_last() =~= chars@.take(i as int));
        let ghost done = token_state(chars@.take(i as int)).0;
        if crate::text_util::char_is_whitespace(c) {
            if cur.len() > 0 {
                let u = crate::text_util::chars_equal(cur.as_slice(), underline.as_slice());
                let l = crate::text_util::chars_equal(cur.as_slice(), line_through.as_slice());
                proof {
                    lemma_contains_push(done, cur@, "underline"@);
                    lemma_contains_push(done, cur@, "line-through"@);
                }
                has_underline = has_underline || u;
                has_line_through = has_line_through || l;
                cur = Vec::new();
            }
        } else {
            cur.push(c);
        }
        i += 1;
    }
    assert(chars@.take(chars@.len() as int) =~= chars@);
    let ghost done = token_state(chars@).0;
    if cur.len() > 0 {
        let u = crate::text_util::chars_equal(cur.as_slice(), underline.as_slice());
        let l = crate::text_util::chars_equal(cur.as_slice(), line_through.as_slice());
        proof {
            lemma_contains_push(done, cur@, "underline"@);
            lemma_contains_push(done, cur@, "line-through"@);
        }
        has_underline = has_underline || u;
        has_line_through = has_line_through || l;
    }
    TextDecorations { underline: has_underline, line_through: has_line_through }
}

} // verus!

use crate::text_util::{utf8_byte_len, utf8_len};

verus! {

/// A byte range of paragraph text and the styled node it came from.
#[derive(Clone, Copy, Debug, PartialEq, Eq, Structural)]
pub struct StyledSpan {
    pub start: usize,
    pub end: usize,
    pub source: Option<u64>,
}

/// Collapsed paragraph text with the byte ranges of each source node.
#[derive(Clone, Debug)]
pub struct StyledText {
    pub text: String,
    pub spans: Vec<StyledSpan>,
}

/// State of collapsing styled pieces: text and spans so far, and whether a
/// space is pending together with the source of the whitespace that made it.
pub struct StyledModel {
    pub text: Seq<char>,
    pub spans: Seq<StyledSpan>,
    pub pending: bool,
    pub pending_source: Option<u64>,
}

pub open spec fn initial_styled() -> StyledModel {
    StyledModel { text: Seq::empty(), spans: Seq::empty(), pending: false, pending_source: None }
}

/// Appends `c` from `source`: the last span grows when it has the same source
/// and ends where `c` starts, else a new span begins.
pub open spec fn push_styled(m: StyledModel, c: char, source: Option<u64>) -> StyledModel {
    let start = utf8_byte_len(m.text);
    let end = start + utf8_len(c);
    let spans = if m.spans.len() > 0 && m.spans.last().source == source && m.spans.last().end
        == start {
        m.spans.update(
            m.spans.len() - 1,
            StyledSpan { start: m.spans.last().start, end: end as usize, source },
        )
    } else {
        m.spans.push(StyledSpan { start: start as usize, end: end as usize, source })
    };
    StyledModel { text: m.text.push(c), spans, ..m }
}

pub open spec fn or_source(a: Option<u64>, b: Option<u64>) -> Option<u64> {
    match a {
        Some(x) => Some(x),
        None => b,
    }
}

/// One character of a piece: whitespace only marks a pending space once some
/// text exists; other characters first flush a pending space.
pub open spec fn styled_step(m: StyledModel, c: char, source: Option<u64>) -> StyledModel {
    if is_white_space(c) {
        if m.text.len() > 0 {
            StyledModel { pending: true, pending_source: source, ..m }
        } else {
            m
        }
    } else {
        let m1 = if m.pending {
            let p = push_styled(m, ' ', or_source(m.pending_source, source));
            StyledModel { pending: false, ..p }
        } else {
            m
        };
        push_styled(m1, c, source)
    }
}

pub open spec fn styled_chars(m: StyledModel, source: Option<u64>, cs: Seq<char>) -> StyledModel
    decreases cs.len(),
{
    if cs.len() == 0 {
        m
    } else {
        styled_step(styled_chars(m, source, cs.drop_last()), cs.last(), source)
    }
}

/// The state after collapsing every piece in order.
pub open spec fn styled_pieces(ps: Seq<(Option<u64>, Seq<char>)>) -> StyledModel
    decreases ps.len(),
{
    if ps.len() == 0 {
        initial_styled()
    } else {
        styled_chars(styled_pieces(ps.drop_last()), ps.last().0, ps.last().1)
    }
}

pub open spec fn pieces_view(ps: Seq<(Option<u64>, String)>) -> Seq<(Option<u64>, Seq<char>)> {
    Seq::new(ps.len(), |i: int| (ps[i].0, ps[i].1@))
}

fn push_styled_char(output: &mut StyledText, character: char, source: Option<u64>)
    requires
        spans_tile(old(output).spans@, old(output).text@),
    ensures
        spans_tile(final(output).spans@, final(output).text@),
        final(output).text@ == push_styled(
            StyledModel { text: old(output).text@, spans: old(output).spans@, pending: false, pending_source: None },
            character,
            source,
        ).text,
        final(output).spans@ == push_styled(
            StyledModel { text: old(output).text@, spans: old(output).spans@, pending: false, pending_source: None },
            character,
            source,
        ).spans,
{
    let start = crate::text_util::str_byte_len(output.text.as_str());
    crate::text_util::string_push(&mut output.text, character);
    let end = crate::text_util::str_byte_len(output.text.as_str());
    proof {
        crate::text_util::lemma_utf8_byte_len_push(old(output).text@, character);
    }
    let n = output.spans.len();
    if n > 0 && output.spans[n - 1].source == source && output.spans[n - 1].end == start {
        let last = output.spans[n - 1];
        output.spans.set(n - 1, StyledSpan { start: last.start, end, source });
    } else {
        output.spans.push(StyledSpan { start, end, source });
    }
}

/// Collapses whitespace across styled text pieces, keeping the byte range of
/// each source node; a collapsed space takes the source of the whitespace
/// that produced it, or of the following text when that had none.
pub fn collapse_pieces(pieces: Vec<(Option<u64>, String)>) -> (r: StyledText)
    ensures
        r.text@ == styled_pieces(pieces_view(pieces@)).text,
        r.spans@ == styled_pieces(pieces_view(pieces@)).spans,
        spans_tile(r.spans@, r.text@),
{
    let ghost pv = pieces_view(pieces@);
    let mut output = StyledText { text: String::new(), spans: Vec::new() };
    let mut pending_space = false;
    let mut pending_source: Option<u64> = None;
    let mut i: usize = 0;
    while i < pieces.len()
        invariant
            i <= pieces@.len(),
            pv == pieces_view(pieces@),
            ({
                let m = styled_pieces(pv.take(i as int));
                &&& output.text@ == m.text
                &&& output.spans@ == m.spans
                &&& pending_space == m.pending
                &&& pending_source == m.pending_source
            }),
            spans_tile(output.spans@, output.text@),
        decreases pieces@.len() - i,
    {
        let source = pieces[i].0;
        let chars = crate::text_util::str_to_chars(pieces[i].1.as_str());
        let ghost base = styled_pieces(pv.take(i as int));
        assert(pv.take(i + 1).drop_last() =~= pv.take(i as int));
        assert(pv.take(i + 1).last() == (source, chars@));
        let mut j: usize = 0;
        while j < chars.len()
            invariant
                j <= chars@.len(),
                ({
                    let m = styled_chars(base, source, chars@.take(j as int));
                    &&& output.text@ == m.text
                    &&& output.spans@ == m.spans
                    &&& pending_space == m.pending
                    &&& pending_source == m.pending_source
                }),
                spans_tile(output.spans@, output.text@),
            decreases chars@.len() - j,
        {
            let c = chars[j];
            assert(chars@.take(j + 1).drop_last() =~= chars@.take(j as int));
            if crate::text_util::char_is_whitespace(c) {
                if crate::text_util::str_byte_len(output.text.as_str()) > 0 {
                    proof {
                        crate::text_util::lemma_encode_utf8_len(output.text@);
                        if output.text@.len() == 0 {
                            assert(output.text@ =~= Seq::<char>::empty());
                        }
                    }
                    pending_space = true;
                    pending_source = source;
                } else {
                    proof {
                        if output.text@.len() > 0 {
                            crate::text_util::lemma_utf8_byte_len_prefix_le(output.text@, 1);
                            assert(output.text@.take(1).drop_last() =~= Seq::<char>::empty());
                        }
                    }
                }
            } else {
                if pending_space {
                    let s = match pending_source {
                        Some(x) => Some(x),
                        None => source,
                    };
                    push_styled_char(&mut output, ' ', s);
                    pending_space = false;
                }
                push_styled_char(&mut output, c, source);
            }
            j += 1;
        }
        assert(chars@.take(chars@.len() as int) =~= chars@);
        i += 1;
    }
    assert(pv.take(pieces@.len() as int) =~= pv);
    output
}

} // verus!

use crate::line_breaking::{collapse_state, spec_collapse_whitespace};

verus! {

/// The pieces' texts joined in order.
pub open spec fn pieces_text(ps: Seq<(Option<u64>, Seq<char>)>) -> Seq<char>
    decreases ps.len(),
{
    if ps.len() == 0 {
        Seq::empty()
    } else {
        pieces_text(ps.drop_last()) + ps.last().1
    }
}

proof fn lemma_collapse_pending_nonempty(t: Seq<char>)
    ensures
        collapse_state(t).1 ==> collapse_state(t).0.len() > 0,
    decreases t.len(),
{
    if t.len() > 0 {
        lemma_collapse_pending_nonempty(t.drop_last());
    }
}

proof fn lemma_styled_chars_collapse(m: StyledModel, t: Seq<char>, source: Option<u64>, cs: Seq<char>)
    requires
        m.text == collapse_state(t).0,
        m.pending == collapse_state(t).1,
    ensures
        styled_chars(m, source, cs).text == collapse_state(t + cs).0,
        styled_chars(m, source, cs).pending == collapse_state(t + cs).1,
    decreases cs.len(),
{
    if cs.len() > 0 {
        lemma_styled_chars_collapse(m, t, source, cs.drop_last());
        assert((t + cs).drop_last() =~= t + cs.drop_last());
        assert((t + cs).last() == cs.last());
        lemma_collapse_pending_nonempty(t + cs.drop_last());
    } else {
        assert(t + cs =~= t);
    }
}

/// Collapsing styled pieces yields exactly the whitespace collapse of their
/// joined text, whatever sources the pieces carry.
pub proof fn law_collapse_pieces_matches_collapse_whitespace(ps: Seq<(Option<u64>, Seq<char>)>)
    ensures
        styled_pieces(ps).text == spec_collapse_whitespace(pieces_text(ps)),
    decreases ps.len(),
{
    lemma_styled_pieces_collapse(ps);
}

proof fn lemma_styled_pieces_collapse(ps: Seq<(Option<u64>, Seq<char>)>)
    ensures
        styled_pieces(ps).text == collapse_state(pieces_text(ps)).0,
        styled_pieces(ps).pending == collapse_state(pieces_text(ps)).1,
    decreases ps.len(),
{
    if ps.len() > 0 {
        lemma_styled_pieces_collapse(ps.drop_last());
        lemma_styled_chars_collapse(
            styled_pieces(ps.drop_last()),
            pieces_text(ps.drop_last()),
            ps.last().0,
            ps.last().1,
        );
    }
}

/// Spans tile the text: they are non-empty, contiguous from byte 0 to the
/// text's end, and neighbouring spans come from different sources.
pub open spec fn spans_tile(spans: Seq<StyledSpan>, text: Seq<char>) -> bool {
    &&& (spans.len() == 0 <==> text.len() == 0)
    &&& spans.len() > 0 ==> spans[0].start == 0 && spans.last().end == utf8_byte_len(text)
    &&& forall|k: int| 0 <= k < spans.len() ==> #[trigger] spans[k].start < spans[k].end
    &&& forall|k: int|
        0 <= k < spans.len() - 1 ==> #[trigger] spans[k].end == spans[k + 1].start
            && spans[k].source != spans[k + 1].source
}

} // verus!

verus! {

/// The source of the first span whose byte range holds `offset`, if any.
pub open spec fn spec_span_source(spans: Seq<StyledSpan>, offset: int) -> Option<u64>
    decreases spans.len(),
{
    if spans.len() == 0 {
        None
    } else if spans[0].start <= offset < spans[0].end {
        spans[0].source
    } else {
        spec_span_source(spans.drop_first(), offset)
    }
}

/// The source node of the text at a byte offset of a styled paragraph.
pub fn span_source(spans: &[StyledSpan], byte_offset: usize) -> (r: Option<u64>)
    ensures
        r == spec_span_source(spans@, byte_offset as int),
{
    let mut i: usize = 0;
    assert(spans@.skip(0) =~= spans@);
    while i < spans.len()
        invariant
            i <= spans@.len(),
            spec_span_source(spans@, byte_offset as int) == spec_span_source(
                spans@.skip(i as int),
                byte_offset as int,
            ),
        decreases spans@.len() - i,
    {
        assert(spans@.skip(i as int).drop_first() =~= spans@.skip(i + 1));
        assert(spans@.skip(i as int)[0] == spans@[i as int]);
        if spans[i].start <= byte_offset && byte_offset < spans[i].end {
            return spans[i].source;
        }
        i += 1;
    }
    None
}

} // verus!
