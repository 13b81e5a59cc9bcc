//! Whitespace collapsing, greedy line wrapping, alignment, and justification.
use vstd::prelude::*;
use crate::fonts::{some_face_covers, FontDatabase, FontFace, FontId, FontRequest, Script};
use crate::shaping::{
    spec_paragraph_direction, spec_run_glyphs, spec_visual_runs, sum_glyph_advances,
    chars_covered, lemma_covered_shapeable, measure, shape_text, shapeable, spec_text_advance, spec_is_combining_mark, is_combining_mark, ShapedGlyph, TextDirection,
    glyph_bounded, RunModel, ShapedRun,
};
use crate::text_util::{
    char_is_whitespace, is_white_space, str_to_chars, utf8_byte_len, seqs_total_len,
    lemma_seqs_total_push, split_on, lemma_split_on_len,
};

verus! {

/// State of whitespace collapsing: the output so far and whether a space is pending.
pub open spec fn collapse_state(text: Seq<char>) -> (Seq<char>, bool)
    decreases text.len(),
{
    if text.len() == 0 {
        (Seq::empty(), false)
    } else {
        let (out, pending) = collapse_state(text.drop_last());
        let c = text.last();
        if is_white_space(c) {
            (out, out.len() > 0)
        } else {
            let out2 = if pending {
                out.push(' ')
            } else {
                out
            };
            (out2.push(c), false)
        }
    }
}

/// `text` with every run of whitespace between words replaced by one ASCII
/// space and leading and trailing whitespace removed.
pub open spec fn spec_collapse_whitespace(text: Seq<char>) -> Seq<char> {
    collapse_state(text).0
}

/// No whitespace other than single ASCII spaces between non-space characters.
pub open spec fn is_collapsed(s: Seq<char>) -> bool {
    &&& forall|i: int| 0 <= i < s.len() && is_white_space(#[trigger] s[i]) ==> s[i] == ' '
    &&& s.len() > 0 ==> s[0] != ' ' && s.last() != ' '
    &&& forall|i: int| 0 <= i < s.len() - 1 && #[trigger] s[i] == ' ' ==> s[i + 1] != ' '
}

/// Collapses CSS `white-space: normal` input to one inter-word ASCII space.
pub fn collapse_whitespace(text: &str) -> (r: String)
    ensures
        r@ == spec_collapse_whitespace(text@),
        is_collapsed(r@),
        r@.len() <= text@.len(),
{
    let chars = str_to_chars(text);
    let out = collapse_chars(chars.as_slice());
    proof {
        lemma_collapse_shape(text@);
    }
    crate::text_util::chars_to_string(out.as_slice())
}

fn collapse_chars(text: &[char]) -> (r: Vec<char>)
    ensures
        r@ == spec_collapse_whitespace(text@),
{
    let mut output: Vec<char> = Vec::new();
    let mut pending_space = false;
    let mut i: usize = 0;
    assert(text@.take(0) =~= Seq::<char>::empty());
    while i < text.len()
        invariant
            i <= text.len(),
            (output@, pending_space) == collapse_state(text@.take(i as int)),
        decreases text.len() - i,
    {
        assert(text@.take(i + 1).drop_last() =~= text@.take(i as int));
        let c = text[i];
        if char_is_whitespace(c) {
            pending_space = output.len() > 0;
        } else {
            if pending_space {
                output.push(' ');
                pending_space = false;
            }
            output.push(c);
        }
        i += 1;
    }
    assert(text@.take(text.len() as int) =~= text@);
    output
}

proof fn lemma_collapse_shape(text: Seq<char>)
    ensures
        is_collapsed(collapse_state(text).0),
        collapse_state(text).0.len() <= text.len(),
        collapse_state(text).1 ==> collapse_state(text).0.len() > 0 && collapse_state(text).0.len()
            < text.len(),
    decreases text.len(),
{
    if text.len() > 0 {
        lemma_collapse_shape(text.drop_last());
        let (out, pending) = collapse_state(text.drop_last());
        let c = text.last();
        if !is_white_space(c) {
            let out2 = if pending {
                out.push(' ')
            } else {
                out
            };
            let r = out2.push(c);
            assert forall|i: int| 0 <= i < r.len() - 1 && #[trigger] r[i] == ' ' implies r[i + 1]
                != ' ' by {
                if i < out.len() - 1 {
                    assert(r[i] == out[i] && r[i + 1] == out[i + 1]);
                }
            }
            assert forall|i: int| 0 <= i < r.len() && is_white_space(#[trigger] r[i]) implies r[i]
                == ' ' by {
                if i < out.len() {
                    assert(r[i] == out[i]);
                }
            }
        }
    }
}

proof fn lemma_collapse_prefix_of_collapsed(s: Seq<char>, k: int)
    requires
        is_collapsed(s),
        0 <= k <= s.len(),
    ensures
        collapse_state(s.take(k)) == (if k > 0 && s[k - 1] == ' ' {
            (s.take(k - 1), true)
        } else {
            (s.take(k), false)
        }),
    decreases k,
{
    if k > 0 {
        lemma_collapse_prefix_of_collapsed(s, k - 1);
        assert(s.take(k).drop_last() =~= s.take(k - 1));
        let c = s[k - 1];
        if c == ' ' {
            assert(k - 1 > 0);
            assert(s[k - 2] != ' ');
            assert(s.take(k - 1).len() > 0);
        } else {
            assert(!is_white_space(c));
            if k >= 2 && s[k - 2] == ' ' {
                assert(s.take(k - 2).push(' ') =~= s.take(k - 1));
            }
            assert(s.take(k - 1).push(c) =~= s.take(k));
        }
    } else {
        assert(s.take(0) =~= Seq::<char>::empty());
    }
}

/// Collapsing whitespace twice gives the same text as collapsing it once.
pub proof fn law_collapse_whitespace_idempotent(text: Seq<char>)
    ensures
        spec_collapse_whitespace(spec_collapse_whitespace(text)) == spec_collapse_whitespace(text),
{
    let s = spec_collapse_whitespace(text);
    lemma_collapse_shape(text);
    lemma_collapse_prefix_of_collapsed(s, s.len() as int);
    assert(s.take(s.len() as int) =~= s);
}

/// `s` with every whitespace character deleted.
pub open spec fn without_whitespace(s: Seq<char>) -> Seq<char>
    decreases s.len(),
{
    if s.len() == 0 {
        Seq::empty()
    } else if is_white_space(s.last()) {
        without_whitespace(s.drop_last())
    } else {
        without_whitespace(s.drop_last()).push(s.last())
    }
}

proof fn lemma_collapse_keeps_words(text: Seq<char>)
    ensures
        without_whitespace(collapse_state(text).0) == without_whitespace(text),
    decreases text.len(),
{
    if text.len() > 0 {
        lemma_collapse_keeps_words(text.drop_last());
        let (out, pending) = collapse_state(text.drop_last());
        let c = text.last();
        if !is_white_space(c) {
            let out2 = if pending {
                out.push(' ')
            } else {
                out
            };
            assert(out2.push(c).drop_last() =~= out2);
            assert(out2.push(c).last() == c);
            assert(without_whitespace(out2.push(c)) == without_whitespace(out2).push(c));
            if pending {
                assert(out.push(' ').drop_last() =~= out);
                assert(is_white_space(' '));
                assert(without_whitespace(out.push(' ')) == without_whitespace(out));
            }
            assert(without_whitespace(text) == without_whitespace(text.drop_last()).push(c));
        } else {
            assert(without_whitespace(text) == without_whitespace(text.drop_last()));
        }
    }
}

/// Collapsing whitespace keeps the words: the result is collapsed (only
/// single ASCII spaces between non-space characters, none at either end),
/// and deleting its spaces gives the input with all its whitespace deleted.
pub proof fn law_collapse_whitespace_keeps_words(text: Seq<char>)
    ensures
        is_collapsed(spec_collapse_whitespace(text)),
        without_whitespace(spec_collapse_whitespace(text)) == without_whitespace(text),
{
    lemma_collapse_shape(text);
    lemma_collapse_keeps_words(text);
}

/// The words of `text` so far, and whether its last character is part of the
/// last word: a word is a maximal run of non-whitespace characters.
pub open spec fn words_state(text: Seq<char>) -> (Seq<Seq<char>>, bool)
    decreases text.len(),
{
    if text.len() == 0 {
        (Seq::empty(), false)
    } else {
        let (ws, in_word) = words_state(text.drop_last());
        let c = text.last();
        if is_white_space(c) {
            (ws, false)
        } else if in_word {
            (ws.update(ws.len() - 1, ws.last().push(c)), true)
        } else {
            (ws.push(seq![c]), true)
        }
    }
}

/// The words of `text`, in order.
pub open spec fn words(text: Seq<char>) -> Seq<Seq<char>> {
    words_state(text).0
}

/// `ws` joined with one ASCII space between neighbours.
pub open spec fn join_words(ws: Seq<Seq<char>>) -> Seq<char>
    decreases ws.len(),
{
    if ws.len() == 0 {
        Seq::empty()
    } else if ws.len() == 1 {
        ws[0]
    } else {
        join_words(ws.drop_last()) + seq![' '] + ws.last()
    }
}

proof fn lemma_join_extend_last(ws: Seq<Seq<char>>, c: char)
    requires
        ws.len() > 0,
    ensures
        join_words(ws.update(ws.len() - 1, ws.last().push(c))) == join_words(ws).push(c),
{
    let u = ws.update(ws.len() - 1, ws.last().push(c));
    assert(u.last() == ws.last().push(c));
    if ws.len() > 1 {
        assert(u.drop_last() =~= ws.drop_last());
        assert(join_words(ws.drop_last()) + seq![' '] + ws.last().push(c) =~= (join_words(
            ws.drop_last(),
        ) + seq![' '] + ws.last()).push(c));
    }
}

proof fn lemma_words_match_collapse(text: Seq<char>)
    ensures
        collapse_state(text).0 == join_words(words_state(text).0),
        collapse_state(text).1 == (words_state(text).0.len() > 0 && !words_state(text).1),
        words_state(text).1 ==> words_state(text).0.len() > 0,
        forall|i: int|
            0 <= i < words_state(text).0.len() ==> (#[trigger] words_state(text).0[i]).len() > 0,
        forall|i: int, j: int|
            0 <= i < words_state(text).0.len() && 0 <= j < words_state(text).0[i].len()
                ==> !is_white_space(#[trigger] words_state(text).0[i][j]),
        (collapse_state(text).0.len() > 0) == (words_state(text).0.len() > 0),
    decreases text.len(),
{
    if text.len() > 0 {
        let t = text.drop_last();
        lemma_words_match_collapse(t);
        let (out, pending) = collapse_state(t);
        let (ws, in_word) = words_state(t);
        let c = text.last();
        if !is_white_space(c) {
            if in_word {
                lemma_join_extend_last(ws, c);
                let u = ws.update(ws.len() - 1, ws.last().push(c));
                assert forall|i: int| 0 <= i < u.len() implies (#[trigger] u[i]).len() > 0 by {
                    if i < ws.len() - 1 {
                        assert(u[i] == ws[i]);
                    }
                }
                assert forall|i: int, j: int| 0 <= i < u.len() && 0 <= j < u[i].len() implies !is_white_space(
                    #[trigger] u[i][j],
                ) by {
                    if i < ws.len() - 1 {
                        assert(u[i] == ws[i]);
                    } else if j < ws.last().len() {
                        assert(u[i][j] == ws[i][j]);
                    }
                }
            } else if pending {
                let p = ws.push(seq![c]);
                assert(p.drop_last() =~= ws);
                assert(p.last() == seq![c]);
                assert(out.push(' ').push(c) =~= join_words(ws) + seq![' '] + seq![c]);
                assert forall|i: int| 0 <= i < p.len() implies (#[trigger] p[i]).len() > 0 by {
                    if i < ws.len() {
                        assert(p[i] == ws[i]);
                    }
                }
                assert forall|i: int, j: int| 0 <= i < p.len() && 0 <= j < p[i].len() implies !is_white_space(
                    #[trigger] p[i][j],
                ) by {
                    if i < ws.len() {
                        assert(p[i] == ws[i]);
                    }
                }
            } else {
                let p = ws.push(seq![c]);
                assert(ws.len() == 0);
                assert(p =~= seq![seq![c]]);
                assert(out.len() == 0);
                assert(out.push(c) =~= seq![c]);
            }
        }
    }
}

/// Collapsing whitespace separates words by exactly one space: the result
/// is the words of the input (maximal runs of non-whitespace characters),
/// in order, joined by single ASCII spaces. So two neighbouring characters
/// of the result are separated by a space exactly when whitespace separated
/// them in the input.
pub proof fn law_collapse_whitespace_joins_words(text: Seq<char>)
    ensures
        spec_collapse_whitespace(text) == join_words(words(text)),
        forall|i: int| 0 <= i < words(text).len() ==> (#[trigger] words(text)[i]).len() > 0,
        forall|i: int, j: int|
            0 <= i < words(text).len() && 0 <= j < words(text)[i].len() ==> !is_white_space(
                #[trigger] words(text)[i][j],
            ),
{
    lemma_words_match_collapse(text);
}

/// Supported inline alignment values.
#[derive(Clone, Copy, Debug, PartialEq, Eq, Structural)]
pub enum TextAlign {
    Start,
    End,
    Left,
    Right,
    Center,
    Justify,
}

impl Default for TextAlign {
    fn default() -> (r: TextAlign)
        ensures
            r == TextAlign::Start,
    {
        TextAlign::Start
    }
}

pub open spec fn spec_alignment_offset(align: TextAlign, direction: TextDirection, remaining: int) -> int {
    match align {
        TextAlign::Left => 0,
        TextAlign::Right => remaining,
        TextAlign::Center => remaining / 2,
        TextAlign::Justify => 0,
        TextAlign::Start => match direction {
            TextDirection::Ltr => 0,
            TextDirection::Rtl => remaining,
        },
        TextAlign::End => match direction {
            TextDirection::Ltr => remaining,
            TextDirection::Rtl => 0,
        },
    }
}

/// Where a line with `remaining` free space stands: `left` and `right`
/// free space on each side. Left and justified lines (and start-aligned
/// lines in a left-to-right paragraph, end-aligned in a right-to-left one)
/// have no space on the left; right-aligned lines (and start-aligned
/// right-to-left, end-aligned left-to-right) none on the right; a centred
/// line has its free space split evenly, the left side taking the smaller
/// half when it is odd.
pub proof fn law_alignment_splits_free_space(
    align: TextAlign,
    direction: TextDirection,
    remaining: int,
)
    requires
        remaining >= 0,
    ensures
        ({
            let left = spec_alignment_offset(align, direction, remaining);
            let right = remaining - left;
            &&& 0 <= left
            &&& 0 <= right
            &&& (align == TextAlign::Left || align == TextAlign::Justify) ==> left == 0
            &&& align == TextAlign::Right ==> right == 0
            &&& align == TextAlign::Center ==> left <= right <= left + 1
            &&& align == TextAlign::Start ==> (if direction == TextDirection::Ltr {
                left == 0
            } else {
                right == 0
            })
            &&& align == TextAlign::End ==> (if direction == TextDirection::Ltr {
                right == 0
            } else {
                left == 0
            })
        }),
{
}

/// Centred and right-aligned lines stand apart whenever there is more than
/// one pixel of free space.
pub proof fn law_center_is_not_right(direction: TextDirection, remaining: int)
    requires
        remaining > 1,
    ensures
        spec_alignment_offset(TextAlign::Center, direction, remaining) != spec_alignment_offset(
            TextAlign::Right,
            direction,
            remaining,
        ),
        spec_alignment_offset(TextAlign::Center, direction, remaining) < remaining,
        spec_alignment_offset(TextAlign::Center, direction, remaining) > 0,
{
    law_alignment_splits_free_space(TextAlign::Center, direction, remaining);
}

/// Horizontal offset of a line with `remaining` free space.
pub fn alignment_offset(align: TextAlign, direction: TextDirection, remaining: i32) -> (r: i32)
    requires
        remaining >= 0,
    ensures
        r == spec_alignment_offset(align, direction, remaining as int),
        0 <= r <= remaining,
{
    match align {
        TextAlign::Left => 0,
        TextAlign::Right => remaining,
        TextAlign::Center => remaining / 2,
        TextAlign::Justify => 0,
        TextAlign::Start => match direction {
            TextDirection::Ltr => 0,
            TextDirection::Rtl => remaining,
        },
        TextAlign::End => match direction {
            TextDirection::Ltr => remaining,
            TextDirection::Rtl => 0,
        },
    }
}


/// Clusters of a word: each combining mark joins the cluster before it.
pub open spec fn spec_text_clusters(text: Seq<char>) -> Seq<Seq<char>>
    decreases text.len(),
{
    if text.len() == 0 {
        Seq::empty()
    } else {
        let prev = spec_text_clusters(text.drop_last());
        let c = text.last();
        if spec_is_combining_mark(c) && prev.len() > 0 {
            prev.update(prev.len() - 1, prev.last().push(c))
        } else {
            prev.push(seq![c])
        }
    }
}

proof fn lemma_text_clusters_len(text: Seq<char>)
    ensures
        seqs_total_len(spec_text_clusters(text)) == text.len(),
        forall|i: int|
            0 <= i < spec_text_clusters(text).len() ==> (#[trigger] spec_text_clusters(text)[i]).len()
                > 0,
    decreases text.len(),
{
    if text.len() > 0 {
        lemma_text_clusters_len(text.drop_last());
        let prev = spec_text_clusters(text.drop_last());
        let next = spec_text_clusters(text);
        if spec_is_combining_mark(text.last()) && prev.len() > 0 {
            assert(next.drop_last() =~= prev.drop_last());
        } else {
            assert(next.drop_last() =~= prev);
        }
    }
}

fn text_clusters(text: &[char]) -> (r: Vec<Vec<char>>)
    ensures
        Seq::new(r@.len(), |i: int| r@[i]@) == spec_text_clusters(text@),
{
    let mut clusters: Vec<Vec<char>> = Vec::new();
    let mut i: usize = 0;
    assert(text@.take(0) =~= Seq::<char>::empty());
    assert(Seq::new(clusters@.len(), |i: int| clusters@[i]@) =~= Seq::<Seq<char>>::empty());
    while i < text.len()
        invariant
            i <= text.len(),
            Seq::new(clusters@.len(), |k: int| clusters@[k]@) == spec_text_clusters(
                text@.take(i as int),
            ),
        decreases text.len() - i,
    {
        let ghost before = Seq::new(clusters@.len(), |k: int| clusters@[k]@);
        assert(text@.take(i + 1).drop_last() =~= text@.take(i as int));
        let c = text[i];
        if is_combining_mark(c) && clusters.len() > 0 {
            let mut last = clusters.pop().unwrap();
            last.push(c);
            clusters.push(last);
        } else {
            let mut fresh: Vec<char> = Vec::new();
            fresh.push(c);
            assert(fresh@ =~= seq![c]);
            clusters.push(fresh);
        }
        assert(Seq::new(clusters@.len(), |k: int| clusters@[k]@) =~= spec_text_clusters(
            text@.take(i + 1),
        ));
        i += 1;
    }
    assert(text@.take(text.len() as int) =~= text@);
    clusters
}

} // verus!

verus! {

/// Chunks of an overlong word: clusters are added to the current chunk
/// until adding one would exceed `width` on a non-empty chunk.
pub open spec fn hard_wrap_state(
    faces: Seq<FontFace>,
    request: FontRequest,
    width: int,
    clusters: Seq<Seq<char>>,
) -> (Seq<Seq<char>>, Seq<char>)
    decreases clusters.len(),
{
    if clusters.len() == 0 {
        (Seq::empty(), Seq::empty())
    } else {
        let (chunks, current) = hard_wrap_state(faces, request, width, clusters.drop_last());
        let cluster = clusters.last();
        let candidate = current + cluster;
        if current.len() > 0 && spec_text_advance(faces, request, candidate) > width {
            (chunks.push(current), cluster)
        } else {
            (chunks, candidate)
        }
    }
}

pub open spec fn spec_hard_wrap(
    faces: Seq<FontFace>,
    request: FontRequest,
    width: int,
    word: Seq<char>,
) -> Seq<Seq<char>> {
    let (chunks, current) = hard_wrap_state(faces, request, width, spec_text_clusters(word));
    if current.len() > 0 {
        chunks.push(current)
    } else {
        chunks
    }
}

pub open spec fn all_nonempty(s: Seq<Seq<char>>) -> bool {
    forall|i: int| 0 <= i < s.len() ==> (#[trigger] s[i]).len() > 0
}

proof fn lemma_seqs_total_concat(a: Seq<Seq<char>>, b: Seq<Seq<char>>)
    ensures
        seqs_total_len(a + b) == seqs_total_len(a) + seqs_total_len(b),
    decreases b.len(),
{
    if b.len() > 0 {
        lemma_seqs_total_concat(a, b.drop_last());
        assert((a + b).drop_last() =~= a + b.drop_last());
    } else {
        assert(a + b =~= a);
    }
}

proof fn lemma_hard_wrap_state_len(
    faces: Seq<FontFace>,
    request: FontRequest,
    width: int,
    clusters: Seq<Seq<char>>,
)
    requires
        all_nonempty(clusters),
    ensures
        ({
            let (chunks, current) = hard_wrap_state(faces, request, width, clusters);
            &&& seqs_total_len(chunks) + current.len() == seqs_total_len(clusters)
            &&& all_nonempty(chunks)
            &&& clusters.len() > 0 ==> current.len() > 0
        }),
    decreases clusters.len(),
{
    if clusters.len() > 0 {
        lemma_hard_wrap_state_len(faces, request, width, clusters.drop_last());
        let (chunks, current) = hard_wrap_state(faces, request, width, clusters.drop_last());
        lemma_seqs_total_push(chunks, current);
        assert(clusters.last().len() > 0);
    }
}

proof fn lemma_hard_wrap_len(faces: Seq<FontFace>, request: FontRequest, width: int, word: Seq<char>)
    ensures
        seqs_total_len(spec_hard_wrap(faces, request, width, word)) == word.len(),
        all_nonempty(spec_hard_wrap(faces, request, width, word)),
        word.len() > 0 ==> spec_hard_wrap(faces, request, width, word).len() > 0,
{
    lemma_text_clusters_len(word);
    let clusters = spec_text_clusters(word);
    lemma_hard_wrap_state_len(faces, request, width, clusters);
    let (chunks, current) = hard_wrap_state(faces, request, width, clusters);
    lemma_seqs_total_push(chunks, current);
    if word.len() > 0 {
        assert(clusters.len() > 0) by {
            if clusters.len() == 0 {
                assert(seqs_total_len(clusters) == 0);
            }
        }
    }
}

/// Every character of `text` has a covering face and its length keeps every
/// advance in range.
pub open spec fn wrap_inputs_ok(faces: Seq<FontFace>, text: Seq<char>) -> bool {
    &&& chars_covered(faces, text)
    &&& text.len() <= 200_000_000
}

proof fn lemma_covered_concat(faces: Seq<FontFace>, a: Seq<char>, b: Seq<char>)
    requires
        chars_covered(faces, a),
        chars_covered(faces, b),
    ensures
        chars_covered(faces, a + b),
{
    assert forall|i: int| 0 <= i < (a + b).len() implies some_face_covers(faces, #[trigger] (a + b)[i]) by {
        if i < a.len() {
            assert((a + b)[i] == a[i]);
        } else {
            assert((a + b)[i] == b[i - a.len()]);
        }
    }
}

proof fn lemma_clusters_covered(faces: Seq<FontFace>, text: Seq<char>)
    requires
        chars_covered(faces, text),
    ensures
        forall|i: int|
            0 <= i < spec_text_clusters(text).len() ==> chars_covered(
                faces,
                #[trigger] spec_text_clusters(text)[i],
            ),
    decreases text.len(),
{
    if text.len() > 0 {
        let t = text.drop_last();
        assert forall|i: int| 0 <= i < t.len() implies some_face_covers(faces, #[trigger] t[i]) by {
            assert(t[i] == text[i]);
        }
        lemma_clusters_covered(faces, t);
        let prev = spec_text_clusters(t);
        let c = text.last();
        assert(some_face_covers(faces, text[text.len() - 1]));
        let next = spec_text_clusters(text);
        assert forall|i: int| 0 <= i < next.len() implies chars_covered(faces, #[trigger] next[i]) by {
            if spec_is_combining_mark(c) && prev.len() > 0 {
                if i == prev.len() - 1 {
                    assert(next[i] == prev.last().push(c));
                    assert(chars_covered(faces, prev[i]));
                    assert forall|j: int| 0 <= j < next[i].len() implies some_face_covers(
                        faces,
                        #[trigger] next[i][j],
                    ) by {
                        if j < prev[i].len() {
                            assert(next[i][j] == prev[i][j]);
                        }
                    }
                } else {
                    assert(next[i] == prev[i]);
                }
            } else {
                if i == prev.len() {
                    assert(next[i] == seq![c]);
                } else {
                    assert(next[i] == prev[i]);
                }
            }
        }
    }
}

proof fn lemma_split_covered(faces: Seq<FontFace>, text: Seq<char>, sep: char)
    requires
        chars_covered(faces, text),
    ensures
        forall|i: int| 0 <= i < split_on(text, sep).len() ==> chars_covered(faces, #[trigger] split_on(text, sep)[i]),
        split_on(text, sep).len() >= 2 ==> some_face_covers(faces, sep),
    decreases text.len(),
{
    lemma_split_on_len(text, sep);
    if text.len() > 0 {
        let t = text.drop_last();
        assert forall|i: int| 0 <= i < t.len() implies some_face_covers(faces, #[trigger] t[i]) by {
            assert(t[i] == text[i]);
        }
        lemma_split_covered(faces, t, sep);
        lemma_split_on_len(t, sep);
        let prev = split_on(t, sep);
        let c = text.last();
        assert(some_face_covers(faces, text[text.len() - 1]));
        let next = split_on(text, sep);
        assert forall|i: int| 0 <= i < next.len() implies chars_covered(faces, #[trigger] next[i]) by {
            if c == sep {
                if i < prev.len() {
                    assert(next[i] == prev[i]);
                } else {
                    assert(next[i] == Seq::<char>::empty());
                }
            } else {
                if i == prev.len() - 1 {
                    assert(next[i] == prev.last().push(c));
                    assert(chars_covered(faces, prev[i]));
                    assert forall|j: int| 0 <= j < next[i].len() implies some_face_covers(
                        faces,
                        #[trigger] next[i][j],
                    ) by {
                        if j < prev[i].len() {
                            assert(next[i][j] == prev[i][j]);
                        }
                    }
                } else {
                    assert(next[i] == prev[i]);
                }
            }
        }
    } else {
        assert(split_on(text, sep) == seq![Seq::<char>::empty()]);
    }
}

fn concat_chars(a: &Vec<char>, b: &Vec<char>) -> (r: Vec<char>)
    ensures
        r@ == a@ + b@,
{
    let mut out = crate::text_util::chars_to_vec(a.as_slice());
    let mut i: usize = 0;
    while i < b.len()
        invariant
            i <= b.len(),
            out@ == a@ + b@.take(i as int),
        decreases b.len() - i,
    {
        out.push(b[i]);
        assert(a@ + b@.take(i + 1) =~= (a@ + b@.take(i as int)).push(b@[i as int]));
        i += 1;
    }
    assert(b@.take(b.len() as int) =~= b@);
    out
}

fn hard_wrap_word(
    database: &mut FontDatabase,
    request: &FontRequest,
    word: &[char],
    width: i32,
) -> (r: Vec<Vec<char>>)
    requires
        old(database).wf(),
        wrap_inputs_ok(old(database).spec_faces(), word@),
    ensures
        final(database).wf(),
        final(database).spec_faces() == old(database).spec_faces(),
        forall|i: int| 0 <= i < r@.len() ==> chars_covered(old(database).spec_faces(), #[trigger] r@[i]@),
        Seq::new(r@.len(), |i: int| r@[i]@) == spec_hard_wrap(
            old(database).spec_faces(),
            *request,
            width as int,
            word@,
        ),
{
    let ghost faces = database.spec_faces();
    let clusters = text_clusters(word);
    let ghost cv = Seq::new(clusters@.len(), |i: int| clusters@[i]@);
    proof {
        lemma_text_clusters_len(word@);
        lemma_clusters_covered(faces, word@);
    }
    let mut chunks: Vec<Vec<char>> = Vec::new();
    let mut current: Vec<char> = Vec::new();
    let mut k: usize = 0;
    assert(cv.take(0) =~= Seq::<Seq<char>>::empty());
    while k < clusters.len()
        invariant
            database.wf(),
            database.spec_faces() == faces,
            wrap_inputs_ok(faces, word@),
            forall|i: int| 0 <= i < cv.len() ==> chars_covered(faces, #[trigger] cv[i]),
            chars_covered(faces, current@),
            forall|i: int| 0 <= i < chunks@.len() ==> chars_covered(faces, #[trigger] chunks@[i]@),
            cv == Seq::new(clusters@.len(), |i: int| clusters@[i]@),
            cv == spec_text_clusters(word@),
            all_nonempty(cv),
            seqs_total_len(cv) == word@.len(),
            k <= clusters.len(),
            (Seq::new(chunks@.len(), |i: int| chunks@[i]@), current@) == hard_wrap_state(
                faces,
                *request,
                width as int,
                cv.take(k as int),
            ),
        decreases clusters.len() - k,
    {
        proof {
            assert(cv.take(k + 1).drop_last() =~= cv.take(k as int));
            assert(all_nonempty(cv.take(k as int)));
            lemma_hard_wrap_state_len(faces, *request, width as int, cv.take(k as int));
            lemma_seqs_total_nonneg(Seq::new(chunks@.len(), |i: int| chunks@[i]@));
            lemma_seqs_total_prefix(cv, k + 1);
            assert(seqs_total_len(cv.take(k + 1)) == seqs_total_len(cv.take(k as int)) + cv[k as int].len());
        }
        let ghost before = Seq::new(chunks@.len(), |i: int| chunks@[i]@);
        let candidate = concat_chars(&current, &clusters[k]);
        proof {
            assert(clusters@[k as int]@ == cv[k as int]);
            lemma_covered_concat(faces, current@, cv[k as int]);
            lemma_covered_shapeable(faces, candidate@);
        }
        if current.len() > 0 && measure(database, request, candidate.as_slice()) > width {
            let finished = current;
            chunks.push(finished);
            current = crate::text_util::chars_to_vec(clusters[k].as_slice());
            assert(Seq::new(chunks@.len(), |i: int| chunks@[i]@) =~= before.push(finished@));
        } else {
            current = candidate;
        }
        k += 1;
    }
    assert(cv.take(clusters.len() as int) =~= cv);
    if current.len() > 0 {
        let ghost before = Seq::new(chunks@.len(), |i: int| chunks@[i]@);
        let last = current;
        chunks.push(last);
        assert(Seq::new(chunks@.len(), |i: int| chunks@[i]@) =~= before.push(last@));
    }
    chunks
}

proof fn lemma_seqs_total_prefix(s: Seq<Seq<char>>, k: int)
    requires
        0 <= k <= s.len(),
    ensures
        0 <= seqs_total_len(s.take(k)) <= seqs_total_len(s),
    decreases s.len() - k,
{
    if k < s.len() {
        lemma_seqs_total_prefix(s, k + 1);
        assert(s.take(k + 1).drop_last() =~= s.take(k));
    } else {
        assert(s.take(k) =~= s);
    }
    lemma_seqs_total_nonneg(s.take(k));
}

proof fn lemma_seqs_total_nonneg(s: Seq<Seq<char>>)
    ensures
        seqs_total_len(s) >= 0,
    decreases s.len(),
{
    if s.len() > 0 {
        lemma_seqs_total_nonneg(s.drop_last());
    }
}

} // verus!

verus! {

/// One greedy wrapping step over the next word.
pub open spec fn wrap_step(
    faces: Seq<FontFace>,
    request: FontRequest,
    width: int,
    state: (Seq<Seq<char>>, Seq<char>),
    word: Seq<char>,
) -> (Seq<Seq<char>>, Seq<char>) {
    let (lines, current) = state;
    let candidate = if current.len() == 0 {
        word
    } else {
        current + seq![' '] + word
    };
    if spec_text_advance(faces, request, candidate) <= width {
        (lines, candidate)
    } else {
        let lines1 = if current.len() > 0 {
            lines.push(current)
        } else {
            lines
        };
        if spec_text_advance(faces, request, word) <= width {
            (lines1, word)
        } else {
            let chunks = spec_hard_wrap(faces, request, width, word);
            if chunks.len() > 0 {
                (lines1 + chunks.drop_last(), chunks.last())
            } else {
                (lines1, Seq::empty())
            }
        }
    }
}

pub open spec fn wrap_state(
    faces: Seq<FontFace>,
    request: FontRequest,
    width: int,
    words: Seq<Seq<char>>,
) -> (Seq<Seq<char>>, Seq<char>)
    decreases words.len(),
{
    if words.len() == 0 {
        (Seq::empty(), Seq::empty())
    } else {
        wrap_step(
            faces,
            request,
            width,
            wrap_state(faces, request, width, words.drop_last()),
            words.last(),
        )
    }
}

/// The lines that greedy wrapping of collapsed `text` at `width` produces.
pub open spec fn spec_wrap_text(
    faces: Seq<FontFace>,
    request: FontRequest,
    width: int,
    text: Seq<char>,
) -> Seq<Seq<char>> {
    if text.len() == 0 {
        Seq::empty()
    } else {
        let (lines, current) = wrap_state(faces, request, width, split_on(text, ' '));
        if current.len() > 0 {
            lines.push(current)
        } else {
            lines
        }
    }
}

/// Characters consumed by the first `j` words and the spaces between them.
pub open spec fn consumed(words: Seq<Seq<char>>, j: int) -> int {
    seqs_total_len(words.take(j)) + (if j > 0 {
        j - 1
    } else {
        0
    })
}

proof fn lemma_wrap_state_len(
    faces: Seq<FontFace>,
    request: FontRequest,
    width: int,
    words: Seq<Seq<char>>,
)
    ensures
        ({
            let (lines, current) = wrap_state(faces, request, width, words);
            &&& seqs_total_len(lines) + current.len() <= consumed(words, words.len() as int)
            &&& all_nonempty(lines)
            &&& words.len() == 0 ==> lines.len() == 0 && current.len() == 0
        }),
    decreases words.len(),
{
    if words.len() > 0 {
        let n = words.len() as int;
        let prev = words.drop_last();
        lemma_wrap_state_len(faces, request, width, prev);
        let (lines, current) = wrap_state(faces, request, width, prev);
        let w = words.last();
        assert(words.take(n).drop_last() =~= prev.take(n - 1));
        assert(words.take(n) =~= words);
        assert(prev.take(n - 1) =~= prev);
        lemma_seqs_total_push(lines, current);
        lemma_hard_wrap_len(faces, request, width, w);
        let chunks = spec_hard_wrap(faces, request, width, w);
        if chunks.len() > 0 {
            assert(chunks.drop_last().push(chunks.last()) =~= chunks);
            lemma_seqs_total_push(chunks.drop_last(), chunks.last());
            let lines1 = if current.len() > 0 {
                lines.push(current)
            } else {
                lines
            };
            lemma_seqs_total_concat(lines1, chunks.drop_last());
            assert(all_nonempty(lines1 + chunks.drop_last())) by {
                assert forall|i: int| 0 <= i < (lines1 + chunks.drop_last()).len() implies (#[trigger] (
                lines1 + chunks.drop_last())[i]).len() > 0 by {
                    if i >= lines1.len() {
                        assert((lines1 + chunks.drop_last())[i] == chunks[i - lines1.len()]);
                    }
                }
            }
        }
        lemma_seqs_total_nonneg(chunks.drop_last());
    }
}

} // verus!

verus! {

proof fn lemma_consumed_step(words: Seq<Seq<char>>, j: int)
    requires
        0 <= j < words.len(),
    ensures
        consumed(words, j + 1) == consumed(words, j) + words[j].len() + (if j > 0 {
            1int
        } else {
            0int
        }),
{
    assert(words.take(j + 1) =~= words.take(j).push(words[j]));
    lemma_seqs_total_push(words.take(j), words[j]);
}

proof fn lemma_consumed_mono(words: Seq<Seq<char>>, j: int)
    requires
        0 <= j <= words.len(),
    ensures
        consumed(words, j) <= consumed(words, words.len() as int),
    decreases words.len() - j,
{
    if j < words.len() {
        lemma_consumed_mono(words, j + 1);
        lemma_consumed_step(words, j);
    }
}

fn wrap_text(
    database: &mut FontDatabase,
    request: &FontRequest,
    text: &[char],
    width: i32,
) -> (lines: Vec<Vec<char>>)
    requires
        old(database).wf(),
        wrap_inputs_ok(old(database).spec_faces(), text@),
    ensures
        final(database).wf(),
        final(database).spec_faces() == old(database).spec_faces(),
        forall|i: int|
            0 <= i < lines@.len() ==> chars_covered(old(database).spec_faces(), #[trigger] lines@[i]@),
        Seq::new(lines@.len(), |i: int| lines@[i]@) == spec_wrap_text(
            old(database).spec_faces(),
            *request,
            width as int,
            text@,
        ),
{
    if text.len() == 0 {
        let empty: Vec<Vec<char>> = Vec::new();
        assert(Seq::new(empty@.len(), |i: int| empty@[i]@) =~= Seq::<Seq<char>>::empty());
        return empty;
    }
    let ghost faces = database.spec_faces();
    let words = crate::text_util::split_chars(text, ' ');
    let ghost wv = Seq::new(words@.len(), |i: int| words@[i]@);
    proof {
        lemma_split_on_len(text@, ' ');
        lemma_split_covered(faces, text@, ' ');
        assert(wv.take(wv.len() as int) =~= wv);
    }
    let mut lines: Vec<Vec<char>> = Vec::new();
    let mut current: Vec<char> = Vec::new();
    let mut j: usize = 0;
    assert(wv.take(0) =~= Seq::<Seq<char>>::empty());
    while j < words.len()
        invariant
            database.wf(),
            database.spec_faces() == faces,
            faces == old(database).spec_faces(),
            wrap_inputs_ok(faces, text@),
            forall|i: int| 0 <= i < wv.len() ==> chars_covered(faces, #[trigger] wv[i]),
            wv.len() >= 2 ==> some_face_covers(faces, ' '),
            chars_covered(faces, current@),
            current@.len() > 0 ==> j > 0,
            forall|i: int| 0 <= i < lines@.len() ==> chars_covered(faces, #[trigger] lines@[i]@),
            wv == Seq::new(words@.len(), |i: int| words@[i]@),
            wv == split_on(text@, ' '),
            consumed(wv, wv.len() as int) == text@.len(),
            j <= words.len(),
            (Seq::new(lines@.len(), |i: int| lines@[i]@), current@) == wrap_state(
                faces,
                *request,
                width as int,
                wv.take(j as int),
            ),
        decreases words.len() - j,
    {
        let ghost lv = Seq::new(lines@.len(), |i: int| lines@[i]@);
        proof {
            lemma_wrap_state_len(faces, *request, width as int, wv.take(j as int));
            assert(wv.take(j as int).take(j as int) =~= wv.take(j as int));
            assert(consumed(wv.take(j as int), j as int) == consumed(wv, j as int));
            lemma_consumed_step(wv, j as int);
            lemma_consumed_mono(wv, j + 1);
            lemma_seqs_total_nonneg(lv);
            assert(wv.take(j + 1).drop_last() =~= wv.take(j as int));
        }
        let word = &words[j];
        assert(word@ == wv[j as int]);
        let candidate = if current.len() == 0 {
            crate::text_util::chars_to_vec(word.as_slice())
        } else {
            let mut with_space = crate::text_util::chars_to_vec(current.as_slice());
            with_space.push(' ');
            let joined = concat_chars(&with_space, word);
            assert(joined@ =~= current@ + seq![' '] + word@);
            proof {
                assert(chars_covered(faces, seq![' ']));
                lemma_covered_concat(faces, current@, seq![' ']);
                lemma_covered_concat(faces, current@ + seq![' '], word@);
            }
            joined
        };
        proof {
            lemma_covered_shapeable(faces, candidate@);
            lemma_covered_shapeable(faces, word@);
        }
        if measure(database, request, candidate.as_slice()) <= width {
            current = candidate;
        } else {
            if current.len() > 0 {
                let finished = current;
                lines.push(finished);
                assert(Seq::new(lines@.len(), |i: int| lines@[i]@) =~= lv.push(finished@));
            }
            let ghost lv1 = Seq::new(lines@.len(), |i: int| lines@[i]@);
            if measure(database, request, word.as_slice()) <= width {
                current = crate::text_util::chars_to_vec(word.as_slice());
            } else {
                let mut chunks = hard_wrap_word(database, request, word.as_slice(), width);
                let ghost cv = Seq::new(chunks@.len(), |i: int| chunks@[i]@);
                if chunks.len() > 0 {
                    let last = chunks.pop().unwrap();
                    assert(Seq::new(chunks@.len(), |i: int| chunks@[i]@) =~= cv.drop_last());
                    let mut m: usize = 0;
                    while m < chunks.len()
                        invariant
                            m <= chunks.len(),
                            forall|i: int| 0 <= i < chunks@.len() ==> chars_covered(faces, #[trigger] chunks@[i]@),
                            forall|i: int| 0 <= i < lines@.len() ==> chars_covered(faces, #[trigger] lines@[i]@),
                            Seq::new(chunks@.len(), |i: int| chunks@[i]@) == cv.drop_last(),
                            Seq::new(lines@.len(), |i: int| lines@[i]@) == lv1 + cv.drop_last().take(
                                m as int,
                            ),
                        decreases chunks.len() - m,
                    {
                        let ghost before = Seq::new(lines@.len(), |i: int| lines@[i]@);
                        let piece = crate::text_util::chars_to_vec(chunks[m].as_slice());
                        lines.push(piece);
                        assert(cv.drop_last().take(m + 1) =~= cv.drop_last().take(m as int).push(
                            cv.drop_last()[m as int],
                        ));
                        assert(Seq::new(lines@.len(), |i: int| lines@[i]@) =~= before.push(piece@));
                        m += 1;
                    }
                    assert(cv.drop_last().take(chunks.len() as int) =~= cv.drop_last());
                    current = last;
                } else {
                    current = Vec::new();
                }
            }
        }
        j += 1;
    }
    if current.len() > 0 {
        let ghost before = Seq::new(lines@.len(), |i: int| lines@[i]@);
        let finished = current;
        lines.push(finished);
        assert(Seq::new(lines@.len(), |i: int| lines@[i]@) =~= before.push(finished@));
    }
    lines
}

} // verus!

verus! {

/// One visually positioned glyph inside a line run.
#[derive(Clone, Copy, Debug, PartialEq, Eq, Structural)]
pub struct PositionedGlyph {
    pub glyph: ShapedGlyph,
    pub x: i32,
    pub baseline_y: i32,
}

/// A shaped run positioned within one line box.
#[derive(Clone, Debug, PartialEq, Eq)]
pub struct LineRun {
    pub font: FontId,
    pub family: String,
    pub script: Script,
    pub direction: TextDirection,
    pub x: i32,
    pub width: i32,
    pub glyphs: Vec<PositionedGlyph>,
}

/// One deterministic line box.
#[derive(Clone, Debug, PartialEq, Eq)]
pub struct LineBox {
    pub index: usize,
    pub y: i32,
    pub baseline: i32,
    pub available_width: i32,
    pub used_width: i32,
    pub offset: i32,
    pub text: String,
    pub runs: Vec<LineRun>,
}

/// Paragraph output after whitespace collapse, wrapping, bidi, and alignment.
#[derive(Clone, Debug, PartialEq, Eq)]
pub struct ParagraphLayout {
    pub width: i32,
    pub direction: TextDirection,
    pub align: TextAlign,
    pub collapsed_text: String,
    pub lines: Vec<LineBox>,
}

/// Height of one line box.
pub const LINE_HEIGHT: i32 = 16;

/// Distance from a line's top to its baseline.
pub const ASCENT: i32 = 12;

impl ParagraphLayout {
    /// Height of all line boxes.
    pub fn height(&self) -> (r: i32)
        requires
            self.lines@.len() * 16 <= i32::MAX,
        ensures
            r == self.lines@.len() * 16,
    {
        (self.lines.len() as i32) * 16
    }
}

pub open spec fn flat_glyphs(gs: Seq<Seq<ShapedGlyph>>) -> Seq<ShapedGlyph>
    decreases gs.len(),
{
    if gs.len() == 0 {
        Seq::empty()
    } else {
        flat_glyphs(gs.drop_last()) + gs.last()
    }
}

pub open spec fn space_count(g: Seq<ShapedGlyph>) -> int
    decreases g.len(),
{
    if g.len() == 0 {
        0
    } else {
        space_count(g.drop_last()) + (if g.last().character == ' ' {
            1int
        } else {
            0int
        })
    }
}

/// Placement parameters of one line: where the first glyph starts, whether
/// spaces are widened, by how much, how many spaces get one pixel more, and
/// the baseline.
pub struct LinePlacement {
    pub offset: int,
    pub justify: bool,
    pub extra: int,
    pub rem0: int,
    pub baseline: int,
}

/// Cursor and undistributed remainder after placing the glyphs `g`: each
/// glyph moves the cursor by its advance, and when justifying each space
/// adds `extra`, plus one pixel while the remainder lasts.
pub open spec fn pos_fold(g: Seq<ShapedGlyph>, p: LinePlacement) -> (int, int)
    decreases g.len(),
{
    if g.len() == 0 {
        (p.offset, p.rem0)
    } else {
        let (cursor, rem) = pos_fold(g.drop_last(), p);
        let glyph = g.last();
        if p.justify && glyph.character == ' ' {
            (
                cursor + glyph.advance + p.extra + (if rem > 0 {
                    1int
                } else {
                    0int
                }),
                if rem > 0 {
                    rem - 1
                } else {
                    rem
                },
            )
        } else {
            (cursor + glyph.advance, rem)
        }
    }
}

/// The glyph `g` placed after the glyphs `before`.
pub open spec fn placed_glyph(g: ShapedGlyph, before: Seq<ShapedGlyph>, p: LinePlacement) -> PositionedGlyph {
    PositionedGlyph {
        glyph: g,
        x: (pos_fold(before, p).0 + g.x_offset) as i32,
        baseline_y: (p.baseline + g.y_offset) as i32,
    }
}

/// A positioned run: its shaped run `model` with glyphs `glyphs`, placed after
/// the glyphs `before` of the same line.
pub open spec fn placed_run(
    run: LineRun,
    model: RunModel,
    faces: Seq<FontFace>,
    before: Seq<ShapedGlyph>,
    glyphs: Seq<ShapedGlyph>,
    p: LinePlacement,
) -> bool {
    &&& run.font.0 == model.font
    &&& run.family@ == faces[model.font].family@
    &&& run.script == model.script
    &&& run.direction == model.direction
    &&& run.x == pos_fold(before, p).0
    &&& run.width == pos_fold(before + glyphs, p).0 - pos_fold(before, p).0
    &&& run.glyphs@.len() == glyphs.len()
    &&& forall|j: int|
        0 <= j < glyphs.len() ==> #[trigger] run.glyphs@[j] == placed_glyph(
            glyphs[j],
            before + glyphs.take(j),
            p,
        )
}

/// Glyphs of each visual run of `text`, in visual order.
pub open spec fn visual_glyphs(faces: Seq<FontFace>, request: FontRequest, text: Seq<char>) -> Seq<
    Seq<ShapedGlyph>,
> {
    let v = spec_visual_runs(faces, request, text);
    Seq::new(v.len(), |k: int| spec_run_glyphs(v[k]))
}

/// Free space of a line of `text` in `width`.
pub open spec fn line_remaining(
    faces: Seq<FontFace>,
    request: FontRequest,
    text: Seq<char>,
    width: int,
) -> int {
    let advance = spec_text_advance(faces, request, text);
    if width - advance > 0 {
        width - advance
    } else {
        0
    }
}

/// How the line `index` with text `text` is placed: the alignment offset,
/// and when it is justified (not the last line, some space in it) the free
/// space divided among its spaces, the first `remaining % spaces` spaces
/// getting one pixel more.
pub open spec fn line_placement(
    faces: Seq<FontFace>,
    request: FontRequest,
    text: Seq<char>,
    width: int,
    align: TextAlign,
    index: int,
    last_line: bool,
) -> LinePlacement {
    let remaining = line_remaining(faces, request, text, width);
    let spaces = space_count(flat_glyphs(visual_glyphs(faces, request, text)));
    let justify = align == TextAlign::Justify && !last_line && spaces > 0;
    LinePlacement {
        offset: spec_alignment_offset(align, spec_paragraph_direction(text), remaining),
        justify,
        extra: if justify {
            remaining / spaces
        } else {
            0
        },
        rem0: if justify {
            remaining % spaces
        } else {
            0
        },
        baseline: index * 16 + 12,
    }
}

/// How a line box relates to its text.
pub open spec fn line_matches(
    lb: LineBox,
    faces: Seq<FontFace>,
    request: FontRequest,
    text: Seq<char>,
    width: int,
    align: TextAlign,
    index: int,
    last_line: bool,
) -> bool {
    let p = line_placement(faces, request, text, width, align, index, last_line);
    let v = spec_visual_runs(faces, request, text);
    let gs = visual_glyphs(faces, request, text);
    &&& lb.index == index
    &&& lb.y == index * 16
    &&& lb.baseline == p.baseline
    &&& lb.available_width == width
    &&& lb.used_width == (if p.justify {
        width
    } else {
        spec_text_advance(faces, request, text)
    })
    &&& lb.offset == p.offset
    &&& lb.text@ == text
    &&& lb.runs@.len() == v.len()
    &&& forall|k: int|
        0 <= k < v.len() ==> placed_run(
            #[trigger] lb.runs@[k],
            v[k],
            faces,
            flat_glyphs(gs.take(k)),
            gs[k],
            p,
        )
}

/// Conditions under which every cursor position of a line with glyphs `f`
/// fits in `i32`.
pub open spec fn placement_fits(f: Seq<ShapedGlyph>, p: LinePlacement, remaining: int) -> bool {
    &&& forall|i: int| 0 <= i < f.len() ==> glyph_bounded(#[trigger] f[i])
    &&& p.extra >= 0
    &&& p.rem0 >= 0
    &&& 0 <= p.offset <= remaining
    &&& p.justify ==> p.offset == 0 && p.extra * space_count(f) + p.rem0 == remaining
    &&& 0 <= sum_glyph_advances(f) + remaining <= i32::MAX
    &&& 12 <= p.baseline <= i32::MAX
}

/// Glyph sequences of shaped runs.
pub open spec fn run_glyph_seqs(runs: Seq<ShapedRun>) -> Seq<Seq<ShapedGlyph>> {
    Seq::new(runs.len(), |i: int| runs[i].glyphs@)
}

} // verus!

verus! {

proof fn lemma_flat_concat(a: Seq<Seq<ShapedGlyph>>, b: Seq<Seq<ShapedGlyph>>)
    ensures
        flat_glyphs(a + b) == flat_glyphs(a) + flat_glyphs(b),
    decreases b.len(),
{
    if b.len() > 0 {
        lemma_flat_concat(a, b.drop_last());
        assert((a + b).drop_last() =~= a + b.drop_last());
        assert(flat_glyphs(a) + flat_glyphs(b.drop_last()) + b.last() =~= flat_glyphs(a) + (
        flat_glyphs(b.drop_last()) + b.last()));
    } else {
        assert(a + b =~= a);
        assert(flat_glyphs(a) + Seq::<ShapedGlyph>::empty() =~= flat_glyphs(a));
    }
}

proof fn lemma_sum_adv_concat(a: Seq<ShapedGlyph>, b: Seq<ShapedGlyph>)
    ensures
        sum_glyph_advances(a + b) == sum_glyph_advances(a) + sum_glyph_advances(b),
    decreases b.len(),
{
    if b.len() > 0 {
        lemma_sum_adv_concat(a, b.drop_last());
        assert((a + b).drop_last() =~= a + b.drop_last());
    } else {
        assert(a + b =~= a);
    }
}

proof fn lemma_space_count_le_len(g: Seq<ShapedGlyph>)
    ensures
        0 <= space_count(g) <= g.len(),
    decreases g.len(),
{
    if g.len() > 0 {
        lemma_space_count_le_len(g.drop_last());
    }
}

proof fn lemma_sums_nonneg(g: Seq<ShapedGlyph>)
    requires
        forall|i: int| 0 <= i < g.len() ==> glyph_bounded(#[trigger] g[i]),
    ensures
        0 <= sum_glyph_advances(g),
        0 <= space_count(g),
    decreases g.len(),
{
    if g.len() > 0 {
        assert(glyph_bounded(g[g.len() - 1]));
        lemma_sums_nonneg(g.drop_last());
    }
}

proof fn lemma_prefix_bounds(g: Seq<ShapedGlyph>, t: int)
    requires
        0 <= t <= g.len(),
        forall|i: int| 0 <= i < g.len() ==> glyph_bounded(#[trigger] g[i]),
    ensures
        0 <= sum_glyph_advances(g.take(t)) <= sum_glyph_advances(g),
        0 <= space_count(g.take(t)) <= space_count(g),
    decreases g.len() - t,
{
    if t < g.len() {
        lemma_prefix_bounds(g, t + 1);
        assert(g.take(t + 1).drop_last() =~= g.take(t));
        assert(g.take(t + 1).last() == g[t]);
        assert(glyph_bounded(g[t]));
    } else {
        assert(g.take(t) =~= g);
    }
    assert(forall|i: int| 0 <= i < g.take(t).len() ==> g.take(t)[i] == g[i]);
    lemma_sums_nonneg(g.take(t));
}

pub open spec fn min_int(a: int, b: int) -> int {
    if a <= b {
        a
    } else {
        b
    }
}

proof fn lemma_pos_fold_closed(g: Seq<ShapedGlyph>, p: LinePlacement)
    requires
        p.extra >= 0,
        p.rem0 >= 0,
    ensures
        pos_fold(g, p) == (if p.justify {
            (
                p.offset + sum_glyph_advances(g) + p.extra * space_count(g) + min_int(
                    space_count(g),
                    p.rem0,
                ),
                p.rem0 - min_int(space_count(g), p.rem0),
            )
        } else {
            (p.offset + sum_glyph_advances(g), p.rem0)
        }),
    decreases g.len(),
{
    if g.len() > 0 {
        lemma_pos_fold_closed(g.drop_last(), p);
        let sc = space_count(g.drop_last());
        let e = p.extra;
        assert(e * (sc + 1) == e * sc + e) by (nonlinear_arith);
    }
}

/// The bound on every cursor position of one line.
proof fn lemma_cursor_bound(f: Seq<ShapedGlyph>, t: int, p: LinePlacement, remaining: int)
    requires
        0 <= t <= f.len(),
        placement_fits(f, p, remaining),
    ensures
        p.offset <= pos_fold(f.take(t), p).0 <= sum_glyph_advances(f) + remaining,
        0 <= pos_fold(f.take(t), p).1 <= p.rem0,
{
    lemma_pos_fold_closed(f.take(t), p);
    lemma_prefix_bounds(f, t);
    let sc = space_count(f.take(t));
    let spaces = space_count(f);
    let e = p.extra;
    if p.justify {
        assert(e * sc <= e * spaces) by (nonlinear_arith)
            requires
                0 <= sc <= spaces,
                e >= 0,
        ;
        assert(e * sc >= 0) by (nonlinear_arith)
            requires
                0 <= sc,
                e >= 0,
        ;
    }
}

proof fn lemma_flat_prefix(gs: Seq<Seq<ShapedGlyph>>, k: int, j: int)
    requires
        0 <= k < gs.len(),
        0 <= j <= gs[k].len(),
    ensures
        flat_glyphs(gs.take(k)).len() + gs[k].len() <= flat_glyphs(gs).len(),
        flat_glyphs(gs).take(flat_glyphs(gs.take(k)).len() + j) == flat_glyphs(gs.take(k))
            + gs[k].take(j),
        flat_glyphs(gs.take(k + 1)) == flat_glyphs(gs.take(k)) + gs[k],
{
    assert(gs =~= gs.take(k + 1) + gs.skip(k + 1));
    lemma_flat_concat(gs.take(k + 1), gs.skip(k + 1));
    assert(gs.take(k + 1).drop_last() =~= gs.take(k));
    assert(flat_glyphs(gs).take(flat_glyphs(gs.take(k)).len() + j) =~= flat_glyphs(gs.take(k))
        + gs[k].take(j));
}

proof fn lemma_visual_sums(faces: Seq<FontFace>, request: FontRequest, text: Seq<char>, k: int)
    requires
        0 <= k <= visual_glyphs(faces, request, text).len(),
    ensures
        sum_glyph_advances(flat_glyphs(visual_glyphs(faces, request, text).take(k)))
            == crate::shaping::sum_visual_advances(spec_visual_runs(faces, request, text).take(k)),
        forall|i: int|
            0 <= i < flat_glyphs(visual_glyphs(faces, request, text).take(k)).len() ==> glyph_bounded(
                #[trigger] flat_glyphs(visual_glyphs(faces, request, text).take(k))[i],
            ),
    decreases k,
{
    let gs = visual_glyphs(faces, request, text);
    let v = spec_visual_runs(faces, request, text);
    if k > 0 {
        lemma_visual_sums(faces, request, text, k - 1);
        lemma_flat_prefix(gs, k - 1, 0);
        assert(v.take(k).drop_last() =~= v.take(k - 1));
        lemma_sum_adv_concat(flat_glyphs(gs.take(k - 1)), gs[k - 1]);
        let run = v[k - 1];
        crate::shaping::lemma_logical_glyphs_bounded(run.clusters, run.script, run.clusters.len() as int);
        let a = flat_glyphs(gs.take(k - 1));
        let b = gs[k - 1];
        assert forall|i: int| 0 <= i < (a + b).len() implies glyph_bounded(#[trigger] (a + b)[i]) by {
            if i >= a.len() {
                let lg = crate::shaping::spec_logical_glyphs(run.clusters, run.script, run.clusters.len() as int);
                assert((a + b)[i] == b[i - a.len()]);
                if run.direction == TextDirection::Rtl {
                    assert(b[i - a.len()] == lg[lg.len() - 1 - (i - a.len())]);
                } else {
                    assert(b[i - a.len()] == lg[i - a.len()]);
                }
            } else {
                assert((a + b)[i] == a[i]);
            }
        }
    } else {
        assert(gs.take(0) =~= Seq::<Seq<ShapedGlyph>>::empty());
        assert(v.take(0) =~= Seq::<RunModel>::empty());
    }
}

proof fn lemma_flat_len(runs: Seq<ShapedRun>, v: Seq<RunModel>, faces: Seq<FontFace>)
    requires
        runs.len() == v.len(),
        forall|i: int|
            0 <= i < runs.len() ==> crate::shaping::shaped_run_matches(#[trigger] runs[i], v[i], faces),
    ensures
        flat_glyphs(run_glyph_seqs(runs)).len() == crate::shaping::sum_run_glyph_counts(runs),
    decreases runs.len(),
{
    if runs.len() > 0 {
        let n = runs.len() - 1;
        lemma_flat_len(runs.drop_last(), v.drop_last(), faces);
        assert(run_glyph_seqs(runs).drop_last() =~= run_glyph_seqs(runs.drop_last()));
        assert(crate::shaping::shaped_run_matches(runs[n], v[n], faces));
    }
}

} // verus!

verus! {

/// Number of space glyphs in `runs`.
fn count_spaces(runs: &Vec<ShapedRun>) -> (n: i32)
    requires
        flat_glyphs(run_glyph_seqs(runs@)).len() <= i32::MAX,
    ensures
        n == space_count(flat_glyphs(run_glyph_seqs(runs@))),
{
    let ghost gs = run_glyph_seqs(runs@);
    let ghost f = flat_glyphs(gs);
    let mut n: i32 = 0;
    let mut k: usize = 0;
    assert(gs.take(0) =~= Seq::<Seq<ShapedGlyph>>::empty());
    while k < runs.len()
        invariant
            k <= runs@.len(),
            gs == run_glyph_seqs(runs@),
            f == flat_glyphs(gs),
            f.len() <= i32::MAX,
            n == space_count(flat_glyphs(gs.take(k as int))),
        decreases runs@.len() - k,
    {
        let ghost base = flat_glyphs(gs.take(k as int));
        let mut j: usize = 0;
        assert(base + gs[k as int].take(0) =~= base);
        while j < runs[k].glyphs.len()
            invariant
                k < runs@.len(),
                gs == run_glyph_seqs(runs@),
                f == flat_glyphs(gs),
                f.len() <= i32::MAX,
                base == flat_glyphs(gs.take(k as int)),
                j <= gs[k as int].len(),
                n == space_count(base + gs[k as int].take(j as int)),
            decreases gs[k as int].len() - j,
        {
            proof {
                assert((base + gs[k as int].take(j + 1)).drop_last() =~= base + gs[k as int].take(
                    j as int,
                ));
                assert((base + gs[k as int].take(j + 1)).last() == runs@[k as int].glyphs@[j as int]);
                lemma_flat_prefix(gs, k as int, j + 1);
                lemma_space_count_le_len(base + gs[k as int].take(j + 1));
            }
            if runs[k].glyphs[j].character == ' ' {
                n = n + 1;
            }
            j += 1;
        }
        proof {
            assert(gs[k as int].take(gs[k as int].len() as int) =~= gs[k as int]);
            lemma_flat_prefix(gs, k as int, 0);
        }
        k += 1;
    }
    assert(gs.take(runs@.len() as int) =~= gs);
    n
}

/// Places the glyphs of one run after the glyphs `before` of the line `f`,
/// starting from the cursor and remainder that those leave.
fn place_run(
    glyphs: &Vec<ShapedGlyph>,
    cursor0: i32,
    rem0: i32,
    justify: bool,
    extra: i32,
    baseline: i32,
    Ghost(f): Ghost<Seq<ShapedGlyph>>,
    Ghost(before): Ghost<Seq<ShapedGlyph>>,
    Ghost(p): Ghost<LinePlacement>,
    Ghost(remaining): Ghost<int>,
) -> (r: (Vec<PositionedGlyph>, i32, i32))
    requires
        placement_fits(f, p, remaining),
        before.len() + glyphs@.len() <= f.len(),
        f.take((before.len() + glyphs@.len()) as int) == before + glyphs@,
        p.justify == justify,
        p.extra == extra,
        p.baseline == baseline,
        (cursor0 as int, rem0 as int) == pos_fold(before, p),
    ensures
        (r.1 as int, r.2 as int) == pos_fold(before + glyphs@, p),
        cursor0 <= r.1,
        r.0@.len() == glyphs@.len(),
        forall|j: int|
            0 <= j < glyphs@.len() ==> #[trigger] r.0@[j] == placed_glyph(
                glyphs@[j],
                before + glyphs@.take(j),
                p,
            ),
{
    let ghost total = before + glyphs@;
    let mut cursor = cursor0;
    let mut rem = rem0;
    let mut out: Vec<PositionedGlyph> = Vec::new();
    let mut j: usize = 0;
    assert(before + glyphs@.take(0) =~= before);
    while j < glyphs.len()
        invariant
            placement_fits(f, p, remaining),
            total == before + glyphs@,
            total.len() <= f.len(),
            f.take(total.len() as int) == total,
            p.justify == justify,
            p.extra == extra,
            p.baseline == baseline,
            j <= glyphs@.len(),
            cursor0 <= cursor,
            (cursor as int, rem as int) == pos_fold(before + glyphs@.take(j as int), p),
            out@.len() == j,
            forall|jj: int|
                0 <= jj < j ==> #[trigger] out@[jj] == placed_glyph(
                    glyphs@[jj],
                    before + glyphs@.take(jj),
                    p,
                ),
        decreases glyphs@.len() - j,
    {
        let glyph = glyphs[j];
        let ghost prefix = before + glyphs@.take(j as int);
        let ghost t = before.len() + j;
        proof {
            assert(forall|i: int| 0 <= i < total.len() ==> f[i] == #[trigger] total[i]) by {
                assert forall|i: int| 0 <= i < total.len() implies f[i] == #[trigger] total[i] by {
                    assert(f.take(total.len() as int)[i] == f[i]);
                }
            }
            assert(f.take(t) =~= prefix);
            assert(f.take(t + 1) =~= before + glyphs@.take(j + 1));
            assert((before + glyphs@.take(j + 1)).drop_last() =~= prefix);
            assert(total[t] == glyph);
            assert(glyph_bounded(f[t]));
            lemma_cursor_bound(f, t, p, remaining);
            lemma_cursor_bound(f, t + 1, p, remaining);
        }
        out.push(
            PositionedGlyph {
                x: cursor + glyph.x_offset,
                baseline_y: baseline + glyph.y_offset,
                glyph,
            },
        );
        cursor = cursor + glyph.advance;
        if justify && glyph.character == ' ' {
            cursor = cursor + extra;
            if rem > 0 {
                cursor = cursor + 1;
                rem = rem - 1;
            }
        }
        j += 1;
    }
    assert(glyphs@.take(glyphs@.len() as int) =~= glyphs@);
    (out, cursor, rem)
}

/// Shapes one wrapped line and places its runs and glyphs.
fn position_line(
    database: &mut FontDatabase,
    request: &FontRequest,
    text: &[char],
    width: i32,
    align: TextAlign,
    index: usize,
    last_line: bool,
) -> (r: LineBox)
    requires
        old(database).wf(),
        wrap_inputs_ok(old(database).spec_faces(), text@),
        width >= 1,
        index <= 134_000_000,
    ensures
        final(database).wf(),
        final(database).spec_faces() == old(database).spec_faces(),
        line_matches(
            r,
            old(database).spec_faces(),
            *request,
            text@,
            width as int,
            align,
            index as int,
            last_line,
        ),
{
    let ghost faces = database.spec_faces();
    let line_text = crate::text_util::chars_to_string(text);
    proof {
        crate::shaping::lemma_utf8_len_bound(text@);
        lemma_covered_shapeable(faces, text@);
    }
    let shaped = shape_text(database, request, line_text.as_str());
    let ghost v = spec_visual_runs(faces, *request, text@);
    let ghost gs = visual_glyphs(faces, *request, text@);
    let ghost f = flat_glyphs(gs);
    proof {
        assert forall|i: int| 0 <= i < v.len() implies #[trigger] run_glyph_seqs(shaped.runs@)[i]
            == gs[i] by {
            assert(crate::shaping::shaped_run_matches(shaped.runs@[i], v[i], faces));
        }
        assert(run_glyph_seqs(shaped.runs@) =~= gs);
        lemma_flat_len(shaped.runs@, v, faces);
        crate::shaping::lemma_run_advances_match(shaped.runs@, v, faces);
        lemma_visual_sums(faces, *request, text@, gs.len() as int);
        assert(gs.take(gs.len() as int) =~= gs);
        assert(v.take(v.len() as int) =~= v);
    }
    let shaped_advance = shaped.advance();
    let remaining: i32 = if width - shaped_advance > 0 {
        width - shaped_advance
    } else {
        0
    };
    let offset = alignment_offset(align, shaped.paragraph_direction, remaining);
    let spaces = count_spaces(&shaped.runs);
    let justify = align == TextAlign::Justify && !last_line && spaces > 0;
    let extra_per_space: i32 = if justify {
        remaining / spaces
    } else {
        0
    };
    let extra_remainder: i32 = if justify {
        remaining % spaces
    } else {
        0
    };
    let baseline: i32 = (index as i32) * 16 + 12;
    let ghost p = line_placement(faces, *request, text@, width as int, align, index as int, last_line);
    proof {
        if justify {
            assert(extra_per_space * spaces + extra_remainder == remaining && extra_per_space >= 0
                && extra_remainder >= 0) by (nonlinear_arith)
                requires
                    extra_per_space == remaining / spaces,
                    extra_remainder == remaining % spaces,
                    spaces > 0,
                    remaining >= 0,
            ;
        }
        assert(p.offset == offset);
        assert(p.extra == extra_per_space);
        assert(p.rem0 == extra_remainder);
        assert(p.baseline == baseline);
        assert(placement_fits(f, p, remaining as int));
    }
    let mut cursor: i32 = offset;
    let mut rem: i32 = extra_remainder;
    let mut runs: Vec<LineRun> = Vec::new();
    let mut k: usize = 0;
    assert(gs.take(0) =~= Seq::<Seq<ShapedGlyph>>::empty());
    while k < shaped.runs.len()
        invariant
            k <= shaped.runs@.len(),
            shaped.runs@.len() == v.len(),
            gs.len() == v.len(),
            gs == visual_glyphs(faces, *request, text@),
            run_glyph_seqs(shaped.runs@) == gs,
            f == flat_glyphs(gs),
            placement_fits(f, p, remaining as int),
            p.justify == justify,
            p.extra == extra_per_space,
            p.baseline == baseline,
            forall|i: int|
                0 <= i < shaped.runs@.len() ==> crate::shaping::shaped_run_matches(
                    #[trigger] shaped.runs@[i],
                    v[i],
                    faces,
                ),
            (cursor as int, rem as int) == pos_fold(flat_glyphs(gs.take(k as int)), p),
            runs@.len() == k,
            forall|kk: int|
                0 <= kk < k ==> placed_run(
                    #[trigger] runs@[kk],
                    v[kk],
                    faces,
                    flat_glyphs(gs.take(kk)),
                    gs[kk],
                    p,
                ),
        decreases shaped.runs@.len() - k,
    {
        let ghost before = flat_glyphs(gs.take(k as int));
        proof {
            lemma_flat_prefix(gs, k as int, gs[k as int].len() as int);
            assert(gs[k as int].take(gs[k as int].len() as int) =~= gs[k as int]);
            assert(shaped.runs@[k as int].glyphs@ == run_glyph_seqs(shaped.runs@)[k as int]);
            lemma_flat_prefix(gs, k as int, 0);
            assert(before + gs[k as int].take(0) =~= before);
            lemma_cursor_bound(f, before.len() as int, p, remaining as int);
        }
        let run_x = cursor;
        let (glyphs, next_cursor, next_rem) = place_run(
            &shaped.runs[k].glyphs,
            cursor,
            rem,
            justify,
            extra_per_space,
            baseline,
            Ghost(f),
            Ghost(before),
            Ghost(p),
            Ghost(remaining as int),
        );
        cursor = next_cursor;
        rem = next_rem;
        let family = shaped.runs[k].family.clone();
        assert(crate::shaping::shaped_run_matches(shaped.runs@[k as int], v[k as int], faces));
        runs.push(
            LineRun {
                font: shaped.runs[k].font,
                family,
                script: shaped.runs[k].script,
                direction: shaped.runs[k].direction,
                x: run_x,
                width: cursor - run_x,
                glyphs,
            },
        );
        k += 1;
    }
    assert(gs.take(k as int) =~= gs);
    LineBox {
        index,
        y: (index as i32) * 16,
        baseline,
        available_width: width,
        used_width: if justify {
            width
        } else {
            shaped_advance
        },
        offset,
        text: line_text,
        runs,
    }
}

} // verus!

verus! {

proof fn lemma_seqs_total_bounds(s: Seq<Seq<char>>)
    ensures
        forall|i: int| 0 <= i < s.len() ==> (#[trigger] s[i]).len() <= seqs_total_len(s),
        all_nonempty(s) ==> s.len() <= seqs_total_len(s),
    decreases s.len(),
{
    if s.len() > 0 {
        lemma_seqs_total_bounds(s.drop_last());
        lemma_seqs_total_nonneg(s.drop_last());
        assert forall|i: int| 0 <= i < s.len() implies (#[trigger] s[i]).len() <= seqs_total_len(
            s,
        ) by {
            if i < s.len() - 1 {
                assert(s[i] == s.drop_last()[i]);
            }
        }
        if all_nonempty(s) {
            assert(all_nonempty(s.drop_last())) by {
                assert forall|i: int| 0 <= i < s.drop_last().len() implies (
                #[trigger] s.drop_last()[i]).len() > 0 by {
                    assert(s.drop_last()[i] == s[i]);
                }
            }
            assert(s[s.len() - 1].len() > 0);
        }
    }
}

/// Greedy wrapping neither invents nor duplicates characters: every wrapped
/// line is nonempty, and the lines together hold at most as many characters
/// as the text, so there are at most as many lines as characters and no
/// line is longer than the text.
pub proof fn law_wrapped_lines_fit_text(
    faces: Seq<FontFace>,
    request: FontRequest,
    width: int,
    text: Seq<char>,
)
    ensures
        all_nonempty(spec_wrap_text(faces, request, width, text)),
        seqs_total_len(spec_wrap_text(faces, request, width, text)) <= text.len(),
        spec_wrap_text(faces, request, width, text).len() <= text.len(),
        forall|i: int|
            0 <= i < spec_wrap_text(faces, request, width, text).len() ==> 1 <= (
            #[trigger] spec_wrap_text(faces, request, width, text)[i]).len() <= text.len(),
{
    let wl = spec_wrap_text(faces, request, width, text);
    if text.len() > 0 {
        let words = split_on(text, ' ');
        lemma_split_on_len(text, ' ');
        lemma_wrap_state_len(faces, request, width, words);
        assert(words.take(words.len() as int) =~= words);
        let (lines, current) = wrap_state(faces, request, width, words);
        if current.len() > 0 {
            lemma_seqs_total_push(lines, current);
            assert(all_nonempty(lines.push(current))) by {
                assert forall|i: int| 0 <= i < lines.push(current).len() implies (
                #[trigger] lines.push(current)[i]).len() > 0 by {
                    if i < lines.len() {
                        assert(lines.push(current)[i] == lines[i]);
                    }
                }
            }
        }
    }
    lemma_seqs_total_bounds(wl);
}

proof fn lemma_split_first_nonempty(t: Seq<char>, sep: char)
    requires
        t.len() > 0,
        t[0] != sep,
    ensures
        split_on(t, sep).len() >= 1,
        split_on(t, sep)[0].len() > 0,
    decreases t.len(),
{
    lemma_split_on_len(t, sep);
    let d = t.drop_last();
    if d.len() > 0 {
        assert(d[0] == t[0]);
        lemma_split_first_nonempty(d, sep);
        let prev = split_on(d, sep);
        if t.last() == sep {
            assert(split_on(t, sep)[0] == prev[0]);
        } else if prev.len() - 1 == 0 {
            assert(split_on(t, sep)[0] == prev[0].push(t.last()));
        } else {
            assert(split_on(t, sep)[0] == prev[0]);
        }
    } else {
        assert(split_on(d, sep) == seq![Seq::<char>::empty()]);
        assert(t.last() == t[0]);
        assert(split_on(t, sep)[0] == Seq::<char>::empty().push(t.last()));
    }
}

proof fn lemma_wrap_state_nonempty(
    faces: Seq<FontFace>,
    request: FontRequest,
    width: int,
    words: Seq<Seq<char>>,
)
    requires
        words.len() >= 1,
        words[0].len() > 0,
    ensures
        wrap_state(faces, request, width, words).0.len() > 0
            || wrap_state(faces, request, width, words).1.len() > 0,
    decreases words.len(),
{
    let w = words.last();
    let prev = words.drop_last();
    let (lines, current) = wrap_state(faces, request, width, prev);
    if words.len() == 1 {
        assert(prev.len() == 0);
        assert(w == words[0]);
        lemma_hard_wrap_len(faces, request, width, w);
        let chunks = spec_hard_wrap(faces, request, width, w);
        if chunks.len() > 0 {
            assert(chunks.last() == chunks[chunks.len() - 1]);
        }
    } else {
        assert(prev[0] == words[0]);
        lemma_wrap_state_nonempty(faces, request, width, prev);
        lemma_hard_wrap_len(faces, request, width, w);
        let candidate = if current.len() == 0 {
            w
        } else {
            current + seq![' '] + w
        };
        if current.len() > 0 {
            assert(candidate.len() > 0);
        }
    }
}

/// Wrapping gives no line exactly when the collapsed text is empty.
proof fn lemma_wrap_text_empty_iff(faces: Seq<FontFace>, request: FontRequest, width: int, text: Seq<char>)
    requires
        is_collapsed(text),
    ensures
        (spec_wrap_text(faces, request, width, text).len() == 0) == (text.len() == 0),
{
    if text.len() > 0 {
        assert(text[0] != ' ');
        lemma_split_first_nonempty(text, ' ');
        lemma_wrap_state_nonempty(faces, request, width, split_on(text, ' '));
    }
}

/// Greedily lays out a paragraph into deterministic line boxes.
pub fn layout_paragraph(
    database: &mut FontDatabase,
    request: &FontRequest,
    text: &str,
    width: i32,
    align: TextAlign,
) -> (r: ParagraphLayout)
    requires
        old(database).wf(),
        chars_covered(old(database).spec_faces(), spec_collapse_whitespace(text@)),
        text@.len() <= 134_000_000,
    ensures
        final(database).wf(),
        final(database).spec_faces() == old(database).spec_faces(),
        r.width == (if width >= 1 {
            width
        } else {
            1i32
        }),
        r.align == align,
        r.collapsed_text@ == spec_collapse_whitespace(text@),
        r.direction == spec_paragraph_direction(r.collapsed_text@),
        (r.lines@.len() == 0) == (r.collapsed_text@.len() == 0),
        r.lines@.len() == spec_wrap_text(
            old(database).spec_faces(),
            *request,
            r.width as int,
            r.collapsed_text@,
        ).len(),
        forall|i: int|
            0 <= i < r.lines@.len() ==> line_matches(
                #[trigger] r.lines@[i],
                old(database).spec_faces(),
                *request,
                spec_wrap_text(
                    old(database).spec_faces(),
                    *request,
                    r.width as int,
                    r.collapsed_text@,
                )[i],
                r.width as int,
                align,
                i,
                i + 1 == r.lines@.len(),
            ),
{
    let ghost faces = database.spec_faces();
    let w: i32 = if width >= 1 {
        width
    } else {
        1
    };
    let collapsed_text = collapse_whitespace(text);
    proof {
        crate::shaping::lemma_utf8_len_bound(collapsed_text@);
        lemma_covered_shapeable(faces, collapsed_text@);
    }
    let paragraph_direction = shape_text(database, request, collapsed_text.as_str()).paragraph_direction;
    let chars = str_to_chars(collapsed_text.as_str());
    let logical_lines = wrap_text(database, request, chars.as_slice(), w);
    let ghost wl = spec_wrap_text(faces, *request, w as int, collapsed_text@);
    proof {
        law_wrapped_lines_fit_text(faces, *request, w as int, collapsed_text@);
        lemma_wrap_text_empty_iff(faces, *request, w as int, collapsed_text@);
        assert(wl == Seq::new(logical_lines@.len(), |i: int| logical_lines@[i]@));
    }
    let line_count = logical_lines.len();
    let mut lines: Vec<LineBox> = Vec::new();
    let mut i: usize = 0;
    while i < line_count
        invariant
            database.wf(),
            database.spec_faces() == faces,
            forall|j: int| 0 <= j < wl.len() ==> chars_covered(faces, #[trigger] wl[j]),
            w >= 1,
            line_count == logical_lines@.len(),
            wl == Seq::new(logical_lines@.len(), |j: int| logical_lines@[j]@),
            wl.len() <= collapsed_text@.len(),
            collapsed_text@.len() <= 134_000_000,
            forall|j: int| 0 <= j < wl.len() ==> (#[trigger] wl[j]).len() <= collapsed_text@.len(),
            i <= line_count,
            lines@.len() == i,
            forall|j: int|
                0 <= j < i ==> line_matches(
                    #[trigger] lines@[j],
                    faces,
                    *request,
                    wl[j],
                    w as int,
                    align,
                    j,
                    j + 1 == line_count,
                ),
        decreases line_count - i,
    {
        assert(wl[i as int] == logical_lines@[i as int]@);
        let lb = position_line(
            database,
            request,
            logical_lines[i].as_slice(),
            w,
            align,
            i,
            i + 1 == line_count,
        );
        lines.push(lb);
        i += 1;
    }
    ParagraphLayout { width: w, direction: paragraph_direction, align, collapsed_text, lines }
}

} // verus!

use crate::text_util::{char_debug, decimal, int_decimal, str_debug};

verus! {

/// `Debug` name of an alignment.
pub open spec fn align_name(a: TextAlign) -> Seq<char> {
    match a {
        TextAlign::Start => "Start"@,
        TextAlign::End => "End"@,
        TextAlign::Left => "Left"@,
        TextAlign::Right => "Right"@,
        TextAlign::Center => "Center"@,
        TextAlign::Justify => "Justify"@,
    }
}

fn align_debug(a: TextAlign) -> (r: String)
    ensures
        r@ == align_name(a),
{
    match a {
        TextAlign::Start => String::from_str("Start"),
        TextAlign::End => String::from_str("End"),
        TextAlign::Left => String::from_str("Left"),
        TextAlign::Right => String::from_str("Right"),
        TextAlign::Center => String::from_str("Center"),
        TextAlign::Justify => String::from_str("Justify"),
    }
}

/// One positioned-glyph line of a paragraph dump.
pub open spec fn positioned_line(g: PositionedGlyph) -> Seq<char> {
    "    glyph char="@ + char_debug(g.glyph.character) + " cluster="@ + decimal(
        g.glyph.cluster as nat,
    ) + " x="@ + int_decimal(g.x as int) + " baseline="@ + int_decimal(g.baseline_y as int)
        + " advance="@ + int_decimal(g.glyph.advance as int) + "\n"@
}

/// The glyph lines of the first `n` positioned glyphs.
pub open spec fn positioned_lines(gs: Seq<PositionedGlyph>, n: int) -> Seq<char>
    decreases n,
{
    if n <= 0 {
        Seq::empty()
    } else {
        positioned_lines(gs, n - 1) + positioned_line(gs[n - 1])
    }
}

/// A line run's header line followed by its glyph lines.
pub open spec fn line_run_block(r: LineRun) -> Seq<char> {
    "  run font="@ + decimal(r.font.0 as nat) + " family="@ + str_debug(r.family@) + " script="@
        + crate::fonts::script_name(r.script) + " direction="@ + crate::shaping::direction_name(
        r.direction,
    ) + " x="@ + int_decimal(r.x as int) + " width="@ + int_decimal(r.width as int) + "\n"@
        + positioned_lines(r.glyphs@, r.glyphs@.len() as int)
}

/// The blocks of the first `n` line runs.
pub open spec fn line_run_blocks(rs: Seq<LineRun>, n: int) -> Seq<char>
    decreases n,
{
    if n <= 0 {
        Seq::empty()
    } else {
        line_run_blocks(rs, n - 1) + line_run_block(rs[n - 1])
    }
}

/// A line box's header line followed by its runs.
pub open spec fn line_box_block(l: LineBox) -> Seq<char> {
    "line="@ + decimal(l.index as nat) + " y="@ + int_decimal(l.y as int) + " baseline="@
        + int_decimal(l.baseline as int) + " available="@ + int_decimal(l.available_width as int)
        + " used="@ + int_decimal(l.used_width as int) + " offset="@ + int_decimal(l.offset as int)
        + " text="@ + str_debug(l.text@) + "\n"@ + line_run_blocks(l.runs@, l.runs@.len() as int)
}

/// The blocks of the first `n` line boxes.
pub open spec fn line_box_blocks(ls: Seq<LineBox>, n: int) -> Seq<char>
    decreases n,
{
    if n <= 0 {
        Seq::empty()
    } else {
        line_box_blocks(ls, n - 1) + line_box_block(ls[n - 1])
    }
}

/// The complete paragraph dump.
pub open spec fn paragraph_dump(p: ParagraphLayout) -> Seq<char> {
    "#paragraph width="@ + int_decimal(p.width as int) + " height="@ + int_decimal(
        (p.lines@.len() * 16) as int,
    ) + " direction="@ + crate::shaping::direction_name(p.direction) + " align="@ + align_name(
        p.align,
    ) + " text="@ + str_debug(p.collapsed_text@) + "\n"@ + line_box_blocks(
        p.lines@,
        p.lines@.len() as int,
    )
}

fn push_int(out: &mut String, v: i32)
    ensures
        final(out)@ == old(out)@ + int_decimal(v as int),
{
    let d = crate::text_util::i64_to_decimal(v as i64);
    crate::text_util::push_str(out, d.as_str());
}

fn push_nat(out: &mut String, v: u64)
    ensures
        final(out)@ == old(out)@ + decimal(v as nat),
{
    let d = crate::text_util::u64_to_decimal(v);
    crate::text_util::push_str(out, d.as_str());
}

fn positioned_line_string(g: &PositionedGlyph) -> (r: String)
    ensures
        r@ == positioned_line(*g),
{
    let mut out = String::from_str("    glyph char=");
    let c = crate::text_util::debug_char(g.glyph.character);
    crate::text_util::push_str(&mut out, c.as_str());
    crate::text_util::push_str(&mut out, " cluster=");
    push_nat(&mut out, g.glyph.cluster as u64);
    crate::text_util::push_str(&mut out, " x=");
    push_int(&mut out, g.x);
    crate::text_util::push_str(&mut out, " baseline=");
    push_int(&mut out, g.baseline_y);
    crate::text_util::push_str(&mut out, " advance=");
    push_int(&mut out, g.glyph.advance);
    crate::text_util::push_str(&mut out, "\n");
    out
}

fn line_run_string(r: &LineRun) -> (s: String)
    ensures
        s@ == line_run_block(*r),
{
    let mut out = String::from_str("  run font=");
    push_nat(&mut out, r.font.0 as u64);
    crate::text_util::push_str(&mut out, " family=");
    let fam = crate::text_util::debug_quoted(r.family.as_str());
    crate::text_util::push_str(&mut out, fam.as_str());
    crate::text_util::push_str(&mut out, " script=");
    let sc = crate::fonts::script_debug(r.script);
    crate::text_util::push_str(&mut out, sc.as_str());
    crate::text_util::push_str(&mut out, " direction=");
    let dir = crate::shaping::direction_debug(r.direction);
    crate::text_util::push_str(&mut out, dir.as_str());
    crate::text_util::push_str(&mut out, " x=");
    push_int(&mut out, r.x);
    crate::text_util::push_str(&mut out, " width=");
    push_int(&mut out, r.width);
    crate::text_util::push_str(&mut out, "\n");
    let ghost head = out@;
    let mut i: usize = 0;
    while i < r.glyphs.len()
        invariant
            i <= r.glyphs@.len(),
            out@ == head + positioned_lines(r.glyphs@, i as int),
        decreases r.glyphs@.len() - i,
    {
        let line = positioned_line_string(&r.glyphs[i]);
        crate::text_util::push_str(&mut out, line.as_str());
        i += 1;
    }
    out
}

fn line_box_string(l: &LineBox) -> (s: String)
    ensures
        s@ == line_box_block(*l),
{
    let mut out = String::from_str("line=");
    push_nat(&mut out, l.index as u64);
    crate::text_util::push_str(&mut out, " y=");
    push_int(&mut out, l.y);
    crate::text_util::push_str(&mut out, " baseline=");
    push_int(&mut out, l.baseline);
    crate::text_util::push_str(&mut out, " available=");
    push_int(&mut out, l.available_width);
    crate::text_util::push_str(&mut out, " used=");
    push_int(&mut out, l.used_width);
    crate::text_util::push_str(&mut out, " offset=");
    push_int(&mut out, l.offset);
    crate::text_util::push_str(&mut out, " text=");
    let txt = crate::text_util::debug_quoted(l.text.as_str());
    crate::text_util::push_str(&mut out, txt.as_str());
    crate::text_util::push_str(&mut out, "\n");
    let ghost head = out@;
    let mut i: usize = 0;
    while i < l.runs.len()
        invariant
            i <= l.runs@.len(),
            out@ == head + line_run_blocks(l.runs@, i as int),
        decreases l.runs@.len() - i,
    {
        let block = line_run_string(&l.runs[i]);
        crate::text_util::push_str(&mut out, block.as_str());
        i += 1;
    }
    out
}

impl ParagraphLayout {
    /// A stable text listing of the paragraph's lines, runs and glyphs.
    pub fn dump(&self) -> (r: String)
        requires
            self.lines@.len() * 16 <= i32::MAX,
        ensures
            r@ == paragraph_dump(*self),
    {
        let mut out = String::from_str("#paragraph width=");
        push_int(&mut out, self.width);
        crate::text_util::push_str(&mut out, " height=");
        let h = self.height();
        push_int(&mut out, h);
        crate::text_util::push_str(&mut out, " direction=");
        let dir = crate::shaping::direction_debug(self.direction);
        crate::text_util::push_str(&mut out, dir.as_str());
        crate::text_util::push_str(&mut out, " align=");
        let al = align_debug(self.align);
        crate::text_util::push_str(&mut out, al.as_str());
        crate::text_util::push_str(&mut out, " text=");
        let txt = crate::text_util::debug_quoted(self.collapsed_text.as_str());
        crate::text_util::push_str(&mut out, txt.as_str());
        crate::text_util::push_str(&mut out, "\n");
        let ghost head = out@;
        let mut i: usize = 0;
        while i < self.lines.len()
            invariant
                i <= self.lines@.len(),
                out@ == head + line_box_blocks(self.lines@, i as int),
            decreases self.lines@.len() - i,
        {
            let block = line_box_string(&self.lines[i]);
            crate::text_util::push_str(&mut out, block.as_str());
            i += 1;
        }
        out
    }
}

} // verus!
