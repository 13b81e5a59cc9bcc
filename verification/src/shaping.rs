//! Deterministic shaping: grapheme-like clusters, font/script/direction runs,
//! synthetic glyph metrics, Arabic joining forms, and visual run order.
use vstd::prelude::*;
use crate::fonts::{
    script_for, some_face_covers, spec_request_best, spec_script_for,
    FontDatabase, FontFace, FontId, FontRequest, Script,
};
use crate::text_util::{
    char_is_ascii_punctuation, char_is_whitespace, char_utf8_len, is_ascii_punct, is_white_space,
    lemma_utf8_byte_len_push, lemma_utf8_byte_len_prefix_le, str_to_chars, utf8_byte_len, utf8_len,
};

verus! {

/// Resolved inline text direction.
#[derive(Clone, Copy, Debug, PartialEq, Eq, Structural)]
pub enum TextDirection {
    Ltr,
    Rtl,
}

/// A half-open byte range of UTF-8 text.
#[derive(Clone, Copy, Debug, PartialEq, Eq, Structural)]
pub struct TextRange {
    pub start: usize,
    pub end: usize,
}

/// Deterministic glyph metrics produced by the shaper.
#[derive(Clone, Copy, Debug, PartialEq, Eq, Structural)]
pub struct ShapedGlyph {
    pub glyph_id: u32,
    pub cluster: usize,
    pub character: char,
    pub advance: i32,
    pub x_offset: i32,
    pub y_offset: i32,
}

/// One script, direction, and font-homogeneous shaped run.
#[derive(Clone, Debug, PartialEq, Eq)]
pub struct ShapedRun {
    pub logical_range: TextRange,
    pub visual_index: usize,
    pub font: FontId,
    pub family: String,
    pub script: Script,
    pub direction: TextDirection,
    pub text: String,
    pub glyphs: Vec<ShapedGlyph>,
    pub advance: i32,
    pub ascent: i32,
    pub descent: i32,
    pub line_gap: i32,
}

/// Paragraph-level shaping output in visual run order.
#[derive(Clone, Debug, PartialEq, Eq)]
pub struct ShapedText {
    pub paragraph_direction: TextDirection,
    pub runs: Vec<ShapedRun>,
}

pub open spec fn sum_run_advances(runs: Seq<ShapedRun>) -> int
    decreases runs.len(),
{
    if runs.len() == 0 {
        0
    } else {
        sum_run_advances(runs.drop_last()) + runs.last().advance
    }
}

pub open spec fn sum_glyph_advances(glyphs: Seq<ShapedGlyph>) -> int
    decreases glyphs.len(),
{
    if glyphs.len() == 0 {
        0
    } else {
        sum_glyph_advances(glyphs.drop_last()) + glyphs.last().advance
    }
}

impl ShapedText {
    /// Total advance of all runs.
    pub fn advance(&self) -> (r: i32)
        requires
            i32::MIN <= sum_run_advances(self.runs@) <= i32::MAX,
            forall|k: int|
                0 <= k <= self.runs@.len() ==> i32::MIN <= #[trigger] sum_run_advances(
                    self.runs@.take(k),
                ) <= i32::MAX,
        ensures
            r == sum_run_advances(self.runs@),
    {
        let mut total: i32 = 0;
        let mut i: usize = 0;
        while i < self.runs.len()
            invariant
                i <= self.runs.len(),
                total == sum_run_advances(self.runs@.take(i as int)),
                forall|k: int|
                    0 <= k <= self.runs@.len() ==> i32::MIN <= #[trigger] sum_run_advances(
                        self.runs@.take(k),
                    ) <= i32::MAX,
            decreases self.runs.len() - i,
        {
            assert(self.runs@.take(i + 1).drop_last() =~= self.runs@.take(i as int));
            assert(i32::MIN <= sum_run_advances(self.runs@.take(i + 1)) <= i32::MAX);
            total = total + self.runs[i].advance;
            i += 1;
        }
        assert(self.runs@.take(self.runs.len() as int) =~= self.runs@);
        total
    }
}

/// Combining diacritical mark blocks.
pub open spec fn spec_is_combining_mark(c: char) -> bool {
    let v = c as u32;
    (0x0300 <= v <= 0x036f) || (0x1ab0 <= v <= 0x1aff) || (0x1dc0 <= v <= 0x1dff) || (0x20d0
        <= v <= 0x20ff)
}

/// Whether `character` is a combining mark that joins the preceding cluster.
pub fn is_combining_mark(character: char) -> (r: bool)
    ensures
        r == spec_is_combining_mark(character),
{
    let v = character as u32;
    (0x0300 <= v && v <= 0x036f) || (0x1ab0 <= v && v <= 0x1aff) || (0x1dc0 <= v && v <= 0x1dff)
        || (0x20d0 <= v && v <= 0x20ff)
}

/// The direction that a character forces, if any: ASCII digits and Latin or
/// other letters run left to right, Arabic right to left.
pub open spec fn spec_strong_direction(c: char) -> Option<TextDirection> {
    if '0' <= c <= '9' {
        Some(TextDirection::Ltr)
    } else {
        match spec_script_for(c) {
            Script::Arabic => Some(TextDirection::Rtl),
            Script::Latin | Script::Other => Some(TextDirection::Ltr),
            Script::Common => None,
        }
    }
}

fn strong_direction(character: char) -> (r: Option<TextDirection>)
    ensures
        r == spec_strong_direction(character),
{
    if '0' <= character && character <= '9' {
        return Some(TextDirection::Ltr);
    }
    match script_for(character) {
        Script::Arabic => Some(TextDirection::Rtl),
        Script::Latin | Script::Other => Some(TextDirection::Ltr),
        Script::Common => None,
    }
}

/// Direction of the first strong character, left to right when none.
pub open spec fn spec_paragraph_direction(text: Seq<char>) -> TextDirection
    decreases text.len(),
{
    if text.len() == 0 {
        TextDirection::Ltr
    } else {
        match spec_strong_direction(text[0]) {
            Some(d) => d,
            None => spec_paragraph_direction(text.drop_first()),
        }
    }
}

fn paragraph_direction(text: &[char]) -> (r: TextDirection)
    ensures
        r == spec_paragraph_direction(text@),
{
    let mut i: usize = 0;
    assert(text@.skip(0) =~= text@);
    while i < text.len()
        invariant
            i <= text.len(),
            spec_paragraph_direction(text@) == spec_paragraph_direction(text@.skip(i as int)),
        decreases text.len() - i,
    {
        match strong_direction(text[i]) {
            Some(d) => {
                return d;
            },
            None => {
                assert(text@.skip(i as int).drop_first() =~= text@.skip(i + 1));
            },
        }
        i += 1;
    }
    TextDirection::Ltr
}

/// Synthetic advance: 4 for whitespace, 5 for ASCII punctuation, otherwise 9
/// for Arabic, 8 for Latin and common text, 10 for other scripts.
pub open spec fn spec_glyph_advance(c: char, script: Script) -> i32 {
    if is_white_space(c) {
        4
    } else if is_ascii_punct(c) {
        5
    } else {
        match script {
            Script::Arabic => 9,
            Script::Latin | Script::Common => 8,
            Script::Other => 10,
        }
    }
}

fn glyph_advance(character: char, script: Script) -> (r: i32)
    ensures
        r == spec_glyph_advance(character, script),
{
    if char_is_whitespace(character) {
        4
    } else if char_is_ascii_punctuation(character) {
        5
    } else {
        match script {
            Script::Arabic => 9,
            Script::Latin | Script::Common => 8,
            Script::Other => 10,
        }
    }
}

/// What `char::is_alphabetic` (the Unicode `Alphabetic` property) reports.
pub uninterp spec fn unicode_alphabetic(c: char) -> bool;

/// Calls `char::is_alphabetic`; the contract names its result.
#[verifier::external_body]
fn char_is_alphabetic(c: char) -> (r: bool)
    ensures
        r == unicode_alphabetic(c),
{
    c.is_alphabetic()
}


/// One cluster: a base character with the combining marks that follow it.
#[verifier::ext_equal]
pub struct ClusterModel {
    pub start: int,
    pub end: int,
    pub chars: Seq<char>,
    pub font: int,
    pub script: Script,
    pub direction: Option<TextDirection>,
}

/// A cluster as the shaper holds it.
#[derive(Clone, Debug)]
pub struct Cluster {
    pub range: TextRange,
    pub text: Vec<char>,
    pub font: FontId,
    pub script: Script,
    pub direction: Option<TextDirection>,
}

pub open spec fn cluster_view(c: Cluster) -> ClusterModel {
    ClusterModel {
        start: c.range.start as int,
        end: c.range.end as int,
        chars: c.text@,
        font: c.font.0 as int,
        script: c.script,
        direction: c.direction,
    }
}

pub open spec fn clusters_view(cs: Seq<Cluster>) -> Seq<ClusterModel> {
    Seq::new(cs.len(), |i: int| cluster_view(cs[i]))
}

/// Adds character `c` (UTF-8 bytes from `start`) to the clusters of the
/// preceding text. A combining mark joins the last cluster. Otherwise a new
/// cluster starts; a `Common` character without a strong direction keeps the
/// font and script of the cluster before it, other characters take the
/// selected face and their own script.
pub open spec fn cluster_step(
    faces: Seq<FontFace>,
    request: FontRequest,
    clusters: Seq<ClusterModel>,
    c: char,
    start: int,
) -> Seq<ClusterModel> {
    let end = start + utf8_len(c);
    if spec_is_combining_mark(c) && clusters.len() > 0 {
        let last = clusters.last();
        clusters.update(
            clusters.len() - 1,
            ClusterModel { end: end, chars: last.chars.push(c), ..last },
        )
    } else {
        let classified = spec_script_for(c);
        let direction = spec_strong_direction(c);
        let inherit = classified == Script::Common && direction is None && clusters.len() > 0;
        let font = if inherit {
            clusters.last().font
        } else {
            spec_request_best(faces, request, c)
        };
        let script = if inherit {
            clusters.last().script
        } else {
            classified
        };
        clusters.push(
            ClusterModel {
                start: start,
                end: end,
                chars: seq![c],
                font: font,
                script: script,
                direction: direction,
            },
        )
    }
}

/// The clusters of `text` before directions are resolved.
pub open spec fn spec_raw_clusters(faces: Seq<FontFace>, request: FontRequest, text: Seq<char>) -> Seq<
    ClusterModel,
>
    decreases text.len(),
{
    if text.len() == 0 {
        Seq::empty()
    } else {
        cluster_step(
            faces,
            request,
            spec_raw_clusters(faces, request, text.drop_last()),
            text.last(),
            utf8_byte_len(text.drop_last()) as int,
        )
    }
}

/// The direction of cluster `i`: its own strong direction, otherwise that
/// of the nearest earlier strong cluster, otherwise the paragraph's.
pub open spec fn resolved_direction(
    clusters: Seq<ClusterModel>,
    paragraph: TextDirection,
    i: int,
) -> TextDirection
    decreases i,
{
    if i < 0 || i >= clusters.len() {
        paragraph
    } else {
        match clusters[i].direction {
            Some(d) => d,
            None => if i == 0 {
                paragraph
            } else {
                resolved_direction(clusters, paragraph, i - 1)
            },
        }
    }
}

/// Clusters of `text` with every direction resolved.
pub open spec fn spec_clusters(faces: Seq<FontFace>, request: FontRequest, text: Seq<char>) -> Seq<
    ClusterModel,
> {
    let raw = spec_raw_clusters(faces, request, text);
    let p = spec_paragraph_direction(text);
    Seq::new(
        raw.len(),
        |i: int| ClusterModel { direction: Some(resolved_direction(raw, p, i)), ..raw[i] },
    )
}

/// Every character whose cluster needs a face selection has a covering face.
pub open spec fn shapeable(faces: Seq<FontFace>, text: Seq<char>) -> bool {
    forall|i: int|
        0 <= i < text.len() && (i == 0 || !(spec_is_combining_mark(text[i]) || (spec_script_for(
            text[i],
        ) == Script::Common && spec_strong_direction(text[i]) is None))) ==> some_face_covers(
            faces,
            #[trigger] text[i],
        )
}

pub open spec fn clusters_wf(cs: Seq<ClusterModel>, nfaces: int) -> bool {
    forall|k: int|
        0 <= k < cs.len() ==> 0 <= (#[trigger] cs[k]).font < nfaces && cs[k].chars.len() > 0
}

fn build_clusters(
    database: &mut FontDatabase,
    request: &FontRequest,
    text: &[char],
) -> (clusters: Vec<Cluster>)
    requires
        old(database).wf(),
        shapeable(old(database).spec_faces(), text@),
        utf8_byte_len(text@) <= usize::MAX,
    ensures
        final(database).wf(),
        final(database).spec_faces() == old(database).spec_faces(),
        clusters_view(clusters@) == spec_raw_clusters(old(database).spec_faces(), *request, text@),
        clusters_wf(clusters_view(clusters@), old(database).spec_faces().len() as int),
        forall|k: int|
            0 <= k < clusters@.len() ==> (#[trigger] clusters@[k]).range.end <= utf8_byte_len(
                text@,
            ),
{
    let ghost faces = database.spec_faces();
    let mut clusters: Vec<Cluster> = Vec::new();
    let mut start: usize = 0;
    let mut i: usize = 0;
    assert(text@.take(0) =~= Seq::<char>::empty());
    assert(clusters_view(clusters@) =~= Seq::<ClusterModel>::empty());
    while i < text.len()
        invariant
            database.wf(),
            database.spec_faces() == faces,
            faces == old(database).spec_faces(),
            shapeable(faces, text@),
            utf8_byte_len(text@) <= usize::MAX,
            i <= text.len(),
            start == utf8_byte_len(text@.take(i as int)),
            clusters_view(clusters@) == spec_raw_clusters(faces, *request, text@.take(i as int)),
            i > 0 ==> clusters@.len() > 0,
            clusters_wf(clusters_view(clusters@), faces.len() as int),
            forall|k: int| 0 <= k < clusters@.len() ==> (#[trigger] clusters@[k]).range.end <= start,
        decreases text.len() - i,
    {
        let character = text[i];
        let ghost prefix = text@.take(i as int);
        let ghost before = clusters_view(clusters@);
        proof {
            assert(text@.take(i + 1).drop_last() =~= prefix);
            lemma_utf8_byte_len_push(prefix, character);
            assert(text@.take(i + 1) =~= prefix.push(character));
            lemma_utf8_byte_len_prefix_le(text@, i + 1);
        }
        let end = start + char_utf8_len(character);
        let n = clusters.len();
        if is_combining_mark(character) && n > 0 {
            let mut last = clusters.pop().unwrap();
            last.range.end = end;
            last.text.push(character);
            clusters.push(last);
            assert(clusters_view(clusters@) =~= cluster_step(
                faces,
                *request,
                before,
                character,
                start as int,
            ));
        } else {
            let classified = script_for(character);
            let direction = strong_direction(character);
            let (font, script) = if classified == Script::Common && direction.is_none() && n > 0 {
                (clusters[n - 1].font, clusters[n - 1].script)
            } else {
                assert(some_face_covers(faces, text@[i as int]));
                (database.select_face(request, character), classified)
            };
            let mut cluster_text: Vec<char> = Vec::new();
            cluster_text.push(character);
            assert(cluster_text@ =~= seq![character]);
            let ghost expected = cluster_step(faces, *request, before, character, start as int);
            assert(expected.last().chars == seq![character]);
            assert(expected.last().font == font.0 as int);
            assert(expected.last().script == script);
            assert(expected.last().direction == direction);
            clusters.push(
                Cluster {
                    range: TextRange { start, end },
                    text: cluster_text,
                    font,
                    script,
                    direction,
                },
            );
            assert(clusters_view(clusters@) =~= cluster_step(
                faces,
                *request,
                before,
                character,
                start as int,
            ));
        }
        start = end;
        i += 1;
    }
    assert(text@.take(text.len() as int) =~= text@);
    clusters
}

fn resolve_directions(clusters: &mut Vec<Cluster>, paragraph: TextDirection)
    ensures
        final(clusters)@.len() == old(clusters)@.len(),
        clusters_view(final(clusters)@) == Seq::new(
            old(clusters)@.len(),
            |i: int|
                ClusterModel {
                    direction: Some(resolved_direction(clusters_view(old(clusters)@), paragraph, i)),
                    ..clusters_view(old(clusters)@)[i]
                },
        ),
        forall|k: int|
            0 <= k < final(clusters)@.len() ==> (#[trigger] final(clusters)@[k]).range == old(
                clusters,
            )@[k].range,
{
    let ghost raw = clusters_view(clusters@);
    let ghost orig = clusters@;
    let mut last_strong = paragraph;
    let mut i: usize = 0;
    while i < clusters.len()
        invariant
            clusters@.len() == orig.len(),
            raw == clusters_view(orig),
            orig == old(clusters)@,
            i <= clusters@.len(),
            last_strong == (if i == 0 {
                paragraph
            } else {
                resolved_direction(raw, paragraph, i - 1)
            }),
            forall|k: int|
                0 <= k < i ==> cluster_view(#[trigger] clusters@[k]) == (ClusterModel {
                    direction: Some(resolved_direction(raw, paragraph, k)),
                    ..raw[k]
                }),
            forall|k: int| i <= k < clusters@.len() ==> #[trigger] clusters@[k] == orig[k],
            forall|k: int| 0 <= k < clusters@.len() ==> (#[trigger] clusters@[k]).range == orig[k].range,
        decreases orig.len() - i,
    {
        let mut c = clusters.remove(i);
        match c.direction {
            Some(d) => {
                last_strong = d;
            },
            None => {
                c.direction = Some(last_strong);
            },
        }
        clusters.insert(i, c);
        i += 1;
    }
    assert(clusters_view(clusters@) =~= Seq::new(
        orig.len(),
        |i: int| ClusterModel { direction: Some(resolved_direction(raw, paragraph, i)), ..raw[i] },
    ));
}


/// One run of clusters sharing font, script, and direction.
#[verifier::ext_equal]
pub struct RunModel {
    pub start: int,
    pub end: int,
    pub chars: Seq<char>,
    pub font: int,
    pub script: Script,
    pub direction: TextDirection,
    pub clusters: Seq<ClusterModel>,
}

/// A logical run as the shaper holds it.
#[derive(Debug)]
pub struct LogicalRun {
    pub range: TextRange,
    pub text: Vec<char>,
    pub font: FontId,
    pub script: Script,
    pub direction: TextDirection,
    pub clusters: Vec<Cluster>,
}

pub open spec fn run_view(r: LogicalRun) -> RunModel {
    RunModel {
        start: r.range.start as int,
        end: r.range.end as int,
        chars: r.text@,
        font: r.font.0 as int,
        script: r.script,
        direction: r.direction,
        clusters: clusters_view(r.clusters@),
    }
}

pub open spec fn runs_view(rs: Seq<LogicalRun>) -> Seq<RunModel> {
    Seq::new(rs.len(), |i: int| run_view(rs[i]))
}

pub open spec fn cluster_direction(c: ClusterModel, paragraph: TextDirection) -> TextDirection {
    match c.direction {
        Some(d) => d,
        None => paragraph,
    }
}

/// Appends a cluster to the runs: it extends the last run when font, script,
/// and direction match and the byte ranges touch, otherwise it starts a run.
pub open spec fn run_step(runs: Seq<RunModel>, c: ClusterModel, paragraph: TextDirection) -> Seq<
    RunModel,
> {
    let direction = cluster_direction(c, paragraph);
    if runs.len() > 0 && runs.last().font == c.font && runs.last().script == c.script
        && runs.last().direction == direction && runs.last().end == c.start {
        let last = runs.last();
        runs.update(
            runs.len() - 1,
            RunModel {
                end: c.end,
                chars: last.chars + c.chars,
                clusters: last.clusters.push(c),
                ..last
            },
        )
    } else {
        runs.push(
            RunModel {
                start: c.start,
                end: c.end,
                chars: c.chars,
                font: c.font,
                script: c.script,
                direction: direction,
                clusters: seq![c],
            },
        )
    }
}

/// The logical runs of a cluster sequence.
pub open spec fn spec_runs(clusters: Seq<ClusterModel>, paragraph: TextDirection) -> Seq<RunModel>
    decreases clusters.len(),
{
    if clusters.len() == 0 {
        Seq::empty()
    } else {
        run_step(spec_runs(clusters.drop_last(), paragraph), clusters.last(), paragraph)
    }
}

pub open spec fn runs_wf(rs: Seq<RunModel>, nfaces: int) -> bool {
    forall|k: int|
        0 <= k < rs.len() ==> 0 <= (#[trigger] rs[k]).font < nfaces && clusters_wf(
            rs[k].clusters,
            nfaces,
        ) && rs[k].clusters.len() > 0 && (forall|j: int|
            0 <= j < rs[k].clusters.len() ==> (#[trigger] rs[k].clusters[j]).font == rs[k].font)
}

fn copy_chars(v: &Vec<char>) -> (r: Vec<char>)
    ensures
        r@ == v@,
{
    let mut out: Vec<char> = Vec::new();
    let mut i: usize = 0;
    while i < v.len()
        invariant
            i <= v.len(),
            out@ == v@.take(i as int),
        decreases v.len() - i,
    {
        out.push(v[i]);
        assert(v@.take(i + 1) =~= v@.take(i as int).push(v@[i as int]));
        i += 1;
    }
    assert(v@.take(v.len() as int) =~= v@);
    out
}

fn copy_cluster(c: &Cluster) -> (r: Cluster)
    ensures
        cluster_view(r) == cluster_view(*c),
        r.range == c.range,
{
    Cluster {
        range: c.range,
        text: copy_chars(&c.text),
        font: c.font,
        script: c.script,
        direction: c.direction,
    }
}

fn extend_run(last: LogicalRun, cluster: Cluster) -> (r: LogicalRun)
    ensures
        run_view(r) == (RunModel {
            end: cluster.range.end as int,
            chars: run_view(last).chars + cluster_view(cluster).chars,
            clusters: run_view(last).clusters.push(cluster_view(cluster)),
            ..run_view(last)
        }),
{
    let ghost orig = run_view(last);
    let mut last = last;
    let ghost text_before = last.text@;
    let ghost range0 = last.range;
    let ghost clusters0 = last.clusters@;
    let mut j: usize = 0;
    while j < cluster.text.len()
        invariant
            j <= cluster.text.len(),
            last.range == range0,
            last.clusters@ == clusters0,
            run_view(last).font == orig.font,
            run_view(last).script == orig.script,
            run_view(last).direction == orig.direction,
            orig.start == range0.start,
            orig.clusters == clusters_view(clusters0),
            orig.chars == text_before,
            last.text@ == text_before + cluster.text@.take(j as int),
        decreases cluster.text.len() - j,
    {
        last.text.push(cluster.text[j]);
        assert(text_before + cluster.text@.take(j + 1) =~= (text_before + cluster.text@.take(
            j as int,
        )).push(cluster.text@[j as int]));
        j += 1;
    }
    assert(cluster.text@.take(cluster.text.len() as int) =~= cluster.text@);
    last.range.end = cluster.range.end;
    let ghost clusters_before = last.clusters@;
    let ghost cm = cluster_view(cluster);
    last.clusters.push(cluster);
    assert(clusters_view(last.clusters@) =~= clusters_view(clusters_before).push(cm));
    assert(run_view(last) =~= (RunModel {
        end: cluster.range.end as int,
        chars: text_before + cm.chars,
        clusters: clusters_view(clusters_before).push(cm),
        ..orig
    }));
    last
}

fn start_run(cluster: Cluster, direction: TextDirection) -> (r: LogicalRun)
    ensures
        run_view(r) == (RunModel {
            start: cluster.range.start as int,
            end: cluster.range.end as int,
            chars: cluster.text@,
            font: cluster.font.0 as int,
            script: cluster.script,
            direction: direction,
            clusters: seq![cluster_view(cluster)],
        }),
{
    let text = copy_chars(&cluster.text);
    let range = cluster.range;
    let font = cluster.font;
    let script = cluster.script;
    let ghost cm = cluster_view(cluster);
    let mut members: Vec<Cluster> = Vec::new();
    members.push(cluster);
    assert(clusters_view(members@) =~= seq![cm]);
    LogicalRun { range, text, font, script, direction, clusters: members }
}

proof fn lemma_run_step_wf(runs: Seq<RunModel>, c: ClusterModel, paragraph: TextDirection, nfaces: int)
    requires
        runs_wf(runs, nfaces),
        0 <= c.font < nfaces,
        c.chars.len() > 0,
    ensures
        runs_wf(run_step(runs, c, paragraph), nfaces),
{
    let out = run_step(runs, c, paragraph);
    assert forall|k: int| 0 <= k < out.len() implies 0 <= (#[trigger] out[k]).font < nfaces
        && clusters_wf(out[k].clusters, nfaces) && out[k].clusters.len() > 0 && (forall|j: int|
        0 <= j < out[k].clusters.len() ==> (#[trigger] out[k].clusters[j]).font == out[k].font) by {
        if k < runs.len() - 1 || out.len() > runs.len() {
            if k == runs.len() {
                assert(out[k].clusters == seq![c]);
            }
        } else {
            assert(out[k].clusters == runs[k].clusters.push(c));
        }
    }
}

fn push_cluster(runs: &mut Vec<LogicalRun>, cluster: Cluster, paragraph: TextDirection)
    ensures
        runs_view(final(runs)@) == run_step(runs_view(old(runs)@), cluster_view(cluster), paragraph),
{
    let ghost before = runs_view(runs@);
    let ghost cm = cluster_view(cluster);
    let direction = match cluster.direction {
        Some(d) => d,
        None => paragraph,
    };
    let n = runs.len();
    if n > 0 && runs[n - 1].font == cluster.font && runs[n - 1].script == cluster.script
        && runs[n - 1].direction == direction && runs[n - 1].range.end == cluster.range.start {
        let last = runs.pop().unwrap();
        assert(run_view(last) == before.last());
        let merged = extend_run(last, cluster);
        runs.push(merged);
        assert(runs_view(runs@) =~= run_step(before, cm, paragraph));
    } else {
        let fresh = start_run(cluster, direction);
        runs.push(fresh);
        assert(runs_view(runs@) =~= run_step(before, cm, paragraph));
    }
}

#[verifier::rlimit(50)]
fn build_runs(clusters: &Vec<Cluster>, paragraph: TextDirection, nfaces: usize) -> (runs: Vec<
    LogicalRun,
>)
    requires
        clusters_wf(clusters_view(clusters@), nfaces as int),
    ensures
        runs_view(runs@) == spec_runs(clusters_view(clusters@), paragraph),
        runs_wf(runs_view(runs@), nfaces as int),
{
    let ghost cv = clusters_view(clusters@);
    let mut runs: Vec<LogicalRun> = Vec::new();
    let mut i: usize = 0;
    assert(cv.take(0) =~= Seq::<ClusterModel>::empty());
    assert(runs_view(runs@) =~= Seq::<RunModel>::empty());
    while i < clusters.len()
        invariant
            cv == clusters_view(clusters@),
            clusters_wf(cv, nfaces as int),
            i <= clusters.len(),
            runs_view(runs@) == spec_runs(cv.take(i as int), paragraph),
            runs_wf(runs_view(runs@), nfaces as int),
        decreases clusters.len() - i,
    {
        let cluster = copy_cluster(&clusters[i]);
        proof {
            assert(cv.take(i + 1).drop_last() =~= cv.take(i as int));
            lemma_run_step_wf(runs_view(runs@), cv[i as int], paragraph, nfaces as int);
        }
        push_cluster(&mut runs, cluster, paragraph);
        i += 1;
    }
    assert(cv.take(clusters.len() as int) =~= cv);
    runs
}


/// The first character of `chars` that is not a combining mark.
pub open spec fn first_base(chars: Seq<char>) -> Option<char>
    decreases chars.len(),
{
    if chars.len() == 0 {
        None
    } else if !spec_is_combining_mark(chars[0]) {
        Some(chars[0])
    } else {
        first_base(chars.drop_first())
    }
}

fn find_base(chars: &Vec<char>) -> (r: Option<char>)
    ensures
        r == first_base(chars@),
{
    let mut i: usize = 0;
    assert(chars@.skip(0) =~= chars@);
    while i < chars.len()
        invariant
            i <= chars.len(),
            first_base(chars@) == first_base(chars@.skip(i as int)),
        decreases chars.len() - i,
    {
        if !is_combining_mark(chars[i]) {
            return Some(chars[i]);
        }
        assert(chars@.skip(i as int).drop_first() =~= chars@.skip(i + 1));
        i += 1;
    }
    None
}

/// Whether a cluster's base character is an Arabic letter that joins.
pub open spec fn spec_cluster_joins_arabic(c: ClusterModel) -> bool {
    match first_base(c.chars) {
        Some(b) => spec_script_for(b) == Script::Arabic && unicode_alphabetic(b),
        None => false,
    }
}

fn cluster_joins_arabic(cluster: &Cluster) -> (r: bool)
    ensures
        r == spec_cluster_joins_arabic(cluster_view(*cluster)),
{
    match find_base(&cluster.text) {
        Some(b) => script_for(b) == Script::Arabic && char_is_alphabetic(b),
        None => false,
    }
}

/// Glyph id of an Arabic letter: its scalar value offset by its joining
/// form (isolated, final, initial, medial), chosen from whether the
/// neighbouring clusters join.
pub open spec fn spec_arabic_glyph_id(c: char, index: int, clusters: Seq<ClusterModel>) -> u32 {
    let joins_previous = index > 0 && spec_cluster_joins_arabic(clusters[index - 1]);
    let joins_next = index + 1 < clusters.len() && spec_cluster_joins_arabic(clusters[index + 1]);
    let form: int = if !joins_previous && !joins_next {
        0
    } else if joins_previous && !joins_next {
        1
    } else if !joins_previous && joins_next {
        2
    } else {
        3
    };
    (0x20_0000 + form * 0x2_0000 + (c as u32)) as u32
}

fn arabic_glyph_id(character: char, index: usize, clusters: &Vec<Cluster>) -> (r: u32)
    requires
        index < clusters@.len(),
    ensures
        r == spec_arabic_glyph_id(character, index as int, clusters_view(clusters@)),
{
    let joins_previous = index > 0 && cluster_joins_arabic(&clusters[index - 1]);
    let joins_next = index < clusters.len() - 1 && cluster_joins_arabic(&clusters[index + 1]);
    let form: u32 = if !joins_previous && !joins_next {
        0
    } else if joins_previous && !joins_next {
        1
    } else if !joins_previous && joins_next {
        2
    } else {
        3
    };
    proof {
        vstd::utf8::char_is_scalar(character);
    }
    0x20_0000 + form * 0x2_0000 + (character as u32)
}

/// The glyph that character `c` of cluster `k` becomes.
pub open spec fn spec_glyph(clusters: Seq<ClusterModel>, script: Script, k: int, c: char) -> ShapedGlyph {
    let combining = spec_is_combining_mark(c);
    let base = match first_base(clusters[k].chars) {
        Some(b) => b,
        None => c,
    };
    ShapedGlyph {
        glyph_id: if spec_script_for(c) == Script::Arabic && !combining {
            spec_arabic_glyph_id(c, k, clusters)
        } else {
            c as u32
        },
        cluster: clusters[k].start as usize,
        character: c,
        advance: if combining {
            0
        } else {
            spec_glyph_advance(base, script)
        },
        x_offset: if combining {
            -3i32
        } else {
            0i32
        },
        y_offset: if combining {
            -4i32
        } else {
            0i32
        },
    }
}

pub open spec fn spec_cluster_glyphs(clusters: Seq<ClusterModel>, script: Script, k: int) -> Seq<
    ShapedGlyph,
> {
    Seq::new(clusters[k].chars.len(), |j: int| spec_glyph(clusters, script, k, clusters[k].chars[j]))
}

/// Glyphs of the first `n` clusters in logical order.
pub open spec fn spec_logical_glyphs(clusters: Seq<ClusterModel>, script: Script, n: int) -> Seq<
    ShapedGlyph,
>
    decreases n,
{
    if n <= 0 {
        Seq::empty()
    } else {
        spec_logical_glyphs(clusters, script, n - 1) + spec_cluster_glyphs(clusters, script, n - 1)
    }
}

/// Glyphs of a run in visual order: reversed for right-to-left runs.
pub open spec fn spec_run_glyphs(run: RunModel) -> Seq<ShapedGlyph> {
    let glyphs = spec_logical_glyphs(run.clusters, run.script, run.clusters.len() as int);
    if run.direction == TextDirection::Rtl {
        glyphs.reverse()
    } else {
        glyphs
    }
}

pub open spec fn total_chars(clusters: Seq<ClusterModel>) -> int
    decreases clusters.len(),
{
    if clusters.len() == 0 {
        0
    } else {
        total_chars(clusters.drop_last()) + clusters.last().chars.len()
    }
}

proof fn lemma_logical_glyphs_len(clusters: Seq<ClusterModel>, script: Script, n: int)
    requires
        0 <= n <= clusters.len(),
    ensures
        spec_logical_glyphs(clusters, script, n).len() == total_chars(clusters.take(n)),
    decreases n,
{
    if n > 0 {
        lemma_logical_glyphs_len(clusters, script, n - 1);
        assert(clusters.take(n).drop_last() =~= clusters.take(n - 1));
    } else {
        assert(clusters.take(0) =~= Seq::<ClusterModel>::empty());
    }
}

proof fn lemma_glyph_advance_bounds(glyphs: Seq<ShapedGlyph>)
    requires
        forall|i: int| 0 <= i < glyphs.len() ==> 0 <= #[trigger] glyphs[i].advance <= 10,
    ensures
        0 <= sum_glyph_advances(glyphs) <= 10 * glyphs.len(),
    decreases glyphs.len(),
{
    if glyphs.len() > 0 {
        lemma_glyph_advance_bounds(glyphs.drop_last());
    }
}

pub proof fn lemma_sum_glyph_advances_reverse(glyphs: Seq<ShapedGlyph>)
    ensures
        sum_glyph_advances(glyphs.reverse()) == sum_glyph_advances(glyphs),
    decreases glyphs.len(),
{
    if glyphs.len() > 0 {
        let rest = glyphs.drop_last();
        lemma_sum_glyph_advances_reverse(rest);
        assert(glyphs.reverse() =~= seq![glyphs.last()] + rest.reverse());
        lemma_sum_glyph_advances_prepend(glyphs.last(), rest.reverse());
    }
}

proof fn lemma_sum_glyph_advances_prepend(g: ShapedGlyph, rest: Seq<ShapedGlyph>)
    ensures
        sum_glyph_advances(seq![g] + rest) == g.advance + sum_glyph_advances(rest),
    decreases rest.len(),
{
    if rest.len() > 0 {
        lemma_sum_glyph_advances_prepend(g, rest.drop_last());
        assert((seq![g] + rest).drop_last() =~= seq![g] + rest.drop_last());
        assert((seq![g] + rest).last() == rest.last());
    } else {
        assert(seq![g] + rest =~= seq![g]);
        assert(seq![g].drop_last() =~= Seq::<ShapedGlyph>::empty());
        assert(seq![g].last() == g);
        assert(sum_glyph_advances(Seq::<ShapedGlyph>::empty()) == 0);
    }
}

/// Advance and offsets of one glyph lie within the ranges that shaping produces.
pub open spec fn glyph_bounded(g: ShapedGlyph) -> bool {
    &&& 0 <= g.advance <= 10
    &&& -3 <= g.x_offset <= 0
    &&& -4 <= g.y_offset <= 0
}

pub open spec fn all_glyph_advances_bounded(glyphs: Seq<ShapedGlyph>) -> bool {
    forall|i: int| 0 <= i < glyphs.len() ==> glyph_bounded(#[trigger] glyphs[i])
}

pub proof fn lemma_logical_glyphs_bounded(clusters: Seq<ClusterModel>, script: Script, n: int)
    requires
        0 <= n <= clusters.len(),
    ensures
        all_glyph_advances_bounded(spec_logical_glyphs(clusters, script, n)),
    decreases n,
{
    if n > 0 {
        lemma_logical_glyphs_bounded(clusters, script, n - 1);
        let a = spec_logical_glyphs(clusters, script, n - 1);
        let b = spec_cluster_glyphs(clusters, script, n - 1);
        assert forall|i: int| 0 <= i < (a + b).len() implies glyph_bounded(#[trigger] (a + b)[i]) by {
            if i >= a.len() {
                assert((a + b)[i] == b[i - a.len()]);
            }
        }
    }
}

/// How a shaped run relates to its logical run.
pub open spec fn shaped_run_matches(sr: ShapedRun, run: RunModel, faces: Seq<FontFace>) -> bool {
    &&& sr.logical_range.start == run.start
    &&& sr.logical_range.end == run.end
    &&& sr.font.0 == run.font
    &&& sr.family@ == faces[run.font].family@
    &&& sr.script == run.script
    &&& sr.direction == run.direction
    &&& sr.text@ == run.chars
    &&& sr.glyphs@ == spec_run_glyphs(run)
    &&& sr.advance == sum_glyph_advances(sr.glyphs@)
    &&& sr.ascent == 12
    &&& sr.descent == 4
    &&& sr.line_gap == 0
}

fn shape_run(database: &FontDatabase, run: LogicalRun) -> (r: ShapedRun)
    requires
        0 <= run_view(run).font < database.spec_faces().len(),
        total_chars(run_view(run).clusters) <= 200_000_000,
    ensures
        shaped_run_matches(r, run_view(run), database.spec_faces()),
        r.visual_index == 0,
        0 <= r.advance <= 10 * r.glyphs@.len(),
        r.glyphs@.len() == total_chars(run_view(run).clusters),
{
    let ghost rv = run_view(run);
    let family = match database.face(run.font) {
        Some(face) => face.family.clone(),
        None => String::new(),
    };
    let mut glyphs: Vec<ShapedGlyph> = Vec::new();
    let mut k: usize = 0;
    proof {
        lemma_logical_glyphs_len(rv.clusters, rv.script, rv.clusters.len() as int);
        assert(rv.clusters.take(rv.clusters.len() as int) =~= rv.clusters);
    }
    while k < run.clusters.len()
        invariant
            rv == run_view(run),
            k <= run.clusters.len(),
            glyphs@ == spec_logical_glyphs(rv.clusters, rv.script, k as int),
        decreases run.clusters.len() - k,
    {
        let base = find_base(&run.clusters[k].text);
        let ghost prefix = glyphs@;
        let mut j: usize = 0;
        while j < run.clusters[k].text.len()
            invariant
                rv == run_view(run),
                k < run.clusters.len(),
                j <= run.clusters@[k as int].text@.len(),
                base == first_base(rv.clusters[k as int].chars),
                glyphs@ == prefix + spec_cluster_glyphs(rv.clusters, rv.script, k as int).take(
                    j as int,
                ),
            decreases run.clusters@[k as int].text@.len() - j,
        {
            let character = run.clusters[k].text[j];
            let combining = is_combining_mark(character);
            let glyph_id = if script_for(character) == Script::Arabic && !combining {
                arabic_glyph_id(character, k, &run.clusters)
            } else {
                character as u32
            };
            let base_char = match base {
                Some(b) => b,
                None => character,
            };
            let glyph = ShapedGlyph {
                glyph_id,
                cluster: run.clusters[k].range.start,
                character,
                advance: if combining {
                    0
                } else {
                    glyph_advance(base_char, run.script)
                },
                x_offset: if combining {
                    -3
                } else {
                    0
                },
                y_offset: if combining {
                    -4
                } else {
                    0
                },
            };
            assert(glyph == spec_glyph(rv.clusters, rv.script, k as int, character));
            glyphs.push(glyph);
            assert(spec_cluster_glyphs(rv.clusters, rv.script, k as int).take(j + 1)
                =~= spec_cluster_glyphs(rv.clusters, rv.script, k as int).take(j as int).push(
                glyph,
            ));
            assert(glyphs@ =~= prefix + spec_cluster_glyphs(rv.clusters, rv.script, k as int).take(
                j + 1,
            ));
            j += 1;
        }
        assert(spec_cluster_glyphs(rv.clusters, rv.script, k as int).take(
            run.clusters[k as int].text.len() as int,
        ) =~= spec_cluster_glyphs(rv.clusters, rv.script, k as int));
        k += 1;
    }
    let ghost logical = glyphs@;
    if run.direction == TextDirection::Rtl {
        glyphs = crate::text_util::reversed_copy(&glyphs);
    }
    assert(glyphs@ == spec_run_glyphs(rv));
    proof {
        lemma_logical_glyphs_bounded(rv.clusters, rv.script, rv.clusters.len() as int);
        lemma_glyph_advance_bounds(logical);
        lemma_sum_glyph_advances_reverse(logical);
        assert(all_glyph_advances_bounded(glyphs@));
    }
    let mut advance: i32 = 0;
    let mut g: usize = 0;
    while g < glyphs.len()
        invariant
            g <= glyphs.len(),
            glyphs@.len() <= 200_000_000,
            all_glyph_advances_bounded(glyphs@),
            advance == sum_glyph_advances(glyphs@.take(g as int)),
            0 <= advance <= 10 * g,
        decreases glyphs.len() - g,
    {
        assert(glyphs@.take(g + 1).drop_last() =~= glyphs@.take(g as int));
        assert(0 <= glyphs@[g as int].advance <= 10);
        advance = advance + glyphs[g].advance;
        g += 1;
    }
    assert(glyphs@.take(glyphs.len() as int) =~= glyphs@);
    let text = crate::text_util::chars_to_string(run.text.as_slice());
    ShapedRun {
        logical_range: run.range,
        visual_index: 0,
        font: run.font,
        family,
        script: run.script,
        direction: run.direction,
        text,
        glyphs,
        advance,
        ascent: 12,
        descent: 4,
        line_gap: 0,
    }
}


pub open spec fn runs_total_chars(runs: Seq<RunModel>) -> int
    decreases runs.len(),
{
    if runs.len() == 0 {
        0
    } else {
        runs_total_chars(runs.drop_last()) + total_chars(runs.last().clusters)
    }
}

proof fn lemma_raw_clusters_total(faces: Seq<FontFace>, request: FontRequest, text: Seq<char>)
    ensures
        total_chars(spec_raw_clusters(faces, request, text)) == text.len(),
        text.len() > 0 ==> spec_raw_clusters(faces, request, text).len() > 0,
    decreases text.len(),
{
    if text.len() > 0 {
        let prev = spec_raw_clusters(faces, request, text.drop_last());
        lemma_raw_clusters_total(faces, request, text.drop_last());
        let c = text.last();
        let next = spec_raw_clusters(faces, request, text);
        if spec_is_combining_mark(c) && prev.len() > 0 {
            assert(next.drop_last() =~= prev.drop_last());
            assert(next.last().chars.len() == prev.last().chars.len() + 1);
        } else {
            assert(next.drop_last() =~= prev);
        }
    }
}

proof fn lemma_total_chars_same_chars(a: Seq<ClusterModel>, b: Seq<ClusterModel>)
    requires
        a.len() == b.len(),
        forall|i: int| 0 <= i < a.len() ==> (#[trigger] a[i]).chars.len() == b[i].chars.len(),
    ensures
        total_chars(a) == total_chars(b),
    decreases a.len(),
{
    if a.len() > 0 {
        lemma_total_chars_same_chars(a.drop_last(), b.drop_last());
    }
}

proof fn lemma_runs_total(clusters: Seq<ClusterModel>, paragraph: TextDirection)
    ensures
        runs_total_chars(spec_runs(clusters, paragraph)) == total_chars(clusters),
        forall|k: int|
            0 <= k < spec_runs(clusters, paragraph).len() ==> total_chars(
                (#[trigger] spec_runs(clusters, paragraph)[k]).clusters,
            ) <= total_chars(clusters),
    decreases clusters.len(),
{
    if clusters.len() > 0 {
        let prev = spec_runs(clusters.drop_last(), paragraph);
        lemma_runs_total(clusters.drop_last(), paragraph);
        let c = clusters.last();
        let next = spec_runs(clusters, paragraph);
        assert(next == run_step(prev, c, paragraph));
        if next.len() == prev.len() {
            let n = prev.len();
            assert(next.drop_last() =~= prev.drop_last());
            assert(next.last().clusters == prev.last().clusters.push(c));
            assert(next.last().clusters.push(c).drop_last() =~= next.last().clusters);
            assert(prev.last().clusters.push(c).drop_last() =~= prev.last().clusters);
            assert(total_chars(next.last().clusters) == total_chars(prev.last().clusters)
                + c.chars.len());
            assert forall|k: int| 0 <= k < next.len() implies total_chars(
                (#[trigger] next[k]).clusters,
            ) <= total_chars(clusters) by {
                if k < n - 1 {
                    assert(next[k] == prev[k]);
                }
            }
        } else {
            assert(next.drop_last() =~= prev);
            assert(next.last().clusters == seq![c]);
            assert(seq![c].drop_last() =~= Seq::<ClusterModel>::empty());
            assert(seq![c].last() == c);
            assert(total_chars(Seq::<ClusterModel>::empty()) == 0);
            assert(total_chars(seq![c]) == c.chars.len());
            lemma_total_chars_nonneg(clusters.drop_last());
            assert(total_chars(clusters) == total_chars(clusters.drop_last()) + c.chars.len());
            assert forall|k: int| 0 <= k < next.len() implies total_chars(
                (#[trigger] next[k]).clusters,
            ) <= total_chars(clusters) by {
                if k < prev.len() {
                    assert(next[k] == prev[k]);
                }
            }
        }
    }
}

/// Logical runs of `text` in visual order: reversed for a right-to-left paragraph.
pub open spec fn spec_visual_runs(faces: Seq<FontFace>, request: FontRequest, text: Seq<char>) -> Seq<
    RunModel,
> {
    let p = spec_paragraph_direction(text);
    let runs = spec_runs(spec_clusters(faces, request, text), p);
    if p == TextDirection::Rtl {
        runs.reverse()
    } else {
        runs
    }
}

pub open spec fn sum_run_glyph_counts(runs: Seq<ShapedRun>) -> int
    decreases runs.len(),
{
    if runs.len() == 0 {
        0
    } else {
        sum_run_glyph_counts(runs.drop_last()) + runs.last().glyphs@.len()
    }
}

/// Shapes text into deterministic visual-order glyph runs.
pub fn shape_text(database: &mut FontDatabase, request: &FontRequest, text: &str) -> (r: ShapedText)
    requires
        old(database).wf(),
        shapeable(old(database).spec_faces(), text@),
        utf8_byte_len(text@) <= usize::MAX,
        text@.len() <= 200_000_000,
    ensures
        final(database).wf(),
        final(database).spec_faces() == old(database).spec_faces(),
        r.paragraph_direction == spec_paragraph_direction(text@),
        r.runs@.len() == spec_visual_runs(old(database).spec_faces(), *request, text@).len(),
        forall|i: int|
            0 <= i < r.runs@.len() ==> shaped_run_matches(
                #[trigger] r.runs@[i],
                spec_visual_runs(old(database).spec_faces(), *request, text@)[i],
                old(database).spec_faces(),
            ) && r.runs@[i].visual_index == i,
        sum_run_glyph_counts(r.runs@) == text@.len(),
        0 <= sum_run_advances(r.runs@) <= 10 * text@.len(),
        forall|k: int|
            0 <= k <= r.runs@.len() ==> 0 <= #[trigger] sum_run_advances(r.runs@.take(k)) <= 10
                * text@.len(),
{
    let chars = str_to_chars(text);
    let ghost faces = database.spec_faces();
    let paragraph = paragraph_direction(chars.as_slice());
    let mut clusters = build_clusters(database, request, chars.as_slice());
    let ghost raw = clusters_view(clusters@);
    proof {
        lemma_raw_clusters_total(faces, *request, text@);
    }
    resolve_directions(&mut clusters, paragraph);
    let ghost resolved = clusters_view(clusters@);
    assert(resolved =~= spec_clusters(faces, *request, text@));
    proof {
        lemma_total_chars_same_chars(raw, resolved);
        assert(clusters_wf(resolved, faces.len() as int)) by {
            assert forall|k: int| 0 <= k < resolved.len() implies 0 <= (#[trigger] resolved[k]).font
                < faces.len() && resolved[k].chars.len() > 0 by {
                assert(resolved[k].font == raw[k].font);
            }
        }
    }
    let runs = build_runs(&clusters, paragraph, database.faces().len());
    let ghost rv = runs_view(runs@);
    proof {
        lemma_runs_total(resolved, paragraph);
    }
    let ghost visual = spec_visual_runs(faces, *request, text@);
    let mut pending = runs;
    let mut shaped: Vec<ShapedRun> = Vec::new();
    // shaped holds the runs taken so far from the back of `pending`
    while pending.len() > 0
        invariant
            database.wf(),
            database.spec_faces() == faces,
            runs_wf(rv, faces.len() as int),
            runs_view(pending@) == rv.take(pending@.len() as int),
            pending@.len() <= rv.len(),
            shaped@.len() == rv.len() - pending@.len(),
            forall|k: int| 0 <= k < rv.len() ==> total_chars((#[trigger] rv[k]).clusters) <= text@.len(),
            text@.len() <= 200_000_000,
            forall|i: int|
                0 <= i < shaped@.len() ==> shaped_run_matches(
                    #[trigger] shaped@[i],
                    rv[rv.len() - 1 - i],
                    faces,
                ) && shaped@[i].visual_index == 0 && shaped@[i].glyphs@.len() == total_chars(
                    rv[rv.len() - 1 - i].clusters,
                ) && 0 <= shaped@[i].advance <= 10 * shaped@[i].glyphs@.len(),
        decreases pending@.len(),
    {
        let run = pending.pop().unwrap();
        let ghost idx = pending@.len() as int;
        assert(rv.take(idx + 1)[idx] == rv[idx]);
        assert(run_view(run) == rv[idx]);
        assert(runs_view(pending@) =~= rv.take(idx));
        let one = shape_run(database, run);
        shaped.push(one);
    }
    let ghost reversed_model = rv.reverse();
    let mut ordered: Vec<ShapedRun> = Vec::new();
    if paragraph == TextDirection::Rtl {
        ordered = shaped;
    } else {
        while shaped.len() > 0
            invariant
                ordered@.len() + shaped@.len() == rv.len(),
                forall|i: int|
                    0 <= i < shaped@.len() ==> shaped_run_matches(
                        #[trigger] shaped@[i],
                        rv[rv.len() - 1 - i],
                        faces,
                    ) && shaped@[i].visual_index == 0 && shaped@[i].glyphs@.len() == total_chars(
                        rv[rv.len() - 1 - i].clusters,
                    ) && 0 <= shaped@[i].advance <= 10 * shaped@[i].glyphs@.len(),
                forall|i: int|
                    0 <= i < ordered@.len() ==> shaped_run_matches(
                        #[trigger] ordered@[i],
                        rv[i],
                        faces,
                    ) && ordered@[i].visual_index == 0 && ordered@[i].glyphs@.len() == total_chars(
                        rv[i].clusters,
                    ) && 0 <= ordered@[i].advance <= 10 * ordered@[i].glyphs@.len(),
            decreases shaped@.len(),
        {
            let one = shaped.pop().unwrap();
            ordered.push(one);
        }
    }
    assert(visual =~= (if paragraph == TextDirection::Rtl { rv.reverse() } else { rv }));
    let mut runs_out: Vec<ShapedRun> = Vec::new();
    let mut i: usize = 0;
    let ghost ord = ordered@;
    let count = ordered.len();
    assert(ord.len() == count);
    let ghost mut glyph_total: int = 0;
    while ordered.len() > 0
        invariant
            i + ordered@.len() == ord.len(),
            ord.len() <= usize::MAX,
            ord.len() == visual.len(),
            ordered@ == ord.skip(i as int),
            runs_out@.len() == i,
            forall|k: int|
                0 <= k < ord.len() ==> shaped_run_matches(#[trigger] ord[k], visual[k], faces)
                    && ord[k].glyphs@.len() == total_chars(visual[k].clusters) && 0
                    <= ord[k].advance <= 10 * ord[k].glyphs@.len(),
            forall|k: int|
                0 <= k < i ==> (#[trigger] runs_out@[k]).visual_index == k
                    && shaped_run_matches(runs_out@[k], visual[k], faces) && runs_out@[k].glyphs
                    == ord[k].glyphs && runs_out@[k].advance == ord[k].advance,
        decreases ordered@.len(),
    {
        let mut one = ordered.remove(0);
        assert(ord.skip(i as int)[0] == ord[i as int]);
        assert(ordered@ =~= ord.skip(i + 1));
        one.visual_index = i;
        runs_out.push(one);
        i += 1;
    }
    proof {
        lemma_shaped_totals(runs_out@, visual, resolved, paragraph, text@.len() as int);
    }
    ShapedText { paragraph_direction: paragraph, runs: runs_out }
}


proof fn lemma_runs_total_prepend(r: RunModel, rs: Seq<RunModel>)
    ensures
        runs_total_chars(seq![r] + rs) == total_chars(r.clusters) + runs_total_chars(rs),
    decreases rs.len(),
{
    if rs.len() > 0 {
        lemma_runs_total_prepend(r, rs.drop_last());
        assert((seq![r] + rs).drop_last() =~= seq![r] + rs.drop_last());
        assert((seq![r] + rs).last() == rs.last());
        assert(runs_total_chars(seq![r] + rs) == runs_total_chars(seq![r] + rs.drop_last())
            + total_chars(rs.last().clusters));
        assert(runs_total_chars(rs) == runs_total_chars(rs.drop_last()) + total_chars(
            rs.last().clusters,
        ));
    } else {
        assert(seq![r] + rs =~= seq![r]);
        assert(seq![r].drop_last() =~= Seq::<RunModel>::empty());
        assert(seq![r].last() == r);
        assert(runs_total_chars(Seq::<RunModel>::empty()) == 0);
        assert(runs_total_chars(seq![r]) == runs_total_chars(seq![r].drop_last()) + total_chars(
            r.clusters,
        ));
    }
}

proof fn lemma_runs_total_reverse(rs: Seq<RunModel>)
    ensures
        runs_total_chars(rs.reverse()) == runs_total_chars(rs),
    decreases rs.len(),
{
    if rs.len() > 0 {
        lemma_runs_total_reverse(rs.drop_last());
        assert(rs.reverse() =~= seq![rs.last()] + rs.drop_last().reverse());
        lemma_runs_total_prepend(rs.last(), rs.drop_last().reverse());
    }
}

proof fn lemma_counts_match(out: Seq<ShapedRun>, visual: Seq<RunModel>, k: int)
    requires
        out.len() == visual.len(),
        0 <= k <= out.len(),
        forall|i: int|
            0 <= i < out.len() ==> (#[trigger] out[i]).glyphs@.len() == total_chars(
                visual[i].clusters,
            ),
    ensures
        sum_run_glyph_counts(out.take(k)) == runs_total_chars(visual.take(k)),
    decreases k,
{
    if k > 0 {
        lemma_counts_match(out, visual, k - 1);
        assert(out.take(k).drop_last() =~= out.take(k - 1));
        assert(visual.take(k).drop_last() =~= visual.take(k - 1));
    } else {
        assert(out.take(0) =~= Seq::<ShapedRun>::empty());
        assert(visual.take(0) =~= Seq::<RunModel>::empty());
    }
}

proof fn lemma_counts_prefix(out: Seq<ShapedRun>, k: int)
    requires
        0 <= k <= out.len(),
    ensures
        sum_run_glyph_counts(out.take(k)) <= sum_run_glyph_counts(out),
    decreases out.len() - k,
{
    if k < out.len() {
        lemma_counts_prefix(out, k + 1);
        assert(out.take(k + 1).drop_last() =~= out.take(k));
    } else {
        assert(out.take(k) =~= out);
    }
}

proof fn lemma_advance_prefix(out: Seq<ShapedRun>, k: int)
    requires
        0 <= k <= out.len(),
        forall|i: int|
            0 <= i < out.len() ==> 0 <= (#[trigger] out[i]).advance <= 10 * out[i].glyphs@.len(),
    ensures
        0 <= sum_run_advances(out.take(k)) <= 10 * sum_run_glyph_counts(out.take(k)),
        sum_run_glyph_counts(out.take(k)) <= sum_run_glyph_counts(out),
{
    let t = out.take(k);
    assert forall|i: int| 0 <= i < t.len() implies 0 <= (#[trigger] t[i]).advance <= 10
        * t[i].glyphs@.len() by {
        assert(t[i] == out[i]);
    }
    lemma_advance_total(t);
    lemma_counts_prefix(out, k);
}

proof fn lemma_total_chars_nonneg(cs: Seq<ClusterModel>)
    ensures
        total_chars(cs) >= 0,
    decreases cs.len(),
{
    if cs.len() > 0 {
        lemma_total_chars_nonneg(cs.drop_last());
    }
}

proof fn lemma_advance_total(out: Seq<ShapedRun>)
    requires
        forall|i: int|
            0 <= i < out.len() ==> 0 <= (#[trigger] out[i]).advance <= 10 * out[i].glyphs@.len(),
    ensures
        0 <= sum_run_advances(out) <= 10 * sum_run_glyph_counts(out),
    decreases out.len(),
{
    if out.len() > 0 {
        lemma_advance_total(out.drop_last());
    }
}

proof fn lemma_shaped_totals(
    out: Seq<ShapedRun>,
    visual: Seq<RunModel>,
    clusters: Seq<ClusterModel>,
    paragraph: TextDirection,
    n: int,
)
    requires
        out.len() == visual.len(),
        visual == (if paragraph == TextDirection::Rtl {
            spec_runs(clusters, paragraph).reverse()
        } else {
            spec_runs(clusters, paragraph)
        }),
        runs_total_chars(spec_runs(clusters, paragraph)) == total_chars(clusters),
        total_chars(clusters) == n,
        forall|i: int|
            0 <= i < out.len() ==> (#[trigger] out[i]).glyphs@.len() == total_chars(
                visual[i].clusters,
            ) && 0 <= out[i].advance <= 10 * out[i].glyphs@.len(),
    ensures
        sum_run_glyph_counts(out) == n,
        0 <= sum_run_advances(out) <= 10 * n,
        forall|k: int|
            0 <= k <= out.len() ==> 0 <= #[trigger] sum_run_advances(out.take(k)) <= 10 * n,
{
    lemma_counts_match(out, visual, out.len() as int);
    assert(out.take(out.len() as int) =~= out);
    assert(visual.take(visual.len() as int) =~= visual);
    lemma_runs_total_reverse(spec_runs(clusters, paragraph));
    lemma_advance_total(out);
    assert forall|k: int| 0 <= k <= out.len() implies 0 <= #[trigger] sum_run_advances(out.take(k))
        <= 10 * n by {
        lemma_advance_prefix(out, k);
    }
}


pub open spec fn sum_visual_advances(runs: Seq<RunModel>) -> int
    decreases runs.len(),
{
    if runs.len() == 0 {
        0
    } else {
        sum_visual_advances(runs.drop_last()) + sum_glyph_advances(spec_run_glyphs(runs.last()))
    }
}

/// Total advance of `text` after shaping.
pub open spec fn spec_text_advance(faces: Seq<FontFace>, request: FontRequest, text: Seq<char>) -> int {
    sum_visual_advances(spec_visual_runs(faces, request, text))
}

pub proof fn lemma_run_advances_match(out: Seq<ShapedRun>, visual: Seq<RunModel>, faces: Seq<FontFace>)
    requires
        out.len() == visual.len(),
        forall|i: int|
            0 <= i < out.len() ==> shaped_run_matches(#[trigger] out[i], visual[i], faces),
    ensures
        sum_run_advances(out) == sum_visual_advances(visual),
    decreases out.len(),
{
    if out.len() > 0 {
        lemma_run_advances_match(out.drop_last(), visual.drop_last(), faces);
        assert(shaped_run_matches(out[out.len() - 1], visual[visual.len() - 1], faces));
    }
}

/// Every character of `text` has a covering face.
pub open spec fn chars_covered(faces: Seq<FontFace>, text: Seq<char>) -> bool {
    forall|i: int| 0 <= i < text.len() ==> some_face_covers(faces, #[trigger] text[i])
}

/// Text whose characters all have a covering face can be shaped.
pub proof fn lemma_covered_shapeable(faces: Seq<FontFace>, text: Seq<char>)
    requires
        chars_covered(faces, text),
    ensures
        shapeable(faces, text),
{
}

pub proof fn lemma_utf8_len_bound(s: Seq<char>)
    ensures
        utf8_byte_len(s) <= 4 * s.len(),
    decreases s.len(),
{
    if s.len() > 0 {
        lemma_utf8_len_bound(s.drop_last());
    }
}

/// The shaped advance of `text`.
pub fn measure(database: &mut FontDatabase, request: &FontRequest, text: &[char]) -> (r: i32)
    requires
        old(database).wf(),
        shapeable(old(database).spec_faces(), text@),
        text@.len() <= 200_000_000,
    ensures
        final(database).wf(),
        final(database).spec_faces() == old(database).spec_faces(),
        r == spec_text_advance(old(database).spec_faces(), *request, text@),
        0 <= r <= 10 * text@.len(),
{
    let s = crate::text_util::chars_to_string(text);
    proof {
        lemma_utf8_len_bound(text@);
    }
    let shaped = shape_text(database, request, s.as_str());
    proof {
        lemma_run_advances_match(
            shaped.runs@,
            spec_visual_runs(old(database).spec_faces(), *request, text@),
            old(database).spec_faces(),
        );
    }
    shaped.advance()
}

} // verus!

use crate::text_util::{char_debug, decimal, int_decimal, str_debug};

verus! {

/// `Debug` name of a direction.
pub open spec fn direction_name(d: TextDirection) -> Seq<char> {
    match d {
        TextDirection::Ltr => "Ltr"@,
        TextDirection::Rtl => "Rtl"@,
    }
}

/// `Debug` name of a direction.
pub fn direction_debug(d: TextDirection) -> (r: String)
    ensures
        r@ == direction_name(d),
{
    match d {
        TextDirection::Ltr => String::from_str("Ltr"),
        TextDirection::Rtl => String::from_str("Rtl"),
    }
}

/// One glyph line of a shaped-text dump.
pub open spec fn glyph_line(g: ShapedGlyph) -> Seq<char> {
    "  glyph id="@ + decimal(g.glyph_id as nat) + " cluster="@ + decimal(g.cluster as nat)
        + " char="@ + char_debug(g.character) + " advance="@ + int_decimal(g.advance as int)
        + " offset=("@ + int_decimal(g.x_offset as int) + ", "@ + int_decimal(g.y_offset as int)
        + ")\n"@
}

/// The header line of one run in a shaped-text dump.
pub open spec fn run_line(r: ShapedRun) -> Seq<char> {
    "run visual="@ + decimal(r.visual_index as nat) + " logical="@ + decimal(
        r.logical_range.start as nat,
    ) + ".."@ + decimal(r.logical_range.end as nat) + " font="@ + decimal(r.font.0 as nat)
        + " family="@ + str_debug(r.family@) + " script="@ + crate::fonts::script_name(r.script)
        + " direction="@ + direction_name(r.direction) + " text="@ + str_debug(r.text@)
        + " advance="@ + int_decimal(r.advance as int) + " metrics=("@ + int_decimal(
        r.ascent as int,
    ) + ","@ + int_decimal(r.descent as int) + ","@ + int_decimal(r.line_gap as int) + ")\n"@
}

/// The glyph lines of the first `n` glyphs.
pub open spec fn glyph_lines(gs: Seq<ShapedGlyph>, n: int) -> Seq<char>
    decreases n,
{
    if n <= 0 {
        Seq::empty()
    } else {
        glyph_lines(gs, n - 1) + glyph_line(gs[n - 1])
    }
}

/// A run's header line followed by its glyph lines.
pub open spec fn run_block(r: ShapedRun) -> Seq<char> {
    run_line(r) + glyph_lines(r.glyphs@, r.glyphs@.len() as int)
}

/// The blocks of the first `n` runs.
pub open spec fn run_blocks(rs: Seq<ShapedRun>, n: int) -> Seq<char>
    decreases n,
{
    if n <= 0 {
        Seq::empty()
    } else {
        run_blocks(rs, n - 1) + run_block(rs[n - 1])
    }
}

/// The complete shaped-text dump.
pub open spec fn shaped_dump(t: ShapedText) -> Seq<char> {
    "#shaped-text direction="@ + direction_name(t.paragraph_direction) + " advance="@
        + crate::text_util::int_decimal(sum_run_advances(t.runs@)) + "\n"@ + run_blocks(
        t.runs@,
        t.runs@.len() as int,
    )
}

fn push_i32(out: &mut String, v: i32)
    ensures
        final(out)@ == old(out)@ + crate::text_util::int_decimal(v as int),
{
    let d = crate::text_util::i64_to_decimal(v as i64);
    crate::text_util::push_str(out, d.as_str());
}

fn push_unsigned(out: &mut String, v: u64)
    ensures
        final(out)@ == old(out)@ + crate::text_util::decimal(v as nat),
{
    let d = crate::text_util::u64_to_decimal(v);
    crate::text_util::push_str(out, d.as_str());
}

fn glyph_line_string(g: &ShapedGlyph) -> (r: String)
    ensures
        r@ == glyph_line(*g),
{
    let mut out = String::from_str("  glyph id=");
    push_unsigned(&mut out, g.glyph_id as u64);
    crate::text_util::push_str(&mut out, " cluster=");
    push_unsigned(&mut out, g.cluster as u64);
    crate::text_util::push_str(&mut out, " char=");
    let c = crate::text_util::debug_char(g.character);
    crate::text_util::push_str(&mut out, c.as_str());
    crate::text_util::push_str(&mut out, " advance=");
    push_i32(&mut out, g.advance);
    crate::text_util::push_str(&mut out, " offset=(");
    push_i32(&mut out, g.x_offset);
    crate::text_util::push_str(&mut out, ", ");
    push_i32(&mut out, g.y_offset);
    crate::text_util::push_str(&mut out, ")\n");
    out
}

fn run_line_string(r: &ShapedRun) -> (s: String)
    ensures
        s@ == run_line(*r),
{
    let mut out = String::from_str("run visual=");
    push_unsigned(&mut out, r.visual_index as u64);
    crate::text_util::push_str(&mut out, " logical=");
    push_unsigned(&mut out, r.logical_range.start as u64);
    crate::text_util::push_str(&mut out, "..");
    push_unsigned(&mut out, r.logical_range.end as u64);
    crate::text_util::push_str(&mut out, " font=");
    push_unsigned(&mut out, r.font.0 as u64);
    crate::text_util::push_str(&mut out, " family=");
    let fam = crate::text_util::debug_quoted(r.family.as_str());
    crate::text_util::push_str(&mut out, fam.as_str());
    crate::text_util::push_str(&mut out, " script=");
    let sc = crate::fonts::script_debug(r.script);
    crate::text_util::push_str(&mut out, sc.as_str());
    crate::text_util::push_str(&mut out, " direction=");
    let dir = direction_debug(r.direction);
    crate::text_util::push_str(&mut out, dir.as_str());
    crate::text_util::push_str(&mut out, " text=");
    let txt = crate::text_util::debug_quoted(r.text.as_str());
    crate::text_util::push_str(&mut out, txt.as_str());
    crate::text_util::push_str(&mut out, " advance=");
    push_i32(&mut out, r.advance);
    crate::text_util::push_str(&mut out, " metrics=(");
    push_i32(&mut out, r.ascent);
    crate::text_util::push_str(&mut out, ",");
    push_i32(&mut out, r.descent);
    crate::text_util::push_str(&mut out, ",");
    push_i32(&mut out, r.line_gap);
    crate::text_util::push_str(&mut out, ")\n");
    out
}

fn run_block_string(r: &ShapedRun) -> (s: String)
    ensures
        s@ == run_block(*r),
{
    let mut out = run_line_string(r);
    let mut i: usize = 0;
    while i < r.glyphs.len()
        invariant
            i <= r.glyphs@.len(),
            out@ == run_line(*r) + glyph_lines(r.glyphs@, i as int),
        decreases r.glyphs@.len() - i,
    {
        let line = glyph_line_string(&r.glyphs[i]);
        crate::text_util::push_str(&mut out, line.as_str());
        i += 1;
    }
    out
}

impl ShapedText {
    /// A stable text listing of the shaped runs and glyphs.
    pub fn dump(&self) -> (r: String)
        requires
            i32::MIN <= sum_run_advances(self.runs@) <= i32::MAX,
            forall|k: int|
                0 <= k <= self.runs@.len() ==> i32::MIN <= #[trigger] sum_run_advances(
                    self.runs@.take(k),
                ) <= i32::MAX,
        ensures
            r@ == shaped_dump(*self),
    {
        let mut out = String::from_str("#shaped-text direction=");
        let dir = direction_debug(self.paragraph_direction);
        crate::text_util::push_str(&mut out, dir.as_str());
        crate::text_util::push_str(&mut out, " advance=");
        let total = self.advance();
        push_i32(&mut out, total);
        crate::text_util::push_str(&mut out, "\n");
        let ghost head = out@;
        let mut i: usize = 0;
        while i < self.runs.len()
            invariant
                i <= self.runs@.len(),
                out@ == head + run_blocks(self.runs@, i as int),
            decreases self.runs@.len() - i,
        {
            let block = run_block_string(&self.runs[i]);
            crate::text_util::push_str(&mut out, block.as_str());
            i += 1;
        }
        out
    }
}

} // verus!
