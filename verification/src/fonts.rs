//! Deterministic font registry with scored fallback selection and a
//! selection cache keyed by normalized request fields.
use vstd::prelude::*;
use skrifa::MetadataProvider;
use crate::text_util::{
    char_utf8_len, lemma_utf8_byte_len_push, utf8_byte_len, utf8_len, ascii_lower_seq, chars_equal, chars_to_ascii_lowercase, str_to_chars, trim_chars, trim_class,
    TrimClass,
};

verus! {

/// Stable identity within one font database.
#[derive(Clone, Copy, Debug, PartialEq, Eq, Structural, PartialOrd, Ord, Hash)]
pub struct FontId(pub u32);

/// Font posture used for deterministic matching.
#[derive(Clone, Copy, Debug, PartialEq, Eq, Structural, PartialOrd, Ord, Hash)]
pub enum FontSlant {
    Normal,
    Italic,
}

impl Default for FontSlant {
    fn default() -> (r: FontSlant)
        ensures
            r == FontSlant::Normal,
    {
        FontSlant::Normal
    }
}

/// Broad Unicode script categories used by fallback and shaping.
#[derive(Clone, Copy, Debug, PartialEq, Eq, Structural, PartialOrd, Ord, Hash)]
pub enum Script {
    Common,
    Latin,
    Arabic,
    Other,
}

/// Origin of one registered font face.
#[derive(Clone, Debug, PartialEq, Eq)]
pub enum FontSource {
    Synthetic(String),
    Memory { digest: u64 },
    SystemPath(String),
}

/// One inclusive range of Unicode scalar values.
#[derive(Clone, Copy, Debug, PartialEq, Eq, Structural)]
pub struct CodepointRange {
    pub start: u32,
    pub end: u32,
}

impl CodepointRange {
    pub fn new(start: u32, end: u32) -> (r: CodepointRange)
        ensures
            r.start == start,
            r.end == end,
    {
        CodepointRange { start, end }
    }
}

/// Inclusive Unicode scalar coverage ranges, kept sorted by start.
#[derive(Clone, Debug, Default, PartialEq, Eq)]
pub struct FontCoverage {
    ranges: Vec<CodepointRange>,
}

pub open spec fn range_contains(r: CodepointRange, v: u32) -> bool {
    r.start <= v <= r.end
}

pub open spec fn starts_sorted(s: Seq<CodepointRange>) -> bool {
    forall|i: int, j: int| 0 <= i < j < s.len() ==> s[i].start <= s[j].start
}

impl FontCoverage {
    pub closed spec fn spec_ranges(&self) -> Seq<CodepointRange> {
        self.ranges@
    }

    /// Whether some range covers the scalar value of `c`.
    pub open spec fn covers(&self, c: char) -> bool {
        exists|i: int|
            0 <= i < self.spec_ranges().len() && range_contains(
                #[trigger] self.spec_ranges()[i],
                c as u32,
            )
    }

    /// Keeps the given ranges, stably sorted by their start.
    pub fn new(ranges: Vec<CodepointRange>) -> (r: FontCoverage)
        ensures
            starts_sorted(r.spec_ranges()),
            r.spec_ranges().to_multiset() == ranges@.to_multiset(),
    {
        broadcast use vstd::seq_lib::group_to_multiset_ensures;

        let mut out: Vec<CodepointRange> = Vec::new();
        let mut i: usize = 0;
        while i < ranges.len()
            invariant
                i <= ranges.len(),
                starts_sorted(out@),
                out@.to_multiset() == ranges@.take(i as int).to_multiset(),
            decreases ranges.len() - i,
        {
            let x = ranges[i];
            let mut p: usize = 0;
            while p < out.len() && out[p].start <= x.start
                invariant
                    p <= out.len(),
                    forall|k: int| 0 <= k < p ==> out@[k].start <= x.start,
                decreases out.len() - p,
            {
                p += 1;
            }
            let ghost before = out@;
            proof {
                vstd::seq_lib::to_multiset_insert(before, p as int, x);
                vstd::seq_lib::to_multiset_build(ranges@.take(i as int), x);
                assert(ranges@.take(i + 1) =~= ranges@.take(i as int).push(x));
            }
            out.insert(p, x);
            assert(out@ == before.insert(p as int, x));
            assert(out@.to_multiset() =~= ranges@.take(i + 1).to_multiset());
            i += 1;
        }
        assert(ranges@.take(ranges.len() as int) =~= ranges@);
        FontCoverage { ranges: out }
    }

    /// Whether `character` lies inside one of the ranges.
    pub fn contains(&self, character: char) -> (r: bool)
        ensures
            r == self.covers(character),
    {
        let scalar = character as u32;
        let mut i: usize = 0;
        while i < self.ranges.len()
            invariant
                i <= self.ranges.len(),
                scalar == character as u32,
                forall|k: int| 0 <= k < i ==> !range_contains(self.ranges@[k], scalar),
            decreases self.ranges.len() - i,
        {
            if self.ranges[i].start <= scalar && scalar <= self.ranges[i].end {
                assert(range_contains(self.ranges@[i as int], character as u32));
                assert(range_contains(self.spec_ranges()[i as int], character as u32));
                assert(self.covers(character));
                return true;
            }
            i += 1;
        }
        false
    }

    /// Basic Latin through Latin Extended-B.
    pub fn latin_basic() -> (r: FontCoverage)
        ensures
            r.spec_ranges() == seq![CodepointRange { start: 0x0000, end: 0x024f }],
    {
        FontCoverage { ranges: vec![CodepointRange { start: 0x0000, end: 0x024f }] }
    }

    /// Latin plus combining marks and Latin Extended Additional.
    pub fn vietnamese() -> (r: FontCoverage)
        ensures
            r.spec_ranges() == seq![
                CodepointRange { start: 0x0000, end: 0x024f },
                CodepointRange { start: 0x0300, end: 0x036f },
                CodepointRange { start: 0x1e00, end: 0x1eff },
            ],
    {
        FontCoverage {
            ranges: vec![
                CodepointRange { start: 0x0000, end: 0x024f },
                CodepointRange { start: 0x0300, end: 0x036f },
                CodepointRange { start: 0x1e00, end: 0x1eff },
            ],
        }
    }

    /// ASCII plus the Arabic blocks.
    pub fn arabic() -> (r: FontCoverage)
        ensures
            r.spec_ranges() == seq![
                CodepointRange { start: 0x0000, end: 0x007f },
                CodepointRange { start: 0x0600, end: 0x06ff },
                CodepointRange { start: 0x0750, end: 0x077f },
                CodepointRange { start: 0x08a0, end: 0x08ff },
            ],
    {
        FontCoverage {
            ranges: vec![
                CodepointRange { start: 0x0000, end: 0x007f },
                CodepointRange { start: 0x0600, end: 0x06ff },
                CodepointRange { start: 0x0750, end: 0x077f },
                CodepointRange { start: 0x08a0, end: 0x08ff },
            ],
        }
    }

    /// Every Unicode scalar value.
    pub fn universal() -> (r: FontCoverage)
        ensures
            r.spec_ranges() == seq![CodepointRange { start: 0x0000, end: 0x10ffff }],
            forall|c: char| r.covers(c),
    {
        let r = FontCoverage { ranges: vec![CodepointRange { start: 0x0000, end: 0x10ffff }] };
        assert forall|c: char| r.covers(c) by {
            vstd::utf8::char_is_scalar(c);
            assert(range_contains(r.spec_ranges()[0], c as u32));
        }
        r
    }
}

/// One font face known to the database.
#[derive(Clone, Debug, PartialEq, Eq)]
pub struct FontFace {
    pub id: FontId,
    pub family: String,
    pub weight: u16,
    pub slant: FontSlant,
    pub scripts: Vec<Script>,
    pub coverage: FontCoverage,
    pub units_per_em: u16,
    pub source: FontSource,
}

/// Inputs that affect deterministic fallback selection.
#[derive(Clone, Debug, PartialEq, Eq)]
pub struct FontRequest {
    pub families: Vec<String>,
    pub weight: u16,
    pub slant: FontSlant,
    pub locale: Option<String>,
}

impl Default for FontRequest {
    fn default() -> (r: FontRequest)
        ensures
            r.families@.len() == 1,
            r.families@[0]@ == "serif"@,
            r.weight == 400,
            r.slant == FontSlant::Normal,
            r.locale is None,
    {
        let serif = String::from_str("serif");
        proof {
            reveal_strlit("serif");
        }
        FontRequest { families: vec![serif], weight: 400, slant: FontSlant::Normal, locale: None }
    }
}

impl FontRequest {
    /// A request for the given family names with default weight, slant, and locale.
    pub fn new(families: Vec<String>) -> (r: FontRequest)
        ensures
            r.families@ == families@,
            r.weight == 400,
            r.slant == FontSlant::Normal,
            r.locale is None,
    {
        FontRequest { families, weight: 400, slant: FontSlant::Normal, locale: None }
    }
}

/// An inclusive byte range of UTF-8 text.
#[derive(Clone, Copy, Debug, PartialEq, Eq, Structural)]
pub struct ByteRange {
    pub start: usize,
    pub end: usize,
}

/// A contiguous text range assigned to one fallback face.
#[derive(Clone, Debug, PartialEq, Eq)]
pub struct FontSpan {
    pub byte_range: ByteRange,
    pub font: FontId,
    pub family: String,
    pub script: Script,
}

/// The normalized request fields and character that one cached selection answers.
#[derive(Clone, Debug)]
pub struct FallbackCacheKey {
    pub families: Vec<Vec<char>>,
    pub weight: u16,
    pub slant: FontSlant,
    pub locale: Option<Vec<char>>,
    pub character: char,
}

/// The score by which faces compete; smaller wins, compared field by field.
#[derive(Clone, Copy, Debug, PartialEq, Eq, Structural)]
pub struct FaceScore {
    pub slant_mismatch: bool,
    pub weight_distance: u16,
    pub family_rank: usize,
    pub script_missing: bool,
    pub id: u32,
}

pub open spec fn bool_lt(a: bool, b: bool) -> bool {
    !a && b
}

/// Lexicographic order on scores, `false` before `true`.
pub open spec fn score_lt(a: FaceScore, b: FaceScore) -> bool {
    ||| bool_lt(a.slant_mismatch, b.slant_mismatch)
    ||| (a.slant_mismatch == b.slant_mismatch && a.weight_distance < b.weight_distance)
    ||| (a.slant_mismatch == b.slant_mismatch && a.weight_distance == b.weight_distance
        && a.family_rank < b.family_rank)
    ||| (a.slant_mismatch == b.slant_mismatch && a.weight_distance == b.weight_distance
        && a.family_rank == b.family_rank && bool_lt(a.script_missing, b.script_missing))
    ||| (a.slant_mismatch == b.slant_mismatch && a.weight_distance == b.weight_distance
        && a.family_rank == b.family_rank && a.script_missing == b.script_missing && a.id < b.id)
}

/// Family names compare after trimming whitespace, then quotes, and ASCII lowercasing.
pub open spec fn normalize_family_spec(s: Seq<char>) -> Seq<char> {
    ascii_lower_seq(trim_class(trim_class(s, TrimClass::Whitespace), TrimClass::Quotes))
}

/// Script classification of one character by code point.
pub open spec fn spec_script_for(c: char) -> Script {
    let v = c as u32;
    if (0x0041 <= v <= 0x024f) || (0x1e00 <= v <= 0x1eff) {
        Script::Latin
    } else if (0x0600 <= v <= 0x06ff) || (0x0750 <= v <= 0x077f) || (0x08a0 <= v <= 0x08ff) {
        Script::Arabic
    } else if (v <= 0x0040) || (0x0300 <= v <= 0x036f) || (0x2000 <= v <= 0x206f) {
        Script::Common
    } else {
        Script::Other
    }
}

/// Classifies a character into the broad script used for fallback.
pub fn script_for(character: char) -> (r: Script)
    ensures
        r == spec_script_for(character),
{
    let v = character as u32;
    if (0x0041 <= v && v <= 0x024f) || (0x1e00 <= v && v <= 0x1eff) {
        Script::Latin
    } else if (0x0600 <= v && v <= 0x06ff) || (0x0750 <= v && v <= 0x077f) || (0x08a0 <= v && v
        <= 0x08ff) {
        Script::Arabic
    } else if v <= 0x0040 || (0x0300 <= v && v <= 0x036f) || (0x2000 <= v && v <= 0x206f) {
        Script::Common
    } else {
        Script::Other
    }
}

/// Rank of a family that the request does not name.
pub open spec fn spec_default_family_rank(family: Seq<char>, script: Script) -> int {
    if script == Script::Arabic && family == "meow arabic"@ {
        100
    } else if script == Script::Latin && family == "meow sans vietnamese"@ {
        101
    } else if (script == Script::Latin || script == Script::Common) && family == "meow sans"@ {
        102
    } else if family == "meow last resort"@ {
        usize::MAX - 1
    } else {
        (usize::MAX / 2) as int
    }
}

/// First position of `family` in `families` at or after `k`.
pub open spec fn family_position(families: Seq<Seq<char>>, family: Seq<char>, k: int) -> Option<
    int,
>
    decreases families.len() - k,
{
    if k < 0 || k >= families.len() {
        None
    } else if families[k] == family {
        Some(k)
    } else {
        family_position(families, family, k + 1)
    }
}

pub open spec fn spec_family_rank(families: Seq<Seq<char>>, family: Seq<char>, script: Script) -> int {
    match family_position(families, family, 0) {
        Some(k) => k,
        None => spec_default_family_rank(family, script),
    }
}

pub open spec fn abs_diff(a: int, b: int) -> int {
    if a >= b {
        a - b
    } else {
        b - a
    }
}

/// The score of `face` for normalized `families`, `weight`, `slant`, and `script`.
pub open spec fn spec_face_score(
    face: FontFace,
    families: Seq<Seq<char>>,
    weight: u16,
    slant: FontSlant,
    script: Script,
) -> FaceScore {
    FaceScore {
        slant_mismatch: face.slant != slant,
        weight_distance: abs_diff(face.weight as int, weight as int) as u16,
        family_rank: spec_family_rank(families, normalize_family_spec(face.family@), script)
            as usize,
        script_missing: !face.scripts@.contains(script),
        id: face.id.0,
    }
}

/// Face `i` covers `c` and no covering face scores lower.
pub open spec fn is_best_face(
    faces: Seq<FontFace>,
    families: Seq<Seq<char>>,
    weight: u16,
    slant: FontSlant,
    c: char,
    i: int,
) -> bool {
    &&& 0 <= i < faces.len()
    &&& faces[i].coverage.covers(c)
    &&& forall|j: int|
        0 <= j < faces.len() && #[trigger] faces[j].coverage.covers(c) ==> !score_lt(
            spec_face_score(faces[j], families, weight, slant, spec_script_for(c)),
            spec_face_score(faces[i], families, weight, slant, spec_script_for(c)),
        )
}

pub open spec fn clamp_weight(w: u16) -> u16 {
    if w < 1 {
        1
    } else if w > 1000 {
        1000
    } else {
        w
    }
}

/// The normalized family list of a request.
pub open spec fn request_families(request: FontRequest) -> Seq<Seq<char>> {
    Seq::new(request.families@.len(), |i: int| normalize_family_spec(request.families@[i]@))
}

pub open spec fn some_face_covers(faces: Seq<FontFace>, c: char) -> bool {
    exists|j: int| 0 <= j < faces.len() && #[trigger] faces[j].coverage.covers(c)
}

/// The face that fallback selection picks for `c`.
pub open spec fn spec_best_face(
    faces: Seq<FontFace>,
    families: Seq<Seq<char>>,
    weight: u16,
    slant: FontSlant,
    c: char,
) -> int {
    choose|i: int| is_best_face(faces, families, weight, slant, c, i)
}

pub open spec fn spec_request_best(faces: Seq<FontFace>, request: FontRequest, c: char) -> int {
    spec_best_face(faces, request_families(request), clamp_weight(request.weight), request.slant, c)
}

/// Deterministic font registry with explicit fallback ordering and cache keys.
#[derive(Clone, Debug)]
pub struct FontDatabase {
    faces: Vec<FontFace>,
    fallback_cache: Vec<(FallbackCacheKey, FontId)>,
}

pub open spec fn key_families_view(k: FallbackCacheKey) -> Seq<Seq<char>> {
    Seq::new(k.families@.len(), |i: int| k.families@[i]@)
}

impl Default for FontDatabase {
    fn default() -> (r: FontDatabase)
        ensures
            r.wf(),
            r.spec_faces().len() == 0,
    {
        FontDatabase { faces: Vec::new(), fallback_cache: Vec::new() }
    }
}

/// Fields of a face registration before an id is assigned.
pub struct FaceRegistration {
    pub family: String,
    pub weight: u16,
    pub slant: FontSlant,
    pub scripts: Vec<Script>,
    pub coverage: FontCoverage,
    pub units_per_em: u16,
    pub source: FontSource,
}

/// Every face's id is its position in the table.
pub open spec fn faces_indexed(faces: Seq<FontFace>) -> bool {
    forall|i: int| 0 <= i < faces.len() ==> (#[trigger] faces[i]).id.0 == i
}

/// In a well-formed database every face's id is its position, so `face(id)`
/// is the face at `id` in `faces()`, and it holds exactly the ids below its length.
pub proof fn law_face_ids_are_indices(db: &FontDatabase)
    requires
        db.wf(),
    ensures
        faces_indexed(db.spec_faces()),
        db.spec_faces().len() <= u32::MAX,
{
}

impl FontDatabase {
    pub closed spec fn spec_faces(&self) -> Seq<FontFace> {
        self.faces@
    }

    /// Every face's id is its position, and every cached selection is the
    /// best face for its key.
    pub closed spec fn wf(&self) -> bool {
        &&& self.faces@.len() <= u32::MAX
        &&& forall|i: int| 0 <= i < self.faces@.len() ==> (#[trigger] self.faces@[i]).id.0 == i
        &&& forall|i: int|
            0 <= i < self.fallback_cache@.len() ==> {
                let entry = #[trigger] self.fallback_cache@[i];
                is_best_face(
                    self.faces@,
                    key_families_view(entry.0),
                    entry.0.weight,
                    entry.0.slant,
                    entry.0.character,
                    entry.1.0 as int,
                )
            }
    }

    /// The face table.
    pub fn faces(&self) -> (r: &[FontFace])
        ensures
            r@ == self.spec_faces(),
    {
        self.faces.as_slice()
    }

    /// The face registered under `id`.
    pub fn face(&self, id: FontId) -> (r: Option<&FontFace>)
        ensures
            (id.0 < self.spec_faces().len()) == (r is Some),
            r matches Some(f) ==> *f == self.spec_faces()[id.0 as int],
            self.wf() ==> (r matches Some(f) ==> f.id == id),
    {
        let index = id.0 as usize;
        if index < self.faces.len() {
            Some(&self.faces[index])
        } else {
            None
        }
    }

    /// Appends a face with the next id (weight clamped to 1..=1000) and
    /// drops every cached selection.
    pub fn register_face(&mut self, registration: FaceRegistration) -> (id: FontId)
        requires
            old(self).wf(),
            old(self).spec_faces().len() < u32::MAX,
        ensures
            final(self).wf(),
            id.0 == old(self).spec_faces().len(),
            final(self).spec_faces().len() == old(self).spec_faces().len() + 1,
            forall|i: int|
                0 <= i < old(self).spec_faces().len() ==> final(self).spec_faces()[i] == old(
                    self,
                ).spec_faces()[i],
            ({
                let f = final(self).spec_faces()[id.0 as int];
                &&& f.id == id
                &&& f.family == registration.family
                &&& f.weight == clamp_weight(registration.weight)
                &&& f.slant == registration.slant
                &&& f.scripts == registration.scripts
                &&& f.coverage == registration.coverage
                &&& f.units_per_em == registration.units_per_em
                &&& f.source == registration.source
            }),
    {
        let id = FontId(self.faces.len() as u32);
        let weight = if registration.weight < 1 {
            1
        } else if registration.weight > 1000 {
            1000
        } else {
            registration.weight
        };
        self.faces.push(
            FontFace {
                id,
                family: registration.family,
                weight,
                slant: registration.slant,
                scripts: registration.scripts,
                coverage: registration.coverage,
                units_per_em: registration.units_per_em,
                source: registration.source,
            },
        );
        self.fallback_cache.clear();
        id
    }
}


/// Normalizes a family name for comparison.
pub fn normalize_family(family: &str) -> (r: Vec<char>)
    ensures
        r@ == normalize_family_spec(family@),
{
    let chars = str_to_chars(family);
    let trimmed = trim_chars(chars.as_slice(), TrimClass::Whitespace);
    let unquoted = trim_chars(trimmed.as_slice(), TrimClass::Quotes);
    chars_to_ascii_lowercase(unquoted.as_slice())
}

fn literal_chars_equal(s: &[char], lit: &str) -> (r: bool)
    ensures
        r == (s@ == lit@),
{
    let l = str_to_chars(lit);
    chars_equal(s, l.as_slice())
}

fn default_family_rank(family: &[char], script: Script) -> (r: usize)
    ensures
        r == spec_default_family_rank(family@, script),
{
    if script == Script::Arabic && literal_chars_equal(family, "meow arabic") {
        100
    } else if script == Script::Latin && literal_chars_equal(family, "meow sans vietnamese") {
        101
    } else if (script == Script::Latin || script == Script::Common) && literal_chars_equal(
        family,
        "meow sans",
    ) {
        102
    } else if literal_chars_equal(family, "meow last resort") {
        usize::MAX - 1
    } else {
        usize::MAX / 2
    }
}

proof fn lemma_family_position_skip(families: Seq<Seq<char>>, family: Seq<char>, k: int)
    requires
        0 <= k < families.len(),
        families[k] != family,
    ensures
        family_position(families, family, k) == family_position(families, family, k + 1),
{
}

fn family_rank(families: &Vec<Vec<char>>, family: &[char], script: Script) -> (r: usize)
    ensures
        r == spec_family_rank(
            Seq::new(families@.len(), |i: int| families@[i]@),
            family@,
            script,
        ),
{
    let ghost fams = Seq::new(families@.len(), |i: int| families@[i]@);
    let mut k: usize = 0;
    while k < families.len()
        invariant
            k <= families.len(),
            fams == Seq::new(families@.len(), |i: int| families@[i]@),
            family_position(fams, family@, 0) == family_position(fams, family@, k as int),
        decreases families.len() - k,
    {
        if chars_equal(families[k].as_slice(), family) {
            return k;
        }
        proof {
            lemma_family_position_skip(fams, family@, k as int);
        }
        k += 1;
    }
    default_family_rank(family, script)
}

fn scripts_contain(scripts: &Vec<Script>, script: Script) -> (r: bool)
    ensures
        r == scripts@.contains(script),
{
    let mut i: usize = 0;
    while i < scripts.len()
        invariant
            i <= scripts.len(),
            forall|k: int| 0 <= k < i ==> scripts@[k] != script,
        decreases scripts.len() - i,
    {
        if scripts[i] == script {
            return true;
        }
        i += 1;
    }
    false
}

/// Computes the fallback score of one face.
fn match_score(
    face: &FontFace,
    families: &Vec<Vec<char>>,
    weight: u16,
    slant: FontSlant,
    script: Script,
) -> (r: FaceScore)
    ensures
        r == spec_face_score(
            *face,
            Seq::new(families@.len(), |i: int| families@[i]@),
            weight,
            slant,
            script,
        ),
{
    let family = normalize_family(face.family.as_str());
    let distance = if face.weight >= weight {
        face.weight - weight
    } else {
        weight - face.weight
    };
    FaceScore {
        slant_mismatch: face.slant != slant,
        weight_distance: distance,
        family_rank: family_rank(families, family.as_slice(), script),
        script_missing: !scripts_contain(&face.scripts, script),
        id: face.id.0,
    }
}

fn score_less(a: FaceScore, b: FaceScore) -> (r: bool)
    ensures
        r == score_lt(a, b),
{
    if a.slant_mismatch != b.slant_mismatch {
        return !a.slant_mismatch;
    }
    if a.weight_distance != b.weight_distance {
        return a.weight_distance < b.weight_distance;
    }
    if a.family_rank != b.family_rank {
        return a.family_rank < b.family_rank;
    }
    if a.script_missing != b.script_missing {
        return !a.script_missing;
    }
    a.id < b.id
}

proof fn lemma_score_total(a: FaceScore, b: FaceScore)
    requires
        a.id != b.id,
    ensures
        score_lt(a, b) || score_lt(b, a),
{
}

proof fn lemma_score_asym(a: FaceScore, b: FaceScore)
    ensures
        !(score_lt(a, b) && score_lt(b, a)),
{
}

/// Two faces that are both best for one request are the same face.
pub proof fn lemma_best_face_unique(
    faces: Seq<FontFace>,
    families: Seq<Seq<char>>,
    weight: u16,
    slant: FontSlant,
    c: char,
    i: int,
    j: int,
)
    requires
        forall|k: int| 0 <= k < faces.len() ==> (#[trigger] faces[k]).id.0 == k,
        is_best_face(faces, families, weight, slant, c, i),
        is_best_face(faces, families, weight, slant, c, j),
    ensures
        i == j,
{
    if i != j {
        let script = spec_script_for(c);
        lemma_score_total(
            spec_face_score(faces[i], families, weight, slant, script),
            spec_face_score(faces[j], families, weight, slant, script),
        );
        assert(faces[j].coverage.covers(c));
        assert(faces[i].coverage.covers(c));
    }
}

/// Fallback honours the requested slant first: when some face that covers
/// the character has the requested slant, the chosen face has it too; and
/// among faces that match the slant equally well, the chosen one is closest
/// in weight.
pub proof fn law_best_face_prefers_slant_then_weight(
    faces: Seq<FontFace>,
    families: Seq<Seq<char>>,
    weight: u16,
    slant: FontSlant,
    c: char,
    i: int,
)
    requires
        is_best_face(faces, families, weight, slant, c, i),
    ensures
        (exists|j: int|
            0 <= j < faces.len() && #[trigger] faces[j].coverage.covers(c) && faces[j].slant
                == slant) ==> faces[i].slant == slant,
        forall|j: int|
            0 <= j < faces.len() && #[trigger] faces[j].coverage.covers(c) && (faces[j].slant
                == slant) == (faces[i].slant == slant) ==> abs_diff(
                faces[i].weight as int,
                weight as int,
            ) <= abs_diff(faces[j].weight as int, weight as int),
{
    let script = spec_script_for(c);
    if exists|j: int|
        0 <= j < faces.len() && #[trigger] faces[j].coverage.covers(c) && faces[j].slant == slant {
        let j = choose|j: int|
            0 <= j < faces.len() && #[trigger] faces[j].coverage.covers(c) && faces[j].slant
                == slant;
        let sj = spec_face_score(faces[j], families, weight, slant, script);
        let si = spec_face_score(faces[i], families, weight, slant, script);
        assert(!score_lt(sj, si));
        assert(!sj.slant_mismatch);
    }
    assert forall|j: int|
        0 <= j < faces.len() && #[trigger] faces[j].coverage.covers(c) && (faces[j].slant == slant)
            == (faces[i].slant == slant) implies abs_diff(faces[i].weight as int, weight as int)
        <= abs_diff(faces[j].weight as int, weight as int) by {
        let sj = spec_face_score(faces[j], families, weight, slant, script);
        let si = spec_face_score(faces[i], families, weight, slant, script);
        assert(!score_lt(sj, si));
        assert(abs_diff(faces[i].weight as int, weight as int) < 65536);
        assert(abs_diff(faces[j].weight as int, weight as int) < 65536);
    }
}

fn families_equal(a: &Vec<Vec<char>>, b: &Vec<Vec<char>>) -> (r: bool)
    ensures
        r == (Seq::new(a@.len(), |i: int| a@[i]@) == Seq::new(b@.len(), |i: int| b@[i]@)),
{
    let ghost av = Seq::new(a@.len(), |i: int| a@[i]@);
    let ghost bv = Seq::new(b@.len(), |i: int| b@[i]@);
    if a.len() != b.len() {
        assert(av.len() != bv.len());
        return false;
    }
    let mut i: usize = 0;
    while i < a.len()
        invariant
            a.len() == b.len(),
            i <= a.len(),
            av == Seq::new(a@.len(), |i: int| a@[i]@),
            bv == Seq::new(b@.len(), |i: int| b@[i]@),
            forall|k: int| 0 <= k < i ==> av[k] == bv[k],
        decreases a.len() - i,
    {
        if !chars_equal(a[i].as_slice(), b[i].as_slice()) {
            assert(av[i as int] != bv[i as int]);
            return false;
        }
        i += 1;
    }
    assert(av =~= bv);
    true
}

/// The characters of an optional character list.
pub open spec fn opt_chars_view(a: Option<Vec<char>>) -> Option<Seq<char>> {
    match a {
        Some(x) => Some(x@),
        None => None,
    }
}

/// Whether two cache keys are equal field by field, character lists by their contents.
pub open spec fn keys_equal(a: FallbackCacheKey, b: FallbackCacheKey) -> bool {
    &&& key_families_view(a) == key_families_view(b)
    &&& a.weight == b.weight
    &&& a.slant == b.slant
    &&& a.character == b.character
    &&& opt_chars_view(a.locale) == opt_chars_view(b.locale)
}

fn optional_chars_equal(a: &Option<Vec<char>>, b: &Option<Vec<char>>) -> (r: bool)
    ensures
        r == (opt_chars_view(*a) == opt_chars_view(*b)),
{
    match (a, b) {
        (None, None) => true,
        (Some(x), Some(y)) => chars_equal(x.as_slice(), y.as_slice()),
        _ => false,
    }
}

fn cache_key_equal(a: &FallbackCacheKey, b: &FallbackCacheKey) -> (r: bool)
    ensures
        r == keys_equal(*a, *b),
{
    families_equal(&a.families, &b.families) && a.weight == b.weight && a.slant == b.slant
        && a.character == b.character && optional_chars_equal(&a.locale, &b.locale)
}

impl FontDatabase {
    /// Picks the face for `character`: among the faces that cover it, the one
    /// with the smallest score (slant mismatch, weight distance, family rank,
    /// missing script, id), through the selection cache.
    pub fn select_face(&mut self, request: &FontRequest, character: char) -> (r: FontId)
        requires
            old(self).wf(),
            some_face_covers(old(self).spec_faces(), character),
        ensures
            final(self).wf(),
            final(self).spec_faces() == old(self).spec_faces(),
            is_best_face(
                old(self).spec_faces(),
                request_families(*request),
                clamp_weight(request.weight),
                request.slant,
                character,
                r.0 as int,
            ),
            r.0 == spec_request_best(old(self).spec_faces(), *request, character),
    {
        let mut families: Vec<Vec<char>> = Vec::new();
        let mut k: usize = 0;
        while k < request.families.len()
            invariant
                k <= request.families.len(),
                families@.len() == k,
                forall|i: int|
                    0 <= i < k ==> (#[trigger] families@[i])@ == normalize_family_spec(
                        request.families@[i]@,
                    ),
            decreases request.families.len() - k,
        {
            families.push(normalize_family(request.families[k].as_str()));
            k += 1;
        }
        assert(Seq::new(families@.len(), |i: int| families@[i]@) =~= request_families(*request));
        let weight = if request.weight < 1 {
            1
        } else if request.weight > 1000 {
            1000
        } else {
            request.weight
        };
        let locale = match &request.locale {
            Some(l) => {
                let chars = str_to_chars(l.as_str());
                Some(chars_to_ascii_lowercase(chars.as_slice()))
            },
            None => None,
        };
        let key = FallbackCacheKey { families, weight, slant: request.slant, locale, character };
        let ghost fams = request_families(*request);
        let ghost faces = self.faces@;
        let mut c: usize = 0;
        while c < self.fallback_cache.len()
            invariant
                self.wf(),
                self.faces@ == faces,
                faces == old(self).faces@,
                fams == request_families(*request),
                key_families_view(key) == fams,
                key.weight == clamp_weight(request.weight),
                key.slant == request.slant,
                key.character == character,
                c <= self.fallback_cache.len(),
            decreases self.fallback_cache.len() - c,
        {
            if cache_key_equal(&self.fallback_cache[c].0, &key) {
                let found = self.fallback_cache[c].1;
                assert(is_best_face(faces, fams, key.weight, key.slant, character, found.0 as int))
                    by {
                    let entry = self.fallback_cache@[c as int];
                    assert(is_best_face(
                        self.faces@,
                        key_families_view(entry.0),
                        entry.0.weight,
                        entry.0.slant,
                        entry.0.character,
                        entry.1.0 as int,
                    ));
                }
                proof {
                    self.lemma_best_is_chosen(fams, key.weight, key.slant, character, found.0 as int);
                }
                return found;
            }
            c += 1;
        }
        let script = script_for(character);
        let mut best: Option<(usize, FaceScore)> = None;
        let mut i: usize = 0;
        while i < self.faces.len()
            invariant
                self.wf(),
                self.faces@ == faces,
                faces == old(self).faces@,
                fams == request_families(*request),
                key_families_view(key) == fams,
                key.weight == clamp_weight(request.weight),
                key.slant == request.slant,
                key.character == character,
                script == spec_script_for(character),
                i <= self.faces.len(),
                best matches Some(b) ==> {
                    &&& b.0 < i
                    &&& faces[b.0 as int].coverage.covers(character)
                    &&& b.1 == spec_face_score(faces[b.0 as int], fams, key.weight, key.slant, script)
                    &&& forall|j: int|
                        0 <= j < i && #[trigger] faces[j].coverage.covers(character) ==> !score_lt(
                            spec_face_score(faces[j], fams, key.weight, key.slant, script),
                            b.1,
                        )
                },
                best is None ==> forall|j: int|
                    0 <= j < i ==> !(#[trigger] faces[j].coverage.covers(character)),
            decreases self.faces.len() - i,
        {
            if self.faces[i].coverage.contains(character) {
                let score = match_score(&self.faces[i], &key.families, key.weight, key.slant, script);
                match best {
                    None => {
                        best = Some((i, score));
                    },
                    Some(b) => {
                        if score_less(score, b.1) {
                            proof {
                                assert forall|j: int|
                                    0 <= j < i + 1 && #[trigger] faces[j].coverage.covers(
                                        character,
                                    ) implies !score_lt(
                                    spec_face_score(faces[j], fams, key.weight, key.slant, script),
                                    score,
                                ) by {
                                    if j < i {
                                        let sj = spec_face_score(
                                            faces[j],
                                            fams,
                                            key.weight,
                                            key.slant,
                                            script,
                                        );
                                        lemma_score_trans_neg(sj, b.1, score);
                                    } else {
                                        lemma_score_irrefl(score);
                                    }
                                }
                            }
                            best = Some((i, score));
                        } else {
                            proof {
                                assert forall|j: int|
                                    0 <= j < i + 1 && #[trigger] faces[j].coverage.covers(
                                        character,
                                    ) implies !score_lt(
                                    spec_face_score(faces[j], fams, key.weight, key.slant, script),
                                    b.1,
                                ) by {}
                            }
                        }
                    },
                }
            }
            i += 1;
        }
        let selected = match best {
            Some(b) => FontId(b.0 as u32),
            None => {
                proof {
                    let j = choose|j: int|
                        0 <= j < faces.len() && #[trigger] faces[j].coverage.covers(character);
                    assert(faces[j].coverage.covers(character));
                }
                FontId(0)
            },
        };
        assert(is_best_face(faces, fams, key.weight, key.slant, character, selected.0 as int));
        proof {
            self.lemma_best_is_chosen(fams, key.weight, key.slant, character, selected.0 as int);
        }
        self.fallback_cache.push((key, selected));
        assert(self.wf()) by {
            assert forall|i: int| 0 <= i < self.fallback_cache@.len() implies {
                let entry = #[trigger] self.fallback_cache@[i];
                is_best_face(
                    self.faces@,
                    key_families_view(entry.0),
                    entry.0.weight,
                    entry.0.slant,
                    entry.0.character,
                    entry.1.0 as int,
                )
            } by {}
        }
        selected
    }

    proof fn lemma_best_is_chosen(
        &self,
        families: Seq<Seq<char>>,
        weight: u16,
        slant: FontSlant,
        c: char,
        i: int,
    )
        requires
            self.wf(),
            is_best_face(self.faces@, families, weight, slant, c, i),
        ensures
            i == spec_best_face(self.faces@, families, weight, slant, c),
    {
        let k = spec_best_face(self.faces@, families, weight, slant, c);
        lemma_best_face_unique(self.faces@, families, weight, slant, c, i, k);
    }
}

proof fn lemma_score_irrefl(a: FaceScore)
    ensures
        !score_lt(a, a),
{
}

proof fn lemma_score_trans_neg(a: FaceScore, b: FaceScore, c: FaceScore)
    requires
        !score_lt(a, b),
        score_lt(c, b),
    ensures
        !score_lt(a, c),
{
}


/// FNV-1a 64-bit hash of a byte sequence.
pub open spec fn spec_fnv1a64(bytes: Seq<u8>) -> u64
    decreases bytes.len(),
{
    if bytes.len() == 0 {
        0xcbf29ce484222325u64
    } else {
        (spec_fnv1a64(bytes.drop_last()) ^ (bytes.last() as u64)).wrapping_mul(0x100000001b3u64)
    }
}

/// FNV-1a 64-bit digest used to identify in-memory font bytes.
pub fn fnv1a64(bytes: &[u8]) -> (r: u64)
    ensures
        r == spec_fnv1a64(bytes@),
{
    let mut hash: u64 = 0xcbf29ce484222325;
    let mut i: usize = 0;
    while i < bytes.len()
        invariant
            i <= bytes.len(),
            hash == spec_fnv1a64(bytes@.take(i as int)),
        decreases bytes.len() - i,
    {
        assert(bytes@.take(i + 1).drop_last() =~= bytes@.take(i as int));
        hash = (hash ^ (bytes[i] as u64)).wrapping_mul(0x100000001b3);
        i += 1;
    }
    assert(bytes@.take(bytes.len() as int) =~= bytes@);
    hash
}

/// What an OpenType parser reports as the units per em of a font file, or
/// `None` when it rejects the bytes.
pub uninterp spec fn opentype_units_per_em(bytes: Seq<u8>) -> Option<u16>;

/// Parses `bytes` with `skrifa::FontRef::new` and reads the default-instance
/// `units_per_em` through `MetadataProvider::metrics`. The contract claims
/// only that success and the value depend on the bytes alone; the text of the
/// parse error is not stated.
#[verifier::external_body]
fn parse_units_per_em(bytes: &[u8]) -> (r: Result<u16, String>)
    ensures
        r is Ok <==> opentype_units_per_em(bytes@) is Some,
        r matches Ok(u) ==> opentype_units_per_em(bytes@) == Some(u),
{
    let font = skrifa::FontRef::new(bytes).map_err(|error| error.to_string())?;
    let coords: &[skrifa::instance::NormalizedCoord] = &[];
    Ok(font.metrics(skrifa::instance::Size::unscaled(), coords).units_per_em)
}

impl FontDatabase {
    /// Registers a face with bundled synthetic metrics (1000 units per em).
    pub fn register_synthetic(
        &mut self,
        family: String,
        weight: u16,
        slant: FontSlant,
        scripts: Vec<Script>,
        coverage: FontCoverage,
    ) -> (id: FontId)
        requires
            old(self).wf(),
            old(self).spec_faces().len() < u32::MAX,
        ensures
            final(self).wf(),
            id.0 == old(self).spec_faces().len(),
            final(self).spec_faces().len() == old(self).spec_faces().len() + 1,
            forall|i: int|
                0 <= i < old(self).spec_faces().len() ==> final(self).spec_faces()[i] == old(
                    self,
                ).spec_faces()[i],
            ({
                let f = final(self).spec_faces()[id.0 as int];
                &&& f.id == id
                &&& f.family == family
                &&& f.weight == clamp_weight(weight)
                &&& f.slant == slant
                &&& f.scripts == scripts
                &&& f.coverage == coverage
                &&& f.units_per_em == 1000
                &&& f.source matches FontSource::Synthetic(tag) && tag@ == "bundled-metrics-v1"@
            }),
    {
        let tag = String::from_str("bundled-metrics-v1");
        self.register_face(
            FaceRegistration {
                family,
                weight,
                slant,
                scripts,
                coverage,
                units_per_em: 1000,
                source: FontSource::Synthetic(tag),
            },
        )
    }

    /// Validates OpenType bytes and records caller-supplied metadata with the
    /// parsed units per em and an FNV-1a digest of the bytes.
    pub fn register_font_bytes(
        &mut self,
        bytes: &[u8],
        family: String,
        weight: u16,
        slant: FontSlant,
        scripts: Vec<Script>,
        coverage: FontCoverage,
    ) -> (r: Result<FontId, String>)
        requires
            old(self).wf(),
            old(self).spec_faces().len() < u32::MAX,
        ensures
            final(self).wf(),
            r is Ok <==> opentype_units_per_em(bytes@) is Some,
            r is Err ==> final(self).spec_faces() == old(self).spec_faces(),
            r matches Ok(id) ==> {
                let f = final(self).spec_faces()[id.0 as int];
                &&& id.0 == old(self).spec_faces().len()
                &&& final(self).spec_faces().len() == old(self).spec_faces().len() + 1
                &&& forall|i: int|
                    0 <= i < old(self).spec_faces().len() ==> final(self).spec_faces()[i] == old(
                        self,
                    ).spec_faces()[i]
                &&& f.id == id
                &&& f.family == family
                &&& f.weight == clamp_weight(weight)
                &&& f.slant == slant
                &&& f.scripts == scripts
                &&& f.coverage == coverage
                &&& Some(f.units_per_em) == opentype_units_per_em(bytes@)
                &&& f.source == FontSource::Memory { digest: spec_fnv1a64(bytes@) }
            },
    {
        let units_per_em = match parse_units_per_em(bytes) {
            Ok(u) => u,
            Err(error) => {
                return Err(error);
            },
        };
        let digest = fnv1a64(bytes);
        let id = self.register_face(
            FaceRegistration {
                family,
                weight,
                slant,
                scripts,
                coverage,
                units_per_em,
                source: FontSource::Memory { digest },
            },
        );
        Ok(id)
    }

    /// The bundled metadata set used by text fixtures: Meow Sans (regular,
    /// bold, italic), Meow Sans Vietnamese, Meow Arabic, and a universal last
    /// resort face, in that registration order (regular Meow Sans first).
    pub fn deterministic() -> (r: FontDatabase)
        ensures
            r.wf(),
            r.spec_faces().len() == 6,
            r.spec_faces()[0].family@ == "Meow Sans"@,
            r.spec_faces()[0].weight == 400,
            r.spec_faces()[0].slant == FontSlant::Normal,
            r.spec_faces()[1].family@ == "Meow Sans Vietnamese"@,
            r.spec_faces()[1].weight == 400,
            r.spec_faces()[1].slant == FontSlant::Normal,
            r.spec_faces()[2].family@ == "Meow Sans"@,
            r.spec_faces()[2].weight == 700,
            r.spec_faces()[2].slant == FontSlant::Normal,
            r.spec_faces()[3].family@ == "Meow Sans"@,
            r.spec_faces()[3].weight == 400,
            r.spec_faces()[3].slant == FontSlant::Italic,
            r.spec_faces()[4].family@ == "Meow Arabic"@,
            r.spec_faces()[4].weight == 400,
            r.spec_faces()[4].slant == FontSlant::Normal,
            r.spec_faces()[5].family@ == "Meow Last Resort"@,
            r.spec_faces()[5].weight == 400,
            r.spec_faces()[5].slant == FontSlant::Normal,
            r.spec_faces()[0].coverage.spec_ranges() == seq![
                CodepointRange { start: 0x0000, end: 0x024f },
            ],
            r.spec_faces()[4].coverage.spec_ranges() == seq![
                CodepointRange { start: 0x0000, end: 0x007f },
                CodepointRange { start: 0x0600, end: 0x06ff },
                CodepointRange { start: 0x0750, end: 0x077f },
                CodepointRange { start: 0x08a0, end: 0x08ff },
            ],
            forall|i: int|
                1 <= i <= 3 ==> (#[trigger] r.spec_faces()[i]).coverage.spec_ranges() == seq![
                    CodepointRange { start: 0x0000, end: 0x024f },
                    CodepointRange { start: 0x0300, end: 0x036f },
                    CodepointRange { start: 0x1e00, end: 0x1eff },
                ],
            r.spec_faces()[0].scripts@ == seq![Script::Latin, Script::Common],
            r.spec_faces()[1].scripts@ == seq![Script::Latin, Script::Common],
            r.spec_faces()[2].scripts@ == seq![Script::Latin, Script::Common],
            r.spec_faces()[3].scripts@ == seq![Script::Latin, Script::Common],
            r.spec_faces()[4].scripts@ == seq![Script::Arabic, Script::Common],
            r.spec_faces()[5].scripts@ == seq![
                Script::Common,
                Script::Latin,
                Script::Arabic,
                Script::Other,
            ],
            forall|c: char| r.spec_faces()[5].coverage.covers(c),
            forall|c: char| some_face_covers(r.spec_faces(), c),
            faces_indexed(r.spec_faces()),
            forall|i: int|
                0 <= i < 6 ==> (#[trigger] r.spec_faces()[i]).units_per_em == 1000 && (
                r.spec_faces()[i].source matches FontSource::Synthetic(tag) && tag@
                    == "bundled-metrics-v1"@),
    {
        let mut database = FontDatabase::default();
        database.register_synthetic(
            String::from_str("Meow Sans"),
            400,
            FontSlant::Normal,
            vec![Script::Latin, Script::Common],
            FontCoverage::latin_basic(),
        );
        database.register_synthetic(
            String::from_str("Meow Sans Vietnamese"),
            400,
            FontSlant::Normal,
            vec![Script::Latin, Script::Common],
            FontCoverage::vietnamese(),
        );
        database.register_synthetic(
            String::from_str("Meow Sans"),
            700,
            FontSlant::Normal,
            vec![Script::Latin, Script::Common],
            FontCoverage::vietnamese(),
        );
        database.register_synthetic(
            String::from_str("Meow Sans"),
            400,
            FontSlant::Italic,
            vec![Script::Latin, Script::Common],
            FontCoverage::vietnamese(),
        );
        database.register_synthetic(
            String::from_str("Meow Arabic"),
            400,
            FontSlant::Normal,
            vec![Script::Arabic, Script::Common],
            FontCoverage::arabic(),
        );
        database.register_synthetic(
            String::from_str("Meow Last Resort"),
            400,
            FontSlant::Normal,
            vec![Script::Common, Script::Latin, Script::Arabic, Script::Other],
            FontCoverage::universal(),
        );
        assert forall|c: char| some_face_covers(database.spec_faces(), c) by {
            assert(database.spec_faces()[5].coverage.covers(c));
        }
        proof {
            law_face_ids_are_indices(&database);
        }
        database
    }
}


/// A font span as plain values: inclusive byte range, font index, and script.
pub type SpanModel = (int, int, int, Script);

pub open spec fn span_model(span: FontSpan) -> SpanModel {
    (span.byte_range.start as int, span.byte_range.end as int, span.font.0 as int, span.script)
}

/// Adds character `c`, whose UTF-8 encoding starts at byte `start`, to the
/// spans of the preceding text. A `Common` character keeps the font and
/// script of the span before it; any other character takes the selected
/// face and its own script. A character extends the last span when the font
/// matches and either the script matches or the character is `Common`.
pub open spec fn resolve_step(
    faces: Seq<FontFace>,
    request: FontRequest,
    spans: Seq<SpanModel>,
    c: char,
    start: int,
) -> Seq<SpanModel> {
    let classified = spec_script_for(c);
    let inherit = classified == Script::Common && spans.len() > 0;
    let font = if inherit {
        spans.last().2
    } else {
        spec_request_best(faces, request, c)
    };
    let script = if inherit {
        spans.last().3
    } else {
        classified
    };
    let end = start + utf8_len(c) - 1;
    if spans.len() > 0 && spans.last().2 == font && (spans.last().3 == script || classified
        == Script::Common) && spans.last().1 + 1 == start {
        spans.update(spans.len() - 1, (spans.last().0, end, font, script))
    } else {
        spans.push((start, end, font, script))
    }
}

/// The spans that fallback resolution assigns to `text`.
pub open spec fn spec_resolve_spans(faces: Seq<FontFace>, request: FontRequest, text: Seq<char>) -> Seq<
    SpanModel,
>
    decreases text.len(),
{
    if text.len() == 0 {
        Seq::empty()
    } else {
        resolve_step(
            faces,
            request,
            spec_resolve_spans(faces, request, text.drop_last()),
            text.last(),
            utf8_byte_len(text.drop_last()) as int,
        )
    }
}

/// Every character that needs a selection has a covering face: the first
/// character and every character that is not `Common`.
pub open spec fn resolvable(faces: Seq<FontFace>, text: Seq<char>) -> bool {
    forall|i: int|
        0 <= i < text.len() && (i == 0 || spec_script_for(text[i]) != Script::Common)
            ==> some_face_covers(faces, #[trigger] text[i])
}

impl FontDatabase {
    /// Splits `text` into spans of one fallback face each, with inclusive
    /// UTF-8 byte ranges.
    pub fn resolve_text(&mut self, request: &FontRequest, text: &str) -> (spans: Vec<FontSpan>)
        requires
            old(self).wf(),
            resolvable(old(self).spec_faces(), text@),
            utf8_byte_len(text@) <= usize::MAX,
        ensures
            final(self).wf(),
            final(self).spec_faces() == old(self).spec_faces(),
            spans@.map_values(|sp: FontSpan| span_model(sp)) == spec_resolve_spans(
                old(self).spec_faces(),
                *request,
                text@,
            ),
            forall|k: int|
                0 <= k < spans@.len() ==> (#[trigger] spans@[k]).font.0 < old(
                    self,
                ).spec_faces().len() && spans@[k].family@ == old(self).spec_faces()[spans@[
                    k
                ].font.0 as int].family@,
    {
        let chars = str_to_chars(text);
        let ghost faces = self.faces@;
        let mut spans: Vec<FontSpan> = Vec::new();
        let mut start: usize = 0;
        let mut i: usize = 0;
        assert(chars@.take(0) =~= Seq::<char>::empty());
        while i < chars.len()
            invariant
                self.wf(),
                self.faces@ == faces,
                faces == old(self).faces@,
                chars@ == text@,
                resolvable(faces, text@),
                utf8_byte_len(text@) <= usize::MAX,
                i <= chars.len(),
                start == utf8_byte_len(chars@.take(i as int)),
                spans@.map_values(|sp: FontSpan| span_model(sp)) == spec_resolve_spans(
                    faces,
                    *request,
                    chars@.take(i as int),
                ),
                i > 0 ==> spans@.len() > 0,
                spans@.len() > 0 ==> spans@.last().byte_range.end < start,
                forall|k: int|
                    0 <= k < spans@.len() ==> (#[trigger] spans@[k]).font.0 < faces.len()
                        && spans@[k].family@ == faces[spans@[k].font.0 as int].family@,
            decreases chars.len() - i,
        {
            let character = chars[i];
            let ghost prefix = chars@.take(i as int);
            proof {
                assert(chars@.take(i + 1).drop_last() =~= prefix);
                lemma_utf8_byte_len_push(prefix, character);
                assert(chars@.take(i + 1) =~= prefix.push(character));
                crate::text_util::lemma_utf8_byte_len_prefix_le(chars@, i + 1);
            }
            let width = char_utf8_len(character);
            let end = start + width - 1;
            let classified = script_for(character);
            let last_len = spans.len();
            let (font, script) = if classified == Script::Common && last_len > 0 {
                (spans[last_len - 1].font, spans[last_len - 1].script)
            } else {
                assert(some_face_covers(faces, text@[i as int]));
                (self.select_face(request, character), classified)
            };
            let face_family = self.faces[font.0 as usize].family.clone();
            let ghost before = spans@.map_values(|sp: FontSpan| span_model(sp));
            if last_len > 0 && spans[last_len - 1].font == font && (spans[last_len - 1].script
                == script || classified == Script::Common) && spans[last_len - 1].byte_range.end
                + 1 == start {
                let first = spans[last_len - 1].byte_range.start;
                let fam = spans[last_len - 1].family.clone();
                spans.set(
                    last_len - 1,
                    FontSpan { byte_range: ByteRange { start: first, end }, font, family: fam, script },
                );
                assert(spans@.map_values(|sp: FontSpan| span_model(sp)) =~= before.update(
                    last_len - 1,
                    (first as int, end as int, font.0 as int, script),
                ));
            } else {
                spans.push(
                    FontSpan { byte_range: ByteRange { start, end }, font, family: face_family, script },
                );
                assert(spans@.map_values(|sp: FontSpan| span_model(sp)) =~= before.push(
                    (start as int, end as int, font.0 as int, script),
                ));
            }
            start = start + width;
            i += 1;
        }
        assert(chars@.take(chars.len() as int) =~= chars@);
        spans
    }
}

} // verus!

verus! {

/// Whether a file extension names a font file: `ttf`, `otf` or `ttc`,
/// ASCII case-insensitively.
pub fn is_font_file_extension(extension: &str) -> (r: bool)
    ensures
        r == (crate::text_util::ascii_lower_seq(extension@) == seq!['t', 't', 'f']
            || crate::text_util::ascii_lower_seq(extension@) == seq!['o', 't', 'f']
            || crate::text_util::ascii_lower_seq(extension@) == seq!['t', 't', 'c']),
{
    let chars = crate::text_util::str_to_chars(extension);
    let lowered = crate::text_util::chars_to_ascii_lowercase(chars.as_slice());
    let ttf: Vec<char> = vec!['t', 't', 'f'];
    let otf: Vec<char> = vec!['o', 't', 'f'];
    let ttc: Vec<char> = vec!['t', 't', 'c'];
    assert(ttf@ =~= seq!['t', 't', 'f']);
    assert(otf@ =~= seq!['o', 't', 'f']);
    assert(ttc@ =~= seq!['t', 't', 'c']);
    crate::text_util::chars_equal(lowered.as_slice(), ttf.as_slice())
        || crate::text_util::chars_equal(lowered.as_slice(), otf.as_slice())
        || crate::text_util::chars_equal(lowered.as_slice(), ttc.as_slice())
}

} // verus!

verus! {

/// `Debug` name of a script.
pub open spec fn script_name(s: Script) -> Seq<char> {
    match s {
        Script::Common => "Common"@,
        Script::Latin => "Latin"@,
        Script::Arabic => "Arabic"@,
        Script::Other => "Other"@,
    }
}

/// `Debug` name of a script.
pub fn script_debug(s: Script) -> (r: String)
    ensures
        r@ == script_name(s),
{
    match s {
        Script::Common => String::from_str("Common"),
        Script::Latin => String::from_str("Latin"),
        Script::Arabic => String::from_str("Arabic"),
        Script::Other => String::from_str("Other"),
    }
}

/// `Debug` name of a slant.
pub open spec fn slant_name(s: FontSlant) -> Seq<char> {
    match s {
        FontSlant::Normal => "Normal"@,
        FontSlant::Italic => "Italic"@,
    }
}

pub(crate) fn slant_debug(s: FontSlant) -> (r: String)
    ensures
        r@ == slant_name(s),
{
    match s {
        FontSlant::Normal => String::from_str("Normal"),
        FontSlant::Italic => String::from_str("Italic"),
    }
}

/// The names of the first `n` scripts separated by `, `.
pub open spec fn script_list(s: Seq<Script>, n: int) -> Seq<char>
    decreases n,
{
    if n <= 0 {
        Seq::empty()
    } else if n == 1 {
        script_name(s[0])
    } else {
        script_list(s, n - 1) + ", "@ + script_name(s[n - 1])
    }
}

/// `Debug` text of a list of scripts: `[Latin, Common]`.
pub open spec fn scripts_text(s: Seq<Script>) -> Seq<char> {
    "["@ + script_list(s, s.len() as int) + "]"@
}

fn scripts_debug(s: &Vec<Script>) -> (r: String)
    ensures
        r@ == scripts_text(s@),
{
    let mut out = String::from_str("[");
    let mut i: usize = 0;
    while i < s.len()
        invariant
            i <= s@.len(),
            out@ == "["@ + script_list(s@, i as int),
        decreases s@.len() - i,
    {
        if i > 0 {
            crate::text_util::push_str(&mut out, ", ");
        }
        let name = script_debug(s[i]);
        crate::text_util::push_str(&mut out, name.as_str());
        proof {
            if i == 0 {
                assert(script_list(s@, 0) =~= Seq::<char>::empty());
            }
        }
        assert(out@ =~= "["@ + script_list(s@, i + 1));
        i += 1;
    }
    crate::text_util::push_str(&mut out, "]");
    out
}

/// `Debug` text of a font source.
pub open spec fn source_text(s: FontSource) -> Seq<char> {
    match s {
        FontSource::Synthetic(n) => "Synthetic("@ + crate::text_util::str_debug(n@) + ")"@,
        FontSource::Memory { digest } => "Memory { digest: "@ + crate::text_util::decimal(digest as nat) + " }"@,
        FontSource::SystemPath(p) => "SystemPath("@ + crate::text_util::str_debug(p@) + ")"@,
    }
}

fn source_debug(s: &FontSource) -> (r: String)
    ensures
        r@ == source_text(*s),
{
    match s {
        FontSource::Synthetic(n) => {
            let mut out = String::from_str("Synthetic(");
            let q = crate::text_util::debug_quoted(n.as_str());
            crate::text_util::push_str(&mut out, q.as_str());
            crate::text_util::push_str(&mut out, ")");
            out
        },
        FontSource::Memory { digest } => {
            let mut out = String::from_str("Memory { digest: ");
            let d = crate::text_util::u64_to_decimal(*digest);
            crate::text_util::push_str(&mut out, d.as_str());
            crate::text_util::push_str(&mut out, " }");
            out
        },
        FontSource::SystemPath(p) => {
            let mut out = String::from_str("SystemPath(");
            let q = crate::text_util::debug_quoted(p.as_str());
            crate::text_util::push_str(&mut out, q.as_str());
            crate::text_util::push_str(&mut out, ")");
            out
        },
    }
}

/// One line of the database dump.
pub open spec fn face_line(f: FontFace) -> Seq<char> {
    "face="@ + crate::text_util::decimal(f.id.0 as nat) + " family="@ + crate::text_util::str_debug(
        f.family@,
    ) + " weight="@ + crate::text_util::decimal(f.weight as nat) + " slant="@ + slant_name(f.slant)
        + " scripts="@ + scripts_text(f.scripts@) + " upem="@ + crate::text_util::decimal(
        f.units_per_em as nat,
    ) + " source="@ + source_text(f.source) + "\n"@
}

/// The dump of the first `n` faces.
pub open spec fn faces_dump(faces: Seq<FontFace>, n: int) -> Seq<char>
    decreases n,
{
    if n <= 0 {
        "#font-database\n"@
    } else {
        faces_dump(faces, n - 1) + face_line(faces[n - 1])
    }
}

fn face_line_string(face: &FontFace) -> (r: String)
    ensures
        r@ == face_line(*face),
{
    let mut out = String::from_str("face=");
    let id = crate::text_util::u64_to_decimal(face.id.0 as u64);
    crate::text_util::push_str(&mut out, id.as_str());
    crate::text_util::push_str(&mut out, " family=");
    let family = crate::text_util::debug_quoted(face.family.as_str());
    crate::text_util::push_str(&mut out, family.as_str());
    crate::text_util::push_str(&mut out, " weight=");
    let weight = crate::text_util::u64_to_decimal(face.weight as u64);
    crate::text_util::push_str(&mut out, weight.as_str());
    crate::text_util::push_str(&mut out, " slant=");
    let slant = slant_debug(face.slant);
    crate::text_util::push_str(&mut out, slant.as_str());
    crate::text_util::push_str(&mut out, " scripts=");
    let scripts = scripts_debug(&face.scripts);
    crate::text_util::push_str(&mut out, scripts.as_str());
    crate::text_util::push_str(&mut out, " upem=");
    let upem = crate::text_util::u64_to_decimal(face.units_per_em as u64);
    crate::text_util::push_str(&mut out, upem.as_str());
    crate::text_util::push_str(&mut out, " source=");
    let source = source_debug(&face.source);
    crate::text_util::push_str(&mut out, source.as_str());
    crate::text_util::push_str(&mut out, "\n");
    out
}

impl FontDatabase {
    /// A stable text listing of the registered faces.
    pub fn dump(&self) -> (r: String)
        ensures
            r@ == faces_dump(self.spec_faces(), self.spec_faces().len() as int),
    {
        let mut out = String::from_str("#font-database\n");
        let mut i: usize = 0;
        while i < self.faces.len()
            invariant
                i <= self.faces@.len(),
                out@ == faces_dump(self.faces@, i as int),
            decreases self.faces@.len() - i,
        {
            let line = face_line_string(&self.faces[i]);
            crate::text_util::push_str(&mut out, line.as_str());
            i += 1;
        }
        out
    }
}

} // verus!
