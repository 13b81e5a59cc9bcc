//! Cascade origins and the small records of the style system.
use vstd::prelude::*;

verus! {

/// Where a style sheet comes from.
#[derive(Clone, Copy, Debug, PartialEq, Eq, Structural)]
pub enum CascadeOrigin {
    UserAgent,
    User,
    Author,
}

/// A rule that could not be used, with its place.
#[derive(Clone, Debug, PartialEq, Eq)]
pub struct StyleDiagnostic {
    pub stylesheet_index: usize,
    pub rule_source_order: usize,
    pub message: String,
}

/// How often computed styles were shared between elements.
#[derive(Clone, Copy, Debug, PartialEq, Eq, Structural)]
pub struct StyleSharingMetrics {
    pub hits: u64,
    pub misses: u64,
    pub unique_styles: usize,
    pub shared_elements: usize,
}

impl Default for StyleSharingMetrics {
    fn default() -> (r: Self)
        ensures
            r == (StyleSharingMetrics { hits: 0, misses: 0, unique_styles: 0, shared_elements: 0 }),
    {
        StyleSharingMetrics { hits: 0, misses: 0, unique_styles: 0, shared_elements: 0 }
    }
}

/// How much of a subtree needs restyling.
#[derive(Clone, Copy, Debug, PartialEq, Eq, Structural, PartialOrd, Ord)]
pub enum DirtyFlag {
    Clean,
    SelfOnly,
    Subtree,
}

impl Default for DirtyFlag {
    fn default() -> (r: Self)
        ensures
            r == DirtyFlag::Clean,
    {
        DirtyFlag::Clean
    }
}

/// Rank of a declaration's origin and importance: normal declarations rank
/// user agent, user, author from low to high, and important ones above them
/// in the reverse order.
pub open spec fn spec_origin_rank(origin: CascadeOrigin, important: bool) -> u8 {
    match (important, origin) {
        (false, CascadeOrigin::UserAgent) => 0,
        (false, CascadeOrigin::User) => 1,
        (false, CascadeOrigin::Author) => 2,
        (true, CascadeOrigin::Author) => 3,
        (true, CascadeOrigin::User) => 4,
        (true, CascadeOrigin::UserAgent) => 5,
    }
}

/// The cascade rank of a declaration's origin and importance.
pub fn origin_and_importance_rank(origin: CascadeOrigin, important: bool) -> (r: u8)
    ensures
        r == spec_origin_rank(origin, important),
{
    match (important, origin) {
        (false, CascadeOrigin::UserAgent) => 0,
        (false, CascadeOrigin::User) => 1,
        (false, CascadeOrigin::Author) => 2,
        (true, CascadeOrigin::Author) => 3,
        (true, CascadeOrigin::User) => 4,
        (true, CascadeOrigin::UserAgent) => 5,
    }
}

pub open spec fn origin_order(origin: CascadeOrigin) -> int {
    match origin {
        CascadeOrigin::UserAgent => 0,
        CascadeOrigin::User => 1,
        CascadeOrigin::Author => 2,
    }
}

/// Every important declaration outranks every normal one; among normal
/// declarations a later origin (user agent, user, author) wins, and among
/// important ones the order of origins is reversed. Each pair of origin and
/// importance has its own rank.
pub proof fn law_importance_reverses_origin_order(
    a: CascadeOrigin,
    b: CascadeOrigin,
    important_a: bool,
    important_b: bool,
)
    ensures
        important_a && !important_b ==> spec_origin_rank(a, important_a) > spec_origin_rank(
            b,
            important_b,
        ),
        !important_a && !important_b ==> (spec_origin_rank(a, false) < spec_origin_rank(b, false)
            <==> origin_order(a) < origin_order(b)),
        important_a && important_b ==> (spec_origin_rank(a, true) < spec_origin_rank(b, true)
            <==> origin_order(a) > origin_order(b)),
        spec_origin_rank(a, important_a) == spec_origin_rank(b, important_b) ==> a == b
            && important_a == important_b,
{
}

} // verus!

verus! {

/// Selector specificity: id, class and type selector counts.
#[derive(Clone, Copy, Debug, PartialEq, Eq, Structural)]
pub struct Specificity {
    pub ids: u32,
    pub classes: u32,
    pub types: u32,
}

/// Where a declaration stands in the cascade: origin and importance, then
/// selector specificity, then style sheet, rule and declaration order.
#[derive(Clone, Copy, Debug, PartialEq, Eq, Structural)]
pub struct CascadePriority {
    pub origin_and_importance: u8,
    pub specificity: Specificity,
    pub stylesheet_order: usize,
    pub rule_source_order: usize,
    pub declaration_order: usize,
}

/// Lexicographic order of priorities, field by field.
pub open spec fn priority_lt(a: CascadePriority, b: CascadePriority) -> bool {
    if a.origin_and_importance != b.origin_and_importance {
        a.origin_and_importance < b.origin_and_importance
    } else if a.specificity.ids != b.specificity.ids {
        a.specificity.ids < b.specificity.ids
    } else if a.specificity.classes != b.specificity.classes {
        a.specificity.classes < b.specificity.classes
    } else if a.specificity.types != b.specificity.types {
        a.specificity.types < b.specificity.types
    } else if a.stylesheet_order != b.stylesheet_order {
        a.stylesheet_order < b.stylesheet_order
    } else if a.rule_source_order != b.rule_source_order {
        a.rule_source_order < b.rule_source_order
    } else {
        a.declaration_order < b.declaration_order
    }
}

/// Whether `a` ranks at least as high as `b`.
pub fn priority_ge(a: &CascadePriority, b: &CascadePriority) -> (r: bool)
    ensures
        r == !priority_lt(*a, *b),
{
    if a.origin_and_importance != b.origin_and_importance {
        a.origin_and_importance > b.origin_and_importance
    } else if a.specificity.ids != b.specificity.ids {
        a.specificity.ids > b.specificity.ids
    } else if a.specificity.classes != b.specificity.classes {
        a.specificity.classes > b.specificity.classes
    } else if a.specificity.types != b.specificity.types {
        a.specificity.types > b.specificity.types
    } else if a.stylesheet_order != b.stylesheet_order {
        a.stylesheet_order > b.stylesheet_order
    } else if a.rule_source_order != b.rule_source_order {
        a.rule_source_order > b.rule_source_order
    } else {
        a.declaration_order >= b.declaration_order
    }
}

/// What a cascade winner is the winner for: a property, or a custom property by name.
#[derive(Clone, Debug, PartialEq, Eq)]
pub enum WinnerKey {
    Property(u64),
    Custom(String),
}

pub enum KeyModel {
    Property(u64),
    Custom(Seq<char>),
}

pub open spec fn key_model(k: WinnerKey) -> KeyModel {
    match k {
        WinnerKey::Property(p) => KeyModel::Property(p),
        WinnerKey::Custom(s) => KeyModel::Custom(s@),
    }
}

fn key_eq(a: &WinnerKey, b: &WinnerKey) -> (r: bool)
    ensures
        r == (key_model(*a) == key_model(*b)),
{
    match (a, b) {
        (WinnerKey::Property(x), WinnerKey::Property(y)) => *x == *y,
        (WinnerKey::Custom(x), WinnerKey::Custom(y)) => crate::text_util::str_equal(x.as_str(), y.as_str()),
        _ => false,
    }
}

/// One declaration competing in the cascade.
#[derive(Clone, Debug)]
pub struct Candidate {
    pub key: WinnerKey,
    pub priority: CascadePriority,
    pub value: String,
}

/// A cascade winner as plain values: its priority and its value.
pub struct WinnerModel {
    pub priority: CascadePriority,
    pub value: Seq<char>,
}

/// The winners after the first `n` candidates: a candidate replaces the
/// winner for its key when it ranks at least as high.
pub open spec fn winners_after(cs: Seq<CandidateModel>, n: int) -> Map<KeyModel, WinnerModel>
    decreases n,
{
    if n <= 0 {
        Map::empty()
    } else {
        let prev = winners_after(cs, n - 1);
        let c = cs[n - 1];
        let k = c.key;
        if !prev.contains_key(k) || !priority_lt(c.priority, prev[k].priority) {
            prev.insert(k, WinnerModel { priority: c.priority, value: c.value })
        } else {
            prev
        }
    }
}

/// The cascade winners, one entry per key.
pub struct Winners {
    pub entries: Vec<(WinnerKey, CascadePriority, String)>,
}

pub open spec fn winners_model(es: Seq<(WinnerKey, CascadePriority, String)>) -> Map<KeyModel, WinnerModel> {
    Map::new(
        |k: KeyModel| exists|i: int| 0 <= i < es.len() && key_model(es[i].0) == k,
        |k: KeyModel| {
            let i = choose|i: int| 0 <= i < es.len() && key_model(es[i].0) == k;
            WinnerModel { priority: es[i].1, value: es[i].2@ }
        },
    )
}

pub open spec fn keys_unique(es: Seq<(WinnerKey, CascadePriority, String)>) -> bool {
    forall|i: int, j: int| 0 <= i < j < es.len() ==> key_model(es[i].0) != key_model(es[j].0)
}

proof fn lemma_winners_model_at(es: Seq<(WinnerKey, CascadePriority, String)>, i: int)
    requires
        keys_unique(es),
        0 <= i < es.len(),
    ensures
        winners_model(es).contains_key(key_model(es[i].0)),
        winners_model(es)[key_model(es[i].0)] == (WinnerModel { priority: es[i].1, value: es[i].2@ }),
{
    let k = key_model(es[i].0);
    assert(winners_model(es).contains_key(k));
    let j = choose|j: int| 0 <= j < es.len() && key_model(es[j].0) == k;
    if j != i {
        if j < i {
            assert(key_model(es[j].0) != key_model(es[i].0));
        } else {
            assert(key_model(es[i].0) != key_model(es[j].0));
        }
    }
}

fn clone_key(k: &WinnerKey) -> (r: WinnerKey)
    ensures
        key_model(r) == key_model(*k),
{
    match k {
        WinnerKey::Property(p) => WinnerKey::Property(*p),
        WinnerKey::Custom(s) => WinnerKey::Custom(s.clone()),
    }
}

/// Lets `candidate` compete for its key.
#[verifier::rlimit(40)]
#[verifier::spinoff_prover]
pub fn insert_winner(winners: &mut Winners, candidate: &Candidate)
    requires
        keys_unique(old(winners).entries@),
    ensures
        keys_unique(final(winners).entries@),
        winners_model(final(winners).entries@) == ({
            let prev = winners_model(old(winners).entries@);
            let k = key_model(candidate.key);
            if !prev.contains_key(k) || !priority_lt(candidate.priority, prev[k].priority) {
                prev.insert(k, WinnerModel { priority: candidate.priority, value: candidate.value@ })
            } else {
                prev
            }
        }),
{
    let ghost o = winners.entries@;
    let ghost k = key_model(candidate.key);
    let mut i: usize = 0;
    while i < winners.entries.len()
        invariant
            i <= winners.entries@.len(),
            winners.entries@ == o,
            o == old(winners).entries@,
            keys_unique(o),
            forall|j: int| 0 <= j < i ==> key_model(o[j].0) != k,
            k == key_model(candidate.key),
        decreases winners.entries@.len() - i,
    {
        if key_eq(&winners.entries[i].0, &candidate.key) {
            proof {
                lemma_winners_model_at(o, i as int);
            }
            if priority_ge(&candidate.priority, &winners.entries[i].1) {
                let key = clone_key(&candidate.key);
                winners.entries.set(i, (key, candidate.priority, candidate.value.clone()));
                proof {
                    let n = winners.entries@;
                    assert(key_model(n[i as int].0) == key_model(o[i as int].0));
                    assert(forall|a: int| 0 <= a < n.len() && a != i ==> n[a] == o[a]);
                    assert(keys_unique(n)) by {
                        assert forall|a: int, b: int| 0 <= a < b < n.len() implies key_model(n[a].0)
                            != key_model(n[b].0) by {
                            assert(key_model(n[a].0) == key_model(o[a].0));
                            assert(key_model(n[b].0) == key_model(o[b].0));
                        }
                    }
                    let expected = winners_model(o).insert(k, WinnerModel { priority: candidate.priority, value: candidate.value@ });
                    assert(winners_model(n) =~= expected) by {
                        assert forall|m: KeyModel| #[trigger] winners_model(n).contains_key(m) == expected.contains_key(m) by {
                            if winners_model(o).contains_key(m) {
                                let j = choose|j: int| 0 <= j < o.len() && key_model(o[j].0) == m;
                                assert(key_model(n[j].0) == m);
                            }
                            if winners_model(n).contains_key(m) {
                                let j = choose|j: int| 0 <= j < n.len() && key_model(n[j].0) == m;
                                assert(key_model(o[j].0) == m);
                            }
                        }
                        assert forall|m: KeyModel| winners_model(n).contains_key(m) implies #[trigger] winners_model(n)[m] == expected[m] by {
                            let j = choose|j: int| 0 <= j < n.len() && key_model(n[j].0) == m;
                            lemma_winners_model_at(n, j);
                            if m != k {
                                lemma_winners_model_at(o, j);
                            }
                        }
                    }
                    assert(winners_model(o).contains_key(k));
                    assert(winners_model(n) == winners_model(o).insert(k, WinnerModel { priority: candidate.priority, value: candidate.value@ }));
                }
            } else {
                assert(winners_model(o).contains_key(k));
                assert(priority_lt(candidate.priority, winners_model(o)[k].priority));
            }
            return;
        }
        i += 1;
    }
    let key = clone_key(&candidate.key);
    winners.entries.push((key, candidate.priority, candidate.value.clone()));
    proof {
        let n = winners.entries@;
        assert(!winners_model(o).contains_key(k));
        assert(keys_unique(n)) by {
            assert forall|a: int, b: int| 0 <= a < b < n.len() implies key_model(n[a].0) != key_model(n[b].0) by {
                if b == n.len() - 1 {
                    assert(n[a] == o[a]);
                } else {
                    assert(n[a] == o[a]);
                    assert(n[b] == o[b]);
                }
            }
        }
        let expected = winners_model(o).insert(k, WinnerModel { priority: candidate.priority, value: candidate.value@ });
        assert(winners_model(n) =~= expected) by {
            assert forall|m: KeyModel| #[trigger] winners_model(n).contains_key(m) == expected.contains_key(m) by {
                if winners_model(o).contains_key(m) {
                    let j = choose|j: int| 0 <= j < o.len() && key_model(o[j].0) == m;
                    assert(n[j] == o[j]);
                }
                if m == k {
                    assert(key_model(n[n.len() - 1].0) == m);
                }
                if winners_model(n).contains_key(m) && m != k {
                    let j = choose|j: int| 0 <= j < n.len() && key_model(n[j].0) == m;
                    assert(n[j] == o[j]);
                }
            }
            assert forall|m: KeyModel| winners_model(n).contains_key(m) implies #[trigger] winners_model(n)[m] == expected[m] by {
                let j = choose|j: int| 0 <= j < n.len() && key_model(n[j].0) == m;
                lemma_winners_model_at(n, j);
                if m != k {
                    assert(n[j] == o[j]);
                    lemma_winners_model_at(o, j);
                }
            }
        }
    }
}

/// The cascade winners of candidates visited in order.
pub fn select_winners(candidates: &[Candidate]) -> (r: Winners)
    ensures
        keys_unique(r.entries@),
        winners_model(r.entries@) == winners_after(
            Seq::new(candidates@.len(), |i: int| candidate_model(candidates@[i])),
            candidates@.len() as int,
        ),
{
    let mut w = Winners { entries: Vec::new() };
    assert(winners_model(w.entries@) =~= Map::<KeyModel, WinnerModel>::empty());
    let mut i: usize = 0;
    while i < candidates.len()
        invariant
            i <= candidates@.len(),
            keys_unique(w.entries@),
            winners_model(w.entries@) == winners_after(
                Seq::new(candidates@.len(), |j: int| candidate_model(candidates@[j])),
                i as int,
            ),
        decreases candidates@.len() - i,
    {
        insert_winner(&mut w, &candidates[i]);
        i += 1;
    }
    w
}

} // verus!

verus! {

proof fn lemma_priority_order(a: CascadePriority, b: CascadePriority, c: CascadePriority)
    ensures
        !(priority_lt(a, b) && priority_lt(b, a)),
        !priority_lt(a, a),
        priority_lt(a, b) && priority_lt(b, c) ==> priority_lt(a, c),
        !priority_lt(a, b) && !priority_lt(b, c) ==> !priority_lt(a, c),
{
}

/// The cascade picks, for each key that some candidate has, a candidate of
/// that key that no candidate of the key outranks; among candidates of equal
/// priority the last one wins, so every later candidate of the key ranks lower.
pub proof fn law_winner_outranks_its_competitors(cs: Seq<CandidateModel>, n: int, k: KeyModel)
    requires
        0 <= n <= cs.len(),
    ensures
        winners_after(cs, n).contains_key(k) <==> exists|j: int| 0 <= j < n && cs[j].key == k,
        winners_after(cs, n).contains_key(k) ==> {
            let w = winners_after(cs, n)[k];
            &&& forall|j: int|
                0 <= j < n && cs[j].key == k ==> !priority_lt(w.priority, #[trigger] cs[j].priority)
            &&& exists|j: int|
                0 <= j < n && cs[j].key == k && w.priority == cs[j].priority && w.value
                    == cs[j].value && forall|l: int|
                    j < l < n && cs[l].key == k ==> priority_lt(#[trigger] cs[l].priority, w.priority)
        },
    decreases n,
{
    if n > 0 {
        law_winner_outranks_its_competitors(cs, n - 1, k);
        let prev = winners_after(cs, n - 1);
        let c = cs[n - 1];
        let cur = winners_after(cs, n);
        if c.key == k {
            if !prev.contains_key(k) || !priority_lt(c.priority, prev[k].priority) {
                let w = cur[k];
                assert(w.priority == c.priority);
                assert forall|j: int| 0 <= j < n && cs[j].key == k implies !priority_lt(
                    w.priority,
                    #[trigger] cs[j].priority,
                ) by {
                    if j < n - 1 {
                        lemma_priority_order(c.priority, prev[k].priority, cs[j].priority);
                    } else {
                        lemma_priority_order(c.priority, c.priority, c.priority);
                    }
                }
                assert(0 <= n - 1 < n && cs[n - 1].key == k && w.priority == cs[n - 1].priority
                    && w.value == cs[n - 1].value);
            } else {
                let w = prev[k];
                assert(cur[k] == w);
                let j0 = choose|j: int|
                    0 <= j < n - 1 && cs[j].key == k && w.priority == cs[j].priority && w.value
                        == cs[j].value && forall|l: int|
                        j < l < n - 1 && cs[l].key == k ==> priority_lt(#[trigger] cs[l].priority, w.priority);
                assert forall|l: int| j0 < l < n && cs[l].key == k implies priority_lt(
                    #[trigger] cs[l].priority,
                    w.priority,
                ) by {}
                assert forall|j: int| 0 <= j < n && cs[j].key == k implies !priority_lt(
                    w.priority,
                    #[trigger] cs[j].priority,
                ) by {
                    if j == n - 1 {
                        lemma_priority_order(c.priority, w.priority, c.priority);
                    }
                }
            }
        } else {
            assert(cur.contains_key(k) == prev.contains_key(k));
            if prev.contains_key(k) {
                assert(cur[k] == prev[k]);
                let w = prev[k];
                let j0 = choose|j: int|
                    0 <= j < n - 1 && cs[j].key == k && w.priority == cs[j].priority && w.value
                        == cs[j].value && forall|l: int|
                        j < l < n - 1 && cs[l].key == k ==> priority_lt(#[trigger] cs[l].priority, w.priority);
                assert forall|l: int| j0 < l < n && cs[l].key == k implies priority_lt(
                    #[trigger] cs[l].priority,
                    w.priority,
                ) by {}
            }
        }
    }
}

} // verus!

use crate::text_util::{trim_class, TrimClass};

verus! {

/// One declaration of a rule: its name, value and importance, and the
/// longhand properties and values that parsing it gave (none for a custom
/// property).
#[derive(Clone, Debug)]
pub struct Declaration {
    pub name: String,
    pub value: String,
    pub important: bool,
    pub expanded: Vec<(u64, String)>,
}

/// A style rule with the highest specificity among its selectors that match
/// the element, if any does.
#[derive(Clone, Debug)]
pub struct MatchedRule {
    pub origin: CascadeOrigin,
    pub specificity: Option<Specificity>,
    pub stylesheet_order: usize,
    pub rule_source_order: usize,
    pub declarations: Vec<Declaration>,
}

pub open spec fn is_custom_name(name: Seq<char>) -> bool {
    name.len() >= 2 && name[0] == '-' && name[1] == '-'
}

pub struct CandidateModel {
    pub key: KeyModel,
    pub priority: CascadePriority,
    pub value: Seq<char>,
}

pub open spec fn candidate_model(c: Candidate) -> CandidateModel {
    CandidateModel { key: key_model(c.key), priority: c.priority, value: c.value@ }
}

/// The candidates of the longhands of one declaration.
pub open spec fn expanded_candidates(es: Seq<(u64, String)>, p: CascadePriority) -> Seq<CandidateModel> {
    Seq::new(es.len(), |i: int| CandidateModel { key: KeyModel::Property(es[i].0), priority: p, value: es[i].1@ })
}

/// The candidates of one declaration at position `i` of a matching rule.
pub open spec fn declaration_candidates(r: MatchedRule, s: Specificity, i: int) -> Seq<CandidateModel> {
    let d = r.declarations@[i];
    let p = CascadePriority {
        origin_and_importance: spec_origin_rank(r.origin, d.important),
        specificity: s,
        stylesheet_order: r.stylesheet_order,
        rule_source_order: r.rule_source_order,
        declaration_order: i as usize,
    };
    if is_custom_name(d.name@) {
        let v = trim_class(d.value@, TrimClass::Whitespace);
        if v.len() > 0 {
            seq![CandidateModel { key: KeyModel::Custom(d.name@), priority: p, value: v }]
        } else {
            Seq::empty()
        }
    } else {
        expanded_candidates(d.expanded@, p)
    }
}

pub open spec fn rule_candidates(r: MatchedRule, n: int) -> Seq<CandidateModel>
    decreases n,
{
    if n <= 0 {
        Seq::empty()
    } else {
        match r.specificity {
            Some(s) => rule_candidates(r, n - 1) + declaration_candidates(r, s, n - 1),
            None => Seq::empty(),
        }
    }
}

/// Every candidate of the matching rules, rule by rule, declaration by declaration.
pub open spec fn all_candidates(rules: Seq<MatchedRule>) -> Seq<CandidateModel>
    decreases rules.len(),
{
    if rules.len() == 0 {
        Seq::empty()
    } else {
        all_candidates(rules.drop_last()) + rule_candidates(rules.last(), rules.last().declarations@.len() as int)
    }
}

fn push_candidate(out: &mut Vec<Candidate>, c: Candidate)
    ensures
        final(out)@ == old(out)@.push(c),
{
    out.push(c);
}

/// The declarations of the matching rules as cascade candidates; custom
/// properties keep their trimmed value, and are dropped when it is empty.
pub fn cascade_candidates(rules: &[MatchedRule]) -> (r: Vec<Candidate>)
    ensures
        Seq::new(r@.len(), |i: int| candidate_model(r@[i])) == all_candidates(rules@),
{
    let mut out: Vec<Candidate> = Vec::new();
    let mut ri: usize = 0;
    assert(Seq::new(out@.len(), |i: int| candidate_model(out@[i])) =~= all_candidates(rules@.take(0)));
    while ri < rules.len()
        invariant
            ri <= rules@.len(),
            Seq::new(out@.len(), |i: int| candidate_model(out@[i])) == all_candidates(rules@.take(ri as int)),
        decreases rules@.len() - ri,
    {
        let rule = &rules[ri];
        assert(rules@.take(ri + 1).drop_last() =~= rules@.take(ri as int));
        assert(rules@.take(ri + 1).last() == *rule);
        let ghost base = all_candidates(rules@.take(ri as int));
        match rule.specificity {
            None => {
                assert(rule_candidates(*rule, rule.declarations@.len() as int) =~= Seq::<CandidateModel>::empty());
                assert(base + Seq::<CandidateModel>::empty() =~= base);
            },
            Some(spec) => {
                let mut di: usize = 0;
                assert(rule_candidates(*rule, 0) =~= Seq::<CandidateModel>::empty());
                assert(base + rule_candidates(*rule, 0) =~= base);
                while di < rule.declarations.len()
                    invariant
                        di <= rule.declarations@.len(),
                        rule.specificity == Some(spec),
                        Seq::new(out@.len(), |i: int| candidate_model(out@[i])) == base + rule_candidates(*rule, di as int),
                    decreases rule.declarations@.len() - di,
                {
                    let d = &rule.declarations[di];
                    let priority = CascadePriority {
                        origin_and_importance: origin_and_importance_rank(rule.origin, d.important),
                        specificity: spec,
                        stylesheet_order: rule.stylesheet_order,
                        rule_source_order: rule.rule_source_order,
                        declaration_order: di,
                    };
                    let ghost before = Seq::new(out@.len(), |i: int| candidate_model(out@[i]));
                    let ghost expected = declaration_candidates(*rule, spec, di as int);
                    let name_chars = crate::text_util::str_to_chars(d.name.as_str());
                    if name_chars.len() >= 2 && name_chars[0] == '-' && name_chars[1] == '-' {
                        let value_chars = crate::text_util::str_to_chars(d.value.as_str());
                        let trimmed = crate::text_util::trim_chars(value_chars.as_slice(), TrimClass::Whitespace);
                        if trimmed.len() > 0 {
                            let value = crate::text_util::chars_to_string(trimmed.as_slice());
                            let c = Candidate { key: WinnerKey::Custom(d.name.clone()), priority, value };
                            push_candidate(&mut out, c);
                        }
                        assert(Seq::new(out@.len(), |i: int| candidate_model(out@[i])) =~= before + expected);
                    } else {
                        let mut e: usize = 0;
                        while e < d.expanded.len()
                            invariant
                                e <= d.expanded@.len(),
                                Seq::new(out@.len(), |i: int| candidate_model(out@[i])) == before
                                    + expanded_candidates(d.expanded@, priority).take(e as int),
                            decreases d.expanded@.len() - e,
                        {
                            let c = Candidate {
                                key: WinnerKey::Property(d.expanded[e].0),
                                priority,
                                value: d.expanded[e].1.clone(),
                            };
                            let ghost prevm = Seq::new(out@.len(), |i: int| candidate_model(out@[i]));
                            assert(candidate_model(c) == expanded_candidates(d.expanded@, priority)[e as int]);
                            push_candidate(&mut out, c);
                            assert(Seq::new(out@.len(), |i: int| candidate_model(out@[i])) =~= prevm.push(candidate_model(c)));
                            assert(expanded_candidates(d.expanded@, priority).take(e + 1) =~= expanded_candidates(d.expanded@, priority).take(e as int).push(expanded_candidates(d.expanded@, priority)[e as int]));
                            assert(Seq::new(out@.len(), |i: int| candidate_model(out@[i])) =~= before
                                + expanded_candidates(d.expanded@, priority).take(e + 1));
                            e += 1;
                        }
                        assert(expanded_candidates(d.expanded@, priority).take(d.expanded@.len() as int)
                            =~= expected);
                    }
                    assert(base + rule_candidates(*rule, di + 1) =~= base + rule_candidates(*rule, di as int) + expected);
                    di += 1;
                }
            },
        }
        ri += 1;
    }
    assert(rules@.take(rules@.len() as int) =~= rules@);
    out
}

} // verus!

verus! {

/// The cascade winners of an element: each property and custom property
/// gets the highest-ranking declaration of the matching rules, the later
/// one among equals.
pub fn cascade_for_element(rules: &[MatchedRule]) -> (r: Winners)
    ensures
        keys_unique(r.entries@),
        winners_model(r.entries@) == winners_after(all_candidates(rules@), all_candidates(rules@).len() as int),
{
    let candidates = cascade_candidates(rules);
    select_winners(candidates.as_slice())
}

} // verus!

verus! {

/// Which selector features the style sheets use, deciding how far a DOM
/// change can reach.
#[derive(Clone, Copy, Debug, PartialEq, Eq, Structural)]
pub struct SelectorDependencies {
    pub ancestor_combinator: bool,
    pub next_sibling_combinator: bool,
    pub subsequent_sibling_combinator: bool,
    pub empty_pseudo: bool,
    pub structural_pseudo: bool,
}

/// What a DOM mutation changed.
#[derive(Clone, Copy, Debug, PartialEq, Eq, Structural)]
pub enum MutationKind {
    Attributes,
    CharacterData,
    ChildList,
}

pub open spec fn flag_rank(f: DirtyFlag) -> int {
    match f {
        DirtyFlag::Clean => 0,
        DirtyFlag::SelfOnly => 1,
        DirtyFlag::Subtree => 2,
    }
}

pub open spec fn flag_max(a: DirtyFlag, b: DirtyFlag) -> DirtyFlag {
    if flag_rank(a) >= flag_rank(b) {
        a
    } else {
        b
    }
}

fn flag_max_exec(a: DirtyFlag, b: DirtyFlag) -> (r: DirtyFlag)
    ensures
        r == flag_max(a, b),
{
    let ra: u8 = match a {
        DirtyFlag::Clean => 0,
        DirtyFlag::SelfOnly => 1,
        DirtyFlag::Subtree => 2,
    };
    let rb: u8 = match b {
        DirtyFlag::Clean => 0,
        DirtyFlag::SelfOnly => 1,
        DirtyFlag::Subtree => 2,
    };
    if ra >= rb {
        a
    } else {
        b
    }
}

/// Dirty flags by element, ordered by node.
#[derive(Clone, Debug)]
pub struct DirtyMap {
    entries: Vec<(u64, DirtyFlag)>,
}

pub open spec fn flags_sorted(es: Seq<(u64, DirtyFlag)>) -> bool {
    forall|i: int, j: int| 0 <= i < j < es.len() ==> es[i].0 < es[j].0
}

pub open spec fn flags_map(es: Seq<(u64, DirtyFlag)>) -> Map<u64, DirtyFlag> {
    Map::new(
        |n: u64| exists|i: int| 0 <= i < es.len() && es[i].0 == n,
        |n: u64| es[choose|i: int| 0 <= i < es.len() && es[i].0 == n].1,
    )
}

proof fn lemma_flags_at(es: Seq<(u64, DirtyFlag)>, i: int)
    requires
        flags_sorted(es),
        0 <= i < es.len(),
    ensures
        flags_map(es).contains_key(es[i].0),
        flags_map(es)[es[i].0] == es[i].1,
{
    assert(flags_map(es).contains_key(es[i].0));
    let j = choose|j: int| 0 <= j < es.len() && es[j].0 == es[i].0;
    if j < i {
        assert(es[j].0 < es[i].0);
    } else if j > i {
        assert(es[i].0 < es[j].0);
    }
}

impl View for DirtyMap {
    type V = Map<u64, DirtyFlag>;

    closed spec fn view(&self) -> Map<u64, DirtyFlag> {
        flags_map(self.entries@)
    }
}

impl DirtyMap {
    pub closed spec fn wf(&self) -> bool {
        flags_sorted(self.entries@)
    }

    /// No element is dirty.
    pub fn new() -> (r: Self)
        ensures
            r.wf(),
            r@ == Map::<u64, DirtyFlag>::empty(),
    {
        let r = DirtyMap { entries: Vec::new() };
        assert(r@ =~= Map::<u64, DirtyFlag>::empty());
        r
    }

    /// The entries in node order.
    pub fn entries(&self) -> (r: &[(u64, DirtyFlag)])
        requires
            self.wf(),
        ensures
            flags_map(r@) == self@,
            flags_sorted(r@),
    {
        self.entries.as_slice()
    }

    /// Sets the flag of `node`, or merges it with the flag already there.
    #[verifier::rlimit(40)]
    #[verifier::spinoff_prover]
    fn upsert(&mut self, node: u64, flag: DirtyFlag, merge: bool)
        requires
            old(self).wf(),
        ensures
            final(self).wf(),
            final(self)@ == old(self)@.insert(
                node,
                if merge && old(self)@.contains_key(node) {
                    flag_max(old(self)@[node], flag)
                } else {
                    flag
                },
            ),
    {
        let ghost o = self.entries@;
        let mut i: usize = 0;
        while i < self.entries.len() && self.entries[i].0 < node
            invariant
                i <= self.entries@.len(),
                self.entries@ == o,
                forall|j: int| 0 <= j < i ==> o[j].0 < node,
            decreases self.entries@.len() - i,
        {
            i += 1;
        }
        if i < self.entries.len() && self.entries[i].0 == node {
            proof {
                lemma_flags_at(o, i as int);
            }
            let v = if merge { flag_max_exec(self.entries[i].1, flag) } else { flag };
            self.entries.set(i, (node, v));
            proof {
                let n = self.entries@;
                assert(forall|a: int| 0 <= a < n.len() && a != i ==> n[a] == o[a]);
                assert forall|a: int, b: int| 0 <= a < b < n.len() implies n[a].0 < n[b].0 by {
                    assert(n[a].0 == o[a].0);
                    assert(n[b].0 == o[b].0);
                }
                let expected = flags_map(o).insert(node, v);
                assert(flags_map(n) =~= expected) by {
                    assert forall|m: u64| #[trigger] flags_map(n).contains_key(m) == expected.contains_key(m) by {
                        if flags_map(o).contains_key(m) {
                            let j = choose|j: int| 0 <= j < o.len() && o[j].0 == m;
                            assert(n[j].0 == m);
                        }
                        if flags_map(n).contains_key(m) {
                            let j = choose|j: int| 0 <= j < n.len() && n[j].0 == m;
                            assert(o[j].0 == m);
                        }
                    }
                    assert forall|m: u64| flags_map(n).contains_key(m) implies #[trigger] flags_map(n)[m] == expected[m] by {
                        let j = choose|j: int| 0 <= j < n.len() && n[j].0 == m;
                        lemma_flags_at(n, j);
                        if m != node {
                            lemma_flags_at(o, j);
                        }
                    }
                }
            }
        } else {
            self.entries.insert(i, (node, flag));
            proof {
                let n = self.entries@;
                assert(forall|j: int| i <= j < o.len() ==> o[j].0 > node) by {
                    assert forall|j: int| i <= j < o.len() implies o[j].0 > node by {
                        if j > i {
                            assert(o[i as int].0 < o[j].0);
                        }
                    }
                }
                assert(!flags_map(o).contains_key(node)) by {
                    if flags_map(o).contains_key(node) {
                        let j = choose|j: int| 0 <= j < o.len() && o[j].0 == node;
                    }
                }
                assert forall|a: int, b: int| 0 <= a < b < n.len() implies n[a].0 < n[b].0 by {
                    if b < i {
                    } else if a < i && b == i {
                    } else if a < i {
                        assert(n[b] == o[b - 1]);
                    } else if a == i {
                        assert(n[b] == o[b - 1]);
                    } else {
                        assert(n[a] == o[a - 1]);
                        assert(n[b] == o[b - 1]);
                    }
                }
                let expected = flags_map(o).insert(node, flag);
                assert(flags_map(n) =~= expected) by {
                    assert forall|m: u64| #[trigger] flags_map(n).contains_key(m) == expected.contains_key(m) by {
                        if m == node {
                            assert(n[i as int].0 == node);
                        }
                        if flags_map(o).contains_key(m) {
                            let j = choose|j: int| 0 <= j < o.len() && o[j].0 == m;
                            if j < i {
                                assert(n[j].0 == m);
                            } else {
                                assert(n[j + 1].0 == m);
                            }
                        }
                        if flags_map(n).contains_key(m) && m != node {
                            let j = choose|j: int| 0 <= j < n.len() && n[j].0 == m;
                            if j < i {
                                assert(o[j].0 == m);
                            } else {
                                assert(j != i);
                                assert(o[j - 1].0 == m);
                            }
                        }
                    }
                    assert forall|m: u64| flags_map(n).contains_key(m) implies #[trigger] flags_map(n)[m] == expected[m] by {
                        let j = choose|j: int| 0 <= j < n.len() && n[j].0 == m;
                        lemma_flags_at(n, j);
                        if m != node {
                            if j < i {
                                assert(n[j] == o[j]);
                                lemma_flags_at(o, j);
                            } else {
                                assert(n[j] == o[j - 1]);
                                lemma_flags_at(o, j - 1);
                            }
                        }
                    }
                }
            }
        }
    }

    /// Marks `root` with `flag`, and, for a subtree flag, its descendants as
    /// needing at least their own restyle; flags never decrease.
    pub fn mark_dirty(&mut self, root: u64, flag: DirtyFlag, descendants: &[u64])
        requires
            old(self).wf(),
        ensures
            final(self).wf(),
            final(self)@ == spec_mark_dirty(old(self)@, root, flag, descendants@),
    {
        self.upsert(root, flag, true);
        if flag == DirtyFlag::Subtree {
            let mut i: usize = 0;
            while i < descendants.len()
                invariant
                    i <= descendants@.len(),
                    self.wf(),
                    self@ == mark_descendants(
                        old(self)@.insert(
                            root,
                            if old(self)@.contains_key(root) {
                                flag_max(old(self)@[root], flag)
                            } else {
                                flag
                            },
                        ),
                        descendants@,
                        i as int,
                    ),
                decreases descendants@.len() - i,
            {
                self.upsert(descendants[i], DirtyFlag::SelfOnly, true);
                i += 1;
            }
        }
    }
}

/// Descendants marked for at least their own restyle.
pub open spec fn mark_descendants(m: Map<u64, DirtyFlag>, ds: Seq<u64>, n: int) -> Map<u64, DirtyFlag>
    decreases n,
{
    if n <= 0 {
        m
    } else {
        let prev = mark_descendants(m, ds, n - 1);
        let d = ds[n - 1];
        prev.insert(
            d,
            if prev.contains_key(d) {
                flag_max(prev[d], DirtyFlag::SelfOnly)
            } else {
                DirtyFlag::SelfOnly
            },
        )
    }
}

/// Marking a root dirty: its flag merges by maximum; a subtree flag also
/// marks every descendant for at least its own restyle.
pub open spec fn spec_mark_dirty(m: Map<u64, DirtyFlag>, root: u64, flag: DirtyFlag, ds: Seq<u64>) -> Map<
    u64,
    DirtyFlag,
> {
    let with_root = m.insert(
        root,
        if m.contains_key(root) {
            flag_max(m[root], flag)
        } else {
            flag
        },
    );
    if flag == DirtyFlag::Subtree {
        mark_descendants(with_root, ds, ds.len() as int)
    } else {
        with_root
    }
}

/// Marking never lowers a flag nor forgets a dirty element.
pub proof fn law_marking_never_lowers_flags(m: Map<u64, DirtyFlag>, root: u64, flag: DirtyFlag, ds: Seq<u64>, n: u64)
    requires
        m.contains_key(n),
    ensures
        spec_mark_dirty(m, root, flag, ds).contains_key(n),
        flag_rank(spec_mark_dirty(m, root, flag, ds)[n]) >= flag_rank(m[n]),
{
    lemma_mark_descendants_monotone(
        m.insert(root, if m.contains_key(root) { flag_max(m[root], flag) } else { flag }),
        ds,
        ds.len() as int,
        n,
    );
}

proof fn lemma_mark_descendants_monotone(m: Map<u64, DirtyFlag>, ds: Seq<u64>, k: int, n: u64)
    requires
        m.contains_key(n),
        0 <= k <= ds.len(),
    ensures
        mark_descendants(m, ds, k).contains_key(n),
        flag_rank(mark_descendants(m, ds, k)[n]) >= flag_rank(m[n]),
    decreases k,
{
    if k > 0 {
        lemma_mark_descendants_monotone(m, ds, k - 1, n);
    }
}

} // verus!

verus! {

/// `m` with each of the first `n` nodes set to `flag`.
pub open spec fn set_all(m: Map<u64, DirtyFlag>, ks: Seq<u64>, flag: DirtyFlag, n: int) -> Map<u64, DirtyFlag>
    decreases n,
{
    if n <= 0 {
        m
    } else {
        set_all(m, ks, flag, n - 1).insert(ks[n - 1], flag)
    }
}

/// The restyle roots of a mutation of `target`: attribute changes restyle
/// the target (its subtree when ancestor combinators are used) and the
/// siblings that sibling combinators reach; text changes matter only to
/// `:empty`; child-list changes restyle the target's subtree when structural
/// pseudo-classes or sibling combinators are used, else the added elements.
pub open spec fn spec_invalidation_roots(
    deps: SelectorDependencies,
    kind: MutationKind,
    target: u64,
    next_sibling: Option<u64>,
    following: Seq<u64>,
    added: Seq<u64>,
) -> Map<u64, DirtyFlag> {
    let empty = Map::<u64, DirtyFlag>::empty();
    match kind {
        MutationKind::Attributes => {
            let m = empty.insert(
                target,
                if deps.ancestor_combinator {
                    DirtyFlag::Subtree
                } else {
                    DirtyFlag::SelfOnly
                },
            );
            if deps.subsequent_sibling_combinator {
                set_all(m, following, DirtyFlag::Subtree, following.len() as int)
            } else if deps.next_sibling_combinator && next_sibling is Some {
                m.insert(next_sibling->0, DirtyFlag::Subtree)
            } else {
                m
            }
        },
        MutationKind::CharacterData => if deps.empty_pseudo {
            empty.insert(target, DirtyFlag::SelfOnly)
        } else {
            empty
        },
        MutationKind::ChildList => {
            let sibling_sensitive = deps.next_sibling_combinator || deps.subsequent_sibling_combinator;
            if deps.structural_pseudo || sibling_sensitive {
                empty.insert(target, DirtyFlag::Subtree)
            } else {
                let m = if deps.empty_pseudo {
                    empty.insert(target, DirtyFlag::SelfOnly)
                } else {
                    empty
                };
                set_all(m, added, DirtyFlag::Subtree, added.len() as int)
            }
        },
    }
}

fn set_each(map: &mut DirtyMap, ks: &[u64], flag: DirtyFlag)
    requires
        old(map).wf(),
    ensures
        final(map).wf(),
        final(map)@ == set_all(old(map)@, ks@, flag, ks@.len() as int),
{
    let mut i: usize = 0;
    while i < ks.len()
        invariant
            i <= ks@.len(),
            map.wf(),
            map@ == set_all(old(map)@, ks@, flag, i as int),
        decreases ks@.len() - i,
    {
        map.upsert(ks[i], flag, false);
        i += 1;
    }
}

/// The restyle roots, with their flags, of one DOM mutation.
pub fn invalidation_roots(
    deps: SelectorDependencies,
    kind: MutationKind,
    target: u64,
    next_sibling: Option<u64>,
    following: &[u64],
    added: &[u64],
) -> (r: DirtyMap)
    ensures
        r.wf(),
        r@ == spec_invalidation_roots(deps, kind, target, next_sibling, following@, added@),
{
    let mut roots = DirtyMap::new();
    match kind {
        MutationKind::Attributes => {
            let flag = if deps.ancestor_combinator {
                DirtyFlag::Subtree
            } else {
                DirtyFlag::SelfOnly
            };
            roots.upsert(target, flag, false);
            if deps.subsequent_sibling_combinator {
                set_each(&mut roots, following, DirtyFlag::Subtree);
            } else if deps.next_sibling_combinator && next_sibling.is_some() {
                roots.upsert(next_sibling.unwrap(), DirtyFlag::Subtree, false);
            }
        },
        MutationKind::CharacterData => {
            if deps.empty_pseudo {
                roots.upsert(target, DirtyFlag::SelfOnly, false);
            }
        },
        MutationKind::ChildList => {
            let sibling_sensitive = deps.next_sibling_combinator || deps.subsequent_sibling_combinator;
            if deps.structural_pseudo || sibling_sensitive {
                roots.upsert(target, DirtyFlag::Subtree, false);
            } else {
                if deps.empty_pseudo {
                    roots.upsert(target, DirtyFlag::SelfOnly, false);
                }
                set_each(&mut roots, added, DirtyFlag::Subtree);
            }
        },
    }
    roots
}

} // verus!

verus! {

/// The CSS-wide keywords.
#[derive(Clone, Copy, Debug, PartialEq, Eq, Structural)]
pub enum CssWideKeyword {
    Initial,
    Inherit,
    Unset,
}

/// Where a computed value comes from.
#[derive(Clone, Copy, Debug, PartialEq, Eq, Structural)]
pub enum ValueSource {
    /// The property's initial value.
    Initial,
    /// The parent element's computed value.
    Parent,
}

/// A value inherits from the parent when there is one, else it is the initial value.
pub open spec fn spec_inherited_or_initial(has_parent: bool) -> ValueSource {
    if has_parent {
        ValueSource::Parent
    } else {
        ValueSource::Initial
    }
}

/// `unset` inherits for inherited properties and is `initial` otherwise.
pub open spec fn spec_unset_source(inherited: bool, has_parent: bool) -> ValueSource {
    if inherited {
        spec_inherited_or_initial(has_parent)
    } else {
        ValueSource::Initial
    }
}

/// Where a CSS-wide keyword takes a property's value from.
pub open spec fn spec_css_wide_source(keyword: CssWideKeyword, inherited: bool, has_parent: bool) -> ValueSource {
    match keyword {
        CssWideKeyword::Initial => ValueSource::Initial,
        CssWideKeyword::Inherit => spec_inherited_or_initial(has_parent),
        CssWideKeyword::Unset => spec_unset_source(inherited, has_parent),
    }
}

/// Where `unset` takes a property's value from.
pub fn unset_source(inherited: bool, has_parent: bool) -> (r: ValueSource)
    ensures
        r == spec_unset_source(inherited, has_parent),
{
    if inherited && has_parent {
        ValueSource::Parent
    } else {
        ValueSource::Initial
    }
}

/// Where a CSS-wide keyword takes a property's value from.
pub fn css_wide_source(keyword: CssWideKeyword, inherited: bool, has_parent: bool) -> (r: ValueSource)
    ensures
        r == spec_css_wide_source(keyword, inherited, has_parent),
{
    match keyword {
        CssWideKeyword::Initial => ValueSource::Initial,
        CssWideKeyword::Inherit => if has_parent {
            ValueSource::Parent
        } else {
            ValueSource::Initial
        },
        CssWideKeyword::Unset => unset_source(inherited, has_parent),
    }
}

/// Where a `currentColor` value is resolved from.
#[derive(Clone, Copy, Debug, PartialEq, Eq, Structural)]
pub enum CurrentColorSource {
    /// The value is not `currentColor` and stays.
    Keep,
    /// The parent's computed color.
    ParentColor,
    /// The initial color.
    InitialColor,
    /// The element's own computed color.
    OwnColor,
}

/// `currentColor` in `color` itself inherits; in any other property it is the
/// element's own color once computed, else the initial color.
pub open spec fn spec_current_color_source(
    is_current_color: bool,
    is_color_property: bool,
    has_parent: bool,
    own_color_computed: bool,
) -> CurrentColorSource {
    if !is_current_color {
        CurrentColorSource::Keep
    } else if is_color_property {
        if has_parent {
            CurrentColorSource::ParentColor
        } else {
            CurrentColorSource::InitialColor
        }
    } else if own_color_computed {
        CurrentColorSource::OwnColor
    } else {
        CurrentColorSource::InitialColor
    }
}

/// Where a property's `currentColor` value resolves from.
pub fn current_color_source(
    is_current_color: bool,
    is_color_property: bool,
    has_parent: bool,
    own_color_computed: bool,
) -> (r: CurrentColorSource)
    ensures
        r == spec_current_color_source(is_current_color, is_color_property, has_parent, own_color_computed),
{
    if !is_current_color {
        CurrentColorSource::Keep
    } else if is_color_property {
        if has_parent {
            CurrentColorSource::ParentColor
        } else {
            CurrentColorSource::InitialColor
        }
    } else if own_color_computed {
        CurrentColorSource::OwnColor
    } else {
        CurrentColorSource::InitialColor
    }
}

/// `inherit` and `unset` agree on inherited properties, `initial` and
/// `unset` on the others; only the root falls back to initial values.
pub proof fn law_unset_is_inherit_or_initial(inherited: bool, has_parent: bool)
    ensures
        inherited ==> spec_css_wide_source(CssWideKeyword::Unset, inherited, has_parent)
            == spec_css_wide_source(CssWideKeyword::Inherit, inherited, has_parent),
        !inherited ==> spec_css_wide_source(CssWideKeyword::Unset, inherited, has_parent)
            == spec_css_wide_source(CssWideKeyword::Initial, inherited, has_parent),
        !has_parent ==> spec_css_wide_source(CssWideKeyword::Inherit, inherited, has_parent)
            == ValueSource::Initial,
{
}

} // verus!

use crate::text_util::{
    ascii_lower_seq, chars_equal, chars_to_ascii_lowercase, split_chars, split_on, str_to_chars,
    trim_chars,
};

verus! {

/// Whether one comma-separated media query, trimmed and compared without
/// ASCII case, is `all` or `screen`.
pub open spec fn media_query_matches(query: Seq<char>) -> bool {
    let word = ascii_lower_seq(trim_class(query, TrimClass::Whitespace));
    word == seq!['a', 'l', 'l'] || word == seq!['s', 'c', 'r', 'e', 'e', 'n']
}

/// Whether a style sheet with the `media` attribute `media` applies to the
/// screen: no attribute, an empty one, or one listing `all` or `screen`.
pub open spec fn spec_media_is_active(media: Option<Seq<char>>) -> bool {
    match media {
        None => true,
        Some(text) => {
            let trimmed = trim_class(text, TrimClass::Whitespace);
            trimmed.len() == 0 || exists|i: int|
                0 <= i < split_on(trimmed, ',').len() && #[trigger] media_query_matches(
                    split_on(trimmed, ',')[i],
                )
        },
    }
}

/// Decides whether a style sheet's `media` attribute lets it apply.
pub fn media_is_active(media: Option<&str>) -> (r: bool)
    ensures
        r == spec_media_is_active(
            match media {
                Some(text) => Some(text@),
                None => None,
            },
        ),
{
    match media {
        None => true,
        Some(text) => {
            let chars = str_to_chars(text);
            let trimmed = trim_chars(chars.as_slice(), TrimClass::Whitespace);
            if trimmed.len() == 0 {
                return true;
            }
            let parts = split_chars(trimmed.as_slice(), ',');
            let ghost pieces = split_on(trimmed@, ',');
            let all = vec!['a', 'l', 'l'];
            let screen = vec!['s', 'c', 'r', 'e', 'e', 'n'];
            let mut i: usize = 0;
            while i < parts.len()
                invariant
                    i <= parts@.len(),
                    pieces == split_on(trimmed@, ','),
                    trimmed@ == trim_class(text@, TrimClass::Whitespace),
                    media == Some(text),
                    Seq::new(parts@.len(), |k: int| parts@[k]@) == pieces,
                    all@ == seq!['a', 'l', 'l'],
                    screen@ == seq!['s', 'c', 'r', 'e', 'e', 'n'],
                    forall|k: int| 0 <= k < i ==> !#[trigger] media_query_matches(pieces[k]),
                decreases parts@.len() - i,
            {
                assert(parts@[i as int]@ == pieces[i as int]);
                let query = trim_chars(parts[i].as_slice(), TrimClass::Whitespace);
                let word = chars_to_ascii_lowercase(query.as_slice());
                if chars_equal(word.as_slice(), all.as_slice()) || chars_equal(
                    word.as_slice(),
                    screen.as_slice(),
                ) {
                    assert(pieces.len() == parts@.len());
                    assert(media_query_matches(pieces[i as int]));
                    return true;
                }
                i += 1;
            }
            assert(pieces.len() == parts@.len());
            false
        },
    }
}

} // verus!

use crate::encoding::{decode_stylesheet, spec_decode_resource, LoadOutcome};

verus! {

/// Where a document style sheet came from.
#[derive(Clone, Debug, PartialEq, Eq)]
pub enum StylesheetSource {
    /// CSS text of a `<style>` element.
    Inline { node: u64 },
    /// CSS loaded for a `<link rel="stylesheet">` element.
    External { node: u64, requested_url: String, final_url: String },
}

/// A linked style sheet that could not be resolved or loaded.
#[derive(Clone, Debug, PartialEq, Eq)]
pub struct StylesheetLoadError {
    pub node: u64,
    pub href: Option<String>,
    pub message: String,
}

/// The CSS text of one document style sheet, with its origin and `media`.
#[derive(Clone, Debug, PartialEq, Eq)]
pub struct StylesheetText {
    pub source: StylesheetSource,
    pub media: Option<String>,
    pub css: String,
}

pub open spec fn opt_string_view(s: Option<String>) -> Option<Seq<char>> {
    match s {
        Some(t) => Some(t@),
        None => None,
    }
}

/// Whether `source` is the linked sheet of `node` requested at `requested`
/// and served from `final_url`.
pub open spec fn external_source_is(
    source: StylesheetSource,
    node: u64,
    requested: Seq<char>,
    final_url: Seq<char>,
) -> bool {
    match source {
        StylesheetSource::External { node: n, requested_url, final_url: f } => n == node
            && requested_url@ == requested && f@ == final_url,
        StylesheetSource::Inline { .. } => false,
    }
}

/// A linked style sheet once its load finished: a successful response
/// gives its body decoded as CSS text; any other status, or a failed load,
/// gives an error naming the `href`; a cancelled load gives nothing.
pub fn loaded_stylesheet(
    node: u64,
    href: String,
    requested_url: String,
    media: Option<String>,
    outcome: LoadOutcome,
) -> (r: Option<Result<StylesheetText, StylesheetLoadError>>)
    requires
        outcome matches LoadOutcome::Response { status, .. } ==> 100 <= status <= 999,
    ensures
        r is None <==> outcome is Cancelled,
        r matches Some(loaded) ==> match outcome {
            LoadOutcome::Response { status, final_url, content_type, body } => {
                if 200 <= status <= 299 {
                    match loaded {
                        Ok(sheet) => {
                            &&& sheet.media == media
                            &&& sheet.css@ == spec_decode_resource(body@, opt_string_view(content_type))
                            &&& external_source_is(sheet.source, node, requested_url@, final_url@)
                        },
                        Err(_) => false,
                    }
                } else {
                    match loaded {
                        Err(e) => {
                            &&& e.node == node
                            &&& opt_string_view(e.href) == Some(href@)
                            &&& e.message@ == "stylesheet HTTP status "@ + crate::fetch::status_line_text(status)
                        },
                        Ok(_) => false,
                    }
                }
            },
            LoadOutcome::Failed { message } => match loaded {
                Err(e) => {
                    &&& e.node == node
                    &&& opt_string_view(e.href) == Some(href@)
                    &&& e.message@ == message@
                },
                Ok(_) => false,
            },
            LoadOutcome::Cancelled => false,
        },
{
    match outcome {
        LoadOutcome::Response { status, final_url, content_type, body } => {
            if 200 <= status && status <= 299 {
                let css = match &content_type {
                    Some(t) => decode_stylesheet(body.as_slice(), Some(t.as_str())),
                    None => decode_stylesheet(body.as_slice(), None),
                };
                Some(
                    Ok(
                        StylesheetText {
                            source: StylesheetSource::External { node, requested_url, final_url },
                            media,
                            css,
                        },
                    ),
                )
            } else {
                let mut message = String::new();
                crate::text_util::push_str(&mut message, "stylesheet HTTP status ");
                let line = crate::fetch::status_line(status);
                crate::text_util::push_str(&mut message, line.as_str());
                Some(Err(StylesheetLoadError { node, href: Some(href), message }))
            }
        },
        LoadOutcome::Failed { message } => Some(
            Err(StylesheetLoadError { node, href: Some(href), message }),
        ),
        LoadOutcome::Cancelled => None,
    }
}

} // verus!

use crate::text_util::{debug_quoted, decimal, push_str, str_debug, u64_to_decimal};

verus! {

/// `{:?}` of an optional string: `None`, or `Some(` and the quoted string `)`.
pub open spec fn option_debug(s: Option<Seq<char>>) -> Seq<char> {
    match s {
        None => "None"@,
        Some(t) => "Some("@ + str_debug(t) + ")"@,
    }
}

fn push_option_debug(out: &mut String, s: &Option<String>)
    ensures
        final(out)@ == old(out)@ + option_debug(opt_string_view(*s)),
{
    match s {
        None => push_str(out, "None"),
        Some(t) => {
            push_str(out, "Some(");
            let q = debug_quoted(t.as_str());
            push_str(out, q.as_str());
            push_str(out, ")");
        },
    }
}

/// The header line of style sheet number `index`.
pub open spec fn stylesheet_header(index: nat, source: StylesheetSource, media: Option<Seq<char>>) -> Seq<
    char,
> {
    match source {
        StylesheetSource::Inline { node } => "stylesheet["@ + decimal(index) + "] inline node="@
            + decimal(node as nat) + " media="@ + option_debug(media) + "\n"@,
        StylesheetSource::External { node, requested_url, final_url } => "stylesheet["@ + decimal(
            index,
        ) + "] external node="@ + decimal(node as nat) + " requested="@ + str_debug(requested_url@)
            + " final="@ + str_debug(final_url@) + " media="@ + option_debug(media) + "\n"@,
    }
}

/// The line of load error number `index`.
pub open spec fn stylesheet_error_line(index: nat, e: StylesheetLoadError) -> Seq<char> {
    "stylesheet-error["@ + decimal(index) + "] node="@ + decimal(e.node as nat) + " href="@
        + option_debug(opt_string_view(e.href)) + " message="@ + str_debug(e.message@) + "\n"@
}

/// The first `n` style sheets, each its header then its parsed rules' dump.
pub open spec fn sheets_dump(sheets: Seq<(StylesheetSource, Option<String>, String)>, n: int) -> Seq<
    char,
>
    decreases n,
{
    if n <= 0 {
        Seq::empty()
    } else {
        sheets_dump(sheets, n - 1) + stylesheet_header(
            (n - 1) as nat,
            sheets[n - 1].0,
            opt_string_view(sheets[n - 1].1),
        ) + sheets[n - 1].2@
    }
}

/// The first `n` load errors, one line each.
pub open spec fn errors_dump(errors: Seq<StylesheetLoadError>, n: int) -> Seq<char>
    decreases n,
{
    if n <= 0 {
        Seq::empty()
    } else {
        errors_dump(errors, n - 1) + stylesheet_error_line((n - 1) as nat, errors[n - 1])
    }
}

/// The text dump of a document's style sheets and load errors; each sheet
/// is given with its source, `media` and the dump of its parsed rules.
pub fn dump_stylesheets(
    sheets: &[(StylesheetSource, Option<String>, String)],
    errors: &[StylesheetLoadError],
) -> (r: String)
    requires
        sheets@.len() <= u64::MAX,
        errors@.len() <= u64::MAX,
    ensures
        r@ == sheets_dump(sheets@, sheets@.len() as int) + errors_dump(errors@, errors@.len() as int),
{
    let mut out = String::new();
    let mut i: usize = 0;
    while i < sheets.len()
        invariant
            i <= sheets@.len(),
            sheets@.len() <= u64::MAX,
            out@ == sheets_dump(sheets@, i as int),
        decreases sheets@.len() - i,
    {
        let ghost before = out@;
        let (source, media, rules) = &sheets[i];
        push_str(&mut out, "stylesheet[");
        let index = u64_to_decimal(i as u64);
        push_str(&mut out, index.as_str());
        match source {
            StylesheetSource::Inline { node } => {
                push_str(&mut out, "] inline node=");
                let n = u64_to_decimal(*node);
                push_str(&mut out, n.as_str());
            },
            StylesheetSource::External { node, requested_url, final_url } => {
                push_str(&mut out, "] external node=");
                let n = u64_to_decimal(*node);
                push_str(&mut out, n.as_str());
                push_str(&mut out, " requested=");
                let q = debug_quoted(requested_url.as_str());
                push_str(&mut out, q.as_str());
                push_str(&mut out, " final=");
                let f = debug_quoted(final_url.as_str());
                push_str(&mut out, f.as_str());
            },
        }
        push_str(&mut out, " media=");
        push_option_debug(&mut out, media);
        push_str(&mut out, "\n");
        assert(out@ =~= before + stylesheet_header(i as nat, *source, opt_string_view(*media)));
        push_str(&mut out, rules.as_str());
        i += 1;
    }
    let ghost sheets_text = out@;
    let mut k: usize = 0;
    assert(sheets_text + errors_dump(errors@, 0) =~= sheets_text);
    while k < errors.len()
        invariant
            k <= errors@.len(),
            errors@.len() <= u64::MAX,
            out@ == sheets_text + errors_dump(errors@, k as int),
        decreases errors@.len() - k,
    {
        let ghost before = out@;
        let e = &errors[k];
        push_str(&mut out, "stylesheet-error[");
        let index = u64_to_decimal(k as u64);
        push_str(&mut out, index.as_str());
        push_str(&mut out, "] node=");
        let n = u64_to_decimal(e.node);
        push_str(&mut out, n.as_str());
        push_str(&mut out, " href=");
        push_option_debug(&mut out, &e.href);
        push_str(&mut out, " message=");
        let m = debug_quoted(e.message.as_str());
        push_str(&mut out, m.as_str());
        push_str(&mut out, "\n");
        assert(out@ =~= before + stylesheet_error_line(k as nat, *e));
        k += 1;
    }
    out
}

} // verus!
