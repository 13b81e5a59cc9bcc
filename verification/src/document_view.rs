//! Building the interaction view of a document: which elements become form
//! controls, interactive targets and focus stops, the document title, the
//! accessible focus order, and the hit-test list.
use vstd::prelude::*;
use crate::interaction::{spec_target_rect, target_rect, HitTestEntry, HitTestKind, HitTestList, TargetGeometry};
use crate::interaction_state::{Control, ControlInitial, Target, TargetKind};
use crate::layout::LayoutRect;
use crate::line_breaking::spec_collapse_whitespace;
use crate::text_util::ascii_lower_seq;

verus! {

/// What the view reads of one element: its name and attributes, its text,
/// its form owner, its laid-out bounds, and its link target once resolved
/// against the document's base URL.
#[derive(Clone, Debug)]
pub struct ElementFacts {
    pub node: u64,
    pub local_name: Option<String>,
    pub disabled: bool,
    pub form: Option<u64>,
    pub text_content: String,
    pub type_attr: Option<String>,
    pub name_attr: Option<String>,
    pub value_attr: Option<String>,
    pub checked: bool,
    pub required: bool,
    pub has_href: bool,
    pub resolved_href: Option<String>,
    pub bounds: Option<LayoutRect>,
}

pub enum InitialModel {
    Text(Seq<char>),
    Checkbox { checked: bool, value: Seq<char> },
}

pub struct ControlModel {
    pub node: u64,
    pub form: Option<u64>,
    pub name: Option<Seq<char>>,
    pub initial: InitialModel,
    pub successful: bool,
}

pub enum KindModel {
    Link(Seq<char>),
    TextInput { form: Option<u64> },
    Checkbox,
    Button { form: Option<u64>, name: Option<Seq<char>>, value: Seq<char>, submits: bool },
}

pub struct TargetModel {
    pub node: u64,
    pub rect: LayoutRect,
    pub label: Seq<char>,
    pub kind: KindModel,
}

pub open spec fn opt_view(s: Option<String>) -> Option<Seq<char>> {
    match s {
        Some(v) => Some(v@),
        None => None,
    }
}

pub open spec fn control_view(c: Control) -> ControlModel {
    ControlModel {
        node: c.node,
        form: c.form,
        name: opt_view(c.name),
        initial: match c.initial {
            ControlInitial::Text(v) => InitialModel::Text(v@),
            ControlInitial::Checkbox { checked, value } => InitialModel::Checkbox { checked, value: value@ },
        },
        successful: c.successful,
    }
}

pub open spec fn target_view(t: Target) -> TargetModel {
    TargetModel {
        node: t.node,
        rect: t.rect,
        label: t.label@,
        kind: match t.kind {
            TargetKind::Link(u) => KindModel::Link(u@),
            TargetKind::TextInput { form } => KindModel::TextInput { form },
            TargetKind::Checkbox => KindModel::Checkbox,
            TargetKind::Button { form, name, value, submits } => KindModel::Button {
                form,
                name: opt_view(name),
                value: value@,
                submits,
            },
        },
    }
}

/// Controls, targets, focus stops and title collected so far.
pub struct CollectModel {
    pub controls: Seq<ControlModel>,
    pub targets: Seq<TargetModel>,
    pub chain: Seq<u64>,
    pub title: Option<Seq<char>>,
}

pub open spec fn with_target(st: CollectModel, t: TargetModel) -> CollectModel {
    CollectModel { targets: st.targets.push(t), chain: st.chain.push(t.node), ..st }
}

pub open spec fn with_control(st: CollectModel, c: ControlModel) -> CollectModel {
    CollectModel { controls: st.controls.push(c), ..st }
}

pub open spec fn unwrap_or(s: Option<Seq<char>>, d: Seq<char>) -> Seq<char> {
    match s {
        Some(v) => v,
        None => d,
    }
}

/// What one `<input>` contributes, by its lower-cased type.
pub open spec fn input_step(st: CollectModel, e: ElementFacts) -> CollectModel {
    let t = ascii_lower_seq(unwrap_or(opt_view(e.type_attr), "text"@));
    let name = opt_view(e.name_attr);
    let value = unwrap_or(opt_view(e.value_attr), Seq::empty());
    if t == "hidden"@ {
        with_control(
            st,
            ControlModel { node: e.node, form: e.form, name, initial: InitialModel::Text(value), successful: true },
        )
    } else if t == "checkbox"@ {
        let c = ControlModel {
            node: e.node,
            form: e.form,
            name,
            initial: InitialModel::Checkbox {
                checked: e.checked,
                value: if value.len() == 0 { "on"@ } else { value },
            },
            successful: true,
        };
        with_target(
            with_control(st, c),
            TargetModel {
                node: e.node,
                rect: spec_target_rect(e.bounds, TargetGeometry::Checkbox, 0),
                label: unwrap_or(name, Seq::empty()),
                kind: KindModel::Checkbox,
            },
        )
    } else if t == "submit"@ || t == "button"@ {
        let label = if value.len() == 0 {
            if t == "submit"@ { "Submit"@ } else { "Button"@ }
        } else {
            value
        };
        with_target(
            st,
            TargetModel {
                node: e.node,
                rect: spec_target_rect(e.bounds, TargetGeometry::Button, label.len() as int),
                label,
                kind: KindModel::Button { form: e.form, name, value, submits: t == "submit"@ },
            },
        )
    } else if t == "text"@ || t == "search"@ || t.len() == 0 {
        let c = ControlModel { node: e.node, form: e.form, name, initial: InitialModel::Text(value), successful: true };
        with_target(
            with_control(st, c),
            TargetModel {
                node: e.node,
                rect: spec_target_rect(e.bounds, TargetGeometry::TextInput, 0),
                label: Seq::empty(),
                kind: KindModel::TextInput { form: e.form },
            },
        )
    } else {
        st
    }
}

/// What one element, in tree order, contributes to the view.
pub open spec fn element_step(st: CollectModel, e: ElementFacts) -> CollectModel {
    match opt_view(e.local_name) {
        None => st,
        Some(name) => if ascii_lower_seq(name) == "title"@ && st.title is None {
            let candidate = spec_collapse_whitespace(e.text_content@);
            if candidate.len() > 0 {
                CollectModel { title: Some(candidate), ..st }
            } else {
                st
            }
        } else if e.disabled {
            st
        } else if name == "a"@ {
            if e.has_href && e.resolved_href is Some {
                let label = spec_collapse_whitespace(e.text_content@);
                with_target(
                    st,
                    TargetModel {
                        node: e.node,
                        rect: spec_target_rect(e.bounds, TargetGeometry::Link, label.len() as int),
                        label,
                        kind: KindModel::Link(opt_view(e.resolved_href)->0),
                    },
                )
            } else {
                st
            }
        } else if name == "input"@ {
            input_step(st, e)
        } else if name == "button"@ {
            let btype = ascii_lower_seq(unwrap_or(opt_view(e.type_attr), "submit"@));
            let text_label = spec_collapse_whitespace(e.text_content@);
            let label = if text_label.len() == 0 { "Button"@ } else { text_label };
            let value = unwrap_or(opt_view(e.value_attr), label);
            with_target(
                st,
                TargetModel {
                    node: e.node,
                    rect: spec_target_rect(e.bounds, TargetGeometry::Button, label.len() as int),
                    label,
                    kind: KindModel::Button {
                        form: e.form,
                        name: opt_view(e.name_attr),
                        value,
                        submits: btype != "button"@ && btype != "reset"@,
                    },
                },
            )
        } else {
            st
        },
    }
}

pub open spec fn collect_model(es: Seq<ElementFacts>) -> CollectModel
    decreases es.len(),
{
    if es.len() == 0 {
        CollectModel { controls: Seq::empty(), targets: Seq::empty(), chain: Seq::empty(), title: None }
    } else {
        element_step(collect_model(es.drop_last()), es.last())
    }
}

/// Controls, targets, focus stops (in tree order) and title of a document.
pub struct InteractiveParts {
    pub controls: Vec<Control>,
    pub targets: Vec<Target>,
    pub focus_chain: Vec<u64>,
    pub title: Option<String>,
}

pub open spec fn parts_match(p: InteractiveParts, m: CollectModel) -> bool {
    &&& p.controls@.len() == m.controls.len()
    &&& forall|i: int| 0 <= i < m.controls.len() ==> #[trigger] control_view(p.controls@[i]) == m.controls[i]
    &&& p.targets@.len() == m.targets.len()
    &&& forall|i: int| 0 <= i < m.targets.len() ==> #[trigger] target_view(p.targets@[i]) == m.targets[i]
    &&& p.focus_chain@ == m.chain
    &&& opt_view(p.title) == m.title
}

fn clone_opt(s: &Option<String>) -> (r: Option<String>)
    ensures
        opt_view(r) == opt_view(*s),
{
    match s {
        Some(v) => Some(v.clone()),
        None => None,
    }
}

fn lower_or(s: &Option<String>, default: &str) -> (r: Vec<char>)
    ensures
        r@ == ascii_lower_seq(unwrap_or(opt_view(*s), default@)),
{
    let chars = match s {
        Some(v) => crate::text_util::str_to_chars(v.as_str()),
        None => crate::text_util::str_to_chars(default),
    };
    crate::text_util::chars_to_ascii_lowercase(chars.as_slice())
}

fn is_word(chars: &Vec<char>, word: &str) -> (r: bool)
    ensures
        r == (chars@ == word@),
{
    let w = crate::text_util::str_to_chars(word);
    crate::text_util::chars_equal(chars.as_slice(), w.as_slice())
}

fn push_target(parts: &mut InteractiveParts, t: Target, Ghost(m): Ghost<CollectModel>)
    requires
        parts_match(*old(parts), m),
    ensures
        parts_match(*final(parts), with_target(m, target_view(t))),
{
    let node = t.node;
    parts.targets.push(t);
    parts.focus_chain.push(node);
    assert(parts.focus_chain@ =~= with_target(m, target_view(t)).chain);
}

fn push_control(parts: &mut InteractiveParts, c: Control, Ghost(m): Ghost<CollectModel>)
    requires
        parts_match(*old(parts), m),
    ensures
        parts_match(*final(parts), with_control(m, control_view(c))),
{
    parts.controls.push(c);
}

fn input_step_exec(parts: &mut InteractiveParts, e: &ElementFacts, Ghost(m): Ghost<CollectModel>)
    requires
        parts_match(*old(parts), m),
    ensures
        parts_match(*final(parts), input_step(m, *e)),
{
    proof {
        reveal_strlit("text");
        reveal_strlit("on");
        reveal_strlit("Submit");
        reveal_strlit("Button");
    }
    let t = lower_or(&e.type_attr, "text");
    let value = match &e.value_attr {
        Some(v) => v.clone(),
        None => String::new(),
    };
    assert(value@ == unwrap_or(opt_view(e.value_attr), Seq::empty()));
    if is_word(&t, "hidden") {
        let c = Control {
            node: e.node,
            form: e.form,
            name: clone_opt(&e.name_attr),
            initial: ControlInitial::Text(value),
            successful: true,
        };
        push_control(parts, c, Ghost(m));
    } else if is_word(&t, "checkbox") {
        let v = if value.as_str().is_empty() { String::from_str("on") } else { value };
        let c = Control {
            node: e.node,
            form: e.form,
            name: clone_opt(&e.name_attr),
            initial: ControlInitial::Checkbox { checked: e.checked, value: v },
            successful: true,
        };
        let ghost cm = control_view(c);
        push_control(parts, c, Ghost(m));
        let label = match &e.name_attr {
            Some(n) => n.clone(),
            None => String::new(),
        };
        let rect = target_rect(e.bounds, TargetGeometry::Checkbox, "");
        proof {
            reveal_strlit("");
        }
        let target = Target { node: e.node, rect, label, kind: TargetKind::Checkbox };
        push_target(parts, target, Ghost(with_control(m, cm)));
    } else if is_word(&t, "submit") || is_word(&t, "button") {
        let submits = is_word(&t, "submit");
        let label = if value.as_str().is_empty() {
            if submits {
                String::from_str("Submit")
            } else {
                String::from_str("Button")
            }
        } else {
            value.clone()
        };
        let rect = target_rect(e.bounds, TargetGeometry::Button, label.as_str());
        let target = Target {
            node: e.node,
            rect,
            label,
            kind: TargetKind::Button { form: e.form, name: clone_opt(&e.name_attr), value, submits },
        };
        push_target(parts, target, Ghost(m));
    } else if is_word(&t, "text") || is_word(&t, "search") || t.len() == 0 {
        let c = Control {
            node: e.node,
            form: e.form,
            name: clone_opt(&e.name_attr),
            initial: ControlInitial::Text(value),
            successful: true,
        };
        let ghost cm = control_view(c);
        push_control(parts, c, Ghost(m));
        let rect = target_rect(e.bounds, TargetGeometry::TextInput, "");
        proof {
            reveal_strlit("");
        }
        let target = Target {
            node: e.node,
            rect,
            label: String::new(),
            kind: TargetKind::TextInput { form: e.form },
        };
        push_target(parts, target, Ghost(with_control(m, cm)));
    }
}

fn element_step_exec(parts: &mut InteractiveParts, e: &ElementFacts, Ghost(m): Ghost<CollectModel>)
    requires
        parts_match(*old(parts), m),
    ensures
        parts_match(*final(parts), element_step(m, *e)),
{
    proof {
        reveal_strlit("title");
        reveal_strlit("submit");
        reveal_strlit("Button");
    }
    let name = match &e.local_name {
        None => return,
        Some(n) => n,
    };
    let lowered = crate::text_util::chars_to_ascii_lowercase(
        crate::text_util::str_to_chars(name.as_str()).as_slice(),
    );
    if is_word(&lowered, "title") && parts.title.is_none() {
        let candidate = crate::interaction::normalized_label(e.text_content.as_str());
        if !candidate.as_str().is_empty() {
            parts.title = Some(candidate);
        }
        return;
    }
    if e.disabled {
        return;
    }
    if crate::text_util::str_equal(name.as_str(), "a") {
        if e.has_href {
            if let Some(url) = &e.resolved_href {
                let label = crate::interaction::normalized_label(e.text_content.as_str());
                let rect = target_rect(e.bounds, TargetGeometry::Link, label.as_str());
                let target = Target { node: e.node, rect, label, kind: TargetKind::Link(url.clone()) };
                push_target(parts, target, Ghost(m));
            }
        }
    } else if crate::text_util::str_equal(name.as_str(), "input") {
        input_step_exec(parts, e, Ghost(m));
    } else if crate::text_util::str_equal(name.as_str(), "button") {
        let btype = lower_or(&e.type_attr, "submit");
        let text_label = crate::interaction::normalized_label(e.text_content.as_str());
        let label = if text_label.as_str().is_empty() { String::from_str("Button") } else { text_label };
        let value = match &e.value_attr {
            Some(v) => v.clone(),
            None => label.clone(),
        };
        let submits = !is_word(&btype, "button") && !is_word(&btype, "reset");
        let rect = target_rect(e.bounds, TargetGeometry::Button, label.as_str());
        let target = Target {
            node: e.node,
            rect,
            label,
            kind: TargetKind::Button { form: e.form, name: clone_opt(&e.name_attr), value, submits },
        };
        push_target(parts, target, Ghost(m));
    }
}

/// The controls, interactive targets, focus stops (in tree order) and title
/// of a document's elements, visited in tree order.
pub fn collect_interactive(elements: &[ElementFacts]) -> (r: InteractiveParts)
    ensures
        parts_match(r, collect_model(elements@)),
{
    let mut parts = InteractiveParts {
        controls: Vec::new(),
        targets: Vec::new(),
        focus_chain: Vec::new(),
        title: None,
    };
    assert(parts.focus_chain@ =~= Seq::<u64>::empty());
    let mut i: usize = 0;
    while i < elements.len()
        invariant
            i <= elements@.len(),
            parts_match(parts, collect_model(elements@.take(i as int))),
        decreases elements@.len() - i,
    {
        assert(elements@.take(i + 1).drop_last() =~= elements@.take(i as int));
        element_step_exec(&mut parts, &elements[i], Ghost(collect_model(elements@.take(i as int))));
        i += 1;
    }
    assert(elements@.take(elements@.len() as int) =~= elements@);
    parts
}

} // verus!

use crate::interaction::{arrange_state, ControlTarget};

verus! {

/// Whether position `k` holds the first occurrence of its node.
pub open spec fn first_at(acc: Seq<u64>, k: int) -> bool {
    forall|j: int| 0 <= j < k ==> acc[j] != acc[k]
}

/// How many times `n` occurs in `s`.
pub open spec fn occurrences(s: Seq<u64>, n: u64) -> nat
    decreases s.len(),
{
    if s.len() == 0 {
        0
    } else {
        occurrences(s.drop_last(), n) + if s.last() == n {
            1nat
        } else {
            0nat
        }
    }
}

/// The focus stops in accessible order: for each node in the order the
/// accessibility tree gives (first occurrences), its stops; stops that the
/// accessibility tree does not list are dropped.
pub open spec fn spec_focus_order(chain: Seq<u64>, acc: Seq<u64>, k: int) -> Seq<u64>
    decreases k,
{
    if k <= 0 {
        Seq::empty()
    } else {
        let prev = spec_focus_order(chain, acc, k - 1);
        if first_at(acc, k - 1) {
            prev + Seq::new(occurrences(chain, acc[k - 1]), |i: int| acc[k - 1])
        } else {
            prev
        }
    }
}

fn count_in(s: &Vec<u64>, n: u64) -> (r: usize)
    ensures
        r == occurrences(s@, n),
{
    let mut c: usize = 0;
    let mut i: usize = 0;
    while i < s.len()
        invariant
            i <= s@.len(),
            c == occurrences(s@.take(i as int), n),
            c <= i,
        decreases s@.len() - i,
    {
        assert(s@.take(i + 1).drop_last() =~= s@.take(i as int));
        if s[i] == n {
            c += 1;
        }
        i += 1;
    }
    assert(s@.take(s@.len() as int) =~= s@);
    c
}

/// Orders focus stops as the accessibility tree orders their nodes, and
/// drops the stops it does not list.
pub fn order_focus_chain(chain: &Vec<u64>, accessible: &Vec<u64>) -> (r: Vec<u64>)
    ensures
        r@ == spec_focus_order(chain@, accessible@, accessible@.len() as int),
{
    let mut out: Vec<u64> = Vec::new();
    let mut k: usize = 0;
    while k < accessible.len()
        invariant
            k <= accessible@.len(),
            out@ == spec_focus_order(chain@, accessible@, k as int),
        decreases accessible@.len() - k,
    {
        let node = accessible[k];
        let mut first = true;
        let mut j: usize = 0;
        while j < k
            invariant
                j <= k,
                k < accessible@.len(),
                node == accessible@[k as int],
                first == (forall|q: int| 0 <= q < j ==> accessible@[q] != node),
            decreases k - j,
        {
            if accessible[j] == node {
                first = false;
            }
            j += 1;
        }
        if first {
            let count = count_in(chain, node);
            let ghost before = out@;
            let mut c: usize = 0;
            while c < count
                invariant
                    c <= count,
                    out@ == before + Seq::new(c as nat, |i: int| node),
                decreases count - c,
            {
                out.push(node);
                assert(out@ =~= before + Seq::new((c + 1) as nat, |i: int| node));
                c += 1;
            }
        }
        k += 1;
    }
    out
}

proof fn lemma_occurrences_pos(s: Seq<u64>, i: int)
    requires
        0 <= i < s.len(),
    ensures
        occurrences(s, s[i]) > 0,
    decreases s.len(),
{
    if i < s.len() - 1 {
        lemma_occurrences_pos(s.drop_last(), i);
        assert(s.drop_last()[i] == s[i]);
    }
}

proof fn lemma_focus_order_members(chain: Seq<u64>, acc: Seq<u64>, k: int)
    requires
        0 <= k <= acc.len(),
    ensures
        forall|i: int|
            0 <= i < spec_focus_order(chain, acc, k).len() ==> {
                let n = #[trigger] spec_focus_order(chain, acc, k)[i];
                &&& chain.contains(n)
                &&& exists|p: int| 0 <= p < k && acc[p] == n
            },
    decreases k,
{
    if k > 0 {
        lemma_focus_order_members(chain, acc, k - 1);
        let prev = spec_focus_order(chain, acc, k - 1);
        let cur = spec_focus_order(chain, acc, k);
        assert forall|i: int| 0 <= i < cur.len() implies {
            let n = #[trigger] cur[i];
            &&& chain.contains(n)
            &&& exists|p: int| 0 <= p < k && acc[p] == n
        } by {
            if i < prev.len() {
                assert(cur[i] == prev[i]);
                let n = prev[i];
                let p = choose|p: int| 0 <= p < k - 1 && acc[p] == n;
                assert(0 <= p < k && acc[p] == n);
            } else {
                let n = acc[k - 1];
                assert(cur[i] == n);
                assert(occurrences(chain, n) > 0);
                lemma_occurrences_contains(chain, n);
                assert(0 <= k - 1 < k && acc[k - 1] == n);
            }
        }
    }
}

proof fn lemma_occurrences_contains(s: Seq<u64>, n: u64)
    requires
        occurrences(s, n) > 0,
    ensures
        s.contains(n),
    decreases s.len(),
{
    if s.len() > 0 {
        if s.last() == n {
            assert(s[s.len() - 1] == n);
        } else {
            lemma_occurrences_contains(s.drop_last(), n);
            let i = choose|i: int| 0 <= i < s.drop_last().len() && s.drop_last()[i] == n;
            assert(s[i] == n);
        }
    }
}

/// Every ordered focus stop is a stop of the chain and a node the
/// accessibility tree lists.
pub proof fn law_focus_order_only_keeps_listed_stops(chain: Seq<u64>, acc: Seq<u64>)
    ensures
        forall|i: int|
            0 <= i < spec_focus_order(chain, acc, acc.len() as int).len() ==> chain.contains(
                #[trigger] spec_focus_order(chain, acc, acc.len() as int)[i],
            ) && acc.contains(spec_focus_order(chain, acc, acc.len() as int)[i]),
{
    lemma_focus_order_members(chain, acc, acc.len() as int);
    let r = spec_focus_order(chain, acc, acc.len() as int);
    assert forall|i: int| 0 <= i < r.len() implies chain.contains(#[trigger] r[i]) && acc.contains(r[i]) by {
        let p = choose|p: int| 0 <= p < acc.len() && acc[p] == r[i];
    }
}

/// The hit-test category of a target.
pub open spec fn public_kind(kind: TargetKind) -> HitTestKind {
    match kind {
        TargetKind::Link(_) => HitTestKind::Link,
        TargetKind::TextInput { .. } => HitTestKind::TextInput,
        TargetKind::Checkbox => HitTestKind::Checkbox,
        TargetKind::Button { .. } => HitTestKind::Button,
    }
}

/// One hit-test entry per target, in target order.
pub fn hit_test_list(targets: &Vec<Target>) -> (r: HitTestList)
    ensures
        r.entries@.len() == targets@.len(),
        forall|i: int|
            0 <= i < targets@.len() ==> {
                let e = #[trigger] r.entries@[i];
                &&& e.node == targets@[i].node
                &&& e.rect == targets@[i].rect
                &&& e.kind == public_kind(targets@[i].kind)
                &&& e.label@ == targets@[i].label@
            },
{
    let mut entries: Vec<HitTestEntry> = Vec::new();
    let mut i: usize = 0;
    while i < targets.len()
        invariant
            i <= targets@.len(),
            entries@.len() == i,
            forall|k: int|
                0 <= k < i ==> {
                    let e = #[trigger] entries@[k];
                    &&& e.node == targets@[k].node
                    &&& e.rect == targets@[k].rect
                    &&& e.kind == public_kind(targets@[k].kind)
                    &&& e.label@ == targets@[k].label@
                },
        decreases targets@.len() - i,
    {
        let t = &targets[i];
        let kind = match &t.kind {
            TargetKind::Link(_) => HitTestKind::Link,
            TargetKind::TextInput { .. } => HitTestKind::TextInput,
            TargetKind::Checkbox => HitTestKind::Checkbox,
            TargetKind::Button { .. } => HitTestKind::Button,
        };
        entries.push(HitTestEntry { node: t.node, rect: t.rect, kind, label: t.label.clone() });
        i += 1;
    }
    HitTestList { entries }
}

pub open spec fn control_targets(ts: Seq<Target>) -> Seq<ControlTarget> {
    Seq::new(ts.len(), |i: int| ControlTarget { link: ts[i].kind is Link, rect: ts[i].rect })
}

/// Lays the non-link targets out in rows across the viewport; targets keep
/// their order, nodes, labels and kinds.
pub fn arrange_targets(targets: &mut Vec<Target>, viewport_width: u32)
    requires
        viewport_width <= i32::MAX,
    ensures
        final(targets)@.len() == old(targets)@.len(),
        forall|i: int|
            0 <= i < old(targets)@.len() ==> {
                let t = #[trigger] final(targets)@[i];
                &&& t.node == old(targets)@[i].node
                &&& t.label == old(targets)@[i].label
                &&& t.kind == old(targets)@[i].kind
                &&& t.rect == arrange_state(control_targets(old(targets)@), viewport_width - 8).0[i].rect
            },
{
    let mut cts: Vec<ControlTarget> = Vec::new();
    let mut i: usize = 0;
    while i < targets.len()
        invariant
            i <= targets@.len(),
            cts@ == control_targets(targets@).take(i as int),
        decreases targets@.len() - i,
    {
        let link = match &targets[i].kind {
            TargetKind::Link(_) => true,
            _ => false,
        };
        cts.push(ControlTarget { link, rect: targets[i].rect });
        assert(cts@ =~= control_targets(targets@).take(i + 1));
        i += 1;
    }
    assert(cts@ =~= control_targets(targets@));
    crate::interaction::arrange_control_targets(&mut cts, viewport_width);
    proof {
        crate::interaction::lemma_arrange_state_ranges(control_targets(targets@), viewport_width - 8);
    }
    let ghost original = targets@;
    let mut k: usize = 0;
    while k < targets.len()
        invariant
            k <= targets@.len(),
            targets@.len() == original.len(),
            cts@.len() == original.len(),
            cts@ == arrange_state(control_targets(original), viewport_width - 8).0,
            forall|i: int|
                0 <= i < original.len() ==> {
                    let t = #[trigger] targets@[i];
                    &&& t.node == original[i].node
                    &&& t.label == original[i].label
                    &&& t.kind == original[i].kind
                    &&& (i < k ==> t.rect == cts@[i].rect)
                },
        decreases targets@.len() - k,
    {
        let rect = cts[k].rect;
        let mut t = targets[k].clone_target();
        t.rect = rect;
        targets.set(k, t);
        k += 1;
    }
}

impl Target {
    /// A copy of the target.
    pub fn clone_target(&self) -> (r: Target)
        ensures
            r == *self,
    {
        Target {
            node: self.node,
            rect: self.rect,
            label: self.label.clone(),
            kind: match &self.kind {
                TargetKind::Link(u) => TargetKind::Link(u.clone()),
                TargetKind::TextInput { form } => TargetKind::TextInput { form: *form },
                TargetKind::Checkbox => TargetKind::Checkbox,
                TargetKind::Button { form, name, value, submits } => TargetKind::Button {
                    form: *form,
                    name: match name {
                        Some(n) => Some(n.clone()),
                        None => None,
                    },
                    value: value.clone(),
                    submits: *submits,
                },
            },
        }
    }
}

} // verus!

use crate::text_util::{str_to_chars, trim_chars, trim_class, TrimClass};

verus! {

/// A required, enabled form field that holds nothing: an unchecked checkbox
/// or radio button, or another field whose value (its `value` attribute, else
/// its text) is only whitespace.
pub open spec fn is_invalid_control(e: ElementFacts) -> bool {
    &&& opt_view(e.local_name) matches Some(name) && (name == "input"@ || name == "textarea"@
        || name == "select"@)
    &&& e.required
    &&& !e.disabled
    &&& {
        let kind = match opt_view(e.type_attr) {
            Some(t) => t,
            None => "text"@,
        };
        if kind == "checkbox"@ || kind == "radio"@ {
            !e.checked
        } else {
            let value = match opt_view(e.value_attr) {
                Some(v) => v,
                None => e.text_content@,
            };
            trim_class(value, TrimClass::Whitespace).len() == 0
        }
    }
}

/// The nodes of the invalid controls of `elements`, in order.
pub open spec fn invalid_controls(elements: Seq<ElementFacts>) -> Seq<u64>
    decreases elements.len(),
{
    if elements.len() == 0 {
        Seq::empty()
    } else {
        let prev = invalid_controls(elements.drop_last());
        if is_invalid_control(elements.last()) {
            prev.push(elements.last().node)
        } else {
            prev
        }
    }
}

fn invalid_control(e: &ElementFacts) -> (r: bool)
    ensures
        r == is_invalid_control(*e),
{
    proof {
        reveal_strlit("input");
        reveal_strlit("textarea");
        reveal_strlit("select");
        reveal_strlit("text");
        reveal_strlit("checkbox");
        reveal_strlit("radio");
    }
    let name = match &e.local_name {
        None => return false,
        Some(n) => str_to_chars(n.as_str()),
    };
    if !(is_word(&name, "input") || is_word(&name, "textarea") || is_word(&name, "select")) {
        return false;
    }
    if !e.required || e.disabled {
        return false;
    }
    let kind = match &e.type_attr {
        Some(t) => str_to_chars(t.as_str()),
        None => str_to_chars("text"),
    };
    if is_word(&kind, "checkbox") || is_word(&kind, "radio") {
        !e.checked
    } else {
        let value = match &e.value_attr {
            Some(v) => str_to_chars(v.as_str()),
            None => str_to_chars(e.text_content.as_str()),
        };
        trim_chars(value.as_slice(), TrimClass::Whitespace).len() == 0
    }
}

/// The required controls of a form that fail basic validation; `subtree`
/// is the form element followed by its descendants in tree order.
pub fn invalid_form_controls(subtree: &[ElementFacts]) -> (r: Vec<u64>)
    ensures
        r@ == (if subtree@.len() == 0 {
            Seq::<u64>::empty()
        } else {
            invalid_controls(subtree@.skip(1))
        }),
{
    let mut out: Vec<u64> = Vec::new();
    if subtree.len() == 0 {
        return out;
    }
    let ghost rest = subtree@.skip(1);
    let mut i: usize = 1;
    assert(rest.take(0) =~= Seq::<ElementFacts>::empty());
    while i < subtree.len()
        invariant
            1 <= i <= subtree@.len(),
            rest == subtree@.skip(1),
            out@ == invalid_controls(rest.take(i - 1)),
        decreases subtree@.len() - i,
    {
        assert(rest.take(i as int).drop_last() =~= rest.take(i - 1));
        assert(rest.take(i as int).last() == subtree@[i as int]);
        if invalid_control(&subtree[i]) {
            out.push(subtree[i].node);
        }
        i += 1;
    }
    assert(rest.take(i - 1) =~= rest);
    out
}

} // verus!
