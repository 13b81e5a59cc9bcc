//! Focus, pointer, scroll and form-control state of one document, and the
//! default actions of pointer and keyboard input.
use vstd::prelude::*;
use crate::interaction::{
    spec_last_hit, HitTestList, InteractionPoint, KeyboardCommand, ScrollOffset, ScrollTree,
};
use crate::layout::LayoutRect;

verus! {

/// What activating a target does.
#[derive(Clone, Debug, PartialEq, Eq)]
pub enum TargetKind {
    Link(String),
    TextInput { form: Option<u64> },
    Checkbox,
    Button { form: Option<u64>, name: Option<String>, value: String, submits: bool },
}

/// An interactive element with its document-space rectangle.
#[derive(Clone, Debug, PartialEq, Eq)]
pub struct Target {
    pub node: u64,
    pub rect: LayoutRect,
    pub label: String,
    pub kind: TargetKind,
}

/// Initial state of a form control.
#[derive(Clone, Debug, PartialEq, Eq)]
pub enum ControlInitial {
    Text(String),
    Checkbox { checked: bool, value: String },
}

/// A form control of the document.
#[derive(Clone, Debug, PartialEq, Eq)]
pub struct Control {
    pub node: u64,
    pub form: Option<u64>,
    pub name: Option<String>,
    pub initial: ControlInitial,
    pub successful: bool,
}

/// A form of the document: its action URL and whether it submits with GET.
#[derive(Clone, Debug, PartialEq, Eq)]
pub struct FormInfo {
    pub node: u64,
    pub action: String,
    pub get: bool,
}

/// The interaction geometry and form metadata of one document view.
#[derive(Clone, Debug)]
pub struct InteractionView {
    pub focus_chain: Vec<u64>,
    pub targets: Vec<Target>,
    pub controls: Vec<Control>,
    pub forms: Vec<FormInfo>,
    pub scroll_tree: ScrollTree,
    pub hit_tests: HitTestList,
}

/// Live value of a form control.
#[derive(Clone, Debug, PartialEq, Eq)]
pub enum ControlValue {
    Text(String),
    Checkbox { checked: bool, value: String },
}

/// Live form state mirrored back into the document.
#[derive(Clone, Debug, PartialEq, Eq)]
pub enum FormControlState {
    Text { node: u64, value: String },
    Checkbox { node: u64, checked: bool },
}

/// A navigation that an interaction asks for: a link's URL, or a GET form
/// submission of name/value pairs to the form's action.
#[derive(Clone, Debug, PartialEq, Eq)]
pub enum NavigationRequest {
    Url(String),
    FormGet { action: String, pairs: Vec<(String, String)> },
}

/// Result of one pointer or keyboard dispatch.
#[derive(Clone, Debug, PartialEq, Eq)]
pub struct InteractionResult {
    pub redraw: bool,
    pub navigation: Option<NavigationRequest>,
    pub submitted_form: Option<u64>,
}

impl InteractionResult {
    pub open spec fn is_default(&self) -> bool {
        !self.redraw && self.navigation is None && self.submitted_form is None
    }

    /// Nothing to redraw and nowhere to go.
    pub fn none() -> (r: Self)
        ensures
            r.is_default(),
    {
        InteractionResult { redraw: false, navigation: None, submitted_form: None }
    }

    fn redraw_only() -> (r: Self)
        ensures
            r.redraw && r.navigation is None && r.submitted_form is None,
    {
        InteractionResult { redraw: true, navigation: None, submitted_form: None }
    }
}

/// Keys strictly increasing: the entries of an ordered map.
pub open spec fn keys_sorted(vs: Seq<(u64, ControlValue)>) -> bool {
    forall|i: int, j: int| 0 <= i < j < vs.len() ==> vs[i].0 < vs[j].0
}

pub open spec fn has_key(vs: Seq<(u64, ControlValue)>, n: u64) -> bool {
    exists|i: int| 0 <= i < vs.len() && vs[i].0 == n
}

/// The value stored for `n`.
pub open spec fn lookup(vs: Seq<(u64, ControlValue)>, n: u64) -> Option<ControlValue> {
    if has_key(vs, n) {
        Some(vs[choose|i: int| 0 <= i < vs.len() && vs[i].0 == n].1)
    } else {
        None
    }
}

proof fn lemma_lookup_at(vs: Seq<(u64, ControlValue)>, i: int)
    requires
        keys_sorted(vs),
        0 <= i < vs.len(),
    ensures
        lookup(vs, vs[i].0) == Some(vs[i].1),
{
    assert(has_key(vs, vs[i].0));
    let j = choose|j: int| 0 <= j < vs.len() && vs[j].0 == vs[i].0;
    if j < i {
        assert(vs[j].0 < vs[i].0);
    } else if j > i {
        assert(vs[i].0 < vs[j].0);
    }
}

fn find_key(vs: &Vec<(u64, ControlValue)>, n: u64) -> (r: Option<usize>)
    requires
        keys_sorted(vs@),
    ensures
        match r {
            Some(i) => i < vs@.len() && vs@[i as int].0 == n,
            None => !has_key(vs@, n),
        },
        lookup(vs@, n) == (match r {
            Some(i) => Some(vs@[i as int].1),
            None => None,
        }),
{
    let mut i: usize = 0;
    while i < vs.len()
        invariant
            i <= vs@.len(),
            keys_sorted(vs@),
            forall|j: int| 0 <= j < i ==> vs@[j].0 != n,
        decreases vs@.len() - i,
    {
        if vs[i].0 == n {
            proof {
                lemma_lookup_at(vs@, i as int);
            }
            return Some(i);
        }
        i += 1;
    }
    None
}

/// Stores `v` for `k`, keeping the keys ordered.
#[verifier::spinoff_prover]
#[verifier::rlimit(40)]
fn map_insert(vs: &mut Vec<(u64, ControlValue)>, k: u64, v: ControlValue)
    requires
        keys_sorted(old(vs)@),
    ensures
        keys_sorted(final(vs)@),
        forall|n: u64| #[trigger]
            lookup(final(vs)@, n) == (if n == k {
                Some(v)
            } else {
                lookup(old(vs)@, n)
            }),
        forall|n: u64| #[trigger] has_key(final(vs)@, n) == (n == k || has_key(old(vs)@, n)),
{
    let ghost o = vs@;
    let mut i: usize = 0;
    while i < vs.len() && vs[i].0 < k
        invariant
            i <= vs@.len(),
            vs@ == o,
            forall|j: int| 0 <= j < i ==> vs@[j].0 < k,
        decreases vs@.len() - i,
    {
        i += 1;
    }
    if i < vs.len() && vs[i].0 == k {
        vs.set(i, (k, v));
        proof {
            let nw = vs@;
            assert forall|n: u64| #[trigger] has_key(nw, n) == (n == k || has_key(o, n)) by {
                if has_key(o, n) {
                    let j = choose|j: int| 0 <= j < o.len() && o[j].0 == n;
                    assert(nw[j].0 == n);
                }
                if has_key(nw, n) {
                    let j = choose|j: int| 0 <= j < nw.len() && nw[j].0 == n;
                    assert(o[j].0 == n);
                }
            }
            assert forall|n: u64| #[trigger]
                lookup(nw, n) == (if n == k {
                    Some(v)
                } else {
                    lookup(o, n)
                }) by {
                if n == k {
                    lemma_lookup_at(nw, i as int);
                } else if has_key(o, n) {
                    let j = choose|j: int| 0 <= j < o.len() && o[j].0 == n;
                    lemma_lookup_at(o, j);
                    lemma_lookup_at(nw, j);
                }
            }
        }
    } else {
        vs.insert(i, (k, v));
        proof {
            let nw = vs@;
            assert(forall|j: int| i <= j < o.len() ==> o[j].0 > k) by {
                assert forall|j: int| i <= j < o.len() implies o[j].0 > k by {
                    if j > i {
                        assert(o[i as int].0 < o[j].0);
                    }
                }
            }
            assert forall|a: int, b: int| 0 <= a < b < nw.len() implies nw[a].0 < nw[b].0 by {
                if b < i {
                } else if a < i && b == i {
                } else if a < i {
                    assert(nw[b] == o[b - 1]);
                } else if a == i {
                    assert(nw[b] == o[b - 1]);
                } else {
                    assert(nw[a] == o[a - 1]);
                    assert(nw[b] == o[b - 1]);
                }
            }
            assert forall|n: u64| #[trigger] has_key(nw, n) == (n == k || has_key(o, n)) by {
                if n == k {
                    assert(nw[i as int].0 == k);
                }
                if has_key(o, n) {
                    let j = choose|j: int| 0 <= j < o.len() && o[j].0 == n;
                    if j < i {
                        assert(nw[j].0 == n);
                    } else {
                        assert(nw[j + 1].0 == n);
                    }
                }
                if has_key(nw, n) && n != k {
                    let j = choose|j: int| 0 <= j < nw.len() && nw[j].0 == n;
                    if j < i {
                        assert(o[j].0 == n);
                    } else {
                        assert(j != i);
                        assert(o[j - 1].0 == n);
                    }
                }
            }
            assert forall|n: u64| #[trigger]
                lookup(nw, n) == (if n == k {
                    Some(v)
                } else {
                    lookup(o, n)
                }) by {
                if n == k {
                    lemma_lookup_at(nw, i as int);
                } else if has_key(o, n) {
                    let j = choose|j: int| 0 <= j < o.len() && o[j].0 == n;
                    lemma_lookup_at(o, j);
                    if j < i {
                        lemma_lookup_at(nw, j);
                    } else {
                        lemma_lookup_at(nw, j + 1);
                    }
                }
            }
        }
    }
}

} // verus!

verus! {

/// The first target for `node`.
pub open spec fn spec_target(targets: Seq<Target>, node: u64) -> Option<Target>
    decreases targets.len(),
{
    if targets.len() == 0 {
        None
    } else if targets[0].node == node {
        Some(targets[0])
    } else {
        spec_target(targets.drop_first(), node)
    }
}

fn find_target(targets: &[Target], node: u64) -> (r: Option<&Target>)
    ensures
        match r {
            Some(t) => spec_target(targets@, node) == Some(*t),
            None => spec_target(targets@, node) is None,
        },
{
    let mut i: usize = 0;
    assert(targets@.skip(0) =~= targets@);
    while i < targets.len()
        invariant
            i <= targets@.len(),
            spec_target(targets@, node) == spec_target(targets@.skip(i as int), node),
        decreases targets@.len() - i,
    {
        assert(targets@.skip(i as int).drop_first() =~= targets@.skip(i + 1));
        assert(targets@.skip(i as int)[0] == targets@[i as int]);
        if targets[i].node == node {
            return Some(&targets[i]);
        }
        i += 1;
    }
    None
}

/// The live value a control starts from.
pub open spec fn initial_value(c: ControlInitial) -> ControlValue {
    match c {
        ControlInitial::Text(s) => ControlValue::Text(s),
        ControlInitial::Checkbox { checked, value } => ControlValue::Checkbox { checked, value },
    }
}

fn initial_value_of(c: &ControlInitial) -> (r: ControlValue)
    ensures
        r == initial_value(*c),
{
    match c {
        ControlInitial::Text(s) => ControlValue::Text(s.clone()),
        ControlInitial::Checkbox { checked, value } => ControlValue::Checkbox {
            checked: *checked,
            value: value.clone(),
        },
    }
}

/// The initial value of the last control for `n` among the first `k` controls.
pub open spec fn control_lookup(cs: Seq<Control>, n: u64) -> Option<ControlValue>
    decreases cs.len(),
{
    if cs.len() == 0 {
        None
    } else if cs.last().node == n {
        Some(initial_value(cs.last().initial))
    } else {
        control_lookup(cs.drop_last(), n)
    }
}

/// The clamped offset that `ScrollTree::clamp` gives.
pub open spec fn spec_clamp(t: ScrollTree, o: ScrollOffset) -> ScrollOffset {
    let mx = crate::interaction::max_int(t.spec_content().0 - t.spec_viewport().0, 0);
    let my = crate::interaction::max_int(t.spec_content().1 - t.spec_viewport().1, 0);
    ScrollOffset {
        x: (if o.x < 0 {
            0
        } else if o.x > mx {
            mx
        } else {
            o.x as int
        }) as i32,
        y: (if o.y < 0 {
            0
        } else if o.y > my {
            my
        } else {
            o.y as int
        }) as i32,
    }
}

fn clamp_offset(t: &ScrollTree, o: ScrollOffset) -> (r: ScrollOffset)
    requires
        t.wf(),
    ensures
        r == spec_clamp(*t, o),
{
    t.clamp(o)
}

/// A new view: controls restart from their initial values, focus and press
/// survive only on nodes the view still has, the scroll offset is clamped.
pub open spec fn spec_reconcile(view: InteractionView, s: StateModel) -> StateModel {
    StateModel {
        scroll: spec_clamp(view.scroll_tree, s.scroll),
        focused: match s.focused {
            Some(f) => if view.focus_chain@.contains(f) {
                Some(f)
            } else {
                None
            },
            None => None,
        },
        pressed: match s.pressed {
            Some(p) => if spec_target(view.targets@, p) is Some {
                Some(p)
            } else {
                None
            },
            None => None,
        },
        values: control_map(view.controls@),
    }
}

/// Mutable focus, pointer, scroll, and form-control state for one document.
#[derive(Clone, Debug)]
pub struct InteractionState {
    scroll: ScrollOffset,
    focused: Option<u64>,
    pressed: Option<u64>,
    values: Vec<(u64, ControlValue)>,
}

impl InteractionState {
    pub closed spec fn spec_scroll(&self) -> ScrollOffset {
        self.scroll
    }

    pub closed spec fn spec_focused(&self) -> Option<u64> {
        self.focused
    }

    pub closed spec fn spec_pressed(&self) -> Option<u64> {
        self.pressed
    }

    pub closed spec fn spec_values(&self) -> Seq<(u64, ControlValue)> {
        self.values@
    }

    /// The control values are an ordered map.
    pub open spec fn wf(&self) -> bool {
        keys_sorted(self.spec_values())
    }

    /// No scroll, no focus, nothing pressed and no control values.
    pub open spec fn is_initial(&self) -> bool {
        &&& self.wf()
        &&& self.spec_scroll() == ScrollOffset { x: 0, y: 0 }
        &&& self.spec_focused() is None
        &&& self.spec_pressed() is None
        &&& self.spec_values().len() == 0
    }

    /// The initial state.
    pub fn new() -> (r: Self)
        ensures
            r.is_initial(),
    {
        InteractionState {
            scroll: ScrollOffset { x: 0, y: 0 },
            focused: None,
            pressed: None,
            values: Vec::new(),
        }
    }

    pub fn scroll_offset(&self) -> (r: ScrollOffset)
        ensures
            r == self.spec_scroll(),
    {
        self.scroll
    }

    pub fn focused_node(&self) -> (r: Option<u64>)
        ensures
            r == self.spec_focused(),
    {
        self.focused
    }

    /// The live text of a text control.
    pub fn text_value(&self, node: u64) -> (r: Option<&str>)
        requires
            self.wf(),
        ensures
            match lookup(self.spec_values(), node) {
                Some(ControlValue::Text(v)) => r matches Some(s) && s@ == v@,
                _ => r is None,
            },
    {
        match find_key(&self.values, node) {
            Some(i) => match &self.values[i].1 {
                ControlValue::Text(v) => Some(v.as_str()),
                _ => None,
            },
            None => None,
        }
    }

    /// Whether a checkbox is checked.
    pub fn checkbox_checked(&self, node: u64) -> (r: Option<bool>)
        requires
            self.wf(),
        ensures
            r == (match lookup(self.spec_values(), node) {
                Some(ControlValue::Checkbox { checked, .. }) => Some(checked),
                _ => None,
            }),
    {
        match find_key(&self.values, node) {
            Some(i) => match &self.values[i].1 {
                ControlValue::Checkbox { checked, .. } => Some(*checked),
                _ => None,
            },
            None => None,
        }
    }

    /// Back to the initial state.
    pub fn reset(&mut self)
        ensures
            final(self).is_initial(),
    {
        *self = InteractionState::new();
    }

    /// Takes a new view of the document: every control starts again from its
    /// initial value, focus and press are dropped when their node is gone,
    /// and the scroll offset is clamped to the new bounds.
    pub fn reconcile(&mut self, view: &InteractionView)
        requires
            view.scroll_tree.wf(),
        ensures
            final(self).wf(),
            forall|n: u64| #[trigger]
                lookup(final(self).spec_values(), n) == control_lookup(view.controls@, n),
            final(self).spec_focused() == (match old(self).spec_focused() {
                Some(f) => if view.focus_chain@.contains(f) {
                    Some(f)
                } else {
                    None
                },
                None => None,
            }),
            final(self).spec_pressed() == (match old(self).spec_pressed() {
                Some(p) => if spec_target(view.targets@, p) is Some {
                    Some(p)
                } else {
                    None
                },
                None => None,
            }),
            final(self).spec_scroll() == spec_clamp(view.scroll_tree, old(self).spec_scroll()),
            final(self)@ == spec_reconcile(*view, old(self)@),
    {
        let mut values: Vec<(u64, ControlValue)> = Vec::new();
        let mut i: usize = 0;
        while i < view.controls.len()
            invariant
                i <= view.controls@.len(),
                keys_sorted(values@),
                forall|n: u64| #[trigger]
                    lookup(values@, n) == control_lookup(view.controls@.take(i as int), n),
            decreases view.controls@.len() - i,
        {
            let control = &view.controls[i];
            let v = initial_value_of(&control.initial);
            map_insert(&mut values, control.node, v);
            proof {
                assert(view.controls@.take(i + 1).drop_last() =~= view.controls@.take(i as int));
                assert(view.controls@.take(i + 1).last() == *control);
            }
            i += 1;
        }
        assert(view.controls@.take(view.controls@.len() as int) =~= view.controls@);
        self.values = values;
        if let Some(f) = self.focused {
            if !contains_node(&view.focus_chain, f) {
                self.focused = None;
            }
        }
        if let Some(p) = self.pressed {
            if find_target(&view.targets, p).is_none() {
                self.pressed = None;
            }
        }
        self.scroll = clamp_offset(&view.scroll_tree, self.scroll);
        proof {
            lemma_control_map(view.controls@);
            assert(values_model(self.values@) =~= control_map(view.controls@)) by {
                assert forall|n: u64| #[trigger] values_model(self.values@).contains_key(n)
                    == control_map(view.controls@).contains_key(n) by {
                    assert(has_key(self.values@, n) == (lookup(self.values@, n) is Some));
                }
            }
        }
    }
}

fn contains_node(v: &Vec<u64>, n: u64) -> (r: bool)
    ensures
        r == v@.contains(n),
{
    let mut i: usize = 0;
    while i < v.len()
        invariant
            i <= v@.len(),
            forall|j: int| 0 <= j < i ==> v@[j] != n,
        decreases v@.len() - i,
    {
        if v[i] == n {
            return true;
        }
        i += 1;
    }
    false
}

} // verus!

verus! {

/// The content of a control value.
pub enum ControlValueModel {
    Text(Seq<char>),
    Checkbox { checked: bool, value: Seq<char> },
}

pub open spec fn value_model(v: ControlValue) -> ControlValueModel {
    match v {
        ControlValue::Text(s) => ControlValueModel::Text(s@),
        ControlValue::Checkbox { checked, value } => ControlValueModel::Checkbox {
            checked,
            value: value@,
        },
    }
}

/// The control values of an ordered entry list as a map.
pub open spec fn values_model(vs: Seq<(u64, ControlValue)>) -> Map<u64, ControlValueModel> {
    Map::new(|n: u64| has_key(vs, n), |n: u64| value_model(lookup(vs, n)->0))
}

/// What an interaction state holds.
pub struct StateModel {
    pub scroll: ScrollOffset,
    pub focused: Option<u64>,
    pub pressed: Option<u64>,
    pub values: Map<u64, ControlValueModel>,
}

impl View for InteractionState {
    type V = StateModel;

    open spec fn view(&self) -> StateModel {
        StateModel {
            scroll: self.spec_scroll(),
            focused: self.spec_focused(),
            pressed: self.spec_pressed(),
            values: values_model(self.spec_values()),
        }
    }
}

/// The initial values of the controls, later controls of a node winning.
pub open spec fn control_map(cs: Seq<Control>) -> Map<u64, ControlValueModel>
    decreases cs.len(),
{
    if cs.len() == 0 {
        Map::empty()
    } else {
        control_map(cs.drop_last()).insert(cs.last().node, value_model(initial_value(cs.last().initial)))
    }
}

proof fn lemma_control_map(cs: Seq<Control>)
    ensures
        forall|n: u64| #[trigger] control_map(cs).contains_key(n) == (control_lookup(cs, n) is Some),
        forall|n: u64|
            control_map(cs).contains_key(n) ==> #[trigger] control_map(cs)[n] == value_model(
                control_lookup(cs, n)->0,
            ),
    decreases cs.len(),
{
    if cs.len() > 0 {
        lemma_control_map(cs.drop_last());
    }
}

/// A navigation request as plain text.
pub enum NavModel {
    Url(Seq<char>),
    FormGet { action: Seq<char>, pairs: Seq<(Seq<char>, Seq<char>)> },
}

/// An interaction result as plain values.
pub struct ResultModel {
    pub redraw: bool,
    pub navigation: Option<NavModel>,
    pub submitted_form: Option<u64>,
}

pub open spec fn nav_model(n: NavigationRequest) -> NavModel {
    match n {
        NavigationRequest::Url(u) => NavModel::Url(u@),
        NavigationRequest::FormGet { action, pairs } => NavModel::FormGet {
            action: action@,
            pairs: Seq::new(pairs@.len(), |i: int| (pairs@[i].0@, pairs@[i].1@)),
        },
    }
}

pub open spec fn result_model(r: InteractionResult) -> ResultModel {
    ResultModel {
        redraw: r.redraw,
        navigation: match r.navigation {
            Some(n) => Some(nav_model(n)),
            None => None,
        },
        submitted_form: r.submitted_form,
    }
}

pub open spec fn no_result() -> ResultModel {
    ResultModel { redraw: false, navigation: None, submitted_form: None }
}

pub open spec fn redraw_result() -> ResultModel {
    ResultModel { redraw: true, navigation: None, submitted_form: None }
}

/// The point in document space, when it fits in `i32`.
pub open spec fn hit_fits(point: InteractionPoint, scroll: ScrollOffset) -> bool {
    crate::layout::in_i32(point.x + scroll.x) && crate::layout::in_i32(point.y + scroll.y)
}

/// The target under a viewport point: the topmost hit-test entry at the
/// scrolled document point, and that entry's node's target.
pub open spec fn spec_hit_target(view: InteractionView, point: InteractionPoint, scroll: ScrollOffset) -> Option<
    Target,
> {
    let doc = InteractionPoint { x: (point.x + scroll.x) as i32, y: (point.y + scroll.y) as i32 };
    match spec_last_hit(view.hit_tests.entries@, doc, view.hit_tests.entries@.len() as int) {
        Some(e) => spec_target(view.targets@, e.node),
        None => None,
    }
}

fn hit_target<'a>(view: &'a InteractionView, point: InteractionPoint, scroll: ScrollOffset) -> (r: Option<
    &'a Target,
>)
    requires
        hit_fits(point, scroll),
    ensures
        match r {
            Some(t) => spec_hit_target(*view, point, scroll) == Some(*t),
            None => spec_hit_target(*view, point, scroll) is None,
        },
{
    let doc = InteractionPoint::new(point.x + scroll.x, point.y + scroll.y);
    match view.hit_tests.hit_test(doc) {
        Some(entry) => find_target(&view.targets, entry.node),
        None => None,
    }
}

/// The first form descriptor for `form`.
pub open spec fn spec_form(forms: Seq<FormInfo>, form: u64) -> Option<FormInfo>
    decreases forms.len(),
{
    if forms.len() == 0 {
        None
    } else if forms[0].node == form {
        Some(forms[0])
    } else {
        spec_form(forms.drop_first(), form)
    }
}

/// Name/value pairs of the successful, named controls of `form`, in control
/// order: text values, and the values of checked checkboxes.
pub open spec fn control_pairs(cs: Seq<Control>, form: u64, values: Map<u64, ControlValueModel>) -> Seq<
    (Seq<char>, Seq<char>),
>
    decreases cs.len(),
{
    if cs.len() == 0 {
        Seq::empty()
    } else {
        let prev = control_pairs(cs.drop_last(), form, values);
        let c = cs.last();
        if c.form == Some(form) && c.successful && c.name is Some && c.name->0@.len() > 0
            && values.contains_key(c.node) {
            match values[c.node] {
                ControlValueModel::Text(v) => prev.push((c.name->0@, v)),
                ControlValueModel::Checkbox { checked, value } => if checked {
                    prev.push((c.name->0@, value))
                } else {
                    prev
                },
            }
        } else {
            prev
        }
    }
}

/// The GET submission of `form`, with the activating button's own pair last.
pub open spec fn spec_submission(
    view: InteractionView,
    form: u64,
    values: Map<u64, ControlValueModel>,
    button: Option<u64>,
) -> Option<NavModel> {
    match spec_form(view.forms@, form) {
        None => None,
        Some(f) => if !f.get {
            None
        } else {
            let pairs = control_pairs(view.controls@, form, values);
            let all = match button {
                Some(b) => match spec_target(view.targets@, b) {
                    Some(t) => match t.kind {
                        TargetKind::Button { name: Some(nm), value, .. } => if nm@.len() > 0 {
                            pairs.push((nm@, value@))
                        } else {
                            pairs
                        },
                        _ => pairs,
                    },
                    None => pairs,
                },
                None => pairs,
            };
            Some(NavModel::FormGet { action: f.action@, pairs: all })
        },
    }
}

} // verus!

verus! {

pub open spec fn pairs_view(p: Seq<(String, String)>) -> Seq<(Seq<char>, Seq<char>)> {
    Seq::new(p.len(), |i: int| (p[i].0@, p[i].1@))
}

fn find_form(forms: &[FormInfo], form: u64) -> (r: Option<&FormInfo>)
    ensures
        match r {
            Some(f) => spec_form(forms@, form) == Some(*f),
            None => spec_form(forms@, form) is None,
        },
{
    let mut i: usize = 0;
    assert(forms@.skip(0) =~= forms@);
    while i < forms.len()
        invariant
            i <= forms@.len(),
            spec_form(forms@, form) == spec_form(forms@.skip(i as int), form),
        decreases forms@.len() - i,
    {
        assert(forms@.skip(i as int).drop_first() =~= forms@.skip(i + 1));
        assert(forms@.skip(i as int)[0] == forms@[i as int]);
        if forms[i].node == form {
            return Some(&forms[i]);
        }
        i += 1;
    }
    None
}

impl InteractionState {
    /// The GET submission of `form` with the current control values, if the
    /// form exists and submits with GET.
    fn submission(&self, view: &InteractionView, form: u64, button: Option<u64>) -> (r: Option<
        NavigationRequest,
    >)
        requires
            self.wf(),
        ensures
            match r {
                Some(n) => spec_submission(*view, form, self@.values, button) == Some(nav_model(n)),
                None => spec_submission(*view, form, self@.values, button) is None,
            },
    {
        let descriptor = match find_form(&view.forms, form) {
            None => return None,
            Some(d) => d,
        };
        if !descriptor.get {
            return None;
        }
        let ghost values = self@.values;
        let mut pairs: Vec<(String, String)> = Vec::new();
        let mut i: usize = 0;
        while i < view.controls.len()
            invariant
                i <= view.controls@.len(),
                self.wf(),
                values == self@.values,
                pairs_view(pairs@) == control_pairs(view.controls@.take(i as int), form, values),
            decreases view.controls@.len() - i,
        {
            let control = &view.controls[i];
            assert(view.controls@.take(i + 1).drop_last() =~= view.controls@.take(i as int));
            assert(view.controls@.take(i + 1).last() == *control);
            let ghost before = pairs@;
            let ghost prev = control_pairs(view.controls@.take(i as int), form, values);
            assert(pairs_view(before) == prev);
            if !(control.form == Some(form) && control.successful) {
                assert(control_pairs(view.controls@.take(i + 1), form, values) == prev);
            }
            if control.form == Some(form) && control.successful {
                if let Some(name) = &control.name {
                    if !name.as_str().is_empty() {
                        let found = find_key(&self.values, control.node);
                        match found {
                            Some(k) => {
                                match &self.values[k].1 {
                                    ControlValue::Text(v) => {
                                        pairs.push((name.clone(), v.clone()));
                                    },
                                    ControlValue::Checkbox { checked, value } => {
                                        if *checked {
                                            pairs.push((name.clone(), value.clone()));
                                        }
                                    },
                                }
                            },
                            None => {},
                        }
                        assert(pairs_view(pairs@) =~= control_pairs(
                            view.controls@.take(i + 1),
                            form,
                            values,
                        ));
                    } else {
                        assert(control_pairs(view.controls@.take(i + 1), form, values) == prev);
                    }
                } else {
                    assert(control_pairs(view.controls@.take(i + 1), form, values) == prev);
                }
            }
            assert(pairs_view(pairs@) =~= control_pairs(view.controls@.take(i + 1), form, values));
            i += 1;
        }
        assert(view.controls@.take(view.controls@.len() as int) =~= view.controls@);
        let ghost base = control_pairs(view.controls@, form, values);
        assert(pairs_view(pairs@) == base);
        if let Some(b) = button {
            if let Some(t) = find_target(&view.targets, b) {
                if let TargetKind::Button { name: Some(name), value, .. } = &t.kind {
                    if !name.as_str().is_empty() {
                        pairs.push((name.clone(), value.clone()));
                        assert(pairs_view(pairs@) =~= base.push((name@, value@)));
                    } else {
                    }
                }
            }
        }
        let action = descriptor.action.clone();
        let ghost pv = pairs_view(pairs@);
        let r = NavigationRequest::FormGet { action, pairs };
        assert(nav_model(r) == (NavModel::FormGet { action: descriptor.action@, pairs: pv }));
        Some(r)
    }
}

} // verus!

verus! {

proof fn lemma_values_model_insert(
    o: Seq<(u64, ControlValue)>,
    n: Seq<(u64, ControlValue)>,
    k: u64,
    v: ControlValue,
)
    requires
        forall|m: u64| #[trigger]
            lookup(n, m) == (if m == k {
                Some(v)
            } else {
                lookup(o, m)
            }),
        forall|m: u64| #[trigger] has_key(n, m) == (m == k || has_key(o, m)),
    ensures
        values_model(n) == values_model(o).insert(k, value_model(v)),
{
    assert(values_model(n) =~= values_model(o).insert(k, value_model(v))) by {
        assert forall|m: u64| #[trigger] values_model(n).contains_key(m) == values_model(o).insert(
            k,
            value_model(v),
        ).contains_key(m) by {
            assert(has_key(n, m) == (m == k || has_key(o, m)));
        }
        assert forall|m: u64| values_model(n).contains_key(m) implies #[trigger] values_model(n)[m]
            == values_model(o).insert(k, value_model(v))[m] by {
            assert(lookup(n, m) == (if m == k {
                Some(v)
            } else {
                lookup(o, m)
            }));
        }
    }
}

/// Whether `c` is a control character (general category Cc).
pub open spec fn is_control_char(c: char) -> bool {
    c <= '\u{1f}' || ('\u{7f}' <= c && c <= '\u{9f}')
}

/// `text` without its control characters.
pub open spec fn without_controls(text: Seq<char>) -> Seq<char>
    decreases text.len(),
{
    if text.len() == 0 {
        Seq::empty()
    } else if is_control_char(text.last()) {
        without_controls(text.drop_last())
    } else {
        without_controls(text.drop_last()).push(text.last())
    }
}

pub open spec fn with_value(s: StateModel, node: u64, v: ControlValueModel) -> StateModel {
    StateModel { values: s.values.insert(node, v), ..s }
}

/// Activating a node: a link navigates, a checkbox toggles, a submit button
/// of a form submits it, another button only redraws.
pub open spec fn spec_activate(view: InteractionView, s: StateModel, node: u64) -> (StateModel, ResultModel) {
    match spec_target(view.targets@, node) {
        None => (s, no_result()),
        Some(t) => match t.kind {
            TargetKind::Link(url) => (
                s,
                ResultModel { redraw: true, navigation: Some(NavModel::Url(url@)), submitted_form: None },
            ),
            TargetKind::TextInput { .. } => (s, no_result()),
            TargetKind::Checkbox => if s.values.contains_key(node) {
                match s.values[node] {
                    ControlValueModel::Checkbox { checked, value } => (
                        with_value(s, node, ControlValueModel::Checkbox { checked: !checked, value }),
                        redraw_result(),
                    ),
                    _ => (s, no_result()),
                }
            } else {
                (s, no_result())
            },
            TargetKind::Button { form, submits, .. } => if form is Some && submits {
                match spec_submission(view, form->0, s.values, Some(node)) {
                    Some(n) => (
                        s,
                        ResultModel { redraw: true, navigation: Some(n), submitted_form: form },
                    ),
                    None => (s, no_result()),
                }
            } else {
                (s, redraw_result())
            },
        },
    }
}

/// First position of `n` in the focus chain.
pub open spec fn spec_position(chain: Seq<u64>, n: u64) -> Option<int>
    decreases chain.len(),
{
    if chain.len() == 0 {
        None
    } else if chain.last() == n && spec_position(chain.drop_last(), n) is None {
        Some(chain.len() - 1)
    } else {
        spec_position(chain.drop_last(), n)
    }
}

/// Moving focus along the chain, wrapping at either end.
pub open spec fn spec_focus_next(view: InteractionView, s: StateModel, reverse: bool) -> (StateModel, bool) {
    let chain = view.focus_chain@;
    if chain.len() == 0 {
        (s, false)
    } else {
        let current = match s.focused {
            Some(f) => spec_position(chain, f),
            None => None,
        };
        let next = match current {
            Some(i) => if !reverse {
                (i + 1) % (chain.len() as int)
            } else if i == 0 {
                chain.len() - 1
            } else {
                i - 1
            },
            None => if reverse {
                chain.len() - 1
            } else {
                0
            },
        };
        (StateModel { focused: Some(chain[next]), ..s }, s.focused != Some(chain[next]))
    }
}

/// Whether a key activates a focused target of this kind.
pub open spec fn activates(kind: TargetKind, command: KeyboardCommand) -> bool {
    match (kind, command) {
        (TargetKind::Link(_), KeyboardCommand::Enter) => true,
        (TargetKind::Button { .. }, KeyboardCommand::Enter) => true,
        (TargetKind::Button { .. }, KeyboardCommand::Space) => true,
        (TargetKind::Checkbox, KeyboardCommand::Enter) => true,
        (TargetKind::Checkbox, KeyboardCommand::Space) => true,
        _ => false,
    }
}

/// A key press: Tab moves focus; typing and Backspace edit a focused text
/// input; Enter submits a text input's form; Enter or Space activate a
/// focused link, button or checkbox when default actions are allowed.
pub open spec fn spec_keyboard(
    view: InteractionView,
    s: StateModel,
    command: KeyboardCommand,
    allow_default: bool,
) -> (StateModel, ResultModel) {
    if command is Tab {
        let (s2, changed) = spec_focus_next(view, s, command->reverse);
        (s2, ResultModel { redraw: changed, navigation: None, submitted_form: None })
    } else {
        match s.focused {
            None => (s, no_result()),
            Some(f) => match spec_target(view.targets@, f) {
                None => (s, no_result()),
                Some(t) => if t.kind is TextInput && command is Text {
                    if s.values.contains_key(f) && s.values[f] is Text {
                        (
                            with_value(
                                s,
                                f,
                                ControlValueModel::Text(
                                    s.values[f]->Text_0 + without_controls(command->Text_0@),
                                ),
                            ),
                            redraw_result(),
                        )
                    } else {
                        (s, no_result())
                    }
                } else if t.kind is TextInput && command is Backspace {
                    if s.values.contains_key(f) && s.values[f] is Text {
                        let v = s.values[f]->Text_0;
                        if v.len() > 0 {
                            (with_value(s, f, ControlValueModel::Text(v.drop_last())), redraw_result())
                        } else {
                            (s, no_result())
                        }
                    } else {
                        (s, no_result())
                    }
                } else if t.kind is TextInput && command is Enter {
                    match t.kind->TextInput_form {
                        Some(form) => match spec_submission(view, form, s.values, None) {
                            Some(n) => (
                                s,
                                ResultModel {
                                    redraw: true,
                                    navigation: Some(n),
                                    submitted_form: Some(form),
                                },
                            ),
                            None => (s, no_result()),
                        },
                        None => (s, no_result()),
                    }
                } else if activates(t.kind, command) && allow_default {
                    spec_activate(view, s, f)
                } else {
                    (s, no_result())
                },
            },
        }
    }
}

/// Pressing the pointer focuses and presses the target under it (or clears both).
pub open spec fn spec_pointer_down(view: InteractionView, s: StateModel, point: InteractionPoint) -> (
    StateModel,
    ResultModel,
) {
    let n = match spec_hit_target(view, point, s.scroll) {
        Some(t) => Some(t.node),
        None => None,
    };
    (
        StateModel { pressed: n, focused: n, ..s },
        ResultModel { redraw: s.focused != n, navigation: None, submitted_form: None },
    )
}

/// The pressed node, if the pointer is released over it.
pub open spec fn spec_click_target(view: InteractionView, s: StateModel, point: InteractionPoint) -> Option<
    u64,
> {
    let released = match spec_hit_target(view, point, s.scroll) {
        Some(t) => Some(t.node),
        None => None,
    };
    match s.pressed {
        Some(p) => if released == Some(p) {
            Some(p)
        } else {
            None
        },
        None => None,
    }
}

/// Releasing the pointer clears the press and activates a clicked target
/// when default actions are allowed.
pub open spec fn spec_pointer_up(
    view: InteractionView,
    s: StateModel,
    point: InteractionPoint,
    allow_default: bool,
) -> (StateModel, ResultModel) {
    let target = spec_click_target(view, s, point);
    let s1 = StateModel { pressed: None, ..s };
    if allow_default {
        match target {
            Some(n) => spec_activate(view, s1, n),
            None => (s1, no_result()),
        }
    } else {
        (s1, no_result())
    }
}

} // verus!

verus! {

fn set_value(values: &mut Vec<(u64, ControlValue)>, node: u64, v: ControlValue)
    requires
        keys_sorted(old(values)@),
    ensures
        keys_sorted(final(values)@),
        values_model(final(values)@) == values_model(old(values)@).insert(node, value_model(v)),
{
    let ghost o = values@;
    map_insert(values, node, v);
    proof {
        lemma_values_model_insert(o, values@, node, v);
    }
}

fn find_value(values: &Vec<(u64, ControlValue)>, node: u64) -> (r: Option<&ControlValue>)
    requires
        keys_sorted(values@),
    ensures
        values_model(values@).contains_key(node) == (r is Some),
        r matches Some(v) ==> values_model(values@)[node] == value_model(*v),
{
    match find_key(values, node) {
        Some(i) => Some(&values[i].1),
        None => None,
    }
}

fn without_control_chars(text: &str) -> (r: Vec<char>)
    ensures
        r@ == without_controls(text@),
{
    let chars = crate::text_util::str_to_chars(text);
    let mut out: Vec<char> = Vec::new();
    let mut i: usize = 0;
    while i < chars.len()
        invariant
            i <= chars@.len(),
            chars@ == text@,
            out@ == without_controls(chars@.take(i as int)),
        decreases chars@.len() - i,
    {
        let c = chars[i];
        assert(chars@.take(i + 1).drop_last() =~= chars@.take(i as int));
        if !(c <= '\u{1f}' || ('\u{7f}' <= c && c <= '\u{9f}')) {
            out.push(c);
        }
        i += 1;
    }
    assert(chars@.take(chars@.len() as int) =~= chars@);
    out
}

impl InteractionState {
    fn activate(&mut self, view: &InteractionView, node: u64) -> (r: InteractionResult)
        requires
            old(self).wf(),
        ensures
            final(self).wf(),
            (final(self)@, result_model(r)) == spec_activate(*view, old(self)@, node),
    {
        let target = match find_target(&view.targets, node) {
            None => return InteractionResult::none(),
            Some(t) => t,
        };
        match &target.kind {
            TargetKind::Link(url) => InteractionResult {
                redraw: true,
                navigation: Some(NavigationRequest::Url(url.clone())),
                submitted_form: None,
            },
            TargetKind::TextInput { .. } => InteractionResult::none(),
            TargetKind::Checkbox => {
                let current = find_value(&self.values, node);
                match current {
                    Some(ControlValue::Checkbox { checked, value }) => {
                        let toggled = ControlValue::Checkbox { checked: !*checked, value: value.clone() };
                        set_value(&mut self.values, node, toggled);
                        InteractionResult::redraw_only()
                    },
                    _ => InteractionResult::none(),
                }
            },
            TargetKind::Button { form, submits, .. } => {
                if form.is_some() && *submits {
                    let f = form.unwrap();
                    match self.submission(view, f, Some(node)) {
                        Some(n) => InteractionResult {
                            redraw: true,
                            navigation: Some(n),
                            submitted_form: Some(f),
                        },
                        None => InteractionResult::none(),
                    }
                } else {
                    InteractionResult::redraw_only()
                }
            },
        }
    }

    fn focus_next(&mut self, view: &InteractionView, reverse: bool) -> (changed: bool)
        requires
            old(self).wf(),
        ensures
            final(self).wf(),
            (final(self)@, changed) == spec_focus_next(*view, old(self)@, reverse),
    {
        let len = view.focus_chain.len();
        if len == 0 {
            return false;
        }
        let current = match self.focused {
            Some(f) => position_of(&view.focus_chain, f),
            None => None,
        };
        proof {
            if let Some(f) = self.focused {
                lemma_position_bounds(view.focus_chain@, f);
            }
        }
        let next: usize = match current {
            Some(i) => if !reverse {
                (i + 1) % len
            } else if i == 0 {
                len - 1
            } else {
                i - 1
            },
            None => if reverse {
                len - 1
            } else {
                0
            },
        };
        let n = view.focus_chain[next];
        let changed = self.focused != Some(n);
        self.focused = Some(n);
        changed
    }

    /// The node that a key would click: the focused link, button or checkbox
    /// for the keys that activate it.
    pub fn keyboard_click_target(&self, view: &InteractionView, command: &KeyboardCommand) -> (r: Option<u64>)
        ensures
            r == (match self@.focused {
                Some(f) => match spec_target(view.targets@, f) {
                    Some(t) => if activates(t.kind, *command) {
                        Some(f)
                    } else {
                        None
                    },
                    None => None,
                },
                None => None,
            }),
    {
        let focused = match self.focused {
            Some(f) => f,
            None => return None,
        };
        let target = match find_target(&view.targets, focused) {
            Some(t) => t,
            None => return None,
        };
        if activates_kind(&target.kind, command) {
            Some(focused)
        } else {
            None
        }
    }

    /// Dispatches a key with or without its default action.
    pub fn keyboard_with_default(
        &mut self,
        view: &InteractionView,
        command: KeyboardCommand,
        allow_default: bool,
    ) -> (r: InteractionResult)
        requires
            old(self).wf(),
        ensures
            final(self).wf(),
            (final(self)@, result_model(r)) == spec_keyboard(*view, old(self)@, command, allow_default),
    {
        if let KeyboardCommand::Tab { reverse } = command {
            let changed = self.focus_next(view, reverse);
            return InteractionResult { redraw: changed, navigation: None, submitted_form: None };
        }
        let focused = match self.focused {
            Some(f) => f,
            None => return InteractionResult::none(),
        };
        let target = match find_target(&view.targets, focused) {
            Some(t) => t,
            None => return InteractionResult::none(),
        };
        let is_text_input = match &target.kind {
            TargetKind::TextInput { .. } => true,
            _ => false,
        };
        if is_text_input {
            match &command {
                KeyboardCommand::Text(text) => {
                    let current = find_value(&self.values, focused);
                    match current {
                        Some(ControlValue::Text(v)) => {
                            let extra = without_control_chars(text.as_str());
                            let mut nv = v.clone();
                            let mut i: usize = 0;
                            while i < extra.len()
                                invariant
                                    i <= extra@.len(),
                                    nv@ == v@ + extra@.take(i as int),
                                decreases extra@.len() - i,
                            {
                                crate::text_util::string_push(&mut nv, extra[i]);
                                assert(v@ + extra@.take(i + 1) =~= (v@ + extra@.take(i as int)).push(
                                    extra@[i as int],
                                ));
                                i += 1;
                            }
                            assert(extra@.take(extra@.len() as int) =~= extra@);
                            set_value(&mut self.values, focused, ControlValue::Text(nv));
                            return InteractionResult::redraw_only();
                        },
                        _ => return InteractionResult::none(),
                    }
                },
                KeyboardCommand::Backspace => {
                    let current = find_value(&self.values, focused);
                    match current {
                        Some(ControlValue::Text(v)) => {
                            let chars = crate::text_util::str_to_chars(v.as_str());
                            if chars.len() > 0 {
                                let shorter = crate::text_util::chars_to_string(
                                    &chars.as_slice()[0..chars.len() - 1],
                                );
                                set_value(&mut self.values, focused, ControlValue::Text(shorter));
                                return InteractionResult::redraw_only();
                            } else {
                                return InteractionResult::none();
                            }
                        },
                        _ => return InteractionResult::none(),
                    }
                },
                KeyboardCommand::Enter => {
                    match &target.kind {
                        TargetKind::TextInput { form: Some(form) } => {
                            let f = *form;
                            return match self.submission(view, f, None) {
                                Some(n) => InteractionResult {
                                    redraw: true,
                                    navigation: Some(n),
                                    submitted_form: Some(f),
                                },
                                None => InteractionResult::none(),
                            };
                        },
                        _ => return InteractionResult::none(),
                    }
                },
                _ => {},
            }
        }
        if activates_kind(&target.kind, &command) && allow_default {
            self.activate(view, focused)
        } else {
            InteractionResult::none()
        }
    }

    /// Dispatches a key with its default action.
    pub fn keyboard(&mut self, view: &InteractionView, command: KeyboardCommand) -> (r: InteractionResult)
        requires
            old(self).wf(),
        ensures
            final(self).wf(),
            (final(self)@, result_model(r)) == spec_keyboard(*view, old(self)@, command, true),
    {
        self.keyboard_with_default(view, command, true)
    }
}

fn activates_kind(kind: &TargetKind, command: &KeyboardCommand) -> (r: bool)
    ensures
        r == activates(*kind, *command),
{
    match (kind, command) {
        (TargetKind::Link(_), KeyboardCommand::Enter) => true,
        (TargetKind::Button { .. }, KeyboardCommand::Enter) => true,
        (TargetKind::Button { .. }, KeyboardCommand::Space) => true,
        (TargetKind::Checkbox, KeyboardCommand::Enter) => true,
        (TargetKind::Checkbox, KeyboardCommand::Space) => true,
        _ => false,
    }
}

fn position_of(chain: &Vec<u64>, n: u64) -> (r: Option<usize>)
    ensures
        match r {
            Some(i) => spec_position(chain@, n) == Some(i as int),
            None => spec_position(chain@, n) is None,
        },
{
    let mut i: usize = 0;
    while i < chain.len()
        invariant
            i <= chain@.len(),
            spec_position(chain@.take(i as int), n) is None,
        decreases chain@.len() - i,
    {
        assert(chain@.take(i + 1).drop_last() =~= chain@.take(i as int));
        if chain[i] == n {
            proof {
                lemma_position_prefix(chain@, n, i + 1);
            }
            return Some(i);
        }
        i += 1;
    }
    assert(chain@.take(chain@.len() as int) =~= chain@);
    None
}

proof fn lemma_position_bounds(chain: Seq<u64>, n: u64)
    ensures
        spec_position(chain, n) matches Some(i) ==> 0 <= i < chain.len() && chain[i] == n,
    decreases chain.len(),
{
    if chain.len() > 0 {
        lemma_position_bounds(chain.drop_last(), n);
    }
}

proof fn lemma_position_prefix(chain: Seq<u64>, n: u64, k: int)
    requires
        0 < k <= chain.len(),
        spec_position(chain.take(k), n) == Some(k - 1),
    ensures
        spec_position(chain, n) == Some(k - 1),
    decreases chain.len() - k,
{
    if k < chain.len() {
        assert(chain.drop_last().take(k) =~= chain.take(k));
        lemma_position_prefix(chain.drop_last(), n, k);
    } else {
        assert(chain.take(k) =~= chain);
    }
}

} // verus!

verus! {

impl InteractionState {
    /// Scrolls by a delta, clamped to the view's bounds; reports whether the
    /// offset changed.
    pub fn scroll_by(&mut self, view: &InteractionView, delta_x: i32, delta_y: i32) -> (changed: bool)
        requires
            old(self).wf(),
            view.scroll_tree.wf(),
        ensures
            final(self).wf(),
            final(self)@ == (StateModel {
                scroll: spec_clamp(
                    view.scroll_tree,
                    ScrollOffset {
                        x: crate::layout::sat_i32(old(self)@.scroll.x + delta_x) as i32,
                        y: crate::layout::sat_i32(old(self)@.scroll.y + delta_y) as i32,
                    },
                ),
                ..old(self)@
            }),
            changed == (final(self)@.scroll != old(self)@.scroll),
    {
        let before = self.scroll;
        let moved = ScrollOffset {
            x: crate::layout::saturating_add_i32(self.scroll.x, delta_x),
            y: crate::layout::saturating_add_i32(self.scroll.y, delta_y),
        };
        self.scroll = clamp_offset(&view.scroll_tree, moved);
        !(self.scroll.x == before.x && self.scroll.y == before.y)
    }

    /// Presses and focuses the target under a viewport point.
    pub fn pointer_down(&mut self, view: &InteractionView, viewport_point: InteractionPoint) -> (r: InteractionResult)
        requires
            old(self).wf(),
            hit_fits(viewport_point, old(self)@.scroll),
        ensures
            final(self).wf(),
            (final(self)@, result_model(r)) == spec_pointer_down(*view, old(self)@, viewport_point),
    {
        let target = hit_target(view, viewport_point, self.scroll);
        let previous_focus = self.focused;
        let n = match target {
            Some(t) => Some(t.node),
            None => None,
        };
        self.pressed = n;
        self.focused = n;
        InteractionResult { redraw: previous_focus != n, navigation: None, submitted_form: None }
    }

    /// The pressed node, if releasing the pointer here clicks it.
    pub fn click_target(&self, view: &InteractionView, viewport_point: InteractionPoint) -> (r: Option<u64>)
        requires
            hit_fits(viewport_point, self@.scroll),
        ensures
            r == spec_click_target(*view, self@, viewport_point),
    {
        let released = match hit_target(view, viewport_point, self.scroll) {
            Some(t) => Some(t.node),
            None => None,
        };
        match self.pressed {
            Some(p) => if released == Some(p) {
                Some(p)
            } else {
                None
            },
            None => None,
        }
    }

    /// Releases the pointer, running the click's default action if allowed.
    pub fn pointer_up_with_default(
        &mut self,
        view: &InteractionView,
        viewport_point: InteractionPoint,
        allow_default: bool,
    ) -> (r: InteractionResult)
        requires
            old(self).wf(),
            hit_fits(viewport_point, old(self)@.scroll),
        ensures
            final(self).wf(),
            (final(self)@, result_model(r)) == spec_pointer_up(
                *view,
                old(self)@,
                viewport_point,
                allow_default,
            ),
    {
        let target = self.click_target(view, viewport_point);
        self.pressed = None;
        if allow_default {
            match target {
                Some(node) => self.activate(view, node),
                None => InteractionResult::none(),
            }
        } else {
            InteractionResult::none()
        }
    }

    /// Releases the pointer and runs the click's default action.
    pub fn pointer_up(&mut self, view: &InteractionView, viewport_point: InteractionPoint) -> (r: InteractionResult)
        requires
            old(self).wf(),
            hit_fits(viewport_point, old(self)@.scroll),
        ensures
            final(self).wf(),
            (final(self)@, result_model(r)) == spec_pointer_up(*view, old(self)@, viewport_point, true),
    {
        self.pointer_up_with_default(view, viewport_point, true)
    }

    /// The live control values in node order.
    pub fn control_states(&self) -> (r: Vec<FormControlState>)
        ensures
            r@.len() == self.spec_values().len(),
            forall|i: int|
                0 <= i < r@.len() ==> #[trigger] r@[i] == (match self.spec_values()[i].1 {
                    ControlValue::Text(v) => FormControlState::Text {
                        node: self.spec_values()[i].0,
                        value: v,
                    },
                    ControlValue::Checkbox { checked, .. } => FormControlState::Checkbox {
                        node: self.spec_values()[i].0,
                        checked,
                    },
                }),
    {
        let mut out: Vec<FormControlState> = Vec::new();
        let mut i: usize = 0;
        while i < self.values.len()
            invariant
                i <= self.values@.len(),
                out@.len() == i,
                forall|k: int|
                    0 <= k < i ==> #[trigger] out@[k] == (match self.values@[k].1 {
                        ControlValue::Text(v) => FormControlState::Text {
                            node: self.values@[k].0,
                            value: v,
                        },
                        ControlValue::Checkbox { checked, .. } => FormControlState::Checkbox {
                            node: self.values@[k].0,
                            checked,
                        },
                    }),
            decreases self.values@.len() - i,
        {
            let node = self.values[i].0;
            let state = match &self.values[i].1 {
                ControlValue::Text(v) => FormControlState::Text { node, value: v.clone() },
                ControlValue::Checkbox { checked, .. } => FormControlState::Checkbox {
                    node,
                    checked: *checked,
                },
            };
            out.push(state);
            i += 1;
        }
        out
    }
}

} // verus!

verus! {

/// Reconciling with the same view twice changes nothing the second time.
pub proof fn law_reconcile_idempotent(view: InteractionView, s: StateModel)
    requires
        view.scroll_tree.wf(),
    ensures
        spec_reconcile(view, spec_reconcile(view, s)) == spec_reconcile(view, s),
{
    let once = spec_reconcile(view, s);
    crate::interaction::law_clamp_in_bounds_and_idempotent(
        view.scroll_tree.spec_content().0 as int,
        view.scroll_tree.spec_viewport().0 as int,
        s.scroll.x as int,
    );
    crate::interaction::law_clamp_in_bounds_and_idempotent(
        view.scroll_tree.spec_content().1 as int,
        view.scroll_tree.spec_viewport().1 as int,
        s.scroll.y as int,
    );
    assert(spec_clamp(view.scroll_tree, once.scroll) == once.scroll);
}

/// Moving focus with a non-empty focus chain always lands on a node of the chain.
pub proof fn law_focus_stays_in_chain(view: InteractionView, s: StateModel, reverse: bool)
    requires
        view.focus_chain@.len() > 0,
    ensures
        spec_focus_next(view, s, reverse).0.focused matches Some(f) && view.focus_chain@.contains(f),
{
    let chain = view.focus_chain@;
    if let Some(f) = s.focused {
        lemma_position_bounds(chain, f);
    }
    let r = spec_focus_next(view, s, reverse).0;
    let current = match s.focused {
        Some(f) => spec_position(chain, f),
        None => None,
    };
    let next = match current {
        Some(i) => if !reverse {
            (i + 1) % (chain.len() as int)
        } else if i == 0 {
            chain.len() - 1
        } else {
            i - 1
        },
        None => if reverse {
            chain.len() - 1
        } else {
            0
        },
    };
    assert(0 <= next < chain.len());
    assert(r.focused == Some(chain[next]));
}

/// No node occurs twice in the focus chain.
pub open spec fn chain_unique(chain: Seq<u64>) -> bool {
    forall|i: int, j: int| 0 <= i < j < chain.len() ==> chain[i] != chain[j]
}

proof fn lemma_position_unique(chain: Seq<u64>, i: int)
    requires
        chain_unique(chain),
        0 <= i < chain.len(),
    ensures
        spec_position(chain, chain[i]) == Some(i),
    decreases chain.len(),
{
    if i < chain.len() - 1 {
        lemma_position_unique(chain.drop_last(), i);
        assert(chain.drop_last()[i] == chain[i]);
    } else {
        lemma_position_none(chain.drop_last(), chain[i]);
    }
}

proof fn lemma_position_none(chain: Seq<u64>, n: u64)
    requires
        !chain.contains(n),
    ensures
        spec_position(chain, n) is None,
    decreases chain.len(),
{
    if chain.len() > 0 {
        assert(chain.last() != n) by {
            assert(chain[chain.len() - 1] == chain.last());
        }
        assert forall|k: int| 0 <= k < chain.drop_last().len() implies chain.drop_last()[k] != n by {
            assert(chain.drop_last()[k] == chain[k]);
        }
        lemma_position_none(chain.drop_last(), n);
    }
}

/// With a focus chain free of repeats, Tab then Shift+Tab brings focus back
/// to the node that had it.
pub proof fn law_tab_then_back_restores_focus(view: InteractionView, s: StateModel)
    requires
        chain_unique(view.focus_chain@),
        s.focused matches Some(f) && view.focus_chain@.contains(f),
    ensures
        spec_focus_next(view, spec_focus_next(view, s, false).0, true).0.focused == s.focused,
{
    let chain = view.focus_chain@;
    let f = s.focused->0;
    let i = choose|i: int| 0 <= i < chain.len() && chain[i] == f;
    lemma_position_unique(chain, i);
    let j = (i + 1) % (chain.len() as int);
    assert(0 <= j < chain.len());
    lemma_position_unique(chain, j);
    if i + 1 < chain.len() {
        vstd::arithmetic::div_mod::lemma_small_mod((i + 1) as nat, chain.len());
        assert(j == i + 1);
    } else {
        assert(j == 0) by (nonlinear_arith)
            requires
                i + 1 == chain.len(),
                j == (i + 1) % (chain.len() as int),
                chain.len() > 0,
        ;
    }
}

/// Typing one printable character into a focused text input, then pressing
/// Backspace, leaves the state as it was.
pub proof fn law_type_then_backspace_restores_text(
    view: InteractionView,
    s: StateModel,
    typed: KeyboardCommand,
    c: char,
)
    requires
        typed matches KeyboardCommand::Text(t) && t@ == seq![c],
        !is_control_char(c),
        s.focused matches Some(f) && spec_target(view.targets@, f) matches Some(t) && t.kind is TextInput
            && s.values.contains_key(f) && s.values[f] is Text,
    ensures
        spec_keyboard(view, spec_keyboard(view, s, typed, true).0, KeyboardCommand::Backspace, true).0
            == s,
{
    let f = s.focused->0;
    let v = s.values[f]->Text_0;
    let t = typed->Text_0;
    assert(without_controls(seq![c]) == seq![c]) by {
        assert(seq![c].drop_last() =~= Seq::<char>::empty());
        assert(without_controls(Seq::<char>::empty()) == Seq::<char>::empty());
        assert(Seq::<char>::empty().push(c) =~= seq![c]);
    }
    assert(without_controls(t@) == seq![c]);
    let s1 = spec_keyboard(view, s, typed, true).0;
    assert(s1.values[f] == ControlValueModel::Text(v + seq![c]));
    assert((v + seq![c]).drop_last() =~= v);
    let s2 = spec_keyboard(view, s1, KeyboardCommand::Backspace, true).0;
    assert(s2.values =~= s.values);
}

/// Activating a checkbox twice leaves the state as it was.
pub proof fn law_checkbox_toggle_twice_restores(view: InteractionView, s: StateModel, node: u64)
    requires
        spec_target(view.targets@, node) matches Some(t) && t.kind is Checkbox,
        s.values.contains_key(node) && s.values[node] is Checkbox,
    ensures
        spec_activate(view, spec_activate(view, s, node).0, node).0 == s,
{
    let s1 = spec_activate(view, s, node).0;
    let s2 = spec_activate(view, s1, node).0;
    assert(s2.values =~= s.values);
}

} // verus!

verus! {

/// One attribute change to make on an element of the document.
#[derive(Clone, Debug, PartialEq, Eq)]
pub enum AttributeEdit {
    SetAttribute { node: u64, name: String, value: String },
    RemoveAttribute { node: u64, name: String },
}

/// The attribute change that writes one control's live state back to the
/// document: a text control's `value`, or a checkbox's `checked` flag.
pub open spec fn control_edit_matches(state: FormControlState, edit: AttributeEdit) -> bool {
    match state {
        FormControlState::Text { node, value } => edit matches AttributeEdit::SetAttribute { node: n, name, value: v }
            && n == node && name@ == "value"@ && v@ == value@,
        FormControlState::Checkbox { node, checked } => if checked {
            edit matches AttributeEdit::SetAttribute { node: n, name, value: v } && n == node && name@
                == "checked"@ && v@ == Seq::<char>::empty()
        } else {
            edit matches AttributeEdit::RemoveAttribute { node: n, name } && n == node && name@ == "checked"@
        },
    }
}

fn literal(s: &str) -> (r: String)
    ensures
        r@ == s@,
{
    crate::text_util::chars_to_string(crate::text_util::str_to_chars(s).as_slice())
}

/// The attribute changes that write the controls' live state back to the
/// document, one per control, in order.
pub fn form_control_edits(states: &[FormControlState]) -> (r: Vec<AttributeEdit>)
    ensures
        r@.len() == states@.len(),
        forall|i: int| 0 <= i < states@.len() ==> control_edit_matches(#[trigger] states@[i], r@[i]),
{
    let mut out: Vec<AttributeEdit> = Vec::new();
    let mut i: usize = 0;
    while i < states.len()
        invariant
            i <= states@.len(),
            out@.len() == i,
            forall|j: int| 0 <= j < i ==> control_edit_matches(#[trigger] states@[j], out@[j]),
        decreases states@.len() - i,
    {
        let edit = match &states[i] {
            FormControlState::Text { node, value } => {
                let v = value.clone();
                AttributeEdit::SetAttribute { node: *node, name: literal("value"), value: v }
            },
            FormControlState::Checkbox { node, checked } => if *checked {
                AttributeEdit::SetAttribute { node: *node, name: literal("checked"), value: String::new() }
            } else {
                AttributeEdit::RemoveAttribute { node: *node, name: literal("checked") }
            },
        };
        out.push(edit);
        i += 1;
    }
    out
}

} // verus!
