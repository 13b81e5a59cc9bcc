use meow_engine::document_view::{
    arrange_targets, collect_interactive, hit_test_list, invalid_form_controls, order_focus_chain,
    ElementFacts,
};
use meow_engine::interaction::HitTestKind;
use meow_engine::interaction_state::{ControlInitial, TargetKind};
use meow_engine::layout::{CssPx, LayoutRect};

fn element(node: u64, name: &str) -> ElementFacts {
    ElementFacts {
        node,
        local_name: Some(name.to_owned()),
        disabled: false,
        form: Some(1),
        text_content: String::new(),
        type_attr: None,
        name_attr: None,
        value_attr: None,
        checked: false,
        required: false,
        has_href: false,
        resolved_href: None,
        bounds: None,
    }
}

#[test]
fn elements_become_controls_targets_and_focus_stops() {
    let title = ElementFacts { text_content: "  My   page ".to_owned(), ..element(2, "TITLE") };
    let second_title = ElementFacts { text_content: "Other".to_owned(), ..element(3, "title") };
    let link = ElementFacts {
        has_href: true,
        resolved_href: Some("https://example.test/next".to_owned()),
        text_content: " Next\n page ".to_owned(),
        ..element(4, "a")
    };
    let broken_link = ElementFacts { has_href: true, ..element(5, "a") };
    let text = ElementFacts { name_attr: Some("q".to_owned()), ..element(6, "input") };
    let checkbox = ElementFacts {
        type_attr: Some("CheckBox".to_owned()),
        name_attr: Some("safe".to_owned()),
        checked: true,
        ..element(7, "input")
    };
    let hidden = ElementFacts {
        type_attr: Some("hidden".to_owned()),
        value_attr: Some("tok".to_owned()),
        ..element(8, "input")
    };
    let submit = ElementFacts { type_attr: Some("submit".to_owned()), ..element(9, "input") };
    let disabled = ElementFacts { disabled: true, ..element(10, "input") };
    let button = ElementFacts {
        type_attr: Some("reset".to_owned()),
        text_content: "Clear".to_owned(),
        ..element(11, "button")
    };
    let plain_button = element(12, "button");
    let other = element(13, "div");
    let parts = collect_interactive(&[
        title, second_title, link, broken_link, text, checkbox, hidden, submit, disabled, button,
        plain_button, other,
    ]);
    assert_eq!(parts.title.as_deref(), Some("My page"));
    assert_eq!(parts.focus_chain, vec![4, 6, 7, 9, 11, 12]);
    let nodes: Vec<u64> = parts.controls.iter().map(|c| c.node).collect();
    assert_eq!(nodes, vec![6, 7, 8]);
    assert_eq!(parts.controls[1].initial, ControlInitial::Checkbox { checked: true, value: "on".to_owned() });
    assert_eq!(parts.controls[2].initial, ControlInitial::Text("tok".to_owned()));
    assert_eq!(parts.targets[0].kind, TargetKind::Link("https://example.test/next".to_owned()));
    assert_eq!(parts.targets[0].label, "Next page");
    assert_eq!(parts.targets[2].label, "safe");
    assert_eq!(
        parts.targets[3].kind,
        TargetKind::Button { form: Some(1), name: None, value: String::new(), submits: true }
    );
    assert_eq!(parts.targets[3].label, "Submit");
    assert_eq!(
        parts.targets[4].kind,
        TargetKind::Button { form: Some(1), name: None, value: "Clear".to_owned(), submits: false }
    );
    assert_eq!(
        parts.targets[5].kind,
        TargetKind::Button { form: Some(1), name: None, value: "Button".to_owned(), submits: true }
    );
    assert_eq!(parts.targets[1].rect.width, CssPx(160));
    assert_eq!(parts.targets[2].rect.width, CssPx(18));
}

#[test]
fn focus_stops_follow_the_accessible_order() {
    assert_eq!(order_focus_chain(&vec![4, 6, 7, 9], &vec![9, 5, 4, 9, 7]), vec![9, 4, 7]);
    assert_eq!(order_focus_chain(&vec![1, 2], &vec![]), Vec::<u64>::new());
}

#[test]
fn hit_tests_mirror_targets_and_controls_flow_in_rows() {
    let parts = collect_interactive(&[
        ElementFacts { name_attr: Some("q".to_owned()), ..element(6, "input") },
        ElementFacts { type_attr: Some("checkbox".to_owned()), ..element(7, "input") },
        ElementFacts {
            has_href: true,
            resolved_href: Some("https://example.test/".to_owned()),
            bounds: Some(LayoutRect { x: CssPx(300), y: CssPx(40), width: CssPx(30), height: CssPx(10) }),
            ..element(4, "a")
        },
    ]);
    let mut targets = parts.targets;
    arrange_targets(&mut targets, 200);
    assert_eq!((targets[0].rect.x, targets[0].rect.y), (CssPx(8), CssPx(8)));
    assert_eq!((targets[1].rect.x, targets[1].rect.y), (CssPx(8), CssPx(38)));
    assert_eq!((targets[2].rect.x, targets[2].rect.y), (CssPx(300), CssPx(40)));
    let list = hit_test_list(&targets);
    let kinds: Vec<HitTestKind> = list.entries.iter().map(|e| e.kind).collect();
    assert_eq!(kinds, vec![HitTestKind::TextInput, HitTestKind::Checkbox, HitTestKind::Link]);
}

#[test]
fn required_controls_without_a_value_fail_validation() {
    let form = element(1, "form");
    let empty_text = ElementFacts { required: true, value_attr: Some("  ".to_owned()), ..element(2, "input") };
    let filled_text = ElementFacts { required: true, value_attr: Some("x".to_owned()), ..element(3, "input") };
    let unchecked = ElementFacts {
        required: true,
        type_attr: Some("checkbox".to_owned()),
        ..element(4, "input")
    };
    let checked_radio = ElementFacts {
        required: true,
        checked: true,
        type_attr: Some("radio".to_owned()),
        ..element(5, "input")
    };
    let textarea = ElementFacts { required: true, text_content: " \n".to_owned(), ..element(6, "textarea") };
    let disabled = ElementFacts { required: true, disabled: true, ..element(7, "select") };
    let optional = element(8, "input");
    let not_a_control = ElementFacts { required: true, ..element(9, "div") };
    let select = ElementFacts { required: true, text_content: "One".to_owned(), ..element(10, "select") };
    let subtree = vec![
        form, empty_text, filled_text, unchecked, checked_radio, textarea, disabled, optional, not_a_control,
        select,
    ];
    assert_eq!(invalid_form_controls(&subtree), vec![2, 4, 6]);
    assert_eq!(invalid_form_controls(&subtree[..1]), Vec::<u64>::new());
    assert_eq!(invalid_form_controls(&[]), Vec::<u64>::new());
}
