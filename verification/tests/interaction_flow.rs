use meow_engine::interaction::{
    HitTestEntry, HitTestKind, HitTestList, InteractionPoint, KeyboardCommand, ScrollOffset, ScrollTree,
};
use meow_engine::interaction_state::{
    form_control_edits, AttributeEdit, Control, ControlInitial, FormControlState, FormInfo, InteractionState, InteractionView,
    NavigationRequest, Target, TargetKind,
};
use meow_engine::layout::{CssPx, LayoutRect};
use meow_engine::overlay::{control_overlay, PaintCommand};
use meow_engine::renderer::{Rectangle, Rgba8};

fn rect(x: i32, y: i32, width: i32, height: i32) -> LayoutRect {
    LayoutRect { x: CssPx(x), y: CssPx(y), width: CssPx(width), height: CssPx(height) }
}

fn search_form_view() -> InteractionView {
    let targets = vec![
        Target { node: 11, rect: rect(0, 0, 100, 20), label: String::new(), kind: TargetKind::TextInput { form: Some(10) } },
        Target { node: 12, rect: rect(110, 0, 14, 14), label: String::new(), kind: TargetKind::Checkbox },
        Target {
            node: 13,
            rect: rect(130, 0, 40, 20),
            label: "Find".to_owned(),
            kind: TargetKind::Button {
                form: Some(10),
                name: Some("go".to_owned()),
                value: "yes".to_owned(),
                submits: true,
            },
        },
        Target { node: 14, rect: rect(0, 300, 40, 16), label: "next".to_owned(), kind: TargetKind::Link("https://example.test/next".to_owned()) },
    ];
    let entries = targets
        .iter()
        .map(|t| HitTestEntry {
            node: t.node,
            rect: t.rect,
            kind: match t.kind {
                TargetKind::Link(_) => HitTestKind::Link,
                TargetKind::TextInput { .. } => HitTestKind::TextInput,
                TargetKind::Checkbox => HitTestKind::Checkbox,
                TargetKind::Button { .. } => HitTestKind::Button,
            },
            label: t.label.clone(),
        })
        .collect();
    InteractionView {
        focus_chain: vec![11, 12, 13, 14],
        targets,
        controls: vec![
            Control { node: 11, form: Some(10), name: Some("q".to_owned()), initial: ControlInitial::Text(String::new()), successful: true },
            Control {
                node: 12,
                form: Some(10),
                name: Some("safe".to_owned()),
                initial: ControlInitial::Checkbox { checked: true, value: "on".to_owned() },
                successful: true,
            },
        ],
        forms: vec![FormInfo { node: 10, action: "https://example.test/search".to_owned(), get: true }],
        scroll_tree: ScrollTree::new(400, 160, 400, 500, Vec::new()),
        hit_tests: HitTestList { entries },
    }
}

#[test]
fn tab_typing_checkbox_and_get_submission_share_live_state() {
    let view = search_form_view();
    let mut interaction = InteractionState::new();
    interaction.reconcile(&view);

    assert!(interaction.keyboard(&view, KeyboardCommand::Tab { reverse: false }).redraw);
    interaction.keyboard(&view, KeyboardCommand::Text("cats".to_owned()));
    interaction.keyboard(&view, KeyboardCommand::Tab { reverse: false });
    interaction.keyboard(&view, KeyboardCommand::Space);
    interaction.keyboard(&view, KeyboardCommand::Tab { reverse: false });
    let result = interaction.keyboard(&view, KeyboardCommand::Enter);
    assert_eq!(result.submitted_form, Some(10));
    assert_eq!(
        result.navigation,
        Some(NavigationRequest::FormGet {
            action: "https://example.test/search".to_owned(),
            pairs: vec![("q".to_owned(), "cats".to_owned()), ("go".to_owned(), "yes".to_owned())],
        })
    );
    assert_eq!(
        interaction.control_states(),
        vec![
            FormControlState::Text { node: 11, value: "cats".to_owned() },
            FormControlState::Checkbox { node: 12, checked: false },
        ]
    );
}

#[test]
fn scroll_is_clamped_and_hit_testing_uses_document_coordinates() {
    let view = search_form_view();
    let mut interaction = InteractionState::new();
    interaction.reconcile(&view);
    assert!(interaction.scroll_by(&view, 0, 10_000));
    assert_eq!(interaction.scroll_offset(), ScrollOffset { x: 0, y: 340 });
    assert!(!interaction.scroll_by(&view, 0, 5));
    assert!(interaction.scroll_by(&view, -5, -40));
    assert_eq!(interaction.scroll_offset(), ScrollOffset { x: 0, y: 300 });
    // The link at document y=300 is now at the top of the viewport.
    let down = interaction.pointer_down(&view, InteractionPoint { x: 5, y: 5 });
    assert!(down.redraw);
    assert_eq!(interaction.focused_node(), Some(14));
    let up = interaction.pointer_up(&view, InteractionPoint { x: 6, y: 6 });
    assert_eq!(up.navigation, Some(NavigationRequest::Url("https://example.test/next".to_owned())));
}

#[test]
fn typing_filters_control_characters_and_backspace_removes_one_char() {
    let view = search_form_view();
    let mut interaction = InteractionState::new();
    interaction.reconcile(&view);
    interaction.keyboard(&view, KeyboardCommand::Tab { reverse: false });
    interaction.keyboard(&view, KeyboardCommand::Text("a\u{7}b\né".to_owned()));
    assert_eq!(interaction.text_value(11), Some("abé"));
    assert!(interaction.keyboard(&view, KeyboardCommand::Backspace).redraw);
    assert_eq!(interaction.text_value(11), Some("ab"));
    interaction.keyboard(&view, KeyboardCommand::Backspace);
    interaction.keyboard(&view, KeyboardCommand::Backspace);
    assert!(!interaction.keyboard(&view, KeyboardCommand::Backspace).redraw);
    assert_eq!(interaction.text_value(11), Some(""));
}

#[test]
fn enter_in_a_text_input_submits_its_form_without_a_button_pair() {
    let view = search_form_view();
    let mut interaction = InteractionState::new();
    interaction.reconcile(&view);
    interaction.keyboard(&view, KeyboardCommand::Tab { reverse: false });
    interaction.keyboard(&view, KeyboardCommand::Text("x".to_owned()));
    let result = interaction.keyboard(&view, KeyboardCommand::Enter);
    assert_eq!(
        result.navigation,
        Some(NavigationRequest::FormGet {
            action: "https://example.test/search".to_owned(),
            pairs: vec![("q".to_owned(), "x".to_owned()), ("safe".to_owned(), "on".to_owned())],
        })
    );
}

#[test]
fn reverse_tab_wraps_and_default_actions_can_be_suppressed() {
    let view = search_form_view();
    let mut interaction = InteractionState::new();
    interaction.reconcile(&view);
    interaction.keyboard(&view, KeyboardCommand::Tab { reverse: true });
    assert_eq!(interaction.focused_node(), Some(14));
    interaction.keyboard(&view, KeyboardCommand::Tab { reverse: false });
    assert_eq!(interaction.focused_node(), Some(11));
    interaction.keyboard(&view, KeyboardCommand::Tab { reverse: true });
    assert_eq!(interaction.focused_node(), Some(14));
    assert_eq!(interaction.keyboard_click_target(&view, &KeyboardCommand::Enter), Some(14));
    assert_eq!(interaction.keyboard_click_target(&view, &KeyboardCommand::Space), None);
    let suppressed = interaction.keyboard_with_default(&view, KeyboardCommand::Enter, false);
    assert!(!suppressed.redraw && suppressed.navigation.is_none());
}

#[test]
fn checkbox_clicks_toggle_and_reconcile_restores_initial_values() {
    let view = search_form_view();
    let mut interaction = InteractionState::new();
    interaction.reconcile(&view);
    assert_eq!(interaction.checkbox_checked(12), Some(true));
    interaction.pointer_down(&view, InteractionPoint { x: 112, y: 2 });
    let result = interaction.pointer_up(&view, InteractionPoint { x: 113, y: 3 });
    assert!(result.redraw);
    assert_eq!(interaction.checkbox_checked(12), Some(false));
    interaction.pointer_down(&view, InteractionPoint { x: 112, y: 2 });
    let missed = interaction.pointer_up(&view, InteractionPoint { x: 300, y: 100 });
    assert!(!missed.redraw);
    assert_eq!(interaction.checkbox_checked(12), Some(false));
    interaction.reconcile(&view);
    assert_eq!(interaction.checkbox_checked(12), Some(true));
    assert_eq!(interaction.text_value(12), None);
    assert_eq!(interaction.checkbox_checked(99), None);
    interaction.reset();
    assert_eq!(interaction.focused_node(), None);
    assert_eq!(interaction.control_states(), vec![]);
}

#[test]
fn live_control_state_becomes_attribute_edits() {
    let edits = form_control_edits(&[
        FormControlState::Text { node: 3, value: "hello".to_owned() },
        FormControlState::Checkbox { node: 4, checked: true },
        FormControlState::Checkbox { node: 5, checked: false },
    ]);
    assert_eq!(
        edits,
        vec![
            AttributeEdit::SetAttribute { node: 3, name: "value".to_owned(), value: "hello".to_owned() },
            AttributeEdit::SetAttribute { node: 4, name: "checked".to_owned(), value: String::new() },
            AttributeEdit::RemoveAttribute { node: 5, name: "checked".to_owned() },
        ]
    );
    assert!(form_control_edits(&[]).is_empty());
}

#[test]
fn overlay_paints_controls_live_text_and_focus_ring() {
    let view = search_form_view();
    let mut interaction = InteractionState::new();
    interaction.reconcile(&view);
    interaction.keyboard(&view, KeyboardCommand::Tab { reverse: false });
    interaction.keyboard(&view, KeyboardCommand::Text("cats".to_owned()));
    let commands = control_overlay(&view, &interaction);
    let white = Rgba8::rgb(255, 255, 255);
    let border = Rgba8::rgb(90, 96, 108);
    let ring = Rgba8::rgb(40, 102, 220);
    let text = Rgba8::rgb(18, 23, 33);
    let fill = |x, y, w, h, color| PaintCommand::Fill { rect: Rectangle::new(x, y, w, h), color };
    assert_eq!(
        commands[..8].to_vec(),
        vec![
            fill(0, 0, 100, 20, white),
            fill(0, 0, 100, 1, border),
            fill(0, 19, 100, 1, border),
            fill(0, 0, 1, 20, border),
            fill(99, 0, 1, 20, border),
            fill(0, 21, 102, 1, ring),
            fill(101, 0, 1, 22, ring),
            PaintCommand::Text { text: "cats".to_owned(), x: 4, baseline: 15, color: text },
        ]
    );
    let texts: Vec<String> = commands
        .iter()
        .filter_map(|c| match c {
            PaintCommand::Text { text, .. } => Some(text.clone()),
            _ => None,
        })
        .collect();
    assert_eq!(texts, vec!["cats".to_owned(), "x".to_owned(), "Find".to_owned()]);
    assert!(commands.iter().all(|c| !matches!(c, PaintCommand::Fill { rect, .. } if rect.y >= 160)));
}
