use meow_engine::encoding::LoadOutcome;
use meow_engine::profile::{plan_profile, ManifestState, ProfileError, ProfileManifest};
use meow_engine::script::{aborted_completion, failed_completion, ScriptError, ScriptErrorKind};
use meow_engine::style::{
    cascade_for_element, css_wide_source, dump_stylesheets, loaded_stylesheet, media_is_active,
    StylesheetLoadError, StylesheetSource, current_color_source, invalidation_roots,
    origin_and_importance_rank, priority_ge, select_winners, unset_source, CascadeOrigin,
    CascadePriority, Candidate, CssWideKeyword, CurrentColorSource, Declaration, DirtyFlag,
    DirtyMap, MatchedRule, MutationKind, SelectorDependencies, Specificity, ValueSource, WinnerKey,
    Winners,
};
use meow_engine::variables::{resolve_custom_properties, substitute_vars, CustomValue, VarError};

fn props(entries: &[(&str, &str)]) -> Vec<(String, String)> {
    entries.iter().map(|(k, v)| (k.to_string(), v.to_string())).collect()
}

#[test]
fn important_declarations_reverse_the_origin_order() {
    assert_eq!(origin_and_importance_rank(CascadeOrigin::UserAgent, false), 0);
    assert_eq!(origin_and_importance_rank(CascadeOrigin::Author, false), 2);
    assert_eq!(origin_and_importance_rank(CascadeOrigin::Author, true), 3);
    assert_eq!(origin_and_importance_rank(CascadeOrigin::UserAgent, true), 5);
}

#[test]
fn var_references_are_substituted_with_fallbacks() {
    let custom = props(&[("--a", "red"), ("--b", "1px")]);
    assert_eq!(substitute_vars(" var(--a) solid ", &custom).unwrap(), "red solid");
    assert_eq!(substitute_vars("VAR( --b ) var(--c, blue)", &custom).unwrap(), "1px blue");
    assert_eq!(
        substitute_vars("var(--c)", &custom),
        Err(VarError::Missing("--c".to_owned()))
    );
    assert!(matches!(substitute_vars("var(--a", &custom), Err(VarError::Syntax(_))));
    assert_eq!(
        substitute_vars("var(a)", &custom).unwrap_err().message(),
        "invalid var() custom property name \"a\""
    );
    assert_eq!(substitute_vars("avar(--a)", &custom).unwrap(), "avar(--a)");
}

#[test]
fn custom_properties_resolve_chains_and_report_cycles() {
    let parent = props(&[("--base", "4px"), ("--gone", "x")]);
    let winners = vec![
        ("--gone".to_owned(), CustomValue::Initial),
        ("--loop-a".to_owned(), CustomValue::Value("var(--loop-b)".to_owned())),
        ("--loop-b".to_owned(), CustomValue::Value("var(--loop-a)".to_owned())),
        ("--size".to_owned(), CustomValue::Value("calc(var(--base) * 2)".to_owned())),
    ];
    let (resolved, errors) = resolve_custom_properties(Some(&parent), &winners);
    assert_eq!(resolved, props(&[("--base", "4px"), ("--size", "calc(4px * 2)")]));
    assert_eq!(errors.len(), 2);
    assert_eq!(errors[0].0, "--loop-a");
    assert_eq!(errors[0].1, VarError::Cycle("--loop-a".to_owned()));
    assert_eq!(errors[0].1.message(), "custom property cycle through --loop-a");
}

#[test]
fn profile_plans_create_migrate_and_reject() {
    let (manifest, report) =
        plan_profile("p".to_owned(), ManifestState::Missing { legacy_local_storage: true }, 7).unwrap();
    assert_eq!(manifest.schema_version, 2);
    assert_eq!(manifest.engine_version, "0.6.0");
    assert!(report.created && report.migrated);
    assert_eq!(report.previous_version, Some(1));
    assert_eq!(report.actions, vec!["adopted legacy local-storage profile as schema 1".to_owned()]);

    let old = ProfileManifest { schema_version: 1, engine_version: "0.1".to_owned(), created_millis: 1, last_migrated_millis: 2 };
    let (manifest, report) = plan_profile("p".to_owned(), ManifestState::Loaded(old), 9).unwrap();
    assert_eq!((manifest.created_millis, manifest.last_migrated_millis), (1, 9));
    assert_eq!(report.actions, vec!["migrated profile schema 1 to 2".to_owned()]);

    let (_, report) = plan_profile(
        "p".to_owned(),
        ManifestState::Corrupt { recovery_path: "r.json".to_owned() },
        3,
    )
    .unwrap();
    assert_eq!(report.recovered_corrupt_manifest.as_deref(), Some("r.json"));
    assert_eq!(report.actions, vec!["moved corrupt profile manifest to r.json".to_owned()]);

    let future = ProfileManifest { schema_version: 3, engine_version: String::new(), created_millis: 0, last_migrated_millis: 0 };
    assert_eq!(
        plan_profile("p".to_owned(), ManifestState::Loaded(future), 0).unwrap_err(),
        ProfileError::FutureVersion { found: 3, supported: 2 }
    );
}

#[test]
fn fetch_completions_and_script_errors_read_as_expected() {
    let failed = failed_completion("offline");
    assert!(!failed.ok);
    assert_eq!(failed.error.as_deref(), Some("offline"));
    let aborted = aborted_completion();
    assert_eq!(aborted.name.as_deref(), Some("AbortError"));
    let error = ScriptError {
        kind: ScriptErrorKind::Exception,
        message: "boom".to_owned(),
        source_url: "https://example.test/a.js".to_owned(),
    };
    assert_eq!(error.describe(), "https://example.test/a.js: boom");
    assert_eq!(meow_engine::engine::version(), "0.6.0");
}


fn decl(name: &str, value: &str, important: bool, property: Option<u64>) -> Declaration {
    Declaration {
        name: name.to_owned(),
        value: value.to_owned(),
        important,
        expanded: property.map(|p| vec![(p, value.to_owned())]).unwrap_or_default(),
    }
}

fn rule(origin: CascadeOrigin, ids: u32, classes: u32, types: u32, sheet: usize, order: usize, declarations: Vec<Declaration>) -> MatchedRule {
    MatchedRule {
        origin,
        specificity: Some(Specificity { ids, classes, types }),
        stylesheet_order: sheet,
        rule_source_order: order,
        declarations,
    }
}

fn winner(winners: &Winners, key: &WinnerKey) -> Option<String> {
    winners.entries.iter().find(|(k, _, _)| k == key).map(|(_, _, v)| v.clone())
}

const COLOR: u64 = 1;
const DISPLAY: u64 = 2;
const WIDTH: u64 = 3;
const HEIGHT: u64 = 4;

#[test]
fn origin_and_important_order_follow_the_w11_ladder() {
    let winners = cascade_for_element(&[
        rule(CascadeOrigin::UserAgent, 1, 0, 0, 0, 0, vec![decl("color", "navy", true, Some(COLOR)), decl("display", "block", false, Some(DISPLAY))]),
        rule(CascadeOrigin::User, 0, 1, 0, 1, 0, vec![decl("color", "green", true, Some(COLOR)), decl("display", "grid", false, Some(DISPLAY))]),
        rule(CascadeOrigin::Author, 0, 0, 1, 2, 0, vec![decl("color", "red", true, Some(COLOR)), decl("display", "flex", false, Some(DISPLAY))]),
    ]);
    assert_eq!(winner(&winners, &WinnerKey::Property(COLOR)).as_deref(), Some("navy"));
    assert_eq!(winner(&winners, &WinnerKey::Property(DISPLAY)).as_deref(), Some("flex"));
}

#[test]
fn specificity_stylesheet_rule_and_declaration_order_break_ties() {
    let winners = cascade_for_element(&[
        rule(CascadeOrigin::Author, 0, 1, 0, 0, 0, vec![decl("width", "1px", false, Some(WIDTH))]),
        rule(CascadeOrigin::Author, 1, 0, 0, 0, 1, vec![
            decl("width", "2px", false, Some(WIDTH)),
            decl("width", "3px", false, Some(WIDTH)),
            decl("height", "1px", false, Some(HEIGHT)),
        ]),
        rule(CascadeOrigin::Author, 1, 0, 0, 1, 0, vec![decl("width", "4px", false, Some(WIDTH))]),
        rule(CascadeOrigin::Author, 1, 0, 0, 1, 1, vec![decl("height", "2px", false, Some(HEIGHT))]),
    ]);
    assert_eq!(winner(&winners, &WinnerKey::Property(WIDTH)).as_deref(), Some("4px"));
    assert_eq!(winner(&winners, &WinnerKey::Property(HEIGHT)).as_deref(), Some("2px"));
}

#[test]
fn custom_properties_keep_trimmed_values_and_unmatched_rules_do_not_compete() {
    let unmatched = MatchedRule {
        origin: CascadeOrigin::Author,
        specificity: None,
        stylesheet_order: 0,
        rule_source_order: 5,
        declarations: vec![decl("--gap", "99px", true, None)],
    };
    let winners = cascade_for_element(&[
        rule(CascadeOrigin::Author, 0, 0, 1, 0, 0, vec![decl("--gap", "  8px ", false, None), decl("--empty", "   ", false, None)]),
        unmatched,
    ]);
    assert_eq!(winner(&winners, &WinnerKey::Custom("--gap".to_owned())).as_deref(), Some("8px"));
    assert_eq!(winner(&winners, &WinnerKey::Custom("--empty".to_owned())), None);
    assert_eq!(winners.entries.len(), 1);
}

#[test]
fn equal_priorities_let_the_later_candidate_win() {
    let p = CascadePriority {
        origin_and_importance: origin_and_importance_rank(CascadeOrigin::Author, false),
        specificity: Specificity { ids: 0, classes: 0, types: 0 },
        stylesheet_order: 0,
        rule_source_order: 0,
        declaration_order: 0,
    };
    assert!(priority_ge(&p, &p));
    let winners = select_winners(&[
        Candidate { key: WinnerKey::Property(7), priority: p, value: "a".to_owned() },
        Candidate { key: WinnerKey::Property(7), priority: p, value: "b".to_owned() },
    ]);
    assert_eq!(winner(&winners, &WinnerKey::Property(7)).as_deref(), Some("b"));
}

fn resolve<'a>(source: ValueSource, parent: Option<&'a str>, initial: &'a str) -> &'a str {
    match source {
        ValueSource::Parent => parent.unwrap(),
        ValueSource::Initial => initial,
    }
}

#[test]
fn inheritance_initial_and_unset_resolve_parent_first() {
    // color and visibility are inherited; font-size too; width and display are not.
    let parent_color = Some("red");
    let child_color = resolve(css_wide_source(CssWideKeyword::Unset, true, true), parent_color, "black");
    assert_eq!(child_color, "red");
    let child_font = resolve(css_wide_source(CssWideKeyword::Initial, true, true), Some("20px"), "medium");
    assert_eq!(child_font, "medium");
    let child_width = resolve(css_wide_source(CssWideKeyword::Inherit, false, true), Some("10px"), "auto");
    assert_eq!(child_width, "10px");
    let child_display = resolve(css_wide_source(CssWideKeyword::Unset, false, true), Some("block"), "inline");
    assert_eq!(child_display, "inline");
    let leaf_color = resolve(css_wide_source(CssWideKeyword::Initial, true, true), Some(child_color), "black");
    assert_eq!(leaf_color, "black");
    let leaf_font = resolve(unset_source(true, true), Some(child_font), "medium");
    assert_eq!(leaf_font, "medium");
    assert_eq!(css_wide_source(CssWideKeyword::Inherit, true, false), ValueSource::Initial);
}

#[test]
fn current_color_resolves_from_the_right_place() {
    assert_eq!(current_color_source(false, true, true, false), CurrentColorSource::Keep);
    assert_eq!(current_color_source(true, true, true, false), CurrentColorSource::ParentColor);
    assert_eq!(current_color_source(true, true, false, false), CurrentColorSource::InitialColor);
    assert_eq!(current_color_source(true, false, true, true), CurrentColorSource::OwnColor);
    assert_eq!(current_color_source(true, false, true, false), CurrentColorSource::InitialColor);
}

fn deps() -> SelectorDependencies {
    SelectorDependencies {
        ancestor_combinator: false,
        next_sibling_combinator: false,
        subsequent_sibling_combinator: false,
        empty_pseudo: false,
        structural_pseudo: false,
    }
}

#[test]
fn invalidation_roots_follow_selector_dependencies() {
    let plain = invalidation_roots(deps(), MutationKind::Attributes, 5, Some(6), &[6, 7], &[]);
    assert_eq!(plain.entries(), &[(5, DirtyFlag::SelfOnly)]);
    let siblings = SelectorDependencies { ancestor_combinator: true, subsequent_sibling_combinator: true, ..deps() };
    let wide = invalidation_roots(siblings, MutationKind::Attributes, 5, Some(6), &[7, 6], &[]);
    assert_eq!(wide.entries(), &[(5, DirtyFlag::Subtree), (6, DirtyFlag::Subtree), (7, DirtyFlag::Subtree)]);
    let next = SelectorDependencies { next_sibling_combinator: true, ..deps() };
    let near = invalidation_roots(next, MutationKind::Attributes, 5, Some(6), &[6, 7], &[]);
    assert_eq!(near.entries(), &[(5, DirtyFlag::SelfOnly), (6, DirtyFlag::Subtree)]);
    assert!(invalidation_roots(deps(), MutationKind::CharacterData, 5, None, &[], &[]).entries().is_empty());
    let empty = SelectorDependencies { empty_pseudo: true, ..deps() };
    assert_eq!(
        invalidation_roots(empty, MutationKind::ChildList, 5, None, &[], &[9, 3]).entries(),
        &[(3, DirtyFlag::Subtree), (5, DirtyFlag::SelfOnly), (9, DirtyFlag::Subtree)]
    );
    let structural = SelectorDependencies { structural_pseudo: true, ..deps() };
    assert_eq!(
        invalidation_roots(structural, MutationKind::ChildList, 5, None, &[], &[9]).entries(),
        &[(5, DirtyFlag::Subtree)]
    );
}

#[test]
fn marking_dirty_merges_flags_and_reaches_descendants() {
    let mut dirty = DirtyMap::new();
    dirty.mark_dirty(4, DirtyFlag::SelfOnly, &[5, 6]);
    assert_eq!(dirty.entries(), &[(4, DirtyFlag::SelfOnly)]);
    dirty.mark_dirty(2, DirtyFlag::Subtree, &[4, 5]);
    assert_eq!(dirty.entries(), &[(2, DirtyFlag::Subtree), (4, DirtyFlag::SelfOnly), (5, DirtyFlag::SelfOnly)]);
    dirty.mark_dirty(5, DirtyFlag::Subtree, &[]);
    dirty.mark_dirty(2, DirtyFlag::SelfOnly, &[]);
    assert_eq!(dirty.entries(), &[(2, DirtyFlag::Subtree), (4, DirtyFlag::SelfOnly), (5, DirtyFlag::Subtree)]);
}

#[test]
fn style_sheet_media_applies_to_all_and_screen_only() {
    assert!(media_is_active(None));
    assert!(media_is_active(Some("")));
    assert!(media_is_active(Some("   ")));
    assert!(media_is_active(Some("all")));
    assert!(media_is_active(Some(" SCREEN ")));
    assert!(media_is_active(Some("print, Screen")));
    assert!(media_is_active(Some("print ,all")));
    assert!(!media_is_active(Some("print")));
    assert!(!media_is_active(Some("screen and (min-width: 10px)")));
    assert!(!media_is_active(Some("print,")));
    assert!(!media_is_active(Some("allx")));
}

#[test]
fn linked_stylesheets_decode_or_report_their_load_error() {
    let ok = loaded_stylesheet(
        3,
        "a.css".to_owned(),
        "https://example.test/a.css".to_owned(),
        Some("screen".to_owned()),
        LoadOutcome::Response {
            status: 200,
            final_url: "https://cdn.example.test/a.css".to_owned(),
            content_type: Some("text/css".to_owned()),
            body: b"p{}".to_vec(),
        },
    )
    .unwrap()
    .unwrap();
    assert_eq!(ok.css, "p{}");
    assert_eq!(ok.media, Some("screen".to_owned()));
    let missing = loaded_stylesheet(
        4,
        "b.css".to_owned(),
        "https://example.test/b.css".to_owned(),
        None,
        LoadOutcome::Response {
            status: 404,
            final_url: "https://example.test/b.css".to_owned(),
            content_type: None,
            body: Vec::new(),
        },
    )
    .unwrap()
    .unwrap_err();
    assert_eq!(
        missing,
        StylesheetLoadError { node: 4, href: Some("b.css".to_owned()), message: "stylesheet HTTP status 404 Not Found".to_owned() }
    );
    assert!(loaded_stylesheet(
        5,
        "c.css".to_owned(),
        "https://example.test/c.css".to_owned(),
        None,
        LoadOutcome::Cancelled,
    )
    .is_none());
    let dump = dump_stylesheets(
        &[
            (StylesheetSource::Inline { node: 1 }, None, "rules\n".to_owned()),
            (ok.source.clone(), ok.media.clone(), String::new()),
        ],
        &[missing],
    );
    assert_eq!(
        dump,
        "stylesheet[0] inline node=1 media=None\nrules\nstylesheet[1] external node=3 requested=\"https://example.test/a.css\" final=\"https://cdn.example.test/a.css\" media=Some(\"screen\")\nstylesheet-error[0] node=4 href=Some(\"b.css\") message=\"stylesheet HTTP status 404 Not Found\"\n"
    );
}
