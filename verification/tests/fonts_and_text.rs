use meow_engine::fonts::{FontCoverage, FontDatabase, FontRequest, FontSlant, Script};
use meow_engine::line_breaking::{collapse_whitespace, layout_paragraph, TextAlign};
use meow_engine::shaping::{is_combining_mark, shape_text, TextDirection};

#[test]
fn requested_family_style_and_weight_are_scored_before_fallback() {
    let mut database = FontDatabase::deterministic();
    let request = FontRequest {
        families: vec!["Meow Sans".to_owned()],
        weight: 700,
        slant: FontSlant::Normal,
        locale: Some("vi-VN".to_owned()),
    };
    let face = database.select_face(&request, 'ệ');
    let face = database.face(face).unwrap();
    assert_eq!(face.family, "Meow Sans");
    assert_eq!(face.weight, 700);
}

#[test]
fn invalid_opentype_bytes_are_rejected_by_skrifa() {
    let mut database = FontDatabase::default();
    let result = database.register_font_bytes(
        b"not a font",
        "Broken".to_owned(),
        400,
        FontSlant::Normal,
        vec![Script::Latin],
        FontCoverage::latin_basic(),
    );
    assert!(result.is_err());
}

#[test]
fn combining_marks_share_the_base_cluster_and_zero_advance() {
    let mut database = FontDatabase::deterministic();
    let shaped = shape_text(
        &mut database,
        &FontRequest::new(vec!["Meow Sans Vietnamese".to_owned()]),
        "e\u{302}\u{301}",
    );
    let glyphs = &shaped.runs[0].glyphs;
    assert_eq!(glyphs.len(), 3);
    assert!(glyphs.iter().all(|glyph| glyph.cluster == 0));
    assert_eq!(glyphs[1].advance, 0);
    assert_eq!(glyphs[2].advance, 0);
}

#[test]
fn rtl_run_reverses_glyph_visual_order() {
    let mut database = FontDatabase::deterministic();
    let shaped = shape_text(
        &mut database,
        &FontRequest::new(vec!["Meow Arabic".to_owned()]),
        "abc مرحبا",
    );
    let rtl = shaped
        .runs
        .iter()
        .find(|run| run.direction == TextDirection::Rtl)
        .unwrap();
    assert_eq!(rtl.glyphs.first().unwrap().character, 'ا');
    assert_eq!(rtl.glyphs.last().unwrap().character, 'م');
}

#[test]
fn shaping_keeps_one_glyph_per_character() {
    let mut database = FontDatabase::deterministic();
    let text = "Hello مرحبا e\u{301}";
    let shaped = shape_text(&mut database, &FontRequest::new(vec!["Meow Sans".to_owned()]), text);
    let glyphs: usize = shaped.runs.iter().map(|run| run.glyphs.len()).sum();
    assert_eq!(glyphs, text.chars().count());
    assert_eq!(shaped.advance(), shaped.runs.iter().map(|run| run.advance).sum::<i32>());
}

#[test]
fn combining_mark_classification() {
    assert!(is_combining_mark('\u{301}'));
    assert!(!is_combining_mark('e'));
}

#[test]
fn script_for_classifies_latin_arabic_and_common() {
    assert_eq!(meow_engine::fonts::script_for('a'), Script::Latin);
    assert_eq!(meow_engine::fonts::script_for('م'), Script::Arabic);
    assert_eq!(meow_engine::fonts::script_for(' '), Script::Common);
}

#[test]
fn collapsing_whitespace_twice_changes_nothing() {
    let once = collapse_whitespace("  a \t b\n\nc  ");
    assert_eq!(once, "a b c");
    assert_eq!(collapse_whitespace(&once), once);
}

#[test]
fn wrapped_lines_are_nonempty_and_hold_the_text() {
    let mut database = FontDatabase::deterministic();
    let request = FontRequest::new(vec!["Meow Sans".to_owned()]);
    let layout = layout_paragraph(
        &mut database,
        &request,
        "the quick brown fox jumps over the lazy dog",
        60,
        TextAlign::Left,
    );
    assert!(layout.lines.len() > 1);
    let total: usize = layout.lines.iter().map(|line| line.text.chars().count()).sum();
    assert!(layout.lines.iter().all(|line| !line.text.is_empty()));
    assert!(total <= layout.collapsed_text.chars().count());
    for (index, line) in layout.lines.iter().enumerate() {
        assert_eq!(line.index, index);
        assert_eq!(line.y, index as i32 * 16);
        assert_eq!(line.baseline, index as i32 * 16 + 12);
    }
    assert_eq!(layout.height(), layout.lines.len() as i32 * 16);
}

#[test]
fn justified_lines_fill_the_width_except_the_last() {
    let mut database = FontDatabase::deterministic();
    let request = FontRequest::new(vec!["Meow Sans".to_owned()]);
    let layout = layout_paragraph(
        &mut database,
        &request,
        "aa bb cc dd ee ff gg hh ii jj",
        50,
        TextAlign::Justify,
    );
    assert!(layout.lines.len() > 1);
    let last = layout.lines.len() - 1;
    for line in &layout.lines[..last] {
        if line.text.contains(' ') {
            assert_eq!(line.used_width, 50);
        }
    }
}

#[test]
fn zero_width_is_raised_to_one_pixel() {
    let mut database = FontDatabase::deterministic();
    let request = FontRequest::new(vec!["Meow Sans".to_owned()]);
    let layout = layout_paragraph(&mut database, &request, "ab", 0, TextAlign::Start);
    assert_eq!(layout.width, 1);
    assert_eq!(layout.lines.len(), 2);
}

#[test]
fn font_database_dump_lists_faces_in_registration_order() {
    let database = FontDatabase::deterministic();
    let dump = database.dump();
    assert!(dump.starts_with(
        "#font-database\nface=0 family=\"Meow Sans\" weight=400 slant=Normal scripts=[Latin, Common] upem=1000 source=Synthetic(\"bundled-metrics-v1\")\n"
    ));
    assert!(dump.contains(
        "face=3 family=\"Meow Sans\" weight=400 slant=Italic scripts=[Latin, Common] upem=1000 source=Synthetic(\"bundled-metrics-v1\")\n"
    ));
    assert_eq!(dump.lines().count(), database.faces().len() + 1);
}

#[test]
fn shaped_text_dump_lists_runs_and_glyphs() {
    let mut database = FontDatabase::deterministic();
    let shaped = shape_text(&mut database, &FontRequest::new(vec!["Meow Sans".to_owned()]), "ab");
    assert_eq!(
        shaped.dump(),
        "#shaped-text direction=Ltr advance=16\n\
         run visual=0 logical=0..2 font=0 family=\"Meow Sans\" script=Latin direction=Ltr text=\"ab\" advance=16 metrics=(12,4,0)\n\
         \x20 glyph id=97 cluster=0 char='a' advance=8 offset=(0, 0)\n\
         \x20 glyph id=98 cluster=1 char='b' advance=8 offset=(0, 0)\n"
    );
}

#[test]
fn paragraph_dump_lists_lines_runs_and_glyphs() {
    let mut database = FontDatabase::deterministic();
    let request = FontRequest::new(vec!["Meow Sans".to_owned()]);
    let layout = layout_paragraph(&mut database, &request, "ab", 100, TextAlign::Start);
    assert_eq!(
        layout.dump(),
        "#paragraph width=100 height=16 direction=Ltr align=Start text=\"ab\"\n\
         line=0 y=0 baseline=12 available=100 used=16 offset=0 text=\"ab\"\n\
         \x20 run font=0 family=\"Meow Sans\" script=Latin direction=Ltr x=0 width=16\n\
         \x20   glyph char='a' cluster=0 x=0 baseline=12 advance=8\n\
         \x20   glyph char='b' cluster=1 x=8 baseline=12 advance=8\n"
    );
}

#[test]
fn a_database_covering_only_the_text_lays_it_out() {
    let mut database = FontDatabase::default();
    database.register_synthetic(
        "Only Latin".to_owned(),
        400,
        FontSlant::Normal,
        vec![Script::Latin, Script::Common],
        FontCoverage::latin_basic(),
    );
    let request = FontRequest::new(vec!["Only Latin".to_owned()]);
    let layout = layout_paragraph(&mut database, &request, "  ab  cd ", 100, TextAlign::Start);
    assert_eq!(layout.collapsed_text, "ab cd");
    assert_eq!(layout.lines.len(), 1);
    assert_eq!(layout.lines[0].text, "ab cd");
    let empty = layout_paragraph(&mut database, &request, " \n\t ", 100, TextAlign::Start);
    assert!(empty.collapsed_text.is_empty());
    assert!(empty.lines.is_empty());
}
