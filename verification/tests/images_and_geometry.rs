use meow_engine::images::{
    decode_data_url, decode_image, percent_decode, premultiply, validate_dimensions, ImageCache,
    ImageKind, ImageResource,
};
use meow_engine::interaction::{
    arrange_control_targets, contains, first_characters, normalized_label, tail_characters,
    target_rect, union, ControlTarget, HitTestEntry, HitTestKind, HitTestList, InteractionPoint,
    ScrollOffset, ScrollTree, TargetGeometry,
};
use meow_engine::layout::{CssPx, LayoutRect};
use meow_engine::renderer::{
    reference_scene, validate_framebuffer_dimensions, Rectangle, RenderError,
};

#[test]
fn data_svg_decodes_and_cache_metrics_are_stable() {
    let source = "data:image/svg+xml,%3Csvg%20xmlns='http://www.w3.org/2000/svg'%20width='2'%20height='2'%3E%3Crect%20width='2'%20height='2'%20fill='red'/%3E%3C/svg%3E";
    let (content_type, bytes) = decode_data_url(source).unwrap();
    let image = decode_image(source, Some(&content_type), &bytes).unwrap();
    assert_eq!(
        (image.width, image.height, image.kind),
        (2, 2, ImageKind::Svg)
    );
    assert_eq!(image.pixels.len(), 16);
}

#[test]
fn data_urls_decode_base64_and_percent_payloads() {
    let (content_type, bytes) = decode_data_url("data:;BASE64, aGk= ").unwrap();
    assert_eq!(content_type, "text/plain");
    assert_eq!(bytes, b"hi");
    assert!(decode_data_url("data:;base64,!!").unwrap_err().starts_with("invalid base64 data URL: "));
    assert_eq!(decode_data_url("http://x").unwrap_err(), "not a data URL");
    assert_eq!(decode_data_url("data:text/plain").unwrap_err(), "data URL omitted comma separator");
}

#[test]
fn percent_escapes_decode_and_bad_ones_are_reported() {
    assert_eq!(percent_decode("a%41%2b%+f").unwrap(), b"aA+\x0f");
    assert_eq!(percent_decode("%4").unwrap_err(), "truncated percent escape in data URL");
    assert_eq!(percent_decode("%zz").unwrap_err(), "invalid percent escape in data URL");
}

#[test]
fn image_dimensions_are_bounded() {
    assert!(validate_dimensions(4096, 4096).is_ok());
    assert_eq!(
        validate_dimensions(0, 5).unwrap_err(),
        "image dimensions 0x5 exceed the decoder limit"
    );
    assert!(validate_dimensions(4097, 1).is_err());
}

#[test]
fn premultiplication_rounds_each_channel() {
    let mut pixels = vec![255, 128, 0, 128, 10, 20, 30, 255, 7];
    premultiply(&mut pixels);
    assert_eq!(pixels, vec![128, 64, 0, 128, 10, 20, 30, 255, 7]);
}

fn resource(url: &str) -> ImageResource {
    ImageResource {
        source_url: url.to_owned(),
        width: 1,
        height: 1,
        kind: ImageKind::Png,
        pixels: vec![1, 2, 3, 4],
    }
}

#[test]
fn image_cache_evicts_the_least_recently_used_entry() {
    let mut cache = ImageCache::new(2);
    cache.insert("a".to_owned(), resource("a"));
    cache.insert("b".to_owned(), resource("b"));
    assert!(cache.get("a").is_some());
    cache.insert("c".to_owned(), resource("c"));
    assert!(cache.get("b").is_none());
    assert!(cache.get("a").is_some());
    cache.record_decode();
    let metrics = cache.metrics();
    assert_eq!(metrics.hits, 2);
    assert_eq!(metrics.misses, 1);
    assert_eq!(metrics.evictions, 1);
    assert_eq!(metrics.decodes, 1);
    assert_eq!(metrics.resident_entries, 2);
    assert_eq!(metrics.resident_bytes, 8);
    assert_eq!(ImageCache::new(0).metrics().resident_entries, 0);
}

fn rect(x: i32, y: i32, width: i32, height: i32) -> LayoutRect {
    LayoutRect { x: CssPx(x), y: CssPx(y), width: CssPx(width), height: CssPx(height) }
}

#[test]
fn hit_testing_takes_the_topmost_entry() {
    let entries = vec![
        HitTestEntry { node: 1, rect: rect(0, 0, 10, 10), kind: HitTestKind::Link, label: "a".to_owned() },
        HitTestEntry { node: 2, rect: rect(5, 5, 10, 10), kind: HitTestKind::Button, label: "b".to_owned() },
    ];
    let list = HitTestList { entries };
    assert_eq!(list.hit_test(InteractionPoint::new(6, 6)).unwrap().node, 2);
    assert_eq!(list.hit_test(InteractionPoint::new(1, 1)).unwrap().node, 1);
    assert!(list.hit_test(InteractionPoint::new(15, 15)).is_none());
    assert!(contains(rect(0, 0, 1, 1), InteractionPoint::new(0, 0)));
    assert!(!contains(rect(0, 0, 1, 1), InteractionPoint::new(1, 0)));
}

#[test]
fn scrolling_is_clamped_to_the_content() {
    let tree = ScrollTree::new(100, 50, 300, 40, Vec::new());
    let maximum = tree.maximum_offset();
    assert_eq!((maximum.x, maximum.y), (200, 0));
    let clamped = tree.clamp(ScrollOffset { x: 500, y: -3 });
    assert_eq!((clamped.x, clamped.y), (200, 0));
    let again = tree.clamp(clamped);
    assert_eq!(again, clamped);
}

#[test]
fn unions_and_targets_have_the_expected_geometry() {
    assert_eq!(union(rect(0, 0, 10, 10), rect(20, 5, 5, 30)), rect(0, 0, 25, 35));
    assert_eq!(target_rect(None, TargetGeometry::Checkbox, ""), rect(0, 0, 18, 18));
    assert_eq!(target_rect(Some(rect(3, 4, 0, 0)), TargetGeometry::Link, ""), rect(3, 4, 1, 16));
    assert_eq!(target_rect(None, TargetGeometry::Button, "Send"), rect(0, 0, 64, 22));
    assert_eq!(target_rect(None, TargetGeometry::Button, "A much longer label"), rect(0, 0, 130, 22));
    assert_eq!(target_rect(None, TargetGeometry::TextInput, ""), rect(0, 0, 160, 22));
}

#[test]
fn control_targets_are_laid_out_in_rows() {
    let mut targets = vec![
        ControlTarget { link: false, rect: rect(0, 0, 60, 20) },
        ControlTarget { link: true, rect: rect(1, 2, 3, 4) },
        ControlTarget { link: false, rect: rect(0, 0, 60, 22) },
    ];
    arrange_control_targets(&mut targets, 100);
    assert_eq!(targets[0].rect, rect(8, 8, 60, 20));
    assert_eq!(targets[1].rect, rect(1, 2, 3, 4));
    assert_eq!(targets[2].rect, rect(8, 36, 60, 22));
}

#[test]
fn labels_are_normalized_and_cut() {
    assert_eq!(normalized_label("  Send \n now "), "Send now");
    assert_eq!(first_characters("héllo", 2), "hé");
    assert_eq!(tail_characters("héllo", 3), "llo");
    assert_eq!(tail_characters("hi", 5), "hi");
}

#[test]
fn reference_scene_fits_its_frame() {
    let scene = reference_scene(320, 200).unwrap();
    assert_eq!(scene.len(), 4);
    assert_eq!(scene[0].0, Rectangle::new(16, 16, 288, 25));
    assert!(matches!(
        reference_scene(32, 64),
        Err(RenderError::ReferenceSceneTooSmall { .. })
    ));
    assert!(matches!(
        validate_framebuffer_dimensions(0, 10),
        Err(RenderError::InvalidDimensions { .. })
    ));
}
