use meow_engine::framebuffer::{render_reference_frame, render_reference_png, Framebuffer};
use meow_engine::renderer::{Rectangle, RenderError, Rgba8};

#[test]
fn clear_and_rectangle_update_expected_pixels() {
    let mut framebuffer = Framebuffer::new(4, 4).expect("framebuffer should allocate");
    framebuffer.clear(Rgba8::rgb(10, 20, 30));
    framebuffer
        .fill_rectangle(Rectangle::new(1, 1, 2, 2), Rgba8::rgb(200, 100, 50))
        .expect("rectangle should draw");

    assert_eq!(framebuffer.pixel(0, 0), Some([10, 20, 30, 255]));
    assert_eq!(framebuffer.pixel(1, 1), Some([200, 100, 50, 255]));
    assert_eq!(framebuffer.pixel(2, 2), Some([200, 100, 50, 255]));
    assert_eq!(framebuffer.pixel(3, 3), Some([10, 20, 30, 255]));
}

#[test]
fn png_encoding_is_byte_deterministic_and_round_trips() {
    let first = render_reference_frame(320, 200).expect("scene should render");
    let second_png = render_reference_png(320, 200).expect("scene should encode");
    let first_png = first.encode_png().expect("scene should encode");

    assert_eq!(first_png, second_png);

    let decoded = tiny_skia::Pixmap::decode_png(&first_png).expect("PNG should decode");
    assert_eq!(decoded.width(), 320);
    assert_eq!(decoded.height(), 200);
    assert_eq!(decoded.data(), first.premultiplied_rgba());
}

#[test]
fn invalid_dimensions_and_rectangles_are_rejected() {
    assert!(matches!(
        Framebuffer::new(0, 10),
        Err(RenderError::InvalidDimensions { .. })
    ));
    assert!(matches!(
        render_reference_frame(32, 64),
        Err(RenderError::ReferenceSceneTooSmall { .. })
    ));

    let mut framebuffer = Framebuffer::new(10, 10).expect("framebuffer should allocate");
    assert!(matches!(
        framebuffer.fill_rectangle(Rectangle::new(0, 0, 0, 5), Rgba8::rgb(0, 0, 0)),
        Err(RenderError::InvalidRectangle(_))
    ));
}

#[test]
fn new_frame_is_transparent_and_out_of_frame_pixels_are_none() {
    let framebuffer = Framebuffer::new(3, 2).unwrap();
    assert_eq!(framebuffer.width(), 3);
    assert_eq!(framebuffer.height(), 2);
    assert_eq!(framebuffer.premultiplied_rgba(), &[0u8; 24][..]);
    assert_eq!(framebuffer.pixel(3, 0), None);
    assert_eq!(framebuffer.pixel(0, 2), None);
    assert!(matches!(Framebuffer::new(16385, 1), Err(RenderError::InvalidDimensions { .. })));
}

#[test]
fn opaque_colors_are_stored_unchanged() {
    let mut framebuffer = Framebuffer::new(1, 1).unwrap();
    for v in 0..=255u8 {
        framebuffer.clear(Rgba8::rgb(v, 255 - v, v / 2));
        assert_eq!(framebuffer.pixel(0, 0), Some([v, 255 - v, v / 2, 255]));
        framebuffer
            .fill_rectangle(Rectangle::new(0, 0, 1, 1), Rgba8::rgb(v / 3, v, 7))
            .unwrap();
        assert_eq!(framebuffer.pixel(0, 0), Some([v / 3, v, 7, 255]));
    }
}

#[test]
fn rectangles_are_clipped_to_the_frame() {
    let mut framebuffer = Framebuffer::new(4, 3).unwrap();
    framebuffer.clear(Rgba8::rgb(1, 2, 3));
    framebuffer.fill_rectangle(Rectangle::new(2, 1, 100, 100), Rgba8::rgb(9, 9, 9)).unwrap();
    assert_eq!(framebuffer.pixel(1, 1), Some([1, 2, 3, 255]));
    assert_eq!(framebuffer.pixel(2, 0), Some([1, 2, 3, 255]));
    assert_eq!(framebuffer.pixel(3, 2), Some([9, 9, 9, 255]));
    assert_eq!(framebuffer.pixel(2, 1), Some([9, 9, 9, 255]));
    let before = framebuffer.premultiplied_rgba().to_vec();
    framebuffer.fill_rectangle(Rectangle::new(4, 0, 1, 1), Rgba8::rgb(0, 0, 0)).unwrap();
    assert_eq!(framebuffer.premultiplied_rgba(), &before[..]);
}

#[test]
fn reference_frame_paints_each_region() {
    let frame = render_reference_frame(320, 200).unwrap();
    assert_eq!(frame.pixel(0, 0), Some([18, 23, 33, 255]));
    assert_eq!(frame.pixel(20, 20), Some([57, 189, 159, 255]));
    assert_eq!(frame.pixel(300, 150), Some([45, 57, 75, 255]));
    assert_eq!(frame.pixel(200, 180), Some([34, 44, 59, 255]));
    assert_eq!(frame.pixel(30, 60), Some([239, 179, 74, 255]));
    assert!(matches!(render_reference_png(0, 64), Err(RenderError::InvalidDimensions { .. })));
}
