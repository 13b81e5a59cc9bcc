//! A premultiplied-RGBA framebuffer that tiny-skia draws into, and the
//! reference scene rendered into it and encoded as PNG.
use vstd::prelude::*;
use crate::renderer::{
    reference_scene, scene_background, spec_scene_rects, validate_framebuffer_dimensions,
    Rectangle, RenderError, Rgba8,
};

verus! {

/// The four bytes that `Color::premultiply().to_color_u8()` gives a color
/// that is not opaque.
pub uninterp spec fn premultiplied_bytes(red: u8, green: u8, blue: u8, alpha: u8) -> Seq<u8>;

/// Byte `k` (0 to 3) of a pixel filled with color `c`: an opaque color is
/// stored as it is; any other is premultiplied by tiny-skia.
pub open spec fn fill_byte(c: (u8, u8, u8, u8), k: int) -> u8 {
    if c.3 == 255 {
        if k == 0 {
            c.0
        } else if k == 1 {
            c.1
        } else if k == 2 {
            c.2
        } else {
            255u8
        }
    } else {
        premultiplied_bytes(c.0, c.1, c.2, c.3)[k]
    }
}

/// Whether byte `i` of a row-major RGBA frame `width` pixels wide belongs to
/// a pixel inside the rectangle.
pub open spec fn byte_in_rect(width: int, i: int, x: int, y: int, w: int, h: int) -> bool {
    let p = i / 4;
    let px = p % width;
    let py = p / width;
    x <= px < x + w && y <= py < y + h
}

/// What tiny-skia's rectangle fill makes of a frame wider or taller than
/// 8191 pixels, where it fills through its tiled path renderer.
pub uninterp spec fn large_rect_fill(
    pixels: Seq<u8>,
    width: u32,
    height: u32,
    x: u32,
    y: u32,
    w: u32,
    h: u32,
    red: u8,
    green: u8,
    blue: u8,
    alpha: u8,
) -> Seq<u8>;

/// A frame after a source-mode fill of an in-frame rectangle with color `c`.
pub open spec fn spec_fill_rect(
    pixels: Seq<u8>,
    width: u32,
    height: u32,
    x: u32,
    y: u32,
    w: u32,
    h: u32,
    c: (u8, u8, u8, u8),
) -> Seq<u8> {
    if width <= 8191 && height <= 8191 {
        Seq::new(
            pixels.len(),
            |i: int|
                if byte_in_rect(width as int, i, x as int, y as int, w as int, h as int) {
                    fill_byte(c, i % 4)
                } else {
                    pixels[i]
                },
        )
    } else {
        large_rect_fill(pixels, width, height, x, y, w, h, c.0, c.1, c.2, c.3)
    }
}

/// `Pixmap::new`: the zeroed (transparent) pixel bytes of a frame.
#[verifier::external_body]
fn new_pixmap_data(width: u32, height: u32) -> (r: Option<Vec<u8>>)
    requires
        1 <= width <= 16384,
        1 <= height <= 16384,
    ensures
        r is Some,
        r matches Some(v) ==> v@ == Seq::new((4 * width * height) as nat, |i: int| 0u8),
{
    match tiny_skia::Pixmap::new(width, height) {
        Some(p) => Some(p.take()),
        None => None,
    }
}

/// `Pixmap::fill`: every pixel becomes the color, premultiplied.
#[verifier::external_body]
fn fill_pixels(pixels: &mut Vec<u8>, width: u32, height: u32, color: Rgba8)
    requires
        1 <= width <= 16384,
        1 <= height <= 16384,
        old(pixels)@.len() == 4 * width * height,
    ensures
        final(pixels)@ == Seq::new(
            old(pixels)@.len(),
            |i: int|
                if color.channels().3 == 255 {
                    fill_byte(color.channels(), i % 4)
                } else {
                    premultiplied_bytes(
                        color.channels().0,
                        color.channels().1,
                        color.channels().2,
                        color.channels().3,
                    )[i % 4]
                },
        ),
{
    let size = tiny_skia::IntSize::from_wh(width, height).unwrap();
    let mut pixmap = tiny_skia::Pixmap::from_vec(std::mem::take(pixels), size).unwrap();
    pixmap.fill(tiny_skia::Color::from_rgba8(color.red(), color.green(), color.blue(), color.alpha()));
    *pixels = pixmap.take();
}

/// `Pixmap::fill_rect` of an in-frame integer rectangle with a solid color,
/// `BlendMode::Source`, no anti-aliasing, and the identity transform. Up to
/// 8191 pixels a side, tiny-skia memsets exactly the rectangle's pixels to
/// the premultiplied color; larger frames go through its tiled path
/// renderer, whose result is only named here.
#[verifier::external_body]
fn fill_rect_source(
    pixels: &mut Vec<u8>,
    width: u32,
    height: u32,
    x: u32,
    y: u32,
    w: u32,
    h: u32,
    color: Rgba8,
)
    requires
        1 <= width <= 16384,
        1 <= height <= 16384,
        old(pixels)@.len() == 4 * width * height,
        1 <= w,
        1 <= h,
        x + w <= width,
        y + h <= height,
    ensures
        final(pixels)@.len() == old(pixels)@.len(),
        final(pixels)@ == spec_fill_rect(old(pixels)@, width, height, x, y, w, h, color.channels()),
        !(width <= 8191 && height <= 8191) ==> final(pixels)@ == large_rect_fill(
            old(pixels)@,
            width,
            height,
            x,
            y,
            w,
            h,
            color.channels().0,
            color.channels().1,
            color.channels().2,
            color.channels().3,
        ),
{
    let size = tiny_skia::IntSize::from_wh(width, height).unwrap();
    let mut pixmap = tiny_skia::Pixmap::from_vec(std::mem::take(pixels), size).unwrap();
    let mut paint = tiny_skia::Paint::default();
    paint.set_color(tiny_skia::Color::from_rgba8(color.red(), color.green(), color.blue(), color.alpha()));
    paint.blend_mode = tiny_skia::BlendMode::Source;
    paint.anti_alias = false;
    let rect = tiny_skia::IntRect::from_xywh(x as i32, y as i32, w, h).unwrap().to_rect();
    pixmap.fill_rect(rect, &paint, tiny_skia::Transform::identity(), None);
    *pixels = pixmap.take();
}

/// What `Pixmap::encode_png` gives for a frame: the PNG bytes (RGBA, 8 bits
/// a channel, no metadata), or the encoder's error message.
pub uninterp spec fn png_encoding(width: u32, height: u32, pixels: Seq<u8>) -> Result<
    Seq<u8>,
    Seq<char>,
>;

/// `Pixmap::encode_png` of the frame's pixel bytes.
#[verifier::external_body]
fn encode_pixels_png(pixels: &Vec<u8>, width: u32, height: u32) -> (r: Result<Vec<u8>, String>)
    requires
        1 <= width <= 16384,
        1 <= height <= 16384,
        pixels@.len() == 4 * width * height,
    ensures
        png_encoding(width, height, pixels@) == match r {
            Ok(b) => Ok::<Seq<u8>, Seq<char>>(b@),
            Err(e) => Err::<Seq<u8>, Seq<char>>(e@),
        },
{
    let size = tiny_skia::IntSize::from_wh(width, height).unwrap();
    let pixmap = tiny_skia::Pixmap::from_vec(pixels.clone(), size).unwrap();
    match pixmap.encode_png() {
        Ok(bytes) => Ok(bytes),
        Err(e) => Err(e.to_string()),
    }
}

/// The frame after drawing `rect` in `color`: the part of the rectangle that
/// lies in the frame is filled; a rectangle wholly outside changes nothing.
pub open spec fn spec_draw_rectangle(
    pixels: Seq<u8>,
    width: u32,
    height: u32,
    rect: Rectangle,
    color: (u8, u8, u8, u8),
) -> Seq<u8> {
    if rect.x >= width || rect.y >= height {
        pixels
    } else {
        let w = if rect.width <= width - rect.x {
            rect.width
        } else {
            (width - rect.x) as u32
        };
        let h = if rect.height <= height - rect.y {
            rect.height
        } else {
            (height - rect.y) as u32
        };
        spec_fill_rect(pixels, width, height, rect.x, rect.y, w, h, color)
    }
}

/// Owned premultiplied-RGBA framebuffer used by the reference renderer.
pub struct Framebuffer {
    width: u32,
    height: u32,
    pixels: Vec<u8>,
}

impl Framebuffer {
    pub closed spec fn frame_width(&self) -> u32 {
        self.width
    }

    pub closed spec fn frame_height(&self) -> u32 {
        self.height
    }

    /// The pixel bytes, row-major RGBA, premultiplied.
    pub closed spec fn frame_pixels(&self) -> Seq<u8> {
        self.pixels@
    }

    /// Sides between 1 and 16384, and four bytes for each pixel.
    pub closed spec fn wf(&self) -> bool {
        &&& 1 <= self.width <= 16384
        &&& 1 <= self.height <= 16384
        &&& self.pixels@.len() == 4 * self.width * self.height
    }

    /// Allocates a transparent framebuffer.
    pub fn new(width: u32, height: u32) -> (r: Result<Self, RenderError>)
        ensures
            r is Ok <==> (1 <= width <= 16384 && 1 <= height <= 16384),
            r is Err ==> r == Err::<Self, RenderError>(RenderError::InvalidDimensions { width, height }),
            r matches Ok(f) ==> f.wf() && f.frame_width() == width && f.frame_height() == height
                && f.frame_pixels() == Seq::new((4 * width * height) as nat, |i: int| 0u8),
    {
        match validate_framebuffer_dimensions(width, height) {
            Ok(()) => {},
            Err(e) => {
                return Err(e);
            },
        }
        match new_pixmap_data(width, height) {
            Some(pixels) => Ok(Framebuffer { width, height, pixels }),
            None => Err(RenderError::AllocationFailed { width, height }),
        }
    }

    /// Returns the framebuffer width.
    pub fn width(&self) -> (r: u32)
        ensures
            r == self.frame_width(),
    {
        self.width
    }

    /// Returns the framebuffer height.
    pub fn height(&self) -> (r: u32)
        ensures
            r == self.frame_height(),
    {
        self.height
    }

    /// Returns the raw premultiplied RGBA bytes in row-major order.
    pub fn premultiplied_rgba(&self) -> (r: &[u8])
        ensures
            r@ == self.frame_pixels(),
    {
        self.pixels.as_slice()
    }

    /// The four bytes of the pixel at (`x`, `y`), if it is in the frame.
    pub fn pixel(&self, x: u32, y: u32) -> (r: Option<[u8; 4]>)
        requires
            self.wf(),
        ensures
            r is Some <==> (x < self.frame_width() && y < self.frame_height()),
            r matches Some(p) ==> p@ == self.frame_pixels().subrange(
                4 * (y * self.frame_width() + x),
                4 * (y * self.frame_width() + x) + 4,
            ),
    {
        if x >= self.width || y >= self.height {
            return None;
        }
        proof {
            lemma_pixel_offset(self.width as int, self.height as int, x as int, y as int);
        }
        let offset = ((y as usize) * (self.width as usize) + (x as usize)) * 4;
        let p = [self.pixels[offset], self.pixels[offset + 1], self.pixels[offset + 2], self.pixels[offset + 3]];
        assert(p@ =~= self.pixels@.subrange(offset as int, offset + 4));
        Some(p)
    }

    /// Replaces every pixel with one background color.
    pub fn clear(&mut self, color: Rgba8)
        requires
            old(self).wf(),
        ensures
            final(self).wf(),
            final(self).frame_width() == old(self).frame_width(),
            final(self).frame_height() == old(self).frame_height(),
            final(self).frame_pixels() == Seq::new(
                old(self).frame_pixels().len(),
                |i: int| fill_byte(color.channels(), i % 4),
            ),
    {
        fill_pixels(&mut self.pixels, self.width, self.height, color);
    }

    /// Draws a filled, pixel-aligned rectangle using source replacement; a
    /// rectangle with no width or height is refused.
    pub fn fill_rectangle(&mut self, rectangle: Rectangle, color: Rgba8) -> (r: Result<
        (),
        RenderError,
    >)
        requires
            old(self).wf(),
        ensures
            final(self).wf(),
            final(self).frame_width() == old(self).frame_width(),
            final(self).frame_height() == old(self).frame_height(),
            r is Err <==> (rectangle.width == 0 || rectangle.height == 0),
            r is Err ==> r == Err::<(), RenderError>(RenderError::InvalidRectangle(rectangle))
                && final(self).frame_pixels() == old(self).frame_pixels(),
            r is Ok ==> final(self).frame_pixels() == spec_draw_rectangle(
                old(self).frame_pixels(),
                old(self).frame_width(),
                old(self).frame_height(),
                rectangle,
                color.channels(),
            ),
    {
        if rectangle.width == 0 || rectangle.height == 0 {
            return Err(RenderError::InvalidRectangle(rectangle));
        }
        if rectangle.x >= self.width || rectangle.y >= self.height {
            return Ok(());
        }
        let w = if rectangle.width <= self.width - rectangle.x {
            rectangle.width
        } else {
            self.width - rectangle.x
        };
        let h = if rectangle.height <= self.height - rectangle.y {
            rectangle.height
        } else {
            self.height - rectangle.y
        };
        fill_rect_source(&mut self.pixels, self.width, self.height, rectangle.x, rectangle.y, w, h, color);
        Ok(())
    }

    /// Encodes the framebuffer as a PNG without timestamps or runtime metadata.
    pub fn encode_png(&self) -> (r: Result<Vec<u8>, RenderError>)
        requires
            self.wf(),
        ensures
            match png_encoding(self.frame_width(), self.frame_height(), self.frame_pixels()) {
                Ok(b) => r matches Ok(v) && v@ == b,
                Err(m) => r matches Err(RenderError::PngEncoding(s)) && s@ == m,
            },
    {
        match encode_pixels_png(&self.pixels, self.width, self.height) {
            Ok(bytes) => Ok(bytes),
            Err(message) => Err(RenderError::PngEncoding(message)),
        }
    }
}

proof fn lemma_pixel_offset(width: int, height: int, x: int, y: int)
    requires
        1 <= width <= 16384,
        1 <= height <= 16384,
        0 <= x < width,
        0 <= y < height,
    ensures
        (y * width + x) * 4 + 4 <= 4 * width * height,
        (y * width + x) * 4 + 4 <= 4 * 16384 * 16384,
{
    assert((y * width + x) * 4 + 4 <= 4 * width * height) by (nonlinear_arith)
        requires
            0 <= x < width,
            0 <= y < height,
    ;
    assert(4 * width * height <= 4 * 16384 * 16384) by (nonlinear_arith)
        requires
            1 <= width <= 16384,
            1 <= height <= 16384,
    ;
}


/// Colors of the reference scene's rectangles, in painting order: header,
/// main surface, sidebar, highlight.
pub open spec fn scene_colors() -> Seq<(u8, u8, u8, u8)> {
    seq![
        (57u8, 189u8, 159u8, 255u8),
        (34u8, 44u8, 59u8, 255u8),
        (45u8, 57u8, 75u8, 255u8),
        (239u8, 179u8, 74u8, 255u8),
    ]
}

pub open spec fn scene_background_channels() -> (u8, u8, u8, u8) {
    (18u8, 23u8, 33u8, 255u8)
}

/// The reference frame cleared to the background, with its first `k`
/// rectangles painted over it.
pub open spec fn scene_paint(width: u32, height: u32, k: nat) -> Seq<u8>
    decreases k,
{
    if k == 0 {
        Seq::new(
            (4 * width * height) as nat,
            |i: int| fill_byte(scene_background_channels(), i % 4),
        )
    } else {
        let r = spec_scene_rects(width as int, height as int)[k - 1];
        spec_fill_rect(
            scene_paint(width, height, (k - 1) as nat),
            width,
            height,
            r.0 as u32,
            r.1 as u32,
            r.2 as u32,
            r.3 as u32,
            scene_colors()[k - 1],
        )
    }
}

/// The pixel bytes of the reference frame.
pub open spec fn spec_scene_pixels(width: u32, height: u32) -> Seq<u8> {
    scene_paint(width, height, 4)
}

/// Every rectangle of the reference scene is non-empty and lies in the frame.
pub proof fn lemma_scene_rects_fit(width: u32, height: u32)
    requires
        64 <= width <= 16384,
        64 <= height <= 16384,
    ensures
        forall|k: int|
            0 <= k < 4 ==> {
                let r = #[trigger] spec_scene_rects(width as int, height as int)[k];
                &&& 0 <= r.0
                &&& 0 <= r.1
                &&& 1 <= r.2
                &&& 1 <= r.3
                &&& r.0 + r.2 <= width
                &&& r.1 + r.3 <= height
            },
{
    let w = width as int;
    let h = height as int;
    let short = if w <= h {
        w
    } else {
        h
    };
    let margin = if short / 12 >= 4 {
        short / 12
    } else {
        4
    };
    let gap = if margin / 3 >= 2 {
        margin / 3
    } else {
        2
    };
    let header = if h / 8 >= 8 {
        h / 8
    } else {
        8
    };
    let sidebar = if w / 4 >= 8 {
        w / 4
    } else {
        8
    };
    crate::renderer::lemma_scene_fits(w, h, short, margin, gap, header, sidebar);
    let content_y = margin + header + gap;
    let content_height = h - content_y - margin;
    let main_width = w - margin * 2 - gap - sidebar;
    let inset = gap * 2;
    let tall = content_height - inset * 2;
    let across = main_width - inset * 2;
    assert(across * 2 / 3 >= 1 && across * 2 / 3 <= across) by (nonlinear_arith)
        requires
            across >= 10,
    ;
    assert(tall / 5 >= 1 && tall / 5 <= tall) by (nonlinear_arith)
        requires
            tall >= 10,
    ;
}

/// Renders the reference scene into an owned framebuffer: the background,
/// then the header, main surface, sidebar, and highlight rectangles.
pub fn render_reference_frame(width: u32, height: u32) -> (r: Result<Framebuffer, RenderError>)
    ensures
        r is Ok <==> (64 <= width <= 16384 && 64 <= height <= 16384),
        r is Err ==> r == Err::<Framebuffer, RenderError>(
            if !(1 <= width <= 16384 && 1 <= height <= 16384) {
                RenderError::InvalidDimensions { width, height }
            } else {
                RenderError::ReferenceSceneTooSmall { width, height }
            },
        ),
        r matches Ok(f) ==> f.wf() && f.frame_width() == width && f.frame_height() == height
            && f.frame_pixels() == spec_scene_pixels(width, height),
{
    let scene = match reference_scene(width, height) {
        Ok(s) => s,
        Err(e) => {
            return Err(e);
        },
    };
    proof {
        lemma_scene_rects_fit(width, height);
    }
    let mut frame = match Framebuffer::new(width, height) {
        Ok(f) => f,
        Err(e) => {
            return Err(e);
        },
    };
    frame.clear(scene_background());
    assert(frame.frame_pixels() =~= scene_paint(width, height, 0));
    let mut k: usize = 0;
    while k < scene.len()
        invariant
            64 <= width <= 16384,
            64 <= height <= 16384,
            scene@.len() == 4,
            forall|j: int|
                0 <= j < 4 ==> {
                    let (x, y, w, h) = spec_scene_rects(width as int, height as int)[j];
                    &&& (#[trigger] scene@[j]).0.x == x
                    &&& scene@[j].0.y == y
                    &&& scene@[j].0.width == w
                    &&& scene@[j].0.height == h
                    &&& scene@[j].1.channels() == scene_colors()[j]
                },
            forall|j: int|
                0 <= j < 4 ==> {
                    let r = #[trigger] spec_scene_rects(width as int, height as int)[j];
                    &&& 0 <= r.0
                    &&& 0 <= r.1
                    &&& 1 <= r.2
                    &&& 1 <= r.3
                    &&& r.0 + r.2 <= width
                    &&& r.1 + r.3 <= height
                },
            k <= 4,
            frame.wf(),
            frame.frame_width() == width,
            frame.frame_height() == height,
            frame.frame_pixels() == scene_paint(width, height, k as nat),
        decreases 4 - k,
    {
        let (rect, color) = scene[k];
        let ghost r = spec_scene_rects(width as int, height as int)[k as int];
        assert(scene@[k as int].0.x == r.0);
        match frame.fill_rectangle(rect, color) {
            Ok(()) => {},
            Err(e) => {
                return Err(e);
            },
        }
        k += 1;
    }
    Ok(frame)
}

/// Renders and encodes the reference scene as deterministic PNG bytes.
pub fn render_reference_png(width: u32, height: u32) -> (r: Result<Vec<u8>, RenderError>)
    ensures
        !(64 <= width <= 16384 && 64 <= height <= 16384) ==> r == Err::<Vec<u8>, RenderError>(
            if !(1 <= width <= 16384 && 1 <= height <= 16384) {
                RenderError::InvalidDimensions { width, height }
            } else {
                RenderError::ReferenceSceneTooSmall { width, height }
            },
        ),
        (64 <= width <= 16384 && 64 <= height <= 16384) ==> match png_encoding(
            width,
            height,
            spec_scene_pixels(width, height),
        ) {
            Ok(b) => r matches Ok(v) && v@ == b,
            Err(m) => r matches Err(RenderError::PngEncoding(s)) && s@ == m,
        },
{
    let frame = match render_reference_frame(width, height) {
        Ok(f) => f,
        Err(e) => {
            return Err(e);
        },
    };
    frame.encode_png()
}

/// The color the reference scene gives the pixel of byte `i`: that of the
/// last rectangle covering it, or the background.
pub open spec fn scene_pixel_color(width: u32, height: u32, i: int) -> (u8, u8, u8, u8) {
    let rs = spec_scene_rects(width as int, height as int);
    if byte_in_rect(width as int, i, rs[3].0, rs[3].1, rs[3].2, rs[3].3) {
        scene_colors()[3]
    } else if byte_in_rect(width as int, i, rs[2].0, rs[2].1, rs[2].2, rs[2].3) {
        scene_colors()[2]
    } else if byte_in_rect(width as int, i, rs[1].0, rs[1].1, rs[1].2, rs[1].3) {
        scene_colors()[1]
    } else if byte_in_rect(width as int, i, rs[0].0, rs[0].1, rs[0].2, rs[0].3) {
        scene_colors()[0]
    } else {
        scene_background_channels()
    }
}

/// Up to 8191 pixels a side, the reference frame is the background with the
/// four rectangles painted over it in order: each pixel holds the color of
/// the last rectangle that covers it, or the background.
pub proof fn lemma_reference_frame_pixels(width: u32, height: u32)
    requires
        64 <= width <= 8191,
        64 <= height <= 8191,
    ensures
        spec_scene_pixels(width, height).len() == 4 * width * height,
        forall|i: int|
            0 <= i < 4 * width * height ==> #[trigger] spec_scene_pixels(width, height)[i]
                == fill_byte(scene_pixel_color(width, height, i), i % 4),
{
    lemma_scene_rects_fit(width, height);
    reveal_with_fuel(scene_paint, 5);
    let rs = spec_scene_rects(width as int, height as int);
    assert(rs[0].0 as u32 == rs[0].0 && rs[0].1 as u32 == rs[0].1 && rs[0].2 as u32 == rs[0].2
        && rs[0].3 as u32 == rs[0].3);
    assert(rs[1].0 as u32 == rs[1].0 && rs[1].1 as u32 == rs[1].1 && rs[1].2 as u32 == rs[1].2
        && rs[1].3 as u32 == rs[1].3);
    assert(rs[2].0 as u32 == rs[2].0 && rs[2].1 as u32 == rs[2].1 && rs[2].2 as u32 == rs[2].2
        && rs[2].3 as u32 == rs[2].3);
    assert(rs[3].0 as u32 == rs[3].0 && rs[3].1 as u32 == rs[3].1 && rs[3].2 as u32 == rs[3].2
        && rs[3].3 as u32 == rs[3].3);
    let p0 = scene_paint(width, height, 0);
    let p1 = scene_paint(width, height, 1);
    let p2 = scene_paint(width, height, 2);
    let p3 = scene_paint(width, height, 3);
    let p4 = scene_paint(width, height, 4);
    assert(p4.len() == 4 * width * height);
    assert forall|i: int| 0 <= i < 4 * width * height implies #[trigger] p4[i] == fill_byte(
        scene_pixel_color(width, height, i),
        i % 4,
    ) by {
        assert(p1[i] == if byte_in_rect(width as int, i, rs[0].0, rs[0].1, rs[0].2, rs[0].3) {
            fill_byte(scene_colors()[0], i % 4)
        } else {
            p0[i]
        });
    }
}


/// Up to 8191 pixels a side, drawing a rectangle sets exactly the pixels of
/// the rectangle that lie in the frame to the (premultiplied) color and
/// leaves every other byte as it was.
pub proof fn law_draw_changes_only_the_rectangle(
    pixels: Seq<u8>,
    width: u32,
    height: u32,
    rect: Rectangle,
    color: (u8, u8, u8, u8),
)
    requires
        1 <= width <= 8191,
        1 <= height <= 8191,
        pixels.len() == 4 * width * height,
    ensures
        spec_draw_rectangle(pixels, width, height, rect, color).len() == pixels.len(),
        forall|i: int|
            0 <= i < pixels.len() ==> #[trigger] spec_draw_rectangle(
                pixels,
                width,
                height,
                rect,
                color,
            )[i] == if byte_in_rect(
                width as int,
                i,
                rect.x as int,
                rect.y as int,
                rect.width as int,
                rect.height as int,
            ) {
                fill_byte(color, i % 4)
            } else {
                pixels[i]
            },
{
    assert forall|i: int| 0 <= i < pixels.len() implies #[trigger] spec_draw_rectangle(
        pixels,
        width,
        height,
        rect,
        color,
    )[i] == if byte_in_rect(
        width as int,
        i,
        rect.x as int,
        rect.y as int,
        rect.width as int,
        rect.height as int,
    ) {
        fill_byte(color, i % 4)
    } else {
        pixels[i]
    } by {
        let p = i / 4;
        assert(0 <= p / (width as int) < height) by (nonlinear_arith)
            requires
                0 <= i < 4 * width * height,
                p == i / 4,
                width >= 1,
        ;
        assert(0 <= p % (width as int) < width) by (nonlinear_arith)
            requires
                p >= 0,
                width >= 1,
        ;
    }
}

} // verus!
