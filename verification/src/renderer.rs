//! Colors, rectangles, and the geometry of the built-in reference scene.
use vstd::prelude::*;

verus! {

/// Default width used by the headless reference render.
pub const REFERENCE_WIDTH: u32 = 800;

/// Default height used by the headless reference render.
pub const REFERENCE_HEIGHT: u32 = 600;

/// Smallest supported side for the built-in reference scene.
pub const MIN_REFERENCE_DIMENSION: u32 = 64;

/// Upper bound that prevents accidental multi-gigabyte framebuffer allocations.
pub const MAX_FRAMEBUFFER_DIMENSION: u32 = 16384;

/// An unpremultiplied 8-bit RGBA color.
#[derive(Debug, Clone, Copy, PartialEq, Eq, Structural)]
pub struct Rgba8 {
    red: u8,
    green: u8,
    blue: u8,
    alpha: u8,
}

impl Rgba8 {
    pub closed spec fn channels(&self) -> (u8, u8, u8, u8) {
        (self.red, self.green, self.blue, self.alpha)
    }

    /// Two colors with the same channels are the same color.
    pub proof fn lemma_channels_determine(a: Self, b: Self)
        requires
            a.channels() == b.channels(),
        ensures
            a == b,
    {
    }

    /// Creates a color from red, green, blue, and alpha channels.
    pub fn new(red: u8, green: u8, blue: u8, alpha: u8) -> (r: Self)
        ensures
            r.channels() == (red, green, blue, alpha),
    {
        Rgba8 { red, green, blue, alpha }
    }

    /// Creates an opaque RGB color.
    pub fn rgb(red: u8, green: u8, blue: u8) -> (r: Self)
        ensures
            r.channels() == (red, green, blue, 255u8),
    {
        Self::new(red, green, blue, 255)
    }

    pub fn red(&self) -> (r: u8)
        ensures
            r == self.channels().0,
    {
        self.red
    }

    pub fn green(&self) -> (r: u8)
        ensures
            r == self.channels().1,
    {
        self.green
    }

    pub fn blue(&self) -> (r: u8)
        ensures
            r == self.channels().2,
    {
        self.blue
    }

    pub fn alpha(&self) -> (r: u8)
        ensures
            r == self.channels().3,
    {
        self.alpha
    }
}

/// An axis-aligned rectangle in physical pixels.
#[derive(Debug, Clone, Copy, PartialEq, Eq, Structural)]
pub struct Rectangle {
    pub x: u32,
    pub y: u32,
    pub width: u32,
    pub height: u32,
}

impl Rectangle {
    /// Creates a pixel-aligned rectangle.
    pub fn new(x: u32, y: u32, width: u32, height: u32) -> (r: Self)
        ensures
            r == (Rectangle { x, y, width, height }),
    {
        Rectangle { x, y, width, height }
    }
}

/// Errors produced while allocating, drawing, or encoding a reference frame.
#[derive(Debug, Clone, PartialEq, Eq)]
pub enum RenderError {
    /// The framebuffer dimensions are zero or exceed the allocation guard.
    InvalidDimensions { width: u32, height: u32 },
    /// The built-in scene cannot fit inside the requested dimensions.
    ReferenceSceneTooSmall { width: u32, height: u32 },
    /// The framebuffer allocation was refused.
    AllocationFailed { width: u32, height: u32 },
    /// The rectangle has zero width or height or cannot be represented.
    InvalidRectangle(Rectangle),
    /// PNG encoding failed.
    PngEncoding(String),
}

/// Accepts framebuffer sides between 1 and `MAX_FRAMEBUFFER_DIMENSION`.
pub fn validate_framebuffer_dimensions(width: u32, height: u32) -> (r: Result<(), RenderError>)
    ensures
        r is Ok <==> (1 <= width <= 16384 && 1 <= height <= 16384),
        r is Err ==> r == Err::<(), RenderError>(RenderError::InvalidDimensions { width, height }),
{
    if width == 0 || height == 0 || width > MAX_FRAMEBUFFER_DIMENSION || height
        > MAX_FRAMEBUFFER_DIMENSION {
        return Err(RenderError::InvalidDimensions { width, height });
    }
    Ok(())
}

/// Accepts framebuffer sides that also hold the reference scene.
pub fn validate_reference_dimensions(width: u32, height: u32) -> (r: Result<(), RenderError>)
    ensures
        r is Ok <==> (64 <= width <= 16384 && 64 <= height <= 16384),
        !(1 <= width <= 16384 && 1 <= height <= 16384) ==> r == Err::<(), RenderError>(
            RenderError::InvalidDimensions { width, height },
        ),
        (1 <= width <= 16384 && 1 <= height <= 16384) && (width < 64 || height < 64) ==> r
            == Err::<(), RenderError>(RenderError::ReferenceSceneTooSmall { width, height }),
{
    validate_framebuffer_dimensions(width, height)?;
    if width < MIN_REFERENCE_DIMENSION || height < MIN_REFERENCE_DIMENSION {
        return Err(RenderError::ReferenceSceneTooSmall { width, height });
    }
    Ok(())
}

/// Background color of the reference scene.
pub fn scene_background() -> (r: Rgba8)
    ensures
        r.channels() == (18u8, 23u8, 33u8, 255u8),
{
    Rgba8::rgb(18, 23, 33)
}

/// Geometry of the reference scene in a `width` by `height` frame: the
/// header, main surface, sidebar, and highlight rectangles.
pub open spec fn spec_scene_rects(width: int, height: int) -> Seq<(int, int, int, int)> {
    let short = if width <= height {
        width
    } else {
        height
    };
    let margin = if short / 12 >= 4 {
        short / 12
    } else {
        4
    };
    let gap = if margin / 3 >= 2 {
        margin / 3
    } else {
        2
    };
    let header = if height / 8 >= 8 {
        height / 8
    } else {
        8
    };
    let content_y = margin + header + gap;
    let content_height = height - content_y - margin;
    let sidebar = if width / 4 >= 8 {
        width / 4
    } else {
        8
    };
    let main_width = width - margin * 2 - gap - sidebar;
    let inset = gap * 2;
    let tall = content_height - inset * 2;
    seq![
        (margin, margin, width - margin * 2, header),
        (margin, content_y, main_width, content_height),
        (margin + main_width + gap, content_y, sidebar, content_height),
        (
            margin + inset,
            content_y + inset,
            (main_width - inset * 2) * 2 / 3,
            (if tall >= 1 {
                tall
            } else {
                1
            }) / 5,
        ),
    ]
}

/// The rectangles and colors of the reference scene, painted in order over
/// the background, or the dimension error.
pub fn reference_scene(width: u32, height: u32) -> (r: Result<Vec<(Rectangle, Rgba8)>, RenderError>)
    ensures
        r is Ok <==> (64 <= width <= 16384 && 64 <= height <= 16384),
        r is Err ==> r == Err::<Vec<(Rectangle, Rgba8)>, RenderError>(
            if !(1 <= width <= 16384 && 1 <= height <= 16384) {
                RenderError::InvalidDimensions { width, height }
            } else {
                RenderError::ReferenceSceneTooSmall { width, height }
            },
        ),
        r matches Ok(v) ==> v@.len() == 4 && forall|i: int|
            0 <= i < 4 ==> {
                let (x, y, w, h) = spec_scene_rects(width as int, height as int)[i];
                &&& (#[trigger] v@[i]).0.x == x
                &&& v@[i].0.y == y
                &&& v@[i].0.width == w
                &&& v@[i].0.height == h
            },
        r matches Ok(v) ==> v@[0].1.channels() == (57u8, 189u8, 159u8, 255u8) && v@[1].1.channels()
            == (34u8, 44u8, 59u8, 255u8) && v@[2].1.channels() == (45u8, 57u8, 75u8, 255u8)
            && v@[3].1.channels() == (239u8, 179u8, 74u8, 255u8),
{
    validate_reference_dimensions(width, height)?;
    let short = if width <= height {
        width
    } else {
        height
    };
    let margin = if short / 12 >= 4 {
        short / 12
    } else {
        4
    };
    let gap = if margin / 3 >= 2 {
        margin / 3
    } else {
        2
    };
    let header_height = if height / 8 >= 8 {
        height / 8
    } else {
        8
    };
    let sidebar_width = if width / 4 >= 8 {
        width / 4
    } else {
        8
    };
    proof {
        lemma_scene_fits(width as int, height as int, short as int, margin as int, gap as int, header_height as int, sidebar_width as int);
    }
    let content_y = margin + header_height + gap;
    let content_height = height - content_y - margin;
    let main_width = width - (margin * 2) - gap - sidebar_width;
    let inset = gap * 2;
    let tall = content_height - inset * 2;
    let mut scene: Vec<(Rectangle, Rgba8)> = Vec::new();
    scene.push(
        (Rectangle::new(margin, margin, width - (margin * 2), header_height), Rgba8::rgb(57, 189, 159)),
    );
    scene.push(
        (Rectangle::new(margin, content_y, main_width, content_height), Rgba8::rgb(34, 44, 59)),
    );
    scene.push(
        (
            Rectangle::new(margin + main_width + gap, content_y, sidebar_width, content_height),
            Rgba8::rgb(45, 57, 75),
        ),
    );
    scene.push(
        (
            Rectangle::new(
                margin + inset,
                content_y + inset,
                (main_width - inset * 2) * 2 / 3,
                (if tall >= 1 {
                    tall
                } else {
                    1
                }) / 5,
            ),
            Rgba8::rgb(239, 179, 74),
        ),
    );
    Ok(scene)
}

pub(crate) proof fn lemma_scene_fits(
    width: int,
    height: int,
    short: int,
    margin: int,
    gap: int,
    header: int,
    sidebar: int,
)
    requires
        64 <= width <= 16384,
        64 <= height <= 16384,
        short == (if width <= height { width } else { height }),
        margin == (if short / 12 >= 4 { short / 12 } else { 4 }),
        gap == (if margin / 3 >= 2 { margin / 3 } else { 2 }),
        header == (if height / 8 >= 8 { height / 8 } else { 8 }),
        sidebar == (if width / 4 >= 8 { width / 4 } else { 8 }),
    ensures
        margin == short / 12,
        5 <= margin,
        2 <= gap <= margin,
        header == height / 8,
        sidebar == width / 4,
        margin * 12 <= width,
        margin * 12 <= height,
        header * 8 <= height,
        sidebar * 4 <= width,
        margin * 2 + gap + sidebar + gap * 4 + 10 <= width,
        margin * 2 + header + gap + gap * 4 + 10 <= height,
{
    assert(short / 12 >= 5 && (short / 12) * 12 <= short) by (nonlinear_arith)
        requires
            short >= 64,
    ;
    assert(margin / 3 <= margin && (margin / 3) * 3 <= margin) by (nonlinear_arith)
        requires
            margin >= 5,
    ;
    assert(height / 8 >= 8 && (height / 8) * 8 <= height) by (nonlinear_arith)
        requires
            height >= 64,
    ;
    assert(width / 4 >= 16 && (width / 4) * 4 <= width) by (nonlinear_arith)
        requires
            width >= 64,
    ;
}

} // verus!
