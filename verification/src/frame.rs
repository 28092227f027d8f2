//! Video frames and the live indicator that is drawn on some of them.

use vstd::prelude::*;

verus! {

/// Radius of the live indicator, in pixels.
pub const INDICATOR_RADIUS: i32 = 25;

/// A frame of RGBA pixels, four bytes each, row by row.
pub struct RgbaFrame {
    width: u32,
    height: u32,
    pixels: Vec<u8>,
}

/// What an [`RgbaFrame`] holds.
#[verifier::ext_equal]
pub struct RgbaFrameView {
    pub width: u32,
    pub height: u32,
    pub pixels: Seq<u8>,
}

/// How many bytes a frame of this size takes.
pub open spec fn frame_bytes(width: u32, height: u32) -> int {
    4 * (width as int * height as int)
}

/// Whether `len` bytes are enough for a frame of this size. The bytes of one row must be
/// countable even where there is no row.
pub open spec fn bytes_suffice(width: u32, height: u32, len: nat) -> bool {
    4 * width <= usize::MAX && frame_bytes(width, height) <= len
}

/// The four bytes of the pixel in column `x` of row `y`.
pub open spec fn pixel_at(pixels: Seq<u8>, width: u32, x: int, y: int) -> Seq<u8> {
    pixels.subrange(4 * (y * width as int + x), 4 * (y * width as int + x) + 4)
}

/// Whether there is a pixel in column `x` of row `y`.
pub open spec fn in_frame(width: u32, height: u32, x: int, y: int) -> bool {
    0 <= x < width && 0 <= y < height
}

/// How far two coordinates are apart.
pub open spec fn distance(a: int, b: int) -> int {
    if a <= b {
        b - a
    } else {
        a - b
    }
}

/// The pixel lies in the square around the circle.
pub open spec fn in_square(center: (i32, i32), radius: i32, x: int, y: int) -> bool {
    distance(x, center.0 as int) <= radius && distance(y, center.1 as int) <= radius
}

/// The point lies no further from the center than the radius.
pub open spec fn in_circle(center: (i32, i32), radius: int, x: int, y: int) -> bool {
    (x - center.0) * (x - center.0) + (y - center.1) * (y - center.1) <= radius * radius
}

/// The pixel belongs to the filled circle: half a pixel nearer to the center along the longer of
/// its two distances, it lies within the radius.
pub open spec fn in_disc(center: (i32, i32), radius: i32, x: int, y: int) -> bool {
    let across = distance(x, center.0 as int);
    let along = distance(y, center.1 as int);
    let far = if across <= along {
        along
    } else {
        across
    };
    let near = if across <= along {
        across
    } else {
        along
    };
    far * far - far + near * near < radius * radius
}

/// The circle's coordinates are small enough for single-precision arithmetic to be exact.
pub open spec fn exact_coordinates(center: (i32, i32), radius: i32) -> bool {
    &&& -16777216 <= center.0 - radius
    &&& center.0 + radius <= 16777216
    &&& -16777216 <= center.1 - radius
    &&& center.1 + radius <= 16777216
}

/// The column of the pixel that byte `i` of a frame belongs to.
pub open spec fn column_of(width: u32, i: int) -> int {
    (i / 4) % (width as int)
}

/// The row of the pixel that byte `i` of a frame belongs to.
pub open spec fn row_of(width: u32, i: int) -> int {
    (i / 4) / (width as int)
}

/// The bytes of a frame once its pixels at these points have taken a color. On a frame with a
/// side beyond the signed range nothing is painted.
pub open spec fn painted(
    width: u32,
    height: u32,
    pixels: Seq<u8>,
    points: Set<(int, int)>,
    color: Seq<u8>,
) -> Seq<u8> {
    Seq::new(
        pixels.len(),
        |i: int|
            if i < frame_bytes(width, height) && width <= i32::MAX && height <= i32::MAX
                && points.contains((column_of(width, i), row_of(width, i))) {
                color[i % 4]
            } else {
                pixels[i]
            },
    )
}

/// The points that `imageproc` fills a circle with.
pub uninterp spec fn circle_points(center: (i32, i32), radius: i32) -> Set<(int, int)>;

/// Calls `imageproc::drawing::draw_filled_circle_mut` on an `image::RgbaImage` made of the
/// bytes, and takes the bytes out again. Claims that the pixels at certain points take the color
/// and no other byte changes; that these points depend on the center and the radius alone
/// (`circle_points`); and, where the coordinates are small enough for the single-precision
/// arithmetic of the line drawing, that they are those of `in_disc`. Which points they are where
/// that arithmetic rounds is left to the name.
///
/// A circle that reaches too far right is left out: there the right end of a line saturates in
/// the conversion to an integer and the line has no end.
#[verifier::external_body]
fn draw_filled_circle(
    width: u32,
    height: u32,
    pixels: Vec<u8>,
    center: (i32, i32),
    radius: i32,
    color: [u8; 4],
) -> (drawn: Vec<u8>)
    requires
        bytes_suffice(width, height, pixels@.len()),
        1 <= radius <= 1000,
        i32::MIN <= center.0 - radius,
        center.0 + radius < 2147483584,
        i32::MIN <= center.1 - radius,
        center.1 + radius <= i32::MAX,
    ensures
        drawn@ == painted(width, height, pixels@, circle_points(center, radius), color@),
        exact_coordinates(center, radius) && width <= i32::MAX && height <= i32::MAX
            ==> forall|x: int, y: int|
            in_frame(width, height, x, y) ==> #[trigger] pixel_at(drawn@, width, x, y) == (
            if in_disc(center, radius, x, y) {
                color@
            } else {
                pixel_at(pixels@, width, x, y)
            }),
{
    let mut image = image::RgbaImage::from_raw(width, height, pixels).unwrap();
    imageproc::drawing::draw_filled_circle_mut(&mut image, center, radius, image::Rgba(color));
    image.into_raw()
}

/// A pixel at one of the points takes the color, and any other keeps its bytes.
proof fn lemma_painted_pixel(
    width: u32,
    height: u32,
    pixels: Seq<u8>,
    points: Set<(int, int)>,
    color: Seq<u8>,
    x: int,
    y: int,
)
    requires
        bytes_suffice(width, height, pixels.len()),
        color.len() == 4,
        in_frame(width, height, x, y),
    ensures
        pixel_at(painted(width, height, pixels, points, color), width, x, y) == (if width
            <= i32::MAX && height <= i32::MAX && points.contains((x, y)) {
            color
        } else {
            pixel_at(pixels, width, x, y)
        }),
{
    let w = width as int;
    let h = height as int;
    let n = y * w + x;
    let after = painted(width, height, pixels, points, color);
    assert(0 <= n && n + 1 <= w * h) by (nonlinear_arith)
        requires
            n == y * w + x,
            0 <= x < w,
            0 <= y < h,
    ;
    vstd::arithmetic::div_mod::lemma_fundamental_div_mod_converse(n, w, y, x);
    if width <= i32::MAX && height <= i32::MAX && points.contains((x, y)) {
        assert(pixel_at(after, width, x, y) =~= color);
    } else {
        assert(pixel_at(after, width, x, y) =~= pixel_at(pixels, width, x, y));
    }
}

/// A filled circle is round to within a pixel: it holds every pixel within the radius less one,
/// none beyond the radius plus one, and none outside the square around the circle.
pub proof fn disc_is_round(center: (i32, i32), radius: i32, x: int, y: int)
    requires
        1 <= radius,
    ensures
        in_circle(center, radius - 1, x, y) ==> in_disc(center, radius, x, y),
        in_disc(center, radius, x, y) ==> in_circle(center, radius + 1, x, y),
        in_disc(center, radius, x, y) ==> in_square(center, radius, x, y),
{
    let r = radius as int;
    let across = distance(x, center.0 as int);
    let along = distance(y, center.1 as int);
    let dx = x - center.0;
    let dy = y - center.1;
    assert(across * across == dx * dx) by (nonlinear_arith)
        requires
            across == dx || across == -dx,
    ;
    assert(along * along == dy * dy) by (nonlinear_arith)
        requires
            along == dy || along == -dy,
    ;
    lemma_disc(r, across, along);
    lemma_disc(r, along, across);
}

/// The arithmetic of [`disc_is_round`].
proof fn lemma_disc(r: int, far: int, near: int)
    by (nonlinear_arith)
    requires
        1 <= r,
    ensures
        0 <= near <= far && far * far + near * near <= (r - 1) * (r - 1) ==> far * far - far
            + near * near < r * r,
        0 <= near <= far && far * far - far + near * near < r * r ==> far <= r && far * far + near
            * near <= (r + 1) * (r + 1),
{
}

/// Whether the frame with this number shows the live indicator.
pub open spec fn indicator_due(frame_count: u32) -> bool {
    frame_count % 60 == 0
}

/// The column of the indicator's center. A width beyond the signed range counts as negative.
pub open spec fn indicator_x(width: u32) -> i32 {
    if width <= i32::MAX && width - 40 > 25 {
        (width - 40) as i32
    } else {
        25
    }
}

/// The row of the indicator's center. A height beyond the signed range counts as negative.
pub open spec fn indicator_y(height: u32) -> i32 {
    if height <= i32::MAX && height / 12 > 20 {
        (height / 12) as i32
    } else {
        20
    }
}

/// The indicator's center.
pub open spec fn indicator_center(width: u32, height: u32) -> (i32, i32) {
    (indicator_x(width), indicator_y(height))
}

/// The indicator's color, an opaque red.
pub open spec fn indicator_color() -> Seq<u8> {
    seq![255u8, 0, 0, 255]
}

/// Whether a circle can be drawn at the place that the indicator has at this width.
pub open spec fn indicator_drawable(width: u32) -> bool {
    width <= 2147483598 || width > i32::MAX
}

/// The bytes of a frame with the indicator.
pub open spec fn with_indicator(width: u32, height: u32, pixels: Seq<u8>) -> Seq<u8> {
    painted(
        width,
        height,
        pixels,
        circle_points(indicator_center(width, height), INDICATOR_RADIUS),
        indicator_color(),
    )
}

/// The frame with this number, once it is marked if that is due.
pub open spec fn after_indicator(frame: RgbaFrameView, frame_count: u32) -> RgbaFrameView {
    if indicator_due(frame_count) {
        RgbaFrameView {
            width: frame.width,
            height: frame.height,
            pixels: with_indicator(frame.width, frame.height, frame.pixels),
        }
    } else {
        frame
    }
}

/// Whether the place of the indicator is known to the pixel in a frame of this size.
pub open spec fn indicator_exact(width: u32, height: u32) -> bool {
    &&& width <= i32::MAX
    &&& height <= i32::MAX
    &&& exact_coordinates(indicator_center(width, height), INDICATOR_RADIUS)
}

/// How a frame with the indicator looks beside the one without: a red disc, and nothing else has
/// changed. The disc holds all that lies within the radius less one, and stays in its square.
pub open spec fn shows_indicator(
    width: u32,
    height: u32,
    before: Seq<u8>,
    after: Seq<u8>,
) -> bool {
    let center = indicator_center(width, height);
    &&& forall|x: int, y: int|
        in_frame(width, height, x, y) ==> #[trigger] pixel_at(after, width, x, y) == (if in_disc(
            center,
            INDICATOR_RADIUS,
            x,
            y,
        ) {
            indicator_color()
        } else {
            pixel_at(before, width, x, y)
        })
    &&& forall|x: int, y: int|
        in_frame(width, height, x, y) && in_circle(center, INDICATOR_RADIUS - 1, x, y)
            ==> #[trigger] pixel_at(after, width, x, y) == indicator_color()
    &&& forall|x: int, y: int|
        in_frame(width, height, x, y) && !in_square(center, INDICATOR_RADIUS, x, y)
            ==> #[trigger] pixel_at(after, width, x, y) == pixel_at(before, width, x, y)
}

impl View for RgbaFrame {
    type V = RgbaFrameView;

    closed spec fn view(&self) -> RgbaFrameView {
        RgbaFrameView { width: self.width, height: self.height, pixels: self.pixels@ }
    }
}

impl RgbaFrame {
    /// There are bytes for every pixel.
    pub open spec fn wf(&self) -> bool {
        bytes_suffice(self@.width, self@.height, self@.pixels.len())
    }

    /// The frame with these bytes; `None` where there are too few of them.
    pub fn from_raw(width: u32, height: u32, pixels: Vec<u8>) -> (frame: Option<RgbaFrame>)
        ensures
            frame is Some <==> bytes_suffice(width, height, pixels@.len()),
            frame is Some <==> 4 * width <= usize::MAX && 4 * (width * height) <= pixels@.len(),
            frame matches Some(f) ==> f.wf() && f@ == (RgbaFrameView {
                width,
                height,
                pixels: pixels@,
            }),
    {
        assert(0 <= width as int * height as int <= 0xffff_ffff * 0xffff_ffff)
            by (nonlinear_arith)
            requires
                0 <= width <= 0xffff_ffff,
                0 <= height <= 0xffff_ffff,
        ;
        if 4 * (width as u128) > usize::MAX as u128 {
            return None;
        }
        let needed: u128 = 4 * (width as u128 * height as u128);
        if needed <= pixels.len() as u128 {
            Some(RgbaFrame { width, height, pixels })
        } else {
            None
        }
    }

    /// The frame's bytes.
    pub fn into_raw(self) -> (pixels: Vec<u8>)
        ensures
            pixels@ == self@.pixels,
    {
        self.pixels
    }
}

/// Draws the live indicator, a red dot near the upper right corner, on every sixtieth frame.
pub fn add_live_indicator(frame: &mut RgbaFrame, frame_count: u32)
    requires
        old(frame).wf(),
        indicator_due(frame_count) ==> indicator_drawable(old(frame)@.width),
    ensures
        final(frame).wf(),
        final(frame)@ == after_indicator(old(frame)@, frame_count),
        final(frame)@.pixels.len() == old(frame)@.pixels.len(),
        forall|x: int, y: int|
            in_frame(old(frame)@.width, old(frame)@.height, x, y) ==> {
                ||| #[trigger] pixel_at(final(frame)@.pixels, old(frame)@.width, x, y)
                    == indicator_color()
                ||| pixel_at(final(frame)@.pixels, old(frame)@.width, x, y) == pixel_at(
                    old(frame)@.pixels,
                    old(frame)@.width,
                    x,
                    y,
                )
            },
        indicator_due(frame_count) && indicator_exact(old(frame)@.width, old(frame)@.height)
            ==> shows_indicator(
            old(frame)@.width,
            old(frame)@.height,
            old(frame)@.pixels,
            final(frame)@.pixels,
        ),
        final(frame)@.width == old(frame)@.width,
        final(frame)@.height == old(frame)@.height,
        frame_count % 60 != 0 ==> final(frame)@.pixels == old(frame)@.pixels,
{
    if frame_count % 60 != 0 {
        return;
    }
    let ghost before = frame@;
    let color: [u8; 4] = [255, 0, 0, 255];
    let cx: i32 = if frame.width <= 0x7fff_ffff && frame.width as i32 - 40 > 25 {
        frame.width as i32 - 40
    } else {
        25
    };
    let cy: i32 = if frame.height <= 0x7fff_ffff && frame.height / 12 > 20 {
        (frame.height / 12) as i32
    } else {
        20
    };
    assert(color@ =~= indicator_color());
    let mut pixels: Vec<u8> = Vec::new();
    std::mem::swap(&mut pixels, &mut frame.pixels);
    frame.pixels = draw_filled_circle(
        frame.width,
        frame.height,
        pixels,
        (cx, cy),
        INDICATOR_RADIUS,
        color,
    );
    proof {
        let center = indicator_center(before.width, before.height);
        assert forall|x: int, y: int| in_frame(before.width, before.height, x, y) implies {
            ||| #[trigger] pixel_at(frame@.pixels, before.width, x, y) == indicator_color()
            ||| pixel_at(frame@.pixels, before.width, x, y) == pixel_at(
                before.pixels,
                before.width,
                x,
                y,
            )
        } by {
            lemma_painted_pixel(
                before.width,
                before.height,
                before.pixels,
                circle_points(center, INDICATOR_RADIUS),
                indicator_color(),
                x,
                y,
            );
        }
        assert forall|x: int, y: int|
            in_circle(center, INDICATOR_RADIUS - 1, x, y) implies #[trigger] in_disc(
            center,
            INDICATOR_RADIUS,
            x,
            y,
        ) by {
            disc_is_round(center, INDICATOR_RADIUS, x, y);
        }
        assert forall|x: int, y: int|
            !in_square(center, INDICATOR_RADIUS, x, y) implies !#[trigger] in_disc(
            center,
            INDICATOR_RADIUS,
            x,
            y,
        ) by {
            disc_is_round(center, INDICATOR_RADIUS, x, y);
        }
    }
}

/// The indicator is due on the numbers that sixty divides, and its place keeps to the upper right
/// corner: forty pixels from the right edge and a twelfth of the height from the top, but never so
/// far left or up that its center comes before column 25 or row 20.
pub proof fn indicator_has_its_place(width: u32, height: u32, frame_count: u32)
    ensures
        indicator_due(frame_count) <==> frame_count % 60 == 0,
        width <= i32::MAX ==> {
            let cx = indicator_center(width, height).0;
            cx >= 25 && cx >= width - 40 && (cx == 25 || cx == width - 40)
        },
        width > i32::MAX ==> indicator_center(width, height).0 == 25,
        height <= i32::MAX ==> {
            let cy = indicator_center(width, height).1;
            cy >= 20 && cy >= height / 12 && (cy == 20 || cy == height / 12)
        },
        height > i32::MAX ==> indicator_center(width, height).1 == 20,
        indicator_color() == seq![255u8, 0, 0, 255],
        INDICATOR_RADIUS == 25,
{
}

/// A frame whose number sixty does not divide stays as it is. One whose number it divides keeps its
/// size and has a circle painted on it, at the indicator's place and in the indicator's color.
pub proof fn every_sixtieth_number_marks_the_frame(frame: RgbaFrameView, frame_count: u32)
    ensures
        frame_count % 60 != 0 ==> after_indicator(frame, frame_count) == frame,
        frame_count % 60 == 0 ==> after_indicator(frame, frame_count) == (RgbaFrameView {
            width: frame.width,
            height: frame.height,
            pixels: painted(
                frame.width,
                frame.height,
                frame.pixels,
                circle_points(indicator_center(frame.width, frame.height), 25),
                seq![255u8, 0, 0, 255],
            ),
        }),
{
}

/// The pixel in column `x` of row `y` is four bytes, after those of the rows above and of the
/// pixels to its left.
pub proof fn pixel_is_four_bytes(pixels: Seq<u8>, width: u32, height: u32, x: int, y: int, k: int)
    requires
        4 * (width * height) <= pixels.len(),
        0 <= x < width,
        0 <= y < height,
        0 <= k < 4,
    ensures
        in_frame(width, height, x, y),
        pixel_at(pixels, width, x, y).len() == 4,
        pixel_at(pixels, width, x, y)[k] == pixels[4 * (y * width + x) + k],
{
    let w = width as int;
    let h = height as int;
    assert(0 <= y * w + x && y * w + x + 1 <= w * h) by (nonlinear_arith)
        requires
            0 <= x < w,
            0 <= y < h,
    ;
}

/// Painting gives a color to the pixels at certain points. Every other pixel keeps its bytes, and
/// so does what follows the frame.
pub proof fn painting_changes_the_points_alone(
    width: u32,
    height: u32,
    pixels: Seq<u8>,
    points: Set<(int, int)>,
    color: Seq<u8>,
    x: int,
    y: int,
)
    requires
        4 * width <= usize::MAX,
        4 * (width * height) <= pixels.len(),
        color.len() == 4,
        0 <= x < width,
        0 <= y < height,
    ensures
        painted(width, height, pixels, points, color).len() == pixels.len(),
        points.contains((x, y)) && width <= i32::MAX && height <= i32::MAX ==> pixel_at(
            painted(width, height, pixels, points, color),
            width,
            x,
            y,
        ) == color,
        !points.contains((x, y)) || width > i32::MAX || height > i32::MAX ==> pixel_at(
            painted(width, height, pixels, points, color),
            width,
            x,
            y,
        ) == pixel_at(pixels, width, x, y),
        forall|i: int|
            4 * (width * height) <= i < pixels.len() ==> #[trigger] painted(
                width,
                height,
                pixels,
                points,
                color,
            )[i] == pixels[i],
{
    lemma_painted_pixel(width, height, pixels, points, color, x, y);
}

/// A frame that shows the indicator has a red disc of radius 25 around the indicator's center:
/// all of it within 24, nothing of it outside the square, the rim by rounding along the longer
/// distance. `cx` and `cy` are the center, `far` and `near` the distances from it.
pub proof fn indicator_is_a_red_disc(
    width: u32,
    height: u32,
    before: Seq<u8>,
    after: Seq<u8>,
    x: int,
    y: int,
    cx: int,
    cy: int,
    far: int,
    near: int,
)
    requires
        shows_indicator(width, height, before, after),
        0 <= x < width,
        0 <= y < height,
        cx == indicator_center(width, height).0,
        cy == indicator_center(width, height).1,
        0 <= near <= far,
        ((far == x - cx || far == cx - x) && (near == y - cy || near == cy - y)) || ((far == y - cy
            || far == cy - y) && (near == x - cx || near == cx - x)),
    ensures
        far * far - far + near * near < 625 ==> pixel_at(after, width, x, y) == seq![
            255u8,
            0,
            0,
            255,
        ],
        far * far - far + near * near >= 625 ==> pixel_at(after, width, x, y) == pixel_at(
            before,
            width,
            x,
            y,
        ),
        (x - cx) * (x - cx) + (y - cy) * (y - cy) <= 576 ==> pixel_at(after, width, x, y) == seq![
            255u8,
            0,
            0,
            255,
        ],
        far > 25 ==> pixel_at(after, width, x, y) == pixel_at(before, width, x, y),
{
    assert(in_frame(width, height, x, y));
}

/// Where the indicator's place is known to the pixel: on every frame up to 16777231 pixels wide
/// and 201326303 high.
pub proof fn indicator_is_exact_on_all_but_huge_frames(width: u32, height: u32)
    requires
        width <= 16777231,
        height <= 201326303,
    ensures
        indicator_exact(width, height),
        indicator_drawable(width),
{
}

/// The number of a frame matters only in whether the indicator is due, and the indicator is
/// drawn once however often it is due: drawing it again changes nothing.
pub proof fn indicator_is_drawn_once(frame: RgbaFrameView, m: u32, n: u32)
    ensures
        indicator_due(m) == indicator_due(n) ==> after_indicator(frame, m) == after_indicator(
            frame,
            n,
        ),
        indicator_due(m) && indicator_due(n) ==> after_indicator(after_indicator(frame, m), n)
            == after_indicator(frame, n),
        after_indicator(after_indicator(frame, m), n) == after_indicator(
            after_indicator(frame, n),
            m,
        ),
{
    let once = with_indicator(frame.width, frame.height, frame.pixels);
    assert(with_indicator(frame.width, frame.height, once) =~= once);
}

} // verus!
