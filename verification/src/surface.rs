//! The surface that the memory map is painted on: a raster of pixels in
//! memory, three bytes a pixel (red, green, blue), row after row from the
//! top. The painting itself is done by `plotters`. Text is not written
//! here; a drawing hands each text to its caller in turn.

use vstd::prelude::*;
use plotters::prelude::{BitMapBackend, Color, IntoDrawingArea, RGBColor, Rectangle, ShapeStyle};
use crate::color::Rgb;
use crate::region::{region_models, MemoryRegion};
use crate::render::{
    draw_models, image_commands, plan_memory_map_image, render_error, DrawCommand, DrawModel,
    RenderError,
};

verus! {

/// `v` brought into the range from 0 to `limit`.
pub open spec fn clamp(v: int, limit: int) -> int {
    if v < 0 {
        0
    } else if v > limit {
        limit
    } else {
        v
    }
}

/// The smaller of two numbers.
pub open spec fn least(a: int, b: int) -> int {
    if a <= b {
        a
    } else {
        b
    }
}

/// The larger of two numbers.
pub open spec fn greatest(a: int, b: int) -> int {
    if a <= b {
        b
    } else {
        a
    }
}

/// Whether painting the rectangle with the corners `(left, top)` and
/// `(right, bottom)` on a surface of `width` by `height` pixels paints the
/// pixel in column `x` of row `y`.
///
/// The corners are brought onto the surface first and may be given in
/// either order. The columns and rows painted run from the smaller
/// coordinate up to, but not including, the larger.
pub open spec fn covers(
    width: int,
    height: int,
    left: int,
    top: int,
    right: int,
    bottom: int,
    x: int,
    y: int,
) -> bool {
    let (l, r) = (clamp(left, width), clamp(right, width));
    let (t, b) = (clamp(top, height), clamp(bottom, height));
    &&& least(l, r) <= x < greatest(l, r)
    &&& least(t, b) <= y < greatest(t, b)
}

/// The byte of `color` for channel `k`: 0 is red, 1 green, 2 blue.
pub open spec fn channel_of(color: Rgb, k: int) -> u8 {
    if k == 0 {
        color.r
    } else if k == 1 {
        color.g
    } else {
        color.b
    }
}

/// The pixels after the rectangle has been painted in `color`.
pub open spec fn paint_rectangle(
    pixels: Seq<u8>,
    width: int,
    height: int,
    left: int,
    top: int,
    right: int,
    bottom: int,
    color: Rgb,
) -> Seq<u8> {
    Seq::new(
        pixels.len(),
        |i: int|
            if covers(width, height, left, top, right, bottom, (i / 3) % width, (i / 3) / width) {
                channel_of(color, i % 3)
            } else {
                pixels[i]
            },
    )
}

/// The pixels of a surface of this size are all there, and its width, its
/// height and the number of its pixels are each no more than `i32::MAX`,
/// so that every pixel has coordinates.
pub open spec fn raster_fits(width: u32, height: u32, bytes: nat) -> bool {
    &&& width <= i32::MAX
    &&& height <= i32::MAX
    &&& width * height <= i32::MAX
    &&& bytes == 3 * width * height
}

/// `image::ImageBuffer::new` for 8-bit RGB pixels, and `into_raw`: the
/// contract claims that the buffer of the new image holds three bytes for
/// each pixel, all of them 0.
#[verifier::external_body]
fn blank_pixels(width: u32, height: u32) -> (pixels: Vec<u8>)
    requires
        3 * width * height <= usize::MAX,
    ensures
        pixels@ == Seq::new((3 * width * height) as nat, |i: int| 0u8),
{
    image::RgbImage::new(width, height).into_raw()
}

/// `plotters::drawing::DrawingArea::fill` on a `BitMapBackend` over
/// `pixels`: the contract claims that the call succeeds and that afterwards
/// every pixel has the colour. On a buffer in memory the call has nothing
/// to fail on.
#[verifier::external_body]
fn backend_fill(pixels: &mut Vec<u8>, width: u32, height: u32, color: Rgb) -> (done: Result<
    (),
    String,
>)
    requires
        raster_fits(width, height, old(pixels)@.len()),
    ensures
        done is Ok,
        final(pixels)@ == paint_rectangle(
            old(pixels)@,
            width as int,
            height as int,
            0,
            0,
            width as int,
            height as int,
            color,
        ),
{
    let root = BitMapBackend::with_buffer(pixels, (width, height)).into_drawing_area();
    root.fill(&RGBColor(color.r, color.g, color.b)).map_err(|e| e.to_string())
}

/// `plotters::drawing::DrawingArea::draw` of a filled
/// `plotters::element::Rectangle` without a border, on a `BitMapBackend`
/// over `pixels`: the contract claims that the call succeeds and that
/// afterwards the pixels that the rectangle covers have the colour and the
/// others are as before.
#[verifier::external_body]
fn backend_rectangle(
    pixels: &mut Vec<u8>,
    width: u32,
    height: u32,
    left: i32,
    top: i32,
    right: i32,
    bottom: i32,
    color: Rgb,
) -> (done: Result<(), String>)
    requires
        raster_fits(width, height, old(pixels)@.len()),
    ensures
        done is Ok,
        final(pixels)@ == paint_rectangle(
            old(pixels)@,
            width as int,
            height as int,
            left as int,
            top as int,
            right as int,
            bottom as int,
            color,
        ),
{
    let root = BitMapBackend::with_buffer(pixels, (width, height)).into_drawing_area();
    let style = ShapeStyle::from(RGBColor(color.r, color.g, color.b).filled().stroke_width(0));
    root.draw(&Rectangle::new([(left, top), (right, bottom)], style)).map_err(|e| e.to_string())
}

/// `plotters::drawing::DrawingArea::present` on a `BitMapBackend` over
/// `pixels`: the contract claims that the call succeeds and leaves the
/// buffer as it is. A buffer in memory has nothing to flush.
#[verifier::external_body]
fn backend_present(pixels: &mut Vec<u8>, width: u32, height: u32) -> (done: Result<(), String>)
    requires
        raster_fits(width, height, old(pixels)@.len()),
    ensures
        done is Ok,
        final(pixels)@ == old(pixels)@,
{
    let root = BitMapBackend::with_buffer(pixels, (width, height)).into_drawing_area();
    root.present().map_err(|e| e.to_string())
}

/// A raster of `width` by `height` pixels.
#[derive(Debug, Clone, PartialEq, Eq)]
pub struct Surface {
    pub width: u32,
    pub height: u32,
    /// Three bytes for each pixel: red, green, blue. The rows follow one
    /// another from the top, each from left to right.
    pub pixels: Vec<u8>,
}

/// A surface of this size cannot be had: a side or the number of pixels is
/// more than `i32::MAX`, or the bytes are more than memory can address.
pub open spec fn too_large(width: u32, height: u32) -> bool {
    ||| width > i32::MAX
    ||| height > i32::MAX
    ||| width * height > i32::MAX
    ||| 3 * width * height > usize::MAX
}

/// The pixels of a new surface: all black.
pub open spec fn blank(width: u32, height: u32) -> Seq<u8> {
    Seq::new((3 * width * height) as nat, |i: int| 0u8)
}

/// What painting does to the pixels of a surface. A text is not painted:
/// writing is left to whoever has the fonts, and the pixels stay as they
/// are.
pub open spec fn paint(pixels: Seq<u8>, width: int, height: int, command: DrawModel) -> Seq<u8> {
    match command {
        DrawModel::Fill { color } => paint_rectangle(
            pixels,
            width,
            height,
            0,
            0,
            width,
            height,
            color,
        ),
        DrawModel::Rectangle { left, top, right, bottom, color } => paint_rectangle(
            pixels,
            width,
            height,
            left,
            top,
            right,
            bottom,
            color,
        ),
        DrawModel::Text { x, y, text } => pixels,
        DrawModel::Present => pixels,
    }
}

/// What painting the commands in order makes of the pixels.
pub open spec fn paint_all(
    pixels: Seq<u8>,
    width: int,
    height: int,
    commands: Seq<DrawModel>,
) -> Seq<u8>
    decreases commands.len(),
{
    if commands.len() == 0 {
        pixels
    } else {
        paint(paint_all(pixels, width, height, commands.drop_last()), width, height, commands.last())
    }
}

/// Where the next text stands: the first position at or after `from` that
/// holds a text, or the number of commands if none does.
pub open spec fn next_text_at(commands: Seq<DrawModel>, from: int) -> int
    decreases commands.len() - from,
{
    if 0 <= from < commands.len() && !(commands[from] is Text) {
        next_text_at(commands, from + 1)
    } else {
        from
    }
}

/// `next_text_at` stays among the commands, passes over no text and stops
/// on one or at the end.
pub proof fn lemma_next_text_at(commands: Seq<DrawModel>, from: int)
    requires
        0 <= from <= commands.len(),
    ensures
        from <= next_text_at(commands, from) <= commands.len(),
        forall|i: int| from <= i < next_text_at(commands, from) ==> !(commands[i] is Text),
        next_text_at(commands, from) < commands.len() ==> commands[next_text_at(
            commands,
            from,
        )] is Text,
    decreases commands.len() - from,
{
    if from < commands.len() && !(commands[from] is Text) {
        lemma_next_text_at(commands, from + 1);
    }
}

/// Turns the answer of the surface into the library's: success stays
/// success, and a failure becomes `DrawingFailed` with the surface's reason.
fn drawing_result(done: Result<(), String>) -> (result: Result<(), RenderError>)
    ensures
        result == match done {
            Ok(()) => Ok::<(), RenderError>(()),
            Err(reason) => Err::<(), RenderError>(RenderError::DrawingFailed(reason)),
        },
{
    match done {
        Ok(()) => Ok(()),
        Err(reason) => Err(RenderError::DrawingFailed(reason)),
    }
}

impl Surface {
    /// All the pixels are there and each has coordinates.
    pub open spec fn well_formed(&self) -> bool {
        raster_fits(self.width, self.height, self.pixels@.len())
    }

    /// Whether all the pixels are there and each has coordinates.
    pub fn is_well_formed(&self) -> (yes: bool)
        ensures
            yes == self.well_formed(),
    {
        if self.width > i32::MAX as u32 || self.height > i32::MAX as u32 {
            return false;
        }
        assert(self.width * self.height <= 0x7fff_ffff * 0x7fff_ffff) by (nonlinear_arith)
            requires
                self.width <= 0x7fff_ffff,
                self.height <= 0x7fff_ffff,
        ;
        let count: u64 = self.width as u64 * self.height as u64;
        assert(3 * self.width * self.height == 3 * count) by (nonlinear_arith)
            requires
                count == self.width * self.height,
        ;
        count <= i32::MAX as u64 && self.pixels.len() as u64 == 3 * count
    }

    /// A black surface of the given size, or `CoordinateOverflow` where
    /// the size is too large.
    pub fn new(width: u32, height: u32) -> (result: Result<Surface, RenderError>)
        ensures
            too_large(width, height) ==> (result matches Err(e) && e is CoordinateOverflow),
            !too_large(width, height) ==> (result matches Ok(surface) && surface.well_formed()
                && surface.width == width && surface.height == height && surface.pixels@
                == blank(width, height)),
    {
        if width > i32::MAX as u32 || height > i32::MAX as u32 {
            return Err(RenderError::CoordinateOverflow);
        }
        assert(width * height <= 0x7fff_ffff * 0x7fff_ffff) by (nonlinear_arith)
            requires
                width <= 0x7fff_ffff,
                height <= 0x7fff_ffff,
        ;
        let count: u64 = width as u64 * height as u64;
        assert(3 * width * height == 3 * count) by (nonlinear_arith)
            requires
                count == width * height,
        ;
        if count > i32::MAX as u64 || 3 * count > usize::MAX as u64 {
            return Err(RenderError::CoordinateOverflow);
        }
        Ok(Surface { width, height, pixels: blank_pixels(width, height) })
    }

    /// Paints the whole surface in `color`.
    pub fn fill(&mut self, color: Rgb) -> (result: Result<(), RenderError>)
        requires
            old(self).well_formed(),
        ensures
            final(self).well_formed(),
            final(self).width == old(self).width,
            final(self).height == old(self).height,
            result is Ok,
            final(self).pixels@ == paint(
                old(self).pixels@,
                old(self).width as int,
                old(self).height as int,
                DrawModel::Fill { color },
            ),
    {
        drawing_result(backend_fill(&mut self.pixels, self.width, self.height, color))
    }

    /// Paints the rectangle with the corners `(left, top)` and
    /// `(right, bottom)` in `color`, as far as it lies on the surface.
    pub fn draw_rectangle(&mut self, left: i32, top: i32, right: i32, bottom: i32, color: Rgb) -> (result:
        Result<(), RenderError>)
        requires
            old(self).well_formed(),
        ensures
            final(self).well_formed(),
            final(self).width == old(self).width,
            final(self).height == old(self).height,
            result is Ok,
            final(self).pixels@ == paint(
                old(self).pixels@,
                old(self).width as int,
                old(self).height as int,
                DrawModel::Rectangle {
                    left: left as int,
                    top: top as int,
                    right: right as int,
                    bottom: bottom as int,
                    color,
                },
            ),
    {
        drawing_result(
            backend_rectangle(
                &mut self.pixels,
                self.width,
                self.height,
                left,
                top,
                right,
                bottom,
                color,
            ),
        )
    }

    /// Tells the surface that the drawing is complete.
    pub fn present(&mut self) -> (result: Result<(), RenderError>)
        requires
            old(self).well_formed(),
        ensures
            final(self).well_formed(),
            final(self).width == old(self).width,
            final(self).height == old(self).height,
            final(self).pixels@ == old(self).pixels@,
            result is Ok,
    {
        drawing_result(backend_present(&mut self.pixels, self.width, self.height))
    }
}

/// A drawing under way: the surface, the commands that make the drawing,
/// and how many of them are behind it.
///
/// The library paints; it does not write. [`Drawing::next_text`] paints
/// on until a text is due and says which. The caller writes that text on
/// `surface.pixels` and asks again, until no text is left.
#[derive(Debug, Clone, PartialEq, Eq)]
pub struct Drawing {
    pub surface: Surface,
    pub commands: Vec<DrawCommand>,
    /// The number of commands that have been painted or handed out.
    pub done: usize,
}

impl Drawing {
    /// The surface is well-formed and no more commands are behind than
    /// there are.
    pub open spec fn well_formed(&self) -> bool {
        &&& self.surface.well_formed()
        &&& self.done <= self.commands.len()
    }

    /// Whether the drawing is well-formed.
    pub fn is_well_formed(&self) -> (yes: bool)
        ensures
            yes == self.well_formed(),
    {
        self.surface.is_well_formed() && self.done <= self.commands.len()
    }

    /// Paints the commands that are due, up to the next text or the end,
    /// and returns the place of that text among the commands, or nothing
    /// at the end. The text counts as handed out: the next call goes on
    /// behind it.
    pub fn next_text(&mut self) -> (text: Option<usize>)
        requires
            old(self).well_formed(),
        ensures
            final(self).well_formed(),
            final(self).commands == old(self).commands,
            final(self).surface.width == old(self).surface.width,
            final(self).surface.height == old(self).surface.height,
            ({
                let commands = draw_models(old(self).commands@);
                let at = next_text_at(commands, old(self).done as int);
                &&& final(self).surface.pixels@ == paint_all(
                    old(self).surface.pixels@,
                    old(self).surface.width as int,
                    old(self).surface.height as int,
                    commands.subrange(old(self).done as int, at),
                )
                &&& at < commands.len() ==> text == Some(at as usize) && final(self).done == at
                    + 1
                &&& at >= commands.len() ==> text is None && final(self).done
                    == commands.len()
            }),
    {
        let ghost commands = draw_models(self.commands@);
        let ghost from = self.done as int;
        let ghost (w, h) = (self.surface.width as int, self.surface.height as int);
        proof {
            lemma_next_text_at(commands, from);
            assert(commands.subrange(from, from) =~= Seq::empty());
        }
        while self.done < self.commands.len()
            invariant
                self.well_formed(),
                self.commands == old(self).commands,
                commands == draw_models(self.commands@),
                self.surface.width == old(self).surface.width == w,
                self.surface.height == old(self).surface.height == h,
                from <= self.done,
                from == old(self).done,
                next_text_at(commands, self.done as int) == next_text_at(commands, from),
                self.surface.pixels@ == paint_all(
                    old(self).surface.pixels@,
                    w,
                    h,
                    commands.subrange(from, self.done as int),
                ),
            decreases self.commands.len() - self.done,
        {
            let at = self.done;
            let ghost before = self.surface.pixels@;
            assert(commands[at as int] == self.commands[at as int]@);
            match &self.commands[at] {
                DrawCommand::Text { .. } => {
                    self.done = at + 1;
                    return Some(at);
                },
                DrawCommand::Fill { color } => {
                    let color = *color;
                    self.surface.fill(color).unwrap();
                },
                DrawCommand::Rectangle { left, top, right, bottom, color } => {
                    let (left, top, right, bottom, color) = (*left, *top, *right, *bottom, *color);
                    self.surface.draw_rectangle(left, top, right, bottom, color).unwrap();
                },
                DrawCommand::Present => {
                    self.surface.present().unwrap();
                },
            }
            proof {
                let now = commands.subrange(from, at + 1);
                assert(now.drop_last() =~= commands.subrange(from, at as int));
                assert(now.last() == commands[at as int]);
                assert(self.surface.pixels@ == paint(before, w, h, commands[at as int]));
            }
            self.done = at + 1;
        }
        None
    }
}

/// Why there is no drawing of the memory map for these inputs.
pub open spec fn image_error(
    regions: nat,
    heights: Seq<u32>,
    image_width: u32,
    image_height: u32,
) -> Option<RenderError> {
    match render_error(regions, heights, image_width, image_height) {
        Some(e) => Some(e),
        None => if too_large(image_width, image_height) {
            Some(RenderError::CoordinateOverflow)
        } else {
            None
        },
    }
}

/// Begins the image of the memory map.
///
/// `heights` gives, for each region in turn, the height of its band in
/// pixel rows. The drawing that comes back has a new, black surface of the
/// given size and the commands of [`plan_memory_map_image`], none of them
/// carried out yet. [`Drawing::next_text`] carries them out.
///
/// There is no drawing where the heights are not one for each region
/// (`HeightCountMismatch`), and none where the image or the bands are too
/// large (`CoordinateOverflow`).
pub fn create_memory_map_image(
    memory_regions: &Vec<MemoryRegion>,
    heights: &Vec<u32>,
    image_width: u32,
    image_height: u32,
) -> (result: Result<Drawing, RenderError>)
    ensures
        match image_error(memory_regions.len() as nat, heights@, image_width, image_height) {
            Some(e) => result == Err::<Drawing, RenderError>(e),
            None => {
                &&& result matches Ok(drawing)
                &&& drawing.well_formed()
                &&& drawing.done == 0
                &&& drawing.surface.width == image_width
                &&& drawing.surface.height == image_height
                &&& drawing.surface.pixels@ == blank(image_width, image_height)
                &&& draw_models(drawing.commands@) == image_commands(
                    region_models(memory_regions@),
                    heights@,
                    image_width as int,
                    image_height as int,
                )
            },
        },
{
    let commands = match plan_memory_map_image(
        memory_regions,
        heights,
        image_width,
        image_height,
    ) {
        Ok(commands) => commands,
        Err(e) => {
            return Err(e);
        },
    };
    let surface = match Surface::new(image_width, image_height) {
        Ok(surface) => surface,
        Err(_) => {
            return Err(RenderError::CoordinateOverflow);
        },
    };
    Ok(Drawing { surface, commands, done: 0 })
}

} // verus!
