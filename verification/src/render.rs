//! The drawing of the memory map, as a list of commands for a surface.
//!
//! This module says what is to be drawn, in order: a white background,
//! for each region a filled band and a label, then the legend. It draws
//! nothing itself: a surface paints, and the texts are for the caller to
//! write.

use vstd::prelude::*;
use vstd::string::{StrSliceExecFns, StringExecFns};
use crate::color::{color_of, memory_type_color, Rgb};
use crate::layout::{assign_bands, bands_of, total_height, Band};
use crate::region::{region_models, MemoryRegion, RegionModel};

verus! {

/// The width of the image, in pixels.
pub const IMAGE_WIDTH: u32 = 300;

/// The height of the image, in pixels.
pub const IMAGE_HEIGHT: u32 = 2000;

/// The width of the strip on the left that is kept for the legend.
pub const LEGEND_WIDTH: u32 = 150;

/// The column at which the labels of the regions begin.
pub const LABEL_X: i32 = 25;

/// The column at which the swatches of the legend begin.
pub const LEGEND_X: i32 = 5;

/// The side of a swatch of the legend.
pub const SWATCH_SIZE: i32 = 10;

/// The distance from the top of one entry of the legend to the next.
pub const LEGEND_SPACING: i32 = 20;

/// The number of entries of the legend.
pub const LEGEND_ENTRIES: i32 = 4;

/// One step of the drawing.
#[derive(Debug, Clone, PartialEq, Eq)]
pub enum DrawCommand {
    /// Paint the whole surface.
    Fill { color: Rgb },
    /// Paint the rectangle with the corners `(left, top)` and
    /// `(right, bottom)`, without a border.
    Rectangle { left: i32, top: i32, right: i32, bottom: i32, color: Rgb },
    /// Write `text` with its upper left corner at `(x, y)`.
    Text { x: i32, y: i32, text: String },
    /// The drawing is complete.
    Present,
}

/// The mathematical value of a [`DrawCommand`].
pub enum DrawModel {
    Fill { color: Rgb },
    Rectangle { left: int, top: int, right: int, bottom: int, color: Rgb },
    Text { x: int, y: int, text: Seq<char> },
    Present,
}

impl View for DrawCommand {
    type V = DrawModel;

    open spec fn view(&self) -> DrawModel {
        match *self {
            DrawCommand::Fill { color } => DrawModel::Fill { color },
            DrawCommand::Rectangle { left, top, right, bottom, color } => DrawModel::Rectangle {
                left: left as int,
                top: top as int,
                right: right as int,
                bottom: bottom as int,
                color,
            },
            DrawCommand::Text { x, y, text } => DrawModel::Text {
                x: x as int,
                y: y as int,
                text: text@,
            },
            DrawCommand::Present => DrawModel::Present,
        }
    }
}

/// The values of a sequence of commands, one by one.
pub open spec fn draw_models(commands: Seq<DrawCommand>) -> Seq<DrawModel> {
    commands.map_values(|c: DrawCommand| c@)
}

/// Why no drawing can be made.
#[derive(Debug, Clone, PartialEq, Eq)]
pub enum RenderError {
    /// There is not one height for each region.
    HeightCountMismatch,
    /// The image, or the bands stacked in it, reach beyond `i32::MAX`, the
    /// largest coordinate of a surface.
    CoordinateOverflow,
    /// The surface could not carry out a command; the text is its reason.
    DrawingFailed(String),
}

impl RenderError {
    /// The words that describe the error.
    pub open spec fn message_text(self) -> Seq<char> {
        match self {
            RenderError::HeightCountMismatch => "There is not one band height for each region"@,
            RenderError::CoordinateOverflow => "The image is too large for the drawing surface"@,
            RenderError::DrawingFailed(reason) => reason@,
        }
    }

    /// A description of the error for a reader.
    pub fn message(&self) -> (text: String)
        ensures
            text@ == self.message_text(),
    {
        match self {
            RenderError::HeightCountMismatch => {
                "There is not one band height for each region".to_owned()
            },
            RenderError::CoordinateOverflow => {
                "The image is too large for the drawing surface".to_owned()
            },
            RenderError::DrawingFailed(reason) => reason.clone(),
        }
    }
}

/// The hexadecimal digit for `d`, in lower case.
pub open spec fn hex_char(d: nat) -> char {
    if d < 10 {
        ('0' as nat + d) as char
    } else {
        ('a' as nat + d - 10) as char
    }
}

/// `n` in hexadecimal: lower case, no leading zeros, `0` for zero.
pub open spec fn hex_text(n: nat) -> Seq<char>
    decreases n,
{
    if n < 16 {
        seq![hex_char(n)]
    } else {
        hex_text(n / 16).push(hex_char(n % 16))
    }
}

/// The label of a region: its start address and its size, as in
/// `0x400000 (0x1000)`.
pub open spec fn label_text(start: nat, size: nat) -> Seq<char> {
    seq!['0', 'x'] + hex_text(start) + seq![' ', '(', '0', 'x'] + hex_text(size) + seq![')']
}

/// Appends `n` in hexadecimal to `text`.
fn push_hex(text: &mut String, n: u64)
    ensures
        final(text)@ == old(text)@ + hex_text(n as nat),
    decreases n,
{
    if n >= 16 {
        push_hex(text, n / 16);
    }
    let d = (n % 16) as usize;
    proof {
        reveal_strlit("0123456789abcdef");
        assert("0123456789abcdef"@[d as int] == hex_char(d as nat));
    }
    let digit = "0123456789abcdef".substring_char(d, d + 1);
    assert(digit@ =~= seq![hex_char(d as nat)]);
    text.append(digit);
    assert(text@ =~= old(text)@ + hex_text(n as nat));
}

/// The label of the region that starts at `start` and is `size` bytes long.
pub fn region_label(start: u64, size: u64) -> (label: String)
    ensures
        label@ == label_text(start as nat, size as nat),
{
    let mut label = "0x".to_owned();
    push_hex(&mut label, start);
    label.append(" (0x");
    push_hex(&mut label, size);
    label.append(")");
    proof {
        reveal_strlit("0x");
        reveal_strlit(" (0x");
        reveal_strlit(")");
        assert("0x"@ =~= seq!['0', 'x']);
        assert(" (0x"@ =~= seq![' ', '(', '0', 'x']);
        assert(")"@ =~= seq![')']);
    }
    label
}

/// The name of entry `k` of the legend.
pub open spec fn legend_name(k: int) -> Seq<char> {
    if k == 0 {
        seq!['F', 'r', 'e', 'e']
    } else if k == 1 {
        seq!['U', 's', 'e', 'd']
    } else if k == 2 {
        seq!['R', 'e', 's', 'e', 'r', 'v', 'e', 'd']
    } else {
        seq!['N', 'V', 'S']
    }
}

/// The colour of entry `k` of the legend: green, red, yellow, blue.
pub open spec fn legend_color(k: int) -> Rgb {
    if k == 0 {
        Rgb { r: 0, g: 255, b: 0 }
    } else if k == 1 {
        Rgb { r: 255, g: 0, b: 0 }
    } else if k == 2 {
        Rgb { r: 255, g: 255, b: 0 }
    } else {
        Rgb { r: 0, g: 0, b: 255 }
    }
}

/// The row at which entry `k` of the legend begins, in an image that is
/// `image_height` rows high: the entries end at the lower edge.
pub open spec fn legend_top(image_height: int, k: int) -> int {
    image_height - LEGEND_SPACING * LEGEND_ENTRIES + LEGEND_SPACING * k
}

/// The legend: for each entry a swatch in its colour and, to the right of
/// it, its name. The entries are always the same four and do not depend on
/// the colours of the regions.
pub open spec fn legend_commands(image_height: int) -> Seq<DrawModel> {
    Seq::new(
        2 * LEGEND_ENTRIES as nat,
        |i: int|
            {
                let top = legend_top(image_height, i / 2);
                if i % 2 == 0 {
                    DrawModel::Rectangle {
                        left: LEGEND_X as int,
                        top,
                        right: LEGEND_X + SWATCH_SIZE,
                        bottom: top + SWATCH_SIZE,
                        color: legend_color(i / 2),
                    }
                } else {
                    DrawModel::Text { x: LEGEND_X + 15, y: top - 2, text: legend_name(i / 2) }
                }
            },
    )
}

/// The band and the label of each region: the band fills its rows from the
/// legend strip to the right edge in the colour of the region, and the
/// label stands at the top of the band.
pub open spec fn band_commands(
    regions: Seq<RegionModel>,
    bands: Seq<Band>,
    image_width: int,
) -> Seq<DrawModel> {
    Seq::new(
        2 * regions.len(),
        |i: int|
            {
                let region = regions[i / 2];
                let band = bands[i / 2];
                if i % 2 == 0 {
                    DrawModel::Rectangle {
                        left: LEGEND_WIDTH as int,
                        top: band.top as int,
                        right: image_width,
                        bottom: band.bottom as int,
                        color: color_of(region.attributes),
                    }
                } else {
                    DrawModel::Text {
                        x: LABEL_X as int,
                        y: band.top as int,
                        text: label_text(region.start, region.size),
                    }
                }
            },
    )
}

/// The whole drawing: a white background, the bands with their labels in
/// the order of the regions, the legend, and the end of the drawing.
pub open spec fn image_commands(
    regions: Seq<RegionModel>,
    heights: Seq<u32>,
    image_width: int,
    image_height: int,
) -> Seq<DrawModel> {
    seq![DrawModel::Fill { color: Rgb { r: 255, g: 255, b: 255 } }] + band_commands(
        regions,
        bands_of(heights),
        image_width,
    ) + legend_commands(image_height) + seq![DrawModel::Present]
}

/// Why there is no drawing for these inputs, if there is none.
pub open spec fn render_error(
    regions: nat,
    heights: Seq<u32>,
    image_width: u32,
    image_height: u32,
) -> Option<RenderError> {
    if heights.len() != regions {
        Some(RenderError::HeightCountMismatch)
    } else if image_width > i32::MAX || image_height > i32::MAX || total_height(heights)
        > i32::MAX {
        Some(RenderError::CoordinateOverflow)
    } else {
        None
    }
}

/// Entry `k` of the legend.
fn legend_entry(k: i32) -> (entry: (String, Rgb))
    requires
        0 <= k < LEGEND_ENTRIES,
    ensures
        entry.0@ == legend_name(k as int),
        entry.1 == legend_color(k as int),
{
    proof {
        reveal_strlit("Free");
        reveal_strlit("Used");
        reveal_strlit("Reserved");
        reveal_strlit("NVS");
        assert("Free"@ =~= legend_name(0));
        assert("Used"@ =~= legend_name(1));
        assert("Reserved"@ =~= legend_name(2));
        assert("NVS"@ =~= legend_name(3));
    }
    if k == 0 {
        ("Free".to_owned(), Rgb { r: 0, g: 255, b: 0 })
    } else if k == 1 {
        ("Used".to_owned(), Rgb { r: 255, g: 0, b: 0 })
    } else if k == 2 {
        ("Reserved".to_owned(), Rgb { r: 255, g: 255, b: 0 })
    } else {
        ("NVS".to_owned(), Rgb { r: 0, g: 0, b: 255 })
    }
}

/// The commands that draw the legend in the lower left corner of an image
/// that is `image_height` rows high.
pub fn draw_legend(image_height: i32) -> (commands: Vec<DrawCommand>)
    requires
        image_height >= i32::MIN + 82,
    ensures
        draw_models(commands@) == legend_commands(image_height as int),
{
    let mut commands: Vec<DrawCommand> = Vec::new();
    let mut legend_y: i32 = image_height - LEGEND_SPACING * LEGEND_ENTRIES;
    let mut k: i32 = 0;
    while k < LEGEND_ENTRIES
        invariant
            0 <= k <= LEGEND_ENTRIES,
            image_height >= i32::MIN + 82,
            legend_y == legend_top(image_height as int, k as int),
            draw_models(commands@) == legend_commands(image_height as int).take(2 * k),
        decreases LEGEND_ENTRIES - k,
    {
        let (name, color) = legend_entry(k);
        let swatch = DrawCommand::Rectangle {
            left: LEGEND_X,
            top: legend_y,
            right: LEGEND_X + SWATCH_SIZE,
            bottom: legend_y + SWATCH_SIZE,
            color,
        };
        let text = DrawCommand::Text { x: LEGEND_X + 15, y: legend_y - 2, text: name };
        proof {
            let all = legend_commands(image_height as int);
            assert(all[2 * k] == swatch@);
            assert(all[2 * k + 1] == text@);
            assert(draw_models(commands@.push(swatch).push(text)) =~= draw_models(
                commands@,
            ).push(swatch@).push(text@));
            assert(all.take(2 * k).push(all[2 * k]).push(all[2 * k + 1]) =~= all.take(
                2 * (k + 1),
            ));
        }
        commands.push(swatch);
        commands.push(text);
        legend_y = legend_y + LEGEND_SPACING;
        k = k + 1;
    }
    assert(legend_commands(image_height as int).take(2 * LEGEND_ENTRIES) =~= legend_commands(
        image_height as int,
    ));
    commands
}

/// The commands that draw the memory map.
///
/// `heights` gives, for each region in turn, the height of its band in
/// pixel rows. The bands are stacked from the top edge in the order of the
/// regions; each is filled in the colour of its region's permissions, from
/// the legend strip to the right edge, and labelled with the region's start
/// address and size. The legend goes in the lower left corner.
///
/// There is no drawing where the heights are not one for each region, and
/// none where the width or the height of the image, or the sum of the
/// heights, is more than `i32::MAX`.
pub fn plan_memory_map_image(
    memory_regions: &Vec<MemoryRegion>,
    heights: &Vec<u32>,
    image_width: u32,
    image_height: u32,
) -> (result: Result<Vec<DrawCommand>, RenderError>)
    ensures
        match render_error(memory_regions.len() as nat, heights@, image_width, image_height) {
            Some(e) => result == Err::<Vec<DrawCommand>, RenderError>(e),
            None => result is Ok && draw_models(result->Ok_0@) == image_commands(
                region_models(memory_regions@),
                heights@,
                image_width as int,
                image_height as int,
            ),
        },
{
    if heights.len() != memory_regions.len() {
        return Err(RenderError::HeightCountMismatch);
    }
    if image_width > i32::MAX as u32 || image_height > i32::MAX as u32 {
        return Err(RenderError::CoordinateOverflow);
    }
    let bands = match assign_bands(heights) {
        Some(bands) => bands,
        None => {
            return Err(RenderError::CoordinateOverflow);
        },
    };
    let right: i32 = image_width as i32;
    let ghost regions = region_models(memory_regions@);
    let ghost painted = band_commands(regions, bands@, image_width as int);
    let ghost background = seq![DrawModel::Fill { color: Rgb { r: 255, g: 255, b: 255 } }];
    let mut commands: Vec<DrawCommand> = Vec::new();
    commands.push(DrawCommand::Fill { color: Rgb { r: 255, g: 255, b: 255 } });
    assert(draw_models(commands@) =~= background + painted.take(0));
    for i in 0..memory_regions.len()
        invariant
            bands.len() == memory_regions.len(),
            right == image_width,
            regions == region_models(memory_regions@),
            painted == band_commands(regions, bands@, image_width as int),
            background == seq![DrawModel::Fill { color: Rgb { r: 255, g: 255, b: 255 } }],
            draw_models(commands@) == background + painted.take(2 * i),
    {
        let region = &memory_regions[i];
        let band = bands[i];
        let bar = DrawCommand::Rectangle {
            left: LEGEND_WIDTH as i32,
            top: band.top,
            right,
            bottom: band.bottom,
            color: memory_type_color(&region.attributes),
        };
        let label = DrawCommand::Text {
            x: LABEL_X,
            y: band.top,
            text: region_label(region.start, region.size),
        };
        proof {
            assert(regions[i as int] == region@);
            assert(painted[2 * i] == bar@);
            assert(painted[2 * i + 1] == label@);
            assert(draw_models(commands@.push(bar).push(label)) =~= draw_models(commands@).push(
                bar@,
            ).push(label@));
            assert(painted.take(2 * i).push(painted[2 * i]).push(painted[2 * i + 1])
                =~= painted.take(2 * (i + 1)));
            assert((background + painted.take(2 * i)).push(bar@).push(label@) =~= background
                + painted.take(2 * (i + 1)));
        }
        commands.push(bar);
        commands.push(label);
    }
    let ghost drawn = draw_models(commands@);
    let mut legend = draw_legend(image_height as i32);
    let ghost legend_drawn = draw_models(legend@);
    commands.append(&mut legend);
    commands.push(DrawCommand::Present);
    proof {
        assert(painted.take(2 * memory_regions.len()) =~= painted);
        assert(draw_models(commands@) =~= drawn + legend_drawn + seq![DrawModel::Present]);
    }
    Ok(commands)
}

} // verus!
