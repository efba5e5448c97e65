//! A model of a process's virtual address space, built from the textual
//! listing of its memory mappings, and the image that shows it as a column
//! of coloured bands.
//!
//! The pipeline is: mapping lines are parsed into regions and sorted by
//! start address ([`read_memory_regions`]), the unmapped space between
//! them is made explicit ([`insert_gap_memory_regions`]), each region gets
//! a colour ([`memory_type_color`]) and a band of the image, the whole is
//! laid out as a list of drawing commands ([`plan_memory_map_image`]), and
//! the commands are painted on a raster ([`create_memory_map_image`],
//! [`Drawing::next_text`]). Writing the texts is left to the caller.
//!
//! How high each band is to be is not decided here: the heights come in
//! as numbers of pixel rows.

pub mod color;
pub mod gaps;
pub mod layout;
pub mod loader;
pub mod parser;
pub mod region;
pub mod render;
pub mod surface;
pub mod text;

pub use color::{memory_type_color, Rgb};
pub use gaps::insert_gap_memory_regions;
pub use layout::{assign_bands, Band};
pub use loader::read_memory_regions;
pub use parser::ParseError;
pub use region::{MemoryAttributes, MemoryRegion, RegionModel};
pub use render::{
    draw_legend, plan_memory_map_image, region_label, DrawCommand, RenderError, IMAGE_HEIGHT,
    IMAGE_WIDTH, LEGEND_WIDTH,
};
pub use surface::{create_memory_map_image, Drawing, Surface};
