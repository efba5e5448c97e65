use memory_map::{
    create_memory_map_image, insert_gap_memory_regions, plan_memory_map_image,
    read_memory_regions, DrawCommand, Drawing, RenderError, Rgb, Surface,
};

const RED: Rgb = Rgb { r: 255, g: 0, b: 0 };
const TEAL: Rgb = Rgb { r: 1, g: 130, b: 129 };
const GREY: Rgb = Rgb { r: 128, g: 128, b: 128 };
const WHITE: Rgb = Rgb { r: 255, g: 255, b: 255 };

fn clamp_to(v: i32, limit: u32) -> u32 {
    if v < 0 {
        0
    } else if v as u32 > limit {
        limit
    } else {
        v as u32
    }
}

/// What a rectangle is expected to do to the pixels.
fn painted(
    before: &Surface,
    left: i32,
    top: i32,
    right: i32,
    bottom: i32,
    color: Rgb,
) -> Vec<u8> {
    let (l, r) = (clamp_to(left, before.width), clamp_to(right, before.width));
    let (t, b) = (clamp_to(top, before.height), clamp_to(bottom, before.height));
    let mut pixels = before.pixels.clone();
    for y in t.min(b)..t.max(b) {
        for x in l.min(r)..l.max(r) {
            let at = 3 * (y * before.width + x) as usize;
            pixels[at] = color.r;
            pixels[at + 1] = color.g;
            pixels[at + 2] = color.b;
        }
    }
    pixels
}

fn pixel(surface: &Surface, x: u32, y: u32) -> Rgb {
    let at = 3 * (y * surface.width + x) as usize;
    Rgb { r: surface.pixels[at], g: surface.pixels[at + 1], b: surface.pixels[at + 2] }
}

#[test]
fn new_surface_is_black() {
    let surface = Surface::new(7, 5).unwrap();
    assert_eq!((surface.width, surface.height), (7, 5));
    assert_eq!(surface.pixels, vec![0u8; 105]);
    let empty = Surface::new(0, 9).unwrap();
    assert!(empty.pixels.is_empty());
}

#[test]
fn surface_that_is_too_large_is_refused() {
    let limit = i32::MAX as u32;
    assert_eq!(Surface::new(limit + 1, 0), Err(RenderError::CoordinateOverflow));
    assert_eq!(Surface::new(0, limit + 1), Err(RenderError::CoordinateOverflow));
    assert_eq!(Surface::new(65536, 32768), Err(RenderError::CoordinateOverflow));
    assert_eq!(Surface::new(u32::MAX, u32::MAX), Err(RenderError::CoordinateOverflow));
}

#[test]
fn fill_paints_every_pixel() {
    let mut surface = Surface::new(11, 4).unwrap();
    surface.fill(TEAL).unwrap();
    assert_eq!(surface.pixels.len(), 132);
    for y in 0..4 {
        for x in 0..11 {
            assert_eq!(pixel(&surface, x, y), TEAL);
        }
    }
    surface.fill(GREY).unwrap();
    assert_eq!(surface.pixels, vec![128u8; 132]);
}

#[test]
fn rectangle_paints_up_to_but_not_including_its_far_corner() {
    let mut surface = Surface::new(6, 5).unwrap();
    surface.draw_rectangle(1, 2, 4, 4, RED).unwrap();
    for y in 0..5 {
        for x in 0..6 {
            let inside = (1..4).contains(&x) && (2..4).contains(&y);
            assert_eq!(pixel(&surface, x, y), if inside { RED } else { Rgb { r: 0, g: 0, b: 0 } });
        }
    }
}

#[test]
fn rectangles_of_many_shapes() {
    let corners = [
        (0, 0, 40, 30),
        (3, 4, 5, 6),
        (10, 0, 40, 30),
        (0, 7, 40, 8),
        (5, 5, 29, 6),
        (39, 29, 40, 30),
        (-10, -10, 3, 3),
        (30, 20, 1000, 1000),
        (-5, 10, 90, 12),
        (20, 25, 4, 2),
        (40, 30, 0, 0),
        (7, 7, 7, 20),
        (7, 7, 20, 7),
        (50, 3, 60, 9),
        (3, 50, 9, 60),
        (-9, -9, -1, -1),
        (i32::MIN, i32::MIN, i32::MAX, i32::MAX),
        (i32::MAX, 3, i32::MIN, 4),
    ];
    for color in [RED, TEAL, GREY] {
        for (left, top, right, bottom) in corners {
            let mut surface = Surface::new(40, 30).unwrap();
            surface.fill(WHITE).unwrap();
            let expected = painted(&surface, left, top, right, bottom, color);
            surface.draw_rectangle(left, top, right, bottom, color).unwrap();
            assert_eq!(surface.pixels, expected);
        }
    }
}

#[test]
fn rectangle_that_misses_the_surface_changes_nothing() {
    let mut surface = Surface::new(8, 8).unwrap();
    surface.fill(TEAL).unwrap();
    let before = surface.clone();
    surface.draw_rectangle(8, 0, 20, 8, RED).unwrap();
    surface.draw_rectangle(0, -4, 8, 0, RED).unwrap();
    surface.draw_rectangle(3, 3, 3, 3, RED).unwrap();
    assert_eq!(surface, before);
}

#[test]
fn later_rectangles_cover_earlier_ones() {
    let mut surface = Surface::new(20, 10).unwrap();
    surface.draw_rectangle(0, 0, 15, 10, RED).unwrap();
    surface.draw_rectangle(10, 5, 20, 10, TEAL).unwrap();
    assert_eq!(pixel(&surface, 9, 9), RED);
    assert_eq!(pixel(&surface, 10, 4), RED);
    assert_eq!(pixel(&surface, 10, 5), TEAL);
    assert_eq!(pixel(&surface, 19, 9), TEAL);
    assert_eq!(pixel(&surface, 19, 4), Rgb { r: 0, g: 0, b: 0 });
}

#[test]
fn present_leaves_the_pixels() {
    let mut surface = Surface::new(9, 3).unwrap();
    surface.draw_rectangle(2, 0, 7, 2, TEAL).unwrap();
    let before = surface.clone();
    surface.present().unwrap();
    assert_eq!(surface, before);
}

fn label(x: i32, y: i32, text: &str) -> DrawCommand {
    DrawCommand::Text { x, y, text: text.to_string() }
}

/// Runs the drawing to its end and returns the places of the texts that it
/// handed out, in order.
fn run(drawing: &mut Drawing) -> Vec<usize> {
    let mut texts = Vec::new();
    loop {
        assert!(drawing.is_well_formed());
        match drawing.next_text() {
            Some(at) => texts.push(at),
            None => return texts,
        }
    }
}

#[test]
fn well_formed_surfaces_are_told_from_others() {
    let mut surface = Surface::new(5, 3).unwrap();
    assert!(surface.is_well_formed());
    surface.pixels.pop();
    assert!(!surface.is_well_formed());
    surface.pixels.push(0);
    surface.pixels.push(0);
    assert!(!surface.is_well_formed());
    surface.pixels.pop();
    surface.width = 3;
    surface.height = 5;
    assert!(surface.is_well_formed());
    surface.width = 15;
    surface.height = 1;
    assert!(surface.is_well_formed());
    surface.height = 2;
    assert!(!surface.is_well_formed());
    let odd = Surface { width: u32::MAX, height: 0, pixels: Vec::new() };
    assert!(!odd.is_well_formed());
    let wide = Surface { width: 65536, height: 32768, pixels: Vec::new() };
    assert!(!wide.is_well_formed());
    assert!(Surface::new(0, 0).unwrap().is_well_formed());
}

#[test]
fn well_formed_drawings_are_told_from_others() {
    let surface = Surface::new(4, 4).unwrap();
    let commands = vec![DrawCommand::Present, DrawCommand::Present];
    let mut drawing = Drawing { surface, commands, done: 2 };
    assert!(drawing.is_well_formed());
    drawing.done = 3;
    assert!(!drawing.is_well_formed());
    drawing.done = 0;
    assert!(drawing.is_well_formed());
    drawing.surface.pixels.clear();
    assert!(!drawing.is_well_formed());
}

#[test]
fn painting_runs_up_to_each_text() {
    let commands = vec![
        DrawCommand::Fill { color: WHITE },
        DrawCommand::Rectangle { left: 2, top: 1, right: 12, bottom: 6, color: RED },
        label(3, 4, "first"),
        DrawCommand::Rectangle { left: 4, top: 0, right: 6, bottom: 8, color: GREY },
        label(5, 6, "second"),
        label(7, 8, "third"),
        DrawCommand::Rectangle { left: 0, top: 7, right: 16, bottom: 8, color: TEAL },
        DrawCommand::Present,
    ];
    let mut drawing =
        Drawing { surface: Surface::new(16, 8).unwrap(), commands: commands.clone(), done: 0 };
    let mut expected = Surface::new(16, 8).unwrap();

    assert_eq!(drawing.next_text(), Some(2));
    expected.pixels = vec![255u8; 384];
    expected.pixels = painted(&expected, 2, 1, 12, 6, RED);
    assert_eq!(drawing.surface, expected);
    assert_eq!(drawing.done, 3);
    assert_eq!(drawing.commands[2], label(3, 4, "first"));

    assert_eq!(drawing.next_text(), Some(4));
    expected.pixels = painted(&expected, 4, 0, 6, 8, GREY);
    assert_eq!(drawing.surface, expected);
    assert_eq!(drawing.done, 5);

    assert_eq!(drawing.next_text(), Some(5));
    assert_eq!(drawing.surface, expected);
    assert_eq!(drawing.done, 6);

    assert_eq!(drawing.next_text(), None);
    expected.pixels = painted(&expected, 0, 7, 16, 8, TEAL);
    assert_eq!(drawing.surface, expected);
    assert_eq!(drawing.done, 8);

    // At the end there is nothing left to do.
    assert_eq!(drawing.next_text(), None);
    assert_eq!(drawing.surface, expected);
    assert_eq!(drawing.done, 8);
    assert_eq!(drawing.commands, commands);
}

#[test]
fn drawing_without_text_is_painted_in_one_go() {
    let commands = vec![
        DrawCommand::Fill { color: GREY },
        DrawCommand::Rectangle { left: -5, top: -5, right: i32::MAX, bottom: 1, color: RED },
        DrawCommand::Present,
    ];
    let mut drawing = Drawing { surface: Surface::new(9, 2).unwrap(), commands, done: 0 };
    assert_eq!(run(&mut drawing), Vec::<usize>::new());
    assert_eq!(pixel(&drawing.surface, 8, 0), RED);
    assert_eq!(pixel(&drawing.surface, 8, 1), GREY);
    assert_eq!(drawing.done, 3);
}

#[test]
fn drawing_goes_on_from_where_it_stands() {
    let commands = vec![
        DrawCommand::Fill { color: RED },
        label(0, 0, "skipped"),
        DrawCommand::Rectangle { left: 0, top: 0, right: 1, bottom: 1, color: TEAL },
    ];
    let mut drawing = Drawing { surface: Surface::new(3, 3).unwrap(), commands, done: 2 };
    assert_eq!(drawing.next_text(), None);
    assert_eq!(pixel(&drawing.surface, 0, 0), TEAL);
    // The fill lay before the starting point.
    assert_eq!(pixel(&drawing.surface, 2, 2), Rgb { r: 0, g: 0, b: 0 });
}

#[test]
fn no_commands_change_nothing() {
    let mut drawing =
        Drawing { surface: Surface::new(4, 4).unwrap(), commands: Vec::new(), done: 0 };
    assert_eq!(drawing.next_text(), None);
    assert_eq!(drawing.surface.pixels, vec![0u8; 48]);
    assert_eq!(drawing.done, 0);
}

#[test]
fn image_begins_black_with_its_commands() {
    let regions = read_memory_regions(&vec!["0-1000 r--p".to_string()]);
    let drawing = create_memory_map_image(&regions, &vec![7], 30, 20).unwrap();
    assert!(drawing.is_well_formed());
    assert_eq!(drawing.done, 0);
    assert_eq!((drawing.surface.width, drawing.surface.height), (30, 20));
    assert_eq!(drawing.surface.pixels, vec![0u8; 1800]);
    assert_eq!(drawing.commands, plan_memory_map_image(&regions, &vec![7], 30, 20).unwrap());
}

#[test]
fn image_of_two_mappings() {
    let lines = vec![
        "00400000-00401000 r-xp 00000000 08:01 123  /bin/example".to_string(),
        "00600000-00601000 rw-p 00000000 08:01 123  /bin/example".to_string(),
    ];
    let regions = insert_gap_memory_regions(&read_memory_regions(&lines));
    let heights: Vec<u32> = vec![775, 125, 675, 125];
    let mut drawing = create_memory_map_image(&regions, &heights, 300, 2000).unwrap();
    let texts = run(&mut drawing);
    // Four labels and the four names of the legend, in the order of the drawing.
    assert_eq!(texts, vec![2, 4, 6, 8, 10, 12, 14, 16]);
    assert_eq!(drawing.commands[2], label(25, 0, "0x0 (0x400000)"));
    assert_eq!(drawing.commands[4], label(25, 775, "0x400000 (0x1000)"));
    assert_eq!(drawing.commands[6], label(25, 900, "0x401000 (0x1ff000)"));
    assert_eq!(drawing.commands[8], label(25, 1575, "0x600000 (0x1000)"));
    assert_eq!(drawing.commands[10], label(20, 1918, "Free"));
    assert_eq!(drawing.commands[16], label(20, 1978, "NVS"));
    assert_eq!(drawing.done, drawing.commands.len());

    // With no text written, the pixels are the painting alone.
    let mut expected = Surface::new(300, 2000).unwrap();
    expected.pixels = vec![255u8; 300 * 2000 * 3];
    expected.pixels = painted(&expected, 150, 0, 300, 775, Rgb { r: 0, g: 0, b: 0 });
    expected.pixels = painted(&expected, 150, 775, 300, 900, Rgb { r: 255, g: 0, b: 255 });
    expected.pixels = painted(&expected, 150, 900, 300, 1575, Rgb { r: 0, g: 0, b: 0 });
    expected.pixels = painted(&expected, 150, 1575, 300, 1700, Rgb { r: 255, g: 255, b: 0 });
    expected.pixels = painted(&expected, 5, 1920, 15, 1930, Rgb { r: 0, g: 255, b: 0 });
    expected.pixels = painted(&expected, 5, 1940, 15, 1950, Rgb { r: 255, g: 0, b: 0 });
    expected.pixels = painted(&expected, 5, 1960, 15, 1970, Rgb { r: 255, g: 255, b: 0 });
    expected.pixels = painted(&expected, 5, 1980, 15, 1990, Rgb { r: 0, g: 0, b: 255 });
    assert_eq!(drawing.surface, expected);
    assert_eq!(pixel(&drawing.surface, 299, 775), Rgb { r: 255, g: 0, b: 255 });
    assert_eq!(pixel(&drawing.surface, 149, 800), WHITE);
}

#[test]
fn image_without_regions_is_background_and_legend() {
    let mut drawing = create_memory_map_image(&Vec::new(), &Vec::new(), 40, 100).unwrap();
    assert_eq!(run(&mut drawing), vec![2, 4, 6, 8]);
    assert_eq!(pixel(&drawing.surface, 39, 0), WHITE);
    assert_eq!(pixel(&drawing.surface, 5, 20), Rgb { r: 0, g: 255, b: 0 });
    assert_eq!(pixel(&drawing.surface, 14, 89), Rgb { r: 0, g: 0, b: 255 });
}

#[test]
fn legend_of_a_low_image_is_brought_onto_it() {
    // The legend starts above the image; what lies outside is not painted.
    // At height 55 the swatches span the rows -25 to -15, -5 to 5, 15 to 25
    // and 35 to 45.
    let mut drawing = create_memory_map_image(&Vec::new(), &Vec::new(), 20, 55).unwrap();
    run(&mut drawing);
    assert_eq!(pixel(&drawing.surface, 5, 0), Rgb { r: 255, g: 0, b: 0 });
    assert_eq!(pixel(&drawing.surface, 14, 4), Rgb { r: 255, g: 0, b: 0 });
    assert_eq!(pixel(&drawing.surface, 5, 5), WHITE);
    assert_eq!(pixel(&drawing.surface, 5, 15), Rgb { r: 255, g: 255, b: 0 });
    assert_eq!(pixel(&drawing.surface, 5, 35), Rgb { r: 0, g: 0, b: 255 });
    assert_eq!(pixel(&drawing.surface, 5, 54), WHITE);
}

#[test]
fn image_needs_one_height_for_each_region() {
    let regions = read_memory_regions(&vec!["0-1000 r--p".to_string()]);
    assert_eq!(
        create_memory_map_image(&regions, &vec![1, 2], 30, 20),
        Err(RenderError::HeightCountMismatch)
    );
}

#[test]
fn image_that_is_too_large_is_refused() {
    let regions = read_memory_regions(&vec!["0-1000 r--p".to_string()]);
    assert_eq!(
        create_memory_map_image(&regions, &vec![1], 65536, 32768),
        Err(RenderError::CoordinateOverflow)
    );
    assert_eq!(
        create_memory_map_image(&regions, &vec![1], 30, u32::MAX),
        Err(RenderError::CoordinateOverflow)
    );
    assert_eq!(
        create_memory_map_image(&regions, &vec![u32::MAX], 30, 20),
        Err(RenderError::CoordinateOverflow)
    );
    // A long, low image is no longer refused for the sake of its text.
    let drawing = create_memory_map_image(&regions, &vec![1], 20_000_000, 1).unwrap();
    assert_eq!(drawing.surface.pixels.len(), 60_000_000);
}
