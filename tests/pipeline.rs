use paint_compiler::color::{is_within, Color, Tolerance};
use paint_compiler::palette::preset;
use paint_compiler::frame::{compile_animation, compile_frame, compile_image, grid_pixels, RgbaImage};
use paint_compiler::lines::Segment;
use paint_compiler::quantize::{background_color, foreground_pixels, quantize, Cell};
use paint_compiler::sequence::{Instruction, Tool};

fn image(width: u32, height: u32, colors: &[(u8, u8, u8)]) -> RgbaImage {
    assert_eq!(colors.len(), (width * height) as usize);
    let mut data = Vec::new();
    for &(r, g, b) in colors {
        data.extend_from_slice(&[r, g, b, 255]);
    }
    RgbaImage { width, height, data }
}

fn rgb(r: u8, g: u8, b: u8) -> Color {
    Color { r, g, b }
}

fn seg(x0: u32, y0: u32, x1: u32, y1: u32) -> Segment {
    Segment { x0, y0, x1, y1 }
}

fn setup(bg: Color, width: u32, height: u32) -> Vec<Instruction> {
    vec![
        Instruction::ClearCanvas,
        Instruction::SelectTool(Tool::Rectangle),
        Instruction::SetBrushMax,
        Instruction::SelectPreciseColor(bg),
        Instruction::SelectPreciseSecondary(bg),
        Instruction::FillRect(seg(0, 0, width - 1, height - 1)),
    ]
}

fn brush() -> Vec<Instruction> {
    vec![Instruction::SelectTool(Tool::Brush), Instruction::SetBrushMax]
}

// A tolerance of 5 admits channel-difference sums up to 25.
const TOL5: Tolerance = Tolerance { max_diff: 25 };
const TOL0: Tolerance = Tolerance { max_diff: 0 };

#[test]
fn uniform_black_grid_is_background_only() {
    let img = image(2, 2, &[(0, 0, 0); 4]);
    let out = compile_image(&img, TOL5, 0);
    let mut expected = setup(rgb(0, 0, 0), 2, 2);
    expected.extend(brush());
    assert_eq!(out, expected);
}

#[test]
fn red_red_blue_row() {
    let img = image(3, 1, &[(255, 0, 0), (255, 0, 0), (0, 0, 255)]);
    let pixels = grid_pixels(&img);
    let bg = background_color(&pixels, TOL0);
    assert_eq!(bg, rgb(255, 0, 0));
    let fg = foreground_pixels(&pixels, bg, TOL0);
    assert_eq!(fg.len(), 1);
    assert_eq!(fg[0].cell, Cell { x: 2, y: 0 });
    let out = compile_image(&img, TOL0, 0);
    let mut expected = setup(rgb(255, 0, 0), 3, 1);
    expected.extend(brush());
    // Preset 7, (0, 162, 232), is the nearest to pure blue.
    expected.push(Instruction::SelectPresetColor(7));
    expected.push(Instruction::DrawLine(seg(2, 0, 2, 0)));
    assert_eq!(out, expected);
}

#[test]
fn single_custom_colour_is_the_mean() {
    // 60 white pixels, then 50 distinct colours that match no preset.
    let mut colors = vec![(255, 255, 255); 60];
    for i in 0..50u8 {
        colors.push((10 + 2 * i, 100, 50));
    }
    let img = image(110, 1, &colors);
    let q = quantize(&grid_pixels(&img), TOL0, 1);
    assert_eq!(q.background, rgb(255, 255, 255));
    assert_eq!(q.custom_batches.len(), 1);
    assert_eq!(q.custom_batches[0].color, rgb(59, 100, 50));
    assert_eq!(q.custom_batches[0].cells.len(), 50);
    assert!(q.preset_batches.iter().all(|b| b.is_empty()));
}

#[test]
fn identical_frames_compile_identically() {
    let frame = image(2, 2, &[(255, 0, 0), (0, 0, 255), (255, 0, 0), (255, 0, 0)]);
    let again = image(2, 2, &[(255, 0, 0), (0, 0, 255), (255, 0, 0), (255, 0, 0)]);
    let streams = compile_animation(&vec![frame, again], 2, 2, TOL5, 3);
    assert_eq!(streams.len(), 2);
    assert_eq!(streams[0], streams[1]);
    assert!(streams[0].len() > 8);
}

#[test]
fn compiling_twice_gives_the_same_stream() {
    let img = image(3, 2, &[(1, 2, 3), (200, 10, 10), (1, 2, 3), (1, 2, 3), (9, 9, 200), (200, 10, 10)]);
    assert_eq!(compile_image(&img, TOL5, 4), compile_image(&img, TOL5, 4));
}

#[test]
fn frame_is_resampled_onto_the_grid() {
    let frame = image(1, 1, &[(255, 0, 0)]);
    let out = compile_frame(&frame, 3, 2, TOL5, 0);
    let mut expected = setup(rgb(255, 0, 0), 3, 2);
    expected.extend(brush());
    assert_eq!(out, expected);
}

#[test]
fn transparent_pixels_are_not_painted() {
    let mut img = image(2, 1, &[(0, 0, 0), (0, 0, 0)]);
    img.data[3] = 0;
    let pixels = grid_pixels(&img);
    assert_eq!(pixels[0].color, None);
    assert_eq!(pixels[1].color, Some(rgb(0, 0, 0)));
    let out = compile_image(&img, TOL0, 0);
    let mut expected = setup(rgb(0, 0, 0), 2, 1);
    expected.extend(brush());
    assert_eq!(out, expected);
}

#[test]
fn fully_transparent_frame_has_white_background() {
    let img = RgbaImage { width: 2, height: 1, data: vec![0; 8] };
    let out = compile_image(&img, TOL0, 0);
    let mut expected = setup(rgb(255, 255, 255), 2, 1);
    expected.extend(brush());
    assert_eq!(out, expected);
}

#[test]
fn batches_partition_the_foreground() {
    let colors = [
        (255, 255, 255), (0, 0, 0), (5, 5, 5), (255, 255, 255),
        (120, 30, 200), (121, 30, 200), (255, 255, 255), (60, 220, 10),
        (255, 255, 255), (255, 255, 255), (237, 28, 36), (255, 255, 255),
    ];
    let img = image(4, 3, &colors);
    let pixels = grid_pixels(&img);
    let q = quantize(&pixels, TOL5, 3);
    let fg = foreground_pixels(&pixels, q.background, TOL5);
    let mut seen: Vec<Cell> = Vec::new();
    for b in &q.preset_batches {
        seen.extend(b.iter().copied());
    }
    for b in &q.custom_batches {
        seen.extend(b.cells.iter().copied());
    }
    assert_eq!(seen.len(), fg.len());
    for p in &fg {
        assert_eq!(seen.iter().filter(|c| **c == p.cell).count(), 1);
    }
    // Every pixel of a tolerance-formed batch is within tolerance of its colour.
    let color_at = |c: &Cell| fg.iter().find(|p| p.cell == *c).unwrap().color.unwrap();
    for (k, b) in q.preset_batches.iter().enumerate() {
        for c in b {
            assert!(is_within(color_at(c), preset(k), TOL5));
        }
    }
    for c in &q.custom_batches[0].cells {
        assert!(is_within(color_at(c), q.custom_batches[0].color, TOL5));
    }
    // Black and (5, 5, 5) join preset 0; the red joins preset 3.
    assert_eq!(q.preset_batches[0], vec![Cell { x: 1, y: 0 }, Cell { x: 2, y: 0 }]);
    assert_eq!(q.preset_batches[3], vec![Cell { x: 2, y: 2 }]);
    // The two purples form the first custom colour, the green the second.
    assert_eq!(q.custom_batches.len(), 2);
    assert_eq!(q.custom_batches[0].color, rgb(120, 30, 200));
    assert_eq!(q.custom_batches[0].cells, vec![Cell { x: 0, y: 1 }, Cell { x: 1, y: 1 }]);
    assert_eq!(q.custom_batches[1].color, rgb(60, 220, 10));
}

#[test]
fn custom_colours_register_and_pad_with_presets() {
    let colors = [
        (120, 30, 200), (60, 220, 10), (255, 255, 255),
        (255, 255, 255), (255, 255, 255), (255, 255, 255),
    ];
    let img = image(3, 2, &colors);
    let out = compile_image(&img, TOL0, 5);
    let mut expected = setup(rgb(255, 255, 255), 3, 2);
    expected.push(Instruction::RegisterCustomColor(rgb(120, 30, 200)));
    expected.push(Instruction::RegisterCustomColor(rgb(60, 220, 10)));
    let presets = [
        (0, 0, 0), (127, 127, 127), (136, 0, 21), (237, 28, 36),
        (255, 127, 39), (255, 242, 0), (34, 177, 76), (0, 162, 232),
    ];
    for (r, g, b) in presets {
        expected.push(Instruction::RegisterCustomColor(rgb(r, g, b)));
    }
    expected.extend(brush());
    expected.push(Instruction::SelectCustomColor(0));
    expected.push(Instruction::DrawLine(seg(0, 0, 0, 0)));
    expected.push(Instruction::SelectCustomColor(1));
    expected.push(Instruction::DrawLine(seg(1, 0, 1, 0)));
    assert_eq!(out, expected);
}

#[test]
fn colours_beyond_ten_slots_are_precise_and_not_reselected() {
    let mut colors: Vec<(u8, u8, u8)> = (0..10u8).map(|j| (10 * j + 1, 2, 3)).collect();
    colors.push((100, 100, 100));
    colors.push((90, 100, 100));
    colors.push((110, 100, 100));
    colors.extend(vec![(255, 255, 255); 26]);
    let img = image(13, 3, &colors);
    let out = compile_image(&img, TOL0, 12);
    let mut expected = setup(rgb(255, 255, 255), 13, 3);
    for j in 0..10u8 {
        expected.push(Instruction::RegisterCustomColor(rgb(10 * j + 1, 2, 3)));
    }
    expected.extend(brush());
    for j in 0..10u32 {
        expected.push(Instruction::SelectCustomColor(j));
        expected.push(Instruction::DrawLine(seg(j, 0, j, 0)));
    }
    expected.push(Instruction::SelectPreciseColor(rgb(100, 100, 100)));
    expected.push(Instruction::DrawLine(seg(10, 0, 10, 0)));
    // The overflow bucket averages to the same colour: no second selection.
    expected.push(Instruction::DrawLine(seg(12, 0, 11, 0)));
    assert_eq!(out, expected);
}

#[test]
fn without_limit_every_pixel_takes_its_nearest_preset() {
    let img = image(2, 2, &[(255, 255, 255), (255, 255, 255), (255, 255, 255), (120, 30, 200)]);
    let q = quantize(&grid_pixels(&img), TOL0, 0);
    assert!(q.custom_batches.is_empty());
    // (63, 72, 204) is the nearest preset to (120, 30, 200).
    assert_eq!(q.preset_batches[8], vec![Cell { x: 1, y: 1 }]);
}
