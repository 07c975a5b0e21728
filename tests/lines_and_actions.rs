use paint_compiler::actuate::{
    capture_size, check_cursor, color_code, lower, lower_all, screen_from_corners, Action, Desync, Key,
    KeyRelease, Screen,
};
use paint_compiler::color::Color;
use paint_compiler::lines::{compile_lines, Segment};
use paint_compiler::quantize::Cell;
use paint_compiler::sequence::{Instruction, Tool};

fn cell(x: u32, y: u32) -> Cell {
    Cell { x, y }
}

fn seg(x0: u32, y0: u32, x1: u32, y1: u32) -> Segment {
    Segment { x0, y0, x1, y1 }
}

#[test]
fn runs_are_built_from_the_last_cell() {
    let cells = vec![cell(0, 0), cell(1, 0), cell(2, 0), cell(5, 0), cell(1, 1)];
    let lines = compile_lines(&cells);
    assert_eq!(lines, vec![seg(1, 1, 1, 1), seg(5, 0, 5, 0), seg(2, 0, 0, 0)]);
    assert!(compile_lines(&vec![]).is_empty());
}

#[test]
fn runs_cover_exactly_the_batch() {
    let cells = vec![cell(3, 0), cell(4, 0), cell(9, 0), cell(0, 1), cell(1, 1), cell(2, 1), cell(7, 2)];
    let lines = compile_lines(&cells);
    let mut covered = Vec::new();
    for l in &lines {
        assert_eq!(l.y0, l.y1);
        for x in l.x1..=l.x0 {
            covered.push(cell(x, l.y0));
        }
    }
    covered.sort_by_key(|c| (c.y, c.x));
    let mut expected = cells.clone();
    expected.sort_by_key(|c| (c.y, c.x));
    assert_eq!(covered, expected);
    assert_eq!(lines.len(), 4);
}

#[test]
fn forward_order_is_not_merged() {
    // Cells listed right to left are visited left to right: no run forms.
    let cells = vec![cell(2, 0), cell(1, 0)];
    assert_eq!(compile_lines(&cells), vec![seg(1, 0, 1, 0), seg(2, 0, 2, 0)]);
}

fn screen() -> Screen {
    Screen { left: 100, top: 50, palette_x: 700, palette_y: 60, width: 10, height: 8 }
}

#[test]
fn calibration_uses_ceiling_division() {
    let s = screen_from_corners((150, 90), (100, 50), (700, 60));
    assert_eq!(s, Screen { left: 100, top: 50, palette_x: 700, palette_y: 60, width: 10, height: 8 });
    let t = screen_from_corners((0, 0), (7, 3), (1, 2));
    assert_eq!((t.width, t.height), (2, 1));
    assert_eq!(capture_size(&s), (49, 39));
}

#[test]
fn strokes_focus_the_canvas_first() {
    let s = screen();
    let (acts, focused) = lower(Instruction::DrawLine(seg(3, 2, 1, 2)), &s, false);
    assert!(focused);
    assert_eq!(
        acts,
        vec![Action::Click { x: 115, y: 60 }, Action::Drag { x0: 115, y0: 60, x1: 105, y1: 60 }]
    );
    let (acts, _) = lower(Instruction::DrawLine(seg(3, 2, 1, 2)), &s, true);
    assert_eq!(acts, vec![Action::Drag { x0: 115, y0: 60, x1: 105, y1: 60 }]);
}

#[test]
fn palette_cells_are_in_two_rows() {
    let s = screen();
    let (acts, focused) = lower(Instruction::SelectPresetColor(13), &s, true);
    assert!(!focused);
    assert_eq!(acts, vec![Action::Click { x: 772, y: 84 }]);
    let (acts, _) = lower(Instruction::SelectCustomColor(4), &s, true);
    assert_eq!(acts, vec![Action::Click { x: 796, y: 108 }]);
}

#[test]
fn background_rectangle_and_colour_editor() {
    let s = screen();
    let (acts, _) = lower(Instruction::FillRect(seg(0, 0, 9, 7)), &s, false);
    assert_eq!(
        acts,
        vec![Action::Drag { x0: 102, y0: 52, x1: 145, y1: 85 }, Action::Click { x: 102, y: 32 }]
    );
    let c = Color { r: 1, g: 2, b: 3 };
    let (acts, focused) = lower(Instruction::SelectPreciseColor(c), &s, true);
    assert!(!focused);
    assert_eq!(acts.len(), 19);
    assert_eq!(acts[0], Action::Tap(Key::Alt));
    assert_eq!(acts[7], Action::Chord(Key::Control, Key::A));
    assert_eq!(acts[8], Action::TypeColorCode(c));
    let (acts, _) = lower(Instruction::SelectPreciseSecondary(c), &s, true);
    assert_eq!(acts.len(), 23);
    assert_eq!(acts[1], Action::Tap(Key::Num2));
    assert_eq!(acts[22], Action::Tap(Key::Num1));
    let (acts, _) = lower(Instruction::SelectTool(Tool::Rectangle), &s, false);
    assert_eq!(acts.len(), 43);
    assert_eq!(acts[42], Action::Click { x: 100, y: 50 });
}

#[test]
fn stream_lowering_threads_focus() {
    let s = screen();
    let stream = vec![
        Instruction::DrawLine(seg(0, 0, 0, 0)),
        Instruction::DrawLine(seg(1, 0, 1, 0)),
        Instruction::SelectPresetColor(0),
        Instruction::DrawLine(seg(2, 0, 2, 0)),
    ];
    let acts = lower_all(&stream, &s);
    assert_eq!(
        acts,
        vec![
            Action::Click { x: 100, y: 50 },
            Action::Drag { x0: 100, y0: 50, x1: 100, y1: 50 },
            Action::Drag { x0: 105, y0: 50, x1: 105, y1: 50 },
            Action::Click { x: 700, y: 60 },
            Action::Click { x: 110, y: 50 },
            Action::Drag { x0: 110, y0: 50, x1: 110, y1: 50 },
        ]
    );
}

#[test]
fn colour_codes_are_upper_case_hex() {
    assert_eq!(color_code(Color { r: 255, g: 10, b: 0 }), b"#FF0A00".to_vec());
}

#[test]
fn key_release_needs_a_press_first() {
    let mut w = KeyRelease::new();
    assert!(!w.poll(false));
    assert!(!w.poll(true));
    assert!(!w.poll(true));
    assert!(w.poll(false));
}

#[test]
fn cursor_check() {
    assert_eq!(check_cursor((5, 6), (5, 6)), Ok(()));
    assert_eq!(
        check_cursor((5, 6), (5, 7)),
        Err(Desync { expected_x: 5, expected_y: 6, actual_x: 5, actual_y: 7 })
    );
}
