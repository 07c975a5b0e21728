use vstd::prelude::*;

use crate::color::Color;
use crate::sequence::{Instruction, Tool};

verus! {

/// Screen pixels per grid cell.
pub const CELL_WIDTH: u32 = 5;

/// Screen pixels between neighbouring palette cells.
pub const PALETTE_SPACING: i64 = 24;

/// Palette cells per row.
pub const PALETTE_COLUMNS: u32 = 10;

/// Milliseconds to wait after clicks and drags, after dialogs, and before a
/// capture.
pub const SHORT_PAUSE_MS: u32 = 5;

pub const MEDIUM_PAUSE_MS: u32 = 20;

pub const LONG_PAUSE_MS: u32 = 200;

/// Keys the actuator presses.
#[derive(Clone, Copy, Debug, PartialEq, Eq, Structural)]
pub enum Key {
    Alt,
    Control,
    A,
    B,
    C,
    E,
    S,
    Z,
    Num1,
    Num2,
    Tab,
    Return,
    Delete,
    UpArrow,
    DownArrow,
    LeftArrow,
    RightArrow,
}

/// One input event for the actuator, in screen pixels.
#[derive(Clone, Copy, Debug, PartialEq, Eq, Structural)]
pub enum Action {
    /// Move to the point, left-click, settle, and confirm the cursor is there.
    Click { x: i64, y: i64 },
    /// Press at the first point, move to the second and release; settle and
    /// confirm the cursor is at the second.
    Drag { x0: i64, y0: i64, x1: i64, y1: i64 },
    /// Press and release one key.
    Tap(Key),
    /// Hold both keys, then release both.
    Chord(Key, Key),
    /// Type the colour's `#RRGGBB` code.
    TypeColorCode(Color),
    /// Wait this many milliseconds.
    Pause(u32),
}

/// Where the canvas and the palette are on screen, and the grid's size.
#[derive(Clone, Copy, Debug, PartialEq, Eq, Structural)]
pub struct Screen {
    pub left: i32,
    pub top: i32,
    pub palette_x: i32,
    pub palette_y: i32,
    pub width: u32,
    pub height: u32,
}

pub open spec fn ceil_div(n: nat, d: nat) -> nat {
    ((n + d - 1) / d as int) as nat
}

pub open spec fn span(a: i32, b: i32) -> nat {
    if a <= b {
        (b - a) as nat
    } else {
        (a - b) as nat
    }
}

pub open spec fn min_i32(a: i32, b: i32) -> i32 {
    if a <= b {
        a
    } else {
        b
    }
}

/// The canvas spanned by two opposite corners, whatever their order, with as
/// many cells along each axis as cover it (ceiling division).
pub open spec fn screen_model(first: (i32, i32), second: (i32, i32), palette: (i32, i32)) -> Screen {
    Screen {
        left: min_i32(first.0, second.0),
        top: min_i32(first.1, second.1),
        palette_x: palette.0,
        palette_y: palette.1,
        width: ceil_div(span(first.0, second.0), CELL_WIDTH as nat) as u32,
        height: ceil_div(span(first.1, second.1), CELL_WIDTH as nat) as u32,
    }
}

fn cells_spanned(a: i32, b: i32) -> (r: u32)
    ensures
        r == ceil_div(span(a, b), CELL_WIDTH as nat),
{
    let d: u64 = if a <= b {
        (b as i64 - a as i64) as u64
    } else {
        (a as i64 - b as i64) as u64
    };
    ((d + 4) / 5) as u32
}

/// Calibrates from the canvas's two opposite corners and the first palette
/// cell, as pointed at on screen.
pub fn screen_from_corners(first: (i32, i32), second: (i32, i32), palette: (i32, i32)) -> (r: Screen)
    ensures
        r == screen_model(first, second, palette),
{
    let left = if first.0 <= second.0 {
        first.0
    } else {
        second.0
    };
    let top = if first.1 <= second.1 {
        first.1
    } else {
        second.1
    };
    Screen {
        left,
        top,
        palette_x: palette.0,
        palette_y: palette.1,
        width: cells_spanned(first.0, second.0),
        height: cells_spanned(first.1, second.1),
    }
}

/// The size of the screen capture kept as the painted result.
pub fn capture_size(s: &Screen) -> (r: (u64, u64))
    requires
        s.width >= 1,
        s.height >= 1,
    ensures
        r.0 == s.width * CELL_WIDTH - 1,
        r.1 == s.height * CELL_WIDTH - 1,
{
    (s.width as u64 * 5 - 1, s.height as u64 * 5 - 1)
}

pub open spec fn taps(k: Key, n: nat) -> Seq<Action> {
    Seq::new(n, |i: int| Action::Tap(k))
}

/// The menu accelerator: Alt, then each key.
pub open spec fn alt_sequence(keys: Seq<Key>) -> Seq<Action> {
    seq![Action::Tap(Key::Alt)] + keys.map_values(|k: Key| Action::Tap(k))
}

pub open spec fn click_at(x: int, y: int) -> Action {
    Action::Click { x: x as i64, y: y as i64 }
}

/// Opens the colour editor, types the code and confirms; the colour becomes
/// primary and fills the next custom slot.
pub open spec fn create_color_actions(c: Color) -> Seq<Action> {
    alt_sequence(seq![Key::E, Key::C]) + taps(Key::Tab, 4) + seq![
        Action::Chord(Key::Control, Key::A),
        Action::TypeColorCode(c),
    ] + taps(Key::Tab, 8) + seq![Action::Tap(Key::Return), Action::Pause(MEDIUM_PAUSE_MS)]
}

pub open spec fn brush_max_actions() -> Seq<Action> {
    alt_sequence(seq![Key::S, Key::Z]) + seq![
        Action::Pause(MEDIUM_PAUSE_MS),
        Action::Tap(Key::UpArrow),
        Action::Tap(Key::Return),
    ]
}

/// Walks the ribbon to the filled rectangle shape, then focuses the canvas.
pub open spec fn rectangle_tool_actions(s: Screen) -> Seq<Action> {
    taps(Key::Tab, 22) + taps(Key::LeftArrow, 7) + taps(Key::UpArrow, 2) + taps(Key::RightArrow, 3)
        + seq![Action::Tap(Key::Return), Action::Pause(MEDIUM_PAUSE_MS)] + taps(Key::Tab, 2) + seq![
        Action::Tap(Key::Return),
        Action::Pause(MEDIUM_PAUSE_MS),
        Action::Tap(Key::DownArrow),
        Action::Tap(Key::Return),
        click_at(s.left as int, s.top as int),
    ]
}

pub open spec fn screen_x(s: Screen, gx: u32) -> int {
    s.left + CELL_WIDTH * gx
}

pub open spec fn screen_y(s: Screen, gy: u32) -> int {
    s.top + CELL_WIDTH * gy
}

/// Palette cell `index` (presets 0..=19, then custom slots) on screen.
pub open spec fn palette_cell(s: Screen, index: nat) -> Action {
    click_at(
        s.palette_x + PALETTE_SPACING * (index % PALETTE_COLUMNS as nat),
        s.palette_y + PALETTE_SPACING * (index / PALETTE_COLUMNS as nat),
    )
}

/// The actions for one instruction, given whether the canvas already has
/// focus, and whether it has focus afterwards. A stroke first clicks the
/// canvas when it lacks focus; choosing a colour takes the focus away.
pub open spec fn lower_model(i: Instruction, s: Screen, focused: bool) -> (Seq<Action>, bool) {
    match i {
        Instruction::ClearCanvas => (
            seq![
                click_at(s.left as int, s.top as int),
                Action::Chord(Key::Control, Key::A),
                Action::Tap(Key::Delete),
            ],
            focused,
        ),
        Instruction::SelectTool(Tool::Rectangle) => (rectangle_tool_actions(s), focused),
        Instruction::SelectTool(Tool::Brush) => (alt_sequence(seq![Key::B]), focused),
        Instruction::SetBrushMax => (brush_max_actions(), focused),
        Instruction::SelectPreciseColor(c) => (create_color_actions(c), false),
        Instruction::SelectPreciseSecondary(c) => (
            alt_sequence(seq![Key::Num2]) + create_color_actions(c) + alt_sequence(seq![Key::Num1]),
            false,
        ),
        Instruction::RegisterCustomColor(c) => (create_color_actions(c), false),
        Instruction::FillRect(r) => (
            seq![
                Action::Drag {
                    x0: (screen_x(s, r.x0) + 2) as i64,
                    y0: (screen_y(s, r.y0) + 2) as i64,
                    x1: screen_x(s, r.x1) as i64,
                    y1: screen_y(s, r.y1) as i64,
                },
                click_at(screen_x(s, r.x0) + 2, screen_y(s, r.y0) + 2 - 20),
            ],
            focused,
        ),
        Instruction::SelectPresetColor(k) => (seq![palette_cell(s, k as nat)], false),
        Instruction::SelectCustomColor(k) => (seq![palette_cell(s, 20 + k as nat)], false),
        Instruction::DrawLine(l) => (
            (if focused {
                Seq::empty()
            } else {
                seq![click_at(screen_x(s, l.x0), screen_y(s, l.y0))]
            }) + seq![
                Action::Drag {
                    x0: screen_x(s, l.x0) as i64,
                    y0: screen_y(s, l.y0) as i64,
                    x1: screen_x(s, l.x1) as i64,
                    y1: screen_y(s, l.y1) as i64,
                },
            ],
            true,
        ),
    }
}

/// The actions for a whole instruction stream, threading the canvas focus.
pub open spec fn lower_all_model(instrs: Seq<Instruction>, s: Screen) -> (Seq<Action>, bool)
    decreases instrs.len(),
{
    if instrs.len() == 0 {
        (Seq::empty(), false)
    } else {
        let prev = lower_all_model(instrs.drop_last(), s);
        let step = lower_model(instrs.last(), s, prev.1);
        (prev.0 + step.0, step.1)
    }
}

fn push_taps(out: &mut Vec<Action>, k: Key, n: usize)
    ensures
        final(out)@ == old(out)@ + taps(k, n as nat),
{
    let ghost start = out@;
    let mut i: usize = 0;
    while i < n
        invariant
            i <= n,
            out@ == start + taps(k, i as nat),
        decreases n - i,
    {
        out.push(Action::Tap(k));
        proof {
            assert(start + taps(k, (i + 1) as nat) =~= (start + taps(k, i as nat)).push(Action::Tap(k)));
        }
        i = i + 1;
    }
}

fn push_alt(out: &mut Vec<Action>, first: Key, second: Option<Key>)
    ensures
        final(out)@ == old(out)@ + alt_sequence(
            match second {
                Some(k) => seq![first, k],
                None => seq![first],
            },
        ),
{
    let ghost start = out@;
    out.push(Action::Tap(Key::Alt));
    out.push(Action::Tap(first));
    match second {
        Some(k) => {
            out.push(Action::Tap(k));
            proof {
                assert(out@ =~= start + alt_sequence(seq![first, k]));
            }
        },
        None => {
            proof {
                assert(out@ =~= start + alt_sequence(seq![first]));
            }
        },
    }
}

fn push_create_color(out: &mut Vec<Action>, c: Color)
    ensures
        final(out)@ == old(out)@ + create_color_actions(c),
{
    let ghost start = out@;
    push_alt(out, Key::E, Some(Key::C));
    push_taps(out, Key::Tab, 4);
    out.push(Action::Chord(Key::Control, Key::A));
    out.push(Action::TypeColorCode(c));
    push_taps(out, Key::Tab, 8);
    out.push(Action::Tap(Key::Return));
    out.push(Action::Pause(MEDIUM_PAUSE_MS));
    proof {
        assert(out@ =~= start + create_color_actions(c));
    }
}

proof fn lemma_screen_point(s: Screen, g: u32)
    ensures
        i64::MIN <= screen_x(s, g) - 20 && screen_x(s, g) + 2 <= i64::MAX,
        i64::MIN <= screen_y(s, g) - 20 && screen_y(s, g) + 2 <= i64::MAX,
{
}

/// Lowers one instruction to actions, given whether the canvas has focus;
/// returns the actions and whether the canvas has focus afterwards.
pub fn lower(i: Instruction, s: &Screen, focused: bool) -> (r: (Vec<Action>, bool))
    ensures
        (r.0@, r.1) == lower_model(i, *s, focused),
{
    let mut out: Vec<Action> = Vec::new();
    let left = s.left as i64;
    let top = s.top as i64;
    match i {
        Instruction::ClearCanvas => {
            out.push(Action::Click { x: left, y: top });
            out.push(Action::Chord(Key::Control, Key::A));
            out.push(Action::Tap(Key::Delete));
            proof {
                assert(out@ =~= lower_model(i, *s, focused).0);
            }
            (out, focused)
        },
        Instruction::SelectTool(Tool::Rectangle) => {
            push_taps(&mut out, Key::Tab, 22);
            push_taps(&mut out, Key::LeftArrow, 7);
            push_taps(&mut out, Key::UpArrow, 2);
            push_taps(&mut out, Key::RightArrow, 3);
            out.push(Action::Tap(Key::Return));
            out.push(Action::Pause(MEDIUM_PAUSE_MS));
            push_taps(&mut out, Key::Tab, 2);
            out.push(Action::Tap(Key::Return));
            out.push(Action::Pause(MEDIUM_PAUSE_MS));
            out.push(Action::Tap(Key::DownArrow));
            out.push(Action::Tap(Key::Return));
            out.push(Action::Click { x: left, y: top });
            proof {
                assert(out@ =~= rectangle_tool_actions(*s));
            }
            (out, focused)
        },
        Instruction::SelectTool(Tool::Brush) => {
            push_alt(&mut out, Key::B, None);
            proof {
                assert(out@ =~= alt_sequence(seq![Key::B]));
            }
            (out, focused)
        },
        Instruction::SetBrushMax => {
            push_alt(&mut out, Key::S, Some(Key::Z));
            out.push(Action::Pause(MEDIUM_PAUSE_MS));
            out.push(Action::Tap(Key::UpArrow));
            out.push(Action::Tap(Key::Return));
            proof {
                assert(out@ =~= brush_max_actions());
            }
            (out, focused)
        },
        Instruction::SelectPreciseColor(c) => {
            push_create_color(&mut out, c);
            proof {
                assert(out@ =~= create_color_actions(c));
            }
            (out, false)
        },
        Instruction::SelectPreciseSecondary(c) => {
            push_alt(&mut out, Key::Num2, None);
            push_create_color(&mut out, c);
            push_alt(&mut out, Key::Num1, None);
            proof {
                assert(out@ =~= alt_sequence(seq![Key::Num2]) + create_color_actions(c) + alt_sequence(
                    seq![Key::Num1],
                ));
            }
            (out, false)
        },
        Instruction::RegisterCustomColor(c) => {
            push_create_color(&mut out, c);
            proof {
                assert(out@ =~= create_color_actions(c));
            }
            (out, false)
        },
        Instruction::FillRect(r) => {
            proof {
                lemma_screen_point(*s, r.x0);
                lemma_screen_point(*s, r.y0);
                lemma_screen_point(*s, r.x1);
                lemma_screen_point(*s, r.y1);
            }
            let x0 = left + 5 * (r.x0 as i64) + 2;
            let y0 = top + 5 * (r.y0 as i64) + 2;
            out.push(Action::Drag { x0, y0, x1: left + 5 * (r.x1 as i64), y1: top + 5 * (r.y1 as i64) });
            out.push(Action::Click { x: x0, y: y0 - 20 });
            proof {
                assert(out@ =~= lower_model(i, *s, focused).0);
            }
            (out, focused)
        },
        Instruction::SelectPresetColor(k) => {
            out.push(palette_click(s, k as u64));
            proof {
                assert(out@ =~= seq![palette_cell(*s, k as nat)]);
            }
            (out, false)
        },
        Instruction::SelectCustomColor(k) => {
            out.push(palette_click(s, 20 + k as u64));
            proof {
                assert(out@ =~= seq![palette_cell(*s, 20 + k as nat)]);
            }
            (out, false)
        },
        Instruction::DrawLine(l) => {
            proof {
                lemma_screen_point(*s, l.x0);
                lemma_screen_point(*s, l.y0);
                lemma_screen_point(*s, l.x1);
                lemma_screen_point(*s, l.y1);
            }
            let x0 = left + 5 * (l.x0 as i64);
            let y0 = top + 5 * (l.y0 as i64);
            if !focused {
                out.push(Action::Click { x: x0, y: y0 });
            }
            out.push(Action::Drag { x0, y0, x1: left + 5 * (l.x1 as i64), y1: top + 5 * (l.y1 as i64) });
            proof {
                assert(out@ =~= lower_model(i, *s, focused).0);
            }
            (out, true)
        },
    }
}

fn palette_click(s: &Screen, index: u64) -> (r: Action)
    requires
        index <= u32::MAX + 20,
    ensures
        r == palette_cell(*s, index as nat),
{
    let column = (index % 10) as i64;
    let row = (index / 10) as i64;
    Action::Click { x: s.palette_x as i64 + 24 * column, y: s.palette_y as i64 + 24 * row }
}

/// Lowers a whole instruction stream, starting with an unfocused canvas.
pub fn lower_all(instrs: &Vec<Instruction>, s: &Screen) -> (r: Vec<Action>)
    ensures
        r@ == lower_all_model(instrs@, *s).0,
{
    let mut out: Vec<Action> = Vec::new();
    let mut focused = false;
    let mut i: usize = 0;
    while i < instrs.len()
        invariant
            i <= instrs@.len(),
            (out@, focused) == lower_all_model(instrs@.take(i as int), *s),
        decreases instrs@.len() - i,
    {
        proof {
            assert(instrs@.take(i + 1).drop_last() =~= instrs@.take(i as int));
        }
        let (step, now) = lower(instrs[i], s, focused);
        let mut k: usize = 0;
        let ghost start = out@;
        while k < step.len()
            invariant
                k <= step@.len(),
                out@ == start + step@.take(k as int),
            decreases step@.len() - k,
        {
            proof {
                assert(step@.take(k + 1) =~= step@.take(k as int).push(step@[k as int]));
            }
            out.push(step[k]);
            k = k + 1;
        }
        proof {
            assert(step@.take(step@.len() as int) =~= step@);
        }
        focused = now;
        i = i + 1;
    }
    proof {
        assert(instrs@.take(instrs@.len() as int) =~= instrs@);
    }
    out
}

pub open spec fn hex_digit(n: int) -> u8 {
    if n < 10 {
        (48 + n) as u8
    } else {
        (55 + n) as u8
    }
}

/// `#RRGGBB` in ASCII, upper-case, two digits per channel.
pub open spec fn color_code_model(c: Color) -> Seq<u8> {
    seq![
        35u8,
        hex_digit(c.r as int / 16),
        hex_digit(c.r as int % 16),
        hex_digit(c.g as int / 16),
        hex_digit(c.g as int % 16),
        hex_digit(c.b as int / 16),
        hex_digit(c.b as int % 16),
    ]
}

fn hex(n: u8) -> (r: u8)
    requires
        n < 16,
    ensures
        r == hex_digit(n as int),
{
    if n < 10 {
        48 + n
    } else {
        55 + n
    }
}

/// The colour's code as typed into the colour editor: `#RRGGBB`, upper-case
/// hexadecimal.
pub fn color_code(c: Color) -> (r: Vec<u8>)
    ensures
        r@ == color_code_model(c),
{
    let mut out: Vec<u8> = Vec::new();
    out.push(35u8);
    out.push(hex(c.r / 16));
    out.push(hex(c.r % 16));
    out.push(hex(c.g / 16));
    out.push(hex(c.g % 16));
    out.push(hex(c.b / 16));
    out.push(hex(c.b % 16));
    proof {
        assert(out@ =~= color_code_model(c));
    }
    out
}

/// Waits for a key to be pressed and then released, one poll at a time.
#[derive(Clone, Copy, Debug, PartialEq, Eq, Structural)]
pub struct KeyRelease {
    pub pressed: bool,
}

impl KeyRelease {
    pub fn new() -> (r: KeyRelease)
        ensures
            !r.pressed,
    {
        KeyRelease { pressed: false }
    }

    /// Takes one poll of whether the key is down; returns true once the key,
    /// having been down, is up again.
    pub fn poll(&mut self, down: bool) -> (released: bool)
        ensures
            final(self).pressed == (old(self).pressed || down),
            released == (old(self).pressed && !down),
    {
        if down {
            self.pressed = true;
            false
        } else {
            self.pressed
        }
    }
}

/// The cursor is not where the last action left it: the program's state and
/// the model of it have diverged.
#[derive(Clone, Copy, Debug, PartialEq, Eq, Structural)]
pub struct Desync {
    pub expected_x: i64,
    pub expected_y: i64,
    pub actual_x: i64,
    pub actual_y: i64,
}

/// Confirms the cursor position read back after a click or a drag.
pub fn check_cursor(expected: (i64, i64), actual: (i32, i32)) -> (r: Result<(), Desync>)
    ensures
        r is Ok <==> (expected.0 == actual.0 && expected.1 == actual.1),
        r matches Err(d) ==> d == (Desync {
            expected_x: expected.0,
            expected_y: expected.1,
            actual_x: actual.0 as i64,
            actual_y: actual.1 as i64,
        }),
{
    if expected.0 == actual.0 as i64 && expected.1 == actual.1 as i64 {
        Ok(())
    } else {
        Err(
            Desync {
                expected_x: expected.0,
                expected_y: expected.1,
                actual_x: actual.0 as i64,
                actual_y: actual.1 as i64,
            },
        )
    }
}

} // verus!
