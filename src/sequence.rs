use vstd::prelude::*;

use crate::color::Color;
use crate::lines::{compile_lines, compile_lines_model, Segment};
use crate::palette::{preset, presets, CUSTOM_SLOTS};
use crate::quantize::{quantize, quantize_model, Cell, CustomBatch, CustomModel, Pixel, Quantized, QuantizedModel};
use crate::color::Tolerance;
use crate::seqs::lemma_take_full;

verus! {

/// Drawing tools of the target program.
#[derive(Clone, Copy, Debug, PartialEq, Eq, Structural)]
pub enum Tool {
    /// The filled rectangle shape, used to paint the background.
    Rectangle,
    /// The round brush, used for every stroke.
    Brush,
}

/// One step for the actuator. Coordinates are grid cells.
#[derive(Clone, Copy, Debug, PartialEq, Eq, Structural)]
pub enum Instruction {
    /// Clears whatever the canvas holds.
    ClearCanvas,
    SelectTool(Tool),
    /// Sets the active tool to its largest size.
    SetBrushMax,
    /// Makes `Color` the primary colour through the colour editor, without
    /// registering it.
    SelectPreciseColor(Color),
    /// Makes `Color` the secondary colour through the colour editor.
    SelectPreciseSecondary(Color),
    /// Drags the active shape tool over the rectangle between two cells.
    FillRect(Segment),
    /// Stores `Color` in the next custom palette slot.
    RegisterCustomColor(Color),
    /// Selects preset `0..=19`.
    SelectPresetColor(u32),
    /// Selects custom slot `0..=9`.
    SelectCustomColor(u32),
    /// Strokes the segment with the active colour.
    DrawLine(Segment),
}

/// How a batch's colour is made active.
#[derive(Clone, Copy, Debug, PartialEq, Eq, Structural)]
pub enum Selection {
    Preset(u32),
    Custom(u32),
    Precise(Color),
}

pub open spec fn select_instruction(s: Selection) -> Instruction {
    match s {
        Selection::Preset(i) => Instruction::SelectPresetColor(i),
        Selection::Custom(i) => Instruction::SelectCustomColor(i),
        Selection::Precise(c) => Instruction::SelectPreciseColor(c),
    }
}

/// A batch ready to be drawn: how its colour is selected, and its cells.
pub struct PlannedModel {
    pub sel: Selection,
    pub cells: Seq<Cell>,
}

/// Non-empty preset batches, by increasing index.
pub open spec fn preset_plan(batches: Seq<Seq<Cell>>, n: nat) -> Seq<PlannedModel>
    decreases n,
{
    if n == 0 {
        Seq::empty()
    } else {
        let prev = preset_plan(batches, (n - 1) as nat);
        if batches[n - 1].len() > 0 {
            prev.push(PlannedModel { sel: Selection::Preset((n - 1) as u32), cells: batches[n - 1] })
        } else {
            prev
        }
    }
}

/// The first ten non-empty custom batches use registered slots; later ones
/// are applied as one-off precise colours.
pub open spec fn custom_selection(slot: nat, c: Color) -> Selection {
    if slot < CUSTOM_SLOTS {
        Selection::Custom(slot as u32)
    } else {
        Selection::Precise(c)
    }
}

pub open spec fn custom_plan(customs: Seq<CustomModel>, n: nat) -> Seq<PlannedModel>
    decreases n,
{
    if n == 0 {
        Seq::empty()
    } else {
        let prev = custom_plan(customs, (n - 1) as nat);
        let b = customs[n - 1];
        if b.cells.len() > 0 {
            prev.push(PlannedModel { sel: custom_selection(prev.len(), b.color), cells: b.cells })
        } else {
            prev
        }
    }
}

/// Colours of the non-empty custom batches among the first `n`.
pub open spec fn nonempty_colors(customs: Seq<CustomModel>, n: nat) -> Seq<Color>
    decreases n,
{
    if n == 0 {
        Seq::empty()
    } else {
        let prev = nonempty_colors(customs, (n - 1) as nat);
        if customs[n - 1].cells.len() > 0 {
            prev.push(customs[n - 1].color)
        } else {
            prev
        }
    }
}

pub open spec fn last_selection(plan: Seq<PlannedModel>) -> Option<Selection> {
    if plan.len() == 0 {
        None
    } else {
        Some(plan.last().sel)
    }
}

pub open spec fn draw_lines(segs: Seq<Segment>) -> Seq<Instruction> {
    segs.map_values(|s: Segment| Instruction::DrawLine(s))
}

/// Each batch selects its colour, unless that colour is already the active
/// selection, and then draws its strokes.
pub open spec fn emit(plan: Seq<PlannedModel>) -> Seq<Instruction>
    decreases plan.len(),
{
    if plan.len() == 0 {
        Seq::empty()
    } else {
        let prev = plan.drop_last();
        let p = plan.last();
        emit(prev) + (if last_selection(prev) == Some(p.sel) {
            Seq::empty()
        } else {
            seq![select_instruction(p.sel)]
        }) + draw_lines(compile_lines_model(p.cells))
    }
}

/// Background set-up: clear, the rectangle tool at full size, the background
/// as primary and secondary colour, and one filled rectangle over the grid.
pub open spec fn setup(bg: Color, width: u32, height: u32) -> Seq<Instruction> {
    seq![
        Instruction::ClearCanvas,
        Instruction::SelectTool(Tool::Rectangle),
        Instruction::SetBrushMax,
        Instruction::SelectPreciseColor(bg),
        Instruction::SelectPreciseSecondary(bg),
        Instruction::FillRect(
            Segment { x0: 0, y0: 0, x1: (width - 1) as u32, y1: (height - 1) as u32 },
        ),
    ]
}

/// When any custom colour is used, all ten slots are registered: the custom
/// colours first, then leading presets as padding.
pub open spec fn registered_colors(customs: Seq<CustomModel>) -> Seq<Color> {
    let ne = nonempty_colors(customs, customs.len());
    let used = if ne.len() < CUSTOM_SLOTS {
        ne.len()
    } else {
        CUSTOM_SLOTS as nat
    };
    if ne.len() == 0 {
        Seq::empty()
    } else {
        ne.take(used as int) + presets().take(CUSTOM_SLOTS - used)
    }
}

pub open spec fn registrations(customs: Seq<CustomModel>) -> Seq<Instruction> {
    registered_colors(customs).map_values(|c: Color| Instruction::RegisterCustomColor(c))
}

pub open spec fn brush_setup() -> Seq<Instruction> {
    seq![Instruction::SelectTool(Tool::Brush), Instruction::SetBrushMax]
}

/// The whole instruction stream for a quantised frame of the given grid size.
pub open spec fn program(q: QuantizedModel, width: u32, height: u32) -> Seq<Instruction> {
    setup(q.background, width, height) + registrations(q.customs) + brush_setup() + emit(
        preset_plan(q.presets, q.presets.len()) + custom_plan(q.customs, q.customs.len()),
    )
}

/// The instruction stream for a frame of pixels on a `width` by `height` grid.
pub open spec fn compile_model(
    pixels: Seq<Pixel>,
    width: u32,
    height: u32,
    tol: Tolerance,
    limit: nat,
) -> Seq<Instruction> {
    program(quantize_model(pixels, tol, limit), width, height)
}

fn same_selection(a: Option<Selection>, b: Selection) -> (r: bool)
    ensures
        r == (a == Some(b)),
{
    match (a, b) {
        (Some(Selection::Preset(i)), Selection::Preset(j)) => i == j,
        (Some(Selection::Custom(i)), Selection::Custom(j)) => i == j,
        (Some(Selection::Precise(c)), Selection::Precise(d)) => c == d,
        _ => false,
    }
}

fn selection_instruction(s: Selection) -> (r: Instruction)
    ensures
        r == select_instruction(s),
{
    match s {
        Selection::Preset(i) => Instruction::SelectPresetColor(i),
        Selection::Custom(i) => Instruction::SelectCustomColor(i),
        Selection::Precise(c) => Instruction::SelectPreciseColor(c),
    }
}

/// Appends the batch's selection (unless already active) and its strokes.
fn emit_batch(out: &mut Vec<Instruction>, active: Option<Selection>, sel: Selection, cells: &Vec<Cell>)
    ensures
        final(out)@ == old(out)@ + (if active == Some(sel) {
            Seq::empty()
        } else {
            seq![select_instruction(sel)]
        }) + draw_lines(compile_lines_model(cells@)),
{
    let ghost start = out@;
    if !same_selection(active, sel) {
        out.push(selection_instruction(sel));
    }
    let ghost mid = out@;
    proof {
        assert(mid =~= start + (if active == Some(sel) {
            Seq::empty()
        } else {
            seq![select_instruction(sel)]
        }));
    }
    let segs = compile_lines(cells);
    let mut i: usize = 0;
    while i < segs.len()
        invariant
            i <= segs@.len(),
            segs@ == compile_lines_model(cells@),
            out@ == mid + draw_lines(segs@.take(i as int)),
        decreases segs@.len() - i,
    {
        proof {
            assert(draw_lines(segs@.take(i + 1)) =~= draw_lines(segs@.take(i as int)).push(
                Instruction::DrawLine(segs@[i as int]),
            ));
        }
        out.push(Instruction::DrawLine(segs[i]));
        i = i + 1;
    }
    proof {
        lemma_take_full(segs@);
    }
}

/// The colours to register: the non-empty custom batches' colours, up to ten,
/// padded with leading presets; none when no custom colour is used.
fn registered(customs: &Vec<CustomBatch>) -> (r: Vec<Color>)
    ensures
        r@ == registered_colors(customs@.map_values(|b: CustomBatch| b@)),
{
    let ghost cm = customs@.map_values(|b: CustomBatch| b@);
    let mut ne: Vec<Color> = Vec::new();
    let mut j: usize = 0;
    while j < customs.len()
        invariant
            j <= customs@.len(),
            cm == customs@.map_values(|b: CustomBatch| b@),
            ne@ == nonempty_colors(cm, j as nat).take(if ne@.len() < CUSTOM_SLOTS {
                ne@.len() as int
            } else {
                CUSTOM_SLOTS as int
            }),
            ne@.len() <= CUSTOM_SLOTS,
            ne@.len() == if nonempty_colors(cm, j as nat).len() < CUSTOM_SLOTS {
                nonempty_colors(cm, j as nat).len()
            } else {
                CUSTOM_SLOTS as nat
            },
        decreases customs@.len() - j,
    {
        if customs[j].cells.len() > 0 && ne.len() < CUSTOM_SLOTS {
            ne.push(customs[j].color);
        }
        proof {
            let now = nonempty_colors(cm, (j + 1) as nat);
            let before = nonempty_colors(cm, j as nat);
            assert(now.take(ne@.len() as int) =~= ne@) by {
                assert forall|k: int| 0 <= k < ne@.len() implies now[k] == ne@[k] by {
                    if k < before.len() {
                        assert(now[k] == before[k]);
                    }
                }
            }
        }
        j = j + 1;
    }
    let ghost all = nonempty_colors(cm, customs@.len() as nat);
    if ne.len() == 0 {
        proof {
            assert(registered_colors(cm) =~= Seq::<Color>::empty());
        }
        return ne;
    }
    let used = ne.len();
    let mut k: usize = 0;
    while k < CUSTOM_SLOTS - used
        invariant
            1 <= used <= CUSTOM_SLOTS,
            k <= CUSTOM_SLOTS - used,
            ne@ == all.take(used as int) + presets().take(k as int),
        decreases CUSTOM_SLOTS - used - k,
    {
        ne.push(preset(k));
        proof {
            assert(all.take(used as int) + presets().take(k + 1) =~= (all.take(used as int)
                + presets().take(k as int)).push(presets()[k as int]));
        }
        k = k + 1;
    }
    ne
}

/// Orders the instructions for a quantised frame on a `width` by `height`
/// grid: set-up and background fill, custom colour registration, the brush,
/// then each non-empty preset batch and each non-empty custom batch with its
/// selection (skipped when already active) and its strokes.
pub fn sequence(q: &Quantized, width: u32, height: u32) -> (r: Vec<Instruction>)
    requires
        width >= 1,
        height >= 1,
        q.preset_batches@.len() <= u32::MAX,
    ensures
        r@ == program(q@, width, height),
{
    let ghost qm = q@;
    let mut out: Vec<Instruction> = Vec::new();
    out.push(Instruction::ClearCanvas);
    out.push(Instruction::SelectTool(Tool::Rectangle));
    out.push(Instruction::SetBrushMax);
    out.push(Instruction::SelectPreciseColor(q.background));
    out.push(Instruction::SelectPreciseSecondary(q.background));
    out.push(Instruction::FillRect(Segment { x0: 0, y0: 0, x1: width - 1, y1: height - 1 }));
    proof {
        assert(out@ =~= setup(q.background, width, height));
    }
    let regs = registered(&q.custom_batches);
    let mut i: usize = 0;
    while i < regs.len()
        invariant
            i <= regs@.len(),
            regs@ == registered_colors(qm.customs),
            out@ == setup(qm.background, width, height) + regs@.take(i as int).map_values(
                |c: Color| Instruction::RegisterCustomColor(c),
            ),
        decreases regs@.len() - i,
    {
        proof {
            assert(regs@.take(i + 1).map_values(|c: Color| Instruction::RegisterCustomColor(c))
                =~= regs@.take(i as int).map_values(|c: Color| Instruction::RegisterCustomColor(c)).push(
                Instruction::RegisterCustomColor(regs@[i as int]),
            ));
        }
        out.push(Instruction::RegisterCustomColor(regs[i]));
        i = i + 1;
    }
    proof {
        lemma_take_full(regs@);
    }
    out.push(Instruction::SelectTool(Tool::Brush));
    out.push(Instruction::SetBrushMax);
    let ghost head = setup(qm.background, width, height) + registrations(qm.customs) + brush_setup();
    proof {
        assert(out@ =~= head + emit(Seq::<PlannedModel>::empty()));
    }
    let mut active: Option<Selection> = None;
    let ghost mut plan: Seq<PlannedModel> = Seq::empty();
    let mut k: usize = 0;
    while k < q.preset_batches.len()
        invariant
            k <= q.preset_batches@.len(),
            q.preset_batches@.len() <= u32::MAX,
            qm == q@,
            plan == preset_plan(qm.presets, k as nat),
            active == last_selection(plan),
            out@ == head + emit(plan),
        decreases q.preset_batches@.len() - k,
    {
        if q.preset_batches[k].len() > 0 {
            let sel = Selection::Preset(k as u32);
            proof {
                assert(qm.presets[k as int] == q.preset_batches@[k as int]@);
            }
            emit_batch(&mut out, active, sel, &q.preset_batches[k]);
            proof {
                let np = plan.push(PlannedModel { sel: sel, cells: qm.presets[k as int] });
                assert(np.drop_last() =~= plan);
                assert(head + emit(np) =~= head + emit(plan) + (if last_selection(plan) == Some(sel) {
                    Seq::empty()
                } else {
                    seq![select_instruction(sel)]
                }) + draw_lines(compile_lines_model(qm.presets[k as int])));
                plan = np;
            }
            active = Some(sel);
        } else {
            proof {
                assert(qm.presets[k as int] == q.preset_batches@[k as int]@);
            }
        }
        k = k + 1;
    }
    let ghost pp = plan;
    let mut used: usize = 0;
    let mut j: usize = 0;
    while j < q.custom_batches.len()
        invariant
            j <= q.custom_batches@.len(),
            qm == q@,
            pp == preset_plan(qm.presets, qm.presets.len()),
            plan == pp + custom_plan(qm.customs, j as nat),
            used == custom_plan(qm.customs, j as nat).len(),
            used <= j,
            active == last_selection(plan),
            out@ == head + emit(plan),
        decreases q.custom_batches@.len() - j,
    {
        let b = &q.custom_batches[j];
        proof {
            assert(qm.customs[j as int] == b@);
        }
        if b.cells.len() > 0 {
            let sel = if used < CUSTOM_SLOTS {
                Selection::Custom(used as u32)
            } else {
                Selection::Precise(b.color)
            };
            emit_batch(&mut out, active, sel, &b.cells);
            proof {
                let item = PlannedModel { sel: sel, cells: b.cells@ };
                let np = plan.push(item);
                assert(pp + custom_plan(qm.customs, (j + 1) as nat) =~= np);
                assert(np.drop_last() =~= plan);
                assert(head + emit(np) =~= head + emit(plan) + (if last_selection(plan) == Some(sel) {
                    Seq::empty()
                } else {
                    seq![select_instruction(sel)]
                }) + draw_lines(compile_lines_model(b.cells@)));
                plan = np;
            }
            active = Some(sel);
            used = used + 1;
        } else {
            proof {
                assert(pp + custom_plan(qm.customs, (j + 1) as nat) =~= plan);
            }
        }
        j = j + 1;
    }
    out
}

/// Compiles a frame of pixels on a `width` by `height` grid into its
/// instruction stream.
pub fn compile(pixels: &Vec<Pixel>, width: u32, height: u32, tol: Tolerance, color_limit: usize) -> (r: Vec<
    Instruction,
>)
    requires
        width >= 1,
        height >= 1,
    ensures
        r@ == compile_model(pixels@, width, height, tol, color_limit as nat),
{
    let q = quantize(pixels, tol, color_limit);
    sequence(&q, width, height)
}

} // verus!
