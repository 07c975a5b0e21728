use vstd::prelude::*;

use crate::cluster::{dominant, dominant_color};
use crate::color::{is_within, within, Color, Tolerance};
use crate::palette::{nearest_in, nearest_preset, preset_color, preset_palette, presets, PRESET_COUNT};
use crate::seqs::{lemma_filter_empty, lemma_filter_take_step, lemma_map_push, lemma_take_full};

verus! {

/// A cell of the drawing grid.
#[derive(Clone, Copy, Debug, PartialEq, Eq, Structural)]
pub struct Cell {
    pub x: u32,
    pub y: u32,
}

/// A grid cell and its colour after compositing onto white; `None` for a fully
/// transparent pixel, which is never painted.
#[derive(Clone, Copy, Debug, PartialEq, Eq, Structural)]
pub struct Pixel {
    pub cell: Cell,
    pub color: Option<Color>,
}

/// What an empty canvas shows.
pub open spec fn white() -> Color {
    Color { r: 255, g: 255, b: 255 }
}

pub open spec fn color_of(p: Pixel) -> Color {
    p.color.unwrap()
}

pub open spec fn is_opaque(p: Pixel) -> bool {
    p.color is Some
}

pub open spec fn colors_of(ps: Seq<Pixel>) -> Seq<Color> {
    ps.map_values(|p: Pixel| color_of(p))
}

pub open spec fn cells_of(ps: Seq<Pixel>) -> Seq<Cell> {
    ps.map_values(|p: Pixel| p.cell)
}

/// The dominant colour over all pixels that have one, in scan order; white when
/// none has.
pub open spec fn background(pixels: Seq<Pixel>, tol: Tolerance) -> Color {
    let opaque = pixels.filter(|p: Pixel| is_opaque(p));
    if opaque.len() == 0 {
        white()
    } else {
        dominant(colors_of(opaque), tol)
    }
}

pub open spec fn is_foreground(p: Pixel, bg: Color, tol: Tolerance) -> bool {
    is_opaque(p) && !within(color_of(p), bg, tol)
}

/// The pixels that have a colour farther than `tol` from the background.
pub open spec fn foreground(pixels: Seq<Pixel>, bg: Color, tol: Tolerance) -> Seq<Pixel> {
    pixels.filter(|p: Pixel| is_foreground(p, bg, tol))
}

/// The nearest preset is within tolerance.
pub open spec fn preset_matched(c: Color, tol: Tolerance) -> bool {
    within(c, preset_color(nearest_preset(c)), tol)
}

/// With no limit every foreground pixel takes its nearest preset; otherwise
/// only those whose nearest preset is within tolerance do.
pub open spec fn takes_preset(p: Pixel, tol: Tolerance, limit: nat, k: int) -> bool {
    nearest_preset(color_of(p)) == k && (limit == 0 || preset_matched(color_of(p), tol))
}

pub open spec fn preset_batch(fg: Seq<Pixel>, tol: Tolerance, limit: nat, k: int) -> Seq<Cell> {
    cells_of(fg.filter(|p: Pixel| takes_preset(p, tol, limit, k)))
}

pub open spec fn left_for_custom(p: Pixel, tol: Tolerance, limit: nat) -> bool {
    limit != 0 && !preset_matched(color_of(p), tol)
}

/// Foreground pixels that no preset takes.
pub open spec fn leftover(fg: Seq<Pixel>, tol: Tolerance, limit: nat) -> Seq<Pixel> {
    fg.filter(|p: Pixel| left_for_custom(p, tol, limit))
}

pub open spec fn channel(c: Color, ch: int) -> u8 {
    if ch == 0 {
        c.r
    } else if ch == 1 {
        c.g
    } else {
        c.b
    }
}

pub open spec fn channel_sum(cs: Seq<Color>, ch: int) -> nat
    decreases cs.len(),
{
    if cs.len() == 0 {
        0
    } else {
        (channel_sum(cs.drop_last(), ch) + channel(cs.last(), ch)) as nat
    }
}

/// Per-channel arithmetic mean, rounded toward zero.
pub open spec fn mean_color(cs: Seq<Color>) -> Color {
    Color {
        r: (channel_sum(cs, 0) / cs.len()) as u8,
        g: (channel_sum(cs, 1) / cs.len()) as u8,
        b: (channel_sum(cs, 2) / cs.len()) as u8,
    }
}

/// A custom colour and the cells painted with it.
pub struct CustomModel {
    pub color: Color,
    pub cells: Seq<Cell>,
}

pub open spec fn near(p: Pixel, c: Color, tol: Tolerance) -> bool {
    within(color_of(p), c, tol)
}

/// Successive custom colours: while pixels remain and rounds are left, the
/// dominant colour of what remains takes every remaining pixel within
/// tolerance of it; whatever is left after the last round goes, in one batch,
/// to the mean of its colours.
pub open spec fn custom_rounds(rest: Seq<Pixel>, tol: Tolerance, rounds: nat) -> Seq<CustomModel>
    decreases rounds,
{
    if rest.len() == 0 {
        Seq::empty()
    } else if rounds == 0 {
        seq![CustomModel { color: mean_color(colors_of(rest)), cells: cells_of(rest) }]
    } else {
        let c = dominant(colors_of(rest), tol);
        seq![CustomModel { color: c, cells: cells_of(rest.filter(|p: Pixel| near(p, c, tol))) }]
            + custom_rounds(rest.filter(|p: Pixel| !near(p, c, tol)), tol, (rounds - 1) as nat)
    }
}

/// The outcome of quantising one frame.
pub struct QuantizedModel {
    pub background: Color,
    pub presets: Seq<Seq<Cell>>,
    pub customs: Seq<CustomModel>,
}

/// Background detection and colour assignment for one frame. A `limit` of 0
/// uses the presets alone; otherwise at most `limit` custom colours are used,
/// the last of them an overflow bucket.
pub open spec fn quantize_model(pixels: Seq<Pixel>, tol: Tolerance, limit: nat) -> QuantizedModel {
    let bg = background(pixels, tol);
    let fg = foreground(pixels, bg, tol);
    QuantizedModel {
        background: bg,
        presets: Seq::new(PRESET_COUNT as nat, |k: int| preset_batch(fg, tol, limit, k)),
        customs: if limit == 0 {
            Seq::empty()
        } else {
            custom_rounds(leftover(fg, tol, limit), tol, (limit - 1) as nat)
        },
    }
}

/// A custom colour and its cells, in scan order.
pub struct CustomBatch {
    pub color: Color,
    pub cells: Vec<Cell>,
}

/// Background, one batch per preset (index 0 to 19) and the custom batches,
/// each batch listing its cells in scan order.
pub struct Quantized {
    pub background: Color,
    pub preset_batches: Vec<Vec<Cell>>,
    pub custom_batches: Vec<CustomBatch>,
}

impl View for CustomBatch {
    type V = CustomModel;

    open spec fn view(&self) -> CustomModel {
        CustomModel { color: self.color, cells: self.cells@ }
    }
}

impl View for Quantized {
    type V = QuantizedModel;

    open spec fn view(&self) -> QuantizedModel {
        QuantizedModel {
            background: self.background,
            presets: self.preset_batches@.map_values(|b: Vec<Cell>| b@),
            customs: self.custom_batches@.map_values(|b: CustomBatch| b@),
        }
    }
}

fn opaque_colors(pixels: &Vec<Pixel>) -> (r: Vec<Color>)
    ensures
        r@ == colors_of(pixels@.filter(|p: Pixel| is_opaque(p))),
{
    let ghost pred = |p: Pixel| is_opaque(p);
    let mut out: Vec<Color> = Vec::new();
    let mut i: usize = 0;
    proof {
        lemma_filter_empty(pixels@.take(0), pred);
    }
    while i < pixels.len()
        invariant
            i <= pixels@.len(),
            pred == (|p: Pixel| is_opaque(p)),
            out@ == colors_of(pixels@.take(i as int).filter(pred)),
        decreases pixels@.len() - i,
    {
        proof {
            lemma_filter_take_step(pixels@, pred, i as int);
            lemma_map_push(pixels@.take(i as int).filter(pred), pixels@[i as int], |p: Pixel| color_of(p));
        }
        match pixels[i].color {
            Some(c) => out.push(c),
            None => {},
        }
        i = i + 1;
    }
    proof {
        lemma_take_full(pixels@);
    }
    out
}

/// The background colour of a frame: the dominant colour over all pixels that
/// have one, or white when none has.
pub fn background_color(pixels: &Vec<Pixel>, tol: Tolerance) -> (r: Color)
    ensures
        r == background(pixels@, tol),
{
    let colors = opaque_colors(pixels);
    match dominant_color(&colors, tol) {
        Some(c) => c,
        None => Color { r: 255, g: 255, b: 255 },
    }
}

/// The pixels farther than `tol` from `bg`, in scan order.
pub fn foreground_pixels(pixels: &Vec<Pixel>, bg: Color, tol: Tolerance) -> (r: Vec<Pixel>)
    ensures
        r@ == foreground(pixels@, bg, tol),
        forall|i: int| 0 <= i < r@.len() ==> is_opaque(#[trigger] r@[i]),
{
    let ghost pred = |p: Pixel| is_foreground(p, bg, tol);
    let mut out: Vec<Pixel> = Vec::new();
    let mut i: usize = 0;
    proof {
        lemma_filter_empty(pixels@.take(0), pred);
    }
    while i < pixels.len()
        invariant
            i <= pixels@.len(),
            pred == (|p: Pixel| is_foreground(p, bg, tol)),
            out@ == pixels@.take(i as int).filter(pred),
            forall|j: int| 0 <= j < out@.len() ==> is_opaque(#[trigger] out@[j]),
        decreases pixels@.len() - i,
    {
        proof {
            lemma_filter_take_step(pixels@, pred, i as int);
        }
        let p = pixels[i];
        match p.color {
            Some(c) => {
                if !is_within(c, bg, tol) {
                    out.push(p);
                }
            },
            None => {},
        }
        i = i + 1;
    }
    proof {
        lemma_take_full(pixels@);
    }
    out
}

fn cells(ps: &Vec<Pixel>) -> (r: Vec<Cell>)
    ensures
        r@ == cells_of(ps@),
{
    let mut out: Vec<Cell> = Vec::new();
    let mut i: usize = 0;
    while i < ps.len()
        invariant
            i <= ps@.len(),
            out@ == cells_of(ps@.take(i as int)),
        decreases ps@.len() - i,
    {
        proof {
            assert(ps@.take(i + 1) =~= ps@.take(i as int).push(ps@[i as int]));
            lemma_map_push(ps@.take(i as int), ps@[i as int], |p: Pixel| p.cell);
        }
        out.push(ps[i].cell);
        i = i + 1;
    }
    proof {
        lemma_take_full(ps@);
    }
    out
}

fn colors(ps: &Vec<Pixel>) -> (r: Vec<Color>)
    requires
        forall|i: int| 0 <= i < ps@.len() ==> is_opaque(#[trigger] ps@[i]),
    ensures
        r@ == colors_of(ps@),
{
    let mut out: Vec<Color> = Vec::new();
    let mut i: usize = 0;
    while i < ps.len()
        invariant
            i <= ps@.len(),
            forall|j: int| 0 <= j < ps@.len() ==> is_opaque(#[trigger] ps@[j]),
            out@ == colors_of(ps@.take(i as int)),
        decreases ps@.len() - i,
    {
        proof {
            assert(ps@.take(i + 1) =~= ps@.take(i as int).push(ps@[i as int]));
            lemma_map_push(ps@.take(i as int), ps@[i as int], |p: Pixel| color_of(p));
        }
        out.push(ps[i].color.unwrap());
        i = i + 1;
    }
    proof {
        lemma_take_full(ps@);
    }
    out
}

/// Splits `ps` into the pixels within `tol` of `c` and the others, keeping
/// their order.
fn split_near(ps: &Vec<Pixel>, c: Color, tol: Tolerance) -> (r: (Vec<Pixel>, Vec<Pixel>))
    requires
        forall|i: int| 0 <= i < ps@.len() ==> is_opaque(#[trigger] ps@[i]),
    ensures
        r.0@ == ps@.filter(|p: Pixel| near(p, c, tol)),
        r.1@ == ps@.filter(|p: Pixel| !near(p, c, tol)),
        forall|i: int| 0 <= i < r.1@.len() ==> is_opaque(#[trigger] r.1@[i]),
{
    let ghost pn = |p: Pixel| near(p, c, tol);
    let ghost pf = |p: Pixel| !near(p, c, tol);
    let mut close: Vec<Pixel> = Vec::new();
    let mut far: Vec<Pixel> = Vec::new();
    let mut i: usize = 0;
    proof {
        lemma_filter_empty(ps@.take(0), pn);
        lemma_filter_empty(ps@.take(0), pf);
    }
    while i < ps.len()
        invariant
            i <= ps@.len(),
            forall|j: int| 0 <= j < ps@.len() ==> is_opaque(#[trigger] ps@[j]),
            pn == (|p: Pixel| near(p, c, tol)),
            pf == (|p: Pixel| !near(p, c, tol)),
            close@ == ps@.take(i as int).filter(pn),
            far@ == ps@.take(i as int).filter(pf),
            forall|j: int| 0 <= j < far@.len() ==> is_opaque(#[trigger] far@[j]),
        decreases ps@.len() - i,
    {
        proof {
            lemma_filter_take_step(ps@, pn, i as int);
            lemma_filter_take_step(ps@, pf, i as int);
        }
        let p = ps[i];
        if is_within(p.color.unwrap(), c, tol) {
            close.push(p);
        } else {
            far.push(p);
        }
        i = i + 1;
    }
    proof {
        lemma_take_full(ps@);
    }
    (close, far)
}

proof fn lemma_mean_bound(sum: nat, n: nat)
    requires
        n > 0,
        sum <= 255 * n,
    ensures
        sum / n <= 255,
{
    assert(sum / n <= 255) by (nonlinear_arith)
        requires
            n > 0,
            sum <= 255 * n,
    ;
}

/// The per-channel mean of `cs`, rounded toward zero.
pub fn mean_of(cs: &Vec<Color>) -> (r: Color)
    requires
        cs@.len() > 0,
    ensures
        r == mean_color(cs@),
{
    let mut sr: u128 = 0;
    let mut sg: u128 = 0;
    let mut sb: u128 = 0;
    let mut i: usize = 0;
    while i < cs.len()
        invariant
            i <= cs@.len(),
            sr == channel_sum(cs@.take(i as int), 0),
            sg == channel_sum(cs@.take(i as int), 1),
            sb == channel_sum(cs@.take(i as int), 2),
            sr <= 255 * i,
            sg <= 255 * i,
            sb <= 255 * i,
        decreases cs@.len() - i,
    {
        proof {
            assert(cs@.take(i + 1).drop_last() =~= cs@.take(i as int));
        }
        sr = sr + cs[i].r as u128;
        sg = sg + cs[i].g as u128;
        sb = sb + cs[i].b as u128;
        i = i + 1;
    }
    proof {
        lemma_take_full(cs@);
        lemma_mean_bound(sr as nat, cs@.len());
        lemma_mean_bound(sg as nat, cs@.len());
        lemma_mean_bound(sb as nat, cs@.len());
    }
    let n = cs.len() as u128;
    Color { r: (sr / n) as u8, g: (sg / n) as u8, b: (sb / n) as u8 }
}

/// First pass: each foreground pixel goes to its nearest preset when there is
/// no limit or when that preset is within tolerance; the others are returned.
fn assign_presets(fg: &Vec<Pixel>, tol: Tolerance, limit: usize) -> (r: (Vec<Vec<Cell>>, Vec<Pixel>))
    requires
        forall|i: int| 0 <= i < fg@.len() ==> is_opaque(#[trigger] fg@[i]),
    ensures
        r.0@.len() == PRESET_COUNT,
        forall|k: int|
            0 <= k < PRESET_COUNT ==> #[trigger] r.0@[k]@ == preset_batch(fg@, tol, limit as nat, k),
        r.1@ == leftover(fg@, tol, limit as nat),
        forall|i: int| 0 <= i < r.1@.len() ==> is_opaque(#[trigger] r.1@[i]),
{
    let palette = preset_palette();
    let mut batches: Vec<Vec<Cell>> = Vec::new();
    let mut k: usize = 0;
    while k < PRESET_COUNT
        invariant
            k <= PRESET_COUNT,
            batches@.len() == k,
            forall|j: int| 0 <= j < k ==> (#[trigger] batches@[j])@ == Seq::<Cell>::empty(),
        decreases PRESET_COUNT - k,
    {
        batches.push(Vec::new());
        k = k + 1;
    }
    let mut rest: Vec<Pixel> = Vec::new();
    let ghost lim = limit as nat;
    proof {
        assert forall|j: int| 0 <= j < PRESET_COUNT implies #[trigger] batches@[j]@ == preset_batch(
            fg@.take(0),
            tol,
            lim,
            j,
        ) by {
            lemma_filter_empty(fg@.take(0), |p: Pixel| takes_preset(p, tol, lim, j));
        }
        lemma_filter_empty(fg@.take(0), |p: Pixel| left_for_custom(p, tol, lim));
    }
    let mut i: usize = 0;
    while i < fg.len()
        invariant
            i <= fg@.len(),
            lim == limit as nat,
            palette@ == presets(),
            forall|j: int| 0 <= j < fg@.len() ==> is_opaque(#[trigger] fg@[j]),
            batches@.len() == PRESET_COUNT,
            forall|j: int|
                0 <= j < PRESET_COUNT ==> #[trigger] batches@[j]@ == preset_batch(
                    fg@.take(i as int),
                    tol,
                    lim,
                    j,
                ),
            rest@ == leftover(fg@.take(i as int), tol, lim),
            forall|j: int| 0 <= j < rest@.len() ==> is_opaque(#[trigger] rest@[j]),
        decreases fg@.len() - i,
    {
        let p = fg[i];
        let c = p.color.unwrap();
        let (best, d) = nearest_in(&palette, c);
        let ghost before = batches@;
        proof {
            assert(presets()[best as int] == preset_color(best as int));
            lemma_filter_take_step(fg@, |q: Pixel| left_for_custom(q, tol, lim), i as int);
        }
        if limit == 0 || d <= tol.max_diff {
            batches[best].push(p.cell);
        } else {
            rest.push(p);
        }
        proof {
            assert forall|j: int| 0 <= j < PRESET_COUNT implies #[trigger] batches@[j]@
                == preset_batch(fg@.take(i + 1), tol, lim, j) by {
                let pred = |q: Pixel| takes_preset(q, tol, lim, j);
                lemma_filter_take_step(fg@, pred, i as int);
                lemma_map_push(fg@.take(i as int).filter(pred), p, |q: Pixel| q.cell);
            }
        }
        i = i + 1;
    }
    proof {
        lemma_take_full(fg@);
    }
    (batches, rest)
}

/// Custom-colour rounds over the pixels that no preset took, followed by the
/// overflow bucket for whatever remains once `rounds` are spent.
fn custom_batches(rest0: Vec<Pixel>, tol: Tolerance, rounds: usize) -> (r: Vec<CustomBatch>)
    requires
        forall|i: int| 0 <= i < rest0@.len() ==> is_opaque(#[trigger] rest0@[i]),
    ensures
        r@.map_values(|b: CustomBatch| b@) == custom_rounds(rest0@, tol, rounds as nat),
{
    let mut out: Vec<CustomBatch> = Vec::new();
    let mut rest = rest0;
    let mut done: usize = 0;
    proof {
        assert(out@.map_values(|b: CustomBatch| b@) + custom_rounds(rest@, tol, rounds as nat)
            =~= custom_rounds(rest@, tol, rounds as nat));
    }
    while rest.len() > 0 && done < rounds
        invariant
            done <= rounds,
            forall|i: int| 0 <= i < rest@.len() ==> is_opaque(#[trigger] rest@[i]),
            custom_rounds(rest0@, tol, rounds as nat) == out@.map_values(|b: CustomBatch| b@)
                + custom_rounds(rest@, tol, (rounds - done) as nat),
        decreases rounds - done,
    {
        let cs = colors(&rest);
        let c = dominant_color(&cs, tol).unwrap();
        let (close, far) = split_near(&rest, c, tol);
        let batch = CustomBatch { color: c, cells: cells(&close) };
        let ghost prev = out@;
        let ghost head = batch@;
        out.push(batch);
        proof {
            let tail = custom_rounds(far@, tol, (rounds - done - 1) as nat);
            assert(custom_rounds(rest@, tol, (rounds - done) as nat) == seq![head] + tail);
            lemma_map_push(prev, out@.last(), |b: CustomBatch| b@);
            assert(out@ =~= prev.push(out@.last()));
            assert(prev.map_values(|b: CustomBatch| b@) + (seq![head] + tail) =~= prev.map_values(
                |b: CustomBatch| b@,
            ).push(head) + tail);
        }
        rest = far;
        done = done + 1;
    }
    if rest.len() > 0 {
        let cs = colors(&rest);
        let batch = CustomBatch { color: mean_of(&cs), cells: cells(&rest) };
        let ghost prev = out@;
        let ghost head = batch@;
        out.push(batch);
        proof {
            lemma_map_push(prev, out@.last(), |b: CustomBatch| b@);
            assert(out@ =~= prev.push(out@.last()));
            assert(prev.map_values(|b: CustomBatch| b@) + seq![head] =~= prev.map_values(
                |b: CustomBatch| b@,
            ).push(head));
        }
    } else {
        proof {
            assert(out@.map_values(|b: CustomBatch| b@) + Seq::<CustomModel>::empty()
                =~= out@.map_values(|b: CustomBatch| b@));
        }
    }
    out
}

/// Quantises one frame: detects the background, keeps the foreground, and
/// assigns every foreground pixel to a preset or to a custom colour; with a
/// `color_limit` of 0 only presets are used.
pub fn quantize(pixels: &Vec<Pixel>, tol: Tolerance, color_limit: usize) -> (r: Quantized)
    ensures
        r@ == quantize_model(pixels@, tol, color_limit as nat),
{
    let bg = background_color(pixels, tol);
    let fg = foreground_pixels(pixels, bg, tol);
    let (preset_batches, rest) = assign_presets(&fg, tol, color_limit);
    let custom_batches = if color_limit == 0 {
        Vec::new()
    } else {
        custom_batches(rest, tol, color_limit - 1)
    };
    let r = Quantized { background: bg, preset_batches, custom_batches };
    proof {
        let m = quantize_model(pixels@, tol, color_limit as nat);
        assert(r@.presets =~= m.presets);
        assert(r@.customs =~= m.customs);
    }
    r
}

} // verus!
