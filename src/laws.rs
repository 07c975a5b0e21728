use vstd::prelude::*;

use crate::color::{within, Tolerance};
use crate::frame::{compile_frame_model, grid_pixels_model, pixel_at, RgbaImage};
use crate::palette::{nearest_preset, preset_color, PRESET_COUNT};
use crate::quantize::{
    background, cells_of, color_of, custom_rounds, foreground, is_foreground, leftover,
    left_for_custom, near, preset_matched, quantize_model, takes_preset, Cell, CustomModel, Pixel,
    QuantizedModel,
};
use crate::sequence::compile_model;

verus! {

/// No two different pixels share a cell.
pub open spec fn cells_unique(ps: Seq<Pixel>) -> bool {
    forall|p: Pixel, q: Pixel|
        #![trigger ps.contains(p), ps.contains(q)]
        ps.contains(p) && ps.contains(q) && p.cell == q.cell ==> p == q
}

pub open spec fn in_preset_batch(q: QuantizedModel, k: int, c: Cell) -> bool {
    0 <= k < q.presets.len() && q.presets[k].contains(c)
}

pub open spec fn in_custom_batch(customs: Seq<CustomModel>, j: int, c: Cell) -> bool {
    0 <= j < customs.len() && customs[j].cells.contains(c)
}

pub open spec fn in_some_batch(q: QuantizedModel, c: Cell) -> bool {
    (exists|k: int| in_preset_batch(q, k, c)) || (exists|j: int| in_custom_batch(q.customs, j, c))
}

proof fn lemma_cell_source(s: Seq<Pixel>, c: Cell) -> (p: Pixel)
    requires
        cells_of(s).contains(c),
    ensures
        s.contains(p),
        p.cell == c,
{
    let i = choose|i: int| 0 <= i < cells_of(s).len() && cells_of(s)[i] == c;
    s[i]
}

proof fn lemma_cell_listed(s: Seq<Pixel>, p: Pixel)
    requires
        s.contains(p),
    ensures
        cells_of(s).contains(p.cell),
{
    let i = choose|i: int| 0 <= i < s.len() && s[i] == p;
    assert(cells_of(s)[i] == p.cell);
}

proof fn lemma_filter_kept(s: Seq<Pixel>, pred: spec_fn(Pixel) -> bool, p: Pixel)
    requires
        s.filter(pred).contains(p),
    ensures
        s.contains(p),
        pred(p),
{
    s.lemma_filter_contains_rev(pred, p);
}

proof fn lemma_filter_keeps(s: Seq<Pixel>, pred: spec_fn(Pixel) -> bool, p: Pixel)
    requires
        s.contains(p),
        pred(p),
    ensures
        s.filter(pred).contains(p),
{
    let i = choose|i: int| 0 <= i < s.len() && s[i] == p;
    s.lemma_filter_contains(pred, i);
}

proof fn lemma_unique_filter(s: Seq<Pixel>, pred: spec_fn(Pixel) -> bool)
    requires
        cells_unique(s),
    ensures
        cells_unique(s.filter(pred)),
{
    assert forall|p: Pixel, q: Pixel|
        #![trigger s.filter(pred).contains(p), s.filter(pred).contains(q)]
        s.filter(pred).contains(p) && s.filter(pred).contains(q) && p.cell == q.cell implies p == q by {
        lemma_filter_kept(s, pred, p);
        lemma_filter_kept(s, pred, q);
    }
}

/// The custom batches built from `rest` split its cells: each cell of `rest`
/// lies in exactly one batch, and the batches hold no other cell.
proof fn lemma_rounds_partition(rest: Seq<Pixel>, tol: Tolerance, rounds: nat)
    requires
        cells_unique(rest),
    ensures
        forall|c: Cell|
            (exists|j: int| in_custom_batch(custom_rounds(rest, tol, rounds), j, c)) <==> cells_of(
                rest,
            ).contains(c),
        forall|c: Cell, j1: int, j2: int|
            in_custom_batch(custom_rounds(rest, tol, rounds), j1, c) && in_custom_batch(
                custom_rounds(rest, tol, rounds),
                j2,
                c,
            ) ==> j1 == j2,
    decreases rounds,
{
    let cs = custom_rounds(rest, tol, rounds);
    if rest.len() == 0 {
        assert forall|c: Cell| !cells_of(rest).contains(c) by {
            if cells_of(rest).contains(c) {
                lemma_cell_source(rest, c);
            }
        }
    } else if rounds == 0 {
        assert forall|c: Cell|
            (exists|j: int| in_custom_batch(cs, j, c)) <==> cells_of(rest).contains(c) by {
            if cells_of(rest).contains(c) {
                assert(in_custom_batch(cs, 0, c));
            }
        }
    } else {
        let d = crate::cluster::dominant(crate::quantize::colors_of(rest), tol);
        let pn = |p: Pixel| near(p, d, tol);
        let pf = |p: Pixel| !near(p, d, tol);
        let close = rest.filter(pn);
        let far = rest.filter(pf);
        let tail = custom_rounds(far, tol, (rounds - 1) as nat);
        assert(cs == seq![CustomModel { color: d, cells: cells_of(close) }] + tail);
        lemma_unique_filter(rest, pf);
        lemma_rounds_partition(far, tol, (rounds - 1) as nat);
        assert forall|c: Cell|
            (exists|j: int| in_custom_batch(cs, j, c)) <==> cells_of(rest).contains(c) by {
            if exists|j: int| in_custom_batch(cs, j, c) {
                let j = choose|j: int| in_custom_batch(cs, j, c);
                if j == 0 {
                    let p = lemma_cell_source(close, c);
                    lemma_filter_kept(rest, pn, p);
                    lemma_cell_listed(rest, p);
                } else {
                    assert(in_custom_batch(tail, j - 1, c));
                    let p = lemma_cell_source(far, c);
                    lemma_filter_kept(rest, pf, p);
                    lemma_cell_listed(rest, p);
                }
            }
            if cells_of(rest).contains(c) {
                let p = lemma_cell_source(rest, c);
                if near(p, d, tol) {
                    lemma_filter_keeps(rest, pn, p);
                    lemma_cell_listed(close, p);
                    assert(in_custom_batch(cs, 0, c));
                } else {
                    lemma_filter_keeps(rest, pf, p);
                    lemma_cell_listed(far, p);
                    let j = choose|j: int| in_custom_batch(tail, j, c);
                    assert(in_custom_batch(cs, j + 1, c));
                }
            }
        }
        assert forall|c: Cell, j1: int, j2: int|
            in_custom_batch(cs, j1, c) && in_custom_batch(cs, j2, c) implies j1 == j2 by {
            if j1 != j2 && (j1 == 0 || j2 == 0) {
                let j = if j1 == 0 {
                    j2
                } else {
                    j1
                };
                assert(in_custom_batch(tail, j - 1, c));
                let p = lemma_cell_source(close, c);
                let q = lemma_cell_source(far, c);
                lemma_filter_kept(rest, pn, p);
                lemma_filter_kept(rest, pf, q);
            } else if j1 != j2 {
                assert(in_custom_batch(tail, j1 - 1, c));
                assert(in_custom_batch(tail, j2 - 1, c));
            }
        }
    }
}

/// A preset batch holds exactly the cells of the foreground pixels assigned
/// to that preset.
proof fn lemma_preset_cell(fg: Seq<Pixel>, q: QuantizedModel, tol: Tolerance, limit: nat, k: int, c: Cell)
    requires
        0 <= k < PRESET_COUNT,
        q.presets.len() == PRESET_COUNT,
        q.presets[k] == cells_of(fg.filter(|p: Pixel| takes_preset(p, tol, limit, k))),
        in_preset_batch(q, k, c),
    ensures
        exists|p: Pixel| #[trigger] fg.contains(p) && p.cell == c && takes_preset(p, tol, limit, k),
{
    let pred = |p: Pixel| takes_preset(p, tol, limit, k);
    let p = lemma_cell_source(fg.filter(pred), c);
    lemma_filter_kept(fg, pred, p);
}

/// The batches of a frame partition its foreground: a cell lies in some batch
/// exactly when a foreground pixel occupies it, and no cell lies in two
/// batches (among the presets, among the custom colours, or across both).
pub proof fn lemma_batches_partition_foreground(pixels: Seq<Pixel>, tol: Tolerance, limit: nat)
    requires
        cells_unique(pixels),
    ensures
        ({
            let q = quantize_model(pixels, tol, limit);
            let fg = foreground(pixels, q.background, tol);
            &&& forall|c: Cell| in_some_batch(q, c) <==> cells_of(fg).contains(c)
            &&& forall|c: Cell, k1: int, k2: int|
                in_preset_batch(q, k1, c) && in_preset_batch(q, k2, c) ==> k1 == k2
            &&& forall|c: Cell, j1: int, j2: int|
                in_custom_batch(q.customs, j1, c) && in_custom_batch(q.customs, j2, c) ==> j1 == j2
            &&& forall|c: Cell, k: int, j: int|
                !(in_preset_batch(q, k, c) && in_custom_batch(q.customs, j, c))
        }),
{
    let q = quantize_model(pixels, tol, limit);
    let bg = background(pixels, tol);
    let fg = foreground(pixels, bg, tol);
    let pl = |p: Pixel| left_for_custom(p, tol, limit);
    let rest = leftover(fg, tol, limit);
    lemma_unique_filter(pixels, |p: Pixel| is_foreground(p, bg, tol));
    lemma_unique_filter(fg, pl);
    if limit != 0 {
        lemma_rounds_partition(rest, tol, (limit - 1) as nat);
    }
    assert forall|k: int| 0 <= k < PRESET_COUNT implies #[trigger] q.presets[k] == cells_of(
        fg.filter(|p: Pixel| takes_preset(p, tol, limit, k)),
    ) by {}
    assert forall|c: Cell| in_some_batch(q, c) <==> cells_of(fg).contains(c) by {
        if exists|k: int| in_preset_batch(q, k, c) {
            let k = choose|k: int| in_preset_batch(q, k, c);
            lemma_preset_cell(fg, q, tol, limit, k, c);
            let p = choose|p: Pixel| #[trigger] fg.contains(p) && p.cell == c && takes_preset(p, tol, limit, k);
            lemma_cell_listed(fg, p);
        }
        if exists|j: int| in_custom_batch(q.customs, j, c) {
            let j = choose|j: int| in_custom_batch(q.customs, j, c);
            assert(limit != 0);
            assert(cells_of(rest).contains(c));
            let p = lemma_cell_source(rest, c);
            lemma_filter_kept(fg, pl, p);
            lemma_cell_listed(fg, p);
            assert(cells_of(fg).contains(c));
        }
        if cells_of(fg).contains(c) {
            let p = lemma_cell_source(fg, c);
            let k = nearest_preset(color_of(p));
            crate::palette::lemma_first_nearest_exists(crate::palette::presets(), color_of(p));
            if limit == 0 || preset_matched(color_of(p), tol) {
                let pred = |x: Pixel| takes_preset(x, tol, limit, k);
                lemma_filter_keeps(fg, pred, p);
                lemma_cell_listed(fg.filter(pred), p);
                assert(in_preset_batch(q, k, c));
                assert(in_some_batch(q, c));
            } else {
                lemma_filter_keeps(fg, pl, p);
                lemma_cell_listed(rest, p);
                assert(q.customs == custom_rounds(rest, tol, (limit - 1) as nat));
                assert(cells_of(rest).contains(c));
                assert(exists|j: int| in_custom_batch(q.customs, j, c));
                assert(in_some_batch(q, c));
            }
        }
    }
    assert forall|c: Cell, k1: int, k2: int|
        in_preset_batch(q, k1, c) && in_preset_batch(q, k2, c) implies k1 == k2 by {
        lemma_preset_cell(fg, q, tol, limit, k1, c);
        lemma_preset_cell(fg, q, tol, limit, k2, c);
        let p1 = choose|p: Pixel| #[trigger] fg.contains(p) && p.cell == c && takes_preset(p, tol, limit, k1);
        let p2 = choose|p: Pixel| #[trigger] fg.contains(p) && p.cell == c && takes_preset(p, tol, limit, k2);
        assert(fg.contains(p1) && fg.contains(p2));
    }
    assert forall|c: Cell, k: int, j: int| !(in_preset_batch(q, k, c) && in_custom_batch(q.customs, j, c)) by {
        if in_preset_batch(q, k, c) && in_custom_batch(q.customs, j, c) {
            lemma_preset_cell(fg, q, tol, limit, k, c);
            let p1 = choose|p: Pixel| #[trigger] fg.contains(p) && p.cell == c && takes_preset(p, tol, limit, k);
            let p2 = lemma_cell_source(rest, c);
            lemma_filter_kept(fg, pl, p2);
            assert(fg.contains(p1) && fg.contains(p2));
        }
    }
}

/// Every batch of a dominant-colour round holds only cells of pixels within
/// tolerance of its colour.
proof fn lemma_rounds_within(rest: Seq<Pixel>, tol: Tolerance, rounds: nat)
    ensures
        forall|j: int, c: Cell|
            0 <= j < rounds && #[trigger] in_custom_batch(custom_rounds(rest, tol, rounds), j, c) ==> exists|
                p: Pixel,
            |
                #![trigger rest.contains(p)]
                rest.contains(p) && p.cell == c && within(
                    color_of(p),
                    custom_rounds(rest, tol, rounds)[j].color,
                    tol,
                ),
    decreases rounds,
{
    let cs = custom_rounds(rest, tol, rounds);
    if rest.len() > 0 && rounds > 0 {
        let d = crate::cluster::dominant(crate::quantize::colors_of(rest), tol);
        let pn = |p: Pixel| near(p, d, tol);
        let pf = |p: Pixel| !near(p, d, tol);
        let close = rest.filter(pn);
        let far = rest.filter(pf);
        let tail = custom_rounds(far, tol, (rounds - 1) as nat);
        assert(cs == seq![CustomModel { color: d, cells: cells_of(close) }] + tail);
        lemma_rounds_within(far, tol, (rounds - 1) as nat);
        assert forall|j: int, c: Cell|
            0 <= j < rounds && #[trigger] in_custom_batch(cs, j, c) implies exists|p: Pixel|
                #![trigger rest.contains(p)]
                rest.contains(p) && p.cell == c && within(color_of(p), cs[j].color, tol) by {
            if j == 0 {
                let p = lemma_cell_source(close, c);
                lemma_filter_kept(rest, pn, p);
            } else {
                assert(in_custom_batch(tail, j - 1, c));
                assert(cs[j] == tail[j - 1]);
                let p = choose|p: Pixel|
                    #![trigger far.contains(p)]
                    far.contains(p) && p.cell == c && within(color_of(p), tail[j - 1].color, tol);
                lemma_filter_kept(rest, pf, p);
            }
        }
    }
}

/// Each batch keeps the rule that formed it: a preset batch holds cells of
/// foreground pixels whose nearest preset it is, and, when custom colours are
/// allowed, that preset is within tolerance of them; each custom batch but the
/// final overflow bucket holds cells of pixels within tolerance of its colour.
pub proof fn lemma_batches_within_tolerance(pixels: Seq<Pixel>, tol: Tolerance, limit: nat)
    ensures
        ({
            let q = quantize_model(pixels, tol, limit);
            let fg = foreground(pixels, q.background, tol);
            &&& forall|k: int, c: Cell|
                #[trigger] in_preset_batch(q, k, c) ==> exists|p: Pixel|
                    #![trigger fg.contains(p)]
                    fg.contains(p) && p.cell == c && nearest_preset(color_of(p)) == k && (limit != 0
                        ==> within(color_of(p), preset_color(k), tol))
            &&& forall|j: int, c: Cell|
                j + 1 < limit && #[trigger] in_custom_batch(q.customs, j, c) ==> exists|p: Pixel|
                    #![trigger fg.contains(p)]
                    fg.contains(p) && p.cell == c && within(color_of(p), q.customs[j].color, tol)
        }),
{
    let q = quantize_model(pixels, tol, limit);
    let fg = foreground(pixels, q.background, tol);
    let pl = |p: Pixel| left_for_custom(p, tol, limit);
    let rest = leftover(fg, tol, limit);
    assert forall|k: int, c: Cell| #[trigger] in_preset_batch(q, k, c) implies exists|p: Pixel|
        #![trigger fg.contains(p)]
        fg.contains(p) && p.cell == c && nearest_preset(color_of(p)) == k && (limit != 0 ==> within(
            color_of(p),
            preset_color(k),
            tol,
        )) by {
        assert(q.presets[k] == cells_of(fg.filter(|p: Pixel| takes_preset(p, tol, limit, k))));
        lemma_preset_cell(fg, q, tol, limit, k, c);
    }
    if limit != 0 {
        lemma_rounds_within(rest, tol, (limit - 1) as nat);
        assert forall|j: int, c: Cell|
            j + 1 < limit && #[trigger] in_custom_batch(q.customs, j, c) implies exists|p: Pixel|
                #![trigger fg.contains(p)]
                fg.contains(p) && p.cell == c && within(color_of(p), q.customs[j].color, tol) by {
            let p = choose|p: Pixel|
                #![trigger rest.contains(p)]
                rest.contains(p) && p.cell == c && within(color_of(p), q.customs[j].color, tol);
            lemma_filter_kept(fg, pl, p);
        }
    } else {
        assert forall|j: int, c: Cell|
            j + 1 < limit && #[trigger] in_custom_batch(q.customs, j, c) implies exists|p: Pixel|
                #![trigger fg.contains(p)]
                fg.contains(p) && p.cell == c && within(color_of(p), q.customs[j].color, tol) by {}
    }
}

/// The cells of a row-major grid are pairwise distinct.
pub proof fn lemma_grid_cells_unique(width: u32, height: u32, data: Seq<u8>)
    ensures
        cells_unique(grid_pixels_model(width, height, data)),
{
    let s = grid_pixels_model(width, height, data);
    assert forall|p: Pixel, q: Pixel|
        #![trigger s.contains(p), s.contains(q)]
        s.contains(p) && s.contains(q) && p.cell == q.cell implies p == q by {
        let i = choose|i: int| 0 <= i < s.len() && s[i] == p;
        let j = choose|j: int| 0 <= j < s.len() && s[j] == q;
        let w = width as int;
        assert(w > 0) by (nonlinear_arith)
            requires
                0 <= i < width * height,
                w == width,
        ;
        assert(i / w < height && j / w < height) by (nonlinear_arith)
            requires
                0 <= i < width * height,
                0 <= j < width * height,
                w == width,
                w > 0,
        ;
        assert(0 <= i % w < w && 0 <= j % w < w && i / w >= 0 && j / w >= 0) by (nonlinear_arith)
            requires
                w > 0,
                i >= 0,
                j >= 0,
        ;
        assert(p == pixel_at(width, data, i));
        assert(q == pixel_at(width, data, j));
        assert(i % w == j % w && i / w == j / w);
        vstd::arithmetic::div_mod::lemma_fundamental_div_mod(i, w);
        vstd::arithmetic::div_mod::lemma_fundamental_div_mod(j, w);
    }
}

/// Compiling the same pixels twice, with the same grid and parameters, gives
/// the same instruction stream.
pub proof fn lemma_compile_deterministic(
    a: Seq<Pixel>,
    b: Seq<Pixel>,
    width: u32,
    height: u32,
    tol: Tolerance,
    limit: nat,
)
    requires
        a == b,
    ensures
        compile_model(a, width, height, tol, limit) == compile_model(b, width, height, tol, limit),
{
}

/// Two animation frames with the same dimensions and bytes compile, each from
/// scratch, to equal instruction streams.
pub proof fn lemma_equal_frames_equal_streams(
    f: RgbaImage,
    g: RgbaImage,
    width: u32,
    height: u32,
    tol: Tolerance,
    limit: nat,
)
    requires
        f.width == g.width,
        f.height == g.height,
        f.data@ == g.data@,
    ensures
        compile_frame_model(f, width, height, tol, limit) == compile_frame_model(
            g,
            width,
            height,
            tol,
            limit,
        ),
{
}

} // verus!
