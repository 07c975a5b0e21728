use vstd::prelude::*;

use crate::quantize::Cell;

verus! {

/// A horizontal stroke from `(x0, y0)` to `(x1, y1)` in grid cells; the
/// compiler draws each run from its right end to its left end.
#[derive(Clone, Copy, Debug, PartialEq, Eq, Structural)]
pub struct Segment {
    pub x0: u32,
    pub y0: u32,
    pub x1: u32,
    pub y1: u32,
}

pub open spec fn single(c: Cell) -> Segment {
    Segment { x0: c.x, y0: c.y, x1: c.x, y1: c.y }
}

/// `c` lies on the same row, one column left of the run's left end.
pub open spec fn extends(s: Segment, c: Cell) -> bool {
    c.y == s.y1 && c.x + 1 == s.x1
}

/// The runs finished so far and the run still open.
pub struct ScanModel {
    pub done: Seq<Segment>,
    pub open: Segment,
}

/// One greedy pass over `order`: a cell that extends the open run to the left
/// joins it; any other cell closes the run and opens a new one.
pub open spec fn scan(order: Seq<Cell>) -> ScanModel
    decreases order.len(),
{
    if order.len() <= 1 {
        ScanModel { done: Seq::empty(), open: single(order[0]) }
    } else {
        let m = scan(order.drop_last());
        let c = order.last();
        if extends(m.open, c) {
            ScanModel { done: m.done, open: Segment { x1: c.x, ..m.open } }
        } else {
            ScanModel { done: m.done.push(m.open), open: single(c) }
        }
    }
}

/// The strokes for one batch: its cells are visited from the last to the first.
pub open spec fn compile_lines_model(cells: Seq<Cell>) -> Seq<Segment> {
    if cells.len() == 0 {
        Seq::empty()
    } else {
        let m = scan(cells.reverse());
        m.done.push(m.open)
    }
}

/// Drawing `s` paints cell `c`.
pub open spec fn covers(s: Segment, c: Cell) -> bool {
    c.y == s.y0 && c.y == s.y1 && s.x1 <= c.x <= s.x0
}

pub open spec fn covered_by(segs: Seq<Segment>, c: Cell) -> bool {
    exists|k: int| 0 <= k < segs.len() && covers(#[trigger] segs[k], c)
}

/// Compresses a batch into horizontal runs, visiting its cells from the last to
/// the first and extending the open run while each cell is one column to the
/// left on the same row.
pub fn compile_lines(cells: &Vec<Cell>) -> (r: Vec<Segment>)
    ensures
        r@ == compile_lines_model(cells@),
{
    let n = cells.len();
    if n == 0 {
        return Vec::new();
    }
    let ghost order = cells@.reverse();
    let mut out: Vec<Segment> = Vec::new();
    let first = cells[n - 1];
    let mut open = Segment { x0: first.x, y0: first.y, x1: first.x, y1: first.y };
    let mut j: usize = 1;
    proof {
        assert(order.take(1).len() == 1);
    }
    while j < n
        invariant
            n == cells@.len(),
            order == cells@.reverse(),
            1 <= j <= n,
            scan(order.take(j as int)) == (ScanModel { done: out@, open: open }),
        decreases n - j,
    {
        let c = cells[n - 1 - j];
        proof {
            assert(order.take(j + 1).drop_last() =~= order.take(j as int));
            assert(order.take(j + 1).last() == c);
        }
        if c.y == open.y1 && open.x1 > 0 && c.x == open.x1 - 1 {
            open = Segment { x1: c.x, ..open };
        } else {
            out.push(open);
            open = Segment { x0: c.x, y0: c.y, x1: c.x, y1: c.y };
        }
        j = j + 1;
    }
    proof {
        assert(order.take(n as int) =~= order);
    }
    out.push(open);
    out
}

proof fn lemma_scan_covers(order: Seq<Cell>)
    requires
        order.len() >= 1,
    ensures
        scan(order).open.y0 == scan(order).open.y1,
        scan(order).open.x1 <= scan(order).open.x0,
        forall|d: Cell|
            covered_by(scan(order).done.push(scan(order).open), d) <==> order.contains(d),
    decreases order.len(),
{
    let m = scan(order);
    if order.len() == 1 {
        assert forall|d: Cell| covered_by(m.done.push(m.open), d) <==> order.contains(d) by {
            if covered_by(m.done.push(m.open), d) {
                assert(order[0] == d);
            }
            if order.contains(d) {
                assert(m.done.push(m.open)[0] == m.open);
            }
        }
    } else {
        let prev = order.drop_last();
        lemma_scan_covers(prev);
        let m0 = scan(prev);
        let old_segs = m0.done.push(m0.open);
        let segs = m.done.push(m.open);
        let c = order.last();
        assert forall|d: Cell| order.contains(d) <==> prev.contains(d) || d == c by {
            if order.contains(d) {
                let i = choose|i: int| 0 <= i < order.len() && order[i] == d;
                if i < order.len() - 1 {
                    assert(prev[i] == d);
                }
            }
            if prev.contains(d) {
                let i = choose|i: int| 0 <= i < prev.len() && prev[i] == d;
                assert(order[i] == d);
            }
            if d == c {
                assert(order[order.len() - 1] == d);
            }
        }
        assert forall|d: Cell| covered_by(segs, d) <==> covered_by(old_segs, d) || d == c by {
            if extends(m0.open, c) {
                assert(m.done == m0.done);
                if covered_by(segs, d) {
                    let k = choose|k: int| 0 <= k < segs.len() && covers(#[trigger] segs[k], d);
                    if k < m0.done.len() {
                        assert(old_segs[k] == segs[k]);
                    } else if d != c {
                        assert(old_segs[m0.done.len() as int] == m0.open);
                    }
                }
                if covered_by(old_segs, d) {
                    let k = choose|k: int| 0 <= k < old_segs.len() && covers(#[trigger] old_segs[k], d);
                    if k < m0.done.len() {
                        assert(segs[k] == old_segs[k]);
                    } else {
                        assert(segs[m.done.len() as int] == m.open);
                    }
                }
                if d == c {
                    assert(segs[m.done.len() as int] == m.open);
                }
            } else {
                if covered_by(segs, d) {
                    let k = choose|k: int| 0 <= k < segs.len() && covers(#[trigger] segs[k], d);
                    if k < m0.done.len() {
                        assert(old_segs[k] == segs[k]);
                    } else if k == m0.done.len() {
                        assert(old_segs[k] == m0.open);
                    }
                }
                if covered_by(old_segs, d) {
                    let k = choose|k: int| 0 <= k < old_segs.len() && covers(#[trigger] old_segs[k], d);
                    assert(segs[k] == old_segs[k]);
                }
                if d == c {
                    assert(segs[m.done.len() as int] == m.open);
                }
            }
        }
    }
}

/// Replaying the strokes compiled for a batch paints exactly the batch's
/// cells: every stroke is horizontal, and a cell is covered by some stroke if
/// and only if it belongs to the batch.
pub proof fn lemma_lines_cover_exactly(cells: Seq<Cell>)
    ensures
        forall|k: int|
            0 <= k < compile_lines_model(cells).len() ==> (#[trigger] compile_lines_model(cells)[k]).y0
                == compile_lines_model(cells)[k].y1,
        forall|d: Cell| covered_by(compile_lines_model(cells), d) <==> cells.contains(d),
{
    if cells.len() == 0 {
        assert forall|d: Cell| covered_by(compile_lines_model(cells), d) <==> cells.contains(d) by {
            if cells.contains(d) {
                let i = choose|i: int| 0 <= i < cells.len() && cells[i] == d;
            }
        }
    } else {
        let order = cells.reverse();
        lemma_scan_covers(order);
        lemma_scan_horizontal(order);
        assert forall|d: Cell| order.contains(d) <==> cells.contains(d) by {
            if order.contains(d) {
                let i = choose|i: int| 0 <= i < order.len() && order[i] == d;
                assert(cells[cells.len() - 1 - i] == d);
            }
            if cells.contains(d) {
                let i = choose|i: int| 0 <= i < cells.len() && cells[i] == d;
                assert(order[cells.len() - 1 - i] == d);
            }
        }
    }
}

proof fn lemma_scan_horizontal(order: Seq<Cell>)
    requires
        order.len() >= 1,
    ensures
        forall|k: int|
            0 <= k < scan(order).done.push(scan(order).open).len() ==> (#[trigger] scan(
                order,
            ).done.push(scan(order).open)[k]).y0 == scan(order).done.push(scan(order).open)[k].y1,
    decreases order.len(),
{
    if order.len() > 1 {
        lemma_scan_horizontal(order.drop_last());
        let m0 = scan(order.drop_last());
        assert(m0.done.push(m0.open)[m0.done.len() as int] == m0.open);
        assert forall|k: int| 0 <= k < m0.done.len() implies (#[trigger] m0.done[k]).y0 == m0.done[k].y1 by {
            assert(m0.done.push(m0.open)[k] == m0.done[k]);
        }
    }
}

} // verus!
