use vstd::prelude::*;

use crate::board::Board;
use crate::board::is_square;
use crate::pattern::Pattern;
use crate::pattern::PatternPixel;

verus! {

// The reconciler: a pure comparison of a desired pattern, anchored at an
// origin, against the current board. It yields the cells needing
// correction, in the pattern's own order; out-of-bounds pixels are
// dropped.

/// One cell needing correction: an absolute board coordinate and the color
/// it should hold.
#[derive(Debug, Clone, Copy, PartialEq, Eq, Structural)]
pub struct Target {
    pub x: usize,
    pub y: usize,
    pub color: u8,
}

/// Whether the pixel's absolute coordinate lies on an `n`-sided board.
pub open spec fn pixel_in_bounds(p: PatternPixel, ox: int, oy: int, n: int) -> bool {
    &&& 0 <= ox + p.x < n
    &&& 0 <= oy + p.y < n
}

/// Whether the pixel is in bounds and the board disagrees with it.
pub open spec fn pixel_mismatch(b: Seq<Seq<u8>>, p: PatternPixel, ox: int, oy: int) -> bool {
    &&& pixel_in_bounds(p, ox, oy, b.len() as int)
    &&& b[oy + p.y][ox + p.x] != p.color
}

/// The ordered corrections for a pattern against a board: exactly the
/// in-bounds pixels whose board color differs from the desired one, in
/// pattern order.
pub open spec fn spec_reconcile(b: Seq<Seq<u8>>, pat: Seq<PatternPixel>, ox: int, oy: int) -> Seq<
    Target,
>
    decreases pat.len(),
{
    if pat.len() == 0 {
        Seq::empty()
    } else {
        let rest = spec_reconcile(b, pat.drop_last(), ox, oy);
        let p = pat.last();
        if pixel_mismatch(b, p, ox, oy) {
            rest.push(Target { x: (ox + p.x) as usize, y: (oy + p.y) as usize, color: p.color })
        } else {
            rest
        }
    }
}

/// Every correction points at a cell of the board.
pub proof fn lemma_reconcile_in_bounds(b: Seq<Seq<u8>>, pat: Seq<PatternPixel>, ox: int, oy: int)
    ensures
        forall|k: int|
            0 <= k < spec_reconcile(b, pat, ox, oy).len() ==> {
                &&& (#[trigger] spec_reconcile(b, pat, ox, oy)[k]).x < b.len()
                &&& spec_reconcile(b, pat, ox, oy)[k].y < b.len()
            },
    decreases pat.len(),
{
    if pat.len() > 0 {
        lemma_reconcile_in_bounds(b, pat.drop_last(), ox, oy);
        let rest = spec_reconcile(b, pat.drop_last(), ox, oy);
        let p = pat.last();
        let full = spec_reconcile(b, pat, ox, oy);
        if pixel_mismatch(b, p, ox, oy) {
            let t = Target { x: (ox + p.x) as usize, y: (oy + p.y) as usize, color: p.color };
            assert(full == rest.push(t));
            assert forall|k: int|
                0 <= k < full.len() implies (#[trigger] full[k]).x < b.len() && full[k].y
                < b.len() by {
                if k < rest.len() {
                    assert(full[k] == rest[k]);
                } else {
                    assert(full[k] == t);
                }
            }
        }
    }
}

/// Computes the ordered corrections for `pattern` anchored at
/// `(origin_x, origin_y)` against `board`: exactly the in-bounds pattern
/// pixels whose current board color differs from the desired color, in
/// pattern order. Out-of-bounds pixels are skipped.
pub fn reconcile(board: &Board, pattern: &Pattern, origin_x: i32, origin_y: i32) -> (r: Vec<Target>)
    requires
        board.wf(),
    ensures
        r@ == spec_reconcile(board@, pattern@, origin_x as int, origin_y as int),
        forall|k: int|
            0 <= k < r@.len() ==> (#[trigger] r@[k]).x < board.spec_side() && r@[k].y
                < board.spec_side(),
{
    let n = board.side();
    let ghost ox = origin_x as int;
    let ghost oy = origin_y as int;
    let mut out: Vec<Target> = Vec::new();
    let mut i: usize = 0;
    proof {
        assert(pattern@.take(0) =~= Seq::<PatternPixel>::empty());
    }
    while i < pattern.pattern.len()
        invariant
            board.wf(),
            n == board.spec_side(),
            ox == origin_x as int,
            oy == origin_y as int,
            i <= pattern@.len(),
            out@ == spec_reconcile(board@, pattern@.take(i as int), ox, oy),
            forall|k: int|
                0 <= k < out@.len() ==> (#[trigger] out@[k]).x < n && out@[k].y < n,
        decreases pattern@.len() - i,
    {
        let p = pattern.pattern[i];
        proof {
            assert(pattern@.take(i + 1).drop_last() =~= pattern@.take(i as int));
            assert(pattern@.take(i + 1).last() == pattern@[i as int]);
        }
        let tx: i64 = origin_x as i64 + p.x as i64;
        let ty: i64 = origin_y as i64 + p.y as i64;
        proof {
            assert(tx as int == ox + p.x && ty as int == oy + p.y);
        }
        if 0 <= tx && 0 <= ty {
            let ux = tx as usize;
            let uy = ty as usize;
            if ux < n && uy < n {
                proof {
                    assert(pixel_in_bounds(p, ox, oy, board@.len() as int));
                    assert((ox + p.x) as usize == ux && (oy + p.y) as usize == uy);
                }
                if board.get(ux, uy) != p.color {
                    proof {
                        assert(pixel_mismatch(board@, p, ox, oy));
                    }
                    out.push(Target { x: ux, y: uy, color: p.color });
                } else {
                    proof {
                        assert(!pixel_mismatch(board@, p, ox, oy));
                    }
                }
            } else {
                proof {
                    assert(!pixel_in_bounds(p, ox, oy, board@.len() as int));
                }
            }
        } else {
            proof {
                assert(!pixel_in_bounds(p, ox, oy, board@.len() as int));
            }
        }
        i += 1;
    }
    proof {
        assert(pattern@.take(pattern@.len() as int) =~= pattern@);
    }
    out
}

/// The board after the corrections are applied in order.
pub open spec fn apply_targets(b: Seq<Seq<u8>>, ts: Seq<Target>) -> Seq<Seq<u8>>
    decreases ts.len(),
{
    if ts.len() == 0 {
        b
    } else {
        let prev = apply_targets(b, ts.drop_last());
        let t = ts.last();
        prev.update(t.y as int, prev[t.y as int].update(t.x as int, t.color))
    }
}

/// The color the corrections leave on cell `(x, y)`, when any of them
/// writes it.
pub open spec fn written(ts: Seq<Target>, x: int, y: int) -> Option<u8>
    decreases ts.len(),
{
    if ts.len() == 0 {
        None
    } else if ts.last().x == x && ts.last().y == y {
        Some(ts.last().color)
    } else {
        written(ts.drop_last(), x, y)
    }
}

/// Applying corrections keeps the board's shape.
pub proof fn lemma_apply_shape(b: Seq<Seq<u8>>, ts: Seq<Target>)
    requires
        is_square(b),
        forall|k: int| 0 <= k < ts.len() ==> (#[trigger] ts[k]).x < b.len() && ts[k].y < b.len(),
    ensures
        apply_targets(b, ts).len() == b.len(),
        is_square(apply_targets(b, ts)),
    decreases ts.len(),
{
    if ts.len() > 0 {
        lemma_apply_shape(b, ts.drop_last());
    }
}

/// Each cell of the applied board holds its last correction, or its old
/// color when no correction wrote it.
pub proof fn lemma_apply_cell(b: Seq<Seq<u8>>, ts: Seq<Target>, x: int, y: int)
    requires
        is_square(b),
        forall|k: int| 0 <= k < ts.len() ==> (#[trigger] ts[k]).x < b.len() && ts[k].y < b.len(),
        0 <= x < b.len(),
        0 <= y < b.len(),
    ensures
        apply_targets(b, ts)[y][x] == match written(ts, x, y) {
            Some(c) => c,
            None => b[y][x],
        },
    decreases ts.len(),
{
    if ts.len() > 0 {
        lemma_apply_shape(b, ts.drop_last());
        lemma_apply_cell(b, ts.drop_last(), x, y);
    }
}

/// What the reconciler's corrections write on a cell: the color of some
/// mismatched pixel aimed there, and nothing when no pixel aimed there is
/// mismatched.
pub proof fn lemma_written_reconcile(
    b: Seq<Seq<u8>>,
    pat: Seq<PatternPixel>,
    ox: int,
    oy: int,
    x: int,
    y: int,
)
    requires
        b.len() <= usize::MAX,
        0 <= x < b.len(),
        0 <= y < b.len(),
    ensures
        match written(spec_reconcile(b, pat, ox, oy), x, y) {
            Some(c) => exists|k: int|
                0 <= k < pat.len() && pixel_mismatch(b, #[trigger] pat[k], ox, oy) && ox
                    + pat[k].x == x && oy + pat[k].y == y && pat[k].color == c,
            None => forall|k: int|
                0 <= k < pat.len() && ox + (#[trigger] pat[k]).x == x && oy + pat[k].y == y
                    ==> !pixel_mismatch(b, pat[k], ox, oy),
        },
    decreases pat.len(),
{
    if pat.len() > 0 {
        lemma_written_reconcile(b, pat.drop_last(), ox, oy, x, y);
        let p = pat.last();
        let rest = spec_reconcile(b, pat.drop_last(), ox, oy);
        let full = spec_reconcile(b, pat, ox, oy);
        if pixel_mismatch(b, p, ox, oy) {
            let t = Target { x: (ox + p.x) as usize, y: (oy + p.y) as usize, color: p.color };
            assert(full == rest.push(t));
            assert(full.last() == t);
            assert(t.x as int == ox + p.x && t.y as int == oy + p.y);
        } else {
            assert(full == rest);
        }
        if pixel_mismatch(b, p, ox, oy) && ox + p.x == x && oy + p.y == y {
            assert(full.last().x == x && full.last().y == y);
            assert(written(full, x, y) == Some(p.color));
            assert(pixel_mismatch(b, pat[pat.len() - 1], ox, oy) && ox + pat[pat.len() - 1].x == x
                && oy + pat[pat.len() - 1].y == y && pat[pat.len() - 1].color == p.color);
        } else {
            assert(written(full, x, y) == written(rest, x, y)) by {
                if pixel_mismatch(b, p, ox, oy) {
                    let t = Target {
                        x: (ox + p.x) as usize,
                        y: (oy + p.y) as usize,
                        color: p.color,
                    };
                    assert(full == rest.push(t));
                    assert(full.drop_last() =~= rest);
                    assert(!(t.x == x && t.y == y));
                }
            }
            match written(spec_reconcile(b, pat, ox, oy), x, y) {
                Some(c) => {
                    assert(written(rest, x, y) == Some(c));
                    let k = choose|k: int|
                        0 <= k < pat.drop_last().len() && pixel_mismatch(
                            b,
                            #[trigger] pat.drop_last()[k],
                            ox,
                            oy,
                        ) && ox + pat.drop_last()[k].x == x && oy + pat.drop_last()[k].y == y
                            && pat.drop_last()[k].color == c;
                    assert(pat[k] == pat.drop_last()[k]);
                    assert(0 <= k < pat.len() && pixel_mismatch(b, pat[k], ox, oy) && ox + pat[k].x
                        == x && oy + pat[k].y == y && pat[k].color == c);
                },
                None => {
                    assert forall|k: int|
                        0 <= k < pat.len() && ox + (#[trigger] pat[k]).x == x && oy + pat[k].y == y
                        implies !pixel_mismatch(b, pat[k], ox, oy) by {
                        if k < pat.len() - 1 {
                            assert(pat.drop_last()[k] == pat[k]);
                        }
                    }
                },
            }
        }
    }
}

/// A board with nothing to correct reconciles to nothing.
pub proof fn lemma_reconcile_empty(b: Seq<Seq<u8>>, pat: Seq<PatternPixel>, ox: int, oy: int)
    requires
        forall|k: int|
            0 <= k < pat.len() && pixel_in_bounds(#[trigger] pat[k], ox, oy, b.len() as int) ==> b[
                oy + pat[k].y][ox + pat[k].x] == pat[k].color,
    ensures
        spec_reconcile(b, pat, ox, oy) == Seq::<Target>::empty(),
    decreases pat.len(),
{
    if pat.len() > 0 {
        assert forall|k: int|
            0 <= k < pat.drop_last().len() && pixel_in_bounds(
                #[trigger] pat.drop_last()[k],
                ox,
                oy,
                b.len() as int,
            ) implies b[oy + pat.drop_last()[k].y][ox + pat.drop_last()[k].x]
            == pat.drop_last()[k].color by {
            assert(pat.drop_last()[k] == pat[k]);
        }
        lemma_reconcile_empty(b, pat.drop_last(), ox, oy);
        assert(!pixel_mismatch(b, pat.last(), ox, oy));
    }
}

/// Whether any two pattern pixels that land on one in-bounds cell agree on
/// its color.
pub open spec fn pattern_consistent(pat: Seq<PatternPixel>, ox: int, oy: int, n: int) -> bool {
    forall|i: int, j: int|
        0 <= i < pat.len() && 0 <= j < pat.len() && pixel_in_bounds(#[trigger] pat[i], ox, oy, n)
            && pixel_in_bounds(#[trigger] pat[j], ox, oy, n) && ox + pat[i].x == ox + pat[j].x && oy
            + pat[i].y == oy + pat[j].y ==> pat[i].color == pat[j].color
}

/// Law: reconciliation is idempotent. Applying every correction the
/// reconciler returns to the board, in order, leaves a board on which the
/// same pattern reconciles to nothing — provided no two pattern pixels
/// claim one cell with different colors.
pub proof fn lemma_reconcile_idempotent(b: Seq<Seq<u8>>, pat: Seq<PatternPixel>, ox: int, oy: int)
    requires
        b.len() <= usize::MAX,
        is_square(b),
        pattern_consistent(pat, ox, oy, b.len() as int),
    ensures
        spec_reconcile(apply_targets(b, spec_reconcile(b, pat, ox, oy)), pat, ox, oy) == Seq::<
            Target,
        >::empty(),
{
    let r = spec_reconcile(b, pat, ox, oy);
    lemma_reconcile_in_bounds(b, pat, ox, oy);
    let b2 = apply_targets(b, r);
    lemma_apply_shape(b, r);
    assert forall|k: int|
        0 <= k < pat.len() && pixel_in_bounds(#[trigger] pat[k], ox, oy, b2.len() as int) implies b2[
        oy + pat[k].y][ox + pat[k].x] == pat[k].color by {
        let p = pat[k];
        let x = ox + p.x;
        let y = oy + p.y;
        lemma_apply_cell(b, r, x, y);
        lemma_written_reconcile(b, pat, ox, oy, x, y);
        match written(r, x, y) {
            Some(c) => {
                let m = choose|m: int|
                    0 <= m < pat.len() && pixel_mismatch(b, #[trigger] pat[m], ox, oy) && ox
                        + pat[m].x == x && oy + pat[m].y == y && pat[m].color == c;
                assert(pat[m].color == p.color);
            },
            None => {
                assert(!pixel_mismatch(b, p, ox, oy));
            },
        }
    }
    lemma_reconcile_empty(b2, pat, ox, oy);
}

} // verus!
