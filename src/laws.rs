use vstd::prelude::*;
use crate::cells::square_set;
use crate::geometry::{step, Direction, Vec2};
use crate::tracer::{
    cell_count, fits_i32, leftmost, outline, scale_factor, scaled, start_corner, step_budget, traced, turn,
    walk, OutlineError,
};

verus! {

/// `q` lies strictly beyond `p` on the ray that leaves `p` heading `d`.
pub open spec fn ahead(p: (int, int), d: Direction, q: (int, int)) -> bool {
    match d {
        Direction::Up => q.0 == p.0 && q.1 < p.1,
        Direction::Down => q.0 == p.0 && q.1 > p.1,
        Direction::Left => q.1 == p.1 && q.0 < p.0,
        Direction::Right => q.1 == p.1 && q.0 > p.0,
    }
}

pub open spec fn no_repeats(vs: Seq<(int, int)>) -> bool {
    forall|i: int| 0 <= i < vs.len() - 1 ==> #[trigger] vs[i] != vs[i + 1]
}

/// Read as a closed loop, `vs` never repeats a vertex at once: neither two
/// neighbours in the list, nor the last and the first.
pub open spec fn loop_no_repeats(vs: Seq<(int, int)>) -> bool {
    &&& no_repeats(vs)
    &&& vs.len() >= 2 ==> vs.last() != vs[0]
}

proof fn lemma_scale_keeps_distinct(p: (int, int), q: (int, int), k: int)
    requires
        k >= 1,
        p != q,
    ensures
        (k * p.0, k * p.1) != (k * q.0, k * q.1),
{
    if k * p.0 == k * q.0 && k * p.1 == k * q.1 {
        assert(p.0 == q.0) by (nonlinear_arith)
            requires k >= 1, k * p.0 == k * q.0;
        assert(p.1 == q.1) by (nonlinear_arith)
            requires k >= 1, k * p.1 == k * q.1;
    }
}

proof fn lemma_walk_shape(
    f: Set<(int, int)>,
    start: (int, int),
    pos: (int, int),
    d: Direction,
    fuel: nat,
)
    ensures
        no_repeats(walk(f, start, pos, d, fuel)),
        walk(f, start, pos, d, fuel).len() > 0 ==> ahead(pos, d, walk(f, start, pos, d, fuel)[0]),
        !walk(f, start, pos, d, fuel).contains(start),
    decreases fuel,
{
    if fuel > 0 {
        let next = step(pos, d);
        let nd = turn(f, d, next);
        if next != start {
            let rest = walk(f, start, next, nd, (fuel - 1) as nat);
            lemma_walk_shape(f, start, next, nd, (fuel - 1) as nat);
            let w = walk(f, start, pos, d, fuel);
            if nd != d {
                assert(w == seq![next] + rest);
                if w.contains(start) {
                    let i = choose|i: int| 0 <= i < w.len() && w[i] == start;
                    assert(rest[i - 1] == start);
                }
                assert forall|i: int| 0 <= i < w.len() - 1 implies #[trigger] w[i] != w[i + 1] by {
                    if i > 0 {
                        assert(w[i] == rest[i - 1] && w[i + 1] == rest[i]);
                    } else {
                        assert(ahead(next, nd, rest[0]));
                    }
                }
            } else {
                assert(w =~= rest);
            }
        }
    }
}

/// No two consecutive vertices of an outline are equal, the last and the
/// first included, at any scale of at least 1: a vertex is emitted only
/// where the walk turns, between two turns the walk moves, and the start
/// corner is not emitted again.
pub proof fn lemma_no_repeated_vertex(sq: Seq<Vec2>, k: int)
    requires
        k >= 1,
    ensures
        loop_no_repeats(outline(sq)),
        loop_no_repeats(scaled(outline(sq), k)),
{
    let o = outline(sq);
    if sq.len() > 0 {
        let s = start_corner(sq);
        let f = square_set(sq);
        let w = walk(f, s, s, Direction::Down, step_budget(sq));
        lemma_walk_shape(f, s, s, Direction::Down, step_budget(sq));
        assert(o == seq![s] + w);
        assert forall|i: int| 0 <= i < o.len() - 1 implies #[trigger] o[i] != o[i + 1] by {
            if i > 0 {
                assert(o[i] == w[i - 1] && o[i + 1] == w[i]);
            }
        }
        if o.len() >= 2 {
            assert(o.last() == w[w.len() - 1]);
            assert(w.contains(o.last()));
        }
    }
    let so = scaled(o, k);
    assert forall|i: int| 0 <= i < so.len() - 1 implies #[trigger] so[i] != so[i + 1] by {
        lemma_scale_keeps_distinct(o[i], o[i + 1], k);
    }
    if so.len() >= 2 {
        lemma_scale_keeps_distinct(o.last(), o[0], k);
    }
}

/// A single square yields its four corners, walked down the left side
/// first, each multiplied by the scale.
pub proof fn lemma_single_square(v: Vec2, k: int)
    ensures
        outline(seq![v]) == seq![
            (v.x as int, v.y as int),
            (v.x as int, v.y + 1),
            (v.x + 1, v.y + 1),
            (v.x + 1, v.y as int),
        ],
        scaled(outline(seq![v]), k) == seq![
            (k * v.x, k * v.y),
            (k * v.x, k * (v.y + 1)),
            (k * (v.x + 1), k * (v.y + 1)),
            (k * (v.x + 1), k * v.y),
        ],
{
    let sq = seq![v];
    let f = square_set(sq);
    let (x, y) = (v.x as int, v.y as int);
    assert forall|p: (int, int)| #[trigger] f.contains(p) <==> p == (x, y) by {
        if p == (x, y) {
            assert(sq[0]@ == p);
        }
    }
    assert(f =~= set![(x, y)]);
    assert(cell_count(sq) == 1);
    assert(start_corner(sq) == (x, y));
    let s = (x, y);
    assert(walk(f, s, (x + 1, y), Direction::Left, 1) == Seq::<(int, int)>::empty());
    assert(walk(f, s, (x + 1, y + 1), Direction::Up, 2) =~= seq![(x + 1, y)]);
    assert(walk(f, s, (x, y + 1), Direction::Right, 3) =~= seq![(x + 1, y + 1), (x + 1, y)]);
    assert(walk(f, s, s, Direction::Down, 4) =~= seq![(x, y + 1), (x + 1, y + 1), (x + 1, y)]);
    assert(outline(sq) =~= seq![(x, y), (x, y + 1), (x + 1, y + 1), (x + 1, y)]);
    assert(scaled(outline(sq), k) =~= seq![
        (k * x, k * y),
        (k * x, k * (y + 1)),
        (k * (x + 1), k * (y + 1)),
        (k * (x + 1), k * y),
    ]);
}

/// An absent scale traces exactly as a scale of 1.
pub proof fn lemma_default_scale(sq: Seq<Vec2>)
    ensures
        traced(sq, Option::None) == traced(sq, Some(1i32)),
{
}

/// Tracing at scale `k` multiplies every vertex of the trace at scale 1 by
/// `k`, and fails only where such a product leaves `i32`.
pub proof fn lemma_scale_multiplies(sq: Seq<Vec2>, k: i32)
    requires
        k >= 1,
        traced(sq, Some(1i32)) is Ok,
    ensures
        ({
            let unit = traced(sq, Some(1i32))->Ok_0;
            traced(sq, Some(k)) == if fits_i32(scaled(unit, k as int)) {
                Ok::<Seq<(int, int)>, OutlineError>(scaled(unit, k as int))
            } else {
                Err(OutlineError::OutOfRange)
            }
        }),
{
    if sq.len() > 0 {
        let o = outline(sq);
        assert(scaled(scaled(o, 1), k as int) =~= scaled(o, k as int));
    } else {
        assert(scaled(Seq::<(int, int)>::empty(), k as int) =~= Seq::empty());
    }
}

/// Two listings of the same cells that start their walks at the same
/// corner give the same trace.
pub proof fn lemma_same_start_same_trace(a: Seq<Vec2>, b: Seq<Vec2>, scale: Option<i32>)
    requires
        square_set(a) == square_set(b),
        a.len() > 0 <==> b.len() > 0,
        a.len() > 0 ==> start_corner(a) == start_corner(b),
    ensures
        traced(a, scale) == traced(b, scale),
{
}

/// Listing the same cells in another order, or with repeats, gives the
/// same trace as long as the first square stays the same.
pub proof fn lemma_order_independent(a: Seq<Vec2>, b: Seq<Vec2>, scale: Option<i32>)
    requires
        square_set(a) == square_set(b),
        a.len() > 0 <==> b.len() > 0,
        a.len() > 0 ==> a[0] == b[0],
    ensures
        traced(a, scale) == traced(b, scale),
{
    lemma_same_start_same_trace(a, b, scale);
}

/// The cells `(x, y)` with `lo <= x <= hi` are all filled.
pub open spec fn row_filled(f: Set<(int, int)>, y: int, lo: int, hi: int) -> bool {
    forall|x: int| lo <= x <= hi ==> #[trigger] f.contains((x, y))
}

proof fn lemma_leftmost_shape(f: Set<(int, int)>, p: (int, int), m: nat)
    requires
        f.contains(p),
    ensures
        leftmost(f, p, m).1 == p.1,
        p.0 - m <= leftmost(f, p, m).0 <= p.0,
        row_filled(f, p.1, leftmost(f, p, m).0, p.0),
        f.contains((leftmost(f, p, m).0 - 1, p.1)) ==> leftmost(f, p, m).0 == p.0 - m,
    decreases m,
{
    if m > 0 && f.contains((p.0 - 1, p.1)) {
        lemma_leftmost_shape(f, (p.0 - 1, p.1), (m - 1) as nat);
    }
}

proof fn lemma_row_len(f: Set<(int, int)>, y: int, lo: int, hi: int)
    requires
        f.finite(),
        lo <= hi,
        row_filled(f, y, lo, hi),
    ensures
        f.len() >= hi - lo + 1,
{
    let xs = vstd::set_lib::set_int_range(lo, hi + 1);
    vstd::set_lib::lemma_int_range(lo, hi + 1);
    let g = |x: int| (x, y);
    let row = xs.map(g);
    assert(vstd::relations::injective_on(g, xs));
    vstd::set_lib::lemma_map_size(xs, row, g);
    assert forall|q: (int, int)| #[trigger] row.contains(q) implies f.contains(q) by {
        let x = choose|x: int| xs.contains(x) && #[trigger] g(x) == q;
    }
    vstd::set_lib::lemma_len_subset(row, f);
}

/// With fuel of at least the number of cells, the move left from a filled
/// cell stops at the left end of its run.
proof fn lemma_leftmost_settles(f: Set<(int, int)>, p: (int, int), m: nat)
    requires
        f.finite(),
        f.contains(p),
        m >= f.len(),
    ensures
        !f.contains((leftmost(f, p, m).0 - 1, p.1)),
{
    let r = leftmost(f, p, m);
    lemma_leftmost_shape(f, p, m);
    if f.contains((r.0 - 1, p.1)) {
        assert(row_filled(f, p.1, r.0 - 1, p.0));
        lemma_row_len(f, p.1, r.0 - 1, p.0);
    }
}

/// Two listings of the same cells whose first squares lie in one row,
/// joined by filled cells, give the same trace: the walk starts at the left
/// end of that run either way.
pub proof fn lemma_same_run_same_trace(a: Seq<Vec2>, b: Seq<Vec2>, scale: Option<i32>)
    requires
        square_set(a) == square_set(b),
        a.len() > 0,
        b.len() > 0,
        a[0].y == b[0].y,
        if b[0].x <= a[0].x {
            row_filled(square_set(a), a[0].y as int, b[0].x as int, a[0].x as int)
        } else {
            row_filled(square_set(a), a[0].y as int, a[0].x as int, b[0].x as int)
        },
    ensures
        traced(a, scale) == traced(b, scale),
{
    let f = square_set(a);
    let n = cell_count(a);
    let y = a[0].y as int;
    crate::cells::lemma_square_set_finite(a);
    assert(f.contains(a[0]@));
    assert(f.contains(b[0]@));
    let ra = leftmost(f, a[0]@, n);
    let rb = leftmost(f, b[0]@, n);
    lemma_leftmost_shape(f, a[0]@, n);
    lemma_leftmost_shape(f, b[0]@, n);
    lemma_leftmost_settles(f, a[0]@, n);
    lemma_leftmost_settles(f, b[0]@, n);
    let (lo, hi) = if b[0].x <= a[0].x { (b[0].x as int, a[0].x as int) } else { (a[0].x as int, b[0].x as int) };
    assert(row_filled(f, y, lo, hi));
    if ra.0 < rb.0 {
        assert(f.contains((rb.0 - 1, y)));
    } else if rb.0 < ra.0 {
        assert(f.contains((ra.0 - 1, y)));
    }
    assert(start_corner(a) == start_corner(b));
    lemma_same_start_same_trace(a, b, scale);
}

/// No squares give no vertices, whatever the scale.
pub proof fn lemma_empty(scale: Option<i32>)
    ensures
        traced(Seq::empty(), scale) == Ok::<Seq<(int, int)>, OutlineError>(Seq::empty()),
{
}

} // verus!
