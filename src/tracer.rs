use vstd::prelude::*;
use crate::cells::{in_i32, square_set, FilledCells};
use crate::geometry::{step, Direction, Vec2};

verus! {

/// Why no outline could be produced.
#[derive(Debug, Clone, Copy, PartialEq, Eq, Structural)]
pub enum OutlineError {
    /// A token of the square list is not an `i32`.
    InvalidNumber,
    /// The square list holds an odd count of numbers.
    UnpairedNumber,
    /// The scale factor is below 1.
    InvalidScale,
    /// A scaled vertex does not fit in `i32`.
    OutOfRange,
}

/// The direction taken at corner `p` after arriving there walking `d`,
/// read from the fill of the four cells that meet at `p`.
pub open spec fn turn(f: Set<(int, int)>, d: Direction, p: (int, int)) -> Direction {
    let up_left = f.contains((p.0 - 1, p.1 - 1));
    let up_right = f.contains((p.0, p.1 - 1));
    let down_left = f.contains((p.0 - 1, p.1));
    let down_right = f.contains(p);
    match d {
        Direction::Down => if down_left {
            Direction::Left
        } else if !down_right {
            Direction::Right
        } else {
            Direction::Down
        },
        Direction::Up => if up_right {
            Direction::Right
        } else if !up_left {
            Direction::Left
        } else {
            Direction::Up
        },
        Direction::Left => if up_left {
            Direction::Up
        } else if !down_left {
            Direction::Down
        } else {
            Direction::Left
        },
        Direction::Right => if down_right {
            Direction::Down
        } else if !up_right {
            Direction::Up
        } else {
            Direction::Right
        },
    }
}

/// The corners at which the walk turns, taking at most `fuel` steps from
/// corner `pos` heading `d`, and stopping on reaching `start`. The start
/// corner itself is not emitted again: the outline already begins there.
pub open spec fn walk(
    f: Set<(int, int)>,
    start: (int, int),
    pos: (int, int),
    d: Direction,
    fuel: nat,
) -> Seq<(int, int)>
    decreases fuel,
{
    if fuel == 0 {
        Seq::empty()
    } else {
        let next = step(pos, d);
        let nd = turn(f, d, next);
        if next == start {
            Seq::empty()
        } else if nd != d {
            seq![next] + walk(f, start, next, nd, (fuel - 1) as nat)
        } else {
            walk(f, start, next, nd, (fuel - 1) as nat)
        }
    }
}

/// The number of distinct cells that `sq` names.
pub open spec fn cell_count(sq: Seq<Vec2>) -> nat {
    square_set(sq).len()
}

/// The cell reached from `p` by moving left while the cell to the left is
/// filled, at most `fuel` times.
pub open spec fn leftmost(f: Set<(int, int)>, p: (int, int), fuel: nat) -> (int, int)
    decreases fuel,
{
    if fuel > 0 && f.contains((p.0 - 1, p.1)) {
        leftmost(f, (p.0 - 1, p.1), (fuel - 1) as nat)
    } else {
        p
    }
}

/// Where the walk starts: the left end of the run of filled cells that
/// holds the first square, so that its left side lies on the boundary.
pub open spec fn start_corner(sq: Seq<Vec2>) -> (int, int) {
    leftmost(square_set(sq), sq[0]@, cell_count(sq))
}

/// The most steps a walk takes: four per cell. A walk that starts on the
/// boundary of a region without holes or pinches goes round it once, and
/// that boundary is at most four edges per cell long.
pub open spec fn step_budget(sq: Seq<Vec2>) -> nat {
    4 * cell_count(sq)
}

/// The unscaled outline of `sq`: its start corner, then every turn of the
/// walk that leaves it heading down.
pub open spec fn outline(sq: Seq<Vec2>) -> Seq<(int, int)> {
    if sq.len() == 0 {
        Seq::empty()
    } else {
        seq![start_corner(sq)] + walk(square_set(sq), start_corner(sq), start_corner(sq), Direction::Down, step_budget(sq))
    }
}

pub open spec fn scaled(vs: Seq<(int, int)>, k: int) -> Seq<(int, int)> {
    vs.map_values(|p: (int, int)| (k * p.0, k * p.1))
}

pub open spec fn fits_i32(vs: Seq<(int, int)>) -> bool {
    forall|i: int| 0 <= i < vs.len() ==> in_i32(#[trigger] vs[i])
}

pub open spec fn vertices_view(vs: Seq<Vec2>) -> Seq<(int, int)> {
    vs.map_values(|v: Vec2| v@)
}

pub open spec fn corners_view(cs: Seq<(i128, i128)>) -> Seq<(int, int)> {
    cs.map_values(|c: (i128, i128)| (c.0 as int, c.1 as int))
}

/// The scale that `scale` asks for: 1 when absent.
pub open spec fn scale_factor(scale: Option<i32>) -> int {
    match scale {
        Some(k) => k as int,
        Option::None => 1,
    }
}

/// Bound on the coordinates that a walk can reach.
pub open spec fn corner_bound() -> int {
    0x1_0000_0000_0000_0000_0000
}

fn advance(x: i128, y: i128, d: Direction) -> (r: (i128, i128))
    requires
        -corner_bound() < x < corner_bound(),
        -corner_bound() < y < corner_bound(),
    ensures
        (r.0 as int, r.1 as int) == step((x as int, y as int), d),
{
    match d {
        Direction::Up => (x, y - 1),
        Direction::Down => (x, y + 1),
        Direction::Left => (x - 1, y),
        Direction::Right => (x + 1, y),
    }
}

fn next_direction(cells: &FilledCells, d: Direction, x: i128, y: i128) -> (r: Direction)
    requires
        cells.wf(),
        -corner_bound() < x < corner_bound(),
        -corner_bound() < y < corner_bound(),
    ensures
        r == turn(cells.view(), d, (x as int, y as int)),
{
    match d {
        Direction::Down => if cells.contains(x - 1, y) {
            Direction::Left
        } else if !cells.contains(x, y) {
            Direction::Right
        } else {
            Direction::Down
        },
        Direction::Up => if cells.contains(x, y - 1) {
            Direction::Right
        } else if !cells.contains(x - 1, y - 1) {
            Direction::Left
        } else {
            Direction::Up
        },
        Direction::Left => if cells.contains(x - 1, y - 1) {
            Direction::Up
        } else if !cells.contains(x - 1, y) {
            Direction::Down
        } else {
            Direction::Left
        },
        Direction::Right => if cells.contains(x, y) {
            Direction::Down
        } else if !cells.contains(x, y - 1) {
            Direction::Up
        } else {
            Direction::Right
        },
    }
}

/// Walks the boundary of `squares` and returns its unscaled outline.
fn walk_outline(squares: &Vec<Vec2>) -> (r: Vec<(i128, i128)>)
    ensures
        corners_view(r@) == outline(squares@),
        forall|i: int|
            0 <= i < r.len() ==> -corner_bound() < (#[trigger] r@[i]).0 < corner_bound() && -corner_bound()
                < r@[i].1 < corner_bound(),
{
    if squares.len() == 0 {
        let r: Vec<(i128, i128)> = Vec::new();
        assert(corners_view(r@) =~= outline(squares@));
        return r;
    }
    let cells = FilledCells::from_squares(squares);
    let ghost f = square_set(squares@);
    let count = cells.count();
    let mut sx = squares[0].x as i128;
    let sy = squares[0].y as i128;
    let mut moves: usize = count;
    while moves > 0 && cells.contains(sx - 1, sy)
        invariant
            cells.wf(),
            cells.view() == f,
            count == f.len(),
            f == square_set(squares@),
            squares.len() > 0,
            moves <= count,
            sy == squares@[0].y,
            squares@[0].x - (count - moves) <= sx <= squares@[0].x,
            leftmost(f, (sx as int, sy as int), moves as nat) == start_corner(squares@),
        decreases moves,
    {
        sx = sx - 1;
        moves = moves - 1;
    }
    let ghost s = start_corner(squares@);
    assert(s == (sx as int, sy as int));
    let ghost fuel = step_budget(squares@);
    let ghost full = outline(squares@);
    let mut out: Vec<(i128, i128)> = vec![(sx, sy)];
    let mut x = sx;
    let mut y = sy;
    let mut dir = Direction::Down;
    let mut started = false;
    let mut remaining: u128 = 4 * (count as u128);
    assert(corners_view(out@) =~= seq![s]);
    while (!started || x != sx || y != sy) && remaining > 0
        invariant
            cells.wf(),
            cells.view() == f,
            s == (sx as int, sy as int),
            fuel == 4 * count,
            fuel <= 0x4_0000_0000_0000_0000,
            -0x2_0000_0000_0000_0000 <= sx <= i32::MAX,
            i32::MIN <= sy <= i32::MAX,
            full == seq![s] + walk(f, s, s, Direction::Down, fuel),
            remaining <= fuel,
            !started ==> x == sx && y == sy && dir == Direction::Down && remaining == fuel
                && corners_view(out@) == seq![s],
            full == corners_view(out@) + (if started && x == sx && y == sy {
                Seq::empty()
            } else {
                walk(f, s, (x as int, y as int), dir, remaining as nat)
            }),
            -(fuel - remaining) <= x - sx <= fuel - remaining,
            -(fuel - remaining) <= y - sy <= fuel - remaining,
            forall|i: int|
                0 <= i < out.len() ==> -corner_bound() < (#[trigger] out@[i]).0 < corner_bound()
                    && -corner_bound() < out@[i].1 < corner_bound(),
        decreases remaining,
    {
        let ghost rest = walk(f, s, (x as int, y as int), dir, remaining as nat);
        let ghost before = corners_view(out@);
        started = true;
        let prev = dir;
        let (nx, ny) = advance(x, y, prev);
        x = nx;
        y = ny;
        dir = next_direction(&cells, prev, x, y);
        if dir != prev && (x != sx || y != sy) {
            out.push((x, y));
        }
        remaining = remaining - 1;
        proof {
            let here = if dir != prev && (x != sx || y != sy) {
                seq![(x as int, y as int)]
            } else {
                Seq::<(int, int)>::empty()
            };
            assert(corners_view(out@) =~= before + here);
            let tail = if x == sx && y == sy {
                Seq::<(int, int)>::empty()
            } else {
                walk(f, s, (x as int, y as int), dir, remaining as nat)
            };
            assert(rest == here + tail);
            assert(before + (here + tail) =~= (before + here) + tail);
        }
    }
    out
}

/// Multiplies every corner by `k`, or fails when one leaves `i32`.
fn scale_corners(cs: &Vec<(i128, i128)>, k: i32) -> (r: Result<Vec<Vec2>, OutlineError>)
    requires
        k >= 1,
        forall|i: int|
            0 <= i < cs.len() ==> -corner_bound() < (#[trigger] cs@[i]).0 < corner_bound() && -corner_bound()
                < cs@[i].1 < corner_bound(),
    ensures
        fits_i32(scaled(corners_view(cs@), k as int)) ==> r is Ok && vertices_view(r->Ok_0@)
            == scaled(corners_view(cs@), k as int),
        !fits_i32(scaled(corners_view(cs@), k as int)) ==> r == Err::<Vec<Vec2>, OutlineError>(
            OutlineError::OutOfRange,
        ),
{
    let ghost want = scaled(corners_view(cs@), k as int);
    let mut out: Vec<Vec2> = Vec::new();
    let mut i: usize = 0;
    while i < cs.len()
        invariant
            i <= cs.len(),
            k >= 1,
            want == scaled(corners_view(cs@), k as int),
            want.len() == cs.len(),
            vertices_view(out@) == want.subrange(0, i as int),
            forall|j: int|
                0 <= j < cs.len() ==> -corner_bound() < (#[trigger] cs@[j]).0 < corner_bound()
                    && -corner_bound() < cs@[j].1 < corner_bound(),
        decreases cs.len() - i,
    {
        let (cx, cy) = cs[i];
        let kk = k as i128;
        assert(-0x1_0000_0000_0000_0000_0000_0000_0000 < kk * cx < 0x1_0000_0000_0000_0000_0000_0000_0000)
            by (nonlinear_arith)
            requires 1 <= kk <= 0x8000_0000, -corner_bound() < cx < corner_bound();
        assert(-0x1_0000_0000_0000_0000_0000_0000_0000 < kk * cy < 0x1_0000_0000_0000_0000_0000_0000_0000)
            by (nonlinear_arith)
            requires 1 <= kk <= 0x8000_0000, -corner_bound() < cy < corner_bound();
        let vx = kk * cx;
        let vy = kk * cy;
        assert(want[i as int] == (vx as int, vy as int));
        if vx < i32::MIN as i128 || vx > i32::MAX as i128 || vy < i32::MIN as i128 || vy
            > i32::MAX as i128 {
            assert(!in_i32(want[i as int]));
            return Err(OutlineError::OutOfRange);
        }
        let v = Vec2 { x: vx as i32, y: vy as i32 };
        let ghost before = out@;
        out.push(v);
        assert(v@ == want[i as int]);
        assert(before.len() == i) by {
            assert(vertices_view(before).len() == before.len());
        }
        assert(out@ == before.push(v));
        assert(vertices_view(out@).len() == i + 1);
        assert(vertices_view(out@)[i as int] == v@);
        assert forall|j: int| 0 <= j < i + 1 implies #[trigger] vertices_view(out@)[j] == want[j] by {
            if j < i {
                assert(vertices_view(before)[j] == want.subrange(0, i as int)[j]);
            }
        }
        assert(vertices_view(out@) =~= want.subrange(0, i + 1));
        i += 1;
    }
    assert(want.subrange(0, i as int) =~= want);
    Ok(out)
}

/// What tracing `sq` at `scale` gives: no vertices for no squares;
/// otherwise the outline multiplied by the scale, which must be at least 1
/// and keep every vertex within `i32`.
pub open spec fn traced(sq: Seq<Vec2>, scale: Option<i32>) -> Result<Seq<(int, int)>, OutlineError> {
    let k = scale_factor(scale);
    if sq.len() == 0 {
        Ok(Seq::empty())
    } else if k < 1 {
        Err(OutlineError::InvalidScale)
    } else if !fits_i32(scaled(outline(sq), k)) {
        Err(OutlineError::OutOfRange)
    } else {
        Ok(scaled(outline(sq), k))
    }
}

pub open spec fn result_view(r: Result<Vec<Vec2>, OutlineError>) -> Result<Seq<(int, int)>, OutlineError> {
    match r {
        Ok(v) => Ok(vertices_view(v@)),
        Err(e) => Err(e),
    }
}

/// The outline of the union of `squares`: the first square's top-left
/// corner, then every corner at which the boundary walk turns, each
/// multiplied by `scale` (1 when absent).
pub fn trace(squares: &Vec<Vec2>, scale: Option<i32>) -> (r: Result<Vec<Vec2>, OutlineError>)
    ensures
        result_view(r) == traced(squares@, scale),
{
    if squares.len() == 0 {
        let r: Vec<Vec2> = Vec::new();
        assert(vertices_view(r@) =~= Seq::empty());
        return Ok(r);
    }
    let k: i32 = match scale {
        Some(k) => k,
        None => 1,
    };
    if k < 1 {
        return Err(OutlineError::InvalidScale);
    }
    let corners = walk_outline(squares);
    scale_corners(&corners, k)
}

} // verus!
