use std::collections::HashSet;
use vstd::prelude::*;
use crate::geometry::Vec2;

verus! {

broadcast use vstd::std_specs::hash::group_hash_axioms;

/// The set of cells named by the squares of `sq`.
pub open spec fn square_set(sq: Seq<Vec2>) -> Set<(int, int)> {
    Set::new(|p: (int, int)| exists|i: int| 0 <= i < sq.len() && #[trigger] sq[i]@ == p)
}

pub open spec fn in_i32(p: (int, int)) -> bool {
    i32::MIN <= p.0 <= i32::MAX && i32::MIN <= p.1 <= i32::MAX
}

/// The hash key of a cell whose coordinates fit in `i32`.
pub open spec fn cell_key(p: (int, int)) -> int {
    (p.0 + 0x8000_0000) * 0x1_0000_0000 + (p.1 + 0x8000_0000)
}

proof fn lemma_cell_key_injective(p: (int, int), q: (int, int))
    requires
        in_i32(p),
        in_i32(q),
        cell_key(p) == cell_key(q),
    ensures
        p == q,
{
    let a1 = p.0 + 0x8000_0000;
    let a2 = q.0 + 0x8000_0000;
    if a1 < a2 {
        assert(a1 * 0x1_0000_0000 + 0x1_0000_0000 <= a2 * 0x1_0000_0000) by (nonlinear_arith)
            requires a1 < a2;
    } else if a2 < a1 {
        assert(a2 * 0x1_0000_0000 + 0x1_0000_0000 <= a1 * 0x1_0000_0000) by (nonlinear_arith)
            requires a2 < a1;
    }
}

pub proof fn lemma_square_set_finite(sq: Seq<Vec2>)
    ensures
        square_set(sq).finite(),
{
    let all = sq.map_values(|v: Vec2| v@).to_set();
    assert(all.finite()) by {
        broadcast use vstd::seq_lib::seq_to_set_is_finite;
    }
    assert forall|p: (int, int)| #[trigger] square_set(sq).contains(p) implies all.contains(p) by {
        let i = choose|i: int| 0 <= i < sq.len() && #[trigger] sq[i]@ == p;
        assert(sq.map_values(|v: Vec2| v@)[i] == p);
    }
    vstd::set_lib::lemma_len_subset(square_set(sq), all);
}

/// Membership queries over a fixed set of filled cells.
pub struct FilledCells {
    keys: HashSet<u64>,
    cells: Ghost<Set<(int, int)>>,
}

impl FilledCells {
    pub closed spec fn wf(&self) -> bool {
        &&& self.cells@.finite()
        &&& forall|p: (int, int)| #[trigger] self.cells@.contains(p) ==> in_i32(p)
        &&& forall|k: u64|
            #[trigger] self.keys@.contains(k) <==> exists|p: (int, int)|
                #[trigger] self.cells@.contains(p) && cell_key(p) == k
    }

    pub closed spec fn view(&self) -> Set<(int, int)> {
        self.cells@
    }

    fn key(v: Vec2) -> (r: u64)
        ensures
            r == cell_key(v@),
    {
        let a = (v.x as i64 + 0x8000_0000) as u64;
        let b = (v.y as i64 + 0x8000_0000) as u64;
        assert(a * 0x1_0000_0000 + b <= u64::MAX) by (nonlinear_arith)
            requires a < 0x1_0000_0000, b < 0x1_0000_0000;
        a * 0x1_0000_0000 + b
    }

    /// The set of the cells of `squares`.
    pub fn from_squares(squares: &Vec<Vec2>) -> (r: FilledCells)
        ensures
            r.wf(),
            r.view() == square_set(squares@),
    {
        let mut keys: HashSet<u64> = HashSet::new();
        let mut i: usize = 0;
        while i < squares.len()
            invariant
                i <= squares.len(),
                forall|k: u64|
                    #[trigger] keys@.contains(k) <==> exists|j: int|
                        0 <= j < i && cell_key(#[trigger] squares@[j]@) == k,
            decreases squares.len() - i,
        {
            let k = Self::key(squares[i]);
            keys.insert(k);
            proof {
                assert forall|k2: u64|
                    #[trigger] keys@.contains(k2) <==> exists|j: int|
                        0 <= j < i + 1 && cell_key(#[trigger] squares@[j]@) == k2 by {
                    if k2 == k {
                        assert(cell_key(squares@[i as int]@) == k2);
                    }
                }
            }
            i += 1;
        }
        let ghost cells = square_set(squares@);
        proof {
            lemma_square_set_finite(squares@);
            assert forall|p: (int, int)| #[trigger] cells.contains(p) implies in_i32(p) by {
                let j = choose|j: int| 0 <= j < squares.len() && #[trigger] squares@[j]@ == p;
            }
            assert forall|k: u64| #[trigger] keys@.contains(k) <==> exists|p: (int, int)|
                #[trigger] cells.contains(p) && cell_key(p) == k by {
                if keys@.contains(k) {
                    let j = choose|j: int| 0 <= j < squares.len() && cell_key(#[trigger] squares@[j]@) == k;
                    let p = squares@[j]@;
                    assert(cells.contains(p));
                    assert(cell_key(p) == k);
                }
                if exists|p: (int, int)| #[trigger] cells.contains(p) && cell_key(p) == k {
                    let p = choose|p: (int, int)| #[trigger] cells.contains(p) && cell_key(p) == k;
                    let j = choose|j: int| 0 <= j < squares.len() && #[trigger] squares@[j]@ == p;
                    assert(cell_key(squares@[j]@) == k);
                }
            }
        }
        let r = FilledCells { keys, cells: Ghost(cells) };
        assert(r.cells@ == cells && r.keys@ == keys@);
        r
    }

    /// The number of filled cells.
    pub fn count(&self) -> (r: usize)
        requires
            self.wf(),
        ensures
            r == self.view().len(),
    {
        let ghost f = |p: (int, int)| cell_key(p) as u64;
        proof {
            assert forall|k: u64| #[trigger] self.keys@.contains(k) <==> self.cells@.map(f).contains(k) by {
                if self.keys@.contains(k) {
                    let p = choose|p: (int, int)| #[trigger] self.cells@.contains(p) && cell_key(p) == k;
                    assert(f(p) == k);
                }
                if self.cells@.map(f).contains(k) {
                    let p = choose|p: (int, int)| self.cells@.contains(p) && #[trigger] f(p) == k;
                    assert(0 <= cell_key(p) <= u64::MAX);
                }
            }
            assert(self.keys@ =~= self.cells@.map(f));
            assert forall|p: (int, int), q: (int, int)|
                self.cells@.contains(p) && self.cells@.contains(q) && #[trigger] f(p) == #[trigger] f(q)
                implies p == q by {
                lemma_cell_key_injective(p, q);
            }
            vstd::set_lib::lemma_map_size(self.cells@, self.keys@, f);
        }
        self.keys.len()
    }

    /// Whether the cell at `(x, y)` is filled.
    pub fn contains(&self, x: i128, y: i128) -> (r: bool)
        requires
            self.wf(),
        ensures
            r == self.view().contains((x as int, y as int)),
    {
        if x < i32::MIN as i128 || x > i32::MAX as i128 || y < i32::MIN as i128 || y
            > i32::MAX as i128 {
            return false;
        }
        let k = Self::key(Vec2 { x: x as i32, y: y as i32 });
        let r = self.keys.contains(&k);
        proof {
            let p = (x as int, y as int);
            if r {
                let q = choose|q: (int, int)| #[trigger] self.cells@.contains(q) && cell_key(q) == k;
                lemma_cell_key_injective(p, q);
            }
            if self.cells@.contains(p) {
                assert(self.keys@.contains(k));
            }
        }
        r
    }
}

} // verus!
