use vstd::prelude::*;

use crate::counting::count_pred;
use crate::grid::{grid_cells, grid_columns, grid_filled_with, grid_get, grid_rows, grid_set};
use crate::rng::rand_below;
use crate::{Cell, Outcome, GRID_SIZE, VIRUSES};

verus! {

// ---------------------------------------------------------------------------
// Board geometry
// ---------------------------------------------------------------------------
/// Row-major position of the cell at row `r`, column `c`.
pub open spec fn flat(r: int, c: int) -> int {
    r * (GRID_SIZE as int) + c
}

/// Whether `(r, c)` lies on the board.
pub open spec fn in_grid(r: int, c: int) -> bool {
    0 <= r < GRID_SIZE && 0 <= c < GRID_SIZE
}

/// Whether `(r2, c2)` is one of the up-to-8 board positions around
/// `(r1, c1)`: at Chebyshev distance exactly 1, clipped to the board.
pub open spec fn is_neighbour(r1: int, c1: int, r2: int, c2: int) -> bool {
    &&& in_grid(r2, c2)
    &&& !(r2 == r1 && c2 == c1)
    &&& -1 <= r2 - r1 <= 1
    &&& -1 <= c2 - c1 <= 1
}

/// The exclusion zone of a first click at `(er, ec)`: the clicked cell
/// and its neighbours, which seeding must leave free of hazards.
pub open spec fn in_zone(er: int, ec: int, r: int, c: int) -> bool {
    (r == er && c == ec) || is_neighbour(er, ec, r, c)
}

/// The exclusion zone, as a predicate on row-major positions.
pub open spec fn in_zone_at(er: int, ec: int, i: int) -> bool {
    &&& 0 <= i < GRID_SIZE * GRID_SIZE
    &&& in_zone(er, ec, i / (GRID_SIZE as int), i % (GRID_SIZE as int))
}

// ---------------------------------------------------------------------------
// Cell-state predicates and counts
// ---------------------------------------------------------------------------
/// Whether a cell carries a hazard: still hidden, or already detonated.
/// Detonation reveals a hazard but does not remove it.
pub open spec fn has_hazard(c: Cell) -> bool {
    c == Cell::Hidden(true) || c == Cell::Infected
}

pub open spec fn pred_hazard() -> spec_fn(int, Cell) -> bool {
    |i: int, c: Cell| has_hazard(c)
}

pub open spec fn pred_hidden() -> spec_fn(int, Cell) -> bool {
    |i: int, c: Cell| c is Hidden
}

pub open spec fn pred_hidden_true() -> spec_fn(int, Cell) -> bool {
    |i: int, c: Cell| c == Cell::Hidden(true)
}

pub open spec fn pred_hidden_false() -> spec_fn(int, Cell) -> bool {
    |i: int, c: Cell| c == Cell::Hidden(false)
}

pub open spec fn pred_neighbours() -> spec_fn(int, Cell) -> bool {
    |i: int, c: Cell| c is Neighbours
}

pub open spec fn pred_infected() -> spec_fn(int, Cell) -> bool {
    |i: int, c: Cell| c is Infected
}

/// A position eligible to receive a hazard while seeding around a first
/// click at `(er, ec)`: a safe hidden cell outside the exclusion zone.
pub open spec fn pred_eligible(er: int, ec: int) -> spec_fn(int, Cell) -> bool {
    |i: int, c: Cell| c == Cell::Hidden(false) && !in_zone_at(er, ec, i)
}

pub open spec fn pred_zone(er: int, ec: int) -> spec_fn(int, Cell) -> bool {
    |i: int, c: Cell| in_zone_at(er, ec, i)
}

/// Contribution of position `(r, c)` to a neighbour count: 1 when it is
/// on the board and carries a hazard.
pub open spec fn hazard_at(s: Seq<Cell>, r: int, c: int) -> nat {
    if in_grid(r, c) && has_hazard(s[flat(r, c)]) {
        1
    } else {
        0
    }
}

/// The number of cells around `(r, c)` that carry a hazard.
pub open spec fn hazard_neighbours(s: Seq<Cell>, r: int, c: int) -> nat {
    hazard_at(s, r - 1, c - 1) + hazard_at(s, r - 1, c) + hazard_at(s, r - 1, c + 1) + hazard_at(
        s,
        r,
        c - 1,
    ) + hazard_at(s, r, c + 1) + hazard_at(s, r + 1, c - 1) + hazard_at(s, r + 1, c)
        + hazard_at(s, r + 1, c + 1)
}

/// Every revealed cell records exactly the number of its hazardous
/// neighbours.
pub open spec fn counts_correct(s: Seq<Cell>) -> bool {
    forall|r: int, c: int|
        in_grid(r, c) && (#[trigger] s[flat(r, c)]) is Neighbours ==> s[flat(
            r,
            c,
        )]->Neighbours_0 == hazard_neighbours(s, r, c)
}

/// The cascade has run to completion: a revealed cell that borders no
/// hazard never has a safe cell still hidden next to it, so every
/// revealed blank region extends to its hazard-bordering boundary.
pub open spec fn cascaded(s: Seq<Cell>) -> bool {
    forall|r: int, c: int, r2: int, c2: int|
        in_grid(r, c) && s[flat(r, c)] == Cell::Neighbours(0) && #[trigger] is_neighbour(
            r,
            c,
            r2,
            c2,
        ) ==> s[flat(r2, c2)] != Cell::Hidden(false)
}

/// Whether `(r, c)` is on the board and revealed blank: no hazard around.
pub open spec fn blank_at(s: Seq<Cell>, r: int, c: int) -> bool {
    in_grid(r, c) && s[flat(r, c)] == Cell::Neighbours(0)
}

/// Whether one of the cells around `(r, c)` is revealed blank.
pub open spec fn borders_blank(s: Seq<Cell>, r: int, c: int) -> bool {
    ||| blank_at(s, r - 1, c - 1)
    ||| blank_at(s, r - 1, c)
    ||| blank_at(s, r - 1, c + 1)
    ||| blank_at(s, r, c - 1)
    ||| blank_at(s, r, c + 1)
    ||| blank_at(s, r + 1, c - 1)
    ||| blank_at(s, r + 1, c)
    ||| blank_at(s, r + 1, c + 1)
}

/// Reveals spread only outward from blanks: every cell that differs
/// between a board and its successor, other than the clicked one, borders
/// a cell revealed as blank.
pub open spec fn spread_from_blanks(s0: Seq<Cell>, s: Seq<Cell>, row: int, col: int) -> bool {
    forall|r: int, c: int|
        in_grid(r, c) && (#[trigger] s[flat(r, c)]) != s0[flat(r, c)] && !(r == row && c == col)
            ==> borders_blank(s, r, c)
}

// ---------------------------------------------------------------------------
// The game session
// ---------------------------------------------------------------------------
/// A game session: the board, and how many clicks it has taken.
pub struct Field {
    cells: array2d::Array2D<Cell>,
    clicks: u32,
}

impl Field {
    /// The board's cells, row by row.
    pub closed spec fn board(self) -> Seq<Cell> {
        grid_cells(self.cells)
    }

    /// The number of clicks taken so far.
    pub closed spec fn click_count(self) -> u32 {
        self.clicks
    }

    /// The board has its fixed dimensions.
    pub closed spec fn wf(self) -> bool {
        &&& grid_rows(self.cells) == GRID_SIZE
        &&& grid_columns(self.cells) == GRID_SIZE
        &&& grid_cells(self.cells).len() == GRID_SIZE * GRID_SIZE
    }

    /// The session invariant: a well-formed board whose revealed cells
    /// carry correct neighbour counts and whose revealed blank regions
    /// are fully cascaded; before the first click every cell is safely
    /// hidden, and from the first click on the board carries exactly
    /// `VIRUSES` hazards (a detonated cell still counts as the hazard it
    /// carried).
    pub open spec fn inv(self) -> bool {
        &&& self.wf()
        &&& self.board().len() == GRID_SIZE * GRID_SIZE
        &&& counts_correct(self.board())
        &&& cascaded(self.board())
        &&& self.click_count() == 0 ==> forall|i: int|
            0 <= i < self.board().len() ==> self.board()[i] == Cell::Hidden(false)
        &&& self.click_count() >= 1 ==> count_pred(self.board(), pred_hazard()) == VIRUSES
    }

    /// A fresh session: no clicks yet, every cell safely hidden.
    pub fn new() -> (f: Field)
        ensures
            f.inv(),
            f.click_count() == 0,
            forall|i: int| 0 <= i < f.board().len() ==> f.board()[i] == Cell::Hidden(false),
    {
        let f = Field {
            cells: grid_filled_with(Cell::Hidden(false), GRID_SIZE, GRID_SIZE),
            clicks: 0,
        };
        f
    }

    /// Read one cell of the board.
    pub fn get(&self, row: usize, col: usize) -> (c: Cell)
        requires
            self.wf(),
            row < GRID_SIZE,
            col < GRID_SIZE,
        ensures
            c == self.board()[flat(row as int, col as int)],
    {
        grid_get(&self.cells, row, col)
    }

    /// The number of clicks taken so far.
    pub fn clicks(&self) -> (n: u32)
        ensures
            n == self.click_count(),
    {
        self.clicks
    }
}

// ---------------------------------------------------------------------------
// Neighbour enumeration
// ---------------------------------------------------------------------------
/// All board positions around `(row, col)`: at Chebyshev distance exactly
/// 1, clipped to the board's edges. Corners get 3, edges 5, interior
/// cells 8, each listed once.
pub fn get_neighbours(row: usize, col: usize) -> (nbrs: Vec<(usize, usize)>)
    requires
        row < GRID_SIZE,
        col < GRID_SIZE,
    ensures
        forall|k: int|
            0 <= k < nbrs@.len() ==> is_neighbour(
                row as int,
                col as int,
                (#[trigger] nbrs@[k]).0 as int,
                nbrs@[k].1 as int,
            ),
        forall|r: int, c: int|
            #[trigger] is_neighbour(row as int, col as int, r, c) ==> nbrs@.contains(
                (r as usize, c as usize),
            ),
        forall|k1: int, k2: int| 0 <= k1 < k2 < nbrs@.len() ==> nbrs@[k1] != nbrs@[k2],
{
    let mut nbrs: Vec<(usize, usize)> = Vec::new();
    let r_lo: usize = if row == 0 {
        0
    } else {
        row - 1
    };
    let r_hi: usize = if row + 1 < GRID_SIZE {
        row + 1
    } else {
        GRID_SIZE - 1
    };
    let c_lo: usize = if col == 0 {
        0
    } else {
        col - 1
    };
    let c_hi: usize = if col + 1 < GRID_SIZE {
        col + 1
    } else {
        GRID_SIZE - 1
    };
    let mut r: usize = r_lo;
    while r <= r_hi
        invariant
            row < GRID_SIZE,
            col < GRID_SIZE,
            r_lo == if row == 0 { 0int } else { row - 1 },
            r_hi == if row + 1 < GRID_SIZE { row + 1int } else { GRID_SIZE - 1 },
            c_lo == if col == 0 { 0int } else { col - 1 },
            c_hi == if col + 1 < GRID_SIZE { col + 1int } else { GRID_SIZE - 1 },
            r_lo <= r <= r_hi + 1,
            forall|k: int|
                0 <= k < nbrs@.len() ==> is_neighbour(
                    row as int,
                    col as int,
                    (#[trigger] nbrs@[k]).0 as int,
                    nbrs@[k].1 as int,
                ),
            forall|rr: int, cc: int|
                #[trigger] is_neighbour(row as int, col as int, rr, cc) && rr < r
                    ==> nbrs@.contains((rr as usize, cc as usize)),
            forall|k: int| 0 <= k < nbrs@.len() ==> flat((#[trigger] nbrs@[k]).0 as int, nbrs@[k].1 as int)
                < flat(r as int, c_lo as int),
            forall|k1: int, k2: int|
                0 <= k1 < k2 < nbrs@.len() ==> flat(
                    (#[trigger] nbrs@[k1]).0 as int,
                    nbrs@[k1].1 as int,
                ) < flat((#[trigger] nbrs@[k2]).0 as int, nbrs@[k2].1 as int),
        decreases r_hi + 1 - r,
    {
        let mut c: usize = c_lo;
        while c <= c_hi
            invariant
                row < GRID_SIZE,
                col < GRID_SIZE,
                r_lo == if row == 0 { 0int } else { row - 1 },
                r_hi == if row + 1 < GRID_SIZE { row + 1int } else { GRID_SIZE - 1 },
                c_lo == if col == 0 { 0int } else { col - 1 },
                c_hi == if col + 1 < GRID_SIZE { col + 1int } else { GRID_SIZE - 1 },
                r_lo <= r <= r_hi,
                c_lo <= c <= c_hi + 1,
                forall|k: int|
                    0 <= k < nbrs@.len() ==> is_neighbour(
                        row as int,
                        col as int,
                        (#[trigger] nbrs@[k]).0 as int,
                        nbrs@[k].1 as int,
                    ),
                forall|rr: int, cc: int|
                    #[trigger] is_neighbour(row as int, col as int, rr, cc) && (rr < r || (rr == r
                        && cc < c)) ==> nbrs@.contains((rr as usize, cc as usize)),
                forall|k: int|
                    0 <= k < nbrs@.len() ==> flat(
                        (#[trigger] nbrs@[k]).0 as int,
                        nbrs@[k].1 as int,
                    ) < flat(r as int, c as int),
                forall|k1: int, k2: int|
                    0 <= k1 < k2 < nbrs@.len() ==> flat(
                        (#[trigger] nbrs@[k1]).0 as int,
                        nbrs@[k1].1 as int,
                    ) < flat((#[trigger] nbrs@[k2]).0 as int, nbrs@[k2].1 as int),
            decreases c_hi + 1 - c,
        {
            let ghost pre = nbrs@;
            if !(r == row && c == col) {
                nbrs.push((r, c));
            }
            proof {
                assert forall|rr: int, cc: int|
                    #[trigger] is_neighbour(row as int, col as int, rr, cc) && (rr < r || (rr == r
                        && cc <= c)) implies nbrs@.contains((rr as usize, cc as usize)) by {
                    if rr < r || (rr == r && cc < c) {
                        assert(pre.contains((rr as usize, cc as usize)));
                        let j = choose|j: int|
                            0 <= j < pre.len() && pre[j] == (rr as usize, cc as usize);
                        assert(nbrs@[j] == (rr as usize, cc as usize));
                    } else {
                        assert(rr == r && cc == c);
                        assert(nbrs@[pre.len() as int] == (r, c));
                    }
                }
            }
            c = c + 1;
        }
        r = r + 1;
    }
    proof {
        assert forall|rr: int, cc: int|
            #[trigger] is_neighbour(row as int, col as int, rr, cc) implies nbrs@.contains(
            (rr as usize, cc as usize),
        ) by {
            assert(rr < r);
        }
    }
    nbrs
}

// ---------------------------------------------------------------------------
// Counting cells on the board
// ---------------------------------------------------------------------------
/// Whether this cell carries a hazard.
fn cell_has_hazard(c: Cell) -> (b: bool)
    ensures
        b == has_hazard(c),
{
    match c {
        Cell::Hidden(h) => h,
        Cell::Infected => true,
        Cell::Neighbours(_) => false,
    }
}

/// The number of cells around `(row, col)` that carry a hazard, one
/// bounds-checked probe per surrounding position.
fn count_hazard_neighbours(f: &Field, row: usize, col: usize) -> (k: usize)
    requires
        f.wf(),
        row < GRID_SIZE,
        col < GRID_SIZE,
    ensures
        k == hazard_neighbours(f.board(), row as int, col as int),
        k <= 8,
{
    let mut k: usize = 0;
    if row > 0 && col > 0 && cell_has_hazard(f.get(row - 1, col - 1)) {
        k = k + 1;
    }
    if row > 0 && cell_has_hazard(f.get(row - 1, col)) {
        k = k + 1;
    }
    if row > 0 && col + 1 < GRID_SIZE && cell_has_hazard(f.get(row - 1, col + 1)) {
        k = k + 1;
    }
    if col > 0 && cell_has_hazard(f.get(row, col - 1)) {
        k = k + 1;
    }
    if col + 1 < GRID_SIZE && cell_has_hazard(f.get(row, col + 1)) {
        k = k + 1;
    }
    if row + 1 < GRID_SIZE && col > 0 && cell_has_hazard(f.get(row + 1, col - 1)) {
        k = k + 1;
    }
    if row + 1 < GRID_SIZE && cell_has_hazard(f.get(row + 1, col)) {
        k = k + 1;
    }
    if row + 1 < GRID_SIZE && col + 1 < GRID_SIZE && cell_has_hazard(f.get(row + 1, col + 1)) {
        k = k + 1;
    }
    k
}

/// The number of cells still hidden, hazardous or not: the whole board is
/// scanned, as after every click. Victory is the scan coming to exactly
/// `VIRUSES`.
pub fn count_hidden_cells(f: &Field) -> (n: usize)
    requires
        f.wf(),
    ensures
        n == count_pred(f.board(), pred_hidden()),
{
    let mut n: usize = 0;
    let mut r: usize = 0;
    while r < GRID_SIZE
        invariant
            f.wf(),
            r <= GRID_SIZE,
            n == count_pred(f.board().take(flat(r as int, 0)), pred_hidden()),
            n <= flat(r as int, 0),
        decreases GRID_SIZE - r,
    {
        let mut c: usize = 0;
        while c < GRID_SIZE
            invariant
                f.wf(),
                r < GRID_SIZE,
                c <= GRID_SIZE,
                n == count_pred(f.board().take(flat(r as int, c as int)), pred_hidden()),
                n <= flat(r as int, c as int),
            decreases GRID_SIZE - c,
        {
            let cell = f.get(r, c);
            proof {
                crate::counting::lemma_count_take_succ(
                    f.board(),
                    pred_hidden(),
                    flat(r as int, c as int),
                );
            }
            match cell {
                Cell::Hidden(_) => {
                    n = n + 1;
                },
                _ => {
                },
            }
            c = c + 1;
        }
        r = r + 1;
    }
    proof {
        assert(f.board().take(flat(GRID_SIZE as int, 0)) =~= f.board());
    }
    n
}

// ---------------------------------------------------------------------------
// Hazard seeding
// ---------------------------------------------------------------------------
/// The exclusion zone around a click covers at most 9 board positions.
proof fn lemma_zone_count(s: Seq<Cell>, er: int, ec: int)
    ensures
        count_pred(s, pred_zone(er, ec)) <= 9,
{
    let n = GRID_SIZE as int;
    let ks = seq![
        flat(er - 1, ec - 1),
        flat(er - 1, ec),
        flat(er - 1, ec + 1),
        flat(er, ec - 1),
        flat(er, ec),
        flat(er, ec + 1),
        flat(er + 1, ec - 1),
        flat(er + 1, ec),
        flat(er + 1, ec + 1),
    ];
    assert forall|i: int, c: Cell| #[trigger] pred_zone(er, ec)(i, c) implies ks.contains(i) by {
        let r2 = i / n;
        let c2 = i % n;
        assert(i == r2 * 16 + c2) by (nonlinear_arith)
            requires
                n == 16,
                0 <= i,
                r2 == i / n,
                c2 == i % n;
        assert(i == flat(r2, c2));
        assert(er - 1 <= r2 <= er + 1 && ec - 1 <= c2 <= ec + 1);
        if r2 == er - 1 {
            if c2 == ec - 1 {
                assert(ks[0] == i);
            } else if c2 == ec {
                assert(ks[1] == i);
            } else {
                assert(ks[2] == i);
            }
        } else if r2 == er {
            if c2 == ec - 1 {
                assert(ks[3] == i);
            } else if c2 == ec {
                assert(ks[4] == i);
            } else {
                assert(ks[5] == i);
            }
        } else {
            if c2 == ec - 1 {
                assert(ks[6] == i);
            } else if c2 == ec {
                assert(ks[7] == i);
            } else {
                assert(ks[8] == i);
            }
        }
    }
    crate::counting::lemma_count_indexes(s, pred_zone(er, ec), ks);
}

/// On an all-hidden board the eligible positions, the hazards and the
/// exclusion zone together cover the whole board, so seeding never runs
/// out of room.
proof fn lemma_eligible_available(s: Seq<Cell>, er: int, ec: int)
    requires
        forall|i: int| 0 <= i < s.len() ==> (#[trigger] s[i]) is Hidden,
    ensures
        count_pred(s, pred_eligible(er, ec)) + count_pred(s, pred_hazard()) + 9 >= s.len(),
{
    let pe = pred_eligible(er, ec);
    let pne = |i: int, c: Cell| !(c == Cell::Hidden(false) && !in_zone_at(er, ec, i));
    crate::counting::lemma_count_complement(s, pe, pne);
    assert forall|i: int| 0 <= i < s.len() && #[trigger] pne(i, s[i]) implies pred_hazard()(
        i,
        s[i],
    ) || pred_zone(er, ec)(i, s[i]) by {
        if !in_zone_at(er, ec, i) {
            assert(s[i] != Cell::Hidden(false));
            assert(s[i] is Hidden);
            assert(s[i] == Cell::Hidden(true));
        }
    }
    crate::counting::lemma_count_subadd(s, pred_hazard(), pred_zone(er, ec), pne);
    lemma_zone_count(s, er, ec);
}

/// Whether `(r, c)` is the clicked cell or one of its neighbours.
fn in_zone_exec(er: usize, ec: usize, r: usize, c: usize) -> (b: bool)
    requires
        er < GRID_SIZE,
        ec < GRID_SIZE,
        r < GRID_SIZE,
        c < GRID_SIZE,
    ensures
        b == in_zone(er as int, ec as int, r as int, c as int),
{
    r + 1 >= er && r <= er + 1 && c + 1 >= ec && c <= ec + 1
}

/// All positions where a hazard may still be placed while seeding around
/// a first click at `(er, ec)`: safe hidden cells outside the exclusion
/// zone.
fn collect_eligible(f: &Field, er: usize, ec: usize) -> (elig: Vec<(usize, usize)>)
    requires
        f.wf(),
        er < GRID_SIZE,
        ec < GRID_SIZE,
    ensures
        elig@.len() == count_pred(f.board(), pred_eligible(er as int, ec as int)),
        forall|k: int|
            0 <= k < elig@.len() ==> in_grid(
                (#[trigger] elig@[k]).0 as int,
                elig@[k].1 as int,
            ) && f.board()[flat(elig@[k].0 as int, elig@[k].1 as int)] == Cell::Hidden(false)
                && !in_zone(er as int, ec as int, elig@[k].0 as int, elig@[k].1 as int),
{
    let ghost pe = pred_eligible(er as int, ec as int);
    let mut elig: Vec<(usize, usize)> = Vec::new();
    let mut r: usize = 0;
    while r < GRID_SIZE
        invariant
            f.wf(),
            er < GRID_SIZE,
            ec < GRID_SIZE,
            r <= GRID_SIZE,
            pe == pred_eligible(er as int, ec as int),
            elig@.len() == count_pred(f.board().take(flat(r as int, 0)), pe),
            forall|k: int|
                0 <= k < elig@.len() ==> in_grid(
                    (#[trigger] elig@[k]).0 as int,
                    elig@[k].1 as int,
                ) && f.board()[flat(elig@[k].0 as int, elig@[k].1 as int)] == Cell::Hidden(false)
                    && !in_zone(er as int, ec as int, elig@[k].0 as int, elig@[k].1 as int),
        decreases GRID_SIZE - r,
    {
        let mut c: usize = 0;
        while c < GRID_SIZE
            invariant
                f.wf(),
                er < GRID_SIZE,
                ec < GRID_SIZE,
                r < GRID_SIZE,
                c <= GRID_SIZE,
                pe == pred_eligible(er as int, ec as int),
                elig@.len() == count_pred(f.board().take(flat(r as int, c as int)), pe),
                forall|k: int|
                    0 <= k < elig@.len() ==> in_grid(
                        (#[trigger] elig@[k]).0 as int,
                        elig@[k].1 as int,
                    ) && f.board()[flat(elig@[k].0 as int, elig@[k].1 as int)] == Cell::Hidden(
                        false,
                    ) && !in_zone(er as int, ec as int, elig@[k].0 as int, elig@[k].1 as int),
            decreases GRID_SIZE - c,
        {
            let ghost i = flat(r as int, c as int);
            proof {
                crate::counting::lemma_count_take_succ(f.board(), pe, i);
                let ri = r as int;
                let ci = c as int;
                assert(i / (GRID_SIZE as int) == ri && i % (GRID_SIZE as int) == ci)
                    by (nonlinear_arith)
                    requires
                        i == ri * 16 + ci,
                        GRID_SIZE == 16,
                        0 <= ci,
                        ci < 16,
                        0 <= ri;
            }
            let cell = f.get(r, c);
            let safe = match cell {
                Cell::Hidden(false) => true,
                _ => false,
            };
            if safe && !in_zone_exec(er, ec, r, c) {
                elig.push((r, c));
            }
            c = c + 1;
        }
        r = r + 1;
    }
    proof {
        assert(f.board().take(flat(GRID_SIZE as int, 0)) =~= f.board());
    }
    elig
}

/// Place exactly `VIRUSES` hazards on an all-hidden board, uniformly at
/// random among the cells that are still safely hidden, are not the
/// clicked cell and are not one of its neighbours, so that the first
/// click and its surroundings stay safe.
pub fn insert_viruses(field: &mut Field, clicked_row: usize, clicked_col: usize)
    requires
        old(field).wf(),
        clicked_row < GRID_SIZE,
        clicked_col < GRID_SIZE,
        forall|i: int|
            0 <= i < old(field).board().len() ==> old(field).board()[i] == Cell::Hidden(false),
    ensures
        final(field).wf(),
        final(field).click_count() == old(field).click_count(),
        count_pred(final(field).board(), pred_hazard()) == VIRUSES,
        forall|i: int|
            0 <= i < final(field).board().len() ==> (#[trigger] final(field).board()[i]) is Hidden,
        forall|r: int, c: int|
            #[trigger] in_zone(clicked_row as int, clicked_col as int, r, c) && in_grid(r, c)
                ==> final(field).board()[flat(r, c)] == Cell::Hidden(false),
        counts_correct(final(field).board()),
{
    let ghost er = clicked_row as int;
    let ghost ec = clicked_col as int;
    let ghost clicks0 = field.clicks;
    proof {
        crate::counting::lemma_count_none(field.board(), pred_hazard());
    }
    let mut placed: usize = 0;
    while placed < VIRUSES
        invariant
            field.wf(),
            field.clicks == clicks0,
            clicked_row < GRID_SIZE,
            clicked_col < GRID_SIZE,
            er == clicked_row as int,
            ec == clicked_col as int,
            placed <= VIRUSES,
            count_pred(field.board(), pred_hazard()) == placed,
            forall|i: int| 0 <= i < field.board().len() ==> (#[trigger] field.board()[i]) is Hidden,
            forall|r: int, c: int|
                #[trigger] in_zone(er, ec, r, c) && in_grid(r, c) ==> field.board()[flat(r, c)]
                    == Cell::Hidden(false),
        decreases VIRUSES - placed,
    {
        let elig = collect_eligible(field, clicked_row, clicked_col);
        proof {
            lemma_eligible_available(field.board(), er, ec);
        }
        let j = rand_below(elig.len());
        let p = elig[j];
        let (r, c) = p;
        let ghost before = field.board();
        grid_set(&mut field.cells, r, c, Cell::Hidden(true));
        proof {
            crate::counting::lemma_count_update(
                before,
                pred_hazard(),
                flat(r as int, c as int),
                Cell::Hidden(true),
            );
        }
        placed = placed + 1;
    }
    proof {
        assert(counts_correct(field.board())) by {
            assert forall|r: int, c: int|
                in_grid(r, c) && (#[trigger] field.board()[flat(r, c)]) is Neighbours implies field
                .board()[flat(r, c)]->Neighbours_0 == hazard_neighbours(field.board(), r, c) by {
                assert(0 <= flat(r, c) < field.board().len());
                assert(field.board()[flat(r, c)] is Hidden);
            }
        }
    }
}

// ---------------------------------------------------------------------------
// Cascading reveal
// ---------------------------------------------------------------------------
/// Replacing a cell that carries no hazard by another that carries none
/// changes no cell's number of hazardous neighbours.
proof fn lemma_hazard_neighbours_unchanged(s: Seq<Cell>, i: int, v: Cell)
    requires
        s.len() == GRID_SIZE * GRID_SIZE,
        0 <= i < s.len(),
        has_hazard(s[i]) == has_hazard(v),
    ensures
        forall|r: int, c: int|
            #[trigger] hazard_neighbours(s.update(i, v), r, c) == hazard_neighbours(s, r, c),
{
    let s2 = s.update(i, v);
    assert forall|r: int, c: int|
        #[trigger] hazard_neighbours(s2, r, c) == hazard_neighbours(s, r, c) by {
        assert forall|a: int, b: int| #[trigger] hazard_at(s2, a, b) == hazard_at(s, a, b) by {
            if in_grid(a, b) {
                assert(0 <= flat(a, b) < s.len());
            }
        }
    }
}

/// Replacing a cell that was not revealed blank cannot take a revealed
/// blank away from any cell's surroundings.
proof fn lemma_borders_blank_monotone(s: Seq<Cell>, i: int, v: Cell)
    requires
        s.len() == GRID_SIZE * GRID_SIZE,
        0 <= i < s.len(),
        s[i] != Cell::Neighbours(0),
    ensures
        forall|r: int, c: int| #[trigger] borders_blank(s, r, c) ==> borders_blank(
            s.update(i, v),
            r,
            c,
        ),
{
    let s2 = s.update(i, v);
    assert forall|r: int, c: int| #[trigger] borders_blank(s, r, c) implies borders_blank(
        s2,
        r,
        c,
    ) by {
        assert forall|a: int, b: int| #[trigger] blank_at(s, a, b) implies blank_at(s2, a, b) by {
            assert(0 <= flat(a, b) < s.len());
            assert(flat(a, b) != i);
        }
    }
}

/// Reveal the safe hidden cell at `(r, c)`: store in it the number of its
/// hazardous neighbours. Every other cell, and every cell's neighbour
/// count, stays as it was.
fn reveal_cell(field: &mut Field, r: usize, c: usize) -> (k: usize)
    requires
        old(field).wf(),
        counts_correct(old(field).board()),
        r < GRID_SIZE,
        c < GRID_SIZE,
        old(field).board()[flat(r as int, c as int)] == Cell::Hidden(false),
    ensures
        final(field).wf(),
        final(field).clicks == old(field).clicks,
        k == hazard_neighbours(old(field).board(), r as int, c as int),
        final(field).board() == old(field).board().update(
            flat(r as int, c as int),
            Cell::Neighbours(k),
        ),
        counts_correct(final(field).board()),
        forall|rr: int, cc: int|
            #[trigger] hazard_neighbours(final(field).board(), rr, cc) == hazard_neighbours(
                old(field).board(),
                rr,
                cc,
            ),
        count_pred(final(field).board(), pred_hidden_false()) == count_pred(
            old(field).board(),
            pred_hidden_false(),
        ) - 1,
{
    let k = count_hazard_neighbours(field, r, c);
    let ghost before = field.board();
    let ghost i = flat(r as int, c as int);
    grid_set(&mut field.cells, r, c, Cell::Neighbours(k));
    proof {
        crate::counting::lemma_count_update(before, pred_hidden_false(), i, Cell::Neighbours(k));
        lemma_hazard_neighbours_unchanged(before, i, Cell::Neighbours(k));
        assert forall|rr: int, cc: int|
            in_grid(rr, cc) && (#[trigger] field.board()[flat(rr, cc)]) is Neighbours implies field
            .board()[flat(rr, cc)]->Neighbours_0 == hazard_neighbours(field.board(), rr, cc) by {
            assert(0 <= flat(rr, cc) < before.len());
            if flat(rr, cc) == i {
                assert(rr == r as int && cc == c as int);
            } else {
                assert(field.board()[flat(rr, cc)] == before[flat(rr, cc)]);
            }
        }
    }
    k
}

/// The worklist discipline of a running cascade: a revealed cell that
/// borders no hazard has each of its still-hidden safe neighbours either
/// already revealed or waiting on the worklist.
spec fn cascade_pending(s: Seq<Cell>, st: Seq<(usize, usize)>) -> bool {
    forall|r: int, c: int, r2: int, c2: int|
        in_grid(r, c) && s[flat(r, c)] == Cell::Neighbours(0) && #[trigger] is_neighbour(
            r,
            c,
            r2,
            c2,
        ) ==> s[flat(r2, c2)] != Cell::Hidden(false) || st.contains((r2 as usize, c2 as usize))
}

/// Every worklist entry borders a cell already revealed as blank.
spec fn from_blanks(s: Seq<Cell>, st: Seq<(usize, usize)>) -> bool {
    forall|m: int|
        0 <= m < st.len() ==> borders_blank(s, (#[trigger] st[m]).0 as int, st[m].1 as int)
}

/// As `cascade_pending`, except that the cell at `(er, ec)` is still
/// being expanded and owes nothing yet.
spec fn cascade_pending_except(s: Seq<Cell>, st: Seq<(usize, usize)>, er: int, ec: int) -> bool {
    forall|r: int, c: int, r2: int, c2: int|
        in_grid(r, c) && s[flat(r, c)] == Cell::Neighbours(0) && #[trigger] is_neighbour(
            r,
            c,
            r2,
            c2,
        ) && !(r == er && c == ec) ==> s[flat(r2, c2)] != Cell::Hidden(false) || st.contains(
            (r2 as usize, c2 as usize),
        )
}

/// Push every still-safely-hidden neighbour of the just-revealed cell at
/// `(r0, c0)` onto the worklist, so that the cascade will reach it.
fn push_hidden_neighbours(f: &Field, stack: &mut Vec<(usize, usize)>, r0: usize, c0: usize)
    requires
        f.wf(),
        r0 < GRID_SIZE,
        c0 < GRID_SIZE,
        f.board()[flat(r0 as int, c0 as int)] == Cell::Neighbours(0),
        cascade_pending_except(f.board(), old(stack)@, r0 as int, c0 as int),
        from_blanks(f.board(), old(stack)@),
        forall|m: int|
            0 <= m < old(stack)@.len() ==> in_grid(
                (#[trigger] old(stack)@[m]).0 as int,
                old(stack)@[m].1 as int,
            ),
    ensures
        cascade_pending(f.board(), final(stack)@),
        from_blanks(f.board(), final(stack)@),
        forall|m: int|
            0 <= m < final(stack)@.len() ==> in_grid(
                (#[trigger] final(stack)@[m]).0 as int,
                final(stack)@[m].1 as int,
            ),
{
    let nbrs = get_neighbours(r0, c0);
    let mut j: usize = 0;
    while j < nbrs.len()
        invariant
            f.wf(),
            r0 < GRID_SIZE,
            c0 < GRID_SIZE,
            j <= nbrs@.len(),
            f.board()[flat(r0 as int, c0 as int)] == Cell::Neighbours(0),
            cascade_pending_except(f.board(), stack@, r0 as int, c0 as int),
            from_blanks(f.board(), stack@),
            forall|m: int|
                0 <= m < nbrs@.len() ==> is_neighbour(
                    r0 as int,
                    c0 as int,
                    (#[trigger] nbrs@[m]).0 as int,
                    nbrs@[m].1 as int,
                ),
            forall|m: int|
                0 <= m < j && f.board()[flat(
                    (#[trigger] nbrs@[m]).0 as int,
                    nbrs@[m].1 as int,
                )] == Cell::Hidden(false) ==> stack@.contains(nbrs@[m]),
            forall|m: int|
                0 <= m < stack@.len() ==> in_grid(
                    (#[trigger] stack@[m]).0 as int,
                    stack@[m].1 as int,
                ),
        decreases nbrs@.len() - j,
    {
        let q = nbrs[j];
        let qcell = f.get(q.0, q.1);
        let qsafe = match qcell {
            Cell::Hidden(false) => true,
            _ => false,
        };
        if qsafe {
            let ghost spre = stack@;
            stack.push(q);
            proof {
                assert forall|x: (usize, usize)| spre.contains(x) implies stack@.contains(x) by {
                    let m = choose|m: int| 0 <= m < spre.len() && spre[m] == x;
                    assert(stack@[m] == x);
                }
                assert(stack@[spre.len() as int] == q);
                assert(is_neighbour(r0 as int, c0 as int, q.0 as int, q.1 as int));
                assert(blank_at(f.board(), r0 as int, c0 as int));
                assert(borders_blank(f.board(), q.0 as int, q.1 as int));
                assert forall|m: int| 0 <= m < stack@.len() implies borders_blank(
                    f.board(),
                    (#[trigger] stack@[m]).0 as int,
                    stack@[m].1 as int,
                ) by {
                    if m < spre.len() {
                        assert(stack@[m] == spre[m]);
                    } else {
                        assert(stack@[m] == q);
                    }
                }
            }
        }
        j = j + 1;
    }
    proof {
        assert forall|r: int, c: int, r2: int, c2: int|
            in_grid(r, c) && f.board()[flat(r, c)] == Cell::Neighbours(0) && #[trigger] is_neighbour(
                r,
                c,
                r2,
                c2,
            ) implies f.board()[flat(r2, c2)] != Cell::Hidden(false) || stack@.contains(
            (r2 as usize, c2 as usize),
        ) by {
            if r == r0 && c == c0 {
                let q = (r2 as usize, c2 as usize);
                assert(nbrs@.contains(q));
                let m = choose|m: int| 0 <= m < nbrs@.len() && nbrs@[m] == q;
                assert(nbrs@[m].0 as int == r2 && nbrs@[m].1 as int == c2);
            }
        }
    }
}

/// Reveal the safe cell at `(row, col)` and flood-fill outward: a revealed
/// cell that borders no hazard has each of its still-hidden safe
/// neighbours revealed in turn, until the whole blank region bordering
/// the click is open up to its hazard-bordering boundary. The recursion
/// of the rule is run as an explicit worklist; every processed entry
/// either reveals a cell that was still `Hidden(false)` — no cell is ever
/// revealed twice — or is dropped, so the walk terminates.
#[verifier::rlimit(60)]
pub fn explode(field: &mut Field, row: usize, col: usize)
    requires
        old(field).inv(),
        old(field).click_count() >= 1,
        row < GRID_SIZE,
        col < GRID_SIZE,
        old(field).board()[flat(row as int, col as int)] == Cell::Hidden(false),
    ensures
        final(field).inv(),
        final(field).click_count() == old(field).click_count(),
        forall|i: int|
            0 <= i < final(field).board().len() ==> final(field).board()[i] == old(
                field,
            ).board()[i] || (old(field).board()[i] == Cell::Hidden(false) && (
            #[trigger] final(field).board()[i]) is Neighbours),
        final(field).board()[flat(row as int, col as int)] is Neighbours,
        spread_from_blanks(
            old(field).board(),
            final(field).board(),
            row as int,
            col as int,
        ),
{
    let ghost s0 = field.board();
    let ghost clicks0 = field.clicks;
    let mut stack: Vec<(usize, usize)> = Vec::new();
    let k0 = reveal_cell(field, row, col);
    proof {
        assert(cascade_pending_except(field.board(), stack@, row as int, col as int)) by {
            assert forall|r: int, c: int, r2: int, c2: int|
                in_grid(r, c) && field.board()[flat(r, c)] == Cell::Neighbours(0)
                    && #[trigger] is_neighbour(r, c, r2, c2) && !(r == row && c == col) implies field
                .board()[flat(r2, c2)] != Cell::Hidden(false) || stack@.contains(
                (r2 as usize, c2 as usize),
            ) by {
                assert(0 <= flat(r, c) < s0.len() && 0 <= flat(r2, c2) < s0.len());
                assert(s0[flat(r, c)] == Cell::Neighbours(0));
                assert(s0[flat(r2, c2)] != Cell::Hidden(false));
            }
        }
    }
    proof {
        assert forall|rr: int, cc: int|
            in_grid(rr, cc) && (#[trigger] field.board()[flat(rr, cc)]) != s0[flat(rr, cc)] && !(
            rr == row && cc == col) implies borders_blank(field.board(), rr, cc) by {
            assert(0 <= flat(rr, cc) < s0.len());
            assert(flat(rr, cc) != flat(row as int, col as int));
            assert(field.board()[flat(rr, cc)] == s0[flat(rr, cc)]);
        }
    }
    if k0 == 0 {
        push_hidden_neighbours(field, &mut stack, row, col);
    }
    proof {
        if k0 != 0 {
            assert(field.board()[flat(row as int, col as int)] != Cell::Neighbours(0));
        }
    }
    while stack.len() != 0
        invariant
            field.wf(),
            field.clicks == clicks0,
            s0.len() == GRID_SIZE * GRID_SIZE,
            field.board().len() == s0.len(),
            counts_correct(field.board()),
            row < GRID_SIZE,
            col < GRID_SIZE,
            forall|i: int|
                0 <= i < s0.len() ==> field.board()[i] == s0[i] || (s0[i] == Cell::Hidden(false)
                    && (#[trigger] field.board()[i]) is Neighbours),
            forall|m: int|
                0 <= m < stack@.len() ==> in_grid(
                    (#[trigger] stack@[m]).0 as int,
                    stack@[m].1 as int,
                ),
            field.board()[flat(row as int, col as int)] is Neighbours,
            cascade_pending(field.board(), stack@),
            from_blanks(field.board(), stack@),
            spread_from_blanks(s0, field.board(), row as int, col as int),
        decreases count_pred(field.board(), pred_hidden_false()), stack@.len(),
    {
        let ghost spre = stack@;
        let p = stack.pop().unwrap();
        proof {
            assert forall|x: (usize, usize)| spre.contains(x) && x != p implies stack@.contains(
                x,
            ) by {
                let m = choose|m: int| 0 <= m < spre.len() && spre[m] == x;
                assert(m < spre.len() - 1);
                assert(stack@[m] == x);
            }
        }
        let (r, c) = p;
        let cell = field.get(r, c);
        let safe = match cell {
            Cell::Hidden(false) => true,
            _ => false,
        };
        if safe {
            let ghost bpre = field.board();
            let k = reveal_cell(field, r, c);
            proof {
                assert(cascade_pending_except(field.board(), stack@, r as int, c as int)) by {
                    assert forall|rr: int, cc: int, r2: int, c2: int|
                        in_grid(rr, cc) && field.board()[flat(rr, cc)] == Cell::Neighbours(0)
                            && #[trigger] is_neighbour(rr, cc, r2, c2) && !(rr == r && cc
                            == c) implies field.board()[flat(r2, c2)] != Cell::Hidden(false)
                        || stack@.contains((r2 as usize, c2 as usize)) by {
                        assert(0 <= flat(rr, cc) < bpre.len() && 0 <= flat(r2, c2) < bpre.len());
                        assert(flat(rr, cc) != flat(r as int, c as int));
                        assert(bpre[flat(rr, cc)] == Cell::Neighbours(0));
                        if bpre[flat(r2, c2)] != Cell::Hidden(false) {
                            assert(field.board()[flat(r2, c2)] != Cell::Hidden(false));
                        } else {
                            assert(spre.contains((r2 as usize, c2 as usize)));
                            if (r2 as usize, c2 as usize) == p {
                                assert(field.board()[flat(r2, c2)] == Cell::Neighbours(k));
                            }
                        }
                    }
                }
            }
            proof {
                let ip = flat(r as int, c as int);
                lemma_borders_blank_monotone(bpre, ip, Cell::Neighbours(k));
                assert forall|m: int| 0 <= m < stack@.len() implies borders_blank(
                    field.board(),
                    (#[trigger] stack@[m]).0 as int,
                    stack@[m].1 as int,
                ) by {
                    assert(stack@[m] == spre[m]);
                    assert(borders_blank(bpre, (spre[m]).0 as int, spre[m].1 as int));
                }
                assert forall|rr: int, cc: int|
                    in_grid(rr, cc) && (#[trigger] field.board()[flat(rr, cc)]) != s0[flat(
                    rr,
                    cc,
                )] && !(rr == row && cc == col) implies borders_blank(field.board(), rr, cc) by {
                    assert(0 <= flat(rr, cc) < bpre.len());
                    if flat(rr, cc) == ip {
                        assert(rr == r as int && cc == c as int);
                        assert(spre[spre.len() - 1] == p);
                        assert(borders_blank(bpre, r as int, c as int));
                    } else {
                        assert(field.board()[flat(rr, cc)] == bpre[flat(rr, cc)]);
                        assert(borders_blank(bpre, rr, cc));
                    }
                }
            }
            if k == 0 {
                push_hidden_neighbours(field, &mut stack, r, c);
            }
            proof {
                if k != 0 {
                    assert(field.board()[flat(r as int, c as int)] != Cell::Neighbours(0));
                }
            }
        } else {
            proof {
                assert forall|rr: int, cc: int, r2: int, c2: int|
                    in_grid(rr, cc) && field.board()[flat(rr, cc)] == Cell::Neighbours(0)
                        && #[trigger] is_neighbour(rr, cc, r2, c2) implies field.board()[flat(
                    r2,
                    c2,
                )] != Cell::Hidden(false) || stack@.contains((r2 as usize, c2 as usize)) by {
                    if field.board()[flat(r2, c2)] == Cell::Hidden(false) {
                        assert(spre.contains((r2 as usize, c2 as usize)));
                        assert((r2 as usize, c2 as usize) != p);
                    }
                }
                assert forall|m: int| 0 <= m < stack@.len() implies borders_blank(
                    field.board(),
                    (#[trigger] stack@[m]).0 as int,
                    stack@[m].1 as int,
                ) by {
                    assert(stack@[m] == spre[m]);
                }
            }
        }
    }
    proof {
        crate::counting::lemma_count_eq_pointwise(
            s0,
            field.board(),
            pred_hazard(),
            pred_hazard(),
        );
    }
}

// ---------------------------------------------------------------------------
// Processing a click
// ---------------------------------------------------------------------------
/// Process one player click at `(row, col)`. The first click seeds the
/// hazards, away from the clicked cell and its neighbours, so it can
/// never detonate. A click on a hidden hazard detonates it and nothing
/// else: defeat. A click on a safe hidden cell reveals it and cascades.
/// A click on an already revealed or detonated cell changes nothing.
/// After the move the board is scanned: victory is signalled exactly
/// when, without a detonation, only the `VIRUSES` hazards stay hidden.
pub fn click(field: &mut Field, row: usize, col: usize) -> (ev: Outcome)
    requires
        old(field).inv(),
        row < GRID_SIZE,
        col < GRID_SIZE,
        old(field).click_count() < u32::MAX,
    ensures
        final(field).inv(),
        final(field).click_count() == old(field).click_count() + 1,
        old(field).click_count() == 0 ==> ev != Outcome::Defeat && (final(field).board()[flat(
            row as int,
            col as int,
        )] is Neighbours) && forall|r: int, c: int|
            #[trigger] in_zone(row as int, col as int, r, c) && in_grid(r, c) ==> !has_hazard(
                final(field).board()[flat(r, c)],
            ),
        old(field).click_count() >= 1 ==> (ev == Outcome::Defeat <==> old(field).board()[flat(
            row as int,
            col as int,
        )] == Cell::Hidden(true)),
        ev == Outcome::Defeat ==> final(field).board() == old(field).board().update(
            flat(row as int, col as int),
            Cell::Infected,
        ),
        old(field).click_count() >= 1 && old(field).board()[flat(row as int, col as int)]
            == Cell::Hidden(false) ==> (final(field).board()[flat(
            row as int,
            col as int,
        )] is Neighbours) && spread_from_blanks(
            old(field).board(),
            final(field).board(),
            row as int,
            col as int,
        ) && forall|i: int|
            0 <= i < final(field).board().len() ==> final(field).board()[i] == old(
                field,
            ).board()[i] || (old(field).board()[i] == Cell::Hidden(false) && (
            #[trigger] final(field).board()[i]) is Neighbours),
        old(field).click_count() >= 1 && ((old(field).board()[flat(row as int, col as int)]
            is Neighbours) || (old(field).board()[flat(row as int, col as int)] is Infected))
            ==> final(field).board() == old(field).board(),
        ev != Outcome::Defeat ==> (ev == Outcome::Victory <==> count_pred(
            final(field).board(),
            pred_hidden(),
        ) == VIRUSES),
{
    field.clicks = field.clicks + 1;
    if field.clicks == 1 {
        insert_viruses(field, row, col);
    }
    let cell = field.get(row, col);
    let mut detonated = false;
    match cell {
        Cell::Hidden(true) => {
            let ghost before = field.board();
            let ghost i = flat(row as int, col as int);
            grid_set(&mut field.cells, row, col, Cell::Infected);
            detonated = true;
            proof {
                assert(in_zone(row as int, col as int, row as int, col as int));
                crate::counting::lemma_count_update(before, pred_hazard(), i, Cell::Infected);
                lemma_hazard_neighbours_unchanged(before, i, Cell::Infected);
                assert forall|rr: int, cc: int|
                    in_grid(rr, cc) && (#[trigger] field.board()[flat(rr, cc)])
                        is Neighbours implies field.board()[flat(rr, cc)]->Neighbours_0
                    == hazard_neighbours(field.board(), rr, cc) by {
                    assert(0 <= flat(rr, cc) < before.len());
                    assert(field.board()[flat(rr, cc)] == before[flat(rr, cc)]);
                }
            }
        },
        Cell::Hidden(false) => {
            explode(field, row, col);
            proof {
                if old(field).click_count() == 0 {
                    assert forall|r: int, c: int|
                        #[trigger] in_zone(row as int, col as int, r, c) && in_grid(
                            r,
                            c,
                        ) implies !has_hazard(field.board()[flat(r, c)]) by {
                        assert(0 <= flat(r, c) < field.board().len());
                    }
                }
            }
        },
        _ => {
        },
    }
    let hidden = count_hidden_cells(field);
    if detonated {
        Outcome::Defeat
    } else if hidden == VIRUSES {
        Outcome::Victory
    } else {
        Outcome::Proceed
    }
}

// ---------------------------------------------------------------------------
// A session with chosen hazards
// ---------------------------------------------------------------------------
/// A session already past its first click, with its hazards at the given
/// positions: every listed cell is `Hidden(true)`, every other cell
/// `Hidden(false)`, and nothing is revealed yet. The positions must lie
/// on the board, be given once each, and number exactly `VIRUSES`.
pub fn with_viruses(positions: &Vec<(usize, usize)>) -> (f: Field)
    requires
        positions@.len() == VIRUSES,
        forall|k: int|
            0 <= k < positions@.len() ==> in_grid(
                (#[trigger] positions@[k]).0 as int,
                positions@[k].1 as int,
            ),
        forall|k1: int, k2: int|
            0 <= k1 < k2 < positions@.len() ==> positions@[k1] != positions@[k2],
    ensures
        f.inv(),
        f.click_count() == 1,
        forall|k: int|
            0 <= k < positions@.len() ==> f.board()[flat(
                (#[trigger] positions@[k]).0 as int,
                positions@[k].1 as int,
            )] == Cell::Hidden(true),
        forall|r: int, c: int|
            #[trigger] in_grid(r, c) && !positions@.contains((r as usize, c as usize))
                ==> f.board()[flat(r, c)] == Cell::Hidden(false),
{
    let mut f = Field::new();
    proof {
        crate::counting::lemma_count_none(f.board(), pred_hazard());
    }
    let mut k: usize = 0;
    while k < VIRUSES
        invariant
            f.wf(),
            f.clicks == 0,
            positions@.len() == VIRUSES,
            forall|m: int|
                0 <= m < positions@.len() ==> in_grid(
                    (#[trigger] positions@[m]).0 as int,
                    positions@[m].1 as int,
                ),
            forall|k1: int, k2: int|
                0 <= k1 < k2 < positions@.len() ==> positions@[k1] != positions@[k2],
            k <= VIRUSES,
            count_pred(f.board(), pred_hazard()) == k,
            forall|i: int|
                0 <= i < f.board().len() ==> ((#[trigger] f.board()[i]) == Cell::Hidden(true)
                    <==> exists|m: int|
                    0 <= m < k && flat(
                        (#[trigger] positions@[m]).0 as int,
                        positions@[m].1 as int,
                    ) == i),
            forall|i: int|
                0 <= i < f.board().len() ==> (#[trigger] f.board()[i]) == Cell::Hidden(true)
                    || f.board()[i] == Cell::Hidden(false),
        decreases VIRUSES - k,
    {
        let p = positions[k];
        let ghost before = f.board();
        let ghost i = flat(p.0 as int, p.1 as int);
        proof {
            assert(in_grid(p.0 as int, p.1 as int));
            assert(0 <= i < before.len());
            if before[i] == Cell::Hidden(true) {
                let m = choose|m: int|
                    0 <= m < k && flat(
                        (#[trigger] positions@[m]).0 as int,
                        positions@[m].1 as int,
                    ) == i;
                assert(positions@[m] == positions@[k as int]);
                assert(false);
            }
        }
        grid_set(&mut f.cells, p.0, p.1, Cell::Hidden(true));
        proof {
            crate::counting::lemma_count_update(before, pred_hazard(), i, Cell::Hidden(true));
            assert forall|j: int| 0 <= j < f.board().len() implies ((#[trigger] f.board()[j])
                == Cell::Hidden(true) <==> exists|m: int|
                0 <= m < k + 1 && flat(
                    (#[trigger] positions@[m]).0 as int,
                    positions@[m].1 as int,
                ) == j) by {
                if j == i {
                    assert(flat((positions@[k as int]).0 as int, positions@[k as int].1 as int)
                        == j);
                } else {
                    assert(f.board()[j] == before[j]);
                    if exists|m: int|
                        0 <= m < k + 1 && flat(
                            (#[trigger] positions@[m]).0 as int,
                            positions@[m].1 as int,
                        ) == j {
                        let m = choose|m: int|
                            0 <= m < k + 1 && flat(
                                (#[trigger] positions@[m]).0 as int,
                                positions@[m].1 as int,
                            ) == j;
                        assert(m != k);
                    }
                }
            }
        }
        k = k + 1;
    }
    f.clicks = 1;
    proof {
        assert(counts_correct(f.board())) by {
            assert forall|r: int, c: int|
                in_grid(r, c) && (#[trigger] f.board()[flat(r, c)]) is Neighbours implies f.board()[flat(
                r,
                c,
            )]->Neighbours_0 == hazard_neighbours(f.board(), r, c) by {
                assert(0 <= flat(r, c) < f.board().len());
            }
        }
        assert forall|r: int, c: int|
            #[trigger] in_grid(r, c) && !positions@.contains(
                (r as usize, c as usize),
            ) implies f.board()[flat(r, c)] == Cell::Hidden(false) by {
            assert(0 <= flat(r, c) < f.board().len());
            if f.board()[flat(r, c)] == Cell::Hidden(true) {
                let m = choose|m: int|
                    0 <= m < VIRUSES && flat(
                        (#[trigger] positions@[m]).0 as int,
                        positions@[m].1 as int,
                    ) == flat(r, c);
                assert(positions@[m].0 as int == r && positions@[m].1 as int == c);
                assert(positions@[m] == (r as usize, c as usize));
                assert(positions@.contains((r as usize, c as usize)));
            }
        }
    }
    f
}

// ---------------------------------------------------------------------------
// Laws of the session
// ---------------------------------------------------------------------------
/// Every cell is in exactly one of the four states, so on every board the
/// four state counts add up to the number of cells.
pub proof fn lemma_counts_partition(s: Seq<Cell>)
    ensures
        count_pred(s, pred_hidden_true()) + count_pred(s, pred_hidden_false()) + count_pred(
            s,
            pred_neighbours(),
        ) + count_pred(s, pred_infected()) == s.len(),
    decreases s.len(),
{
    if s.len() > 0 {
        lemma_counts_partition(s.drop_last());
    }
}

/// From the first click on, a session carries exactly `VIRUSES` hazards:
/// detonating reveals a hazard but never creates or destroys one.
pub proof fn lemma_hazards_conserved(f: Field)
    requires
        f.inv(),
        f.click_count() >= 1,
    ensures
        count_pred(f.board(), pred_hazard()) == VIRUSES,
{
}

/// As long as nothing has detonated, exactly `VIRUSES` cells of a clicked
/// session are `Hidden(true)`. (A detonation moves one hazard from
/// `Hidden(true)` to `Infected`, so there this count is one short.)
pub proof fn lemma_hidden_hazard_count(f: Field)
    requires
        f.inv(),
        f.click_count() >= 1,
        count_pred(f.board(), pred_infected()) == 0,
    ensures
        count_pred(f.board(), pred_hidden_true()) == VIRUSES,
{
    crate::counting::lemma_count_zero_implies_none(f.board(), pred_infected());
    assert forall|i: int| 0 <= i < f.board().len() implies (#[trigger] pred_hazard()(
        i,
        f.board()[i],
    ) <==> #[trigger] pred_hidden_true()(i, f.board()[i])) by {
        assert(!pred_infected()(i, f.board()[i]));
    }
    crate::counting::lemma_count_eq_pointwise(
        f.board(),
        f.board(),
        pred_hazard(),
        pred_hidden_true(),
    );
}

/// In a valid session every cascade has run to completion: no safe cell
/// stays hidden next to a cell revealed with zero hazardous neighbours,
/// so each revealed blank region reaches its hazard-bordering boundary.
pub proof fn lemma_cascade_complete(f: Field)
    requires
        f.inv(),
    ensures
        cascaded(f.board()),
{
}

/// Every revealed cell of a valid session records exactly the number of
/// its neighbours that carry a hazard.
pub proof fn lemma_revealed_counts_correct(f: Field)
    requires
        f.inv(),
    ensures
        forall|r: int, c: int|
            in_grid(r, c) && (#[trigger] f.board()[flat(r, c)]) is Neighbours ==> f.board()[flat(
                r,
                c,
            )]->Neighbours_0 == hazard_neighbours(f.board(), r, c),
{
}

} // verus!
