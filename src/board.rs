//! The board: grid dimensions, placed cells, and the occupancy grid, with the
//! randomized non-overlapping placement of a fleet.

use crate::Message;
use crate::geometry::{Rotation, Vec2, inside, other_rotation};
use crate::ships::{
    Shape, Ship, carrier_shape, cruiser_shape, glyph, height, lemma_offsets_in_box, lemma_seq_max_is,
    lemma_turn, lemma_turn_compose, minesweeper_shape, shape_wf, turn, width, xs, ys,
};
use crate::text::{chars_to_string, decimal, label, push_decimal, push_label};
use vstd::prelude::*;

verus! {

/// Grid dimensions and the number of ships of each kind to place.
pub struct BoardConfig {
    pub rows: u64,
    pub columns: u64,
    pub aircrafts: u64,
    pub cruisers: u64,
    pub minesweepers: u64,
}

impl BoardConfig {
    pub fn new(rows: u64, columns: u64, aircrafts: u64, cruisers: u64, minesweepers: u64) -> (r:
        BoardConfig)
        ensures
            r.rows == rows,
            r.columns == columns,
            r.aircrafts == aircrafts,
            r.cruisers == cruisers,
            r.minesweepers == minesweepers,
    {
        BoardConfig { rows, columns, aircrafts, cruisers, minesweepers }
    }
}

/// A ship anchored at an absolute board coordinate.
pub struct Cell {
    pub start: Vec2,
    pub ship: Ship,
}

impl Cell {
    pub fn new(start: Vec2, ship: Ship) -> (r: Cell)
        ensures
            r.start == start,
            r.ship == ship,
    {
        Cell { start, ship }
    }
}

/// Absolute coordinate `(x, y)` of the `k`-th component of a placed cell.
pub open spec fn point_of(c: Cell, k: int) -> (int, int) {
    (c.start.x + c.ship.shape()[k].0.x, c.start.y + c.ship.shape()[k].0.y)
}

/// Whether `(x, y)` belongs to the footprint of a placed cell.
pub open spec fn in_footprint(c: Cell, x: int, y: int) -> bool {
    exists|k: int| 0 <= k < c.ship.shape().len() && #[trigger] point_of(c, k) == (x, y)
}

/// Every entry of the `w` by `h` rectangle at `(x, y)` holds water.
pub open spec fn area_free(grid: Seq<Seq<u64>>, x: int, y: int, w: int, h: int) -> bool {
    forall|yy: int, xx: int| y <= yy < y + h && x <= xx < x + w ==> #[trigger] grid[yy][xx] == 0
}

/// A `w` by `h` rectangle at `(x, y)` lies inside the grid and over water only.
pub open spec fn fits(grid: Seq<Seq<u64>>, rows: int, columns: int, w: int, h: int, x: int, y: int) -> bool {
    &&& 0 <= x && 0 <= y
    &&& x + w <= columns
    &&& y + h <= rows
    &&& area_free(grid, x, y, w, h)
}

/// Whether a shape fits somewhere on the grid.
pub open spec fn fits_somewhere(grid: Seq<Seq<u64>>, rows: int, columns: int, c: Shape) -> bool {
    exists|x: int, y: int| #[trigger] fits(grid, rows, columns, width(c), height(c), x, y)
}

/// Row-major order on coordinates.
pub open spec fn before(a: Vec2, b: Vec2) -> bool {
    a.y < b.y || (a.y == b.y && a.x < b.x)
}

/// `pts` lists, in row-major order and without repetition, exactly the
/// coordinates at which a `w` by `h` rectangle fits.
pub open spec fn candidates(pts: Seq<Vec2>, grid: Seq<Seq<u64>>, rows: int, columns: int, w: int, h: int) -> bool {
    &&& forall|k: int| 0 <= k < pts.len() ==> {
        &&& (#[trigger] pts[k]).x < columns && pts[k].y < rows
        &&& fits(grid, rows, columns, w, h, pts[k].x as int, pts[k].y as int)
    }
    &&& forall|x: int, y: int| 0 <= x < columns && 0 <= y < rows
        && #[trigger] fits(grid, rows, columns, w, h, x, y)
        ==> pts.contains(Vec2 { x: x as u64, y: y as u64 })
    &&& forall|i: int, j: int| 0 <= i < j < pts.len() ==> before(#[trigger] pts[i], #[trigger] pts[j])
}

pub open spec fn grid_wf(grid: Seq<Seq<u64>>, rows: int, columns: int) -> bool {
    &&& grid.len() == rows
    &&& forall|y: int| 0 <= y < rows ==> (#[trigger] grid[y]).len() == columns
}

/// A placed ship is well formed and its bounding box lies inside the grid.
pub open spec fn cell_in_bounds(c: Cell, rows: int, columns: int) -> bool {
    &&& c.ship.wf()
    &&& c.start.x + width(c.ship.shape()) <= columns
    &&& c.start.y + height(c.ship.shape()) <= rows
}

/// No coordinate belongs to the footprints of two different cells.
pub open spec fn no_overlap(cells: Seq<Cell>) -> bool {
    forall|i: int, j: int, k: int, l: int|
        0 <= i < cells.len() && 0 <= j < cells.len() && i != j
        && 0 <= k < cells[i].ship.shape().len() && 0 <= l < cells[j].ship.shape().len()
        ==> #[trigger] point_of(cells[i], k) != #[trigger] point_of(cells[j], l)
}

/// The grid holds, at each cell's footprint, that cell's damage values, and
/// water everywhere else.
pub open spec fn grid_matches(grid: Seq<Seq<u64>>, rows: int, columns: int, cells: Seq<Cell>) -> bool {
    &&& forall|i: int, k: int| 0 <= i < cells.len() && 0 <= k < cells[i].ship.shape().len()
        ==> grid[(#[trigger] point_of(cells[i], k)).1][point_of(cells[i], k).0]
            == cells[i].ship.shape()[k].1
    &&& forall|x: int, y: int| 0 <= x < columns && 0 <= y < rows && #[trigger] grid[y][x] != 0
        ==> exists|i: int| 0 <= i < cells.len() && in_footprint(#[trigger] cells[i], x, y)
}

pub open spec fn board_wf(rows: int, columns: int, cells: Seq<Cell>, grid: Seq<Seq<u64>>) -> bool {
    &&& grid_wf(grid, rows, columns)
    &&& forall|i: int| 0 <= i < cells.len() ==> cell_in_bounds(#[trigger] cells[i], rows, columns)
    &&& no_overlap(cells)
    &&& grid_matches(grid, rows, columns, cells)
}

/// The rotation and shape of a ship at the `i`-th placement attempt: first as
/// it comes, then turned in turn to each of the other three rotations.
pub open spec fn attempt(c: Shape, r0: Rotation, i: nat) -> (Rotation, Shape)
    decreases i,
{
    if i == 0 {
        (r0, c)
    } else {
        let prev = attempt(c, r0, (i - 1) as nat);
        let r = other_rotation(r0, i - 1);
        (r, turn(prev.1, prev.0, r))
    }
}

/// Index of the first attempt whose shape fits somewhere; 4 when none does.
pub open spec fn first_fit(grid: Seq<Seq<u64>>, rows: int, columns: int, c: Shape, r0: Rotation) -> nat {
    if fits_somewhere(grid, rows, columns, attempt(c, r0, 0).1) {
        0
    } else if fits_somewhere(grid, rows, columns, attempt(c, r0, 1).1) {
        1
    } else if fits_somewhere(grid, rows, columns, attempt(c, r0, 2).1) {
        2
    } else if fits_somewhere(grid, rows, columns, attempt(c, r0, 3).1) {
        3
    } else {
        4
    }
}

/// A candidate list is non-empty exactly when the shape fits somewhere.
pub proof fn lemma_candidates_nonempty(pts: Seq<Vec2>, grid: Seq<Seq<u64>>, rows: int, columns: int, c: Shape)
    requires
        shape_wf(c),
        candidates(pts, grid, rows, columns, width(c), height(c)),
    ensures
        pts.len() > 0 <==> fits_somewhere(grid, rows, columns, c),
{
    if pts.len() > 0 {
        assert(fits(grid, rows, columns, width(c), height(c), pts[0].x as int, pts[0].y as int));
    }
    if fits_somewhere(grid, rows, columns, c) {
        let (x, y) = choose|x: int, y: int| #[trigger] fits(grid, rows, columns, width(c), height(c), x, y);
        lemma_offsets_in_box(c);
        assert(c[0].0.x < width(c));
        assert(pts.contains(Vec2 { x: x as u64, y: y as u64 }));
    }
}

/// A ship of the given template and score, in the orientation that its
/// rotation tag names.
pub open spec fn oriented_template(s: Ship, template: Shape, points: u64) -> bool {
    &&& s.spec_points() == points
    &&& s.shape() == turn(template, Rotation::Left, s.spec_rotation())
}

/// The first `na` cells are carriers, the next `nc` cruisers and the rest
/// minesweepers, none more than requested; and a kind falls short of its
/// request only when no rotation of it fits anywhere on the grid.
pub open spec fn fleet_counts(b: Board, config: BoardConfig, na: int, nc: int) -> bool {
    let len = b.spec_cells().len() as int;
    let g = b.grid();
    let rows = b.spec_rows();
    let columns = b.spec_columns();
    &&& 0 <= na <= config.aircrafts
    &&& 0 <= nc <= config.cruisers
    &&& na + nc <= len <= na + nc + config.minesweepers
    &&& na < config.aircrafts ==> fits_nowhere(g, rows, columns, carrier_shape())
    &&& nc < config.cruisers ==> fits_nowhere(g, rows, columns, cruiser_shape())
    &&& len - na - nc < config.minesweepers ==> fits_nowhere(g, rows, columns, minesweeper_shape())
}

/// What `Board::new` builds from a configuration: a well-formed board of the
/// configured size holding the fleet, every ship of which was placed unless
/// no rotation of it fit.
pub open spec fn fleet_board(b: Board, config: BoardConfig) -> bool {
    &&& b.wf()
    &&& b.spec_rows() == config.rows
    &&& b.spec_columns() == config.columns
    &&& exists|na: int, nc: int| #[trigger] fleet_split(b.spec_cells(), na, nc) && fleet_counts(b, config, na, nc)
    &&& fleet_too_large(config) ==> b.spec_cells().len() == 0
}

/// The three templates keep fitting nowhere as the grid fills up.
pub proof fn lemma_fleet_grows(g0: Seq<Seq<u64>>, g1: Seq<Seq<u64>>, rows: int, columns: int)
    requires
        grid_grows(g0, g1, rows, columns),
    ensures
        fits_nowhere(g0, rows, columns, carrier_shape()) ==> fits_nowhere(g1, rows, columns, carrier_shape()),
        fits_nowhere(g0, rows, columns, cruiser_shape()) ==> fits_nowhere(g1, rows, columns, cruiser_shape()),
        fits_nowhere(g0, rows, columns, minesweeper_shape()) ==> fits_nowhere(g1, rows, columns, minesweeper_shape()),
{
    if fits_nowhere(g0, rows, columns, carrier_shape()) {
        lemma_fits_nowhere_grows(g0, g1, rows, columns, carrier_shape());
    }
    if fits_nowhere(g0, rows, columns, cruiser_shape()) {
        lemma_fits_nowhere_grows(g0, g1, rows, columns, cruiser_shape());
    }
    if fits_nowhere(g0, rows, columns, minesweeper_shape()) {
        lemma_fits_nowhere_grows(g0, g1, rows, columns, minesweeper_shape());
    }
}

/// The first `na` cells are carriers, the next `nc` cruisers, the rest
/// minesweepers.
pub open spec fn fleet_split(cells: Seq<Cell>, na: int, nc: int) -> bool {
    forall|i: int| 0 <= i < cells.len() ==> {
        let s = (#[trigger] cells[i]).ship;
        &&& i < na ==> oriented_template(s, carrier_shape(), 11)
        &&& na <= i < na + nc ==> oriented_template(s, cruiser_shape(), 8)
        &&& na + nc <= i ==> oriented_template(s, minesweeper_shape(), 5)
    }
}

/// A `w` by `h` box fits a grid of the given size upright or turned.
pub open spec fn box_fits(rows: int, columns: int, w: int, h: int) -> bool {
    (w <= columns && h <= rows) || (h <= columns && w <= rows)
}

/// No requested kind of ship fits the grid in any orientation: a carrier
/// needs a 5 by 3 box, a cruiser 3 by 2, a minesweeper 4 by 1.
pub open spec fn fleet_too_large(config: BoardConfig) -> bool {
    &&& config.aircrafts == 0 || !box_fits(config.rows as int, config.columns as int, 5, 3)
    &&& config.cruisers == 0 || !box_fits(config.rows as int, config.columns as int, 3, 2)
    &&& config.minesweepers == 0 || !box_fits(config.rows as int, config.columns as int, 4, 1)
}

/// Bounding boxes of the three templates.
pub proof fn lemma_template_sizes()
    ensures
        width(carrier_shape()) == 5 && height(carrier_shape()) == 3,
        width(cruiser_shape()) == 3 && height(cruiser_shape()) == 2,
        width(minesweeper_shape()) == 4 && height(minesweeper_shape()) == 1,
{
    let c = carrier_shape();
    assert(xs(c)[6] == 4);
    lemma_seq_max_is(xs(c), 4, 6);
    assert(ys(c)[7] == 2);
    lemma_seq_max_is(ys(c), 2, 7);
    let r = cruiser_shape();
    assert(xs(r)[2] == 2);
    lemma_seq_max_is(xs(r), 2, 2);
    assert(ys(r)[3] == 1);
    lemma_seq_max_is(ys(r), 1, 3);
    let m = minesweeper_shape();
    assert(xs(m)[3] == 3);
    lemma_seq_max_is(xs(m), 3, 3);
    assert(ys(m)[0] == 0);
    lemma_seq_max_is(ys(m), 0, 0);
}

/// A template whose box fits the grid in no orientation fits nowhere at any
/// attempt.
pub proof fn lemma_too_large_fits_nowhere(grid: Seq<Seq<u64>>, rows: int, columns: int, t: Shape, r0: Rotation)
    requires
        shape_wf(t),
        !box_fits(rows, columns, width(t), height(t)),
    ensures
        first_fit(grid, rows, columns, turn(t, Rotation::Left, r0), r0) == 4,
{
    assert forall|i: nat| i < 4 implies !fits_somewhere(grid, rows, columns,
        #[trigger] attempt(turn(t, Rotation::Left, r0), r0, i).1) by {
        let a = attempt(turn(t, Rotation::Left, r0), r0, i);
        lemma_attempt_oriented(t, r0, i);
        lemma_turn(t, Rotation::Left, a.0);
        if fits_somewhere(grid, rows, columns, a.1) {
            let (x, y) = choose|x: int, y: int| #[trigger] fits(grid, rows, columns, width(a.1), height(a.1), x, y);
            assert(fits(grid, rows, columns, width(a.1), height(a.1), x, y));
        }
    }
    assert(!fits_somewhere(grid, rows, columns, attempt(turn(t, Rotation::Left, r0), r0, 0).1));
    assert(!fits_somewhere(grid, rows, columns, attempt(turn(t, Rotation::Left, r0), r0, 1).1));
    assert(!fits_somewhere(grid, rows, columns, attempt(turn(t, Rotation::Left, r0), r0, 2).1));
    assert(!fits_somewhere(grid, rows, columns, attempt(turn(t, Rotation::Left, r0), r0, 3).1));
}

/// Each attempt on a template turned to `r0` is that template turned to the
/// attempt's rotation.
pub proof fn lemma_attempt_oriented(t: Shape, r0: Rotation, i: nat)
    requires
        shape_wf(t),
    ensures
        attempt(turn(t, Rotation::Left, r0), r0, i).1 == turn(t, Rotation::Left,
            attempt(turn(t, Rotation::Left, r0), r0, i).0),
    decreases i,
{
    if i > 0 {
        lemma_attempt_oriented(t, r0, (i - 1) as nat);
        let prev = attempt(turn(t, Rotation::Left, r0), r0, (i - 1) as nat);
        lemma_turn_compose(t, Rotation::Left, prev.0, other_rotation(r0, i - 1));
    }
}

/// Whether `(x, y)` lies in the bounding box of a placed cell.
pub open spec fn cell_contains(c: Cell, x: int, y: int) -> bool {
    inside(x, y, c.start.x as int, c.start.y as int, width(c.ship.shape()), height(c.ship.shape()))
}

/// The header line before its line break: three blanks, then each 1-based
/// column number followed by a blank.
pub open spec fn header(columns: nat) -> Seq<char>
    decreases columns,
{
    if columns == 0 {
        seq![' ', ' ', ' ']
    } else {
        header((columns - 1) as nat) + decimal(columns) + seq![' ']
    }
}

/// The glyphs of the first `n` entries of a grid row, each followed by a blank.
pub open spec fn row_cells(row: Seq<u64>, n: nat, show_ones: bool, show_zeros: bool) -> Seq<char>
    decreases n,
{
    if n == 0 {
        Seq::empty()
    } else {
        row_cells(row, (n - 1) as nat, show_ones, show_zeros) + seq![
            glyph(row[n - 1], show_ones, show_zeros),
            ' ',
        ]
    }
}

/// The first `n` grid lines, each as its row label, a colon, a blank, the
/// glyphs, and a line break.
pub open spec fn grid_lines(grid: Seq<Seq<u64>>, n: nat, columns: nat, show_ones: bool, show_zeros: bool) -> Seq<char>
    decreases n,
{
    if n == 0 {
        Seq::empty()
    } else {
        grid_lines(grid, (n - 1) as nat, columns, show_ones, show_zeros) + label(n) + seq![':', ' ']
            + row_cells(grid[n - 1], columns, show_ones, show_zeros) + seq!['\n']
    }
}

/// The text of a board: the header line, then one line per row, without the
/// final line break.
pub open spec fn render(grid: Seq<Seq<u64>>, rows: nat, columns: nat, show_ones: bool, show_zeros: bool) -> Seq<char> {
    (header(columns) + seq!['\n'] + grid_lines(grid, rows, columns, show_ones, show_zeros)).drop_last()
}

/// Every coordinate that held a ship part in `g0` still holds one in `g1`.
pub open spec fn grid_grows(g0: Seq<Seq<u64>>, g1: Seq<Seq<u64>>, rows: int, columns: int) -> bool {
    forall|y: int, x: int| 0 <= y < rows && 0 <= x < columns && g0[y][x] != 0 ==> #[trigger] g1[y][x] != 0
}

/// The template fits nowhere on the grid in any of the four rotations.
pub open spec fn fits_nowhere(grid: Seq<Seq<u64>>, rows: int, columns: int, t: Shape) -> bool {
    forall|r: Rotation| !fits_somewhere(grid, rows, columns, #[trigger] turn(t, Rotation::Left, r))
}

/// A shape that fits nowhere keeps fitting nowhere as the grid fills up.
pub proof fn lemma_fits_nowhere_grows(g0: Seq<Seq<u64>>, g1: Seq<Seq<u64>>, rows: int, columns: int, t: Shape)
    requires
        fits_nowhere(g0, rows, columns, t),
        grid_grows(g0, g1, rows, columns),
    ensures
        fits_nowhere(g1, rows, columns, t),
{
    assert forall|r: Rotation| !fits_somewhere(g1, rows, columns, #[trigger] turn(t, Rotation::Left, r)) by {
        let c = turn(t, Rotation::Left, r);
        if fits_somewhere(g1, rows, columns, c) {
            let (x, y) = choose|x: int, y: int| #[trigger] fits(g1, rows, columns, width(c), height(c), x, y);
            assert forall|yy: int, xx: int| y <= yy < y + height(c) && x <= xx < x + width(c)
                implies #[trigger] g0[yy][xx] == 0 by {
                assert(g1[yy][xx] == 0);
            }
            assert(fits(g0, rows, columns, width(c), height(c), x, y));
            assert(!fits_somewhere(g0, rows, columns, c));
        }
    }
}

/// When all four attempts on a template fail, no rotation of it fits.
pub proof fn lemma_exhausted(grid: Seq<Seq<u64>>, rows: int, columns: int, t: Shape, r0: Rotation)
    requires
        shape_wf(t),
        first_fit(grid, rows, columns, turn(t, Rotation::Left, r0), r0) == 4,
    ensures
        fits_nowhere(grid, rows, columns, t),
{
    let c = turn(t, Rotation::Left, r0);
    lemma_attempt_oriented(t, r0, 0);
    lemma_attempt_oriented(t, r0, 1);
    lemma_attempt_oriented(t, r0, 2);
    lemma_attempt_oriented(t, r0, 3);
    let a1 = attempt(c, r0, 1);
    let a2 = attempt(c, r0, 2);
    let a3 = attempt(c, r0, 3);
    assert(a1.0 == other_rotation(r0, 0));
    assert(a2.0 == other_rotation(r0, 1));
    assert(a3.0 == other_rotation(r0, 2));
    assert forall|r: Rotation| !fits_somewhere(grid, rows, columns, #[trigger] turn(t, Rotation::Left, r)) by {
        assert(r == attempt(c, r0, 0).0 || r == a1.0 || r == a2.0 || r == a3.0);
    }
}

/// A board: its dimensions, the cells placed on it, and the damage value of
/// every coordinate (0 for water), row by row.
pub struct Board {
    rows: u64,
    columns: u64,
    cells: Vec<Cell>,
    values: Vec<Vec<u64>>,
}

impl Board {
    pub closed spec fn spec_rows(&self) -> int {
        self.rows as int
    }

    pub closed spec fn spec_columns(&self) -> int {
        self.columns as int
    }

    pub closed spec fn spec_cells(&self) -> Seq<Cell> {
        self.cells@
    }

    /// The occupancy grid, indexed by row then column.
    pub closed spec fn grid(&self) -> Seq<Seq<u64>> {
        self.values@.map_values(|r: Vec<u64>| r@)
    }

    pub open spec fn wf(&self) -> bool {
        &&& self.spec_rows() <= usize::MAX
        &&& self.spec_columns() <= usize::MAX
        &&& board_wf(self.spec_rows(), self.spec_columns(), self.spec_cells(), self.grid())
    }

    /// A board of the given size with nothing placed on it.
    pub fn empty(rows: u64, columns: u64) -> (r: Board)
        ensures
            r.wf(),
            r.spec_rows() == rows,
            r.spec_columns() == columns,
            r.spec_cells().len() == 0,
            forall|y: int, x: int| 0 <= y < rows && 0 <= x < columns ==> #[trigger] r.grid()[y][x] == 0,
    {
        let mut values: Vec<Vec<u64>> = Vec::new();
        let mut row = zero_row(columns);
        let mut i: u64 = 0;
        while i < rows
            invariant
                i <= rows,
                columns <= usize::MAX,
                values@.len() == i,
                row@.len() == columns,
                forall|x: int| 0 <= x < columns ==> #[trigger] row@[x] == 0,
                forall|y: int| 0 <= y < i ==> (#[trigger] values@[y])@.len() == columns,
                forall|y: int, x: int| 0 <= y < i && 0 <= x < columns ==> #[trigger] values@[y]@[x] == 0,
            decreases rows - i,
        {
            values.push(row);
            row = zero_row(columns);
            i = i + 1;
        }
        let n = values.len();
        assert(n == rows);
        let board = Board { rows, columns, cells: Vec::new(), values };
        assert forall|y: int, x: int| 0 <= y < rows && 0 <= x < columns implies #[trigger] board.grid()[y][x] == 0 by {
            assert(board.grid()[y] == values@[y]@);
        }
        assert forall|y: int| 0 <= y < rows implies (#[trigger] board.grid()[y]).len() == columns by {
            assert(board.grid()[y] == values@[y]@);
        }
        board
    }

    /// Builds a board and places the configured fleet on it: carriers, then
    /// cruisers, then minesweepers, each in a random rotation at a random
    /// free spot, turning it where its rotation fits nowhere and leaving it
    /// out where no rotation fits.
    pub fn new(config: &BoardConfig) -> (r: Board)
        ensures
            fleet_board(r, *config),
    {
        proof {
            lemma_template_sizes();
        }
        let mut board = Board::empty(config.rows, config.columns);
        let mut n: u64 = 0;
        while n < config.aircrafts
            invariant
                board.wf(),
                board.spec_rows() == config.rows,
                board.spec_columns() == config.columns,
                n <= config.aircrafts,
                board.spec_cells().len() <= n,
                board.spec_cells().len() < n ==> fits_nowhere(board.grid(), board.spec_rows(), board.spec_columns(), carrier_shape()),
                fleet_too_large(*config) ==> board.spec_cells().len() == 0,
                width(carrier_shape()) == 5 && height(carrier_shape()) == 3,
                width(cruiser_shape()) == 3 && height(cruiser_shape()) == 2,
                width(minesweeper_shape()) == 4 && height(minesweeper_shape()) == 1,
                fleet_split(board.spec_cells(), board.spec_cells().len() as int, 0),
            decreases config.aircrafts - n,
        {
            let ship = Ship::new_aircraft_carrier().rotate(Rotation::random());
            let ghost g0 = board.grid();
            board.add_fleet_ship(ship, Ghost(carrier_shape()), Ghost(board.spec_cells().len() as int), Ghost(0));
            proof {
                lemma_fleet_grows(g0, board.grid(), board.spec_rows(), board.spec_columns());
            }
            n = n + 1;
        }
        let ghost na = board.spec_cells().len() as int;
        let mut n: u64 = 0;
        while n < config.cruisers
            invariant
                board.wf(),
                board.spec_rows() == config.rows,
                board.spec_columns() == config.columns,
                n <= config.cruisers,
                0 <= na <= config.aircrafts,
                na <= board.spec_cells().len() <= na + n,
                na < config.aircrafts ==> fits_nowhere(board.grid(), board.spec_rows(), board.spec_columns(), carrier_shape()),
                board.spec_cells().len() - na < n ==> fits_nowhere(board.grid(), board.spec_rows(), board.spec_columns(), cruiser_shape()),
                fleet_too_large(*config) ==> board.spec_cells().len() == 0,
                width(carrier_shape()) == 5 && height(carrier_shape()) == 3,
                width(cruiser_shape()) == 3 && height(cruiser_shape()) == 2,
                width(minesweeper_shape()) == 4 && height(minesweeper_shape()) == 1,
                fleet_split(board.spec_cells(), na, board.spec_cells().len() - na),
            decreases config.cruisers - n,
        {
            let ship = Ship::new_cruiser().rotate(Rotation::random());
            let ghost g0 = board.grid();
            board.add_fleet_ship(ship, Ghost(cruiser_shape()), Ghost(na), Ghost(board.spec_cells().len() - na));
            proof {
                lemma_fleet_grows(g0, board.grid(), board.spec_rows(), board.spec_columns());
            }
            n = n + 1;
        }
        let ghost nc = board.spec_cells().len() - na;
        let mut n: u64 = 0;
        while n < config.minesweepers
            invariant
                board.wf(),
                board.spec_rows() == config.rows,
                board.spec_columns() == config.columns,
                n <= config.minesweepers,
                0 <= na <= config.aircrafts,
                0 <= nc <= config.cruisers,
                na + nc <= board.spec_cells().len() <= na + nc + n,
                na < config.aircrafts ==> fits_nowhere(board.grid(), board.spec_rows(), board.spec_columns(), carrier_shape()),
                nc < config.cruisers ==> fits_nowhere(board.grid(), board.spec_rows(), board.spec_columns(), cruiser_shape()),
                board.spec_cells().len() - na - nc < n ==> fits_nowhere(board.grid(), board.spec_rows(), board.spec_columns(), minesweeper_shape()),
                fleet_too_large(*config) ==> board.spec_cells().len() == 0,
                width(carrier_shape()) == 5 && height(carrier_shape()) == 3,
                width(cruiser_shape()) == 3 && height(cruiser_shape()) == 2,
                width(minesweeper_shape()) == 4 && height(minesweeper_shape()) == 1,
                fleet_split(board.spec_cells(), na, nc),
            decreases config.minesweepers - n,
        {
            let ship = Ship::new_minesweeper().rotate(Rotation::random());
            let ghost g0 = board.grid();
            board.add_fleet_ship(ship, Ghost(minesweeper_shape()), Ghost(na), Ghost(nc));
            proof {
                lemma_fleet_grows(g0, board.grid(), board.spec_rows(), board.spec_columns());
            }
            n = n + 1;
        }
        assert(fleet_split(board.spec_cells(), na, nc));
        assert(fleet_counts(board, *config, na, nc));
        board
    }

    /// `add_ship` for a template ship; a placed ship extends the fleet split
    /// at its end.
    fn add_fleet_ship(&mut self, ship: Ship, template: Ghost<Shape>, na: Ghost<int>, nc: Ghost<int>)
        requires
            old(self).wf(),
            ship.wf(),
            shape_wf(template@),
            oriented_template(ship, template@, ship.spec_points()),
            0 <= na@ && 0 <= nc@,
            fleet_split(old(self).spec_cells(), na@, nc@),
            template@ == carrier_shape() && ship.spec_points() == 11 ==> old(self).spec_cells().len() == na@ && nc@ == 0,
            template@ == cruiser_shape() && ship.spec_points() == 8 ==> old(self).spec_cells().len() == na@ + nc@,
            template@ == minesweeper_shape() && ship.spec_points() == 5 ==> old(self).spec_cells().len() >= na@ + nc@,
            (template@ == carrier_shape() && ship.spec_points() == 11)
                || (template@ == cruiser_shape() && ship.spec_points() == 8)
                || (template@ == minesweeper_shape() && ship.spec_points() == 5),
        ensures
            final(self).wf(),
            final(self).spec_rows() == old(self).spec_rows(),
            final(self).spec_columns() == old(self).spec_columns(),
            final(self).spec_cells().len() <= old(self).spec_cells().len() + 1,
            final(self).spec_cells().len() >= old(self).spec_cells().len(),
            template@ == carrier_shape() && ship.spec_points() == 11
                ==> fleet_split(final(self).spec_cells(), final(self).spec_cells().len() as int, 0),
            template@ == cruiser_shape() && ship.spec_points() == 8
                ==> fleet_split(final(self).spec_cells(), na@, final(self).spec_cells().len() - na@),
            template@ == minesweeper_shape() && ship.spec_points() == 5
                ==> fleet_split(final(self).spec_cells(), na@, nc@),
            !box_fits(old(self).spec_rows(), old(self).spec_columns(), width(template@), height(template@))
                ==> final(self).spec_cells() == old(self).spec_cells(),
            grid_grows(old(self).grid(), final(self).grid(), old(self).spec_rows(), old(self).spec_columns()),
            final(self).spec_cells().len() == old(self).spec_cells().len()
                ==> fits_nowhere(final(self).grid(), final(self).spec_rows(), final(self).spec_columns(), template@),
    {
        let ghost cells0 = self.spec_cells();
        let ghost c = ship.shape();
        let ghost r0 = ship.spec_rotation();
        let ghost pts = ship.spec_points();
        let ghost i = first_fit(self.grid(), self.spec_rows(), self.spec_columns(), c, r0);
        proof {
            if !box_fits(self.spec_rows(), self.spec_columns(), width(template@), height(template@)) {
                lemma_too_large_fits_nowhere(self.grid(), self.spec_rows(), self.spec_columns(), template@, r0);
            }
        }
        self.add_ship(ship);
        proof {
            let cells = self.spec_cells();
            let n = cells0.len() as int;
            if i < 4 {
                lemma_attempt_oriented(template@, r0, i);
                assert(oriented_template(cells.last().ship, template@, pts)) by {
                    assert(cells.last().ship == cells[n].ship);
                }
                assert forall|j: int| 0 <= j < n implies #[trigger] cells[j] == cells0[j] by {
                    assert(cells[j] == cells.take(n)[j]);
                }
                assert(cells[n] == cells.last());
            } else {
                lemma_exhausted(self.grid(), self.spec_rows(), self.spec_columns(), template@, r0);
            }
        }
    }

    /// The first placed cell whose bounding box contains `point`.
    pub fn get_cell(&self, point: &Vec2) -> (r: Option<&Cell>)
        requires
            self.wf(),
        ensures
            r is None ==> forall|i: int| 0 <= i < self.spec_cells().len()
                ==> !cell_contains(#[trigger] self.spec_cells()[i], point.x as int, point.y as int),
            r matches Some(c) ==> exists|i: int| 0 <= i < self.spec_cells().len()
                && #[trigger] self.spec_cells()[i] == *c
                && cell_contains(*c, point.x as int, point.y as int)
                && forall|j: int| 0 <= j < i ==> !cell_contains(#[trigger] self.spec_cells()[j], point.x as int, point.y as int),
    {
        let mut i: usize = 0;
        while i < self.cells.len()
            invariant
                self.wf(),
                i <= self.cells@.len(),
                forall|j: int| 0 <= j < i ==> !cell_contains(#[trigger] self.spec_cells()[j], point.x as int, point.y as int),
            decreases self.cells@.len() - i,
        {
            let cell = &self.cells[i];
            assert(cell_in_bounds(self.spec_cells()[i as int], self.spec_rows(), self.spec_columns()));
            if point.is_inside(&cell.start, &cell.ship.size()) {
                return Some(cell);
            }
            i = i + 1;
        }
        None
    }

    /// The damage value at `(x, y)`: that of the grid where some cell's box
    /// contains the point, and water elsewhere.
    fn value_at(&self, x: u64, y: u64) -> (r: u64)
        requires
            self.wf(),
            x < self.spec_columns(),
            y < self.spec_rows(),
        ensures
            r == self.grid()[y as int][x as int],
    {
        let point = Vec2::new(x, y);
        let found = self.get_cell(&point);
        proof {
            let g = self.grid();
            let cells = self.spec_cells();
            if found is None && g[y as int][x as int] != 0 {
                let i = choose|i: int| 0 <= i < cells.len() && in_footprint(#[trigger] cells[i], x as int, y as int);
                let k = choose|k: int| 0 <= k < cells[i].ship.shape().len()
                    && #[trigger] point_of(cells[i], k) == (x as int, y as int);
                assert(cell_in_bounds(cells[i], self.spec_rows(), self.spec_columns()));
                lemma_offsets_in_box(cells[i].ship.shape());
                assert(cells[i].ship.shape()[k].0.x < width(cells[i].ship.shape()));
                assert(cell_contains(cells[i], x as int, y as int));
            }
        }
        match found {
            Some(_) => {
                assert(self.values@[y as int]@ == self.grid()[y as int]);
                self.values[y as usize][x as usize]
            },
            None => 0,
        }
    }

    pub fn rows(&self) -> (r: u64)
        ensures
            r == self.spec_rows(),
    {
        self.rows
    }

    pub fn columns(&self) -> (r: u64)
        ensures
            r == self.spec_columns(),
    {
        self.columns
    }

    pub fn cells(&self) -> (r: &Vec<Cell>)
        ensures
            r@ == self.spec_cells(),
    {
        &self.cells
    }

    /// What a shot at `point` would strike, without changing the board:
    /// water (or a point off the grid) is no hit, a hull cell is `HitOne`, a
    /// critical cell `HitTwo`.
    pub fn outcome_at(&self, point: &Vec2) -> (r: Message)
        ensures
            self.wf() ==> ({
                let on_grid = point.x < self.spec_columns() && point.y < self.spec_rows();
                let v = self.grid()[point.y as int][point.x as int];
                &&& on_grid && v == 1 ==> r == Message::HitOne
                &&& on_grid && v == 2 ==> r == Message::HitTwo
                &&& !(on_grid && (v == 1 || v == 2)) ==> r == Message::NoHit
            }),
    {
        if point.y >= self.values.len() as u64 {
            return Message::NoHit;
        }
        let row = &self.values[point.y as usize];
        if point.x >= row.len() as u64 {
            return Message::NoHit;
        }
        let v = row[point.x as usize];
        proof {
            if self.wf() {
                assert(self.grid()[point.y as int] == row@);
            }
        }
        if v == 1 {
            Message::HitOne
        } else if v == 2 {
            Message::HitTwo
        } else {
            Message::NoHit
        }
    }

    /// The board as text: a header of 1-based column numbers, then per row
    /// its base-26 label and the glyph of each entry; `show_ones` and
    /// `show_zeros` off blank out hull cells and water.
    pub fn string_value(&self, show_ones: bool, show_zeros: bool) -> (r: String)
        requires
            self.wf(),
        ensures
            r@ == render(self.grid(), self.spec_rows() as nat, self.spec_columns() as nat, show_ones, show_zeros),
    {
        let ghost g = self.grid();
        let ghost cols = self.spec_columns() as nat;
        let mut content: Vec<char> = Vec::new();
        content.push(' ');
        content.push(' ');
        content.push(' ');
        assert(content@ =~= header(0));
        let mut j: u64 = 0;
        while j < self.columns
            invariant
                j <= self.columns,
                content@ == header(j as nat),
            decreases self.columns - j,
        {
            push_decimal(&mut content, j + 1);
            content.push(' ');
            j = j + 1;
            assert(content@ =~= header(j as nat));
        }
        content.push('\n');
        let ghost top = content@;
        assert(top =~= header(cols) + seq!['\n'] + grid_lines(g, 0, cols, show_ones, show_zeros));
        let mut i: u64 = 0;
        while i < self.rows
            invariant
                self.wf(),
                g == self.grid(),
                cols == self.columns,
                i <= self.rows,
                top == header(cols) + seq!['\n'],
                content@ == top + grid_lines(g, i as nat, cols, show_ones, show_zeros),
            decreases self.rows - i,
        {
            let ghost line_start = content@;
            push_label(&mut content, i + 1);
            content.push(':');
            content.push(' ');
            let ghost prefix = content@;
            assert(prefix =~= line_start + label((i + 1) as nat) + seq![':', ' ']);
            let mut j: u64 = 0;
            while j < self.columns
                invariant
                    self.wf(),
                    g == self.grid(),
                    cols == self.columns,
                    i < self.rows,
                    j <= self.columns,
                    content@ == prefix + row_cells(g[i as int], j as nat, show_ones, show_zeros),
                decreases self.columns - j,
            {
                let value = self.value_at(j, i);
                content.push(Ship::value_to_char(value, show_ones, show_zeros));
                content.push(' ');
                j = j + 1;
                assert(content@ =~= prefix + row_cells(g[i as int], j as nat, show_ones, show_zeros));
            }
            content.push('\n');
            i = i + 1;
            assert(content@ =~= top + grid_lines(g, i as nat, cols, show_ones, show_zeros));
        }
        content.pop();
        assert(content@ =~= render(g, self.rows as nat, cols, show_ones, show_zeros));
        chars_to_string(&content)
    }

    /// Commits a ship at `start`: writes its damage values into the grid and
    /// appends the cell.
    pub fn place(&mut self, ship: Ship, start: Vec2)
        requires
            old(self).wf(),
            ship.wf(),
            fits(old(self).grid(), old(self).spec_rows(), old(self).spec_columns(),
                width(ship.shape()), height(ship.shape()), start.x as int, start.y as int),
        ensures
            final(self).wf(),
            final(self).spec_rows() == old(self).spec_rows(),
            final(self).spec_columns() == old(self).spec_columns(),
            final(self).spec_cells() == old(self).spec_cells().push(Cell { start, ship }),
            grid_grows(old(self).grid(), final(self).grid(), old(self).spec_rows(), old(self).spec_columns()),
    {
        let ghost g0 = self.grid();
        let ghost cells0 = self.cells@;
        let ghost c = ship.shape();
        let ghost new_cell = Cell { start, ship };
        proof {
            lemma_offsets_in_box(c);
        }
        let components = ship.components();
        let mut k: usize = 0;
        while k < components.len()
            invariant
                old(self).wf(),
                g0 == old(self).grid(),
                cells0 == old(self).cells@,
                self.cells@ == cells0,
                self.rows == old(self).rows,
                self.columns == old(self).columns,
                c == ship.shape(),
                components@ == c,
                new_cell == (Cell { start, ship }),
                shape_wf(c),
                forall|q: int| 0 <= q < c.len() ==> (#[trigger] c[q]).0.x < width(c) && c[q].0.y < height(c),
                fits(g0, self.rows as int, self.columns as int, width(c), height(c), start.x as int, start.y as int),
                0 <= k <= c.len(),
                grid_wf(self.grid(), self.rows as int, self.columns as int),
                forall|q: int| 0 <= q < k ==> {
                    let p = #[trigger] point_of(new_cell, q);
                    self.grid()[p.1][p.0] == c[q].1
                },
                forall|x: int, y: int| 0 <= x < self.columns && 0 <= y < self.rows
                    && (forall|q: int| 0 <= q < k ==> #[trigger] point_of(new_cell, q) != (x, y))
                    ==> #[trigger] self.grid()[y][x] == g0[y][x],
            decreases c.len() - k,
        {
            let (offset, value) = components[k];
            let x = start.x + offset.x;
            let y = start.y + offset.y;
            let ghost g1 = self.grid();
            assert(point_of(new_cell, k as int) == (x as int, y as int));
            assert(self.values@.len() == self.grid().len());
            assert(self.values@[y as int]@ == self.grid()[y as int]);
            self.values[y as usize].set(x as usize, value);
            assert forall|yy: int| 0 <= yy < self.rows implies #[trigger] self.grid()[yy] == (if yy == y {
                g1[yy].update(x as int, value)
            } else {
                g1[yy]
            }) by {
                assert(self.grid()[yy] == self.values@[yy]@);
            }
            assert forall|q: int| 0 <= q < k + 1 implies {
                let p = #[trigger] point_of(new_cell, q);
                self.grid()[p.1][p.0] == c[q].1
            } by {
                if q < k {
                    assert(c[q].0 != c[k as int].0);
                }
            }
            k = k + 1;
        }
        proof {
            let g = self.grid();
            assert forall|x: int, y: int| 0 <= x < self.columns && 0 <= y < self.rows
                && #[trigger] g[y][x] != g0[y][x] implies in_footprint(new_cell, x, y) by {
                if !in_footprint(new_cell, x, y) {
                    assert forall|q: int| 0 <= q < c.len() implies #[trigger] point_of(new_cell, q) != (x, y) by {}
                }
            }
            assert forall|y: int, x: int| 0 <= y < self.rows && 0 <= x < self.columns && g0[y][x] != 0
                implies #[trigger] g[y][x] != 0 by {
                if g[y][x] != g0[y][x] {
                    let q = choose|q: int| 0 <= q < c.len() && #[trigger] point_of(new_cell, q) == (x, y);
                    assert(c[q].1 > 0);
                }
            }
        }
        self.cells.push(Cell::new(start, ship));
        proof {
            self.lemma_place_wf(g0, cells0, new_cell);
        }
    }

    /// Finds the rotation under which a ship can be placed: its own first,
    /// then the other three in the order `Left, Down, Right, Up`. Returns the
    /// ship as last turned and the coordinates where it fits, which are empty
    /// only when no rotation fits.
    pub fn orient(&self, ship: Ship) -> (r: (Ship, Vec<Vec2>))
        requires
            self.wf(),
            ship.wf(),
        ensures
            r.0.wf(),
            r.0.spec_points() == ship.spec_points(),
            candidates(r.1@, self.grid(), self.spec_rows(), self.spec_columns(),
                width(r.0.shape()), height(r.0.shape())),
            ({
                let i = first_fit(self.grid(), self.spec_rows(), self.spec_columns(), ship.shape(),
                    ship.spec_rotation());
                &&& i < 4 ==> r.1@.len() > 0 && (r.0.spec_rotation(), r.0.shape())
                    == attempt(ship.shape(), ship.spec_rotation(), i)
                &&& i == 4 ==> r.1@.len() == 0
            }),
    {
        let ghost c = ship.shape();
        let ghost r0 = ship.spec_rotation();
        let ghost g = self.grid();
        let ghost pts0 = ship.spec_points();
        let first = ship.rotation();
        let mut ship = ship;
        let mut points = self.starting_points(&ship.size());
        proof {
            lemma_candidates_nonempty(points@, g, self.spec_rows(), self.spec_columns(), c);
        }
        let mut i: u64 = 0;
        while points.len() == 0 && i < 3
            invariant
                self.wf(),
                g == self.grid(),
                shape_wf(c),
                first == r0,
                i <= 3,
                ship.wf(),
                ship.spec_points() == pts0,
                (ship.spec_rotation(), ship.shape()) == attempt(c, r0, i as nat),
                candidates(points@, g, self.spec_rows(), self.spec_columns(), width(ship.shape()),
                    height(ship.shape())),
                points@.len() > 0 <==> fits_somewhere(g, self.spec_rows(), self.spec_columns(), ship.shape()),
                forall|j: nat| j < i ==> !fits_somewhere(g, self.spec_rows(), self.spec_columns(),
                    #[trigger] attempt(c, r0, j).1),
            decreases 3 - i,
        {
            ship = ship.rotate(first.other(i));
            points = self.starting_points(&ship.size());
            i = i + 1;
            proof {
                lemma_candidates_nonempty(points@, g, self.spec_rows(), self.spec_columns(), ship.shape());
            }
        }
        (ship, points)
    }

    /// Places a ship at a coordinate drawn uniformly from those where it fits,
    /// turning it first where its own rotation fits nowhere; a ship that fits
    /// under no rotation is left out.
    pub fn add_ship(&mut self, ship: Ship)
        requires
            old(self).wf(),
            ship.wf(),
        ensures
            final(self).wf(),
            final(self).spec_rows() == old(self).spec_rows(),
            final(self).spec_columns() == old(self).spec_columns(),
            grid_grows(old(self).grid(), final(self).grid(), old(self).spec_rows(), old(self).spec_columns()),
            ({
                let i = first_fit(old(self).grid(), old(self).spec_rows(), old(self).spec_columns(),
                    ship.shape(), ship.spec_rotation());
                let n = old(self).spec_cells().len();
                let cell = final(self).spec_cells().last();
                &&& i == 4 ==> final(self).spec_cells() == old(self).spec_cells()
                    && final(self).grid() == old(self).grid()
                &&& i < 4 ==> {
                    &&& final(self).spec_cells().len() == n + 1
                    &&& final(self).spec_cells().take(n as int) == old(self).spec_cells()
                    &&& cell.ship.spec_points() == ship.spec_points()
                    &&& (cell.ship.spec_rotation(), cell.ship.shape())
                        == attempt(ship.shape(), ship.spec_rotation(), i)
                    &&& fits(old(self).grid(), old(self).spec_rows(), old(self).spec_columns(),
                        width(cell.ship.shape()), height(cell.ship.shape()), cell.start.x as int,
                        cell.start.y as int)
                }
            }),
    {
        let (turned, points) = self.orient(ship);
        if points.len() == 0 {
            return;
        }
        let k = crate::random::random_below(points.len());
        let ghost n = self.cells@.len();
        let ghost cells0 = self.cells@;
        self.place_candidate(turned, &points, k);
        assert(self.cells@.take(n as int) =~= cells0);
    }

    /// Places a ship at the `k`-th of the coordinates where it fits.
    pub fn place_candidate(&mut self, ship: Ship, points: &Vec<Vec2>, k: usize)
        requires
            old(self).wf(),
            ship.wf(),
            candidates(points@, old(self).grid(), old(self).spec_rows(), old(self).spec_columns(),
                width(ship.shape()), height(ship.shape())),
            k < points@.len(),
        ensures
            final(self).wf(),
            final(self).spec_rows() == old(self).spec_rows(),
            final(self).spec_columns() == old(self).spec_columns(),
            final(self).spec_cells() == old(self).spec_cells().push(Cell { start: points@[k as int], ship }),
            grid_grows(old(self).grid(), final(self).grid(), old(self).spec_rows(), old(self).spec_columns()),
    {
        let start = points[k];
        self.place(ship, start);
    }

    /// Whether a rectangle of the given size can be placed at `start`.
    pub fn can_enter(&self, size: &Vec2, start: &Vec2) -> (r: bool)
        requires
            self.wf(),
        ensures
            r == fits(self.grid(), self.spec_rows(), self.spec_columns(), size.x as int,
                size.y as int, start.x as int, start.y as int),
    {
        if size.x > self.columns || start.x > self.columns - size.x || size.y > self.rows
            || start.y > self.rows - size.y {
            return false;
        }
        let ghost g = self.grid();
        let end_y = start.y + size.y;
        let end_x = start.x + size.x;
        let mut i: u64 = start.y;
        while i < end_y
            invariant
                self.wf(),
                g == self.grid(),
                start.y <= i <= end_y,
                end_y == start.y + size.y,
                end_x == start.x + size.x,
                end_x <= self.columns,
                end_y <= self.rows,
                forall|yy: int, xx: int| start.y <= yy < i && start.x <= xx < end_x
                    ==> #[trigger] g[yy][xx] == 0,
            decreases end_y - i,
        {
            let mut j: u64 = start.x;
            while j < end_x
                invariant
                    self.wf(),
                    g == self.grid(),
                    start.y <= i < end_y,
                    start.x <= j <= end_x,
                    end_y == start.y + size.y,
                    end_x == start.x + size.x,
                    end_x <= self.columns,
                    end_y <= self.rows,
                    forall|yy: int, xx: int| start.y <= yy < i && start.x <= xx < end_x
                        ==> #[trigger] g[yy][xx] == 0,
                    forall|xx: int| start.x <= xx < j ==> #[trigger] g[i as int][xx] == 0,
                decreases end_x - j,
            {
                assert(self.values@.len() == g.len());
                let row = &self.values[i as usize];
                assert(g[i as int] == row@);
                assert(row@.len() == self.columns);
                if row[j as usize] != 0 {
                    assert(g[i as int][j as int] != 0);
                    assert(!area_free(g, start.x as int, start.y as int, size.x as int, size.y as int));
                    return false;
                }
                j = j + 1;
            }
            i = i + 1;
        }
        true
    }

    /// Every coordinate at which a rectangle of the given size can be placed,
    /// scanned row by row.
    pub fn starting_points(&self, size: &Vec2) -> (r: Vec<Vec2>)
        requires
            self.wf(),
        ensures
            candidates(r@, self.grid(), self.spec_rows(), self.spec_columns(), size.x as int,
                size.y as int),
    {
        let ghost g = self.grid();
        let ghost w = size.x as int;
        let ghost h = size.y as int;
        let mut points: Vec<Vec2> = Vec::new();
        let mut i: u64 = 0;
        while i < self.rows
            invariant
                self.wf(),
                g == self.grid(),
                w == size.x,
                h == size.y,
                i <= self.rows,
                forall|k: int| 0 <= k < points@.len()
                    ==> fits(g, self.rows as int, self.columns as int, w, h, (#[trigger] points@[k]).x as int, points@[k].y as int),
                forall|k: int| 0 <= k < points@.len() ==> (#[trigger] points@[k]).y < i
                    && points@[k].x < self.columns,
                forall|x: int, y: int| 0 <= x < self.columns && 0 <= y < i
                    && #[trigger] fits(g, self.rows as int, self.columns as int, w, h, x, y)
                    ==> points@.contains(Vec2 { x: x as u64, y: y as u64 }),
                forall|a: int, b: int| 0 <= a < b < points@.len() ==> before(#[trigger] points@[a], #[trigger] points@[b]),
            decreases self.rows - i,
        {
            let mut j: u64 = 0;
            while j < self.columns
                invariant
                    self.wf(),
                    g == self.grid(),
                    w == size.x,
                    h == size.y,
                    i < self.rows,
                    j <= self.columns,
                    forall|k: int| 0 <= k < points@.len()
                        ==> fits(g, self.rows as int, self.columns as int, w, h, (#[trigger] points@[k]).x as int, points@[k].y as int),
                    forall|k: int| 0 <= k < points@.len() ==> ((#[trigger] points@[k]).y < i
                        || (points@[k].y == i && points@[k].x < j)) && points@[k].x < self.columns,
                    forall|x: int, y: int| 0 <= x < self.columns && 0 <= y < i
                        && #[trigger] fits(g, self.rows as int, self.columns as int, w, h, x, y)
                        ==> points@.contains(Vec2 { x: x as u64, y: y as u64 }),
                    forall|x: int| 0 <= x < j
                        && #[trigger] fits(g, self.rows as int, self.columns as int, w, h, x, i as int)
                        ==> points@.contains(Vec2 { x: x as u64, y: i }),
                    forall|a: int, b: int| 0 <= a < b < points@.len() ==> before(#[trigger] points@[a], #[trigger] points@[b]),
                decreases self.columns - j,
            {
                let start = Vec2::new(j, i);
                if self.can_enter(size, &start) {
                    let ghost old_points = points@;
                    points.push(start);
                    assert forall|x: int, y: int| 0 <= x < self.columns && 0 <= y < i
                        && #[trigger] fits(g, self.rows as int, self.columns as int, w, h, x, y)
                        implies points@.contains(Vec2 { x: x as u64, y: y as u64 }) by {
                        let k = choose|k: int| 0 <= k < old_points.len() && old_points[k] == Vec2 { x: x as u64, y: y as u64 };
                        assert(points@[k] == old_points[k]);
                    }
                    assert forall|x: int| 0 <= x < j + 1
                        && #[trigger] fits(g, self.rows as int, self.columns as int, w, h, x, i as int)
                        implies points@.contains(Vec2 { x: x as u64, y: i }) by {
                        if x < j {
                            let k = choose|k: int| 0 <= k < old_points.len() && old_points[k] == Vec2 { x: x as u64, y: i };
                            assert(points@[k] == old_points[k]);
                        } else {
                            assert(points@[old_points.len() as int] == Vec2 { x: x as u64, y: i });
                        }
                    }
                }
                j = j + 1;
            }
            i = i + 1;
        }
        points
    }
}

/// No coordinate of a well-formed board belongs to two placed cells.
pub proof fn lemma_no_overlap(b: &Board)
    requires
        b.wf(),
    ensures
        forall|i: int, j: int, x: int, y: int|
            0 <= i < b.spec_cells().len() && 0 <= j < b.spec_cells().len() && i != j
            && #[trigger] in_footprint(b.spec_cells()[i], x, y)
            ==> !(#[trigger] in_footprint(b.spec_cells()[j], x, y)),
{
    let cells = b.spec_cells();
    assert forall|i: int, j: int, x: int, y: int|
        0 <= i < cells.len() && 0 <= j < cells.len() && i != j
        && #[trigger] in_footprint(cells[i], x, y)
        implies !(#[trigger] in_footprint(cells[j], x, y)) by {
        let k = choose|k: int| 0 <= k < cells[i].ship.shape().len() && #[trigger] point_of(cells[i], k) == (x, y);
        if in_footprint(cells[j], x, y) {
            let l = choose|l: int| 0 <= l < cells[j].ship.shape().len() && #[trigger] point_of(cells[j], l) == (x, y);
            assert(point_of(cells[i], k) != point_of(cells[j], l));
        }
    }
}

/// Every coordinate of every placed cell lies inside the grid.
pub proof fn lemma_cells_in_bounds(b: &Board)
    requires
        b.wf(),
    ensures
        forall|i: int, x: int, y: int| 0 <= i < b.spec_cells().len()
            && #[trigger] in_footprint(b.spec_cells()[i], x, y)
            ==> 0 <= x < b.spec_columns() && 0 <= y < b.spec_rows(),
{
    let cells = b.spec_cells();
    assert forall|i: int, x: int, y: int| 0 <= i < cells.len() && #[trigger] in_footprint(cells[i], x, y)
        implies 0 <= x < b.spec_columns() && 0 <= y < b.spec_rows() by {
        let k = choose|k: int| 0 <= k < cells[i].ship.shape().len() && #[trigger] point_of(cells[i], k) == (x, y);
        assert(cell_in_bounds(cells[i], b.spec_rows(), b.spec_columns()));
        lemma_offsets_in_box(cells[i].ship.shape());
        assert(cells[i].ship.shape()[k].0.x < width(cells[i].ship.shape()));
    }
}

/// A row of `columns` zeros.
fn zero_row(columns: u64) -> (r: Vec<u64>)
    ensures
        r@.len() == columns,
        columns <= usize::MAX,
        forall|x: int| 0 <= x < columns ==> #[trigger] r@[x] == 0,
{
    let mut row: Vec<u64> = Vec::new();
    let mut j: u64 = 0;
    while j < columns
        invariant
            j <= columns,
            row@.len() == j,
            forall|x: int| 0 <= x < j ==> #[trigger] row@[x] == 0,
        decreases columns - j,
    {
        row.push(0);
        j = j + 1;
    }
    let n = row.len();
    assert(n == columns);
    row
}

impl Board {
    proof fn lemma_place_wf(&self, g0: Seq<Seq<u64>>, cells0: Seq<Cell>, new_cell: Cell)
        requires
            self.spec_rows() <= usize::MAX,
            self.spec_columns() <= usize::MAX,
            board_wf(self.spec_rows(), self.spec_columns(), cells0, g0),
            new_cell.ship.wf(),
            fits(g0, self.spec_rows(), self.spec_columns(), width(new_cell.ship.shape()),
                height(new_cell.ship.shape()), new_cell.start.x as int, new_cell.start.y as int),
            self.spec_cells() == cells0.push(new_cell),
            grid_wf(self.grid(), self.spec_rows(), self.spec_columns()),
            forall|q: int| 0 <= q < new_cell.ship.shape().len() ==> {
                let p = #[trigger] point_of(new_cell, q);
                self.grid()[p.1][p.0] == new_cell.ship.shape()[q].1
            },
            forall|x: int, y: int| 0 <= x < self.spec_columns() && 0 <= y < self.spec_rows()
                && #[trigger] self.grid()[y][x] != g0[y][x] ==> in_footprint(new_cell, x, y),
        ensures
            self.wf(),
    {
        let rows = self.spec_rows();
        let columns = self.spec_columns();
        let cells = self.spec_cells();
        let g = self.grid();
        let c = new_cell.ship.shape();
        let n = cells0.len() as int;
        lemma_offsets_in_box(c);
        assert(cells[n] == new_cell);
        assert forall|i: int| 0 <= i < cells.len() implies cell_in_bounds(#[trigger] cells[i], rows, columns) by {
            if i < n {
                assert(cells[i] == cells0[i]);
            }
        }
        // Every point of an earlier cell holds a nonzero value, while the new
        // cell's rectangle held only water.
        assert forall|i: int, k: int| 0 <= i < n && 0 <= k < cells0[i].ship.shape().len()
            implies !in_footprint(new_cell, #[trigger] point_of(cells0[i], k).0, point_of(cells0[i], k).1) by {
            let p = point_of(cells0[i], k);
            assert(cell_in_bounds(cells0[i], rows, columns));
            assert(cells0[i].ship.shape()[k].1 > 0);
            assert(g0[p.1][p.0] != 0);
            if in_footprint(new_cell, p.0, p.1) {
                let q = choose|q: int| 0 <= q < c.len() && #[trigger] point_of(new_cell, q) == p;
                assert(c[q].0.x < width(c) && c[q].0.y < height(c));
                assert(g0[p.1][p.0] == 0);
            }
        }
        assert forall|i: int, j: int, k: int, l: int|
            0 <= i < cells.len() && 0 <= j < cells.len() && i != j
            && 0 <= k < cells[i].ship.shape().len() && 0 <= l < cells[j].ship.shape().len()
            implies #[trigger] point_of(cells[i], k) != #[trigger] point_of(cells[j], l) by {
            if i < n && j < n {
                assert(cells[i] == cells0[i] && cells[j] == cells0[j]);
            } else if i == n {
                assert(cells[j] == cells0[j]);
                let p = point_of(cells0[j], l);
                assert(!in_footprint(new_cell, p.0, p.1));
            } else {
                assert(cells[i] == cells0[i]);
                let p = point_of(cells0[i], k);
                assert(!in_footprint(new_cell, p.0, p.1));
            }
        }
        assert forall|i: int, k: int| 0 <= i < cells.len() && 0 <= k < cells[i].ship.shape().len()
            implies g[(#[trigger] point_of(cells[i], k)).1][point_of(cells[i], k).0]
                == cells[i].ship.shape()[k].1 by {
            if i < n {
                assert(cells[i] == cells0[i]);
                let p = point_of(cells0[i], k);
                assert(!in_footprint(new_cell, p.0, p.1));
                assert(cell_in_bounds(cells0[i], rows, columns));
                lemma_offsets_in_box(cells0[i].ship.shape());
                assert(g[p.1][p.0] == g0[p.1][p.0]);
            }
        }
        assert forall|x: int, y: int| 0 <= x < columns && 0 <= y < rows && #[trigger] g[y][x] != 0
            implies exists|i: int| 0 <= i < cells.len() && in_footprint(#[trigger] cells[i], x, y) by {
            if g[y][x] != g0[y][x] {
                assert(in_footprint(cells[n], x, y));
            } else {
                let i = choose|i: int| 0 <= i < cells0.len() && in_footprint(#[trigger] cells0[i], x, y);
                assert(cells[i] == cells0[i]);
                assert(in_footprint(cells[i], x, y));
            }
        }
    }
}

} // verus!
