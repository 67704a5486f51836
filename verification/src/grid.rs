//! Geometry of the square board: cells, the four moves, the eight sensor
//! rays, membership of a cell in a list of cells, and the free cells of the
//! board in row-major order.
use vstd::prelude::*;

verus! {

broadcast use {vstd::seq_lib::lemma_seq_contains_after_push, vstd::seq_lib::lemma_seq_concat_contains_all_elements};

/// A board position as `(row, column)`.
pub type Cell = (i32, i32);

/// Number of moves the snake can make (up, right, down, left).
pub const DIRECTIONS: usize = 4;

/// Number of sensor rays cast from the head.
pub const SENSORS: usize = 8;

/// Whether `(r, c)` lies on a board with `g` rows and `g` columns.
pub open spec fn in_grid(g: int, r: int, c: int) -> bool {
    0 <= r < g && 0 <= c < g
}

/// Whether some cell of `cells` is `(r, c)`.
pub open spec fn occupies(cells: Seq<Cell>, r: int, c: int) -> bool {
    exists|k: int| #![trigger cells[k]] 0 <= k < cells.len() && cells[k].0 == r && cells[k].1 == c
}

/// Row offset of a move in direction `d`: 0 is up, 1 right, 2 down, 3 left.
pub open spec fn move_row(d: int) -> int {
    if d == 0 {
        -1
    } else if d == 2 {
        1
    } else {
        0
    }
}

/// Column offset of a move in direction `d`.
pub open spec fn move_col(d: int) -> int {
    if d == 1 {
        1
    } else if d == 3 {
        -1
    } else {
        0
    }
}

/// The direction that reverses `d`.
pub open spec fn opposite(d: int) -> int {
    if d < 2 {
        d + 2
    } else {
        d - 2
    }
}

/// Row offset of sensor ray `i`, clockwise from north: N, NE, E, SE, S, SW, W, NW.
pub open spec fn sensor_row(i: int) -> int {
    if i == 0 || i == 1 || i == 7 {
        -1
    } else if 3 <= i <= 5 {
        1
    } else {
        0
    }
}

/// Column offset of sensor ray `i`.
pub open spec fn sensor_col(i: int) -> int {
    if 1 <= i <= 3 {
        1
    } else if 5 <= i <= 7 {
        -1
    } else {
        0
    }
}

/// `x` moved `k` steps in the sign of `dx`.
pub open spec fn along(x: int, dx: int, k: int) -> int {
    if dx > 0 {
        x + k
    } else if dx < 0 {
        x - k
    } else {
        x
    }
}

/// The free cells of row `r` among columns `0..upto`, left to right.
pub open spec fn free_in_row(cells: Seq<Cell>, r: int, upto: int) -> Seq<Cell>
    decreases upto,
{
    if upto <= 0 {
        seq![]
    } else {
        let rest = free_in_row(cells, r, upto - 1);
        if occupies(cells, r, upto - 1) {
            rest
        } else {
            rest.push((r as i32, (upto - 1) as i32))
        }
    }
}

/// The free cells of rows `0..rows` of a `g` by `g` board, in row-major order.
pub open spec fn free_in_rows(cells: Seq<Cell>, g: int, rows: int) -> Seq<Cell>
    decreases rows,
{
    if rows <= 0 {
        seq![]
    } else {
        free_in_rows(cells, g, rows - 1) + free_in_row(cells, rows - 1, g)
    }
}

/// The cells of a `g` by `g` board that `cells` does not cover, in row-major order.
pub open spec fn free_cells_of(cells: Seq<Cell>, g: int) -> Seq<Cell> {
    free_in_rows(cells, g, g)
}

/// A cell lies in row `r`, columns `0..upto`, of `free_in_row` exactly when it is uncovered.
pub proof fn lemma_free_in_row(cells: Seq<Cell>, r: int, upto: int)
    requires
        i32::MIN <= r <= i32::MAX,
        upto <= i32::MAX + 1,
    ensures
        forall|x: Cell|
            #[trigger] free_in_row(cells, r, upto).contains(x) <==> (x.0 == r && 0 <= x.1 < upto
                && !occupies(cells, x.0 as int, x.1 as int)),
    decreases upto,
{
    if upto > 0 {
        lemma_free_in_row(cells, r, upto - 1);
        let last: Cell = (r as i32, (upto - 1) as i32);
        assert(last.0 == r && last.1 == upto - 1);
        assert forall|x: Cell| #[trigger]
            free_in_row(cells, r, upto).contains(x) <==> (x.0 == r && 0 <= x.1 < upto && !occupies(
                cells,
                x.0 as int,
                x.1 as int,
            )) by {
            let rest = free_in_row(cells, r, upto - 1);
            if occupies(cells, r, upto - 1) {
                assert(free_in_row(cells, r, upto) == rest);
            } else {
                assert(free_in_row(cells, r, upto) == rest.push(last));
                if x.0 == r && x.1 == upto - 1 {
                    assert(x == last);
                }
            }
        }
    } else {
        assert forall|x: Cell| !#[trigger] free_in_row(cells, r, upto).contains(x) by {}
    }
}

/// A cell lies in `free_in_rows` exactly when it is on the first `rows` rows of the board
/// and uncovered.
pub proof fn lemma_free_in_rows(cells: Seq<Cell>, g: int, rows: int)
    requires
        g <= i32::MAX + 1,
        rows <= i32::MAX + 1,
    ensures
        forall|x: Cell|
            #[trigger] free_in_rows(cells, g, rows).contains(x) <==> (0 <= x.0 < rows && 0 <= x.1
                < g && !occupies(cells, x.0 as int, x.1 as int)),
    decreases rows,
{
    if rows > 0 {
        lemma_free_in_rows(cells, g, rows - 1);
        lemma_free_in_row(cells, rows - 1, g);
        assert(free_in_rows(cells, g, rows) == free_in_rows(cells, g, rows - 1) + free_in_row(
            cells,
            rows - 1,
            g,
        ));
    } else {
        assert forall|x: Cell| !#[trigger] free_in_rows(cells, g, rows).contains(x) by {}
    }
}

/// A cell is among the free cells of the board exactly when it is on the board and uncovered.
pub proof fn lemma_free_cells_of(cells: Seq<Cell>, g: int)
    requires
        g <= i32::MAX,
    ensures
        forall|x: Cell|
            #[trigger] free_cells_of(cells, g).contains(x) <==> (in_grid(g, x.0 as int, x.1 as int)
                && !occupies(cells, x.0 as int, x.1 as int)),
{
    lemma_free_in_rows(cells, g, g);
}

/// Whether one of the first `upto` cells of `cells` is `(r, c)`.
pub fn contains_cell(cells: &Vec<Cell>, upto: usize, r: i32, c: i32) -> (found: bool)
    requires
        upto <= cells.len(),
    ensures
        found == occupies(cells@.take(upto as int), r as int, c as int),
{
    let ghost prefix = cells@.take(upto as int);
    let mut i: usize = 0;
    while i < upto
        invariant
            i <= upto <= cells.len(),
            prefix == cells@.take(upto as int),
            forall|k: int| 0 <= k < i ==> !(#[trigger] cells@[k].0 == r && cells@[k].1 == c),
        decreases upto - i,
    {
        if cells[i].0 == r && cells[i].1 == c {
            assert(prefix[i as int] == cells@[i as int]);
            return true;
        }
        i += 1;
    }
    assert forall|k: int| 0 <= k < prefix.len() implies !(#[trigger] prefix[k].0 == r && prefix[k].1
        == c) by {
        assert(prefix[k] == cells@[k]);
    }
    false
}

/// The cells of the `grid_size` by `grid_size` board that no cell of `cells` covers,
/// row by row from the top and left to right within a row.
pub fn free_cells(cells: &Vec<Cell>, grid_size: i32) -> (free: Vec<Cell>)
    ensures
        free@ == free_cells_of(cells@, grid_size as int),
{
    let mut free: Vec<Cell> = Vec::new();
    let mut r: i32 = 0;
    while r < grid_size
        invariant
            0 <= r,
            r <= grid_size || r == 0,
            free@ == free_in_rows(cells@, grid_size as int, r as int),
        decreases grid_size - r,
    {
        let mut c: i32 = 0;
        while c < grid_size
            invariant
                0 <= c <= grid_size,
                0 <= r < grid_size,
                free@ == free_in_rows(cells@, grid_size as int, r as int) + free_in_row(
                    cells@,
                    r as int,
                    c as int,
                ),
            decreases grid_size - c,
        {
            let occupied = contains_cell(cells, cells.len(), r, c);
            assert(cells@.take(cells@.len() as int) =~= cells@);
            if !occupied {
                free.push((r, c));
            }
            assert(free@ =~= free_in_rows(cells@, grid_size as int, r as int) + free_in_row(
                cells@,
                r as int,
                c + 1,
            ));
            c += 1;
        }
        assert(free@ =~= free_in_rows(cells@, grid_size as int, r + 1));
        r += 1;
    }
    free
}

/// Row and column offsets of a move in direction `d`.
pub fn move_delta(d: usize) -> (delta: (i32, i32))
    requires
        d < DIRECTIONS,
    ensures
        delta.0 == move_row(d as int),
        delta.1 == move_col(d as int),
{
    match d {
        0 => (-1, 0),
        1 => (0, 1),
        2 => (1, 0),
        _ => (0, -1),
    }
}

/// The direction that reverses `d`.
pub fn opposite_direction(d: usize) -> (o: usize)
    requires
        d < DIRECTIONS,
    ensures
        o == opposite(d as int),
        o < DIRECTIONS,
{
    if d < 2 {
        d + 2
    } else {
        d - 2
    }
}

/// Row and column offsets of sensor ray `i`.
pub fn sensor_delta(i: usize) -> (delta: (i32, i32))
    requires
        i < SENSORS,
    ensures
        delta.0 == sensor_row(i as int),
        delta.1 == sensor_col(i as int),
{
    match i {
        0 => (-1, 0),
        1 => (-1, 1),
        2 => (0, 1),
        3 => (1, 1),
        4 => (1, 0),
        5 => (1, -1),
        6 => (0, -1),
        _ => (-1, -1),
    }
}

} // verus!
