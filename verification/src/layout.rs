//! Laying out a grid: listing the cells around a cell, checking where the
//! mines are to go, and numbering the cells around each mine.

use crate::board::{
    adjacent, cells_around, count_in, on_grid, placement_error, Board, ConfigError, Point,
};
use crate::random::draw_below;
use crate::geometry::{
    lemma_cells_around, lemma_count_bound, lemma_count_insert, lemma_covering_len,
    lemma_push_distinct,
};
use vstd::prelude::*;

verus! {

/// The cells of a grid around `coords`, column by column from the left and,
/// within a column, from the top.
pub fn collect_around(width: usize, height: usize, coords: Point) -> (ns: Vec<Point>)
    requires
        width > 0,
        height > 0,
    ensures
        ns@ == cells_around(width as nat, height as nat, coords),
{
    let x = coords.0;
    let y = coords.1;
    let left = x >= 1 && x - 1 < width;
    let middle = x < width;
    let right = x < width - 1;
    let above = y >= 1 && y - 1 < height;
    let level = y < height;
    let below = y < height - 1;
    let mut ns: Vec<Point> = Vec::new();
    if left && above {
        ns.push((x - 1, y - 1));
    }
    if left && level {
        ns.push((x - 1, y));
    }
    if left && below {
        ns.push((x - 1, y + 1));
    }
    if middle && above {
        ns.push((x, y - 1));
    }
    if middle && below {
        ns.push((x, y + 1));
    }
    if right && above {
        ns.push((x + 1, y - 1));
    }
    if right && level {
        ns.push((x + 1, y));
    }
    if right && below {
        ns.push((x + 1, y + 1));
    }
    ns
}

/// The first index of `p` in `list`, if it is listed.
pub fn position(list: &Vec<Point>, p: Point) -> (r: Option<usize>)
    ensures
        match r {
            Some(i) => i < list.len() && list[i as int] == p && forall|j: int|
                0 <= j < i ==> list[j] != p,
            None => !list@.contains(p),
        },
{
    let mut i: usize = 0;
    while i < list.len()
        invariant
            i <= list.len(),
            forall|j: int| 0 <= j < i ==> list[j] != p,
        decreases list.len() - i,
    {
        let q = list[i];
        if q.0 == p.0 && q.1 == p.1 {
            return Some(i);
        }
        i += 1;
    }
    None
}

/// A grid of the given size in the making. A cell of `mines` holds `-1`;
/// any other holds the number of cells of `counted` around it, and one more
/// if it belongs to `raised`.
pub open spec fn numbered(
    grid: Vec<Vec<i8>>,
    width: nat,
    height: nat,
    mines: Set<Point>,
    counted: Set<Point>,
    raised: Set<Point>,
) -> bool {
    &&& grid.len() == height
    &&& forall|y: int| 0 <= y < height ==> (#[trigger] grid[y]).len() == width
    &&& forall|x: int, y: int|
        0 <= y < height && 0 <= x < width ==> #[trigger] grid[y][x] == if mines.contains(
            (x as usize, y as usize),
        ) {
            -1
        } else {
            count_in(cells_around(width, height, (x as usize, y as usize)), counted) + if raised.contains(
                (x as usize, y as usize),
            ) {
                1int
            } else {
                0int
            }
        }
}

/// A grid of the given size without a mine.
pub fn blank_grid(width: usize, height: usize) -> (grid: Vec<Vec<i8>>)
    ensures
        numbered(grid, width as nat, height as nat, Set::empty(), Set::empty(), Set::empty()),
{
    let mut grid: Vec<Vec<i8>> = Vec::new();
    while grid.len() < height
        invariant
            grid.len() <= height,
            forall|y: int| 0 <= y < grid.len() ==> (#[trigger] grid[y]).len() == width,
            forall|x: int, y: int| 0 <= y < grid.len() && 0 <= x < width ==> #[trigger] grid[y][x] == 0,
        decreases height - grid.len(),
    {
        let mut row: Vec<i8> = Vec::new();
        while row.len() < width
            invariant
                row.len() <= width,
                forall|x: int| 0 <= x < row.len() ==> #[trigger] row[x] == 0,
            decreases width - row.len(),
        {
            row.push(0);
        }
        grid.push(row);
    }
    proof {
        assert forall|p: Point| #[trigger]
            count_in(cells_around(width as nat, height as nat, p), Set::empty()) == 0 by {
            lemma_count_none(cells_around(width as nat, height as nat, p));
        }
    }
    grid
}

/// Nothing is counted where nothing is marked.
pub proof fn lemma_count_none(cells: Seq<Point>)
    ensures
        count_in(cells, Set::empty()) == 0,
    decreases cells.len(),
{
    if cells.len() > 0 {
        lemma_count_none(cells.drop_last());
    }
}

/// Raises the number of the cell `n`, a neighbor of the new mine `m`,
/// unless `n` holds a mine itself.
fn raise(
    grid: &mut Vec<Vec<i8>>,
    n: Point,
    Ghost(width): Ghost<nat>,
    Ghost(height): Ghost<nat>,
    Ghost(mines): Ghost<Set<Point>>,
    Ghost(m): Ghost<Point>,
    Ghost(raised): Ghost<Set<Point>>,
)
    requires
        width <= usize::MAX,
        height <= usize::MAX,
        numbered(*old(grid), width, height, mines.insert(m), mines, raised),
        n.0 < width,
        n.1 < height,
        !raised.contains(n),
        !mines.contains(m),
        cells_around(width, height, n).contains(m),
    ensures
        numbered(*final(grid), width, height, mines.insert(m), mines, raised.insert(n)),
{
    let v = grid[n.1][n.0];
    if v != -1 {
        proof {
            let around = cells_around(width, height, n);
            lemma_cells_around(width, height, n);
            lemma_count_insert(around, mines, m);
            lemma_count_bound(around, mines.insert(m));
            assert(grid[n.1 as int][n.0 as int] == v);
        }
        grid[n.1][n.0] = v + 1;
    }
    proof {
        assert forall|x: int, y: int| 0 <= y < height && 0 <= x < width implies #[trigger] grid[y][x]
            == if mines.insert(m).contains((x as usize, y as usize)) {
            -1
        } else {
            count_in(cells_around(width, height, (x as usize, y as usize)), mines)
                + if raised.insert(n).contains((x as usize, y as usize)) {
                1int
            } else {
                0int
            }
        } by {
            assert(old(grid)[y][x] == old(grid)[y][x]);
        }
    }
}

/// Once every neighbor of the new mine `m` has been raised, the grid counts
/// `m` among its mines.
proof fn lemma_raised_all(
    grid: Vec<Vec<i8>>,
    width: nat,
    height: nat,
    mines: Set<Point>,
    m: Point,
    raised: Set<Point>,
)
    requires
        width <= usize::MAX,
        height <= usize::MAX,
        numbered(grid, width, height, mines.insert(m), mines, raised),
        raised == cells_around(width, height, m).to_set(),
        m.0 < width,
        m.1 < height,
        !mines.contains(m),
    ensures
        numbered(grid, width, height, mines.insert(m), mines.insert(m), Set::empty()),
{
    lemma_cells_around(width, height, m);
    assert forall|x: int, y: int| 0 <= y < height && 0 <= x < width implies #[trigger] grid[y][x]
        == if mines.insert(m).contains((x as usize, y as usize)) {
        -1
    } else {
        count_in(cells_around(width, height, (x as usize, y as usize)), mines.insert(m)) + 0int
    } by {
        let q = (x as usize, y as usize);
        lemma_cells_around(width, height, q);
        lemma_count_insert(cells_around(width, height, q), mines, m);
        assert(raised.contains(q) == cells_around(width, height, m).contains(q));
        assert(cells_around(width, height, q).contains(m) == cells_around(width, height, m).contains(
            q,
        ));
    }
}

/// Puts the mine `m` on the grid and raises the number of each cell
/// around it that holds no mine.
fn lay_mine(
    grid: &mut Vec<Vec<i8>>,
    width: usize,
    height: usize,
    m: Point,
    Ghost(mines): Ghost<Set<Point>>,
)
    requires
        width > 0,
        height > 0,
        numbered(*old(grid), width as nat, height as nat, mines, mines, Set::empty()),
        m.0 < width,
        m.1 < height,
        !mines.contains(m),
    ensures
        numbered(
            *final(grid),
            width as nat,
            height as nat,
            mines.insert(m),
            mines.insert(m),
            Set::empty(),
        ),
{
    grid[m.1][m.0] = -1;
    let ns = collect_around(width, height, m);
    proof {
        lemma_cells_around(width as nat, height as nat, m);
        assert(ns@.take(0).to_set() =~= Set::<Point>::empty());
    }
    let mut i: usize = 0;
    while i < ns.len()
        invariant
            i <= ns.len(),
            ns@ == cells_around(width as nat, height as nat, m),
            ns@.no_duplicates(),
            forall|q: Point| #[trigger]
                ns@.contains(q) <==> (q.0 < width && q.1 < height && adjacent(m, q)),
            m.0 < width,
            m.1 < height,
            !mines.contains(m),
            numbered(
                *grid,
                width as nat,
                height as nat,
                mines.insert(m),
                mines,
                ns@.take(i as int).to_set(),
            ),
        decreases ns.len() - i,
    {
        let n = ns[i];
        proof {
            assert(ns@.contains(n));
            lemma_cells_around(width as nat, height as nat, n);
            assert(adjacent(n, m));
            assert(cells_around(width as nat, height as nat, n).contains(m));
            assert(!ns@.take(i as int).contains(n)) by {
                if ns@.take(i as int).contains(n) {
                    let j = choose|j: int| 0 <= j < i && ns@.take(i as int)[j] == n;
                    assert(ns@[j] == ns@[i as int]);
                }
            }
            assert(ns@.take(i + 1) =~= ns@.take(i as int).push(n));
            lemma_push_distinct(ns@.take(i as int), n);
        }
        raise(
            grid,
            n,
            Ghost(width as nat),
            Ghost(height as nat),
            Ghost(mines),
            Ghost(m),
            Ghost(ns@.take(i as int).to_set()),
        );
        i += 1;
    }
    proof {
        assert(ns@.take(ns.len() as int) =~= ns@);
        lemma_raised_all(*grid, width as nat, height as nat, mines, m, ns@.to_set());
    }
}

/// The grid of the given size with a mine on each of `positions`.
pub fn lay_mines(width: usize, height: usize, positions: &Vec<Point>) -> (grid: Vec<Vec<i8>>)
    requires
        placement_error(width as nat, height as nat, positions@) is None,
    ensures
        numbered(
            grid,
            width as nat,
            height as nat,
            positions@.to_set(),
            positions@.to_set(),
            Set::empty(),
        ),
{
    proof {
        assert(width > 0 && height > 0) by (nonlinear_arith)
            requires
                0 < width * height,
        ;
    }
    let mut grid = blank_grid(width, height);
    let mut k: usize = 0;
    proof {
        assert(positions@.take(0).to_set() =~= Set::<Point>::empty());
    }
    while k < positions.len()
        invariant
            k <= positions.len(),
            width > 0,
            height > 0,
            positions@.no_duplicates(),
            forall|i: int|
                0 <= i < positions.len() ==> on_grid(
                    width as nat,
                    height as nat,
                    #[trigger] positions[i],
                ),
            numbered(
                grid,
                width as nat,
                height as nat,
                positions@.take(k as int).to_set(),
                positions@.take(k as int).to_set(),
                Set::empty(),
            ),
        decreases positions.len() - k,
    {
        let m = positions[k];
        proof {
            assert(on_grid(width as nat, height as nat, positions[k as int]));
            assert(!positions@.take(k as int).contains(m)) by {
                if positions@.take(k as int).contains(m) {
                    let j = choose|j: int| 0 <= j < k && positions@.take(k as int)[j] == m;
                    assert(positions@[j] == positions@[k as int]);
                }
            }
            assert(positions@.take(k + 1) =~= positions@.take(k as int).push(m));
            lemma_push_distinct(positions@.take(k as int), m);
        }
        lay_mine(&mut grid, width, height, m, Ghost(positions@.take(k as int).to_set()));
        k += 1;
    }
    proof {
        assert(positions@.take(positions.len() as int) =~= positions@);
    }
    grid
}

/// Checks that mines can be laid at `positions` on a grid of the given
/// size, and says why if they cannot.
pub fn check_placement(width: usize, height: usize, positions: &Vec<Point>) -> (r: Option<
    ConfigError,
>)
    ensures
        r == placement_error(width as nat, height as nat, positions@),
{
    let cells = match width.checked_mul(height) {
        Some(cells) => cells,
        None => {
            return Some(ConfigError::TooLarge);
        },
    };
    if positions.len() >= cells {
        return Some(ConfigError::TooManyMines);
    }
    let mut i: usize = 0;
    while i < positions.len()
        invariant
            i <= positions.len(),
            width * height <= usize::MAX,
            positions.len() < width * height,
            forall|j: int|
                0 <= j < i ==> on_grid(width as nat, height as nat, #[trigger] positions[j]),
        decreases positions.len() - i,
    {
        if positions[i].0 >= width || positions[i].1 >= height {
            proof {
                assert(!on_grid(width as nat, height as nat, positions[i as int]));
            }
            return Some(ConfigError::OutOfBounds);
        }
        i += 1;
    }
    let mut seen: Vec<Point> = Vec::new();
    let mut k: usize = 0;
    while k < positions.len()
        invariant
            k <= positions.len(),
            seen@ == positions@.take(k as int),
            seen@.no_duplicates(),
            width * height <= usize::MAX,
            positions.len() < width * height,
            forall|j: int|
                0 <= j < positions.len() ==> on_grid(
                    width as nat,
                    height as nat,
                    #[trigger] positions[j],
                ),
        decreases positions.len() - k,
    {
        let p = positions[k];
        match position(&seen, p) {
            Some(j) => {
                proof {
                    assert(positions@[j as int] == positions@[k as int]);
                }
                return Some(ConfigError::Duplicate);
            },
            None => {
                proof {
                    lemma_push_distinct(seen@, p);
                    assert(positions@.take(k + 1) =~= positions@.take(k as int).push(p));
                }
                seen.push(p);
            },
        }
        k += 1;
    }
    proof {
        assert(positions@.take(positions.len() as int) =~= positions@);
    }
    None
}

/// How many random draws a board is given for each of its cells before the
/// mines still missing are put on the first free cells.
pub const DRAWS_PER_CELL: usize = 64;

/// Adds `candidate` to the mines if it lies on the grid and holds no mine
/// yet, and says whether it did.
pub fn try_place(positions: &mut Vec<Point>, width: usize, height: usize, candidate: Point) -> (placed:
    bool)
    ensures
        placed == (on_grid(width as nat, height as nat, candidate) && !old(positions)@.contains(
            candidate,
        )),
        final(positions)@ == if placed {
            old(positions)@.push(candidate)
        } else {
            old(positions)@
        },
{
    if candidate.0 >= width || candidate.1 >= height {
        return false;
    }
    if position(positions, candidate).is_some() {
        return false;
    }
    positions.push(candidate);
    true
}

/// Distinct cells of the grid, each one on it.
pub open spec fn placed_well(width: nat, height: nat, positions: Seq<Point>) -> bool {
    &&& positions.no_duplicates()
    &&& forall|i: int| 0 <= i < positions.len() ==> on_grid(width, height, #[trigger] positions[i])
}

/// Brings the mines up to `num_mines` by going through the grid row by row
/// and taking each cell that holds none.
fn fill_up(positions: &mut Vec<Point>, width: usize, height: usize, num_mines: usize)
    requires
        width * height <= usize::MAX,
        num_mines < width * height,
        old(positions).len() <= num_mines,
        placed_well(width as nat, height as nat, old(positions)@),
    ensures
        final(positions).len() == num_mines,
        placed_well(width as nat, height as nat, final(positions)@),
{
    let mut x: usize = 0;
    let mut y: usize = 0;
    proof {
        assert(width > 0 && height > 0) by (nonlinear_arith)
            requires
                0 < width * height,
        ;
    }
    while positions.len() < num_mines
        invariant
            width * height <= usize::MAX,
            num_mines < width * height,
            positions.len() <= num_mines,
            placed_well(width as nat, height as nat, positions@),
            x < width,
            y <= height,
            forall|p: Point|
                on_grid(width as nat, height as nat, p) && (p.1 < y || (p.1 == y && p.0 < x))
                    ==> positions@.contains(p),
        decreases height - y, width - x,
    {
        proof {
            if y == height {
                lemma_covering_len(
                    Board::fresh(width as nat, height as nat, Set::empty()),
                    positions@,
                );
            }
        }
        let ghost before = positions@;
        let placed = try_place(positions, width, height, (x, y));
        proof {
            if placed {
                lemma_push_distinct(before, (x, y));
            }
        }
        x += 1;
        if x == width {
            x = 0;
            y += 1;
        }
    }
}

/// Draws `num_mines` distinct cells of the grid at random: a cell is drawn
/// again and again, and taken unless it lies off the grid or was taken
/// before. Should the draws run out, the first free cells make up the rest.
pub fn draw_mines(width: usize, height: usize, num_mines: usize) -> (positions: Vec<Point>)
    requires
        width * height <= usize::MAX,
        num_mines < width * height,
    ensures
        positions.len() == num_mines,
        placement_error(width as nat, height as nat, positions@) is None,
{
    let cells = width * height;
    let mut draws = match cells.checked_mul(DRAWS_PER_CELL) {
        Some(draws) => draws,
        None => usize::MAX,
    };
    let mut positions: Vec<Point> = Vec::new();
    while positions.len() < num_mines && draws > 0
        invariant
            positions.len() <= num_mines,
            placed_well(width as nat, height as nat, positions@),
        decreases draws,
    {
        draws -= 1;
        let x = draw_below(width);
        let y = draw_below(height);
        let ghost before = positions@;
        let placed = try_place(&mut positions, width, height, (x, y));
        proof {
            if placed {
                lemma_push_distinct(before, (x, y));
            }
        }
    }
    fill_up(&mut positions, width, height, num_mines);
    positions
}

} // verus!
