//! The engine itself: the stored grid, the two lists of marked cells, and
//! the moves and queries of a game.

use crate::board::{
    adjacent, count_in, on_grid, placement_error, Board, ConfigError, GameState, Point,
};
use crate::cascade::{
    lemma_cascade_begin, lemma_cascade_end, lemma_cascade_push, lemma_cascade_settle,
    lemma_cascade_take, lemma_cascade_within, lemma_region_safe, lemma_same_grid, lemma_sides,
    lemma_uncover_valid,
};
use crate::geometry::{lemma_listed_len, lemma_neighbors, lemma_push_distinct};
use crate::layout::{
    check_placement, collect_around, draw_mines, lay_mines, numbered, position,
};
use vstd::prelude::*;

verus! {

/// A running game.
///
/// The grid holds `-1` on a mine and the number of mines around it on any
/// other cell. Flags and revealed cells are kept as lists without repeats.
pub struct Minesweeper {
    game_state: GameState,
    mines: Vec<Vec<i8>>,
    flags: Vec<Point>,
    revealed: Vec<Point>,
    num_mines: usize,
}

/// The width of a stored grid: the length of its first row.
spec fn grid_width(grid: Vec<Vec<i8>>) -> nat {
    if grid.len() > 0 {
        grid[0].len() as nat
    } else {
        0
    }
}

/// The mines of a stored grid.
spec fn grid_mines(grid: Vec<Vec<i8>>) -> Set<Point> {
    Set::new(
        |p: Point|
            p.1 < grid.len() && p.0 < grid_width(grid) && p.0 < grid[p.1 as int].len()
                && grid[p.1 as int][p.0 as int] == -1,
    )
}

/// The untouched board that a stored grid lays out.
spec fn layout(grid: Vec<Vec<i8>>) -> Board {
    Board::fresh(grid_width(grid), grid.len() as nat, grid_mines(grid))
}

/// A stored grid is rectangular, not empty, and each of its cells holds a
/// mine or the number of mines around it.
#[verifier::opaque]
spec fn grid_ok(grid: Vec<Vec<i8>>, num_mines: usize) -> bool {
    let b = layout(grid);
    &&& grid.len() > 0
    &&& grid[0].len() > 0
    &&& forall|y: int| 0 <= y < grid.len() ==> (#[trigger] grid[y]).len() == grid[0].len()
    &&& b.width * b.height <= usize::MAX
    &&& num_mines == b.mines.len()
    &&& num_mines < b.width * b.height
    &&& forall|x: int, y: int|
        0 <= y < grid.len() && 0 <= x < grid[0].len() ==> {
            let v = #[trigger] grid[y][x];
            v == -1 || v == b.adjacent_mines((x as usize, y as usize))
        }
}

impl View for Minesweeper {
    type V = Board;

    closed spec fn view(&self) -> Board {
        Board {
            width: grid_width(self.mines),
            height: self.mines.len() as nat,
            mines: grid_mines(self.mines),
            flagged: self.flags@.to_set(),
            revealed: self.revealed@.to_set(),
            state: self.game_state,
        }
    }
}

impl Minesweeper {
    /// The engine's own invariant: the stored grid is sound, neither list
    /// repeats a cell, and the board they stand for is valid.
    pub closed spec fn wf(&self) -> bool {
        &&& grid_ok(self.mines, self.num_mines)
        &&& self.flags@.no_duplicates()
        &&& self.revealed@.no_duplicates()
        &&& self@.valid()
    }

    /// The untouched game on a grid of the given size with a mine on each
    /// of `positions`.
    fn assemble(width: usize, height: usize, positions: &Vec<Point>) -> (game: Minesweeper)
        requires
            placement_error(width as nat, height as nat, positions@) is None,
        ensures
            game.wf(),
            game@ == Board::fresh(width as nat, height as nat, positions@.to_set()),
    {
        let grid = lay_mines(width, height, positions);
        let game = Minesweeper {
            game_state: GameState::Playing,
            mines: grid,
            flags: Vec::new(),
            revealed: Vec::new(),
            num_mines: positions.len(),
        };
        proof {
            reveal(grid_ok);
            let placed = positions@.to_set();
            assert(width > 0 && height > 0) by (nonlinear_arith)
                requires
                    0 < width * height,
            ;
            assert(numbered(grid, width as nat, height as nat, placed, placed, Set::empty()));
            assert forall|p: Point| grid_mines(grid).contains(p) <==> placed.contains(p) by {
                if placed.contains(p) {
                    let i = choose|i: int| 0 <= i < positions@.len() && positions@[i] == p;
                    assert(on_grid(width as nat, height as nat, positions@[i]));
                }
                if p.1 < height && p.0 < width {
                    assert(grid[p.1 as int][p.0 as int] == -1 <==> placed.contains(p));
                }
            }
            assert(grid_mines(grid) =~= placed);
            positions@.unique_seq_to_set();
            assert(game.flags@.to_set() =~= Set::<Point>::empty());
            assert(game.revealed@.to_set() =~= Set::<Point>::empty());
            assert(game@ == Board::fresh(width as nat, height as nat, placed));
            assert(grid_ok(game.mines, game.num_mines));
        }
        game
    }

    /// A new game on a grid of `dimensions.0` columns and `dimensions.1`
    /// rows, with a mine on each of `mine_positions`.
    ///
    /// The positions must be distinct cells of the grid, and fewer than the
    /// grid has cells; otherwise the first reason that applies is returned.
    pub fn with_mines(dimensions: (usize, usize), mine_positions: &Vec<Point>) -> (r: Result<
        Minesweeper,
        ConfigError,
    >)
        ensures
            match r {
                Ok(game) => {
                    &&& placement_error(dimensions.0 as nat, dimensions.1 as nat, mine_positions@)
                        is None
                    &&& game.wf()
                    &&& game@.valid()
                    &&& game@ == Board::fresh(
                        dimensions.0 as nat,
                        dimensions.1 as nat,
                        mine_positions@.to_set(),
                    )
                },
                Err(e) => placement_error(
                    dimensions.0 as nat,
                    dimensions.1 as nat,
                    mine_positions@,
                ) == Some(e),
            },
    {
        match check_placement(dimensions.0, dimensions.1, mine_positions) {
            Some(e) => Err(e),
            None => Ok(Minesweeper::assemble(dimensions.0, dimensions.1, mine_positions)),
        }
    }

    /// A new game on a grid of `dimensions.0` columns and `dimensions.1`
    /// rows, with `num_mines` mines on cells drawn at random.
    ///
    /// There must be fewer mines than cells, and no more cells than the
    /// machine can count.
    pub fn new(dimensions: (usize, usize), num_mines: usize) -> (r: Result<Minesweeper, ConfigError>)
        ensures
            match r {
                Ok(game) => {
                    &&& num_mines < dimensions.0 * dimensions.1 <= usize::MAX
                    &&& game.wf()
                    &&& game@.valid()
                    &&& game@ == Board::fresh(
                        dimensions.0 as nat,
                        dimensions.1 as nat,
                        game@.mines,
                    )
                    &&& game@.mines.len() == num_mines
                },
                Err(e) => if dimensions.0 * dimensions.1 > usize::MAX {
                    e == ConfigError::TooLarge
                } else {
                    e == ConfigError::TooManyMines && num_mines >= dimensions.0 * dimensions.1
                },
            },
    {
        let cells = match dimensions.0.checked_mul(dimensions.1) {
            Some(cells) => cells,
            None => {
                return Err(ConfigError::TooLarge);
            },
        };
        if num_mines >= cells {
            return Err(ConfigError::TooManyMines);
        }
        let positions = draw_mines(dimensions.0, dimensions.1, num_mines);
        let game = Minesweeper::assemble(dimensions.0, dimensions.1, &positions);
        proof {
            positions@.unique_seq_to_set();
        }
        Ok(game)
    }

    /// Every engine that keeps its invariant stands for a valid board.
    pub proof fn lemma_valid(&self)
        requires
            self.wf(),
        ensures
            self@.valid(),
    {
    }

    /// Whether `coords` lies outside the grid.
    pub fn out_of_bounds(&self, coords: Point) -> (r: bool)
        requires
            self.wf(),
        ensures
            r == !self@.in_bounds(coords),
    {
        proof {
            reveal(grid_ok);
        }
        coords.0 >= self.mines[0].len() || coords.1 >= self.mines.len()
    }

    /// What the cell shows: the number of mines around it, `-1` on a mine,
    /// and `0` outside the grid.
    pub fn mine_count(&self, coords: Point) -> (r: i8)
        requires
            self.wf(),
        ensures
            r == if !self@.in_bounds(coords) {
                0
            } else if self@.mines.contains(coords) {
                -1
            } else {
                self@.adjacent_mines(coords) as int
            },
    {
        proof {
            reveal(grid_ok);
        }
        if coords.0 < self.mines[0].len() && coords.1 < self.mines.len() {
            proof {
                lemma_same_grid(self@, layout(self.mines), coords);
            }
            self.mines[coords.1][coords.0]
        } else {
            0
        }
    }

    /// The number of flags on the board.
    pub fn total_flags(&self) -> (r: usize)
        requires
            self.wf(),
        ensures
            r == self@.flagged.len(),
    {
        proof {
            self.flags@.unique_seq_to_set();
        }
        self.flags.len()
    }

    /// The number of mines on the board.
    pub fn total_mines(&self) -> (r: usize)
        requires
            self.wf(),
        ensures
            r == self@.mines.len(),
    {
        proof {
            reveal(grid_ok);
        }
        self.num_mines
    }

    /// The number of revealed cells.
    pub fn total_revealed(&self) -> (r: usize)
        requires
            self.wf(),
        ensures
            r == self@.revealed.len(),
    {
        proof {
            self.revealed@.unique_seq_to_set();
        }
        self.revealed.len()
    }

    /// Whether the cell holds a mine; `false` outside the grid.
    pub fn is_mine(&self, coords: Point) -> (r: bool)
        requires
            self.wf(),
        ensures
            r == self@.mines.contains(coords),
    {
        proof {
            reveal(grid_ok);
        }
        if self.out_of_bounds(coords) {
            return false;
        }
        self.mines[coords.1][coords.0] == -1
    }

    /// Whether the cell carries a flag; `false` outside the grid.
    pub fn is_flagged(&self, coords: Point) -> (r: bool)
        requires
            self.wf(),
        ensures
            r == self@.flagged.contains(coords),
    {
        if self.out_of_bounds(coords) {
            return false;
        }
        position(&self.flags, coords).is_some()
    }

    /// Whether the cell is revealed; `false` outside the grid.
    pub fn is_revealed(&self, coords: Point) -> (r: bool)
        requires
            self.wf(),
        ensures
            r == self@.revealed.contains(coords),
    {
        if self.out_of_bounds(coords) {
            return false;
        }
        position(&self.revealed, coords).is_some()
    }

    /// Where the game stands.
    pub fn current_state(&self) -> (r: &GameState)
        requires
            self.wf(),
        ensures
            *r == self@.state,
    {
        &self.game_state
    }

    /// The cells of the grid around `coords`, column by column from the
    /// left and, within a column, from the top.
    pub fn neighbors(&self, coords: Point) -> (ns: Vec<Point>)
        requires
            self.wf(),
        ensures
            ns@ == self@.neighbors(coords),
    {
        proof {
            reveal(grid_ok);
        }
        collect_around(self.mines[0].len(), self.mines.len(), coords)
    }

    /// The number of cells without a mine.
    fn safe_total(&self) -> (r: usize)
        requires
            self.wf(),
        ensures
            r == self@.safe_total(),
    {
        proof {
            reveal(grid_ok);
        }
        self.mines[0].len() * self.mines.len() - self.num_mines
    }

    /// What a cascade leaves untouched: the grid, the flags and the state
    /// are those of `origin`, the engine as the cascade found it, and no
    /// cell is listed twice as revealed.
    spec fn cascade_frame(&self, origin: Minesweeper) -> bool {
        &&& origin.wf()
        &&& self.mines == origin.mines
        &&& self.flags == origin.flags
        &&& self.num_mines == origin.num_mines
        &&& self.game_state == origin.game_state
        &&& self.revealed@.no_duplicates()
    }

    /// A cascade from a safe cell keeps the engine's invariant, and reveals
    /// no more cells than the grid has.
    proof fn lemma_cascade_wf(
        &self,
        origin: Minesweeper,
        start: Point,
        pending: Set<Point>,
        busy: Option<Point>,
    )
        requires
            self.cascade_frame(origin),
            !origin@.mines.contains(start),
            origin@.cascading(self@.revealed, start, pending, busy),
        ensures
            self.wf(),
            self.revealed@.len() <= origin@.width * origin@.height,
    {
        let before = origin@;
        lemma_cascade_within(before, self@.revealed, start, pending, busy);
        lemma_sides(before);
        lemma_region_safe(before, start);
        assert(self@.cells() == before.cells());
        assert(self@.valid());
        lemma_listed_len(self@, self.revealed@);
    }

    /// Takes the last pending cell of a cascade and makes it the busy one.
    fn cascade_take(
        &self,
        pending: &mut Vec<Point>,
        Ghost(origin): Ghost<Minesweeper>,
        Ghost(start): Ghost<Point>,
    ) -> (x: Point)
        requires
            self.cascade_frame(origin),
            !origin@.mines.contains(start),
            origin@.cascading(self@.revealed, start, old(pending)@.to_set(), None),
            old(pending).len() > 0,
        ensures
            origin@.cascading(self@.revealed, start, final(pending)@.to_set(), Some(x)),
            final(pending).len() == old(pending).len() - 1,
            origin@.region(start).contains(x),
            origin@.in_bounds(x),
            !origin@.mines.contains(x),
    {
        let ghost waiting = pending@;
        let x = pending.pop().unwrap();
        proof {
            let before = origin@;
            assert(waiting.to_set().contains(x)) by {
                assert(waiting[waiting.len() - 1] == x);
            }
            assert forall|c: Point| pending@.contains(c) implies waiting.contains(c) by {
                let i = choose|i: int| 0 <= i < pending@.len() && pending@[i] == c;
                assert(waiting[i] == c);
            }
            assert forall|c: Point| waiting.contains(c) implies pending@.contains(c) || c == x by {
                let i = choose|i: int| 0 <= i < waiting.len() && waiting[i] == c;
                if i < waiting.len() - 1 {
                    assert(pending@[i] == c);
                }
            }
            lemma_cascade_within(before, self@.revealed, start, waiting.to_set(), None);
            lemma_cascade_take(
                before,
                self@.revealed,
                start,
                waiting.to_set(),
                pending@.to_set(),
                x,
            );
            lemma_sides(before);
            lemma_region_safe(before, start);
            assert(before.region(start).contains(x));
        }
        x
    }

    /// Looks at the neighbor `n` of the busy cell `x` of a cascade: if it
    /// can still be opened, it is revealed and becomes pending.
    fn cascade_mark(
        &mut self,
        pending: &mut Vec<Point>,
        n: Point,
        Ghost(origin): Ghost<Minesweeper>,
        Ghost(start): Ghost<Point>,
        Ghost(x): Ghost<Point>,
    )
        requires
            old(self).cascade_frame(origin),
            old(self).wf(),
            !origin@.mines.contains(start),
            origin@.cascading(old(self)@.revealed, start, old(pending)@.to_set(), Some(x)),
            origin@.region(start).contains(x),
            origin@.is_blank(x),
            adjacent(x, n),
            origin@.in_bounds(n),
        ensures
            final(self).cascade_frame(origin),
            final(self).wf(),
            origin@.cascading(final(self)@.revealed, start, final(pending)@.to_set(), Some(x)),
            old(self)@.revealed.subset_of(final(self)@.revealed),
            origin@.can_open(n) ==> final(self)@.revealed.contains(n),
            final(self).revealed.len() <= origin@.width * origin@.height,
            final(pending).len() - old(pending).len() == final(self).revealed.len() - old(
                self,
            ).revealed.len(),
            0 <= final(pending).len() - old(pending).len() <= 1,
    {
        let ghost before = origin@;
        proof {
            lemma_cascade_within(before, self@.revealed, start, pending@.to_set(), Some(x));
            self.lemma_cascade_wf(origin, start, pending@.to_set(), Some(x));
        }
        if !self.is_revealed(n) && !self.is_flagged(n) {
            let ghost now = *self;
            let ghost queued = pending@;
            self.revealed.push(n);
            pending.push(n);
            proof {
                lemma_push_distinct(now.revealed@, n);
                assert(pending@.to_set() =~= queued.to_set().insert(n)) by {
                    broadcast use vstd::seq_lib::lemma_seq_contains_after_push;

                }
                assert(self@.revealed == now@.revealed.insert(n));
                assert(before.can_open(n));
                lemma_cascade_push(before, now@.revealed, start, queued.to_set(), x, n);
                self.lemma_cascade_wf(origin, start, pending@.to_set(), Some(x));
            }
        }
    }

    /// Reveals the covered, unflagged, safe cell `start` and everything the
    /// cascade from it reaches, and declares the game won if no safe cell
    /// is left covered.
    fn uncover(&mut self, start: Point)
        requires
            old(self).wf(),
            old(self)@.can_open(start),
            !old(self)@.mines.contains(start),
        ensures
            final(self).wf(),
            final(self)@ == old(self)@.uncover(start),
    {
        let ghost origin = *self;
        let ghost before = self@;
        let cells = self.mines[0].len() * self.mines.len();
        proof {
            reveal(grid_ok);
            lemma_push_distinct(self.revealed@, start);
        }
        self.revealed.push(start);
        let mut pending: Vec<Point> = Vec::new();
        pending.push(start);
        proof {
            assert(pending@ =~= seq![start]);
            assert(pending@.to_set() =~= set![start]) by {
                assert(pending@[0] == start);
            }
            lemma_cascade_begin(before, start);
            self.lemma_cascade_wf(origin, start, pending@.to_set(), None);
        }
        while pending.len() > 0
            invariant
                self.cascade_frame(origin),
                !before.mines.contains(start),
                before.cascading(self@.revealed, start, pending@.to_set(), None),
                self.wf(),
                before == origin@,
                cells == before.width * before.height,
                self.revealed.len() <= cells,
            decreases cells - self.revealed.len(), pending.len(),
        {
            let ghost shown = self.revealed.len();
            let ghost waiting = pending.len();
            let x = self.cascade_take(&mut pending, Ghost(origin), Ghost(start));
            proof {
                lemma_same_grid(before, self@, x);
            }
            if self.mine_count(x) == 0 {
                let ns = self.neighbors(x);
                let mut i: usize = 0;
                proof {
                    lemma_sides(before);
                    lemma_neighbors(before, x);
                }
                while i < ns.len()
                    invariant
                        self.cascade_frame(origin),
                        !before.mines.contains(start),
                        before.cascading(self@.revealed, start, pending@.to_set(), Some(x)),
                        self.wf(),
                        before == origin@,
                        cells == before.width * before.height,
                        self.revealed.len() <= cells,
                        pending.len() - (waiting - 1) == self.revealed.len() - shown,
                        pending.len() >= waiting - 1,
                        forall|q: Point| ns@.contains(q) ==> before.in_bounds(q) && adjacent(x, q),
                        before.is_blank(x),
                        before.region(start).contains(x),
                        i <= ns.len(),
                        forall|k: int|
                            0 <= k < i && before.can_open(#[trigger] ns[k])
                                ==> self@.revealed.contains(ns[k]),
                    decreases ns.len() - i,
                {
                    let n = ns[i];
                    proof {
                        assert(ns@.contains(n));
                    }
                    self.cascade_mark(&mut pending, n, Ghost(origin), Ghost(start), Ghost(x));
                    i += 1;
                }
                proof {
                    assert forall|n: Point| #[trigger]
                        adjacent(x, n) && before.can_open(n) implies self@.revealed.contains(n) by {
                        assert(ns@.contains(n));
                        let k = choose|k: int| 0 <= k < ns@.len() && ns@[k] == n;
                        assert(before.can_open(ns[k]));
                    }
                }
            }
            proof {
                lemma_cascade_settle(before, self@.revealed, start, pending@.to_set(), x);
            }
        }
        proof {
            assert(pending@.to_set() =~= Set::<Point>::empty());
            lemma_cascade_end(before, self@.revealed, start);
            self.revealed@.unique_seq_to_set();
            lemma_uncover_valid(before, start);
        }
        if self.revealed.len() == self.safe_total() {
            self.game_state = GameState::Win;
        }
        proof {
            assert(self@.cells() == before.cells());
        }
    }

    /// How many cells of `ns` carry a flag.
    fn flags_among(&self, ns: &Vec<Point>) -> (r: usize)
        requires
            self.wf(),
        ensures
            r == count_in(ns@, self@.flagged),
    {
        let mut r: usize = 0;
        let mut i: usize = 0;
        while i < ns.len()
            invariant
                self.wf(),
                i <= ns.len(),
                r <= i,
                r == count_in(ns@.take(i as int), self@.flagged),
            decreases ns.len() - i,
        {
            proof {
                assert(ns@.take(i + 1).drop_last() =~= ns@.take(i as int));
                assert(ns@.take(i + 1).last() == ns[i as int]);
            }
            if self.is_flagged(ns[i]) {
                r += 1;
            }
            i += 1;
        }
        proof {
            assert(ns@.take(ns.len() as int) =~= ns@);
        }
        r
    }

    /// Visits the cells of `ns` in turn: each one that is neither revealed
    /// nor flagged loses the game if it holds a mine, and is uncovered with
    /// its cascade if it does not.
    fn visit_all(&mut self, ns: &Vec<Point>)
        requires
            old(self).wf(),
            forall|i: int| 0 <= i < ns.len() ==> old(self)@.in_bounds(#[trigger] ns[i]),
        ensures
            final(self).wf(),
            final(self)@ == old(self)@.visit_all(ns@),
    {
        let mut i: usize = 0;
        while i < ns.len()
            invariant
                self.wf(),
                i <= ns.len(),
                self@.width == old(self)@.width,
                self@.height == old(self)@.height,
                forall|i: int| 0 <= i < ns.len() ==> old(self)@.in_bounds(#[trigger] ns[i]),
                self@ == old(self)@.visit_all(ns@.take(i as int)),
            decreases ns.len() - i,
        {
            let n = ns[i];
            proof {
                assert(ns@.take(i + 1).drop_last() =~= ns@.take(i as int));
                assert(ns@.take(i + 1).last() == n);
                assert(self@.in_bounds(n));
            }
            if !self.is_revealed(n) && !self.is_flagged(n) {
                if self.is_mine(n) {
                    self.lose();
                } else {
                    self.uncover(n);
                }
            }
            i += 1;
        }
        proof {
            assert(ns@.take(ns.len() as int) =~= ns@);
        }
    }

    /// Ends the game as lost.
    fn lose(&mut self)
        requires
            old(self).wf(),
        ensures
            final(self).wf(),
            final(self)@ == old(self)@.lost(),
    {
        self.game_state = GameState::Lose;
        proof {
            assert(self@.cells() == old(self)@.cells());
        }
    }

    /// Reveals a cell.
    ///
    /// Outside the grid or on a flag nothing happens. A mine loses the game.
    /// A covered safe cell is uncovered together with its cascade. A cell
    /// that is already revealed passes the reveal on to its neighbors if as
    /// many of them are flagged as its number says, or if its number is zero.
    pub fn reveal_tile(&mut self, coords: Point)
        requires
            old(self).wf(),
        ensures
            final(self).wf(),
            final(self)@ == old(self)@.reveal_tile(coords),
    {
        if self.out_of_bounds(coords) {
            return ;
        }
        if self.is_flagged(coords) {
            return ;
        }
        if self.is_mine(coords) {
            self.lose();
            return ;
        }
        if !self.is_revealed(coords) {
            self.uncover(coords);
            return ;
        }
        let ns = self.neighbors(coords);
        let number = self.mine_count(coords);
        let flags = self.flags_among(&ns);
        proof {
            lemma_sides(self@);
            lemma_neighbors(self@, coords);
            assert forall|i: int| 0 <= i < ns.len() implies self@.in_bounds(#[trigger] ns[i]) by {
                assert(ns@.contains(ns[i]));
            }
        }
        if number == 0 || flags == number as usize {
            self.visit_all(&ns);
        }
    }

    /// Sets a flag on a covered cell or takes it off again. A revealed cell,
    /// or one outside the grid, is left as it is.
    pub fn toggle_flag(&mut self, coords: Point)
        requires
            old(self).wf(),
        ensures
            final(self).wf(),
            final(self)@ == old(self)@.toggle_flag(coords),
    {
        if self.out_of_bounds(coords) || self.is_revealed(coords) {
            return ;
        }
        match position(&self.flags, coords) {
            None => {
                self.flags.push(coords);
                proof {
                    assert(self.flags@.to_set() =~= old(self).flags@.to_set().insert(coords)) by {
                        broadcast use vstd::seq_lib::lemma_seq_contains_after_push;

                    }
                    assert(self.flags@.no_duplicates());
                    assert(self@.cells() == old(self)@.cells());
                }
            },
            Some(i) => {
                self.flags.remove(i);
                proof {
                    let before = old(self).flags@;
                    let after = self.flags@;
                    assert forall|q: Point|
                        after.to_set().contains(q) <==> before.to_set().remove(coords).contains(
                            q,
                        ) by {
                        if after.contains(q) {
                            let j = choose|j: int| 0 <= j < after.len() && after[j] == q;
                            if j < i {
                                assert(before[j] == q);
                            } else {
                                assert(before[j + 1] == q);
                            }
                        }
                        if before.contains(q) && q != coords {
                            let j = choose|j: int| 0 <= j < before.len() && before[j] == q;
                            if j < i {
                                assert(after[j] == q);
                            } else {
                                assert(after[j - 1] == q);
                            }
                        }
                    }
                    assert(after.to_set() =~= before.to_set().remove(coords));
                    assert(self@.cells() == old(self)@.cells());
                }
            },
        }
    }
}

} // verus!
