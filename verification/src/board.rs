//! The mathematical model of a game: what a board is and what each move does
//! to it, independent of how the engine stores it.

use vstd::prelude::*;

verus! {

/// A cell coordinate: column first, then row.
pub type Point = (usize, usize);

/// Where a game stands.
#[derive(Debug, Clone, Copy, PartialEq, Eq, Structural)]
pub enum GameState {
    Playing,
    Win,
    Lose,
}

/// Why a board cannot be laid out.
#[derive(Debug, Clone, Copy, PartialEq, Eq, Structural)]
pub enum ConfigError {
    /// The grid has more cells than the machine can count.
    TooLarge,
    /// There are at least as many mines as cells.
    TooManyMines,
    /// A mine lies outside the grid.
    OutOfBounds,
    /// Two mines lie on one cell.
    Duplicate,
}

/// A game as sets of coordinates.
pub struct Board {
    pub width: nat,
    pub height: nat,
    pub mines: Set<Point>,
    pub flagged: Set<Point>,
    pub revealed: Set<Point>,
    pub state: GameState,
}

/// Two distinct cells that touch by a side or a corner.
pub open spec fn adjacent(a: Point, b: Point) -> bool {
    &&& a != b
    &&& -1 <= a.0 - b.0 <= 1
    &&& -1 <= a.1 - b.1 <= 1
}

/// How many entries of `cells` belong to `marked`.
pub open spec fn count_in(cells: Seq<Point>, marked: Set<Point>) -> nat
    decreases cells.len(),
{
    if cells.len() == 0 {
        0
    } else {
        count_in(cells.drop_last(), marked) + if marked.contains(cells.last()) {
            1nat
        } else {
            0nat
        }
    }
}

/// Whether a grid of the given size has the cell `p`.
pub open spec fn on_grid(width: nat, height: nat, p: Point) -> bool {
    p.0 < width && p.1 < height
}

/// `s`, followed by the cell at column `x` and row `y` if a grid of the
/// given size has one.
pub open spec fn with_cell(width: nat, height: nat, s: Seq<Point>, x: int, y: int) -> Seq<Point> {
    if 0 <= x < width && 0 <= y < height {
        s.push((x as usize, y as usize))
    } else {
        s
    }
}

/// The up to eight cells around `p` on a grid of the given size, column by
/// column from the left and, within a column, from the top.
pub open spec fn cells_around(width: nat, height: nat, p: Point) -> Seq<Point> {
    let x = p.0 as int;
    let y = p.1 as int;
    let s = Seq::<Point>::empty();
    let s = with_cell(width, height, s, x - 1, y - 1);
    let s = with_cell(width, height, s, x - 1, y);
    let s = with_cell(width, height, s, x - 1, y + 1);
    let s = with_cell(width, height, s, x, y - 1);
    let s = with_cell(width, height, s, x, y + 1);
    let s = with_cell(width, height, s, x + 1, y - 1);
    let s = with_cell(width, height, s, x + 1, y);
    let s = with_cell(width, height, s, x + 1, y + 1);
    s
}

/// Why the mines at `positions` cannot be laid out on a grid of the given
/// size, if they cannot. The first reason that applies is the one given.
pub open spec fn placement_error(width: nat, height: nat, positions: Seq<Point>) -> Option<
    ConfigError,
> {
    if width * height > usize::MAX {
        Some(ConfigError::TooLarge)
    } else if positions.len() >= width * height {
        Some(ConfigError::TooManyMines)
    } else if exists|i: int|
        0 <= i < positions.len() && !on_grid(width, height, #[trigger] positions[i]) {
        Some(ConfigError::OutOfBounds)
    } else if !positions.no_duplicates() {
        Some(ConfigError::Duplicate)
    } else {
        None
    }
}

impl Board {
    /// A board of the given size on which nothing has happened yet.
    pub open spec fn fresh(width: nat, height: nat, mines: Set<Point>) -> Board {
        Board {
            width,
            height,
            mines,
            flagged: Set::empty(),
            revealed: Set::empty(),
            state: GameState::Playing,
        }
    }

    pub open spec fn in_bounds(self, p: Point) -> bool {
        on_grid(self.width, self.height, p)
    }

    /// Every coordinate of the grid.
    pub open spec fn cells(self) -> Set<Point> {
        Set::new(|p: Point| self.in_bounds(p))
    }

    /// The number of cells that hold no mine.
    pub open spec fn safe_total(self) -> int {
        self.width * self.height - self.mines.len()
    }

    /// The up to eight cells around `p`, column by column from the left and,
    /// within a column, from the top.
    pub open spec fn neighbors(self, p: Point) -> Seq<Point> {
        cells_around(self.width, self.height, p)
    }

    /// The number a cell shows: how many of its neighbors hold a mine.
    pub open spec fn adjacent_mines(self, p: Point) -> nat {
        count_in(self.neighbors(p), self.mines)
    }

    /// How many of the neighbors of `p` carry a flag.
    pub open spec fn flags_around(self, p: Point) -> nat {
        count_in(self.neighbors(p), self.flagged)
    }

    /// A cell without a mine on it or next to it.
    pub open spec fn is_blank(self, p: Point) -> bool {
        &&& self.in_bounds(p)
        &&& !self.mines.contains(p)
        &&& self.adjacent_mines(p) == 0
    }

    /// A cell that a reveal may still uncover: on the grid, neither revealed
    /// nor flagged.
    pub open spec fn can_open(self, p: Point) -> bool {
        &&& self.in_bounds(p)
        &&& !self.revealed.contains(p)
        &&& !self.flagged.contains(p)
    }

    /// What holds of every board that the engine produces.
    pub open spec fn valid(self) -> bool {
        &&& self.width * self.height <= usize::MAX
        &&& self.mines.subset_of(self.cells())
        &&& self.mines.len() < self.width * self.height
        &&& self.revealed.subset_of(self.cells())
        &&& self.flagged.subset_of(self.cells())
        &&& self.revealed.disjoint(self.mines)
        &&& self.revealed.disjoint(self.flagged)
    }

    /// A walk over cells that can be opened, each step going from a blank
    /// cell to one of its neighbors.
    pub open spec fn is_trail(self, t: Seq<Point>) -> bool
        decreases t.len(),
    {
        if t.len() == 0 {
            false
        } else if t.len() == 1 {
            self.can_open(t[0])
        } else {
            let walked = t.drop_last();
            &&& self.is_trail(walked)
            &&& self.is_blank(walked.last())
            &&& adjacent(walked.last(), t.last())
            &&& self.can_open(t.last())
        }
    }

    /// The cells that a cascade starting at `start` uncovers: those at the
    /// end of a trail that begins at `start`.
    pub open spec fn region(self, start: Point) -> Set<Point> {
        Set::new(
            |q: Point|
                exists|t: Seq<Point>| #[trigger] self.is_trail(t) && t[0] == start && t.last() == q,
        )
    }

    /// The board after the cascade from `p` has run: the region of `p` is
    /// revealed, and the game is won if no safe cell is left covered.
    pub open spec fn uncover(self, p: Point) -> Board {
        let revealed = self.revealed.union(self.region(p));
        Board {
            width: self.width,
            height: self.height,
            mines: self.mines,
            flagged: self.flagged,
            revealed,
            state: if revealed.len() == self.safe_total() {
                GameState::Win
            } else {
                self.state
            },
        }
    }

    /// The board with the game lost and nothing else changed.
    pub open spec fn lost(self) -> Board {
        Board {
            width: self.width,
            height: self.height,
            mines: self.mines,
            flagged: self.flagged,
            revealed: self.revealed,
            state: GameState::Lose,
        }
    }

    /// What a chord does with one neighbor: a revealed or flagged one is left
    /// alone, a mine loses the game, any other is uncovered with its cascade.
    pub open spec fn visit(self, n: Point) -> Board {
        if !self.can_open(n) {
            self
        } else if self.mines.contains(n) {
            self.lost()
        } else {
            self.uncover(n)
        }
    }

    /// The cells of `ns` visited one after the other, first to last.
    pub open spec fn visit_all(self, ns: Seq<Point>) -> Board
        decreases ns.len(),
    {
        if ns.len() == 0 {
            self
        } else {
            self.visit_all(ns.drop_last()).visit(ns.last())
        }
    }

    /// Whether a second reveal of the revealed cell `p` goes on to its
    /// neighbors: as many flags around it as its number says, or no mine
    /// around it at all.
    pub open spec fn spreads(self, p: Point) -> bool {
        self.flags_around(p) == self.adjacent_mines(p) || self.adjacent_mines(p) == 0
    }

    /// The board after the player reveals `p`.
    pub open spec fn reveal_tile(self, p: Point) -> Board {
        if !self.in_bounds(p) || self.flagged.contains(p) {
            self
        } else if self.mines.contains(p) {
            self.lost()
        } else if !self.revealed.contains(p) {
            self.uncover(p)
        } else if self.spreads(p) {
            self.visit_all(self.neighbors(p))
        } else {
            self
        }
    }

    /// The board after the player toggles the flag on `p`.
    pub open spec fn toggle_flag(self, p: Point) -> Board {
        if !self.in_bounds(p) || self.revealed.contains(p) {
            self
        } else {
            Board {
                width: self.width,
                height: self.height,
                mines: self.mines,
                flagged: if self.flagged.contains(p) {
                    self.flagged.remove(p)
                } else {
                    self.flagged.insert(p)
                },
                revealed: self.revealed,
                state: self.state,
            }
        }
    }
}

} // verus!
