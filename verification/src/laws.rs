//! What holds of every game, stated over the model of the board and proved
//! from the definitions of the two moves.

use crate::board::{adjacent, Board, GameState, Point};
use crate::cascade::{
    lemma_region_least, lemma_region_safe, lemma_region_start, lemma_region_step,
    lemma_revealed_count, lemma_same_grid, lemma_sides, lemma_uncover_valid,
};
use crate::geometry::{lemma_count_bound, lemma_count_is_len, lemma_neighbors};
use vstd::prelude::*;

verus! {

impl Board {
    /// Two boards that differ at most in what is revealed and in the state.
    pub open spec fn same_layout(self, other: Board) -> bool {
        &&& self.width == other.width
        &&& self.height == other.height
        &&& self.mines == other.mines
        &&& self.flagged == other.flagged
    }

    /// The cells of `ns` that a chord uncovers itself: those that can be
    /// opened and hold no mine.
    pub open spec fn is_seed(self, ns: Seq<Point>, n: Point) -> bool {
        ns.contains(n) && self.can_open(n) && !self.mines.contains(n)
    }

    /// Everything a chord over `ns` uncovers: the regions of its seeds.
    pub open spec fn spread(self, ns: Seq<Point>) -> Set<Point> {
        Set::new(
            |q: Point| exists|n: Point| self.is_seed(ns, n) && #[trigger] self.region(n).contains(q),
        )
    }

    /// Whether a chord over `ns` runs into a mine.
    pub open spec fn hits_mine(self, ns: Seq<Point>) -> bool {
        exists|n: Point| ns.contains(n) && self.can_open(n) && #[trigger] self.mines.contains(n)
    }
}

/// The number of a cell is the number of mines that touch it, and so at most
/// eight.
pub proof fn lemma_number_counts_touching_mines(b: Board, p: Point)
    requires
        b.valid(),
    ensures
        b.adjacent_mines(p) == b.mines.filter(|m: Point| adjacent(p, m)).len(),
        b.adjacent_mines(p) <= 8,
{
    let around = b.neighbors(p);
    lemma_sides(b);
    lemma_neighbors(b, p);
    lemma_count_is_len(around, b.mines);
    lemma_count_bound(around, b.mines);
    assert(around.to_set().intersect(b.mines) =~= b.mines.filter(|m: Point| adjacent(p, m)));
}

/// Revealing a mine that carries no flag loses the game and changes nothing
/// else.
pub proof fn lemma_mine_loses(b: Board, p: Point)
    requires
        b.in_bounds(p),
        b.mines.contains(p),
        !b.flagged.contains(p),
    ensures
        b.reveal_tile(p).state == GameState::Lose,
        b.reveal_tile(p) == b.lost(),
{
}

/// The more cells are revealed, the less a cascade reaches: a trail on the
/// later board is a trail on the earlier one.
proof fn lemma_trail_earlier(b: Board, c: Board, t: Seq<Point>)
    requires
        b.same_layout(c),
        b.revealed.subset_of(c.revealed),
        c.is_trail(t),
    ensures
        b.is_trail(t),
    decreases t.len(),
{
    if t.len() > 1 {
        lemma_trail_earlier(b, c, t.drop_last());
        lemma_same_grid(b, c, t.drop_last().last());
    }
}

/// The more cells are revealed, the smaller the region of a cell.
pub proof fn lemma_region_shrinks(b: Board, c: Board, start: Point)
    requires
        b.same_layout(c),
        b.revealed.subset_of(c.revealed),
    ensures
        c.region(start).subset_of(b.region(start)),
{
    assert forall|q: Point| c.region(start).contains(q) implies b.region(start).contains(q) by {
        let t = choose|t: Seq<Point>| #[trigger] c.is_trail(t) && t[0] == start && t.last() == q;
        lemma_trail_earlier(b, c, t);
    }
}

/// What visiting the cells of `ns` one after the other comes to.
///
/// The board stays valid and keeps its mines and flags; what was revealed
/// stays revealed; the new cells are closed under the cascade, each lies
/// in the region of a seed, and every seed is among them. A game that was
/// over stays over, and without a mine in the way the state changes only by
/// a win.
pub proof fn lemma_visit_all(b: Board, ns: Seq<Point>)
    requires
        b.valid(),
    ensures
        b.visit_all(ns).valid(),
        b.same_layout(b.visit_all(ns)),
        b.revealed.subset_of(b.visit_all(ns).revealed),
        b.is_closed(b.visit_all(ns).revealed.difference(b.revealed)),
        forall|q: Point|
            b.visit_all(ns).revealed.contains(q) && !b.revealed.contains(q) ==> b.spread(
                ns,
            ).contains(q),
        forall|n: Point| b.is_seed(ns, n) ==> b.visit_all(ns).revealed.contains(n),
        b.state != GameState::Playing ==> b.visit_all(ns).state != GameState::Playing,
        !b.hits_mine(ns) ==> b.visit_all(ns).state == if b.visit_all(ns).revealed != b.revealed
            && b.visit_all(ns).revealed.len() == b.safe_total() {
            GameState::Win
        } else {
            b.state
        },
    decreases ns.len(),
{
    if ns.len() == 0 {
        assert(b.visit_all(ns).revealed.difference(b.revealed) =~= Set::<Point>::empty());
        assert(b.visit_all(ns).revealed =~= b.revealed);
    } else {
        let front = ns.drop_last();
        let last = ns.last();
        let c = b.visit_all(front);
        let d = c.visit(last);
        lemma_visit_all(b, front);
        lemma_sides(b);
        assert(ns[ns.len() - 1] == last);
        assert forall|n: Point| front.contains(n) implies ns.contains(n) by {
            let i = choose|i: int| 0 <= i < front.len() && front[i] == n;
            assert(ns[i] == n);
        }
        assert forall|n: Point| ns.contains(n) implies front.contains(n) || n == last by {
            let i = choose|i: int| 0 <= i < ns.len() && ns[i] == n;
            if i < ns.len() - 1 {
                assert(front[i] == n);
            }
        }
        assert forall|q: Point| b.spread(front).contains(q) implies b.spread(ns).contains(q) by {
            let n = choose|n: Point| b.is_seed(front, n) && #[trigger] b.region(n).contains(q);
            assert(b.is_seed(ns, n));
        }
        if b.hits_mine(front) {
            let n = choose|n: Point|
                front.contains(n) && b.can_open(n) && #[trigger] b.mines.contains(n);
            assert(ns.contains(n));
        }
        lemma_revealed_count(c);
        if !c.can_open(last) {
            assert(d == c);
        } else if c.mines.contains(last) {
            assert(d.revealed == c.revealed);
            assert(b.can_open(last));
            assert(b.hits_mine(ns));
        } else {
            lemma_uncover_valid(c, last);
            lemma_region_start(c, last);
            lemma_region_shrinks(b, c, last);
            lemma_region_safe(c, last);
            assert(b.can_open(last));
            assert(b.is_seed(ns, last));
            let grown = d.revealed.difference(b.revealed);
            let before = c.revealed.difference(b.revealed);
            assert forall|x: Point, n: Point|
                grown.contains(x) && b.is_blank(x) && #[trigger] adjacent(x, n) && b.can_open(
                    n,
                ) implies grown.contains(n) by {
                lemma_same_grid(b, c, x);
                if before.contains(x) {
                    assert(before.contains(n));
                } else if c.can_open(n) {
                    lemma_region_step(c, last, x, n);
                }
            }
            assert forall|q: Point| d.revealed.contains(q) && !b.revealed.contains(q) implies b.spread(
                ns,
            ).contains(q) by {
                if !c.revealed.contains(q) {
                    assert(b.region(last).contains(q));
                }
            }
            lemma_revealed_count(d);
            assert(d.revealed.contains(last) && !c.revealed.contains(last));
            if c.revealed.len() == b.safe_total() {
                assert(c.revealed == c.safe_cells());
                assert(d.revealed =~= c.revealed);
            }
        }
        assert forall|n: Point| b.is_seed(ns, n) implies d.revealed.contains(n) by {
            if front.contains(n) {
                assert(b.is_seed(front, n));
                assert(c.revealed.contains(n));
            } else {
                assert(n == last);
            }
        }
    }
}

/// A game that is over stays over: no reveal and no flag brings it back to
/// play, and a flag does not change the state at all.
pub proof fn lemma_game_stays_over(b: Board, p: Point)
    requires
        b.valid(),
        b.state != GameState::Playing,
    ensures
        b.reveal_tile(p).state != GameState::Playing,
        b.toggle_flag(p).state == b.state,
{
    lemma_visit_all(b, b.neighbors(p));
}

/// Both moves keep a board valid, with its size and its mines; a reveal
/// keeps the flags and everything that was revealed, a flag keeps what is
/// revealed.
pub proof fn lemma_moves_keep_valid(b: Board, p: Point)
    requires
        b.valid(),
    ensures
        b.reveal_tile(p).valid(),
        b.same_layout(b.reveal_tile(p)),
        b.revealed.subset_of(b.reveal_tile(p).revealed),
        b.toggle_flag(p).valid(),
        b.toggle_flag(p).width == b.width,
        b.toggle_flag(p).height == b.height,
        b.toggle_flag(p).mines == b.mines,
        b.toggle_flag(p).revealed == b.revealed,
{
    lemma_visit_all(b, b.neighbors(p));
    if b.in_bounds(p) && !b.mines.contains(p) {
        lemma_uncover_valid(b, p);
    }
    assert(b.toggle_flag(p).cells() == b.cells());
}

/// Revealing the last covered safe cell wins the game, with as many cells
/// revealed as the board has safe cells.
pub proof fn lemma_last_safe_cell_wins(b: Board, p: Point)
    requires
        b.valid(),
        b.can_open(p),
        !b.mines.contains(p),
        b.revealed.insert(p) == b.safe_cells(),
    ensures
        b.reveal_tile(p).state == GameState::Win,
        b.reveal_tile(p).revealed == b.safe_cells(),
        b.reveal_tile(p).revealed.len() == b.width * b.height - b.mines.len(),
{
    lemma_sides(b);
    lemma_region_start(b, p);
    lemma_region_safe(b, p);
    lemma_revealed_count(b);
    assert(b.uncover(p).revealed =~= b.safe_cells());
}

/// A reveal of a covered safe cell wins the game exactly when it leaves no
/// safe cell covered.
pub proof fn lemma_win_is_all_safe_revealed(b: Board, p: Point)
    requires
        b.valid(),
        b.can_open(p),
        !b.mines.contains(p),
        b.state != GameState::Win,
    ensures
        b.reveal_tile(p).state == GameState::Win <==> b.reveal_tile(p).revealed == b.safe_cells(),
{
    lemma_uncover_valid(b, p);
    lemma_revealed_count(b.uncover(p));
    assert(b.uncover(p).safe_cells() == b.safe_cells());
}

/// The flood fill: revealing a covered safe cell reveals its region and
/// nothing else. The region holds the cell itself; from each blank cell it
/// goes on to every neighbor that can be opened; each of its cells can be
/// opened and holds no mine; and each of them but the first lies next to a
/// blank cell of the region. It is the least such set, as
/// `lemma_region_least` says.
pub proof fn lemma_flood_fill(b: Board, p: Point)
    requires
        b.valid(),
        b.can_open(p),
        !b.mines.contains(p),
    ensures
        b.reveal_tile(p).revealed == b.revealed.union(b.region(p)),
        b.region(p).contains(p),
        b.is_closed(b.region(p)),
        forall|q: Point| #[trigger]
            b.region(p).contains(q) ==> b.can_open(q) && !b.mines.contains(q),
        forall|q: Point|
            b.region(p).contains(q) && q != p ==> exists|x: Point|
                b.region(p).contains(x) && b.is_blank(x) && #[trigger] adjacent(x, q),
{
    lemma_sides(b);
    lemma_region_start(b, p);
    lemma_region_safe(b, p);
    assert forall|x: Point, n: Point|
        b.region(p).contains(x) && b.is_blank(x) && #[trigger] adjacent(x, n) && b.can_open(
            n,
        ) implies b.region(p).contains(n) by {
        lemma_region_step(b, p, x, n);
    }
    assert forall|q: Point| b.region(p).contains(q) && q != p implies exists|x: Point|
        b.region(p).contains(x) && b.is_blank(x) && #[trigger] adjacent(x, q) by {
        let t = choose|t: Seq<Point>| #[trigger] b.is_trail(t) && t[0] == p && t.last() == q;
        let walked = t.drop_last();
        assert(walked[0] == t[0]);
        let x = walked.last();
        assert(b.is_trail(walked) && walked[0] == p && walked.last() == x);
        assert(b.region(p).contains(x) && b.is_blank(x) && adjacent(x, q));
    }
}

/// The chord: revealing a revealed cell with as many flags around it as its
/// number says reveals, besides what was revealed, exactly the regions of
/// its neighbors that can be opened and hold no mine. If none of the
/// neighbors that can be opened holds a mine, the state changes only by a
/// win, which comes when something was uncovered and no safe cell is left.
pub proof fn lemma_chord(b: Board, p: Point)
    requires
        b.valid(),
        b.revealed.contains(p),
        b.flags_around(p) == b.adjacent_mines(p),
    ensures
        b.reveal_tile(p).revealed == b.revealed.union(b.spread(b.neighbors(p))),
        forall|n: Point|
            b.in_bounds(n) && adjacent(p, n) && b.can_open(n) && !b.mines.contains(n)
                ==> b.reveal_tile(p).revealed.contains(n),
        !b.hits_mine(b.neighbors(p)) ==> b.reveal_tile(p).state == if b.reveal_tile(p).revealed
            != b.revealed && b.reveal_tile(p).revealed.len() == b.safe_total() {
            GameState::Win
        } else {
            b.state
        },
{
    let ns = b.neighbors(p);
    let after = b.visit_all(ns);
    lemma_sides(b);
    lemma_neighbors(b, p);
    lemma_visit_all(b, ns);
    assert(b.reveal_tile(p) == after);
    let grown = after.revealed.difference(b.revealed);
    assert forall|q: Point| b.spread(ns).contains(q) implies after.revealed.contains(q) by {
        let n = choose|n: Point| b.is_seed(ns, n) && #[trigger] b.region(n).contains(q);
        assert(grown.contains(n));
        lemma_region_least(b, n, grown);
    }
    assert(after.revealed =~= b.revealed.union(b.spread(ns)));
    assert forall|n: Point|
        b.in_bounds(n) && adjacent(p, n) && b.can_open(n) && !b.mines.contains(
            n,
        ) implies after.revealed.contains(n) by {
        assert(ns.contains(n));
        assert(b.is_seed(ns, n));
    }
}

/// Flags and revealed cells keep apart: a flag on a revealed cell is not
/// set, a flagged cell is not revealed, and a flag set and taken off again,
/// or taken off and set again, leaves the board as it was.
pub proof fn lemma_flags_and_reveals(b: Board, p: Point)
    requires
        b.valid(),
    ensures
        b.revealed.contains(p) ==> b.toggle_flag(p) == b,
        b.flagged.contains(p) ==> b.reveal_tile(p) == b,
        b.toggle_flag(p).toggle_flag(p) == b,
        b.toggle_flag(p).revealed.disjoint(b.toggle_flag(p).flagged),
        b.reveal_tile(p).revealed.disjoint(b.reveal_tile(p).flagged),
{
    lemma_moves_keep_valid(b, p);
    let once = b.toggle_flag(p);
    let twice = once.toggle_flag(p);
    assert(twice.flagged =~= b.flagged);
}

} // verus!
