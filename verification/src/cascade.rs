//! Facts about the region that a cascade uncovers, and about the count of
//! revealed cells that decides a win.

use crate::board::{adjacent, Board, Point};
use crate::geometry::{lemma_cells_len, lemma_count_zero, lemma_neighbors};
use vstd::prelude::*;
use vstd::set_lib::{lemma_len_subset, lemma_subset_equality};

verus! {

impl Board {
    /// A set that a cascade cannot leave: with a blank cell it holds every
    /// neighbor of that cell that can be opened.
    pub open spec fn is_closed(self, s: Set<Point>) -> bool {
        forall|x: Point, n: Point|
            s.contains(x) && self.is_blank(x) && #[trigger] adjacent(x, n) && self.can_open(n)
                ==> s.contains(n)
    }

    /// What a cascade from `start` keeps true while it runs on this board.
    /// `shown` holds the cells revealed so far, `pending` those whose
    /// neighbors are still to be looked at, `busy` the one whose neighbors
    /// are being looked at.
    #[verifier::opaque]
    pub open spec fn cascading(
        self,
        shown: Set<Point>,
        start: Point,
        pending: Set<Point>,
        busy: Option<Point>,
    ) -> bool {
        &&& shown.contains(start)
        &&& self.revealed.subset_of(shown)
        &&& shown.subset_of(self.revealed.union(self.region(start)))
        &&& pending.subset_of(shown.difference(self.revealed))
        &&& forall|x: Point, n: Point|
            shown.contains(x) && !self.revealed.contains(x) && !pending.contains(x) && busy
                != Some(x) && self.is_blank(x) && #[trigger] adjacent(x, n) && self.can_open(n)
                ==> shown.contains(n)
    }

    /// The cells that hold no mine.
    pub open spec fn safe_cells(self) -> Set<Point> {
        self.cells().difference(self.mines)
    }
}

/// Two boards of one size with the same mines show the same numbers.
pub proof fn lemma_same_grid(a: Board, b: Board, p: Point)
    requires
        a.width == b.width,
        a.height == b.height,
        a.mines == b.mines,
    ensures
        a.in_bounds(p) == b.in_bounds(p),
        a.neighbors(p) == b.neighbors(p),
        a.adjacent_mines(p) == b.adjacent_mines(p),
        a.is_blank(p) == b.is_blank(p),
{
}

/// No mine lies next to a blank cell.
pub proof fn lemma_blank_neighbors_safe(b: Board, x: Point, n: Point)
    requires
        b.width <= usize::MAX,
        b.height <= usize::MAX,
        b.is_blank(x),
        adjacent(x, n),
        b.in_bounds(n),
    ensures
        !b.mines.contains(n),
{
    lemma_neighbors(b, x);
    lemma_count_zero(b.neighbors(x), b.mines);
}

/// A cell that can be opened lies in its own region.
pub proof fn lemma_region_start(b: Board, start: Point)
    requires
        b.can_open(start),
    ensures
        b.region(start).contains(start),
{
    let t = seq![start];
    assert(b.is_trail(t) && t[0] == start && t.last() == start);
}

/// A region grows from each of its blank cells to the neighbors that can be
/// opened.
pub proof fn lemma_region_step(b: Board, start: Point, x: Point, n: Point)
    requires
        b.region(start).contains(x),
        b.is_blank(x),
        adjacent(x, n),
        b.can_open(n),
    ensures
        b.region(start).contains(n),
{
    let t = choose|t: Seq<Point>| #[trigger] b.is_trail(t) && t[0] == start && t.last() == x;
    let u = t.push(n);
    assert(u.drop_last() =~= t);
    assert(b.is_trail(u) && u[0] == start && u.last() == n);
}

proof fn lemma_trail_stays(b: Board, t: Seq<Point>, s: Set<Point>)
    requires
        b.is_trail(t),
        s.contains(t[0]),
        b.is_closed(s),
    ensures
        s.contains(t.last()),
    decreases t.len(),
{
    if t.len() > 1 {
        let walked = t.drop_last();
        assert(walked[0] == t[0]);
        lemma_trail_stays(b, walked, s);
        assert(adjacent(walked.last(), t.last()));
    }
}

/// A region is the least closed set around its start: any closed set that
/// holds the start holds the whole region.
pub proof fn lemma_region_least(b: Board, start: Point, s: Set<Point>)
    requires
        b.can_open(start) ==> s.contains(start),
        b.is_closed(s),
    ensures
        b.region(start).subset_of(s),
{
    assert forall|q: Point| b.region(start).contains(q) implies s.contains(q) by {
        let t = choose|t: Seq<Point>| #[trigger] b.is_trail(t) && t[0] == start && t.last() == q;
        lemma_trail_first(b, t);
        lemma_trail_stays(b, t, s);
    }
}

proof fn lemma_trail_first(b: Board, t: Seq<Point>)
    requires
        b.is_trail(t),
    ensures
        b.can_open(t[0]),
        b.can_open(t.last()),
    decreases t.len(),
{
    if t.len() > 1 {
        let walked = t.drop_last();
        assert(walked[0] == t[0]);
        lemma_trail_first(b, walked);
    }
}

proof fn lemma_trail_safe(b: Board, t: Seq<Point>)
    requires
        b.width <= usize::MAX,
        b.height <= usize::MAX,
        b.is_trail(t),
        !b.mines.contains(t[0]),
    ensures
        !b.mines.contains(t.last()),
    decreases t.len(),
{
    if t.len() > 1 {
        let walked = t.drop_last();
        assert(walked[0] == t[0]);
        lemma_blank_neighbors_safe(b, walked.last(), t.last());
    }
}

/// A cascade from a safe cell uncovers only safe cells that could be opened.
pub proof fn lemma_region_safe(b: Board, start: Point)
    requires
        b.width <= usize::MAX,
        b.height <= usize::MAX,
        !b.mines.contains(start),
    ensures
        forall|q: Point| #[trigger]
            b.region(start).contains(q) ==> b.can_open(q) && !b.mines.contains(q),
{
    assert forall|q: Point| #[trigger] b.region(start).contains(q) implies b.can_open(q)
        && !b.mines.contains(q) by {
        let t = choose|t: Seq<Point>| #[trigger] b.is_trail(t) && t[0] == start && t.last() == q;
        lemma_trail_first(b, t);
        lemma_trail_safe(b, t);
    }
}

/// A cascade begins with its start revealed and pending.
pub proof fn lemma_cascade_begin(b: Board, start: Point)
    requires
        b.can_open(start),
    ensures
        b.cascading(b.revealed.insert(start), start, set![start], None),
{
    reveal(Board::cascading);
    lemma_region_start(b, start);
}

/// While a cascade runs, every revealed cell was revealed before or lies in
/// the region of the start, and every pending cell lies in that region.
pub proof fn lemma_cascade_within(
    b: Board,
    shown: Set<Point>,
    start: Point,
    pending: Set<Point>,
    busy: Option<Point>,
)
    requires
        b.cascading(shown, start, pending, busy),
    ensures
        shown.subset_of(b.revealed.union(b.region(start))),
        b.revealed.subset_of(shown),
        pending.subset_of(b.region(start)),
        pending.subset_of(shown),
{
    reveal(Board::cascading);
}

/// Taking a cell from the pending ones makes it the busy one.
pub proof fn lemma_cascade_take(
    b: Board,
    shown: Set<Point>,
    start: Point,
    waiting: Set<Point>,
    pending: Set<Point>,
    x: Point,
)
    requires
        b.cascading(shown, start, waiting, None),
        pending.subset_of(waiting),
        waiting.subset_of(pending.insert(x)),
    ensures
        b.cascading(shown, start, pending, Some(x)),
{
    reveal(Board::cascading);
}

/// Revealing a neighbor of the busy cell, and putting it among the pending
/// ones, keeps the cascade going.
pub proof fn lemma_cascade_push(
    b: Board,
    shown: Set<Point>,
    start: Point,
    pending: Set<Point>,
    x: Point,
    n: Point,
)
    requires
        b.cascading(shown, start, pending, Some(x)),
        b.region(start).contains(x),
        b.is_blank(x),
        adjacent(x, n),
        b.can_open(n),
    ensures
        b.cascading(shown.insert(n), start, pending.insert(n), Some(x)),
{
    reveal(Board::cascading);
    lemma_region_step(b, start, x, n);
}

/// The busy cell is done once it is found not to be blank, or once each of
/// its neighbors that could be opened is revealed.
pub proof fn lemma_cascade_settle(
    b: Board,
    shown: Set<Point>,
    start: Point,
    pending: Set<Point>,
    x: Point,
)
    requires
        b.cascading(shown, start, pending, Some(x)),
        b.is_blank(x) ==> forall|n: Point| #[trigger]
            adjacent(x, n) && b.can_open(n) ==> shown.contains(n),
    ensures
        b.cascading(shown, start, pending, None),
{
    reveal(Board::cascading);
}

/// With nothing pending, the cascade has revealed the region of its start,
/// and nothing else.
pub proof fn lemma_cascade_end(b: Board, shown: Set<Point>, start: Point)
    requires
        b.cascading(shown, start, Set::empty(), None),
    ensures
        shown == b.revealed.union(b.region(start)),
{
    reveal(Board::cascading);
    let fresh = shown.difference(b.revealed);
    if b.can_open(start) {
        assert(fresh.contains(start));
    }
    assert(b.is_closed(fresh));
    lemma_region_least(b, start, fresh);
    assert(shown =~= b.revealed.union(b.region(start)));
}

/// Both sides of a valid board fit the machine's integers.
pub proof fn lemma_sides(b: Board)
    requires
        b.valid(),
    ensures
        0 < b.width <= usize::MAX,
        0 < b.height <= usize::MAX,
{
    let w = b.width as int;
    let h = b.height as int;
    assert(0 < w && 0 < h && w <= w * h && h <= w * h) by (nonlinear_arith)
        requires
            0 <= w,
            0 <= h,
            0 < w * h,
    ;
}

/// On a valid board the revealed cells are safe cells, so their number is at
/// most the number of safe cells, and reaches it exactly when every safe cell
/// is revealed.
pub proof fn lemma_revealed_count(b: Board)
    requires
        b.valid(),
    ensures
        b.safe_cells().finite(),
        b.safe_cells().len() == b.safe_total(),
        b.revealed.finite(),
        b.revealed.subset_of(b.safe_cells()),
        b.revealed.len() <= b.safe_total(),
        b.revealed.len() == b.safe_total() <==> b.revealed == b.safe_cells(),
{
    broadcast use vstd::set_lib::lemma_set_difference_len;

    lemma_cells_len(b);
    lemma_len_subset(b.mines, b.cells());
    assert(b.mines.intersect(b.cells()) =~= b.mines);
    assert(b.cells().intersect(b.mines) =~= b.mines);
    assert(b.safe_cells().len() == b.safe_total());
    lemma_len_subset(b.safe_cells(), b.cells());
    assert(b.revealed.subset_of(b.safe_cells()));
    lemma_len_subset(b.revealed, b.safe_cells());
    if b.revealed.len() == b.safe_total() {
        lemma_subset_equality(b.revealed, b.safe_cells());
    }
}

/// Uncovering a safe cell that can be opened leaves the board valid.
pub proof fn lemma_uncover_valid(b: Board, p: Point)
    requires
        b.valid(),
        !b.mines.contains(p),
    ensures
        b.uncover(p).valid(),
{
    lemma_sides(b);
    lemma_region_safe(b, p);
    let after = b.uncover(p);
    assert(after.cells() == b.cells());
}

} // verus!
