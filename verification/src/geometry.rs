//! Facts about the grid: how many cells it has, which cells lie around a
//! cell, and how counts over a neighborhood behave.

use crate::board::{adjacent, cells_around, count_in, with_cell, Board, Point};
use vstd::arithmetic::div_mod::{
    lemma_div_pos_is_pos, lemma_fundamental_div_mod, lemma_fundamental_div_mod_converse,
    lemma_mod_bound, lemma_multiply_divide_lt,
};
use vstd::prelude::*;
use vstd::relations::injective_on;
use vstd::set_lib::{lemma_int_range, lemma_len_subset, lemma_map_size, set_int_range};

verus! {

/// A grid of `width` by `height` cells has `width * height` coordinates.
pub proof fn lemma_cells_len(b: Board)
    requires
        b.width * b.height <= usize::MAX,
    ensures
        b.cells().finite(),
        b.cells().len() == b.width * b.height,
{
    let w = b.width as int;
    let h = b.height as int;
    if w == 0 || h == 0 {
        assert(b.cells() =~= Set::<Point>::empty());
        assert(w * h == 0) by (nonlinear_arith)
            requires
                w == 0 || h == 0,
        ;
    } else {
        assert(w <= w * h && h <= w * h) by (nonlinear_arith)
            requires
                w >= 1,
                h >= 1,
        ;
        let n = w * h;
        let ids = set_int_range(0, n);
        let f = |i: int| ((i % w) as usize, (i / w) as usize);
        lemma_int_range(0, n);
        assert forall|i: int| ids.contains(i) implies 0 <= i % w < w && 0 <= i / w < h && i == w * (
        i / w) + i % w by {
            lemma_fundamental_div_mod(i, w);
            lemma_mod_bound(i, w);
            lemma_multiply_divide_lt(i, w, h);
            lemma_div_pos_is_pos(i, w);
        }
        assert(injective_on(f, ids)) by {
            assert forall|i: int, j: int|
                ids.contains(i) && ids.contains(j) && #[trigger] f(i) == #[trigger] f(j) implies i
                == j by {
                assert(i % w == j % w);
                assert(i / w == j / w);
            }
        }
        assert forall|p: Point| b.cells().contains(p) implies ids.map(f).contains(p) by {
            let i = p.1 as int * w + p.0 as int;
            lemma_fundamental_div_mod_converse(i, w, p.1 as int, p.0 as int);
            assert(0 <= i < n) by (nonlinear_arith)
                requires
                    i == p.1 as int * w + p.0 as int,
                    0 <= p.0 < w,
                    0 <= p.1 < h,
                    n == w * h,
            ;
            assert(ids.contains(i));
            assert(f(i) == p);
        }
        assert forall|p: Point| ids.map(f).contains(p) implies b.cells().contains(p) by {
            let i = choose|i: int| ids.contains(i) && p == f(i);
            assert(b.in_bounds(p));
        }
        assert(ids.map(f) =~= b.cells());
        lemma_map_size(ids, b.cells(), f);
    }
}

/// A list of distinct cells of the grid is no longer than the grid is large.
pub proof fn lemma_listed_len(b: Board, listed: Seq<Point>)
    requires
        b.width * b.height <= usize::MAX,
        listed.no_duplicates(),
        listed.to_set().subset_of(b.cells()),
    ensures
        listed.len() == listed.to_set().len(),
        listed.len() <= b.width * b.height,
{
    lemma_cells_len(b);
    listed.unique_seq_to_set();
    lemma_len_subset(listed.to_set(), b.cells());
}

/// A list that names every cell of the grid is at least as long as the grid
/// is large.
pub proof fn lemma_covering_len(b: Board, listed: Seq<Point>)
    requires
        b.width * b.height <= usize::MAX,
        forall|p: Point| b.in_bounds(p) ==> listed.contains(p),
    ensures
        listed.len() >= b.width * b.height,
{
    lemma_cells_len(b);
    vstd::seq_lib::seq_to_set_is_finite(listed);
    lemma_len_subset(b.cells(), listed.to_set());
    listed.lemma_cardinality_of_set();
}

/// Appending a cell that is not yet listed keeps a list free of repeats and
/// adds that cell to what it lists.
pub proof fn lemma_push_distinct(s: Seq<Point>, c: Point)
    requires
        s.no_duplicates(),
        !s.contains(c),
    ensures
        s.push(c).no_duplicates(),
        s.push(c).to_set() =~= s.to_set().insert(c),
        forall|q: Point| s.push(c).contains(q) <==> (q == c || s.contains(q)),
{
    broadcast use vstd::seq_lib::lemma_seq_contains_after_push;

    let t = s.push(c);
    assert forall|i: int, j: int| 0 <= i < t.len() && 0 <= j < t.len() && i != j implies t[i]
        != t[j] by {
        if i < s.len() {
            assert(s.contains(t[i]));
        }
        if j < s.len() {
            assert(s.contains(t[j]));
        }
    }
}

/// What one step of the neighborhood listing adds.
proof fn lemma_with_cell(width: nat, height: nat, s: Seq<Point>, x: int, y: int)
    requires
        width <= usize::MAX,
        height <= usize::MAX,
        s.no_duplicates(),
        forall|q: Point| s.contains(q) ==> !(q.0 == x && q.1 == y),
    ensures
        with_cell(width, height, s, x, y).no_duplicates(),
        s.len() <= with_cell(width, height, s, x, y).len() <= s.len() + 1,
        forall|q: Point| #[trigger]
            with_cell(width, height, s, x, y).contains(q) <==> (s.contains(q) || (q.0 < width
                && q.1 < height && q.0 == x && q.1 == y)),
{
    if 0 <= x < width && 0 <= y < height {
        lemma_push_distinct(s, (x as usize, y as usize));
    }
}

/// The cells listed around `p` are exactly the cells of the grid that touch
/// `p`, each listed once.
pub proof fn lemma_cells_around(width: nat, height: nat, p: Point)
    requires
        width <= usize::MAX,
        height <= usize::MAX,
    ensures
        cells_around(width, height, p).no_duplicates(),
        cells_around(width, height, p).len() <= 8,
        forall|q: Point| #[trigger]
            cells_around(width, height, p).contains(q) <==> (q.0 < width && q.1 < height
                && adjacent(p, q)),
{
    let x = p.0 as int;
    let y = p.1 as int;
    let s0 = Seq::<Point>::empty();
    let s1 = with_cell(width, height, s0, x - 1, y - 1);
    let s2 = with_cell(width, height, s1, x - 1, y);
    let s3 = with_cell(width, height, s2, x - 1, y + 1);
    let s4 = with_cell(width, height, s3, x, y - 1);
    let s5 = with_cell(width, height, s4, x, y + 1);
    let s6 = with_cell(width, height, s5, x + 1, y - 1);
    let s7 = with_cell(width, height, s6, x + 1, y);
    let s8 = with_cell(width, height, s7, x + 1, y + 1);
    assert forall|q: Point| !s0.contains(q) by {}
    lemma_with_cell(width, height, s0, x - 1, y - 1);
    lemma_with_cell(width, height, s1, x - 1, y);
    lemma_with_cell(width, height, s2, x - 1, y + 1);
    lemma_with_cell(width, height, s3, x, y - 1);
    lemma_with_cell(width, height, s4, x, y + 1);
    lemma_with_cell(width, height, s5, x + 1, y - 1);
    lemma_with_cell(width, height, s6, x + 1, y);
    lemma_with_cell(width, height, s7, x + 1, y + 1);
    assert(cells_around(width, height, p) == s8);
    assert forall|q: Point|
        s8.contains(q) <==> (q.0 < width && q.1 < height && adjacent(p, q)) by {
        let on_grid = q.0 < width && q.1 < height;
        let dx = q.0 - x;
        let dy = q.1 - y;
        assert(s1.contains(q) <==> on_grid && dx == -1 && dy == -1);
        assert(s2.contains(q) <==> on_grid && dx == -1 && -1 <= dy <= 0);
        assert(s3.contains(q) <==> on_grid && dx == -1 && -1 <= dy <= 1);
        assert(s4.contains(q) <==> on_grid && (dx == -1 && -1 <= dy <= 1 || dx == 0 && dy == -1));
        assert(s5.contains(q) <==> on_grid && (dx == -1 && -1 <= dy <= 1 || dx == 0 && (dy == -1
            || dy == 1)));
        assert(s6.contains(q) <==> on_grid && (dx == -1 && -1 <= dy <= 1 || dx == 0 && (dy == -1
            || dy == 1) || dx == 1 && dy == -1));
        assert(s7.contains(q) <==> on_grid && (dx == -1 && -1 <= dy <= 1 || dx == 0 && (dy == -1
            || dy == 1) || dx == 1 && -1 <= dy <= 0));
        assert(s8.contains(q) <==> on_grid && (dx == -1 && -1 <= dy <= 1 || dx == 0 && (dy == -1
            || dy == 1) || dx == 1 && -1 <= dy <= 1));
    }
}

/// The listed neighbors of `p` are exactly the cells of the board that touch
/// `p`, each listed once.
pub proof fn lemma_neighbors(b: Board, p: Point)
    requires
        b.width <= usize::MAX,
        b.height <= usize::MAX,
    ensures
        b.neighbors(p).no_duplicates(),
        b.neighbors(p).len() <= 8,
        forall|q: Point| #[trigger]
            b.neighbors(p).contains(q) <==> (b.in_bounds(q) && adjacent(p, q)),
{
    lemma_cells_around(b.width, b.height, p);
}

/// A count over a list is at most the list's length.
pub proof fn lemma_count_bound(cells: Seq<Point>, marked: Set<Point>)
    ensures
        count_in(cells, marked) <= cells.len(),
    decreases cells.len(),
{
    if cells.len() > 0 {
        lemma_count_bound(cells.drop_last(), marked);
    }
}

/// A count of zero means that no listed cell is marked.
pub proof fn lemma_count_zero(cells: Seq<Point>, marked: Set<Point>)
    requires
        count_in(cells, marked) == 0,
    ensures
        forall|q: Point| cells.contains(q) ==> !marked.contains(q),
    decreases cells.len(),
{
    if cells.len() > 0 {
        lemma_count_zero(cells.drop_last(), marked);
        assert forall|q: Point| cells.contains(q) implies !marked.contains(q) by {
            let i = choose|i: int| 0 <= i < cells.len() && cells[i] == q;
            if i < cells.len() - 1 {
                assert(cells.drop_last()[i] == q);
            }
        }
    }
}

/// Marking one more cell raises the count over a list of distinct cells by
/// one if the cell is listed, and leaves it as it is otherwise.
pub proof fn lemma_count_insert(cells: Seq<Point>, marked: Set<Point>, m: Point)
    requires
        cells.no_duplicates(),
        !marked.contains(m),
    ensures
        count_in(cells, marked.insert(m)) == count_in(cells, marked) + if cells.contains(m) {
            1nat
        } else {
            0nat
        },
    decreases cells.len(),
{
    if cells.len() > 0 {
        let front = cells.drop_last();
        lemma_count_insert(front, marked, m);
        if cells.last() == m {
            assert(cells[cells.len() - 1] == m);
            if front.contains(m) {
                let i = choose|i: int| 0 <= i < front.len() && front[i] == m;
                assert(cells[i] == m);
            }
        } else if front.contains(m) {
            let i = choose|i: int| 0 <= i < front.len() && front[i] == m;
            assert(cells[i] == m);
        } else if cells.contains(m) {
            let i = choose|i: int| 0 <= i < cells.len() && cells[i] == m;
            assert(front[i] == m);
        }
    }
}

/// A count over a list of distinct cells is the number of cells that are
/// both listed and marked.
pub proof fn lemma_count_is_len(cells: Seq<Point>, marked: Set<Point>)
    requires
        cells.no_duplicates(),
    ensures
        cells.to_set().intersect(marked).finite(),
        count_in(cells, marked) == cells.to_set().intersect(marked).len(),
    decreases cells.len(),
{
    let both = cells.to_set().intersect(marked);
    if cells.len() == 0 {
        assert(both =~= Set::<Point>::empty());
    } else {
        let front = cells.drop_last();
        let last = cells.last();
        lemma_count_is_len(front, marked);
        let front_both = front.to_set().intersect(marked);
        assert(cells =~= front.push(last));
        assert(!front.contains(last)) by {
            if front.contains(last) {
                let i = choose|i: int| 0 <= i < front.len() && front[i] == last;
                assert(cells[i] == cells[cells.len() - 1]);
            }
        }
        lemma_push_distinct(front, last);
        if marked.contains(last) {
            assert(both =~= front_both.insert(last));
        } else {
            assert(both =~= front_both);
        }
    }
}

} // verus!
