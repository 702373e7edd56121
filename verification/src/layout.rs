//! The layouts: how the clients of a workspace share its rectangle.

use vstd::prelude::*;
use vstd::seq_lib::{to_multiset_contains, to_multiset_insert};
use crate::client::{ClientFilter, ClientL, ClientW};
use crate::config::{Config, CONFIG_LIMIT};
use crate::manager::WindowManager;
use crate::workspace::{selected, Workspace};
use crate::rect::{Rect, LAYOUT_LIMIT};

verus! {

/// Half of an extent, rounded toward zero.
pub open spec fn half(v: int) -> int {
    if v >= 0 {
        v / 2
    } else {
        -((-v) / 2)
    }
}

/// A third of an extent, rounded toward zero.
pub open spec fn third(v: int) -> int {
    if v >= 0 {
        v / 3
    } else {
        -((-v) / 3)
    }
}

/// What a layout asks of its input: sizes that make sense, and a rectangle
/// whose corners are not further than `LAYOUT_LIMIT` from the origin.
pub open spec fn layout_fits(config: &Config, rect: Rect) -> bool {
    config.geometry_ok() && rect.corners_within(LAYOUT_LIMIT as int)
}

/// Splits the rectangle in two, side by side if `horizontal` and one above
/// the other if not, with `2 * gap` between the two. A rectangle too small
/// to be split, one whose halves would have no extent, is not split: it
/// comes back twice.
pub open spec fn tile_split(r: Rect, gap: int, horizontal: bool) -> (Rect, Rect) {
    if horizontal {
        let width = half(r.width as int) - gap;
        if width <= 0 {
            (r, r)
        } else {
            (
                Rect { width: width as i32, ..r },
                Rect { x: (r.x + half(r.width as int) + gap) as i32, width: width as i32, ..r },
            )
        }
    } else {
        let height = half(r.height as int) - gap;
        if height <= 0 {
            (r, r)
        } else {
            (
                Rect { height: height as i32, ..r },
                Rect { y: (r.y + half(r.height as int) + gap) as i32, height: height as i32, ..r },
            )
        }
    }
}

/// The rectangles of the tiling layout for `n` clients: the whole
/// rectangle for one client; for each further client the last rectangle is
/// split, first side by side, then one above the other, and so on in turn.
pub open spec fn tile_rects(n: nat, rect: Rect, gap: int) -> Seq<Rect>
    decreases n,
{
    if n <= 1 {
        seq![rect]
    } else {
        let so_far = tile_rects((n - 1) as nat, rect, gap);
        let (first, second) = tile_split(so_far.last(), gap, n % 2 == 0);
        so_far.drop_last().push(first).push(second)
    }
}

pub proof fn lemma_tile_rects_len(n: nat, rect: Rect, gap: int)
    ensures
        tile_rects(n, rect, gap).len() == if n <= 1 {
            1
        } else {
            n
        },
    decreases n,
{
    if n > 1 {
        lemma_tile_rects_len((n - 1) as nat, rect, gap);
    }
}

/// The rectangle lies in the area between the left and upper edges of
/// `outer` and its right and lower edges, where an extent below zero counts as zero.
pub open spec fn tile_inside(r: Rect, outer: Rect) -> bool {
    &&& outer.x <= r.x
    &&& outer.y <= r.y
    &&& r.x + r.width <= outer.x + outer.width || r.x + r.width <= outer.x
    &&& r.y + r.height <= outer.y + outer.height || r.y + r.height <= outer.y
    &&& r.x <= outer.x + outer.width || r.x <= outer.x
    &&& r.y <= outer.y + outer.height || r.y <= outer.y
}

#[derive(Clone, Copy, Debug, PartialEq, Eq, Structural)]
pub struct Tile;

impl Tile {
    pub fn layout_rects(&self, config: &Config, n: usize, rect: Rect) -> (result: Vec<Rect>)
        requires
            layout_fits(config, rect),
        ensures
            result@ == tile_rects(n as nat, rect, config.border_width as int),
    {
        let gap: i64 = config.border_width as i64;
        let mut result: Vec<Rect> = Vec::new();
        result.push(rect);
        let mut horizontal = true;
        while result.len() < n
            invariant
                layout_fits(config, rect),
                gap == config.border_width,
                result@.len() >= 1,
                result@.len() <= n || result@.len() == 1,
                result@ == tile_rects(result@.len(), rect, gap as int),
                horizontal == (result@.len() % 2 == 1),
                forall|i: int| 0 <= i < result@.len() ==> tile_inside(#[trigger] result@[i], rect),
            decreases n - result@.len(),
        {
            let ghost so_far = result@;
            let r = result.pop().unwrap();
            assert(r == so_far.last());
            assert(tile_inside(r, rect));
            assert(result@ == so_far.drop_last());
            let pair = if horizontal {
                let width: i64 = (r.width / 2) as i64 - gap;
                if width <= 0 {
                    (r, r)
                } else {
                    let x: i64 = r.x as i64 + (r.width / 2) as i64 + gap;
                    (
                        Rect { x: r.x, y: r.y, width: width as i32, height: r.height },
                        Rect { x: x as i32, y: r.y, width: width as i32, height: r.height },
                    )
                }
            } else {
                let height: i64 = (r.height / 2) as i64 - gap;
                if height <= 0 {
                    (r, r)
                } else {
                    let y: i64 = r.y as i64 + (r.height / 2) as i64 + gap;
                    (
                        Rect { x: r.x, y: r.y, width: r.width, height: height as i32 },
                        Rect { x: r.x, y: y as i32, width: r.width, height: height as i32 },
                    )
                }
            };
            assert(pair == tile_split(r, gap as int, horizontal));
            assert(tile_inside(pair.0, rect) && tile_inside(pair.1, rect));
            result.push(pair.0);
            result.push(pair.1);
            horizontal = !horizontal;
            proof {
                let len = result@.len();
                assert(tile_rects((len - 1) as nat, rect, gap as int) == so_far);
                assert(result@ =~= tile_rects(len, rect, gap as int));
            }
        }
        proof {
            lemma_tile_rects_len(n as nat, rect, gap as int);
        }
        result
    }
}

#[derive(Clone, Copy, Debug, PartialEq, Eq, Structural)]
pub struct FullScreen;

/// Every client gets the whole rectangle.
pub open spec fn fullscreen_rects(n: nat, rect: Rect) -> Seq<Rect> {
    Seq::new(n, |i: int| rect)
}

impl FullScreen {
    pub fn layout_rects(&self, config: &Config, n: usize, rect: Rect) -> (result: Vec<Rect>)
        ensures
            result@ == fullscreen_rects(n as nat, rect),
    {
        let mut result: Vec<Rect> = Vec::new();
        while result.len() < n
            invariant
                result@.len() <= n,
                forall|i: int| 0 <= i < result@.len() ==> result@[i] == rect,
            decreases n - result@.len(),
        {
            result.push(rect);
        }
        assert(result@ =~= fullscreen_rects(n as nat, rect));
        result
    }
}

/// Whether `a` is read before `b`, or at the same place: rows from the
/// top, and in a row from the left.
pub open spec fn reads_before(a: Rect, b: Rect) -> bool {
    a.y < b.y || (a.y == b.y && a.x <= b.x)
}

/// The cell put into a list that is in reading order, behind every cell
/// that is read before it or at its place.
pub open spec fn insert_cell(cells: Seq<Rect>, r: Rect) -> Seq<Rect>
    decreases cells.len(),
{
    if cells.len() == 0 {
        seq![r]
    } else if reads_before(cells.last(), r) {
        cells.push(r)
    } else {
        insert_cell(cells.drop_last(), r).push(cells.last())
    }
}

/// The cells in reading order. Cells at the same place keep the order
/// that they came in.
pub open spec fn reading_order(cells: Seq<Rect>) -> Seq<Rect>
    decreases cells.len(),
{
    if cells.len() == 0 {
        cells
    } else {
        insert_cell(reading_order(cells.drop_last()), cells.last())
    }
}

pub open spec fn in_reading_order(cells: Seq<Rect>) -> bool {
    forall|i: int, j: int| 0 <= i < j < cells.len() ==> reads_before(cells[i], cells[j])
}

/// Where `insert_cell` puts the cell.
pub proof fn lemma_insert_cell_at(cells: Seq<Rect>, r: Rect, at: int)
    requires
        0 <= at <= cells.len(),
        forall|k: int| at <= k < cells.len() ==> !reads_before(cells[k], r),
        at == 0 || reads_before(cells[at - 1], r),
    ensures
        insert_cell(cells, r) == cells.insert(at, r),
    decreases cells.len(),
{
    if cells.len() == 0 {
        assert(cells.insert(at, r) =~= seq![r]);
    } else if at == cells.len() {
        assert(cells.insert(at, r) =~= cells.push(r));
    } else {
        lemma_insert_cell_at(cells.drop_last(), r, at);
        assert(cells.drop_last().insert(at, r).push(cells.last()) =~= cells.insert(at, r));
    }
}

/// A place for the cell as `lemma_insert_cell_at` asks for it.
pub proof fn lemma_insert_cell_place(cells: Seq<Rect>, r: Rect) -> (at: int)
    ensures
        0 <= at <= cells.len(),
        forall|k: int| at <= k < cells.len() ==> !reads_before(cells[k], r),
        at == 0 || reads_before(cells[at - 1], r),
        insert_cell(cells, r) == cells.insert(at, r),
    decreases cells.len(),
{
    let at = if cells.len() == 0 || reads_before(cells.last(), r) {
        cells.len() as int
    } else {
        let at = lemma_insert_cell_place(cells.drop_last(), r);
        assert forall|k: int| at <= k < cells.len() implies !reads_before(cells[k], r) by {
            if k < cells.len() - 1 {
                assert(cells.drop_last()[k] == cells[k]);
            }
        }
        if at > 0 {
            assert(cells.drop_last()[at - 1] == cells[at - 1]);
        }
        at
    };
    lemma_insert_cell_at(cells, r, at);
    at
}

/// `reading_order` puts the cells in reading order and loses none.
pub proof fn lemma_reading_order(cells: Seq<Rect>)
    ensures
        in_reading_order(reading_order(cells)),
        reading_order(cells).to_multiset() == cells.to_multiset(),
        reading_order(cells).len() == cells.len(),
    decreases cells.len(),
{
    if cells.len() > 0 {
        let rest = reading_order(cells.drop_last());
        let r = cells.last();
        lemma_reading_order(cells.drop_last());
        let at = lemma_insert_cell_place(rest, r);
        let sorted = rest.insert(at, r);
        assert forall|i: int, j: int| 0 <= i < j < sorted.len() implies reads_before(
            sorted[i],
            sorted[j],
        ) by {
            if j == at {
                if i < at - 1 {
                    assert(reads_before(rest[i], rest[at - 1]));
                }
            } else if i == at {
                assert(!reads_before(rest[j - 1], r));
            } else {
                let a = if i < at {
                    i
                } else {
                    i - 1
                };
                let b = if j < at {
                    j
                } else {
                    j - 1
                };
                assert(reads_before(rest[a], rest[b]));
            }
        }
        to_multiset_insert(rest, at, r);
        assert(cells =~= cells.drop_last().push(r));
        vstd::seq_lib::to_multiset_build(cells.drop_last(), r);
    }
}

/// Every cell of the reading order is one of the cells.
pub proof fn lemma_reading_order_contains(cells: Seq<Rect>, i: int)
    requires
        0 <= i < cells.len(),
    ensures
        cells.contains(reading_order(cells)[i]),
        reading_order(cells).len() == cells.len(),
{
    lemma_reading_order(cells);
    let sorted = reading_order(cells);
    assert(sorted.contains(sorted[i]));
    to_multiset_contains(sorted, sorted[i]);
    to_multiset_contains(cells, sorted[i]);
}

/// The two halves of a cell of the overview, each smaller than the half
/// by `inset` in both directions.
pub open spec fn overview_halves(r: Rect, inset: int, horizontal: bool) -> (Rect, Rect) {
    if horizontal {
        let width = (half(r.width as int) - inset) as i32;
        let height = (r.height - inset) as i32;
        (
            Rect { x: r.x, y: r.y, width, height },
            Rect { x: (r.x + half(r.width as int) + inset) as i32, y: r.y, width, height },
        )
    } else {
        let width = (r.width - inset) as i32;
        let height = (half(r.height as int) - inset) as i32;
        (
            Rect { x: r.x, y: r.y, width, height },
            Rect { x: r.x, y: (r.y + half(r.height as int) + inset) as i32, width, height },
        )
    }
}

/// Every cell replaced by its two halves.
pub open spec fn overview_subdivide(cells: Seq<Rect>, inset: int, horizontal: bool) -> Seq<Rect>
    decreases cells.len(),
{
    if cells.len() == 0 {
        cells
    } else {
        let (first, second) = overview_halves(cells.last(), inset, horizontal);
        overview_subdivide(cells.drop_last(), inset, horizontal).push(first).push(second)
    }
}

/// The grid after `rounds` rounds: in each round every cell is halved,
/// side by side in the first round, one above the other in the second,
/// and so on in turn, and the cells are put in reading order.
pub open spec fn overview_grid(rounds: nat, rect: Rect, inset: int) -> Seq<Rect>
    decreases rounds,
{
    if rounds == 0 {
        seq![rect]
    } else {
        reading_order(
            overview_subdivide(
                overview_grid((rounds - 1) as nat, rect, inset),
                inset,
                rounds % 2 == 1,
            ),
        )
    }
}

/// Two to the power of `k`.
pub open spec fn doubled(k: nat) -> nat
    decreases k,
{
    if k == 0 {
        1
    } else {
        2 * doubled((k - 1) as nat)
    }
}

/// The number of rounds after which the grid has at least `n` cells.
pub open spec fn overview_rounds(n: nat) -> nat
    decreases n,
{
    if n <= 1 {
        0
    } else {
        1 + overview_rounds((n + 1) / 2)
    }
}

/// The rectangles of the overview for `n` clients: the first `n` cells of
/// the first grid that has that many. For no client at all it is the
/// whole rectangle.
pub open spec fn overview_rects(n: nat, rect: Rect, inset: int) -> Seq<Rect> {
    let grid = overview_grid(overview_rounds(n), rect, inset);
    if n == 0 {
        grid
    } else {
        grid.take(n as int)
    }
}

pub proof fn lemma_overview_subdivide_len(cells: Seq<Rect>, inset: int, horizontal: bool)
    ensures
        overview_subdivide(cells, inset, horizontal).len() == 2 * cells.len(),
    decreases cells.len(),
{
    if cells.len() > 0 {
        lemma_overview_subdivide_len(cells.drop_last(), inset, horizontal);
    }
}

pub proof fn lemma_overview_grid_len(rounds: nat, rect: Rect, inset: int)
    ensures
        overview_grid(rounds, rect, inset).len() == doubled(rounds),
    decreases rounds,
{
    if rounds > 0 {
        let before = overview_grid((rounds - 1) as nat, rect, inset);
        lemma_overview_grid_len((rounds - 1) as nat, rect, inset);
        lemma_overview_subdivide_len(before, inset, rounds % 2 == 1);
        lemma_reading_order(overview_subdivide(before, inset, rounds % 2 == 1));
    }
}

/// `overview_rounds(n)` is the least number of rounds that gives `n` cells.
pub proof fn lemma_overview_rounds(n: nat, k: nat)
    requires
        doubled(k) >= n,
        k == 0 || doubled((k - 1) as nat) < n,
    ensures
        overview_rounds(n) == k,
    decreases k,
{
    if n <= 1 {
        if k > 0 {
            lemma_doubled_positive((k - 1) as nat);
        }
    } else {
        assert(k > 0);
        lemma_overview_rounds((n + 1) / 2, (k - 1) as nat);
    }
}

pub proof fn lemma_doubled_positive(k: nat)
    ensures
        doubled(k) >= 1,
    decreases k,
{
    if k > 0 {
        lemma_doubled_positive((k - 1) as nat);
    }
}

pub proof fn lemma_doubled_grows(a: nat, b: nat)
    requires
        a <= b,
    ensures
        doubled(a) <= doubled(b),
    decreases b,
{
    if a < b {
        lemma_doubled_grows(a, (b - 1) as nat);
        lemma_doubled_positive((b - 1) as nat);
    }
}

pub proof fn lemma_doubled_sum(a: nat, b: nat)
    ensures
        doubled(a + b) == doubled(a) * doubled(b),
    decreases a,
{
    if a > 0 {
        lemma_doubled_sum((a - 1) as nat, b);
        assert(2 * (doubled((a - 1) as nat) * doubled(b)) == (2 * doubled((a - 1) as nat))
            * doubled(b)) by (nonlinear_arith);
        assert(doubled(a + b) == 2 * doubled((a + b - 1) as nat));
    } else {
        assert(doubled(0) * doubled(b) == doubled(b)) by (nonlinear_arith)
            requires
                doubled(0) == 1,
        ;
    }
}

/// A count of cells that fits in `usize` comes from fewer than 64 rounds.
pub proof fn lemma_doubled_rounds(k: nat)
    requires
        doubled(k) <= usize::MAX,
    ensures
        k < 64,
{
    if k >= 64 {
        lemma_doubled_grows(64, k);
        assert(doubled(16) == 0x10000) by {
            reveal_with_fuel(doubled, 17);
        }
        lemma_doubled_sum(16, 16);
        lemma_doubled_sum(32, 32);
        assert(doubled(32) == 0x1_0000_0000) by (nonlinear_arith)
            requires
                doubled(32) == doubled(16) * doubled(16),
                doubled(16) == 0x10000,
        ;
        assert(doubled(64) == 0x1_0000_0000_0000_0000) by (nonlinear_arith)
            requires
                doubled(64) == doubled(32) * doubled(32),
                doubled(32) == 0x1_0000_0000,
        ;
    }
}

/// The overview has a rectangle for every client.
pub proof fn lemma_overview_rects_len(n: nat, rect: Rect, inset: int)
    ensures
        overview_rects(n, rect, inset).len() == if n == 0 {
            1
        } else {
            n
        },
        n >= 1 ==> doubled(overview_rounds(n)) >= n,
    decreases n,
{
    lemma_overview_grid_len(overview_rounds(n), rect, inset);
    lemma_rounds_suffice(n);
}

pub proof fn lemma_rounds_suffice(n: nat)
    ensures
        doubled(overview_rounds(n)) >= n,
        n == 0 ==> overview_rounds(n) == 0,
    decreases n,
{
    if n > 1 {
        lemma_rounds_suffice((n + 1) / 2);
    }
}

/// How far from zero the fields of a cell can be after `k` rounds.
pub open spec fn overview_cell_bounded(r: Rect, k: nat) -> bool {
    &&& -(0x80000 + k * 0x10000) <= r.width <= 0x80000 + k * 0x10000
    &&& -(0x80000 + k * 0x10000) <= r.height <= 0x80000 + k * 0x10000
    &&& -(0x40000 + k * 0x490000) <= r.x <= 0x40000 + k * 0x490000
    &&& -(0x40000 + k * 0x490000) <= r.y <= 0x40000 + k * 0x490000
}

fn reads_before_exec(a: &Rect, b: &Rect) -> (r: bool)
    ensures
        r == reads_before(*a, *b),
{
    a.y < b.y || (a.y == b.y && a.x <= b.x)
}

/// Puts the cells in reading order.
pub fn sort_cells(cells: &Vec<Rect>) -> (sorted: Vec<Rect>)
    ensures
        sorted@ == reading_order(cells@),
{
    let mut sorted: Vec<Rect> = Vec::new();
    let mut i: usize = 0;
    assert(cells@.take(0) =~= Seq::<Rect>::empty());
    while i < cells.len()
        invariant
            i <= cells@.len(),
            sorted@ == reading_order(cells@.take(i as int)),
            sorted@.len() == i,
        decreases cells@.len() - i,
    {
        let r = cells[i];
        let mut at: usize = sorted.len();
        while at > 0 && !reads_before_exec(&sorted[at - 1], &r)
            invariant
                at <= sorted@.len(),
                forall|k: int| at <= k < sorted@.len() ==> !reads_before(sorted@[k], r),
            decreases at,
        {
            at -= 1;
        }
        proof {
            lemma_insert_cell_at(sorted@, r, at as int);
            assert(cells@.take(i + 1).drop_last() =~= cells@.take(i as int));
        }
        sorted.insert(at, r);
        i += 1;
    }
    assert(cells@.take(cells@.len() as int) =~= cells@);
    sorted
}

#[derive(Clone, Copy, Debug, PartialEq, Eq, Structural)]
pub struct Overview;

impl Overview {
    pub fn layout_rects(&self, config: &Config, n: usize, rect: Rect) -> (result: Vec<Rect>)
        requires
            layout_fits(config, rect),
        ensures
            result@ == overview_rects(n as nat, rect, config.overview_inset as int),
            n >= 1 ==> result@.len() == n,
    {
        let inset: i32 = config.overview_inset;
        let mut result: Vec<Rect> = Vec::new();
        result.push(rect);
        let mut horizontal = true;
        let ghost mut rounds: nat = 0;
        while result.len() < n
            invariant
                0 <= inset <= CONFIG_LIMIT,
                inset == config.overview_inset,
                result@ == overview_grid(rounds, rect, inset as int),
                result@.len() == doubled(rounds),
                horizontal == (rounds % 2 == 0),
                rounds == 0 || doubled((rounds - 1) as nat) < n,
                forall|i: int|
                    0 <= i < result@.len() ==> overview_cell_bounded(#[trigger] result@[i], rounds),
            decreases
                    (if result@.len() < n {
                        n - result@.len()
                    } else {
                        0
                    }),
        {
            proof {
                lemma_doubled_rounds(rounds);
            }
            let mut cells: Vec<Rect> = Vec::new();
            let mut i: usize = 0;
            while i < result.len()
                invariant
                    0 <= inset <= CONFIG_LIMIT,
                    rounds < 64,
                    i <= result@.len(),
                    cells@ == overview_subdivide(result@.take(i as int), inset as int, horizontal),
                    forall|j: int|
                        0 <= j < result@.len() ==> overview_cell_bounded(
                            #[trigger] result@[j],
                            rounds,
                        ),
                    forall|j: int|
                        0 <= j < cells@.len() ==> overview_cell_bounded(
                            #[trigger] cells@[j],
                            rounds + 1,
                        ),
                decreases result@.len() - i,
            {
                let r = result[i];
                assert(overview_cell_bounded(r, rounds));
                let pair = if horizontal {
                    (
                        Rect {
                            x: r.x,
                            y: r.y,
                            width: r.width / 2 - inset,
                            height: r.height - inset,
                        },
                        Rect {
                            x: r.x + r.width / 2 + inset,
                            y: r.y,
                            width: r.width / 2 - inset,
                            height: r.height - inset,
                        },
                    )
                } else {
                    (
                        Rect {
                            x: r.x,
                            y: r.y,
                            width: r.width - inset,
                            height: r.height / 2 - inset,
                        },
                        Rect {
                            x: r.x,
                            y: r.y + r.height / 2 + inset,
                            width: r.width - inset,
                            height: r.height / 2 - inset,
                        },
                    )
                };
                assert(pair == overview_halves(r, inset as int, horizontal));
                assert(overview_cell_bounded(pair.0, rounds + 1));
                assert(overview_cell_bounded(pair.1, rounds + 1));
                proof {
                    assert(result@.take(i + 1).drop_last() =~= result@.take(i as int));
                }
                cells.push(pair.0);
                cells.push(pair.1);
                i += 1;
            }
            proof {
                assert(result@.take(result@.len() as int) =~= result@);
                lemma_overview_subdivide_len(result@, inset as int, horizontal);
                assert forall|j: int| 0 <= j < cells@.len() implies overview_cell_bounded(
                    #[trigger] reading_order(cells@)[j],
                    rounds + 1,
                ) by {
                    lemma_reading_order_contains(cells@, j);
                }
                lemma_reading_order(cells@);
                lemma_doubled_positive(rounds);
                rounds = rounds + 1;
            }
            result = sort_cells(&cells);
            horizontal = !horizontal;
        }
        proof {
            lemma_overview_rounds(n as nat, rounds);
        }
        if n >= 1 {
            result.truncate(n);
        }
        result
    }
}

/// The pane of the first client: a third of the width, less the gap.
pub open spec fn master_rect(rect: Rect, gap: int) -> Rect {
    Rect { width: (third(rect.width as int) - gap) as i32, ..rect }
}

/// What the master pane leaves of the rectangle.
pub open spec fn stack_rect(rect: Rect) -> Rect {
    Rect {
        x: (rect.x + third(rect.width as int)) as i32,
        width: (rect.width - third(rect.width as int)) as i32,
        ..rect
    }
}

/// A first pane of a third of the width for the first client; the other
/// clients share the rest as the inner layout says. A single client has
/// the whole rectangle.
pub struct Tile13 {
    pub layout: Box<Layout>,
}

/// The layout of a workspace.
pub enum Layout {
    Tile(Tile),
    FullScreen(FullScreen),
    Overview(Overview),
    Tile13(Tile13),
}

impl Layout {
    /// The rectangles that the layout makes of `rect` for `n` clients.
    pub open spec fn rects(self, config: &Config, n: nat, rect: Rect) -> Seq<Rect>
        decreases self,
    {
        match self {
            Layout::Tile(_) => tile_rects(n, rect, config.border_width as int),
            Layout::FullScreen(_) => fullscreen_rects(n, rect),
            Layout::Overview(_) => overview_rects(n, rect, config.overview_inset as int),
            Layout::Tile13(t) => if n == 0 {
                Seq::empty()
            } else if n == 1 {
                seq![rect]
            } else {
                seq![master_rect(rect, config.border_width as int)] + t.layout.rects(
                    config,
                    (n - 1) as nat,
                    stack_rect(rect),
                )
            },
        }
    }

    /// Every layout has a rectangle for every client.
    pub proof fn lemma_rects_len(self, config: &Config, n: nat, rect: Rect)
        ensures
            self.rects(config, n, rect).len() >= n,
        decreases self,
    {
        match self {
            Layout::Tile(_) => lemma_tile_rects_len(n, rect, config.border_width as int),
            Layout::FullScreen(_) => {},
            Layout::Overview(_) => lemma_overview_rects_len(
                n,
                rect,
                config.overview_inset as int,
            ),
            Layout::Tile13(t) => {
                if n > 1 {
                    t.layout.lemma_rects_len(config, (n - 1) as nat, stack_rect(rect));
                }
            },
        }
    }

    pub fn layout_rects(&self, config: &Config, n: usize, rect: Rect) -> (result: Vec<Rect>)
        requires
            layout_fits(config, rect),
        ensures
            result@ == self.rects(config, n as nat, rect),
        decreases self,
    {
        match self {
            Layout::Tile(t) => t.layout_rects(config, n, rect),
            Layout::FullScreen(f) => f.layout_rects(config, n, rect),
            Layout::Overview(o) => o.layout_rects(config, n, rect),
            Layout::Tile13(t) => t.layout_rects(config, n, rect),
        }
    }

    /// The clients that the layout arranges: the overview shows every
    /// client that stays on its tag, the others every client that does not float.
    pub open spec fn filter(self) -> ClientFilter {
        match self {
            Layout::Overview(_) => ClientFilter::Settled,
            _ => ClientFilter::Tiled,
        }
    }

    /// The rectangle of each client that the layout arranges: the clients
    /// in the order of the listing, each with the rectangle of its rank.
    pub open spec fn assignment(
        self,
        config: &Config,
        listing: Seq<u64>,
        clients: Seq<ClientW>,
        rect: Rect,
    ) -> Seq<(u64, Rect)> {
        let chosen = selected(listing, clients, self.filter());
        let rects = self.rects(config, chosen.len(), rect);
        Seq::new(chosen.len(), |i: int| (chosen[i], rects[i]))
    }

    pub fn layout(&self, current_workspace: &Workspace, clients: &ClientL, rect: Rect) -> (plan: Vec<
        (u64, Rect),
    >)
        requires
            layout_fits(&*current_workspace.config, rect),
        ensures
            plan@ == self.assignment(
                &*current_workspace.config,
                current_workspace.ring().listing(),
                clients@,
                rect,
            ),
    {
        let chosen = match self {
            Layout::Overview(_) => current_workspace.select_clients(clients, ClientFilter::Settled),
            _ => current_workspace.select_clients(clients, ClientFilter::Tiled),
        };
        let rects = self.layout_rects(&*current_workspace.config, chosen.len(), rect);
        proof {
            self.lemma_rects_len(&*current_workspace.config, chosen@.len(), rect);
        }
        pair_up(&chosen, &rects)
    }

    /// A message for the layout. No layout of this library takes any:
    /// nothing happens.
    pub fn post(&self, message: &str, window_manager: &mut WindowManager)
        ensures
            *final(window_manager) == *old(window_manager),
    {
    }

    pub fn clone_layout(&self) -> (copy: Layout)
        ensures
            copy == *self,
        decreases self,
    {
        match self {
            Layout::Tile(_) => Layout::Tile(Tile),
            Layout::FullScreen(_) => Layout::FullScreen(FullScreen),
            Layout::Overview(_) => Layout::Overview(Overview),
            Layout::Tile13(t) => Layout::Tile13(Tile13 { layout: Box::new(t.layout.clone_layout()) }),
        }
    }
}

impl Tile13 {
    pub fn layout_rects(&self, config: &Config, n: usize, rect: Rect) -> (result: Vec<Rect>)
        requires
            layout_fits(config, rect),
        ensures
            result@ == Layout::Tile13(*self).rects(config, n as nat, rect),
        decreases self,
    {
        let mut result: Vec<Rect> = Vec::new();
        if n == 1 {
            result.push(rect);
            return result;
        }
        if n > 1 {
            let gap = config.border_width;
            let first_rect = Rect::new(rect.x, rect.y, rect.width / 3 - gap, rect.height);
            let other_rect = Rect::new(
                first_rect.x + first_rect.width + gap,
                rect.y,
                rect.width - first_rect.width - gap,
                rect.height,
            );
            assert(first_rect == master_rect(rect, gap as int));
            assert(other_rect == stack_rect(rect));
            result.push(first_rect);
            let mut others = self.layout.layout_rects(config, n - 1, other_rect);
            result.append(&mut others);
        }
        result
    }
}

/// Each client with the rectangle of its rank.
fn pair_up(chosen: &Vec<u64>, rects: &Vec<Rect>) -> (plan: Vec<(u64, Rect)>)
    requires
        rects@.len() >= chosen@.len(),
    ensures
        plan@ == Seq::new(chosen@.len(), |i: int| (chosen@[i], rects@[i])),
{
    let mut plan: Vec<(u64, Rect)> = Vec::new();
    let mut i: usize = 0;
    while i < chosen.len()
        invariant
            i <= chosen@.len(),
            rects@.len() >= chosen@.len(),
            plan@.len() == i,
            forall|j: int| 0 <= j < i ==> plan@[j] == (chosen@[j], rects@[j]),
        decreases chosen@.len() - i,
    {
        plan.push((chosen[i], rects[i]));
        i += 1;
    }
    assert(plan@ =~= Seq::new(chosen@.len(), |i: int| (chosen@[i], rects@[i])));
    plan
}

impl Tile {
    pub fn layout(&self, current_workspace: &Workspace, clients: &ClientL, rect: Rect) -> (plan: Vec<
        (u64, Rect),
    >)
        requires
            layout_fits(&*current_workspace.config, rect),
        ensures
            plan@ == Layout::Tile(*self).assignment(
                &*current_workspace.config,
                current_workspace.ring().listing(),
                clients@,
                rect,
            ),
    {
        Layout::Tile(*self).layout(current_workspace, clients, rect)
    }
}

impl FullScreen {
    pub fn layout(&self, current_workspace: &Workspace, clients: &ClientL, rect: Rect) -> (plan: Vec<
        (u64, Rect),
    >)
        requires
            layout_fits(&*current_workspace.config, rect),
        ensures
            plan@ == Layout::FullScreen(*self).assignment(
                &*current_workspace.config,
                current_workspace.ring().listing(),
                clients@,
                rect,
            ),
    {
        Layout::FullScreen(*self).layout(current_workspace, clients, rect)
    }
}

impl Overview {
    pub fn layout(&self, current_workspace: &Workspace, clients: &ClientL, rect: Rect) -> (plan: Vec<
        (u64, Rect),
    >)
        requires
            layout_fits(&*current_workspace.config, rect),
        ensures
            plan@ == Layout::Overview(*self).assignment(
                &*current_workspace.config,
                current_workspace.ring().listing(),
                clients@,
                rect,
            ),
    {
        Layout::Overview(*self).layout(current_workspace, clients, rect)
    }
}

impl Tile13 {
    pub fn layout(&self, current_workspace: &Workspace, clients: &ClientL, rect: Rect) -> (plan: Vec<
        (u64, Rect),
    >)
        requires
            layout_fits(&*current_workspace.config, rect),
        ensures
            plan@ == Layout::Tile13(*self).assignment(
                &*current_workspace.config,
                current_workspace.ring().listing(),
                clients@,
                rect,
            ),
    {
        let chosen = current_workspace.select_clients(clients, ClientFilter::Tiled);
        let rects = self.layout_rects(&*current_workspace.config, chosen.len(), rect);
        proof {
            Layout::Tile13(*self).lemma_rects_len(&*current_workspace.config, chosen@.len(), rect);
        }
        pair_up(&chosen, &rects)
    }
}

/// A layout that can be copied into the layout of a workspace.
pub trait LayoutClone {
    /// The layout itself, as the layout of a workspace.
    spec fn as_layout(&self) -> Layout;

    fn clone_layout(&self) -> (copy: Layout)
        ensures
            copy == self.as_layout(),
    ;
}

impl LayoutClone for Tile {
    open spec fn as_layout(&self) -> Layout {
        Layout::Tile(*self)
    }

    fn clone_layout(&self) -> (copy: Layout) {
        Layout::Tile(Tile)
    }
}

impl LayoutClone for FullScreen {
    open spec fn as_layout(&self) -> Layout {
        Layout::FullScreen(*self)
    }

    fn clone_layout(&self) -> (copy: Layout) {
        Layout::FullScreen(FullScreen)
    }
}

impl LayoutClone for Overview {
    open spec fn as_layout(&self) -> Layout {
        Layout::Overview(*self)
    }

    fn clone_layout(&self) -> (copy: Layout) {
        Layout::Overview(Overview)
    }
}

impl LayoutClone for Tile13 {
    open spec fn as_layout(&self) -> Layout {
        Layout::Tile13(*self)
    }

    fn clone_layout(&self) -> (copy: Layout) {
        Layout::Tile13(Tile13 { layout: Box::new(self.layout.clone_layout()) })
    }
}

} // verus!
