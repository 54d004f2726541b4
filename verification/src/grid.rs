//! The diagram's plot cells: which stars land in each cell, and how the
//! cursor walks from cell to cell.

use vstd::prelude::*;

use std::collections::HashMap;
use vstd::std_specs::hash::spec_keys_iter;
use vstd::std_specs::iter::IteratorSpec;

verus! {

/// Width of the plot area, in cells.
pub const PLOT_W: u16 = 62;

/// Height of the plot area, in cells.
pub const PLOT_H: u16 = 17;

/// A plot cell: (column, row), both counted from 0, rows downward.
pub type Cell = (u16, u16);

/// The stars whose cell is `c`, in catalog order (brightest first, since
/// the catalog is sorted by apparent magnitude).
pub open spec fn members(cells: Seq<Cell>, c: Cell) -> Seq<usize>
    decreases cells.len(),
{
    if cells.len() == 0 {
        Seq::empty()
    } else {
        let rest = members(cells.drop_last(), c);
        if cells.last() == c {
            rest.push((cells.len() - 1) as usize)
        } else {
            rest
        }
    }
}

/// The number a plot cell is filed under: its column in the high half,
/// its row in the low half.
pub open spec fn cell_key(c: Cell) -> u32 {
    (c.0 as int * 65536 + c.1 as int) as u32
}

/// The plot cell filed under `k`.
pub open spec fn key_cell(k: u32) -> Cell {
    ((k / 65536) as u16, (k % 65536) as u16)
}

proof fn lemma_cell_key(c: Cell)
    ensures
        cell_key(c) as int == c.0 as int * 65536 + c.1 as int,
        key_cell(cell_key(c)) == c,
{
    let k: int = c.0 as int * 65536 + c.1 as int;
    assert(0 <= k < 0x1_0000_0000) by (nonlinear_arith)
        requires
            k == c.0 as int * 65536 + c.1 as int,
            0 <= c.0 < 65536,
            0 <= c.1 < 65536,
    ;
    assert(k / 65536 == c.0 as int && k % 65536 == c.1 as int) by (nonlinear_arith)
        requires
            k == c.0 as int * 65536 + c.1 as int,
            0 <= c.0 < 65536,
            0 <= c.1 < 65536,
    ;
}

proof fn lemma_key_cell(k: u32)
    ensures
        cell_key(key_cell(k)) == k,
{
    let c = key_cell(k);
    assert(k / 65536 < 65536 && k % 65536 < 65536 && (k / 65536) * 65536 + k % 65536 == k) by (nonlinear_arith);
    lemma_cell_key(c);
}

/// The stars the map files under cell `c`; none for a cell it lacks.
pub open spec fn lookup(m: Map<u32, Vec<usize>>, c: Cell) -> Seq<usize> {
    if m.contains_key(cell_key(c)) {
        m[cell_key(c)]@
    } else {
        Seq::empty()
    }
}

/// Plot cell → the stars that land in it. Only occupied cells are held.
pub struct Grid {
    cells: HashMap<u32, Vec<usize>>,
}

fn key_of(c: Cell) -> (k: u32)
    ensures
        k == cell_key(c),
{
    proof {
        lemma_cell_key(c);
    }
    (c.0 as u32) * 65536 + (c.1 as u32)
}

impl Grid {
    #[verifier::type_invariant]
    closed spec fn well_formed(self) -> bool {
        forall|k: u32| #[trigger] self.cells@.contains_key(k) ==> self.cells@[k]@.len() > 0
    }

    /// The stars in cell `c`, brightest first; empty for an unoccupied cell.
    pub closed spec fn stars_at(self, c: Cell) -> Seq<usize> {
        lookup(self.cells@, c)
    }

    /// Groups the stars by cell: star `i` sits in cell `cells[i]`.
    pub fn build(cells: &Vec<Cell>) -> (g: Grid)
        ensures
            forall|c: Cell| #[trigger] g.stars_at(c) == members(cells@, c),
    {
        broadcast use vstd::std_specs::hash::group_hash_axioms;

        let mut map: HashMap<u32, Vec<usize>> = HashMap::new();
        let n = cells.len();
        let mut i: usize = 0;
        assert forall|c: Cell| #[trigger] lookup(map@, c) == members(cells@.take(0), c) by {
            assert(cells@.take(0).len() == 0);
        }
        while i < n
            invariant
                i <= n,
                n == cells@.len(),
                forall|k: u32| #[trigger] map@.contains_key(k) ==> map@[k]@.len() > 0,
                forall|c: Cell| #[trigger] lookup(map@, c) == members(cells@.take(i as int), c),
            decreases n - i,
        {
            let c = cells[i];
            let k = key_of(c);
            let ghost old_map = map@;
            proof {
                assert(cells@.take(i + 1).drop_last() =~= cells@.take(i as int));
                assert(cells@.take(i + 1).last() == c);
            }
            let mut list = match map.remove(&k) {
                Some(l) => l,
                None => Vec::new(),
            };
            assert(list@ == lookup(old_map, c));
            list.push(i);
            map.insert(k, list);
            proof {
                assert(map@ == old_map.insert(k, list));
                assert forall|c2: Cell| #[trigger] lookup(map@, c2) == members(cells@.take(i + 1), c2) by {
                    assert(lookup(old_map, c2) == members(cells@.take(i as int), c2));
                    lemma_cell_key(c);
                    lemma_cell_key(c2);
                    if c2 != c {
                        assert(cell_key(c2) != k);
                    }
                }
            }
            i = i + 1;
        }
        assert(cells@.take(n as int) =~= cells@);
        Grid { cells: map }
    }

    /// The stars in cell `c`, brightest first.
    pub fn stars_in(&self, c: Cell) -> (stars: Vec<usize>)
        ensures
            stars@ == self.stars_at(c),
    {
        broadcast use vstd::std_specs::hash::group_hash_axioms;

        let k = key_of(c);
        match self.cells.get(&k) {
            Some(l) => l.clone(),
            None => Vec::new(),
        }
    }
}

// ───────────────────────────── walking ─────────────────────────────

/// A direction on the diagram. Up is toward higher luminosity, which is
/// toward lower screen rows.
#[derive(Clone, Copy, PartialEq, Eq, Structural, Debug)]
pub enum Dir {
    Left,
    Right,
    Up,
    Down,
}

pub open spec fn in_plot(x: int, y: int) -> bool {
    0 <= x < PLOT_W && 0 <= y < PLOT_H
}

/// The cell `k` steps from `from` in direction `d`.
pub open spec fn offset(from: Cell, d: Dir, k: int) -> (int, int) {
    match d {
        Dir::Left => (from.0 - k, from.1 as int),
        Dir::Right => (from.0 + k, from.1 as int),
        Dir::Up => (from.0 as int, from.1 - k),
        Dir::Down => (from.0 as int, from.1 + k),
    }
}

/// How far `c` lies from `from` in direction `d`.
pub open spec fn along(from: Cell, d: Dir, c: Cell) -> int {
    match d {
        Dir::Left => from.0 - c.0,
        Dir::Right => c.0 - from.0,
        Dir::Up => from.1 - c.1,
        Dir::Down => c.1 - from.1,
    }
}

pub open spec fn abs(x: int) -> int {
    if x < 0 {
        -x
    } else {
        x
    }
}

/// How far `c` lies off the line through `from` in direction `d`.
pub open spec fn across(from: Cell, d: Dir, c: Cell) -> int {
    match d {
        Dir::Left | Dir::Right => abs(from.1 - c.1),
        Dir::Up | Dir::Down => abs(c.0 - from.0),
    }
}

/// What reaching `c` from `from` costs: going off the line counts double.
pub open spec fn cost(from: Cell, d: Dir, c: Cell) -> int {
    along(from, d, c) + 2 * across(from, d, c)
}

impl Grid {
    /// The first occupied cell met walking from `from` in direction `d`,
    /// starting `k` steps away and staying inside the plot.
    pub open spec fn scan_from(self, from: Cell, d: Dir, k: int) -> Option<Cell>
        decreases 70000 - k,
    {
        if k < 1 || k >= 70000 {
            None
        } else {
            let p = offset(from, d, k);
            if !in_plot(p.0, p.1) {
                None
            } else if self.stars_at((p.0 as u16, p.1 as u16)).len() > 0 {
                Some((p.0 as u16, p.1 as u16))
            } else {
                self.scan_from(from, d, k + 1)
            }
        }
    }

    /// An occupied cell lying ahead of `from` in direction `d`.
    pub open spec fn ahead(self, from: Cell, d: Dir, c: Cell) -> bool {
        self.stars_at(c).len() > 0 && along(from, d, c) > 0
    }

    /// What a step may answer: the brightest star of the first occupied cell
    /// along the line; else that of an occupied cell ahead that costs no
    /// more than any other; else nothing, when no occupied cell lies ahead.
    pub open spec fn step_answer(self, from: Cell, d: Dir, r: Option<usize>) -> bool {
        match self.scan_from(from, d, 1) {
            Some(c) => r == Some(self.stars_at(c)[0]),
            None => match r {
                Some(t) => exists|c: Cell|
                    #![trigger self.ahead(from, d, c)]
                    self.ahead(from, d, c) && self.stars_at(c)[0] == t && forall|c2: Cell|
                        #[trigger] self.ahead(from, d, c2) ==> cost(from, d, c) <= cost(from, d, c2),
                None => forall|c: Cell| !#[trigger] self.ahead(from, d, c),
            },
        }
    }

    /// One step of the cursor: the brightest star of the first occupied
    /// cell along the row (or column) in direction `d`; when that line is
    /// empty, the brightest star of the cheapest occupied cell on that
    /// side, going off the line counting double; `None` when nothing lies
    /// that way. Among equally cheap cells any one may be taken.
    pub fn step(&self, from: Cell, d: Dir) -> (r: Option<usize>)
        ensures
            self.step_answer(from, d, r),
    {
        proof {
            use_type_invariant(self);
        }
        let fx = from.0 as i64;
        let fy = from.1 as i64;
        let mut k: i64 = 1;
        loop
            invariant
                1 <= k <= 65537,
                fx == from.0,
                fy == from.1,
                self.scan_from(from, d, 1) == self.scan_from(from, d, k as int),
            ensures
                self.scan_from(from, d, 1) is None,
            decreases 70000 - k,
        {
            let (x, y) = match d {
                Dir::Left => (fx - k, fy),
                Dir::Right => (fx + k, fy),
                Dir::Up => (fx, fy - k),
                Dir::Down => (fx, fy + k),
            };
            assert(offset(from, d, k as int) == (x as int, y as int));
            if !(0 <= x && x < 62 && 0 <= y && y < 17) {
                break;
            }
            let c: Cell = (x as u16, y as u16);
            let list = self.stars_in(c);
            if list.len() > 0 {
                return Some(list[0]);
            }
            assert(k <= 65535);
            k = k + 1;
        }
        broadcast use vstd::std_specs::hash::group_hash_axioms;

        let mut best: Option<(i64, u32)> = None;
        let ghost ks = spec_keys_iter(&self.cells).remaining();
        for key in it: self.cells.keys()
            invariant
                it.seq() == ks,
                fx == from.0,
                fy == from.1,
                forall|k: u32| #[trigger] self.cells@.contains_key(k) ==> self.cells@[k]@.len() > 0,
                match best {
                    Some((bc, bk)) => self.cells@.contains_key(bk) && bc == cost(from, d, key_cell(bk)) && along(
                        from,
                        d,
                        key_cell(bk),
                    ) > 0 && forall|m: int|
                        0 <= m < it.index() && along(from, d, key_cell(*#[trigger] ks[m])) > 0 ==> bc
                            <= cost(from, d, key_cell(*ks[m])),
                    None => forall|m: int| 0 <= m < it.index() ==> along(from, d, key_cell(*#[trigger] ks[m]))
                        <= 0,
                },
        {
            let k: u32 = *key;
            let cx = (k / 65536) as i64;
            let cy = (k % 65536) as i64;
            let ghost c = key_cell(k);
            let (ahead, off) = match d {
                Dir::Left => (fx - cx, cy - fy),
                Dir::Right => (cx - fx, cy - fy),
                Dir::Up => (fy - cy, cx - fx),
                Dir::Down => (cy - fy, cx - fx),
            };
            let off_abs = if off < 0 {
                -off
            } else {
                off
            };
            assert(ahead == along(from, d, c));
            assert(off_abs == across(from, d, c));
            if ahead > 0 {
                let this_cost = ahead + 2 * off_abs;
                let better = match best {
                    Some((bc, _)) => this_cost < bc,
                    None => true,
                };
                if better {
                    best = Some((this_cost, k));
                }
            }
        }
        match best {
            Some((bc, bk)) => {
                let ghost c = key_cell(bk);
                proof {
                    lemma_key_cell(bk);
                    assert(self.stars_at(c) == self.cells@[bk]@);
                    assert(self.ahead(from, d, c));
                    assert forall|c2: Cell| #[trigger] self.ahead(from, d, c2) implies cost(from, d, c)
                        <= cost(from, d, c2) by {
                        lemma_cell_key(c2);
                        assert(self.cells@.dom().contains(cell_key(c2)));
                        assert(ks.unref().to_set().contains(cell_key(c2)));
                        let m = choose|m: int| 0 <= m < ks.len() && *ks[m] == cell_key(c2);
                        assert(key_cell(*ks[m]) == c2);
                    }
                }
                match self.cells.get(&bk) {
                    Some(l) => Some(l[0]),
                    None => None,
                }
            },
            None => {
                proof {
                    assert forall|c2: Cell| !#[trigger] self.ahead(from, d, c2) by {
                        if self.ahead(from, d, c2) {
                            lemma_cell_key(c2);
                            assert(ks.unref().to_set().contains(cell_key(c2)));
                            let m = choose|m: int| 0 <= m < ks.len() && *ks[m] == cell_key(c2);
                            assert(key_cell(*ks[m]) == c2);
                        }
                    }
                }
                None
            },
        }
    }
}

/// How many cells ahead of `from`, in direction `d`, the cell `c` lies on
/// the same row (Left, Right) or column (Up, Down); 0 when it is not on
/// that line ahead.
pub open spec fn line_distance(from: Cell, d: Dir, c: Cell) -> int {
    match d {
        Dir::Left => if c.1 == from.1 && c.0 < from.0 { from.0 - c.0 } else { 0 },
        Dir::Right => if c.1 == from.1 && c.0 > from.0 { c.0 - from.0 } else { 0 },
        Dir::Up => if c.0 == from.0 && c.1 < from.1 { from.1 - c.1 } else { 0 },
        Dir::Down => if c.0 == from.0 && c.1 > from.1 { c.1 - from.1 } else { 0 },
    }
}

/// A cell inside the 62 × 17 plot.
pub open spec fn inside_plot(c: Cell) -> bool {
    c.0 < 62 && c.1 < 17
}

proof fn lemma_scan(g: Grid, from: Cell, d: Dir, k: int)
    requires
        1 <= k,
        inside_plot(from),
    ensures
        match g.scan_from(from, d, k) {
            Some(c) => inside_plot(c) && g.stars_at(c).len() > 0 && line_distance(from, d, c) >= k && forall|c2: Cell|
                #![trigger g.stars_at(c2)]
                inside_plot(c2) && g.stars_at(c2).len() > 0 && k <= line_distance(from, d, c2) ==> line_distance(
                    from,
                    d,
                    c,
                ) <= line_distance(from, d, c2),
            None => forall|c2: Cell|
                #![trigger g.stars_at(c2)]
                inside_plot(c2) && g.stars_at(c2).len() > 0 ==> line_distance(from, d, c2) < k,
        },
    decreases 70000 - k,
{
    if k < 70000 {
        let p = offset(from, d, k);
        if in_plot(p.0, p.1) {
            let pc: Cell = (p.0 as u16, p.1 as u16);
            assert(pc.0 as int == p.0 && pc.1 as int == p.1);
            assert(line_distance(from, d, pc) == k);
            assert forall|c2: Cell| inside_plot(c2) && line_distance(from, d, c2) == k implies c2 == pc by {}
            if g.stars_at(pc).len() == 0 {
                lemma_scan(g, from, d, k + 1);
            }
        }
    }
}

/// Along the line first: when an occupied cell of the plot lies on the
/// row (or column) ahead of the cursor, a step lands on the brightest star
/// of the nearest such cell; when none does, the walk along the line finds
/// nothing and the cheapest cell on that side decides (`law_step_cheapest`).
///
/// `r` is any answer `Grid::step` may give: `g.step(from, d)` ensures
/// `g.step_answer(from, d, r)`.
pub proof fn law_step_along_line(g: Grid, from: Cell, d: Dir, r: Option<usize>)
    requires
        g.step_answer(from, d, r),
        inside_plot(from),
    ensures
        (exists|c: Cell|
            #![trigger g.stars_at(c)]
            inside_plot(c) && g.stars_at(c).len() > 0 && line_distance(from, d, c) > 0) ==> exists|c: Cell|
            #![trigger g.stars_at(c)]
            inside_plot(c) && g.stars_at(c).len() > 0 && line_distance(from, d, c) > 0 && r == Some(g.stars_at(c)[0])
                && forall|c2: Cell|
                #![trigger g.stars_at(c2)]
                inside_plot(c2) && g.stars_at(c2).len() > 0 && line_distance(from, d, c2) > 0 ==> line_distance(
                    from,
                    d,
                    c,
                ) <= line_distance(from, d, c2),
        (forall|c: Cell|
            #![trigger g.stars_at(c)]
            inside_plot(c) && g.stars_at(c).len() > 0 ==> line_distance(from, d, c) == 0) ==> g.scan_from(from, d, 1)
            is None,
{
    lemma_scan(g, from, d, 1);
    match g.scan_from(from, d, 1) {
        Some(c) => {
            assert(g.stars_at(c).len() > 0);
        },
        None => {},
    }
}

/// When the row (or column) ahead holds no star, a step lands on the
/// brightest star of an occupied cell on that side that costs least, the
/// cost being the distance ahead plus twice the distance off the line:
/// for Left the distance ahead is `from.0 - c.0` and off the line
/// `|c.1 - from.1|`, for Right `c.0 - from.0` and `|c.1 - from.1|`, for Up
/// `from.1 - c.1` and `|c.0 - from.0|`, for Down `c.1 - from.1` and
/// `|c.0 - from.0|`. With no occupied cell on that side there is no step.
///
/// `r` is any answer `Grid::step` may give: `g.step(from, d)` ensures
/// `g.step_answer(from, d, r)`.
pub proof fn law_step_cheapest(g: Grid, from: Cell, d: Dir, r: Option<usize>)
    requires
        g.step_answer(from, d, r),
    ensures
        g.scan_from(from, d, 1) is None ==> match r {
            Some(t) => exists|c: Cell|
                #![trigger g.stars_at(c)]
                g.stars_at(c).len() > 0 && g.stars_at(c)[0] == t && (match d {
                    Dir::Left => c.0 < from.0,
                    Dir::Right => c.0 > from.0,
                    Dir::Up => c.1 < from.1,
                    Dir::Down => c.1 > from.1,
                }) && forall|c2: Cell|
                    #![trigger g.stars_at(c2)]
                    g.stars_at(c2).len() > 0 && (match d {
                        Dir::Left => c2.0 < from.0,
                        Dir::Right => c2.0 > from.0,
                        Dir::Up => c2.1 < from.1,
                        Dir::Down => c2.1 > from.1,
                    }) ==> (match d {
                        Dir::Left => (from.0 - c.0) + 2 * (if c.1 >= from.1 {
                            c.1 - from.1
                        } else {
                            from.1 - c.1
                        }),
                        Dir::Right => (c.0 - from.0) + 2 * (if c.1 >= from.1 {
                            c.1 - from.1
                        } else {
                            from.1 - c.1
                        }),
                        Dir::Up => (from.1 - c.1) + 2 * (if c.0 >= from.0 {
                            c.0 - from.0
                        } else {
                            from.0 - c.0
                        }),
                        Dir::Down => (c.1 - from.1) + 2 * (if c.0 >= from.0 {
                            c.0 - from.0
                        } else {
                            from.0 - c.0
                        }),
                    }) <= (match d {
                        Dir::Left => (from.0 - c2.0) + 2 * (if c2.1 >= from.1 {
                            c2.1 - from.1
                        } else {
                            from.1 - c2.1
                        }),
                        Dir::Right => (c2.0 - from.0) + 2 * (if c2.1 >= from.1 {
                            c2.1 - from.1
                        } else {
                            from.1 - c2.1
                        }),
                        Dir::Up => (from.1 - c2.1) + 2 * (if c2.0 >= from.0 {
                            c2.0 - from.0
                        } else {
                            from.0 - c2.0
                        }),
                        Dir::Down => (c2.1 - from.1) + 2 * (if c2.0 >= from.0 {
                            c2.0 - from.0
                        } else {
                            from.0 - c2.0
                        }),
                    }),
            None => forall|c: Cell|
                #![trigger g.stars_at(c)]
                g.stars_at(c).len() > 0 ==> !(match d {
                    Dir::Left => c.0 < from.0,
                    Dir::Right => c.0 > from.0,
                    Dir::Up => c.1 < from.1,
                    Dir::Down => c.1 > from.1,
                }),
        },
{
    if g.scan_from(from, d, 1) is None {
        match r {
            Some(t) => {
                let c = choose|c: Cell|
                    #![trigger g.ahead(from, d, c)]
                    g.ahead(from, d, c) && g.stars_at(c)[0] == t && forall|c2: Cell|
                        #[trigger] g.ahead(from, d, c2) ==> cost(from, d, c) <= cost(from, d, c2);
                assert forall|c2: Cell|
                    #![trigger g.stars_at(c2)]
                    g.stars_at(c2).len() > 0 && (match d {
                        Dir::Left => c2.0 < from.0,
                        Dir::Right => c2.0 > from.0,
                        Dir::Up => c2.1 < from.1,
                        Dir::Down => c2.1 > from.1,
                    }) implies cost(from, d, c) <= cost(from, d, c2) by {
                    assert(g.ahead(from, d, c2));
                }
            },
            None => {
                assert forall|c: Cell| #![trigger g.stars_at(c)] g.stars_at(c).len() > 0 implies !(match d {
                    Dir::Left => c.0 < from.0,
                    Dir::Right => c.0 > from.0,
                    Dir::Up => c.1 < from.1,
                    Dir::Down => c.1 > from.1,
                }) by {
                    assert(!g.ahead(from, d, c));
                }
            },
        }
    }
}

/// The members of a cell are stars of that cell, in strictly increasing
/// order, and every star of the cell is among them.
pub proof fn lemma_members(cells: Seq<Cell>, c: Cell)
    requires
        cells.len() <= usize::MAX,
    ensures
        forall|k: int| 0 <= k < members(cells, c).len() ==> (#[trigger] members(cells, c)[k]) < cells.len()
            && cells[members(cells, c)[k] as int] == c,
        forall|a: int, b: int|
            0 <= a < b < members(cells, c).len() ==> #[trigger] members(cells, c)[a] < #[trigger] members(
                cells,
                c,
            )[b],
        forall|i: int| 0 <= i < cells.len() && cells[i] == c ==> #[trigger] members(cells, c).contains(i as usize),
    decreases cells.len(),
{
    if cells.len() > 0 {
        let init = cells.drop_last();
        lemma_members(init, c);
        let rest = members(init, c);
        assert forall|k: int| 0 <= k < rest.len() implies cells[rest[k] as int] == c by {
            assert(cells[rest[k] as int] == init[rest[k] as int]);
        }
        if cells.last() == c {
            let m = members(cells, c);
            assert(m == rest.push((cells.len() - 1) as usize));
            assert forall|k: int| 0 <= k < m.len() implies (#[trigger] m[k]) < cells.len() && cells[m[k] as int]
                == c by {
                if k < rest.len() {
                    assert(m[k] == rest[k]);
                } else {
                    assert(m[k] == (cells.len() - 1) as usize);
                }
            }
            assert forall|a: int, b: int| 0 <= a < b < m.len() implies #[trigger] m[a] < #[trigger] m[b] by {
                assert(m[a] == rest[a]);
                if b < rest.len() {
                    assert(m[b] == rest[b]);
                }
            }
            assert forall|i: int| 0 <= i < cells.len() && cells[i] == c implies #[trigger] m.contains(i as usize) by {
                if i < cells.len() - 1 {
                    assert(init[i] == cells[i]);
                    assert(rest.contains(i as usize));
                    let k = choose|k: int| 0 <= k < rest.len() && rest[k] == i as usize;
                    assert(m[k] == i as usize);
                } else {
                    assert(m[rest.len() as int] == i as usize);
                }
            }
        } else {
            assert(members(cells, c) == rest);
            assert forall|i: int| 0 <= i < cells.len() && cells[i] == c implies #[trigger] members(
                cells,
                c,
            ).contains(i as usize) by {
                assert(i < cells.len() - 1);
                assert(init[i] == cells[i]);
            }
        }
    }
}

/// No name occurs twice.
pub open spec fn distinct_names(names: Seq<Seq<char>>) -> bool {
    forall|a: int, b: int| 0 <= a < names.len() && 0 <= b < names.len() && a != b ==> names[a] != names[b]
}

} // verus!
