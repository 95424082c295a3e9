//! The cost field: how many steps each walkable cell lies from a source cell.
//!
//! Costs are counted in tenths of a step, so that the source itself can be
//! given a cost that is more than nothing and less than one step.

use vstd::prelude::*;
use crate::state::{State, player_at, player_placed};
use crate::world::fetch;
use crate::grid::Grid;
use crate::map::GameMap;
use crate::paths::{
    Cell, adjacent, joined, lemma_shortest_unique, lemma_shortest_walk, lemma_within_back,
    lemma_within_more, lemma_within_step, lemma_within_witness, lemma_within_zero, shortest,
    steps_to, walk_between, within,
};
use crate::position::{Coord, Position};

verus! {

/// The cost of one step, in tenths.
pub const STEP: u32 = 10;

/// The cost recorded for the source cell itself, in tenths: more than
/// nothing, less than one step.
pub const SOURCE_COST: u32 = 6;

/// The cost of a cell that the flood fill did not reach.
pub const UNREACHED: u32 = u32::MAX;

/// The flood fill stops short of this many steps.
pub const MAX_DEPTH: u32 = 100;

/// One cost per cell, in tenths of a step.
#[derive(Debug)]
pub struct CostField {
    pub costs: Grid<u32>,
}

/// The cells the flood fill walks over: every cell of the map that can be
/// walked on, and the source.
pub open spec fn ground(map: GameMap, source: Cell) -> Set<Cell> {
    map.open_cells().insert(source)
}

/// The cost of cell `c` in the field around `source`: `SOURCE_COST` for the
/// source itself; ten times the length of a shortest walk from the source
/// for a cell that such a walk reaches in fewer than `MAX_DEPTH` steps;
/// `UNREACHED` for any other cell.
pub open spec fn field_cost(map: GameMap, source: Cell, c: Cell) -> u32 {
    if c == source {
        SOURCE_COST
    } else if within(ground(map, source), source, c, (MAX_DEPTH - 1) as nat) {
        (STEP * steps_to(ground(map, source), source, c)) as u32
    } else {
        UNREACHED
    }
}

/// What the flood fill has established of a cell after `depth` rounds: a
/// cell within `depth` steps of the source holds ten times its distance,
/// any other cell is still unreached.
pub open spec fn settled(s: Set<Cell>, source: Cell, c: Cell, v: u32, depth: nat) -> bool {
    if within(s, source, c, depth) {
        exists|n: nat| n <= depth && v == STEP * n && #[trigger] shortest(s, source, c, n)
    } else {
        v == UNREACHED
    }
}

/// The cost stored for `(x, y)`, or `UNREACHED` outside the grid.
pub open spec fn cost_at(costs: Grid<u32>, x: int, y: int) -> u32 {
    if costs.in_bounds(x, y) {
        costs.cell(x, y)
    } else {
        UNREACHED
    }
}

/// Some neighbour of `(x, y)` holds the cost `level`.
pub open spec fn touches(costs: Grid<u32>, x: int, y: int, level: u32) -> bool {
    ||| cost_at(costs, x - 1, y) == level
    ||| cost_at(costs, x + 1, y) == level
    ||| cost_at(costs, x, y + 1) == level
    ||| cost_at(costs, x, y - 1) == level
}

/// The state of the grid in the middle of round `depth + 1`: the cells
/// stored before `idx` have been through the round, the others not yet.
pub open spec fn half_done(costs: Grid<u32>, s: Set<Cell>, source: Cell, depth: nat, idx: int) -> bool {
    forall|x: int, y: int|
        costs.in_bounds(x, y) ==> settled(
            s,
            source,
            (x, y),
            #[trigger] costs.cell(x, y),
            if costs.spec_idx(x, y) < idx {
                depth + 1
            } else {
                depth
            },
        )
}

/// A settled cell that is within reach stays settled for one round more.
proof fn lemma_settled_keeps(s: Set<Cell>, source: Cell, c: Cell, v: u32, depth: nat)
    requires
        settled(s, source, c, v, depth),
        within(s, source, c, depth),
    ensures
        settled(s, source, c, v, depth + 1),
{
    lemma_within_more(s, source, c, depth, depth + 1);
}

/// A cell settled in either round that lies exactly `depth` steps away holds
/// the cost of `depth` steps, and no other cell does.
proof fn lemma_level(s: Set<Cell>, source: Cell, c: Cell, v: u32, depth: nat, round: nat)
    requires
        settled(s, source, c, v, round),
        round == depth || round == depth + 1,
        depth < MAX_DEPTH,
    ensures
        v == STEP * depth <==> shortest(s, source, c, depth),
{
    if within(s, source, c, round) {
        let n = choose|n: nat| n <= round && v == STEP * n && #[trigger] shortest(s, source, c, n);
        if shortest(s, source, c, depth) {
            lemma_shortest_unique(s, source, c, depth);
            lemma_shortest_unique(s, source, c, n);
        }
        if v == STEP * depth {
            assert(n == depth) by (nonlinear_arith)
                requires
                    STEP * n == STEP * depth,
            ;
        }
    } else {
        if shortest(s, source, c, depth) {
            lemma_within_more(s, source, c, depth, round);
        }
        assert(STEP * depth < UNREACHED) by (nonlinear_arith)
            requires
                depth < 100,
        ;
    }
}

/// What one round does to one cell. A cell that is still unreached, belongs
/// to the ground and touches a cell exactly `depth` steps away lies exactly
/// `depth + 1` steps away; any other cell keeps its cost.
proof fn lemma_round_cell(costs: Grid<u32>, s: Set<Cell>, source: Cell, depth: nat, idx: int, x: int, y: int)
    requires
        costs.wf(),
        costs.in_bounds(x, y),
        half_done(costs, s, source, depth, idx),
        costs.spec_idx(x, y) >= idx,
        depth + 1 < MAX_DEPTH,
        forall|c: Cell| s.contains(c) ==> costs.in_bounds(c.0, c.1),
    ensures
        costs.cell(x, y) == UNREACHED && s.contains((x, y)) && touches(costs, x, y, (STEP * depth) as u32)
            ==> settled(s, source, (x, y), (STEP * (depth + 1)) as u32, depth + 1),
        !(costs.cell(x, y) == UNREACHED && s.contains((x, y)) && touches(
            costs,
            x,
            y,
            (STEP * depth) as u32,
        )) ==> settled(s, source, (x, y), costs.cell(x, y), depth + 1),
{
    let c: Cell = (x, y);
    let v = costs.cell(x, y);
    let level = (STEP * depth) as u32;
    assert(STEP * depth < UNREACHED && STEP * (depth + 1) < UNREACHED) by (nonlinear_arith)
        requires
            depth + 1 < 100,
    ;
    if within(s, source, c, depth) {
        lemma_settled_keeps(s, source, c, v, depth);
        let n = choose|n: nat| n <= depth && v == STEP * n && #[trigger] shortest(s, source, c, n);
        assert(v != UNREACHED) by (nonlinear_arith)
            requires
                v == STEP * n,
                n <= depth,
                depth < 100,
        ;
    } else {
        if s.contains(c) && touches(costs, x, y, level) {
            let b: Cell = if cost_at(costs, x - 1, y) == level {
                (x - 1, y)
            } else if cost_at(costs, x + 1, y) == level {
                (x + 1, y)
            } else if cost_at(costs, x, y + 1) == level {
                (x, y + 1)
            } else {
                (x, y - 1)
            };
            let round: nat = if costs.spec_idx(b.0, b.1) < idx {
                depth + 1
            } else {
                depth
            };
            lemma_within_step(s, source, b, c, depth);
            assert(shortest(s, source, c, depth + 1));
        } else {
            if within(s, source, c, depth + 1) {
                let b = lemma_within_back(s, source, c, depth);
                let round: nat = if costs.spec_idx(b.0, b.1) < idx {
                    depth + 1
                } else {
                    depth
                };
                lemma_level(s, source, b, costs.cell(b.0, b.1), depth, round);
            }
        }
    }
}

impl CostField {
    /// The cost stored for `(x, y)`, or `UNREACHED` outside the field.
    pub open spec fn cost(&self, x: int, y: int) -> u32 {
        cost_at(self.costs, x, y)
    }

    /// The field has the map's shape and holds for every cell the cost that
    /// `field_cost` gives it.
    pub open spec fn is_field_of(&self, map: GameMap, source: Cell) -> bool {
        &&& self.costs.wf()
        &&& self.costs.width == map.width
        &&& self.costs.height == map.height
        &&& forall|x: int, y: int|
            map.in_bounds(x, y) ==> #[trigger] self.costs.cell(x, y) == field_cost(map, source, (x, y))
    }

    /// A field in which no cell has been reached.
    pub fn new_empty(width: usize, height: usize) -> (field: CostField)
        requires
            width * height <= usize::MAX,
        ensures
            field.costs.wf(),
            field.costs.width == width,
            field.costs.height == height,
            forall|i: int| 0 <= i < field.costs@.len() ==> #[trigger] field.costs@[i] == UNREACHED,
    {
        CostField { costs: Grid::new(UNREACHED, width, height) }
    }

    /// Whether a neighbour of `(x, y)` holds the cost `level`.
    fn touches_level(costs: &Grid<u32>, x: i32, y: i32, level: u32) -> (r: bool)
        requires
            costs.wf(),
            costs.in_bounds(x as int, y as int),
            costs.width <= i32::MAX,
            costs.height <= i32::MAX,
            level != UNREACHED,
        ensures
            r == touches(*costs, x as int, y as int, level),
    {
        let west = match costs.get(x - 1, y) {
            Some(v) => *v == level,
            None => false,
        };
        let east = match costs.get(x + 1, y) {
            Some(v) => *v == level,
            None => false,
        };
        let south = match costs.get(x, y + 1) {
            Some(v) => *v == level,
            None => false,
        };
        let north = match costs.get(x, y - 1) {
            Some(v) => *v == level,
            None => false,
        };
        west || east || south || north
    }

    /// The cost field around `source`: a flood fill over the cells that can
    /// be walked on, one step at a time between cells that share an edge,
    /// that stops short of `MAX_DEPTH` steps. Afterwards the source's own
    /// cost is set to `SOURCE_COST`, below the cost of each of its
    /// neighbours.
    pub fn new(map: &GameMap, source: Position) -> (field: CostField)
        requires
            map.wf(),
            map.in_bounds(source.x as int, source.y as int),
        ensures
            field.is_field_of(*map, (source.x as int, source.y as int)),
    {
        let ghost src: Cell = (source.x as int, source.y as int);
        let ghost s = ground(*map, src);
        proof {
            map.lemma_width_small();
            map.lemma_height_small();
        }
        let mut costs: Grid<u32> = Grid::new(UNREACHED, map.width, map.height);
        let n: usize = costs.storage.len();
        proof {
            assert forall|x: int, y: int| costs.in_bounds(x, y) implies #[trigger] costs.cell(x, y)
                == UNREACHED by {
                costs.lemma_idx_bounds(x, y);
            }
        }
        costs.set(source.x as i32, source.y as i32, 0);
        proof {
            assert forall|x: int, y: int| costs.in_bounds(x, y) implies settled(
                s,
                src,
                (x, y),
                #[trigger] costs.cell(x, y),
                0,
            ) by {
                lemma_within_zero(s, src, (x, y));
                if (x, y) == src {
                    assert(shortest(s, src, src, 0));
                }
            }
        }
        let mut depth: u32 = 0;
        while depth + 1 < MAX_DEPTH
            invariant
                map.wf(),
                costs.wf(),
                costs.width == map.width,
                costs.height == map.height,
                costs.width <= i32::MAX,
                costs.height <= i32::MAX,
                n == costs@.len(),
                depth < MAX_DEPTH,
                src == (source.x as int, source.y as int),
                map.in_bounds(src.0, src.1),
                s == ground(*map, src),
                forall|x: int, y: int|
                    costs.in_bounds(x, y) ==> settled(s, src, (x, y), #[trigger] costs.cell(x, y), depth as nat),
            decreases MAX_DEPTH - depth,
        {
            let level: u32 = STEP * depth;
            let mut idx: usize = 0;
            while idx < n
                invariant
                    map.wf(),
                    costs.wf(),
                    costs.width == map.width,
                    costs.height == map.height,
                    costs.width <= i32::MAX,
                    costs.height <= i32::MAX,
                    n == costs@.len(),
                    idx <= n,
                    depth + 1 < MAX_DEPTH,
                    level == STEP * depth,
                    src == (source.x as int, source.y as int),
                    map.in_bounds(src.0, src.1),
                    s == ground(*map, src),
                    half_done(costs, s, src, depth as nat, idx as int),
                decreases n - idx,
            {
                proof {
                    costs.lemma_idx_onto(idx as int);
                }
                let x: i32 = (idx % costs.width) as i32;
                let y: i32 = (idx / costs.width) as i32;
                let ghost before = costs;
                proof {
                    lemma_round_cell(before, s, src, depth as nat, idx as int, x as int, y as int);
                }
                let reached = costs.storage[idx] == UNREACHED && map.is_passable(Coord { x, y })
                    && Self::touches_level(&costs, x, y, level);
                proof {
                    if before.cell(x as int, y as int) == UNREACHED {
                        if (x as int, y as int) == src {
                            lemma_within_zero(s, src, src);
                            lemma_within_more(s, src, src, 0, depth as nat);
                            let m = choose|m: nat|
                                m <= depth && UNREACHED == STEP * m && #[trigger] shortest(s, src, src, m);
                            assert(false) by (nonlinear_arith)
                                requires
                                    UNREACHED == STEP * m,
                                    m <= depth,
                                    depth < 100,
                            ;
                        }
                    }
                }
                if reached {
                    costs.set(x, y, STEP * (depth + 1));
                }
                proof {
                    assert forall|cx: int, cy: int| costs.in_bounds(cx, cy) implies settled(
                        s,
                        src,
                        (cx, cy),
                        #[trigger] costs.cell(cx, cy),
                        if costs.spec_idx(cx, cy) < idx + 1 {
                            (depth + 1) as nat
                        } else {
                            depth as nat
                        },
                    ) by {
                        before.lemma_idx_bounds(cx, cy);
                        if cx != x || cy != y {
                            assert(settled(
                                s,
                                src,
                                (cx, cy),
                                before.cell(cx, cy),
                                if before.spec_idx(cx, cy) < idx {
                                    (depth + 1) as nat
                                } else {
                                    depth as nat
                                },
                            ));
                        }
                    }
                }
                idx += 1;
            }
            proof {
                assert forall|x: int, y: int| costs.in_bounds(x, y) implies settled(
                    s,
                    src,
                    (x, y),
                    #[trigger] costs.cell(x, y),
                    (depth + 1) as nat,
                ) by {
                    costs.lemma_idx_bounds(x, y);
                }
            }
            depth += 1;
        }
        let ghost filled = costs;
        costs.set(source.x as i32, source.y as i32, SOURCE_COST);
        proof {
            assert forall|x: int, y: int| map.in_bounds(x, y) implies #[trigger] costs.cell(x, y)
                == field_cost(*map, src, (x, y)) by {
                if (x, y) != src {
                    let c: Cell = (x, y);
                    if within(s, src, c, (MAX_DEPTH - 1) as nat) {
                        let m = choose|m: nat|
                            m <= MAX_DEPTH - 1 && filled.cell(x, y) == STEP * m && #[trigger] shortest(
                                s,
                                src,
                                c,
                                m,
                            );
                        lemma_shortest_unique(s, src, c, m);
                    }
                }
            }
        }
        CostField { costs }
    }
}

/// The place in `exits` of the exit to take: the first of those with the
/// lowest cost.
pub open spec fn is_lowest(costs: Seq<u32>, exits: Seq<usize>, k: int) -> bool {
    &&& 0 <= k < exits.len()
    &&& forall|j: int| 0 <= j < exits.len() ==> costs[exits[k] as int] <= costs[#[trigger] exits[j] as int]
    &&& forall|j: int| 0 <= j < k ==> costs[#[trigger] exits[j] as int] > costs[exits[k] as int]
}

impl CostField {
    /// The candidates for the next step from `(x, y)`: the neighbours that
    /// can be walked on, taken west, east, south, north, and last the cell
    /// itself if it can be walked on.
    pub open spec fn candidates(map: GameMap, x: int, y: int) -> Seq<usize> {
        map.exits(x, y) + map.exit_at(x, y)
    }

    /// The first of `exits` with the lowest cost, or `None` for an empty
    /// list.
    pub fn pick_lowest(&self, exits: &Vec<usize>) -> (r: Option<usize>)
        requires
            forall|j: int| 0 <= j < exits@.len() ==> #[trigger] exits@[j] < self.costs@.len(),
        ensures
            r == lowest_exit(self.costs@, exits@),
            r.is_some() ==> exits@.contains(r.unwrap()),
    {
        if exits.len() == 0 {
            return None;
        }
        let mut best: usize = 0;
        let mut i: usize = 1;
        while i < exits.len()
            invariant
                1 <= i <= exits@.len(),
                best < i,
                forall|j: int| 0 <= j < exits@.len() ==> #[trigger] exits@[j] < self.costs@.len(),
                forall|j: int|
                    0 <= j < i ==> self.costs@[exits@[best as int] as int] <= self.costs@[#[trigger] exits@[j] as int],
                forall|j: int|
                    0 <= j < best ==> self.costs@[#[trigger] exits@[j] as int] > self.costs@[exits@[best as int] as int],
            decreases exits@.len() - i,
        {
            if self.costs.storage[exits[i]] < self.costs.storage[exits[best]] {
                best = i;
            }
            i += 1;
        }
        proof {
            lemma_lowest_unique(self.costs@, exits@, best as int, lowest_place(self.costs@, exits@));
        }
        Some(exits[best])
    }

    /// The cell to step to from the cell stored at `position`: among its
    /// walkable neighbours and the cell itself, if walkable, the one with the
    /// lowest cost, the first such in the order west, east, south, north,
    /// cell itself. `None` when there is no candidate.
    pub fn find_lowest_exit(&self, position: usize, map: &GameMap) -> (r: Option<usize>)
        requires
            map.wf(),
            self.costs.wf(),
            self.costs.width == map.width,
            self.costs.height == map.height,
            position < map.tiles@.len(),
        ensures
            r == lowest_exit(
                self.costs@,
                Self::candidates(*map, (position % map.width) as int, (position / map.width) as int),
            ),
            r.is_some() ==> r.unwrap() < map.tiles@.len(),
    {
        proof {
            map.tiles.lemma_idx_onto(position as int);
        }
        let x: i32 = (position % map.width) as i32;
        let y: i32 = (position / map.width) as i32;
        let mut exits = map.get_available_exits(position);
        if map.is_passable(Coord { x, y }) {
            exits.push(position);
        }
        proof {
            assert(exits@ =~= Self::candidates(*map, x as int, y as int));
            assert forall|j: int| 0 <= j < exits@.len() implies #[trigger] exits@[j] < self.costs@.len() by {
                map.lemma_exits_inside(x as int, y as int, j);
            }
        }
        self.pick_lowest(&exits)
    }
}

/// The place of the exit to take, where there is an exit.
pub open spec fn lowest_place(costs: Seq<u32>, exits: Seq<usize>) -> int {
    choose|k: int| is_lowest(costs, exits, k)
}

/// The exit to take: the first of those with the lowest cost, or `None`
/// when there is no exit.
pub open spec fn lowest_exit(costs: Seq<u32>, exits: Seq<usize>) -> Option<usize> {
    if exits.len() == 0 {
        None
    } else {
        Some(exits[lowest_place(costs, exits)])
    }
}

/// A list with at least one exit has a place that is the first with the
/// lowest cost, and `lowest_place` is such a place.
pub proof fn lemma_lowest_exists(costs: Seq<u32>, exits: Seq<usize>)
    requires
        exits.len() > 0,
    ensures
        is_lowest(costs, exits, lowest_place(costs, exits)),
    decreases exits.len(),
{
    let last = exits.len() - 1;
    if last == 0 {
        assert(is_lowest(costs, exits, 0));
    } else {
        let front = exits.drop_last();
        lemma_lowest_exists(costs, front);
        let k = lowest_place(costs, front);
        assert forall|j: int| 0 <= j < last implies costs[front[k] as int] <= costs[#[trigger] exits[j] as int] by {
            assert(front[j] == exits[j]);
        }
        assert forall|j: int| 0 <= j < k implies costs[#[trigger] exits[j] as int] > costs[front[k] as int] by {
            assert(front[j] == exits[j]);
        }
        assert(front[k] == exits[k]);
        if costs[exits[last] as int] < costs[exits[k] as int] {
            assert(is_lowest(costs, exits, last));
        } else {
            assert(is_lowest(costs, exits, k));
        }
    }
}

/// Only one place is the first with the lowest cost.
pub proof fn lemma_lowest_unique(costs: Seq<u32>, exits: Seq<usize>, k: int, m: int)
    requires
        is_lowest(costs, exits, k),
    ensures
        is_lowest(costs, exits, lowest_place(costs, exits)),
        is_lowest(costs, exits, m) ==> m == k,
{
    if is_lowest(costs, exits, m) {
        if m < k {
            assert(costs[exits[m] as int] > costs[exits[k] as int]);
        }
        if k < m {
            assert(costs[exits[k] as int] > costs[exits[m] as int]);
        }
    }
}

/// A cell within reach of the source is joined to it.
pub proof fn lemma_within_joined(s: Set<Cell>, a: Cell, b: Cell, steps: nat)
    requires
        within(s, a, b, steps),
    ensures
        joined(s, a, b),
{
    lemma_within_witness(s, a, b, steps);
}

/// The source costs less than every neighbour of it that can be walked on.
pub proof fn lemma_source_is_lowest(field: CostField, map: GameMap, source: Cell, neighbour: Cell)
    requires
        map.wf(),
        map.in_bounds(source.0, source.1),
        field.is_field_of(map, source),
        adjacent(source, neighbour),
        map.is_open(neighbour.0, neighbour.1),
    ensures
        field.cost(source.0, source.1) == SOURCE_COST,
        field.cost(neighbour.0, neighbour.1) == STEP,
        field.cost(source.0, source.1) < field.cost(neighbour.0, neighbour.1),
{
    let s = ground(map, source);
    lemma_within_zero(s, source, source);
    lemma_within_zero(s, source, neighbour);
    lemma_within_step(s, source, source, neighbour, 0);
    lemma_within_more(s, source, neighbour, 1, (MAX_DEPTH - 1) as nat);
    lemma_shortest_unique(s, source, neighbour, 1);
}

/// A cell that no walk from the source reaches keeps the cost `UNREACHED`.
pub proof fn lemma_unreached_stays(field: CostField, map: GameMap, source: Cell, c: Cell)
    requires
        map.in_bounds(c.0, c.1),
        field.is_field_of(map, source),
        !joined(ground(map, source), source, c),
    ensures
        field.cost(c.0, c.1) == UNREACHED,
{
    let s = ground(map, source);
    if within(s, source, c, (MAX_DEPTH - 1) as nat) {
        lemma_within_joined(s, source, c, (MAX_DEPTH - 1) as nat);
    }
    if c == source {
        assert(walk_between(s, source, source, seq![source]));
    }
}

/// Along a shortest walk from the source that is shorter than `MAX_DEPTH`
/// steps, the cost never falls: a cell further along costs more.
pub proof fn lemma_costs_rise(field: CostField, map: GameMap, source: Cell, c: Cell, p: Seq<Cell>, i: int, j: int)
    requires
        map.in_bounds(source.0, source.1),
        field.is_field_of(map, source),
        walk_between(ground(map, source), source, c, p),
        shortest(ground(map, source), source, c, (p.len() - 1) as nat),
        p.len() <= MAX_DEPTH,
        0 <= i < j < p.len(),
    ensures
        field.cost(p[i].0, p[i].1) < field.cost(p[j].0, p[j].1),
        i > 0 ==> field.cost(p[i].0, p[i].1) == STEP * i,
        field.cost(p[j].0, p[j].1) == STEP * j,
{
    let s = ground(map, source);
    lemma_shortest_walk(s, source, c, p, i);
    lemma_shortest_walk(s, source, c, p, j);
    lemma_shortest_unique(s, source, p[i], i as nat);
    lemma_shortest_unique(s, source, p[j], j as nat);
    lemma_within_zero(s, source, p[j]);
    lemma_within_zero(s, source, p[i]);
    lemma_within_more(s, source, p[j], j as nat, (MAX_DEPTH - 1) as nat);
    lemma_within_more(s, source, p[i], i as nat, (MAX_DEPTH - 1) as nat);
    if p[j] == source {
        lemma_within_more(s, source, source, 0, (j - 1) as nat);
    }
    if i > 0 {
        if p[i] == source {
            lemma_within_more(s, source, source, 0, (i - 1) as nat);
        }
    }
    assert(STEP * j >= 10 && STEP * i < STEP * j && STEP * j < 1000) by (nonlinear_arith)
        requires
            0 <= i < j < 100,
    ;
}

/// The cost field belongs to the map: it has the map's shape, and if the
/// player stands inside the map it is the field around the player's cell.
pub open spec fn field_ready(st: State) -> bool {
    &&& st.dm.costs.wf()
    &&& st.dm.costs.width == st.map.width
    &&& st.dm.costs.height == st.map.height
    &&& st.map.in_bounds(player_at(st).x as int, player_at(st).y as int) ==> st.dm.is_field_of(
        st.map,
        (player_at(st).x as int, player_at(st).y as int),
    )
    &&& !st.map.in_bounds(player_at(st).x as int, player_at(st).y as int) ==> forall|i: int|
        0 <= i < st.dm.costs@.len() ==> #[trigger] st.dm.costs@[i] == UNREACHED
}

/// Everything but the cost field is the same in both states.
pub open spec fn same_but_field(before: State, after: State) -> bool {
    &&& after.world == before.world
    &&& after.map == before.map
    &&& after.rng == before.rng
    &&& after.phase == before.phase
    &&& after.player == before.player
    &&& after.msg_log == before.msg_log
    &&& after.animation_queue == before.animation_queue
    &&& after.current_animation == before.current_animation
    &&& after.counter == before.counter
}

impl State {
    /// Computes the cost field around the player's cell from scratch. A
    /// player that stands outside the map leaves every cell unreached.
    pub fn compute_dijkstra_map(&mut self)
        requires
            old(self).map.wf(),
            player_placed(*old(self)),
        ensures
            same_but_field(*old(self), *final(self)),
            field_ready(*final(self)),
    {
        let placed = match self.player {
            Some(p) => fetch::<Position>(&mut self.world, p),
            None => None,
        };
        match placed {
            Some(at) => {
                if (at.x as usize) < self.map.width && (at.y as usize) < self.map.height {
                    self.dm = CostField::new(&self.map, at);
                } else {
                    self.dm = CostField::new_empty(self.map.width, self.map.height);
                }
            },
            None => {},
        }
    }
}

/// `after` is `before` with the cost field computed around the player.
pub open spec fn costed(before: State, after: State) -> bool {
    same_but_field(before, after) && field_ready(after)
}

} // verus!
