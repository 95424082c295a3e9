//! Field of view.
//!
//! The cells in sight are computed by `bracket_lib`'s symmetric
//! shadow-casting routine, which reads the map through the two traits
//! implemented below. What comes back is then clipped to the map and to a
//! diamond around the viewer.

use vstd::prelude::*;
use crate::lists::lemma_prefix_step;
use crate::state::{State, same_but_world_and_map, same_terrain};
use crate::world::{Entity, Record, ascending, attach, contents, fetch, sorted_entities};
use bracket_lib::prelude::{Algorithm2D, BaseMap};
use crate::map::{GameMap, TileType};
use crate::paths::Cell;
use crate::position::{Coord, Position, manhattan};

verus! {

/// `bracket_lib`'s point, which its map traits speak in. It is only made and
/// handed on here.
#[verifier::external_type_specification]
#[verifier::external_body]
pub struct ExBracketPoint(bracket_lib::prelude::Point);

/// The largest range handed to the shadow-casting routine, which sizes its
/// working set by the square of the range. A longer range counts as this one.
pub const FOV_LIMIT: u16 = 1024;

/// What an entity sees: how far it looks, the cells it saw when it last
/// looked, and whether it has to look again. The list of cells is only
/// meaningful while `dirty` is off.
#[derive(Debug, Clone)]
pub struct ViewShed {
    pub visible_tiles: Vec<Position>,
    pub range: u16,
    pub dirty: bool,
}

/// The mathematical value of a `ViewShed`.
pub struct ViewShedModel {
    pub visible: Seq<Position>,
    pub range: u16,
    pub dirty: bool,
}

impl View for ViewShed {
    type V = ViewShedModel;

    open spec fn view(&self) -> ViewShedModel {
        ViewShedModel { visible: self.visible_tiles@, range: self.range, dirty: self.dirty }
    }
}

impl ViewShed {
    /// A view that reaches `range` cells and has not looked yet.
    pub fn new(range: u16) -> (v: Self)
        ensures
            v@ == (ViewShedModel { visible: Seq::empty(), range, dirty: true }),
    {
        let v = ViewShed { visible_tiles: Vec::new(), range, dirty: true };
        v
    }

    /// Whether `pos` is among the cells seen.
    pub fn sees(&self, pos: Position) -> (r: bool)
        ensures
            r == self@.visible.contains(pos),
    {
        let mut i: usize = 0;
        while i < self.visible_tiles.len()
            invariant
                i <= self.visible_tiles@.len(),
                forall|k: int| 0 <= k < i ==> self.visible_tiles@[k] != pos,
            decreases self.visible_tiles@.len() - i,
        {
            if self.visible_tiles[i] == pos {
                return true;
            }
            i += 1;
        }
        false
    }
}

/// The point that `bracket_lib` makes of the coordinates `x` and `y`.
pub uninterp spec fn point_at(x: i32, y: i32) -> bracket_lib::prelude::Point;

/// `bracket_lib`'s `Point::new` on two `i32` values. The outside function
/// stores the two coordinates as they are, so its result depends on them
/// alone; it is named `point_at` here, since a point cannot be looked into.
#[verifier::external_body]
fn outside_point(x: i32, y: i32) -> (p: bracket_lib::prelude::Point)
    ensures
        p == point_at(x, y),
{
    bracket_lib::prelude::Point::new(x, y)
}

/// The length of a side of the map as `bracket_lib` counts it, in 32 signed
/// bits. A side too long for that counts as no side at all.
pub open spec fn side(n: usize) -> i32 {
    if n <= i32::MAX {
        n as i32
    } else {
        0
    }
}

/// What `bracket_lib` asks of the terrain.
impl BaseMap for GameMap {
    /// Whether nothing can be seen through the cell stored at `idx`. Walls
    /// are opaque, and so is everything outside the map.
    fn is_opaque(&self, idx: usize) -> (r: bool)
        ensures
            r == (idx >= self.tiles@.len() || self.tiles@[idx as int] == TileType::Wall),
    {
        idx >= self.tiles.storage.len() || self.tiles.storage[idx] == TileType::Wall
    }
}

/// What `bracket_lib` asks of the map's shape. Cells are numbered row by
/// row, which is also the numbering that `bracket_lib` falls back on.
impl Algorithm2D for GameMap {
    /// The map's width and height as a point of `bracket_lib`.
    fn dimensions(&self) -> (p: bracket_lib::prelude::Point)
        ensures
            p == point_at(side(self.width), side(self.height)),
    {
        let w: i32 = if self.width <= 0x7fff_ffff { self.width as i32 } else { 0 };
        let h: i32 = if self.height <= 0x7fff_ffff { self.height as i32 } else { 0 };
        outside_point(w, h)
    }
}

/// The cells that the symmetric shadow-casting routine reports from `(x, y)`
/// with the given range on a map of the given shape and terrain.
pub uninterp spec fn field_of_view(x: int, y: int, range: int, width: int, height: int, tiles: Seq<TileType>) -> Set<Cell>;

/// The cell that a point stands for.
pub open spec fn cell_of(p: Coord) -> Cell {
    (p.x as int, p.y as int)
}

/// `bracket_lib`'s `FieldOfViewAlg::field_of_view_set`, called on the
/// variant `SymmetricShadowcasting` and read through the map's `BaseMap` and
/// `Algorithm2D` impls. The outside function returns a hash set, handed on
/// here as a list without repetitions and in no particular order; which
/// cells it holds depends on the viewer's cell, the range, and the map's
/// shape and terrain alone. The viewer must stand inside the map, at
/// coordinates of at most 16 bits, and the range must not exceed
/// `FOV_LIMIT`, so that the routine's 32-bit arithmetic stays in range.
#[verifier::external_body]
pub(crate) fn field_of_view_set(center: Coord, range: i32, map: &GameMap) -> (cells: Vec<Coord>)
    requires
        map.wf(),
        map.in_bounds(center.x as int, center.y as int),
        center.x <= u16::MAX,
        center.y <= u16::MAX,
        0 <= range <= FOV_LIMIT,
    ensures
        cells@.no_duplicates(),
        cells@.map_values(|p: Coord| cell_of(p)).to_set() == field_of_view(
            center.x as int,
            center.y as int,
            range as int,
            map.width as int,
            map.height as int,
            map.tiles@,
        ),
{
    let seen = bracket_lib::prelude::FieldOfViewAlg::SymmetricShadowcasting.field_of_view_set(
        bracket_lib::prelude::Point::new(center.x, center.y),
        range,
        map,
    );
    seen.into_iter().map(|p| Coord { x: p.x, y: p.y }).collect()
}

/// The range that the shadow-casting routine is run with.
pub open spec fn capped(range: u16) -> int {
    if range <= FOV_LIMIT {
        range as int
    } else {
        FOV_LIMIT as int
    }
}

/// A viewer at `from` that looks `range` cells far sees `p`: both stand
/// inside the map, `p` is no more than `range` steps away in Manhattan
/// distance, and the shadow-casting routine reports `p`.
pub open spec fn in_sight(map: GameMap, from: Position, range: u16, p: Position) -> bool {
    &&& map.in_bounds(from.x as int, from.y as int)
    &&& map.in_bounds(p.x as int, p.y as int)
    &&& manhattan(from.x as int, from.y as int, p.x as int, p.y as int) <= range
    &&& field_of_view(
        from.x as int,
        from.y as int,
        capped(range),
        map.width as int,
        map.height as int,
        map.tiles@,
    ).contains((p.x as int, p.y as int))
}

/// `cells` lists, each once, the cells in sight of a viewer at `from`.
pub open spec fn is_view(map: GameMap, from: Position, range: u16, cells: Seq<Position>) -> bool {
    &&& cells.no_duplicates()
    &&& forall|p: Position| cells.contains(p) <==> in_sight(map, from, range, p)
}

/// Every cell of a view lies inside the map and no more than `range` steps
/// from the viewer.
pub proof fn lemma_view_contained(map: GameMap, from: Position, range: u16, cells: Seq<Position>, p: Position)
    requires
        is_view(map, from, range, cells),
        cells.contains(p),
    ensures
        map.in_bounds(p.x as int, p.y as int),
        manhattan(from.x as int, from.y as int, p.x as int, p.y as int) <= range,
{
}

/// Lists the cells in sight of a viewer at `from`: what the shadow-casting
/// routine reports, clipped to the map and to the diamond of cells within
/// `range` steps. A viewer outside the map sees nothing.
pub fn look(map: &GameMap, from: Position, range: u16) -> (cells: Vec<Position>)
    requires
        map.wf(),
    ensures
        is_view(*map, from, range, cells@),
{
    let mut cells: Vec<Position> = Vec::new();
    if from.x as usize >= map.width || from.y as usize >= map.height {
        return cells;
    }
    let reach: i32 = if range <= FOV_LIMIT { range as i32 } else { FOV_LIMIT as i32 };
    let raw = field_of_view_set(from.to_point(), reach, map);
    let ghost fov = field_of_view(
        from.x as int,
        from.y as int,
        capped(range),
        map.width as int,
        map.height as int,
        map.tiles@,
    );
    let ghost raw_cells = raw@.map_values(|p: Coord| cell_of(p));
    let mut i: usize = 0;
    while i < raw.len()
        invariant
            i <= raw@.len(),
            map.wf(),
            map.in_bounds(from.x as int, from.y as int),
            raw@.no_duplicates(),
            raw_cells == raw@.map_values(|p: Coord| cell_of(p)),
            raw_cells.to_set() == fov,
            fov == field_of_view(
                from.x as int,
                from.y as int,
                capped(range),
                map.width as int,
                map.height as int,
                map.tiles@,
            ),
            cells@.no_duplicates(),
            forall|p: Position|
                cells@.contains(p) <==> in_sight(*map, from, range, p) && raw@.subrange(0, i as int).contains(
                    p.to_point_spec(),
                ),
        decreases raw@.len() - i,
    {
        let p = raw[i];
        let ghost done = raw@.subrange(0, i as int);
        let ghost next = raw@.subrange(0, i + 1);
        let ghost before = cells@;
        proof {
            lemma_prefix_step(raw@, i as int);
            assert(raw_cells[i as int] == cell_of(p));
        }
        let inside = 0 <= p.x && p.x <= 65535 && 0 <= p.y && p.y <= 65535 && (p.x as usize) < map.width && (
        p.y as usize) < map.height;
        if inside {
            let q = Position { x: p.x as u16, y: p.y as u16 };
            if from.distance(q) <= range as u32 {
                proof {
                    if before.contains(q) {
                        assert(done.contains(q.to_point_spec()));
                    }
                }
                cells.push(q);
                proof {
                    assert forall|x: Position|
                        cells@.contains(x) <==> in_sight(*map, from, range, x) && next.contains(
                            x.to_point_spec(),
                        ) by {
                        assert(before.contains(x) <==> in_sight(*map, from, range, x) && done.contains(
                            x.to_point_spec(),
                        ));
                        assert(next.contains(x.to_point_spec()) <==> (done.contains(x.to_point_spec())
                            || x.to_point_spec() == p));
                        if in_sight(*map, from, range, x) && next.contains(x.to_point_spec()) {
                            if x.to_point_spec() == p {
                                assert(cells@[cells@.len() - 1] == x);
                            } else {
                                let k = choose|k: int| 0 <= k < before.len() && before[k] == x;
                                assert(cells@[k] == x);
                            }
                        }
                    }
                }
            } else {
                proof {
                    assert forall|x: Position|
                        cells@.contains(x) <==> in_sight(*map, from, range, x) && next.contains(
                            x.to_point_spec(),
                        ) by {
                        assert(before.contains(x) <==> in_sight(*map, from, range, x) && done.contains(
                            x.to_point_spec(),
                        ));
                        assert(next.contains(x.to_point_spec()) <==> (done.contains(x.to_point_spec())
                            || x.to_point_spec() == p));
                    }
                }
            }
        }
        i += 1;
    }
    proof {
        assert(raw@.subrange(0, raw@.len() as int) == raw@);
        assert forall|p: Position| cells@.contains(p) <==> in_sight(*map, from, range, p) by {
            if in_sight(*map, from, range, p) {
            }
        }
    }
    cells
}

/// The entity has a view that is out of date and a place to look from.
pub open spec fn must_look(r: Record) -> bool {
    r.viewshed.is_some() && r.position.is_some() && r.viewshed.unwrap().dirty
}

/// `after` is `before` with its view brought up to date on `map`: an entity
/// that has to look holds a list, without repetitions, of exactly the cells
/// in its sight, and no longer has to look. Nothing else changes, and an
/// entity that does not have to look does not change at all.
pub open spec fn has_looked(map: GameMap, before: Record, after: Record) -> bool {
    if must_look(before) {
        &&& after.viewshed.is_some()
        &&& !after.viewshed.unwrap().dirty
        &&& after.viewshed.unwrap().range == before.viewshed.unwrap().range
        &&& is_view(
            map,
            before.position.unwrap(),
            before.viewshed.unwrap().range,
            after.viewshed.unwrap().visible,
        )
        &&& after == Record { viewshed: after.viewshed, ..before }
    } else {
        after == before
    }
}

/// The cell `(x, y)` is in sight of the entity `r`.
pub open spec fn seen_from(map: GameMap, r: Record, x: int, y: int) -> bool {
    &&& 0 <= x <= u16::MAX
    &&& 0 <= y <= u16::MAX
    &&& in_sight(map, r.position.unwrap(), r.viewshed.unwrap().range, Position { x: x as u16, y: y as u16 })
}

/// The player exists and has to look.
pub open spec fn player_looks(st: State) -> bool {
    &&& st.player.is_some()
    &&& contents(st.world).contains_key(st.player.unwrap())
    &&& must_look(contents(st.world)[st.player.unwrap()])
}

/// What the player's look does to the map: the visible grid shows exactly
/// the cells in the player's sight, and these cells are revealed in addition
/// to those revealed before. When the player does not look, the map is
/// unchanged.
pub open spec fn map_shown(before: State, after: GameMap) -> bool {
    if player_looks(before) {
        let me = contents(before.world)[before.player.unwrap()];
        &&& same_terrain(before.map, after)
        &&& forall|x: int, y: int|
            before.map.in_bounds(x, y) ==> #[trigger] after.visible.cell(x, y) == seen_from(before.map, me, x, y)
        &&& forall|x: int, y: int|
            before.map.in_bounds(x, y) ==> #[trigger] after.revealed.cell(x, y) == (before.map.revealed.cell(
                x,
                y,
            ) || seen_from(before.map, me, x, y))
    } else {
        after == before.map
    }
}

/// `after` is `before` with every out-of-date view brought up to date.
pub open spec fn visibility_done(before: State, after: State) -> bool {
    &&& same_but_world_and_map(before, after)
    &&& contents(after.world).dom() == contents(before.world).dom()
    &&& forall|e: Entity| #[trigger]
        contents(before.world).contains_key(e) ==> has_looked(
            before.map,
            contents(before.world)[e],
            contents(after.world)[e],
        )
    &&& map_shown(before, after.map)
}

impl State {
    /// Brings the view of every entity that has to look up to date. Entities
    /// whose view is current are not looked at. Only the player's look shows
    /// on the map: its cells become the visible cells and are revealed.
    pub fn compute_visibility(&mut self)
        requires
            old(self).map.wf(),
        ensures
            final(self).map.wf(),
            visibility_done(*old(self), *final(self)),
            old(self).map.seen_is_known() ==> final(self).map.seen_is_known(),
            final(self).map.knows_all_of(&old(self).map),
    {
        let ghost start = *self;
        let ids = sorted_entities(&mut self.world);
        let ghost c = contents(self.world);
        let mut i: usize = 0;
        while i < ids.len()
            invariant
                i <= ids@.len(),
                start == *old(self),
                c == contents(start.world),
                ascending(ids@),
                forall|id: Entity| ids@.contains(id) <==> c.contains_key(id),
                self.map.wf(),
                same_but_world_and_map(start, *self),
                same_terrain(start.map, self.map),
                contents(self.world).dom() == c.dom(),
                forall|e: Entity| #[trigger]
                    c.contains_key(e) ==> (if ids@.subrange(0, i as int).contains(e) {
                        has_looked(start.map, c[e], contents(self.world)[e])
                    } else {
                        contents(self.world)[e] == c[e]
                    }),
                if player_looks(start) && ids@.subrange(0, i as int).contains(start.player.unwrap()) {
                    map_shown(start, self.map)
                } else {
                    self.map == start.map
                },
                start.map.seen_is_known() ==> self.map.seen_is_known(),
                self.map.knows_all_of(&start.map),
            decreases ids@.len() - i,
        {
            let e = ids[i];
            proof {
                lemma_prefix_step(ids@, i as int);
            }
            let fov = fetch::<ViewShed>(&mut self.world, e);
            let pos = fetch::<Position>(&mut self.world, e);
            match (fov, pos) {
                (Some(fov), Some(pos)) => {
                    if fov.dirty {
                        let cells = look(&self.map, pos, fov.range);
                        if self.player == Some(e) {
                            self.map.mark_visible(&cells);
                            proof {
                                assert forall|x: int, y: int|
                                    GameMap::listed(cells@, x, y) == seen_from(start.map, c[e], x, y) by {
                                    if GameMap::listed(cells@, x, y) {
                                        let k = choose|k: int|
                                            0 <= k < cells@.len() && (#[trigger] cells@[k]).x == x && cells@[k].y
                                                == y;
                                        assert(cells@.contains(cells@[k]));
                                    }
                                    if seen_from(start.map, c[e], x, y) {
                                        let p = Position { x: x as u16, y: y as u16 };
                                        assert(cells@.contains(p));
                                    }
                                }
                            }
                        }
                        let seen = ViewShed { visible_tiles: cells, range: fov.range, dirty: false };
                        attach::<ViewShed>(&mut self.world, e, seen);
                    }
                },
                _ => {},
            }
            i += 1;
        }
        proof {
            assert(ids@.subrange(0, ids@.len() as int) == ids@);
        }
    }
}

} // verus!
