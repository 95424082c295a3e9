//! The dungeon map: terrain, the visibility and occupancy grids kept beside
//! it, and the generator that carves rooms and tunnels.

use vstd::prelude::*;
use bracket_lib::random::RandomNumberGenerator;
use crate::grid::Grid;
use crate::paths::{
    Cell, joined, lemma_joined_column, lemma_joined_grow, lemma_joined_row,
    lemma_joined_self, lemma_joined_trans,
};
use crate::position::{Coord, Position};
use crate::rect::Rect;
use crate::rng;
use crate::world::Entity;

verus! {

/// The terrain of one cell.
#[derive(Debug, Clone, Copy, PartialEq, Eq, Structural)]
pub enum TileType {
    Wall,
    Floor,
}

impl Default for TileType {
    /// Solid rock.
    fn default() -> (t: Self)
        ensures
            t == TileType::Wall,
    {
        TileType::Wall
    }
}

/// How many candidate rooms the generator tries.
pub const MAX_ROOMS: i32 = 30;

/// The smallest extent a candidate room is drawn with.
pub const MIN_SIZE: i32 = 6;

/// One more than the largest extent a candidate room is drawn with.
pub const MAX_SIZE: i32 = 10;

/// The smallest map side on which every candidate room fits.
pub const MIN_SIDE: usize = 11;

/// The dungeon and the per-cell state that accompanies it.
///
/// `entities` is a lookup rebuilt every turn: it lists, by identifier, the
/// blocking entities standing on each cell, and owns nothing.
#[derive(Debug)]
pub struct GameMap {
    pub tiles: Grid<TileType>,
    pub revealed: Grid<bool>,
    pub visible: Grid<bool>,
    pub blocked: Grid<bool>,
    pub entities: Grid<Vec<Entity>>,
    pub rooms: Vec<Rect>,
    pub width: usize,
    pub height: usize,
}

/// `v` lies between `a` and `b`, whichever of the two is smaller.
pub open spec fn in_span(a: int, b: int, v: int) -> bool {
    a <= v <= b || b <= v <= a
}

/// The cell `(x, y)` belongs to the L-shaped tunnel from the center of `prev`
/// to the center of `next`. A horizontal-first tunnel leaves `prev` along its
/// row and arrives along the column of `next`; the other kind leaves along
/// the column of `prev` and arrives along the row of `next`.
pub open spec fn in_tunnel(prev: Rect, next: Rect, horizontal_first: bool, x: int, y: int) -> bool {
    if horizontal_first {
        ||| (y == prev.center_y() && in_span(prev.center_x(), next.center_x(), x))
        ||| (x == next.center_x() && in_span(prev.center_y(), next.center_y(), y))
    } else {
        ||| (x == prev.center_x() && in_span(prev.center_y(), next.center_y(), y))
        ||| (y == next.center_y() && in_span(prev.center_x(), next.center_x(), x))
    }
}

/// The cell `(x, y)` lies in one of the rooms.
pub open spec fn in_some_room(rooms: Seq<Rect>, x: int, y: int) -> bool {
    exists|i: int| 0 <= i < rooms.len() && (#[trigger] rooms[i]).contains(x, y)
}

/// The cell `(x, y)` lies in the tunnel that links some room to the one
/// accepted just before it; `turns[i]` tells whether the tunnel into room `i`
/// runs horizontally first.
pub open spec fn in_some_tunnel(rooms: Seq<Rect>, turns: Seq<bool>, x: int, y: int) -> bool {
    exists|i: int|
        1 <= i < rooms.len() && in_tunnel(rooms[i - 1], #[trigger] rooms[i], turns[i], x, y)
}

/// The cell `(x, y)` is dug out by the rooms and the tunnels between
/// consecutive rooms.
pub open spec fn carved(rooms: Seq<Rect>, turns: Seq<bool>, x: int, y: int) -> bool {
    in_some_room(rooms, x, y) || in_some_tunnel(rooms, turns, x, y)
}

/// A candidate room as it is drawn, and the coin that would shape the tunnel
/// leading to it.
pub type Candidate = (Rect, bool);

/// The room overlaps none of `rooms`.
pub open spec fn clear_of(rooms: Seq<Rect>, room: Rect) -> bool {
    forall|i: int| 0 <= i < rooms.len() ==> !#[trigger] rooms[i].overlaps(room)
}

/// The rooms accepted from the candidates, in the order they were drawn: a
/// candidate is accepted when it overlaps none of those accepted before it.
pub open spec fn accepted_rooms(candidates: Seq<Candidate>) -> Seq<Rect>
    decreases candidates.len(),
{
    if candidates.len() == 0 {
        Seq::empty()
    } else {
        let rooms = accepted_rooms(candidates.drop_last());
        if clear_of(rooms, candidates.last().0) {
            rooms.push(candidates.last().0)
        } else {
            rooms
        }
    }
}

/// The tunnel shapes that go with the accepted rooms: the coin of each
/// accepted candidate. The first room has no tunnel; its entry does not
/// matter and is `false`.
pub open spec fn accepted_turns(candidates: Seq<Candidate>) -> Seq<bool>
    decreases candidates.len(),
{
    if candidates.len() == 0 {
        Seq::empty()
    } else {
        let rooms = accepted_rooms(candidates.drop_last());
        let turns = accepted_turns(candidates.drop_last());
        if clear_of(rooms, candidates.last().0) {
            turns.push(rooms.len() > 0 && candidates.last().1)
        } else {
            turns
        }
    }
}

/// Appending a room and the tunnel that leads to it digs out that room and
/// that tunnel, and nothing else.
pub proof fn lemma_carved_push(rooms: Seq<Rect>, turns: Seq<bool>, room: Rect, turn: bool, x: int, y: int)
    requires
        turns.len() == rooms.len(),
    ensures
        carved(rooms.push(room), turns.push(turn), x, y) <==> carved(rooms, turns, x, y) || room.contains(x, y)
            || (rooms.len() > 0 && in_tunnel(rooms[rooms.len() - 1], room, turn, x, y)),
{
    let n = rooms.len() as int;
    let more = rooms.push(room);
    let bends = turns.push(turn);
    if in_some_room(rooms, x, y) {
        let i = choose|i: int| 0 <= i < rooms.len() && (#[trigger] rooms[i]).contains(x, y);
        assert(more[i].contains(x, y));
    }
    if room.contains(x, y) {
        assert(more[n].contains(x, y));
    }
    if in_some_room(more, x, y) {
        let i = choose|i: int| 0 <= i < more.len() && (#[trigger] more[i]).contains(x, y);
        if i < n {
            assert(rooms[i].contains(x, y));
        }
    }
    if in_some_tunnel(rooms, turns, x, y) {
        let i = choose|i: int|
            1 <= i < rooms.len() && in_tunnel(rooms[i - 1], #[trigger] rooms[i], turns[i], x, y);
        assert(in_tunnel(more[i - 1], more[i], bends[i], x, y));
    }
    if n > 0 && in_tunnel(rooms[n - 1], room, turn, x, y) {
        assert(in_tunnel(more[n - 1], more[n], bends[n], x, y));
    }
    if in_some_tunnel(more, bends, x, y) {
        let i = choose|i: int|
            1 <= i < more.len() && in_tunnel(more[i - 1], #[trigger] more[i], bends[i], x, y);
    }
}

impl Default for GameMap {
    /// A map without cells.
    fn default() -> (map: Self)
        ensures
            map.wf(),
            map.width == 0,
            map.height == 0,
            map.rooms@.len() == 0,
    {
        GameMap::empty(0, 0)
    }
}

impl GameMap {
    /// The cell `(x, y)` lies inside the map.
    pub open spec fn in_bounds(&self, x: int, y: int) -> bool {
        0 <= x < self.width && 0 <= y < self.height
    }

    /// All grids have the map's shape, and every index fits in 31 bits.
    pub open spec fn wf(&self) -> bool {
        &&& self.width * self.height <= i32::MAX
        &&& self.tiles.wf() && self.tiles.width == self.width && self.tiles.height == self.height
        &&& self.revealed.wf() && self.revealed.width == self.width && self.revealed.height
            == self.height
        &&& self.visible.wf() && self.visible.width == self.width && self.visible.height
            == self.height
        &&& self.blocked.wf() && self.blocked.width == self.width && self.blocked.height
            == self.height
        &&& self.entities.wf() && self.entities.width == self.width && self.entities.height
            == self.height
    }

    /// The cell is inside the map and its tile is `Floor`.
    pub open spec fn is_floor(&self, x: int, y: int) -> bool {
        self.in_bounds(x, y) && self.tiles.cell(x, y) == TileType::Floor
    }

    /// The cell is inside the map, its tile is `Floor` and nothing blocks it.
    pub open spec fn is_open(&self, x: int, y: int) -> bool {
        self.is_floor(x, y) && !self.blocked.cell(x, y)
    }

    /// All floor cells.
    pub open spec fn floor(&self) -> Set<Cell> {
        Set::new(|c: Cell| self.is_floor(c.0, c.1))
    }

    /// All cells that can be walked on.
    pub open spec fn open_cells(&self) -> Set<Cell> {
        Set::new(|c: Cell| self.is_open(c.0, c.1))
    }

    /// The room has ordered corners and lies inside the map.
    pub open spec fn room_fits(&self, r: Rect) -> bool {
        0 <= r.x1 <= r.x2 < self.width && 0 <= r.y1 <= r.y2 < self.height
    }

    /// The room has the shape the generator draws: each extent at least
    /// `MIN_SIZE` and below `MAX_SIZE`, the far corner at least one cell away
    /// from the right and bottom edges.
    pub open spec fn room_drawn(&self, r: Rect) -> bool {
        &&& 0 <= r.x1 && r.x2 <= self.width - 2
        &&& 0 <= r.y1 && r.y2 <= self.height - 2
        &&& MIN_SIZE <= r.x2 - r.x1 < MAX_SIZE
        &&& MIN_SIZE <= r.y2 - r.y1 < MAX_SIZE
    }

    /// The floor is exactly what the rooms dig out together with the tunnels
    /// between consecutive rooms, `turns[i]` telling whether the tunnel into
    /// room `i` runs horizontally first.
    pub open spec fn dug_by(&self, turns: Seq<bool>) -> bool {
        &&& turns.len() == self.rooms@.len()
        &&& forall|x: int, y: int| #[trigger]
            self.is_floor(x, y) <==> self.in_bounds(x, y) && carved(self.rooms@, turns, x, y)
    }

    /// The map is what generation makes of the candidates: its rooms are
    /// those accepted from them, and its floor is what these rooms and the
    /// tunnels between them dig out.
    pub open spec fn generated_from(&self, candidates: Seq<Candidate>) -> bool {
        &&& candidates.len() == MAX_ROOMS
        &&& forall|i: int| 0 <= i < candidates.len() ==> self.room_drawn((#[trigger] candidates[i]).0)
        &&& self.rooms@ == accepted_rooms(candidates)
        &&& self.dug_by(accepted_turns(candidates))
    }

    /// The center of room `i`.
    pub open spec fn room_center(&self, i: int) -> Cell {
        (self.rooms@[i].center_x(), self.rooms@[i].center_y())
    }

    /// What generation guarantees of the room list: every room lies inside
    /// the map, no two rooms overlap, every cell of a room is floor, and a
    /// walk over floor cells leads from the first room's center to the center
    /// of every other room.
    pub open spec fn rooms_ok(&self) -> bool {
        &&& forall|i: int| 0 <= i < self.rooms@.len() ==> self.room_fits(#[trigger] self.rooms@[i])
        &&& forall|i: int, j: int|
            0 <= i < j < self.rooms@.len() ==> !#[trigger] self.rooms@[i].overlaps(self.rooms@[j])
        &&& forall|i: int, x: int, y: int|
            0 <= i < self.rooms@.len() && (#[trigger] self.rooms@[i]).contains(x, y)
                ==> #[trigger] self.is_floor(x, y)
        &&& forall|i: int|
            0 <= i < self.rooms@.len() ==> joined(self.floor(), self.room_center(0), #[trigger] self.room_center(i))
    }

    /// The blocked grid marks exactly the walls.
    pub open spec fn blocked_is_walls(&self) -> bool {
        forall|x: int, y: int|
            self.in_bounds(x, y) ==> #[trigger] self.blocked.cell(x, y) == (self.tiles.cell(x, y)
                == TileType::Wall)
    }

    /// Everything but the tiles is the same in both maps.
    pub open spec fn same_but_tiles(&self, other: &Self) -> bool {
        &&& self.width == other.width
        &&& self.height == other.height
        &&& self.revealed == other.revealed
        &&& self.visible == other.visible
        &&& self.blocked == other.blocked
        &&& self.entities == other.entities
        &&& self.rooms == other.rooms
    }

    /// With at least one row, the width fits in 31 bits.
    pub proof fn lemma_width_small(&self)
        requires
            self.wf(),
            self.height > 0,
        ensures
            self.width <= i32::MAX,
    {
        assert(self.width <= self.width * self.height) by (nonlinear_arith)
            requires
                self.height >= 1,
                self.width >= 0,
        ;
    }

    /// With at least one column, the height fits in 31 bits.
    pub proof fn lemma_height_small(&self)
        requires
            self.wf(),
            self.width > 0,
        ensures
            self.height <= i32::MAX,
    {
        assert(self.height <= self.width * self.height) by (nonlinear_arith)
            requires
                self.width >= 1,
                self.height >= 0,
        ;
    }

    /// A grid of the map's shape filled with default values.
    pub fn new_grid<T: Default>(&self) -> (g: Grid<T>)
        requires
            self.width * self.height <= usize::MAX,
        ensures
            g.wf(),
            g.width == self.width,
            g.height == self.height,
            forall|i: int| 0 <= i < g@.len() ==> call_ensures(T::default, (), #[trigger] g@[i]),
    {
        Grid::default(self.width, self.height)
    }

    /// A map of solid rock: every tile a wall, nothing revealed, visible or
    /// blocked, no entities and no rooms.
    pub fn empty(width: usize, height: usize) -> (map: GameMap)
        requires
            width * height <= i32::MAX,
        ensures
            map.wf(),
            map.width == width,
            map.height == height,
            map.rooms@.len() == 0,
            forall|i: int| 0 <= i < map.tiles@.len() ==> #[trigger] map.tiles@[i] == TileType::Wall,
            forall|i: int| 0 <= i < map.revealed@.len() ==> !#[trigger] map.revealed@[i],
            forall|i: int| 0 <= i < map.visible@.len() ==> !#[trigger] map.visible@[i],
            forall|i: int| 0 <= i < map.blocked@.len() ==> !#[trigger] map.blocked@[i],
            forall|i: int| 0 <= i < map.entities@.len() ==> (#[trigger] map.entities@[i])@.len() == 0,
    {
        GameMap {
            tiles: Grid::default(width, height),
            revealed: Grid::default(width, height),
            visible: Grid::default(width, height),
            blocked: Grid::default(width, height),
            entities: Grid::default(width, height),
            rooms: Vec::new(),
            width,
            height,
        }
    }

    /// Turns the cells `(x, y)` with `from <= x <= to` that lie inside the map
    /// into floor.
    fn carve_row(&mut self, from: i32, to: i32, y: i32)
        requires
            old(self).wf(),
        ensures
            final(self).wf(),
            final(self).same_but_tiles(old(self)),
            forall|cx: int, cy: int| #[trigger]
                final(self).is_floor(cx, cy) <==> old(self).is_floor(cx, cy) || (old(self).in_bounds(
                    cx,
                    cy,
                ) && cy == y && from <= cx <= to),
    {
        if y < 0 || y as usize >= self.height {
            return;
        }
        proof {
            self.lemma_width_small();
        }
        let first: i32 = if from < 0 { 0 } else { from };
        let last: i32 = if to as i64 >= self.width as i64 { self.width as i32 - 1 } else { to };
        let mut x: i32 = first;
        while x <= last
            invariant
                self.wf(),
                self.same_but_tiles(old(self)),
                0 <= y < self.height,
                self.width <= i32::MAX,
                first == (if from < 0 { 0 } else { from }),
                last == (if to >= self.width { self.width - 1 } else { to as int }),
                first <= x,
                x <= last + 1 || x == first,
                forall|cx: int, cy: int| #[trigger]
                    self.is_floor(cx, cy) <==> old(self).is_floor(cx, cy) || (old(self).in_bounds(cx, cy)
                        && cy == y && from <= cx < x),
            decreases last + 1 - x,
        {
            let ghost before = *self;
            self.tiles.set(x, y, TileType::Floor);
            proof {
                assert forall|cx: int, cy: int| #[trigger]
                    self.is_floor(cx, cy) <==> old(self).is_floor(cx, cy) || (old(self).in_bounds(cx, cy)
                        && cy == y && from <= cx < x + 1) by {
                    if self.in_bounds(cx, cy) {
                        assert(self.tiles.cell(cx, cy) == (if cx == x && cy == y {
                            TileType::Floor
                        } else {
                            before.tiles.cell(cx, cy)
                        }));
                        assert(before.is_floor(cx, cy) <==> old(self).is_floor(cx, cy) || (old(
                            self,
                        ).in_bounds(cx, cy) && cy == y && from <= cx < x));
                    }
                }
            }
            x += 1;
        }
    }

    /// Turns the cells `(x, y)` with `from <= y <= to` that lie inside the map
    /// into floor.
    fn carve_column(&mut self, x: i32, from: i32, to: i32)
        requires
            old(self).wf(),
        ensures
            final(self).wf(),
            final(self).same_but_tiles(old(self)),
            forall|cx: int, cy: int| #[trigger]
                final(self).is_floor(cx, cy) <==> old(self).is_floor(cx, cy) || (old(self).in_bounds(
                    cx,
                    cy,
                ) && cx == x && from <= cy <= to),
    {
        if x < 0 || x as usize >= self.width {
            return;
        }
        proof {
            self.lemma_height_small();
        }
        let first: i32 = if from < 0 { 0 } else { from };
        let last: i32 = if to as i64 >= self.height as i64 { self.height as i32 - 1 } else { to };
        let mut y: i32 = first;
        while y <= last
            invariant
                self.wf(),
                self.same_but_tiles(old(self)),
                0 <= x < self.width,
                self.height <= i32::MAX,
                first == (if from < 0 { 0 } else { from }),
                last == (if to >= self.height { self.height - 1 } else { to as int }),
                first <= y,
                y <= last + 1 || y == first,
                forall|cx: int, cy: int| #[trigger]
                    self.is_floor(cx, cy) <==> old(self).is_floor(cx, cy) || (old(self).in_bounds(cx, cy)
                        && cx == x && from <= cy < y),
            decreases last + 1 - y,
        {
            let ghost before = *self;
            self.tiles.set(x, y, TileType::Floor);
            proof {
                assert forall|cx: int, cy: int| #[trigger]
                    self.is_floor(cx, cy) <==> old(self).is_floor(cx, cy) || (old(self).in_bounds(cx, cy)
                        && cx == x && from <= cy < y + 1) by {
                    if self.in_bounds(cx, cy) {
                        assert(self.tiles.cell(cx, cy) == (if cx == x && cy == y {
                            TileType::Floor
                        } else {
                            before.tiles.cell(cx, cy)
                        }));
                        assert(before.is_floor(cx, cy) <==> old(self).is_floor(cx, cy) || (old(
                            self,
                        ).in_bounds(cx, cy) && cx == x && from <= cy < y));
                    }
                }
            }
            y += 1;
        }
    }

    /// Turns every cell of `room` that lies inside the map into floor.
    pub fn carve_room(&mut self, room: Rect)
        requires
            old(self).wf(),
        ensures
            final(self).wf(),
            final(self).same_but_tiles(old(self)),
            forall|cx: int, cy: int| #[trigger]
                final(self).is_floor(cx, cy) <==> old(self).is_floor(cx, cy) || (old(self).in_bounds(
                    cx,
                    cy,
                ) && room.contains(cx, cy)),
    {
        if self.width == 0 {
            return;
        }
        proof {
            self.lemma_height_small();
        }
        let first: i32 = if room.y1 < 0 { 0 } else { room.y1 };
        let last: i32 = if room.y2 as i64 >= self.height as i64 { self.height as i32 - 1 } else { room.y2 };
        let mut y: i32 = first;
        while y <= last
            invariant
                self.wf(),
                self.same_but_tiles(old(self)),
                self.height <= i32::MAX,
                first == (if room.y1 < 0 { 0 } else { room.y1 }),
                last == (if room.y2 >= self.height { self.height - 1 } else { room.y2 as int }),
                first <= y,
                y <= last + 1 || y == first,
                forall|cx: int, cy: int| #[trigger]
                    self.is_floor(cx, cy) <==> old(self).is_floor(cx, cy) || (old(self).in_bounds(cx, cy)
                        && room.contains(cx, cy) && cy < y),
            decreases last + 1 - y,
        {
            self.carve_row(room.x1, room.x2, y);
            y += 1;
        }
    }

    /// Digs the cells of row `y` between columns `x1` and `x2`, given in
    /// either order.
    pub fn carve_horizontal_tunnel(&mut self, x1: i32, x2: i32, y: i32)
        requires
            old(self).wf(),
        ensures
            final(self).wf(),
            final(self).same_but_tiles(old(self)),
            forall|cx: int, cy: int| #[trigger]
                final(self).is_floor(cx, cy) <==> old(self).is_floor(cx, cy) || (old(self).in_bounds(
                    cx,
                    cy,
                ) && cy == y && in_span(x1 as int, x2 as int, cx)),
    {
        if x1 <= x2 {
            self.carve_row(x1, x2, y);
        } else {
            self.carve_row(x2, x1, y);
        }
    }

    /// Digs the cells of column `x` between rows `y1` and `y2`, given in
    /// either order.
    pub fn carve_vertical_tunnel(&mut self, x: i32, y1: i32, y2: i32)
        requires
            old(self).wf(),
        ensures
            final(self).wf(),
            final(self).same_but_tiles(old(self)),
            forall|cx: int, cy: int| #[trigger]
                final(self).is_floor(cx, cy) <==> old(self).is_floor(cx, cy) || (old(self).in_bounds(
                    cx,
                    cy,
                ) && cx == x && in_span(y1 as int, y2 as int, cy)),
    {
        if y1 <= y2 {
            self.carve_column(x, y1, y2);
        } else {
            self.carve_column(x, y2, y1);
        }
    }

    /// Whether `room` overlaps none of the rooms accepted so far.
    pub fn accepts(&self, room: &Rect) -> (ok: bool)
        ensures
            ok <==> forall|i: int| 0 <= i < self.rooms@.len() ==> !#[trigger] self.rooms@[i].overlaps(*room),
    {
        let mut i: usize = 0;
        while i < self.rooms.len()
            invariant
                i <= self.rooms@.len(),
                forall|k: int| 0 <= k < i ==> !#[trigger] self.rooms@[k].overlaps(*room),
            decreases self.rooms@.len() - i,
        {
            if self.rooms[i].intersect(room) {
                return false;
            }
            i += 1;
        }
        true
    }

    /// Accepts `room`: digs it out, links its center to the center of the
    /// room accepted before it, if there is one, by an L-shaped tunnel, and
    /// appends it to the room list. `horizontal_first` picks the tunnel's
    /// shape.
    pub fn add_room(&mut self, room: Rect, horizontal_first: bool)
        requires
            old(self).wf(),
        ensures
            final(self).wf(),
            final(self).width == old(self).width,
            final(self).height == old(self).height,
            final(self).revealed == old(self).revealed,
            final(self).visible == old(self).visible,
            final(self).blocked == old(self).blocked,
            final(self).entities == old(self).entities,
            final(self).rooms@ == old(self).rooms@.push(room),
            forall|cx: int, cy: int| #[trigger]
                final(self).is_floor(cx, cy) <==> old(self).is_floor(cx, cy) || (old(self).in_bounds(
                    cx,
                    cy,
                ) && (room.contains(cx, cy) || (old(self).rooms@.len() > 0 && in_tunnel(
                    old(self).rooms@[old(self).rooms@.len() - 1],
                    room,
                    horizontal_first,
                    cx,
                    cy,
                )))),
            old(self).rooms_ok() && old(self).room_fits(room) && (forall|i: int|
                0 <= i < old(self).rooms@.len() ==> !#[trigger] old(self).rooms@[i].overlaps(room))
                ==> final(self).rooms_ok(),
    {
        self.carve_room(room);
        let ghost dug = *self;
        let ghost mut half = *self;
        let n = self.rooms.len();
        if n > 0 {
            let new = room.center();
            let prev = self.rooms[n - 1].center();
            if horizontal_first {
                self.carve_horizontal_tunnel(prev.x, new.x, prev.y);
                proof {
                    half = *self;
                }
                self.carve_vertical_tunnel(new.x, prev.y, new.y);
            } else {
                self.carve_vertical_tunnel(prev.x, prev.y, new.y);
                proof {
                    half = *self;
                }
                self.carve_horizontal_tunnel(prev.x, new.x, new.y);
            }
        }
        let ghost linked = *self;
        self.rooms.push(room);
        proof {
            assert forall|cx: int, cy: int| #[trigger]
                self.is_floor(cx, cy) <==> old(self).is_floor(cx, cy) || (old(self).in_bounds(cx, cy) && (
                room.contains(cx, cy) || (old(self).rooms@.len() > 0 && in_tunnel(
                    old(self).rooms@[old(self).rooms@.len() - 1],
                    room,
                    horizontal_first,
                    cx,
                    cy,
                )))) by {
                assert(self.is_floor(cx, cy) == linked.is_floor(cx, cy));
                assert(dug.is_floor(cx, cy) <==> old(self).is_floor(cx, cy) || (old(self).in_bounds(
                    cx,
                    cy,
                ) && room.contains(cx, cy)));
            }
            if old(self).rooms_ok() && old(self).room_fits(room) && (forall|i: int|
                0 <= i < old(self).rooms@.len() ==> !#[trigger] old(self).rooms@[i].overlaps(room)) {
                old(self).lemma_rooms_ok_grows(self, room, horizontal_first);
            }
        }
    }

    /// Accepting a room that fits and overlaps no earlier room keeps the room
    /// list valid and connected.
    proof fn lemma_rooms_ok_grows(&self, after: &Self, room: Rect, horizontal_first: bool)
        requires
            self.wf(),
            self.rooms_ok(),
            self.room_fits(room),
            forall|i: int| 0 <= i < self.rooms@.len() ==> !#[trigger] self.rooms@[i].overlaps(room),
            after.width == self.width,
            after.height == self.height,
            after.rooms@ == self.rooms@.push(room),
            forall|cx: int, cy: int| #[trigger]
                after.is_floor(cx, cy) <==> self.is_floor(cx, cy) || (self.in_bounds(cx, cy) && (
                room.contains(cx, cy) || (self.rooms@.len() > 0 && in_tunnel(
                    self.rooms@[self.rooms@.len() - 1],
                    room,
                    horizontal_first,
                    cx,
                    cy,
                )))),
        ensures
            after.rooms_ok(),
    {
        let n = self.rooms@.len() as int;
        let before_floor = self.floor();
        let floor = after.floor();
        let cn: Cell = (room.center_x(), room.center_y());
        if n == 0 {
            lemma_joined_self(floor, cn);
        } else {
            let prev = self.rooms@[n - 1];
            let cp: Cell = (prev.center_x(), prev.center_y());
            let c0 = self.room_center(0);
            assert(joined(before_floor, c0, self.room_center(n - 1)));
            lemma_joined_grow(before_floor, floor, c0, cp);
            if horizontal_first {
                let corner: Cell = (cn.0, cp.1);
                lemma_joined_row(floor, cp.0, cn.0, cp.1);
                lemma_joined_column(floor, cn.0, cp.1, cn.1);
                lemma_joined_trans(floor, cp, corner, cn);
            } else {
                let corner: Cell = (cp.0, cn.1);
                lemma_joined_column(floor, cp.0, cp.1, cn.1);
                lemma_joined_row(floor, cp.0, cn.0, cn.1);
                lemma_joined_trans(floor, cp, corner, cn);
            }
            lemma_joined_trans(floor, c0, cp, cn);
        }
        assert forall|i: int| 0 <= i < after.rooms@.len() implies joined(
            floor,
            after.room_center(0),
            #[trigger] after.room_center(i),
        ) by {
            if i < n {
                lemma_joined_grow(before_floor, floor, self.room_center(0), self.room_center(i));
            }
        }
    }

    /// What is said of rooms and floor depends only on the terrain, the room
    /// list and the map's shape.
    pub proof fn lemma_same_terrain(&self, other: &Self, turns: Seq<bool>)
        requires
            self.tiles == other.tiles,
            self.rooms == other.rooms,
            self.width == other.width,
            self.height == other.height,
        ensures
            self.floor() == other.floor(),
            self.rooms_ok() ==> other.rooms_ok(),
            self.dug_by(turns) ==> other.dug_by(turns),
    {
        assert forall|x: int, y: int| self.is_floor(x, y) == other.is_floor(x, y) by {}
        assert(self.floor() =~= other.floor());
        if self.rooms_ok() {
            assert forall|i: int| 0 <= i < other.rooms@.len() implies joined(
                other.floor(),
                other.room_center(0),
                #[trigger] other.room_center(i),
            ) by {
                assert(other.room_center(i) == self.room_center(i));
            }
        }
    }

    /// Generation is decided by what is drawn: two maps of the same shape
    /// made of the same candidates have the same rooms and the same terrain.
    pub proof fn lemma_same_draws_same_map(&self, other: &Self, candidates: Seq<Candidate>)
        requires
            self.wf(),
            other.wf(),
            self.width == other.width,
            self.height == other.height,
            self.generated_from(candidates),
            other.generated_from(candidates),
        ensures
            self.rooms@ == other.rooms@,
            self.tiles@ == other.tiles@,
    {
        assert forall|i: int| 0 <= i < self.tiles@.len() implies self.tiles@[i] == other.tiles@[i] by {
            self.tiles.lemma_idx_onto(i);
            let x = i % (self.width as int);
            let y = i / (self.width as int);
            assert(self.is_floor(x, y) == other.is_floor(x, y));
        }
    }

    /// Every cell of every room can be walked to from the center of the first
    /// room without leaving the floor.
    pub proof fn lemma_rooms_reachable(&self, i: int, x: int, y: int)
        requires
            self.wf(),
            self.rooms_ok(),
            0 <= i < self.rooms@.len(),
            self.rooms@[i].contains(x, y),
        ensures
            joined(self.floor(), self.room_center(0), (x, y)),
    {
        let floor = self.floor();
        let c = self.room_center(i);
        lemma_joined_row(floor, c.0, x, c.1);
        lemma_joined_column(floor, x, c.1, y);
        lemma_joined_trans(floor, c, (x, c.1), (x, y));
        lemma_joined_trans(floor, self.room_center(0), c, (x, y));
    }

    /// Rebuilds the blocked grid from the terrain: a cell is blocked exactly
    /// when its tile is a wall.
    pub fn block_walls(&mut self)
        requires
            old(self).wf(),
        ensures
            final(self).wf(),
            final(self).width == old(self).width,
            final(self).height == old(self).height,
            final(self).tiles == old(self).tiles,
            final(self).revealed == old(self).revealed,
            final(self).visible == old(self).visible,
            final(self).entities == old(self).entities,
            final(self).rooms == old(self).rooms,
            final(self).blocked_is_walls(),
    {
        let n: usize = self.blocked.storage.len();
        let mut i: usize = 0;
        while i < n
            invariant
                self.wf(),
                i <= n,
                n == self.blocked@.len(),
                self.width == old(self).width,
                self.height == old(self).height,
                self.tiles == old(self).tiles,
                self.revealed == old(self).revealed,
                self.visible == old(self).visible,
                self.entities == old(self).entities,
                self.rooms == old(self).rooms,
                forall|k: int| 0 <= k < i ==> #[trigger] self.blocked@[k] == (self.tiles@[k] == TileType::Wall),
            decreases n - i,
        {
            let wall = self.tiles.storage[i] == TileType::Wall;
            self.blocked.storage.set(i, wall);
            i += 1;
        }
        proof {
            assert forall|x: int, y: int| self.in_bounds(x, y) implies #[trigger] self.blocked.cell(x, y) == (
            self.tiles.cell(x, y) == TileType::Wall) by {
                self.blocked.lemma_idx_bounds(x, y);
            }
        }
    }

    /// Generates a dungeon. Thirty candidate rooms are drawn from `rng`; a
    /// candidate that overlaps an accepted room is dropped, any other is dug
    /// out and linked to the room accepted before it. The first candidate is
    /// always accepted, so the room list is never empty.
    ///
    /// Whatever `rng` yields, the room list is valid and connected, and the
    /// floor consists of exactly the rooms and the tunnels between
    /// consecutive rooms, for some choice of tunnel shapes.
    pub fn new(width: usize, height: usize, rng: &mut RandomNumberGenerator) -> (map: GameMap)
        requires
            width >= MIN_SIDE,
            height >= MIN_SIDE,
            width * height <= i32::MAX,
        ensures
            map.wf(),
            map.width == width,
            map.height == height,
            1 <= map.rooms@.len() <= MAX_ROOMS,
            map.rooms_ok(),
            forall|i: int| 0 <= i < map.rooms@.len() ==> map.room_drawn(#[trigger] map.rooms@[i]),
            exists|candidates: Seq<Candidate>| #[trigger] map.generated_from(candidates),
            map.blocked_is_walls(),
            forall|i: int| 0 <= i < map.revealed@.len() ==> !#[trigger] map.revealed@[i],
            forall|i: int| 0 <= i < map.visible@.len() ==> !#[trigger] map.visible@[i],
            forall|i: int| 0 <= i < map.entities@.len() ==> (#[trigger] map.entities@[i])@.len() == 0,
    {
        let mut map = GameMap::empty(width, height);
        let ghost blank = map;
        let ghost mut turns: Seq<bool> = Seq::empty();
        let ghost mut candidates: Seq<Candidate> = Seq::empty();
        proof {
            map.lemma_width_small();
            map.lemma_height_small();
            assert forall|x: int, y: int| !#[trigger] map.is_floor(x, y) by {
                if map.in_bounds(x, y) {
                    map.tiles.lemma_idx_bounds(x, y);
                }
            }
        }
        let mut tried: i32 = 0;
        while tried < MAX_ROOMS
            invariant
                0 <= tried <= MAX_ROOMS,
                map.wf(),
                map.width == width,
                map.height == height,
                MIN_SIDE <= width <= i32::MAX,
                MIN_SIDE <= height <= i32::MAX,
                map.revealed == blank.revealed,
                map.visible == blank.visible,
                map.blocked == blank.blocked,
                map.entities == blank.entities,
                map.rooms@.len() <= tried,
                tried > 0 ==> map.rooms@.len() >= 1,
                map.rooms_ok(),
                forall|i: int| 0 <= i < map.rooms@.len() ==> map.room_drawn(#[trigger] map.rooms@[i]),
                turns.len() == map.rooms@.len(),
                forall|x: int, y: int| #[trigger]
                    map.is_floor(x, y) <==> map.in_bounds(x, y) && carved(map.rooms@, turns, x, y),
                candidates.len() == tried,
                forall|i: int| 0 <= i < candidates.len() ==> map.room_drawn((#[trigger] candidates[i]).0),
                map.rooms@ == accepted_rooms(candidates),
                turns == accepted_turns(candidates),
            decreases MAX_ROOMS - tried,
        {
            let w = rng::range(rng, MIN_SIZE, MAX_SIZE);
            let h = rng::range(rng, MIN_SIZE, MAX_SIZE);
            let x = rng::roll_die(rng, width as i32 - w - 1) - 1;
            let y = rng::roll_die(rng, height as i32 - h - 1) - 1;
            let room = Rect::with_size(x, y, w, h);
            let ghost drawn = candidates;
            if map.accepts(&room) {
                let horizontal_first = if map.rooms.len() > 0 {
                    rng::coin(rng)
                } else {
                    false
                };
                let ghost before = map;
                map.add_room(room, horizontal_first);
                proof {
                    candidates = drawn.push((room, horizontal_first));
                    assert(candidates.drop_last() == drawn);
                    assert forall|cx: int, cy: int| #[trigger]
                        map.is_floor(cx, cy) <==> map.in_bounds(cx, cy) && carved(
                            map.rooms@,
                            turns.push(horizontal_first),
                            cx,
                            cy,
                        ) by {
                        lemma_carved_push(before.rooms@, turns, room, horizontal_first, cx, cy);
                        assert(before.is_floor(cx, cy) <==> before.in_bounds(cx, cy) && carved(
                            before.rooms@,
                            turns,
                            cx,
                            cy,
                        ));
                    }
                    turns = turns.push(horizontal_first);
                }
            } else {
                proof {
                    candidates = drawn.push((room, false));
                    assert(candidates.drop_last() == drawn);
                }
            }
            tried += 1;
        }
        let ghost dug = map;
        map.block_walls();
        proof {
            dug.lemma_same_terrain(&map, turns);
            assert(map.generated_from(candidates));
        }
        map
    }

    /// Whether an entity can step onto `p`: the cell lies inside the map, is
    /// floor and is not blocked.
    pub fn is_passable(&self, p: Coord) -> (r: bool)
        requires
            self.wf(),
        ensures
            r == self.is_open(p.x as int, p.y as int),
    {
        match self.tiles.get(p.x, p.y) {
            Some(tile) => {
                match self.blocked.get(p.x, p.y) {
                    Some(blocked) => *tile == TileType::Floor && !*blocked,
                    None => false,
                }
            },
            None => false,
        }
    }

    /// The index of the cell at `pos`, which must lie inside the map.
    pub fn to_idx(&self, pos: Position) -> (idx: usize)
        requires
            self.wf(),
            self.in_bounds(pos.x as int, pos.y as int),
        ensures
            idx == self.tiles.spec_idx(pos.x as int, pos.y as int),
            idx < self.tiles@.len(),
    {
        self.tiles.to_idx(pos.x as i32, pos.y as i32)
    }

    /// The position of the cell stored at `idx`. Positions count in 16 bits,
    /// so both coordinates must fit.
    pub fn index_to_position(&self, idx: usize) -> (pos: Position)
        requires
            self.width > 0,
            idx % self.width <= u16::MAX,
            idx / self.width <= u16::MAX,
        ensures
            pos.x == idx % self.width,
            pos.y == idx / self.width,
    {
        Position { x: (idx % self.width) as u16, y: (idx / self.width) as u16 }
    }

    /// The Manhattan distance between the cells stored at two indices, or
    /// the largest index where the distance does not fit.
    pub fn get_pathing_distance(&self, idx1: usize, idx2: usize) -> (d: usize)
        requires
            self.width > 0,
        ensures
            d == vstd::math::min(
                crate::position::manhattan(
                    (idx1 % self.width) as int,
                    (idx1 / self.width) as int,
                    (idx2 % self.width) as int,
                    (idx2 / self.width) as int,
                ),
                usize::MAX as int,
            ),
    {
        let x1 = idx1 % self.width;
        let y1 = idx1 / self.width;
        let x2 = idx2 % self.width;
        let y2 = idx2 / self.width;
        let dx = if x1 >= x2 { x1 - x2 } else { x2 - x1 };
        let dy = if y1 >= y2 { y1 - y2 } else { y2 - y1 };
        if dx > usize::MAX - dy {
            usize::MAX
        } else {
            dx + dy
        }
    }

    /// Empties the entity list of every cell.
    pub fn clear_entities(&mut self)
        requires
            old(self).wf(),
        ensures
            final(self).wf(),
            final(self).width == old(self).width,
            final(self).height == old(self).height,
            final(self).tiles == old(self).tiles,
            final(self).revealed == old(self).revealed,
            final(self).visible == old(self).visible,
            final(self).blocked == old(self).blocked,
            final(self).rooms == old(self).rooms,
            forall|i: int| 0 <= i < final(self).entities@.len() ==> (#[trigger] final(self).entities@[i])@.len() == 0,
    {
        let n: usize = self.entities.storage.len();
        let mut i: usize = 0;
        while i < n
            invariant
                self.wf(),
                i <= n,
                n == self.entities@.len(),
                self.width == old(self).width,
                self.height == old(self).height,
                self.tiles == old(self).tiles,
                self.revealed == old(self).revealed,
                self.visible == old(self).visible,
                self.blocked == old(self).blocked,
                self.rooms == old(self).rooms,
                forall|k: int| 0 <= k < i ==> (#[trigger] self.entities@[k])@.len() == 0,
            decreases n - i,
        {
            self.entities.storage.set(i, Vec::new());
            i += 1;
        }
    }

    /// The index of `(x, y)` as a one-element list when the cell can be
    /// walked on, the empty list otherwise.
    pub open spec fn exit_at(&self, x: int, y: int) -> Seq<usize> {
        if self.is_open(x, y) {
            seq![self.tiles.spec_idx(x, y) as usize]
        } else {
            Seq::empty()
        }
    }

    /// The indices of the cells that can be entered from `(x, y)`: of the
    /// four neighbours, taken west, east, south, north, those that can be
    /// walked on.
    pub open spec fn exits(&self, x: int, y: int) -> Seq<usize> {
        self.exit_at(x - 1, y) + self.exit_at(x + 1, y) + self.exit_at(x, y + 1) + self.exit_at(x, y - 1)
    }

    /// Every exit is the index of a cell of the map.
    pub proof fn lemma_exits_inside(&self, x: int, y: int, j: int)
        requires
            self.wf(),
            0 <= j < (self.exits(x, y) + self.exit_at(x, y)).len(),
        ensures
            (self.exits(x, y) + self.exit_at(x, y))[j] < self.tiles@.len(),
    {
        if self.is_open(x - 1, y) {
            self.tiles.lemma_idx_bounds(x - 1, y);
        }
        if self.is_open(x + 1, y) {
            self.tiles.lemma_idx_bounds(x + 1, y);
        }
        if self.is_open(x, y + 1) {
            self.tiles.lemma_idx_bounds(x, y + 1);
        }
        if self.is_open(x, y - 1) {
            self.tiles.lemma_idx_bounds(x, y - 1);
        }
        if self.is_open(x, y) {
            self.tiles.lemma_idx_bounds(x, y);
        }
    }

    /// Appends the index of `p` to `out` when the cell can be walked on.
    fn push_exit(&self, out: &mut Vec<usize>, p: Coord)
        requires
            self.wf(),
        ensures
            final(out)@ == old(out)@ + self.exit_at(p.x as int, p.y as int),
    {
        if self.is_passable(p) {
            let idx = self.tiles.to_idx(p.x, p.y);
            out.push(idx);
        }
    }

    /// The cells that can be entered in one step from the cell stored at
    /// `idx`, as indices, in the fixed order west, east, south, north.
    pub fn get_available_exits(&self, idx: usize) -> (out: Vec<usize>)
        requires
            self.wf(),
            idx < self.tiles@.len(),
        ensures
            out@ == self.exits((idx % self.width) as int, (idx / self.width) as int),
    {
        proof {
            self.tiles.lemma_idx_onto(idx as int);
        }
        let x: i32 = (idx % self.width) as i32;
        let y: i32 = (idx / self.width) as i32;
        let mut out: Vec<usize> = Vec::new();
        self.push_exit(&mut out, Coord { x: x - 1, y });
        self.push_exit(&mut out, Coord { x: x + 1, y });
        self.push_exit(&mut out, Coord { x, y: y + 1 });
        self.push_exit(&mut out, Coord { x, y: y - 1 });
        out
    }

    /// Every visible cell is a revealed cell.
    pub open spec fn seen_is_known(&self) -> bool {
        forall|x: int, y: int| self.in_bounds(x, y) && #[trigger] self.visible.cell(x, y) ==> self.revealed.cell(x, y)
    }

    /// Every cell revealed in `earlier` is revealed in this map.
    pub open spec fn knows_all_of(&self, earlier: &Self) -> bool {
        forall|x: int, y: int|
            self.in_bounds(x, y) && earlier.revealed.cell(x, y) ==> #[trigger] self.revealed.cell(x, y)
    }

    /// Whether `cells` holds the position `(x, y)`.
    pub open spec fn listed(cells: Seq<Position>, x: int, y: int) -> bool {
        exists|k: int| 0 <= k < cells.len() && (#[trigger] cells[k]).x == x && cells[k].y == y
    }

    /// Makes `cells` the cells in view: the visible grid is cleared and then
    /// set for each listed cell of the map, and each such cell is revealed.
    /// A cell once revealed stays revealed.
    pub fn mark_visible(&mut self, cells: &Vec<Position>)
        requires
            old(self).wf(),
        ensures
            final(self).wf(),
            final(self).width == old(self).width,
            final(self).height == old(self).height,
            final(self).tiles == old(self).tiles,
            final(self).blocked == old(self).blocked,
            final(self).entities == old(self).entities,
            final(self).rooms == old(self).rooms,
            forall|x: int, y: int|
                old(self).in_bounds(x, y) ==> #[trigger] final(self).visible.cell(x, y) == Self::listed(
                    cells@,
                    x,
                    y,
                ),
            forall|x: int, y: int|
                old(self).in_bounds(x, y) ==> #[trigger] final(self).revealed.cell(x, y) == (old(
                    self,
                ).revealed.cell(x, y) || Self::listed(cells@, x, y)),
            final(self).seen_is_known(),
    {
        self.visible.fill(false);
        proof {
            assert forall|x: int, y: int| self.in_bounds(x, y) implies !#[trigger] self.visible.cell(x, y) by {
                self.visible.lemma_idx_bounds(x, y);
            }
        }
        let mut i: usize = 0;
        while i < cells.len()
            invariant
                i <= cells@.len(),
                self.wf(),
                self.width == old(self).width,
                self.height == old(self).height,
                self.tiles == old(self).tiles,
                self.blocked == old(self).blocked,
                self.entities == old(self).entities,
                self.rooms == old(self).rooms,
                forall|x: int, y: int|
                    self.in_bounds(x, y) ==> #[trigger] self.visible.cell(x, y) == Self::listed(
                        cells@.subrange(0, i as int),
                        x,
                        y,
                    ),
                forall|x: int, y: int|
                    self.in_bounds(x, y) ==> #[trigger] self.revealed.cell(x, y) == (old(self).revealed.cell(
                        x,
                        y,
                    ) || Self::listed(cells@.subrange(0, i as int), x, y)),
            decreases cells@.len() - i,
        {
            let p = cells[i];
            let ghost before = *self;
            let ghost done = cells@.subrange(0, i as int);
            let ghost next = cells@.subrange(0, i + 1);
            self.revealed.set(p.x as i32, p.y as i32, true);
            self.visible.set(p.x as i32, p.y as i32, true);
            proof {
                assert forall|x: int, y: int| Self::listed(next, x, y) <==> (Self::listed(done, x, y) || (p.x
                    == x && p.y == y)) by {
                    if Self::listed(next, x, y) {
                        let k = choose|k: int|
                            0 <= k < next.len() && (#[trigger] next[k]).x == x && next[k].y == y;
                    }
                    if Self::listed(done, x, y) {
                        let k = choose|k: int|
                            0 <= k < done.len() && (#[trigger] done[k]).x == x && done[k].y == y;
                    }
                    if p.x == x && p.y == y {
                        assert(next[next.len() - 1].x == x && next[next.len() - 1].y == y);
                    }
                }
                assert forall|x: int, y: int| self.in_bounds(x, y) implies #[trigger] self.revealed.cell(x, y)
                    == (old(self).revealed.cell(x, y) || Self::listed(next, x, y)) by {
                    assert(before.revealed.cell(x, y) == (old(self).revealed.cell(x, y) || Self::listed(
                        done,
                        x,
                        y,
                    )));
                }
            }
            i += 1;
        }
        proof {
            assert(cells@.subrange(0, cells@.len() as int) == cells@);
        }
    }
}

} // verus!
