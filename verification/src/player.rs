//! The player's input: a step to a neighbouring cell, or an attack on what
//! stands there.

use vstd::prelude::*;
use hecs::World;
use crate::combat::{CombatStats, WantsToMelee};
use crate::map::GameMap;
use crate::position::{Coord, Position, shifted};
use crate::state::{State, player_at, same_but_world_and_map};
use crate::visibility::{ViewShed, ViewShedModel};
use crate::world::{Entity, Player, Record, attach, contents, fetch};

verus! {

/// What the user asks for: a move of one cell, the cost overlay, or nothing.
#[derive(Debug, Clone, Copy, PartialEq, Eq, Structural)]
pub enum Input {
    West,
    South,
    North,
    East,
    ShowCosts,
    Nothing,
}

/// What the player's input led to.
#[derive(Debug, Clone, Copy, PartialEq, Eq, Structural)]
pub enum PlayerMove {
    Move,
    Attack(Entity),
    Nothing,
}

/// The direction that an input moves the player in.
pub open spec fn direction(input: Input) -> Option<(i8, i8)> {
    match input {
        Input::West => Some((-1i8, 0i8)),
        Input::South => Some((0i8, 1i8)),
        Input::North => Some((0i8, -1i8)),
        Input::East => Some((1i8, 0i8)),
        _ => None,
    }
}

/// The last entity of `list` that is alive and has combat figures.
pub open spec fn last_fighter(c: Map<Entity, Record>, list: Seq<Entity>) -> Option<Entity>
    decreases list.len(),
{
    if list.len() == 0 {
        None
    } else if c.contains_key(list.last()) && c[list.last()].stats.is_some() {
        Some(list.last())
    } else {
        last_fighter(c, list.drop_last())
    }
}

/// The entity that the player attacks by moving onto `to`: the last fighter
/// listed on that cell, if the cell lies inside the map.
pub open spec fn target_at(c: Map<Entity, Record>, map: GameMap, to: Position) -> Option<Entity> {
    if map.in_bounds(to.x as int, to.y as int) {
        last_fighter(c, map.entities.cell(to.x as int, to.y as int)@)
    } else {
        None
    }
}

/// The player can act on input: it is alive, marked as the player, and has a
/// position and a view.
pub open spec fn can_move(st: State) -> bool {
    &&& st.player.is_some()
    &&& contents(st.world).contains_key(st.player.unwrap())
    &&& contents(st.world)[st.player.unwrap()].player
    &&& contents(st.world)[st.player.unwrap()].position.is_some()
    &&& contents(st.world)[st.player.unwrap()].viewshed.is_some()
}

/// The cell next to the player in the direction `(dx, dy)`.
pub open spec fn destination(st: State, dx: i8, dy: i8) -> Position {
    Position { x: shifted(player_at(st).x, dx as i32), y: shifted(player_at(st).y, dy as i32) }
}

/// The player steps: the destination can be walked on.
pub open spec fn steps(st: State, dx: i8, dy: i8) -> bool {
    st.map.is_open(destination(st, dx, dy).x as int, destination(st, dx, dy).y as int)
}

/// The player after its move: on the destination and bound to look again if
/// it steps, wanting to attack if there is a target.
pub open spec fn moved_player(st: State, dx: i8, dy: i8) -> Record {
    let me = contents(st.world)[st.player.unwrap()];
    let stepped = if steps(st, dx, dy) {
        Record {
            position: Some(destination(st, dx, dy)),
            viewshed: Some(ViewShedModel { dirty: true, ..me.viewshed.unwrap() }),
            ..me
        }
    } else {
        me
    };
    match target_at(contents(st.world), st.map, destination(st, dx, dy)) {
        Some(target) => Record { intent: Some(WantsToMelee { target }), ..stepped },
        None => stepped,
    }
}

/// `after` is `before` with the player's move in the direction `(dx, dy)`
/// carried out. If a fighter is listed on the destination, the player wants
/// to attack it. If the destination can be walked on, the player steps
/// there, has to look again, and the cell it left is no longer blocked.
/// A player that cannot act changes nothing.
pub open spec fn move_done(before: State, after: State, dx: i8, dy: i8) -> bool {
    &&& same_but_world_and_map(before, after)
    &&& same_but_blocked(before.map, after.map)
    &&& if can_move(before) {
        &&& contents(after.world) == contents(before.world).insert(
            before.player.unwrap(),
            moved_player(before, dx, dy),
        )
        &&& forall|x: int, y: int|
            before.map.in_bounds(x, y) ==> #[trigger] after.map.blocked.cell(x, y) == (before.map.blocked.cell(
                x,
                y,
            ) && !(steps(before, dx, dy) && x == player_at(before).x && y == player_at(before).y))
    } else {
        &&& contents(after.world) == contents(before.world)
        &&& after.map == before.map
    }
}

/// Whether the move in the direction `(dx, dy)` does anything: the player
/// steps or finds a target.
pub open spec fn move_counts(st: State, dx: i8, dy: i8) -> bool {
    can_move(st) && (steps(st, dx, dy) || target_at(contents(st.world), st.map, destination(st, dx, dy)).is_some())
}

/// Everything but the blocked grid is the same in both maps.
pub open spec fn same_but_blocked(a: GameMap, b: GameMap) -> bool {
    &&& a.width == b.width
    &&& a.height == b.height
    &&& a.tiles == b.tiles
    &&& a.revealed == b.revealed
    &&& a.visible == b.visible
    &&& a.entities == b.entities
    &&& a.rooms == b.rooms
}

/// The last entity of `list` that is alive and has combat figures.
fn find_fighter(world: &mut World, list: &Vec<Entity>) -> (r: Option<Entity>)
    ensures
        *final(world) == *old(world),
        r == last_fighter(contents(*old(world)), list@),
{
    let mut found: Option<Entity> = None;
    let mut i: usize = 0;
    while i < list.len()
        invariant
            i <= list@.len(),
            *world == *old(world),
            found == last_fighter(contents(*world), list@.subrange(0, i as int)),
        decreases list@.len() - i,
    {
        proof {
            assert(list@.subrange(0, i + 1).drop_last() == list@.subrange(0, i as int));
        }
        if fetch::<CombatStats>(world, list[i]).is_some() {
            found = Some(list[i]);
        }
        i += 1;
    }
    proof {
        assert(list@.subrange(0, list@.len() as int) == list@);
    }
    found
}

impl State {
    /// Tries to move the player by `(dx, dy)` and tells whether anything
    /// came of it.
    pub fn try_move_player(&mut self, dx: i8, dy: i8) -> (moved: bool)
        requires
            old(self).map.wf(),
        ensures
            final(self).map.wf(),
            move_done(*old(self), *final(self), dx, dy),
            moved == move_counts(*old(self), dx, dy),
    {
        let me = match self.player {
            Some(p) => p,
            None => {
                return false;
            },
        };
        let marked = fetch::<Player>(&mut self.world, me).is_some();
        let pos = fetch::<Position>(&mut self.world, me);
        let fov = fetch::<ViewShed>(&mut self.world, me);
        let ghost c = contents(self.world);
        match (pos, fov) {
            (Some(pos), Some(fov)) => {
                if !marked {
                    return false;
                }
                let to = pos.add(Coord { x: dx as i32, y: dy as i32 });
                let target = match self.map.entities.get(to.x as i32, to.y as i32) {
                    Some(list) => find_fighter(&mut self.world, list),
                    None => None,
                };
                let mut moved = target.is_some();
                if self.map.is_passable(to.to_point()) {
                    self.map.blocked.set(pos.x as i32, pos.y as i32, false);
                    attach::<Position>(&mut self.world, me, to);
                    let turned = ViewShed { visible_tiles: fov.visible_tiles, range: fov.range, dirty: true };
                    attach::<ViewShed>(&mut self.world, me, turned);
                    moved = true;
                }
                match target {
                    Some(target) => {
                        attach::<WantsToMelee>(&mut self.world, me, WantsToMelee { target });
                    },
                    None => {},
                }
                proof {
                    assert(contents(self.world) =~= c.insert(me, moved_player(*old(self), dx, dy)));
                }
                moved
            },
            _ => false,
        }
    }
}

/// `after` is `before` with the input handled: a direction moves the
/// player, anything else changes nothing.
pub open spec fn input_done(before: State, after: State, input: Input) -> bool {
    match direction(input) {
        Some(d) => move_done(before, after, d.0, d.1),
        None => after == before,
    }
}

/// Whether the input starts a turn: it is a direction, and the move does
/// something.
pub open spec fn input_counts(st: State, input: Input) -> bool {
    match direction(input) {
        Some(d) => move_counts(st, d.0, d.1),
        None => false,
    }
}

impl State {
    /// Handles one input: a direction moves the player, anything else does
    /// nothing. Tells whether a turn begins.
    pub fn player_input(&mut self, input: Input) -> (accepted: bool)
        requires
            old(self).map.wf(),
        ensures
            final(self).map.wf(),
            input_done(*old(self), *final(self), input),
            accepted == input_counts(*old(self), input),
    {
        match input {
            Input::West => self.try_move_player(-1, 0),
            Input::South => self.try_move_player(0, 1),
            Input::North => self.try_move_player(0, -1),
            Input::East => self.try_move_player(1, 0),
            _ => false,
        }
    }
}

} // verus!
