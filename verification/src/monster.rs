//! The monster policy: a monster that sees the player walks down the cost
//! field toward it, and attacks once the next step would be the player's
//! cell.

use vstd::prelude::*;
use crate::lists::lemma_prefix_step;
use bracket_lib::random::RandomNumberGenerator;
use hecs::World;
use crate::combat::{WantsToMelee, same_but_world};
use crate::map::GameMap;
use crate::pathing::{CostField, lowest_exit};
use crate::position::Position;
use crate::state::{State, player_placed};
use crate::visibility::{ViewShed, ViewShedModel};
use crate::world::{Entity, Record, ascending, attach, contents, fetch, sorted_entities};

verus! {

/// Marks an entity driven by the monster policy.
#[derive(Debug, Clone, Copy)]
pub struct Monster;

/// What a monster does on its turn.
#[derive(Debug, Clone, Copy, PartialEq, Eq, Structural)]
pub enum Decision {
    /// Nothing.
    Idle,
    /// It attacks the player.
    Attack,
    /// It steps to the given cell.
    Step(Position),
}

/// The index of the player's cell, if the player stands inside the map.
pub open spec fn cell_index(map: GameMap, at: Position) -> Option<usize> {
    if map.in_bounds(at.x as int, at.y as int) {
        Some(map.tiles.spec_idx(at.x as int, at.y as int) as usize)
    } else {
        None
    }
}

/// The decision of a monster at `from`. A monster that does not see the
/// player, stands outside the map or has nowhere to go does nothing.
/// Otherwise it takes the lowest exit of its cell in the cost field: if that
/// is the player's cell it attacks, else it steps there. An exit whose
/// coordinates are no position leaves it where it is.
pub open spec fn decision(
    dm: CostField,
    map: GameMap,
    from: Position,
    sees_player: bool,
    player_at: Position,
) -> Decision {
    if !sees_player || !map.in_bounds(from.x as int, from.y as int) {
        Decision::Idle
    } else {
        match lowest_exit(dm.costs@, CostField::candidates(map, from.x as int, from.y as int)) {
            None => Decision::Idle,
            Some(exit) => {
                if cell_index(map, player_at) == Some(exit) {
                    Decision::Attack
                } else if exit % map.width <= u16::MAX && exit / map.width <= u16::MAX {
                    Decision::Step(Position { x: (exit % map.width) as u16, y: (exit / map.width) as u16 })
                } else {
                    Decision::Idle
                }
            },
        }
    }
}

/// Decides what a monster at `from` does.
pub fn decide(dm: &CostField, map: &GameMap, from: Position, sees_player: bool, player_at: Position) -> (d: Decision)
    requires
        map.wf(),
        dm.costs.wf(),
        dm.costs.width == map.width,
        dm.costs.height == map.height,
    ensures
        d == decision(*dm, *map, from, sees_player, player_at),
{
    if !sees_player || from.x as usize >= map.width || from.y as usize >= map.height {
        return Decision::Idle;
    }
    let here = map.to_idx(from);
    proof {
        map.tiles.lemma_idx_bounds(from.x as int, from.y as int);
    }
    match dm.find_lowest_exit(here, map) {
        None => Decision::Idle,
        Some(exit) => {
            let player_cell = if (player_at.x as usize) < map.width && (player_at.y as usize) < map.height {
                Some(map.to_idx(player_at))
            } else {
                None
            };
            if player_cell == Some(exit) {
                Decision::Attack
            } else if exit % map.width <= 65535 && exit / map.width <= 65535 {
                Decision::Step(map.index_to_position(exit))
            } else {
                Decision::Idle
            }
        },
    }
}

/// The entity takes part in the monsters' turn: it is a monster with a
/// position and a view.
pub open spec fn is_actor(r: Record) -> bool {
    r.monster && r.position.is_some() && r.viewshed.is_some()
}

/// What the entity `r` decides, given where the player stands.
pub open spec fn decision_of(dm: CostField, map: GameMap, r: Record, player_at: Position) -> Decision {
    if is_actor(r) {
        decision(dm, map, r.position.unwrap(), r.viewshed.unwrap().visible.contains(player_at), player_at)
    } else {
        Decision::Idle
    }
}

/// The entity after it has carried out its decision: an attacker wants to
/// attack the player; a monster that steps stands on the new cell and has to
/// look again.
pub open spec fn acted(r: Record, d: Decision, player: Entity) -> Record {
    match d {
        Decision::Idle => r,
        Decision::Attack => Record { intent: Some(WantsToMelee { target: player }), ..r },
        Decision::Step(to) => Record {
            position: Some(to),
            viewshed: Some(ViewShedModel { dirty: true, ..r.viewshed.unwrap() }),
            ..r
        },
    }
}

/// The world's contents after every monster has acted.
pub open spec fn monsters_moved(
    c: Map<Entity, Record>,
    dm: CostField,
    map: GameMap,
    player: Entity,
) -> Map<Entity, Record> {
    let player_at = c[player].position.unwrap();
    Map::new(|e: Entity| c.contains_key(e), |e: Entity| acted(c[e], decision_of(dm, map, c[e], player_at), player))
}

/// A monster that sees the player and whose lowest exit is the player's cell
/// gets the wish to attack the player. It stays where it is, and its view is
/// left as it was.
pub proof fn lemma_monster_attacks(c: Map<Entity, Record>, dm: CostField, map: GameMap, player: Entity, m: Entity)
    requires
        c.contains_key(m),
        is_actor(c[m]),
        c[player].position.is_some(),
        map.in_bounds(c[m].position.unwrap().x as int, c[m].position.unwrap().y as int),
        c[m].viewshed.unwrap().visible.contains(c[player].position.unwrap()),
        cell_index(map, c[player].position.unwrap()).is_some(),
        lowest_exit(
            dm.costs@,
            CostField::candidates(map, c[m].position.unwrap().x as int, c[m].position.unwrap().y as int),
        ) == cell_index(map, c[player].position.unwrap()),
    ensures
        monsters_moved(c, dm, map, player).contains_key(m),
        monsters_moved(c, dm, map, player)[m] == (Record {
            intent: Some(WantsToMelee { target: player }),
            ..c[m]
        }),
{
}

/// A monster that sees the player and whose lowest exit is another cell than
/// the player's steps to that exit and has to look again. It gets no wish to
/// attack.
pub proof fn lemma_monster_steps(
    c: Map<Entity, Record>,
    dm: CostField,
    map: GameMap,
    player: Entity,
    m: Entity,
    exit: usize,
)
    requires
        c.contains_key(m),
        is_actor(c[m]),
        c[player].position.is_some(),
        map.in_bounds(c[m].position.unwrap().x as int, c[m].position.unwrap().y as int),
        c[m].viewshed.unwrap().visible.contains(c[player].position.unwrap()),
        lowest_exit(
            dm.costs@,
            CostField::candidates(map, c[m].position.unwrap().x as int, c[m].position.unwrap().y as int),
        ) == Some(exit),
        cell_index(map, c[player].position.unwrap()) != Some(exit),
        exit % map.width <= u16::MAX,
        exit / map.width <= u16::MAX,
    ensures
        monsters_moved(c, dm, map, player).contains_key(m),
        monsters_moved(c, dm, map, player)[m].position == Some(
            Position { x: (exit % map.width) as u16, y: (exit / map.width) as u16 },
        ),
        monsters_moved(c, dm, map, player)[m].viewshed.unwrap().dirty,
        monsters_moved(c, dm, map, player)[m].viewshed.unwrap().visible == c[m].viewshed.unwrap().visible,
        monsters_moved(c, dm, map, player)[m].intent == c[m].intent,
{
}

/// The monsters' turn. Each monster decides by itself, from the cost field
/// and the occupancy as they stand at the start of the turn, and carries its
/// decision out. Monsters that do not see the player do nothing.
pub fn apply_ai(gs: &mut State)
    requires
        old(gs).map.wf(),
        old(gs).dm.costs.wf(),
        old(gs).dm.costs.width == old(gs).map.width,
        old(gs).dm.costs.height == old(gs).map.height,
        player_placed(*old(gs)),
    ensures
        same_but_world(*old(gs), *final(gs)),
        contents(final(gs).world) == monsters_moved(
            contents(old(gs).world),
            old(gs).dm,
            old(gs).map,
            old(gs).player.unwrap(),
        ),
{
    let player = match gs.player {
        Some(p) => p,
        None => {
            return ;
        },
    };
    let player_at = match fetch::<Position>(&mut gs.world, player) {
        Some(p) => p,
        None => {
            return ;
        },
    };
    let ids = sorted_entities(&mut gs.world);
    let ghost c = contents(gs.world);
    let mut i: usize = 0;
    while i < ids.len()
        invariant
            i <= ids@.len(),
            c == contents(old(gs).world),
            player == old(gs).player.unwrap(),
            c.contains_key(player),
            c[player].position == Some(player_at),
            same_but_world(*old(gs), *gs),
            gs.map.wf(),
            gs.dm.costs.wf(),
            gs.dm.costs.width == gs.map.width,
            gs.dm.costs.height == gs.map.height,
            ascending(ids@),
            forall|id: Entity| ids@.contains(id) <==> c.contains_key(id),
            contents(gs.world).dom() == c.dom(),
            forall|e: Entity| #[trigger]
                c.contains_key(e) ==> contents(gs.world)[e] == (if ids@.subrange(0, i as int).contains(e) {
                    acted(c[e], decision_of(gs.dm, gs.map, c[e], player_at), player)
                } else {
                    c[e]
                }),
        decreases ids@.len() - i,
    {
        let e = ids[i];
        proof {
            lemma_prefix_step(ids@, i as int);
        }
        let is_monster = fetch::<Monster>(&mut gs.world, e).is_some();
        let pos = fetch::<Position>(&mut gs.world, e);
        let fov = fetch::<ViewShed>(&mut gs.world, e);
        match (pos, fov) {
            (Some(pos), Some(fov)) => {
                if is_monster {
                    let sees_player = fov.sees(player_at);
                    match decide(&gs.dm, &gs.map, pos, sees_player, player_at) {
                        Decision::Idle => {},
                        Decision::Attack => {
                            attach::<WantsToMelee>(&mut gs.world, e, WantsToMelee { target: player });
                        },
                        Decision::Step(to) => {
                            attach::<Position>(&mut gs.world, e, to);
                            let moved = ViewShed {
                                visible_tiles: fov.visible_tiles,
                                range: fov.range,
                                dirty: true,
                            };
                            attach::<ViewShed>(&mut gs.world, e, moved);
                        },
                    }
                }
            },
            _ => {},
        }
        i += 1;
    }
    proof {
        assert(ids@.subrange(0, ids@.len() as int) == ids@);
    }
}

/// Creates a monster at `(x, y)`, which must be a position.
pub fn spawn(world: &mut World, x: i32, y: i32, rng: &mut RandomNumberGenerator) -> (id: Entity)
    requires
        0 <= x <= u16::MAX,
        0 <= y <= u16::MAX,
    ensures
        exists|roll: int| #[trigger]
            crate::spawn::is_roll_of_three(roll) && crate::spawn::monster_added(
                contents(*old(world)),
                contents(*final(world)),
                id,
                Position { x: x as u16, y: y as u16 },
                crate::spawn::is_orc(roll),
            ),
{
    crate::spawn::monster(world, rng, Position::new(x, y))
}

} // verus!
