//! Creation of the player and of monsters.

use vstd::prelude::*;
use bracket_lib::random::RandomNumberGenerator;
use hecs::World;
use crate::combat::{CombatStats, Percentage};
use crate::monster::Monster;
use crate::position::Position;
use crate::rect::Rect;
use crate::rng;
use crate::visibility::{ViewShed, ViewShedModel};
use crate::world::{BlocksTile, Entity, Name, Player, Record, attach, contents, spawn_blank};

verus! {

/// How far the player and the monsters see.
pub const SIGHT: u16 = 6;

/// The view of a newly made entity: nothing seen yet, has to look.
pub open spec fn fresh_view() -> ViewShedModel {
    ViewShedModel { visible: Seq::empty(), range: SIGHT, dirty: true }
}

/// What the player starts with.
pub open spec fn player_stats() -> CombatStats {
    CombatStats { max_hp: 100, hp: 100, accuracy: Percentage(700_000), defense: Percentage(200_000), power: 5 }
}

/// What a monster starts with.
pub open spec fn monster_stats() -> CombatStats {
    CombatStats { max_hp: 16, hp: 16, accuracy: Percentage(500_000), defense: Percentage(100_000), power: 4 }
}

/// The player as it is created at `position`. The player does not block its
/// cell.
pub open spec fn player_record(position: Position) -> Record {
    Record {
        position: Some(position),
        stats: Some(player_stats()),
        viewshed: Some(fresh_view()),
        intent: None,
        damage: None,
        name: Some("Player"@),
        player: true,
        monster: false,
        blocks: false,
    }
}

/// A monster as it is created at `position`, an orc or a goblin.
pub open spec fn monster_record(position: Position, orc: bool) -> Record {
    Record {
        position: Some(position),
        stats: Some(monster_stats()),
        viewshed: Some(fresh_view()),
        intent: None,
        damage: None,
        name: Some(
            if orc {
                "Orc"@
            } else {
                "Goblin"@
            },
        ),
        player: false,
        monster: true,
        blocks: true,
    }
}

/// Creates the player at `position` and returns its identifier.
pub fn player(world: &mut World, _rng: &mut RandomNumberGenerator, position: Position) -> (id: Entity)
    ensures
        !contents(*old(world)).contains_key(id),
        contents(*final(world)) == contents(*old(world)).insert(id, player_record(position)),
        *final(_rng) == *old(_rng),
{
    let id = spawn_blank(world);
    attach::<Player>(world, id, Player);
    attach::<Position>(world, id, position);
    attach::<Name>(world, id, Name::new("Player".to_owned()));
    attach::<CombatStats>(
        world,
        id,
        CombatStats {
            max_hp: 100,
            hp: 100,
            accuracy: Percentage::new(700_000),
            defense: Percentage::new(200_000),
            power: 5,
        },
    );
    attach::<ViewShed>(world, id, ViewShed::new(SIGHT));
    id
}

/// The kind that a roll of the three-sided die decides: a one makes an orc,
/// anything else a goblin.
pub open spec fn is_orc(roll: int) -> bool {
    roll == 1
}

/// A roll of the three-sided die.
pub open spec fn is_roll_of_three(roll: int) -> bool {
    1 <= roll <= 3
}

/// Creates a monster at `position` and returns its identifier. One roll of a
/// three-sided die decides its kind, as `monster_of_roll` says.
pub fn monster(world: &mut World, rng: &mut RandomNumberGenerator, position: Position) -> (id: Entity)
    ensures
        exists|roll: int| #[trigger]
            is_roll_of_three(roll) && monster_added(
                contents(*old(world)),
                contents(*final(world)),
                id,
                position,
                is_orc(roll),
            ),
{
    let roll = rng::roll_die(rng, 3);
    let id = monster_of_roll(world, position, roll);
    proof {
        assert(is_roll_of_three(roll as int));
    }
    id
}

/// Creates the monster that `roll` decides at `position` and returns its
/// identifier: an orc for a one, a goblin for anything else.
pub fn monster_of_roll(world: &mut World, position: Position, roll: i32) -> (id: Entity)
    ensures
        monster_added(contents(*old(world)), contents(*final(world)), id, position, is_orc(roll as int)),
{
    let orc = roll == 1;
    let name = if orc {
        Name::new("Orc".to_owned())
    } else {
        Name::new("Goblin".to_owned())
    };
    let id = spawn_blank(world);
    attach::<Monster>(world, id, Monster);
    attach::<Position>(world, id, position);
    attach::<Name>(world, id, name);
    attach::<CombatStats>(
        world,
        id,
        CombatStats {
            max_hp: 16,
            hp: 16,
            accuracy: Percentage::new(500_000),
            defense: Percentage::new(100_000),
            power: 4,
        },
    );
    attach::<ViewShed>(world, id, ViewShed::new(SIGHT));
    attach::<BlocksTile>(world, id, BlocksTile);
    proof {
        assert(contents(*world) =~= contents(*old(world)).insert(id, monster_record(position, orc)));
        assert(monster_added(contents(*old(world)), contents(*world), id, position, orc));
    }
    id
}

/// `after` is `before` with one more entity, `id`: a monster at `at`,
/// an orc or a goblin.
pub open spec fn monster_added(
    before: Map<Entity, Record>,
    after: Map<Entity, Record>,
    id: Entity,
    at: Position,
    orc: bool,
) -> bool {
    !before.contains_key(id) && after == before.insert(id, monster_record(at, orc))
}

/// The room has an interior, and the interior's coordinates are positions.
pub open spec fn can_hold_monster(room: Rect) -> bool {
    &&& 0 <= room.x1 && room.x1 + 1 < room.x2 <= u16::MAX + 1
    &&& 0 <= room.y1 && room.y1 + 1 < room.y2 <= u16::MAX + 1
}

/// Puts one monster on a cell drawn from the interior of `room`: the cells
/// that are neither on the room's edge nor outside it.
pub fn fill_room(world: &mut World, rng: &mut RandomNumberGenerator, room: Rect)
    requires
        can_hold_monster(room),
    ensures
        exists|id: Entity, at: Position, roll: int| #[trigger]
            filled(contents(*old(world)), contents(*final(world)), room, id, at, roll),
{
    let x = rng::range(rng, room.x1 + 1, room.x2);
    let y = rng::range(rng, room.y1 + 1, room.y2);
    let at = Position::new(x, y);
    let ghost before = contents(*world);
    let id = monster(world, rng, at);
    proof {
        let roll = choose|roll: int| #[trigger]
            is_roll_of_three(roll) && monster_added(before, contents(*world), id, at, is_orc(roll));
        assert(filled(before, contents(*world), room, id, at, roll));
    }
}

/// `after` is `before` with one more entity, `id`: the monster that the roll
/// `roll` of the three-sided die decides, standing at `at` in the interior of
/// `room`.
pub open spec fn filled(
    before: Map<Entity, Record>,
    after: Map<Entity, Record>,
    room: Rect,
    id: Entity,
    at: Position,
    roll: int,
) -> bool {
    &&& room.x1 < at.x < room.x2
    &&& room.y1 < at.y < room.y2
    &&& is_roll_of_three(roll)
    &&& monster_added(before, after, id, at, is_orc(roll))
}

} // verus!
