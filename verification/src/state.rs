//! The simulation context: everything a turn reads and writes, and what the
//! simulation reports to the outside.

use vstd::prelude::*;
use std::collections::VecDeque;
use bracket_lib::random::RandomNumberGenerator;
use hecs::World;
use crate::map::GameMap;
use crate::pathing::{CostField, UNREACHED};
use crate::position::Position;
use crate::world::{Entity, Name, component, contents, fetch, new_world, no_entities};

verus! {

/// The width of the console and of the map, in cells.
pub const CONSOLE_WIDTH: i32 = 60;

/// The height of the console, in cells.
pub const CONSOLE_HEIGHT: i32 = 42;

/// The height of the message panel below the map, in cells.
pub const UI_HEIGHT: i32 = 10;

/// The stage of a turn.
#[derive(Debug, Clone, Copy, PartialEq, Eq, Structural)]
pub enum Phase {
    Startup,
    AwaitingInput,
    PlayerTurn,
    MonsterTurn,
    Rendering,
}

impl Default for Phase {
    /// A simulation begins with the startup phase.
    fn default() -> (p: Self)
        ensures
            p == Phase::Startup,
    {
        Phase::Startup
    }
}

/// Something to show for a moment before the next full redraw.
#[derive(Debug, Clone, Copy, PartialEq, Eq, Structural)]
pub enum Animation {
    /// A blow landed on the cell `pos` for `dmg` points.
    MeleeDmg { pos: Position, dmg: i32 },
    /// A blow aimed at the cell `pos` went wide.
    Miss { pos: Position },
}

impl Animation {
    /// The frame for a blow struck from `_from` that landed on `at`.
    pub fn melee(_from: Position, at: Position, dmg: i32) -> (a: Animation)
        ensures
            a == (Animation::MeleeDmg { pos: at, dmg }),
    {
        Animation::MeleeDmg { pos: at, dmg }
    }

    /// The frame for a blow struck from `_from` that missed `at`.
    pub fn miss(_from: Position, at: Position) -> (a: Animation)
        ensures
            a == (Animation::Miss { pos: at }),
    {
        Animation::Miss { pos: at }
    }
}

/// An entry of the message log.
#[derive(Debug, Clone)]
pub enum Message {
    Welcome,
    Hit { attacker: Name, target: Name, damage: i32, blocked: i32 },
    Miss { attacker: Name, target: Name },
    Died { name: Name },
    GameOver { name: Name },
}

/// The mathematical value of a `Message`.
pub enum MessageModel {
    Welcome,
    Hit { attacker: Seq<char>, target: Seq<char>, damage: i32, blocked: i32 },
    Miss { attacker: Seq<char>, target: Seq<char> },
    Died { name: Seq<char> },
    GameOver { name: Seq<char> },
}

impl View for Message {
    type V = MessageModel;

    open spec fn view(&self) -> MessageModel {
        match *self {
            Message::Welcome => MessageModel::Welcome,
            Message::Hit { attacker, target, damage, blocked } => MessageModel::Hit {
                attacker: attacker.0@,
                target: target.0@,
                damage,
                blocked,
            },
            Message::Miss { attacker, target } => MessageModel::Miss {
                attacker: attacker.0@,
                target: target.0@,
            },
            Message::Died { name } => MessageModel::Died { name: name.0@ },
            Message::GameOver { name } => MessageModel::GameOver { name: name.0@ },
        }
    }
}

/// The values of the entries of a log.
pub open spec fn log_view(log: Seq<Message>) -> Seq<MessageModel> {
    log.map_values(|m: Message| m@)
}

/// Everything a turn reads and writes.
pub struct State {
    pub world: World,
    pub map: GameMap,
    pub rng: RandomNumberGenerator,
    pub dm: CostField,
    pub phase: Phase,
    pub player: Option<Entity>,
    pub msg_log: Vec<Message>,
    pub animation_queue: VecDeque<Animation>,
    pub current_animation: Option<Animation>,
    pub counter: u64,
}

/// Terrain, occupancy, rooms and shape are the same in both maps.
pub open spec fn same_terrain(a: GameMap, b: GameMap) -> bool {
    &&& a.width == b.width
    &&& a.height == b.height
    &&& a.tiles == b.tiles
    &&& a.blocked == b.blocked
    &&& a.entities == b.entities
    &&& a.rooms == b.rooms
}

/// Everything but world and map is the same in both states.
pub open spec fn same_but_world_and_map(before: State, after: State) -> bool {
    &&& after.rng == before.rng
    &&& after.dm == before.dm
    &&& after.phase == before.phase
    &&& after.player == before.player
    &&& after.msg_log == before.msg_log
    &&& after.animation_queue == before.animation_queue
    &&& after.current_animation == before.current_animation
    &&& after.counter == before.counter
}

/// The player exists and stands somewhere.
pub open spec fn player_placed(st: State) -> bool {
    st.player.is_some() && component::<Position>(st.world, st.player.unwrap()).is_some()
}

/// Where the player stands.
pub open spec fn player_at(st: State) -> Position {
    contents(st.world)[st.player.unwrap()].position.unwrap()
}

impl State {
    /// A new simulation on a freshly generated map of 60 by 32 cells: no
    /// entities, no player yet, an empty log, and the startup phase ahead.
    pub fn new(rng: RandomNumberGenerator) -> (st: State)
        ensures
            st.phase == Phase::Startup,
            st.player.is_none(),
            contents(st.world) == no_entities(),
            st.msg_log@.len() == 0,
            st.animation_queue@.len() == 0,
            st.current_animation.is_none(),
            st.counter == 0,
            st.map.wf(),
            st.map.width == CONSOLE_WIDTH,
            st.map.height == CONSOLE_HEIGHT - UI_HEIGHT,
            st.map.rooms@.len() >= 1,
            st.map.rooms_ok(),
            forall|i: int| 0 <= i < st.map.rooms@.len() ==> st.map.room_drawn(#[trigger] st.map.rooms@[i]),
            exists|candidates: Seq<crate::map::Candidate>| #[trigger] st.map.generated_from(candidates),
            st.map.blocked_is_walls(),
            st.map.seen_is_known(),
            st.dm.costs.wf(),
            st.dm.costs.width == st.map.width,
            st.dm.costs.height == st.map.height,
            forall|i: int| 0 <= i < st.dm.costs@.len() ==> #[trigger] st.dm.costs@[i] == UNREACHED,
    {
        let mut rng = rng;
        let map = GameMap::new(CONSOLE_WIDTH as usize, (CONSOLE_HEIGHT - UI_HEIGHT) as usize, &mut rng);
        proof {
            assert forall|x: int, y: int| map.in_bounds(x, y) && #[trigger] map.visible.cell(
                x,
                y,
            ) implies map.revealed.cell(x, y) by {
                map.visible.lemma_idx_bounds(x, y);
            }
        }
        State {
            dm: CostField::new_empty(map.width, map.height),
            map,
            rng,
            world: new_world(),
            phase: Phase::Startup,
            player: None,
            msg_log: Vec::new(),
            animation_queue: VecDeque::new(),
            current_animation: None,
            counter: 0,
        }
    }

    /// Whether the player exists and stands somewhere.
    pub fn has_player(&mut self) -> (r: bool)
        ensures
            *final(self) == *old(self),
            r == player_placed(*old(self)),
    {
        match self.player {
            Some(p) => fetch::<Position>(&mut self.world, p).is_some(),
            None => false,
        }
    }
}

} // verus!
