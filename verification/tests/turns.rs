use bracket_lib::random::RandomNumberGenerator;
use roguelike::combat::{CombatStats, Percentage, WantsToMelee};
use roguelike::map::{GameMap, TileType};
use roguelike::pathing::UNREACHED;
use roguelike::position::Position;
use roguelike::rect::Rect;
use roguelike::spawn;
use roguelike::player::{Input, PlayerMove};
use roguelike::state::{Animation, Message, Phase, State};
use roguelike::turn::{Fault, Frame};
use roguelike::visibility::ViewShed;

fn ent(id: u64) -> hecs::Entity {
    hecs::Entity::from_bits(id).unwrap()
}

fn position_of(st: &State, id: u64) -> Position {
    *st.world.get::<&Position>(ent(id)).unwrap()
}

fn stats_of(st: &State, id: u64) -> CombatStats {
    *st.world.get::<&CombatStats>(ent(id)).unwrap()
}

fn arena() -> GameMap {
    let mut map = GameMap::empty(9, 7);
    map.carve_room(Rect { x1: 1, x2: 7, y1: 1, y2: 5 });
    map.block_walls();
    map
}

fn game(seed: u64) -> (State, u64) {
    let mut st = State::new(RandomNumberGenerator::seeded(seed));
    let start = Position::from_point(st.map.rooms[0].center());
    let hero = spawn::player(&mut st.world, &mut st.rng, start);
    st.player = Some(hero);
    let rooms: Vec<Rect> = st.map.rooms.iter().skip(1).copied().collect();
    for room in rooms {
        spawn::fill_room(&mut st.world, &mut st.rng, room);
    }
    (st, hero)
}

fn duel() -> (State, u64, u64) {
    let mut st = State::new(RandomNumberGenerator::seeded(1));
    st.map = arena();
    st.dm = roguelike::pathing::CostField::new_empty(9, 7);
    let hero = spawn::player(&mut st.world, &mut st.rng, Position { x: 3, y: 3 });
    let foe = spawn::monster(&mut st.world, &mut st.rng, Position { x: 4, y: 3 });
    st.player = Some(hero);
    (st, hero, foe)
}

#[test]
fn a_new_state_starts_from_scratch() {
    let mut st = State::new(RandomNumberGenerator::seeded(0x1));
    assert_eq!(st.phase, Phase::Startup);
    assert_eq!(Phase::default(), Phase::Startup);
    assert_eq!(st.player, None);
    assert_eq!(st.world.len(), 0);
    assert!(st.msg_log.is_empty());
    assert!(st.animation_queue.is_empty());
    assert_eq!(st.current_animation, None);
    assert_eq!(st.counter, 0);
    assert_eq!((st.map.width, st.map.height), (60, 32));
    assert_eq!(st.map.rooms.len(), 10);
    assert_eq!(st.map.rooms[0].center(), roguelike::position::Coord { x: 5, y: 26 });
    assert_eq!((st.dm.costs.width, st.dm.costs.height), (60, 32));
    assert!(st.dm.costs.storage.iter().all(|c| *c == UNREACHED));
    assert!(!st.has_player());
}

#[test]
fn the_first_tick_starts_up_and_draws_the_scene() {
    let (mut st, hero) = game(1);
    assert_eq!(st.tick(Input::East), Ok(Frame::Redraw));
    assert_eq!(st.phase, Phase::AwaitingInput);
    assert_eq!(st.counter, 1);
    assert_eq!(st.msg_log.len(), 1);
    assert!(matches!(st.msg_log[0], Message::Welcome));
    // the input of the first tick is not consumed
    assert_eq!(position_of(&st, hero), Position { x: 5, y: 26 });
    assert!(!st.world.get::<&ViewShed>(ent(hero)).unwrap().dirty);
    assert_eq!(st.map.visible.storage.iter().filter(|v| **v).count(), 76);
    // monsters block their cells, the player does not
    let blocked_floor = (0..60 * 32)
        .filter(|i| st.map.blocked.storage[*i] && st.map.tiles.storage[*i] == TileType::Floor)
        .count();
    assert_eq!(blocked_floor, 9);
    assert_eq!(st.map.entities.storage.iter().map(|l| l.len()).sum::<usize>(), 9);
    assert_eq!(st.map.blocked.get(5, 26), Some(&false));
}

#[test]
fn input_that_does_nothing_keeps_waiting() {
    let (mut st, hero) = game(1);
    st.tick(Input::Nothing).unwrap();
    for _ in 0..3 {
        assert_eq!(st.tick(Input::Nothing), Ok(Frame::Idle));
        assert_eq!(st.tick(Input::ShowCosts), Ok(Frame::Overlay));
        assert_eq!(st.phase, Phase::AwaitingInput);
        assert_eq!(st.counter, 1);
        assert_eq!(st.msg_log.len(), 1);
        assert_eq!(position_of(&st, hero), Position { x: 5, y: 26 });
    }
}

#[test]
fn walking_into_a_wall_keeps_waiting() {
    let mut st = State::new(RandomNumberGenerator::seeded(1));
    st.map = arena();
    st.dm = roguelike::pathing::CostField::new_empty(9, 7);
    let hero = spawn::player(&mut st.world, &mut st.rng, Position { x: 1, y: 1 });
    st.player = Some(hero);
    st.tick(Input::Nothing).unwrap();
    assert_eq!(st.tick(Input::West), Ok(Frame::Idle));
    assert_eq!(st.tick(Input::North), Ok(Frame::Idle));
    assert_eq!(st.phase, Phase::AwaitingInput);
    assert_eq!(position_of(&st, hero), Position { x: 1, y: 1 });
    assert!(!st.world.get::<&ViewShed>(ent(hero)).unwrap().dirty);
}

#[test]
fn a_move_runs_both_turns_and_draws_the_scene() {
    let (mut st, hero) = game(1);
    st.tick(Input::Nothing).unwrap();
    assert_eq!(st.tick(Input::East), Ok(Frame::Redraw));
    assert_eq!(st.phase, Phase::AwaitingInput);
    assert_eq!(st.counter, 2);
    assert_eq!(position_of(&st, hero), Position { x: 6, y: 26 });
    assert!(!st.world.get::<&ViewShed>(ent(hero)).unwrap().dirty);
    assert_eq!(st.map.visible.get(6, 26), Some(&true));
    // the cost field is centred on the player
    assert_eq!(st.dm.costs.get(6, 26), Some(&6));
    assert_eq!(st.dm.costs.get(5, 26), Some(&10));
    assert_eq!(st.tick(Input::South), Ok(Frame::Redraw));
    assert_eq!(position_of(&st, hero), Position { x: 6, y: 27 });
    assert_eq!(st.tick(Input::West), Ok(Frame::Redraw));
    assert_eq!(st.tick(Input::North), Ok(Frame::Redraw));
    assert_eq!(position_of(&st, hero), Position { x: 5, y: 26 });
    assert_eq!(st.counter, 5);
}

#[test]
fn the_same_seed_and_input_replay_the_same_game() {
    let script = [
        Input::Nothing, Input::East, Input::East, Input::North, Input::North, Input::North, Input::East,
        Input::ShowCosts, Input::South, Input::West, Input::East, Input::East, Input::East, Input::North,
    ];
    let mut traces = Vec::new();
    for _ in 0..2 {
        let (mut st, hero) = game(0xfeed);
        let mut trace = Vec::new();
        for _ in 0..6 {
            for input in script {
                let frame = st.tick(input);
                let mut all: Vec<(u64, Position, i32)> = st
                    .world
                    .query::<(&Position, &CombatStats)>()
                    .iter()
                    .map(|(e, (p, s))| (e.to_bits().get(), *p, s.hp))
                    .collect();
                all.sort_by_key(|t| t.0);
                trace.push((frame, st.phase, st.counter, st.msg_log.len(), all));
            }
        }
        assert!(st.world.contains(ent(hero)));
        traces.push(trace);
    }
    assert_eq!(traces[0], traces[1]);
}

#[test]
fn bumping_into_a_monster_attacks_it() {
    let (mut st, hero, foe) = duel();
    st.tick(Input::Nothing).unwrap();
    assert_eq!(st.map.entities.get(4, 3), Some(&vec![foe]));
    assert!(st.try_move_player(1, 0));
    assert_eq!(st.world.get::<&WantsToMelee>(ent(hero)).unwrap().target, foe);
    assert_eq!(position_of(&st, hero), Position { x: 3, y: 3 });
    assert!(!st.world.get::<&ViewShed>(ent(hero)).unwrap().dirty);
}

#[test]
fn stepping_frees_the_cell_left_behind() {
    let (mut st, hero, _foe) = duel();
    st.tick(Input::Nothing).unwrap();
    st.map.blocked.set(3, 3, true);
    assert!(st.try_move_player(0, 1));
    assert_eq!(position_of(&st, hero), Position { x: 3, y: 4 });
    assert!(st.world.get::<&ViewShed>(ent(hero)).unwrap().dirty);
    assert_eq!(st.map.blocked.get(3, 3), Some(&false));
    assert!(st.world.get::<&WantsToMelee>(ent(hero)).is_err());
    assert!(!st.try_move_player(0, 2));
    // without a player nothing moves
    st.player = None;
    assert!(!st.try_move_player(0, -1));
    assert!(!st.player_input(Input::North));
    assert_eq!(position_of(&st, hero), Position { x: 3, y: 4 });
}

#[test]
fn a_fight_is_shown_one_animation_at_a_time() {
    let (mut st, hero, foe) = duel();
    st.world
        .insert_one(
            ent(hero),
            CombatStats { max_hp: 30, hp: 30, accuracy: Percentage::new(1_000_000), defense: Percentage::new(0), power: 5 },
        )
        .unwrap();
    st.world
        .insert_one(
            ent(foe),
            CombatStats { max_hp: 16, hp: 16, accuracy: Percentage::new(1_000_000), defense: Percentage::new(0), power: 4 },
        )
        .unwrap();
    assert_eq!(st.tick(Input::Nothing), Ok(Frame::Redraw));
    // the player strikes in its turn, the monster strikes back in its own
    let first = st.tick(Input::East);
    assert_eq!(st.counter, 2);
    assert_eq!(first, Ok(Frame::Idle));
    assert_eq!(st.phase, Phase::Rendering);
    assert_eq!(st.animation_queue.len(), 2);
    let foe_hp = stats_of(&st, foe).hp;
    let hero_hp = stats_of(&st, hero).hp;
    assert!(foe_hp == 11 || foe_hp == 10);
    assert!(hero_hp == 26 || hero_hp == 25);
    assert_eq!(st.tick(Input::East), Ok(Frame::Idle));
    // every fourth step brings the next animation
    let shown = st.tick(Input::East);
    assert_eq!(st.counter, 4);
    assert_eq!(shown, Ok(Frame::Animate(Animation::MeleeDmg { pos: Position { x: 4, y: 3 }, dmg: 16 - foe_hp })));
    for _ in 0..3 {
        assert_eq!(st.tick(Input::East), shown);
    }
    let second = st.tick(Input::East);
    assert_eq!(st.counter, 8);
    assert_eq!(second, Ok(Frame::Animate(Animation::MeleeDmg { pos: Position { x: 3, y: 3 }, dmg: 30 - hero_hp })));
    for _ in 0..3 {
        assert_eq!(st.tick(Input::East), second);
        assert_eq!(st.phase, Phase::Rendering);
    }
    // the queue is drained: the scene is drawn and input is awaited again
    assert_eq!(st.tick(Input::East), Ok(Frame::Redraw));
    assert_eq!(st.counter, 12);
    assert_eq!(st.phase, Phase::AwaitingInput);
    assert_eq!(position_of(&st, hero), Position { x: 3, y: 3 });
    assert_eq!(stats_of(&st, foe).hp, foe_hp);
}

#[test]
fn render_step_follows_the_pacing() {
    let mut st = State::new(RandomNumberGenerator::seeded(1));
    st.phase = Phase::Rendering;
    let a = Animation::melee(Position { x: 0, y: 0 }, Position { x: 1, y: 2 }, 3);
    let b = Animation::miss(Position { x: 0, y: 0 }, Position { x: 4, y: 5 });
    assert_eq!(a, Animation::MeleeDmg { pos: Position { x: 1, y: 2 }, dmg: 3 });
    assert_eq!(b, Animation::Miss { pos: Position { x: 4, y: 5 } });
    st.animation_queue.push_back(a);
    st.animation_queue.push_back(b);
    st.counter = 2;
    assert_eq!(st.render_step(), Frame::Idle);
    assert_eq!(st.render_step(), Frame::Animate(a));
    assert_eq!(st.animation_queue.len(), 1);
    assert_eq!(st.render_step(), Frame::Animate(a));
    st.counter = 7;
    assert_eq!(st.render_step(), Frame::Animate(b));
    assert_eq!(st.current_animation, Some(b));
    st.counter = 11;
    assert_eq!(st.render_step(), Frame::Redraw);
    assert_eq!(st.current_animation, None);
    assert_eq!(st.phase, Phase::AwaitingInput);
    // the counter starts over when it is full
    st.counter = u64::MAX;
    st.phase = Phase::Rendering;
    assert_eq!(st.render_step(), Frame::Redraw);
    assert_eq!(st.counter, 0);
}

#[test]
fn a_turn_without_the_player_stops_with_a_fault() {
    let mut st = State::new(RandomNumberGenerator::seeded(1));
    st.phase = Phase::PlayerTurn;
    assert_eq!(st.tick(Input::Nothing), Err(Fault::PlayerLost));
    assert_eq!(st.phase, Phase::PlayerTurn);
    st.phase = Phase::MonsterTurn;
    assert_eq!(st.tick(Input::Nothing), Err(Fault::PlayerLost));
    assert_eq!(st.phase, Phase::MonsterTurn);
    assert_eq!(st.counter, 0);
    // a player that was removed is lost as well
    let hero = spawn::player(&mut st.world, &mut st.rng, Position { x: 5, y: 26 });
    st.player = Some(hero);
    assert!(st.has_player());
    st.world.despawn(ent(hero)).unwrap();
    assert!(!st.has_player());
    assert_eq!(st.tick(Input::Nothing), Err(Fault::PlayerLost));
    // startup and waiting go on without a player
    st.phase = Phase::Startup;
    assert_eq!(st.tick(Input::Nothing), Ok(Frame::Redraw));
    assert_eq!(st.tick(Input::East), Ok(Frame::Idle));
}

#[test]
fn a_pending_turn_is_finished_by_the_next_tick() {
    let (mut st, hero, foe) = duel();
    st.tick(Input::Nothing).unwrap();
    st.phase = Phase::MonsterTurn;
    // the monster, next to the player, attacks; its blow waits to be shown
    assert_eq!(st.tick(Input::Nothing), Ok(Frame::Idle));
    assert_eq!(st.phase, Phase::Rendering);
    assert_eq!(st.animation_queue.len(), 1);
    assert_eq!(position_of(&st, foe), Position { x: 4, y: 3 });
    assert!(st.world.get::<&WantsToMelee>(ent(foe)).is_err());
    assert_eq!(st.msg_log.len(), 2);
    assert!(stats_of(&st, hero).hp <= 100);
}

#[test]
fn occupancy_lists_blockers_in_ascending_order() {
    let (mut st, hero, a) = duel();
    let b = spawn::monster(&mut st.world, &mut st.rng, Position { x: 4, y: 3 });
    let c = spawn::monster(&mut st.world, &mut st.rng, Position { x: 20, y: 3 });
    st.map.blocked.set(2, 2, true);
    st.update_map();
    assert_eq!(st.map.entities.get(4, 3), Some(&vec![a, b]));
    assert_eq!(st.map.blocked.get(4, 3), Some(&true));
    assert_eq!(st.map.blocked.get(2, 2), Some(&false));
    assert_eq!(st.map.blocked.get(0, 0), Some(&true));
    // the player does not block, and an entity outside the map is not listed
    assert_eq!(st.map.blocked.get(3, 3), Some(&false));
    assert_eq!(st.map.entities.get(3, 3), Some(&vec![]));
    assert_eq!(st.map.entities.storage.iter().map(|l| l.len()).sum::<usize>(), 2);
    assert!(st.world.contains(ent(c)) && st.world.contains(ent(hero)));
    // moving a monster and syncing again moves its entry
    st.world.insert_one(ent(a), Position { x: 5, y: 5 }).unwrap();
    st.update_map();
    assert_eq!(st.map.entities.get(4, 3), Some(&vec![b]));
    assert_eq!(st.map.entities.get(5, 5), Some(&vec![a]));
}

#[test]
fn the_cost_field_follows_the_player() {
    let (mut st, hero, _foe) = duel();
    st.update_map();
    st.compute_dijkstra_map();
    assert_eq!(st.dm.costs.get(3, 3), Some(&6));
    assert_eq!(st.dm.costs.get(2, 3), Some(&10));
    // the monster's cell is blocked and not part of the field
    assert_eq!(st.dm.costs.get(4, 3), Some(&UNREACHED));
    assert_eq!(st.dm.costs.get(5, 3), Some(&40));
    st.world.insert_one(ent(hero), Position { x: 40, y: 3 }).unwrap();
    st.compute_dijkstra_map();
    assert!(st.dm.costs.storage.iter().all(|c| *c == UNREACHED));
}

#[test]
fn player_move_names_the_three_outcomes() {
    assert_ne!(PlayerMove::Move, PlayerMove::Nothing);
    assert_eq!(PlayerMove::Attack(7), PlayerMove::Attack(7));
    assert_ne!(PlayerMove::Attack(7), PlayerMove::Attack(8));
}
