use bracket_lib::random::RandomNumberGenerator;
use roguelike::combat::{CombatStats, SufferDamage, WantsToMelee};
use roguelike::position::Position;
use roguelike::rect::Rect;
use roguelike::spawn::{fill_room, monster, monster_of_roll, player, SIGHT};
use roguelike::visibility::ViewShed;
use roguelike::monster::Monster;
use roguelike::world::{sorted_entities, BlocksTile, Name, Player};

fn ent(id: u64) -> hecs::Entity {
    hecs::Entity::from_bits(id).unwrap()
}

#[test]
fn the_player_starts_with_its_figures_and_does_not_block() {
    let mut world = hecs::World::new();
    let mut rng = RandomNumberGenerator::seeded(1);
    let id = player(&mut world, &mut rng, Position { x: 5, y: 26 });
    let e = ent(id);
    assert_eq!(world.len(), 1);
    assert_eq!(*world.get::<&Position>(e).unwrap(), Position { x: 5, y: 26 });
    assert_eq!(world.get::<&Name>(e).unwrap().0, "Player");
    let stats = *world.get::<&CombatStats>(e).unwrap();
    assert_eq!((stats.max_hp, stats.hp, stats.power), (100, 100, 5));
    assert_eq!(stats.accuracy.value(), 700_000);
    assert_eq!(stats.defense.value(), 200_000);
    let view = world.get::<&ViewShed>(e).unwrap();
    assert_eq!((view.range, view.dirty, view.visible_tiles.len()), (SIGHT, true, 0));
    assert_eq!(SIGHT, 6);
    assert!(world.get::<&Player>(e).is_ok());
    assert!(world.get::<&Monster>(e).is_err());
    assert!(world.get::<&BlocksTile>(e).is_err());
    assert!(world.get::<&WantsToMelee>(e).is_err());
    assert!(world.get::<&SufferDamage>(e).is_err());
}

#[test]
fn creating_the_player_draws_nothing() {
    let mut world = hecs::World::new();
    let mut rng = RandomNumberGenerator::seeded(21);
    let mut twin = RandomNumberGenerator::seeded(21);
    player(&mut world, &mut rng, Position { x: 1, y: 1 });
    assert_eq!(rng.next_u64(), twin.next_u64());
}

#[test]
fn a_monster_is_an_orc_or_a_goblin_and_blocks() {
    let mut world = hecs::World::new();
    let mut orcs = 0;
    let mut goblins = 0;
    for seed in 0..60u64 {
        let mut rng = RandomNumberGenerator::seeded(seed);
        let id = monster(&mut world, &mut rng, Position { x: 3, y: 4 });
        let e = ent(id);
        match world.get::<&Name>(e).unwrap().0.as_str() {
            "Orc" => orcs += 1,
            "Goblin" => goblins += 1,
            other => panic!("unexpected name {other}"),
        }
        let stats = *world.get::<&CombatStats>(e).unwrap();
        assert_eq!((stats.max_hp, stats.hp, stats.power), (16, 16, 4));
        assert_eq!(stats.accuracy.value(), 500_000);
        assert_eq!(stats.defense.value(), 100_000);
        assert!(world.get::<&Monster>(e).is_ok());
        assert!(world.get::<&BlocksTile>(e).is_ok());
        assert!(world.get::<&Player>(e).is_err());
        assert_eq!(world.get::<&ViewShed>(e).unwrap().range, 6);
    }
    assert_eq!(world.len(), 60);
    // one face of three makes an orc
    assert!(orcs > 5 && goblins > orcs);
}

#[test]
fn a_room_is_filled_inside_its_edge() {
    let room = Rect { x1: 10, x2: 17, y1: 4, y2: 11 };
    let mut seen = std::collections::HashSet::new();
    for seed in 0..200u64 {
        let mut world = hecs::World::new();
        let mut rng = RandomNumberGenerator::seeded(seed);
        fill_room(&mut world, &mut rng, room);
        assert_eq!(world.len(), 1);
        let ids = sorted_entities(&mut world);
        let at = *world.get::<&Position>(ent(ids[0])).unwrap();
        assert!(10 < at.x && at.x < 17 && 4 < at.y && at.y < 11);
        assert!(world.get::<&Monster>(ent(ids[0])).is_ok());
        seen.insert((at.x, at.y));
    }
    assert!(seen.len() > 20);
}

#[test]
fn entities_are_listed_in_ascending_order() {
    let mut world = hecs::World::new();
    let mut rng = RandomNumberGenerator::seeded(1);
    assert!(sorted_entities(&mut world).is_empty());
    let a = player(&mut world, &mut rng, Position { x: 1, y: 1 });
    let b = monster(&mut world, &mut rng, Position { x: 2, y: 1 });
    let c = monster(&mut world, &mut rng, Position { x: 3, y: 1 });
    let d = monster(&mut world, &mut rng, Position { x: 4, y: 1 });
    world.despawn(ent(b)).unwrap();
    let e = monster(&mut world, &mut rng, Position { x: 5, y: 1 });
    let mut expected = vec![a, c, d, e];
    expected.sort();
    assert_eq!(sorted_entities(&mut world), expected);
    assert!(!expected.contains(&b));
    assert!(sorted_entities(&mut world).windows(2).all(|w| w[0] < w[1]));
}

#[test]
fn a_one_makes_an_orc_and_anything_else_a_goblin() {
    let mut world = hecs::World::new();
    for (roll, name) in [(1, "Orc"), (2, "Goblin"), (3, "Goblin"), (0, "Goblin"), (-1, "Goblin")] {
        let id = monster_of_roll(&mut world, Position { x: 7, y: 8 }, roll);
        assert_eq!(world.get::<&Name>(ent(id)).unwrap().0, name);
        assert_eq!(*world.get::<&Position>(ent(id)).unwrap(), Position { x: 7, y: 8 });
        assert!(world.get::<&Monster>(ent(id)).is_ok());
        assert!(world.get::<&BlocksTile>(ent(id)).is_ok());
        assert_eq!(world.get::<&CombatStats>(ent(id)).unwrap().hp, 16);
    }
    assert_eq!(world.len(), 5);
}

#[test]
fn reserved_identifiers_are_entities_without_components() {
    let mut world = hecs::World::new();
    let mut rng = RandomNumberGenerator::seeded(1);
    let a = player(&mut world, &mut rng, Position { x: 1, y: 1 });
    let gone = monster(&mut world, &mut rng, Position { x: 2, y: 1 });
    world.despawn(ent(gone)).unwrap();
    // one identifier taken from a freed place, one from a new place
    let r1 = world.reserve_entity().to_bits().get();
    let r2 = world.reserve_entity().to_bits().get();
    assert!(world.contains(ent(r1)) && world.contains(ent(r2)));
    let mut expected = vec![a, r1, r2];
    expected.sort();
    assert_eq!(sorted_entities(&mut world), expected);
    assert!(world.get::<&Position>(ent(r1)).is_err());
    // damage can be queued against them like against any other entity
    let r3 = world.reserve_entity().to_bits().get();
    SufferDamage::add_damage(&mut world, r3, 2);
    assert_eq!(world.get::<&SufferDamage>(ent(r3)).unwrap().queue, vec![2]);
    let mut expected = vec![a, r1, r2, r3];
    expected.sort();
    assert_eq!(sorted_entities(&mut world), expected);
}
