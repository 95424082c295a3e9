use bracket_lib::prelude::{FieldOfViewAlg, Point};
use bracket_lib::random::RandomNumberGenerator;
use roguelike::map::{GameMap, TileType};
use roguelike::position::Position;
use roguelike::rect::Rect;
use roguelike::spawn;
use roguelike::state::State;
use roguelike::visibility::{look, ViewShed, FOV_LIMIT};

fn ent(id: u64) -> hecs::Entity {
    hecs::Entity::from_bits(id).unwrap()
}

fn view_of(st: &State, id: u64) -> ViewShed {
    (*st.world.get::<&ViewShed>(ent(id)).unwrap()).clone()
}

fn hall() -> GameMap {
    let mut map = GameMap::empty(30, 20);
    map.carve_room(Rect { x1: 1, x2: 28, y1: 1, y2: 18 });
    map.block_walls();
    map
}

fn sorted(mut cells: Vec<Position>) -> Vec<(u16, u16)> {
    cells.sort_by_key(|p| (p.y, p.x));
    cells.into_iter().map(|p| (p.x, p.y)).collect()
}

#[test]
fn a_new_view_is_empty_and_dirty() {
    let v = ViewShed::new(6);
    assert!(v.visible_tiles.is_empty());
    assert_eq!(v.range, 6);
    assert!(v.dirty);
    assert!(!v.sees(Position { x: 0, y: 0 }));
}

#[test]
fn sees_looks_the_cell_up() {
    let v = ViewShed { visible_tiles: vec![Position { x: 1, y: 2 }, Position { x: 3, y: 4 }], range: 2, dirty: false };
    assert!(v.sees(Position { x: 3, y: 4 }));
    assert!(v.sees(Position { x: 1, y: 2 }));
    assert!(!v.sees(Position { x: 2, y: 1 }));
}

#[test]
fn an_open_hall_shows_the_whole_diamond() {
    let map = hall();
    let from = Position { x: 14, y: 9 };
    let cells = look(&map, from, 3);
    let mut expected = Vec::new();
    for y in 6..=12u16 {
        for x in 11..=17u16 {
            if from.distance(Position { x, y }) <= 3 {
                expected.push((x, y));
            }
        }
    }
    assert_eq!(expected.len(), 25);
    assert_eq!(sorted(cells), expected);
}

#[test]
fn the_view_is_clipped_to_the_map_and_to_the_range() {
    for seed in 0..10u64 {
        let map = GameMap::new(60, 32, &mut RandomNumberGenerator::seeded(seed));
        for room in map.rooms.iter() {
            let from = Position::from_point(room.center());
            for range in [0u16, 1, 6, 9] {
                let cells = look(&map, from, range);
                assert!(cells.contains(&from));
                let mut seen = std::collections::HashSet::new();
                for p in cells.iter() {
                    assert!(p.x < 60 && p.y < 32);
                    assert!(from.distance(*p) <= range as u32);
                    assert!(seen.insert(*p), "listed twice");
                }
            }
        }
    }
}

#[test]
fn the_view_is_what_bracket_lib_reports_inside_the_diamond() {
    for seed in 0..10u64 {
        let map = GameMap::new(60, 32, &mut RandomNumberGenerator::seeded(seed));
        for room in map.rooms.iter() {
            let c = room.center();
            let from = Position::from_point(c);
            let reported = FieldOfViewAlg::SymmetricShadowcasting.field_of_view_set(Point::new(c.x, c.y), 6, &map);
            let expected: Vec<Position> = reported
                .into_iter()
                .filter(|p| (p.x - c.x).abs() + (p.y - c.y).abs() <= 6)
                .map(|p| Position { x: p.x as u16, y: p.y as u16 })
                .collect();
            assert!(expected.len() > 20);
            assert_eq!(sorted(look(&map, from, 6)), sorted(expected));
        }
    }
}

#[test]
fn sight_between_floor_cells_is_mutual() {
    for seed in 0..6u64 {
        let map = GameMap::new(60, 32, &mut RandomNumberGenerator::seeded(seed));
        for room in map.rooms.iter() {
            let from = Position::from_point(room.center());
            for p in look(&map, from, 6) {
                if map.tiles.get(p.x as i32, p.y as i32) == Some(&TileType::Floor) {
                    assert!(look(&map, p, 6).contains(&from), "{p:?} does not see {from:?}");
                }
            }
        }
    }
}

#[test]
fn walls_hide_what_lies_behind_them() {
    let mut map = GameMap::empty(12, 5);
    map.carve_room(Rect { x1: 1, x2: 4, y1: 1, y2: 3 });
    map.carve_room(Rect { x1: 6, x2: 10, y1: 1, y2: 3 });
    map.block_walls();
    let cells = look(&map, Position { x: 2, y: 2 }, 8);
    // the wall at column 5 is seen, the room beyond it is not
    assert!(cells.contains(&Position { x: 5, y: 2 }));
    assert!(cells.iter().all(|p| p.x <= 5));
    assert!(!cells.contains(&Position { x: 6, y: 2 }));
}

#[test]
fn a_viewer_outside_the_map_sees_nothing() {
    let map = hall();
    assert!(look(&map, Position { x: 30, y: 5 }, 6).is_empty());
    assert!(look(&map, Position { x: 5, y: 20 }, 6).is_empty());
}

#[test]
fn a_range_beyond_the_limit_counts_as_the_limit() {
    let map = hall();
    let from = Position { x: 14, y: 9 };
    let capped = sorted(look(&map, from, FOV_LIMIT));
    assert_eq!(sorted(look(&map, from, u16::MAX)), capped);
    // the whole hall and the walls around it
    assert_eq!(capped.len(), 30 * 20);
}

#[test]
fn only_dirty_views_are_recomputed() {
    let mut st = State::new(RandomNumberGenerator::seeded(1));
    let at = Position::from_point(st.map.rooms[0].center());
    let hero = spawn::player(&mut st.world, &mut st.rng, at);
    let foe = spawn::monster(&mut st.world, &mut st.rng, Position::from_point(st.map.rooms[1].center()));
    st.player = Some(hero);
    let marker = ViewShed { visible_tiles: vec![Position { x: 59, y: 31 }], range: 6, dirty: false };
    st.world.insert_one(ent(foe), marker).unwrap();
    st.compute_visibility();
    let mine = view_of(&st, hero);
    assert!(!mine.dirty);
    assert_eq!(mine.range, 6);
    assert!(mine.sees(at));
    assert_eq!(sorted(mine.visible_tiles.clone()), sorted(look(&st.map, at, 6)));
    let theirs = view_of(&st, foe);
    assert_eq!(theirs.visible_tiles, vec![Position { x: 59, y: 31 }]);
    assert!(!theirs.dirty);
}

#[test]
fn only_the_player_shows_on_the_map() {
    let mut st = State::new(RandomNumberGenerator::seeded(1));
    let far = Position::from_point(st.map.rooms[1].center());
    let foe = spawn::monster(&mut st.world, &mut st.rng, far);
    st.compute_visibility();
    assert!(!view_of(&st, foe).dirty);
    assert!(view_of(&st, foe).visible_tiles.len() > 20);
    assert!(st.map.visible.storage.iter().all(|v| !*v));
    assert!(st.map.revealed.storage.iter().all(|v| !*v));

    let at = Position::from_point(st.map.rooms[0].center());
    let hero = spawn::player(&mut st.world, &mut st.rng, at);
    st.player = Some(hero);
    st.compute_visibility();
    let mine = view_of(&st, hero);
    let shown = st.map.visible.storage.iter().filter(|v| **v).count();
    assert_eq!(shown, mine.visible_tiles.len());
    assert_eq!(shown, 76);
    for p in mine.visible_tiles.iter() {
        assert_eq!(st.map.visible.get(p.x as i32, p.y as i32), Some(&true));
        assert_eq!(st.map.revealed.get(p.x as i32, p.y as i32), Some(&true));
    }
}

#[test]
fn revealed_cells_are_never_forgotten() {
    let mut st = State::new(RandomNumberGenerator::seeded(4));
    let rooms = st.map.rooms.clone();
    let hero = spawn::player(&mut st.world, &mut st.rng, Position::from_point(rooms[0].center()));
    st.player = Some(hero);
    let mut known = vec![false; 60 * 32];
    for room in rooms.iter() {
        st.world.insert_one(ent(hero), Position::from_point(room.center())).unwrap();
        let mut view = view_of(&st, hero);
        view.dirty = true;
        st.world.insert_one(ent(hero), view).unwrap();
        st.compute_visibility();
        for i in 0..60 * 32 {
            assert!(!known[i] || st.map.revealed.storage[i]);
            assert!(!st.map.visible.storage[i] || st.map.revealed.storage[i]);
            known[i] = st.map.revealed.storage[i];
        }
    }
    assert!(known.iter().filter(|k| **k).count() > 76);
}
