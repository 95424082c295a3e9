use bracket_lib::random::RandomNumberGenerator;
use roguelike::combat::{
    apply_damage, commit_melee, delete_the_dead, melee_combat, plan_melee, resolve_attack, run, CombatStats,
    Outcome, Percentage, SufferDamage, WantsToMelee, SCALE,
};
use roguelike::position::Position;
use roguelike::spawn;
use roguelike::state::{Animation, Message, State};
use roguelike::world::Name;

fn ent(id: u64) -> hecs::Entity {
    hecs::Entity::from_bits(id).unwrap()
}

fn stats_of(st: &State, id: u64) -> CombatStats {
    *st.world.get::<&CombatStats>(ent(id)).unwrap()
}

fn queue_of(st: &State, id: u64) -> Option<Vec<i32>> {
    st.world.get::<&SufferDamage>(ent(id)).ok().map(|q| q.queue.clone())
}

fn wants(st: &State, id: u64) -> Option<u64> {
    st.world.get::<&WantsToMelee>(ent(id)).ok().map(|w| w.target)
}

fn set_stats(st: &mut State, id: u64, hp: i32, power: i32, accuracy: u32, defense: u32) {
    let stats = CombatStats {
        max_hp: 100,
        hp,
        accuracy: Percentage::new(accuracy),
        defense: Percentage::new(defense),
        power,
    };
    st.world.insert_one(ent(id), stats).unwrap();
}

fn duel(seed: u64) -> (State, u64, u64) {
    let mut st = State::new(RandomNumberGenerator::seeded(seed));
    let hero = spawn::player(&mut st.world, &mut st.rng, Position { x: 5, y: 5 });
    let foe = spawn::monster(&mut st.world, &mut st.rng, Position { x: 6, y: 5 });
    st.player = Some(hero);
    (st, hero, foe)
}

fn text(name: &Name) -> &str {
    name.0.as_str()
}

#[test]
fn percentage_is_clamped_to_one_whole() {
    assert_eq!(Percentage::new(0).value(), 0);
    assert_eq!(Percentage::new(700_000).value(), 700_000);
    assert_eq!(Percentage::new(SCALE).value(), 1_000_000);
    assert_eq!(Percentage::new(SCALE + 1).value(), 1_000_000);
    assert_eq!(Percentage::new(u32::MAX).value(), 1_000_000);
    assert_eq!(Percentage(5_000_000).value(), 1_000_000);
}

#[test]
fn suffer_damage_new_holds_one_amount() {
    assert_eq!(SufferDamage::new(7).queue, vec![7]);
}

#[test]
fn resolve_attack_rounds_up_when_the_roll_is_below_the_remainder() {
    let full = Percentage::new(SCALE);
    // raw damage 3.6: three whole points, remainder 0.6
    let defense = Percentage::new(100_000);
    assert_eq!(resolve_attack(4, defense, full, 0, 0), Outcome::Hit { damage: 4, blocked: 1 });
    assert_eq!(resolve_attack(4, defense, full, 599_999, 0), Outcome::Hit { damage: 4, blocked: 1 });
    assert_eq!(resolve_attack(4, defense, full, 600_000, 0), Outcome::Hit { damage: 3, blocked: 0 });
    assert_eq!(resolve_attack(4, defense, full, 999_999, 0), Outcome::Hit { damage: 3, blocked: 0 });
}

#[test]
fn resolve_attack_without_remainder_deals_the_raw_damage() {
    let full = Percentage::new(SCALE);
    // power 5 against defense 0.2: raw damage 4.0, remainder 0
    let defense = Percentage::new(200_000);
    for roll in [0, 1, 2, 17, 500_000, 999_999] {
        assert_eq!(resolve_attack(5, defense, full, roll, 0), Outcome::Hit { damage: 4, blocked: 0 });
    }
    // without defense the damage is the power, never more
    for roll in [0, 1, 999_999] {
        assert_eq!(resolve_attack(5, Percentage::new(0), full, roll, 0), Outcome::Hit { damage: 5, blocked: 0 });
    }
}

#[test]
fn the_extra_point_comes_as_often_as_the_remainder_is_large() {
    let full = Percentage::new(SCALE);
    // raw damage 7 * 0.75 = 5.25: one roll in four gives six
    let defense = Percentage::new(250_000);
    let mut sum: i64 = 0;
    let mut lifted = 0;
    for roll in 0..SCALE as i32 {
        match resolve_attack(7, defense, full, roll, 0) {
            Outcome::Hit { damage, blocked } => {
                assert!(damage == 5 + blocked && (blocked == 0 || blocked == 1));
                assert_eq!(blocked == 1, roll < 250_000);
                sum += damage as i64;
                lifted += blocked;
            }
            Outcome::Miss => panic!("full accuracy missed"),
        }
    }
    assert_eq!(lifted, 250_000);
    // the mean over all rolls is the raw damage
    assert_eq!(sum, 5_250_000);
}

#[test]
fn resolve_attack_misses_when_the_roll_exceeds_accuracy() {
    let none = Percentage::new(0);
    let half = Percentage::new(500_000);
    assert_eq!(resolve_attack(4, none, half, 0, 500_001), Outcome::Miss);
    assert_eq!(resolve_attack(4, none, half, 0, 999_999), Outcome::Miss);
    assert_eq!(resolve_attack(4, none, half, 0, 500_000), Outcome::Hit { damage: 4, blocked: 0 });
    assert_eq!(resolve_attack(4, none, half, 0, 0), Outcome::Hit { damage: 4, blocked: 0 });
}

#[test]
fn full_accuracy_never_misses_and_no_accuracy_misses_above_zero() {
    let none = Percentage::new(0);
    let full = Percentage::new(SCALE);
    for roll in [0, 1, 250_000, 999_999] {
        assert_ne!(resolve_attack(3, none, full, 0, roll), Outcome::Miss);
    }
    for roll in [1, 250_000, 999_999] {
        assert_eq!(resolve_attack(3, none, none, 0, roll), Outcome::Miss);
    }
    assert_eq!(resolve_attack(3, none, none, 0, 0), Outcome::Hit { damage: 3, blocked: 0 });
}

#[test]
fn resolve_attack_handles_extreme_power() {
    let none = Percentage::new(0);
    let full = Percentage::new(SCALE);
    assert_eq!(resolve_attack(i32::MAX, none, full, 1, 0), Outcome::Hit { damage: i32::MAX, blocked: 0 });
    assert_eq!(resolve_attack(i32::MAX, none, full, 0, 0), Outcome::Hit { damage: i32::MAX, blocked: 0 });
    assert_eq!(resolve_attack(i32::MIN, none, full, 0, 0), Outcome::Hit { damage: i32::MIN, blocked: 0 });
    assert_eq!(resolve_attack(i32::MIN, none, full, 1, 0), Outcome::Hit { damage: i32::MIN, blocked: 0 });
    // a roll below zero is no fair roll: it lifts, and the damage stops at the top
    assert_eq!(resolve_attack(i32::MAX, none, full, -1, 0), Outcome::Hit { damage: i32::MAX, blocked: 0 });
    assert_eq!(resolve_attack(3, none, full, -1, 0), Outcome::Hit { damage: 4, blocked: 1 });
    // full defense takes everything
    assert_eq!(resolve_attack(9, full, full, 0, 0), Outcome::Hit { damage: 0, blocked: 0 });
    assert_eq!(resolve_attack(9, full, full, 1, 0), Outcome::Hit { damage: 0, blocked: 0 });
    // negative power: the whole part is rounded toward zero, the remainder is negative
    let defense = Percentage::new(500_000);
    assert_eq!(resolve_attack(-5, defense, full, 0, 0), Outcome::Hit { damage: -2, blocked: 0 });
    assert_eq!(resolve_attack(-4, defense, full, 0, 0), Outcome::Hit { damage: -2, blocked: 0 });
    assert_eq!(resolve_attack(-4, defense, full, 1, 0), Outcome::Hit { damage: -2, blocked: 0 });
}

#[test]
fn add_damage_appends_in_order_and_skips_the_dead() {
    let (mut st, hero, foe) = duel(1);
    SufferDamage::add_damage(&mut st.world, foe, 3);
    assert_eq!(queue_of(&st, foe), Some(vec![3]));
    SufferDamage::add_damage(&mut st.world, foe, -2);
    SufferDamage::add_damage(&mut st.world, foe, 9);
    assert_eq!(queue_of(&st, foe), Some(vec![3, -2, 9]));
    assert_eq!(queue_of(&st, hero), None);
    st.world.despawn(ent(foe)).unwrap();
    SufferDamage::add_damage(&mut st.world, foe, 1);
    assert!(!st.world.contains(ent(foe)));
    assert_eq!(st.world.len(), 1);
    SufferDamage::add_damage(&mut st.world, 0, 1);
    assert_eq!(st.world.len(), 1);
}

#[test]
fn plan_lists_only_blows_that_are_struck() {
    let (mut st, hero, foe) = duel(1);
    assert!(plan_melee(&mut st.world).is_empty());
    st.world.insert_one(ent(hero), WantsToMelee { target: foe }).unwrap();
    st.world.insert_one(ent(foe), WantsToMelee { target: hero }).unwrap();
    let plan = plan_melee(&mut st.world);
    assert_eq!(plan.len(), 2);
    assert!(hero < foe);
    assert_eq!((plan[0].attacker, plan[0].target), (hero, foe));
    assert_eq!((plan[1].attacker, plan[1].target), (foe, hero));
    assert_eq!(plan[0].power, 5);
    assert_eq!(plan[0].accuracy.value(), 700_000);
    assert_eq!(plan[0].defense.value(), 100_000);
    assert_eq!(plan[0].at, Some(Position { x: 6, y: 5 }));
    assert_eq!(plan[1].at, Some(Position { x: 5, y: 5 }));
    assert_eq!(text(&plan[0].attacker_name), "Player");
    assert_eq!(plan[1].power, 4);
    assert_eq!(plan[1].defense.value(), 200_000);
    assert_eq!(text(&plan[1].target_name), "Player");

    // a fallen attacker strikes no blow
    set_stats(&mut st, foe, 0, 4, 500_000, 100_000);
    let plan = plan_melee(&mut st.world);
    assert_eq!(plan.len(), 0);
    // neither does anybody strike a target that is gone
    st.world.despawn(ent(foe)).unwrap();
    assert_eq!(plan_melee(&mut st.world).len(), 0);
}

#[test]
fn commit_queues_hits_logs_and_animates_in_order() {
    let (mut st, hero, foe) = duel(1);
    st.world.insert_one(ent(hero), WantsToMelee { target: foe }).unwrap();
    st.world.insert_one(ent(foe), WantsToMelee { target: hero }).unwrap();
    let plan = plan_melee(&mut st.world);
    // the player hits for 4.5 rounded up, the monster misses
    commit_melee(&mut st, &plan, &vec![(499_999, 700_000), (0, 500_001)]);
    assert_eq!(queue_of(&st, foe), Some(vec![5]));
    assert_eq!(queue_of(&st, hero), None);
    assert_eq!(wants(&st, hero), None);
    assert_eq!(wants(&st, foe), None);
    assert_eq!(st.msg_log.len(), 2);
    match &st.msg_log[0] {
        Message::Hit { attacker, target, damage, blocked } => {
            assert_eq!(text(attacker), "Player");
            assert!(text(target) == "Orc" || text(target) == "Goblin");
            assert_eq!((*damage, *blocked), (5, 1));
        }
        other => panic!("unexpected entry {:?}", other),
    }
    match &st.msg_log[1] {
        Message::Miss { attacker, target } => {
            assert!(text(attacker) == "Orc" || text(attacker) == "Goblin");
            assert_eq!(text(target), "Player");
        }
        other => panic!("unexpected entry {:?}", other),
    }
    let frames: Vec<Animation> = st.animation_queue.iter().copied().collect();
    assert_eq!(
        frames,
        vec![
            Animation::MeleeDmg { pos: Position { x: 6, y: 5 }, dmg: 5 },
            Animation::Miss { pos: Position { x: 5, y: 5 } },
        ]
    );
    // nothing is applied yet
    assert_eq!(stats_of(&st, foe).hp, 16);
}

#[test]
fn melee_combat_draws_fair_rolls() {
    for seed in 0..50u64 {
        let (mut st, hero, foe) = duel(seed);
        set_stats(&mut st, hero, 30, 5, SCALE, 200_000);
        st.world.insert_one(ent(hero), WantsToMelee { target: foe }).unwrap();
        melee_combat(&mut st);
        assert_eq!(wants(&st, hero), None);
        let queue = queue_of(&st, foe).expect("full accuracy always hits");
        assert_eq!(queue.len(), 1);
        assert!(queue[0] == 4 || queue[0] == 5, "seed {seed}: {}", queue[0]);
        assert_eq!(st.msg_log.len(), 1);
        assert_eq!(st.animation_queue.len(), 1);
    }
}

#[test]
fn melee_combat_varies_with_the_seed_and_repeats_with_it() {
    let mut outcomes = Vec::new();
    for seed in 0..50u64 {
        let mut pair = Vec::new();
        for _ in 0..2 {
            let (mut st, hero, foe) = duel(seed);
            st.world.insert_one(ent(hero), WantsToMelee { target: foe }).unwrap();
            melee_combat(&mut st);
            pair.push(queue_of(&st, foe));
        }
        assert_eq!(pair[0], pair[1], "seed {seed}");
        outcomes.push(pair[0].clone());
    }
    // accuracy 0.7 against raw damage 4.5: misses, fours and fives all occur
    assert!(outcomes.iter().any(|o| o.is_none()));
    assert!(outcomes.iter().any(|o| *o == Some(vec![4])));
    assert!(outcomes.iter().any(|o| *o == Some(vec![5])));
}

#[test]
fn whole_raw_damage_is_four_in_every_trial() {
    // power 5 against defense 0.2 leaves no remainder: nothing is rounded
    let (mut st, hero, foe) = duel(11);
    set_stats(&mut st, hero, 30, 5, SCALE, 0);
    set_stats(&mut st, foe, 1_000_000, 4, 500_000, 200_000);
    for _ in 0..300 {
        st.world.insert_one(ent(hero), WantsToMelee { target: foe }).unwrap();
        melee_combat(&mut st);
    }
    assert_eq!(queue_of(&st, foe).unwrap(), vec![4; 300]);
    assert!(st.msg_log.iter().all(|m| matches!(m, Message::Hit { damage: 4, blocked: 0, .. })));
}

#[test]
fn a_blow_of_four_leaves_a_target_of_five_standing() {
    for seed in 0..40u64 {
        let (mut st, hero, foe) = duel(seed);
        set_stats(&mut st, hero, 10, 5, SCALE, 0);
        set_stats(&mut st, foe, 5, 4, 500_000, 200_000);
        st.world.insert_one(ent(hero), WantsToMelee { target: foe }).unwrap();
        run(&mut st);
        assert!(st.world.contains(ent(foe)), "seed {seed}");
        assert_eq!(stats_of(&st, foe).hp, 1);
        assert_eq!(queue_of(&st, foe), None);
        assert_eq!(stats_of(&st, hero).hp, 10);
        assert_eq!(wants(&st, hero), None);
        assert_eq!(st.world.len(), 2);
        assert_eq!(st.msg_log.len(), 1);
        assert!(matches!(&st.msg_log[0], Message::Hit { damage: 4, .. }));
    }
}

#[test]
fn fighters_need_neither_a_name_nor_a_position() {
    let mut st = State::new(RandomNumberGenerator::seeded(1));
    let figures = CombatStats {
        max_hp: 10,
        hp: 10,
        accuracy: Percentage::new(SCALE),
        defense: Percentage::new(0),
        power: 3,
    };
    let a = st.world.spawn((figures,)).to_bits().get();
    let b = st.world.spawn((figures, Position { x: 2, y: 3 })).to_bits().get();
    st.world.insert_one(ent(a), WantsToMelee { target: b }).unwrap();
    st.world.insert_one(ent(b), WantsToMelee { target: a }).unwrap();
    let plan = plan_melee(&mut st.world);
    assert_eq!(plan.len(), 2);
    assert_eq!((plan[0].attacker, plan[0].at), (a, Some(Position { x: 2, y: 3 })));
    assert_eq!((plan[1].attacker, plan[1].at), (b, None));
    assert_eq!(text(&plan[0].attacker_name), "");
    assert_eq!(text(&plan[1].target_name), "");
    melee_combat(&mut st);
    assert_eq!(queue_of(&st, a), Some(vec![3]));
    assert_eq!(queue_of(&st, b), Some(vec![3]));
    assert_eq!(st.msg_log.len(), 2);
    assert!(st.msg_log.iter().all(|m| matches!(m, Message::Hit { damage: 3, blocked: 0, .. })));
    // only the blow at the target that stands somewhere is shown
    let frames: Vec<Animation> = st.animation_queue.iter().copied().collect();
    assert_eq!(frames, vec![Animation::MeleeDmg { pos: Position { x: 2, y: 3 }, dmg: 3 }]);
}

#[test]
fn accuracy_one_never_misses_and_accuracy_zero_always_does() {
    let (mut st, hero, foe) = duel(5);
    set_stats(&mut st, hero, 30, 5, SCALE, 0);
    set_stats(&mut st, foe, 1_000_000, 4, 0, 100_000);
    for _ in 0..300 {
        st.world.insert_one(ent(hero), WantsToMelee { target: foe }).unwrap();
        st.world.insert_one(ent(foe), WantsToMelee { target: hero }).unwrap();
        melee_combat(&mut st);
    }
    assert_eq!(queue_of(&st, foe).unwrap().len(), 300);
    assert_eq!(queue_of(&st, hero), None);
    let hits = st.msg_log.iter().filter(|m| matches!(m, Message::Hit { .. })).count();
    let misses = st.msg_log.iter().filter(|m| matches!(m, Message::Miss { .. })).count();
    assert_eq!((hits, misses), (300, 300));
}

#[test]
fn apply_damage_subtracts_the_total_once() {
    let (mut st, hero, foe) = duel(1);
    SufferDamage::add_damage(&mut st.world, foe, 3);
    SufferDamage::add_damage(&mut st.world, foe, 4);
    apply_damage(&mut st);
    assert_eq!(stats_of(&st, foe).hp, 9);
    assert_eq!(stats_of(&st, foe).max_hp, 16);
    assert_eq!(queue_of(&st, foe), None);
    assert_eq!(stats_of(&st, hero).hp, 100);
    apply_damage(&mut st);
    assert_eq!(stats_of(&st, foe).hp, 9);
    // health may go below zero, and stops at the ends of the range
    SufferDamage::add_damage(&mut st.world, foe, 20);
    apply_damage(&mut st);
    assert_eq!(stats_of(&st, foe).hp, -11);
    SufferDamage::add_damage(&mut st.world, foe, i32::MAX);
    SufferDamage::add_damage(&mut st.world, foe, i32::MAX);
    apply_damage(&mut st);
    assert_eq!(stats_of(&st, foe).hp, i32::MIN);
    SufferDamage::add_damage(&mut st.world, hero, i32::MIN);
    SufferDamage::add_damage(&mut st.world, hero, -5);
    apply_damage(&mut st);
    assert_eq!(stats_of(&st, hero).hp, i32::MAX);
}

#[test]
fn the_dead_are_removed_once_and_reported_in_order() {
    let mut st = State::new(RandomNumberGenerator::seeded(3));
    let hero = spawn::player(&mut st.world, &mut st.rng, Position { x: 1, y: 1 });
    let a = spawn::monster(&mut st.world, &mut st.rng, Position { x: 2, y: 1 });
    let b = spawn::monster(&mut st.world, &mut st.rng, Position { x: 3, y: 1 });
    let c = spawn::monster(&mut st.world, &mut st.rng, Position { x: 4, y: 1 });
    st.player = Some(hero);
    set_stats(&mut st, c, 0, 4, 0, 0);
    set_stats(&mut st, a, -3, 4, 0, 0);
    set_stats(&mut st, hero, 0, 4, 0, 0);
    st.world.insert_one(ent(a), WantsToMelee { target: hero }).unwrap();
    st.world.insert_one(ent(c), SufferDamage::new(2)).unwrap();
    delete_the_dead(&mut st);
    assert!(!st.world.contains(ent(hero)));
    assert!(!st.world.contains(ent(a)));
    assert!(st.world.contains(ent(b)));
    assert!(!st.world.contains(ent(c)));
    assert_eq!(st.world.len(), 1);
    assert!(st.world.get::<&WantsToMelee>(ent(a)).is_err());
    assert!(st.world.get::<&SufferDamage>(ent(c)).is_err());
    assert_eq!(st.msg_log.len(), 3);
    assert!(matches!(&st.msg_log[0], Message::GameOver { name } if text(name) == "Player"));
    assert!(matches!(&st.msg_log[1], Message::Died { .. }));
    assert!(matches!(&st.msg_log[2], Message::Died { .. }));
    // a second sweep finds nothing
    delete_the_dead(&mut st);
    assert_eq!(st.world.len(), 1);
    assert_eq!(st.msg_log.len(), 3);
    assert_eq!(stats_of(&st, b).hp, 16);
}

#[test]
fn a_round_applies_all_damage_before_anybody_is_removed() {
    let (mut st, hero, foe) = duel(9);
    set_stats(&mut st, hero, 30, 50, SCALE, 0);
    set_stats(&mut st, foe, 16, 50, SCALE, 0);
    st.world.insert_one(ent(hero), WantsToMelee { target: foe }).unwrap();
    st.world.insert_one(ent(foe), WantsToMelee { target: hero }).unwrap();
    run(&mut st);
    // the monster was struck first and lethally, and still struck back
    assert!(!st.world.contains(ent(foe)));
    assert!(!st.world.contains(ent(hero)));
    assert_eq!(st.msg_log.len(), 4);
    assert!(matches!(&st.msg_log[0], Message::Hit { attacker, .. } if text(attacker) == "Player"));
    assert!(matches!(&st.msg_log[1], Message::Hit { target, .. } if text(target) == "Player"));
    assert!(matches!(&st.msg_log[2], Message::GameOver { .. }));
    assert!(matches!(&st.msg_log[3], Message::Died { .. }));
    assert_eq!(st.animation_queue.len(), 2);
}

#[test]
fn a_round_leaves_survivors_hurt_and_without_queues() {
    let (mut st, hero, foe) = duel(2);
    set_stats(&mut st, hero, 30, 5, SCALE, 200_000);
    st.world.insert_one(ent(hero), WantsToMelee { target: foe }).unwrap();
    run(&mut st);
    let hp = stats_of(&st, foe).hp;
    assert!(hp == 11 || hp == 12);
    assert_eq!(queue_of(&st, foe), None);
    assert_eq!(wants(&st, hero), None);
    assert_eq!(stats_of(&st, hero).hp, 30);
}

#[test]
fn a_queue_without_a_fighter_is_dropped() {
    let mut st = State::new(RandomNumberGenerator::seeded(1));
    let e = st.world.spawn((Position { x: 1, y: 1 }, SufferDamage::new(4))).to_bits().get();
    apply_damage(&mut st);
    assert_eq!(queue_of(&st, e), None);
    assert!(st.world.contains(ent(e)));
    assert_eq!(*st.world.get::<&Position>(ent(e)).unwrap(), Position { x: 1, y: 1 });
}

#[test]
fn every_wish_to_attack_is_taken_away() {
    let (mut st, hero, foe) = duel(1);
    let bystander = st.world.spawn((WantsToMelee { target: hero },)).to_bits().get();
    st.world.insert_one(ent(foe), WantsToMelee { target: bystander }).unwrap();
    melee_combat(&mut st);
    assert_eq!(wants(&st, bystander), None);
    assert_eq!(wants(&st, foe), None);
    // neither blow was struck: one attacker is no fighter, the other's target is none
    assert!(st.msg_log.is_empty());
    assert!(st.animation_queue.is_empty());
    assert_eq!(queue_of(&st, hero), None);
}
