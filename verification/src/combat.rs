//! Melee combat: attack resolution, damage application and the removal of
//! the dead.
//!
//! Probabilities are counted in millionths, and a random roll is a whole
//! number of millionths below one.

use vstd::prelude::*;
use crate::lists::lemma_prefix_step;
use bracket_lib::random::RandomNumberGenerator;
use hecs::World;
use crate::position::Position;
use crate::rng;
use crate::state::{Animation, Message, MessageModel, State, log_view};
use crate::world::{
    Entity, Name, Record, ascending, attach, component, contents, despawn, detach, fetch,
    sorted_entities,
};

verus! {

/// One whole, in the units that probabilities are counted in.
pub const SCALE: u32 = 1_000_000;

/// A probability between zero and one, held in millionths. A stored value
/// above one whole counts as one whole.
#[derive(Debug, Clone, Copy)]
pub struct Percentage(pub u32);

impl Percentage {
    /// The probability in millionths, never more than `SCALE`.
    pub open spec fn parts(self) -> int {
        if self.0 <= SCALE {
            self.0 as int
        } else {
            SCALE as int
        }
    }

    /// The probability of `millionths` millionths, clamped to one whole.
    pub fn new(millionths: u32) -> (p: Self)
        ensures
            p.0 == (if millionths <= SCALE { millionths } else { SCALE }),
            p.parts() == p.0,
    {
        Percentage(if millionths <= SCALE { millionths } else { SCALE })
    }

    /// The probability in millionths.
    pub fn value(self) -> (v: u32)
        ensures
            v == self.parts(),
    {
        if self.0 <= SCALE {
            self.0
        } else {
            SCALE
        }
    }
}

/// What an entity brings to a fight.
#[derive(Debug, Clone, Copy)]
pub struct CombatStats {
    pub max_hp: i32,
    pub hp: i32,
    pub accuracy: Percentage,
    pub defense: Percentage,
    pub power: i32,
}

/// The wish to attack `target` this turn.
#[derive(Debug, Clone, Copy)]
pub struct WantsToMelee {
    pub target: Entity,
}

/// Damage waiting to be applied to an entity, in the order it was dealt.
#[derive(Debug, Clone)]
pub struct SufferDamage {
    pub queue: Vec<i32>,
}

/// The world's contents after `amount` is queued against `victim`: appended
/// to the victim's queue, or the first entry of a new one. A dead victim
/// changes nothing.
pub open spec fn with_damage(c: Map<Entity, Record>, victim: Entity, amount: i32) -> Map<
    Entity,
    Record,
> {
    if c.contains_key(victim) {
        c.insert(
            victim,
            Record {
                damage: Some(
                    match c[victim].damage {
                        Some(q) => q.push(amount),
                        None => seq![amount],
                    },
                ),
                ..c[victim]
            },
        )
    } else {
        c
    }
}

impl SufferDamage {
    /// A queue that holds `amount` alone.
    pub fn new(amount: i32) -> (s: Self)
        ensures
            s.queue@ == seq![amount],
    {
        let mut queue: Vec<i32> = Vec::new();
        queue.push(amount);
        SufferDamage { queue }
    }

    /// Queues `amount` against `victim`.
    pub fn add_damage(world: &mut World, victim: Entity, amount: i32)
        ensures
            contents(*final(world)) == with_damage(contents(*old(world)), victim, amount),
    {
        let next = match fetch::<SufferDamage>(world, victim) {
            Some(mut suffering) => {
                suffering.queue.push(amount);
                suffering
            },
            None => SufferDamage::new(amount),
        };
        attach::<SufferDamage>(world, victim, next);
    }
}

/// The unrounded damage of a blow, in millionths: the attacker's power
/// reduced by the share that the target's defense takes.
pub open spec fn raw_damage(power: int, defense: Percentage) -> int {
    power * (SCALE - defense.parts())
}

/// The whole points in `raw` millionths, rounded toward zero.
pub open spec fn whole(raw: int) -> int {
    if raw >= 0 {
        raw / (SCALE as int)
    } else {
        -((-raw) / (SCALE as int))
    }
}

/// What `raw` millionths leave over after the whole points are taken out.
pub open spec fn fraction(raw: int) -> int {
    raw - whole(raw) * SCALE
}

/// The damage of a blow in whole points: the whole part of the raw damage,
/// and one more when `roll` falls below the fractional remainder. Over the
/// rolls from zero up to one whole, the extra point so comes as often as the
/// remainder is large, and the mean of the damage is the raw damage. The
/// result stops at the largest 32-bit value.
pub open spec fn rounded(raw: int, roll: int) -> int {
    let d = whole(raw) + (if roll < fraction(raw) { 1int } else { 0int });
    if d > i32::MAX {
        i32::MAX as int
    } else {
        d
    }
}

/// Whether a blow misses: the roll exceeds the attacker's accuracy.
pub open spec fn misses(accuracy: Percentage, roll: int) -> bool {
    accuracy.parts() < roll
}

/// How one blow ends.
#[derive(Debug, Clone, Copy, PartialEq, Eq, Structural)]
pub enum Outcome {
    Miss,
    /// The blow lands for `damage` points, `blocked` of them added by rounding.
    Hit { damage: i32, blocked: i32 },
}

/// The outcome of a blow of `power` against `defense`, struck with
/// `accuracy`, for the two rolls drawn for it.
pub open spec fn outcome(
    power: i32,
    defense: Percentage,
    accuracy: Percentage,
    round_roll: i32,
    hit_roll: i32,
) -> Outcome {
    let raw = raw_damage(power as int, defense);
    if misses(accuracy, hit_roll as int) {
        Outcome::Miss
    } else {
        Outcome::Hit {
            damage: rounded(raw, round_roll as int) as i32,
            blocked: (rounded(raw, round_roll as int) - whole(raw)) as i32,
        }
    }
}

/// The whole part of the raw damage is no larger in magnitude than the power.
pub proof fn lemma_whole_bounds(power: int, defense: Percentage)
    ensures
        power >= 0 ==> 0 <= whole(raw_damage(power, defense)) <= power,
        power < 0 ==> power <= whole(raw_damage(power, defense)) <= 0,
        -(SCALE as int) < fraction(raw_damage(power, defense)) < SCALE,
        power >= 0 ==> fraction(raw_damage(power, defense)) >= 0,
        power < 0 ==> fraction(raw_damage(power, defense)) <= 0,
{
    let s = SCALE as int;
    let k = s - defense.parts();
    let raw = raw_damage(power, defense);
    if power >= 0 {
        assert(0 <= power * k <= power * s) by (nonlinear_arith)
            requires
                0 <= k <= s,
                power >= 0,
        ;
    } else {
        let m = -raw;
        assert(0 <= (-power) * k <= (-power) * s) by (nonlinear_arith)
            requires
                0 <= k <= s,
                power < 0,
        ;
        assert(m == (-power) * k) by (nonlinear_arith)
            requires
                m == -(power * k),
        ;
    }
}

/// Resolves one blow from its two rolls.
pub fn resolve_attack(
    power: i32,
    defense: Percentage,
    accuracy: Percentage,
    round_roll: i32,
    hit_roll: i32,
) -> (o: Outcome)
    ensures
        o == outcome(power, defense, accuracy, round_roll, hit_roll),
{
    let scale: i64 = SCALE as i64;
    let keep: i64 = scale - defense.value() as i64;
    proof {
        assert(-0x8000_0000 * 1_000_000 <= power * keep <= 0x8000_0000 * 1_000_000) by (nonlinear_arith)
            requires
                0 <= keep <= 1_000_000,
                -0x8000_0000 <= power < 0x8000_0000,
        ;
    }
    let raw: i64 = power as i64 * keep;
    let base: i64 = if raw >= 0 {
        raw / scale
    } else {
        0 - (0 - raw) / scale
    };
    let rest: i64 = raw - base * scale;
    let lifted: i64 = if (round_roll as i64) < rest {
        base + 1
    } else {
        base
    };
    let damage: i64 = if lifted > i32::MAX as i64 {
        i32::MAX as i64
    } else {
        lifted
    };
    if (accuracy.value() as i64) < hit_roll as i64 {
        Outcome::Miss
    } else {
        Outcome::Hit { damage: damage as i32, blocked: (damage - base) as i32 }
    }
}

/// With full accuracy no roll below one whole misses.
pub proof fn lemma_full_accuracy_hits(power: i32, defense: Percentage, round_roll: i32, hit_roll: i32)
    requires
        hit_roll < SCALE,
    ensures
        outcome(power, defense, Percentage(SCALE), round_roll, hit_roll) != Outcome::Miss,
{
}

/// With no accuracy every roll above zero misses.
pub proof fn lemma_no_accuracy_misses(power: i32, defense: Percentage, round_roll: i32, hit_roll: i32)
    requires
        hit_roll > 0,
    ensures
        outcome(power, defense, Percentage(0), round_roll, hit_roll) == Outcome::Miss,
{
}

/// Rounding adds at most one point to the whole part of the raw damage. For
/// a power that is not negative and a roll that is not negative, the damage
/// lies between zero and the power, it is the whole part plus one exactly
/// when the roll is below the remainder, and a raw damage without remainder
/// is dealt as it is.
pub proof fn lemma_rounding(power: i32, defense: Percentage, roll: i32)
    ensures
        whole(raw_damage(power as int, defense)) <= rounded(raw_damage(power as int, defense), roll as int)
            <= whole(raw_damage(power as int, defense)) + 1,
        power >= 0 && roll >= 0 ==> 0 <= rounded(raw_damage(power as int, defense), roll as int) <= power,
        power >= 0 && roll >= 0 ==> (rounded(raw_damage(power as int, defense), roll as int) == whole(
            raw_damage(power as int, defense),
        ) + 1 <==> roll < fraction(raw_damage(power as int, defense))),
        power >= 0 && roll >= 0 && fraction(raw_damage(power as int, defense)) == 0 ==> rounded(
            raw_damage(power as int, defense),
            roll as int,
        ) * SCALE == raw_damage(power as int, defense),
{
    lemma_whole_bounds(power as int, defense);
    let raw = raw_damage(power as int, defense);
    if power >= 0 && fraction(raw) > 0 {
        lemma_remainder_leaves_room(power as int, defense);
    }
}

/// A raw damage with a fractional remainder has a whole part below the
/// power: the extra point never lifts the damage above the power.
pub proof fn lemma_remainder_leaves_room(power: int, defense: Percentage)
    requires
        power >= 0,
        fraction(raw_damage(power, defense)) > 0,
    ensures
        whole(raw_damage(power, defense)) + 1 <= power,
{
    let s = SCALE as int;
    let k = s - defense.parts();
    let raw = raw_damage(power, defense);
    let w = whole(raw);
    assert(power * k <= power * s) by (nonlinear_arith)
        requires
            0 <= k <= s,
            power >= 0,
    ;
    assert(w * s < power * s);
    assert(w < power) by (nonlinear_arith)
        requires
            w * s < power * s,
            s > 0,
    ;
}

/// The rolls from zero up to one whole that give the extra point.
pub open spec fn lifting_rolls(raw: int) -> Set<int> {
    Set::new(|roll: int| 0 <= roll < SCALE && rounded(raw, roll) == whole(raw) + 1)
}

/// Rounding is unbiased. Of the million rolls from zero up to one whole,
/// exactly as many give the extra point as the remainder counts millionths;
/// the damage summed over all of them is therefore a million times the whole
/// part plus the remainder, which is the raw damage: the mean of the damage
/// is the raw damage.
pub proof fn lemma_rounding_unbiased(power: i32, defense: Percentage)
    requires
        power >= 0,
    ensures
        lifting_rolls(raw_damage(power as int, defense)).finite(),
        lifting_rolls(raw_damage(power as int, defense)).len() == fraction(raw_damage(power as int, defense)),
        whole(raw_damage(power as int, defense)) * SCALE + lifting_rolls(raw_damage(power as int, defense)).len()
            == raw_damage(power as int, defense),
{
    let raw = raw_damage(power as int, defense);
    lemma_whole_bounds(power as int, defense);
    if fraction(raw) > 0 {
        lemma_remainder_leaves_room(power as int, defense);
    }
    vstd::set_lib::lemma_int_range(0, fraction(raw));
    assert(lifting_rolls(raw) =~= vstd::set_lib::set_int_range(0, fraction(raw)));
}

/// One blow that is about to be struck: who strikes whom, and the figures and
/// names that resolving and reporting it take. `at` is the cell on which the
/// blow is shown: where the target stands, if it stands anywhere. An entity
/// without a name goes by the empty name.
#[derive(Debug)]
pub struct Attack {
    pub attacker: Entity,
    pub target: Entity,
    pub power: i32,
    pub accuracy: Percentage,
    pub defense: Percentage,
    pub at: Option<Position>,
    pub attacker_name: Name,
    pub target_name: Name,
}

/// The mathematical value of an `Attack`.
pub struct AttackModel {
    pub attacker: Entity,
    pub target: Entity,
    pub power: i32,
    pub accuracy: Percentage,
    pub defense: Percentage,
    pub at: Option<Position>,
    pub attacker_name: Seq<char>,
    pub target_name: Seq<char>,
}

impl View for Attack {
    type V = AttackModel;

    open spec fn view(&self) -> AttackModel {
        AttackModel {
            attacker: self.attacker,
            target: self.target,
            power: self.power,
            accuracy: self.accuracy,
            defense: self.defense,
            at: self.at,
            attacker_name: self.attacker_name.0@,
            target_name: self.target_name.0@,
        }
    }
}

/// The values of a list of attacks.
pub open spec fn plan_view(plan: Seq<Attack>) -> Seq<AttackModel> {
    plan.map_values(|a: Attack| a@)
}

/// The two rolls drawn for one blow: the first decides the rounding, the
/// second whether the blow lands.
pub type Rolls = (i32, i32);

/// The entity exists and has combat figures.
pub open spec fn is_fighter(c: Map<Entity, Record>, e: Entity) -> bool {
    c.contains_key(e) && c[e].stats.is_some()
}

/// The entity strikes a blow: it is a fighter that wants to attack and is
/// still standing, and its target is a fighter that is still standing too.
/// Neither needs a name or a position for that.
pub open spec fn strikes(c: Map<Entity, Record>, e: Entity) -> bool {
    &&& is_fighter(c, e)
    &&& c[e].intent.is_some()
    &&& c[e].stats.unwrap().hp > 0
    &&& is_fighter(c, c[e].intent.unwrap().target)
    &&& c[c[e].intent.unwrap().target].stats.unwrap().hp > 0
}

/// The blow that attacker `e` strikes.
pub open spec fn attack_of(c: Map<Entity, Record>, e: Entity) -> AttackModel {
    let target = c[e].intent.unwrap().target;
    AttackModel {
        attacker: e,
        target,
        power: c[e].stats.unwrap().power,
        accuracy: c[e].stats.unwrap().accuracy,
        defense: c[target].stats.unwrap().defense,
        at: c[target].position,
        attacker_name: name_of(c, e),
        target_name: name_of(c, target),
    }
}

/// `plan` lists the blows struck in a world with contents `c`: one for each
/// entity that strikes, in ascending order of attacker.
pub open spec fn is_plan(c: Map<Entity, Record>, plan: Seq<AttackModel>) -> bool {
    &&& forall|i: int, j: int| 0 <= i < j < plan.len() ==> plan[i].attacker < plan[j].attacker
    &&& forall|i: int| 0 <= i < plan.len() ==> strikes(c, (#[trigger] plan[i]).attacker) && plan[i]
        == attack_of(c, plan[i].attacker)
    &&& forall|e: Entity| strikes(c, e) ==> exists|i: int| 0 <= i < plan.len() && (#[trigger] plan[i]).attacker == e
}

/// The ordered list of blows of a world is unique.
pub proof fn lemma_plan_unique(c: Map<Entity, Record>, p: Seq<AttackModel>, q: Seq<AttackModel>)
    requires
        is_plan(c, p),
        is_plan(c, q),
    ensures
        p == q,
{
    let a = Seq::new(p.len(), |i: int| p[i].attacker);
    let b = Seq::new(q.len(), |i: int| q[i].attacker);
    assert forall|e: Entity| a.contains(e) <==> b.contains(e) by {
        if a.contains(e) {
            let j = choose|j: int| 0 <= j < q.len() && (#[trigger] q[j]).attacker == e;
            assert(b[j] == e);
        }
        if b.contains(e) {
            let i = choose|i: int| 0 <= i < p.len() && (#[trigger] p[i]).attacker == e;
            assert(a[i] == e);
        }
    }
    crate::world::lemma_ascending_unique(a, b);
    assert forall|i: int| 0 <= i < p.len() implies p[i] == q[i] by {
        assert(a[i] == b[i]);
    }
}

/// Reads the name that the entity `e` goes by in the log.
fn read_name(world: &mut World, e: Entity) -> (n: Name)
    requires
        contents(*old(world)).contains_key(e),
    ensures
        *final(world) == *old(world),
        n.0@ == name_of(contents(*old(world)), e),
{
    match fetch::<Name>(world, e) {
        Some(name) => name,
        None => Name::new(String::new()),
    }
}

/// Reads the blow of attacker `e` from the world, if it is struck.
fn attack_by(world: &mut World, e: Entity) -> (r: Option<Attack>)
    ensures
        *final(world) == *old(world),
        r.is_some() <==> strikes(contents(*old(world)), e),
        r.is_some() ==> r.unwrap()@ == attack_of(contents(*old(world)), e),
{
    let intent = fetch::<WantsToMelee>(world, e);
    let stats = fetch::<CombatStats>(world, e);
    match (intent, stats) {
        (Some(intent), Some(stats)) => {
            if stats.hp <= 0 {
                return None;
            }
            match fetch::<CombatStats>(world, intent.target) {
                Some(target_stats) => {
                    if target_stats.hp <= 0 {
                        return None;
                    }
                    let at = fetch::<Position>(world, intent.target);
                    let attacker_name = read_name(world, e);
                    let target_name = read_name(world, intent.target);
                    Some(
                        Attack {
                            attacker: e,
                            target: intent.target,
                            power: stats.power,
                            accuracy: stats.accuracy,
                            defense: target_stats.defense,
                            at,
                            attacker_name,
                            target_name,
                        },
                    )
                },
                None => None,
            }
        },
        _ => None,
    }
}

/// Lists the blows that are struck this turn, in ascending order of
/// attacker. An attacker that has fallen strikes no blow, and neither does
/// one whose target is gone, has fallen or has no combat figures.
pub fn plan_melee(world: &mut World) -> (plan: Vec<Attack>)
    ensures
        contents(*final(world)) == contents(*old(world)),
        is_plan(contents(*old(world)), plan_view(plan@)),
{
    let ids = sorted_entities(world);
    let ghost c = contents(*world);
    let mut plan: Vec<Attack> = Vec::new();
    let mut i: usize = 0;
    while i < ids.len()
        invariant
            i <= ids@.len(),
            c == contents(*old(world)),
            c == contents(*world),
            ascending(ids@),
            forall|id: Entity| ids@.contains(id) <==> c.contains_key(id),
            forall|k: int, j: int|
                0 <= k < j < plan@.len() ==> (#[trigger] plan@[k]).attacker < (#[trigger] plan@[j]).attacker,
            forall|k: int|
                0 <= k < plan@.len() ==> strikes(c, (#[trigger] plan@[k]).attacker) && plan@[k]@
                    == attack_of(c, plan@[k].attacker),
            forall|k: int|
                0 <= k < plan@.len() ==> i > 0 && (#[trigger] plan@[k]).attacker <= ids@[i - 1],
            forall|m: int|
                0 <= m < i && strikes(c, #[trigger] ids@[m]) ==> exists|k: int|
                    0 <= k < plan@.len() && (#[trigger] plan@[k]).attacker == ids@[m],
        decreases ids@.len() - i,
    {
        let e = ids[i];
        let ghost before = plan@;
        match attack_by(world, e) {
            Some(attack) => {
                plan.push(attack);
                proof {
                    assert forall|m: int| 0 <= m < i + 1 && strikes(c, #[trigger] ids@[m]) implies exists|
                        k: int,
                    | 0 <= k < plan@.len() && (#[trigger] plan@[k]).attacker == ids@[m] by {
                        if m < i {
                            let k = choose|k: int|
                                0 <= k < before.len() && (#[trigger] before[k]).attacker == ids@[m];
                            assert(plan@[k].attacker == ids@[m]);
                        } else {
                            assert(plan@[plan@.len() - 1].attacker == ids@[m]);
                        }
                    }
                }
            },
            None => {},
        }
        i += 1;
    }
    proof {
        let p = plan_view(plan@);
        assert forall|e: Entity| strikes(c, e) implies exists|k: int|
            0 <= k < p.len() && (#[trigger] p[k]).attacker == e by {
            let m = choose|m: int| 0 <= m < ids@.len() && ids@[m] == e;
            let k = choose|k: int| 0 <= k < plan@.len() && (#[trigger] plan@[k]).attacker == ids@[m];
            assert(p[k].attacker == e);
        }
    }
    plan
}

/// The log entry that reports a blow.
pub open spec fn message_of(a: AttackModel, roll: Rolls) -> MessageModel {
    match outcome(a.power, a.defense, a.accuracy, roll.0, roll.1) {
        Outcome::Miss => MessageModel::Miss { attacker: a.attacker_name, target: a.target_name },
        Outcome::Hit { damage, blocked } => MessageModel::Hit {
            attacker: a.attacker_name,
            target: a.target_name,
            damage,
            blocked,
        },
    }
}

/// The animation frame that shows a blow on the cell `pos`.
pub open spec fn frame_at(a: AttackModel, roll: Rolls, pos: Position) -> Animation {
    match outcome(a.power, a.defense, a.accuracy, roll.0, roll.1) {
        Outcome::Miss => Animation::Miss { pos },
        Outcome::Hit { damage, blocked } => Animation::MeleeDmg { pos, dmg: damage },
    }
}

/// The animation frames that show a blow: one on the target's cell, or none
/// when the target stands nowhere.
pub open spec fn frame_of(a: AttackModel, roll: Rolls) -> Seq<Animation> {
    match a.at {
        Some(pos) => seq![frame_at(a, roll, pos)],
        None => Seq::empty(),
    }
}

/// The world's contents after one blow: a hit queues its damage against the
/// target, a miss changes nothing.
pub open spec fn struck(c: Map<Entity, Record>, a: AttackModel, roll: Rolls) -> Map<Entity, Record> {
    match outcome(a.power, a.defense, a.accuracy, roll.0, roll.1) {
        Outcome::Miss => c,
        Outcome::Hit { damage, blocked } => with_damage(c, a.target, damage),
    }
}

/// The world's contents after the blows of `plan` are struck in order, blow
/// `i` resolved by `rolls[i]`.
pub open spec fn damage_dealt(c: Map<Entity, Record>, plan: Seq<AttackModel>, rolls: Seq<Rolls>) -> Map<
    Entity,
    Record,
>
    decreases plan.len(),
{
    if plan.len() == 0 || rolls.len() != plan.len() {
        c
    } else {
        struck(damage_dealt(c, plan.drop_last(), rolls.drop_last()), plan.last(), rolls.last())
    }
}

/// The world's contents after every wish to attack has been taken away.
pub open spec fn intents_cleared(c: Map<Entity, Record>) -> Map<Entity, Record> {
    Map::new(|e: Entity| c.contains_key(e), |e: Entity| Record { intent: None, ..c[e] })
}

/// The log entries of the blows of `plan`, in order.
pub open spec fn messages(plan: Seq<AttackModel>, rolls: Seq<Rolls>) -> Seq<MessageModel> {
    Seq::new(plan.len(), |i: int| message_of(plan[i], rolls[i]))
}

/// The animation frames of the blows of `plan`, in order.
pub open spec fn frames(plan: Seq<AttackModel>, rolls: Seq<Rolls>) -> Seq<Animation>
    decreases plan.len(),
{
    if plan.len() == 0 || rolls.len() != plan.len() {
        Seq::empty()
    } else {
        frames(plan.drop_last(), rolls.drop_last()) + frame_of(plan.last(), rolls.last())
    }
}

/// Map, cost field, phase, player, the animation on show and the step
/// counter are the same in both states.
pub open spec fn same_stage(before: State, after: State) -> bool {
    &&& after.map == before.map
    &&& after.dm == before.dm
    &&& after.phase == before.phase
    &&& after.player == before.player
    &&& after.current_animation == before.current_animation
    &&& after.counter == before.counter
}

/// `after` is `before` with the blows of `plan` resolved by `rolls`: every
/// hit is queued against its target, every blow is logged, every blow at a
/// target that stands somewhere is animated, and nobody keeps a wish to
/// attack.
pub open spec fn melee_resolved(before: State, after: State, plan: Seq<AttackModel>, rolls: Seq<Rolls>) -> bool {
    &&& same_stage(before, after)
    &&& contents(after.world) == intents_cleared(damage_dealt(contents(before.world), plan, rolls))
    &&& log_view(after.msg_log@) == log_view(before.msg_log@) + messages(plan, rolls)
    &&& after.animation_queue@ == before.animation_queue@ + frames(plan, rolls)
}

/// Both rolls are at least zero and below one whole.
pub open spec fn fair(roll: Rolls) -> bool {
    0 <= roll.0 < SCALE && 0 <= roll.1 < SCALE
}

/// Takes away every wish to attack.
fn clear_intents(world: &mut World)
    ensures
        contents(*final(world)) == intents_cleared(contents(*old(world))),
{
    let ids = sorted_entities(world);
    let ghost c = contents(*world);
    let mut i: usize = 0;
    while i < ids.len()
        invariant
            i <= ids@.len(),
            forall|id: Entity| ids@.contains(id) <==> c.contains_key(id),
            contents(*world).dom() == c.dom(),
            forall|e: Entity| #[trigger]
                c.contains_key(e) ==> contents(*world)[e] == (if ids@.subrange(0, i as int).contains(e) {
                    Record { intent: None, ..c[e] }
                } else {
                    c[e]
                }),
        decreases ids@.len() - i,
    {
        let e = ids[i];
        proof {
            lemma_prefix_step(ids@, i as int);
        }
        detach::<WantsToMelee>(world, e);
        i += 1;
    }
    proof {
        assert(ids@.subrange(0, ids@.len() as int) == ids@);
    }
}

/// Strikes the blows of `plan` in order, blow `i` with the rolls `rolls[i]`:
/// a hit is queued against its target, logged and animated, a miss is logged
/// and animated. A blow at a target that stands nowhere has no cell to be
/// shown on and is not animated. Afterwards nobody keeps a wish to attack.
pub fn commit_melee(gs: &mut State, plan: &Vec<Attack>, rolls: &Vec<Rolls>)
    requires
        plan@.len() == rolls@.len(),
    ensures
        melee_resolved(*old(gs), *final(gs), plan_view(plan@), rolls@),
        final(gs).rng == old(gs).rng,
{
    let ghost pv = plan_view(plan@);
    let ghost c0 = contents(gs.world);
    let ghost log0 = log_view(gs.msg_log@);
    let ghost queue0 = gs.animation_queue@;
    let mut i: usize = 0;
    while i < plan.len()
        invariant
            i <= plan@.len(),
            plan@.len() == rolls@.len(),
            pv == plan_view(plan@),
            same_stage(*old(gs), *gs),
            gs.rng == old(gs).rng,
            contents(gs.world) == damage_dealt(c0, pv.subrange(0, i as int), rolls@.subrange(0, i as int)),
            log_view(gs.msg_log@) == log0 + messages(pv, rolls@).subrange(0, i as int),
            gs.animation_queue@ == queue0 + frames(pv.subrange(0, i as int), rolls@.subrange(0, i as int)),
        decreases plan@.len() - i,
    {
        let attack = &plan[i];
        let roll = rolls[i];
        let ghost log_before = gs.msg_log@;
        let ghost queue_before = gs.animation_queue@;
        proof {
            assert(pv.subrange(0, i + 1).drop_last() == pv.subrange(0, i as int));
            assert(rolls@.subrange(0, i + 1).drop_last() == rolls@.subrange(0, i as int));
        }
        match resolve_attack(attack.power, attack.defense, attack.accuracy, roll.0, roll.1) {
            Outcome::Miss => {
                gs.msg_log.push(
                    Message::Miss {
                        attacker: attack.attacker_name.duplicate(),
                        target: attack.target_name.duplicate(),
                    },
                );
                match attack.at {
                    Some(pos) => {
                        gs.animation_queue.push_back(Animation::Miss { pos });
                    },
                    None => {},
                }
            },
            Outcome::Hit { damage, blocked } => {
                gs.msg_log.push(
                    Message::Hit {
                        attacker: attack.attacker_name.duplicate(),
                        target: attack.target_name.duplicate(),
                        damage,
                        blocked,
                    },
                );
                match attack.at {
                    Some(pos) => {
                        gs.animation_queue.push_back(Animation::MeleeDmg { pos, dmg: damage });
                    },
                    None => {},
                }
                SufferDamage::add_damage(&mut gs.world, attack.target, damage);
            },
        }
        proof {
            assert(log_view(gs.msg_log@) =~= log_view(log_before).push(message_of(pv[i as int], roll)));
            assert(messages(pv, rolls@).subrange(0, i + 1) =~= messages(pv, rolls@).subrange(
                0,
                i as int,
            ).push(message_of(pv[i as int], roll)));
            assert(gs.animation_queue@ =~= queue_before + frame_of(pv[i as int], roll));
            assert(gs.animation_queue@ =~= queue0 + frames(pv.subrange(0, i + 1), rolls@.subrange(0, i + 1)));
        }
        i += 1;
    }
    proof {
        assert(pv.subrange(0, pv.len() as int) == pv);
        assert(rolls@.subrange(0, rolls@.len() as int) == rolls@);
        assert(messages(pv, rolls@).subrange(0, pv.len() as int) == messages(pv, rolls@));
    }
    clear_intents(&mut gs.world);
}

/// Draws the two rolls of each of `count` blows, in order.
fn draw_rolls(rng: &mut RandomNumberGenerator, count: usize) -> (rolls: Vec<Rolls>)
    ensures
        rolls@.len() == count,
        forall|i: int| 0 <= i < rolls@.len() ==> fair(#[trigger] rolls@[i]),
{
    let mut rolls: Vec<Rolls> = Vec::new();
    let mut i: usize = 0;
    while i < count
        invariant
            i <= count,
            rolls@.len() == i,
            forall|k: int| 0 <= k < rolls@.len() ==> fair(#[trigger] rolls@[k]),
        decreases count - i,
    {
        let round_roll = rng::range(rng, 0, SCALE as i32);
        let hit_roll = rng::range(rng, 0, SCALE as i32);
        rolls.push((round_roll, hit_roll));
        i += 1;
    }
    rolls
}

/// The melee stage of a turn. Every attacker that still stands strikes a
/// target that still stands; each blow takes two rolls from the random
/// source. Whatever the rolls are, the state afterwards is the one that
/// `commit_melee` produces from them.
pub fn melee_combat(gs: &mut State)
    ensures
        exists|plan: Seq<AttackModel>, rolls: Seq<Rolls>|
            {
                &&& is_plan(contents(old(gs).world), plan)
                &&& rolls.len() == plan.len()
                &&& forall|i: int| 0 <= i < rolls.len() ==> fair(#[trigger] rolls[i])
                &&& #[trigger] melee_resolved(*old(gs), *final(gs), plan, rolls)
            },
{
    let plan = plan_melee(&mut gs.world);
    let rolls = draw_rolls(&mut gs.rng, plan.len());
    commit_melee(gs, &plan, &rolls);
    proof {
        assert(melee_resolved(*old(gs), *gs, plan_view(plan@), rolls@));
    }
}

/// The sum of the amounts in a damage queue.
pub open spec fn total(q: Seq<i32>) -> int
    decreases q.len(),
{
    if q.len() == 0 {
        0
    } else {
        total(q.drop_last()) + q.last()
    }
}

/// The 32-bit value nearest to `v`.
pub open spec fn clamped(v: int) -> i32 {
    if v < i32::MIN {
        i32::MIN
    } else if v > i32::MAX {
        i32::MAX
    } else {
        v as i32
    }
}

/// The combat figures after `queue` has been applied: the health is lowered
/// by the queue's total in one step, and stops at the ends of the 32-bit
/// range.
pub open spec fn hurt(stats: CombatStats, queue: Seq<i32>) -> CombatStats {
    CombatStats { hp: clamped(stats.hp - total(queue)), ..stats }
}

/// An entity after its queued damage has been applied: the queue is gone,
/// and a fighter has lost the queue's total. An entity without a queue is
/// unchanged.
pub open spec fn settled(r: Record) -> Record {
    match r.damage {
        Some(queue) => Record {
            stats: match r.stats {
                Some(stats) => Some(hurt(stats, queue)),
                None => None,
            },
            damage: None,
            ..r
        },
        None => r,
    }
}

/// The world's contents after all queued damage has been applied.
pub open spec fn damage_settled(c: Map<Entity, Record>) -> Map<Entity, Record> {
    Map::new(|e: Entity| c.contains_key(e), |e: Entity| settled(c[e]))
}

/// Everything but the world is the same in both states.
pub open spec fn same_but_world(before: State, after: State) -> bool {
    &&& same_stage(before, after)
    &&& after.rng == before.rng
    &&& after.msg_log == before.msg_log
    &&& after.animation_queue == before.animation_queue
}

/// Adds up a damage queue.
fn total_of(queue: &Vec<i32>) -> (sum: i128)
    ensures
        sum == total(queue@),
        -0x8000_0000_0000_0000_0000_0000 <= sum <= 0x8000_0000_0000_0000_0000_0000,
{
    let mut sum: i128 = 0;
    let mut i: usize = 0;
    while i < queue.len()
        invariant
            i <= queue@.len(),
            sum == total(queue@.subrange(0, i as int)),
            -0x8000_0000 * i <= sum <= 0x8000_0000 * i,
        decreases queue@.len() - i,
    {
        proof {
            assert(queue@.subrange(0, i + 1).drop_last() == queue@.subrange(0, i as int));
        }
        sum = sum + queue[i] as i128;
        i += 1;
    }
    proof {
        assert(queue@.subrange(0, queue@.len() as int) == queue@);
        assert(0x8000_0000 * i <= 0x8000_0000_0000_0000_0000_0000) by (nonlinear_arith)
            requires
                i <= 0xffff_ffff_ffff_ffff,
        ;
    }
    sum
}

/// The damage-application stage of a turn: every damage queue is removed,
/// and its owner, if it is a fighter, loses the queue's total in one step.
pub fn apply_damage(gs: &mut State)
    ensures
        same_but_world(*old(gs), *final(gs)),
        contents(final(gs).world) == damage_settled(contents(old(gs).world)),
{
    let ids = sorted_entities(&mut gs.world);
    let ghost c = contents(gs.world);
    let mut i: usize = 0;
    while i < ids.len()
        invariant
            i <= ids@.len(),
            same_but_world(*old(gs), *gs),
            forall|id: Entity| ids@.contains(id) <==> c.contains_key(id),
            ascending(ids@),
            contents(gs.world).dom() == c.dom(),
            forall|e: Entity| #[trigger]
                c.contains_key(e) ==> contents(gs.world)[e] == (if ids@.subrange(0, i as int).contains(e) {
                    settled(c[e])
                } else {
                    c[e]
                }),
        decreases ids@.len() - i,
    {
        let e = ids[i];
        proof {
            lemma_prefix_step(ids@, i as int);
        }
        let stats = fetch::<CombatStats>(&mut gs.world, e);
        let suffering = fetch::<SufferDamage>(&mut gs.world, e);
        match suffering {
            Some(suffering) => {
                match stats {
                    Some(stats) => {
                        let left: i128 = stats.hp as i128 - total_of(&suffering.queue);
                        let hp: i32 = if left < i32::MIN as i128 {
                            i32::MIN
                        } else if left > i32::MAX as i128 {
                            i32::MAX
                        } else {
                            left as i32
                        };
                        let after = CombatStats {
                            max_hp: stats.max_hp,
                            hp,
                            accuracy: stats.accuracy,
                            defense: stats.defense,
                            power: stats.power,
                        };
                        attach::<CombatStats>(&mut gs.world, e, after);
                    },
                    None => {},
                }
                detach::<SufferDamage>(&mut gs.world, e);
            },
            None => {},
        }
        i += 1;
    }
    proof {
        assert(ids@.subrange(0, ids@.len() as int) == ids@);
    }
}

/// The entity has combat figures and no health left.
pub open spec fn is_dead(c: Map<Entity, Record>, e: Entity) -> bool {
    c.contains_key(e) && c[e].stats.is_some() && c[e].stats.unwrap().hp <= 0
}

/// The world's contents without the dead.
pub open spec fn survivors(c: Map<Entity, Record>) -> Map<Entity, Record> {
    Map::new(|e: Entity| c.contains_key(e) && !is_dead(c, e), |e: Entity| c[e])
}

/// `dead` lists the dead of a world in ascending order.
pub open spec fn is_roll(c: Map<Entity, Record>, dead: Seq<Entity>) -> bool {
    ascending(dead) && forall|e: Entity| dead.contains(e) <==> is_dead(c, e)
}

/// The name an entity goes by in the log: its own, or none at all.
pub open spec fn name_of(c: Map<Entity, Record>, e: Entity) -> Seq<char> {
    match c[e].name {
        Some(n) => n,
        None => Seq::empty(),
    }
}

/// The log entry for the death of `e`: the player's death ends the game.
pub open spec fn obituary(c: Map<Entity, Record>, e: Entity, player: Option<Entity>) -> MessageModel {
    if player == Some(e) {
        MessageModel::GameOver { name: name_of(c, e) }
    } else {
        MessageModel::Died { name: name_of(c, e) }
    }
}

/// The log entries for the deaths of `dead`, in order.
pub open spec fn obituaries(c: Map<Entity, Record>, dead: Seq<Entity>, player: Option<Entity>) -> Seq<
    MessageModel,
> {
    Seq::new(dead.len(), |i: int| obituary(c, dead[i], player))
}

/// The sweep that ends a turn's combat: every entity with combat figures
/// and no health left is reported in the log, in ascending order of
/// identifier, and removed from the world with all its components.
pub fn delete_the_dead(gs: &mut State)
    ensures
        same_stage(*old(gs), *final(gs)),
        final(gs).rng == old(gs).rng,
        final(gs).animation_queue == old(gs).animation_queue,
        contents(final(gs).world) == survivors(contents(old(gs).world)),
        exists|dead: Seq<Entity>| #[trigger]
            is_roll(contents(old(gs).world), dead) && log_view(final(gs).msg_log@) == log_view(
                old(gs).msg_log@,
            ) + obituaries(contents(old(gs).world), dead, old(gs).player),
{
    let ids = sorted_entities(&mut gs.world);
    let ghost c = contents(gs.world);
    let ghost log0 = log_view(gs.msg_log@);
    let mut dead: Vec<Entity> = Vec::new();
    let mut i: usize = 0;
    while i < ids.len()
        invariant
            i <= ids@.len(),
            same_stage(*old(gs), *gs),
            gs.rng == old(gs).rng,
            gs.animation_queue == old(gs).animation_queue,
            c == contents(old(gs).world),
            c == contents(gs.world),
            forall|id: Entity| ids@.contains(id) <==> c.contains_key(id),
            ascending(ids@),
            ascending(dead@),
            forall|k: int| 0 <= k < dead@.len() ==> i > 0 && #[trigger] dead@[k] <= ids@[i - 1],
            forall|e: Entity|
                dead@.contains(e) <==> is_dead(c, e) && ids@.subrange(0, i as int).contains(e),
            log_view(gs.msg_log@) == log0 + obituaries(c, dead@, gs.player),
        decreases ids@.len() - i,
    {
        let e = ids[i];
        let ghost next = ids@.subrange(0, i + 1);
        let ghost dead_before = dead@;
        let ghost log_before = gs.msg_log@;
        proof {
            lemma_prefix_step(ids@, i as int);
        }
        let fallen = match fetch::<CombatStats>(&mut gs.world, e) {
            Some(stats) => stats.hp <= 0,
            None => false,
        };
        if fallen {
            let name = match fetch::<Name>(&mut gs.world, e) {
                Some(name) => name,
                None => Name::new(String::new()),
            };
            if gs.player == Some(e) {
                gs.msg_log.push(Message::GameOver { name });
            } else {
                gs.msg_log.push(Message::Died { name });
            }
            dead.push(e);
            proof {
                assert(log_view(gs.msg_log@) =~= log_view(log_before).push(obituary(c, e, gs.player)));
                assert(obituaries(c, dead@, gs.player) =~= obituaries(c, dead_before, gs.player).push(
                    obituary(c, e, gs.player),
                ));
                assert forall|x: Entity| dead@.contains(x) <==> is_dead(c, x) && next.contains(x) by {
                    if dead@.contains(x) {
                        let k = choose|k: int| 0 <= k < dead@.len() && dead@[k] == x;
                        if k < dead_before.len() {
                            assert(dead_before.contains(x));
                        }
                    }
                    if is_dead(c, x) && next.contains(x) {
                        if x == e {
                            assert(dead@[dead@.len() - 1] == x);
                        } else {
                            let k = choose|k: int| 0 <= k < dead_before.len() && dead_before[k] == x;
                            assert(dead@[k] == x);
                        }
                    }
                }
            }
        } else {
            proof {
                assert forall|x: Entity| dead@.contains(x) <==> is_dead(c, x) && next.contains(x) by {}
            }
        }
        i += 1;
    }
    proof {
        assert(ids@.subrange(0, ids@.len() as int) == ids@);
    }
    let ghost logged = *gs;
    let mut k: usize = 0;
    while k < dead.len()
        invariant
            k <= dead@.len(),
            same_stage(logged, *gs),
            gs.rng == logged.rng,
            gs.animation_queue == logged.animation_queue,
            gs.msg_log == logged.msg_log,
            is_roll(c, dead@),
            contents(gs.world) == Map::new(
                |e: Entity| c.contains_key(e) && !dead@.subrange(0, k as int).contains(e),
                |e: Entity| c[e],
            ),
        decreases dead@.len() - k,
    {
        let e = dead[k];
        let ghost next = dead@.subrange(0, k + 1);
        proof {
            lemma_prefix_step(dead@, k as int);
        }
        despawn(&mut gs.world, e);
        proof {
            assert(contents(gs.world) =~= Map::new(
                |x: Entity| c.contains_key(x) && !next.contains(x),
                |x: Entity| c[x],
            ));
        }
        k += 1;
    }
    proof {
        assert(dead@.subrange(0, dead@.len() as int) == dead@);
    }
}

/// One full round of combat: the melee stage, then the application of all
/// queued damage, then the removal of the dead. Nobody is removed before all
/// damage of the turn has been applied.
pub fn run(gs: &mut State)
    ensures
        same_stage(*old(gs), *final(gs)),
        exists|plan: Seq<AttackModel>, rolls: Seq<Rolls>, dead: Seq<Entity>| #[trigger]
            combat_done(*old(gs), *final(gs), plan, rolls, dead),
{
    let ghost start = *gs;
    melee_combat(gs);
    let ghost fought = *gs;
    apply_damage(gs);
    let ghost hurt = *gs;
    delete_the_dead(gs);
    proof {
        let (plan, rolls) = choose|plan: Seq<AttackModel>, rolls: Seq<Rolls>|
            {
                &&& is_plan(contents(start.world), plan)
                &&& rolls.len() == plan.len()
                &&& forall|i: int| 0 <= i < rolls.len() ==> fair(#[trigger] rolls[i])
                &&& #[trigger] melee_resolved(start, fought, plan, rolls)
            };
        let dead = choose|dead: Seq<Entity>| #[trigger]
            is_roll(contents(hurt.world), dead) && log_view(gs.msg_log@) == log_view(hurt.msg_log@)
                + obituaries(contents(hurt.world), dead, hurt.player);
        assert(combat_done(start, *gs, plan, rolls, dead));
    }
}

/// `after` is `before` with one round of combat done: the blows of `plan`,
/// which are the blows of `before`, resolved by the fair rolls `rolls`; all
/// queued damage applied; and the dead, listed by `dead`, reported and
/// removed.
pub open spec fn combat_done(
    before: State,
    after: State,
    plan: Seq<AttackModel>,
    rolls: Seq<Rolls>,
    dead: Seq<Entity>,
) -> bool {
    let fought = intents_cleared(damage_dealt(contents(before.world), plan, rolls));
    let hurt = damage_settled(fought);
    &&& is_plan(contents(before.world), plan)
    &&& rolls.len() == plan.len()
    &&& forall|i: int| 0 <= i < rolls.len() ==> fair(#[trigger] rolls[i])
    &&& is_roll(hurt, dead)
    &&& same_stage(before, after)
    &&& contents(after.world) == survivors(hurt)
    &&& log_view(after.msg_log@) == log_view(before.msg_log@) + messages(plan, rolls) + obituaries(
        hurt,
        dead,
        before.player,
    )
    &&& after.animation_queue@ == before.animation_queue@ + frames(plan, rolls)
}

/// A blow struck with full accuracy lands, whatever the fair rolls are: it is
/// logged as a hit, and exactly one amount, between zero and the attacker's
/// power when that is not negative, joins the end of the target's queue.
pub proof fn lemma_sure_blow_lands(c: Map<Entity, Record>, e: Entity, roll: Rolls)
    requires
        strikes(c, e),
        c[e].stats.unwrap().accuracy.parts() == SCALE,
        fair(roll),
    ensures
        ({
            let a = attack_of(c, e);
            let d = rounded(raw_damage(a.power as int, a.defense), roll.0 as int);
            let queue = match c[a.target].damage {
                Some(q) => q,
                None => Seq::empty(),
            };
            &&& a.power >= 0 ==> 0 <= d <= a.power
            &&& message_of(a, roll) == (MessageModel::Hit {
                attacker: a.attacker_name,
                target: a.target_name,
                damage: d as i32,
                blocked: (d - whole(raw_damage(a.power as int, a.defense))) as i32,
            })
            &&& struck(c, a, roll).dom() == c.dom()
            &&& struck(c, a, roll)[a.target].damage == Some(queue.push(d as i32))
        }),
{
    let a = attack_of(c, e);
    lemma_rounding(a.power, a.defense, roll.0);
    let queue = match c[a.target].damage {
        Some(q) => q,
        None => Seq::<i32>::empty(),
    };
    let d = rounded(raw_damage(a.power as int, a.defense), roll.0 as int);
    assert(seq![d as i32] =~= Seq::<i32>::empty().push(d as i32));
    assert(struck(c, a, roll).dom() =~= c.dom());
}

/// The melee stage is decided by the rolls: from the same state, the same
/// list of blows and the same rolls lead to the same entities, the same log
/// and the same animations.
pub proof fn lemma_melee_determined(
    before: State,
    one: State,
    other: State,
    plan: Seq<AttackModel>,
    rolls: Seq<Rolls>,
)
    requires
        melee_resolved(before, one, plan, rolls),
        melee_resolved(before, other, plan, rolls),
    ensures
        contents(one.world) == contents(other.world),
        log_view(one.msg_log@) == log_view(other.msg_log@),
        one.animation_queue@ == other.animation_queue@,
        same_stage(one, other),
{
}

/// The list of the dead of a world is unique.
pub proof fn lemma_roll_unique(c: Map<Entity, Record>, a: Seq<Entity>, b: Seq<Entity>)
    requires
        is_roll(c, a),
        is_roll(c, b),
    ensures
        a == b,
{
    crate::world::lemma_ascending_unique(a, b);
}

/// After the sweep nobody dead is left, everybody else is untouched, and a
/// second sweep finds nothing to remove or to report.
pub proof fn lemma_swept_once(c: Map<Entity, Record>, e: Entity)
    ensures
        !is_dead(survivors(c), e),
        is_dead(c, e) ==> !survivors(c).contains_key(e),
        c.contains_key(e) && !is_dead(c, e) ==> survivors(c).contains_key(e) && survivors(c)[e] == c[e],
        survivors(survivors(c)) == survivors(c),
        is_roll(survivors(c), Seq::<Entity>::empty()),
{
}

/// An entity that the sweep removed carries nothing any more: no damage
/// queue, no wish to attack, no combat figures and no position can be read
/// from it.
pub proof fn lemma_dead_leave_nothing(before: World, after: World, e: Entity)
    requires
        contents(after) == survivors(contents(before)),
        is_dead(contents(before), e),
    ensures
        !contents(after).contains_key(e),
        component::<SufferDamage>(after, e).is_none(),
        component::<WantsToMelee>(after, e).is_none(),
        component::<CombatStats>(after, e).is_none(),
        component::<Position>(after, e).is_none(),
{
}

/// A round of combat leaves nothing pending: afterwards nobody wants to
/// attack, nobody has damage queued, and nobody dead is left.
pub proof fn lemma_combat_settles(
    before: State,
    after: State,
    plan: Seq<AttackModel>,
    rolls: Seq<Rolls>,
    dead: Seq<Entity>,
    e: Entity,
)
    requires
        combat_done(before, after, plan, rolls, dead),
        contents(after.world).contains_key(e),
    ensures
        contents(after.world)[e].intent.is_none(),
        contents(after.world)[e].damage.is_none(),
        !is_dead(contents(after.world), e),
{
}

} // verus!
