//! The turn-phase controller: startup, the player's turn, the monsters' turn
//! and rendering, and the tick that runs through them.

use vstd::prelude::*;
use crate::combat::{AttackModel, Rolls, combat_done};
use crate::occupancy::resynced;
use crate::pathing::costed;
use crate::player::{Input, input_counts, input_done};
use crate::state::{Animation, Message, Phase, State, player_placed};
use crate::visibility::visibility_done;
use crate::world::{Entity, contents};

verus! {

/// Animations advance on every fourth step of the rendering phase.
pub const PACING: u64 = 4;

/// What is to be put on the screen after a tick.
#[derive(Debug, Clone, Copy, PartialEq, Eq, Structural)]
pub enum Frame {
    /// Nothing new.
    Idle,
    /// The cost field, over the map as it stands.
    Overlay,
    /// One animation frame.
    Animate(Animation),
    /// The whole scene.
    Redraw,
}

/// Why a tick could not go on.
#[derive(Debug, Clone, Copy, PartialEq, Eq, Structural)]
pub enum Fault {
    /// The player is gone, or has no position.
    PlayerLost,
}

/// The step counter after one more step; it starts over when it is full.
pub open spec fn ticked(counter: u64) -> u64 {
    if counter == u64::MAX {
        0
    } else {
        (counter + 1) as u64
    }
}

/// The animation on show after a rendering step that finds the counter at
/// `counter`: on every fourth step the next one in the queue, or none when
/// the queue is empty; on other steps the one that was on show.
pub open spec fn on_show(counter: u64, queue: Seq<Animation>, current: Option<Animation>) -> Option<
    Animation,
> {
    if counter % PACING == 0 {
        if queue.len() > 0 {
            Some(queue[0])
        } else {
            None
        }
    } else {
        current
    }
}

/// The animation queue after that step.
pub open spec fn still_queued(counter: u64, queue: Seq<Animation>) -> Seq<Animation> {
    if counter % PACING == 0 && queue.len() > 0 {
        queue.subrange(1, queue.len() as int)
    } else {
        queue
    }
}

/// `after` is `before` with one rendering step done, and `frame` is what the
/// step puts on the screen: the animation on show, if there is one; else,
/// with an empty queue, the whole scene, after which input is awaited; else
/// nothing.
pub open spec fn rendered(before: State, after: State, frame: Frame) -> bool {
    let counter = ticked(before.counter);
    let current = on_show(counter, before.animation_queue@, before.current_animation);
    let queue = still_queued(counter, before.animation_queue@);
    &&& after.world == before.world
    &&& after.map == before.map
    &&& after.rng == before.rng
    &&& after.dm == before.dm
    &&& after.player == before.player
    &&& after.msg_log == before.msg_log
    &&& after.counter == counter
    &&& after.current_animation == current
    &&& after.animation_queue@ == queue
    &&& match current {
        Some(a) => frame == Frame::Animate(a) && after.phase == before.phase,
        None => if queue.len() == 0 {
            frame == Frame::Redraw && after.phase == Phase::AwaitingInput
        } else {
            frame == Frame::Idle && after.phase == before.phase
        },
    }
}

/// `after` is `before` with one round of combat done, for some fair rolls.
pub open spec fn fought(before: State, after: State) -> bool {
    exists|plan: Seq<AttackModel>, rolls: Seq<Rolls>, dead: Seq<Entity>| #[trigger]
        combat_done(before, after, plan, rolls, dead)
}

/// `after` is `before` with every monster's decision carried out.
pub open spec fn monsters_done(before: State, after: State) -> bool {
    &&& crate::combat::same_but_world(before, after)
    &&& contents(after.world) == crate::monster::monsters_moved(
        contents(before.world),
        before.dm,
        before.map,
        before.player.unwrap(),
    )
}

/// The steps of the startup phase, one state after the other: views are
/// brought up to date, then occupancy is rebuilt.
pub open spec fn startup_steps(before: State, seen: State, synced: State) -> bool {
    visibility_done(before, seen) && resynced(seen, synced)
}

/// `after` is `before` with the startup phase done: views are current,
/// occupancy is rebuilt, the log ends with the welcome, and rendering is
/// next.
pub open spec fn startup_done(before: State, after: State) -> bool {
    exists|seen: State, synced: State| #[trigger]
        startup_steps(before, seen, synced) && after.msg_log@ == synced.msg_log@.push(Message::Welcome)
            && after.phase == Phase::Rendering && same_but_log_and_phase(synced, after)
}

/// Everything but the log and the phase is the same in both states.
pub open spec fn same_but_log_and_phase(before: State, after: State) -> bool {
    &&& after.world == before.world
    &&& after.map == before.map
    &&& after.rng == before.rng
    &&& after.dm == before.dm
    &&& after.player == before.player
    &&& after.animation_queue == before.animation_queue
    &&& after.current_animation == before.current_animation
    &&& after.counter == before.counter
}

/// The steps of the player's turn, one state after the other: views, cost
/// field, combat, occupancy.
pub open spec fn player_steps(before: State, seen: State, aimed: State, hit: State, synced: State) -> bool {
    &&& visibility_done(before, seen)
    &&& costed(seen, aimed)
    &&& fought(aimed, hit)
    &&& resynced(hit, synced)
}

/// `after` is `before` with the player's turn done; the monsters' turn is
/// next.
pub open spec fn player_turn_done(before: State, after: State) -> bool {
    exists|seen: State, aimed: State, hit: State, synced: State| #[trigger]
        player_steps(before, seen, aimed, hit, synced) && after == (State {
            phase: Phase::MonsterTurn,
            ..synced
        })
}

/// The steps of the monsters' turn, one state after the other: views, cost
/// field, the monsters' decisions, combat, occupancy.
pub open spec fn monster_steps(
    before: State,
    seen: State,
    aimed: State,
    moved: State,
    hit: State,
    synced: State,
) -> bool {
    &&& visibility_done(before, seen)
    &&& costed(seen, aimed)
    &&& monsters_done(aimed, moved)
    &&& fought(moved, hit)
    &&& resynced(hit, synced)
}

/// `after` is `before` with the monsters' turn done; rendering is next.
pub open spec fn monster_turn_done(before: State, after: State) -> bool {
    exists|seen: State, aimed: State, moved: State, hit: State, synced: State| #[trigger]
        monster_steps(before, seen, aimed, moved, hit, synced) && after == (State {
            phase: Phase::Rendering,
            ..synced
        })
}

impl State {
    /// One step of the rendering phase. The step counter goes up by one. On
    /// every fourth step the animation on show gives way to the next one in
    /// the queue. While there is an animation on show, it is the frame.
    /// Without one, an empty queue means that the whole scene is drawn and
    /// input is awaited next; a queue that still holds animations means that
    /// nothing is drawn yet.
    pub fn render_step(&mut self) -> (frame: Frame)
        ensures
            rendered(*old(self), *final(self), frame),
    {
        self.counter = self.counter.wrapping_add(1);
        if self.counter % PACING == 0 {
            self.current_animation = self.animation_queue.pop_front();
        }
        match self.current_animation {
            Some(a) => Frame::Animate(a),
            None => {
                if self.animation_queue.len() == 0 {
                    self.phase = Phase::AwaitingInput;
                    Frame::Redraw
                } else {
                    Frame::Idle
                }
            },
        }
    }

    /// The startup phase: brings every view up to date, rebuilds occupancy
    /// and greets the player in the log. Rendering is next.
    pub fn startup(&mut self)
        requires
            old(self).map.wf(),
        ensures
            final(self).map.wf(),
            startup_done(*old(self), *final(self)),
            final(self).map.knows_all_of(&old(self).map),
            old(self).map.seen_is_known() ==> final(self).map.seen_is_known(),
    {
        self.compute_visibility();
        let ghost seen = *self;
        self.update_map();
        let ghost synced = *self;
        self.msg_log.push(Message::Welcome);
        self.phase = Phase::Rendering;
        proof {
            assert(startup_steps(*old(self), seen, synced));
        }
    }

    /// The player's turn: views, cost field, one round of combat, occupancy.
    /// The monsters' turn is next.
    pub fn player_turn(&mut self)
        requires
            old(self).map.wf(),
            player_placed(*old(self)),
        ensures
            final(self).map.wf(),
            player_turn_done(*old(self), *final(self)),
            final(self).map.knows_all_of(&old(self).map),
            old(self).map.seen_is_known() ==> final(self).map.seen_is_known(),
    {
        self.compute_visibility();
        let ghost seen = *self;
        self.compute_dijkstra_map();
        let ghost aimed = *self;
        crate::combat::run(self);
        let ghost hit = *self;
        self.update_map();
        let ghost synced = *self;
        self.phase = Phase::MonsterTurn;
        proof {
            assert(player_steps(*old(self), seen, aimed, hit, synced));
        }
    }

    /// The monsters' turn: views, cost field, the monsters' decisions, one
    /// round of combat, occupancy. Rendering is next.
    pub fn monster_turn(&mut self)
        requires
            old(self).map.wf(),
            player_placed(*old(self)),
        ensures
            final(self).map.wf(),
            monster_turn_done(*old(self), *final(self)),
            final(self).map.knows_all_of(&old(self).map),
            old(self).map.seen_is_known() ==> final(self).map.seen_is_known(),
    {
        self.compute_visibility();
        let ghost seen = *self;
        self.compute_dijkstra_map();
        let ghost aimed = *self;
        crate::monster::apply_ai(self);
        let ghost moved = *self;
        crate::combat::run(self);
        let ghost hit = *self;
        self.update_map();
        let ghost synced = *self;
        self.phase = Phase::Rendering;
        proof {
            assert(monster_steps(*old(self), seen, aimed, moved, hit, synced));
        }
    }
}

/// What a tick that finds the monsters' turn pending leads to: without a
/// placed player it stops at once; otherwise the monsters' turn and one
/// rendering step follow.
pub open spec fn from_monster_turn(before: State, after: State, r: Result<Frame, Fault>) -> bool {
    if !player_placed(before) {
        after == before && r == Err::<Frame, Fault>(Fault::PlayerLost)
    } else {
        exists|mid: State, frame: Frame|
            #![trigger monster_turn_done(before, mid), rendered(mid, after, frame)]
            monster_turn_done(before, mid) && rendered(mid, after, frame) && r == Ok::<Frame, Fault>(frame)
    }
}

/// What a tick that finds the player's turn pending leads to: without a
/// placed player it stops at once; otherwise the player's turn is followed
/// by what the pending monsters' turn leads to.
pub open spec fn from_player_turn(before: State, after: State, r: Result<Frame, Fault>) -> bool {
    if !player_placed(before) {
        after == before && r == Err::<Frame, Fault>(Fault::PlayerLost)
    } else {
        exists|mid: State| #[trigger] player_turn_done(before, mid) && from_monster_turn(mid, after, r)
    }
}

/// What one tick does, phase by phase. It runs through the phases until a
/// frame has been produced or input is needed:
///
/// * from startup through the startup phase and one rendering step;
/// * while awaiting input, an input that starts a turn leads through the
///   player's turn, the monsters' turn and one rendering step; any other
///   input is handled and leaves the phase as it is, showing the cost field
///   if that was asked for;
/// * from a pending turn through what is left of the round and one
///   rendering step;
/// * while rendering, through one rendering step.
pub open spec fn tick_done(before: State, input: Input, after: State, r: Result<Frame, Fault>) -> bool {
    match before.phase {
        Phase::Startup => exists|mid: State, frame: Frame|
            #![trigger startup_done(before, mid), rendered(mid, after, frame)]
            startup_done(before, mid) && rendered(mid, after, frame) && r == Ok::<Frame, Fault>(frame),
        Phase::AwaitingInput => if input_counts(before, input) {
            exists|mid: State| #[trigger]
                input_done(before, mid, input) && from_player_turn(
                    State { phase: Phase::PlayerTurn, ..mid },
                    after,
                    r,
                )
        } else {
            input_done(before, after, input) && r == Ok::<Frame, Fault>(
                if input == Input::ShowCosts {
                    Frame::Overlay
                } else {
                    Frame::Idle
                },
            )
        },
        Phase::PlayerTurn => from_player_turn(before, after, r),
        Phase::MonsterTurn => from_monster_turn(before, after, r),
        Phase::Rendering => r.is_ok() && rendered(before, after, r.unwrap()),
    }
}

impl State {
    /// The rest of a tick from the pending monsters' turn on.
    fn run_monster_turn(&mut self) -> (r: Result<Frame, Fault>)
        requires
            old(self).map.wf(),
        ensures
            final(self).map.wf(),
            from_monster_turn(*old(self), *final(self), r),
            final(self).map.knows_all_of(&old(self).map),
            old(self).map.seen_is_known() ==> final(self).map.seen_is_known(),
    {
        if !self.has_player() {
            return Err(Fault::PlayerLost);
        }
        self.monster_turn();
        let frame = self.render_step();
        Ok(frame)
    }

    /// The rest of a tick from the pending player's turn on.
    fn run_player_turn(&mut self) -> (r: Result<Frame, Fault>)
        requires
            old(self).map.wf(),
        ensures
            final(self).map.wf(),
            from_player_turn(*old(self), *final(self), r),
            final(self).map.knows_all_of(&old(self).map),
            old(self).map.seen_is_known() ==> final(self).map.seen_is_known(),
    {
        if !self.has_player() {
            return Err(Fault::PlayerLost);
        }
        self.player_turn();
        let r = self.run_monster_turn();
        r
    }

    /// Advances the simulation until a frame has been produced or input is
    /// needed, and returns what is to be shown. A turn that finds the player
    /// gone or without a position is not begun: the tick stops there with
    /// `PlayerLost`, and what went before it stays done.
    ///
    /// Whatever happens, no revealed cell is forgotten, and the visible
    /// cells stay among the revealed ones.
    pub fn tick(&mut self, input: Input) -> (r: Result<Frame, Fault>)
        requires
            old(self).map.wf(),
        ensures
            final(self).map.wf(),
            tick_done(*old(self), input, *final(self), r),
            final(self).map.knows_all_of(&old(self).map),
            old(self).map.seen_is_known() ==> final(self).map.seen_is_known(),
    {
        match self.phase {
            Phase::Startup => {
                self.startup();
                let frame = self.render_step();
                Ok(frame)
            },
            Phase::AwaitingInput => {
                if self.player_input(input) {
                    self.phase = Phase::PlayerTurn;
                    let r = self.run_player_turn();
                    r
                } else {
                    match input {
                        Input::ShowCosts => Ok(Frame::Overlay),
                        _ => Ok(Frame::Idle),
                    }
                }
            },
            Phase::PlayerTurn => self.run_player_turn(),
            Phase::MonsterTurn => self.run_monster_turn(),
            Phase::Rendering => {
                let frame = self.render_step();
                Ok(frame)
            },
        }
    }
}

/// A tick that does not fault stops where input is awaited or a frame is
/// due. The whole scene is drawn only when no animation is left, and input
/// is awaited next; an animation frame is the animation on show; the cost
/// overlay is shown only while input is awaited.
pub proof fn lemma_tick_stops(before: State, input: Input, after: State, r: Result<Frame, Fault>)
    requires
        tick_done(before, input, after, r),
        r.is_ok(),
    ensures
        after.phase == Phase::AwaitingInput || after.phase == Phase::Rendering,
        r.unwrap() == Frame::Redraw ==> after.phase == Phase::AwaitingInput && after.animation_queue@.len() == 0
            && after.current_animation.is_none(),
        r.unwrap() == Frame::Overlay ==> after.phase == Phase::AwaitingInput && before.phase
            == Phase::AwaitingInput,
        forall|a: Animation| r.unwrap() == Frame::Animate(a) ==> after.current_animation == Some(a),
{
    match before.phase {
        Phase::Startup => {
            let (mid, frame) = choose|mid: State, frame: Frame|
                #![trigger startup_done(before, mid), rendered(mid, after, frame)]
                startup_done(before, mid) && rendered(mid, after, frame) && r == Ok::<Frame, Fault>(frame);
        },
        Phase::AwaitingInput => {
            if input_counts(before, input) {
                let mid = choose|mid: State| #[trigger]
                    input_done(before, mid, input) && from_player_turn(
                        State { phase: Phase::PlayerTurn, ..mid },
                        after,
                        r,
                    );
            }
        },
        Phase::PlayerTurn => {
        },
        Phase::MonsterTurn => {
        },
        Phase::Rendering => {},
    }
}

} // verus!
