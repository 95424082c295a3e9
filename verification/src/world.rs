//! The entity registry.
//!
//! Entities live in a `hecs::World`. Verified code never looks inside it: it
//! reads and writes one component of one entity at a time through the
//! functions below, and reasons about `contents`, a map from entity
//! identifiers to the components this library attaches.
//!
//! What is said of `hecs` here is taken on trust from its source. Components
//! are read through an exclusive reference to the world: such a read takes no
//! run-time borrow and tests none, so it cannot fail on one. Components are
//! taken and returned as copies.

use vstd::prelude::*;
use hecs::World;
use crate::combat::{CombatStats, SufferDamage, WantsToMelee};
use crate::monster::Monster;
use crate::position::Position;
use crate::visibility::{ViewShed, ViewShedModel};

verus! {

/// An entity's identifier: the 64-bit form of its `hecs::Entity` handle.
pub type Entity = u64;

/// `hecs::World`, carried around as a value that cannot be looked into.
#[verifier::external_type_specification]
#[verifier::external_body]
pub struct ExWorld(World);

/// The components of one entity, as far as this library attaches them.
pub struct Record {
    pub position: Option<Position>,
    pub stats: Option<CombatStats>,
    pub viewshed: Option<ViewShedModel>,
    pub intent: Option<WantsToMelee>,
    pub damage: Option<Seq<i32>>,
    pub name: Option<Seq<char>>,
    pub player: bool,
    pub monster: bool,
    pub blocks: bool,
}

impl Record {
    /// An entity without components.
    pub open spec fn blank() -> Record {
        Record {
            position: None,
            stats: None,
            viewshed: None,
            intent: None,
            damage: None,
            name: None,
            player: false,
            monster: false,
            blocks: false,
        }
    }
}

/// The entities of a world and their components: every identifier that the
/// world holds, with what is attached to it. An identifier that was reserved
/// and has nothing attached yet is an entity without components.
pub uninterp spec fn contents(world: World) -> Map<Entity, Record>;

/// A type that can be attached to an entity. `Model` is the mathematical
/// value of a component; `of` reads it from a record and `with` writes it.
/// Each kind of component has a field of the record to itself.
pub trait Component: Clone + Send + Sync + Sized + 'static {
    type Model;

    spec fn model(&self) -> Self::Model;

    spec fn of(r: Record) -> Option<Self::Model>;

    spec fn with(r: Record, m: Option<Self::Model>) -> Record;
}

/// The name shown for an entity in messages.
#[derive(Debug, Clone)]
pub struct Name(pub String);

impl Name {
    /// The name with the given text.
    pub fn new(name: String) -> (n: Self)
        ensures
            n.0@ == name@,
    {
        Name(name)
    }

    /// A second name with the same text.
    pub fn duplicate(&self) -> (n: Self)
        ensures
            n.0@ == self.0@,
    {
        Name(self.0.clone())
    }
}

/// Marks the entity that the user controls.
#[derive(Debug, Clone, Copy)]
pub struct Player;

/// Marks an entity that occupies its cell: nothing else can enter it.
#[derive(Debug, Clone, Copy)]
pub struct BlocksTile;

impl Component for Position {
    type Model = Position;

    open spec fn model(&self) -> Position {
        *self
    }

    open spec fn of(r: Record) -> Option<Position> {
        r.position
    }

    open spec fn with(r: Record, m: Option<Position>) -> Record {
        Record { position: m, ..r }
    }
}

impl Component for CombatStats {
    type Model = CombatStats;

    open spec fn model(&self) -> CombatStats {
        *self
    }

    open spec fn of(r: Record) -> Option<CombatStats> {
        r.stats
    }

    open spec fn with(r: Record, m: Option<CombatStats>) -> Record {
        Record { stats: m, ..r }
    }
}

impl Component for ViewShed {
    type Model = ViewShedModel;

    open spec fn model(&self) -> ViewShedModel {
        self@
    }

    open spec fn of(r: Record) -> Option<ViewShedModel> {
        r.viewshed
    }

    open spec fn with(r: Record, m: Option<ViewShedModel>) -> Record {
        Record { viewshed: m, ..r }
    }
}

impl Component for WantsToMelee {
    type Model = WantsToMelee;

    open spec fn model(&self) -> WantsToMelee {
        *self
    }

    open spec fn of(r: Record) -> Option<WantsToMelee> {
        r.intent
    }

    open spec fn with(r: Record, m: Option<WantsToMelee>) -> Record {
        Record { intent: m, ..r }
    }
}

impl Component for SufferDamage {
    type Model = Seq<i32>;

    open spec fn model(&self) -> Seq<i32> {
        self.queue@
    }

    open spec fn of(r: Record) -> Option<Seq<i32>> {
        r.damage
    }

    open spec fn with(r: Record, m: Option<Seq<i32>>) -> Record {
        Record { damage: m, ..r }
    }
}

impl Component for Name {
    type Model = Seq<char>;

    open spec fn model(&self) -> Seq<char> {
        self.0@
    }

    open spec fn of(r: Record) -> Option<Seq<char>> {
        r.name
    }

    open spec fn with(r: Record, m: Option<Seq<char>>) -> Record {
        Record { name: m, ..r }
    }
}

impl Component for Player {
    type Model = ();

    open spec fn model(&self) -> () {
        ()
    }

    open spec fn of(r: Record) -> Option<()> {
        if r.player {
            Some(())
        } else {
            None
        }
    }

    open spec fn with(r: Record, m: Option<()>) -> Record {
        Record { player: m.is_some(), ..r }
    }
}

impl Component for Monster {
    type Model = ();

    open spec fn model(&self) -> () {
        ()
    }

    open spec fn of(r: Record) -> Option<()> {
        if r.monster {
            Some(())
        } else {
            None
        }
    }

    open spec fn with(r: Record, m: Option<()>) -> Record {
        Record { monster: m.is_some(), ..r }
    }
}

impl Component for BlocksTile {
    type Model = ();

    open spec fn model(&self) -> () {
        ()
    }

    open spec fn of(r: Record) -> Option<()> {
        if r.blocks {
            Some(())
        } else {
            None
        }
    }

    open spec fn with(r: Record, m: Option<()>) -> Record {
        Record { blocks: m.is_some(), ..r }
    }
}

/// The contents of a world without entities.
pub open spec fn no_entities() -> Map<Entity, Record> {
    Map::empty()
}

/// The component of kind `T` that entity `id` carries in `world`, if the
/// entity is alive and has one.
pub open spec fn component<T: Component>(world: World, id: Entity) -> Option<T::Model> {
    if contents(world).contains_key(id) {
        T::of(contents(world)[id])
    } else {
        None
    }
}

/// `World::new`: a world without entities.
#[verifier::external_body]
pub(crate) fn new_world() -> (w: World)
    ensures
        contents(w) == no_entities(),
{
    World::new()
}

/// `World::flush` followed by `World::iter`: the identifiers of all
/// entities, each once, in no particular order. The walk alone passes over
/// identifiers that were reserved and not yet given a place; the flush gives
/// them one, as entities without components, which is what they count as
/// before it too. So the contents stay as they are.
#[verifier::external_body]
pub(crate) fn entities(world: &mut World) -> (ids: Vec<Entity>)
    ensures
        contents(*final(world)) == contents(*old(world)),
        ids@.no_duplicates(),
        ids@.to_set() == contents(*old(world)).dom(),
{
    world.flush();
    world.iter().map(|e| e.entity().to_bits().get()).collect()
}

/// `World::spawn` with no components: a fresh entity, distinct from every
/// live one.
#[verifier::external_body]
pub(crate) fn spawn_blank(world: &mut World) -> (id: Entity)
    ensures
        !contents(*old(world)).contains_key(id),
        contents(*final(world)) == contents(*old(world)).insert(id, Record::blank()),
{
    world.spawn(()).to_bits().get()
}

/// `World::despawn`: removes the entity with all its components. Returns
/// whether it was alive.
#[verifier::external_body]
pub(crate) fn despawn(world: &mut World, id: Entity) -> (found: bool)
    ensures
        found == contents(*old(world)).contains_key(id),
        contents(*final(world)) == contents(*old(world)).remove(id),
{
    match hecs::Entity::from_bits(id) {
        Some(e) => world.despawn(e).is_ok(),
        None => false,
    }
}

/// `World::query_one_mut` for a shared view of one component: a copy of the
/// entity's component of kind `T`, or `None` when the entity is dead or has
/// no such component. The outside function takes the world exclusively and
/// reads it only, so the world is the same afterwards.
#[verifier::external_body]
pub(crate) fn fetch<T: Component>(world: &mut World, id: Entity) -> (c: Option<T>)
    ensures
        *final(world) == *old(world),
        match c {
            Some(v) => component::<T>(*old(world), id) == Some(v.model()),
            None => component::<T>(*old(world), id).is_none(),
        },
{
    let e = hecs::Entity::from_bits(id)?;
    world.query_one_mut::<&T>(e).ok().cloned()
}

/// `World::insert_one`: attaches `value` to a live entity, replacing any
/// component of the same kind. Returns whether the entity was alive; a dead
/// entity leaves the world unchanged.
#[verifier::external_body]
pub(crate) fn attach<T: Component>(world: &mut World, id: Entity, value: T) -> (found: bool)
    ensures
        found == contents(*old(world)).contains_key(id),
        contents(*final(world)) == (if found {
            contents(*old(world)).insert(id, T::with(contents(*old(world))[id], Some(value.model())))
        } else {
            contents(*old(world))
        }),
{
    match hecs::Entity::from_bits(id) {
        Some(e) => world.insert_one(e, value).is_ok(),
        None => false,
    }
}

/// `World::remove_one`: detaches the component of kind `T`. Returns whether
/// there was one; otherwise the world is unchanged.
#[verifier::external_body]
pub(crate) fn detach<T: Component>(world: &mut World, id: Entity) -> (removed: bool)
    ensures
        removed == component::<T>(*old(world), id).is_some(),
        contents(*final(world)) == (if removed {
            contents(*old(world)).insert(id, T::with(contents(*old(world))[id], None))
        } else {
            contents(*old(world))
        }),
{
    match hecs::Entity::from_bits(id) {
        Some(e) => world.remove_one::<T>(e).is_ok(),
        None => false,
    }
}

/// Each identifier is smaller than the next.
pub open spec fn ascending(s: Seq<Entity>) -> bool {
    forall|i: int, j: int| 0 <= i < j < s.len() ==> s[i] < s[j]
}

/// Puts `id` into an ascending list that does not hold it yet.
fn insert_ascending(list: &mut Vec<Entity>, id: Entity)
    requires
        ascending(old(list)@),
        !old(list)@.contains(id),
    ensures
        ascending(final(list)@),
        final(list)@.len() == old(list)@.len() + 1,
        forall|e: Entity| final(list)@.contains(e) <==> (e == id || old(list)@.contains(e)),
{
    let mut at: usize = 0;
    while at < list.len() && list[at] < id
        invariant
            list@ == old(list)@,
            at <= list@.len(),
            forall|k: int| 0 <= k < at ==> list@[k] < id,
        decreases list@.len() - at,
    {
        at += 1;
    }
    list.insert(at, id);
    proof {
        let before = old(list)@;
        let after = list@;
        assert forall|e: Entity| after.contains(e) <==> (e == id || before.contains(e)) by {
            if e == id {
                assert(after[at as int] == e);
            }
            if before.contains(e) {
                let k = choose|k: int| 0 <= k < before.len() && before[k] == e;
                if k < at {
                    assert(after[k] == e);
                } else {
                    assert(after[k + 1] == e);
                }
            }
        }
    }
}

/// The identifiers of all entities in ascending order. Every pass over
/// the world goes in this order, so that the same world is always walked the
/// same way.
pub fn sorted_entities(world: &mut World) -> (ids: Vec<Entity>)
    ensures
        contents(*final(world)) == contents(*old(world)),
        ascending(ids@),
        forall|id: Entity| ids@.contains(id) <==> contents(*old(world)).contains_key(id),
{
    let found = entities(world);
    let mut ids: Vec<Entity> = Vec::new();
    let mut i: usize = 0;
    while i < found.len()
        invariant
            i <= found@.len(),
            found@.no_duplicates(),
            ascending(ids@),
            forall|e: Entity| ids@.contains(e) <==> exists|k: int| 0 <= k < i && found@[k] == e,
        decreases found@.len() - i,
    {
        let id = found[i];
        insert_ascending(&mut ids, id);
        proof {
            assert forall|e: Entity| ids@.contains(e) <==> exists|k: int|
                0 <= k < i + 1 && found@[k] == e by {}
        }
        i += 1;
    }
    proof {
        assert forall|id: Entity| ids@.contains(id) <==> contents(*world).contains_key(id) by {}
    }
    ids
}

/// Two ascending lists with the same members are the same list.
pub proof fn lemma_ascending_unique(a: Seq<Entity>, b: Seq<Entity>)
    requires
        ascending(a),
        ascending(b),
        forall|e: Entity| a.contains(e) <==> b.contains(e),
    ensures
        a == b,
    decreases a.len(),
{
    if a.len() == 0 {
        if b.len() > 0 {
            assert(b.contains(b[0]));
        }
    } else {
        let top = a[a.len() - 1];
        assert(a.contains(top));
        let k = choose|k: int| 0 <= k < b.len() && b[k] == top;
        if k < b.len() - 1 {
            let other = b[b.len() - 1];
            assert(b.contains(other));
        }
        let a0 = a.drop_last();
        let b0 = b.drop_last();
        assert forall|e: Entity| a0.contains(e) <==> b0.contains(e) by {
            if a0.contains(e) {
                assert(a.contains(e));
                let n = choose|n: int| 0 <= n < b.len() && b[n] == e;
                assert(b0[n] == e);
            }
            if b0.contains(e) {
                assert(b.contains(e));
                let m = choose|m: int| 0 <= m < a.len() && a[m] == e;
                assert(a0[m] == e);
            }
        }
        lemma_ascending_unique(a0, b0);
        assert(a =~= a0.push(top));
    }
}

} // verus!
