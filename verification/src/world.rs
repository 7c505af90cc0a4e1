use vstd::prelude::*;
use vstd::std_specs::hash::spec_hash_map_iter;
use vstd::std_specs::iter::IteratorSpec;
use std::any::TypeId;
use std::collections::HashMap;
use std::hash::Hash;
use crate::entity::Entity;
use crate::entity::EntityView;
use crate::entity::WrappedComponent;
use crate::entity::stored_types;
use crate::math::BitSet;
use crate::math::Increment;
use crate::math::ComponentSet128;
use crate::math::ComponentSet8;
use crate::math::overlaps;
use crate::math::word_of;
use crate::registry::BitIndex;
use crate::registry::Registry;
use crate::registry::mask_of;
use crate::registry::mask_word;
use crate::registry::register_state;
use crate::registry::type_id_of;

verus! {

/// What a world is: its name, the counter that gave the last id, the entities by id, the
/// systems in the order of their registration, and the position of the system that runs next.
#[verifier::ext_equal]
#[verifier::reject_recursive_types(T)]
pub struct WorldView<T, U: BitSet, F> {
    pub name: &'static str,
    pub counter: T,
    pub entities: Map<T, Entity<T, U>>,
    pub systems: Seq<(U, F)>,
    pub cursor: nat,
}

impl<T, U: BitSet, F> WorldView<T, U, F> {
    /// The ids of the entities whose mask has at least one bit in common with `mask`.
    pub open spec fn matching(self, mask: u128) -> Set<T> {
        Set::new(
            |id: T| self.entities.contains_key(id) && overlaps(self.entities[id]@.mask, mask),
        )
    }

    /// `found` holds each entity that matches `mask` exactly once, and `ids` its id at the
    /// same position. The order is left open.
    pub open spec fn selected(self, mask: u128, ids: Seq<T>, found: Seq<&Entity<T, U>>) -> bool {
        &&& ids.no_duplicates()
        &&& ids.to_set() == self.matching(mask)
        &&& found.len() == ids.len()
        &&& forall|i: int| 0 <= i < ids.len() ==> *#[trigger] found[i] == self.entities[ids[i]]
    }

    /// The system at the cursor, if there is one.
    pub open spec fn current(self) -> Option<(U, F)> {
        if self.cursor < self.systems.len() {
            Some(self.systems[self.cursor as int])
        } else {
            None
        }
    }

    /// The world after `entity` was stored under its id, which becomes the counter.
    pub open spec fn spawned(self, entity: Entity<T, U>) -> WorldView<T, U, F> {
        WorldView {
            counter: entity@.id,
            entities: self.entities.insert(entity@.id, entity),
            ..self
        }
    }

    /// The world after the entity stored under `id` was removed. The counter stays.
    pub open spec fn despawned(self, id: T) -> WorldView<T, U, F> {
        WorldView { entities: self.entities.remove(id), ..self }
    }

    /// The world after one change to its entities.
    pub open spec fn changed(self, change: Change<T, U>) -> WorldView<T, U, F> {
        match change {
            Change::Spawn(entity) => self.spawned(entity),
            Change::Despawn(id) => self.despawned(id),
        }
    }

    /// The world after a sequence of changes, the first of the sequence first.
    pub open spec fn changed_by(self, changes: Seq<Change<T, U>>) -> WorldView<T, U, F>
        decreases changes.len(),
    {
        if changes.len() == 0 {
            self
        } else {
            self.changed_by(changes.drop_last()).changed(changes.last())
        }
    }
}

/// A change to the entities of a world: an entity is stored, or the entity with an id is
/// removed.
pub enum Change<T, U: BitSet> {
    Spawn(Entity<T, U>),
    Despawn(T),
}

impl<T: Increment, U: BitSet, F> WorldView<T, U, F> {
    /// Every entity is stored under its own id, and no id exceeds the counter.
    pub open spec fn entities_wf(self) -> bool {
        forall|id: T| #[trigger]
            self.entities.contains_key(id) ==> self.entities[id]@.id == id && id.value()
                <= self.counter.value()
    }

    /// Whether a change is one that the world makes: a spawned entity has the id next to the
    /// counter.
    pub open spec fn makes(self, change: Change<T, U>) -> bool {
        match change {
            Change::Spawn(entity) => entity@.id.value() == self.counter.value() + 1,
            Change::Despawn(_) => true,
        }
    }

    /// Whether each change of a sequence is one that the world makes when its turn comes.
    pub open spec fn makes_all(self, changes: Seq<Change<T, U>>) -> bool
        decreases changes.len(),
    {
        changes.len() > 0 ==> self.makes_all(changes.drop_last()) && self.changed_by(
            changes.drop_last(),
        ).makes(changes.last())
    }
}

/// Ids are not reused: once the entity with an id is removed, no later spawn or despawn
/// brings that id back, so no query for any mask finds it again.
pub proof fn lemma_despawned_never_returns<T: Increment, U: BitSet, F>(
    world: WorldView<T, U, F>,
    id: T,
    changes: Seq<Change<T, U>>,
    mask: u128,
)
    requires
        world.entities_wf(),
        world.entities.contains_key(id),
        world.despawned(id).makes_all(changes),
    ensures
        !world.despawned(id).changed_by(changes).entities.contains_key(id),
        !world.despawned(id).changed_by(changes).matching(mask).contains(id),
        world.despawned(id).changed_by(changes).entities_wf(),
        world.despawned(id).changed_by(changes).counter.value() >= id.value(),
    decreases changes.len(),
{
    T::lemma_value_identifies();
    if changes.len() > 0 {
        lemma_despawned_never_returns(world, id, changes.drop_last(), mask);
    }
}

impl<T: Increment, U: BitSet, F: Fn(U, Vec<&Entity<T, U>>)> WorldView<T, U, F> {
    /// The entities are well formed, the cursor lies within the list of systems, and every
    /// handler accepts every mask and list of entities.
    pub open spec fn wf(self) -> bool {
        &&& self.entities_wf()
        &&& self.cursor <= self.systems.len()
        &&& forall|i: int, mask: U, found: Vec<&Entity<T, U>>|
            0 <= i < self.systems.len() ==> #[trigger] call_requires(
                self.systems[i].1,
                (mask, found),
            )
    }
}

/// A world: the entity store, the registered systems and the scheduling cursor.
pub struct GenericWorld<T, U: BitSet, F> {
    name: &'static str,
    entity_count: T,
    entities: HashMap<T, Entity<T, U>>,
    systems: Vec<(U, F)>,
    next_system: usize,
}

impl<T, U: BitSet, F> View for GenericWorld<T, U, F> {
    type V = WorldView<T, U, F>;

    closed spec fn view(&self) -> WorldView<T, U, F> {
        WorldView {
            name: self.name,
            counter: self.entity_count,
            entities: self.entities@,
            systems: self.systems@,
            cursor: self.next_system as nat,
        }
    }
}

/// The entity store of a world.
pub trait EntityOps<T, U: BitSet>: Sized {
    /// The counter of ids can still advance.
    spec fn can_spawn(&self) -> bool;

    fn get_entity(&self, id: T) -> Option<&Entity<T, U>>;

    fn spawn(self, registry: &Registry, components: Vec<WrappedComponent>) -> Self
        requires
            self.can_spawn(),
            registry.wf(),
    ;

    fn spawn_empty(self) -> Self
        requires
            self.can_spawn(),
    ;

    fn despawn(self, entity: &Entity<T, U>) -> Self;
}

impl<T: Increment + Eq + Hash, U: BitSet, F: Fn(U, Vec<&Entity<T, U>>)> GenericWorld<T, U, F> {
    /// The counter: the id that was given out last, zero where none was.
    pub fn entity_count(&self) -> (r: T)
        ensures
            r == self@.counter,
    {
        self.entity_count
    }

    /// Advances the counter to the id of `entity` and stores the entity under it.
    fn install(self, entity: Entity<T, U>) -> (r: Self)
        requires
            self@.counter.value() < T::limit(),
            entity@.id.value() == self@.counter.value() + 1,
        ensures
            r@ == self@.spawned(entity),
            self@.wf() ==> r@.wf() && !self@.entities.contains_key(entity@.id),
    {
        proof {
            T::lemma_value_identifies();
        }
        broadcast use vstd::std_specs::hash::group_hash_axioms;

        let mut world = self;
        let id = world.entity_count.increment();
        world.entities.insert(id, entity);
        proof {
            if self@.wf() {
                assert forall|id: T| #[trigger]
                    world@.entities.contains_key(id) implies world@.entities[id]@.id == id
                    && id.value() <= world@.counter.value() by {
                    assert(id == entity@.id || self@.entities.contains_key(id));
                }
            }
        }
        world
    }
}

impl<T: Increment + Eq + Hash, U: BitSet, F: Fn(U, Vec<&Entity<T, U>>)> EntityOps<
    T,
    U,
> for GenericWorld<T, U, F> {
    open spec fn can_spawn(&self) -> bool {
        self@.counter.value() < T::limit()
    }

    /// The entity stored under `id`, if there is one.
    fn get_entity(&self, id: T) -> (r: Option<&Entity<T, U>>)
        ensures
            match r {
                Some(entity) => self@.entities.contains_key(id) && *entity == self@.entities[id],
                None => !self@.entities.contains_key(id),
            },
    {
        proof {
            T::lemma_value_identifies();
        }
        broadcast use vstd::std_specs::hash::group_hash_axioms;

        self.entities.get(&id)
    }

    /// Stores a new entity under the next id, with the given components attached in order,
    /// each under the index that the registry has for its stored type.
    fn spawn(self, registry: &Registry, components: Vec<WrappedComponent>) -> (r: Self)
        ensures
            r@.counter.value() == self@.counter.value() + 1,
            exists|entity: Entity<T, U>|
                {
                    &&& entity@ == EntityView::empty(r@.counter).attach_all(
                        U::width(),
                        registry@.lookup_all(stored_types(components@)),
                        components@,
                    )
                    &&& r@ == #[trigger] self@.spawned(entity)
                },
            self@.wf() ==> r@.wf() && !self@.entities.contains_key(r@.counter),
    {
        let mut next = self.entity_count;
        let id = next.increment();
        let entity = Entity::new(id).add_many(registry, components);
        self.install(entity)
    }

    /// Stores a new entity without components under the next id.
    fn spawn_empty(self) -> (r: Self)
        ensures
            r@.counter.value() == self@.counter.value() + 1,
            exists|entity: Entity<T, U>|
                entity@ == EntityView::empty(r@.counter) && r@ == #[trigger] self@.spawned(entity),
            self@.wf() ==> r@.wf() && !self@.entities.contains_key(r@.counter),
    {
        let mut next = self.entity_count;
        let id = next.increment();
        let entity = Entity::new(id);
        self.install(entity)
    }

    /// Removes the entity stored under the id of `entity`, if there is one. The counter stays,
    /// so the id is not given out again.
    fn despawn(self, entity: &Entity<T, U>) -> (r: Self)
        ensures
            r@ == self@.despawned(entity@.id),
            self@.wf() ==> r@.wf(),
    {
        proof {
            T::lemma_value_identifies();
        }
        broadcast use vstd::std_specs::hash::group_hash_axioms;

        let mut world = self;
        world.entities.remove(entity.id());
        proof {
            if self@.wf() {
                assert forall|id: T| #[trigger]
                    world@.entities.contains_key(id) implies world@.entities[id]@.id == id
                    && id.value() <= world@.counter.value() by {
                    assert(self@.entities.contains_key(id));
                }
            }
        }
        world
    }
}

impl<T: Increment + Eq + Hash, U: BitSet, F> GenericWorld<T, U, F> {
    /// What a walk over the whole entity map has picked is a selection for `mask`: `picked`
    /// holds the positions in the walk of those entities that overlap `mask`.
    proof fn lemma_selected(
        &self,
        mask: U,
        ids: Seq<T>,
        picked: Seq<int>,
        found: Seq<&Entity<T, U>>,
    )
        requires
            vstd::std_specs::hash::obeys_key_model::<T>(),
            spec_hash_map_iter(&self.entities).remaining().no_duplicates(),
            ids.len() == found.len(),
            picked.len() == found.len(),
            forall|i: int, j: int| 0 <= i < j < picked.len() ==> picked[i] < picked[j],
            forall|j: int|
                0 <= j < picked.len() ==> 0 <= #[trigger] picked[j] < spec_hash_map_iter(
                    &self.entities,
                ).remaining().len() && *spec_hash_map_iter(
                    &self.entities,
                ).remaining()[picked[j]].0 == ids[j] && *spec_hash_map_iter(
                    &self.entities,
                ).remaining()[picked[j]].1 == *found[j] && overlaps(found[j]@.mask, mask.word()),
            forall|p: int|
                0 <= p < spec_hash_map_iter(&self.entities).remaining().len() && overlaps(
                    (#[trigger] spec_hash_map_iter(&self.entities).remaining()[p]).1@.mask,
                    mask.word(),
                ) ==> picked.contains(p),
        ensures
            self@.selected(mask.word(), ids, found),
    {
        broadcast use vstd::std_specs::hash::group_hash_axioms;

        let all = spec_hash_map_iter(&self.entities).remaining();
        let view = self@;
        assert forall|i: int, j: int| 0 <= i < j < ids.len() implies ids[i] != ids[j] by {
            if ids[i] == ids[j] {
                let a = picked[i];
                let b = picked[j];
                assert(self.entities@[*all[a].0] == *all[a].1);
                assert(self.entities@[*all[b].0] == *all[b].1);
                assert(all[a] == all[b]);
                assert(a == b);
            }
        }
        assert forall|id: T| ids.to_set().contains(id) <==> view.matching(mask.word()).contains(
            id,
        ) by {
            if ids.to_set().contains(id) {
                let j = choose|j: int| 0 <= j < ids.len() && ids[j] == id;
                let a = picked[j];
                assert(self.entities@.contains_key(*all[a].0));
                assert(self.entities@[*all[a].0] == *all[a].1);
            }
            if view.matching(mask.word()).contains(id) {
                let wanted = (&id, &self.entities@[id]);
                assert(all.contains(wanted));
                let p = choose|p: int| 0 <= p < all.len() && all[p] == wanted;
                assert(picked.contains(p));
                let j = choose|j: int| 0 <= j < picked.len() && picked[j] == p;
                assert(ids[j] == id);
            }
        }
        assert(ids.to_set() =~= view.matching(mask.word()));
        assert forall|i: int| 0 <= i < ids.len() implies *#[trigger] found[i]
            == view.entities[ids[i]] by {
            let a = picked[i];
            assert(self.entities@[*all[a].0] == *all[a].1);
        }
    }
}

/// Construction, naming and querying of a world.
pub trait WorldOps<T, U: BitSet>: Sized {
    fn new(name: &'static str) -> Self;

    fn query(&self, mask: U) -> Vec<&Entity<T, U>>;

    fn name(&self) -> &'static str;
}

impl<T: Increment + Eq + Hash, U: BitSet, F: Fn(U, Vec<&Entity<T, U>>)> WorldOps<
    T,
    U,
> for GenericWorld<T, U, F> {
    /// A world with the given name, no entity and no system; its counter is at zero, so the
    /// first id is one.
    fn new(name: &'static str) -> (r: Self)
        ensures
            r@.name == name,
            r@.counter.value() == 0,
            r@.entities == Map::<T, Entity<T, U>>::empty(),
            r@.systems == Seq::<(U, F)>::empty(),
            r@.cursor == 0,
            r@.wf(),
    {
        let start = T::default();
        proof {
            T::lemma_default_is_zero(start);
        }
        Self {
            name,
            entity_count: start,
            entities: HashMap::new(),
            systems: Vec::new(),
            next_system: 0,
        }
    }

    /// The entities whose mask has at least one bit in common with `mask`, each once, in no
    /// particular order.
    fn query(&self, mask: U) -> (r: Vec<&Entity<T, U>>)
        ensures
            exists|ids: Seq<T>| #[trigger] self@.selected(mask.word(), ids, r@),
    {
        proof {
            T::lemma_value_identifies();
        }
        broadcast use vstd::std_specs::hash::group_hash_axioms;

        let ghost mut seen: int = 0;
        let ghost mut ids: Seq<T> = Seq::empty();
        let ghost mut picked: Seq<int> = Seq::empty();
        let mut found: Vec<&Entity<T, U>> = Vec::new();
        for pair in it: self.entities.iter()
            invariant
                it.seq().no_duplicates(),
                it.seq() == spec_hash_map_iter(&self.entities).remaining(),
                seen == it.index(),
                0 <= seen <= spec_hash_map_iter(&self.entities).remaining().len(),
                ids.len() == found@.len(),
                picked.len() == found@.len(),
                forall|i: int, j: int| 0 <= i < j < picked.len() ==> picked[i] < picked[j],
                forall|j: int|
                    0 <= j < picked.len() ==> 0 <= #[trigger] picked[j] < seen
                        && *spec_hash_map_iter(&self.entities).remaining()[picked[j]].0 == ids[j]
                        && *spec_hash_map_iter(&self.entities).remaining()[picked[j]].1
                        == *found@[j] && overlaps(found@[j]@.mask, mask.word()),
                forall|p: int|
                    0 <= p < seen && overlaps(
                        (#[trigger] spec_hash_map_iter(&self.entities).remaining()[p]).1@.mask,
                        mask.word(),
                    ) ==> picked.contains(p),
        {
            let (key, entity) = pair;
            if entity.bitmap().contains(mask) {
                found.push(entity);
                proof {
                    let grown = picked.push(seen);
                    assert forall|p: int|
                        0 <= p < seen + 1 && overlaps(
                            (#[trigger] spec_hash_map_iter(&self.entities).remaining()[p]).1@.mask,
                            mask.word(),
                        ) implies grown.contains(p) by {
                        if p < seen {
                            let j = choose|j: int| 0 <= j < picked.len() && picked[j] == p;
                            assert(grown[j] == p);
                        } else {
                            assert(grown[picked.len() as int] == p);
                        }
                    }
                    ids = ids.push(*key);
                    picked = grown;
                }
            }
            proof {
                seen = seen + 1;
            }
        }
        proof {
            assert(seen == spec_hash_map_iter(&self.entities).remaining().len());
            self.lemma_selected(mask, ids, picked, found@);
        }
        found
    }

    /// The name the world was made with.
    fn name(&self) -> (r: &'static str)
        ensures
            r == self@.name,
    {
        self.name
    }
}

impl<T: Increment + Eq + Hash, U: BitSet, F: Fn(U, Vec<&Entity<T, U>>)> Default for GenericWorld<
    T,
    U,
    F,
> {
    /// The world without a name, entity or system.
    fn default() -> (r: Self)
        ensures
            r@.name == "",
            r@.counter.value() == 0,
            r@.entities == Map::<T, Entity<T, U>>::empty(),
            r@.systems == Seq::<(U, F)>::empty(),
            r@.cursor == 0,
            r@.wf(),
    {
        Self::new("")
    }
}

/// The list of systems of a world. A system is a mask and the handler that receives the
/// entities matching it.
pub trait System<T, U: BitSet, F: Fn(U, Vec<&Entity<T, U>>)> {
    fn add_system(&mut self, mask: U, f: F)
        requires
            forall|any: U, found: Vec<&Entity<T, U>>| #[trigger] call_requires(f, (any, found)),
    ;

    fn next(&self) -> Option<(U, F)>;
}

impl<T: Increment + Eq + Hash, U: BitSet, F: Fn(U, Vec<&Entity<T, U>>) + Copy> System<
    T,
    U,
    F,
> for GenericWorld<T, U, F> {
    /// Appends a system behind those registered so far. Nothing else changes.
    fn add_system(&mut self, mask: U, f: F)
        ensures
            final(self)@ == (WorldView {
                systems: old(self)@.systems.push((mask, f)),
                ..old(self)@
            }),
            old(self)@.wf() ==> final(self)@.wf(),
    {
        self.systems.push((mask, f));
    }

    /// The system at the cursor, if there is one. The cursor stays where it is.
    fn next(&self) -> (r: Option<(U, F)>)
        ensures
            r == self@.current(),
    {
        if self.systems.len() > self.next_system {
            let system = self.systems[self.next_system];
            return Some(system);
        }
        None
    }
}

/// One step of the scheduler.
pub trait Runnable<T, U: BitSet, F: Fn(U, Vec<&Entity<T, U>>)>: System<T, U, F> + WorldOps<T, U> {
    /// Every registered handler accepts whatever it is handed.
    spec fn can_run(&self) -> bool;

    fn run(&self)
        requires
            self.can_run(),
    ;
}

impl<T: Increment + Eq + Hash, U: BitSet, F: Fn(U, Vec<&Entity<T, U>>) + Copy> Runnable<
    T,
    U,
    F,
> for GenericWorld<T, U, F> {
    open spec fn can_run(&self) -> bool {
        self@.wf()
    }

    /// Runs the system at the cursor once: where entities match its mask, its handler is
    /// called with the mask and those entities. Without a system at the cursor, or without a
    /// matching entity, nothing is called. The world, and so the cursor, stays as it is.
    fn run(&self)
        ensures
            match self@.current() {
                Some((mask, f)) => !self@.matching(mask.word()).is_empty() ==> exists|
                    ids: Seq<T>,
                    found: Vec<&Entity<T, U>>,
                |
                    #[trigger] self@.selected(mask.word(), ids, found@) && call_ensures(
                        f,
                        (mask, found),
                        (),
                    ),
                None => true,
            },
    {
        if let Some((mask, f)) = self.next() {
            let entities = self.query(mask);
            let ghost ids = choose|ids: Seq<T>| #[trigger]
                self@.selected(mask.word(), ids, entities@);
            if entities.len() > 0 {
                let ghost handed = entities;
                f(mask, entities);
                assert(self@.selected(mask.word(), ids, handed@) && call_ensures(
                    f,
                    (mask, handed),
                    (),
                ));
            } else {
                assert(ids.to_set() =~= Set::<T>::empty());
            }
        }
    }
}

/// The registry as seen from a world whose masks are of type `U`.
pub trait Register<U: BitSet> {
    /// Asks for room in the registry also where `A` is registered already, because the
    /// identity of `A` is known only once the call is under way. [`register_state`] takes
    /// the identity as an argument and asks for room only for a new type.
    fn register<A: 'static>(registry: &mut Registry)
        requires
            old(registry).wf(),
            old(registry)@.has_room(),
        ensures
            final(registry).wf(),
            exists|t: TypeId| final(registry)@ == #[trigger] old(registry)@.register(t),
    ;

    fn get_id(registry: &Registry, type_id: TypeId) -> (r: Option<BitIndex>)
        requires
            registry.wf(),
        ensures
            r == registry@.lookup(type_id),
    ;

    fn mask<A: 'static>(registry: &Registry) -> (r: Option<U>)
        requires
            registry.wf(),
        ensures
            exists|t: TypeId| word_of(r) == mask_word(U::width(), #[trigger] registry@.lookup(t)),
    ;
}

impl<T, U: BitSet, F> Register<U> for GenericWorld<T, U, F> {
    /// Registers the type `A`: see [`register_state`].
    fn register<A: 'static>(registry: &mut Registry) {
        register_state(registry, type_id_of::<A>());
    }

    /// The index of a registered type; `None` for `()` and for unregistered types.
    fn get_id(registry: &Registry, type_id: TypeId) -> (r: Option<BitIndex>) {
        registry.lookup(type_id)
    }

    /// The mask of the type `A`: see [`mask_of`].
    fn mask<A: 'static>(registry: &Registry) -> (r: Option<U>) {
        mask_of(registry, type_id_of::<A>())
    }
}

/// A world of at most 8 component types, with plain functions as handlers.
pub type PrimitiveWorld = GenericWorld<
    u8,
    ComponentSet8,
    fn(ComponentSet8, Vec<&Entity<u8, ComponentSet8>>),
>;

/// A world of up to 128 component types, with plain functions as handlers.
pub type World = GenericWorld<
    u128,
    ComponentSet128,
    fn(ComponentSet128, Vec<&Entity<u128, ComponentSet128>>),
>;

} // verus!
