use vstd::prelude::*;
use std::any::Any;
use std::any::TypeId;
use std::cell::RefCell;
use crate::math::BitSet;
use crate::math::bit_word;
use crate::math::has_bit;
use crate::math::lemma_set_bit;
use crate::registry::BitIndex;
use crate::registry::Registry;

verus! {

/// A component value of any type behind its own guard, a `std::cell::RefCell`: at most one
/// writer or any number of readers at a time, checked when the program runs. The value is
/// not modelled: a component is moved and stored as a whole, and of the value it holds only
/// the type is spoken of, through [`stored_type`].
#[verifier::external_body]
pub struct WrappedComponent {
    pub cell: RefCell<Box<dyn Any>>,
}

/// The identity of the type of the value that a component holds when it is handed over, as
/// `Any::type_id` gives it for that value. Replacing the value by one of another type
/// through the guard, once the component is stored, is outside the model.
pub uninterp spec fn stored_type(component: WrappedComponent) -> TypeId;

/// The stored type of each component of a sequence, position by position.
pub open spec fn stored_types(components: Seq<WrappedComponent>) -> Seq<TypeId> {
    components.map_values(|component: WrappedComponent| stored_type(component))
}

/// Calls `RefCell::get_mut` and, on the value it gives, `Any::type_id`, to read the identity
/// of the type of the value that the component holds: the component's stored type. Both
/// calls stand here because what `get_mut` returns, a reference to a `Box<dyn Any>`, cannot
/// be handed on to another function of this file. The component is left as it was.
#[verifier::external_body]
pub(crate) fn component_type(component: &mut WrappedComponent) -> (r: TypeId)
    ensures
        *final(component) == *old(component),
        r == stored_type(*old(component)),
{
    (**component.cell.get_mut()).type_id()
}

/// What an entity is: its id, its mask as a word, and its components in the order in which
/// they were attached.
#[verifier::ext_equal]
pub struct EntityView<T> {
    pub id: T,
    pub mask: u128,
    pub components: Seq<WrappedComponent>,
}

impl<T> EntityView<T> {
    /// The entity with no component and an empty mask.
    pub open spec fn empty(id: T) -> EntityView<T> {
        EntityView { id, mask: 0, components: Seq::empty() }
    }

    /// Whether a component with this index is stored in a mask of `width` bits.
    pub open spec fn accepts(width: nat, index: Option<BitIndex>) -> bool {
        index matches Some(i) && 0 <= i < width
    }

    /// Attaching a component whose type has index `index`: where the index has a bit in the
    /// mask, that bit is set and the component is appended, also when the bit was set
    /// before; otherwise the entity stays as it is and the component is dropped.
    pub open spec fn attach(
        self,
        width: nat,
        index: Option<BitIndex>,
        component: WrappedComponent,
    ) -> EntityView<T> {
        if Self::accepts(width, index) {
            EntityView {
                id: self.id,
                mask: self.mask | bit_word(index->0 as u8),
                components: self.components.push(component),
            }
        } else {
            self
        }
    }

    /// Attaching several components in order, the component at each position with the index
    /// at that position.
    pub open spec fn attach_all(
        self,
        width: nat,
        indices: Seq<Option<BitIndex>>,
        components: Seq<WrappedComponent>,
    ) -> EntityView<T>
        decreases components.len(),
    {
        if components.len() == 0 || indices.len() != components.len() {
            self
        } else {
            self.attach_all(width, indices.drop_last(), components.drop_last()).attach(
                width,
                indices.last(),
                components.last(),
            )
        }
    }
}

/// Attaching components never changes the id.
pub proof fn lemma_attach_all_keeps_id<T>(
    entity: EntityView<T>,
    width: nat,
    indices: Seq<Option<BitIndex>>,
    components: Seq<WrappedComponent>,
)
    ensures
        entity.attach_all(width, indices, components).id == entity.id,
    decreases components.len(),
{
    if components.len() != 0 && indices.len() == components.len() {
        lemma_attach_all_keeps_id(entity, width, indices.drop_last(), components.drop_last());
    }
}

/// The mask records which types were stored: after attaching components, a position of the
/// mask is set exactly when it was set before or is the index of one of the components.
pub proof fn lemma_attach_all_mask<T>(
    entity: EntityView<T>,
    width: nat,
    indices: Seq<Option<BitIndex>>,
    components: Seq<WrappedComponent>,
    bit: u8,
)
    requires
        width <= 128,
        indices.len() == components.len(),
        bit < width,
    ensures
        has_bit(entity.attach_all(width, indices, components).mask, bit) <==> (has_bit(
            entity.mask,
            bit,
        ) || exists|j: int|
            0 <= j < indices.len() && #[trigger] indices[j] == Some(bit as BitIndex)),
    decreases components.len(),
{
    if components.len() > 0 {
        let front = indices.drop_last();
        let before = entity.attach_all(width, front, components.drop_last());
        lemma_attach_all_mask(entity, width, front, components.drop_last(), bit);
        if EntityView::<T>::accepts(width, indices.last()) {
            lemma_set_bit(before.mask, indices.last()->0 as u8, bit);
        }
        if exists|j: int| 0 <= j < front.len() && #[trigger] front[j] == Some(bit as BitIndex) {
            let j = choose|j: int|
                0 <= j < front.len() && #[trigger] front[j] == Some(bit as BitIndex);
            assert(indices[j] == Some(bit as BitIndex));
        }
        if exists|j: int| 0 <= j < indices.len() && #[trigger] indices[j] == Some(bit as BitIndex) {
            let j = choose|j: int|
                0 <= j < indices.len() && #[trigger] indices[j] == Some(bit as BitIndex);
            if j < front.len() {
                assert(front[j] == Some(bit as BitIndex));
            }
        }
    }
}

/// An entity: an id, the mask of the component types it owns, and the components themselves.
pub struct Entity<T, U: BitSet> {
    id: T,
    bitmap: U,
    components: Vec<WrappedComponent>,
}

impl<T, U: BitSet> View for Entity<T, U> {
    type V = EntityView<T>;

    closed spec fn view(&self) -> EntityView<T> {
        EntityView { id: self.id, mask: self.bitmap.word(), components: self.components@ }
    }
}

impl<T, U: BitSet> Entity<T, U> {
    /// An entity with an empty mask and no component.
    pub fn new(id: T) -> (r: Self)
        ensures
            r@ == EntityView::empty(id),
    {
        Self { id, bitmap: U::initialise(), components: Vec::new() }
    }

    /// The entity's id.
    pub fn id(&self) -> (r: &T)
        ensures
            *r == self@.id,
    {
        &self.id
    }

    /// The entity's mask.
    pub fn bitmap(&self) -> (r: U)
        ensures
            r.word() == self@.mask,
    {
        self.bitmap
    }

    /// The entity's components, in the order in which they were attached.
    pub fn components(&self) -> (r: &Vec<WrappedComponent>)
        ensures
            r@ == self@.components,
    {
        &self.components
    }

    /// Attaches a component whose type has the given index, as [`EntityView::attach`] says.
    pub fn attach(self, index: Option<BitIndex>, component: WrappedComponent) -> (r: Self)
        ensures
            r@ == self@.attach(U::width(), index, component),
    {
        let mut entity = self;
        if let Some(id) = index {
            if id >= 0 {
                if let Ok(_) = entity.bitmap.set(id as u8) {
                    entity.components.push(component);
                }
            }
        }
        entity
    }

    /// Attaches a component under the index that the registry has for its stored type. A
    /// component of an unregistered type is dropped without a signal.
    pub fn add(self, registry: &Registry, component: WrappedComponent) -> (r: Self)
        requires
            registry.wf(),
        ensures
            r@ == self@.attach(
                U::width(),
                registry@.lookup(stored_type(component)),
                component,
            ),
    {
        let mut component = component;
        let type_id = component_type(&mut component);
        self.attach(registry.lookup(type_id), component)
    }

    /// Attaches the components in order, each as [`Entity::add`] does.
    pub fn add_many(self, registry: &Registry, components: Vec<WrappedComponent>) -> (r: Self)
        requires
            registry.wf(),
        ensures
            r@ == self@.attach_all(
                U::width(),
                registry@.lookup_all(stored_types(components@)),
                components@,
            ),
            r@.id == self@.id,
    {
        broadcast use vstd::std_specs::vec::axiom_spec_into_iter;

        let ghost start = self@;
        let ghost all = components@;
        let mut entity = self;
        for component in it: components.into_iter()
            invariant
                registry.wf(),
                it.seq() == all,
                entity@ == start.attach_all(
                    U::width(),
                    registry@.lookup_all(stored_types(all.take(it.index()))),
                    all.take(it.index()),
                ),
        {
            let ghost done = it.index();
            entity = entity.add(registry, component);
            proof {
                let prefix = all.take(done + 1);
                let indices = registry@.lookup_all(stored_types(prefix));
                assert(prefix.drop_last() == all.take(done));
                assert(indices.drop_last() == registry@.lookup_all(stored_types(all.take(done))));
                assert(prefix.last() == component);
                assert(indices.last() == registry@.lookup(stored_type(component)));
            }
        }
        proof {
            assert(all.take(all.len() as int) == all);
            lemma_attach_all_keeps_id(
                start,
                U::width(),
                registry@.lookup_all(stored_types(all)),
                all,
            );
        }
        entity
    }
}

} // verus!
