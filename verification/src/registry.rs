use vstd::prelude::*;
use std::any::TypeId;
use crate::math::BitSet;
use crate::math::bit_word;
use crate::math::word_of;

verus! {

/// The position of a component type's bit in a mask. Indices 0 to 127 cover masks of up to
/// 128 bits.
pub type BitIndex = i8;

/// `std::any::TypeId`, the identity of a component type. Nothing is known of a value but
/// whether it equals another.
#[verifier::external_type_specification]
#[verifier::external_body]
pub struct ExTypeId(TypeId);

/// Calls `TypeId::of::<A>()`. Nothing is claimed of the identity it returns.
#[verifier::external_body]
pub(crate) fn type_id_of<A: 'static>() -> (r: TypeId) {
    TypeId::of::<A>()
}

/// Calls `==` of `TypeId`, which holds exactly when both identities are the same one.
#[verifier::external_body]
pub(crate) fn same_type(a: &TypeId, b: &TypeId) -> (r: bool)
    ensures
        r == (*a == *b),
{
    a == b
}

/// What a registry holds: the index assigned to each registered type, the counter that the
/// next new type will get, and the identity of the placeholder type `()`.
#[verifier::ext_equal]
pub struct RegistryView {
    pub indices: Map<TypeId, BitIndex>,
    pub counter: int,
    pub placeholder: TypeId,
}

impl RegistryView {
    /// Some registered type has the index `i`.
    pub open spec fn assigned(self, i: int) -> bool {
        exists|t: TypeId| self.indices.contains_key(t) && #[trigger] self.indices[t] == i
    }

    /// Indices are unique, and they are exactly the values below the counter. The counter
    /// ends at 128, when every value of an index has been given out.
    pub open spec fn wf(self) -> bool {
        &&& 0 <= self.counter <= BitIndex::MAX + 1
        &&& forall|t: TypeId| #[trigger]
            self.indices.contains_key(t) ==> 0 <= self.indices[t] < self.counter
        &&& forall|a: TypeId, b: TypeId|
            #![trigger self.indices[a], self.indices[b]]
            self.indices.contains_key(a) && self.indices.contains_key(b) && self.indices[a]
                == self.indices[b] ==> a == b
        &&& forall|i: int| 0 <= i < self.counter ==> #[trigger] self.assigned(i)
    }

    /// The counter is still the value of an index, so one more type can be registered.
    pub open spec fn has_room(self) -> bool {
        self.counter <= BitIndex::MAX
    }

    /// Registration: a new type takes the counter's value and advances the counter; a type
    /// that is already registered changes nothing.
    pub open spec fn register(self, t: TypeId) -> RegistryView {
        if self.indices.contains_key(t) {
            self
        } else {
            RegistryView {
                indices: self.indices.insert(t, self.counter as BitIndex),
                counter: self.counter + 1,
                placeholder: self.placeholder,
            }
        }
    }

    /// Registration of several types, one after the other.
    pub open spec fn register_all(self, ts: Seq<TypeId>) -> RegistryView
        decreases ts.len(),
    {
        if ts.len() == 0 {
            self
        } else {
            self.register_all(ts.drop_last()).register(ts.last())
        }
    }

    /// The index of a type: the placeholder type and unregistered types have none.
    pub open spec fn lookup(self, t: TypeId) -> Option<BitIndex> {
        if t != self.placeholder && self.indices.contains_key(t) {
            Some(self.indices[t])
        } else {
            None
        }
    }

    /// The index of each type of a sequence, position by position.
    pub open spec fn lookup_all(self, ts: Seq<TypeId>) -> Seq<Option<BitIndex>> {
        ts.map_values(|t: TypeId| self.lookup(t))
    }
}

/// Registration keeps a registry well formed while the counter can advance.
pub proof fn lemma_register_wf(v: RegistryView, t: TypeId)
    requires
        v.wf(),
        v.indices.contains_key(t) || v.has_room(),
    ensures
        v.register(t).wf(),
        v.register(t).indices.contains_key(t),
        v.counter <= v.register(t).counter <= v.counter + 1,
        forall|o: TypeId| #[trigger]
            v.indices.contains_key(o) ==> v.register(t).indices.contains_key(o) && v.register(
                t,
            ).indices[o] == v.indices[o],
{
    let after = v.register(t);
    assert forall|i: int| 0 <= i < after.counter implies #[trigger] after.assigned(i) by {
        if i < v.counter {
            assert(v.assigned(i));
            let holder = choose|o: TypeId|
                v.indices.contains_key(o) && #[trigger] v.indices[o] == i;
            assert(after.indices.contains_key(holder) && after.indices[holder] == i);
        } else {
            assert(after.indices.contains_key(t) && after.indices[t] == i);
        }
    }
}

/// Registering the same type twice yields the same index both times, and the second
/// registration changes nothing.
pub proof fn lemma_register_twice(v: RegistryView, t: TypeId)
    requires
        v.wf(),
        v.indices.contains_key(t) || v.has_room(),
    ensures
        v.register(t).register(t) == v.register(t),
        v.register(t).register(t).indices[t] == v.register(t).indices[t],
{
}

/// Registering `ts.len()` distinct new types yields sequential indices that start at the
/// value the counter had before the first of them: the type at position `i` gets
/// `counter + i`. So the indices are distinct, and the counter ends `ts.len()` higher.
pub proof fn lemma_register_sequential(v: RegistryView, ts: Seq<TypeId>)
    requires
        v.wf(),
        ts.no_duplicates(),
        forall|i: int| 0 <= i < ts.len() ==> !v.indices.contains_key(#[trigger] ts[i]),
        v.counter + ts.len() <= BitIndex::MAX + 1,
    ensures
        v.register_all(ts).wf(),
        v.register_all(ts).counter == v.counter + ts.len(),
        forall|i: int|
            0 <= i < ts.len() ==> v.register_all(ts).indices.contains_key(#[trigger] ts[i])
                && v.register_all(ts).indices[ts[i]] == v.counter + i,
        forall|o: TypeId| #[trigger]
            v.indices.contains_key(o) ==> v.register_all(ts).indices.contains_key(o)
                && v.register_all(ts).indices[o] == v.indices[o],
        forall|o: TypeId| #[trigger]
            v.register_all(ts).indices.contains_key(o) ==> v.indices.contains_key(o)
                || ts.contains(o),
    decreases ts.len(),
{
    if ts.len() > 0 {
        let front = ts.drop_last();
        let before = v.register_all(front);
        lemma_register_sequential(v, front);
        assert forall|i: int| 0 <= i < front.len() implies !v.indices.contains_key(
            #[trigger] front[i],
        ) by {
            assert(front[i] == ts[i]);
        }
        assert(!before.indices.contains_key(ts.last())) by {
            if before.indices.contains_key(ts.last()) {
                assert(front.contains(ts.last()));
                let j = choose|j: int| 0 <= j < front.len() && front[j] == ts.last();
                assert(ts[j] == ts[ts.len() - 1]);
            }
        }
        lemma_register_wf(before, ts.last());
        let after = before.register(ts.last());
        assert forall|i: int| 0 <= i < ts.len() implies after.indices.contains_key(
            #[trigger] ts[i],
        ) && after.indices[ts[i]] == v.counter + i by {
            if i < front.len() {
                assert(front[i] == ts[i]);
            }
        }
        assert forall|o: TypeId| #[trigger]
            after.indices.contains_key(o) implies v.indices.contains_key(o) || ts.contains(
            o,
        ) by {
            if o == ts.last() {
                assert(ts[ts.len() - 1] == o);
            } else if !v.indices.contains_key(o) {
                assert(front.contains(o));
                let j = choose|j: int| 0 <= j < front.len() && front[j] == o;
                assert(ts[j] == o);
            }
        }
    }
}

/// The process-wide table of component types: each registered type has a bit index, assigned
/// in the order of registration and never reused.
pub struct Registry {
    /// The registered types; a type's index is its position.
    types: Vec<TypeId>,
    /// The identity of `()`, which stands for "no type" and never has an index.
    placeholder: TypeId,
}

impl View for Registry {
    type V = RegistryView;

    closed spec fn view(&self) -> RegistryView {
        RegistryView {
            indices: Map::new(
                |t: TypeId| self.types@.contains(t),
                |t: TypeId| self.types@.index_of(t) as BitIndex,
            ),
            counter: self.types@.len() as int,
            placeholder: self.placeholder,
        }
    }
}

impl Registry {
    /// The registry's invariant.
    pub closed spec fn wf(&self) -> bool {
        &&& self.types@.no_duplicates()
        &&& self.types@.len() <= BitIndex::MAX + 1
    }

    /// A well-formed registry has a well-formed view.
    pub proof fn lemma_view_wf(&self)
        requires
            self.wf(),
        ensures
            self@.wf(),
    {
        let v = self@;
        assert forall|t: TypeId| #[trigger] v.indices.contains_key(t) implies 0 <= v.indices[t]
            < v.counter by {
            self.lemma_position(t);
        }
        assert forall|a: TypeId, b: TypeId|
            #![trigger v.indices[a], v.indices[b]]
            v.indices.contains_key(a) && v.indices.contains_key(b) && v.indices[a]
                == v.indices[b] implies a == b by {
            self.lemma_position(a);
            self.lemma_position(b);
        }
        assert forall|i: int| 0 <= i < v.counter implies #[trigger] v.assigned(i) by {
            let holder = self.types@[i];
            assert(self.types@.contains(holder));
            self.lemma_position(holder);
            assert(v.indices.contains_key(holder) && v.indices[holder] == i);
        }
    }

    proof fn lemma_position(&self, t: TypeId)
        requires
            self.wf(),
            self.types@.contains(t),
        ensures
            0 <= self.types@.index_of(t) < self.types@.len(),
            self.types@[self.types@.index_of(t)] == t,
            self@.indices[t] == self.types@.index_of(t),
    {
        let i = choose|i: int| 0 <= i < self.types@.len() && self.types@[i] == t;
        assert(0 <= i < self.types@.len() && self.types@[i] == t);
    }

    /// An empty registry: no type has an index, and the counter is zero. Its placeholder is
    /// the identity that `TypeId::of` gives for `()`.
    pub fn new() -> (r: Self)
        ensures
            r.wf(),
            r@.indices == Map::<TypeId, BitIndex>::empty(),
            r@.counter == 0,
    {
        let r = Registry { types: Vec::new(), placeholder: type_id_of::<()>() };
        assert(r@.indices =~= Map::<TypeId, BitIndex>::empty());
        r
    }

    /// The counter: the number of registered types, which is the index that the next new
    /// type will get while there is room.
    pub fn counter(&self) -> (r: u8)
        requires
            self.wf(),
        ensures
            r == self@.counter,
    {
        self.types.len() as u8
    }

    /// Whether one more type can be registered.
    pub fn has_room(&self) -> (r: bool)
        ensures
            r == self@.has_room(),
    {
        self.types.len() < 128
    }

    /// The position of a type among the registered ones, the placeholder included.
    pub fn position(&self, type_id: TypeId) -> (r: Option<BitIndex>)
        requires
            self.wf(),
        ensures
            r == (if self@.indices.contains_key(type_id) {
                Some(self@.indices[type_id])
            } else {
                None
            }),
    {
        let mut i: usize = 0;
        while i < self.types.len()
            invariant
                self.wf(),
                i <= self.types@.len(),
                forall|j: int| 0 <= j < i ==> self.types@[j] != type_id,
            decreases self.types@.len() - i,
        {
            if same_type(&self.types[i], &type_id) {
                proof {
                    self.lemma_position(type_id);
                }
                return Some(i as BitIndex);
            }
            i = i + 1;
        }
        None
    }

    /// The index of a registered type; `None` for the placeholder and for unregistered types.
    pub fn lookup(&self, type_id: TypeId) -> (r: Option<BitIndex>)
        requires
            self.wf(),
        ensures
            r == self@.lookup(type_id),
    {
        if same_type(&self.placeholder, &type_id) {
            None
        } else {
            self.position(type_id)
        }
    }
}

/// Registers a type: a type seen for the first time takes the counter's value as its index and
/// the counter advances by one; a type that is already registered keeps its index.
pub fn register_state(state: &mut Registry, type_id: TypeId)
    requires
        old(state).wf(),
        old(state)@.indices.contains_key(type_id) || old(state)@.has_room(),
    ensures
        final(state).wf(),
        final(state)@ == old(state)@.register(type_id),
{
    if state.position(type_id).is_none() {
        let ghost before = state.types@;
        state.types.push(type_id);
        proof {
            assert(state.types@ == before.push(type_id));
            assert(state.types@.no_duplicates());
            assert forall|t: TypeId| #[trigger] state.types@.contains(t) implies before.contains(t)
                || t == type_id by {
                let i = choose|i: int| 0 <= i < state.types@.len() && state.types@[i] == t;
                if i < before.len() {
                    assert(before[i] == t);
                }
            }
            assert forall|t: TypeId| before.contains(t) implies #[trigger] state.types@.contains(t)
                && state.types@.index_of(t) == before.index_of(t) by {
                let i = choose|i: int| 0 <= i < before.len() && before[i] == t;
                assert(state.types@[i] == t);
                old(state).lemma_position(t);
                state.lemma_position(t);
            }
            assert(state.types@[before.len() as int] == type_id);
            assert(state.types@.contains(type_id));
            state.lemma_position(type_id);
            assert(state@.indices =~= old(state)@.register(type_id).indices);
        }
    }
}

/// The mask word for a type with the given index in a mask of `width` bits: the single bit
/// at the index, zero for a type without an index, and none where the index has no bit.
pub open spec fn mask_word(width: nat, index: Option<BitIndex>) -> Option<u128> {
    match index {
        None => Some(0),
        Some(i) => if 0 <= i < width {
            Some(bit_word(i as u8))
        } else {
            None
        },
    }
}

/// The mask for a type with the given index, as [`mask_word`] says.
pub fn index_mask<U: BitSet>(index: Option<BitIndex>) -> (r: Option<U>)
    ensures
        word_of(r) == mask_word(U::width(), index),
{
    let mut mask = U::zero();
    match index {
        None => Some(mask),
        Some(i) => {
            if i >= 0 && mask.set(i as u8).is_ok() {
                assert(0u128 | bit_word(i as u8) == bit_word(i as u8)) by (bit_vector);
                Some(mask)
            } else {
                None
            }
        },
    }
}

/// The single-bit mask for a type, zero for an unregistered type; `None` where the type's
/// index has no bit in `U`.
pub fn mask_of<U: BitSet>(registry: &Registry, type_id: TypeId) -> (r: Option<U>)
    requires
        registry.wf(),
    ensures
        word_of(r) == mask_word(U::width(), registry@.lookup(type_id)),
{
    index_mask(registry.lookup(type_id))
}

} // verus!
