use vstd::prelude::*;
use std::any::TypeId;
use std::marker::PhantomData;
use crate::math::BitSet;
use crate::math::ComponentSet128;
use crate::math::ComponentSet16;
use crate::math::ComponentSet32;
use crate::math::ComponentSet64;
use crate::math::ComponentSet8;
use crate::math::lemma_width_bounded;
use crate::math::word_of;
use crate::registry::BitIndex;
use crate::registry::Registry;
use crate::registry::index_mask;
use crate::registry::mask_word;
use crate::registry::type_id_of;

verus! {

/// A query for up to three component types, over masks of type `U`. The type `()` stands for
/// "no further type".
pub struct Query<A: 'static, B: 'static = (), C: 'static = (), U: BitSet = ComponentSet8> {
    _q: Option<(PhantomData<A>, PhantomData<B>, PhantomData<C>, PhantomData<U>)>,
}

pub type Query16<A, B, C> = Query<A, B, C, ComponentSet16>;

pub type Query32<A, B, C> = Query<A, B, C, ComponentSet32>;

pub type Query64<A, B, C> = Query<A, B, C, ComponentSet64>;

pub type Query128<A, B, C> = Query<A, B, C, ComponentSet128>;

/// The word of the query mask for three types with the given indices, in masks of `width`
/// bits and with the largest word `limit`: the sum of the three single-bit masks. Distinct
/// types have distinct bits, so for them the sum is the union of the bits. There is none
/// where an index has no bit or the sum exceeds the limit.
///
/// An entity matches a query when its mask has any bit of the sum, not all of them.
pub open spec fn query_word(
    width: nat,
    limit: u128,
    a: Option<BitIndex>,
    b: Option<BitIndex>,
    c: Option<BitIndex>,
) -> Option<u128> {
    match (mask_word(width, a), mask_word(width, b), mask_word(width, c)) {
        (Some(x), Some(y), Some(z)) => if x + y + z <= limit {
            Some((x + y + z) as u128)
        } else {
            None
        },
        _ => None,
    }
}

/// The mask words of two types that are not the same one share no bit, and neither has a bit
/// outside the limit.
proof fn lemma_mask_words_apart<U: BitSet>(a: Option<BitIndex>, b: Option<BitIndex>)
    requires
        mask_word(U::width(), a) is Some,
        mask_word(U::width(), b) is Some,
        a is Some && b is Some ==> a != b,
    ensures
        (mask_word(U::width(), a)->0 & mask_word(U::width(), b)->0) == 0,
        (mask_word(U::width(), a)->0 & !U::limit()) == 0,
{
    lemma_width_bounded::<U>();
    let x = mask_word(U::width(), a)->0;
    let y = mask_word(U::width(), b)->0;
    let limit = U::limit();
    match a {
        Some(i) => {
            let p = i as u8 as u128;
            U::lemma_limit_bits(i as u8);
            assert(((1u128 << p) & !limit) == 0) by (bit_vector)
                requires
                    p < 128,
                    limit & (1u128 << p) != 0,
            ;
            match b {
                Some(j) => {
                    let q = j as u8 as u128;
                    assert(((1u128 << p) & (1u128 << q)) == 0) by (bit_vector)
                        requires
                            p < 128,
                            q < 128,
                            p != q,
                    ;
                },
                None => {
                    assert((x & 0u128) == 0) by (bit_vector);
                },
            }
        },
        None => {
            assert((0u128 & y) == 0 && (0u128 & !limit) == 0) by (bit_vector);
        },
    }
}

/// For types that are pairwise not the same one and whose indices have a bit in the mask,
/// the query mask exists, and the sum of the single-bit masks is the union of their bits.
/// A type without an index adds the zero mask.
pub proof fn lemma_query_word_is_union<U: BitSet>(
    a: Option<BitIndex>,
    b: Option<BitIndex>,
    c: Option<BitIndex>,
)
    requires
        mask_word(U::width(), a) is Some,
        mask_word(U::width(), b) is Some,
        mask_word(U::width(), c) is Some,
        a is Some && b is Some ==> a != b,
        a is Some && c is Some ==> a != c,
        b is Some && c is Some ==> b != c,
    ensures
        query_word(U::width(), U::limit(), a, b, c) == Some(
            mask_word(U::width(), a)->0 | mask_word(U::width(), b)->0 | mask_word(
                U::width(),
                c,
            )->0,
        ),
{
    let x = mask_word(U::width(), a)->0;
    let y = mask_word(U::width(), b)->0;
    let z = mask_word(U::width(), c)->0;
    let limit = U::limit();
    lemma_mask_words_apart::<U>(a, b);
    lemma_mask_words_apart::<U>(b, c);
    lemma_mask_words_apart::<U>(c, a);
    assert(x + y + z == (x | y | z) && (x | y | z) <= limit) by (bit_vector)
        requires
            (x & y) == 0,
            (y & z) == 0,
            (z & x) == 0,
            (x & !limit) == 0,
            (y & !limit) == 0,
            (z & !limit) == 0,
    ;
}

/// The query mask for three types with the given indices, as [`query_word`] says.
pub fn combine<U: BitSet>(a: Option<BitIndex>, b: Option<BitIndex>, c: Option<BitIndex>) -> (r:
    Option<U>)
    ensures
        word_of(r) == query_word(U::width(), U::limit(), a, b, c),
{
    let first: Option<U> = index_mask(a);
    let second: Option<U> = index_mask(b);
    let third: Option<U> = index_mask(c);
    match (first, second, third) {
        (Some(x), Some(y), Some(z)) => {
            proof {
                x.lemma_word_bounded();
                y.lemma_word_bounded();
                z.lemma_word_bounded();
            }
            match x.checked_sum(y) {
                Some(both) => {
                    let all = both.checked_sum(z);
                    proof {
                        if let Some(sum) = all {
                            sum.lemma_word_bounded();
                        }
                    }
                    all
                },
                None => None,
            }
        },
        _ => None,
    }
}

/// The query mask for the three given types: see [`combine`].
pub fn query_of<U: BitSet>(registry: &Registry, a: TypeId, b: TypeId, c: TypeId) -> (r: Option<U>)
    requires
        registry.wf(),
    ensures
        word_of(r) == query_word(
            U::width(),
            U::limit(),
            registry@.lookup(a),
            registry@.lookup(b),
            registry@.lookup(c),
        ),
{
    combine(registry.lookup(a), registry.lookup(b), registry.lookup(c))
}

/// Building the mask of a query.
pub trait QueryOps<U: BitSet> {
    fn query(registry: &Registry) -> (r: Option<U>)
        requires
            registry.wf(),
        ensures
            exists|a: TypeId, b: TypeId, c: TypeId|
                #![trigger registry@.lookup(a), registry@.lookup(b), registry@.lookup(c)]
                word_of(r) == query_word(
                    U::width(),
                    U::limit(),
                    registry@.lookup(a),
                    registry@.lookup(b),
                    registry@.lookup(c),
                ),
    ;
}

impl<A: 'static, B: 'static, C: 'static, U: BitSet> QueryOps<U> for Query<A, B, C, U> {
    /// The query mask for the types `A`, `B` and `C`: see [`query_of`].
    fn query(registry: &Registry) -> (r: Option<U>) {
        query_of(registry, type_id_of::<A>(), type_id_of::<B>(), type_id_of::<C>())
    }
}

} // verus!
