use bitmask_ecs::query::combine;
use bitmask_ecs::query::query_of;
use bitmask_ecs::query::Query;
use bitmask_ecs::query::Query128;
use bitmask_ecs::query::Query16;
use bitmask_ecs::query::QueryOps;
use bitmask_ecs::registry::index_mask;
use bitmask_ecs::registry::mask_of;
use bitmask_ecs::registry::register_state;
use bitmask_ecs::registry::Registry;
use bitmask_ecs::world::PrimitiveWorld;
use bitmask_ecs::world::Register;
use bitmask_ecs::world::World;
use std::any::TypeId;

struct Name;

struct Age;

struct Place;

struct T0;

struct T1;

struct T2;

struct T3;

struct T4;

struct T5;

struct T6;

struct T7;

struct T8;

fn register_nine(registry: &mut Registry) {
    PrimitiveWorld::register::<T0>(registry);
    PrimitiveWorld::register::<T1>(registry);
    PrimitiveWorld::register::<T2>(registry);
    PrimitiveWorld::register::<T3>(registry);
    PrimitiveWorld::register::<T4>(registry);
    PrimitiveWorld::register::<T5>(registry);
    PrimitiveWorld::register::<T6>(registry);
    PrimitiveWorld::register::<T7>(registry);
    PrimitiveWorld::register::<T8>(registry);
}

#[test]
fn a_new_registry_is_empty() {
    let registry = Registry::new();
    assert_eq!(registry.counter(), 0);
    assert!(registry.has_room());
    assert_eq!(registry.lookup(TypeId::of::<Name>()), None);
    assert_eq!(registry.position(TypeId::of::<Name>()), None);
}

#[test]
fn registering_a_type_twice_keeps_its_index() {
    let mut registry = Registry::new();
    PrimitiveWorld::register::<Name>(&mut registry);
    let first = PrimitiveWorld::get_id(&registry, TypeId::of::<Name>());
    PrimitiveWorld::register::<Name>(&mut registry);
    let second = PrimitiveWorld::get_id(&registry, TypeId::of::<Name>());
    assert_eq!(first, Some(0));
    assert_eq!(second, Some(0));
    assert_eq!(registry.counter(), 1);
}

#[test]
fn distinct_types_get_sequential_indices() {
    let mut registry = Registry::new();
    PrimitiveWorld::register::<Place>(&mut registry);
    let start = registry.counter() as i8;
    assert_eq!(start, 1);
    PrimitiveWorld::register::<Name>(&mut registry);
    PrimitiveWorld::register::<Age>(&mut registry);
    PrimitiveWorld::register::<T0>(&mut registry);
    assert_eq!(World::get_id(&registry, TypeId::of::<Name>()), Some(start));
    assert_eq!(World::get_id(&registry, TypeId::of::<Age>()), Some(start + 1));
    assert_eq!(World::get_id(&registry, TypeId::of::<T0>()), Some(start + 2));
    assert_eq!(World::get_id(&registry, TypeId::of::<Place>()), Some(0));
    assert_eq!(World::get_id(&registry, TypeId::of::<T1>()), None);
    assert_eq!(registry.counter(), 4);
}

#[test]
fn register_state_assigns_by_identity() {
    let mut registry = Registry::new();
    register_state(&mut registry, TypeId::of::<Age>());
    register_state(&mut registry, TypeId::of::<Name>());
    register_state(&mut registry, TypeId::of::<Age>());
    assert_eq!(registry.lookup(TypeId::of::<Age>()), Some(0));
    assert_eq!(registry.lookup(TypeId::of::<Name>()), Some(1));
    assert_eq!(registry.position(TypeId::of::<Name>()), Some(1));
    assert_eq!(registry.lookup(TypeId::of::<Place>()), None);
    assert_eq!(registry.counter(), 2);
}

#[test]
fn the_placeholder_type_never_has_an_index() {
    let mut registry = Registry::new();
    PrimitiveWorld::register::<()>(&mut registry);
    PrimitiveWorld::register::<Name>(&mut registry);
    assert_eq!(PrimitiveWorld::get_id(&registry, TypeId::of::<()>()), None);
    assert_eq!(registry.position(TypeId::of::<()>()), Some(0));
    assert_eq!(PrimitiveWorld::get_id(&registry, TypeId::of::<Name>()), Some(1));
    assert_eq!(PrimitiveWorld::mask::<()>(&registry), Some(0));
}

#[test]
fn a_registry_has_room_until_the_counter_is_at_its_largest() {
    let mut registry = Registry::new();
    register_nine(&mut registry);
    assert_eq!(registry.counter(), 9);
    assert!(registry.has_room());
}

#[test]
fn mask_is_the_single_bit_of_the_type() {
    let mut registry = Registry::new();
    PrimitiveWorld::register::<Name>(&mut registry);
    PrimitiveWorld::register::<Age>(&mut registry);
    assert_eq!(PrimitiveWorld::mask::<Name>(&registry), Some(0b01));
    assert_eq!(PrimitiveWorld::mask::<Age>(&registry), Some(0b10));
    assert_eq!(PrimitiveWorld::mask::<Place>(&registry), Some(0));
    assert_eq!(World::mask::<Age>(&registry), Some(2_u128));
    assert_eq!(mask_of::<u64>(&registry, TypeId::of::<Age>()), Some(2));
    assert_eq!(mask_of::<u64>(&registry, TypeId::of::<Place>()), Some(0));
}

#[test]
fn mask_is_none_where_the_index_has_no_bit() {
    let mut registry = Registry::new();
    register_nine(&mut registry);
    assert_eq!(PrimitiveWorld::mask::<T7>(&registry), Some(128));
    assert_eq!(PrimitiveWorld::mask::<T8>(&registry), None);
    assert_eq!(World::mask::<T8>(&registry), Some(256));
    assert_eq!(mask_of::<u16>(&registry, TypeId::of::<T8>()), Some(256));
}

#[test]
fn index_mask_by_value() {
    assert_eq!(index_mask::<u8>(None), Some(0));
    assert_eq!(index_mask::<u8>(Some(0)), Some(1));
    assert_eq!(index_mask::<u8>(Some(7)), Some(128));
    assert_eq!(index_mask::<u8>(Some(8)), None);
    assert_eq!(index_mask::<u8>(Some(-1)), None);
    assert_eq!(index_mask::<u16>(Some(8)), Some(256));
    assert_eq!(index_mask::<u32>(Some(31)), Some(1 << 31));
    assert_eq!(index_mask::<u32>(Some(32)), None);
    assert_eq!(index_mask::<u64>(Some(63)), Some(1 << 63));
    assert_eq!(index_mask::<u64>(Some(64)), None);
    assert_eq!(index_mask::<u128>(Some(127)), Some(1 << 127));
    assert_eq!(index_mask::<u128>(Some(-128)), None);
}

#[test]
fn combine_sums_the_single_bit_masks() {
    assert_eq!(combine::<u8>(Some(0), Some(1), None), Some(0b11));
    assert_eq!(combine::<u8>(Some(0), Some(1), Some(2)), Some(0b111));
    assert_eq!(combine::<u8>(None, None, None), Some(0));
    assert_eq!(combine::<u8>(Some(3), None, None), Some(8));
    // The sum of equal masks is the next bit, not the same one.
    assert_eq!(combine::<u8>(Some(3), Some(3), None), Some(16));
    assert_eq!(combine::<u8>(Some(3), Some(3), Some(3)), Some(24));
    assert_eq!(combine::<u8>(Some(7), Some(6), Some(6)), None);
    assert_eq!(combine::<u8>(Some(7), Some(7), None), None);
    assert_eq!(combine::<u8>(Some(8), None, None), None);
    assert_eq!(combine::<u8>(None, Some(-1), None), None);
    assert_eq!(combine::<u16>(Some(7), Some(7), None), Some(256));
    assert_eq!(combine::<u128>(Some(127), Some(126), Some(0)), Some((1 << 127) + (1 << 126) + 1));
    assert_eq!(combine::<u128>(Some(127), Some(127), None), None);
}

#[test]
fn query_combines_the_masks_of_its_types() {
    let mut registry = Registry::new();
    PrimitiveWorld::register::<Name>(&mut registry);
    PrimitiveWorld::register::<Age>(&mut registry);
    PrimitiveWorld::register::<Place>(&mut registry);
    assert_eq!(Query::<Name>::query(&registry), Some(0b001));
    assert_eq!(Query::<Age>::query(&registry), Some(0b010));
    assert_eq!(Query::<Name, Age>::query(&registry), Some(0b011));
    assert_eq!(Query::<Name, Age, Place>::query(&registry), Some(0b111));
    assert_eq!(Query::<Place, Name>::query(&registry), Some(0b101));
    assert_eq!(Query::<T0>::query(&registry), Some(0));
    assert_eq!(Query::<T0, Age>::query(&registry), Some(0b010));
    assert_eq!(Query16::<Name, Age, Place>::query(&registry), Some(7_u16));
    assert_eq!(Query128::<Place, (), ()>::query(&registry), Some(4_u128));
    assert_eq!(
        query_of::<u32>(
            &registry,
            TypeId::of::<Age>(),
            TypeId::of::<Place>(),
            TypeId::of::<()>()
        ),
        Some(6)
    );
}

#[test]
fn query_is_none_where_the_sum_has_no_mask() {
    let mut registry = Registry::new();
    register_nine(&mut registry);
    assert_eq!(Query::<T7>::query(&registry), Some(128));
    assert_eq!(Query::<T7, T7>::query(&registry), None);
    assert_eq!(Query::<T8>::query(&registry), None);
    assert_eq!(Query::<T0, T8>::query(&registry), None);
    assert_eq!(Query16::<T7, T7, ()>::query(&registry), Some(256));
    assert_eq!(Query16::<T8, T0, T1>::query(&registry), Some(259));
}

fn many_types() -> Vec<TypeId> {
    vec![
        TypeId::of::<[u8; 0]>(),
        TypeId::of::<[u8; 1]>(),
        TypeId::of::<[u8; 2]>(),
        TypeId::of::<[u8; 3]>(),
        TypeId::of::<[u8; 4]>(),
        TypeId::of::<[u8; 5]>(),
        TypeId::of::<[u8; 6]>(),
        TypeId::of::<[u8; 7]>(),
        TypeId::of::<[u8; 8]>(),
        TypeId::of::<[u8; 9]>(),
        TypeId::of::<[u8; 10]>(),
        TypeId::of::<[u8; 11]>(),
        TypeId::of::<[u8; 12]>(),
        TypeId::of::<[u8; 13]>(),
        TypeId::of::<[u8; 14]>(),
        TypeId::of::<[u8; 15]>(),
        TypeId::of::<[u8; 16]>(),
        TypeId::of::<[u8; 17]>(),
        TypeId::of::<[u8; 18]>(),
        TypeId::of::<[u8; 19]>(),
        TypeId::of::<[u8; 20]>(),
        TypeId::of::<[u8; 21]>(),
        TypeId::of::<[u8; 22]>(),
        TypeId::of::<[u8; 23]>(),
        TypeId::of::<[u8; 24]>(),
        TypeId::of::<[u8; 25]>(),
        TypeId::of::<[u8; 26]>(),
        TypeId::of::<[u8; 27]>(),
        TypeId::of::<[u8; 28]>(),
        TypeId::of::<[u8; 29]>(),
        TypeId::of::<[u8; 30]>(),
        TypeId::of::<[u8; 31]>(),
        TypeId::of::<[u8; 32]>(),
        TypeId::of::<[u8; 33]>(),
        TypeId::of::<[u8; 34]>(),
        TypeId::of::<[u8; 35]>(),
        TypeId::of::<[u8; 36]>(),
        TypeId::of::<[u8; 37]>(),
        TypeId::of::<[u8; 38]>(),
        TypeId::of::<[u8; 39]>(),
        TypeId::of::<[u8; 40]>(),
        TypeId::of::<[u8; 41]>(),
        TypeId::of::<[u8; 42]>(),
        TypeId::of::<[u8; 43]>(),
        TypeId::of::<[u8; 44]>(),
        TypeId::of::<[u8; 45]>(),
        TypeId::of::<[u8; 46]>(),
        TypeId::of::<[u8; 47]>(),
        TypeId::of::<[u8; 48]>(),
        TypeId::of::<[u8; 49]>(),
        TypeId::of::<[u8; 50]>(),
        TypeId::of::<[u8; 51]>(),
        TypeId::of::<[u8; 52]>(),
        TypeId::of::<[u8; 53]>(),
        TypeId::of::<[u8; 54]>(),
        TypeId::of::<[u8; 55]>(),
        TypeId::of::<[u8; 56]>(),
        TypeId::of::<[u8; 57]>(),
        TypeId::of::<[u8; 58]>(),
        TypeId::of::<[u8; 59]>(),
        TypeId::of::<[u8; 60]>(),
        TypeId::of::<[u8; 61]>(),
        TypeId::of::<[u8; 62]>(),
        TypeId::of::<[u8; 63]>(),
        TypeId::of::<[u8; 64]>(),
        TypeId::of::<[u8; 65]>(),
        TypeId::of::<[u8; 66]>(),
        TypeId::of::<[u8; 67]>(),
        TypeId::of::<[u8; 68]>(),
        TypeId::of::<[u8; 69]>(),
        TypeId::of::<[u8; 70]>(),
        TypeId::of::<[u8; 71]>(),
        TypeId::of::<[u8; 72]>(),
        TypeId::of::<[u8; 73]>(),
        TypeId::of::<[u8; 74]>(),
        TypeId::of::<[u8; 75]>(),
        TypeId::of::<[u8; 76]>(),
        TypeId::of::<[u8; 77]>(),
        TypeId::of::<[u8; 78]>(),
        TypeId::of::<[u8; 79]>(),
        TypeId::of::<[u8; 80]>(),
        TypeId::of::<[u8; 81]>(),
        TypeId::of::<[u8; 82]>(),
        TypeId::of::<[u8; 83]>(),
        TypeId::of::<[u8; 84]>(),
        TypeId::of::<[u8; 85]>(),
        TypeId::of::<[u8; 86]>(),
        TypeId::of::<[u8; 87]>(),
        TypeId::of::<[u8; 88]>(),
        TypeId::of::<[u8; 89]>(),
        TypeId::of::<[u8; 90]>(),
        TypeId::of::<[u8; 91]>(),
        TypeId::of::<[u8; 92]>(),
        TypeId::of::<[u8; 93]>(),
        TypeId::of::<[u8; 94]>(),
        TypeId::of::<[u8; 95]>(),
        TypeId::of::<[u8; 96]>(),
        TypeId::of::<[u8; 97]>(),
        TypeId::of::<[u8; 98]>(),
        TypeId::of::<[u8; 99]>(),
        TypeId::of::<[u8; 100]>(),
        TypeId::of::<[u8; 101]>(),
        TypeId::of::<[u8; 102]>(),
        TypeId::of::<[u8; 103]>(),
        TypeId::of::<[u8; 104]>(),
        TypeId::of::<[u8; 105]>(),
        TypeId::of::<[u8; 106]>(),
        TypeId::of::<[u8; 107]>(),
        TypeId::of::<[u8; 108]>(),
        TypeId::of::<[u8; 109]>(),
        TypeId::of::<[u8; 110]>(),
        TypeId::of::<[u8; 111]>(),
        TypeId::of::<[u8; 112]>(),
        TypeId::of::<[u8; 113]>(),
        TypeId::of::<[u8; 114]>(),
        TypeId::of::<[u8; 115]>(),
        TypeId::of::<[u8; 116]>(),
        TypeId::of::<[u8; 117]>(),
        TypeId::of::<[u8; 118]>(),
        TypeId::of::<[u8; 119]>(),
        TypeId::of::<[u8; 120]>(),
        TypeId::of::<[u8; 121]>(),
        TypeId::of::<[u8; 122]>(),
        TypeId::of::<[u8; 123]>(),
        TypeId::of::<[u8; 124]>(),
        TypeId::of::<[u8; 125]>(),
        TypeId::of::<[u8; 126]>(),
        TypeId::of::<[u8; 127]>(),
    ]
}

#[test]
fn a_full_registry_has_no_room() {
    let types = many_types();
    assert_eq!(types.len(), 128);
    let mut registry = Registry::new();
    for (position, type_id) in types.iter().enumerate() {
        assert!(registry.has_room());
        assert_eq!(registry.counter() as usize, position);
        register_state(&mut registry, *type_id);
    }
    assert_eq!(registry.counter(), 128);
    assert!(!registry.has_room());
    for (position, type_id) in types.iter().enumerate() {
        assert_eq!(registry.lookup(*type_id), Some(position as i8));
    }
    // A registered type can be registered again, also when no room is left.
    register_state(&mut registry, types[5]);
    assert_eq!(registry.counter(), 128);
    assert_eq!(registry.lookup(types[5]), Some(5));
    // The last type has the last bit of a 128-bit mask.
    assert_eq!(registry.lookup(types[127]), Some(127));
    assert_eq!(mask_of::<u128>(&registry, types[127]), Some(1 << 127));
    assert_eq!(mask_of::<u128>(&registry, types[126]), Some(1 << 126));
    assert_eq!(mask_of::<u64>(&registry, types[126]), None);
    assert_eq!(mask_of::<u64>(&registry, types[63]), Some(1 << 63));
}
