use crowd2x::uid::{EntityType, Uid, RANDOM_BITS, RANDOM_MASK};

#[test]
fn the_type_survives_the_round_trip_through_the_bits() {
    for kind in EntityType::all() {
        let uid = Uid::new(kind, 0x00ff_eedd_ccbb_aa99);
        assert_eq!(uid.kind(), Some(kind));
        assert_eq!(Uid::from_raw(uid.raw()), Some(uid));
    }
}

#[test]
fn the_body_is_the_low_56_bits_and_the_tag_never_reaches_it() {
    let uid = Uid::new(EntityType::Dog, u64::MAX);
    assert_eq!(uid.kind(), Some(EntityType::Dog));
    assert_eq!(uid.body(), RANDOM_MASK);
    assert_eq!(uid.raw() >> RANDOM_BITS, EntityType::Dog.tag() as u64);
}

#[test]
fn an_all_zero_body_still_makes_a_usable_id() {
    let uid = Uid::new(EntityType::Human, 0);
    assert_eq!(uid.kind(), Some(EntityType::Human));
    assert_ne!(uid.body(), 0);
}

#[test]
fn an_unknown_type_tag_reads_as_unknown_rather_than_panicking() {
    let future = Uid::from_raw((99 << RANDOM_BITS) | 0x1234).expect("non-zero");
    assert_eq!(future.kind(), None);
    assert_eq!(Uid::from_raw(future.raw()), Some(future));
}

#[test]
fn zero_is_not_an_id() {
    assert_eq!(Uid::from_raw(0), None);
    assert_eq!(
        std::mem::size_of::<Option<Uid>>(),
        std::mem::size_of::<Uid>()
    );
}

#[test]
fn an_id_prints_its_type() {
    let uid = Uid::new(EntityType::Human, 0xab_cdef);
    assert_eq!(uid.to_string(), "human:00000000abcdef");
}

#[test]
fn type_names_round_trip() {
    for kind in EntityType::all() {
        assert_eq!(EntityType::from_name(kind.name()), Some(kind));
    }
    assert_eq!(EntityType::from_name("dragon"), None);
}

#[test]
fn an_id_of_an_unknown_type_prints_its_tag() {
    let future = Uid::from_raw((0x63 << RANDOM_BITS) | 0x1234).unwrap();
    assert_eq!(future.to_string(), "?63:00000000001234");
}

#[test]
fn a_dog_id_prints_as_a_dog() {
    let uid = Uid::new(EntityType::Dog, 0xffff_ffff_ffff_ffff);
    assert_eq!(uid.to_string(), "dog:ffffffffffffff");
}

#[test]
fn the_tag_of_each_kind_is_its_place_in_the_list_counting_from_one() {
    assert_eq!(EntityType::Human.tag(), 1);
    assert_eq!(EntityType::Dog.tag(), 2);
    assert_eq!(EntityType::from_tag(0), None);
    assert_eq!(EntityType::from_tag(2), Some(EntityType::Dog));
    assert_eq!(Uid::new(EntityType::Dog, 5).raw(), (2u64 << 56) | 5);
}

#[test]
fn two_ids_are_the_same_only_when_their_words_are() {
    let a = Uid::new(EntityType::Human, 7);
    assert!(a.same(Uid::from_raw(a.raw()).unwrap()));
    assert!(!a.same(Uid::new(EntityType::Dog, 7)));
}
