use crowd2x::identity::{Gender, Identity};
use crowd2x::rng::{mix, tick_rng, tick_seed};
use crowd2x::uid::{EntityType, Uid};
use rand::rngs::SmallRng;
use rand::{RngExt, SeedableRng};

#[test]
fn the_same_entity_on_the_same_tick_rolls_the_same_dice() {
    let uid = Uid::new(EntityType::Human, 5);
    let a: u64 = tick_rng(uid, 9).random();
    let b: u64 = tick_rng(uid, 9).random();
    assert_eq!(a, b);
}

#[test]
fn neighbouring_ids_on_one_tick_get_unrelated_streams() {
    let a: u64 = tick_rng(Uid::new(EntityType::Human, 1), 3).random();
    let b: u64 = tick_rng(Uid::new(EntityType::Human, 2), 3).random();
    assert_ne!(a, b);
}

#[test]
fn the_mixer_is_splitmix64s_finaliser() {
    // SplitMix64 seeded with 0 starts 0xe220a8397b1dcdaf.
    assert_eq!(mix(0), 0xe220_a839_7b1d_cdaf);
    assert_eq!(tick_seed(Uid::new(EntityType::Human, 5), 9), mix(Uid::new(EntityType::Human, 5).raw() ^ mix(9)));
}

#[test]
fn a_random_identity_has_a_first_and_a_last_name() {
    let mut rng = SmallRng::seed_from_u64(1);
    for _ in 0..1000 {
        let identity = Identity::random(&mut rng);
        assert_eq!(identity.name().split(' ').count(), 2);
    }
}

#[test]
fn two_random_identities_are_not_carbon_copies() {
    let mut rng = SmallRng::seed_from_u64(2);
    let a = Identity::random(&mut rng);
    let b = Identity::random(&mut rng);
    assert_ne!(a, b);
}

#[test]
fn both_genders_turn_up_over_enough_rolls() {
    let mut rng = SmallRng::seed_from_u64(3);
    let mut saw = (false, false);
    for _ in 0..1000 {
        match Identity::random(&mut rng).gender() {
            Gender::Male => saw.0 = true,
            Gender::Female => saw.1 = true,
        }
    }
    assert_eq!(saw, (true, true));
    assert_eq!(Gender::Male.label(), "male");
    assert_eq!(Gender::Female.label(), "female");
}

#[test]
fn a_random_name_is_two_words_of_at_least_a_letter_each() {
    let mut rng = SmallRng::seed_from_u64(4);
    for _ in 0..500 {
        let identity = Identity::random(&mut rng);
        let parts: Vec<&str> = identity.name().split(' ').collect();
        assert_eq!(parts.len(), 2, "{:?}", identity.name());
        assert!(parts.iter().all(|part| !part.is_empty()), "{:?}", identity.name());
    }
}

#[test]
fn an_identity_from_parts_is_the_first_name_a_space_and_the_last() {
    let identity = Identity::from_parts("Ada", "Lovelace", Gender::Female);
    assert_eq!(identity.name(), "Ada Lovelace");
    assert_eq!(identity.gender(), Gender::Female);
}

#[test]
fn heads_is_male_and_tails_female() {
    assert_eq!(Gender::gender_of(true), Gender::Male);
    assert_eq!(Gender::gender_of(false), Gender::Female);
}
