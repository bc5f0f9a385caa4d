use crowd2x::homes::Homes;
use crowd2x::map::Point;
use crowd2x::uid::{EntityType, Uid};

fn human(n: u64) -> Uid {
    Uid::new(EntityType::Human, n)
}

#[test]
fn a_bed_nobody_owns_can_be_given_to_somebody_and_says_whose_it_is() {
    let mut homes = Homes::new();
    let bed = Point::new(3, 4);
    assert_eq!(homes.owner(bed), None);
    assert!(homes.claim(bed, human(1)));
    assert_eq!(homes.owner(bed), Some(human(1)));
    assert!(homes.is_owned(bed));
    assert_eq!(homes.len(), 1);
}

#[test]
fn a_bed_that_is_owned_is_not_given_away_again() {
    let mut homes = Homes::new();
    let bed = Point::new(3, 4);
    assert!(homes.claim(bed, human(1)));
    assert!(!homes.claim(bed, human(2)), "it is somebody else's");
    assert_eq!(homes.owner(bed), Some(human(1)), "and stays theirs");
}

#[test]
fn leaving_gives_the_bed_back_to_be_given_to_the_next_arrival() {
    let mut homes = Homes::new();
    let bed = Point::new(3, 4);
    homes.claim(bed, human(1));
    assert_eq!(homes.release(human(1)), Some(bed));
    assert!(!homes.is_owned(bed));
    assert!(homes.claim(bed, human(2)));
    assert_eq!(homes.owner(bed), Some(human(2)));
}

#[test]
fn releasing_somebody_who_owned_nothing_changes_nothing() {
    let mut homes = Homes::new();
    homes.claim(Point::new(1, 1), human(1));
    assert_eq!(homes.release(human(9)), None);
    assert_eq!(homes.len(), 1);
    assert!(!Homes::new().release(human(1)).is_some());
}

#[test]
fn somebody_with_two_beds_gives_back_the_first_in_bed_order() {
    let mut homes = Homes::new();
    homes.claim(Point::new(5, 0), human(1));
    homes.claim(Point::new(2, 9), human(2));
    homes.claim(Point::new(2, 3), human(1));
    assert_eq!(homes.release(human(1)), Some(Point::new(2, 3)));
    assert_eq!(homes.release(human(1)), Some(Point::new(5, 0)));
    assert_eq!(homes.release(human(1)), None);
    assert_eq!(homes.owner(Point::new(2, 9)), Some(human(2)));
    assert!(!homes.is_empty());
    assert_eq!(homes.release(human(2)), Some(Point::new(2, 9)));
    assert!(homes.is_empty());
}

#[test]
fn the_count_is_the_number_of_beds_with_an_owner() {
    let mut homes = Homes::new();
    let beds = [Point::new(5, 1), Point::new(1, 1), Point::new(3, 2)];
    for (i, &bed) in beds.iter().enumerate() {
        assert!(homes.claim(bed, human(i as u64 + 1)));
    }
    assert!(!homes.claim(beds[0], human(9)), "one owner to a bed");
    let owned = beds.iter().filter(|&&bed| homes.is_owned(bed)).count();
    assert_eq!(homes.len(), owned);
    assert_eq!(homes.release(human(2)), Some(Point::new(1, 1)));
    assert_eq!(homes.len(), 2);
}

#[test]
fn an_arrival_is_handed_the_first_bed_nobody_owns() {
    let beds = vec![Point::new(4, 3), Point::new(1, 1), Point::new(8, 7)];
    let mut homes = Homes::new();
    assert_eq!(homes.first_free(&beds), Some(Point::new(4, 3)));
    assert!(homes.claim(Point::new(4, 3), Uid::new(EntityType::Human, 1)));
    assert_eq!(homes.first_free(&beds), Some(Point::new(1, 1)));
    assert!(homes.claim(Point::new(1, 1), Uid::new(EntityType::Human, 2)));
    assert!(homes.claim(Point::new(8, 7), Uid::new(EntityType::Human, 3)));
    assert_eq!(homes.first_free(&beds), None);
    assert_eq!(homes.first_free(&Vec::new()), None);
}
