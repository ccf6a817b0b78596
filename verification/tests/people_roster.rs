use ninjo::people::{press, roster, DESPERATION_MAX, FOUNDERS};
use ninjo::traits::TraitId;

fn printable(text: &str) -> bool {
    !text.is_empty() && text.chars().all(|glyph| (' '..='~').contains(&glyph))
}

#[test]
fn the_roster_is_ten_people_with_stamp_shaped_unique_ids() {
    let cast = roster();
    assert_eq!(cast.len(), 10);
    for person in &cast {
        assert!(!person.id.is_empty());
        assert!(person.id.chars().all(|glyph| glyph.is_ascii_lowercase() || glyph == '-'));
        assert_eq!(cast.iter().filter(|other| other.id == person.id).count(), 1);
        assert!(printable(person.name));
        assert!(printable(&person.source));
        assert_eq!(person.source, person.origin);
        assert_eq!(cast.iter().filter(|other| other.home == person.home).count(), 1);
    }
}

#[test]
fn nobody_carries_a_trait_twice_or_opens_with_a_petition() {
    for person in roster() {
        for (slot, id) in person.traits.iter().enumerate() {
            assert!(!person.traits[..slot].contains(id), "{} repeats {id:?}", person.id);
        }
        assert!(person.active_petition.is_none());
        assert!(person.wallet >= 0);
        assert!((0..=DESPERATION_MAX).contains(&person.desperation));
        assert_eq!(person.shortfalls, 0);
    }
}

#[test]
fn the_founders_are_here_and_the_rest_arrive_later() {
    let cast = roster();
    let arrivals: Vec<u64> = cast.iter().map(|p| p.present_from).collect();
    assert_eq!(arrivals, vec![0, 0, 0, 0, 600, 1260, 1920, 2580, 3240, 3960]);
    for (who, person) in cast.iter().enumerate() {
        assert_eq!(person.present, who < FOUNDERS);
    }
    assert_eq!(cast[0].id, "bob");
    assert_eq!(cast[1].traits, vec![TraitId::Labor, TraitId::Loyal, TraitId::Caring]);
}

#[test]
fn pressing_is_held_inside_the_range() {
    let mut cast = roster();
    let steve = &mut cast[1];
    assert_eq!(steve.desperation, 5);
    press(steve, 1);
    assert_eq!(steve.desperation, 6);
    press(steve, DESPERATION_MAX);
    assert_eq!(steve.desperation, DESPERATION_MAX);
    assert_eq!(steve.wallet, 3);
}
