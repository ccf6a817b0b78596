use ninjo::asks::{Postings, Rates};
use ninjo::constants::Tuning;
use ninjo::lens::Lens;
use ninjo::meters::{ask, count, faces, meter_at, Icon, Question, METER_COUNT};
use ninjo::needs::burn;
use ninjo::people::roster;
use ninjo::sim::{Activity, ModuleSet, Party, Ports, Settlement, Sim};
use ninjo::stores::Shared;

fn chip_world(everybody: bool) -> Sim {
    let mut people = roster();
    if everybody {
        for person in people.iter_mut() {
            person.present = true;
        }
    }
    let parties = people
        .iter()
        .enumerate()
        .map(|(who, person)| Party {
            name: person.name,
            member: who,
            tile: person.home,
            activity: Activity::Idle,
            rested_until: 0,
            posting: None,
        })
        .collect();
    Sim {
        people,
        parties,
        locations: Vec::new(),
        sites: Vec::new(),
        postings: Postings::new(),
        rates: Rates::opening(),
        treasury: 0,
        events: Vec::new(),
        modules: ModuleSet::all(),
        ports: Ports { burned_upkeep: 0, paid_wages: 0 },
        shared: Shared::empty(),
        settlement: Settlement { standing: Vec::new() },
        reckonings: Vec::new(),
        attention: ninjo::attention::Attention::opening(),
        pause: None,
        pauses: 0,
    }
}

#[test]
fn the_chips_are_registered_data() {
    let ids: Vec<&str> = (0..METER_COUNT).map(|i| meter_at(i).unwrap().id).collect();
    assert_eq!(ids, vec!["idle", "away", "short", "desperate"]);
    let icons: Vec<Icon> = (0..METER_COUNT).map(|i| meter_at(i).unwrap().icon).collect();
    for (i, icon) in icons.iter().enumerate() {
        assert_eq!(icons.iter().filter(|other| *other == icon).count(), 1, "{i}");
    }
    for i in 0..METER_COUNT {
        let spec = meter_at(i).unwrap();
        assert!(spec.id.chars().all(|glyph| glyph.is_ascii_lowercase() || glyph == '-'));
        assert_eq!(ids.iter().filter(|id| **id == spec.id).count(), 1);
    }
    assert!(meter_at(METER_COUNT).is_none());
}

#[test]
fn one_party_out_puts_one_face_on_the_away_chip() {
    let tuning = Tuning::shipped();
    let mut sim = chip_world(false);
    sim.parties[0].activity = Activity::Working { until: 99 };
    let lens = Lens::on(&sim);
    assert_eq!(count(&lens, &tuning, 1), 1);
    assert_eq!(count(&lens, &tuning, 0), 3);
    assert_eq!(count(&lens, &tuning, 0) + count(&lens, &tuning, 1), lens.roll().len());
    let away = faces(&lens, &tuning, 1);
    assert_eq!(away[0].0, 0);
    assert_eq!(away[0].1, "out with Bob - working");
    let idle = faces(&lens, &tuning, 0);
    assert_eq!(idle[0].1, "at home, and nobody has asked them for anything");
    for index in 0..METER_COUNT {
        let listed = faces(&lens, &tuning, index);
        assert_eq!(count(&lens, &tuning, index), listed.len());
        for (who, reason) in &listed {
            assert!(!reason.is_empty());
            assert!(lens.present(*who));
        }
    }
    assert!(faces(&lens, &tuning, METER_COUNT).is_empty());
}

#[test]
fn the_short_chip_counts_the_set_the_burn_acts_on() {
    let tuning = Tuning::shipped();
    let mut staged = chip_world(true);
    staged.people[1].wallet = 0;
    staged.people[7].wallet = 0;
    staged.people[3].desperation = 6;
    let predicted: Vec<usize> = faces(&Lens::on(&staged), &tuning, 2).into_iter().map(|(w, _)| w).collect();
    let desperate: Vec<usize> = faces(&Lens::on(&staged), &tuning, 3).into_iter().map(|(w, _)| w).collect();
    assert!(!predicted.is_empty() && !desperate.is_empty());
    assert_eq!(desperate, vec![3]);
    let before: Vec<u64> = staged.people.iter().map(|p| p.shortfalls).collect();
    burn(&mut staged, &tuning, 0, 0);
    let acted: Vec<usize> = staged
        .people
        .iter()
        .enumerate()
        .filter(|(who, person)| person.shortfalls > before[*who])
        .map(|(who, _)| who)
        .collect();
    assert_eq!(acted, predicted);
    let over: Vec<usize> = (0..staged.people.len()).filter(|w| staged.people[*w].desperation >= 6).collect();
    let after: Vec<usize> = faces(&Lens::on(&staged), &tuning, 3).into_iter().map(|(w, _)| w).collect();
    assert_eq!(after, over);
}

#[test]
fn a_face_says_why_it_is_on_the_chip() {
    let tuning = Tuning::shipped();
    let mut sim = chip_world(true);
    sim.people[1].desperation = 7;
    sim.people[1].shortfalls = 2;
    let lens = Lens::on(&sim);
    assert_eq!(ask(&lens, &tuning, Question::Short, 1).unwrap(), "holds 3g of the 7g due");
    assert_eq!(ask(&lens, &tuning, Question::Desperate, 1).unwrap(), "desperation 7, short 2");
    assert!(ask(&lens, &tuning, Question::Short, 3).is_none());
    assert!(ask(&lens, &tuning, Question::Away, 3).is_none());
}
