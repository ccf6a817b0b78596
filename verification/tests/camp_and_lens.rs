use ninjo::sim::Location;
use ninjo::asks::{Postings, Rates};
use ninjo::camp::standing_as;
use ninjo::constants::Tuning;
use ninjo::lens::Lens;
use ninjo::people::{roster, Tile};
use ninjo::sim::{Activity, JobState, ModuleSet, Party, Ports, Quest, Settlement, Sim, Site};
use ninjo::stores::{Regarded, Shared};
use ninjo::traits::TaskType;

fn lens_world() -> Sim {
    let people = roster();
    let parties = people
        .iter()
        .enumerate()
        .map(|(who, person)| Party {
            name: person.name,
            member: who,
            tile: person.home,
            activity: Activity::Idle,
            rested_until: 0,
            posting: None,
        })
        .collect();
    Sim {
        people,
        parties,
        locations: places(&[(7, "the Deep Cave")]),
        sites: vec![Site {
            location: 7,
            quests: vec![
                Quest { name: "the mushroom haul", task: TaskType::Labor, pot: 20, duration: 120 },
                Quest { name: "the old shaft", task: TaskType::Scout, pot: 30, duration: 90 },
            ],
            states: vec![JobState::Open, JobState::Claimed { by: 2 }],
            industry: None,
        }],
        postings: Postings::new(),
        rates: Rates::opening(),
        treasury: 0,
        events: Vec::new(),
        modules: ModuleSet::all(),
        ports: Ports { burned_upkeep: 0, paid_wages: 0 },
        shared: Shared::empty(),
        settlement: Settlement { standing: vec![false, false] },
        reckonings: Vec::new(),
        attention: ninjo::attention::Attention::opening(),
        pause: None,
        pauses: 0,
    }
}

#[test]
fn the_camp_becomes_a_settlement_when_something_stands() {
    let mut sim = lens_world();
    assert_eq!(standing_as(&Lens::on(&sim)), "a camp");
    sim.settlement.standing[1] = true;
    assert_eq!(standing_as(&Lens::on(&sim)), "a settlement");
}

#[test]
fn every_accessor_reads_the_store_it_names() {
    let tuning = Tuning::shipped();
    let mut sim = lens_world();
    sim.shared.adjust_regard(&tuning, 0, Regarded::Person(1), 4);
    sim.shared.adjust_regard(&tuning, 1, Regarded::Person(0), -3);
    sim.shared.adjust_regard(&tuning, 0, Regarded::Player, 2);
    sim.treasury = 137;
    sim.parties[2].activity = Activity::Working { until: 300 };
    let lens = Lens::on(&sim);
    assert_eq!(lens.treasury(), 137);
    assert_eq!(lens.people().len(), sim.people.len());
    assert_eq!(lens.parties().len(), sim.parties.len());
    assert_eq!(lens.sites().len(), 1);
    assert_eq!(lens.open_quests(7), 1);
    assert_eq!(lens.open_quests(8), 0);
    assert!(lens.events().is_empty());
    assert_eq!(lens.regard(0, Regarded::Person(1)), 4);
    assert_eq!(lens.regard(1, Regarded::Person(0)), -3);
    assert_eq!(lens.regard(0, Regarded::Player), 2);
    assert_eq!(lens.regard(5, Regarded::Player), 0);
    for who in 0..sim.people.len() {
        assert_eq!(lens.name(who), sim.people[who].name);
        assert_eq!(lens.wallet(who), sim.people[who].wallet);
        assert_eq!(lens.desperation(who), sim.people[who].desperation);
        assert_eq!(lens.source(who), sim.people[who].source);
        assert_eq!(lens.traits(who), sim.people[who].traits.as_slice());
        assert_eq!(lens.home(who), Some(sim.people[who].home));
        assert_eq!(lens.present(who), sim.people[who].present);
        assert!(lens.person(who).is_some());
        assert!(lens.party(who).is_some());
    }
    assert_eq!(lens.name(99), "someone");
    assert_eq!(lens.wallet(99), 0);
    assert!(lens.person(99).is_none());
    assert_eq!(lens.home(99), None::<Tile>);
    assert_eq!(lens.roll(), vec![0, 1, 2, 3]);
}

#[test]
fn regard_as_felt_is_the_carriers_weighting() {
    let tuning = Tuning::shipped();
    let mut sim = lens_world();
    sim.shared.adjust_regard(&tuning, 1, Regarded::Person(0), 3);
    sim.shared.adjust_regard(&tuning, 2, Regarded::Person(0), 3);
    let lens = Lens::on(&sim);
    assert_eq!(lens.regard_as_felt(1, Regarded::Person(0)), 6);
    assert_eq!(lens.regard_as_felt(2, Regarded::Person(0)), 1);
    assert_eq!(lens.regard_as_felt(0, Regarded::Person(1)), 0);
}

#[test]
fn the_activity_line_says_where_they_are() {
    let mut sim = lens_world();
    sim.parties[2].activity = Activity::Working { until: 300 };
    sim.parties[3].activity = Activity::Visiting { until: 45 };
    let lens = Lens::on(&sim);
    assert_eq!(lens.activity_line(2), "out with Alex - working");
    assert_eq!(lens.activity_line(3), "out with Tim - visiting");
    assert_eq!(lens.activity_line(0), "at home, and nobody has asked them for anything");
    assert!(!lens.at_home(2));
    assert!(lens.at_home(0));
}

#[test]
fn the_lens_reads_the_pause_and_the_count() {
    let mut sim = lens_world();
    assert_eq!(Lens::on(&sim).pause(), None);
    assert_eq!(Lens::on(&sim).pauses(), 0);
    sim.pause = Some(ninjo::attention::Pause { event: 3, class: ninjo::sim::EventClass::QuestComplete, minute: 240 });
    sim.pauses = 2;
    let lens = Lens::on(&sim);
    assert_eq!(lens.pause().unwrap().minute, 240);
    assert_eq!(lens.pauses(), 2);
    assert_eq!(lens.attention().mode(ninjo::sim::EventClass::QuestComplete), ninjo::attention::Mode::Log);
}

/// A map holding each named place at its index, and the town at the rest.
fn places(named: &[(usize, &'static str)]) -> Vec<Location> {
    let mut map: Vec<Location> = Vec::new();
    for &(at, name) in named {
        while map.len() <= at {
            map.push(Location { name: "the town", tile: Tile::new(0, 0) });
        }
        map[at] = Location { name, tile: Tile::new(at as i64, 0) };
    }
    map
}
