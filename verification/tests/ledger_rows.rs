use ninjo::people::Tile;
use ninjo::sim::Location;
use ninjo::asks::{rate_for, Answer, Posting, Postings, Rates, Status, Until, What, Who};
use ninjo::lens::Lens;
use ninjo::people::roster;
use ninjo::sim::{Activity, JobId, JobState, ModuleSet, Party, Ports, Quest, Settlement, Sim, Site};
use ninjo::stores::Shared;
use ninjo::traits::TaskType;

fn ledger_world() -> Sim {
    let people = roster();
    let parties = people
        .iter()
        .enumerate()
        .map(|(who, person)| Party {
            name: person.name,
            member: who,
            tile: person.home,
            activity: Activity::Idle,
            rested_until: 0,
            posting: None,
        })
        .collect();
    Sim {
        people,
        parties,
        locations: places(&[(4, "the Deep Cave")]),
        sites: vec![Site {
            location: 4,
            quests: vec![
                Quest { name: "the mushroom haul", task: TaskType::Labor, pot: 20, duration: 120 },
                Quest { name: "the far gallery", task: TaskType::Scout, pot: 30, duration: 90 },
            ],
            states: vec![JobState::Open, JobState::Open],
            industry: None,
        }],
        postings: Postings::new(),
        rates: Rates::opening(),
        treasury: 0,
        events: Vec::new(),
        modules: ModuleSet::all(),
        ports: Ports { burned_upkeep: 0, paid_wages: 0 },
        shared: Shared::empty(),
        settlement: Settlement { standing: Vec::new() },
        reckonings: Vec::new(),
        attention: ninjo::attention::Attention::opening(),
        pause: None,
        pauses: 0,
    }
}

fn row(id: usize, who: Who, what: What, until: Until, status: Status) -> Posting {
    Posting {
        id,
        who,
        what,
        until,
        wage: 12,
        rate_at_posting: 16,
        made_at: 0,
        heard: Vec::new(),
        answered: Vec::new(),
        status,
    }
}

#[test]
fn the_ledger_keeps_rows_in_the_order_they_were_made() {
    let mut ledger = Postings::new();
    assert_eq!(ledger.len(), 0);
    assert_eq!(ledger.push(row(0, Who::Anyone, What::Site(0), Until::Withdrawn, Status::Open)), 0);
    assert_eq!(ledger.push(row(1, Who::Person(2), What::Task(TaskType::Scout), Until::Done, Status::Filled)), 1);
    assert_eq!(ledger.push(row(2, Who::Person(7), What::Job(JobId { site: 0, slot: 0 }), Until::Done, Status::Open)), 2);
    assert_eq!(ledger.len(), 3);
    assert_eq!(ledger.all().len(), 3);
    assert_eq!(ledger.get(1).unwrap().who, Who::Person(2));
    assert!(ledger.get(3).is_none());
    assert_eq!(ledger.ids_where(|p| p.status == Status::Open), vec![0, 2]);
    assert_eq!(ledger.ids_where(|p| p.who == Who::Person(2)), vec![1]);
    assert!(ledger.ids_where(|p| p.wage > 100).is_empty());
    if let Some(p) = ledger.get_mut(0) {
        p.wage = 30;
    }
    assert_eq!(ledger.get(0).unwrap().wage, 30);
}

#[test]
fn a_postings_answers_are_its_own_record() {
    let mut p = row(0, Who::Person(2), What::Site(0), Until::Done, Status::Open);
    assert!(p.targets(2));
    assert!(!p.targets(3));
    assert_eq!(p.heard_by(2), None);
    assert!(!p.open_to(2));
    p.heard.push((2, 40));
    assert_eq!(p.heard_by(2), Some(40));
    assert!(p.open_to(2));
    assert!(!p.open_to(3));
    assert!(!p.declined_by(2));
    p.answered.push((2, Answer::Declined { reason: "busy".to_owned() }));
    assert!(p.declined_by(2));
    let mut notice = row(1, Who::Anyone, What::Site(0), Until::Withdrawn, Status::Open);
    notice.heard.push((5, 0));
    assert!(notice.open_to(5));
    assert!(!notice.targets(5));
    assert_eq!(Until::Done.name(), "done");
    assert_eq!(Until::Withdrawn.name(), "withdrawn");
    assert_eq!(Status::Filled.name(), "filled");
}

#[test]
fn what_a_posting_covers_and_what_it_is_called() {
    let sim = ledger_world();
    let lens = Lens::on(&sim);
    let haul = JobId { site: 0, slot: 0 };
    let gallery = JobId { site: 0, slot: 1 };
    assert!(What::Job(haul).covers(&sim, haul));
    assert!(!What::Job(haul).covers(&sim, gallery));
    assert!(What::Site(0).covers(&sim, gallery));
    assert!(What::Task(TaskType::Scout).covers(&sim, gallery));
    assert!(!What::Task(TaskType::Scout).covers(&sim, haul));
    assert!(!What::Site(0).covers(&sim, JobId { site: 0, slot: 5 }));
    assert_eq!(What::Job(gallery).label_through(&lens), "the far gallery");
    assert_eq!(What::Task(TaskType::Labor).label_through(&lens), "any labor work");
    assert_eq!(rate_for(&sim, What::Job(haul)), 16);
    assert_eq!(rate_for(&sim, What::Task(TaskType::Fight)), 24);
}

#[test]
fn a_standing_posting_is_not_made_twice() {
    let mut sim = ledger_world();
    let haul = JobId { site: 0, slot: 0 };
    sim.postings.push(row(0, Who::Person(7), What::Site(0), Until::Done, Status::Open));
    assert!(sim.postings.already_posted(&sim, Who::Person(7), haul));
    assert!(!sim.postings.already_posted(&sim, Who::Person(1), haul));
    sim.postings.set_status(0, Status::Withdrawn);
    assert!(!sim.postings.already_posted(&sim, Who::Person(7), haul));
}

/// A map holding each named place at its index, and the town at the rest.
fn places(named: &[(usize, &'static str)]) -> Vec<Location> {
    let mut map: Vec<Location> = Vec::new();
    for &(at, name) in named {
        while map.len() <= at {
            map.push(Location { name: "the town", tile: Tile::new(0, 0) });
        }
        map[at] = Location { name, tile: Tile::new(at as i64, 0) };
    }
    map
}
