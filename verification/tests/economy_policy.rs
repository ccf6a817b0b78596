use ninjo::people::Tile;
use ninjo::sim::Location;
use ninjo::asks::{post, Answer, Offer, Postings, Rates, Status, Until, What, Who, Posting};
use ninjo::constants::Tuning;
use ninjo::economy::{
    attend, best_fit, median, most_refused, post_to_the_idle, raise_the_most_refused, tally, Outcome,
    Player,
};
use ninjo::people::roster;
use ninjo::sim::{
    Activity, Event, EventClass, JobId, JobState, ModuleSet, Party, Ports, Quest, Settlement, Sim, Site,
};
use ninjo::stores::Shared;
use ninjo::traits::TaskType;

fn job_row(name: &'static str, task: TaskType, pot: i64) -> Quest {
    Quest { name, task, pot, duration: 120 }
}

fn economy_world() -> Sim {
    let people = roster();
    let parties = people
        .iter()
        .enumerate()
        .map(|(who, person)| Party {
            name: person.name,
            member: who,
            tile: person.home,
            activity: Activity::Idle,
            rested_until: 0,
            posting: None,
        })
        .collect();
    Sim {
        people,
        parties,
        locations: places(&[(1, "the Ridge"), (2, "the camp works"), (3, "the Deep Cave")]),
        sites: vec![
            Site {
                location: 1,
                quests: vec![job_row("the ridge patrol", TaskType::Fight, 55), job_row("the signal repair", TaskType::Craft, 45)],
                states: vec![JobState::Open, JobState::Open],
                industry: None,
            },
            Site {
                location: 2,
                quests: vec![job_row("a shift at the kiln", TaskType::Labor, 0)],
                states: vec![JobState::Open],
                industry: Some(0),
            },
            Site {
                location: 3,
                quests: vec![job_row("the mushroom haul", TaskType::Labor, 20)],
                states: vec![JobState::Open],
                industry: None,
            },
        ],
        postings: Postings::new(),
        rates: Rates::opening(),
        treasury: 500,
        events: Vec::new(),
        modules: ModuleSet::all(),
        ports: Ports { burned_upkeep: 0, paid_wages: 0 },
        shared: Shared::empty(),
        settlement: Settlement { standing: vec![false] },
        reckonings: Vec::new(),
        attention: ninjo::attention::Attention::opening(),
        pause: None,
        pauses: 0,
    }
}

fn feed_entry(class: EventClass) -> Event {
    Event { minute: 0, class, party: 0, tile: ninjo::people::Tile::new(0, 0), location: None, note: String::new() }
}

fn refused_posting(id: usize, job: JobId) -> Posting {
    Posting {
        id,
        who: Who::Person(0),
        what: What::Job(job),
        until: Until::Done,
        wage: 10,
        rate_at_posting: 16,
        made_at: 0,
        heard: vec![(0, 0)],
        answered: vec![(0, Answer::Declined { reason: "would rather not".to_owned() })],
        status: Status::Open,
    }
}

#[test]
fn the_median_is_the_low_middle() {
    assert_eq!(median(&[]), 0);
    assert_eq!(median(&[7]), 7);
    assert_eq!(median(&[5, 1, 9]), 5);
    assert_eq!(median(&[4, 1, 3, 2]), 2);
    assert_eq!(median(&[3, 3, 1, 3]), 3);
    assert_eq!(median(&[-5, 10, -20, 0, 7, 7]), 0);
    assert_eq!(median(&[i64::MAX, i64::MIN]), i64::MIN);
}

#[test]
fn an_outcome_reads_its_medians() {
    let outcome = Outcome {
        wallets: vec![0, 17, 3, 0, 40],
        desperation: vec![2, 8, 5, 5],
        treasury: 1260,
        shortfalls: 7,
        first_short: Some(1),
        ports: Ports { burned_upkeep: 35, paid_wages: 0 },
        opening_wallets: 82,
        holders: 1320,
        completed: 24,
        built: false,
    };
    assert_eq!(outcome.median_wallet(), 3);
    assert_eq!(outcome.median_desperation(), 5);
    assert_ne!(Player::Idle, Player::Attentive);
}

#[test]
fn the_best_fit_skips_the_works_and_takes_the_front_on_a_tie() {
    let sim = economy_world();
    let ines = 8;
    assert_eq!(best_fit(&sim, ines), Some((JobId { site: 0, slot: 1 }, TaskType::Craft)));
    let steve = 1;
    assert_eq!(best_fit(&sim, steve), Some((JobId { site: 2, slot: 0 }, TaskType::Labor)));
    let tim = 3;
    assert_eq!(best_fit(&sim, tim), Some((JobId { site: 2, slot: 0 }, TaskType::Labor)));
    let rin_has_no_fight = 4;
    assert_eq!(best_fit(&sim, rin_has_no_fight), Some((JobId { site: 0, slot: 1 }, TaskType::Craft)));
    let alex = 2;
    assert_eq!(best_fit(&sim, alex), Some((JobId { site: 0, slot: 0 }, TaskType::Fight)));
    assert_eq!(best_fit(&sim, 99), None);
}

#[test]
fn a_job_already_posted_to_somebody_is_not_their_best_fit_again() {
    let tuning = Tuning::shipped();
    let mut sim = economy_world();
    let alex = 2;
    sim.parties[alex].activity = Activity::Working { until: 999 };
    post(&mut sim, &tuning, 0, Offer { who: Who::Person(alex), what: What::Job(JobId { site: 0, slot: 0 }), until: Until::Done, wage: 24 });
    assert_eq!(best_fit(&sim, alex), Some((JobId { site: 0, slot: 1 }, TaskType::Craft)));
}

#[test]
fn the_tally_counts_agreements_and_refusals() {
    let mut sim = economy_world();
    sim.events = vec![
        feed_entry(EventClass::AskAgreed),
        feed_entry(EventClass::AskDeclined),
        feed_entry(EventClass::PostingMade),
        feed_entry(EventClass::AskDeclined),
    ];
    assert_eq!(tally(&sim), (1, 2));
}

#[test]
fn the_most_refused_kind_of_work_is_the_last_of_the_most() {
    let mut sim = economy_world();
    assert_eq!(most_refused(&sim), None);
    sim.postings.push(refused_posting(0, JobId { site: 0, slot: 0 }));
    sim.postings.push(refused_posting(1, JobId { site: 2, slot: 0 }));
    assert_eq!(most_refused(&sim), Some(TaskType::Labor));
    sim.postings.push(refused_posting(2, JobId { site: 0, slot: 0 }));
    assert_eq!(most_refused(&sim), Some(TaskType::Fight));
    sim.postings.push(refused_posting(3, JobId { site: 9, slot: 0 }));
    assert_eq!(most_refused(&sim), Some(TaskType::Fight));
}

#[test]
fn refusals_outrunning_agreements_raise_the_most_refused_rate() {
    let mut sim = economy_world();
    sim.postings.push(refused_posting(0, JobId { site: 2, slot: 0 }));
    sim.events = vec![feed_entry(EventClass::AskDeclined), feed_entry(EventClass::AskDeclined), feed_entry(EventClass::AskAgreed)];
    assert_eq!(raise_the_most_refused(&mut sim, (0, 0)), (1, 2));
    assert_eq!(sim.rates.of(TaskType::Labor), 20);
    assert_eq!(raise_the_most_refused(&mut sim, (1, 2)), (1, 2));
    assert_eq!(sim.rates.of(TaskType::Labor), 20);
}

#[test]
fn the_attentive_player_posts_to_everybody_idle() {
    let tuning = Tuning::shipped();
    let mut sim = economy_world();
    post_to_the_idle(&mut sim, &tuning, 60);
    let founders_posted: Vec<usize> = sim
        .postings
        .all()
        .iter()
        .filter_map(|p| match p.who { Who::Person(who) => Some(who), Who::Anyone => None })
        .collect();
    assert_eq!(founders_posted.len(), sim.postings.len());
    assert!(!founders_posted.is_empty());
    assert!(founders_posted.iter().all(|who| *who < 4));
    for p in sim.postings.all() {
        assert_eq!(p.until, Until::Done);
        assert_eq!(p.made_at, 60);
        assert_eq!(p.wage, p.rate_at_posting);
    }
    assert_eq!(sim.treasury, 500);
}

#[test]
fn the_attentive_day_returns_its_tally() {
    let tuning = Tuning::shipped();
    let mut sim = economy_world();
    let t = attend(&mut sim, &tuning, 60, (0, 0));
    assert_eq!(t, tally(&sim));
}

/// A map holding each named place at its index, and the town at the rest.
fn places(named: &[(usize, &'static str)]) -> Vec<Location> {
    let mut map: Vec<Location> = Vec::new();
    for &(at, name) in named {
        while map.len() <= at {
            map.push(Location { name: "the town", tile: Tile::new(0, 0) });
        }
        map[at] = Location { name, tile: Tile::new(at as i64, 0) };
    }
    map
}
