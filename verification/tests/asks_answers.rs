use ninjo::people::Tile;
use ninjo::sim::Location;
use ninjo::answers::{read, settle_wage, terms, Verdict};
use ninjo::asks::{
    fit_means, post, preview_posting, rate_table, withdraw, Answer, Offer, Posting, Postings, Rates,
    Status, Until, What, Who, RATE_MAX,
};
use ninjo::constants::Tuning;
use ninjo::lens::Lens;
use ninjo::people::roster;
use ninjo::sim::{
    Activity, EventClass, JobId, JobState, ModuleSet, Party, Ports, Quest, Settlement, Sim, Site,
};
use ninjo::stores::{Regarded, Shared};
use ninjo::traits::TaskType;

fn row(name: &'static str, task: TaskType, pot: i64) -> Quest {
    Quest { name, task, pot, duration: 120 }
}

fn board(location: usize, quests: Vec<Quest>) -> Site {
    let states = vec![JobState::Open; quests.len()];
    Site { location, quests, states, industry: None }
}

fn asking_world() -> Sim {
    let people = roster();
    let parties = people
        .iter()
        .enumerate()
        .map(|(who, person)| Party {
            name: person.name,
            member: who,
            tile: person.home,
            activity: Activity::Idle,
            rested_until: 0,
            posting: None,
        })
        .collect();
    let mut sim = Sim {
        people,
        parties,
        locations: places(&[(1, "the Ridge"), (2, "the Deep Cave"), (3, "the Lookout")]),
        sites: vec![
            board(1, vec![row("the ridge patrol", TaskType::Fight, 55)]),
            board(2, vec![row("the mushroom haul", TaskType::Labor, 20)]),
            board(3, vec![row("the long watch", TaskType::Scout, 30)]),
        ],
        postings: Postings::new(),
        rates: Rates::opening(),
        treasury: 500,
        events: Vec::new(),
        modules: ModuleSet::all(),
        ports: Ports { burned_upkeep: 0, paid_wages: 0 },
        shared: Shared::empty(),
        settlement: Settlement { standing: Vec::new() },
        reckonings: Vec::new(),
        attention: ninjo::attention::Attention::opening(),
        pause: None,
        pauses: 0,
    };
    let tuning = Tuning::shipped();
    let bob = named(&sim, "bob");
    let alex = named(&sim, "alex");
    sim.shared.adjust_regard(&tuning, bob, Regarded::Player, 2);
    sim.shared.adjust_regard(&tuning, alex, Regarded::Player, 2);
    sim
}

fn named(sim: &Sim, id: &str) -> usize {
    sim.people.iter().position(|person| person.id == id).unwrap()
}

fn ask_sum(sim: &Sim, who: usize, job: JobId, wage: i64, targeted: bool) -> i64 {
    let tuning = Tuning::shipped();
    let mut posting = preview_posting(who, job.site, job.slot, wage, wage);
    if !targeted {
        posting.who = Who::Anyone;
    }
    terms(sim, &tuning, 0, who, &posting, job).iter().map(|t| t.value).sum()
}

#[test]
fn the_standing_rates_open_at_the_table() {
    let rates = Rates::opening();
    assert_eq!(rates.of(TaskType::Fight), 24);
    assert_eq!(rates.of(TaskType::Labor), 16);
    assert_eq!(rates.of(TaskType::Scout), 20);
    assert_eq!(rates.of(TaskType::Craft), 20);
    assert_eq!(rates.stamp(), "rates:fight=24,labor=16,scout=20,craft=20");
    let table = rate_table();
    assert_eq!(table.len(), 4);
    assert_eq!(table[1].task, TaskType::Labor);
    assert_eq!(table[1].opening, 16);
    assert_eq!(Rates::default(), Rates::opening());
}

#[test]
fn a_rate_steps_inside_the_panel() {
    let mut rates = Rates::opening();
    assert_eq!(rates.step(TaskType::Labor, 4), 20);
    assert_eq!(rates.of(TaskType::Labor), 20);
    assert_eq!(rates.step(TaskType::Labor, -100), 0);
    assert_eq!(rates.step(TaskType::Fight, 1000), RATE_MAX);
    assert_eq!(rates.stamp(), format!("rates:fight={RATE_MAX},labor=0,scout=20,craft=20"));
}

#[test]
fn a_step_is_read_back_and_touches_no_other_row() {
    let mut rates = Rates::opening();
    let held = rates.step(TaskType::Scout, 7);
    assert_eq!(held, 27);
    assert_eq!(rates.of(TaskType::Scout), held);
    assert_eq!(rates.of(TaskType::Fight), 24);
    assert_eq!(rates.of(TaskType::Labor), 16);
    assert_eq!(rates.of(TaskType::Craft), 20);
    assert_eq!(rates.step(TaskType::Craft, i64::MAX - 20), RATE_MAX);
    assert_eq!(rates.step(TaskType::Craft, i64::MIN), 0);
}

#[test]
fn the_eager_workers_answer_to_a_labour_posting() {
    let sim = asking_world();
    let haul = JobId { site: 1, slot: 0 };
    assert_eq!(ask_sum(&sim, named(&sim, "ludo"), haul, 16, true), 32);
    assert_eq!(ask_sum(&sim, named(&sim, "ludo"), haul, 16, false), 26);
}

#[test]
fn the_greedy_founders_answer_to_a_fight_posting() {
    let sim = asking_world();
    let patrol = JobId { site: 0, slot: 0 };
    assert_eq!(ask_sum(&sim, named(&sim, "bob"), patrol, 24, true), 42);
}

#[test]
fn the_cold_founders_answer_to_a_scout_posting() {
    let sim = asking_world();
    let watch = JobId { site: 2, slot: 0 };
    assert_eq!(ask_sum(&sim, named(&sim, "alex"), watch, 20, true), 22);
}

#[test]
fn a_wage_off_the_standing_rate_moves_regard_one_step() {
    let tuning = Tuning::shipped();
    let haul = JobId { site: 1, slot: 0 };
    for (wage, want) in [(20i64, 1i64), (16, 0), (12, -1)] {
        let mut sim = asking_world();
        let ludo = named(&sim, "ludo");
        sim.postings.push(Posting {
            id: 0,
            who: Who::Person(ludo),
            what: What::Job(haul),
            until: Until::Done,
            wage,
            rate_at_posting: 16,
            made_at: 0,
            heard: Vec::new(),
            answered: Vec::new(),
            status: Status::Open,
        });
        sim.parties[ludo].posting = Some(0);
        let before = sim.shared.regard(ludo, Regarded::Player);
        let opened = sim.people[ludo].wallet;
        let paid = settle_wage(&mut sim, &tuning, ludo);
        assert_eq!(paid, wage);
        assert_eq!(sim.shared.regard(ludo, Regarded::Player) - before, want);
        assert_eq!(sim.people[ludo].wallet - opened, wage);
        assert_eq!(500 - sim.treasury, paid);
    }
}

#[test]
fn a_party_with_no_posting_is_paid_nothing() {
    let tuning = Tuning::shipped();
    let mut sim = asking_world();
    let ludo = named(&sim, "ludo");
    assert_eq!(settle_wage(&mut sim, &tuning, ludo), 0);
    assert_eq!(sim.treasury, 500);
}

#[test]
fn the_row_reads_what_the_answer_will_be() {
    let tuning = Tuning::shipped();
    let sim = asking_world();
    let ludo = named(&sim, "ludo");
    let haul = JobId { site: 1, slot: 0 };
    let generous = preview_posting(ludo, 1, 0, 16, 16);
    assert!(read(&sim, &tuning, 0, ludo, &generous, haul).0.takes());
    let alex = named(&sim, "alex");
    let patrol = JobId { site: 0, slot: 0 };
    let stingy = preview_posting(alex, 0, 0, 0, 24);
    let (verdict, _) = read(&sim, &tuning, 0, alex, &stingy, patrol);
    assert_eq!(verdict, Verdict::WouldRefuse);
    assert!(!verdict.takes());
}

#[test]
fn a_posting_is_made_heard_and_answered_at_once_by_somebody_at_home() {
    let tuning = Tuning::shipped();
    let mut sim = asking_world();
    let ludo = named(&sim, "ludo");
    let haul = JobId { site: 1, slot: 0 };
    let id = post(
        &mut sim,
        &tuning,
        30,
        Offer { who: Who::Person(ludo), what: What::Job(haul), until: Until::Done, wage: 16 },
    );
    assert_eq!(id, Some(0));
    let made = sim.postings.get(0).unwrap();
    assert_eq!(made.wage, 16);
    assert_eq!(made.rate_at_posting, 16);
    assert_eq!(made.made_at, 30);
    assert_eq!(made.heard_by(ludo), Some(30));
    assert_eq!(sim.events[0].class, EventClass::PostingMade);
    assert_eq!(sim.events[0].note, "posted: Ludo - the mushroom haul - 16g - until done");
    assert_eq!(sim.events[1].class, EventClass::AskHeard);
    assert!(made
        .answered
        .iter()
        .any(|(who, answer)| *who == ludo && matches!(answer, Answer::Agreed { job } if *job == haul)));
}

#[test]
fn a_withdrawn_posting_is_never_answered() {
    let tuning = Tuning::shipped();
    let mut sim = asking_world();
    let alex = named(&sim, "alex");
    sim.parties[alex].activity = Activity::Working { until: 999 };
    let id = post(
        &mut sim,
        &tuning,
        0,
        Offer { who: Who::Person(alex), what: What::Task(TaskType::Scout), until: Until::Withdrawn, wage: 20 },
    )
    .unwrap();
    assert_eq!(sim.postings.get(id).unwrap().heard_by(alex), None);
    withdraw(&mut sim, 5, id);
    let taken_down = sim.postings.get(id).unwrap();
    assert_eq!(taken_down.status, Status::Withdrawn);
    assert!(!taken_down.open_to(alex));
    assert!(taken_down.answered.is_empty());
    assert_eq!(taken_down.id, id);
    assert_eq!(taken_down.who, Who::Person(alex));
    assert_eq!(taken_down.what, What::Task(TaskType::Scout));
    assert_eq!(taken_down.until, Until::Withdrawn);
    assert_eq!(taken_down.wage, 20);
    assert_eq!(taken_down.made_at, 0);
    assert_eq!(sim.events.last().unwrap().class, EventClass::PostingWithdrawn);
    assert_eq!(sim.events.last().unwrap().note, "withdrew: any scout work - 20g - until withdrawn");
}

#[test]
fn a_site_is_named_by_the_location_it_stands_on() {
    let mut sim = asking_world();
    sim.locations[3].name = "the Old Lookout";
    assert_eq!(What::Site(2).label(&sim), "any job at the Old Lookout");
    sim.sites[2].location = 40;
    assert_eq!(What::Site(2).label(&sim), "any job at somewhere");
}

#[test]
fn a_large_wage_is_weighed_in_proportion() {
    let sim = asking_world();
    let ludo = named(&sim, "ludo");
    let job = JobId { site: 1, slot: 0 };
    let small = ask_sum(&sim, ludo, job, 10_000, true);
    let large = ask_sum(&sim, ludo, job, 10_000_000_000, true);
    let rest = ask_sum(&sim, ludo, job, 0, true);
    assert_eq!(large - rest, (small - rest) * 1_000_000);
    assert!(large - rest > 0);
}

#[test]
fn with_asks_off_nothing_is_posted() {
    let tuning = Tuning::shipped();
    let mut sim = asking_world();
    sim.modules = ModuleSet::all().without(ninjo::sim::Module::Asks);
    let ludo = named(&sim, "ludo");
    let id = post(
        &mut sim,
        &tuning,
        0,
        Offer { who: Who::Person(ludo), what: What::Site(1), until: Until::Done, wage: 16 },
    );
    assert_eq!(id, None);
    assert_eq!(sim.postings.len(), 0);
    assert!(sim.events.is_empty());
}

#[test]
fn the_ledger_names_what_it_asks_for() {
    let sim = asking_world();
    let lens = Lens::on(&sim);
    let ludo = named(&sim, "ludo");
    let posting = preview_posting(ludo, 1, 0, 16, 16);
    assert_eq!(posting.line(&lens), "Ludo - the mushroom haul - 16g - until done");
    assert_eq!(posting.terms_line(&lens), "the mushroom haul - 16g - until done");
    assert_eq!(What::Task(TaskType::Craft).label(&sim), "any craft work");
    assert_eq!(What::Job(JobId { site: 9, slot: 0 }).label(&sim), "that job");
    assert_eq!(What::Site(1).label(&sim), "any job at the Deep Cave");
    assert_eq!(What::Site(9).label(&sim), "any job at somewhere");
    assert!(fit_means().starts_with("fit: their aptitude for this work."));
}

#[test]
fn the_ledgers_second_line_is_the_record() {
    let sim = asking_world();
    let lens = Lens::on(&sim);
    let ludo = named(&sim, "ludo");
    let steve = named(&sim, "steve");
    let mut posting = preview_posting(ludo, 1, 0, 16, 16);
    posting.made_at = 400;
    assert_eq!(
        ninjo::ledger::answers_line(&lens, &posting),
        "d1 06:40 - unheard; a messenger is carrying it to Ludo"
    );
    posting.who = Who::Anyone;
    assert_eq!(
        ninjo::ledger::answers_line(&lens, &posting),
        "d1 06:40 - unread; the camp reads the board as they think"
    );
    posting.heard = vec![(ludo, 400), (steve, 410)];
    assert_eq!(ninjo::ledger::answers_line(&lens, &posting), "d1 06:40 - heard by Ludo, Steve");
    posting.answered = vec![
        (ludo, Answer::Agreed { job: JobId { site: 1, slot: 0 } }),
        (steve, Answer::Declined { reason: "would rather stay".to_owned() }),
    ];
    assert_eq!(
        ninjo::ledger::answers_line(&lens, &posting),
        "d1 06:40 - Ludo took it; Steve said no: would rather stay"
    );
}

#[test]
fn an_ask_the_row_reads_as_refused_is_refused_when_heard() {
    let tuning = Tuning::shipped();
    let mut sim = asking_world();
    let alex = named(&sim, "alex");
    let patrol = JobId { site: 0, slot: 0 };
    let preview = preview_posting(alex, 0, 0, 0, 24);
    let (verdict, reason) = read(&sim, &tuning, 0, alex, &preview, patrol);
    assert_eq!(verdict, Verdict::WouldRefuse);
    post(&mut sim, &tuning, 0, Offer { who: Who::Person(alex), what: What::Job(patrol), until: Until::Done, wage: 0 });
    let made = sim.postings.get(0).unwrap();
    assert!(made.declined_by(alex));
    assert!(made
        .answered
        .iter()
        .any(|(who, answer)| *who == alex && matches!(answer, Answer::Declined { reason: r } if *r == reason)));
    assert!(sim.events.iter().any(|e| e.class == EventClass::AskDeclined && e.party == alex));
}

#[test]
fn a_posting_nobody_has_heard_is_nobodys_candidate() {
    let mut sim = asking_world();
    let ludo = named(&sim, "ludo");
    sim.postings.push(Posting {
        id: 0,
        who: Who::Person(ludo),
        what: What::Job(JobId { site: 1, slot: 0 }),
        until: Until::Done,
        wage: 16,
        rate_at_posting: 16,
        made_at: 0,
        heard: Vec::new(),
        answered: Vec::new(),
        status: Status::Open,
    });
    assert!(ninjo::answers::candidates(&sim, ludo).is_empty());
    sim.postings.record_hearing(0, ludo, 5);
    assert_eq!(
        ninjo::answers::candidates(&sim, ludo),
        vec![ninjo::autonomy::Action::Answer { posting: 0, job: JobId { site: 1, slot: 0 } }]
    );
    sim.postings.set_status(0, Status::Withdrawn);
    assert!(ninjo::answers::candidates(&sim, ludo).is_empty());
}

#[test]
fn an_ask_to_somebody_away_is_heard_when_the_messenger_reaches_them() {
    let tuning = Tuning::shipped();
    let mut sim = asking_world();
    let alex = named(&sim, "alex");
    sim.parties[alex].activity = Activity::Working { until: 200 };
    let id = post(
        &mut sim,
        &tuning,
        10,
        Offer { who: Who::Person(alex), what: What::Task(TaskType::Scout), until: Until::Withdrawn, wage: 20 },
    )
    .unwrap();
    assert_eq!(sim.postings.get(id).unwrap().heard_by(alex), None);
    sim.parties[alex].activity = Activity::Idle;
    ninjo::asks::deliver_on_arrival(&mut sim, 200, alex);
    assert_eq!(sim.postings.get(id).unwrap().heard_by(alex), Some(200));
    assert_eq!(sim.events.last().unwrap().class, EventClass::AskHeard);
    assert_eq!(sim.events.last().unwrap().party, alex);
    let before = sim.events.len();
    ninjo::asks::deliver_on_arrival(&mut sim, 300, alex);
    assert_eq!(sim.events.len(), before);
}

#[test]
fn a_notice_on_the_board_is_read_at_camp() {
    let mut sim = asking_world();
    let tim = named(&sim, "tim");
    sim.postings.push(Posting {
        id: 0,
        who: Who::Anyone,
        what: What::Site(1),
        until: Until::Withdrawn,
        wage: 16,
        rate_at_posting: 16,
        made_at: 0,
        heard: Vec::new(),
        answered: Vec::new(),
        status: Status::Open,
    });
    ninjo::asks::hear_the_board(&mut sim, 50, tim);
    assert_eq!(sim.postings.get(0).unwrap().heard_by(tim), Some(50));
    assert_eq!(sim.events.len(), 1);
    ninjo::asks::hear_the_board(&mut sim, 60, tim);
    assert_eq!(sim.postings.get(0).unwrap().heard_by(tim), Some(50));
    assert_eq!(sim.events.len(), 1);
}

/// A map holding each named place at its index, and the town at the rest.
fn places(named: &[(usize, &'static str)]) -> Vec<Location> {
    let mut map: Vec<Location> = Vec::new();
    for &(at, name) in named {
        while map.len() <= at {
            map.push(Location { name: "the town", tile: Tile::new(0, 0) });
        }
        map[at] = Location { name, tile: Tile::new(at as i64, 0) };
    }
    map
}
