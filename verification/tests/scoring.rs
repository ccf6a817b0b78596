use ninjo::people::Tile;
use ninjo::sim::Location;
use ninjo::asks::{Postings, Rates};
use ninjo::autonomy::{
    alive_window, candidates, decide, first_score, interval, reckon, rest_minutes, visit_minutes, weigh,
    Action,
};
use ninjo::constants::Tuning;
use ninjo::people::roster;
use ninjo::sim::{Activity, JobId, JobState, ModuleSet, Party, Ports, Quest, Settlement, Sim, Site};
use ninjo::stores::{Regarded, Shared};
use ninjo::traits::{competence_at, TaskType};

fn quest(name: &'static str, task: TaskType, pot: i64) -> Quest {
    Quest { name, task, pot, duration: 120 }
}

fn site(location: usize, quests: Vec<Quest>) -> Site {
    let states = vec![JobState::Open; quests.len()];
    Site { location, quests, states, industry: None }
}

fn opening_world() -> Sim {
    let people = roster();
    let parties = people
        .iter()
        .enumerate()
        .map(|(who, person)| Party {
            name: person.name,
            member: who,
            tile: person.home,
            activity: Activity::Idle,
            rested_until: 0,
            posting: None,
        })
        .collect();
    Sim {
        people,
        parties,
        locations: places(&[(1, "the Ridge"), (2, "the Deep Cave"), (3, "the Lookout"), (4, "the Black Vault")]),
        sites: vec![
            site(1, vec![quest("the ridge patrol", TaskType::Fight, 55)]),
            site(2, vec![quest("the mushroom haul", TaskType::Labor, 20)]),
            site(3, vec![quest("the long watch", TaskType::Scout, 30)]),
            site(4, vec![quest("the vault guard", TaskType::Fight, 80)]),
        ],
        postings: Postings::new(),
        rates: Rates::opening(),
        treasury: 0,
        events: Vec::new(),
        modules: ModuleSet::all(),
        ports: Ports { burned_upkeep: 0, paid_wages: 0 },
        shared: Shared::empty(),
        settlement: Settlement { standing: Vec::new() },
        reckonings: Vec::new(),
        attention: ninjo::attention::Attention::opening(),
        pause: None,
        pauses: 0,
    }
}

fn who_is(sim: &Sim, id: &str) -> usize {
    sim.people.iter().position(|person| person.id == id).unwrap()
}

fn score(sim: &Sim, tuning: &Tuning, now: u64, who: usize, action: Action) -> i64 {
    weigh(sim, tuning, now, who, action).iter().map(|term| term.value).sum()
}

#[test]
fn the_cadences_are_the_shipped_minutes() {
    let tuning = Tuning::shipped();
    assert_eq!(interval(&tuning), 240);
    assert_eq!(first_score(&tuning, 3), 312);
    assert_eq!(first_score(&tuning, 0), 240);
    assert_eq!(first_score(&tuning, 1_000_000_000), 240 + 24 * 1_000_000_000);
    assert_eq!(rest_minutes(&tuning), 360);
    assert_eq!(visit_minutes(&tuning), 45);
    assert_eq!(alive_window(&tuning), 4320);
}

#[test]
fn the_eager_worker_is_pulled_toward_open_labour() {
    let tuning = Tuning::shipped();
    let sim = opening_world();
    let ludo = who_is(&sim, "ludo");
    let haul = Action::SeekWork { job: JobId { site: 1, slot: 0 } };
    assert_eq!(score(&sim, &tuning, 0, ludo, haul), 20);
}

#[test]
fn the_pot_pulls_the_greedy() {
    let tuning = Tuning::shipped();
    let sim = opening_world();
    let bob = who_is(&sim, "bob");
    let vault = Action::SeekWork { job: JobId { site: 3, slot: 0 } };
    assert_eq!(score(&sim, &tuning, 0, bob, vault), 28);
}

#[test]
fn a_want_for_other_work_adds_nothing() {
    let tuning = Tuning::shipped();
    let sim = opening_world();
    let odd = who_is(&sim, "odd");
    let haul = Action::SeekWork { job: JobId { site: 1, slot: 0 } };
    assert_eq!(score(&sim, &tuning, 0, odd, haul), 6);
}

#[test]
fn idling_scores_the_floor() {
    let tuning = Tuning::shipped();
    let sim = opening_world();
    let ludo = who_is(&sim, "ludo");
    assert_eq!(score(&sim, &tuning, 0, ludo, Action::Idle), 3);
}

#[test]
fn rest_costs_until_it_ends() {
    let tuning = Tuning::shipped();
    let mut sim = opening_world();
    let ludo = who_is(&sim, "ludo");
    sim.parties[ludo].rested_until = 100;
    let haul = Action::SeekWork { job: JobId { site: 1, slot: 0 } };
    assert_eq!(score(&sim, &tuning, 0, ludo, haul), 8);
    assert_eq!(score(&sim, &tuning, 100, ludo, haul), 20);
}

#[test]
fn a_visit_is_worth_the_regard_the_visitor_feels() {
    let tuning = Tuning::shipped();
    let mut sim = opening_world();
    let steve = who_is(&sim, "steve");
    let bob = who_is(&sim, "bob");
    sim.shared.adjust_regard(&tuning, steve, Regarded::Person(bob), 3);
    assert_eq!(sim.shared.regard(steve, Regarded::Person(bob)), 3);
    assert_eq!(score(&sim, &tuning, 0, steve, Action::Socialize { toward: bob }), 12);
}

#[test]
fn the_scorer_passes_on_work_that_does_not_suit() {
    let tuning = Tuning::shipped();
    let mut sim = opening_world();
    sim.sites.retain(|site| site.quests[0].task == TaskType::Fight);
    let alex = who_is(&sim, "alex");
    let open = candidates(&sim, alex);
    assert_eq!(decide(&sim, &tuning, 0, alex, &open).action, Action::Idle);
}

#[test]
fn the_crafter_takes_the_craft_job_behind_a_fight_job() {
    let tuning = Tuning::shipped();
    let mut sim = opening_world();
    for site in sim.sites.iter_mut() {
        site.states = vec![JobState::Done { by: 0 }; site.quests.len()];
    }
    sim.sites[0].quests = vec![
        quest("the ridge patrol", TaskType::Fight, 55),
        quest("the signal repair", TaskType::Craft, 45),
    ];
    sim.sites[0].states = vec![JobState::Open; 2];
    let ines = who_is(&sim, "ines");
    let open = candidates(&sim, ines);
    let picked = decide(&sim, &tuning, 0, ines, &open);
    assert_eq!(picked.action, Action::SeekWork { job: JobId { site: 0, slot: 1 } });
    assert_eq!(competence_at(TaskType::Craft, &sim.people[ines].traits), 2);
}

#[test]
fn a_kept_reckoning_changes_no_decision() {
    let tuning = Tuning::shipped();
    let mut sim = opening_world();
    let ludo = who_is(&sim, "ludo");
    let open = candidates(&sim, ludo);
    let before = decide(&sim, &tuning, 0, ludo, &open);
    let scores: Vec<i64> = open.iter().map(|a| weigh(&sim, &tuning, 0, ludo, *a).iter().map(|t| t.value).sum()).collect();
    let record = reckon(&sim, &before);
    assert_eq!(record.score, before.score);
    sim.reckonings.push(record);
    assert_eq!(candidates(&sim, ludo), open);
    let after = decide(&sim, &tuning, 0, ludo, &open);
    assert_eq!(after.action, before.action);
    assert_eq!(after.score, before.score);
    assert_eq!(after.reason, before.reason);
    let rescored: Vec<i64> = open.iter().map(|a| weigh(&sim, &tuning, 0, ludo, *a).iter().map(|t| t.value).sum()).collect();
    assert_eq!(rescored, scores);
}

#[test]
fn the_decision_is_the_best_of_its_candidates() {
    let tuning = Tuning::shipped();
    let sim = opening_world();
    for who in 0..sim.people.len() {
        let open = candidates(&sim, who);
        let judged = decide(&sim, &tuning, 0, who, &open);
        let best = open
            .iter()
            .map(|action| score(&sim, &tuning, 0, who, *action))
            .max()
            .unwrap();
        assert_eq!(judged.score, best);
        let first_best = open
            .iter()
            .position(|action| score(&sim, &tuning, 0, who, *action) == best)
            .unwrap();
        assert_eq!(judged.action, open[first_best]);
    }
}

#[test]
fn nobody_who_is_out_is_offered_a_call_on_themselves() {
    let mut sim = opening_world();
    let ludo = who_is(&sim, "ludo");
    sim.parties[ludo].activity = Activity::Working { until: 999 };
    let open = candidates(&sim, ludo);
    assert!(!open.iter().any(|a| matches!(a, Action::Socialize { toward } if *toward == ludo)));
}

#[test]
fn pressing_somebody_moves_what_any_job_is_worth_to_them() {
    let tuning = Tuning::shipped();
    let easy = opening_world();
    let mut pressed = opening_world();
    let tim = who_is(&easy, "tim");
    pressed.people[tim].desperation = 10;
    for site in 0..easy.sites.len() {
        let job = Action::SeekWork { job: JobId { site, slot: 0 } };
        let before = score(&easy, &tuning, 0, tim, job);
        let after = score(&pressed, &tuning, 0, tim, job);
        assert_eq!(after - before, (10 - easy.people[tim].desperation) * tuning.need_weight);
    }
}

#[test]
fn the_eager_worker_takes_open_work_for_a_stated_reason() {
    let tuning = Tuning::shipped();
    let sim = opening_world();
    let ludo = who_is(&sim, "ludo");
    let chosen = decide(&sim, &tuning, 0, ludo, &candidates(&sim, ludo));
    assert!(matches!(chosen.action, Action::SeekWork { .. }));
    assert!(!chosen.reason.is_empty());
    assert_eq!(chosen.terms.iter().map(|t| t.value).sum::<i64>(), chosen.score);
    assert_eq!(chosen.action, Action::SeekWork { job: JobId { site: 0, slot: 0 } });
    assert_eq!(chosen.score, 20);
}

/// A map holding each named place at its index, and the town at the rest.
fn places(named: &[(usize, &'static str)]) -> Vec<Location> {
    let mut map: Vec<Location> = Vec::new();
    for &(at, name) in named {
        while map.len() <= at {
            map.push(Location { name: "the town", tile: Tile::new(0, 0) });
        }
        map[at] = Location { name, tile: Tile::new(at as i64, 0) };
    }
    map
}
