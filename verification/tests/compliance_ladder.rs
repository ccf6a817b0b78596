use ninjo::people::Tile;
use ninjo::sim::Location;
use ninjo::answers::read;
use ninjo::asks::{preview_posting, Postings, Rates};
use ninjo::compliance::{band_members, bands, ladder, one_job_per_task, takes_off_the_ladder, BandKind, RUNGS};
use ninjo::constants::Tuning;
use ninjo::people::roster;
use ninjo::sim::{Activity, JobId, JobState, ModuleSet, Party, Ports, Quest, Settlement, Sim, Site};
use ninjo::stores::Shared;
use ninjo::traits::TaskType;

fn ladder_world() -> Sim {
    let people = roster();
    let parties = people
        .iter()
        .enumerate()
        .map(|(who, person)| Party {
            name: person.name,
            member: who,
            tile: person.home,
            activity: Activity::Idle,
            rested_until: 0,
            posting: None,
        })
        .collect();
    let q = |name: &'static str, task: TaskType| Quest { name, task, pot: 30, duration: 120 };
    Sim {
        people,
        parties,
        locations: places(&[(1, "the Ridge"), (2, "the Deep Cave")]),
        sites: vec![
            Site {
                location: 1,
                quests: vec![q("the ridge patrol", TaskType::Fight), q("the old post", TaskType::Labor)],
                states: vec![JobState::Open, JobState::Done { by: 0 }],
                industry: None,
            },
            Site {
                location: 2,
                quests: vec![q("the mushroom haul", TaskType::Labor), q("the far gallery", TaskType::Scout)],
                states: vec![JobState::Open, JobState::Open],
                industry: None,
            },
        ],
        postings: Postings::new(),
        rates: Rates::opening(),
        treasury: 0,
        events: Vec::new(),
        modules: ModuleSet::all(),
        ports: Ports { burned_upkeep: 0, paid_wages: 0 },
        shared: Shared::empty(),
        settlement: Settlement { standing: Vec::new() },
        reckonings: Vec::new(),
        attention: ninjo::attention::Attention::opening(),
        pause: None,
        pauses: 0,
    }
}

#[test]
fn the_ladder_and_the_bands_are_the_shipped_rows() {
    assert_eq!(ladder(), vec![0, 8, 16, 24, 32, 40, 48]);
    assert_eq!(ladder().len(), RUNGS);
    let names: Vec<&str> = bands().iter().map(|b| b.name).collect();
    assert_eq!(names, vec!["loyal", "cold", "greedy", "desperate"]);
    let takes: Vec<usize> = bands().iter().map(|b| b.takes).collect();
    assert_eq!(takes, vec![44, 16, 22, 76]);
}

#[test]
fn the_bands_are_who_carries_the_motivator() {
    let sim = ladder_world();
    assert_eq!(band_members(&sim, BandKind::Loyal), vec![1, 4]);
    assert_eq!(band_members(&sim, BandKind::Cold), vec![2]);
    assert_eq!(band_members(&sim, BandKind::Greedy), vec![0]);
    assert_eq!(band_members(&sim, BandKind::Desperate), vec![0, 1, 7]);
}

#[test]
fn one_open_job_of_each_kind_front_first() {
    let sim = ladder_world();
    assert_eq!(
        one_job_per_task(&sim),
        vec![
            (TaskType::Fight, JobId { site: 0, slot: 0 }),
            (TaskType::Labor, JobId { site: 1, slot: 0 }),
            (TaskType::Scout, JobId { site: 1, slot: 1 }),
        ]
    );
}

#[test]
fn what_a_character_takes_is_what_the_row_reads() {
    let tuning = Tuning::shipped();
    let sim = ladder_world();
    for who in 0..4 {
        let mut by_hand = 0usize;
        for (task, job) in one_job_per_task(&sim) {
            for wage in ladder() {
                let posting = preview_posting(who, job.site, job.slot, wage, sim.rates.of(task));
                if read(&sim, &tuning, 0, who, &posting, job).0.takes() {
                    by_hand += 1;
                }
            }
        }
        let taken = takes_off_the_ladder(&sim, &tuning, who);
        assert_eq!(taken, by_hand);
        assert!(taken <= 3 * RUNGS);
    }
}

#[test]
fn the_greedy_take_more_as_the_wage_climbs() {
    let tuning = Tuning::shipped();
    let sim = ladder_world();
    let bob = 0;
    let job = JobId { site: 1, slot: 0 };
    let takes_at = |wage: i64| read(&sim, &tuning, 0, bob, &preview_posting(bob, 1, 0, wage, 16), job).0.takes();
    let mut seen_yes = false;
    for wage in ladder() {
        let yes = takes_at(wage);
        assert!(!seen_yes || yes, "a higher wage was refused after a lower one was taken");
        seen_yes |= yes;
    }
}

/// A map holding each named place at its index, and the town at the rest.
fn places(named: &[(usize, &'static str)]) -> Vec<Location> {
    let mut map: Vec<Location> = Vec::new();
    for &(at, name) in named {
        while map.len() <= at {
            map.push(Location { name: "the town", tile: Tile::new(0, 0) });
        }
        map[at] = Location { name, tile: Tile::new(at as i64, 0) };
    }
    map
}
