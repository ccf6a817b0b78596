use ninjo::asks::{Postings, Rates};
use ninjo::constants::Tuning;
use ninjo::lens::Lens;
use ninjo::needs::{
    burn, burn_per_day, camp_line, cost_of, first_burn, interval, is_desperate, is_short, need_at,
    owed_by, rewritten, DESPERATE_AT, PRESS,
};
use ninjo::people::{roster, DESPERATION_MAX};
use ninjo::sim::{Activity, EventClass, ModuleSet, Module, Party, Ports, Settlement, Sim};
use ninjo::stores::Shared;

fn camp_with_everybody() -> Sim {
    let mut people = roster();
    for person in people.iter_mut() {
        person.present = true;
    }
    let parties = people
        .iter()
        .enumerate()
        .map(|(who, person)| Party {
            name: person.name,
            member: who,
            tile: person.home,
            activity: Activity::Idle,
            rested_until: 0,
            posting: None,
        })
        .collect();
    Sim {
        people,
        parties,
        locations: Vec::new(),
        sites: Vec::new(),
        postings: Postings::new(),
        rates: Rates::opening(),
        treasury: 0,
        events: Vec::new(),
        modules: ModuleSet::all(),
        ports: Ports { burned_upkeep: 0, paid_wages: 0 },
        shared: Shared::empty(),
        settlement: Settlement { standing: Vec::new() },
        reckonings: Vec::new(),
        attention: ninjo::attention::Attention::opening(),
        pause: None,
        pauses: 0,
    }
}

fn index_of(sim: &Sim, id: &str) -> usize {
    sim.people.iter().position(|person| person.id == id).unwrap()
}

#[test]
fn upkeep_is_what_the_carriers_motivators_multiply_it_to() {
    let tuning = Tuning::shipped();
    let need = need_at(0).unwrap();
    let sim = camp_with_everybody();
    for (id, wanted) in [("steve", 7i64), ("bob", 6), ("alex", 5), ("tim", 5), ("rin", 6), ("ines", 6)] {
        let who = index_of(&sim, id);
        assert_eq!(cost_of(&tuning, &need, &sim.people[who].traits), wanted, "{id}");
        assert_eq!(owed_by(&tuning, &sim.people[who].traits), wanted, "{id}");
    }
}

#[test]
fn the_upkeep_interval_is_a_world_day_and_never_nothing() {
    let need = need_at(0).unwrap();
    assert!(need_at(1).is_none());
    let tuning = Tuning::shipped();
    assert_eq!(need.interval_hours(&tuning), 24);
    assert_eq!(interval(&tuning, &need), 1440);
    assert_eq!(first_burn(&tuning, &need), 1440);
    let stalled = tuning.with(ninjo::constants::Field::UpkeepHours, 0);
    assert_eq!(interval(&stalled, &need), 60);
}

#[test]
fn a_burn_takes_what_is_there_and_presses_the_short() {
    let tuning = Tuning::shipped();
    let need = need_at(0).unwrap();
    let mut sim = camp_with_everybody();
    let opened: Vec<i64> = sim.people.iter().map(|p| p.wallet).collect();
    let pressed: Vec<i64> = sim.people.iter().map(|p| p.desperation).collect();
    let costs: Vec<i64> = sim.people.iter().map(|p| cost_of(&tuning, &need, &p.traits)).collect();
    let short = burn(&mut sim, &tuning, 0, 0);
    let steve = index_of(&sim, "steve");
    let rin = index_of(&sim, "rin");
    let ludo = index_of(&sim, "ludo");
    assert_eq!(short, 3);
    for (who, person) in sim.people.iter().enumerate() {
        assert!(person.wallet >= 0);
        assert_eq!(person.wallet, (opened[who] - costs[who]).max(0));
        let went_short = who == steve || who == rin || who == ludo;
        assert_eq!(person.shortfalls, u64::from(went_short));
        assert_eq!(person.desperation, pressed[who] + i64::from(went_short) * PRESS);
    }
    let taken: i64 = opened.iter().sum::<i64>() - sim.people.iter().map(|p| p.wallet).sum::<i64>();
    assert_eq!(sim.ports.burned_upkeep, taken);
    assert_eq!(sim.events.len(), 3);
    assert_eq!(sim.events[1].party, rin);
    assert_eq!(sim.events[2].party, ludo);
    assert!(sim.events.iter().all(|e| e.class == EventClass::UpkeepShortfall && e.minute == 0));
    assert_eq!(sim.events[0].party, steve);
    assert_eq!(
        sim.events[0].note,
        "could not find 4g for upkeep - sends half of everything to a sister whose hands gave out \
         - and went short on day 1 (1 in all)"
    );
    assert_eq!(
        sim.people[steve].source,
        "sends half of everything to a sister whose hands gave out - and went short on day 1 (1 in all)"
    );
}

#[test]
fn forty_short_intervals_press_everybody_to_the_ceiling_and_no_further() {
    let tuning = Tuning::shipped();
    let mut sim = camp_with_everybody();
    for person in sim.people.iter_mut() {
        person.wallet = 0;
    }
    for minute in 0..40u64 {
        burn(&mut sim, &tuning, minute * 1440, 0);
    }
    assert!(sim.people.iter().all(|p| p.desperation == DESPERATION_MAX));
    assert!(sim.people.iter().all(|p| p.shortfalls == 40));
    assert!(sim.people.iter().all(|p| p.wallet == 0));
    assert_eq!(sim.ports.burned_upkeep, 0);
    let rin = index_of(&sim, "rin");
    assert_eq!(
        sim.people[rin].source,
        "cooks for ten on a fire built for three - and went short on day 40 (40 in all)"
    );
}

#[test]
fn a_purse_deep_in_debt_is_burned_like_any_other() {
    let tuning = Tuning::shipped();
    let need = need_at(0).unwrap();
    let mut sim = camp_with_everybody();
    let steve = index_of(&sim, "steve");
    let cost = cost_of(&tuning, &need, &sim.people[steve].traits);
    sim.people[steve].wallet = -4_000_000_000_000_000_000;
    let before: i64 = sim.people.iter().map(|p| p.wallet).sum();
    burn(&mut sim, &tuning, 0, 0);
    assert_eq!(sim.people[steve].wallet, 0);
    assert_eq!(sim.people[steve].shortfalls, 1);
    let after: i64 = sim.people.iter().map(|p| p.wallet).sum();
    assert_eq!(sim.ports.burned_upkeep, before - after);
    assert!(sim.events[0].note.starts_with(&format!("could not find {}g for upkeep", cost + 4_000_000_000_000_000_000)));
}

#[test]
fn with_needs_off_nothing_is_burned() {
    let tuning = Tuning::shipped();
    let mut sim = camp_with_everybody();
    sim.modules = ModuleSet::all().without(Module::Needs);
    let before: Vec<i64> = sim.people.iter().map(|p| p.wallet).collect();
    assert_eq!(burn(&mut sim, &tuning, 0, 0), 0);
    assert_eq!(sim.people.iter().map(|p| p.wallet).collect::<Vec<_>>(), before);
    assert_eq!(sim.ports.burned_upkeep, 0);
    assert!(sim.events.is_empty());
    assert_eq!(burn_per_day(&Lens::on(&sim), &tuning), 0);
}

#[test]
fn an_absent_person_pays_nothing() {
    let tuning = Tuning::shipped();
    let mut sim = camp_with_everybody();
    let steve = index_of(&sim, "steve");
    sim.people[steve].present = false;
    burn(&mut sim, &tuning, 0, 0);
    assert_eq!(sim.people[steve].wallet, 3);
    assert_eq!(sim.people[steve].shortfalls, 0);
    assert!(!is_short(&Lens::on(&sim), &tuning, steve));
}

#[test]
fn a_row_past_the_list_burns_nothing() {
    let tuning = Tuning::shipped();
    let mut sim = camp_with_everybody();
    assert_eq!(burn(&mut sim, &tuning, 0, 1), 0);
    assert_eq!(sim.ports.burned_upkeep, 0);
}

#[test]
fn the_camp_line_is_derived_from_the_roster() {
    let tuning = Tuning::shipped();
    let mut sim = camp_with_everybody();
    sim.treasury = 137;
    let lens = Lens::on(&sim);
    assert_eq!(burn_per_day(&lens, &tuning), 58);
    assert!(is_short(&lens, &tuning, index_of(&sim, "steve")));
    assert!(!is_short(&lens, &tuning, index_of(&sim, "tim")));
    assert_eq!(camp_line(&lens, &tuning), "10 here - 3 short - 137g - 58g/d");
    let line = camp_line(&lens, &tuning);
    assert!(!line.contains("income") && !line.contains("net"));
}

#[test]
fn the_camp_line_counts_only_who_is_here() {
    let tuning = Tuning::shipped();
    let mut sim = camp_with_everybody();
    for person in sim.people.iter_mut().skip(4) {
        person.present = false;
    }
    let lens = Lens::on(&sim);
    assert_eq!(camp_line(&lens, &tuning), "4 here - 1 short - 0g - 23g/d");
}

#[test]
fn the_desperate_are_those_pressed_to_the_threshold() {
    let mut sim = camp_with_everybody();
    let steve = index_of(&sim, "steve");
    sim.people[steve].desperation = DESPERATE_AT;
    let lens = Lens::on(&sim);
    assert!(is_desperate(&lens, steve));
    assert!(!is_desperate(&lens, index_of(&sim, "alex")));
}

#[test]
fn a_rewritten_line_keeps_the_origin() {
    assert_eq!(rewritten("came here", 0, 1), "came here - and went short on day 1 (1 in all)");
    assert_eq!(rewritten("came here", 2879, 3), "came here - and went short on day 2 (3 in all)");
    assert_eq!(rewritten("came here", 2880, 3), "came here - and went short on day 3 (3 in all)");
}

