use ninjo::asks::{Postings, Rates};
use ninjo::attention::{feed, feed_cap, place_tag, pulse_ticks, reason_line, Attention, FeedEntry, Mode, Pause};
use ninjo::constants::Tuning;
use ninjo::lens::Lens;
use ninjo::people::Tile;
use ninjo::sim::{Event, EventClass, Location, ModuleSet, Ports, Settlement, Sim};
use ninjo::stores::Shared;

fn quiet_world(classes: &[EventClass]) -> Sim {
    Sim {
        people: Vec::new(),
        parties: Vec::new(),
        locations: Vec::new(),
        sites: Vec::new(),
        postings: Postings::new(),
        rates: Rates::opening(),
        treasury: 0,
        events: classes
            .iter()
            .enumerate()
            .map(|(i, class)| Event {
                minute: i as u64,
                class: *class,
                party: 0,
                tile: Tile::new(0, 0),
                location: None,
                note: format!("entry {i}"),
            })
            .collect(),
        modules: ModuleSet::all(),
        ports: Ports { burned_upkeep: 0, paid_wages: 0 },
        shared: Shared::empty(),
        settlement: Settlement { standing: Vec::new() },
        reckonings: Vec::new(),
        attention: Attention::opening(),
        pause: None,
        pauses: 0,
    }
}

#[test]
fn the_modes_have_names_and_meanings() {
    assert_eq!(Mode::Ignore.name(), "ignore");
    assert_eq!(Mode::Log.name(), "log");
    assert_eq!(Mode::PauseAndFocus.name(), "pause");
    assert_eq!(Mode::Ignore.meaning(), "not even in the feed");
    assert_eq!(Mode::Log.meaning(), "it lands in the feed");
    assert_eq!(Mode::PauseAndFocus.meaning(), "the world stops for it");
}

#[test]
fn the_class_table_names_every_class_once() {
    let all = EventClass::all();
    assert_eq!(
        all,
        vec![
            EventClass::Departed,
            EventClass::Arrived,
            EventClass::WorkBegan,
            EventClass::QuestComplete,
            EventClass::Returned
        ]
    );
    let names: Vec<&str> = all.iter().map(|c| c.name()).collect();
    assert_eq!(names, vec!["departed", "arrived", "work-began", "quest-complete", "returned"]);
    for (i, class) in all.iter().enumerate() {
        assert_eq!(class.index(), i);
        assert_eq!(class.spec().class, *class);
    }
    assert_eq!(EventClass::QuestComplete.spec().default_mode, Mode::Log);
    assert_eq!(EventClass::UpkeepShortfall.index(), 0);
}

#[test]
fn the_config_opens_at_the_tables_defaults_and_is_set_one_class_at_a_time() {
    let mut attention = Attention::opening();
    assert_eq!(
        attention.stamp(),
        "attention:departed=ignore,arrived=ignore,work-began=ignore,quest-complete=log,returned=ignore"
    );
    assert_eq!(attention.mode(EventClass::QuestComplete), Mode::Log);
    attention.set(EventClass::Departed, Mode::PauseAndFocus);
    assert_eq!(attention.mode(EventClass::Departed), Mode::PauseAndFocus);
    assert_eq!(attention.mode(EventClass::Arrived), Mode::Ignore);
    assert_eq!(
        attention.stamp(),
        "attention:departed=pause,arrived=ignore,work-began=ignore,quest-complete=log,returned=ignore"
    );
    assert_eq!(Attention::default(), Attention::opening());
}

#[test]
fn the_feed_is_the_log_newest_first_filtered_and_capped() {
    let sim = quiet_world(&[
        EventClass::Departed,
        EventClass::QuestComplete,
        EventClass::Arrived,
        EventClass::QuestComplete,
        EventClass::Returned,
    ]);
    let lens = Lens::on(&sim);
    assert_eq!(
        feed(&lens, false, 10),
        vec![FeedEntry { index: 3, ignored: false }, FeedEntry { index: 1, ignored: false }]
    );
    assert_eq!(feed(&lens, false, 1), vec![FeedEntry { index: 3, ignored: false }]);
    let shown = feed(&lens, true, 3);
    assert_eq!(
        shown,
        vec![
            FeedEntry { index: 4, ignored: true },
            FeedEntry { index: 3, ignored: false },
            FeedEntry { index: 2, ignored: true }
        ]
    );
    assert!(feed(&lens, true, 0).is_empty());
}

#[test]
fn a_class_set_to_log_joins_the_feed() {
    let mut sim = quiet_world(&[EventClass::Departed, EventClass::Returned]);
    assert!(feed(&Lens::on(&sim), false, 10).is_empty());
    sim.attention.set(EventClass::Returned, Mode::Log);
    assert_eq!(feed(&Lens::on(&sim), false, 10), vec![FeedEntry { index: 1, ignored: false }]);
}

#[test]
fn a_world_minute_prints_as_day_hour_minute() {
    assert_eq!(ninjo::clock::stamp(0), "d1 00:00");
    assert_eq!(ninjo::clock::stamp(400), "d1 06:40");
    assert_eq!(ninjo::clock::stamp(1439), "d1 23:59");
    assert_eq!(ninjo::clock::stamp(1440 * 11 + 65), "d12 01:05");
    assert_eq!(ninjo::clock::Rate::X1.label(), "1x");
    assert_eq!(ninjo::clock::Rate::X4.label(), "4x");
}

#[test]
fn the_drawers_attention_numbers_are_the_shipped_ones() {
    let tuning = Tuning::shipped();
    assert_eq!(pulse_ticks(&tuning), 150);
    assert_eq!(feed_cap(&tuning), 10);
    let sim = quiet_world(&[EventClass::QuestComplete; 25]);
    let lens = Lens::on(&sim);
    let held = feed(&lens, false, feed_cap(&tuning));
    assert_eq!(held.len(), 10);
    assert_eq!(held[0].index, 24);
}

#[test]
fn a_feed_row_is_tagged_with_its_place_or_its_tile() {
    let mut sim = quiet_world(&[EventClass::QuestComplete, EventClass::QuestComplete]);
    sim.locations = vec![
        Location { name: "the town", tile: Tile::new(3, 4) },
        Location { name: "the Deep Cave", tile: Tile::new(9, 2) },
    ];
    sim.emit(5, EventClass::QuestComplete, 0, Tile::new(9, 2), "done at the cave".to_string());
    sim.emit(6, EventClass::Departed, 0, Tile::new(-2, 7), "on the road".to_string());
    assert_eq!(sim.events[2].location, Some(1));
    assert_eq!(sim.events[3].location, None);
    let lens = Lens::on(&sim);
    assert_eq!(place_tag(&lens, &sim.events[2]), "the Deep Cave");
    assert_eq!(place_tag(&lens, &sim.events[3]), "(-2, 7)");
}

#[test]
fn the_pause_reason_says_the_class_the_place_and_the_note() {
    let mut sim = quiet_world(&[]);
    sim.locations = vec![Location { name: "the town", tile: Tile::new(3, 4) }];
    sim.emit(5, EventClass::QuestComplete, 0, Tile::new(3, 4), "the long watch is done".to_string());
    assert_eq!(reason_line(&Lens::on(&sim)), None);
    sim.pause = Some(Pause { event: 0, class: EventClass::QuestComplete, minute: 5 });
    assert_eq!(
        reason_line(&Lens::on(&sim)),
        Some("paused: quest-complete at the town - the long watch is done".to_string())
    );
    sim.pause = Some(Pause { event: 7, class: EventClass::QuestComplete, minute: 5 });
    assert_eq!(reason_line(&Lens::on(&sim)), None);
}
