use ecosim::config::{parse_u64, usize_setting};
use ecosim::diet::Diet;
use ecosim::feeding::{can_predate, may_predate, EnergyOrder, Feeder};
use ecosim::frame::GlobalFrameCounter;
use ecosim::logging::{console_line, csv_header_line, csv_line, text_line, LogLevel};
use ecosim::population::{census, families_equal, ordered_entries, size_ranked_entries, AnimalPopulation, PopulationSizeTracker};
use ecosim::text::decimal_string;
use ecosim::zoo::{apply_zoo_rules, Zoo, ZooAnimal, ZOO_PER_DIET};
use rand::rngs::StdRng;
use rand::SeedableRng;
use std::collections::BTreeMap;

fn animal(lifetime: u64, diet: Diet, family: u32) -> ZooAnimal<Vec<f32>> {
    ZooAnimal { lifetime_frames: lifetime, diet, genome: vec![lifetime as f32], family, generation: 0 }
}

fn summary(entries: &[ZooAnimal<Vec<f32>>]) -> Vec<(u64, Diet, u32)> {
    entries.iter().map(|a| (a.lifetime_frames, a.diet, a.family)).collect()
}

#[test]
fn diet_feeding_table() {
    assert!(Diet::Herbivore.can_eat_plants());
    assert!(Diet::Omnivore.can_eat_plants());
    assert!(!Diet::Carnivore.can_eat_plants());
    assert!(!Diet::Scavenger.can_eat_plants());
    assert!(!Diet::Herbivore.can_eat_animals());
    assert!(Diet::Omnivore.can_eat_animals());
    assert!(Diet::Carnivore.can_eat_animals());
    assert!(!Diet::Scavenger.can_eat_animals());
    assert!(!Diet::Herbivore.can_eat_carcasses());
    assert!(Diet::Omnivore.can_eat_carcasses());
    assert!(!Diet::Carnivore.can_eat_carcasses());
    assert!(Diet::Scavenger.can_eat_carcasses());
}

#[test]
fn diet_from_draw_maps_each_value() {
    assert_eq!(Diet::from_draw(0), Diet::Herbivore);
    assert_eq!(Diet::from_draw(1), Diet::Omnivore);
    assert_eq!(Diet::from_draw(2), Diet::Carnivore);
    assert_eq!(Diet::from_draw(3), Diet::Scavenger);
    assert_eq!(Diet::from_draw(9), Diet::Scavenger);
}

#[test]
fn diet_random_draws_every_diet() {
    let mut rng = StdRng::seed_from_u64(7);
    let mut seen = [false; 4];
    for _ in 0..400 {
        match Diet::random(&mut rng) {
            Diet::Herbivore => seen[0] = true,
            Diet::Omnivore => seen[1] = true,
            Diet::Carnivore => seen[2] = true,
            Diet::Scavenger => seen[3] = true,
        }
    }
    assert_eq!(seen, [true, true, true, true]);
}

fn feeder(entity: u64, id: u64, parent_id: Option<u64>, diet: Diet) -> Feeder {
    Feeder { entity, id, parent_id, diet }
}

#[test]
fn predation_rules() {
    assert!(can_predate(Diet::Carnivore, Diet::Herbivore));
    assert!(can_predate(Diet::Omnivore, Diet::Scavenger));
    assert!(!can_predate(Diet::Herbivore, Diet::Herbivore));
    assert!(!can_predate(Diet::Scavenger, Diet::Carnivore));

    let wolf = feeder(5, 50, None, Diet::Carnivore);
    let sheep = feeder(6, 60, None, Diet::Herbivore);
    let cub = feeder(7, 70, Some(50), Diet::Herbivore);
    // Prey that cannot eat back is taken whatever the energies.
    assert!(may_predate(&wolf, &sheep, EnergyOrder::Lower));
    assert!(!may_predate(&sheep, &wolf, EnergyOrder::Higher));
    // Never one's own offspring, never oneself.
    assert!(!may_predate(&wolf, &cub, EnergyOrder::Higher));
    assert!(!may_predate(&wolf, &wolf, EnergyOrder::Level));
}

#[test]
fn predation_duel_has_one_winner() {
    let a = feeder(9, 1, None, Diet::Carnivore);
    let b = feeder(4, 2, None, Diet::Omnivore);
    assert!(may_predate(&a, &b, EnergyOrder::Higher));
    assert!(!may_predate(&b, &a, EnergyOrder::Lower));
    assert!(!may_predate(&a, &b, EnergyOrder::Lower));
    assert!(may_predate(&b, &a, EnergyOrder::Higher));
    // Equal energy: the larger entity handle wins.
    assert!(may_predate(&a, &b, EnergyOrder::Level));
    assert!(!may_predate(&b, &a, EnergyOrder::Level));
}

#[test]
fn zoo_rules_keep_longest_lived_per_family() {
    let mut entries = vec![
        animal(10, Diet::Herbivore, 1),
        animal(30, Diet::Herbivore, 1),
        animal(30, Diet::Carnivore, 1),
        animal(5, Diet::Carnivore, 2),
        animal(20, Diet::Scavenger, 3),
        animal(40, Diet::Omnivore, 4),
    ];
    apply_zoo_rules(&mut entries);
    assert_eq!(
        summary(&entries),
        vec![(30, Diet::Herbivore, 1), (40, Diet::Omnivore, 4), (5, Diet::Carnivore, 2), (20, Diet::Scavenger, 3)]
    );
    assert_eq!(entries[0].genome, vec![30.0f32]);
}

#[test]
fn zoo_rules_cap_each_diet() {
    let mut entries: Vec<ZooAnimal<Vec<f32>>> =
        (0..9u32).map(|f| animal(100 + f as u64, Diet::Carnivore, f)).collect();
    entries.push(animal(1, Diet::Herbivore, 50));
    apply_zoo_rules(&mut entries);
    assert_eq!(entries.len(), ZOO_PER_DIET + 1);
    assert_eq!(entries[0].family, 50);
    let lifetimes: Vec<u64> = entries[1..].iter().map(|a| a.lifetime_frames).collect();
    assert_eq!(lifetimes, vec![108, 107, 106, 105, 104, 103]);
}

#[test]
fn zoo_rules_never_lengthen_and_reapplying_keeps_ranks() {
    let mut entries: Vec<ZooAnimal<Vec<f32>>> = (0..30u32)
        .map(|f| animal((f % 5) as u64 * 10, Diet::from_draw((f % 3) as i32), f % 17))
        .collect();
    let before = entries.len();
    apply_zoo_rules(&mut entries);
    assert!(entries.len() <= before);
    let ranks: Vec<(Diet, u64)> = entries.iter().map(|a| (a.diet, a.lifetime_frames)).collect();
    apply_zoo_rules(&mut entries);
    let again: Vec<(Diet, u64)> = entries.iter().map(|a| (a.diet, a.lifetime_frames)).collect();
    assert_eq!(again, ranks);
}

#[test]
fn zoo_rules_are_idempotent_on_example() {
    let mut entries: Vec<ZooAnimal<Vec<f32>>> = (0..20u32)
        .map(|f| {
            let diet = Diet::from_draw((f % 4) as i32);
            animal(((f * 37) % 11) as u64, diet, f % 13)
        })
        .collect();
    apply_zoo_rules(&mut entries);
    let once = summary(&entries);
    apply_zoo_rules(&mut entries);
    assert_eq!(summary(&entries), once);
}

#[test]
fn zoo_consider_replaces_family_member() {
    let mut zoo = Zoo::from_entries(vec![animal(10, Diet::Herbivore, 1), animal(8, Diet::Scavenger, 2)]);
    assert_eq!(zoo.len(), 2);
    zoo.consider(animal(12, Diet::Carnivore, 1));
    assert_eq!(
        summary(zoo.entries()),
        vec![(12, Diet::Carnivore, 1), (8, Diet::Scavenger, 2)]
    );
    zoo.consider(animal(3, Diet::Herbivore, 2));
    assert_eq!(zoo.len(), 2);
    let records = zoo.into_entries();
    assert_eq!(summary(&records), vec![(12, Diet::Carnivore, 1), (8, Diet::Scavenger, 2)]);
}

#[test]
fn zoo_sample() {
    let mut rng = StdRng::seed_from_u64(1);
    let empty: Zoo<Vec<f32>> = Zoo::new();
    assert!(empty.is_empty());
    assert!(empty.sample(&mut rng).is_none());
    let zoo = Zoo::from_entries(vec![animal(10, Diet::Herbivore, 1), animal(8, Diet::Scavenger, 2)]);
    for _ in 0..20 {
        let picked = zoo.sample(&mut rng).unwrap();
        assert!(picked.family == 1 || picked.family == 2);
    }
    assert!(zoo.get(2).is_none());
    assert_eq!(zoo.get(1).unwrap().family, 2);
}

#[test]
fn zoo_record_from_despawn() {
    let z = ZooAnimal::from_despawn(40, 100, Diet::Omnivore, vec![0.5f32], 3, 2);
    assert_eq!(z.lifetime_frames, 60);
    assert_eq!(z.family, 3);
    assert_eq!(z.generation, 2);
}

#[test]
fn census_counts() {
    let animals = vec![
        (Diet::Carnivore, 7),
        (Diet::Herbivore, 3),
        (Diet::Herbivore, 7),
        (Diet::Scavenger, 7),
    ];
    let (pop, families) = census(&animals);
    assert_eq!(pop, AnimalPopulation { carnivores: 1, herbivores: 2, omnivores: 0, scavengers: 1 });
    assert_eq!(ordered_entries(&families), vec![(3, 1), (7, 3)]);
    assert_eq!(size_ranked_entries(&families), vec![(7, 3), (3, 1)]);
}

#[test]
fn families_equality() {
    let mut a = BTreeMap::new();
    a.insert(1u32, 2usize);
    let mut b = BTreeMap::new();
    b.insert(1u32, 2usize);
    assert!(families_equal(&a, &b));
    b.insert(2, 1);
    assert!(!families_equal(&a, &b));
}

#[test]
fn tracker_reports_changes_only() {
    let mut tracker = PopulationSizeTracker::default();
    let animals = vec![(Diet::Carnivore, 4), (Diet::Herbivore, 2), (Diet::Herbivore, 4)];
    assert_eq!(tracker.observe(3, &animals), None);
    assert!(tracker.initialized);
    assert_eq!(tracker.observe(3, &animals), None);
    let report = tracker.observe(5, &animals);
    assert_eq!(
        report.as_deref(),
        Some("population_size plants=5 animals={carnivores:1 herbivores:2 omnivores:0 scavengers:0} families=2:1|4:2")
    );
    assert_eq!(
        tracker.observe(5, &[]).as_deref(),
        Some("population_size plants=5 animals={carnivores:0 herbivores:0 omnivores:0 scavengers:0} families=none")
    );
    assert_eq!(tracker.observe(5, &[]), None);
}

#[test]
fn tracker_status_text() {
    let mut tracker = PopulationSizeTracker::default();
    let animals = vec![(Diet::Omnivore, 9), (Diet::Scavenger, 1), (Diet::Scavenger, 1), (Diet::Herbivore, 5)];
    tracker.observe(12, &animals);
    assert_eq!(
        tracker.status_text(77),
        "Frame: 77\nPlants: 12\nAnimals: 4\n  Herbivore: 1\n  Omnivore: 1\n  Carnivore: 0\n  Scavenger: 2\nFamilies: 3\n  #1: 2\n  #5: 1\n  #9: 1"
    );
    let empty = PopulationSizeTracker::default();
    assert_eq!(
        empty.status_text(0),
        "Frame: 0\nPlants: 0\nAnimals: 0\n  Herbivore: 0\n  Omnivore: 0\n  Carnivore: 0\n  Scavenger: 0\nFamilies: 0\n"
    );
}

#[test]
fn log_lines() {
    assert_eq!(LogLevel::Debug.as_str(), "DEBUG");
    assert_eq!(LogLevel::Info.as_str(), "INFO");
    assert_eq!(LogLevel::Warn.as_str(), "WARN");
    assert_eq!(LogLevel::Error.as_str(), "ERROR");
    assert_eq!(console_line(12, "hello"), "[frame=12] hello");
    assert_eq!(
        text_line(1700000000, 3, LogLevel::Warn, "zoo_save_failed path=x"),
        "[simulation_start_ts=1700000000] [frame=3] [level=WARN] zoo_save_failed path=x"
    );
    assert_eq!(csv_line(5, 0, LogLevel::Info, "a,b,,c"), "5,0,INFO,a;b;;c");
    assert_eq!(csv_header_line(), "simulation_start_ts,frame,level,fields");
}

#[test]
fn decimal_notation() {
    assert_eq!(decimal_string(0), "0");
    assert_eq!(decimal_string(7), "7");
    assert_eq!(decimal_string(10), "10");
    assert_eq!(decimal_string(1234567890), "1234567890");
    assert_eq!(decimal_string(u64::MAX), "18446744073709551615");
}

#[test]
fn numeric_settings() {
    assert_eq!(usize_setting(Some("42"), 10), 42);
    assert_eq!(usize_setting(Some("+7"), 10), 7);
    assert_eq!(usize_setting(Some(""), 10), 10);
    assert_eq!(usize_setting(Some("-1"), 10), 10);
    assert_eq!(usize_setting(Some(" 3"), 10), 10);
    assert_eq!(usize_setting(Some("abc"), 10), 10);
    assert_eq!(usize_setting(Some("99999999999999999999999"), 10), 10);
    assert_eq!(usize_setting(None, 10), 10);
}

#[test]
fn seed_parsing_follows_unsigned_parse() {
    assert_eq!(parse_u64("12345"), Some(12345));
    assert_eq!(parse_u64("+5"), Some(5));
    assert_eq!(parse_u64("007"), Some(7));
    assert_eq!(parse_u64("18446744073709551615"), Some(u64::MAX));
    assert_eq!(parse_u64("18446744073709551616"), None);
    assert_eq!(parse_u64("184467440737095516150x"), None);
    assert_eq!(parse_u64("+"), None);
    assert_eq!(parse_u64(""), None);
    assert_eq!(parse_u64("-0"), None);
    assert_eq!(parse_u64("1a"), None);
    assert_eq!(parse_u64("\u{0661}"), None);
}

#[test]
fn frame_counter() {
    let mut c = GlobalFrameCounter::default();
    c.advance();
    c.advance();
    assert_eq!(c.0, 2);
    assert_eq!(c.frames_since(1), 1);
    assert_eq!(c.frames_since(5), 0);
    let mut top = GlobalFrameCounter(u64::MAX);
    top.advance();
    assert_eq!(top.0, u64::MAX);
}

#[test]
fn zoo_consider_with_full_diet() {
    let entries: Vec<ZooAnimal<Vec<f32>>> =
        (0..6u32).map(|f| animal(50 + 10 * f as u64, Diet::Carnivore, f)).collect();
    let mut zoo = Zoo::from_entries(entries);
    zoo.consider(animal(40, Diet::Carnivore, 99));
    assert!(zoo.entries().iter().all(|a| a.family != 99));
    zoo.consider(animal(75, Diet::Carnivore, 100));
    let lifetimes: Vec<u64> = zoo.entries().iter().map(|a| a.lifetime_frames).collect();
    assert_eq!(lifetimes, vec![100, 90, 80, 75, 70, 60]);
}
