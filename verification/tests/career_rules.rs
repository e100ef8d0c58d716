use career_sim::career::{
    add_with_cap_u16, add_with_cap_u8, complete_training, deal_supports, facility_level,
    fail_training, is_action_safe, is_deck_dealable, new_career_state, place_supports,
    priority_stat, recreate, rest, starting_boosts_fit, support_location, take_action,
    trains_stat, training_odds, wisdom_recovery_sum, Action, Mood, Stat, State,
};
use career_sim::support_cards::SupportCard;
use rand::SeedableRng;
use rand_xorshift::XorShiftRng;

fn card(name: &str, card_type: u8, specialty_rate: u32) -> SupportCard {
    SupportCard {
        id: 1,
        card_type,
        group: false,
        rarity: 3,
        limit_break: 4,
        starting_stats: [0, 0, 0, 0, 0],
        type_stats: 0,
        stat_bonus: [0, 0, 0, 0, 0, 0],
        race_bonus: 0,
        sb: 0,
        specialty_rate,
        offstat_appearance_denominator: 0,
        fs_stats: [0, 0, 0, 0, 0, 0],
        fs_training: 0,
        fs_motivation: 0,
        fs_specialty: 0,
        fs_ramp: [0, 0],
        fs_energy: 0,
        wisdom_recovery: 0,
        highlander_threshold: 0,
        highlander_training: 0,
        crowd_bonus: 0,
        char_name: name.to_string(),
        fan_bonus: 0,
    }
}

fn base_state() -> State {
    State {
        energy: 100,
        mood: Mood::Normal,
        stats: [100, 100, 100, 100, 100],
        turn: 0,
        times_trained: [0, 0, 0, 0, 0],
        friendship: [0, 0, 0, 0, 0, 0],
        support_locations: [Stat::Speed, Stat::Speed, Stat::Speed, Stat::Speed, Stat::Speed],
    }
}

fn deck_of_six() -> Vec<SupportCard> {
    vec![
        card("A", 0, 50),
        card("B", 1, 50),
        card("C", 2, 50),
        card("D", 3, 50),
        card("E", 4, 50),
        card("F", 0, 50),
    ]
}

#[test]
fn mood_moves_one_step_and_saturates() {
    assert_eq!(Mood::Awful.next(), Mood::Bad);
    assert_eq!(Mood::Bad.next(), Mood::Normal);
    assert_eq!(Mood::Normal.next(), Mood::Good);
    assert_eq!(Mood::Good.next(), Mood::Great);
    assert_eq!(Mood::Great.next(), Mood::Great);
    assert_eq!(Mood::Awful.prior(), Mood::Awful);
    assert_eq!(Mood::Bad.prior(), Mood::Awful);
    assert_eq!(Mood::Normal.prior(), Mood::Bad);
    assert_eq!(Mood::Good.prior(), Mood::Normal);
    assert_eq!(Mood::Great.prior(), Mood::Good);
}

#[test]
fn mood_next_and_prior_undo_each_other() {
    for m in [Mood::Bad, Mood::Normal, Mood::Good, Mood::Great] {
        assert_eq!(m.prior().next(), m);
    }
    for m in [Mood::Awful, Mood::Bad, Mood::Normal, Mood::Good] {
        assert_eq!(m.next().prior(), m);
    }
}

#[test]
fn add_with_cap_takes_the_smaller() {
    assert_eq!(add_with_cap_u8(90, 7, 100), 97);
    assert_eq!(add_with_cap_u8(98, 7, 100), 100);
    assert_eq!(add_with_cap_u8(0, 0, 100), 0);
    assert_eq!(add_with_cap_u16(1195, 10, 1200), 1200);
    assert_eq!(add_with_cap_u16(100, 35, 1200), 135);
}

#[test]
fn preference_order_puts_own_stat_first() {
    assert_eq!(priority_stat(2, 0), Stat::Power);
    assert_eq!(priority_stat(2, 1), Stat::Speed);
    assert_eq!(priority_stat(2, 2), Stat::Stamina);
    assert_eq!(priority_stat(2, 3), Stat::Guts);
    assert_eq!(priority_stat(2, 4), Stat::Wit);
    assert_eq!(priority_stat(4, 0), Stat::Wit);
    assert_eq!(priority_stat(4, 4), Stat::Guts);
    assert_eq!(priority_stat(0, 1), Stat::Stamina);
}

#[test]
fn support_location_follows_roll_bands() {
    assert_eq!(support_location(2, 50, 0), Stat::Power);
    assert_eq!(support_location(2, 50, 159), Stat::Power);
    assert_eq!(support_location(2, 50, 160), Stat::Speed);
    assert_eq!(support_location(2, 50, 269), Stat::Speed);
    assert_eq!(support_location(2, 50, 270), Stat::Stamina);
    assert_eq!(support_location(2, 50, 380), Stat::Guts);
    assert_eq!(support_location(2, 50, 490), Stat::Wit);
    assert_eq!(support_location(2, 50, 599), Stat::Wit);
}

#[test]
fn place_supports_moves_only_dealt_cards() {
    let mut s = base_state();
    let deck = vec![card("A", 1, 0), card("B", 3, 0)];
    place_supports(&mut s, &deck, &[0, 500]);
    assert_eq!(
        s.support_locations,
        [Stat::Stamina, Stat::Wit, Stat::Speed, Stat::Speed, Stat::Speed]
    );
    assert_eq!(s.energy, 100);
    assert_eq!(s.stats, [100, 100, 100, 100, 100]);
}

#[test]
fn deal_supports_places_cards_by_preference() {
    let deck = deck_of_six();
    let mut own_stat_seen = false;
    for seed in 0..50u64 {
        let mut rng = XorShiftRng::seed_from_u64(seed);
        let mut s = base_state();
        deal_supports(&mut s, &deck, &mut rng);
        for i in 0..5 {
            let own = priority_stat(deck[i].card_type, 0);
            if s.support_locations[i] == own {
                own_stat_seen = true;
            }
        }
        assert_eq!(s.friendship, [0; 6]);
        assert_eq!(s.turn, 0);
    }
    assert!(own_stat_seen);
}

#[test]
fn new_career_state_adds_boosts_and_bonds() {
    let mut a = card("A", 0, 0);
    a.starting_stats = [10, 0, 20, 0, 0];
    a.sb = 30;
    let mut b = card("B", 1, 0);
    b.starting_stats = [1150, 5, 0, 0, 0];
    b.sb = 250;
    let deck = vec![a, b];
    assert!(starting_boosts_fit(&deck));
    let s = new_career_state(&deck);
    assert_eq!(s.energy, 100);
    assert_eq!(s.mood, Mood::Normal);
    assert_eq!(s.turn, 0);
    assert_eq!(s.stats, [1200, 105, 120, 100, 100]);
    assert_eq!(s.friendship, [30, 100, 0, 0, 0, 0]);
    assert_eq!(s.times_trained, [0; 5]);
    assert_eq!(s.support_locations, [Stat::Speed; 5]);
}

#[test]
fn starting_boosts_fit_detects_overflow() {
    let mut a = card("A", 0, 0);
    a.starting_stats = [65000, 0, 0, 0, 0];
    let mut b = card("B", 0, 0);
    b.starting_stats = [65000, 0, 0, 0, 0];
    assert!(starting_boosts_fit(&vec![a.clone()]));
    assert!(!starting_boosts_fit(&vec![a, b]));
}

#[test]
fn rest_restores_energy_by_roll() {
    let mut s = base_state();
    s.energy = 20;
    rest(&mut s, 0);
    assert_eq!(s.energy, 90);
    assert_eq!(s.mood, Mood::Normal);
    let mut s = base_state();
    s.energy = 20;
    rest(&mut s, 1000);
    assert_eq!(s.energy, 70);
    let mut s = base_state();
    s.energy = 20;
    rest(&mut s, 3692);
    assert_eq!(s.energy, 50);
    assert_eq!(s.mood, Mood::Normal);
    let mut s = base_state();
    s.energy = 80;
    rest(&mut s, 3700);
    assert_eq!(s.energy, 100);
    assert_eq!(s.mood, Mood::Bad);
    assert_eq!(s.turn, 0);
}

#[test]
fn recreation_improves_mood() {
    let mut s = base_state();
    recreate(&mut s);
    assert_eq!(s.mood, Mood::Good);
    assert_eq!(s.energy, 100);
}

#[test]
fn failed_training_costs_stat_and_mood() {
    let mut s = base_state();
    s.stats = [100, 5, 100, 100, 100];
    fail_training(&mut s, Stat::Stamina);
    assert_eq!(s.stats, [100, 0, 100, 100, 100]);
    assert_eq!(s.mood, Mood::Bad);
    fail_training(&mut s, Stat::Speed);
    assert_eq!(s.stats, [90, 0, 100, 100, 100]);
    assert_eq!(s.mood, Mood::Awful);
}

#[test]
fn trains_stat_matches_training_table() {
    let expected = [
        (Stat::Speed, [true, false, true, false, false]),
        (Stat::Stamina, [false, true, false, true, false]),
        (Stat::Power, [false, true, true, false, false]),
        (Stat::Guts, [true, false, true, true, false]),
        (Stat::Wit, [true, false, false, false, true]),
    ];
    for (t, row) in expected {
        for j in 0..5 {
            assert_eq!(trains_stat(t, j), row[j]);
        }
    }
}

#[test]
fn facility_level_grows_every_four_trainings() {
    assert_eq!(facility_level(0), 0);
    assert_eq!(facility_level(3), 0);
    assert_eq!(facility_level(4), 1);
    assert_eq!(facility_level(15), 3);
    assert_eq!(facility_level(16), 4);
    assert_eq!(facility_level(255), 4);
}

#[test]
fn successful_speed_training() {
    let deck = deck_of_six();
    let mut s = base_state();
    s.times_trained = [8, 0, 0, 0, 0];
    s.friendship = [95, 10, 20, 0, 0, 0];
    s.support_locations = [Stat::Speed, Stat::Speed, Stat::Wit, Stat::Guts, Stat::Speed];
    complete_training(&mut s, Stat::Speed, &deck, [15, 99, 7, 99, 99]);
    assert_eq!(s.stats, [115, 100, 107, 100, 100]);
    assert_eq!(s.times_trained, [9, 0, 0, 0, 0]);
    assert_eq!(s.friendship, [100, 17, 20, 0, 7, 0]);
    // level 2 costs 21 + 2
    assert_eq!(s.energy, 77);
    assert_eq!(s.turn, 0);
}

#[test]
fn successful_wit_training_restores_energy() {
    let mut deck = deck_of_six();
    deck[1].wisdom_recovery = 3;
    deck[3].wisdom_recovery = 4;
    deck[4].wisdom_recovery = 100;
    let mut s = base_state();
    s.energy = 60;
    s.support_locations = [Stat::Speed, Stat::Wit, Stat::Speed, Stat::Wit, Stat::Guts];
    assert_eq!(wisdom_recovery_sum(&s.support_locations, &deck), 7);
    complete_training(&mut s, Stat::Wit, &deck, [3, 0, 0, 0, 9]);
    assert_eq!(s.energy, 72);
    assert_eq!(s.stats, [103, 100, 100, 100, 109]);
    assert_eq!(s.times_trained, [0, 0, 0, 0, 1]);
}

#[test]
fn training_energy_floors_at_zero() {
    let deck = deck_of_six();
    let mut s = base_state();
    s.energy = 10;
    s.times_trained = [0, 0, 0, 200, 0];
    complete_training(&mut s, Stat::Guts, &deck, [1, 1, 1, 1, 1]);
    assert_eq!(s.energy, 0);
    assert_eq!(s.times_trained, [0, 0, 0, 201, 0]);
}

#[test]
fn training_odds_depend_on_energy() {
    assert_eq!(training_odds(49), (1, 5));
    assert_eq!(training_odds(50), (1, 1));
}

#[test]
fn take_action_advances_turn_and_redeals() {
    let deck = deck_of_six();
    let mut rng = XorShiftRng::seed_from_u64(7);
    let mut s = base_state();
    s.energy = 40;
    take_action(&mut s, Action::Rest, &deck, [0; 5], &mut rng);
    assert_eq!(s.turn, 1);
    assert!(s.energy == 100 || s.energy == 90 || s.energy == 70);
    take_action(&mut s, Action::Recreation, &deck, [0; 5], &mut rng);
    assert_eq!(s.turn, 2);
}

#[test]
fn training_with_energy_always_succeeds() {
    let deck = deck_of_six();
    for seed in 0..20u64 {
        let mut rng = XorShiftRng::seed_from_u64(seed);
        let mut s = base_state();
        take_action(&mut s, Action::Train(Stat::Power), &deck, [0, 12, 30, 0, 0], &mut rng);
        assert_eq!(s.stats, [100, 112, 130, 100, 100]);
        assert_eq!(s.times_trained, [0, 0, 1, 0, 0]);
        assert_eq!(s.energy, 80);
        assert_eq!(s.turn, 1);
    }
}

#[test]
fn training_without_energy_sometimes_fails() {
    let deck = deck_of_six();
    let mut failures = 0;
    let mut successes = 0;
    for seed in 0..100u64 {
        let mut rng = XorShiftRng::seed_from_u64(seed);
        let mut s = base_state();
        s.energy = 30;
        take_action(&mut s, Action::Train(Stat::Power), &deck, [0, 12, 30, 0, 0], &mut rng);
        if s.stats == [100, 100, 90, 100, 100] {
            assert_eq!(s.mood, Mood::Bad);
            failures += 1;
        } else {
            assert_eq!(s.stats, [100, 112, 130, 100, 100]);
            successes += 1;
        }
    }
    assert!(failures > 0);
    assert!(successes > 0);
}

#[test]
fn action_safety_checks() {
    let deck = deck_of_six();
    let mut s = base_state();
    assert!(is_action_safe(&s, Action::Rest, &deck, &[0; 5]));
    s.turn = 255;
    assert!(!is_action_safe(&s, Action::Recreation, &deck, &[0; 5]));
    let mut s = base_state();
    s.energy = 200;
    assert!(!is_action_safe(&s, Action::Rest, &deck, &[0; 5]));
    let s = base_state();
    assert!(!is_action_safe(&s, Action::Train(Stat::Speed), &deck, &[65500, 0, 0, 0, 0]));
    assert!(is_action_safe(&s, Action::Train(Stat::Stamina), &deck, &[65500, 0, 0, 0, 0]));
    let short = vec![card("A", 0, 0)];
    assert!(!is_action_safe(&s, Action::Train(Stat::Speed), &short, &[0; 5]));
    let bad = vec![card("A", 7, 0)];
    assert!(!is_deck_dealable(&bad));
    assert!(!is_action_safe(&s, Action::Recreation, &bad, &[0; 5]));
}

#[test]
fn reordering_the_deck_keeps_starting_stats() {
    let mut a = card("A", 0, 0);
    a.starting_stats = [700, 10, 0, 5, 0];
    a.sb = 35;
    let mut b = card("B", 1, 0);
    b.starting_stats = [600, 0, 20, 0, 1];
    b.sb = 120;
    let mut c = card("C", 2, 0);
    c.starting_stats = [50, 3, 0, 0, 0];
    c.sb = 5;
    let deck = vec![a.clone(), b.clone(), c.clone()];
    let reordered = vec![c, a, b];
    let s1 = new_career_state(&deck);
    let s2 = new_career_state(&reordered);
    assert_eq!(s1.stats, [1200, 113, 120, 105, 101]);
    assert_eq!(s1.stats, s2.stats);
    assert_eq!(s1.friendship, [35, 100, 5, 0, 0, 0]);
    assert_eq!(s2.friendship, [5, 35, 100, 0, 0, 0]);
}

#[test]
fn dealing_an_empty_deck_changes_nothing() {
    let mut rng = XorShiftRng::seed_from_u64(5);
    let mut s = base_state();
    s.support_locations = [Stat::Wit, Stat::Guts, Stat::Speed, Stat::Power, Stat::Stamina];
    let before = s;
    deal_supports(&mut s, &[], &mut rng);
    assert_eq!(s.support_locations, before.support_locations);
    assert_eq!(s.stats, before.stats);
}

#[test]
fn roll_ranges() {
    assert_eq!(career_sim::career::rest_roll_range(), 3833);
    assert_eq!(career_sim::career::placement_roll_range(&card("A", 2, 70)), 620);
}
