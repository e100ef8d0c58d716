use career_sim::career::{Action, Mood, Stat, State};
use career_sim::mcts::{
    intelligently_run_career, last_unvisited, most_visited, possible_actions, random_rollout,
    search_turn, CAREER_LENGTH, MCTS_SIMS,
};
use std::cell::RefCell;
use career_sim::support_cards::{card_type_name, has_distinct_characters, rarity_name, SupportCard};
use rand::SeedableRng;
use rand_xorshift::XorShiftRng;

fn card(name: &str, card_type: u8, rarity: u32, limit_break: u32) -> SupportCard {
    SupportCard {
        id: 7,
        card_type,
        group: false,
        rarity,
        limit_break,
        starting_stats: [0, 0, 0, 0, 0],
        type_stats: 0,
        stat_bonus: [0, 0, 0, 0, 0, 0],
        race_bonus: 0,
        sb: 0,
        specialty_rate: 35,
        offstat_appearance_denominator: 0,
        fs_stats: [0, 0, 0, 0, 0, 0],
        fs_training: 0,
        fs_motivation: 0,
        fs_specialty: 0,
        fs_ramp: [0, 0],
        fs_energy: 0,
        wisdom_recovery: 2,
        highlander_threshold: 0,
        highlander_training: 0,
        crowd_bonus: 0,
        char_name: name.to_string(),
        fan_bonus: 0,
    }
}

fn deck() -> Vec<SupportCard> {
    (0..6u8).map(|i| card(&format!("C{}", i), i % 5, 3, 4)).collect()
}

fn fresh_state() -> State {
    State {
        energy: 100,
        mood: Mood::Normal,
        stats: [100, 100, 100, 100, 100],
        turn: 0,
        times_trained: [0, 0, 0, 0, 0],
        friendship: [0, 0, 0, 0, 0, 0],
        support_locations: [Stat::Speed, Stat::Speed, Stat::Speed, Stat::Speed, Stat::Speed],
    }
}

#[test]
fn possible_actions_in_order() {
    assert_eq!(
        possible_actions(),
        [
            Action::Rest,
            Action::Train(Stat::Speed),
            Action::Train(Stat::Stamina),
            Action::Train(Stat::Power),
            Action::Train(Stat::Guts),
            Action::Train(Stat::Wit),
            Action::Recreation,
        ]
    );
}

#[test]
fn unvisited_actions_come_last_first() {
    assert_eq!(last_unvisited(&[0, 0, 0, 0, 0, 0, 0]), Some(6));
    assert_eq!(last_unvisited(&[0, 3, 0, 1, 2, 1, 1]), Some(2));
    assert_eq!(last_unvisited(&[1, 1, 1, 1, 1, 1, 1]), None);
}

#[test]
fn most_visited_prefers_last_of_equals() {
    assert_eq!(most_visited(&[5, 9, 2, 9, 1, 0, 3]), 3);
    assert_eq!(most_visited(&[0, 0, 0, 0, 0, 0, 0]), 6);
    assert_eq!(most_visited(&[10, 9, 2, 9, 1, 0, 3]), 0);
}

#[test]
fn random_rollout_reaches_career_end() {
    let d = deck();
    for seed in 0..5u64 {
        let mut rng = XorShiftRng::seed_from_u64(seed);
        let gains = |_: &State, _: Stat| [5u16, 5, 5, 5, 5];
        let end = random_rollout(fresh_state(), &d, &mut rng, &gains).expect("no overflow");
        assert_eq!(end.turn, CAREER_LENGTH);
        assert!(end.energy <= 100);
        assert!(end.stats.iter().all(|&v| v <= 1200));
    }
}

#[test]
fn random_rollout_from_the_end_stays() {
    let d = deck();
    let mut rng = XorShiftRng::seed_from_u64(1);
    let mut s = fresh_state();
    s.turn = CAREER_LENGTH;
    let gains = |_: &State, _: Stat| [0u16; 5];
    let end = random_rollout(s, &d, &mut rng, &gains).unwrap();
    assert_eq!(end.turn, CAREER_LENGTH);
    assert_eq!(end.stats, s.stats);
}

#[test]
fn career_run_takes_one_action_per_turn() {
    let d = deck();
    let mut rng = XorShiftRng::seed_from_u64(3);
    let mut s = fresh_state();
    s.turn = 10;
    let gains = |_: &State, _: Stat| [3u16; 5];
    let search = |st: &State, _: &mut XorShiftRng| {
        if st.energy < 50 {
            Action::Rest
        } else {
            Action::Train(Stat::Speed)
        }
    };
    let actions = intelligently_run_career(&mut s, &d, &mut rng, &gains, &search).unwrap();
    assert_eq!(actions.len(), (CAREER_LENGTH - 10) as usize);
    assert_eq!(s.turn, CAREER_LENGTH);
    assert!(s.stats[0] > 100);
}

#[test]
fn career_run_after_the_end_does_nothing() {
    let d = deck();
    let mut rng = XorShiftRng::seed_from_u64(3);
    let mut s = fresh_state();
    s.turn = 80;
    let gains = |_: &State, _: Stat| [3u16; 5];
    let search = |_: &State, _: &mut XorShiftRng| Action::Rest;
    let actions = intelligently_run_career(&mut s, &d, &mut rng, &gains, &search).unwrap();
    assert!(actions.is_empty());
    assert_eq!(s.turn, 80);
}

#[test]
fn card_label_names_rarity_and_type() {
    assert_eq!(card("Kitasan Black", 0, 3, 4).label(), "Kitasan Black SSR (Speed)");
    assert_eq!(card("Fine Motion", 4, 2, 4).label(), "Fine Motion SR (Wit)");
    assert_eq!(card("X", 9, 1, 4).label(), "X R (unreachable)");
    assert_eq!(rarity_name(0), None);
    assert_eq!(rarity_name(4), None);
    assert_eq!(rarity_name(2), Some("SR"));
    assert_eq!(card_type_name(1), "Stamina");
    assert_eq!(card_type_name(3), "Guts");
    assert_eq!(card_type_name(2), "Power");
}

#[test]
fn eligibility_filters_pool() {
    assert!(card("A", 0, 3, 4).is_eligible());
    assert!(card("A", 4, 2, 4).is_eligible());
    assert!(!card("A", 0, 1, 4).is_eligible());
    assert!(!card("A", 0, 3, 3).is_eligible());
    assert!(!card("A", 5, 3, 4).is_eligible());
}

#[test]
fn distinct_characters_in_deck() {
    assert!(has_distinct_characters(&deck()));
    let mut d = deck();
    d[4].char_name = "C1".to_string();
    assert!(!has_distinct_characters(&d));
    assert!(has_distinct_characters(&[]));
}

#[test]
fn search_turn_tries_every_action_and_keeps_the_most_simulated() {
    let d = deck();
    let mut rng = XorShiftRng::seed_from_u64(11);
    let mut s = fresh_state();
    s.turn = 60;
    let recorded = RefCell::new([0usize; 7]);
    let gains = |_: &State, _: Stat| [2u16; 5];
    // Always prefers candidate 3 (Power training) once all have been tried.
    let pick = |_: &[usize; 7], _: usize| 3usize;
    let record = |i: usize, end: &State| {
        assert_eq!(end.turn, CAREER_LENGTH);
        recorded.borrow_mut()[i] += 1;
    };
    let (action, sims) = search_turn(&s, &d, &mut rng, &gains, &pick, &record).unwrap();
    assert_eq!(action, Action::Train(Stat::Power));
    assert_eq!(sims.iter().sum::<usize>(), MCTS_SIMS);
    assert_eq!(sims, [1, 1, 1, MCTS_SIMS - 6, 1, 1, 1]);
    assert_eq!(*recorded.borrow(), sims);
    assert_eq!(s.turn, 60);
}

#[test]
fn search_turn_rejects_a_pick_out_of_range() {
    let d = deck();
    let mut rng = XorShiftRng::seed_from_u64(12);
    let mut s = fresh_state();
    s.turn = 70;
    let gains = |_: &State, _: Stat| [2u16; 5];
    let pick = |_: &[usize; 7], _: usize| 9usize;
    let record = |_: usize, _: &State| {};
    assert!(search_turn(&s, &d, &mut rng, &gains, &pick, &record).is_none());
}

#[test]
fn career_run_only_trained_stats_change() {
    let d = deck();
    let mut rng = XorShiftRng::seed_from_u64(21);
    let mut s = fresh_state();
    s.turn = 40;
    let start = s;
    let gains = |_: &State, _: Stat| [4u16; 5];
    let search = |st: &State, _: &mut XorShiftRng| {
        if st.energy < 50 {
            Action::Rest
        } else {
            Action::Train(Stat::Stamina)
        }
    };
    let actions = intelligently_run_career(&mut s, &d, &mut rng, &gains, &search).unwrap();
    let stamina_trainings = actions.iter().filter(|a| **a == Action::Train(Stat::Stamina)).count();
    assert_eq!(s.stats[0], start.stats[0]);
    assert_eq!(s.stats[2], start.stats[2]);
    assert_eq!(s.stats[4], start.stats[4]);
    assert!(s.times_trained[1] as usize <= stamina_trainings);
    assert_eq!(s.times_trained[0], 0);
}

#[test]
fn finished_career_state_comes_back_unchanged() {
    let d = deck();
    let mut rng = XorShiftRng::seed_from_u64(2);
    let mut s = fresh_state();
    s.turn = CAREER_LENGTH;
    s.energy = 33;
    let gains = |_: &State, _: Stat| [9u16; 5];
    let end = random_rollout(s, &d, &mut rng, &gains).unwrap();
    assert_eq!(end.energy, 33);
    assert_eq!(end.support_locations, s.support_locations);
    let mut t = s;
    let search = |_: &State, _: &mut XorShiftRng| Action::Rest;
    let actions = intelligently_run_career(&mut t, &d, &mut rng, &gains, &search).unwrap();
    assert!(actions.is_empty());
    assert_eq!(t.energy, 33);
    assert_eq!(t.stats, s.stats);
}

#[test]
fn short_deck_run_stops_at_an_empty_slot() {
    let d: Vec<SupportCard> = deck().into_iter().take(2).collect();
    let mut rng = XorShiftRng::seed_from_u64(4);
    let mut s = fresh_state();
    // Slot 3 has no card and sits at Speed training.
    s.support_locations = [Stat::Wit, Stat::Wit, Stat::Wit, Stat::Speed, Stat::Wit];
    let gains = |_: &State, _: Stat| [1u16; 5];
    let search = |_: &State, _: &mut XorShiftRng| Action::Train(Stat::Speed);
    assert!(intelligently_run_career(&mut s, &d, &mut rng, &gains, &search).is_none());
    assert_eq!(s.turn, 0);
}

#[test]
fn search_records_finished_playouts_for_each_pick() {
    let d = deck();
    let mut rng = XorShiftRng::seed_from_u64(8);
    let mut s = fresh_state();
    s.turn = 65;
    let seen = RefCell::new(Vec::new());
    let gains = |_: &State, _: Stat| [2u16; 5];
    let pick = |_: &[usize; 7], _: usize| 0usize;
    let record = |i: usize, end: &State| seen.borrow_mut().push((i, end.turn));
    let (action, _) = search_turn(&s, &d, &mut rng, &gains, &pick, &record).unwrap();
    assert_eq!(action, Action::Rest);
    let seen = seen.into_inner();
    assert_eq!(seen.len(), MCTS_SIMS);
    assert_eq!(seen[..7].iter().map(|p| p.0).collect::<Vec<_>>(), vec![6, 5, 4, 3, 2, 1, 0]);
    assert!(seen.iter().all(|p| p.1 == CAREER_LENGTH));
}
