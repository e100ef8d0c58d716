use vstd::prelude::*;

use rand_xorshift::XorShiftRng;

use crate::career::{
    action_is_safe, deck_is_playable, gains_fit, is_action_safe, lemma_playable_turn_is_safe,
    lemma_short_deck_training_unsafe,
    lemma_turn_effects, raises, take_action, trains_at, turn_taken, Action, Stat, State,
};
use crate::chance::choose_action;
use crate::support_cards::SupportCard;

verus! {

/// Number of turns in a career.
pub const CAREER_LENGTH: u8 = 72;

/// Number of simulated playouts per turn of the search.
pub const MCTS_SIMS: usize = 2000;

/// How many turns a random playout runs at most; `None` plays to the end.
pub const RANDOM_ROLLOUT_MAX_TURNS: Option<u8> = None;

/// The actions the search chooses among, by position: rest, the five
/// trainings in stat order, recreation.
pub open spec fn candidate(i: int) -> Action {
    if i == 0 {
        Action::Rest
    } else if i == 1 {
        Action::Train(Stat::Speed)
    } else if i == 2 {
        Action::Train(Stat::Stamina)
    } else if i == 3 {
        Action::Train(Stat::Power)
    } else if i == 4 {
        Action::Train(Stat::Guts)
    } else if i == 5 {
        Action::Train(Stat::Wit)
    } else {
        Action::Recreation
    }
}

/// The actions the search chooses among, in order.
pub fn possible_actions() -> (r: [Action; 7])
    ensures
        forall|i: int| 0 <= i < 7 ==> #[trigger] r@[i] == candidate(i),
{
    [
        Action::Rest,
        Action::Train(Stat::Speed),
        Action::Train(Stat::Stamina),
        Action::Train(Stat::Power),
        Action::Train(Stat::Guts),
        Action::Train(Stat::Wit),
        Action::Recreation,
    ]
}

/// The search tries an action not yet simulated before any other: the last
/// such action in candidate order. `None` once every action has been
/// simulated.
pub fn last_unvisited(num_sims: &[usize; 7]) -> (r: Option<usize>)
    ensures
        r is None <==> forall|k: int| 0 <= k < 7 ==> #[trigger] num_sims@[k] != 0,
        r matches Some(i) ==> i < 7 && num_sims@[i as int] == 0 && forall|k: int|
            i < k < 7 ==> #[trigger] num_sims@[k] != 0,
{
    let mut i: usize = 7;
    while i > 0
        invariant
            i <= 7,
            forall|k: int| i <= k < 7 ==> #[trigger] num_sims@[k] != 0,
        decreases i,
    {
        i = i - 1;
        if num_sims[i] == 0 {
            return Some(i);
        }
    }
    None
}

/// The action the search settles on: the one simulated most often, the last
/// in candidate order among equals.
pub fn most_visited(num_sims: &[usize; 7]) -> (r: usize)
    ensures
        r < 7,
        forall|k: int| 0 <= k < 7 ==> #[trigger] num_sims@[k] <= num_sims@[r as int],
        forall|k: int| r < k < 7 ==> #[trigger] num_sims@[k] < num_sims@[r as int],
{
    let mut best: usize = 0;
    for i in 1..7usize
        invariant
            best < i,
            forall|k: int| 0 <= k < i ==> #[trigger] num_sims@[k] <= num_sims@[best as int],
            forall|k: int| best < k < i ==> #[trigger] num_sims@[k] < num_sims@[best as int],
    {
        if num_sims[i] >= num_sims[best] {
            best = i;
        }
    }
    best
}

/// Whether a random playout that started at `start_turn` stops at `turn`.
pub open spec fn playout_over(start_turn: u8, turn: u8) -> bool {
    turn == CAREER_LENGTH || match RANDOM_ROLLOUT_MAX_TURNS {
        Some(max_turns) => turn - start_turn >= max_turns,
        None => false,
    }
}

/// Every result that `gains_for` can give fits under the stat cap.
pub open spec fn gains_for_fit<F: Fn(&State, Stat) -> [u16; 5]>(gains_for: F) -> bool {
    forall|st: &State, t: Stat, g: [u16; 5]|
        #[trigger] gains_for.ensures((st, t), g) ==> gains_fit(g@)
}

/// The random draws that a state, deck and gains can lead to overflow
/// nothing: the state is within the career's bounds, the deck is playable
/// and every gain fits.
pub open spec fn overflow_free<F: Fn(&State, Stat) -> [u16; 5]>(
    s: State,
    deck: Seq<SupportCard>,
    gains_for: F,
) -> bool {
    &&& s.wf()
    &&& deck_is_playable(deck)
    &&& gains_for_fit(gains_for)
}

/// `gains` is a result that `gains_for` can give for a training from `s`;
/// any gains go with an action that is not a training.
pub open spec fn gains_drawn<F: Fn(&State, Stat) -> [u16; 5]>(
    gains_for: F,
    s: State,
    action: Action,
    gains: [u16; 5],
) -> bool {
    match action {
        Action::Train(training) => gains_for.ensures((&s, training), gains),
        _ => true,
    }
}

/// `states` is a play of the career from `start`: each `states[k + 1]`
/// follows from `states[k]` by one turn of `actions[k]`, with gains that
/// `gains_for` gave for it.
pub open spec fn played_from<F: Fn(&State, Stat) -> [u16; 5]>(
    gains_for: F,
    deck: Seq<SupportCard>,
    start: State,
    states: Seq<State>,
    actions: Seq<Action>,
    gains: Seq<[u16; 5]>,
) -> bool {
    &&& states.len() == actions.len() + 1
    &&& gains.len() == actions.len()
    &&& states[0] == start
    &&& forall|k: int|
        0 <= k < actions.len() ==> gains_drawn(gains_for, states[k], #[trigger] actions[k], gains[k])
            && action_is_safe(states[k], actions[k], deck, gains[k]@) && turn_taken(
            states[k],
            states[k + 1],
            actions[k],
            deck,
            gains[k]@,
        )
}

/// No action of a play trains the stat at a location slot that has no card
/// in the deck.
pub open spec fn avoids_empty_slots(
    deck: Seq<SupportCard>,
    states: Seq<State>,
    actions: Seq<Action>,
) -> bool {
    forall|k: int, slot: int|
        0 <= k < actions.len() && deck.len() <= slot < 5 ==> #[trigger] actions[k] != Action::Train(
            #[trigger] states[k].support_locations@[slot],
        )
}

/// A play takes no training at an empty slot: such a training is not safe.
pub proof fn lemma_play_avoids_empty_slots<F: Fn(&State, Stat) -> [u16; 5]>(
    gains_for: F,
    deck: Seq<SupportCard>,
    start: State,
    states: Seq<State>,
    actions: Seq<Action>,
    gains: Seq<[u16; 5]>,
)
    requires
        played_from(gains_for, deck, start, states, actions, gains),
    ensures
        avoids_empty_slots(deck, states, actions),
{
    assert forall|k: int, slot: int|
        0 <= k < actions.len() && deck.len() <= slot < 5 implies #[trigger] actions[k]
        != Action::Train(#[trigger] states[k].support_locations@[slot]) by {
        if actions[k] == Action::Train(states[k].support_locations@[slot]) {
            lemma_short_deck_training_unsafe(
                states[k],
                states[k].support_locations@[slot],
                deck,
                gains[k]@,
                slot,
            );
        }
    }
}

/// Taking `action` from `s` with gains that `gains_for` gave would overflow
/// a counter.
pub open spec fn overflows_next<F: Fn(&State, Stat) -> [u16; 5]>(
    gains_for: F,
    deck: Seq<SupportCard>,
    s: State,
    action: Action,
    gains: [u16; 5],
) -> bool {
    gains_drawn(gains_for, s, action, gains) && !action_is_safe(s, action, deck, gains@)
}

/// Extending a play by one more turn gives a play.
proof fn lemma_play_one_more<F: Fn(&State, Stat) -> [u16; 5]>(
    gains_for: F,
    deck: Seq<SupportCard>,
    start: State,
    states: Seq<State>,
    actions: Seq<Action>,
    gains: Seq<[u16; 5]>,
    next: State,
    action: Action,
    g: [u16; 5],
)
    requires
        played_from(gains_for, deck, start, states, actions, gains),
        gains_drawn(gains_for, states.last(), action, g),
        action_is_safe(states.last(), action, deck, g@),
        turn_taken(states.last(), next, action, deck, g@),
    ensures
        played_from(gains_for, deck, start, states.push(next), actions.push(action), gains.push(g)),
{
    let states2 = states.push(next);
    let actions2 = actions.push(action);
    let gains2 = gains.push(g);
    assert forall|k: int| 0 <= k < actions2.len() implies gains_drawn(
        gains_for,
        states2[k],
        #[trigger] actions2[k],
        gains2[k],
    ) && action_is_safe(states2[k], actions2[k], deck, gains2[k]@) && turn_taken(
        states2[k],
        states2[k + 1],
        actions2[k],
        deck,
        gains2[k]@,
    ) by {
        if k < actions.len() {
            assert(actions2[k] == actions[k]);
            assert(gains_drawn(gains_for, states[k], actions[k], gains[k]));
        }
    }
}

/// Plays random actions from `s` until the career ends and gives back the
/// final state. A training raises the stats it trains by what `gains_for`
/// returns for the state and training. `None` when an action along the way
/// would overflow a counter, which cannot happen from a state within the
/// career's bounds with a playable deck and gains that fit.
pub fn random_rollout<F: Fn(&State, Stat) -> [u16; 5]>(
    s: State,
    deck: &[SupportCard],
    rng: &mut XorShiftRng,
    gains_for: &F,
) -> (r: Option<State>)
    requires
        s.turn <= CAREER_LENGTH,
        forall|st: &State, t: Stat| gains_for.requires((st, t)),
    ensures
        r matches Some(f) ==> s.turn <= f.turn <= CAREER_LENGTH,
        r matches Some(f) ==> playout_over(s.turn, f.turn),
        r matches Some(f) ==> (s.wf() ==> f.wf()),
        overflow_free(s, deck@, *gains_for) ==> r is Some,
        r matches Some(f) ==> exists|states: Seq<State>, played: Seq<Action>, drawn: Seq<[u16; 5]>|
            played_from(*gains_for, deck@, s, states, played, drawn) && states.last() == f
                && played.len() == f.turn - s.turn,
        r is None ==> exists|
            states: Seq<State>,
            played: Seq<Action>,
            drawn: Seq<[u16; 5]>,
            action: Action,
            gains: [u16; 5],
        |
            played_from(*gains_for, deck@, s, states, played, drawn) && overflows_next(
                *gains_for,
                deck@,
                states.last(),
                action,
                gains,
            ),
        s.turn == CAREER_LENGTH ==> r == Some(s) && *final(rng) == *old(rng),
{
    let actions = possible_actions();
    let start_turn = s.turn;
    let mut cur = s;
    let ghost start_wf = s.wf();
    let ghost owed = overflow_free(s, deck@, *gains_for);
    let ghost mut states: Seq<State> = seq![s];
    let ghost mut played: Seq<Action> = Seq::empty();
    let ghost mut drawn: Seq<[u16; 5]> = Seq::empty();
    loop
        invariant
            owed == overflow_free(s, deck@, *gains_for),
            start_turn == s.turn,
            start_turn <= cur.turn <= CAREER_LENGTH,
            forall|st: &State, t: Stat| gains_for.requires((st, t)),
            start_wf ==> cur.wf(),
            owed ==> overflow_free(cur, deck@, *gains_for),
            played_from(*gains_for, deck@, s, states, played, drawn),
            states.last() == cur,
            played.len() == cur.turn - start_turn,
            cur.turn == start_turn ==> cur == s && *rng == *old(rng),
        ensures
            playout_over(start_turn, cur.turn),
            start_wf ==> cur.wf(),
            played_from(*gains_for, deck@, s, states, played, drawn),
            states.last() == cur,
            played.len() == cur.turn - start_turn,
            cur.turn == start_turn ==> cur == s && *rng == *old(rng),
        decreases CAREER_LENGTH - cur.turn,
    {
        if cur.turn == CAREER_LENGTH {
            break;
        }
        if let Some(max_turns) = RANDOM_ROLLOUT_MAX_TURNS {
            if cur.turn - start_turn >= max_turns {
                break;
            }
        }
        let action = *choose_action(rng, actions.as_slice()).unwrap();
        let gains: [u16; 5] = match action {
            Action::Train(training) => gains_for(&cur, training),
            _ => [0, 0, 0, 0, 0],
        };
        proof {
            if owed {
                assert(gains_fit(gains@));
                lemma_playable_turn_is_safe(cur, action, deck@, gains@);
            }
        }
        if !is_action_safe(&cur, action, deck, &gains) {
            assert(overflows_next(*gains_for, deck@, states.last(), action, gains));
            return None;
        }
        take_action(&mut cur, action, deck, gains, rng);
        proof {
            lemma_play_one_more(*gains_for, deck@, s, states, played, drawn, cur, action, gains);
            states = states.push(cur);
            played = played.push(action);
            drawn = drawn.push(gains);
        }
    }
    assert(played_from(*gains_for, deck@, s, states, played, drawn) && states.last() == cur);
    Some(cur)
}


/// Number of simulations counted in the first `n` entries.
pub open spec fn total_sims(sims: Seq<usize>, n: nat) -> int
    decreases n,
{
    if n == 0 {
        0
    } else {
        total_sims(sims, (n - 1) as nat) + sims[n - 1]
    }
}

/// Number of the first `n` candidates simulated at least once.
pub open spec fn visited_count(sims: Seq<usize>, n: nat) -> int
    decreases n,
{
    if n == 0 {
        0
    } else {
        visited_count(sims, (n - 1) as nat) + if sims[n - 1] > 0 {
            1int
        } else {
            0int
        }
    }
}

/// `i` is the last of the candidates simulated most often.
pub open spec fn is_last_most_visited(sims: Seq<usize>, i: int) -> bool {
    &&& 0 <= i < 7
    &&& forall|k: int| 0 <= k < 7 ==> #[trigger] sims[k] <= sims[i]
    &&& forall|k: int| i < k < 7 ==> #[trigger] sims[k] < sims[i]
}

/// Counting one more simulation of candidate `i` adds one to the total, and
/// one to the visited candidates when `i` had not been simulated before.
proof fn lemma_count_one_more(sims: Seq<usize>, i: int, n: nat)
    requires
        0 <= i < sims.len(),
        n <= sims.len(),
        sims[i] < usize::MAX,
    ensures
        total_sims(sims.update(i, (sims[i] + 1) as usize), n) == total_sims(sims, n) + if i < n {
            1int
        } else {
            0int
        },
        visited_count(sims.update(i, (sims[i] + 1) as usize), n) == visited_count(sims, n) + if i
            < n && sims[i] == 0 {
            1int
        } else {
            0int
        },
    decreases n,
{
    if n > 0 {
        lemma_count_one_more(sims, i, (n - 1) as nat);
    }
}

/// At most `n` of the first `n` candidates are visited, and all of them are
/// exactly when none has a zero count.
proof fn lemma_visited_bound(sims: Seq<usize>, n: nat)
    requires
        n <= sims.len(),
    ensures
        visited_count(sims, n) <= n,
        visited_count(sims, n) == n <==> forall|k: int| 0 <= k < n ==> #[trigger] sims[k] > 0,
    decreases n,
{
    if n > 0 {
        lemma_visited_bound(sims, (n - 1) as nat);
    }
}

/// Every index that `pick` can give names a candidate.
pub open spec fn pick_names_candidate<P: Fn(&[usize; 7], usize) -> usize>(pick: P) -> bool {
    forall|sims: &[usize; 7], total: usize, p: usize|
        #[trigger] pick.ensures((sims, total), p) ==> p < 7
}

/// The search's choice of candidate `i` after `total` simulations with the
/// counts `before`: while some candidate has not been simulated, the last
/// such one; after that, one that `pick` can give for the counts and total.
pub open spec fn picked<P: Fn(&[usize; 7], usize) -> usize>(
    pick: P,
    before: [usize; 7],
    total: usize,
    i: usize,
) -> bool {
    &&& i < 7
    &&& if forall|j: int| 0 <= j < 7 ==> #[trigger] before@[j] != 0 {
        pick.ensures((&before, total), i)
    } else {
        before@[i as int] == 0 && forall|j: int| i < j < 7 ==> #[trigger] before@[j] != 0
    }
}

/// `counts` are the simulation counts of a search, from all zero, and
/// `picks` the candidates it chose: each choice follows `picked` and adds
/// one to that candidate's count.
pub open spec fn counted_from<P: Fn(&[usize; 7], usize) -> usize>(
    pick: P,
    counts: Seq<[usize; 7]>,
    picks: Seq<usize>,
) -> bool {
    &&& counts.len() == picks.len() + 1
    &&& forall|j: int| 0 <= j < 7 ==> #[trigger] counts[0]@[j] == 0
    &&& forall|k: int|
        0 <= k < picks.len() ==> picked(pick, counts[k], k as usize, #[trigger] picks[k])
            && counts[k + 1]@ == counts[k]@.update(
            picks[k] as int,
            (counts[k]@[picks[k] as int] + 1) as usize,
        )
}

/// `end` is where a simulation of `action` from `start` ends: one turn of
/// the action with gains that `gains_for` gave, then a play of the career
/// from there until the playout stops.
pub open spec fn simulated<F: Fn(&State, Stat) -> [u16; 5]>(
    gains_for: F,
    deck: Seq<SupportCard>,
    start: State,
    action: Action,
    end: State,
) -> bool {
    exists|
        mid: State,
        g: [u16; 5],
        states: Seq<State>,
        played: Seq<Action>,
        drawn: Seq<[u16; 5]>,
    |
        gains_drawn(gains_for, start, action, g) && action_is_safe(start, action, deck, g@)
            && turn_taken(start, mid, action, deck, g@) && played_from(
            gains_for,
            deck,
            mid,
            states,
            played,
            drawn,
        ) && states.last() == end && playout_over(mid.turn, end.turn)
}

/// Simulation `k` of a search from `start` ended in `ends[k]`, a simulation
/// of the candidate `picks[k]`, and `record` was handed that candidate and
/// that end.
pub open spec fn simulations_recorded<F: Fn(&State, Stat) -> [u16; 5], R: Fn(usize, &State)>(
    gains_for: F,
    record: R,
    deck: Seq<SupportCard>,
    start: State,
    picks: Seq<usize>,
    ends: Seq<State>,
) -> bool {
    &&& ends.len() == picks.len()
    &&& forall|k: int|
        0 <= k < ends.len() ==> simulated(
            gains_for,
            deck,
            start,
            candidate(picks[k] as int),
            #[trigger] ends[k],
        ) && record.ensures((picks[k], &ends[k]), ())
}

/// One turn of Monte Carlo tree search from `state`.
///
/// Runs `MCTS_SIMS` simulations. Each picks a candidate action: one never
/// simulated yet if there is one (the last such), otherwise the one `pick`
/// names from the simulation counts and their total. It takes that action on
/// a copy of the state, plays the career out at random and hands the
/// candidate and the final state of the playout to `record`, which keeps the
/// scores. Gives back the action of the candidate simulated most often (the
/// last among equals) with the counts, or `None` when `pick` names no
/// candidate or an action would overflow a counter. Neither happens from a
/// state within the career's bounds, with a playable deck, gains that fit and
/// a `pick` that always names a candidate.
pub fn search_turn<
    F: Fn(&State, Stat) -> [u16; 5],
    P: Fn(&[usize; 7], usize) -> usize,
    R: Fn(usize, &State),
>(
    state: &State,
    deck: &[SupportCard],
    rng: &mut XorShiftRng,
    gains_for: &F,
    pick: &P,
    record: &R,
) -> (r: Option<(Action, [usize; 7])>)
    requires
        state.turn < CAREER_LENGTH,
        forall|st: &State, t: Stat| gains_for.requires((st, t)),
        forall|sims: &[usize; 7], total: usize| pick.requires((sims, total)),
        forall|i: usize, st: &State| record.requires((i, st)),
    ensures
        r matches Some((action, sims)) ==> {
            &&& exists|i: int| is_last_most_visited(sims@, i) && action == candidate(i)
            &&& total_sims(sims@, 7) == MCTS_SIMS
            &&& forall|k: int| 0 <= k < 7 ==> #[trigger] sims@[k] >= 1
            &&& exists|counts: Seq<[usize; 7]>, picks: Seq<usize>, ends: Seq<State>|
                counted_from(*pick, counts, picks) && picks.len() == MCTS_SIMS && counts.last()
                    == sims && simulations_recorded(*gains_for, *record, deck@, *state, picks, ends)
        },
        overflow_free(*state, deck@, *gains_for) && pick_names_candidate(*pick) ==> r is Some,
{
    let ghost owed = overflow_free(*state, deck@, *gains_for) && pick_names_candidate(*pick);
    let candidates = possible_actions();
    let mut sims: [usize; 7] = [0, 0, 0, 0, 0, 0, 0];
    let mut total: usize = 0;
    let ghost mut counts: Seq<[usize; 7]> = seq![sims];
    let ghost mut picks: Seq<usize> = Seq::empty();
    let ghost mut ends: Seq<State> = Seq::empty();
    proof {
        assert(total_sims(sims@, 7) == 0) by {
            reveal_with_fuel(total_sims, 8);
        }
        assert(visited_count(sims@, 7) == 0) by {
            reveal_with_fuel(visited_count, 8);
        }
    }
    while total < MCTS_SIMS
        invariant
            state.turn < CAREER_LENGTH,
            forall|st: &State, t: Stat| gains_for.requires((st, t)),
            forall|sims: &[usize; 7], total: usize| pick.requires((sims, total)),
            forall|i: usize, st: &State| record.requires((i, st)),
            total <= MCTS_SIMS,
            total_sims(sims@, 7) == total,
            visited_count(sims@, 7) == if total < 7 {
                total as int
            } else {
                7
            },
            forall|k: int| 0 <= k < 7 ==> #[trigger] sims@[k] <= total,
            owed == (overflow_free(*state, deck@, *gains_for) && pick_names_candidate(*pick)),
            counted_from(*pick, counts, picks),
            counts.last() == sims,
            picks.len() == total,
            simulations_recorded(*gains_for, *record, deck@, *state, picks, ends),
            forall|k: int| 0 <= k < 7 ==> #[trigger] candidates@[k] == candidate(k),
        decreases MCTS_SIMS - total,
    {
        let i = match last_unvisited(&sims) {
            Some(i) => i,
            None => {
                let p = pick(&sims, total);
                if p >= 7 {
                    return None;
                }
                p
            },
        };
        let action = candidates[i];
        let mut s = *state;
        let gains: [u16; 5] = match action {
            Action::Train(training) => gains_for(&s, training),
            _ => [0, 0, 0, 0, 0],
        };
        proof {
            if owed {
                assert(gains_fit(gains@));
                lemma_playable_turn_is_safe(s, action, deck@, gains@);
            }
        }
        if !is_action_safe(&s, action, deck, &gains) {
            return None;
        }
        take_action(&mut s, action, deck, gains, rng);
        assert(owed ==> overflow_free(s, deck@, *gains_for));
        let ghost mid = s;
        assert(action == candidate(i as int));
        let ghost old_picks = picks;
        proof {
            lemma_count_one_more(sims@, i as int, 7);
            lemma_visited_bound(sims@, 7);
        }
        let ghost before = sims@;
        let ghost before_arr = sims;
        assert(picked(*pick, before_arr, total, i));
        sims[i] = sims[i] + 1;
        assert(sims@ == before.update(i as int, (before[i as int] + 1) as usize));
        proof {
            let counts2 = counts.push(sims);
            let picks2 = picks.push(i);
            assert forall|k: int| 0 <= k < picks2.len() implies picked(
                *pick,
                counts2[k],
                k as usize,
                #[trigger] picks2[k],
            ) && counts2[k + 1]@ == counts2[k]@.update(
                picks2[k] as int,
                (counts2[k]@[picks2[k] as int] + 1) as usize,
            ) by {
                if k < picks.len() {
                    assert(picks2[k] == picks[k]);
                    assert(picked(*pick, counts[k], k as usize, picks[k]));
                }
            }
            counts = counts2;
            picks = picks2;
        }
        let end = match random_rollout(s, deck, rng, gains_for) {
            Some(end) => end,
            None => {
                return None;
            },
        };
        record(i, &end);
        proof {
            let (st, pl, dr) = choose|
                states: Seq<State>,
                played: Seq<Action>,
                drawn: Seq<[u16; 5]>,
            |
                played_from(*gains_for, deck@, mid, states, played, drawn) && states.last() == end
                    && played.len() == end.turn - mid.turn;
            assert(gains_drawn(*gains_for, *state, action, gains) && action_is_safe(
                *state,
                action,
                deck@,
                gains@,
            ) && turn_taken(*state, mid, action, deck@, gains@) && played_from(
                *gains_for,
                deck@,
                mid,
                st,
                pl,
                dr,
            ) && st.last() == end && playout_over(mid.turn, end.turn));
            assert(simulated(*gains_for, deck@, *state, candidate(i as int), end));
            let ends2 = ends.push(end);
            assert forall|k: int| 0 <= k < ends2.len() implies simulated(
                *gains_for,
                deck@,
                *state,
                candidate(picks[k] as int),
                #[trigger] ends2[k],
            ) && record.ensures((picks[k], &ends2[k]), ()) by {
                if k < ends.len() {
                    assert(ends2[k] == ends[k]);
                    assert(picks[k] == old_picks[k]);
                }
            }
            ends = ends2;
        }
        total = total + 1;
    }
    proof {
        lemma_visited_bound(sims@, 7);
    }
    let best = most_visited(&sims);
    assert(is_last_most_visited(sims@, best as int));
    assert(counted_from(*pick, counts, picks) && picks.len() == MCTS_SIMS && counts.last() == sims
        && simulations_recorded(*gains_for, *record, deck@, *state, picks, ends));
    Some((candidates[best], sims))
}

/// `action` is a result that `search` can give for state `s`.
pub open spec fn chosen_by<G: Fn(&State, &mut XorShiftRng) -> Action>(
    search: G,
    s: State,
    action: Action,
) -> bool {
    exists|g: &mut XorShiftRng| search.ensures((&s, g), action)
}

/// Each action of a play is what `search` can give for the state it was
/// taken in.
pub open spec fn searched<G: Fn(&State, &mut XorShiftRng) -> Action>(
    search: G,
    states: Seq<State>,
    actions: Seq<Action>,
) -> bool {
    forall|k: int| 0 <= k < actions.len() ==> chosen_by(search, states[k], #[trigger] actions[k])
}

/// How many of the actions train the stat at position `k`.
pub open spec fn count_trainings(actions: Seq<Action>, k: int) -> int
    decreases actions.len(),
{
    if actions.len() == 0 {
        0
    } else {
        count_trainings(actions.drop_last(), k) + if trains_at(actions.last(), k) {
            1int
        } else {
            0int
        }
    }
}

/// Runs the rest of a career: until the turn counter reaches
/// `CAREER_LENGTH`, asks `search` for the action to take in the current
/// state and takes it. A training raises the stats it trains by what
/// `gains_for` returns for the state and training. Gives back the actions
/// taken, one per turn, or `None` when an action would overflow a counter
/// or, with a deck of fewer than five cards, train at a slot without a card.
/// Neither can happen from a state within the career's bounds with a
/// playable deck and gains that fit, nor once the career is over.
pub fn intelligently_run_career<
    F: Fn(&State, Stat) -> [u16; 5],
    G: Fn(&State, &mut XorShiftRng) -> Action,
>(
    state: &mut State,
    deck: &[SupportCard],
    rng: &mut XorShiftRng,
    gains_for: &F,
    search: &G,
) -> (r: Option<Vec<Action>>)
    requires
        forall|st: &State, t: Stat| gains_for.requires((st, t)),
        forall|st: &State, g: &mut XorShiftRng| search.requires((st, g)),
    ensures
        r matches Some(actions) ==> {
            &&& final(state).turn == if old(state).turn < CAREER_LENGTH {
                CAREER_LENGTH
            } else {
                old(state).turn
            }
            &&& actions@.len() == final(state).turn - old(state).turn
            &&& old(state).wf() ==> final(state).wf()
            &&& exists|states: Seq<State>, drawn: Seq<[u16; 5]>|
                played_from(*gains_for, deck@, *old(state), states, actions@, drawn)
                    && states.last() == *final(state) && searched(*search, states, actions@)
                    && avoids_empty_slots(deck@, states, actions@)
            &&& forall|j: int|
                0 <= j < 5 && (forall|k: int| 0 <= k < actions@.len() ==> !raises(#[trigger] actions@[k], j))
                    ==> #[trigger] final(state).stats@[j] == old(state).stats@[j]
            &&& forall|k: int|
                0 <= k < 5 ==> old(state).times_trained@[k] <= #[trigger] final(state).times_trained@[k]
                    <= old(state).times_trained@[k] + count_trainings(actions@, k)
        },
        r is None ==> exists|
            states: Seq<State>,
            played: Seq<Action>,
            drawn: Seq<[u16; 5]>,
            action: Action,
            gains: [u16; 5],
        |
            played_from(*gains_for, deck@, *old(state), states, played, drawn) && states.last()
                == *final(state) && searched(*search, states, played) && chosen_by(
                *search,
                *final(state),
                action,
            ) && overflows_next(*gains_for, deck@, *final(state), action, gains),
        old(state).turn >= CAREER_LENGTH ==> (r matches Some(actions) && actions@.len() == 0)
            && *final(state) == *old(state) && *final(rng) == *old(rng),
        overflow_free(*old(state), deck@, *gains_for) ==> r is Some,
{
    let mut actions: Vec<Action> = Vec::new();
    let start_turn = state.turn;
    let ghost start = *state;
    let ghost start_wf = state.wf();
    let ghost owed = overflow_free(*state, deck@, *gains_for);
    let ghost mut states: Seq<State> = seq![*state];
    let ghost mut drawn: Seq<[u16; 5]> = Seq::empty();
    while state.turn < CAREER_LENGTH
        invariant
            forall|st: &State, t: Stat| gains_for.requires((st, t)),
            forall|st: &State, g: &mut XorShiftRng| search.requires((st, g)),
            start == *old(state),
            start_turn == old(state).turn,
            start_wf == old(state).wf(),
            start_turn < CAREER_LENGTH ==> state.turn <= CAREER_LENGTH,
            start_turn >= CAREER_LENGTH ==> state.turn == start_turn,
            state.turn >= start_turn,
            actions@.len() == state.turn - start_turn,
            start_wf ==> state.wf(),
            owed == overflow_free(*old(state), deck@, *gains_for),
            owed ==> overflow_free(*state, deck@, *gains_for),
            played_from(*gains_for, deck@, start, states, actions@, drawn),
            states.last() == *state,
            searched(*search, states, actions@),
            state.turn == start_turn ==> *state == start && *rng == *old(rng),
            forall|j: int|
                0 <= j < 5 && (forall|k: int| 0 <= k < actions@.len() ==> !raises(#[trigger] actions@[k], j))
                    ==> #[trigger] state.stats@[j] == start.stats@[j],
            forall|k: int|
                0 <= k < 5 ==> start.times_trained@[k] <= #[trigger] state.times_trained@[k]
                    <= start.times_trained@[k] + count_trainings(actions@, k),
        decreases CAREER_LENGTH - state.turn,
    {
        let action = search(state, rng);
        assert(chosen_by(*search, *state, action));
        let gains: [u16; 5] = match action {
            Action::Train(training) => gains_for(state, training),
            _ => [0, 0, 0, 0, 0],
        };
        proof {
            if owed {
                assert(gains_fit(gains@));
                lemma_playable_turn_is_safe(*state, action, deck@, gains@);
            }
        }
        if !is_action_safe(state, action, deck, &gains) {
            assert(overflows_next(*gains_for, deck@, *state, action, gains));
            return None;
        }
        let ghost pre = *state;
        let ghost before = actions@;
        actions.push(action);
        take_action(state, action, deck, gains, rng);
        proof {
            lemma_play_one_more(*gains_for, deck@, start, states, before, drawn, *state, action, gains);
            lemma_turn_effects(pre, *state, action, deck@, gains@);
            let states2 = states.push(*state);
            assert forall|k: int| 0 <= k < actions@.len() implies chosen_by(
                *search,
                states2[k],
                #[trigger] actions@[k],
            ) by {
                if k < before.len() {
                    assert(actions@[k] == before[k]);
                    assert(chosen_by(*search, states[k], before[k]));
                }
            }
            assert forall|j: int|
                0 <= j < 5 && (forall|k: int| 0 <= k < actions@.len() ==> !raises(#[trigger] actions@[k], j))
                implies #[trigger] state.stats@[j] == start.stats@[j] by {
                assert forall|k: int| 0 <= k < before.len() implies !raises(#[trigger] before[k], j) by {
                    assert(actions@[k] == before[k]);
                }
                assert(actions@[before.len() as int] == action);
            }
            assert(actions@.drop_last() =~= before);
            states = states2;
            drawn = drawn.push(gains);
        }
    }
    assert(played_from(*gains_for, deck@, start, states, actions@, drawn) && states.last() == *state
        && searched(*search, states, actions@));
    proof {
        lemma_play_avoids_empty_slots(*gains_for, deck@, start, states, actions@, drawn);
    }
    assert(exists|states: Seq<State>, drawn: Seq<[u16; 5]>|
        played_from(*gains_for, deck@, start, states, actions@, drawn) && states.last() == *state
            && searched(*search, states, actions@) && avoids_empty_slots(deck@, states, actions@));
    Some(actions)
}

} // verus!
