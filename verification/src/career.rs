use vstd::prelude::*;

use rand_xorshift::XorShiftRng;

use crate::chance::{random_below, random_ratio};
use crate::support_cards::SupportCard;

verus! {

/// The five trainable stats, in their fixed order.
#[derive(Clone, Copy, Debug, PartialEq, Eq, Structural)]
pub enum Stat {
    Speed,
    Stamina,
    Power,
    Guts,
    Wit,
}

impl Stat {
    /// Position of the stat in the fixed order (Speed first, Wit last).
    pub open spec fn idx(self) -> int {
        match self {
            Stat::Speed => 0,
            Stat::Stamina => 1,
            Stat::Power => 2,
            Stat::Guts => 3,
            Stat::Wit => 4,
        }
    }

    /// Position of the stat in the fixed order.
    pub fn index(self) -> (r: usize)
        ensures
            r == self.idx(),
    {
        match self {
            Stat::Speed => 0,
            Stat::Stamina => 1,
            Stat::Power => 2,
            Stat::Guts => 3,
            Stat::Wit => 4,
        }
    }
}

/// The trainee's mood, from worst to best.
#[derive(Clone, Copy, Debug, PartialEq, Eq, Structural)]
pub enum Mood {
    Awful,
    Bad,
    Normal,
    Good,
    Great,
}

impl Mood {
    /// Rank of the mood: Awful is 0, Great is 4.
    pub open spec fn rank(self) -> int {
        match self {
            Mood::Awful => 0,
            Mood::Bad => 1,
            Mood::Normal => 2,
            Mood::Good => 3,
            Mood::Great => 4,
        }
    }

    /// The mood one step better, staying at Great.
    pub open spec fn spec_next(self) -> Mood {
        match self {
            Mood::Awful => Mood::Bad,
            Mood::Bad => Mood::Normal,
            Mood::Normal => Mood::Good,
            Mood::Good | Mood::Great => Mood::Great,
        }
    }

    /// The mood one step worse, staying at Awful.
    pub open spec fn spec_prior(self) -> Mood {
        match self {
            Mood::Awful | Mood::Bad => Mood::Awful,
            Mood::Normal => Mood::Bad,
            Mood::Good => Mood::Normal,
            Mood::Great => Mood::Good,
        }
    }

    /// The mood one step better; Great stays Great.
    pub fn next(&self) -> (r: Mood)
        ensures
            r == self.spec_next(),
            r.rank() == if self.rank() < 4 { self.rank() + 1 } else { 4 },
    {
        match self {
            Mood::Awful => Mood::Bad,
            Mood::Bad => Mood::Normal,
            Mood::Normal => Mood::Good,
            Mood::Good | Mood::Great => Mood::Great,
        }
    }

    /// The mood one step worse; Awful stays Awful.
    pub fn prior(&self) -> (r: Mood)
        ensures
            r == self.spec_prior(),
            r.rank() == if self.rank() > 0 { self.rank() - 1 } else { 0 },
    {
        match self {
            Mood::Awful | Mood::Bad => Mood::Awful,
            Mood::Normal => Mood::Bad,
            Mood::Good => Mood::Normal,
            Mood::Great => Mood::Good,
        }
    }
}


/// Improving a mood other than Awful after worsening it gives the mood back.
pub proof fn lemma_next_undoes_prior(m: Mood)
    requires
        m != Mood::Awful,
    ensures
        m.spec_prior().spec_next() == m,
{
}

/// Worsening a mood other than Great after improving it gives the mood back.
pub proof fn lemma_prior_undoes_next(m: Mood)
    requires
        m != Mood::Great,
    ensures
        m.spec_next().spec_prior() == m,
{
}

/// What the trainee does in a turn.
#[derive(Clone, Copy, Debug, PartialEq, Eq, Structural)]
pub enum Action {
    Rest,
    Train(Stat),
    Recreation,
}

pub open spec fn min_int(a: int, b: int) -> int {
    if a < b {
        a
    } else {
        b
    }
}

pub open spec fn max_int(a: int, b: int) -> int {
    if a < b {
        b
    } else {
        a
    }
}

/// `v1 + v2`, but no more than `cap`. The sum must fit in a `u8`.
pub fn add_with_cap_u8(v1: u8, v2: u8, cap: u8) -> (r: u8)
    requires
        v1 + v2 <= u8::MAX,
    ensures
        r == min_int(v1 + v2, cap as int),
{
    let sum = v1 + v2;
    if sum < cap {
        sum
    } else {
        cap
    }
}

/// `v1 + v2`, but no more than `cap`. The sum must fit in a `u16`.
pub fn add_with_cap_u16(v1: u16, v2: u16, cap: u16) -> (r: u16)
    requires
        v1 + v2 <= u16::MAX,
    ensures
        r == min_int(v1 + v2, cap as int),
{
    let sum = v1 + v2;
    if sum < cap {
        sum
    } else {
        cap
    }
}

/// The value of each stat, indexed by `Stat::index`.
pub type Stats = [u16; 5];

/// Most energy a trainee can have.
pub const MAX_ENERGY: u8 = 100;

/// Highest value a stat is raised to.
pub const STAT_CAP: u16 = 1200;

/// Highest friendship with a support card.
pub const MAX_FRIENDSHIP: u8 = 100;

/// The state of a career between turns.
#[derive(Clone, Copy)]
pub struct State {
    pub energy: u8,
    pub mood: Mood,
    pub stats: Stats,
    pub turn: u8,
    /// How often each stat has been trained successfully.
    pub times_trained: [u8; 5],
    /// Friendship with each support card of the deck, by deck position.
    pub friendship: [u8; 6],
    /// Where the first five support cards of the deck show up this turn.
    pub support_locations: [Stat; 5],
}

impl State {
    /// The bounds that every state reached from a new career keeps.
    pub open spec fn wf(&self) -> bool {
        &&& self.energy <= MAX_ENERGY
        &&& forall|j: int| 0 <= j < 5 ==> #[trigger] self.stats@[j] <= STAT_CAP
        &&& forall|i: int| 0 <= i < 6 ==> #[trigger] self.friendship@[i] <= MAX_FRIENDSHIP
    }
}

/// The stat at position `i` of the fixed order.
pub open spec fn stat_at(i: int) -> Stat {
    if i == 0 {
        Stat::Speed
    } else if i == 1 {
        Stat::Stamina
    } else if i == 2 {
        Stat::Power
    } else if i == 3 {
        Stat::Guts
    } else {
        Stat::Wit
    }
}

/// The stat at position `i` of the fixed order.
pub fn stat_from_index(i: usize) -> (r: Stat)
    requires
        i < 5,
    ensures
        r == stat_at(i as int),
        r.idx() == i,
{
    if i == 0 {
        Stat::Speed
    } else if i == 1 {
        Stat::Stamina
    } else if i == 2 {
        Stat::Power
    } else if i == 3 {
        Stat::Guts
    } else {
        Stat::Wit
    }
}

/// The order in which a card of a type prefers the five trainings: its own
/// stat first, then the other four in the fixed order.
pub open spec fn priority(card_type: int, rank: int) -> Stat {
    if rank == 0 {
        stat_at(card_type)
    } else if rank - 1 < card_type {
        stat_at(rank - 1)
    } else {
        stat_at(rank)
    }
}

/// Entry `rank` of the preference order of a card of type `card_type`.
pub fn priority_stat(card_type: u8, rank: usize) -> (r: Stat)
    requires
        card_type <= 4,
        rank <= 4,
    ensures
        r == priority(card_type as int, rank as int),
{
    if rank == 0 {
        stat_from_index(card_type as usize)
    } else if rank - 1 < card_type as usize {
        stat_from_index(rank - 1)
    } else {
        stat_from_index(rank)
    }
}

/// Which entry of its preference order a card takes for a roll: below
/// `rate + 110` the first, below `rate + 220` the second, and so on in steps
/// of 110; from `rate + 440` on the last.
pub open spec fn placement_rank(specialty_rate: int, roll: int) -> int {
    if roll < specialty_rate + 110 {
        0
    } else if roll < specialty_rate + 220 {
        1
    } else if roll < specialty_rate + 330 {
        2
    } else if roll < specialty_rate + 440 {
        3
    } else {
        4
    }
}

/// Where a card shows up for a roll.
pub open spec fn placement(card_type: u8, specialty_rate: u32, roll: u32) -> Stat {
    priority(card_type as int, placement_rank(specialty_rate as int, roll as int))
}

/// Where a card of the given type and specialty rate shows up for a roll.
pub fn support_location(card_type: u8, specialty_rate: u32, roll: u32) -> (r: Stat)
    requires
        card_type <= 4,
        specialty_rate <= u32::MAX - 550,
    ensures
        r == placement(card_type, specialty_rate, roll),
{
    let rank: usize = if roll < specialty_rate + 110 {
        0
    } else if roll < specialty_rate + 220 {
        1
    } else if roll < specialty_rate + 330 {
        2
    } else if roll < specialty_rate + 440 {
        3
    } else {
        4
    };
    priority_stat(card_type, rank)
}

/// How many cards of a deck get placed each turn: one per location slot.
pub open spec fn dealt_count(deck: Seq<SupportCard>) -> int {
    min_int(deck.len() as int, 5)
}

/// Every card that gets placed has one of the five types and a specialty
/// rate that leaves room for the roll range `0..550 + rate`.
pub open spec fn deck_dealable(deck: Seq<SupportCard>) -> bool {
    forall|i: int|
        0 <= i < dealt_count(deck) ==> (#[trigger] deck[i]).card_type <= 4 && deck[i].specialty_rate
            <= u32::MAX - 550
}

/// One roll per placed card, each in `0..550 + rate` of its card.
pub open spec fn rolls_in_range(deck: Seq<SupportCard>, rolls: Seq<u32>) -> bool {
    &&& rolls.len() == dealt_count(deck)
    &&& forall|i: int| 0 <= i < rolls.len() ==> #[trigger] rolls[i] < 550 + deck[i].specialty_rate
}

/// `post` is `pre` with the placed cards moved to where their rolls put
/// them; everything else is kept.
pub open spec fn dealt(pre: State, post: State, deck: Seq<SupportCard>, rolls: Seq<u32>) -> bool {
    &&& post.energy == pre.energy
    &&& post.mood == pre.mood
    &&& post.stats == pre.stats
    &&& post.turn == pre.turn
    &&& post.times_trained == pre.times_trained
    &&& post.friendship == pre.friendship
    &&& forall|i: int|
        0 <= i < 5 ==> #[trigger] post.support_locations@[i] == if i < dealt_count(deck) {
            placement(deck[i].card_type, deck[i].specialty_rate, rolls[i])
        } else {
            pre.support_locations@[i]
        }
}

/// Places the first five cards of the deck by the given rolls.
pub fn place_supports(s: &mut State, deck: &[SupportCard], rolls: &[u32])
    requires
        deck_dealable(deck@),
        rolls@.len() >= dealt_count(deck@),
    ensures
        dealt(*old(s), *final(s), deck@, rolls@),
{
    let n: usize = if deck.len() < 5 {
        deck.len()
    } else {
        5
    };
    for i in 0..n
        invariant
            n == dealt_count(deck@),
            deck_dealable(deck@),
            rolls@.len() >= n,
            s.energy == old(s).energy,
            s.mood == old(s).mood,
            s.stats == old(s).stats,
            s.turn == old(s).turn,
            s.times_trained == old(s).times_trained,
            s.friendship == old(s).friendship,
            forall|k: int|
                0 <= k < 5 ==> #[trigger] s.support_locations@[k] == if k < i {
                    placement(deck@[k].card_type, deck@[k].specialty_rate, rolls@[k])
                } else {
                    old(s).support_locations@[k]
                },
    {
        let card = &deck[i];
        assert(card.card_type <= 4 && card.specialty_rate <= u32::MAX - 550) by {
            assert(deck_dealable(deck@));
            assert(deck@[i as int] == *card);
        }
        let location = support_location(card.card_type, card.specialty_rate, rolls[i]);
        s.support_locations[i] = location;
    }
}

/// The number of placement rolls a card draws from: its specialty rate
/// plus 550. Rolls run over `0..placement_roll_range(card)`.
pub fn placement_roll_range(card: &SupportCard) -> (r: u32)
    requires
        card.specialty_rate <= u32::MAX - 550,
    ensures
        r == 550 + card.specialty_rate,
{
    550 + card.specialty_rate
}

/// Shows where the first five support cards of the deck appear this turn:
/// each card draws a roll in `0..550 + specialty rate` and goes to the
/// training its preference order gives for that roll.
pub fn deal_supports(s: &mut State, deck: &[SupportCard], rng: &mut XorShiftRng)
    requires
        deck_dealable(deck@),
    ensures
        exists|rolls: Seq<u32>| rolls_in_range(deck@, rolls) && dealt(*old(s), *final(s), deck@, rolls),
        deck@.len() == 0 ==> *final(rng) == *old(rng),
{
    let n: usize = if deck.len() < 5 {
        deck.len()
    } else {
        5
    };
    let mut rolls: Vec<u32> = Vec::new();
    for i in 0..n
        invariant
            n == dealt_count(deck@),
            deck_dealable(deck@),
            rolls@.len() == i,
            forall|k: int| 0 <= k < i ==> #[trigger] rolls@[k] < 550 + deck@[k].specialty_rate,
            n == 0 ==> *rng == *old(rng),
    {
        assert(deck@[i as int].specialty_rate <= u32::MAX - 550);
        let roll = random_below(rng, placement_roll_range(&deck[i]));
        rolls.push(roll);
    }
    place_supports(s, deck, rolls.as_slice());
    assert(rolls_in_range(deck@, rolls@));
}


/// Energy restored by resting, by roll in `0..3833`.
pub open spec fn rest_gain(roll: int) -> int {
    if roll < 975 {
        70
    } else if roll < 3201 {
        50
    } else {
        30
    }
}

/// `post` is `pre` after resting with the given roll: energy goes up by
/// 70, 50 or 30 (to at most 100), and the highest rolls also worsen the
/// mood. The turn counter is not part of this.
pub open spec fn rested(pre: State, post: State, roll: int) -> bool {
    &&& post.energy == min_int(pre.energy + rest_gain(roll), MAX_ENERGY as int)
    &&& post.mood == if roll >= 3693 {
        pre.mood.spec_prior()
    } else {
        pre.mood
    }
    &&& post.stats == pre.stats
    &&& post.times_trained == pre.times_trained
    &&& post.friendship == pre.friendship
    &&& post.support_locations == pre.support_locations
}

/// Whether training `training` raises the stat at position `j`.
pub open spec fn trains(training: Stat, j: int) -> bool {
    match training {
        Stat::Speed => j == 0 || j == 2,
        Stat::Stamina => j == 1 || j == 3,
        Stat::Power => j == 1 || j == 2,
        Stat::Guts => j == 0 || j == 2 || j == 3,
        Stat::Wit => j == 0 || j == 4,
    }
}

/// Whether training `training` raises the stat at position `j`.
pub fn trains_stat(training: Stat, j: usize) -> (r: bool)
    ensures
        r == trains(training, j as int),
{
    match training {
        Stat::Speed => j == 0 || j == 2,
        Stat::Stamina => j == 1 || j == 3,
        Stat::Power => j == 1 || j == 2,
        Stat::Guts => j == 0 || j == 2 || j == 3,
        Stat::Wit => j == 0 || j == 4,
    }
}

/// The level of a training facility: one level per four trainings, at most 4.
pub open spec fn training_level(times_trained: u8) -> int {
    min_int((times_trained / 4) as int, 4)
}

/// The level of a training facility trained `times_trained` times.
pub fn facility_level(times_trained: u8) -> (r: u8)
    ensures
        r == training_level(times_trained),
{
    let level = times_trained / 4;
    if level < 4 {
        level
    } else {
        4
    }
}

/// Extra energy that training costs at a facility level.
pub open spec fn level_energy_extra(level: int) -> int {
    if level == 0 {
        0
    } else if level == 1 {
        1
    } else if level == 2 {
        2
    } else if level == 3 {
        4
    } else {
        6
    }
}

/// Base energy cost of a training; Wit training restores energy instead.
pub open spec fn training_energy_cost(training: Stat) -> int {
    match training {
        Stat::Speed => 21,
        Stat::Stamina => 19,
        Stat::Power => 20,
        Stat::Guts => 22,
        Stat::Wit => 0,
    }
}

/// The wisdom recovery of the cards among the first `n` slots that show up
/// at Wit training, added up.
pub open spec fn wit_recovery(locations: Seq<Stat>, deck: Seq<SupportCard>, n: nat) -> int
    decreases n,
{
    if n == 0 {
        0
    } else {
        wit_recovery(locations, deck, (n - 1) as nat) + if locations[n - 1] == Stat::Wit {
            deck[n - 1].wisdom_recovery as int
        } else {
            0
        }
    }
}

/// Energy after a successful training: Wit training restores 5 plus the
/// wisdom recovery of the cards present (to at most 100); any other training
/// costs its base cost plus the facility's extra, down to at least 0.
pub open spec fn energy_after_training(pre: State, training: Stat, deck: Seq<SupportCard>) -> int {
    if training == Stat::Wit {
        min_int(
            pre.energy + 5 + wit_recovery(pre.support_locations@, deck, 5),
            MAX_ENERGY as int,
        )
    } else {
        max_int(
            pre.energy - (training_energy_cost(training) + level_energy_extra(
                training_level(pre.times_trained@[training.idx()]),
            )),
            0,
        )
    }
}

/// `post` is `pre` after a successful training: every stat the training
/// raises gains its entry of `gains` (to at most 1200), the facility counts
/// one more training, every card present gains 7 friendship (to at most 100)
/// and energy changes as `energy_after_training` says. The turn counter is
/// not part of this.
pub open spec fn trained(
    pre: State,
    post: State,
    training: Stat,
    deck: Seq<SupportCard>,
    gains: Seq<u16>,
) -> bool {
    &&& forall|j: int|
        0 <= j < 5 ==> #[trigger] post.stats@[j] == if trains(training, j) {
            min_int(pre.stats@[j] + gains[j], STAT_CAP as int)
        } else {
            pre.stats@[j] as int
        }
    &&& forall|j: int|
        0 <= j < 5 ==> #[trigger] post.times_trained@[j] == if j == training.idx() {
            min_int(pre.times_trained@[j] + 1, u8::MAX as int)
        } else {
            pre.times_trained@[j] as int
        }
    &&& forall|i: int|
        0 <= i < 6 ==> #[trigger] post.friendship@[i] == if i < 5 && pre.support_locations@[i]
            == training {
            min_int(pre.friendship@[i] + 7, MAX_FRIENDSHIP as int)
        } else {
            pre.friendship@[i] as int
        }
    &&& post.energy == energy_after_training(pre, training, deck)
    &&& post.mood == pre.mood
    &&& post.support_locations == pre.support_locations
}

/// `post` is `pre` after a failed training: the mood worsens and the
/// trained stat loses 10 (down to at least 0). The turn counter is not part
/// of this.
pub open spec fn training_failed(pre: State, post: State, training: Stat) -> bool {
    &&& forall|j: int|
        0 <= j < 5 ==> #[trigger] post.stats@[j] == if j == training.idx() {
            max_int(pre.stats@[j] - 10, 0)
        } else {
            pre.stats@[j] as int
        }
    &&& post.mood == pre.mood.spec_prior()
    &&& post.energy == pre.energy
    &&& post.times_trained == pre.times_trained
    &&& post.friendship == pre.friendship
    &&& post.support_locations == pre.support_locations
}

/// `post` is `pre` after recreation: the mood improves. The turn counter is
/// not part of this.
pub open spec fn recreated(pre: State, post: State) -> bool {
    &&& post.mood == pre.mood.spec_next()
    &&& post.energy == pre.energy
    &&& post.stats == pre.stats
    &&& post.times_trained == pre.times_trained
    &&& post.friendship == pre.friendship
    &&& post.support_locations == pre.support_locations
}

/// Odds of a training succeeding, as numerator and denominator: one in five
/// below 50 energy, certain from 50 on.
pub open spec fn success_odds(energy: u8) -> (u32, u32) {
    if energy < 50 {
        (1, 5)
    } else {
        (1, 1)
    }
}

/// `post` is `pre` after `action` with the given roll (used by resting) and
/// training result, and with the turn counter advanced; the cards have not
/// been placed anew yet.
pub open spec fn action_outcome(
    pre: State,
    post: State,
    action: Action,
    deck: Seq<SupportCard>,
    gains: Seq<u16>,
    roll: int,
    succeeded: bool,
) -> bool {
    &&& post.turn == pre.turn + 1
    &&& match action {
        Action::Rest => 0 <= roll < 3833 && rested(pre, post, roll),
        Action::Train(training) => {
            &&& (pre.energy >= 50 ==> succeeded)
            &&& if succeeded {
                trained(pre, post, training, deck, gains)
            } else {
                training_failed(pre, post, training)
            }
        },
        Action::Recreation => recreated(pre, post),
    }
}

/// A successful training overflows nothing: each raised stat plus its gain
/// fits in a `u16`, every card present is in the deck and its friendship
/// plus 7 fits in a `u8`, and for Wit the energy plus 5 plus the wisdom
/// recovery fits in a `u8`.
pub open spec fn training_is_safe(
    s: State,
    training: Stat,
    deck: Seq<SupportCard>,
    gains: Seq<u16>,
) -> bool {
    &&& forall|j: int|
        0 <= j < 5 && trains(training, j) ==> #[trigger] s.stats@[j] + gains[j] <= u16::MAX
    &&& forall|i: int|
        0 <= i < 5 && #[trigger] s.support_locations@[i] == training ==> i < deck.len()
            && s.friendship@[i] + 7 <= u8::MAX
    &&& training == Stat::Wit ==> s.energy + 5 + wit_recovery(s.support_locations@, deck, 5)
        <= u8::MAX
}

/// The inputs on which taking an action overflows nothing, whatever the
/// random draws: the turn counter can advance, the cards can be dealt,
/// resting cannot overflow the energy and a training would be safe.
pub open spec fn action_is_safe(
    s: State,
    action: Action,
    deck: Seq<SupportCard>,
    gains: Seq<u16>,
) -> bool {
    &&& s.turn < u8::MAX
    &&& deck_dealable(deck)
    &&& match action {
        Action::Rest => s.energy <= 185,
        Action::Train(training) => training_is_safe(s, training, deck, gains),
        Action::Recreation => true,
    }
}

/// The wisdom recovery of the first `n` cards of the deck, added up.
pub open spec fn deck_recovery(deck: Seq<SupportCard>, n: nat) -> int
    decreases n,
{
    if n == 0 {
        0
    } else {
        deck_recovery(deck, (n - 1) as nat) + deck[n - 1].wisdom_recovery as int
    }
}

/// A deck with which no turn of a career overflows a counter, whatever the
/// draws: it has a card for every location slot, those cards can be dealt,
/// and their wisdom recovery adds up to at most 150.
pub open spec fn deck_is_playable(deck: Seq<SupportCard>) -> bool {
    &&& deck.len() >= 5
    &&& deck_dealable(deck)
    &&& deck_recovery(deck, 5) <= 150
}

/// Gains that no stat within the cap can overflow with.
pub open spec fn gains_fit(gains: Seq<u16>) -> bool {
    forall|j: int| 0 <= j < 5 ==> #[trigger] gains[j] <= u16::MAX - STAT_CAP
}

/// The wisdom recovery of the cards at Wit training is at most that of all
/// the cards in the slots counted.
proof fn lemma_wit_recovery_bound(locations: Seq<Stat>, deck: Seq<SupportCard>, n: nat)
    ensures
        0 <= wit_recovery(locations, deck, n) <= deck_recovery(deck, n),
    decreases n,
{
    if n > 0 {
        lemma_wit_recovery_bound(locations, deck, (n - 1) as nat);
    }
}

/// From a state within the career's bounds, with a playable deck and gains
/// that fit, no action overflows anything before the turn counter runs out.
pub proof fn lemma_playable_turn_is_safe(
    s: State,
    action: Action,
    deck: Seq<SupportCard>,
    gains: Seq<u16>,
)
    requires
        s.wf(),
        s.turn < u8::MAX,
        deck_is_playable(deck),
        gains_fit(gains),
    ensures
        action_is_safe(s, action, deck, gains),
{
    if let Action::Train(training) = action {
        assert forall|j: int| 0 <= j < 5 && trains(training, j) implies #[trigger] s.stats@[j]
            + gains[j] <= u16::MAX by {
            assert(s.stats@[j] <= STAT_CAP);
            assert(gains[j] <= u16::MAX - STAT_CAP);
        }
        assert forall|i: int| 0 <= i < 5 && #[trigger] s.support_locations@[i] == training implies i
            < deck.len() && s.friendship@[i] + 7 <= u8::MAX by {
            assert(s.friendship@[i] <= MAX_FRIENDSHIP);
        }
        lemma_wit_recovery_bound(s.support_locations@, deck, 5);
    }
}

/// The wisdom recovery of the placed cards that show up at Wit training.
pub fn wisdom_recovery_sum(locations: &[Stat; 5], deck: &[SupportCard]) -> (r: u16)
    requires
        forall|i: int| 0 <= i < 5 && #[trigger] locations@[i] == Stat::Wit ==> i < deck@.len(),
    ensures
        r == wit_recovery(locations@, deck@, 5),
        r <= 5 * 255,
{
    let mut sum: u16 = 0;
    for i in 0..5usize
        invariant
            forall|k: int| 0 <= k < 5 && #[trigger] locations@[k] == Stat::Wit ==> k < deck@.len(),
            sum == wit_recovery(locations@, deck@, i as nat),
            sum <= 255 * i,
    {
        if locations[i] == Stat::Wit {
            assert(locations@[i as int] == Stat::Wit);
            sum = sum + deck[i].wisdom_recovery as u16;
        }
    }
    sum
}

/// Whether `wisdom_recovery_sum` may be called: every card at Wit training
/// is in the deck.
pub fn wit_cards_in_deck(locations: &[Stat; 5], deck: &[SupportCard]) -> (r: bool)
    ensures
        r == forall|i: int| 0 <= i < 5 && #[trigger] locations@[i] == Stat::Wit ==> i < deck@.len(),
{
    for i in 0..5usize
        invariant
            forall|k: int| 0 <= k < i && #[trigger] locations@[k] == Stat::Wit ==> k < deck@.len(),
    {
        if locations[i] == Stat::Wit && i >= deck.len() {
            assert(locations@[i as int] == Stat::Wit);
            return false;
        }
    }
    true
}

/// The number of rolls resting draws from: rolls run over `0..3833`.
pub fn rest_roll_range() -> (r: u32)
    ensures
        r == 3833,
{
    3833
}

/// Rests with a roll in `0..3833`.
pub fn rest(s: &mut State, roll: u16)
    requires
        roll < 3833,
        old(s).energy <= 185,
    ensures
        rested(*old(s), *final(s), roll as int),
        final(s).turn == old(s).turn,
{
    if roll < 975 {
        s.energy = add_with_cap_u8(s.energy, 70, MAX_ENERGY);
    } else if roll < 3201 {
        s.energy = add_with_cap_u8(s.energy, 50, MAX_ENERGY);
    } else {
        s.energy = add_with_cap_u8(s.energy, 30, MAX_ENERGY);
        if roll >= 3693 {
            s.mood = s.mood.prior();
        }
    }
}

/// Goes for recreation.
pub fn recreate(s: &mut State)
    ensures
        recreated(*old(s), *final(s)),
        final(s).turn == old(s).turn,
{
    s.mood = s.mood.next();
}

/// Fails a training.
pub fn fail_training(s: &mut State, training: Stat)
    ensures
        training_failed(*old(s), *final(s), training),
        final(s).turn == old(s).turn,
{
    s.mood = s.mood.prior();
    let t = training.index();
    s.stats[t] = s.stats[t].saturating_sub(10);
}

/// Completes a training, raising the stats it trains by `gains`.
pub fn complete_training(s: &mut State, training: Stat, deck: &[SupportCard], gains: [u16; 5])
    requires
        training_is_safe(*old(s), training, deck@, gains@),
    ensures
        trained(*old(s), *final(s), training, deck@, gains@),
        final(s).turn == old(s).turn,
{
    let ghost pre = *old(s);
    let t = training.index();
    let level = facility_level(s.times_trained[t]);
    for j in 0..5usize
        invariant
            training_is_safe(pre, training, deck@, gains@),
            t == training.idx(),
            s.energy == pre.energy,
            s.mood == pre.mood,
            s.turn == pre.turn,
            s.times_trained == pre.times_trained,
            s.friendship == pre.friendship,
            s.support_locations == pre.support_locations,
            forall|k: int|
                0 <= k < 5 ==> #[trigger] s.stats@[k] == if k < j && trains(training, k) {
                    min_int(pre.stats@[k] + gains@[k], STAT_CAP as int)
                } else {
                    pre.stats@[k] as int
                },
    {
        if trains_stat(training, j) {
            assert(s.stats@[j as int] + gains@[j as int] <= u16::MAX);
            s.stats[j] = add_with_cap_u16(s.stats[j], gains[j], STAT_CAP);
        }
    }
    s.times_trained[t] = s.times_trained[t].saturating_add(1);
    let ghost mid = *s;
    for i in 0..5usize
        invariant
            training_is_safe(pre, training, deck@, gains@),
            s.stats == mid.stats,
            s.times_trained == mid.times_trained,
            t == training.idx(),
            s.energy == pre.energy,
            s.mood == pre.mood,
            s.turn == pre.turn,
            s.support_locations == pre.support_locations,
            forall|k: int|
                0 <= k < 6 ==> #[trigger] s.friendship@[k] == if k < i && pre.support_locations@[k]
                    == training {
                    min_int(pre.friendship@[k] + 7, MAX_FRIENDSHIP as int)
                } else {
                    pre.friendship@[k] as int
                },
    {
        if s.support_locations[i] == training {
            assert(pre.support_locations@[i as int] == training);
            s.friendship[i] = add_with_cap_u8(s.friendship[i], 7, MAX_FRIENDSHIP);
        }
    }
    let extra: u8 = if level == 0 {
        0
    } else if level == 1 {
        1
    } else if level == 2 {
        2
    } else if level == 3 {
        4
    } else {
        6
    };
    match training {
        Stat::Speed => {
            s.energy = s.energy.saturating_sub(21 + extra);
        },
        Stat::Stamina => {
            s.energy = s.energy.saturating_sub(19 + extra);
        },
        Stat::Power => {
            s.energy = s.energy.saturating_sub(20 + extra);
        },
        Stat::Guts => {
            s.energy = s.energy.saturating_sub(22 + extra);
        },
        Stat::Wit => {
            let recovery = wisdom_recovery_sum(&s.support_locations, deck);
            s.energy = add_with_cap_u8(s.energy, 5 + recovery as u8, MAX_ENERGY);
        },
    }
}


/// The odds of a training succeeding at this energy.
pub fn training_odds(energy: u8) -> (r: (u32, u32))
    ensures
        r == success_odds(energy),
{
    if energy < 50 {
        (1, 5)
    } else {
        (1, 1)
    }
}

/// Every outcome of an action keeps a state within the career's bounds.
pub proof fn lemma_outcome_keeps_wf(
    pre: State,
    post: State,
    action: Action,
    deck: Seq<SupportCard>,
    gains: Seq<u16>,
    roll: int,
    succeeded: bool,
)
    requires
        pre.wf(),
        action_outcome(pre, post, action, deck, gains, roll, succeeded),
    ensures
        post.wf(),
{
    assert forall|j: int| 0 <= j < 5 implies #[trigger] post.stats@[j] <= STAT_CAP by {
        assert(pre.stats@[j] <= STAT_CAP);
    }
    assert forall|i: int| 0 <= i < 6 implies #[trigger] post.friendship@[i] <= MAX_FRIENDSHIP by {
        assert(pre.friendship@[i] <= MAX_FRIENDSHIP);
    }
}

/// Placing the cards keeps a state within the career's bounds.
pub proof fn lemma_dealing_keeps_wf(pre: State, post: State, deck: Seq<SupportCard>, rolls: Seq<u32>)
    requires
        pre.wf(),
        dealt(pre, post, deck, rolls),
    ensures
        post.wf(),
{
}

/// `post` is `pre` after one turn of `action` with the given gains: for
/// some roll, training result and placement rolls, the action's outcome with
/// the turn counter advanced, followed by placing the cards anew.
pub open spec fn turn_taken(
    pre: State,
    post: State,
    action: Action,
    deck: Seq<SupportCard>,
    gains: Seq<u16>,
) -> bool {
    exists|mid: State, roll: int, succeeded: bool, rolls: Seq<u32>|
        action_outcome(pre, mid, action, deck, gains, roll, succeeded) && rolls_in_range(deck, rolls)
            && dealt(mid, post, deck, rolls)
}

/// What a successful training costs in energy, in numbers: Speed 21,
/// Stamina 19, Power 20 and Guts 22, plus 0, 1, 2, 4 or 6 once the stat has
/// been trained 0-3, 4-7, 8-11, 12-15 or 16 and more times, never below 0
/// energy; Wit training restores 5 plus the wisdom recovery of the cards at
/// Wit, up to 100.
pub proof fn lemma_training_energy(
    pre: State,
    post: State,
    training: Stat,
    deck: Seq<SupportCard>,
    gains: Seq<u16>,
)
    requires
        trained(pre, post, training, deck, gains),
    ensures
        ({
            let times = pre.times_trained@[training.idx()];
            let extra: int = if times < 4 {
                0
            } else if times < 8 {
                1
            } else if times < 12 {
                2
            } else if times < 16 {
                4
            } else {
                6
            };
            let e = pre.energy as int;
            &&& training == Stat::Speed ==> post.energy == if e >= 21 + extra {
                e - 21 - extra
            } else {
                0
            }
            &&& training == Stat::Stamina ==> post.energy == if e >= 19 + extra {
                e - 19 - extra
            } else {
                0
            }
            &&& training == Stat::Power ==> post.energy == if e >= 20 + extra {
                e - 20 - extra
            } else {
                0
            }
            &&& training == Stat::Guts ==> post.energy == if e >= 22 + extra {
                e - 22 - extra
            } else {
                0
            }
            &&& training == Stat::Wit ==> post.energy == if e + 5 + wit_recovery(
                pre.support_locations@,
                deck,
                5,
            ) <= 100 {
                e + 5 + wit_recovery(pre.support_locations@, deck, 5)
            } else {
                100
            }
        }),
{
}

/// Every turn, whatever its draws, keeps a state within the career's
/// bounds: energy at most 100, each stat at most 1200, each friendship at
/// most 100.
pub proof fn lemma_turn_keeps_wf(
    pre: State,
    post: State,
    action: Action,
    deck: Seq<SupportCard>,
    gains: Seq<u16>,
)
    requires
        pre.wf(),
        turn_taken(pre, post, action, deck, gains),
    ensures
        post.wf(),
{
    let (mid, roll, succeeded, rolls) = choose|mid: State, roll: int, succeeded: bool, rolls: Seq<u32>|
        action_outcome(pre, mid, action, deck, gains, roll, succeeded) && rolls_in_range(deck, rolls)
            && dealt(mid, post, deck, rolls);
    lemma_outcome_keeps_wf(pre, mid, action, deck, gains, roll, succeeded);
    lemma_dealing_keeps_wf(mid, post, deck, rolls);
}

/// A training of a stat at whose location sits a slot with no card in the
/// deck is not safe: the original indexes past the end of the deck there.
pub proof fn lemma_short_deck_training_unsafe(
    s: State,
    training: Stat,
    deck: Seq<SupportCard>,
    gains: Seq<u16>,
    slot: int,
)
    requires
        deck.len() <= slot < 5,
        s.support_locations@[slot] == training,
    ensures
        !action_is_safe(s, Action::Train(training), deck, gains),
{
    assert(!training_is_safe(s, training, deck, gains));
}

/// Whether `action` is a training that raises the stat at position `j`.
pub open spec fn raises(action: Action, j: int) -> bool {
    match action {
        Action::Train(training) => trains(training, j),
        _ => false,
    }
}

/// Whether `action` is the training of the stat at position `k`.
pub open spec fn trains_at(action: Action, k: int) -> bool {
    match action {
        Action::Train(training) => training.idx() == k,
        _ => false,
    }
}

/// Every training raises its own stat.
proof fn lemma_training_raises_own_stat(training: Stat)
    ensures
        trains(training, training.idx()),
{
}

/// What one turn does to the counters: the turn advances by one, a stat
/// changes only through a training that raises it, and a training count
/// grows by at most one, only through the training of that stat.
pub proof fn lemma_turn_effects(
    pre: State,
    post: State,
    action: Action,
    deck: Seq<SupportCard>,
    gains: Seq<u16>,
)
    requires
        turn_taken(pre, post, action, deck, gains),
    ensures
        post.turn == pre.turn + 1,
        forall|j: int| 0 <= j < 5 && !raises(action, j) ==> #[trigger] post.stats@[j] == pre.stats@[j],
        forall|k: int|
            0 <= k < 5 ==> pre.times_trained@[k] <= #[trigger] post.times_trained@[k]
                <= pre.times_trained@[k] + if trains_at(action, k) {
                1int
            } else {
                0int
            },
{
    let (mid, roll, succeeded, rolls) = choose|mid: State, roll: int, succeeded: bool, rolls: Seq<u32>|
        action_outcome(pre, mid, action, deck, gains, roll, succeeded) && rolls_in_range(deck, rolls)
            && dealt(mid, post, deck, rolls);
    if let Action::Train(training) = action {
        lemma_training_raises_own_stat(training);
    }
    assert forall|j: int| 0 <= j < 5 && !raises(action, j) implies #[trigger] post.stats@[j]
        == pre.stats@[j] by {
        assert(post.stats@[j] == mid.stats@[j]);
    }
    assert forall|k: int| 0 <= k < 5 implies pre.times_trained@[k] <= #[trigger] post.times_trained@[
        k
    ] <= pre.times_trained@[k] + if trains_at(action, k) {
        1int
    } else {
        0int
    } by {
        assert(post.times_trained@[k] == mid.times_trained@[k]);
    }
}

/// A successful training never lowers a stat within the cap, and leaves
/// every stat it does not train as it was.
pub proof fn lemma_training_only_raises(
    pre: State,
    post: State,
    training: Stat,
    deck: Seq<SupportCard>,
    gains: Seq<u16>,
)
    requires
        trained(pre, post, training, deck, gains),
        forall|j: int| 0 <= j < 5 ==> #[trigger] pre.stats@[j] <= STAT_CAP,
    ensures
        forall|j: int| 0 <= j < 5 ==> #[trigger] post.stats@[j] >= pre.stats@[j],
        forall|j: int| 0 <= j < 5 && !trains(training, j) ==> #[trigger] post.stats@[j] == pre.stats@[j],
{
    assert forall|j: int| 0 <= j < 5 implies #[trigger] post.stats@[j] >= pre.stats@[j] by {
        assert(pre.stats@[j] <= STAT_CAP);
    }
}

/// Takes one turn: performs `action`, advances the turn counter and places
/// the cards anew.
///
/// Resting draws a roll in `0..3833`; a training succeeds by the odds of
/// `success_odds` (always from 50 energy on). A successful training raises
/// each stat it trains by that stat's entry of `gains`, the rounded training
/// value of the stat for this state, deck and training.
pub fn take_action(
    s: &mut State,
    action: Action,
    deck: &[SupportCard],
    gains: [u16; 5],
    rng: &mut XorShiftRng,
)
    requires
        action_is_safe(*old(s), action, deck@, gains@),
    ensures
        turn_taken(*old(s), *final(s), action, deck@, gains@),
        final(s).turn == old(s).turn + 1,
        old(s).wf() ==> final(s).wf(),
{
    let ghost pre = *old(s);
    let ghost mut roll: int = 0;
    let ghost mut succeeded: bool = true;
    match action {
        Action::Rest => {
            let r = random_below(rng, rest_roll_range());
            rest(s, r as u16);
            proof {
                roll = r as int;
            }
        },
        Action::Train(training) => {
            let (numerator, denominator) = training_odds(s.energy);
            let ok = random_ratio(rng, numerator, denominator);
            if ok {
                complete_training(s, training, deck, gains);
            } else {
                fail_training(s, training);
            }
            proof {
                succeeded = ok;
            }
        },
        Action::Recreation => {
            recreate(s);
        },
    }
    s.turn = s.turn + 1;
    let ghost mid = *s;
    assert(action_outcome(pre, mid, action, deck@, gains@, roll, succeeded));
    deal_supports(s, deck, rng);
    assert(turn_taken(pre, *s, action, deck@, gains@));
    proof {
        if pre.wf() {
            lemma_outcome_keeps_wf(pre, mid, action, deck@, gains@, roll, succeeded);
            let rolls = choose|rolls: Seq<u32>|
                rolls_in_range(deck@, rolls) && dealt(mid, *s, deck@, rolls);
            lemma_dealing_keeps_wf(mid, *s, deck@, rolls);
        }
    }
}

/// Whether every placed card has a known type and a specialty rate that
/// leaves room for its roll range.
pub fn is_deck_dealable(deck: &[SupportCard]) -> (r: bool)
    ensures
        r == deck_dealable(deck@),
{
    let n: usize = if deck.len() < 5 {
        deck.len()
    } else {
        5
    };
    for i in 0..n
        invariant
            n == dealt_count(deck@),
            forall|k: int|
                0 <= k < i ==> (#[trigger] deck@[k]).card_type <= 4 && deck@[k].specialty_rate
                    <= u32::MAX - 550,
    {
        if deck[i].card_type > 4 || deck[i].specialty_rate > u32::MAX - 550 {
            assert(!deck_dealable(deck@)) by {
                assert(deck@[i as int] == deck[i as int]);
            }
            return false;
        }
    }
    true
}

/// Whether a successful training would overflow nothing.
pub fn is_training_safe(s: &State, training: Stat, deck: &[SupportCard], gains: &[u16; 5]) -> (r: bool)
    ensures
        r == training_is_safe(*s, training, deck@, gains@),
{
    for j in 0..5usize
        invariant
            forall|k: int|
                0 <= k < j && trains(training, k) ==> #[trigger] s.stats@[k] + gains@[k] <= u16::MAX,
    {
        if trains_stat(training, j) && s.stats[j] as u32 + gains[j] as u32 > u16::MAX as u32 {
            assert(s.stats@[j as int] + gains@[j as int] > u16::MAX);
            return false;
        }
    }
    for i in 0..5usize
        invariant
            forall|k: int|
                0 <= k < 5 && trains(training, k) ==> #[trigger] s.stats@[k] + gains@[k] <= u16::MAX,
            forall|k: int|
                0 <= k < i && #[trigger] s.support_locations@[k] == training ==> k < deck@.len()
                    && s.friendship@[k] + 7 <= u8::MAX,
    {
        if s.support_locations[i] == training && (i >= deck.len() || s.friendship[i] > u8::MAX - 7) {
            assert(s.support_locations@[i as int] == training);
            return false;
        }
    }
    if training == Stat::Wit {
        let recovery = wisdom_recovery_sum(&s.support_locations, deck);
        s.energy as u16 + 5 + recovery <= u8::MAX as u16
    } else {
        true
    }
}

/// Whether taking `action` overflows nothing, whatever the random draws.
pub fn is_action_safe(s: &State, action: Action, deck: &[SupportCard], gains: &[u16; 5]) -> (r: bool)
    ensures
        r == action_is_safe(*s, action, deck@, gains@),
{
    if s.turn == u8::MAX || !is_deck_dealable(deck) {
        return false;
    }
    match action {
        Action::Rest => s.energy <= 185,
        Action::Train(training) => is_training_safe(s, training, deck, gains),
        Action::Recreation => true,
    }
}

/// A stat after the starting boosts of the first `n` cards of the deck:
/// 100, raised by each card's boost in turn, to at most 1200 each time.
pub open spec fn boosted_stat(deck: Seq<SupportCard>, j: int, n: nat) -> int
    decreases n,
{
    if n == 0 {
        100
    } else {
        min_int(
            boosted_stat(deck, j, (n - 1) as nat) + deck[n - 1].starting_stats@[j],
            STAT_CAP as int,
        )
    }
}

/// Adding each card's starting boosts never overflows a `u16`.
pub open spec fn boosts_fit(deck: Seq<SupportCard>) -> bool {
    forall|k: int, j: int|
        0 <= k < deck.len() && 0 <= j < 5 ==> boosted_stat(deck, j, k as nat)
            + #[trigger] deck[k].starting_stats@[j] <= u16::MAX
}

/// Friendship at position `i` when a career starts: the starting bond of the
/// card there, to at most 100; 0 without a card.
pub open spec fn starting_friendship(deck: Seq<SupportCard>, i: int) -> int {
    if i < deck.len() {
        min_int(deck[i].sb as int, MAX_FRIENDSHIP as int)
    } else {
        0
    }
}

/// One card's starting boost applied to a stat, to at most 1200.
pub open spec fn boost_step(j: int) -> spec_fn(int, SupportCard) -> int {
    |v: int, c: SupportCard| min_int(v + c.starting_stats@[j], STAT_CAP as int)
}

/// The boosted stat is the boost steps folded over the cards in order.
proof fn lemma_boosted_is_fold(deck: Seq<SupportCard>, j: int, n: nat)
    requires
        n <= deck.len(),
    ensures
        boosted_stat(deck, j, n) == deck.subrange(0, n as int).fold_left(100int, boost_step(j)),
    decreases n,
{
    if n > 0 {
        lemma_boosted_is_fold(deck, j, (n - 1) as nat);
        assert(deck.subrange(0, n as int).drop_last() =~= deck.subrange(0, n - 1));
    }
}

/// The order of the cards in a deck does not matter to the stats a career
/// starts with: any reordering gives the same starting stats.
pub proof fn lemma_deck_order_keeps_starting_stats(
    deck: Seq<SupportCard>,
    reordered: Seq<SupportCard>,
)
    requires
        reordered.to_multiset() == deck.to_multiset(),
    ensures
        forall|j: int|
            0 <= j < 5 ==> #[trigger] boosted_stat(reordered, j, reordered.len()) == boosted_stat(
                deck,
                j,
                deck.len(),
            ),
{
    assert forall|j: int| 0 <= j < 5 implies #[trigger] boosted_stat(reordered, j, reordered.len())
        == boosted_stat(deck, j, deck.len()) by {
        let f = boost_step(j);
        lemma_boosted_is_fold(deck, j, deck.len());
        lemma_boosted_is_fold(reordered, j, reordered.len());
        assert(deck.subrange(0, deck.len() as int) =~= deck);
        assert(reordered.subrange(0, reordered.len() as int) =~= reordered);
        assert(vstd::seq_lib::commutative_foldl(f)) by {
            assert forall|x: SupportCard, y: SupportCard, v: int| #[trigger] f(f(v, x), y) == f(
                f(v, y),
                x,
            ) by {}
        }
        vstd::seq_lib::lemma_fold_left_permutation(deck, reordered, f, 100int);
    }
}

/// Reordering a deck moves each card's starting friendship along with the
/// card: position `i` of the reordered deck starts with the friendship of
/// position `p[i]` of the original.
pub proof fn lemma_deck_order_moves_friendships(
    deck: Seq<SupportCard>,
    reordered: Seq<SupportCard>,
    p: Seq<int>,
)
    requires
        reordered.len() == deck.len(),
        p.len() == deck.len(),
        forall|i: int|
            0 <= i < deck.len() ==> 0 <= #[trigger] p[i] < deck.len() && reordered[i] == deck[p[i]],
    ensures
        forall|i: int|
            0 <= i < deck.len() ==> #[trigger] starting_friendship(reordered, i) == starting_friendship(
                deck,
                p[i],
            ),
{
}

/// The state a career starts in with the given deck: full energy, normal
/// mood, each stat at 100 raised by the cards' starting boosts (to at most
/// 1200), each card's starting bond as friendship (to at most 100), and
/// every card placed at Speed.
pub fn new_career_state(deck: &[SupportCard]) -> (r: State)
    requires
        deck@.len() <= 6,
        boosts_fit(deck@),
    ensures
        r.energy == MAX_ENERGY,
        r.mood == Mood::Normal,
        r.turn == 0,
        forall|j: int| 0 <= j < 5 ==> #[trigger] r.stats@[j] == boosted_stat(deck@, j, deck@.len()),
        forall|j: int| 0 <= j < 5 ==> #[trigger] r.times_trained@[j] == 0,
        forall|i: int| 0 <= i < 6 ==> #[trigger] r.friendship@[i] == starting_friendship(deck@, i),
        forall|i: int| 0 <= i < 5 ==> #[trigger] r.support_locations@[i] == Stat::Speed,
        r.wf(),
{
    let mut state = State {
        energy: MAX_ENERGY,
        mood: Mood::Normal,
        stats: [100, 100, 100, 100, 100],
        turn: 0,
        times_trained: [0, 0, 0, 0, 0],
        friendship: [0, 0, 0, 0, 0, 0],
        support_locations: [Stat::Speed, Stat::Speed, Stat::Speed, Stat::Speed, Stat::Speed],
    };
    let n = deck.len();
    for i in 0..n
        invariant
            n == deck@.len(),
            n <= 6,
            boosts_fit(deck@),
            state.energy == MAX_ENERGY,
            state.mood == Mood::Normal,
            state.turn == 0,
            forall|j: int| 0 <= j < 5 ==> #[trigger] state.times_trained@[j] == 0,
            forall|k: int| 0 <= k < 5 ==> #[trigger] state.support_locations@[k] == Stat::Speed,
            forall|j: int|
                0 <= j < 5 ==> #[trigger] state.stats@[j] == boosted_stat(deck@, j, i as nat),
            forall|k: int|
                0 <= k < 6 ==> #[trigger] state.friendship@[k] == if k < i {
                    min_int(deck@[k].sb as int, MAX_FRIENDSHIP as int)
                } else {
                    0
                },
    {
        let card = &deck[i];
        for j in 0..5usize
            invariant
                n == deck@.len(),
                i < n,
                boosts_fit(deck@),
                *card == deck@[i as int],
                state.energy == MAX_ENERGY,
                state.mood == Mood::Normal,
                state.turn == 0,
                forall|j: int| 0 <= j < 5 ==> #[trigger] state.times_trained@[j] == 0,
                forall|k: int| 0 <= k < 5 ==> #[trigger] state.support_locations@[k] == Stat::Speed,
                forall|k: int|
                    0 <= k < 5 ==> #[trigger] state.stats@[k] == boosted_stat(
                        deck@,
                        k,
                        if k < j {
                            (i + 1) as nat
                        } else {
                            i as nat
                        },
                    ),
                forall|k: int|
                    0 <= k < 6 ==> #[trigger] state.friendship@[k] == if k < i {
                        min_int(deck@[k].sb as int, MAX_FRIENDSHIP as int)
                    } else {
                        0
                    },
        {
            assert(boosted_stat(deck@, j as int, i as nat) + deck@[i as int].starting_stats@[j as int]
                <= u16::MAX);
            state.stats[j] = add_with_cap_u16(state.stats[j], card.starting_stats[j], STAT_CAP);
        }
        let bond: u8 = if card.sb < MAX_FRIENDSHIP as u32 {
            card.sb as u8
        } else {
            MAX_FRIENDSHIP
        };
        state.friendship[i] = bond;
    }
    proof {
        assert forall|j: int| 0 <= j < 5 implies #[trigger] state.stats@[j] <= STAT_CAP by {
            if n > 0 {
                assert(state.stats@[j] == boosted_stat(deck@, j, n as nat));
            }
        }
    }
    state
}


/// Whether adding the cards' starting boosts overflows no stat, that is
/// whether `new_career_state` may be called with the deck.
pub fn starting_boosts_fit(deck: &[SupportCard]) -> (r: bool)
    ensures
        r == boosts_fit(deck@),
{
    let n = deck.len();
    let mut stats: [u16; 5] = [100, 100, 100, 100, 100];
    for k in 0..n
        invariant
            n == deck@.len(),
            forall|j: int| 0 <= j < 5 ==> #[trigger] stats@[j] == boosted_stat(deck@, j, k as nat),
            forall|a: int, j: int|
                0 <= a < k && 0 <= j < 5 ==> boosted_stat(deck@, j, a as nat)
                    + #[trigger] deck@[a].starting_stats@[j] <= u16::MAX,
    {
        for j in 0..5usize
            invariant
                n == deck@.len(),
                k < n,
                forall|i: int|
                    0 <= i < 5 ==> #[trigger] stats@[i] == boosted_stat(
                        deck@,
                        i,
                        if i < j {
                            (k + 1) as nat
                        } else {
                            k as nat
                        },
                    ),
                forall|a: int, i: int|
                    0 <= a < k && 0 <= i < 5 ==> boosted_stat(deck@, i, a as nat)
                        + #[trigger] deck@[a].starting_stats@[i] <= u16::MAX,
                forall|i: int|
                    0 <= i < j ==> boosted_stat(deck@, i, k as nat)
                        + #[trigger] deck@[k as int].starting_stats@[i] <= u16::MAX,
        {
            let boost = deck[k].starting_stats[j];
            if stats[j] as u32 + boost as u32 > u16::MAX as u32 {
                assert(boosted_stat(deck@, j as int, k as nat)
                    + deck@[k as int].starting_stats@[j as int] > u16::MAX);
                return false;
            }
            stats[j] = add_with_cap_u16(stats[j], boost, STAT_CAP);
        }
    }
    true
}

} // verus!
