use vstd::prelude::*;

verus! {

/// A support card as the career rules see it: every integer, flag and text
/// attribute of the card. Its fractional multipliers (training, friendship
/// and mood bonuses and the like) are not part of this type; they only feed
/// the floating-point training formula, which lives outside the library.
#[derive(Clone, Debug)]
pub struct SupportCard {
    pub id: u32,
    /// The stat the card specialises in: 0 Speed, 1 Stamina, 2 Power,
    /// 3 Guts, 4 Wit.
    pub card_type: u8,
    pub group: bool,
    /// 1 is R, 2 is SR, 3 is SSR.
    pub rarity: u32,
    pub limit_break: u32,
    pub starting_stats: [u16; 5],
    pub type_stats: u32,
    pub stat_bonus: [u8; 6],
    pub race_bonus: u32,
    /// Starting friendship bond.
    pub sb: u32,
    pub specialty_rate: u32,
    pub offstat_appearance_denominator: u32,
    pub fs_stats: [u32; 6],
    pub fs_training: u32,
    pub fs_motivation: u32,
    pub fs_specialty: u32,
    pub fs_ramp: [u32; 2],
    pub fs_energy: u32,
    pub wisdom_recovery: u8,
    pub highlander_threshold: u32,
    pub highlander_training: u32,
    pub crowd_bonus: u32,
    pub char_name: String,
    pub fan_bonus: u32,
}

/// The short name of a rarity, where the rarity is one that exists.
pub open spec fn rarity_text(rarity: u32) -> Seq<char> {
    if rarity == 1 {
        "R"@
    } else if rarity == 2 {
        "SR"@
    } else {
        "SSR"@
    }
}

/// The name of a card type; an unknown type reads "unreachable".
pub open spec fn type_text(card_type: u8) -> Seq<char> {
    if card_type == 0 {
        "Speed"@
    } else if card_type == 1 {
        "Stamina"@
    } else if card_type == 2 {
        "Power"@
    } else if card_type == 3 {
        "Guts"@
    } else if card_type == 4 {
        "Wit"@
    } else {
        "unreachable"@
    }
}

/// Name of a rarity (`R`, `SR` or `SSR`); `None` for any other value.
pub fn rarity_name(rarity: u32) -> (r: Option<&'static str>)
    ensures
        r is Some <==> 1 <= rarity <= 3,
        r matches Some(t) ==> t@ == rarity_text(rarity),
{
    if rarity == 1 {
        Some("R")
    } else if rarity == 2 {
        Some("SR")
    } else if rarity == 3 {
        Some("SSR")
    } else {
        None
    }
}

/// Name of a card type.
pub fn card_type_name(card_type: u8) -> (r: &'static str)
    ensures
        r@ == type_text(card_type),
{
    if card_type == 0 {
        "Speed"
    } else if card_type == 1 {
        "Stamina"
    } else if card_type == 2 {
        "Power"
    } else if card_type == 3 {
        "Guts"
    } else if card_type == 4 {
        "Wit"
    } else {
        "unreachable"
    }
}

impl SupportCard {
    /// The text that names the card: `"<name> <rarity> (<type>)"`.
    pub open spec fn label_text(&self) -> Seq<char> {
        self.char_name@ + " "@ + rarity_text(self.rarity) + " ("@ + type_text(self.card_type) + ")"@
    }

    /// The card's display label, such as `"Kitasan Black SSR (Speed)"`.
    /// Only cards of an existing rarity have one.
    pub fn label(&self) -> (r: String)
        requires
            1 <= self.rarity <= 3,
        ensures
            r@ == self.label_text(),
    {
        let rarity = match rarity_name(self.rarity) {
            Some(t) => t,
            None => "",
        };
        let mut r = self.char_name.clone();
        r.append(" ");
        r.append(rarity);
        r.append(" (");
        r.append(card_type_name(self.card_type));
        r.append(")");
        r
    }

    /// Whether the card may enter the pool that decks are drawn from: at
    /// least SR, fully limit-broken, and of one of the five stat types.
    pub open spec fn spec_is_eligible(&self) -> bool {
        self.rarity > 1 && self.limit_break == 4 && self.card_type <= 4
    }

    pub fn is_eligible(&self) -> (r: bool)
        ensures
            r == self.spec_is_eligible(),
    {
        self.rarity > 1 && self.limit_break == 4 && self.card_type <= 4
    }
}

/// Which cards may enter the pool: an SR or SSR card (rarity 2 or 3) that
/// is fully limit-broken (4) is eligible whatever its stat type, Speed,
/// Stamina, Power, Guts or Wit (0 to 4); an R card, a card not fully
/// limit-broken or a card of another type is not.
pub proof fn lemma_eligibility(card: SupportCard)
    ensures
        (card.rarity == 2 || card.rarity == 3) && card.limit_break == 4 && (card.card_type == 0
            || card.card_type == 1 || card.card_type == 2 || card.card_type == 3 || card.card_type
            == 4) ==> card.spec_is_eligible(),
        card.rarity <= 1 ==> !card.spec_is_eligible(),
        card.limit_break != 4 ==> !card.spec_is_eligible(),
        card.card_type >= 5 ==> !card.spec_is_eligible(),
{
}

/// No two cards of the deck are of the same character.
pub open spec fn distinct_characters(deck: Seq<SupportCard>) -> bool {
    forall|i: int, j: int|
        0 <= i < j < deck.len() ==> #[trigger] deck[i].char_name@ != #[trigger] deck[j].char_name@
}

/// Whether no character appears on two cards of the deck.
pub fn has_distinct_characters(deck: &[SupportCard]) -> (r: bool)
    ensures
        r == distinct_characters(deck@),
{
    let n = deck.len();
    for j in 0..n
        invariant
            n == deck@.len(),
            forall|a: int, b: int|
                0 <= a < b < j ==> #[trigger] deck@[a].char_name@ != #[trigger] deck@[b].char_name@,
    {
        for i in 0..j
            invariant
                n == deck@.len(),
                j < n,
                forall|a: int, b: int|
                    0 <= a < b < j ==> #[trigger] deck@[a].char_name@ != #[trigger] deck@[b].char_name@,
                forall|a: int| 0 <= a < i ==> #[trigger] deck@[a].char_name@ != deck@[j as int].char_name@,
        {
            if deck[i].char_name == deck[j].char_name {
                assert(deck@[i as int].char_name@ == deck@[j as int].char_name@);
                return false;
            }
        }
    }
    true
}

} // verus!
