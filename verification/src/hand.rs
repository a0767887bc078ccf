//! A player's hand: the running point total and the soft-ace flag.
//!
//! Card values are integers in `2..=11`, where `11` stands for an ace. The
//! hand keeps at most one ace "soft" (worth eleven); every further ace is
//! added as a hard one point at once, and the soft ace itself is demoted to
//! one point by `points` whenever counting it as eleven would bust the hand.

use vstd::prelude::*;

verus! {

/// A hand together with the player's display name.
pub struct Player {
    pub name: String,
    /// Sum of the non-ace card values added so far, plus one per hard ace.
    pub points: u8,
    /// True once exactly one ace is counted as soft (eleven points).
    pub ace: bool,
}

/// The effective score of a hand: the base total alone when no ace is soft;
/// otherwise the soft ace counts eleven unless that would exceed twenty-one,
/// in which case it counts one.
pub open spec fn score_spec(points: int, ace: bool) -> int {
    if !ace {
        points
    } else if points + 11 <= 21 {
        points + 11
    } else {
        points + 1
    }
}

/// A fresh hand with no cards.
pub open spec fn new_player(name: String) -> Player {
    Player { name, points: 0, ace: false }
}

/// The hand after one card of value `value` is added, following the player
/// rule: a first ace becomes the soft ace, a later ace adds a hard point,
/// any other card adds its face value.
pub open spec fn player_after_card(p: Player, value: int) -> Player {
    if value == 11 {
        if p.ace {
            Player { name: p.name, points: (p.points + 1) as u8, ace: p.ace }
        } else {
            Player { name: p.name, points: p.points, ace: true }
        }
    } else {
        Player { name: p.name, points: (p.points + value) as u8, ace: p.ace }
    }
}

/// The hand after a whole sequence of cards is added in order.
pub open spec fn player_after_cards(p: Player, cards: Seq<u8>) -> Player
    decreases cards.len(),
{
    if cards.len() == 0 {
        p
    } else {
        player_after_cards(player_after_card(p, cards[0] as int), cards.subrange(1, cards.len() as int))
    }
}

/// The plain sum of a sequence of card values.
pub open spec fn sum_values(cards: Seq<u8>) -> int
    decreases cards.len(),
{
    if cards.len() == 0 {
        0
    } else {
        cards[0] + sum_values(cards.subrange(1, cards.len() as int))
    }
}

impl Player {
    /// A fresh hand with no cards for the named player.
    pub fn new(name: String) -> (p: Player)
        ensures
            p == new_player(name),
    {
        Player { name, points: 0, ace: false }
    }

    /// The effective score of the hand.
    pub fn points(&self) -> (r: u8)
        requires
            self.points < u8::MAX,
        ensures
            r == score_spec(self.points as int, self.ace),
    {
        if !self.ace {
            return self.points;
        }
        if self.points <= 10 {
            self.points + 11
        } else {
            self.points + 1
        }
    }

    /// Record an ace: the first one becomes the soft ace, every further one
    /// adds a hard point at once.
    pub fn add_ace(&mut self)
        requires
            old(self).points < u8::MAX,
        ensures
            *final(self) == player_after_card(*old(self), 11),
    {
        if self.ace {
            self.points = self.points + 1;
        } else {
            self.ace = true;
        }
    }

    /// Add one drawn card of value `value` to the hand.
    pub fn add_card(&mut self, value: u8)
        requires
            old(self).points + value <= u8::MAX,
        ensures
            *final(self) == player_after_card(*old(self), value as int),
    {
        if value == 11 {
            self.add_ace();
        } else {
            self.points = self.points + value;
        }
    }

    /// Whether the hand is done drawing: exactly at twenty-one or beyond it.
    pub fn is_finished(&self) -> (r: bool)
        requires
            self.points < u8::MAX,
        ensures
            r == (score_spec(self.points as int, self.ace) >= 21),
    {
        self.points() >= 21
    }
}

/// Law: a hand that never sees an ace scores exactly the sum of the card
/// values added to it.
pub proof fn lemma_score_without_ace(p: Player, cards: Seq<u8>)
    requires
        !p.ace,
        forall|k: int| 0 <= k < cards.len() ==> cards[k] != 11,
        p.points + sum_values(cards) <= u8::MAX,
    ensures
        !player_after_cards(p, cards).ace,
        score_spec(
            player_after_cards(p, cards).points as int,
            player_after_cards(p, cards).ace,
        ) == p.points + sum_values(cards),
    decreases cards.len(),
{
    if cards.len() == 0 {
    } else {
        let rest = cards.subrange(1, cards.len() as int);
        lemma_sum_values_nonneg(rest);
        assert(forall|k: int| 0 <= k < rest.len() ==> rest[k] != 11);
        lemma_score_without_ace(player_after_card(p, cards[0] as int), rest);
    }
}

/// The sum of card values is never negative.
pub proof fn lemma_sum_values_nonneg(cards: Seq<u8>)
    ensures
        sum_values(cards) >= 0,
    decreases cards.len(),
{
    if cards.len() == 0 {
    } else {
        lemma_sum_values_nonneg(cards.subrange(1, cards.len() as int));
    }
}

} // verus!
