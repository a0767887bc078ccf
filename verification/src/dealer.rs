//! The dealer's hand. Unlike a player's hand, the dealer decides how to
//! count an ace once, at draw time, from a fixed mode, and never demotes it
//! later: `Soft17` counts every ace as eleven, `Hard17` as one.

use vstd::prelude::*;

verus! {

/// How the dealer counts an ace at the moment it is drawn.
#[derive(PartialEq, Eq, Structural, Clone, Copy, Debug)]
pub enum DealerMode {
    /// An ace is added as eleven points.
    Soft17,
    /// An ace is added as one point.
    Hard17,
}

/// The dealer: a fixed ace mode and the accumulated point total.
pub struct Dealer {
    pub mode: DealerMode,
    pub points: u8,
}

/// The dealer's total after one card: an ace adds eleven under `Soft17` and
/// one under `Hard17`; any other card adds its face value.
pub open spec fn dealer_add_spec(mode: DealerMode, points: int, value: int) -> int {
    if value == 11 {
        if mode == DealerMode::Soft17 {
            points + 11
        } else {
            points + 1
        }
    } else {
        points + value
    }
}

/// The dealer's total after a whole sequence of cards, added in order.
pub open spec fn dealer_points_after(mode: DealerMode, points: int, cards: Seq<u8>) -> int
    decreases cards.len(),
{
    if cards.len() == 0 {
        points
    } else {
        dealer_points_after(
            mode,
            dealer_add_spec(mode, points, cards[0] as int),
            cards.subrange(1, cards.len() as int),
        )
    }
}

/// Adding one more card at the end folds into one more `dealer_add_spec`.
pub proof fn lemma_dealer_points_after_push(mode: DealerMode, points: int, cards: Seq<u8>, v: u8)
    ensures
        dealer_points_after(mode, points, cards.push(v)) == dealer_add_spec(
            mode,
            dealer_points_after(mode, points, cards),
            v as int,
        ),
    decreases cards.len(),
{
    let p = cards.push(v);
    if cards.len() == 0 {
        assert(p[0] == v);
        assert(p.subrange(1, 1) =~= Seq::<u8>::empty());
        assert(dealer_points_after(mode, dealer_add_spec(mode, points, v as int), p.subrange(1, 1))
            == dealer_add_spec(mode, points, v as int));
        assert(dealer_points_after(mode, points, cards) == points);
    } else {
        assert(p[0] == cards[0]);
        assert(p.subrange(1, cards.len() as int + 1) =~= cards.subrange(
            1,
            cards.len() as int,
        ).push(v));
        lemma_dealer_points_after_push(
            mode,
            dealer_add_spec(mode, points, cards[0] as int),
            cards.subrange(1, cards.len() as int),
            v,
        );
        assert(dealer_points_after(mode, points, p) == dealer_points_after(
            mode,
            dealer_add_spec(mode, points, p[0] as int),
            p.subrange(1, p.len() as int),
        ));
    }
}

impl Dealer {
    /// Whether the dealer keeps drawing: it draws below seventeen and stands
    /// from seventeen on.
    pub fn do_draw_card(&self) -> (r: bool)
        ensures
            r == (self.points < 17),
    {
        self.points < 17
    }

    /// Add one drawn card to the dealer's total, counting an ace by the
    /// dealer's fixed mode.
    pub fn add_card(&mut self, value: u8)
        requires
            old(self).points + value <= u8::MAX,
        ensures
            final(self).mode == old(self).mode,
            final(self).points == dealer_add_spec(
                old(self).mode,
                old(self).points as int,
                value as int,
            ),
    {
        if value == 11 {
            if self.mode == DealerMode::Soft17 {
                self.points = self.points + 11;
            } else {
                self.points = self.points + 1;
            }
        } else {
            self.points = self.points + value;
        }
    }
}

} // verus!
