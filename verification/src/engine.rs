//! The round engine: dealing in, one player draw, the dealer's auto-play,
//! and the payout decision of a finished round.
//!
//! The engine never touches the players' stakes itself: it reports, per
//! player, which payout applies, and the caller applies it to the money.

use vstd::prelude::*;
use crate::dealer::{Dealer, DealerMode, dealer_add_spec, dealer_points_after,
    lemma_dealer_points_after_push};
use crate::deck::{WeightedProbability, after_draw, drawn_value};
use crate::hand::{Player, new_player, player_after_card, score_spec};
use crate::source::CardSource;

verus! {

/// What happens to a player's stake when the round resolves.
#[derive(PartialEq, Eq, Structural, Clone, Copy, Debug)]
pub enum Payout {
    /// The player went over twenty-one and the stake was already forfeited.
    Busted,
    /// The dealer went over twenty-one: the stake is doubled.
    DealerBustedWin,
    /// The player outscored the standing dealer: the stake grows
    /// two-and-a-half-fold.
    BeatDealer,
    /// The standing dealer has at least the player's score: the stake is
    /// unchanged.
    Lost,
}

/// A fatal rule violation: a draw was asked of an exhausted pool.
#[derive(PartialEq, Eq, Structural, Clone, Copy, Debug)]
pub enum RoundError {
    DeckExhausted,
}

/// The payout that a player with the given effective score gets against the
/// given dealer total.
pub open spec fn payout_spec(dealer_points: int, player_score: int) -> Payout {
    if player_score > 21 {
        Payout::Busted
    } else if dealer_points > 21 {
        Payout::DealerBustedWin
    } else if player_score > dealer_points {
        Payout::BeatDealer
    } else {
        Payout::Lost
    }
}

/// Every entry of the pool carries a card value, that is, a number in
/// `2..=11`.
pub open spec fn cards_valid(s: Seq<(u8, u8)>) -> bool {
    forall|j: int| 0 <= j < s.len() ==> 2 <= (#[trigger] s[j]).0 <= 11
}

/// The single-deck multiplicities: four cards of each value, except sixteen
/// ten-valued ones (ten, jack, queen, king).
pub open spec fn standard_entries() -> Seq<(u8, u8)> {
    seq![
        (2u8, 4u8),
        (3u8, 4u8),
        (4u8, 4u8),
        (5u8, 4u8),
        (6u8, 4u8),
        (7u8, 4u8),
        (8u8, 4u8),
        (9u8, 4u8),
        (10u8, 16u8),
        (11u8, 4u8),
    ]
}

/// The pool of a fresh fifty-two card deck.
pub fn standard_card_pool() -> (r: WeightedProbability)
    ensures
        r.wf(),
        r.entries@ == standard_entries(),
        r.total_weight == 52,
        cards_valid(r.entries@),
{
    let mut pool = WeightedProbability::new();
    pool.add_entry(2, 4);
    pool.add_entry(3, 4);
    pool.add_entry(4, 4);
    pool.add_entry(5, 4);
    pool.add_entry(6, 4);
    pool.add_entry(7, 4);
    pool.add_entry(8, 4);
    pool.add_entry(9, 4);
    pool.add_entry(10, 16);
    pool.add_entry(11, 4);
    proof {
        assert(pool.entries@ =~= standard_entries());
    }
    pool
}

/// A hand that holds exactly two cards dealt to a fresh player of the given
/// name.
pub open spec fn dealt_two(p: Player, name: String) -> bool {
    exists|c1: u8, c2: u8|
        2 <= c1 <= 11 && 2 <= c2 <= 11 && p == player_after_card(
            player_after_card(new_player(name), c1 as int),
            c2 as int,
        )
}

/// The state of one round: the card pool, the dealer, and the players in
/// seating order.
pub struct Round {
    pub pool: WeightedProbability,
    pub dealer: Dealer,
    pub players: Vec<Player>,
}

/// Deal a round in: build the fresh pool, give the dealer one card, and give
/// each named player two cards, in seating order.
pub fn deal_in<R: CardSource>(names: Vec<String>, rng: &mut R) -> (r: Round)
    requires
        names@.len() <= 25,
    ensures
        r.pool.wf(),
        cards_valid(r.pool.entries@),
        r.pool.total_weight == 52 - 1 - 2 * names@.len(),
        r.dealer.mode == DealerMode::Soft17,
        r.dealer.points <= 11,
        exists|c: u8|
            2 <= c <= 11 && r.dealer.points == dealer_add_spec(DealerMode::Soft17, 0, c as int),
        r.players@.len() == names@.len(),
        forall|i: int|
            0 <= i < r.players@.len() ==> dealt_two(#[trigger] r.players@[i], names@[i])
                && r.players@[i].points <= 20,
{
    let mut pool = standard_card_pool();
    let mut dealer = Dealer { mode: DealerMode::Soft17, points: 0 };
    let c = pool.gen_decrementing(rng);
    proof {
        assert(2 <= c <= 11);
    }
    dealer.add_card(c);

    let ghost names0 = names@;
    let ghost dealer0 = dealer;
    let mut names = names;
    let mut players: Vec<Player> = Vec::new();
    while names.len() > 0
        invariant
            pool.wf(),
            cards_valid(pool.entries@),
            names0.len() <= 25,
            players@.len() + names@.len() == names0.len(),
            names@ == names0.subrange(players@.len() as int, names0.len() as int),
            pool.total_weight == 52 - 1 - 2 * players@.len(),
            dealer == dealer0,
            forall|i: int|
                0 <= i < players@.len() ==> dealt_two(#[trigger] players@[i], names0[i])
                    && players@[i].points <= 20,
        decreases names@.len(),
    {
        let ghost k: int = players@.len() as int;
        proof {
            assert(names@[0] == names0[k]);
        }
        let name = names.remove(0);
        proof {
            assert(names@ =~= names0.subrange(k + 1, names0.len() as int));
        }
        let mut p = Player::new(name);
        let c1 = pool.gen_decrementing(rng);
        proof {
            assert(2 <= c1 <= 11);
        }
        p.add_card(c1);
        let ghost p1 = p;
        let c2 = pool.gen_decrementing(rng);
        proof {
            assert(2 <= c2 <= 11);
            assert(p1.points <= 10);
        }
        p.add_card(c2);
        proof {
            assert(p.points <= 20);
            assert(p == player_after_card(player_after_card(new_player(names0[k]), c1 as int), c2 as int));
            assert(dealt_two(p, names0[k]));
        }
        let ghost players_old = players@;
        players.push(p);
        proof {
            assert(forall|i: int| 0 <= i < players_old.len() ==> players@[i] == players_old[i]);
            assert(players@[k] == p);
        }
    }
    Round { pool, dealer, players }
}

/// What one voluntary draw did to a player's hand.
pub struct DrawReport {
    /// The card value that came out of the pool.
    pub card: u8,
    /// The player's effective score after the card was added.
    pub score: u8,
    /// Whether that score busts the hand (exceeds twenty-one).
    pub busted: bool,
}

/// Draw one card for a player who asked for another card, and add it to the
/// player's hand.
pub fn player_turn<R: CardSource>(
    pool: &mut WeightedProbability,
    player: &mut Player,
    rng: &mut R,
) -> (r: DrawReport)
    requires
        old(pool).wf(),
        old(pool).total_weight > 0,
        cards_valid(old(pool).entries@),
        old(player).points + 11 < u8::MAX,
    ensures
        final(pool).wf(),
        cards_valid(final(pool).entries@),
        final(pool).total_weight == old(pool).total_weight - 1,
        exists|n: int|
            0 <= n < old(pool).total_weight && final(pool).entries@
                == after_draw(old(pool).entries@, n) && r.card
                == drawn_value(old(pool).entries@, n),
        exists|j: int|
            0 <= j < old(pool).entries@.len() && r.card == old(pool).entries@[j].0 && old(
                pool,
            ).entries@[j].1 > 0,
        2 <= r.card <= 11,
        *final(player) == player_after_card(*old(player), r.card as int),
        r.score == score_spec(final(player).points as int, final(player).ace),
        r.busted == (r.score > 21),
{
    let card = pool.gen_decrementing(rng);
    proof {
        assert(2 <= card <= 11);
    }
    player.add_card(card);
    let score = player.points();
    DrawReport { card, score, busted: score > 21 }
}

/// Run the dealer to its stand: while the accumulated total is below
/// seventeen, draw one card and add it under the dealer's fixed ace mode.
/// The drawn cards are returned in order. An exhausted pool while the dealer
/// still has to draw is a fatal rule violation, reported as an error; with
/// at least seventeen between the pool's total weight and the dealer's
/// points, it cannot happen.
pub fn dealer_turns<R: CardSource>(
    pool: &mut WeightedProbability,
    dealer: &mut Dealer,
    rng: &mut R,
) -> (r: Result<Vec<u8>, RoundError>)
    requires
        old(pool).wf(),
        cards_valid(old(pool).entries@),
    ensures
        final(pool).wf(),
        cards_valid(final(pool).entries@),
        final(dealer).mode == old(dealer).mode,
        match r {
            Ok(drawn) => {
                &&& final(dealer).points == dealer_points_after(
                    old(dealer).mode,
                    old(dealer).points as int,
                    drawn@,
                )
                &&& final(dealer).points >= 17
                &&& forall|k: int|
                    0 <= k < drawn@.len() ==> dealer_points_after(
                        old(dealer).mode,
                        old(dealer).points as int,
                        drawn@.take(k),
                    ) < 17
                &&& forall|k: int| 0 <= k < drawn@.len() ==> 2 <= #[trigger] drawn@[k] <= 11
                &&& final(pool).total_weight == old(pool).total_weight - drawn@.len()
            },
            Err(e) => {
                &&& e == RoundError::DeckExhausted
                &&& final(pool).total_weight == 0
                &&& final(dealer).points < 17
            },
        },
        old(pool).total_weight + old(dealer).points >= 17 ==> r is Ok,
{
    let ghost mode0 = dealer.mode;
    let ghost p0: int = dealer.points as int;
    let ghost w0: int = pool.total_weight as int;
    let mut drawn: Vec<u8> = Vec::new();
    while dealer.do_draw_card()
        invariant
            pool.wf(),
            cards_valid(pool.entries@),
            dealer.mode == mode0,
            mode0 == old(dealer).mode,
            p0 == old(dealer).points as int,
            w0 == old(pool).total_weight as int,
            dealer.points as int == dealer_points_after(mode0, p0, drawn@),
            forall|k: int|
                0 <= k < drawn@.len() ==> dealer_points_after(mode0, p0, drawn@.take(k)) < 17,
            forall|k: int| 0 <= k < drawn@.len() ==> 2 <= #[trigger] drawn@[k] <= 11,
            pool.total_weight == w0 - drawn@.len(),
            pool.total_weight as int + dealer.points as int >= w0 + p0,
        decreases pool.total_weight,
    {
        if pool.total_weight == 0 {
            return Err(RoundError::DeckExhausted);
        }
        let v = pool.gen_decrementing(rng);
        proof {
            assert(2 <= v <= 11);
        }
        dealer.add_card(v);
        let ghost drawn_old = drawn@;
        drawn.push(v);
        proof {
            lemma_dealer_points_after_push(mode0, p0, drawn_old, v);
            assert forall|k: int|
                0 <= k < drawn@.len() implies dealer_points_after(mode0, p0, drawn@.take(k))
                < 17 by {
                if k < drawn_old.len() {
                    assert(drawn@.take(k) =~= drawn_old.take(k));
                } else {
                    assert(drawn@.take(k) =~= drawn_old);
                }
            }
        }
    }
    Ok(drawn)
}

/// The payout of every player, in seating order, against the dealer's final
/// total: a busted player forfeited already, every surviving player wins
/// double on a dealer bust, wins two-and-a-half-fold by outscoring the
/// standing dealer, and is otherwise unchanged.
pub fn resolve_outcomes(dealer: &Dealer, players: &Vec<Player>) -> (r: Vec<Payout>)
    requires
        forall|i: int| 0 <= i < players@.len() ==> (#[trigger] players@[i]).points < u8::MAX,
    ensures
        r@.len() == players@.len(),
        forall|i: int|
            0 <= i < players@.len() ==> r@[i] == payout_spec(
                dealer.points as int,
                score_spec(players@[i].points as int, players@[i].ace),
            ),
{
    let mut r: Vec<Payout> = Vec::new();
    let mut i: usize = 0;
    while i < players.len()
        invariant
            i <= players@.len(),
            r@.len() == i,
            forall|k: int| 0 <= k < players@.len() ==> (#[trigger] players@[k]).points < u8::MAX,
            forall|k: int|
                0 <= k < i ==> r@[k] == payout_spec(
                    dealer.points as int,
                    score_spec(players@[k].points as int, players@[k].ace),
                ),
        decreases players@.len() - i,
    {
        let score = players[i].points();
        let out: Payout;
        if score > 21 {
            out = Payout::Busted;
        } else if dealer.points > 21 {
            out = Payout::DealerBustedWin;
        } else if score > dealer.points {
            out = Payout::BeatDealer;
        } else {
            out = Payout::Lost;
        }
        r.push(out);
        i = i + 1;
    }
    r
}

} // verus!
