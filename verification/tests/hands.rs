use blackjack::dealer::{Dealer, DealerMode};
use blackjack::hand::Player;

#[test]
fn score_without_ace_is_sum() {
    let mut p = Player::new("a".to_owned());
    p.add_card(5);
    p.add_card(7);
    assert_eq!(p.points(), 12);
    assert!(!p.ace);
}

#[test]
fn soft_ace_counts_eleven() {
    let mut p = Player::new("a".to_owned());
    p.add_card(5);
    p.add_card(11);
    assert_eq!(p.points(), 16);
}

#[test]
fn soft_ace_demotes_to_one_when_it_would_bust() {
    let mut p = Player::new("a".to_owned());
    p.add_card(5);
    p.add_card(10);
    p.add_card(11);
    assert_eq!(p.points(), 16);
}

#[test]
fn second_ace_becomes_hard_one() {
    let mut p = Player::new("a".to_owned());
    p.add_card(11);
    p.add_card(11);
    assert_eq!(p.points(), 12);
}

#[test]
fn finished_exactly_from_twentyone_on() {
    let mut p = Player::new("a".to_owned());
    p.add_card(10);
    p.add_card(10);
    assert!(!p.is_finished());
    p.add_card(11);
    assert_eq!(p.points(), 21);
    assert!(p.is_finished());

    let mut q = Player::new("b".to_owned());
    q.add_card(10);
    q.add_card(6);
    q.add_card(6);
    assert_eq!(q.points(), 22);
    assert!(q.is_finished());
}

#[test]
fn dealer_soft17_counts_ace_eleven() {
    let mut d = Dealer { mode: DealerMode::Soft17, points: 6 };
    d.add_card(11);
    assert_eq!(d.points, 17);
}

#[test]
fn dealer_hard17_counts_ace_one() {
    let mut d = Dealer { mode: DealerMode::Hard17, points: 6 };
    d.add_card(11);
    assert_eq!(d.points, 7);
}

#[test]
fn dealer_draws_below_seventeen_only() {
    let d = Dealer { mode: DealerMode::Soft17, points: 16 };
    assert!(d.do_draw_card());
    let d = Dealer { mode: DealerMode::Soft17, points: 17 };
    assert!(!d.do_draw_card());
}
