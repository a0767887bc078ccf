use blackjack::deck::WeightedProbability;
use blackjack::engine::standard_card_pool;
use blackjack::source::{CardSource, ScriptedSource, ThreadRngSource};

#[test]
fn new_pool_is_empty() {
    let pool = WeightedProbability::new();
    assert_eq!(pool.total_weight, 0);
    assert_eq!(pool.entries.len(), 0);
}

#[test]
fn add_entry_accumulates_weight() {
    let mut pool = WeightedProbability::new();
    pool.add_entry(2, 4);
    pool.add_entry(10, 16);
    assert_eq!(pool.total_weight, 20);
    assert_eq!(pool.entries, vec![(2, 4), (10, 16)]);
}

#[test]
fn standard_pool_holds_fiftytwo_cards() {
    let pool = standard_card_pool();
    assert_eq!(pool.total_weight, 52);
    assert_eq!(
        pool.entries,
        vec![
            (2, 4),
            (3, 4),
            (4, 4),
            (5, 4),
            (6, 4),
            (7, 4),
            (8, 4),
            (9, 4),
            (10, 16),
            (11, 4)
        ]
    );
}

#[test]
fn total_weight_drops_by_one_per_draw() {
    let mut pool = standard_card_pool();
    let mut src = ScriptedSource::new(vec![51, 13, 0, 27, 40]);
    for k in 0..5u8 {
        pool.gen_decrementing(&mut src);
        assert_eq!(pool.total_weight, 52 - 1 - k);
    }
}

#[test]
fn draining_the_pool_returns_every_card_once() {
    let mut pool = standard_card_pool();
    // An exhausted script always samples zero: the walk then returns the
    // first value whose count is still positive.
    let mut src = ScriptedSource::new(vec![]);
    let mut counts = [0u8; 12];
    for _ in 0..52 {
        let v = pool.gen_decrementing(&mut src);
        assert!((2..=11).contains(&v));
        counts[v as usize] += 1;
    }
    assert_eq!(pool.total_weight, 0);
    assert_eq!(counts[2..12], [4, 4, 4, 4, 4, 4, 4, 4, 16, 4]);
}

#[test]
fn exhausted_value_is_never_drawn_again() {
    let mut pool = WeightedProbability::new();
    pool.add_entry(5, 1);
    pool.add_entry(7, 1);
    let mut src = ScriptedSource::new(vec![0]);
    assert_eq!(pool.gen_decrementing(&mut src), 5);
    // The count of value five is now zero; sample zero must skip it.
    assert_eq!(pool.gen_decrementing(&mut src), 7);
    assert_eq!(pool.total_weight, 0);
}

#[test]
fn draw_at_skips_entries_with_zero_weight() {
    let mut pool = WeightedProbability::new();
    pool.add_entry(5, 0);
    pool.add_entry(7, 2);
    assert_eq!(pool.draw_at(0), 7);
    assert_eq!(pool.total_weight, 1);
}

#[test]
fn scripted_source_replays_and_clamps() {
    let mut src = ScriptedSource::new(vec![3, 9]);
    assert_eq!(src.next_below(10), 3);
    // Nine is out of range for a bound of five and is replaced by zero.
    assert_eq!(src.next_below(5), 0);
    // Past the end of the script the source keeps yielding zero.
    assert_eq!(src.next_below(10), 0);
}

#[test]
fn random_source_drains_the_standard_pool() {
    let mut pool = standard_card_pool();
    let mut src = ThreadRngSource {};
    let mut counts = [0u8; 12];
    for k in 0..52u8 {
        let v = pool.gen_decrementing(&mut src);
        assert!((2..=11).contains(&v));
        counts[v as usize] += 1;
        assert_eq!(pool.total_weight, 52 - 1 - k);
    }
    assert_eq!(counts[2..12], [4, 4, 4, 4, 4, 4, 4, 4, 16, 4]);
}
