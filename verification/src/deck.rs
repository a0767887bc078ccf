//! The weighted card pool: sampling without replacement, weighted by the
//! remaining multiplicity of each card value.
//!
//! The pool keeps an ordered list of `(value, remaining count)` pairs and a
//! running total of the counts. A draw picks a number `num` below the total,
//! walks the entries in order subtracting each count from `num` until `num`
//! falls below an entry's count, returns that entry's value, and decrements
//! both that count and the total.

use vstd::prelude::*;
use crate::source::CardSource;

verus! {

/// A pool of card values with remaining multiplicities.
pub struct WeightedProbability {
    /// `(value, remaining count)` pairs, in insertion order.
    pub entries: Vec<(u8, u8)>,
    /// Sum of the remaining counts of all entries.
    pub total_weight: u8,
}

/// The sum of the remaining counts of a sequence of entries.
pub open spec fn sum_weights(s: Seq<(u8, u8)>) -> int
    decreases s.len(),
{
    if s.len() == 0 {
        0
    } else {
        s[0].1 + sum_weights(s.subrange(1, s.len() as int))
    }
}

/// The index of the entry that a draw with sample `num` lands on: the first
/// entry whose count exceeds what is left of `num` after subtracting the
/// counts before it.
pub open spec fn drawn_index(s: Seq<(u8, u8)>, num: int) -> int
    decreases s.len(),
{
    if s.len() == 0 {
        0
    } else if num < s[0].1 {
        0
    } else {
        1 + drawn_index(s.subrange(1, s.len() as int), num - s[0].1)
    }
}

/// The card value that a draw with sample `num` returns.
pub open spec fn drawn_value(s: Seq<(u8, u8)>, num: int) -> u8 {
    s[drawn_index(s, num)].0
}

/// The entries after a draw with sample `num`: the count of the entry the
/// draw lands on goes down by one.
pub open spec fn after_draw(s: Seq<(u8, u8)>, num: int) -> Seq<(u8, u8)> {
    let i = drawn_index(s, num);
    s.update(i, (s[i].0, (s[i].1 - 1) as u8))
}

/// The sum of the counts is never negative.
pub proof fn lemma_sum_weights_nonneg(s: Seq<(u8, u8)>)
    ensures
        sum_weights(s) >= 0,
    decreases s.len(),
{
    if s.len() > 0 {
        lemma_sum_weights_nonneg(s.subrange(1, s.len() as int));
    }
}

/// Appending an entry adds its count to the sum.
pub proof fn lemma_sum_weights_push(s: Seq<(u8, u8)>, e: (u8, u8))
    ensures
        sum_weights(s.push(e)) == sum_weights(s) + e.1,
    decreases s.len(),
{
    if s.len() == 0 {
        let p = s.push(e);
        assert(p[0] == e);
        assert(p.subrange(1, 1) =~= Seq::<(u8, u8)>::empty());
        assert(sum_weights(p.subrange(1, 1)) == 0);
        assert(sum_weights(p) == e.1);
        assert(sum_weights(s) == 0);
    } else {
        assert(s.push(e).subrange(1, s.len() as int + 1) =~= s.subrange(1, s.len() as int).push(e));
        lemma_sum_weights_push(s.subrange(1, s.len() as int), e);
    }
}

/// Replacing one entry shifts the sum by the difference of the counts.
pub proof fn lemma_sum_weights_update(s: Seq<(u8, u8)>, i: int, e: (u8, u8))
    requires
        0 <= i < s.len(),
    ensures
        sum_weights(s.update(i, e)) == sum_weights(s) - s[i].1 + e.1,
    decreases s.len(),
{
    if i == 0 {
        assert(s.update(0, e).subrange(1, s.len() as int) =~= s.subrange(1, s.len() as int));
    } else {
        assert(s.update(i, e).subrange(1, s.len() as int) =~= s.subrange(
            1,
            s.len() as int,
        ).update(i - 1, e));
        lemma_sum_weights_update(s.subrange(1, s.len() as int), i - 1, e);
    }
}

/// Law: a draw whose sample lies below the total always lands on an entry
/// that still has a positive remaining count — a card whose count was already
/// zero is never drawn.
pub proof fn lemma_drawn_entry_has_weight(s: Seq<(u8, u8)>, num: int)
    requires
        0 <= num < sum_weights(s),
    ensures
        0 <= drawn_index(s, num) < s.len(),
        s[drawn_index(s, num)].1 > 0,
    decreases s.len(),
{
    if s.len() == 0 {
    } else if num < s[0].1 {
    } else {
        lemma_drawn_entry_has_weight(s.subrange(1, s.len() as int), num - s[0].1);
    }
}

/// Whether every sample of a sequence of draws lies below the total that the
/// pool has when that draw is made.
pub open spec fn draws_ok(s: Seq<(u8, u8)>, nums: Seq<int>) -> bool
    decreases nums.len(),
{
    if nums.len() == 0 {
        true
    } else {
        &&& 0 <= nums[0] < sum_weights(s)
        &&& draws_ok(after_draw(s, nums[0]), nums.subrange(1, nums.len() as int))
    }
}

/// The entries after a whole sequence of draws, made in order.
pub open spec fn pool_after_draws(s: Seq<(u8, u8)>, nums: Seq<int>) -> Seq<(u8, u8)>
    decreases nums.len(),
{
    if nums.len() == 0 {
        s
    } else {
        pool_after_draws(after_draw(s, nums[0]), nums.subrange(1, nums.len() as int))
    }
}

/// Law: every admissible draw lowers the total weight by exactly one, so
/// after a sequence of `N` draws the total equals the initial total minus
/// `N`; in particular the total never goes below zero.
pub proof fn lemma_total_after_draws(s: Seq<(u8, u8)>, nums: Seq<int>)
    requires
        draws_ok(s, nums),
    ensures
        sum_weights(pool_after_draws(s, nums)) == sum_weights(s) - nums.len(),
        nums.len() <= sum_weights(s),
    decreases nums.len(),
{
    if nums.len() == 0 {
        lemma_sum_weights_nonneg(s);
    } else {
        let i = drawn_index(s, nums[0]);
        lemma_drawn_entry_has_weight(s, nums[0]);
        lemma_sum_weights_update(s, i, (s[i].0, (s[i].1 - 1) as u8));
        lemma_total_after_draws(after_draw(s, nums[0]), nums.subrange(1, nums.len() as int));
    }
}

impl WeightedProbability {
    /// The stated total matches the entries.
    pub open spec fn wf(&self) -> bool {
        self.total_weight as int == sum_weights(self.entries@)
    }

    /// An empty pool.
    pub fn new() -> (r: Self)
        ensures
            r.wf(),
            r.entries@.len() == 0,
            r.total_weight == 0,
    {
        Self { entries: Vec::new(), total_weight: 0 }
    }

    /// Append an entry of `weight` cards of the given value; the total grows
    /// by `weight`.
    pub fn add_entry(&mut self, value: u8, weight: u8)
        requires
            old(self).wf(),
            old(self).total_weight + weight <= u8::MAX,
        ensures
            final(self).wf(),
            final(self).entries@ == old(self).entries@.push((value, weight)),
            final(self).total_weight == old(self).total_weight + weight,
    {
        proof {
            lemma_sum_weights_push(self.entries@, (value, weight));
        }
        self.entries.push((value, weight));
        self.total_weight = self.total_weight + weight;
    }

    /// Draw the card that the sample `num` lands on, decrementing its
    /// remaining count and the total.
    pub fn draw_at(&mut self, num: u8) -> (r: u8)
        requires
            old(self).wf(),
            num < old(self).total_weight,
        ensures
            final(self).wf(),
            final(self).total_weight == old(self).total_weight - 1,
            final(self).entries@ == after_draw(old(self).entries@, num as int),
            r == drawn_value(old(self).entries@, num as int),
            0 <= drawn_index(old(self).entries@, num as int) < old(self).entries@.len(),
            old(self).entries@[drawn_index(old(self).entries@, num as int)].1 > 0,
            final(self).entries@.len() == old(self).entries@.len(),
            forall|j: int|
                0 <= j < old(self).entries@.len() ==> final(self).entries@[j].0 == old(
                    self,
                ).entries@[j].0,
            exists|j: int|
                0 <= j < old(self).entries@.len() && r == old(self).entries@[j].0 && old(
                    self,
                ).entries@[j].1 > 0,
    {
        let ghost s0 = self.entries@;
        let n_entries: usize = self.entries.len();
        proof {
            lemma_drawn_entry_has_weight(s0, num as int);
            assert(s0.subrange(0, s0.len() as int) =~= s0);
        }
        let mut i: usize = 0;
        let mut rem: u8 = num;
        while rem >= self.entries[i].1
            invariant
                self.entries@ == s0,
                self.total_weight == old(self).total_weight,
                self.wf(),
                num < old(self).total_weight,
                s0.len() == n_entries as int,
                0 <= i <= s0.len(),
                drawn_index(s0, num as int) == i + drawn_index(
                    s0.subrange(i as int, s0.len() as int),
                    rem as int,
                ),
                sum_weights(s0.subrange(i as int, s0.len() as int)) > rem,
            decreases s0.len() - i,
        {
            proof {
                if i as int == s0.len() as int {
                    assert(s0.subrange(i as int, s0.len() as int) =~= Seq::<(u8, u8)>::empty());
                }
                assert(i < s0.len());
            }
            let w = self.entries[i].1;
            proof {
                let suffix = s0.subrange(i as int, s0.len() as int);
                assert(suffix.subrange(1, suffix.len() as int) =~= s0.subrange(
                    i + 1,
                    s0.len() as int,
                ));
            }
            rem = rem - w;
            i = i + 1;
        }
        proof {
            let suffix = s0.subrange(i as int, s0.len() as int);
            assert(drawn_index(suffix, rem as int) == 0);
            assert(drawn_index(s0, num as int) == i);
        }
        let (value, weight) = self.entries[i];
        self.entries[i] = (value, weight - 1);
        self.total_weight = self.total_weight - 1;
        proof {
            lemma_sum_weights_update(s0, i as int, (value, (weight - 1) as u8));
        }
        value
    }

    /// Draw a card at a sample taken from the given source, decrementing the
    /// remaining count of the drawn value and the total; the drawn value is
    /// one whose remaining count was still positive.
    pub fn gen_decrementing<R: CardSource>(&mut self, rng: &mut R) -> (r: u8)
        requires
            old(self).wf(),
            old(self).total_weight > 0,
        ensures
            final(self).wf(),
            final(self).total_weight == old(self).total_weight - 1,
            exists|n: int|
                0 <= n < old(self).total_weight && final(self).entries@ == after_draw(
                    old(self).entries@,
                    n,
                ) && r == drawn_value(old(self).entries@, n),
            final(self).entries@.len() == old(self).entries@.len(),
            forall|j: int|
                0 <= j < old(self).entries@.len() ==> final(self).entries@[j].0 == old(
                    self,
                ).entries@[j].0,
            exists|j: int|
                0 <= j < old(self).entries@.len() && r == old(self).entries@[j].0 && old(
                    self,
                ).entries@[j].1 > 0,
    {
        let num = rng.next_below(self.total_weight);
        let r = self.draw_at(num);
        proof {
            assert(self.entries@ == after_draw(old(self).entries@, num as int) && r
                == drawn_value(old(self).entries@, num as int));
        }
        r
    }
}

} // verus!
