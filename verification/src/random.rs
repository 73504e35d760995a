//! Draws from the seeded generator that scenarios share, and the random keys and
//! values built from them.
//!
//! Every draw goes through one of the wrappers below. Nothing is known of a draw
//! but its range, so whatever is built on draws is verified for every outcome.

use rand::distributions::Distribution;
use rand::seq::SliceRandom;
use rand::Rng;
use crate::text::texts;
use vstd::prelude::*;

verus! {

/// The generator `rand_pcg::Pcg64`. Its state is not modelled.
#[verifier::external_type_specification]
#[verifier::external_body]
pub struct ExPcg64(rand_pcg::Pcg64);

/// `Rng::gen_range(0..bound)` on `usize`: a number below `bound`. The call panics
/// on an empty range, which `requires` leaves out.
#[verifier::external_body]
pub(crate) fn draw_index(rng: &mut rand_pcg::Pcg64, bound: usize) -> (r: usize)
    requires
        bound > 0,
    ensures
        r < bound,
{
    rng.gen_range(0..bound)
}

/// `Rng::gen_range(low..high)` on `u32`: a number from `low` up to, not including,
/// `high`. The call panics on an empty range, which `requires` leaves out.
#[verifier::external_body]
pub(crate) fn draw_between(rng: &mut rand_pcg::Pcg64, low: u32, high: u32) -> (r: u32)
    requires
        low < high,
    ensures
        low <= r < high,
{
    rng.gen_range(low..high)
}

/// `SliceRandom::shuffle` on the items of a vector: the same items in some order.
#[verifier::external_body]
pub(crate) fn shuffle(rng: &mut rand_pcg::Pcg64, items: &mut Vec<String>)
    ensures
        texts(final(items)@).to_multiset() == texts(old(items)@).to_multiset(),
{
    items.shuffle(rng);
}

/// `SliceRandom::choose` on the items of a vector: a copy of one of them, or
/// nothing where there is none.
#[verifier::external_body]
pub(crate) fn pick_one(rng: &mut rand_pcg::Pcg64, items: &Vec<String>) -> (r: Option<String>)
    ensures
        items.len() == 0 ==> r is None,
        items.len() > 0 ==> r is Some,
        r matches Some(t) ==> texts(items@).contains(t@),
{
    items.choose(rng).cloned()
}

/// The sum of the weights.
pub open spec fn total_weight(weights: Seq<usize>) -> nat
    decreases weights.len(),
{
    if weights.len() == 0 {
        0
    } else {
        total_weight(weights.drop_last()) + weights.last() as nat
    }
}

/// `WeightedIndex::new(weights)` and one `Distribution::sample` of it: a position
/// in `weights`. Building the distribution fails where there is no weight or their
/// sum is zero, and the sum is computed in `usize`; `requires` leaves those out.
#[verifier::external_body]
pub(crate) fn draw_weighted(rng: &mut rand_pcg::Pcg64, weights: &[usize; 36]) -> (r: usize)
    requires
        0 < total_weight(weights@) <= usize::MAX,
    ensures
        r < 36,
{
    let dist = rand::distributions::WeightedIndex::new(weights).unwrap();
    dist.sample(rng)
}

/// The characters that random keys and values are made of.
pub open spec fn symbols() -> Seq<char> {
    seq![
        'a', 'b', 'c', 'd', 'e', 'f', 'g', 'h', 'i', 'j', 'k', 'l', 'm', 'n', 'o', 'p', 'q', 'r',
        's', 't', 'u', 'v', 'w', 'x', 'y', 'z', '0', '1', '2', '3', '4', '5', '6', '7', '8', '9',
    ]
}

/// How much each of the [`symbols`] weighs in a draw.
pub open spec fn symbol_weights() -> Seq<usize> {
    seq![
        13, 16, 3, 8, 8, 5, 6, 23, 4, 8, 24, 12, 2, 1, 1, 10, 5, 8, 10, 1, 24, 3, 1, 8, 12, 22, 5,
        20, 18, 5, 5, 2, 1, 3, 16, 22,
    ]
}

/// A text is made of symbols when each of its characters is a lower-case letter or
/// a digit.
pub open spec fn made_of_symbols(s: Seq<char>) -> bool {
    forall|i: int| 0 <= i < s.len() ==> symbols().contains(#[trigger] s[i])
}

/// The sum of weights of at most 24 each is at most 24 times their number, and at
/// least each of them.
proof fn lemma_total_weight_bounds(w: Seq<usize>)
    requires
        forall|i: int| 0 <= i < w.len() ==> #[trigger] w[i] <= 24,
    ensures
        total_weight(w) <= 24 * w.len(),
        forall|i: int| 0 <= i < w.len() ==> total_weight(w) >= #[trigger] w[i],
    decreases w.len(),
{
    if w.len() > 0 {
        let head = w.drop_last();
        assert forall|i: int| 0 <= i < head.len() implies #[trigger] head[i] <= 24 by {
            assert(head[i] == w[i]);
        }
        lemma_total_weight_bounds(head);
        assert forall|i: int| 0 <= i < w.len() implies total_weight(w) >= #[trigger] w[i] by {
            if i < head.len() {
                assert(head[i] == w[i]);
            }
        }
    }
}

/// A random text of `length` symbols, each drawn by weight.
pub fn random_string(length: usize, rng: &mut rand_pcg::Pcg64) -> (r: String)
    ensures
        r@.len() == length,
        made_of_symbols(r@),
{
    let chars: [char; 36] = [
        'a', 'b', 'c', 'd', 'e', 'f', 'g', 'h', 'i', 'j', 'k', 'l', 'm', 'n', 'o', 'p', 'q', 'r',
        's', 't', 'u', 'v', 'w', 'x', 'y', 'z', '0', '1', '2', '3', '4', '5', '6', '7', '8', '9',
    ];
    let weights: [usize; 36] = [
        13, 16, 3, 8, 8, 5, 6, 23, 4, 8, 24, 12, 2, 1, 1, 10, 5, 8, 10, 1, 24, 3, 1, 8, 12, 22, 5,
        20, 18, 5, 5, 2, 1, 3, 16, 22,
    ];
    proof {
        assert(chars@ == symbols());
        assert(weights@ == symbol_weights());
        lemma_total_weight_bounds(weights@);
        assert(total_weight(weights@) >= weights@[0]);
    }
    let mut out = String::new();
    let mut i: usize = 0;
    while i < length
        invariant
            i <= length,
            out@.len() == i,
            made_of_symbols(out@),
            chars@ == symbols(),
            weights@ == symbol_weights(),
            0 < total_weight(weights@) <= usize::MAX,
        decreases length - i,
    {
        let at = draw_weighted(rng, &weights);
        let ghost before = out@;
        out.push(chars[at]);
        proof {
            assert forall|k: int| 0 <= k < out@.len() implies symbols().contains(#[trigger] out@[k]) by {
                if k < i {
                    assert(out@[k] == before[k]);
                } else {
                    assert(symbols()[at as int] == out@[k]);
                }
            }
        }
        i += 1;
    }
    out
}

} // verus!
