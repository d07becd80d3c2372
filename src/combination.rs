//! The combination engine: decoding a mask into a combination, enumerating the
//! power set of the catalog, drawing one subset at random, and valuing one.

use rand::Rng;
use vstd::prelude::*;

use crate::coin::{catalog, cents, ordinal, Coin};

verus! {

/// Number of subsets of the four-coin catalog.
pub const COMBINATION_COUNT: u8 = 16;

/// Whether bit `j` of `mask` is set.
pub open spec fn has_bit(mask: u8, j: u8) -> bool {
    (mask >> j) & 1u8 == 1u8
}

/// Whether a denomination belongs to the combination that `mask` encodes.
pub open spec fn in_mask(mask: u8) -> spec_fn(Coin) -> bool {
    |c: Coin| has_bit(mask, ordinal(c))
}

/// The combination that `mask` encodes: the catalog's denominations whose bit
/// is set, in canonical order.
pub open spec fn combination_of(mask: u8) -> Seq<Coin> {
    catalog().filter(in_mask(mask))
}

/// The part of `combination_of(mask)` drawn from the first `n` denominations.
pub open spec fn combination_prefix(mask: u8, n: nat) -> Seq<Coin> {
    catalog().take(n as int).filter(in_mask(mask))
}

/// The total value in cents of a sequence of coins.
pub open spec fn sum_cents(s: Seq<Coin>) -> nat
    decreases s.len(),
{
    if s.len() == 0 {
        0
    } else {
        sum_cents(s.drop_last()) + cents(s.last())
    }
}

/// The denominations of `s` stand in strictly ascending catalog order, so none repeats.
pub open spec fn ascending(s: Seq<Coin>) -> bool {
    forall|i: int, j: int| 0 <= i < j < s.len() ==> ordinal(s[i]) < ordinal(s[j])
}

proof fn lemma_sum_push(s: Seq<Coin>, c: Coin)
    ensures
        sum_cents(s.push(c)) == sum_cents(s) + cents(c),
{
    assert(s.push(c).drop_last() =~= s);
}

/// One more denomination of the catalog joins the prefix exactly when its bit is set.
proof fn lemma_prefix_step(mask: u8, n: nat)
    requires
        n < 4,
    ensures
        combination_prefix(mask, n + 1) == if has_bit(mask, n as u8) {
            combination_prefix(mask, n).push(catalog()[n as int])
        } else {
            combination_prefix(mask, n)
        },
        ordinal(catalog()[n as int]) == n as u8,
{
    let c = catalog()[n as int];
    assert(catalog().take(n + 1 as int) =~= catalog().take(n as int).push(c));
    catalog().take(n as int).lemma_filter_push(c, in_mask(mask));
}

proof fn lemma_take_all()
    ensures
        catalog().take(4) == catalog(),
{
    assert(catalog().take(4) =~= catalog());
}

/// The combination that `mask` encodes, as a vector in canonical order.
pub fn combination_from_mask(mask: u8) -> (r: Vec<Coin>)
    ensures
        r@ == combination_of(mask),
{
    let coins = Coin::all();
    let mut combination: Vec<Coin> = Vec::new();
    proof {
        assert(catalog().take(0) =~= Seq::<Coin>::empty());
        reveal(Seq::filter);
    }
    for j in 0..4u8
        invariant
            coins@ == catalog(),
            combination@ == combination_prefix(mask, j as nat),
    {
        proof {
            lemma_prefix_step(mask, j as nat);
        }
        if (mask >> j) & 1 == 1 {
            combination.push(coins[j as usize]);
        }
    }
    proof {
        lemma_take_all();
    }
    combination
}

/// The value of a concatenation is the sum of the values of its parts.
pub proof fn lemma_sum_cents_additive(a: Seq<Coin>, b: Seq<Coin>)
    ensures
        sum_cents(a + b) == sum_cents(a) + sum_cents(b),
    decreases b.len(),
{
    if b.len() == 0 {
        assert(a + b =~= a);
    } else {
        assert((a + b).drop_last() =~= a + b.drop_last());
        lemma_sum_cents_additive(a, b.drop_last());
    }
}

/// The value of a sequence of coins depends only on which coins it holds, not
/// on their order.
pub proof fn lemma_sum_cents_order_independent(a: Seq<Coin>, b: Seq<Coin>)
    requires
        a.to_multiset() == b.to_multiset(),
    ensures
        sum_cents(a) == sum_cents(b),
    decreases a.len(),
{
    broadcast use vstd::multiset::group_multiset_axioms;

    vstd::seq_lib::to_multiset_len(a);
    vstd::seq_lib::to_multiset_len(b);
    if a.len() > 0 {
        let x = a.last();
        let a0 = a.drop_last();
        assert(a0.push(x) =~= a);
        vstd::seq_lib::to_multiset_build(a0, x);
        vstd::seq_lib::to_multiset_contains(b, x);
        let i = choose|i: int| 0 <= i < b.len() && b[i] == x;
        let b0 = b.remove(i);
        vstd::seq_lib::to_multiset_remove(b, i);
        assert(a0.to_multiset() =~= b0.to_multiset());
        lemma_sum_cents_order_independent(a0, b0);
        let left = b.take(i);
        let right = b.skip(i + 1);
        assert(b =~= left + (seq![x] + right));
        assert(b0 =~= left + right);
        assert(seq![x] =~= Seq::<Coin>::empty().push(x));
        lemma_sum_push(Seq::<Coin>::empty(), x);
        lemma_sum_cents_additive(left, seq![x] + right);
        lemma_sum_cents_additive(seq![x], right);
        lemma_sum_cents_additive(left, right);
        lemma_sum_push(a0, x);
    }
}

/// The total value in cents of `coins`.
pub fn total_value(coins: &[Coin]) -> (r: u32)
    requires
        sum_cents(coins@) <= u32::MAX,
    ensures
        r as nat == sum_cents(coins@),
{
    let mut total: u32 = 0;
    for i in 0..coins.len()
        invariant
            total as nat == sum_cents(coins@.take(i as int)),
            sum_cents(coins@) <= u32::MAX,
    {
        proof {
            let s = coins@;
            assert(s.take(i + 1) =~= s.take(i as int).push(s[i as int]));
            lemma_sum_push(s.take(i as int), s[i as int]);
            assert(s =~= s.take(i + 1) + s.skip(i + 1));
            lemma_sum_cents_additive(s.take(i + 1), s.skip(i + 1));
        }
        total = total + coins[i].value_in_cents() as u32;
    }
    proof {
        assert(coins@.take(coins@.len() as int) =~= coins@);
    }
    total
}

/// Every subset of the catalog, the one at index `i` being the combination
/// that mask `i` encodes.
pub fn generate_all_combinations() -> (r: Vec<Vec<Coin>>)
    ensures
        r@.len() == COMBINATION_COUNT,
        forall|i: int| 0 <= i < r@.len() ==> #[trigger] r@[i]@ == combination_of(i as u8),
        r@[0]@ == Seq::<Coin>::empty(),
        r@[15]@ == catalog(),
{
    let mut combinations: Vec<Vec<Coin>> = Vec::new();
    for i in 0..COMBINATION_COUNT
        invariant
            combinations@.len() == i,
            forall|k: int| 0 <= k < i ==> #[trigger] combinations@[k]@ == combination_of(k as u8),
    {
        combinations.push(combination_from_mask(i));
    }
    proof {
        lemma_enumeration_ends();
    }
    combinations
}

/// Relies on rand's `thread_rng` and `Rng::gen_range`: a value drawn from
/// `[0, bound)`; `gen_range` panics only on an empty range.
#[verifier::external_body]
fn random_below(bound: u8) -> (r: u8)
    requires
        bound > 0,
    ensures
        r < bound,
{
    rand::thread_rng().gen_range(0..bound)
}

/// One subset of the catalog, drawn uniformly at random.
pub fn generate_random_combination() -> (r: Vec<Coin>)
    ensures
        exists|mask: u8| mask < COMBINATION_COUNT && r@ == #[trigger] combination_of(mask),
        r@.len() <= 4,
        r@.no_duplicates(),
        sum_cents(r@) <= 41,
{
    let mask = random_below(COMBINATION_COUNT);
    proof {
        lemma_combination_shape(mask);
    }
    combination_from_mask(mask)
}

proof fn lemma_bits_of_extremes(j: u8)
    requires
        j < 4,
    ensures
        !has_bit(0, j),
        has_bit(15, j),
{
    assert((0u8 >> j) & 1u8 == 0u8) by (bit_vector);
    assert((15u8 >> j) & 1u8 == 1u8) by (bit_vector)
        requires
            j < 4u8,
    ;
}

proof fn lemma_differing_bit(m1: u8, m2: u8)
    requires
        m1 < 16,
        m2 < 16,
        m1 != m2,
    ensures
        has_bit(m1, 0) != has_bit(m2, 0) || has_bit(m1, 1) != has_bit(m2, 1) || has_bit(m1, 2)
            != has_bit(m2, 2) || has_bit(m1, 3) != has_bit(m2, 3),
{
    assert(((m1 >> 0u8) & 1u8 == 1u8) != ((m2 >> 0u8) & 1u8 == 1u8) || ((m1 >> 1u8) & 1u8 == 1u8)
        != ((m2 >> 1u8) & 1u8 == 1u8) || ((m1 >> 2u8) & 1u8 == 1u8) != ((m2 >> 2u8) & 1u8 == 1u8)
        || ((m1 >> 3u8) & 1u8 == 1u8) != ((m2 >> 3u8) & 1u8 == 1u8)) by (bit_vector)
        requires
            m1 < 16u8,
            m2 < 16u8,
            m1 != m2,
    ;
}

proof fn lemma_prefix_facts(mask: u8, n: nat)
    requires
        n <= 4,
    ensures
        combination_prefix(mask, n).len() <= n,
        ascending(combination_prefix(mask, n)),
        forall|i: int|
            0 <= i < combination_prefix(mask, n).len() ==> ordinal(
                #[trigger] combination_prefix(mask, n)[i],
            ) < n,
        sum_cents(combination_prefix(mask, n)) <= sum_cents(catalog().take(n as int)),
    decreases n,
{
    if n == 0 {
        assert(catalog().take(0) =~= Seq::<Coin>::empty());
        reveal(Seq::filter);
    } else {
        let k = (n - 1) as nat;
        lemma_prefix_facts(mask, k);
        lemma_prefix_step(mask, k);
        let c = catalog()[k as int];
        assert(catalog().take(n as int) =~= catalog().take(k as int).push(c));
        lemma_sum_push(catalog().take(k as int), c);
        if has_bit(mask, k as u8) {
            lemma_sum_push(combination_prefix(mask, k), c);
        }
    }
}

/// A denomination belongs to the combination that `mask` encodes exactly when
/// its bit is set.
pub proof fn lemma_membership(mask: u8, c: Coin)
    ensures
        combination_of(mask).contains(c) == has_bit(mask, ordinal(c)),
{
    let k = ordinal(c);
    lemma_prefix_step(mask, k as nat);
    assert(catalog()[k as int] == c);
    if has_bit(mask, k) {
        catalog().lemma_filter_contains(in_mask(mask), k as int);
    } else if combination_of(mask).contains(c) {
        let i = choose|i: int| 0 <= i < combination_of(mask).len() && combination_of(mask)[i] == c;
        catalog().lemma_filter_pred(in_mask(mask), i);
    }
}

/// Every combination holds at most four denominations, in strictly ascending
/// catalog order (so none repeats), and is worth at most 41 cents.
pub proof fn lemma_combination_shape(mask: u8)
    ensures
        combination_of(mask).len() <= 4,
        ascending(combination_of(mask)),
        combination_of(mask).no_duplicates(),
        sum_cents(combination_of(mask)) <= 41,
{
    lemma_prefix_facts(mask, 4);
    lemma_take_all();
    lemma_catalog_value();
}

/// The whole catalog is worth 41 cents.
pub proof fn lemma_catalog_value()
    ensures
        sum_cents(catalog()) == 41,
{
    let c = catalog();
    assert(c.take(0) =~= Seq::<Coin>::empty());
    assert(c.take(1) =~= c.take(0).push(c[0]));
    assert(c.take(2) =~= c.take(1).push(c[1]));
    assert(c.take(3) =~= c.take(2).push(c[2]));
    assert(c.take(4) =~= c.take(3).push(c[3]));
    lemma_sum_push(c.take(0), c[0]);
    lemma_sum_push(c.take(1), c[1]);
    lemma_sum_push(c.take(2), c[2]);
    lemma_sum_push(c.take(3), c[3]);
    lemma_take_all();
}

proof fn lemma_extreme_prefixes(n: nat)
    requires
        n <= 4,
    ensures
        combination_prefix(0, n) == Seq::<Coin>::empty(),
        combination_prefix(15, n) == catalog().take(n as int),
    decreases n,
{
    if n == 0 {
        assert(catalog().take(0) =~= Seq::<Coin>::empty());
        reveal(Seq::filter);
    } else {
        let k = (n - 1) as nat;
        lemma_extreme_prefixes(k);
        lemma_bits_of_extremes(k as u8);
        lemma_prefix_step(0, k);
        lemma_prefix_step(15, k);
        assert(catalog().take(n as int) =~= catalog().take(k as int).push(catalog()[k as int]));
    }
}

/// Mask 0 encodes the empty combination and mask 15 the whole catalog in
/// canonical order.
pub proof fn lemma_enumeration_ends()
    ensures
        combination_of(0) == Seq::<Coin>::empty(),
        combination_of(15) == catalog(),
{
    lemma_extreme_prefixes(4);
    lemma_take_all();
}

/// Distinct masks in `[0, 16)` encode distinct combinations.
pub proof fn lemma_combinations_distinct(m1: u8, m2: u8)
    requires
        m1 < 16,
        m2 < 16,
        m1 != m2,
    ensures
        combination_of(m1) != combination_of(m2),
{
    lemma_differing_bit(m1, m2);
    lemma_membership(m1, Coin::Penny);
    lemma_membership(m2, Coin::Penny);
    lemma_membership(m1, Coin::Nickel);
    lemma_membership(m2, Coin::Nickel);
    lemma_membership(m1, Coin::Dime);
    lemma_membership(m2, Coin::Dime);
    lemma_membership(m1, Coin::Quarter);
    lemma_membership(m2, Coin::Quarter);
}

/// Over the sixteen combinations the smallest value is 0 cents (mask 0) and
/// the largest is 41 cents (mask 15).
pub proof fn lemma_value_extremes()
    ensures
        forall|mask: u8| mask < 16 ==> #[trigger] sum_cents(combination_of(mask)) <= 41,
        sum_cents(combination_of(0)) == 0,
        sum_cents(combination_of(15)) == 41,
{
    assert forall|mask: u8| mask < 16 implies #[trigger] sum_cents(combination_of(mask)) <= 41 by {
        lemma_combination_shape(mask);
    }
    lemma_enumeration_ends();
    lemma_catalog_value();
}

} // verus!
