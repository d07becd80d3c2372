//! The payloads of the HTTP surface, and the functions that compute them.
//! Routing, JSON encoding and serving are left to the server around the library.

use vstd::prelude::*;

use crate::coin::Coin;
use crate::combination::{
    combination_of, generate_all_combinations,
    generate_random_combination, lemma_combination_shape, sum_cents, total_value,
    COMBINATION_COUNT,
};

verus! {

/// Payload of `GET /random`: one random combination and its value.
pub struct RandomResponse {
    pub coins: Vec<Coin>,
    pub value: u32,
}

/// Payload of `GET /all`: every combination, listed by mask.
pub struct AllCombinationsResponse {
    pub total_combinations: usize,
    pub combinations: Vec<CombinationDetail>,
}

/// One entry of the `GET /all` listing.
pub struct CombinationDetail {
    pub index: usize,
    pub coins: Vec<Coin>,
    pub value: u32,
}

/// Payload of `GET /health`.
pub struct HealthResponse {
    pub status: String,
    pub service: String,
    pub version: String,
}

/// Context shared by the handlers. It holds no live fields: every request is
/// computed afresh.
#[derive(Clone)]
pub struct AppState {}

/// `d` is the listing entry for mask `i`: its index, its coins and their value.
pub open spec fn is_detail_for(d: CombinationDetail, i: int) -> bool {
    &&& d.index == i
    &&& d.coins@ == combination_of(i as u8)
    &&& d.value == sum_cents(combination_of(i as u8))
}

/// `r` lists all sixteen combinations, entry `i` being the one for mask `i`.
pub open spec fn is_full_listing(r: AllCombinationsResponse) -> bool {
    &&& r.total_combinations == COMBINATION_COUNT
    &&& r.combinations@.len() == COMBINATION_COUNT
    &&& forall|i: int| 0 <= i < COMBINATION_COUNT ==> is_detail_for(#[trigger] r.combinations@[i], i)
}

/// The payload of `GET /random`: a combination drawn uniformly at random, with
/// its value, which always equals the sum of the values of its coins.
pub fn get_random_combination() -> (r: RandomResponse)
    ensures
        exists|mask: u8| mask < COMBINATION_COUNT && r.coins@ == #[trigger] combination_of(mask),
        r.value == sum_cents(r.coins@),
        r.value <= 41,
        r.coins@.len() <= 4,
{
    let combination = generate_random_combination();
    let value = total_value(combination.as_slice());
    RandomResponse { coins: combination, value }
}

/// The payload of `GET /all`: all sixteen combinations in mask order, each
/// with its index and value.
pub fn get_all_combinations() -> (r: AllCombinationsResponse)
    ensures
        is_full_listing(r),
{
    let all_combinations = generate_all_combinations();
    let mut combinations: Vec<CombinationDetail> = Vec::new();
    for index in 0..all_combinations.len()
        invariant
            all_combinations@.len() == COMBINATION_COUNT,
            forall|i: int|
                0 <= i < all_combinations@.len() ==> #[trigger] all_combinations@[i]@
                    == combination_of(i as u8),
            combinations@.len() == index,
            forall|i: int| 0 <= i < index ==> is_detail_for(#[trigger] combinations@[i], i),
    {
        let coins = all_combinations[index].clone();
        assert(coins@ =~= all_combinations@[index as int]@);
        proof {
            lemma_combination_shape(index as u8);
        }
        let value = total_value(coins.as_slice());
        combinations.push(CombinationDetail { index, coins, value });
    }
    AllCombinationsResponse { total_combinations: combinations.len(), combinations }
}

/// The payload of `GET /health` for a service of the given version.
pub fn health_check(version: &str) -> (r: HealthResponse)
    ensures
        r.status@ == "healthy"@,
        r.service@ == "coins-api"@,
        r.version@ == version@,
{
    HealthResponse {
        status: "healthy".to_owned(),
        service: "coins-api".to_owned(),
        version: version.to_owned(),
    }
}

/// Two listings of all combinations agree entry for entry: the listing is the
/// same on every request.
pub proof fn lemma_listing_idempotent(a: AllCombinationsResponse, b: AllCombinationsResponse)
    requires
        is_full_listing(a),
        is_full_listing(b),
    ensures
        a.total_combinations == b.total_combinations,
        a.combinations@.len() == b.combinations@.len(),
        forall|i: int|
            0 <= i < a.combinations@.len() ==> {
                &&& (#[trigger] a.combinations@[i]).index == b.combinations@[i].index
                &&& a.combinations@[i].coins@ == b.combinations@[i].coins@
                &&& a.combinations@[i].value == b.combinations@[i].value
            },
{
    assert forall|i: int| 0 <= i < a.combinations@.len() implies {
        &&& (#[trigger] a.combinations@[i]).index == b.combinations@[i].index
        &&& a.combinations@[i].coins@ == b.combinations@[i].coins@
        &&& a.combinations@[i].value == b.combinations@[i].value
    } by {
        assert(is_detail_for(a.combinations@[i], i));
        assert(is_detail_for(b.combinations@[i], i));
    }
}

} // verus!
