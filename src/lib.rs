//! Combinations of the four coin denominations: enumeration of the power set,
//! random sampling of one subset, and the value of a combination in cents.

pub mod coin;
pub mod combination;
pub mod web;

pub use coin::Coin;
pub use combination::{
    combination_from_mask, generate_all_combinations, generate_random_combination, total_value,
    COMBINATION_COUNT,
};
pub use web::{
    get_all_combinations, get_random_combination, health_check, AllCombinationsResponse, AppState,
    CombinationDetail, HealthResponse, RandomResponse,
};
