use coins::{
    combination_from_mask, generate_all_combinations, generate_random_combination, total_value,
    Coin, COMBINATION_COUNT,
};

#[test]
fn test_coin_all_returns_four_coins() {
    let all_coins = Coin::all();
    assert_eq!(all_coins.len(), 4, "Should have exactly 4 coins");
}

#[test]
fn test_coin_all_has_correct_coins() {
    let all_coins = Coin::all();
    assert_eq!(all_coins[0], Coin::Penny);
    assert_eq!(all_coins[1], Coin::Nickel);
    assert_eq!(all_coins[2], Coin::Dime);
    assert_eq!(all_coins[3], Coin::Quarter);
}

#[test]
fn test_penny_value() {
    assert_eq!(Coin::Penny.value_in_cents(), 1);
}

#[test]
fn test_nickel_value() {
    assert_eq!(Coin::Nickel.value_in_cents(), 5);
}

#[test]
fn test_dime_value() {
    assert_eq!(Coin::Dime.value_in_cents(), 10);
}

#[test]
fn test_quarter_value() {
    assert_eq!(Coin::Quarter.value_in_cents(), 25);
}

#[test]
fn test_total_value_empty() {
    let empty: Vec<Coin> = vec![];
    assert_eq!(total_value(&empty), 0);
}

#[test]
fn test_total_value_single_coin() {
    let coins = vec![Coin::Quarter];
    assert_eq!(total_value(&coins), 25);
}

#[test]
fn test_total_value_multiple_coins() {
    let coins = vec![Coin::Quarter, Coin::Dime, Coin::Nickel, Coin::Penny];
    assert_eq!(total_value(&coins), 41);
}

#[test]
fn test_total_value_duplicate_coins() {
    let coins = vec![Coin::Nickel, Coin::Nickel];
    assert_eq!(total_value(&coins), 10);
}

#[test]
fn test_combinations_count() {
    let combinations = generate_all_combinations();
    assert_eq!(combinations.len(), 16, "Should generate 16 combinations");
}

#[test]
fn test_combinations_has_empty_set() {
    let combinations = generate_all_combinations();
    assert!(
        combinations[0].is_empty(),
        "First combination should be empty set"
    );
}

#[test]
fn test_combinations_has_full_set() {
    let combinations = generate_all_combinations();
    assert_eq!(
        combinations[15].len(),
        4,
        "Last combination should have all 4 coins"
    );
}

#[test]
fn test_specific_combination_penny_only() {
    let combinations = generate_all_combinations();
    let expected = vec![Coin::Penny];
    assert_eq!(combinations[1], expected);
}

#[test]
fn test_specific_combination_nickel_only() {
    let combinations = generate_all_combinations();
    let expected = vec![Coin::Nickel];
    assert_eq!(combinations[2], expected);
}

#[test]
fn test_specific_combination_penny_and_dime() {
    let combinations = generate_all_combinations();
    let expected = vec![Coin::Penny, Coin::Dime];
    assert_eq!(combinations[5], expected);
}

#[test]
fn test_all_combinations_unique() {
    let combinations = generate_all_combinations();
    for i in 0..combinations.len() {
        for j in (i + 1)..combinations.len() {
            assert_ne!(
                format!("{:?}", combinations[i]),
                format!("{:?}", combinations[j]),
                "Combinations {} and {} should be different",
                i,
                j
            );
        }
    }
}

#[test]
fn test_combination_values_range() {
    let combinations = generate_all_combinations();
    let min_value = combinations.iter().map(|c| total_value(c)).min().unwrap();
    let max_value = combinations.iter().map(|c| total_value(c)).max().unwrap();

    assert_eq!(min_value, 0, "Minimum value should be 0 (empty set)");
    assert_eq!(max_value, 41, "Maximum value should be 41 (all coins)");
}

#[test]
fn test_all_single_coin_combinations_exist() {
    let combinations = generate_all_combinations();
    let single_coin_combos: Vec<_> = combinations.iter().filter(|c| c.len() == 1).collect();

    assert_eq!(
        single_coin_combos.len(),
        4,
        "Should have 4 single-coin combinations"
    );
}

#[test]
fn test_coin_copy_trait() {
    let coin1 = Coin::Penny;
    let coin2 = coin1;
    let coin3 = coin1;

    assert_eq!(coin1, coin2);
    assert_eq!(coin2, coin3);
}

#[test]
fn test_random_combination_length_valid() {
    for _ in 0..20 {
        let combination = generate_random_combination();
        assert!(
            combination.len() <= 4,
            "Random combination should have at most 4 coins"
        );
    }
}

#[test]
fn test_random_combination_coins_are_valid() {
    for _ in 0..20 {
        let combination = generate_random_combination();
        for coin in &combination {
            assert!(
                matches!(coin, Coin::Penny | Coin::Nickel | Coin::Dime | Coin::Quarter),
                "All coins should be valid coin types"
            );
        }
    }
}

#[test]
fn test_random_combination_value_in_range() {
    for _ in 0..20 {
        let combination = generate_random_combination();
        let value = total_value(&combination);
        assert!(
            value <= 41,
            "Random combination value should be at most 41 cents"
        );
    }
}

#[test]
fn test_random_combination_produces_variety() {
    let mut combinations = Vec::new();
    for _ in 0..50 {
        let combination = generate_random_combination();
        combinations.push(format!("{:?}", combination));
    }

    combinations.sort();
    combinations.dedup();

    assert!(
        combinations.len() >= 2,
        "Should generate variety in random combinations"
    );
}

#[test]
fn mask_decoding_follows_bit_positions() {
    assert_eq!(combination_from_mask(0), Vec::<Coin>::new());
    assert_eq!(combination_from_mask(5), vec![Coin::Penny, Coin::Dime]);
    assert_eq!(combination_from_mask(8), vec![Coin::Quarter]);
    assert_eq!(combination_from_mask(10), vec![Coin::Nickel, Coin::Quarter]);
    assert_eq!(
        combination_from_mask(15),
        vec![Coin::Penny, Coin::Nickel, Coin::Dime, Coin::Quarter]
    );
}

#[test]
fn mask_decoding_ignores_bits_beyond_the_catalog() {
    assert_eq!(combination_from_mask(16), Vec::<Coin>::new());
    assert_eq!(combination_from_mask(0xF3), vec![Coin::Penny, Coin::Nickel]);
}

#[test]
fn enumeration_matches_mask_decoding() {
    let combinations = generate_all_combinations();
    assert_eq!(combinations.len(), COMBINATION_COUNT as usize);
    for (i, c) in combinations.iter().enumerate() {
        assert_eq!(*c, combination_from_mask(i as u8));
    }
    assert_eq!(
        combinations[15],
        vec![Coin::Penny, Coin::Nickel, Coin::Dime, Coin::Quarter]
    );
}

#[test]
fn enumerated_combinations_have_no_repeats_and_ascend() {
    for c in generate_all_combinations() {
        for w in c.windows(2) {
            assert!((w[0] as u8) < (w[1] as u8));
        }
    }
}

#[test]
fn total_value_ignores_order_and_adds_up() {
    let a = vec![Coin::Quarter, Coin::Penny];
    let b = vec![Coin::Dime, Coin::Nickel];
    let mut ab = a.clone();
    ab.extend_from_slice(&b);
    let mut ba = b.clone();
    ba.extend_from_slice(&a);
    assert_eq!(total_value(&ab), total_value(&a) + total_value(&b));
    assert_eq!(total_value(&ab), 41);
    assert_eq!(total_value(&ba), 41);
    assert_eq!(
        total_value(&[Coin::Penny, Coin::Nickel, Coin::Dime, Coin::Quarter]),
        total_value(&[Coin::Quarter, Coin::Dime, Coin::Nickel, Coin::Penny])
    );
}

#[test]
fn enumerated_values_per_mask() {
    let expected: [u32; 16] = [0, 1, 5, 6, 10, 11, 15, 16, 25, 26, 30, 31, 35, 36, 40, 41];
    let combinations = generate_all_combinations();
    for i in 0..16 {
        assert_eq!(total_value(&combinations[i]), expected[i]);
    }
}

#[test]
fn random_combination_is_one_of_the_enumerated() {
    let all = generate_all_combinations();
    for _ in 0..40 {
        let c = generate_random_combination();
        assert!(all.contains(&c));
    }
}
