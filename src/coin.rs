//! The coin catalog: four denominations in a fixed order.

use vstd::prelude::*;

verus! {

/// One of the four coin denominations.
///
/// The order of the variants is significant: a denomination's ordinal is the
/// bit that stands for it in a combination mask.
#[derive(Debug, Clone, Copy, PartialEq, Eq, Structural)]
pub enum Coin {
    Penny,
    Nickel,
    Dime,
    Quarter,
}

/// The value of a denomination in cents.
pub open spec fn cents(c: Coin) -> nat {
    match c {
        Coin::Penny => 1,
        Coin::Nickel => 5,
        Coin::Dime => 10,
        Coin::Quarter => 25,
    }
}

/// The position of a denomination in the catalog, which is also its bit in a mask.
pub open spec fn ordinal(c: Coin) -> u8 {
    match c {
        Coin::Penny => 0,
        Coin::Nickel => 1,
        Coin::Dime => 2,
        Coin::Quarter => 3,
    }
}

/// The catalog in canonical order.
pub open spec fn catalog() -> Seq<Coin> {
    seq![Coin::Penny, Coin::Nickel, Coin::Dime, Coin::Quarter]
}

impl Coin {
    /// All four denominations, in canonical order.
    pub fn all() -> (r: [Coin; 4])
        ensures
            r@ == catalog(),
    {
        let r = [Coin::Penny, Coin::Nickel, Coin::Dime, Coin::Quarter];
        assert(r@ =~= catalog());
        r
    }

    /// The value of this denomination in cents.
    pub fn value_in_cents(&self) -> (r: u8)
        ensures
            r as nat == cents(*self),
    {
        match self {
            Coin::Penny => 1,
            Coin::Nickel => 5,
            Coin::Dime => 10,
            Coin::Quarter => 25,
        }
    }
}

} // verus!
