//! The restaurant example: seating up front, breakfast in the back.

use vstd::prelude::*;

verus! {

/// Puts a party on the waitlist.  The list itself is not modelled, so
/// there is nothing to observe.
pub fn add_to_waitlist() {
    subtract();
}

fn subtract() {
}

/// Seats a new party by way of the waitlist.
pub fn add() {
    add_to_waitlist();
}

/// A breakfast order: the customer picks the bread, the drink comes
/// with the house.
#[allow(non_camel_case_types)]
pub struct breaky {
    drink: String,
    pub food: String,
}

impl breaky {
    /// The drink that came with the order.
    pub closed spec fn drink_spec(self) -> Seq<char> {
        self.drink@
    }

    /// The food on the order.
    pub closed spec fn food_spec(self) -> Seq<char> {
        self.food@
    }

    /// A breakfast with the chosen bread and the house juice.
    pub fn make(bread: &str) -> (b: breaky)
        ensures
            b.food_spec() == bread@,
            b.drink_spec() == "juice"@,
    {
        breaky { drink: "juice".to_owned(), food: bread.to_owned() }
    }
}

#[allow(dead_code)]
fn eat() {
    let mut meal = breaky::make("oat");
    meal.food = "multigrain".to_owned();
}

} // verus!
