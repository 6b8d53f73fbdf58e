//! Conditions: a threshold and the direction in which the price has to cross it.

use crate::price::Price;
use vstd::prelude::*;

verus! {

/// A condition that a subscriber registered.
#[derive(Clone, Copy, PartialEq, Eq, Structural, Debug)]
pub enum Trigger {
    /// Fires when the price is at or below the threshold.
    Lower(Price),
    /// Fires when the price is at or above the threshold.
    Higher(Price),
}

impl Trigger {
    /// The key of the threshold.
    pub open spec fn threshold(self) -> int {
        match self {
            Trigger::Lower(p) => p@,
            Trigger::Higher(p) => p@,
        }
    }

    /// Whether the condition fires at a price with the given key.
    pub open spec fn fires(self, price: int) -> bool {
        match self {
            Trigger::Lower(p) => price <= p@,
            Trigger::Higher(p) => price >= p@,
        }
    }

    /// The order in which a subscriber's conditions are kept: by threshold,
    /// and at one threshold `Lower` before `Higher`.
    pub open spec fn precedes(self, other: Trigger) -> bool {
        ||| self.threshold() < other.threshold()
        ||| (self.threshold() == other.threshold() && self is Lower && other is Higher)
    }

    /// The condition of the same direction at another threshold.
    pub open spec fn with_threshold(self, price: Price) -> Trigger {
        match self {
            Trigger::Lower(_) => Trigger::Lower(price),
            Trigger::Higher(_) => Trigger::Higher(price),
        }
    }

    /// Replaces the threshold and keeps the direction.
    pub fn set(&mut self, price: Price)
        ensures
            *final(self) == old(self).with_threshold(price),
    {
        match self {
            Trigger::Lower(x) => {
                *x = price;
            },
            Trigger::Higher(x) => {
                *x = price;
            },
        }
    }

    /// The threshold.
    pub fn price(&self) -> (p: Price)
        ensures
            p@ == self.threshold(),
    {
        match self {
            Trigger::Lower(x) => *x,
            Trigger::Higher(x) => *x,
        }
    }

    /// Whether the condition fires at `price`.
    pub fn matches(&self, price: Price) -> (fired: bool)
        ensures
            fired == self.fires(price@),
    {
        match self {
            Trigger::Lower(x) => price.key() <= x.key(),
            Trigger::Higher(x) => price.key() >= x.key(),
        }
    }

    /// Whether this condition comes before `other` in a subscriber's list.
    pub fn before(&self, other: &Trigger) -> (b: bool)
        ensures
            b == self.precedes(*other),
    {
        let mine: i64 = self.price().key();
        let theirs: i64 = other.price().key();
        if mine < theirs {
            true
        } else if mine == theirs {
            match (self, other) {
                (Trigger::Lower(_), Trigger::Higher(_)) => true,
                _ => false,
            }
        } else {
            false
        }
    }

    /// Of two conditions, exactly one of these holds: the first precedes the
    /// second, they are equal, or the second precedes the first.
    pub proof fn lemma_total(self, other: Trigger)
        ensures
            self.precedes(other) || self == other || other.precedes(self),
            !(self.precedes(other) && other.precedes(self)),
            !self.precedes(self),
    {
        if self.threshold() == other.threshold() {
            self.threshold_price().lemma_same_key(other.threshold_price());
        }
    }

    /// The order is transitive.
    pub proof fn lemma_transitive(self, middle: Trigger, other: Trigger)
        requires
            self.precedes(middle),
            middle.precedes(other),
        ensures
            self.precedes(other),
    {
    }

    /// A condition fires at its own threshold, whatever its direction.
    pub proof fn lemma_fires_at_threshold(self)
        ensures
            self.fires(self.threshold()),
    {
    }

    /// The threshold as a price.
    pub open spec fn threshold_price(self) -> Price {
        match self {
            Trigger::Lower(p) => p,
            Trigger::Higher(p) => p,
        }
    }
}

/// What a removal picks out of a subscriber's conditions.
#[derive(Clone, Copy, PartialEq, Eq, Structural, Debug)]
pub enum Selector {
    /// The one condition with this direction and threshold.
    Exact(Trigger),
    /// Every condition at this threshold, whatever its direction.
    Threshold(Price),
}

impl Selector {
    /// Whether the selector picks a condition.
    pub open spec fn selects(self, condition: Trigger) -> bool {
        match self {
            Selector::Exact(t) => condition == t,
            Selector::Threshold(p) => condition.threshold() == p@,
        }
    }

    /// Whether the selector picks `condition`.
    pub fn picks(&self, condition: &Trigger) -> (b: bool)
        ensures
            b == self.selects(*condition),
    {
        match self {
            Selector::Exact(t) => *condition == *t,
            Selector::Threshold(p) => condition.price().key() == p.key(),
        }
    }
}

} // verus!
