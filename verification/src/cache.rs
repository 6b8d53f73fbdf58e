//! The price cache: the last price seen, for how long it may be served, and
//! how often a fetch is tried before the cache gives up.

use crate::price::{is_positive_key, Price};
use vstd::prelude::*;

verus! {

/// For how many seconds after it was observed a price is served from the
/// cache.
pub const FRESHNESS_WINDOW: u64 = 60;

/// How many times in a row the price source is asked before the cache gives
/// up.
pub const MAX_ATTEMPTS: u32 = 10;

/// A price and the second at which it was observed.
#[derive(Clone, Copy, PartialEq, Eq, Structural, Debug)]
pub struct Observation {
    pub price: Price,
    pub at: u64,
}

/// What the cache's driver reports.
#[derive(Clone, Copy, PartialEq, Eq, Structural, Debug)]
pub enum Report {
    /// Somebody wants the price, at this second.
    Wanted { now: u64 },
    /// The price source answered with this price, at this second.
    Fetched { price: Price, now: u64 },
    /// The price source did not answer, or with something that is no price.
    Failed,
}

impl Report {
    /// The report of what the price source answered.
    pub open spec fn of_answer(answer: Option<Price>, now: u64) -> Report {
        match answer {
            Some(price) if is_positive_key(price@) => Report::Fetched { price, now },
            _ => Report::Failed,
        }
    }

    /// The report of what the price source answered at second `now`: a
    /// fetched price where the answer is a positive, finite price, and a
    /// failure where it is anything else or there was no answer.
    pub fn answered(answer: Option<Price>, now: u64) -> (report: Report)
        ensures
            report == Report::of_answer(answer, now),
    {
        match answer {
            Some(price) => {
                if price.is_positive() {
                    Report::Fetched { price, now }
                } else {
                    Report::Failed
                }
            },
            None => Report::Failed,
        }
    }
}

/// What the cache's driver has to do next.
#[derive(Clone, Copy, PartialEq, Eq, Structural, Debug)]
pub enum Step {
    /// Hand out this price.
    Ready(Price),
    /// Ask the price source, then report `Fetched` or `Failed`.
    Fetch,
    /// Tell the caller that there is no price to be had.
    GiveUp,
}

/// What the cache knows: the last observation, and how many times the price
/// source has been asked since a price was last wanted and not at hand.
pub struct Known {
    pub last: Option<Observation>,
    pub attempts: nat,
}

/// Whether an observation may still be served at second `now`.
pub open spec fn fresh(observation: Observation, now: u64) -> bool {
    observation.at <= now && now - observation.at < FRESHNESS_WINDOW
}

/// The cache's rule: what it knows after a report, and the next step.
///
/// A wanted price is served from the cache while the last observation is
/// fresh, and fetched otherwise. A fetched price replaces the observation
/// and is handed out. A failed fetch is tried again until the price source
/// has been asked `MAX_ATTEMPTS` times.
pub open spec fn next(known: Known, report: Report) -> (Known, Step) {
    match report {
        Report::Wanted { now } => match known.last {
            Some(observation) if fresh(observation, now) => (
                Known { last: known.last, attempts: 0 },
                Step::Ready(observation.price),
            ),
            _ => (Known { last: known.last, attempts: 1 }, Step::Fetch),
        },
        Report::Fetched { price, now } => (
            Known { last: Some(Observation { price, at: now }), attempts: 0 },
            Step::Ready(price),
        ),
        Report::Failed => if 0 < known.attempts < MAX_ATTEMPTS {
            (Known { last: known.last, attempts: known.attempts + 1 }, Step::Fetch)
        } else {
            (Known { last: known.last, attempts: 0 }, Step::GiveUp)
        },
    }
}

/// The last price seen and the count of fetches under way.
#[derive(Debug)]
pub struct PriceCache {
    last: Option<Observation>,
    attempts: u32,
}

impl View for PriceCache {
    type V = Known;

    closed spec fn view(&self) -> Known {
        Known { last: self.last, attempts: self.attempts as nat }
    }
}

impl PriceCache {
    #[verifier::type_invariant]
    closed spec fn bounded(self) -> bool {
        self.attempts <= MAX_ATTEMPTS
    }

    /// A cache that has seen no price.
    pub fn new() -> (cache: PriceCache)
        ensures
            cache@ == (Known { last: None, attempts: 0 }),
    {
        PriceCache { last: None, attempts: 0 }
    }

    /// The last observation, if there is one.
    pub fn last(&self) -> (last: Option<Observation>)
        ensures
            last == self@.last,
    {
        self.last
    }
}

/// Takes a report and says what to do next, by the cache's rule.
pub fn get(cache: &mut PriceCache, report: Report) -> (step: Step)
    ensures
        (final(cache)@, step) == next(old(cache)@, report),
{
    proof {
        use_type_invariant(&*cache);
    }
    match report {
        Report::Wanted { now } => {
            match cache.last {
                Some(observation) => {
                    if observation.at <= now && now - observation.at < FRESHNESS_WINDOW {
                        cache.attempts = 0;
                        return Step::Ready(observation.price);
                    }
                },
                None => {},
            }
            cache.attempts = 1;
            Step::Fetch
        },
        Report::Fetched { price, now } => {
            cache.last = Some(Observation { price, at: now });
            cache.attempts = 0;
            Step::Ready(price)
        },
        Report::Failed => {
            if 0 < cache.attempts && cache.attempts < MAX_ATTEMPTS {
                cache.attempts = cache.attempts + 1;
                Step::Fetch
            } else {
                cache.attempts = 0;
                Step::GiveUp
            }
        },
    }
}

/// Once a price was fetched, every request within the freshness window is
/// served from the cache, with no fetch and with that price; a request at
/// or after the end of the window is answered with a fetch.
pub proof fn lemma_fresh_price_served(known: Known, price: Price, at: u64, now: u64)
    ensures
        ({
            let after = next(known, Report::Fetched { price, now: at }).0;
            let (then, step) = next(after, Report::Wanted { now });
            if at <= now && now - at < FRESHNESS_WINDOW {
                step == Step::Ready(price) && then == after
            } else {
                step == Step::Fetch && then.last == after.last
            }
        }),
{
}

/// A fetch is only ever asked for while the price source has been asked at
/// most `MAX_ATTEMPTS` times, this fetch included, and each failure counts.
pub proof fn lemma_attempts_bounded(known: Known, report: Report)
    ensures
        ({
            let (then, step) = next(known, report);
            &&& step is Fetch ==> 1 <= then.attempts <= MAX_ATTEMPTS
            &&& !(step is Fetch) ==> then.attempts == 0
            &&& report is Failed && step is Fetch ==> then.attempts == known.attempts + 1
        }),
{
}

} // verus!
