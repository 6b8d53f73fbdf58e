use price_notifier::cache::{
    get, Observation, PriceCache, Report, Step, FRESHNESS_WINDOW, MAX_ATTEMPTS,
};
use price_notifier::price::Price;

fn price(x: f64) -> Price {
    Price::from_bits(x.to_bits()).expect("a number")
}

#[test]
fn the_limits() {
    assert_eq!(FRESHNESS_WINDOW, 60);
    assert_eq!(MAX_ATTEMPTS, 10);
}

#[test]
fn a_new_cache_has_to_fetch() {
    let mut cache = PriceCache::new();
    assert_eq!(cache.last(), None);
    assert_eq!(get(&mut cache, Report::Wanted { now: 0 }), Step::Fetch);
}

#[test]
fn a_fetched_price_is_handed_out_and_kept() {
    let mut cache = PriceCache::new();
    assert_eq!(get(&mut cache, Report::Wanted { now: 100 }), Step::Fetch);
    assert_eq!(
        get(&mut cache, Report::Fetched { price: price(4.5), now: 101 }),
        Step::Ready(price(4.5))
    );
    assert_eq!(cache.last(), Some(Observation { price: price(4.5), at: 101 }));
}

#[test]
fn two_requests_within_the_window_fetch_once() {
    let mut cache = PriceCache::new();
    let mut fetches = 0;
    for now in [1000, 1000, 1001, 1030, 1059] {
        let mut step = get(&mut cache, Report::Wanted { now });
        if step == Step::Fetch {
            fetches += 1;
            step = get(&mut cache, Report::Fetched { price: price(4.5), now });
        }
        assert_eq!(step, Step::Ready(price(4.5)));
    }
    assert_eq!(fetches, 1);
}

#[test]
fn a_request_after_the_window_fetches_again() {
    let mut cache = PriceCache::new();
    get(&mut cache, Report::Wanted { now: 1000 });
    get(&mut cache, Report::Fetched { price: price(4.5), now: 1000 });
    assert_eq!(get(&mut cache, Report::Wanted { now: 1059 }), Step::Ready(price(4.5)));
    assert_eq!(get(&mut cache, Report::Wanted { now: 1060 }), Step::Fetch);
    assert_eq!(
        get(&mut cache, Report::Fetched { price: price(4.75), now: 1061 }),
        Step::Ready(price(4.75))
    );
    assert_eq!(get(&mut cache, Report::Wanted { now: 1120 }), Step::Ready(price(4.75)));
    assert_eq!(get(&mut cache, Report::Wanted { now: 1121 }), Step::Fetch);
}

#[test]
fn a_clock_that_went_back_makes_the_price_stale() {
    let mut cache = PriceCache::new();
    get(&mut cache, Report::Fetched { price: price(4.5), now: 1000 });
    assert_eq!(get(&mut cache, Report::Wanted { now: 999 }), Step::Fetch);
}

#[test]
fn the_source_is_asked_ten_times_before_giving_up() {
    let mut cache = PriceCache::new();
    let mut step = get(&mut cache, Report::Wanted { now: 5 });
    let mut asked = 0;
    while step == Step::Fetch {
        asked += 1;
        step = get(&mut cache, Report::Failed);
    }
    assert_eq!(asked, 10);
    assert_eq!(step, Step::GiveUp);
    assert_eq!(cache.last(), None);
}

#[test]
fn a_late_success_ends_the_retries() {
    let mut cache = PriceCache::new();
    assert_eq!(get(&mut cache, Report::Wanted { now: 5 }), Step::Fetch);
    for _ in 0..9 {
        assert_eq!(get(&mut cache, Report::Failed), Step::Fetch);
    }
    assert_eq!(
        get(&mut cache, Report::Fetched { price: price(3.0), now: 6 }),
        Step::Ready(price(3.0))
    );
    assert_eq!(get(&mut cache, Report::Failed), Step::GiveUp);
}

#[test]
fn giving_up_keeps_the_stale_price_and_counts_anew() {
    let mut cache = PriceCache::new();
    get(&mut cache, Report::Fetched { price: price(4.5), now: 0 });
    assert_eq!(get(&mut cache, Report::Wanted { now: 60 }), Step::Fetch);
    for _ in 0..9 {
        assert_eq!(get(&mut cache, Report::Failed), Step::Fetch);
    }
    assert_eq!(get(&mut cache, Report::Failed), Step::GiveUp);
    assert_eq!(cache.last(), Some(Observation { price: price(4.5), at: 0 }));
    assert_eq!(get(&mut cache, Report::Wanted { now: 61 }), Step::Fetch);
    assert_eq!(get(&mut cache, Report::Failed), Step::Fetch);
}

#[test]
fn a_failure_that_nobody_waits_for_gives_up() {
    let mut cache = PriceCache::new();
    assert_eq!(get(&mut cache, Report::Failed), Step::GiveUp);
}

#[test]
fn only_a_positive_finite_answer_is_a_fetched_price() {
    assert_eq!(
        Report::answered(Some(price(4.5)), 7),
        Report::Fetched { price: price(4.5), now: 7 }
    );
    assert_eq!(
        Report::answered(Some(price(4.9e-324)), 7),
        Report::Fetched { price: price(4.9e-324), now: 7 }
    );
    assert_eq!(
        Report::answered(Some(price(f64::MAX)), 7),
        Report::Fetched { price: price(f64::MAX), now: 7 }
    );
    for x in [0.0, -0.0, -4.5, f64::INFINITY, f64::NEG_INFINITY] {
        assert_eq!(Report::answered(Some(price(x)), 7), Report::Failed);
    }
    assert_eq!(Report::answered(None, 7), Report::Failed);
    assert_eq!(Report::answered(Price::from_bits(f64::NAN.to_bits()), 7), Report::Failed);
}

#[test]
fn an_answer_that_is_no_price_counts_as_a_failed_attempt() {
    let mut cache = PriceCache::new();
    assert_eq!(get(&mut cache, Report::Wanted { now: 5 }), Step::Fetch);
    for x in [0.0, -1.0, f64::INFINITY] {
        assert_eq!(get(&mut cache, Report::answered(Some(price(x)), 5)), Step::Fetch);
    }
    assert_eq!(cache.last(), None);
    assert_eq!(get(&mut cache, Report::answered(Some(price(2.5)), 6)), Step::Ready(price(2.5)));
    assert_eq!(cache.last(), Some(Observation { price: price(2.5), at: 6 }));
}
