use tabbycat_sync::request_manager::{Call, RequestManager, Verdict};

#[test]
fn backoff_monotonicity() {
    for n in 0..12u64 {
        let mut manager = RequestManager::new("secret");
        let (mut call, cool_down) = manager.begin();
        assert_eq!(cool_down, 0);
        let mut delays = vec![];
        for _ in 0..n {
            match manager.on_response(&mut call, 429) {
                Verdict::Retry(ms) => delays.push(ms),
                other => panic!("unexpected verdict {:?}", other),
            }
        }
        assert_eq!(manager.on_response(&mut call, 200), Verdict::Success);
        assert_eq!(call.attempts, n + 1);
        assert_eq!(delays.len() as u64, n);
        for k in 0..delays.len() {
            assert_eq!(delays[k], 500u64 << k);
            if k > 0 {
                assert!(delays[k - 1] <= delays[k]);
            }
        }
        let (_, next_cool_down) = manager.begin();
        assert_eq!(next_cool_down, 0);
    }
}

#[test]
fn cool_down_is_shared_and_kept() {
    let mut manager = RequestManager::new("k");
    assert_eq!(manager.authorization, "Token k");
    let (mut a, _) = manager.begin();
    assert_eq!(a, Call { wait_ms: 500, attempts: 0 });
    assert_eq!(manager.on_response(&mut a, 429), Verdict::Retry(500));
    assert_eq!(manager.backoff_secs, 0);
    assert_eq!(manager.on_response(&mut a, 429), Verdict::Retry(1000));
    assert_eq!(manager.backoff_secs, 1);
    assert_eq!(manager.on_response(&mut a, 429), Verdict::Retry(2000));
    assert_eq!(manager.backoff_secs, 2);
    assert_eq!(manager.on_response(&mut a, 429), Verdict::Retry(4000));
    assert_eq!(manager.backoff_secs, 4);
    // another call starts with the cool-down and does not lower it
    let (mut b, cool_down) = manager.begin();
    assert_eq!(cool_down, 4);
    assert_eq!(manager.on_response(&mut b, 429), Verdict::Retry(500));
    assert_eq!(manager.on_response(&mut b, 429), Verdict::Retry(1000));
    assert_eq!(manager.backoff_secs, 4);
    assert_eq!(manager.on_response(&mut b, 204), Verdict::Success);
    assert_eq!(manager.backoff_secs, 0);
}

#[test]
fn other_statuses_fail() {
    for status in [100u16, 199, 300, 301, 400, 401, 403, 404, 428, 430, 500, 503] {
        let mut manager = RequestManager::new("k");
        manager.backoff_secs = 3;
        let (mut call, _) = manager.begin();
        assert_eq!(manager.on_response(&mut call, status), Verdict::Failure);
        assert_eq!(manager.backoff_secs, 3);
        assert_eq!(call, Call { wait_ms: 500, attempts: 1 });
    }
    for status in [200u16, 201, 204, 299] {
        let mut manager = RequestManager::new("k");
        let (mut call, _) = manager.begin();
        assert_eq!(manager.on_response(&mut call, status), Verdict::Success);
    }
}

#[test]
fn delay_stops_growing_at_the_limit() {
    let mut manager = RequestManager::new("k");
    let mut call = Call { wait_ms: u64::MAX / 2 + 1, attempts: 70 };
    assert_eq!(manager.on_response(&mut call, 429), Verdict::Retry(u64::MAX / 2 + 1));
    assert_eq!(call.wait_ms, u64::MAX);
    assert_eq!(manager.on_response(&mut call, 429), Verdict::Retry(u64::MAX));
    assert_eq!(call.wait_ms, u64::MAX);
    assert_eq!(manager.backoff_secs, 18446744073709552);
}

#[test]
fn cool_down_is_in_whole_seconds() {
    for (wait_ms, secs) in [(949u64, 0u64), (950, 1), (1499, 1), (1500, 2), (2499, 2), (2500, 3)] {
        let mut manager = RequestManager::new("k");
        let mut call = Call { wait_ms, attempts: 0 };
        assert_eq!(manager.on_response(&mut call, 429), Verdict::Retry(wait_ms));
        assert_eq!(manager.backoff_secs, secs, "{}", wait_ms);
        assert_eq!(call, Call { wait_ms: 2 * wait_ms, attempts: 1 });
    }
}

#[test]
fn delays_double_until_they_cannot() {
    let mut manager = RequestManager::new("k");
    let (mut call, _) = manager.begin();
    let mut last = 0u64;
    for k in 0..70u32 {
        let verdict = manager.on_response(&mut call, 429);
        let expected = if k <= 55 { 500u64 << k } else { u64::MAX };
        assert_eq!(verdict, Verdict::Retry(expected), "{}", k);
        assert!(last <= expected);
        last = expected;
    }
    assert_eq!(manager.on_response(&mut call, 200), Verdict::Success);
    assert_eq!(call.attempts, 71);
    assert_eq!(manager.begin().1, 0);
}
