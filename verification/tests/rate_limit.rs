use relay::http::routes::mcp::admit_test_connect;
use relay::ids::UserId;
use relay::mcp::limits::{MCP_TEST_CONNECT_BUCKETS_MAX, MCP_TEST_CONNECT_PER_MIN};
use relay::mcp::rate_limit::{TestConnectRateLimiter, TEST_CONNECT_WINDOW};

const SECOND: u64 = 1_000_000_000;

#[test]
fn admits_up_to_cap_then_rejects() {
    let now: u64 = 1_000 * SECOND;
    let mut rl = TestConnectRateLimiter::new();
    let user = UserId::new();
    for _ in 0..MCP_TEST_CONNECT_PER_MIN {
        assert!(rl.try_admit(user, now));
    }
    assert!(!rl.try_admit(user, now));
}

#[test]
fn window_slides() {
    let mut now: u64 = 1_000 * SECOND;
    let mut rl = TestConnectRateLimiter::new();
    let user = UserId::new();
    for _ in 0..MCP_TEST_CONNECT_PER_MIN {
        assert!(rl.try_admit(user, now));
    }
    assert!(!rl.try_admit(user, now));
    now += 61 * SECOND;
    assert!(rl.try_admit(user, now));
}

#[test]
fn per_user_independence() {
    let now: u64 = 1_000 * SECOND;
    let mut rl = TestConnectRateLimiter::new();
    let a = UserId::new();
    let b = UserId::new();
    for _ in 0..MCP_TEST_CONNECT_PER_MIN {
        assert!(rl.try_admit(a, now));
    }
    assert!(!rl.try_admit(a, now));
    assert!(rl.try_admit(b, now));
}

#[test]
fn no_more_than_the_cap_pass_within_a_minute() {
    let mut rl = TestConnectRateLimiter::new();
    let user = UserId::new();
    let mut passed: Vec<u64> = Vec::new();
    for step in 0..200u64 {
        let now = 3 * step * SECOND;
        if rl.try_admit(user, now) {
            passed.push(now);
        }
    }
    assert!(passed.len() > MCP_TEST_CONNECT_PER_MIN);
    for k in MCP_TEST_CONNECT_PER_MIN..passed.len() {
        assert!(passed[k - MCP_TEST_CONNECT_PER_MIN] + TEST_CONNECT_WINDOW < passed[k]);
    }
}

#[test]
fn a_call_exactly_a_minute_old_still_counts() {
    let mut rl = TestConnectRateLimiter::new();
    let user = UserId::new();
    for _ in 0..MCP_TEST_CONNECT_PER_MIN {
        assert!(rl.try_admit(user, 0));
    }
    assert!(!rl.try_admit(user, TEST_CONNECT_WINDOW));
    assert!(rl.try_admit(user, TEST_CONNECT_WINDOW + 1));
}

#[test]
fn the_user_who_called_longest_ago_is_forgotten_first() {
    let mut rl = TestConnectRateLimiter::new();
    let first = UserId::new();
    for _ in 0..MCP_TEST_CONNECT_PER_MIN {
        assert!(rl.try_admit(first, 1));
    }
    let second = UserId::new();
    for _ in 0..MCP_TEST_CONNECT_PER_MIN {
        assert!(rl.try_admit(second, 2));
    }
    for _ in 2..MCP_TEST_CONNECT_BUCKETS_MAX {
        assert!(rl.try_admit(UserId::new(), 3));
    }
    assert!(!rl.try_admit(second, 4));
    assert!(rl.try_admit(UserId::new(), 5));
    assert!(!rl.try_admit(second, 6));
    assert!(rl.try_admit(first, 6));
}

#[test]
fn a_test_over_the_limit_is_answered_with_429() {
    let mut rl = TestConnectRateLimiter::new();
    let user = UserId::new();
    for _ in 0..MCP_TEST_CONNECT_PER_MIN {
        assert!(admit_test_connect(&mut rl, user, 9).is_ok());
    }
    let answer = admit_test_connect(&mut rl, user, 9).expect_err("over the limit").into_response();
    assert_eq!((answer.status, answer.error.as_str()), (429, "too many requests"));
}

#[test]
fn a_call_passes_while_fewer_than_the_cap_did_within_the_minute() {
    let mut rl = TestConnectRateLimiter::new();
    let user = UserId::new();
    let mut passed: Vec<u64> = Vec::new();
    for i in 0..200u64 {
        let now = 100 * SECOND + i * 2 * SECOND;
        assert!(rl.try_admit(UserId(9), now) || i >= 10);
        let recent = passed.iter().filter(|t| **t + TEST_CONNECT_WINDOW >= now).count();
        let admitted = rl.try_admit(user, now);
        assert_eq!(admitted, recent < MCP_TEST_CONNECT_PER_MIN);
        if admitted {
            passed.push(now);
        }
    }
    for w in passed.windows(MCP_TEST_CONNECT_PER_MIN + 1) {
        assert!(w[0] + TEST_CONNECT_WINDOW < w[MCP_TEST_CONNECT_PER_MIN]);
    }
}

#[test]
fn a_call_that_was_turned_away_leaves_no_trace() {
    let (mut with, mut without) = (TestConnectRateLimiter::new(), TestConnectRateLimiter::new());
    let user = UserId::new();
    for _ in 0..MCP_TEST_CONNECT_PER_MIN {
        assert!(with.try_admit(user, SECOND) && without.try_admit(user, SECOND));
    }
    assert!(!with.try_admit(user, 50 * SECOND));
    let later = SECOND + TEST_CONNECT_WINDOW + 1;
    for _ in 0..=MCP_TEST_CONNECT_PER_MIN {
        assert_eq!(with.try_admit(user, later), without.try_admit(user, later));
    }
}
