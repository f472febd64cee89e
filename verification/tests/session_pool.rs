use anytls::client::session_pool::{DEFAULT_IDLE_TIMEOUT, DEFAULT_MIN_IDLE};
use anytls::SessionPool;

const SECOND: u64 = 1_000_000_000;

#[test]
fn empty_pool_has_nothing_to_give() {
    let mut pool: SessionPool<&str> = SessionPool::new();
    assert_eq!(pool.get_idle_session(), None);
    assert_eq!(DEFAULT_MIN_IDLE, 1);
    assert_eq!(DEFAULT_IDLE_TIMEOUT, 60 * SECOND);
}

#[test]
fn most_recent_session_comes_first() {
    let mut pool = SessionPool::new();
    pool.add_idle_session("one", 1);
    pool.add_idle_session("three", 3);
    pool.add_idle_session("two", 2);
    assert_eq!(pool.get_idle_session(), Some("three"));
    assert_eq!(pool.get_idle_session(), Some("two"));
    assert_eq!(pool.get_idle_session(), Some("one"));
    assert_eq!(pool.get_idle_session(), None);
}

#[test]
fn same_sequence_number_replaces() {
    let mut pool = SessionPool::new();
    pool.add_idle_session_at("old", 4, 0);
    pool.add_idle_session_at("new", 4, 1);
    assert_eq!(pool.get_idle_session(), Some("new"));
    assert_eq!(pool.get_idle_session(), None);
}

#[test]
fn cleanup_keeps_fresh_sessions() {
    let mut pool = SessionPool::new();
    for seq in 1..=8u64 {
        pool.add_idle_session_at(seq, seq, 10 * SECOND);
    }
    assert_eq!(pool.cleanup_expired_at(69 * SECOND), Vec::<u64>::new());
    let mut left = Vec::new();
    while let Some(s) = pool.get_idle_session() {
        left.push(s);
    }
    assert_eq!(left, vec![8, 7, 6, 5, 4, 3, 2, 1]);
}

#[test]
fn cleanup_keeps_min_idle_most_recent_sessions() {
    let mut pool = SessionPool::new();
    for seq in 1..=8u64 {
        pool.add_idle_session_at(seq, seq, 0);
    }
    assert_eq!(pool.cleanup_expired_at(60 * SECOND), vec![7, 6, 5, 4, 3, 2, 1]);
    let mut left = Vec::new();
    while let Some(s) = pool.get_idle_session() {
        left.push(s);
    }
    assert_eq!(left, vec![8]);
}

#[test]
fn cleanup_after_the_default_timeout_keeps_the_newest() {
    let mut pool = SessionPool::new();
    pool.add_idle_session_at("a", 1, 0);
    pool.add_idle_session_at("b", 2, 0);
    assert_eq!(pool.cleanup_expired_at(61 * SECOND), vec!["a"]);
    assert_eq!(pool.get_idle_session(), Some("b"));
    assert_eq!(pool.get_idle_session(), None);
}

#[test]
fn cleanup_counts_fresh_sessions_toward_the_minimum() {
    let mut pool = SessionPool::new();
    // The three most recent are fresh and already fill the minimum: every expired one leaves.
    for seq in 1..=5u64 {
        pool.add_idle_session_at(seq, seq, 0);
    }
    for seq in 6..=8u64 {
        pool.add_idle_session_at(seq, seq, 20 * SECOND);
    }
    assert_eq!(pool.cleanup_expired_at(60 * SECOND), vec![5, 4, 3, 2, 1]);
    let mut left = Vec::new();
    while let Some(s) = pool.get_idle_session() {
        left.push(s);
    }
    assert_eq!(left, vec![8, 7, 6]);
    // A second clean-up at the same moment changes nothing.
    let mut pool = SessionPool::new();
    for seq in 1..=8u64 {
        pool.add_idle_session_at(seq, seq, 0);
    }
    assert_eq!(pool.cleanup_expired_at(60 * SECOND).len(), 7);
    assert_eq!(pool.cleanup_expired_at(60 * SECOND), Vec::<u64>::new());
    let mut count = 0;
    while pool.get_idle_session().is_some() {
        count += 1;
    }
    assert_eq!(count, 1);
}

#[test]
fn cleanup_now_keeps_new_sessions() {
    let mut pool = SessionPool::new();
    pool.add_idle_session("a", 1);
    assert_eq!(pool.cleanup_expired(), Vec::<&str>::new());
    assert_eq!(pool.get_idle_session(), Some("a"));
}
