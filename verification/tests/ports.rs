use std::collections::HashSet;

use fosipcore::video::ports::{PortPool, DEFAULT_BASE, DEFAULT_COUNT};

#[test]
fn sequential_alloc_walks_forward() {
    let base = 30_000;
    let mut pool = PortPool::new(base, 100);
    assert_eq!(pool.allocate(|_| true), Some(base));
    assert_eq!(pool.allocate(|_| true), Some(base + 1));
    assert_eq!(pool.allocate(|_| true), Some(base + 2));
    assert_eq!(pool.in_use_count(), 3);
}

#[test]
fn exhaustion_returns_none_then_release_allows() {
    let base = 30_000;
    let mut pool = PortPool::new(base, 3);
    assert_eq!(pool.allocate(|_| true), Some(base));
    assert_eq!(pool.allocate(|_| true), Some(base + 1));
    assert_eq!(pool.allocate(|_| true), Some(base + 2));
    // All three are in use.
    assert_eq!(pool.allocate(|_| true), None);

    pool.release(base);
    // The walk comes round to the port that was given back.
    assert_eq!(pool.allocate(|_| true), Some(base));
    assert_eq!(pool.in_use_count(), 3);
}

#[test]
fn bind_retry_skips_externally_bound_port() {
    let base = 30_000;
    let mut pool = PortPool::new(base, 100);
    let port = pool.allocate(|p| p != base).expect("should skip occupied port");
    assert_eq!(port, base + 1);
    assert_eq!(pool.in_use_count(), 1);
}

#[test]
fn release_shrinks_in_use_set() {
    let mut pool = PortPool::new(30_000, 10);
    let a = pool.allocate(|_| true).expect("allocate a");
    let b = pool.allocate(|_| true).expect("allocate b");
    assert_eq!(*pool.in_use(), HashSet::from([a, b]));

    pool.release(a);
    assert_eq!(*pool.in_use(), HashSet::from([b]));
    pool.release(b);
    assert_eq!(pool.in_use_count(), 0);
    // A port that is not handed out can be given back all the same.
    pool.release(b);
    assert_eq!(pool.in_use_count(), 0);
}

#[test]
fn range_reports_bounds() {
    let pool = PortPool::new(20000, 6000);
    assert_eq!(pool.range(), (20000, 25999));
    assert_eq!(PortPool::new(65_000, 6000).range(), (65_000, 65_535));
    assert_eq!(PortPool::new(7, 0).range(), (7, 7));
}

#[test]
fn nothing_that_can_be_bound() {
    let mut pool = PortPool::new(30_000, 4);
    assert_eq!(pool.allocate(|_| false), None);
    assert_eq!(pool.in_use_count(), 0);
    assert_eq!(pool.allocate(|_| true), Some(30_000));
}

#[test]
fn candidates_stay_in_the_range() {
    let mut pool = PortPool::new(65_534, 4);
    assert_eq!(pool.range(), (65_534, 65_535));
    assert_eq!(pool.allocate(|_| true), Some(65_534));
    assert_eq!(pool.allocate(|_| true), Some(65_535));
    assert_eq!(pool.allocate(|_| true), None);
    let mut pool = PortPool::new(65_535, 2);
    assert_eq!(pool.range(), (65_535, 65_535));
    assert_eq!(pool.allocate(|_| true), Some(65_535));
    assert_eq!(pool.allocate(|_| true), None);
    let mut pool = PortPool::new(0, 65_535);
    assert_eq!(pool.range(), (0, 65_534));
    assert_eq!(pool.allocate(|p| p > 3), Some(4));
}

#[test]
fn a_free_port_is_found_however_long_the_pool_runs() {
    let mut pool = PortPool::new(20_000, 3);
    let a = pool.allocate(|_| true).unwrap();
    let b = pool.allocate(|_| true).unwrap();
    assert_eq!((a, b), (20_000, 20_001));
    for _ in 0..70_000 {
        let p = pool.allocate(|_| true);
        assert_eq!(p, Some(20_002));
        pool.release(20_002);
    }
    assert_eq!(pool.in_use_count(), 2);
}

#[test]
fn ports_are_handed_out_once_until_given_back() {
    let mut pool = PortPool::new(100, 50);
    let mut seen = HashSet::new();
    while let Some(p) = pool.allocate(|_| true) {
        assert!(seen.insert(p));
        assert!((100..150).contains(&p));
    }
    assert_eq!(seen.len(), 50);
}

#[test]
fn pools_from_settings() {
    assert_eq!(PortPool::from_env(None, None).range(), (DEFAULT_BASE, DEFAULT_BASE + DEFAULT_COUNT - 1));
    assert_eq!(PortPool::from_env(Some("100"), Some("10")).range(), (100, 109));
    assert_eq!(PortPool::from_env(Some("x"), Some("0")).range(), (DEFAULT_BASE, DEFAULT_BASE));
}
