use fixed_pool::FixedPool;
use fixed_pool::NoopReset;
use fixed_pool::PoolBorrow;
use fixed_pool::ZeroReset;

#[test]
fn literal_scenario() {
    // Pool of 3 integers [1, 2, 3] with the no-op default reset policy.
    let mut pool: FixedPool<i32> = FixedPool::new(vec![1, 2, 3]);

    let a = pool.pull().expect("first claim");
    let b = pool.pull().expect("second claim");
    let c = pool.pull().expect("third claim");

    // Three handles with distinct indices drawn from {0, 1, 2}.
    assert!(a.index() < 3 && b.index() < 3 && c.index() < 3);
    assert_ne!(a.index(), b.index());
    assert_ne!(a.index(), c.index());
    assert_ne!(b.index(), c.index());

    // Fourth claim while all three are outstanding: none.
    assert!(pool.pull().is_none());

    // Drop the handle holding value 2; the next claim may reuse that slot and
    // the no-op reset preserves the value.
    assert_eq!(*b.value(), 2);
    let freed = b.index();
    pool.release(b);
    let d = pool.pull().expect("claim after release");
    assert_eq!(d.index(), freed);
    assert_eq!(*d.value(), 2);

    pool.release(a);
    pool.release(c);
    pool.release(d);
}

#[test]
fn capacity_bound() {
    let mut pool: FixedPool<u32> = FixedPool::new(vec![0; 5]);
    let mut live: Vec<PoolBorrow<u32>> = Vec::new();
    for _ in 0..5 {
        live.push(pool.pull().expect("claim within capacity"));
    }
    // The (N+1)-th concurrent claim attempt while N are outstanding: none.
    assert!(pool.pull().is_none());
    for handle in live {
        pool.release(handle);
    }
}

#[test]
fn release_frees_capacity() {
    let mut pool: FixedPool<u8> = FixedPool::new(vec![9, 8]);
    let a = pool.pull().expect("first claim");
    let b = pool.pull().expect("second claim");
    assert!(pool.pull().is_none());

    let freed = a.index();
    pool.release(a);
    let c = pool.pull().expect("claim after release");
    assert_eq!(c.index(), freed);

    pool.release(b);
    pool.release(c);
}

#[test]
fn index_uniqueness_across_words() {
    // 130 slots: the occupancy bitset spans three words.
    let n: usize = 130;
    let mut pool: FixedPool<usize> = FixedPool::new((0..n).collect());
    let mut live: Vec<PoolBorrow<usize>> = Vec::new();
    let mut seen = vec![false; n];
    for _ in 0..n {
        let handle = pool.pull().expect("claim within capacity");
        assert!(handle.index() < n);
        assert!(!seen[handle.index()], "index claimed twice while live");
        seen[handle.index()] = true;
        live.push(handle);
    }
    // Exactly n claims succeed in total; every further attempt reports none.
    assert!(pool.pull().is_none());
    assert!(seen.iter().all(|&s| s));
    for handle in live {
        pool.release(handle);
    }
    // After releasing everything, a full round of claims succeeds again.
    for _ in 0..n {
        assert!(pool.pull().is_some());
    }
}

#[test]
fn first_fit_scan_order() {
    let mut pool: FixedPool<char> = FixedPool::new(vec!['x', 'y', 'z']);
    let a = pool.pull().expect("claim");
    let b = pool.pull().expect("claim");
    let c = pool.pull().expect("claim");
    assert_eq!(a.index(), 0);
    assert_eq!(b.index(), 1);
    assert_eq!(c.index(), 2);

    // Free the middle slot: the next claim takes the lowest free index.
    pool.release(b);
    let d = pool.pull().expect("claim");
    assert_eq!(d.index(), 1);
    assert_eq!(*d.value(), 'y');
}

#[test]
fn reset_applied_exactly_once() {
    // A resetting policy: claim, mutate, release, re-claim — the re-claimed
    // value is the reset state, not the pre-release mutated state.
    let mut pool: FixedPool<u64, ZeroReset> = FixedPool::new(vec![7]);
    let mut a = pool.pull().expect("claim");
    assert_eq!(*a.value(), 7);
    let prev = a.replace(42);
    assert_eq!(prev, 7);
    assert_eq!(*a.value(), 42);
    pool.release(a);

    let b = pool.pull().expect("claim after release");
    assert_eq!(*b.value(), 0);
    pool.release(b);
}

#[test]
fn noop_reset_preserves_value() {
    let mut pool: FixedPool<u64, NoopReset> = FixedPool::new(vec![5]);
    let mut a = pool.pull().expect("claim");
    a.replace(11);
    pool.release(a);
    let b = pool.pull().expect("claim after release");
    assert_eq!(*b.value(), 11);
    pool.release(b);
}

#[test]
fn zero_element_pool_always_exhausted() {
    let mut pool: FixedPool<String> = FixedPool::new(Vec::new());
    assert!(pool.pull().is_none());
    assert!(pool.pull().is_none());
}

#[test]
fn one_element_pool() {
    let mut pool: FixedPool<i64> = FixedPool::new(vec![-3]);
    let a = pool.pull().expect("claim");
    assert_eq!(a.index(), 0);
    assert_eq!(*a.value(), -3);
    // A second concurrent attempt while the one slot is held: none.
    assert!(pool.pull().is_none());
    pool.release(a);
    let b = pool.pull().expect("claim after release");
    assert_eq!(b.index(), 0);
    pool.release(b);
}

#[test]
fn handle_value_read_and_write() {
    let mut pool: FixedPool<Vec<u8>> = FixedPool::new(vec![vec![1, 2], vec![3]]);
    let mut a = pool.pull().expect("claim");
    assert_eq!(a.value().len(), 2);
    let old = a.replace(vec![9, 9, 9]);
    assert_eq!(old, vec![1, 2]);
    assert_eq!(a.value().len(), 3);
    pool.release(a);
}

#[test]
fn exact_word_boundary_pool() {
    // 64 slots fill one word exactly: no padding bit, full capacity usable.
    let n: usize = 64;
    let mut pool: FixedPool<usize> = FixedPool::new((0..n).collect());
    let mut live: Vec<PoolBorrow<usize>> = Vec::new();
    for k in 0..n {
        let handle = pool.pull().expect("claim within capacity");
        assert_eq!(handle.index(), k);
        assert_eq!(*handle.value(), k);
        live.push(handle);
    }
    assert!(pool.pull().is_none());
    for handle in live {
        pool.release(handle);
    }
}
