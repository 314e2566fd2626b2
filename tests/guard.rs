use qa_server::guard::AccessQueue;

#[test]
fn first_arrival_holds_at_once() {
    let mut q = AccessQueue::new();
    let a = q.arrive().unwrap();
    assert!(q.is_granted(a));
    let b = q.arrive().unwrap();
    assert!(!q.is_granted(b));
    assert_ne!(a, b);
}

#[test]
fn access_passes_in_arrival_order() {
    let mut q = AccessQueue::new();
    let t: Vec<u64> = (0..4).map(|_| q.arrive().unwrap()).collect();
    for i in 0..4 {
        for j in 0..4 {
            assert_eq!(q.is_granted(t[j]), i == j);
        }
        assert!(q.leave(t[i]));
    }
    for j in 0..4 {
        assert!(!q.is_granted(t[j]));
    }
}

#[test]
fn waiter_leaves_without_holding() {
    let mut q = AccessQueue::new();
    let a = q.arrive().unwrap();
    let b = q.arrive().unwrap();
    let c = q.arrive().unwrap();
    assert!(!q.leave(b));
    assert!(q.is_granted(a));
    assert!(q.leave(a));
    assert!(!q.is_granted(b));
    assert!(q.is_granted(c));
    assert!(!q.leave(b));
    assert!(q.is_granted(c));
}

#[test]
fn at_most_one_holder_under_load() {
    let mut q = AccessQueue::new();
    let mut live: Vec<u64> = Vec::new();
    let mut seed: u64 = 12345;
    for _ in 0..500 {
        seed = seed.wrapping_mul(6364136223846793005).wrapping_add(1442695040888963407);
        if (seed >> 33) % 3 != 0 || live.is_empty() {
            live.push(q.arrive().unwrap());
        } else {
            let k = ((seed >> 40) as usize) % live.len();
            let t = live.remove(k);
            q.leave(t);
        }
        let holders = live.iter().filter(|t| q.is_granted(**t)).count();
        assert_eq!(holders, if live.is_empty() { 0 } else { 1 });
    }
}

#[test]
fn no_waiter_starves_under_random_arrivals() {
    // Arrivals keep coming at random while the holder keeps releasing; each
    // waiter is served after at most as many handovers as were ahead of it.
    let mut q = AccessQueue::new();
    let mut waiting: Vec<(u64, usize)> = Vec::new();
    let mut holder = q.arrive().unwrap();
    let mut seed: u64 = 99;
    let mut served: Vec<u64> = vec![holder];
    for _ in 0..300 {
        seed = seed.wrapping_mul(6364136223846793005).wrapping_add(1442695040888963407);
        let arrivals = (seed >> 60) as usize;
        for _ in 0..arrivals {
            let t = q.arrive().unwrap();
            waiting.push((t, waiting.len() + 1));
        }
        assert!(q.leave(holder));
        for w in waiting.iter_mut() {
            w.1 -= 1;
        }
        let next = waiting.iter().position(|w| q.is_granted(w.0));
        match next {
            Some(i) => {
                let (t, rank) = waiting.remove(i);
                assert_eq!(rank, 0);
                assert_eq!(i, 0);
                holder = t;
                served.push(t);
            }
            None => {
                assert!(waiting.is_empty());
                holder = q.arrive().unwrap();
                served.push(holder);
            }
        }
    }
    let mut sorted = served.clone();
    sorted.sort();
    assert_eq!(served, sorted);
}
