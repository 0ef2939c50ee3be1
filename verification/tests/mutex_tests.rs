use rvkernel::mutex::Lock;
use rvkernel::mutex::Mutex;
use rvkernel::mutex::SpinLock;
use rvkernel::mutex::YieldLock;

#[test]
fn locks_report_their_state() {
    let mut s = SpinLock::new();
    s.lock();
    s.unlock();
    let mut y = YieldLock::new();
    y.lock();
    y.unlock();
}

#[test]
fn a_mutex_hands_the_value_out_and_back() {
    let mut m = Mutex::new(YieldLock::new(), 5u64);
    let mut guard = m.lock();
    guard.value += 1;
    m.unlock(guard);
    let guard = m.lock();
    assert_eq!(guard.value, 6);
    m.unlock(guard);
}

#[test]
fn two_tasks_of_a_million_locked_increments_reach_two_million() {
    // Two tasks each increment a shared counter a million times under the
    // yielding lock, interleaved; both then read the same final value.
    let mut m = Mutex::new(YieldLock::new(), 0u64);
    let mut done_a = 0u32;
    let mut done_b = 0u32;
    while done_a < 1_000_000 || done_b < 1_000_000 {
        if done_a < 1_000_000 {
            let mut g = m.lock();
            g.value += 1;
            m.unlock(g);
            done_a += 1;
        }
        if done_b < 1_000_000 {
            let mut g = m.lock();
            g.value += 1;
            m.unlock(g);
            done_b += 1;
        }
    }
    let g = m.lock();
    let seen_a = g.value;
    m.unlock(g);
    let g = m.lock();
    let seen_b = g.value;
    m.unlock(g);
    assert_eq!(seen_a, 2_000_000);
    assert_eq!(seen_b, 2_000_000);
}
