use statlog::shutdown::Shutdown;

#[test]
fn new_latch_is_not_signaled() {
    let mut latch: Shutdown<u32> = Shutdown::new();
    assert_eq!(latch.poll(0, 11), false);
}

#[test]
fn disposal_wakes_every_other_registered_waiter_once() {
    let mut latch: Shutdown<u32> = Shutdown::new();
    let a = latch.another();
    let b = latch.another();
    let c = latch.another();
    assert_eq!((a, b, c), (1, 2, 3));
    // slots 0, 1 and 3 are polling; slot 2 never polled
    assert_eq!(latch.poll(0, 100), false);
    assert_eq!(latch.poll(a, 101), false);
    assert_eq!(latch.poll(c, 103), false);
    let woken = latch.dispose(a);
    assert_eq!(woken, vec![100, 103]);
    // every other handle's next poll resolves immediately
    assert_eq!(latch.poll(0, 200), true);
    assert_eq!(latch.poll(b, 201), true);
    assert_eq!(latch.poll(c, 202), true);
}

#[test]
fn second_disposal_is_a_no_op() {
    let mut latch: Shutdown<u32> = Shutdown::new();
    let a = latch.another();
    let b = latch.another();
    assert_eq!(latch.poll(0, 10), false);
    assert_eq!(latch.poll(b, 12), false);
    let first = latch.dispose(a);
    assert_eq!(first, vec![10, 12]);
    let second = latch.dispose(b);
    assert_eq!(second, Vec::<u32>::new());
    let third = latch.dispose(a);
    assert_eq!(third, Vec::<u32>::new());
    assert_eq!(latch.poll(0, 13), true);
}

#[test]
fn own_slot_is_not_woken() {
    let mut latch: Shutdown<u32> = Shutdown::new();
    let a = latch.another();
    assert_eq!(latch.poll(0, 50), false);
    assert_eq!(latch.poll(a, 51), false);
    // the disposing handle had a registered waiter of its own: not woken
    let woken = latch.dispose(a);
    assert_eq!(woken, vec![50]);
}

#[test]
fn repolling_replaces_the_recorded_waiter() {
    let mut latch: Shutdown<u32> = Shutdown::new();
    let a = latch.another();
    assert_eq!(latch.poll(a, 7), false);
    assert_eq!(latch.poll(a, 8), false);
    let woken = latch.dispose(0);
    assert_eq!(woken, vec![8]);
}

#[test]
fn handle_forked_after_signal_resolves_on_first_poll() {
    let mut latch: Shutdown<u32> = Shutdown::new();
    let a = latch.another();
    latch.dispose(0);
    let late = latch.another();
    assert_eq!(late, 2);
    assert_eq!(latch.poll(late, 99), true);
    assert_eq!(latch.poll(a, 98), true);
}

#[test]
fn unregistered_slots_contribute_nothing_to_the_broadcast() {
    let mut latch: Shutdown<u32> = Shutdown::new();
    let _a = latch.another();
    let _b = latch.another();
    let woken = latch.dispose(0);
    assert_eq!(woken, Vec::<u32>::new());
}
