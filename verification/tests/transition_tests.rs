use stained_steel::history::SampleHistory;
use stained_steel::metrics::cpu_load_pm;
use stained_steel::metrics::mem_used_pm;
use stained_steel::metrics::rate_bps;
use stained_steel::transition::ToggleTransition;
use stained_steel::transition::VolumeRoll;

fn toggle_tick(t: &mut ToggleTransition, signal: bool) {
    t.observe(signal);
    t.advance();
}

#[test]
fn toggle_settles_after_length_ticks() {
    let mut t = ToggleTransition::new(6);
    // Drain the initial settle-in transition.
    for _ in 0..6 {
        toggle_tick(&mut t, false);
    }
    assert!(!t.is_active());
    // A signal change restarts the transition with the observed endpoints.
    toggle_tick(&mut t, true);
    assert!(t.is_active());
    assert_eq!(t.from, false);
    assert_eq!(t.to, true);
    // After length ticks of a constant signal it is settled again.
    for _ in 0..5 {
        toggle_tick(&mut t, true);
    }
    assert!(!t.is_active());
    assert_eq!(t.prev, Some(true));
}

#[test]
fn toggle_interrupt_restarts_mid_flight() {
    let mut t = ToggleTransition::new(6);
    for _ in 0..6 {
        toggle_tick(&mut t, false);
    }
    toggle_tick(&mut t, true);
    toggle_tick(&mut t, true);
    assert_eq!(t.step, 2);
    // An interruption mid-transition re-enters at step 0 with new endpoints.
    t.observe(false);
    assert_eq!(t.step, 0);
    assert_eq!(t.from, true);
    assert_eq!(t.to, false);
}

#[test]
fn toggle_zero_length_is_always_settled() {
    let mut t = ToggleTransition::new(0);
    assert!(!t.is_active());
    toggle_tick(&mut t, true);
    assert!(!t.is_active());
}

fn volume_tick(v: &mut VolumeRoll, target: i32) {
    v.observe(target);
    v.advance();
    // Displayed and in-flight values never leave 0..=100.
    if let Some(d) = v.display {
        assert!((0..=100).contains(&d));
    }
    assert!((0..=100).contains(&v.step_from));
    assert!((0..=100).contains(&v.step_to));
}

fn volume_settled_at(v: &VolumeRoll, value: i32) -> bool {
    v.display == Some(value) && v.step_from == v.step_to && !v.is_animating()
}

#[test]
fn stepped_counter_converges_through_target_sequence() {
    let mut v = VolumeRoll::new(10, 1);
    // First observation settles immediately.
    volume_tick(&mut v, 0);
    assert!(volume_settled_at(&v, 0));

    // Plenty of ticks at 47: the counter walks there one unit at a time.
    let mut reached = false;
    for _ in 0..400 {
        volume_tick(&mut v, 47);
        if volume_settled_at(&v, 47) {
            reached = true;
            break;
        }
    }
    assert!(reached, "displayed value never settled at 47");

    // A repeated target stays settled.
    volume_tick(&mut v, 47);
    assert!(volume_settled_at(&v, 47));

    // Dropping to 3 converges again.
    let mut reached = false;
    for _ in 0..400 {
        volume_tick(&mut v, 3);
        if volume_settled_at(&v, 3) {
            reached = true;
            break;
        }
    }
    assert!(reached, "displayed value never settled at 3");
}

#[test]
fn stepped_counter_moves_one_unit_at_a_time() {
    let mut v = VolumeRoll::new(10, 1);
    volume_tick(&mut v, 10);
    assert!(volume_settled_at(&v, 10));
    v.observe(12);
    // The first unit step leaves the settled value toward the target.
    assert_eq!(v.step_from, 10);
    assert_eq!(v.step_to, 11);
    assert_eq!(v.step, 0);
}

#[test]
fn history_keeps_last_cap_samples_in_order() {
    let mut h = SampleHistory::new();
    for i in 0..10u32 {
        h.push(i, 4);
    }
    // After N pushes into capacity C, the length is min(N, C) and the
    // contents are the last C values in arrival order.
    assert_eq!(h.len(), 4);
    for k in 0..4 {
        assert_eq!(h.get(k), 6 + k as u32);
    }
}

#[test]
fn history_shorter_than_capacity_keeps_everything() {
    let mut h = SampleHistory::new();
    h.push(7, 5);
    h.push(9, 5);
    assert_eq!(h.len(), 2);
    assert_eq!(h.get(0), 7);
    assert_eq!(h.get(1), 9);
}

#[test]
fn metric_kernels_compute_clamped_shares() {
    // 75 busy of 100 jiffies.
    assert_eq!(cpu_load_pm(100, 25), 7500);
    assert_eq!(cpu_load_pm(0, 0), 0);
    assert_eq!(cpu_load_pm(10, 20), 0);
    assert_eq!(cpu_load_pm(3, 0), 10000);
    // 6 of 8 GiB in use.
    assert_eq!(mem_used_pm(8388608, 2097152), 7500);
    assert_eq!(mem_used_pm(0, 0), 0);
    assert_eq!(mem_used_pm(100, 200), 0);
    // 1 MiB over 500 ms is 2 MiB/s.
    assert_eq!(rate_bps(1048576, 500), 2097152);
    assert_eq!(rate_bps(12345, 0), 0);
    assert_eq!(rate_bps(u64::MAX, 1), u64::MAX);
}
