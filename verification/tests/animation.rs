use nuon::animation::{Animated, Easing};

#[test]
fn linear_animation_midpoint_end_and_clamp() {
    let mut a = Animated::new(false).duration(1000);
    a.transition(true, 0);
    assert_eq!(a.animate(0, 100, 0), 0);
    assert_eq!(a.animate(0, 100, 500), 50);
    assert_eq!(a.animate(0, 100, 1000), 100);
    assert_eq!(a.animate(0, 100, 1500), 100);
}

#[test]
fn boundaries_are_exact_for_every_easing() {
    for easing in [Easing::Linear, Easing::EaseOutQuad, Easing::EaseOutExpo] {
        let mut a = Animated::new(false).duration(1000).delay(30).easing(easing);
        a.transition(true, 1000);
        // before the delay has elapsed the reported value stays at lo
        assert_eq!(a.animate(5, 205, 1000), 5);
        assert_eq!(a.animate(5, 205, 1030), 5);
        // at and after start + delay + duration the value is hi exactly
        assert_eq!(a.animate(5, 205, 2030), 205);
        assert_eq!(a.animate(5, 205, 9999), 205);
        // in between it never overshoots the range
        for t in [1100u64, 1500, 1900] {
            let v = a.animate(5, 205, t);
            assert!((5..=205).contains(&v));
        }
    }
}

#[test]
fn retrigger_to_settled_value_is_a_noop() {
    let mut a = Animated::new(false).duration(1000);
    a.transition(false, 100);
    assert!(!a.in_progress(150));
    assert!(!a.in_progress(100));
    assert_eq!(a.animate(0, 100, 150), 0);
    assert!(a.start.is_none());
    assert!(!a.value);
}

#[test]
fn in_progress_is_open_at_both_ends() {
    let mut a = Animated::new(false).duration(1000).delay(30);
    a.transition(true, 0);
    assert!(!a.in_progress(0));
    assert!(!a.in_progress(30));
    assert!(a.in_progress(31));
    assert!(a.in_progress(1029));
    assert!(!a.in_progress(1030));
    assert!(!a.in_progress(5000));
}

#[test]
fn retrigger_mid_flight_restarts_from_the_interpolated_value() {
    let mut a = Animated::new(false).duration(1000);
    a.transition(true, 0);
    assert_eq!(a.animate(0, 100, 500), 50);
    a.transition(false, 500);
    // measurement restarts at the current position and the new now:
    // a quarter of the way through the fresh 1000 ms run back toward 0,
    // a quarter of the 50% starting position has been undone
    assert_eq!(a.animate(0, 100, 500), 50);
    assert_eq!(a.animate(0, 100, 750), 37);
    assert_eq!(a.animate(0, 100, 1500), 0);
}

#[test]
fn descending_ranges_interpolate_downward() {
    let mut a = Animated::new(false).duration(1000);
    a.transition(true, 0);
    assert_eq!(a.animate(100, 0, 0), 100);
    assert_eq!(a.animate(100, 0, 500), 50);
    assert_eq!(a.animate(100, 0, 1000), 0);
    assert_eq!(a.animate(-70, 0, 500), -35);
}

#[test]
fn zero_duration_settles_instantly() {
    let mut a = Animated::new(false).duration(0);
    a.transition(true, 5);
    assert_eq!(a.animate(0, 100, 5), 100);
    assert!(!a.in_progress(6));
}

#[test]
fn ease_out_expo_starts_fast_and_is_pinned_at_one() {
    let mut a = Animated::new(false).duration(1000).easing(Easing::EaseOutExpo);
    a.transition(true, 0);
    assert_eq!(a.animate(0, 10000, 0), 0);
    assert_eq!(a.animate(0, 10000, 1000), 10000);
    // exponential ease-out crosses the linear diagonal from above
    let early = a.animate(0, 10000, 250);
    assert!(early > 2500);
}
