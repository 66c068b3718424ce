use uperf::config::HintDuration;
use uperf::fsm::Hint;
use uperf::fsm::StateMachine;

const MS: u128 = 1_000_000;

fn durations() -> HintDuration {
    HintDuration {
        idle: 0,
        touch: 4000 * MS,
        trigger: 30 * MS,
        gesture: 100 * MS,
        switch: 400 * MS,
        junk: 60 * MS,
    }
}

#[test]
fn names_of_hints() {
    let names: Vec<(&str, &str)> =
        [Hint::Idle, Hint::Touch, Hint::Trigger, Hint::Gesture, Hint::Switch, Hint::Junk]
            .iter()
            .map(|h| (h.as_str(), h.sched_scene()))
            .collect();
    assert_eq!(
        names,
        vec![
            ("idle", "idle"),
            ("touch", "touch"),
            ("trigger", "touch"),
            ("gesture", "touch"),
            ("switch", "boost"),
            ("junk", "touch"),
        ]
    );
}

#[test]
fn touch_leads_to_trigger_and_back_to_idle() {
    let mut m = StateMachine::new(durations(), 0);
    assert_eq!(m.current(), Hint::Idle);
    assert_eq!(m.on_touch_up(0), None);
    assert_eq!(m.on_touch_down(MS), Some(Hint::Touch));
    assert_eq!(m.on_touch_down(2 * MS), None);
    assert_eq!(m.on_touch_up(10 * MS), Some(Hint::Trigger));
    assert_eq!(m.tick(39 * MS), None);
    assert_eq!(m.tick(40 * MS), Some(Hint::Touch));
    assert_eq!(m.tick(4039 * MS), None);
    assert_eq!(m.tick(4040 * MS), Some(Hint::Idle));
    assert_eq!(m.tick(1_000_000 * MS), None);
}

#[test]
fn swipe_and_gesture_start_from_touch() {
    let mut m = StateMachine::new(durations(), 0);
    assert_eq!(m.on_swipe(0), None);
    assert_eq!(m.on_gesture(0), None);
    m.on_touch_down(0);
    assert_eq!(m.on_swipe(MS), Some(Hint::Trigger));
    assert_eq!(m.on_gesture(MS), None);
    m.tick(31 * MS);
    assert_eq!(m.on_gesture(32 * MS), Some(Hint::Gesture));
    assert_eq!(m.on_junk(33 * MS), Some(Hint::Junk));
    assert_eq!(m.on_junk(34 * MS), None);
}

#[test]
fn window_switch_overrides() {
    let mut m = StateMachine::new(durations(), 0);
    assert_eq!(m.on_window_switch(0), Some(Hint::Switch));
    assert_eq!(m.on_window_switch(399 * MS), Some(Hint::Switch));
    assert_eq!(m.tick(400 * MS), None);
    assert_eq!(m.tick(799 * MS), Some(Hint::Touch));
    assert_eq!(m.on_screen_off(800 * MS), Some(Hint::Idle));
    assert_eq!(m.on_screen_on(801 * MS), Some(Hint::Switch));
}

#[test]
fn hint_without_time_stays() {
    let mut m = StateMachine::new(durations(), 0);
    assert_eq!(m.tick(u128::MAX), None);
    assert_eq!(m.next_timeout(u128::MAX), 10_000_000_000);
}

#[test]
fn wait_ends_when_the_hint_expires() {
    let mut m = StateMachine::new(durations(), 0);
    m.on_window_switch(5 * MS);
    assert_eq!(m.next_timeout(5 * MS), 400 * MS);
    assert_eq!(m.next_timeout(105 * MS), 300 * MS);
    assert_eq!(m.next_timeout(405 * MS - 1), MS);
    assert_eq!(m.next_timeout(500 * MS), MS);
    assert_eq!(m.next_timeout(0), 400 * MS);
}
