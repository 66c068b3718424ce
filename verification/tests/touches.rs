use uperf::config::InputModule;
use uperf::double::Double;
use uperf::input::decode_events;
use uperf::input::device_name_path;
use uperf::input::fallback_candidates;
use uperf::input::looks_like_touch;
use uperf::input::looks_like_touch_lowered;
use uperf::input::touch_candidates;
use uperf::input::InputEvent;
use uperf::input::InputNode;
use uperf::input::InputReader;
use uperf::input::RawTouch;
use uperf::input::Stroke;
use uperf::input::StrokeMeasure;
use uperf::input::TouchEvent;

fn double(x: f64) -> Double {
    Double { bits: x.to_bits() }
}

fn module() -> InputModule {
    InputModule {
        enable: true,
        swipe_thd: double(0.01),
        gesture_thd_x: double(0.03),
        gesture_thd_y: double(0.03),
        gesture_delay_time: double(2.0),
        hold_enter_time: double(1.0),
    }
}

fn record(kind: u16, code: u16, value: i32) -> Vec<u8> {
    let mut r = vec![0xaau8; 16];
    r.extend(kind.to_ne_bytes());
    r.extend(code.to_ne_bytes());
    r.extend(value.to_ne_bytes());
    r
}

fn buffer(events: &[(u16, u16, i32)]) -> Vec<u8> {
    events.iter().flat_map(|e| record(e.0, e.1, e.2)).collect()
}

const BIG: bool = 1u16.to_ne_bytes()[0] == 0;

#[test]
fn records_are_decoded_in_either_byte_order() {
    let mut little = vec![0u8; 16];
    little.extend([3, 0, 57, 0, 0xff, 0xff, 0xff, 0xff]);
    assert_eq!(decode_events(&little, false), vec![InputEvent { kind: 3, code: 57, value: -1 }]);
    let mut big = vec![0u8; 16];
    big.extend([0, 3, 0, 53, 0, 0, 4, 1]);
    assert_eq!(decode_events(&big, true), vec![InputEvent { kind: 3, code: 53, value: 1025 }]);
    assert!(decode_events(&big[..23], true).is_empty());
    assert!(decode_events(&[], true).is_empty());
}

#[test]
fn touch_and_lift_are_told() {
    let mut r = InputReader::new(module());
    assert_eq!(r.screen(), (1080, 2400));
    let down = buffer(&[(3, 53, 500), (3, 54, 900), (3, 57, 7), (0, 0, 0)]);
    assert_eq!(r.read_events(&down, BIG), vec![RawTouch::Down]);
    let moved = buffer(&[(3, 0, 400), (3, 1, 950), (0, 0, 0)]);
    assert_eq!(r.read_events(&moved, BIG), vec![]);
    let lifted = buffer(&[(3, 57, -1), (0, 0, 0), (3, 57, -1)]);
    assert_eq!(
        r.read_events(&lifted, BIG),
        vec![RawTouch::Lifted(Stroke { dx: 100, dy: 50, start_x: 500, start_y: 900 })]
    );
}

#[test]
fn touch_is_told_where_the_positions_follow_the_finger() {
    let mut r = InputReader::new(module());
    let down = buffer(&[(3, 57, 7), (3, 53, 500), (3, 54, 1000), (0, 0, 0)]);
    assert_eq!(r.read_events(&down, BIG), vec![RawTouch::Down]);
    let lifted = buffer(&[(3, 53, 510), (0, 0, 0), (3, 57, -1), (0, 0, 0)]);
    assert_eq!(
        r.read_events(&lifted, BIG),
        vec![RawTouch::Lifted(Stroke { dx: 10, dy: 0, start_x: 500, start_y: 1000 })]
    );
    let edge = buffer(&[(3, 57, 8), (3, 53, 3), (0, 0, 0), (3, 53, 303), (3, 57, -1)]);
    assert_eq!(
        r.read_events(&edge, BIG),
        vec![
            RawTouch::Down,
            RawTouch::Lifted(Stroke { dx: 300, dy: 0, start_x: 3, start_y: 1000 }),
        ]
    );
}

#[test]
fn touch_is_told_once() {
    let mut r = InputReader::new(module());
    r.read_events(&buffer(&[(3, 53, 500), (3, 54, 1000), (0, 0, 0)]), BIG);
    let down = buffer(&[(3, 57, 7), (0, 0, 0), (0, 0, 0)]);
    assert_eq!(r.read_events(&down, BIG), vec![RawTouch::Down]);
    assert_eq!(r.read_events(&buffer(&[(0, 0, 0), (3, 57, 9), (0, 0, 0)]), BIG), vec![]);
    let again = buffer(&[(3, 57, -1), (0, 0, 0), (3, 57, 10), (0, 0, 0)]);
    assert_eq!(
        r.read_events(&again, BIG),
        vec![
            RawTouch::Lifted(Stroke { dx: 0, dy: 0, start_x: 500, start_y: 1000 }),
            RawTouch::Down,
        ]
    );
}

#[test]
fn reads_may_be_split() {
    let events = [(3, 53, 10), (3, 57, 1), (0, 0, 0), (1, 330, 1), (3, 53, 90), (3, 57, -1)];
    let mut whole = InputReader::new(module());
    let all = whole.read_events(&buffer(&events), BIG);
    let mut split = InputReader::new(module());
    let mut parts = split.read_events(&buffer(&events[..2]), BIG);
    parts.extend(split.read_events(&buffer(&events[2..]), BIG));
    assert_eq!(all, parts);
    assert_eq!(all.len(), 2);
}

#[test]
fn a_second_finger_does_not_restart_the_touch() {
    let mut r = InputReader::new(module());
    let told = r.read_events(
        &buffer(&[
            (3, 57, 1),
            (3, 53, 5),
            (0, 0, 0),
            (3, 53, 60),
            (3, 57, 2),
            (0, 0, 0),
            (3, 57, -1),
            (0, 0, 0),
        ]),
        BIG,
    );
    assert_eq!(
        told,
        vec![
            RawTouch::Down,
            RawTouch::Lifted(Stroke { dx: 55, dy: 0, start_x: 5, start_y: 0 }),
        ]
    );
}

#[test]
fn extreme_positions_have_a_distance() {
    let mut r = InputReader::new(module());
    let told = r.read_events(
        &buffer(&[(3, 53, i32::MIN), (3, 57, 1), (3, 53, i32::MAX), (3, 57, -1)]),
        BIG,
    );
    assert_eq!(
        told,
        vec![RawTouch::Lifted(Stroke { dx: u32::MAX, dy: 0, start_x: i32::MIN, start_y: 0 })]
    );
}

fn measured(dist: f64, left: f64, right: f64, bottom: f64) -> TouchEvent {
    InputReader::new(module()).classify_touch_end(&StrokeMeasure {
        dist: double(dist),
        left: double(left),
        right: double(right),
        bottom: double(bottom),
    })
}

#[test]
fn long_strokes_are_swipes_or_gestures() {
    assert_eq!(measured(0.2, 0.5, 0.5, 0.5), TouchEvent::Swipe);
    assert_eq!(measured(0.2, 0.03, 0.97, 0.5), TouchEvent::Gesture);
    assert_eq!(measured(0.2, 0.98, 0.02, 0.5), TouchEvent::Gesture);
    assert_eq!(measured(0.2, 0.5, 0.5, 0.01), TouchEvent::Gesture);
    assert_eq!(measured(0.01, 0.0, 1.0, 0.0), TouchEvent::Up);
    assert_eq!(measured(f64::NAN, 0.0, 1.0, 0.0), TouchEvent::Up);
    assert_eq!(measured(0.2, f64::NAN, f64::NAN, f64::NAN), TouchEvent::Swipe);
}

fn node(name: &str, device_name: &str) -> InputNode {
    InputNode { name: name.to_string(), device_name: device_name.to_string() }
}

#[test]
fn touchscreens_are_found_by_name() {
    assert!(looks_like_touch("NVTCapacitiveTouchScreen"));
    assert!(looks_like_touch("fts_TS_panel"));
    assert!(looks_like_touch("goodix FINGERprint"));
    assert!(!looks_like_touch("gpio-keys"));
    assert!(!looks_like_touch_lowered("TOUCH"));
    assert!(looks_like_touch_lowered("a touch"));
    let nodes = vec![
        node("event0", "gpio-keys"),
        node("event1", "Synaptics TOUCH"),
        node("mouse0", "touch"),
        node("event2", "mtk_ts_x"),
    ];
    assert_eq!(touch_candidates(&nodes), vec![1, 3]);
    assert_eq!(fallback_candidates(&nodes, 1), Vec::<usize>::new());
    assert_eq!(fallback_candidates(&nodes, 0), vec![0, 1, 3]);
    assert_eq!(device_name_path("event1"), "/sys/class/input/event1/device/name");
}
