//! Touches from raw input events.
use crate::config::InputModule;
use crate::double::Double;
use crate::outside;
use crate::text;
use vstd::prelude::*;
use vstd::string::*;

verus! {

/// Kind of an event that reports an absolute position.
pub const EV_ABS: u16 = 3;

/// Kind of an event that ends a group of events.
pub const EV_SYN: u16 = 0;

pub const ABS_MT_TRACKING_ID: u16 = 57;

pub const ABS_MT_POSITION_X: u16 = 53;

pub const ABS_MT_POSITION_Y: u16 = 54;

pub const ABS_X: u16 = 0;

pub const ABS_Y: u16 = 1;

pub const SYN_REPORT: u16 = 0;

/// What the user did on the screen.
#[derive(Debug, Clone, Copy, PartialEq, Eq, Structural)]
pub enum TouchEvent {
    Down,
    Up,
    Swipe,
    Gesture,
}

/// One event of an input device.
#[derive(Debug, Clone, Copy, PartialEq, Eq, Structural)]
pub struct InputEvent {
    pub kind: u16,
    pub code: u16,
    pub value: i32,
}

/// The way of a finger from where it went down to where it was lifted.
#[derive(Debug, Clone, Copy, PartialEq, Eq, Structural)]
pub struct Stroke {
    /// Distance along the width.
    pub dx: u32,
    /// Distance along the height.
    pub dy: u32,
    pub start_x: i32,
    pub start_y: i32,
}

/// What a group of events amounts to.
#[derive(Debug, Clone, Copy, PartialEq, Eq, Structural)]
pub enum RawTouch {
    Down,
    Lifted(Stroke),
}

/// A stroke in parts of the screen's width and height.
#[derive(Debug, Clone, Copy)]
pub struct StrokeMeasure {
    /// Length of the straight line from start to end.
    pub dist: Double,
    /// Distance of the start from the left edge.
    pub left: Double,
    /// Distance of the start from the right edge.
    pub right: Double,
    /// Distance of the start from the bottom edge.
    pub bottom: Double,
}

/// The finger on the screen.
#[derive(Debug, Clone, Copy, PartialEq, Eq, Structural)]
pub struct TouchState {
    pub touching: bool,
    /// Whether no group of events has ended since the finger went down, so that its
    /// position is not complete yet.
    pub fresh: bool,
    pub tracking_id: i32,
    pub start_x: i32,
    pub start_y: i32,
    pub cur_x: i32,
    pub cur_y: i32,
}

/// The distance of two positions.
pub open spec fn distance(a: int, b: int) -> int {
    if a >= b {
        a - b
    } else {
        b - a
    }
}

/// Two bytes as a number, in the byte order of the machine that wrote them.
pub open spec fn u16_at(buf: Seq<u8>, i: int, big_endian: bool) -> int {
    if big_endian {
        buf[i] * 0x100 + buf[i + 1]
    } else {
        buf[i + 1] * 0x100 + buf[i]
    }
}

/// Four bytes as a number without a sign.
pub open spec fn u32_at(buf: Seq<u8>, i: int, big_endian: bool) -> int {
    if big_endian {
        u16_at(buf, i, true) * 0x1_0000 + u16_at(buf, i + 2, true)
    } else {
        u16_at(buf, i + 2, false) * 0x1_0000 + u16_at(buf, i, false)
    }
}

/// Four bytes as a number in two's complement.
pub open spec fn i32_at(buf: Seq<u8>, i: int, big_endian: bool) -> int {
    let n = u32_at(buf, i, big_endian);
    if n < 0x8000_0000 {
        n
    } else {
        n - 0x1_0000_0000
    }
}

/// The event in a record of 24 bytes: 16 bytes of time, then kind, code and value.
pub open spec fn event_at(buf: Seq<u8>, i: int, big_endian: bool) -> InputEvent {
    InputEvent {
        kind: u16_at(buf, i + 16, big_endian) as u16,
        code: u16_at(buf, i + 18, big_endian) as u16,
        value: i32_at(buf, i + 20, big_endian) as i32,
    }
}

/// The events in the whole records of a buffer.
pub open spec fn decoded(buf: Seq<u8>, big_endian: bool) -> Seq<InputEvent> {
    Seq::new(buf.len() / 24, |k: int| event_at(buf, 24 * k, big_endian))
}

/// Whether an event says that the finger was lifted.
pub open spec fn lifts(e: InputEvent) -> bool {
    e.kind == EV_ABS && e.code == ABS_MT_TRACKING_ID && e.value == -1
}

/// Whether an event says that a finger is down.
pub open spec fn tracks(e: InputEvent) -> bool {
    e.kind == EV_ABS && e.code == ABS_MT_TRACKING_ID && e.value != -1
}

/// Whether an event ends a group.
pub open spec fn ends_group(e: InputEvent) -> bool {
    e.kind == EV_SYN && e.code == SYN_REPORT
}

impl TouchState {
    /// The way of the finger so far.
    pub open spec fn stroke(self) -> Stroke {
        Stroke {
            dx: distance(self.cur_x as int, self.start_x as int) as u32,
            dy: distance(self.cur_y as int, self.start_y as int) as u32,
            start_x: self.start_x,
            start_y: self.start_y,
        }
    }

    /// The finger after an event. A touch begins with a tracking id; where it begins is
    /// known when the first group of events ends.
    pub open spec fn fed(self, e: InputEvent) -> TouchState {
        if lifts(e) {
            TouchState { touching: false, fresh: false, tracking_id: e.value, ..self }
        } else if tracks(e) && self.touching {
            TouchState { tracking_id: e.value, ..self }
        } else if tracks(e) {
            TouchState {
                touching: true,
                fresh: true,
                tracking_id: e.value,
                start_x: self.cur_x,
                start_y: self.cur_y,
                ..self
            }
        } else if e.kind == EV_ABS && (e.code == ABS_MT_POSITION_X || e.code == ABS_X) {
            TouchState { cur_x: e.value, ..self }
        } else if e.kind == EV_ABS && (e.code == ABS_MT_POSITION_Y || e.code == ABS_Y) {
            TouchState { cur_y: e.value, ..self }
        } else if ends_group(e) && self.touching && self.fresh {
            TouchState { fresh: false, start_x: self.cur_x, start_y: self.cur_y, ..self }
        } else {
            self
        }
    }

    /// What an event tells: a lift where it ends a touch, and a touch where it ends the
    /// first group of events since the finger went down.
    pub open spec fn told(self, e: InputEvent) -> Option<RawTouch> {
        if lifts(e) && self.touching {
            Some(RawTouch::Lifted(self.stroke()))
        } else if ends_group(e) && self.touching && self.fresh {
            Some(RawTouch::Down)
        } else {
            None
        }
    }

    /// The finger after some events.
    pub open spec fn after(self, events: Seq<InputEvent>) -> TouchState
        decreases events.len(),
    {
        if events.len() == 0 {
            self
        } else {
            self.after(events.drop_last()).fed(events.last())
        }
    }

    /// What some events tell, in order.
    pub open spec fn told_by(self, events: Seq<InputEvent>) -> Seq<RawTouch>
        decreases events.len(),
    {
        if events.len() == 0 {
            Seq::empty()
        } else {
            let before = self.told_by(events.drop_last());
            match self.after(events.drop_last()).told(events.last()) {
                Some(t) => before.push(t),
                None => before,
            }
        }
    }
}

/// What a stroke was: one longer than the threshold is a gesture where it began near
/// the left, right or bottom edge and a swipe elsewhere; a shorter one is a tap.
pub open spec fn classified(cfg: InputModule, m: StrokeMeasure) -> TouchEvent {
    if !m.dist.above(cfg.swipe_thd) {
        TouchEvent::Up
    } else if m.left.at_most(cfg.gesture_thd_x) || m.right.at_most(cfg.gesture_thd_x)
        || m.bottom.at_most(cfg.gesture_thd_y) {
        TouchEvent::Gesture
    } else {
        TouchEvent::Swipe
    }
}

fn read_u16(buf: &[u8], i: usize, big_endian: bool) -> (r: u16)
    requires
        i + 2 <= buf.len(),
    ensures
        r == u16_at(buf@, i as int, big_endian),
{
    if big_endian {
        buf[i] as u16 * 0x100 + buf[i + 1] as u16
    } else {
        buf[i + 1] as u16 * 0x100 + buf[i] as u16
    }
}

fn read_i32(buf: &[u8], i: usize, big_endian: bool) -> (r: i32)
    requires
        i + 4 <= buf.len(),
    ensures
        r == i32_at(buf@, i as int, big_endian),
{
    let a: u16 = read_u16(buf, i, big_endian);
    let b: u16 = read_u16(buf, i + 2, big_endian);
    let n: i64 = if big_endian {
        a as i64 * 0x1_0000 + b as i64
    } else {
        b as i64 * 0x1_0000 + a as i64
    };
    if n < 0x8000_0000 {
        n as i32
    } else {
        (n - 0x1_0000_0000) as i32
    }
}

/// The events in the whole records of a buffer.
pub fn decode_events(buf: &[u8], big_endian: bool) -> (r: Vec<InputEvent>)
    ensures
        r@ == decoded(buf@, big_endian),
{
    let mut r: Vec<InputEvent> = Vec::new();
    let n: usize = buf.len();
    let mut i: usize = 0;
    while n - i >= 24
        invariant
            n == buf@.len(),
            i <= n,
            i == 24 * r@.len(),
            r@ == decoded(buf@, big_endian).take(r@.len() as int),
            r@.len() <= n / 24,
        decreases n - i,
    {
        let kind: u16 = read_u16(buf, i + 16, big_endian);
        let code: u16 = read_u16(buf, i + 18, big_endian);
        let value: i32 = read_i32(buf, i + 20, big_endian);
        let ghost k = r@.len() as int;
        r.push(InputEvent { kind, code, value });
        assert(decoded(buf@, big_endian)[k] == r@[k]);
        assert(decoded(buf@, big_endian).take(k + 1) == decoded(buf@, big_endian).take(k).push(r@[k]));
        i = i + 24;
    }
    assert(decoded(buf@, big_endian).take(r@.len() as int) == decoded(buf@, big_endian));
    r
}

fn abs_diff(a: i32, b: i32) -> (r: u32)
    ensures
        r == distance(a as int, b as int),
{
    if a >= b {
        (a as i64 - b as i64) as u32
    } else {
        (b as i64 - a as i64) as u32
    }
}

/// What an [`InputReader`] stands for: the thresholds, width and height of the screen in
/// the units of positions, and the finger.
pub struct ReaderView {
    pub cfg: InputModule,
    pub screen: (i32, i32),
    pub finger: TouchState,
}

/// Follows the finger on a screen.
pub struct InputReader {
    cfg: InputModule,
    screen_w: i32,
    screen_h: i32,
    state: TouchState,
}

impl View for InputReader {
    type V = ReaderView;

    closed spec fn view(&self) -> ReaderView {
        ReaderView {
            cfg: self.cfg,
            screen: (self.screen_w, self.screen_h),
            finger: self.state,
        }
    }
}

impl InputReader {
    /// A reader for a screen that no finger is on.
    pub fn new(cfg: InputModule) -> (r: Self)
        ensures
            r@ == (ReaderView {
                cfg,
                screen: (1080i32, 2400i32),
                finger: TouchState {
                    touching: false,
                    fresh: false,
                    tracking_id: (-1) as i32,
                    start_x: 0,
                    start_y: 0,
                    cur_x: 0,
                    cur_y: 0,
                },
            }),
    {
        InputReader {
            cfg,
            screen_w: 1080,
            screen_h: 2400,
            state: TouchState {
                touching: false,
                fresh: false,
                tracking_id: -1,
                start_x: 0,
                start_y: 0,
                cur_x: 0,
                cur_y: 0,
            },
        }
    }

    /// Width and height of the screen, in the units of positions.
    pub fn screen(&self) -> (r: (i32, i32))
        ensures
            r == self@.screen,
    {
        (self.screen_w, self.screen_h)
    }

    fn stroke(&self) -> (r: Stroke)
        ensures
            r == self@.finger.stroke(),
    {
        Stroke {
            dx: abs_diff(self.state.cur_x, self.state.start_x),
            dy: abs_diff(self.state.cur_y, self.state.start_y),
            start_x: self.state.start_x,
            start_y: self.state.start_y,
        }
    }

    /// Follows the finger through one event.
    fn feed(&mut self, e: InputEvent) -> (r: Option<RawTouch>)
        ensures
            final(self)@ == (ReaderView { finger: old(self)@.finger.fed(e), ..old(self)@ }),
            r == old(self)@.finger.told(e),
    {
        if e.kind == EV_ABS {
            if e.code == ABS_MT_TRACKING_ID {
                let mut told: Option<RawTouch> = None;
                if e.value == -1 {
                    if self.state.touching {
                        told = Some(RawTouch::Lifted(self.stroke()));
                    }
                    self.state.touching = false;
                    self.state.fresh = false;
                } else if !self.state.touching {
                    self.state.touching = true;
                    self.state.fresh = true;
                    self.state.start_x = self.state.cur_x;
                    self.state.start_y = self.state.cur_y;
                }
                self.state.tracking_id = e.value;
                return told;
            } else if e.code == ABS_MT_POSITION_X || e.code == ABS_X {
                self.state.cur_x = e.value;
            } else if e.code == ABS_MT_POSITION_Y || e.code == ABS_Y {
                self.state.cur_y = e.value;
            }
            None
        } else if e.kind == EV_SYN && e.code == SYN_REPORT && self.state.touching
            && self.state.fresh {
            self.state.fresh = false;
            self.state.start_x = self.state.cur_x;
            self.state.start_y = self.state.cur_y;
            Some(RawTouch::Down)
        } else {
            None
        }
    }

    /// Follows the finger through the events in a buffer, whose numbers are in the
    /// given byte order.
    pub fn read_events(&mut self, buf: &[u8], big_endian: bool) -> (r: Vec<RawTouch>)
        ensures
            final(self)@ == (ReaderView {
                finger: old(self)@.finger.after(decoded(buf@, big_endian)),
                ..old(self)@
            }),
            r@ == old(self)@.finger.told_by(decoded(buf@, big_endian)),
    {
        let events: Vec<InputEvent> = decode_events(buf, big_endian);
        let n: usize = events.len();
        let mut r: Vec<RawTouch> = Vec::new();
        let mut i: usize = 0;
        let ghost start = self@.finger;
        while i < n
            invariant
                i <= n,
                n == events@.len(),
                start == old(self)@.finger,
                self@ == (ReaderView { finger: start.after(events@.take(i as int)), ..old(self)@ }),
                r@ == start.told_by(events@.take(i as int)),
            decreases n - i,
        {
            assert(events@.take(i + 1).drop_last() == events@.take(i as int));
            assert(events@.take(i + 1).last() == events@[i as int]);
            if let Some(t) = self.feed(events[i]) {
                r.push(t);
            }
            i = i + 1;
        }
        assert(events@.take(n as int) == events@);
        r
    }

    /// What a stroke was.
    pub fn classify_touch_end(&self, m: &StrokeMeasure) -> (r: TouchEvent)
        ensures
            r == classified(self@.cfg, *m),
    {
        let far: bool = m.dist.gt(self.cfg.swipe_thd);
        let near_edge: bool = m.left.le(self.cfg.gesture_thd_x) || m.right.le(
            self.cfg.gesture_thd_x,
        ) || m.bottom.le(self.cfg.gesture_thd_y);
        if near_edge && far {
            TouchEvent::Gesture
        } else if far {
            TouchEvent::Swipe
        } else {
            TouchEvent::Up
        }
    }
}

/// An entry of the directory of input devices.
#[derive(Debug)]
pub struct InputNode {
    /// Name of the entry.
    pub name: String,
    /// What the device calls itself; empty where that is unknown.
    pub device_name: String,
}

/// Whether an entry stands for a device that sends events.
pub open spec fn is_event_node(node: InputNode) -> bool {
    text::begins(node.name@, "event"@)
}

/// Whether a device with this name, in lower case, seems to be a touchscreen.
pub open spec fn touch_like(lower: Seq<char>) -> bool {
    ||| text::occurs(lower, "touch"@)
    ||| text::occurs(lower, "screen"@)
    ||| text::occurs(lower, "ts_"@)
    ||| text::occurs(lower, "finger"@)
}

/// Whether an entry stands for a touchscreen by its name.
pub open spec fn is_touch_node(node: InputNode) -> bool {
    is_event_node(node) && touch_like(outside::lowered(node.device_name@))
}

/// Whether `r` holds, in order, exactly the places below `n` of which `p` holds.
pub open spec fn picks(r: Seq<usize>, n: int, p: spec_fn(int) -> bool) -> bool {
    &&& forall|i: int, j: int| 0 <= i < j < r.len() ==> r[i] < r[j]
    &&& forall|k: usize| #[trigger] r.contains(k) <==> k < n && p(k as int)
}

/// Where a device tells its name.
pub fn device_name_path(name: &str) -> (r: String)
    ensures
        r@ == "/sys/class/input/"@ + name@ + "/device/name"@,
{
    let mut r: String = "/sys/class/input/".to_owned();
    r.append(name);
    r.append("/device/name");
    r
}

/// Whether a device seems to be a touchscreen, where its name in lower case is known.
pub fn looks_like_touch_lowered(lower: &str) -> (r: bool)
    ensures
        r == touch_like(lower@),
{
    text::contains(lower, "touch") || text::contains(lower, "screen") || text::contains(lower, "ts_")
        || text::contains(lower, "finger")
}

/// Whether a device seems to be a touchscreen by its name.
pub fn looks_like_touch(device_name: &str) -> (r: bool)
    ensures
        r == touch_like(outside::lowered(device_name@)),
{
    let lower: String = device_name.to_lowercase();
    looks_like_touch_lowered(lower.as_str())
}

proof fn lemma_pick_step(r: Seq<usize>, i: usize, p: spec_fn(int) -> bool)
    requires
        picks(r, i as int, p),
    ensures
        p(i as int) ==> picks(r.push(i), i + 1, p),
        !p(i as int) ==> picks(r, i + 1, p),
{
    if p(i as int) {
        let s = r.push(i);
        assert forall|a: int, b: int| 0 <= a < b < s.len() implies s[a] < s[b] by {
            if b == r.len() {
                assert(r.contains(r[a]));
            }
        }
        assert forall|k: usize| #[trigger] s.contains(k) <==> k < i + 1 && p(k as int) by {
            if s.contains(k) {
                let a = choose|a: int| 0 <= a < s.len() && s[a] == k;
                if a < r.len() {
                    assert(r.contains(k));
                }
            }
            if k < i && p(k as int) {
                assert(r.contains(k));
                let a = choose|a: int| 0 <= a < r.len() && r[a] == k;
                assert(s[a] == k);
            }
            if k == i {
                assert(s[r.len() as int] == k);
            }
        }
    }
}

/// The entries to be opened first: those that seem to be touchscreens.
pub fn touch_candidates(nodes: &Vec<InputNode>) -> (r: Vec<usize>)
    ensures
        picks(r@, nodes@.len() as int, |i: int| is_touch_node(nodes@[i])),
{
    let mut r: Vec<usize> = Vec::new();
    let ghost p = |i: int| is_touch_node(nodes@[i]);
    let n: usize = nodes.len();
    let mut i: usize = 0;
    while i < n
        invariant
            i <= n,
            n == nodes@.len(),
            p == (|i: int| is_touch_node(nodes@[i])),
            picks(r@, i as int, p),
        decreases n - i,
    {
        proof {
            lemma_pick_step(r@, i, p);
        }
        if text::starts_with(nodes[i].name.as_str(), "event") && looks_like_touch(
            nodes[i].device_name.as_str(),
        ) {
            r.push(i);
        }
        i = i + 1;
    }
    r
}

/// The entries to be opened after the candidates: every device that sends events where
/// none of them could be opened, none otherwise.
pub fn fallback_candidates(nodes: &Vec<InputNode>, opened: usize) -> (r: Vec<usize>)
    ensures
        picks(r@, nodes@.len() as int, |i: int| opened == 0 && is_event_node(nodes@[i])),
{
    let mut r: Vec<usize> = Vec::new();
    let ghost p = |i: int| opened == 0 && is_event_node(nodes@[i]);
    let n: usize = nodes.len();
    let mut i: usize = 0;
    while i < n
        invariant
            i <= n,
            n == nodes@.len(),
            p == (|i: int| opened == 0 && is_event_node(nodes@[i])),
            picks(r@, i as int, p),
        decreases n - i,
    {
        proof {
            lemma_pick_step(r@, i, p);
        }
        if opened == 0 && text::starts_with(nodes[i].name.as_str(), "event") {
            r.push(i);
        }
        i = i + 1;
    }
    r
}

/// A lift is told only of a finger that was down, which is up afterwards. A touch is told
/// only of a finger that just went down, and counts as told from then on; only a finger
/// that goes down can be told of again.
pub proof fn law_touches_are_told_of_fingers(s: TouchState, e: InputEvent)
    ensures
        s.told(e) matches Some(RawTouch::Lifted(stroke)) ==> s.touching && !s.fed(e).touching
            && stroke == s.stroke(),
        s.told(e) == Some(RawTouch::Down) ==> s.touching && s.fresh && s.fed(e).touching && !s.fed(
            e,
        ).fresh,
        !s.fresh && s.fed(e).fresh ==> !s.touching && s.fed(e).touching,
        (s.fresh ==> s.touching) ==> (s.fed(e).fresh ==> s.fed(e).touching),
{
}

/// A touch begins where the finger is when its first group of events ends, and its start
/// then stays while it lasts.
pub proof fn law_touch_keeps_its_start(s: TouchState, e: InputEvent)
    ensures
        s.told(e) == Some(RawTouch::Down) ==> s.fed(e).start_x == s.cur_x && s.fed(e).start_y
            == s.cur_y && s.fed(e).cur_x == s.cur_x && s.fed(e).cur_y == s.cur_y,
        s.touching && !s.fresh ==> s.fed(e).start_x == s.start_x && s.fed(e).start_y == s.start_y,
{
}

/// The place of the first event that ends a group, the number of events where none does.
pub open spec fn first_group_end(events: Seq<InputEvent>) -> nat
    decreases events.len(),
{
    if events.len() == 0 {
        0
    } else if ends_group(events[0]) {
        0
    } else {
        1 + first_group_end(events.drop_first())
    }
}

proof fn lemma_touch_goes_on(s: TouchState, events: Seq<InputEvent>)
    requires
        s.touching,
        forall|i: int| 0 <= i < events.len() ==> !lifts(#[trigger] events[i]),
    ensures
        s.after(events).touching,
        first_group_end(events) <= events.len(),
        s.fresh && first_group_end(events) == events.len() ==> s.told_by(events) == Seq::<
            RawTouch,
        >::empty() && s.after(events).fresh,
        s.fresh && first_group_end(events) < events.len() ==> {
            let at = s.after(events.take(first_group_end(events) as int));
            &&& s.told_by(events) == seq![RawTouch::Down]
            &&& s.after(events).start_x == at.cur_x
            &&& s.after(events).start_y == at.cur_y
            &&& !s.after(events).fresh
        },
        !s.fresh ==> s.told_by(events) == Seq::<RawTouch>::empty() && !s.after(events).fresh && s.after(
            events,
        ).start_x == s.start_x && s.after(events).start_y == s.start_y,
    decreases events.len(),
{
    if events.len() > 0 {
        let first = seq![events[0]];
        let rest = events.drop_first();
        let k = first_group_end(events) as int;
        assert(!lifts(events[0]));
        assert forall|i: int| 0 <= i < rest.len() implies !lifts(#[trigger] rest[i]) by {
            assert(rest[i] == events[i + 1]);
        }
        assert(first.drop_last() == Seq::<InputEvent>::empty());
        assert(first.last() == events[0]);
        assert(s.after(first.drop_last()) == s);
        assert(s.told_by(first.drop_last()) == Seq::<RawTouch>::empty());
        assert(s.after(first) == s.fed(events[0]));
        lemma_touch_goes_on(s.fed(events[0]), rest);
        assert(events == first + rest);
        law_reads_may_be_split(s, first, rest);
        if k > 0 {
            assert(events.take(k) == first + rest.take(k - 1));
            law_reads_may_be_split(s, first, rest.take(k - 1));
        } else {
            assert(events.take(0) == Seq::<InputEvent>::empty());
        }
    }
}

/// Each touch is told exactly once, at the end of its first group of events, and begins
/// where the finger is then; a touch without such an end is not told. Further fingers,
/// moves and groups change none of this.
pub proof fn law_each_touch_is_told_once(s: TouchState, down: InputEvent, events: Seq<InputEvent>)
    requires
        !s.touching,
        tracks(down),
        forall|i: int| 0 <= i < events.len() ==> !lifts(#[trigger] events[i]),
    ensures
        ({
            let touch = seq![down] + events;
            let k = first_group_end(events) as int;
            &&& s.told_by(touch) == if k < events.len() {
                seq![RawTouch::Down]
            } else {
                Seq::empty()
            }
            &&& s.after(touch).touching
            &&& k < events.len() ==> {
                let at = s.after(seq![down] + events.take(k));
                s.after(touch).start_x == at.cur_x && s.after(touch).start_y == at.cur_y
            }
        }),
{
    let first = seq![down];
    let k = first_group_end(events) as int;
    assert(first.drop_last() == Seq::<InputEvent>::empty());
    assert(first.last() == down);
    assert(s.after(first.drop_last()) == s);
    assert(s.told_by(first.drop_last()) == Seq::<RawTouch>::empty());
    assert(s.after(first) == s.fed(down));
    lemma_touch_goes_on(s.fed(down), events);
    law_reads_may_be_split(s, first, events);
    law_reads_may_be_split(s, first, events.take(k));
}

/// Events of other kinds, and positions other than those of a finger, are ignored.
pub proof fn law_other_events_are_ignored(s: TouchState, e: InputEvent)
    requires
        e.kind != EV_SYN,
        e.kind == EV_ABS ==> e.code != ABS_MT_TRACKING_ID && e.code != ABS_MT_POSITION_X && e.code
            != ABS_X && e.code != ABS_MT_POSITION_Y && e.code != ABS_Y,
    ensures
        s.fed(e) == s,
        s.told(e) is None,
{
}

/// A buffer can be cut between two records without changing the events in it.
pub proof fn law_records_may_be_split(a: Seq<u8>, b: Seq<u8>, big_endian: bool)
    requires
        a.len() % 24 == 0,
    ensures
        decoded(a + b, big_endian) == decoded(a, big_endian) + decoded(b, big_endian),
{
    let whole = decoded(a + b, big_endian);
    let parts = decoded(a, big_endian) + decoded(b, big_endian);
    assert(whole.len() == parts.len());
    assert forall|k: int| 0 <= k < whole.len() implies whole[k] == parts[k] by {
        let n = (a.len() / 24) as int;
        if k < n {
            assert(event_at(a + b, 24 * k, big_endian) == event_at(a, 24 * k, big_endian));
        } else {
            assert(event_at(a + b, 24 * k, big_endian) == event_at(b, 24 * (k - n), big_endian));
        }
    }
}

/// It makes no difference how the events are spread over reads.
pub proof fn law_reads_may_be_split(s: TouchState, a: Seq<InputEvent>, b: Seq<InputEvent>)
    ensures
        s.after(a + b) == s.after(a).after(b),
        s.told_by(a + b) == s.told_by(a) + s.after(a).told_by(b),
    decreases b.len(),
{
    if b.len() == 0 {
        assert(a + b == a);
    } else {
        assert((a + b).drop_last() == a + b.drop_last());
        law_reads_may_be_split(s, a, b.drop_last());
    }
}

/// A stroke counts as more than a tap exactly where it is longer than the threshold.
pub proof fn law_long_strokes_are_swipes(cfg: InputModule, m: StrokeMeasure)
    ensures
        classified(cfg, m) != TouchEvent::Down,
        classified(cfg, m) == TouchEvent::Up <==> !m.dist.above(cfg.swipe_thd),
{
}

/// The distances of a stroke are how far its end lies from its start, to either side: the
/// same way backwards has the same distances, and a distance is zero only where start and
/// end agree.
pub proof fn law_stroke_measures_both_ways(s: TouchState, back: TouchState)
    requires
        back.start_x == s.cur_x,
        back.start_y == s.cur_y,
        back.cur_x == s.start_x,
        back.cur_y == s.start_y,
    ensures
        s.stroke().dx == s.cur_x - s.start_x || s.stroke().dx == s.start_x - s.cur_x,
        s.stroke().dy == s.cur_y - s.start_y || s.stroke().dy == s.start_y - s.cur_y,
        s.stroke().dx == back.stroke().dx,
        s.stroke().dy == back.stroke().dy,
        s.stroke().dx == 0 <==> s.cur_x == s.start_x,
        s.stroke().dy == 0 <==> s.cur_y == s.start_y,
        s.stroke().start_x == s.start_x,
        s.stroke().start_y == s.start_y,
{
}

/// The kernel's numbers of the events that are followed: kind 3 with code 57 tracks the
/// finger, -1 standing for its lift, and kind 0 with code 0 ends a group.
pub proof fn law_numbers_of_events(e: InputEvent)
    ensures
        lifts(e) <==> e.kind == 3 && e.code == 57 && e.value == -1,
        tracks(e) <==> e.kind == 3 && e.code == 57 && e.value != -1,
        ends_group(e) <==> e.kind == 0 && e.code == 0,
{
}

/// Whether an event says where the finger is along the width: kind 3 with code 53 or 0.
pub open spec fn moves_x(e: InputEvent) -> bool {
    e.kind == 3 && (e.code == 53 || e.code == 0)
}

/// Whether an event says where the finger is along the height: kind 3 with code 54 or 1.
pub open spec fn moves_y(e: InputEvent) -> bool {
    e.kind == 3 && (e.code == 54 || e.code == 1)
}

/// Along the width the finger is where the last event of its width put it.
pub proof fn law_finger_is_put_at_x(s: TouchState, events: Seq<InputEvent>, i: int)
    requires
        0 <= i < events.len(),
        moves_x(events[i]),
        forall|j: int| i < j < events.len() ==> !moves_x(#[trigger] events[j]),
    ensures
        s.after(events).cur_x == events[i].value,
    decreases events.len(),
{
    let rest = events.drop_last();
    let n = events.len() - 1;
    assert(events.last() == events[n]);
    if i < n {
        assert(rest[i] == events[i]);
        assert forall|j: int| i < j < rest.len() implies !moves_x(#[trigger] rest[j]) by {
            assert(rest[j] == events[j]);
        }
        law_finger_is_put_at_x(s, rest, i);
        assert(!moves_x(events[n]));
    }
}

/// Along the width the finger stays where no event of its width comes.
pub proof fn law_finger_stays_at_x(s: TouchState, events: Seq<InputEvent>)
    requires
        forall|j: int| 0 <= j < events.len() ==> !moves_x(#[trigger] events[j]),
    ensures
        s.after(events).cur_x == s.cur_x,
    decreases events.len(),
{
    if events.len() > 0 {
        let rest = events.drop_last();
        assert forall|j: int| 0 <= j < rest.len() implies !moves_x(#[trigger] rest[j]) by {
            assert(rest[j] == events[j]);
        }
        law_finger_stays_at_x(s, rest);
        assert(!moves_x(events[events.len() - 1]));
    }
}

/// Along the height the finger is where the last event of its height put it.
pub proof fn law_finger_is_put_at_y(s: TouchState, events: Seq<InputEvent>, i: int)
    requires
        0 <= i < events.len(),
        moves_y(events[i]),
        forall|j: int| i < j < events.len() ==> !moves_y(#[trigger] events[j]),
    ensures
        s.after(events).cur_y == events[i].value,
    decreases events.len(),
{
    let rest = events.drop_last();
    let n = events.len() - 1;
    assert(events.last() == events[n]);
    if i < n {
        assert(rest[i] == events[i]);
        assert forall|j: int| i < j < rest.len() implies !moves_y(#[trigger] rest[j]) by {
            assert(rest[j] == events[j]);
        }
        law_finger_is_put_at_y(s, rest, i);
        assert(!moves_y(events[n]));
    }
}

/// Along the height the finger stays where no event of its height comes.
pub proof fn law_finger_stays_at_y(s: TouchState, events: Seq<InputEvent>)
    requires
        forall|j: int| 0 <= j < events.len() ==> !moves_y(#[trigger] events[j]),
    ensures
        s.after(events).cur_y == s.cur_y,
    decreases events.len(),
{
    if events.len() > 0 {
        let rest = events.drop_last();
        assert forall|j: int| 0 <= j < rest.len() implies !moves_y(#[trigger] rest[j]) by {
            assert(rest[j] == events[j]);
        }
        law_finger_stays_at_y(s, rest);
        assert(!moves_y(events[events.len() - 1]));
    }
}

/// A touch that is lifted tells, after its beginning, one stroke: from where the finger
/// was when the first group of events ended to where it was last. Its distances are those
/// of the two places.
pub proof fn law_stroke_of_a_touch(
    s: TouchState,
    down: InputEvent,
    events: Seq<InputEvent>,
    lift: InputEvent,
)
    requires
        !s.touching,
        tracks(down),
        lifts(lift),
        forall|i: int| 0 <= i < events.len() ==> !lifts(#[trigger] events[i]),
        first_group_end(events) < events.len(),
    ensures
        ({
            let touch = seq![down] + events;
            let from = s.after(seq![down] + events.take(first_group_end(events) as int));
            let to = s.after(touch);
            let told = s.told_by(touch.push(lift));
            &&& told.len() == 2
            &&& told[0] == RawTouch::Down
            &&& told[1] matches RawTouch::Lifted(stroke) && stroke.start_x == from.cur_x
                && stroke.start_y == from.cur_y && (stroke.dx == to.cur_x - from.cur_x || stroke.dx
                == from.cur_x - to.cur_x) && (stroke.dy == to.cur_y - from.cur_y || stroke.dy
                == from.cur_y - to.cur_y)
            &&& !s.after(touch.push(lift)).touching
        }),
{
    let touch = seq![down] + events;
    law_each_touch_is_told_once(s, down, events);
    assert(touch.push(lift).drop_last() == touch);
    assert(touch.push(lift).last() == lift);
}

/// A finger that was not down tells nothing by being lifted, and one event after another
/// is what some events come to.
pub proof fn law_single_events(s: TouchState, e: InputEvent)
    ensures
        lifts(e) && s.touching ==> s.told(e) is Some,
        lifts(e) && !s.touching ==> s.told(e) is None,
        s.after(seq![e]) == s.fed(e),
        s.told(e) is None ==> s.told_by(seq![e]).len() == 0,
        s.told(e) matches Some(t) ==> s.told_by(seq![e]) == seq![t],
{
    let one = seq![e];
    assert(one.drop_last() == Seq::<InputEvent>::empty());
    assert(one.last() == e);
    assert(s.after(one.drop_last()) == s);
    assert(s.told_by(one.drop_last()) == Seq::<RawTouch>::empty());
}

/// A record of 24 bytes holds one event, and less is none. Behind 16 bytes of time stand
/// kind and code with two bytes each and the value with four, a value from 2^31 on
/// standing for a negative one; the lowest byte comes first, or last where the machine has
/// it so.
pub proof fn law_layout_of_records(b: Seq<u8>, turned: Seq<u8>)
    requires
        b.len() == 24,
        turned.len() == 24,
        turned[16] == b[17] && turned[17] == b[16],
        turned[18] == b[19] && turned[19] == b[18],
        turned[20] == b[23] && turned[21] == b[22] && turned[22] == b[21] && turned[23] == b[20],
    ensures
        ({
            let events = decoded(b, false);
            let e = events[0];
            let n = b[20] + b[21] * 0x100 + b[22] * 0x1_0000 + b[23] * 0x100_0000;
            &&& events.len() == 1
            &&& e.kind == b[16] + b[17] * 0x100
            &&& e.code == b[18] + b[19] * 0x100
            &&& e.value == n || e.value == n - 0x1_0000_0000
            &&& e.value < 0 <==> b[23] >= 0x80
            &&& decoded(turned, true) == events
        }),
        forall|k: int, big_endian: bool|
            0 <= k < 24 ==> (#[trigger] decoded(b.take(k), big_endian)).len() == 0,
{
    let little = decoded(b, false);
    let big = decoded(turned, true);
    assert(little[0] == event_at(b, 0, false));
    assert(big[0] == event_at(turned, 0, true));
    assert(u16_at(b, 20, false) == b[21] * 0x100 + b[20]);
    assert(u16_at(b, 22, false) == b[23] * 0x100 + b[22]);
    assert(little == big);
}

/// A stroke longer than the threshold is a gesture exactly where it begins near the left,
/// the right or the bottom edge, left and right alike; the width and the height have
/// thresholds of their own.
pub proof fn law_gestures_begin_at_edges(cfg: InputModule, m: StrokeMeasure, mirrored: StrokeMeasure)
    requires
        mirrored.left == m.right,
        mirrored.right == m.left,
        mirrored.bottom == m.bottom,
        mirrored.dist == m.dist,
    ensures
        classified(cfg, m) == TouchEvent::Gesture ==> m.dist.above(cfg.swipe_thd),
        m.dist.above(cfg.swipe_thd) && m.left.at_most(cfg.gesture_thd_x) ==> classified(cfg, m)
            == TouchEvent::Gesture,
        m.dist.above(cfg.swipe_thd) && m.bottom.at_most(cfg.gesture_thd_y) ==> classified(cfg, m)
            == TouchEvent::Gesture,
        !m.left.at_most(cfg.gesture_thd_x) && !m.right.at_most(cfg.gesture_thd_x)
            && !m.bottom.at_most(cfg.gesture_thd_y) ==> classified(cfg, m) != TouchEvent::Gesture,
        classified(cfg, mirrored) == classified(cfg, m),
        m.dist.above(cfg.swipe_thd) ==> classified(cfg, m) == TouchEvent::Gesture || classified(
            cfg,
            m,
        ) == TouchEvent::Swipe,
{
}

/// A device is taken for a touchscreen exactly where one of four words stands somewhere in
/// its name, and an entry for a device where its name starts accordingly.
pub proof fn law_names_of_touchscreens(a: Seq<char>, b: Seq<char>, s: Seq<char>, node: InputNode)
    ensures
        touch_like(a + "touch"@ + b),
        touch_like(a + "screen"@ + b),
        touch_like(a + "ts_"@ + b),
        touch_like(a + "finger"@ + b),
        touch_like(s) ==> text::occurs(s, "touch"@) || text::occurs(s, "screen"@) || text::occurs(
            s,
            "ts_"@,
        ) || text::occurs(s, "finger"@),
        node.name@ == "event"@ + b ==> is_event_node(node),
        is_event_node(node) ==> node.name@ == "event"@ + node.name@.skip("event"@.len() as int),
        is_touch_node(node) <==> is_event_node(node) && touch_like(outside::lowered(node.device_name@)),
{
    text::law_parts_of_a_text(a, "touch"@, b, s);
    text::law_parts_of_a_text(a, "screen"@, b, s);
    text::law_parts_of_a_text(a, "ts_"@, b, s);
    text::law_parts_of_a_text(a, "finger"@, b, s);
    text::law_parts_of_a_text(a, "event"@, b, node.name@);
}

/// What is picked are exactly the places asked for, each once and in order.
pub proof fn law_picked_places(r: Seq<usize>, n: int, p: spec_fn(int) -> bool, i: int, j: int, k: usize)
    requires
        picks(r, n, p),
    ensures
        0 <= i < j < r.len() ==> r[i] < r[j],
        0 <= i < r.len() ==> r[i] < n && p(r[i] as int),
        k < n && p(k as int) ==> r.contains(k),
{
    if 0 <= i < r.len() {
        assert(r.contains(r[i]));
    }
}

/// Each event changes only what it is about: a position moves the finger along one side, a
/// further finger changes nothing but the number that is tracked, and the end of a later
/// group changes nothing at all.
pub proof fn law_events_change_only_their_part(s: TouchState, e: InputEvent)
    ensures
        moves_x(e) ==> s.fed(e) == (TouchState { cur_x: e.value, ..s }) && s.told(e) is None,
        moves_y(e) ==> s.fed(e) == (TouchState { cur_y: e.value, ..s }) && s.told(e) is None,
        tracks(e) && s.touching ==> s.fed(e) == (TouchState { tracking_id: e.value, ..s }) && s.told(
            e,
        ) is None,
        ends_group(e) && !(s.touching && s.fresh) ==> s.fed(e) == s && s.told(e) is None,
        tracks(e) && !s.touching ==> s.fed(e).touching && s.fed(e).fresh && s.told(e) is None
            && s.fed(e).start_x == s.cur_x && s.fed(e).start_y == s.cur_y && s.fed(e).cur_x
            == s.cur_x && s.fed(e).cur_y == s.cur_y,
        lifts(e) ==> !s.fed(e).touching && !s.fed(e).fresh && s.fed(e).cur_x == s.cur_x && s.fed(
            e,
        ).cur_y == s.cur_y,
{
}

} // verus!
