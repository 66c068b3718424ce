//! The machine of usage hints.
//!
//! The hints go from idle over touch to trigger, gesture, switch or junk. Each one
//! lasts at most its configured time and then falls back, to touch and from there to
//! idle. Times are nanoseconds of one monotonic clock.
use crate::config::HintDuration;
use vstd::prelude::*;

verus! {

/// What the user is doing.
#[derive(Debug, Clone, Copy, PartialEq, Eq, Hash, Structural)]
pub enum Hint {
    Idle,
    Touch,
    Trigger,
    Gesture,
    Switch,
    Junk,
}

/// What can happen to the machine besides the passing of time.
#[derive(Debug, Clone, Copy, PartialEq, Eq, Structural)]
pub enum Event {
    TouchDown,
    TouchUp,
    Swipe,
    Gesture,
    WindowSwitch,
    ScreenOn,
    ScreenOff,
    Junk,
}

impl Hint {
    /// The name of a hint in presets.
    pub open spec fn name(self) -> Seq<char> {
        match self {
            Hint::Idle => "idle"@,
            Hint::Touch => "touch"@,
            Hint::Trigger => "trigger"@,
            Hint::Gesture => "gesture"@,
            Hint::Switch => "switch"@,
            Hint::Junk => "junk"@,
        }
    }

    /// The name of the scheduler scene of a hint.
    pub open spec fn scene_name(self) -> Seq<char> {
        match self {
            Hint::Idle => "idle"@,
            Hint::Switch => "boost"@,
            _ => "touch"@,
        }
    }

    /// The hint that follows when a hint has lasted its time.
    pub open spec fn fallen_back(self) -> Hint {
        match self {
            Hint::Idle | Hint::Touch => Hint::Idle,
            _ => Hint::Touch,
        }
    }

    /// The hint that an event leads to, `None` where it leads nowhere.
    pub open spec fn after(self, event: Event) -> Option<Hint> {
        match event {
            Event::TouchDown => if self == Hint::Idle {
                Some(Hint::Touch)
            } else {
                None
            },
            Event::TouchUp | Event::Swipe => if self == Hint::Touch {
                Some(Hint::Trigger)
            } else {
                None
            },
            Event::Gesture => if self == Hint::Touch {
                Some(Hint::Gesture)
            } else {
                None
            },
            Event::WindowSwitch | Event::ScreenOn => Some(Hint::Switch),
            Event::ScreenOff => Some(Hint::Idle),
            Event::Junk => if self == Hint::Touch || self == Hint::Gesture {
                Some(Hint::Junk)
            } else {
                None
            },
        }
    }

    /// How long a hint lasts.
    pub open spec fn lasts(self, durations: HintDuration) -> u128 {
        match self {
            Hint::Idle => durations.idle,
            Hint::Touch => durations.touch,
            Hint::Trigger => durations.trigger,
            Hint::Gesture => durations.gesture,
            Hint::Switch => durations.switch,
            Hint::Junk => durations.junk,
        }
    }

    /// The name of the hint in presets.
    pub fn as_str(self) -> (r: &'static str)
        ensures
            r@ == self.name(),
    {
        match self {
            Hint::Idle => "idle",
            Hint::Touch => "touch",
            Hint::Trigger => "trigger",
            Hint::Gesture => "gesture",
            Hint::Switch => "switch",
            Hint::Junk => "junk",
        }
    }

    /// The name of the scheduler scene of the hint.
    pub fn sched_scene(self) -> (r: &'static str)
        ensures
            r@ == self.scene_name(),
    {
        match self {
            Hint::Idle => "idle",
            Hint::Touch | Hint::Trigger | Hint::Gesture | Hint::Junk => "touch",
            Hint::Switch => "boost",
        }
    }
}

/// The time from `since` to `now`, zero where the clock seems to run backwards.
pub open spec fn elapsed(since: u128, now: u128) -> int {
    if now >= since {
        now - since
    } else {
        0
    }
}

/// What a [`StateMachine`] stands for.
pub struct MachineView {
    pub state: Hint,
    pub entered_at: u128,
    pub durations: HintDuration,
}

impl MachineView {
    /// The machine after it entered a hint.
    pub open spec fn entering(self, next: Hint, now: u128) -> MachineView {
        MachineView { state: next, entered_at: now, durations: self.durations }
    }

    /// Whether the current hint has lasted its time.
    pub open spec fn expired(self, now: u128) -> bool {
        self.state.lasts(self.durations) > 0 && elapsed(self.entered_at, now) >= self.state.lasts(
            self.durations,
        )
    }

    /// The machine after time has passed.
    pub open spec fn ticked(self, now: u128) -> MachineView {
        if self.expired(now) {
            self.entering(self.state.fallen_back(), now)
        } else {
            self
        }
    }

    /// The machine after an event.
    pub open spec fn stepped(self, event: Event, now: u128) -> MachineView {
        match self.state.after(event) {
            Some(next) => self.entering(next, now),
            None => self,
        }
    }

    /// The time for which there is nothing to do: until the current hint expires, but
    /// at least a millisecond; ten seconds where it does not expire.
    pub open spec fn wait(self, now: u128) -> int {
        let lasts = self.state.lasts(self.durations);
        if lasts == 0 {
            10_000_000_000
        } else if lasts - elapsed(self.entered_at, now) >= 1_000_000 {
            lasts - elapsed(self.entered_at, now)
        } else {
            1_000_000
        }
    }
}

/// The current hint and since when it holds.
pub struct StateMachine {
    state: Hint,
    entered_at: u128,
    durations: HintDuration,
}

impl View for StateMachine {
    type V = MachineView;

    closed spec fn view(&self) -> MachineView {
        MachineView {
            state: self.state,
            entered_at: self.entered_at,
            durations: self.durations,
        }
    }
}

impl StateMachine {
    /// A machine that is idle from `now` on.
    pub fn new(durations: HintDuration, now: u128) -> (r: Self)
        ensures
            r@ == (MachineView { state: Hint::Idle, entered_at: now, durations }),
    {
        StateMachine { state: Hint::Idle, entered_at: now, durations }
    }

    /// The current hint.
    pub fn current(&self) -> (r: Hint)
        ensures
            r == self@.state,
    {
        self.state
    }

    /// Lets the current hint expire. Returns the new hint where it did.
    pub fn tick(&mut self, now: u128) -> (r: Option<Hint>)
        ensures
            final(self)@ == old(self)@.ticked(now),
            r == if old(self)@.expired(now) {
                Some(old(self)@.state.fallen_back())
            } else {
                None
            },
    {
        let timeout: u128 = self.timeout(self.state);
        if timeout > 0 && self.held_for(now) >= timeout {
            let next: Hint = self.fallback(self.state);
            self.enter(next, now);
            Some(next)
        } else {
            None
        }
    }

    /// A finger went down.
    pub fn on_touch_down(&mut self, now: u128) -> (r: Option<Hint>)
        ensures
            final(self)@ == old(self)@.stepped(Event::TouchDown, now),
            r == old(self)@.state.after(Event::TouchDown),
    {
        match self.state {
            Hint::Idle => Some(self.enter(Hint::Touch, now)),
            _ => None,
        }
    }

    /// The finger was lifted.
    pub fn on_touch_up(&mut self, now: u128) -> (r: Option<Hint>)
        ensures
            final(self)@ == old(self)@.stepped(Event::TouchUp, now),
            r == old(self)@.state.after(Event::TouchUp),
    {
        match self.state {
            Hint::Touch => Some(self.enter(Hint::Trigger, now)),
            _ => None,
        }
    }

    /// The finger was lifted after a swipe.
    pub fn on_swipe(&mut self, now: u128) -> (r: Option<Hint>)
        ensures
            final(self)@ == old(self)@.stepped(Event::Swipe, now),
            r == old(self)@.state.after(Event::Swipe),
    {
        match self.state {
            Hint::Touch => Some(self.enter(Hint::Trigger, now)),
            _ => None,
        }
    }

    /// The finger was lifted after a swipe from an edge.
    pub fn on_gesture(&mut self, now: u128) -> (r: Option<Hint>)
        ensures
            final(self)@ == old(self)@.stepped(Event::Gesture, now),
            r == old(self)@.state.after(Event::Gesture),
    {
        match self.state {
            Hint::Touch => Some(self.enter(Hint::Gesture, now)),
            _ => None,
        }
    }

    /// Another application came to the front.
    pub fn on_window_switch(&mut self, now: u128) -> (r: Option<Hint>)
        ensures
            final(self)@ == old(self)@.stepped(Event::WindowSwitch, now),
            r == old(self)@.state.after(Event::WindowSwitch),
    {
        Some(self.enter(Hint::Switch, now))
    }

    /// The screen was switched on.
    pub fn on_screen_on(&mut self, now: u128) -> (r: Option<Hint>)
        ensures
            final(self)@ == old(self)@.stepped(Event::ScreenOn, now),
            r == old(self)@.state.after(Event::ScreenOn),
    {
        Some(self.enter(Hint::Switch, now))
    }

    /// The screen was switched off.
    pub fn on_screen_off(&mut self, now: u128) -> (r: Option<Hint>)
        ensures
            final(self)@ == old(self)@.stepped(Event::ScreenOff, now),
            r == old(self)@.state.after(Event::ScreenOff),
    {
        Some(self.enter(Hint::Idle, now))
    }

    /// Frames were missed.
    pub fn on_junk(&mut self, now: u128) -> (r: Option<Hint>)
        ensures
            final(self)@ == old(self)@.stepped(Event::Junk, now),
            r == old(self)@.state.after(Event::Junk),
    {
        match self.state {
            Hint::Touch | Hint::Gesture => Some(self.enter(Hint::Junk, now)),
            _ => None,
        }
    }

    /// The time for which there is nothing to do.
    pub fn next_timeout(&self, now: u128) -> (r: u128)
        ensures
            r == self@.wait(now),
    {
        let timeout: u128 = self.timeout(self.state);
        if timeout == 0 {
            return 10_000_000_000;
        }
        let held: u128 = self.held_for(now);
        let remaining: u128 = if timeout >= held {
            timeout - held
        } else {
            0
        };
        if remaining >= 1_000_000 {
            remaining
        } else {
            1_000_000
        }
    }

    fn enter(&mut self, next: Hint, now: u128) -> (r: Hint)
        ensures
            final(self)@ == old(self)@.entering(next, now),
            r == next,
    {
        self.state = next;
        self.entered_at = now;
        next
    }

    fn timeout(&self, h: Hint) -> (r: u128)
        ensures
            r == h.lasts(self@.durations),
    {
        match h {
            Hint::Idle => self.durations.idle,
            Hint::Touch => self.durations.touch,
            Hint::Trigger => self.durations.trigger,
            Hint::Gesture => self.durations.gesture,
            Hint::Switch => self.durations.switch,
            Hint::Junk => self.durations.junk,
        }
    }

    fn fallback(&self, h: Hint) -> (r: Hint)
        ensures
            r == h.fallen_back(),
    {
        match h {
            Hint::Idle => Hint::Idle,
            Hint::Trigger | Hint::Gesture | Hint::Switch | Hint::Junk => Hint::Touch,
            Hint::Touch => Hint::Idle,
        }
    }

    /// How long the current hint has held.
    fn held_for(&self, now: u128) -> (r: u128)
        ensures
            r == elapsed(self@.entered_at, now),
    {
        if now >= self.entered_at {
            now - self.entered_at
        } else {
            0
        }
    }
}

/// Another application in front overrides every hint.
pub proof fn law_window_switch_overrides(m: MachineView, now: u128)
    ensures
        m.stepped(Event::WindowSwitch, now).state == Hint::Switch,
        m.stepped(Event::WindowSwitch, now).entered_at == now,
{
}

/// Left alone, every hint falls back to idle in at most two steps, and idle stays
/// idle.
pub proof fn law_hints_fall_back_to_idle(h: Hint)
    ensures
        h.fallen_back().fallen_back() == Hint::Idle,
        h != Hint::Idle && h != Hint::Touch ==> h.fallen_back() == Hint::Touch,
        Hint::Idle.fallen_back() == Hint::Idle,
{
}

/// A hint holds for its whole time: before that no tick changes the machine, and the
/// first tick from then on makes it fall back.
pub proof fn law_hint_holds_for_its_time(m: MachineView, now: u128)
    requires
        now >= m.entered_at,
        m.state.lasts(m.durations) > 0,
    ensures
        now - m.entered_at < m.state.lasts(m.durations) ==> m.ticked(now) == m,
        now - m.entered_at >= m.state.lasts(m.durations) ==> m.ticked(now) == m.entering(
            m.state.fallen_back(),
            now,
        ),
{
}

/// A hint without a time stays until an event ends it.
pub proof fn law_hint_without_time_stays(m: MachineView, now: u128)
    requires
        m.state.lasts(m.durations) == 0,
    ensures
        m.ticked(now) == m,
        m.wait(now) == 10_000_000_000,
{
}

/// A hint just entered does not expire at once, whether time or an event led to it.
pub proof fn law_entering_restarts_the_clock(m: MachineView, event: Event, now: u128)
    ensures
        m.expired(now) ==> !m.ticked(now).expired(now),
        m.ticked(now).ticked(now) == m.ticked(now),
        m.state.after(event) is Some ==> !m.stepped(event, now).expired(now),
{
}

/// Sleeping for the time that the machine gives misses nothing: no tick before its end
/// would change the machine, unless the hint has less than a millisecond left; and a
/// tick at its end makes a hint that expires fall back.
pub proof fn law_wait_misses_nothing(m: MachineView, now: u128, then: u128)
    requires
        m.entered_at <= now <= then,
    ensures
        m.state.lasts(m.durations) - elapsed(m.entered_at, now) >= 1_000_000 && then - now < m.wait(now)
            ==> m.ticked(then) == m,
        m.state.lasts(m.durations) > 0 && then - now >= m.wait(now) ==> m.expired(then),
        1_000_000 <= m.wait(now),
{
}

/// Events never change how long hints last, and an event that leads nowhere changes
/// nothing at all.
pub proof fn law_ignored_events_change_nothing(m: MachineView, event: Event, now: u128)
    ensures
        m.stepped(event, now).durations == m.durations,
        m.ticked(now).durations == m.durations,
        m.state.after(event) is None ==> m.stepped(event, now) == m,
        m.state.after(event) matches Some(next) ==> m.stepped(event, now).state == next,
{
}

/// Trigger, gesture and junk are entered from touch, or junk from gesture; only a
/// switch of application or of the screen leads elsewhere from there.
pub proof fn law_hints_come_from_touch(h: Hint, event: Event)
    ensures
        h.after(event) == Some(Hint::Touch) ==> h == Hint::Idle,
        h.after(event) == Some(Hint::Trigger) ==> h == Hint::Touch,
        h.after(event) == Some(Hint::Gesture) ==> h == Hint::Touch,
        h.after(event) == Some(Hint::Junk) ==> h == Hint::Touch || h == Hint::Gesture,
        h.after(event) == Some(Hint::Switch) ==> event == Event::WindowSwitch || event
            == Event::ScreenOn,
        h.after(event) == Some(Hint::Idle) ==> event == Event::ScreenOff,
{
}

/// The names under which presets and the scheduler know the hints.
pub proof fn law_names_of_hints(h: Hint)
    ensures
        h.name() == match h {
            Hint::Idle => "idle"@,
            Hint::Touch => "touch"@,
            Hint::Trigger => "trigger"@,
            Hint::Gesture => "gesture"@,
            Hint::Switch => "switch"@,
            Hint::Junk => "junk"@,
        },
        h.scene_name() == "boost"@ <==> h == Hint::Switch,
        h.scene_name() == "idle"@ <==> h == Hint::Idle,
        h != Hint::Switch && h != Hint::Idle ==> h.scene_name() == "touch"@,
{
    reveal_strlit("idle");
    reveal_strlit("touch");
    reveal_strlit("boost");
    assert("touch"@[0] != "boost"@[0]);
    assert("idle"@.len() == 4);
}

/// No two hints have the same name.
pub proof fn law_names_tell_hints_apart(a: Hint, b: Hint)
    requires
        a.name() == b.name(),
    ensures
        a == b,
{
    reveal_strlit("idle");
    reveal_strlit("touch");
    reveal_strlit("trigger");
    reveal_strlit("gesture");
    reveal_strlit("switch");
    reveal_strlit("junk");
    assert("idle"@[0] == 'i');
    assert("touch"@[0] == 't' && "touch"@.len() == 5);
    assert("trigger"@[0] == 't' && "trigger"@.len() == 7);
    assert("gesture"@[0] == 'g');
    assert("switch"@[0] == 's');
    assert("junk"@[0] == 'j');
}

/// A finger that goes down is noticed only from idle, a finger that is lifted only while
/// it counts as a touch, missed frames only during a touch or a gesture. Applications and
/// the screen are noticed always.
pub proof fn law_when_events_are_noticed(h: Hint)
    ensures
        h.after(Event::TouchDown) is Some <==> h == Hint::Idle,
        h.after(Event::TouchUp) is Some <==> h == Hint::Touch,
        h.after(Event::Swipe) is Some <==> h == Hint::Touch,
        h.after(Event::Gesture) is Some <==> h == Hint::Touch,
        h.after(Event::Junk) is Some <==> h == Hint::Touch || h == Hint::Gesture,
        h.after(Event::WindowSwitch) is Some,
        h.after(Event::ScreenOn) is Some,
        h.after(Event::ScreenOff) is Some,
{
}

/// Each event that is noticed leads to one hint, whatever the hint before.
pub proof fn law_where_events_lead(h: Hint, next: Hint)
    ensures
        h.after(Event::TouchDown) == Some(next) ==> next == Hint::Touch,
        h.after(Event::TouchUp) == Some(next) ==> next == Hint::Trigger,
        h.after(Event::Swipe) == Some(next) ==> next == Hint::Trigger,
        h.after(Event::Gesture) == Some(next) ==> next == Hint::Gesture,
        h.after(Event::Junk) == Some(next) ==> next == Hint::Junk,
        h.after(Event::WindowSwitch) == Some(next) ==> next == Hint::Switch,
        h.after(Event::ScreenOn) == Some(next) ==> next == Hint::Switch,
        h.after(Event::ScreenOff) == Some(next) ==> next == Hint::Idle,
{
}

/// How long a hint lasts is set for it alone: changing the times of the others does not
/// change it, and it lasts as long as is set.
pub proof fn law_each_hint_has_its_own_time(h: Hint, d: HintDuration, e: HintDuration)
    ensures
        Hint::Idle.lasts(d) == d.idle,
        Hint::Touch.lasts(d) == d.touch,
        Hint::Trigger.lasts(d) == d.trigger,
        Hint::Gesture.lasts(d) == d.gesture,
        Hint::Switch.lasts(d) == d.switch,
        Hint::Junk.lasts(d) == d.junk,
        h.lasts(HintDuration { idle: e.idle, ..d }) != h.lasts(d) ==> h == Hint::Idle,
        h.lasts(HintDuration { touch: e.touch, ..d }) != h.lasts(d) ==> h == Hint::Touch,
        h.lasts(HintDuration { trigger: e.trigger, ..d }) != h.lasts(d) ==> h == Hint::Trigger,
        h.lasts(HintDuration { gesture: e.gesture, ..d }) != h.lasts(d) ==> h == Hint::Gesture,
        h.lasts(HintDuration { switch: e.switch, ..d }) != h.lasts(d) ==> h == Hint::Switch,
        h.lasts(HintDuration { junk: e.junk, ..d }) != h.lasts(d) ==> h == Hint::Junk,
{
}

/// A hint that is entered, by an event or by the lapse of another, holds from that moment.
pub proof fn law_hints_hold_from_when_they_are_entered(m: MachineView, event: Event, now: u128)
    ensures
        m.state.after(event) matches Some(next) ==> m.stepped(event, now).state == next && m.stepped(
            event,
            now,
        ).entered_at == now,
        m.ticked(now).state != m.state ==> m.ticked(now).entered_at == now,
        m.ticked(now).state == m.state || m.ticked(now).state == m.state.fallen_back(),
{
}

/// What is left of a hint and what has passed of it make up its time. Where a millisecond
/// or more is left, that is what there is to wait; otherwise it is a millisecond.
pub proof fn law_wait_is_what_is_left(m: MachineView, now: u128)
    requires
        m.state.lasts(m.durations) > 0,
        m.entered_at <= now,
    ensures
        m.wait(now) > 1_000_000 ==> (now - m.entered_at) + m.wait(now) == m.state.lasts(m.durations),
        (now - m.entered_at) + 1_000_000 < m.state.lasts(m.durations) ==> m.wait(now) > 1_000_000,
        m.wait(now) >= 1_000_000,
{
}

/// A clock that seems to run backwards counts as one that stands still.
pub proof fn law_time_never_runs_backwards(since: u128, now: u128)
    ensures
        elapsed(since, now) >= 0,
        since <= now ==> since + elapsed(since, now) == now,
        since >= now ==> elapsed(since, now) == 0,
{
}

/// A clock that seems to run backwards lets no hint lapse and shortens no wait.
pub proof fn law_early_ticks_change_nothing(m: MachineView, now: u128)
    requires
        now <= m.entered_at,
    ensures
        m.ticked(now) == m,
        m.state.lasts(m.durations) >= 1_000_000 ==> m.wait(now) == m.state.lasts(m.durations),
{
}

} // verus!
