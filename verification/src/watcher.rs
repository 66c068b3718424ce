//! Changes outside the program: the application in front, the screen, and the
//! performance mode.
//!
//! A watcher is told which watched nodes changed. It says which of them have to be read,
//! and what the changes mean once that was done.
use crate::text;
use vstd::prelude::*;

verus! {

/// A change.
#[derive(Debug)]
pub enum WatchEvent {
    /// Another application came to the front.
    AppSwitch,
    ScreenOn,
    ScreenOff,
    /// A performance mode was asked for.
    ModeChange(String),
}

/// What a [`WatchEvent`] stands for.
pub enum WatchView {
    AppSwitch,
    ScreenOn,
    ScreenOff,
    ModeChange(Seq<char>),
}

impl View for WatchEvent {
    type V = WatchView;

    open spec fn view(&self) -> WatchView {
        match self {
            WatchEvent::AppSwitch => WatchView::AppSwitch,
            WatchEvent::ScreenOn => WatchView::ScreenOn,
            WatchEvent::ScreenOff => WatchView::ScreenOff,
            WatchEvent::ModeChange(mode) => WatchView::ModeChange(mode@),
        }
    }
}

/// What a watched node that changed is about.
#[derive(Debug, Clone, Copy, PartialEq, Eq, Structural)]
pub enum WatchAction {
    /// Another application came to the front.
    TellAppSwitch,
    /// The wake locks, which are to be read.
    ReadWakeLock,
    /// The mode file, which is to be read.
    ReadModeFile,
    /// Nothing.
    Ignore,
}

/// A watched node that changed: the number under which it is watched and, if it was to
/// be read and could be, its contents.
#[derive(Debug)]
pub struct Changed {
    pub wd: i32,
    pub contents: Option<String>,
}

/// What a [`Changed`] stands for.
pub struct ChangedView {
    pub wd: i32,
    pub contents: Option<Seq<char>>,
}

impl View for Changed {
    type V = ChangedView;

    open spec fn view(&self) -> ChangedView {
        ChangedView {
            wd: self.wd,
            contents: match self.contents {
                Some(s) => Some(s@),
                None => None,
            },
        }
    }
}

/// What each of some changed nodes stands for.
pub open spec fn changed_views(changed: Seq<Changed>) -> Seq<ChangedView> {
    changed.map_values(|c: Changed| c@)
}

/// What each of some changes stands for.
pub open spec fn event_views(events: Seq<WatchEvent>) -> Seq<WatchView> {
    events.map_values(|e: WatchEvent| e@)
}

/// The node that lists the processes of the application in front, where `failed` such
/// nodes could not be watched already: that of the older control groups, then that of the
/// newer ones.
pub open spec fn cpuset_path(failed: nat) -> Option<Seq<char>> {
    if failed == 0 {
        Some("/dev/cpuset/top-app/cgroup.procs"@)
    } else if failed == 1 {
        Some("/sys/fs/cgroup/top-app/cgroup.procs"@)
    } else {
        None
    }
}

/// The node to be watched for the application in front, where `failed` such nodes could
/// not be watched already.
pub fn cpuset_node(failed: usize) -> (r: Option<&'static str>)
    ensures
        text_view(r) == cpuset_path(failed as nat),
{
    if failed == 0 {
        Some("/dev/cpuset/top-app/cgroup.procs")
    } else if failed == 1 {
        Some("/sys/fs/cgroup/top-app/cgroup.procs")
    } else {
        None
    }
}

/// The node of the wake locks.
pub fn wake_lock_node() -> (r: &'static str)
    ensures
        r@ == "/sys/power/wake_lock"@,
{
    "/sys/power/wake_lock"
}

/// Whether the screen is on by the wake locks; taken to be on where they cannot be
/// read.
pub open spec fn screen_lit(wake_locks: Option<Seq<char>>) -> bool {
    match wake_locks {
        Some(s) => text::occurs(s, "PowerManagerService.Display"@),
        None => true,
    }
}

/// What is told of the screen: only what changed.
pub open spec fn screen_told(was_on: bool, is_on: bool) -> Option<WatchView> {
    if was_on == is_on {
        None
    } else if is_on {
        Some(WatchView::ScreenOn)
    } else {
        Some(WatchView::ScreenOff)
    }
}

/// What is told of the mode file: its contents without the spaces around, unless
/// nothing is left. A file that cannot be read counts as empty.
pub open spec fn mode_told(contents: Option<Seq<char>>) -> Option<WatchView> {
    match contents {
        Some(s) => if text::trimmed(s).len() > 0 {
            Some(WatchView::ModeChange(text::trimmed(s)))
        } else {
            None
        },
        None => None,
    }
}

/// The characters of a text that may be missing.
pub open spec fn text_view(s: Option<&str>) -> Option<Seq<char>> {
    match s {
        Some(t) => Some(t@),
        None => None,
    }
}

/// Whether an event, if any, is a given one.
pub open spec fn tells(r: Option<WatchEvent>, v: Option<WatchView>) -> bool {
    match r {
        Some(e) => v == Some(e@),
        None => v is None,
    }
}

/// What a [`Watcher`] stands for: the numbers under which the list of processes in front,
/// the wake locks and the mode file are watched, the path of the mode file, and whether
/// the screen was last seen on.
pub struct WatcherView {
    pub cpuset: Option<i32>,
    pub wakelock: Option<i32>,
    pub switchfile: Option<i32>,
    pub path: Seq<char>,
    pub lit: bool,
}

impl WatcherView {
    /// What the node that is watched under a number is about.
    pub open spec fn about(self, wd: i32) -> WatchAction {
        if self.cpuset == Some(wd) {
            WatchAction::TellAppSwitch
        } else if self.wakelock == Some(wd) {
            WatchAction::ReadWakeLock
        } else if self.switchfile == Some(wd) {
            WatchAction::ReadModeFile
        } else {
            WatchAction::Ignore
        }
    }

    /// What a changed node tells.
    pub open spec fn told(self, c: ChangedView) -> Option<WatchView> {
        match self.about(c.wd) {
            WatchAction::TellAppSwitch => Some(WatchView::AppSwitch),
            WatchAction::ReadWakeLock => screen_told(self.lit, screen_lit(c.contents)),
            WatchAction::ReadModeFile => mode_told(c.contents),
            WatchAction::Ignore => None,
        }
    }

    /// The watcher after a node changed.
    pub open spec fn after(self, c: ChangedView) -> WatcherView {
        if self.about(c.wd) == WatchAction::ReadWakeLock {
            WatcherView { lit: screen_lit(c.contents), ..self }
        } else {
            self
        }
    }

    /// The watcher after some nodes changed.
    pub open spec fn after_all(self, changed: Seq<ChangedView>) -> WatcherView
        decreases changed.len(),
    {
        if changed.len() == 0 {
            self
        } else {
            self.after_all(changed.drop_last()).after(changed.last())
        }
    }

    /// What some changed nodes tell, in order.
    pub open spec fn told_by(self, changed: Seq<ChangedView>) -> Seq<WatchView>
        decreases changed.len(),
    {
        if changed.len() == 0 {
            Seq::empty()
        } else {
            let before = self.told_by(changed.drop_last());
            match self.after_all(changed.drop_last()).told(changed.last()) {
                Some(e) => before.push(e),
                None => before,
            }
        }
    }
}

/// The watched nodes, and whether the screen was last seen on.
pub struct Watcher {
    wd_cpuset: Option<i32>,
    wd_wakelock: Option<i32>,
    wd_switchfile: Option<i32>,
    switch_path: String,
    screen_on: bool,
}

impl View for Watcher {
    type V = WatcherView;

    closed spec fn view(&self) -> WatcherView {
        WatcherView {
            cpuset: self.wd_cpuset,
            wakelock: self.wd_wakelock,
            switchfile: self.wd_switchfile,
            path: self.switch_path@,
            lit: self.screen_on,
        }
    }
}

impl Watcher {
    /// A watcher of the nodes that could be watched. The screen is taken to be on.
    pub fn new(
        switch_inode: &str,
        wd_cpuset: Option<i32>,
        wd_wakelock: Option<i32>,
        wd_switchfile: Option<i32>,
    ) -> (r: Self)
        ensures
            r@ == (WatcherView {
                cpuset: wd_cpuset,
                wakelock: wd_wakelock,
                switchfile: wd_switchfile,
                path: switch_inode@,
                lit: true,
            }),
    {
        Watcher {
            wd_cpuset,
            wd_wakelock,
            wd_switchfile,
            switch_path: switch_inode.to_owned(),
            screen_on: true,
        }
    }

    /// The path of the mode file.
    pub fn switch_path(&self) -> (r: &str)
        ensures
            r@ == self@.path,
    {
        self.switch_path.as_str()
    }

    /// What the node that is watched under a number is about.
    pub fn on_event(&self, wd: i32) -> (r: WatchAction)
        ensures
            r == self@.about(wd),
    {
        if self.wd_cpuset == Some(wd) {
            WatchAction::TellAppSwitch
        } else if self.wd_wakelock == Some(wd) {
            WatchAction::ReadWakeLock
        } else if self.wd_switchfile == Some(wd) {
            WatchAction::ReadModeFile
        } else {
            WatchAction::Ignore
        }
    }

    /// Looks at the wake locks.
    fn on_wake_lock(&mut self, contents: Option<&str>) -> (r: Option<WatchEvent>)
        ensures
            tells(r, screen_told(old(self)@.lit, screen_lit(text_view(contents)))),
            final(self)@ == (WatcherView { lit: screen_lit(text_view(contents)), ..old(self)@ }),
    {
        let new_on: bool = is_screen_on(contents);
        if new_on == self.screen_on {
            return None;
        }
        self.screen_on = new_on;
        if new_on {
            Some(WatchEvent::ScreenOn)
        } else {
            Some(WatchEvent::ScreenOff)
        }
    }

    /// Looks at a changed node.
    fn on_changed(&mut self, changed: &Changed) -> (r: Option<WatchEvent>)
        ensures
            tells(r, old(self)@.told(changed@)),
            final(self)@ == old(self)@.after(changed@),
    {
        let contents: Option<&str> = match &changed.contents {
            Some(s) => Some(s.as_str()),
            None => None,
        };
        match self.on_event(changed.wd) {
            WatchAction::TellAppSwitch => Some(WatchEvent::AppSwitch),
            WatchAction::ReadWakeLock => self.on_wake_lock(contents),
            WatchAction::ReadModeFile => on_mode_file(contents),
            WatchAction::Ignore => None,
        }
    }

    /// What the nodes that changed tell, in order.
    pub fn drain(&mut self, changed: &Vec<Changed>) -> (r: Vec<WatchEvent>)
        ensures
            event_views(r@) == old(self)@.told_by(changed_views(changed@)),
            final(self)@ == old(self)@.after_all(changed_views(changed@)),
    {
        let ghost all = changed_views(changed@);
        let ghost start = self@;
        let n: usize = changed.len();
        let mut r: Vec<WatchEvent> = Vec::new();
        let mut i: usize = 0;
        assert(event_views(r@) == Seq::<WatchView>::empty());
        while i < n
            invariant
                i <= n,
                n == changed@.len(),
                all == changed_views(changed@),
                start == old(self)@,
                event_views(r@) == start.told_by(all.take(i as int)),
                self@ == start.after_all(all.take(i as int)),
            decreases n - i,
        {
            assert(all.take(i + 1).drop_last() == all.take(i as int));
            assert(all.take(i + 1).last() == changed@[i as int]@);
            let ghost before = r@;
            if let Some(e) = self.on_changed(&changed[i]) {
                r.push(e);
                assert(event_views(r@) == event_views(before).push(e@));
            }
            i = i + 1;
        }
        assert(all.take(n as int) == all);
        r
    }
}

/// Looks at the mode file.
fn on_mode_file(contents: Option<&str>) -> (r: Option<WatchEvent>)
    ensures
        tells(r, mode_told(text_view(contents))),
{
    match contents {
        Some(s) => {
            let mode: &str = text::trim(s);
            if text::chars_of(mode).len() > 0 {
                Some(WatchEvent::ModeChange(mode.to_owned()))
            } else {
                None
            }
        },
        None => None,
    }
}

/// Whether the screen is on by the wake locks.
pub fn is_screen_on(wake_locks: Option<&str>) -> (r: bool)
    ensures
        r == screen_lit(text_view(wake_locks)),
{
    match wake_locks {
        Some(s) => text::contains(s, "PowerManagerService.Display"),
        None => true,
    }
}

/// The changes of the screen among some changes.
pub open spec fn screen_changes(events: Seq<WatchView>) -> Seq<WatchView> {
    events.filter(|e: WatchView| e == WatchView::ScreenOn || e == WatchView::ScreenOff)
}

/// What is told of the screen alternates: the first time the opposite of how it was, and
/// then each time the opposite of the time before. The last thing told is how the screen
/// was last seen.
pub proof fn law_screen_events_alternate(w: WatcherView, changed: Seq<ChangedView>)
    ensures
        ({
            let told = screen_changes(w.told_by(changed));
            let opposite = |on: bool|
                if on {
                    WatchView::ScreenOff
                } else {
                    WatchView::ScreenOn
                };
            &&& told.len() > 0 ==> told[0] == opposite(w.lit)
            &&& forall|i: int, j: int|
                #![trigger told[i], told[j]]
                0 <= i && j == i + 1 && j < told.len() ==> told[i] != told[j]
            &&& told.len() > 0 ==> told.last() == opposite(!w.after_all(changed).lit)
            &&& told.len() == 0 ==> w.after_all(changed).lit == w.lit
        }),
    decreases changed.len(),
{
    let f = |e: WatchView| e == WatchView::ScreenOn || e == WatchView::ScreenOff;
    reveal(Seq::filter);
    if changed.len() > 0 {
        let rest = changed.drop_last();
        law_screen_events_alternate(w, rest);
        let before = w.told_by(rest);
        if let Some(e) = w.after_all(rest).told(changed.last()) {
            assert(before.push(e).drop_last() == before);
            assert(screen_changes(w.told_by(changed)) == if f(e) {
                screen_changes(before).push(e)
            } else {
                screen_changes(before)
            });
        }
    }
}

/// A screen that does not change is not told of again, and a blank mode file tells
/// nothing.
pub proof fn law_nothing_new_is_not_told(w: WatcherView, c: ChangedView)
    ensures
        w.after(c).told(c) matches Some(e) ==> e != WatchView::ScreenOn && e != WatchView::ScreenOff,
        w.told(c) matches Some(WatchView::ModeChange(mode)) ==> mode.len() > 0,
{
}

/// Looking at the nodes in two steps tells the same as looking at them in one.
pub proof fn law_drains_may_be_split(w: WatcherView, a: Seq<ChangedView>, b: Seq<ChangedView>)
    ensures
        w.told_by(a + b) == w.told_by(a) + w.after_all(a).told_by(b),
        w.after_all(a + b) == w.after_all(a).after_all(b),
    decreases b.len(),
{
    if b.len() == 0 {
        assert(a + b == a);
    } else {
        law_drains_may_be_split(w, a, b.drop_last());
        assert((a + b).drop_last() == a + b.drop_last());
        assert((a + b).last() == b.last());
    }
}

/// The screen is on exactly where the display's lock stands somewhere among the wake locks,
/// or where they cannot be read.
pub proof fn law_screen_by_wake_locks(a: Seq<char>, b: Seq<char>, s: Seq<char>)
    ensures
        screen_lit(None),
        screen_lit(Some(a + "PowerManagerService.Display"@ + b)),
        screen_lit(Some(s)) ==> text::occurs(s, "PowerManagerService.Display"@),
{
    text::law_parts_of_a_text(a, "PowerManagerService.Display"@, b, s);
}

/// A changed screen is told as it is now.
pub proof fn law_screen_is_told_as_it_is(was_on: bool, is_on: bool)
    ensures
        screen_told(was_on, is_on) is None <==> was_on == is_on,
        screen_told(was_on, is_on) == Some(WatchView::ScreenOn) ==> is_on,
        screen_told(was_on, is_on) == Some(WatchView::ScreenOff) ==> !is_on,
        screen_told(was_on, is_on) matches Some(e) ==> e == WatchView::ScreenOn || e
            == WatchView::ScreenOff,
{
}

/// The mode asked for is what the file holds between the white space around; where that is
/// nothing, or there is no file, none is asked for.
pub proof fn law_mode_of_a_file(a: Seq<char>, mode: Seq<char>, b: Seq<char>)
    requires
        text::blank(a),
        text::blank(b),
        mode.len() > 0 ==> !text::is_space(mode[0]) && !text::is_space(mode.last()),
    ensures
        mode.len() > 0 ==> mode_told(Some(a + mode + b)) == Some(WatchView::ModeChange(mode)),
        mode.len() == 0 ==> mode_told(Some(a + mode + b)) is None,
        mode_told(None) is None,
{
    text::law_trimming(a, mode, b);
}

/// A node tells what it is watched for, and a number under which nothing is watched tells
/// nothing. Only the wake locks change what is known of the screen.
pub proof fn law_nodes_tell_what_they_are_watched_for(w: WatcherView, c: ChangedView)
    ensures
        w.cpuset == Some(c.wd) ==> w.told(c) == Some(WatchView::AppSwitch) && w.after(c) == w,
        w.cpuset != Some(c.wd) && w.wakelock == Some(c.wd) ==> w.told(c) == screen_told(
            w.lit,
            screen_lit(c.contents),
        ) && w.after(c).lit == screen_lit(c.contents),
        w.cpuset != Some(c.wd) && w.wakelock != Some(c.wd) && w.switchfile == Some(c.wd) ==> w.told(c)
            == mode_told(c.contents) && w.after(c) == w,
        w.cpuset != Some(c.wd) && w.wakelock != Some(c.wd) && w.switchfile != Some(c.wd) ==> w.told(c) is None
            && w.after(c) == w,
        w.after(c).cpuset == w.cpuset && w.after(c).wakelock == w.wakelock && w.after(c).switchfile
            == w.switchfile && w.after(c).path == w.path,
{
}

/// What a node is about says whether it has to be read.
pub proof fn law_what_has_to_be_read(w: WatcherView, wd: i32)
    ensures
        w.about(wd) == WatchAction::TellAppSwitch <==> w.cpuset == Some(wd),
        w.about(wd) == WatchAction::ReadWakeLock <==> w.cpuset != Some(wd) && w.wakelock == Some(wd),
        w.about(wd) == WatchAction::ReadModeFile <==> w.cpuset != Some(wd) && w.wakelock != Some(wd)
            && w.switchfile == Some(wd),
{
}

/// The node of the newer control groups is tried after that of the older ones, and nothing
/// after that.
pub proof fn law_newer_control_groups_come_second(failed: nat)
    ensures
        cpuset_path(0) == Some("/dev/cpuset/top-app/cgroup.procs"@),
        cpuset_path(1) == Some("/sys/fs/cgroup/top-app/cgroup.procs"@),
        failed >= 2 ==> cpuset_path(failed) is None,
{
}

/// Changed nodes are looked at one by one.
pub proof fn law_single_changes(w: WatcherView, c: ChangedView)
    ensures
        w.after_all(seq![c]) == w.after(c),
        w.told(c) is None ==> w.told_by(seq![c]).len() == 0,
        w.told(c) matches Some(e) ==> w.told_by(seq![c]) == seq![e],
{
    let one = seq![c];
    assert(one.drop_last() == Seq::<ChangedView>::empty());
    assert(one.last() == c);
    assert(w.after_all(one.drop_last()) == w);
    assert(w.told_by(one.drop_last()) == Seq::<WatchView>::empty());
}

/// Changes and what they tell stand for their parts.
pub proof fn law_changes_stand_for_their_parts(
    event: WatchEvent,
    changed: Changed,
    events: Seq<WatchEvent>,
    all: Seq<Changed>,
    i: int,
    v: Option<WatchView>,
)
    ensures
        event@ == match event {
            WatchEvent::AppSwitch => WatchView::AppSwitch,
            WatchEvent::ScreenOn => WatchView::ScreenOn,
            WatchEvent::ScreenOff => WatchView::ScreenOff,
            WatchEvent::ModeChange(mode) => WatchView::ModeChange(mode@),
        },
        changed@.wd == changed.wd,
        changed.contents matches Some(s) ==> changed@.contents == Some(s@),
        changed.contents is None ==> changed@.contents is None,
        event_views(events).len() == events.len(),
        0 <= i < events.len() ==> event_views(events)[i] == events[i]@,
        changed_views(all).len() == all.len(),
        0 <= i < all.len() ==> changed_views(all)[i] == all[i]@,
        tells(Some(event), v) <==> v == Some(event@),
        tells(None, v) <==> v is None,
{
}

/// A text that may be missing stands for its characters.
pub proof fn law_texts_stand_for_their_characters(s: &str)
    ensures
        text_view(Some(s)) == Some(s@),
        text_view(None) is None,
{
}

} // verus!
