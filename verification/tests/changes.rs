use uperf::watcher::cpuset_node;
use uperf::watcher::is_screen_on;
use uperf::watcher::wake_lock_node;
use uperf::watcher::Changed;
use uperf::watcher::WatchAction;
use uperf::watcher::WatchEvent;
use uperf::watcher::Watcher;

const LIT: Option<&str> = Some("a PowerManagerService.Display b");
const DARK: Option<&str> = Some("PowerManagerService.WakeLocks");

fn name(e: &WatchEvent) -> String {
    match e {
        WatchEvent::AppSwitch => "app".to_string(),
        WatchEvent::ScreenOn => "on".to_string(),
        WatchEvent::ScreenOff => "off".to_string(),
        WatchEvent::ModeChange(m) => format!("mode {m}"),
    }
}

fn watcher() -> Watcher {
    Watcher::new("/mode", Some(1), Some(2), Some(3))
}

fn told(w: &mut Watcher, changed: &[(i32, Option<&str>)]) -> Vec<String> {
    let changed: Vec<Changed> = changed
        .iter()
        .map(|c| Changed { wd: c.0, contents: c.1.map(|s| s.to_string()) })
        .collect();
    w.drain(&changed).iter().map(name).collect()
}

#[test]
fn events_are_told_apart_by_number() {
    let w = watcher();
    assert_eq!(w.switch_path(), "/mode");
    assert_eq!(w.on_event(1), WatchAction::TellAppSwitch);
    assert_eq!(w.on_event(2), WatchAction::ReadWakeLock);
    assert_eq!(w.on_event(3), WatchAction::ReadModeFile);
    assert_eq!(w.on_event(4), WatchAction::Ignore);
    let same = Watcher::new("/mode", None, Some(5), Some(5));
    assert_eq!(same.on_event(5), WatchAction::ReadWakeLock);
    assert_eq!(same.on_event(1), WatchAction::Ignore);
}

#[test]
fn newer_control_groups_are_the_fallback() {
    assert_eq!(cpuset_node(0), Some("/dev/cpuset/top-app/cgroup.procs"));
    assert_eq!(cpuset_node(1), Some("/sys/fs/cgroup/top-app/cgroup.procs"));
    assert_eq!(cpuset_node(2), None);
    assert_eq!(cpuset_node(usize::MAX), None);
    assert_eq!(wake_lock_node(), "/sys/power/wake_lock");
}

#[test]
fn screen_events_alternate() {
    let mut w = watcher();
    let seen = [LIT, DARK, DARK, LIT, None, DARK, None];
    let changed: Vec<(i32, Option<&str>)> = seen.iter().map(|c| (2, *c)).collect();
    assert_eq!(told(&mut w, &changed), vec!["off", "on", "off", "on"]);
    assert!(is_screen_on(None));
    assert!(is_screen_on(LIT));
    assert!(!is_screen_on(DARK));
    assert!(!is_screen_on(Some("")));
}

#[test]
fn mode_is_trimmed() {
    let mut w = watcher();
    assert_eq!(
        told(&mut w, &[(3, Some(" fast\n")), (3, Some(" \n")), (3, None), (3, Some("a b"))]),
        vec!["mode fast", "mode a b"]
    );
}

#[test]
fn changes_are_told_in_order() {
    let mut w = watcher();
    let changed = [(1, None), (2, DARK), (9, Some("fast")), (3, Some("fast")), (1, LIT)];
    assert_eq!(told(&mut w, &changed), vec!["app", "off", "mode fast", "app"]);
}

#[test]
fn drains_may_be_split() {
    let changed = [(2, DARK), (1, None), (2, DARK), (2, LIT)];
    let mut whole = watcher();
    let all = told(&mut whole, &changed);
    let mut split = watcher();
    let mut parts = told(&mut split, &changed[..2]);
    parts.extend(told(&mut split, &changed[2..]));
    assert_eq!(all, parts);
    assert_eq!(all, vec!["off", "app", "on"]);
}
