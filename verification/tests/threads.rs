use uperf::config::ProcessRule;
use uperf::config::SceneAffinity;
use uperf::config::ScenePrio;
use uperf::config::SchedModule;
use uperf::config::ThreadRule;
use uperf::sched::calls_for;
use uperf::sched::cpu_set_of;
use uperf::sched::fallback_call;
use uperf::sched::first_hit;
use uperf::sched::proc_entry;
use uperf::sched::thread_entry;
use uperf::sched::Priority;
use uperf::sched::SchedCall;
use uperf::sched::SchedScene;
use uperf::sched::TaskScheduler;
use uperf::sched::ThreadAction;
use uperf::strmap::StrMap;

fn thread_rule(k: &str, ac: &str, pc: &str) -> ThreadRule {
    ThreadRule { k: k.to_string(), ac: ac.to_string(), pc: pc.to_string() }
}

fn process_rule(regex: &str, pinned: bool, rules: Vec<ThreadRule>) -> ProcessRule {
    ProcessRule { name: regex.to_string(), regex: regex.to_string(), pinned, rules }
}

fn module() -> SchedModule {
    let mut cpumask = StrMap::new();
    cpumask.insert("c0".to_string(), vec![0, 1, 2]);
    cpumask.insert("c2".to_string(), vec![7]);
    let mut affinity = StrMap::new();
    affinity.insert(
        "ui".to_string(),
        SceneAffinity {
            bg: "".to_string(),
            fg: "c0".to_string(),
            idle: "c0".to_string(),
            touch: "c2".to_string(),
            boost: "gone".to_string(),
        },
    );
    let mut prio = StrMap::new();
    prio.insert("ui".to_string(), ScenePrio { bg: 0, fg: 0, idle: -4, touch: 98, boost: 120 });
    SchedModule {
        enable: true,
        cpumask,
        affinity,
        prio,
        rules: vec![
            process_rule("(unclosed", false, vec![]),
            process_rule(
                "^com\\.game",
                false,
                vec![
                    thread_rule("[bad", "ui", "ui"),
                    thread_rule("^Render", "ui", "auto"),
                    thread_rule("/MAIN_THREAD/", "ui", "ui"),
                    thread_rule(".*", "", ""),
                ],
            ),
            process_rule("surfaceflinger", true, vec![thread_rule("binder:\\d+", "none", "none")]),
            process_rule("game", false, vec![]),
        ],
    }
}

fn proc(pid: u32, cmdline: &str) -> (u32, String) {
    (pid, cmdline.to_string())
}

fn seen(a: Option<ThreadAction>) -> Option<(Vec<u32>, Priority)> {
    a.map(|a| (a.affinity_cpus, a.priority))
}

#[test]
fn priorities_are_decoded() {
    assert_eq!(Priority::from_config(0), Priority::Unchanged);
    assert_eq!(Priority::from_config(-1), Priority::Nice(-1));
    assert_eq!(Priority::from_config(-21), Priority::Nice(-20));
    assert_eq!(Priority::from_config(i32::MIN), Priority::Nice(-20));
    assert_eq!(Priority::from_config(1), Priority::Nice(1));
    assert_eq!(Priority::from_config(96), Priority::Nice(19));
    assert_eq!(Priority::from_config(97), Priority::Rt(43));
    assert_eq!(Priority::from_config(98), Priority::Rt(42));
    assert_eq!(Priority::from_config(139), Priority::Rt(1));
    assert_eq!(Priority::from_config(i32::MAX), Priority::Rt(1));
}

#[test]
fn first_matching_rule_decides() {
    let s = TaskScheduler::new(module());
    assert_eq!(s.match_process("com.game.x"), Some(1));
    assert_eq!(s.match_process("/system/bin/surfaceflinger game"), Some(2));
    assert_eq!(s.match_process("x com.game"), Some(3));
    assert_eq!(s.match_process("(unclosed"), None);
    assert_eq!(first_hit(&vec![false, true, true]), Some(1));
    assert_eq!(first_hit(&vec![]), None);
}

#[test]
fn first_matching_thread_rule_decides() {
    let mut s = TaskScheduler::new(module());
    assert_eq!(
        seen(s.resolve_thread(1, "RenderThread", true)),
        Some((vec![0, 1, 2], Priority::Unchanged))
    );
    assert_eq!(seen(s.resolve_thread(1, "main", true)), Some((vec![0, 1, 2], Priority::Nice(-4))));
    assert_eq!(seen(s.resolve_thread(1, "main", false)), Some((vec![], Priority::Unchanged)));
    assert_eq!(seen(s.resolve_thread(2, "binder:17", false)), Some((vec![], Priority::Unchanged)));
    assert_eq!(seen(s.resolve_thread(2, "binder", false)), None);
    assert_eq!(seen(s.resolve_thread(9, "main", true)), None);
    s.set_scene(SchedScene::Touch);
    assert_eq!(seen(s.resolve_thread(1, "main", true)), Some((vec![7], Priority::Rt(42))));
    s.set_scene(SchedScene::Boost);
    assert_eq!(seen(s.resolve_thread(1, "main", true)), Some((vec![], Priority::Rt(20))));
    s.set_scene(SchedScene::Bg);
    assert_eq!(seen(s.resolve_thread(1, "main", true)), Some((vec![], Priority::Unchanged)));
    s.set_scene(SchedScene::Fg);
    assert_eq!(
        seen(s.resolve_hits(1, &vec![false, false, true, true])),
        Some((vec![0, 1, 2], Priority::Unchanged))
    );
    assert_eq!(seen(s.resolve_hits(1, &vec![false; 4])), None);
}

#[test]
fn main_thread_is_the_one_with_the_process_id() {
    let s = TaskScheduler::new(module());
    let threads = vec![proc(50, "main"), proc(51, "worker"), proc(52, "RenderThread")];
    let actions: Vec<(u32, Priority)> =
        s.thread_actions(1, 50, &threads).into_iter().map(|a| (a.0, a.1.priority)).collect();
    assert_eq!(
        actions,
        vec![(50, Priority::Nice(-4)), (51, Priority::Unchanged), (52, Priority::Unchanged)]
    );
    assert!(s.thread_actions(2, 50, &threads).is_empty());
}

#[test]
fn scan_treats_new_and_pinned_processes() {
    let mut s = TaskScheduler::new(module());
    let procs = vec![proc(1, "init"), proc(20, "com.game.x"), proc(30, "surfaceflinger")];
    assert_eq!(s.scan_and_apply(&procs), vec![(20, 1), (30, 2)]);
    assert_eq!(s.scan_and_apply(&procs), vec![(30, 2)]);
    s.set_scene(SchedScene::Idle);
    assert_eq!(s.scan_and_apply(&procs), vec![(30, 2)]);
    s.set_scene(SchedScene::Touch);
    assert_eq!(s.scan_and_apply(&procs), vec![(20, 1), (30, 2)]);
    assert_eq!(s.scan_and_apply(&procs), vec![(30, 2)]);
}

#[test]
fn threads_are_treated_once_after_a_scene_change() {
    let mut s = TaskScheduler::new(module());
    let procs = vec![proc(20, "com.game.x"), proc(30, "surfaceflinger"), proc(40, "x game")];
    let tasks = |pid: u32| vec![proc(pid, "binder:1"), proc(pid + 1, "Render")];
    let treated = |s: &mut TaskScheduler| -> Vec<u32> {
        s.scan_and_apply(&procs)
            .into_iter()
            .flat_map(|(pid, rule)| s.thread_actions(rule, pid, &tasks(pid)))
            .map(|a| a.0)
            .collect()
    };
    assert_eq!(treated(&mut s), vec![20, 21, 30]);
    assert_eq!(treated(&mut s), vec![30]);
    s.set_scene(SchedScene::Touch);
    assert_eq!(treated(&mut s), vec![20, 21, 30]);
    assert_eq!(treated(&mut s), vec![30]);
}

#[test]
fn scan_forgets_the_gone() {
    let mut s = TaskScheduler::new(module());
    assert_eq!(s.scan_and_apply(&vec![proc(20, "com.game.x")]), vec![(20, 1)]);
    assert_eq!(s.scan_and_apply(&vec![proc(20, "x game")]), vec![]);
    assert_eq!(s.scan_and_apply(&vec![]), vec![]);
    assert_eq!(s.scan_and_apply(&vec![proc(20, "x game")]), vec![(20, 3)]);
}

#[test]
fn failed_scan_counts_and_forgets_nothing() {
    let mut s = TaskScheduler::new(module());
    let procs = vec![proc(20, "com.game.x")];
    assert_eq!(s.scan_and_apply(&procs), vec![(20, 1)]);
    s.set_scene(SchedScene::Touch);
    s.scan_failed();
    assert_eq!(s.scan_and_apply(&procs), vec![]);
}

#[test]
fn scan_can_be_done_step_by_step() {
    let mut s = TaskScheduler::new(module());
    s.set_scene(SchedScene::Boost);
    let force = s.begin_scan(&vec![5, 6]);
    assert!(force);
    assert_eq!(s.visit(force, 5, Some(3)), Some(3));
    assert_eq!(s.visit(force, 6, None), None);
    let force = s.begin_scan(&vec![5]);
    assert!(!force);
    assert_eq!(s.visit(force, 5, Some(1)), None);
    assert_eq!(s.visit(true, 5, None), Some(3));
}

fn call_text(c: &SchedCall) -> String {
    format!("{c:?}")
}

#[test]
fn calls_follow_the_action() {
    let action = |cpus: Vec<u32>, priority: Priority| ThreadAction { affinity_cpus: cpus, priority };
    assert!(calls_for(9, action(vec![], Priority::Unchanged)).is_empty());
    let calls = calls_for(9, action(vec![4, 5], Priority::Rt(42)));
    assert_eq!(calls.len(), 2);
    assert!(matches!(&calls[0], SchedCall::Affinity { tid: 9, cpus } if *cpus == vec![4, 5]));
    assert!(matches!(&calls[1], SchedCall::Fifo { tid: 9, priority: 42 }));
    assert!(fallback_call(&calls[0]).is_none());
    let instead = fallback_call(&calls[1]).unwrap();
    assert!(matches!(&instead, SchedCall::Nice { tid: 9, nice: -10 }), "{}", call_text(&instead));
    assert!(fallback_call(&instead).is_none());
    let calls = calls_for(9, action(vec![], Priority::Nice(-4)));
    assert!(matches!(&calls[..], [SchedCall::Nice { tid: 9, nice: -4 }]));
}

#[test]
fn masks_hold_their_processors() {
    let set = cpu_set_of(&vec![0, 7, 7, u32::MAX]);
    let members: Vec<usize> = (0..16).filter(|c| set.is_set(*c).unwrap()).collect();
    assert_eq!(members, vec![0, 7]);
    let none = cpu_set_of(&vec![]);
    assert!((0..16).all(|c| !none.is_set(c).unwrap()));
}

#[test]
fn entries_of_processes_and_threads() {
    assert_eq!(
        proc_entry("123", "com.game\0--x\0"),
        Some((123, "com.game --x".to_string()))
    );
    assert_eq!(proc_entry("123", "\0\0"), None);
    assert_eq!(proc_entry("self", "com.game"), None);
    assert_eq!(proc_entry("4294967296", "com.game"), None);
    assert_eq!(thread_entry("7", "RenderThread\n"), Some((7, "RenderThread".to_string())));
    assert_eq!(thread_entry("7", ""), Some((7, "".to_string())));
    assert_eq!(thread_entry("x", "a"), None);
}
