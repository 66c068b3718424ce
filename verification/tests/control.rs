use serde_json::Value;
use uperf::config::Config;
use uperf::config::CpuInitials;
use uperf::config::CpuModule;
use uperf::config::HintDuration;
use uperf::config::Initials;
use uperf::config::InputModule;
use uperf::config::LogModule;
use uperf::config::Meta;
use uperf::config::Modules;
use uperf::config::Preset;
use uperf::config::PresetValue;
use uperf::config::ProcessRule;
use uperf::config::SchedInitials;
use uperf::config::SchedModule;
use uperf::config::SfAnalysisModule;
use uperf::config::SwitcherModule;
use uperf::config::SysfsModule;
use uperf::config::ThreadRule;
use uperf::controller::apply_cpu_param;
use uperf::controller::apply_params;
use uperf::controller::choose_mode;
use uperf::controller::collect_params;
use uperf::controller::json_to_str;
use uperf::controller::read_mode;
use uperf::controller::scene_of;
use uperf::controller::Controller;
use uperf::controller::Param;
use uperf::cpu::Governor;
use uperf::cpu::PowerModel;
use uperf::double::Double;
use uperf::fsm::Hint;
use uperf::input::TouchEvent;
use uperf::sched::SchedScene;
use uperf::strmap::StrMap;
use uperf::sysfs::SysfsWriter;
use uperf::watcher::WatchEvent;

const MS: u128 = 1_000_000;

fn double(x: f64) -> Double {
    Double { bits: x.to_bits() }
}

fn value(json: Value) -> PresetValue {
    let number = json_to_str(&json).parse::<f64>().ok().map(double);
    PresetValue { json, number }
}

fn group(pairs: Vec<(&str, Value)>) -> StrMap<PresetValue> {
    let mut m = StrMap::new();
    for (k, v) in pairs {
        m.insert(k.to_string(), value(v));
    }
    m
}

fn balance() -> Preset {
    let mut p = StrMap::new();
    p.insert(
        "*".to_string(),
        group(vec![
            ("cpu.margin", Value::from(0.25)),
            ("cpu.limitEfficiency", Value::from(false)),
            ("sysfs.top", Value::from("0-3")),
            ("sched.scene", Value::from("idle")),
            ("rate", Value::from(5)),
        ]),
    );
    p.insert(
        "switch".to_string(),
        group(vec![
            ("cpu.fastLimitPower", Value::from("6.5")),
            ("cpu.limitEfficiency", Value::from(true)),
            ("sysfs.top", Value::from("0-7")),
        ]),
    );
    p
}

fn fast() -> Preset {
    let mut p = StrMap::new();
    p.insert("*".to_string(), group(vec![("rate", Value::from(9))]));
    p
}

fn cpu_initials() -> CpuInitials {
    CpuInitials {
        base_sample_time: double(0.01),
        base_slack_time: double(0.01),
        latency_time: double(0.2),
        slow_limit_power: double(3.0),
        fast_limit_power: double(4.0),
        fast_limit_capacity: double(10.0),
        fast_limit_recover_scale: double(0.3),
        predict_thd: double(0.3),
        margin: double(0.5),
        burst: double(0.0),
        guide_cap: true,
        limit_efficiency: true,
    }
}

fn config(analysis: bool, presets: Vec<(&str, Preset)>) -> Config {
    let mut knob = StrMap::new();
    knob.insert("top".to_string(), "/top".to_string());
    knob.insert("rate".to_string(), "/cpu%d/rate".to_string());
    let mut cpumask = StrMap::new();
    cpumask.insert("c1".to_string(), vec![4, 5]);
    cpumask.insert("c0".to_string(), vec![0, 1]);
    let mut initial = StrMap::new();
    initial.insert("top".to_string(), "0".to_string());
    let mut all = StrMap::new();
    for (name, preset) in presets {
        all.insert(name.to_string(), preset);
    }
    Config {
        meta: Meta { name: "test".to_string(), author: "nobody".to_string() },
        modules: Modules {
            switcher: SwitcherModule {
                switch_inode: "/mode".to_string(),
                perapp: "/perapp".to_string(),
                hint_duration: HintDuration {
                    idle: 0,
                    touch: 4000 * MS,
                    trigger: 30 * MS,
                    gesture: 100 * MS,
                    switch: 400 * MS,
                    junk: 60 * MS,
                },
            },
            log: LogModule { level: "info".to_string() },
            input: InputModule {
                enable: true,
                swipe_thd: double(0.01),
                gesture_thd_x: double(0.03),
                gesture_thd_y: double(0.03),
                gesture_delay_time: double(2.0),
                hold_enter_time: double(1.0),
            },
            sfanalysis: SfAnalysisModule {
                enable: analysis,
                render_idle_slack_time: double(if analysis { 0.004 } else { 0.0 }),
            },
            cpu: CpuModule { enable: true, power_model: vec![] },
            sysfs: SysfsModule { enable: true, knob },
            sched: SchedModule {
                enable: true,
                cpumask,
                affinity: StrMap::new(),
                prio: StrMap::new(),
                rules: vec![ProcessRule {
                    name: "all".to_string(),
                    regex: ".".to_string(),
                    pinned: false,
                    rules: vec![ThreadRule {
                        k: "x".to_string(),
                        ac: "auto".to_string(),
                        pc: "auto".to_string(),
                    }],
                }],
            },
        },
        initials: Initials {
            cpu: cpu_initials(),
            sysfs: initial,
            sched: SchedInitials { scene: "idle".to_string() },
        },
        presets: all,
    }
}

fn controller(mode_file: Option<&str>) -> Controller {
    let cfg = config(false, vec![("balance", balance()), ("fast", fast())]);
    Controller::new(cfg, &vec![], mode_file, 0)
}

fn drain(c: &mut Controller) -> Vec<(String, String)> {
    let mut r = Vec::new();
    while let Some(job) = c.sysfs.next_write() {
        r.push((job.path.clone(), job.value.clone()));
        c.sysfs.report(job, true);
    }
    r
}

fn pairs(list: &[(&str, &str)]) -> Vec<(String, String)> {
    list.iter().map(|p| (p.0.to_string(), p.1.to_string())).collect()
}

#[test]
fn json_values_have_texts() {
    assert_eq!(json_to_str(&Value::from("0-7")), "0-7");
    assert_eq!(json_to_str(&Value::from("a\"b")), "a\"b");
    assert_eq!(json_to_str(&Value::from(1.5)), "1.5");
    assert_eq!(json_to_str(&Value::from(12)), "12");
    assert_eq!(json_to_str(&Value::from(true)), "true");
    assert_eq!(json_to_str(&Value::Null), "null");
    assert_eq!(json_to_str(&Value::from(vec![1, 2])), "[1,2]");
}

#[test]
fn mode_file_is_read() {
    assert_eq!(read_mode(Some("  FAST mode\n")), "fast");
    assert_eq!(read_mode(Some(" \n")), "balance");
    assert_eq!(read_mode(None), "balance");
    assert_eq!(read_mode(Some("\u{c9}CO")), "\u{e9}co");
}

#[test]
fn modes_without_a_preset_give_the_first() {
    let mut presets: StrMap<Preset> = StrMap::new();
    assert_eq!(choose_mode(&presets, "fast", "balance"), "balance");
    presets.insert("powersave".to_string(), fast());
    presets.insert("fast".to_string(), fast());
    presets.insert("auto".to_string(), fast());
    assert_eq!(choose_mode(&presets, "fast", "balance"), "fast");
    assert_eq!(choose_mode(&presets, "auto", "balance"), "powersave");
    assert_eq!(choose_mode(&presets, "turbo", "balance"), "powersave");
}

#[test]
fn own_parameters_override() {
    let preset = balance();
    let idle = collect_params(&preset, Hint::Idle);
    assert_eq!(idle.len(), 5);
    assert_eq!(idle.get("sysfs.top").unwrap().text, "0-3");
    assert_eq!(idle.get("rate").unwrap().text, "5");
    assert_eq!(idle.get("cpu.margin").unwrap().number.unwrap().bits, (0.25f64).to_bits());
    let switch = collect_params(&preset, Hint::Switch);
    assert_eq!(switch.len(), 6);
    assert_eq!(switch.get("sysfs.top").unwrap().text, "0-7");
    assert_eq!(switch.get("cpu.limitEfficiency").unwrap().text, "true");
    assert_eq!(switch.get("rate").unwrap().text, "5");
}

fn param(text: &str) -> Param {
    Param { text: text.to_string(), number: text.parse::<f64>().ok().map(double) }
}

#[test]
fn governor_parameters_have_two_spellings() {
    let model = PowerModel::new(
        &CpuModule { enable: true, power_model: vec![] },
        &StrMap::new(),
        &vec![],
    );
    let mut g = Governor::new(model, &cpu_initials());
    apply_cpu_param(&mut g, "fastLimitPower", &param("7.5"));
    assert_eq!(g.tunables().max_power.bits, (7.5f64).to_bits());
    apply_cpu_param(&mut g, "fast_limit_power", &param("2"));
    assert_eq!(g.tunables().max_power.bits, (2.0f64).to_bits());
    apply_cpu_param(&mut g, "fast_limit_power", &param("much"));
    assert_eq!(g.tunables().max_power.bits, (2.0f64).to_bits());
    apply_cpu_param(&mut g, "margin", &param("0.1"));
    assert_eq!(g.tunables().margin.bits, (0.1f64).to_bits());
    apply_cpu_param(&mut g, "limitEfficiency", &param("0"));
    assert!(!g.tunables().limit_eff);
    apply_cpu_param(&mut g, "limit_efficiency", &param("1"));
    assert!(g.tunables().limit_eff);
    apply_cpu_param(&mut g, "limitEfficiency", &param("True"));
    assert!(!g.tunables().limit_eff);
    apply_cpu_param(&mut g, "burst", &param("1"));
    assert_eq!(g.tunables().margin.bits, (0.1f64).to_bits());
}

#[test]
fn parameters_stay_apart() {
    let model = PowerModel::new(
        &CpuModule { enable: true, power_model: vec![] },
        &StrMap::new(),
        &vec![],
    );
    let mut g = Governor::new(model, &cpu_initials());
    let mut knob = StrMap::new();
    for name in ["a", "margin", "scene", "cpu.x", "sched.y"] {
        knob.insert(name.to_string(), format!("/{name}"));
    }
    let mut w = SysfsWriter::new(&knob, vec![], vec![]);
    let mut params = StrMap::new();
    for (k, v) in [("a", "1"), ("cpu.margin", "2"), ("sched.scene", "3"), ("sysfs.a", "4"),
        ("cpu.x", "5"), ("sched.y", "6"), ("sysfs.cpu.x", "7")]
    {
        params.insert(k.to_string(), param(v));
    }
    apply_params(&mut w, &mut g, &params);
    let mut written = Vec::new();
    while let Some(job) = w.next_write() {
        written.push((job.path, job.value));
    }
    assert_eq!(written, pairs(&[("/a", "4"), ("/cpu.x", "7")]));
    assert_eq!(g.tunables().margin.bits, (2.0f64).to_bits());
}

#[test]
fn scene_is_named_by_hint() {
    assert_eq!(scene_of(Hint::Idle), SchedScene::Idle);
    assert_eq!(scene_of(Hint::Switch), SchedScene::Boost);
    for h in [Hint::Touch, Hint::Trigger, Hint::Gesture, Hint::Junk] {
        assert_eq!(scene_of(h), SchedScene::Touch);
    }
}

#[test]
fn start_writes_initials_and_the_preset() {
    let mut c = controller(Some("BALANCE"));
    assert_eq!(c.mode, "balance");
    assert_eq!(c.fsm.current(), Hint::Idle);
    assert_eq!(
        drain(&mut c),
        pairs(&[("/top", "0"), ("/top", "0-3"), ("/cpu0/rate", "5"), ("/cpu4/rate", "5")])
    );
    assert_eq!(c.governor.tunables().margin.bits, (0.25f64).to_bits());
    assert_eq!(c.governor.tunables().max_power.bits, (4.0f64).to_bits());
    assert!(!c.governor.tunables().limit_eff);
    assert_eq!(controller(Some("fast")).mode, "fast");
    assert_eq!(controller(Some("auto")).mode, "balance");
    assert_eq!(Controller::start(config(false, vec![]), &vec![], "auto", 0).mode, "balance");
}

#[test]
fn touches_lead_to_hints() {
    let mut c = controller(None);
    drain(&mut c);
    assert_eq!(c.on_touch(TouchEvent::Up, 0), None);
    assert_eq!(c.on_touch(TouchEvent::Down, MS), Some(Hint::Touch));
    assert_eq!(drain(&mut c), vec![]);
    assert_eq!(c.on_touch(TouchEvent::Gesture, 2 * MS), Some(Hint::Gesture));
    assert_eq!(c.tick(102 * MS), Some(Hint::Touch));
    assert_eq!(c.on_touch(TouchEvent::Swipe, 103 * MS), Some(Hint::Trigger));
    assert_eq!(c.tick(104 * MS), None);
}

#[test]
fn application_switch_sets_its_parameters() {
    let mut c = controller(None);
    drain(&mut c);
    c.on_watch(WatchEvent::AppSwitch, 0);
    assert_eq!(c.fsm.current(), Hint::Switch);
    assert_eq!(drain(&mut c), pairs(&[("/top", "0-7")]));
    assert_eq!(c.governor.tunables().max_power.bits, (6.5f64).to_bits());
    assert!(c.governor.tunables().limit_eff);
    assert_eq!(c.tick(400 * MS), Some(Hint::Touch));
    assert_eq!(drain(&mut c), pairs(&[("/top", "0-3")]));
    assert_eq!(c.governor.tunables().max_power.bits, (6.5f64).to_bits());
    assert!(!c.governor.tunables().limit_eff);
    c.on_watch(WatchEvent::ScreenOff, 500 * MS);
    assert_eq!(c.fsm.current(), Hint::Idle);
    c.on_watch(WatchEvent::ScreenOn, 501 * MS);
    assert_eq!(c.fsm.current(), Hint::Switch);
}

#[test]
fn mode_change_keeps_the_hint() {
    let mut c = controller(None);
    c.on_watch(WatchEvent::AppSwitch, 0);
    drain(&mut c);
    c.on_watch(WatchEvent::ModeChange("fast".to_string()), MS);
    assert_eq!(c.mode, "fast");
    assert_eq!(c.fsm.current(), Hint::Switch);
    assert_eq!(drain(&mut c), pairs(&[("/cpu0/rate", "9"), ("/cpu4/rate", "9")]));
    c.on_watch(WatchEvent::ModeChange("FAST".to_string()), 2 * MS);
    assert_eq!(c.mode, "balance");
    let mut none = Controller::start(config(false, vec![]), &vec![], "x", 0);
    drain(&mut none);
    none.on_watch(WatchEvent::ModeChange("turbo".to_string()), MS);
    assert_eq!(none.mode, "turbo");
    assert_eq!(drain(&mut none), vec![]);
}

#[test]
fn scheduler_follows_the_scene() {
    let mut c = controller(None);
    let procs = vec![(5, "a".to_string())];
    assert_eq!(c.scheduler.scan_and_apply(&procs), vec![(5, 0)]);
    assert_eq!(c.scheduler.scan_and_apply(&procs), vec![]);
    c.on_hint_change(Hint::Touch);
    assert_eq!(c.scheduler.scan_and_apply(&procs), vec![(5, 0)]);
    c.on_hint_change(Hint::Trigger);
    assert_eq!(c.scheduler.scan_and_apply(&procs), vec![]);
}

#[test]
fn waits_are_short() {
    let mut c = controller(None);
    assert_eq!(c.poll_timeout(0), 200);
    c.on_watch(WatchEvent::AppSwitch, 0);
    assert_eq!(c.poll_timeout(0), 200);
    assert_eq!(c.poll_timeout(300 * MS + 1), 99);
    assert_eq!(c.poll_timeout(1000 * MS), 1);
}

#[test]
fn scans_are_apart() {
    let mut c = controller(None);
    assert!(!c.scan_due(200 * MS - 1));
    assert!(c.scan_due(200 * MS));
    c.scan_done(250 * MS);
    assert!(!c.scan_due(449 * MS));
    assert!(c.scan_due(450 * MS));
    assert!(!c.scan_due(0));
}

#[test]
fn surface_analysis_is_off() {
    let presets = || vec![("balance", balance()), ("fast", fast())];
    let mut with = Controller::new(config(true, presets()), &vec![], None, 0);
    let mut without = Controller::new(config(false, presets()), &vec![], None, 0);
    assert_eq!(with.mode, without.mode);
    assert_eq!(drain(&mut with), drain(&mut without));
    with.on_watch(WatchEvent::AppSwitch, MS);
    without.on_watch(WatchEvent::AppSwitch, MS);
    assert_eq!(drain(&mut with), drain(&mut without));
}
