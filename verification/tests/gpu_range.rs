use uperf::fsm::Hint;
use uperf::gpu::detect_devfreq;
use uperf::gpu::detect_interface;
use uperf::gpu::looks_like_gpu_lowered;
use uperf::gpu::platform_looks_like_gpu_lowered;
use uperf::gpu::DevfreqNode;
use uperf::gpu::GpuConfig;
use uperf::gpu::GpuGovernor;
use uperf::gpu::GpuInterface;
use uperf::gpu::GpuProbe;
use uperf::gpu::PlatformNode;

fn nothing() -> GpuProbe {
    GpuProbe {
        opp_freq: false,
        dvfs_enable: false,
        max_clock: false,
        min_clock: false,
        devfreq: None,
        platform: None,
    }
}

fn node(name: &str, has_max: bool, has_min: bool) -> DevfreqNode {
    DevfreqNode { name: name.to_string(), path: format!("/d/{name}"), has_max, has_min }
}

fn writes(g: &mut GpuGovernor, hint: Hint) -> Vec<(String, String)> {
    g.apply_hint(hint).into_iter().map(|w| (w.path, w.value)).collect()
}

fn pair(path: &str, value: &str) -> (String, String) {
    (path.to_string(), value.to_string())
}

#[test]
fn default_frequencies() {
    let cfg = GpuConfig::default();
    assert_eq!(
        cfg,
        GpuConfig { min_freq_khz: 200_000, mid_freq_khz: 450_000, max_freq_khz: 1_000_000 }
    );
}

#[test]
fn older_interfaces_come_first() {
    let full = GpuProbe {
        opp_freq: true,
        dvfs_enable: true,
        max_clock: true,
        min_clock: true,
        devfreq: Some(vec![node("13000000.mali", true, true)]),
        platform: None,
    };
    assert!(matches!(detect_interface(&full), GpuInterface::ProcGpufreq { .. }));
    assert!(matches!(
        detect_interface(&GpuProbe { dvfs_enable: false, ..full }),
        GpuInterface::GedSki { .. }
    ));
    assert!(matches!(detect_interface(&nothing()), GpuInterface::Unsupported));
}

#[test]
fn devices_are_found_by_name() {
    let probe = GpuProbe {
        devfreq: Some(vec![
            node("dmc", true, true),
            node("13000000.MALI", false, true),
            node("soc-MFG0", true, true),
            node("gpu", true, true),
        ]),
        ..nothing()
    };
    match detect_devfreq(&probe) {
        Some(GpuInterface::Devfreq { max_freq, min_freq }) => {
            assert_eq!(max_freq, "/d/soc-MFG0/max_freq");
            assert_eq!(min_freq, "/d/soc-MFG0/min_freq");
        }
        other => panic!("{other:?}"),
    }
    assert!(looks_like_gpu_lowered("mfgsys"));
    assert!(!looks_like_gpu_lowered("MFG"));
    assert!(!platform_looks_like_gpu_lowered("mfg"));
}

#[test]
fn platform_devices_come_last() {
    let platform = || {
        Some(vec![
            PlatformNode { name: "mfg".to_string(), devfreq: Some(vec![node("a", true, true)]) },
            PlatformNode { name: "x.GPU".to_string(), devfreq: None },
            PlatformNode {
                name: "x.mali".to_string(),
                devfreq: Some(vec![node("b", true, false), node("c", true, true)]),
            },
        ])
    };
    let listed = GpuProbe { devfreq: Some(vec![]), platform: platform(), ..nothing() };
    match detect_interface(&listed) {
        GpuInterface::Devfreq { max_freq, .. } => assert_eq!(max_freq, "/d/c/max_freq"),
        other => panic!("{other:?}"),
    }
    let unlisted = GpuProbe { devfreq: None, platform: platform(), ..nothing() };
    assert!(matches!(detect_interface(&unlisted), GpuInterface::Unsupported));
}

#[test]
fn frequency_lock_follows_hints() {
    let probe = GpuProbe { opp_freq: true, dvfs_enable: true, ..nothing() };
    let mut g = GpuGovernor::new(GpuConfig::default(), &probe);
    let lock = "/proc/gpufreq/gpufreq_opp_freq";
    let scaling = "/sys/module/ged/parameters/gpu_dvfs_enable";
    assert_eq!(writes(&mut g, Hint::Idle), vec![pair(scaling, "1"), pair(lock, "0")]);
    assert_eq!(writes(&mut g, Hint::Idle), vec![]);
    assert_eq!(writes(&mut g, Hint::Gesture), vec![pair(scaling, "1")]);
    assert_eq!(writes(&mut g, Hint::Switch), vec![pair(scaling, "0"), pair(lock, "1000000")]);
}

#[test]
fn clock_range_follows_hints() {
    let probe = GpuProbe { max_clock: true, min_clock: true, ..nothing() };
    let mut g = GpuGovernor::new(GpuConfig::default(), &probe);
    let max = "/sys/kernel/gpu/gpu_max_clock";
    let min = "/sys/kernel/gpu/gpu_min_clock";
    assert_eq!(writes(&mut g, Hint::Touch), vec![pair(max, "1000000"), pair(min, "450000")]);
    assert_eq!(writes(&mut g, Hint::Trigger), vec![pair(max, "1000000"), pair(min, "450000")]);
    assert_eq!(writes(&mut g, Hint::Switch), vec![pair(max, "1000000"), pair(min, "1000000")]);
    assert_eq!(writes(&mut g, Hint::Idle), vec![pair(max, "1000000"), pair(min, "200000")]);
    assert_eq!(writes(&mut g, Hint::Junk), vec![pair(max, "1000000"), pair(min, "450000")]);
}

#[test]
fn device_range_is_in_hertz() {
    let probe = GpuProbe { devfreq: Some(vec![node("mali", true, true)]), ..nothing() };
    let mut g = GpuGovernor::new(GpuConfig::default(), &probe);
    assert_eq!(
        writes(&mut g, Hint::Touch),
        vec![pair("/d/mali/max_freq", "1000000000"), pair("/d/mali/min_freq", "450000000")]
    );
    assert_eq!(
        writes(&mut g, Hint::Idle),
        vec![pair("/d/mali/max_freq", "1000000000"), pair("/d/mali/min_freq", "200000000")]
    );
}

#[test]
fn unsupported_writes_nothing() {
    let cfg = GpuConfig { min_freq_khz: u64::MAX, mid_freq_khz: u64::MAX, max_freq_khz: u64::MAX };
    let mut g = GpuGovernor::new(cfg, &nothing());
    assert_eq!(writes(&mut g, Hint::Switch), vec![]);
}
