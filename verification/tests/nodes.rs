use uperf::strmap::StrMap;
use uperf::sysfs::infer_kind;
use uperf::sysfs::infer_kind_lowered;
use uperf::sysfs::KnobKind;
use uperf::sysfs::SysfsWriter;
use uperf::sysfs::WriteJob;
use uperf::sysfs::WriteMode;

fn knobs() -> StrMap<String> {
    let mut m = StrMap::new();
    for (name, path) in [
        ("cpusetTop", "/dev/cpuset/top-app/cpus"),
        ("cpuFreqMax", "/sys/devices/system/cpu/cpufreq/policy0/scaling_max_freq"),
        ("upRate", "/sys/cpu%d/up_rate"),
        ("PerCpuBoost", "/sys/cpu%d/boost"),
    ] {
        m.insert(name.to_string(), path.to_string());
    }
    m
}

fn writer() -> SysfsWriter {
    SysfsWriter::new(&knobs(), vec![0, 4, 7], vec![0, 1, 2])
}

fn shown(job: Option<WriteJob>) -> Option<(String, String, WriteMode)> {
    job.map(|j| (j.path, j.value, j.mode))
}

fn expected(path: &str, value: &str, mode: WriteMode) -> Option<(String, String, WriteMode)> {
    Some((path.to_string(), value.to_string(), mode))
}

fn drain(w: &mut SysfsWriter) -> Vec<(String, String)> {
    let mut r = Vec::new();
    while let Some(job) = w.next_write() {
        r.push((job.path.clone(), job.value.clone()));
        assert!(w.report(job, true).is_none());
    }
    r
}

#[test]
fn kinds_are_inferred() {
    let leaders = vec![0, 4];
    let all = vec![0, 1];
    assert_eq!(infer_kind("x", "/a/%d/b", &leaders, &all), KnobKind::PerCluster { leaders: vec![0, 4] });
    assert_eq!(infer_kind("xPERCPU", "/a/%d", &leaders, &all), KnobKind::PerCpu { cpus: vec![0, 1] });
    assert_eq!(infer_kind("minfreq", "/cpufreq/x", &leaders, &all), KnobKind::CpuFreq);
    assert_eq!(infer_kind("minFreq", "/cpufreq/x", &leaders, &all), KnobKind::CpuFreq);
    assert_eq!(infer_kind("minFREQ", "/cpufreq/x", &leaders, &all), KnobKind::String);
    assert_eq!(infer_kind("freq", "/devfreq/x", &leaders, &all), KnobKind::String);
    assert_eq!(
        infer_kind_lowered("xPERCPU", "xPERCPU", "/a/%d", &leaders, &all),
        KnobKind::PerCluster { leaders: vec![0, 4] }
    );
}

#[test]
fn plain_value_is_written_once() {
    let mut w = writer();
    w.write("cpusetTop", "0-7");
    let job = w.next_write().unwrap();
    assert_eq!((job.path.as_str(), job.value.as_str()), ("/dev/cpuset/top-app/cpus", "0-7"));
    assert_eq!(job.mode, WriteMode::Once);
    assert!(w.report(job, true).is_none());
    w.write("cpusetTop", "0-7");
    assert!(w.next_write().is_none());
    w.write("cpusetTop", "0-3");
    assert_eq!(drain(&mut w), vec![("/dev/cpuset/top-app/cpus".to_string(), "0-3".to_string())]);
    w.write("noSuchKnob", "1");
    assert!(w.next_write().is_none());
}

#[test]
fn failed_write_is_tried_again_later() {
    let mut w = writer();
    w.write("cpusetTop", "0-7");
    let job = w.next_write().unwrap();
    assert!(w.report(job, false).is_none());
    w.write("cpusetTop", "0-7");
    assert!(w.next_write().is_some());
}

#[test]
fn frequency_is_converted_and_tried_twice() {
    let mut w = writer();
    w.write("cpuFreqMax", "1.8");
    let job = w.next_write().unwrap();
    assert_eq!((job.value.as_str(), job.mode), ("1.8", WriteMode::Ghz));
    let job = w.convert(job, Some(1_800_000)).unwrap();
    assert_eq!((job.value.as_str(), job.mode), ("1800000", WriteMode::First));
    let again = w.report(job, false).unwrap();
    assert_eq!((again.value.as_str(), again.mode), ("1800000", WriteMode::Second));
    assert!(w.report(again, false).is_none());
    w.write("cpuFreqMax", "1.80");
    let job = w.next_write().unwrap();
    let job = w.convert(job, Some(1_800_000)).unwrap();
    let again = w.report(job, false).unwrap();
    assert!(w.report(again, true).is_none());
    w.write("cpuFreqMax", "1.80");
    let job = w.next_write().unwrap();
    assert!(w.convert(job, Some(1_800_000)).is_none());
    w.write("cpuFreqMax", "fast");
    let job = w.next_write().unwrap();
    assert!(w.convert(job, None).is_none());
}

#[test]
fn values_are_spread_over_processors() {
    let mut w = writer();
    w.write("upRate", "1, 2");
    assert_eq!(
        drain(&mut w),
        vec![
            ("/sys/cpu0/up_rate".to_string(), "1".to_string()),
            ("/sys/cpu4/up_rate".to_string(), "2".to_string()),
            ("/sys/cpu7/up_rate".to_string(), "2".to_string()),
        ]
    );
    w.write("PerCpuBoost", " 9 ");
    assert_eq!(
        drain(&mut w),
        vec![
            ("/sys/cpu0/boost".to_string(), "9".to_string()),
            ("/sys/cpu1/boost".to_string(), "9".to_string()),
            ("/sys/cpu2/boost".to_string(), "9".to_string()),
        ]
    );
}

#[test]
fn batch_keeps_its_order_and_skips_what_is_there() {
    let mut w = writer();
    w.write("cpusetTop", "0-7");
    drain(&mut w);
    let mut batch = StrMap::new();
    batch.insert("cpusetTop".to_string(), "0-7".to_string());
    batch.insert("upRate".to_string(), "5".to_string());
    w.apply_batch(&batch);
    let paths: Vec<String> = drain(&mut w).into_iter().map(|j| j.0).collect();
    assert_eq!(paths, vec!["/sys/cpu0/up_rate", "/sys/cpu4/up_rate", "/sys/cpu7/up_rate"]);
}

#[test]
fn limits_and_cpusets_have_their_nodes() {
    let mut w = writer();
    w.write_freq_limit(7, 3_626_000);
    w.write_cpuset("/dev/cpuset/background/cpus", "0-3,6-7");
    assert_eq!(
        shown(w.next_write()),
        expected(
            "/sys/devices/system/cpu/cpu7/cpufreq/scaling_max_freq",
            "3626000",
            WriteMode::First
        )
    );
    assert_eq!(
        shown(w.next_write()),
        expected("/dev/cpuset/background/cpus", "0-3,6-7", WriteMode::Once)
    );
    assert_eq!(shown(w.next_write()), None);
}

#[test]
fn other_nodes_are_untouched() {
    let mut w = writer();
    w.write("upRate", "1,2,3");
    drain(&mut w);
    w.write("upRate", "1,5,3");
    assert_eq!(drain(&mut w), vec![("/sys/cpu4/up_rate".to_string(), "5".to_string())]);
}

#[test]
fn nodes_end_with_their_last_values() {
    let mut w = writer();
    for value in ["0", "1", "1", "0", "2"] {
        w.write("cpusetTop", value);
    }
    let values: Vec<String> = drain(&mut w).into_iter().map(|j| j.1).collect();
    assert_eq!(values, vec!["0", "1", "0", "2"]);
    w.write("cpusetTop", "2");
    assert_eq!(drain(&mut w), vec![]);
}

#[test]
fn limit_that_failed_twice_is_tried_again() {
    let mut w = writer();
    for _ in 0..2 {
        w.write_freq_limit(4, 900_000);
        let job = w.next_write().unwrap();
        let again = w.report(job, false).unwrap();
        assert!(w.report(again, false).is_none());
    }
    w.write_freq_limit(4, 900_000);
    let job = w.next_write().unwrap();
    assert!(w.report(job, true).is_none());
    w.write_freq_limit(4, 900_000);
    assert!(w.next_write().is_none());
}

#[test]
fn batch_order_makes_no_difference() {
    let values = [("cpusetTop", "1"), ("upRate", "2,3"), ("PerCpuBoost", "4"), ("unknown", "5")];
    let ends = |order: &[usize]| {
        let mut w = writer();
        w.write("upRate", "2,9");
        drain(&mut w);
        let mut batch = StrMap::new();
        for i in order {
            batch.insert(values[*i].0.to_string(), values[*i].1.to_string());
        }
        w.apply_batch(&batch);
        let mut done = drain(&mut w);
        w.apply_batch(&batch);
        assert!(w.next_write().is_none());
        done.sort();
        done
    };
    let first = ends(&[0, 1, 2, 3]);
    assert_eq!(first.len(), 6);
    assert_eq!(ends(&[3, 2, 1, 0]), first);
    assert_eq!(ends(&[1, 3, 0, 2]), first);
    let mut w = writer();
    w.apply_batch(&StrMap::new());
    assert!(w.next_write().is_none());
}
