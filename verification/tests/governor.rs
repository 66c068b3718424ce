use uperf::config::ClusterPowerModel;
use uperf::config::CpuInitials;
use uperf::config::CpuModule;
use uperf::cpu::all_cpus;
use uperf::cpu::cluster_layout;
use uperf::cpu::cluster_leaders;
use uperf::cpu::cluster_number_of;
use uperf::cpu::cluster_order;
use uperf::cpu::freq_table_path;
use uperf::cpu::parse_available_freqs;
use uperf::cpu::parse_proc_stat;
use uperf::cpu::ClusterLoad;
use uperf::cpu::CpuLoad;
use uperf::cpu::CpuStat;
use uperf::cpu::Governor;
use uperf::cpu::PowerModel;
use uperf::double::Double;
use uperf::strmap::StrMap;
use uperf::sysfs::SysfsWriter;

fn double(x: f64) -> Double {
    Double { bits: x.to_bits() }
}

fn masks() -> StrMap<Vec<u32>> {
    let mut m = StrMap::new();
    m.insert("c10".to_string(), vec![7]);
    m.insert("all".to_string(), vec![0, 1, 2, 3, 4, 5, 6, 7]);
    m.insert("c0".to_string(), vec![0, 1, 2]);
    m.insert("cx".to_string(), vec![9]);
    m.insert("c1".to_string(), vec![3, 4, 5, 6]);
    m
}

fn figures(freq: f64) -> ClusterPowerModel {
    ClusterPowerModel {
        efficiency: 100,
        nr: 3,
        typical_power: double(1.0),
        typical_freq: double(freq),
        sweet_freq: double(1.2),
        plain_freq: double(1.5),
        free_freq: double(0.5),
    }
}

fn module() -> CpuModule {
    CpuModule { enable: true, power_model: vec![figures(1.8), figures(2.4)] }
}

fn initials() -> CpuInitials {
    CpuInitials {
        base_sample_time: double(0.01),
        base_slack_time: double(0.01),
        latency_time: double(0.2),
        slow_limit_power: double(3.0),
        fast_limit_power: double(6.0),
        fast_limit_capacity: double(10.0),
        fast_limit_recover_scale: double(0.3),
        predict_thd: double(0.3),
        margin: double(0.25),
        burst: double(0.0),
        guide_cap: true,
        limit_efficiency: false,
    }
}

#[test]
fn clusters_are_ordered_by_number() {
    let m = masks();
    assert_eq!(cluster_order(&m), vec![2, 4, 0]);
    assert_eq!(cluster_leaders(&m), vec![0, 3, 7]);
    assert_eq!(
        cluster_layout(4, &m),
        vec![vec![0, 1, 2], vec![3, 4, 5, 6], vec![7], Vec::<u32>::new()]
    );
    assert_eq!(cluster_number_of("c+3"), Some(3));
    assert_eq!(cluster_number_of("c"), None);
    assert_eq!(cluster_number_of("d1"), None);
    assert_eq!(cluster_number_of("c4294967296"), None);
}

#[test]
fn all_processors_are_eight_by_default() {
    assert_eq!(all_cpus(&masks()), vec![0, 1, 2, 3, 4, 5, 6, 7]);
    let mut m = StrMap::new();
    m.insert("c0".to_string(), vec![0u32]);
    assert_eq!(all_cpus(&m), (0u32..8).collect::<Vec<u32>>());
    m.insert("all".to_string(), vec![2, 3]);
    assert_eq!(all_cpus(&m), vec![2, 3]);
}

#[test]
fn frequencies_are_sorted() {
    assert_eq!(parse_available_freqs("1800000 500000 x 1200000\n"), vec![500_000, 1_200_000, 1_800_000]);
    assert_eq!(parse_available_freqs("5 5 1"), vec![1, 5, 5]);
    assert!(parse_available_freqs("").is_empty());
    assert_eq!(
        freq_table_path(4),
        "/sys/devices/system/cpu/cpu4/cpufreq/scaling_available_frequencies"
    );
}

#[test]
fn proc_stat_is_read_by_processor() {
    let raw = "cpu  10 20 30 40 50 60\n\
               cpu0 1 2 3 4 5 6 7\n\
               cpu1 1 2 3\n\
               cpu2 1 2 3 4\n\
               cpu3 a b c d e\n\
               intr 5 5 5 5 5\n";
    assert_eq!(
        parse_proc_stat(raw),
        vec![CpuStat { idle: 9, total: 28 }, CpuStat { idle: 4, total: 10 }]
    );
    assert!(parse_proc_stat("").is_empty());
}

#[test]
fn limits_are_snapped_down() {
    let tables = vec![Some("500000 1200000 1800000".to_string()), None];
    let model = PowerModel::new(&module(), &masks(), &tables);
    assert_eq!(model.len(), 2);
    assert_eq!(model.cluster_cpus(), vec![vec![0, 1, 2], vec![3, 4, 5, 6]]);
    assert_eq!(model.power_figures(1).typical_freq.bits, (2.4f64).to_bits());
    let limits = |a: u64, b: u64| {
        model.compute_limits(&vec![a, b]).into_iter().map(|l| l.1).collect::<Vec<u64>>()
    };
    assert_eq!(limits(1_799_999, 77), vec![1_200_000, 77]);
    assert_eq!(limits(1_800_000, 0), vec![1_800_000, 0]);
    assert_eq!(limits(1, u64::MAX), vec![500_000, u64::MAX]);
    assert_eq!(limits(u64::MAX, 1), vec![1_800_000, 1]);
}

#[test]
fn load_is_measured_between_samples() {
    let model = PowerModel::new(&module(), &masks(), &vec![None, None]);
    let mut g = Governor::new(model, &initials());
    let before: Vec<CpuStat> = (0..4).map(|_| CpuStat { idle: 100, total: 1000 }).collect();
    for load in g.observe(before) {
        assert!(matches!(load, ClusterLoad::Unsampled));
    }
    let now = vec![
        CpuStat { idle: 150, total: 1100 },
        CpuStat { idle: 100, total: 1000 },
        CpuStat { idle: 90, total: 1010 },
        CpuStat { idle: 101, total: 990 },
    ];
    let loads: Vec<Vec<CpuLoad>> = g
        .observe(now)
        .into_iter()
        .map(|l| match l {
            ClusterLoad::Sampled(cpus) => cpus,
            ClusterLoad::Unsampled => panic!("not sampled"),
        })
        .collect();
    assert_eq!(
        loads,
        vec![
            vec![
                CpuLoad::Sampled { idle: 50, total: 100 },
                CpuLoad::Quiet,
                CpuLoad::Sampled { idle: 0, total: 10 },
            ],
            vec![CpuLoad::Quiet, CpuLoad::Unknown, CpuLoad::Unknown, CpuLoad::Unknown],
        ]
    );
    for load in g.observe(vec![]) {
        assert!(matches!(load, ClusterLoad::Unsampled));
    }
}

#[test]
fn each_processor_gets_its_limit() {
    let model = PowerModel::new(&module(), &masks(), &vec![None, None]);
    let mut g = Governor::new(model, &initials());
    assert_eq!(g.tunables().max_power.bits, (6.0f64).to_bits());
    assert_eq!(g.tunables().margin.bits, (0.25f64).to_bits());
    assert!(!g.tunables().limit_eff);
    let mut t = g.tunables();
    t.limit_eff = true;
    g.set_tunables(t);
    assert!(g.tunables().limit_eff);
    assert_eq!(g.model().len(), 2);
    let mut w = SysfsWriter::new(&StrMap::new(), vec![], vec![]);
    g.apply(&vec![11, 22], &mut w);
    let mut written = Vec::new();
    while let Some(job) = w.next_write() {
        written.push((job.path, job.value));
    }
    let expected: Vec<(String, String)> = (0..7)
        .map(|cpu| {
            (
                format!("/sys/devices/system/cpu/cpu{cpu}/cpufreq/scaling_max_freq"),
                if cpu < 3 { "11" } else { "22" }.to_string(),
            )
        })
        .collect();
    assert_eq!(written, expected);
}
