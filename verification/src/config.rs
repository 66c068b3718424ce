//! The configuration of a platform.
use crate::double::Double;
use crate::strmap::StrMap;
use vstd::prelude::*;

verus! {

/// A whole configuration.
#[derive(Debug)]
pub struct Config {
    pub meta: Meta,
    pub modules: Modules,
    pub initials: Initials,
    pub presets: StrMap<Preset>,
}

#[derive(Debug, Clone)]
pub struct Meta {
    pub name: String,
    pub author: String,
}

#[derive(Debug)]
pub struct Modules {
    pub switcher: SwitcherModule,
    pub log: LogModule,
    pub input: InputModule,
    pub sfanalysis: SfAnalysisModule,
    pub cpu: CpuModule,
    pub sysfs: SysfsModule,
    pub sched: SchedModule,
}

#[derive(Debug, Clone)]
pub struct SwitcherModule {
    pub switch_inode: String,
    pub perapp: String,
    pub hint_duration: HintDuration,
}

/// How long each hint lasts, in nanoseconds; zero where it does not expire.
#[derive(Debug, Clone, Copy)]
pub struct HintDuration {
    pub idle: u128,
    pub touch: u128,
    pub trigger: u128,
    pub gesture: u128,
    pub switch: u128,
    pub junk: u128,
}

#[derive(Debug, Clone)]
pub struct LogModule {
    pub level: String,
}

#[derive(Debug, Clone, Copy)]
pub struct InputModule {
    pub enable: bool,
    pub swipe_thd: Double,
    pub gesture_thd_x: Double,
    pub gesture_thd_y: Double,
    pub gesture_delay_time: Double,
    pub hold_enter_time: Double,
}

/// Kept in the format; nothing is ever analysed.
#[derive(Debug, Clone, Copy)]
pub struct SfAnalysisModule {
    pub enable: bool,
    pub render_idle_slack_time: Double,
}

#[derive(Debug)]
pub struct CpuModule {
    pub enable: bool,
    pub power_model: Vec<ClusterPowerModel>,
}

#[derive(Debug, Clone, Copy)]
pub struct ClusterPowerModel {
    /// Single-core performance, where a Cortex-A53 at 1 GHz has 100.
    pub efficiency: u32,
    /// Number of cores in the cluster.
    pub nr: u32,
    /// Typical power draw of one core, in watts.
    pub typical_power: Double,
    /// The frequency at which `typical_power` was measured, in GHz.
    pub typical_freq: Double,
    /// Where the sweet spot ends, in GHz.
    pub sweet_freq: Double,
    /// Where the linear range ends, in GHz.
    pub plain_freq: Double,
    /// The frequency of the lowest power, in GHz.
    pub free_freq: Double,
}

#[derive(Debug)]
pub struct SysfsModule {
    pub enable: bool,
    pub knob: StrMap<String>,
}

#[derive(Debug)]
pub struct SchedModule {
    pub enable: bool,
    pub cpumask: StrMap<Vec<u32>>,
    pub affinity: StrMap<SceneAffinity>,
    pub prio: StrMap<ScenePrio>,
    pub rules: Vec<ProcessRule>,
}

/// The mask name of an affinity class in each scene.
#[derive(Debug, Clone)]
pub struct SceneAffinity {
    pub bg: String,
    pub fg: String,
    pub idle: String,
    pub touch: String,
    pub boost: String,
}

/// The encoded priority of a priority class in each scene.
#[derive(Debug, Clone, Copy)]
pub struct ScenePrio {
    pub bg: i32,
    pub fg: i32,
    pub idle: i32,
    pub touch: i32,
    pub boost: i32,
}

#[derive(Debug)]
pub struct ProcessRule {
    pub name: String,
    pub regex: String,
    pub pinned: bool,
    pub rules: Vec<ThreadRule>,
}

#[derive(Debug, Clone)]
pub struct ThreadRule {
    /// Pattern of the thread's name.
    pub k: String,
    /// Affinity class.
    pub ac: String,
    /// Priority class.
    pub pc: String,
}

#[derive(Debug)]
pub struct Initials {
    pub cpu: CpuInitials,
    pub sysfs: StrMap<String>,
    pub sched: SchedInitials,
}

#[derive(Debug, Clone, Copy)]
pub struct CpuInitials {
    pub base_sample_time: Double,
    pub base_slack_time: Double,
    pub latency_time: Double,
    pub slow_limit_power: Double,
    pub fast_limit_power: Double,
    pub fast_limit_capacity: Double,
    pub fast_limit_recover_scale: Double,
    pub predict_thd: Double,
    pub margin: Double,
    pub burst: Double,
    pub guide_cap: bool,
    pub limit_efficiency: bool,
}

#[derive(Debug, Clone)]
pub struct SchedInitials {
    pub scene: String,
}

/// One parameter of a preset: its JSON value, and the number that its text reads as.
#[derive(Debug)]
pub struct PresetValue {
    pub json: serde_json::Value,
    pub number: Option<Double>,
}

/// The parameters that a preset sets on each hint, by the hint's name. Those under
/// `*` are set on every hint.
pub type Preset = StrMap<StrMap<PresetValue>>;

} // verus!
