//! Frequency range of a Mali GPU.
//!
//! Kernels offer one of three interfaces; which one is there is found out once. The
//! range then follows the hints.
use crate::fsm::Hint;
use crate::outside;
use crate::text;
use vstd::prelude::*;
use vstd::string::*;

verus! {

/// The frequencies between which the range moves.
#[derive(Debug, Clone, Copy, PartialEq, Eq, Structural)]
pub struct GpuConfig {
    /// Lower end at rest, in kHz.
    pub min_freq_khz: u64,
    /// Lower end while the screen is touched, in kHz.
    pub mid_freq_khz: u64,
    /// Upper end, in kHz.
    pub max_freq_khz: u64,
}

impl Default for GpuConfig {
    fn default() -> (r: Self)
        ensures
            r == (GpuConfig {
                min_freq_khz: 200_000,
                mid_freq_khz: 450_000,
                max_freq_khz: 1_000_000,
            }),
    {
        GpuConfig { min_freq_khz: 200_000, mid_freq_khz: 450_000, max_freq_khz: 1_000_000 }
    }
}

/// An interface of the kernel, by its nodes.
#[derive(Debug)]
pub enum GpuInterface {
    /// A lock on one frequency, 0 for none, and a switch for automatic scaling.
    ProcGpufreq { opp_freq: String, dvfs_enable: String },
    /// The ends of the range in kHz.
    GedSki { max_clock: String, min_clock: String },
    /// The ends of the range in Hz.
    Devfreq { max_freq: String, min_freq: String },
    /// None.
    Unsupported,
}

/// What a [`GpuInterface`] stands for.
pub enum InterfaceView {
    ProcGpufreq { opp_freq: Seq<char>, dvfs_enable: Seq<char> },
    GedSki { max_clock: Seq<char>, min_clock: Seq<char> },
    Devfreq { max_freq: Seq<char>, min_freq: Seq<char> },
    Unsupported,
}

impl View for GpuInterface {
    type V = InterfaceView;

    open spec fn view(&self) -> InterfaceView {
        match self {
            GpuInterface::ProcGpufreq { opp_freq, dvfs_enable } => InterfaceView::ProcGpufreq {
                opp_freq: opp_freq@,
                dvfs_enable: dvfs_enable@,
            },
            GpuInterface::GedSki { max_clock, min_clock } => InterfaceView::GedSki {
                max_clock: max_clock@,
                min_clock: min_clock@,
            },
            GpuInterface::Devfreq { max_freq, min_freq } => InterfaceView::Devfreq {
                max_freq: max_freq@,
                min_freq: min_freq@,
            },
            GpuInterface::Unsupported => InterfaceView::Unsupported,
        }
    }
}

/// A device with a frequency range.
#[derive(Debug)]
pub struct DevfreqNode {
    pub name: String,
    pub path: String,
    /// Whether the node of the upper end is there.
    pub has_max: bool,
    /// Whether the node of the lower end is there.
    pub has_min: bool,
}

/// A platform device.
#[derive(Debug)]
pub struct PlatformNode {
    pub name: String,
    /// Its devices with a frequency range, where they could be listed.
    pub devfreq: Option<Vec<DevfreqNode>>,
}

/// What was found on the machine.
#[derive(Debug)]
pub struct GpuProbe {
    /// Whether the node of the frequency lock is there.
    pub opp_freq: bool,
    /// Whether the switch for automatic scaling is there.
    pub dvfs_enable: bool,
    /// Whether the node of the upper clock is there.
    pub max_clock: bool,
    /// Whether the node of the lower clock is there.
    pub min_clock: bool,
    /// The devices with a frequency range, where they could be listed.
    pub devfreq: Option<Vec<DevfreqNode>>,
    /// The platform devices, where they could be listed.
    pub platform: Option<Vec<PlatformNode>>,
}

/// Whether a device with this name, in lower case, is taken for a GPU.
pub open spec fn gpu_like(lower: Seq<char>) -> bool {
    text::occurs(lower, "mali"@) || text::occurs(lower, "gpu"@) || text::occurs(lower, "mfg"@)
}

/// Whether a platform device with this name, in lower case, is taken for a GPU.
pub open spec fn platform_gpu_like(lower: Seq<char>) -> bool {
    text::occurs(lower, "mali"@) || text::occurs(lower, "gpu"@)
}

/// The interface of a device with a frequency range.
pub open spec fn devfreq_at(path: Seq<char>) -> InterfaceView {
    InterfaceView::Devfreq { max_freq: path + "/max_freq"@, min_freq: path + "/min_freq"@ }
}

/// The interface of the first of some devices that has both nodes and, where `named` is
/// set, the name of a GPU.
pub open spec fn first_devfreq(nodes: Seq<DevfreqNode>, named: bool) -> Option<InterfaceView>
    decreases nodes.len(),
{
    if nodes.len() == 0 {
        None
    } else if (named ==> gpu_like(outside::lowered(nodes[0].name@))) && nodes[0].has_max
        && nodes[0].has_min {
        Some(devfreq_at(nodes[0].path@))
    } else {
        first_devfreq(nodes.drop_first(), named)
    }
}

/// The interface of the first device of the first platform device that is taken for a
/// GPU and has one.
pub open spec fn first_platform(nodes: Seq<PlatformNode>) -> Option<InterfaceView>
    decreases nodes.len(),
{
    if nodes.len() == 0 {
        None
    } else if platform_gpu_like(outside::lowered(nodes[0].name@)) && nodes[0].devfreq is Some
        && first_devfreq(nodes[0].devfreq->0@, false) is Some {
        first_devfreq(nodes[0].devfreq->0@, false)
    } else {
        first_platform(nodes.drop_first())
    }
}

/// The interface among the devices with a frequency range. The platform devices are
/// looked at only where the others could be listed.
pub open spec fn devfreq_in(probe: GpuProbe) -> Option<InterfaceView> {
    match probe.devfreq {
        None => None,
        Some(nodes) => match first_devfreq(nodes@, true) {
            Some(i) => Some(i),
            None => match probe.platform {
                None => None,
                Some(nodes) => first_platform(nodes@),
            },
        },
    }
}

/// The interface that a machine has: the oldest kind that is complete.
pub open spec fn detected(probe: GpuProbe) -> InterfaceView {
    if probe.opp_freq && probe.dvfs_enable {
        InterfaceView::ProcGpufreq {
            opp_freq: "/proc/gpufreq/gpufreq_opp_freq"@,
            dvfs_enable: "/sys/module/ged/parameters/gpu_dvfs_enable"@,
        }
    } else if probe.max_clock && probe.min_clock {
        InterfaceView::GedSki {
            max_clock: "/sys/kernel/gpu/gpu_max_clock"@,
            min_clock: "/sys/kernel/gpu/gpu_min_clock"@,
        }
    } else {
        match devfreq_in(probe) {
            Some(i) => i,
            None => InterfaceView::Unsupported,
        }
    }
}

/// A value for a node.
#[derive(Debug)]
pub struct GpuWrite {
    pub path: String,
    pub value: String,
}

/// What some writes stand for: paths and values.
pub open spec fn write_views(writes: Seq<GpuWrite>) -> Seq<(Seq<char>, Seq<char>)> {
    writes.map_values(|w: GpuWrite| (w.path@, w.value@))
}

/// The lower end of the range on a hint, in kHz.
pub open spec fn floor_on(cfg: GpuConfig, hint: Hint) -> u64 {
    match hint {
        Hint::Idle => cfg.min_freq_khz,
        Hint::Switch => cfg.max_freq_khz,
        _ => cfg.mid_freq_khz,
    }
}

/// The writes that bring the range to a hint.
pub open spec fn writes_on(iface: InterfaceView, cfg: GpuConfig, hint: Hint) -> Seq<
    (Seq<char>, Seq<char>),
> {
    match iface {
        InterfaceView::ProcGpufreq { opp_freq, dvfs_enable } => match hint {
            Hint::Idle => seq![(dvfs_enable, "1"@), (opp_freq, "0"@)],
            Hint::Switch => seq![
                (dvfs_enable, "0"@),
                (opp_freq, text::decimal(cfg.max_freq_khz as nat)),
            ],
            _ => seq![(dvfs_enable, "1"@)],
        },
        InterfaceView::GedSki { max_clock, min_clock } => seq![
            (max_clock, text::decimal(cfg.max_freq_khz as nat)),
            (min_clock, text::decimal(floor_on(cfg, hint) as nat)),
        ],
        InterfaceView::Devfreq { max_freq, min_freq } => seq![
            (max_freq, text::decimal((cfg.max_freq_khz * 1000) as nat)),
            (min_freq, text::decimal((floor_on(cfg, hint) * 1000) as nat)),
        ],
        InterfaceView::Unsupported => Seq::empty(),
    }
}

/// Whether the ends of the range on a hint can be given in the unit of the interface.
pub open spec fn expressible(iface: InterfaceView, cfg: GpuConfig, hint: Hint) -> bool {
    iface is Devfreq ==> cfg.max_freq_khz * 1000 <= u64::MAX && floor_on(cfg, hint) * 1000
        <= u64::MAX
}

/// Whether a device is taken for a GPU, where its name in lower case is known.
pub fn looks_like_gpu_lowered(lower: &str) -> (r: bool)
    ensures
        r == gpu_like(lower@),
{
    text::contains(lower, "mali") || text::contains(lower, "gpu") || text::contains(lower, "mfg")
}

/// Whether a platform device is taken for a GPU, where its name in lower case is known.
pub fn platform_looks_like_gpu_lowered(lower: &str) -> (r: bool)
    ensures
        r == platform_gpu_like(lower@),
{
    text::contains(lower, "mali") || text::contains(lower, "gpu")
}

fn devfreq_interface(path: &str) -> (r: GpuInterface)
    ensures
        r@ == devfreq_at(path@),
{
    let mut max_freq: String = path.to_owned();
    max_freq.append("/max_freq");
    let mut min_freq: String = path.to_owned();
    min_freq.append("/min_freq");
    GpuInterface::Devfreq { max_freq, min_freq }
}

/// Whether the view of an interface, if any, is a given one.
pub open spec fn found(r: Option<GpuInterface>, v: Option<InterfaceView>) -> bool {
    match r {
        Some(i) => v == Some(i@),
        None => v is None,
    }
}

fn find_devfreq(nodes: &Vec<DevfreqNode>, named: bool) -> (r: Option<GpuInterface>)
    ensures
        found(r, first_devfreq(nodes@, named)),
{
    let n: usize = nodes.len();
    let mut i: usize = 0;
    assert(nodes@.skip(0) == nodes@);
    while i < n
        invariant
            i <= n,
            n == nodes@.len(),
            first_devfreq(nodes@, named) == first_devfreq(nodes@.skip(i as int), named),
        decreases n - i,
    {
        let node: &DevfreqNode = &nodes[i];
        let fits: bool = !named || looks_like_gpu_lowered(node.name.as_str().to_lowercase().as_str());
        if fits && node.has_max && node.has_min {
            return Some(devfreq_interface(node.path.as_str()));
        }
        assert(nodes@.skip(i as int).drop_first() == nodes@.skip(i + 1));
        i = i + 1;
    }
    None
}

fn find_platform(nodes: &Vec<PlatformNode>) -> (r: Option<GpuInterface>)
    ensures
        found(r, first_platform(nodes@)),
{
    let n: usize = nodes.len();
    let mut i: usize = 0;
    assert(nodes@.skip(0) == nodes@);
    while i < n
        invariant
            i <= n,
            n == nodes@.len(),
            first_platform(nodes@) == first_platform(nodes@.skip(i as int)),
        decreases n - i,
    {
        let node: &PlatformNode = &nodes[i];
        if platform_looks_like_gpu_lowered(node.name.as_str().to_lowercase().as_str()) {
            if let Some(subs) = &node.devfreq {
                if let Some(iface) = find_devfreq(subs, false) {
                    return Some(iface);
                }
            }
        }
        assert(nodes@.skip(i as int).drop_first() == nodes@.skip(i + 1));
        i = i + 1;
    }
    None
}

/// The interface among the devices with a frequency range.
pub fn detect_devfreq(probe: &GpuProbe) -> (r: Option<GpuInterface>)
    ensures
        found(r, devfreq_in(*probe)),
{
    match &probe.devfreq {
        None => None,
        Some(nodes) => match find_devfreq(nodes, true) {
            Some(iface) => Some(iface),
            None => match &probe.platform {
                None => None,
                Some(nodes) => find_platform(nodes),
            },
        },
    }
}

/// The interface that a machine has.
pub fn detect_interface(probe: &GpuProbe) -> (r: GpuInterface)
    ensures
        r@ == detected(*probe),
{
    if probe.opp_freq && probe.dvfs_enable {
        return GpuInterface::ProcGpufreq {
            opp_freq: "/proc/gpufreq/gpufreq_opp_freq".to_owned(),
            dvfs_enable: "/sys/module/ged/parameters/gpu_dvfs_enable".to_owned(),
        };
    }
    if probe.max_clock && probe.min_clock {
        return GpuInterface::GedSki {
            max_clock: "/sys/kernel/gpu/gpu_max_clock".to_owned(),
            min_clock: "/sys/kernel/gpu/gpu_min_clock".to_owned(),
        };
    }
    match detect_devfreq(probe) {
        Some(iface) => iface,
        None => GpuInterface::Unsupported,
    }
}

/// Brings the frequency range to the hints.
pub struct GpuGovernor {
    iface: GpuInterface,
    cfg: GpuConfig,
    last_hint: Option<Hint>,
}

impl GpuGovernor {
    /// The interface in use.
    pub closed spec fn iface(&self) -> InterfaceView {
        self.iface@
    }

    /// The frequencies.
    pub closed spec fn cfg(&self) -> GpuConfig {
        self.cfg
    }

    /// The hint that the range was last brought to.
    pub closed spec fn last_hint(&self) -> Option<Hint> {
        self.last_hint
    }

    /// A governor for the interface of a machine.
    pub fn new(cfg: GpuConfig, probe: &GpuProbe) -> (r: Self)
        ensures
            r.cfg() == cfg,
            r.iface() == detected(*probe),
            r.last_hint() is None,
    {
        GpuGovernor { iface: detect_interface(probe), cfg, last_hint: None }
    }

    /// Brings the range to a hint; there is nothing to write where it is there already.
    pub fn apply_hint(&mut self, hint: Hint) -> (r: Vec<GpuWrite>)
        requires
            old(self).last_hint() == Some(hint) || expressible(old(self).iface(), old(self).cfg(), hint),
        ensures
            write_views(r@) == if old(self).last_hint() == Some(hint) {
                Seq::empty()
            } else {
                writes_on(old(self).iface(), old(self).cfg(), hint)
            },
            final(self).last_hint() == Some(hint),
            final(self).iface() == old(self).iface(),
            final(self).cfg() == old(self).cfg(),
    {
        if let Some(last) = self.last_hint {
            if last == hint {
                let r: Vec<GpuWrite> = Vec::new();
                assert(write_views(r@) == Seq::<(Seq<char>, Seq<char>)>::empty());
                return r;
            }
        }
        self.last_hint = Some(hint);
        match hint {
            Hint::Idle => self.set_idle(),
            Hint::Touch | Hint::Trigger | Hint::Gesture | Hint::Junk => self.set_touch(),
            Hint::Switch => self.set_boost(),
        }
    }

    /// The whole range, with automatic scaling.
    fn set_idle(&self) -> (r: Vec<GpuWrite>)
        requires
            expressible(self.iface(), self.cfg(), Hint::Idle),
        ensures
            write_views(r@) == writes_on(self.iface(), self.cfg(), Hint::Idle),
    {
        match &self.iface {
            GpuInterface::ProcGpufreq { opp_freq, dvfs_enable } => two_writes(
                dvfs_enable,
                "1".to_owned(),
                opp_freq,
                "0".to_owned(),
            ),
            _ => self.set_range(self.cfg.min_freq_khz),
        }
    }

    /// A higher lower end; with automatic scaling where there is none.
    fn set_touch(&self) -> (r: Vec<GpuWrite>)
        requires
            expressible(self.iface(), self.cfg(), Hint::Touch),
        ensures
            write_views(r@) == writes_on(self.iface(), self.cfg(), Hint::Touch),
    {
        match &self.iface {
            GpuInterface::ProcGpufreq { opp_freq: _, dvfs_enable } => {
                let mut r: Vec<GpuWrite> = Vec::new();
                r.push(GpuWrite { path: dvfs_enable.clone(), value: "1".to_owned() });
                assert(write_views(r@) == seq![(dvfs_enable@, "1"@)]);
                r
            },
            _ => self.set_range(self.cfg.mid_freq_khz),
        }
    }

    /// The highest frequency alone.
    fn set_boost(&self) -> (r: Vec<GpuWrite>)
        requires
            expressible(self.iface(), self.cfg(), Hint::Switch),
        ensures
            write_views(r@) == writes_on(self.iface(), self.cfg(), Hint::Switch),
    {
        match &self.iface {
            GpuInterface::ProcGpufreq { opp_freq, dvfs_enable } => two_writes(
                dvfs_enable,
                "0".to_owned(),
                opp_freq,
                text::decimal_string(self.cfg.max_freq_khz),
            ),
            _ => self.set_range(self.cfg.max_freq_khz),
        }
    }

    /// The range from `floor` up, on an interface that has one.
    fn set_range(&self, floor: u64) -> (r: Vec<GpuWrite>)
        requires
            !(self.iface() is ProcGpufreq),
            self.iface() is Devfreq ==> self.cfg().max_freq_khz * 1000 <= u64::MAX && floor * 1000
                <= u64::MAX,
        ensures
            match self.iface() {
                InterfaceView::GedSki { max_clock, min_clock } => write_views(r@) == seq![
                    (max_clock, text::decimal(self.cfg().max_freq_khz as nat)),
                    (min_clock, text::decimal(floor as nat)),
                ],
                InterfaceView::Devfreq { max_freq, min_freq } => write_views(r@) == seq![
                    (max_freq, text::decimal((self.cfg().max_freq_khz * 1000) as nat)),
                    (min_freq, text::decimal((floor * 1000) as nat)),
                ],
                _ => write_views(r@) == Seq::<(Seq<char>, Seq<char>)>::empty(),
            },
    {
        match &self.iface {
            GpuInterface::GedSki { max_clock, min_clock } => two_writes(
                max_clock,
                text::decimal_string(self.cfg.max_freq_khz),
                min_clock,
                text::decimal_string(floor),
            ),
            GpuInterface::Devfreq { max_freq, min_freq } => two_writes(
                max_freq,
                text::decimal_string(self.cfg.max_freq_khz * 1000),
                min_freq,
                text::decimal_string(floor * 1000),
            ),
            _ => {
                let r: Vec<GpuWrite> = Vec::new();
                assert(write_views(r@) == Seq::<(Seq<char>, Seq<char>)>::empty());
                r
            },
        }
    }
}

fn two_writes(path1: &String, value1: String, path2: &String, value2: String) -> (r: Vec<GpuWrite>)
    ensures
        write_views(r@) == seq![(path1@, value1@), (path2@, value2@)],
{
    let mut r: Vec<GpuWrite> = Vec::new();
    r.push(GpuWrite { path: path1.clone(), value: value1 });
    r.push(GpuWrite { path: path2.clone(), value: value2 });
    assert(write_views(r@) == seq![(path1@, value1@), (path2@, value2@)]);
    r
}

/// The older an interface, the rather it is used: a complete frequency lock comes before
/// a pair of clocks, and that before any device with a range.
pub proof fn law_older_interfaces_come_first(probe: GpuProbe)
    ensures
        detected(probe) is ProcGpufreq <==> probe.opp_freq && probe.dvfs_enable,
        detected(probe) is GedSki <==> !(probe.opp_freq && probe.dvfs_enable) && probe.max_clock
            && probe.min_clock,
        detected(probe) is Devfreq ==> devfreq_in(probe) == Some(detected(probe)),
{
    if probe.devfreq is Some {
        lemma_first_devfreq_kind(probe.devfreq->0@, true);
        if probe.platform is Some {
            lemma_first_platform_kind(probe.platform->0@);
        }
    }
}

proof fn lemma_first_devfreq_kind(nodes: Seq<DevfreqNode>, named: bool)
    ensures
        first_devfreq(nodes, named) matches Some(i) ==> i is Devfreq,
    decreases nodes.len(),
{
    if nodes.len() > 0 {
        lemma_first_devfreq_kind(nodes.drop_first(), named);
    }
}

proof fn lemma_first_platform_kind(nodes: Seq<PlatformNode>)
    ensures
        first_platform(nodes) matches Some(i) ==> i is Devfreq,
    decreases nodes.len(),
{
    if nodes.len() > 0 {
        lemma_first_platform_kind(nodes.drop_first());
        if nodes[0].devfreq is Some {
            lemma_first_devfreq_kind(nodes[0].devfreq->0@, false);
        }
    }
}

/// With a proper configuration the lower end rises from rest over touch to a switch, and
/// never passes the upper end.
pub proof fn law_floor_rises_with_activity(cfg: GpuConfig, hint: Hint)
    requires
        cfg.min_freq_khz <= cfg.mid_freq_khz <= cfg.max_freq_khz,
    ensures
        floor_on(cfg, Hint::Idle) <= floor_on(cfg, hint) <= floor_on(cfg, Hint::Switch),
        floor_on(cfg, hint) <= cfg.max_freq_khz,
        floor_on(cfg, Hint::Switch) == cfg.max_freq_khz,
{
}

/// Trigger, gesture and junk are treated like touch.
pub proof fn law_active_hints_are_alike(iface: InterfaceView, cfg: GpuConfig, hint: Hint)
    requires
        hint != Hint::Idle,
        hint != Hint::Switch,
    ensures
        writes_on(iface, cfg, hint) == writes_on(iface, cfg, Hint::Touch),
{
}

/// Without an interface there is nothing to write.
pub proof fn law_unsupported_writes_nothing(cfg: GpuConfig, hint: Hint)
    ensures
        writes_on(InterfaceView::Unsupported, cfg, hint).len() == 0,
{
}

/// A device is taken for a GPU exactly where one of three words stands somewhere in its
/// name; of a platform device the third does not count.
pub proof fn law_names_of_gpus(a: Seq<char>, b: Seq<char>, s: Seq<char>)
    ensures
        gpu_like(a + "mali"@ + b),
        gpu_like(a + "gpu"@ + b),
        gpu_like(a + "mfg"@ + b),
        platform_gpu_like(a + "mali"@ + b),
        platform_gpu_like(a + "gpu"@ + b),
        platform_gpu_like(s) <==> text::occurs(s, "mali"@) || text::occurs(s, "gpu"@),
        gpu_like(s) <==> platform_gpu_like(s) || text::occurs(s, "mfg"@),
{
    text::law_parts_of_a_text(a, "mali"@, b, s);
    text::law_parts_of_a_text(a, "gpu"@, b, s);
    text::law_parts_of_a_text(a, "mfg"@, b, s);
}

/// Devices are looked at one by one: the first that has both nodes, and the name where
/// names count, is taken, with its own nodes.
pub proof fn law_first_device_is_taken(a: Seq<DevfreqNode>, b: Seq<DevfreqNode>, d: DevfreqNode, named: bool)
    ensures
        first_devfreq(a, named) is Some ==> first_devfreq(a + b, named) == first_devfreq(a, named),
        first_devfreq(a, named) is None ==> first_devfreq(a + b, named) == first_devfreq(b, named),
        first_devfreq(seq![d], named) is Some <==> d.has_max && d.has_min && (!named || gpu_like(
            outside::lowered(d.name@),
        )),
        first_devfreq(seq![d], named) matches Some(i) ==> i == (InterfaceView::Devfreq {
            max_freq: d.path@ + "/max_freq"@,
            min_freq: d.path@ + "/min_freq"@,
        }),
    decreases a.len(),
{
    let one = seq![d];
    assert(one[0] == d);
    assert(one.drop_first() == Seq::<DevfreqNode>::empty());
    assert(first_devfreq(Seq::<DevfreqNode>::empty(), named) is None);
    if a.len() == 0 {
        assert(a + b == b);
    } else {
        law_first_device_is_taken(a.drop_first(), b, d, named);
        assert((a + b)[0] == a[0]);
        assert((a + b).drop_first() == a.drop_first() + b);
    }
}

/// Platform devices are looked at one by one: the first with the name that has a complete
/// device, whatever the name of that, is taken.
pub proof fn law_first_platform_device_is_taken(a: Seq<PlatformNode>, b: Seq<PlatformNode>, d: PlatformNode)
    ensures
        first_platform(a) is Some ==> first_platform(a + b) == first_platform(a),
        first_platform(a) is None ==> first_platform(a + b) == first_platform(b),
        d.devfreq is None || !platform_gpu_like(outside::lowered(d.name@)) ==> first_platform(seq![d]) is None,
        platform_gpu_like(outside::lowered(d.name@)) ==> (d.devfreq matches Some(nodes)
            ==> first_platform(seq![d]) == first_devfreq(nodes@, false)),
    decreases a.len(),
{
    let one = seq![d];
    assert(one[0] == d);
    assert(one.drop_first() == Seq::<PlatformNode>::empty());
    assert(first_platform(Seq::<PlatformNode>::empty()) is None);
    if a.len() == 0 {
        assert(a + b == b);
    } else {
        law_first_platform_device_is_taken(a.drop_first(), b, d);
        assert((a + b)[0] == a[0]);
        assert((a + b).drop_first() == a.drop_first() + b);
    }
}

/// The nodes of the older interfaces. Platform devices count only where the other devices
/// could be listed and none of them was taken; without an older interface and without a
/// device there is no interface.
pub proof fn law_where_devices_are_looked_for(probe: GpuProbe)
    ensures
        probe.devfreq is None ==> devfreq_in(probe) is None,
        probe.devfreq matches Some(nodes) ==> (first_devfreq(nodes@, true) is Some ==> devfreq_in(
            probe,
        ) == first_devfreq(nodes@, true)),
        probe.devfreq matches Some(nodes) ==> (first_devfreq(nodes@, true) is None ==> devfreq_in(
            probe,
        ) == match probe.platform {
            Some(p) => first_platform(p@),
            None => None,
        }),
        !(probe.opp_freq && probe.dvfs_enable) && !(probe.max_clock && probe.min_clock) && devfreq_in(
            probe,
        ) is None ==> detected(probe) == InterfaceView::Unsupported,
        !(probe.opp_freq && probe.dvfs_enable) && !(probe.max_clock && probe.min_clock) ==> (
        devfreq_in(probe) matches Some(i) ==> detected(probe) == i),
        probe.opp_freq && probe.dvfs_enable ==> detected(probe) == (InterfaceView::ProcGpufreq {
            opp_freq: "/proc/gpufreq/gpufreq_opp_freq"@,
            dvfs_enable: "/sys/module/ged/parameters/gpu_dvfs_enable"@,
        }),
        !(probe.opp_freq && probe.dvfs_enable) && probe.max_clock && probe.min_clock ==> detected(
            probe,
        ) == (InterfaceView::GedSki {
            max_clock: "/sys/kernel/gpu/gpu_max_clock"@,
            min_clock: "/sys/kernel/gpu/gpu_min_clock"@,
        }),
{
}

/// At rest the lower end is the lowest frequency, on a switch the highest, and on every
/// other hint the middle one.
pub proof fn law_floor_of_hints(cfg: GpuConfig, hint: Hint)
    ensures
        floor_on(cfg, Hint::Idle) == cfg.min_freq_khz,
        floor_on(cfg, Hint::Switch) == cfg.max_freq_khz,
        hint != Hint::Idle && hint != Hint::Switch ==> floor_on(cfg, hint) == cfg.mid_freq_khz,
{
}

/// An interface with a range gets the upper end first and then the lower end of the hint,
/// as numbers; one in Hz gets a thousand times what one in kHz gets.
pub proof fn law_ranges_are_written(
    upper: Seq<char>,
    lower: Seq<char>,
    cfg: GpuConfig,
    hint: Hint,
    top: nat,
)
    requires
        cfg.max_freq_khz * 1000 <= top,
        floor_on(cfg, hint) * 1000 <= top,
    ensures
        ({
            let khz = writes_on(
                InterfaceView::GedSki { max_clock: upper, min_clock: lower },
                cfg,
                hint,
            );
            let hz = writes_on(
                InterfaceView::Devfreq { max_freq: upper, min_freq: lower },
                cfg,
                hint,
            );
            &&& khz.len() == 2 && hz.len() == 2
            &&& khz[0].0 == upper && hz[0].0 == upper
            &&& khz[1].0 == lower && hz[1].0 == lower
            &&& text::parsed(khz[0].1, top) == Some(cfg.max_freq_khz as nat)
            &&& text::parsed(khz[1].1, top) == Some(floor_on(cfg, hint) as nat)
            &&& text::parsed(hz[0].1, top) == Some((1000 * cfg.max_freq_khz) as nat)
            &&& text::parsed(hz[1].1, top) == Some((1000 * floor_on(cfg, hint)) as nat)
        }),
{
    text::law_decimal_reads_back(cfg.max_freq_khz as nat, top);
    text::law_decimal_reads_back(floor_on(cfg, hint) as nat, top);
    text::law_decimal_reads_back((cfg.max_freq_khz * 1000) as nat, top);
    text::law_decimal_reads_back((floor_on(cfg, hint) * 1000) as nat, top);
}

/// An interface with a lock has automatic scaling on but for a switch. At rest the lock is
/// then taken off, on a switch it is set to the highest frequency, and otherwise it stays
/// as it is.
pub proof fn law_locks_are_written(lock: Seq<char>, scaling: Seq<char>, cfg: GpuConfig, hint: Hint)
    ensures
        ({
            let writes = writes_on(
                InterfaceView::ProcGpufreq { opp_freq: lock, dvfs_enable: scaling },
                cfg,
                hint,
            );
            &&& writes.len() == if hint == Hint::Idle || hint == Hint::Switch {
                2int
            } else {
                1
            }
            &&& writes[0].0 == scaling
            &&& writes[0].1 == if hint == Hint::Switch {
                "0"@
            } else {
                "1"@
            }
            &&& hint == Hint::Idle ==> writes[1] == (lock, "0"@)
            &&& hint == Hint::Switch ==> writes[1].0 == lock && text::parsed(
                writes[1].1,
                u64::MAX as nat,
            ) == Some(cfg.max_freq_khz as nat)
        }),
{
    text::law_decimal_reads_back(cfg.max_freq_khz as nat, u64::MAX as nat);
}

/// Interfaces and writes stand for their nodes and values.
pub proof fn law_interfaces_stand_for_their_nodes(
    iface: GpuInterface,
    writes: Seq<GpuWrite>,
    i: int,
    v: Option<InterfaceView>,
)
    ensures
        iface@ == match iface {
            GpuInterface::ProcGpufreq { opp_freq, dvfs_enable } => InterfaceView::ProcGpufreq {
                opp_freq: opp_freq@,
                dvfs_enable: dvfs_enable@,
            },
            GpuInterface::GedSki { max_clock, min_clock } => InterfaceView::GedSki {
                max_clock: max_clock@,
                min_clock: min_clock@,
            },
            GpuInterface::Devfreq { max_freq, min_freq } => InterfaceView::Devfreq {
                max_freq: max_freq@,
                min_freq: min_freq@,
            },
            GpuInterface::Unsupported => InterfaceView::Unsupported,
        },
        write_views(writes).len() == writes.len(),
        0 <= i < writes.len() ==> write_views(writes)[i] == (writes[i].path@, writes[i].value@),
        found(Some(iface), v) <==> v == Some(iface@),
        found(None, v) <==> v is None,
{
}

} // verus!
