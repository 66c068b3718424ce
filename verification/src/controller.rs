//! What the controller does when something happens.
//!
//! A controller holds the machine of hints, the writer of kernel nodes, the governor of
//! processor frequencies and the scheduler of threads. Each new hint sets the
//! parameters that the preset of the current mode has for it, and the scene of the
//! scheduler.
use crate::config::Config;
use crate::config::Modules;
use crate::config::Preset;
use crate::config::PresetValue;
use crate::config::SchedModule;
use crate::cpu;
use crate::cpu::ClusterView;
use crate::cpu::CpuStat;
use crate::cpu::Governor;
use crate::cpu::PowerModel;
use crate::cpu::Tunables;
use crate::double::Double;
use crate::fsm;
use crate::fsm::Event;
use crate::fsm::Hint;
use crate::fsm::MachineView;
use crate::fsm::StateMachine;
use crate::input::TouchEvent;
use crate::outside;
use crate::sched::SchedScene;
use crate::sched::TaskScheduler;
use crate::strmap;
use crate::strmap::StrMap;
use crate::sysfs;
use crate::sysfs::JobView;
use crate::sysfs::KnobView;
use crate::sysfs::SysfsWriter;
use crate::text;
use crate::watcher;
use crate::watcher::WatchEvent;
use crate::watcher::WatchView;
use vstd::prelude::*;
use vstd::string::*;

verus! {

/// A parameter: its text, and the number that the text reads as.
#[derive(Debug)]
pub struct Param {
    pub text: String,
    pub number: Option<Double>,
}

/// What a [`Param`] stands for.
pub struct ParamView {
    pub text: Seq<char>,
    pub number: Option<Double>,
}

impl View for Param {
    type V = ParamView;

    open spec fn view(&self) -> ParamView {
        ParamView { text: self.text@, number: self.number }
    }
}

/// The text of a JSON value: the contents of a string, the rendering of anything else.
pub open spec fn json_str(v: serde_json::Value) -> Seq<char> {
    match outside::json_string(v) {
        Some(s) => s,
        None => outside::json_text(v),
    }
}

impl View for PresetValue {
    type V = ParamView;

    open spec fn view(&self) -> ParamView {
        ParamView { text: json_str(self.json), number: self.number }
    }
}

/// What some parameters stand for.
pub open spec fn param_views(pairs: Seq<(Seq<char>, Param)>) -> Seq<(Seq<char>, ParamView)> {
    strmap::mapped(pairs, |p: Param| p@)
}

/// What some parameters of a preset stand for.
pub open spec fn value_views(pairs: Seq<(Seq<char>, PresetValue)>) -> Seq<(Seq<char>, ParamView)> {
    strmap::mapped(pairs, |v: PresetValue| v@)
}

/// The parameters after more of them are set.
pub open spec fn params_with(
    params: Seq<(Seq<char>, ParamView)>,
    more: Seq<(Seq<char>, ParamView)>,
) -> Seq<(Seq<char>, ParamView)>
    decreases more.len(),
{
    if more.len() == 0 {
        params
    } else {
        strmap::with_pair(params_with(params, more.drop_last()), more.last().0, more.last().1)
    }
}

/// The parameters of a preset under a name.
pub open spec fn values_under(preset: Preset, name: Seq<char>) -> Seq<(Seq<char>, ParamView)> {
    if strmap::has_key(preset.pairs(), name) {
        value_views(strmap::value_of(preset.pairs(), name).pairs())
    } else {
        Seq::empty()
    }
}

/// The parameters of a preset on a hint: those for every hint, then those for this one.
pub open spec fn params_on(preset: Preset, hint: Hint) -> Seq<(Seq<char>, ParamView)> {
    params_with(
        params_with(Seq::empty(), values_under(preset, "*"@)),
        values_under(preset, hint.name()),
    )
}

/// The knob that a parameter is for, if it is for one.
pub open spec fn knob_of(key: Seq<char>) -> Option<Seq<char>> {
    if text::begins(key, "cpu."@) {
        None
    } else if text::begins(key, "sysfs."@) {
        Some(key.skip("sysfs."@.len() as int))
    } else if text::begins(key, "sched."@) {
        None
    } else {
        Some(key)
    }
}

/// The values for knobs among some parameters.
pub open spec fn knob_values(params: Seq<(Seq<char>, ParamView)>) -> Seq<(Seq<char>, Seq<char>)>
    decreases params.len(),
{
    if params.len() == 0 {
        Seq::empty()
    } else {
        let before = knob_values(params.drop_last());
        match knob_of(params.last().0) {
            Some(knob) => strmap::with_pair(before, knob, params.last().1.text),
            None => before,
        }
    }
}

/// What the governor is tuned to after a parameter is set. A text that is no number
/// leaves a number as it was.
pub open spec fn tuned_to(t: Tunables, name: Seq<char>, param: ParamView) -> Tunables {
    if name == "fastLimitPower"@ || name == "fast_limit_power"@ {
        match param.number {
            Some(n) => Tunables { max_power: n, ..t },
            None => t,
        }
    } else if name == "margin"@ {
        match param.number {
            Some(n) => Tunables { margin: n, ..t },
            None => t,
        }
    } else if name == "limitEfficiency"@ || name == "limit_efficiency"@ {
        Tunables { limit_eff: param.text == "true"@ || param.text == "1"@, ..t }
    } else {
        t
    }
}

/// What the governor is tuned to after the parameters for it are set.
pub open spec fn tuned_by(t: Tunables, params: Seq<(Seq<char>, ParamView)>) -> Tunables
    decreases params.len(),
{
    if params.len() == 0 {
        t
    } else {
        let before = tuned_by(t, params.drop_last());
        let (key, param) = params.last();
        if text::begins(key, "cpu."@) {
            tuned_to(before, key.skip("cpu."@.len() as int), param)
        } else {
            before
        }
    }
}

/// The scene of the scheduler on a hint.
pub open spec fn scene_on(hint: Hint) -> SchedScene {
    match hint {
        Hint::Idle => SchedScene::Idle,
        Hint::Switch => SchedScene::Boost,
        _ => SchedScene::Touch,
    }
}

/// The first word of the mode file, `balance` where there is none.
pub open spec fn mode_word(contents: Option<Seq<char>>) -> Seq<char> {
    match contents {
        Some(s) => if text::words(s).len() > 0 {
            text::words(s)[0]
        } else {
            "balance"@
        },
        None => "balance"@,
    }
}

/// The mode that is taken where `requested` is asked for: that one, or the first preset
/// where there is no such preset or the choice is left open; `otherwise` where there
/// are no presets at all.
pub open spec fn mode_taken<V>(
    presets: Seq<(Seq<char>, V)>,
    requested: Seq<char>,
    otherwise: Seq<char>,
) -> Seq<char> {
    if requested != "auto"@ && strmap::has_key(presets, requested) {
        requested
    } else if presets.len() > 0 {
        presets[0].0
    } else {
        otherwise
    }
}

/// What a [`Controller`] stands for.
pub struct ControllerView {
    pub presets: Seq<(Seq<char>, Preset)>,
    pub mode: Seq<char>,
    pub machine: MachineView,
    pub knobs: Seq<(Seq<char>, KnobView)>,
    pub cache: Map<Seq<char>, Seq<char>>,
    pub queue: Seq<JobView>,
    pub clusters: Seq<ClusterView>,
    pub sample: Seq<CpuStat>,
    pub tuned: Tunables,
    pub sched: SchedModule,
    pub scene: SchedScene,
    pub known: Map<u32, usize>,
    pub dirty: bool,
    pub last_scan: u128,
}

impl ControllerView {
    /// The parameters of the current mode on a hint.
    pub open spec fn params(self, hint: Hint) -> Seq<(Seq<char>, ParamView)> {
        params_on(strmap::value_of(self.presets, self.mode), hint)
    }

    /// After the parameters of the current mode on a hint are set: those for knobs are
    /// to be written, those for the governor hold at once. A mode without a preset
    /// changes nothing.
    pub open spec fn applying(self, hint: Hint) -> ControllerView {
        if strmap::has_key(self.presets, self.mode) {
            ControllerView {
                queue: self.queue + sysfs::jobs_for_all(self.knobs, knob_values(self.params(hint))),
                tuned: tuned_by(self.tuned, self.params(hint)),
                ..self
            }
        } else {
            self
        }
    }

    /// After a new hint.
    pub open spec fn hinted(self, hint: Hint) -> ControllerView {
        ControllerView {
            scene: scene_on(hint),
            dirty: self.dirty || self.scene != scene_on(hint),
            ..self.applying(hint)
        }
    }

    /// After time has passed.
    pub open spec fn ticked(self, now: u128) -> ControllerView {
        let next = ControllerView { machine: self.machine.ticked(now), ..self };
        if self.machine.expired(now) {
            next.hinted(self.machine.state.fallen_back())
        } else {
            next
        }
    }

    /// After an event of the machine of hints.
    pub open spec fn stepped(self, event: Event, now: u128) -> ControllerView {
        let next = ControllerView { machine: self.machine.stepped(event, now), ..self };
        match self.machine.state.after(event) {
            Some(hint) => next.hinted(hint),
            None => next,
        }
    }

    /// After a mode was asked for.
    pub open spec fn moded(self, mode: Seq<char>) -> ControllerView {
        ControllerView { mode: mode_taken(self.presets, mode, mode), ..self }.applying(
            self.machine.state,
        )
    }

    /// After a change outside the program.
    pub open spec fn watched(self, event: WatchView, now: u128) -> ControllerView {
        match event {
            WatchView::AppSwitch => self.stepped(Event::WindowSwitch, now),
            WatchView::ScreenOn => self.stepped(Event::ScreenOn, now),
            WatchView::ScreenOff => self.stepped(Event::ScreenOff, now),
            WatchView::ModeChange(mode) => self.moded(mode),
        }
    }
}

/// The event of the machine of hints that a touch is.
pub open spec fn event_of(touch: TouchEvent) -> Event {
    match touch {
        TouchEvent::Down => Event::TouchDown,
        TouchEvent::Up => Event::TouchUp,
        TouchEvent::Swipe => Event::Swipe,
        TouchEvent::Gesture => Event::Gesture,
    }
}

/// For how many milliseconds events are waited for: until the current hint expires, but
/// never longer than 200.
pub open spec fn poll_of(machine: MachineView, now: u128) -> int {
    if machine.wait(now) / 1_000_000 < 200 {
        machine.wait(now) / 1_000_000
    } else {
        200
    }
}

/// The controller of a configuration at the start, where `requested` is the mode asked
/// for and `tables` holds the kernel's list of frequencies of each cluster.
pub open spec fn started(
    cfg: Config,
    tables: Seq<Option<String>>,
    requested: Seq<char>,
    now: u128,
) -> ControllerView {
    let masks = cfg.modules.sched.cpumask.pairs();
    let knobs = sysfs::knobs_of(
        strmap::texts(cfg.modules.sysfs.knob.pairs()),
        cpu::leaders_of(masks, cpu::cluster_order_of(masks)),
        cpu::all_cpus_of(masks),
    );
    ControllerView {
        presets: cfg.presets.pairs(),
        mode: mode_taken(cfg.presets.pairs(), requested, "balance"@),
        machine: MachineView {
            state: Hint::Idle,
            entered_at: now,
            durations: cfg.modules.switcher.hint_duration,
        },
        knobs,
        cache: Map::empty(),
        queue: sysfs::jobs_for_all(knobs, strmap::texts(cfg.initials.sysfs.pairs())),
        clusters: cpu::models_of(cfg.modules.cpu.power_model@, masks, tables),
        sample: Seq::empty(),
        tuned: Tunables {
            max_power: cfg.initials.cpu.fast_limit_power,
            margin: cfg.initials.cpu.margin,
            limit_eff: cfg.initials.cpu.limit_efficiency,
        },
        sched: cfg.modules.sched,
        scene: SchedScene::Idle,
        known: Map::empty(),
        dirty: false,
        last_scan: now,
    }.applying(Hint::Idle)
}

/// The text of a JSON value.
pub fn json_to_str(v: &serde_json::Value) -> (r: String)
    ensures
        r@ == json_str(*v),
{
    match v.as_str() {
        Some(s) => s.to_owned(),
        None => outside::render_json(v),
    }
}

/// Sets more parameters.
fn add_params(params: &mut StrMap<Param>, more: &StrMap<PresetValue>)
    ensures
        param_views(final(params).pairs()) == params_with(
            param_views(old(params).pairs()),
            value_views(more.pairs()),
        ),
{
    let ghost all = value_views(more.pairs());
    let ghost start = param_views(params.pairs());
    let n: usize = more.len();
    let mut i: usize = 0;
    while i < n
        invariant
            i <= n,
            n == all.len(),
            all == value_views(more.pairs()),
            param_views(params.pairs()) == params_with(start, all.take(i as int)),
        decreases n - i,
    {
        let value: &PresetValue = more.value_at(i);
        let param = Param { text: json_to_str(&value.json), number: value.number };
        let ghost before = params.pairs();
        let ghost key = more.pairs()[i as int].0;
        params.insert(more.key_at(i).to_owned(), param);
        proof {
            strmap::lemma_mapped(before, |p: Param| p@, key, param);
            assert(all[i as int] == (key, param@));
            assert(all.take(i + 1).drop_last() == all.take(i as int));
            assert(all.take(i + 1).last() == all[i as int]);
        }
        i = i + 1;
    }
    assert(all.take(n as int) == all);
}

/// The parameters of a preset on a hint.
pub fn collect_params(preset: &Preset, hint: Hint) -> (r: StrMap<Param>)
    ensures
        param_views(r.pairs()) == params_on(*preset, hint),
{
    let mut params: StrMap<Param> = StrMap::new();
    assert(param_views(params.pairs()) == Seq::<(Seq<char>, ParamView)>::empty());
    if let Some(global) = preset.get("*") {
        add_params(&mut params, global);
    }
    if let Some(own) = preset.get(hint.as_str()) {
        add_params(&mut params, own);
    }
    params
}

/// Sets a parameter of the governor.
pub fn apply_cpu_param(governor: &mut Governor, key: &str, value: &Param)
    ensures
        final(governor).tuned() == tuned_to(old(governor).tuned(), key@, value@),
        final(governor).clusters() == old(governor).clusters(),
        final(governor).sample() == old(governor).sample(),
{
    let mut t: Tunables = governor.tunables();
    if text::same(key, "fastLimitPower") || text::same(key, "fast_limit_power") {
        if let Some(n) = value.number {
            t.max_power = n;
        }
    } else if text::same(key, "margin") {
        if let Some(n) = value.number {
            t.margin = n;
        }
    } else if text::same(key, "limitEfficiency") || text::same(key, "limit_efficiency") {
        let on: &str = value.text.as_str();
        t.limit_eff = text::same(on, "true") || text::same(on, "1");
    }
    governor.set_tunables(t);
}

/// Sets parameters: asks for those of knobs to be written, and tunes the governor.
pub fn apply_params(sysfs: &mut SysfsWriter, governor: &mut Governor, params: &StrMap<Param>)
    ensures
        final(sysfs).queue() == old(sysfs).queue() + sysfs::jobs_for_all(
            old(sysfs).knobs(),
            knob_values(param_views(params.pairs())),
        ),
        final(sysfs).knobs() == old(sysfs).knobs(),
        final(sysfs).cache() == old(sysfs).cache(),
        final(governor).tuned() == tuned_by(old(governor).tuned(), param_views(params.pairs())),
        final(governor).clusters() == old(governor).clusters(),
        final(governor).sample() == old(governor).sample(),
{
    let ghost all = param_views(params.pairs());
    let mut values: StrMap<String> = StrMap::new();
    assert(strmap::texts(values.pairs()) == Seq::<(Seq<char>, Seq<char>)>::empty());
    let n: usize = params.len();
    let mut i: usize = 0;
    while i < n
        invariant
            i <= n,
            n == all.len(),
            all == param_views(params.pairs()),
            strmap::texts(values.pairs()) == knob_values(all.take(i as int)),
            governor.tuned() == tuned_by(old(governor).tuned(), all.take(i as int)),
            governor.clusters() == old(governor).clusters(),
            governor.sample() == old(governor).sample(),
        decreases n - i,
    {
        let key: &str = params.key_at(i);
        let param: &Param = params.value_at(i);
        proof {
            assert(all[i as int] == (key@, param@));
            assert(all.take(i + 1).drop_last() == all.take(i as int));
            assert(all.take(i + 1).last() == all[i as int]);
        }
        let ghost before = values.pairs();
        if let Some(name) = text::strip_prefix(key, "cpu.") {
            apply_cpu_param(governor, name, param);
        } else if let Some(name) = text::strip_prefix(key, "sysfs.") {
            let value: String = param.text.clone();
            values.insert(name.to_owned(), value);
            proof {
                strmap::lemma_mapped(before, |t: String| t@, name@, value);
            }
        } else if !text::starts_with(key, "sched.") {
            let value: String = param.text.clone();
            values.insert(key.to_owned(), value);
            proof {
                strmap::lemma_mapped(before, |t: String| t@, key@, value);
            }
        }
        i = i + 1;
    }
    assert(all.take(n as int) == all);
    sysfs.apply_batch(&values);
}

/// Sets the parameters of a mode on a hint; nothing where the mode has no preset.
pub fn apply_preset(
    sysfs: &mut SysfsWriter,
    governor: &mut Governor,
    presets: &StrMap<Preset>,
    mode: &str,
    hint: Hint,
)
    ensures
        strmap::has_key(presets.pairs(), mode@) ==> {
            let params = params_on(strmap::value_of(presets.pairs(), mode@), hint);
            &&& final(sysfs).queue() == old(sysfs).queue() + sysfs::jobs_for_all(
                old(sysfs).knobs(),
                knob_values(params),
            )
            &&& final(governor).tuned() == tuned_by(old(governor).tuned(), params)
        },
        !strmap::has_key(presets.pairs(), mode@) ==> final(sysfs).queue() == old(sysfs).queue()
            && final(governor).tuned() == old(governor).tuned(),
        final(sysfs).knobs() == old(sysfs).knobs(),
        final(sysfs).cache() == old(sysfs).cache(),
        final(governor).clusters() == old(governor).clusters(),
        final(governor).sample() == old(governor).sample(),
{
    if let Some(preset) = presets.get(mode) {
        let params: StrMap<Param> = collect_params(preset, hint);
        apply_params(sysfs, governor, &params);
    }
}

/// The scene of the scheduler on a hint.
pub fn scene_of(hint: Hint) -> (r: SchedScene)
    ensures
        r == scene_on(hint),
{
    proof {
        reveal_strlit("boost");
        reveal_strlit("touch");
        reveal_strlit("idle");
        assert("boost"@[0] != "touch"@[0]);
    }
    let name: &str = hint.sched_scene();
    if text::same(name, "boost") {
        SchedScene::Boost
    } else if text::same(name, "touch") {
        SchedScene::Touch
    } else {
        SchedScene::Idle
    }
}

/// The mode asked for in the mode file, in lower case.
pub fn read_mode(contents: Option<&str>) -> (r: String)
    ensures
        r@ == outside::lowered(mode_word(watcher::text_view(contents))),
{
    let mut word: &str = "balance";
    if let Some(s) = contents {
        let words: Vec<&str> = text::split_whitespace(s);
        if words.len() > 0 {
            word = words[0];
            assert(text::views(words@)[0] == word@);
        }
    }
    word.to_lowercase()
}

/// The mode that is taken where `requested` is asked for.
pub fn choose_mode(presets: &StrMap<Preset>, requested: &str, otherwise: &str) -> (r: String)
    ensures
        r@ == mode_taken(presets.pairs(), requested@, otherwise@),
{
    if !text::same(requested, "auto") && presets.contains_key(requested) {
        requested.to_owned()
    } else if presets.len() > 0 {
        presets.key_at(0).to_owned()
    } else {
        otherwise.to_owned()
    }
}

/// The parts of the controller.
pub struct Controller {
    pub presets: StrMap<Preset>,
    pub mode: String,
    pub fsm: StateMachine,
    pub sysfs: SysfsWriter,
    pub governor: Governor,
    pub scheduler: TaskScheduler,
    /// When the processes were last scanned.
    pub last_scan: u128,
}

impl View for Controller {
    type V = ControllerView;

    open spec fn view(&self) -> ControllerView {
        ControllerView {
            presets: self.presets.pairs(),
            mode: self.mode@,
            machine: self.fsm@,
            knobs: self.sysfs.knobs(),
            cache: self.sysfs.cache(),
            queue: self.sysfs.queue(),
            clusters: self.governor.clusters(),
            sample: self.governor.sample(),
            tuned: self.governor.tuned(),
            sched: self.scheduler.cfg(),
            scene: self.scheduler.scene(),
            known: self.scheduler.known(),
            dirty: self.scheduler.dirty(),
            last_scan: self.last_scan,
        }
    }
}

impl Controller {
    /// A controller for a configuration in the mode that is asked for. `tables` holds
    /// the kernel's list of frequencies of each cluster, where it could be read.
    pub fn start(cfg: Config, tables: &Vec<Option<String>>, requested: &str, now: u128) -> (r: Self)
        ensures
            r@ == started(cfg, tables@, requested@, now),
    {
        let leaders: Vec<u32> = cpu::cluster_leaders(&cfg.modules.sched.cpumask);
        let all: Vec<u32> = cpu::all_cpus(&cfg.modules.sched.cpumask);
        let mut sysfs: SysfsWriter = SysfsWriter::new(&cfg.modules.sysfs.knob, leaders, all);
        sysfs.apply_batch(&cfg.initials.sysfs);
        let model: PowerModel = PowerModel::new(
            &cfg.modules.cpu,
            &cfg.modules.sched.cpumask,
            tables,
        );
        let governor: Governor = Governor::new(model, &cfg.initials.cpu);
        let mode: String = choose_mode(&cfg.presets, requested, "balance");
        let mut r = Controller {
            presets: cfg.presets,
            mode,
            fsm: StateMachine::new(cfg.modules.switcher.hint_duration, now),
            sysfs,
            governor,
            scheduler: TaskScheduler::new(cfg.modules.sched),
            last_scan: now,
        };
        r.apply_current();
        r
    }

    /// A controller for a configuration in the mode that the mode file asks for.
    pub fn new(cfg: Config, tables: &Vec<Option<String>>, mode_file: Option<&str>, now: u128) -> (r:
        Self)
        ensures
            r@ == started(
                cfg,
                tables@,
                outside::lowered(mode_word(watcher::text_view(mode_file))),
                now,
            ),
    {
        let requested: String = read_mode(mode_file);
        Controller::start(cfg, tables, requested.as_str(), now)
    }

    /// Sets the parameters of the current mode on the current hint.
    fn apply_current(&mut self)
        ensures
            final(self)@ == old(self)@.applying(old(self)@.machine.state),
    {
        let hint: Hint = self.fsm.current();
        apply_preset(
            &mut self.sysfs,
            &mut self.governor,
            &self.presets,
            self.mode.as_str(),
            hint,
        );
    }

    /// Does what a new hint asks for.
    pub fn on_hint_change(&mut self, hint: Hint)
        ensures
            final(self)@ == old(self)@.hinted(hint),
    {
        apply_preset(
            &mut self.sysfs,
            &mut self.governor,
            &self.presets,
            self.mode.as_str(),
            hint,
        );
        self.scheduler.set_scene(scene_of(hint));
    }

    /// Lets the current hint expire.
    pub fn tick(&mut self, now: u128) -> (r: Option<Hint>)
        ensures
            final(self)@ == old(self)@.ticked(now),
            r is Some <==> old(self)@.machine.expired(now),
            r matches Some(h) ==> h == old(self)@.machine.state.fallen_back(),
    {
        let r: Option<Hint> = self.fsm.tick(now);
        if let Some(hint) = r {
            self.on_hint_change(hint);
        }
        r
    }

    /// A touch.
    pub fn on_touch(&mut self, touch: TouchEvent, now: u128) -> (r: Option<Hint>)
        ensures
            final(self)@ == old(self)@.stepped(event_of(touch), now),
            r == old(self)@.machine.state.after(event_of(touch)),
    {
        let r: Option<Hint> = match touch {
            TouchEvent::Down => self.fsm.on_touch_down(now),
            TouchEvent::Up => self.fsm.on_touch_up(now),
            TouchEvent::Swipe => self.fsm.on_swipe(now),
            TouchEvent::Gesture => self.fsm.on_gesture(now),
        };
        if let Some(hint) = r {
            self.on_hint_change(hint);
        }
        r
    }

    /// A change outside the program.
    pub fn on_watch(&mut self, event: WatchEvent, now: u128)
        ensures
            final(self)@ == old(self)@.watched(event@, now),
    {
        let r: Option<Hint> = match event {
            WatchEvent::AppSwitch => self.fsm.on_window_switch(now),
            WatchEvent::ScreenOn => self.fsm.on_screen_on(now),
            WatchEvent::ScreenOff => self.fsm.on_screen_off(now),
            WatchEvent::ModeChange(mode) => {
                self.mode = choose_mode(&self.presets, mode.as_str(), mode.as_str());
                self.apply_current();
                return;
            },
        };
        if let Some(hint) = r {
            self.on_hint_change(hint);
        }
    }

    /// For how many milliseconds events are waited for.
    pub fn poll_timeout(&self, now: u128) -> (r: i32)
        ensures
            r == poll_of(self@.machine, now),
    {
        let ms: u128 = self.fsm.next_timeout(now) / 1_000_000;
        if ms < 200 {
            ms as i32
        } else {
            200
        }
    }

    /// Whether the last scan of the processes is at least 200 milliseconds ago.
    pub fn scan_due(&self, now: u128) -> (r: bool)
        ensures
            r == (fsm::elapsed(self@.last_scan, now) >= 200_000_000),
    {
        now >= self.last_scan && now - self.last_scan >= 200_000_000
    }

    /// Takes note that the processes were scanned.
    pub fn scan_done(&mut self, now: u128)
        ensures
            final(self)@ == (ControllerView { last_scan: now, ..old(self)@ }),
    {
        self.last_scan = now;
    }
}

proof fn lemma_params_with(
    params: Seq<(Seq<char>, ParamView)>,
    more: Seq<(Seq<char>, ParamView)>,
    key: Seq<char>,
)
    requires
        strmap::distinct_keys(params),
        strmap::distinct_keys(more),
    ensures
        strmap::distinct_keys(params_with(params, more)),
        strmap::has_key(params_with(params, more), key) == (strmap::has_key(more, key)
            || strmap::has_key(params, key)),
        strmap::has_key(more, key) ==> strmap::value_of(params_with(params, more), key)
            == strmap::value_of(more, key),
        !strmap::has_key(more, key) && strmap::has_key(params, key) ==> strmap::value_of(
            params_with(params, more),
            key,
        ) == strmap::value_of(params, key),
    decreases more.len(),
{
    if more.len() > 0 {
        let rest = more.drop_last();
        let (last, value) = more.last();
        lemma_params_with(params, rest, key);
        strmap::law_insert_then_read(params_with(params, rest), last, value, key);
        if strmap::has_key(rest, key) {
            assert(more[strmap::key_index(rest, key)].0 == key);
        }
        if strmap::has_key(more, key) {
            let i = strmap::key_index(more, key);
            if i < rest.len() {
                assert(rest[i].0 == key);
                assert(strmap::key_index(rest, key) == i);
            }
        }
        if key == last {
            assert(more[more.len() - 1].0 == key);
        }
    }
}

/// The parameters for a hint override those for every hint, and there are no others.
pub proof fn law_own_parameters_override(preset: Preset, hint: Hint, key: Seq<char>)
    requires
        strmap::distinct_keys(values_under(preset, "*"@)),
        strmap::distinct_keys(values_under(preset, hint.name())),
    ensures
        ({
            let common = values_under(preset, "*"@);
            let own = values_under(preset, hint.name());
            let params = params_on(preset, hint);
            &&& strmap::distinct_keys(params)
            &&& strmap::has_key(params, key) <==> strmap::has_key(own, key) || strmap::has_key(
                common,
                key,
            )
            &&& strmap::has_key(own, key) ==> strmap::value_of(params, key) == strmap::value_of(
                own,
                key,
            )
            &&& strmap::has_key(common, key) && !strmap::has_key(own, key) ==> strmap::value_of(
                params,
                key,
            ) == strmap::value_of(common, key)
        }),
{
    let none = Seq::<(Seq<char>, ParamView)>::empty();
    let common = values_under(preset, "*"@);
    let own = values_under(preset, hint.name());
    lemma_params_with(none, common, key);
    lemma_params_with(params_with(none, common), own, key);
}

/// A parameter of the scheduler has no effect, one of the governor is written to no
/// knob, and one of a knob does not tune the governor.
pub proof fn law_parameters_stay_apart(
    params: Seq<(Seq<char>, ParamView)>,
    key: Seq<char>,
    param: ParamView,
    t: Tunables,
)
    ensures
        text::begins(key, "sched."@) ==> knob_values(params.push((key, param))) == knob_values(params)
            && tuned_by(t, params.push((key, param))) == tuned_by(t, params),
        text::begins(key, "cpu."@) ==> knob_values(params.push((key, param))) == knob_values(params),
        knob_of(key) is Some ==> tuned_by(t, params.push((key, param))) == tuned_by(t, params),
{
    reveal_strlit("cpu.");
    reveal_strlit("sysfs.");
    reveal_strlit("sched.");
    assert(params.push((key, param)).drop_last() == params);
    if text::begins(key, "sched."@) {
        assert(key.take(6)[0] == 's' && key.take(6)[1] == 'c');
    }
    if text::begins(key, "sysfs."@) {
        assert(key.take(6)[1] == 'y');
    }
    if text::begins(key, "cpu."@) {
        assert(key.take(4)[0] == 'c');
    }
}

/// A knob can be named with or without its prefix, as long as its own name does not
/// start with one.
pub proof fn law_knob_prefix_is_optional(knob: Seq<char>)
    requires
        !text::begins(knob, "cpu."@),
        !text::begins(knob, "sysfs."@),
        !text::begins(knob, "sched."@),
    ensures
        knob_of(knob) == Some(knob),
        knob_of("sysfs."@ + knob) == Some(knob),
{
    reveal_strlit("cpu.");
    reveal_strlit("sysfs.");
    let full = "sysfs."@ + knob;
    assert(full.take(6) == "sysfs."@);
    assert(full.skip(6) == knob);
    assert(text::begins(full, "sysfs."@));
    if text::begins(full, "cpu."@) {
        assert(full.take(4)[0] == 'c');
    }
}

/// Both spellings of a parameter of the governor do the same, and a text that is no
/// number changes no number.
pub proof fn law_spellings_are_alike(t: Tunables, param: ParamView)
    ensures
        tuned_to(t, "fastLimitPower"@, param) == tuned_to(t, "fast_limit_power"@, param),
        tuned_to(t, "limitEfficiency"@, param) == tuned_to(t, "limit_efficiency"@, param),
        param.number is None ==> tuned_to(t, "fastLimitPower"@, param) == t && tuned_to(
            t,
            "margin"@,
            param,
        ) == t,
{
    reveal_strlit("fastLimitPower");
    reveal_strlit("fast_limit_power");
    reveal_strlit("margin");
    reveal_strlit("limitEfficiency");
    reveal_strlit("limit_efficiency");
    assert("limitEfficiency"@.len() == 15);
    assert("limit_efficiency"@.len() == 16);
    assert("limit_efficiency"@[0] != "fast_limit_power"@[0]);
}

/// The mode taken has a preset wherever there are presets, and a mode with a preset is
/// taken as asked for.
pub proof fn law_mode_taken_is_known<V>(
    presets: Seq<(Seq<char>, V)>,
    requested: Seq<char>,
    otherwise: Seq<char>,
)
    ensures
        presets.len() > 0 ==> strmap::has_key(
            presets,
            mode_taken(presets, requested, otherwise),
        ),
        strmap::has_key(presets, requested) && requested != "auto"@ ==> mode_taken(
            presets,
            requested,
            otherwise,
        ) == requested,
{
    if presets.len() > 0 {
        assert(presets[0].0 == presets[0].0);
    }
}

/// A mode without a preset sets nothing.
pub proof fn law_unknown_mode_sets_nothing(c: ControllerView, hint: Hint)
    requires
        !strmap::has_key(c.presets, c.mode),
    ensures
        c.applying(hint) == c,
{
}

/// Whether a controller is in the scene of its hint and, if there are presets, in a mode
/// that has one.
pub open spec fn in_step(c: ControllerView) -> bool {
    &&& c.scene == scene_on(c.machine.state)
    &&& c.presets.len() > 0 ==> strmap::has_key(c.presets, c.mode)
}

/// A controller is in step from the start, and whatever happens keeps it so.
pub proof fn law_controller_stays_in_step(
    cfg: Config,
    tables: Seq<Option<String>>,
    requested: Seq<char>,
    c: ControllerView,
    touch: TouchEvent,
    change: WatchView,
    now: u128,
)
    ensures
        in_step(started(cfg, tables, requested, now)),
        in_step(c) ==> in_step(c.ticked(now)),
        in_step(c) ==> in_step(c.stepped(event_of(touch), now)),
        in_step(c) ==> in_step(c.watched(change, now)),
{
    law_mode_taken_is_known(cfg.presets.pairs(), requested, "balance"@);
    if let WatchView::ModeChange(mode) = change {
        law_mode_taken_is_known(c.presets, mode, mode);
    }
}

/// Whether `d` has the fixed parts of `c` and at least its writes.
pub open spec fn extends(c: ControllerView, d: ControllerView) -> bool {
    &&& d.presets == c.presets
    &&& d.knobs == c.knobs
    &&& d.clusters == c.clusters
    &&& d.sched == c.sched
    &&& d.cache == c.cache
    &&& d.sample == c.sample
    &&& d.known == c.known
    &&& d.last_scan == c.last_scan
    &&& c.queue.is_prefix_of(d.queue)
}

/// Nothing that happens changes the presets, the knobs, the clusters or the rules of the
/// scheduler, nor what was seen of nodes, loads and processes. Writes are only added, in
/// order.
pub proof fn law_events_only_add_writes(c: ControllerView, event: Event, change: WatchView, now: u128)
    ensures
        extends(c, c.ticked(now)),
        extends(c, c.stepped(event, now)),
        extends(c, c.watched(change, now)),
{
    assert forall|hint: Hint, e: ControllerView| e.queue == c.queue implies c.queue.is_prefix_of(
        (#[trigger] e.applying(hint)).queue,
    ) by {
        if strmap::has_key(e.presets, e.mode) {
            let jobs = sysfs::jobs_for_all(e.knobs, knob_values(e.params(hint)));
            assert((c.queue + jobs).take(c.queue.len() as int) == c.queue);
        }
    }
    assert(c.queue.take(c.queue.len() as int) == c.queue);
}

/// A touch that leads to no new hint changes nothing.
pub proof fn law_ignored_touch_changes_nothing(c: ControllerView, touch: TouchEvent, now: u128)
    requires
        c.machine.state.after(event_of(touch)) is None,
    ensures
        c.stepped(event_of(touch), now) == c,
{
}

/// Another mode keeps the hint, the time since when it holds, and the scene.
pub proof fn law_mode_change_keeps_the_hint(c: ControllerView, mode: Seq<char>)
    ensures
        c.moded(mode).machine == c.machine,
        c.moded(mode).scene == c.scene,
        c.moded(mode).dirty == c.dirty,
        c.moded(mode).mode == mode_taken(c.presets, mode, mode),
{
}

/// The scheduler's scene is the one that the hint names.
pub proof fn law_scene_is_named_by_hint(hint: Hint)
    ensures
        scene_on(hint) == SchedScene::Boost <==> hint.scene_name() == "boost"@,
        scene_on(hint) == SchedScene::Touch <==> hint.scene_name() == "touch"@,
        scene_on(hint) == SchedScene::Idle <==> hint.scene_name() == "idle"@,
{
    reveal_strlit("boost");
    reveal_strlit("touch");
    reveal_strlit("idle");
    assert("boost"@[0] != "touch"@[0]);
    assert("idle"@.len() == 4);
}

/// Events are waited for at least one and at most 200 milliseconds.
pub proof fn law_waits_are_short(machine: MachineView, now: u128)
    ensures
        1 <= poll_of(machine, now) <= 200,
{
}

/// Surface analysis is always off: what the configuration says of it has no effect.
pub proof fn law_surface_analysis_is_off(
    cfg: Config,
    other: Config,
    tables: Seq<Option<String>>,
    requested: Seq<char>,
    now: u128,
)
    requires
        other == (Config {
            modules: Modules { sfanalysis: other.modules.sfanalysis, ..cfg.modules },
            ..cfg
        }),
    ensures
        started(cfg, tables, requested, now) == started(other, tables, requested, now),
{
}

/// Whether a controller went on from `c` to `d` by setting the parameters of its mode on a
/// hint: it asks for exactly their writes, behind those it had to do, and tunes the
/// governor by exactly them. Without a preset for the mode it sets nothing.
pub open spec fn sets_parameters(c: ControllerView, d: ControllerView, mode: Seq<char>, hint: Hint) -> bool {
    if strmap::has_key(c.presets, mode) {
        let params = params_on(strmap::value_of(c.presets, mode), hint);
        &&& d.queue == c.queue + sysfs::jobs_for_all(c.knobs, knob_values(params))
        &&& d.tuned == tuned_by(c.tuned, params)
    } else {
        d.queue == c.queue && d.tuned == c.tuned
    }
}

/// Whatever event leads to a new hint, the parameters of the mode on that hint are set, the
/// scheduler gets the hint's scene, and is told where that is another one.
pub proof fn law_new_hints_set_their_parameters(c: ControllerView, event: Event, hint: Hint, now: u128)
    requires
        c.machine.state.after(event) == Some(hint),
    ensures
        ({
            let d = c.stepped(event, now);
            &&& sets_parameters(c, d, c.mode, hint)
            &&& d.machine.state == hint
            &&& d.machine.entered_at == now
            &&& d.scene == scene_on(hint)
            &&& d.dirty <==> c.dirty || c.scene != scene_on(hint)
            &&& d.mode == c.mode
        }),
{
}

/// A hint that has lasted its time makes way for the next, whose parameters are set; before
/// that nothing happens.
pub proof fn law_lapsed_hints_set_the_next_ones_parameters(c: ControllerView, now: u128)
    ensures
        !c.machine.expired(now) ==> c.ticked(now) == c,
        c.machine.expired(now) ==> {
            let d = c.ticked(now);
            let hint = c.machine.state.fallen_back();
            &&& sets_parameters(c, d, c.mode, hint)
            &&& d.machine.state == hint
            &&& d.machine.entered_at == now
            &&& d.scene == scene_on(hint)
            &&& d.dirty <==> c.dirty || c.scene != scene_on(hint)
            &&& d.mode == c.mode
        },
{
}

/// A touch leads where a finger leads that does the same: down from idle to touch, and up
/// from touch to trigger, or to a gesture where it was one. Any other touch changes
/// nothing.
pub proof fn law_touches_lead_to_hints(c: ControllerView, touch: TouchEvent, now: u128)
    ensures
        ({
            let d = c.stepped(event_of(touch), now);
            let from = c.machine.state;
            if touch == TouchEvent::Down && from == Hint::Idle {
                d.machine.state == Hint::Touch && sets_parameters(c, d, c.mode, Hint::Touch)
            } else if touch == TouchEvent::Gesture && from == Hint::Touch {
                d.machine.state == Hint::Gesture && sets_parameters(c, d, c.mode, Hint::Gesture)
            } else if (touch == TouchEvent::Up || touch == TouchEvent::Swipe) && from == Hint::Touch {
                d.machine.state == Hint::Trigger && sets_parameters(c, d, c.mode, Hint::Trigger)
            } else {
                d == c
            }
        }),
{
}

/// Another application in front and a lit screen lead to a switch, a dark screen to idle,
/// whatever the hint before, and their parameters are set. A mode that is asked for sets
/// its parameters on the current hint.
pub proof fn law_changes_set_parameters(c: ControllerView, mode: Seq<char>, now: u128)
    ensures
        ({
            let d = c.watched(WatchView::AppSwitch, now);
            d.machine.state == Hint::Switch && d.machine.entered_at == now && sets_parameters(
                c,
                d,
                c.mode,
                Hint::Switch,
            )
        }),
        ({
            let d = c.watched(WatchView::ScreenOn, now);
            d.machine.state == Hint::Switch && d.machine.entered_at == now && sets_parameters(
                c,
                d,
                c.mode,
                Hint::Switch,
            )
        }),
        ({
            let d = c.watched(WatchView::ScreenOff, now);
            d.machine.state == Hint::Idle && d.machine.entered_at == now && sets_parameters(
                c,
                d,
                c.mode,
                Hint::Idle,
            )
        }),
        ({
            let d = c.watched(WatchView::ModeChange(mode), now);
            d.mode == mode_taken(c.presets, mode, mode) && d.machine == c.machine && sets_parameters(
                c,
                d,
                d.mode,
                c.machine.state,
            )
        }),
{
}

/// The parameters of a preset under a name are the pairs of that name, each with its text;
/// there are none under a name that the preset does not have.
pub proof fn law_parameters_of_a_preset(preset: Preset, name: Seq<char>, i: int)
    ensures
        !strmap::has_key(preset.pairs(), name) ==> values_under(preset, name).len() == 0,
        strmap::has_key(preset.pairs(), name) ==> {
            let pairs = strmap::value_of(preset.pairs(), name).pairs();
            let values = values_under(preset, name);
            &&& values.len() == pairs.len()
            &&& 0 <= i < pairs.len() ==> values[i].0 == pairs[i].0 && values[i].1.text == json_str(
                pairs[i].1.json,
            ) && values[i].1.number == pairs[i].1.number
        },
{
}

/// The text of a JSON string is what it holds, without quotes; that of any other value is
/// its rendering.
pub proof fn law_texts_of_values(v: serde_json::Value)
    ensures
        outside::json_string(v) matches Some(s) ==> json_str(v) == s,
        outside::json_string(v) is None ==> json_str(v) == outside::json_text(v),
{
}

/// Which knob a parameter is for is said by what its key starts with: that of a knob is the
/// rest of the key, the governor's and the scheduler's are for none.
pub proof fn law_keys_say_what_they_are_for(rest: Seq<char>)
    ensures
        knob_of("sysfs."@ + rest) == Some(rest),
        knob_of("cpu."@ + rest) is None,
        knob_of("sched."@ + rest) is None,
{
    reveal_strlit("cpu.");
    reveal_strlit("sysfs.");
    reveal_strlit("sched.");
    let a = "sysfs."@ + rest;
    let b = "cpu."@ + rest;
    let c = "sched."@ + rest;
    assert(a.take(6) == "sysfs."@);
    assert(a.skip(6) == rest);
    assert(a.take(4)[0] == 's');
    assert(b.take(4) == "cpu."@);
    assert(c.take(6) == "sched."@);
    assert(c.take(6)[1] == 'c');
    assert(c.take(4)[0] == 's');
}

proof fn lemma_knob_values_distinct(params: Seq<(Seq<char>, ParamView)>)
    ensures
        strmap::distinct_keys(knob_values(params)),
    decreases params.len(),
{
    if params.len() > 0 {
        let before = knob_values(params.drop_last());
        lemma_knob_values_distinct(params.drop_last());
        if let Some(knob) = knob_of(params.last().0) {
            strmap::law_insert_then_read(before, knob, params.last().1.text, knob);
        }
    }
}

/// A knob gets the text of the last parameter for it, and no other parameter makes a
/// difference to it. No parameters set no knob.
pub proof fn law_last_parameter_sets_the_knob(
    params: Seq<(Seq<char>, ParamView)>,
    key: Seq<char>,
    param: ParamView,
    other: Seq<char>,
)
    ensures
        knob_values(Seq::empty()).len() == 0,
        ({
            let before = knob_values(params);
            let after = knob_values(params.push((key, param)));
            &&& knob_of(key) matches Some(knob) ==> strmap::has_key(after, knob) && strmap::value_of(
                after,
                knob,
            ) == param.text
            &&& knob_of(key) != Some(other) ==> strmap::has_key(after, other) == strmap::has_key(
                before,
                other,
            )
            &&& knob_of(key) != Some(other) && strmap::has_key(before, other) ==> strmap::value_of(
                after,
                other,
            ) == strmap::value_of(before, other)
            &&& strmap::distinct_keys(after)
        }),
{
    let before = knob_values(params);
    lemma_knob_values_distinct(params);
    lemma_knob_values_distinct(params.push((key, param)));
    assert(params.push((key, param)).drop_last() == params);
    if let Some(knob) = knob_of(key) {
        strmap::law_insert_then_read(before, knob, param.text, other);
        strmap::law_insert_then_read(before, knob, param.text, knob);
    }
}

proof fn lemma_tuned_by_push(t: Tunables, params: Seq<(Seq<char>, ParamView)>, name: Seq<char>, param: ParamView)
    ensures
        tuned_by(t, params.push(("cpu."@ + name, param))) == tuned_to(
            tuned_by(t, params),
            name,
            param,
        ),
{
    let key = "cpu."@ + name;
    assert(params.push((key, param)).drop_last() == params);
    assert(key.take("cpu."@.len() as int) == "cpu."@);
    assert(key.skip("cpu."@.len() as int) == name);
}

/// Each parameter of the governor sets its own figure and no other: the power and the
/// margin to the number that its text reads as, the last flag to whether its text is
/// `true` or `1`.
pub proof fn law_parameters_tune_their_own_figures(
    t: Tunables,
    params: Seq<(Seq<char>, ParamView)>,
    param: ParamView,
    n: Double,
)
    ensures
        ({
            let was = tuned_by(t, params);
            let power = tuned_by(t, params.push(("cpu."@ + "fastLimitPower"@, param)));
            let margin = tuned_by(t, params.push(("cpu."@ + "margin"@, param)));
            let flag = tuned_by(t, params.push(("cpu."@ + "limitEfficiency"@, param)));
            &&& param.number == Some(n) ==> power.max_power == n && margin.margin == n
            &&& param.number is None ==> power == was && margin == was
            &&& power.margin == was.margin && power.limit_eff == was.limit_eff
            &&& margin.max_power == was.max_power && margin.limit_eff == was.limit_eff
            &&& flag.max_power == was.max_power && flag.margin == was.margin
            &&& flag.limit_eff <==> param.text == "true"@ || param.text == "1"@
        }),
        tuned_by(t, Seq::empty()) == t,
{
    reveal_strlit("fastLimitPower");
    reveal_strlit("fast_limit_power");
    reveal_strlit("margin");
    reveal_strlit("limitEfficiency");
    reveal_strlit("limit_efficiency");
    assert("fastLimitPower"@.len() == 14 && "fast_limit_power"@.len() == 16);
    assert("margin"@.len() == 6);
    assert("limitEfficiency"@.len() == 15 && "limit_efficiency"@.len() == 16);
    lemma_tuned_by_push(t, params, "fastLimitPower"@, param);
    lemma_tuned_by_push(t, params, "margin"@, param);
    lemma_tuned_by_push(t, params, "limitEfficiency"@, param);
}

/// A parameter of the governor with another name changes nothing.
pub proof fn law_unknown_figures_change_nothing(
    t: Tunables,
    params: Seq<(Seq<char>, ParamView)>,
    name: Seq<char>,
    param: ParamView,
)
    requires
        name != "fastLimitPower"@ && name != "fast_limit_power"@,
        name != "margin"@,
        name != "limitEfficiency"@ && name != "limit_efficiency"@,
    ensures
        tuned_by(t, params.push(("cpu."@ + name, param))) == tuned_by(t, params),
{
    lemma_tuned_by_push(t, params, name, param);
}

/// The mode file asks for its first word, whatever stands around and behind it; where it
/// holds none, or is not there, it asks for `balance`.
pub proof fn law_mode_file_asks_for_its_first_word(
    before: Seq<char>,
    word: Seq<char>,
    space: char,
    behind: Seq<char>,
)
    requires
        text::blank(before),
        word.len() > 0,
        forall|i: int| 0 <= i < word.len() ==> !text::is_space(#[trigger] word[i]),
        text::is_space(space),
    ensures
        mode_word(Some(before + word)) == word,
        mode_word(Some(before + word.push(space) + behind)) == word,
        mode_word(Some(before)) == "balance"@,
        mode_word(None) == "balance"@,
{
    text::law_one_word(word);
    text::law_words_are_separated(word, space, behind);
    lemma_words_behind_blank(before, word);
    lemma_words_behind_blank(before, word.push(space) + behind);
    assert(before + word.push(space) + behind == before + (word.push(space) + behind));
    lemma_words_behind_blank(before, Seq::empty());
    text::law_one_word(Seq::empty());
    assert(before + Seq::<char>::empty() == before);
}

proof fn lemma_words_behind_blank(before: Seq<char>, s: Seq<char>)
    requires
        text::blank(before),
    ensures
        text::words(before + s) == text::words(s),
    decreases before.len(),
{
    if before.len() == 0 {
        assert(before + s == s);
    } else {
        let c = before[0];
        let rest = before.drop_first();
        assert(text::is_space(c));
        assert forall|i: int| 0 <= i < rest.len() implies text::is_space(#[trigger] rest[i]) by {
            assert(rest[i] == before[i + 1]);
        }
        lemma_words_behind_blank(rest, s);
        let none = Seq::<char>::empty();
        text::law_words_are_separated(none, c, rest + s);
        text::law_one_word(none);
        assert(none.push(c) + (rest + s) == before + s);
        assert(text::words(none) + text::words(rest + s) == text::words(rest + s));
    }
}

/// A mode without a preset, and an open choice, give way to the first preset; without any
/// preset there is only what is said otherwise.
pub proof fn law_modes_give_way_to_the_first<V>(
    presets: Seq<(Seq<char>, V)>,
    requested: Seq<char>,
    otherwise: Seq<char>,
)
    ensures
        presets.len() > 0 && !strmap::has_key(presets, requested) ==> mode_taken(
            presets,
            requested,
            otherwise,
        ) == presets[0].0,
        presets.len() > 0 ==> mode_taken(presets, "auto"@, otherwise) == presets[0].0,
        presets.len() == 0 ==> mode_taken(presets, requested, otherwise) == otherwise,
{
}

/// Events are waited for as many whole milliseconds as there is nothing to do, but no more
/// than 200.
pub proof fn law_waits_are_whole_milliseconds(machine: MachineView, now: u128)
    ensures
        ({
            let ms = poll_of(machine, now);
            &&& ms * 1_000_000 <= machine.wait(now)
            &&& ms < 200 ==> machine.wait(now) < (ms + 1) * 1_000_000
            &&& ms == 200 ==> machine.wait(now) >= 200_000_000
        }),
{
}

/// A controller starts idle, in the scene of that and knowing nothing, with the governor as
/// the configuration has it. It first asks for the initial values of the knobs, then sets
/// the parameters of its mode on idle.
pub proof fn law_start(
    cfg: Config,
    tables: Seq<Option<String>>,
    requested: Seq<char>,
    now: u128,
    plain: ControllerView,
)
    requires
        plain.presets == cfg.presets.pairs(),
        plain.knobs == started(cfg, tables, requested, now).knobs,
        plain.queue == sysfs::jobs_for_all(plain.knobs, strmap::texts(cfg.initials.sysfs.pairs())),
        plain.tuned.max_power == cfg.initials.cpu.fast_limit_power,
        plain.tuned.margin == cfg.initials.cpu.margin,
        plain.tuned.limit_eff == cfg.initials.cpu.limit_efficiency,
    ensures
        ({
            let c = started(cfg, tables, requested, now);
            let masks = cfg.modules.sched.cpumask.pairs();
            &&& sets_parameters(plain, c, c.mode, Hint::Idle)
            &&& c.machine.state == Hint::Idle && c.machine.entered_at == now
            &&& c.machine.durations == cfg.modules.switcher.hint_duration
            &&& c.mode == mode_taken(cfg.presets.pairs(), requested, "balance"@)
            &&& c.scene == SchedScene::Idle && !c.dirty
            &&& c.known.dom() == Set::<u32>::empty() && c.cache.dom() == Set::<Seq<char>>::empty()
            &&& c.sample.len() == 0
            &&& c.last_scan == now
            &&& c.presets == cfg.presets.pairs()
            &&& c.sched == cfg.modules.sched
            &&& c.clusters == cpu::models_of(cfg.modules.cpu.power_model@, masks, tables)
            &&& c.knobs == sysfs::knobs_of(
                strmap::texts(cfg.modules.sysfs.knob.pairs()),
                cpu::leaders_of(masks, cpu::cluster_order_of(masks)),
                cpu::all_cpus_of(masks),
            )
        }),
{
}

/// Parameters stand for their texts and numbers, and a controller for its parts.
pub proof fn law_parameters_stand_for_their_parts(
    p: Param,
    pairs: Seq<(Seq<char>, Param)>,
    i: int,
    c: Controller,
)
    ensures
        p@.text == p.text@,
        p@.number == p.number,
        param_views(pairs).len() == pairs.len(),
        0 <= i < pairs.len() ==> param_views(pairs)[i] == (pairs[i].0, pairs[i].1@),
        c@.presets == c.presets.pairs(),
        c@.mode == c.mode@,
        c@.machine == c.fsm@,
        c@.knobs == c.sysfs.knobs() && c@.cache == c.sysfs.cache() && c@.queue == c.sysfs.queue(),
        c@.clusters == c.governor.clusters() && c@.sample == c.governor.sample() && c@.tuned
            == c.governor.tuned(),
        c@.sched == c.scheduler.cfg() && c@.scene == c.scheduler.scene() && c@.known
            == c.scheduler.known() && c@.dirty == c.scheduler.dirty(),
        c@.last_scan == c.last_scan,
{
}

proof fn lemma_params_keep_places(
    params: Seq<(Seq<char>, ParamView)>,
    more: Seq<(Seq<char>, ParamView)>,
)
    requires
        strmap::distinct_keys(params),
    ensures
        strmap::distinct_keys(params_with(params, more)),
        params.len() <= params_with(params, more).len(),
        forall|i: int|
            0 <= i < params.len() ==> (#[trigger] params_with(params, more)[i]).0 == params[i].0,
    decreases more.len(),
{
    if more.len() > 0 {
        let before = params_with(params, more.drop_last());
        lemma_params_keep_places(params, more.drop_last());
        strmap::law_insert_then_read(before, more.last().0, more.last().1, more.last().0);
        strmap::law_insert_keeps_the_order(before, more.last().0, more.last().1);
        assert forall|i: int| 0 <= i < params.len() implies (#[trigger] params_with(
            params,
            more,
        )[i]).0 == params[i].0 by {
            assert(before[i].0 == params[i].0);
        }
    }
}

/// The parameters for every hint come first, in their order, also where the hint overrides
/// them; the knobs come in the order in which parameters first name them.
pub proof fn law_parameters_keep_their_places(
    preset: Preset,
    hint: Hint,
    params: Seq<(Seq<char>, ParamView)>,
    key: Seq<char>,
    param: ParamView,
)
    requires
        strmap::distinct_keys(values_under(preset, "*"@)),
    ensures
        values_under(preset, "*"@).len() <= params_on(preset, hint).len(),
        forall|i: int|
            0 <= i < values_under(preset, "*"@).len() ==> (#[trigger] params_on(preset, hint)[i]).0
                == values_under(preset, "*"@)[i].0,
        forall|i: int|
            0 <= i < knob_values(params).len() ==> (#[trigger] knob_values(
                params.push((key, param)),
            )[i]).0 == knob_values(params)[i].0,
        knob_values(params).len() <= knob_values(params.push((key, param))).len(),
{
    let common = values_under(preset, "*"@);
    lemma_params_of_nothing(common);
    lemma_params_keep_places(common, values_under(preset, hint.name()));
    let before = knob_values(params);
    lemma_knob_values_distinct(params);
    assert(params.push((key, param)).drop_last() == params);
    if let Some(knob) = knob_of(key) {
        strmap::law_insert_keeps_the_order(before, knob, param.text);
    }
}

proof fn lemma_params_of_nothing(more: Seq<(Seq<char>, ParamView)>)
    requires
        strmap::distinct_keys(more),
    ensures
        params_with(Seq::empty(), more) == more,
    decreases more.len(),
{
    if more.len() > 0 {
        let rest = more.drop_last();
        assert forall|i: int, j: int| 0 <= i < j < rest.len() implies (#[trigger] rest[i]).0 != (
        #[trigger] rest[j]).0 by {
            assert(rest[i] == more[i] && rest[j] == more[j]);
        }
        lemma_params_of_nothing(rest);
        if strmap::has_key(rest, more.last().0) {
            let i = strmap::key_index(rest, more.last().0);
            assert(more[i].0 == more[more.len() - 1].0);
        }
        assert(rest.push(more.last()) == more);
    }
}

} // verus!
