//! Affinity and priority of threads.
//!
//! Processes are matched by their command lines against the rules of the
//! configuration, their threads by name against the rules of the process. What a
//! matched thread gets depends on the scene.
use crate::config::{ProcessRule, SceneAffinity, ScenePrio, SchedModule, ThreadRule};
use crate::outside;
use crate::strmap;
use crate::text;
use nix::sched::CpuSet;
use regex::Regex;
use std::collections::HashMap;
use vstd::prelude::*;
use vstd::string::*;

verus! {

broadcast use vstd::std_specs::hash::group_hash_axioms;

/// What the machine is being used for.
#[derive(Debug, Clone, Copy, PartialEq, Eq, Structural)]
pub enum SchedScene {
    Bg,
    Fg,
    Idle,
    Touch,
    Boost,
}

/// The priority of a thread.
#[derive(Debug, Clone, Copy, PartialEq, Eq, Structural)]
pub enum Priority {
    /// As it is.
    Unchanged,
    /// A nice value, from -20 to 19.
    Nice(i32),
    /// A first-in-first-out real-time priority.
    Rt(u32),
}

/// `n`, or the nearer of the two ends where it lies outside.
pub open spec fn clamped(n: int, lo: int, hi: int) -> int {
    if n < lo {
        lo
    } else if n > hi {
        hi
    } else {
        n
    }
}

impl Priority {
    /// The priority that a number of the configuration stands for: zero leaves it as it
    /// is, a number from 97 on is a real-time priority counted down from 140, and any
    /// other is a nice value.
    pub open spec fn encoded(v: int) -> Priority {
        if v == 0 {
            Priority::Unchanged
        } else if v >= 97 {
            Priority::Rt(clamped(140 - v, 1, 99) as u32)
        } else {
            Priority::Nice(clamped(v, -20, 19) as i32)
        }
    }

    /// The priority that a number of the configuration stands for.
    pub fn from_config(v: i32) -> (r: Self)
        ensures
            r == Priority::encoded(v as int),
    {
        if v == 0 {
            Priority::Unchanged
        } else if v < 0 {
            Priority::Nice(clamp(v, -20, 19))
        } else if v >= 97 {
            Priority::Rt(clamp(140 - v, 1, 99) as u32)
        } else {
            Priority::Nice(clamp(v, -20, 19))
        }
    }
}

fn clamp(n: i32, lo: i32, hi: i32) -> (r: i32)
    requires
        lo <= hi,
    ensures
        r == clamped(n as int, lo as int, hi as int),
{
    if n < lo {
        lo
    } else if n > hi {
        hi
    } else {
        n
    }
}

/// What a thread gets.
#[derive(Debug)]
pub struct ThreadAction {
    /// The processors it may run on; none where they stay as they are.
    pub affinity_cpus: Vec<u32>,
    pub priority: Priority,
}

/// What a [`ThreadAction`] stands for.
pub struct ActionView {
    pub cpus: Seq<u32>,
    pub priority: Priority,
}

impl View for ThreadAction {
    type V = ActionView;

    open spec fn view(&self) -> ActionView {
        ActionView { cpus: self.affinity_cpus@, priority: self.priority }
    }
}

/// A call to the kernel on behalf of a thread.
#[derive(Debug)]
pub enum SchedCall {
    Affinity { tid: u32, cpus: Vec<u32> },
    Nice { tid: u32, nice: i32 },
    Fifo { tid: u32, priority: u32 },
}

/// What a [`SchedCall`] stands for.
pub enum CallView {
    Affinity(u32, Seq<u32>),
    Nice(u32, i32),
    Fifo(u32, u32),
}

impl View for SchedCall {
    type V = CallView;

    open spec fn view(&self) -> CallView {
        match self {
            SchedCall::Affinity { tid, cpus } => CallView::Affinity(*tid, cpus@),
            SchedCall::Nice { tid, nice } => CallView::Nice(*tid, *nice),
            SchedCall::Fifo { tid, priority } => CallView::Fifo(*tid, *priority),
        }
    }
}

/// What each of some calls stands for.
pub open spec fn call_views(calls: Seq<SchedCall>) -> Seq<CallView> {
    calls.map_values(|c: SchedCall| c@)
}

/// The calls that give a thread its processors and its priority.
pub open spec fn calls_of(tid: u32, action: ActionView) -> Seq<CallView> {
    let affinity = if action.cpus.len() > 0 {
        seq![CallView::Affinity(tid, action.cpus)]
    } else {
        Seq::empty()
    };
    match action.priority {
        Priority::Unchanged => affinity,
        Priority::Nice(nice) => affinity.push(CallView::Nice(tid, nice)),
        Priority::Rt(priority) => affinity.push(CallView::Fifo(tid, priority)),
    }
}

/// The call to make where a call failed: a high nice value in place of a real-time
/// priority.
pub open spec fn call_instead(call: CallView) -> Option<CallView> {
    match call {
        CallView::Fifo(tid, _) => Some(CallView::Nice(tid, (-10) as i32)),
        _ => None,
    }
}

/// The place of the first `true`.
pub open spec fn first_true(s: Seq<bool>) -> Option<usize>
    decreases s.len(),
{
    if s.len() == 0 {
        None
    } else {
        match first_true(s.drop_last()) {
            Some(i) => Some(i),
            None => if s.last() {
                Some((s.len() - 1) as usize)
            } else {
                None
            },
        }
    }
}

/// Whether a pattern compiles and matches.
pub open spec fn pattern_hits(pattern: Seq<char>, subject: Seq<char>) -> bool {
    outside::regex_valid(pattern) && outside::regex_matches(pattern, subject)
}

/// Which rules match a command line.
pub open spec fn process_hits(rules: Seq<ProcessRule>, cmdline: Seq<char>) -> Seq<bool> {
    Seq::new(rules.len(), |i: int| pattern_hits(rules[i].regex@, cmdline))
}

/// The rule of a process: the first one that matches its command line.
pub open spec fn rule_for(rules: Seq<ProcessRule>, cmdline: Seq<char>) -> Option<usize> {
    first_true(process_hits(rules, cmdline))
}

/// Whether a thread rule matches: by the thread's name, or, for the main thread's
/// own key, where the thread is the main one.
pub open spec fn thread_hit(key: Seq<char>, name: Seq<char>, is_main: bool) -> bool {
    if key == "/MAIN_THREAD/"@ {
        is_main
    } else {
        pattern_hits(key, name)
    }
}

/// Which thread rules match a thread.
pub open spec fn thread_hits(rules: Seq<ThreadRule>, name: Seq<char>, is_main: bool) -> Seq<bool> {
    Seq::new(rules.len(), |i: int| thread_hit(rules[i].k@, name, is_main))
}

/// Whether a class name stands for no class.
pub open spec fn no_class(name: Seq<char>) -> bool {
    name.len() == 0 || name == "auto"@
}

/// The mask name of an affinity class in a scene.
pub open spec fn mask_in(a: SceneAffinity, scene: SchedScene) -> Seq<char> {
    match scene {
        SchedScene::Bg => a.bg@,
        SchedScene::Fg => a.fg@,
        SchedScene::Idle => a.idle@,
        SchedScene::Touch => a.touch@,
        SchedScene::Boost => a.boost@,
    }
}

/// The encoded priority of a priority class in a scene.
pub open spec fn prio_in(p: ScenePrio, scene: SchedScene) -> i32 {
    match scene {
        SchedScene::Bg => p.bg,
        SchedScene::Fg => p.fg,
        SchedScene::Idle => p.idle,
        SchedScene::Touch => p.touch,
        SchedScene::Boost => p.boost,
    }
}

/// The processors of an affinity class in a scene; none where the class, its mask or
/// the mask's name is missing.
pub open spec fn cpus_of_class(cfg: SchedModule, scene: SchedScene, class: Seq<char>) -> Seq<u32> {
    let classes = cfg.affinity.pairs();
    let masks = cfg.cpumask.pairs();
    if !strmap::has_key(classes, class) {
        Seq::empty()
    } else {
        let mask = mask_in(strmap::value_of(classes, class), scene);
        if mask.len() == 0 || !strmap::has_key(masks, mask) {
            Seq::empty()
        } else {
            strmap::value_of(masks, mask)@
        }
    }
}

/// The priority of a priority class in a scene; as it is where the class is missing.
pub open spec fn priority_of_class(cfg: SchedModule, scene: SchedScene, class: Seq<char>) -> Priority {
    let classes = cfg.prio.pairs();
    if strmap::has_key(classes, class) {
        Priority::encoded(prio_in(strmap::value_of(classes, class), scene) as int)
    } else {
        Priority::Unchanged
    }
}

/// What a thread gets by a rule.
pub open spec fn action_of(cfg: SchedModule, scene: SchedScene, rule: ThreadRule) -> ActionView {
    ActionView {
        cpus: if no_class(rule.ac@) {
            Seq::empty()
        } else {
            cpus_of_class(cfg, scene, rule.ac@)
        },
        priority: if no_class(rule.pc@) {
            Priority::Unchanged
        } else {
            priority_of_class(cfg, scene, rule.pc@)
        },
    }
}

/// What a thread gets, by which rules of its process match it.
pub open spec fn action_by_hits(
    cfg: SchedModule,
    scene: SchedScene,
    rule: usize,
    hits: Seq<bool>,
) -> Option<ActionView> {
    match first_true(hits) {
        Some(j) => Some(action_of(cfg, scene, cfg.rules@[rule as int].rules@[j as int])),
        None => None,
    }
}

/// What a thread of a process with the given rule gets.
pub open spec fn action_for(
    cfg: SchedModule,
    scene: SchedScene,
    rule: usize,
    name: Seq<char>,
    is_main: bool,
) -> Option<ActionView> {
    if rule < cfg.rules@.len() {
        action_by_hits(cfg, scene, rule, thread_hits(cfg.rules@[rule as int].rules@, name, is_main))
    } else {
        None
    }
}

/// What the threads of a process get, in order, those left out that get nothing.
pub open spec fn actions_for(
    cfg: SchedModule,
    scene: SchedScene,
    rule: usize,
    pid: u32,
    threads: Seq<(u32, String)>,
) -> Seq<(u32, ActionView)>
    decreases threads.len(),
{
    if threads.len() == 0 {
        Seq::empty()
    } else {
        let before = actions_for(cfg, scene, rule, pid, threads.drop_last());
        let (tid, name) = threads.last();
        match action_for(cfg, scene, rule, name@, tid == pid) {
            Some(a) => before.push((tid, a)),
            None => before,
        }
    }
}

/// Whether a rule is to be applied on every scan.
pub open spec fn pinned(rules: Seq<ProcessRule>, rule: usize) -> bool {
    rule < rules.len() && rules[rule as int].pinned
}

/// The known processes without those that are gone.
pub open spec fn retained(known: Map<u32, usize>, pids: Seq<u32>) -> Map<u32, usize> {
    Map::new(|pid: u32| known.contains_key(pid) && pids.contains(pid), |pid: u32| known[pid])
}

/// The known processes after one was seen, where `matched` is the rule of its command
/// line.
pub open spec fn known_after(known: Map<u32, usize>, pid: u32, matched: Option<usize>) -> Map<u32, usize> {
    match matched {
        Some(rule) if !known.contains_key(pid) => known.insert(pid, rule),
        _ => known,
    }
}

/// The rule by which the threads of a process are to be treated: that of a process
/// newly matched, of one whose rule is pinned, and of any known one where `force` is
/// set.
pub open spec fn due(
    rules: Seq<ProcessRule>,
    known: Map<u32, usize>,
    force: bool,
    pid: u32,
    matched: Option<usize>,
) -> Option<usize> {
    if known.contains_key(pid) {
        if force || pinned(rules, known[pid]) {
            Some(known[pid])
        } else {
            None
        }
    } else {
        matched
    }
}

/// The known processes after some were seen.
pub open spec fn known_after_all(
    rules: Seq<ProcessRule>,
    known: Map<u32, usize>,
    procs: Seq<(u32, String)>,
) -> Map<u32, usize>
    decreases procs.len(),
{
    if procs.len() == 0 {
        known
    } else {
        let (pid, cmdline) = procs.last();
        known_after(
            known_after_all(rules, known, procs.drop_last()),
            pid,
            rule_for(rules, cmdline@),
        )
    }
}

/// The processes whose threads are to be treated, with their rules, in order.
pub open spec fn targets(
    rules: Seq<ProcessRule>,
    known: Map<u32, usize>,
    force: bool,
    procs: Seq<(u32, String)>,
) -> Seq<(u32, usize)>
    decreases procs.len(),
{
    if procs.len() == 0 {
        Seq::empty()
    } else {
        let before = targets(rules, known, force, procs.drop_last());
        let (pid, cmdline) = procs.last();
        match due(
            rules,
            known_after_all(rules, known, procs.drop_last()),
            force,
            pid,
            rule_for(rules, cmdline@),
        ) {
            Some(rule) => before.push((pid, rule)),
            None => before,
        }
    }
}

/// The process ids of some processes.
pub open spec fn pids_of(procs: Seq<(u32, String)>) -> Seq<u32> {
    procs.map_values(|p: (u32, String)| p.0)
}

/// The place of the first `true`.
pub fn first_hit(hits: &Vec<bool>) -> (r: Option<usize>)
    ensures
        r == first_true(hits@),
        r matches Some(i) ==> i < hits@.len() && hits@[i as int] && forall|j: int|
            0 <= j < i ==> !hits@[j],
        r is None ==> forall|j: int| 0 <= j < hits@.len() ==> !hits@[j],
{
    let n: usize = hits.len();
    let mut i: usize = 0;
    while i < n
        invariant
            i <= n,
            n == hits@.len(),
            first_true(hits@.take(i as int)) is None,
            forall|j: int| 0 <= j < i ==> !hits@[j],
        decreases n - i,
    {
        assert(hits@.take(i + 1).drop_last() == hits@.take(i as int));
        if hits[i] {
            proof {
                lemma_first_true_prefix(hits@, i + 1);
            }
            return Some(i);
        }
        i = i + 1;
    }
    assert(hits@.take(n as int) == hits@);
    None
}

proof fn lemma_first_true_prefix(s: Seq<bool>, n: int)
    requires
        0 <= n <= s.len(),
        first_true(s.take(n)) is Some,
    ensures
        first_true(s) == first_true(s.take(n)),
    decreases s.len(),
{
    if n == s.len() {
        assert(s.take(n) == s);
    } else {
        assert(s.drop_last().take(n) == s.take(n));
        lemma_first_true_prefix(s.drop_last(), n);
    }
}

/// How a thread rule tells its threads.
enum ThreadMatcher {
    /// By being the main thread.
    MainThread,
    /// By name.
    Name(Regex),
    /// Not at all, because its pattern does not compile.
    Broken,
}

/// Whether an expression, if any, was compiled from a pattern.
spec fn compiled_from(re: Option<Regex>, pattern: Seq<char>) -> bool {
    match re {
        Some(c) => outside::regex_valid(pattern) && outside::regex_source(c) == pattern,
        None => !outside::regex_valid(pattern),
    }
}

/// Whether a matcher was made from the key of a thread rule.
spec fn matcher_from(m: ThreadMatcher, key: Seq<char>) -> bool {
    match m {
        ThreadMatcher::MainThread => key == "/MAIN_THREAD/"@,
        ThreadMatcher::Name(c) => key != "/MAIN_THREAD/"@ && compiled_from(Some(c), key),
        ThreadMatcher::Broken => key != "/MAIN_THREAD/"@ && compiled_from(None, key),
    }
}

spec fn matchers_from(ms: Seq<ThreadMatcher>, rules: Seq<ThreadRule>) -> bool {
    ms.len() == rules.len() && forall|j: int|
        0 <= j < rules.len() ==> matcher_from(#[trigger] ms[j], rules[j].k@)
}

/// The rules of a configuration with their patterns compiled.
struct RuleSet {
    cfg: SchedModule,
    processes: Vec<Option<Regex>>,
    threads: Vec<Vec<ThreadMatcher>>,
}

fn compile(pattern: &str) -> (r: Option<Regex>)
    ensures
        compiled_from(r, pattern@),
{
    match Regex::new(pattern) {
        Ok(re) => Some(re),
        Err(_) => None,
    }
}

fn compile_key(key: &str) -> (r: ThreadMatcher)
    ensures
        matcher_from(r, key@),
{
    if text::same(key, "/MAIN_THREAD/") {
        ThreadMatcher::MainThread
    } else {
        match compile(key) {
            Some(re) => ThreadMatcher::Name(re),
            None => ThreadMatcher::Broken,
        }
    }
}

fn compile_keys(rules: &Vec<ThreadRule>) -> (r: Vec<ThreadMatcher>)
    ensures
        matchers_from(r@, rules@),
{
    let n: usize = rules.len();
    let mut r: Vec<ThreadMatcher> = Vec::new();
    let mut j: usize = 0;
    while j < n
        invariant
            j <= n,
            n == rules@.len(),
            r@.len() == j,
            forall|k: int| 0 <= k < j ==> matcher_from(#[trigger] r@[k], rules@[k].k@),
        decreases n - j,
    {
        r.push(compile_key(rules[j].k.as_str()));
        j = j + 1;
    }
    r
}

impl RuleSet {
    #[verifier::type_invariant]
    spec fn inv(&self) -> bool {
        &&& self.processes@.len() == self.cfg.rules@.len()
        &&& self.threads@.len() == self.cfg.rules@.len()
        &&& forall|i: int|
            0 <= i < self.cfg.rules@.len() ==> compiled_from(
                #[trigger] self.processes@[i],
                self.cfg.rules@[i].regex@,
            )
        &&& forall|i: int|
            0 <= i < self.cfg.rules@.len() ==> matchers_from(
                (#[trigger] self.threads@[i])@,
                self.cfg.rules@[i].rules@,
            )
    }

    fn new(cfg: SchedModule) -> (r: Self)
        ensures
            r.cfg == cfg,
    {
        let n: usize = cfg.rules.len();
        let mut processes: Vec<Option<Regex>> = Vec::new();
        let mut threads: Vec<Vec<ThreadMatcher>> = Vec::new();
        let mut i: usize = 0;
        while i < n
            invariant
                i <= n,
                n == cfg.rules@.len(),
                processes@.len() == i,
                threads@.len() == i,
                forall|k: int|
                    0 <= k < i ==> compiled_from(#[trigger] processes@[k], cfg.rules@[k].regex@),
                forall|k: int|
                    0 <= k < i ==> matchers_from((#[trigger] threads@[k])@, cfg.rules@[k].rules@),
            decreases n - i,
        {
            processes.push(compile(cfg.rules[i].regex.as_str()));
            threads.push(compile_keys(&cfg.rules[i].rules));
            i = i + 1;
        }
        RuleSet { cfg, processes, threads }
    }

    /// Which rules match a command line.
    fn process_hits(&self, cmdline: &str) -> (r: Vec<bool>)
        ensures
            r@ == process_hits(self.cfg.rules@, cmdline@),
    {
        proof {
            use_type_invariant(self);
        }
        let n: usize = self.processes.len();
        let mut r: Vec<bool> = Vec::new();
        let mut i: usize = 0;
        while i < n
            invariant
                i <= n,
                n == self.processes@.len(),
                self.inv(),
                r@.len() == i,
                forall|k: int|
                    0 <= k < i ==> #[trigger] r@[k] == pattern_hits(self.cfg.rules@[k].regex@, cmdline@),
            decreases n - i,
        {
            assert(compiled_from(self.processes@[i as int], self.cfg.rules@[i as int].regex@));
            let hit: bool = match &self.processes[i] {
                Some(re) => re.is_match(cmdline),
                None => false,
            };
            r.push(hit);
            i = i + 1;
        }
        assert(r@ == process_hits(self.cfg.rules@, cmdline@));
        r
    }

    /// Which thread rules of a rule match a thread.
    fn thread_hits(&self, rule: usize, name: &str, is_main: bool) -> (r: Vec<bool>)
        requires
            rule < self.cfg.rules@.len(),
        ensures
            r@ == thread_hits(self.cfg.rules@[rule as int].rules@, name@, is_main),
    {
        proof {
            use_type_invariant(self);
        }
        let matchers: &Vec<ThreadMatcher> = &self.threads[rule];
        let ghost rules = self.cfg.rules@[rule as int].rules@;
        let n: usize = matchers.len();
        let mut r: Vec<bool> = Vec::new();
        let mut j: usize = 0;
        while j < n
            invariant
                j <= n,
                n == matchers@.len(),
                matchers_from(matchers@, rules),
                r@.len() == j,
                forall|k: int| 0 <= k < j ==> #[trigger] r@[k] == thread_hit(rules[k].k@, name@, is_main),
            decreases n - j,
        {
            assert(matcher_from(matchers@[j as int], rules[j as int].k@));
            let hit: bool = match &matchers[j] {
                ThreadMatcher::MainThread => is_main,
                ThreadMatcher::Name(re) => re.is_match(name),
                ThreadMatcher::Broken => false,
            };
            r.push(hit);
            j = j + 1;
        }
        assert(r@ == thread_hits(rules, name@, is_main));
        r
    }
}

/// The rules, the scene, and the processes known so far with their rules.
pub struct TaskScheduler {
    rules: RuleSet,
    scene: SchedScene,
    known: HashMap<u32, usize>,
    dirty: bool,
}

impl TaskScheduler {
    /// The configuration.
    pub closed spec fn cfg(&self) -> SchedModule {
        self.rules.cfg
    }

    /// The scene.
    pub closed spec fn scene(&self) -> SchedScene {
        self.scene
    }

    /// The known processes with their rules.
    pub closed spec fn known(&self) -> Map<u32, usize> {
        self.known@
    }

    /// Whether the scene changed since the last scan.
    pub closed spec fn dirty(&self) -> bool {
        self.dirty
    }

    /// A scheduler that is idle and knows no process.
    pub fn new(cfg: SchedModule) -> (r: Self)
        ensures
            r.cfg() == cfg,
            r.scene() == SchedScene::Idle,
            r.known() == Map::<u32, usize>::empty(),
            !r.dirty(),
    {
        TaskScheduler {
            rules: RuleSet::new(cfg),
            scene: SchedScene::Idle,
            known: HashMap::new(),
            dirty: false,
        }
    }

    /// Changes the scene.
    pub fn set_scene(&mut self, scene: SchedScene)
        ensures
            final(self).scene() == scene,
            final(self).dirty() == (old(self).dirty() || old(self).scene() != scene),
            final(self).known() == old(self).known(),
            final(self).cfg() == old(self).cfg(),
    {
        if self.scene != scene {
            self.scene = scene;
            self.dirty = true;
        }
    }

    /// The rule of a process by its command line.
    pub fn match_process(&self, cmdline: &str) -> (r: Option<usize>)
        ensures
            r == rule_for(self.cfg().rules@, cmdline@),
            r matches Some(i) ==> i < self.cfg().rules@.len(),
    {
        let hits: Vec<bool> = self.rules.process_hits(cmdline);
        first_hit(&hits)
    }

    /// Forgets the processes that are gone. Tells whether every known one is to be
    /// treated again.
    pub fn begin_scan(&mut self, pids: &Vec<u32>) -> (force: bool)
        ensures
            force == old(self).dirty(),
            !final(self).dirty(),
            final(self).known() == retained(old(self).known(), pids@),
            final(self).scene() == old(self).scene(),
            final(self).cfg() == old(self).cfg(),
    {
        let force: bool = self.dirty;
        self.dirty = false;
        let mut kept: HashMap<u32, usize> = HashMap::new();
        let n: usize = pids.len();
        let mut i: usize = 0;
        while i < n
            invariant
                i <= n,
                n == pids@.len(),
                kept@ == retained(self.known@, pids@.take(i as int)),
                self.known@ == old(self).known@,
                !self.dirty,
                self.scene() == old(self).scene(),
                self.cfg() == old(self).cfg(),
            decreases n - i,
        {
            let pid: u32 = pids[i];
            let ghost before = kept@;
            if let Some(rule) = self.known.get(&pid) {
                kept.insert(pid, *rule);
            }
            proof {
                assert forall|p: u32| #[trigger] pids@.take(i + 1).contains(p) <==> p == pid || pids@.take(
                    i as int,
                ).contains(p) by {
                    assert(pids@.take(i + 1) == pids@.take(i as int).push(pid));
                    if pids@.take(i as int).contains(p) {
                        let k = choose|k: int| 0 <= k < i && pids@.take(i as int)[k] == p;
                        assert(pids@.take(i + 1)[k] == p);
                    }
                    assert(pids@.take(i + 1)[i as int] == pid);
                }
                assert(kept@ == retained(self.known@, pids@.take(i + 1)));
            }
            i = i + 1;
        }
        assert(pids@.take(n as int) == pids@);
        self.known = kept;
        force
    }

    /// Takes note of a process, where `matched` is the rule of its command line. Returns
    /// the rule by which its threads are to be treated now, if any.
    pub fn visit(&mut self, force: bool, pid: u32, matched: Option<usize>) -> (r: Option<usize>)
        ensures
            r == due(old(self).cfg().rules@, old(self).known(), force, pid, matched),
            final(self).known() == known_after(old(self).known(), pid, matched),
            final(self).dirty() == old(self).dirty(),
            final(self).scene() == old(self).scene(),
            final(self).cfg() == old(self).cfg(),
    {
        let cached: Option<usize> = match self.known.get(&pid) {
            Some(rule) => Some(*rule),
            None => None,
        };
        match cached {
            Some(rule) => {
                if force || self.is_pinned(rule) {
                    Some(rule)
                } else {
                    None
                }
            },
            None => {
                if let Some(rule) = matched {
                    self.known.insert(pid, rule);
                }
                matched
            },
        }
    }

    fn is_pinned(&self, rule: usize) -> (r: bool)
        ensures
            r == pinned(self.cfg().rules@, rule),
    {
        rule < self.rules.cfg.rules.len() && self.rules.cfg.rules[rule].pinned
    }

    /// Looks at the processes that there are, each with its command line. Returns those
    /// whose threads are to be treated, with their rules.
    pub fn scan_and_apply(&mut self, procs: &Vec<(u32, String)>) -> (r: Vec<(u32, usize)>)
        ensures
            ({
                let rules = old(self).cfg().rules@;
                let known = retained(old(self).known(), pids_of(procs@));
                &&& r@ == targets(rules, known, old(self).dirty(), procs@)
                &&& final(self).known() == known_after_all(rules, known, procs@)
            }),
            !final(self).dirty(),
            final(self).scene() == old(self).scene(),
            final(self).cfg() == old(self).cfg(),
    {
        let n: usize = procs.len();
        let mut pids: Vec<u32> = Vec::new();
        let mut i: usize = 0;
        while i < n
            invariant
                i <= n,
                n == procs@.len(),
                pids@ == pids_of(procs@).take(i as int),
            decreases n - i,
        {
            pids.push(procs[i].0);
            assert(pids@ == pids_of(procs@).take(i + 1));
            i = i + 1;
        }
        assert(pids@ == pids_of(procs@));
        let force: bool = self.begin_scan(&pids);
        let ghost rules = self.cfg().rules@;
        let ghost known = self.known();
        let mut r: Vec<(u32, usize)> = Vec::new();
        let mut k: usize = 0;
        while k < n
            invariant
                k <= n,
                n == procs@.len(),
                rules == old(self).cfg().rules@,
                self.cfg() == old(self).cfg(),
                self.scene() == old(self).scene(),
                !self.dirty(),
                self.known() == known_after_all(rules, known, procs@.take(k as int)),
                r@ == targets(rules, known, force, procs@.take(k as int)),
            decreases n - k,
        {
            let pid: u32 = procs[k].0;
            let matched: Option<usize> = if self.known.contains_key(&pid) {
                None
            } else {
                self.match_process(procs[k].1.as_str())
            };
            assert(procs@.take(k + 1).drop_last() == procs@.take(k as int));
            if let Some(rule) = self.visit(force, pid, matched) {
                r.push((pid, rule));
            }
            k = k + 1;
        }
        assert(procs@.take(n as int) == procs@);
        r
    }

    /// A scan whose processes could not be listed. It counts as a scan, but no process
    /// is forgotten.
    pub fn scan_failed(&mut self)
        ensures
            !final(self).dirty(),
            final(self).known() == old(self).known(),
            final(self).scene() == old(self).scene(),
            final(self).cfg() == old(self).cfg(),
    {
        self.dirty = false;
    }

    /// What a thread gets, where it is known which thread rules of its process's rule
    /// match it.
    pub fn resolve_hits(&self, rule: usize, hits: &Vec<bool>) -> (r: Option<ThreadAction>)
        requires
            rule < self.cfg().rules@.len(),
            hits@.len() == self.cfg().rules@[rule as int].rules@.len(),
        ensures
            match r {
                Some(a) => action_by_hits(self.cfg(), self.scene(), rule, hits@) == Some(a@),
                None => action_by_hits(self.cfg(), self.scene(), rule, hits@) is None,
            },
    {
        match first_hit(hits) {
            Some(j) => Some(self.build_action(&self.rules.cfg.rules[rule].rules[j])),
            None => None,
        }
    }

    /// What a thread of a process with the given rule gets.
    pub fn resolve_thread(&self, rule: usize, name: &str, is_main: bool) -> (r: Option<ThreadAction>)
        ensures
            match r {
                Some(a) => action_for(self.cfg(), self.scene(), rule, name@, is_main) == Some(a@),
                None => action_for(self.cfg(), self.scene(), rule, name@, is_main) is None,
            },
    {
        if rule >= self.rules.cfg.rules.len() {
            return None;
        }
        let hits: Vec<bool> = self.rules.thread_hits(rule, name, is_main);
        self.resolve_hits(rule, &hits)
    }

    /// What the threads of a process get, each thread with its id and name.
    pub fn thread_actions(&self, rule: usize, pid: u32, threads: &Vec<(u32, String)>) -> (r: Vec<
        (u32, ThreadAction),
    >)
        ensures
            r@.map_values(|a: (u32, ThreadAction)| (a.0, a.1@)) == actions_for(
                self.cfg(),
                self.scene(),
                rule,
                pid,
                threads@,
            ),
    {
        let n: usize = threads.len();
        let mut r: Vec<(u32, ThreadAction)> = Vec::new();
        let ghost f = |a: (u32, ThreadAction)| (a.0, a.1@);
        let mut i: usize = 0;
        assert(r@.map_values(f) == Seq::<(u32, ActionView)>::empty());
        while i < n
            invariant
                i <= n,
                n == threads@.len(),
                f == (|a: (u32, ThreadAction)| (a.0, a.1@)),
                r@.map_values(f) == actions_for(
                    self.cfg(),
                    self.scene(),
                    rule,
                    pid,
                    threads@.take(i as int),
                ),
            decreases n - i,
        {
            let tid: u32 = threads[i].0;
            assert(threads@.take(i + 1).drop_last() == threads@.take(i as int));
            let ghost before = r@;
            if let Some(a) = self.resolve_thread(rule, threads[i].1.as_str(), tid == pid) {
                r.push((tid, a));
                assert(r@.map_values(f) == before.map_values(f).push((tid, a@)));
            }
            i = i + 1;
        }
        assert(threads@.take(n as int) == threads@);
        r
    }

    fn build_action(&self, rule: &ThreadRule) -> (r: ThreadAction)
        ensures
            r@ == action_of(self.cfg(), self.scene(), *rule),
    {
        let affinity_cpus: Vec<u32> = if rule.ac.as_str().is_empty() || text::same(
            rule.ac.as_str(),
            "auto",
        ) {
            Vec::new()
        } else {
            self.resolve_cpumask(rule.ac.as_str())
        };
        let priority: Priority = if rule.pc.as_str().is_empty() || text::same(rule.pc.as_str(), "auto") {
            Priority::Unchanged
        } else {
            self.resolve_priority(rule.pc.as_str())
        };
        ThreadAction { affinity_cpus, priority }
    }

    fn resolve_cpumask(&self, class: &str) -> (r: Vec<u32>)
        ensures
            r@ == cpus_of_class(self.cfg(), self.scene(), class@),
    {
        let affinity: &SceneAffinity = match self.rules.cfg.affinity.get(class) {
            Some(a) => a,
            None => {
                return Vec::new();
            },
        };
        let mask: &String = match self.scene {
            SchedScene::Bg => &affinity.bg,
            SchedScene::Fg => &affinity.fg,
            SchedScene::Idle => &affinity.idle,
            SchedScene::Touch => &affinity.touch,
            SchedScene::Boost => &affinity.boost,
        };
        if mask.as_str().is_empty() {
            return Vec::new();
        }
        match self.rules.cfg.cpumask.get(mask.as_str()) {
            Some(cpus) => {
                let r: Vec<u32> = cpus.clone();
                assert(r@ == cpus@);
                r
            },
            None => Vec::new(),
        }
    }

    fn resolve_priority(&self, class: &str) -> (r: Priority)
        ensures
            r == priority_of_class(self.cfg(), self.scene(), class@),
    {
        let prio: &ScenePrio = match self.rules.cfg.prio.get(class) {
            Some(p) => p,
            None => {
                return Priority::Unchanged;
            },
        };
        let v: i32 = match self.scene {
            SchedScene::Bg => prio.bg,
            SchedScene::Fg => prio.fg,
            SchedScene::Idle => prio.idle,
            SchedScene::Touch => prio.touch,
            SchedScene::Boost => prio.boost,
        };
        Priority::from_config(v)
    }
}

/// The calls that give a thread its processors and its priority.
pub fn calls_for(tid: u32, action: ThreadAction) -> (r: Vec<SchedCall>)
    ensures
        call_views(r@) == calls_of(tid, action@),
{
    let mut r: Vec<SchedCall> = Vec::new();
    if action.affinity_cpus.len() > 0 {
        r.push(SchedCall::Affinity { tid, cpus: action.affinity_cpus });
    }
    match action.priority {
        Priority::Unchanged => {},
        Priority::Nice(nice) => {
            r.push(SchedCall::Nice { tid, nice });
        },
        Priority::Rt(priority) => {
            r.push(SchedCall::Fifo { tid, priority });
        },
    }
    assert(call_views(r@) == calls_of(tid, action@));
    r
}

/// The call to make where a call failed, if any.
pub fn fallback_call(call: &SchedCall) -> (r: Option<SchedCall>)
    ensures
        match r {
            Some(c) => call_instead(call@) == Some(c@),
            None => call_instead(call@) is None,
        },
{
    match call {
        SchedCall::Fifo { tid, priority: _ } => Some(SchedCall::Nice { tid: *tid, nice: -10 }),
        _ => None,
    }
}

/// The mask of some processors, without those that it has no room for.
pub fn cpu_set_of(cpus: &Vec<u32>) -> (r: CpuSet)
    ensures
        forall|c: nat|
            #[trigger] outside::cpu_set_members(r).contains(c) <==> c < outside::cpu_set_limit(r)
                && exists|i: int| 0 <= i < cpus@.len() && cpus@[i] == c,
        outside::cpu_set_limit(r) >= 32,
{
    let mut r: CpuSet = CpuSet::new();
    let n: usize = cpus.len();
    let mut i: usize = 0;
    while i < n
        invariant
            i <= n,
            n == cpus@.len(),
            forall|c: nat|
                #[trigger] outside::cpu_set_members(r).contains(c) <==> c < outside::cpu_set_limit(r)
                    && exists|k: int| 0 <= k < i && cpus@[k] == c,
            outside::cpu_set_limit(r) >= 32,
        decreases n - i,
    {
        let _ = r.set(cpus[i] as usize);
        i = i + 1;
    }
    r
}

/// A process by the name of its directory and the raw text of its command line, where
/// the name is a process id and the command line is not blank.
pub fn proc_entry(name: &str, raw_cmdline: &str) -> (r: Option<(u32, String)>)
    ensures
        ({
            let cmdline = text::trimmed(text::replaced(raw_cmdline@, "\0"@, " "@));
            match r {
                Some((pid, c)) => text::parsed(name@, u32::MAX as nat) == Some(pid as nat) && c@
                    == cmdline && cmdline.len() > 0,
                None => text::parsed(name@, u32::MAX as nat) is None || cmdline.len() == 0,
            }
        }),
{
    proof {
        reveal_strlit("\0");
    }
    let pid: u32 = match text::parse_u32(name) {
        Some(pid) => pid,
        None => {
            return None;
        },
    };
    let spaced: String = text::replace(raw_cmdline, "\0", " ");
    let cmdline: String = text::trim(spaced.as_str()).to_owned();
    if cmdline.as_str().is_empty() {
        None
    } else {
        Some((pid, cmdline))
    }
}

/// A thread by the name of its directory and the raw text of its own name, where the
/// former is a thread id.
pub fn thread_entry(name: &str, raw_comm: &str) -> (r: Option<(u32, String)>)
    ensures
        match r {
            Some((tid, c)) => text::parsed(name@, u32::MAX as nat) == Some(tid as nat) && c@
                == text::trimmed(raw_comm@),
            None => text::parsed(name@, u32::MAX as nat) is None,
        },
{
    match text::parse_u32(name) {
        Some(tid) => Some((tid, text::trim(raw_comm).to_owned())),
        None => None,
    }
}

proof fn lemma_first_true(s: Seq<bool>)
    requires
        s.len() <= usize::MAX,
    ensures
        first_true(s) matches Some(i) ==> i < s.len() && s[i as int] && forall|j: int|
            0 <= j < i ==> !s[j],
        first_true(s) is None ==> forall|j: int| 0 <= j < s.len() ==> !s[j],
    decreases s.len(),
{
    if s.len() > 0 {
        let t = s.drop_last();
        lemma_first_true(t);
        match first_true(t) {
            Some(i) => {
                assert(s[i as int] == t[i as int]);
                assert forall|j: int| 0 <= j < i implies !s[j] by {
                    assert(!t[j]);
                }
            },
            None => {
                assert forall|j: int| 0 <= j < t.len() implies !s[j] by {
                    assert(!t[j]);
                }
            },
        }
    }
}

/// The rule of a process is the first one whose pattern compiles and matches; a process
/// without a rule is one that none matches.
pub proof fn law_first_matching_rule_decides(rules: Seq<ProcessRule>, cmdline: Seq<char>)
    requires
        rules.len() <= usize::MAX,
    ensures
        rule_for(rules, cmdline) matches Some(i) ==> i < rules.len() && pattern_hits(
            rules[i as int].regex@,
            cmdline,
        ) && forall|j: int| 0 <= j < i ==> !pattern_hits((#[trigger] rules[j]).regex@, cmdline),
        rule_for(rules, cmdline) is None ==> forall|j: int|
            0 <= j < rules.len() ==> !pattern_hits((#[trigger] rules[j]).regex@, cmdline),
{
    let hits = process_hits(rules, cmdline);
    lemma_first_true(hits);
    assert forall|j: int| 0 <= j < rules.len() implies hits[j] == pattern_hits(
        (#[trigger] rules[j]).regex@,
        cmdline,
    ) by {}
}

/// The first thread rule that matches decides what a thread gets, and a thread that
/// none matches is left alone.
pub proof fn law_first_matching_thread_rule_decides(
    cfg: SchedModule,
    scene: SchedScene,
    rule: usize,
    name: Seq<char>,
    is_main: bool,
    j: int,
)
    requires
        rule < cfg.rules@.len(),
        cfg.rules@[rule as int].rules@.len() <= usize::MAX,
        0 <= j < cfg.rules@[rule as int].rules@.len(),
        thread_hit(cfg.rules@[rule as int].rules@[j].k@, name, is_main),
        forall|k: int|
            0 <= k < j ==> !thread_hit(
                (#[trigger] cfg.rules@[rule as int].rules@[k]).k@,
                name,
                is_main,
            ),
    ensures
        action_for(cfg, scene, rule, name, is_main) == Some(
            action_of(cfg, scene, cfg.rules@[rule as int].rules@[j]),
        ),
{
    let rules = cfg.rules@[rule as int].rules@;
    let hits = thread_hits(rules, name, is_main);
    lemma_first_true(hits);
    assert(hits[j]);
    match first_true(hits) {
        Some(i) => {
            if i < j {
                assert(!thread_hit(rules[i as int].k@, name, is_main));
            }
        },
        None => {},
    }
}

/// The main thread's own key matches the main thread whatever its name, and no other.
pub proof fn law_main_thread_key(name: Seq<char>)
    ensures
        thread_hit("/MAIN_THREAD/"@, name, true),
        !thread_hit("/MAIN_THREAD/"@, name, false),
{
}

/// Real-time numbers count down from 140 and nice values are taken as they stand; what
/// lies outside the kernel's ranges is brought to their ends.
pub proof fn law_priority_ranges(v: int)
    ensures
        97 <= v <= 139 ==> Priority::encoded(v) == Priority::Rt((140 - v) as u32),
        -20 <= v < 0 ==> Priority::encoded(v) == Priority::Nice(v as i32),
        Priority::encoded(v) matches Priority::Nice(n) ==> -20 <= n <= 19,
        Priority::encoded(v) matches Priority::Rt(n) ==> 1 <= n <= 99,
        Priority::encoded(v) == Priority::Unchanged <==> v == 0,
{
}

/// A class that is missing, empty or `auto` changes nothing.
pub proof fn law_missing_classes_change_nothing(cfg: SchedModule, scene: SchedScene, rule: ThreadRule)
    ensures
        no_class(rule.ac@) || !strmap::has_key(cfg.affinity.pairs(), rule.ac@) ==> action_of(
            cfg,
            scene,
            rule,
        ).cpus.len() == 0,
        no_class(rule.pc@) || !strmap::has_key(cfg.prio.pairs(), rule.pc@) ==> action_of(
            cfg,
            scene,
            rule,
        ).priority == Priority::Unchanged,
{
}

/// A thread that gets nothing costs no call, and a call that failed is replaced at most
/// once.
pub proof fn law_calls_are_bounded(tid: u32, action: ActionView, call: CallView)
    ensures
        action.cpus.len() == 0 && action.priority == Priority::Unchanged ==> calls_of(tid, action).len()
            == 0,
        calls_of(tid, action).len() <= 2,
        call_instead(call) matches Some(c) ==> call_instead(c) is None,
{
}

/// A known process stays known under its rule, and a new one is known under the rule of
/// its command line.
proof fn lemma_known_grows(
    rules: Seq<ProcessRule>,
    known: Map<u32, usize>,
    procs: Seq<(u32, String)>,
    pid: u32,
)
    ensures
        known.contains_key(pid) ==> known_after_all(rules, known, procs).contains_key(pid)
            && known_after_all(rules, known, procs)[pid] == known[pid],
        known_after_all(rules, known, procs).contains_key(pid) && !known.contains_key(pid)
            ==> pids_of(procs).contains(pid),
    decreases procs.len(),
{
    if procs.len() > 0 {
        lemma_known_grows(rules, known, procs.drop_last(), pid);
        if pids_of(procs.drop_last()).contains(pid) {
            let i = choose|i: int|
                0 <= i < procs.drop_last().len() && pids_of(procs.drop_last())[i] == pid;
            assert(pids_of(procs)[i] == pid);
        }
        assert(pids_of(procs)[procs.len() - 1] == procs.last().0);
    }
}

/// After a scan only processes that there are are known, and one that was known before
/// keeps its rule.
pub proof fn law_scan_forgets_the_gone(
    rules: Seq<ProcessRule>,
    known: Map<u32, usize>,
    procs: Seq<(u32, String)>,
    pid: u32,
)
    ensures
        ({
            let after = known_after_all(rules, retained(known, pids_of(procs)), procs);
            &&& after.contains_key(pid) ==> pids_of(procs).contains(pid)
            &&& known.contains_key(pid) && pids_of(procs).contains(pid) ==> after.contains_key(pid)
                && after[pid] == known[pid]
        }),
{
    lemma_known_grows(rules, retained(known, pids_of(procs)), procs, pid);
}

proof fn lemma_target_of(
    rules: Seq<ProcessRule>,
    known: Map<u32, usize>,
    force: bool,
    procs: Seq<(u32, String)>,
    i: int,
)
    requires
        0 <= i < procs.len(),
        due(
            rules,
            known_after_all(rules, known, procs.take(i)),
            force,
            procs[i].0,
            rule_for(rules, procs[i].1@),
        ) is Some,
    ensures
        targets(rules, known, force, procs).contains(
            (
                procs[i].0,
                due(
                    rules,
                    known_after_all(rules, known, procs.take(i)),
                    force,
                    procs[i].0,
                    rule_for(rules, procs[i].1@),
                )->0,
            ),
        ),
    decreases procs.len(),
{
    let all = targets(rules, known, force, procs);
    if i == procs.len() - 1 {
        assert(procs.take(i) == procs.drop_last());
        assert(all.last() == all[all.len() - 1]);
    } else {
        assert(procs.drop_last().take(i) == procs.take(i));
        lemma_target_of(rules, known, force, procs.drop_last(), i);
        let before = targets(rules, known, force, procs.drop_last());
        let k = choose|k: int|
            0 <= k < before.len() && before[k] == (
                procs[i].0,
                due(
                    rules,
                    known_after_all(rules, known, procs.take(i)),
                    force,
                    procs[i].0,
                    rule_for(rules, procs[i].1@),
                )->0,
            );
        assert(all[k] == before[k]);
    }
}

/// After a change of scene every known process that there still is is treated again;
/// without one, those with a pinned rule are.
pub proof fn law_scene_change_treats_every_known_process(
    rules: Seq<ProcessRule>,
    known: Map<u32, usize>,
    force: bool,
    procs: Seq<(u32, String)>,
    i: int,
)
    requires
        0 <= i < procs.len(),
        known.contains_key(procs[i].0),
        force || pinned(rules, known[procs[i].0]),
    ensures
        targets(rules, retained(known, pids_of(procs)), force, procs).contains(
            (procs[i].0, known[procs[i].0]),
        ),
{
    assert(pids_of(procs)[i] == procs[i].0);
    lemma_known_grows(rules, retained(known, pids_of(procs)), procs.take(i), procs[i].0);
    lemma_target_of(rules, retained(known, pids_of(procs)), force, procs, i);
}

/// A process seen for the first time is treated at once, by the rule of its command
/// line.
pub proof fn law_new_process_is_treated(
    rules: Seq<ProcessRule>,
    known: Map<u32, usize>,
    force: bool,
    procs: Seq<(u32, String)>,
    i: int,
)
    requires
        0 <= i < procs.len(),
        !known.contains_key(procs[i].0),
        !pids_of(procs.take(i)).contains(procs[i].0),
        rule_for(rules, procs[i].1@) is Some,
    ensures
        targets(rules, retained(known, pids_of(procs)), force, procs).contains(
            (procs[i].0, rule_for(rules, procs[i].1@)->0),
        ),
{
    lemma_known_grows(rules, retained(known, pids_of(procs)), procs.take(i), procs[i].0);
    lemma_target_of(rules, retained(known, pids_of(procs)), force, procs, i);
}

/// The rule by which process `i` is to be treated, by what is known before the scan.
pub open spec fn due_at(
    rules: Seq<ProcessRule>,
    known: Map<u32, usize>,
    force: bool,
    procs: Seq<(u32, String)>,
    i: int,
) -> Option<usize> {
    due(rules, known, force, procs[i].0, rule_for(rules, procs[i].1@))
}

/// Where no process is listed twice, exactly those that are due are treated, and each of
/// them once.
pub proof fn law_due_processes_are_treated_once(
    rules: Seq<ProcessRule>,
    known: Map<u32, usize>,
    force: bool,
    procs: Seq<(u32, String)>,
)
    requires
        pids_of(procs).no_duplicates(),
    ensures
        ({
            let all = targets(rules, known, force, procs);
            &&& forall|pid: u32, rule: usize| #[trigger]
                all.contains((pid, rule)) <==> exists|i: int|
                    0 <= i < procs.len() && procs[i].0 == pid && #[trigger] due_at(
                        rules,
                        known,
                        force,
                        procs,
                        i,
                    ) == Some(rule)
            &&& forall|i: int, j: int|
                0 <= i < j < all.len() ==> (#[trigger] all[i]).0 != (#[trigger] all[j]).0
        }),
    decreases procs.len(),
{
    let all = targets(rules, known, force, procs);
    if procs.len() > 0 {
        let rest = procs.drop_last();
        let n = procs.len() - 1;
        let before = targets(rules, known, force, rest);
        let (pid, cmdline) = procs.last();
        assert(pids_of(rest) == pids_of(procs).drop_last());
        law_due_processes_are_treated_once(rules, known, force, rest);
        assert(!pids_of(rest).contains(pid)) by {
            assert(pids_of(procs)[n] == pid);
            if pids_of(rest).contains(pid) {
                let i = choose|i: int| 0 <= i < rest.len() && pids_of(rest)[i] == pid;
                assert(pids_of(procs)[i] == pid);
            }
        }
        lemma_known_grows(rules, known, rest, pid);
        assert(procs[n] == procs.last());
        let last = due_at(rules, known, force, procs, n);
        assert(all == match last {
            Some(rule) => before.push((pid, rule)),
            None => before,
        });
        assert forall|i: int| 0 <= i < rest.len() implies #[trigger] due_at(
            rules,
            known,
            force,
            rest,
            i,
        ) == due_at(rules, known, force, procs, i) by {
            assert(rest[i] == procs[i]);
        }
        assert forall|p: u32, rule: usize| #[trigger] all.contains((p, rule)) <==> exists|i: int|
            0 <= i < procs.len() && procs[i].0 == p && #[trigger] due_at(
                rules,
                known,
                force,
                procs,
                i,
            ) == Some(rule) by {
            if all.contains((p, rule)) {
                let k = choose|k: int| 0 <= k < all.len() && all[k] == (p, rule);
                if k < before.len() {
                    assert(before[k] == (p, rule));
                    assert(before.contains((p, rule)));
                    let i = choose|i: int|
                        0 <= i < rest.len() && rest[i].0 == p && #[trigger] due_at(
                            rules,
                            known,
                            force,
                            rest,
                            i,
                        ) == Some(rule);
                    assert(procs[i].0 == p && due_at(rules, known, force, procs, i) == Some(rule));
                } else {
                    assert(procs[n].0 == p && due_at(rules, known, force, procs, n) == Some(rule));
                }
            }
            if exists|i: int|
                0 <= i < procs.len() && procs[i].0 == p && #[trigger] due_at(
                    rules,
                    known,
                    force,
                    procs,
                    i,
                ) == Some(rule) {
                let i = choose|i: int|
                    0 <= i < procs.len() && procs[i].0 == p && #[trigger] due_at(
                        rules,
                        known,
                        force,
                        procs,
                        i,
                    ) == Some(rule);
                if i < n {
                    assert(rest[i].0 == p && due_at(rules, known, force, rest, i) == Some(rule));
                    assert(before.contains((p, rule)));
                    let k = choose|k: int| 0 <= k < before.len() && before[k] == (p, rule);
                    assert(all[k] == (p, rule));
                } else {
                    assert(all[before.len() as int] == (p, rule));
                }
            }
        }
        assert forall|i: int, j: int| 0 <= i < j < all.len() implies (#[trigger] all[i]).0 != (
        #[trigger] all[j]).0 by {
            if j == before.len() {
                assert(before.contains((before[i].0, before[i].1)));
                let k = choose|k: int|
                    0 <= k < rest.len() && rest[k].0 == before[i].0 && #[trigger] due_at(
                        rules,
                        known,
                        force,
                        rest,
                        k,
                    ) == Some(before[i].1);
                assert(pids_of(rest)[k] == rest[k].0);
            }
        }
    }
}

/// Where no thread is listed twice, exactly those that a rule matches get something, and
/// each of them once.
pub proof fn law_matched_threads_are_treated_once(
    cfg: SchedModule,
    scene: SchedScene,
    rule: usize,
    pid: u32,
    threads: Seq<(u32, String)>,
)
    requires
        pids_of(threads).no_duplicates(),
    ensures
        ({
            let all = actions_for(cfg, scene, rule, pid, threads);
            &&& forall|tid: u32, a: ActionView| #[trigger]
                all.contains((tid, a)) <==> exists|j: int|
                    0 <= j < threads.len() && (#[trigger] threads[j]).0 == tid && action_for(
                        cfg,
                        scene,
                        rule,
                        threads[j].1@,
                        tid == pid,
                    ) == Some(a)
            &&& forall|i: int, j: int|
                0 <= i < j < all.len() ==> (#[trigger] all[i]).0 != (#[trigger] all[j]).0
        }),
    decreases threads.len(),
{
    let all = actions_for(cfg, scene, rule, pid, threads);
    if threads.len() > 0 {
        let rest = threads.drop_last();
        let n = threads.len() - 1;
        let before = actions_for(cfg, scene, rule, pid, rest);
        assert(pids_of(rest) == pids_of(threads).drop_last());
        law_matched_threads_are_treated_once(cfg, scene, rule, pid, rest);
        assert(threads[n] == threads.last());
        let last = action_for(cfg, scene, rule, threads[n].1@, threads[n].0 == pid);
        assert(all == match last {
            Some(a) => before.push((threads[n].0, a)),
            None => before,
        });
        assert forall|tid: u32, a: ActionView| #[trigger] all.contains((tid, a)) <==> exists|j: int|
            0 <= j < threads.len() && (#[trigger] threads[j]).0 == tid && action_for(
                cfg,
                scene,
                rule,
                threads[j].1@,
                tid == pid,
            ) == Some(a) by {
            if all.contains((tid, a)) {
                let k = choose|k: int| 0 <= k < all.len() && all[k] == (tid, a);
                if k < before.len() {
                    assert(before[k] == (tid, a));
                    assert(before.contains((tid, a)));
                    let j = choose|j: int|
                        0 <= j < rest.len() && (#[trigger] rest[j]).0 == tid && action_for(
                            cfg,
                            scene,
                            rule,
                            rest[j].1@,
                            tid == pid,
                        ) == Some(a);
                    assert(threads[j] == rest[j]);
                } else {
                    assert(threads[n].0 == tid);
                }
            }
            if exists|j: int|
                0 <= j < threads.len() && (#[trigger] threads[j]).0 == tid && action_for(
                    cfg,
                    scene,
                    rule,
                    threads[j].1@,
                    tid == pid,
                ) == Some(a) {
                let j = choose|j: int|
                    0 <= j < threads.len() && (#[trigger] threads[j]).0 == tid && action_for(
                        cfg,
                        scene,
                        rule,
                        threads[j].1@,
                        tid == pid,
                    ) == Some(a);
                if j < n {
                    assert(rest[j] == threads[j]);
                    assert(before.contains((tid, a)));
                    let k = choose|k: int| 0 <= k < before.len() && before[k] == (tid, a);
                    assert(all[k] == (tid, a));
                } else {
                    assert(all[before.len() as int] == (tid, a));
                }
            }
        }
        assert forall|i: int, j: int| 0 <= i < j < all.len() implies (#[trigger] all[i]).0 != (
        #[trigger] all[j]).0 by {
            if j == before.len() {
                assert(before.contains((before[i].0, before[i].1)));
                let k = choose|k: int|
                    0 <= k < rest.len() && (#[trigger] rest[k]).0 == before[i].0 && action_for(
                        cfg,
                        scene,
                        rule,
                        rest[k].1@,
                        before[i].0 == pid,
                    ) == Some(before[i].1);
                assert(pids_of(threads)[k] == before[i].0);
                assert(pids_of(threads)[n] == all[j].0);
            }
        }
    }
}

/// What the threads of some processes get, process by process, where `tasks` lists the
/// threads of each.
pub open spec fn treatments(
    cfg: SchedModule,
    scene: SchedScene,
    due: Seq<(u32, usize)>,
    tasks: spec_fn(u32) -> Seq<(u32, String)>,
) -> Seq<(u32, ActionView)>
    decreases due.len(),
{
    if due.len() == 0 {
        Seq::empty()
    } else {
        let (pid, rule) = due.last();
        treatments(cfg, scene, due.drop_last(), tasks) + actions_for(
            cfg,
            scene,
            rule,
            pid,
            tasks(pid),
        )
    }
}

/// Whether no thread is listed twice, neither under one process nor under two.
pub open spec fn one_owner(tasks: spec_fn(u32) -> Seq<(u32, String)>) -> bool {
    forall|p: u32, q: u32, i: int, j: int|
        #![trigger tasks(p)[i], tasks(q)[j]]
        0 <= i < tasks(p).len() && 0 <= j < tasks(q).len() && tasks(p)[i].0 == tasks(q)[j].0 ==> p
            == q && i == j
}

/// What thread `j` of a process gets by a rule.
pub open spec fn action_at(
    cfg: SchedModule,
    scene: SchedScene,
    rule: usize,
    pid: u32,
    tasks: spec_fn(u32) -> Seq<(u32, String)>,
    j: int,
) -> Option<ActionView> {
    action_for(cfg, scene, rule, tasks(pid)[j].1@, tasks(pid)[j].0 == pid)
}

/// Where no process and no thread is listed twice, exactly the matched threads of the
/// processes that are due get something, and each of them once.
#[verifier::rlimit(60)]
pub proof fn law_threads_of_due_processes_are_treated_once(
    cfg: SchedModule,
    scene: SchedScene,
    due: Seq<(u32, usize)>,
    tasks: spec_fn(u32) -> Seq<(u32, String)>,
)
    requires
        forall|i: int, j: int|
            0 <= i < j < due.len() ==> (#[trigger] due[i]).0 != (#[trigger] due[j]).0,
        one_owner(tasks),
    ensures
        ({
            let all = treatments(cfg, scene, due, tasks);
            &&& forall|tid: u32, a: ActionView| #[trigger]
                all.contains((tid, a)) <==> exists|k: int, j: int|
                    0 <= k < due.len() && 0 <= j < tasks(due[k].0).len() && tasks(due[k].0)[j].0
                        == tid && #[trigger] action_at(cfg, scene, due[k].1, due[k].0, tasks, j)
                        == Some(a)
            &&& forall|i: int, j: int|
                0 <= i < j < all.len() ==> (#[trigger] all[i]).0 != (#[trigger] all[j]).0
        }),
    decreases due.len(),
{
    let all = treatments(cfg, scene, due, tasks);
    if due.len() > 0 {
        let rest = due.drop_last();
        let n = due.len() - 1;
        let before = treatments(cfg, scene, rest, tasks);
        let (pid, rule) = due.last();
        let own = actions_for(cfg, scene, rule, pid, tasks(pid));
        assert(due[n] == (pid, rule));
        assert forall|i: int, j: int| 0 <= i < j < rest.len() implies (#[trigger] rest[i]).0 != (
        #[trigger] rest[j]).0 by {
            assert(rest[i] == due[i] && rest[j] == due[j]);
        }
        law_threads_of_due_processes_are_treated_once(cfg, scene, rest, tasks);
        assert(pids_of(tasks(pid)).no_duplicates()) by {
            let s = pids_of(tasks(pid));
            assert forall|i: int, j: int| 0 <= i < s.len() && 0 <= j < s.len() && i != j implies s[i]
                != s[j] by {
                assert(s[i] == tasks(pid)[i].0 && s[j] == tasks(pid)[j].0);
            }
        }
        law_matched_threads_are_treated_once(cfg, scene, rule, pid, tasks(pid));
        assert(all == before + own);
        assert forall|tid: u32, a: ActionView| #[trigger] all.contains((tid, a)) <==> exists|
            k: int,
            j: int,
        |
            0 <= k < due.len() && 0 <= j < tasks(due[k].0).len() && tasks(due[k].0)[j].0 == tid
                && #[trigger] action_at(cfg, scene, due[k].1, due[k].0, tasks, j) == Some(a) by {
            if all.contains((tid, a)) {
                let m = choose|m: int| 0 <= m < all.len() && all[m] == (tid, a);
                if m < before.len() {
                    assert(before[m] == (tid, a));
                    assert(before.contains((tid, a)));
                    let (k, j) = choose|k: int, j: int|
                        0 <= k < rest.len() && 0 <= j < tasks(rest[k].0).len()
                            && tasks(rest[k].0)[j].0 == tid && #[trigger] action_at(
                            cfg,
                            scene,
                            rest[k].1,
                            rest[k].0,
                            tasks,
                            j,
                        ) == Some(a);
                    assert(rest[k] == due[k]);
                    assert(action_at(cfg, scene, due[k].1, due[k].0, tasks, j) == Some(a));
                } else {
                    assert(own[m - before.len()] == (tid, a));
                    assert(own.contains((tid, a)));
                    let j = choose|j: int|
                        0 <= j < tasks(pid).len() && (#[trigger] tasks(pid)[j]).0 == tid
                            && action_for(cfg, scene, rule, tasks(pid)[j].1@, tid == pid) == Some(a);
                    assert(action_at(cfg, scene, due[n].1, due[n].0, tasks, j) == Some(a));
                }
            }
            if exists|k: int, j: int|
                0 <= k < due.len() && 0 <= j < tasks(due[k].0).len() && tasks(due[k].0)[j].0 == tid
                    && #[trigger] action_at(cfg, scene, due[k].1, due[k].0, tasks, j) == Some(a) {
                let (k, j) = choose|k: int, j: int|
                    0 <= k < due.len() && 0 <= j < tasks(due[k].0).len() && tasks(due[k].0)[j].0
                        == tid && #[trigger] action_at(cfg, scene, due[k].1, due[k].0, tasks, j)
                        == Some(a);
                if k < n {
                    assert(rest[k] == due[k]);
                    assert(action_at(cfg, scene, rest[k].1, rest[k].0, tasks, j) == Some(a));
                    assert(before.contains((tid, a)));
                    let m = choose|m: int| 0 <= m < before.len() && before[m] == (tid, a);
                    assert(all[m] == (tid, a));
                } else {
                    assert(tasks(pid)[j].0 == tid);
                    assert(own.contains((tid, a)));
                    let m = choose|m: int| 0 <= m < own.len() && own[m] == (tid, a);
                    assert(all[before.len() + m] == (tid, a));
                }
            }
        }
        assert forall|x: int, y: int| 0 <= x < y < all.len() implies (#[trigger] all[x]).0 != (
        #[trigger] all[y]).0 by {
            if y < before.len() {
                assert(all[x] == before[x] && all[y] == before[y]);
            } else if x >= before.len() {
                assert(all[x] == own[x - before.len()] && all[y] == own[y - before.len()]);
            } else {
                let (t, a) = before[x];
                let (u, b) = own[y - before.len()];
                assert(before.contains((t, a)));
                assert(own.contains((u, b)));
                let (k, i) = choose|k: int, j: int|
                    0 <= k < rest.len() && 0 <= j < tasks(rest[k].0).len() && tasks(rest[k].0)[j].0
                        == t && #[trigger] action_at(cfg, scene, rest[k].1, rest[k].0, tasks, j)
                        == Some(a);
                let j = choose|j: int|
                    0 <= j < tasks(pid).len() && (#[trigger] tasks(pid)[j]).0 == u && action_for(
                        cfg,
                        scene,
                        rule,
                        tasks(pid)[j].1@,
                        u == pid,
                    ) == Some(b);
                assert(rest[k] == due[k]);
                assert(due[k].0 != due[n].0);
                assert(tasks(rest[k].0)[i].0 == t);
            }
        }
    }
}

/// The rule of a process: the one it is known by, or else that of its command line.
pub open spec fn rule_now(
    rules: Seq<ProcessRule>,
    known: Map<u32, usize>,
    proc: (u32, String),
) -> Option<usize> {
    if known.contains_key(proc.0) {
        Some(known[proc.0])
    } else {
        rule_for(rules, proc.1@)
    }
}

/// After a change of scene each matched thread of each process with a rule, pinned or not
/// and seen before or not, gets what the scene has for it, exactly once; and no other
/// thread gets anything.
pub proof fn law_scene_change_treats_each_thread_once(
    cfg: SchedModule,
    scene: SchedScene,
    known: Map<u32, usize>,
    procs: Seq<(u32, String)>,
    tasks: spec_fn(u32) -> Seq<(u32, String)>,
)
    requires
        pids_of(procs).no_duplicates(),
        one_owner(tasks),
    ensures
        ({
            let all = treatments(
                cfg,
                scene,
                targets(cfg.rules@, retained(known, pids_of(procs)), true, procs),
                tasks,
            );
            &&& forall|tid: u32, a: ActionView| #[trigger]
                all.contains((tid, a)) <==> exists|i: int, rule: usize, j: int|
                    0 <= i < procs.len() && rule_now(cfg.rules@, known, procs[i]) == Some(rule) && 0
                        <= j < tasks(procs[i].0).len() && tasks(procs[i].0)[j].0 == tid
                        && #[trigger] action_at(cfg, scene, rule, procs[i].0, tasks, j) == Some(a)
            &&& forall|i: int, j: int|
                0 <= i < j < all.len() ==> (#[trigger] all[i]).0 != (#[trigger] all[j]).0
        }),
{
    let rules = cfg.rules@;
    let kept = retained(known, pids_of(procs));
    let due = targets(rules, kept, true, procs);
    let all = treatments(cfg, scene, due, tasks);
    law_due_processes_are_treated_once(rules, kept, true, procs);
    law_threads_of_due_processes_are_treated_once(cfg, scene, due, tasks);
    assert forall|i: int| 0 <= i < procs.len() implies #[trigger] due_at(
        rules,
        kept,
        true,
        procs,
        i,
    ) == rule_now(rules, known, procs[i]) by {
        assert(pids_of(procs)[i] == procs[i].0);
    }
    assert forall|tid: u32, a: ActionView| #[trigger] all.contains((tid, a)) <==> exists|
        i: int,
        rule: usize,
        j: int,
    |
        0 <= i < procs.len() && rule_now(cfg.rules@, known, procs[i]) == Some(rule) && 0 <= j < tasks(
            procs[i].0,
        ).len() && tasks(procs[i].0)[j].0 == tid && #[trigger] action_at(
            cfg,
            scene,
            rule,
            procs[i].0,
            tasks,
            j,
        ) == Some(a) by {
        if all.contains((tid, a)) {
            let (k, j) = choose|k: int, j: int|
                0 <= k < due.len() && 0 <= j < tasks(due[k].0).len() && tasks(due[k].0)[j].0 == tid
                    && #[trigger] action_at(cfg, scene, due[k].1, due[k].0, tasks, j) == Some(a);
            assert(due.contains((due[k].0, due[k].1)));
            let i = choose|i: int|
                0 <= i < procs.len() && procs[i].0 == due[k].0 && #[trigger] due_at(
                    rules,
                    kept,
                    true,
                    procs,
                    i,
                ) == Some(due[k].1);
            assert(action_at(cfg, scene, due[k].1, procs[i].0, tasks, j) == Some(a));
        }
        if exists|i: int, rule: usize, j: int|
            0 <= i < procs.len() && rule_now(cfg.rules@, known, procs[i]) == Some(rule) && 0 <= j
                < tasks(procs[i].0).len() && tasks(procs[i].0)[j].0 == tid && #[trigger] action_at(
                cfg,
                scene,
                rule,
                procs[i].0,
                tasks,
                j,
            ) == Some(a) {
            let (i, rule, j) = choose|i: int, rule: usize, j: int|
                0 <= i < procs.len() && rule_now(cfg.rules@, known, procs[i]) == Some(rule) && 0 <= j
                    < tasks(procs[i].0).len() && tasks(procs[i].0)[j].0 == tid
                    && #[trigger] action_at(cfg, scene, rule, procs[i].0, tasks, j) == Some(a);
            assert(due_at(rules, kept, true, procs, i) == Some(rule));
            assert(due.contains((procs[i].0, rule)));
            let k = choose|k: int| 0 <= k < due.len() && due[k] == (procs[i].0, rule);
            assert(action_at(cfg, scene, due[k].1, due[k].0, tasks, j) == Some(a));
        }
    }
}

/// Whether every process listed is known or matched by no rule, so that none is new.
pub open spec fn none_new(
    rules: Seq<ProcessRule>,
    known: Map<u32, usize>,
    procs: Seq<(u32, String)>,
) -> bool {
    forall|i: int|
        0 <= i < procs.len() ==> known.contains_key((#[trigger] procs[i]).0) || rule_for(
            rules,
            procs[i].1@,
        ) is None
}

/// After a scan none of the processes that it saw is new.
pub proof fn law_scanned_processes_are_not_new(
    rules: Seq<ProcessRule>,
    known: Map<u32, usize>,
    procs: Seq<(u32, String)>,
)
    ensures
        none_new(rules, known_after_all(rules, known, procs), procs),
    decreases procs.len(),
{
    if procs.len() > 0 {
        let rest = procs.drop_last();
        let before = known_after_all(rules, known, rest);
        let after = known_after_all(rules, known, procs);
        law_scanned_processes_are_not_new(rules, known, rest);
        assert forall|i: int| 0 <= i < procs.len() implies after.contains_key((#[trigger] procs[i]).0)
            || rule_for(rules, procs[i].1@) is None by {
            if i < rest.len() {
                assert(rest[i] == procs[i]);
            }
        }
    }
}

/// While the scene stays and no process is new, exactly the processes whose rules are
/// pinned are treated again, and what is known does not change.
pub proof fn law_steady_scan_treats_the_pinned(
    rules: Seq<ProcessRule>,
    known: Map<u32, usize>,
    procs: Seq<(u32, String)>,
)
    requires
        none_new(rules, known, procs),
    ensures
        forall|pid: u32, rule: usize| #[trigger]
            targets(rules, known, false, procs).contains((pid, rule)) <==> pids_of(procs).contains(pid)
                && known.contains_key(pid) && known[pid] == rule && pinned(rules, rule),
        known_after_all(rules, known, procs) == known,
    decreases procs.len(),
{
    let all = targets(rules, known, false, procs);
    if procs.len() > 0 {
        let rest = procs.drop_last();
        let n = procs.len() - 1;
        let before = targets(rules, known, false, rest);
        let last = procs[n].0;
        assert forall|i: int| 0 <= i < rest.len() implies known.contains_key((#[trigger] rest[i]).0)
            || rule_for(rules, rest[i].1@) is None by {
            assert(rest[i] == procs[i]);
        }
        law_steady_scan_treats_the_pinned(rules, known, rest);
        assert(procs[n] == procs.last());
        assert(all == if known.contains_key(last) && pinned(rules, known[last]) {
            before.push((last, known[last]))
        } else {
            before
        });
        assert(pids_of(procs) == pids_of(rest).push(last));
        assert forall|pid: u32, rule: usize| #[trigger] all.contains((pid, rule)) <==> pids_of(
            procs,
        ).contains(pid) && known.contains_key(pid) && known[pid] == rule && pinned(rules, rule) by {
            if all.contains((pid, rule)) {
                let k = choose|k: int| 0 <= k < all.len() && all[k] == (pid, rule);
                if k < before.len() {
                    assert(before[k] == (pid, rule));
                    assert(before.contains((pid, rule)));
                    let i = choose|i: int| 0 <= i < rest.len() && pids_of(rest)[i] == pid;
                    assert(pids_of(procs)[i] == pid);
                } else {
                    assert(pids_of(procs)[n] == pid);
                }
            }
            if pids_of(procs).contains(pid) && known.contains_key(pid) && known[pid] == rule
                && pinned(rules, rule) {
                let i = choose|i: int| 0 <= i < procs.len() && pids_of(procs)[i] == pid;
                if i < n {
                    assert(pids_of(rest)[i] == pid);
                    assert(before.contains((pid, rule)));
                    let k = choose|k: int| 0 <= k < before.len() && before[k] == (pid, rule);
                    assert(all[k] == (pid, rule));
                } else {
                    assert(all[before.len() as int] == (pid, rule));
                }
            }
        }
    }
}

/// A second scan of the same processes, with the scene unchanged, treats each matched
/// thread of the processes whose rules are pinned, exactly once, and no other thread.
pub proof fn law_steady_scan_treats_pinned_threads_once(
    cfg: SchedModule,
    scene: SchedScene,
    known: Map<u32, usize>,
    procs: Seq<(u32, String)>,
    tasks: spec_fn(u32) -> Seq<(u32, String)>,
)
    requires
        pids_of(procs).no_duplicates(),
        one_owner(tasks),
    ensures
        ({
            let first = known_after_all(cfg.rules@, retained(known, pids_of(procs)), procs);
            let all = treatments(
                cfg,
                scene,
                targets(cfg.rules@, retained(first, pids_of(procs)), false, procs),
                tasks,
            );
            &&& forall|tid: u32, a: ActionView| #[trigger]
                all.contains((tid, a)) <==> exists|i: int, j: int|
                    0 <= i < procs.len() && first.contains_key(procs[i].0) && pinned(
                        cfg.rules@,
                        first[procs[i].0],
                    ) && 0 <= j < tasks(procs[i].0).len() && tasks(procs[i].0)[j].0 == tid
                        && #[trigger] action_at(
                        cfg,
                        scene,
                        first[procs[i].0],
                        procs[i].0,
                        tasks,
                        j,
                    ) == Some(a)
            &&& forall|i: int, j: int|
                0 <= i < j < all.len() ==> (#[trigger] all[i]).0 != (#[trigger] all[j]).0
        }),
{
    let rules = cfg.rules@;
    let pids = pids_of(procs);
    let first = known_after_all(rules, retained(known, pids), procs);
    let kept = retained(first, pids);
    let due = targets(rules, kept, false, procs);
    let all = treatments(cfg, scene, due, tasks);
    law_scanned_processes_are_not_new(rules, retained(known, pids), procs);
    assert forall|i: int| 0 <= i < procs.len() implies kept.contains_key((#[trigger] procs[i]).0)
        || rule_for(rules, procs[i].1@) is None by {
        assert(pids[i] == procs[i].0);
    }
    law_steady_scan_treats_the_pinned(rules, kept, procs);
    law_due_processes_are_treated_once(rules, kept, false, procs);
    law_threads_of_due_processes_are_treated_once(cfg, scene, due, tasks);
    assert forall|tid: u32, a: ActionView| #[trigger] all.contains((tid, a)) <==> exists|
        i: int,
        j: int,
    |
        0 <= i < procs.len() && first.contains_key(procs[i].0) && pinned(
            rules,
            first[procs[i].0],
        ) && 0 <= j < tasks(procs[i].0).len() && tasks(procs[i].0)[j].0 == tid
            && #[trigger] action_at(cfg, scene, first[procs[i].0], procs[i].0, tasks, j) == Some(
            a,
        ) by {
        if all.contains((tid, a)) {
            let (k, j) = choose|k: int, j: int|
                0 <= k < due.len() && 0 <= j < tasks(due[k].0).len() && tasks(due[k].0)[j].0 == tid
                    && #[trigger] action_at(cfg, scene, due[k].1, due[k].0, tasks, j) == Some(a);
            assert(due.contains((due[k].0, due[k].1)));
            let i = choose|i: int| 0 <= i < procs.len() && pids[i] == due[k].0;
            assert(procs[i].0 == due[k].0);
            assert(action_at(cfg, scene, first[procs[i].0], procs[i].0, tasks, j) == Some(a));
        }
        if exists|i: int, j: int|
            0 <= i < procs.len() && first.contains_key(procs[i].0) && pinned(
                rules,
                first[procs[i].0],
            ) && 0 <= j < tasks(procs[i].0).len() && tasks(procs[i].0)[j].0 == tid
                && #[trigger] action_at(cfg, scene, first[procs[i].0], procs[i].0, tasks, j) == Some(
                a,
            ) {
            let (i, j) = choose|i: int, j: int|
                0 <= i < procs.len() && first.contains_key(procs[i].0) && pinned(
                    rules,
                    first[procs[i].0],
                ) && 0 <= j < tasks(procs[i].0).len() && tasks(procs[i].0)[j].0 == tid
                    && #[trigger] action_at(cfg, scene, first[procs[i].0], procs[i].0, tasks, j)
                    == Some(a);
            assert(pids[i] == procs[i].0);
            assert(due.contains((procs[i].0, first[procs[i].0])));
            let k = choose|k: int| 0 <= k < due.len() && due[k] == (procs[i].0, first[procs[i].0]);
            assert(action_at(cfg, scene, due[k].1, due[k].0, tasks, j) == Some(a));
        }
    }
}

/// The processors of the mask of a name; none where the name is empty or there is no such
/// mask.
pub open spec fn mask_named(cfg: SchedModule, name: Seq<char>) -> Seq<u32> {
    if name.len() > 0 && strmap::has_key(cfg.cpumask.pairs(), name) {
        strmap::value_of(cfg.cpumask.pairs(), name)@
    } else {
        Seq::empty()
    }
}

/// In each scene a matched thread gets the processors of the mask that its affinity class
/// names for that very scene.
pub proof fn law_affinity_follows_the_scene(cfg: SchedModule, rule: ThreadRule)
    requires
        rule.ac@.len() > 0,
        rule.ac@ != "auto"@,
        strmap::has_key(cfg.affinity.pairs(), rule.ac@),
    ensures
        action_of(cfg, SchedScene::Bg, rule).cpus == mask_named(cfg, strmap::value_of(
            cfg.affinity.pairs(),
            rule.ac@,
        ).bg@),
        action_of(cfg, SchedScene::Fg, rule).cpus == mask_named(cfg, strmap::value_of(
            cfg.affinity.pairs(),
            rule.ac@,
        ).fg@),
        action_of(cfg, SchedScene::Idle, rule).cpus == mask_named(cfg, strmap::value_of(
            cfg.affinity.pairs(),
            rule.ac@,
        ).idle@),
        action_of(cfg, SchedScene::Touch, rule).cpus == mask_named(cfg, strmap::value_of(
            cfg.affinity.pairs(),
            rule.ac@,
        ).touch@),
        action_of(cfg, SchedScene::Boost, rule).cpus == mask_named(cfg, strmap::value_of(
            cfg.affinity.pairs(),
            rule.ac@,
        ).boost@),
{
}

/// In each scene a matched thread gets the priority that its priority class encodes for
/// that very scene.
pub proof fn law_priority_follows_the_scene(cfg: SchedModule, rule: ThreadRule)
    requires
        rule.pc@.len() > 0,
        rule.pc@ != "auto"@,
        strmap::has_key(cfg.prio.pairs(), rule.pc@),
    ensures
        action_of(cfg, SchedScene::Bg, rule).priority == Priority::encoded(
            strmap::value_of(cfg.prio.pairs(), rule.pc@).bg as int,
        ),
        action_of(cfg, SchedScene::Fg, rule).priority == Priority::encoded(
            strmap::value_of(cfg.prio.pairs(), rule.pc@).fg as int,
        ),
        action_of(cfg, SchedScene::Idle, rule).priority == Priority::encoded(
            strmap::value_of(cfg.prio.pairs(), rule.pc@).idle as int,
        ),
        action_of(cfg, SchedScene::Touch, rule).priority == Priority::encoded(
            strmap::value_of(cfg.prio.pairs(), rule.pc@).touch as int,
        ),
        action_of(cfg, SchedScene::Boost, rule).priority == Priority::encoded(
            strmap::value_of(cfg.prio.pairs(), rule.pc@).boost as int,
        ),
{
}

/// What a class says of one scene makes no difference in another: two classes that agree on
/// a scene are alike in it.
pub proof fn law_scenes_are_independent(
    a: SceneAffinity,
    b: SceneAffinity,
    p: ScenePrio,
    q: ScenePrio,
)
    ensures
        a.bg@ == b.bg@ ==> mask_in(a, SchedScene::Bg) == mask_in(b, SchedScene::Bg),
        a.fg@ == b.fg@ ==> mask_in(a, SchedScene::Fg) == mask_in(b, SchedScene::Fg),
        a.idle@ == b.idle@ ==> mask_in(a, SchedScene::Idle) == mask_in(b, SchedScene::Idle),
        a.touch@ == b.touch@ ==> mask_in(a, SchedScene::Touch) == mask_in(b, SchedScene::Touch),
        a.boost@ == b.boost@ ==> mask_in(a, SchedScene::Boost) == mask_in(b, SchedScene::Boost),
        p.bg == q.bg ==> prio_in(p, SchedScene::Bg) == prio_in(q, SchedScene::Bg),
        p.fg == q.fg ==> prio_in(p, SchedScene::Fg) == prio_in(q, SchedScene::Fg),
        p.idle == q.idle ==> prio_in(p, SchedScene::Idle) == prio_in(q, SchedScene::Idle),
        p.touch == q.touch ==> prio_in(p, SchedScene::Touch) == prio_in(q, SchedScene::Touch),
        p.boost == q.boost ==> prio_in(p, SchedScene::Boost) == prio_in(q, SchedScene::Boost),
{
}

/// Numbers that lie outside the kernel's ranges are brought to their ends: nice values to
/// -20 and 19, real-time priorities to 1.
pub proof fn law_numbers_out_of_range(v: int)
    ensures
        v < -20 ==> Priority::encoded(v) == Priority::encoded(-20),
        1 <= v <= 19 ==> Priority::encoded(v) == Priority::Nice(v as i32),
        19 <= v < 97 ==> Priority::encoded(v) == Priority::Nice(19),
        v >= 139 ==> Priority::encoded(v) == Priority::Rt(1),
{
}

/// The calls carry out the action, for the thread and nothing but it: first its processors,
/// where there are any, then its priority, where it changes.
pub proof fn law_calls_carry_out_the_action(tid: u32, action: ActionView)
    ensures
        ({
            let calls = calls_of(tid, action);
            let first = if action.cpus.len() > 0 {
                1int
            } else {
                0int
            };
            &&& first == 1 ==> calls[0] == CallView::Affinity(tid, action.cpus)
            &&& calls.len() == if action.priority == Priority::Unchanged {
                first
            } else {
                first + 1
            }
            &&& action.priority matches Priority::Nice(n) ==> calls[first] == CallView::Nice(tid, n)
            &&& action.priority matches Priority::Rt(n) ==> calls[first] == CallView::Fifo(tid, n)
        }),
{
}

/// A thread that cannot have a real-time priority gets a nice value of -10 instead; for
/// other calls there is nothing instead.
pub proof fn law_instead_of_real_time(tid: u32, priority: u32, cpus: Seq<u32>, nice: i32)
    ensures
        call_instead(CallView::Fifo(tid, priority)) matches Some(CallView::Nice(t, n)) && t == tid && n
            == -10,
        call_instead(CallView::Affinity(tid, cpus)) is None,
        call_instead(CallView::Nice(tid, nice)) is None,
{
}

/// A pattern that does not compile matches nothing, and any other key than that of the main
/// thread matches by the name alone, main thread or not.
pub proof fn law_patterns_match_names(key: Seq<char>, name: Seq<char>, is_main: bool)
    ensures
        !outside::regex_valid(key) ==> !pattern_hits(key, name),
        outside::regex_valid(key) ==> pattern_hits(key, name) == outside::regex_matches(key, name),
        key != "/MAIN_THREAD/"@ ==> thread_hit(key, name, is_main) == pattern_hits(key, name),
{
}

/// A thread that no rule of its process matches is left alone, and so are the threads of a
/// process without such a rule.
pub proof fn law_unmatched_threads_are_left_alone(
    cfg: SchedModule,
    scene: SchedScene,
    rule: usize,
    name: Seq<char>,
    is_main: bool,
)
    requires
        rule < cfg.rules@.len() ==> cfg.rules@[rule as int].rules@.len() <= usize::MAX && forall|k: int|
            0 <= k < cfg.rules@[rule as int].rules@.len() ==> !thread_hit(
                (#[trigger] cfg.rules@[rule as int].rules@[k]).k@,
                name,
                is_main,
            ),
    ensures
        action_for(cfg, scene, rule, name, is_main) is None,
{
    if rule < cfg.rules@.len() {
        let rules = cfg.rules@[rule as int].rules@;
        let hits = thread_hits(rules, name, is_main);
        lemma_first_true(hits);
        if let Some(i) = first_true(hits) {
            assert(!thread_hit(rules[i as int].k@, name, is_main));
        }
    }
}

/// A process is treated on every scan exactly where its own rule says so.
pub proof fn law_pinning_is_by_rule(rules: Seq<ProcessRule>, rule: usize, pid: u32, known: Map<u32, usize>)
    requires
        rule < rules.len(),
        known.contains_key(pid),
        known[pid] == rule,
    ensures
        due(rules, known, false, pid, None) == if rules[rule as int].pinned {
            Some(rule)
        } else {
            None
        },
        due(rules, known, true, pid, None) == Some(rule),
{
}

/// The threads of a process are treated one by one, in order.
pub proof fn law_threads_keep_the_order(
    cfg: SchedModule,
    scene: SchedScene,
    rule: usize,
    pid: u32,
    a: Seq<(u32, String)>,
    b: Seq<(u32, String)>,
)
    ensures
        actions_for(cfg, scene, rule, pid, a + b) == actions_for(cfg, scene, rule, pid, a)
            + actions_for(cfg, scene, rule, pid, b),
    decreases b.len(),
{
    let x = actions_for(cfg, scene, rule, pid, a);
    if b.len() == 0 {
        assert(a + b == a);
        assert(x + actions_for(cfg, scene, rule, pid, b) == x);
    } else {
        law_threads_keep_the_order(cfg, scene, rule, pid, a, b.drop_last());
        assert((a + b).drop_last() == a + b.drop_last());
        assert((a + b).last() == b.last());
        assert(actions_for(cfg, scene, rule, pid, a + b) == x + actions_for(
            cfg,
            scene,
            rule,
            pid,
            b,
        ));
    }
}

/// Actions and calls stand for their parts, and processes for their ids.
pub proof fn law_actions_stand_for_their_parts(
    action: ThreadAction,
    calls: Seq<SchedCall>,
    procs: Seq<(u32, String)>,
    i: int,
)
    ensures
        action@.cpus == action.affinity_cpus@,
        action@.priority == action.priority,
        call_views(calls).len() == calls.len(),
        0 <= i < calls.len() ==> call_views(calls)[i] == match calls[i] {
            SchedCall::Affinity { tid, cpus } => CallView::Affinity(tid, cpus@),
            SchedCall::Nice { tid, nice } => CallView::Nice(tid, nice),
            SchedCall::Fifo { tid, priority } => CallView::Fifo(tid, priority),
        },
        pids_of(procs).len() == procs.len(),
        0 <= i < procs.len() ==> pids_of(procs)[i] == procs[i].0,
{
}

/// The known processes that are still there stay known, under their rules, and no others.
pub proof fn law_known_processes_stay_known(known: Map<u32, usize>, pids: Seq<u32>, pid: u32)
    ensures
        retained(known, pids).contains_key(pid) <==> known.contains_key(pid) && pids.contains(pid),
        known.contains_key(pid) && pids.contains(pid) ==> retained(known, pids)[pid] == known[pid],
{
}

/// A process is noted once, under the rule that matched it then; one that no rule matches
/// is not noted.
pub proof fn law_processes_are_noted_once(
    known: Map<u32, usize>,
    pid: u32,
    matched: Option<usize>,
    other: u32,
)
    ensures
        known.contains_key(pid) || matched is None ==> known_after(known, pid, matched) == known,
        !known.contains_key(pid) ==> (matched matches Some(rule) ==> known_after(known, pid, matched)
            == known.insert(pid, rule)),
        other != pid ==> known_after(known, pid, matched).contains_key(other) == known.contains_key(
            other,
        ),
{
}

/// Processes are treated in the order in which they are listed: what comes later in the
/// list comes later here.
pub proof fn law_processes_keep_the_order(
    rules: Seq<ProcessRule>,
    known: Map<u32, usize>,
    force: bool,
    procs: Seq<(u32, String)>,
    last: (u32, String),
)
    ensures
        ({
            let before = targets(rules, known, force, procs);
            let after = targets(rules, known, force, procs.push(last));
            &&& before.is_prefix_of(after)
            &&& after.len() <= before.len() + 1
            &&& after.len() > before.len() ==> after.last().0 == last.0
        }),
{
    assert(procs.push(last).drop_last() == procs);
    assert(procs.push(last).last() == last);
    let before = targets(rules, known, force, procs);
    let after = targets(rules, known, force, procs.push(last));
    assert(before.is_prefix_of(before));
    if after.len() > before.len() {
        assert(after.take(before.len() as int) == before);
    }
}

} // verus!
