//! Writes to kernel nodes.
//!
//! A writer turns named values into writes, one node each, and keeps them in the
//! order in which they were asked for. A write whose value the node already has is
//! dropped. The caller takes the writes out one by one, performs them, and reports
//! how each one ended.
use crate::outside;
use crate::strmap;
use crate::strmap::StrMap;
use crate::text;
use vstd::prelude::*;
use vstd::string::*;

verus! {

/// A named node.
#[derive(Debug, Clone)]
pub struct Knob {
    pub path: String,
    pub kind: KnobKind,
}

/// How a value is brought to a node.
#[derive(Debug, Clone, PartialEq, Eq)]
pub enum KnobKind {
    /// The value is written as it stands.
    String,
    /// The value is in GHz; it is written in kHz, and a second time if the first fails.
    CpuFreq,
    /// The path stands for one node of each cluster.
    PerCluster { leaders: Vec<u32> },
    /// The path stands for one node of each processor.
    PerCpu { cpus: Vec<u32> },
}

/// What a [`KnobKind`] stands for.
pub enum KindView {
    Text,
    CpuFreq,
    PerCluster(Seq<u32>),
    PerCpu(Seq<u32>),
}

impl View for KnobKind {
    type V = KindView;

    open spec fn view(&self) -> KindView {
        match self {
            KnobKind::String => KindView::Text,
            KnobKind::CpuFreq => KindView::CpuFreq,
            KnobKind::PerCluster { leaders } => KindView::PerCluster(leaders@),
            KnobKind::PerCpu { cpus } => KindView::PerCpu(cpus@),
        }
    }
}

/// What a [`Knob`] stands for.
pub struct KnobView {
    pub path: Seq<char>,
    pub kind: KindView,
}

impl View for Knob {
    type V = KnobView;

    open spec fn view(&self) -> KnobView {
        KnobView { path: self.path@, kind: self.kind@ }
    }
}

/// How a write is carried out.
#[derive(Debug, Clone, Copy, PartialEq, Eq, Structural)]
pub enum WriteMode {
    /// The value is in GHz and has to be converted first.
    Ghz,
    /// Written once; remembered only if that succeeds.
    Once,
    /// Written, and once more if that fails.
    First,
    /// Written for the second time; remembered only if that succeeds.
    Second,
}

/// One write.
#[derive(Debug)]
pub struct WriteJob {
    pub path: String,
    pub value: String,
    pub mode: WriteMode,
}

/// What a [`WriteJob`] stands for.
pub struct JobView {
    pub path: Seq<char>,
    pub value: Seq<char>,
    pub mode: WriteMode,
}

impl View for WriteJob {
    type V = JobView;

    open spec fn view(&self) -> JobView {
        JobView { path: self.path@, value: self.value@, mode: self.mode }
    }
}

/// What each of some writes stands for.
pub open spec fn job_views(jobs: Seq<WriteJob>) -> Seq<JobView> {
    jobs.map_values(|j: WriteJob| j@)
}

/// The kind of a knob by its name, its name in lower case, and its path.
pub open spec fn inferred(
    name: Seq<char>,
    lower: Seq<char>,
    path: Seq<char>,
    leaders: Seq<u32>,
    all_cpus: Seq<u32>,
) -> KindView {
    if text::occurs(path, "%d"@) {
        if text::occurs(lower, "percpu"@) {
            KindView::PerCpu(all_cpus)
        } else {
            KindView::PerCluster(leaders)
        }
    } else if text::occurs(path, "cpufreq"@) && (text::occurs(name, "freq"@) || text::occurs(
        name,
        "Freq"@,
    )) {
        KindView::CpuFreq
    } else {
        KindView::Text
    }
}

/// The knobs of a configuration by name, where `paths` holds their paths.
pub open spec fn knobs_of(
    paths: Seq<(Seq<char>, Seq<char>)>,
    leaders: Seq<u32>,
    all_cpus: Seq<u32>,
) -> Seq<(Seq<char>, KnobView)> {
    Seq::new(
        paths.len(),
        |i: int|
            (
                paths[i].0,
                KnobView {
                    path: paths[i].1,
                    kind: inferred(
                        paths[i].0,
                        outside::lowered(paths[i].0),
                        paths[i].1,
                        leaders,
                        all_cpus,
                    ),
                },
            ),
    )
}

/// The value for the node at place `i`: the part at that place, and the last one for
/// the nodes past the end.
pub open spec fn part_for(parts: Seq<Seq<char>>, i: int) -> Seq<char> {
    if i < parts.len() {
        parts[i]
    } else {
        parts.last()
    }
}

/// The writes of a comma-separated value to one node of each processor.
pub open spec fn jobs_per_cpu(path: Seq<char>, cpus: Seq<u32>, value: Seq<char>) -> Seq<JobView> {
    Seq::new(
        cpus.len(),
        |i: int|
            JobView {
                path: text::replaced(path, "%d"@, text::decimal(cpus[i] as nat)),
                value: text::trimmed(part_for(text::split_on(value, ','), i)),
                mode: WriteMode::Once,
            },
    )
}

/// The writes of a value to a knob.
pub open spec fn jobs_of(path: Seq<char>, kind: KindView, value: Seq<char>) -> Seq<JobView> {
    match kind {
        KindView::Text => seq![JobView { path, value, mode: WriteMode::Once }],
        KindView::CpuFreq => seq![JobView { path, value, mode: WriteMode::Ghz }],
        KindView::PerCluster(leaders) => jobs_per_cpu(path, leaders, value),
        KindView::PerCpu(cpus) => jobs_per_cpu(path, cpus, value),
    }
}

/// The writes of a value to the knob of a name: none where there is no such knob.
pub open spec fn jobs_for(
    knobs: Seq<(Seq<char>, KnobView)>,
    name: Seq<char>,
    value: Seq<char>,
) -> Seq<JobView> {
    if strmap::has_key(knobs, name) {
        let knob = strmap::value_of(knobs, name);
        jobs_of(knob.path, knob.kind, value)
    } else {
        Seq::empty()
    }
}

/// The writes of each value to the knob of its name, in order.
pub open spec fn jobs_for_all(
    knobs: Seq<(Seq<char>, KnobView)>,
    pairs: Seq<(Seq<char>, Seq<char>)>,
) -> Seq<JobView>
    decreases pairs.len(),
{
    if pairs.len() == 0 {
        Seq::empty()
    } else {
        jobs_for_all(knobs, pairs.drop_last()) + jobs_for(knobs, pairs.last().0, pairs.last().1)
    }
}

/// Whether a write would give a node the value it already has.
pub open spec fn redundant(cache: Map<Seq<char>, Seq<char>>, job: JobView) -> bool {
    job.mode != WriteMode::Ghz && cache.contains_key(job.path) && cache[job.path] == job.value
}

/// Some writes without those at the front that are not needed.
pub open spec fn skip_redundant(cache: Map<Seq<char>, Seq<char>>, jobs: Seq<JobView>) -> Seq<JobView>
    decreases jobs.len(),
{
    if jobs.len() > 0 && redundant(cache, jobs[0]) {
        skip_redundant(cache, jobs.drop_first())
    } else {
        jobs
    }
}

/// The remembered values after a write was tried.
pub open spec fn settled(cache: Map<Seq<char>, Seq<char>>, job: JobView, ok: bool) -> Map<
    Seq<char>,
    Seq<char>,
> {
    if ok {
        cache.insert(job.path, job.value)
    } else {
        cache
    }
}

/// The write that follows one that was tried: a second try of a first one that failed.
pub open spec fn follow_up(job: JobView, ok: bool) -> Option<JobView> {
    if !ok && job.mode == WriteMode::First {
        Some(JobView { mode: WriteMode::Second, ..job })
    } else {
        None
    }
}

/// The write of a value in GHz after its conversion: none where the value is no
/// number or where the node already has the result.
pub open spec fn converted(
    cache: Map<Seq<char>, Seq<char>>,
    job: JobView,
    khz: Option<u64>,
) -> Option<JobView> {
    match khz {
        Some(n) => {
            let job = JobView {
                path: job.path,
                value: text::decimal(n as nat),
                mode: WriteMode::First,
            };
            if redundant(cache, job) {
                None
            } else {
                Some(job)
            }
        },
        None => None,
    }
}

/// The node of a processor's upper frequency limit.
pub open spec fn limit_path(cpu: nat) -> Seq<char> {
    "/sys/devices/system/cpu/cpu"@ + text::decimal(cpu) + "/cpufreq/scaling_max_freq"@
}

/// The write of a processor's upper frequency limit.
pub open spec fn limit_job(cpu: nat, khz: nat) -> JobView {
    JobView { path: limit_path(cpu), value: text::decimal(khz), mode: WriteMode::First }
}

/// The kind of a knob, where its name in lower case is known.
pub fn infer_kind_lowered(
    name: &str,
    lower: &str,
    path: &str,
    leaders: &Vec<u32>,
    all_cpus: &Vec<u32>,
) -> (r: KnobKind)
    ensures
        r@ == inferred(name@, lower@, path@, leaders@, all_cpus@),
{
    if text::contains(path, "%d") {
        if text::contains(lower, "percpu") {
            let cpus: Vec<u32> = all_cpus.clone();
            assert(cpus@ == all_cpus@);
            KnobKind::PerCpu { cpus }
        } else {
            let leaders2: Vec<u32> = leaders.clone();
            assert(leaders2@ == leaders@);
            KnobKind::PerCluster { leaders: leaders2 }
        }
    } else if text::contains(path, "cpufreq") && (text::contains(name, "freq") || text::contains(
        name,
        "Freq",
    )) {
        KnobKind::CpuFreq
    } else {
        KnobKind::String
    }
}

/// The kind of a knob by its name and path.
pub fn infer_kind(name: &str, path: &str, leaders: &Vec<u32>, all_cpus: &Vec<u32>) -> (r: KnobKind)
    ensures
        r@ == inferred(name@, outside::lowered(name@), path@, leaders@, all_cpus@),
{
    let lower: String = name.to_lowercase();
    infer_kind_lowered(name, lower.as_str(), path, leaders, all_cpus)
}

/// The part of a value for the node at place `i`.
fn part_at<'a>(parts: &Vec<&'a str>, i: usize) -> (r: &'a str)
    requires
        parts@.len() > 0,
    ensures
        r@ == part_for(text::views(parts@), i as int),
{
    if i < parts.len() {
        parts[i]
    } else {
        parts[parts.len() - 1]
    }
}

/// The writes of a comma-separated value to one node of each processor.
fn expand_per_cpu(path: &str, cpus: &Vec<u32>, value: &str) -> (r: Vec<WriteJob>)
    ensures
        job_views(r@) == jobs_per_cpu(path@, cpus@, value@),
{
    proof {
        reveal_strlit("%d");
    }
    let parts: Vec<&str> = text::split(value, ',');
    let mut r: Vec<WriteJob> = Vec::new();
    let n: usize = cpus.len();
    let mut i: usize = 0;
    while i < n
        invariant
            i <= n,
            n == cpus@.len(),
            parts@.len() > 0,
            "%d"@.len() > 0,
            text::views(parts@) == text::split_on(value@, ','),
            r@.len() == i,
            job_views(r@) == jobs_per_cpu(path@, cpus@, value@).take(i as int),
        decreases n - i,
    {
        let number: String = text::decimal_string(cpus[i] as u64);
        let node: String = text::replace(path, "%d", number.as_str());
        let part: String = text::trim(part_at(&parts, i)).to_owned();
        let ghost before = r@;
        r.push(WriteJob { path: node, value: part, mode: WriteMode::Once });
        proof {
            assert(job_views(r@) == job_views(before).push(r@.last()@));
            assert(jobs_per_cpu(path@, cpus@, value@).take(i + 1) == jobs_per_cpu(
                path@,
                cpus@,
                value@,
            ).take(i as int).push(jobs_per_cpu(path@, cpus@, value@)[i as int]));
        }
        i = i + 1;
    }
    assert(jobs_per_cpu(path@, cpus@, value@).take(n as int) == jobs_per_cpu(path@, cpus@, value@));
    r
}

/// The writes of a value to a knob.
fn expand(knob: &Knob, value: &str) -> (r: Vec<WriteJob>)
    ensures
        job_views(r@) == jobs_of(knob.path@, knob.kind@, value@),
{
    match &knob.kind {
        KnobKind::String => {
            let mut r: Vec<WriteJob> = Vec::new();
            r.push(WriteJob { path: knob.path.clone(), value: value.to_owned(), mode: WriteMode::Once });
            assert(job_views(r@) == jobs_of(knob.path@, knob.kind@, value@));
            r
        },
        KnobKind::CpuFreq => {
            let mut r: Vec<WriteJob> = Vec::new();
            r.push(WriteJob { path: knob.path.clone(), value: value.to_owned(), mode: WriteMode::Ghz });
            assert(job_views(r@) == jobs_of(knob.path@, knob.kind@, value@));
            r
        },
        KnobKind::PerCluster { leaders } => expand_per_cpu(knob.path.as_str(), leaders, value),
        KnobKind::PerCpu { cpus } => expand_per_cpu(knob.path.as_str(), cpus, value),
    }
}

/// The knobs, the values that nodes are known to have, and the writes to be done.
pub struct SysfsWriter {
    knobs: StrMap<Knob>,
    cache: StrMap<String>,
    queue: Vec<WriteJob>,
}

impl SysfsWriter {
    /// The knobs by name.
    pub closed spec fn knobs(&self) -> Seq<(Seq<char>, KnobView)> {
        strmap::mapped(self.knobs.pairs(), |k: Knob| k@)
    }

    /// The value that each node is known to have, by path.
    pub closed spec fn cache(&self) -> Map<Seq<char>, Seq<char>> {
        Map::new(
            |path: Seq<char>| strmap::has_key(self.cache.pairs(), path),
            |path: Seq<char>| strmap::value_of(self.cache.pairs(), path)@,
        )
    }

    /// The writes to be done, in order.
    pub closed spec fn queue(&self) -> Seq<JobView> {
        job_views(self.queue@)
    }

    /// A writer for the knobs of a configuration, by their names and paths.
    /// `cluster_leaders` holds the first processor of each cluster, `all_cpus` every
    /// processor.
    pub fn new(
        knob_map: &StrMap<String>,
        cluster_leaders: Vec<u32>,
        all_cpus: Vec<u32>,
    ) -> (r: Self)
        ensures
            r.knobs() == knobs_of(
                strmap::texts(knob_map.pairs()),
                cluster_leaders@,
                all_cpus@,
            ),
            r.cache() == Map::<Seq<char>, Seq<char>>::empty(),
            r.queue() == Seq::<JobView>::empty(),
    {
        let mut knobs: StrMap<Knob> = StrMap::new();
        let n: usize = knob_map.len();
        let mut i: usize = 0;
        while i < n
            invariant
                i <= n,
                n == knob_map.pairs().len(),
                strmap::distinct_keys(knob_map.pairs()),
                knobs.pairs().len() == i,
                forall|j: int|
                    0 <= j < i ==> {
                        let name = knob_map.pairs()[j].0;
                        let path = knob_map.pairs()[j].1@;
                        &&& (#[trigger] knobs.pairs()[j]).0 == name
                        &&& knobs.pairs()[j].1.path@ == path
                        &&& knobs.pairs()[j].1.kind@ == inferred(
                            name,
                            outside::lowered(name),
                            path,
                            cluster_leaders@,
                            all_cpus@,
                        )
                    },
            decreases n - i,
        {
            let name: &str = knob_map.key_at(i);
            let path: &String = knob_map.value_at(i);
            let kind: KnobKind = infer_kind(name, path.as_str(), &cluster_leaders, &all_cpus);
            assert(!strmap::has_key(knobs.pairs(), name@)) by {
                if strmap::has_key(knobs.pairs(), name@) {
                    let j = strmap::key_index(knobs.pairs(), name@);
                    assert(knob_map.pairs()[j].0 == knob_map.pairs()[i as int].0);
                }
            }
            knobs.insert(name.to_owned(), Knob { path: path.clone(), kind });
            i = i + 1;
        }
        let r = SysfsWriter { knobs, cache: StrMap::new(), queue: Vec::new() };
        assert(r.knobs() == knobs_of(
            strmap::texts(knob_map.pairs()),
            cluster_leaders@,
            all_cpus@,
        ));
        assert(r.cache() == Map::<Seq<char>, Seq<char>>::empty());
        assert(r.queue() == Seq::<JobView>::empty());
        r
    }

    /// Asks for a value to be written to the knob of a name.
    pub fn write(&mut self, name: &str, value: &str)
        ensures
            final(self).queue() == old(self).queue() + jobs_for(old(self).knobs(), name@, value@),
            final(self).knobs() == old(self).knobs(),
            final(self).cache() == old(self).cache(),
    {
        let mut jobs: Vec<WriteJob> = match self.knobs.get(name) {
            Some(knob) => {
                proof {
                    strmap::lemma_mapped(self.knobs.pairs(), |k: Knob| k@, name@, *knob);
                }
                expand(knob, value)
            },
            None => Vec::new(),
        };
        assert(job_views(jobs@) == jobs_for(self.knobs(), name@, value@));
        let ghost added = jobs@;
        let ghost before = self.queue@;
        self.queue.append(&mut jobs);
        assert(job_views(before + added) == job_views(before) + job_views(added));
    }

    /// Asks for each value to be written to the knob of its name.
    pub fn apply_batch(&mut self, pairs: &StrMap<String>)
        ensures
            final(self).queue() == old(self).queue() + jobs_for_all(
                old(self).knobs(),
                strmap::texts(pairs.pairs()),
            ),
            final(self).knobs() == old(self).knobs(),
            final(self).cache() == old(self).cache(),
    {
        let n: usize = pairs.len();
        let mut i: usize = 0;
        let ghost all = strmap::texts(pairs.pairs());
        assert(self.queue() == old(self).queue() + jobs_for_all(self.knobs(), all.take(0)));
        while i < n
            invariant
                i <= n,
                n == all.len(),
                all == strmap::texts(pairs.pairs()),
                self.queue() == old(self).queue() + jobs_for_all(old(self).knobs(), all.take(i as int)),
                self.knobs() == old(self).knobs(),
                self.cache() == old(self).cache(),
            decreases n - i,
        {
            self.write(pairs.key_at(i), pairs.value_at(i).as_str());
            assert(all.take(i + 1).drop_last() == all.take(i as int));
            i = i + 1;
        }
        assert(all.take(n as int) == all);
    }

    /// Asks for a processor's upper frequency limit to be set.
    pub fn write_freq_limit(&mut self, cpu: u32, max_khz: u64)
        ensures
            final(self).queue() == old(self).queue().push(limit_job(cpu as nat, max_khz as nat)),
            final(self).knobs() == old(self).knobs(),
            final(self).cache() == old(self).cache(),
    {
        let mut path: String = "/sys/devices/system/cpu/cpu".to_owned();
        path.append(text::decimal_string(cpu as u64).as_str());
        path.append("/cpufreq/scaling_max_freq");
        let ghost before = self.queue@;
        self.queue.push(WriteJob { path, value: text::decimal_string(max_khz), mode: WriteMode::First });
        assert(self.queue() == job_views(before).push(self.queue@.last()@));
    }

    /// Asks for a list of processors, such as `0-3,6-7`, to be written to a node.
    pub fn write_cpuset(&mut self, path: &str, value: &str)
        ensures
            final(self).queue() == old(self).queue().push(
                JobView { path: path@, value: value@, mode: WriteMode::Once },
            ),
            final(self).knobs() == old(self).knobs(),
            final(self).cache() == old(self).cache(),
    {
        let ghost before = self.queue@;
        self.queue.push(
            WriteJob { path: path.to_owned(), value: value.to_owned(), mode: WriteMode::Once },
        );
        assert(self.queue() == job_views(before).push(self.queue@.last()@));
    }

    /// Whether a node is known to have a value.
    fn is_cached(&self, path: &str, value: &str) -> (r: bool)
        ensures
            r == (self.cache().contains_key(path@) && self.cache()[path@] == value@),
    {
        match self.cache.get(path) {
            Some(v) => text::same(v.as_str(), value),
            None => false,
        }
    }

    /// Takes out the next write that is needed. One in GHz is to be handed to
    /// [`SysfsWriter::convert`], any other to be performed and then handed to
    /// [`SysfsWriter::report`].
    pub fn next_write(&mut self) -> (r: Option<WriteJob>)
        ensures
            ({
                let rest = skip_redundant(old(self).cache(), old(self).queue());
                match r {
                    Some(job) => rest.len() > 0 && job@ == rest[0] && final(self).queue()
                        == rest.drop_first() && !redundant(old(self).cache(), job@),
                    None => rest.len() == 0 && final(self).queue() == Seq::<JobView>::empty(),
                }
            }),
            final(self).knobs() == old(self).knobs(),
            final(self).cache() == old(self).cache(),
    {
        while self.queue.len() > 0
            invariant
                skip_redundant(self.cache(), self.queue()) == skip_redundant(
                    old(self).cache(),
                    old(self).queue(),
                ),
                self.knobs() == old(self).knobs(),
                self.cache() == old(self).cache(),
            decreases self.queue@.len(),
        {
            let ghost before = self.queue@;
            let job: WriteJob = self.queue.remove(0);
            proof {
                assert(job_views(before)[0] == job@);
                assert(job_views(before).drop_first() == job_views(self.queue@));
            }
            let skip: bool = match job.mode {
                WriteMode::Ghz => false,
                _ => self.is_cached(job.path.as_str(), job.value.as_str()),
            };
            if !skip {
                return Some(job);
            }
        }
        assert(self.queue() == Seq::<JobView>::empty());
        None
    }

    /// Turns a write in GHz into one in kHz, where `khz` is what its value comes to.
    pub fn convert(&self, job: WriteJob, khz: Option<u64>) -> (r: Option<WriteJob>)
        requires
            job.mode == WriteMode::Ghz,
        ensures
            match r {
                Some(j) => converted(self.cache(), job@, khz) == Some(j@),
                None => converted(self.cache(), job@, khz) is None,
            },
    {
        match khz {
            Some(n) => {
                let value: String = text::decimal_string(n);
                if self.is_cached(job.path.as_str(), value.as_str()) {
                    None
                } else {
                    Some(WriteJob { path: job.path, value, mode: WriteMode::First })
                }
            },
            None => None,
        }
    }

    /// Takes note of how a write ended. Hands back the write to be tried again, if any.
    pub fn report(&mut self, job: WriteJob, ok: bool) -> (r: Option<WriteJob>)
        requires
            job.mode != WriteMode::Ghz,
        ensures
            final(self).cache() == settled(old(self).cache(), job@, ok),
            match r {
                Some(j) => follow_up(job@, ok) == Some(j@),
                None => follow_up(job@, ok) is None,
            },
            final(self).knobs() == old(self).knobs(),
            final(self).queue() == old(self).queue(),
    {
        let again: bool = match job.mode {
            WriteMode::First => !ok,
            _ => false,
        };
        if again {
            return Some(WriteJob { path: job.path, value: job.value, mode: WriteMode::Second });
        }
        if ok {
            let ghost before = self.cache.pairs();
            let ghost path = job.path@;
            let ghost value = job.value;
            self.cache.insert(job.path, job.value);
            proof {
                assert forall|k: Seq<char>|
                    #![auto]
                    strmap::has_key(self.cache.pairs(), k) == (k == path || strmap::has_key(before, k)) && (
                    strmap::has_key(self.cache.pairs(), k) ==> strmap::value_of(self.cache.pairs(), k)
                        == if k == path {
                        value
                    } else {
                        strmap::value_of(before, k)
                    }) by {
                    strmap::law_insert_then_read(before, path, value, k);
                }
                assert(self.cache() == old(self).cache().insert(path, value@));
            }
        }
        None
    }
}

/// A value that a node was given is not written to it again while nothing else was
/// written there.
pub proof fn law_same_value_is_not_rewritten(
    cache: Map<Seq<char>, Seq<char>>,
    job: JobView,
    later: JobView,
)
    requires
        later.path == job.path,
        later.value == job.value,
        later.mode != WriteMode::Ghz,
    ensures
        redundant(settled(cache, job, true), later),
        forall|rest: Seq<JobView>|
            skip_redundant(settled(cache, job, true), seq![later] + rest) == #[trigger] skip_redundant(
                settled(cache, job, true),
                rest,
            ),
{
    assert forall|rest: Seq<JobView>|
        skip_redundant(settled(cache, job, true), seq![later] + rest) == #[trigger] skip_redundant(
            settled(cache, job, true),
            rest,
        ) by {
        assert((seq![later] + rest).drop_first() == rest);
    }
}

/// A frequency is tried at most twice, and its value is remembered exactly where one of
/// the tries succeeds.
pub proof fn law_frequency_is_tried_at_most_twice(
    cache: Map<Seq<char>, Seq<char>>,
    job: JobView,
    again_ok: bool,
)
    requires
        job.mode == WriteMode::First,
    ensures
        follow_up(job, true) is None,
        settled(cache, job, true) == cache.insert(job.path, job.value),
        settled(cache, job, false) == cache,
        follow_up(job, false) matches Some(again) && again.path == job.path && again.value
            == job.value && follow_up(again, again_ok) is None && settled(cache, again, again_ok)
            == settled(cache, job, again_ok),
{
}

/// A write that failed leaves no trace, so that the same value is tried again when it is
/// next asked for.
pub proof fn law_failed_write_is_not_remembered(cache: Map<Seq<char>, Seq<char>>, job: JobView)
    requires
        !redundant(cache, job),
    ensures
        settled(cache, job, false) == cache,
        !redundant(settled(cache, job, false), job),
{
}

/// A write changes what is remembered of no node but its own.
pub proof fn law_other_nodes_are_untouched(
    cache: Map<Seq<char>, Seq<char>>,
    job: JobView,
    ok: bool,
    path: Seq<char>,
)
    requires
        path != job.path,
    ensures
        settled(cache, job, ok).contains_key(path) == cache.contains_key(path),
        cache.contains_key(path) ==> settled(cache, job, ok)[path] == cache[path],
{
}

/// Only writes that are not needed are dropped, and the others keep their order: what
/// is left is the end of what there was.
pub proof fn law_only_redundant_writes_are_dropped(
    cache: Map<Seq<char>, Seq<char>>,
    jobs: Seq<JobView>,
)
    ensures
        skip_redundant(cache, jobs).len() <= jobs.len(),
        skip_redundant(cache, jobs) == jobs.skip(jobs.len() - skip_redundant(cache, jobs).len()),
        forall|i: int|
            0 <= i < jobs.len() - skip_redundant(cache, jobs).len() ==> redundant(
                cache,
                #[trigger] jobs[i],
            ),
        skip_redundant(cache, jobs).len() > 0 ==> !redundant(cache, skip_redundant(cache, jobs)[0]),
    decreases jobs.len(),
{
    if jobs.len() > 0 && redundant(cache, jobs[0]) {
        let rest = jobs.drop_first();
        law_only_redundant_writes_are_dropped(cache, rest);
        let n = skip_redundant(cache, jobs).len();
        assert(rest.skip(rest.len() - n) == jobs.skip(jobs.len() - n));
        assert forall|i: int| 0 <= i < jobs.len() - n implies redundant(cache, #[trigger] jobs[i]) by {
            if i > 0 {
                assert(jobs[i] == rest[i - 1]);
            }
        }
    } else {
        assert(jobs.skip(0) == jobs);
    }
}

/// The write that is done for one that was asked for, where `khz` gives what a value in
/// GHz comes to; none where the node already has the value or there is none.
pub open spec fn needed(
    cache: Map<Seq<char>, Seq<char>>,
    job: JobView,
    khz: spec_fn(Seq<char>) -> Option<u64>,
) -> Option<JobView> {
    if job.mode == WriteMode::Ghz {
        converted(cache, job, khz(job.value))
    } else if redundant(cache, job) {
        None
    } else {
        Some(job)
    }
}

/// The remembered values after a write was asked for and dealt with, where `ok` tells
/// which writes succeed, if need be at the second try.
pub open spec fn dealt_with(
    cache: Map<Seq<char>, Seq<char>>,
    job: JobView,
    khz: spec_fn(Seq<char>) -> Option<u64>,
    ok: spec_fn(JobView) -> bool,
) -> Map<Seq<char>, Seq<char>> {
    match needed(cache, job, khz) {
        Some(j) => settled(cache, j, ok(j)),
        None => cache,
    }
}

/// The remembered values after all writes were dealt with.
pub open spec fn drained(
    cache: Map<Seq<char>, Seq<char>>,
    jobs: Seq<JobView>,
    khz: spec_fn(Seq<char>) -> Option<u64>,
    ok: spec_fn(JobView) -> bool,
) -> Map<Seq<char>, Seq<char>>
    decreases jobs.len(),
{
    if jobs.len() == 0 {
        cache
    } else {
        drained(dealt_with(cache, jobs[0], khz, ok), jobs.drop_first(), khz, ok)
    }
}

/// The writes that are done when all that were asked for are dealt with, in order.
pub open spec fn attempts(
    cache: Map<Seq<char>, Seq<char>>,
    jobs: Seq<JobView>,
    khz: spec_fn(Seq<char>) -> Option<u64>,
    ok: spec_fn(JobView) -> bool,
) -> Seq<JobView>
    decreases jobs.len(),
{
    if jobs.len() == 0 {
        Seq::empty()
    } else {
        let rest = attempts(dealt_with(cache, jobs[0], khz, ok), jobs.drop_first(), khz, ok);
        match needed(cache, jobs[0], khz) {
            Some(j) => seq![j] + rest,
            None => rest,
        }
    }
}

/// The writes to one node.
pub open spec fn on_path(jobs: Seq<JobView>, path: Seq<char>) -> Seq<JobView>
    decreases jobs.len(),
{
    if jobs.len() == 0 {
        Seq::empty()
    } else if jobs[0].path == path {
        seq![jobs[0]] + on_path(jobs.drop_first(), path)
    } else {
        on_path(jobs.drop_first(), path)
    }
}

/// Taking writes out one by one, as a writer hands them out, deals with all of them: the
/// first that is handed out is dealt with first, and those dropped before it change
/// nothing.
pub proof fn law_taking_writes_out_drains_the_queue(
    cache: Map<Seq<char>, Seq<char>>,
    jobs: Seq<JobView>,
    khz: spec_fn(Seq<char>) -> Option<u64>,
    ok: spec_fn(JobView) -> bool,
)
    ensures
        ({
            let rest = skip_redundant(cache, jobs);
            if rest.len() == 0 {
                drained(cache, jobs, khz, ok) == cache && attempts(cache, jobs, khz, ok).len() == 0
            } else {
                let after = dealt_with(cache, rest[0], khz, ok);
                &&& drained(cache, jobs, khz, ok) == drained(after, rest.drop_first(), khz, ok)
                &&& attempts(cache, jobs, khz, ok) == match needed(cache, rest[0], khz) {
                    Some(j) => seq![j] + attempts(after, rest.drop_first(), khz, ok),
                    None => attempts(after, rest.drop_first(), khz, ok),
                }
            }
        }),
    decreases jobs.len(),
{
    if jobs.len() > 0 && redundant(cache, jobs[0]) {
        law_taking_writes_out_drains_the_queue(cache, jobs.drop_first(), khz, ok);
    }
}

/// Leaving out writes loses nothing: where all writes succeed, each node ends with the
/// last value that was asked for.
pub proof fn law_nodes_end_with_their_last_values(
    cache: Map<Seq<char>, Seq<char>>,
    jobs: Seq<JobView>,
    khz: spec_fn(Seq<char>) -> Option<u64>,
    ok: spec_fn(JobView) -> bool,
    i: int,
)
    requires
        0 <= i < jobs.len(),
        forall|j: int| i < j < jobs.len() ==> (#[trigger] jobs[j]).path != jobs[i].path,
        forall|j: JobView| #[trigger] ok(j),
        jobs[i].mode == WriteMode::Ghz ==> khz(jobs[i].value) is Some,
    ensures
        ({
            let after = drained(cache, jobs, khz, ok);
            &&& after.contains_key(jobs[i].path)
            &&& after[jobs[i].path] == if jobs[i].mode == WriteMode::Ghz {
                text::decimal(khz(jobs[i].value)->0 as nat)
            } else {
                jobs[i].value
            }
        }),
    decreases jobs.len(),
{
    let rest = jobs.drop_first();
    let next = dealt_with(cache, jobs[0], khz, ok);
    if i == 0 {
        assert forall|j: int| 0 <= j < rest.len() implies (#[trigger] rest[j]).path
            != jobs[0].path by {
            assert(rest[j] == jobs[j + 1]);
        }
        law_unasked_nodes_are_untouched(next, rest, khz, ok, jobs[0].path);
    } else {
        assert(rest[i - 1] == jobs[i]);
        assert forall|j: int| i - 1 < j < rest.len() implies (#[trigger] rest[j]).path
            != rest[i - 1].path by {
            assert(rest[j] == jobs[j + 1]);
        }
        law_nodes_end_with_their_last_values(next, rest, khz, ok, i - 1);
    }
}

/// A node that no write was asked for keeps what is remembered of it.
pub proof fn law_unasked_nodes_are_untouched(
    cache: Map<Seq<char>, Seq<char>>,
    jobs: Seq<JobView>,
    khz: spec_fn(Seq<char>) -> Option<u64>,
    ok: spec_fn(JobView) -> bool,
    path: Seq<char>,
)
    requires
        forall|i: int| 0 <= i < jobs.len() ==> (#[trigger] jobs[i]).path != path,
    ensures
        drained(cache, jobs, khz, ok).contains_key(path) == cache.contains_key(path),
        cache.contains_key(path) ==> drained(cache, jobs, khz, ok)[path] == cache[path],
    decreases jobs.len(),
{
    if jobs.len() > 0 {
        let rest = jobs.drop_first();
        assert forall|i: int| 0 <= i < rest.len() implies (#[trigger] rest[i]).path != path by {
            assert(rest[i] == jobs[i + 1]);
        }
        assert(jobs[0].path != path);
        law_unasked_nodes_are_untouched(
            dealt_with(cache, jobs[0], khz, ok),
            rest,
            khz,
            ok,
            path,
        );
    }
}

/// Whether two memories agree on a node.
pub open spec fn agree(
    a: Map<Seq<char>, Seq<char>>,
    b: Map<Seq<char>, Seq<char>>,
    path: Seq<char>,
) -> bool {
    &&& a.contains_key(path) == b.contains_key(path)
    &&& a.contains_key(path) ==> a[path] == b[path]
}

/// What is written to a node, and what is then remembered of it, depends only on the
/// writes that were asked for on that node.
pub proof fn law_nodes_are_independent(
    a: Map<Seq<char>, Seq<char>>,
    b: Map<Seq<char>, Seq<char>>,
    jobs: Seq<JobView>,
    khz: spec_fn(Seq<char>) -> Option<u64>,
    ok: spec_fn(JobView) -> bool,
    path: Seq<char>,
)
    requires
        agree(a, b, path),
    ensures
        agree(
            drained(a, jobs, khz, ok),
            drained(b, on_path(jobs, path), khz, ok),
            path,
        ),
        on_path(attempts(a, jobs, khz, ok), path) == attempts(b, on_path(jobs, path), khz, ok),
    decreases jobs.len(),
{
    if jobs.len() > 0 {
        let job = jobs[0];
        let rest = jobs.drop_first();
        let mine = on_path(rest, path);
        let next = dealt_with(a, job, khz, ok);
        let later = attempts(next, rest, khz, ok);
        if job.path == path {
            let own = seq![job] + mine;
            let after = dealt_with(b, job, khz, ok);
            law_nodes_are_independent(next, after, rest, khz, ok, path);
            assert(own[0] == job);
            assert(own.drop_first() == mine);
        } else {
            law_nodes_are_independent(next, b, rest, khz, ok, path);
        }
        if let Some(j) = needed(a, job, khz) {
            let all = seq![j] + later;
            assert(all[0] == j);
            assert(all.drop_first() == later);
        }
    }
}

proof fn lemma_on_path_concat(a: Seq<JobView>, b: Seq<JobView>, path: Seq<char>)
    ensures
        on_path(a + b, path) == on_path(a, path) + on_path(b, path),
    decreases a.len(),
{
    if a.len() == 0 {
        assert(a + b == b);
    } else {
        lemma_on_path_concat(a.drop_first(), b, path);
        assert((a + b).drop_first() == a.drop_first() + b);
        assert(on_path(a + b, path) == on_path(a, path) + on_path(b, path));
    }
}

/// Whether a write to a node is among some.
pub open spec fn touches(jobs: Seq<JobView>, path: Seq<char>) -> bool {
    exists|i: int| 0 <= i < jobs.len() && (#[trigger] jobs[i]).path == path
}

proof fn lemma_on_path_none(jobs: Seq<JobView>, path: Seq<char>)
    requires
        !touches(jobs, path),
    ensures
        on_path(jobs, path) == Seq::<JobView>::empty(),
    decreases jobs.len(),
{
    if jobs.len() > 0 {
        let rest = jobs.drop_first();
        assert(jobs[0].path != path);
        if touches(rest, path) {
            let i = choose|i: int| 0 <= i < rest.len() && (#[trigger] rest[i]).path == path;
            assert(jobs[i + 1].path == path);
        }
        lemma_on_path_none(rest, path);
    }
}

/// Whether no two values of a batch go to the same node.
pub open spec fn apart(
    knobs: Seq<(Seq<char>, KnobView)>,
    pairs: Seq<(Seq<char>, Seq<char>)>,
) -> bool {
    forall|k: int, l: int, path: Seq<char>|
        #![trigger touches(jobs_for(knobs, pairs[k].0, pairs[k].1), path), pairs[l]]
        0 <= k < pairs.len() && 0 <= l < pairs.len() && k != l && touches(
            jobs_for(knobs, pairs[k].0, pairs[k].1),
            path,
        ) ==> !touches(jobs_for(knobs, pairs[l].0, pairs[l].1), path)
}

/// Whether two batches hold the same values under the same names, in whatever order.
pub open spec fn same_pairs(
    a: Seq<(Seq<char>, Seq<char>)>,
    b: Seq<(Seq<char>, Seq<char>)>,
) -> bool {
    &&& strmap::distinct_keys(a)
    &&& strmap::distinct_keys(b)
    &&& forall|p: (Seq<char>, Seq<char>)| #[trigger] a.contains(p) <==> b.contains(p)
}

proof fn lemma_block_of_batch(
    knobs: Seq<(Seq<char>, KnobView)>,
    pairs: Seq<(Seq<char>, Seq<char>)>,
    path: Seq<char>,
)
    requires
        apart(knobs, pairs),
    ensures
        forall|k: int|
            #![trigger pairs[k]]
            0 <= k < pairs.len() && touches(jobs_for(knobs, pairs[k].0, pairs[k].1), path)
                ==> on_path(jobs_for_all(knobs, pairs), path) == on_path(
                jobs_for(knobs, pairs[k].0, pairs[k].1),
                path,
            ),
        (forall|k: int|
            0 <= k < pairs.len() ==> !touches(
                jobs_for(knobs, (#[trigger] pairs[k]).0, pairs[k].1),
                path,
            )) ==> on_path(jobs_for_all(knobs, pairs), path) == Seq::<JobView>::empty(),
    decreases pairs.len(),
{
    if pairs.len() > 0 {
        let rest = pairs.drop_last();
        let last = pairs.last();
        let n = pairs.len() - 1;
        let before = jobs_for_all(knobs, rest);
        let own = jobs_for(knobs, last.0, last.1);
        assert(pairs[n] == last);
        assert(apart(knobs, rest)) by {
            assert forall|k: int, l: int, p: Seq<char>|
                #![trigger touches(jobs_for(knobs, rest[k].0, rest[k].1), p), rest[l]]
                0 <= k < rest.len() && 0 <= l < rest.len() && k != l && touches(
                    jobs_for(knobs, rest[k].0, rest[k].1),
                    p,
                ) implies !touches(jobs_for(knobs, rest[l].0, rest[l].1), p) by {
                assert(rest[k] == pairs[k]);
                assert(rest[l] == pairs[l]);
                assert(touches(jobs_for(knobs, pairs[k].0, pairs[k].1), p));
            }
        }
        lemma_block_of_batch(knobs, rest, path);
        lemma_on_path_concat(before, own, path);
        if !touches(own, path) {
            lemma_on_path_none(own, path);
        }
        if touches(own, path) {
            assert(touches(jobs_for(knobs, pairs[n].0, pairs[n].1), path));
            assert forall|k: int| 0 <= k < rest.len() implies !touches(
                jobs_for(knobs, (#[trigger] rest[k]).0, rest[k].1),
                path,
            ) by {
                assert(rest[k] == pairs[k]);
            }
        }
        assert forall|k: int|
            #![trigger pairs[k]]
            0 <= k < pairs.len() && touches(jobs_for(knobs, pairs[k].0, pairs[k].1), path) implies
            on_path(jobs_for_all(knobs, pairs), path) == on_path(
            jobs_for(knobs, pairs[k].0, pairs[k].1),
            path,
        ) by {
            if k < n {
                assert(rest[k] == pairs[k]);
                assert(pairs[n] == last);
                assert(!touches(own, path));
            }
        }
        if forall|k: int|
            0 <= k < pairs.len() ==> !touches(
                jobs_for(knobs, (#[trigger] pairs[k]).0, pairs[k].1),
                path,
            ) {
            assert(!touches(jobs_for(knobs, pairs[n].0, pairs[n].1), path));
            assert forall|k: int| 0 <= k < rest.len() implies !touches(
                jobs_for(knobs, (#[trigger] rest[k]).0, rest[k].1),
                path,
            ) by {
                assert(rest[k] == pairs[k]);
            }
        }
    }
}

/// A batch whose values go to different nodes does to the nodes of each value what that
/// value alone would do, and nothing else.
pub proof fn law_batch_is_its_parts(
    cache: Map<Seq<char>, Seq<char>>,
    knobs: Seq<(Seq<char>, KnobView)>,
    pairs: Seq<(Seq<char>, Seq<char>)>,
    khz: spec_fn(Seq<char>) -> Option<u64>,
    ok: spec_fn(JobView) -> bool,
    path: Seq<char>,
)
    requires
        apart(knobs, pairs),
    ensures
        ({
            let all = jobs_for_all(knobs, pairs);
            &&& forall|k: int|
                #![trigger pairs[k]]
                0 <= k < pairs.len() && touches(jobs_for(knobs, pairs[k].0, pairs[k].1), path) ==> {
                    let own = jobs_for(knobs, pairs[k].0, pairs[k].1);
                    &&& on_path(attempts(cache, all, khz, ok), path) == on_path(
                        attempts(cache, own, khz, ok),
                        path,
                    )
                    &&& agree(drained(cache, all, khz, ok), drained(cache, own, khz, ok), path)
                }
            &&& (forall|k: int|
                0 <= k < pairs.len() ==> !touches(
                    jobs_for(knobs, (#[trigger] pairs[k]).0, pairs[k].1),
                    path,
                )) ==> on_path(attempts(cache, all, khz, ok), path).len() == 0 && agree(
                drained(cache, all, khz, ok),
                cache,
                path,
            )
        }),
        forall|name: Seq<char>, value: Seq<char>|
            !strmap::has_key(knobs, name) ==> (#[trigger] jobs_for(knobs, name, value)).len() == 0,
        jobs_for_all(knobs, Seq::empty()).len() == 0,
{
    let all = jobs_for_all(knobs, pairs);
    lemma_block_of_batch(knobs, pairs, path);
    law_nodes_are_independent(cache, cache, all, khz, ok, path);
    assert forall|k: int|
        #![trigger pairs[k]]
        0 <= k < pairs.len() && touches(jobs_for(knobs, pairs[k].0, pairs[k].1), path) implies {
        let own = jobs_for(knobs, pairs[k].0, pairs[k].1);
        &&& on_path(attempts(cache, all, khz, ok), path) == on_path(
            attempts(cache, own, khz, ok),
            path,
        )
        &&& agree(drained(cache, all, khz, ok), drained(cache, own, khz, ok), path)
    } by {
        let own = jobs_for(knobs, pairs[k].0, pairs[k].1);
        law_nodes_are_independent(cache, cache, own, khz, ok, path);
    }
}

proof fn lemma_batch_order_at(
    cache: Map<Seq<char>, Seq<char>>,
    knobs: Seq<(Seq<char>, KnobView)>,
    a: Seq<(Seq<char>, Seq<char>)>,
    b: Seq<(Seq<char>, Seq<char>)>,
    khz: spec_fn(Seq<char>) -> Option<u64>,
    ok: spec_fn(JobView) -> bool,
    path: Seq<char>,
)
    requires
        same_pairs(a, b),
        apart(knobs, a),
    ensures
        ({
            let x = jobs_for_all(knobs, a);
            let y = jobs_for_all(knobs, b);
            &&& agree(drained(cache, x, khz, ok), drained(cache, y, khz, ok), path)
            &&& on_path(attempts(cache, x, khz, ok), path) == on_path(
                attempts(cache, y, khz, ok),
                path,
            )
        }),
{
    let x = jobs_for_all(knobs, a);
    let y = jobs_for_all(knobs, b);
    assert(apart(knobs, b)) by {
        assert forall|k: int, l: int, p: Seq<char>|
            #![trigger touches(jobs_for(knobs, b[k].0, b[k].1), p), b[l]]
            0 <= k < b.len() && 0 <= l < b.len() && k != l && touches(
                jobs_for(knobs, b[k].0, b[k].1),
                p,
            ) implies !touches(jobs_for(knobs, b[l].0, b[l].1), p) by {
            assert(b.contains(b[k]) && b.contains(b[l]));
            let i = choose|i: int| 0 <= i < a.len() && a[i] == b[k];
            let j = choose|j: int| 0 <= j < a.len() && a[j] == b[l];
            assert(a.contains(b[k]) && a.contains(b[l]));
            assert(b[k].0 != b[l].0);
            assert(touches(jobs_for(knobs, a[i].0, a[i].1), p));
        }
    }
    lemma_block_of_batch(knobs, a, path);
    lemma_block_of_batch(knobs, b, path);
    if exists|k: int|
        0 <= k < a.len() && touches(jobs_for(knobs, (#[trigger] a[k]).0, a[k].1), path) {
        let k = choose|k: int|
            0 <= k < a.len() && touches(jobs_for(knobs, (#[trigger] a[k]).0, a[k].1), path);
        assert(a.contains(a[k]));
        assert(b.contains(a[k]));
        let l = choose|l: int| 0 <= l < b.len() && b[l] == a[k];
        assert(touches(jobs_for(knobs, b[l].0, b[l].1), path));
    } else {
        assert forall|l: int| 0 <= l < b.len() implies !touches(
            jobs_for(knobs, (#[trigger] b[l]).0, b[l].1),
            path,
        ) by {
            assert(b.contains(b[l]));
            assert(a.contains(b[l]));
        }
    }
    assert(on_path(x, path) == on_path(y, path));
    law_nodes_are_independent(cache, cache, x, khz, ok, path);
    law_nodes_are_independent(cache, cache, y, khz, ok, path);
}

/// The order of a batch whose values go to different nodes makes no difference: the same
/// writes are done on each node, and the same is remembered.
pub proof fn law_batch_order_makes_no_difference(
    cache: Map<Seq<char>, Seq<char>>,
    knobs: Seq<(Seq<char>, KnobView)>,
    a: Seq<(Seq<char>, Seq<char>)>,
    b: Seq<(Seq<char>, Seq<char>)>,
    khz: spec_fn(Seq<char>) -> Option<u64>,
    ok: spec_fn(JobView) -> bool,
)
    requires
        same_pairs(a, b),
        apart(knobs, a),
    ensures
        drained(cache, jobs_for_all(knobs, a), khz, ok) == drained(
            cache,
            jobs_for_all(knobs, b),
            khz,
            ok,
        ),
        forall|path: Seq<char>| #[trigger]
            on_path(attempts(cache, jobs_for_all(knobs, a), khz, ok), path) == on_path(
                attempts(cache, jobs_for_all(knobs, b), khz, ok),
                path,
            ),
{
    let x = drained(cache, jobs_for_all(knobs, a), khz, ok);
    let y = drained(cache, jobs_for_all(knobs, b), khz, ok);
    assert forall|path: Seq<char>| #[trigger] x.contains_key(path) == y.contains_key(path) && (
    x.contains_key(path) ==> x[path] == y[path]) by {
        lemma_batch_order_at(cache, knobs, a, b, khz, ok, path);
    }
    assert(x == y);
    assert forall|path: Seq<char>| #[trigger]
        on_path(attempts(cache, jobs_for_all(knobs, a), khz, ok), path) == on_path(
            attempts(cache, jobs_for_all(knobs, b), khz, ok),
            path,
        ) by {
        lemma_batch_order_at(cache, knobs, a, b, khz, ok, path);
    }
}

/// A value for several processors comes to one write for each of them, in order, and
/// a single value goes to all of them.
pub proof fn law_single_value_goes_to_every_cpu(path: Seq<char>, cpus: Seq<u32>, value: Seq<char>)
    requires
        !value.contains(','),
    ensures
        jobs_per_cpu(path, cpus, value).len() == cpus.len(),
        forall|i: int|
            0 <= i < cpus.len() ==> (#[trigger] jobs_per_cpu(path, cpus, value)[i]).value
                == text::trimmed(value),
{
    text::lemma_split_without(value, ',');
}

/// A path with a placeholder always stands for several nodes, whatever else it and the
/// name hold: those of all processors where the name says so, in whatever case, and those
/// of the clusters otherwise. Any other path is one node, for a frequency exactly where
/// both the path and the name speak of one.
pub proof fn law_kinds_of_knobs(
    name: Seq<char>,
    lower: Seq<char>,
    path: Seq<char>,
    leaders: Seq<u32>,
    all_cpus: Seq<u32>,
)
    ensures
        ({
            let kind = inferred(name, lower, path, leaders, all_cpus);
            let several = text::occurs(path, "%d"@);
            &&& several <==> kind is PerCpu || kind is PerCluster
            &&& several && text::occurs(lower, "percpu"@) ==> kind == KindView::PerCpu(all_cpus)
            &&& several && !text::occurs(lower, "percpu"@) ==> kind == KindView::PerCluster(leaders)
            &&& kind is CpuFreq ==> text::occurs(path, "cpufreq"@)
            &&& kind is CpuFreq ==> text::occurs(name, "freq"@) || text::occurs(name, "Freq"@)
            &&& !several && text::occurs(path, "cpufreq"@) && text::occurs(name, "freq"@)
                ==> kind is CpuFreq
            &&& !several && text::occurs(path, "cpufreq"@) && text::occurs(name, "Freq"@)
                ==> kind is CpuFreq
        }),
{
}

proof fn lemma_number_is_no_placeholder(n: nat)
    ensures
        "%d"@.len() == 2,
        text::decimal(n).len() > 0,
        forall|i: int| 0 <= i < "%d"@.len() ==> !text::decimal(n).contains(#[trigger] "%d"@[i]),
{
    reveal_strlit("%d");
    text::law_decimal_digits(n, 0);
    assert forall|i: int| 0 <= i < "%d"@.len() implies !text::decimal(n).contains(
        #[trigger] "%d"@[i],
    ) by {
        if text::decimal(n).contains("%d"@[i]) {
            let k = choose|k: int|
                0 <= k < text::decimal(n).len() && text::decimal(n)[k] == "%d"@[i];
            assert('0' <= text::decimal(n)[k] && text::decimal(n)[k] <= '9');
        }
    }
}

/// No write to a knob whose path has a placeholder leaves the placeholder in the path, and
/// there is one write for each processor or cluster leader.
pub proof fn law_no_placeholder_is_left(
    name: Seq<char>,
    lower: Seq<char>,
    path: Seq<char>,
    leaders: Seq<u32>,
    all_cpus: Seq<u32>,
    value: Seq<char>,
)
    requires
        text::occurs(path, "%d"@),
    ensures
        ({
            let jobs = jobs_of(path, inferred(name, lower, path, leaders, all_cpus), value);
            &&& jobs.len() == if text::occurs(lower, "percpu"@) {
                all_cpus.len()
            } else {
                leaders.len()
            }
            &&& forall|i: int|
                0 <= i < jobs.len() ==> !text::occurs((#[trigger] jobs[i]).path, "%d"@)
                    && jobs[i].mode == WriteMode::Once
        }),
{
    law_kinds_of_knobs(name, lower, path, leaders, all_cpus);
    let kind = inferred(name, lower, path, leaders, all_cpus);
    let jobs = jobs_of(path, kind, value);
    let cpus = if text::occurs(lower, "percpu"@) {
        all_cpus
    } else {
        leaders
    };
    assert(jobs == jobs_per_cpu(path, cpus, value));
    assert forall|i: int| 0 <= i < jobs.len() implies !text::occurs((#[trigger] jobs[i]).path, "%d"@)
        && jobs[i].mode == WriteMode::Once by {
        lemma_number_is_no_placeholder(cpus[i] as nat);
        text::law_replaced_is_gone(path, "%d"@, text::decimal(cpus[i] as nat));
    }
}

/// In each path the number of the processor stands where the placeholder stood.
pub proof fn law_placeholder_becomes_the_number(
    a: Seq<char>,
    b: Seq<char>,
    cpus: Seq<u32>,
    value: Seq<char>,
    i: int,
)
    requires
        0 <= i < cpus.len(),
        forall|k: int| 0 <= k < a.len() ==> !#[trigger] text::occurs_at(a + "%d"@ + b, "%d"@, k),
        !text::occurs(b, "%d"@),
    ensures
        jobs_per_cpu(a + "%d"@ + b, cpus, value).len() == cpus.len(),
        jobs_per_cpu(a + "%d"@ + b, cpus, value)[i].path == a + text::decimal(cpus[i] as nat) + b,
{
    lemma_number_is_no_placeholder(cpus[i] as nat);
    text::law_replacing(a, "%d"@, text::decimal(cpus[i] as nat), b);
    text::law_nothing_to_replace(b, "%d"@, text::decimal(cpus[i] as nat));
}

/// The values before and behind a comma are for the first processor and for those after
/// it.
pub proof fn law_values_are_dealt_out(
    path: Seq<char>,
    cpus: Seq<u32>,
    first: Seq<char>,
    others: Seq<char>,
)
    requires
        cpus.len() > 0,
        !first.contains(','),
    ensures
        jobs_per_cpu(path, cpus, first.push(',') + others) == jobs_per_cpu(
            path,
            seq![cpus[0]],
            first,
        ) + jobs_per_cpu(path, cpus.drop_first(), others),
{
    let value = first.push(',') + others;
    let parts = text::split_on(others, ',');
    text::law_pieces_are_separated(first, ',', others);
    assert(text::split_on(value, ',') == seq![first] + parts);
    let all = jobs_per_cpu(path, cpus, value);
    let sum = jobs_per_cpu(path, seq![cpus[0]], first) + jobs_per_cpu(
        path,
        cpus.drop_first(),
        others,
    );
    assert(parts.len() > 0);
    assert forall|i: int| 0 <= i < all.len() implies all[i] == sum[i] by {
        if i > 0 {
            assert((seq![first] + parts).last() == parts.last());
            assert(part_for(seq![first] + parts, i) == part_for(parts, i - 1));
        }
    }
    assert(all == sum);
}

/// A knob of one node gets one write, to its path and with the value as it stands; a
/// frequency is still to be converted, anything else is written once.
pub proof fn law_one_node_gets_the_value(path: Seq<char>, kind: KindView, value: Seq<char>)
    requires
        kind is Text || kind is CpuFreq,
    ensures
        jobs_of(path, kind, value).len() == 1,
        jobs_of(path, kind, value)[0].path == path,
        jobs_of(path, kind, value)[0].value == value,
        jobs_of(path, kind, value)[0].mode == WriteMode::Ghz <==> kind is CpuFreq,
        jobs_of(path, kind, value)[0].mode == WriteMode::Once <==> kind is Text,
{
}

/// A knob is found under its name, with its own path, and only names of the configuration
/// are found.
pub proof fn law_knobs_are_found_by_name(
    paths: Seq<(Seq<char>, Seq<char>)>,
    leaders: Seq<u32>,
    all_cpus: Seq<u32>,
    i: int,
    name: Seq<char>,
    value: Seq<char>,
)
    requires
        strmap::distinct_keys(paths),
        0 <= i < paths.len(),
    ensures
        ({
            let knobs = knobs_of(paths, leaders, all_cpus);
            let (own, path) = paths[i];
            &&& jobs_for(knobs, own, value) == jobs_of(
                path,
                inferred(own, outside::lowered(own), path, leaders, all_cpus),
                value,
            )
            &&& !strmap::has_key(paths, name) ==> jobs_for(knobs, name, value).len() == 0
        }),
{
    let knobs = knobs_of(paths, leaders, all_cpus);
    assert(strmap::distinct_keys(knobs)) by {
        assert forall|k: int, l: int| 0 <= k < l < knobs.len() implies (#[trigger] knobs[k]).0 != (
        #[trigger] knobs[l]).0 by {
            assert(paths[k].0 != paths[l].0);
        }
    }
    strmap::law_key_reads_its_value(knobs, i);
    if strmap::has_key(knobs, name) {
        let k = strmap::key_index(knobs, name);
        assert(paths[k].0 == name);
    }
}

/// A batch is done part by part, in order.
pub proof fn law_batches_are_put_together(
    knobs: Seq<(Seq<char>, KnobView)>,
    a: Seq<(Seq<char>, Seq<char>)>,
    b: Seq<(Seq<char>, Seq<char>)>,
    name: Seq<char>,
    value: Seq<char>,
)
    ensures
        jobs_for_all(knobs, a + b) == jobs_for_all(knobs, a) + jobs_for_all(knobs, b),
        jobs_for_all(knobs, seq![(name, value)]) == jobs_for(knobs, name, value),
    decreases b.len(),
{
    let one = seq![(name, value)];
    assert(one.drop_last() == Seq::<(Seq<char>, Seq<char>)>::empty());
    assert(jobs_for_all(knobs, one.drop_last()) == Seq::<JobView>::empty());
    assert(jobs_for_all(knobs, one) == jobs_for(knobs, name, value));
    if b.len() == 0 {
        assert(a + b == a);
        assert(jobs_for_all(knobs, a) + jobs_for_all(knobs, b) == jobs_for_all(knobs, a));
    } else {
        law_batches_are_put_together(knobs, a, b.drop_last(), name, value);
        assert((a + b).drop_last() == a + b.drop_last());
        assert((a + b).last() == b.last());
        let last = jobs_for(knobs, b.last().0, b.last().1);
        assert(jobs_for_all(knobs, a) + (jobs_for_all(knobs, b.drop_last()) + last) == (
        jobs_for_all(knobs, a) + jobs_for_all(knobs, b.drop_last())) + last);
    }
}

/// A value that a node is not known to have is handed out, and a frequency that is not
/// converted yet is in any case.
pub proof fn law_new_values_are_written(
    cache: Map<Seq<char>, Seq<char>>,
    job: JobView,
    rest: Seq<JobView>,
)
    requires
        !cache.contains_key(job.path) || cache[job.path] != job.value || job.mode == WriteMode::Ghz,
    ensures
        !redundant(cache, job),
        skip_redundant(cache, seq![job] + rest) == seq![job] + rest,
{
    assert((seq![job] + rest)[0] == job);
}

/// A frequency is written to the node it was meant for, as a number that reads as what it
/// was converted to, and with a second try; it is left out exactly where the node is known
/// to have that number, or where there is none.
pub proof fn law_converted_frequency(cache: Map<Seq<char>, Seq<char>>, job: JobView, khz: u64)
    ensures
        converted(cache, job, None) is None,
        converted(cache, job, Some(khz)) matches Some(j) ==> j.path == job.path && j.mode
            == WriteMode::First && j.value == text::decimal(khz as nat) && text::parsed(
            j.value,
            u64::MAX as nat,
        ) == Some(khz as nat) && !(
        cache.contains_key(job.path) && cache[job.path] == j.value),
        converted(cache, job, Some(khz)) is None ==> cache.contains_key(job.path) && text::parsed(
            cache[job.path],
            u64::MAX as nat,
        ) == Some(khz as nat),
{
    text::law_decimal_reads_back(khz as nat, u64::MAX as nat);
}

/// Only a first try that failed is followed by another.
pub proof fn law_only_first_tries_are_repeated(job: JobView, ok: bool)
    ensures
        follow_up(job, ok) is Some <==> job.mode == WriteMode::First && !ok,
        follow_up(job, ok) matches Some(again) ==> again.mode == WriteMode::Second,
{
}

/// A processor's limit goes to the processor's own node, as a number that reads as the
/// limit, and with a second try.
pub proof fn law_limits_have_their_own_nodes(cpu: nat, other: nat, khz: nat)
    ensures
        limit_job(cpu, khz).path == "/sys/devices/system/cpu/cpu"@ + text::decimal(cpu)
            + "/cpufreq/scaling_max_freq"@,
        limit_job(cpu, khz).mode == WriteMode::First,
        limit_job(cpu, khz).value == text::decimal(khz),
        text::parsed(limit_job(cpu, khz).value, khz) == Some(khz),
        cpu != other ==> limit_job(cpu, khz).path != limit_job(other, khz).path,
{
    text::law_decimal_reads_back(khz, khz);
    let a = limit_path(cpu);
    let b = limit_path(other);
    if a == b {
        let front = "/sys/devices/system/cpu/cpu"@.len() as int;
        let back = "/cpufreq/scaling_max_freq"@.len() as int;
        assert(a.subrange(front, a.len() - back) == text::decimal(cpu));
        assert(b.subrange(front, b.len() - back) == text::decimal(other));
        text::law_decimal_reads_back(cpu, cpu + other);
        text::law_decimal_reads_back(other, cpu + other);
    }
}

/// Writes and knobs stand for their paths, values and kinds.
pub proof fn law_writes_stand_for_their_parts(jobs: Seq<WriteJob>, i: int, knob: Knob)
    requires
        0 <= i < jobs.len(),
    ensures
        job_views(jobs).len() == jobs.len(),
        job_views(jobs)[i].path == jobs[i].path@,
        job_views(jobs)[i].value == jobs[i].value@,
        job_views(jobs)[i].mode == jobs[i].mode,
        knob@.path == knob.path@,
        knob@.kind == match knob.kind {
            KnobKind::String => KindView::Text,
            KnobKind::CpuFreq => KindView::CpuFreq,
            KnobKind::PerCluster { leaders } => KindView::PerCluster(leaders@),
            KnobKind::PerCpu { cpus } => KindView::PerCpu(cpus@),
        },
{
}

/// The knobs of a configuration keep their names and paths, at their places.
pub proof fn law_knobs_keep_names_and_paths(
    paths: Seq<(Seq<char>, Seq<char>)>,
    leaders: Seq<u32>,
    all_cpus: Seq<u32>,
    i: int,
)
    requires
        0 <= i < paths.len(),
    ensures
        knobs_of(paths, leaders, all_cpus).len() == paths.len(),
        knobs_of(paths, leaders, all_cpus)[i].0 == paths[i].0,
        knobs_of(paths, leaders, all_cpus)[i].1.path == paths[i].1,
{
}

} // verus!
