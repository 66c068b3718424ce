//! Processor clusters, their load and their frequency limits.
use crate::config::{ClusterPowerModel, CpuInitials, CpuModule};
use crate::double::Double;
use crate::strmap;
use crate::strmap::StrMap;
use crate::sysfs;
use crate::sysfs::SysfsWriter;
use crate::text;
use vstd::prelude::*;
use vstd::string::*;

verus! {

/// Whether the name of a mask is that of a cluster: a `c` and a number.
pub open spec fn is_cluster_name(name: Seq<char>) -> bool {
    name.len() > 0 && name[0] == 'c' && text::parsed(name.drop_first(), u32::MAX as nat) is Some
}

/// The number of a cluster.
pub open spec fn cluster_number(name: Seq<char>) -> nat {
    text::parsed(name.drop_first(), u32::MAX as nat)->0
}

/// Whether the mask at place `a` comes before the one at place `b`: by the numbers of
/// their clusters, and by their places where those are equal.
pub open spec fn comes_before(masks: Seq<(Seq<char>, Vec<u32>)>, a: usize, b: usize) -> bool {
    let x = cluster_number(masks[a as int].0);
    let y = cluster_number(masks[b as int].0);
    x < y || (x == y && a < b)
}

/// Whether `order` holds the places of all cluster masks, and no others, in the order of
/// their numbers.
pub open spec fn is_cluster_order(order: Seq<usize>, masks: Seq<(Seq<char>, Vec<u32>)>) -> bool {
    &&& forall|i: int, j: int| 0 <= i < j < order.len() ==> comes_before(masks, order[i], order[j])
    &&& forall|k: usize|
        #[trigger] order.contains(k) <==> k < masks.len() && is_cluster_name(masks[k as int].0)
}

/// The places of the cluster masks in the order of their numbers.
pub open spec fn cluster_order_of(masks: Seq<(Seq<char>, Vec<u32>)>) -> Seq<usize> {
    choose|order: Seq<usize>| is_cluster_order(order, masks)
}

/// The processors of cluster `i`; none where there are fewer clusters.
pub open spec fn cpus_of(masks: Seq<(Seq<char>, Vec<u32>)>, i: int) -> Seq<u32> {
    let order = cluster_order_of(masks);
    if 0 <= i < order.len() {
        masks[order[i] as int].1@
    } else {
        Seq::empty()
    }
}

/// The first processor of each mask that has one.
pub open spec fn leaders_of(masks: Seq<(Seq<char>, Vec<u32>)>, order: Seq<usize>) -> Seq<u32>
    decreases order.len(),
{
    if order.len() == 0 {
        Seq::empty()
    } else {
        let before = leaders_of(masks, order.drop_last());
        let cpus = masks[order.last() as int].1@;
        if cpus.len() > 0 {
            before.push(cpus[0])
        } else {
            before
        }
    }
}

/// Two orders of the same masks are the same.
pub proof fn law_cluster_order_is_unique(
    a: Seq<usize>,
    b: Seq<usize>,
    masks: Seq<(Seq<char>, Vec<u32>)>,
)
    requires
        is_cluster_order(a, masks),
        is_cluster_order(b, masks),
    ensures
        a == b,
{
    lemma_same_order(a, b, masks);
}

proof fn lemma_same_order(a: Seq<usize>, b: Seq<usize>, masks: Seq<(Seq<char>, Vec<u32>)>)
    requires
        forall|i: int, j: int| 0 <= i < j < a.len() ==> comes_before(masks, a[i], a[j]),
        forall|i: int, j: int| 0 <= i < j < b.len() ==> comes_before(masks, b[i], b[j]),
        forall|k: usize| #[trigger] a.contains(k) <==> b.contains(k),
    ensures
        a == b,
    decreases a.len(),
{
    if a.len() == 0 {
        if b.len() > 0 {
            assert(b.contains(b[0]));
            assert(a.contains(b[0]));
        }
    } else {
        assert(a.contains(a.last()));
        assert(b.contains(a.last()));
        let i = choose|i: int| 0 <= i < b.len() && b[i] == a.last();
        assert(b.contains(b.last()));
        assert(a.contains(b.last()));
        let j = choose|j: int| 0 <= j < a.len() && a[j] == b.last();
        assert(a.last() == b.last()) by {
            if i < b.len() - 1 {
                assert(comes_before(masks, b[i], b[b.len() - 1]));
                if j < a.len() - 1 {
                    assert(comes_before(masks, a[j], a[a.len() - 1]));
                }
            }
        }
        let c = a.drop_last();
        let d = b.drop_last();
        assert forall|k: usize| #[trigger] c.contains(k) <==> d.contains(k) by {
            if c.contains(k) {
                let m = choose|m: int| 0 <= m < c.len() && c[m] == k;
                assert(a[m] == k);
                assert(a.contains(k));
                assert(comes_before(masks, a[m], a[a.len() - 1]));
                let n = choose|n: int| 0 <= n < b.len() && b[n] == k;
                assert(d[n] == k);
            }
            if d.contains(k) {
                let m = choose|m: int| 0 <= m < d.len() && d[m] == k;
                assert(b[m] == k);
                assert(b.contains(k));
                assert(a.contains(k));
                assert(comes_before(masks, b[m], b[b.len() - 1]));
                let n = choose|n: int| 0 <= n < a.len() && a[n] == k;
                assert(c[n] == k);
            }
        }
        lemma_same_order(c, d, masks);
        assert(a == c.push(a.last()));
        assert(b == d.push(b.last()));
    }
}

/// The number of the cluster that a mask name stands for.
pub fn cluster_number_of(name: &str) -> (r: Option<u32>)
    ensures
        r is Some <==> is_cluster_name(name@),
        r matches Some(n) ==> n == cluster_number(name@),
{
    proof {
        reveal_strlit("c");
    }
    match text::strip_prefix(name, "c") {
        Some(rest) => {
            assert(name@.take(1)[0] == name@[0]);
            assert(rest@ == name@.drop_first());
            text::parse_u32(rest)
        },
        None => {
            assert(name@.len() > 0 && name@[0] == 'c' ==> name@.take(1) == "c"@);
            None
        },
    }
}

/// Whether the cluster masks among the first `n` are in order.
spec fn ordered_up_to(order: Seq<usize>, masks: Seq<(Seq<char>, Vec<u32>)>, n: int) -> bool {
    &&& forall|i: int, j: int| 0 <= i < j < order.len() ==> comes_before(masks, order[i], order[j])
    &&& forall|k: usize|
        #[trigger] order.contains(k) <==> k < n && k < masks.len() && is_cluster_name(masks[k as int].0)
}

proof fn lemma_insert_ordered(
    order: Seq<usize>,
    masks: Seq<(Seq<char>, Vec<u32>)>,
    n: usize,
    at: int,
)
    requires
        ordered_up_to(order, masks, n as int),
        n < masks.len(),
        is_cluster_name(masks[n as int].0),
        0 <= at <= order.len(),
        forall|i: int|
            0 <= i < at ==> cluster_number(masks[#[trigger] order[i] as int].0) <= cluster_number(
                masks[n as int].0,
            ),
        forall|i: int|
            at <= i < order.len() ==> cluster_number(masks[#[trigger] order[i] as int].0)
                > cluster_number(masks[n as int].0),
    ensures
        ordered_up_to(order.insert(at, n), masks, n + 1),
{
    let s = order.insert(at, n);
    assert forall|i: int, j: int| 0 <= i < j < s.len() implies comes_before(masks, s[i], s[j]) by {
        if i == at {
            assert(s[j] == order[j - 1]);
        } else if j == at {
            assert(s[i] == order[i]);
            assert(order.contains(order[i]));
        } else {
            let x = if i < at { i } else { i - 1 };
            let y = if j < at { j } else { j - 1 };
            assert(s[i] == order[x] && s[j] == order[y]);
        }
    }
    assert forall|k: usize| #[trigger] s.contains(k) <==> k < n + 1 && k < masks.len() && is_cluster_name(
        masks[k as int].0,
    ) by {
        if s.contains(k) {
            let i = choose|i: int| 0 <= i < s.len() && s[i] == k;
            if i != at {
                let x = if i < at { i } else { i - 1 };
                assert(order[x] == k);
                assert(order.contains(k));
            }
        }
        if k == n {
            assert(s[at] == k);
        } else if order.contains(k) {
            let i = choose|i: int| 0 <= i < order.len() && order[i] == k;
            assert(s[if i < at { i } else { i + 1 }] == k);
        }
    }
}

/// The places of the cluster masks in the order of their numbers.
pub fn cluster_order(cpumask: &StrMap<Vec<u32>>) -> (r: Vec<usize>)
    ensures
        is_cluster_order(r@, cpumask.pairs()),
        r@ == cluster_order_of(cpumask.pairs()),
        forall|i: int| 0 <= i < r@.len() ==> #[trigger] r@[i] < cpumask.pairs().len(),
{
    let n: usize = cpumask.len();
    let ghost masks = cpumask.pairs();
    let mut order: Vec<usize> = Vec::new();
    let mut numbers: Vec<u32> = Vec::new();
    let mut i: usize = 0;
    while i < n
        invariant
            i <= n,
            masks == cpumask.pairs(),
            n == masks.len(),
            ordered_up_to(order@, masks, i as int),
            numbers@.len() == order@.len(),
            forall|k: int|
                0 <= k < order@.len() ==> #[trigger] order@[k] < masks.len() && numbers@[k]
                    == cluster_number(masks[order@[k] as int].0),
        decreases n - i,
    {
        if let Some(number) = cluster_number_of(cpumask.key_at(i)) {
            let mut at: usize = order.len();
            while at > 0 && numbers[at - 1] > number
                invariant
                    at <= order@.len(),
                    numbers@.len() == order@.len(),
                    forall|k: int| at <= k < numbers@.len() ==> numbers@[k] > number,
                decreases at,
            {
                at = at - 1;
            }
            proof {
                assert forall|k: int| 0 <= k < at implies cluster_number(
                    masks[#[trigger] order@[k] as int].0,
                ) <= number by {
                    if k < at - 1 {
                        assert(comes_before(masks, order@[k], order@[at - 1]));
                    }
                }
                lemma_insert_ordered(order@, masks, i, at as int);
            }
            order.insert(at, i);
            numbers.insert(at, number);
        }
        i = i + 1;
    }
    proof {
        assert(is_cluster_order(order@, masks));
        law_cluster_order_is_unique(order@, cluster_order_of(masks), masks);
    }
    order
}

/// The processors of each of the first `count` clusters.
pub fn cluster_layout(count: usize, cpumask: &StrMap<Vec<u32>>) -> (r: Vec<Vec<u32>>)
    ensures
        r@.len() == count,
        forall|i: int| 0 <= i < count ==> (#[trigger] r@[i])@ == cpus_of(cpumask.pairs(), i),
{
    let order: Vec<usize> = cluster_order(cpumask);
    let mut r: Vec<Vec<u32>> = Vec::new();
    let mut i: usize = 0;
    while i < count
        invariant
            i <= count,
            order@ == cluster_order_of(cpumask.pairs()),
            forall|k: int| 0 <= k < order@.len() ==> #[trigger] order@[k] < cpumask.pairs().len(),
            r@.len() == i,
            forall|k: int| 0 <= k < i ==> (#[trigger] r@[k])@ == cpus_of(cpumask.pairs(), k),
        decreases count - i,
    {
        if i < order.len() {
            let cpus: &Vec<u32> = cpumask.value_at(order[i]);
            let copy: Vec<u32> = cpus.clone();
            assert(copy@ == cpus@);
            r.push(copy);
        } else {
            r.push(Vec::new());
        }
        i = i + 1;
    }
    r
}

/// The first processor of each cluster that has one, in order.
pub fn cluster_leaders(cpumask: &StrMap<Vec<u32>>) -> (r: Vec<u32>)
    ensures
        r@ == leaders_of(cpumask.pairs(), cluster_order_of(cpumask.pairs())),
{
    let order: Vec<usize> = cluster_order(cpumask);
    let n: usize = order.len();
    let mut r: Vec<u32> = Vec::new();
    let mut i: usize = 0;
    while i < n
        invariant
            i <= n,
            n == order@.len(),
            forall|k: int| 0 <= k < order@.len() ==> #[trigger] order@[k] < cpumask.pairs().len(),
            r@ == leaders_of(cpumask.pairs(), order@.take(i as int)),
        decreases n - i,
    {
        assert(order@.take(i + 1).drop_last() == order@.take(i as int));
        let cpus: &Vec<u32> = cpumask.value_at(order[i]);
        if cpus.len() > 0 {
            r.push(cpus[0]);
        }
        i = i + 1;
    }
    assert(order@.take(n as int) == order@);
    r
}

/// Every processor: the mask `all`, or the first eight where there is none.
pub open spec fn all_cpus_of(masks: Seq<(Seq<char>, Vec<u32>)>) -> Seq<u32> {
    if strmap::has_key(masks, "all"@) {
        strmap::value_of(masks, "all"@)@
    } else {
        seq![0u32, 1, 2, 3, 4, 5, 6, 7]
    }
}

/// Every processor.
pub fn all_cpus(cpumask: &StrMap<Vec<u32>>) -> (r: Vec<u32>)
    ensures
        r@ == all_cpus_of(cpumask.pairs()),
{
    match cpumask.get("all") {
        Some(cpus) => {
            let r: Vec<u32> = cpus.clone();
            assert(r@ == cpus@);
            r
        },
        None => {
            let r: Vec<u32> = vec![0, 1, 2, 3, 4, 5, 6, 7];
            assert(r@ == seq![0u32, 1, 2, 3, 4, 5, 6, 7]);
            r
        },
    }
}

/// The numbers among some words, in order.
pub open spec fn numbers_in(words: Seq<Seq<char>>) -> Seq<u64>
    decreases words.len(),
{
    if words.len() == 0 {
        Seq::empty()
    } else {
        let before = numbers_in(words.drop_last());
        match text::parsed(words.last(), u64::MAX as nat) {
            Some(n) => before.push(n as u64),
            None => before,
        }
    }
}

/// Whether some numbers do not decrease.
pub open spec fn ascending(s: Seq<u64>) -> bool {
    forall|i: int, j: int| 0 <= i <= j < s.len() ==> s[i] <= s[j]
}

/// Some numbers in ascending order.
pub open spec fn sorted(s: Seq<u64>) -> Seq<u64> {
    s.sort_by(|a: u64, b: u64| a <= b)
}

/// The highest frequency that is not above `target`, or the lowest one where all are.
/// With no frequencies to choose from it is `target` itself.
pub open spec fn snapped(available: Seq<u64>, target: u64) -> u64
    decreases available.len(),
{
    if available.len() == 0 {
        target
    } else if available.last() <= target || available.len() == 1 {
        available.last()
    } else {
        snapped(available.drop_last(), target)
    }
}

/// The sum of some numbers.
pub open spec fn sum_of(s: Seq<u64>) -> nat
    decreases s.len(),
{
    if s.len() == 0 {
        0
    } else {
        sum_of(s.drop_last()) + s.last() as nat
    }
}

/// The time counters of a processor.
#[derive(Debug, Clone, Copy, PartialEq, Eq, Structural)]
pub struct CpuStat {
    pub idle: u64,
    pub total: u64,
}

/// The counters in a line of kernel statistics: a line of one processor, with at least
/// four numbers, of which the fourth and the fifth count idle time. Sums wrap around.
pub open spec fn stat_in(line: Seq<char>) -> Option<CpuStat> {
    let words = text::words(line);
    let numbers = numbers_in(words.skip(1));
    if !text::begins(line, "cpu"@) || words.len() < 5 || words[0] == "cpu"@ || numbers.len() < 4 {
        None
    } else {
        let waiting = if numbers.len() > 4 {
            numbers[4] as int
        } else {
            0
        };
        Some(
            CpuStat {
                idle: ((numbers[3] + waiting) % 0x1_0000_0000_0000_0000) as u64,
                total: (sum_of(numbers) % 0x1_0000_0000_0000_0000) as u64,
            },
        )
    }
}

/// The counters of each processor, in order.
pub open spec fn stats_in(lines: Seq<Seq<char>>) -> Seq<CpuStat>
    decreases lines.len(),
{
    if lines.len() == 0 {
        Seq::empty()
    } else {
        let before = stats_in(lines.drop_last());
        match stat_in(lines.last()) {
            Some(stat) => before.push(stat),
            None => before,
        }
    }
}

/// How busy a processor was between two samples.
#[derive(Debug, Clone, Copy, PartialEq, Eq, Structural)]
pub enum CpuLoad {
    /// There are no counters of it.
    Unknown,
    /// No time passed.
    Quiet,
    /// Of `total` units of time it was idle for `idle`.
    Sampled { idle: u64, total: u64 },
}

/// How busy a cluster was between two samples.
#[derive(Debug)]
pub enum ClusterLoad {
    /// There is nothing to compare with.
    Unsampled,
    /// The load of each of its processors.
    Sampled(Vec<CpuLoad>),
}

/// What a [`ClusterLoad`] stands for.
pub enum LoadView {
    Unsampled,
    Sampled(Seq<CpuLoad>),
}

impl View for ClusterLoad {
    type V = LoadView;

    open spec fn view(&self) -> LoadView {
        match self {
            ClusterLoad::Unsampled => LoadView::Unsampled,
            ClusterLoad::Sampled(loads) => LoadView::Sampled(loads@),
        }
    }
}

/// How much a counter went up, zero where it went down.
pub open spec fn advanced(before: u64, now: u64) -> u64 {
    if now >= before {
        (now - before) as u64
    } else {
        0
    }
}

/// The load of a processor between two samples.
pub open spec fn load_of(before: Seq<CpuStat>, now: Seq<CpuStat>, cpu: u32) -> CpuLoad {
    if cpu >= now.len() {
        CpuLoad::Unknown
    } else {
        let total = advanced(before[cpu as int].total, now[cpu as int].total);
        if total == 0 {
            CpuLoad::Quiet
        } else {
            CpuLoad::Sampled { idle: advanced(before[cpu as int].idle, now[cpu as int].idle), total }
        }
    }
}

/// Whether two samples can be compared.
pub open spec fn comparable(before: Seq<CpuStat>, now: Seq<CpuStat>) -> bool {
    before.len() > 0 && before.len() == now.len()
}

/// The load of a cluster between two samples.
pub open spec fn cluster_load(before: Seq<CpuStat>, now: Seq<CpuStat>, cpus: Seq<u32>) -> LoadView {
    if comparable(before, now) {
        LoadView::Sampled(Seq::new(cpus.len(), |i: int| load_of(before, now, cpus[i])))
    } else {
        LoadView::Unsampled
    }
}

/// The writes of one limit to each of some processors.
pub open spec fn limit_jobs(cpus: Seq<u32>, khz: u64) -> Seq<sysfs::JobView> {
    Seq::new(cpus.len(), |i: int| sysfs::limit_job(cpus[i] as nat, khz as nat))
}

/// The writes of the limit of each cluster to its processors.
pub open spec fn all_limit_jobs(limits: Seq<(Seq<u32>, u64)>) -> Seq<sysfs::JobView>
    decreases limits.len(),
{
    if limits.len() == 0 {
        Seq::empty()
    } else {
        all_limit_jobs(limits.drop_last()) + limit_jobs(limits.last().0, limits.last().1)
    }
}

/// What some limits stand for.
pub open spec fn limit_views(limits: Seq<(Vec<u32>, u64)>) -> Seq<(Seq<u32>, u64)> {
    limits.map_values(|l: (Vec<u32>, u64)| (l.0@, l.1))
}

/// Where the kernel lists the frequencies of a processor.
pub fn freq_table_path(cpu: u32) -> (r: String)
    ensures
        r@ == "/sys/devices/system/cpu/cpu"@ + text::decimal(cpu as nat)
            + "/cpufreq/scaling_available_frequencies"@,
{
    let mut r: String = "/sys/devices/system/cpu/cpu".to_owned();
    r.append(text::decimal_string(cpu as u64).as_str());
    r.append("/cpufreq/scaling_available_frequencies");
    r
}

/// The numbers among the words from `from` on.
fn parse_words(words: &Vec<&str>, from: usize) -> (r: Vec<u64>)
    requires
        from <= words@.len(),
    ensures
        r@ == numbers_in(text::views(words@).skip(from as int)),
{
    let n: usize = words.len();
    let ghost all = text::views(words@).skip(from as int);
    let mut r: Vec<u64> = Vec::new();
    let mut i: usize = from;
    while i < n
        invariant
            from <= i <= n,
            n == words@.len(),
            all == text::views(words@).skip(from as int),
            r@ == numbers_in(all.take(i - from)),
        decreases n - i,
    {
        assert(all.take(i - from + 1).drop_last() == all.take(i - from));
        assert(all.take(i - from + 1).last() == words@[i as int]@);
        if let Some(v) = text::parse_u64(words[i]) {
            r.push(v);
        }
        i = i + 1;
    }
    assert(all.take(n - from) == all);
    r
}

proof fn lemma_insert_multiset(s: Seq<u64>, at: int, v: u64)
    requires
        0 <= at <= s.len(),
    ensures
        s.insert(at, v).to_multiset() == s.to_multiset().insert(v),
{
    broadcast use vstd::seq_lib::group_to_multiset_ensures;

    let t = s.insert(at, v);
    assert(t.remove(at) == s);
    assert(t[at] == v);
    assert(t.contains(v));
    assert(t.to_multiset() == s.to_multiset().insert(v));
}

/// Some numbers, sorted.
fn sorted_numbers(v: &Vec<u64>) -> (r: Vec<u64>)
    ensures
        ascending(r@),
        r@.to_multiset() == v@.to_multiset(),
{
    broadcast use vstd::seq_lib::group_to_multiset_ensures;

    let n: usize = v.len();
    let mut r: Vec<u64> = Vec::new();
    let mut i: usize = 0;
    assert(v@.take(0) == r@);
    while i < n
        invariant
            i <= n,
            n == v@.len(),
            ascending(r@),
            r@.to_multiset() == v@.take(i as int).to_multiset(),
        decreases n - i,
    {
        let x: u64 = v[i];
        let mut at: usize = r.len();
        while at > 0 && r[at - 1] > x
            invariant
                at <= r@.len(),
                forall|k: int| at <= k < r@.len() ==> r@[k] > x,
            decreases at,
        {
            at = at - 1;
        }
        proof {
            lemma_insert_multiset(r@, at as int, x);
            assert(v@.take(i + 1) == v@.take(i as int).push(x));
            vstd::seq_lib::to_multiset_build(v@.take(i as int), x);
        }
        r.insert(at, x);
        i = i + 1;
    }
    assert(v@.take(n as int) == v@);
    r
}

/// The frequencies that a kernel list holds, sorted; words that are no numbers are
/// passed over.
pub fn parse_available_freqs(raw: &str) -> (r: Vec<u64>)
    ensures
        r@ == sorted(numbers_in(text::words(raw@))),
        ascending(r@),
        r@.to_multiset() == numbers_in(text::words(raw@)).to_multiset(),
{
    let words: Vec<&str> = text::split_whitespace(raw);
    let numbers: Vec<u64> = parse_words(&words, 0);
    assert(text::views(words@).skip(0) == text::views(words@));
    let r: Vec<u64> = sorted_numbers(&numbers);
    proof {
        law_order_of_frequencies_is_unique(numbers@, r@);
    }
    r
}

/// The sum of some numbers, wrapping around.
fn wrapping_sum(v: &Vec<u64>) -> (r: u64)
    ensures
        r == sum_of(v@) % 0x1_0000_0000_0000_0000,
{
    let n: usize = v.len();
    let mut r: u64 = 0;
    let mut i: usize = 0;
    while i < n
        invariant
            i <= n,
            n == v@.len(),
            r == sum_of(v@.take(i as int)) % 0x1_0000_0000_0000_0000,
        decreases n - i,
    {
        assert(v@.take(i + 1).drop_last() == v@.take(i as int));
        r = r.wrapping_add(v[i]);
        i = i + 1;
    }
    assert(v@.take(n as int) == v@);
    r
}

/// The counters in a line of kernel statistics.
fn parse_stat_line(line: &str) -> (r: Option<CpuStat>)
    ensures
        r == stat_in(line@),
{
    if !text::starts_with(line, "cpu") {
        return None;
    }
    let words: Vec<&str> = text::split_whitespace(line);
    assert(text::views(words@).len() == words@.len());
    if words.len() < 5 {
        return None;
    }
    assert(text::views(words@)[0] == words@[0]@);
    if text::same(words[0], "cpu") {
        return None;
    }
    let numbers: Vec<u64> = parse_words(&words, 1);
    if numbers.len() < 4 {
        return None;
    }
    let waiting: u64 = if numbers.len() > 4 {
        numbers[4]
    } else {
        0
    };
    Some(CpuStat { idle: numbers[3].wrapping_add(waiting), total: wrapping_sum(&numbers) })
}

/// The counters of each processor in kernel statistics.
pub fn parse_proc_stat(raw: &str) -> (r: Vec<CpuStat>)
    ensures
        r@ == stats_in(text::lines(raw@)),
{
    let lines: Vec<&str> = text::split_lines(raw);
    let ghost all = text::views(lines@);
    let n: usize = lines.len();
    let mut r: Vec<CpuStat> = Vec::new();
    let mut i: usize = 0;
    while i < n
        invariant
            i <= n,
            n == lines@.len(),
            all == text::views(lines@),
            r@ == stats_in(all.take(i as int)),
        decreases n - i,
    {
        assert(all.take(i + 1).drop_last() == all.take(i as int));
        assert(all.take(i + 1).last() == lines@[i as int]@);
        if let Some(stat) = parse_stat_line(lines[i]) {
            r.push(stat);
        }
        i = i + 1;
    }
    assert(all.take(n as int) == all);
    r
}

/// What a cluster's model stands for.
pub struct ClusterView {
    pub cfg: ClusterPowerModel,
    pub cpus: Seq<u32>,
    pub available: Seq<u64>,
}

/// A cluster: its power figures, its processors and the frequencies it can run at.
struct ClusterModel {
    cfg: ClusterPowerModel,
    cpus: Vec<u32>,
    available_khz: Vec<u64>,
}

impl View for ClusterModel {
    type V = ClusterView;

    closed spec fn view(&self) -> ClusterView {
        ClusterView { cfg: self.cfg, cpus: self.cpus@, available: self.available_khz@ }
    }
}

proof fn lemma_snapped_at(available: Seq<u64>, target: u64, n: int)
    requires
        available.len() > 0,
        0 <= n <= available.len(),
        forall|i: int| 0 <= i < n ==> available[i] <= target,
        forall|i: int| n <= i < available.len() ==> available[i] > target,
    ensures
        snapped(available, target) == if n == 0 {
            available[0]
        } else {
            available[n - 1]
        },
    decreases available.len(),
{
    if available.last() > target && available.len() > 1 {
        lemma_snapped_at(available.drop_last(), target, n);
    }
}

impl ClusterModel {
    #[verifier::type_invariant]
    spec fn inv(&self) -> bool {
        ascending(self.available_khz@)
    }

    fn snap_freq(&self, target: u64) -> (r: u64)
        ensures
            r == snapped(self@.available, target),
    {
        proof {
            use_type_invariant(self);
        }
        let n: usize = self.available_khz.len();
        if n == 0 {
            return target;
        }
        let mut lo: usize = 0;
        let mut hi: usize = n;
        while lo < hi
            invariant
                lo <= hi <= n,
                n == self.available_khz@.len(),
                ascending(self.available_khz@),
                forall|i: int| 0 <= i < lo ==> self.available_khz@[i] <= target,
                forall|i: int| hi <= i < n ==> self.available_khz@[i] > target,
            decreases hi - lo,
        {
            let mid: usize = lo + (hi - lo) / 2;
            if self.available_khz[mid] <= target {
                lo = mid + 1;
            } else {
                hi = mid;
            }
        }
        proof {
            lemma_snapped_at(self.available_khz@, target, lo as int);
        }
        if lo == 0 {
            self.available_khz[0]
        } else {
            self.available_khz[lo - 1]
        }
    }
}

/// The frequencies of cluster `i`: those of its list, where it has processors and the
/// list could be read.
pub open spec fn has_table(tables: Seq<Option<String>>, cpus: Seq<u32>, i: int) -> bool {
    cpus.len() > 0 && i < tables.len() && tables[i] is Some
}

/// The model of cluster `i`, where `tables` holds the kernel's list of frequencies of
/// each cluster.
pub open spec fn model_of(
    figures: Seq<ClusterPowerModel>,
    masks: Seq<(Seq<char>, Vec<u32>)>,
    tables: Seq<Option<String>>,
    i: int,
) -> ClusterView {
    ClusterView {
        cfg: figures[i],
        cpus: cpus_of(masks, i),
        available: if has_table(tables, cpus_of(masks, i), i) {
            sorted(numbers_in(text::words(tables[i]->0@)))
        } else {
            Seq::empty()
        },
    }
}

/// The models of the clusters, one for each of the power figures.
pub open spec fn models_of(
    figures: Seq<ClusterPowerModel>,
    masks: Seq<(Seq<char>, Vec<u32>)>,
    tables: Seq<Option<String>>,
) -> Seq<ClusterView> {
    Seq::new(figures.len(), |i: int| model_of(figures, masks, tables, i))
}

/// The models of the clusters.
pub struct PowerModel {
    clusters: Vec<ClusterModel>,
}

impl View for PowerModel {
    type V = Seq<ClusterView>;

    closed spec fn view(&self) -> Seq<ClusterView> {
        self.clusters@.map_values(|c: ClusterModel| c@)
    }
}

/// The limit of each cluster: its processors and the frequency nearest to its target.
pub open spec fn limits_of(clusters: Seq<ClusterView>, targets: Seq<u64>) -> Seq<(Seq<u32>, u64)> {
    Seq::new(
        clusters.len(),
        |i: int| (clusters[i].cpus, snapped(clusters[i].available, targets[i])),
    )
}

impl PowerModel {
    /// The models of the clusters of a configuration. `tables` holds the kernel's list of
    /// frequencies of each cluster, where it could be read.
    pub fn new(module: &CpuModule, cpumask: &StrMap<Vec<u32>>, tables: &Vec<Option<String>>) -> (r: Self)
        ensures
            r@ == models_of(module.power_model@, cpumask.pairs(), tables@),
    {
        let n: usize = module.power_model.len();
        let mut layout: Vec<Vec<u32>> = cluster_layout(n, cpumask);
        let mut clusters: Vec<ClusterModel> = Vec::new();
        let mut i: usize = 0;
        while i < n
            invariant
                i <= n,
                n == module.power_model@.len(),
                layout@.len() == n,
                forall|k: int| 0 <= k < n ==> (#[trigger] layout@[k])@ == cpus_of(cpumask.pairs(), k),
                clusters@.len() == i,
                forall|k: int|
                    0 <= k < i ==> (#[trigger] clusters@[k])@ == model_of(
                        module.power_model@,
                        cpumask.pairs(),
                        tables@,
                        k,
                    ),
            decreases n - i,
        {
            let cpus: Vec<u32> = layout[i].clone();
            assert(cpus@ == layout@[i as int]@);
            let available_khz: Vec<u64> = if cpus.len() > 0 && i < tables.len() {
                match &tables[i] {
                    Some(raw) => parse_available_freqs(raw.as_str()),
                    None => Vec::new(),
                }
            } else {
                Vec::new()
            };
            clusters.push(ClusterModel { cfg: module.power_model[i], cpus, available_khz });
            assert(clusters@[i as int]@ == model_of(
                module.power_model@,
                cpumask.pairs(),
                tables@,
                i as int,
            ));
            i = i + 1;
        }
        let r = PowerModel { clusters };
        assert(r@ == models_of(module.power_model@, cpumask.pairs(), tables@));
        r
    }

    /// The number of clusters.
    pub fn len(&self) -> (r: usize)
        ensures
            r == self@.len(),
    {
        self.clusters.len()
    }

    /// The power figures of a cluster.
    pub fn power_figures(&self, i: usize) -> (r: ClusterPowerModel)
        requires
            i < self@.len(),
        ensures
            r == self@[i as int].cfg,
    {
        self.clusters[i].cfg
    }

    /// The limit of each cluster, where `targets` holds the frequency that its share of
    /// power allows.
    pub fn compute_limits(&self, targets: &Vec<u64>) -> (r: Vec<(Vec<u32>, u64)>)
        requires
            targets@.len() == self@.len(),
        ensures
            limit_views(r@) == limits_of(self@, targets@),
    {
        let n: usize = self.clusters.len();
        let mut r: Vec<(Vec<u32>, u64)> = Vec::new();
        let mut i: usize = 0;
        while i < n
            invariant
                i <= n,
                n == self.clusters@.len(),
                targets@.len() == n,
                r@.len() == i,
                forall|k: int|
                    0 <= k < i ==> (#[trigger] r@[k]).0@ == self@[k].cpus && r@[k].1 == snapped(
                        self@[k].available,
                        targets@[k],
                    ),
            decreases n - i,
        {
            let cpus: Vec<u32> = self.clusters[i].cpus.clone();
            assert(cpus@ == self@[i as int].cpus);
            r.push((cpus, self.clusters[i].snap_freq(targets[i])));
            i = i + 1;
        }
        assert(limit_views(r@) == limits_of(self@, targets@));
        r
    }

    /// The processors of each cluster.
    pub fn cluster_cpus(&self) -> (r: Vec<Vec<u32>>)
        ensures
            r@.len() == self@.len(),
            forall|i: int| 0 <= i < r@.len() ==> (#[trigger] r@[i])@ == self@[i].cpus,
    {
        let n: usize = self.clusters.len();
        let mut r: Vec<Vec<u32>> = Vec::new();
        let mut i: usize = 0;
        while i < n
            invariant
                i <= n,
                n == self.clusters@.len(),
                r@.len() == i,
                forall|k: int| 0 <= k < i ==> (#[trigger] r@[k])@ == self@[k].cpus,
            decreases n - i,
        {
            let cpus: Vec<u32> = self.clusters[i].cpus.clone();
            assert(cpus@ == self@[i as int].cpus);
            r.push(cpus);
            i = i + 1;
        }
        r
    }
}

/// What presets can set of a governor.
#[derive(Debug, Clone, Copy)]
pub struct Tunables {
    /// Power for each cluster, in watts.
    pub max_power: Double,
    /// Headroom above the load.
    pub margin: Double,
    pub limit_eff: bool,
}

/// Sets the frequency limits of the clusters by their load.
pub struct Governor {
    model: PowerModel,
    prev_stats: Vec<CpuStat>,
    tunables: Tunables,
}

fn load_of_cpu(before: &Vec<CpuStat>, now: &Vec<CpuStat>, cpu: u32) -> (r: CpuLoad)
    requires
        before@.len() == now@.len(),
    ensures
        r == load_of(before@, now@, cpu),
{
    let i: usize = cpu as usize;
    if i >= now.len() {
        return CpuLoad::Unknown;
    }
    let total: u64 = now[i].total.saturating_sub(before[i].total);
    let idle: u64 = now[i].idle.saturating_sub(before[i].idle);
    if total == 0 {
        CpuLoad::Quiet
    } else {
        CpuLoad::Sampled { idle, total }
    }
}

fn loads_of_cpus(before: &Vec<CpuStat>, now: &Vec<CpuStat>, cpus: &Vec<u32>) -> (r: Vec<CpuLoad>)
    requires
        before@.len() == now@.len(),
    ensures
        r@ == Seq::new(cpus@.len(), |i: int| load_of(before@, now@, cpus@[i])),
{
    let n: usize = cpus.len();
    let mut r: Vec<CpuLoad> = Vec::new();
    let mut i: usize = 0;
    while i < n
        invariant
            i <= n,
            n == cpus@.len(),
            before@.len() == now@.len(),
            r@.len() == i,
            forall|k: int| 0 <= k < i ==> #[trigger] r@[k] == load_of(before@, now@, cpus@[k]),
        decreases n - i,
    {
        r.push(load_of_cpu(before, now, cpus[i]));
        i = i + 1;
    }
    assert(r@ == Seq::new(cpus@.len(), |i: int| load_of(before@, now@, cpus@[i])));
    r
}

impl Governor {
    /// The models of the clusters.
    pub closed spec fn clusters(&self) -> Seq<ClusterView> {
        self.model@
    }

    /// The last sample.
    pub closed spec fn sample(&self) -> Seq<CpuStat> {
        self.prev_stats@
    }

    /// What presets can set.
    pub closed spec fn tuned(&self) -> Tunables {
        self.tunables
    }

    /// A governor without a sample.
    pub fn new(model: PowerModel, init: &CpuInitials) -> (r: Self)
        ensures
            r.clusters() == model@,
            r.sample() == Seq::<CpuStat>::empty(),
            r.tuned() == (Tunables {
                max_power: init.fast_limit_power,
                margin: init.margin,
                limit_eff: init.limit_efficiency,
            }),
    {
        Governor {
            model,
            prev_stats: Vec::new(),
            tunables: Tunables {
                max_power: init.fast_limit_power,
                margin: init.margin,
                limit_eff: init.limit_efficiency,
            },
        }
    }

    /// What presets can set.
    pub fn tunables(&self) -> (r: Tunables)
        ensures
            r == self.tuned(),
    {
        self.tunables
    }

    /// Sets what presets can set.
    pub fn set_tunables(&mut self, tunables: Tunables)
        ensures
            final(self).tuned() == tunables,
            final(self).clusters() == old(self).clusters(),
            final(self).sample() == old(self).sample(),
    {
        self.tunables = tunables;
    }

    /// The models of the clusters.
    pub fn model(&self) -> (r: &PowerModel)
        ensures
            r@ == self.clusters(),
    {
        &self.model
    }

    /// The load of each cluster since the last sample.
    fn compute_utils(&self, current: &Vec<CpuStat>) -> (r: Vec<ClusterLoad>)
        ensures
            r@.len() == self.clusters().len(),
            forall|i: int|
                0 <= i < r@.len() ==> (#[trigger] r@[i])@ == cluster_load(
                    self.sample(),
                    current@,
                    self.clusters()[i].cpus,
                ),
    {
        let compare: bool = self.prev_stats.len() > 0 && current.len() == self.prev_stats.len();
        let cpus: Vec<Vec<u32>> = self.model.cluster_cpus();
        let n: usize = cpus.len();
        let mut r: Vec<ClusterLoad> = Vec::new();
        let mut i: usize = 0;
        while i < n
            invariant
                i <= n,
                n == cpus@.len(),
                n == self.clusters().len(),
                compare == comparable(self.sample(), current@),
                forall|k: int| 0 <= k < n ==> (#[trigger] cpus@[k])@ == self.clusters()[k].cpus,
                r@.len() == i,
                forall|k: int|
                    0 <= k < i ==> (#[trigger] r@[k])@ == cluster_load(
                        self.sample(),
                        current@,
                        self.clusters()[k].cpus,
                    ),
            decreases n - i,
        {
            if compare {
                r.push(ClusterLoad::Sampled(loads_of_cpus(&self.prev_stats, current, &cpus[i])));
            } else {
                r.push(ClusterLoad::Unsampled);
            }
            i = i + 1;
        }
        r
    }

    /// Takes a new sample. Returns the load of each cluster since the last one.
    pub fn observe(&mut self, stats: Vec<CpuStat>) -> (r: Vec<ClusterLoad>)
        ensures
            r@.len() == old(self).clusters().len(),
            forall|i: int|
                0 <= i < r@.len() ==> (#[trigger] r@[i])@ == cluster_load(
                    old(self).sample(),
                    stats@,
                    old(self).clusters()[i].cpus,
                ),
            final(self).sample() == stats@,
            final(self).clusters() == old(self).clusters(),
            final(self).tuned() == old(self).tuned(),
    {
        let r: Vec<ClusterLoad> = self.compute_utils(&stats);
        self.prev_stats = stats;
        r
    }

    /// Asks for the limit of each cluster to be written to its processors, where
    /// `targets` holds the frequency that its share of power allows.
    pub fn apply(&self, targets: &Vec<u64>, writer: &mut SysfsWriter)
        requires
            targets@.len() == self.clusters().len(),
        ensures
            final(writer).queue() == old(writer).queue() + all_limit_jobs(
                limits_of(self.clusters(), targets@),
            ),
            final(writer).knobs() == old(writer).knobs(),
            final(writer).cache() == old(writer).cache(),
    {
        let limits: Vec<(Vec<u32>, u64)> = self.model.compute_limits(targets);
        let ghost views = limit_views(limits@);
        let n: usize = limits.len();
        let mut i: usize = 0;
        assert(writer.queue() == old(writer).queue() + all_limit_jobs(views.take(0)));
        while i < n
            invariant
                i <= n,
                n == limits@.len(),
                views == limit_views(limits@),
                writer.queue() == old(writer).queue() + all_limit_jobs(views.take(i as int)),
                writer.knobs() == old(writer).knobs(),
                writer.cache() == old(writer).cache(),
            decreases n - i,
        {
            let cpus: &Vec<u32> = &limits[i].0;
            let khz: u64 = limits[i].1;
            let m: usize = cpus.len();
            let ghost start = writer.queue();
            let ghost jobs = limit_jobs(cpus@, khz);
            let mut j: usize = 0;
            assert(start == start + jobs.take(0));
            while j < m
                invariant
                    j <= m,
                    m == cpus@.len(),
                    jobs == limit_jobs(cpus@, khz),
                    writer.queue() == start + jobs.take(j as int),
                    writer.knobs() == old(writer).knobs(),
                    writer.cache() == old(writer).cache(),
                decreases m - j,
            {
                writer.write_freq_limit(cpus[j], khz);
                assert(jobs.take(j + 1) == jobs.take(j as int).push(jobs[j as int]));
                assert(writer.queue() == start + jobs.take(j + 1));
                j = j + 1;
            }
            assert(jobs.take(m as int) == jobs);
            assert(views.take(i + 1).drop_last() == views.take(i as int));
            assert(views.take(i + 1).last() == (cpus@, khz));
            assert(writer.queue() == old(writer).queue() + all_limit_jobs(views.take(i + 1)));
            i = i + 1;
        }
        assert(views.take(n as int) == views);
    }
}

/// Some numbers have one ascending order.
pub proof fn law_order_of_frequencies_is_unique(s: Seq<u64>, r: Seq<u64>)
    ensures
        ascending(sorted(s)),
        sorted(s).to_multiset() == s.to_multiset(),
        ascending(r) && r.to_multiset() == s.to_multiset() ==> r == sorted(s),
{
    let leq = |a: u64, b: u64| a <= b;
    s.lemma_sort_by_ensures(leq);
    assert forall|i: int, j: int| 0 <= i <= j < sorted(s).len() implies sorted(s)[i] <= sorted(s)[j] by {
        if i < j {
            assert(leq(sorted(s)[i], sorted(s)[j]));
        }
    }
    if ascending(r) && r.to_multiset() == s.to_multiset() {
        vstd::seq_lib::lemma_sorted_unique(r, sorted(s), leq);
    }
}

/// The frequency chosen is the highest one that is not above the target; where all are
/// above it, the lowest one.
pub proof fn law_snapping_rounds_down(available: Seq<u64>, target: u64)
    requires
        available.len() > 0,
        ascending(available),
    ensures
        available.contains(snapped(available, target)),
        available[0] <= target ==> snapped(available, target) <= target,
        available[0] > target ==> snapped(available, target) == available[0],
        forall|f: u64| #[trigger] available.contains(f) && f <= target ==> f <= snapped(available, target),
    decreases available.len(),
{
    if available.last() <= target || available.len() == 1 {
        assert(available[available.len() - 1] == snapped(available, target));
    } else {
        let rest = available.drop_last();
        law_snapping_rounds_down(rest, target);
        let k = choose|k: int| 0 <= k < rest.len() && rest[k] == snapped(rest, target);
        assert(available[k] == snapped(available, target));
        assert forall|f: u64| #[trigger] available.contains(f) && f <= target implies f <= snapped(
            available,
            target,
        ) by {
            let j = choose|j: int| 0 <= j < available.len() && available[j] == f;
            assert(j < rest.len());
            assert(rest[j] == f);
            assert(rest.contains(f));
        }
    }
}

/// A higher target never leads to a lower limit.
pub proof fn law_limits_grow_with_targets(available: Seq<u64>, a: u64, b: u64)
    requires
        ascending(available),
        a <= b,
    ensures
        snapped(available, a) <= snapped(available, b),
    decreases available.len(),
{
    if available.len() > 0 {
        law_snapping_rounds_down(available, a);
        law_snapping_rounds_down(available, b);
        if available[0] > b {
        } else if available[0] > a {
            assert(available.contains(available[0]));
        } else {
            assert(available.contains(snapped(available, a)));
        }
    }
}

/// Every processor of every cluster gets a write of its cluster's limit, and there are
/// no more writes than processors.
pub proof fn law_each_cpu_gets_its_limit(limits: Seq<(Seq<u32>, u64)>, i: int, j: int)
    requires
        0 <= i < limits.len(),
        0 <= j < limits[i].0.len(),
    ensures
        all_limit_jobs(limits).contains(sysfs::limit_job(limits[i].0[j] as nat, limits[i].1 as nat)),
        all_limit_jobs(limits).len() == all_limit_jobs(limits.drop_last()).len()
            + limits.last().0.len(),
    decreases limits.len(),
{
    let before = all_limit_jobs(limits.drop_last());
    let jobs = limit_jobs(limits.last().0, limits.last().1);
    let all = all_limit_jobs(limits);
    if i == limits.len() - 1 {
        assert(all[before.len() + j] == jobs[j]);
    } else {
        law_each_cpu_gets_its_limit(limits.drop_last(), i, j);
        let job = sysfs::limit_job(limits[i].0[j] as nat, limits[i].1 as nat);
        let k = choose|k: int| 0 <= k < before.len() && before[k] == job;
        assert(all[k] == job);
    }
}

/// A sampled load has passed time to be set against.
pub proof fn law_sampled_load_has_time(before: Seq<CpuStat>, now: Seq<CpuStat>, cpu: u32)
    ensures
        load_of(before, now, cpu) matches CpuLoad::Sampled { idle, total } ==> total > 0 && cpu
            < now.len(),
{
}

/// A line of kernel statistics with the given first word and counters.
pub open spec fn counters_line(first: Seq<char>, counters: Seq<u64>) -> Seq<char>
    decreases counters.len(),
{
    if counters.len() == 0 {
        first
    } else {
        counters_line(first, counters.drop_last()).push(' ') + text::decimal(
            counters.last() as nat,
        )
    }
}

/// Numbers are read word by word, in order; a word that is no number is passed over.
pub proof fn law_numbers_among_words(a: Seq<Seq<char>>, b: Seq<Seq<char>>, n: u64, w: Seq<char>)
    ensures
        numbers_in(a + b) == numbers_in(a) + numbers_in(b),
        numbers_in(seq![text::decimal(n as nat)]) == seq![n],
        text::parsed(w, u64::MAX as nat) is None ==> numbers_in(seq![w]).len() == 0,
    decreases b.len(),
{
    let one = seq![text::decimal(n as nat)];
    let other = seq![w];
    text::law_decimal_reads_back(n as nat, u64::MAX as nat);
    assert(one.drop_last() == Seq::<Seq<char>>::empty());
    assert(other.drop_last() == Seq::<Seq<char>>::empty());
    assert(numbers_in(Seq::<Seq<char>>::empty()) == Seq::<u64>::empty());
    assert(numbers_in(one) == seq![n]);
    if b.len() == 0 {
        assert(a + b == a);
        assert(numbers_in(a) + numbers_in(b) == numbers_in(a));
    } else {
        law_numbers_among_words(a, b.drop_last(), n, w);
        assert((a + b).drop_last() == a + b.drop_last());
        assert((a + b).last() == b.last());
        assert(numbers_in(a + b) == numbers_in(a) + numbers_in(b));
    }
}

proof fn lemma_counters_line(first: Seq<char>, counters: Seq<u64>)
    requires
        first.len() > 0,
        forall|i: int| 0 <= i < first.len() ==> !text::is_space(#[trigger] first[i]),
    ensures
        text::words(counters_line(first, counters)).len() == counters.len() + 1,
        text::words(counters_line(first, counters))[0] == first,
        numbers_in(text::words(counters_line(first, counters)).skip(1)) == counters,
        text::begins(counters_line(first, counters), "cpu"@) == text::begins(first, "cpu"@)
            || first.len() < "cpu"@.len(),
    decreases counters.len(),
{
    let line = counters_line(first, counters);
    if counters.len() == 0 {
        text::law_one_word(first);
        assert(seq![first].skip(1) == Seq::<Seq<char>>::empty());
        assert(numbers_in(text::words(line).skip(1)) == counters);
    } else {
        let rest = counters.drop_last();
        let before = counters_line(first, rest);
        let n = counters.last();
        let last = text::decimal(n as nat);
        lemma_counters_line(first, rest);
        lemma_line_is_long(first, rest);
        text::law_decimal_digits(n as nat, 0);
        text::law_white_space(' ');
        assert forall|i: int| 0 <= i < last.len() implies !text::is_space(#[trigger] last[i]) by {
            assert('0' <= last[i] && last[i] <= '9');
        }
        text::law_one_word(last);
        text::law_words_are_separated(before, ' ', last);
        let w = text::words(before);
        assert(text::words(line) == w + seq![last]);
        assert((w + seq![last]).skip(1) == w.skip(1) + seq![last]);
        law_numbers_among_words(w.skip(1), seq![last], n, last);
        assert(numbers_in(text::words(line).skip(1)) == rest + seq![n]);
        assert(rest + seq![n] == counters);
        if first.len() >= "cpu"@.len() {
            assert(line.take("cpu"@.len() as int) == before.take("cpu"@.len() as int));
        }
    }
}

proof fn lemma_line_is_long(first: Seq<char>, counters: Seq<u64>)
    ensures
        counters_line(first, counters).len() >= first.len(),
    decreases counters.len(),
{
    if counters.len() > 0 {
        lemma_line_is_long(first, counters.drop_last());
    }
}

/// The idle time of a processor is its fourth counter plus its fifth, where there is one,
/// however many follow; fewer than four counters are no statistics. Its whole time is what
/// all counters add up to. Both wrap around at 2^64.
pub proof fn law_counters_of_a_processor(first: Seq<char>, counters: Seq<u64>)
    requires
        text::begins(first, "cpu"@),
        first != "cpu"@,
        forall|i: int| 0 <= i < first.len() ==> !text::is_space(#[trigger] first[i]),
    ensures
        ({
            let stat = stat_in(counters_line(first, counters));
            &&& stat is Some <==> counters.len() >= 4
            &&& counters.len() == 4 ==> stat->0.idle == counters[3]
            &&& counters.len() > 4 ==> stat->0.idle == (counters[3] + counters[4])
                % 0x1_0000_0000_0000_0000
            &&& counters.len() == 4 ==> stat->0.total == (counters[0] + counters[1] + counters[2]
                + counters[3]) % 0x1_0000_0000_0000_0000
        }),
{
    reveal_strlit("cpu");
    lemma_counters_line(first, counters);
    assert("cpu"@.len() == 3);
    if counters.len() == 4 {
        let c = counters;
        assert(c.drop_last().drop_last().drop_last().drop_last() == Seq::<u64>::empty());
        reveal_with_fuel(sum_of, 5);
        assert(sum_of(c) == c[0] + c[1] + c[2] + c[3]);
    }
}

/// A further counter adds to the whole time of a processor, and changes the idle time only
/// where it is the fifth.
pub proof fn law_further_counters_are_not_idle_time(
    first: Seq<char>,
    counters: Seq<u64>,
    further: u64,
)
    requires
        text::begins(first, "cpu"@),
        first != "cpu"@,
        forall|i: int| 0 <= i < first.len() ==> !text::is_space(#[trigger] first[i]),
        counters.len() >= 4,
    ensures
        ({
            let stat = stat_in(counters_line(first, counters));
            let more = stat_in(counters_line(first, counters.push(further)));
            &&& stat is Some && more is Some
            &&& counters.len() >= 5 ==> more->0.idle == stat->0.idle
            &&& counters.len() == 4 ==> more->0.idle == (stat->0.idle + further)
                % 0x1_0000_0000_0000_0000
            &&& more->0.total == (stat->0.total + further) % 0x1_0000_0000_0000_0000
        }),
{
    reveal_strlit("cpu");
    lemma_counters_line(first, counters);
    lemma_counters_line(first, counters.push(further));
    assert(counters.push(further).drop_last() == counters);
    assert("cpu"@.len() == 3);
}

/// A counter that is neither the fourth nor the fifth does not contribute to the idle time,
/// whatever its value.
pub proof fn law_only_two_counters_are_idle_time(
    first: Seq<char>,
    counters: Seq<u64>,
    i: int,
    value: u64,
)
    requires
        text::begins(first, "cpu"@),
        first != "cpu"@,
        forall|k: int| 0 <= k < first.len() ==> !text::is_space(#[trigger] first[k]),
        counters.len() >= 4,
        0 <= i < counters.len(),
        i != 3,
        i != 4,
    ensures
        stat_in(counters_line(first, counters.update(i, value)))->0.idle == stat_in(
            counters_line(first, counters),
        )->0.idle,
{
    law_counters_of_a_processor(first, counters);
    law_counters_of_a_processor(first, counters.update(i, value));
}

/// The line of all processors together does not count, nor does a line of anything else.
pub proof fn law_other_lines_do_not_count(counters: Seq<u64>, line: Seq<char>)
    ensures
        stat_in(counters_line("cpu"@, counters)) is None,
        !text::begins(line, "cpu"@) ==> stat_in(line) is None,
{
    reveal_strlit("cpu");
    assert forall|i: int| 0 <= i < "cpu"@.len() implies !text::is_space(#[trigger] "cpu"@[i]) by {
        assert("cpu"@[0] == 'c' && "cpu"@[1] == 'p' && "cpu"@[2] == 'u');
    }
    lemma_counters_line("cpu"@, counters);
}

/// The statistics of some lines are those of each of them, in order.
pub proof fn law_statistics_keep_the_order(
    a: Seq<Seq<char>>,
    b: Seq<Seq<char>>,
    line: Seq<char>,
)
    ensures
        stats_in(a + b) == stats_in(a) + stats_in(b),
        stat_in(line) matches Some(stat) ==> stats_in(seq![line]) == seq![stat],
        stat_in(line) is None ==> stats_in(seq![line]).len() == 0,
    decreases b.len(),
{
    let one = seq![line];
    assert(one.drop_last() == Seq::<Seq<char>>::empty());
    assert(stats_in(Seq::<Seq<char>>::empty()) == Seq::<CpuStat>::empty());
    if let Some(stat) = stat_in(line) {
        assert(stats_in(one) == seq![stat]);
    }
    if b.len() == 0 {
        assert(a + b == a);
        assert(stats_in(a) + stats_in(b) == stats_in(a));
    } else {
        law_statistics_keep_the_order(a, b.drop_last(), line);
        assert((a + b).drop_last() == a + b.drop_last());
        assert((a + b).last() == b.last());
        assert(stats_in(a + b) == stats_in(a) + stats_in(b));
    }
}

/// The load of a processor is what its counters went up by: of the time that passed, the
/// part that was idle. A processor without counters has no load, one whose time did not go
/// on is quiet.
pub proof fn law_load_is_the_difference(before: Seq<CpuStat>, now: Seq<CpuStat>, cpu: u32)
    ensures
        load_of(before, now, cpu) == CpuLoad::Unknown <==> cpu >= now.len(),
        cpu < now.len() ==> (load_of(before, now, cpu) == CpuLoad::Quiet <==> now[cpu as int].total
            <= before[cpu as int].total),
        load_of(before, now, cpu) matches CpuLoad::Sampled { idle, total } ==> before[cpu as int].total
            + total == now[cpu as int].total && (before[cpu as int].idle <= now[cpu as int].idle
            ==> before[cpu as int].idle + idle == now[cpu as int].idle) && (before[cpu as int].idle
            > now[cpu as int].idle ==> idle == 0),
{
}

/// A cluster is sampled exactly where there is a sample before of as many processors; its
/// load is then that of each of its own processors, in order.
pub proof fn law_load_of_a_cluster(
    before: Seq<CpuStat>,
    now: Seq<CpuStat>,
    cpus: Seq<u32>,
    i: int,
)
    requires
        0 <= i < cpus.len(),
    ensures
        cluster_load(before, now, cpus) is Sampled <==> before.len() > 0 && before.len() == now.len(),
        cluster_load(before, now, cpus) matches LoadView::Sampled(loads) ==> loads.len() == cpus.len()
            && loads[i] == load_of(before, now, cpus[i]),
{
}

/// A mask is that of a cluster exactly where its name is a `c` and a number; the number is
/// then the cluster's.
pub proof fn law_names_of_clusters(n: u32, name: Seq<char>)
    ensures
        is_cluster_name(seq!['c'] + text::decimal(n as nat)),
        cluster_number(seq!['c'] + text::decimal(n as nat)) == n,
        is_cluster_name(name) ==> name.len() > 1 && name[0] == 'c',
        is_cluster_name(name) ==> text::parsed(name.skip(1), u32::MAX as nat) == Some(
            cluster_number(name),
        ),
{
    let s = seq!['c'] + text::decimal(n as nat);
    assert(s.drop_first() == text::decimal(n as nat));
    text::law_decimal_reads_back(n as nat, u32::MAX as nat);
    if is_cluster_name(name) {
        assert(name.drop_first() == name.skip(1));
        text::law_reading_numbers(name.drop_first(), '0', u32::MAX as nat);
    }
}

/// Clusters come in the order of their numbers, each of them once, and cluster by cluster
/// have the processors of their masks.
pub proof fn law_clusters_come_by_number(
    masks: Seq<(Seq<char>, Vec<u32>)>,
    order: Seq<usize>,
    i: int,
    j: int,
    place: usize,
)
    requires
        is_cluster_order(order, masks),
        0 <= i < order.len(),
        0 <= j < order.len(),
    ensures
        cluster_number(masks[order[i] as int].0) < cluster_number(masks[order[j] as int].0) ==> i < j,
        cluster_number(masks[order[i] as int].0) == cluster_number(masks[order[j] as int].0)
            && order[i] < order[j] ==> i < j,
        order[i] == order[j] ==> i == j,
        is_cluster_name(masks[order[i] as int].0),
        place < masks.len() && is_cluster_name(masks[place as int].0) ==> order.contains(place),
        cpus_of(masks, i) == masks[order[i] as int].1@,
        cpus_of(masks, order.len() as int).len() == 0,
{
    law_cluster_order_is_unique(order, cluster_order_of(masks), masks);
    assert(order.contains(order[i]));
    if j < i {
        assert(comes_before(masks, order[j], order[i]));
    }
    if i < j {
        assert(comes_before(masks, order[i], order[j]));
    }
}

/// The leaders are the first processors of the clusters, in order; a cluster without
/// processors has none.
pub proof fn law_leaders_are_first(
    masks: Seq<(Seq<char>, Vec<u32>)>,
    a: Seq<usize>,
    b: Seq<usize>,
    place: usize,
)
    ensures
        leaders_of(masks, a + b) == leaders_of(masks, a) + leaders_of(masks, b),
        masks[place as int].1@.len() > 0 ==> leaders_of(masks, seq![place]) == seq![
            masks[place as int].1@[0],
        ],
        masks[place as int].1@.len() == 0 ==> leaders_of(masks, seq![place]).len() == 0,
    decreases b.len(),
{
    let one = seq![place];
    assert(one.drop_last() == Seq::<usize>::empty());
    assert(one.last() == place);
    assert(leaders_of(masks, Seq::<usize>::empty()) == Seq::<u32>::empty());
    if masks[place as int].1@.len() > 0 {
        assert(leaders_of(masks, one) == seq![masks[place as int].1@[0]]);
    }
    if b.len() == 0 {
        assert(a + b == a);
        assert(leaders_of(masks, a) + leaders_of(masks, b) == leaders_of(masks, a));
    } else {
        law_leaders_are_first(masks, a, b.drop_last(), place);
        assert((a + b).drop_last() == a + b.drop_last());
        assert((a + b).last() == b.last());
        assert(leaders_of(masks, a + b) == leaders_of(masks, a) + leaders_of(masks, b));
    }
}

/// All processors are those of the mask of that name; without one, the eight from 0 on.
pub proof fn law_all_processors(masks: Seq<(Seq<char>, Vec<u32>)>, i: int)
    ensures
        strmap::has_key(masks, "all"@) ==> all_cpus_of(masks) == strmap::value_of(masks, "all"@)@,
        !strmap::has_key(masks, "all"@) ==> all_cpus_of(masks).len() == 8,
        !strmap::has_key(masks, "all"@) && 0 <= i < 8 ==> all_cpus_of(masks)[i] == i,
{
}

/// A cluster has the power figures of its place and the processors of its mask. It can run
/// at the frequencies that its list holds, lowest first, and at any where it has no
/// processor or no list.
pub proof fn law_model_of_a_cluster(
    figures: Seq<ClusterPowerModel>,
    masks: Seq<(Seq<char>, Vec<u32>)>,
    tables: Seq<Option<String>>,
    i: int,
)
    requires
        0 <= i < figures.len(),
    ensures
        ({
            let models = models_of(figures, masks, tables);
            let m = models[i];
            &&& models.len() == figures.len()
            &&& m.cfg == figures[i]
            &&& m.cpus == cpus_of(masks, i)
            &&& ascending(m.available)
            &&& m.cpus.len() > 0 && i < tables.len() && tables[i] is Some
                ==> m.available.to_multiset() == numbers_in(
                text::words(tables[i]->0@),
            ).to_multiset()
            &&& m.cpus.len() == 0 || i >= tables.len() || tables[i] is None ==> m.available.len()
                == 0
        }),
{
    if i < tables.len() && tables[i] is Some {
        let numbers = numbers_in(text::words(tables[i]->0@));
        law_order_of_frequencies_is_unique(numbers, numbers);
    }
}

/// A cluster's limit is for its own processors and depends on its own target alone; where
/// it can run at any frequency, the limit is the target.
pub proof fn law_limits_are_independent(
    clusters: Seq<ClusterView>,
    targets: Seq<u64>,
    i: int,
    j: int,
    other: u64,
)
    requires
        0 <= i < clusters.len(),
        0 <= j < clusters.len(),
        targets.len() == clusters.len(),
    ensures
        limits_of(clusters, targets).len() == clusters.len(),
        limits_of(clusters, targets)[i].0 == clusters[i].cpus,
        i != j ==> limits_of(clusters, targets.update(j, other))[i] == limits_of(
            clusters,
            targets,
        )[i],
        clusters[i].available.len() == 0 ==> limits_of(clusters, targets)[i].1 == targets[i],
        limits_of(clusters, targets)[i].1 == snapped(clusters[i].available, targets[i]),
{
}

/// Sorted frequencies rise from place to place, and are those that were there.
pub proof fn law_sorted_frequencies_rise(s: Seq<u64>, i: int, j: int)
    requires
        0 <= i <= j < sorted(s).len(),
    ensures
        sorted(s)[i] <= sorted(s)[j],
        s.contains(sorted(s)[i]),
{
    law_order_of_frequencies_is_unique(s, s);
    assert(ascending(sorted(s)));
    s.lemma_sort_by_ensures(|a: u64, b: u64| a <= b);
    assert(sorted(s).contains(sorted(s)[i]));
}

/// Limits and loads stand for their parts.
pub proof fn law_limits_stand_for_their_parts(limits: Seq<(Vec<u32>, u64)>, i: int, loads: Vec<CpuLoad>)
    requires
        0 <= i < limits.len(),
    ensures
        limit_views(limits).len() == limits.len(),
        limit_views(limits)[i].0 == limits[i].0@,
        limit_views(limits)[i].1 == limits[i].1,
        ClusterLoad::Sampled(loads)@ == LoadView::Sampled(loads@),
        ClusterLoad::Unsampled@ == LoadView::Unsampled,
{
}

/// Of a line only its first word and the numbers behind it count.
pub proof fn law_only_numbers_count(line: Seq<char>, other: Seq<char>)
    requires
        text::begins(line, "cpu"@) == text::begins(other, "cpu"@),
        text::words(line).len() >= 5,
        text::words(other).len() >= 5,
        text::words(line)[0] == text::words(other)[0],
        numbers_in(text::words(line).skip(1)) == numbers_in(text::words(other).skip(1)),
    ensures
        stat_in(line) == stat_in(other),
        stat_in(line) is Some <==> text::begins(line, "cpu"@) && text::words(line)[0] != "cpu"@
            && numbers_in(text::words(line).skip(1)).len() >= 4,
{
}

/// Limits are written cluster by cluster, and within a cluster processor by processor.
pub proof fn law_limits_are_written_in_order(
    a: Seq<(Seq<u32>, u64)>,
    b: Seq<(Seq<u32>, u64)>,
    cpus: Seq<u32>,
    khz: u64,
    i: int,
)
    ensures
        all_limit_jobs(a + b) == all_limit_jobs(a) + all_limit_jobs(b),
        all_limit_jobs(seq![(cpus, khz)]).len() == cpus.len(),
        0 <= i < cpus.len() ==> all_limit_jobs(seq![(cpus, khz)])[i] == sysfs::limit_job(
            cpus[i] as nat,
            khz as nat,
        ),
    decreases b.len(),
{
    let one = seq![(cpus, khz)];
    assert(one.drop_last() == Seq::<(Seq<u32>, u64)>::empty());
    assert(one.last() == (cpus, khz));
    assert(all_limit_jobs(one.drop_last()) == Seq::<sysfs::JobView>::empty());
    assert(all_limit_jobs(one) == limit_jobs(cpus, khz));
    if b.len() == 0 {
        assert(a + b == a);
        assert(all_limit_jobs(a) + all_limit_jobs(b) == all_limit_jobs(a));
    } else {
        law_limits_are_written_in_order(a, b.drop_last(), cpus, khz, i);
        assert((a + b).drop_last() == a + b.drop_last());
        assert((a + b).last() == b.last());
        assert(all_limit_jobs(a + b) == all_limit_jobs(a) + all_limit_jobs(b));
    }
}

} // verus!
