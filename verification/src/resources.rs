//! How the processors and the memory of the machine are shared out among the
//! engines.

use vstd::arithmetic::div_mod::lemma_fundamental_div_mod;
use vstd::arithmetic::mul::{lemma_mul_inequality, lemma_mul_is_commutative, lemma_mul_is_distributive_add};
use vstd::prelude::*;

verus! {

/// The least memory for each thread, in megabytes.
pub const MIN_THREAD_MB: usize = 128;

/// The sum of a list of numbers.
pub open spec fn sum(list: Seq<usize>) -> int
    decreases list.len(),
{
    if list.len() == 0 {
        0
    } else {
        sum(list.drop_last()) + list.last()
    }
}

/// The share of engine `i` when `total` threads are distributed among `count`
/// engines: equal shares, and one of the threads that remain for each of the
/// first engines.
pub open spec fn fair_share(total: int, count: int, i: int) -> int {
    total / count + if i < total % count {
        1int
    } else {
        0int
    }
}

/// The threads of each engine.
pub open spec fn fair_shares(total: usize, count: usize) -> Seq<usize> {
    Seq::new(count as nat, |i: int| fair_share(total as int, count as int, i) as usize)
}

/// The share of an engine is at least one, and no more than all.
proof fn lemma_share_bounds(total: int, count: int, i: int)
    requires
        1 <= count <= total,
        0 <= i < count,
    ensures
        1 <= total / count,
        fair_share(total, count, i) <= total,
{
    lemma_fundamental_div_mod(total, count);
    let base = total / count;
    let remainder = total % count;
    assert(total == count * base + remainder);
    assert(base >= 1) by (nonlinear_arith)
        requires
            total == count * base + remainder,
            1 <= count <= total,
            0 <= remainder < count,
    ;
    assert(count * base >= base) by (nonlinear_arith)
        requires
            base >= 1,
            count >= 1,
    ;
}

/// The sum of the first `k` shares.
proof fn lemma_sum_of_shares(total: usize, count: usize, k: int)
    requires
        1 <= count <= total,
        0 <= k <= count,
    ensures
        sum(fair_shares(total, count).take(k)) == (total / count) * k + if k < total % count {
            k
        } else {
            (total % count) as int
        },
    decreases k,
{
    let shares = fair_shares(total, count);
    let base = (total / count) as int;
    if k == 0 {
        assert(shares.take(0) == Seq::<usize>::empty());
    } else {
        lemma_sum_of_shares(total, count, k - 1);
        assert(shares.take(k).drop_last() == shares.take(k - 1));
        lemma_share_bounds(total as int, count as int, k - 1);
        lemma_mul_is_distributive_add(base, k - 1, 1);
    }
}

/// The shares of all engines add up to all threads.
pub proof fn law_shares_add_up(total: usize, count: usize)
    requires
        1 <= count <= total,
    ensures
        fair_shares(total, count).len() == count,
        sum(fair_shares(total, count)) == total,
{
    lemma_sum_of_shares(total, count, count as int);
    assert(fair_shares(total, count).take(count as int) == fair_shares(total, count));
    lemma_fundamental_div_mod(total as int, count as int);
    lemma_mul_is_commutative((total / count) as int, count as int);
}

/// The shares are even: no engine has none, and no engine has more than one
/// thread less than the engine before it or than any other.
pub proof fn law_shares_are_even(total: usize, count: usize, i: int, j: int)
    requires
        1 <= count <= total,
        0 <= i <= j < count,
    ensures
        fair_shares(total, count)[j] >= 1,
        fair_shares(total, count)[j] <= fair_shares(total, count)[i] <= fair_shares(
            total,
            count,
        )[j] + 1,
{
    lemma_share_bounds(total as int, count as int, i);
    lemma_share_bounds(total as int, count as int, j);
}

/// Distributes `total_threads` evenly across `num_engines`, e.g. 10 threads
/// across 3 engines as 4, 3 and 3.
pub fn distribute_threads(total_threads: usize, num_engines: usize) -> (shares: Vec<usize>)
    requires
        1 <= num_engines <= total_threads,
    ensures
        shares@ == fair_shares(total_threads, num_engines),
        shares.len() == num_engines,
        sum(shares@) == total_threads,
{
    let base: usize = total_threads / num_engines;
    let remainder: usize = total_threads % num_engines;
    let mut shares: Vec<usize> = Vec::new();
    let mut i: usize = 0;
    while i < num_engines
        invariant
            i <= num_engines,
            1 <= num_engines <= total_threads,
            base == total_threads / num_engines,
            remainder == total_threads % num_engines,
            shares@ == fair_shares(total_threads, num_engines).take(i as int),
        decreases num_engines - i,
    {
        proof {
            lemma_share_bounds(total_threads as int, num_engines as int, i as int);
        }
        let share: usize = if i < remainder {
            base + 1
        } else {
            base
        };
        shares.push(share);
        i = i + 1;
        assert(fair_shares(total_threads, num_engines).take(i as int) == fair_shares(
            total_threads,
            num_engines,
        ).take(i - 1).push(share));
    }
    assert(fair_shares(total_threads, num_engines).take(num_engines as int) == fair_shares(
        total_threads,
        num_engines,
    ));
    proof {
        law_shares_add_up(total_threads, num_engines);
    }
    shares
}

/// The smaller one of two numbers.
pub open spec fn min(a: int, b: int) -> int {
    if a < b {
        a
    } else {
        b
    }
}

/// The larger one of two numbers.
pub open spec fn max(a: int, b: int) -> int {
    if a > b {
        a
    } else {
        b
    }
}

/// The threads that the processors allow: two are left to the system, and
/// there is always one.
pub open spec fn threads_of_cores(cores: int) -> int {
    max(cores - 2, 1)
}

/// The size of the hash table of an engine that has the machine to itself, in
/// megabytes.
pub open spec fn hash_of_cores(cores: int) -> int {
    if cores >= 16 {
        16384
    } else if cores >= 8 {
        8192
    } else if cores >= 4 {
        4096
    } else {
        2048
    }
}

/// The threads for an engine that has the machine to itself.
pub fn engine_threads(cores: usize) -> (threads: usize)
    ensures
        threads == threads_of_cores(cores as int),
{
    if cores > 3 {
        cores - 2
    } else {
        1
    }
}

/// The hash table for an engine that has the machine to itself, in megabytes.
pub fn engine_hash_mb(cores: usize) -> (hash_mb: usize)
    ensures
        hash_mb == hash_of_cores(cores as int),
{
    if cores >= 16 {
        16384
    } else if cores >= 8 {
        8192
    } else if cores >= 4 {
        4096
    } else {
        2048
    }
}

/// The number of processors, from `num_cpus::get`. It depends on the machine and
/// on how much of it the process may use: nothing is known of it.
#[verifier::external_body]
fn cpu_count() -> (cores: usize) {
    num_cpus::get()
}

/// The size of the memory in bytes, from `sysinfo::System::total_memory` after
/// a refresh. It depends on the machine: nothing is known of it.
#[verifier::external_body]
fn total_memory() -> (bytes: u64) {
    let mut system = sysinfo::System::new_all();
    system.refresh_memory();
    system.total_memory()
}

/// `cores` is a number of processors that asking for it has given.
pub closed spec fn is_core_count(cores: usize) -> bool {
    call_ensures(cpu_count, (), cores)
}

/// `bytes` is a size of the memory that asking for it has given.
pub closed spec fn is_memory_size(bytes: u64) -> bool {
    call_ensures(total_memory, (), bytes)
}

/// The threads and the hash table, in megabytes, for an engine that has this
/// machine to itself.
pub fn machine_settings() -> (settings: (usize, usize))
    ensures
        exists|cores: usize| #[trigger]
            is_core_count(cores) && threads_of_cores(cores as int) == settings.0 && hash_of_cores(
                cores as int,
            ) == settings.1,
        exists|cores: usize| #[trigger]
            threads_of_cores(cores as int) == settings.0 && hash_of_cores(cores as int)
                == settings.1,
{
    let cores: usize = cpu_count();
    assert(is_core_count(cores));
    (engine_threads(cores), engine_hash_mb(cores))
}

/// The whole megabytes in a number of bytes, as far as they can be counted.
pub fn megabytes(bytes: u64) -> (mb: usize)
    ensures
        mb == (bytes / 0x10_0000) as usize,
{
    #[verifier::truncate]
    let mb: usize = (bytes / 0x10_0000) as usize;
    mb
}

/// The memory that engines may use without a limit: 70% of all.
pub open spec fn default_mem_mb(ram_mb: int) -> int {
    (ram_mb * 70) / 100
}

/// The memory that engines may use. A limit can only reduce it.
pub open spec fn engine_mem_mb(ram_mb: int, memory_limit: Option<usize>) -> int {
    match memory_limit {
        Some(limit) => min(limit as int, default_mem_mb(ram_mb)),
        None => default_mem_mb(ram_mb),
    }
}

/// The threads that the processors allow.
pub open spec fn max_threads_cpu(parallelism: Option<usize>) -> int {
    match parallelism {
        Some(cores) => threads_of_cores(cores as int),
        None => 1,
    }
}

/// The threads that the memory allows: there is always one.
pub open spec fn max_threads_ram(mem_mb: int) -> int {
    max(mem_mb / MIN_THREAD_MB as int, 1)
}

/// The threads of all engines together. A limit other than zero can only reduce
/// them.
pub open spec fn total_threads(
    parallelism: Option<usize>,
    mem_mb: int,
    thread_limit: Option<usize>,
) -> int {
    let threads = min(max_threads_cpu(parallelism), max_threads_ram(mem_mb));
    match thread_limit {
        Some(limit) if limit > 0 => min(threads, limit as int),
        _ => threads,
    }
}

/// The number of engines: one if nothing is requested, and no more than there
/// are threads.
pub open spec fn engine_count(requested: Option<usize>, threads: int) -> int {
    match requested {
        Some(n) => min(n as int, threads),
        None => min(1, threads),
    }
}

/// The memory for each thread, in megabytes.
pub open spec fn per_thread_mb(mem_mb: int, threads: int) -> int {
    max(mem_mb / threads, MIN_THREAD_MB as int)
}

/// The hash tables of the engines: the memory of their threads.
pub open spec fn hash_shares(shares: Seq<usize>, per_thread: int) -> Seq<usize> {
    shares.map_values(|threads: usize| (per_thread * threads) as usize)
}

/// What the machine offers and the user asks for.
#[derive(Clone, Copy, PartialEq, Eq, Debug)]
pub struct Request {
    /// How many threads can run at once, if that is known.
    pub parallelism: Option<usize>,
    /// The most memory for all engines, in megabytes.
    pub memory_limit: Option<usize>,
    /// The most threads for all engines; zero is no limit.
    pub thread_limit: Option<usize>,
    /// The number of engines.
    pub engines: Option<usize>,
}

impl Request {
    /// At least one engine is asked for.
    pub open spec fn wf(self) -> bool {
        self.engines matches Some(n) ==> n >= 1
    }
}

/// How the machine is shared out.
#[derive(PartialEq, Eq, Debug)]
pub struct ResourcePlan {
    /// The memory of the machine.
    pub ram_mb: usize,
    /// The memory that engines may use without a limit.
    pub default_mem_mb: usize,
    /// The memory that engines may use.
    pub engine_mem_mb: usize,
    /// The threads that the processors allow.
    pub max_threads_cpu: usize,
    /// The threads that the memory allows.
    pub max_threads_ram: usize,
    /// The threads of all engines together.
    pub total_threads: usize,
    /// The number of engines.
    pub engines: usize,
    /// The memory for each thread.
    pub per_thread_mb: usize,
    /// The threads of each engine.
    pub threads: Vec<usize>,
    /// The hash table of each engine.
    pub hash_mb: Vec<usize>,
}

impl ResourcePlan {
    /// The plan is the one for a machine with this memory.
    pub open spec fn follows(self, ram_mb: usize, request: Request) -> bool {
        let mem = engine_mem_mb(ram_mb as int, request.memory_limit);
        let threads = total_threads(request.parallelism, mem, request.thread_limit);
        let engines = engine_count(request.engines, threads);
        let shares = fair_shares(threads as usize, engines as usize);
        &&& self.ram_mb == ram_mb
        &&& self.default_mem_mb == default_mem_mb(ram_mb as int)
        &&& self.engine_mem_mb == mem
        &&& self.max_threads_cpu == max_threads_cpu(request.parallelism)
        &&& self.max_threads_ram == max_threads_ram(mem)
        &&& self.total_threads == threads
        &&& self.engines == engines
        &&& self.per_thread_mb == per_thread_mb(mem, threads)
        &&& self.threads@ == shares
        &&& self.hash_mb@ == hash_shares(shares, per_thread_mb(mem, threads))
    }
}

/// There is memory for the hash tables of as many threads as are planned.
proof fn lemma_memory_suffices(mem_mb: int, threads: int, share: int)
    requires
        mem_mb >= 0,
        1 <= threads <= max_threads_ram(mem_mb),
        0 <= share <= threads,
    ensures
        0 <= per_thread_mb(mem_mb, threads) * share <= per_thread_mb(mem_mb, threads) * threads <= max(
            mem_mb,
            MIN_THREAD_MB as int,
        ),
        mem_mb >= MIN_THREAD_MB ==> per_thread_mb(mem_mb, threads) == mem_mb / threads,
{
    let per_thread = per_thread_mb(mem_mb, threads);
    let floor = mem_mb / threads;
    lemma_fundamental_div_mod(mem_mb, threads);
    lemma_mul_is_commutative(floor, threads);
    assert(floor * threads <= mem_mb);
    if mem_mb >= MIN_THREAD_MB {
        assert(threads * 128 <= mem_mb);
        assert(floor >= 128) by (nonlinear_arith)
            requires
                threads * 128 <= mem_mb,
                threads >= 1,
                mem_mb == threads * floor + mem_mb % threads,
                0 <= mem_mb % threads < threads,
        ;
    } else {
        assert(threads == 1);
        assert(floor == mem_mb);
    }
    lemma_mul_inequality(share, threads, per_thread);
    lemma_mul_is_commutative(share, per_thread);
    lemma_mul_is_commutative(threads, per_thread);
    lemma_mul_inequality(0, share, per_thread);
}

/// Shares out a machine with `ram_mb` megabytes of memory.
pub fn plan_resources(ram_mb: usize, request: Request) -> (plan: ResourcePlan)
    requires
        request.wf(),
        ram_mb * 70 <= usize::MAX,
    ensures
        plan.follows(ram_mb, request),
{
    let default_mem_mb: usize = (ram_mb * 70) / 100;
    let engine_mem_mb: usize = match request.memory_limit {
        Some(limit) if limit < default_mem_mb => limit,
        _ => default_mem_mb,
    };
    let max_threads_cpu: usize = match request.parallelism {
        Some(cores) => engine_threads(cores),
        None => 1,
    };
    let max_threads_ram: usize = if engine_mem_mb / MIN_THREAD_MB > 1 {
        engine_mem_mb / MIN_THREAD_MB
    } else {
        1
    };
    let mut total_threads: usize = if max_threads_cpu < max_threads_ram {
        max_threads_cpu
    } else {
        max_threads_ram
    };
    match request.thread_limit {
        Some(limit) if limit > 0 && limit < total_threads => {
            total_threads = limit;
        },
        _ => {},
    }
    let requested: usize = match request.engines {
        Some(engines) => engines,
        None => 1,
    };
    let engines: usize = if requested > total_threads {
        total_threads
    } else {
        requested
    };
    let threads = distribute_threads(total_threads, engines);
    let per_thread_mb: usize = if engine_mem_mb / total_threads > MIN_THREAD_MB {
        engine_mem_mb / total_threads
    } else {
        MIN_THREAD_MB
    };
    let mut hash_mb: Vec<usize> = Vec::new();
    let mut i: usize = 0;
    while i < threads.len()
        invariant
            i <= threads.len(),
            threads.len() == engines,
            threads@ == fair_shares(total_threads, engines),
            1 <= engines <= total_threads,
            total_threads <= self::max_threads_ram(engine_mem_mb as int),
            per_thread_mb == self::per_thread_mb(engine_mem_mb as int, total_threads as int),
            hash_mb.len() == i,
            forall|j: int|
                0 <= j < i ==> hash_mb[j] == (per_thread_mb * #[trigger] threads[j]) as usize,
        decreases threads.len() - i,
    {
        proof {
            lemma_share_bounds(total_threads as int, engines as int, i as int);
            lemma_memory_suffices(engine_mem_mb as int, total_threads as int, threads[i as int] as int);
        }
        hash_mb.push(per_thread_mb * threads[i]);
        i = i + 1;
    }
    assert(hash_mb@ =~= hash_shares(threads@, per_thread_mb as int));
    ResourcePlan {
        ram_mb,
        default_mem_mb,
        engine_mem_mb,
        max_threads_cpu,
        max_threads_ram,
        total_threads,
        engines,
        per_thread_mb,
        threads,
        hash_mb,
    }
}

/// The plan is the one for a machine with this memory, if the memory can be
/// counted, and else there is none.
pub open spec fn is_planned(plan: Option<ResourcePlan>, ram_mb: usize, request: Request) -> bool {
    match plan {
        Some(plan) => ram_mb * 70 <= usize::MAX && plan.follows(ram_mb, request),
        None => ram_mb * 70 > usize::MAX,
    }
}

/// The plan is the one for a machine with so many bytes of memory, if they can
/// be counted.
pub open spec fn is_planned_for(plan: Option<ResourcePlan>, bytes: u64, request: Request) -> bool {
    is_planned(plan, (bytes / 0x10_0000) as usize, request)
}

/// Shares out a machine with so many bytes of memory: nothing if they are too
/// many to be counted.
pub fn plan_memory(bytes: u64, request: Request) -> (plan: Option<ResourcePlan>)
    requires
        request.wf(),
    ensures
        is_planned_for(plan, bytes, request),
{
    let ram_mb: usize = megabytes(bytes);
    if ram_mb > usize::MAX / 70 {
        None
    } else {
        Some(plan_resources(ram_mb, request))
    }
}

/// Shares out this machine: nothing if its memory is too large to be counted.
pub fn plan_machine(request: Request) -> (plan: Option<ResourcePlan>)
    requires
        request.wf(),
    ensures
        exists|bytes: u64| #[trigger]
            is_memory_size(bytes) && is_planned_for(plan, bytes, request),
        exists|bytes: u64| #[trigger] is_planned_for(plan, bytes, request),
{
    let bytes: u64 = total_memory();
    let plan = plan_memory(bytes, request);
    assert(is_memory_size(bytes) && is_planned_for(plan, bytes, request));
    plan
}

/// The hash tables add up to the memory of all threads.
proof fn lemma_sum_of_hash_shares(shares: Seq<usize>, per_thread: int)
    requires
        forall|i: int|
            0 <= i < shares.len() ==> 0 <= per_thread * (#[trigger] shares[i]) <= usize::MAX,
    ensures
        sum(hash_shares(shares, per_thread)) == per_thread * sum(shares),
    decreases shares.len(),
{
    let hashes = hash_shares(shares, per_thread);
    if shares.len() == 0 {
        assert(hashes =~= Seq::empty());
    } else {
        assert forall|i: int| 0 <= i < shares.len() - 1 implies 0 <= per_thread * (
        #[trigger] shares.drop_last()[i]) <= usize::MAX by {
            assert(shares.drop_last()[i] == shares[i]);
        }
        lemma_sum_of_hash_shares(shares.drop_last(), per_thread);
        assert(hashes.drop_last() =~= hash_shares(shares.drop_last(), per_thread));
        assert(hashes.last() == per_thread * shares[shares.len() - 1]);
        lemma_mul_is_distributive_add(per_thread, sum(shares.drop_last()), shares.last() as int);
    }
}

/// A plan keeps to what there is: there is an engine and no more engines than
/// threads, the engines have all threads between them, each has one at least
/// and memory for it, and the hash tables together stay within the memory for
/// engines, or within that of one thread where there is less.
pub proof fn law_plan_keeps_to_the_machine(plan: ResourcePlan, ram_mb: usize, request: Request)
    requires
        request.wf(),
        plan.follows(ram_mb, request),
    ensures
        1 <= plan.engines <= plan.total_threads,
        plan.total_threads <= plan.max_threads_cpu,
        plan.total_threads <= plan.max_threads_ram,
        plan.threads.len() == plan.engines,
        plan.hash_mb.len() == plan.engines,
        sum(plan.threads@) == plan.total_threads,
        sum(plan.hash_mb@) == plan.per_thread_mb * plan.total_threads,
        sum(plan.hash_mb@) <= max(plan.engine_mem_mb as int, MIN_THREAD_MB as int),
        plan.engine_mem_mb <= plan.default_mem_mb <= ram_mb,
        forall|i: int|
            0 <= i < plan.engines ==> (#[trigger] plan.threads[i]) >= 1 && plan.hash_mb[i]
                >= MIN_THREAD_MB,
{
    let mem = plan.engine_mem_mb as int;
    let threads = plan.total_threads as int;
    let shares = plan.threads@;
    let per_thread = plan.per_thread_mb as int;
    law_shares_add_up(plan.total_threads, plan.engines);
    lemma_memory_suffices(mem, threads, threads);
    assert forall|i: int| 0 <= i < shares.len() implies 0 <= per_thread * (#[trigger] shares[i])
        <= usize::MAX && shares[i] >= 1 && plan.hash_mb[i] >= MIN_THREAD_MB by {
        lemma_share_bounds(threads, plan.engines as int, i);
        lemma_memory_suffices(mem, threads, shares[i] as int);
        lemma_mul_inequality(1, shares[i] as int, per_thread);
        lemma_mul_is_commutative(shares[i] as int, per_thread);
    }
    lemma_sum_of_hash_shares(shares, per_thread);
}

/// Limits can only reduce: with a limit there is no more memory and there are
/// no more threads than without one, and no more than the limit.
pub proof fn law_limits_only_reduce(
    ram_mb: usize,
    parallelism: Option<usize>,
    mem_mb: int,
    limit: usize,
)
    ensures
        engine_mem_mb(ram_mb as int, Some(limit)) <= engine_mem_mb(ram_mb as int, None),
        engine_mem_mb(ram_mb as int, Some(limit)) <= limit,
        total_threads(parallelism, mem_mb, Some(limit)) <= total_threads(parallelism, mem_mb, None),
        limit > 0 ==> total_threads(parallelism, mem_mb, Some(limit)) <= limit,
        limit == 0 ==> total_threads(parallelism, mem_mb, Some(limit)) == total_threads(
            parallelism,
            mem_mb,
            None,
        ),
{
}

/// A thread limit of zero is no limit: whatever the memory, there is a plan with
/// it if and only if there is one without it, and it has the same engines with
/// the same threads and hash tables.
pub proof fn law_thread_limit_of_zero_is_no_limit(
    plan: Option<ResourcePlan>,
    other: Option<ResourcePlan>,
    bytes: u64,
    request: Request,
)
    requires
        is_planned_for(plan, bytes, Request { thread_limit: Some(0), ..request }),
        is_planned_for(other, bytes, Request { thread_limit: None, ..request }),
    ensures
        plan is Some <==> other is Some,
        plan is Some ==> {
            &&& plan->0.engines == other->0.engines
            &&& plan->0.threads@ == other->0.threads@
            &&& plan->0.hash_mb@ == other->0.hash_mb@
            &&& plan->0.total_threads == other->0.total_threads
        },
        is_planned_for(plan, bytes, Request { thread_limit: None, ..request }),
{
}

/// What `distribute_threads` gives: a share for each engine, all threads between
/// them, at least one for each, more for an earlier engine than for a later one
/// by one thread at most, and never fewer.
pub proof fn law_threads_are_distributed_evenly(
    total_threads: usize,
    num_engines: usize,
    shares: Vec<usize>,
)
    requires
        1 <= num_engines <= total_threads,
        call_ensures(distribute_threads, (total_threads, num_engines), shares),
    ensures
        shares.len() == num_engines,
        sum(shares@) == total_threads,
        forall|i: int| 0 <= i < shares.len() ==> (#[trigger] shares[i]) >= 1,
        forall|i: int, j: int|
            0 <= i <= j < shares.len() ==> (#[trigger] shares[j]) <= (#[trigger] shares[i])
                <= shares[j] + 1,
{
    law_shares_add_up(total_threads, num_engines);
    assert forall|i: int, j: int| 0 <= i <= j < shares.len() implies (#[trigger] shares[j]) >= 1
        && shares[j] <= (#[trigger] shares[i]) <= shares[j] + 1 by {
        law_shares_are_even(total_threads, num_engines, i, j);
    }
    assert forall|i: int| 0 <= i < shares.len() implies (#[trigger] shares[i]) >= 1 by {
        law_shares_are_even(total_threads, num_engines, i, i);
    }
}

/// The sum of two rows is the sum of their sums, and one number is its own sum.
pub proof fn law_sums_add_up(left: Seq<usize>, right: Seq<usize>, n: usize)
    ensures
        sum(Seq::empty()) == 0,
        sum(seq![n]) == n,
        sum(left + right) == sum(left) + sum(right),
    decreases right.len(),
{
    assert(seq![n].drop_last() =~= Seq::empty());
    if right.len() > 0 {
        assert((left + right).drop_last() =~= left + right.drop_last());
        law_sums_add_up(left, right.drop_last(), n);
    } else {
        assert(left + right =~= left);
    }
}

/// What an engine that has the machine to itself gets: all processors but two as
/// threads, or one thread if there are no more than that; and a hash table of 2,
/// 4, 8 or 16 gigabytes, for fewer than 4, 8, 16 processors or else.
pub proof fn law_engine_that_has_the_machine(cores: usize, threads: usize, hash_mb: usize)
    requires
        call_ensures(engine_threads, (cores,), threads),
        call_ensures(engine_hash_mb, (cores,), hash_mb),
    ensures
        cores > 2 ==> threads + 2 == cores,
        cores <= 2 ==> threads == 1,
        cores < 4 ==> hash_mb == 2 * 1024,
        4 <= cores < 8 ==> hash_mb == 4 * 1024,
        8 <= cores < 16 ==> hash_mb == 8 * 1024,
        cores >= 16 ==> hash_mb == 16 * 1024,
        threads == threads_of_cores(cores as int),
        hash_mb == hash_of_cores(cores as int),
{
}

/// The memory of a plan: seven tenths of the machine's, in whole megabytes, for
/// all engines, or the limit if that is less.
pub proof fn law_memory_of_a_plan(plan: ResourcePlan, ram_mb: usize, request: Request)
    requires
        request.wf(),
        plan.follows(ram_mb, request),
    ensures
        plan.ram_mb == ram_mb,
        100 * plan.default_mem_mb <= 70 * ram_mb < 100 * (plan.default_mem_mb + 1),
        request.memory_limit is None ==> plan.engine_mem_mb == plan.default_mem_mb,
        request.memory_limit matches Some(limit) ==> {
            &&& limit <= plan.default_mem_mb ==> plan.engine_mem_mb == limit
            &&& limit >= plan.default_mem_mb ==> plan.engine_mem_mb == plan.default_mem_mb
        },
{
}

/// The threads of a plan: as many as the processors allow, which is all but two
/// and always one, the memory allows, which is one for every 128 megabytes and
/// always one, and a limit other than zero allows; no fewer than that.
pub proof fn law_threads_of_a_plan(plan: ResourcePlan, ram_mb: usize, request: Request)
    requires
        request.wf(),
        plan.follows(ram_mb, request),
    ensures
        request.parallelism is None ==> plan.max_threads_cpu == 1,
        request.parallelism matches Some(cores) ==> {
            &&& cores > 2 ==> plan.max_threads_cpu + 2 == cores
            &&& cores <= 2 ==> plan.max_threads_cpu == 1
        },
        plan.engine_mem_mb < 128 ==> plan.max_threads_ram == 1,
        plan.engine_mem_mb >= 128 ==> 128 * plan.max_threads_ram <= plan.engine_mem_mb < 128 * (
        plan.max_threads_ram + 1),
        1 <= plan.total_threads <= plan.max_threads_cpu,
        plan.total_threads <= plan.max_threads_ram,
        request.thread_limit matches Some(limit) ==> limit > 0 ==> plan.total_threads <= limit,
        plan.total_threads == plan.max_threads_cpu || plan.total_threads == plan.max_threads_ram
            || request.thread_limit == Some(plan.total_threads),
{
}

/// The engines of a plan: one if none are asked for, and else as many as are
/// asked for, or as there are threads if that is less. Each has its share of the
/// threads, and for each thread the same memory: what there is divided by all
/// threads, but never less than 128 megabytes.
pub proof fn law_engines_of_a_plan(plan: ResourcePlan, ram_mb: usize, request: Request)
    requires
        request.wf(),
        plan.follows(ram_mb, request),
    ensures
        request.engines is None ==> plan.engines == 1,
        request.engines matches Some(engines) ==> {
            &&& engines <= plan.total_threads ==> plan.engines == engines
            &&& engines >= plan.total_threads ==> plan.engines == plan.total_threads
        },
        plan.threads.len() == plan.engines,
        sum(plan.threads@) == plan.total_threads,
        forall|i: int, j: int|
            0 <= i <= j < plan.engines ==> (#[trigger] plan.threads[j]) <= (
            #[trigger] plan.threads[i]) <= plan.threads[j] + 1,
        plan.engine_mem_mb < 128 ==> plan.per_thread_mb == 128,
        plan.engine_mem_mb >= 128 ==> plan.per_thread_mb >= 128 && plan.per_thread_mb
            * plan.total_threads <= plan.engine_mem_mb < (plan.per_thread_mb + 1)
            * plan.total_threads,
        plan.hash_mb.len() == plan.engines,
        forall|i: int|
            0 <= i < plan.engines ==> (#[trigger] plan.hash_mb[i]) == plan.per_thread_mb
                * plan.threads[i],
{
    let mem = plan.engine_mem_mb as int;
    let threads = plan.total_threads as int;
    law_shares_add_up(plan.total_threads, plan.engines);
    assert forall|i: int, j: int| 0 <= i <= j < plan.engines implies (#[trigger] plan.threads[j])
        <= (#[trigger] plan.threads[i]) <= plan.threads[j] + 1 by {
        law_shares_are_even(plan.total_threads, plan.engines, i, j);
    }
    assert forall|i: int| 0 <= i < plan.engines implies (#[trigger] plan.hash_mb[i])
        == plan.per_thread_mb * plan.threads[i] by {
        lemma_share_bounds(threads, plan.engines as int, i);
        lemma_memory_suffices(mem, threads, plan.threads[i] as int);
    }
    lemma_memory_suffices(mem, threads, threads);
    lemma_fundamental_div_mod(mem, threads);
    if mem >= 128 {
        let per = plan.per_thread_mb as int;
        assert(per == mem / threads);
        lemma_mul_is_commutative(per, threads);
        lemma_mul_is_distributive_add(threads, per, 1);
        lemma_mul_is_commutative(per + 1, threads);
    } else {
        assert(threads == 1);
        assert(mem / threads == mem);
    }
}

/// A machine is planned by its whole megabytes of 1024 times 1024 bytes: there is
/// a plan for them, unless seventy times as many are more than can be counted.
pub proof fn law_machine_is_planned_by_its_memory(
    bytes: u64,
    request: Request,
    plan: Option<ResourcePlan>,
)
    requires
        request.wf(),
        call_ensures(plan_memory, (bytes, request), plan),
    ensures
        plan matches Some(plan) ==> {
            &&& plan.ram_mb == (bytes / 1_048_576) as usize
            &&& plan.follows(plan.ram_mb, request)
        },
        plan is None <==> 70 * ((bytes / 1_048_576) as usize) > usize::MAX,
{
}

/// The plan for given megabytes is the one that follows from them and from what
/// is asked for.
pub proof fn law_plan_follows(ram_mb: usize, request: Request, plan: ResourcePlan)
    requires
        request.wf(),
        ram_mb * 70 <= usize::MAX,
        call_ensures(plan_resources, (ram_mb, request), plan),
    ensures
        plan.follows(ram_mb, request),
{
}

/// A plan for this machine is made by the size that asking for its memory has
/// given, whatever is asked for: it is the plan for a machine of that size.
pub proof fn law_machine_is_asked_for_its_memory(request: Request, plan: Option<ResourcePlan>)
    requires
        request.wf(),
        call_ensures(plan_machine, (request,), plan),
    ensures
        exists|bytes: u64| #[trigger]
            is_memory_size(bytes) && is_planned_for(plan, bytes, request),
{
}

/// Plans for the same memory agree on it, whatever is asked for: either there is
/// a plan for every request or for none, and all plans have the same memory and
/// the same part of it for engines without a limit.
pub proof fn law_plans_agree_on_the_memory(
    bytes: u64,
    plan: Option<ResourcePlan>,
    request: Request,
    other_plan: Option<ResourcePlan>,
    other_request: Request,
)
    requires
        is_planned_for(plan, bytes, request),
        is_planned_for(other_plan, bytes, other_request),
    ensures
        plan is Some <==> other_plan is Some,
        plan is Some ==> plan->0.ram_mb == other_plan->0.ram_mb && plan->0.default_mem_mb
            == other_plan->0.default_mem_mb,
{
}

/// Any number of engines can be asked for but none at all, and any limits can be
/// given.
pub proof fn law_valid_requests(request: Request)
    ensures
        request.wf() <==> request.engines != Some(0usize),
{
}

} // verus!
