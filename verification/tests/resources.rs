use fishnet::resources::{
    distribute_threads, engine_hash_mb, engine_threads, machine_settings, megabytes, plan_machine,
    plan_memory, plan_resources, Request,
};

fn request(parallelism: Option<usize>, engines: Option<usize>) -> Request {
    Request { parallelism, memory_limit: None, thread_limit: None, engines }
}

#[test]
fn ten_threads_for_three_engines() {
    assert_eq!(distribute_threads(10, 3), vec![4, 3, 3]);
}

#[test]
fn thirty_two_threads_for_seven_engines() {
    assert_eq!(distribute_threads(32, 7), vec![5, 5, 5, 5, 4, 4, 4]);
}

#[test]
fn shares_add_up_and_are_even() {
    for total in 1..40 {
        for count in 1..=total {
            let shares = distribute_threads(total, count);
            assert_eq!(shares.len(), count);
            assert_eq!(shares.iter().sum::<usize>(), total);
            assert!(shares[0] - shares[count - 1] <= 1);
            assert!(shares[count - 1] >= 1);
        }
    }
    assert_eq!(distribute_threads(usize::MAX, 1), vec![usize::MAX]);
}

#[test]
fn engine_with_all_cores() {
    let expected = [
        (0, 1, 2048),
        (1, 1, 2048),
        (2, 1, 2048),
        (3, 1, 2048),
        (4, 2, 4096),
        (7, 5, 4096),
        (8, 6, 8192),
        (15, 13, 8192),
        (16, 14, 16384),
        (64, 62, 16384),
    ];
    for (cores, threads, hash_mb) in expected {
        assert_eq!(engine_threads(cores), threads);
        assert_eq!(engine_hash_mb(cores), hash_mb);
    }
}

#[test]
fn settings_of_this_machine() {
    let cores = num_cpus::get();
    assert_eq!(machine_settings(), (engine_threads(cores), engine_hash_mb(cores)));
}

#[test]
fn whole_megabytes() {
    assert_eq!(megabytes(0), 0);
    assert_eq!(megabytes(1_048_575), 0);
    assert_eq!(megabytes(1_048_576), 1);
    assert_eq!(megabytes(16 * 1024 * 1024 * 1024), 16384);
}

#[test]
fn plan_limited_by_processors() {
    let plan = plan_resources(16384, request(Some(8), Some(4)));
    assert_eq!(plan.ram_mb, 16384);
    assert_eq!(plan.default_mem_mb, 11468);
    assert_eq!(plan.engine_mem_mb, 11468);
    assert_eq!(plan.max_threads_cpu, 6);
    assert_eq!(plan.max_threads_ram, 89);
    assert_eq!(plan.total_threads, 6);
    assert_eq!(plan.engines, 4);
    assert_eq!(plan.per_thread_mb, 1911);
    assert_eq!(plan.threads, vec![2, 2, 1, 1]);
    assert_eq!(plan.hash_mb, vec![3822, 3822, 1911, 1911]);
}

#[test]
fn plan_limited_by_memory() {
    let plan = plan_resources(1000, request(Some(64), Some(2)));
    assert_eq!(plan.engine_mem_mb, 700);
    assert_eq!(plan.max_threads_ram, 5);
    assert_eq!(plan.total_threads, 5);
    assert_eq!(plan.per_thread_mb, 140);
    assert_eq!(plan.threads, vec![3, 2]);
    assert_eq!(plan.hash_mb, vec![420, 280]);
}

#[test]
fn plan_with_limits() {
    let limited = Request {
        parallelism: Some(16),
        memory_limit: Some(2048),
        thread_limit: Some(4),
        engines: Some(10),
    };
    let plan = plan_resources(16384, limited);
    assert_eq!(plan.engine_mem_mb, 2048);
    assert_eq!(plan.total_threads, 4);
    assert_eq!(plan.engines, 4);
    assert_eq!(plan.hash_mb, vec![512, 512, 512, 512]);

    // Limits above what there is make no difference, and zero threads are no
    // limit.
    let loose = Request {
        parallelism: Some(16),
        memory_limit: Some(1_000_000),
        thread_limit: Some(0),
        engines: None,
    };
    let plan = plan_resources(16384, loose);
    assert_eq!(plan.engine_mem_mb, 11468);
    assert_eq!(plan.total_threads, 14);
    assert_eq!(plan.engines, 1);
    assert_eq!(plan.threads, vec![14]);
}

#[test]
fn plan_for_hardly_any_machine() {
    let plan = plan_resources(0, request(None, None));
    assert_eq!(plan.total_threads, 1);
    assert_eq!(plan.engines, 1);
    assert_eq!(plan.per_thread_mb, 128);
    assert_eq!(plan.hash_mb, vec![128]);
}

#[test]
fn hash_tables_fit_into_the_memory() {
    for ram_mb in [0, 100, 183, 1000, 5000, 64_000] {
        for cores in [1, 3, 4, 13, 100] {
            for engines in [1, 2, 7] {
                let plan = plan_resources(ram_mb, request(Some(cores), Some(engines)));
                let used: usize = plan.hash_mb.iter().sum();
                assert!(used <= plan.engine_mem_mb.max(128));
                assert_eq!(plan.threads.iter().sum::<usize>(), plan.total_threads);
                assert!(plan.engines <= plan.total_threads);
            }
        }
    }
}

#[test]
fn plan_for_this_machine() {
    let mut system = sysinfo::System::new();
    system.refresh_memory();
    let ram_mb = megabytes(system.total_memory());
    let plan = plan_machine(request(Some(4), Some(2)));
    assert_eq!(plan, Some(plan_resources(ram_mb, request(Some(4), Some(2)))));
}

#[test]
fn bytes_are_planned_in_megabytes() {
    let request = request(Some(10), Some(2));
    let plan = plan_memory(8 * 1024 * 1024 * 1024 + 1024 * 1024 - 1, request).expect("a plan");
    assert_eq!(plan.ram_mb, 8192);
    assert_eq!(plan.default_mem_mb, 5734);
    assert_eq!(plan.threads, vec![4, 4]);
    assert_eq!(plan.hash_mb, vec![2864, 2864]);
    assert_eq!(plan_memory(0, request).map(|plan| plan.total_threads), Some(1));
}

#[test]
fn largest_memory_is_planned_where_it_can_be_counted() {
    let plan = plan_memory(u64::MAX, request(Some(4), None));
    assert_eq!(plan.is_some(), megabytes(u64::MAX) <= usize::MAX / 70);
}

#[test]
fn thread_limit_of_zero_changes_nothing() {
    let without = request(Some(10), Some(3));
    let zero = Request { thread_limit: Some(0), ..without };
    let bytes = 16 * 1024 * 1024 * 1024;
    assert_eq!(plan_memory(bytes, zero), plan_memory(bytes, without));
}
