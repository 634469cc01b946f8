//! Decisions of the benchmarks, on concrete arguments.

use cutile_ir::benchmarks::args::{arg_value, cli_value, has_flag};
use cutile_ir::benchmarks::elemwise;
use cutile_ir::benchmarks::gemm;
use cutile_ir::benchmarks::jit::{cache_key, JitCache};
use cutile_ir::benchmarks::measure::{passes, Action, Counts};
use cutile_ir::benchmarks::modes::{LaunchMode, QueueMode, StreamMode};
use cutile_ir::benchmarks::queue::WorkQueue;
use cutile_ir::benchmarks::ranks::{five_ranks, Ranks};
use cutile_ir::benchmarks::workload::{interleave, workload_generics, Size, SizeSpec};

fn words(line: &str) -> Vec<String> {
    line.split_whitespace().map(|s| s.to_string()).collect()
}

// ---- arguments ----

#[test]
fn flags_and_values() {
    let args = words("prog --m 64 --safe --m 32 --last");
    assert!(has_flag(&args, "--safe"));
    assert!(!has_flag(&args, "--saf"));
    assert_eq!(cli_value(&args, "--m"), Some("64"));
    assert_eq!(arg_value(&args, "--m"), Some("64"));
    assert_eq!(cli_value(&args, "--last"), None);
    assert_eq!(arg_value(&args, "--last"), None);
    assert_eq!(cli_value(&args, "--n"), None);
    assert_eq!(cli_value(&words(""), "--n"), None);
}

// ---- cache of specializations ----

#[test]
fn keys_name_label_and_generics() {
    let key = cache_key("static", &words("f16 128 64"));
    assert_eq!(key, "static:f16,128,64");
    assert_eq!(cache_key("safe", &vec![]), "safe:");
    assert_eq!(cache_key("safe", &words("f16")), "safe:f16");
}

#[test]
fn recorded_keys_are_cached() {
    let mut cache = JitCache::new();
    assert!(!cache.contains("a:1"));
    assert!(!cache.record("a:1"));
    assert!(cache.contains("a:1"));
    assert!(cache.record("a:1"));
    assert!(!cache.record("a:2"));
    assert!(cache.contains("a:1"));
}

// ---- matrix products ----

fn gemm_flags(line: &str) -> gemm::Flags {
    gemm::Flags::from_args(&words(line))
}

#[test]
fn gemm_refusals() {
    let cases = [
        (
            "--safe --static",
            "--safe, --static, --full-output, and --unchecked-mapped are mutually exclusive",
        ),
        (
            "--persistent --full-output",
            "--persistent and --full-output are mutually exclusive",
        ),
        ("--raw-pointer", "--raw-pointer only applies with --persistent"),
        (
            "--persistent --raw-pointer --raw-asserts",
            "--raw-pointer, --raw-asserts, --mapped-index, and --iter-rawloads are mutually exclusive",
        ),
        (
            "--mapped-index",
            "persistent diagnostic variants only apply with --persistent",
        ),
        (
            "--persistent --mapped-index --static",
            "persistent diagnostic variants are already explicit; do not combine them with --safe/--static/--unchecked-mapped",
        ),
        (
            "--unchecked-mapped",
            "--unchecked-mapped only applies with --persistent",
        ),
        (
            "--persistent --swizzle --no-swizzle",
            "--swizzle and --no-swizzle are mutually exclusive",
        ),
        ("--swizzle", "--swizzle/--no-swizzle only apply with --persistent"),
        (
            "--persistent --dump-ir",
            "--persistent does not currently have an IR-dumping twin",
        ),
        (
            "--jit --safe",
            "--jit runs all variants; --safe/--static/--full-output/--persistent/--dump-ir not applicable",
        ),
        (
            "--tune-one --jit",
            "--tune-one is mutually exclusive with --jit/--dump-ir",
        ),
    ];
    for (line, message) in cases {
        assert_eq!(gemm::check_flags(gemm_flags(line)), Some(message), "{line}");
    }
    for line in ["", "--safe", "--persistent --raw-asserts --no-swizzle", "--jit", "--tune-one"] {
        assert_eq!(gemm::check_flags(gemm_flags(line)), None, "{line}");
    }
}

#[test]
fn gemm_variants_follow_the_flags() {
    let cases = [
        ("", gemm::Variant::Gemm, "optimized"),
        ("--safe", gemm::Variant::GemmSafe, "safe"),
        ("--static", gemm::Variant::GemmStatic, "static"),
        ("--full-output", gemm::Variant::GemmFullOutput, "full_output"),
        ("--persistent", gemm::Variant::GemmPersistent, "persistent_optimized"),
        ("--persistent --safe", gemm::Variant::GemmPersistentSafe, "persistent_safe"),
        ("--persistent --static", gemm::Variant::GemmPersistentStatic, "persistent_static"),
        (
            "--persistent --unchecked-mapped",
            gemm::Variant::GemmPersistentUnchecked,
            "persistent_unchecked",
        ),
        ("--persistent --raw-pointer", gemm::Variant::GemmPersistentRaw, "persistent_raw"),
        (
            "--persistent --raw-asserts",
            gemm::Variant::GemmPersistentRawAsserts,
            "persistent_raw_asserts",
        ),
        (
            "--persistent --mapped-index",
            gemm::Variant::GemmPersistentMappedIndex,
            "persistent_mapped_index",
        ),
        (
            "--persistent --iter-rawloads",
            gemm::Variant::GemmPersistentIterRawloads,
            "persistent_iter_rawloads",
        ),
    ];
    let mut labels = Vec::new();
    for (line, variant, label) in cases {
        let f = gemm_flags(line);
        assert_eq!(gemm::select_variant(f), variant, "{line}");
        assert_eq!(variant.label(), label);
        assert_eq!(gemm::run_label(f), label);
        assert_eq!(variant.is_persistent(), line.starts_with("--persistent"));
        labels.push(label);
    }
    labels.sort();
    labels.dedup();
    assert_eq!(labels.len(), 12);
}

#[test]
fn gemm_printing_variants() {
    for (line, variant, entry) in [
        ("--dump-ir", gemm::Variant::GemmIr, "gemm_ir"),
        ("--dump-ir --safe", gemm::Variant::GemmSafeIr, "gemm_safe_ir"),
        ("--dump-ir --static", gemm::Variant::GemmStaticIr, "gemm_static_ir"),
        ("--dump-ir --full-output", gemm::Variant::GemmFullOutputIr, "gemm_full_output_ir"),
    ] {
        let f = gemm_flags(line);
        assert_eq!(gemm::dump_variant(f), (variant, entry));
        assert_eq!(variant.label(), gemm::run_label(f));
    }
}

#[test]
fn gemm_hints() {
    let config = gemm::persistent_default_config(1024);
    let none = gemm::HintConfig::none();
    assert_eq!(none.num_cta_label(), "default");
    assert_eq!(none.occupancy_label(), "default");
    assert_eq!(none.max_divisibility_label(), "default");
    let filled = none.with_defaults(config);
    assert_eq!(filled.num_cta_label(), "4");
    assert_eq!(filled.occupancy_label(), "1");
    assert_eq!(filled.max_divisibility, None);
    let mine = gemm::HintConfig {
        num_cta_in_cga: Some(2),
        occupancy: Some(3),
        max_divisibility: Some(-16),
    };
    assert_eq!(mine.with_defaults(config), mine);
    assert_eq!(mine.max_divisibility_label(), "-16");
    assert_eq!(gemm::option_label(Some(i32::MIN)), "-2147483648");
    assert_eq!(gemm::effective_label(None, gemm::Variant::Gemm), "entry");
    assert_eq!(gemm::effective_label(None, gemm::Variant::GemmPersistent), "default");
    assert_eq!(gemm::effective_label(Some(2), gemm::Variant::Gemm), "2");
    assert_eq!(gemm::swizzle_label(gemm::Variant::Gemm, true), "n/a");
    assert_eq!(gemm::swizzle_label(gemm::Variant::GemmPersistentRaw, true), "on");
    assert_eq!(gemm::swizzle_label(gemm::Variant::GemmPersistentRaw, false), "off");
}

#[test]
fn gemm_programs() {
    assert_eq!(gemm::ceil_div_usize(10, 4), 3);
    assert_eq!(gemm::ceil_div_usize(0, 4), 0);
    // Sixteen tiles, thirty-three clusters.
    assert_eq!(gemm::persistent_num_programs(1024, 1024, 128, 512, 132, 4, 1), 16);
    // Sixty-six clusters, 1024 tiles, two programs for each.
    assert_eq!(gemm::persistent_num_programs(8192, 8192, 256, 256, 132, 2, 2), 132);
    assert!(gemm::programs_fit(8192, 8192, 256, 256, 132, 2, 2));
    assert!(!gemm::programs_fit(8192, 8192, 0, 256, 132, 2, 2));
    assert!(!gemm::programs_fit(usize::MAX, 8192, 256, 256, 132, 2, 2));
    assert!(!gemm::programs_fit(1 << 30, 1 << 30, 1, 1, 132, 2, 2));
    assert!(!gemm::programs_fit(8192, 8192, 256, 256, 132, 2, i32::MAX));
    // Counts below one count as one.
    assert_eq!(gemm::persistent_num_programs(0, 0, 256, 256, -5, 0, 0), 1);
}

#[test]
fn gemm_grids() {
    let config = gemm::persistent_default_config(2048);
    assert_eq!(config.tile(), (256, 256, 64));
    assert_eq!(config.num_cta_in_cga, 2);
    assert_eq!((config.occupancy, config.group_size_m, config.swizzle), (1, 8, true));
    assert_eq!(gemm::persistent_default_config(1024).tile(), (128, 512, 64));
    assert_eq!(config.launch_grid(2048, 2048, 132), (64, 1, 1));
    let fixed = gemm::PersistentConfig { num_programs: Some(7), ..config };
    assert_eq!(fixed.launch_grid(2048, 2048, 132), (7, 1, 1));

    let hints = gemm::HintConfig::none().with_defaults(config);
    let f = gemm_flags("--persistent");
    let grid = |f, asked, config| {
        gemm::tune_launch_grid(f, asked, config, 2048, 2048, 256, 256, 132, hints)
    };
    assert_eq!(grid(f, None, config), Some((64, 1, 1)));
    assert_eq!(grid(f, None, fixed), Some((7, 1, 1)));
    assert_eq!(grid(f, Some(5), fixed), Some((5, 1, 1)));
    assert_eq!(grid(f, Some(-5), fixed), Some((1, 1, 1)));
    assert_eq!(grid(gemm_flags(""), Some(5), config), None);
}

#[test]
fn gemm_defaults_of_a_run() {
    let config = gemm::persistent_default_config(1024);
    let (persistent, plain) = (gemm_flags("--persistent"), gemm_flags(""));
    assert_eq!(gemm::tune_default_tile(persistent, config), (128, 512, 64));
    assert_eq!(gemm::tune_default_tile(plain, config), (128, 256, 128));
    let grouped = gemm::PersistentConfig { group_size_m: 4, ..config };
    assert_eq!(gemm::default_group_size_m(persistent, grouped), 4);
    assert_eq!(gemm::default_group_size_m(plain, grouped), 8);
    let none = gemm::HintConfig::none();
    assert_eq!(gemm::run_hints(plain, none, config), none);
    assert_eq!(gemm::run_hints(persistent, none, config), none.with_defaults(config));
}

#[test]
fn gemm_swizzle() {
    let config = gemm::persistent_default_config(2048);
    let plain = gemm::PersistentConfig { swizzle: false, ..config };
    assert_eq!(gemm::swizzle_override(gemm_flags("--swizzle")), Some(true));
    assert_eq!(gemm::swizzle_override(gemm_flags("--no-swizzle")), Some(false));
    assert_eq!(gemm::swizzle_override(gemm_flags("")), None);
    assert!(gemm::swizzle_enabled(gemm_flags("--persistent"), config));
    assert!(!gemm::swizzle_enabled(gemm_flags("--persistent"), plain));
    assert!(gemm::swizzle_enabled(gemm_flags("--persistent --swizzle"), plain));
    assert!(!gemm::swizzle_enabled(gemm_flags("--persistent --no-swizzle"), config));
    assert!(gemm::swizzle_enabled(gemm_flags(""), plain));
}

#[test]
fn gemm_configs_are_validated() {
    assert_eq!(gemm::validate_gemm_config(256, 512, 128, 128, 256, 64), Ok(()));
    assert_eq!(
        gemm::validate_gemm_config(256, 512, 128, 0, 256, 64),
        Err("tile dimensions must be positive".to_string())
    );
    assert_eq!(
        gemm::validate_gemm_config(256, 500, 128, 128, 256, 64),
        Err("shape (256,500,128) must be divisible by tile (128,256,64)".to_string())
    );
    for persistent in [false, true] {
        for e in gemm::sweep(persistent) {
            assert_eq!(
                gemm::validate_gemm_config(e.size, e.size, e.size, e.bm, e.bn, e.bk),
                Ok(())
            );
        }
    }
    for e in gemm::jit_sweep() {
        assert_eq!(gemm::validate_gemm_config(e.size, e.size, e.size, e.bm, e.bn, e.bk), Ok(()));
    }
    assert_eq!(gemm::sweep(false).len(), 6);
    assert_eq!(gemm::sweep(true)[0].bn, 512);
    assert_eq!(gemm::jit_sweep().len(), 9);
}

#[test]
fn gemm_generics() {
    let g = |variant, swizzle| gemm::bench_generics(variant, 1024, 2048, 4096, 128, 256, 64, 8, swizzle);
    assert_eq!(g(gemm::Variant::Gemm, true), words("f16 128 256 64"));
    assert_eq!(g(gemm::Variant::GemmStatic, true), words("f16 128 256 64 1024 2048 4096"));
    assert_eq!(g(gemm::Variant::GemmPersistent, true), words("f16 128 256 64 8 1"));
    assert_eq!(g(gemm::Variant::GemmPersistent, false), words("f16 128 256 64 1 1"));
    assert_eq!(g(gemm::Variant::GemmPersistentRaw, true), words("f16 128 256 64 1"));
    assert_eq!(g(gemm::Variant::GemmPersistentRaw, false), words("f16 128 256 64 0"));
    assert_eq!(
        g(gemm::Variant::GemmPersistentStatic, true),
        words("f16 128 256 64 1024 2048 4096 8 1")
    );
    assert_eq!(
        gemm::shape_generics(gemm::Variant::GemmStatic, 1, 2, 3, 4, 5, 6),
        words("f16 4 5 6 1 2 3")
    );
}

#[test]
fn gemm_specializations_are_told_apart() {
    let key = |variant: gemm::Variant, m| {
        cache_key(variant.label(), &gemm::shape_generics(variant, m, m, m, 128, 128, 64))
    };
    assert_eq!(key(gemm::Variant::Gemm, 128), key(gemm::Variant::Gemm, 256));
    assert_ne!(key(gemm::Variant::GemmStatic, 128), key(gemm::Variant::GemmStatic, 256));
    assert_ne!(key(gemm::Variant::Gemm, 128), key(gemm::Variant::GemmSafe, 128));
}

#[test]
fn gemm_kernels_are_compiled_once() {
    let mut cache = JitCache::new();
    let mut record = |variant, m, n, k, bm, bn, bk| {
        gemm::record_compiled(&mut cache, variant, m, n, k, bm, bn, bk)
    };
    assert!(!record(gemm::Variant::Gemm, 128, 128, 128, 64, 64, 32));
    assert!(record(gemm::Variant::Gemm, 128, 128, 128, 64, 64, 32));
    // Another shape takes another kernel only where the kernel knows the shape.
    assert!(record(gemm::Variant::Gemm, 256, 512, 1024, 64, 64, 32));
    assert!(!record(gemm::Variant::GemmSafe, 128, 128, 128, 64, 64, 32));
    assert!(record(gemm::Variant::GemmSafe, 256, 512, 1024, 64, 64, 32));
    assert!(!record(gemm::Variant::GemmStatic, 128, 128, 128, 64, 64, 32));
    assert!(!record(gemm::Variant::GemmStatic, 128, 128, 256, 64, 64, 32));
    assert!(record(gemm::Variant::GemmStatic, 128, 128, 128, 64, 64, 32));
    // Another tile takes another kernel, whatever its extents are.
    assert!(!record(gemm::Variant::Gemm, 128, 128, 128, 64, 32, 64));
    assert!(!record(gemm::Variant::Gemm, 128, 128, 128, -64, 64, 32));
    assert!(!record(gemm::Variant::Gemm, 128, 128, 128, 0, 64, 32));
    assert!(record(gemm::Variant::Gemm, 1, 1, 1, -64, 64, 32));
}

#[test]
fn gemm_checked_places() {
    assert_eq!(gemm::check_positions(4, 6), Some(vec![0, 5, 15, 18, 23]));
    assert_eq!(gemm::check_positions(1, 1), Some(vec![0]));
    assert_eq!(gemm::check_positions(4096, 4097), None);
    assert!(gemm::check_positions(4096, 4096).is_some());
}

// ---- element-wise ----

fn elemwise_flags(line: &str) -> elemwise::Flags {
    elemwise::Flags::from_args(&words(line))
}

#[test]
fn elemwise_refusals() {
    for (line, message) in [
        ("--safe --static", "--safe and --static are mutually exclusive"),
        ("--jit --static", "--jit runs all variants; --safe/--static not applicable"),
        ("--tune-one --dump-ir", "--tune-one is mutually exclusive with --jit/--dump-ir"),
    ] {
        assert_eq!(elemwise::check_flags(elemwise_flags(line)), Some(message));
    }
    assert_eq!(elemwise::check_flags(elemwise_flags("--safe --dump-ir")), None);
}

#[test]
fn elemwise_variants() {
    let select = |line: &str, safe, fixed| {
        elemwise::selected_tune_variants(&words(line), safe, fixed)
    };
    assert_eq!(select("--variant add", true, false), Ok(vec![elemwise::Variant::Add]));
    assert_eq!(select("--variant optimized", true, false), Ok(vec![elemwise::Variant::Add]));
    assert_eq!(select("--variant safe", false, false), Ok(vec![elemwise::Variant::AddSafe]));
    assert_eq!(select("--variant static", false, false), Ok(vec![elemwise::Variant::AddStatic]));
    assert_eq!(select("--variant all", false, false), Ok(elemwise::Variant::all()));
    assert_eq!(
        select("--variant fast", false, false),
        Err("unknown --variant value: fast".to_string())
    );
    assert_eq!(select("", true, false), Ok(vec![elemwise::Variant::AddSafe]));
    assert_eq!(select("", false, true), Ok(vec![elemwise::Variant::AddStatic]));
    assert_eq!(select("", false, false), Ok(vec![elemwise::Variant::Add]));

    let labels: Vec<&str> = elemwise::Variant::all().iter().map(|v| v.label()).collect();
    assert_eq!(labels, vec!["optimized", "safe", "static"]);
    let entries: Vec<&str> = elemwise::Variant::all().iter().map(|v| v.dump_filter()).collect();
    assert_eq!(entries, vec!["add_ir", "add_safe_ir", "add_static_ir"]);
    assert_eq!(
        elemwise::dump_variant(&vec![elemwise::Variant::AddSafe]),
        Ok(elemwise::Variant::AddSafe)
    );
    assert_eq!(
        elemwise::dump_variant(&elemwise::Variant::all()),
        Err("--dump-ir requires exactly one variant")
    );
}

#[test]
fn elemwise_configs_are_validated() {
    assert_eq!(elemwise::validate_elemwise_config(1024, 256), Ok(()));
    assert_eq!(
        elemwise::validate_elemwise_config(1024, 0),
        Err("tile size B must be positive".to_string())
    );
    assert_eq!(
        elemwise::validate_elemwise_config(1000, 256),
        Err("N=1000 must be divisible by B=256".to_string())
    );
    assert_eq!(elemwise::validate_iters(1), Ok(()));
    assert_eq!(elemwise::validate_iters(0), Err("--iters must be positive"));
    assert_eq!(elemwise::generics(elemwise::Variant::Add, 4096, 256), words("f16 256"));
    assert_eq!(elemwise::generics(elemwise::Variant::AddStatic, 4096, 256), words("f16 256 4096"));
}

#[test]
fn elemwise_lengths() {
    let ns = elemwise::lengths();
    assert_eq!(ns, (20..=28).map(|i| 1usize << i).collect::<Vec<_>>());
    for n in ns {
        assert_eq!(elemwise::validate_elemwise_config(n, elemwise::DEFAULT_B), Ok(()));
    }
}

#[test]
fn elemwise_static_variants_are_compiled_anew() {
    let mut cache = JitCache::new();
    assert!(!elemwise::record_compiled(&mut cache, elemwise::Variant::Add));
    assert!(elemwise::record_compiled(&mut cache, elemwise::Variant::Add));
    assert!(!elemwise::record_compiled(&mut cache, elemwise::Variant::AddSafe));
    assert!(!elemwise::record_compiled(&mut cache, elemwise::Variant::AddStatic));
    assert!(!elemwise::record_compiled(&mut cache, elemwise::Variant::AddStatic));
}

#[test]
fn elemwise_chunks() {
    assert_eq!(elemwise::cache_chunks_for_n(1024, 0), 1);
    assert_eq!(elemwise::cache_chunks_for_n(0, 64), 128);
    assert_eq!(elemwise::cache_chunks_for_n(1024, 64), 128);
    // 256 MiB over 96 MiB, rounded up.
    assert_eq!(elemwise::cache_chunks_for_n(1 << 24, 256), 3);
    assert_eq!(elemwise::cache_chunks_for_n(1 << 30, 256), 1);
    for (n, mib) in [(1 << 20, 64), (3 << 18, 100), (5_000_000, 512), (1 << 43, 4096), (7, 1)] {
        let exact = (mib as f64 * 1024.0 * 1024.0 / (3.0 * n as f64 * 2.0)).ceil() as usize;
        assert_eq!(elemwise::cache_chunks_for_n(n, mib), exact.max(1).min(128));
    }
    assert_eq!(elemwise::chunk_of_launch(7, 3), 1);
    for a in 0..20 {
        for b in a + 1..a + 3 {
            assert_ne!(elemwise::chunk_of_launch(a, 3), elemwise::chunk_of_launch(b, 3));
        }
    }
}

// ---- modes and workloads ----

#[test]
fn modes_are_parsed_from_their_labels() {
    for m in [QueueMode::Serial, QueueMode::Threaded, QueueMode::Async] {
        assert_eq!(QueueMode::parse(m.label()), Some(m));
    }
    for m in [
        LaunchMode::SyncIndividual,
        LaunchMode::SyncChained,
        LaunchMode::Async,
        LaunchMode::Graph,
    ] {
        assert_eq!(LaunchMode::parse(m.label()), Some(m));
    }
    for m in [StreamMode::Sync, StreamMode::Async] {
        assert_eq!(StreamMode::parse(m.label()), Some(m));
    }
    assert_eq!(LaunchMode::SyncIndividual.label(), "sync-individual");
    assert_eq!(QueueMode::parse("Serial"), None);
    assert_eq!(LaunchMode::parse(""), None);
    assert_eq!(StreamMode::parse("none"), None);
    assert_eq!(QueueMode::Serial.effective_streams(8), 1);
    assert_eq!(QueueMode::Threaded.effective_streams(8), 8);
    assert_eq!(QueueMode::Async.effective_threads(4), 4);
    assert_eq!(QueueMode::Async.effective_threads(0), 1);
    assert_eq!(QueueMode::Threaded.effective_threads(4), 1);
}

#[test]
fn workloads_are_evenly_mixed() {
    let (s, l) = (Size::Small, Size::Large);
    assert_eq!(interleave(2, 2), vec![s, l, s, l]);
    assert_eq!(interleave(4, 2), vec![s, l, s, s, l, s]);
    assert_eq!(interleave(0, 3), vec![l, l, l]);
    assert_eq!(interleave(3, 0), vec![s, s, s]);
    for small in 0..12usize {
        for large in 0..12usize {
            let mix = interleave(small, large);
            assert_eq!(mix.iter().filter(|x| **x == s).count(), small);
            assert_eq!(mix.iter().filter(|x| **x == l).count(), large);
            let (mut a, mut b) = (0usize, 0usize);
            for x in &mix {
                if *x == s {
                    a += 1;
                } else {
                    b += 1;
                }
                // Neither size is ahead of its share by more than one product.
                assert!(a * large <= (b + 1) * small + large);
                assert!(b * small <= (a + 1) * large + small);
            }
        }
    }
}

#[test]
fn workload_sizes() {
    let spec = SizeSpec { small_m: 256, large_m: 1024 };
    assert_eq!(spec.m(Size::Small), 256);
    assert_eq!(spec.m(Size::Large), 1024);
    assert!(spec.is_whole_tiles());
    assert!(!SizeSpec { small_m: 100, large_m: 1024 }.is_whole_tiles());
    assert_eq!(workload_generics(), words("f16 128 128 64"));
}

#[test]
fn queues_are_drained_once() {
    let work = interleave(5, 3);
    let mut queue = WorkQueue::new(&work, 3);
    assert_eq!(queue.done(), 0);
    let mut taken = Vec::new();
    // The workers ask in an uneven order.
    let mut worker = 0;
    while let Some(size) = queue.take(worker) {
        taken.push(size);
        worker = (worker * 2 + 1) % 3;
        assert_eq!(queue.done(), taken.len() as u64);
    }
    assert_eq!(taken, work);
    assert_eq!(queue.done(), 8);
    assert_eq!(queue.take(2), None);
    assert_eq!(queue.done(), 8);
}

// ---- measurements ----

#[test]
fn ranks_of_measurements() {
    assert_eq!(five_ranks(1), Ranks { min: 0, p25: 0, median: 0, p75: 0, max: 0 });
    assert_eq!(five_ranks(20), Ranks { min: 0, p25: 5, median: 10, p75: 14, max: 19 });
    for n in 1..500usize {
        let r = five_ranks(n);
        let nearest = |q: f64| ((n as f64 - 1.0) * q).round() as usize;
        assert_eq!(r.p25, nearest(0.25));
        assert_eq!(r.p75, nearest(0.75));
        assert_eq!(r.median, n / 2);
        assert!(r.min <= r.p25 && r.p25 <= r.median && r.median <= r.p75 && r.p75 <= r.max);
        assert_eq!(r.max, n - 1);
    }
}

// ---- schedules of measurements ----

fn actions(c: Counts) -> Vec<Action> {
    let mut stage = c.start();
    let mut out = Vec::new();
    while let Some((action, next)) = c.next(stage) {
        out.push(action);
        stage = next;
    }
    out
}

fn times(list: &[Action], action: Action) -> usize {
    list.iter().filter(|a| **a == action).count()
}

#[test]
fn gemm_measurements() {
    let list = actions(gemm::bench_counts());
    assert_eq!(times(&list, Action::Launch), 5 + 10 * 3);
    assert_eq!(times(&list, Action::Record), 10);
    assert_eq!(list[..5], [Action::Launch; 5]);
    assert_eq!(list[5], Action::Sync);
    let window = [
        Action::Sync,
        Action::Start,
        Action::Launch,
        Action::Launch,
        Action::Launch,
        Action::Sync,
        Action::Record,
    ];
    assert_eq!(list.len(), 6 + 10 * window.len());
    for w in list[6..].chunks(window.len()) {
        assert_eq!(w, window);
    }
}

#[test]
fn other_measurements() {
    let list = actions(elemwise::bench_counts(10));
    assert_eq!(times(&list, Action::Launch), 20 + 25 * 10);
    assert_eq!(times(&list, Action::Record), 25);
    let list = actions(Counts { warmup: 1, samples: 2, iters: 1, settle: false });
    assert_eq!(
        list,
        vec![
            Action::Launch,
            Action::Sync,
            Action::Sync,
            Action::Start,
            Action::Launch,
            Action::Record,
            Action::Sync,
            Action::Start,
            Action::Launch,
            Action::Record,
        ]
    );
    let none = actions(Counts { warmup: 0, samples: 0, iters: 9, settle: true });
    assert_eq!(none, vec![Action::Sync]);
}

#[test]
fn passes_over_a_workload() {
    for (samples, warmup) in [(0, false), (0, true), (5, false), (5, true)] {
        let p = passes(samples, warmup);
        assert_eq!(p.total, samples as u128 + warmup as u128);
        let recorded: Vec<bool> = (0..p.total).map(|i| p.is_recorded(i)).collect();
        assert_eq!(recorded.iter().filter(|r| **r).count(), samples);
        assert_eq!(recorded.iter().position(|r| !*r), if warmup { Some(0) } else { None });
        assert!(!p.is_recorded(p.total));
    }
    assert_eq!(passes(usize::MAX, true).total, usize::MAX as u128 + 1);
}

#[test]
fn gemm_entries_and_grids() {
    launches(gemm::Variant::Gemm, "gemm");
    launches(gemm::Variant::GemmIr, "gemm_ir");
    launches(gemm::Variant::GemmPersistent, "gemm_persistent");
    launches(gemm::Variant::GemmPersistentUnchecked, "gemm_persistent_unchecked");
    launches(gemm::Variant::GemmPersistentRaw, "gemm_persistent_raw");
    launches(gemm::Variant::GemmPersistentRawAsserts, "gemm_persistent_raw_asserts");
    launches(gemm::Variant::GemmPersistentMappedIndex, "gemm_persistent_mapped_index");
    launches(gemm::Variant::GemmPersistentIterRawloads, "gemm_persistent_iter_rawloads");
    launches(gemm::Variant::GemmFullOutput, "gemm_full_output");
    launches(gemm::Variant::GemmFullOutputIr, "gemm_full_output_ir");
    launches(gemm::Variant::GemmSafe, "gemm_safe");
    launches(gemm::Variant::GemmSafeIr, "gemm_safe_ir");
    launches(gemm::Variant::GemmPersistentSafe, "gemm_persistent");
    launches(gemm::Variant::GemmStatic, "gemm_static");
    launches(gemm::Variant::GemmStaticIr, "gemm_static_ir");
    launches(gemm::Variant::GemmPersistentStatic, "gemm_persistent_static");
    let output = (8, 4, 1);
    let asked = Some((148, 1, 1));
    assert_eq!(gemm::bench_grid(asked, output), (148, 1, 1));
    assert_eq!(gemm::bench_grid(None, output), output);
    let plan = |v| gemm::launch_plan(v, asked, output, 8, true);
    let p = plan(gemm::Variant::GemmPersistentSafe);
    assert_eq!((p.map, p.grid, p.const_grid), (Some((8, 1, 148)), None, None));
    let p = plan(gemm::Variant::GemmPersistentRaw);
    assert_eq!((p.map, p.grid, p.const_grid), (None, asked, None));
    let p = plan(gemm::Variant::GemmFullOutput);
    assert_eq!((p.map, p.grid, p.const_grid), (None, Some(output), None));
    let p = plan(gemm::Variant::GemmStatic);
    assert_eq!((p.map, p.grid, p.const_grid), (None, None, Some(output)));
    let p = plan(gemm::Variant::GemmPersistentStatic);
    assert_eq!((p.map, p.grid, p.const_grid), (Some((8, 1, 148)), None, asked));
    let p = gemm::launch_plan(gemm::Variant::GemmPersistent, None, output, 8, false);
    assert_eq!(p.map, Some((1, 1, 8)));
    let p = plan(gemm::Variant::Gemm);
    assert_eq!((p.map, p.grid, p.const_grid), (None, None, None));
}

fn launches(variant: gemm::Variant, entry: &str) {
    assert_eq!(variant.entry(), entry);
    assert_eq!(gemm::launch_plan(variant, None, (1, 1, 1), 1, false).entry, entry);
}
