use spinsample::aggregate::aggregate_samples;
use spinsample::cancel_status::CancelStatus;
use spinsample::error::{Error, OsError};
use spinsample::module_info::ModuleInfo;
use spinsample::process_info::ProcessInfo;
use spinsample::process_sample::{assemble_process_sample, ProcessSample};
use spinsample::raw_sample::{cpu_time_from_parts, RawSample};
use spinsample::sampling_loop::{wait_method, LoopState, SamplingLoop, WaitMethod};
use spinsample::symbol_table::{SymbolResolver, SymbolTable, SymbolicatedFrame};
use spinsample::text::{dec_string, hex_prefixed_string, secs_string};

struct CountingResolver {
    calls: u32,
}

impl SymbolResolver for CountingResolver {
    fn resolve(&mut self, address: u64) -> SymbolicatedFrame {
        self.calls += 1;
        SymbolicatedFrame {
            function: Some(format!("fn_{address:x}")),
            module: Some(String::from("C:\\bin\\target.exe")),
        }
    }
}

#[test]
fn test_cpu_time_delta_is_range_of_readings() {
    let readings = [100u64, 150, 120, 200];
    let raw: Vec<RawSample> = readings
        .iter()
        .map(|&r| RawSample::new(5, r, r + 7, vec![1, 2]))
        .collect();

    let threads = aggregate_samples(&raw);
    assert_eq!(threads.len(), 1);
    assert_eq!(threads[0].thread_id, 5);
    assert_eq!(threads[0].user_cpu_time, 100);
    assert_eq!(threads[0].kernel_cpu_time, 100);
}

#[test]
fn test_grouping_order_independent() {
    let a = |user: u64| RawSample::new(1, user, 0, vec![10, 11]);
    let b = |user: u64| RawSample::new(2, user, 0, vec![20]);

    let grouped = vec![a(5), a(9), b(3), b(4)];
    let shuffled = vec![b(3), a(5), b(4), a(9)];

    let t1 = aggregate_samples(&grouped);
    let t2 = aggregate_samples(&shuffled);
    assert_eq!(format!("{t1:?}"), format!("{t2:?}"));
}

#[test]
fn test_aggregate_empty_run() {
    let threads = aggregate_samples(&Vec::new());
    assert!(threads.is_empty());
}

#[test]
fn test_end_to_end_two_threads() {
    // Two threads, three ticks each, the same leaf-first backtrace every
    // time: each thread folds into one unbranched chain, every node hit
    // three times, the outermost frame (the backtrace's last address)
    // right below the root.
    let mut raw = Vec::new();
    for _tick in 0..3 {
        raw.push(RawSample::new(101, 10, 20, vec![0xa, 0xb, 0xc]));
        raw.push(RawSample::new(102, 30, 40, vec![0xa, 0xb, 0xc]));
    }

    let threads = aggregate_samples(&raw);
    assert_eq!(threads.len(), 2);
    assert_eq!(threads[0].thread_id, 101);
    assert_eq!(threads[1].thread_id, 102);
    for t in &threads {
        assert_eq!(t.sample_tree.value.count, 3);
        let points = t.sample_tree_dfs_iter();
        let listed: Vec<(u32, u64, u32)> =
            points.iter().map(|p| (p.level, p.address, p.count)).collect();
        assert_eq!(listed, vec![(1, 0xc, 3), (2, 0xb, 3), (3, 0xa, 3)]);
        assert_eq!(t.user_cpu_time, 0);
        assert_eq!(t.kernel_cpu_time, 0);
    }
}

#[test]
fn test_cancellation_precedence() {
    // A cancellation request already pending at the first poll: zero ticks,
    // zero samples, Cancelled — not TimedOut.
    let mut run = SamplingLoop::new(10_000_000_000);
    let proceed = run.begin_tick(0, true);
    assert!(!proceed);
    assert_eq!(run.state, LoopState::Cancelled);
    assert_eq!(run.ticks, 0);
    assert!(run.samples.is_empty());
}

#[test]
fn test_loop_times_out_after_duration() {
    let mut run = SamplingLoop::new(1_000);
    assert!(run.begin_tick(0, false));
    run.record_tick(vec![RawSample::new(1, 0, 0, vec![7])]);
    let proceed = run.begin_tick(1_000, true);
    assert!(!proceed);
    assert_eq!(run.state, LoopState::TimedOut);
    assert_eq!(run.ticks, 1);
    assert_eq!(run.samples.len(), 1);
}

#[test]
fn test_wait_method_threshold() {
    assert_eq!(wait_method(20_000_001), WaitMethod::Sleep);
    assert_eq!(wait_method(20_000_000), WaitMethod::Spin);
    assert_eq!(wait_method(1_000_000), WaitMethod::Spin);
}

#[test]
fn test_cancel_status_starts_unset() {
    let status = CancelStatus::new();
    assert!(!status.is_canceled());
}

#[test]
fn test_symbol_cache_resolves_each_address_once() {
    let mut table = SymbolTable::new();
    let mut resolver = CountingResolver { calls: 0 };

    table.symbolicate(&vec![0x10, 0x10], &mut resolver);
    assert_eq!(resolver.calls, 1);

    table.symbolicate(&vec![0x10], &mut resolver);
    assert_eq!(resolver.calls, 1);

    table.symbolicate(&vec![0x20, 0x10], &mut resolver);
    assert_eq!(resolver.calls, 2);

    let info = table.symbol(0x10).expect("0x10 was resolved");
    assert_eq!(info.get_function(), Some("fn_10"));
    assert_eq!(info.get_module_name(), Some("target.exe"));
    assert!(table.symbol(0x30).is_none());
}

#[test]
fn test_unresolved_addresses_once_each() {
    let mut table = SymbolTable::new();
    let mut resolver = CountingResolver { calls: 0 };
    table.symbolicate(&vec![0x10], &mut resolver);

    // The lookups one symbolicate pass would make: cached and repeated
    // addresses appear zero times and once, in first-occurrence order.
    let missing = table.unresolved_addresses(&vec![0x10, 0x20, 0x20, 0x30, 0x10]);
    assert_eq!(missing, vec![0x20, 0x30]);
    assert!(table.unresolved_addresses(&vec![0x10]).is_empty());
}

#[test]
fn test_module_info_paths() {
    let module = ModuleInfo::new(String::from("C:\\sys\\drivers\\net.dll"), 0x1000, 0x200);
    assert_eq!(module.name(), Some("net.dll"));
    assert_eq!(module.file_path(), Some("C:\\sys\\drivers\\net.dll"));
    assert_eq!(module.module_dir(), Some("C:\\sys\\drivers"));
    let range = module.address_range();
    assert_eq!(range.start, 0x1000);
    assert_eq!(range.end, 0x1200);

    let bare = ModuleInfo::new(String::from("net.dll"), 0, 1);
    assert_eq!(bare.name(), Some("net.dll"));
    assert_eq!(bare.module_dir(), Some(""));

    let slashed = ModuleInfo::new(String::from("/usr/lib/x.so"), 0, 1);
    assert_eq!(slashed.name(), Some("x.so"));
    assert_eq!(slashed.module_dir(), Some("/usr/lib"));
}

#[test]
fn test_module_info_degenerate_paths() {
    // Trailing separators are ignored, as the platform's path handling
    // ignores them.
    let trailing = ModuleInfo::new(String::from("C:\\sys\\"), 0, 1);
    assert_eq!(trailing.name(), Some("sys"));
    assert_eq!(trailing.module_dir(), Some("C:\\"));

    // A final dot-dot component names no file; popping it leaves its
    // parent-so-far.
    let dotdot = ModuleInfo::new(String::from("a\\.."), 0, 1);
    assert_eq!(dotdot.name(), None);
    assert_eq!(dotdot.module_dir(), Some("a"));

    // A root or prefix-only path has neither name nor parent.
    let root = ModuleInfo::new(String::from("C:\\"), 0, 1);
    assert_eq!(root.name(), None);
    assert_eq!(root.module_dir(), None);
    let prefix = ModuleInfo::new(String::from("C:"), 0, 1);
    assert_eq!(prefix.name(), None);
    assert_eq!(prefix.module_dir(), None);

    // A lone current-directory component names no file and pops to the
    // empty path; a non-leading one is normalized away.
    let dot = ModuleInfo::new(String::from("."), 0, 1);
    assert_eq!(dot.name(), None);
    assert_eq!(dot.module_dir(), Some(""));
    let mid_dot = ModuleInfo::new(String::from("a/./b"), 0, 1);
    assert_eq!(mid_dot.name(), Some("b"));
    assert_eq!(mid_dot.module_dir(), Some("a/."));
    let trail_dot = ModuleInfo::new(String::from("a/."), 0, 1);
    assert_eq!(trail_dot.name(), Some("a"));
    assert_eq!(trail_dot.module_dir(), Some(""));

    // A drive-relative path keeps its prefix; repeated separators are one.
    let drive_relative = ModuleInfo::new(String::from("C:a"), 0, 1);
    assert_eq!(drive_relative.name(), Some("a"));
    assert_eq!(drive_relative.module_dir(), Some("C:"));
    let doubled = ModuleInfo::new(String::from("a//b"), 0, 1);
    assert_eq!(doubled.name(), Some("b"));
    assert_eq!(doubled.module_dir(), Some("a"));
}

#[test]
fn test_module_info_prefixed_paths() {
    // A share root is all prefix: neither name nor parent.
    let share = ModuleInfo::new(String::from("\\\\server\\share"), 0, 1);
    assert_eq!(share.name(), None);
    assert_eq!(share.module_dir(), None);
    let on_share = ModuleInfo::new(String::from("\\\\server\\share\\x.dll"), 0, 1);
    assert_eq!(on_share.name(), Some("x.dll"));
    assert_eq!(on_share.module_dir(), Some("\\\\server\\share\\"));

    // Verbatim and device prefixes likewise contribute no component.
    let verbatim_disk = ModuleInfo::new(String::from("\\\\?\\C:\\a.dll"), 0, 1);
    assert_eq!(verbatim_disk.name(), Some("a.dll"));
    assert_eq!(verbatim_disk.module_dir(), Some("\\\\?\\C:\\"));
    let verbatim = ModuleInfo::new(String::from("\\\\?\\pictures"), 0, 1);
    assert_eq!(verbatim.name(), None);
    assert_eq!(verbatim.module_dir(), None);
    let verbatim_unc = ModuleInfo::new(String::from("\\\\?\\UNC\\srv\\share"), 0, 1);
    assert_eq!(verbatim_unc.name(), None);
    assert_eq!(verbatim_unc.module_dir(), None);
    let device = ModuleInfo::new(String::from("\\\\.\\COM42"), 0, 1);
    assert_eq!(device.name(), None);
    assert_eq!(device.module_dir(), None);

    // Inside a verbatim path only the backslash separates and `.` is an
    // ordinary name.
    let verbatim_dot = ModuleInfo::new(String::from("\\\\?\\C:\\a\\."), 0, 1);
    assert_eq!(verbatim_dot.name(), Some("."));
    assert_eq!(verbatim_dot.module_dir(), Some("\\\\?\\C:\\a"));
    let verbatim_slash = ModuleInfo::new(String::from("\\\\?\\C:/a"), 0, 1);
    assert_eq!(verbatim_slash.name(), None);
    assert_eq!(verbatim_slash.module_dir(), None);
}

#[test]
fn test_cpu_time_from_parts_value() {
    assert_eq!(cpu_time_from_parts(0, 0), 0);
    assert_eq!(cpu_time_from_parts(0, 0xffff_ffff), 0xffff_ffff);
    assert_eq!(cpu_time_from_parts(1, 2), 0x1_0000_0002);
    assert_eq!(cpu_time_from_parts(0xffff_ffff, 0xffff_ffff), u64::MAX);
}

#[test]
fn test_number_renderings() {
    assert_eq!(dec_string(0), "0");
    assert_eq!(dec_string(1234567890), "1234567890");
    assert_eq!(hex_prefixed_string(0), "0x0");
    assert_eq!(hex_prefixed_string(0xdead_beef), "0xdeadbeef");
    assert_eq!(secs_string(0), "0.000");
    assert_eq!(secs_string(1_234_499_999), "1.234");
    assert_eq!(secs_string(1_234_500_000), "1.235");
    assert_eq!(secs_string(59_999_999_999), "60.000");
}

#[test]
fn test_error_messages() {
    let e = Error::AttachProcessFailed(OsError { code: 5, message: String::from("denied") });
    assert_eq!(
        e.message(),
        "unable to attach to the specified process for sampling: denied"
    );
    let e = Error::SymInitializeFailed(OsError { code: 1, message: String::from("no pdb") });
    assert_eq!(e.message(), "unable to initialize symbolication: no pdb");
    let e = Error::BacktraceFailed(OsError { code: 2, message: String::from("gone") });
    assert_eq!(e.message(), "unable to capture backtrace: gone");
}

#[test]
fn test_assemble_process_sample() {
    let raw = vec![
        RawSample::new(9, 100, 10, vec![0x1, 0x2]),
        RawSample::new(9, 160, 25, vec![0x1, 0x3]),
    ];
    let mut resolver = CountingResolver { calls: 0 };
    let sample = assemble_process_sample(
        77,
        String::from("C:\\bin\\app.exe"),
        vec![ModuleInfo::new(String::from("C:\\bin\\app.exe"), 0x1000, 0x100)],
        500,
        40,
        900,
        65,
        raw,
        &mut resolver,
    );

    assert_eq!(sample.process_info.pid, 77);
    assert_eq!(sample.process_info.user_cpu_time, 400);
    assert_eq!(sample.process_info.kernel_cpu_time, 25);
    // Three distinct addresses captured, each resolved exactly once.
    assert_eq!(resolver.calls, 3);
    assert!(sample.symbol_table.symbol(0x1).is_some());
    assert!(sample.symbol_table.symbol(0x2).is_some());
    assert!(sample.symbol_table.symbol(0x3).is_some());
    assert!(sample.symbol_table.symbol(0x4).is_none());

    assert_eq!(sample.threads.len(), 1);
    let thread = &sample.threads[0];
    assert_eq!(thread.thread_id, 9);
    assert_eq!(thread.user_cpu_time, 60);
    assert_eq!(thread.kernel_cpu_time, 15);
    // Both backtraces share the leaf 0x1, so the reversed paths fork at
    // the root: [0x2, 0x1] and [0x3, 0x1].
    let points = thread.sample_tree_dfs_iter();
    let listed: Vec<(u32, u64, u32)> =
        points.iter().map(|p| (p.level, p.address, p.count)).collect();
    assert_eq!(listed, vec![(1, 0x2, 1), (2, 0x1, 1), (1, 0x3, 1), (2, 0x1, 1)]);
}

#[test]
fn test_rendered_report() {
    let mut raw = Vec::new();
    raw.push(RawSample::new(7, 1_000_000_000, 500_000_000, vec![0x10, 0x20]));
    raw.push(RawSample::new(7, 3_000_000_000, 1_500_000_000, vec![0x10, 0x20]));
    let threads = aggregate_samples(&raw);

    let mut table = SymbolTable::new();
    let mut resolver = CountingResolver { calls: 0 };
    table.symbolicate(&vec![0x20], &mut resolver);

    let info = ProcessInfo::new(
        42,
        String::from("C:\\bin\\target.exe"),
        vec![ModuleInfo::new(String::from("C:\\bin\\target.exe"), 0x400000, 0x1000)],
        2_500_000_000,
        1_000_000_000,
    );
    let sample = ProcessSample::new(info, threads, table);
    let report = sample.render();

    let mut expected = String::new();
    expected.push_str("Process: 42 - C:\\bin\\target.exe\n");
    expected.push_str("  CPU Time: 3.500s (user: 2.500s, kernel: 1.000s)\n");
    expected.push_str("\n");
    expected.push_str("Thread 7    CPU Time: 3.000s (user: 2.000s, kernel: 1.000s)\n");
    expected.push_str("  2 - fn_20  (in target.exe)  [0x20]\n");
    expected.push_str("   2 - {unknown}  (in {unknown})  [0x10]\n");
    expected.push_str("\n");
    expected.push_str("Modules:\n");
    expected.push_str("  0x400000 - 0x401000  target.exe               C:\\bin\\target.exe\n");
    assert_eq!(report, expected);
}
