use vstd::prelude::*;

use crate::aggregate::{aggregate_model, aggregate_samples, thread_model};
use crate::module_info::ModuleInfo;
use crate::process_info::ProcessInfo;
use crate::raw_sample::RawSample;
use crate::path::path_file_name;
use crate::symbol_table::{SymbolInfo, SymbolResolver, SymbolTable};
use crate::text::{
    append_padded, dec_seq, dec_string, hex_prefixed, hex_prefixed_string, pad_to, secs_millis,
    secs_string, spaces, spaces_string,
};
use crate::thread_sample::{frames, preorder_forest, ThreadSample};

verus! {

/// The completed result of one profiling run: the process description, one
/// result per observed thread, and the run's symbol cache. This is the
/// sole artifact handed to the renderer.
#[derive(Debug)]
pub struct ProcessSample {
    pub process_info: ProcessInfo,
    pub threads: Vec<ThreadSample>,
    pub symbol_table: SymbolTable,
}

/// The seconds renderings of a user/kernel pair and of their sum, as every
/// CPU-time line shows them.
pub open spec fn cpu_times_part(user: u64, kernel: u64) -> Seq<char>
    recommends
        user + kernel <= u64::MAX,
{
    secs_millis((user + kernel) as u64) + "s (user: "@ + secs_millis(user) + "s, kernel: "@
        + secs_millis(kernel) + "s)\n"@
}

/// The report's first line: pid and executable path.
pub open spec fn process_header(p: ProcessInfo) -> Seq<char> {
    "Process: "@ + dec_seq(p.pid as int) + " - "@ + p.path@ + "\n"@
}

/// The process CPU-time line.
pub open spec fn cpu_time_line(user: u64, kernel: u64) -> Seq<char>
    recommends
        user + kernel <= u64::MAX,
{
    "  CPU Time: "@ + cpu_times_part(user, kernel)
}

/// One thread's header line: its id and CPU-time deltas.
pub open spec fn thread_header(t: ThreadSample) -> Seq<char>
    recommends
        t.user_cpu_time + t.kernel_cpu_time <= u64::MAX,
{
    "Thread "@ + dec_seq(t.thread_id as int) + "    CPU Time: "@ + cpu_times_part(
        t.user_cpu_time,
        t.kernel_cpu_time,
    )
}

/// The function name the report shows for an address: the cached one, or
/// the explicit placeholder.
pub open spec fn symbol_function_name(st: Map<u64, SymbolInfo>, address: u64) -> Seq<char> {
    if st.dom().contains(address) && st[address].function is Some {
        st[address].function->0@
    } else {
        "{unknown}"@
    }
}

/// The module name the report shows for an address: the final component
/// of the cached module path, or the explicit placeholder.
pub open spec fn symbol_module_name(st: Map<u64, SymbolInfo>, address: u64) -> Seq<char> {
    if st.dom().contains(address) && st[address].module is Some && path_file_name(
        st[address].module->0@,
    ) is Some {
        path_file_name(st[address].module->0@)->0
    } else {
        "{unknown}"@
    }
}

/// One call-tree line: indentation by level, hit count, resolved names,
/// and the raw address, for the (level, address, count) triple `f`.
pub open spec fn sample_line(st: Map<u64, SymbolInfo>, f: (int, u64, int)) -> Seq<char> {
    " "@ + spaces(f.0) + dec_seq(f.2) + " - "@ + symbol_function_name(st, f.1) + "  (in "@
        + symbol_module_name(st, f.1) + ")  ["@ + hex_prefixed(f.1 as int) + "]\n"@
}

/// The call-tree lines for the first `n` triples of a pre-order listing.
pub open spec fn sample_lines(st: Map<u64, SymbolInfo>, fs: Seq<(int, u64, int)>, n: int) -> Seq<
    char,
>
    decreases n,
{
    if n <= 0 || n > fs.len() {
        Seq::empty()
    } else {
        sample_lines(st, fs, n - 1) + sample_line(st, fs[n - 1])
    }
}

/// One thread's whole section: its header, then its call tree depth-first
/// and pre-order, the synthetic root skipped.
pub open spec fn thread_section(st: Map<u64, SymbolInfo>, t: ThreadSample) -> Seq<char> {
    let fs = preorder_forest(t.sample_tree@.children, t.sample_tree@.children.len() as int);
    thread_header(t) + sample_lines(st, fs, fs.len() as int)
}

/// The sections of the first `n` threads.
pub open spec fn thread_sections(st: Map<u64, SymbolInfo>, ts: Seq<ThreadSample>, n: int) -> Seq<
    char,
>
    decreases n,
{
    if n <= 0 || n > ts.len() {
        Seq::empty()
    } else {
        thread_sections(st, ts, n - 1) + thread_section(st, ts[n - 1])
    }
}

/// The module name the report shows in the module list: the final
/// component of the module's path, or the explicit placeholder.
pub open spec fn module_file_name(m: ModuleInfo) -> Seq<char> {
    if path_file_name(m.path@) is Some {
        path_file_name(m.path@)->0
    } else {
        "{unknown}"@
    }
}

/// One module-list line: the module's address range, its name padded to a
/// fixed column, and its path.
pub open spec fn module_line(m: ModuleInfo) -> Seq<char>
    recommends
        m.base_address + m.size <= u64::MAX,
{
    "  "@ + hex_prefixed(m.base_address as int) + " - "@ + hex_prefixed(
        m.base_address + m.size,
    ) + "  "@ + pad_to(module_file_name(m), 24) + " "@ + m.path@ + "\n"@
}

/// The lines of the first `n` modules.
pub open spec fn module_lines(ms: Seq<ModuleInfo>, n: int) -> Seq<char>
    decreases n,
{
    if n <= 0 || n > ms.len() {
        Seq::empty()
    } else {
        module_lines(ms, n - 1) + module_line(ms[n - 1])
    }
}

/// The whole textual report of a run.
pub open spec fn report(ps: ProcessSample) -> Seq<char> {
    process_header(ps.process_info) + cpu_time_line(
        ps.process_info.user_cpu_time,
        ps.process_info.kernel_cpu_time,
    ) + "\n"@ + thread_sections(
        ps.symbol_table.address_to_symbol_table@,
        ps.threads@,
        ps.threads@.len() as int,
    ) + "\n"@ + "Modules:\n"@ + module_lines(
        ps.process_info.modules@,
        ps.process_info.modules@.len() as int,
    )
}

impl ProcessSample {
    /// What rendering needs of the machine arithmetic: no CPU-time sum and
    /// no module address range overflows its 64 bits.
    pub open spec fn renderable(self) -> bool {
        &&& self.process_info.user_cpu_time + self.process_info.kernel_cpu_time <= u64::MAX
        &&& forall|i: int|
            0 <= i < self.threads@.len() ==> (#[trigger] self.threads@[i]).user_cpu_time
                + self.threads@[i].kernel_cpu_time <= u64::MAX
        &&& forall|i: int|
            0 <= i < self.process_info.modules@.len()
                ==> (#[trigger] self.process_info.modules@[i]).base_address
                + self.process_info.modules@[i].size <= u64::MAX
    }

    pub fn new(process_info: ProcessInfo, threads: Vec<ThreadSample>, symbol_table: SymbolTable) -> (r:
        Self)
        ensures
            r.process_info == process_info,
            r.threads == threads,
            r.symbol_table == symbol_table,
    {
        Self { process_info, threads, symbol_table }
    }

    /// Renders the run's report: the process header and CPU-time line, a
    /// section per thread — header, then its call tree depth-first and
    /// pre-order, children in discovery order, the synthetic root skipped —
    /// and the module list.
    #[verifier::rlimit(60)]
    pub fn render(&self) -> (r: String)
        requires
            self.renderable(),
        ensures
            r@ == report(*self),
    {
        let mut out = String::from_str("Process: ");
        let piece = dec_string(self.process_info.pid as u64);
        out.append(piece.as_str());
        out.append(" - ");
        out.append(self.process_info.path.as_str());
        out.append("\n");
        out.append("  CPU Time: ");
        append_cpu_times(
            &mut out,
            self.process_info.user_cpu_time,
            self.process_info.kernel_cpu_time,
        );
        out.append("\n");
        let ghost preamble = process_header(self.process_info) + cpu_time_line(
            self.process_info.user_cpu_time,
            self.process_info.kernel_cpu_time,
        ) + "\n"@;
        proof {
            assert(out@ =~= preamble);
        }
        let ghost st = self.symbol_table.address_to_symbol_table@;
        proof {
            assert(out@ =~= preamble + thread_sections(st, self.threads@, 0));
        }
        let tn = self.threads.len();
        let mut i: usize = 0;
        while i < tn
            invariant
                self.renderable(),
                tn == self.threads@.len(),
                i <= tn,
                st == self.symbol_table.address_to_symbol_table@,
                preamble == process_header(self.process_info) + cpu_time_line(
                    self.process_info.user_cpu_time,
                    self.process_info.kernel_cpu_time,
                ) + "\n"@,
                out@ == preamble + thread_sections(st, self.threads@, i as int),
            decreases tn - i,
        {
            let ghost out_before = out@;
            let t = &self.threads[i];
            out.append("Thread ");
            let piece = dec_string(t.thread_id as u64);
            out.append(piece.as_str());
            out.append("    CPU Time: ");
            append_cpu_times(&mut out, t.user_cpu_time, t.kernel_cpu_time);
            proof {
                assert(out@ =~= out_before + thread_header(self.threads@[i as int]));
            }
            let ghost header_done = out@;
            let points = t.sample_tree_dfs_iter();
            let ghost fs = frames(points@);
            proof {
                assert(out@ =~= header_done + sample_lines(st, fs, 0));
            }
            let pn = points.len();
            let mut j: usize = 0;
            while j < pn
                invariant
                    st == self.symbol_table.address_to_symbol_table@,
                    pn == points@.len(),
                    j <= pn,
                    fs == frames(points@),
                    out@ == header_done + sample_lines(st, fs, j as int),
                decreases pn - j,
            {
                append_sample_line(&mut out, &self.symbol_table, &points[j]);
                proof {
                    assert(fs[j as int] == (
                        points@[j as int].level as int,
                        points@[j as int].address,
                        points@[j as int].count as int,
                    ));
                    assert(out@ =~= header_done + sample_lines(st, fs, j as int + 1));
                }
                j = j + 1;
            }
            proof {
                assert(fs.len() == preorder_forest(
                    self.threads@[i as int].sample_tree@.children,
                    self.threads@[i as int].sample_tree@.children.len() as int,
                ).len());
                assert(out@ =~= out_before + thread_section(st, self.threads@[i as int]));
                assert(out@ =~= preamble + thread_sections(st, self.threads@, i as int + 1));
            }
            i = i + 1;
        }
        out.append("\n");
        out.append("Modules:\n");
        let ghost mid_done = out@;
        proof {
            assert(out@ =~= mid_done + module_lines(self.process_info.modules@, 0));
        }
        let mn = self.process_info.modules.len();
        let mut k: usize = 0;
        while k < mn
            invariant
                self.renderable(),
                mn == self.process_info.modules@.len(),
                k <= mn,
                out@ == mid_done + module_lines(self.process_info.modules@, k as int),
            decreases mn - k,
        {
            let ghost line_before = out@;
            let m = &self.process_info.modules[k];
            out.append("  ");
            let range = m.address_range();
            let piece = hex_prefixed_string(range.start);
            out.append(piece.as_str());
            out.append(" - ");
            let piece = hex_prefixed_string(range.end);
            out.append(piece.as_str());
            out.append("  ");
            match m.name() {
                Some(name) => append_padded(&mut out, name, 24),
                None => append_padded(&mut out, "{unknown}", 24),
            }
            out.append(" ");
            out.append(m.path.as_str());
            out.append("\n");
            proof {
                assert(out@ =~= line_before + module_line(
                    self.process_info.modules@[k as int],
                ));
            }
            k = k + 1;
        }
        proof {
            assert(out@ =~= report(*self));
        }
        out
    }
}

/// Every address captured in the first `n` samples of a run.
pub open spec fn all_addresses(rs: Seq<RawSample>, n: int) -> Set<u64>
    decreases n,
{
    if n <= 0 || n > rs.len() {
        Set::empty()
    } else {
        all_addresses(rs, n - 1) + rs[n - 1].backtrace@.to_set()
    }
}

/// The absolute difference of two readings, as the CPU-time deltas
/// bracketing a run are taken.
pub open spec fn reading_delta(before: u64, after: u64) -> u64 {
    if after >= before {
        (after - before) as u64
    } else {
        (before - after) as u64
    }
}

/// Completes a run once sampling has ended: resolves every captured
/// address — each one once — into a fresh symbol table, groups and folds
/// the raw samples into per-thread results, and assembles the final
/// result around the process's CPU-time readings bracketing the run.
pub fn assemble_process_sample<R: SymbolResolver>(
    pid: crate::Pid,
    path: String,
    modules: Vec<ModuleInfo>,
    before_user: u64,
    before_kernel: u64,
    after_user: u64,
    after_kernel: u64,
    samples: Vec<RawSample>,
    resolver: &mut R,
) -> (r: ProcessSample)
    requires
        samples@.len() <= u32::MAX,
        forall|i: int| 0 <= i < samples@.len() ==> (#[trigger] samples@[i]).backtrace@.len()
            <= u32::MAX,
    ensures
        r.process_info.pid == pid,
        r.process_info.path == path,
        r.process_info.modules == modules,
        r.process_info.user_cpu_time == reading_delta(before_user, after_user),
        r.process_info.kernel_cpu_time == reading_delta(before_kernel, after_kernel),
        r.threads@.map_values(|ts: crate::thread_sample::ThreadSample| thread_model(ts))
            == aggregate_model(samples@),
        r.symbol_table.address_to_symbol_table@.dom() == all_addresses(
            samples@,
            samples@.len() as int,
        ),
{
    let mut symbol_table = SymbolTable::new();
    let n = samples.len();
    let mut j: usize = 0;
    proof {
        assert(symbol_table.address_to_symbol_table@.dom() =~= all_addresses(samples@, 0));
    }
    while j < n
        invariant
            n == samples@.len(),
            j <= n,
            symbol_table.address_to_symbol_table@.dom() == all_addresses(samples@, j as int),
        decreases n - j,
    {
        symbol_table.symbolicate(samples[j].get_backtrace(), resolver);
        j = j + 1;
    }
    let threads = aggregate_samples(&samples);
    let user_delta = if after_user >= before_user {
        after_user - before_user
    } else {
        before_user - after_user
    };
    let kernel_delta = if after_kernel >= before_kernel {
        after_kernel - before_kernel
    } else {
        before_kernel - after_kernel
    };
    ProcessSample::new(
        ProcessInfo::new(pid, path, modules, user_delta, kernel_delta),
        threads,
        symbol_table,
    )
}

/// Appends one call-tree line: indentation by level, hit count, the names
/// the symbol cache resolves for the point's address, and the address.
fn append_sample_line(out: &mut String, table: &SymbolTable, point: &crate::sample_point::SamplePoint)
    ensures
        final(out)@ == old(out)@ + sample_line(
            table.address_to_symbol_table@,
            (point.level as int, point.address, point.count as int),
        ),
{
    out.append(" ");
    let piece = spaces_string(point.level);
    out.append(piece.as_str());
    let piece = dec_string(point.count as u64);
    out.append(piece.as_str());
    out.append(" - ");
    match table.symbol(point.address) {
        Some(info) => {
            match info.get_function() {
                Some(name) => out.append(name),
                None => out.append("{unknown}"),
            }
            out.append("  (in ");
            match info.get_module_name() {
                Some(name) => out.append(name),
                None => out.append("{unknown}"),
            }
        },
        None => {
            out.append("{unknown}");
            out.append("  (in ");
            out.append("{unknown}");
        },
    }
    out.append(")  [");
    let piece = hex_prefixed_string(point.address);
    out.append(piece.as_str());
    out.append("]\n");
    proof {
        assert(out@ =~= old(out)@ + sample_line(
            table.address_to_symbol_table@,
            (point.level as int, point.address, point.count as int),
        ));
    }
}

/// Appends the seconds renderings of a user/kernel pair and their sum.
fn append_cpu_times(out: &mut String, user: u64, kernel: u64)
    requires
        user + kernel <= u64::MAX,
    ensures
        final(out)@ == old(out)@ + cpu_times_part(user, kernel),
{
    let piece = secs_string(user + kernel);
    out.append(piece.as_str());
    out.append("s (user: ");
    let piece = secs_string(user);
    out.append(piece.as_str());
    out.append("s, kernel: ");
    let piece = secs_string(kernel);
    out.append(piece.as_str());
    out.append("s)\n");
    proof {
        assert(out@ =~= old(out)@ + cpu_times_part(user, kernel));
    }
}

} // verus!
