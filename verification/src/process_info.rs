use vstd::prelude::*;

use crate::module_info::ModuleInfo;
use crate::Pid;

verus! {

/// The static description of the profiled process, collected once per run:
/// its pid, executable path, loaded modules, and the user and kernel CPU
/// time it consumed during the run (the delta of readings bracketing the
/// sampling loop, in the platform's time units).
#[derive(Debug)]
pub struct ProcessInfo {
    pub pid: Pid,
    pub path: String,
    pub modules: Vec<ModuleInfo>,
    pub user_cpu_time: u64,
    pub kernel_cpu_time: u64,
}

impl ProcessInfo {
    pub fn new(
        pid: Pid,
        path: String,
        modules: Vec<ModuleInfo>,
        user_cpu_time: u64,
        kernel_cpu_time: u64,
    ) -> (r: Self)
        ensures
            r.pid == pid,
            r.path == path,
            r.modules == modules,
            r.user_cpu_time == user_cpu_time,
            r.kernel_cpu_time == kernel_cpu_time,
    {
        Self { pid, path, modules, user_cpu_time, kernel_cpu_time }
    }
}

} // verus!
