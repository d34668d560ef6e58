use vstd::prelude::*;

use crate::Tid;

verus! {

/// One captured sample: the thread it was taken on, the thread's user and
/// kernel CPU-time readings at capture time (in the platform's time units),
/// and the captured addresses, innermost frame first.
#[derive(Debug)]
pub struct RawSample {
    pub thread_id: Tid,
    pub user_cpu_time: u64,
    pub kernel_cpu_time: u64,
    pub backtrace: Vec<u64>,
}

impl RawSample {
    pub fn new(thread_id: Tid, user_cpu_time: u64, kernel_cpu_time: u64, backtrace: Vec<u64>) -> (r:
        Self)
        ensures
            r.thread_id == thread_id,
            r.user_cpu_time == user_cpu_time,
            r.kernel_cpu_time == kernel_cpu_time,
            r.backtrace == backtrace,
    {
        Self { thread_id, user_cpu_time, kernel_cpu_time, backtrace }
    }

    pub fn get_thread_id(&self) -> (r: Tid)
        ensures
            r == self.thread_id,
    {
        self.thread_id
    }

    pub fn get_user_cpu_time(&self) -> (r: u64)
        ensures
            r == self.user_cpu_time,
    {
        self.user_cpu_time
    }

    pub fn get_kernel_cpu_time(&self) -> (r: u64)
        ensures
            r == self.kernel_cpu_time,
    {
        self.kernel_cpu_time
    }

    pub fn get_backtrace(&self) -> (r: &Vec<u64>)
        ensures
            r == &self.backtrace,
    {
        &self.backtrace
    }
}

/// Rebuilds one 64-bit CPU-time reading from the two 32-bit halves the
/// platform hands out.
pub fn cpu_time_from_parts(high: u32, low: u32) -> (r: u64)
    ensures
        r == high as u64 * 0x1_0000_0000 + low as u64,
{
    (high as u64) * 0x1_0000_0000u64 + (low as u64)
}

} // verus!
