use vstd::prelude::*;

use std::sync::atomic::AtomicBool;
use std::sync::atomic::Ordering;
use std::sync::Arc;

verus! {

/// A run's cancellation flag: initially unset, set at most once by the
/// installed interrupt handler, and polled — read-only and non-blocking —
/// by the sampling loop. One instance exists per run.
pub struct CancelStatus {
    should_cancel: Arc<AtomicBool>,
}

impl CancelStatus {
    pub fn new() -> Self {
        Self { should_cancel: Arc::new(AtomicBool::new(false)) }
    }

    /// Relies on ctrlc::set_handler: it runs the given closure each time a
    /// console interrupt arrives, on a dedicated thread; the closure here
    /// only marks this run's cancellation flag. Registration failure is
    /// ignored: the run then simply cannot be interrupted.
    #[verifier::external_body]
    pub fn activate_ctrl_c_handler(&self) {
        let flag = Arc::clone(&self.should_cancel);
        let _ = ctrlc::set_handler(move || request_cancel(&flag));
    }

    /// Whether cancellation has been requested so far. The interrupt lands
    /// asynchronously, so nothing is promised of the answer.
    pub fn is_canceled(&self) -> bool {
        self.should_cancel.load(Ordering::SeqCst)
    }
}

/// Marks a run's cancellation flag; called by the interrupt handler.
fn request_cancel(flag: &AtomicBool) {
    flag.store(true, Ordering::SeqCst);
}

} // verus!
