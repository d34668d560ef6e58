use vstd::prelude::*;

verus! {

/// The platform's account of a failed call: its status code and its
/// rendered message.
#[derive(Debug, Clone)]
pub struct OsError {
    pub code: i32,
    pub message: String,
}

/// The failures a profiling run can end with. Attachment and symbol
/// initialization are one-shot: either fails before any sampling starts
/// and aborts the whole run. A backtrace failure is thread-scoped and
/// never surfaces at run level.
#[derive(Debug)]
pub enum Error {
    AttachProcessFailed(OsError),
    SymInitializeFailed(OsError),
    BacktraceFailed(OsError),
}

/// The report line for a failure.
pub open spec fn error_message(e: Error) -> Seq<char> {
    match e {
        Error::AttachProcessFailed(inner) => "unable to attach to the specified process for sampling: "@
            + inner.message@,
        Error::SymInitializeFailed(inner) => "unable to initialize symbolication: "@
            + inner.message@,
        Error::BacktraceFailed(inner) => "unable to capture backtrace: "@ + inner.message@,
    }
}

impl Error {
    /// What the failure means, with the platform's own message appended.
    pub fn message(&self) -> (r: String)
        ensures
            r@ == error_message(*self),
    {
        match self {
            Error::AttachProcessFailed(inner) => {
                let mut s = String::from_str(
                    "unable to attach to the specified process for sampling: ",
                );
                s.append(inner.message.as_str());
                s
            },
            Error::SymInitializeFailed(inner) => {
                let mut s = String::from_str("unable to initialize symbolication: ");
                s.append(inner.message.as_str());
                s
            },
            Error::BacktraceFailed(inner) => {
                let mut s = String::from_str("unable to capture backtrace: ");
                s.append(inner.message.as_str());
                s
            },
        }
    }
}

} // verus!
