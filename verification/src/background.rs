use vstd::prelude::*;

use crate::text::{copy_str, str_eq};

verus! {

/// The state of a background task.
pub enum BackgroundTaskStatus {
    Running,
    Completed,
    Failed(String),
    Cancelled,
}

/// What is known of a background task.
pub struct BackgroundTaskInfo {
    pub id: String,
    pub description: String,
    pub started_at: u64,
    pub status: BackgroundTaskStatus,
}

/// The status and the output (when it has one to record) of a task that
/// ended with `result`: success completes it with its output; the error
/// `cancelled` marks it cancelled; any other error fails it, recorded as
/// its output too.
pub open spec fn outcome_of(result: Result<Seq<char>, Seq<char>>) -> (int, Option<Seq<char>>) {
    match result {
        Ok(out) => (1, Some(out)),
        Err(e) => if e == "cancelled"@ {
            (3, None)
        } else {
            (2, Some(e))
        },
    }
}

/// The status code of a status: 0 running, 1 completed, 2 failed, 3 cancelled.
pub open spec fn status_code(s: BackgroundTaskStatus) -> int {
    match s {
        BackgroundTaskStatus::Running => 0,
        BackgroundTaskStatus::Completed => 1,
        BackgroundTaskStatus::Failed(_) => 2,
        BackgroundTaskStatus::Cancelled => 3,
    }
}

/// The status a finished task takes, and the output to record (none for a
/// cancelled task).
pub fn task_outcome(result: Result<String, String>) -> (r: (BackgroundTaskStatus, Option<String>))
    ensures
        ({
            let (code, out) = outcome_of(
                match result {
                    Ok(o) => Ok(o@),
                    Err(e) => Err(e@),
                },
            );
            &&& status_code(r.0) == code
            &&& r.0 matches BackgroundTaskStatus::Failed(e) ==> Some(e@) == out
            &&& match r.1 {
                Some(s) => out == Some(s@),
                None => out is None,
            }
        }),
{
    match result {
        Ok(out) => (BackgroundTaskStatus::Completed, Some(out)),
        Err(e) => {
            if str_eq(e.as_str(), "cancelled") {
                (BackgroundTaskStatus::Cancelled, None)
            } else {
                let copy = copy_str(e.as_str());
                (BackgroundTaskStatus::Failed(e), Some(copy))
            }
        },
    }
}

/// Whether a task in this state can be cancelled: only a running one.
pub fn is_cancellable(status: &BackgroundTaskStatus) -> (r: bool)
    ensures
        r == (status_code(*status) == 0),
{
    match status {
        BackgroundTaskStatus::Running => true,
        _ => false,
    }
}

} // verus!
