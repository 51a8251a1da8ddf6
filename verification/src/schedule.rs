//! The cadence of a background task: a pass, then a fixed pause, for ever.
//!
//! The pause is counted from the end of a pass, not from its beginning, and
//! is the same whether the pass succeeded or not. A failed pass is reported
//! and otherwise changes nothing. No event stops a task.

use vstd::prelude::*;

verus! {

/// What a task has just done.
#[derive(Debug, Clone, Copy, PartialEq, Eq)]
pub enum TaskEvent {
    /// The task was started.
    Started,
    /// A pass ended without error.
    PassSucceeded,
    /// A pass ended with an error.
    PassFailed,
    /// The pause is over.
    Woke,
}

/// What a task does next.
#[derive(Debug, Clone, Copy, PartialEq, Eq)]
pub enum TaskAction {
    /// Run one pass.
    RunPass,
    /// Pause for `secs` seconds.
    Sleep { secs: u64 },
}

/// The next action of a task, and whether the failure of the pass that has
/// just ended is to be reported first.
#[derive(Debug, Clone, Copy, PartialEq, Eq)]
pub struct TaskStep {
    pub report_failure: bool,
    pub action: TaskAction,
}

/// The step that follows `event` in a task that pauses `interval_secs`
/// seconds between passes.
pub open spec fn next_step(interval_secs: u64, event: TaskEvent) -> TaskStep {
    match event {
        TaskEvent::Started => TaskStep { report_failure: false, action: TaskAction::RunPass },
        TaskEvent::Woke => TaskStep { report_failure: false, action: TaskAction::RunPass },
        TaskEvent::PassSucceeded => TaskStep {
            report_failure: false,
            action: TaskAction::Sleep { secs: interval_secs },
        },
        TaskEvent::PassFailed => TaskStep {
            report_failure: true,
            action: TaskAction::Sleep { secs: interval_secs },
        },
    }
}

/// Decides the step that follows `event`.
pub fn step_after(interval_secs: u64, event: TaskEvent) -> (step: TaskStep)
    ensures
        step == next_step(interval_secs, event),
{
    match event {
        TaskEvent::Started => TaskStep { report_failure: false, action: TaskAction::RunPass },
        TaskEvent::Woke => TaskStep { report_failure: false, action: TaskAction::RunPass },
        TaskEvent::PassSucceeded => TaskStep {
            report_failure: false,
            action: TaskAction::Sleep { secs: interval_secs },
        },
        TaskEvent::PassFailed => TaskStep {
            report_failure: true,
            action: TaskAction::Sleep { secs: interval_secs },
        },
    }
}

/// The event that ends `action`: a pass ends in success or failure, a pause
/// ends in waking.
pub open spec fn ends(action: TaskAction, event: TaskEvent) -> bool {
    match action {
        TaskAction::RunPass => event == TaskEvent::PassSucceeded || event == TaskEvent::PassFailed,
        TaskAction::Sleep { secs } => event == TaskEvent::Woke,
    }
}

/// Passes and pauses alternate, whatever the passes' outcomes: after a pass
/// the task pauses for the full interval, and after the pause it runs the
/// next pass. A failure is reported where a pass failed and nowhere else.
pub proof fn lemma_fixed_delay(interval_secs: u64, action: TaskAction, event: TaskEvent)
    requires
        ends(action, event),
    ensures
        action == TaskAction::RunPass ==> next_step(interval_secs, event).action
            == (TaskAction::Sleep { secs: interval_secs }),
        action != TaskAction::RunPass ==> next_step(interval_secs, event).action
            == TaskAction::RunPass,
        next_step(interval_secs, event).report_failure <==> event == TaskEvent::PassFailed,
{
}

} // verus!
