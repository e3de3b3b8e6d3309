//! The registration of the daily check-in tasks, one time after another: create the task,
//! then relax its settings. A failed creation stops the round with its error; a failed
//! relaxation only adds a warning (the task exists and runs with the default settings).
//! At the end the warnings, if any, are logged on one line. The command layer runs
//! `schtasks` and reports each outcome to `register_step`, which says what to do next.

use vstd::prelude::*;
use crate::schedule::{register_failure_message, relax_warning_message};
use crate::text::{join, push_str, string_from, trim};

verus! {

/// Where a registration round stands: the index of the time being registered, and the
/// warnings collected so far.
pub struct RegisterRound {
    pub next: usize,
    pub warnings: Vec<String>,
}

/// What the command layer reports.
pub enum RegisterEvent {
    /// The round begins (after the old tasks were deleted).
    Start,
    /// `schtasks /Create` for the current time ran: whether it succeeded, and its stderr.
    Created { ok: bool, stderr: String },
    /// Relaxing the current task's settings ended, with its error if it failed.
    Relaxed { error: Option<String> },
}

/// What to do next.
pub enum RegisterAction {
    /// Create the task of `times[i]`.
    Create(usize),
    /// Relax the settings of the task of `times[i]`.
    Relax(usize),
    /// Stop the round with this error.
    Fail(String),
    /// The round is over: return the warnings, and write this log line first if there is one.
    Finish(Option<String>),
}

/// The error when creating the task for `time` failed.
pub open spec fn register_failure(time: Seq<char>, stderr: Seq<char>) -> Seq<char> {
    "注册任务 "@ + time + " 失败: "@ + trim(stderr)
}

/// The warning when the task for `time` was created but not relaxed.
pub open spec fn relax_warning(time: Seq<char>, err: Seq<char>) -> Seq<char> {
    time + " 的设置放宽失败（任务已注册，按默认设置运行）: "@ + err
}

/// The log line of a round's warnings, joined by `；`; none without warnings.
pub open spec fn registration_log(warnings: Seq<Seq<char>>) -> Option<Seq<char>> {
    if warnings.len() == 0 {
        None
    } else {
        Some("WorkBuddy 签到任务设置放宽警告: "@ + join(warnings, "；"@))
    }
}

/// The text of an optional string.
pub open spec fn opt_text(o: Option<String>) -> Option<Seq<char>> {
    match o {
        Some(s) => Some(s@),
        None => None,
    }
}

/// The warnings after the relaxation of `time` ended with `error`.
pub open spec fn warnings_after(warnings: Seq<Seq<char>>, time: Seq<char>, error: Option<String>) -> Seq<Seq<char>> {
    match error {
        Some(e) => warnings.push(relax_warning(time, e@)),
        None => warnings,
    }
}

/// The strings of `list` joined by `sep`.
fn joined(list: &Vec<String>, sep: &str) -> (r: String)
    ensures
        r@ == join(list.deep_view(), sep@),
{
    let mut out: Vec<char> = Vec::new();
    let mut i: usize = 0;
    while i < list.len()
        invariant
            i <= list.len(),
            out@ == join(list.deep_view().take(i as int), sep@),
        decreases list.len() - i,
    {
        let ghost t = list.deep_view().take(i + 1);
        proof {
            assert(t.drop_last() =~= list.deep_view().take(i as int));
            assert(t.last() == list@[i as int]@);
        }
        if i > 0 {
            push_str(&mut out, sep);
        }
        push_str(&mut out, list[i].as_str());
        i += 1;
    }
    assert(list.deep_view().take(list.len() as int) =~= list.deep_view());
    string_from(&out)
}

/// The log line for a round's warnings.
fn warnings_log(warnings: &Vec<String>) -> (r: Option<String>)
    ensures
        opt_text(r) == registration_log(warnings.deep_view()),
{
    if warnings.len() == 0 {
        None
    } else {
        let j = joined(warnings, "；");
        let mut out: Vec<char> = Vec::new();
        push_str(&mut out, "WorkBuddy 签到任务设置放宽警告: ");
        push_str(&mut out, j.as_str());
        Some(string_from(&out))
    }
}

/// One step of a registration round over `times`: the next state and what to do.
/// - `Start` begins at the first time (a round without times is over at once);
/// - a failed creation stops the round with `注册任务 <time> 失败: <stderr>`; a successful
///   one goes on to relax that task;
/// - a relaxation adds a warning when it failed, then the next time is created, or, after
///   the last, the round finishes with the log line of its warnings.
/// An event that comes when no time is left finishes the round as it stands.
pub fn register_step(times: &Vec<String>, round: RegisterRound, ev: RegisterEvent) -> (r: (
    RegisterRound,
    RegisterAction,
))
    ensures
        match ev {
            RegisterEvent::Start => {
                &&& r.0.next == 0
                &&& r.0.warnings@.len() == 0
                &&& if times.len() == 0 {
                    r.1 matches RegisterAction::Finish(l) && l is None
                } else {
                    r.1 matches RegisterAction::Create(i) && i == 0
                }
            },
            RegisterEvent::Created { ok, stderr } => {
                &&& r.0.next == round.next
                &&& r.0.warnings.deep_view() == round.warnings.deep_view()
                &&& if round.next >= times.len() {
                    r.1 matches RegisterAction::Finish(l) && opt_text(l) == registration_log(
                        round.warnings.deep_view(),
                    )
                } else if !ok {
                    r.1 matches RegisterAction::Fail(e) && e@ == register_failure(
                        times@[round.next as int]@,
                        stderr@,
                    )
                } else {
                    r.1 matches RegisterAction::Relax(i) && i == round.next
                }
            },
            RegisterEvent::Relaxed { error } => if round.next >= times.len() {
                &&& r.0.next == round.next
                &&& r.0.warnings.deep_view() == round.warnings.deep_view()
                &&& r.1 matches RegisterAction::Finish(l) && opt_text(l) == registration_log(
                    round.warnings.deep_view(),
                )
            } else {
                let w = warnings_after(
                    round.warnings.deep_view(),
                    times@[round.next as int]@,
                    error,
                );
                &&& r.0.next == round.next + 1
                &&& r.0.warnings.deep_view() == w
                &&& if round.next + 1 < times.len() {
                    r.1 matches RegisterAction::Create(i) && i == round.next + 1
                } else {
                    r.1 matches RegisterAction::Finish(l) && opt_text(l) == registration_log(w)
                }
            },
        },
{
    match ev {
        RegisterEvent::Start => {
            let fresh = RegisterRound { next: 0, warnings: Vec::new() };
            if times.len() == 0 {
                (fresh, RegisterAction::Finish(None))
            } else {
                (fresh, RegisterAction::Create(0))
            }
        },
        RegisterEvent::Created { ok, stderr } => {
            if round.next >= times.len() {
                let log = warnings_log(&round.warnings);
                (round, RegisterAction::Finish(log))
            } else if !ok {
                let e = register_failure_message(times[round.next].as_str(), stderr.as_str());
                (round, RegisterAction::Fail(e))
            } else {
                let i = round.next;
                (round, RegisterAction::Relax(i))
            }
        },
        RegisterEvent::Relaxed { error } => {
            if round.next >= times.len() {
                let log = warnings_log(&round.warnings);
                (round, RegisterAction::Finish(log))
            } else {
                let i = round.next;
                let mut warnings = round.warnings;
                let ghost before = warnings.deep_view();
                match error {
                    Some(e) => {
                        let w = relax_warning_message(times[i].as_str(), e.as_str());
                        warnings.push(w);
                        assert(warnings.deep_view() =~= before.push(w@));
                    },
                    None => {},
                }
                let n = i + 1;
                if n < times.len() {
                    (RegisterRound { next: n, warnings }, RegisterAction::Create(n))
                } else {
                    let log = warnings_log(&warnings);
                    (RegisterRound { next: n, warnings }, RegisterAction::Finish(log))
                }
            }
        },
    }
}

} // verus!
