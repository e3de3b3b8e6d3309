//! Reading what the check-in script printed (NDJSON, one JSON value per line) and
//! turning the round's final `done` line into the log and notification texts.

use vstd::prelude::*;
use crate::decimal::{int_text, push_i64};
use crate::script_args::{growth_args, unattended_checkin_args, unattended_checkin_arg_list, workbuddy_growth_run};
use crate::text::{lines, lines_of, owned, push_range, push_str, string_from, string_of, trim, trim_bounds, trimmed};

verus! {

/// What the reports read from one JSON line: its `type` when that is a string, and its
/// `ok`, `already` and `failed` counters when they are integers.
pub struct JsonLine {
    pub kind: Option<String>,
    pub ok: Option<i64>,
    pub already: Option<i64>,
    pub failed: Option<i64>,
}

/// The plain values of a `JsonLine`.
pub open spec fn json_line_view(j: JsonLine) -> (Option<Seq<char>>, Option<i64>, Option<i64>, Option<i64>) {
    (
        match j.kind {
            Some(k) => Some(k@),
            None => None,
        },
        j.ok,
        j.already,
        j.failed,
    )
}

/// What `serde_json` reads from one line: `None` when the text is not JSON; else the
/// `type` (as a string), `ok`, `already` and `failed` (as `i64`) members of the value.
pub uninterp spec fn json_line_fields(line: Seq<char>) -> Option<(Option<Seq<char>>, Option<i64>, Option<i64>, Option<i64>)>;

/// `serde_json::from_str::<serde_json::Value>` on a line, and `Value::get` with
/// `Value::as_str` / `Value::as_i64` on its members. The result is named by
/// `json_line_fields`; JSON syntax itself is left unsaid here.
#[verifier::external_body]
fn parse_json_line(line: &str) -> (r: Option<JsonLine>)
    ensures
        match r {
            Some(j) => json_line_fields(line@) == Some(json_line_view(j)),
            None => json_line_fields(line@) is None,
        },
{
    match serde_json::from_str::<serde_json::Value>(line) {
        Ok(v) => Some(JsonLine {
            kind: v.get("type").and_then(|t| t.as_str()).map(|t| t.to_string()),
            ok: v.get("ok").and_then(|x| x.as_i64()),
            already: v.get("already").and_then(|x| x.as_i64()),
            failed: v.get("failed").and_then(|x| x.as_i64()),
        }),
        Err(_) => None,
    }
}

/// The last line, once trimmed, that is JSON: its text and what it holds.
pub open spec fn last_json(ls: Seq<Seq<char>>) -> Option<(Seq<char>, (Option<Seq<char>>, Option<i64>, Option<i64>, Option<i64>))>
    decreases ls.len(),
{
    if ls.len() == 0 {
        None
    } else {
        let t = trim(ls.last());
        match json_line_fields(t) {
            Some(f) => Some((t, f)),
            None => last_json(ls.drop_last()),
        }
    }
}

/// What a parsed line carries, when there is one.
pub open spec fn json_opt_view(o: Option<JsonLine>) -> Option<(Option<Seq<char>>, Option<i64>, Option<i64>, Option<i64>)> {
    match o {
        Some(j) => Some(json_line_view(j)),
        None => None,
    }
}

/// A parsed line when its `type` is `done`.
pub open spec fn done_of(f: Option<(Option<Seq<char>>, Option<i64>, Option<i64>, Option<i64>)>) -> Option<(Option<Seq<char>>, Option<i64>, Option<i64>, Option<i64>)> {
    match f {
        Some(x) => if x.0 == Some("done"@) {
            Some(x)
        } else {
            None
        },
        None => None,
    }
}

/// The counters of a round: the last JSON line of the output, when its `type` is `done`.
pub open spec fn done_fields(out: Seq<char>) -> Option<(Option<Seq<char>>, Option<i64>, Option<i64>, Option<i64>)> {
    done_of(
        match last_json(lines(out)) {
            Some((_, f)) => Some(f),
            None => None,
        },
    )
}

/// The last line of the output that is JSON, trimmed, with what it holds.
fn last_json_line(stdout: &str) -> (r: Option<(String, JsonLine)>)
    ensures
        match r {
            Some((t, j)) => last_json(lines(stdout@)) == Some((t@, json_line_view(j))),
            None => last_json(lines(stdout@)) is None,
        },
{
    let ls = lines_of(stdout);
    let mut i = ls.len();
    assert(ls.deep_view().take(ls.len() as int) =~= ls.deep_view());
    while i > 0
        invariant
            i <= ls.len(),
            ls.deep_view() == lines(stdout@),
            last_json(ls.deep_view().take(i as int)) == last_json(lines(stdout@)),
        decreases i,
    {
        let ghost pre = ls.deep_view().take(i as int);
        let (a, b) = trim_bounds(&ls[i - 1], 0, ls[i - 1].len());
        let t = string_of(&ls[i - 1], a, b);
        proof {
            assert(pre.last() == ls@[i - 1]@);
            assert(ls@[i - 1]@.subrange(0, ls@[i - 1]@.len() as int) =~= ls@[i - 1]@);
            assert(pre.drop_last() =~= ls.deep_view().take(i - 1));
        }
        match parse_json_line(t.as_str()) {
            Some(j) => {
                return Some((t, j));
            },
            None => {},
        }
        i -= 1;
    }
    assert(ls.deep_view().take(0) =~= Seq::<Seq<char>>::empty());
    None
}

/// The counters of the round's `done` line, if the last JSON line of the output is one.
pub fn done_counters(stdout: &str) -> (r: Option<JsonLine>)
    ensures
        match r {
            Some(j) => done_fields(stdout@) == Some(json_line_view(j)),
            None => done_fields(stdout@) is None,
        },
{
    match last_json_line(stdout) {
        Some((_, j)) => done_line_of(Some(j)),
        None => done_line_of(None),
    }
}

/// The last parsed JSON line of a round's output when it is the `done` line, else nothing.
pub fn done_line_of(last: Option<JsonLine>) -> (r: Option<JsonLine>)
    ensures
        json_opt_view(r) == done_of(json_opt_view(last)),
{
    match last {
        Some(j) => {
            let is_done = match &j.kind {
                Some(k) => crate::text::same_text(k.as_str(), "done"),
                None => false,
            };
            if is_done {
                Some(j)
            } else {
                None
            }
        },
        None => None,
    }
}

/// What the output of the UI-click script gives: the last line that is JSON, trimmed, or
/// the message that quotes the first 120 characters of the trimmed output.
pub open spec fn ui_click_outcome(out: Seq<char>) -> Result<Seq<char>, Seq<char>> {
    match last_json(lines(out)) {
        Some((t, _)) => Ok(t),
        None => Err(
            "UI 点击脚本输出无法解析: "@ + if trim(out).len() <= 120 {
                trim(out)
            } else {
                trim(out).take(120)
            },
        ),
    }
}

/// Reads the UI-click script's output: the JSON text of its last JSON line, or the error
/// that quotes the start of the output.
pub fn ui_click_result(stdout: &str) -> (r: Result<String, String>)
    ensures
        match r {
            Ok(t) => ui_click_outcome(stdout@) == Ok::<Seq<char>, Seq<char>>(t@),
            Err(e) => ui_click_outcome(stdout@) == Err::<Seq<char>, Seq<char>>(e@),
        },
{
    match last_json_line(stdout) {
        Some((t, _)) => Ok(t),
        None => {
            let t = trimmed(stdout);
            let tv = crate::text::chars_of(t.as_str());
            let n = if tv.len() <= 120 {
                tv.len()
            } else {
                120
            };
            let mut out: Vec<char> = Vec::new();
            push_str(&mut out, "UI 点击脚本输出无法解析: ");
            push_range(&mut out, &tv, 0, n);
            assert(tv@.subrange(0, n as int) =~= if tv@.len() <= 120 {
                tv@
            } else {
                tv@.take(120)
            });
            Err(string_from(&out))
        },
    }
}

/// A counter, 0 when the line does not carry it.
pub open spec fn or_zero(x: Option<i64>) -> int {
    match x {
        Some(v) => v as int,
        None => 0,
    }
}

/// Log and notification texts of a check-in run.
pub struct CheckinReport {
    /// The line for the application log.
    pub log: String,
    /// The system notification to show, if any.
    pub notify: Option<String>,
}

/// The start-up check-in's log line: the counters, or the note that no result came.
pub open spec fn startup_log(out: Seq<char>) -> Seq<char> {
    startup_log_of(done_fields(out))
}

/// The start-up log line for the round's `done` line (or its absence).
pub open spec fn startup_log_of(d: Option<(Option<Seq<char>>, Option<i64>, Option<i64>, Option<i64>)>) -> Seq<char> {
    match d {
        Some(f) => "WorkBuddy 启动补签完成: 成功 "@ + int_text(or_zero(f.1)) + "，已签 "@ + int_text(
            or_zero(f.2),
        ) + "，失败 "@ + int_text(or_zero(f.3)),
        None => "WorkBuddy 启动补签：无有效结果输出"@,
    }
}

/// The start-up check-in's notification: only when some account failed.
pub open spec fn startup_notice(out: Seq<char>) -> Option<Seq<char>> {
    startup_notice_of(done_fields(out))
}

/// The start-up notification for the round's `done` line (or its absence).
pub open spec fn startup_notice_of(d: Option<(Option<Seq<char>>, Option<i64>, Option<i64>, Option<i64>)>) -> Option<Seq<char>> {
    match d {
        Some(f) => if or_zero(f.3) > 0 {
            Some("启动补签有 "@ + int_text(or_zero(f.3)) + " 个账号失败，请在签到与成长页查看"@)
        } else {
            None
        },
        None => None,
    }
}

fn counter_or_zero(x: Option<i64>) -> (r: i64)
    ensures
        r as int == or_zero(x),
{
    match x {
        Some(v) => v,
        None => 0,
    }
}

/// The report of the start-up check-in from the script's output.
pub fn startup_checkin_report(stdout: &str) -> (r: CheckinReport)
    ensures
        r.log@ == startup_log(stdout@),
        match r.notify {
            Some(n) => startup_notice(stdout@) == Some(n@),
            None => startup_notice(stdout@) is None,
        },
{
    startup_report_of(done_counters(stdout))
}

/// The report of the start-up check-in for the round's `done` line: its counters logged,
/// and a notification when some account failed; without one, the note that no result came.
pub fn startup_report_of(done: Option<JsonLine>) -> (r: CheckinReport)
    ensures
        r.log@ == startup_log_of(json_opt_view(done)),
        match r.notify {
            Some(n) => startup_notice_of(json_opt_view(done)) == Some(n@),
            None => startup_notice_of(json_opt_view(done)) is None,
        },
{
    match done {
        Some(d) => {
            let ok = counter_or_zero(d.ok);
            let already = counter_or_zero(d.already);
            let failed = counter_or_zero(d.failed);
            let mut log: Vec<char> = Vec::new();
            push_str(&mut log, "WorkBuddy 启动补签完成: 成功 ");
            push_i64(&mut log, ok);
            push_str(&mut log, "，已签 ");
            push_i64(&mut log, already);
            push_str(&mut log, "，失败 ");
            push_i64(&mut log, failed);
            let notify = if failed > 0 {
                let mut n: Vec<char> = Vec::new();
                push_str(&mut n, "启动补签有 ");
                push_i64(&mut n, failed);
                push_str(&mut n, " 个账号失败，请在签到与成长页查看");
                Some(string_from(&n))
            } else {
                None
            };
            CheckinReport { log: string_from(&log), notify }
        },
        None => CheckinReport { log: owned("WorkBuddy 启动补签：无有效结果输出"), notify: None },
    }
}

/// The log line when the start-up check-in could not run.
pub fn startup_failure_message(err: &str) -> (r: String)
    ensures
        r@ == "WorkBuddy 启动补签失败: "@ + err@,
{
    let mut r = owned("WorkBuddy 启动补签失败: ");
    r.append(err);
    r
}

/// A tray stage's summary: the three counters when the `done` line carries all of them,
/// `完成` otherwise.
pub open spec fn tray_summary(f: (Option<Seq<char>>, Option<i64>, Option<i64>, Option<i64>)) -> Seq<char> {
    match (f.1, f.2, f.3) {
        (Some(o), Some(a), Some(x)) => "成功 "@ + int_text(o as int) + "，已签 "@ + int_text(a as int)
            + "，失败 "@ + int_text(x as int),
        _ => "完成"@,
    }
}

/// A tray stage's log line.
pub open spec fn tray_log(stage: Seq<char>, out: Seq<char>) -> Seq<char> {
    tray_log_of(stage, done_fields(out))
}

/// A tray stage's log line for the stage's `done` line (or its absence).
pub open spec fn tray_log_of(stage: Seq<char>, d: Option<(Option<Seq<char>>, Option<i64>, Option<i64>, Option<i64>)>) -> Seq<char> {
    match d {
        Some(f) => "WorkBuddy "@ + stage + ": "@ + tray_summary(f),
        None => "托盘一键签到：WorkBuddy "@ + stage + " 无有效结果输出"@,
    }
}

/// The report of one tray stage: with a `done` line, its summary is both logged and
/// notified; without one, only the log says so.
pub fn tray_stage_report(stage: &str, stdout: &str) -> (r: CheckinReport)
    ensures
        r.log@ == tray_log(stage@, stdout@),
        match r.notify {
            Some(n) => done_fields(stdout@) is Some && n@ == tray_log(stage@, stdout@),
            None => done_fields(stdout@) is None,
        },
{
    tray_report_of(stage, done_counters(stdout))
}

/// The report of one tray stage for its `done` line: the summary both logged and notified;
/// without one, only the log says that no result came.
pub fn tray_report_of(stage: &str, done: Option<JsonLine>) -> (r: CheckinReport)
    ensures
        r.log@ == tray_log_of(stage@, json_opt_view(done)),
        match r.notify {
            Some(n) => json_opt_view(done) is Some && n@ == tray_log_of(stage@, json_opt_view(done)),
            None => json_opt_view(done) is None,
        },
{
    match done {
        Some(d) => {
            let mut m: Vec<char> = Vec::new();
            push_str(&mut m, "WorkBuddy ");
            push_str(&mut m, stage);
            push_str(&mut m, ": ");
            match (d.ok, d.already, d.failed) {
                (Some(o), Some(a), Some(x)) => {
                    push_str(&mut m, "成功 ");
                    push_i64(&mut m, o);
                    push_str(&mut m, "，已签 ");
                    push_i64(&mut m, a);
                    push_str(&mut m, "，失败 ");
                    push_i64(&mut m, x);
                },
                _ => {
                    push_str(&mut m, "完成");
                },
            }
            let log = string_from(&m);
            let notify = string_from(&m);
            CheckinReport { log, notify: Some(notify) }
        },
        None => {
            let mut m: Vec<char> = Vec::new();
            push_str(&mut m, "托盘一键签到：WorkBuddy ");
            push_str(&mut m, stage);
            push_str(&mut m, " 无有效结果输出");
            CheckinReport { log: string_from(&m), notify: None }
        },
    }
}

/// The text, both logged and notified, when a tray stage could not run.
pub fn tray_stage_failure(stage: &str, err: &str) -> (r: String)
    ensures
        r@ == "WorkBuddy "@ + stage@ + "失败: "@ + err@,
{
    let mut r = owned("WorkBuddy ");
    r.append(stage);
    r.append("失败: ");
    r.append(err);
    r
}

/// The tray's two stages in order: the check-in (`签到`) and the growth plan (`成长计划`),
/// each with the check-in script's arguments.
pub fn tray_checkin_stages(travel: bool, lottery: bool, tasks: bool) -> (r: Vec<(String, Vec<String>)>)
    ensures
        r@.len() == 2,
        r@[0].0@ == "签到"@,
        r@[0].1.deep_view() == unattended_checkin_args(),
        r@[1].0@ == "成长计划"@,
        r@[1].1.deep_view() == growth_args(travel, lottery, tasks),
{
    let mut stages: Vec<(String, Vec<String>)> = Vec::new();
    stages.push((owned("签到"), unattended_checkin_arg_list()));
    stages.push((owned("成长计划"), workbuddy_growth_run(travel, lottery, tasks)));
    stages
}

} // verus!
