//! The daily check-in tasks and the weekly token-renewal task: their names, the command
//! line they run, the times shown for them, and the checks made before registering them.

use vstd::prelude::*;
use crate::task_list::{parse_task_names_csv, task_names_csv};
use crate::task_xml::{decode_task_xml, encode_task_xml, relax_settings, task_xml_bytes, task_xml_text, relax_task_settings_xml};
use crate::text::{
    chars_of, occurs_at, occurs_at_exec, owned, push_range, push_removed, push_replaced,
    push_str, push_joined, join, views, remove_char, replace_char, same_text, string_from, trim, trimmed,
};

verus! {

/// Name prefix of the daily check-in tasks; each task appends `_HHMM`.
pub const WB_CHECKIN_TASK_PREFIX: &'static str = "AIWorkAssistant_WorkBuddyCheckin";

/// Name of the weekly token-renewal task.
pub const WB_RENEW_TASK_NAME: &'static str = "AIWorkAssistant_WorkBuddyRenew";

/// `s` starts with `p`.
pub open spec fn has_prefix(s: Seq<char>, p: Seq<char>) -> bool {
    occurs_at(s, p, 0)
}

/// The prefix shared by the check-in task names: `AIWorkAssistant_WorkBuddyCheckin_`.
pub open spec fn checkin_prefix() -> Seq<char> {
    WB_CHECKIN_TASK_PREFIX@ + "_"@
}

/// The names that start with `p`, in order.
pub open spec fn with_prefix(names: Seq<Seq<char>>, p: Seq<char>) -> Seq<Seq<char>>
    decreases names.len(),
{
    if names.len() == 0 {
        Seq::empty()
    } else {
        let rest = with_prefix(names.drop_first(), p);
        if has_prefix(names[0], p) {
            seq![names[0]] + rest
        } else {
            rest
        }
    }
}

/// Builds `AIWorkAssistant_WorkBuddyCheckin_`.
fn checkin_prefix_text() -> (r: String)
    ensures
        r@ == checkin_prefix(),
{
    let mut r = owned(WB_CHECKIN_TASK_PREFIX);
    r.append("_");
    r
}

/// Whether `s` starts with `p`.
pub fn starts_with(s: &str, p: &str) -> (b: bool)
    ensures
        b == has_prefix(s@, p@),
{
    let sv = chars_of(s);
    let pv = chars_of(p);
    occurs_at_exec(&sv, &pv, 0)
}

/// Keeps the check-in tasks among the listed task names (any `_HHMM` suffix), in order.
pub fn wb_checkin_task_names(names: Vec<String>) -> (r: Vec<String>)
    ensures
        r.deep_view() == with_prefix(names.deep_view(), checkin_prefix()),
{
    let prefix = checkin_prefix_text();
    let mut out: Vec<String> = Vec::new();
    let mut i: usize = 0;
    assert(names.deep_view().skip(0) =~= names.deep_view());
    assert(out.deep_view() + with_prefix(names.deep_view(), checkin_prefix()) =~= with_prefix(
        names.deep_view(),
        checkin_prefix(),
    ));
    while i < names.len()
        invariant
            i <= names.len(),
            prefix@ == checkin_prefix(),
            out.deep_view() + with_prefix(names.deep_view().skip(i as int), checkin_prefix())
                == with_prefix(names.deep_view(), checkin_prefix()),
        decreases names.len() - i,
    {
        let ghost rest = names.deep_view().skip(i as int);
        let ghost before = out.deep_view();
        assert(rest.drop_first() =~= names.deep_view().skip(i + 1));
        assert(rest[0] == names[i as int]@);
        if starts_with(names[i].as_str(), prefix.as_str()) {
            out.push(names[i].clone());
            assert(out.deep_view() =~= before.push(names[i as int]@));
            assert(out.deep_view() + with_prefix(rest.drop_first(), checkin_prefix()) =~= before
                + with_prefix(rest, checkin_prefix()));
        }
        i += 1;
    }
    assert(names.deep_view().skip(names.len() as int) =~= Seq::<Seq<char>>::empty());
    assert(out.deep_view() + Seq::<Seq<char>>::empty() =~= out.deep_view());
    out
}

/// The task names that a `schtasks /Query /FO CSV /NH` run listed: none when the run
/// failed, else those of its standard output.
pub fn list_task_names(query: Result<(bool, String, String), String>) -> (r: Vec<String>)
    ensures
        match query {
            Ok((_, stdout, _)) => r.deep_view() == task_names_csv(stdout@),
            Err(_) => r@.len() == 0,
        },
{
    match query {
        Ok((_, stdout, _)) => parse_task_names_csv(stdout.as_str()),
        Err(_) => Vec::new(),
    }
}

/// Whether a `schtasks /Query /TN name` run found the task: it ran and reported success.
pub fn task_exists(query: Result<(bool, String, String), String>) -> (b: bool)
    ensures
        b == match query {
            Ok((ok, _, _)) => ok,
            Err(_) => false,
        },
{
    match query {
        Ok((ok, _, _)) => ok,
        Err(_) => false,
    }
}

/// An ASCII decimal digit.
pub open spec fn is_digit(c: char) -> bool {
    '0' <= c <= '9'
}

/// The time shown for a task-name suffix: four ASCII digits `HHMM` become `HH:MM`; any other
/// suffix is shown with each `_` turned into `:` (older names used `HH_MM`).
pub open spec fn suffix_time(suffix: Seq<char>) -> Seq<char> {
    if suffix.len() == 4 && is_digit(suffix[0]) && is_digit(suffix[1]) && is_digit(suffix[2])
        && is_digit(suffix[3]) {
        suffix.subrange(0, 2) + seq![':'] + suffix.subrange(2, 4)
    } else {
        replace_char(suffix, '_', ':')
    }
}

/// Task-name suffix `_HHMM` → `HH:MM` for display; a suffix that is not four ASCII digits
/// is returned with `_` replaced by `:`.
pub fn hhmm_suffix_to_time(suffix: &str) -> (r: String)
    ensures
        r@ == suffix_time(suffix@),
{
    let v = chars_of(suffix);
    let mut out: Vec<char> = Vec::new();
    if v.len() == 4 && '0' <= v[0] && v[0] <= '9' && '0' <= v[1] && v[1] <= '9' && '0' <= v[2]
        && v[2] <= '9' && '0' <= v[3] && v[3] <= '9' {
        push_range(&mut out, &v, 0, 2);
        out.push(':');
        push_range(&mut out, &v, 2, 4);
        assert(out@ =~= suffix_time(suffix@));
    } else {
        push_replaced(&mut out, suffix, '_', ':');
        assert(out@ =~= suffix_time(suffix@));
    }
    string_from(&out)
}

/// The check-in task that runs at `time`: the prefix, `_`, and the time without its colons
/// (`09:00` → `AIWorkAssistant_WorkBuddyCheckin_0900`).
pub open spec fn checkin_task_name_of(time: Seq<char>) -> Seq<char> {
    checkin_prefix() + remove_char(time, ':')
}

/// Names the check-in task that runs at `time`.
pub fn checkin_task_name(time: &str) -> (r: String)
    ensures
        r@ == checkin_task_name_of(time@),
{
    let mut out: Vec<char> = Vec::new();
    push_str(&mut out, WB_CHECKIN_TASK_PREFIX);
    out.push('_');
    push_removed(&mut out, time, ':');
    proof {
        reveal_strlit("_");
    }
    assert(out@ =~= checkin_task_name_of(time@));
    string_from(&out)
}

/// `str::trim_start_matches(p)`: every leading repetition of `p` removed.
pub open spec fn strip_prefix_all(s: Seq<char>, p: Seq<char>) -> Seq<char>
    decreases s.len(),
{
    if p.len() > 0 && has_prefix(s, p) {
        strip_prefix_all(s.subrange(p.len() as int, s.len() as int), p)
    } else {
        s
    }
}

/// The times shown for the registered check-in tasks: the check-in tasks among the listed
/// names, each with the prefix stripped and its suffix shown as `HH:MM`.
pub open spec fn checkin_task_times(listed: Seq<Seq<char>>) -> Seq<Seq<char>> {
    with_prefix(listed, checkin_prefix()).map_values(
        |n: Seq<char>| suffix_time(strip_prefix_all(n, checkin_prefix())),
    )
}

/// `trim_start_matches` of a name by the check-in prefix.
fn strip_checkin_prefix(name: &str) -> (r: String)
    ensures
        r@ == strip_prefix_all(name@, checkin_prefix()),
{
    let v = chars_of(name);
    let p = chars_of(checkin_prefix_text().as_str());
    let mut a: usize = 0;
    assert(v@.subrange(0, v@.len() as int) =~= v@);
    while a <= v.len() && p.len() > 0 && p.len() <= v.len() - a && occurs_at_exec(&v, &p, a)
        invariant
            a <= v.len(),
            v@ == name@,
            p@ == checkin_prefix(),
            strip_prefix_all(v@.subrange(a as int, v@.len() as int), p@) == strip_prefix_all(
                name@,
                p@,
            ),
        decreases v.len() - a,
    {
        let ghost rest = v@.subrange(a as int, v@.len() as int);
        assert(rest.subrange(0, p@.len() as int) =~= v@.subrange(a as int, a + p@.len()));
        assert(rest.subrange(p@.len() as int, rest.len() as int) =~= v@.subrange(
            a + p@.len(),
            v@.len() as int,
        ));
        a += p.len();
    }
    proof {
        let rest = v@.subrange(a as int, v@.len() as int);
        if p@.len() > 0 && p@.len() <= rest.len() {
            assert(rest.subrange(0, p@.len() as int) =~= v@.subrange(a as int, a + p@.len()));
        }
        assert(v@.subrange(0, v@.len() as int) =~= v@);
    }
    string_of_tail(&v, a)
}

/// The characters `v[a..]` as a string.
fn string_of_tail(v: &Vec<char>, a: usize) -> (r: String)
    requires
        a <= v.len(),
    ensures
        r@ == v@.subrange(a as int, v@.len() as int),
{
    crate::text::string_of(v, a, v.len())
}

/// The times of the registered check-in tasks, from the names that `schtasks` listed.
pub fn workbuddy_checkin_task_status(listed: Vec<String>) -> (r: Vec<String>)
    ensures
        r.deep_view() == checkin_task_times(listed.deep_view()),
{
    let names = wb_checkin_task_names(listed);
    let mut out: Vec<String> = Vec::new();
    let mut i: usize = 0;
    while i < names.len()
        invariant
            i <= names.len(),
            names.deep_view() == with_prefix(listed.deep_view(), checkin_prefix()),
            out.deep_view() == checkin_task_times(listed.deep_view()).take(i as int),
        decreases names.len() - i,
    {
        let ghost before = out.deep_view();
        let stripped = strip_checkin_prefix(names[i].as_str());
        let t = hhmm_suffix_to_time(stripped.as_str());
        assert(names.deep_view()[i as int] == names@[i as int]@);
        assert(t@ == checkin_task_times(listed.deep_view())[i as int]);
        out.push(t);
        assert(out.deep_view() =~= before.push(t@));
        assert(out.deep_view() =~= checkin_task_times(listed.deep_view()).take(i + 1));
        i += 1;
    }
    assert(checkin_task_times(listed.deep_view()).take(names.len() as int) =~= checkin_task_times(
        listed.deep_view(),
    ));
    out
}

/// The `/TR` command line of a check-in task: sets `AIWORKDATA_DIR` and runs the check-in
/// script with the given arguments; the interpreter and script paths use `/`.
pub open spec fn task_command(python_exe: Seq<char>, script: Seq<char>, data_dir: Seq<char>, args: Seq<Seq<char>>) -> Seq<char> {
    "cmd /c set \"AIWORKDATA_DIR="@ + data_dir + "\" && \""@ + replace_char(python_exe, '\\', '/')
        + "\" \""@ + replace_char(script, '\\', '/') + "\" "@ + join(args, " "@)
}

/// A path character as it stands in the command line: `\` becomes `/`, every other
/// character (spaces included) is kept.
pub open spec fn slash_char(c: char) -> char {
    if c == '\\' {
        '/'
    } else {
        c
    }
}

/// What the `/TR` command line holds, piece by piece: `cmd /c set "AIWORKDATA_DIR=`, the
/// data directory as it is, `" && "`, then the interpreter path and, after `" "`, the
/// script path, each character kept but `\` written as `/` (so a path with spaces stays
/// one quoted program), then `" ` and the arguments joined by spaces.
pub proof fn law_task_command_paths(python_exe: Seq<char>, script: Seq<char>, data_dir: Seq<char>, args: Seq<Seq<char>>)
    ensures
        ({
            let r = task_command(python_exe, script, data_dir, args);
            let pre = "cmd /c set \"AIWORKDATA_DIR="@ + data_dir + "\" && \""@;
            let p = pre.len() as int;
            let q = p + python_exe.len() + 3;
            &&& r.len() == q + script.len() + 2 + join(args, " "@).len()
            &&& r.subrange(0, p) == pre
            &&& forall|i: int| 0 <= i < python_exe.len() ==> r[p + i] == slash_char(#[trigger] python_exe[i])
            &&& r.subrange(p + python_exe.len(), q) == "\" \""@
            &&& forall|i: int| 0 <= i < script.len() ==> r[q + i] == slash_char(#[trigger] script[i])
            &&& r.subrange(q + script.len(), r.len() as int) == "\" "@ + join(args, " "@)
        }),
{
    reveal_strlit("\" \"");
    reveal_strlit("\" ");
    let pre = "cmd /c set \"AIWORKDATA_DIR="@ + data_dir + "\" && \""@;
    let a = replace_char(python_exe, '\\', '/');
    let b = replace_char(script, '\\', '/');
    let mid = "\" \""@;
    let tl = "\" "@ + join(args, " "@);
    let r = task_command(python_exe, script, data_dir, args);
    assert(r =~= pre + a + mid + b + tl);
    let p = pre.len() as int;
    let q = p + python_exe.len() + 3;
    assert(r.subrange(0, p) =~= pre);
    assert forall|i: int| 0 <= i < python_exe.len() implies r[p + i] == slash_char(#[trigger] python_exe[i]) by {
        assert(r[p + i] == a[i]);
    }
    assert(r.subrange(p + python_exe.len(), q) =~= mid);
    assert forall|i: int| 0 <= i < script.len() implies r[q + i] == slash_char(#[trigger] script[i]) by {
        assert(r[q + i] == b[i]);
    }
    assert(r.subrange(q + script.len(), r.len() as int) =~= tl);
}

/// Builds the `/TR` command line: `cmd /c set "AIWORKDATA_DIR=<data_dir>" && "<python>"
/// "<script>" <args>`, with `\` turned into `/` in the interpreter and script paths.
/// `script_path` is the check-in script's path inside the Python directory.
pub fn build_wb_task_tr(python_exe: &str, script_path: &str, data_dir: &str, script_args: &[&str]) -> (r: String)
    ensures
        r@ == task_command(python_exe@, script_path@, data_dir@, views(script_args@)),
{
    let mut out: Vec<char> = Vec::new();
    push_str(&mut out, "cmd /c set \"AIWORKDATA_DIR=");
    push_str(&mut out, data_dir);
    push_str(&mut out, "\" && \"");
    push_replaced(&mut out, python_exe, '\\', '/');
    push_str(&mut out, "\" \"");
    push_replaced(&mut out, script_path, '\\', '/');
    push_str(&mut out, "\" ");
    push_joined(&mut out, script_args, " ");
    string_from(&out)
}

/// What `str::to_uppercase` returns for a text.
pub uninterp spec fn uppercase(s: Seq<char>) -> Seq<char>;

/// `str::to_uppercase`: the Unicode uppercase of the text. The result is named by
/// `uppercase`; the case mapping itself is left unsaid here.
#[verifier::external_body]
fn to_uppercase(s: &str) -> (r: String)
    ensures
        r@ == uppercase(s@),
{
    s.to_uppercase()
}

/// The weekday codes that `schtasks /SC WEEKLY /D` accepts.
pub open spec fn is_weekday_code(d: Seq<char>) -> bool {
    d == "MON"@ || d == "TUE"@ || d == "WED"@ || d == "THU"@ || d == "FRI"@ || d == "SAT"@ || d
        == "SUN"@
}

/// The day the renewal task runs on: `SUN` when none is given, else the uppercase of the
/// given day.
pub open spec fn renew_day_code(day: Seq<char>) -> Seq<char> {
    renew_code_from(day, uppercase(day))
}

/// The day code for a given day whose uppercase is `upper`: `SUN` when no day is given.
pub open spec fn renew_code_from(day: Seq<char>, upper: Seq<char>) -> Seq<char> {
    if day.len() == 0 {
        "SUN"@
    } else {
        upper
    }
}

/// The whole week is accepted: each of `MON`, `TUE`, `WED`, `THU`, `FRI`, `SAT` and `SUN`,
/// given as it is (its own uppercase), is taken as the renewal day unchanged; and an empty
/// day is taken as `SUN`.
pub proof fn law_renew_whole_week(day: Seq<char>)
    requires
        day == "MON"@ || day == "TUE"@ || day == "WED"@ || day == "THU"@ || day == "FRI"@
            || day == "SAT"@ || day == "SUN"@,
    ensures
        is_weekday_code(renew_code_from(day, day)),
        renew_code_from(day, day) == day,
        is_weekday_code(renew_code_from(Seq::empty(), day)),
        renew_code_from(Seq::empty(), day) == "SUN"@,
{
    reveal_strlit("MON");
    reveal_strlit("TUE");
    reveal_strlit("WED");
    reveal_strlit("THU");
    reveal_strlit("FRI");
    reveal_strlit("SAT");
    reveal_strlit("SUN");
}

/// The message for a day that is no weekday code.
pub open spec fn invalid_day_message(day: Seq<char>) -> Seq<char> {
    "星期无效: "@ + day + "（应为 MON..SUN）"@
}

/// Checks the day of the weekly renewal task against the whitelist `MON`..`SUN` (after
/// upper-casing; an empty day means `SUN`) before it goes into the `schtasks` command line.
pub fn renew_task_day(day: &str) -> (r: Result<String, String>)
    ensures
        is_weekday_code(renew_day_code(day@)) ==> (r matches Ok(d) && d@ == renew_day_code(day@)),
        !is_weekday_code(renew_day_code(day@)) ==> (r matches Err(e) && e@ == invalid_day_message(day@)),
{
    if chars_of(day).len() == 0 {
        renew_day_of(day, "")
    } else {
        let u = to_uppercase(day);
        renew_day_of(day, u.as_str())
    }
}

/// Checks a renewal day against the whitelist `MON`..`SUN`, given the day and its
/// uppercase `upper` (an empty day means `SUN`): the code, or the error quoting the day.
pub fn renew_day_of(day: &str, upper: &str) -> (r: Result<String, String>)
    ensures
        is_weekday_code(renew_code_from(day@, upper@)) ==> (r matches Ok(d) && d@ == renew_code_from(
            day@,
            upper@,
        )),
        !is_weekday_code(renew_code_from(day@, upper@)) ==> (r matches Err(e) && e@
            == invalid_day_message(day@)),
{
    let d = if chars_of(day).len() == 0 {
        owned("SUN")
    } else {
        owned(upper)
    };
    let ds = d.as_str();
    if same_text(ds, "MON") || same_text(ds, "TUE") || same_text(ds, "WED") || same_text(ds, "THU")
        || same_text(ds, "FRI") || same_text(ds, "SAT") || same_text(ds, "SUN") {
        Ok(d)
    } else {
        let mut e = owned("星期无效: ");
        e.append(day);
        e.append("（应为 MON..SUN）");
        Err(e)
    }
}

/// The message when no trigger time is given.
pub open spec fn no_times_message() -> Seq<char> {
    "至少需要一个触发时间（如 09:00 / 21:00）"@
}

/// The check-in tasks to create for the given trigger times, one per time; an empty list
/// of times is refused.
pub fn checkin_task_names_for(times: &Vec<String>) -> (r: Result<Vec<String>, String>)
    ensures
        times@.len() == 0 ==> (r matches Err(e) && e@ == no_times_message()),
        times@.len() > 0 ==> (r matches Ok(names) && names.deep_view() == times.deep_view().map_values(
            |t: Seq<char>| checkin_task_name_of(t),
        )),
{
    if times.len() == 0 {
        return Err(owned("至少需要一个触发时间（如 09:00 / 21:00）"));
    }
    let mut out: Vec<String> = Vec::new();
    let mut i: usize = 0;
    while i < times.len()
        invariant
            i <= times.len(),
            out.deep_view() == times.deep_view().map_values(|t: Seq<char>| checkin_task_name_of(t)).take(
                i as int,
            ),
        decreases times.len() - i,
    {
        let ghost before = out.deep_view();
        let n = checkin_task_name(times[i].as_str());
        assert(times.deep_view()[i as int] == times@[i as int]@);
        out.push(n);
        assert(out.deep_view() =~= before.push(n@));
        assert(out.deep_view() =~= times.deep_view().map_values(
            |t: Seq<char>| checkin_task_name_of(t),
        ).take(i + 1));
        i += 1;
    }
    assert(times.deep_view().map_values(|t: Seq<char>| checkin_task_name_of(t)).take(
        times.len() as int,
    ) =~= times.deep_view().map_values(|t: Seq<char>| checkin_task_name_of(t)));
    Ok(out)
}

/// The error when creating the task for `time` failed: `注册任务 <time> 失败: <stderr, trimmed>`.
pub fn register_failure_message(time: &str, stderr: &str) -> (r: String)
    ensures
        r@ == "注册任务 "@ + time@ + " 失败: "@ + trim(stderr@),
{
    let mut r = owned("注册任务 ");
    r.append(time);
    r.append(" 失败: ");
    let t = trimmed(stderr);
    r.append(t.as_str());
    r
}

/// The warning when the task for `time` was created but its settings could not be relaxed.
pub fn relax_warning_message(time: &str, err: &str) -> (r: String)
    ensures
        r@ == time@ + " 的设置放宽失败（任务已注册，按默认设置运行）: "@ + err@,
{
    let mut r = owned(time);
    r.append(" 的设置放宽失败（任务已注册，按默认设置运行）: ");
    r.append(err);
    r
}

/// What relaxing an exported task gives: the bytes to import back, or nothing when the
/// export already has the relaxed settings.
pub open spec fn relaxed_import(raw: Seq<u8>) -> Option<Seq<u8>> {
    let xml = task_xml_text(raw);
    if relax_settings(xml) == xml {
        None
    } else {
        Some(task_xml_bytes(relax_settings(xml)))
    }
}

/// Decides, from a `schtasks /Query /XML` run, what to import back: an error when the
/// export failed or came back blank, nothing when the settings are already relaxed, else
/// the relaxed XML encoded as UTF-16LE with a BOM.
pub fn plan_relaxed_task_settings(export_ok: bool, raw: &[u8], stderr: &str) -> (r: Result<Option<Vec<u8>>, String>)
    ensures
        !export_ok ==> (r matches Err(e) && e@ == "导出任务 XML 失败: "@ + trim(stderr@)),
        export_ok && trim(task_xml_text(raw@)).len() == 0 ==> (r matches Err(e) && e@
            == "导出任务 XML 为空"@),
        export_ok && trim(task_xml_text(raw@)).len() > 0 ==> (r matches Ok(plan) && match plan {
            Some(bytes) => relaxed_import(raw@) == Some(bytes@),
            None => relaxed_import(raw@) is None,
        }),
{
    if !export_ok {
        let mut e = owned("导出任务 XML 失败: ");
        let t = trimmed(stderr);
        e.append(t.as_str());
        return Err(e);
    }
    let xml = decode_task_xml(raw);
    let t = trimmed(xml.as_str());
    let tv = chars_of(t.as_str());
    if tv.len() == 0 {
        return Err(owned("导出任务 XML 为空"));
    }
    let patched = relax_task_settings_xml(xml.as_str());
    if same_text(patched.as_str(), xml.as_str()) {
        Ok(None)
    } else {
        Ok(Some(encode_task_xml(patched.as_str())))
    }
}

/// The error when importing the relaxed XML failed: `覆盖任务设置失败: <stderr, trimmed>`.
pub fn overwrite_failure_message(stderr: &str) -> (r: String)
    ensures
        r@ == "覆盖任务设置失败: "@ + trim(stderr@),
{
    let mut r = owned("覆盖任务设置失败: ");
    let t = trimmed(stderr);
    r.append(t.as_str());
    r
}

/// The error when creating the renewal task failed: `注册续期任务失败: <stderr, trimmed>`.
pub fn renew_failure_message(stderr: &str) -> (r: String)
    ensures
        r@ == "注册续期任务失败: "@ + trim(stderr@),
{
    let mut r = owned("注册续期任务失败: ");
    let t = trimmed(stderr);
    r.append(t.as_str());
    r
}

/// A time `HH:MM` (ASCII digits) registered as a check-in task is shown back as `HH:MM`
/// by the status, not as `HHMM`.
pub proof fn law_registered_time_shown_back(time: Seq<char>)
    requires
        time.len() == 5,
        is_digit(time[0]),
        is_digit(time[1]),
        time[2] == ':',
        is_digit(time[3]),
        is_digit(time[4]),
    ensures
        checkin_task_times(seq![checkin_task_name_of(time)]) == seq![time],
{
    reveal_strlit("AIWorkAssistant_WorkBuddyCheckin");
    reveal_strlit("_");
    let p = checkin_prefix();
    let digits = seq![time[0], time[1], time[3], time[4]];
    assert(time.drop_last() =~= seq![time[0], time[1], time[2], time[3]]);
    assert(remove_char(time, ':') =~= digits) by {
        reveal_with_fuel(remove_char, 6);
        assert(time.drop_last().drop_last() =~= seq![time[0], time[1], time[2]]);
        assert(time.drop_last().drop_last().drop_last() =~= seq![time[0], time[1]]);
        assert(time.drop_last().drop_last().drop_last().drop_last() =~= seq![time[0]]);
        assert(time.drop_last().drop_last().drop_last().drop_last().drop_last() =~= Seq::<char>::empty());
    }
    let name = checkin_task_name_of(time);
    assert(name == p + digits);
    assert(name.subrange(0, p.len() as int) =~= p);
    assert(has_prefix(name, p));
    assert(name.subrange(p.len() as int, name.len() as int) =~= digits);
    assert(!has_prefix(digits, p));
    assert(strip_prefix_all(digits, p) == digits);
    assert(strip_prefix_all(name, p) == digits);
    assert(seq![name].drop_first() =~= Seq::<Seq<char>>::empty());
    assert(seq![name][0] == name);
    assert(with_prefix(Seq::<Seq<char>>::empty(), p) =~= Seq::<Seq<char>>::empty());
    assert(with_prefix(seq![name], p) == seq![name] + with_prefix(seq![name].drop_first(), p));
    assert(with_prefix(seq![name], p) =~= seq![name]);
    assert(suffix_time(digits) =~= time);
    assert(checkin_task_times(seq![name]) =~= seq![time]);
}

} // verus!
