//! The `schtasks` command lines that the task commands run.

use vstd::prelude::*;
use crate::schedule::WB_RENEW_TASK_NAME;
use crate::text::{owned, views};

verus! {

/// Owned copies of a list of string slices.
pub fn owned_list(list: &[&str]) -> (r: Vec<String>)
    ensures
        r.deep_view() == views(list@),
{
    let mut out: Vec<String> = Vec::new();
    let mut i: usize = 0;
    while i < list.len()
        invariant
            i <= list.len(),
            out.deep_view() == views(list@).take(i as int),
        decreases list.len() - i,
    {
        let ghost before = out.deep_view();
        let item = owned(list[i]);
        assert(views(list@)[i as int] == list@[i as int]@);
        out.push(item);
        assert(out.deep_view() =~= before.push(list@[i as int]@));
        assert(out.deep_view() =~= views(list@).take(i + 1));
        i += 1;
    }
    assert(views(list@).take(list.len() as int) =~= views(list@));
    out
}

/// `/Query /TN <name> /FO LIST`: whether a task exists.
pub fn query_task_args(name: &str) -> (r: Vec<String>)
    ensures
        r.deep_view() == seq!["/Query"@, "/TN"@, name@, "/FO"@, "LIST"@],
{
    let r = owned_list(&["/Query", "/TN", name, "/FO", "LIST"]);
    assert(r.deep_view() =~= seq!["/Query"@, "/TN"@, name@, "/FO"@, "LIST"@]);
    r
}

/// `/Query /FO CSV /NH`: all tasks the user can see, as CSV without a header.
pub fn list_tasks_args() -> (r: Vec<String>)
    ensures
        r.deep_view() == seq!["/Query"@, "/FO"@, "CSV"@, "/NH"@],
{
    let r = owned_list(&["/Query", "/FO", "CSV", "/NH"]);
    assert(r.deep_view() =~= seq!["/Query"@, "/FO"@, "CSV"@, "/NH"@]);
    r
}

/// `/Delete /TN <name> /F`.
pub fn delete_task_args(name: &str) -> (r: Vec<String>)
    ensures
        r.deep_view() == seq!["/Delete"@, "/TN"@, name@, "/F"@],
{
    let r = owned_list(&["/Delete", "/TN", name, "/F"]);
    assert(r.deep_view() =~= seq!["/Delete"@, "/TN"@, name@, "/F"@]);
    r
}

/// `/Create /TN <name> /TR <command> /SC DAILY /ST <time> /F`.
pub fn create_daily_task_args(name: &str, command: &str, time: &str) -> (r: Vec<String>)
    ensures
        r.deep_view() == seq![
            "/Create"@,
            "/TN"@,
            name@,
            "/TR"@,
            command@,
            "/SC"@,
            "DAILY"@,
            "/ST"@,
            time@,
            "/F"@,
        ],
{
    let r = owned_list(&["/Create", "/TN", name, "/TR", command, "/SC", "DAILY", "/ST", time, "/F"]);
    assert(r.deep_view() =~= seq![
        "/Create"@,
        "/TN"@,
        name@,
        "/TR"@,
        command@,
        "/SC"@,
        "DAILY"@,
        "/ST"@,
        time@,
        "/F"@,
    ]);
    r
}

/// `/Query /TN <name> /XML`: exports a task's definition.
pub fn export_task_xml_args(name: &str) -> (r: Vec<String>)
    ensures
        r.deep_view() == seq!["/Query"@, "/TN"@, name@, "/XML"@],
{
    let r = owned_list(&["/Query", "/TN", name, "/XML"]);
    assert(r.deep_view() =~= seq!["/Query"@, "/TN"@, name@, "/XML"@]);
    r
}

/// `/Create /TN <name> /XML <path> /F`: overwrites a task from an XML file.
pub fn import_task_xml_args(name: &str, path: &str) -> (r: Vec<String>)
    ensures
        r.deep_view() == seq!["/Create"@, "/TN"@, name@, "/XML"@, path@, "/F"@],
{
    let r = owned_list(&["/Create", "/TN", name, "/XML", path, "/F"]);
    assert(r.deep_view() =~= seq!["/Create"@, "/TN"@, name@, "/XML"@, path@, "/F"@]);
    r
}

/// `/Create /TN AIWorkAssistant_WorkBuddyRenew /TR <command> /SC WEEKLY /D <day> /ST 10:30 /F`.
pub fn create_renew_task_args(command: &str, day: &str) -> (r: Vec<String>)
    ensures
        r.deep_view() == seq![
            "/Create"@,
            "/TN"@,
            WB_RENEW_TASK_NAME@,
            "/TR"@,
            command@,
            "/SC"@,
            "WEEKLY"@,
            "/D"@,
            day@,
            "/ST"@,
            "10:30"@,
            "/F"@,
        ],
{
    let r = owned_list(
        &["/Create", "/TN", WB_RENEW_TASK_NAME, "/TR", command, "/SC", "WEEKLY", "/D", day, "/ST", "10:30", "/F"],
    );
    assert(r.deep_view() =~= seq![
        "/Create"@,
        "/TN"@,
        WB_RENEW_TASK_NAME@,
        "/TR"@,
        command@,
        "/SC"@,
        "WEEKLY"@,
        "/D"@,
        day@,
        "/ST"@,
        "10:30"@,
        "/F"@,
    ]);
    r
}

} // verus!
