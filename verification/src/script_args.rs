//! Argument lists for the check-in script (`workbuddy_checkin.py`) and the UI-click
//! fallback script, as the commands build them from their options and settings.

use vstd::prelude::*;
use crate::decimal::{i64_text, int_text};
use crate::text::owned;

verus! {

/// Options of a check-in round.
pub struct WbCheckinOpts {
    /// Only these accounts (all when `None`).
    pub user_ids: Option<Vec<String>>,
    /// Skip accounts already checked in today.
    pub skip_checked_in: bool,
    /// Skip accounts whose login expired.
    pub skip_expired: bool,
    /// Only accounts not checked for this many hours.
    pub lazy_hours: Option<i64>,
}

/// `--uid <id>` for each account, in order.
pub open spec fn uid_args(ids: Seq<Seq<char>>) -> Seq<Seq<char>>
    decreases ids.len(),
{
    if ids.len() == 0 {
        Seq::empty()
    } else {
        uid_args(ids.drop_last()) + seq!["--uid"@, ids.last()]
    }
}

/// One argument when the flag is set, none otherwise.
pub open spec fn flag_arg(set: bool, arg: Seq<char>) -> Seq<Seq<char>> {
    if set {
        seq![arg]
    } else {
        Seq::empty()
    }
}

/// The check-in script's arguments for a round: `--json-stream`, then `--skip-checked`,
/// `--skip-expired`, `--lazy-hours <h>` as the options ask, then `--uid <id>` per account.
pub open spec fn checkin_args(
    skip_checked_in: bool,
    skip_expired: bool,
    lazy_hours: Option<i64>,
    ids: Seq<Seq<char>>,
) -> Seq<Seq<char>> {
    seq!["--json-stream"@] + flag_arg(skip_checked_in, "--skip-checked"@) + flag_arg(
        skip_expired,
        "--skip-expired"@,
    ) + match lazy_hours {
        Some(h) => seq!["--lazy-hours"@, int_text(h as int)],
        None => Seq::empty(),
    } + uid_args(ids)
}

/// The accounts an option list names (none when `None`).
pub open spec fn opt_ids(ids: Option<Vec<String>>) -> Seq<Seq<char>> {
    match ids {
        Some(v) => v.deep_view(),
        None => Seq::empty(),
    }
}

/// The arguments of the check-in script for a check-in round started with `opts`.
pub fn workbuddy_checkin_start(opts: WbCheckinOpts) -> (r: Vec<String>)
    ensures
        r.deep_view() == checkin_args(
            opts.skip_checked_in,
            opts.skip_expired,
            opts.lazy_hours,
            opt_ids(opts.user_ids),
        ),
{
    let ghost ids = opt_ids(opts.user_ids);
    let mut args: Vec<String> = Vec::new();
    args.push(owned("--json-stream"));
    let ghost base = args.deep_view();
    assert(base =~= seq!["--json-stream"@]);
    if opts.skip_checked_in {
        args.push(owned("--skip-checked"));
    }
    assert(args.deep_view() =~= base + flag_arg(opts.skip_checked_in, "--skip-checked"@));
    let ghost a1 = args.deep_view();
    if opts.skip_expired {
        args.push(owned("--skip-expired"));
    }
    assert(args.deep_view() =~= a1 + flag_arg(opts.skip_expired, "--skip-expired"@));
    let ghost a2 = args.deep_view();
    match opts.lazy_hours {
        Some(h) => {
            args.push(owned("--lazy-hours"));
            args.push(i64_text(h));
        },
        None => {},
    }
    let ghost a3 = args.deep_view();
    assert(a3 =~= a2 + match opts.lazy_hours {
        Some(h) => seq!["--lazy-hours"@, int_text(h as int)],
        None => Seq::<Seq<char>>::empty(),
    });
    let uids: Vec<String> = match opts.user_ids {
        Some(v) => v,
        None => Vec::new(),
    };
    assert(uids.deep_view() == ids);
    let mut i: usize = 0;
    while i < uids.len()
        invariant
            i <= uids.len(),
            uids.deep_view() == ids,
            args.deep_view() == a3 + uid_args(ids.take(i as int)),
        decreases uids.len() - i,
    {
        let ghost before = args.deep_view();
        args.push(owned("--uid"));
        args.push(uids[i].clone());
        assert(ids.take(i + 1).drop_last() =~= ids.take(i as int));
        assert(ids.take(i + 1).last() == uids@[i as int]@);
        assert(args.deep_view() =~= before + seq!["--uid"@, uids@[i as int]@]);
        i += 1;
    }
    assert(ids.take(uids.len() as int) =~= ids);
    assert(args.deep_view() =~= checkin_args(
        opts.skip_checked_in,
        opts.skip_expired,
        opts.lazy_hours,
        ids,
    ));
    args
}

/// The growth-center run's arguments: `--growth`, then `--growth-travel`,
/// `--growth-lottery`, `--growth-tasks` for the switched-on parts.
pub open spec fn growth_args(travel: bool, lottery: bool, tasks: bool) -> Seq<Seq<char>> {
    seq!["--growth"@] + flag_arg(travel, "--growth-travel"@) + flag_arg(lottery, "--growth-lottery"@)
        + flag_arg(tasks, "--growth-tasks"@)
}

/// The arguments of the check-in script for a growth-center run with the given switches.
pub fn workbuddy_growth_run(travel: bool, lottery: bool, tasks: bool) -> (r: Vec<String>)
    ensures
        r.deep_view() == growth_args(travel, lottery, tasks),
{
    let mut args: Vec<String> = Vec::new();
    args.push(owned("--growth"));
    let ghost a0 = args.deep_view();
    if travel {
        args.push(owned("--growth-travel"));
    }
    assert(args.deep_view() =~= a0 + flag_arg(travel, "--growth-travel"@));
    let ghost a1 = args.deep_view();
    if lottery {
        args.push(owned("--growth-lottery"));
    }
    assert(args.deep_view() =~= a1 + flag_arg(lottery, "--growth-lottery"@));
    let ghost a2 = args.deep_view();
    if tasks {
        args.push(owned("--growth-tasks"));
    }
    assert(args.deep_view() =~= a2 + flag_arg(tasks, "--growth-tasks"@));
    assert(args.deep_view() =~= growth_args(travel, lottery, tasks));
    args
}

/// The arguments of an unattended check-in (scheduled task, start-up and tray runs):
/// `--json-stream --skip-checked`.
pub open spec fn unattended_checkin_args() -> Seq<Seq<char>> {
    seq!["--json-stream"@, "--skip-checked"@]
}

/// Builds `--json-stream --skip-checked`.
pub fn unattended_checkin_arg_list() -> (r: Vec<String>)
    ensures
        r.deep_view() == unattended_checkin_args(),
{
    let mut args: Vec<String> = Vec::new();
    args.push(owned("--json-stream"));
    args.push(owned("--skip-checked"));
    assert(args.deep_view() =~= unattended_checkin_args());
    args
}

/// The message when the UI-click fallback is switched off.
pub open spec fn ui_click_disabled_message() -> Seq<char> {
    "UI 坐标点击兜底未启用：请在设置中显式开启（F-18 仅作 API 不可用时的最后手段）"@
}

/// The message when no button position has been captured.
pub open spec fn ui_click_unset_message() -> Seq<char> {
    "签到按钮坐标未配置：请先在客户端打开签到页，再用「取点」记录按钮位置"@
}

/// The UI-click fallback's arguments for a click at `(x, y)`.
pub open spec fn ui_click_args(x: i64, y: i64) -> Seq<Seq<char>> {
    seq!["--click"@, "--x"@, int_text(x as int), "--y"@, int_text(y as int)]
}

/// Decides a UI-click check-in: refused while the fallback is switched off, refused while
/// either coordinate is not positive, else the script's click arguments.
pub fn workbuddy_ui_click_checkin(enabled: bool, x: i64, y: i64) -> (r: Result<Vec<String>, String>)
    ensures
        !enabled ==> (r matches Err(e) && e@ == ui_click_disabled_message()),
        enabled && (x <= 0 || y <= 0) ==> (r matches Err(e) && e@ == ui_click_unset_message()),
        enabled && x > 0 && y > 0 ==> (r matches Ok(a) && a.deep_view() == ui_click_args(x, y)),
{
    if !enabled {
        return Err(owned("UI 坐标点击兜底未启用：请在设置中显式开启（F-18 仅作 API 不可用时的最后手段）"));
    }
    if x <= 0 || y <= 0 {
        return Err(owned("签到按钮坐标未配置：请先在客户端打开签到页，再用「取点」记录按钮位置"));
    }
    let mut args: Vec<String> = Vec::new();
    args.push(owned("--click"));
    args.push(owned("--x"));
    args.push(i64_text(x));
    args.push(owned("--y"));
    args.push(i64_text(y));
    assert(args.deep_view() =~= ui_click_args(x, y));
    Ok(args)
}

/// The options are independent: the arguments always start with `--json-stream`;
/// `--skip-checked` is present exactly when asked for, right after it; `--skip-expired` is
/// present exactly when asked for, right after those, whether or not `--skip-checked` is
/// there; and taking either flag out gives the arguments of the round without that option.
pub proof fn law_checkin_flags_independent(
    skip_checked_in: bool,
    skip_expired: bool,
    lazy_hours: Option<i64>,
    ids: Seq<Seq<char>>,
)
    ensures
        ({
            let r = checkin_args(skip_checked_in, skip_expired, lazy_hours, ids);
            let c: int = if skip_checked_in { 1 } else { 0 };
            &&& r[0] == "--json-stream"@
            &&& skip_checked_in ==> r[1] == "--skip-checked"@ && r.remove(1) == checkin_args(
                false,
                skip_expired,
                lazy_hours,
                ids,
            )
            &&& skip_expired ==> r[1 + c] == "--skip-expired"@ && r.remove(1 + c) == checkin_args(
                skip_checked_in,
                false,
                lazy_hours,
                ids,
            )
            &&& r.len() == checkin_args(false, false, lazy_hours, ids).len() + c + (if skip_expired {
                1int
            } else {
                0int
            })
        }),
{
    let r = checkin_args(skip_checked_in, skip_expired, lazy_hours, ids);
    let c: int = if skip_checked_in { 1 } else { 0 };
    let js = seq!["--json-stream"@];
    let tl = match lazy_hours {
        Some(h) => seq!["--lazy-hours"@, int_text(h as int)],
        None => Seq::empty(),
    } + uid_args(ids);
    let fc = flag_arg(skip_checked_in, "--skip-checked"@);
    let fe = flag_arg(skip_expired, "--skip-expired"@);
    assert(r =~= js + fc + fe + tl);
    assert(checkin_args(false, skip_expired, lazy_hours, ids) =~= js + fe + tl);
    assert(checkin_args(skip_checked_in, false, lazy_hours, ids) =~= js + fc + tl);
    assert(checkin_args(false, false, lazy_hours, ids) =~= js + tl);
    if skip_checked_in {
        assert(r.remove(1) =~= js + fe + tl);
    }
    if skip_expired {
        assert(r.remove(1 + c) =~= js + fc + tl);
    }
}

} // verus!
