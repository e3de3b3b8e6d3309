use workbuddy_checkin::decimal::i64_text;
use workbuddy_checkin::loopback::{
    callback_url, loopback_step, LoopbackAction, LoopbackEvent, LoopbackPhase,
};
use workbuddy_checkin::proxy_pause::{proxy_step, ProxyAction, ProxyEvent, ProxyPause, SavedProxy};
use workbuddy_checkin::reports::{
    done_counters, startup_checkin_report, startup_failure_message, tray_checkin_stages,
    tray_stage_failure, tray_stage_report, ui_click_result,
};
use workbuddy_checkin::results::{
    checkin_results_cutoff, recent_record_positions, results_window_days, str_less,
};
use workbuddy_checkin::schedule::{
    build_wb_task_tr, checkin_task_name, checkin_task_names_for, list_task_names,
    overwrite_failure_message, plan_relaxed_task_settings, register_failure_message,
    relax_warning_message, renew_task_day, task_exists, wb_checkin_task_names,
    workbuddy_checkin_task_status,
};
use workbuddy_checkin::schtasks_args::{
    create_daily_task_args, create_renew_task_args, delete_task_args, export_task_xml_args,
    import_task_xml_args, list_tasks_args, query_task_args,
};
use workbuddy_checkin::script_args::{
    workbuddy_checkin_start, workbuddy_growth_run, workbuddy_ui_click_checkin, WbCheckinOpts,
};
use workbuddy_checkin::task_list::parse_task_names_csv;
use workbuddy_checkin::task_xml::{
    decode_task_xml, encode_task_xml, patch_task_setting, relax_task_settings_xml,
};
use workbuddy_checkin::text::{same_text, trimmed};

fn strings(v: &[&str]) -> Vec<String> {
    v.iter().map(|s| s.to_string()).collect()
}

#[test]
fn csv_crlf_lines_and_spaces_around_fields() {
    let csv = "\"\\TaskA\" , \"x\"\r\n  \"\\\\Folder\\TaskC\"\r\n\"HOST\",\"N/A\"\r\n\"\\\"";
    assert_eq!(parse_task_names_csv(csv), vec!["TaskA", "Folder\\TaskC"]);
    assert_eq!(parse_task_names_csv(""), Vec::<String>::new());
}

#[test]
fn csv_name_column_order_does_not_matter() {
    let a = parse_task_names_csv("\"\\TaskA\",\"PC-01\"\n");
    let b = parse_task_names_csv("\"PC-01\",\"\\TaskA\"\n");
    assert_eq!(a, b);
}

#[test]
fn list_and_filter_checkin_tasks() {
    let out = "\"\\AIWorkAssistant_DailyCheckin\",\"x\"\n\"\\AIWorkAssistant_WorkBuddyCheckin_0900\",\"y\"\n";
    let listed = list_task_names(Ok((true, out.to_string(), String::new())));
    assert_eq!(listed, vec!["AIWorkAssistant_DailyCheckin", "AIWorkAssistant_WorkBuddyCheckin_0900"]);
    assert_eq!(wb_checkin_task_names(listed), vec!["AIWorkAssistant_WorkBuddyCheckin_0900"]);
    assert!(list_task_names(Err("schtasks missing".to_string())).is_empty());
}

#[test]
fn task_exists_follows_the_query() {
    assert!(task_exists(Ok((true, String::new(), String::new()))));
    assert!(!task_exists(Ok((false, String::new(), "ERROR".to_string()))));
    assert!(!task_exists(Err("spawn failed".to_string())));
}

#[test]
fn status_shows_registered_times() {
    let listed = strings(&[
        "AIWorkAssistant_DailyCheckin",
        "AIWorkAssistant_WorkBuddyCheckin_0900",
        "AIWorkAssistant_WorkBuddyCheckin_09_30",
        "AIWorkAssistant_WorkBuddyCheckin_AIWorkAssistant_WorkBuddyCheckin_2100",
    ]);
    assert_eq!(workbuddy_checkin_task_status(listed), vec!["09:00", "09:30", "21:00"]);
}

#[test]
fn registered_time_is_shown_back() {
    for t in ["09:00", "21:00", "12:30"] {
        let name = checkin_task_name(t);
        assert_eq!(workbuddy_checkin_task_status(vec![name]), vec![t]);
    }
}

#[test]
fn task_names_for_times() {
    assert_eq!(checkin_task_name("09:00"), "AIWorkAssistant_WorkBuddyCheckin_0900");
    let names = checkin_task_names_for(&strings(&["09:00", "21:00"])).unwrap();
    assert_eq!(names, vec!["AIWorkAssistant_WorkBuddyCheckin_0900", "AIWorkAssistant_WorkBuddyCheckin_2100"]);
    assert_eq!(
        checkin_task_names_for(&Vec::new()).unwrap_err(),
        "至少需要一个触发时间（如 09:00 / 21:00）"
    );
}

#[test]
fn task_command_line() {
    let tr = build_wb_task_tr(
        "C:\\Py\\python.exe",
        "C:\\app\\python\\workbuddy_checkin.py",
        "C:\\data",
        &["--json-stream", "--skip-checked"],
    );
    assert_eq!(
        tr,
        "cmd /c set \"AIWORKDATA_DIR=C:\\data\" && \"C:/Py/python.exe\" \"C:/app/python/workbuddy_checkin.py\" --json-stream --skip-checked"
    );
    let renew = build_wb_task_tr("py", "s.py", "d", &["--renew-only"]);
    assert_eq!(renew, "cmd /c set \"AIWORKDATA_DIR=d\" && \"py\" \"s.py\" --renew-only");
}

#[test]
fn renew_day_whitelist() {
    assert_eq!(renew_task_day("mon").unwrap(), "MON");
    assert_eq!(renew_task_day("Fri").unwrap(), "FRI");
    assert_eq!(renew_task_day("").unwrap(), "SUN");
    assert_eq!(renew_task_day("mon&calc").unwrap_err(), "星期无效: mon&calc（应为 MON..SUN）");
    assert_eq!(renew_task_day("xyz").unwrap_err(), "星期无效: xyz（应为 MON..SUN）");
}

#[test]
fn register_messages() {
    assert_eq!(register_failure_message("09:00", "  拒绝访问。\r\n"), "注册任务 09:00 失败: 拒绝访问。");
    assert_eq!(
        relax_warning_message("09:00", "导出任务 XML 为空"),
        "09:00 的设置放宽失败（任务已注册，按默认设置运行）: 导出任务 XML 为空"
    );
    assert_eq!(overwrite_failure_message(" bad\n"), "覆盖任务设置失败: bad");
}

const EXPORT: &str = "<Task><Settings><StartWhenAvailable>false</StartWhenAvailable><DisallowStartIfOnBatteries>true</DisallowStartIfOnBatteries><StopIfGoingOnBatteries>true</StopIfGoingOnBatteries></Settings><Description>每日签到</Description></Task>";

#[test]
fn relax_plan_outcomes() {
    assert_eq!(
        plan_relaxed_task_settings(false, &[], "  ERROR: no task\n").unwrap_err(),
        "导出任务 XML 失败: ERROR: no task"
    );
    assert_eq!(
        plan_relaxed_task_settings(true, &encode_task_xml(" \n "), "").unwrap_err(),
        "导出任务 XML 为空"
    );
    let bytes = plan_relaxed_task_settings(true, &encode_task_xml(EXPORT), "").unwrap().unwrap();
    let relaxed = decode_task_xml(&bytes);
    assert_eq!(relaxed, relax_task_settings_xml(EXPORT));
    assert!(relaxed.contains("<StartWhenAvailable>true</StartWhenAvailable>"));
    assert!(relaxed.contains("每日签到"));
    assert!(plan_relaxed_task_settings(true, &bytes, "").unwrap().is_none());
}

#[test]
fn patch_replaces_first_occurrence_only() {
    let xml = "<A>false</A><A>false</A>";
    assert_eq!(patch_task_setting(xml, "A", "false", "true"), "<A>true</A><A>false</A>");
    let once = patch_task_setting(xml, "A", "false", "true");
    assert_ne!(patch_task_setting(&once, "A", "false", "true"), once);
    assert_eq!(patch_task_setting("<Settings><A>maybe</A>", "A", "false", "true"), "<Settings><A>maybe</A>");
}

#[test]
fn utf16_decoding_edges() {
    assert_eq!(encode_task_xml("😀"), vec![0xFF, 0xFE, 0x3D, 0xD8, 0x00, 0xDE]);
    assert_eq!(decode_task_xml(&[0xFF, 0xFE, 0x3D, 0xD8, 0x00, 0xDE]), "😀");
    assert_eq!(decode_task_xml(&[0xFF, 0xFE, 0x00, 0xD8, 0x41, 0x00]), "\u{FFFD}A");
    assert_eq!(decode_task_xml(&[0xFF, 0xFE, 0x00, 0xDC]), "\u{FFFD}");
    assert_eq!(decode_task_xml(&[0xFF, 0xFE, 0x41, 0x00, 0x42]), "A");
    assert_eq!(decode_task_xml(&[0x41, 0xFF, 0x42]), "A\u{FFFD}B");
}

#[test]
fn checkin_round_arguments() {
    let opts = WbCheckinOpts {
        user_ids: Some(strings(&["u1", "u2"])),
        skip_checked_in: true,
        skip_expired: false,
        lazy_hours: Some(-3),
    };
    assert_eq!(
        workbuddy_checkin_start(opts),
        vec!["--json-stream", "--skip-checked", "--lazy-hours", "-3", "--uid", "u1", "--uid", "u2"]
    );
    let plain = WbCheckinOpts { user_ids: None, skip_checked_in: false, skip_expired: true, lazy_hours: None };
    assert_eq!(workbuddy_checkin_start(plain), vec!["--json-stream", "--skip-expired"]);
    assert_eq!(workbuddy_growth_run(true, false, true), vec!["--growth", "--growth-travel", "--growth-tasks"]);
    assert_eq!(workbuddy_growth_run(false, false, false), vec!["--growth"]);
}

#[test]
fn ui_click_decisions() {
    assert_eq!(
        workbuddy_ui_click_checkin(false, 10, 10).unwrap_err(),
        "UI 坐标点击兜底未启用：请在设置中显式开启（F-18 仅作 API 不可用时的最后手段）"
    );
    assert_eq!(
        workbuddy_ui_click_checkin(true, 0, 10).unwrap_err(),
        "签到按钮坐标未配置：请先在客户端打开签到页，再用「取点」记录按钮位置"
    );
    assert_eq!(workbuddy_ui_click_checkin(true, 120, 45).unwrap(), vec!["--click", "--x", "120", "--y", "45"]);
}

#[test]
fn ui_click_output() {
    assert_eq!(ui_click_result("starting\n {\"ok\": true} \nbye\n").unwrap(), "{\"ok\": true}");
    assert_eq!(ui_click_result("  nothing here \n").unwrap_err(), "UI 点击脚本输出无法解析: nothing here");
    let long = "x".repeat(200);
    assert_eq!(ui_click_result(&long).unwrap_err(), format!("UI 点击脚本输出无法解析: {}", "x".repeat(120)));
}

const DONE_OUT: &str = "{\"type\":\"progress\",\"uid\":\"u1\"}\n{\"type\":\"done\",\"ok\":2,\"already\":1,\"failed\":1}\nnot json\n";

#[test]
fn startup_report_counts() {
    let r = startup_checkin_report(DONE_OUT);
    assert_eq!(r.log, "WorkBuddy 启动补签完成: 成功 2，已签 1，失败 1");
    assert_eq!(r.notify.unwrap(), "启动补签有 1 个账号失败，请在签到与成长页查看");
    let quiet = startup_checkin_report("{\"type\":\"done\",\"ok\":3}\n");
    assert_eq!(quiet.log, "WorkBuddy 启动补签完成: 成功 3，已签 0，失败 0");
    assert!(quiet.notify.is_none());
    let none = startup_checkin_report("{\"type\":\"done\"}\n{\"type\":\"progress\"}\n");
    assert_eq!(none.log, "WorkBuddy 启动补签：无有效结果输出");
    assert!(none.notify.is_none());
    assert_eq!(startup_failure_message("not found"), "WorkBuddy 启动补签失败: not found");
}

#[test]
fn done_line_reading() {
    let d = done_counters(DONE_OUT).unwrap();
    assert_eq!((d.ok, d.already, d.failed), (Some(2), Some(1), Some(1)));
    assert!(done_counters("{\"type\":\"finished\"}").is_none());
    assert!(done_counters("").is_none());
    assert!(done_counters("{\"type\":1}").is_none());
}

#[test]
fn tray_reports() {
    let r = tray_stage_report("签到", "{\"type\":\"done\",\"ok\":2,\"already\":1,\"failed\":0}");
    assert_eq!(r.log, "WorkBuddy 签到: 成功 2，已签 1，失败 0");
    assert_eq!(r.notify.unwrap(), "WorkBuddy 签到: 成功 2，已签 1，失败 0");
    let g = tray_stage_report("成长计划", "{\"type\":\"done\",\"ok\":1}");
    assert_eq!(g.log, "WorkBuddy 成长计划: 完成");
    let n = tray_stage_report("签到", "oops");
    assert_eq!(n.log, "托盘一键签到：WorkBuddy 签到 无有效结果输出");
    assert!(n.notify.is_none());
    assert_eq!(tray_stage_failure("签到", "boom"), "WorkBuddy 签到失败: boom");
    let stages = tray_checkin_stages(false, true, false);
    assert_eq!(stages[0].0, "签到");
    assert_eq!(stages[0].1, vec!["--json-stream", "--skip-checked"]);
    assert_eq!(stages[1].0, "成长计划");
    assert_eq!(stages[1].1, vec!["--growth", "--growth-lottery"]);
}

#[test]
fn results_window_and_cutoff() {
    assert_eq!(results_window_days(None), 30);
    assert_eq!(results_window_days(Some(-5)), 1);
    assert_eq!(results_window_days(Some(1000)), 90);
    assert_eq!(results_window_days(Some(45)), 45);
    assert_eq!(checkin_results_cutoff(2026, 9, 16, None).unwrap(), "2026-08-17");
    assert_eq!(checkin_results_cutoff(2026, 9, 16, Some(0)).unwrap(), "2026-09-15");
    assert_eq!(checkin_results_cutoff(2026, 9, 16, Some(365)).unwrap(), "2026-06-18");
    assert!(checkin_results_cutoff(2026, 2, 30, None).is_none());
}

#[test]
fn results_newest_first() {
    let dates = strings(&["2026-09-01", "2026-08-01", "", "2026-09-10", "2026-08-17"]);
    assert_eq!(recent_record_positions(&dates, "2026-08-17"), vec![4, 3, 0]);
    assert!(recent_record_positions(&Vec::new(), "2026-08-17").is_empty());
    assert!(str_less("2026-08-16", "2026-08-17"));
    assert!(str_less("", "a"));
    assert!(!str_less("b", "ab"));
}

#[test]
fn schtasks_command_lines() {
    assert_eq!(query_task_args("T"), vec!["/Query", "/TN", "T", "/FO", "LIST"]);
    assert_eq!(list_tasks_args(), vec!["/Query", "/FO", "CSV", "/NH"]);
    assert_eq!(delete_task_args("T"), vec!["/Delete", "/TN", "T", "/F"]);
    assert_eq!(
        create_daily_task_args("T", "cmd", "09:00"),
        vec!["/Create", "/TN", "T", "/TR", "cmd", "/SC", "DAILY", "/ST", "09:00", "/F"]
    );
    assert_eq!(export_task_xml_args("T"), vec!["/Query", "/TN", "T", "/XML"]);
    assert_eq!(import_task_xml_args("T", "p.xml"), vec!["/Create", "/TN", "T", "/XML", "p.xml", "/F"]);
    assert_eq!(
        create_renew_task_args("cmd", "SUN"),
        vec!["/Create", "/TN", "AIWorkAssistant_WorkBuddyRenew", "/TR", "cmd", "/SC", "WEEKLY", "/D", "SUN", "/ST", "10:30", "/F"]
    );
}

#[test]
fn loopback_lifecycle() {
    let (p, a) = loopback_step(LoopbackPhase::Idle, LoopbackEvent::StartRequested);
    assert!(matches!(p, LoopbackPhase::Binding) && matches!(a, LoopbackAction::Bind));
    let (p, a) = loopback_step(p, LoopbackEvent::BindSucceeded);
    assert!(matches!(p, LoopbackPhase::Listening) && matches!(a, LoopbackAction::Serve));
    let (p, a) = loopback_step(p, LoopbackEvent::StartRequested);
    assert!(matches!(p, LoopbackPhase::Listening) && matches!(a, LoopbackAction::Nothing));
    let (p, a) = loopback_step(p, LoopbackEvent::StopRequested);
    assert!(matches!(p, LoopbackPhase::Idle) && matches!(a, LoopbackAction::Shutdown));
    let (p, a) = loopback_step(p, LoopbackEvent::StopRequested);
    assert!(matches!(p, LoopbackPhase::Idle) && matches!(a, LoopbackAction::Nothing));
    let (p, _) = loopback_step(p, LoopbackEvent::StartRequested);
    let (p, a) = loopback_step(p, LoopbackEvent::BindFailed("address in use".to_string()));
    assert!(matches!(p, LoopbackPhase::Idle));
    match a {
        LoopbackAction::Fail(m) => assert_eq!(m, "端口 17388 绑定失败（可能被其他程序占用）: address in use"),
        _ => panic!("bind failure not reported"),
    }
    let (p, _) = loopback_step(LoopbackPhase::Listening, LoopbackEvent::ServerExited);
    assert!(matches!(p, LoopbackPhase::Idle));
}

#[test]
fn loopback_callback_url() {
    assert_eq!(callback_url(Some("code=1&state=x".to_string())), "http://127.0.0.1:17388/authorize?code=1&state=x");
    assert_eq!(callback_url(None), "http://127.0.0.1:17388/authorize?");
}

#[test]
fn proxy_pause_and_restore() {
    let saved = SavedProxy { enabled: true, server: "127.0.0.1:8899".to_string(), bypass: "<local>".to_string() };
    let (s, a) = proxy_step(ProxyPause::Inactive, ProxyEvent::PauseRequested);
    assert!(matches!(a, ProxyAction::ReadSetting));
    let (s, a) = proxy_step(s, ProxyEvent::SettingRead(Some(saved)));
    assert!(matches!(a, ProxyAction::Disable));
    let (s, a) = proxy_step(s, ProxyEvent::Disabled);
    match a {
        ProxyAction::PausedFrom(server) => assert_eq!(server, "127.0.0.1:8899"),
        _ => panic!("pause not logged"),
    }
    let (s, a) = proxy_step(s, ProxyEvent::PauseRequested);
    assert!(matches!(a, ProxyAction::Done));
    let (s, a) = proxy_step(s, ProxyEvent::RestoreRequested);
    assert!(matches!(s, ProxyPause::Inactive));
    match a {
        ProxyAction::Apply(server, bypass) => {
            assert_eq!(server, "127.0.0.1:8899");
            assert_eq!(bypass, "<local>");
        }
        _ => panic!("proxy not restored"),
    }
    let (s, a) = proxy_step(s, ProxyEvent::RestoreRequested);
    assert!(matches!(s, ProxyPause::Inactive) && matches!(a, ProxyAction::Done));
}

#[test]
fn proxy_pause_edges() {
    let (s, _) = proxy_step(ProxyPause::Inactive, ProxyEvent::PauseRequested);
    let (s, a) = proxy_step(s, ProxyEvent::SettingRead(None));
    assert!(matches!(s, ProxyPause::Paused(None)) && matches!(a, ProxyAction::Done));
    let (_, a) = proxy_step(s, ProxyEvent::RestoreRequested);
    assert!(matches!(a, ProxyAction::Done));
    let off = SavedProxy { enabled: false, server: "old:1".to_string(), bypass: String::new() };
    let (s, _) = proxy_step(ProxyPause::Inactive, ProxyEvent::PauseRequested);
    let (s, a) = proxy_step(s, ProxyEvent::SettingRead(Some(off)));
    assert!(matches!(a, ProxyAction::Disable));
    let (s, _) = proxy_step(s, ProxyEvent::Disabled);
    let (_, a) = proxy_step(s, ProxyEvent::RestoreRequested);
    assert!(matches!(a, ProxyAction::Done));
    let on = SavedProxy { enabled: true, server: "x".to_string(), bypass: String::new() };
    let (s, _) = proxy_step(ProxyPause::Inactive, ProxyEvent::PauseRequested);
    let (s, _) = proxy_step(s, ProxyEvent::SettingRead(Some(on)));
    let (s, a) = proxy_step(s, ProxyEvent::DisableFailed("denied".to_string()));
    assert!(matches!(s, ProxyPause::Inactive));
    match a {
        ProxyAction::Fail(e) => assert_eq!(e, "denied"),
        _ => panic!("failure not reported"),
    }
}

#[test]
fn decimal_and_text_helpers() {
    assert_eq!(i64_text(0), "0");
    assert_eq!(i64_text(42), "42");
    assert_eq!(i64_text(i64::MIN), "-9223372036854775808");
    assert_eq!(i64_text(i64::MAX), "9223372036854775807");
    assert_eq!(trimmed("\u{3000} a b \t\n"), "a b");
    assert!(same_text("签到", "签到"));
    assert!(!same_text("签到", "签"));
}

#[test]
fn utf8_fallback_matches_std_lossy_decoding() {
    let marks: [u8; 12] = [0x00, 0x41, 0x7F, 0x80, 0x8F, 0x90, 0x9F, 0xA0, 0xBF, 0xC0, 0xF4, 0xFF];
    let mut cases: Vec<Vec<u8>> = Vec::new();
    for a in 0..=255u8 {
        cases.push(vec![a]);
        for b in 0..=255u8 {
            cases.push(vec![a, b]);
        }
        for &b in &marks {
            for &c in &marks {
                cases.push(vec![a, b, c]);
                for &d in &marks {
                    cases.push(vec![a, b, c, d]);
                    cases.push(vec![a, b, c, d, 0x41]);
                }
            }
        }
    }
    for bytes in cases {
        if bytes.len() >= 2 && bytes[0] == 0xFF && bytes[1] == 0xFE {
            continue;
        }
        assert_eq!(decode_task_xml(&bytes), String::from_utf8_lossy(&bytes), "{:?}", bytes);
    }
    let text = "签到 ✓ 😀 ok";
    assert_eq!(decode_task_xml(text.as_bytes()), text);
}
