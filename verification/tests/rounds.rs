use workbuddy_checkin::register_round::{register_step, RegisterAction, RegisterEvent, RegisterRound};
use workbuddy_checkin::reports::{done_line_of, startup_report_of, tray_report_of, JsonLine};
use workbuddy_checkin::schedule::renew_day_of;
use workbuddy_checkin::task_list::parse_task_names_csv;
use workbuddy_checkin::task_xml::{patch_task_setting, relax_task_settings_xml};

fn times(v: &[&str]) -> Vec<String> {
    v.iter().map(|s| s.to_string()).collect()
}

fn fresh() -> RegisterRound {
    RegisterRound { next: 0, warnings: Vec::new() }
}

fn done(ok: Option<i64>, already: Option<i64>, failed: Option<i64>) -> JsonLine {
    JsonLine { kind: Some("done".to_string()), ok, already, failed }
}

#[test]
fn register_round_collects_warnings_and_logs_them_joined() {
    let ts = times(&["09:00", "21:00"]);
    let (r, a) = register_step(&ts, fresh(), RegisterEvent::Start);
    assert!(matches!(a, RegisterAction::Create(0)));
    let (r, a) = register_step(&ts, r, RegisterEvent::Created { ok: true, stderr: String::new() });
    assert!(matches!(a, RegisterAction::Relax(0)));
    let (r, a) = register_step(&ts, r, RegisterEvent::Relaxed { error: Some("导出失败".to_string()) });
    assert!(matches!(a, RegisterAction::Create(1)));
    assert_eq!(r.warnings, vec!["09:00 的设置放宽失败（任务已注册，按默认设置运行）: 导出失败"]);
    let (r, a) = register_step(&ts, r, RegisterEvent::Created { ok: true, stderr: String::new() });
    assert!(matches!(a, RegisterAction::Relax(1)));
    let (r, a) = register_step(&ts, r, RegisterEvent::Relaxed { error: Some("导入失败".to_string()) });
    match a {
        RegisterAction::Finish(Some(line)) => assert_eq!(
            line,
            "WorkBuddy 签到任务设置放宽警告: 09:00 的设置放宽失败（任务已注册，按默认设置运行）: 导出失败；21:00 的设置放宽失败（任务已注册，按默认设置运行）: 导入失败"
        ),
        _ => panic!("round did not finish with a log line"),
    }
    assert_eq!(r.warnings.len(), 2);
}

#[test]
fn register_round_without_warnings_logs_nothing() {
    let ts = times(&["09:00"]);
    let (r, _) = register_step(&ts, fresh(), RegisterEvent::Start);
    let (r, _) = register_step(&ts, r, RegisterEvent::Created { ok: true, stderr: String::new() });
    let (r, a) = register_step(&ts, r, RegisterEvent::Relaxed { error: None });
    assert!(matches!(a, RegisterAction::Finish(None)));
    assert!(r.warnings.is_empty());
}

#[test]
fn register_round_stops_on_failed_create() {
    let ts = times(&["09:00", "21:00"]);
    let (r, _) = register_step(&ts, fresh(), RegisterEvent::Start);
    let (_, a) = register_step(&ts, r, RegisterEvent::Created { ok: false, stderr: " 拒绝访问。\r\n".to_string() });
    match a {
        RegisterAction::Fail(e) => assert_eq!(e, "注册任务 09:00 失败: 拒绝访问。"),
        _ => panic!("failed create did not stop the round"),
    }
}

#[test]
fn renew_day_from_given_uppercase() {
    assert_eq!(renew_day_of("mon", "MON"), Ok("MON".to_string()));
    assert_eq!(renew_day_of("", ""), Ok("SUN".to_string()));
    assert_eq!(renew_day_of("ſun", "SUN"), Ok("SUN".to_string()));
    assert_eq!(renew_day_of("xyz", "XYZ"), Err("星期无效: xyz（应为 MON..SUN）".to_string()));
}

#[test]
fn startup_report_from_done_line() {
    let r = startup_report_of(Some(done(Some(2), Some(1), Some(1))));
    assert_eq!(r.log, "WorkBuddy 启动补签完成: 成功 2，已签 1，失败 1");
    assert_eq!(r.notify, Some("启动补签有 1 个账号失败，请在签到与成长页查看".to_string()));
    let r = startup_report_of(Some(done(None, Some(3), None)));
    assert_eq!(r.log, "WorkBuddy 启动补签完成: 成功 0，已签 3，失败 0");
    assert_eq!(r.notify, None);
    let r = startup_report_of(None);
    assert_eq!(r.log, "WorkBuddy 启动补签：无有效结果输出");
    assert_eq!(r.notify, None);
}

#[test]
fn tray_report_from_done_line() {
    let r = tray_report_of("签到", Some(done(Some(2), Some(1), Some(0))));
    assert_eq!(r.log, "WorkBuddy 签到: 成功 2，已签 1，失败 0");
    assert_eq!(r.notify, Some(r.log.clone()));
    let r = tray_report_of("成长计划", Some(done(Some(1), None, Some(0))));
    assert_eq!(r.log, "WorkBuddy 成长计划: 完成");
    let r = tray_report_of("签到", None);
    assert_eq!(r.log, "托盘一键签到：WorkBuddy 签到 无有效结果输出");
    assert_eq!(r.notify, None);
}

#[test]
fn done_line_only_for_done_type() {
    assert!(done_line_of(Some(done(Some(1), None, None))).is_some());
    let progress = JsonLine { kind: Some("progress".to_string()), ok: None, already: None, failed: None };
    assert!(done_line_of(Some(progress)).is_none());
    let untyped = JsonLine { kind: None, ok: Some(1), already: None, failed: None };
    assert!(done_line_of(Some(untyped)).is_none());
    assert!(done_line_of(None).is_none());
}

#[test]
fn one_patch_settles_a_single_default() {
    let xml = "<Task><Settings><StartWhenAvailable>false</StartWhenAvailable></Settings></Task>";
    let once = patch_task_setting(xml, "StartWhenAvailable", "false", "true");
    assert_eq!(patch_task_setting(&once, "StartWhenAvailable", "false", "true"), once);
    let inserted = patch_task_setting("<Task><Settings></Settings></Task>", "StartWhenAvailable", "false", "true");
    assert_eq!(patch_task_setting(&inserted, "StartWhenAvailable", "false", "true"), inserted);
}

#[test]
fn one_relaxation_settles_defaults_met_once() {
    let xml = "<Task><Settings><DisallowStartIfOnBatteries>true</DisallowStartIfOnBatteries>\
               <StopIfGoingOnBatteries>true</StopIfGoingOnBatteries></Settings></Task>";
    let once = relax_task_settings_xml(xml);
    assert_eq!(relax_task_settings_xml(&once), once);
    assert!(once.contains("<StartWhenAvailable>true</StartWhenAvailable>"));
    assert!(!once.contains("<StopIfGoingOnBatteries>true</StopIfGoingOnBatteries>"));
}

#[test]
fn task_names_one_per_line_without_quotes() {
    let csv = "\"\\TaskA\",\"\\TaskB\"\n\"\\Folder\\TaskC\"\"\"\n\"x\"\n";
    let names = parse_task_names_csv(csv);
    assert!(names.len() <= csv.lines().count());
    assert_eq!(names, vec!["TaskA", "Folder\\TaskC"]);
    assert!(names.iter().all(|n| !n.ends_with('"')));
}
