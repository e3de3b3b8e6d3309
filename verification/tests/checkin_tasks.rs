use workbuddy_checkin::schedule::hhmm_suffix_to_time;
use workbuddy_checkin::task_list::parse_task_names_csv;
use workbuddy_checkin::task_xml::{
    decode_task_xml, encode_task_xml, patch_task_setting, relax_task_settings_xml,
};

#[test]
fn parse_task_names_without_hostname_column() {
    let csv = "\"\\AIWorkAssistant_DailyCheckin\",\"2026/9/16 10:00:00\",\"就绪\"\n\
               \"\\AIWorkAssistant_WorkBuddyCheckin_0900\",\"2026/9/16 9:00:00\",\"就绪\"\n\
               \"\\AIWorkAssistant_WorkBuddyCheckin_2100\",\"2026/9/15 21:00:00\",\"就绪\"\n";
    assert_eq!(
        parse_task_names_csv(csv),
        vec![
            "AIWorkAssistant_DailyCheckin",
            "AIWorkAssistant_WorkBuddyCheckin_0900",
            "AIWorkAssistant_WorkBuddyCheckin_2100",
        ]
    );
}

#[test]
fn parse_task_names_with_hostname_column() {
    let csv = "\"PC-01\",\"\\TaskA\",\"N/A\",\"Ready\"\n";
    assert_eq!(parse_task_names_csv(csv), vec!["TaskA"]);
}

#[test]
fn parse_task_names_keeps_folder_prefix_and_skips_noise() {
    let csv = "\"\\Microsoft\\Office\\TaskB\",\"2026/9/16 10:00:00\",\"就绪\"\n\n";
    assert_eq!(parse_task_names_csv(csv), vec!["Microsoft\\Office\\TaskB"]);
}

#[test]
fn hhmm_suffix_to_time_formats_colon() {
    assert_eq!(hhmm_suffix_to_time("0900"), "09:00");
    assert_eq!(hhmm_suffix_to_time("2100"), "21:00");
}

#[test]
fn hhmm_suffix_to_time_passthrough_unknown() {
    assert_eq!(hhmm_suffix_to_time("09_00"), "09:00");
    assert_eq!(hhmm_suffix_to_time("abc"), "abc");
    assert_eq!(hhmm_suffix_to_time(""), "");
}

const SAMPLE_SETTINGS: &str = r#"<Settings>
    <MultipleInstancesPolicy>IgnoreNew</MultipleInstancesPolicy>
    <DisallowStartIfOnBatteries>true</DisallowStartIfOnBatteries>
    <StopIfGoingOnBatteries>true</StopIfGoingOnBatteries>
    <AllowHardTerminate>true</AllowHardTerminate>
    <StartWhenAvailable>false</StartWhenAvailable>
    <RunOnlyIfNetworkAvailable>false</RunOnlyIfNetworkAvailable>
    <Enabled>true</Enabled>
  </Settings>"#;

#[test]
fn relax_settings_rewrites_three_defaults() {
    let out = relax_task_settings_xml(SAMPLE_SETTINGS);
    assert!(out.contains("<DisallowStartIfOnBatteries>false</DisallowStartIfOnBatteries>"));
    assert!(out.contains("<StopIfGoingOnBatteries>false</StopIfGoingOnBatteries>"));
    assert!(out.contains("<StartWhenAvailable>true</StartWhenAvailable>"));
    assert!(!out.contains("<StartWhenAvailable>false</StartWhenAvailable>"));
    assert!(!out.contains("<DisallowStartIfOnBatteries>true</DisallowStartIfOnBatteries>"));
    assert!(out.contains("<MultipleInstancesPolicy>IgnoreNew</MultipleInstancesPolicy>"));
    assert!(out.contains("<RunOnlyIfNetworkAvailable>false</RunOnlyIfNetworkAvailable>"));
    assert!(out.contains("<Enabled>true</Enabled>"));
}

#[test]
fn relax_settings_is_idempotent() {
    let once = relax_task_settings_xml(SAMPLE_SETTINGS);
    assert_eq!(relax_task_settings_xml(&once), once);
}

#[test]
fn patch_absent_tag_inserts_into_settings() {
    let xml = "<Task><Settings><Enabled>true</Enabled></Settings></Task>";
    assert_eq!(
        patch_task_setting(xml, "StartWhenAvailable", "false", "true"),
        "<Task><Settings><StartWhenAvailable>true</StartWhenAvailable><Enabled>true</Enabled></Settings></Task>"
    );
}

#[test]
fn patch_without_settings_is_noop() {
    let xml = "<Task/>";
    assert_eq!(patch_task_setting(xml, "StartWhenAvailable", "false", "true"), xml);
    assert_eq!(relax_task_settings_xml(xml), xml);
}

#[test]
fn task_xml_roundtrip_keeps_unicode() {
    let xml = "<?xml version=\"1.0\" encoding=\"UTF-16\"?>\n\
               <Task><Description>每日签到</Description></Task>";
    let bytes = encode_task_xml(xml);
    assert_eq!(&bytes[..2], &[0xFF, 0xFE]);
    assert_eq!(decode_task_xml(&bytes), xml);
}

#[test]
fn decode_task_xml_falls_back_to_utf8() {
    assert_eq!(decode_task_xml(b"<Task/>"), "<Task/>");
    assert_eq!(decode_task_xml(&[]), "");
}
