use rozum::service::{
    launchd_plist, launchd_plist_path, meetings_launchd_plist, meetings_launchd_plist_path,
    meetings_log_path, meetings_systemd_unit, meetings_systemd_unit_path,
    meetings_windows_launcher_path, meetings_windows_log_path, meetings_windows_task_xml_path,
    systemd_unit, systemd_unit_path, utf16le_with_bom, windows_launcher_cmd,
    windows_launcher_path, windows_log_path, windows_task_xml, windows_task_xml_path, xml_escape,
    UserDirs, MEETINGS_WINDOWS_TASK, WINDOWS_TASK,
};
use rozum::services::{all, find, Service};

fn args() -> Vec<String> {
    vec![
        "gateway".to_string(),
        "--model".to_string(),
        "qwen3-4b".to_string(),
        "--model".to_string(),
        "haiku-4-5".to_string(),
    ]
}

fn pair(k: &str, v: &str) -> Vec<(String, String)> {
    vec![(k.to_string(), v.to_string())]
}

fn dirs() -> UserDirs {
    UserDirs {
        home: Some("/home/u".to_string()),
        xdg_config_home: None,
        config_dir: Some("/home/u/.config".to_string()),
    }
}

#[test]
fn launchd_plist_has_program_args_and_keepalive() {
    let p = launchd_plist("/usr/local/bin/rozum", &args(), &pair("ROZUM_MULTISLOT", "1"), "/var/rozum");
    assert!(p.contains("<string>com.rozum.gateway</string>"));
    assert!(p.contains("<string>/usr/local/bin/rozum</string>"));
    assert!(p.contains("<string>gateway</string>"));
    assert!(p.contains("<string>qwen3-4b</string>"));
    assert!(p.contains("<string>haiku-4-5</string>"));
    assert!(p.contains("<key>RunAtLoad</key>\n  <true/>"));
    assert!(p.contains("<key>KeepAlive</key>"));
    assert!(p.contains("<key>ROZUM_MULTISLOT</key>\n    <string>1</string>"));
}

#[test]
fn launchd_plist_xml_escapes_values() {
    let a = vec!["--model".to_string(), "a&b<c".to_string()];
    let p = launchd_plist("/bin/rozum", &a, &vec![], "/var/rozum");
    assert!(p.contains("a&amp;b&lt;c"));
    assert!(!p.contains("a&b<c"));
}

#[test]
fn systemd_unit_has_execstart_and_install() {
    let u = systemd_unit("/usr/local/bin/rozum", &args(), &pair("ROZUM_OFFLINE", "1"));
    assert!(u.contains(
        "ExecStart=/usr/local/bin/rozum gateway --model qwen3-4b --model haiku-4-5"
    ));
    assert!(u.contains("Environment=ROZUM_OFFLINE=1"));
    assert!(u.contains("WantedBy=default.target"));
    assert!(u.contains("Restart=on-failure"));
}

#[test]
fn paths_land_in_the_right_dirs() {
    assert!(launchd_plist_path(&dirs()).ends_with("LaunchAgents/com.rozum.gateway.plist"));
    assert!(systemd_unit_path(&dirs()).ends_with("systemd/user/rozum-gateway.service"));
}

fn meetings_args() -> Vec<String> {
    vec!["meetings".to_string(), "start".to_string(), "--foreground".to_string()]
}

#[test]
fn meetings_launchd_plist_runs_the_daemon_kept_alive() {
    let p = meetings_launchd_plist("/usr/local/bin/rozum", &meetings_args(), &vec![], "/var/state");
    assert!(p.contains("<string>com.rozum.meetings</string>"));
    assert!(p.contains("<string>/usr/local/bin/rozum</string>"));
    assert!(p.contains("<string>meetings</string>"));
    assert!(p.contains("<string>--foreground</string>"));
    assert!(p.contains("<key>RunAtLoad</key>\n  <true/>"));
    assert!(p.contains("<key>KeepAlive</key>"));
    assert!(!p.contains("com.rozum.gateway"));
}

#[test]
fn meetings_systemd_unit_execs_the_daemon() {
    let u = meetings_systemd_unit("/usr/local/bin/rozum", &meetings_args(), &vec![]);
    assert!(u.contains("ExecStart=/usr/local/bin/rozum meetings start --foreground"));
    assert!(u.contains("Description=rozum meeting daemon"));
    assert!(u.contains("WantedBy=default.target"));
    assert!(u.contains("Restart=on-failure"));
}

#[test]
fn windows_launcher_sets_env_then_runs_the_program_appending_to_the_log() {
    let cmd = windows_launcher_cmd(
        r"C:\Users\a\rozum.exe",
        &args(),
        &pair("ROZUM_CASCADE", "fast"),
        r"C:\Users\a\service.log",
    )
    .unwrap_or_else(|_| panic!("no quotes anywhere"));
    assert!(cmd.starts_with("@echo off\r\n"), "cmd files are CRLF: {cmd:?}");
    assert!(cmd.contains("set \"ROZUM_CASCADE=fast\"\r\n"));
    assert!(cmd.contains(r#""C:\Users\a\rozum.exe" "gateway" "--model" "qwen3-4b""#));
    assert!(cmd.contains(r#">> "C:\Users\a\service.log" 2>&1"#));
    assert!(cmd.find("set \"ROZUM_CASCADE").unwrap() < cmd.find("rozum.exe").unwrap());
}

#[test]
fn windows_launcher_doubles_percent_so_it_is_not_expanded() {
    let cmd = windows_launcher_cmd(
        "rozum.exe",
        &vec!["--model".to_string(), "a%PATH%b".to_string()],
        &pair("K", "100%"),
        "log",
    )
    .unwrap_or_else(|_| panic!("no quotes anywhere"));
    assert!(cmd.contains("a%%PATH%%b"), "{cmd}");
    assert!(cmd.contains("set \"K=100%%\""), "{cmd}");
}

#[test]
fn windows_launcher_refuses_a_double_quote_rather_than_mangling_it() {
    let bad = windows_launcher_cmd("rozum.exe", &vec![r#"--model=a"b"#.to_string()], &vec![], "log");
    let err = match bad {
        Ok(_) => panic!("a quote must not be silently re-encoded"),
        Err(e) => e,
    };
    assert_eq!(err.what, "an argument");
    assert!(err.message().contains("cmd.exe cannot carry"));

    let bad_env = windows_launcher_cmd("rozum.exe", &vec![], &pair("ROZUM_WEB_SECRET", r#"a"b"#), "log");
    match bad_env {
        Ok(_) => panic!("env values are not exempt"),
        Err(e) => assert_eq!(e.what, "environment value ROZUM_WEB_SECRET"),
    }
}

#[test]
fn windows_task_runs_the_launcher_at_logon_with_no_execution_time_limit() {
    let xml = windows_task_xml("rozum local LLM gateway", r"C:\Users\a\rozum-gateway.cmd");
    assert!(xml.contains("<LogonTrigger>"));
    assert!(xml.contains(r"<Command>C:\Users\a\rozum-gateway.cmd</Command>"));
    assert!(xml.contains("<Description>rozum local LLM gateway</Description>"));
    assert!(xml.contains("<RestartOnFailure>"));
    assert!(xml.contains("<ExecutionTimeLimit>PT0S</ExecutionTimeLimit>"));
    assert!(xml.contains("<LogonType>InteractiveToken</LogonType>"));
}

#[test]
fn windows_task_xml_escapes_the_description() {
    let xml = windows_task_xml("a&b<c", "x.cmd");
    assert!(xml.contains("a&amp;b&lt;c"));
    assert!(!xml.contains("a&b<c"));
}

#[test]
fn utf16le_bom_is_what_schtasks_reads() {
    let b = utf16le_with_bom("A<");
    assert_eq!(b, vec![0xFF, 0xFE, b'A', 0x00, b'<', 0x00]);
    let xml = windows_task_xml("d", "x.cmd");
    assert!(xml.contains(r#"encoding="UTF-16""#));
}

#[test]
fn the_two_windows_tasks_do_not_share_a_name_or_a_file() {
    assert_ne!(WINDOWS_TASK, MEETINGS_WINDOWS_TASK);
    assert!(WINDOWS_TASK.starts_with(r"\rozum\"));
    assert!(MEETINGS_WINDOWS_TASK.starts_with(r"\rozum\"));
    assert_ne!(windows_task_xml_path(&dirs()), meetings_windows_task_xml_path(&dirs()));
    assert_ne!(windows_launcher_path(&dirs()), meetings_windows_launcher_path(&dirs()));
    let none = UserDirs { home: None, xdg_config_home: None, config_dir: None };
    for d in [dirs(), none] {
        for p in [
            windows_task_xml_path(&d),
            windows_launcher_path(&d),
            meetings_windows_task_xml_path(&d),
            meetings_windows_launcher_path(&d),
        ] {
            let p = std::path::PathBuf::from(p);
            assert!(p.is_absolute() || p.starts_with("."), "{}", p.display());
        }
    }
}

#[test]
fn meetings_paths_land_in_the_right_dirs() {
    assert!(meetings_launchd_plist_path(&dirs()).ends_with("LaunchAgents/com.rozum.meetings.plist"));
    assert!(meetings_systemd_unit_path(&dirs()).ends_with("systemd/user/rozum-meetings.service"));
}

#[test]
fn every_entry_is_distinct_and_named_consistently() {
    let entries: Vec<Service> = all();
    for s in &entries {
        assert!(s.label.starts_with("com.rozum."), "{} is not one of ours", s.label);
        assert_eq!(
            s.row,
            format!("svc:{}", s.label.trim_start_matches("com.rozum.")),
            "row must follow the label"
        );
        assert!(!s.program.is_empty() && !s.what.is_empty(), "{} is under-declared", s.label);
    }
    let mut labels: Vec<&str> = entries.iter().map(|s| s.label).collect();
    labels.sort_unstable();
    let n = labels.len();
    labels.dedup();
    assert_eq!(labels.len(), n, "a duplicate label would make two services one row");
}

#[test]
fn services_are_found_by_label() {
    for s in all() {
        match find(s.label) {
            Some(f) => assert_eq!(f.row, s.row),
            None => panic!("{} is not found", s.label),
        }
    }
    assert!(find("com.rozum.nothing").is_none());
}

#[test]
fn markup_is_escaped() {
    assert_eq!(xml_escape("a<b>&\"c\""), "a&lt;b&gt;&amp;\"c\"");
    // Characters beyond the first plane take two units.
    assert_eq!(utf16le_with_bom("\u{1F600}"), vec![0xFF, 0xFE, 0x3D, 0xD8, 0x00, 0xDE]);
    let units: Vec<u8> = "aé漢\u{1F680}".encode_utf16().flat_map(|u| u.to_le_bytes()).collect();
    assert_eq!(&utf16le_with_bom("aé漢\u{1F680}")[2..], &units[..]);
}

#[test]
fn logs_lie_beside_what_they_log() {
    assert!(windows_log_path("/var/gateway").starts_with("/var/gateway/"));
    assert!(meetings_log_path("/var/state").starts_with("/var/state/"));
    assert!(meetings_windows_log_path("/var/state").starts_with("/var/state/"));
}
