use std::collections::hash_map::DefaultHasher;
use std::hash::{Hash, Hasher};

use dynamic_preauth::build_logs::{
    assemble_build_log, build_logs_reply, chars_of, etag, filter_build_logs, format_entry_line,
    hash_content, should_stop_at_message, strip_ansi_codes, BuildLogEntry, BuildLogs,
    BuildLogsReply,
};

fn entry(message: &str) -> BuildLogEntry {
    BuildLogEntry {
        message: message.to_string(),
        severity: "info".to_string(),
        timestamp: "2024-01-01T00:00:00Z".to_string(),
    }
}

#[test]
fn strips_escape_sequences() {
    assert_eq!(strip_ansi_codes("\u{1b}[1;32mOK\u{1b}[0m done"), "OK done");
    assert_eq!(strip_ansi_codes("\u{1b}[K"), "");
    assert_eq!(strip_ansi_codes("plain"), "plain");
    assert_eq!(strip_ansi_codes("\u{1b}[12"), "\u{1b}[12");
    assert_eq!(strip_ansi_codes("\u{1b}x"), "\u{1b}x");
    assert_eq!(strip_ansi_codes("é\u{1b}[31mé"), "éé");
}

#[test]
fn chars_in_order() {
    assert_eq!(chars_of("aé€"), vec!['a', 'é', '€']);
}

#[test]
fn stop_rules() {
    assert!(should_stop_at_message("Build time: 42 seconds"));
    assert!(should_stop_at_message("build   TIME:\t7"));
    assert!(should_stop_at_message("\u{1b}[1mBuild time:\u{1b}[0m 3"));
    assert!(!should_stop_at_message("Build time: soon"));
    assert!(!should_stop_at_message("Buildtime: 3"));
    assert!(should_stop_at_message("==> Starting Container"));
    assert!(should_stop_at_message("starting\ncontainer"));
    assert!(!should_stop_at_message("StartingContainer"));
    assert!(should_stop_at_message("Build time: \u{663} seconds"));
    assert!(!should_stop_at_message("compiling crate"));
}

#[test]
fn formats_one_line() {
    let line = format_entry_line(&entry("  \u{1b}[33mwarning\u{1b}[0m: unused  \n"));
    assert_eq!(line, "2024-01-01T00:00:00Z info warning: unused");
}

#[test]
fn keeps_lines_up_to_build_time() {
    let entries = vec![
        entry("step one"),
        entry("Build time: 12 seconds"),
        entry("after"),
    ];
    let lines = filter_build_logs(&entries);
    assert_eq!(lines.len(), 2);
    assert!(lines[1].ends_with("Build time: 12 seconds"));
}

#[test]
fn stops_before_container_start() {
    let entries = vec![entry("step one"), entry("Starting Container"), entry("after")];
    let lines = filter_build_logs(&entries);
    assert_eq!(lines, vec!["2024-01-01T00:00:00Z info step one".to_string()]);
    assert!(filter_build_logs(&vec![]).is_empty());
}

#[test]
fn assembles_log_text() {
    let entries = vec![entry("one"), entry("two")];
    let content = assemble_build_log("proj", "svc", "env", "dep", &entries);
    assert_eq!(
        content,
        "Railway Build Logs: https://railway.com/project/proj/service/svc?environmentId=env&id=dep#build\n\n\
         2024-01-01T00:00:00Z info one\n2024-01-01T00:00:00Z info two"
    );
    let empty = assemble_build_log("proj", "svc", "env", "dep", &vec![]);
    assert!(empty.ends_with("#build\n\n"));
}

#[test]
fn hash_matches_str_hash() {
    for text in ["", "hello", "Railway Build Logs: x\n\ny"] {
        let mut hasher = DefaultHasher::new();
        text.hash(&mut hasher);
        assert_eq!(hash_content(text), hasher.finish());
    }
    let logs = BuildLogs::new("abc".to_string(), 5);
    assert_eq!(logs.content_hash, hash_content("abc"));
    assert_eq!(logs.fetched_at, 5);
}

#[test]
fn etag_is_quoted_hex() {
    assert_eq!(etag(0), "\"0\"");
    assert_eq!(etag(0xabc), "\"abc\"");
    assert_eq!(etag(u64::MAX), format!("\"{:x}\"", u64::MAX));
}

#[test]
fn build_log_replies() {
    assert_eq!(build_logs_reply(&None, None, None), BuildLogsReply::Missing);
    // 2024-01-01T00:00:00Z
    let fetched_at = 1_704_067_200_000;
    let logs = Some(BuildLogs::new("log".to_string(), fetched_at));
    let tag = etag(logs.as_ref().unwrap().content_hash);
    assert_eq!(build_logs_reply(&logs, None, None), BuildLogsReply::Fresh);
    assert_eq!(build_logs_reply(&logs, Some(&tag), None), BuildLogsReply::NotModified);
    assert_eq!(build_logs_reply(&logs, Some("\"other\""), None), BuildLogsReply::Fresh);
    assert_eq!(
        build_logs_reply(&logs, None, Some("Mon, 01 Jan 2024 00:00:00 +0000")),
        BuildLogsReply::NotModified
    );
    assert_eq!(
        build_logs_reply(&logs, None, Some("Sun, 31 Dec 2023 23:59:59 +0000")),
        BuildLogsReply::Fresh
    );
    assert_eq!(build_logs_reply(&logs, None, Some("yesterday")), BuildLogsReply::Fresh);
}
