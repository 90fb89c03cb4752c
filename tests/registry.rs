use dynamic_preauth::build_logs::BuildLogs;
use dynamic_preauth::error::AppError;
use dynamic_preauth::messages::{IncomingMessage, OutgoingMessage};
use dynamic_preauth::state::State;

fn template_bytes() -> Vec<u8> {
    let mut data = b"\x7fELF".to_vec();
    data.extend(std::iter::repeat(b'a').take(1024));
    data.extend_from_slice(b"end");
    data
}

fn registry() -> State {
    let mut state = State::new();
    state.add_executable("Linux", "./demo-linux", template_bytes()).unwrap();
    state.add_executable("Windows", "./demo.exe", template_bytes()).unwrap();
    state
}

#[test]
fn catalog_lists_templates_in_order() {
    let state = registry();
    let catalog = state.executable_json();
    assert_eq!(catalog.len(), 2);
    assert_eq!(catalog[0].id, "Linux");
    assert_eq!(catalog[0].filename, "demo-linux");
    assert_eq!(catalog[0].size, 1031);
    assert_eq!(catalog[1].id, "Windows");
    assert_eq!(catalog[1].filename, "demo.exe");
}

#[test]
fn adding_a_template_twice_replaces_it() {
    let mut state = registry();
    let mut bigger = template_bytes();
    bigger.extend_from_slice(b"more");
    state.add_executable("Linux", "./demo-linux", bigger).unwrap();
    let catalog = state.executable_json();
    assert_eq!(catalog.len(), 2);
    assert_eq!(catalog[0].size, 1035);
}

#[test]
fn adding_a_template_without_placeholder_fails() {
    let mut state = State::new();
    let r = state.add_executable("Linux", "./demo-linux", b"plain".to_vec());
    assert_eq!(r, Err(AppError::KeyPatternNotFound { name: "demo-linux".to_string() }));
    assert!(state.executable_json().is_empty());
    let r = state.add_executable("Root", "/", template_bytes());
    assert!(matches!(r, Err(AppError::ExecutableNotFound { .. })));
}

#[test]
fn two_downloads_in_issuance_order() {
    let mut state = registry();
    let id = state.new_session();
    let first = state.issue_download(id, "Windows").unwrap();
    let second = state.issue_download(id, "Windows").unwrap();
    assert_ne!(first.download.token, second.download.token);
    let session = state.session_snapshot(id).unwrap();
    assert_eq!(session.downloads.len(), 2);
    assert_eq!(session.downloads[0].token, first.download.token);
    assert_eq!(session.downloads[1].token, second.download.token);
    assert!(first.update.is_none());
}

#[test]
fn download_is_stamped_and_named() {
    let mut state = registry();
    let id = state.new_session();
    let issued = state.issue_download(id, "Windows").unwrap();
    let token = issued.download.token;
    assert_eq!(issued.download.filename, format!("demo-{:08x}.exe", token));
    let text = token.to_string();
    assert_eq!(&issued.data[..4], b"\x7fELF");
    assert_eq!(&issued.data[4..4 + text.len()], text.as_bytes());
    assert!(issued.data[4 + text.len()..1028].iter().all(|b| *b == b' '));
    assert_eq!(&issued.data[1028..], b"end");
    let linux = state.issue_download(id, "Linux").unwrap();
    assert_eq!(linux.download.filename, format!("demo-linux-{:08x}", linux.download.token));
}

#[test]
fn download_errors() {
    let mut state = registry();
    let id = state.new_session();
    assert_eq!(
        state.issue_download(id.wrapping_add(1), "Windows").err(),
        Some(AppError::SessionNotFound { id: id.wrapping_add(1) })
    );
    let err = state.issue_download(id, "MacOS").err().unwrap();
    assert_eq!(err, AppError::ArtifactNotFound { artifact: "MacOS".to_string() });
    assert_eq!(err.status_code(), 404);
}

#[test]
fn download_with_live_connection_pushes_state() {
    let mut state = registry();
    let id = state.new_session();
    let (channel, _) = state.attach(id).unwrap();
    let issued = state.issue_download(id, "Linux").unwrap();
    let update = issued.update.unwrap();
    assert_eq!(update.channel, channel);
    match update.message {
        OutgoingMessage::State { session } => assert_eq!(session.downloads.len(), 1),
        other => panic!("unexpected message {:?}", other),
    }
}

#[test]
fn attach_sends_state_then_catalog() {
    let mut state = registry();
    let id = state.new_session();
    let (channel, deliveries) = state.attach(id).unwrap();
    assert_eq!(deliveries.len(), 2);
    assert!(deliveries.iter().all(|d| d.channel == channel));
    assert!(matches!(deliveries[0].message, OutgoingMessage::State { .. }));
    match &deliveries[1].message {
        OutgoingMessage::Executables { build_log, executables } => {
            assert!(build_log.is_none());
            assert_eq!(executables.len(), 2);
        }
        other => panic!("unexpected message {:?}", other),
    }
    assert_eq!(state.attach(id.wrapping_add(1)).err(), Some(AppError::SessionNotFound { id: id.wrapping_add(1) }));
}

#[test]
fn catalog_links_build_log_when_fetched() {
    let mut state = registry();
    state.build_logs = Some(BuildLogs::new("log".to_string(), 0));
    let id = state.new_session();
    let (_, deliveries) = state.attach(id).unwrap();
    match &deliveries[1].message {
        OutgoingMessage::Executables { build_log, .. } => {
            assert_eq!(build_log.as_deref(), Some("/build-logs"));
        }
        other => panic!("unexpected message {:?}", other),
    }
}

#[test]
fn alert_goes_to_oldest_holder() {
    let mut state = registry();
    let old = state.new_session();
    let young = state.new_session();
    let issued = state.issue_download(old, "Linux").unwrap();
    let token = issued.download.token;
    // the younger session holds the same token too
    let (young_channel, _) = state.attach(young).unwrap();
    let copy = state.session_snapshot(old).unwrap().downloads[0].snapshot();
    let mut young_session = state.session_snapshot(young).unwrap();
    young_session.downloads.push(copy);
    state.sessions.insert(young, young_session);
    assert_eq!(state.find_session_by_token(token), Some(old));
    assert_eq!(
        state.notify(&format!("0x{:x}", token)).err(),
        Some(AppError::ChannelUnavailable { session: old })
    );
    let (old_channel, _) = state.attach(old).unwrap();
    assert_ne!(old_channel, young_channel);
    assert_eq!(state.notify(&format!("0x{:x}", token)).unwrap().channel, old_channel);
}

#[test]
fn second_connection_takes_over() {
    let mut state = registry();
    let id = state.new_session();
    let issued = state.issue_download(id, "Linux").unwrap();
    let (a, _) = state.attach(id).unwrap();
    let (b, _) = state.attach(id).unwrap();
    assert_ne!(a, b);
    let key = format!("0x{:08X}", issued.download.token);
    let alert = state.notify(&key).unwrap();
    assert_eq!(alert.channel, b);
}

#[test]
fn channels_run_out() {
    let mut state = registry();
    let id = state.new_session();
    state.next_channel = u64::MAX;
    assert_eq!(state.attach(id).err(), Some(AppError::ChannelsExhausted));
}

#[test]
fn find_session_by_token() {
    let mut state = registry();
    let a = state.new_session();
    let b = state.new_session();
    let issued = state.issue_download(b, "Linux").unwrap();
    assert_ne!(a, b);
    assert_eq!(state.find_session_by_token(issued.download.token), Some(b));
    assert_eq!(state.find_session_by_token(issued.download.token.wrapping_add(1)), None);
}

#[test]
fn notify_delivers_one_alert() {
    let mut state = registry();
    let id = state.new_session();
    let issued = state.issue_download(id, "Windows").unwrap();
    let (channel, _) = state.attach(id).unwrap();
    let key = format!("0x{:x}", issued.download.token);
    let alert = state.notify(&key).unwrap();
    assert_eq!(alert.channel, channel);
    match alert.message {
        OutgoingMessage::TokenAlert { token } => assert_eq!(token, issued.download.token),
        other => panic!("unexpected message {:?}", other),
    }
}

#[test]
fn notify_unknown_token_is_unauthorized() {
    let mut state = registry();
    let id = state.new_session();
    let issued = state.issue_download(id, "Windows").unwrap();
    let other = issued.download.token.wrapping_add(1);
    let err = state.notify(&format!("0x{:08x}", other)).unwrap_err();
    assert_eq!(err, AppError::TokenNotFound { token: other });
    assert_eq!(err.status_code(), 401);
}

#[test]
fn notify_malformed_key_is_bad_request() {
    let state = registry();
    for key in ["1234", "0x", "0xnothex", "0x123456789", "0x0x1F", "0x+1F", "0X1F"] {
        let err = state.notify(key).unwrap_err();
        assert_eq!(err, AppError::MalformedCorrelationKey);
        assert_eq!(err.status_code(), 400);
    }
}

#[test]
fn notify_without_connection_is_not_modified() {
    let mut state = registry();
    let id = state.new_session();
    let issued = state.issue_download(id, "Windows").unwrap();
    let err = state.notify(&format!("0x{:08x}", issued.download.token)).unwrap_err();
    assert_eq!(err, AppError::ChannelUnavailable { session: id });
    assert_eq!(err.status_code(), 304);
}

#[test]
fn delete_absent_token_changes_nothing() {
    let mut state = registry();
    let id = state.new_session();
    let issued = state.issue_download(id, "Windows").unwrap();
    state.attach(id).unwrap();
    let absent = issued.download.token.wrapping_add(1);
    let out = state
        .handle_incoming(id, IncomingMessage::DeleteDownloadToken { id: absent })
        .unwrap();
    assert!(out.is_empty());
    assert_eq!(state.session_snapshot(id).unwrap().downloads.len(), 1);
}

#[test]
fn delete_present_token_pushes_one_snapshot() {
    let mut state = registry();
    let id = state.new_session();
    let first = state.issue_download(id, "Windows").unwrap();
    let second = state.issue_download(id, "Linux").unwrap();
    let (channel, _) = state.attach(id).unwrap();
    let out = state
        .handle_incoming(id, IncomingMessage::DeleteDownloadToken { id: first.download.token })
        .unwrap();
    assert_eq!(out.len(), 1);
    assert_eq!(out[0].channel, channel);
    match &out[0].message {
        OutgoingMessage::State { session } => {
            assert_eq!(session.downloads.len(), 1);
            assert_eq!(session.downloads[0].token, second.download.token);
        }
        other => panic!("unexpected message {:?}", other),
    }
    let session = state.session_snapshot(id).unwrap();
    assert_eq!(session.downloads.len(), 1);
    assert_eq!(session.downloads[0].token, second.download.token);
}

#[test]
fn delete_for_unknown_session_fails() {
    let mut state = registry();
    let id = state.new_session();
    let other = id.wrapping_add(1);
    assert_eq!(
        state.handle_incoming(other, IncomingMessage::DeleteDownloadToken { id: 1 }).err(),
        Some(AppError::SessionNotFound { id: other })
    );
}

#[test]
fn session_delete_download_directly() {
    let mut state = registry();
    let id = state.new_session();
    let issued = state.issue_download(id, "Linux").unwrap();
    let mut session = state.session_snapshot(id).unwrap();
    assert!(!session.delete_download(issued.download.token.wrapping_add(1)));
    assert!(session.delete_download(issued.download.token));
    assert!(session.downloads.is_empty());
    assert!(session.send_state().is_err());
}

#[test]
fn resolve_session_from_cookie() {
    let mut state = registry();
    let (id, created) = state.resolve_session(None);
    assert!(created);
    let cookie = id.to_string();
    let (again, created) = state.resolve_session(Some(&cookie));
    assert_eq!(again, id);
    assert!(!created);
    let (fresh, created) = state.resolve_session(Some("not a number"));
    assert!(created);
    assert_ne!(fresh, id);
}

#[test]
fn touch_updates_timestamps() {
    let mut state = registry();
    let id = state.new_session();
    let before = state.session_snapshot(id).unwrap();
    state.touch(id, true).unwrap();
    let after = state.session_snapshot(id).unwrap();
    assert_eq!(after.last_request, before.last_request);
    assert!(after.last_seen >= before.last_seen);
    state.touch(id, false).unwrap();
    let after = state.session_snapshot(id).unwrap();
    assert_eq!(after.last_request, after.last_seen);
    assert_eq!(state.touch(id.wrapping_add(1), false), Err(AppError::SessionNotFound { id: id.wrapping_add(1) }));
}

#[test]
fn seen_at_sets_timestamps() {
    let mut state = registry();
    let id = state.new_session_at(100);
    let mut session = state.session_snapshot(id).unwrap();
    assert_eq!((session.first_seen, session.last_seen, session.last_request), (100, 100, 100));
    session.seen_at(200, true);
    assert_eq!((session.last_seen, session.last_request), (200, 100));
    session.seen_at(300, false);
    assert_eq!((session.last_seen, session.last_request), (300, 300));
    assert_eq!(session.first_seen, 100);
}

#[test]
fn touch_at_socket_updates_last_seen_only() {
    let mut state = registry();
    let id = state.new_session_at(10);
    state.touch_at(id, true, 20).unwrap();
    let s = state.session_snapshot(id).unwrap();
    assert_eq!((s.last_seen, s.last_request), (20, 10));
    state.touch_at(id, false, 30).unwrap();
    let s = state.session_snapshot(id).unwrap();
    assert_eq!((s.last_seen, s.last_request), (30, 30));
    assert_eq!(
        state.touch_at(id.wrapping_add(1), true, 40),
        Err(AppError::SessionNotFound { id: id.wrapping_add(1) })
    );
}

#[test]
fn resolve_session_at_refreshes_or_creates() {
    let mut state = registry();
    let (id, created) = state.resolve_session_at(None, 5);
    assert!(created);
    assert_eq!(state.session_snapshot(id).unwrap().first_seen, 5);
    let cookie = id.to_string();
    let (again, created) = state.resolve_session_at(Some(&cookie), 9);
    assert_eq!((again, created), (id, false));
    let s = state.session_snapshot(id).unwrap();
    assert_eq!((s.first_seen, s.last_seen, s.last_request), (5, 9, 9));
}
