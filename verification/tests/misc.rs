use superclip::commands::{clipboard_write_for, image_payload, ClipboardWrite};
use superclip::paste::{paste_target, FocusAttempts, FocusVerdict, MAX_FOCUS_ATTEMPTS};
use superclip::store::{Store, UpdateChannel};
use superclip::updater::{advance_progress, endpoint_override, update_info, BETA_ENDPOINT};
use superclip::window::{
    centered_position, focus_action, menu_command, registers_autostart, FocusAction, MenuCommand,
    FOCUS_ATTEMPTS,
};

#[test]
fn the_paste_target_is_the_trimmed_window_id() {
    assert_eq!(paste_target(Some("  81788929\n")).as_deref(), Some("81788929"));
    assert_eq!(paste_target(Some("   ")), None);
    assert_eq!(paste_target(Some("")), None);
    assert_eq!(paste_target(None), None);
}

#[test]
fn focus_is_retried_once_then_the_paste_goes_anyway() {
    assert_eq!(MAX_FOCUS_ATTEMPTS, 2);
    let mut attempts = FocusAttempts::new();
    assert_eq!(attempts.record(false), FocusVerdict::Retry);
    assert_eq!(attempts.record(false), FocusVerdict::GiveUp);
    assert_eq!(attempts.made, 2);

    let mut lucky = FocusAttempts::new();
    assert_eq!(lucky.record(true), FocusVerdict::Landed);
    assert_eq!(lucky.made, 1);

    let mut second = FocusAttempts::new();
    assert_eq!(second.record(false), FocusVerdict::Retry);
    assert_eq!(second.record(true), FocusVerdict::Landed);
}

#[test]
fn the_window_is_centered_in_the_work_area() {
    assert_eq!(centered_position(0, 0, 1920, 1080, 750, 500), (585, 290));
    assert_eq!(centered_position(0, 0, 1921, 1081, 750, 500), (585, 290));
    assert_eq!(centered_position(0, 0, 100, 100, 200, 50), (0, 25));
    assert_eq!(centered_position(0, 0, 0, 0, 0, 0), (0, 0));
    assert_eq!(centered_position(1920, 0, 2560, 1440, 750, 500), (1920 + 905, 470));
    assert_eq!(centered_position(-1280, 32, 1280, 1024, 750, 500), (-1280 + 265, 32 + 262));
    assert_eq!(centered_position(0, 0, i32::MAX as u32, 10, 1, 10), (i32::MAX / 2, 0));
}

#[test]
fn focus_checks_stop_once_focused() {
    assert_eq!(FOCUS_ATTEMPTS, 8);
    assert_eq!(focus_action(true, true), FocusAction::Focused);
    assert_eq!(focus_action(true, false), FocusAction::Focused);
    assert_eq!(focus_action(false, true), FocusAction::Refocus);
    assert_eq!(focus_action(false, false), FocusAction::Wait);
}

#[test]
fn tray_entries_map_to_commands() {
    assert_eq!(menu_command("open"), MenuCommand::Open);
    assert_eq!(menu_command("check_update"), MenuCommand::CheckForUpdates);
    assert_eq!(menu_command("quit"), MenuCommand::Quit);
    assert_eq!(menu_command("Quit"), MenuCommand::Ignore);
    assert_eq!(menu_command(""), MenuCommand::Ignore);
}

#[test]
fn autostart_is_registered_unless_launched_by_it() {
    assert!(registers_autostart(&vec!["superclip".to_string()]));
    assert!(!registers_autostart(&vec![
        "superclip".to_string(),
        "--from-autostart".to_string()
    ]));
    assert!(registers_autostart(&vec!["--from-autostart=1".to_string()]));
    assert!(registers_autostart(&vec![]));
}

#[test]
fn the_beta_channel_reads_the_beta_manifest() {
    assert_eq!(endpoint_override(UpdateChannel::Beta), Some(BETA_ENDPOINT));
    assert_eq!(
        BETA_ENDPOINT,
        "https://github.com/anyscapelabs/superclip/releases/download/beta/latest.json"
    );
    assert_eq!(endpoint_override(UpdateChannel::Stable), None);
}

#[test]
fn update_reports_and_progress() {
    let info = update_info("0.2.0".to_string(), "0.1.2".to_string(), Some("notes".to_string()));
    assert_eq!(info.version, "0.2.0");
    assert_eq!(info.current_version, "0.1.2");
    assert_eq!(info.notes.as_deref(), Some("notes"));

    let p = advance_progress(10, 5, Some(100));
    assert_eq!(p.downloaded, 15);
    assert_eq!(p.total, Some(100));
    let q = advance_progress(p.downloaded, 0, None);
    assert_eq!(q.downloaded, 15);
    assert_eq!(q.total, None);
}

#[test]
fn image_previews_are_base64() {
    assert_eq!(image_payload(Some(b"hello".to_vec())), Ok("aGVsbG8=".to_string()));
    assert_eq!(image_payload(Some(Vec::new())), Ok(String::new()));
    assert_eq!(image_payload(Some(vec![0xff, 0xfe])), Ok("//4=".to_string()));
    assert_eq!(image_payload(None), Err("image not found".to_string()));
}

#[test]
fn pasting_writes_the_image_or_the_text() {
    let mut store = Store::new("/tmp/superclip-test/history.json".to_string(), None);
    let text_id = store.add_text("hi", "text");
    store.add_image_at("abc", 1, 1, "shot.png".to_string(), 5, 6);
    match clipboard_write_for(&store, &text_id) {
        Ok(ClipboardWrite::Text { text }) => assert_eq!(text, "hi"),
        other => panic!("expected text, got {other:?}"),
    }
    match clipboard_write_for(&store, "abc") {
        Ok(ClipboardWrite::Image { path }) => assert_eq!(path, "images/abc.png"),
        other => panic!("expected an image, got {other:?}"),
    }
    assert!(matches!(
        clipboard_write_for(&store, "missing"),
        Err(e) if e == "item not found"
    ));
}
