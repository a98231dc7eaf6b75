use bear_anki_sync::menu::{
    card_count_label, concise_auth_error, next_auto_sync_deadline, relative_time_label,
    sync_changes_icon, sync_changes_label, truncate, Icon, MenuBar,
};
use bear_anki_sync::sync::SyncReport;

const SECOND: u64 = 1_000_000_000;

fn report(added: usize, updated: usize, deleted: usize, skipped: usize) -> SyncReport {
    SyncReport {
        added,
        updated,
        deleted,
        skipped,
    }
}

#[test]
fn ages_are_told_in_one_unit() {
    assert_eq!(relative_time_label(None, 0), "never");
    assert_eq!(relative_time_label(Some(10), 5), "just now");
    assert_eq!(relative_time_label(Some(0), 5 * SECOND - 1), "just now");
    assert_eq!(relative_time_label(Some(0), 5 * SECOND), "5s ago");
    assert_eq!(relative_time_label(Some(0), 60 * SECOND), "1m ago");
    assert_eq!(relative_time_label(Some(0), 3599 * SECOND), "59m ago");
    assert_eq!(relative_time_label(Some(0), 7300 * SECOND), "2h ago");
}

#[test]
fn changes_are_told() {
    assert_eq!(sync_changes_label(&report(0, 0, 0, 0)), "no changes");
    assert_eq!(
        sync_changes_label(&report(0, 0, 0, 5)),
        "no changes, 5 unchanged"
    );
    assert_eq!(
        sync_changes_label(&report(1, 0, 2, 3)),
        "1 added | 2 deleted | 3 unchanged"
    );
    assert_eq!(sync_changes_label(&report(0, 4, 0, 0)), "4 updated");
    assert_eq!(
        sync_changes_icon(&report(0, 4, 0, 0)),
        Icon::StatusAvailable
    );
    assert_eq!(sync_changes_icon(&report(0, 0, 0, 9)), Icon::ListView);
    assert_eq!(card_count_label(3), "Tracked cards: 3");
}

#[test]
fn messages_are_cut_off() {
    assert_eq!(truncate("abc", 3), "abc");
    assert_eq!(truncate("äbcd", 3), "äbc...");
    assert_eq!(concise_auth_error("401 Unauthorized"), "not authenticated");
    assert_eq!(
        concise_auth_error(&"x".repeat(49)),
        format!("{}...", "x".repeat(48))
    );
}

#[test]
fn deadlines_lie_ahead() {
    assert_eq!(next_auto_sync_deadline(None, 7), None);
    assert_eq!(next_auto_sync_deadline(Some(0), 7), None);
    assert_eq!(
        next_auto_sync_deadline(Some(2), 7),
        Some(120 * SECOND as u128 + 7)
    );
    assert_eq!(
        next_auto_sync_deadline(Some(u64::MAX), 0),
        Some(u64::MAX as u128 * SECOND as u128)
    );
}

#[test]
fn a_run_needs_a_sign_in() {
    let mut menu = MenuBar::new(2, None, 0);
    assert_eq!(menu.card_count_item.text, "Tracked cards: 2");
    assert!(!menu.start_sync(false, 0));
    assert!(menu.refresh_auth_status());
    menu.on_auth_checked(Some("401 Unauthorized"));
    assert_eq!(menu.auth_status_item.text, "Bear auth: not authenticated");
    assert_eq!(menu.auth_item.text, "Authenticate Bear");
    assert!(!menu.sync_item.enabled);
    assert!(menu.start_authenticate());
    assert!(!menu.refresh_auth_status());
    assert!(!menu.start_authenticate());
    assert!(!menu.auth_item.enabled);
    menu.on_auth_done(None);
    assert_eq!(menu.auth_status_item.text, "Bear auth: connected");
    assert!(menu.sync_item.enabled);
    assert!(menu.start_sync(true, 0));
    assert_eq!(
        menu.sync_status_item.text,
        "Sync: force re-sync in progress"
    );
    assert!(!menu.start_sync(false, 0));
    assert!(!menu.start_authenticate());
}

#[test]
fn a_run_that_succeeds_is_shown() {
    let mut menu = MenuBar::new(0, Some(1), 0);
    menu.on_auth_checked(None);
    assert!(menu.start_sync(false, 5));
    assert_eq!(menu.sync_item.text, "Syncing...");
    assert_eq!(menu.last_sync_item.text, "Last sync: in progress");
    assert_eq!(menu.next_auto_sync_at, Some(60 * SECOND as u128 + 5));
    menu.on_sync_done(&Ok(report(1, 0, 0, 2)), Some(3), 100 * SECOND, 9);
    assert_eq!(menu.sync_item.text, "Sync Now");
    assert_eq!(menu.sync_status_item.text, "Sync: healthy");
    assert_eq!(menu.last_sync_item.text, "Last sync: just now");
    assert_eq!(menu.changes_item.text, "Changes: 1 added | 2 unchanged");
    assert_eq!(menu.card_count_item.text, "Tracked cards: 3");
    assert!(menu.sync_item.enabled);
    assert_eq!(menu.next_auto_sync_at, Some(60 * SECOND as u128 + 9));
    menu.refresh_time_dependent_labels(130 * SECOND);
    assert_eq!(menu.last_sync_item.text, "Last sync: 30s ago");
}

#[test]
fn a_run_that_fails_is_shown() {
    let mut menu = MenuBar::new(4, None, 0);
    menu.on_auth_checked(None);
    assert!(menu.start_sync(false, 0));
    menu.on_sync_done(&Err("Auth token not found".to_owned()), None, 1, 1);
    assert_eq!(menu.sync_status_item.text, "Sync: failed");
    assert_eq!(
        menu.last_sync_item.text,
        "Last sync failed: Auth token not found"
    );
    assert_eq!(menu.changes_item.text, "Changes: unavailable");
    assert_eq!(menu.auth_status_item.text, "Bear auth: expired");
    assert_eq!(menu.card_count_item.text, "Tracked cards: 4");
    assert!(!menu.sync_item.enabled);
    assert!(menu.auth_item.enabled);
    menu.refresh_time_dependent_labels(100 * SECOND);
    assert_eq!(
        menu.last_sync_item.text,
        "Last sync failed: Auth token not found"
    );
}

#[test]
fn a_run_starts_by_itself_at_its_time() {
    let mut menu = MenuBar::new(0, Some(1), 0);
    assert!(!menu.maybe_start_auto_sync(59 * SECOND));
    assert!(!menu.maybe_start_auto_sync(60 * SECOND));
    assert_eq!(menu.next_auto_sync_at, Some(120 * SECOND as u128));
    menu.on_auth_checked(None);
    assert!(menu.maybe_start_auto_sync(120 * SECOND));
    assert!(menu.is_syncing);
    let mut never = MenuBar::new(0, None, 0);
    never.on_auth_checked(None);
    assert!(!never.maybe_start_auto_sync(u64::MAX));
}
