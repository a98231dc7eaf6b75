//! The menu of the menu bar application: what its items show, and when it starts what.

use vstd::prelude::*;

use crate::auth_error;
use crate::chars;
use crate::sync::SyncReport;
use crate::text;

verus! {

// ── Labels ───────────────────────────────────────────────────────────────────

/// How many cards are tracked.
pub open spec fn card_count_text(n: nat) -> Seq<char> {
    "Tracked cards: "@ + text::decimal(n)
}

/// How many cards are tracked.
pub fn card_count_label(n: usize) -> (label: String)
    ensures
        label@ == card_count_text(n as nat),
{
    let mut label = "Tracked cards: ".to_owned();
    label.append(chars::decimal(n as u64).as_str());
    label
}

/// How long ago something was, by the nanoseconds of then and now.
pub open spec fn relative_time_text(at: Option<u64>, now: u64) -> Seq<char> {
    match at {
        None => "never"@,
        Some(then) => {
            let seconds = ((now - then) / 1_000_000_000) as nat;
            if now < then || seconds < 5 {
                "just now"@
            } else if seconds < 60 {
                text::decimal(seconds) + "s ago"@
            } else if seconds < 3600 {
                text::decimal(seconds / 60) + "m ago"@
            } else {
                text::decimal(seconds / 3600) + "h ago"@
            }
        },
    }
}

/// Tells how long ago something was.
pub fn relative_time_label(at: Option<u64>, now: u64) -> (label: String)
    ensures
        label@ == relative_time_text(at, now),
{
    match at {
        None => "never".to_owned(),
        Some(then) => {
            if now < then {
                return "just now".to_owned();
            }
            let seconds: u64 = (now - then) / 1_000_000_000;
            if seconds < 5 {
                return "just now".to_owned();
            }
            if seconds < 60 {
                let mut label = chars::decimal(seconds);
                label.append("s ago");
                label
            } else if seconds < 3600 {
                let mut label = chars::decimal(seconds / 60);
                label.append("m ago");
                label
            } else {
                let mut label = chars::decimal(seconds / 3600);
                label.append("h ago");
                label
            }
        },
    }
}

/// A count and what it counts, where there is anything to count.
pub open spec fn counted(n: usize, what: Seq<char>) -> Seq<Seq<char>> {
    if n > 0 {
        seq![text::decimal(n as nat) + what]
    } else {
        Seq::empty()
    }
}

/// What a run has changed.
pub open spec fn changes_text(report: SyncReport) -> Seq<char> {
    let changes = counted(report.added, " added"@) + counted(report.updated, " updated"@)
        + counted(report.deleted, " deleted"@);
    if changes.len() > 0 {
        text::join(changes + counted(report.skipped, " unchanged"@), " | "@)
    } else if report.skipped > 0 {
        "no changes, "@ + text::decimal(report.skipped as nat) + " unchanged"@
    } else {
        "no changes"@
    }
}

/// Adds a count to a list, where there is anything to count.
fn add_count(parts: &mut Vec<String>, n: usize, what: &str)
    ensures
        text::texts(final(parts)@) == text::texts(old(parts)@) + counted(n, what@),
{
    if n > 0 {
        let mut part = chars::decimal(n as u64);
        part.append(what);
        let ghost part_text = part@;
        parts.push(part);
        assert(text::texts(parts@) =~= text::texts(old(parts)@) + seq![part_text]);
    } else {
        assert(text::texts(parts@) =~= text::texts(old(parts)@) + counted(n, what@));
    }
}

/// Tells what a run has changed.
pub fn sync_changes_label(report: &SyncReport) -> (label: String)
    ensures
        label@ == changes_text(*report),
{
    let mut parts: Vec<String> = Vec::new();
    assert(text::texts(parts@) =~= Seq::<Seq<char>>::empty());
    add_count(&mut parts, report.added, " added");
    add_count(&mut parts, report.updated, " updated");
    add_count(&mut parts, report.deleted, " deleted");
    assert(text::texts(parts@) =~= counted(report.added, " added"@) + counted(
        report.updated,
        " updated"@,
    ) + counted(report.deleted, " deleted"@));
    assert(parts@.len() == text::texts(parts@).len());
    if parts.len() == 0 {
        if report.skipped > 0 {
            let mut label = "no changes, ".to_owned();
            label.append(chars::decimal(report.skipped as u64).as_str());
            label.append(" unchanged");
            return label;
        }
        return "no changes".to_owned();
    }
    add_count(&mut parts, report.skipped, " unchanged");
    chars::join(parts.as_slice(), " | ")
}

/// The icons of the menu.
#[derive(Debug, Clone, Copy, PartialEq, Eq, Structural)]
pub enum Icon {
    Refresh,
    RefreshFreestanding,
    User,
    StatusNone,
    StatusPartiallyAvailable,
    StatusAvailable,
    StatusUnavailable,
    ListView,
    MultipleDocuments,
    Remove,
    Caution,
}

/// The icon of what a run has changed.
pub open spec fn changes_icon(report: SyncReport) -> Icon {
    if report.added > 0 || report.updated > 0 || report.deleted > 0 {
        Icon::StatusAvailable
    } else {
        Icon::ListView
    }
}

/// The icon of what a run has changed.
pub fn sync_changes_icon(report: &SyncReport) -> (icon: Icon)
    ensures
        icon == changes_icon(*report),
{
    if report.added > 0 || report.updated > 0 || report.deleted > 0 {
        Icon::StatusAvailable
    } else {
        Icon::ListView
    }
}

/// The first characters of a text, with three dots where it goes on.
pub open spec fn truncated(input: Seq<char>, max_chars: nat) -> Seq<char> {
    if input.len() > max_chars {
        input.take(max_chars as int) + "..."@
    } else {
        input
    }
}

/// Cuts a text off behind some characters.
pub fn truncate(input: &str, max_chars: usize) -> (out: String)
    ensures
        out@ == truncated(input@, max_chars as nat),
{
    let input_chars = chars::to_chars(input);
    if input_chars.len() > max_chars {
        let mut out = chars::from_chars(chars::head(input_chars.as_slice(), max_chars));
        out.append("...");
        out
    } else {
        input.to_owned()
    }
}

/// A failed sign-in in few words.
pub open spec fn concise_error(message: Seq<char>) -> Seq<char> {
    if auth_error::asks_for_sign_in(message) {
        "not authenticated"@
    } else {
        truncated(message, 48)
    }
}

/// Tells of a failed sign-in in few words.
pub fn concise_auth_error(message: &str) -> (out: String)
    ensures
        out@ == concise_error(message@),
{
    if auth_error::is_auth_error_message(message) {
        "not authenticated".to_owned()
    } else {
        truncate(message, 48)
    }
}

// ── Timing ───────────────────────────────────────────────────────────────────

/// When the next run starts by itself, in nanoseconds: some minutes from now. Without minutes, or
/// with none, it does not.
pub open spec fn deadline_after(minutes: Option<u64>, now: u64) -> Option<u128> {
    match minutes {
        None => None,
        Some(m) => if m == 0 {
            None
        } else {
            let seconds = if m * 60 > u64::MAX {
                u64::MAX as int
            } else {
                m * 60
            };
            Some((now + seconds * 1_000_000_000) as u128)
        },
    }
}

/// When the next run starts by itself.
pub fn next_auto_sync_deadline(minutes: Option<u64>, now: u64) -> (deadline: Option<u128>)
    ensures
        deadline == deadline_after(minutes, now),
{
    match minutes {
        None => None,
        Some(m) => {
            if m == 0 {
                None
            } else {
                let seconds: u64 = if m > u64::MAX / 60 {
                    u64::MAX
                } else {
                    m * 60
                };
                Some(now as u128 + (seconds as u128) * 1_000_000_000u128)
            }
        },
    }
}

// ── The menu ─────────────────────────────────────────────────────────────────

/// An item of the menu.
#[derive(Debug)]
pub struct Item {
    pub text: String,
    pub enabled: bool,
    pub icon: Icon,
}

/// What an `Item` shows.
pub struct ItemModel {
    pub text: Seq<char>,
    pub enabled: bool,
    pub icon: Icon,
}

impl View for Item {
    type V = ItemModel;

    open spec fn view(&self) -> ItemModel {
        ItemModel { text: self.text@, enabled: self.enabled, icon: self.icon }
    }
}

/// An item of the menu.
fn item(text: &str, enabled: bool, icon: Icon) -> (item: Item)
    ensures
        item@ == (ItemModel { text: text@, enabled, icon }),
{
    Item { text: text.to_owned(), enabled, icon }
}

/// The menu, and what goes on behind it.
#[derive(Debug)]
pub struct MenuBar {
    pub sync_item: Item,
    pub force_item: Item,
    pub auth_item: Item,
    pub sync_status_item: Item,
    pub auth_status_item: Item,
    pub last_sync_item: Item,
    pub changes_item: Item,
    pub card_count_item: Item,
    pub quit_item: Item,
    pub sync_interval_minutes: Option<u64>,
    pub is_syncing: bool,
    pub is_authenticating: bool,
    pub is_authenticated: bool,
    pub card_count: usize,
    /// When the last run ended, in nanoseconds of the clock.
    pub last_sync_at: Option<u64>,
    pub last_sync_failed_message: Option<String>,
    /// When the next run starts by itself, in nanoseconds since the start.
    pub next_auto_sync_at: Option<u128>,
}

/// What a `MenuBar` says.
pub struct MenuModel {
    pub sync_item: ItemModel,
    pub force_item: ItemModel,
    pub auth_item: ItemModel,
    pub sync_status_item: ItemModel,
    pub auth_status_item: ItemModel,
    pub last_sync_item: ItemModel,
    pub changes_item: ItemModel,
    pub card_count_item: ItemModel,
    pub quit_item: ItemModel,
    pub sync_interval_minutes: Option<u64>,
    pub is_syncing: bool,
    pub is_authenticating: bool,
    pub is_authenticated: bool,
    pub card_count: usize,
    pub last_sync_at: Option<u64>,
    pub last_sync_failed_message: Option<Seq<char>>,
    pub next_auto_sync_at: Option<u128>,
}

impl View for MenuBar {
    type V = MenuModel;

    open spec fn view(&self) -> MenuModel {
        MenuModel {
            sync_item: self.sync_item@,
            force_item: self.force_item@,
            auth_item: self.auth_item@,
            sync_status_item: self.sync_status_item@,
            auth_status_item: self.auth_status_item@,
            last_sync_item: self.last_sync_item@,
            changes_item: self.changes_item@,
            card_count_item: self.card_count_item@,
            quit_item: self.quit_item@,
            sync_interval_minutes: self.sync_interval_minutes,
            is_syncing: self.is_syncing,
            is_authenticating: self.is_authenticating,
            is_authenticated: self.is_authenticated,
            card_count: self.card_count,
            last_sync_at: self.last_sync_at,
            last_sync_failed_message: text::opt_text(self.last_sync_failed_message),
            next_auto_sync_at: self.next_auto_sync_at,
        }
    }
}

/// The menu at the start.
pub open spec fn first_menu(card_count: usize, minutes: Option<u64>, now: u64) -> MenuModel {
    MenuModel {
        sync_item: ItemModel { text: "Sync Now"@, enabled: true, icon: Icon::Refresh },
        force_item: ItemModel {
            text: "Force Re-sync"@,
            enabled: true,
            icon: Icon::RefreshFreestanding,
        },
        auth_item: ItemModel {
            text: "Check Bear Authentication"@,
            enabled: true,
            icon: Icon::User,
        },
        sync_status_item: ItemModel {
            text: "Sync: idle"@,
            enabled: false,
            icon: Icon::StatusNone,
        },
        auth_status_item: ItemModel {
            text: "Bear auth: checking..."@,
            enabled: false,
            icon: Icon::StatusPartiallyAvailable,
        },
        last_sync_item: ItemModel {
            text: "Last sync: never"@,
            enabled: false,
            icon: Icon::StatusNone,
        },
        changes_item: ItemModel {
            text: "Changes: not synced yet"@,
            enabled: false,
            icon: Icon::ListView,
        },
        card_count_item: ItemModel {
            text: card_count_text(card_count as nat),
            enabled: false,
            icon: Icon::MultipleDocuments,
        },
        quit_item: ItemModel { text: "Quit Bear-Anki"@, enabled: true, icon: Icon::Remove },
        sync_interval_minutes: minutes,
        is_syncing: false,
        is_authenticating: false,
        is_authenticated: false,
        card_count,
        last_sync_at: None,
        last_sync_failed_message: None,
        next_auto_sync_at: deadline_after(minutes, now),
    }
}

/// A run can start: the user is signed in, and nothing is going on.
pub open spec fn can_sync(menu: MenuModel) -> bool {
    menu.is_authenticated && !menu.is_syncing && !menu.is_authenticating
}

/// The actions are enabled that can be started.
pub open spec fn with_actions(menu: MenuModel) -> MenuModel {
    MenuModel {
        sync_item: ItemModel { enabled: can_sync(menu), ..menu.sync_item },
        force_item: ItemModel { enabled: can_sync(menu), ..menu.force_item },
        auth_item: ItemModel {
            enabled: !menu.is_syncing && !menu.is_authenticating,
            ..menu.auth_item
        },
        ..menu
    }
}

/// The age of the last run is told, unless one is going on or the last one failed.
pub open spec fn with_age(menu: MenuModel, clock: u64) -> MenuModel {
    if menu.is_syncing || menu.last_sync_failed_message is Some || menu.last_sync_at is None {
        menu
    } else {
        MenuModel {
            last_sync_item: ItemModel {
                text: "Last sync: "@ + relative_time_text(menu.last_sync_at, clock),
                ..menu.last_sync_item
            },
            ..menu
        }
    }
}

/// The sign-in is being checked.
pub open spec fn checking_auth(menu: MenuModel) -> MenuModel {
    MenuModel {
        auth_status_item: ItemModel {
            text: "Bear auth: checking..."@,
            icon: Icon::StatusPartiallyAvailable,
            ..menu.auth_status_item
        },
        auth_item: ItemModel {
            text: "Check Bear Authentication"@,
            enabled: false,
            ..menu.auth_item
        },
        ..menu
    }
}

/// The user is signing in.
pub open spec fn authenticating(menu: MenuModel) -> MenuModel {
    MenuModel {
        is_authenticating: true,
        auth_item: ItemModel { text: "Authenticating..."@, enabled: false, ..menu.auth_item },
        auth_status_item: ItemModel {
            text: "Bear auth: sign-in in progress"@,
            icon: Icon::RefreshFreestanding,
            ..menu.auth_status_item
        },
        sync_item: ItemModel { enabled: false, ..menu.sync_item },
        force_item: ItemModel { enabled: false, ..menu.force_item },
        ..menu
    }
}

/// The user is signed in, or not: then the icon says so.
pub open spec fn with_auth(
    menu: MenuModel,
    error: Option<Seq<char>>,
    failure_icon: Icon,
) -> MenuModel {
    with_actions(
        match error {
            None => MenuModel {
                is_authenticated: true,
                auth_status_item: ItemModel {
                    text: "Bear auth: connected"@,
                    icon: Icon::StatusAvailable,
                    ..menu.auth_status_item
                },
                auth_item: ItemModel { text: "Re-authenticate Bear"@, ..menu.auth_item },
                ..menu
            },
            Some(message) => MenuModel {
                is_authenticated: false,
                auth_status_item: ItemModel {
                    text: "Bear auth: "@ + concise_error(message),
                    icon: failure_icon,
                    ..menu.auth_status_item
                },
                auth_item: ItemModel { text: "Authenticate Bear"@, ..menu.auth_item },
                ..menu
            },
        },
    )
}

/// A run is going on. One that is not forced moves the next one that starts by itself.
pub open spec fn syncing(menu: MenuModel, force: bool, now: u64) -> MenuModel {
    with_actions(
        MenuModel {
            is_syncing: true,
            sync_item: ItemModel { text: "Syncing..."@, ..menu.sync_item },
            sync_status_item: ItemModel {
                text: if force {
                    "Sync: force re-sync in progress"@
                } else {
                    "Sync: in progress"@
                },
                icon: Icon::RefreshFreestanding,
                ..menu.sync_status_item
            },
            last_sync_item: ItemModel {
                text: "Last sync: in progress"@,
                icon: Icon::StatusPartiallyAvailable,
                ..menu.last_sync_item
            },
            changes_item: ItemModel {
                text: "Changes: waiting for result"@,
                icon: Icon::ListView,
                ..menu.changes_item
            },
            next_auto_sync_at: if force {
                menu.next_auto_sync_at
            } else {
                deadline_after(menu.sync_interval_minutes, now)
            },
            ..menu
        },
    )
}

/// What the menu shows of a run that succeeded.
pub open spec fn with_report(menu: MenuModel, report: SyncReport, clock: u64) -> MenuModel {
    MenuModel {
        last_sync_failed_message: None,
        sync_status_item: ItemModel {
            text: "Sync: healthy"@,
            icon: Icon::StatusAvailable,
            ..menu.sync_status_item
        },
        last_sync_item: ItemModel {
            text: "Last sync: "@ + relative_time_text(Some(clock), clock),
            icon: Icon::StatusAvailable,
            ..menu.last_sync_item
        },
        changes_item: ItemModel {
            text: "Changes: "@ + changes_text(report),
            icon: changes_icon(report),
            ..menu.changes_item
        },
        ..menu
    }
}

/// What the menu shows of a run that failed. If the reason is the sign-in, that is over.
pub open spec fn with_failure(menu: MenuModel, message: Seq<char>) -> MenuModel {
    let failed = MenuModel {
        last_sync_failed_message: Some(truncated(message, 72)),
        sync_status_item: ItemModel {
            text: "Sync: failed"@,
            icon: Icon::StatusUnavailable,
            ..menu.sync_status_item
        },
        last_sync_item: ItemModel {
            text: "Last sync failed: "@ + truncated(message, 72),
            icon: Icon::Caution,
            ..menu.last_sync_item
        },
        changes_item: ItemModel {
            text: "Changes: unavailable"@,
            icon: Icon::Caution,
            ..menu.changes_item
        },
        ..menu
    };
    if auth_error::asks_for_sign_in(message) {
        MenuModel {
            is_authenticated: false,
            auth_status_item: ItemModel {
                text: "Bear auth: expired"@,
                icon: Icon::StatusUnavailable,
                ..failed.auth_status_item
            },
            auth_item: ItemModel { text: "Authenticate Bear"@, ..failed.auth_item },
            ..failed
        }
    } else {
        failed
    }
}

/// A run has ended. `known_cards` is the number of tracked cards, if it is known.
pub open spec fn synced(
    menu: MenuModel,
    result: Result<SyncReport, Seq<char>>,
    known_cards: Option<usize>,
    clock: u64,
    now: u64,
) -> MenuModel {
    let count = match known_cards {
        Some(n) => n,
        None => menu.card_count,
    };
    let ended = MenuModel {
        is_syncing: false,
        last_sync_at: Some(clock),
        card_count: count,
        card_count_item: ItemModel {
            text: card_count_text(count as nat),
            ..menu.card_count_item
        },
        sync_item: ItemModel { text: "Sync Now"@, ..menu.sync_item },
        next_auto_sync_at: deadline_after(menu.sync_interval_minutes, now),
        ..menu
    };
    with_age(
        with_actions(
            match result {
                Ok(report) => with_report(ended, report, clock),
                Err(message) => with_failure(ended, message),
            },
        ),
        clock,
    )
}

/// What a result of a run says.
pub open spec fn result_model(result: Result<SyncReport, String>) -> Result<SyncReport, Seq<char>> {
    match result {
        Ok(report) => Ok(report),
        Err(message) => Err(message@),
    }
}

/// The text of a label and what follows it.
fn labelled(label: &str, content: &str) -> (out: String)
    ensures
        out@ == label@ + content@,
{
    let mut out = label.to_owned();
    out.append(content);
    out
}

impl MenuBar {
    /// The menu at the start.
    pub fn new(card_count: usize, sync_interval_minutes: Option<u64>, now: u64) -> (menu: Self)
        ensures
            menu@ == first_menu(card_count, sync_interval_minutes, now),
    {
        MenuBar {
            sync_item: item("Sync Now", true, Icon::Refresh),
            force_item: item("Force Re-sync", true, Icon::RefreshFreestanding),
            auth_item: item("Check Bear Authentication", true, Icon::User),
            sync_status_item: item("Sync: idle", false, Icon::StatusNone),
            auth_status_item: item(
                "Bear auth: checking...",
                false,
                Icon::StatusPartiallyAvailable,
            ),
            last_sync_item: item("Last sync: never", false, Icon::StatusNone),
            changes_item: item("Changes: not synced yet", false, Icon::ListView),
            card_count_item: Item {
                text: card_count_label(card_count),
                enabled: false,
                icon: Icon::MultipleDocuments,
            },
            quit_item: item("Quit Bear-Anki", true, Icon::Remove),
            sync_interval_minutes,
            is_syncing: false,
            is_authenticating: false,
            is_authenticated: false,
            card_count,
            last_sync_at: None,
            last_sync_failed_message: None,
            next_auto_sync_at: next_auto_sync_deadline(sync_interval_minutes, now),
        }
    }

    /// Enables the actions that can be started.
    pub fn refresh_action_state(&mut self)
        ensures
            final(self)@ == with_actions(old(self)@),
    {
        let can_sync = self.is_authenticated && !self.is_syncing && !self.is_authenticating;
        self.sync_item.enabled = can_sync;
        self.force_item.enabled = can_sync;
        self.auth_item.enabled = !self.is_syncing && !self.is_authenticating;
    }

    /// Tells the age of the last run.
    pub fn refresh_time_dependent_labels(&mut self, clock: u64)
        ensures
            final(self)@ == with_age(old(self)@, clock),
    {
        if self.is_syncing {
            return ;
        }
        if self.last_sync_failed_message.is_none() && self.last_sync_at.is_some() {
            let age = relative_time_label(self.last_sync_at, clock);
            self.last_sync_item.text = labelled("Last sync: ", age.as_str());
        }
    }

    /// Begins to check the sign-in, unless the user is signing in. Tells whether it is to be
    /// checked.
    pub fn refresh_auth_status(&mut self) -> (started: bool)
        ensures
            started == !old(self)@.is_authenticating,
            final(self)@ == if started {
                checking_auth(old(self)@)
            } else {
                old(self)@
            },
    {
        if self.is_authenticating {
            return false;
        }
        self.auth_status_item.text = "Bear auth: checking...".to_owned();
        self.auth_status_item.icon = Icon::StatusPartiallyAvailable;
        self.auth_item.text = "Check Bear Authentication".to_owned();
        self.auth_item.enabled = false;
        true
    }

    /// Begins the sign-in, unless something is going on. Tells whether it is to be made.
    pub fn start_authenticate(&mut self) -> (started: bool)
        ensures
            started == (!old(self)@.is_authenticating && !old(self)@.is_syncing),
            final(self)@ == if started {
                authenticating(old(self)@)
            } else {
                old(self)@
            },
    {
        if self.is_authenticating || self.is_syncing {
            return false;
        }
        self.is_authenticating = true;
        self.auth_item.text = "Authenticating...".to_owned();
        self.auth_item.enabled = false;
        self.auth_status_item.text = "Bear auth: sign-in in progress".to_owned();
        self.auth_status_item.icon = Icon::RefreshFreestanding;
        self.sync_item.enabled = false;
        self.force_item.enabled = false;
        true
    }

    /// Shows whether the user is signed in.
    fn show_auth(&mut self, error: Option<&str>, failure_icon: Icon)
        ensures
            final(self)@ == with_auth(
                old(self)@,
                match error {
                    Some(message) => Some(message@),
                    None => None,
                },
                failure_icon,
            ),
    {
        match error {
            None => {
                self.is_authenticated = true;
                self.auth_status_item.text = "Bear auth: connected".to_owned();
                self.auth_status_item.icon = Icon::StatusAvailable;
                self.auth_item.text = "Re-authenticate Bear".to_owned();
            },
            Some(message) => {
                self.is_authenticated = false;
                let reason = concise_auth_error(message);
                self.auth_status_item.text = labelled("Bear auth: ", reason.as_str());
                self.auth_status_item.icon = failure_icon;
                self.auth_item.text = "Authenticate Bear".to_owned();
            },
        }
        self.refresh_action_state();
    }

    /// The sign-in has been checked.
    pub fn on_auth_checked(&mut self, error: Option<&str>)
        ensures
            final(self)@ == with_auth(
                old(self)@,
                match error {
                    Some(message) => Some(message@),
                    None => None,
                },
                Icon::StatusUnavailable,
            ),
    {
        self.show_auth(error, Icon::StatusUnavailable);
    }

    /// The user has signed in, or has not.
    pub fn on_auth_done(&mut self, error: Option<&str>)
        ensures
            final(self)@ == with_auth(
                (MenuModel { is_authenticating: false, ..old(self)@ }),
                match error {
                    Some(message) => Some(message@),
                    None => None,
                },
                Icon::Caution,
            ),
    {
        self.is_authenticating = false;
        self.show_auth(error, Icon::Caution);
    }

    /// Begins a run, if one can start. Tells whether it is to be made.
    pub fn start_sync(&mut self, force: bool, now: u64) -> (started: bool)
        ensures
            started == can_sync(old(self)@),
            final(self)@ == if started {
                syncing(old(self)@, force, now)
            } else {
                old(self)@
            },
    {
        if self.is_syncing || self.is_authenticating || !self.is_authenticated {
            return false;
        }
        self.is_syncing = true;
        self.sync_item.text = "Syncing...".to_owned();
        self.sync_status_item.text = if force {
            "Sync: force re-sync in progress".to_owned()
        } else {
            "Sync: in progress".to_owned()
        };
        self.sync_status_item.icon = Icon::RefreshFreestanding;
        self.last_sync_item.text = "Last sync: in progress".to_owned();
        self.last_sync_item.icon = Icon::StatusPartiallyAvailable;
        self.changes_item.text = "Changes: waiting for result".to_owned();
        self.changes_item.icon = Icon::ListView;
        self.refresh_action_state();
        if !force {
            self.next_auto_sync_at = next_auto_sync_deadline(self.sync_interval_minutes, now);
        }
        true
    }

    /// Shows what a run has come to.
    fn show_report(&mut self, report: &SyncReport, clock: u64)
        ensures
            final(self)@ == with_report(old(self)@, *report, clock),
    {
        self.last_sync_failed_message = None;
        self.sync_status_item.text = "Sync: healthy".to_owned();
        self.sync_status_item.icon = Icon::StatusAvailable;
        let age = relative_time_label(Some(clock), clock);
        self.last_sync_item.text = labelled("Last sync: ", age.as_str());
        self.last_sync_item.icon = Icon::StatusAvailable;
        let changes = sync_changes_label(report);
        self.changes_item.text = labelled("Changes: ", changes.as_str());
        self.changes_item.icon = sync_changes_icon(report);
    }

    /// Shows why a run has failed.
    fn show_failure(&mut self, message: &str)
        ensures
            final(self)@ == with_failure(old(self)@, message@),
    {
        self.last_sync_failed_message = Some(truncate(message, 72));
        self.sync_status_item.text = "Sync: failed".to_owned();
        self.sync_status_item.icon = Icon::StatusUnavailable;
        let reason = truncate(message, 72);
        self.last_sync_item.text = labelled("Last sync failed: ", reason.as_str());
        self.last_sync_item.icon = Icon::Caution;
        self.changes_item.text = "Changes: unavailable".to_owned();
        self.changes_item.icon = Icon::Caution;
        if auth_error::is_auth_error_message(message) {
            self.is_authenticated = false;
            self.auth_status_item.text = "Bear auth: expired".to_owned();
            self.auth_status_item.icon = Icon::StatusUnavailable;
            self.auth_item.text = "Authenticate Bear".to_owned();
        }
    }

    /// A run has ended. `known_cards` is the number of tracked cards, if it is known; `clock` is the
    /// time of day and `now` the time since the start, both in nanoseconds.
    pub fn on_sync_done(
        &mut self,
        result: &Result<SyncReport, String>,
        known_cards: Option<usize>,
        clock: u64,
        now: u64,
    )
        ensures
            final(self)@ == synced(old(self)@, result_model(*result), known_cards, clock, now),
    {
        self.is_syncing = false;
        self.last_sync_at = Some(clock);
        if let Some(count) = known_cards {
            self.card_count = count;
        }
        self.card_count_item.text = card_count_label(self.card_count);
        self.sync_item.text = "Sync Now".to_owned();
        self.next_auto_sync_at = next_auto_sync_deadline(self.sync_interval_minutes, now);
        match result {
            Ok(report) => self.show_report(report, clock),
            Err(message) => self.show_failure(message.as_str()),
        }
        self.refresh_action_state();
        self.refresh_time_dependent_labels(clock);
    }

    /// Begins a run if it is time for one. Where one cannot start, the next one is put off. Tells
    /// whether a run is to be made.
    pub fn maybe_start_auto_sync(&mut self, now: u64) -> (started: bool)
        ensures
            match old(self)@.next_auto_sync_at {
                Some(deadline) => if now < deadline {
                    !started && final(self)@ == old(self)@
                } else if can_sync(old(self)@) {
                    started && final(self)@ == syncing(old(self)@, false, now)
                } else {
                    !started && final(self)@ == (MenuModel {
                        next_auto_sync_at: deadline_after(
                            old(self)@.sync_interval_minutes,
                            now,
                        ),
                        ..old(self)@
                    })
                },
                None => !started && final(self)@ == old(self)@,
            },
    {
        match self.next_auto_sync_at {
            None => false,
            Some(deadline) => {
                if (now as u128) < deadline {
                    return false;
                }
                if self.is_authenticated && !self.is_syncing && !self.is_authenticating {
                    self.start_sync(false, now)
                } else {
                    self.next_auto_sync_at = next_auto_sync_deadline(
                        self.sync_interval_minutes,
                        now,
                    );
                    false
                }
            },
        }
    }
}

// ── Laws ─────────────────────────────────────────────────────────────────────

/// Nothing goes on twice at a time: a run and a sign-in exclude each other.
pub open spec fn one_at_a_time(menu: MenuModel) -> bool {
    !(menu.is_syncing && menu.is_authenticating)
}

/// A run and a sign-in never go on at the same time.
pub proof fn law_run_and_sign_in_exclude_each_other(
    menu: MenuModel,
    force: bool,
    now: u64,
    clock: u64,
    error: Option<Seq<char>>,
    icon: Icon,
    result: Result<SyncReport, Seq<char>>,
    known_cards: Option<usize>,
)
    requires
        one_at_a_time(menu),
    ensures
        can_sync(menu) ==> one_at_a_time(syncing(menu, force, now)),
        !menu.is_authenticating && !menu.is_syncing ==> one_at_a_time(authenticating(menu)),
        one_at_a_time(checking_auth(menu)),
        one_at_a_time(with_auth(menu, error, icon)),
        one_at_a_time(
            with_auth((MenuModel { is_authenticating: false, ..menu }), error, icon),
        ),
        one_at_a_time(synced(menu, result, known_cards, clock, now)),
        one_at_a_time(with_age(menu, clock)),
{
}

/// While a run goes on no action is enabled; once it has ended, a run can start exactly if the
/// user is still signed in and is not signing in.
pub proof fn law_actions_follow_the_run(
    menu: MenuModel,
    force: bool,
    now: u64,
    clock: u64,
    result: Result<SyncReport, Seq<char>>,
    known_cards: Option<usize>,
)
    ensures
        ({
            let during = syncing(menu, force, now);
            &&& !during.sync_item.enabled
            &&& !during.force_item.enabled
            &&& !during.auth_item.enabled
        }),
        ({
            let after = synced(menu, result, known_cards, clock, now);
            &&& after.sync_item.enabled == (after.is_authenticated && !after.is_authenticating)
            &&& after.force_item.enabled == after.sync_item.enabled
            &&& (result matches Err(message) && auth_error::asks_for_sign_in(message))
                ==> !after.sync_item.enabled
        }),
{
}

/// No run starts by itself before its time, nor without an interval.
pub proof fn law_deadline_lies_ahead(minutes: Option<u64>, now: u64)
    ensures
        deadline_after(minutes, now) is None <==> minutes is None || minutes == Some(0u64),
        deadline_after(minutes, now) matches Some(deadline) ==> deadline
            >= now + 60 * 1_000_000_000,
{
    if let Some(m) = minutes {
        assert(now + u64::MAX * 1_000_000_000 <= u128::MAX);
    }
}

} // verus!
