//! What holds of all that the commands print and the menu shows.

use vstd::prelude::*;

use crate::auth_error;
use crate::card_note;
use crate::commands;
use crate::menu;
use crate::menu::{Icon, MenuModel};
use crate::parser::{CardModel, Sides};
use crate::scope;
use crate::scope::SourceNote;
use crate::state::KnownCard;
use crate::sync::SyncReport;
use crate::text;
use crate::text_laws;

verus! {

// ── Commands ─────────────────────────────────────────────────────────────────

/// The address of AnkiConnect that is given counts before the one that is configured, and this
/// before the usual one.
pub proof fn law_the_given_address_counts_first(url: Seq<char>, other: Option<Seq<char>>)
    ensures
        commands::anki_url_of(Some(url), other) == url,
        commands::anki_url_of(None, Some(url)) == url,
        commands::anki_url_of(None, None) == "http://127.0.0.1:8765"@,
{
}

/// The summary of a run holds the four counts in the order of additions, updates, deletions and
/// cards without a change; that of a dry run, the first three.
pub proof fn law_summaries_hold_the_counts(report: SyncReport)
    ensures
        ({
            let added = text::decimal(report.added as nat);
            let updated = text::decimal(report.updated as nat);
            let deleted = text::decimal(report.deleted as nat);
            let skipped = text::decimal(report.skipped as nat);
            &&& commands::summary_text(report, false) == "Sync complete: "@ + (added + " added, "@
                + updated + " updated, "@ + deleted + " deleted, "@ + skipped + " unchanged"@)
            &&& commands::summary_text(report, true) == "[dry-run] "@ + (added + " to add, "@
                + updated + " to update, "@ + deleted + " to delete"@)
        }),
{
    let added = text::decimal(report.added as nat);
    let updated = text::decimal(report.updated as nat);
    let deleted = text::decimal(report.deleted as nat);
    let skipped = text::decimal(report.skipped as nat);
    assert(commands::summary_text(report, false) =~= "Sync complete: "@ + (added + " added, "@
        + updated + " updated, "@ + deleted + " deleted, "@ + skipped + " unchanged"@));
    assert(commands::summary_text(report, true) =~= "[dry-run] "@ + (added + " to add, "@ + updated
        + " to update, "@ + deleted + " to delete"@));
}

proof fn lemma_bytes(text: Seq<char>)
    ensures
        vstd::utf8::encode_utf8(text).len() >= text.len(),
    decreases text.len(),
{
    if text.len() > 0 {
        lemma_bytes(text.drop_first());
    }
}

/// A card in the list shows its kind and the first seventy characters of its prompt. The ellipsis
/// stands behind them wherever the prompt is that long, and is left out where what is shown takes
/// fewer than seventy bytes.
pub proof fn law_listed_cards_show_the_beginning_of_the_prompt(
    card: CardModel,
    front: Seq<char>,
    back: Seq<char>,
    rest: Seq<char>,
)
    ensures
        ({
            let basic = |text: Seq<char>|
                commands::card_text(CardModel { kind: Sides::Basic { front: text, back }, ..card });
            let cloze = |text: Seq<char>|
                commands::card_text(CardModel { kind: Sides::Cloze { text }, ..card });
            &&& front.len() == 70 ==> basic(front + rest) == "  [basic] "@ + front + seq!['…']
            &&& front.len() == 70 ==> cloze(front + rest) == "  [cloze] "@ + front + seq!['…']
            &&& vstd::utf8::encode_utf8(front).len() < 70 ==> basic(front) == "  [basic] "@ + front
            &&& vstd::utf8::encode_utf8(front).len() < 70 ==> cloze(front) == "  [cloze] "@ + front
            &&& vstd::utf8::encode_utf8(front).len() >= 70 && front.len() <= 70 ==> basic(front)
                == "  [basic] "@ + front + seq!['…']
        }),
{
    reveal_strlit("…");
    reveal_strlit("  [");
    reveal_strlit("] ");
    reveal_strlit("basic");
    reveal_strlit("cloze");
    reveal_strlit("  [basic] ");
    reveal_strlit("  [cloze] ");
    assert("…"@ =~= seq!['…']);
    assert("  ["@ + "basic"@ + "] "@ =~= "  [basic] "@);
    assert("  ["@ + "cloze"@ + "] "@ =~= "  [cloze] "@);
    lemma_bytes(front);
    let none = Seq::<char>::empty();
    if front.len() == 70 {
        assert((front + rest).take(70) =~= front);
        assert(card_note::shortened(front + rest, 70) =~= front);
    }
    if front.len() <= 70 {
        assert(card_note::shortened(front, 70) == front);
        assert("  [basic] "@ + front + none =~= "  [basic] "@ + front);
        assert("  [cloze] "@ + front + none =~= "  [cloze] "@ + front);
    }
}

/// A note in the list stands with its title and the number of its cards, and then its cards, each
/// on a line; one without cards is left out. The notes stand in their order, and their cards are
/// counted together.
pub proof fn law_the_list_holds_all_notes_with_cards(
    a: Seq<SourceNote>,
    b: Seq<SourceNote>,
    source: SourceNote,
    i: int,
)
    requires
        0 <= i < scope::cards_in(source).len(),
    ensures
        commands::notes_texts(a + b) == commands::notes_texts(a) + commands::notes_texts(b),
        commands::card_total(a + b) == commands::card_total(a) + commands::card_total(b),
        commands::notes_texts(seq![source]) == commands::note_texts(source),
        commands::card_total(seq![source]) == scope::cards_in(source).len(),
        commands::note_texts(source).len() == scope::cards_in(source).len() + 1,
        commands::note_texts(source)[0] == source.note.title@ + " ("@ + text::decimal(
            scope::cards_in(source).len(),
        ) + " card(s))"@,
        commands::note_texts(source)[i + 1] == commands::card_text(scope::cards_in(source)[i]),
{
    lemma_list(a, b);
    let one = seq![source];
    assert(one.drop_last() =~= Seq::<SourceNote>::empty());
    assert(one.last() == source);
    reveal_with_fuel(commands::notes_texts, 2);
    reveal_with_fuel(commands::card_total, 2);
    assert(commands::notes_texts(one) =~= commands::note_texts(source));
}

proof fn lemma_list(a: Seq<SourceNote>, b: Seq<SourceNote>)
    ensures
        commands::notes_texts(a + b) == commands::notes_texts(a) + commands::notes_texts(b),
        commands::card_total(a + b) == commands::card_total(a) + commands::card_total(b),
    decreases b.len(),
{
    if b.len() == 0 {
        assert(a + b =~= a);
        assert(commands::notes_texts(a + b) =~= commands::notes_texts(a) + commands::notes_texts(
            b,
        ));
    } else {
        lemma_list(a, b.drop_last());
        assert((a + b).drop_last() =~= a + b.drop_last());
        assert(commands::notes_texts(a + b) =~= commands::notes_texts(a) + commands::notes_texts(
            b,
        ));
    }
}

/// A note without cards makes no line; the list ends with the number of the cards and of all
/// notes, and says so where there are no notes.
pub proof fn law_the_list_ends_with_the_totals(notes: Seq<SourceNote>, source: SourceNote)
    ensures
        scope::cards_in(source).len() == 0 ==> commands::note_texts(source).len() == 0,
        notes.len() == 0 ==> commands::list_texts(notes) == seq!["No notes found."@],
        notes.len() > 0 ==> commands::list_texts(notes).drop_last() == commands::notes_texts(notes)
            && commands::list_texts(notes).last() == "\n"@ + text::decimal(
            commands::card_total(notes),
        ) + " card(s) across "@ + text::decimal(notes.len()) + " note(s)"@,
{
    if notes.len() > 0 {
        assert(commands::list_texts(notes).drop_last() =~= commands::notes_texts(notes));
    }
}

/// The cards of a note are counted one by one.
pub proof fn law_cards_are_counted_by_their_note(
    listed: Seq<KnownCard>,
    card: KnownCard,
    note_id: Seq<char>,
)
    ensures
        commands::count_of(Seq::empty(), note_id) == 0,
        commands::count_of(listed.push(card), note_id) == commands::count_of(listed, note_id)
            + if card.note_id == note_id {
            1int
        } else {
            0
        },
{
    assert(listed.push(card).drop_last() =~= listed);
}

/// Notes with more cards come first, whatever their identifiers; among those with as many, the
/// one whose identifier has the lesser character where the two first differ.
pub proof fn law_notes_with_more_cards_come_first(
    id: Seq<char>,
    other: Seq<char>,
    n: nat,
    m: nat,
    common: Seq<char>,
    x: char,
    y: char,
)
    requires
        n > m,
        x < y,
    ensures
        commands::comes_before((id, n), (other, m)),
        !commands::comes_before((other, m), (id, n)),
        commands::comes_before((common.push(x) + id, n), (common.push(y) + other, n)),
        !commands::comes_before((common.push(y) + other, n), (common.push(x) + id, n)),
        commands::comes_before((common, n), (common.push(x) + id, n)),
{
    text_laws::law_texts_are_ordered_by_their_first_difference(common, x, y, id, other);
}

/// A number in a column takes at least three characters: spaces, and then its digits.
pub proof fn law_numbers_are_aligned_to_the_right(n: nat)
    ensures
        ({
            let digits = text::decimal(n);
            let shown = commands::aligned(n);
            &&& shown.len() == if digits.len() < 3 {
                3
            } else {
                digits.len()
            }
            &&& shown.skip(shown.len() - digits.len()) == digits
            &&& forall|i: int| 0 <= i < shown.len() - digits.len() ==> #[trigger] shown[i] == ' '
        }),
{
    reveal_strlit("  ");
    reveal_strlit(" ");
    let digits = text::decimal(n);
    let shown = commands::aligned(n);
    text_laws::law_numbers_are_written_in_decimal(n);
    assert(shown.skip(shown.len() - digits.len()) =~= digits);
}

/// A note goes by its title, and by its identifier where no title is known.
pub proof fn law_notes_go_by_their_title(
    titles: Map<Seq<char>, Seq<char>>,
    id: Seq<char>,
    title: Seq<char>,
)
    ensures
        commands::label_of(titles.insert(id, title), id) == title,
        commands::label_of(titles.remove(id), id) == id,
{
}

/// The status tells how many cards are tracked in how many notes, then the notes one by one with
/// the number of their cards, and last where the state stands. Where nothing is tracked, it says
/// so.
pub proof fn law_the_status_tells_of_each_note(
    total: nat,
    counts: Seq<(Seq<char>, nat)>,
    titles: Map<Seq<char>, Seq<char>>,
    path: Seq<char>,
    i: int,
)
    requires
        0 <= i < counts.len(),
    ensures
        ({
            let lines = commands::status_texts(total, counts, titles, path);
            &&& total > 0 ==> {
                &&& lines.len() == counts.len() + 2
                &&& lines[0] == text::decimal(total) + " card(s) tracked across "@ + text::decimal(
                    counts.len(),
                ) + " note(s):"@
                &&& lines[i + 1] == seq![' ', ' '] + commands::aligned(counts[i].1)
                    + " card(s)  "@ + commands::label_of(titles, counts[i].0)
                &&& lines[counts.len() as int + 1] == "\nState file: "@ + path
            }
            &&& total == 0 ==> lines == seq![
                "No cards tracked. Run `bear-anki sync` to get started."@,
            ]
        }),
{
    reveal_strlit("  ");
    assert("  "@ =~= seq![' ', ' ']);
}

/// Once the state is cleared, the number of its cards is told, and that the notes are still in
/// Anki where they are.
pub proof fn law_clearing_tells_what_stays(count: nat)
    ensures
        commands::cleared_text(count, true) == "State cleared ("@ + text::decimal(count)
            + " card(s) removed)."@,
        commands::cleared_text(count, false) == commands::cleared_text(count, true)
            + " Anki notes were NOT deleted (pass --delete-anki-notes to remove them too)."@,
{
    assert(commands::cleared_text(count, true) =~= "State cleared ("@ + text::decimal(count)
        + " card(s) removed)."@);
}

// ── Labels of the menu ───────────────────────────────────────────────────────

/// How long ago something was is told in the largest unit that fits, rounded down: hours, minutes
/// or seconds. Less than five seconds, and what lies ahead, is just now.
pub proof fn law_ages_are_told_in_the_largest_unit(
    then: u64,
    now: u64,
    hours: nat,
    minutes: nat,
    seconds: nat,
    rest: nat,
)
    requires
        minutes < 60,
        seconds < 60,
        rest < 1_000_000_000,
        now == then + (3600 * hours + 60 * minutes + seconds) * 1_000_000_000 + rest,
    ensures
        menu::relative_time_text(Some(then), now) == if hours > 0 {
            text::decimal(hours) + "h ago"@
        } else if minutes > 0 {
            text::decimal(minutes) + "m ago"@
        } else if seconds >= 5 {
            text::decimal(seconds) + "s ago"@
        } else {
            "just now"@
        },
        then < now ==> menu::relative_time_text(Some(now), then) == "just now"@,
        menu::relative_time_text(None, now) == "never"@,
{
    let all = 3600 * hours + 60 * minutes + seconds;
    assert((now - then) / 1_000_000_000 == all) by (nonlinear_arith)
        requires
            now - then == all * 1_000_000_000 + rest,
            0 <= rest < 1_000_000_000,
    ;
    assert(all / 3600 == hours);
    if hours == 0 {
        assert(all / 60 == minutes);
    }
}

/// A count that is not zero is told behind those before it; a run without a change says so.
pub proof fn law_changes_are_told_in_order(
    report: SyncReport,
    added: usize,
    updated: usize,
    deleted: usize,
    skipped: usize,
)
    requires
        added > 0,
        updated > 0,
        deleted > 0,
        skipped > 0,
    ensures
        ({
            let of = |a: usize, u: usize, d: usize, s: usize|
                menu::changes_text(SyncReport { added: a, updated: u, deleted: d, skipped: s });
            let bar = " | "@;
            let a = text::decimal(added as nat) + " added"@;
            let u = text::decimal(updated as nat) + " updated"@;
            let d = text::decimal(deleted as nat) + " deleted"@;
            let s = text::decimal(skipped as nat) + " unchanged"@;
            let none = 0usize;
            &&& of(none, none, none, none) == "no changes"@
            &&& of(none, none, none, skipped) == "no changes, "@ + s
            &&& of(added, none, none, none) == a
            &&& of(none, updated, none, none) == u
            &&& of(none, none, deleted, none) == d
            &&& of(added, updated, none, none) == a + bar + u
            &&& of(none, updated, deleted, none) == u + bar + d
            &&& of(added, none, deleted, none) == a + bar + d
            &&& of(added, updated, deleted, none) == a + bar + u + bar + d
            &&& report.added > 0 || report.updated > 0 || report.deleted > 0 ==> of(
                report.added,
                report.updated,
                report.deleted,
                skipped,
            ) == of(report.added, report.updated, report.deleted, none) + bar + s
        }),
{
    let bar = " | "@;
    let a = text::decimal(added as nat) + " added"@;
    let u = text::decimal(updated as nat) + " updated"@;
    let d = text::decimal(deleted as nat) + " deleted"@;
    let s = text::decimal(skipped as nat) + " unchanged"@;
    let e = Seq::<Seq<char>>::empty();
    assert("no changes, "@ + text::decimal(skipped as nat) + " unchanged"@ =~= "no changes, "@ + s);
    assert(e + e + e =~= e);
    assert(seq![a] + e + e + e =~= seq![a]);
    assert(e + seq![u] + e + e =~= seq![u]);
    assert(e + e + seq![d] + e =~= seq![d]);
    assert(seq![a] + seq![u] + e + e =~= seq![a] + seq![u]);
    assert(e + seq![u] + seq![d] + e =~= seq![u] + seq![d]);
    assert(seq![a] + e + seq![d] + e =~= seq![a] + seq![d]);
    assert(seq![a] + seq![u] + seq![d] + e =~= seq![a] + seq![u] + seq![d]);
    text_laws::law_parts_are_joined_in_order(a, seq![a], seq![u], bar);
    text_laws::law_parts_are_joined_in_order(u, seq![u], seq![d], bar);
    text_laws::law_parts_are_joined_in_order(d, seq![a], seq![d], bar);
    text_laws::law_parts_are_joined_in_order(d, seq![a] + seq![u], seq![d], bar);
    if report.added > 0 || report.updated > 0 || report.deleted > 0 {
        lemma_with_skipped(report, skipped);
    }
}

proof fn lemma_with_skipped(report: SyncReport, skipped: usize)
    requires
        skipped > 0,
        report.added > 0 || report.updated > 0 || report.deleted > 0,
    ensures
        menu::changes_text(SyncReport { skipped, ..report }) == menu::changes_text(
            SyncReport { skipped: 0, ..report },
        ) + " | "@ + (text::decimal(skipped as nat) + " unchanged"@),
{
    let changes = menu::counted(report.added, " added"@) + menu::counted(
        report.updated,
        " updated"@,
    ) + menu::counted(report.deleted, " deleted"@);
    let s = text::decimal(skipped as nat) + " unchanged"@;
    assert(changes.len() > 0);
    assert(changes + Seq::empty() =~= changes);
    text_laws::law_parts_are_joined_in_order(s, changes, seq![s], " | "@);
}

/// The icon of a run tells whether it has changed anything.
pub proof fn law_the_icon_tells_of_changes(report: SyncReport)
    ensures
        menu::changes_icon(report) == Icon::StatusAvailable <==> report.added + report.updated
            + report.deleted > 0,
        menu::changes_icon(report) == Icon::ListView <==> report.added + report.updated
            + report.deleted == 0,
{
}

/// A text is shown whole up to some characters; of a longer one the first of them, and three
/// dots.
pub proof fn law_long_texts_are_cut_off(head: Seq<char>, rest: Seq<char>)
    ensures
        menu::truncated(head, head.len()) == head,
        rest.len() > 0 ==> menu::truncated(head + rest, head.len()) == head + seq!['.', '.', '.'],
        menu::truncated(head, head.len() + rest.len()) == head,
{
    reveal_strlit("...");
    assert("..."@ =~= seq!['.', '.', '.']);
    assert((head + rest).take(head.len() as int) =~= head);
}

/// A failed sign-in is told in the same words whatever the message; each other error by the first
/// forty-eight characters of its message.
pub proof fn law_errors_are_told_in_few_words(message: Seq<char>)
    ensures
        auth_error::asks_for_sign_in(message) ==> menu::concise_error(message)
            == "not authenticated"@,
        !auth_error::asks_for_sign_in(message) && message.len() <= 48 ==> menu::concise_error(
            message,
        ) == message,
        !auth_error::asks_for_sign_in(message) && message.len() > 48 ==> menu::concise_error(
            message,
        ) == message.take(48) + seq!['.', '.', '.'],
{
    reveal_strlit("...");
    assert("..."@ =~= seq!['.', '.', '.']);
}

/// The next run starts by itself as many minutes from now as the settings say, up to the largest
/// number of seconds that can be told.
pub proof fn law_runs_start_after_the_interval(minutes: u64, now: u64)
    requires
        minutes > 0,
    ensures
        60 * minutes <= u64::MAX ==> (menu::deadline_after(Some(minutes), now) matches Some(at)
            && at == now + minutes * 60_000_000_000),
        60 * minutes > u64::MAX ==> (menu::deadline_after(Some(minutes), now) matches Some(at)
            && at == now + u64::MAX * 1_000_000_000),
        menu::deadline_after(Some(0), now) is None,
        menu::deadline_after(None, now) is None,
{
    assert(now + u64::MAX * 1_000_000_000 <= u128::MAX);
}

// ── The menu ─────────────────────────────────────────────────────────────────

/// Before the first check nobody is signed in and nothing goes on; the tracked cards are counted
/// and the first run that starts by itself is set.
pub proof fn law_the_menu_starts_idle(count: usize, minutes: Option<u64>, now: u64)
    ensures
        ({
            let first = menu::first_menu(count, minutes, now);
            &&& !first.is_syncing && !first.is_authenticating && !first.is_authenticated
            &&& first.last_sync_at is None && first.last_sync_failed_message is None
            &&& first.card_count == count && first.card_count_item.text == "Tracked cards: "@
                + text::decimal(count as nat)
            &&& first.sync_interval_minutes == minutes && first.next_auto_sync_at
                == menu::deadline_after(minutes, now)
            &&& first.last_sync_item.text == "Last sync: "@ + menu::relative_time_text(None, now)
            &&& first.quit_item.enabled
            &&& !first.sync_status_item.enabled && !first.auth_status_item.enabled
                && !first.last_sync_item.enabled && !first.changes_item.enabled
                && !first.card_count_item.enabled
        }),
{
    reveal_strlit("Last sync: never");
    reveal_strlit("Last sync: ");
    reveal_strlit("never");
    assert("Last sync: "@ + "never"@ =~= "Last sync: never"@);
}

/// While a run goes on, the menu says so. One that is not forced sets the next run that starts by
/// itself anew; nothing else of what is known changes.
pub proof fn law_the_menu_shows_a_run(menu: MenuModel, force: bool, now: u64)
    ensures
        ({
            let during = menu::syncing(menu, force, now);
            &&& during.is_syncing
            &&& during.sync_item.text == "Syncing..."@
            &&& during.next_auto_sync_at == if force {
                menu.next_auto_sync_at
            } else {
                menu::deadline_after(menu.sync_interval_minutes, now)
            }
            &&& during.card_count == menu.card_count && during.last_sync_at == menu.last_sync_at
                && during.is_authenticated == menu.is_authenticated && during.is_authenticating
                == menu.is_authenticating && during.sync_interval_minutes
                == menu.sync_interval_minutes && during.last_sync_failed_message
                == menu.last_sync_failed_message
            &&& during.card_count_item == menu.card_count_item && during.auth_status_item
                == menu.auth_status_item && during.quit_item == menu.quit_item
        }),
{
}

/// Once a run has succeeded, its time, its changes and the number of cards are known; the user is
/// still signed in if so before.
pub proof fn law_the_menu_shows_the_result_of_a_run(
    menu: MenuModel,
    report: SyncReport,
    known_cards: Option<usize>,
    clock: u64,
    now: u64,
)
    ensures
        ({
            let after = menu::synced(menu, Ok(report), known_cards, clock, now);
            &&& !after.is_syncing && after.is_authenticated == menu.is_authenticated
                && after.is_authenticating == menu.is_authenticating
            &&& after.last_sync_at == Some(clock) && after.last_sync_failed_message is None
            &&& after.sync_item.text == "Sync Now"@
            &&& after.last_sync_item.text == "Last sync: just now"@
            &&& after.changes_item.text == "Changes: "@ + menu::changes_text(report)
            &&& after.card_count == (match known_cards {
                Some(n) => n,
                None => menu.card_count,
            })
            &&& after.card_count_item.text == "Tracked cards: "@ + text::decimal(
                after.card_count as nat,
            )
            &&& after.next_auto_sync_at == menu::deadline_after(menu.sync_interval_minutes, now)
        }),
{
    reveal_strlit("Last sync: just now");
    reveal_strlit("Last sync: ");
    reveal_strlit("just now");
    assert("Last sync: "@ + "just now"@ =~= "Last sync: just now"@);
}

/// Once a run has failed, the first seventy-two characters of the reason are shown. Where the
/// reason is the sign-in, the user is no longer signed in; for no other reason does that change.
pub proof fn law_the_menu_shows_the_failure_of_a_run(
    menu: MenuModel,
    message: Seq<char>,
    known_cards: Option<usize>,
    clock: u64,
    now: u64,
)
    ensures
        ({
            let after = menu::synced(menu, Err(message), known_cards, clock, now);
            &&& !after.is_syncing && after.last_sync_at == Some(clock)
            &&& after.is_authenticated == (menu.is_authenticated && !auth_error::asks_for_sign_in(
                message,
            ))
            &&& after.last_sync_failed_message == Some(menu::truncated(message, 72))
            &&& after.last_sync_item.text == "Last sync failed: "@ + menu::truncated(message, 72)
            &&& after.sync_item.text == "Sync Now"@
            &&& after.next_auto_sync_at == menu::deadline_after(menu.sync_interval_minutes, now)
            &&& auth_error::asks_for_sign_in(message) ==> after.auth_status_item.text
                == "Bear auth: expired"@
            &&& !auth_error::asks_for_sign_in(message) ==> after.auth_status_item
                == menu.auth_status_item
        }),
{
}

/// The age of the last run is kept up to date once it has succeeded; during a run, after a
/// failure and before the first run the menu stays as it is.
pub proof fn law_the_age_is_kept_up_to_date(menu: MenuModel, then: u64, clock: u64)
    ensures
        ({
            let idle = MenuModel {
                is_syncing: false,
                last_sync_failed_message: None,
                last_sync_at: Some(then),
                ..menu
            };
            &&& menu::with_age(idle, clock).last_sync_item.text == "Last sync: "@
                + menu::relative_time_text(Some(then), clock)
            &&& menu::with_age(MenuModel { is_syncing: true, ..menu }, clock) == (MenuModel {
                is_syncing: true,
                ..menu
            })
            &&& menu.last_sync_failed_message is Some ==> menu::with_age(menu, clock) == menu
            &&& menu.last_sync_at is None ==> menu::with_age(menu, clock) == menu
        }),
{
}

/// Whether the user is signed in follows the last check; the actions follow that, and a run or a
/// sign-in that goes on is not touched by it.
pub proof fn law_the_sign_in_follows_the_last_check(
    menu: MenuModel,
    message: Seq<char>,
    icon: Icon,
)
    ensures
        ({
            let good = menu::with_auth(menu, None, icon);
            let bad = menu::with_auth(menu, Some(message), icon);
            &&& good.is_authenticated && !bad.is_authenticated
            &&& good.auth_status_item.text == "Bear auth: connected"@ && bad.auth_status_item.text
                == "Bear auth: "@ + menu::concise_error(message)
            &&& bad.auth_status_item.icon == icon && good.auth_status_item.icon
                == Icon::StatusAvailable
            &&& good.sync_item.enabled == (!menu.is_syncing && !menu.is_authenticating)
            &&& good.force_item.enabled == good.sync_item.enabled
            &&& !bad.sync_item.enabled && !bad.force_item.enabled
            &&& good.auth_item.enabled == (!menu.is_syncing && !menu.is_authenticating)
                && bad.auth_item.enabled == good.auth_item.enabled
            &&& good.is_syncing == menu.is_syncing && bad.is_syncing == menu.is_syncing
            &&& good.is_authenticating == menu.is_authenticating && bad.is_authenticating
                == menu.is_authenticating
            &&& good.auth_item.text == "Re-authenticate Bear"@ && bad.auth_item.text
                == "Authenticate Bear"@
        }),
{
}

/// While the user signs in, or the sign-in is checked, it cannot be started anew; a sign-in keeps
/// runs from being started too.
pub proof fn law_a_sign_in_goes_on_alone(menu: MenuModel)
    ensures
        ({
            let during = menu::authenticating(menu);
            let checked = menu::checking_auth(menu);
            &&& during.is_authenticating && !during.auth_item.enabled && !during.sync_item.enabled
                && !during.force_item.enabled
            &&& !checked.auth_item.enabled && checked.is_authenticating == menu.is_authenticating
                && checked.sync_item == menu.sync_item
            &&& during.is_syncing == menu.is_syncing && during.is_authenticated
                == menu.is_authenticated && checked.is_authenticated == menu.is_authenticated
            &&& !menu::can_sync(during)
        }),
{
}

} // verus!
