use island_strategy::journal::{JournalEntry, StrategicJournal, JOURNAL_WINDOW};
use island_strategy::tick::StrategicEvent;

/// The nth hour event of a campaign, stamped consistently.
fn hour(n: u64) -> JournalEntry {
    let day = (n / 24) as u32 + 1;
    let hour = (n % 24) as u8;
    JournalEntry::new(day, hour, StrategicEvent::HourPassed { day, hour })
}

fn journal_of(count: u64) -> StrategicJournal {
    let mut journal = StrategicJournal::new();
    for n in 0..count {
        journal.push(hour(n));
    }
    journal
}

#[test]
fn a_new_journal_records_nothing() {
    let journal = StrategicJournal::new();
    assert!(journal.recent().is_empty());
    assert_eq!(journal.history_digest(), 0);
    assert_eq!(journal.total_recorded(), 0);
}

#[test]
fn under_the_window_every_entry_is_kept_whole_and_nothing_is_folded() {
    let journal = journal_of(JOURNAL_WINDOW as u64);
    assert_eq!(journal.recent().len(), JOURNAL_WINDOW);
    assert_eq!(journal.recent()[0], hour(0));
    assert_eq!(journal.history_digest(), 0, "nothing has been evicted yet");
    assert_eq!(journal.total_recorded(), JOURNAL_WINDOW as u64);
    assert_eq!(journal.evicted_count(), 0);
}

#[test]
fn the_window_never_grows_past_its_bound_however_long_the_campaign_runs() {
    let journal = journal_of(2_400);
    assert_eq!(journal.recent().len(), JOURNAL_WINDOW);
    assert_eq!(journal.total_recorded(), 2_400);
    assert_eq!(journal.evicted_count(), 2_400 - JOURNAL_WINDOW as u64);
    assert_eq!(
        journal.recent()[0],
        hour(2_400 - JOURNAL_WINDOW as u64),
        "the window holds the newest entries, oldest first"
    );
    assert_eq!(journal.recent()[JOURNAL_WINDOW - 1], hour(2_399));
}

#[test]
fn two_histories_that_differ_only_before_the_window_are_different_saves() {
    let mut kept = StrategicJournal::new();
    let mut lost = StrategicJournal::new();
    kept.push(hour(0));
    lost.push(JournalEntry::new(
        9,
        9,
        StrategicEvent::HourPassed { day: 9, hour: 9 },
    ));
    for n in 1..=JOURNAL_WINDOW as u64 {
        kept.push(hour(n));
        lost.push(hour(n));
    }

    assert_eq!(
        kept.recent(),
        lost.recent(),
        "the windows are identical: only the evicted entry differed"
    );
    assert_eq!(kept.evicted_count(), 1);
    assert_eq!(lost.evicted_count(), 1);
    assert_ne!(
        kept.history_digest(),
        lost.history_digest(),
        "an evicted entry must still change the save"
    );
}

#[test]
fn reordering_the_evicted_prefix_changes_the_digest() {
    let mut forwards = StrategicJournal::new();
    let mut backwards = StrategicJournal::new();
    for n in 0..3 {
        forwards.push(hour(n));
    }
    for n in (0..3).rev() {
        backwards.push(hour(n));
    }
    for n in 3..(3 + JOURNAL_WINDOW as u64) {
        forwards.push(hour(n));
        backwards.push(hour(n));
    }
    assert_eq!(forwards.evicted_count(), 3);
    assert_ne!(forwards.history_digest(), backwards.history_digest());
}

#[test]
fn the_same_history_twice_produces_the_same_journal() {
    let once = journal_of(1_000);
    let twice = journal_of(1_000);
    assert_eq!(once, twice);
}
