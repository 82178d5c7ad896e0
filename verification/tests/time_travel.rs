use rafce::time_travel::TimeTravelReplayer;
use rafce::types::{SnapshotRecord, WalEntry};

fn snap(account_id: u32, balance: u64, timestamp_ns: u64) -> SnapshotRecord {
    SnapshotRecord { account_id, balance, timestamp_ns }
}

fn wal(delta: i64, timestamp_ns: u64) -> WalEntry {
    WalEntry { trade_id: 0, delta, timestamp_ns }
}

#[test]
fn no_history_gives_zero() {
    let replayer = TimeTravelReplayer::new(&[], &[]);
    assert_eq!(replayer.reconstruct_balance(7, 1_000), Some(0));
}

#[test]
fn snapshot_instant_gives_snapshot_balance() {
    let snaps = [snap(1, 500, 10), snap(2, 900, 20), snap(1, 650, 30)];
    let entries = [wal(100, 15), wal(-40, 25), wal(7, 30), wal(3, 31)];
    let replayer = TimeTravelReplayer::new(&snaps, &entries);
    assert_eq!(replayer.reconstruct_balance(1, 30), Some(650));
    assert_eq!(replayer.reconstruct_balance(2, 20), Some(900));
}

#[test]
fn replay_applies_window_after_latest_snapshot() {
    let snaps = [snap(1, 500, 10), snap(2, 900, 20), snap(1, 650, 30)];
    let entries = [wal(100, 15), wal(-40, 25), wal(7, 30), wal(3, 31), wal(1000, 60)];
    let replayer = TimeTravelReplayer::new(&snaps, &entries);
    // account 1 at 29: snapshot at 10 (500), then +100 at 15, -40 at 25
    assert_eq!(replayer.reconstruct_balance(1, 29), Some(560));
    // account 1 at 50: snapshot at 30 (650), then +3 at 31
    assert_eq!(replayer.reconstruct_balance(1, 50), Some(653));
    // account 3 has no snapshot: replay everything up to 40 from zero
    assert_eq!(replayer.reconstruct_balance(3, 40), Some(70));
    // before any snapshot of account 2
    assert_eq!(replayer.reconstruct_balance(2, 19), Some(100));
}

#[test]
fn later_events_do_not_change_the_past() {
    let snaps = [snap(1, 500, 10)];
    let entries_short = [wal(5, 11)];
    let entries_long = [wal(5, 11), wal(1_000_000, 12)];
    let a = TimeTravelReplayer::new(&snaps, &entries_short).reconstruct_balance(1, 11);
    let b = TimeTravelReplayer::new(&snaps, &entries_long).reconstruct_balance(1, 11);
    assert_eq!(a, Some(505));
    assert_eq!(a, b);
}

#[test]
fn credits_and_debits_saturate() {
    let snaps = [snap(1, u64::MAX - 1, 1)];
    let entries = [wal(10, 2)];
    let replayer = TimeTravelReplayer::new(&snaps, &entries);
    assert_eq!(replayer.reconstruct_balance(1, 5), Some(u64::MAX));

    let snaps = [snap(1, 3, 1)];
    let entries = [wal(-10, 2), wal(i64::MIN, 3), wal(4, 4)];
    let replayer = TimeTravelReplayer::new(&snaps, &entries);
    assert_eq!(replayer.reconstruct_balance(1, 2), Some(0));
    assert_eq!(replayer.reconstruct_balance(1, 4), Some(4));
}

#[test]
fn zero_delta_is_a_debit_of_nothing() {
    let snaps = [snap(1, 8, 0)];
    let entries = [wal(0, 1)];
    let replayer = TimeTravelReplayer::new(&snaps, &entries);
    assert_eq!(replayer.reconstruct_balance(1, 1), Some(8));
}

#[test]
fn entries_at_or_before_snapshot_are_skipped() {
    let snaps = [snap(4, 100, 50)];
    let entries = [wal(7, 49), wal(7, 50), wal(7, 51)];
    let replayer = TimeTravelReplayer::new(&snaps, &entries);
    assert_eq!(replayer.reconstruct_balance(4, 60), Some(107));
}

#[test]
fn many_snapshots_binary_search() {
    let mut snaps = Vec::new();
    for i in 0..100u64 {
        snaps.push(snap((i % 3) as u32, i * 10, i * 100));
    }
    let replayer = TimeTravelReplayer::new(&snaps, &[]);
    // latest snapshot of account 0 at or before 5_050 is i = 48 (4_800)
    assert_eq!(replayer.reconstruct_balance(0, 5_050), Some(480));
    // account 2 at 9_900: i = 98
    assert_eq!(replayer.reconstruct_balance(2, 9_900), Some(980));
    assert_eq!(replayer.reconstruct_balance(1, 50), Some(0));
}
