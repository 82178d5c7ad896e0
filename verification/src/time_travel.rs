use vstd::prelude::*;
use crate::types::{SnapshotRecord, WalEntry};

verus! {

/// Every snapshot at or before `target` comes before every snapshot after
/// it: true of any window sorted by timestamp.
pub open spec fn partitioned_at(snaps: Seq<SnapshotRecord>, target: u64) -> bool {
    forall|i: int, j: int|
        0 <= i < j < snaps.len() && #[trigger] snaps[j].timestamp_ns <= target
            ==> #[trigger] snaps[i].timestamp_ns <= target
}

/// `p` splits the window into the snapshots at or before `target` and
/// those after it.
pub open spec fn is_partition_point(snaps: Seq<SnapshotRecord>, target: u64, p: int) -> bool {
    &&& 0 <= p <= snaps.len()
    &&& forall|i: int| 0 <= i < p ==> #[trigger] snaps[i].timestamp_ns <= target
    &&& forall|i: int| p <= i < snaps.len() ==> #[trigger] snaps[i].timestamp_ns > target
}

/// The last snapshot of `account` among the first `n` of the window.
pub open spec fn last_snapshot_before(snaps: Seq<SnapshotRecord>, account: u32, n: int) -> Option<
    SnapshotRecord,
>
    decreases n,
{
    if n <= 0 {
        None
    } else if snaps[n - 1].account_id == account {
        Some(snaps[n - 1])
    } else {
        last_snapshot_before(snaps, account, n - 1)
    }
}

/// The last snapshot of `account` in the window taken at or before `target`.
pub open spec fn latest_snapshot(snaps: Seq<SnapshotRecord>, account: u32, target: u64, n: int) -> Option<
    SnapshotRecord,
>
    decreases n,
{
    if n <= 0 {
        None
    } else if snaps[n - 1].account_id == account && snaps[n - 1].timestamp_ns <= target {
        Some(snaps[n - 1])
    } else {
        latest_snapshot(snaps, account, target, n - 1)
    }
}

pub open spec fn magnitude(delta: i64) -> nat {
    if delta >= 0 {
        delta as nat
    } else {
        (-delta) as nat
    }
}

pub open spec fn saturating_credit(balance: u64, amount: nat) -> u64 {
    if balance + amount > u64::MAX {
        u64::MAX
    } else {
        (balance + amount) as u64
    }
}

pub open spec fn saturating_debit(balance: u64, amount: nat) -> u64 {
    if balance < amount {
        0
    } else {
        (balance - amount) as u64
    }
}

/// One log entry applied to a balance: it counts only when it lies after
/// the snapshot instant `start` and at or before `target`; credits and
/// debits saturate at the bounds of `u64`.
pub open spec fn apply_entry(balance: u64, e: WalEntry, start: u64, target: u64) -> u64 {
    if e.timestamp_ns > start && e.timestamp_ns <= target {
        if e.delta > 0 {
            saturating_credit(balance, magnitude(e.delta))
        } else {
            saturating_debit(balance, magnitude(e.delta))
        }
    } else {
        balance
    }
}

/// The log replayed in order onto a starting balance.
pub open spec fn replay(wal: Seq<WalEntry>, balance: u64, start: u64, target: u64) -> u64
    decreases wal.len(),
{
    if wal.len() == 0 {
        balance
    } else {
        apply_entry(replay(wal.drop_last(), balance, start, target), wal.last(), start, target)
    }
}

/// The balance rebuilt from a chosen snapshot (none: zero balance at
/// instant zero) and the log.
pub open spec fn replay_from(snap: Option<SnapshotRecord>, wal: Seq<WalEntry>, target: u64) -> u64 {
    match snap {
        Some(s) => replay(wal, s.balance, s.timestamp_ns, target),
        None => replay(wal, 0, 0, target),
    }
}

/// The balance of `account` at `target`: the latest snapshot of the account
/// at or before `target`, then every log entry after that snapshot and up
/// to `target`.
pub open spec fn balance_at(
    snaps: Seq<SnapshotRecord>,
    wal: Seq<WalEntry>,
    account: u32,
    target: u64,
) -> u64 {
    replay_from(latest_snapshot(snaps, account, target, snaps.len() as int), wal, target)
}

/// Binary search for the split between the snapshots at or before `target`
/// and those after it. On a window that is not partitioned at `target` the
/// index is some index of the window.
fn snapshot_partition_point(snaps: &[SnapshotRecord], target: u64) -> (p: usize)
    ensures
        p <= snaps@.len(),
        partitioned_at(snaps@, target) ==> is_partition_point(snaps@, target, p as int),
{
    let mut lo: usize = 0;
    let mut hi: usize = snaps.len();
    while lo < hi
        invariant
            lo <= hi <= snaps@.len(),
            partitioned_at(snaps@, target) ==> forall|i: int|
                0 <= i < lo ==> #[trigger] snaps@[i].timestamp_ns <= target,
            partitioned_at(snaps@, target) ==> forall|i: int|
                hi <= i < snaps@.len() ==> #[trigger] snaps@[i].timestamp_ns > target,
        decreases hi - lo,
    {
        let mid = lo + (hi - lo) / 2;
        if snaps[mid].timestamp_ns <= target {
            lo = mid + 1;
        } else {
            hi = mid;
        }
    }
    lo
}

/// Under partitioning, searching back from the partition point finds the
/// latest snapshot of the account at or before the target.
proof fn lemma_search_from_partition(
    snaps: Seq<SnapshotRecord>,
    account: u32,
    target: u64,
    p: int,
    n: int,
)
    requires
        is_partition_point(snaps, target, p),
        p <= n <= snaps.len(),
    ensures
        latest_snapshot(snaps, account, target, n) == last_snapshot_before(snaps, account, p),
    decreases n,
{
    if n > p {
        assert(snaps[n - 1].timestamp_ns > target);
        lemma_search_from_partition(snaps, account, target, p, n - 1);
    } else {
        lemma_latest_below_partition(snaps, account, target, p, n);
    }
}

proof fn lemma_latest_below_partition(
    snaps: Seq<SnapshotRecord>,
    account: u32,
    target: u64,
    p: int,
    n: int,
)
    requires
        is_partition_point(snaps, target, p),
        0 <= n <= p,
    ensures
        latest_snapshot(snaps, account, target, n) == last_snapshot_before(snaps, account, n),
    decreases n,
{
    if n > 0 {
        assert(snaps[n - 1].timestamp_ns <= target);
        lemma_latest_below_partition(snaps, account, target, p, n - 1);
    }
}

/// Replaying onto a snapshot taken at the target instant changes nothing:
/// no entry lies strictly after the snapshot and at or before the target.
proof fn lemma_replay_empty_window(wal: Seq<WalEntry>, balance: u64, t: u64)
    ensures
        replay(wal, balance, t, t) == balance,
    decreases wal.len(),
{
    if wal.len() > 0 {
        lemma_replay_empty_window(wal.drop_last(), balance, t);
    }
}

proof fn lemma_latest_is_snapshot(snaps: Seq<SnapshotRecord>, account: u32, k: int, n: int)
    requires
        0 <= k < n <= snaps.len(),
        snaps[k].account_id == account,
        forall|j: int|
            k < j < snaps.len() ==> !(#[trigger] snaps[j].account_id == account
                && snaps[j].timestamp_ns <= snaps[k].timestamp_ns),
    ensures
        latest_snapshot(snaps, account, snaps[k].timestamp_ns, n) == Some(snaps[k]),
    decreases n,
{
    if n - 1 > k {
        assert(!(snaps[n - 1].account_id == account && snaps[n - 1].timestamp_ns
            <= snaps[k].timestamp_ns));
        lemma_latest_is_snapshot(snaps, account, k, n - 1);
    }
}

/// Reconstructing an account at the instant of one of its snapshots gives
/// that snapshot's balance, provided no later snapshot of the account in the
/// window is at or before that instant.
pub proof fn law_snapshot_instant_is_exact(
    snaps: Seq<SnapshotRecord>,
    wal: Seq<WalEntry>,
    k: int,
)
    requires
        0 <= k < snaps.len(),
        forall|j: int|
            k < j < snaps.len() ==> !(#[trigger] snaps[j].account_id == snaps[k].account_id
                && snaps[j].timestamp_ns <= snaps[k].timestamp_ns),
    ensures
        balance_at(snaps, wal, snaps[k].account_id, snaps[k].timestamp_ns) == snaps[k].balance,
{
    lemma_latest_is_snapshot(snaps, snaps[k].account_id, k, snaps.len() as int);
    lemma_replay_empty_window(wal, snaps[k].balance, snaps[k].timestamp_ns);
}

/// Events logged after the target instant never change the balance
/// reconstructed for that instant.
pub proof fn law_later_events_do_not_matter(
    snaps: Seq<SnapshotRecord>,
    wal: Seq<WalEntry>,
    e: WalEntry,
    account: u32,
    target: u64,
)
    requires
        e.timestamp_ns > target,
    ensures
        balance_at(snaps, wal.push(e), account, target) == balance_at(snaps, wal, account, target),
{
    assert(wal.push(e).drop_last() =~= wal);
}

/// One log entry moves the balance by exactly its signed delta when it lies
/// in the replay window (after the snapshot instant, at or before the
/// target) and the result stays within `u64`; outside the window it changes
/// nothing; otherwise the balance clamps at zero or at `u64::MAX`.
pub proof fn law_entry_moves_balance_by_delta(e: WalEntry, b: u64, start: u64, target: u64)
    ensures
        start < e.timestamp_ns <= target && 0 <= b + e.delta <= u64::MAX ==> replay(
            seq![e],
            b,
            start,
            target,
        ) == b + e.delta,
        start < e.timestamp_ns <= target && b + e.delta < 0 ==> replay(seq![e], b, start, target)
            == 0,
        start < e.timestamp_ns <= target && b + e.delta > u64::MAX ==> replay(
            seq![e],
            b,
            start,
            target,
        ) == u64::MAX,
        !(start < e.timestamp_ns <= target) ==> replay(seq![e], b, start, target) == b,
{
    assert(seq![e].drop_last() =~= Seq::<WalEntry>::empty());
    assert(seq![e].last() == e);
    assert(replay(Seq::<WalEntry>::empty(), b, start, target) == b);
}

/// Without saturation, replaying a log adds up the deltas of the entries in
/// the window: appending an in-window entry moves the result by its delta.
pub proof fn law_replay_adds_deltas(
    wal: Seq<WalEntry>,
    e: WalEntry,
    b: u64,
    start: u64,
    target: u64,
)
    requires
        start < e.timestamp_ns <= target,
        0 <= replay(wal, b, start, target) + e.delta <= u64::MAX,
    ensures
        replay(wal.push(e), b, start, target) == replay(wal, b, start, target) + e.delta,
{
    assert(wal.push(e).drop_last() =~= wal);
    assert(wal.push(e).last() == e);
}

/// The snapshot a reconstruction starts from is the latest one of the
/// account at or before the target: it belongs to the account, is at or
/// before the target, and no later snapshot in the window is both; when
/// there is none, the account has no snapshot at or before the target.
pub proof fn law_latest_snapshot_is_latest(
    snaps: Seq<SnapshotRecord>,
    account: u32,
    target: u64,
    n: int,
)
    requires
        0 <= n <= snaps.len(),
    ensures
        latest_snapshot(snaps, account, target, n) matches Some(s) ==> exists|k: int|
            0 <= k < n && snaps[k] == s && s.account_id == account && s.timestamp_ns <= target
                && forall|j: int|
                k < j < n ==> !(#[trigger] snaps[j].account_id == account && snaps[j].timestamp_ns
                    <= target),
        latest_snapshot(snaps, account, target, n) is None ==> forall|j: int|
            0 <= j < n ==> !(#[trigger] snaps[j].account_id == account && snaps[j].timestamp_ns
                <= target),
    decreases n,
{
    if n > 0 {
        law_latest_snapshot_is_latest(snaps, account, target, n - 1);
        if snaps[n - 1].account_id == account && snaps[n - 1].timestamp_ns <= target {
            assert(0 <= n - 1 < n && snaps[n - 1] == snaps[n - 1]);
        } else {
            match latest_snapshot(snaps, account, target, n - 1) {
                Some(s) => {
                    let k = choose|k: int|
                        0 <= k < n - 1 && snaps[k] == s && s.account_id == account && s.timestamp_ns
                            <= target && forall|j: int|
                            k < j < n - 1 ==> !(#[trigger] snaps[j].account_id == account
                                && snaps[j].timestamp_ns <= target);
                    assert(forall|j: int|
                        k < j < n ==> !(#[trigger] snaps[j].account_id == account
                            && snaps[j].timestamp_ns <= target));
                },
                None => {},
            }
        }
    }
}

/// Snapshots in timestamp order are partitioned at every instant, so the
/// exact reconstruction applies to them.
pub proof fn law_sorted_is_partitioned(snaps: Seq<SnapshotRecord>, target: u64)
    requires
        forall|i: int, j: int|
            0 <= i <= j < snaps.len() ==> #[trigger] snaps[i].timestamp_ns
                <= #[trigger] snaps[j].timestamp_ns,
    ensures
        partitioned_at(snaps, target),
{
}

/// Rebuilds account balances at arbitrary instants from periodic snapshots
/// and the write-ahead log.
pub struct TimeTravelReplayer<'a> {
    snapshots: &'a [SnapshotRecord],
    wal_entries: &'a [WalEntry],
}

impl<'a> TimeTravelReplayer<'a> {
    pub closed spec fn snapshots(&self) -> Seq<SnapshotRecord> {
        self.snapshots@
    }

    pub closed spec fn wal(&self) -> Seq<WalEntry> {
        self.wal_entries@
    }

    pub fn new(snapshots: &'a [SnapshotRecord], wal_entries: &'a [WalEntry]) -> (r: Self)
        ensures
            r.snapshots() == snapshots@,
            r.wal() == wal_entries@,
    {
        Self { snapshots, wal_entries }
    }

    /// The balance of `target_account` at `target_timestamp_ns`. Snapshots
    /// are expected in timestamp order; where they are not even partitioned
    /// at the target, the balance is rebuilt from the last snapshot of the
    /// account before some index of the window.
    pub fn reconstruct_balance(&self, target_account: u32, target_timestamp_ns: u64) -> (result:
        Option<u64>)
        ensures
            partitioned_at(self.snapshots(), target_timestamp_ns) ==> result == Some(
                balance_at(self.snapshots(), self.wal(), target_account, target_timestamp_ns),
            ),
            exists|p: int|
                0 <= p <= self.snapshots().len() && result == Some(
                    replay_from(
                        last_snapshot_before(self.snapshots(), target_account, p),
                        self.wal(),
                        target_timestamp_ns,
                    ),
                ),
    {
        let ghost snaps = self.snapshots@;
        let ghost wal = self.wal_entries@;
        let partition_idx = snapshot_partition_point(self.snapshots, target_timestamp_ns);

        // Latest snapshot of the account before the partition point.
        let mut found: Option<usize> = None;
        let mut i: usize = partition_idx;
        while i > 0
            invariant_except_break
                i <= partition_idx <= snaps.len(),
                snaps == self.snapshots@,
                found is None,
                last_snapshot_before(snaps, target_account, partition_idx as int)
                    == last_snapshot_before(snaps, target_account, i as int),
            ensures
                match found {
                    Some(k) => k < snaps.len() && last_snapshot_before(
                        snaps,
                        target_account,
                        partition_idx as int,
                    ) == Some(snaps[k as int]),
                    None => last_snapshot_before(snaps, target_account, partition_idx as int)
                        is None,
                },
            decreases i,
        {
            i -= 1;
            if self.snapshots[i].account_id == target_account {
                found = Some(i);
                break;
            }
        }

        let (mut current_balance, start_time) = match found {
            Some(k) => (self.snapshots[k].balance, self.snapshots[k].timestamp_ns),
            None => (0u64, 0u64),
        };
        let ghost start_balance = current_balance;
        proof {
            assert(replay_from(
                last_snapshot_before(snaps, target_account, partition_idx as int),
                wal,
                target_timestamp_ns,
            ) == replay(wal, start_balance, start_time, target_timestamp_ns));
        }

        // Forward replay of the log.
        let mut j: usize = 0;
        while j < self.wal_entries.len()
            invariant
                wal == self.wal_entries@,
                j <= wal.len(),
                current_balance == replay(
                    wal.take(j as int),
                    start_balance,
                    start_time,
                    target_timestamp_ns,
                ),
            decreases wal.len() - j,
        {
            let entry = self.wal_entries[j];
            proof {
                assert(wal.take(j + 1).drop_last() =~= wal.take(j as int));
                assert(wal.take(j + 1).last() == wal[j as int]);
            }
            if entry.timestamp_ns > start_time && entry.timestamp_ns <= target_timestamp_ns {
                if entry.delta > 0 {
                    current_balance = current_balance.saturating_add(entry.delta as u64);
                } else {
                    let amount: u64 = (0i128 - entry.delta as i128) as u64;
                    current_balance = current_balance.saturating_sub(amount);
                }
            }
            j += 1;
        }
        proof {
            assert(wal.take(wal.len() as int) =~= wal);
            if partitioned_at(snaps, target_timestamp_ns) {
                lemma_search_from_partition(
                    snaps,
                    target_account,
                    target_timestamp_ns,
                    partition_idx as int,
                    snaps.len() as int,
                );
            }
        }
        Some(current_balance)
    }
}

} // verus!
