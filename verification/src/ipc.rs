use vstd::prelude::*;
use crate::types::AuditRecord;

verus! {

/// Size in bytes of the shared header: three cache lines, one for each of
/// the producer index, the consumer index and the auditor heartbeat.
pub const HEADER_SIZE: usize = 192;

/// Size in bytes of one record slot (`u32` trade id padded to 8 bytes, then
/// three `u64` fields).
pub const RECORD_SIZE: usize = 32;

/// The shared region is mapped in 2 MiB huge pages.
pub const HUGE_PAGE_SIZE: usize = 2097152;

/// Beyond this stall the consumer counts as dead (500 milliseconds).
pub const MAX_HEARTBEAT_STALL_NS: u64 = 500_000_000;

/// Message of the refusal when the buffer is at its fill threshold.
pub const CIRCUIT_BREAKER_MESSAGE: &'static str = "Circuit Breaker Triggered: Buffer 90% Full";

/// A sequence counter on a cache line of its own.
pub struct CacheAlignedIndex {
    pub sequence: usize,
}

/// The consumer's last heartbeat, on a cache line of its own.
pub struct CacheAlignedHeartbeat {
    pub timestamp_ns: u64,
}

/// The header of the shared ring: producer index, consumer index and the
/// consumer's heartbeat. Records follow it in the shared region.
pub struct RingBufferHeader {
    pub producer_idx: CacheAlignedIndex,
    pub consumer_idx: CacheAlignedIndex,
    pub rafce_heartbeat: CacheAlignedHeartbeat,
}

/// Bytes the header and `capacity` record slots occupy.
pub open spec fn region_bytes(capacity: nat) -> nat {
    (HEADER_SIZE + capacity * RECORD_SIZE) as nat
}

/// `size` is the region for `capacity` slots rounded up to whole huge pages.
pub open spec fn is_region_size(capacity: nat, size: nat) -> bool {
    &&& size % (HUGE_PAGE_SIZE as nat) == 0
    &&& region_bytes(capacity) <= size < region_bytes(capacity) + HUGE_PAGE_SIZE
}

/// The sizes computed for `capacity` slots stay within `usize`.
pub open spec fn region_fits(capacity: nat) -> bool {
    region_bytes(capacity) + HUGE_PAGE_SIZE - 1 <= usize::MAX
}

/// Number of pending records at which the producer is refused (90 %).
pub open spec fn breaker_threshold(capacity: nat) -> nat {
    capacity * 90 / 100
}

/// A consumer is healthy unless it has beaten at least once and its last
/// beat is more than the allowed stall behind `now`.
pub open spec fn healthy(last_pulse: u64, now: u64) -> bool {
    !(last_pulse > 0 && now - last_pulse > MAX_HEARTBEAT_STALL_NS)
}

/// The size of the shared region for `capacity` record slots: header and
/// slots rounded up to a whole number of huge pages.
pub fn mapped_region_size(capacity: usize) -> (size: usize)
    requires
        region_fits(capacity as nat),
    ensures
        is_region_size(capacity as nat, size as nat),
{
    let total_size = HEADER_SIZE + capacity * RECORD_SIZE;
    let padded = total_size + (HUGE_PAGE_SIZE - 1);
    let pages = padded / HUGE_PAGE_SIZE;
    proof {
        let h = HUGE_PAGE_SIZE as int;
        vstd::arithmetic::div_mod::lemma_fundamental_div_mod(padded as int, h);
        vstd::arithmetic::div_mod::lemma_mod_multiples_basic(pages as int, h);
        assert(h * pages == pages * h) by (nonlinear_arith);
    }
    pages * HUGE_PAGE_SIZE
}

/// What the ring holds, seen from outside: its slot count, the records
/// pushed and not yet popped (oldest first), how many records were ever
/// pushed and popped, and the consumer's last heartbeat.
pub struct RingState {
    pub capacity: nat,
    pub pending: Seq<AuditRecord>,
    pub produced: nat,
    pub consumed: nat,
    pub heartbeat: u64,
}

impl RingState {
    /// The producer may push: fewer records pending than the threshold.
    pub open spec fn can_accept(self) -> bool {
        self.pending.len() < breaker_threshold(self.capacity)
    }

    pub open spec fn after_push(self, r: AuditRecord) -> RingState {
        RingState {
            capacity: self.capacity,
            pending: self.pending.push(r),
            produced: self.produced + 1,
            consumed: self.consumed,
            heartbeat: self.heartbeat,
        }
    }

    pub open spec fn after_pop(self) -> RingState {
        RingState {
            capacity: self.capacity,
            pending: self.pending.drop_first(),
            produced: self.produced,
            consumed: self.consumed + 1,
            heartbeat: self.heartbeat,
        }
    }

    pub open spec fn with_heartbeat(self, t: u64) -> RingState {
        RingState {
            capacity: self.capacity,
            pending: self.pending,
            produced: self.produced,
            consumed: self.consumed,
            heartbeat: t,
        }
    }
}

/// The single-producer/single-consumer audit ring: the producer (matching
/// engine) appends records, the consumer (auditor) takes them oldest first,
/// and the producer is refused once 90 % of the slots hold pending records.
pub struct IpcRingBuffer {
    header: RingBufferHeader,
    slots: Vec<AuditRecord>,
    size: usize,
    capacity: usize,
}

impl View for IpcRingBuffer {
    type V = RingState;

    closed spec fn view(&self) -> RingState {
        let p = self.header.producer_idx.sequence as int;
        let c = self.header.consumer_idx.sequence as int;
        RingState {
            capacity: self.capacity as nat,
            pending: Seq::new(
                (p - c) as nat,
                |i: int| self.slots@[(c + i) % (self.capacity as int)],
            ),
            produced: p as nat,
            consumed: c as nat,
            heartbeat: self.header.rafce_heartbeat.timestamp_ns,
        }
    }
}

impl IpcRingBuffer {
    /// The ring is consistent: one slot per record of capacity, the
    /// consumer never ahead of the producer, never more pending than the
    /// threshold, and the region size matches the capacity.
    pub closed spec fn wf(&self) -> bool {
        &&& self.slots@.len() == self.capacity
        &&& self.capacity * 90 <= usize::MAX
        &&& self.header.consumer_idx.sequence <= self.header.producer_idx.sequence
        &&& self.header.producer_idx.sequence - self.header.consumer_idx.sequence
            <= breaker_threshold(self.capacity as nat)
        &&& is_region_size(self.capacity as nat, self.size as nat)
    }

    pub closed spec fn region_size(&self) -> nat {
        self.size as nat
    }

    /// A ring of `capacity` record slots, empty, with no heartbeat yet.
    /// Refused when `capacity` is so large that the fill threshold cannot
    /// be computed (no such region can be mapped either).
    pub fn new(capacity: usize) -> (result: Result<Self, IpcError>)
        requires
            region_fits(capacity as nat),
        ensures
            capacity * 90 > usize::MAX <==> result is Err,
            result matches Ok(ring) ==> {
                &&& ring.wf()
                &&& ring@.capacity == capacity
                &&& ring@.pending == Seq::<AuditRecord>::empty()
                &&& ring@.produced == 0
                &&& ring@.consumed == 0
                &&& ring@.heartbeat == 0
                &&& is_region_size(capacity as nat, ring.region_size())
            },
            result matches Err(e) ==> e == IpcError::CapacityTooLarge,
    {
        if capacity > usize::MAX / 90 {
            return Err(IpcError::CapacityTooLarge);
        }
        let size = mapped_region_size(capacity);
        let mut slots: Vec<AuditRecord> = Vec::new();
        while slots.len() < capacity
            invariant
                slots@.len() <= capacity,
            decreases capacity - slots@.len(),
        {
            slots.push(AuditRecord { trade_id: 0, dec_volume: 0, dcse_settled_volume: 0, timestamp_ns: 0 });
        }
        let ring = IpcRingBuffer {
            header: RingBufferHeader {
                producer_idx: CacheAlignedIndex { sequence: 0 },
                consumer_idx: CacheAlignedIndex { sequence: 0 },
                rafce_heartbeat: CacheAlignedHeartbeat { timestamp_ns: 0 },
            },
            slots,
            size,
            capacity,
        };
        assert(ring@.pending =~= Seq::<AuditRecord>::empty());
        Ok(ring)
    }

    /// Size in bytes of the shared region that holds this ring.
    pub fn mapped_size(&self) -> (size: usize)
        ensures
            size == self.region_size(),
    {
        self.size
    }

    /// How many records were ever pushed.
    pub fn pushed_count(&self) -> (n: usize)
        ensures
            n == self@.produced,
    {
        self.header.producer_idx.sequence
    }

    /// Number of record slots.
    pub fn capacity(&self) -> (c: usize)
        ensures
            c == self@.capacity,
    {
        self.capacity
    }

    /// Consumer side: records `current_time_ns` as its latest heartbeat.
    pub fn emit_heartbeat(&mut self, current_time_ns: u64)
        requires
            old(self).wf(),
        ensures
            final(self).wf(),
            final(self)@ == old(self)@.with_heartbeat(current_time_ns),
            final(self).region_size() == old(self).region_size(),
    {
        self.header.rafce_heartbeat.timestamp_ns = current_time_ns;
        assert(self@.pending =~= old(self)@.pending);
    }

    /// Producer side: is the consumer alive at `current_time_ns`? It is,
    /// unless it has beaten at least once and its last beat is more than
    /// 500 ms old.
    pub fn check_auditor_health(&self, current_time_ns: u64) -> (alive: bool)
        ensures
            alive == healthy(self@.heartbeat, current_time_ns),
    {
        let last_pulse = self.header.rafce_heartbeat.timestamp_ns;
        if last_pulse > 0 && current_time_ns.saturating_sub(last_pulse) > MAX_HEARTBEAT_STALL_NS {
            return false;
        }
        true
    }

    /// Producer side: appends `record`, or refuses it when the pending
    /// records have reached 90 % of the slots (the circuit breaker).
    pub fn push(&mut self, record: &AuditRecord) -> (result: Result<(), &'static str>)
        requires
            old(self).wf(),
            old(self)@.can_accept() ==> old(self)@.produced < usize::MAX,
        ensures
            final(self).wf(),
            final(self).region_size() == old(self).region_size(),
            old(self)@.can_accept() ==> result is Ok && final(self)@ == old(self)@.after_push(
                *record,
            ),
            !old(self)@.can_accept() ==> final(self)@ == old(self)@ && (result matches Err(m)
                && m@ == CIRCUIT_BREAKER_MESSAGE@),
    {
        let head = self.header.producer_idx.sequence;
        let tail = self.header.consumer_idx.sequence;
        let used_slots = head.wrapping_sub(tail);
        if used_slots >= (self.capacity * 90) / 100 {
            return Err(CIRCUIT_BREAKER_MESSAGE);
        }
        let ghost old_view = self@;
        let ghost old_slots = self.slots@;
        let slot_idx = head % self.capacity;
        self.slots.set(slot_idx, *record);
        self.header.producer_idx.sequence = head.wrapping_add(1);
        proof {
            let cap = self.capacity as int;
            let c = tail as int;
            let p = head as int;
            assert forall|i: int| 0 <= i < p - c implies #[trigger] self@.pending[i]
                == old_view.pending[i] by {
                vstd::arithmetic::div_mod::lemma_mod_equivalence(p, c + i, cap);
                vstd::arithmetic::div_mod::lemma_small_mod((p - (c + i)) as nat, cap as nat);
                assert((c + i) % cap != p % cap);
            }
            assert(self@.pending[p - c] == *record);
            assert(self@.pending =~= old_view.pending.push(*record));
        }
        Ok(())
    }

    /// Consumer side: takes the oldest pending record, if any.
    pub fn pop(&mut self) -> (result: Option<AuditRecord>)
        requires
            old(self).wf(),
        ensures
            final(self).wf(),
            final(self).region_size() == old(self).region_size(),
            old(self)@.pending.len() == 0 ==> result is None && final(self)@ == old(self)@,
            old(self)@.pending.len() > 0 ==> result == Some(old(self)@.pending[0])
                && final(self)@ == old(self)@.after_pop(),
    {
        let tail = self.header.consumer_idx.sequence;
        let head = self.header.producer_idx.sequence;
        if tail == head {
            return None;
        }
        let ghost old_view = self@;
        let slot_idx = tail % self.capacity;
        let record = self.slots[slot_idx];
        self.header.consumer_idx.sequence = tail.wrapping_add(1);
        proof {
            let cap = self.capacity as int;
            let c = tail as int;
            assert forall|i: int| 0 <= i < old_view.pending.len() - 1 implies #[trigger] self@.pending[i]
                == old_view.pending[i + 1] by {
                assert(c + 1 + i == c + (i + 1));
            }
            assert(self@.pending =~= old_view.pending.drop_first());
        }
        Some(record)
    }
}

/// The circuit breaker bounds the backlog: a consistent ring never holds
/// more pending records than 90 % of its slots.
pub proof fn law_backlog_bounded(ring: &IpcRingBuffer)
    requires
        ring.wf(),
    ensures
        ring@.pending.len() <= breaker_threshold(ring@.capacity),
        ring@.pending.len() <= ring@.capacity,
{
}

/// First in, first out: pushing never changes which record the next pop
/// returns, unless the ring was empty, in which case it returns the pushed
/// record; and a push followed by a pop leaves the same records pending as
/// the pop followed by the push.
pub proof fn law_fifo(v: RingState, r: AuditRecord)
    ensures
        v.after_push(r).pending[0] == (if v.pending.len() == 0 {
            r
        } else {
            v.pending[0]
        }),
        v.pending.len() > 0 ==> v.after_push(r).after_pop().pending == v.after_pop().after_push(
            r,
        ).pending,
        v.pending.len() == 0 ==> v.after_push(r).after_pop().pending == v.pending,
{
    if v.pending.len() > 0 {
        assert(v.after_push(r).after_pop().pending =~= v.after_pop().after_push(r).pending);
    } else {
        assert(v.after_push(r).after_pop().pending =~= v.pending);
    }
}

/// Records come out in the order they went in: pushing a sequence of
/// records and then popping as many returns them in that order.
pub open spec fn push_all(v: RingState, rs: Seq<AuditRecord>) -> RingState
    decreases rs.len(),
{
    if rs.len() == 0 {
        v
    } else {
        push_all(v, rs.drop_last()).after_push(rs.last())
    }
}

pub proof fn law_push_all_appends(v: RingState, rs: Seq<AuditRecord>)
    ensures
        push_all(v, rs).pending == v.pending + rs,
        push_all(v, rs).produced == v.produced + rs.len(),
        push_all(v, rs).consumed == v.consumed,
    decreases rs.len(),
{
    if rs.len() == 0 {
        assert(v.pending + rs =~= v.pending);
    } else {
        law_push_all_appends(v, rs.drop_last());
        assert(v.pending + rs.drop_last() + seq![rs.last()] =~= v.pending + rs);
    }
}

/// A consumer that has just beaten is healthy, and one that never beat is
/// healthy at any instant.
pub proof fn law_fresh_heartbeat_is_healthy(v: RingState, t: u64, now: u64)
    ensures
        healthy(v.with_heartbeat(t).heartbeat, t),
        healthy(0, now),
        t <= now <= t + MAX_HEARTBEAT_STALL_NS ==> healthy(v.with_heartbeat(t).heartbeat, now),
{
}

/// The breaker trips at 90 %: a push is accepted exactly when the backlog
/// after it stays within 90 % of the slots, i.e. `100 * (pending + 1) <=
/// 90 * capacity`; a ring holding `floor(90 % of capacity)` pending records
/// refuses.
pub proof fn law_breaker_trips_at_ninety_percent(v: RingState)
    ensures
        v.can_accept() <==> 100 * (v.pending.len() + 1) <= 90 * v.capacity,
        v.pending.len() == v.capacity * 90 / 100 ==> !v.can_accept(),
        100 * v.pending.len() >= 90 * v.capacity ==> !v.can_accept(),
{
    let c = v.capacity as int;
    let n = v.pending.len() as int;
    assert(n < c * 90 / 100 <==> 100 * (n + 1) <= 90 * c) by (nonlinear_arith)
        requires
            c >= 0,
            n >= 0,
    {
        vstd::arithmetic::div_mod::lemma_fundamental_div_mod(c * 90, 100);
    }
}

/// A consumer that has beaten and then stayed silent for more than 500 ms
/// is dead at `now`, however long the silence; and once dead it stays dead
/// at every later instant until it beats again.
pub proof fn law_stalled_consumer_is_dead(last: u64, now: u64, later: u64)
    ensures
        last > 0 && now >= last && now - last > 500_000_000 ==> !healthy(last, now),
        !healthy(last, now) && now <= later ==> !healthy(last, later),
        last <= now && now - last <= 500_000_000 ==> healthy(last, now),
        now < last ==> healthy(last, now),
{
}

/// Why a ring could not be set up.
#[derive(Debug, Clone, Copy, PartialEq, Eq, Structural)]
pub enum IpcError {
    CapacityTooLarge,
}

} // verus!
