use vstd::prelude::*;
use crate::types::{AuditRecord, AuditResult};

verus! {

/// A record whose execution reported volume that settlement reports as
/// nothing at all: the pattern that wash trading leaves in the logs.
pub open spec fn is_wash_trade(r: AuditRecord) -> bool {
    r.dec_volume > 0 && r.dcse_settled_volume == 0
}

pub open spec fn has_wash_trade(s: Seq<AuditRecord>) -> bool {
    exists|i: int| 0 <= i < s.len() && #[trigger] is_wash_trade(s[i])
}

/// Total executed volume of a window.
pub open spec fn executed_total(s: Seq<AuditRecord>) -> nat
    decreases s.len(),
{
    if s.len() == 0 {
        0
    } else {
        executed_total(s.drop_last()) + s.last().dec_volume as nat
    }
}

/// Total settled volume of a window.
pub open spec fn settled_total(s: Seq<AuditRecord>) -> nat
    decreases s.len(),
{
    if s.len() == 0 {
        0
    } else {
        settled_total(s.drop_last()) + s.last().dcse_settled_volume as nat
    }
}

/// The verdict on a window: any wash trade is a breach; otherwise the
/// window conserves volume exactly when both totals agree, and a mismatch
/// reports by how much execution exceeds settlement (zero if it does not).
pub open spec fn reconcile(s: Seq<AuditRecord>) -> AuditResult {
    if has_wash_trade(s) {
        AuditResult::ComplianceBreach
    } else if executed_total(s) == settled_total(s) {
        AuditResult::Success
    } else {
        AuditResult::VolumetricMismatch {
            delta: if executed_total(s) > settled_total(s) {
                (executed_total(s) - settled_total(s)) as u64
            } else {
                0
            },
        }
    }
}

/// The running totals stay within `u64` over every wash-free prefix: the
/// scan adds up exactly these prefixes before it stops.
pub open spec fn totals_fit(s: Seq<AuditRecord>) -> bool {
    forall|k: int|
        0 <= k <= s.len() && (forall|j: int| 0 <= j < k ==> !#[trigger] is_wash_trade(s[j]))
            ==> executed_total(#[trigger] s.take(k)) <= u64::MAX && settled_total(s.take(k))
            <= u64::MAX
}

/// Totals over two consecutive windows add up.
pub proof fn lemma_totals_concat(a: Seq<AuditRecord>, b: Seq<AuditRecord>)
    ensures
        executed_total(a + b) == executed_total(a) + executed_total(b),
        settled_total(a + b) == settled_total(a) + settled_total(b),
    decreases b.len(),
{
    if b.len() == 0 {
        assert(a + b =~= a);
    } else {
        lemma_totals_concat(a, b.drop_last());
        assert((a + b).drop_last() =~= a + b.drop_last());
        assert((a + b).last() == b.last());
    }
}

/// A wash trade anywhere in a window makes the window a compliance breach,
/// whatever the volumes of the other records.
pub proof fn law_wash_trade_is_breach(s: Seq<AuditRecord>, r: AuditRecord)
    requires
        is_wash_trade(r),
    ensures
        reconcile(s.push(r)) == AuditResult::ComplianceBreach,
        reconcile(seq![r] + s) == AuditResult::ComplianceBreach,
{
    assert(is_wash_trade(s.push(r)[s.len() as int]));
    assert(is_wash_trade((seq![r] + s)[0]));
}

/// Conservation composes: two windows that each reconcile cleanly
/// reconcile cleanly when audited as one.
pub proof fn law_success_composes(a: Seq<AuditRecord>, b: Seq<AuditRecord>)
    requires
        reconcile(a) == AuditResult::Success,
        reconcile(b) == AuditResult::Success,
    ensures
        reconcile(a + b) == AuditResult::Success,
{
    lemma_totals_concat(a, b);
    if has_wash_trade(a + b) {
        let i = choose|i: int| 0 <= i < (a + b).len() && #[trigger] is_wash_trade((a + b)[i]);
        if i < a.len() {
            assert(is_wash_trade(a[i]));
        } else {
            assert(is_wash_trade(b[i - a.len()]));
        }
    }
}

/// The totals of a one-record window are that record's volumes; with
/// `lemma_totals_concat` this fixes the totals of every window.
pub proof fn law_single_record_totals(r: AuditRecord)
    ensures
        executed_total(seq![r]) == r.dec_volume,
        settled_total(seq![r]) == r.dcse_settled_volume,
{
    assert(seq![r].drop_last() =~= Seq::<AuditRecord>::empty());
    assert(seq![r].last() == r);
    assert(executed_total(Seq::<AuditRecord>::empty()) == 0);
    assert(settled_total(Seq::<AuditRecord>::empty()) == 0);
}

/// A window is a compliance breach exactly when some record reports
/// executed volume with nothing settled.
pub proof fn law_breach_iff_unsettled_execution(s: Seq<AuditRecord>)
    ensures
        reconcile(s) == AuditResult::ComplianceBreach <==> exists|i: int|
            0 <= i < s.len() && #[trigger] s[i].dec_volume > 0 && s[i].dcse_settled_volume == 0,
{
    if exists|i: int|
        0 <= i < s.len() && #[trigger] s[i].dec_volume > 0 && s[i].dcse_settled_volume == 0 {
        let i = choose|i: int|
            0 <= i < s.len() && #[trigger] s[i].dec_volume > 0 && s[i].dcse_settled_volume == 0;
        assert(is_wash_trade(s[i]));
    }
}

/// Without a breach, a window conserves volume exactly when executed and
/// settled totals agree; a mismatch reports the excess of execution over
/// settlement, or zero when settlement is the larger.
pub proof fn law_mismatch_delta(s: Seq<AuditRecord>)
    requires
        reconcile(s) != AuditResult::ComplianceBreach,
        executed_total(s) <= u64::MAX,
    ensures
        reconcile(s) == AuditResult::Success <==> executed_total(s) == settled_total(s),
        reconcile(s) matches AuditResult::VolumetricMismatch { delta } ==> {
            &&& executed_total(s) != settled_total(s)
            &&& executed_total(s) >= settled_total(s) ==> delta + settled_total(s)
                == executed_total(s)
            &&& executed_total(s) < settled_total(s) ==> delta == 0
        },
{
}

/// Checks an execution window for volume conservation.
pub struct ComplianceAuditor<'a> {
    record_buffer: &'a [AuditRecord],
}

impl<'a> ComplianceAuditor<'a> {
    pub closed spec fn records(&self) -> Seq<AuditRecord> {
        self.record_buffer@
    }

    pub fn new(buffer: &'a [AuditRecord]) -> (auditor: Self)
        ensures
            auditor.records() == buffer@,
    {
        Self { record_buffer: buffer }
    }

    /// Single pass over the window: stops at the first wash trade, otherwise
    /// compares total executed against total settled volume.
    pub fn verify_conservation_invariants(&self) -> (result: AuditResult)
        requires
            totals_fit(self.records()),
        ensures
            result == reconcile(self.records()),
    {
        let mut idx: usize = 0;
        let len = self.record_buffer.len();
        let mut total_dec: u64 = 0;
        let mut total_dcse: u64 = 0;
        let ghost s = self.record_buffer@;

        while idx < len
            invariant
                s == self.record_buffer@,
                len == s.len(),
                idx <= len,
                totals_fit(s),
                forall|j: int| 0 <= j < idx ==> !#[trigger] is_wash_trade(s[j]),
                total_dec == executed_total(s.take(idx as int)),
                total_dcse == settled_total(s.take(idx as int)),
            decreases len - idx,
        {
            let record = &self.record_buffer[idx];
            if record.dec_volume > 0 && record.dcse_settled_volume == 0 {
                assert(is_wash_trade(s[idx as int]));
                return AuditResult::ComplianceBreach;
            }
            assert(s.take(idx + 1).drop_last() =~= s.take(idx as int));
            assert(s.take(idx + 1).last() == s[idx as int]);
            assert(forall|j: int| 0 <= j < idx + 1 ==> !#[trigger] is_wash_trade(s[j]));
            assert(executed_total(s.take(idx + 1)) <= u64::MAX);
            total_dec += record.dec_volume;
            total_dcse += record.dcse_settled_volume;
            idx += 1;
        }
        assert(s.take(len as int) =~= s);
        assert(!has_wash_trade(s));
        if total_dec == total_dcse {
            AuditResult::Success
        } else {
            AuditResult::VolumetricMismatch { delta: total_dec.saturating_sub(total_dcse) }
        }
    }
}

} // verus!
