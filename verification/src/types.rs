use vstd::prelude::*;

verus! {

/// Outcome of a volumetric reconciliation over an execution window.
#[derive(Debug, Clone, Copy, PartialEq, Eq, Structural)]
pub enum AuditResult {
    Success,
    VolumetricMismatch { delta: u64 },
    ComplianceBreach,
}

/// One executed trade as reported by the matching engine, with the volume
/// that the settlement engine reports as settled for it.
#[derive(Debug, Clone, Copy)]
pub struct AuditRecord {
    pub trade_id: u32,
    pub dec_volume: u64,
    pub dcse_settled_volume: u64,
    pub timestamp_ns: u64,
}

/// A historical balance of one account at one instant.
#[derive(Debug, Clone, Copy)]
pub struct SnapshotRecord {
    pub account_id: u32,
    pub balance: u64,
    pub timestamp_ns: u64,
}

/// A write-ahead-log entry: a signed balance change (positive for credit,
/// negative for debit) at one instant.
#[derive(Debug, Clone, Copy)]
pub struct WalEntry {
    pub trade_id: u32,
    pub delta: i64,
    pub timestamp_ns: u64,
}

} // verus!
