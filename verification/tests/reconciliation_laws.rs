use rafce::reconciliation::ComplianceAuditor;
use rafce::types::{AuditRecord, AuditResult};

fn rec(id: u32, dec: u64, dcse: u64) -> AuditRecord {
    AuditRecord { trade_id: id, dec_volume: dec, dcse_settled_volume: dcse, timestamp_ns: id as u64 }
}

#[test]
fn empty_window_conserves() {
    let records: Vec<AuditRecord> = Vec::new();
    assert_eq!(ComplianceAuditor::new(&records).verify_conservation_invariants(), AuditResult::Success);
}

#[test]
fn settlement_shortfall_reports_delta() {
    let records = vec![rec(1, 100, 60), rec(2, 50, 50)];
    assert_eq!(
        ComplianceAuditor::new(&records).verify_conservation_invariants(),
        AuditResult::VolumetricMismatch { delta: 40 }
    );
}

#[test]
fn settlement_surplus_reports_zero_delta() {
    let records = vec![rec(1, 10, 60)];
    assert_eq!(
        ComplianceAuditor::new(&records).verify_conservation_invariants(),
        AuditResult::VolumetricMismatch { delta: 0 }
    );
}

#[test]
fn wash_trade_first_is_breach_even_with_huge_later_volumes() {
    let records = vec![rec(1, 5, 0), rec(2, u64::MAX, u64::MAX), rec(3, u64::MAX, u64::MAX)];
    assert_eq!(
        ComplianceAuditor::new(&records).verify_conservation_invariants(),
        AuditResult::ComplianceBreach
    );
}

#[test]
fn unexecuted_unsettled_record_is_not_a_wash_trade() {
    let records = vec![rec(1, 0, 0), rec(2, 7, 7)];
    assert_eq!(ComplianceAuditor::new(&records).verify_conservation_invariants(), AuditResult::Success);
}

#[test]
fn clean_windows_compose() {
    let a = vec![rec(1, 10, 4), rec(2, 2, 8)];
    let b = vec![rec(3, 9, 9)];
    let mut both = a.clone();
    both.extend_from_slice(&b);
    assert_eq!(ComplianceAuditor::new(&a).verify_conservation_invariants(), AuditResult::Success);
    assert_eq!(ComplianceAuditor::new(&b).verify_conservation_invariants(), AuditResult::Success);
    assert_eq!(ComplianceAuditor::new(&both).verify_conservation_invariants(), AuditResult::Success);
}

#[test]
fn wash_trade_prepended_is_breach() {
    let records = vec![rec(9, 3, 0), rec(1, 10, 10)];
    assert_eq!(
        ComplianceAuditor::new(&records).verify_conservation_invariants(),
        AuditResult::ComplianceBreach
    );
}
