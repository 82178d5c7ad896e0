use rafce::reconciliation::ComplianceAuditor;
use rafce::types::{AuditRecord, AuditResult};

fn build_window(dec_volumes: &[u64], dcse_volumes: &[u64]) -> (Vec<AuditRecord>, u64, u64) {
    let len = std::cmp::max(dec_volumes.len(), dcse_volumes.len());
    let mut records = Vec::with_capacity(len);
    let mut expected_dec_total: u64 = 0;
    let mut expected_dcse_total: u64 = 0;
    for i in 0..len {
        let dec_v = *dec_volumes.get(i).unwrap_or(&0);
        let dcse_v = *dcse_volumes.get(i).unwrap_or(&0);
        if dec_v > 0 && dcse_v == 0 {
            continue;
        }
        expected_dec_total += dec_v;
        expected_dcse_total += dcse_v;
        records.push(AuditRecord {
            trade_id: i as u32,
            dec_volume: dec_v,
            dcse_settled_volume: dcse_v,
            timestamp_ns: i as u64,
        });
    }
    (records, expected_dec_total, expected_dcse_total)
}

fn check_conservation(dec_volumes: &[u64], dcse_volumes: &[u64]) {
    let (records, expected_dec_total, expected_dcse_total) = build_window(dec_volumes, dcse_volumes);
    let auditor = ComplianceAuditor::new(&records);
    let result = auditor.verify_conservation_invariants();
    if expected_dec_total == expected_dcse_total {
        assert_eq!(result, AuditResult::Success);
    } else {
        assert_eq!(
            result,
            AuditResult::VolumetricMismatch {
                delta: expected_dec_total.saturating_sub(expected_dcse_total)
            }
        );
    }
}

#[test]
fn test_conservation_invariants() {
    check_conservation(&[], &[]);
    check_conservation(&[0, 5, 7], &[0, 5, 7]);
    check_conservation(&[10, 20, 30], &[30, 20, 10]);
    check_conservation(&[999, 1, 0, 500], &[1, 999]);
    check_conservation(&[1, 2, 3], &[4, 5, 6, 7, 8]);
    check_conservation(&[100, 200, 300, 0, 0], &[50, 50, 50, 1, 2]);
    check_conservation(&[0, 0, 0], &[0, 3, 0]);
}

fn check_wash_trade(dec_vol: u64, padding: &[(u64, u64)]) {
    let mut records = Vec::new();
    for (i, (d, s)) in padding.iter().enumerate() {
        records.push(AuditRecord {
            trade_id: i as u32,
            dec_volume: *d,
            dcse_settled_volume: *s,
            timestamp_ns: 0,
        });
    }
    records.push(AuditRecord {
        trade_id: 999,
        dec_volume: dec_vol,
        dcse_settled_volume: 0,
        timestamp_ns: 100,
    });
    let auditor = ComplianceAuditor::new(&records);
    assert_eq!(auditor.verify_conservation_invariants(), AuditResult::ComplianceBreach);
}

#[test]
fn test_wash_trade_detection() {
    check_wash_trade(1, &[]);
    check_wash_trade(999, &[(1, 1)]);
    check_wash_trade(500, &[(10, 20), (999, 1), (3, 3)]);
    check_wash_trade(42, &[(1, 999); 49]);
}
