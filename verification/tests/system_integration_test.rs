use rafce::ipc::IpcRingBuffer;
use rafce::types::AuditRecord;

#[test]
fn test_grand_system_integration() {
    let mut ring_buffer = IpcRingBuffer::new(10_000).unwrap();
    let audit_record = AuditRecord {
        trade_id: 42,
        dec_volume: 100,
        dcse_settled_volume: 100,
        timestamp_ns: 123456789,
    };
    ring_buffer.push(&audit_record).unwrap();
    let mut record = None;
    for _ in 0..100 {
        if let Some(r) = ring_buffer.pop() {
            record = Some(r);
            break;
        }
    }
    assert_eq!(record.unwrap().dec_volume, 100);
}
