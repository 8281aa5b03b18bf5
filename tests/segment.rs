use worker_storage::segment::{MemorySegmentWriter, OffsetIdAssigner, SegmentWriter};

fn visible<R: Clone>(writer: &MemorySegmentWriter<R>) -> Vec<(R, Option<u32>)> {
    let mut out = Vec::new();
    for i in 0..writer.visible_len() {
        let (record, id) = writer.visible_record(i);
        out.push((record.clone(), id));
    }
    out
}

#[test]
fn commit_makes_records_visible() {
    let mut writer: MemorySegmentWriter<String> = MemorySegmentWriter::new();
    writer.begin_transaction();
    let records = vec!["r0".to_string(), "r1".to_string()];
    let ids = writer.assign_offset_ids(&records);
    assert_eq!(ids, vec![Some(0), Some(1)]);
    writer.write_records(records, ids);
    assert!(visible(&writer).is_empty());
    writer.commit_transaction();
    assert_eq!(
        visible(&writer),
        vec![("r0".to_string(), Some(0)), ("r1".to_string(), Some(1))]
    );
}

#[test]
fn rollback_discards_records() {
    let mut writer: MemorySegmentWriter<String> = MemorySegmentWriter::new();
    writer.begin_transaction();
    writer.write_records(vec!["r0".to_string()], vec![Some(0)]);
    writer.commit_transaction();
    writer.begin_transaction();
    writer.write_records(vec!["r1".to_string(), "r2".to_string()], vec![Some(1), None]);
    writer.rollback_transaction();
    assert_eq!(visible(&writer), vec![("r0".to_string(), Some(0))]);
    assert!(!writer.is_in_transaction());
}

#[test]
fn offset_ids_continue_across_batches() {
    let mut writer: MemorySegmentWriter<u32> = MemorySegmentWriter::new();
    writer.begin_transaction();
    let first = vec![10u32, 11, 12];
    let ids = writer.assign_offset_ids(&first);
    assert_eq!(ids.len(), first.len());
    writer.write_records(first, ids);
    let second = vec![20u32, 21];
    let ids = writer.assign_offset_ids(&second);
    assert_eq!(ids, vec![Some(3), Some(4)]);
    writer.write_records(second, ids);
    writer.commit_transaction();
    assert_eq!(
        visible(&writer),
        vec![(10, Some(0)), (11, Some(1)), (12, Some(2)), (20, Some(3)), (21, Some(4))]
    );
}

#[test]
fn offset_ids_of_empty_batch() {
    let writer: MemorySegmentWriter<u32> = MemorySegmentWriter::new();
    assert!(writer.assign_offset_ids(&Vec::new()).is_empty());
}

#[test]
fn writes_in_one_transaction_accumulate() {
    let mut writer: MemorySegmentWriter<u32> = MemorySegmentWriter::new();
    writer.begin_transaction();
    writer.write_records(vec![1], vec![Some(0)]);
    writer.write_records(vec![2], vec![None]);
    assert!(writer.is_in_transaction());
    writer.commit_transaction();
    assert_eq!(visible(&writer), vec![(1, Some(0)), (2, None)]);
}
