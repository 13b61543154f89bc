use rea_agent::batch::{assemble_batch, FLUSH_THRESHOLD_BYTES};
use rea_agent::queue::{DiskQueue, StoredEntry};

fn entry(name: &[u8], data: Vec<u8>) -> StoredEntry {
    StoredEntry { name: name.to_vec(), data }
}

#[test]
fn pop_returns_smallest_key_regardless_of_enqueue_order() {
    let mut q = DiskQueue::open(Vec::new(), 1_000_000);
    q.enqueue(b"20-x.ndjson".to_vec(), b"second\n".to_vec());
    q.enqueue(b"10-x.ndjson".to_vec(), b"first\n".to_vec());
    q.enqueue(b"30-x.ndjson".to_vec(), b"third\n".to_vec());
    let a = q.pop_oldest().unwrap();
    let b = q.pop_oldest().unwrap();
    let c = q.pop_oldest().unwrap();
    assert_eq!(a.name, b"10-x.ndjson".to_vec());
    assert_eq!(a.data, b"first\n".to_vec());
    assert_eq!(b.name, b"20-x.ndjson".to_vec());
    assert_eq!(c.name, b"30-x.ndjson".to_vec());
    assert!(q.pop_oldest().is_none());
}

#[test]
fn peek_does_not_remove() {
    let mut q = DiskQueue::open(Vec::new(), 1_000_000);
    q.enqueue(b"11-a.ndjson".to_vec(), vec![1, 2, 3]);
    assert_eq!(q.peek_oldest().unwrap(), vec![1, 2, 3]);
    assert_eq!(q.peek_oldest().unwrap(), vec![1, 2, 3]);
    assert_eq!(q.len(), 1);
}

#[test]
fn peek_empty_is_none() {
    let q = DiskQueue::open(Vec::new(), 4096);
    assert!(q.peek_oldest().is_none());
    assert_eq!(q.len(), 0);
}

#[test]
fn eviction_removes_oldest_first() {
    let mut q = DiskQueue::open(Vec::new(), 250_000);
    let record = |tag: u8| vec![tag; 100_000];
    assert!(q.enqueue(b"01-a.ndjson".to_vec(), record(1)).is_empty());
    assert!(q.enqueue(b"02-a.ndjson".to_vec(), record(2)).is_empty());
    // Resident total is 200_000 <= 250_000: the third write evicts nothing.
    assert!(q.enqueue(b"03-a.ndjson".to_vec(), record(3)).is_empty());
    assert_eq!(q.total_resident_bytes(), 300_000);
    // Now over capacity: the next admission evicts the oldest entry first.
    let evicted = q.enqueue(b"04-a.ndjson".to_vec(), record(4));
    assert_eq!(evicted.len(), 1);
    assert_eq!(evicted[0].name, b"01-a.ndjson".to_vec());
    assert_eq!(q.total_resident_bytes(), 300_000);
    assert_eq!(q.len(), 3);
}

#[test]
fn resident_total_oscillates_within_one_record_of_capacity() {
    // Capacity C and uniform record size S < C: the resident total stays
    // in (C - S, C + S] once the queue has filled.
    let c: u64 = 250_000;
    let s: usize = 100_000;
    let mut q = DiskQueue::open(Vec::new(), c);
    for i in 0..20u8 {
        let name = format!("{:02}-a.ndjson", i).into_bytes();
        q.enqueue(name, vec![i; s]);
        let total = q.total_resident_bytes();
        assert!(total <= (c as u128) + (s as u128));
        if i >= 3 {
            assert!(total > (c as u128) - (s as u128));
        }
    }
}

#[test]
fn oversized_record_is_not_size_checked_at_admission() {
    // The new entry itself is never size-checked: a record larger than the
    // whole capacity is still admitted, evicting everything else.
    let mut q = DiskQueue::open(Vec::new(), 1_000);
    q.enqueue(b"01-a.ndjson".to_vec(), vec![0; 600]);
    q.enqueue(b"02-a.ndjson".to_vec(), vec![0; 600]);
    let evicted = q.enqueue(b"03-a.ndjson".to_vec(), vec![0; 5_000]);
    assert_eq!(evicted.len(), 1);
    assert_eq!(q.total_resident_bytes(), 5_600);
}

#[test]
fn reopen_preserves_entries_and_order() {
    // A record enqueued, then the queue reopened against the same stored
    // entries (in whatever order storage lists them), is still retrievable
    // via peek_oldest in the same relative order.
    let mut q = DiskQueue::open(Vec::new(), 1_000_000);
    q.enqueue(b"170000000002-b.ndjson".to_vec(), b"late\n".to_vec());
    q.enqueue(b"170000000001-a.ndjson".to_vec(), b"early\n".to_vec());
    assert_eq!(q.peek_oldest().unwrap(), b"early\n".to_vec());
    let mut stored = q.into_entries();
    stored.reverse();
    let reopened = DiskQueue::open(stored, 1_000_000);
    assert_eq!(reopened.len(), 2);
    assert_eq!(reopened.peek_oldest().unwrap(), b"early\n".to_vec());
}

#[test]
fn open_sorts_whatever_storage_returned() {
    let entries = vec![
        entry(b"30-c.ndjson", b"3".to_vec()),
        entry(b"10-a.ndjson", b"1".to_vec()),
        entry(b"20-b.ndjson", b"2".to_vec()),
    ];
    let mut q = DiskQueue::open(entries, 4096);
    assert_eq!(q.pop_oldest().unwrap().data, b"1".to_vec());
    assert_eq!(q.pop_oldest().unwrap().data, b"2".to_vec());
    assert_eq!(q.pop_oldest().unwrap().data, b"3".to_vec());
}

#[test]
fn batch_drains_three_small_records_in_one_tick() {
    // Three records of 100_000 bytes against a 512_000-byte threshold:
    // one flush drains all three and empties the queue.
    let mut q = DiskQueue::open(Vec::new(), 50_000_000);
    q.enqueue(b"01-a.ndjson".to_vec(), vec![1; 100_000]);
    q.enqueue(b"02-a.ndjson".to_vec(), vec![2; 100_000]);
    q.enqueue(b"03-a.ndjson".to_vec(), vec![3; 100_000]);
    let batch = assemble_batch(&mut q, 512_000);
    assert_eq!(batch.len(), 3);
    assert_eq!(batch[0].data, vec![1; 100_000]);
    assert_eq!(batch[1].data, vec![2; 100_000]);
    assert_eq!(batch[2].data, vec![3; 100_000]);
    assert_eq!(q.len(), 0);
}

#[test]
fn oversized_record_stalls_the_queue_head() {
    // One record of 600_000 bytes against a 512_000-byte threshold:
    // every flush assembles an empty batch and the record stays queued.
    let mut q = DiskQueue::open(Vec::new(), 50_000_000);
    q.enqueue(b"01-a.ndjson".to_vec(), vec![9; 600_000]);
    for _ in 0..3 {
        let batch = assemble_batch(&mut q, 512_000);
        assert!(batch.is_empty());
        assert_eq!(q.len(), 1);
    }
    assert_eq!(q.peek_oldest().unwrap().len(), 600_000);
}

#[test]
fn batch_stops_before_record_that_would_overflow_threshold() {
    let mut q = DiskQueue::open(Vec::new(), 50_000_000);
    q.enqueue(b"01-a.ndjson".to_vec(), vec![1; 300]);
    q.enqueue(b"02-a.ndjson".to_vec(), vec![2; 300]);
    q.enqueue(b"03-a.ndjson".to_vec(), vec![3; 300]);
    let batch = assemble_batch(&mut q, 650);
    assert_eq!(batch.len(), 2);
    assert_eq!(q.len(), 1);
    // The refused record is untouched and leads the next batch.
    let batch2 = assemble_batch(&mut q, 650);
    assert_eq!(batch2.len(), 1);
    assert_eq!(batch2[0].data, vec![3; 300]);
    assert_eq!(q.len(), 0);
}

#[test]
fn flush_threshold_constant_is_512_kib() {
    assert_eq!(FLUSH_THRESHOLD_BYTES, 512 * 1024);
}
