use rea_agent::codec::{
    build_body, compress_roundtrip, concat_records, decompress_body, is_zstd_mode,
    status_is_success, CodecError,
};
use rea_agent::forwarder::{FlushStep, Forwarder};
use rea_agent::intake::IntakeChannel;
use rea_agent::naming::{fresh_entry_name, make_entry_name, SUFFIX_LEN};
use rea_agent::queue::DiskQueue;
use rea_agent::retry::RetryGovernor;

#[test]
fn budget_saturates_at_zero_and_resets_on_success() {
    // retry budget 2, three consecutive failures: 2 -> 1 -> 0 -> 0,
    // then one success restores 2.
    let mut g = RetryGovernor::new(2);
    assert_eq!(g.budget(), 2);
    g.on_failure();
    assert_eq!(g.budget(), 1);
    assert!(!g.exhausted());
    g.on_failure();
    assert_eq!(g.budget(), 0);
    assert!(g.exhausted());
    g.on_failure();
    assert_eq!(g.budget(), 0);
    g.on_success();
    assert_eq!(g.budget(), 2);
    assert!(!g.exhausted());
}

#[test]
fn compression_roundtrip_is_identity() {
    let data: Vec<u8> = b"{\"kind\":\"cpu\"}\n{\"kind\":\"mem\"}\n".repeat(64);
    let back = compress_roundtrip(&data);
    assert_eq!(back, data);
}

#[test]
fn compressed_body_differs_and_decompresses_back() {
    let records = vec![b"one\n".to_vec(), b"two\n".to_vec().repeat(1000)];
    let body = build_body(&records, b"zstd");
    assert!(body.zstd);
    let plain = concat_records(&records);
    assert_ne!(body.bytes, plain);
    let back = decompress_body(&body.bytes).unwrap();
    assert_eq!(back, plain);
}

#[test]
fn passthrough_body_is_plain_concatenation() {
    let records = vec![b"a\n".to_vec(), b"bb\n".to_vec(), b"ccc\n".to_vec()];
    let body = build_body(&records, b"none");
    assert!(!body.zstd);
    assert_eq!(body.bytes, b"a\nbb\nccc\n".to_vec());
}

#[test]
fn garbage_is_refused_by_the_decoder() {
    let garbage = b"this is not a zstd frame".to_vec();
    let r = decompress_body(&garbage);
    assert!(matches!(r, Err(CodecError::Decompress)));
}

#[test]
fn compression_mode_is_ascii_case_insensitive() {
    assert!(is_zstd_mode(b"zstd"));
    assert!(is_zstd_mode(b"ZSTD"));
    assert!(is_zstd_mode(b"Zstd"));
    assert!(is_zstd_mode(b"zStD"));
    assert!(!is_zstd_mode(b"gzip"));
    assert!(!is_zstd_mode(b"zstd "));
    assert!(!is_zstd_mode(b""));
    assert!(!is_zstd_mode(b"zst"));
}

#[test]
fn only_2xx_counts_as_delivered() {
    assert!(status_is_success(200));
    assert!(status_is_success(204));
    assert!(status_is_success(299));
    assert!(!status_is_success(199));
    assert!(!status_is_success(300));
    assert!(!status_is_success(404));
    assert!(!status_is_success(500));
}

#[test]
fn entry_name_has_the_documented_shape() {
    let name = make_entry_name(1234, &b"abc123".to_vec());
    assert_eq!(name, b"1234-abc123.ndjson".to_vec());
    let zero = make_entry_name(0, &b"zzzzzz".to_vec());
    assert_eq!(zero, b"0-zzzzzz.ndjson".to_vec());
}

#[test]
fn fresh_entry_names_are_well_formed() {
    let name = fresh_entry_name();
    let ext = b".ndjson";
    assert!(name.len() >= 1 + 1 + SUFFIX_LEN + ext.len());
    let (stem, tail) = name.split_at(name.len() - ext.len());
    assert_eq!(tail, ext);
    let (millis_dash, suffix) = stem.split_at(stem.len() - SUFFIX_LEN);
    for b in suffix {
        assert!(b.is_ascii_alphanumeric());
    }
    assert_eq!(millis_dash[millis_dash.len() - 1], b'-');
    let millis = &millis_dash[..millis_dash.len() - 1];
    assert!(!millis.is_empty());
    for b in millis {
        assert!(b.is_ascii_digit());
    }
}

#[test]
fn forwarder_admits_records_and_flushes_them_raw() {
    let queue = DiskQueue::open(Vec::new(), 1_000_000);
    let mut fwd = Forwarder::new(queue, 8, b"none".to_vec());
    let admitted = fwd.on_record(b"hello\n".to_vec());
    assert!(admitted.evicted.is_empty());
    assert_eq!(fwd.queue().len(), 1);
    let flush = fwd.on_flush_tick();
    assert_eq!(flush.drained.len(), 1);
    assert_eq!(flush.drained[0], admitted.name);
    match flush.step {
        FlushStep::Ready(body) => {
            assert!(!body.zstd);
            assert_eq!(body.bytes, b"hello\n".to_vec());
        },
        _ => panic!("expected a ready body"),
    }
    assert_eq!(fwd.queue().len(), 0);
}

#[test]
fn forwarder_flush_on_empty_queue_is_empty() {
    let queue = DiskQueue::open(Vec::new(), 1_000_000);
    let mut fwd = Forwarder::new(queue, 8, b"zstd".to_vec());
    let flush = fwd.on_flush_tick();
    assert!(matches!(flush.step, FlushStep::Empty));
    assert!(flush.drained.is_empty());
}

#[test]
fn forwarder_flush_compresses_when_configured() {
    let queue = DiskQueue::open(Vec::new(), 1_000_000);
    let mut fwd = Forwarder::new(queue, 8, b"zstd".to_vec());
    fwd.on_record(b"payload\n".to_vec().repeat(100));
    let flush = fwd.on_flush_tick();
    match flush.step {
        FlushStep::Ready(body) => {
            assert!(body.zstd);
            let back = decompress_body(&body.bytes).unwrap();
            assert_eq!(back, b"payload\n".to_vec().repeat(100));
        },
        _ => panic!("expected a ready body"),
    }
}

#[test]
fn forwarder_books_outcomes_without_gating() {
    let queue = DiskQueue::open(Vec::new(), 1_000_000);
    let mut fwd = Forwarder::new(queue, 2, b"none".to_vec());
    fwd.on_send_outcome(false);
    assert_eq!(fwd.retry_budget(), 1);
    fwd.on_send_outcome(false);
    assert_eq!(fwd.retry_budget(), 0);
    assert!(fwd.retry_exhausted());
    fwd.on_send_outcome(false);
    assert_eq!(fwd.retry_budget(), 0);
    fwd.on_send_outcome(true);
    assert_eq!(fwd.retry_budget(), 2);
    // An exhausted budget never suppresses the next flush.
    fwd.on_record(b"x\n".to_vec());
    fwd.on_send_outcome(false);
    fwd.on_send_outcome(false);
    fwd.on_send_outcome(false);
    let flush = fwd.on_flush_tick();
    assert!(matches!(flush.step, FlushStep::Ready(_)));
}

#[test]
fn persist_failure_takes_the_admission_back() {
    let queue = DiskQueue::open(Vec::new(), 1_000_000);
    let mut fwd = Forwarder::new(queue, 8, b"none".to_vec());
    let admitted = fwd.on_record(b"volatile\n".to_vec());
    assert_eq!(fwd.queue().len(), 1);
    let removed = fwd.on_persist_failed(&admitted.name).unwrap();
    assert_eq!(removed.name, admitted.name);
    assert_eq!(removed.data, b"volatile\n".to_vec());
    assert_eq!(fwd.queue().len(), 0);
    // Withdrawing an unknown key changes nothing.
    assert!(fwd.on_persist_failed(b"absent").is_none());
}

#[test]
fn intake_drops_on_full_channel_without_blocking() {
    let mut ch = IntakeChannel::with_capacity(2);
    assert!(ch.try_send(b"a".to_vec()));
    assert!(ch.try_send(b"b".to_vec()));
    assert!(!ch.try_send(b"c".to_vec()));
    assert_eq!(ch.len(), 2);
    assert_eq!(ch.recv().unwrap(), b"a".to_vec());
    assert_eq!(ch.recv().unwrap(), b"b".to_vec());
    assert!(ch.recv().is_none());
    // A freed slot accepts again.
    assert!(ch.try_send(b"d".to_vec()));
    assert_eq!(ch.capacity(), 2);
}
