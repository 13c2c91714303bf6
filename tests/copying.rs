use process_memory::copy::{ncopy, CopyProgress, CHUNK_SIZE};

fn pattern(len: usize) -> Vec<u8> {
    (0..len).map(|i| (i * 7 % 251) as u8).collect()
}

#[test]
fn copies_zero_bytes() {
    let src = pattern(10);
    let mut dst = Vec::new();
    ncopy(&src, &mut dst, 0);
    assert!(dst.is_empty());
}

#[test]
fn copies_less_than_one_chunk() {
    let src = pattern(300);
    let mut dst = Vec::new();
    ncopy(&src, &mut dst, 100);
    assert_eq!(dst, src[..100].to_vec());
}

#[test]
fn copies_across_many_chunks() {
    let src = pattern(3 * CHUNK_SIZE + 17);
    let mut dst = vec![9u8];
    ncopy(&src[5..], &mut dst, 2 * CHUNK_SIZE + 11);
    assert_eq!(dst.len(), 1 + 2 * CHUNK_SIZE + 11);
    assert_eq!(dst[0], 9);
    assert_eq!(&dst[1..], &src[5..5 + 2 * CHUNK_SIZE + 11]);
}

#[test]
fn progress_requests_chunks_then_the_rest() {
    let mut p = CopyProgress::new(600);
    assert_eq!(p.next_request(), 256);
    p.record(256);
    assert_eq!(p.next_request(), 256);
    p.record(100);
    assert_eq!(p.next_request(), 244);
    p.record(0);
    assert_eq!(p.next_request(), 244);
    assert!(!p.is_complete());
    p.record(244);
    assert_eq!(p.next_request(), 0);
    assert!(p.is_complete());
    assert_eq!(p.copied, 600);
}

#[test]
fn empty_transfer_is_complete_at_once() {
    let p = CopyProgress::new(0);
    assert!(p.is_complete());
    assert_eq!(p.next_request(), 0);
}
