use mix_link::message::{decode_frame, is_noise, MSG_SIZE};
use mix_link::queue::CoverTrafficQueue;

#[test]
fn empty_queue_pops_noise() {
    let mut queue = CoverTrafficQueue::new();
    assert!(queue.is_empty());
    let frame = queue.pop();
    assert_eq!(frame.len(), MSG_SIZE);
    assert!(is_noise(&frame));
    assert!(queue.is_empty());
}

#[test]
fn queued_payloads_leave_in_push_order() {
    let mut queue = CoverTrafficQueue::new();
    queue.push(b"p1".to_vec());
    queue.push(b"p2".to_vec());
    queue.push(b"p3".to_vec());
    assert_eq!(decode_frame(&queue.pop()), Some(b"p1".to_vec()));
    assert_eq!(decode_frame(&queue.pop()), Some(b"p2".to_vec()));
    assert_eq!(decode_frame(&queue.pop()), Some(b"p3".to_vec()));
    assert!(is_noise(&queue.pop()));
}

#[test]
fn fillers_interleave_without_reordering() {
    let mut queue = CoverTrafficQueue::new();
    queue.push(b"p1".to_vec());
    assert_eq!(decode_frame(&queue.pop()), Some(b"p1".to_vec()));
    assert!(is_noise(&queue.pop()));
    queue.push(b"p2".to_vec());
    queue.push(b"p3".to_vec());
    assert_eq!(decode_frame(&queue.pop()), Some(b"p2".to_vec()));
    assert_eq!(decode_frame(&queue.pop()), Some(b"p3".to_vec()));
    assert!(is_noise(&queue.pop()));
}

#[test]
fn every_popped_frame_is_whole() {
    let mut queue = CoverTrafficQueue::new();
    queue.push(vec![9u8; 100]);
    assert_eq!(queue.pop().len(), MSG_SIZE);
    assert_eq!(queue.pop().len(), MSG_SIZE);
}
