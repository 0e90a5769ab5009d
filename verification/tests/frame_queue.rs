use tinyproto::proto::fd::frame_queue::{FrameQueue, FramesQueue};
use tinyproto::proto::fd::frames::{FrameHeader, QueuedFrameType};

#[test]
fn test_frame_queue_basic() {
    let mut q = FrameQueue::new(4, 64);
    assert!(q.has_free_slots());

    let header = FrameHeader { address: 0x01, control: 0x00 };
    let idx = q.allocate(QueuedFrameType::IFrame, header, &[1, 2, 3]).unwrap();
    assert_eq!(q.count(), 1);

    let frame = q.get(idx).unwrap();
    assert_eq!(frame.payload, vec![1, 2, 3]);

    q.free(idx);
    assert_eq!(q.count(), 0);
}

#[test]
fn test_frame_queue_full() {
    let mut q = FrameQueue::new(2, 64);
    let h = FrameHeader { address: 0x01, control: 0x00 };
    q.allocate(QueuedFrameType::IFrame, h, &[1]).unwrap();
    q.allocate(QueuedFrameType::IFrame, h, &[2]).unwrap();
    assert!(!q.has_free_slots());
    assert!(q.allocate(QueuedFrameType::IFrame, h, &[3]).is_none());
}

#[test]
fn test_frame_queue_reset_for() {
    let mut q = FrameQueue::new(4, 64);
    let h1 = FrameHeader { address: 0x01, control: 0x00 };
    let h2 = FrameHeader { address: 0x05, control: 0x00 };
    q.allocate(QueuedFrameType::IFrame, h1, &[1]).unwrap();
    q.allocate(QueuedFrameType::IFrame, h2, &[2]).unwrap();
    q.allocate(QueuedFrameType::IFrame, h1, &[3]).unwrap();
    assert_eq!(q.count(), 3);

    q.reset_for(0x01);
    assert_eq!(q.count(), 1);
}

#[test]
fn frame_queue_allocates_round_robin() {
    let mut q = FrameQueue::new(3, 64);
    let h = FrameHeader { address: 0x01, control: 0x00 };
    assert_eq!(q.allocate(QueuedFrameType::IFrame, h, &[1]), Some(0));
    assert_eq!(q.allocate(QueuedFrameType::IFrame, h, &[2]), Some(1));
    q.free(0);
    // the search starts after the last allocated slot
    assert_eq!(q.allocate(QueuedFrameType::IFrame, h, &[3]), Some(2));
    assert_eq!(q.allocate(QueuedFrameType::IFrame, h, &[4]), Some(0));
    assert_eq!(q.capacity(), 3);
    assert_eq!(q.get_mtu(), 64);
}

#[test]
fn frame_queue_free_by_header_and_get_mut() {
    let mut q = FrameQueue::new(4, 64);
    let h1 = FrameHeader { address: 0x05, control: 0x10 };
    let h2 = FrameHeader { address: 0x05, control: 0x20 };
    q.allocate(QueuedFrameType::UFrame, h1, &[]).unwrap();
    let i2 = q.allocate(QueuedFrameType::UFrame, h2, &[]).unwrap();
    q.free_by_header(0x05, 0x10);
    assert_eq!(q.count(), 1);
    if let Some(f) = q.get_mut(i2) {
        f.payload.push(9);
    }
    assert_eq!(q.get(i2).unwrap().payload, vec![9]);
    assert!(q.get_mut(7).is_none());
    assert!(q.get(0).is_none());
}

#[test]
fn frame_queue_get_next_matches_sequence_number() {
    let mut q = FrameQueue::new(4, 64);
    let h0 = FrameHeader { address: 0x05, control: 0 << 5 };
    let h1 = FrameHeader { address: 0x05, control: 1 << 5 };
    q.allocate(QueuedFrameType::IFrame, h0, &[0xA0]).unwrap();
    q.allocate(QueuedFrameType::IFrame, h1, &[0xA1]).unwrap();
    let (idx, f) = q.get_next(QueuedFrameType::IFrame, 0x05, 1).unwrap();
    assert_eq!(idx, 1);
    assert_eq!(f.payload, vec![0xA1]);
    assert!(q.get_next(QueuedFrameType::IFrame, 0x09, 0).is_none());
}

#[test]
fn frames_queue_reset_frees_everything() {
    let mut fq = FramesQueue::new(2, 3, 16);
    let h = FrameHeader { address: 0x01, control: 0x00 };
    fq.i_queue.allocate(QueuedFrameType::IFrame, h, &[1]).unwrap();
    fq.s_queue.allocate(QueuedFrameType::SFrame, h, &[]).unwrap();
    fq.reset();
    assert_eq!(fq.i_queue.count(), 0);
    assert_eq!(fq.s_queue.count(), 0);
    assert_eq!(fq.s_queue.capacity(), 3);
}

#[test]
fn frame_queue_allocate_counts() {
    let mut q = FrameQueue::new(2, 8);
    let h = FrameHeader { address: 0x01, control: 0x00 };
    assert!(q.has_free_slots());
    q.allocate(QueuedFrameType::IFrame, h, &[1]).unwrap();
    assert_eq!(q.count(), 1);
    q.allocate(QueuedFrameType::IFrame, h, &[2]).unwrap();
    assert_eq!(q.count(), 2);
    assert!(!q.has_free_slots());
    assert_eq!(q.allocate(QueuedFrameType::IFrame, h, &[3]), None);
    assert_eq!(q.count(), 2);
}
