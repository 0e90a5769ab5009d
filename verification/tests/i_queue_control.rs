use tinyproto::proto::fd::defines::SEQ_BITS_MASK;
use tinyproto::proto::fd::i_queue_control::IQueueControl;

#[test]
fn test_basic_sequence() {
    let mut ctrl = IQueueControl::new();
    assert_eq!(ctrl.get_next_frame_to_send(), 0);
    assert_eq!(ctrl.get_next_frame_to_confirm(), 0);
    assert!(!ctrl.has_unconfirmed_frames());

    // Allocate frame 0
    ctrl.move_to_next_ns();
    assert!(ctrl.has_unconfirmed_frames());
    assert!(!ctrl.all_frames_are_sent());

    // Send frame 0
    ctrl.advance_next_ns();
    assert!(ctrl.all_frames_are_sent());

    // Confirm frame 0
    let confirmed = ctrl.confirm_sent_frames(1, |_| true);
    assert!(confirmed);
    assert!(!ctrl.has_unconfirmed_frames());
}

#[test]
fn test_tx_full() {
    let mut ctrl = IQueueControl::new();
    for _ in 0..7 {
        assert!(!ctrl.tx_full());
        ctrl.move_to_next_ns();
    }
    assert!(ctrl.tx_full());
}

#[test]
fn test_sequence_wrap() {
    let mut ctrl = IQueueControl::new();
    for i in 0..16 {
        ctrl.move_to_next_ns();
        ctrl.advance_next_ns();
        let nr = (i + 1) & SEQ_BITS_MASK;
        ctrl.confirm_sent_frames(nr, |_| true);
    }
    assert_eq!(ctrl.get_next_frame_to_send(), 0);
}

#[test]
fn test_rx_sequence() {
    let mut ctrl = IQueueControl::new();
    assert_eq!(ctrl.get_next_frame_to_receive(), 0);
    ctrl.move_to_next_frame_to_receive();
    assert_eq!(ctrl.get_next_frame_to_receive(), 1);
}

#[test]
fn confirm_stops_when_the_callback_refuses() {
    let mut ctrl = IQueueControl::new();
    for _ in 0..3 {
        ctrl.move_to_next_ns();
        ctrl.advance_next_ns();
    }
    let confirmed = ctrl.confirm_sent_frames(3, |ns| ns < 1);
    assert!(confirmed);
    assert_eq!(ctrl.get_next_frame_to_confirm(), 1);
    assert!(!ctrl.confirm_sent_frames(1, |_| true));
}

#[test]
fn retransmit_rewinds_next_ns() {
    let mut ctrl = IQueueControl::new();
    for _ in 0..3 {
        ctrl.move_to_next_ns();
        ctrl.advance_next_ns();
    }
    assert_eq!(ctrl.get_next_frame_to_send(), 3);
    assert!(ctrl.retransmit_frame(1, |_| true));
    assert_eq!(ctrl.get_next_frame_to_send(), 1);
    assert!(!ctrl.retransmit_frame(1, |_| true));
    ctrl.move_to_previous_ns();
    assert_eq!(ctrl.get_last_ns(), 2);
    ctrl.reset();
    assert_eq!(ctrl.get_last_ns(), 0);
    assert_eq!(ctrl.get_next_frame_to_send(), 0);
}

#[test]
fn sequence_numbers_wrap_below_zero() {
    let mut ctrl = IQueueControl::new();
    ctrl.move_to_previous_ns();
    assert_eq!(ctrl.get_last_ns(), 7);
    ctrl.move_to_next_ns();
    assert_eq!(ctrl.get_last_ns(), 0);
}

#[test]
fn confirm_steps_are_distance_mod_8() {
    let mut ctrl = IQueueControl::new();
    for _ in 0..6 {
        ctrl.move_to_next_ns();
        ctrl.advance_next_ns();
    }
    ctrl.confirm_sent_frames(5, |_| true);
    assert_eq!(ctrl.get_next_frame_to_confirm(), 5);
    let mut calls = 0u8;
    let count = std::cell::Cell::new(0u8);
    ctrl.confirm_sent_frames(2, |_| {
        count.set(count.get() + 1);
        true
    });
    calls += count.get();
    // from 5 to 2: (2 + 8 - 5) % 8 = 5 frames
    assert_eq!(calls, 5);
    assert_eq!(ctrl.get_next_frame_to_confirm(), 2);
}
