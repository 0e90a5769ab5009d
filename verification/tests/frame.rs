use tinyproto::proto::hdlc::frame::HdlcFrame;

#[test]
fn test_frame() {
    let mut frame = HdlcFrame::new();
    frame.push(0x7F);
    frame.push(0x7E);
    frame.push(0x7D);
    frame.push(0x00);
    assert_eq!(frame.index(0), 0x7F);
    assert_eq!(frame.index(1), 0x7E);
    assert_eq!(frame.index(2), 0x7D);
    assert_eq!(frame.index(3), 0x00);
}

#[test]
fn frame_length_counts_pushes() {
    let mut frame = HdlcFrame::new();
    assert_eq!(frame.len(), 0);
    frame.push(1);
    frame.push(2);
    assert_eq!(frame.len(), 2);
}
