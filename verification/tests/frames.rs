use tinyproto::proto::fd::defines::{
    FrameDirection, FrameType, SFrameSubtype, UFrameSubtype, HDLC_S_FRAME_TYPE_REJ, HDLC_U_FRAME_TYPE_SABM,
};
use tinyproto::proto::fd::frames::{FrameHeader, FrameInfo, QueuedFrameType};

#[test]
fn header_bytes_read_back() {
    let h = FrameHeader { address: 0x05, control: 0x3F };
    let b = h.to_bytes();
    assert_eq!(b, [0x05, 0x3F]);
    assert_eq!(FrameHeader::from_bytes(&b), Some(h));
    assert_eq!(FrameHeader::from_bytes(&[0x05, 0x3F, 0xAA]), Some(h));
    assert_eq!(FrameHeader::from_bytes(&[0x05]), None);
}

#[test]
fn frame_info_bytes() {
    let f = FrameInfo::new(QueuedFrameType::IFrame, FrameHeader { address: 0x01, control: 0x22 }, &[9, 8]);
    assert_eq!(f.total_len(), 4);
    assert_eq!(f.to_bytes(), vec![0x01, 0x22, 9, 8]);
    assert_eq!(FrameHeader::from_bytes(&f.to_bytes()), Some(f.header));
}

#[test]
fn subtype_codes() {
    assert_eq!(UFrameSubtype::Sabm.code(), HDLC_U_FRAME_TYPE_SABM);
    assert_eq!(SFrameSubtype::Rej.code(), HDLC_S_FRAME_TYPE_REJ);
    assert_eq!(FrameDirection::Out.code(), 1);
    assert_eq!(FrameType::I.code(), 0x00);
}
