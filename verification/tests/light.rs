use tinyproto::proto::error::TinyError;
use tinyproto::proto::light::{Light, LightConfig};
use std::cell::RefCell;
use std::collections::VecDeque;
use std::rc::Rc;
use std::time::Instant;

/// Sends a frame through `write_fn` byte by byte, giving up after the
/// handle's timeout.
fn light_send(l: &mut Light, data: &[u8], write_fn: &mut dyn FnMut(&[u8]) -> i32) -> Result<usize, TinyError> {
    let len = l.send(data)?;
    let start = Instant::now();
    loop {
        let b = match l.tx_byte() {
            Some(b) => b,
            None => return Ok(len),
        };
        let buf = [b];
        let mut remaining = 1usize;
        while remaining > 0 {
            let sent = write_fn(&buf[..remaining]);
            if let Some(e) = l.send_poll(sent, start.elapsed().as_millis()) {
                return Err(e);
            }
            remaining -= sent as usize;
        }
    }
}

/// Reads a frame through `read_fn` byte by byte, giving up after the
/// handle's timeout.
fn light_read(l: &mut Light, read_fn: &mut dyn FnMut(&mut [u8]) -> i32) -> Result<Vec<u8>, TinyError> {
    let start = Instant::now();
    loop {
        let mut buf = [0u8; 1];
        let n = read_fn(&mut buf);
        if let Some(r) = l.read_poll(n, buf[0], start.elapsed().as_millis()) {
            return r;
        }
    }
}

struct FakeWire {
    data: Rc<RefCell<VecDeque<u8>>>,
}

impl FakeWire {
    fn new() -> Self {
        FakeWire { data: Rc::new(RefCell::new(VecDeque::new())) }
    }

    fn write_fn(&self) -> Box<dyn FnMut(&[u8]) -> i32> {
        let data = self.data.clone();
        Box::new(move |buf: &[u8]| -> i32 {
            let mut d = data.borrow_mut();
            for b in buf {
                d.push_back(*b);
            }
            buf.len() as i32
        })
    }

    fn read_fn(&self) -> Box<dyn FnMut(&mut [u8]) -> i32> {
        let data = self.data.clone();
        Box::new(move |buf: &mut [u8]| -> i32 {
            let mut d = data.borrow_mut();
            if let Some(b) = d.pop_front() {
                buf[0] = b;
                1
            } else {
                0
            }
        })
    }
}

#[test]
fn test_light_send_receive() {
    let config = LightConfig::default();
    let mut sender = Light::new(&config).unwrap();
    let mut receiver = Light::new(&config).unwrap();

    let wire = FakeWire::new();

    let payload = vec![0x01, 0x02, 0x03, 0x04];
    let sent = light_send(&mut sender, &payload, &mut wire.write_fn()).unwrap();
    assert_eq!(sent, payload.len());

    let received = light_read(&mut receiver, &mut wire.read_fn()).unwrap();
    assert_eq!(received, payload);
}

#[test]
fn test_light_multiple_frames() {
    let config = LightConfig::default();
    let mut sender = Light::new(&config).unwrap();
    let mut receiver = Light::new(&config).unwrap();

    let wire = FakeWire::new();

    for i in 0..5 {
        let payload: Vec<u8> = vec![i, i + 1, i + 2];
        light_send(&mut sender, &payload, &mut wire.write_fn()).unwrap();
        let received = light_read(&mut receiver, &mut wire.read_fn()).unwrap();
        assert_eq!(received, payload);
    }
}

#[test]
fn test_light_special_bytes() {
    let config = LightConfig::default();
    let mut sender = Light::new(&config).unwrap();
    let mut receiver = Light::new(&config).unwrap();

    let wire = FakeWire::new();

    let payload = vec![0x7E, 0x7D, 0xFF, 0x00, 0x7E];
    light_send(&mut sender, &payload, &mut wire.write_fn()).unwrap();
    let received = light_read(&mut receiver, &mut wire.read_fn()).unwrap();
    assert_eq!(received, payload);
}

#[test]
fn test_light_timeout_on_empty() {
    let config = LightConfig { timeout_ms: 50, ..LightConfig::default() };
    let mut receiver = Light::new(&config).unwrap();

    let wire = FakeWire::new();
    let result = light_read(&mut receiver, &mut wire.read_fn());
    assert_eq!(result, Err(TinyError::Timeout));
}

#[test]
fn light_send_while_sending_is_busy() {
    let mut l = Light::new(&LightConfig::default()).unwrap();
    assert_eq!(l.send(&[1, 2]), Ok(2));
    assert_eq!(l.send(&[3]), Err(TinyError::Busy));
    l.cancel_send();
    assert_eq!(l.send(&[3]), Ok(1));
    assert_eq!(l.send(&[]), Ok(0));
}

#[test]
fn light_tx_bytes_are_the_encoded_frame() {
    let mut l = Light::new(&LightConfig::default()).unwrap();
    l.send(b"123456789").unwrap();
    let mut out = Vec::new();
    while let Some(b) = l.tx_byte() {
        out.push(b);
    }
    // flag, payload, FCS-16 0x906E low byte first, flag
    let mut expected = vec![0x7E];
    expected.extend_from_slice(b"123456789");
    expected.extend_from_slice(&[0x6E, 0x90, 0x7E]);
    assert_eq!(out, expected);
}

#[test]
fn light_read_skips_damaged_frame() {
    let mut tx = Light::new(&LightConfig::default()).unwrap();
    let mut rx = Light::new(&LightConfig::default()).unwrap();
    let mut wire = Vec::new();
    tx.send(&[5, 6, 7]).unwrap();
    while let Some(b) = tx.tx_byte() {
        wire.push(b);
    }
    let mut damaged = wire.clone();
    damaged[2] ^= 0x40;
    damaged.extend_from_slice(&wire);
    let mut got = Vec::new();
    for b in damaged {
        if let Some(f) = rx.read(Some(b)).unwrap() {
            got.push(f);
        }
    }
    assert_eq!(got, vec![vec![5, 6, 7]]);
}

#[test]
fn light_poll_decisions() {
    let mut l = Light::new(&LightConfig { timeout_ms: 50, ..LightConfig::default() }).unwrap();
    // reading: a failed read, nothing yet, then the timeout
    assert_eq!(l.read_poll(-1, 0, 0), Some(Err(TinyError::Failed)));
    assert_eq!(l.read_poll(0, 0, 49), None);
    assert_eq!(l.read_poll(0, 0, 50), Some(Err(TinyError::Timeout)));
    // sending: a failed write, going on, then the timeout gives the frame up
    l.send(&[1, 2]).unwrap();
    assert_eq!(l.send_poll(-1, 0), Some(TinyError::Failed));
    assert_eq!(l.send_poll(1, 10), None);
    assert_eq!(l.send_poll(1, 50), Some(TinyError::Timeout));
    assert_eq!(l.send(&[3]), Ok(1));
}
