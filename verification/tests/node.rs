use tinyproto::proto::hdlc::frame::HdlcFrame;
use std::cell::RefCell;
use std::rc::Rc;
use tinyproto::proto::hdlc::node::{NodeInterface, Pipeline};

struct TestNode {
    rx_frames: Vec<HdlcFrame>,
    tx_frames: Vec<HdlcFrame>,
    sources: usize,
    sinks: usize,
}

impl NodeInterface for TestNode {
    fn add_source(&mut self, _source: &Self) {
        self.sources += 1;
    }

    fn add_sink(&mut self, _sink: &Self) {
        self.sinks += 1;
    }

    fn on_rx_frame(&mut self, frame: HdlcFrame) {
        self.rx_frames.push(frame);
    }

    fn put_tx_frame(&mut self, frame: HdlcFrame) {
        self.tx_frames.push(frame);
    }
}

impl TestNode {
    fn new() -> TestNode {
        TestNode { rx_frames: Vec::new(), tx_frames: Vec::new(), sources: 0, sinks: 0 }
    }
}

#[test]
fn test_single_node_pipeline() {
    let mut pipeline = Pipeline::new();
    let node = TestNode::new();
    pipeline.add_node(Box::new(node));
    pipeline.run_rx();
    pipeline.run_tx();
}

/// A node that records the calls made on it in a shared log.
struct LoggingNode {
    id: u8,
    log: Rc<RefCell<Vec<(u8, &'static str, u8)>>>,
}

impl NodeInterface for LoggingNode {
    fn add_source(&mut self, source: &Self) {
        self.log.borrow_mut().push((self.id, "source", source.id));
    }

    fn add_sink(&mut self, sink: &Self) {
        self.log.borrow_mut().push((self.id, "sink", sink.id));
    }

    fn on_rx_frame(&mut self, frame: HdlcFrame) {
        self.log.borrow_mut().push((self.id, "rx", frame.len() as u8));
    }

    fn put_tx_frame(&mut self, frame: HdlcFrame) {
        self.log.borrow_mut().push((self.id, "tx", frame.len() as u8));
    }
}

#[test]
fn pipeline_links_neighbours() {
    let log = Rc::new(RefCell::new(Vec::new()));
    let mut pipeline = Pipeline::new();
    for id in 0..3u8 {
        pipeline.add_node(Box::new(LoggingNode { id, log: log.clone() }));
    }
    // each new node becomes the previous one's sink, then takes it as source
    assert_eq!(
        *log.borrow(),
        vec![(0, "sink", 1), (1, "source", 0), (1, "sink", 2), (2, "source", 1)]
    );
    log.borrow_mut().clear();
    pipeline.run_rx();
    pipeline.run_tx();
    // an empty frame goes to the first node (RX) and to the last one (TX)
    assert_eq!(*log.borrow(), vec![(0, "rx", 0), (2, "tx", 0)]);
}
