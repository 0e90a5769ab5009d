//! Chaining of frame processing stages.
use vstd::prelude::*;
use crate::proto::hdlc::frame::HdlcFrame;

verus! {

/// A node of an HDLC processing pipeline: it receives frames from
/// upstream and sends frames downstream. The nodes of one pipeline are of
/// one type.
///
/// What a node does with a frame or a neighbour is its implementor's:
/// `took_rx_frame`, `took_tx_frame`, `took_source` and `took_sink` name the
/// node states that may follow handing it a frame or registering a
/// neighbour. A node type that does not define them allows every state.
pub trait NodeInterface: Sized {
    /// Whether `self` is a state of node `before` after it was handed
    /// `frame` in the RX direction.
    open spec fn took_rx_frame(&self, before: Self, frame: Seq<u8>) -> bool {
        true
    }

    /// Whether `self` is a state of node `before` after it was handed
    /// `frame` in the TX direction.
    open spec fn took_tx_frame(&self, before: Self, frame: Seq<u8>) -> bool {
        true
    }

    /// Whether `self` is a state of node `before` after `source` was
    /// registered as its upstream source.
    open spec fn took_source(&self, before: Self, source: Self) -> bool {
        true
    }

    /// Whether `self` is a state of node `before` after `sink` was
    /// registered as its downstream sink.
    open spec fn took_sink(&self, before: Self, sink: Self) -> bool {
        true
    }

    /// Registers an upstream source node.
    fn add_source(&mut self, source: &Self)
        ensures
            final(self).took_source(*old(self), *source),
    ;

    /// Registers a downstream sink node.
    fn add_sink(&mut self, sink: &Self)
        ensures
            final(self).took_sink(*old(self), *sink),
    ;

    /// Called when a frame is received in the RX direction.
    fn on_rx_frame(&mut self, frame: HdlcFrame)
        ensures
            final(self).took_rx_frame(*old(self), frame@),
    ;

    /// Called to transmit a frame in the TX direction.
    fn put_tx_frame(&mut self, frame: HdlcFrame)
        ensures
            final(self).took_tx_frame(*old(self), frame@),
    ;
}

/// A linear pipeline of nodes: each node's sink is the next node and each
/// node's source is the previous one.
pub struct Pipeline<N: NodeInterface> {
    nodes: Vec<Box<N>>,
}

impl<N: NodeInterface> Pipeline<N> {
    /// Number of nodes in the pipeline.
    pub closed spec fn len(&self) -> nat {
        self.nodes@.len()
    }

    /// The nodes, first to last.
    pub closed spec fn nodes(&self) -> Seq<N> {
        self.nodes@.map_values(|b: Box<N>| *b)
    }

    /// Creates an empty pipeline.
    pub fn new() -> (r: Pipeline<N>)
        ensures
            r.len() == 0,
    {
        Pipeline { nodes: Vec::new() }
    }

    /// Appends `node`, linking it with the previous last node: the previous
    /// node gets it as its sink, and it gets the previous node as its source.
    pub fn add_node(&mut self, node: Box<N>)
        requires
            old(self).len() < usize::MAX,
        ensures
            final(self).len() == old(self).len() + 1,
            final(self).nodes().len() == final(self).len(),
            old(self).len() > 0 ==> final(self).nodes().take(old(self).len() - 1) == old(
                self,
            ).nodes().take(old(self).len() - 1),
            old(self).len() == 0 ==> final(self).nodes() == seq![*node],
            old(self).len() > 0 ==> {
                let n = old(self).len() as int;
                &&& final(self).nodes()[n - 1].took_sink(old(self).nodes()[n - 1], *node)
                &&& final(self).nodes()[n].took_source(*node, final(self).nodes()[n - 1])
            },
    {
        self.nodes.push(node);
        if self.nodes.len() > 1 {
            let index = self.nodes.len() - 1;
            {
                let (left, right) = self.nodes.as_mut_slice().split_at_mut(index);
                let next: &N = &right[0];
                left[index - 1].add_sink(next);
            }
            {
                let (left, right) = self.nodes.as_mut_slice().split_at_mut(index);
                let prev: &N = &left[index - 1];
                right[0].add_source(prev);
            }
        }
    }

    /// Hands an empty frame to the first node in the RX direction.
    pub fn run_rx(&mut self)
        requires
            old(self).len() > 0,
        ensures
            final(self).len() == old(self).len(),
            final(self).nodes().skip(1) == old(self).nodes().skip(1),
            final(self).nodes()[0].took_rx_frame(old(self).nodes()[0], Seq::empty()),
    {
        self.nodes[0].on_rx_frame(HdlcFrame::new());
    }

    /// Hands an empty frame to the last node in the TX direction.
    pub fn run_tx(&mut self)
        requires
            old(self).len() > 0,
        ensures
            final(self).len() == old(self).len(),
            final(self).nodes().take(old(self).len() - 1) == old(self).nodes().take(
                old(self).len() - 1,
            ),
            final(self).nodes()[old(self).len() - 1].took_tx_frame(
                old(self).nodes()[old(self).len() - 1],
                Seq::empty(),
            ),
    {
        let index = self.nodes.len() - 1;
        self.nodes[index].put_tx_frame(HdlcFrame::new());
    }
}

} // verus!
