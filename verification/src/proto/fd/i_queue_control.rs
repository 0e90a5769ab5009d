//! I-frame queue control: N(S)/N(R) sequence tracking for the sliding
//! window. Sequence numbers are 3 bits wide and wrap at 8.
use vstd::prelude::*;
use crate::proto::fd::defines::SEQ_BITS_MASK;

verus! {

/// Transmit-side sequence state.
#[derive(Debug, Clone, Copy)]
pub struct IQueueControlSend {
    /// Next free frame number to assign.
    pub last_ns: u8,
    /// Next sent frame number to be confirmed by the remote side.
    pub confirm_ns: u8,
    /// Next frame number to send.
    pub next_ns: u8,
}

/// Receive-side sequence state.
#[derive(Debug, Clone, Copy)]
pub struct IQueueControlRecv {
    /// Next frame number expected from the remote side.
    pub next_nr: u8,
}

/// Combined I-frame sequence control.
#[derive(Debug, Clone, Copy)]
pub struct IQueueControl {
    pub tx_state: IQueueControlSend,
    pub rx_state: IQueueControlRecv,
}

/// The sequence number following `x`.
pub open spec fn seq_next(x: u8) -> u8 {
    ((x + 1) % 8) as u8
}

/// The sequence number preceding `x`.
pub open spec fn seq_prev(x: u8) -> u8 {
    if x == 0 {
        7u8
    } else {
        ((x - 1) % 8) as u8
    }
}

/// Stepping a frame number back undoes stepping it forward, and the other
/// way round.
pub proof fn lemma_prev_undoes_next(x: u8)
    requires
        x < 8,
    ensures
        seq_prev(seq_next(x)) == x,
        seq_next(seq_prev(x)) == x,
{
}

/// The sequence number `i` steps after `start`.
pub open spec fn seq_step(start: u8, i: nat) -> u8
    decreases i,
{
    if i == 0 {
        start
    } else {
        seq_next(seq_step(start, (i - 1) as nat))
    }
}

/// Stepping from a 3-bit number is addition modulo 8.
pub proof fn lemma_seq_step_mod8(start: u8, i: nat)
    requires
        start < 8,
    ensures
        seq_step(start, i) == (start + i) % 8,
    decreases i,
{
    if i > 0 {
        lemma_seq_step_mod8(start, (i - 1) as nat);
    }
}

/// The first time stepping from `c0` reaches `nr` is after
/// `(nr - c0) mod 8` steps.
pub proof fn lemma_first_hit(c0: u8, nr: u8, k: nat)
    requires
        c0 < 8,
        nr < 8,
        seq_step(c0, k) == nr,
        forall|i: nat| i < k ==> seq_step(c0, i) != nr,
    ensures
        k == (nr + 8 - c0) % 8,
{
    let g: nat = ((nr + 8 - c0) % 8) as nat;
    lemma_seq_step_mod8(c0, k);
    lemma_seq_step_mod8(c0, g);
    if g < k {
        assert(seq_step(c0, g) != nr);
    }
}

/// Loop measure of `confirm_sent_frames`: steps left until `nr` is reached.
spec fn seq_distance(c: u8, nr: u8) -> nat {
    if c < 8 {
        ((nr + 8 - c) % 8) as nat
    } else {
        8
    }
}

impl IQueueControl {
    /// All sequence numbers are 3-bit values.
    pub open spec fn wf(&self) -> bool {
        &&& self.tx_state.last_ns < 8
        &&& self.tx_state.confirm_ns < 8
        &&& self.tx_state.next_ns < 8
        &&& self.rx_state.next_nr < 8
    }

    /// Fresh control: every number is 0.
    pub fn new() -> (r: Self)
        ensures
            r.tx_state.last_ns == 0,
            r.tx_state.confirm_ns == 0,
            r.tx_state.next_ns == 0,
            r.rx_state.next_nr == 0,
    {
        IQueueControl {
            tx_state: IQueueControlSend { last_ns: 0, confirm_ns: 0, next_ns: 0 },
            rx_state: IQueueControlRecv { next_nr: 0 },
        }
    }

    /// Resets every number to 0.
    pub fn reset(&mut self)
        ensures
            final(self).tx_state.last_ns == 0,
            final(self).tx_state.confirm_ns == 0,
            final(self).tx_state.next_ns == 0,
            final(self).rx_state.next_nr == 0,
    {
        self.tx_state.last_ns = 0;
        self.tx_state.confirm_ns = 0;
        self.tx_state.next_ns = 0;
        self.rx_state.next_nr = 0;
    }

    /// The next frame number to be confirmed.
    pub fn get_next_frame_to_confirm(&self) -> (r: u8)
        ensures
            r == self.tx_state.confirm_ns,
    {
        self.tx_state.confirm_ns
    }

    /// The number the next allocated frame gets.
    pub fn get_last_ns(&self) -> (r: u8)
        ensures
            r == self.tx_state.last_ns,
    {
        self.tx_state.last_ns
    }

    /// Confirms sent frames up to (not including) `nr`.
    ///
    /// `on_confirm` is called with each frame number in turn, starting at
    /// the next frame to confirm; a frame counts as confirmed when it
    /// returns `true`, and confirmation stops at the first `false`.
    /// Returns whether any frame was confirmed.
    pub fn confirm_sent_frames<F>(&mut self, nr: u8, on_confirm: F) -> (r: bool) where
        F: Fn(u8) -> bool,

        requires
            nr < 8,
            old(self).tx_state.confirm_ns < 255,
            forall|s: u8| on_confirm.requires((s,)),
        ensures
            exists|k: nat|
                {
                    &&& final(self).tx_state.confirm_ns == seq_step(old(self).tx_state.confirm_ns, k)
                    &&& forall|i: nat|
                        i < k ==> {
                            &&& on_confirm.ensures(
                                (seq_step(old(self).tx_state.confirm_ns, i),),
                                true,
                            )
                            &&& seq_step(old(self).tx_state.confirm_ns, i) != nr
                        }
                    &&& (final(self).tx_state.confirm_ns == nr || on_confirm.ensures(
                        (final(self).tx_state.confirm_ns,),
                        false,
                    ))
                    &&& r == (k > 0)
                    &&& (old(self).tx_state.confirm_ns < 8 && final(self).tx_state.confirm_ns == nr
                        ==> k == (nr + 8 - old(self).tx_state.confirm_ns) % 8)
                },
            final(self).tx_state.last_ns == old(self).tx_state.last_ns,
            final(self).tx_state.next_ns == old(self).tx_state.next_ns,
            final(self).rx_state == old(self).rx_state,
    {
        let ghost c0 = self.tx_state.confirm_ns;
        let mut confirmed = false;
        let ghost mut k: nat = 0;
        while self.tx_state.confirm_ns != nr
            invariant_except_break
                nr < 8,
                forall|s: u8| on_confirm.requires((s,)),
                self.tx_state.confirm_ns == seq_step(c0, k),
                self.tx_state.confirm_ns < 255,
                forall|i: nat|
                    i < k ==> {
                        &&& on_confirm.ensures((seq_step(c0, i),), true)
                        &&& seq_step(c0, i) != nr
                    },
                confirmed == (k > 0),
                self.tx_state.last_ns == old(self).tx_state.last_ns,
                self.tx_state.next_ns == old(self).tx_state.next_ns,
                self.rx_state == old(self).rx_state,
            ensures
                self.tx_state.confirm_ns == seq_step(c0, k),
                forall|i: nat|
                    i < k ==> {
                        &&& on_confirm.ensures((seq_step(c0, i),), true)
                        &&& seq_step(c0, i) != nr
                    },
                self.tx_state.confirm_ns == nr || on_confirm.ensures(
                    (self.tx_state.confirm_ns,),
                    false,
                ),
                confirmed == (k > 0),
                self.tx_state.last_ns == old(self).tx_state.last_ns,
                self.tx_state.next_ns == old(self).tx_state.next_ns,
                self.rx_state == old(self).rx_state,
            decreases seq_distance(self.tx_state.confirm_ns, nr),
        {
            let c = self.tx_state.confirm_ns;
            let ok = on_confirm(c);
            if !ok {
                break;
            }
            self.tx_state.confirm_ns = (c + 1) & SEQ_BITS_MASK;
            proof {
                assert(((c + 1) as u8) & 7u8 == (c + 1) % 8) by (bit_vector)
                    requires
                        c < 255u8,
                ;
                assert(seq_step(c0, k + 1) == seq_next(seq_step(c0, k)));
                k = k + 1;
            }
            confirmed = true;
        }
        proof {
            if c0 < 8 && self.tx_state.confirm_ns == nr {
                lemma_first_hit(c0, nr, k);
            }
        }
        confirmed
    }

    /// Requests retransmission from frame `nr` on: rewinds the next frame
    /// to send to `nr` and returns what `on_retransmit(nr)` returns. When
    /// `nr` already is the next frame to send, nothing happens and the
    /// result is `false`.
    pub fn retransmit_frame<F>(&mut self, nr: u8, on_retransmit: F) -> (r: bool) where
        F: Fn(u8) -> bool,

        requires
            on_retransmit.requires((nr,)),
        ensures
            old(self).tx_state.next_ns == nr ==> !r && *final(self) == *old(self),
            old(self).tx_state.next_ns != nr ==> {
                &&& on_retransmit.ensures((nr,), r)
                &&& final(self).tx_state.next_ns == nr
                &&& final(self).tx_state.last_ns == old(self).tx_state.last_ns
                &&& final(self).tx_state.confirm_ns == old(self).tx_state.confirm_ns
                &&& final(self).rx_state == old(self).rx_state
            },
    {
        if self.tx_state.next_ns == nr {
            return false;
        }
        self.tx_state.next_ns = nr;
        on_retransmit(nr)
    }

    /// The next frame number to send.
    pub fn get_next_frame_to_send(&self) -> (r: u8)
        ensures
            r == self.tx_state.next_ns,
    {
        self.tx_state.next_ns
    }

    /// The next frame number expected from the remote side.
    pub fn get_next_frame_to_receive(&self) -> (r: u8)
        ensures
            r == self.rx_state.next_nr,
    {
        self.rx_state.next_nr
    }

    /// Advances the expected receive number.
    pub fn move_to_next_frame_to_receive(&mut self)
        requires
            old(self).rx_state.next_nr < 255,
        ensures
            final(self).rx_state.next_nr == seq_next(old(self).rx_state.next_nr),
            final(self).tx_state == old(self).tx_state,
    {
        let x = self.rx_state.next_nr;
        self.rx_state.next_nr = (x + 1) & SEQ_BITS_MASK;
        assert(((x + 1) as u8) & 7u8 == (x + 1) % 8) by (bit_vector)
            requires
                x < 255u8,
        ;
    }

    /// Moves the next free number back by one (undoes an allocation).
    pub fn move_to_previous_ns(&mut self)
        ensures
            final(self).tx_state.last_ns == seq_prev(old(self).tx_state.last_ns),
            final(self).tx_state.confirm_ns == old(self).tx_state.confirm_ns,
            final(self).tx_state.next_ns == old(self).tx_state.next_ns,
            final(self).rx_state == old(self).rx_state,
    {
        let x = self.tx_state.last_ns;
        self.tx_state.last_ns = (x.wrapping_sub(1)) & SEQ_BITS_MASK;
        assert(x == 0u8 ==> (x.wrapping_sub(1)) & 7u8 == 7u8) by (bit_vector);
        assert(x != 0u8 ==> (x.wrapping_sub(1)) & 7u8 == (x - 1) % 8) by (bit_vector);
    }

    /// Advances the next free number (allocates a frame number).
    pub fn move_to_next_ns(&mut self)
        requires
            old(self).tx_state.last_ns < 255,
        ensures
            final(self).tx_state.last_ns == seq_next(old(self).tx_state.last_ns),
            final(self).tx_state.confirm_ns == old(self).tx_state.confirm_ns,
            final(self).tx_state.next_ns == old(self).tx_state.next_ns,
            final(self).rx_state == old(self).rx_state,
    {
        let x = self.tx_state.last_ns;
        self.tx_state.last_ns = (x + 1) & SEQ_BITS_MASK;
        assert(((x + 1) as u8) & 7u8 == (x + 1) % 8) by (bit_vector)
            requires
                x < 255u8,
        ;
    }

    /// Advances the next number to send (marks a frame as sent).
    pub fn advance_next_ns(&mut self)
        requires
            old(self).tx_state.next_ns < 255,
        ensures
            final(self).tx_state.next_ns == seq_next(old(self).tx_state.next_ns),
            final(self).tx_state.confirm_ns == old(self).tx_state.confirm_ns,
            final(self).tx_state.last_ns == old(self).tx_state.last_ns,
            final(self).rx_state == old(self).rx_state,
    {
        let x = self.tx_state.next_ns;
        self.tx_state.next_ns = (x + 1) & SEQ_BITS_MASK;
        assert(((x + 1) as u8) & 7u8 == (x + 1) % 8) by (bit_vector)
            requires
                x < 255u8,
        ;
    }

    /// Whether sent frames are waiting for confirmation.
    pub fn has_unconfirmed_frames(&self) -> (r: bool)
        ensures
            r == (self.tx_state.confirm_ns != self.tx_state.last_ns),
    {
        self.tx_state.confirm_ns != self.tx_state.last_ns
    }

    /// Whether every allocated frame has been sent.
    pub fn all_frames_are_sent(&self) -> (r: bool)
        ensures
            r == (self.tx_state.next_ns == self.tx_state.last_ns),
    {
        self.tx_state.next_ns == self.tx_state.last_ns
    }

    /// Whether the transmit window is full (no number can be allocated).
    pub fn tx_full(&self) -> (r: bool)
        requires
            self.tx_state.last_ns < 255,
        ensures
            r == (seq_next(self.tx_state.last_ns) == self.tx_state.confirm_ns),
    {
        let x = self.tx_state.last_ns;
        assert(((x + 1) as u8) & 7u8 == (x + 1) % 8) by (bit_vector)
            requires
                x < 255u8,
        ;
        ((x + 1) & SEQ_BITS_MASK) == self.tx_state.confirm_ns
    }
}

} // verus!
