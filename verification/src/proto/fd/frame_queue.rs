//! Frame queues of the Full-Duplex protocol: fixed sets of slots holding
//! the I-frames and the S/U-frames that wait for transmission.
use vstd::prelude::*;
use crate::proto::fd::frames::{FrameInfo, FrameEntry, FrameHeader, QueuedFrameType};

verus! {

/// The contents of a list of slots.
pub open spec fn slots_view(v: Seq<Option<FrameInfo>>) -> Seq<Option<FrameEntry>> {
    v.map_values(
        |o: Option<FrameInfo>|
            match o {
                Some(f) => Some(f@),
                None => None,
            },
    )
}

/// The N(S) field of an I-frame control byte.
pub open spec fn control_ns(control: u8) -> u8 {
    (control >> 5u8) & 7u8
}

/// Index of the first free slot met when walking the slots cyclically from
/// `start`, having already looked at `i` of them.
pub open spec fn free_index_from(slots: Seq<Option<FrameEntry>>, start: int, i: nat) -> Option<int>
    decreases slots.len() - i,
{
    if i >= slots.len() {
        None
    } else if slots[(start + i) % (slots.len() as int)] is None {
        Some((start + i) % (slots.len() as int))
    } else {
        free_index_from(slots, start, i + 1)
    }
}

/// Whether a queued frame is one that `get_next` looks for: its type and
/// address match, and for I-frames its N(S) is `arg`.
pub open spec fn entry_matches(e: FrameEntry, frame_type: QueuedFrameType, address: u8, arg: u8) -> bool {
    &&& e.frame_type == frame_type
    &&& e.header.address == address
    &&& (frame_type == QueuedFrameType::IFrame ==> control_ns(e.header.control) == arg)
}

/// Whether slot `i` holds a frame that `get_next` looks for.
pub open spec fn slot_matches(
    slots: Seq<Option<FrameEntry>>,
    i: int,
    frame_type: QueuedFrameType,
    address: u8,
    arg: u8,
) -> bool {
    slots[i] matches Some(e) && entry_matches(e, frame_type, address, arg)
}

/// Whether slot `i` holds a frame with the given address and control byte.
pub open spec fn slot_has_header(slots: Seq<Option<FrameEntry>>, i: int, address: u8, control: u8) -> bool {
    slots[i] matches Some(e) && e.header.address == address && e.header.control == control
}

/// Whether slot `i` holds an I-frame for `address` numbered `ns`.
pub open spec fn slot_has_ns(slots: Seq<Option<FrameEntry>>, i: int, address: u8, ns: u8) -> bool {
    slots[i] matches Some(e) && e.frame_type == QueuedFrameType::IFrame && e.header.address
        == address && control_ns(e.header.control) == ns
}

/// Index of the first slot from `i` on holding an I-frame for `address`
/// numbered `ns`; the number of slots when there is none.
pub open spec fn first_ns_slot(slots: Seq<Option<FrameEntry>>, address: u8, ns: u8, i: nat) -> nat
    decreases slots.len() - i,
{
    if i >= slots.len() {
        slots.len()
    } else if slot_has_ns(slots, i as int, address, ns) {
        i
    } else {
        first_ns_slot(slots, address, ns, i + 1)
    }
}

/// The slots with the first I-frame for `address` numbered `ns` freed.
pub open spec fn free_first_ns(slots: Seq<Option<FrameEntry>>, address: u8, ns: u8) -> Seq<
    Option<FrameEntry>,
> {
    let i = first_ns_slot(slots, address, ns, 0);
    if i < slots.len() {
        slots.update(i as int, None)
    } else {
        slots
    }
}

/// Index of the first slot from `i` on holding a frame with the given
/// address and control byte; the number of slots when there is none.
pub open spec fn first_header_slot(slots: Seq<Option<FrameEntry>>, address: u8, control: u8, i: nat) -> nat
    decreases slots.len() - i,
{
    if i >= slots.len() {
        slots.len()
    } else if slot_has_header(slots, i as int, address, control) {
        i
    } else {
        first_header_slot(slots, address, control, i + 1)
    }
}

/// Index of the first slot from `i` on that `get_next` would return; the
/// number of slots when there is none.
pub open spec fn first_match_slot(
    slots: Seq<Option<FrameEntry>>,
    frame_type: QueuedFrameType,
    address: u8,
    arg: u8,
    i: nat,
) -> nat
    decreases slots.len() - i,
{
    if i >= slots.len() {
        slots.len()
    } else if slot_matches(slots, i as int, frame_type, address, arg) {
        i
    } else {
        first_match_slot(slots, frame_type, address, arg, i + 1)
    }
}

/// Index of the first used slot from `i` on; the number of slots when there
/// is none.
pub open spec fn first_used_slot(slots: Seq<Option<FrameEntry>>, i: nat) -> nat
    decreases slots.len() - i,
{
    if i >= slots.len() {
        slots.len()
    } else if slots[i as int] is Some {
        i
    } else {
        first_used_slot(slots, i + 1)
    }
}

/// Whether some slot is free.
pub open spec fn has_free_slot(slots: Seq<Option<FrameEntry>>) -> bool {
    exists|i: int| 0 <= i < slots.len() && slots[i] is None
}

/// A slot that the cyclic search finds is a free slot.
pub proof fn lemma_free_index_valid(slots: Seq<Option<FrameEntry>>, start: int, i: nat)
    requires
        0 <= start,
    ensures
        free_index_from(slots, start, i) matches Some(idx) ==> 0 <= idx < slots.len() && slots[idx]
            is None,
    decreases slots.len() - i,
{
    if i < slots.len() {
        lemma_free_index_valid(slots, start, i + 1);
    }
}

proof fn lemma_free_found(slots: Seq<Option<FrameEntry>>, start: int, i: nat, j: int, i0: nat)
    requires
        0 <= start < slots.len(),
        0 <= j < slots.len(),
        slots[j] is None,
        i0 < slots.len(),
        start + i0 == j || start + i0 == j + slots.len(),
        i <= i0,
    ensures
        free_index_from(slots, start, i) is Some,
    decreases i0 - i,
{
    let n = slots.len() as int;
    if (start + i) % n != j || slots[(start + i) % n] is Some {
        if i == i0 {
            vstd::arithmetic::div_mod::lemma_small_mod(j as nat, n as nat);
            if start + i0 != j {
                vstd::arithmetic::div_mod::lemma_mod_add_multiples_vanish(j, n);
                assert(n + j == start + i);
            }
        } else {
            lemma_free_found(slots, start, i + 1, j, i0);
        }
    }
}

/// The cyclic search from any valid start finds a free slot exactly when
/// there is one.
pub proof fn lemma_free_index_iff(slots: Seq<Option<FrameEntry>>, start: int)
    requires
        0 <= start < slots.len() || (slots.len() == 0 && start == 0),
    ensures
        free_index_from(slots, start, 0) is Some <==> has_free_slot(slots),
{
    if has_free_slot(slots) {
        let j = choose|j: int| 0 <= j < slots.len() && slots[j] is None;
        let i0: nat = if j >= start {
            (j - start) as nat
        } else {
            (j - start + slots.len()) as nat
        };
        lemma_free_found(slots, start, 0, j, i0);
    } else {
        lemma_free_none(slots, start, 0);
    }
}

proof fn lemma_free_index_shift(slots: Seq<Option<FrameEntry>>, start: int, i: nat)
    requires
        0 <= start,
        slots.len() > 0,
    ensures
        free_index_from(slots, start, i) == free_index_from(
            slots,
            start % (slots.len() as int),
            i,
        ),
    decreases slots.len() - i,
{
    let n = slots.len() as int;
    if i < slots.len() {
        vstd::arithmetic::div_mod::lemma_add_mod_noop(start, i as int, n);
        vstd::arithmetic::div_mod::lemma_add_mod_noop(start % n, i as int, n);
        vstd::arithmetic::div_mod::lemma_mod_twice(start, n);
        assert((start + i) % n == (start % n + i) % n);
        lemma_free_index_shift(slots, start, i + 1);
    }
}

/// The cyclic search from any start finds a free slot exactly when there
/// is one.
pub proof fn lemma_free_index_any_start(slots: Seq<Option<FrameEntry>>, start: int)
    requires
        0 <= start,
    ensures
        free_index_from(slots, start, 0) is Some <==> has_free_slot(slots),
{
    if slots.len() == 0 {
        lemma_free_none(slots, start, 0);
    } else {
        let n = slots.len() as int;
        vstd::arithmetic::div_mod::lemma_mod_pos_bound(start, n);
        lemma_free_index_shift(slots, start, 0);
        lemma_free_index_iff(slots, start % n);
    }
}

proof fn lemma_free_none(slots: Seq<Option<FrameEntry>>, start: int, i: nat)
    requires
        !has_free_slot(slots),
        0 <= start,
    ensures
        free_index_from(slots, start, i) is None,
    decreases slots.len() - i,
{
    if i < slots.len() {
        let n = slots.len() as int;
        let k = (start + i) % n;
        assert(0 <= k < n);
        assert(slots[k] is Some);
        lemma_free_none(slots, start, i + 1);
    }
}

/// Filling a free slot adds one to the number of used slots.
pub proof fn lemma_count_fill(slots: Seq<Option<FrameEntry>>, idx: int, e: FrameEntry)
    requires
        0 <= idx < slots.len(),
        slots[idx] is None,
    ensures
        count_used(slots.update(idx, Some(e))) == count_used(slots) + 1,
    decreases slots.len(),
{
    let u = slots.update(idx, Some(e));
    if idx == slots.len() - 1 {
        assert(u.drop_last() =~= slots.drop_last());
    } else {
        assert(u.drop_last() =~= slots.drop_last().update(idx, Some(e)));
        lemma_count_fill(slots.drop_last(), idx, e);
    }
}

/// A slot with any frame for `address` removed.
pub open spec fn slot_without_address(o: Option<FrameEntry>, address: u8) -> Option<FrameEntry> {
    match o {
        Some(e) => if e.header.address == address {
            None
        } else {
            Some(e)
        },
        None => None,
    }
}

/// Number of occupied slots.
pub open spec fn count_used(slots: Seq<Option<FrameEntry>>) -> nat
    decreases slots.len(),
{
    if slots.len() == 0 {
        0
    } else {
        count_used(slots.drop_last()) + if slots.last() is Some {
            1nat
        } else {
            0nat
        }
    }
}

/// Queue of frames waiting for transmission.
pub struct FrameQueue {
    frames: Vec<Option<FrameInfo>>,
    mtu: usize,
    lookup_index: usize,
}

impl FrameQueue {
    /// The slots.
    pub closed spec fn slots(&self) -> Seq<Option<FrameEntry>> {
        slots_view(self.frames@)
    }

    /// Where the search for a free slot starts.
    pub closed spec fn lookup(&self) -> nat {
        self.lookup_index as nat
    }

    /// The MTU the queue was created with.
    pub closed spec fn mtu(&self) -> nat {
        self.mtu as nat
    }

    /// Internal consistency.
    pub closed spec fn wf(&self) -> bool {
        &&& self.frames@.len() <= usize::MAX / 64
        &&& (self.lookup_index < self.frames@.len() || (self.frames@.len() == 0
            && self.lookup_index == 0))
    }

    /// Creates a queue of `max_frames` free slots.
    pub fn new(max_frames: usize, mtu: usize) -> (r: Self)
        requires
            max_frames <= usize::MAX / 64,
        ensures
            r.wf(),
            r.slots() == Seq::new(max_frames as nat, |i: int| None::<FrameEntry>),
            r.lookup() == 0,
            r.mtu() == mtu,
    {
        let mut frames: Vec<Option<FrameInfo>> = Vec::with_capacity(max_frames);
        let mut i: usize = 0;
        while i < max_frames
            invariant
                i <= max_frames,
                frames@.len() == i,
                forall|j: int| 0 <= j < i ==> frames@[j] is None,
            decreases max_frames - i,
        {
            frames.push(None);
            i = i + 1;
        }
        let q = FrameQueue { frames, mtu, lookup_index: 0 };
        assert(q.slots() =~= Seq::new(max_frames as nat, |i: int| None::<FrameEntry>));
        q
    }

    /// Frees every slot and restarts the free-slot search at slot 0.
    pub fn reset(&mut self)
        requires
            old(self).wf(),
        ensures
            final(self).wf(),
            final(self).slots() == Seq::new(old(self).slots().len(), |i: int| None::<FrameEntry>),
            final(self).lookup() == 0,
            final(self).mtu() == old(self).mtu(),
    {
        let n = self.frames.len();
        let mut i: usize = 0;
        while i < n
            invariant
                i <= n,
                n == self.frames@.len(),
                n <= usize::MAX / 64,
                self.mtu == old(self).mtu,
                forall|j: int| 0 <= j < i ==> self.frames@[j] is None,
            decreases n - i,
        {
            self.frames.set(i, None);
            i = i + 1;
        }
        self.lookup_index = 0;
        assert(self.slots() =~= Seq::new(old(self).slots().len(), |i: int| None::<FrameEntry>));
    }

    /// Frees every slot holding a frame with the given address.
    pub fn reset_for(&mut self, address: u8)
        requires
            old(self).wf(),
        ensures
            final(self).wf(),
            final(self).slots() == old(self).slots().map_values(
                |o: Option<FrameEntry>| slot_without_address(o, address),
            ),
            final(self).lookup() == old(self).lookup(),
            final(self).mtu() == old(self).mtu(),
    {
        let ghost target = old(self).slots().map_values(
            |o: Option<FrameEntry>| slot_without_address(o, address),
        );
        let n = self.frames.len();
        let mut i: usize = 0;
        while i < n
            invariant
                i <= n,
                n == self.frames@.len(),
                n == old(self).frames@.len(),
                old(self).wf(),
                self.mtu == old(self).mtu,
                self.lookup_index == old(self).lookup_index,
                target == old(self).slots().map_values(
                    |o: Option<FrameEntry>| slot_without_address(o, address),
                ),
                target.len() == n,
                forall|j: int| 0 <= j < i ==> self.slots()[j] == target[j],
                forall|j: int| i <= j < n ==> self.frames@[j] == old(self).frames@[j],
            decreases n - i,
        {
            let hit = match &self.frames[i] {
                Some(f) => f.header.address == address,
                None => false,
            };
            let ghost prev = self.slots();
            assert(prev[i as int] == old(self).slots()[i as int]);
            if hit {
                self.frames.set(i, None);
                assert(self.slots() =~= prev.update(i as int, None));
            }
            assert(target[i as int] == slot_without_address(prev[i as int], address));
            assert(self.slots()[i as int] == target[i as int]);
            i = i + 1;
        }
        assert(self.slots() =~= target);
    }

    /// Whether some slot is free.
    pub fn has_free_slots(&self) -> (r: bool)
        ensures
            r == has_free_slot(self.slots()),
    {
        let mut i: usize = 0;
        while i < self.frames.len()
            invariant
                i <= self.frames@.len(),
                forall|j: int| 0 <= j < i ==> self.slots()[j] is Some,
            decreases self.frames@.len() - i,
        {
            if self.frames[i].is_none() {
                assert(self.slots()[i as int] is None);
                return true;
            }
            i = i + 1;
        }
        false
    }

    /// The MTU the queue was created with.
    pub fn get_mtu(&self) -> (r: usize)
        ensures
            r == self.mtu(),
    {
        self.mtu
    }

    /// Stores a frame (payload copied) in the first free slot met when
    /// walking the slots cyclically from the lookup index, and moves the
    /// lookup index past it. Returns the slot index, or `None` (nothing
    /// changed) when every slot is used.
    pub fn allocate(&mut self, frame_type: QueuedFrameType, header: FrameHeader, data: &[u8]) -> (r:
        Option<usize>)
        requires
            old(self).wf(),
        ensures
            final(self).wf(),
            final(self).mtu() == old(self).mtu(),
            match free_index_from(old(self).slots(), old(self).lookup() as int, 0) {
                None => r is None && final(self).slots() == old(self).slots() && final(self).lookup()
                    == old(self).lookup(),
                Some(idx) => r == Some(idx as usize) && final(self).slots() == old(
                    self,
                ).slots().update(idx, Some(FrameEntry { frame_type, header, payload: data@ }))
                    && final(self).lookup() == (idx + 1) % (old(self).slots().len() as int),
            },
            r is Some <==> has_free_slot(old(self).slots()),
            r is Some ==> count_used(final(self).slots()) == count_used(old(self).slots()) + 1,
            r matches Some(i) ==> {
                &&& i < old(self).slots().len()
                &&& old(self).slots()[i as int] is None
                &&& final(self).slots() == old(self).slots().update(
                    i as int,
                    Some(FrameEntry { frame_type, header, payload: data@ }),
                )
            },
    {
        let len = self.frames.len();
        let ghost sl = old(self).slots();
        let ghost start = self.lookup_index as int;
        proof {
            lemma_free_index_iff(sl, start);
        }
        let mut i: usize = 0;
        while i < len
            invariant
                i <= len,
                len == self.frames@.len(),
                *self == *old(self),
                self.wf(),
                sl == self.slots(),
                start == self.lookup_index,
                free_index_from(sl, start, 0) == free_index_from(sl, start, i as nat),
            decreases len - i,
        {
            let idx = (self.lookup_index + i) % len;
            if self.frames[idx].is_none() {
                assert(sl[idx as int] is None);
                let f = FrameInfo::new(frame_type, header, data);
                self.frames.set(idx, Some(f));
                self.lookup_index = (idx + 1) % len;
                assert(self.slots() =~= sl.update(idx as int, Some(f@)));
                proof {
                    lemma_count_fill(sl, idx as int, f@);
                }
                return Some(idx);
            }
            assert(sl[idx as int] is Some);
            i = i + 1;
        }
        None
    }

    /// The first slot (by index) holding a frame of the given type and
    /// address; for I-frames its N(S) must also equal `arg`.
    pub fn get_next(&self, frame_type: QueuedFrameType, address: u8, arg: u8) -> (r: Option<
        (usize, &FrameInfo),
    >)
        ensures
            ({
                let i = first_match_slot(self.slots(), frame_type, address, arg, 0);
                if i < self.slots().len() {
                    r matches Some((j, f)) && j == i && self.slots()[i as int] == Some(f@)
                } else {
                    r is None
                }
            }),
    {
        let mut i: usize = 0;
        while i < self.frames.len()
            invariant
                i <= self.frames@.len(),
                first_match_slot(self.slots(), frame_type, address, arg, 0) == first_match_slot(
                    self.slots(),
                    frame_type,
                    address,
                    arg,
                    i as nat,
                ),
            decreases self.frames@.len() - i,
        {
            match &self.frames[i] {
                Some(frame) => {
                    let hit = frame.frame_type == frame_type && frame.header.address == address
                        && (frame_type != QueuedFrameType::IFrame || ((frame.header.control >> 5u8)
                        & 7u8) == arg);
                    if hit {
                        assert(slot_matches(self.slots(), i as int, frame_type, address, arg));
                        return Some((i, frame));
                    }
                },
                None => {},
            }
            i = i + 1;
        }
        None
    }

    /// The frame in slot `index`, if the slot exists and is used.
    pub fn get(&self, index: usize) -> (r: Option<&FrameInfo>)
        ensures
            index >= self.slots().len() ==> r is None,
            index < self.slots().len() ==> match self.slots()[index as int] {
                None => r is None,
                Some(e) => r matches Some(f) && f@ == e,
            },
    {
        if index >= self.frames.len() {
            return None;
        }
        match &self.frames[index] {
            Some(f) => Some(f),
            None => None,
        }
    }

    /// The frame in slot `index`, for changing it in place; `None` when
    /// there is no such slot or it is free.
    pub fn get_mut(&mut self, index: usize) -> (r: Option<&mut FrameInfo>)
        requires
            old(self).wf(),
        ensures
            (index >= old(self).slots().len() || old(self).slots()[index as int] is None) ==> r is None
                && final(self).slots() == old(self).slots(),
            index < old(self).slots().len() && old(self).slots()[index as int] is Some ==> (r matches Some(
                f,
            ) && (*f)@ == old(self).slots()[index as int]->0 && final(self).slots() == old(
                self,
            ).slots().update(index as int, Some((*final(f))@))),
            final(self).wf(),
            final(self).lookup() == old(self).lookup(),
            final(self).mtu() == old(self).mtu(),
    {
        if index >= self.frames.len() {
            return None;
        }
        self.frames[index].as_mut()
    }

    /// Frees slot `index` (no effect when there is no such slot).
    pub fn free(&mut self, index: usize)
        requires
            old(self).wf(),
        ensures
            final(self).wf(),
            final(self).mtu() == old(self).mtu(),
            final(self).lookup() == old(self).lookup(),
            index < old(self).slots().len() ==> final(self).slots() == old(self).slots().update(
                index as int,
                None,
            ),
            index >= old(self).slots().len() ==> final(self).slots() == old(self).slots(),
    {
        if index < self.frames.len() {
            self.frames.set(index, None);
            assert(self.slots() =~= old(self).slots().update(index as int, None));
        }
    }

    /// Frees the first slot holding a frame with the given address and
    /// control byte.
    pub fn free_by_header(&mut self, address: u8, control: u8)
        requires
            old(self).wf(),
        ensures
            final(self).wf(),
            final(self).mtu() == old(self).mtu(),
            final(self).lookup() == old(self).lookup(),
            ({
                let i = first_header_slot(old(self).slots(), address, control, 0);
                final(self).slots() == if i < old(self).slots().len() {
                    old(self).slots().update(i as int, None)
                } else {
                    old(self).slots()
                }
            }),
    {
        let mut i: usize = 0;
        while i < self.frames.len()
            invariant
                *self == *old(self),
                old(self).wf(),
                i <= self.frames@.len(),
                first_header_slot(old(self).slots(), address, control, 0) == first_header_slot(
                    old(self).slots(),
                    address,
                    control,
                    i as nat,
                ),
            decreases self.frames@.len() - i,
        {
            let hit = match &self.frames[i] {
                Some(frame) => frame.header.address == address && frame.header.control == control,
                None => false,
            };
            if hit {
                assert(slot_has_header(old(self).slots(), i as int, address, control));
                self.frames.set(i, None);
                assert(self.slots() =~= old(self).slots().update(i as int, None));
                return ;
            }
            i = i + 1;
        }
    }

    /// Frees the first slot holding an I-frame for `address` numbered `ns`.
    pub fn free_by_ns(&mut self, address: u8, ns: u8)
        requires
            old(self).wf(),
        ensures
            final(self).wf(),
            final(self).mtu() == old(self).mtu(),
            final(self).lookup() == old(self).lookup(),
            final(self).slots() == free_first_ns(old(self).slots(), address, ns),
    {
        let mut i: usize = 0;
        while i < self.frames.len()
            invariant
                *self == *old(self),
                old(self).wf(),
                i <= self.frames@.len(),
                first_ns_slot(old(self).slots(), address, ns, 0) == first_ns_slot(
                    old(self).slots(),
                    address,
                    ns,
                    i as nat,
                ),
            decreases self.frames@.len() - i,
        {
            let hit = match &self.frames[i] {
                Some(frame) => frame.frame_type == QueuedFrameType::IFrame && frame.header.address
                    == address && ((frame.header.control >> 5u8) & 7u8) == ns,
                None => false,
            };
            if hit {
                assert(slot_has_ns(old(self).slots(), i as int, address, ns));
                self.frames.set(i, None);
                assert(self.slots() =~= old(self).slots().update(i as int, None));
                return ;
            }
            i = i + 1;
        }
    }

    /// Number of occupied slots.
    pub fn count(&self) -> (r: usize)
        ensures
            r == count_used(self.slots()),
    {
        let mut n: usize = 0;
        let mut i: usize = 0;
        while i < self.frames.len()
            invariant
                i <= self.frames@.len(),
                n == count_used(self.slots().take(i as int)),
                n <= i,
            decreases self.frames@.len() - i,
        {
            assert(self.slots().take(i + 1).drop_last() =~= self.slots().take(i as int));
            if self.frames[i].is_some() {
                n = n + 1;
            }
            i = i + 1;
        }
        assert(self.slots().take(i as int) =~= self.slots());
        n
    }

    /// Number of slots.
    pub fn capacity(&self) -> (r: usize)
        ensures
            r == self.slots().len(),
    {
        self.frames.len()
    }
}

/// The two frame queues of the Full-Duplex protocol.
pub struct FramesQueue {
    /// I-frame queue.
    pub i_queue: FrameQueue,
    /// S/U-frame service queue.
    pub s_queue: FrameQueue,
}

impl FramesQueue {
    /// Creates the queues with the given numbers of slots.
    pub fn new(i_queue_size: usize, s_queue_size: usize, mtu: usize) -> (r: Self)
        requires
            i_queue_size <= usize::MAX / 64,
            s_queue_size <= usize::MAX / 64,
        ensures
            r.i_queue.wf(),
            r.s_queue.wf(),
            r.i_queue.slots() == Seq::new(i_queue_size as nat, |i: int| None::<FrameEntry>),
            r.s_queue.slots() == Seq::new(s_queue_size as nat, |i: int| None::<FrameEntry>),
            r.i_queue.lookup() == 0,
            r.s_queue.lookup() == 0,
            r.i_queue.mtu() == mtu,
            r.s_queue.mtu() == mtu,
    {
        FramesQueue {
            i_queue: FrameQueue::new(i_queue_size, mtu),
            s_queue: FrameQueue::new(s_queue_size, mtu),
        }
    }

    /// Resets both queues.
    pub fn reset(&mut self)
        requires
            old(self).i_queue.wf(),
            old(self).s_queue.wf(),
        ensures
            final(self).i_queue.wf(),
            final(self).s_queue.wf(),
            final(self).i_queue.slots() == Seq::new(
                old(self).i_queue.slots().len(),
                |i: int| None::<FrameEntry>,
            ),
            final(self).s_queue.slots() == Seq::new(
                old(self).s_queue.slots().len(),
                |i: int| None::<FrameEntry>,
            ),
            final(self).i_queue.lookup() == 0,
            final(self).s_queue.lookup() == 0,
            final(self).i_queue.mtu() == old(self).i_queue.mtu(),
            final(self).s_queue.mtu() == old(self).s_queue.mtu(),
    {
        self.i_queue.reset();
        self.s_queue.reset();
    }
}

} // verus!
