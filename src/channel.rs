//! Transmit and receive state machines, the bidirectional channel that pairs
//! them under a peripheral marker, and the handle of a transfer in flight.
use vstd::prelude::*;
use core::marker::PhantomData;
use crate::regs::{
    DmaPriority, DmaRegisters, RegisterAccess, RegisterOp, out_flags_cleared, in_flags_cleared,
};
use crate::ring::{
    ConfigError, Descriptor, Owner, DescriptorRing, chain_for, lemma_link_bounds, lemma_slot_unique,
    link_count, link_end, link_for, requeued,
};

verus! {

/// Where one direction of a channel stands.
#[derive(Clone, Copy, Debug, PartialEq, Eq, Structural)]
pub enum ChannelState {
    /// Configured, and free to start a transfer.
    Idle,
    /// The engine is walking the chain.
    Running,
    /// The whole chain was walked.
    Completed,
    /// The engine reported a descriptor error.
    Errored,
}

/// Failures of a transfer that was started.
#[derive(Clone, Copy, Debug, PartialEq, Eq, Structural)]
pub enum TransferError {
    DescriptorChainCorrupt,
    Timeout,
}

/// What one direction holds, as the contracts see it. Links `done` up to
/// `queued` of the current chain sit in the ring, not yet confirmed by the
/// engine; links before `done` were confirmed, links from `queued` on wait for
/// a free slot.
pub struct DirectionView {
    pub state: ChannelState,
    pub burst_mode: bool,
    pub buffer_len: nat,
    pub links: nat,
    pub queued: nat,
    pub done: nat,
    pub progress: nat,
    pub last_seen: Option<usize>,
    pub link_capacity: nat,
    pub chain: Seq<Descriptor>,
}

/// Slot `s` holds a queued link that the engine has not confirmed yet.
pub open spec fn in_window(v: DirectionView, s: nat) -> bool {
    exists|k: nat| v.done <= k < v.queued && #[trigger] (k % v.chain.len()) == s
}

/// The queued, unconfirmed link that sits in slot `s`.
pub open spec fn seen_link(v: DirectionView, s: nat) -> nat {
    choose|k: nat| v.done <= k < v.queued && #[trigger] (k % v.chain.len()) == s
}

/// How far the ring is filled once links before `done` are confirmed: up to a
/// full ring, or the end of the chain.
pub open spec fn refill_target(links: nat, done: nat, count: nat) -> nat {
    if done + count < links {
        done + count
    } else {
        links
    }
}

/// The ring `chain` once the slots of links `from` up to `to` were given back
/// to the CPU.
pub open spec fn released(chain: Seq<Descriptor>, from: nat, to: nat) -> Seq<Descriptor>
    decreases to - from,
{
    if to <= from {
        chain
    } else {
        let prev = released(chain, from, (to - 1) as nat);
        let slot = ((to - 1) as nat % chain.len()) as int;
        prev.update(slot, Descriptor { owner: Owner::Cpu, ..prev[slot] })
    }
}

/// One direction's view once the engine confirmed links up to `k`: their
/// slots go back to the CPU, and the freed slots are given the next links of
/// the chain.
pub open spec fn confirmed(v: DirectionView, k: nat) -> DirectionView {
    let q = refill_target(v.links, k + 1, v.chain.len());
    DirectionView {
        done: k + 1,
        last_seen: Some((k % v.chain.len()) as usize),
        progress: link_end(v.buffer_len, v.link_capacity, k),
        queued: q,
        chain: requeued(
            released(v.chain, v.done, k + 1),
            v.buffer_len,
            v.link_capacity,
            v.queued,
            q,
        ),
        ..v
    }
}

/// Byte offset just past the data of link `k` when the peripheral wrote
/// `bytes` into it and ended the frame there; never past the link.
pub open spec fn eof_end(len: nat, cap: nat, k: nat, bytes: nat) -> nat {
    if k * cap + bytes < link_end(len, cap, k) {
        k * cap + bytes
    } else {
        link_end(len, cap, k)
    }
}

/// One direction's view after a poll of the transmit flags.
pub open spec fn tx_polled(v: DirectionView, r: DmaRegisters) -> DirectionView {
    if v.state != ChannelState::Running {
        v
    } else if r.out_descriptor_error {
        DirectionView { state: ChannelState::Errored, ..v }
    } else if r.out_eof {
        DirectionView { state: ChannelState::Completed, progress: v.buffer_len, ..v }
    } else if r.out_done && v.last_seen != Some(r.out_eof_descriptor) && in_window(
        v,
        r.out_eof_descriptor as nat,
    ) {
        confirmed(v, seen_link(v, r.out_eof_descriptor as nat))
    } else {
        v
    }
}

/// One direction's view after a poll of the receive flags. Receiving ends when
/// the last link is filled, or earlier when the peripheral ends the frame.
pub open spec fn rx_polled(v: DirectionView, r: DmaRegisters) -> DirectionView {
    if v.state != ChannelState::Running {
        v
    } else if r.in_descriptor_error {
        DirectionView { state: ChannelState::Errored, ..v }
    } else if r.in_done && v.last_seen != Some(r.in_descriptor) && in_window(
        v,
        r.in_descriptor as nat,
    ) {
        let k = seen_link(v, r.in_descriptor as nat);
        DirectionView {
            state: if r.in_suc_eof || k + 1 == v.links {
                ChannelState::Completed
            } else {
                ChannelState::Running
            },
            progress: if r.in_suc_eof {
                eof_end(v.buffer_len, v.link_capacity, k, r.in_eof_length as nat)
            } else {
                link_end(v.buffer_len, v.link_capacity, k)
            },
            ..confirmed(v, k)
        }
    } else if r.in_suc_eof {
        DirectionView { state: ChannelState::Completed, ..v }
    } else {
        v
    }
}

/// One direction's view once a transfer of `len` bytes was armed.
pub open spec fn armed(v: DirectionView, len: nat) -> DirectionView {
    let n = link_count(len, v.link_capacity);
    DirectionView {
        state: ChannelState::Running,
        buffer_len: len,
        links: n,
        queued: if n < v.chain.len() {
            n
        } else {
            v.chain.len()
        },
        done: 0,
        progress: 0,
        last_seen: None,
        chain: chain_for(len, v.link_capacity, v.chain.len()),
        ..v
    }
}

/// `log` followed by the writes that configure both directions.
pub open spec fn after_configure_ops(log: Seq<RegisterOp>, burst_mode: bool, priority: DmaPriority) -> Seq<RegisterOp> {
    log.push(RegisterOp::InitChannel).push(RegisterOp::SetOutBurstMode(burst_mode)).push(
        RegisterOp::SetOutPriority(priority),
    ).push(RegisterOp::SetInBurstMode(burst_mode)).push(RegisterOp::SetInPriority(priority))
}

/// `log` followed by the writes that start a transfer: for each direction in
/// turn, acknowledge its flags, reset it, point it at the first descriptor of
/// its freshly filled ring, start it.
pub open spec fn after_transfer_ops(log: Seq<RegisterOp>) -> Seq<RegisterOp> {
    log.push(RegisterOp::ClearOutInterrupts).push(RegisterOp::ResetOut).push(
        RegisterOp::SetOutDescriptors(0),
    ).push(RegisterOp::StartOut).push(RegisterOp::ClearInInterrupts).push(RegisterOp::ResetIn).push(
        RegisterOp::SetInDescriptors(0),
    ).push(RegisterOp::StartIn)
}

/// Register state once both directions were acknowledged, reset, pointed at
/// the first descriptor of their rings and started.
pub open spec fn started(r: DmaRegisters) -> DmaRegisters {
    DmaRegisters {
        out_link: 0,
        in_link: 0,
        out_started: true,
        in_started: true,
        ..in_flags_cleared(out_flags_cleared(r))
    }
}

/// Slot `s` of a ring of `count` is the slot of some link from `lo` up to `hi`.
pub open spec fn slot_of_some(lo: nat, hi: nat, count: nat, s: nat) -> bool {
    exists|w: nat| lo <= w < hi && #[trigger] (w % count) == s
}

/// Slot `k % count` of `chain` holds link `k` of a buffer of `len` bytes.
pub open spec fn holds_link(chain: Seq<Descriptor>, len: nat, cap: nat, k: nat) -> bool {
    chain[(k % chain.len()) as int] == link_for(len, cap, chain.len(), k)
}

/// One direction of a channel: its descriptor ring and the progress of the
/// current transfer.
pub struct Direction {
    ring: DescriptorRing,
    burst_mode: bool,
    state: ChannelState,
    buffer_len: usize,
    links: usize,
    queued: usize,
    done: usize,
    progress: usize,
    last_seen: Option<usize>,
}

impl Direction {
    pub closed spec fn view(&self) -> DirectionView {
        DirectionView {
            state: self.state,
            burst_mode: self.burst_mode,
            buffer_len: self.buffer_len as nat,
            links: self.links as nat,
            queued: self.queued as nat,
            done: self.done as nat,
            progress: self.progress as nat,
            last_seen: self.last_seen,
            link_capacity: self.ring.capacity_spec(),
            chain: self.ring@,
        }
    }

    /// Progress never passes the buffer; every queued, unconfirmed link sits
    /// in its slot; the ring is as full as the chain allows; and the engine
    /// owns no other slot, so it never walks a confirmed one again.
    pub closed spec fn wf(&self) -> bool {
        let count = self.ring@.len();
        let len = self.buffer_len as nat;
        let cap = self.ring.capacity_spec();
        &&& self.ring.wf()
        &&& self.progress <= self.buffer_len
        &&& self.state == ChannelState::Running ==> self.buffer_len > 0
        &&& self.buffer_len == 0 ==> self.links == 0 && self.queued == 0 && self.done == 0
        &&& self.buffer_len > 0 ==> {
            &&& self.links == link_count(len, cap)
            &&& self.done <= self.queued <= self.links
            &&& self.queued <= self.done + count
            &&& self.queued == self.links || self.queued == self.done + count
            &&& forall|k: nat|
                self.done <= k < self.queued ==> #[trigger] holds_link(self.ring@, len, cap, k)
            &&& forall|i: int|
                0 <= i < count && (#[trigger] self.ring@[i]).owner == Owner::Dma ==> slot_of_some(
                    self.done as nat,
                    self.queued as nat,
                    count,
                    i as nat,
                )
        }
    }

    fn new(ring: DescriptorRing, burst_mode: bool) -> (r: Direction)
        requires
            ring.wf(),
        ensures
            r.wf(),
            r@ == (DirectionView {
                state: ChannelState::Idle,
                burst_mode,
                buffer_len: 0,
                links: 0,
                queued: 0,
                done: 0,
                progress: 0,
                last_seen: None,
                link_capacity: ring.capacity_spec(),
                chain: ring@,
            }),
    {
        Direction {
            ring,
            burst_mode,
            state: ChannelState::Idle,
            buffer_len: 0,
            links: 0,
            queued: 0,
            done: 0,
            progress: 0,
            last_seen: None,
        }
    }

    fn is_running(&self) -> (r: bool)
        ensures
            r == (self@.state == ChannelState::Running),
    {
        self.state == ChannelState::Running
    }

    /// Lays the first links for `len` bytes into the ring and marks the
    /// direction running.
    fn arm(&mut self, len: usize)
        requires
            old(self).wf(),
            len > 0,
        ensures
            final(self).wf(),
            final(self)@ == armed(old(self)@, len as nat),
    {
        proof {
            self.ring.lemma_capacity_positive();
        }
        let count = self.ring.len();
        let r = self.ring.fill(len);
        match r {
            Ok(n) => {
                self.links = n;
                self.queued = if n < count {
                    n
                } else {
                    count
                };
            },
            Err(_) => {},
        }
        self.buffer_len = len;
        self.done = 0;
        self.progress = 0;
        self.last_seen = None;
        self.state = ChannelState::Running;
        proof {
            let cap = self.ring.capacity_spec();
            assert forall|k: nat| 0 <= k < self.queued implies #[trigger] holds_link(
                self.ring@,
                len as nat,
                cap,
                k,
            ) by {
                vstd::arithmetic::div_mod::lemma_small_mod(k, count as nat);
            }
            assert forall|i: int|
                0 <= i < count && (#[trigger] self.ring@[i]).owner == Owner::Dma implies slot_of_some(
                0,
                self.queued as nat,
                count as nat,
                i as nat,
            ) by {
                vstd::arithmetic::div_mod::lemma_small_mod(i as nat, count as nat);
                assert((i as nat) % (count as nat) == i as nat);
            }
        }
    }

    /// Confirms links up to `k` and gives the freed slots the next links.
    fn confirm(&mut self, k: usize)
        requires
            old(self).wf(),
            old(self).buffer_len > 0,
            old(self).done <= k < old(self).queued,
        ensures
            final(self).wf(),
            final(self)@ == (DirectionView { state: final(self)@.state, ..confirmed(old(self)@, k as nat) }),
            final(self)@.state == old(self)@.state,
    {
        let ghost old_chain = self.ring@;
        let ghost old_queued = self.queued as nat;
        let ghost state = self.state;
        let ghost burst_mode = self.burst_mode;
        let ghost len = self.buffer_len as nat;
        let ghost cap = self.ring.capacity_spec();
        proof {
            self.ring.lemma_capacity_positive();
        }
        let count = self.ring.len();
        let ghost old_done = self.done as nat;
        let mut j = self.done;
        while j <= k
            invariant
                self.ring.wf(),
                self.ring.capacity_spec() == cap,
                self.ring@.len() == count,
                count == old_chain.len(),
                count > 0,
                old_done <= j <= k + 1,
                k < old_queued,
                self.queued as nat == old_queued,
                self.done as nat == old_done,
                self.buffer_len as nat == len,
                len > 0,
                self.links == link_count(len, cap),
                old_queued <= self.links,
                self.state == state,
                self.burst_mode == burst_mode,
                cap > 0,
                old_queued <= old_done + count,
                self.ring@ == released(old_chain, old_done, j as nat),
                forall|w: nat|
                    j <= w < old_queued ==> #[trigger] holds_link(self.ring@, len, cap, w),
                forall|i: int|
                    0 <= i < count && (#[trigger] self.ring@[i]).owner == Owner::Dma
                        ==> slot_of_some(j as nat, old_queued, count as nat, i as nat),
            decreases k + 1 - j,
        {
            let ghost before = self.ring@;
            let slot = j % count;
            self.ring.release(slot);
            j = j + 1;
            proof {
                assert forall|w: nat| j <= w < old_queued implies #[trigger] holds_link(
                    self.ring@,
                    len,
                    cap,
                    w,
                ) by {
                    assert(holds_link(before, len, cap, w));
                    if w % (count as nat) == slot as nat {
                        lemma_slot_unique((j - 1) as nat, w, count as nat);
                    }
                }
                assert forall|i: int|
                    0 <= i < count && (#[trigger] self.ring@[i]).owner == Owner::Dma implies slot_of_some(
                    j as nat,
                    old_queued,
                    count as nat,
                    i as nat,
                ) by {
                    assert(before[i].owner == Owner::Dma);
                    assert(slot_of_some((j - 1) as nat, old_queued, count as nat, i as nat));
                    let w = choose|w: nat| (j - 1) as nat <= w < old_queued && #[trigger] (w % (count as nat)) == i as nat;
                    assert(w != (j - 1) as nat);
                }
            }
        }
        let ghost mid_chain = self.ring@;
        self.progress = self.link_end(k);
        self.done = k + 1;
        self.last_seen = Some(k % count);
        let ghost last_seen = self.last_seen;
        let target = if self.links - self.done > count {
            self.done + count
        } else {
            self.links
        };
        while self.queued < target
            invariant
                self.ring.wf(),
                self.state == state,
                self.burst_mode == burst_mode,
                self.progress == link_end(len, cap, k as nat),
                self.last_seen == last_seen,
                cap > 0,
                self.ring.capacity_spec() == cap,
                self.ring@.len() == count,
                count == old_chain.len(),
                count > 0,
                self.buffer_len as nat == len,
                len > 0,
                self.links == link_count(len, cap),
                self.done == k + 1,
                old_queued <= self.queued <= target,
                target == refill_target(self.links as nat, self.done as nat, count as nat),
                self.done <= old_queued,
                target <= self.links,
                target <= self.done + count,
                self.progress <= self.buffer_len,
                mid_chain == released(old_chain, old_done, (k + 1) as nat),
                mid_chain.len() == count,
                self.ring@ == requeued(mid_chain, len, cap, old_queued, self.queued as nat),
                forall|j: nat|
                    self.done <= j < self.queued ==> #[trigger] holds_link(self.ring@, len, cap, j),
                forall|i: int|
                    0 <= i < count && (#[trigger] self.ring@[i]).owner == Owner::Dma
                        ==> slot_of_some(self.done as nat, self.queued as nat, count as nat, i as nat),
            decreases target - self.queued,
        {
            let ghost before = self.ring@;
            let q = self.queued;
            self.ring.place(self.buffer_len, q);
            self.queued = q + 1;
            proof {
                assert forall|j: nat| self.done <= j < self.queued implies #[trigger] holds_link(
                    self.ring@,
                    len,
                    cap,
                    j,
                ) by {
                    if j < q {
                        assert(holds_link(before, len, cap, j));
                        if j % (count as nat) == (q as nat) % (count as nat) {
                            lemma_slot_unique(j, q as nat, count as nat);
                        }
                    }
                }
                assert forall|i: int|
                    0 <= i < count && (#[trigger] self.ring@[i]).owner == Owner::Dma implies slot_of_some(
                    self.done as nat,
                    self.queued as nat,
                    count as nat,
                    i as nat,
                ) by {
                    if i == (q as nat % count as nat) as int {
                        assert((q as nat) % (count as nat) == i as nat);
                    } else {
                        assert(before[i].owner == Owner::Dma);
                        assert(slot_of_some(self.done as nat, q as nat, count as nat, i as nat));
                        let w = choose|w: nat| self.done <= w < q && #[trigger] (w % (count as nat)) == i as nat;
                        assert(self.done <= w < self.queued);
                    }
                }
            }
        }
    }

    /// Finds the queued, unconfirmed link in slot `last` and, if there is one,
    /// confirms links up to it.
    fn advance(&mut self, last: usize) -> (found: bool)
        requires
            old(self).wf(),
            old(self).buffer_len > 0,
        ensures
            final(self).wf(),
            found == in_window(old(self)@, last as nat),
            found ==> final(self)@ == (DirectionView {
                state: old(self)@.state,
                ..confirmed(old(self)@, seen_link(old(self)@, last as nat))
            }),
            !found ==> final(self)@ == old(self)@,
            found ==> final(self)@.done == seen_link(old(self)@, last as nat) + 1,
    {
        proof {
            self.ring.lemma_capacity_positive();
        }
        let count = self.ring.len();
        let mut j = self.done;
        let ghost v0 = self@;
        while j < self.queued
            invariant
                self.wf(),
                self@ == v0,
                v0 == old(self)@,
                self.buffer_len > 0,
                count == self@.chain.len(),
                count > 0,
                self.done <= j <= self.queued,
                forall|i: nat| self.done <= i < j ==> #[trigger] (i % count as nat) != last,
            decreases self.queued - j,
        {
            if j % count == last {
                proof {
                    let v = self@;
                    assert(in_window(v, last as nat)) by {
                        assert(v.done <= j as nat && (j as nat) < v.queued && (j as nat) % v.chain.len() == last);
                    }
                    let s = seen_link(v, last as nat);
                    if s < j {
                        lemma_slot_unique(s, j as nat, count as nat);
                    } else if s > j {
                        lemma_slot_unique(j as nat, s, count as nat);
                    }
                    assert(s == j);
                }
                self.confirm(j);
                return true;
            }
            j = j + 1;
        }
        proof {
            if in_window(self@, last as nat) {
                let s = seen_link(self@, last as nat);
                assert(s % count as nat != last);
            }
        }
        false
    }

    /// Slot `s` is not the one the engine reported last.
    fn is_new(&self, s: usize) -> (r: bool)
        ensures
            r == (self@.last_seen != Some(s)),
    {
        match self.last_seen {
            Some(seen) => seen != s,
            None => true,
        }
    }

    /// Reconciles the direction with the transmit flags.
    fn poll_tx(&mut self, r: Ghost<DmaRegisters>, done: bool, eof: bool, error: bool, last: usize)
        requires
            old(self).wf(),
            done == r@.out_done,
            eof == r@.out_eof,
            error == r@.out_descriptor_error,
            last == r@.out_eof_descriptor,
        ensures
            final(self).wf(),
            final(self)@ == tx_polled(old(self)@, r@),
    {
        if self.state != ChannelState::Running {
        } else if error {
            self.state = ChannelState::Errored;
        } else if eof {
            self.state = ChannelState::Completed;
            self.progress = self.buffer_len;
        } else if done && self.is_new(last) {
            self.advance(last);
        }
    }

    /// Reconciles the direction with the receive flags.
    fn poll_rx(
        &mut self,
        r: Ghost<DmaRegisters>,
        done: bool,
        eof: bool,
        error: bool,
        last: usize,
        eof_length: usize,
    )
        requires
            old(self).wf(),
            eof_length == r@.in_eof_length,
            done == r@.in_done,
            eof == r@.in_suc_eof,
            error == r@.in_descriptor_error,
            last == r@.in_descriptor,
        ensures
            final(self).wf(),
            final(self)@ == rx_polled(old(self)@, r@),
    {
        if self.state != ChannelState::Running {
        } else if error {
            self.state = ChannelState::Errored;
        } else {
            let found = if done && self.is_new(last) {
                self.advance(last)
            } else {
                false
            };
            if found {
                if eof {
                    self.progress = self.eof_end(self.done - 1, eof_length);
                }
                if eof || self.done == self.links {
                    self.state = ChannelState::Completed;
                }
            } else if eof {
                self.state = ChannelState::Completed;
            }
        }
    }

    /// Byte offset just past link `i` of the current chain.
    fn link_end(&self, i: usize) -> (r: usize)
        requires
            self.ring.wf(),
            self.buffer_len > 0,
            self.links == link_count(self.buffer_len as nat, self.ring.capacity_spec()),
            i < self.links,
        ensures
            r == link_end(self.buffer_len as nat, self.ring.capacity_spec(), i as nat),
            r <= self.buffer_len,
    {
        let cap = self.ring.link_capacity();
        proof {
            self.ring.lemma_capacity_positive();
            crate::ring::lemma_link_bounds(self.buffer_len as nat, cap as nat, i as nat);
            crate::ring::lemma_link_bounds(self.buffer_len as nat, cap as nat, (i + 1) as nat);
            assert((i + 1) * cap == i * cap + cap) by (nonlinear_arith);
        }
        let start = i * cap;
        if self.buffer_len - start <= cap {
            self.buffer_len
        } else {
            start + cap
        }
    }

    /// Byte offset just past the data of link `k` when `bytes` were written
    /// into it.
    fn eof_end(&self, k: usize, bytes: usize) -> (r: usize)
        requires
            self.ring.wf(),
            self.buffer_len > 0,
            self.links == link_count(self.buffer_len as nat, self.ring.capacity_spec()),
            k < self.links,
        ensures
            r == eof_end(self.buffer_len as nat, self.ring.capacity_spec(), k as nat, bytes as nat),
            r <= self.buffer_len,
    {
        let end = self.link_end(k);
        let cap = self.ring.link_capacity();
        proof {
            self.ring.lemma_capacity_positive();
            crate::ring::lemma_link_bounds(self.buffer_len as nat, cap as nat, k as nat);
            assert((k + 1) * cap == k * cap + cap) by (nonlinear_arith);
        }
        let start = k * cap;
        if bytes < end - start {
            start + bytes
        } else {
            end
        }
    }

    fn settle(&mut self)
        requires
            old(self).wf(),
        ensures
            final(self).wf(),
            final(self)@ == (DirectionView { state: ChannelState::Idle, ..old(self)@ }),
    {
        self.state = ChannelState::Idle;
    }

    /// Bytes of the current or last transfer the engine has confirmed.
    pub fn progress(&self) -> (r: usize)
        ensures
            r == self@.progress,
    {
        self.progress
    }

    pub fn state(&self) -> (r: ChannelState)
        ensures
            r == self@.state,
    {
        self.state
    }

    /// Descriptor `i` of the ring.
    pub fn descriptor(&self, i: usize) -> (r: Descriptor)
        requires
            i < self@.chain.len(),
        ensures
            r == self@.chain[i as int],
    {
        self.ring.get(i)
    }

    /// Descriptors in the ring.
    pub fn ring_len(&self) -> (r: usize)
        ensures
            r == self@.chain.len(),
    {
        self.ring.len()
    }

    /// Links in the current chain.
    pub fn link_count(&self) -> (r: usize)
        ensures
            r == self@.links,
    {
        self.links
    }

    /// Links of the current chain queued into the ring so far.
    pub fn queued_links(&self) -> (r: usize)
        ensures
            r == self@.queued,
    {
        self.queued
    }
}

/// Tag of a peripheral family a channel may drive.
pub trait PeripheralMarker {
}

pub trait SpiPeripheral: PeripheralMarker {
}

pub trait Spi2Peripheral: SpiPeripheral {
}

pub trait Spi3Peripheral: SpiPeripheral {
}

pub trait I2sPeripheral: PeripheralMarker {
}

pub trait I2s0Peripheral: I2sPeripheral {
}

pub trait I2s1Peripheral: I2sPeripheral {
}

pub struct Spi2DmaSuitablePeripheral {}

impl PeripheralMarker for Spi2DmaSuitablePeripheral {
}

impl SpiPeripheral for Spi2DmaSuitablePeripheral {
}

impl Spi2Peripheral for Spi2DmaSuitablePeripheral {
}

pub struct Spi3DmaSuitablePeripheral {}

impl PeripheralMarker for Spi3DmaSuitablePeripheral {
}

impl SpiPeripheral for Spi3DmaSuitablePeripheral {
}

impl Spi3Peripheral for Spi3DmaSuitablePeripheral {
}

pub struct I2s0DmaSuitablePeripheral {}

impl PeripheralMarker for I2s0DmaSuitablePeripheral {
}

impl I2sPeripheral for I2s0DmaSuitablePeripheral {
}

impl I2s0Peripheral for I2s0DmaSuitablePeripheral {
}

pub struct I2s1DmaSuitablePeripheral {}

impl PeripheralMarker for I2s1DmaSuitablePeripheral {
}

impl I2sPeripheral for I2s1DmaSuitablePeripheral {
}

impl I2s1Peripheral for I2s1DmaSuitablePeripheral {
}

/// A transmit and a receive direction on one peripheral's register block,
/// tagged with the peripheral family `P` they may drive.
pub struct Channel<R: RegisterAccess, P: PeripheralMarker> {
    tx: Direction,
    rx: Direction,
    regs: R,
    _phantom: PhantomData<P>,
}

/// The configuration error of a transfer that was not started, with everything
/// that was handed in, untouched.
pub struct Rejected<R: RegisterAccess, P: PeripheralMarker> {
    error: ConfigError,
    channel: Channel<R, P>,
    send: Vec<u8>,
    receive: Vec<u8>,
}

/// A transfer that the engine reported a descriptor error for, with the
/// buffers and the channel, idle again, handed back for a retry.
pub struct Failed<R: RegisterAccess, P: PeripheralMarker> {
    error: TransferError,
    receive: Vec<u8>,
    send: Vec<u8>,
    channel: Channel<R, P>,
}

/// `buf` with `data` written over it from `offset` on.
pub open spec fn written(buf: Seq<u8>, offset: nat, data: Seq<u8>) -> Seq<u8> {
    Seq::new(
        buf.len(),
        |i: int|
            if offset <= i < offset + data.len() {
                data[i - offset]
            } else {
                buf[i]
            },
    )
}

/// Slot `slot` of a receive direction holds a link the engine owns, inside a
/// buffer of `buf_len` bytes, with room for `n` bytes.
pub open spec fn receivable(v: DirectionView, buf_len: nat, slot: nat, n: nat) -> bool {
    &&& slot < v.chain.len()
    &&& v.chain[slot as int].owner == Owner::Dma
    &&& n <= v.chain[slot as int].length
    &&& v.chain[slot as int].buffer_offset + v.chain[slot as int].length <= buf_len
}

/// A transfer in flight: it owns the channel and both buffers until `wait`
/// hands them back.
pub struct TransferHandle<R: RegisterAccess, P: PeripheralMarker> {
    channel: Channel<R, P>,
    send: Vec<u8>,
    receive: Vec<u8>,
}

/// Whether a direction has stopped for good.
pub open spec fn is_terminal(s: ChannelState) -> bool {
    s == ChannelState::Completed || s == ChannelState::Errored
}

impl<R: RegisterAccess, P: PeripheralMarker> Channel<R, P> {
    pub closed spec fn tx_view(&self) -> DirectionView {
        self.tx@
    }

    pub closed spec fn rx_view(&self) -> DirectionView {
        self.rx@
    }

    pub closed spec fn registers(&self) -> DmaRegisters {
        self.regs.registers()
    }

    /// The register writes made on the peripheral so far, oldest first.
    pub closed spec fn log(&self) -> Seq<RegisterOp> {
        self.regs.log()
    }

    pub closed spec fn wf(&self) -> bool {
        self.tx.wf() && self.rx.wf()
    }

    pub open spec fn is_busy(&self) -> bool {
        self.tx_view().state == ChannelState::Running || self.rx_view().state
            == ChannelState::Running
    }

    /// Why a transfer of `send_len` bytes out and `receive_len` bytes in would be
    /// refused, if it would.
    pub open spec fn setup_error(&self, send_len: nat, receive_len: nat) -> Option<ConfigError> {
        if self.is_busy() {
            Some(ConfigError::ChannelBusy)
        } else if send_len == 0 || receive_len == 0 {
            Some(ConfigError::ZeroLengthBuffer)
        } else {
            None
        }
    }

    /// Configures burst mode and priority of both directions once and returns
    /// the channel ready for transfers.
    pub fn new(
        regs: R,
        burst_mode: bool,
        tx_descriptors: DescriptorRing,
        rx_descriptors: DescriptorRing,
        priority: DmaPriority,
    ) -> (r: Self)
        requires
            tx_descriptors.wf(),
            rx_descriptors.wf(),
        ensures
            r.wf(),
            r.tx_view() == (DirectionView {
                state: ChannelState::Idle,
                burst_mode,
                buffer_len: 0,
                links: 0,
                queued: 0,
                done: 0,
                progress: 0,
                last_seen: None,
                link_capacity: tx_descriptors.capacity_spec(),
                chain: tx_descriptors@,
            }),
            r.rx_view() == (DirectionView {
                state: ChannelState::Idle,
                burst_mode,
                buffer_len: 0,
                links: 0,
                queued: 0,
                done: 0,
                progress: 0,
                last_seen: None,
                link_capacity: rx_descriptors.capacity_spec(),
                chain: rx_descriptors@,
            }),
            r.registers() == (DmaRegisters {
                lane_selected: true,
                out_burst: burst_mode,
                in_burst: burst_mode,
                ..regs.registers()
            }),
            r.log() == after_configure_ops(regs.log(), burst_mode, priority),
    {
        let mut regs = regs;
        regs.init_channel();
        regs.set_out_burstmode(burst_mode);
        regs.set_out_priority(priority);
        regs.set_in_burstmode(burst_mode);
        regs.set_in_priority(priority);
        Channel {
            tx: Direction::new(tx_descriptors, burst_mode),
            rx: Direction::new(rx_descriptors, burst_mode),
            regs,
            _phantom: PhantomData,
        }
    }

    /// Starts sending `send` and receiving into `receive`. Both directions must
    /// be free and both buffers non-empty; otherwise the
    /// error comes back with the channel and buffers as they were, and no
    /// register was touched. On success both directions are acknowledged,
    /// reset, pointed at their freshly filled rings and started.
    pub fn transfer(self, send: Vec<u8>, receive: Vec<u8>) -> (r: Result<
        TransferHandle<R, P>,
        Rejected<R, P>,
    >)
        requires
            self.wf(),
        ensures
            r is Ok <==> self.setup_error(send@.len(), receive@.len()) is None,
            !self.is_busy() && (send@.len() == 0 || receive@.len() == 0) ==> (r matches Err(e)
                && e.error_spec() == ConfigError::ZeroLengthBuffer && e.channel_spec().registers()
                == self.registers()),
            r matches Err(e) ==> {
                &&& Some(e.error_spec()) == self.setup_error(send@.len(), receive@.len())
                &&& e.channel_spec() == self
                &&& e.send_spec() == send
                &&& e.receive_spec() == receive
            },
            r matches Ok(h) ==> {
                &&& h.wf()
                &&& h.send_view() == send@
                &&& h.receive_view() == receive@
                &&& h.channel_spec().tx_view() == armed(self.tx_view(), send@.len())
                &&& h.channel_spec().rx_view() == armed(self.rx_view(), receive@.len())
                &&& h.channel_spec().registers() == started(self.registers())
                &&& h.channel_spec().log() == after_transfer_ops(self.log())
            },
    {
        let error = if self.tx.is_running() || self.rx.is_running() {
            Some(ConfigError::ChannelBusy)
        } else if send.len() == 0 || receive.len() == 0 {
            Some(ConfigError::ZeroLengthBuffer)
        } else {
            None
        };
        match error {
            Some(error) => Err(Rejected { error, channel: self, send, receive }),
            None => {
                let mut channel = self;
                channel.regs.clear_out_interrupts();
                channel.regs.reset_out();
                channel.tx.arm(send.len());
                channel.regs.set_out_descriptors(0);
                channel.regs.start_out();
                channel.regs.clear_in_interrupts();
                channel.regs.reset_in();
                channel.rx.arm(receive.len());
                channel.regs.set_in_descriptors(0);
                channel.regs.start_in();
                Ok(TransferHandle { channel, send, receive })
            },
        }
    }

    /// The peripheral's register block.
    pub fn peripheral(&self) -> (r: &R)
        ensures
            r.registers() == self.registers(),
    {
        &self.regs
    }

    pub fn tx(&self) -> (r: &Direction)
        ensures
            r@ == self.tx_view(),
    {
        &self.tx
    }

    pub fn rx(&self) -> (r: &Direction)
        ensures
            r@ == self.rx_view(),
    {
        &self.rx
    }

    /// Bytes received by the last transfer; short of the buffer when the
    /// peripheral ended the frame early.
    pub fn received_len(&self) -> (r: usize)
        ensures
            r == self.rx_view().progress,
    {
        self.rx.progress()
    }
}

impl<R: RegisterAccess, P: PeripheralMarker> Rejected<R, P> {
    pub closed spec fn error_spec(&self) -> ConfigError {
        self.error
    }

    pub closed spec fn channel_spec(&self) -> Channel<R, P> {
        self.channel
    }

    pub closed spec fn send_spec(&self) -> Vec<u8> {
        self.send
    }

    pub closed spec fn receive_spec(&self) -> Vec<u8> {
        self.receive
    }

    pub fn error(&self) -> (r: ConfigError)
        ensures
            r == self.error_spec(),
    {
        self.error
    }

    /// The channel, the send buffer and the receive buffer, as they were handed in.
    pub fn into_parts(self) -> (r: (Channel<R, P>, Vec<u8>, Vec<u8>))
        ensures
            r.0 == self.channel_spec(),
            r.1 == self.send_spec(),
            r.2 == self.receive_spec(),
    {
        (self.channel, self.send, self.receive)
    }
}

impl<R: RegisterAccess, P: PeripheralMarker> Failed<R, P> {
    pub closed spec fn error_spec(&self) -> TransferError {
        self.error
    }

    pub closed spec fn receive_spec(&self) -> Vec<u8> {
        self.receive
    }

    pub closed spec fn send_spec(&self) -> Vec<u8> {
        self.send
    }

    pub closed spec fn channel_spec(&self) -> Channel<R, P> {
        self.channel
    }

    pub fn error(&self) -> (r: TransferError)
        ensures
            r == self.error_spec(),
    {
        self.error
    }

    /// The receive buffer, the send buffer and the channel.
    pub fn into_parts(self) -> (r: (Vec<u8>, Vec<u8>, Channel<R, P>))
        ensures
            r.0 == self.receive_spec(),
            r.1 == self.send_spec(),
            r.2 == self.channel_spec(),
    {
        (self.receive, self.send, self.channel)
    }
}

impl<R: RegisterAccess, P: PeripheralMarker> TransferHandle<R, P> {
    pub closed spec fn channel_spec(&self) -> Channel<R, P> {
        self.channel
    }

    pub closed spec fn send_view(&self) -> Seq<u8> {
        self.send@
    }

    pub closed spec fn receive_view(&self) -> Seq<u8> {
        self.receive@
    }

    pub closed spec fn wf(&self) -> bool {
        self.channel.wf()
    }

    /// Both directions have stopped.
    pub open spec fn is_finished(&self) -> bool {
        is_terminal(self.channel_spec().tx_view().state) && is_terminal(
            self.channel_spec().rx_view().state,
        )
    }

    /// Either direction reported a descriptor error.
    pub open spec fn has_failed(&self) -> bool {
        self.channel_spec().tx_view().state == ChannelState::Errored
            || self.channel_spec().rx_view().state == ChannelState::Errored
    }

    /// Polls both directions once, without blocking, and tells whether both
    /// have stopped.
    pub fn is_done(&mut self) -> (r: bool)
        requires
            old(self).wf(),
        ensures
            final(self).wf(),
            final(self).channel_spec().tx_view() == tx_polled(
                old(self).channel_spec().tx_view(),
                old(self).channel_spec().registers(),
            ),
            final(self).channel_spec().rx_view() == rx_polled(
                old(self).channel_spec().rx_view(),
                old(self).channel_spec().registers(),
            ),
            final(self).channel_spec().registers() == old(self).channel_spec().registers(),
            final(self).channel_spec().log() == old(self).channel_spec().log(),
            final(self).send_view() == old(self).send_view(),
            final(self).receive_view() == old(self).receive_view(),
            r == final(self).is_finished(),
    {
        let ghost regs = self.channel.regs.registers();
        let out_done = self.channel.regs.is_out_done();
        let out_eof = self.channel.regs.is_out_eof_set();
        let out_error = self.channel.regs.has_out_descriptor_error();
        let out_last = self.channel.regs.last_out_dscr_address();
        self.channel.tx.poll_tx(Ghost(regs), out_done, out_eof, out_error, out_last);
        let in_done = self.channel.regs.is_in_done();
        let in_eof = self.channel.regs.is_in_suc_eof_set();
        let in_error = self.channel.regs.has_in_descriptor_error();
        let in_last = self.channel.regs.last_in_dscr_address();
        let in_length = self.channel.regs.last_in_dscr_length();
        self.channel.rx.poll_rx(Ghost(regs), in_done, in_eof, in_error, in_last, in_length);
        let tx_state = self.channel.tx.state();
        let rx_state = self.channel.rx.state();
        (tx_state == ChannelState::Completed || tx_state == ChannelState::Errored) && (rx_state
            == ChannelState::Completed || rx_state == ChannelState::Errored)
    }

    /// `rx`, `tx` and `ch` are what this handle holds, with the channel idle again.
    pub open spec fn hands_back(&self, rx: Seq<u8>, tx: Seq<u8>, ch: Channel<R, P>) -> bool {
        &&& rx == self.receive_view()
        &&& tx == self.send_view()
        &&& ch.wf()
        &&& ch.tx_view() == (DirectionView {
            state: ChannelState::Idle,
            ..self.channel_spec().tx_view()
        })
        &&& ch.rx_view() == (DirectionView {
            state: ChannelState::Idle,
            ..self.channel_spec().rx_view()
        })
        &&& ch.registers() == self.channel_spec().registers()
        &&& ch.log() == self.channel_spec().log()
    }

    /// Once both directions have stopped: the receive buffer, holding what the
    /// engine wrote into it, the send buffer and the channel, free for the next
    /// transfer. If either direction reported a descriptor error, the same come
    /// back inside the error.
    pub fn wait(self) -> (r: Result<(Vec<u8>, Vec<u8>, Channel<R, P>), Failed<R, P>>)
        requires
            self.wf(),
            self.is_finished(),
        ensures
            r is Err <==> self.has_failed(),
            r matches Err(f) ==> f.error_spec() == TransferError::DescriptorChainCorrupt
                && self.hands_back(f.receive_spec()@, f.send_spec()@, f.channel_spec()),
            r matches Ok(parts) ==> self.hands_back(parts.0@, parts.1@, parts.2),
    {
        let TransferHandle { channel, send, receive } = self;
        let mut channel = channel;
        let failed = channel.tx.state() == ChannelState::Errored || channel.rx.state()
            == ChannelState::Errored;
        channel.tx.settle();
        channel.rx.settle();
        if failed {
            Err(Failed { error: TransferError::DescriptorChainCorrupt, receive, send, channel })
        } else {
            Ok((receive, send, channel))
        }
    }

    /// The engine's side of receiving: writes `data` into the receive buffer
    /// where the link in receive slot `slot` starts, if that slot holds a link
    /// the engine owns and `data` fits in it. Returns whether it wrote.
    pub fn dma_receive(&mut self, slot: usize, data: &Vec<u8>) -> (r: bool)
        requires
            old(self).wf(),
        ensures
            final(self).wf(),
            final(self).channel_spec() == old(self).channel_spec(),
            final(self).send_view() == old(self).send_view(),
            r == receivable(
                old(self).channel_spec().rx_view(),
                old(self).receive_view().len(),
                slot as nat,
                data@.len(),
            ),
            r ==> final(self).receive_view() == written(
                old(self).receive_view(),
                old(self).channel_spec().rx_view().chain[slot as int].buffer_offset as nat,
                data@,
            ),
            !r ==> final(self).receive_view() == old(self).receive_view(),
    {
        if slot >= self.channel.rx.ring_len() {
            return false;
        }
        let d = self.channel.rx.descriptor(slot);
        let owned = match d.owner {
            Owner::Dma => true,
            Owner::Cpu => false,
        };
        if !owned || data.len() > d.length || d.buffer_offset > self.receive.len() || d.length
            > self.receive.len() - d.buffer_offset {
            return false;
        }
        let ghost before = self.receive@;
        let ghost channel = self.channel;
        let ghost send = self.send@;
        let buf_len = self.receive.len();
        let offset = d.buffer_offset;
        let mut i: usize = 0;
        while i < data.len()
            invariant
                i <= data@.len(),
                self.channel == channel,
                self.send@ == send,
                before.len() == buf_len,
                offset + data@.len() <= before.len(),
                self.receive@ == written(before, offset as nat, data@.subrange(0, i as int)),
            decreases data@.len() - i,
        {
            self.receive.set(offset + i, data[i]);
            i = i + 1;
            assert(self.receive@ =~= written(before, offset as nat, data@.subrange(0, i as int)));
        }
        assert(data@.subrange(0, data@.len() as int) =~= data@);
        true
    }

    /// The peripheral's register block, through which the engine's side of a
    /// transfer is observed or driven.
    pub fn peripheral_mut(&mut self) -> (r: &mut R)
        ensures
            r.registers() == old(self).channel_spec().registers(),
            final(self).channel_spec().tx_view() == old(self).channel_spec().tx_view(),
            final(self).channel_spec().rx_view() == old(self).channel_spec().rx_view(),
            final(self).channel_spec().registers() == final(r).registers(),
            final(self).channel_spec().log() == final(r).log(),
            r.log() == old(self).channel_spec().log(),
            final(self).send_view() == old(self).send_view(),
            final(self).receive_view() == old(self).receive_view(),
            final(self).wf() == old(self).wf(),
    {
        &mut self.channel.regs
    }

    /// The channel the transfer runs on.
    pub fn channel(&self) -> (r: &Channel<R, P>)
        ensures
            *r == self.channel_spec(),
    {
        &self.channel
    }

    /// Bytes the engine has confirmed sent so far.
    pub fn bytes_sent(&self) -> (r: usize)
        ensures
            r == self.channel_spec().tx_view().progress,
    {
        self.channel.tx.progress()
    }

    /// Bytes the engine has confirmed received so far.
    pub fn bytes_received(&self) -> (r: usize)
        ensures
            r == self.channel_spec().rx_view().progress,
    {
        self.channel.rx.progress()
    }
}

/// A direction's view after polling against each register state of `rs` in turn.
pub open spec fn tx_polls(v: DirectionView, rs: Seq<DmaRegisters>) -> DirectionView
    decreases rs.len(),
{
    if rs.len() == 0 {
        v
    } else {
        tx_polls(tx_polled(v, rs[0]), rs.drop_first())
    }
}

/// A direction's view after polling against each register state of `rs` in turn.
pub open spec fn rx_polls(v: DirectionView, rs: Seq<DmaRegisters>) -> DirectionView
    decreases rs.len(),
{
    if rs.len() == 0 {
        v
    } else {
        rx_polls(rx_polled(v, rs[0]), rs.drop_first())
    }
}

/// Polling never changes a direction that has stopped.
pub proof fn lemma_stopped_stays(v: DirectionView, rs: Seq<DmaRegisters>)
    requires
        v.state != ChannelState::Running,
    ensures
        tx_polls(v, rs) == v,
        rx_polls(v, rs) == v,
    decreases rs.len(),
{
    if rs.len() > 0 {
        lemma_stopped_stays(v, rs.drop_first());
    }
}

/// A descriptor error that the engine raises while the transmit direction is
/// still running, at whichever poll, leaves it errored for good: no later poll
/// completes it, and `wait` then reports the corrupt chain.
pub proof fn lemma_tx_error_is_final(v: DirectionView, rs: Seq<DmaRegisters>, k: int)
    requires
        0 <= k < rs.len(),
        tx_polls(v, rs.take(k)).state == ChannelState::Running,
        rs[k].out_descriptor_error,
    ensures
        tx_polls(v, rs).state == ChannelState::Errored,
    decreases k,
{
    if k == 0 {
        assert(rs.take(0) =~= Seq::<DmaRegisters>::empty());
        lemma_stopped_stays(tx_polled(v, rs[0]), rs.drop_first());
    } else {
        assert(rs.take(k).drop_first() =~= rs.drop_first().take(k - 1));
        lemma_tx_error_is_final(tx_polled(v, rs[0]), rs.drop_first(), k - 1);
    }
}

/// A descriptor error that the engine raises while the receive direction is
/// still running, at whichever poll, leaves it errored for good: no later poll
/// completes it, and `wait` then reports the corrupt chain.
pub proof fn lemma_rx_error_is_final(v: DirectionView, rs: Seq<DmaRegisters>, k: int)
    requires
        0 <= k < rs.len(),
        rx_polls(v, rs.take(k)).state == ChannelState::Running,
        rs[k].in_descriptor_error,
    ensures
        rx_polls(v, rs).state == ChannelState::Errored,
    decreases k,
{
    if k == 0 {
        assert(rs.take(0) =~= Seq::<DmaRegisters>::empty());
        lemma_stopped_stays(rx_polled(v, rs[0]), rs.drop_first());
    } else {
        assert(rs.take(k).drop_first() =~= rs.drop_first().take(k - 1));
        lemma_rx_error_is_final(rx_polled(v, rs[0]), rs.drop_first(), k - 1);
    }
}

/// Once a transfer was accepted, its channel, as the handle holds it, refuses
/// any other transfer as busy. The channel that `wait` hands back, idle again,
/// accepts or refuses a transfer exactly as the channel did before the first
/// one.
pub proof fn lemma_busy_until_waited<R: RegisterAccess, P: PeripheralMarker>(
    before: Channel<R, P>,
    running: Channel<R, P>,
    after: Channel<R, P>,
    send_len: nat,
    receive_len: nat,
    next_send_len: nat,
    next_receive_len: nat,
)
    requires
        before.setup_error(send_len, receive_len) is None,
        running.tx_view() == armed(before.tx_view(), send_len),
        running.rx_view() == armed(before.rx_view(), receive_len),
        after.tx_view().state == ChannelState::Idle,
        after.rx_view().state == ChannelState::Idle,
    ensures
        running.setup_error(next_send_len, next_receive_len) == Some(ConfigError::ChannelBusy),
        after.setup_error(next_send_len, next_receive_len) == before.setup_error(
            next_send_len,
            next_receive_len,
        ),
{
}

/// The receive buffer `b` once links `0` up to `k` of the send buffer `a` were
/// looped back: the bytes of each transmit link copied to where the matching
/// receive link starts.
pub open spec fn looped_back(
    b: Seq<u8>,
    a: Seq<u8>,
    cap: nat,
    tx_count: nat,
    rx_count: nat,
    k: nat,
) -> Seq<u8>
    decreases k,
{
    if k == 0 {
        b
    } else {
        let i = (k - 1) as nat;
        let t = link_for(a.len(), cap, tx_count, i);
        written(
            looped_back(b, a, cap, tx_count, rx_count, i),
            link_for(a.len(), cap, rx_count, i).buffer_offset as nat,
            a.subrange(t.buffer_offset as int, t.buffer_offset + t.length),
        )
    }
}

/// After `k` links were looped back, the receive buffer holds the sent bytes
/// up to the end of link `k - 1` and its own bytes after that.
proof fn lemma_looped_back_prefix(
    a: Seq<u8>,
    b: Seq<u8>,
    cap: nat,
    tx_count: nat,
    rx_count: nat,
    k: nat,
)
    requires
        0 < a.len() <= usize::MAX,
        a.len() == b.len(),
        0 < cap <= usize::MAX,
        k <= link_count(a.len(), cap),
    ensures
        looped_back(b, a, cap, tx_count, rx_count, k).len() == a.len(),
        forall|j: int|
            0 <= j < a.len() ==> #[trigger] looped_back(b, a, cap, tx_count, rx_count, k)[j] == if k
                > 0 && j < link_end(a.len(), cap, (k - 1) as nat) {
                a[j]
            } else {
                b[j]
            },
    decreases k,
{
    if k > 0 {
        let i = (k - 1) as nat;
        let len = a.len();
        lemma_looped_back_prefix(a, b, cap, tx_count, rx_count, i);
        lemma_link_bounds(len, cap, i);
        assert((i + 1) * cap == i * cap + cap) by (nonlinear_arith);
        if i > 0 {
            let h = (i - 1) as nat;
            assert((h + 1) * cap == i * cap);
        } else {
            assert(i * cap == 0) by (nonlinear_arith)
                requires
                    i == 0,
            ;
        }
    }
}

/// Sending a buffer looped back into a receive buffer of the same length, over
/// rings of the same link capacity: once the bytes of every transmit link were
/// copied to where the matching receive link starts, the receive buffer is the
/// sent one, whatever it held before and whatever the two rings' sizes.
pub proof fn lemma_loopback_round_trip(
    a: Seq<u8>,
    b: Seq<u8>,
    cap: nat,
    tx_count: nat,
    rx_count: nat,
)
    requires
        0 < a.len() <= usize::MAX,
        a.len() == b.len(),
        0 < cap <= usize::MAX,
    ensures
        looped_back(b, a, cap, tx_count, rx_count, link_count(a.len(), cap)) == a,
{
    let n = link_count(a.len(), cap);
    lemma_link_bounds(a.len(), cap, 0);
    lemma_link_bounds(a.len(), cap, n);
    lemma_looped_back_prefix(a, b, cap, tx_count, rx_count, n);
    assert(((n - 1) as nat + 1) * cap == n * cap);
    assert(looped_back(b, a, cap, tx_count, rx_count, n) =~= a);
}

} // verus!
