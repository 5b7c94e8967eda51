//! Descriptor records and the algorithm that slices a buffer into a chain of them.
use vstd::prelude::*;

verus! {

/// Which party may touch a descriptor and the memory it covers.
#[derive(Clone, Copy, Debug, PartialEq, Eq, Structural)]
pub enum Owner {
    Cpu,
    Dma,
}

/// One link of the chain that the DMA engine walks.
///
/// `buffer_offset` is the position, inside the buffer of the transfer, of the
/// first byte this link covers; `next` is the ring index of the following link.
#[derive(Clone, Copy, Debug, PartialEq, Eq, Structural)]
pub struct Descriptor {
    pub capacity: usize,
    pub length: usize,
    pub end_of_frame: bool,
    pub owner: Owner,
    pub buffer_offset: usize,
    pub next: Option<usize>,
}

/// Errors found while a transfer is being set up, before any register is written.
#[derive(Clone, Copy, Debug, PartialEq, Eq, Structural)]
pub enum ConfigError {
    ZeroLengthBuffer,
    ChannelBusy,
}

/// Number of links that a buffer of `len` bytes needs with links of `cap` bytes:
/// `ceil(len / cap)`.
pub open spec fn link_count(len: nat, cap: nat) -> nat
    recommends
        cap > 0,
{
    if len == 0 {
        0
    } else {
        ((len - 1) as nat / cap + 1) as nat
    }
}

/// Length of link `i` of a buffer of `len` bytes: a full link, or the remainder.
pub open spec fn link_len(len: nat, cap: nat, i: nat) -> nat {
    if len - i * cap < cap {
        (len - i * cap) as nat
    } else {
        cap
    }
}

/// Link `i` of the chain for a buffer of `len` bytes, in a ring of `count`
/// descriptors: it sits in slot `i % count` and points at the slot of link `i + 1`.
pub open spec fn link_for(len: nat, cap: nat, count: nat, i: nat) -> Descriptor {
    let n = link_count(len, cap);
    Descriptor {
        capacity: cap as usize,
        length: link_len(len, cap, i) as usize,
        end_of_frame: i + 1 == n,
        owner: Owner::Dma,
        buffer_offset: (i * cap) as usize,
        next: if i + 1 < n {
            Some(((i + 1) % count) as usize)
        } else {
            None
        },
    }
}

/// A descriptor that covers nothing and belongs to the CPU.
pub open spec fn idle_link(cap: nat) -> Descriptor {
    Descriptor {
        capacity: cap as usize,
        length: 0,
        end_of_frame: false,
        owner: Owner::Cpu,
        buffer_offset: 0,
        next: None,
    }
}

/// The whole ring of `count` descriptors after it was filled for `len` bytes:
/// the first links of the buffer, as many as fit, and idle descriptors after them.
pub open spec fn chain_for(len: nat, cap: nat, count: nat) -> Seq<Descriptor> {
    Seq::new(count, |i: int| if i < link_count(len, cap) { link_for(len, cap, count, i as nat) } else { idle_link(cap) })
}

/// The ring `chain` once links `from` up to `to` were written into their slots.
pub open spec fn requeued(chain: Seq<Descriptor>, len: nat, cap: nat, from: nat, to: nat) -> Seq<Descriptor>
    decreases to - from,
{
    if to <= from {
        chain
    } else {
        requeued(chain, len, cap, from, (to - 1) as nat).update(
            ((to - 1) as nat % chain.len()) as int,
            link_for(len, cap, chain.len(), (to - 1) as nat),
        )
    }
}

/// Two links less than `c` apart share a slot of a ring of `c` only if they are
/// the same link.
pub proof fn lemma_slot_unique(a: nat, b: nat, c: nat)
    requires
        c > 0,
        a <= b < a + c,
        a % c == b % c,
    ensures
        a == b,
{
    vstd::arithmetic::div_mod::lemma_fundamental_div_mod(a as int, c as int);
    vstd::arithmetic::div_mod::lemma_fundamental_div_mod(b as int, c as int);
    let qa = a / c;
    let qb = b / c;
    let r = a % c;
    assert(a == c * qa + r);
    assert(b == c * qb + r);
    assert(qb == qa) by (nonlinear_arith)
        requires
            a == c * qa + r,
            b == c * qb + r,
            a <= b < a + c,
            c > 0,
    ;
}

/// Byte offset just past link `i`.
pub open spec fn link_end(len: nat, cap: nat, i: nat) -> nat {
    if (i + 1) * cap < len {
        ((i + 1) * cap) as nat
    } else {
        len
    }
}

/// `i` is a link of the buffer exactly when it starts inside the buffer.
pub proof fn lemma_link_bounds(len: nat, cap: nat, i: nat)
    requires
        len > 0,
        cap > 0,
    ensures
        (i < link_count(len, cap)) == (i * cap < len),
        link_count(len, cap) <= len,
{
    let q = (len - 1) as nat / cap;
    let r = (len - 1) as nat % cap;
    vstd::arithmetic::div_mod::lemma_fundamental_div_mod((len - 1) as int, cap as int);
    assert(len - 1 == cap * q + r);
    assert(0 <= r < cap);
    if i <= q {
        assert(i * cap <= q * cap) by (nonlinear_arith)
            requires
                i <= q,
        ;
    } else {
        assert(i * cap >= (q + 1) * cap) by (nonlinear_arith)
            requires
                i >= q + 1,
        ;
        assert((q + 1) * cap == q * cap + cap) by (nonlinear_arith);
    }
    assert(q * cap <= len - 1) by (nonlinear_arith)
        requires
            len - 1 == cap * q + r,
            r >= 0,
    ;
    assert(q <= q * cap) by (nonlinear_arith)
        requires
            cap >= 1,
    ;
}

/// A buffer that fits in one link gives a chain of exactly one descriptor, which
/// covers the whole buffer and ends the frame; every other descriptor stays idle.
pub proof fn lemma_short_buffer_one_link(len: nat, cap: nat, count: nat)
    requires
        0 < len <= cap <= usize::MAX,
        count >= 1,
    ensures
        link_count(len, cap) == 1,
        chain_for(len, cap, count)[0].length == len,
        chain_for(len, cap, count)[0].end_of_frame,
        chain_for(len, cap, count)[0].next is None,
        chain_for(len, cap, count)[0].owner == Owner::Dma,
        forall|i: int| 1 <= i < count ==> #[trigger] chain_for(len, cap, count)[i] == idle_link(cap),
{
    lemma_link_bounds(len, cap, 1);
    lemma_link_bounds(len, cap, 0);
    assert(len * 1 == len);
}

/// A buffer longer than one link gives `ceil(len / cap)` links, in order: each
/// at most `cap` long, each starting where the one before ended and pointing
/// at the slot of the next, the first at offset 0 and the last ending the
/// buffer and alone marked end of frame. A ring that cannot hold them all
/// starts with the first ones, in its slots in order.
pub proof fn lemma_long_buffer_links(len: nat, cap: nat, count: nat)
    requires
        0 < cap < len <= usize::MAX,
        0 < count <= usize::MAX,
    ensures
        link_count(len, cap) == (len + cap - 1) / (cap as int),
        link_count(len, cap) >= 2,
        link_for(len, cap, count, 0).buffer_offset == 0,
        forall|i: int|
            0 <= i < count && i < link_count(len, cap) ==> #[trigger] chain_for(len, cap, count)[i]
                == link_for(len, cap, count, i as nat),
        forall|i: nat|
            i < link_count(len, cap) ==> {
                let d = #[trigger] link_for(len, cap, count, i);
                &&& 0 < d.length <= cap
                &&& d.owner == Owner::Dma
                &&& d.end_of_frame == (i == link_count(len, cap) - 1)
                &&& d.buffer_offset + d.length == link_end(len, cap, i)
                &&& i + 1 < link_count(len, cap) ==> d.next == Some(((i + 1) % count) as usize)
                    && link_for(len, cap, count, i + 1).buffer_offset == d.buffer_offset
                    + d.length
                &&& i + 1 == link_count(len, cap) ==> d.next is None && d.buffer_offset
                    + d.length == len
            },
{
    let n = link_count(len, cap);
    lemma_link_bounds(len, cap, 1);
    assert(1 * cap == cap);
    assert(0 * cap == 0);
    assert((len - 1) as nat / cap + 1 == (len + cap - 1) / (cap as int)) by {
        vstd::arithmetic::div_mod::lemma_div_plus_one((len - 1) as int, cap as int);
    }
    assert forall|i: nat| i < n implies {
        let d = #[trigger] link_for(len, cap, count, i);
        &&& 0 < d.length <= cap
        &&& d.owner == Owner::Dma
        &&& d.end_of_frame == (i == n - 1)
        &&& d.buffer_offset + d.length == link_end(len, cap, i)
        &&& i + 1 < n ==> d.next == Some(((i + 1) % count) as usize) && link_for(
            len,
            cap,
            count,
            i + 1,
        ).buffer_offset == d.buffer_offset + d.length
        &&& i + 1 == n ==> d.next is None && d.buffer_offset + d.length == len
    } by {
        lemma_link_shape(len, cap, count, i);
    }
}

/// Link `i` of a buffer: its length, its place in the buffer and its
/// successor.
proof fn lemma_link_shape(len: nat, cap: nat, count: nat, i: nat)
    requires
        0 < cap <= usize::MAX,
        0 < len <= usize::MAX,
        i < link_count(len, cap),
    ensures
        ({
            let n = link_count(len, cap);
            let d = link_for(len, cap, count, i);
            &&& 0 < d.length <= cap
            &&& d.owner == Owner::Dma
            &&& d.end_of_frame == (i == n - 1)
            &&& d.buffer_offset + d.length == link_end(len, cap, i)
            &&& i + 1 < n ==> d.next == Some(((i + 1) % count) as usize) && link_for(
                len,
                cap,
                count,
                i + 1,
            ).buffer_offset == d.buffer_offset + d.length
            &&& i + 1 == n ==> d.next is None && d.buffer_offset + d.length == len
        }),
{
    lemma_link_bounds(len, cap, i);
    lemma_link_bounds(len, cap, i + 1);
    assert((i + 1) * cap == i * cap + cap) by (nonlinear_arith);
}

/// A fixed number of descriptors, all with the same capacity, that the hardware
/// walks as one block.
pub struct DescriptorRing {
    descriptors: Vec<Descriptor>,
    link_capacity: usize,
}

impl DescriptorRing {
    /// Well-formed: every link has the ring's capacity, which is not zero, and
    /// no link holds more than that.
    pub closed spec fn wf(&self) -> bool {
        &&& self.link_capacity > 0
        &&& self.descriptors@.len() > 0
        &&& forall|i: int|
            0 <= i < self.descriptors@.len() ==> (#[trigger] self.descriptors@[i]).capacity
                == self.link_capacity && self.descriptors@[i].length <= self.link_capacity
    }

    pub closed spec fn view(&self) -> Seq<Descriptor> {
        self.descriptors@
    }

    pub closed spec fn capacity_spec(&self) -> nat {
        self.link_capacity as nat
    }

    /// A well-formed ring has at least one descriptor, of some positive capacity.
    pub proof fn lemma_capacity_positive(&self)
        requires
            self.wf(),
        ensures
            self.capacity_spec() > 0,
            self@.len() > 0,
    {
    }

    /// Allocates `count` idle descriptors of `link_capacity` bytes each.
    pub fn new(count: usize, link_capacity: usize) -> (r: DescriptorRing)
        requires
            count > 0,
            link_capacity > 0,
        ensures
            r.wf(),
            r@ == Seq::new(count as nat, |i: int| idle_link(link_capacity as nat)),
            r.capacity_spec() == link_capacity,
    {
        let mut descriptors: Vec<Descriptor> = Vec::with_capacity(count);
        let mut i: usize = 0;
        while i < count
            invariant
                i <= count,
                link_capacity > 0,
                descriptors@ == Seq::new(i as nat, |j: int| idle_link(link_capacity as nat)),
            decreases count - i,
        {
            descriptors.push(Descriptor {
                capacity: link_capacity,
                length: 0,
                end_of_frame: false,
                owner: Owner::Cpu,
                buffer_offset: 0,
                next: None,
            });
            i = i + 1;
            assert(descriptors@ =~= Seq::new(i as nat, |j: int| idle_link(link_capacity as nat)));
        }
        DescriptorRing { descriptors, link_capacity }
    }

    /// Bytes one descriptor can reference.
    pub fn link_capacity(&self) -> (r: usize)
        ensures
            r == self.capacity_spec(),
    {
        self.link_capacity
    }

    /// Number of descriptors in the ring.
    pub fn len(&self) -> (r: usize)
        ensures
            r == self@.len(),
    {
        self.descriptors.len()
    }

    /// Descriptor `i` of the ring.
    pub fn get(&self, i: usize) -> (r: Descriptor)
        requires
            i < self@.len(),
        ensures
            r == self@[i as int],
    {
        self.descriptors[i]
    }

    /// Rewrites the ring for a buffer of `len` bytes: the first links of the
    /// buffer, as many as the ring holds, each of the ring's capacity but the
    /// last, which is shorter if need be and marks the end of the frame; each
    /// owned by the DMA engine and chained to the slot of the next; the rest
    /// idle. Returns the number of links of the whole buffer. An empty buffer
    /// leaves the ring as it was.
    pub fn fill(&mut self, len: usize) -> (r: Result<usize, ConfigError>)
        requires
            old(self).wf(),
        ensures
            final(self).wf(),
            final(self).capacity_spec() == old(self).capacity_spec(),
            final(self)@.len() == old(self)@.len(),
            len == 0 ==> r == Err::<usize, ConfigError>(ConfigError::ZeroLengthBuffer)
                && final(self)@ == old(self)@,
            len > 0 ==> r == Ok::<usize, ConfigError>(
                link_count(len as nat, old(self).capacity_spec()) as usize,
            ) && final(self)@ == chain_for(len as nat, old(self).capacity_spec(), old(self)@.len()),
            old(self)@ == chain_for(len as nat, old(self).capacity_spec(), old(self)@.len())
                ==> final(self)@ == old(self)@,
    {
        if len == 0 {
            return Err(ConfigError::ZeroLengthBuffer);
        }
        let cap = self.link_capacity;
        let count = self.descriptors.len();
        let n = (len - 1) / cap + 1;
        proof {
            lemma_link_bounds(len as nat, cap as nat, 0);
        }
        let ghost target = chain_for(len as nat, cap as nat, count as nat);
        let mut chain: Vec<Descriptor> = Vec::with_capacity(count);
        let mut i: usize = 0;
        while i < count
            invariant
                i <= count,
                n == link_count(len as nat, cap as nat),
                n <= len,
                len > 0,
                cap > 0,
                target == chain_for(len as nat, cap as nat, count as nat),
                chain@ == target.subrange(0, i as int),
                self.wf(),
                count == self@.len(),
                cap == self.capacity_spec(),
            decreases count - i,
        {
            let d = if i < n {
                proof {
                    lemma_link_bounds(len as nat, cap as nat, i as nat);
                }
                self.link(len, n, i)
            } else {
                Descriptor {
                    capacity: cap,
                    length: 0,
                    end_of_frame: false,
                    owner: Owner::Cpu,
                    buffer_offset: 0,
                    next: None,
                }
            };
            assert(d == target[i as int]);
            chain.push(d);
            i = i + 1;
            assert(chain@ =~= target.subrange(0, i as int));
        }
        assert(chain@ =~= target);
        assert forall|j: int| 0 <= j < chain@.len() implies (#[trigger] chain@[j]).capacity == cap
            && chain@[j].length <= cap by {
            if j < n {
                lemma_link_bounds(len as nat, cap as nat, j as nat);
                assert(chain@[j] == link_for(len as nat, cap as nat, count as nat, j as nat));
            }
        }
        self.descriptors = chain;
        Ok(n)
    }

    /// Link `k` of a buffer of `len` bytes that has `n` links.
    fn link(&self, len: usize, n: usize, k: usize) -> (r: Descriptor)
        requires
            self.wf(),
            len > 0,
            n == link_count(len as nat, self.capacity_spec()),
            k < n,
        ensures
            r == link_for(len as nat, self.capacity_spec(), self@.len(), k as nat),
            r.length <= self.capacity_spec(),
    {
        let cap = self.link_capacity;
        let count = self.descriptors.len();
        proof {
            lemma_link_bounds(len as nat, cap as nat, k as nat);
            lemma_link_bounds(len as nat, cap as nat, 0);
        }
        let offset = k * cap;
        let length = if len - offset < cap {
            len - offset
        } else {
            cap
        };
        Descriptor {
            capacity: cap,
            length,
            end_of_frame: k + 1 == n,
            owner: Owner::Dma,
            buffer_offset: offset,
            next: if k + 1 < n {
                Some((k + 1) % count)
            } else {
                None
            },
        }
    }

    /// Gives the descriptor in `slot` back to the CPU.
    pub fn release(&mut self, slot: usize)
        requires
            old(self).wf(),
            slot < old(self)@.len(),
        ensures
            final(self).wf(),
            final(self).capacity_spec() == old(self).capacity_spec(),
            final(self)@ == old(self)@.update(
                slot as int,
                Descriptor { owner: Owner::Cpu, ..old(self)@[slot as int] },
            ),
    {
        let mut d = self.descriptors[slot];
        d.owner = Owner::Cpu;
        self.descriptors.set(slot, d);
    }

    /// Writes link `k` of a buffer of `len` bytes into its slot, `k % count`.
    pub fn place(&mut self, len: usize, k: usize)
        requires
            old(self).wf(),
            len > 0,
            k < link_count(len as nat, old(self).capacity_spec()),
        ensures
            final(self).wf(),
            final(self).capacity_spec() == old(self).capacity_spec(),
            final(self)@ == old(self)@.update(
                (k as nat % old(self)@.len()) as int,
                link_for(len as nat, old(self).capacity_spec(), old(self)@.len(), k as nat),
            ),
    {
        let cap = self.link_capacity;
        proof {
            lemma_link_bounds(len as nat, cap as nat, 0);
        }
        let n = (len - 1) / cap + 1;
        let d = self.link(len, n, k);
        let slot = k % self.descriptors.len();
        self.descriptors.set(slot, d);
    }
}

} // verus!
