use vstd::prelude::*;

verus! {

/// One frame of stereo audio: the left and the right amplitude.
pub type SamplePair = (i16, i16);

/// A fixed number of consecutive sample pairs.
pub type Packet = Vec<SamplePair>;

/// The contents of a list of packets.
pub open spec fn packets_view(ps: Seq<Packet>) -> Seq<Seq<SamplePair>> {
    ps.map_values(|p: Packet| p@)
}

/// Interleaved samples `l0, r0, l1, r1, ...` read as pairs; an odd sample at
/// the end has no partner and is left out.
pub open spec fn pairs_of(samples: Seq<i16>) -> Seq<SamplePair> {
    Seq::new(samples.len() / 2, |i: int| (samples[2 * i], samples[2 * i + 1]))
}

/// Groups interleaved samples into left/right pairs.
pub fn pair_up(samples: &Vec<i16>) -> (r: Vec<SamplePair>)
    ensures
        r@ == pairs_of(samples@),
{
    let n: usize = samples.len() / 2;
    let mut r: Vec<SamplePair> = Vec::new();
    let mut i: usize = 0;
    while i < n
        invariant
            n == samples@.len() / 2,
            n * 2 <= samples@.len(),
            samples@.len() <= usize::MAX,
            i <= n,
            r@ =~= pairs_of(samples@).take(i as int),
        decreases n - i,
    {
        r.push((samples[2 * i], samples[2 * i + 1]));
        i = i + 1;
    }
    assert(r@ =~= pairs_of(samples@));
    r
}

/// Collects sample pairs into packets of `packet_size` pairs each.
pub struct Packetizer {
    pending: Vec<SamplePair>,
    packet_size: usize,
}

impl Packetizer {
    /// Fewer pairs wait than make a packet, and a packet holds at least one pair.
    pub open spec fn wf(&self) -> bool {
        &&& self.packet_size_spec() > 0
        &&& self.pending_spec().len() < self.packet_size_spec()
    }

    /// The pairs received since the last complete packet.
    pub closed spec fn pending_spec(&self) -> Seq<SamplePair> {
        self.pending@
    }

    /// The number of pairs in each packet.
    pub closed spec fn packet_size_spec(&self) -> nat {
        self.packet_size as nat
    }

    /// A packetizer with no pair waiting.
    pub fn new(packet_size: usize) -> (p: Self)
        requires
            packet_size > 0,
        ensures
            p.wf(),
            p.packet_size_spec() == packet_size,
            p.pending_spec() == Seq::<SamplePair>::empty(),
    {
        Packetizer { pending: Vec::new(), packet_size }
    }

    /// The number of pairs in each packet.
    pub fn packet_size(&self) -> (r: usize)
        ensures
            r == self.packet_size_spec(),
    {
        self.packet_size
    }

    /// The pairs that wait for a packet to be completed; at the end of the
    /// source they are dropped.
    pub fn pending(&self) -> (r: &Vec<SamplePair>)
        ensures
            r@ == self.pending_spec(),
    {
        &self.pending
    }

    /// Adds one pair; returns the packet that it completes, if it completes one.
    pub fn push(&mut self, pair: SamplePair) -> (r: Option<Packet>)
        requires
            old(self).wf(),
        ensures
            final(self).wf(),
            final(self).packet_size_spec() == old(self).packet_size_spec(),
            old(self).pending_spec().len() + 1 == old(self).packet_size_spec() ==> {
                &&& r is Some
                &&& r->Some_0@ == old(self).pending_spec().push(pair)
                &&& final(self).pending_spec() == Seq::<SamplePair>::empty()
            },
            old(self).pending_spec().len() + 1 < old(self).packet_size_spec() ==> {
                &&& r is None
                &&& final(self).pending_spec() == old(self).pending_spec().push(pair)
            },
    {
        self.pending.push(pair);
        if self.pending.len() == self.packet_size {
            let mut packet: Packet = Vec::new();
            std::mem::swap(&mut packet, &mut self.pending);
            Some(packet)
        } else {
            None
        }
    }
}

/// Splits `pairs` into consecutive packets of `packet_size` pairs; a shorter
/// tail at the end is dropped.
pub fn packetize(pairs: &Vec<SamplePair>, packet_size: usize) -> (r: Vec<Packet>)
    requires
        packet_size > 0,
    ensures
        r@.len() == pairs@.len() / (packet_size as nat),
        forall|k: int| 0 <= k < r@.len() ==> #[trigger] r@[k]@.len() == packet_size,
        packets_view(r@).flatten() == pairs@.take(r@.len() * packet_size),
{
    let mut p = Packetizer::new(packet_size);
    let mut r: Vec<Packet> = Vec::new();
    let mut i: usize = 0;
    assert(r@.len() * packet_size == 0) by (nonlinear_arith)
        requires r@.len() == 0;
    assert(p.pending_spec() =~= pairs@.subrange(0, 0));
    while i < pairs.len()
        invariant
            p.wf(),
            p.packet_size_spec() == packet_size,
            i <= pairs@.len(),
            i == r@.len() * packet_size + p.pending_spec().len(),
            p.pending_spec() == pairs@.subrange(r@.len() * packet_size, i as int),
            forall|k: int| 0 <= k < r@.len() ==> #[trigger] r@[k]@.len() == packet_size,
            packets_view(r@).flatten() == pairs@.take(r@.len() * packet_size),
        decreases pairs@.len() - i,
    {
        let ghost done = r@.len() * packet_size;
        let ghost before = p.pending_spec();
        let out = p.push(pairs[i]);
        match out {
            Some(packet) => {
                proof {
                    packets_view(r@).lemma_flatten_push(packet@);
                    assert(packets_view(r@.push(packet)) =~= packets_view(r@).push(packet@));
                    assert(packet@ =~= pairs@.subrange(done, i + 1));
                    assert(pairs@.take(done) + pairs@.subrange(done, i + 1)
                        =~= pairs@.take(i + 1));
                    let len = r@.len() as int;
                    assert((len + 1) * packet_size == done + packet_size)
                        by (nonlinear_arith)
                        requires done == len * packet_size;
                }
                r.push(packet);
            },
            None => {
                assert(p.pending_spec() =~= pairs@.subrange(done, i + 1));
            },
        }
        i = i + 1;
    }
    proof {
        let q = r@.len() as int;
        let ps = packet_size as int;
        let rem = p.pending_spec().len() as int;
        assert((pairs@.len() as int) / ps == q) by (nonlinear_arith)
            requires pairs@.len() == q * ps + rem, 0 <= rem < ps, q >= 0;
    }
    r
}

/// Packet count: where `packetize` makes `pairs.len() / packet_size` packets,
/// a source of `n * packet_size + k` pairs with `k < packet_size` makes exactly
/// `n` of them, and the `k` pairs of the tail are the ones left out.
pub proof fn lemma_packet_count(pairs: Seq<SamplePair>, packet_size: nat, n: nat, k: nat)
    requires
        packet_size > 0,
        k < packet_size,
        pairs.len() == n * packet_size + k,
    ensures
        pairs.len() / packet_size == n,
        pairs.len() - (pairs.len() / packet_size) * packet_size == k,
{
    assert((n * packet_size + k) / packet_size == n) by (nonlinear_arith)
        requires k < packet_size, packet_size > 0;
}

} // verus!
