use vstd::prelude::*;

use crate::packet::{Packet, SamplePair, packets_view};
use crate::queue::{BoundedQueue, QueueState, Received};

verus! {

/// Pairs written out channel by channel: `l0, r0, l1, r1, ...`.
pub open spec fn interleave(pairs: Seq<SamplePair>) -> Seq<i16>
    decreases pairs.len(),
{
    if pairs.len() == 0 {
        Seq::empty()
    } else {
        interleave(pairs.drop_last()) + seq![pairs.last().0, pairs.last().1]
    }
}

/// `n` samples of silence.
pub open spec fn silence(n: nat) -> Seq<i16> {
    Seq::new(n, |i: int| 0i16)
}

/// The number of packets that one block of `frames` frames takes from a
/// source holding `available` packets of `packet_size` pairs.
pub open spec fn packets_taken(frames: nat, packet_size: nat, available: nat) -> nat {
    let need = frames / packet_size;
    if available < need { available } else { need }
}

/// What one call of the output callback produces.
pub struct RenderBlock {
    /// Interleaved samples for the device, two per frame.
    pub samples: Vec<i16>,
    /// The packets that were played, in order, for the visualization.
    pub forwarded: Vec<Packet>,
    /// The source is closed and exhausted: no more blocks should be requested.
    pub finished: bool,
}

/// Interleaving writes two samples per pair.
pub proof fn lemma_interleave_len(pairs: Seq<SamplePair>)
    ensures
        interleave(pairs).len() == 2 * pairs.len(),
    decreases pairs.len(),
{
    if pairs.len() > 0 {
        lemma_interleave_len(pairs.drop_last());
    }
}

/// Appends the samples of `packet` to `out`, channel by channel.
fn write_packet(out: &mut Vec<i16>, packet: &Packet, Ghost(played): Ghost<Seq<SamplePair>>)
    requires
        old(out)@ == interleave(played),
    ensures
        final(out)@ == interleave(played + packet@),
{
    let mut k: usize = 0;
    assert(played + packet@.take(0) =~= played);
    while k < packet.len()
        invariant
            k <= packet@.len(),
            out@ == interleave(played + packet@.take(k as int)),
        decreases packet@.len() - k,
    {
        let pair = packet[k];
        proof {
            let next = played + packet@.take(k + 1);
            assert(next.drop_last() =~= played + packet@.take(k as int));
            assert(next.last() == pair);
        }
        out.push(pair.0);
        out.push(pair.1);
        k = k + 1;
        assert(out@ =~= interleave(played + packet@.take(k as int)));
    }
    assert(packet@.take(k as int) =~= packet@);
}

/// Fills one output block of `frames` stereo frames from `source`: takes
/// packets while the block has room and the source has packets, writes their
/// samples interleaved, and fills what is left with silence. The packets
/// taken are handed back in order so that they can be passed on. When the
/// source is closed and runs dry, the block says that playback is finished.
pub fn fill_block(source: &mut BoundedQueue<Packet>, frames: usize, packet_size: usize) -> (r:
    RenderBlock)
    requires
        old(source).wf(),
        packet_size > 0,
        frames % packet_size == 0,
        frames <= usize::MAX / 2,
        forall|k: int|
            0 <= k < old(source)@.items.len() ==> #[trigger] old(source)@.items[k]@.len()
                == packet_size,
    ensures
        ({
            let taken = packets_taken(
                frames as nat,
                packet_size as nat,
                old(source)@.items.len(),
            ) as int;
            &&& final(source).wf()
            &&& final(source)@ == (QueueState { items: old(source)@.items.skip(taken), ..old(source)@ })
            &&& r.forwarded@ == old(source)@.items.take(taken)
            &&& r.samples@ == interleave(packets_view(r.forwarded@).flatten()) + silence(
                (2 * frames - 2 * taken * packet_size) as nat,
            )
            &&& r.finished == (taken < frames / packet_size && old(source)@.closed)
        }),
{
    let need: usize = frames / packet_size;
    let ghost items0 = source@.items;
    let ghost need_n = need as nat;
    let mut samples: Vec<i16> = Vec::new();
    let mut forwarded: Vec<Packet> = Vec::new();
    let mut finished = false;
    let mut dry = false;
    proof {
        assert(need * packet_size == frames) by (nonlinear_arith)
            requires need == frames / packet_size, frames % packet_size == 0, packet_size > 0;
        assert(packets_view(forwarded@) =~= Seq::<Seq<SamplePair>>::empty());
        assert(packets_view(forwarded@).flatten() =~= Seq::<SamplePair>::empty());
        assert(samples@ =~= interleave(Seq::<SamplePair>::empty()));
        assert(items0.skip(0) =~= items0);
        assert(2 * forwarded@.len() * packet_size == 0) by (nonlinear_arith)
            requires forwarded@.len() == 0;
    }
    while forwarded.len() < need && !dry
        invariant
            source.wf(),
            need * packet_size == frames,
            frames <= usize::MAX / 2,
            packet_size > 0,
            forwarded@.len() <= need,
            forwarded@.len() <= items0.len(),
            forwarded@ == items0.take(forwarded@.len() as int),
            source@ == (QueueState { items: items0.skip(forwarded@.len() as int), ..source@ }),
            source@.capacity == old(source)@.capacity,
            source@.closed == old(source)@.closed,
            items0 == old(source)@.items,
            forall|k: int| 0 <= k < items0.len() ==> #[trigger] items0[k]@.len() == packet_size,
            samples@ == interleave(packets_view(forwarded@).flatten()),
            samples@.len() == 2 * forwarded@.len() * packet_size,
            dry ==> forwarded@.len() == items0.len() && forwarded@.len() < need,
            finished == (dry && source@.closed),
        decreases need - forwarded@.len(), if dry { 0int } else { 1int },
    {
        let got = source.receive();
        match got {
            Received::Item(packet) => {
                let ghost t = forwarded@.len() as int;
                assert(items0.skip(t)[0] == items0[t]);
                assert(packet@.len() == packet_size);
                proof {
                    assert((t + 1) * packet_size <= frames) by (nonlinear_arith)
                        requires t < need, need * packet_size == frames;
                    assert(2 * (t + 1) * packet_size == 2 * t * packet_size + 2 * packet_size)
                        by (nonlinear_arith);
                    lemma_interleave_len(packets_view(forwarded@).flatten() + packet@);
                    lemma_interleave_len(packets_view(forwarded@).flatten());
                    packets_view(forwarded@).lemma_flatten_push(packet@);
                    assert(packets_view(forwarded@.push(packet)) =~= packets_view(
                        forwarded@,
                    ).push(packet@));
                }
                write_packet(&mut samples, &packet, Ghost(packets_view(forwarded@).flatten()));
                forwarded.push(packet);
                proof {
                    assert(forwarded@ =~= items0.take(t + 1));
                    assert(items0.skip(t).drop_first() =~= items0.skip(t + 1));
                }
            },
            Received::Empty => {
                dry = true;
            },
            Received::Closed => {
                dry = true;
                finished = true;
            },
        }
    }
    let ghost taken = forwarded@.len() as int;
    proof {
        assert(taken == packets_taken(frames as nat, packet_size as nat, items0.len()));
        assert(2 * taken * packet_size <= 2 * frames) by (nonlinear_arith)
            requires taken <= need, need * packet_size == frames;
    }
    let ghost played = samples@;
    while samples.len() < 2 * frames
        invariant
            frames <= usize::MAX / 2,
            played.len() <= samples@.len() <= 2 * frames,
            samples@ == played + silence((samples@.len() - played.len()) as nat),
        decreases 2 * frames - samples@.len(),
    {
        samples.push(0);
        assert(samples@ =~= played + silence((samples@.len() - played.len()) as nat));
    }
    RenderBlock { samples, forwarded, finished }
}

} // verus!
