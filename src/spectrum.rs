use vstd::prelude::*;

use crate::packet::{Packet, SamplePair};
use crate::queue::{BoundedQueue, QueueState, Received};

verus! {

/// The frequency bin shown in screen column `column`.
pub open spec fn bin_of(column: nat, window_len: nat, multiplier: nat) -> nat {
    (column * column * multiplier * multiplier) / (2 * window_len)
}

/// Maps screen column `column` to the frequency bin it displays.
/// The quadratic remap stretches the low frequencies over more columns:
/// `floor((column / window_len)^2 * multiplier^2 * window_len / 2)`.
pub fn remap_bin(column: u32, window_len: u32, multiplier: u32) -> (r: u64)
    requires
        window_len > 0,
        column * multiplier <= u32::MAX,
    ensures
        r == bin_of(column as nat, window_len as nat, multiplier as nat),
        column * multiplier <= window_len ==> r <= window_len / 2,
{
    let cm: u64 = column as u64 * multiplier as u64;
    assert(cm * cm <= u64::MAX) by (nonlinear_arith)
        requires cm <= u32::MAX;
    let sq: u64 = cm * cm;
    let r: u64 = sq / (2 * window_len as u64);
    proof {
        let c = column as int;
        let m = multiplier as int;
        let w = window_len as int;
        assert(sq == c * c * m * m) by (nonlinear_arith)
            requires cm == c * m, sq == cm * cm;
        if c * m <= w {
            assert(sq <= w * w) by (nonlinear_arith)
                requires sq == (c * m) * (c * m), 0 <= c * m <= w;
            assert((sq as int) / (2 * w) <= w / 2) by (nonlinear_arith)
                requires sq <= w * w, w > 0;
        }
    }
    r
}

/// The remap never goes back: a column further right shows the same or a
/// higher frequency bin.
pub proof fn lemma_remap_monotone(c1: nat, c2: nat, window_len: nat, multiplier: nat)
    requires
        window_len > 0,
        c1 <= c2,
    ensures
        bin_of(c1, window_len, multiplier) <= bin_of(c2, window_len, multiplier),
{
    let a = (c1 * c1 * multiplier * multiplier) as int;
    let b = (c2 * c2 * multiplier * multiplier) as int;
    assert(a <= b) by (nonlinear_arith)
        requires a == c1 * c1 * multiplier * multiplier, b == c2 * c2 * multiplier * multiplier,
            c1 <= c2;
    vstd::arithmetic::div_mod::lemma_div_is_ordered(a, b, 2 * window_len as int);
}

/// The bin shown in each of `column_count` columns, for a transform over
/// `column_count * multiplier` samples.
pub fn column_bins(column_count: u32, multiplier: u32) -> (r: Vec<u64>)
    requires
        column_count > 0,
        multiplier > 0,
        column_count * multiplier <= u32::MAX,
    ensures
        r@.len() == column_count,
        forall|s: int|
            0 <= s < column_count ==> #[trigger] r@[s] == bin_of(
                s as nat,
                (column_count * multiplier) as nat,
                multiplier as nat,
            ),
        forall|s: int| 0 <= s < column_count ==> #[trigger] r@[s] <= (column_count * multiplier) / 2,
{
    let window_len: u32 = column_count * multiplier;
    let mut r: Vec<u64> = Vec::new();
    let mut s: u32 = 0;
    assert(window_len > 0) by (nonlinear_arith)
        requires window_len == column_count * multiplier, column_count > 0, multiplier > 0;
    while s < column_count
        invariant
            window_len > 0,
            window_len == column_count * multiplier,
            column_count * multiplier <= u32::MAX,
            multiplier > 0,
            s <= column_count,
            r@.len() == s,
            forall|k: int|
                0 <= k < s ==> #[trigger] r@[k] == bin_of(
                    k as nat,
                    window_len as nat,
                    multiplier as nat,
                ),
            forall|k: int| 0 <= k < s ==> #[trigger] r@[k] <= window_len / 2,
        decreases column_count - s,
    {
        assert(s * multiplier <= window_len) by (nonlinear_arith)
            requires s < column_count, window_len == column_count * multiplier, multiplier > 0;
        let b = remap_bin(s, window_len, multiplier);
        r.push(b);
        s = s + 1;
    }
    r
}

/// The last `capacity` items of `history`, or all of them if there are fewer.
pub open spec fn last_n<T>(history: Seq<T>, capacity: nat) -> Seq<T> {
    if history.len() > capacity {
        history.skip(history.len() - capacity)
    } else {
        history
    }
}

/// Keeping the last items step by step is keeping the last items of the whole.
pub proof fn lemma_last_n_push<T>(history: Seq<T>, x: T, capacity: nat)
    requires
        capacity > 0,
    ensures
        last_n(last_n(history, capacity).push(x), capacity) == last_n(history.push(x), capacity),
{
    assert(last_n(last_n(history, capacity).push(x), capacity) =~= last_n(history.push(x), capacity));
}

/// The left channel of each pair.
pub open spec fn left_channel(pairs: Seq<SamplePair>) -> Seq<i16> {
    pairs.map_values(|p: SamplePair| p.0)
}

/// The position in a ring of `capacity` slots that lies `i` steps after `start`.
pub open spec fn slot(start: int, i: int, capacity: int) -> int {
    if start + i < capacity { start + i } else { start + i - capacity }
}

/// A sliding window over the most recent samples of one channel, kept in a
/// ring of fixed size so that appending costs the same however full it is.
pub struct SpectrumWindow {
    ring: Vec<i16>,
    start: usize,
    len: usize,
}

impl View for SpectrumWindow {
    type V = Seq<i16>;

    /// The samples in the window, oldest first.
    closed spec fn view(&self) -> Seq<i16> {
        Seq::new(
            self.len as nat,
            |i: int| self.ring@[slot(self.start as int, i, self.ring@.len() as int)],
        )
    }
}

impl SpectrumWindow {
    /// The number of samples the window holds when full.
    pub closed spec fn capacity_spec(&self) -> nat {
        self.ring@.len()
    }

    /// The ring's bookkeeping is in range.
    pub closed spec fn ring_ok(&self) -> bool {
        &&& self.start < self.ring@.len()
        &&& self.len <= self.ring@.len()
    }

    /// Never more samples than the capacity, and room for at least one.
    pub open spec fn wf(&self) -> bool {
        &&& self.capacity_spec() > 0
        &&& self.ring_ok()
        &&& self@.len() <= self.capacity_spec()
    }

    /// An empty window of `capacity` samples.
    pub fn new(capacity: usize) -> (w: Self)
        requires
            capacity > 0,
        ensures
            w.wf(),
            w.capacity_spec() == capacity,
            w@ == Seq::<i16>::empty(),
    {
        let mut ring: Vec<i16> = Vec::new();
        let mut k: usize = 0;
        while k < capacity
            invariant
                k <= capacity,
                ring@.len() == k,
            decreases capacity - k,
        {
            ring.push(0);
            k = k + 1;
        }
        let w = SpectrumWindow { ring, start: 0, len: 0 };
        assert(w@ =~= Seq::<i16>::empty());
        w
    }

    /// A copy of the samples in the window, oldest first.
    pub fn snapshot(&self) -> (r: Vec<i16>)
        requires
            self.wf(),
        ensures
            r@ == self@,
    {
        let cap = self.ring.len();
        let mut r: Vec<i16> = Vec::new();
        let mut i: usize = 0;
        while i < self.len
            invariant
                self.wf(),
                cap == self.ring@.len(),
                i <= self.len,
                r@ == self@.take(i as int),
            decreases self.len - i,
        {
            let off = cap - self.start;
            let at: usize = if i < off { self.start + i } else { i - off };
            r.push(self.ring[at]);
            i = i + 1;
            assert(r@ =~= self@.take(i as int));
        }
        assert(r@ =~= self@);
        r
    }

    /// The number of samples the window holds when full.
    pub fn capacity(&self) -> (r: usize)
        ensures
            r == self.capacity_spec(),
    {
        self.ring.len()
    }

    /// Whether the window holds as many samples as it can; only then is it
    /// ready for a transform.
    pub fn is_full(&self) -> (r: bool)
        requires
            self.wf(),
        ensures
            r == (self@.len() == self.capacity_spec()),
    {
        self.len == self.ring.len()
    }

    /// Appends `x`, evicting the oldest sample when the window is full.
    pub fn push(&mut self, x: i16)
        requires
            old(self).wf(),
        ensures
            final(self).wf(),
            final(self).capacity_spec() == old(self).capacity_spec(),
            final(self)@ == last_n(old(self)@.push(x), old(self).capacity_spec()),
    {
        let cap = self.ring.len();
        let off = cap - self.start;
        if self.len < cap {
            let at: usize = if self.len < off { self.start + self.len } else { self.len - off };
            self.ring.set(at, x);
            self.len = self.len + 1;
        } else {
            self.ring.set(self.start, x);
            self.start = if self.start + 1 == cap { 0 } else { self.start + 1 };
        }
        assert(self@ =~= last_n(old(self)@.push(x), old(self).capacity_spec()));
    }

    /// Appends the left channel of each pair of `packet`, in order.
    pub fn push_packet(&mut self, packet: &Packet)
        requires
            old(self).wf(),
        ensures
            final(self).wf(),
            final(self).capacity_spec() == old(self).capacity_spec(),
            final(self)@ == last_n(old(self)@ + left_channel(packet@), old(self).capacity_spec()),
    {
        let ghost before = self@;
        let ghost cap = self.capacity_spec();
        let mut k: usize = 0;
        assert(before + left_channel(packet@.take(0)) =~= before);
        assert(last_n(before, cap) == before);
        while k < packet.len()
            invariant
                self.wf(),
                self.capacity_spec() == cap,
                k <= packet@.len(),
                self@ == last_n(before + left_channel(packet@.take(k as int)), cap),
            decreases packet@.len() - k,
        {
            let x = packet[k].0;
            proof {
                lemma_last_n_push(before + left_channel(packet@.take(k as int)), x, cap);
                assert((before + left_channel(packet@.take(k as int))).push(x)
                    =~= before + left_channel(packet@.take(k + 1)));
            }
            self.push(x);
            k = k + 1;
        }
        assert(packet@.take(k as int) =~= packet@);
    }
}

/// The number of whole packets of `packet_size` samples that fit in `wanted`
/// samples, but no more than `available`.
pub open spec fn frame_packets(wanted: nat, packet_size: nat, available: nat) -> nat {
    let fit = (wanted as int / packet_size as int) as nat;
    if available < fit { available } else { fit }
}

/// Feeds the window for one frame: takes whole packets from `source` while
/// they keep the frame within `wanted` samples, stopping early without error
/// when nothing is queued, and appends the left channel of each. Returns the
/// number of packets taken.
pub fn pull_frame(
    source: &mut BoundedQueue<Packet>,
    window: &mut SpectrumWindow,
    wanted: usize,
    packet_size: usize,
) -> (r: usize)
    requires
        old(source).wf(),
        old(window).wf(),
        packet_size > 0,
        forall|k: int|
            0 <= k < old(source)@.items.len() ==> #[trigger] old(source)@.items[k]@.len()
                == packet_size,
    ensures
        r == frame_packets(wanted as nat, packet_size as nat, old(source)@.items.len()),
        r * packet_size <= wanted,
        final(source).wf(),
        final(source)@ == (QueueState { items: old(source)@.items.skip(r as int), ..old(source)@ }),
        final(window).wf(),
        final(window).capacity_spec() == old(window).capacity_spec(),
        final(window)@ == last_n(
            old(window)@ + left_channel(
                crate::packet::packets_view(old(source)@.items.take(r as int)).flatten(),
            ),
            old(window).capacity_spec(),
        ),
{
    let ghost items0 = source@.items;
    let ghost w0 = window@;
    let ghost cap = window.capacity_spec();
    let fit: usize = wanted / packet_size;
    let mut count: usize = 0;
    let mut dry = false;
    proof {
        assert(crate::packet::packets_view(items0.take(0)).flatten() =~= Seq::<SamplePair>::empty());
        assert(w0 + left_channel(Seq::<SamplePair>::empty()) =~= w0);
        assert(items0.skip(0) =~= items0);
    }
    while count < fit && !dry
        invariant
            source.wf(),
            window.wf(),
            window.capacity_spec() == cap,
            cap > 0,
            packet_size > 0,
            fit == wanted / packet_size,
            items0 == old(source)@.items,
            w0 == old(window)@,
            count <= items0.len(),
            count <= fit,
            source@ == (QueueState { items: items0.skip(count as int), ..old(source)@ }),
            forall|k: int| 0 <= k < items0.len() ==> #[trigger] items0[k]@.len() == packet_size,
            window@ == last_n(
                w0 + left_channel(
                    crate::packet::packets_view(items0.take(count as int)).flatten(),
                ),
                cap,
            ),
            dry ==> count == items0.len() && count < fit,
        decreases items0.len() - count, if dry { 0int } else { 1int },
    {
        match source.receive() {
            Received::Item(packet) => {
                let ghost c = count as int;
                let ghost played = crate::packet::packets_view(items0.take(c)).flatten();
                assert(items0.skip(c)[0] == items0[c]);
                proof {
                    let pv = crate::packet::packets_view(items0.take(c));
                    pv.lemma_flatten_push(packet@);
                    assert(crate::packet::packets_view(items0.take(c + 1)) =~= pv.push(packet@));
                    assert(left_channel(played + packet@) =~= left_channel(played) + left_channel(
                        packet@,
                    ));
                    assert(w0 + left_channel(played) + left_channel(packet@) =~= w0
                        + left_channel(played + packet@));
                    assert(items0.skip(c).drop_first() =~= items0.skip(c + 1));
                }
                let ghost mid = w0 + left_channel(played);
                proof {
                    lemma_last_n_concat(mid, left_channel(packet@), cap);
                }
                window.push_packet(&packet);
                count = count + 1;
            },
            Received::Empty => {
                dry = true;
            },
            Received::Closed => {
                dry = true;
            },
        }
    }
    proof {
        assert(count * packet_size <= wanted) by (nonlinear_arith)
            requires count <= fit, fit == wanted / packet_size, packet_size > 0;
    }
    count
}

/// Keeping the last items after each of several appends is keeping the last
/// items of the whole.
pub proof fn lemma_last_n_concat<T>(history: Seq<T>, xs: Seq<T>, capacity: nat)
    requires
        capacity > 0,
    ensures
        last_n(last_n(history, capacity) + xs, capacity) == last_n(history + xs, capacity),
{
    assert(last_n(last_n(history, capacity) + xs, capacity) =~= last_n(history + xs, capacity));
}

} // verus!
