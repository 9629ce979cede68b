use audio_spectrum::config::{Config, PACKET_SIZE, WINDOW_LEN};
use audio_spectrum::packet::{pair_up, packetize, Packet, Packetizer, SamplePair};
use audio_spectrum::queue::{BoundedQueue, Received};
use audio_spectrum::render::fill_block;

fn pairs(n: usize) -> Vec<SamplePair> {
    (0..n).map(|i| (i as i16, -(i as i16))).collect()
}

#[test]
fn packetize_whole_packets_in_order() {
    let src = pairs(3 * 4);
    let out = packetize(&src, 4);
    assert_eq!(out.len(), 3);
    for (k, p) in out.iter().enumerate() {
        assert_eq!(p.len(), 4);
        assert_eq!(p[..], src[k * 4..(k + 1) * 4]);
    }
}

#[test]
fn packetize_drops_partial_tail() {
    let src = pairs(3 * 4 + 3);
    let out = packetize(&src, 4);
    assert_eq!(out.len(), 3);
    let flat: Vec<SamplePair> = out.concat();
    assert_eq!(flat, src[..12].to_vec());
}

#[test]
fn packetize_short_source_gives_nothing() {
    assert!(packetize(&pairs(3), 4).is_empty());
    assert!(packetize(&Vec::new(), 4).is_empty());
}

#[test]
fn packetizer_emits_on_completion() {
    let mut p = Packetizer::new(3);
    assert_eq!(p.push((1, 2)), None);
    assert_eq!(p.push((3, 4)), None);
    assert_eq!(p.push((5, 6)), Some(vec![(1, 2), (3, 4), (5, 6)]));
    assert!(p.pending().is_empty());
    assert_eq!(p.push((7, 8)), None);
    assert_eq!(p.pending(), &vec![(7, 8)]);
    assert_eq!(p.packet_size(), 3);
}

#[test]
fn pair_up_interleaved() {
    assert_eq!(pair_up(&vec![1, 2, 3, 4]), vec![(1, 2), (3, 4)]);
    assert_eq!(pair_up(&vec![1, 2, 3]), vec![(1, 2)]);
    assert!(pair_up(&vec![]).is_empty());
}

#[test]
fn queue_blocks_at_capacity_until_a_receive() {
    let c = 3;
    let mut q: BoundedQueue<u32> = BoundedQueue::new(c);
    for i in 0..c as u32 {
        assert!(q.can_send());
        assert_eq!(q.try_send(i), Ok(()));
    }
    assert!(!q.can_send());
    assert_eq!(q.try_send(99), Err(99));
    assert_eq!(q.len(), c);
    assert!(matches!(q.receive(), Received::Item(0)));
    assert_eq!(q.try_send(99), Ok(()));
    let mut got = Vec::new();
    while let Received::Item(x) = q.receive() {
        got.push(x);
    }
    assert_eq!(got, vec![1, 2, 99]);
}

#[test]
fn queue_empty_is_not_closed() {
    let mut q: BoundedQueue<u8> = BoundedQueue::new(2);
    assert!(matches!(q.receive(), Received::Empty));
    assert!(!q.is_closed());
    assert_eq!(q.capacity(), 2);
}

#[test]
fn queue_close_drains_then_reports_closed() {
    let mut q: BoundedQueue<u8> = BoundedQueue::new(4);
    q.try_send(1).unwrap();
    q.try_send(2).unwrap();
    q.close();
    q.close();
    assert!(q.is_closed());
    assert_eq!(q.try_send(3), Err(3));
    assert!(matches!(q.receive(), Received::Item(1)));
    assert!(matches!(q.receive(), Received::Item(2)));
    assert!(matches!(q.receive(), Received::Closed));
    assert!(matches!(q.receive(), Received::Closed));
}

fn packet(base: i16, n: usize) -> Packet {
    (0..n).map(|i| (base + 2 * i as i16, base + 2 * i as i16 + 1)).collect()
}

#[test]
fn fill_block_interleaves_and_forwards() {
    let mut q: BoundedQueue<Packet> = BoundedQueue::new(8);
    q.try_send(packet(0, 2)).unwrap();
    q.try_send(packet(100, 2)).unwrap();
    q.try_send(packet(200, 2)).unwrap();
    let b = fill_block(&mut q, 4, 2);
    assert_eq!(b.samples, vec![0, 1, 2, 3, 100, 101, 102, 103]);
    assert_eq!(b.forwarded, vec![packet(0, 2), packet(100, 2)]);
    assert!(!b.finished);
    assert_eq!(q.len(), 1);
}

#[test]
fn fill_block_underrun_pads_silence() {
    let mut q: BoundedQueue<Packet> = BoundedQueue::new(8);
    q.try_send(packet(10, 2)).unwrap();
    let b = fill_block(&mut q, 6, 2);
    assert_eq!(b.samples, vec![10, 11, 12, 13, 0, 0, 0, 0, 0, 0, 0, 0]);
    assert_eq!(b.forwarded.len(), 1);
    assert!(!b.finished);
}

#[test]
fn fill_block_closed_source_finishes() {
    let mut q: BoundedQueue<Packet> = BoundedQueue::new(8);
    q.try_send(packet(-4, 2)).unwrap();
    q.close();
    let b = fill_block(&mut q, 4, 2);
    assert_eq!(b.samples, vec![-4, -3, -2, -1, 0, 0, 0, 0]);
    assert!(b.finished);
    let again = fill_block(&mut q, 4, 2);
    assert_eq!(again.samples, vec![0; 8]);
    assert!(again.forwarded.is_empty());
    assert!(again.finished);
}

#[test]
fn fill_block_full_block_of_closed_source_is_not_finished() {
    let mut q: BoundedQueue<Packet> = BoundedQueue::new(8);
    q.try_send(packet(0, 2)).unwrap();
    q.close();
    let b = fill_block(&mut q, 2, 2);
    assert_eq!(b.samples, vec![0, 1, 2, 3]);
    assert!(!b.finished);
}

#[test]
fn standard_config_sizes() {
    let c = Config::standard();
    assert_eq!(c.window_len(), WINDOW_LEN);
    assert_eq!(c.packet_size, PACKET_SIZE);
    assert_eq!(c.frames_per_block % c.packet_size, 0);
    assert!(c.samples_per_frame >= c.packet_size);
}
