use audio_spectrum::packet::Packet;
use audio_spectrum::queue::BoundedQueue;
use audio_spectrum::spectrum::{column_bins, pull_frame, remap_bin, SpectrumWindow};

#[test]
fn remap_bin_exact_values() {
    assert_eq!(remap_bin(0, 1024, 2), 0);
    assert_eq!(remap_bin(1, 1024, 2), 0);
    assert_eq!(remap_bin(100, 1024, 2), 19);
    assert_eq!(remap_bin(256, 1024, 2), 128);
    assert_eq!(remap_bin(511, 1024, 2), 510);
}

#[test]
fn column_bins_are_non_decreasing_and_in_range() {
    let bins = column_bins(512, 2);
    assert_eq!(bins.len(), 512);
    for w in bins.windows(2) {
        assert!(w[0] <= w[1]);
    }
    assert!(bins.iter().all(|&b| b <= 512));
    assert_eq!(bins[100], 19);
}

#[test]
fn window_evicts_oldest() {
    let mut w = SpectrumWindow::new(3);
    for x in 1..=5 {
        w.push(x);
    }
    assert_eq!(w.snapshot(), vec![3, 4, 5]);
    assert!(w.is_full());
    assert_eq!(w.capacity(), 3);
}

#[test]
fn window_not_full_until_capacity() {
    let mut w = SpectrumWindow::new(4);
    w.push(1);
    w.push(2);
    assert!(!w.is_full());
    w.push_packet(&vec![(7, 70), (8, 80)]);
    assert!(w.is_full());
    assert_eq!(w.snapshot(), vec![1, 2, 7, 8]);
}

fn packet(base: i16) -> Packet {
    vec![(base, 0), (base + 1, 0), (base + 2, 0)]
}

#[test]
fn pull_frame_takes_whole_packets_within_budget() {
    let mut q: BoundedQueue<Packet> = BoundedQueue::new(10);
    for k in 0..5 {
        q.try_send(packet(10 * k)).unwrap();
    }
    let mut w = SpectrumWindow::new(8);
    let taken = pull_frame(&mut q, &mut w, 7, 3);
    assert_eq!(taken, 2);
    assert_eq!(q.len(), 3);
    assert_eq!(w.snapshot(), vec![0, 1, 2, 10, 11, 12]);
}

#[test]
fn pull_frame_never_exceeds_samples_per_frame() {
    let mut q: BoundedQueue<Packet> = BoundedQueue::new(10);
    for k in 0..5 {
        q.try_send(vec![(k as i16, 0); 256]).unwrap();
    }
    let mut w = SpectrumWindow::new(1024);
    let taken = pull_frame(&mut q, &mut w, 882, 256);
    assert_eq!(taken, 3);
    assert!(taken * 256 <= 882);
    assert_eq!(w.snapshot().len(), 768);
    assert_eq!(q.len(), 2);
}

#[test]
fn pull_frame_budget_below_a_packet_takes_nothing() {
    let mut q: BoundedQueue<Packet> = BoundedQueue::new(10);
    q.try_send(packet(1)).unwrap();
    let mut w = SpectrumWindow::new(8);
    assert_eq!(pull_frame(&mut q, &mut w, 2, 3), 0);
    assert_eq!(q.len(), 1);
    assert!(w.snapshot().is_empty());
}

#[test]
fn pull_frame_stops_when_queue_is_dry() {
    let mut q: BoundedQueue<Packet> = BoundedQueue::new(10);
    q.try_send(packet(5)).unwrap();
    let mut w = SpectrumWindow::new(16);
    assert_eq!(pull_frame(&mut q, &mut w, 9, 3), 1);
    assert_eq!(w.snapshot(), vec![5, 6, 7]);
    q.close();
    assert_eq!(pull_frame(&mut q, &mut w, 9, 3), 0);
    assert_eq!(w.snapshot().len(), 3);
}

#[test]
fn window_keeps_latest_after_many_wraps() {
    let mut w = SpectrumWindow::new(3);
    for x in 1..=10 {
        w.push(x);
    }
    assert_eq!(w.snapshot(), vec![8, 9, 10]);
    let mut one = SpectrumWindow::new(1);
    one.push(4);
    one.push(-9);
    assert_eq!(one.snapshot(), vec![-9]);
}
