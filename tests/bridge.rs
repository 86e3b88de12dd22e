use ring_bridge::bridge::move_packets;
use ring_bridge::ring::{Ring, RingSet, Slot};

/// A frame of `len` bytes whose contents depend on `seed`.
fn frame(len: u16, seed: u8) -> Vec<u8> {
    (0..len as usize).map(|i| (i as u8).wrapping_mul(7).wrapping_add(seed)).collect()
}

/// A receive ring of `size` slots holding frames of the given lengths from slot `cur` on.
fn rx_ring(size: usize, cap: usize, cur: usize, lens: &[u16], seed: u8) -> Ring {
    let mut slots: Vec<Slot> = (0..size).map(|_| Slot::new(vec![0xee; cap], 0)).collect();
    for (k, &len) in lens.iter().enumerate() {
        let j = (cur + k) % size;
        let mut buf = frame(len, seed.wrapping_add(k as u8));
        buf.resize(cap, 0xee);
        slots[j] = Slot::new(buf, len);
    }
    Ring::new(slots, cur, (cur + lens.len()) % size)
}

/// A transmit ring of `size` slots with `free` free slots from slot `cur` on.
fn tx_ring(size: usize, cap: usize, cur: usize, free: usize) -> Ring {
    let slots: Vec<Slot> = (0..size).map(|_| Slot::new(vec![0x55; cap], 9)).collect();
    Ring::new(slots, cur, (cur + free) % size)
}

fn payload(s: &Slot) -> &[u8] {
    &s.buf[..s.len as usize]
}

#[test]
fn end_to_end_three_frames_into_five_slots() {
    let mut src = RingSet::new(vec![rx_ring(4, 2048, 0, &[64, 128, 1500], 1)]);
    let mut dst = RingSet::new(vec![tx_ring(6, 1514, 0, 5)]);
    let before = dst.rings[0].slots[3].buf.clone();
    let n = move_packets(&mut src, &mut dst);
    assert_eq!(n, 3);
    for k in 0..3 {
        assert_eq!(dst.rings[0].slots[k].len, src.rings[0].slots[k].len);
        assert_eq!(payload(&dst.rings[0].slots[k]), payload(&src.rings[0].slots[k]));
        assert_eq!(dst.rings[0].slots[k].buf.len(), 1514);
    }
    assert_eq!(dst.rings[0].slots[0].len, 64);
    assert_eq!(dst.rings[0].slots[1].len, 128);
    assert_eq!(dst.rings[0].slots[2].len, 1500);
    for k in 3..5 {
        assert_eq!(dst.rings[0].slots[k].len, 9);
        assert_eq!(dst.rings[0].slots[k].buf, before);
    }
    assert_eq!(src.rings[0].cur, 3);
    assert_eq!(src.rings[0].head, 3);
    assert_eq!(dst.rings[0].cur, 3);
    assert_eq!(dst.rings[0].head, 3);
}

#[test]
fn copy_keeps_bytes_behind_the_payload() {
    let mut src = RingSet::new(vec![rx_ring(2, 64, 0, &[4], 3)]);
    let mut dst = RingSet::new(vec![tx_ring(2, 8, 0, 1)]);
    move_packets(&mut src, &mut dst);
    let s = &dst.rings[0].slots[0];
    assert_eq!(s.len, 4);
    assert_eq!(&s.buf[..4], &frame(4, 3)[..]);
    assert_eq!(&s.buf[4..], &[0x55, 0x55, 0x55, 0x55]);
}

#[test]
fn frames_flow_across_several_rings_in_order() {
    let mut src = RingSet::new(vec![
        rx_ring(4, 256, 2, &[10, 20, 30], 10),
        rx_ring(3, 256, 0, &[], 20),
        rx_ring(4, 256, 1, &[40, 50], 30),
    ]);
    let mut dst = RingSet::new(vec![tx_ring(3, 256, 1, 2), tx_ring(5, 256, 4, 4)]);
    let n = move_packets(&mut src, &mut dst);
    assert_eq!(n, 5);
    let sent: Vec<u16> = vec![
        dst.rings[0].slots[1].len,
        dst.rings[0].slots[2].len,
        dst.rings[1].slots[4].len,
        dst.rings[1].slots[0].len,
        dst.rings[1].slots[1].len,
    ];
    assert_eq!(sent, vec![10, 20, 30, 40, 50]);
    assert_eq!(payload(&dst.rings[1].slots[4]), &frame(30, 12)[..]);
    assert_eq!(payload(&dst.rings[1].slots[1]), &frame(50, 31)[..]);
    assert_eq!(dst.rings[1].slots[2].len, 9);
    assert_eq!(src.rings[0].cur, 1);
    assert_eq!(src.rings[2].cur, 3);
    assert_eq!(dst.rings[0].cur, 0);
    assert_eq!(dst.rings[1].cur, 2);
    for r in src.rings.iter().chain(dst.rings.iter()) {
        assert_eq!(r.head, r.cur);
    }
}

#[test]
fn empty_source_moves_nothing_and_publishes_heads() {
    let mut src = RingSet::new(vec![rx_ring(4, 64, 2, &[], 0), rx_ring(4, 64, 1, &[], 0)]);
    let mut dst = RingSet::new(vec![tx_ring(4, 64, 3, 3), tx_ring(4, 64, 0, 2)]);
    src.rings[0].head = 0;
    dst.rings[1].head = 3;
    let n = move_packets(&mut src, &mut dst);
    assert_eq!(n, 0);
    assert_eq!(src.rings[0].cur, 2);
    assert_eq!(src.rings[0].head, 2);
    assert_eq!(src.rings[1].head, 1);
    assert_eq!(dst.rings[0].cur, 3);
    assert_eq!(dst.rings[0].head, 3);
    assert_eq!(dst.rings[1].cur, 0);
    assert_eq!(dst.rings[1].head, 0);
    for r in dst.rings.iter() {
        for s in r.slots.iter() {
            assert_eq!(s.len, 9);
        }
    }
}

#[test]
fn overfull_source_waits_for_the_next_pass() {
    let mut src = RingSet::new(vec![rx_ring(8, 128, 6, &[1, 2, 3, 4, 5], 0)]);
    let mut dst = RingSet::new(vec![tx_ring(3, 128, 0, 2), tx_ring(2, 128, 1, 1)]);
    let n = move_packets(&mut src, &mut dst);
    assert_eq!(n, 3);
    assert_eq!(src.rings[0].available(), 2);
    assert_eq!(src.rings[0].cur, 1);
    assert_eq!(dst.rings[0].slots[0].len, 1);
    assert_eq!(dst.rings[0].slots[1].len, 2);
    assert_eq!(dst.rings[1].slots[1].len, 3);

    let mut dst2 = RingSet::new(vec![tx_ring(4, 128, 0, 3)]);
    let m = move_packets(&mut src, &mut dst2);
    assert_eq!(m, 2);
    assert_eq!(n + m, 5);
    assert!(src.rings[0].is_exhausted());
    assert_eq!(dst2.rings[0].slots[0].len, 4);
    assert_eq!(dst2.rings[0].slots[1].len, 5);
    assert_eq!(payload(&dst2.rings[0].slots[1]), &frame(5, 4)[..]);
    assert_eq!(dst2.rings[0].slots[2].len, 9);
    assert_eq!(dst2.rings[0].cur, 2);
}

#[test]
fn no_destination_rings_moves_nothing() {
    let mut src = RingSet::new(vec![rx_ring(4, 64, 0, &[8, 8], 0)]);
    let mut dst = RingSet::new(vec![]);
    assert_eq!(move_packets(&mut src, &mut dst), 0);
    assert_eq!(src.rings[0].cur, 0);
    assert_eq!(src.rings[0].available(), 2);
}

#[test]
fn ring_positions_wrap() {
    let r = tx_ring(4, 8, 3, 3);
    assert_eq!(r.tail, 2);
    assert_eq!(r.available(), 3);
    assert!(!r.is_exhausted());
    assert_eq!(r.next_index(3), 0);
    assert_eq!(r.next_index(1), 2);
    let mut r2 = r;
    r2.cur = 1;
    r2.head_from_cur();
    assert_eq!(r2.head, 1);
}

#[test]
fn slot_length_and_copy() {
    let mut s = Slot::new(vec![0; 6], 0);
    s.set_len(5);
    assert_eq!(s.get_len(), 5);
    let src = Slot::new(vec![1, 2, 3, 4], 3);
    s.copy_from(&src);
    assert_eq!(s.get_len(), 3);
    assert_eq!(s.buf, vec![1, 2, 3, 0, 0, 0]);
}
