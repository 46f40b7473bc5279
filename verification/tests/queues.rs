use intel_wifi::registers::{PollStatus, RegisterPoll};
use intel_wifi::tx_rx;
use intel_wifi::tx_rx::{RxQueue, RxStatus, Tfd, TxQueue};

#[test]
fn a_zeroed_descriptor() {
    let tfd = Tfd::zeroed();
    assert_eq!(tfd.scratch, [0, 0]);
    assert_eq!(tfd.num_tbs, 0);
    assert_eq!(tfd.tbs.len(), tx_rx::TFD_MAX_FRAGMENTS);
    assert!(tfd.tbs.iter().all(|tb| tb.addr == 0 && tb.len_ctrl == 0));
}

#[test]
fn enqueued_frames_fill_slots_in_order() {
    let mut queue = TxQueue::new(3);
    assert_eq!(queue.queue_id, 3);
    assert_eq!(queue.free_slots(), 255);
    assert_eq!(queue.enqueue(vec![1, 2, 3], 0x1000), Some(0));
    assert_eq!(queue.enqueue(vec![4; 70_000], 0x2000), Some(1));
    assert_eq!(queue.free_slots(), 253);
    assert_eq!(queue.tfds[0].num_tbs, 1);
    assert_eq!(queue.tfds[0].tbs[0].addr, 0x1000);
    assert_eq!(queue.tfds[0].tbs[0].len_ctrl, 3);
    assert_eq!(queue.byte_count_table[0], 3);
    assert_eq!(queue.pending_bufs[0], Some(vec![1, 2, 3]));
    assert_eq!(queue.tfds[1].tbs[0].len_ctrl, 70_000);
    assert_eq!(queue.byte_count_table[1], (70_000 % 65_536) as u16);
    assert_eq!(queue.write_idx, 2);
}

#[test]
fn a_queue_takes_255_frames() {
    let mut queue = TxQueue::new(0);
    for i in 0..255usize {
        assert_eq!(queue.enqueue(vec![i as u8], i as u64), Some(i));
    }
    assert_eq!(queue.free_slots(), 0);
    assert_eq!(queue.enqueue(vec![0], 0), None);
    // Nothing was overwritten.
    for i in 0..255usize {
        assert_eq!(queue.pending_bufs[i], Some(vec![i as u8]));
    }
    queue.complete(0);
    assert_eq!(queue.pending_bufs[0], None);
    assert_eq!(queue.free_slots(), 1);
    assert_eq!(queue.enqueue(vec![9], 9), Some(255));
    assert_eq!(queue.write_idx, 0);
    assert_eq!(queue.enqueue(vec![9], 9), None);
}

#[test]
fn completion_frees_everything_up_to_a_slot() {
    let mut queue = TxQueue::new(0);
    for i in 0..10u8 {
        queue.enqueue(vec![i], 0);
    }
    queue.complete(6);
    assert_eq!(queue.read_idx, 7);
    assert_eq!(queue.free_slots(), 252);
    assert_eq!(queue.pending_bufs[6], None);
    assert_eq!(queue.pending_bufs[7], Some(vec![7]));
    queue.complete(255);
    assert_eq!(queue.read_idx, 0);
}

#[test]
fn physical_addresses_wrap() {
    assert_eq!(tx_rx::physical_address(0x5000, 0x1000), 0x4000);
    assert_eq!(tx_rx::physical_address(0, 1), u64::MAX);
}

#[test]
fn a_new_receive_queue() {
    let queue = RxQueue::new(0);
    assert_eq!(queue.bufs.len(), 256);
    assert!(queue.bufs.iter().all(|b| b.len() == 4096 && b.iter().all(|x| *x == 0)));
    assert_eq!((queue.read_idx, queue.write_idx), (0, 256));
    // With offset 0 the physical addresses are those of the buffers.
    for (buf, addr) in queue.bufs.iter().zip(queue.buf_phys_addrs.iter()) {
        assert_eq!(buf.as_ptr() as u64, *addr);
    }
    let shifted = RxQueue::new(0x10);
    assert_eq!(shifted.bufs[5].as_ptr() as u64 - 0x10, shifted.buf_phys_addrs[5]);
}

#[test]
fn received_frames_come_in_order() {
    let mut queue = RxQueue::new(0);
    let mut ring = vec![RxStatus { len: 0, flags: 0 }; 256];
    assert!(queue.receive(&ring).is_none());
    assert_eq!(queue.read_idx, 0);
    queue.written(0, b"first");
    queue.written(1, b"second");
    ring[0].len = 5;
    ring[1].len = 6;
    assert_eq!(queue.receive(&ring), Some((0, &b"first"[..])));
    assert_eq!(queue.receive(&ring), Some((1, &b"second"[..])));
    assert!(queue.receive(&ring).is_none());
    queue.recycle(0);
    assert_eq!((queue.read_idx, queue.write_idx), (2, 257));
}

#[test]
fn buffers_stay_at_their_addresses() {
    let mut queue = RxQueue::new(0);
    for round in 0..3u8 {
        for slot in 0..256usize {
            queue.written(slot, &vec![round; 1 + slot * 16]);
            assert_eq!(queue.bufs[slot].as_ptr() as u64, queue.buf_phys_addrs[slot]);
            assert_eq!(queue.bufs[slot].len(), 4096);
        }
    }
    queue.written(0, &[7; 4096]);
    queue.written(0, &[]);
    assert_eq!(queue.bufs[0], vec![7; 4096]);
    assert_eq!(queue.bufs[0].as_ptr() as u64, queue.buf_phys_addrs[0]);
}

#[test]
fn a_received_length_is_cut_to_the_buffer() {
    let mut queue = RxQueue::new(0);
    let ring = vec![RxStatus { len: 5000, flags: 0 }; 256];
    assert_eq!(queue.receive(&ring).unwrap().1.len(), 4096);
}

#[test]
fn the_ring_comes_round() {
    let mut queue = RxQueue::new(0);
    queue.read_idx = 256 + 3;
    queue.written(3, &[1, 2]);
    queue.written(3, &[9]);
    let mut ring = vec![RxStatus { len: 0, flags: 0 }; 256];
    ring[3].len = 2;
    assert_eq!(queue.receive(&ring), Some((3, &[9, 2][..])));
    assert_eq!(queue.read_idx, 260);
}

#[test]
fn write_pointer_registers() {
    let tx = tx_rx::poke_tx_write_ptr(2, 77);
    assert_eq!((tx.offset, tx.value), (0x1C40, 77));
    let rx = tx_rx::poke_rx_write_ptr(257);
    assert_eq!((rx.offset, rx.value), (0x2000, 1));
}

#[test]
fn polls_wait_for_their_bits() {
    let mut poll = RegisterPoll { offset: 4, mask: 2, until_set: true, reads_left: 3 };
    assert!(poll.observe(1) == PollStatus::Waiting);
    assert!(poll.observe(3) == PollStatus::Met);
    let mut clear = RegisterPoll { offset: 4, mask: 2, until_set: false, reads_left: 2 };
    assert!(clear.observe(2) == PollStatus::Waiting);
    assert!(clear.observe(2) == PollStatus::TimedOut);
    assert!(clear.observe(0) == PollStatus::TimedOut);
}
