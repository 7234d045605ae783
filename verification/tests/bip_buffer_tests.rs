use bipbuffer::bip_buffer::{BipBlock, BipBuffer};

#[test]
fn bip_buffer_grow() {
    let mut bip_buffer = BipBuffer::new(4096, 0).unwrap();
    assert_eq!(bip_buffer.buffer_size(), 4096);

    assert_eq!(bip_buffer.grow(8192), true);
    assert_eq!(bip_buffer.buffer_size(), 8192);

    // Growing to a size not above the current capacity is a no-op that
    // reports failure; the capacity stays as it was.
    assert_eq!(bip_buffer.grow(1024), false);
    assert_eq!(bip_buffer.buffer_size(), 8192);
}

#[test]
fn simple_read_write() {
    let mut bip_buffer = BipBuffer::new(1024, 0).unwrap();

    let input_str = "hello, I am a string!";
    let input = input_str.as_bytes().to_vec();
    let input = input.as_slice();

    let status = bip_buffer.write(input);
    assert_eq!(status, input.len() as i32);
    assert_eq!(bip_buffer.is_signaled(), true);

    let mut buffer = vec![0u8; 4096];
    let status = bip_buffer.read(&mut buffer);
    assert_eq!(status, input.len() as i32);
    assert_eq!(bip_buffer.is_signaled(), false);

    let output_str = String::from_utf8(buffer[0..status as usize].to_vec()).unwrap();
    assert_eq!(input_str, output_str);
}

#[test]
fn new_rejects_zero_capacity() {
    assert!(BipBuffer::new(0, 0).is_none());
    assert!(BipBuffer::new(0, 16).is_none());
}

#[test]
fn new_rejects_unrepresentable_rounded_capacity() {
    assert!(BipBuffer::new(usize::MAX, 0).is_none());
}

#[test]
fn new_rounds_capacity_to_page_multiple() {
    assert_eq!(BipBuffer::new(5, 4).unwrap().buffer_size(), 8);
    assert_eq!(BipBuffer::new(8, 4).unwrap().buffer_size(), 8);
    assert_eq!(BipBuffer::new(1, 0).unwrap().buffer_size(), 4096);
}

#[test]
fn used_size_accounting() {
    let mut buf = BipBuffer::new(8, 8).unwrap();
    assert_eq!(buf.used_size(), 0);

    assert_eq!(buf.write(&[1, 2, 3, 4, 5]), 5);
    assert_eq!(buf.used_size(), 5);

    let mut dst = vec![0u8; 2];
    assert_eq!(buf.read(&mut dst), 2);
    assert_eq!(buf.used_size(), 3);

    assert_eq!(buf.write(&[6, 7]), 2);
    assert_eq!(buf.used_size(), 5);

    let mut rest = vec![0u8; 8];
    assert_eq!(buf.read(&mut rest), 5);
    assert_eq!(buf.used_size(), 0);
    assert_eq!(&rest[0..5], &[3, 4, 5, 6, 7]);
}

#[test]
fn two_phase_write_and_read() {
    let mut buf = BipBuffer::new(8, 8).unwrap();

    let idx = buf.write_reserve(4).unwrap();
    assert_eq!(idx, 0);
    buf.write_commit(4);
    assert_eq!(buf.used_size(), 4);

    let r_idx = buf.read_reserve(3).unwrap();
    assert_eq!(r_idx, 0);
    buf.read_commit(3);
    assert_eq!(buf.used_size(), 1);
}

#[test]
fn write_reserve_conflict_yields_empty() {
    let mut buf = BipBuffer::new(8, 8).unwrap();

    assert!(buf.write_reserve(4).is_some());
    // A second same-direction reservation without a commit is refused.
    assert!(buf.write_reserve(2).is_none());
    assert_eq!(buf.write_try_reserve(2), (0, 0));

    // Committing zero bytes clears the reservation and commits nothing.
    buf.write_commit(0);
    assert_eq!(buf.used_size(), 0);
    assert!(buf.write_reserve(2).is_some());
}

#[test]
fn read_reserve_conflict_yields_empty() {
    let mut buf = BipBuffer::new(8, 8).unwrap();
    assert_eq!(buf.write(&[1, 2, 3]), 3);

    assert!(buf.read_reserve(2).is_some());
    assert!(buf.read_reserve(1).is_none());
    assert_eq!(buf.read_try_reserve(1), (0, 0));

    buf.read_commit(0);
    assert_eq!(buf.used_size(), 3);
    assert!(buf.read_reserve(1).is_some());
    buf.read_commit(1);
    assert_eq!(buf.used_size(), 2);
}

#[test]
fn read_reserve_never_exceeds_block_a() {
    let mut buf = BipBuffer::new(8, 8).unwrap();
    assert!(buf.read_reserve(1).is_none());

    assert_eq!(buf.write(&[1, 2, 3]), 3);
    assert!(buf.read_reserve(4).is_none());
    let (idx, n) = buf.read_try_reserve(4);
    assert_eq!((idx, n), (0, 3));
    buf.read_commit(n);
    assert_eq!(buf.used_size(), 0);
}

#[test]
fn write_fills_at_most_the_free_run() {
    let mut buf = BipBuffer::new(8, 8).unwrap();

    // More data than the whole buffer: only the free run is taken.
    assert_eq!(buf.write(&[1, 2, 3, 4, 5, 6, 7, 8, 9, 10]), 8);
    assert_eq!(buf.used_size(), 8);

    // A full buffer accepts nothing.
    assert_eq!(buf.write(&[11]), -1);

    let mut dst = vec![0u8; 8];
    assert_eq!(buf.read(&mut dst), 8);
    assert_eq!(dst, vec![1, 2, 3, 4, 5, 6, 7, 8]);
}

#[test]
fn wraparound_populates_block_b_and_rotates() {
    let mut buf = BipBuffer::new(8, 8).unwrap();

    assert_eq!(buf.write(&[1, 2, 3, 4, 5, 6]), 6);
    let mut dst = vec![0u8; 4];
    assert_eq!(buf.read(&mut dst), 4);
    assert_eq!(dst, vec![1, 2, 3, 4]);

    // Three bytes do not fit the two-byte tail, so they wrap to the front.
    assert_eq!(buf.write(&[7, 8, 9]), 3);
    assert_eq!(buf.used_size(), 5);

    // The wrapped bytes begin at index 0 of the backing region.
    let (idx, n) = buf.write_try_reserve(1);
    assert_eq!((idx, n), (3, 1));
    buf.write_commit(0);

    // Reading the rest of the primary block rotates the wrapped block in,
    // with its index reset to 0.
    let mut rest = vec![0u8; 2];
    assert_eq!(buf.read(&mut rest), 2);
    assert_eq!(rest, vec![5, 6]);
    let reserved = buf.read_reserve(3);
    assert_eq!(reserved, Some(0));
    buf.read_commit(0);

    let mut wrapped = vec![0u8; 8];
    assert_eq!(buf.read(&mut wrapped), 3);
    assert_eq!(&wrapped[0..3], &[7, 8, 9]);
    assert_eq!(buf.used_size(), 0);
}

#[test]
fn grow_preserves_committed_bytes_across_wraparound() {
    let mut buf = BipBuffer::new(8, 8).unwrap();

    assert_eq!(buf.write(&[1, 2, 3, 4, 5, 6]), 6);
    let mut dst = vec![0u8; 4];
    assert_eq!(buf.read(&mut dst), 4);
    assert_eq!(buf.write(&[7, 8, 9]), 3);
    assert_eq!(buf.used_size(), 5);

    assert!(buf.grow(16));
    assert_eq!(buf.buffer_size(), 16);
    assert_eq!(buf.used_size(), 5);

    // The compacted content reads back unchanged and in order.
    let mut all = vec![0u8; 16];
    assert_eq!(buf.read(&mut all), 5);
    assert_eq!(&all[0..5], &[5, 6, 7, 8, 9]);
}

#[test]
fn grow_to_unrepresentable_size_fails_intact() {
    let mut buf = BipBuffer::new(8, 8).unwrap();
    assert_eq!(buf.write(&[1, 2]), 2);
    assert_eq!(buf.grow(usize::MAX), false);
    assert_eq!(buf.buffer_size(), 8);
    assert_eq!(buf.used_size(), 2);
}

#[test]
fn clear_resets_bookkeeping_only() {
    let mut buf = BipBuffer::new(8, 8).unwrap();
    assert_eq!(buf.write(&[1, 2, 3]), 3);
    assert!(buf.write_reserve(2).is_some());

    buf.clear();
    assert_eq!(buf.used_size(), 0);
    assert_eq!(buf.is_signaled(), false);
    assert_eq!(buf.buffer_size(), 8);

    // The cleared buffer starts over from the front.
    assert_eq!(buf.write(&[4, 5]), 2);
    let mut dst = vec![0u8; 2];
    assert_eq!(buf.read(&mut dst), 2);
    assert_eq!(dst, vec![4, 5]);
}

#[test]
fn free_buffer_releases_backing_region() {
    let mut buf = BipBuffer::new(8, 8).unwrap();
    assert_eq!(buf.write(&[1, 2, 3]), 3);

    buf.free_buffer();
    assert_eq!(buf.buffer_size(), 0);
    assert_eq!(buf.used_size(), 0);
    assert_eq!(buf.write(&[1]), -1);

    // A fresh backing region can be allocated afterwards.
    assert!(buf.alloc_buffer(16));
    assert_eq!(buf.buffer_size(), 16);
    assert_eq!(buf.write(&[1]), 1);
}

#[test]
fn alloc_buffer_rejects_zero_size() {
    let mut buf = BipBuffer::new(8, 8).unwrap();
    buf.free_buffer();
    assert!(!buf.alloc_buffer(0));
    assert_eq!(buf.buffer_size(), 0);
}

#[test]
fn bip_block_clear_and_copy() {
    let mut dst = BipBlock::default();
    assert_eq!(dst.index, 0);
    assert_eq!(dst.size, 0);

    let src = BipBlock { index: 3, size: 4 };
    BipBlock::copy(&mut dst, &src);
    assert_eq!(dst.index, 3);
    assert_eq!(dst.size, 4);

    dst.clear();
    assert_eq!(dst.index, 0);
    assert_eq!(dst.size, 0);
}
