use os::pipe::{pipe_read, pipe_write, Pipe, PipeRingBuffer, RING_BUFFER_SIZE};
use os::semaphore::Semaphore;
use std::sync::Arc;

type Ring = PipeRingBuffer<Pipe<()>>;

#[test]
fn ring_buffer_starts_empty() {
    let r: Ring = PipeRingBuffer::new();
    assert_eq!(r.available_read(), 0);
    assert_eq!(r.available_write(), RING_BUFFER_SIZE);
}

#[test]
fn ring_buffer_is_first_in_first_out() {
    let mut r: Ring = PipeRingBuffer::new();
    for b in [1u8, 2, 3] {
        r.write_byte(b);
    }
    assert_eq!(r.available_read(), 3);
    assert_eq!(r.available_write(), RING_BUFFER_SIZE - 3);
    assert_eq!(r.read_byte(), 1);
    assert_eq!(r.read_byte(), 2);
    r.write_byte(4);
    assert_eq!(r.read_byte(), 3);
    assert_eq!(r.read_byte(), 4);
    assert_eq!(r.available_read(), 0);
}

#[test]
fn ring_buffer_fills_and_wraps() {
    let mut r: Ring = PipeRingBuffer::new();
    for i in 0..RING_BUFFER_SIZE {
        r.write_byte(i as u8);
    }
    assert_eq!(r.available_read(), RING_BUFFER_SIZE);
    assert_eq!(r.available_write(), 0);
    for i in 0..10 {
        assert_eq!(r.read_byte(), i as u8);
    }
    for i in 0..10 {
        r.write_byte(100 + i as u8);
    }
    assert_eq!(r.available_write(), 0);
    for i in 10..RING_BUFFER_SIZE {
        assert_eq!(r.read_byte(), i as u8);
    }
    for i in 0..10 {
        assert_eq!(r.read_byte(), 100 + i as u8);
    }
    assert_eq!(r.available_read(), 0);
    assert_eq!(r.available_write(), RING_BUFFER_SIZE);
}

#[test]
fn ring_buffer_write_on_full_overwrites_the_oldest_byte() {
    let mut r: Ring = PipeRingBuffer::new();
    for i in 0..RING_BUFFER_SIZE {
        r.write_byte(i as u8);
    }
    r.write_byte(200);
    assert_eq!(r.available_read(), 1);
    assert_eq!(r.read_byte(), 200);
}

#[test]
fn pipe_ends_read_or_write() {
    let buf = Arc::new(7u32);
    let r = Pipe::read_end_with_buffer(buf.clone());
    let w = Pipe::write_end_with_buffer(buf.clone());
    assert!(r.readable() && !r.writable());
    assert!(!w.readable() && w.writable());
    assert_eq!(**r.buffer(), 7);
}

#[test]
fn write_end_closes_when_its_last_owner_goes() {
    let write_end = Arc::new(Pipe::write_end_with_buffer(Arc::new(())));
    let mut r: Ring = PipeRingBuffer::new();
    r.set_write_end(&write_end);
    assert!(!r.all_write_ends_closed());
    drop(write_end);
    assert!(r.all_write_ends_closed());
}

#[test]
fn pipe_write_then_read() {
    let write_end = Arc::new(Pipe::write_end_with_buffer(Arc::new(())));
    let read_end = Pipe::read_end_with_buffer(Arc::new(()));
    let mut ring: Ring = PipeRingBuffer::new();
    ring.set_write_end(&write_end);
    let src = b"hello";
    let mut done = 0usize;
    assert_eq!(pipe_write(&write_end, &mut ring, src, &mut done), Some(5));
    assert_eq!(done, 5);
    let mut dst = Vec::new();
    assert_eq!({ let closed = ring.all_write_ends_closed(); pipe_read(&read_end, &mut ring, &mut dst, 3, closed) }, Some(3));
    assert_eq!(dst, b"hel".to_vec());
    let mut dst2 = Vec::new();
    // Two bytes wait and the writer is alive: the reader must wait for more.
    assert_eq!({ let closed = ring.all_write_ends_closed(); pipe_read(&read_end, &mut ring, &mut dst2, 4, closed) }, None);
    assert_eq!(dst2, b"lo".to_vec());
    drop(write_end);
    assert_eq!({ let closed = ring.all_write_ends_closed(); pipe_read(&read_end, &mut ring, &mut dst2, 4, closed) }, Some(2));
}

#[test]
fn pipe_write_waits_when_full() {
    let write_end = Arc::new(Pipe::write_end_with_buffer(Arc::new(())));
    let read_end = Pipe::read_end_with_buffer(Arc::new(()));
    let mut ring: Ring = PipeRingBuffer::new();
    ring.set_write_end(&write_end);
    let src: Vec<u8> = (0..40u8).collect();
    let mut done = 0usize;
    assert_eq!(pipe_write(&write_end, &mut ring, &src, &mut done), None);
    assert_eq!(done, RING_BUFFER_SIZE);
    assert_eq!(pipe_write(&write_end, &mut ring, &src, &mut done), None);
    assert_eq!(done, RING_BUFFER_SIZE);
    let mut dst = Vec::new();
    assert_eq!({ let closed = ring.all_write_ends_closed(); pipe_read(&read_end, &mut ring, &mut dst, 8, closed) }, Some(8));
    assert_eq!(pipe_write(&write_end, &mut ring, &src, &mut done), Some(40));
    assert_eq!(done, 40);
    let mut rest = Vec::new();
    assert_eq!({ let closed = ring.all_write_ends_closed(); pipe_read(&read_end, &mut ring, &mut rest, 32, closed) }, Some(32));
    assert_eq!(rest, (8..40u8).collect::<Vec<u8>>());
}

#[test]
fn pipe_read_returns_short_only_when_the_writer_is_gone() {
    let write_end = Arc::new(Pipe::write_end_with_buffer(Arc::new(())));
    let read_end = Pipe::read_end_with_buffer(Arc::new(()));
    let mut ring: Ring = PipeRingBuffer::new();
    assert!(!ring.write_end_recorded());
    ring.set_write_end(&write_end);
    assert!(ring.write_end_recorded());
    ring.write_byte(7);
    let mut dst = Vec::new();
    assert_eq!(pipe_read(&read_end, &mut ring, &mut dst, 4, false), None);
    assert_eq!(dst, vec![7]);
    assert_eq!(pipe_read(&read_end, &mut ring, &mut dst, 4, true), Some(1));
    let mut empty = Vec::new();
    assert_eq!(pipe_read(&read_end, &mut ring, &mut empty, 0, false), None);
    assert_eq!(pipe_read(&read_end, &mut ring, &mut empty, 0, true), Some(0));
}

#[test]
fn pipe_read_of_nothing_with_bytes_waiting() {
    let write_end = Arc::new(Pipe::write_end_with_buffer(Arc::new(())));
    let read_end = Pipe::read_end_with_buffer(Arc::new(()));
    let mut ring: Ring = PipeRingBuffer::new();
    ring.set_write_end(&write_end);
    ring.write_byte(1);
    let mut dst = Vec::new();
    assert_eq!({ let closed = ring.all_write_ends_closed(); pipe_read(&read_end, &mut ring, &mut dst, 0, closed) }, Some(0));
    assert_eq!(ring.available_read(), 1);
}

#[test]
fn semaphore_blocks_when_no_resource_is_left() {
    let mut s: Semaphore<u32> = Semaphore::new(2);
    assert!(!s.down(1));
    assert!(!s.down(2));
    assert!(s.down(3));
    assert!(s.down(4));
    assert_eq!(s.inner.count, -2);
    assert_eq!(s.inner.wait_queue.len(), 2);
}

#[test]
fn semaphore_wakes_waiters_in_order() {
    let mut s: Semaphore<u32> = Semaphore::new(0);
    assert!(s.down(7));
    assert!(s.down(8));
    assert_eq!(s.up(), Some(7));
    assert_eq!(s.up(), Some(8));
    assert_eq!(s.up(), None);
    assert_eq!(s.inner.count, 1);
    assert!(!s.down(9));
}

#[test]
fn semaphore_as_synchronisation() {
    // One task waits on a semaphore with no resource until another gives one.
    let mut s: Semaphore<&str> = Semaphore::new(0);
    assert!(s.down("second"));
    assert_eq!(s.up(), Some("second"));
    assert_eq!(s.inner.count, 0);
    assert!(s.inner.wait_queue.is_empty());
}
