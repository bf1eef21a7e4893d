//! Pipes: a ring buffer of bytes shared by a read end and a write end.
use vstd::prelude::*;
use std::sync::{Arc, Weak};

verus! {

/// A weak reference to the write end of a pipe. It holds a `std::sync::Weak`,
/// which has an allocator parameter and cannot be declared as an outside type,
/// so the reference is kept in a private field that proofs do not look into.
#[verifier::external_body]
#[verifier::reject_recursive_types(T)]
pub struct WriteEndLink<T> {
    weak: Weak<T>,
}

impl<T> WriteEndLink<T> {
    /// Calls `std::sync::Arc::downgrade` on the write end. Nothing is claimed
    /// of the weak reference it makes.
    #[verifier::external_body]
    pub(crate) fn new(write_end: &Arc<T>) -> Self {
        WriteEndLink { weak: Arc::downgrade(write_end) }
    }

    /// Calls `std::sync::Weak::upgrade` and tells whether it fails, that is
    /// whether every strong reference to the write end is gone. That depends on
    /// the other owners of the write end, so nothing is claimed of the result.
    #[verifier::external_body]
    pub(crate) fn is_closed(&self) -> bool {
        self.weak.upgrade().is_none()
    }
}

/// Capacity of the ring buffer of a pipe.
pub const RING_BUFFER_SIZE: usize = 32;

/// Whether the ring buffer is full, empty, or neither.
#[derive(Clone, Copy, Debug, PartialEq, Eq, Structural)]
pub enum RingBufferStatus {
    Full,
    Empty,
    Normal,
}

/// The state of a ring buffer: its storage, the position of the next byte to
/// read, the position of the next byte to write, and its status.
pub ghost struct RingState {
    pub arr: Seq<u8>,
    pub head: int,
    pub tail: int,
    pub status: RingBufferStatus,
}

impl RingState {
    /// Positions are in range, and the status agrees with the positions: the
    /// buffer is full or empty exactly when the positions meet.
    pub open spec fn wf(self) -> bool {
        &&& self.arr.len() == RING_BUFFER_SIZE
        &&& 0 <= self.head < RING_BUFFER_SIZE
        &&& 0 <= self.tail < RING_BUFFER_SIZE
        &&& (self.status == RingBufferStatus::Normal <==> self.head != self.tail)
    }

    /// Number of bytes waiting to be read.
    pub open spec fn len(self) -> int {
        if self.status == RingBufferStatus::Empty {
            0
        } else if self.tail > self.head {
            self.tail - self.head
        } else {
            self.tail + RING_BUFFER_SIZE - self.head
        }
    }

    /// The bytes waiting to be read, oldest first.
    pub open spec fn contents(self) -> Seq<u8> {
        Seq::new(self.len() as nat, |i: int| self.arr[(self.head + i) % (RING_BUFFER_SIZE as int)])
    }

    /// The state after `byte` is written.
    pub open spec fn write_step(self, byte: u8) -> RingState {
        let tail = (self.tail + 1) % (RING_BUFFER_SIZE as int);
        RingState {
            arr: self.arr.update(self.tail, byte),
            head: self.head,
            tail,
            status: if tail == self.head { RingBufferStatus::Full } else { RingBufferStatus::Normal },
        }
    }

    /// The state after a byte is read, and that byte.
    pub open spec fn read_step(self) -> (RingState, u8) {
        let head = (self.head + 1) % (RING_BUFFER_SIZE as int);
        (
            RingState {
                head,
                status: if head == self.tail { RingBufferStatus::Empty } else { RingBufferStatus::Normal },
                ..self
            },
            self.arr[self.head],
        )
    }
}

/// Bytes written to a ring buffer that is not full come out after the bytes
/// already waiting; a byte read from a ring buffer that is not empty is the
/// oldest waiting byte, and the others stay in order.
pub proof fn lemma_ring_fifo(s: RingState, byte: u8)
    requires
        s.wf(),
    ensures
        s.write_step(byte).wf(),
        s.read_step().0.wf(),
        0 <= s.len() <= RING_BUFFER_SIZE,
        s.len() < RING_BUFFER_SIZE ==> s.write_step(byte).contents() == s.contents().push(byte),
        s.len() == RING_BUFFER_SIZE ==> s.write_step(byte).contents() == seq![byte],
        s.len() > 0 ==> s.read_step().1 == s.contents()[0],
        s.len() > 0 ==> s.read_step().0.contents() == s.contents().drop_first(),
{
    let w = s.write_step(byte);
    let n = RING_BUFFER_SIZE as int;
    if s.len() < n {
        assert(w.len() == s.len() + 1);
        assert forall|i: int| 0 <= i < w.len() implies #[trigger] w.contents()[i] == s.contents().push(byte)[i] by {
            if i < s.len() {
                assert((s.head + i) % n != s.tail);
            }
        }
        assert(w.contents() =~= s.contents().push(byte));
    } else {
        assert(w.len() == 1);
        assert(w.contents() =~= seq![byte]);
    }
    if s.len() > 0 {
        let r = s.read_step().0;
        assert(r.len() == s.len() - 1);
        assert forall|i: int| 0 <= i < r.len() implies #[trigger] r.contents()[i] == s.contents().drop_first()[i] by {
            assert((r.head + i) % n == (s.head + (i + 1)) % n);
        }
        assert(r.contents() =~= s.contents().drop_first());
    }
}

/// The ring buffer of a pipe, and a weak reference to its write end.
#[verifier::reject_recursive_types(W)]
pub struct PipeRingBuffer<W> {
    arr: [u8; RING_BUFFER_SIZE],
    head: usize,
    tail: usize,
    status: RingBufferStatus,
    write_end: Option<WriteEndLink<W>>,
}

impl<W> View for PipeRingBuffer<W> {
    type V = RingState;

    closed spec fn view(&self) -> RingState {
        RingState { arr: self.arr@, head: self.head as int, tail: self.tail as int, status: self.status }
    }
}

impl<W> PipeRingBuffer<W> {
    /// Whether the write end of the pipe has been recorded.
    pub closed spec fn has_write_end(&self) -> bool {
        self.write_end is Some
    }

    /// An empty ring buffer with no write end recorded.
    pub fn new() -> (r: Self)
        ensures
            r@.wf(),
            r@.len() == 0,
            r@.contents() == Seq::<u8>::empty(),
            r@.head == 0 && r@.tail == 0,
            r@.arr == Seq::new(RING_BUFFER_SIZE as nat, |i: int| 0u8),
            !r.has_write_end(),
    {
        let r = PipeRingBuffer {
            arr: [0u8; RING_BUFFER_SIZE],
            head: 0,
            tail: 0,
            status: RingBufferStatus::Empty,
            write_end: None,
        };
        assert(r@.arr =~= Seq::new(RING_BUFFER_SIZE as nat, |i: int| 0u8));
        assert(r@.contents() =~= Seq::<u8>::empty());
        r
    }

    /// Records the write end of the pipe.
    pub fn set_write_end(&mut self, write_end: &Arc<W>)
        ensures
            final(self)@ == old(self)@,
            final(self).has_write_end(),
    {
        self.write_end = Some(WriteEndLink::new(write_end));
    }

    /// Writes a byte at the tail of the buffer. On a full buffer the byte
    /// overwrites the oldest one.
    pub fn write_byte(&mut self, byte: u8)
        requires
            old(self)@.wf(),
        ensures
            final(self)@ == old(self)@.write_step(byte),
            final(self)@.wf(),
            final(self).has_write_end() == old(self).has_write_end(),
            old(self)@.len() < RING_BUFFER_SIZE ==> final(self)@.contents() == old(self)@.contents().push(byte),
    {
        proof {
            lemma_ring_fifo(self@, byte);
        }
        self.status = RingBufferStatus::Normal;
        self.arr[self.tail] = byte;
        self.tail = (self.tail + 1) % RING_BUFFER_SIZE;
        if self.tail == self.head {
            self.status = RingBufferStatus::Full;
        }
    }

    /// Reads the byte at the head of the buffer.
    pub fn read_byte(&mut self) -> (r: u8)
        requires
            old(self)@.wf(),
        ensures
            (final(self)@, r) == old(self)@.read_step(),
            final(self)@.wf(),
            final(self).has_write_end() == old(self).has_write_end(),
            old(self)@.len() > 0 ==> r == old(self)@.contents()[0],
            old(self)@.len() > 0 ==> final(self)@.contents() == old(self)@.contents().drop_first(),
    {
        proof {
            lemma_ring_fifo(self@, 0);
        }
        self.status = RingBufferStatus::Normal;
        let c = self.arr[self.head];
        self.head = (self.head + 1) % RING_BUFFER_SIZE;
        if self.head == self.tail {
            self.status = RingBufferStatus::Empty;
        }
        c
    }

    /// Number of bytes waiting to be read.
    pub fn available_read(&self) -> (r: usize)
        requires
            self@.wf(),
        ensures
            r == self@.len(),
            r <= RING_BUFFER_SIZE,
    {
        if self.status == RingBufferStatus::Empty {
            0
        } else if self.tail > self.head {
            self.tail - self.head
        } else {
            self.tail + RING_BUFFER_SIZE - self.head
        }
    }

    /// Number of bytes that can be written without overwriting.
    pub fn available_write(&self) -> (r: usize)
        requires
            self@.wf(),
        ensures
            r == RING_BUFFER_SIZE - self@.len(),
    {
        if self.status == RingBufferStatus::Full {
            0
        } else {
            RING_BUFFER_SIZE - self.available_read()
        }
    }

    /// Whether the write end of the pipe has been recorded.
    pub fn write_end_recorded(&self) -> (r: bool)
        ensures
            r == self.has_write_end(),
    {
        self.write_end.is_some()
    }

    /// Whether the write end is gone. The write end must have been recorded.
    /// The answer depends on whether other owners still hold the write end,
    /// which the buffer does not see, so no clause states it.
    pub fn all_write_ends_closed(&self) -> (r: bool)
        requires
            self.has_write_end(),
    {
        self.write_end.as_ref().unwrap().is_closed()
    }
}

} // verus!

verus! {

/// One end of a pipe: readable or writable, over a shared ring buffer `B`.
#[verifier::reject_recursive_types(B)]
pub struct Pipe<B> {
    readable: bool,
    writable: bool,
    buffer: Arc<B>,
}

impl<B> Pipe<B> {
    /// Whether this end reads.
    pub closed spec fn is_readable(&self) -> bool {
        self.readable
    }

    /// Whether this end writes.
    pub closed spec fn is_writable(&self) -> bool {
        self.writable
    }

    /// The shared ring buffer.
    pub closed spec fn shared_buffer(&self) -> B {
        *self.buffer
    }

    /// The read end over `buffer`.
    pub fn read_end_with_buffer(buffer: Arc<B>) -> (r: Self)
        ensures
            r.is_readable(),
            !r.is_writable(),
            r.shared_buffer() == *buffer,
    {
        Pipe { readable: true, writable: false, buffer }
    }

    /// The write end over `buffer`.
    pub fn write_end_with_buffer(buffer: Arc<B>) -> (r: Self)
        ensures
            !r.is_readable(),
            r.is_writable(),
            r.shared_buffer() == *buffer,
    {
        Pipe { readable: false, writable: true, buffer }
    }

    /// Whether this end reads.
    pub fn readable(&self) -> (r: bool)
        ensures
            r == self.is_readable(),
    {
        self.readable
    }

    /// Whether this end writes.
    pub fn writable(&self) -> (r: bool)
        ensures
            r == self.is_writable(),
    {
        self.writable
    }

    /// The shared ring buffer.
    pub fn buffer(&self) -> (r: &Arc<B>)
        ensures
            **r == self.shared_buffer(),
    {
        &self.buffer
    }
}

/// What a read from a pipe does with `ring` holding `old_len` waiting bytes,
/// when the reader has `got` of the `want` bytes it asked for: it takes
/// `min(old_len, want - got)` bytes.
pub open spec fn pipe_read_count(old_len: int, got: int, want: int) -> int {
    if old_len < want - got { old_len } else { want - got }
}

/// The read side of a pipe, as far as it can go without blocking. `dst` holds
/// the bytes read so far for a request of `want` bytes, and `closed` tells
/// whether every write end of the pipe is gone. Takes the waiting bytes in
/// order until the request is full. Returns the number of bytes read when the
/// request is full, or when no byte is left and the write end is gone; returns
/// `None` when the reader must wait for more bytes.
pub fn pipe_read<B, W>(this: &Pipe<B>, ring: &mut PipeRingBuffer<W>, dst: &mut Vec<u8>, want: usize, closed: bool) -> (r: Option<usize>)
    requires
        this.is_readable(),
        old(ring)@.wf(),
        old(dst).len() <= want,
    ensures
        final(ring)@.wf(),
        final(ring).has_write_end() == old(ring).has_write_end(),
        ({
            let n = pipe_read_count(old(ring)@.len(), old(dst).len() as int, want as int);
            &&& final(dst)@ == old(dst)@ + old(ring)@.contents().take(n)
            &&& final(ring)@.contents() == old(ring)@.contents().skip(n)
        }),
        r == if old(ring)@.len() > 0 && final(dst).len() == want {
            Some(want)
        } else if closed {
            Some(final(dst).len())
        } else {
            None
        },
{
    let ghost c0 = ring@.contents();
    let ghost got = dst.len() as int;
    let loop_read = ring.available_read();
    assert(c0.len() == loop_read);
    if loop_read == 0 {
        proof {
            assert(ring@.contents().skip(0) =~= ring@.contents());
            assert(dst@ + c0.take(0) =~= dst@);
        }
        if closed {
            return Some(dst.len());
        }
        return None;
    }
    let mut i: usize = 0;
    while i < loop_read
        invariant
            ring@.wf(),
            ring.has_write_end() == old(ring).has_write_end(),
            loop_read == c0.len(),
            i <= loop_read,
            i == dst.len() - old(dst).len(),
            dst.len() <= want,
            dst.len() < want || i == 0,
            dst@ == old(dst)@ + c0.take(i as int),
            ring@.contents() == c0.skip(i as int),
            got == old(dst).len(),
            c0 == old(ring)@.contents(),
            c0.len() == old(ring)@.len(),
        decreases loop_read - i,
    {
        if dst.len() == want {
            assert(pipe_read_count(c0.len() as int, got, want as int) == 0);
            return Some(dst.len());
        }
        assert(ring@.contents().len() == c0.len() - i);
        assert(ring@.len() > 0);
        assert(ring@.contents()[0] == c0[i as int]);
        let b = ring.read_byte();
        dst.push(b);
        proof {
            assert(b == c0[i as int]);
            assert(dst@ =~= old(dst)@ + c0.take(i + 1));
            assert(ring@.contents() =~= c0.skip(i + 1));
        }
        i = i + 1;
        if dst.len() == want {
            assert(pipe_read_count(c0.len() as int, got, want as int) == i);
            return Some(want);
        }
    }
    proof {
        assert(ring@.contents().len() == 0);
        assert(pipe_read_count(c0.len() as int, got, want as int) == i);
    }
    if closed {
        return Some(dst.len());
    }
    None
}

/// What a write to a pipe does with `ring` holding `old_len` waiting bytes,
/// when `done` of the `want` bytes to write are written: it puts
/// `min(32 - old_len, want - done)` bytes.
pub open spec fn pipe_write_count(old_len: int, done: int, want: int) -> int {
    if RING_BUFFER_SIZE - old_len < want - done { RING_BUFFER_SIZE - old_len } else { want - done }
}

/// The write side of a pipe, as far as it can go without blocking: puts the
/// bytes of `src` from `*done` on into the buffer until all are written or the
/// buffer is full. Returns the number of bytes written when all are written;
/// returns `None` when the writer must wait for room.
pub fn pipe_write<B, W>(this: &Pipe<B>, ring: &mut PipeRingBuffer<W>, src: &[u8], done: &mut usize) -> (r: Option<usize>)
    requires
        this.is_writable(),
        old(ring)@.wf(),
        *old(done) <= src.len(),
    ensures
        final(ring)@.wf(),
        final(ring).has_write_end() == old(ring).has_write_end(),
        ({
            let n = pipe_write_count(old(ring)@.len(), *old(done) as int, src.len() as int);
            &&& *final(done) == *old(done) + n
            &&& final(ring)@.contents() == old(ring)@.contents() + src@.subrange(*old(done) as int, *final(done) as int)
        }),
        r == (if old(ring)@.len() < RING_BUFFER_SIZE && *final(done) == src.len() { Some(src.len()) } else { None }),
{
    let want = src.len();
    let ghost c0 = ring@.contents();
    let ghost d0 = *done;
    let loop_write = ring.available_write();
    assert(c0.len() == RING_BUFFER_SIZE - loop_write);
    if loop_write == 0 {
        proof {
            assert(src@.subrange(d0 as int, d0 as int) =~= Seq::<u8>::empty());
            assert(c0 + Seq::<u8>::empty() =~= c0);
        }
        return None;
    }
    let mut i: usize = 0;
    while i < loop_write
        invariant
            ring@.wf(),
            ring.has_write_end() == old(ring).has_write_end(),
            want == src.len(),
            loop_write == RING_BUFFER_SIZE - c0.len(),
            c0.len() < RING_BUFFER_SIZE,
            i <= loop_write,
            *done == d0 + i,
            *done <= want,
            *done < want || i == 0,
            ring@.contents() == c0 + src@.subrange(d0 as int, *done as int),
            c0 == old(ring)@.contents(),
            c0.len() == old(ring)@.len(),
            d0 == *old(done),
        decreases loop_write - i,
    {
        if *done == want {
            assert(pipe_write_count(c0.len() as int, d0 as int, want as int) == 0);
            return Some(*done);
        }
        let b = src[*done];
        proof {
            lemma_ring_fifo(ring@, b);
        }
        ring.write_byte(b);
        proof {
            assert(src@.subrange(d0 as int, *done + 1) =~= src@.subrange(d0 as int, *done as int).push(b));
            assert(ring@.contents() =~= c0 + src@.subrange(d0 as int, *done + 1));
        }
        *done = *done + 1;
        i = i + 1;
        if *done == want {
            assert(pipe_write_count(c0.len() as int, d0 as int, want as int) == i);
            return Some(want);
        }
    }
    assert(pipe_write_count(c0.len() as int, d0 as int, want as int) == i);
    None
}

} // verus!
