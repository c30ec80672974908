//! A fixed-capacity byte buffer with a sent cursor and a filled cursor.
//!
//! One such buffer sits between a source and a destination stream. Bytes read
//! from the source land in the free tail; bytes written to the destination
//! are taken from the front of what is still unsent. The two cursors let a
//! read and a later, possibly partial, write be decoupled.

use vstd::prelude::*;

verus! {

/// Capacity of a [`ProxyBuffer`] in bytes.
pub const BUFFER_SIZE: usize = 4096;

/// What a [`ProxyBuffer`] is, mathematically: its storage and two cursors.
#[verifier::ext_equal]
pub struct BufferView {
    /// Length of the prefix that was flushed to the destination.
    pub sent: nat,
    /// Length of the prefix that holds received data.
    pub filled: nat,
    /// The whole storage, received or not.
    pub storage: Seq<u8>,
}

impl BufferView {
    /// The cursor invariant `0 <= sent <= filled <= capacity`, together with
    /// the reuse rule: the cursors never rest on one another except at the
    /// start of the storage.
    pub open spec fn wf(self) -> bool {
        &&& self.storage.len() == BUFFER_SIZE
        &&& self.sent <= self.filled <= BUFFER_SIZE
        &&& (self.sent == self.filled ==> self.filled == 0)
    }

    /// The bytes received and not yet flushed, in order.
    pub open spec fn unsent(self) -> Seq<u8> {
        self.storage.subrange(self.sent as int, self.filled as int)
    }

    /// The part of the storage that may still be written to.
    pub open spec fn available(self) -> Seq<u8> {
        self.storage.subrange(self.filled as int, BUFFER_SIZE as int)
    }

    /// The buffer with both cursors back at the start and the storage kept.
    pub open spec fn cleared(self) -> BufferView {
        BufferView { sent: 0, filled: 0, storage: self.storage }
    }

    /// A buffer that holds nothing, over zeroed storage.
    pub open spec fn fresh() -> BufferView {
        BufferView { sent: 0, filled: 0, storage: Seq::new(BUFFER_SIZE as nat, |i: int| 0u8) }
    }

    /// The buffer after the unsent bytes were overwritten with `pending`.
    pub open spec fn rewritten(self, pending: Seq<u8>) -> BufferView {
        BufferView {
            storage: self.storage.subrange(0, self.sent as int) + pending + self.available(),
            ..self
        }
    }

    /// The buffer after the free tail was overwritten with `tail`. Nothing
    /// of it counts as received yet.
    pub open spec fn stored(self, tail: Seq<u8>) -> BufferView {
        BufferView { storage: self.storage.subrange(0, self.filled as int) + tail, ..self }
    }

    /// The buffer after the next `n` bytes of the free tail were counted as
    /// received.
    pub open spec fn grown(self, n: nat) -> BufferView {
        BufferView { filled: self.filled + n, ..self }
    }

    /// The buffer after the first `n` unsent bytes were flushed. Once nothing
    /// is left unsent the cursors return to the start.
    pub open spec fn advanced(self, n: nat) -> BufferView {
        if self.sent + n == self.filled {
            self.cleared()
        } else {
            BufferView { sent: self.sent + n, ..self }
        }
    }
}

/// Fixed-size byte storage with two cursors: everything before `offset` has
/// been flushed to the destination, everything before `data_len` has been
/// received from the source.
pub struct ProxyBuffer {
    buffer: [u8; 4096],
    offset: usize,
    data_len: usize,
}

impl View for ProxyBuffer {
    type V = BufferView;

    closed spec fn view(&self) -> BufferView {
        BufferView {
            sent: self.offset as nat,
            filled: self.data_len as nat,
            storage: self.buffer@,
        }
    }
}

impl ProxyBuffer {
    /// An empty buffer over zeroed storage.
    pub fn new() -> (b: ProxyBuffer)
        ensures
            b@ == BufferView::fresh(),
            b@.wf(),
    {
        let b = ProxyBuffer { buffer: [0u8; 4096], offset: 0, data_len: 0 };
        assert(b.buffer@ =~= BufferView::fresh().storage);
        b
    }

    /// Whether the received data reaches the end of the storage.
    pub fn is_full(&self) -> (r: bool)
        ensures
            r == (self@.filled == BUFFER_SIZE),
    {
        self.data_len == BUFFER_SIZE
    }

    /// Whether no received data is held.
    pub fn is_empty(&self) -> (r: bool)
        ensures
            r == (self@.filled == 0),
            self@.wf() ==> r == (self@.unsent().len() == 0),
    {
        self.data_len == 0
    }

    /// Forgets all data: both cursors return to the start. The storage is
    /// kept as it is, so nothing is copied or reallocated.
    pub fn clear(&mut self)
        ensures
            final(self)@ == old(self)@.cleared(),
    {
        self.offset = 0;
        self.data_len = 0;
    }

    /// The bytes received and not yet flushed, for handing to a write call.
    /// Whatever the caller leaves in the slice is what the buffer then holds
    /// there; the cursors and the rest of the storage are untouched.
    pub fn get_unsent(&mut self) -> (s: &mut [u8])
        requires
            old(self)@.wf(),
        ensures
            s@ == old(self)@.unsent(),
            final(s)@.len() == s@.len(),
            final(self)@ =~= old(self)@.rewritten(final(s)@),
    {
        let whole: &mut [u8] = &mut self.buffer;
        proof {
            assert(whole@.len() == BUFFER_SIZE);
            assert(final(whole)@.len() == BUFFER_SIZE);
        }
        let (head, _) = whole.split_at_mut(self.data_len);
        let (_, pending) = head.split_at_mut(self.offset);
        pending
    }

    /// The free tail of the storage, for handing to a read call. Its length
    /// bounds what a read can deliver, so a read into it cannot overwrite
    /// unsent data. Whatever the caller leaves in the slice is what the
    /// buffer then holds there; the cursors and the received prefix are
    /// untouched.
    pub fn get_available(&mut self) -> (s: &mut [u8])
        requires
            old(self)@.wf(),
        ensures
            s@ == old(self)@.available(),
            final(s)@.len() == s@.len(),
            final(self)@ =~= old(self)@.stored(final(s)@),
    {
        let whole: &mut [u8] = &mut self.buffer;
        proof {
            assert(whole@.len() == BUFFER_SIZE);
            assert(final(whole)@.len() == BUFFER_SIZE);
        }
        let (_, rest) = whole.split_at_mut(self.data_len);
        rest
    }

    /// Records that the first `n` unsent bytes were flushed. When nothing is
    /// left unsent, both cursors return to the start and the full capacity is
    /// available again.
    pub fn advance_offset(&mut self, n: usize)
        requires
            old(self)@.wf(),
            n <= old(self)@.unsent().len(),
        ensures
            final(self)@ == old(self)@.advanced(n as nat),
            final(self)@.wf(),
            final(self)@.unsent() == old(self)@.unsent().skip(n as int),
    {
        self.offset += n;
        if self.offset == self.data_len {
            self.clear();
        }
        assert(self@.unsent() =~= old(self)@.unsent().skip(n as int));
    }

    /// Records that `n` more bytes were received into the free tail.
    pub fn advance_data_len(&mut self, n: usize)
        requires
            old(self)@.wf(),
            n <= old(self)@.available().len(),
        ensures
            final(self)@ == old(self)@.grown(n as nat),
            final(self)@.unsent() == old(self)@.unsent() + old(self)@.available().take(n as int),
            final(self)@.wf(),
    {
        self.data_len += n;
        assert(self@.unsent() =~= old(self)@.unsent() + old(self)@.available().take(n as int));
    }
}

/// One step in the use of a buffer.
pub enum BufferOp {
    /// The free tail was overwritten with these bytes, as a read into
    /// [`ProxyBuffer::get_available`] does.
    Fill(Seq<u8>),
    /// This many bytes of the free tail were counted as received, as
    /// [`ProxyBuffer::advance_data_len`] does.
    Append(nat),
    /// This many unsent bytes were flushed, as
    /// [`ProxyBuffer::advance_offset`] does.
    Advance(nat),
}

impl BufferView {
    /// Whether `op` may be applied: a fill covers the free tail exactly, an
    /// append stays within it, and an advance stays within the unsent bytes.
    pub open spec fn admits(self, op: BufferOp) -> bool {
        match op {
            BufferOp::Fill(tail) => tail.len() == self.available().len(),
            BufferOp::Append(n) => n <= self.available().len(),
            BufferOp::Advance(n) => n <= self.unsent().len(),
        }
    }

    /// The buffer after `op`.
    pub open spec fn after(self, op: BufferOp) -> BufferView {
        match op {
            BufferOp::Fill(tail) => self.stored(tail),
            BufferOp::Append(n) => self.grown(n),
            BufferOp::Advance(n) => self.advanced(n),
        }
    }

    /// The buffer after all of `ops`, first to last.
    pub open spec fn after_all(self, ops: Seq<BufferOp>) -> BufferView
        decreases ops.len(),
    {
        if ops.len() == 0 {
            self
        } else {
            self.after_all(ops.drop_last()).after(ops.last())
        }
    }

    /// Whether each of `ops` may be applied in its turn.
    pub open spec fn admits_all(self, ops: Seq<BufferOp>) -> bool
        decreases ops.len(),
    {
        ops.len() == 0 || (self.admits_all(ops.drop_last()) && self.after_all(
            ops.drop_last(),
        ).admits(ops.last()))
    }

    /// The bytes that the appends among `ops` counted as received, in order.
    pub open spec fn appended(self, ops: Seq<BufferOp>) -> Seq<u8>
        decreases ops.len(),
    {
        if ops.len() == 0 {
            Seq::empty()
        } else {
            let before = self.after_all(ops.drop_last());
            match ops.last() {
                BufferOp::Append(n) => self.appended(ops.drop_last()) + before.available().take(
                    n as int,
                ),
                _ => self.appended(ops.drop_last()),
            }
        }
    }
}

/// The number of bytes that the advances among `ops` flushed.
pub open spec fn advanced_past(ops: Seq<BufferOp>) -> nat
    decreases ops.len(),
{
    if ops.len() == 0 {
        0
    } else {
        match ops.last() {
            BufferOp::Advance(n) => advanced_past(ops.drop_last()) + n,
            _ => advanced_past(ops.drop_last()),
        }
    }
}

/// What goes in comes out, once and in order. After any admissible sequence
/// of fills, appends and advances, the unsent bytes are exactly the bytes
/// that were unsent at the start followed by the bytes appended since, less
/// the bytes advanced past. The cursors stay ordered and within the
/// capacity, and once everything is advanced past both are back at zero.
pub proof fn lemma_round_trip(b: BufferView, ops: Seq<BufferOp>)
    requires
        b.wf(),
        b.admits_all(ops),
    ensures
        b.after_all(ops).wf(),
        advanced_past(ops) <= b.unsent().len() + b.appended(ops).len(),
        b.after_all(ops).unsent() == (b.unsent() + b.appended(ops)).skip(
            advanced_past(ops) as int,
        ),
        advanced_past(ops) == b.unsent().len() + b.appended(ops).len() ==> {
            &&& b.after_all(ops).sent == 0
            &&& b.after_all(ops).filled == 0
        },
    decreases ops.len(),
{
    if ops.len() == 0 {
        assert(b.unsent() + Seq::<u8>::empty() =~= b.unsent());
        assert(b.unsent().skip(0) =~= b.unsent());
    } else {
        let front = ops.drop_last();
        lemma_round_trip(b, front);
        let before = b.after_all(front);
        let total = b.unsent() + b.appended(front);
        let k = advanced_past(front) as int;
        match ops.last() {
            BufferOp::Fill(tail) => {
                assert(before.stored(tail).unsent() =~= before.unsent());
            },
            BufferOp::Append(n) => {
                let more = before.available().take(n as int);
                assert(before.grown(n).unsent() =~= before.unsent() + more);
                assert(b.unsent() + (b.appended(front) + more) =~= total + more);
                assert(total.skip(k) + more =~= (total + more).skip(k));
            },
            BufferOp::Advance(n) => {
                assert(before.advanced(n).unsent() =~= before.unsent().skip(n as int));
                assert(total.skip(k).skip(n as int) =~= total.skip(k + n));
            },
        }
    }
}

} // verus!
