//! A cursor over the raw bytes of a request.
//!
//! `RawRequest` carries a read position over a borrowed byte slice.  Bytes
//! before the position are pending: `slice` hands them out and discards
//! them from the buffer, so the anchor of the pending range is always the
//! start of the slice.

use vstd::prelude::*;
use vstd::slice::slice_index_get;
use vstd::slice::slice_subrange;
use vstd::slice::slice_to_vec;

verus! {

/// Failures of the cursor operations.
#[derive(Debug, PartialEq, Eq, Structural, Clone, Copy)]
pub enum Error {
    /// A `slice_skip` was asked to skip more bytes than were pending.
    Skip,
    /// A take consumed no bytes.
    Take,
}

/// A cursor over a borrowed byte slice: the buffer and a position within
/// it.
#[derive(Debug, Clone)]
pub struct RawRequest<'a> {
    inner: &'a [u8],
    pos: usize,
}

impl<'a> RawRequest<'a> {
    /// The bytes the cursor still holds (pending and unread alike).
    pub closed spec fn bytes(&self) -> Seq<u8> {
        self.inner@
    }

    /// The read position: bytes before it are pending, bytes from it on
    /// are unread.
    pub closed spec fn position(&self) -> int {
        self.pos as int
    }

    /// The position never passes the end of the buffer.
    pub open spec fn wf(&self) -> bool {
        self.position() <= self.bytes().len()
    }

    /// Creates a cursor at the start of `slice`.
    pub fn new(slice: &'a [u8]) -> (r: Self)
        ensures
            r.wf(),
            r.bytes() == slice@,
            r.position() == 0,
    {
        RawRequest { inner: slice, pos: 0 }
    }

    /// The current read position.
    pub fn pos(&self) -> (r: usize)
        ensures
            r == self.position(),
    {
        self.pos
    }

    /// How many bytes the cursor holds in all.
    pub fn len(&self) -> (r: usize)
        ensures
            r == self.bytes().len(),
    {
        self.inner.len()
    }

    /// Whether the read position has reached the end of the buffer.
    pub fn is_empty(&self) -> (r: bool)
        ensures
            r == (self.position() == self.bytes().len()),
    {
        self.pos == self.inner.len()
    }

    /// The byte the cursor read last, or the first byte before any read.
    /// `None` on an empty buffer, or when every byte is pending and read.
    pub fn current(&self) -> (r: Option<u8>)
        requires
            self.wf(),
        ensures
            ({
                let idx = if self.position() == 0 { 0int } else { self.position() - 1 };
                r == (if idx < self.bytes().len() {
                    Some(self.bytes()[idx])
                } else {
                    Option::<u8>::None
                })
            }),
    {
        let idx: usize = if self.pos == 0 { 0 } else { self.pos - 1 };
        if idx < self.inner.len() {
            Some(*slice_index_get(self.inner, idx))
        } else {
            None
        }
    }

    /// Copies the cursor's bytes into a fresh vector.
    pub fn to_vec(&self) -> (r: Vec<u8>)
        ensures
            r@ == self.bytes(),
    {
        slice_to_vec(self.inner)
    }

    /// The unconsumed bytes, from the read position to the end; the view
    /// the batched validators scan.
    pub fn as_remaining(&self) -> (r: &'a [u8])
        requires
            self.wf(),
        ensures
            r@ == self.bytes().skip(self.position()),
    {
        let inner: &'a [u8] = self.inner;
        slice_subrange(inner, self.pos, inner.len())
    }

    /// The byte at the read position, without consuming it.
    pub fn peek(&self) -> (r: Option<u8>)
        requires
            self.wf(),
        ensures
            r == (if self.position() < self.bytes().len() {
                Some(self.bytes()[self.position()])
            } else {
                Option::<u8>::None
            }),
    {
        if self.pos < self.inner.len() {
            Some(*slice_index_get(self.inner, self.pos))
        } else {
            None
        }
    }

    /// Consumes and returns the byte at the read position, or `None` at
    /// the end of the buffer.
    pub fn next(&mut self) -> (r: Option<u8>)
        requires
            old(self).wf(),
        ensures
            final(self).wf(),
            final(self).bytes() == old(self).bytes(),
            (match r {
                Some(b) => old(self).position() < old(self).bytes().len()
                    && b == old(self).bytes()[old(self).position()]
                    && final(self).position() == old(self).position() + 1,
                None => old(self).position() == old(self).bytes().len()
                    && final(self).position() == old(self).position(),
            }),
    {
        if self.pos < self.inner.len() {
            let b: u8 = *slice_index_get(self.inner, self.pos);
            self.pos = self.pos + 1;
            Some(b)
        } else {
            None
        }
    }

    /// Moves the read position forward by `n` bytes, stopping at the end
    /// of the buffer.
    pub fn advance(&mut self, n: usize)
        requires
            old(self).wf(),
        ensures
            final(self).wf(),
            final(self).bytes() == old(self).bytes(),
            final(self).position() == (if old(self).position() + n <= old(self).bytes().len() {
                old(self).position() + n
            } else {
                old(self).bytes().len() as int
            }),
    {
        let len: usize = self.inner.len();
        if n <= len - self.pos {
            self.pos = self.pos + n;
        } else {
            self.pos = len;
        }
    }

    /// Hands out the pending bytes (everything before the read position)
    /// and removes them from the buffer; the read position returns to the
    /// start.
    pub fn slice(&mut self) -> (r: &'a [u8])
        requires
            old(self).wf(),
        ensures
            final(self).wf(),
            r@ == old(self).bytes().take(old(self).position()),
            final(self).bytes() == old(self).bytes().skip(old(self).position()),
            final(self).position() == 0,
    {
        let r = self.slice_skip(0);
        match r {
            Ok(head) => head,
            Err(_) => unreached(),
        }
    }

    /// Hands out the pending bytes except the last `skip` of them, and
    /// removes all pending bytes from the buffer; the read position
    /// returns to the start.  Fails, changing nothing, if fewer than
    /// `skip` bytes are pending.
    pub fn slice_skip(&mut self, skip: usize) -> (r: Result<&'a [u8], Error>)
        requires
            old(self).wf(),
        ensures
            final(self).wf(),
            (match r {
                Ok(head) => skip <= old(self).position()
                    && head@ == old(self).bytes().take(old(self).position() - skip)
                    && final(self).bytes() == old(self).bytes().skip(old(self).position())
                    && final(self).position() == 0,
                Err(e) => e == Error::Skip && skip > old(self).position()
                    && final(self).bytes() == old(self).bytes()
                    && final(self).position() == old(self).position(),
            }),
    {
        if skip > self.pos {
            return Err(Error::Skip);
        }
        let head_pos: usize = self.pos - skip;
        let inner: &'a [u8] = self.inner;
        let head: &'a [u8] = slice_subrange(inner, 0, head_pos);
        let tail: &'a [u8] = slice_subrange(inner, self.pos, inner.len());
        self.pos = 0;
        self.inner = tail;
        proof {
            assert(head@ =~= old(self).bytes().take(old(self).position() - skip));
            assert(tail@ =~= old(self).bytes().skip(old(self).position()));
        }
        Ok(head)
    }

    /// Advances the read position until `predicate` accepts a byte, then
    /// hands out everything before that byte and discards it from the
    /// buffer.  Returns `None` in place of an empty slice, and `None`,
    /// with everything discarded, when the input ends before a byte is
    /// accepted.
    pub fn take_until<F: Fn(u8) -> bool>(&mut self, predicate: F) -> (r: Option<&'a [u8]>)
        requires
            old(self).wf(),
            forall|b: u8| #[trigger] predicate.requires((b,)),
        ensures
            final(self).wf(),
            final(self).position() == 0,
            exists|stop: int|
                {
                    &&& old(self).position() <= stop <= old(self).bytes().len()
                    &&& (forall|i: int| old(self).position() <= i < stop
                        ==> predicate.ensures((old(self).bytes()[i],), false))
                    &&& (stop < old(self).bytes().len()
                        ==> predicate.ensures((old(self).bytes()[stop],), true))
                    &&& final(self).bytes() == old(self).bytes().skip(stop)
                    &&& (match r {
                        Some(sl) => 0 < stop && sl@ == old(self).bytes().take(stop),
                        None => stop == 0 || stop == old(self).bytes().len(),
                    })
                },
    {
        let len: usize = self.inner.len();
        loop
            invariant
                self.wf(),
                self.bytes() == old(self).bytes(),
                len == self.bytes().len(),
                old(self).position() <= self.position() <= len,
                forall|b: u8| #[trigger] predicate.requires((b,)),
                forall|i: int| old(self).position() <= i < self.position()
                    ==> predicate.ensures((old(self).bytes()[i],), false),
            decreases len - self.position(),
        {
            match self.peek() {
                Some(b) => {
                    if predicate(b) {
                        let ghost stop = self.position();
                        let sl = self.slice();
                        proof {
                            assert({
                                &&& old(self).position() <= stop <= old(self).bytes().len()
                                &&& (forall|i: int| old(self).position() <= i < stop
                                    ==> predicate.ensures((old(self).bytes()[i],), false))
                                &&& (stop < old(self).bytes().len()
                                    ==> predicate.ensures((old(self).bytes()[stop],), true))
                                &&& self.bytes() == old(self).bytes().skip(stop)
                            });
                        }
                        if sl.len() == 0 {
                            return None;
                        }
                        return Some(sl);
                    }
                    let _ = self.next();
                }
                None => {
                    let ghost stop = self.position();
                    let _ = self.slice();
                    proof {
                        assert({
                            &&& old(self).position() <= stop <= old(self).bytes().len()
                            &&& (forall|i: int| old(self).position() <= i < stop
                                ==> predicate.ensures((old(self).bytes()[i],), false))
                            &&& (stop < old(self).bytes().len()
                                ==> predicate.ensures((old(self).bytes()[stop],), true))
                            &&& self.bytes() == old(self).bytes().skip(stop)
                        });
                    }
                    return None;
                }
            }
        }
    }
}

} // verus!
