//! The bytes of a stream that have arrived and have not been consumed.

use vstd::prelude::*;
use vstd::slice::slice_subrange;

verus! {

/// A buffer between a stream and its reader: bytes arrive at the end, as they are read from the
/// stream, and are consumed from the front.
///
/// The read position can lie past everything that has arrived. The bytes up to it are then
/// dropped as they arrive.
#[derive(Debug, Clone)]
pub struct BufferedReader {
    data: Vec<u8>,
    start: usize,
}

impl BufferedReader {
    /// The bytes at and after the read position that have arrived.
    pub closed spec fn unread(&self) -> Seq<u8> {
        if self.start <= self.data@.len() {
            self.data@.skip(self.start as int)
        } else {
            Seq::empty()
        }
    }

    /// The number of bytes before the read position that have yet to arrive.
    pub closed spec fn owed(&self) -> nat {
        if self.start <= self.data@.len() {
            0
        } else {
            (self.start - self.data@.len()) as nat
        }
    }

    /// The number of consumed bytes that still take up memory.
    pub closed spec fn consumed_held(&self) -> nat {
        if self.start <= self.data@.len() {
            self.start as nat
        } else {
            self.data@.len()
        }
    }

    /// Creates a buffer that holds `data`, of which the first `consumed_len` bytes count as
    /// consumed.
    pub fn new_with_partially_read_buffer(data: Vec<u8>, consumed_len: usize) -> (reader: Self)
        ensures
            consumed_len <= data@.len() ==> reader.unread() == data@.skip(consumed_len as int)
                && reader.owed() == 0,
            consumed_len > data@.len() ==> reader.unread() == Seq::<u8>::empty() && reader.owed()
                == consumed_len - data@.len(),
    {
        BufferedReader { data, start: consumed_len }
    }

    /// The number of bytes that can be consumed.
    pub fn available(&self) -> (n: usize)
        ensures
            n == self.unread().len(),
    {
        if self.start <= self.data.len() {
            self.data.len() - self.start
        } else {
            0
        }
    }

    /// All bytes that can be consumed.
    pub fn peek_all(&self) -> (bytes: &[u8])
        ensures
            bytes@ == self.unread(),
    {
        let len: usize = self.data.len();
        if self.start <= len {
            slice_subrange(self.data.as_slice(), self.start, len)
        } else {
            slice_subrange(self.data.as_slice(), len, len)
        }
    }

    /// Moves the read position `n` bytes on.
    pub fn advance(&mut self, n: usize)
        requires
            n <= old(self).unread().len(),
        ensures
            final(self).unread() == old(self).unread().skip(n as int),
            final(self).owed() == old(self).owed(),
    {
        let len: usize = self.data.len();
        assert(n > 0 ==> self.start + n <= len);
        self.start = self.start + n;
        assert(self.unread() =~= old(self).unread().skip(n as int));
    }

    /// Consumes `n` bytes, if they have arrived. Changes nothing otherwise.
    pub fn consume_data(&mut self, n: usize) -> (bytes: Option<&[u8]>)
        ensures
            match bytes {
                Some(bytes) => {
                    &&& n <= old(self).unread().len()
                    &&& bytes@ == old(self).unread().take(n as int)
                    &&& final(self).unread() == old(self).unread().skip(n as int)
                    &&& final(self).owed() == old(self).owed()
                },
                None => n > old(self).unread().len() && *final(self) == *old(self),
            },
    {
        if n > self.available() {
            return None;
        }
        let len: usize = self.data.len();
        assert(n > 0 ==> self.start + n <= len);
        self.start = self.start + n;
        let end: usize = if self.start <= len {
            self.start
        } else {
            len
        };
        assert(self.unread() =~= old(self).unread().skip(n as int));
        let bytes = slice_subrange(self.data.as_slice(), end - n, end);
        assert(bytes@ =~= old(self).unread().take(n as int));
        Some(bytes)
    }

    /// Consumes all bytes that have arrived.
    pub fn consume_all(&mut self)
        ensures
            final(self).unread() == Seq::<u8>::empty(),
            final(self).owed() == old(self).owed(),
    {
        if self.start <= self.data.len() {
            self.start = self.data.len();
        }
        assert(self.unread() =~= Seq::<u8>::empty());
    }

    /// Appends bytes that were read from the stream.
    pub fn append(&mut self, chunk: &[u8])
        ensures
            final(self).unread() == old(self).unread() + dropping(chunk@, old(self).owed()),
            final(self).owed() == if old(self).owed() <= chunk@.len() {
                0
            } else {
                (old(self).owed() - chunk@.len()) as nat
            },
    {
        self.forget_consumed();
        self.data.extend_from_slice(chunk);
        proof {
            assert(old(self).owed() > 0 ==> old(self).unread() =~= Seq::<u8>::empty());
            assert(self.unread() =~= old(self).unread() + dropping(chunk@, old(self).owed()));
        }
    }

    /// Releases the memory of consumed bytes, once there are at least as many of them as of the
    /// others.
    fn forget_consumed(&mut self)
        ensures
            final(self).unread() == old(self).unread(),
            final(self).owed() == old(self).owed(),
            final(self).consumed_held() == if old(self).consumed_held() >= old(
                self,
            ).unread().len() {
                0
            } else {
                old(self).consumed_held()
            },
            final(self).consumed_held() == 0 || final(self).unread().len()
                > final(self).consumed_held(),
    {
        let len: usize = self.data.len();
        if self.start >= len {
            self.start = self.start - len;
            self.data.clear();
        } else if self.start >= len - self.start {
            self.data = self.data.split_off(self.start);
            self.start = 0;
        }
        assert(self.unread() =~= old(self).unread());
    }
}

/// `chunk` without its first `n` bytes, of which it may have fewer.
pub open spec fn dropping(chunk: Seq<u8>, n: nat) -> Seq<u8> {
    if n <= chunk.len() {
        chunk.skip(n as int)
    } else {
        Seq::empty()
    }
}

} // verus!
