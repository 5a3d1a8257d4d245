//! An append-only sequence of bytes with a fixed header value. Readers see
//! the committed bytes only; the writer reserves bytes at the end, fills
//! them, and then commits them in one step.

use vstd::prelude::*;
use vstd::slice::slice_subrange;
use core::ops::Range;
use crate::buf::zeros;
use crate::error::StoreError;

verus! {

/// The readable side of a log: the header value and the committed bytes.
pub struct AppendLog<E> {
    extra: E,
    committed: Vec<u8>,
}

/// What an [`AppendLog`] holds.
pub struct AppendLogView<E> {
    pub extra: E,
    pub committed: Seq<u8>,
}

impl<E> View for AppendLog<E> {
    type V = AppendLogView<E>;

    closed spec fn view(&self) -> AppendLogView<E> {
        AppendLogView { extra: self.extra, committed: self.committed@ }
    }
}

impl<E> AppendLog<E> {
    /// The writer of a new log with the header value `extra` and no bytes.
    pub fn create(extra: E) -> (writer: AppendLogWriter<E>)
        ensures
            writer@.log == (AppendLogView { extra, committed: Seq::<u8>::empty() }),
            writer@.head == Seq::<u8>::empty(),
    {
        AppendLogWriter { inner: AppendLog { extra, committed: Vec::new() }, head: Vec::new() }
    }

    /// The writer of a log that was stored with the header value `extra`
    /// and the committed bytes `committed`.
    pub fn open(extra: E, committed: Vec<u8>) -> (writer: AppendLogWriter<E>)
        ensures
            writer@.log == (AppendLogView { extra, committed: committed@ }),
            writer@.head == Seq::<u8>::empty(),
    {
        AppendLogWriter { inner: AppendLog { extra, committed }, head: Vec::new() }
    }

    /// A log with the header value `extra` and the committed bytes
    /// `committed`.
    pub fn from_parts(extra: E, committed: Vec<u8>) -> (log: Self)
        ensures
            log@ == (AppendLogView { extra, committed: committed@ }),
    {
        AppendLog { extra, committed }
    }

    /// The header value, stored once when the log was created.
    pub fn extra(&self) -> (extra: &E)
        ensures
            *extra == self@.extra,
    {
        &self.extra
    }

    /// The number of committed bytes.
    pub fn len(&self) -> (n: usize)
        ensures
            n == self@.committed.len(),
    {
        self.committed.len()
    }

    /// The committed bytes.
    pub fn as_slice(&self) -> (bytes: &[u8])
        ensures
            bytes@ == self@.committed,
    {
        self.committed.as_slice()
    }

    /// The committed bytes from `range.start` up to `range.end`, or nothing
    /// if the range is inverted or reaches past the committed bytes.
    pub fn get(&self, range: Range<usize>) -> (r: Option<&[u8]>)
        ensures
            match r {
                Some(bytes) => {
                    &&& range.start <= range.end <= self@.committed.len()
                    &&& bytes@ == self@.committed.subrange(range.start as int, range.end as int)
                },
                None => !(range.start <= range.end <= self@.committed.len()),
            },
    {
        if range.start <= range.end && range.end <= self.committed.len() {
            Some(slice_subrange(self.committed.as_slice(), range.start, range.end))
        } else {
            None
        }
    }
}

/// The writing side of a log. There is one writer for a log; it owns the
/// log and lends it to readers.
pub struct AppendLogWriter<E> {
    inner: AppendLog<E>,
    head: Vec<u8>,
}

/// What an [`AppendLogWriter`] holds: the log, and the bytes that are
/// reserved behind its end and not yet committed.
pub struct AppendLogWriterView<E> {
    pub log: AppendLogView<E>,
    pub head: Seq<u8>,
}

impl<E> View for AppendLogWriter<E> {
    type V = AppendLogWriterView<E>;

    closed spec fn view(&self) -> AppendLogWriterView<E> {
        AppendLogWriterView { log: self.inner@, head: self.head@ }
    }
}

impl<E> AppendLogWriter<E> {
    /// The writer of the log `log`.
    pub fn new(log: AppendLog<E>) -> (writer: Self)
        ensures
            writer@.log == log@,
            writer@.head == Seq::<u8>::empty(),
    {
        AppendLogWriter { inner: log, head: Vec::new() }
    }

    /// The log as readers see it: without the reserved bytes.
    pub fn inner(&self) -> (log: &AppendLog<E>)
        ensures
            log@ == self@.log,
    {
        &self.inner
    }

    /// Whether the log can grow by `len` more bytes.
    pub open spec fn can_grow(&self, len: nat) -> bool {
        self@.log.committed.len() + len <= usize::MAX
    }

    /// Reserves `len` zeroed bytes behind the committed bytes and lends
    /// them out to be filled. An earlier reservation that was not committed
    /// is dropped. Readers see none of this until
    /// [`AppendLogWriter::commit_head`].
    pub fn head_mut(&mut self, len: usize) -> (r: Result<&mut [u8], StoreError>)
        ensures
            match r {
                Ok(head) => {
                    &&& old(self).can_grow(len as nat)
                    &&& head@ == zeros(len as nat)
                    &&& final(self)@.log == old(self)@.log
                    &&& final(self)@.head == final(head)@
                },
                Err(e) => {
                    &&& e == StoreError::LogOverflow
                    &&& !old(self).can_grow(len as nat)
                    &&& final(self)@ == old(self)@
                },
            },
    {
        if len > usize::MAX - self.inner.committed.len() {
            return Err(StoreError::LogOverflow);
        }
        self.head = Vec::new();
        let mut i: usize = 0;
        while i < len
            invariant
                i <= len,
                self.inner@ == old(self).inner@,
                self.head@ == zeros(i as nat),
            decreases len - i,
        {
            self.head.push(0u8);
            assert(zeros((i + 1) as nat) == zeros(i as nat).push(0u8));
            i += 1;
        }
        Ok(self.head.as_mut_slice())
    }

    /// Commits the reserved bytes: they become the end of the committed
    /// bytes, all at once, and the reservation is empty again.
    pub fn commit_head(&mut self) -> (r: Result<(), StoreError>)
        ensures
            match r {
                Ok(()) => {
                    &&& final(self)@.log.extra == old(self)@.log.extra
                    &&& final(self)@.log.committed == old(self)@.log.committed + old(self)@.head
                    &&& final(self)@.head == Seq::<u8>::empty()
                },
                Err(e) => {
                    &&& e == StoreError::LogOverflow
                    &&& !old(self).can_grow(old(self)@.head.len())
                    &&& final(self)@ == old(self)@
                },
            },
    {
        if self.head.len() > usize::MAX - self.inner.committed.len() {
            return Err(StoreError::LogOverflow);
        }
        self.inner.committed.append(&mut self.head);
        Ok(())
    }

    /// Appends `bytes` to the log: reserves room for them, fills it, and
    /// commits it.
    pub fn write(&mut self, bytes: &[u8]) -> (r: Result<(), StoreError>)
        ensures
            match r {
                Ok(()) => {
                    &&& final(self)@.log.extra == old(self)@.log.extra
                    &&& final(self)@.log.committed == old(self)@.log.committed + bytes@
                    &&& final(self)@.head == Seq::<u8>::empty()
                },
                Err(e) => {
                    &&& e == StoreError::LogOverflow
                    &&& !old(self).can_grow(bytes@.len())
                    &&& final(self)@ == old(self)@
                },
            },
    {
        if bytes.len() > usize::MAX - self.inner.committed.len() {
            return Err(StoreError::LogOverflow);
        }
        let ghost before = self@;
        match self.head_mut(bytes.len()) {
            Ok(head) => {
                let mut i: usize = 0;
                while i < bytes.len()
                    invariant
                        i <= bytes@.len(),
                        head@.len() == bytes@.len(),
                        head@.take(i as int) == bytes@.take(i as int),
                    decreases bytes@.len() - i,
                {
                    head[i] = bytes[i];
                    assert(head@.take(i + 1) =~= bytes@.take(i + 1));
                    i += 1;
                }
                assert(head@ == head@.take(bytes@.len() as int));
                assert(bytes@ == bytes@.take(bytes@.len() as int));
            },
            Err(e) => {
                return Err(e);
            },
        }
        self.commit_head()
    }
}

} // verus!
