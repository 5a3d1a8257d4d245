//! Growable and bounded buffers of elements, and the aligned writes into
//! byte buffers that descriptors are built from.

use vstd::prelude::*;
use crate::cast::{as_bytes, encode_all, lemma_encode_all_len, lemma_encode_one, Element};
use crate::error::Error;
use crate::types::{padding_for, lemma_padding_for};

verus! {

/// A container of elements that grows at its end, up to a limit.
pub trait Buf<T>: Sized {
    /// The elements held, oldest first.
    open spec fn elems(&self) -> Seq<T> {
        arbitrary()
    }

    /// The greatest number of elements a buffer of this type can hold.
    open spec fn limit() -> nat {
        arbitrary()
    }

    /// An empty buffer.
    fn new() -> (buf: Self)
        ensures
            buf.elems() == Seq::<T>::empty(),
    ;

    /// Appends `elem`, or refuses it when the buffer is at its limit and
    /// leaves the buffer as it was.
    fn push(&mut self, elem: T) -> (r: Result<(), Error>)
        ensures
            match r {
                Ok(()) => {
                    &&& old(self).elems().len() < Self::limit()
                    &&& final(self).elems() == old(self).elems().push(elem)
                },
                Err(e) => {
                    &&& e == Error::BufferOverflow
                    &&& old(self).elems().len() >= Self::limit()
                    &&& final(self).elems() == old(self).elems()
                },
            },
    ;

    /// The elements as a slice.
    fn as_slice(&self) -> (s: &[T])
        ensures
            s@ == self.elems(),
    ;

    /// The number of elements held. A buffer never holds more than its
    /// limit, and no limit exceeds the range of `usize`.
    fn len(&self) -> (n: usize)
        ensures
            n == self.elems().len(),
            n <= Self::limit() <= usize::MAX,
    ;

    /// The number of elements that can still be pushed.
    fn spare(&self) -> (n: usize)
        ensures
            n + self.elems().len() == Self::limit(),
    ;
}

impl<T> Buf<T> for Vec<T> {
    open spec fn elems(&self) -> Seq<T> {
        self@
    }

    open spec fn limit() -> nat {
        usize::MAX as nat
    }

    fn new() -> (buf: Self) {
        Vec::new()
    }

    fn push(&mut self, elem: T) -> (r: Result<(), Error>) {
        if self.len() < usize::MAX {
            Vec::push(self, elem);
            Ok(())
        } else {
            Err(Error::BufferOverflow)
        }
    }

    fn as_slice(&self) -> (s: &[T]) {
        Vec::as_slice(self)
    }

    fn len(&self) -> (n: usize) {
        Vec::len(self)
    }

    fn spare(&self) -> (n: usize) {
        usize::MAX - Vec::len(self)
    }
}

/// A buffer that holds at most `N` elements.
pub struct ArrayBuf<T, const N: usize> {
    items: Vec<T>,
}

impl<T, const N: usize> ArrayBuf<T, N> {
    #[verifier::type_invariant]
    spec fn inv(&self) -> bool {
        self.items@.len() <= N
    }
}

impl<T, const N: usize> Buf<T> for ArrayBuf<T, N> {
    closed spec fn elems(&self) -> Seq<T> {
        self.items@
    }

    open spec fn limit() -> nat {
        N as nat
    }

    fn new() -> (buf: Self) {
        ArrayBuf { items: Vec::new() }
    }

    fn push(&mut self, elem: T) -> (r: Result<(), Error>) {
        proof {
            use_type_invariant(&*self);
        }
        if self.items.len() < N {
            let mut items: Vec<T> = Vec::new();
            core::mem::swap(&mut self.items, &mut items);
            items.push(elem);
            core::mem::swap(&mut self.items, &mut items);
            Ok(())
        } else {
            Err(Error::BufferOverflow)
        }
    }

    fn as_slice(&self) -> (s: &[T]) {
        self.items.as_slice()
    }

    fn len(&self) -> (n: usize) {
        proof {
            use_type_invariant(self);
        }
        self.items.len()
    }

    fn spare(&self) -> (n: usize) {
        proof {
            use_type_invariant(self);
        }
        N - self.items.len()
    }
}

/// `n` zero bytes.
pub open spec fn zeros(n: nat) -> Seq<u8> {
    Seq::new(n, |i: int| 0u8)
}

/// `bytes` followed by the zero bytes that bring its length up to the next
/// multiple of `align`.
pub open spec fn padded(bytes: Seq<u8>, align: nat) -> Seq<u8> {
    bytes + zeros(padding_for(align, bytes.len()))
}

/// Appends the bytes of `src`, or refuses all of them when they do not fit
/// and leaves the buffer as it was.
pub fn extend_from_slice<B: Buf<u8>>(buf: &mut B, src: &[u8]) -> (r: Result<(), Error>)
    ensures
        match r {
            Ok(()) => {
                &&& old(buf).elems().len() + src@.len() <= B::limit()
                &&& final(buf).elems() == old(buf).elems() + src@
            },
            Err(e) => {
                &&& e == Error::BufferOverflow
                &&& old(buf).elems().len() + src@.len() > B::limit()
                &&& final(buf).elems() == old(buf).elems()
            },
        },
{
    if src.len() > buf.spare() {
        return Err(Error::BufferOverflow);
    }
    let mut i: usize = 0;
    while i < src.len()
        invariant
            i <= src@.len(),
            old(buf).elems().len() + src@.len() <= B::limit(),
            buf.elems() == old(buf).elems() + src@.take(i as int),
        decreases src@.len() - i,
    {
        let byte: u8 = src[i];
        match buf.push(byte) {
            Ok(()) => {},
            Err(e) => {
                return Err(e);
            },
        }
        assert(src@.take(i + 1) == src@.take(i as int).push(byte));
        i += 1;
    }
    assert(src@.take(i as int) == src@);
    Ok(())
}

/// Appends zero bytes until the length is a multiple of `align`; when they
/// do not fit, appends nothing.
pub fn pad_for_alignment<B: Buf<u8>>(buf: &mut B, align: usize) -> (r: Result<(), Error>)
    requires
        align > 0,
    ensures
        match r {
            Ok(()) => {
                &&& padded(old(buf).elems(), align as nat).len() <= B::limit()
                &&& final(buf).elems() == padded(old(buf).elems(), align as nat)
                &&& final(buf).elems().len() % (align as nat) == 0
            },
            Err(e) => {
                &&& e == Error::BufferOverflow
                &&& padded(old(buf).elems(), align as nat).len() > B::limit()
                &&& final(buf).elems() == old(buf).elems()
            },
        },
{
    let len: usize = buf.len();
    proof {
        lemma_padding_for(align as nat, len as nat);
    }
    let padding: usize = (align - len % align) % align;
    if padding > buf.spare() {
        return Err(Error::BufferOverflow);
    }
    let mut i: usize = 0;
    while i < padding
        invariant
            i <= padding,
            old(buf).elems().len() + padding <= B::limit(),
            buf.elems() == old(buf).elems() + zeros(i as nat),
        decreases padding - i,
    {
        match buf.push(0u8) {
            Ok(()) => {},
            Err(e) => {
                return Err(e);
            },
        }
        assert(zeros((i + 1) as nat) == zeros(i as nat).push(0u8));
        i += 1;
    }
    Ok(())
}

/// Pads the buffer to a multiple of eight bytes and appends `value` in
/// little-endian order; returns the offset at which `value` starts. When
/// padding and value do not both fit, appends nothing.
pub fn push_aligned<B: Buf<u8>>(buf: &mut B, value: u64) -> (r: Result<usize, Error>)
    ensures
        match r {
            Ok(offset) => {
                &&& offset == padded(old(buf).elems(), 8).len()
                &&& offset + 8 <= B::limit() <= usize::MAX
                &&& final(buf).elems() == padded(old(buf).elems(), 8) + value.encode()
            },
            Err(e) => {
                &&& e == Error::BufferOverflow
                &&& padded(old(buf).elems(), 8).len() + 8 > B::limit()
                &&& final(buf).elems() == old(buf).elems()
            },
        },
{
    let len: usize = buf.len();
    proof {
        lemma_padding_for(8, len as nat);
        u64::lemma_round_trip(value);
    }
    let padding: usize = (8 - len % 8) % 8;
    let spare: usize = buf.spare();
    if spare < 8 || padding > spare - 8 {
        return Err(Error::BufferOverflow);
    }
    match pad_for_alignment(buf, 8) {
        Ok(()) => {},
        Err(e) => {
            return Err(e);
        },
    }
    let offset: usize = buf.len();
    let one: [u64; 1] = [value];
    proof {
        lemma_encode_one(value);
        assert(one@ =~= seq![value]);
    }
    match extend_from_slice(buf, as_bytes::<u64>(one.as_slice())) {
        Ok(()) => {},
        Err(e) => {
            return Err(e);
        },
    }
    Ok(offset)
}

/// Pads the buffer to a multiple of eight bytes and appends `values` in
/// little-endian order; returns the offset at which they start. When
/// padding and values do not all fit, appends nothing.
pub fn extend_aligned<B: Buf<u8>>(buf: &mut B, values: &[u64]) -> (r: Result<usize, Error>)
    ensures
        match r {
            Ok(offset) => {
                &&& offset == padded(old(buf).elems(), 8).len()
                &&& offset + 8 * values@.len() <= B::limit() <= usize::MAX
                &&& final(buf).elems() == padded(old(buf).elems(), 8) + encode_all(values@)
            },
            Err(e) => {
                &&& e == Error::BufferOverflow
                &&& padded(old(buf).elems(), 8).len() + 8 * values@.len() > B::limit()
                &&& final(buf).elems() == old(buf).elems()
            },
        },
{
    let len: usize = buf.len();
    proof {
        lemma_padding_for(8, len as nat);
    }
    let padding: usize = (8 - len % 8) % 8;
    let spare: usize = buf.spare();
    if padding > spare || values.len() > (spare - padding) / 8 {
        return Err(Error::BufferOverflow);
    }
    match pad_for_alignment(buf, 8) {
        Ok(()) => {},
        Err(e) => {
            return Err(e);
        },
    }
    let offset: usize = buf.len();
    proof {
        lemma_encode_all_len(values@);
    }
    match extend_from_slice(buf, as_bytes::<u64>(values)) {
        Ok(()) => {},
        Err(e) => {
            return Err(e);
        },
    }
    Ok(offset)
}

} // verus!
