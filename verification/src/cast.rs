//! Primitive elements as little-endian bytes, and the validated casts
//! between byte slices and typed slices.
//!
//! The table format stores every element in little-endian byte order. The
//! casts in this module reinterpret memory in place, so they read and write
//! elements in the byte order of the machine: the contracts below describe
//! them for little-endian targets, the only ones this library supports.

use vstd::prelude::*;
use vstd::bytes::*;
use crate::error::Error;

verus! {

/// A primitive element with a fixed-width little-endian encoding.
pub trait Element: Copy + Sized {
    /// The number of bytes one element occupies.
    spec fn width() -> nat;

    /// Whether `bytes` hold a value of this type.
    spec fn valid(bytes: Seq<u8>) -> bool;

    /// The element that `bytes` encode.
    spec fn decode(bytes: Seq<u8>) -> Self;

    /// The bytes that encode `self`.
    spec fn encode(self) -> Seq<u8>;

    /// Encoding yields `width()` valid bytes that decode to the same value.
    proof fn lemma_round_trip(v: Self)
        ensures
            Self::width() > 0,
            v.encode().len() == Self::width(),
            Self::valid(v.encode()),
            Self::decode(v.encode()) == v,
    ;
}

impl Element for u8 {
    open spec fn width() -> nat {
        1
    }

    open spec fn valid(bytes: Seq<u8>) -> bool {
        true
    }

    open spec fn decode(bytes: Seq<u8>) -> u8 {
        bytes[0]
    }

    open spec fn encode(self) -> Seq<u8> {
        seq![self]
    }

    proof fn lemma_round_trip(v: u8) {
    }
}

impl Element for u16 {
    open spec fn width() -> nat {
        2
    }

    open spec fn valid(bytes: Seq<u8>) -> bool {
        true
    }

    open spec fn decode(bytes: Seq<u8>) -> u16 {
        spec_u16_from_le_bytes(bytes)
    }

    open spec fn encode(self) -> Seq<u8> {
        spec_u16_to_le_bytes(self)
    }

    proof fn lemma_round_trip(v: u16) {
        lemma_auto_spec_u16_to_from_le_bytes();
    }
}

impl Element for u32 {
    open spec fn width() -> nat {
        4
    }

    open spec fn valid(bytes: Seq<u8>) -> bool {
        true
    }

    open spec fn decode(bytes: Seq<u8>) -> u32 {
        spec_u32_from_le_bytes(bytes)
    }

    open spec fn encode(self) -> Seq<u8> {
        spec_u32_to_le_bytes(self)
    }

    proof fn lemma_round_trip(v: u32) {
        lemma_auto_spec_u32_to_from_le_bytes();
    }
}

impl Element for u64 {
    open spec fn width() -> nat {
        8
    }

    open spec fn valid(bytes: Seq<u8>) -> bool {
        true
    }

    open spec fn decode(bytes: Seq<u8>) -> u64 {
        spec_u64_from_le_bytes(bytes)
    }

    open spec fn encode(self) -> Seq<u8> {
        spec_u64_to_le_bytes(self)
    }

    proof fn lemma_round_trip(v: u64) {
        lemma_auto_spec_u64_to_from_le_bytes();
    }
}

impl Element for i8 {
    open spec fn width() -> nat {
        1
    }

    open spec fn valid(bytes: Seq<u8>) -> bool {
        true
    }

    open spec fn decode(bytes: Seq<u8>) -> i8 {
        bytes[0] as i8
    }

    open spec fn encode(self) -> Seq<u8> {
        seq![self as u8]
    }

    proof fn lemma_round_trip(v: i8) {
        assert((v as u8) as i8 == v) by (bit_vector);
    }
}

impl Element for i16 {
    open spec fn width() -> nat {
        2
    }

    open spec fn valid(bytes: Seq<u8>) -> bool {
        true
    }

    open spec fn decode(bytes: Seq<u8>) -> i16 {
        spec_u16_from_le_bytes(bytes) as i16
    }

    open spec fn encode(self) -> Seq<u8> {
        spec_u16_to_le_bytes(self as u16)
    }

    proof fn lemma_round_trip(v: i16) {
        lemma_auto_spec_u16_to_from_le_bytes();
        assert((v as u16) as i16 == v) by (bit_vector);
    }
}

impl Element for i32 {
    open spec fn width() -> nat {
        4
    }

    open spec fn valid(bytes: Seq<u8>) -> bool {
        true
    }

    open spec fn decode(bytes: Seq<u8>) -> i32 {
        spec_u32_from_le_bytes(bytes) as i32
    }

    open spec fn encode(self) -> Seq<u8> {
        spec_u32_to_le_bytes(self as u32)
    }

    proof fn lemma_round_trip(v: i32) {
        lemma_auto_spec_u32_to_from_le_bytes();
        assert((v as u32) as i32 == v) by (bit_vector);
    }
}

impl Element for i64 {
    open spec fn width() -> nat {
        8
    }

    open spec fn valid(bytes: Seq<u8>) -> bool {
        true
    }

    open spec fn decode(bytes: Seq<u8>) -> i64 {
        spec_u64_from_le_bytes(bytes) as i64
    }

    open spec fn encode(self) -> Seq<u8> {
        spec_u64_to_le_bytes(self as u64)
    }

    proof fn lemma_round_trip(v: i64) {
        lemma_auto_spec_u64_to_from_le_bytes();
        assert((v as u64) as i64 == v) by (bit_vector);
    }
}

impl Element for bool {
    open spec fn width() -> nat {
        1
    }

    open spec fn valid(bytes: Seq<u8>) -> bool {
        bytes[0] == 0 || bytes[0] == 1
    }

    open spec fn decode(bytes: Seq<u8>) -> bool {
        bytes[0] == 1
    }

    open spec fn encode(self) -> Seq<u8> {
        seq![if self { 1u8 } else { 0u8 }]
    }

    proof fn lemma_round_trip(v: bool) {
    }
}

/// The `i`-th group of `T::width()` bytes of `bytes`.
pub open spec fn chunk<T: Element>(bytes: Seq<u8>, i: int) -> Seq<u8> {
    bytes.subrange(i * T::width(), (i + 1) * T::width())
}

/// Whether each of the first `count` chunks of `bytes` holds a value of `T`.
pub open spec fn all_valid<T: Element>(bytes: Seq<u8>, count: nat) -> bool {
    forall|i: int| 0 <= i < count ==> T::valid(#[trigger] chunk::<T>(bytes, i))
}

/// The first `count` elements that `bytes` encode.
pub open spec fn decode_all<T: Element>(bytes: Seq<u8>, count: nat) -> Seq<T> {
    Seq::new(count, |i: int| T::decode(chunk::<T>(bytes, i)))
}

/// The bytes that encode `elems`, one element after the other.
pub open spec fn encode_all<T: Element>(elems: Seq<T>) -> Seq<u8>
    decreases elems.len(),
{
    if elems.len() == 0 {
        Seq::empty()
    } else {
        encode_all(elems.drop_last()) + elems.last().encode()
    }
}

/// The encoding of one element on its own.
pub proof fn lemma_encode_one<T: Element>(elem: T)
    ensures
        encode_all(seq![elem]) == elem.encode(),
{
    reveal_with_fuel(encode_all, 2);
    assert(seq![elem].drop_last() =~= Seq::<T>::empty());
    assert(encode_all(seq![elem]) =~= elem.encode());
}

/// Encoding a sequence of elements yields `width()` bytes for each.
pub proof fn lemma_encode_all_len<T: Element>(elems: Seq<T>)
    ensures
        encode_all(elems).len() == elems.len() * T::width(),
    decreases elems.len(),
{
    if elems.len() > 0 {
        lemma_encode_all_len(elems.drop_last());
        T::lemma_round_trip(elems.last());
        assert((elems.len() - 1) * T::width() + T::width() == elems.len() * T::width())
            by (nonlinear_arith);
    }
}

/// The `i`-th chunk of an encoded sequence is the encoding of its `i`-th
/// element.
pub proof fn lemma_encode_all_chunk<T: Element>(elems: Seq<T>, i: int)
    requires
        0 <= i < elems.len(),
    ensures
        chunk::<T>(encode_all(elems), i) == elems[i].encode(),
    decreases elems.len(),
{
    let w = T::width() as int;
    let front = elems.drop_last();
    lemma_encode_all_len(front);
    T::lemma_round_trip(elems.last());
    assert(i * w + w == (i + 1) * w) by (nonlinear_arith);
    if i == elems.len() - 1 {
        assert(chunk::<T>(encode_all(elems), i) =~= elems.last().encode());
    } else {
        lemma_encode_all_chunk(front, i);
        assert((i + 1) * w <= front.len() * w) by (nonlinear_arith)
            requires
                i + 1 <= front.len(),
                w >= 0,
        ;
        assert(i * w >= 0) by (nonlinear_arith)
            requires
                i >= 0,
                w >= 0,
        ;
        assert(chunk::<T>(encode_all(elems), i) =~= chunk::<T>(encode_all(front), i));
    }
}

/// Elements `skip` to `skip + count` of an encoded sequence can be read
/// back from the bytes that start `skip` elements into it, whatever comes
/// before and after the encoded sequence.
pub proof fn lemma_decode_encoded<T: Element>(
    before: Seq<u8>,
    elems: Seq<T>,
    after: Seq<u8>,
    skip: nat,
    count: nat,
)
    requires
        skip + count <= elems.len(),
    ensures
        ({
            let bytes = before + encode_all(elems) + after;
            let from = bytes.subrange((before.len() + skip * T::width()) as int, bytes.len() as int);
            &&& count * T::width() <= from.len()
            &&& all_valid::<T>(from, count)
            &&& decode_all::<T>(from, count) == elems.subrange(skip as int, (skip + count) as int)
        }),
{
    let w = T::width() as int;
    let enc = encode_all(elems);
    let bytes = before + enc + after;
    lemma_encode_all_len(elems);
    assert(skip * w + count * w == (skip + count) * w) by (nonlinear_arith);
    assert((skip + count) * w <= elems.len() * w) by (nonlinear_arith)
        requires
            skip + count <= elems.len(),
            w >= 0,
    ;
    assert(skip * w >= 0 && count * w >= 0) by (nonlinear_arith)
        requires
            w >= 0,
    ;
    let from = bytes.subrange(before.len() + skip * w, bytes.len() as int);
    assert forall|i: int| 0 <= i < count implies chunk::<T>(from, i) == elems[skip + i].encode() by {
        lemma_encode_all_chunk(elems, skip + i);
        assert((skip + i) * w == skip * w + i * w) by (nonlinear_arith);
        assert((skip + i + 1) * w == skip * w + (i + 1) * w) by (nonlinear_arith);
        assert((skip + i + 1) * w <= elems.len() * w) by (nonlinear_arith)
            requires
                skip + i + 1 <= elems.len(),
                w >= 0,
        ;
        assert(i * w >= 0 && (i + 1) * w >= i * w) by (nonlinear_arith)
            requires
                i >= 0,
                w >= 0,
        ;
        assert(chunk::<T>(from, i) =~= chunk::<T>(enc, skip + i));
    }
    assert forall|i: int| 0 <= i < count implies T::valid(#[trigger] chunk::<T>(from, i)) by {
        T::lemma_round_trip(elems[skip + i]);
    }
    assert forall|i: int| 0 <= i < count implies decode_all::<T>(from, count)[i] == elems.subrange(
        skip as int,
        (skip + count) as int,
    )[i] by {
        T::lemma_round_trip(elems[skip + i]);
    }
    assert(decode_all::<T>(from, count) =~= elems.subrange(skip as int, (skip + count) as int));
}

/// The validated cast: `zerocopy`'s `<[T]>::try_ref_from_prefix_with_elems`,
/// with its three errors mapped to this library's.
///
/// The contract claims what the source of `zerocopy` shows. The cast
/// succeeds only if `src` holds `count` elements' worth of bytes and each of
/// them is a valid `T`, and then the slice holds those bytes read as
/// little-endian elements. It reports a size error only if `src` is too
/// short, a validity error only if `src` is long enough and some element is
/// invalid, and an alignment error only for types wider than a byte. Whether
/// the alignment error occurs depends on the address of `src`, of which the
/// contract says nothing: a caller must be prepared for it on every call
/// with such a type.
#[verifier::external_body]
pub(crate) fn cast_prefix<'a, T>(src: &'a [u8], count: usize) -> (r: Result<&'a [T], Error>)
    where T: Element + zerocopy::TryFromBytes + zerocopy::Immutable + zerocopy::KnownLayout
    ensures
        match r {
            Ok(s) => {
                &&& count * T::width() <= src@.len()
                &&& all_valid::<T>(src@, count as nat)
                &&& s@ == decode_all::<T>(src@, count as nat)
            },
            Err(Error::BufferUnderflow) => count * T::width() > src@.len(),
            Err(Error::Alignment) => T::width() > 1,
            Err(Error::InvalidComponentData) => {
                &&& count * T::width() <= src@.len()
                &&& !all_valid::<T>(src@, count as nat)
            },
            Err(_) => false,
        },
{
    match <[T] as zerocopy::TryFromBytes>::try_ref_from_prefix_with_elems(src, count) {
        Ok((elems, _)) => Ok(elems),
        Err(zerocopy::TryCastError::Alignment(_)) => Err(Error::Alignment),
        Err(zerocopy::TryCastError::Size(_)) => Err(Error::BufferUnderflow),
        Err(zerocopy::TryCastError::Validity(_)) => Err(Error::InvalidComponentData),
    }
}

/// `zerocopy`'s `i64::read_from_bytes`: a copy of the number that `src`
/// encodes. It succeeds exactly if `src` is eight bytes long, whatever its
/// address.
#[verifier::external_body]
pub(crate) fn read_i64(src: &[u8]) -> (r: Result<i64, Error>)
    ensures
        match r {
            Ok(v) => src@.len() == 8 && v == <i64 as Element>::decode(src@),
            Err(Error::BufferUnderflow) => src@.len() != 8,
            Err(_) => false,
        },
{
    match <i64 as zerocopy::FromBytes>::read_from_bytes(src) {
        Ok(v) => Ok(v),
        Err(_) => Err(Error::BufferUnderflow),
    }
}

/// `zerocopy`'s `<[T]>::as_bytes`: the bytes of the elements of `elems`,
/// one element after the other, each in little-endian order.
#[verifier::external_body]
pub(crate) fn as_bytes<'a, T>(elems: &'a [T]) -> (bytes: &'a [u8])
    where T: Element + zerocopy::IntoBytes + zerocopy::Immutable
    ensures
        bytes@ == encode_all(elems@),
{
    <[T] as zerocopy::IntoBytes>::as_bytes(elems)
}

} // verus!
