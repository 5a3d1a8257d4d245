//! Identifiers, timestamps and primitive element types.

use vstd::prelude::*;
use vstd::string::StringSliceAdditionalSpecFns;
use crate::cast::{all_valid, as_bytes, cast_prefix, decode_all, encode_all, Element};
use crate::error::Error;
use crate::table::{arr_len, spec_arr_len};

verus! {

/// Identifies a component. Component ids and entity ids live in
/// independent namespaces.
#[derive(Clone, Copy, Debug, PartialEq, Eq, Structural, PartialOrd, Ord, Hash)]
pub struct ComponentId(pub u64);

/// Identifies an entity.
#[derive(Clone, Copy, Debug, PartialEq, Eq, Structural, PartialOrd, Ord, Hash)]
pub struct EntityId(pub u64);

/// A point in time of an external clock, totally ordered by its value.
#[derive(Clone, Copy, Debug, PartialEq, Eq, Structural, PartialOrd, Ord, Hash)]
pub struct Timestamp(pub i64);

/// Identifies the kind of a packet and, for tables, the descriptor that
/// decodes it.
pub type PacketId = [u8; 2];

/// The 64-bit FNV-1a offset basis.
pub const FNV_OFFSET_BASIS: u64 = 0xcbf2_9ce4_8422_2325;

/// The 64-bit FNV prime.
pub const FNV_PRIME: u64 = 0x0000_0100_0000_01b3;

/// The 64-bit FNV-1a hash of `bytes`: starting from the offset basis, each
/// byte is xor-ed in and the state multiplied by the prime, modulo 2^64.
pub open spec fn fnv1a(bytes: Seq<u8>) -> u64
    decreases bytes.len(),
{
    if bytes.len() == 0 {
        FNV_OFFSET_BASIS
    } else {
        (((fnv1a(bytes.drop_last()) ^ (bytes.last() as u64)) as int * FNV_PRIME as int) % 0x1_0000_0000_0000_0000) as u64
    }
}

impl ComponentId {
    /// The id of the component called `name`: the FNV-1a hash of its UTF-8
    /// bytes.
    pub fn new(name: &str) -> (id: ComponentId)
        ensures
            id.0 == fnv1a(name.spec_bytes()),
    {
        let bytes = name.as_bytes();
        let mut hash: u64 = FNV_OFFSET_BASIS;
        let mut i: usize = 0;
        while i < bytes.len()
            invariant
                i <= bytes@.len(),
                hash == fnv1a(bytes@.take(i as int)),
            decreases bytes@.len() - i,
        {
            let b: u8 = bytes[i];
            assert(bytes@.take(i + 1).drop_last() == bytes@.take(i as int));
            hash = (hash ^ (b as u64)).wrapping_mul(FNV_PRIME);
            i += 1;
        }
        assert(bytes@.take(i as int) == bytes@);
        ComponentId(hash)
    }
}

/// The kind of a primitive element: unsigned and signed integers of 8 to 64
/// bits, booleans, and IEEE floating point numbers of 32 and 64 bits.
#[derive(Clone, Copy, Debug, PartialEq, Eq, Structural, Hash)]
pub enum PrimType {
    U8,
    U16,
    U32,
    U64,
    I8,
    I16,
    I32,
    I64,
    Bool,
    F32,
    F64,
}

/// The number of padding bytes that bring `offset` up to the next multiple
/// of `align`.
pub open spec fn padding_for(align: nat, offset: nat) -> nat
    recommends
        align > 0,
{
    ((align - offset % align) % (align as int)) as nat
}

/// `offset` plus its padding is the least multiple of `align` that is not
/// below `offset`.
pub proof fn lemma_padding_for(align: nat, offset: nat)
    requires
        align > 0,
    ensures
        padding_for(align, offset) < align,
        (offset + padding_for(align, offset)) % align == 0,
        offset % align == 0 ==> padding_for(align, offset) == 0,
        forall|m: nat| offset <= m && #[trigger] (m % align) == 0 ==> offset + padding_for(align, offset) <= m,
{
    let a = align as int;
    let o = offset as int;
    let r = o % a;
    vstd::arithmetic::div_mod::lemma_fundamental_div_mod(o, a);
    if r == 0 {
        vstd::arithmetic::div_mod::lemma_mod_self_0(a);
    } else {
        vstd::arithmetic::div_mod::lemma_small_mod((a - r) as nat, align);
        assert(o + (a - r) == a * (o / a + 1)) by (nonlinear_arith)
            requires
                o == a * (o / a) + r,
        ;
        vstd::arithmetic::div_mod::lemma_mod_multiples_basic(o / a + 1, a);
        assert((a * (o / a + 1)) == ((o / a + 1) * a)) by (nonlinear_arith);
    }
    assert forall|m: nat| offset <= m && #[trigger] (m % align) == 0 implies offset + padding_for(
        align,
        offset,
    ) <= m by {
        let mi = m as int;
        vstd::arithmetic::div_mod::lemma_fundamental_div_mod(mi, a);
        if r != 0 {
            // m = a * qm, o = a * qo + r with 0 < r < a, o <= m, so qm > qo
            assert(mi / a > o / a) by (nonlinear_arith)
                requires
                    mi == a * (mi / a),
                    o == a * (o / a) + r,
                    0 < r < a,
                    o <= mi,
            ;
            assert(mi >= a * (o / a + 1)) by (nonlinear_arith)
                requires
                    mi == a * (mi / a),
                    mi / a > o / a,
                    a > 0,
            ;
        }
    }
}

impl PrimType {
    /// The number of bytes one element occupies.
    pub open spec fn spec_size(&self) -> usize {
        match self {
            PrimType::U8 | PrimType::I8 | PrimType::Bool => 1,
            PrimType::U16 | PrimType::I16 => 2,
            PrimType::U32 | PrimType::I32 | PrimType::F32 => 4,
            PrimType::U64 | PrimType::I64 | PrimType::F64 => 8,
        }
    }

    /// The alignment an element requires; for every primitive type it
    /// equals the element's size.
    pub open spec fn spec_alignment(&self) -> usize {
        self.spec_size()
    }

    /// The padding that brings `offset` up to this type's alignment.
    pub open spec fn spec_padding(&self, offset: usize) -> usize {
        padding_for(self.spec_alignment() as nat, offset as nat) as usize
    }

    /// The number by which a stored shape record names this type.
    pub open spec fn spec_tag(&self) -> u64 {
        match self {
            PrimType::U8 => 0,
            PrimType::U16 => 1,
            PrimType::U32 => 2,
            PrimType::U64 => 3,
            PrimType::I8 => 4,
            PrimType::I16 => 5,
            PrimType::I32 => 6,
            PrimType::I64 => 7,
            PrimType::Bool => 8,
            PrimType::F32 => 9,
            PrimType::F64 => 10,
        }
    }

    /// The type that `tag` names, if any.
    pub open spec fn spec_from_tag(tag: u64) -> Option<PrimType> {
        if tag == 0 {
            Some(PrimType::U8)
        } else if tag == 1 {
            Some(PrimType::U16)
        } else if tag == 2 {
            Some(PrimType::U32)
        } else if tag == 3 {
            Some(PrimType::U64)
        } else if tag == 4 {
            Some(PrimType::I8)
        } else if tag == 5 {
            Some(PrimType::I16)
        } else if tag == 6 {
            Some(PrimType::I32)
        } else if tag == 7 {
            Some(PrimType::I64)
        } else if tag == 8 {
            Some(PrimType::Bool)
        } else if tag == 9 {
            Some(PrimType::F32)
        } else if tag == 10 {
            Some(PrimType::F64)
        } else {
            None
        }
    }

    #[verifier::when_used_as_spec(spec_size)]
    pub fn size(&self) -> (n: usize)
        ensures
            n == self.spec_size(),
            n == 1 || n == 2 || n == 4 || n == 8,
    {
        match self {
            PrimType::U8 | PrimType::I8 | PrimType::Bool => 1,
            PrimType::U16 | PrimType::I16 => 2,
            PrimType::U32 | PrimType::I32 | PrimType::F32 => 4,
            PrimType::U64 | PrimType::I64 | PrimType::F64 => 8,
        }
    }

    #[verifier::when_used_as_spec(spec_alignment)]
    pub fn alignment(&self) -> (n: usize)
        ensures
            n == self.spec_alignment(),
            n == self.spec_size(),
    {
        self.size()
    }

    /// The number of bytes to skip from `offset` so that an element of this
    /// type starts at a multiple of its alignment.
    #[verifier::when_used_as_spec(spec_padding)]
    pub fn padding(&self, offset: usize) -> (n: usize)
        ensures
            n == self.spec_padding(offset),
            n == padding_for(self.spec_alignment() as nat, offset as nat),
            n < self.spec_alignment(),
            (offset + n) % (self.spec_alignment() as int) == 0,
    {
        let align = self.alignment();
        proof {
            lemma_padding_for(align as nat, offset as nat);
        }
        (align - offset % align) % align
    }

    #[verifier::when_used_as_spec(spec_tag)]
    pub fn tag(&self) -> (t: u64)
        ensures
            t == self.spec_tag(),
            PrimType::spec_from_tag(t) == Some(*self),
    {
        match self {
            PrimType::U8 => 0,
            PrimType::U16 => 1,
            PrimType::U32 => 2,
            PrimType::U64 => 3,
            PrimType::I8 => 4,
            PrimType::I16 => 5,
            PrimType::I32 => 6,
            PrimType::I64 => 7,
            PrimType::Bool => 8,
            PrimType::F32 => 9,
            PrimType::F64 => 10,
        }
    }

    #[verifier::when_used_as_spec(spec_from_tag)]
    pub fn from_tag(tag: u64) -> (r: Option<PrimType>)
        ensures
            r == PrimType::spec_from_tag(tag),
            r matches Some(p) ==> p.spec_tag() == tag,
    {
        if tag == 0 {
            Some(PrimType::U8)
        } else if tag == 1 {
            Some(PrimType::U16)
        } else if tag == 2 {
            Some(PrimType::U32)
        } else if tag == 3 {
            Some(PrimType::U64)
        } else if tag == 4 {
            Some(PrimType::I8)
        } else if tag == 5 {
            Some(PrimType::I16)
        } else if tag == 6 {
            Some(PrimType::I32)
        } else if tag == 7 {
            Some(PrimType::I64)
        } else if tag == 8 {
            Some(PrimType::Bool)
        } else if tag == 9 {
            Some(PrimType::F32)
        } else if tag == 10 {
            Some(PrimType::F64)
        } else {
            None
        }
    }
}

/// A borrowed array of elements in row-major order, with its dimensions.
#[derive(Clone, Copy, Debug, PartialEq, Eq)]
pub struct ArrayView<'a, T> {
    pub buf: &'a [T],
    pub shape: &'a [u64],
}

impl<'a, T> ArrayView<'a, T> {
    /// A view of `buf` with the dimensions `shape`; that the two agree is
    /// left to the caller.
    pub fn from_buf_shape_unchecked(buf: &'a [T], shape: &'a [u64]) -> (view: Self)
        ensures
            view.buf@ == buf@,
            view.shape@ == shape@,
    {
        ArrayView { buf, shape }
    }

    /// The elements.
    pub fn buf(&self) -> (buf: &'a [T])
        ensures
            buf@ == self.buf@,
    {
        self.buf
    }

    /// The dimensions.
    pub fn shape(&self) -> (shape: &'a [u64])
        ensures
            shape@ == self.shape@,
    {
        self.shape
    }
}

/// A typed view of one component value. Floating point elements are held as
/// their bit patterns.
#[derive(Clone, Copy, Debug, PartialEq, Eq)]
pub enum ComponentView<'a> {
    U8(ArrayView<'a, u8>),
    U16(ArrayView<'a, u16>),
    U32(ArrayView<'a, u32>),
    U64(ArrayView<'a, u64>),
    I8(ArrayView<'a, i8>),
    I16(ArrayView<'a, i16>),
    I32(ArrayView<'a, i32>),
    I64(ArrayView<'a, i64>),
    Bool(ArrayView<'a, bool>),
    F32(ArrayView<'a, u32>),
    F64(ArrayView<'a, u64>),
}

/// The elements of a component value, by type.
pub enum ComponentData {
    U8(Seq<u8>),
    U16(Seq<u16>),
    U32(Seq<u32>),
    U64(Seq<u64>),
    I8(Seq<i8>),
    I16(Seq<i16>),
    I32(Seq<i32>),
    I64(Seq<i64>),
    Bool(Seq<bool>),
    F32(Seq<u32>),
    F64(Seq<u64>),
}

/// What a [`ComponentView`] shows: the dimensions and the elements.
pub struct ComponentValue {
    pub shape: Seq<u64>,
    pub data: ComponentData,
}

impl ComponentData {
    /// The bytes that encode the elements, one element after the other.
    pub open spec fn bytes(self) -> Seq<u8> {
        match self {
            ComponentData::U8(s) => encode_all(s),
            ComponentData::U16(s) => encode_all(s),
            ComponentData::U32(s) => encode_all(s),
            ComponentData::U64(s) => encode_all(s),
            ComponentData::I8(s) => encode_all(s),
            ComponentData::I16(s) => encode_all(s),
            ComponentData::I32(s) => encode_all(s),
            ComponentData::I64(s) => encode_all(s),
            ComponentData::Bool(s) => encode_all(s),
            ComponentData::F32(s) => encode_all(s),
            ComponentData::F64(s) => encode_all(s),
        }
    }

    /// The primitive type of the elements.
    pub open spec fn prim_type(self) -> PrimType {
        match self {
            ComponentData::U8(_) => PrimType::U8,
            ComponentData::U16(_) => PrimType::U16,
            ComponentData::U32(_) => PrimType::U32,
            ComponentData::U64(_) => PrimType::U64,
            ComponentData::I8(_) => PrimType::I8,
            ComponentData::I16(_) => PrimType::I16,
            ComponentData::I32(_) => PrimType::I32,
            ComponentData::I64(_) => PrimType::I64,
            ComponentData::Bool(_) => PrimType::Bool,
            ComponentData::F32(_) => PrimType::F32,
            ComponentData::F64(_) => PrimType::F64,
        }
    }

    /// The number of elements.
    pub open spec fn len(self) -> nat {
        match self {
            ComponentData::U8(s) => s.len(),
            ComponentData::U16(s) => s.len(),
            ComponentData::U32(s) => s.len(),
            ComponentData::U64(s) => s.len(),
            ComponentData::I8(s) => s.len(),
            ComponentData::I16(s) => s.len(),
            ComponentData::I32(s) => s.len(),
            ComponentData::I64(s) => s.len(),
            ComponentData::Bool(s) => s.len(),
            ComponentData::F32(s) => s.len(),
            ComponentData::F64(s) => s.len(),
        }
    }
}

/// The first `count` elements of type `prim_type` that `bytes` encode.
pub open spec fn typed_data(prim_type: PrimType, bytes: Seq<u8>, count: nat) -> ComponentData {
    match prim_type {
        PrimType::U8 => ComponentData::U8(decode_all::<u8>(bytes, count)),
        PrimType::U16 => ComponentData::U16(decode_all::<u16>(bytes, count)),
        PrimType::U32 => ComponentData::U32(decode_all::<u32>(bytes, count)),
        PrimType::U64 => ComponentData::U64(decode_all::<u64>(bytes, count)),
        PrimType::I8 => ComponentData::I8(decode_all::<i8>(bytes, count)),
        PrimType::I16 => ComponentData::I16(decode_all::<i16>(bytes, count)),
        PrimType::I32 => ComponentData::I32(decode_all::<i32>(bytes, count)),
        PrimType::I64 => ComponentData::I64(decode_all::<i64>(bytes, count)),
        PrimType::Bool => ComponentData::Bool(decode_all::<bool>(bytes, count)),
        PrimType::F32 => ComponentData::F32(decode_all::<u32>(bytes, count)),
        PrimType::F64 => ComponentData::F64(decode_all::<u64>(bytes, count)),
    }
}

/// Whether the first `count` elements of `bytes` are values of `prim_type`.
/// Only a boolean can fail to be: its byte must be zero or one.
pub open spec fn data_valid(prim_type: PrimType, bytes: Seq<u8>, count: nat) -> bool {
    prim_type == PrimType::Bool ==> all_valid::<bool>(bytes, count)
}

/// The value that the start of `bytes` holds when read as an array of
/// `prim_type` with the dimensions `shape`, on memory that is aligned for
/// `prim_type`.
pub open spec fn spec_view_of(bytes: Seq<u8>, shape: Seq<u64>, prim_type: PrimType) -> Result<
    ComponentValue,
    Error,
> {
    match spec_arr_len(shape) {
        None => Err(Error::OffsetOverflow),
        Some(count) => if count * prim_type.spec_size() > bytes.len() {
            Err(Error::BufferUnderflow)
        } else if !data_valid(prim_type, bytes, count) {
            Err(Error::InvalidComponentData)
        } else {
            Ok(ComponentValue { shape, data: typed_data(prim_type, bytes, count) })
        },
    }
}

impl<'a> View for ComponentView<'a> {
    type V = ComponentValue;

    open spec fn view(&self) -> ComponentValue {
        match self {
            ComponentView::U8(a) => ComponentValue { shape: a.shape@, data: ComponentData::U8(a.buf@) },
            ComponentView::U16(a) => ComponentValue {
                shape: a.shape@,
                data: ComponentData::U16(a.buf@),
            },
            ComponentView::U32(a) => ComponentValue {
                shape: a.shape@,
                data: ComponentData::U32(a.buf@),
            },
            ComponentView::U64(a) => ComponentValue {
                shape: a.shape@,
                data: ComponentData::U64(a.buf@),
            },
            ComponentView::I8(a) => ComponentValue { shape: a.shape@, data: ComponentData::I8(a.buf@) },
            ComponentView::I16(a) => ComponentValue {
                shape: a.shape@,
                data: ComponentData::I16(a.buf@),
            },
            ComponentView::I32(a) => ComponentValue {
                shape: a.shape@,
                data: ComponentData::I32(a.buf@),
            },
            ComponentView::I64(a) => ComponentValue {
                shape: a.shape@,
                data: ComponentData::I64(a.buf@),
            },
            ComponentView::Bool(a) => ComponentValue {
                shape: a.shape@,
                data: ComponentData::Bool(a.buf@),
            },
            ComponentView::F32(a) => ComponentValue {
                shape: a.shape@,
                data: ComponentData::F32(a.buf@),
            },
            ComponentView::F64(a) => ComponentValue {
                shape: a.shape@,
                data: ComponentData::F64(a.buf@),
            },
        }
    }
}

impl<'a> ComponentView<'a> {
    /// Reads the start of `buf` as an array of `prim_type` with the
    /// dimensions `shape`.
    ///
    /// The result is the one [`spec_view_of`] gives, with one exception:
    /// for a type wider than a byte the cast may find `buf` misaligned and
    /// report [`Error::Alignment`] in place of a value.
    pub fn try_from_bytes_shape(buf: &'a [u8], shape: &'a [u64], prim_type: PrimType) -> (r: Result<
        ComponentView<'a>,
        Error,
    >)
        ensures
            match r {
                Ok(view) => spec_view_of(buf@, shape@, prim_type) == Ok::<ComponentValue, Error>(view@),
                Err(e) => {
                    ||| spec_view_of(buf@, shape@, prim_type) == Err::<ComponentValue, Error>(e)
                    ||| {
                        &&& e == Error::Alignment
                        &&& prim_type.spec_size() > 1
                        &&& spec_arr_len(shape@) is Some
                    }
                },
            },
    {
        let count: usize = match arr_len(shape) {
            Ok(count) => count,
            Err(e) => {
                return Err(e);
            },
        };
        match prim_type {
            PrimType::U8 => match cast_prefix::<u8>(buf, count) {
                Ok(elems) => Ok(ComponentView::U8(ArrayView { buf: elems, shape })),
                Err(e) => Err(e),
            },
            PrimType::U16 => match cast_prefix::<u16>(buf, count) {
                Ok(elems) => Ok(ComponentView::U16(ArrayView { buf: elems, shape })),
                Err(e) => Err(e),
            },
            PrimType::U32 => match cast_prefix::<u32>(buf, count) {
                Ok(elems) => Ok(ComponentView::U32(ArrayView { buf: elems, shape })),
                Err(e) => Err(e),
            },
            PrimType::U64 => match cast_prefix::<u64>(buf, count) {
                Ok(elems) => Ok(ComponentView::U64(ArrayView { buf: elems, shape })),
                Err(e) => Err(e),
            },
            PrimType::I8 => match cast_prefix::<i8>(buf, count) {
                Ok(elems) => Ok(ComponentView::I8(ArrayView { buf: elems, shape })),
                Err(e) => Err(e),
            },
            PrimType::I16 => match cast_prefix::<i16>(buf, count) {
                Ok(elems) => Ok(ComponentView::I16(ArrayView { buf: elems, shape })),
                Err(e) => Err(e),
            },
            PrimType::I32 => match cast_prefix::<i32>(buf, count) {
                Ok(elems) => Ok(ComponentView::I32(ArrayView { buf: elems, shape })),
                Err(e) => Err(e),
            },
            PrimType::I64 => match cast_prefix::<i64>(buf, count) {
                Ok(elems) => Ok(ComponentView::I64(ArrayView { buf: elems, shape })),
                Err(e) => Err(e),
            },
            PrimType::Bool => match cast_prefix::<bool>(buf, count) {
                Ok(elems) => Ok(ComponentView::Bool(ArrayView { buf: elems, shape })),
                Err(e) => Err(e),
            },
            PrimType::F32 => match cast_prefix::<u32>(buf, count) {
                Ok(elems) => Ok(ComponentView::F32(ArrayView { buf: elems, shape })),
                Err(e) => Err(e),
            },
            PrimType::F64 => match cast_prefix::<u64>(buf, count) {
                Ok(elems) => Ok(ComponentView::F64(ArrayView { buf: elems, shape })),
                Err(e) => Err(e),
            },
        }
    }

    /// The bytes of the elements, one element after the other.
    pub fn as_bytes(&self) -> (bytes: &'a [u8])
        ensures
            bytes@ == self@.data.bytes(),
    {
        match self {
            ComponentView::U8(a) => as_bytes::<u8>(a.buf),
            ComponentView::U16(a) => as_bytes::<u16>(a.buf),
            ComponentView::U32(a) => as_bytes::<u32>(a.buf),
            ComponentView::U64(a) => as_bytes::<u64>(a.buf),
            ComponentView::I8(a) => as_bytes::<i8>(a.buf),
            ComponentView::I16(a) => as_bytes::<i16>(a.buf),
            ComponentView::I32(a) => as_bytes::<i32>(a.buf),
            ComponentView::I64(a) => as_bytes::<i64>(a.buf),
            ComponentView::Bool(a) => as_bytes::<bool>(a.buf),
            ComponentView::F32(a) => as_bytes::<u32>(a.buf),
            ComponentView::F64(a) => as_bytes::<u64>(a.buf),
        }
    }

    /// The primitive type of the elements.
    pub fn prim_type(&self) -> (p: PrimType)
        ensures
            p == self@.data.prim_type(),
    {
        match self {
            ComponentView::U8(_) => PrimType::U8,
            ComponentView::U16(_) => PrimType::U16,
            ComponentView::U32(_) => PrimType::U32,
            ComponentView::U64(_) => PrimType::U64,
            ComponentView::I8(_) => PrimType::I8,
            ComponentView::I16(_) => PrimType::I16,
            ComponentView::I32(_) => PrimType::I32,
            ComponentView::I64(_) => PrimType::I64,
            ComponentView::Bool(_) => PrimType::Bool,
            ComponentView::F32(_) => PrimType::F32,
            ComponentView::F64(_) => PrimType::F64,
        }
    }

    /// The dimensions.
    pub fn shape(&self) -> (shape: &'a [u64])
        ensures
            shape@ == self@.shape,
    {
        match self {
            ComponentView::U8(a) => a.shape,
            ComponentView::U16(a) => a.shape,
            ComponentView::U32(a) => a.shape,
            ComponentView::U64(a) => a.shape,
            ComponentView::I8(a) => a.shape,
            ComponentView::I16(a) => a.shape,
            ComponentView::I32(a) => a.shape,
            ComponentView::I64(a) => a.shape,
            ComponentView::Bool(a) => a.shape,
            ComponentView::F32(a) => a.shape,
            ComponentView::F64(a) => a.shape,
        }
    }
}

} // verus!
