//! Descriptors of table payloads: the entries that say where each array of
//! a payload lies, the parser that decodes a payload against them, and the
//! builder that lays a payload out.

use vstd::prelude::*;
use vstd::slice::{slice_subrange, slice_to_vec};
use core::marker::PhantomData;
use crate::buf::{extend_aligned, padded, Buf};
use crate::cast::{cast_prefix, decode_all, encode_all, read_i64, Element};
use crate::com_de::{deliver, lemma_deliver_concat, lemma_deliver_push, Cell, Decomponentize};
use crate::error::Error;
use crate::types::{
    lemma_padding_for, padding_for, spec_view_of, ComponentId, ComponentView, EntityId, PrimType,
    Timestamp,
};

verus! {

/// The number of elements of an array with the dimensions `shape`: their
/// product, taken from the left, or `None` as soon as a dimension or a
/// partial product leaves the range of `usize`. An array without dimensions
/// is a scalar and has one element.
pub open spec fn spec_arr_len(shape: Seq<u64>) -> Option<nat>
    decreases shape.len(),
{
    if shape.len() == 0 {
        Some(1nat)
    } else {
        match spec_arr_len(shape.drop_last()) {
            None => None,
            Some(n) => if shape.last() <= usize::MAX && n * shape.last() <= usize::MAX {
                Some(n * (shape.last() as nat))
            } else {
                None
            },
        }
    }
}

/// The number of elements of an array with the dimensions `shape`.
pub fn arr_len(shape: &[u64]) -> (r: Result<usize, Error>)
    ensures
        match r {
            Ok(n) => spec_arr_len(shape@) == Some(n as nat),
            Err(e) => e == Error::OffsetOverflow && spec_arr_len(shape@) is None,
        },
{
    let mut len: usize = 1;
    let mut i: usize = 0;
    while i < shape.len()
        invariant
            i <= shape@.len(),
            spec_arr_len(shape@.take(i as int)) == Some(len as nat),
        decreases shape@.len() - i,
    {
        let d: u64 = shape[i];
        proof {
            assert(shape@.take(i + 1).drop_last() == shape@.take(i as int));
            lemma_arr_len_prefix(shape@, i + 1);
        }
        if d > usize::MAX as u64 {
            return Err(Error::OffsetOverflow);
        }
        match len.checked_mul(d as usize) {
            Some(n) => {
                len = n;
            },
            None => {
                return Err(Error::OffsetOverflow);
            },
        }
        i += 1;
    }
    assert(shape@.take(i as int) == shape@);
    Ok(len)
}

/// Once a prefix of the dimensions overflows, so does every longer one.
pub proof fn lemma_arr_len_prefix(shape: Seq<u64>, k: int)
    requires
        0 <= k <= shape.len(),
    ensures
        spec_arr_len(shape.take(k)) is None ==> spec_arr_len(shape) is None,
    decreases shape.len() - k,
{
    if k < shape.len() {
        assert(shape.take(k + 1).drop_last() == shape.take(k));
        lemma_arr_len_prefix(shape, k + 1);
    } else {
        assert(shape.take(k) == shape);
    }
}

/// The bytes of `data` from `offset` on.
pub open spec fn tail(data: Seq<u8>, offset: int) -> Seq<u8> {
    data.subrange(offset, data.len() as int)
}

/// A fixed number of 64-bit words in the auxiliary data of a descriptor,
/// read as one value.
pub trait Record: Sized + Copy {
    /// The number of words one record occupies.
    spec fn words() -> nat;

    /// The record that `words` hold, if they hold one.
    spec fn from_words(words: Seq<u64>) -> Option<Self>;

    /// The words that hold `self`.
    spec fn to_words(self) -> Seq<u64>;

    /// The number of words one record occupies.
    fn word_count() -> (n: usize)
        ensures
            n == Self::words(),
            1 <= n <= 3,
    ;

    /// Reads the record that starts at word `at`.
    fn read(words: &[u64], at: usize) -> (r: Option<Self>)
        requires
            at + Self::words() <= words@.len(),
        ensures
            r == Self::from_words(words@.subrange(at as int, at + Self::words())),
    ;

    /// Appends the words that hold `self`.
    fn write(&self, words: &mut Vec<u64>)
        ensures
            final(words)@ == old(words)@ + self.to_words(),
    ;

    /// Writing a record and reading it back yields the record.
    proof fn lemma_round_trip(self)
        ensures
            self.to_words().len() == Self::words(),
            Self::from_words(self.to_words()) == Some(self),
    ;
}

impl Record for EntityId {
    open spec fn words() -> nat {
        1
    }

    open spec fn from_words(words: Seq<u64>) -> Option<EntityId> {
        Some(EntityId(words[0]))
    }

    open spec fn to_words(self) -> Seq<u64> {
        seq![self.0]
    }

    fn word_count() -> (n: usize) {
        1
    }

    fn read(words: &[u64], at: usize) -> (r: Option<EntityId>) {
        Some(EntityId(words[at]))
    }

    fn write(&self, words: &mut Vec<u64>) {
        words.push(self.0);
    }

    proof fn lemma_round_trip(self) {
    }
}

impl Record for ComponentId {
    open spec fn words() -> nat {
        1
    }

    open spec fn from_words(words: Seq<u64>) -> Option<ComponentId> {
        Some(ComponentId(words[0]))
    }

    open spec fn to_words(self) -> Seq<u64> {
        seq![self.0]
    }

    fn word_count() -> (n: usize) {
        1
    }

    fn read(words: &[u64], at: usize) -> (r: Option<ComponentId>) {
        Some(ComponentId(words[at]))
    }

    fn write(&self, words: &mut Vec<u64>) {
        words.push(self.0);
    }

    proof fn lemma_round_trip(self) {
    }
}

/// Where the dimensions of one array lie in the auxiliary data, and the
/// type of its elements.
#[derive(Clone, Copy, Debug, PartialEq, Eq)]
pub struct ShapeEntry {
    pub prim_type: PrimType,
    pub rank: u64,
    pub shape_offset: u64,
}

impl Record for ShapeEntry {
    open spec fn words() -> nat {
        3
    }

    open spec fn from_words(words: Seq<u64>) -> Option<ShapeEntry> {
        match PrimType::spec_from_tag(words[0]) {
            Some(prim_type) => Some(ShapeEntry { prim_type, rank: words[1], shape_offset: words[2] }),
            None => None,
        }
    }

    open spec fn to_words(self) -> Seq<u64> {
        seq![self.prim_type.spec_tag(), self.rank, self.shape_offset]
    }

    fn word_count() -> (n: usize) {
        3
    }

    fn read(words: &[u64], at: usize) -> (r: Option<ShapeEntry>) {
        match PrimType::from_tag(words[at]) {
            Some(prim_type) => Some(
                ShapeEntry { prim_type, rank: words[at + 1], shape_offset: words[at + 2] },
            ),
            None => None,
        }
    }

    fn write(&self, words: &mut Vec<u64>) {
        let ghost before = words@;
        words.push(self.prim_type.tag());
        words.push(self.rank);
        words.push(self.shape_offset);
        assert(words@ == before + self.to_words());
    }

    proof fn lemma_round_trip(self) {
        match self.prim_type {
            PrimType::U8 => {},
            PrimType::U16 => {},
            PrimType::U32 => {},
            PrimType::U64 => {},
            PrimType::I8 => {},
            PrimType::I16 => {},
            PrimType::I32 => {},
            PrimType::I64 => {},
            PrimType::Bool => {},
            PrimType::F32 => {},
            PrimType::F64 => {},
        }
    }
}

/// The `i`-th record that `words` hold.
pub open spec fn record_at<T: Record>(words: Seq<u64>, i: int) -> Option<T> {
    T::from_words(words.subrange(i * T::words(), (i + 1) * T::words()))
}

/// The `len` records of type `T` that lie at `offset` in `vdata`, on memory
/// that is aligned for 64-bit words.
pub open spec fn spec_parse_records<T: Record>(offset: u64, vdata: Seq<u8>, len: nat) -> Result<
    Seq<T>,
    Error,
> {
    if offset > usize::MAX {
        Err(Error::OffsetOverflow)
    } else if offset > vdata.len() {
        Err(Error::BufferUnderflow)
    } else if len * T::words() * 8 > vdata.len() - offset {
        Err(Error::BufferUnderflow)
    } else {
        let words = decode_all::<u64>(tail(vdata, offset as int), len * T::words());
        if forall|i: int| 0 <= i < len ==> (#[trigger] record_at::<T>(words, i)) is Some {
            Ok(Seq::new(len, |i: int| record_at::<T>(words, i).unwrap()))
        } else {
            Err(Error::InvalidComponentData)
        }
    }
}

/// Where a run of records lies in the auxiliary data of a descriptor.
#[derive(Debug, PartialEq, Eq)]
pub struct BufEntry<T> {
    pub offset: u64,
    pub phantom_data: PhantomData<T>,
}

impl<T> Clone for BufEntry<T> {
    fn clone(&self) -> (copy: Self)
        ensures
            copy == *self,
    {
        BufEntry { offset: self.offset, phantom_data: PhantomData }
    }
}

impl<T> Copy for BufEntry<T> {

}

impl<T: Record> BufEntry<T> {
    /// Reads `len` records at this entry's offset in `vdata`.
    ///
    /// The result is the one [`spec_parse_records`] gives, with one
    /// exception: once the offset is known to lie in `vdata`, the cast may
    /// find the bytes misaligned and report [`Error::Alignment`].
    pub fn parse(&self, vdata: &[u8], len: usize) -> (r: Result<Vec<T>, Error>)
        ensures
            match r {
                Ok(records) => spec_parse_records::<T>(self.offset, vdata@, len as nat) == Ok::<
                    Seq<T>,
                    Error,
                >(records@),
                Err(e) => {
                    ||| spec_parse_records::<T>(self.offset, vdata@, len as nat) == Err::<
                        Seq<T>,
                        Error,
                    >(e)
                    ||| e == Error::Alignment && self.offset <= vdata@.len()
                },
            },
    {
        if self.offset > usize::MAX as u64 {
            return Err(Error::OffsetOverflow);
        }
        let offset: usize = self.offset as usize;
        if offset > vdata.len() {
            return Err(Error::BufferUnderflow);
        }
        let bytes = slice_subrange(vdata, offset, vdata.len());
        let per: usize = T::word_count();
        let count: usize = match len.checked_mul(per) {
            Some(count) => count,
            None => {
                assert(len * T::words() * 8 > vdata@.len() - offset) by (nonlinear_arith)
                    requires
                        len * T::words() > usize::MAX,
                        vdata@.len() <= usize::MAX,
                        offset >= 0,
                ;
                return Err(Error::BufferUnderflow);
            },
        };
        assert(count * <u64 as Element>::width() == len * T::words() * 8) by (nonlinear_arith)
            requires
                count == len * T::words(),
                <u64 as Element>::width() == 8,
        ;
        let words = match cast_prefix::<u64>(bytes, count) {
            Ok(words) => words,
            Err(e) => {
                return Err(e);
            },
        };
        let mut records: Vec<T> = Vec::new();
        let mut i: usize = 0;
        while i < len
            invariant
                i <= len,
                per == T::words(),
                1 <= per <= 3,
                count == len * per,
                words@.len() == count,
                self.offset == offset,
                offset <= vdata@.len(),
                len * T::words() * 8 <= vdata@.len() - offset,
                words@ == decode_all::<u64>(tail(vdata@, offset as int), (len * T::words()) as nat),
                records@.len() == i,
                forall|j: int| 0 <= j < i ==> record_at::<T>(words@, j) == Some(#[trigger] records@[j]),
            decreases len - i,
        {
            assert(i * per + per <= len * per) by (nonlinear_arith)
                requires
                    i < len,
                    per >= 1,
            ;
            assert((i + 1) * T::words() == i * per + per) by (nonlinear_arith)
                requires
                    per == T::words(),
            ;
            match T::read(words, i * per) {
                Some(record) => {
                    records.push(record);
                },
                None => {
                    assert(record_at::<T>(words@, i as int) is None);
                    return Err(Error::InvalidComponentData);
                },
            }
            i += 1;
        }
        proof {
            assert forall|j: int| 0 <= j < len implies (#[trigger] record_at::<T>(words@, j)) is Some by {
                assert(record_at::<T>(words@, j) == Some(records@[j]));
            }
            assert(records@ =~= Seq::new(len as nat, |j: int| record_at::<T>(words@, j).unwrap()));
        }
        Ok(records)
    }
}

impl ShapeEntry {
    /// The dimensions this entry points at, on memory that is aligned for
    /// 64-bit words.
    pub open spec fn spec_parse_shape(&self, vdata: Seq<u8>) -> Result<Seq<u64>, Error> {
        if self.shape_offset > usize::MAX || self.rank > usize::MAX {
            Err(Error::OffsetOverflow)
        } else if self.shape_offset > vdata.len() {
            Err(Error::BufferUnderflow)
        } else if self.rank * 8 > vdata.len() - self.shape_offset {
            Err(Error::BufferUnderflow)
        } else {
            Ok(decode_all::<u64>(tail(vdata, self.shape_offset as int), self.rank as nat))
        }
    }

    /// Reads the dimensions this entry points at in `vdata`.
    ///
    /// The result is the one [`ShapeEntry::spec_parse_shape`] gives, with
    /// one exception: once the offset is known to lie in `vdata`, the cast
    /// may find the bytes misaligned and report [`Error::Alignment`].
    pub fn parse_shape<'a>(&self, vdata: &'a [u8]) -> (r: Result<&'a [u64], Error>)
        ensures
            match r {
                Ok(shape) => self.spec_parse_shape(vdata@) == Ok::<Seq<u64>, Error>(shape@),
                Err(e) => {
                    ||| self.spec_parse_shape(vdata@) == Err::<Seq<u64>, Error>(e)
                    ||| e == Error::Alignment && self.shape_offset <= vdata@.len() && self.rank
                        <= usize::MAX
                },
            },
    {
        if self.shape_offset > usize::MAX as u64 || self.rank > usize::MAX as u64 {
            return Err(Error::OffsetOverflow);
        }
        let shape_offset: usize = self.shape_offset as usize;
        let rank: usize = self.rank as usize;
        if shape_offset > vdata.len() {
            return Err(Error::BufferUnderflow);
        }
        let data = slice_subrange(vdata, shape_offset, vdata.len());
        cast_prefix::<u64>(data, rank)
    }
}

/// What decoding yields: the cells in the order in which a sink receives
/// them, and the error that ended the decoding, if one did.
pub struct Decoded {
    pub cells: Seq<Cell>,
    pub error: Option<Error>,
}

impl Decoded {
    /// Nothing decoded, no error.
    pub open spec fn empty() -> Decoded {
        Decoded { cells: Seq::empty(), error: None }
    }

    /// Nothing decoded because of `e`.
    pub open spec fn fail(e: Error) -> Decoded {
        Decoded { cells: Seq::empty(), error: Some(e) }
    }

    /// `self`, followed by `next` unless `self` ended in an error.
    pub open spec fn followed_by(self, next: Decoded) -> Decoded {
        if self.error is Some {
            self
        } else {
            Decoded { cells: self.cells + next.cells, error: next.error }
        }
    }
}

/// How a parser that returned `r` has left a sink, given what `decoded`
/// says of its input.
///
/// On success the sink has accepted every cell. On an error that `decoded`
/// foresees, it has accepted every cell that comes before the error. The
/// one error that `decoded` cannot foresee is [`Error::Alignment`], which a
/// cast may report wherever one is made: the sink has then accepted the
/// first `k` cells, for some `k`.
pub open spec fn sink_outcome<S: Decomponentize>(
    before: S::State,
    after: S::State,
    decoded: Decoded,
    r: Result<(), Error>,
) -> bool {
    match r {
        Ok(()) => decoded.error is None && after == deliver::<S>(before, decoded.cells),
        Err(e) => {
            ||| decoded.error == Some(e) && after == deliver::<S>(before, decoded.cells)
            ||| e == Error::Alignment && exists|k: int|
                0 <= k <= decoded.cells.len() && after == deliver::<S>(
                    before,
                    #[trigger] decoded.cells.take(k),
                )
        },
    }
}

/// One step of a parser, from the outcome of the cast of one array: a view
/// is handed to the sink as the value of `component_id` of `entity_id`; an
/// error ends the decoding and leaves the sink as it is.
pub fn deliver_cell<S: Decomponentize>(
    component_id: ComponentId,
    entity_id: EntityId,
    timestamp: Option<Timestamp>,
    cast: Result<ComponentView<'_>, Error>,
    sink: &mut S,
) -> (r: Result<(), Error>)
    ensures
        match cast {
            Ok(view) => r is Ok && final(sink).state() == S::accept(
                old(sink).state(),
                Cell { component_id, entity_id, value: view@, timestamp },
            ),
            Err(e) => r == Err::<(), Error>(e) && final(sink).state() == old(sink).state(),
        },
{
    match cast {
        Ok(view) => {
            sink.apply_value(component_id, entity_id, view, timestamp);
            Ok(())
        },
        Err(e) => Err(e),
    }
}

/// The timestamp that lies at `offset` in `table`, if an offset is given.
pub open spec fn spec_read_timestamp(offset: Option<u64>, table: Seq<u8>) -> Result<
    Option<Timestamp>,
    Error,
> {
    match offset {
        None => Ok(None),
        Some(o) => if o + 8 > usize::MAX {
            Err(Error::OffsetOverflow)
        } else if o + 8 > table.len() {
            Err(Error::BufferUnderflow)
        } else {
            Ok(Some(Timestamp(<i64 as Element>::decode(table.subrange(o as int, o + 8)))))
        },
    }
}

/// Reads the timestamp that lies at `offset` in `table`, if an offset is
/// given.
pub fn read_timestamp(offset: Option<u64>, table: &[u8]) -> (r: Result<Option<Timestamp>, Error>)
    ensures
        r == spec_read_timestamp(offset, table@),
{
    match offset {
        None => Ok(None),
        Some(o) => {
            if o > usize::MAX as u64 {
                return Err(Error::OffsetOverflow);
            }
            let start: usize = o as usize;
            let end: usize = match start.checked_add(8) {
                Some(end) => end,
                None => {
                    return Err(Error::OffsetOverflow);
                },
            };
            if end > table.len() {
                return Err(Error::BufferUnderflow);
            }
            match read_i64(slice_subrange(table, start, end)) {
                Ok(t) => Ok(Some(Timestamp(t))),
                Err(e) => Err(e),
            }
        },
    }
}

/// An entry for one component across many entities: `len` arrays of the
/// same shape, one after the other in the payload.
#[derive(Clone, Copy, Debug, PartialEq, Eq)]
pub struct ColumnEntry {
    pub len: u64,
    pub component_id: ComponentId,
    pub entity_ids_entry: BufEntry<EntityId>,
    pub data_col_offset: u64,
    pub shape_entry: ShapeEntry,
    pub timestamp_offset: Option<u64>,
}

impl ColumnEntry {
    /// The cell of the `i`-th entity: the array that starts `i` array sizes
    /// behind the column's offset.
    pub open spec fn spec_cell(
        &self,
        shape: Seq<u64>,
        arr_size: nat,
        ids: Seq<EntityId>,
        timestamp: Option<Timestamp>,
        table: Seq<u8>,
        i: int,
    ) -> Result<Cell, Error> {
        let offset = i * arr_size + self.data_col_offset;
        if offset > usize::MAX {
            Err(Error::OffsetOverflow)
        } else if offset > table.len() {
            Err(Error::BufferUnderflow)
        } else {
            match spec_view_of(tail(table, offset), shape, self.shape_entry.prim_type) {
                Ok(value) => Ok(
                    Cell { component_id: self.component_id, entity_id: ids[i], value, timestamp },
                ),
                Err(e) => Err(e),
            }
        }
    }

    /// What decoding the first `k` entities yields.
    pub open spec fn spec_cells(
        &self,
        shape: Seq<u64>,
        arr_size: nat,
        ids: Seq<EntityId>,
        timestamp: Option<Timestamp>,
        table: Seq<u8>,
        k: nat,
    ) -> Decoded
        decreases k,
    {
        if k == 0 {
            Decoded::empty()
        } else {
            let prev = self.spec_cells(shape, arr_size, ids, timestamp, table, (k - 1) as nat);
            if prev.error is Some {
                prev
            } else {
                match self.spec_cell(shape, arr_size, ids, timestamp, table, k - 1) {
                    Ok(cell) => Decoded { cells: prev.cells.push(cell), error: None },
                    Err(e) => Decoded { cells: prev.cells, error: Some(e) },
                }
            }
        }
    }

    /// What decoding this entry yields, on memory that is aligned for every
    /// cast.
    pub open spec fn spec_parse_table(&self, vdata: Seq<u8>, table: Seq<u8>) -> Decoded {
        match self.shape_entry.spec_parse_shape(vdata) {
            Err(e) => Decoded::fail(e),
            Ok(shape) => match spec_arr_len(shape) {
                None => Decoded::fail(Error::OffsetOverflow),
                Some(n) => if self.len > usize::MAX {
                    Decoded::fail(Error::OffsetOverflow)
                } else {
                    match spec_parse_records::<EntityId>(
                        self.entity_ids_entry.offset,
                        vdata,
                        self.len as nat,
                    ) {
                        Err(e) => Decoded::fail(e),
                        Ok(ids) => match spec_read_timestamp(self.timestamp_offset, table) {
                            Err(e) => Decoded::fail(e),
                            Ok(timestamp) => self.spec_cells(
                                shape,
                                n * (self.shape_entry.prim_type.spec_size() as nat),
                                ids,
                                timestamp,
                                table,
                                self.len as nat,
                            ),
                        },
                    }
                },
            },
        }
    }

    /// Decoding more entities only adds to what was decoded, and nothing
    /// once an error has occurred.
    pub proof fn lemma_cells_prefix(
        &self,
        shape: Seq<u64>,
        arr_size: nat,
        ids: Seq<EntityId>,
        timestamp: Option<Timestamp>,
        table: Seq<u8>,
        i: nat,
        k: nat,
    )
        requires
            i <= k,
        ensures
            ({
                let a = self.spec_cells(shape, arr_size, ids, timestamp, table, i);
                let b = self.spec_cells(shape, arr_size, ids, timestamp, table, k);
                &&& a.error is Some ==> b == a
                &&& a.error is None ==> a.cells.len() == i && b.cells.len() >= i && b.cells.take(
                    i as int,
                ) == a.cells
            }),
        decreases k,
    {
        let a = self.spec_cells(shape, arr_size, ids, timestamp, table, i);
        let b = self.spec_cells(shape, arr_size, ids, timestamp, table, k);
        if i == k {
            if i > 0 {
                self.lemma_cells_prefix(shape, arr_size, ids, timestamp, table, (i - 1) as nat, (i - 1) as nat);
            }
            if a.error is None {
                assert(a.cells.take(i as int) == a.cells);
            }
        } else {
            self.lemma_cells_prefix(shape, arr_size, ids, timestamp, table, i, (k - 1) as nat);
            let p = self.spec_cells(shape, arr_size, ids, timestamp, table, (k - 1) as nat);
            if a.error is None {
                if p.error is None {
                    self.lemma_cells_prefix(shape, arr_size, ids, timestamp, table, (k - 1) as nat, (k - 1) as nat);
                }
                assert(b.cells.take(i as int) == p.cells.take(i as int));
            }
        }
    }

    /// Whether decoding this entry against `vdata` comes to its first
    /// cast, that of the shape: only then can misaligned memory be met.
    pub open spec fn reaches_cast(&self, vdata: Seq<u8>) -> bool {
        self.shape_entry.shape_offset <= vdata.len() && self.shape_entry.rank <= usize::MAX
    }

    /// Decodes the arrays of this column from `table` and hands each to
    /// `sink`, in the order of the entity ids.
    ///
    /// What is decoded and which error ends it is what
    /// [`ColumnEntry::spec_parse_table`] says. The one exception is
    /// [`Error::Alignment`], which a cast may report in place of its
    /// result; it cannot come before the first cast is reached. Before
    /// that, a shape offset or a rank beyond the range of `usize` gives
    /// [`Error::OffsetOverflow`] and a shape offset behind the auxiliary
    /// data [`Error::BufferUnderflow`], and the sink is left as it is. From
    /// the first cast on, each array goes through [`deliver_cell`].
    #[verifier::rlimit(30)]
    pub fn parse_table<S: Decomponentize>(&self, vdata: &[u8], table: &[u8], sink: &mut S) -> (r:
        Result<(), Error>)
        ensures
            sink_outcome::<S>(
                old(sink).state(),
                final(sink).state(),
                self.spec_parse_table(vdata@, table@),
                r,
            ),
            r == Err::<(), Error>(Error::Alignment) ==> self.reaches_cast(vdata@),
            !self.reaches_cast(vdata@) ==> final(sink).state() == old(sink).state() && r == Err::<
                (),
                Error,
            >(
                if self.shape_entry.shape_offset > usize::MAX || self.shape_entry.rank > usize::MAX {
                    Error::OffsetOverflow
                } else {
                    Error::BufferUnderflow
                },
            ),
    {
        let ghost before = sink.state();
        let ghost decoded = self.spec_parse_table(vdata@, table@);
        proof {
            assert(decoded.cells.take(0) == Seq::<Cell>::empty());
        }
        let shape = match self.shape_entry.parse_shape(vdata) {
            Ok(shape) => shape,
            Err(e) => {
                return Err(e);
            },
        };
        let count: usize = match arr_len(shape) {
            Ok(count) => count,
            Err(e) => {
                return Err(e);
            },
        };
        let prim_type = self.shape_entry.prim_type;
        let size: usize = prim_type.size();
        let checked_size: Option<usize> = count.checked_mul(size);
        let ghost arr_size: nat = (count * size) as nat;
        if self.len > usize::MAX as u64 {
            return Err(Error::OffsetOverflow);
        }
        let len: usize = self.len as usize;
        let entity_ids = match self.entity_ids_entry.parse(vdata, len) {
            Ok(ids) => ids,
            Err(e) => {
                return Err(e);
            },
        };
        let timestamp = match read_timestamp(self.timestamp_offset, table) {
            Ok(timestamp) => timestamp,
            Err(e) => {
                return Err(e);
            },
        };
        let mut i: usize = 0;
        while i < len
            invariant
                i <= len,
                len == entity_ids@.len(),
                before == old(sink).state(),
                decoded == self.spec_parse_table(vdata@, table@),
                self.reaches_cast(vdata@),
                prim_type == self.shape_entry.prim_type,
                spec_arr_len(shape@) == Some(count as nat),
                arr_size == count * prim_type.spec_size(),
                match checked_size {
                    Some(fits) => fits == arr_size,
                    None => arr_size > usize::MAX,
                },
                decoded == self.spec_cells(shape@, arr_size as nat, entity_ids@, timestamp, table@, len as nat),
                self.spec_cells(shape@, arr_size as nat, entity_ids@, timestamp, table@, i as nat).error is None,
                sink.state() == deliver::<S>(
                    before,
                    self.spec_cells(shape@, arr_size as nat, entity_ids@, timestamp, table@, i as nat).cells,
                ),
            decreases len - i,
        {
            let ghost done = self.spec_cells(shape@, arr_size as nat, entity_ids@, timestamp, table@, i as nat);
            let ghost next = self.spec_cells(shape@, arr_size as nat, entity_ids@, timestamp, table@, (i + 1) as nat);
            proof {
                self.lemma_cells_prefix(shape@, arr_size as nat, entity_ids@, timestamp, table@, i as nat, len as nat);
                self.lemma_cells_prefix(shape@, arr_size as nat, entity_ids@, timestamp, table@, (i + 1) as nat, len as nat);
                assert(i * arr_size >= 0) by (nonlinear_arith);
                assert(decoded.cells.take(i as int) == done.cells);
                assert(next.error is Some ==> decoded == next && next.cells == done.cells);
            }
            if self.data_col_offset > usize::MAX as u64 {
                return Err(Error::OffsetOverflow);
            }
            let skip: Option<usize> = if i == 0 {
                Some(0)
            } else {
                proof {
                    assert(i * arr_size >= arr_size) by (nonlinear_arith)
                        requires
                            i >= 1,
                            arr_size >= 0,
                    ;
                }
                match checked_size {
                    Some(fits) => i.checked_mul(fits),
                    None => None,
                }
            };
            let arr_offset: usize = match skip {
                Some(skip) => match skip.checked_add(self.data_col_offset as usize) {
                    Some(arr_offset) => arr_offset,
                    None => {
                        return Err(Error::OffsetOverflow);
                    },
                },
                None => {
                    return Err(Error::OffsetOverflow);
                },
            };
            if arr_offset > table.len() {
                return Err(Error::BufferUnderflow);
            }
            let arr_data = slice_subrange(table, arr_offset, table.len());
            let cast = ComponentView::try_from_bytes_shape(arr_data, shape, prim_type);
            match deliver_cell(self.component_id, entity_ids[i], timestamp, cast, sink) {
                Ok(()) => {},
                Err(e) => {
                    return Err(e);
                },
            }
            proof {
                lemma_deliver_push::<S>(before, done.cells, next.cells.last());
                assert(next.cells == done.cells.push(next.cells.last()));
            }
            i += 1;
        }
        Ok(())
    }
}

/// An entry for one entity across many components: `len` arrays, each of
/// its own type and shape, packed one after the other in the payload
/// without padding between them.
#[derive(Clone, Copy, Debug, PartialEq, Eq)]
pub struct RowEntry {
    pub len: u64,
    pub entity_id: EntityId,
    pub component_ids_entry: BufEntry<ComponentId>,
    pub shapes_entry: BufEntry<ShapeEntry>,
    pub data_col_offset: u64,
    pub timestamp_offset: Option<u64>,
}

/// What decoding the first components of a row has yielded, and the offset
/// in the payload at which the next component starts.
pub struct RowProgress {
    pub decoded: Decoded,
    pub cursor: nat,
}

impl RowEntry {
    /// The cell of one component whose array starts at `cursor`, and the
    /// size of that array in bytes.
    pub open spec fn spec_cell(
        &self,
        cursor: nat,
        component_id: ComponentId,
        shape_entry: ShapeEntry,
        timestamp: Option<Timestamp>,
        vdata: Seq<u8>,
        table: Seq<u8>,
    ) -> Result<(Cell, nat), Error> {
        match shape_entry.spec_parse_shape(vdata) {
            Err(e) => Err(e),
            Ok(shape) => match spec_arr_len(shape) {
                None => Err(Error::OffsetOverflow),
                Some(n) => if n * shape_entry.prim_type.spec_size() > usize::MAX {
                    Err(Error::OffsetOverflow)
                } else if cursor > table.len() {
                    Err(Error::BufferUnderflow)
                } else {
                    match spec_view_of(tail(table, cursor as int), shape, shape_entry.prim_type) {
                        Ok(value) => Ok(
                            (
                                Cell { component_id, entity_id: self.entity_id, value, timestamp },
                                n * (shape_entry.prim_type.spec_size() as nat),
                            ),
                        ),
                        Err(e) => Err(e),
                    }
                },
            },
        }
    }

    /// What decoding the first `k` components yields.
    pub open spec fn spec_cells(
        &self,
        ids: Seq<ComponentId>,
        shapes: Seq<ShapeEntry>,
        timestamp: Option<Timestamp>,
        vdata: Seq<u8>,
        table: Seq<u8>,
        k: nat,
    ) -> RowProgress
        decreases k,
    {
        if k == 0 {
            RowProgress { decoded: Decoded::empty(), cursor: self.data_col_offset as nat }
        } else {
            let prev = self.spec_cells(ids, shapes, timestamp, vdata, table, (k - 1) as nat);
            if prev.decoded.error is Some {
                prev
            } else {
                match self.spec_cell(prev.cursor, ids[k - 1], shapes[k - 1], timestamp, vdata, table) {
                    Ok((cell, size)) => RowProgress {
                        decoded: Decoded { cells: prev.decoded.cells.push(cell), error: None },
                        cursor: prev.cursor + size,
                    },
                    Err(e) => RowProgress {
                        decoded: Decoded { cells: prev.decoded.cells, error: Some(e) },
                        cursor: prev.cursor,
                    },
                }
            }
        }
    }

    /// What decoding this entry yields, on memory that is aligned for every
    /// cast.
    pub open spec fn spec_parse_table(&self, vdata: Seq<u8>, table: Seq<u8>) -> Decoded {
        if self.len > usize::MAX {
            Decoded::fail(Error::OffsetOverflow)
        } else {
            match spec_parse_records::<ComponentId>(
                self.component_ids_entry.offset,
                vdata,
                self.len as nat,
            ) {
                Err(e) => Decoded::fail(e),
                Ok(ids) => match spec_parse_records::<ShapeEntry>(
                    self.shapes_entry.offset,
                    vdata,
                    self.len as nat,
                ) {
                    Err(e) => Decoded::fail(e),
                    Ok(shapes) => if self.data_col_offset > usize::MAX {
                        Decoded::fail(Error::OffsetOverflow)
                    } else {
                        match spec_read_timestamp(self.timestamp_offset, table) {
                            Err(e) => Decoded::fail(e),
                            Ok(timestamp) => self.spec_cells(
                                ids,
                                shapes,
                                timestamp,
                                vdata,
                                table,
                                self.len as nat,
                            ).decoded,
                        }
                    },
                },
            }
        }
    }

    /// Decoding more components only adds to what was decoded, and nothing
    /// once an error has occurred.
    pub proof fn lemma_cells_prefix(
        &self,
        ids: Seq<ComponentId>,
        shapes: Seq<ShapeEntry>,
        timestamp: Option<Timestamp>,
        vdata: Seq<u8>,
        table: Seq<u8>,
        i: nat,
        k: nat,
    )
        requires
            i <= k,
        ensures
            ({
                let a = self.spec_cells(ids, shapes, timestamp, vdata, table, i);
                let b = self.spec_cells(ids, shapes, timestamp, vdata, table, k);
                &&& a.decoded.error is Some ==> b == a
                &&& a.decoded.error is None ==> a.decoded.cells.len() == i && b.decoded.cells.len()
                    >= i && b.decoded.cells.take(i as int) == a.decoded.cells
            }),
        decreases k,
    {
        let a = self.spec_cells(ids, shapes, timestamp, vdata, table, i);
        let b = self.spec_cells(ids, shapes, timestamp, vdata, table, k);
        if i == k {
            if i > 0 {
                self.lemma_cells_prefix(ids, shapes, timestamp, vdata, table, (i - 1) as nat, (i - 1) as nat);
            }
            if a.decoded.error is None {
                assert(a.decoded.cells.take(i as int) == a.decoded.cells);
            }
        } else {
            self.lemma_cells_prefix(ids, shapes, timestamp, vdata, table, i, (k - 1) as nat);
            let p = self.spec_cells(ids, shapes, timestamp, vdata, table, (k - 1) as nat);
            if a.decoded.error is None {
                if p.decoded.error is None {
                    self.lemma_cells_prefix(ids, shapes, timestamp, vdata, table, (k - 1) as nat, (k - 1) as nat);
                }
                assert(b.decoded.cells.take(i as int) == p.decoded.cells.take(i as int));
            }
        }
    }

    /// Whether decoding this entry against `vdata` comes to its first
    /// cast, that of the component ids: only then can misaligned memory be
    /// met.
    pub open spec fn reaches_cast(&self, vdata: Seq<u8>) -> bool {
        self.len <= usize::MAX && self.component_ids_entry.offset <= vdata.len()
    }

    /// Decodes the arrays of this row from `table` and hands each to `sink`,
    /// in the order of the component ids.
    ///
    /// What is decoded and which error ends it is what
    /// [`RowEntry::spec_parse_table`] says. The one exception is
    /// [`Error::Alignment`], which a cast may report in place of its
    /// result; it cannot come before the first cast is reached. Before
    /// that, a number of components or an offset of the component ids
    /// beyond the range of `usize` gives [`Error::OffsetOverflow`] and an
    /// offset behind the auxiliary data [`Error::BufferUnderflow`], and the
    /// sink is left as it is. From the first cast on, each array goes
    /// through [`deliver_cell`].
    #[verifier::rlimit(30)]
    pub fn parse_table<S: Decomponentize>(&self, vdata: &[u8], table: &[u8], sink: &mut S) -> (r:
        Result<(), Error>)
        ensures
            sink_outcome::<S>(
                old(sink).state(),
                final(sink).state(),
                self.spec_parse_table(vdata@, table@),
                r,
            ),
            r == Err::<(), Error>(Error::Alignment) ==> self.reaches_cast(vdata@),
            !self.reaches_cast(vdata@) ==> final(sink).state() == old(sink).state() && r == Err::<
                (),
                Error,
            >(
                if self.len > usize::MAX || self.component_ids_entry.offset > usize::MAX {
                    Error::OffsetOverflow
                } else {
                    Error::BufferUnderflow
                },
            ),
    {
        let ghost before = sink.state();
        let ghost decoded = self.spec_parse_table(vdata@, table@);
        proof {
            assert(decoded.cells.take(0) == Seq::<Cell>::empty());
        }
        if self.len > usize::MAX as u64 {
            return Err(Error::OffsetOverflow);
        }
        let len: usize = self.len as usize;
        let component_ids = match self.component_ids_entry.parse(vdata, len) {
            Ok(ids) => ids,
            Err(e) => {
                return Err(e);
            },
        };
        let shapes = match self.shapes_entry.parse(vdata, len) {
            Ok(shapes) => shapes,
            Err(e) => {
                return Err(e);
            },
        };
        if self.data_col_offset > usize::MAX as u64 {
            return Err(Error::OffsetOverflow);
        }
        let mut arr_offset: usize = self.data_col_offset as usize;
        let timestamp = match read_timestamp(self.timestamp_offset, table) {
            Ok(timestamp) => timestamp,
            Err(e) => {
                return Err(e);
            },
        };
        let mut i: usize = 0;
        while i < len
            invariant
                i <= len,
                len == component_ids@.len(),
                len == shapes@.len(),
                self.reaches_cast(vdata@),
                before == old(sink).state(),
                decoded == self.spec_parse_table(vdata@, table@),
                decoded == self.spec_cells(component_ids@, shapes@, timestamp, vdata@, table@, len as nat).decoded,
                self.spec_cells(component_ids@, shapes@, timestamp, vdata@, table@, i as nat).decoded.error is None,
                self.spec_cells(component_ids@, shapes@, timestamp, vdata@, table@, i as nat).cursor == arr_offset,
                sink.state() == deliver::<S>(
                    before,
                    self.spec_cells(component_ids@, shapes@, timestamp, vdata@, table@, i as nat).decoded.cells,
                ),
            decreases len - i,
        {
            let ghost done = self.spec_cells(component_ids@, shapes@, timestamp, vdata@, table@, i as nat);
            let ghost next = self.spec_cells(component_ids@, shapes@, timestamp, vdata@, table@, (i + 1) as nat);
            proof {
                self.lemma_cells_prefix(component_ids@, shapes@, timestamp, vdata@, table@, i as nat, len as nat);
                self.lemma_cells_prefix(component_ids@, shapes@, timestamp, vdata@, table@, (i + 1) as nat, len as nat);
                assert(decoded.cells.take(i as int) == done.decoded.cells);
                assert(next.decoded.error is Some ==> decoded == next.decoded && next.decoded.cells
                    == done.decoded.cells);
            }
            let shape_entry = shapes[i];
            let shape = match shape_entry.parse_shape(vdata) {
                Ok(shape) => shape,
                Err(e) => {
                    return Err(e);
                },
            };
            let count: usize = match arr_len(shape) {
                Ok(count) => count,
                Err(e) => {
                    return Err(e);
                },
            };
            let arr_size: usize = match count.checked_mul(shape_entry.prim_type.size()) {
                Some(arr_size) => arr_size,
                None => {
                    return Err(Error::OffsetOverflow);
                },
            };
            if arr_offset > table.len() {
                return Err(Error::BufferUnderflow);
            }
            let arr_data = slice_subrange(table, arr_offset, table.len());
            let cast = ComponentView::try_from_bytes_shape(arr_data, shape, shape_entry.prim_type);
            match deliver_cell(component_ids[i], self.entity_id, timestamp, cast, sink) {
                Ok(()) => {},
                Err(e) => {
                    return Err(e);
                },
            }
            proof {
                lemma_deliver_push::<S>(before, done.decoded.cells, next.decoded.cells.last());
                assert(next.decoded.cells == done.decoded.cells.push(next.decoded.cells.last()));
            }
            arr_offset = arr_offset + arr_size;
            i += 1;
        }
        Ok(())
    }
}

/// An opaque range of bytes of the payload, tagged with a number.
#[derive(Clone, Copy, Debug, PartialEq, Eq)]
pub struct MetadataEntry {
    pub id: u64,
    pub len: u64,
    pub offset: u64,
}

/// One record of a descriptor.
#[derive(Clone, Copy, Debug, PartialEq, Eq)]
pub enum Entry {
    Column(ColumnEntry),
    Entity(RowEntry),
    Metadata(MetadataEntry),
}

impl Entry {
    /// Whether decoding this entry against `vdata` comes to a cast. A
    /// metadata entry is passed over and comes to none.
    pub open spec fn reaches_cast(&self, vdata: Seq<u8>) -> bool {
        match self {
            Entry::Column(col) => col.reaches_cast(vdata),
            Entry::Entity(row) => row.reaches_cast(vdata),
            Entry::Metadata(_) => false,
        }
    }

    /// What decoding this entry yields, on memory that is aligned for every
    /// cast. A metadata entry holds no component data and yields nothing.
    pub open spec fn spec_parse_table(&self, vdata: Seq<u8>, table: Seq<u8>) -> Decoded {
        match self {
            Entry::Column(col) => col.spec_parse_table(vdata, table),
            Entry::Entity(row) => row.spec_parse_table(vdata, table),
            Entry::Metadata(_) => Decoded::empty(),
        }
    }
}

/// Whether `e` is an error that no decoding of aligned memory ends in.
pub open spec fn unforeseen(e: Error) -> bool {
    e == Error::VTableNotFound || e == Error::Alignment
}

impl ColumnEntry {
    /// Decoding the first `k` entities never ends in an error that is not
    /// foreseen.
    pub proof fn lemma_cells_foreseen(
        &self,
        shape: Seq<u64>,
        arr_size: nat,
        ids: Seq<EntityId>,
        timestamp: Option<Timestamp>,
        table: Seq<u8>,
        k: nat,
    )
        ensures
            self.spec_cells(shape, arr_size, ids, timestamp, table, k).error matches Some(e)
                ==> !unforeseen(e),
        decreases k,
    {
        if k > 0 {
            self.lemma_cells_foreseen(shape, arr_size, ids, timestamp, table, (k - 1) as nat);
        }
    }

    /// Decoding this entry never ends in an error that is not foreseen.
    pub proof fn lemma_never_not_found(&self, vdata: Seq<u8>, table: Seq<u8>)
        ensures
            self.spec_parse_table(vdata, table).error matches Some(e) ==> !unforeseen(e),
    {
        match self.shape_entry.spec_parse_shape(vdata) {
            Ok(shape) => match spec_arr_len(shape) {
                Some(n) => {
                    let ids = spec_parse_records::<EntityId>(
                        self.entity_ids_entry.offset,
                        vdata,
                        self.len as nat,
                    );
                    let timestamp = spec_read_timestamp(self.timestamp_offset, table);
                    if ids is Ok && timestamp is Ok {
                        self.lemma_cells_foreseen(
                            shape,
                            n * (self.shape_entry.prim_type.spec_size() as nat),
                            ids->Ok_0,
                            timestamp->Ok_0,
                            table,
                            self.len as nat,
                        );
                    }
                },
                None => {},
            },
            Err(_) => {},
        }
    }
}

impl RowEntry {
    /// Decoding the first `k` components never ends in an error that is
    /// not foreseen.
    pub proof fn lemma_cells_foreseen(
        &self,
        ids: Seq<ComponentId>,
        shapes: Seq<ShapeEntry>,
        timestamp: Option<Timestamp>,
        vdata: Seq<u8>,
        table: Seq<u8>,
        k: nat,
    )
        ensures
            self.spec_cells(ids, shapes, timestamp, vdata, table, k).decoded.error matches Some(e)
                ==> !unforeseen(e),
        decreases k,
    {
        if k > 0 {
            self.lemma_cells_foreseen(ids, shapes, timestamp, vdata, table, (k - 1) as nat);
        }
    }

    /// Decoding this entry never ends in an error that is not foreseen.
    pub proof fn lemma_never_not_found(&self, vdata: Seq<u8>, table: Seq<u8>)
        ensures
            self.spec_parse_table(vdata, table).error matches Some(e) ==> !unforeseen(e),
    {
        let ids = spec_parse_records::<ComponentId>(
            self.component_ids_entry.offset,
            vdata,
            self.len as nat,
        );
        let shapes = spec_parse_records::<ShapeEntry>(self.shapes_entry.offset, vdata, self.len as nat);
        let timestamp = spec_read_timestamp(self.timestamp_offset, table);
        if ids is Ok && shapes is Ok && timestamp is Ok {
            self.lemma_cells_foreseen(
                ids->Ok_0,
                shapes->Ok_0,
                timestamp->Ok_0,
                vdata,
                table,
                self.len as nat,
            );
        }
    }
}

/// What decoding the first `k` of `entries` yields, one entry after the
/// other, up to the first error.
pub open spec fn spec_decode(entries: Seq<Entry>, vdata: Seq<u8>, table: Seq<u8>, k: nat) -> Decoded
    decreases k,
{
    if k == 0 {
        Decoded::empty()
    } else {
        spec_decode(entries, vdata, table, (k - 1) as nat).followed_by(
            entries[k - 1].spec_parse_table(vdata, table),
        )
    }
}

/// Decoding more entries only adds to what was decoded, and nothing once an
/// error has occurred.
pub proof fn lemma_decode_prefix(entries: Seq<Entry>, vdata: Seq<u8>, table: Seq<u8>, i: nat, k: nat)
    requires
        i <= k,
    ensures
        ({
            let a = spec_decode(entries, vdata, table, i);
            let b = spec_decode(entries, vdata, table, k);
            &&& a.error is Some ==> b == a
            &&& a.cells.len() <= b.cells.len()
            &&& b.cells.take(a.cells.len() as int) == a.cells
        }),
    decreases k,
{
    let a = spec_decode(entries, vdata, table, i);
    let b = spec_decode(entries, vdata, table, k);
    if i == k {
        assert(a.cells.take(a.cells.len() as int) == a.cells);
    } else {
        lemma_decode_prefix(entries, vdata, table, i, (k - 1) as nat);
        let p = spec_decode(entries, vdata, table, (k - 1) as nat);
        assert(b.cells.take(a.cells.len() as int) == p.cells.take(a.cells.len() as int));
    }
}

/// Whether all of `entries` are metadata entries.
pub open spec fn metadata_only(entries: Seq<Entry>) -> bool {
    forall|i: int| 0 <= i < entries.len() ==> (#[trigger] entries[i]) is Metadata
}

/// A descriptor of metadata entries only decodes to nothing, without error.
pub proof fn lemma_decode_metadata_only(entries: Seq<Entry>, vdata: Seq<u8>, table: Seq<u8>, k: nat)
    requires
        k <= entries.len(),
        metadata_only(entries),
    ensures
        spec_decode(entries, vdata, table, k) == Decoded::empty(),
    decreases k,
{
    if k > 0 {
        lemma_decode_metadata_only(entries, vdata, table, (k - 1) as nat);
        assert(entries[k - 1] is Metadata);
        assert(Seq::<Cell>::empty() + Seq::<Cell>::empty() =~= Seq::<Cell>::empty());
    }
}

/// Decoding never ends in [`Error::VTableNotFound`] or
/// [`Error::Alignment`]: the first is for a payload without a descriptor,
/// the second depends on where the bytes lie in memory.
pub proof fn lemma_decode_never_not_found(entries: Seq<Entry>, vdata: Seq<u8>, table: Seq<u8>, k: nat)
    requires
        k <= entries.len(),
    ensures
        spec_decode(entries, vdata, table, k).error != Some(Error::VTableNotFound),
        spec_decode(entries, vdata, table, k).error != Some(Error::Alignment),
    decreases k,
{
    if k > 0 {
        lemma_decode_never_not_found(entries, vdata, table, (k - 1) as nat);
        match entries[k - 1] {
            Entry::Column(col) => {
                col.lemma_never_not_found(vdata, table);
            },
            Entry::Entity(row) => {
                row.lemma_never_not_found(vdata, table);
            },
            Entry::Metadata(_) => {},
        }
    }
}

/// The metadata that the first `k` of `entries` point at in `table`: for
/// each metadata entry whose range lies in `table`, its id and its bytes.
pub open spec fn spec_metadata(entries: Seq<Entry>, table: Seq<u8>, k: nat) -> Seq<(u64, Seq<u8>)>
    decreases k,
{
    if k == 0 {
        Seq::empty()
    } else {
        let prev = spec_metadata(entries, table, (k - 1) as nat);
        match entries[k - 1] {
            Entry::Metadata(m) => if m.offset + m.len <= table.len() {
                prev.push((m.id, table.subrange(m.offset as int, m.offset + m.len)))
            } else {
                prev
            },
            _ => prev,
        }
    }
}

/// A descriptor of table payloads: the entries, and the auxiliary data that
/// holds what the entries point at. It never holds component values.
pub struct VTable<EntryBuf: Buf<Entry>, DataBuf: Buf<u8>> {
    pub entries: EntryBuf,
    data: DataBuf,
}

/// What a [`VTable`] holds.
pub struct VTableView {
    pub entries: Seq<Entry>,
    pub data: Seq<u8>,
}

impl<EntryBuf: Buf<Entry>, DataBuf: Buf<u8>> View for VTable<EntryBuf, DataBuf> {
    type V = VTableView;

    closed spec fn view(&self) -> VTableView {
        VTableView { entries: self.entries.elems(), data: self.data.elems() }
    }
}

impl VTableView {
    /// What decoding `table` against this descriptor yields, on memory that
    /// is aligned for every cast.
    pub open spec fn spec_parse_table(self, table: Seq<u8>) -> Decoded {
        spec_decode(self.entries, self.data, table, self.entries.len())
    }

    /// The metadata that this descriptor points at in `table`.
    pub open spec fn spec_parse_metadata(self, table: Seq<u8>) -> Seq<(u64, Seq<u8>)> {
        spec_metadata(self.entries, table, self.entries.len())
    }
}

impl<EntryBuf: Buf<Entry>, DataBuf: Buf<u8>> VTable<EntryBuf, DataBuf> {
    /// A descriptor of the given parts.
    pub fn from_parts(entries: EntryBuf, data: DataBuf) -> (vtable: Self)
        ensures
            vtable@ == (VTableView { entries: entries.elems(), data: data.elems() }),
    {
        VTable { entries, data }
    }

    /// The entries.
    pub fn entries(&self) -> (entries: &[Entry])
        ensures
            entries@ == self@.entries,
    {
        self.entries.as_slice()
    }

    /// The auxiliary data.
    pub fn data(&self) -> (data: &[u8])
        ensures
            data@ == self@.data,
    {
        self.data.as_slice()
    }

    /// Decodes `table` against this descriptor and hands every value to
    /// `sink`: entry by entry, and within an entry in the order of its ids.
    /// The first error ends the decoding; what the sink has accepted by
    /// then stays accepted. Metadata entries are passed over.
    ///
    /// What is decoded and which error ends it is what
    /// [`VTableView::spec_parse_table`] says. The one exception is
    /// [`Error::Alignment`], which a cast may report in place of its
    /// result; it comes only where an entry reaches a cast. A descriptor
    /// of metadata entries only, or of none, is decoded without error to
    /// nothing.
    #[verifier::rlimit(30)]
    pub fn parse_table<S: Decomponentize>(&self, table: &[u8], sink: &mut S) -> (r: Result<(), Error>)
        ensures
            sink_outcome::<S>(
                old(sink).state(),
                final(sink).state(),
                self@.spec_parse_table(table@),
                r,
            ),
            r == Err::<(), Error>(Error::Alignment) ==> exists|i: int|
                0 <= i < self@.entries.len() && (#[trigger] self@.entries[i]).reaches_cast(self@.data),
            metadata_only(self@.entries) ==> r is Ok && final(sink).state() == old(sink).state(),
    {
        let data = self.data.as_slice();
        let entries = self.entries.as_slice();
        let ghost before = sink.state();
        let ghost total = self@.spec_parse_table(table@);
        let mut i: usize = 0;
        while i < entries.len()
            invariant
                i <= entries@.len(),
                entries@ == self@.entries,
                data@ == self@.data,
                before == old(sink).state(),
                total == spec_decode(entries@, data@, table@, entries@.len()),
                total == self@.spec_parse_table(table@),
                spec_decode(entries@, data@, table@, i as nat).error is None,
                sink.state() == deliver::<S>(before, spec_decode(entries@, data@, table@, i as nat).cells),
            decreases entries@.len() - i,
        {
            let ghost done = spec_decode(entries@, data@, table@, i as nat);
            let ghost next = spec_decode(entries@, data@, table@, (i + 1) as nat);
            let ghost part = entries@[i as int].spec_parse_table(data@, table@);
            let ghost mid = sink.state();
            let r = match &entries[i] {
                Entry::Column(col) => col.parse_table(data, table, sink),
                Entry::Entity(row) => row.parse_table(data, table, sink),
                Entry::Metadata(_) => Ok(()),
            };
            proof {
                lemma_decode_prefix(entries@, data@, table@, (i + 1) as nat, entries@.len());
                assert(next.cells == done.cells + part.cells);
                lemma_deliver_concat::<S>(before, done.cells, part.cells);
                if r is Err && !(part.error == Some(r->Err_0) && sink.state() == deliver::<S>(mid, part.cells)) {
                    let k = choose|k: int|
                        0 <= k <= part.cells.len() && sink.state() == deliver::<S>(
                            mid,
                            #[trigger] part.cells.take(k),
                        );
                    lemma_deliver_concat::<S>(before, done.cells, part.cells.take(k));
                    assert(total.cells.take(done.cells.len() + k) == done.cells + part.cells.take(k)) by {
                        assert(total.cells.take(next.cells.len() as int) == next.cells);
                        assert(total.cells.take(done.cells.len() + k) =~= next.cells.take(
                            done.cells.len() + k,
                        ));
                        assert(next.cells.take(done.cells.len() + k) =~= done.cells + part.cells.take(k));
                    }
                }
            }
            match r {
                Ok(()) => {},
                Err(e) => {
                    assert(!(entries@[i as int] is Metadata));
                    assert(e == Error::Alignment ==> entries@[i as int].reaches_cast(data@));
                    return Err(e);
                },
            }
            i += 1;
        }
        proof {
            if metadata_only(entries@) {
                lemma_decode_metadata_only(entries@, data@, table@, entries@.len());
            }
        }
        Ok(())
    }

    /// The metadata that this descriptor points at in `table`: for each
    /// metadata entry whose range lies in `table`, in the order of the
    /// entries, its id and its bytes.
    pub fn parse_metadata<'a>(&'a self, table: &'a [u8]) -> (r: Vec<(u64, &'a [u8])>)
        ensures
            r@.len() == self@.spec_parse_metadata(table@).len(),
            forall|i: int|
                0 <= i < r@.len() ==> (#[trigger] r@[i]).0 == self@.spec_parse_metadata(table@)[i].0
                    && r@[i].1@ == self@.spec_parse_metadata(table@)[i].1,
    {
        let entries = self.entries.as_slice();
        let table_len: usize = table.len();
        let mut found: Vec<(u64, &'a [u8])> = Vec::new();
        let mut i: usize = 0;
        while i < entries.len()
            invariant
                i <= entries@.len(),
                entries@ == self@.entries,
                table_len == table@.len(),
                found@.len() == spec_metadata(entries@, table@, i as nat).len(),
                forall|j: int|
                    0 <= j < found@.len() ==> (#[trigger] found@[j]).0 == spec_metadata(
                        entries@,
                        table@,
                        i as nat,
                    )[j].0 && found@[j].1@ == spec_metadata(entries@, table@, i as nat)[j].1,
            decreases entries@.len() - i,
        {
            let ghost prev = spec_metadata(entries@, table@, i as nat);
            let ghost next = spec_metadata(entries@, table@, (i + 1) as nat);
            match entries[i] {
                Entry::Metadata(m) => {
                    assert(entries@[i as int] == Entry::Metadata(m));
                    if m.offset <= usize::MAX as u64 && m.len <= usize::MAX as u64 && m.offset as usize
                        <= table_len && m.len as usize <= table_len - m.offset as usize {
                        let offset: usize = m.offset as usize;
                        let len: usize = m.len as usize;
                        found.push((m.id, slice_subrange(table, offset, offset + len)));
                        assert(next == prev.push((m.id, table@.subrange(m.offset as int, m.offset + m.len))));
                    } else {
                        assert(m.offset + m.len > table@.len());
                        assert(next == prev);
                    }
                },
                Entry::Column(c) => {
                    assert(entries@[i as int] == Entry::Column(c));
                    assert(next == prev);
                },
                Entry::Entity(e) => {
                    assert(entries@[i as int] == Entry::Entity(e));
                    assert(next == prev);
                },
            }
            i += 1;
        }
        found
    }
}

/// What a [`VTableBuilder`] holds: the descriptor built so far, and the
/// length of the payload that its entries lay out.
pub struct BuilderView {
    pub vtable: VTableView,
    pub data_len: nat,
}

/// The ids of `ids` as words.
pub open spec fn entity_words(ids: Seq<EntityId>) -> Seq<u64> {
    Seq::new(ids.len(), |i: int| ids[i].0)
}

/// Whether every column entry of `entries` places its arrays at a multiple
/// of the alignment of its element type.
pub open spec fn columns_aligned(entries: Seq<Entry>) -> bool {
    forall|i: int|
        0 <= i < entries.len() ==> ((#[trigger] entries[i]) matches Entry::Column(c)
            ==> c.data_col_offset as int % (c.shape_entry.prim_type.spec_alignment() as int) == 0)
}

/// One component of a row: its id, the type of its elements and its
/// dimensions.
pub struct ComponentSpec {
    pub id: ComponentId,
    pub prim_type: PrimType,
    pub shape: Seq<u64>,
}

/// The components that a slice of `(id, type, dimensions)` describes.
pub open spec fn component_specs(components: Seq<(ComponentId, PrimType, &[u64])>) -> Seq<ComponentSpec> {
    Seq::new(
        components.len(),
        |i: int| ComponentSpec { id: components[i].0, prim_type: components[i].1, shape: components[i].2@ },
    )
}

/// The ids of `comps` as words.
pub open spec fn component_words(comps: Seq<ComponentSpec>) -> Seq<u64> {
    Seq::new(comps.len(), |i: int| comps[i].id.0)
}

/// `n` zero words.
pub open spec fn zero_words(n: nat) -> Seq<u64> {
    Seq::new(n, |i: int| 0u64)
}

/// The dimensions of the first `k` of `comps`, one shape after the other.
pub open spec fn dims_words(comps: Seq<ComponentSpec>, k: nat) -> Seq<u64>
    decreases k,
{
    if k == 0 {
        Seq::empty()
    } else {
        dims_words(comps, (k - 1) as nat) + comps[k - 1].shape
    }
}

/// The shape record of the `i`-th of `comps`, whose dimensions lie behind
/// those of the components before it, from `dims_offset` on.
pub open spec fn shape_record(comps: Seq<ComponentSpec>, dims_offset: nat, i: int) -> ShapeEntry {
    ShapeEntry {
        prim_type: comps[i].prim_type,
        rank: comps[i].shape.len() as u64,
        shape_offset: (dims_offset + 8 * dims_words(comps, i as nat).len()) as u64,
    }
}

/// The shape records of the first `k` of `comps` as words.
pub open spec fn record_words(comps: Seq<ComponentSpec>, dims_offset: nat, k: nat) -> Seq<u64>
    decreases k,
{
    if k == 0 {
        Seq::empty()
    } else {
        record_words(comps, dims_offset, (k - 1) as nat) + shape_record(
            comps,
            dims_offset,
            k - 1,
        ).to_words()
    }
}

/// The number of payload bytes that the first `k` of `comps` take, packed
/// without padding. `None` if a shape, an array size or the sum leaves the
/// range of `usize`.
pub open spec fn row_bytes(comps: Seq<ComponentSpec>, k: nat) -> Option<nat>
    decreases k,
{
    if k == 0 {
        Some(0nat)
    } else {
        match row_bytes(comps, (k - 1) as nat) {
            None => None,
            Some(sum) => match spec_arr_len(comps[k - 1].shape) {
                None => None,
                Some(n) => if sum + n * comps[k - 1].prim_type.spec_size() > usize::MAX {
                    None
                } else {
                    Some(sum + n * (comps[k - 1].prim_type.spec_size() as nat))
                },
            },
        }
    }
}

impl BuilderView {
    /// The offset in the auxiliary data at which the next aligned write
    /// starts.
    pub open spec fn base(self) -> nat {
        padded(self.vtable.data, 8).len()
    }

    /// The column entry that [`VTableBuilder::column_with_timestamp`] adds.
    pub open spec fn column_entry(
        self,
        component_id: ComponentId,
        prim_type: PrimType,
        shape: Seq<u64>,
        ids: Seq<EntityId>,
        timestamp_offset: Option<u64>,
    ) -> ColumnEntry {
        ColumnEntry {
            len: ids.len() as u64,
            component_id,
            entity_ids_entry: BufEntry {
                offset: (self.base() + 8 * shape.len()) as u64,
                phantom_data: PhantomData,
            },
            data_col_offset: (self.data_len + padding_for(
                prim_type.spec_alignment() as nat,
                self.data_len,
            )) as u64,
            shape_entry: ShapeEntry {
                prim_type,
                rank: shape.len() as u64,
                shape_offset: self.base() as u64,
            },
            timestamp_offset,
        }
    }

    /// The number of payload bytes a column takes: the padding in front of
    /// it and one array for each entity. `None` if the shape overflows.
    pub open spec fn column_bytes(self, prim_type: PrimType, shape: Seq<u64>, ids: Seq<EntityId>) -> Option<
        nat,
    > {
        match spec_arr_len(shape) {
            None => None,
            Some(n) => Some(
                padding_for(prim_type.spec_alignment() as nat, self.data_len) + ids.len() * n * (
                prim_type.spec_size() as nat),
            ),
        }
    }

    /// Whether the sizes of a column leave the range of `usize`.
    pub open spec fn column_overflows(self, prim_type: PrimType, shape: Seq<u64>, ids: Seq<EntityId>) -> bool {
        match self.column_bytes(prim_type, shape, ids) {
            None => true,
            Some(bytes) => self.data_len + bytes > usize::MAX,
        }
    }

    /// The builder after a column has been added: the dimensions and the
    /// entity ids are written to the auxiliary data, each run aligned for
    /// 64-bit words; the payload grows by the column's padding and arrays;
    /// the entry comes last.
    pub open spec fn with_column(
        self,
        component_id: ComponentId,
        prim_type: PrimType,
        shape: Seq<u64>,
        ids: Seq<EntityId>,
        timestamp_offset: Option<u64>,
    ) -> BuilderView {
        BuilderView {
            vtable: VTableView {
                entries: self.vtable.entries.push(
                    Entry::Column(
                        self.column_entry(component_id, prim_type, shape, ids, timestamp_offset),
                    ),
                ),
                data: padded(self.vtable.data, 8) + encode_all(shape + entity_words(ids)),
            },
            data_len: self.data_len + self.column_bytes(prim_type, shape, ids).unwrap(),
        }
    }

    /// The number of zero words between the component ids of a row of `n`
    /// components and its shape records, which start at a multiple of the
    /// size of a record.
    pub open spec fn row_pad_words(self, n: nat) -> nat {
        padding_for(3, self.base() / 8 + n)
    }

    /// The offset of the shape records of a row of `n` components.
    pub open spec fn row_shapes_offset(self, n: nat) -> nat {
        self.base() + 8 * (n + self.row_pad_words(n))
    }

    /// The offset of the dimensions of a row of `n` components.
    pub open spec fn row_dims_offset(self, n: nat) -> nat {
        self.row_shapes_offset(n) + 24 * n
    }

    /// The words that a row adds to the auxiliary data: the component ids,
    /// the padding, the shape records, and the dimensions of each
    /// component in turn.
    pub open spec fn row_words(self, comps: Seq<ComponentSpec>) -> Seq<u64> {
        component_words(comps) + zero_words(self.row_pad_words(comps.len())) + record_words(
            comps,
            self.row_dims_offset(comps.len()),
            comps.len(),
        ) + dims_words(comps, comps.len())
    }

    /// The row entry that [`VTableBuilder::entity_with_timestamp`] adds.
    pub open spec fn row_entry(
        self,
        entity_id: EntityId,
        comps: Seq<ComponentSpec>,
        timestamp_offset: Option<u64>,
    ) -> RowEntry {
        RowEntry {
            len: comps.len() as u64,
            entity_id,
            component_ids_entry: BufEntry { offset: self.base() as u64, phantom_data: PhantomData },
            shapes_entry: BufEntry {
                offset: self.row_shapes_offset(comps.len()) as u64,
                phantom_data: PhantomData,
            },
            data_col_offset: self.data_len as u64,
            timestamp_offset,
        }
    }

    /// Whether the sizes of a row leave the range of `usize`.
    pub open spec fn row_overflows(self, comps: Seq<ComponentSpec>) -> bool {
        match row_bytes(comps, comps.len()) {
            None => true,
            Some(bytes) => self.data_len + bytes > usize::MAX,
        }
    }

    /// The builder after a row has been added: the component ids, the shape
    /// records and the dimensions are written to the auxiliary data; the
    /// payload grows by the arrays of the row, packed without padding; the
    /// entry comes last.
    pub open spec fn with_row(
        self,
        entity_id: EntityId,
        comps: Seq<ComponentSpec>,
        timestamp_offset: Option<u64>,
    ) -> BuilderView {
        BuilderView {
            vtable: VTableView {
                entries: self.vtable.entries.push(
                    Entry::Entity(self.row_entry(entity_id, comps, timestamp_offset)),
                ),
                data: padded(self.vtable.data, 8) + encode_all(self.row_words(comps)),
            },
            data_len: self.data_len + row_bytes(comps, comps.len()).unwrap(),
        }
    }

    /// The builder after a timestamp slot has been reserved.
    pub open spec fn with_timestamp(self) -> BuilderView {
        BuilderView {
            vtable: self.vtable,
            data_len: self.data_len + padding_for(8, self.data_len) + 8,
        }
    }
}

/// Builds a descriptor entry by entry while keeping count of the payload
/// that the entries lay out.
pub struct VTableBuilder<EntryBuf: Buf<Entry>, DataBuf: Buf<u8>> {
    vtable: VTable<EntryBuf, DataBuf>,
    data_len: usize,
}

impl<EntryBuf: Buf<Entry>, DataBuf: Buf<u8>> View for VTableBuilder<EntryBuf, DataBuf> {
    type V = BuilderView;

    closed spec fn view(&self) -> BuilderView {
        BuilderView { vtable: self.vtable@, data_len: self.data_len as nat }
    }
}

impl<EntryBuf: Buf<Entry>, DataBuf: Buf<u8>> Default for VTableBuilder<EntryBuf, DataBuf> {
    fn default() -> (builder: Self)
        ensures
            builder@.vtable.entries == Seq::<Entry>::empty(),
            builder@.vtable.data == Seq::<u8>::empty(),
            builder@.data_len == 0,
    {
        VTableBuilder { vtable: VTable { entries: EntryBuf::new(), data: DataBuf::new() }, data_len: 0 }
    }
}

impl<EntryBuf: Buf<Entry>, DataBuf: Buf<u8>> VTableBuilder<EntryBuf, DataBuf> {
    /// Whether one more entry and auxiliary data of `words` more words,
    /// aligned, fit into the builder's buffers.
    pub open spec fn fits(&self, words: nat) -> bool {
        &&& self@.vtable.entries.len() < EntryBuf::limit()
        &&& self@.base() + 8 * words <= DataBuf::limit()
    }

    /// The finished descriptor.
    pub fn build(self) -> (vtable: VTable<EntryBuf, DataBuf>)
        ensures
            vtable@ == self@.vtable,
    {
        self.vtable
    }

    /// The length of the payload that the entries lay out so far.
    pub fn data_len(&self) -> (n: usize)
        ensures
            n == self@.data_len,
    {
        self.data_len
    }

    /// Reserves an aligned slot of eight bytes in the payload for a
    /// timestamp and returns its offset, to be attached to an entry.
    pub fn timestamp(&mut self) -> (r: Result<u64, Error>)
        ensures
            match r {
                Ok(offset) => {
                    &&& final(self)@ == old(self)@.with_timestamp()
                    &&& offset == old(self)@.data_len + padding_for(8, old(self)@.data_len)
                    &&& offset % 8 == 0
                    &&& old(self)@.data_len <= offset < old(self)@.data_len + 8
                    &&& final(self)@.data_len == offset + 8
                    &&& offset + 8 <= usize::MAX
                },
                Err(e) => {
                    &&& e == Error::OffsetOverflow
                    &&& old(self)@.data_len + padding_for(8, old(self)@.data_len) + 8 > usize::MAX
                    &&& final(self)@ == old(self)@
                },
            },
    {
        let padding: usize = PrimType::I64.padding(self.data_len);
        let offset: usize = match self.data_len.checked_add(padding) {
            Some(offset) => offset,
            None => {
                return Err(Error::OffsetOverflow);
            },
        };
        let end: usize = match offset.checked_add(8) {
            Some(end) => end,
            None => {
                return Err(Error::OffsetOverflow);
            },
        };
        self.data_len = end;
        Ok(offset as u64)
    }

    /// Adds a column entry without a timestamp.
    pub fn column(
        &mut self,
        component_id: ComponentId,
        prim_type: PrimType,
        shape: &[u64],
        entity_ids: &[EntityId],
    ) -> (r: Result<&mut Self, Error>)
        ensures
            match r {
                Ok(builder) => builder@ == old(self)@.with_column(
                    component_id,
                    prim_type,
                    shape@,
                    entity_ids@,
                    None,
                ) && *final(self) == *final(builder),
                Err(e) => final(self)@ == old(self)@,
            },
            r is Ok <==> !old(self)@.column_overflows(prim_type, shape@, entity_ids@) && old(self).fits(
                shape@.len() + entity_ids@.len(),
            ),
            r matches Err(e) ==> (if old(self)@.column_overflows(prim_type, shape@, entity_ids@) {
                e == Error::OffsetOverflow
            } else {
                e == Error::BufferOverflow
            }),
            r matches Ok(builder) ==> (columns_aligned(old(self)@.vtable.entries) ==> columns_aligned(
                builder@.vtable.entries,
            )),
    {
        match self.add_column(component_id, prim_type, shape, entity_ids, None) {
            Ok(()) => Ok(self),
            Err(e) => Err(e),
        }
    }

    /// Adds a column entry: one array of `prim_type` and `shape` for each
    /// of `entity_ids`, placed in the payload at the next offset that is
    /// aligned for `prim_type`.
    ///
    /// Fails with [`Error::OffsetOverflow`] if a size leaves the range of
    /// `usize`, else with [`Error::BufferOverflow`] if the builder's buffers
    /// cannot hold the entry and its auxiliary data. A failed call changes
    /// nothing.
    pub fn column_with_timestamp(
        &mut self,
        component_id: ComponentId,
        prim_type: PrimType,
        shape: &[u64],
        entity_ids: &[EntityId],
        timestamp_offset: Option<u64>,
    ) -> (r: Result<&mut Self, Error>)
        ensures
            match r {
                Ok(builder) => builder@ == old(self)@.with_column(
                    component_id,
                    prim_type,
                    shape@,
                    entity_ids@,
                    timestamp_offset,
                ) && *final(self) == *final(builder),
                Err(e) => final(self)@ == old(self)@,
            },
            r is Ok <==> !old(self)@.column_overflows(prim_type, shape@, entity_ids@) && old(self).fits(
                shape@.len() + entity_ids@.len(),
            ),
            r matches Err(e) ==> (if old(self)@.column_overflows(prim_type, shape@, entity_ids@) {
                e == Error::OffsetOverflow
            } else {
                e == Error::BufferOverflow
            }),
            r matches Ok(builder) ==> (columns_aligned(old(self)@.vtable.entries) ==> columns_aligned(
                builder@.vtable.entries,
            )),
    {
        match self.add_column(component_id, prim_type, shape, entity_ids, timestamp_offset) {
            Ok(()) => Ok(self),
            Err(e) => Err(e),
        }
    }

    /// The work of [`VTableBuilder::column_with_timestamp`].
    #[verifier::rlimit(30)]
    fn add_column(
        &mut self,
        component_id: ComponentId,
        prim_type: PrimType,
        shape: &[u64],
        entity_ids: &[EntityId],
        timestamp_offset: Option<u64>,
    ) -> (r: Result<(), Error>)
        ensures
            match r {
                Ok(()) => final(self)@ == old(self)@.with_column(
                    component_id,
                    prim_type,
                    shape@,
                    entity_ids@,
                    timestamp_offset,
                ),
                Err(e) => final(self)@ == old(self)@,
            },
            r is Ok <==> !old(self)@.column_overflows(prim_type, shape@, entity_ids@) && old(self).fits(
                shape@.len() + entity_ids@.len(),
            ),
            r matches Err(e) ==> (if old(self)@.column_overflows(prim_type, shape@, entity_ids@) {
                e == Error::OffsetOverflow
            } else {
                e == Error::BufferOverflow
            }),
            columns_aligned(old(self)@.vtable.entries) ==> columns_aligned(final(self)@.vtable.entries),
    {
        let len: usize = entity_ids.len();
        let rank: usize = shape.len();
        let count: usize = match arr_len(shape) {
            Ok(count) => count,
            Err(e) => {
                return Err(e);
            },
        };
        let size: usize = prim_type.size();
        let padding: usize = prim_type.padding(self.data_len);
        proof {
            assert(len * count * size >= len * count >= 0) by (nonlinear_arith)
                requires
                    size >= 1,
                    len >= 0,
                    count >= 0,
            ;
        }
        let arrays: usize = match len.checked_mul(count) {
            Some(cells) => match cells.checked_mul(size) {
                Some(arrays) => arrays,
                None => {
                    return Err(Error::OffsetOverflow);
                },
            },
            None => {
                return Err(Error::OffsetOverflow);
            },
        };
        let total_len: usize = match arrays.checked_add(padding) {
            Some(total_len) => total_len,
            None => {
                return Err(Error::OffsetOverflow);
            },
        };
        let data_len: usize = match self.data_len.checked_add(total_len) {
            Some(data_len) => data_len,
            None => {
                return Err(Error::OffsetOverflow);
            },
        };
        let data_col_offset: usize = self.data_len + padding;
        if self.vtable.entries.spare() == 0 {
            return Err(Error::BufferOverflow);
        }
        let mut words: Vec<u64> = Vec::new();
        let mut i: usize = 0;
        while i < rank
            invariant
                i <= rank,
                rank == shape@.len(),
                words@ == shape@.take(i as int),
            decreases rank - i,
        {
            words.push(shape[i]);
            i += 1;
        }
        assert(shape@.take(rank as int) == shape@);
        let mut j: usize = 0;
        while j < len
            invariant
                j <= len,
                len == entity_ids@.len(),
                words@ == shape@ + entity_words(entity_ids@.take(j as int)),
            decreases len - j,
        {
            words.push(entity_ids[j].0);
            assert(entity_words(entity_ids@.take(j + 1)) == entity_words(entity_ids@.take(j as int)).push(
                entity_ids@[j as int].0,
            ));
            j += 1;
        }
        assert(entity_ids@.take(len as int) == entity_ids@);
        let ghost before = self@;
        let shape_offset: usize = match extend_aligned(&mut self.vtable.data, words.as_slice()) {
            Ok(offset) => offset,
            Err(e) => {
                return Err(e);
            },
        };
        let entity_col_offset: usize = shape_offset + 8 * rank;
        let entry = ColumnEntry {
            len: len as u64,
            component_id,
            shape_entry: ShapeEntry { prim_type, rank: rank as u64, shape_offset: shape_offset as u64 },
            entity_ids_entry: BufEntry { offset: entity_col_offset as u64, phantom_data: PhantomData },
            data_col_offset: data_col_offset as u64,
            timestamp_offset,
        };
        assert(entry == before.column_entry(component_id, prim_type, shape@, entity_ids@, timestamp_offset));
        match self.vtable.entries.push(Entry::Column(entry)) {
            Ok(()) => {},
            Err(e) => {
                return Err(e);
            },
        }
        self.data_len = data_len;
        proof {
            let entries = self@.vtable.entries;
            if columns_aligned(before.vtable.entries) {
                assert forall|i: int| 0 <= i < entries.len() implies ((#[trigger] entries[i]) matches Entry::Column(
                    c,
                ) ==> c.data_col_offset as int % (c.shape_entry.prim_type.spec_alignment() as int) == 0) by {
                    if i < before.vtable.entries.len() {
                        assert(entries[i] == before.vtable.entries[i]);
                    }
                }
            }
        }
        Ok(())
    }
}

/// The shape records of `k` components take three words each.
pub proof fn lemma_record_words_len(comps: Seq<ComponentSpec>, dims_offset: nat, k: nat)
    ensures
        record_words(comps, dims_offset, k).len() == 3 * k,
    decreases k,
{
    if k > 0 {
        lemma_record_words_len(comps, dims_offset, (k - 1) as nat);
    }
}

/// The dimensions of more components take no fewer words.
pub proof fn lemma_dims_words_len(comps: Seq<ComponentSpec>, i: nat, k: nat)
    requires
        i <= k,
    ensures
        dims_words(comps, i).len() <= dims_words(comps, k).len(),
    decreases k,
{
    if i < k {
        lemma_dims_words_len(comps, i, (k - 1) as nat);
    }
}

/// Once the payload of a prefix of the components overflows, so does that
/// of every longer one.
pub proof fn lemma_row_bytes_prefix(comps: Seq<ComponentSpec>, i: nat, k: nat)
    requires
        i <= k,
    ensures
        row_bytes(comps, i) is None ==> row_bytes(comps, k) is None,
    decreases k,
{
    if i < k {
        lemma_row_bytes_prefix(comps, i, (k - 1) as nat);
    }
}

impl<EntryBuf: Buf<Entry>, DataBuf: Buf<u8>> VTableBuilder<EntryBuf, DataBuf> {
    /// Adds a row entry without a timestamp.
    pub fn entity(&mut self, entity_id: EntityId, components: &[(ComponentId, PrimType, &[u64])]) -> (r:
        Result<&mut Self, Error>)
        ensures
            match r {
                Ok(builder) => builder@ == old(self)@.with_row(
                    entity_id,
                    component_specs(components@),
                    None,
                ) && *final(self) == *final(builder),
                Err(e) => final(self)@ == old(self)@,
            },
            r is Ok <==> !old(self)@.row_overflows(component_specs(components@)) && old(self).fits(
                old(self)@.row_words(component_specs(components@)).len(),
            ),
            r matches Err(e) ==> (if old(self)@.row_overflows(component_specs(components@)) {
                e == Error::OffsetOverflow
            } else {
                e == Error::BufferOverflow
            }),
            r matches Ok(builder) ==> (columns_aligned(old(self)@.vtable.entries) ==> columns_aligned(
                builder@.vtable.entries,
            )),
    {
        match self.add_row(entity_id, components, None) {
            Ok(()) => Ok(self),
            Err(e) => Err(e),
        }
    }

    /// Adds a row entry: one array for each of `components`, each of its
    /// own type and shape, packed in the payload one after the other from
    /// the present end of the payload on, without padding.
    ///
    /// Fails with [`Error::OffsetOverflow`] if a size leaves the range of
    /// `usize`, else with [`Error::BufferOverflow`] if the builder's buffers
    /// cannot hold the entry and its auxiliary data. A failed call changes
    /// nothing.
    pub fn entity_with_timestamp(
        &mut self,
        entity_id: EntityId,
        components: &[(ComponentId, PrimType, &[u64])],
        timestamp_offset: Option<u64>,
    ) -> (r: Result<&mut Self, Error>)
        ensures
            match r {
                Ok(builder) => builder@ == old(self)@.with_row(
                    entity_id,
                    component_specs(components@),
                    timestamp_offset,
                ) && *final(self) == *final(builder),
                Err(e) => final(self)@ == old(self)@,
            },
            r is Ok <==> !old(self)@.row_overflows(component_specs(components@)) && old(self).fits(
                old(self)@.row_words(component_specs(components@)).len(),
            ),
            r matches Err(e) ==> (if old(self)@.row_overflows(component_specs(components@)) {
                e == Error::OffsetOverflow
            } else {
                e == Error::BufferOverflow
            }),
            r matches Ok(builder) ==> (columns_aligned(old(self)@.vtable.entries) ==> columns_aligned(
                builder@.vtable.entries,
            )),
    {
        match self.add_row(entity_id, components, timestamp_offset) {
            Ok(()) => Ok(self),
            Err(e) => Err(e),
        }
    }

    /// The work of [`VTableBuilder::entity_with_timestamp`].
    #[verifier::rlimit(30)]
    fn add_row(
        &mut self,
        entity_id: EntityId,
        components: &[(ComponentId, PrimType, &[u64])],
        timestamp_offset: Option<u64>,
    ) -> (r: Result<(), Error>)
        ensures
            match r {
                Ok(()) => final(self)@ == old(self)@.with_row(
                    entity_id,
                    component_specs(components@),
                    timestamp_offset,
                ),
                Err(e) => final(self)@ == old(self)@,
            },
            r is Ok <==> !old(self)@.row_overflows(component_specs(components@)) && old(self).fits(
                old(self)@.row_words(component_specs(components@)).len(),
            ),
            r matches Err(e) ==> (if old(self)@.row_overflows(component_specs(components@)) {
                e == Error::OffsetOverflow
            } else {
                e == Error::BufferOverflow
            }),
            columns_aligned(old(self)@.vtable.entries) ==> columns_aligned(final(self)@.vtable.entries),
    {
        let ghost before = self@;
        let ghost comps = component_specs(components@);
        let n: usize = components.len();
        // The payload: every array's size, summed.
        let mut payload: usize = 0;
        let mut i: usize = 0;
        while i < n
            invariant
                i <= n,
                n == components@.len(),
                comps == component_specs(components@),
                row_bytes(comps, i as nat) == Some(payload as nat),
            decreases n - i,
        {
            proof {
                lemma_row_bytes_prefix(comps, (i + 1) as nat, n as nat);
            }
            let (_, prim_type, shape) = components[i];
            assert(comps[i as int].shape == shape@ && comps[i as int].prim_type == prim_type);
            let count: usize = match arr_len(shape) {
                Ok(count) => count,
                Err(e) => {
                    return Err(e);
                },
            };
            let arr_size: usize = match count.checked_mul(prim_type.size()) {
                Some(arr_size) => arr_size,
                None => {
                    return Err(Error::OffsetOverflow);
                },
            };
            payload = match payload.checked_add(arr_size) {
                Some(payload) => payload,
                None => {
                    return Err(Error::OffsetOverflow);
                },
            };
            i += 1;
        }
        let data_len: usize = match self.data_len.checked_add(payload) {
            Some(data_len) => data_len,
            None => {
                return Err(Error::OffsetOverflow);
            },
        };
        // The auxiliary data: how many words, and whether they can fit.
        if self.vtable.entries.spare() == 0 {
            return Err(Error::BufferOverflow);
        }
        let len: usize = self.vtable.data.len();
        proof {
            lemma_padding_for(8, len as nat);
            lemma_record_words_len(comps, before.row_dims_offset(n as nat), n as nat);
        }
        let mut dims: usize = 0;
        let mut i: usize = 0;
        while i < n
            invariant
                i <= n,
                n == components@.len(),
                comps == component_specs(components@),
                dims == dims_words(comps, i as nat).len(),
                before == old(self)@,
                before == self@,
                !before.row_overflows(comps),
                DataBuf::limit() <= usize::MAX,
                before.row_words(comps).len() == 4 * n + before.row_pad_words(n as nat) + dims_words(
                    comps,
                    n as nat,
                ).len(),
            decreases n - i,
        {
            proof {
                lemma_dims_words_len(comps, (i + 1) as nat, n as nat);
            }
            let (_, _, shape) = components[i];
            assert(comps[i as int].shape == shape@);
            dims = match dims.checked_add(shape.len()) {
                Some(dims) => dims,
                None => {
                    return Err(Error::BufferOverflow);
                },
            };
            i += 1;
        }
        let padding: usize = (8 - len % 8) % 8;
        let base_wide: u128 = len as u128 + padding as u128;
        let pad_words_wide: u128 = (3 - (base_wide / 8 + n as u128) % 3) % 3;
        let lead_wide: u128 = 4 * (n as u128) + pad_words_wide;
        let total_wide: u128 = base_wide + 8 * (lead_wide + dims as u128);
        proof {
            lemma_padding_for(3, before.base() / 8 + n as nat);
        }
        if total_wide > usize::MAX as u128 {
            return Err(Error::BufferOverflow);
        }
        let base: usize = len + padding;
        let pad_words: usize = pad_words_wide as usize;
        let shapes_offset: usize = base + 8 * (n + pad_words);
        let dims_offset: usize = shapes_offset + 24 * n;
        assert(base == before.base());
        assert(pad_words == before.row_pad_words(n as nat));
        assert(shapes_offset == before.row_shapes_offset(n as nat));
        assert(dims_offset == before.row_dims_offset(n as nat));
        // The words: ids, padding, shape records, dimensions.
        let mut words: Vec<u64> = Vec::new();
        let mut i: usize = 0;
        while i < n
            invariant
                i <= n,
                n == components@.len(),
                comps == component_specs(components@),
                words@ == component_words(comps).take(i as int),
            decreases n - i,
        {
            let (id, _, _) = components[i];
            words.push(id.0);
            assert(component_words(comps).take(i + 1) == component_words(comps).take(i as int).push(id.0));
            i += 1;
        }
        assert(component_words(comps).take(n as int) == component_words(comps));
        let mut i: usize = 0;
        while i < pad_words
            invariant
                i <= pad_words,
                words@ == component_words(comps) + zero_words(i as nat),
            decreases pad_words - i,
        {
            words.push(0u64);
            assert(zero_words((i + 1) as nat) == zero_words(i as nat).push(0u64));
            i += 1;
        }
        let ghost lead = component_words(comps) + zero_words(pad_words as nat);
        let mut dims_before: usize = 0;
        let mut i: usize = 0;
        while i < n
            invariant
                i <= n,
                n == components@.len(),
                comps == component_specs(components@),
                dims == dims_words(comps, n as nat).len(),
                dims_before == dims_words(comps, i as nat).len(),
                dims_offset + 8 * dims <= usize::MAX,
                words@ == lead + record_words(comps, dims_offset as nat, i as nat),
            decreases n - i,
        {
            proof {
                lemma_dims_words_len(comps, (i + 1) as nat, n as nat);
                lemma_dims_words_len(comps, i as nat, n as nat);
            }
            let (_, prim_type, shape) = components[i];
            assert(comps[i as int].shape == shape@ && comps[i as int].prim_type == prim_type);
            let record = ShapeEntry {
                prim_type,
                rank: shape.len() as u64,
                shape_offset: (dims_offset + 8 * dims_before) as u64,
            };
            assert(record == shape_record(comps, dims_offset as nat, i as int));
            record.write(&mut words);
            dims_before = dims_before + shape.len();
            i += 1;
        }
        let ghost head = lead + record_words(comps, dims_offset as nat, n as nat);
        let mut i: usize = 0;
        while i < n
            invariant
                i <= n,
                n == components@.len(),
                comps == component_specs(components@),
                words@ == head + dims_words(comps, i as nat),
            decreases n - i,
        {
            let (_, _, shape) = components[i];
            assert(comps[i as int].shape == shape@);
            let ghost so_far = words@;
            let mut j: usize = 0;
            while j < shape.len()
                invariant
                    j <= shape@.len(),
                    words@ == so_far + shape@.take(j as int),
                decreases shape@.len() - j,
            {
                words.push(shape[j]);
                assert(shape@.take(j + 1) == shape@.take(j as int).push(shape@[j as int]));
                j += 1;
            }
            assert(shape@.take(shape@.len() as int) == shape@);
            i += 1;
        }
        assert(words@ == before.row_words(comps));
        match extend_aligned(&mut self.vtable.data, words.as_slice()) {
            Ok(_) => {},
            Err(e) => {
                return Err(e);
            },
        }
        let entry = RowEntry {
            len: n as u64,
            entity_id,
            component_ids_entry: BufEntry { offset: base as u64, phantom_data: PhantomData },
            shapes_entry: BufEntry { offset: shapes_offset as u64, phantom_data: PhantomData },
            data_col_offset: self.data_len as u64,
            timestamp_offset,
        };
        assert(entry == before.row_entry(entity_id, comps, timestamp_offset));
        match self.vtable.entries.push(Entry::Entity(entry)) {
            Ok(()) => {},
            Err(e) => {
                return Err(e);
            },
        }
        self.data_len = data_len;
        proof {
            let entries = self@.vtable.entries;
            if columns_aligned(before.vtable.entries) {
                assert forall|i: int| 0 <= i < entries.len() implies ((#[trigger] entries[i]) matches Entry::Column(
                    c,
                ) ==> c.data_col_offset as int % (c.shape_entry.prim_type.spec_alignment() as int) == 0) by {
                    if i < before.vtable.entries.len() {
                        assert(entries[i] == before.vtable.entries[i]);
                    }
                }
            }
        }
        Ok(())
    }
}

/// What a descriptor says of one cell without a payload at hand.
pub struct SchemaCell {
    pub entity_id: EntityId,
    pub component_id: ComponentId,
    pub prim_type: PrimType,
    pub shape: Seq<u64>,
}

/// The cells that a vector of `(entity, component, type, dimensions)`
/// describes.
pub open spec fn schema_cells(cells: Seq<(EntityId, ComponentId, PrimType, &[u64])>) -> Seq<SchemaCell> {
    Seq::new(
        cells.len(),
        |i: int|
            SchemaCell {
                entity_id: cells[i].0,
                component_id: cells[i].1,
                prim_type: cells[i].2,
                shape: cells[i].3@,
            },
    )
}

impl ColumnEntry {
    /// Whether the number of entities fits `usize` and the shape and the
    /// entity ids of this column can be read, on memory that is aligned for
    /// every cast.
    pub open spec fn spec_readable(&self, vdata: Seq<u8>) -> bool {
        &&& self.len <= usize::MAX
        &&& self.shape_entry.spec_parse_shape(vdata) is Ok
        &&& spec_parse_records::<EntityId>(self.entity_ids_entry.offset, vdata, self.len as nat) is Ok
    }

    /// The cells of this column, one for each entity id, on memory that is
    /// aligned for every cast; none if the shape or the ids cannot be read.
    pub open spec fn spec_schema(&self, vdata: Seq<u8>) -> Seq<SchemaCell> {
        if self.len > usize::MAX {
            Seq::empty()
        } else {
            match (
                self.shape_entry.spec_parse_shape(vdata),
                spec_parse_records::<EntityId>(self.entity_ids_entry.offset, vdata, self.len as nat),
            ) {
                (Ok(shape), Ok(ids)) => Seq::new(
                    ids.len(),
                    |i: int|
                        SchemaCell {
                            entity_id: ids[i],
                            component_id: self.component_id,
                            prim_type: self.shape_entry.prim_type,
                            shape,
                        },
                ),
                _ => Seq::empty(),
            }
        }
    }
}

impl RowEntry {
    /// Whether the number of components fits `usize` and the shape
    /// records, the component ids and every shape of this row can be read,
    /// on memory that is aligned for every cast.
    pub open spec fn spec_readable(&self, vdata: Seq<u8>) -> bool {
        &&& self.len <= usize::MAX
        &&& spec_parse_records::<ComponentId>(
            self.component_ids_entry.offset,
            vdata,
            self.len as nat,
        ) is Ok
        &&& spec_parse_records::<ShapeEntry>(self.shapes_entry.offset, vdata, self.len as nat) matches Ok(
            shapes,
        ) && forall|i: int|
            0 <= i < shapes.len() ==> (#[trigger] shapes[i]).spec_parse_shape(vdata) is Ok
    }

    /// The cells of this row, one for each component, on memory that is
    /// aligned for every cast; none if the ids, the shape records or one of
    /// the shapes cannot be read.
    pub open spec fn spec_schema(&self, vdata: Seq<u8>) -> Seq<SchemaCell> {
        if self.len > usize::MAX {
            Seq::empty()
        } else {
            match (
                spec_parse_records::<ShapeEntry>(self.shapes_entry.offset, vdata, self.len as nat),
                spec_parse_records::<ComponentId>(
                    self.component_ids_entry.offset,
                    vdata,
                    self.len as nat,
                ),
            ) {
                (Ok(shapes), Ok(ids)) => if forall|i: int|
                    0 <= i < shapes.len() ==> (#[trigger] shapes[i]).spec_parse_shape(vdata) is Ok {
                    Seq::new(
                        shapes.len(),
                        |i: int|
                            SchemaCell {
                                entity_id: self.entity_id,
                                component_id: ids[i],
                                prim_type: shapes[i].prim_type,
                                shape: shapes[i].spec_parse_shape(vdata).unwrap(),
                            },
                    )
                } else {
                    Seq::empty()
                },
                _ => Seq::empty(),
            }
        }
    }
}

impl Entry {
    /// Whether this entry is a column or a row that can be read, on memory
    /// that is aligned for every cast: only such an entry has cells to
    /// list.
    pub open spec fn spec_readable(&self, vdata: Seq<u8>) -> bool {
        match self {
            Entry::Column(col) => col.spec_readable(vdata),
            Entry::Entity(row) => row.spec_readable(vdata),
            Entry::Metadata(_) => false,
        }
    }

    /// The cells of this entry in one of the two passes of
    /// [`VTable::column_iter`]: column entries are listed in the first
    /// pass, row entries in the second.
    pub open spec fn spec_schema(&self, vdata: Seq<u8>, rows: bool) -> Seq<SchemaCell> {
        match self {
            Entry::Column(col) => if rows {
                Seq::empty()
            } else {
                col.spec_schema(vdata)
            },
            Entry::Entity(row) => if rows {
                row.spec_schema(vdata)
            } else {
                Seq::empty()
            },
            Entry::Metadata(_) => Seq::empty(),
        }
    }
}

/// The cells that one pass over the first `k` of `entries` lists, when the
/// entries whose index is in `skipped` are left out.
pub open spec fn spec_schema_pass(
    entries: Seq<Entry>,
    vdata: Seq<u8>,
    rows: bool,
    skipped: Set<int>,
    k: nat,
) -> Seq<SchemaCell>
    decreases k,
{
    if k == 0 {
        Seq::empty()
    } else {
        let prev = spec_schema_pass(entries, vdata, rows, skipped, (k - 1) as nat);
        if skipped.contains(k - 1) {
            prev
        } else {
            prev + entries[k - 1].spec_schema(vdata, rows)
        }
    }
}

/// A pass lists the same cells for two sets of skipped entries that differ
/// only on entries with no cells in that pass.
pub proof fn lemma_schema_pass_skipped(
    entries: Seq<Entry>,
    vdata: Seq<u8>,
    rows: bool,
    s1: Set<int>,
    s2: Set<int>,
    k: nat,
)
    requires
        forall|j: int|
            0 <= j < k ==> s1.contains(j) == s2.contains(j) || (#[trigger] entries[j]).spec_schema(
                vdata,
                rows,
            ).len() == 0,
    ensures
        spec_schema_pass(entries, vdata, rows, s1, k) == spec_schema_pass(entries, vdata, rows, s2, k),
    decreases k,
{
    if k > 0 {
        lemma_schema_pass_skipped(entries, vdata, rows, s1, s2, (k - 1) as nat);
        let prev = spec_schema_pass(entries, vdata, rows, s1, (k - 1) as nat);
        let cells = entries[k - 1].spec_schema(vdata, rows);
        if cells.len() == 0 {
            assert(prev + cells == prev);
        }
    }
}

/// A pass over entries of which none can be read lists nothing.
pub proof fn lemma_schema_pass_unreadable(
    entries: Seq<Entry>,
    vdata: Seq<u8>,
    rows: bool,
    skipped: Set<int>,
    k: nat,
)
    requires
        k <= entries.len(),
        forall|i: int| 0 <= i < entries.len() ==> !(#[trigger] entries[i]).spec_readable(vdata),
    ensures
        spec_schema_pass(entries, vdata, rows, skipped, k).len() == 0,
    decreases k,
{
    if k > 0 {
        lemma_schema_pass_unreadable(entries, vdata, rows, skipped, (k - 1) as nat);
        assert(!entries[k - 1].spec_readable(vdata));
        assert(entries[k - 1].spec_schema(vdata, rows).len() == 0);
    }
}

impl VTableView {
    /// Whether `skipped` holds only entries that a listing may leave out:
    /// columns and rows that can be read, on which a cast reaches the
    /// auxiliary data and may find it misaligned. Every other entry has no
    /// cells to list.
    pub open spec fn may_skip(self, skipped: Set<int>) -> bool {
        forall|j: int|
            #[trigger] skipped.contains(j) ==> 0 <= j < self.entries.len() && self.entries[j].spec_readable(
                self.data,
            )
    }

    /// The cells this descriptor lists when the entries whose index is in
    /// `skipped` are left out: those of the column entries, then those of
    /// the row entries.
    pub open spec fn spec_column_iter(self, skipped: Set<int>) -> Seq<SchemaCell> {
        spec_schema_pass(self.entries, self.data, false, skipped, self.entries.len())
            + spec_schema_pass(self.entries, self.data, true, skipped, self.entries.len())
    }
}

/// Listing one more cell adds the cell it describes.
pub proof fn lemma_schema_cells_push(
    cells: Seq<(EntityId, ComponentId, PrimType, &[u64])>,
    cell: (EntityId, ComponentId, PrimType, &[u64]),
)
    ensures
        schema_cells(cells.push(cell)) == schema_cells(cells).push(
            SchemaCell { entity_id: cell.0, component_id: cell.1, prim_type: cell.2, shape: cell.3@ },
        ),
{
    assert(schema_cells(cells.push(cell)) =~= schema_cells(cells).push(
        SchemaCell { entity_id: cell.0, component_id: cell.1, prim_type: cell.2, shape: cell.3@ },
    ));
}

/// Appends the cells of `row` to `out`.
fn append_cells<'a>(
    out: &mut Vec<(EntityId, ComponentId, PrimType, &'a [u64])>,
    row: &Vec<(EntityId, ComponentId, PrimType, &'a [u64])>,
)
    ensures
        schema_cells(final(out)@) == schema_cells(old(out)@) + schema_cells(row@),
{
    let ghost before = schema_cells(out@);
    let mut j: usize = 0;
    while j < row.len()
        invariant
            j <= row@.len(),
            schema_cells(out@) == before + schema_cells(row@).take(j as int),
        decreases row@.len() - j,
    {
        proof {
            lemma_schema_cells_push(out@, row@[j as int]);
            assert(schema_cells(row@).take(j + 1) == schema_cells(row@).take(j as int).push(
                schema_cells(row@)[j as int],
            ));
        }
        out.push(row[j]);
        j += 1;
    }
    assert(schema_cells(row@).take(row@.len() as int) == schema_cells(row@));
}

impl ColumnEntry {
    /// The cells that this column lists for a shape and entity ids.
    pub open spec fn listed(&self, shape: Seq<u64>, ids: Seq<EntityId>) -> Seq<SchemaCell> {
        Seq::new(
            ids.len(),
            |i: int|
                SchemaCell {
                    entity_id: ids[i],
                    component_id: self.component_id,
                    prim_type: self.shape_entry.prim_type,
                    shape,
                },
        )
    }

    /// The cells of this column from the outcomes of its two casts: one
    /// cell for each entity id, in their order, each with the column's
    /// component id, type and shape, if both casts succeeded; nothing if
    /// one of them failed.
    pub fn column_cells_of<'a>(&self, shape: Result<&'a [u64], Error>, ids: Result<Vec<EntityId>, Error>) -> (r:
        Option<Vec<(EntityId, ComponentId, PrimType, &'a [u64])>>)
        ensures
            r is Some <==> shape is Ok && ids is Ok,
            r matches Some(cells) ==> schema_cells(cells@) == self.listed(
                shape->Ok_0@,
                ids->Ok_0@,
            ),
    {
        let shape = match shape {
            Ok(shape) => shape,
            Err(_) => {
                return None;
            },
        };
        let ids = match ids {
            Ok(ids) => ids,
            Err(_) => {
                return None;
            },
        };
        let mut cells: Vec<(EntityId, ComponentId, PrimType, &'a [u64])> = Vec::new();
        let mut j: usize = 0;
        while j < ids.len()
            invariant
                j <= ids@.len(),
                cells@.len() == j,
                forall|m: int|
                    0 <= m < j ==> #[trigger] schema_cells(cells@)[m] == (SchemaCell {
                        entity_id: ids@[m],
                        component_id: self.component_id,
                        prim_type: self.shape_entry.prim_type,
                        shape: shape@,
                    }),
            decreases ids@.len() - j,
        {
            proof {
                lemma_schema_cells_push(
                    cells@,
                    (ids@[j as int], self.component_id, self.shape_entry.prim_type, shape),
                );
            }
            cells.push((ids[j], self.component_id, self.shape_entry.prim_type, shape));
            j += 1;
        }
        assert(schema_cells(cells@) =~= self.listed(shape@, ids@));
        Some(cells)
    }

    /// The cells of this column, if its shape and its ids can be read.
    ///
    /// A column whose number of entities does not fit `usize` has no cells
    /// and is listed as such, without a look at the auxiliary data. Every
    /// other column is listed only if it can be read: a column that cannot
    /// gives nothing, and so does one on which a cast reports misaligned
    /// memory, which may happen to any of them.
    fn schema<'a>(&self, vdata: &'a [u8]) -> (r: Option<Vec<(EntityId, ComponentId, PrimType, &'a [u64])>>)
        ensures
            match r {
                Some(cells) => {
                    &&& schema_cells(cells@) == self.spec_schema(vdata@)
                    &&& self.len > usize::MAX || self.spec_readable(vdata@)
                },
                None => self.len <= usize::MAX,
            },
    {
        if self.len > usize::MAX as u64 {
            return Some(Vec::new());
        }
        let shape = self.shape_entry.parse_shape(vdata);
        let ids = self.entity_ids_entry.parse(vdata, self.len as usize);
        let r = self.column_cells_of(shape, ids);
        proof {
            if r is Some {
                assert(schema_cells(r->Some_0@) =~= self.spec_schema(vdata@));
            }
        }
        r
    }
}

impl RowEntry {
    /// The cells that this row lists for component ids, shape records and
    /// shapes.
    pub open spec fn listed(
        &self,
        ids: Seq<ComponentId>,
        records: Seq<ShapeEntry>,
        shapes: Seq<Seq<u64>>,
    ) -> Seq<SchemaCell> {
        Seq::new(
            records.len(),
            |i: int|
                SchemaCell {
                    entity_id: self.entity_id,
                    component_id: ids[i],
                    prim_type: records[i].prim_type,
                    shape: shapes[i],
                },
        )
    }

    /// The shapes that the outcomes `shapes` of the casts hold.
    pub open spec fn shapes_of(shapes: Seq<Result<&[u64], Error>>) -> Seq<Seq<u64>> {
        Seq::new(shapes.len(), |i: int| shapes[i]->Ok_0@)
    }

    /// The cells of this row from the outcomes of its casts: one cell for
    /// each component, in their order, each with the row's entity id, the
    /// component's id and type and its own shape, if every cast succeeded
    /// and there is one id and one shape for each shape record; nothing
    /// otherwise.
    pub fn row_cells_of<'a>(
        &self,
        ids: Result<Vec<ComponentId>, Error>,
        records: Result<Vec<ShapeEntry>, Error>,
        shapes: &Vec<Result<&'a [u64], Error>>,
    ) -> (r: Option<Vec<(EntityId, ComponentId, PrimType, &'a [u64])>>)
        ensures
            r is Some <==> {
                &&& ids is Ok
                &&& records is Ok
                &&& ids->Ok_0@.len() == records->Ok_0@.len()
                &&& shapes@.len() == records->Ok_0@.len()
                &&& forall|i: int| 0 <= i < shapes@.len() ==> (#[trigger] shapes@[i]) is Ok
            },
            r matches Some(cells) ==> schema_cells(cells@) == self.listed(
                ids->Ok_0@,
                records->Ok_0@,
                Self::shapes_of(shapes@),
            ),
    {
        let ids = match ids {
            Ok(ids) => ids,
            Err(_) => {
                return None;
            },
        };
        let records = match records {
            Ok(records) => records,
            Err(_) => {
                return None;
            },
        };
        if ids.len() != records.len() || shapes.len() != records.len() {
            return None;
        }
        let mut cells: Vec<(EntityId, ComponentId, PrimType, &'a [u64])> = Vec::new();
        let mut j: usize = 0;
        while j < records.len()
            invariant
                j <= records@.len(),
                ids@.len() == records@.len(),
                shapes@.len() == records@.len(),
                cells@.len() == j,
                forall|m: int| 0 <= m < j ==> (#[trigger] shapes@[m]) is Ok,
                forall|m: int|
                    0 <= m < j ==> #[trigger] schema_cells(cells@)[m] == (SchemaCell {
                        entity_id: self.entity_id,
                        component_id: ids@[m],
                        prim_type: records@[m].prim_type,
                        shape: shapes@[m]->Ok_0@,
                    }),
            decreases records@.len() - j,
        {
            let shape = match &shapes[j] {
                Ok(shape) => *shape,
                Err(_) => {
                    return None;
                },
            };
            proof {
                lemma_schema_cells_push(cells@, (self.entity_id, ids@[j as int], records@[j as int].prim_type, shape));
            }
            cells.push((self.entity_id, ids[j], records[j].prim_type, shape));
            j += 1;
        }
        assert(schema_cells(cells@) =~= self.listed(ids@, records@, Self::shapes_of(shapes@)));
        Some(cells)
    }

    /// The cells of this row, if its ids, its shape records and all of its
    /// shapes can be read.
    ///
    /// A row whose number of components does not fit `usize` has no cells
    /// and is listed as such, without a look at the auxiliary data. Every
    /// other row is listed only if it can be read: a row that cannot gives
    /// nothing, and so does one on which a cast reports misaligned memory,
    /// which may happen to any of them.
    fn schema<'a>(&self, vdata: &'a [u8]) -> (r: Option<Vec<(EntityId, ComponentId, PrimType, &'a [u64])>>)
        ensures
            match r {
                Some(cells) => {
                    &&& schema_cells(cells@) == self.spec_schema(vdata@)
                    &&& self.len > usize::MAX || self.spec_readable(vdata@)
                },
                None => self.len <= usize::MAX,
            },
    {
        if self.len > usize::MAX as u64 {
            return Some(Vec::new());
        }
        let records = self.shapes_entry.parse(vdata, self.len as usize);
        let ids = self.component_ids_entry.parse(vdata, self.len as usize);
        let mut shapes: Vec<Result<&'a [u64], Error>> = Vec::new();
        match &records {
            Ok(found) => {
                let mut j: usize = 0;
                while j < found.len()
                    invariant
                        j <= found@.len(),
                        shapes@.len() == j,
                        forall|m: int|
                            0 <= m < j ==> ((#[trigger] shapes@[m]) matches Ok(shape) ==> found@[m].spec_parse_shape(
                                vdata@,
                            ) == Ok::<Seq<u64>, Error>(shape@)),
                    decreases found@.len() - j,
                {
                    shapes.push(found[j].parse_shape(vdata));
                    j += 1;
                }
            },
            Err(_) => {},
        }
        let r = self.row_cells_of(ids, records, &shapes);
        proof {
            if r is Some {
                let found = records->Ok_0@;
                assert forall|i: int| 0 <= i < found.len() implies (#[trigger] found[i]).spec_parse_shape(
                    vdata@,
                ) is Ok by {
                    assert(shapes@[i] is Ok);
                }
                assert(schema_cells(r->Some_0@) =~= self.spec_schema(vdata@));
            }
        }
        r
    }
}

impl<EntryBuf: Buf<Entry>, DataBuf: Buf<u8>> VTable<EntryBuf, DataBuf> {
    /// One pass of [`VTable::column_iter`]: lists the cells of the column
    /// entries, or of the row entries where `rows` is set, and records the
    /// entries that could not be read.
    #[verifier::rlimit(30)]
    fn schema_pass<'a>(
        &'a self,
        rows: bool,
        out: &mut Vec<(EntityId, ComponentId, PrimType, &'a [u64])>,
        Ghost(skipped): Ghost<Set<int>>,
    ) -> (r: Ghost<Set<int>>)
        ensures
            schema_cells(final(out)@) == schema_cells(old(out)@) + spec_schema_pass(
                self@.entries,
                self@.data,
                rows,
                r@,
                self@.entries.len(),
            ),
            forall|j: int|
                0 <= j < self@.entries.len() ==> r@.contains(j) == skipped.contains(j) || (
                #[trigger] self@.entries[j]).spec_schema(self@.data, !rows).len() == 0,
            forall|j: int|
                #[trigger] r@.contains(j) ==> skipped.contains(j) || (0 <= j < self@.entries.len()
                    && self@.entries[j].spec_readable(self@.data)),
    {
        let data = self.data.as_slice();
        let entries = self.entries.as_slice();
        let ghost before = schema_cells(out@);
        let ghost mut left_out: Set<int> = skipped;
        let mut i: usize = 0;
        while i < entries.len()
            invariant
                i <= entries@.len(),
                entries@ == self@.entries,
                data@ == self@.data,
                forall|j: int|
                    0 <= j < entries@.len() ==> left_out.contains(j) == skipped.contains(j) || (
                    #[trigger] entries@[j]).spec_schema(data@, !rows).len() == 0,
                forall|j: int|
                    #[trigger] left_out.contains(j) ==> skipped.contains(j) || (0 <= j
                        < entries@.len() && entries@[j].spec_readable(data@)),
                schema_cells(out@) == before + spec_schema_pass(entries@, data@, rows, left_out, i as nat),
            decreases entries@.len() - i,
        {
            let ghost pass = spec_schema_pass(entries@, data@, rows, left_out, i as nat);
            let ghost cells = entries@[i as int].spec_schema(data@, rows);
            let ghost earlier = left_out;
            let listed = match entries[i] {
                Entry::Column(e) => {
                    assert(entries@[i as int] == Entry::Column(e));
                    if rows {
                        Some(Vec::new())
                    } else {
                        e.schema(data)
                    }
                },
                Entry::Entity(e) => {
                    assert(entries@[i as int] == Entry::Entity(e));
                    if rows {
                        e.schema(data)
                    } else {
                        Some(Vec::new())
                    }
                },
                Entry::Metadata(m) => {
                    assert(entries@[i as int] == Entry::Metadata(m));
                    Some(Vec::new())
                },
            };
            match listed {
                Some(found) => {
                    assert(schema_cells(found@) =~= cells);
                    append_cells(out, &found);
                    proof {
                        if cells.len() > 0 {
                            left_out = earlier.remove(i as int);
                        }
                        assert(pass + cells =~= if cells.len() > 0 {
                            pass + cells
                        } else {
                            pass
                        });
                        assert(before + (pass + cells) =~= (before + pass) + cells);
                    }
                },
                None => {
                    proof {
                        if cells.len() > 0 {
                            left_out = earlier.insert(i as int);
                        } else {
                            assert(pass + cells =~= pass);
                        }
                    }
                },
            }
            proof {
                lemma_schema_pass_skipped(entries@, data@, rows, earlier, left_out, i as nat);
            }
            i += 1;
        }
        Ghost(left_out)
    }

    /// Lists `(entity, component, type, dimensions)` for every cell the
    /// descriptor describes, without a payload: first the cells of the
    /// column entries, then those of the row entries, each in the order of
    /// the entries.
    ///
    /// An entry whose shapes or ids cannot be read is left out. That
    /// includes entries on which a cast reports misaligned memory, which
    /// may happen to any entry: the contract therefore speaks of some set of
    /// entries that were left out.
    pub fn column_iter<'a>(&'a self) -> (r: Vec<(EntityId, ComponentId, PrimType, &'a [u64])>)
        ensures
            exists|skipped: Set<int>|
                {
                    &&& schema_cells(r@) == #[trigger] self@.spec_column_iter(skipped)
                    &&& self@.may_skip(skipped)
                },
            (forall|i: int|
                0 <= i < self@.entries.len() ==> !(#[trigger] self@.entries[i]).spec_readable(self@.data))
                ==> r@.len() == 0,
    {
        let mut out: Vec<(EntityId, ComponentId, PrimType, &'a [u64])> = Vec::new();
        let Ghost(in_columns) = self.schema_pass(false, &mut out, Ghost(Set::empty()));
        let ghost columns = schema_cells(out@);
        let Ghost(skipped) = self.schema_pass(true, &mut out, Ghost(in_columns));
        proof {
            assert(columns =~= spec_schema_pass(
                self@.entries,
                self@.data,
                false,
                in_columns,
                self@.entries.len(),
            ));
            lemma_schema_pass_skipped(
                self@.entries,
                self@.data,
                false,
                in_columns,
                skipped,
                self@.entries.len(),
            );
            assert(schema_cells(out@) == self@.spec_column_iter(skipped));
            assert(self@.may_skip(skipped));
            if forall|i: int|
                0 <= i < self@.entries.len() ==> !(#[trigger] self@.entries[i]).spec_readable(self@.data) {
                lemma_schema_pass_unreadable(
                    self@.entries,
                    self@.data,
                    false,
                    skipped,
                    self@.entries.len(),
                );
                lemma_schema_pass_unreadable(
                    self@.entries,
                    self@.data,
                    true,
                    skipped,
                    self@.entries.len(),
                );
                assert(schema_cells(out@).len() == 0);
            }
        }
        out
    }
}

impl Clone for VTable<Vec<Entry>, Vec<u8>> {
    fn clone(&self) -> (copy: Self)
        ensures
            copy@ == self@,
    {
        VTable {
            entries: slice_to_vec(self.entries.as_slice()),
            data: slice_to_vec(self.data.as_slice()),
        }
    }
}

impl Clone for VTableBuilder<Vec<Entry>, Vec<u8>> {
    fn clone(&self) -> (copy: Self)
        ensures
            copy@ == self@,
    {
        VTableBuilder { vtable: self.vtable.clone(), data_len: self.data_len }
    }
}

impl<EntryBuf: Buf<Entry>, DataBuf: Buf<u8>> Default for VTable<EntryBuf, DataBuf> {
    fn default() -> (vtable: Self)
        ensures
            vtable@.entries == Seq::<Entry>::empty(),
            vtable@.data == Seq::<u8>::empty(),
    {
        VTable { entries: EntryBuf::new(), data: DataBuf::new() }
    }
}

} // verus!
