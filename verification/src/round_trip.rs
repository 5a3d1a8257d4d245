//! What holds of every descriptor that the builder builds: a payload laid
//! out as the builder says is read back cell by cell; a payload that is
//! short is read back as far as it goes; every column lies at an offset
//! that is aligned for its element type; and the listing of the descriptor
//! names exactly the cells that decoding delivers.

use vstd::prelude::*;
use crate::buf::{padded, zeros};
use crate::cast::{
    all_valid, decode_all, encode_all, lemma_decode_encoded, lemma_encode_all_len, Element,
};
use crate::com_de::{deliver, Cell, Decomponentize};
use crate::error::Error;
use crate::table::{
    columns_aligned, component_words, dims_words, entity_words, lemma_dims_words_len,
    lemma_record_words_len, record_at, record_words, row_bytes, shape_record, sink_outcome,
    spec_arr_len, spec_decode, spec_parse_records, spec_read_timestamp, spec_schema_pass, tail,
    zero_words, BuilderView, ColumnEntry, ComponentSpec, Decoded, Entry, Record, RowEntry,
    RowProgress, SchemaCell, ShapeEntry, VTableView,
};
use crate::types::{
    data_valid, lemma_padding_for, padding_for, spec_view_of, typed_data, ComponentId,
    ComponentValue, EntityId, PrimType, Timestamp,
};

verus! {

/// The cells of a column whose arrays lie in `table` from `offset` on, one
/// array of `shape` after the other: the `i`-th cell belongs to the `i`-th
/// entity and shows the `i`-th array.
pub open spec fn column_cells(
    component_id: ComponentId,
    prim_type: PrimType,
    shape: Seq<u64>,
    ids: Seq<EntityId>,
    timestamp: Option<Timestamp>,
    table: Seq<u8>,
    offset: nat,
) -> Seq<Cell> {
    let n = spec_arr_len(shape).unwrap();
    let arr_size = n * (prim_type.spec_size() as nat);
    Seq::new(
        ids.len(),
        |i: int|
            Cell {
                component_id,
                entity_id: ids[i],
                value: ComponentValue {
                    shape,
                    data: typed_data(prim_type, tail(table, offset + i * arr_size), n),
                },
                timestamp,
            },
    )
}

/// Whether each of the arrays of a column holds values of `prim_type`: for
/// booleans, that every byte is zero or one.
pub open spec fn column_valid(
    prim_type: PrimType,
    shape: Seq<u64>,
    count: nat,
    table: Seq<u8>,
    offset: nat,
) -> bool {
    let n = spec_arr_len(shape).unwrap();
    let arr_size = n * (prim_type.spec_size() as nat);
    forall|i: int| 0 <= i < count ==> #[trigger] data_valid(prim_type, tail(table, offset + i * arr_size), n)
}

/// The empty builder.
pub open spec fn empty_builder() -> BuilderView {
    BuilderView { vtable: VTableView { entries: Seq::empty(), data: Seq::empty() }, data_len: 0 }
}

/// Words `skip` to `skip + count` of the words that were written behind
/// `front` are read back from the offset at which they start, whatever was
/// written after them.
proof fn lemma_words_read(front: Seq<u8>, words: Seq<u64>, rest: Seq<u8>, skip: nat, count: nat)
    requires
        skip + count <= words.len(),
    ensures
        ({
            let vdata = front + encode_all(words) + rest;
            let offset = front.len() + 8 * skip;
            &&& vdata.len() == front.len() + 8 * words.len() + rest.len()
            &&& offset + 8 * count <= vdata.len()
            &&& decode_all::<u64>(tail(vdata, offset as int), count) == words.subrange(
                skip as int,
                (skip + count) as int,
            )
        }),
{
    lemma_encode_all_len(words);
    lemma_decode_encoded::<u64>(front, words, rest, skip, count);
    assert(skip * 8 == 8 * skip && count * 8 == 8 * count && words.len() * 8 == 8 * words.len());
}

#[verifier::rlimit(30)]
proof fn lemma_column_cells(
    entry: ColumnEntry,
    shape: Seq<u64>,
    ids: Seq<EntityId>,
    timestamp: Option<Timestamp>,
    table: Seq<u8>,
    k: nat,
)
    requires
        k <= ids.len(),
        spec_arr_len(shape) is Some,
        table.len() <= usize::MAX,
        entry.data_col_offset + ids.len() * (spec_arr_len(shape).unwrap() * (
        entry.shape_entry.prim_type.spec_size() as nat)) <= table.len(),
        column_valid(
            entry.shape_entry.prim_type,
            shape,
            ids.len(),
            table,
            entry.data_col_offset as nat,
        ),
    ensures
        entry.spec_cells(
            shape,
            spec_arr_len(shape).unwrap() * (entry.shape_entry.prim_type.spec_size() as nat),
            ids,
            timestamp,
            table,
            k,
        ) == (Decoded {
            cells: column_cells(
                entry.component_id,
                entry.shape_entry.prim_type,
                shape,
                ids,
                timestamp,
                table,
                entry.data_col_offset as nat,
            ).take(k as int),
            error: None,
        }),
    decreases k,
{
    let prim_type = entry.shape_entry.prim_type;
    let n = spec_arr_len(shape).unwrap();
    let arr_size = n * (prim_type.spec_size() as nat);
    let all = column_cells(entry.component_id, prim_type, shape, ids, timestamp, table, entry.data_col_offset as nat);
    if k > 0 {
        lemma_column_cells(entry, shape, ids, timestamp, table, (k - 1) as nat);
        let i = k - 1;
        let offset = i * arr_size + entry.data_col_offset;
        assert(i * arr_size + arr_size <= ids.len() * arr_size) by (nonlinear_arith)
            requires
                0 <= i < ids.len(),
                arr_size >= 0,
        ;
        assert(i * arr_size >= 0) by (nonlinear_arith)
            requires
                i >= 0,
                arr_size >= 0,
        ;
        assert(data_valid(prim_type, tail(table, entry.data_col_offset as nat + i * arr_size), n));
        assert(tail(table, offset).len() >= arr_size);
        assert(spec_view_of(tail(table, offset), shape, prim_type) == Ok::<ComponentValue, Error>(
            all[i].value,
        ));
        assert(all.take(k as int) == all.take(k - 1).push(all[i]));
    } else {
        assert(all.take(0) == Seq::<Cell>::empty());
    }
}

/// A column reads back: the entry that the builder adds for a column, read
/// against the auxiliary data that the builder leaves, with whatever `rest`
/// is written to it later, and a payload that holds the column's arrays
/// where the entry says, decodes without error to one cell for each entity
/// id, in their order, each with the column's component id, the column's
/// shape and the elements of its own array.
#[verifier::rlimit(30)]
pub proof fn lemma_column_round_trip(
    b: BuilderView,
    component_id: ComponentId,
    prim_type: PrimType,
    shape: Seq<u64>,
    ids: Seq<EntityId>,
    timestamp_offset: Option<u64>,
    rest: Seq<u8>,
    table: Seq<u8>,
)
    requires
        !b.column_overflows(prim_type, shape, ids),
        b.base() + 8 * (shape.len() + ids.len()) <= usize::MAX,
        b.with_column(component_id, prim_type, shape, ids, timestamp_offset).data_len <= table.len()
            <= usize::MAX,
        spec_read_timestamp(timestamp_offset, table) is Ok,
        column_valid(
            prim_type,
            shape,
            ids.len(),
            table,
            b.column_entry(component_id, prim_type, shape, ids, timestamp_offset).data_col_offset as nat,
        ),
    ensures
        ({
            let entry = b.column_entry(component_id, prim_type, shape, ids, timestamp_offset);
            let after = b.with_column(component_id, prim_type, shape, ids, timestamp_offset);
            entry.spec_parse_table(after.vtable.data + rest, table) == (Decoded {
                cells: column_cells(
                    component_id,
                    prim_type,
                    shape,
                    ids,
                    spec_read_timestamp(timestamp_offset, table).unwrap(),
                    table,
                    entry.data_col_offset as nat,
                ),
                error: None,
            })
        }),
{
    let entry = b.column_entry(component_id, prim_type, shape, ids, timestamp_offset);
    let after = b.with_column(component_id, prim_type, shape, ids, timestamp_offset);
    let vdata = after.vtable.data + rest;
    let words = shape + entity_words(ids);
    let front = padded(b.vtable.data, 8);
    let n = spec_arr_len(shape).unwrap();
    let arr_size = n * (prim_type.spec_size() as nat);
    let timestamp = spec_read_timestamp(timestamp_offset, table).unwrap();
    lemma_padding_for(prim_type.spec_alignment() as nat, b.data_len);
    // the shape
    lemma_words_read(front, words, rest, 0, shape.len());
    assert(words.subrange(0, shape.len() as int) == shape);
    assert(entry.shape_entry.spec_parse_shape(vdata) == Ok::<Seq<u64>, Error>(shape));
    // the entity ids
    lemma_words_read(front, words, rest, shape.len(), ids.len());
    let id_words = words.subrange(shape.len() as int, (shape.len() + ids.len()) as int);
    assert(id_words == entity_words(ids));
    assert(ids.len() * 1 * 8 == ids.len() * 8);
    let parsed = spec_parse_records::<EntityId>(entry.entity_ids_entry.offset, vdata, ids.len());
    assert(parsed == Ok::<Seq<EntityId>, Error>(ids)) by {
        let from = tail(vdata, entry.entity_ids_entry.offset as int);
        let read = decode_all::<u64>(from, ids.len() * 1);
        assert(read == id_words);
        assert forall|i: int| 0 <= i < ids.len() implies (#[trigger] record_at::<EntityId>(read, i))
            == Some(ids[i]) by {
            assert(read.subrange(i * 1, (i + 1) * 1)[0] == read[i]);
        }
        assert(Seq::new(ids.len(), |i: int| record_at::<EntityId>(read, i).unwrap()) =~= ids);
    }
    // the arrays
    assert(ids.len() * n * (prim_type.spec_size() as nat) == ids.len() * arr_size) by (nonlinear_arith)
        requires
            arr_size == n * (prim_type.spec_size() as nat),
    ;
    lemma_column_cells(entry, shape, ids, timestamp, table, ids.len());
    let all = column_cells(component_id, prim_type, shape, ids, timestamp, table, entry.data_col_offset as nat);
    assert(all.take(ids.len() as int) == all);
}

/// Round trip of a descriptor with one column: built from nothing with one
/// column entry, the descriptor decodes a payload that holds the column's
/// arrays from its start on to exactly one cell for each entity id, in
/// their order.
#[verifier::rlimit(30)]
pub proof fn lemma_single_column_round_trip(
    component_id: ComponentId,
    prim_type: PrimType,
    shape: Seq<u64>,
    ids: Seq<EntityId>,
    table: Seq<u8>,
)
    requires
        !empty_builder().column_overflows(prim_type, shape, ids),
        8 * (shape.len() + ids.len()) <= usize::MAX,
        empty_builder().with_column(component_id, prim_type, shape, ids, None).data_len <= table.len()
            <= usize::MAX,
        column_valid(prim_type, shape, ids.len(), table, 0),
    ensures
        empty_builder().with_column(component_id, prim_type, shape, ids, None).vtable.spec_parse_table(
            table,
        ) == (Decoded {
            cells: column_cells(component_id, prim_type, shape, ids, None, table, 0),
            error: None,
        }),
{
    let b = empty_builder();
    lemma_padding_for(8, 0);
    lemma_padding_for(prim_type.spec_alignment() as nat, 0);
    assert(padded(b.vtable.data, 8) =~= b.vtable.data);
    lemma_column_round_trip(b, component_id, prim_type, shape, ids, None, Seq::empty(), table);
    let after = b.with_column(component_id, prim_type, shape, ids, None);
    assert(after.vtable.data + Seq::<u8>::empty() =~= after.vtable.data);
    let entry = b.column_entry(component_id, prim_type, shape, ids, None);
    assert(after.vtable.entries.len() == 1);
    assert(after.vtable.entries[0] == Entry::Column(entry));
    let cells = column_cells(component_id, prim_type, shape, ids, None, table, 0);
    reveal_with_fuel(spec_decode, 3);
    assert(spec_decode(after.vtable.entries, after.vtable.data, table, 0) == Decoded::empty());
    assert(Seq::<Cell>::empty() + cells == cells);
    assert(spec_decode(after.vtable.entries, after.vtable.data, table, 1) == Decoded::empty().followed_by(
        Entry::Column(entry).spec_parse_table(after.vtable.data, table),
    ));
}

/// The cells of the first `k` components of a row whose arrays lie in
/// `table` from `offset` on, packed one after the other: the `i`-th cell
/// belongs to the `i`-th component and shows the `i`-th array.
pub open spec fn row_cells(
    entity_id: EntityId,
    comps: Seq<ComponentSpec>,
    timestamp: Option<Timestamp>,
    table: Seq<u8>,
    offset: nat,
    k: nat,
) -> Seq<Cell> {
    Seq::new(
        k,
        |i: int|
            Cell {
                component_id: comps[i].id,
                entity_id,
                value: ComponentValue {
                    shape: comps[i].shape,
                    data: typed_data(
                        comps[i].prim_type,
                        tail(table, (offset + row_bytes(comps, i as nat).unwrap()) as int),
                        spec_arr_len(comps[i].shape).unwrap(),
                    ),
                },
                timestamp,
            },
    )
}

/// Whether each of the arrays of a row holds values of its type: for
/// booleans, that every byte is zero or one.
pub open spec fn row_valid(comps: Seq<ComponentSpec>, table: Seq<u8>, offset: nat) -> bool {
    forall|i: int|
        0 <= i < comps.len() ==> data_valid(
            (#[trigger] comps[i]).prim_type,
            tail(table, (offset + row_bytes(comps, i as nat).unwrap()) as int),
            spec_arr_len(comps[i].shape).unwrap(),
        )
}

/// The payload of a row that does not overflow grows with every component,
/// and every shape and array size on the way fits.
proof fn lemma_row_bytes_step(comps: Seq<ComponentSpec>, i: nat, k: nat)
    requires
        i < k <= comps.len(),
        row_bytes(comps, k) is Some,
    ensures
        row_bytes(comps, i) is Some,
        row_bytes(comps, i + 1) is Some,
        spec_arr_len(comps[i as int].shape) is Some,
        row_bytes(comps, i + 1).unwrap() == row_bytes(comps, i).unwrap() + spec_arr_len(
            comps[i as int].shape,
        ).unwrap() * (comps[i as int].prim_type.spec_size() as nat),
        row_bytes(comps, i + 1).unwrap() <= row_bytes(comps, k).unwrap() <= usize::MAX,
    decreases k,
{
    if i + 1 < k {
        lemma_row_bytes_step(comps, i, (k - 1) as nat);
    }
    if k >= 1 {
        let n = spec_arr_len(comps[k - 1].shape).unwrap();
        assert(n * (comps[k - 1].prim_type.spec_size() as nat) >= 0) by (nonlinear_arith);
    }
}

/// The words of the `i`-th shape record lie at words `3 * i` to `3 * i + 3`
/// of the record words.
proof fn lemma_record_words_at(comps: Seq<ComponentSpec>, dims_offset: nat, k: nat, i: int)
    requires
        0 <= i < k,
    ensures
        record_words(comps, dims_offset, k).len() == 3 * k,
        record_words(comps, dims_offset, k).subrange(3 * i, 3 * i + 3) == shape_record(
            comps,
            dims_offset,
            i,
        ).to_words(),
    decreases k,
{
    lemma_record_words_len(comps, dims_offset, k);
    lemma_record_words_len(comps, dims_offset, (k - 1) as nat);
    let all = record_words(comps, dims_offset, k);
    let front = record_words(comps, dims_offset, (k - 1) as nat);
    if i == k - 1 {
        assert(all.subrange(3 * i, 3 * i + 3) =~= shape_record(comps, dims_offset, i).to_words());
    } else {
        lemma_record_words_at(comps, dims_offset, (k - 1) as nat, i);
        assert(all.subrange(3 * i, 3 * i + 3) =~= front.subrange(3 * i, 3 * i + 3));
    }
}

/// The dimensions of the `i`-th component lie behind those of the
/// components before it.
proof fn lemma_dims_words_at(comps: Seq<ComponentSpec>, k: nat, i: int)
    requires
        0 <= i < k,
    ensures
        dims_words(comps, i as nat).len() + comps[i].shape.len() <= dims_words(comps, k).len(),
        dims_words(comps, k).subrange(
            dims_words(comps, i as nat).len() as int,
            (dims_words(comps, i as nat).len() + comps[i].shape.len()) as int,
        ) == comps[i].shape,
    decreases k,
{
    let all = dims_words(comps, k);
    let front = dims_words(comps, (k - 1) as nat);
    let at = dims_words(comps, i as nat).len() as int;
    if i == k - 1 {
        assert(all.subrange(at, at + comps[i].shape.len()) =~= comps[i].shape);
    } else {
        lemma_dims_words_at(comps, (k - 1) as nat, i);
        assert(all.subrange(at, at + comps[i].shape.len()) =~= front.subrange(
            at,
            at + comps[i].shape.len(),
        ));
    }
}

/// The ids and the shape records of a row, as the parser reads them back.
pub open spec fn row_ids(comps: Seq<ComponentSpec>) -> Seq<ComponentId> {
    Seq::new(comps.len(), |i: int| comps[i].id)
}

/// The shape records of a row whose dimensions lie from `dims_offset` on.
pub open spec fn row_shapes(comps: Seq<ComponentSpec>, dims_offset: nat) -> Seq<ShapeEntry> {
    Seq::new(comps.len(), |i: int| shape_record(comps, dims_offset, i))
}

/// Whether every shape record of a row leads to the dimensions of its
/// component.
#[verifier::opaque]
spec fn shapes_read_back(comps: Seq<ComponentSpec>, dims_offset: nat, vdata: Seq<u8>) -> bool {
    forall|i: int|
        0 <= i < comps.len() ==> (#[trigger] shape_record(comps, dims_offset, i)).spec_parse_shape(
            vdata,
        ) == Ok::<Seq<u64>, Error>(comps[i].shape)
}

/// The cell of the `i`-th component of a row, as the parser decodes it.
#[verifier::spinoff_prover]
proof fn lemma_row_cell(
    entry: RowEntry,
    comps: Seq<ComponentSpec>,
    dims_offset: nat,
    timestamp: Option<Timestamp>,
    vdata: Seq<u8>,
    table: Seq<u8>,
    i: nat,
)
    requires
        i < comps.len(),
        row_bytes(comps, comps.len()) is Some,
        entry.data_col_offset + row_bytes(comps, comps.len()).unwrap() <= table.len() <= usize::MAX,
        row_valid(comps, table, entry.data_col_offset as nat),
        shapes_read_back(comps, dims_offset, vdata),
    ensures
        row_bytes(comps, i) is Some,
        row_bytes(comps, i + 1) is Some,
        entry.spec_cell(
            entry.data_col_offset as nat + row_bytes(comps, i).unwrap(),
            row_ids(comps)[i as int],
            row_shapes(comps, dims_offset)[i as int],
            timestamp,
            vdata,
            table,
        ) == Ok::<(Cell, nat), Error>(
            (
                row_cells(
                    entry.entity_id,
                    comps,
                    timestamp,
                    table,
                    entry.data_col_offset as nat,
                    comps.len(),
                )[i as int],
                (row_bytes(comps, i + 1).unwrap() - row_bytes(comps, i).unwrap()) as nat,
            ),
        ),
{
    reveal(shapes_read_back);
    let offset = entry.data_col_offset as nat;
    lemma_row_bytes_step(comps, i, comps.len());
    let comp = comps[i as int];
    let record = shape_record(comps, dims_offset, i as int);
    let cursor = offset + row_bytes(comps, i).unwrap();
    let n = spec_arr_len(comp.shape).unwrap();
    let size = n * (comp.prim_type.spec_size() as nat);
    assert(record.spec_parse_shape(vdata) == Ok::<Seq<u64>, Error>(comp.shape));
    assert(data_valid(comp.prim_type, tail(table, cursor as int), n));
    assert(tail(table, cursor as int).len() >= size);
    assert(record.prim_type == comp.prim_type);
    let value = ComponentValue { shape: comp.shape, data: typed_data(comp.prim_type, tail(table, cursor as int), n) };
    assert(spec_view_of(tail(table, cursor as int), comp.shape, comp.prim_type) == Ok::<
        ComponentValue,
        Error,
    >(value));
}

/// The first `k` cells of a row, as the parser decodes them.
pub open spec fn row_progress(
    entry: RowEntry,
    comps: Seq<ComponentSpec>,
    timestamp: Option<Timestamp>,
    table: Seq<u8>,
    k: nat,
) -> RowProgress {
    RowProgress {
        decoded: Decoded {
            cells: row_cells(
                entry.entity_id,
                comps,
                timestamp,
                table,
                entry.data_col_offset as nat,
                comps.len(),
            ).take(k as int),
            error: None,
        },
        cursor: entry.data_col_offset as nat + row_bytes(comps, k).unwrap(),
    }
}

#[verifier::spinoff_prover]
proof fn lemma_row_cells(
    entry: RowEntry,
    comps: Seq<ComponentSpec>,
    dims_offset: nat,
    timestamp: Option<Timestamp>,
    vdata: Seq<u8>,
    table: Seq<u8>,
    k: nat,
)
    requires
        k <= comps.len(),
        row_bytes(comps, comps.len()) is Some,
        entry.data_col_offset + row_bytes(comps, comps.len()).unwrap() <= table.len() <= usize::MAX,
        row_valid(comps, table, entry.data_col_offset as nat),
        shapes_read_back(comps, dims_offset, vdata),
    ensures
        row_bytes(comps, k) is Some,
        entry.spec_cells(row_ids(comps), row_shapes(comps, dims_offset), timestamp, vdata, table, k)
            == row_progress(entry, comps, timestamp, table, k),
    decreases k,
{
    let all = row_cells(entry.entity_id, comps, timestamp, table, entry.data_col_offset as nat, comps.len());
    let ids = row_ids(comps);
    let shapes = row_shapes(comps, dims_offset);
    if k > 0 {
        let i = (k - 1) as nat;
        lemma_row_cells(entry, comps, dims_offset, timestamp, vdata, table, i);
        lemma_row_cell(entry, comps, dims_offset, timestamp, vdata, table, i);
        let prev = entry.spec_cells(ids, shapes, timestamp, vdata, table, i);
        let size = (row_bytes(comps, i + 1).unwrap() - row_bytes(comps, i).unwrap()) as nat;
        assert(prev == row_progress(entry, comps, timestamp, table, i));
        assert(entry.spec_cell(prev.cursor, ids[k - 1], shapes[k - 1], timestamp, vdata, table) == Ok::<
            (Cell, nat),
            Error,
        >((all[i as int], size)));
        assert(all.take(k as int) =~= all.take(i as int).push(all[i as int]));
        assert(entry.spec_cells(ids, shapes, timestamp, vdata, table, k) == (RowProgress {
            decoded: Decoded { cells: prev.decoded.cells.push(all[i as int]), error: None },
            cursor: prev.cursor + size,
        }));
    } else {
        assert(all.take(0) =~= Seq::<Cell>::empty());
    }
}

/// The component ids of a row are read back from where the builder wrote
/// them.
#[verifier::rlimit(30)]
proof fn lemma_row_ids_read(b: BuilderView, comps: Seq<ComponentSpec>, rest: Seq<u8>)
    requires
        b.base() + 8 * b.row_words(comps).len() <= usize::MAX,
    ensures
        spec_parse_records::<ComponentId>(
            b.base() as u64,
            padded(b.vtable.data, 8) + encode_all(b.row_words(comps)) + rest,
            comps.len(),
        ) == Ok::<Seq<ComponentId>, Error>(row_ids(comps)),
{
    let n = comps.len();
    let words = b.row_words(comps);
    let front = padded(b.vtable.data, 8);
    let vdata = front + encode_all(words) + rest;
    lemma_record_words_len(comps, b.row_dims_offset(n), n);
    lemma_words_read(front, words, rest, 0, n);
    assert(words.subrange(0, n as int) =~= component_words(comps));
    assert(n * 1 * 8 == 8 * n);
    let read = decode_all::<u64>(tail(vdata, b.base() as int), n * 1);
    assert(read == component_words(comps));
    assert forall|i: int| 0 <= i < n implies (#[trigger] record_at::<ComponentId>(read, i)) == Some(
        comps[i].id,
    ) by {
        assert(read.subrange(i * 1, (i + 1) * 1)[0] == read[i]);
    }
    assert(Seq::new(n, |i: int| record_at::<ComponentId>(read, i).unwrap()) =~= row_ids(comps));
}

/// The shape records of a row are read back from where the builder wrote
/// them.
#[verifier::rlimit(30)]
proof fn lemma_row_shapes_read(b: BuilderView, comps: Seq<ComponentSpec>, rest: Seq<u8>)
    requires
        b.base() + 8 * b.row_words(comps).len() <= usize::MAX,
    ensures
        spec_parse_records::<ShapeEntry>(
            b.row_shapes_offset(comps.len()) as u64,
            padded(b.vtable.data, 8) + encode_all(b.row_words(comps)) + rest,
            comps.len(),
        ) == Ok::<Seq<ShapeEntry>, Error>(row_shapes(comps, b.row_dims_offset(comps.len()))),
{
    let n = comps.len();
    let pad = b.row_pad_words(n);
    let dims_offset = b.row_dims_offset(n);
    let words = b.row_words(comps);
    let front = padded(b.vtable.data, 8);
    let vdata = front + encode_all(words) + rest;
    let records = record_words(comps, dims_offset, n);
    lemma_record_words_len(comps, dims_offset, n);
    lemma_words_read(front, words, rest, n + pad, 3 * n);
    assert(words.subrange((n + pad) as int, (n + pad + 3 * n) as int) =~= records);
    assert(n * 3 * 8 == 8 * (3 * n));
    assert(n * 3 == 3 * n);
    let read = decode_all::<u64>(tail(vdata, b.row_shapes_offset(n) as int), n * 3);
    assert(read == records);
    assert forall|i: int| 0 <= i < n implies (#[trigger] record_at::<ShapeEntry>(read, i)) == Some(
        shape_record(comps, dims_offset, i),
    ) by {
        lemma_record_words_at(comps, dims_offset, n, i);
        shape_record(comps, dims_offset, i).lemma_round_trip();
        assert(i * 3 == 3 * i && (i + 1) * 3 == 3 * i + 3);
    }
    assert(Seq::new(n, |i: int| record_at::<ShapeEntry>(read, i).unwrap()) =~= row_shapes(
        comps,
        dims_offset,
    ));
}

/// The dimensions of the `i`-th component of a row are read back through
/// its shape record.
#[verifier::rlimit(30)]
proof fn lemma_row_dims_read(b: BuilderView, comps: Seq<ComponentSpec>, rest: Seq<u8>, i: int)
    requires
        b.base() + 8 * b.row_words(comps).len() <= usize::MAX,
        0 <= i < comps.len(),
    ensures
        shape_record(comps, b.row_dims_offset(comps.len()), i).spec_parse_shape(
            padded(b.vtable.data, 8) + encode_all(b.row_words(comps)) + rest,
        ) == Ok::<Seq<u64>, Error>(comps[i].shape),
{
    let n = comps.len();
    let pad = b.row_pad_words(n);
    let dims_offset = b.row_dims_offset(n);
    let words = b.row_words(comps);
    let front = padded(b.vtable.data, 8);
    let dims = dims_words(comps, n);
    let at = dims_words(comps, i as nat).len();
    let rank = comps[i].shape.len();
    lemma_record_words_len(comps, dims_offset, n);
    lemma_dims_words_at(comps, n, i);
    lemma_words_read(front, words, rest, 4 * n + pad + at, rank);
    assert(words.subrange((4 * n + pad + at) as int, (4 * n + pad + at + rank) as int) =~= dims.subrange(
        at as int,
        (at + rank) as int,
    ));
    assert(front.len() + 8 * (4 * n + pad + at) == dims_offset + 8 * at);
}

/// A row reads back: the entry that the builder adds for a row, read
/// against the auxiliary data that the builder leaves, with whatever `rest`
/// is written to it later, and a payload that holds the row's arrays one
/// after the other where the entry says, decodes without error to one cell
/// for each component, in their order, each with the row's entity id, the
/// component's own id and shape, and the elements of its own array.
#[verifier::rlimit(30)]
pub proof fn lemma_row_round_trip(
    b: BuilderView,
    entity_id: EntityId,
    comps: Seq<ComponentSpec>,
    timestamp_offset: Option<u64>,
    rest: Seq<u8>,
    table: Seq<u8>,
)
    requires
        !b.row_overflows(comps),
        b.base() + 8 * b.row_words(comps).len() <= usize::MAX,
        b.with_row(entity_id, comps, timestamp_offset).data_len <= table.len() <= usize::MAX,
        spec_read_timestamp(timestamp_offset, table) is Ok,
        row_valid(comps, table, b.data_len),
    ensures
        b.row_entry(entity_id, comps, timestamp_offset).spec_parse_table(
            b.with_row(entity_id, comps, timestamp_offset).vtable.data + rest,
            table,
        ) == (Decoded {
            cells: row_cells(
                entity_id,
                comps,
                spec_read_timestamp(timestamp_offset, table).unwrap(),
                table,
                b.data_len,
                comps.len(),
            ),
            error: None,
        }),
{
    let entry = b.row_entry(entity_id, comps, timestamp_offset);
    let vdata = b.with_row(entity_id, comps, timestamp_offset).vtable.data + rest;
    let n = comps.len();
    let dims_offset = b.row_dims_offset(n);
    let timestamp = spec_read_timestamp(timestamp_offset, table).unwrap();
    lemma_record_words_len(comps, dims_offset, n);
    lemma_row_ids_read(b, comps, rest);
    lemma_row_shapes_read(b, comps, rest);
    assert(shapes_read_back(comps, dims_offset, vdata)) by {
        reveal(shapes_read_back);
        assert forall|i: int| 0 <= i < n implies (#[trigger] shape_record(
            comps,
            dims_offset,
            i,
        )).spec_parse_shape(vdata) == Ok::<Seq<u64>, Error>(comps[i].shape) by {
            lemma_row_dims_read(b, comps, rest, i);
        }
    }
    lemma_row_cells(entry, comps, dims_offset, timestamp, vdata, table, n);
    let all = row_cells(entry.entity_id, comps, timestamp, table, b.data_len, n);
    assert(all.take(n as int) =~= all);
}

/// Round trip of a descriptor with one row: built from nothing with one
/// row entry, the descriptor decodes a payload that is the concatenation of
/// the row's arrays to exactly one cell for each component, in their order.
#[verifier::rlimit(30)]
pub proof fn lemma_single_row_round_trip(
    entity_id: EntityId,
    comps: Seq<ComponentSpec>,
    table: Seq<u8>,
)
    requires
        !empty_builder().row_overflows(comps),
        8 * empty_builder().row_words(comps).len() <= usize::MAX,
        empty_builder().with_row(entity_id, comps, None).data_len <= table.len() <= usize::MAX,
        row_valid(comps, table, 0),
    ensures
        empty_builder().with_row(entity_id, comps, None).vtable.spec_parse_table(table) == (Decoded {
            cells: row_cells(entity_id, comps, None, table, 0, comps.len()),
            error: None,
        }),
{
    let b = empty_builder();
    lemma_padding_for(8, 0);
    assert(padded(b.vtable.data, 8) =~= b.vtable.data);
    lemma_row_round_trip(b, entity_id, comps, None, Seq::empty(), table);
    let after = b.with_row(entity_id, comps, None);
    assert(after.vtable.data + Seq::<u8>::empty() =~= after.vtable.data);
    let entry = b.row_entry(entity_id, comps, None);
    assert(after.vtable.entries.len() == 1);
    assert(after.vtable.entries[0] == Entry::Entity(entry));
    let cells = row_cells(entity_id, comps, None, table, 0, comps.len());
    reveal_with_fuel(spec_decode, 3);
    assert(Seq::<Cell>::empty() + cells == cells);
    assert(spec_decode(after.vtable.entries, after.vtable.data, table, 1) == Decoded::empty().followed_by(
        Entry::Entity(entry).spec_parse_table(after.vtable.data, table),
    ));
}

/// Alignment of columns: every array of a column that the builder lays out
/// starts at a multiple of the alignment of the column's element type,
/// whatever the builder held before.
pub proof fn lemma_column_arrays_aligned(
    b: BuilderView,
    component_id: ComponentId,
    prim_type: PrimType,
    shape: Seq<u64>,
    ids: Seq<EntityId>,
    timestamp_offset: Option<u64>,
    i: int,
)
    requires
        !b.column_overflows(prim_type, shape, ids),
        0 <= i < ids.len(),
    ensures
        ({
            let entry = b.column_entry(component_id, prim_type, shape, ids, timestamp_offset);
            let arr_size = spec_arr_len(shape).unwrap() * (prim_type.spec_size() as nat);
            (entry.data_col_offset + i * arr_size) % (prim_type.spec_alignment() as int) == 0
        }),
{
    let align = prim_type.spec_alignment() as int;
    let n = spec_arr_len(shape).unwrap() as int;
    let start = (b.data_len + padding_for(align as nat, b.data_len)) as int;
    lemma_padding_for(align as nat, b.data_len);
    assert(i * (n * align) == (i * n) * align) by (nonlinear_arith);
    vstd::arithmetic::div_mod::lemma_mod_multiples_vanish(i * n, start, align);
    assert(padding_for(align as nat, b.data_len) >= 0);
    assert(ids.len() * n * align >= 0) by (nonlinear_arith)
        requires
            n >= 0,
            align > 0,
    ;
}

/// Placement of a column: the builder places a column at the least multiple
/// of the alignment of its element type that is not below the payload
/// counter, and moves the counter behind the column's last array: by the
/// number of entities times the number of elements of one array times the
/// size of an element.
pub proof fn lemma_column_placement(
    b: BuilderView,
    component_id: ComponentId,
    prim_type: PrimType,
    shape: Seq<u64>,
    ids: Seq<EntityId>,
    timestamp_offset: Option<u64>,
)
    requires
        !b.column_overflows(prim_type, shape, ids),
    ensures
        ({
            let entry = b.column_entry(component_id, prim_type, shape, ids, timestamp_offset);
            let after = b.with_column(component_id, prim_type, shape, ids, timestamp_offset);
            let align = prim_type.spec_alignment() as int;
            let offset = entry.data_col_offset as int;
            &&& offset % align == 0
            &&& b.data_len <= offset < b.data_len + align
            &&& forall|m: nat| b.data_len <= m && #[trigger] (m % (align as nat)) == 0 ==> offset <= m
            &&& after.data_len == offset + ids.len() * spec_arr_len(shape).unwrap() * (
            prim_type.spec_size() as nat)
            &&& after.vtable.entries == b.vtable.entries.push(Entry::Column(entry))
        }),
{
    let n = spec_arr_len(shape).unwrap();
    lemma_padding_for(prim_type.spec_alignment() as nat, b.data_len);
    assert(ids.len() * n * (prim_type.spec_size() as nat) >= 0) by (nonlinear_arith);
}

/// Packed values read back: where a payload holds the encoding of `values`
/// at `offset`, the elements read from `offset` on are `values`, and each
/// of them is valid.
pub proof fn lemma_packed_values_read_back<T: Element>(payload: Seq<u8>, offset: nat, values: Seq<T>)
    requires
        offset + encode_all(values).len() <= payload.len(),
        payload.subrange(offset as int, (offset + encode_all(values).len()) as int) == encode_all(
            values,
        ),
    ensures
        values.len() * T::width() <= tail(payload, offset as int).len(),
        all_valid::<T>(tail(payload, offset as int), values.len()),
        decode_all::<T>(tail(payload, offset as int), values.len()) == values,
{
    let before = payload.subrange(0, offset as int);
    let after = payload.subrange((offset + encode_all(values).len()) as int, payload.len() as int);
    lemma_decode_encoded::<T>(before, values, after, 0, values.len());
    assert(payload =~= before + encode_all(values) + after);
    assert(0 * T::width() == 0);
    assert(values.subrange(0, values.len() as int) =~= values);
}

/// One operation of a builder.
pub enum Step {
    /// A column is added.
    Column {
        component_id: ComponentId,
        prim_type: PrimType,
        shape: Seq<u64>,
        ids: Seq<EntityId>,
        timestamp_offset: Option<u64>,
    },
    /// A row is added.
    Row { entity_id: EntityId, comps: Seq<ComponentSpec>, timestamp_offset: Option<u64> },
    /// A timestamp slot is reserved.
    Timestamp,
}

impl Step {
    /// Whether a builder that holds `b` and has room in its buffers
    /// carries the step out: no size leaves the range of `usize`.
    pub open spec fn applies(self, b: BuilderView) -> bool {
        match self {
            Step::Column { prim_type, shape, ids, .. } => {
                &&& !b.column_overflows(prim_type, shape, ids)
                &&& b.base() + 8 * (shape.len() + ids.len()) <= usize::MAX
            },
            Step::Row { comps, .. } => {
                &&& !b.row_overflows(comps)
                &&& b.base() + 8 * b.row_words(comps).len() <= usize::MAX
            },
            Step::Timestamp => b.data_len + padding_for(8, b.data_len) + 8 <= usize::MAX,
        }
    }

    /// The builder after the step.
    pub open spec fn apply(self, b: BuilderView) -> BuilderView {
        match self {
            Step::Column { component_id, prim_type, shape, ids, timestamp_offset } => b.with_column(
                component_id,
                prim_type,
                shape,
                ids,
                timestamp_offset,
            ),
            Step::Row { entity_id, comps, timestamp_offset } => b.with_row(
                entity_id,
                comps,
                timestamp_offset,
            ),
            Step::Timestamp => b.with_timestamp(),
        }
    }

    /// Whether `table` holds what the step has laid out: the arrays, with
    /// valid elements, and the timestamp that the entry points at, if it
    /// points at one.
    pub open spec fn readable(self, b: BuilderView, table: Seq<u8>) -> bool {
        match self {
            Step::Column { component_id, prim_type, shape, ids, timestamp_offset } => {
                &&& self.apply(b).data_len <= table.len()
                &&& spec_read_timestamp(timestamp_offset, table) is Ok
                &&& column_valid(
                    prim_type,
                    shape,
                    ids.len(),
                    table,
                    b.column_entry(
                        component_id,
                        prim_type,
                        shape,
                        ids,
                        timestamp_offset,
                    ).data_col_offset as nat,
                )
            },
            Step::Row { comps, timestamp_offset, .. } => {
                &&& self.apply(b).data_len <= table.len()
                &&& spec_read_timestamp(timestamp_offset, table) is Ok
                &&& row_valid(comps, table, b.data_len)
            },
            Step::Timestamp => true,
        }
    }

    /// The cells that the entry of the step decodes to.
    pub open spec fn cells(self, b: BuilderView, table: Seq<u8>) -> Seq<Cell> {
        match self {
            Step::Column { component_id, prim_type, shape, ids, timestamp_offset } => column_cells(
                component_id,
                prim_type,
                shape,
                ids,
                spec_read_timestamp(timestamp_offset, table).unwrap(),
                table,
                b.column_entry(component_id, prim_type, shape, ids, timestamp_offset).data_col_offset as nat,
            ),
            Step::Row { entity_id, comps, timestamp_offset } => row_cells(
                entity_id,
                comps,
                spec_read_timestamp(timestamp_offset, table).unwrap(),
                table,
                b.data_len,
                comps.len(),
            ),
            Step::Timestamp => Seq::empty(),
        }
    }
}

/// The builder after the first `k` of `steps`, starting from nothing.
pub open spec fn built(steps: Seq<Step>, k: nat) -> BuilderView
    decreases k,
{
    if k == 0 {
        empty_builder()
    } else {
        steps[k - 1].apply(built(steps, (k - 1) as nat))
    }
}

/// The cells that the entries of the first `k` of `steps` decode to, one
/// entry after the other.
pub open spec fn built_cells(steps: Seq<Step>, table: Seq<u8>, k: nat) -> Seq<Cell>
    decreases k,
{
    if k == 0 {
        Seq::empty()
    } else {
        built_cells(steps, table, (k - 1) as nat) + steps[k - 1].cells(
            built(steps, (k - 1) as nat),
            table,
        )
    }
}

/// Whether each of the first `k` of `steps` is carried out and `table`
/// holds what it has laid out.
pub open spec fn well_built(steps: Seq<Step>, table: Seq<u8>, k: nat) -> bool {
    forall|j: int|
        0 <= j < k ==> (#[trigger] steps[j]).applies(built(steps, j as nat)) && steps[j].readable(
            built(steps, j as nat),
            table,
        )
}

/// Entries that come later have no part in decoding the earlier ones.
proof fn lemma_decode_ignores_later(
    entries: Seq<Entry>,
    entry: Entry,
    vdata: Seq<u8>,
    table: Seq<u8>,
    k: nat,
)
    requires
        k <= entries.len(),
    ensures
        spec_decode(entries.push(entry), vdata, table, k) == spec_decode(entries, vdata, table, k),
    decreases k,
{
    if k > 0 {
        lemma_decode_ignores_later(entries, entry, vdata, table, (k - 1) as nat);
        assert(entries.push(entry)[k - 1] == entries[k - 1]);
    }
}

/// An entry that decodes without error adds its cells to those of the
/// entries before it.
proof fn lemma_entry_added(
    entries: Seq<Entry>,
    entry: Entry,
    vdata: Seq<u8>,
    table: Seq<u8>,
    cells: Seq<Cell>,
    added: Seq<Cell>,
)
    requires
        spec_decode(entries, vdata, table, entries.len()) == (Decoded { cells, error: None }),
        entry.spec_parse_table(vdata, table) == (Decoded { cells: added, error: None }),
    ensures
        spec_decode(entries.push(entry), vdata, table, entries.len() + 1) == (Decoded {
            cells: cells + added,
            error: None,
        }),
{
    lemma_decode_ignores_later(entries, entry, vdata, table, entries.len());
    assert(entries.push(entry)[entries.len() as int] == entry);
}

/// The step from a builder to the builder with one more column.
#[verifier::rlimit(30)]
proof fn lemma_column_step(
    before: BuilderView,
    component_id: ComponentId,
    prim_type: PrimType,
    shape: Seq<u64>,
    ids: Seq<EntityId>,
    timestamp_offset: Option<u64>,
    table: Seq<u8>,
    rest: Seq<u8>,
    cells: Seq<Cell>,
)
    requires
        table.len() <= usize::MAX,
        (Step::Column { component_id, prim_type, shape, ids, timestamp_offset }).applies(before),
        (Step::Column { component_id, prim_type, shape, ids, timestamp_offset }).readable(
            before,
            table,
        ),
        forall|later: Seq<u8>|
            spec_decode(
                before.vtable.entries,
                #[trigger] (before.vtable.data + later),
                table,
                before.vtable.entries.len(),
            ) == (Decoded { cells, error: None }),
    ensures
        ({
            let step = Step::Column { component_id, prim_type, shape, ids, timestamp_offset };
            let after = step.apply(before);
            spec_decode(after.vtable.entries, after.vtable.data + rest, table, after.vtable.entries.len())
                == (Decoded { cells: cells + step.cells(before, table), error: None })
        }),
{
    let step = Step::Column { component_id, prim_type, shape, ids, timestamp_offset };
    let after = before.with_column(component_id, prim_type, shape, ids, timestamp_offset);
    let entry = before.column_entry(component_id, prim_type, shape, ids, timestamp_offset);
    let written = zeros(padding_for(8, before.vtable.data.len())) + encode_all(shape + entity_words(ids));
    let vdata = after.vtable.data + rest;
    assert(vdata =~= before.vtable.data + (written + rest));
    lemma_column_round_trip(before, component_id, prim_type, shape, ids, timestamp_offset, rest, table);
    lemma_entry_added(
        before.vtable.entries,
        Entry::Column(entry),
        vdata,
        table,
        cells,
        step.cells(before, table),
    );
}

/// The step from a builder to the builder with one more row.
#[verifier::rlimit(30)]
proof fn lemma_row_step(
    before: BuilderView,
    entity_id: EntityId,
    comps: Seq<ComponentSpec>,
    timestamp_offset: Option<u64>,
    table: Seq<u8>,
    rest: Seq<u8>,
    cells: Seq<Cell>,
)
    requires
        table.len() <= usize::MAX,
        (Step::Row { entity_id, comps, timestamp_offset }).applies(before),
        (Step::Row { entity_id, comps, timestamp_offset }).readable(before, table),
        forall|later: Seq<u8>|
            spec_decode(
                before.vtable.entries,
                #[trigger] (before.vtable.data + later),
                table,
                before.vtable.entries.len(),
            ) == (Decoded { cells, error: None }),
    ensures
        ({
            let step = Step::Row { entity_id, comps, timestamp_offset };
            let after = step.apply(before);
            spec_decode(after.vtable.entries, after.vtable.data + rest, table, after.vtable.entries.len())
                == (Decoded { cells: cells + step.cells(before, table), error: None })
        }),
{
    let step = Step::Row { entity_id, comps, timestamp_offset };
    let after = before.with_row(entity_id, comps, timestamp_offset);
    let entry = before.row_entry(entity_id, comps, timestamp_offset);
    let written = zeros(padding_for(8, before.vtable.data.len())) + encode_all(before.row_words(comps));
    let vdata = after.vtable.data + rest;
    assert(vdata =~= before.vtable.data + (written + rest));
    lemma_row_round_trip(before, entity_id, comps, timestamp_offset, rest, table);
    lemma_entry_added(
        before.vtable.entries,
        Entry::Entity(entry),
        vdata,
        table,
        cells,
        step.cells(before, table),
    );
}

/// What was built reads back, even after more has been built: the entries
/// of the first `k` steps, read against the auxiliary data with whatever
/// `rest` was written to it later, decode to the cells of each step in
/// turn.
#[verifier::rlimit(30)]
pub proof fn lemma_built_reads_back(steps: Seq<Step>, table: Seq<u8>, rest: Seq<u8>, k: nat)
    requires
        k <= steps.len(),
        table.len() <= usize::MAX,
        well_built(steps, table, k),
    ensures
        ({
            let b = built(steps, k);
            spec_decode(b.vtable.entries, b.vtable.data + rest, table, b.vtable.entries.len())
                == (Decoded { cells: built_cells(steps, table, k), error: None })
        }),
    decreases k,
{
    if k > 0 {
        let before = built(steps, (k - 1) as nat);
        let step = steps[k - 1];
        let cells = built_cells(steps, table, (k - 1) as nat);
        assert(step.applies(before) && step.readable(before, table));
        assert forall|later: Seq<u8>|
            spec_decode(
                before.vtable.entries,
                #[trigger] (before.vtable.data + later),
                table,
                before.vtable.entries.len(),
            ) == (Decoded { cells, error: None }) by {
            lemma_built_reads_back(steps, table, later, (k - 1) as nat);
        }
        match step {
            Step::Timestamp => {
                assert(cells + step.cells(before, table) =~= cells);
            },
            Step::Column { component_id, prim_type, shape, ids, timestamp_offset } => {
                lemma_column_step(
                    before,
                    component_id,
                    prim_type,
                    shape,
                    ids,
                    timestamp_offset,
                    table,
                    rest,
                    cells,
                );
            },
            Step::Row { entity_id, comps, timestamp_offset } => {
                lemma_row_step(before, entity_id, comps, timestamp_offset, table, rest, cells);
            },
        }
    }
}

/// Round trip of a built descriptor: whatever columns, rows and timestamp
/// slots a builder was given, in whatever order, the descriptor it builds
/// decodes a payload that holds what was laid out to the cells of each
/// entry in turn, without error.
pub proof fn lemma_built_descriptor_round_trip(steps: Seq<Step>, table: Seq<u8>)
    requires
        table.len() <= usize::MAX,
        well_built(steps, table, steps.len()),
    ensures
        built(steps, steps.len()).vtable.spec_parse_table(table) == (Decoded {
            cells: built_cells(steps, table, steps.len()),
            error: None,
        }),
{
    let b = built(steps, steps.len());
    lemma_built_reads_back(steps, table, Seq::empty(), steps.len());
    assert(b.vtable.data + Seq::<u8>::empty() =~= b.vtable.data);
}

/// Alignment under every sequence of operations: whatever columns, rows
/// and timestamp slots a builder was given, in whatever order, every column
/// entry it holds places its arrays at a multiple of the alignment of its
/// element type.
pub proof fn lemma_built_columns_aligned(steps: Seq<Step>, k: nat)
    requires
        k <= steps.len(),
        forall|j: int| 0 <= j < k ==> (#[trigger] steps[j]).applies(built(steps, j as nat)),
    ensures
        columns_aligned(built(steps, k).vtable.entries),
    decreases k,
{
    if k > 0 {
        lemma_built_columns_aligned(steps, (k - 1) as nat);
        let before = built(steps, (k - 1) as nat);
        let after = built(steps, k);
        let step = steps[k - 1];
        assert(step.applies(before));
        match step {
            Step::Column { component_id, prim_type, shape, ids, timestamp_offset } => {
                lemma_padding_for(prim_type.spec_alignment() as nat, before.data_len);
                let n = spec_arr_len(shape).unwrap();
                assert(ids.len() * n * (prim_type.spec_size() as nat) >= 0) by (nonlinear_arith);
            },
            _ => {},
        }
        assert forall|i: int| 0 <= i < after.vtable.entries.len() implies ((
        #[trigger] after.vtable.entries[i]) matches Entry::Column(c) ==> c.data_col_offset as int % (
        c.shape_entry.prim_type.spec_alignment() as int) == 0) by {
            if i < before.vtable.entries.len() {
                assert(after.vtable.entries[i] == before.vtable.entries[i]);
            }
        }
    }
}

/// What a sink holds after a built descriptor was decoded into it: if the
/// parser succeeded, the sink has accepted the cells of each entry in turn,
/// each exactly once; and the parser can fail only because a cast found the
/// memory misaligned, in which case the sink has accepted some of those
/// cells, first to last, and nothing else.
pub proof fn lemma_built_descriptor_delivers<S: Decomponentize>(
    steps: Seq<Step>,
    table: Seq<u8>,
    before: S::State,
    after: S::State,
    r: Result<(), Error>,
)
    requires
        table.len() <= usize::MAX,
        well_built(steps, table, steps.len()),
        sink_outcome::<S>(
            before,
            after,
            built(steps, steps.len()).vtable.spec_parse_table(table),
            r,
        ),
    ensures
        r is Ok ==> after == deliver::<S>(before, built_cells(steps, table, steps.len())),
        r matches Err(e) ==> e == Error::Alignment && exists|k: int|
            0 <= k <= built_cells(steps, table, steps.len()).len() && after == deliver::<S>(
                before,
                #[trigger] built_cells(steps, table, steps.len()).take(k),
            ),
{
    lemma_built_descriptor_round_trip(steps, table);
}

/// The shape and the entity ids of a column are read back from where the
/// builder wrote them, whatever `rest` is written later.
#[verifier::rlimit(30)]
proof fn lemma_column_reads(
    b: BuilderView,
    component_id: ComponentId,
    prim_type: PrimType,
    shape: Seq<u64>,
    ids: Seq<EntityId>,
    timestamp_offset: Option<u64>,
    rest: Seq<u8>,
)
    requires
        b.base() + 8 * (shape.len() + ids.len()) <= usize::MAX,
    ensures
        ({
            let entry = b.column_entry(component_id, prim_type, shape, ids, timestamp_offset);
            let vdata = padded(b.vtable.data, 8) + encode_all(shape + entity_words(ids)) + rest;
            &&& entry.len == ids.len()
            &&& entry.shape_entry.spec_parse_shape(vdata) == Ok::<Seq<u64>, Error>(shape)
            &&& spec_parse_records::<EntityId>(entry.entity_ids_entry.offset, vdata, ids.len()) == Ok::<
                Seq<EntityId>,
                Error,
            >(ids)
        }),
{
    let entry = b.column_entry(component_id, prim_type, shape, ids, timestamp_offset);
    let words = shape + entity_words(ids);
    let front = padded(b.vtable.data, 8);
    let vdata = front + encode_all(words) + rest;
    lemma_words_read(front, words, rest, 0, shape.len());
    assert(words.subrange(0, shape.len() as int) == shape);
    lemma_words_read(front, words, rest, shape.len(), ids.len());
    let id_words = words.subrange(shape.len() as int, (shape.len() + ids.len()) as int);
    assert(id_words == entity_words(ids));
    assert(ids.len() * 1 * 8 == ids.len() * 8);
    let read = decode_all::<u64>(tail(vdata, entry.entity_ids_entry.offset as int), ids.len() * 1);
    assert(read == id_words);
    assert forall|i: int| 0 <= i < ids.len() implies (#[trigger] record_at::<EntityId>(read, i)) == Some(
        ids[i],
    ) by {
        assert(read.subrange(i * 1, (i + 1) * 1)[0] == read[i]);
    }
    assert(Seq::new(ids.len(), |i: int| record_at::<EntityId>(read, i).unwrap()) =~= ids);
}

/// What the listing says of a decoded cell: whose value it is, of what
/// type and of what shape.
pub open spec fn schema_of(cell: Cell) -> SchemaCell {
    SchemaCell {
        entity_id: cell.entity_id,
        component_id: cell.component_id,
        prim_type: cell.value.data.prim_type(),
        shape: cell.value.shape,
    }
}

/// What the listing says of each of `cells`.
pub open spec fn schemas_of(cells: Seq<Cell>) -> Seq<SchemaCell> {
    Seq::new(cells.len(), |i: int| schema_of(cells[i]))
}

impl Step {
    /// The cells that the entry of the step lists in one of the two passes
    /// of a listing: a column in the first pass, one cell for each entity;
    /// a row in the second, one cell for each component.
    pub open spec fn listing(self, rows: bool) -> Seq<SchemaCell> {
        match self {
            Step::Column { component_id, prim_type, shape, ids, .. } => if rows {
                Seq::empty()
            } else {
                Seq::new(
                    ids.len(),
                    |i: int| SchemaCell { entity_id: ids[i], component_id, prim_type, shape },
                )
            },
            Step::Row { entity_id, comps, .. } => if rows {
                Seq::new(
                    comps.len(),
                    |i: int|
                        SchemaCell {
                            entity_id,
                            component_id: comps[i].id,
                            prim_type: comps[i].prim_type,
                            shape: comps[i].shape,
                        },
                )
            } else {
                Seq::empty()
            },
            Step::Timestamp => Seq::empty(),
        }
    }
}

/// The cells that the entries of the first `k` of `steps` list in one pass.
pub open spec fn built_listing(steps: Seq<Step>, rows: bool, k: nat) -> Seq<SchemaCell>
    decreases k,
{
    if k == 0 {
        Seq::empty()
    } else {
        built_listing(steps, rows, (k - 1) as nat) + steps[k - 1].listing(rows)
    }
}

/// Whether each of the first `k` of `steps` is carried out.
pub open spec fn all_apply(steps: Seq<Step>, k: nat) -> bool {
    forall|j: int| 0 <= j < k ==> (#[trigger] steps[j]).applies(built(steps, j as nat))
}

/// A built column can be read and lists one cell for each entity id.
#[verifier::rlimit(30)]
proof fn lemma_column_listed(
    b: BuilderView,
    component_id: ComponentId,
    prim_type: PrimType,
    shape: Seq<u64>,
    ids: Seq<EntityId>,
    timestamp_offset: Option<u64>,
    rest: Seq<u8>,
)
    requires
        (Step::Column { component_id, prim_type, shape, ids, timestamp_offset }).applies(b),
    ensures
        ({
            let step = Step::Column { component_id, prim_type, shape, ids, timestamp_offset };
            let entry = Entry::Column(
                b.column_entry(component_id, prim_type, shape, ids, timestamp_offset),
            );
            let vdata = step.apply(b).vtable.data + rest;
            &&& entry.spec_readable(vdata)
            &&& entry.spec_schema(vdata, false) == step.listing(false)
            &&& entry.spec_schema(vdata, true) == step.listing(true)
        }),
{
    let step = Step::Column { component_id, prim_type, shape, ids, timestamp_offset };
    let entry = b.column_entry(component_id, prim_type, shape, ids, timestamp_offset);
    lemma_column_reads(b, component_id, prim_type, shape, ids, timestamp_offset, rest);
    let vdata = step.apply(b).vtable.data + rest;
    assert(entry.spec_schema(vdata) =~= step.listing(false));
}

/// A built row can be read and lists one cell for each component.
#[verifier::rlimit(30)]
proof fn lemma_row_listed(
    b: BuilderView,
    entity_id: EntityId,
    comps: Seq<ComponentSpec>,
    timestamp_offset: Option<u64>,
    rest: Seq<u8>,
)
    requires
        (Step::Row { entity_id, comps, timestamp_offset }).applies(b),
    ensures
        ({
            let step = Step::Row { entity_id, comps, timestamp_offset };
            let entry = Entry::Entity(b.row_entry(entity_id, comps, timestamp_offset));
            let vdata = step.apply(b).vtable.data + rest;
            &&& entry.spec_readable(vdata)
            &&& entry.spec_schema(vdata, false) == step.listing(false)
            &&& entry.spec_schema(vdata, true) == step.listing(true)
        }),
{
    let step = Step::Row { entity_id, comps, timestamp_offset };
    let entry = b.row_entry(entity_id, comps, timestamp_offset);
    let n = comps.len();
    let dims_offset = b.row_dims_offset(n);
    let vdata = step.apply(b).vtable.data + rest;
    lemma_record_words_len(comps, dims_offset, n);
    lemma_row_ids_read(b, comps, rest);
    lemma_row_shapes_read(b, comps, rest);
    let shapes = row_shapes(comps, dims_offset);
    assert forall|i: int| 0 <= i < shapes.len() implies (#[trigger] shapes[i]).spec_parse_shape(vdata)
        == Ok::<Seq<u64>, Error>(comps[i].shape) by {
        lemma_row_dims_read(b, comps, rest, i);
    }
    assert(entry.spec_schema(vdata) =~= step.listing(true));
}

/// Entries that come later have no part in listing the earlier ones.
proof fn lemma_pass_ignores_later(
    entries: Seq<Entry>,
    entry: Entry,
    vdata: Seq<u8>,
    rows: bool,
    k: nat,
)
    requires
        k <= entries.len(),
    ensures
        spec_schema_pass(entries.push(entry), vdata, rows, Set::empty(), k) == spec_schema_pass(
            entries,
            vdata,
            rows,
            Set::empty(),
            k,
        ),
    decreases k,
{
    if k > 0 {
        lemma_pass_ignores_later(entries, entry, vdata, rows, (k - 1) as nat);
        assert(entries.push(entry)[k - 1] == entries[k - 1]);
    }
}

/// An entry adds its cells to the listing of the entries before it.
proof fn lemma_entry_listed(
    entries: Seq<Entry>,
    entry: Entry,
    vdata: Seq<u8>,
    rows: bool,
    cells: Seq<SchemaCell>,
    added: Seq<SchemaCell>,
)
    requires
        spec_schema_pass(entries, vdata, rows, Set::empty(), entries.len()) == cells,
        entry.spec_schema(vdata, rows) == added,
    ensures
        spec_schema_pass(entries.push(entry), vdata, rows, Set::empty(), entries.len() + 1) == cells
            + added,
{
    lemma_pass_ignores_later(entries, entry, vdata, rows, entries.len());
    assert(entries.push(entry)[entries.len() as int] == entry);
}

/// The step from the listing of a builder to that of the builder with one
/// more column.
proof fn lemma_column_list_step(
    before: BuilderView,
    component_id: ComponentId,
    prim_type: PrimType,
    shape: Seq<u64>,
    ids: Seq<EntityId>,
    timestamp_offset: Option<u64>,
    rows: bool,
    rest: Seq<u8>,
    cells: Seq<SchemaCell>,
)
    requires
        (Step::Column { component_id, prim_type, shape, ids, timestamp_offset }).applies(before),
        forall|later: Seq<u8>|
            spec_schema_pass(
                before.vtable.entries,
                #[trigger] (before.vtable.data + later),
                rows,
                Set::empty(),
                before.vtable.entries.len(),
            ) == cells,
    ensures
        ({
            let step = Step::Column { component_id, prim_type, shape, ids, timestamp_offset };
            let after = step.apply(before);
            spec_schema_pass(
                after.vtable.entries,
                after.vtable.data + rest,
                rows,
                Set::empty(),
                after.vtable.entries.len(),
            ) == cells + step.listing(rows)
        }),
{
    let step = Step::Column { component_id, prim_type, shape, ids, timestamp_offset };
    let after = before.with_column(component_id, prim_type, shape, ids, timestamp_offset);
    let entry = Entry::Column(before.column_entry(component_id, prim_type, shape, ids, timestamp_offset));
    let written = zeros(padding_for(8, before.vtable.data.len())) + encode_all(shape + entity_words(ids));
    let vdata = after.vtable.data + rest;
    assert(vdata =~= before.vtable.data + (written + rest));
    lemma_column_listed(before, component_id, prim_type, shape, ids, timestamp_offset, rest);
    lemma_entry_listed(before.vtable.entries, entry, vdata, rows, cells, step.listing(rows));
}

/// The step from the listing of a builder to that of the builder with one
/// more row.
proof fn lemma_row_list_step(
    before: BuilderView,
    entity_id: EntityId,
    comps: Seq<ComponentSpec>,
    timestamp_offset: Option<u64>,
    rows: bool,
    rest: Seq<u8>,
    cells: Seq<SchemaCell>,
)
    requires
        (Step::Row { entity_id, comps, timestamp_offset }).applies(before),
        forall|later: Seq<u8>|
            spec_schema_pass(
                before.vtable.entries,
                #[trigger] (before.vtable.data + later),
                rows,
                Set::empty(),
                before.vtable.entries.len(),
            ) == cells,
    ensures
        ({
            let step = Step::Row { entity_id, comps, timestamp_offset };
            let after = step.apply(before);
            spec_schema_pass(
                after.vtable.entries,
                after.vtable.data + rest,
                rows,
                Set::empty(),
                after.vtable.entries.len(),
            ) == cells + step.listing(rows)
        }),
{
    let step = Step::Row { entity_id, comps, timestamp_offset };
    let after = before.with_row(entity_id, comps, timestamp_offset);
    let entry = Entry::Entity(before.row_entry(entity_id, comps, timestamp_offset));
    let written = zeros(padding_for(8, before.vtable.data.len())) + encode_all(before.row_words(comps));
    let vdata = after.vtable.data + rest;
    assert(vdata =~= before.vtable.data + (written + rest));
    lemma_row_listed(before, entity_id, comps, timestamp_offset, rest);
    lemma_entry_listed(before.vtable.entries, entry, vdata, rows, cells, step.listing(rows));
}

/// What a built descriptor lists in one pass, with no entry left out, even
/// after more has been built: the cells of each step in turn.
pub proof fn lemma_built_lists(steps: Seq<Step>, rows: bool, rest: Seq<u8>, k: nat)
    requires
        k <= steps.len(),
        all_apply(steps, k),
    ensures
        ({
            let b = built(steps, k);
            spec_schema_pass(
                b.vtable.entries,
                b.vtable.data + rest,
                rows,
                Set::empty(),
                b.vtable.entries.len(),
            ) == built_listing(steps, rows, k)
        }),
    decreases k,
{
    if k > 0 {
        let before = built(steps, (k - 1) as nat);
        let step = steps[k - 1];
        let cells = built_listing(steps, rows, (k - 1) as nat);
        assert(step.applies(before));
        assert forall|later: Seq<u8>|
            spec_schema_pass(
                before.vtable.entries,
                #[trigger] (before.vtable.data + later),
                rows,
                Set::empty(),
                before.vtable.entries.len(),
            ) == cells by {
            lemma_built_lists(steps, rows, later, (k - 1) as nat);
        }
        match step {
            Step::Timestamp => {
                assert(cells + step.listing(rows) =~= cells);
            },
            Step::Column { component_id, prim_type, shape, ids, timestamp_offset } => {
                lemma_column_list_step(
                    before,
                    component_id,
                    prim_type,
                    shape,
                    ids,
                    timestamp_offset,
                    rows,
                    rest,
                    cells,
                );
            },
            Step::Row { entity_id, comps, timestamp_offset } => {
                lemma_row_list_step(before, entity_id, comps, timestamp_offset, rows, rest, cells);
            },
        }
    }
}

/// The listing of a built descriptor: whatever columns, rows and timestamp
/// slots a builder was given, in whatever order, the descriptor it builds
/// lists, where no entry is left out, one cell for each entity of each
/// column, column by column, and then one cell for each component of each
/// row, row by row.
pub proof fn lemma_built_descriptor_listing(steps: Seq<Step>)
    requires
        all_apply(steps, steps.len()),
    ensures
        built(steps, steps.len()).vtable.spec_column_iter(Set::empty()) == built_listing(
            steps,
            false,
            steps.len(),
        ) + built_listing(steps, true, steps.len()),
{
    let b = built(steps, steps.len());
    lemma_built_lists(steps, false, Seq::empty(), steps.len());
    lemma_built_lists(steps, true, Seq::empty(), steps.len());
    assert(b.vtable.data + Seq::<u8>::empty() =~= b.vtable.data);
}

/// What a step lists is what the listing says of the cells it decodes to.
proof fn lemma_step_listing_agrees(step: Step, b: BuilderView, table: Seq<u8>)
    ensures
        schemas_of(step.cells(b, table)) == step.listing(false) + step.listing(true),
{
    match step {
        Step::Column { component_id, prim_type, shape, ids, timestamp_offset } => {
            assert(schemas_of(step.cells(b, table)) =~= step.listing(false) + step.listing(true));
        },
        Step::Row { entity_id, comps, timestamp_offset } => {
            assert(schemas_of(step.cells(b, table)) =~= step.listing(false) + step.listing(true));
        },
        Step::Timestamp => {
            assert(schemas_of(step.cells(b, table)) =~= step.listing(false) + step.listing(true));
        },
    }
}

/// The listing agrees with the decoding: a built descriptor lists, where no
/// entry is left out, exactly the cells that decoding a payload delivers,
/// each as often as it is delivered. The listing takes the columns before
/// the rows; the decoding takes the entries in their order.
pub proof fn lemma_listing_agrees_with_decoding(steps: Seq<Step>, table: Seq<u8>, k: nat)
    requires
        k <= steps.len(),
    ensures
        (built_listing(steps, false, k) + built_listing(steps, true, k)).to_multiset() == schemas_of(
            built_cells(steps, table, k),
        ).to_multiset(),
    decreases k,
{
    if k == 0 {
        assert(built_listing(steps, false, k) + built_listing(steps, true, k) =~= schemas_of(
            built_cells(steps, table, k),
        ));
    } else {
        let j = (k - 1) as nat;
        lemma_listing_agrees_with_decoding(steps, table, j);
        let step = steps[k - 1];
        let b = built(steps, j);
        let columns = built_listing(steps, false, j);
        let rows = built_listing(steps, true, j);
        let c = step.listing(false);
        let r = step.listing(true);
        let cells = built_cells(steps, table, j);
        let added = step.cells(b, table);
        lemma_step_listing_agrees(step, b, table);
        assert(schemas_of(cells + added) =~= schemas_of(cells) + schemas_of(added));
        vstd::seq_lib::lemma_multiset_commutative(schemas_of(cells), c + r);
        vstd::seq_lib::lemma_multiset_commutative(columns + c, rows + r);
        vstd::seq_lib::lemma_multiset_commutative(columns, c);
        vstd::seq_lib::lemma_multiset_commutative(rows, r);
        vstd::seq_lib::lemma_multiset_commutative(columns, rows);
        vstd::seq_lib::lemma_multiset_commutative(c, r);
        let left = ((columns + c) + (rows + r)).to_multiset();
        let right = columns.to_multiset().add(rows.to_multiset()).add(
            c.to_multiset().add(r.to_multiset()),
        );
        assert(left =~= right);
    }
}

/// The first `k` cells of a column of which the payload holds `held` whole
/// arrays.
#[verifier::rlimit(30)]
proof fn lemma_column_cells_held(
    entry: ColumnEntry,
    shape: Seq<u64>,
    ids: Seq<EntityId>,
    timestamp: Option<Timestamp>,
    table: Seq<u8>,
    held: nat,
    k: nat,
)
    requires
        k <= held <= ids.len(),
        spec_arr_len(shape) is Some,
        table.len() <= usize::MAX,
        entry.data_col_offset + held * (spec_arr_len(shape).unwrap() * (
        entry.shape_entry.prim_type.spec_size() as nat)) <= table.len(),
        column_valid(entry.shape_entry.prim_type, shape, held, table, entry.data_col_offset as nat),
    ensures
        entry.spec_cells(
            shape,
            spec_arr_len(shape).unwrap() * (entry.shape_entry.prim_type.spec_size() as nat),
            ids,
            timestamp,
            table,
            k,
        ) == (Decoded {
            cells: column_cells(
                entry.component_id,
                entry.shape_entry.prim_type,
                shape,
                ids,
                timestamp,
                table,
                entry.data_col_offset as nat,
            ).take(k as int),
            error: None,
        }),
    decreases k,
{
    let prim_type = entry.shape_entry.prim_type;
    let n = spec_arr_len(shape).unwrap();
    let arr_size = n * (prim_type.spec_size() as nat);
    let all = column_cells(entry.component_id, prim_type, shape, ids, timestamp, table, entry.data_col_offset as nat);
    if k > 0 {
        lemma_column_cells_held(entry, shape, ids, timestamp, table, held, (k - 1) as nat);
        let i = k - 1;
        let offset = i * arr_size + entry.data_col_offset;
        assert(i * arr_size + arr_size <= held * arr_size) by (nonlinear_arith)
            requires
                0 <= i < held,
                arr_size >= 0,
        ;
        assert(i * arr_size >= 0) by (nonlinear_arith)
            requires
                i >= 0,
                arr_size >= 0,
        ;
        assert(data_valid(prim_type, tail(table, entry.data_col_offset as nat + i * arr_size), n));
        assert(tail(table, offset).len() >= arr_size);
        assert(spec_view_of(tail(table, offset), shape, prim_type) == Ok::<ComponentValue, Error>(
            all[i].value,
        ));
        assert(all.take(k as int) == all.take(k - 1).push(all[i]));
    } else {
        assert(all.take(0) == Seq::<Cell>::empty());
    }
}

/// A payload that is short: where the payload holds only the first `held`
/// arrays of a built column whole, the entry decodes to the cells of those
/// arrays, in their order, and then ends in [`Error::BufferUnderflow`].
#[verifier::rlimit(30)]
pub proof fn lemma_column_short_payload(
    b: BuilderView,
    component_id: ComponentId,
    prim_type: PrimType,
    shape: Seq<u64>,
    ids: Seq<EntityId>,
    timestamp_offset: Option<u64>,
    rest: Seq<u8>,
    table: Seq<u8>,
    held: nat,
)
    requires
        !b.column_overflows(prim_type, shape, ids),
        b.base() + 8 * (shape.len() + ids.len()) <= usize::MAX,
        table.len() <= usize::MAX,
        spec_read_timestamp(timestamp_offset, table) is Ok,
        held < ids.len(),
        ({
            let offset = b.column_entry(
                component_id,
                prim_type,
                shape,
                ids,
                timestamp_offset,
            ).data_col_offset as nat;
            let arr_size = spec_arr_len(shape).unwrap() * (prim_type.spec_size() as nat);
            &&& offset + held * arr_size <= table.len() < offset + (held + 1) * arr_size
            &&& column_valid(prim_type, shape, held, table, offset)
        }),
    ensures
        ({
            let entry = b.column_entry(component_id, prim_type, shape, ids, timestamp_offset);
            let after = b.with_column(component_id, prim_type, shape, ids, timestamp_offset);
            entry.spec_parse_table(after.vtable.data + rest, table) == (Decoded {
                cells: column_cells(
                    component_id,
                    prim_type,
                    shape,
                    ids,
                    spec_read_timestamp(timestamp_offset, table).unwrap(),
                    table,
                    entry.data_col_offset as nat,
                ).take(held as int),
                error: Some(Error::BufferUnderflow),
            })
        }),
{
    let entry = b.column_entry(component_id, prim_type, shape, ids, timestamp_offset);
    let after = b.with_column(component_id, prim_type, shape, ids, timestamp_offset);
    let vdata = after.vtable.data + rest;
    let n = spec_arr_len(shape).unwrap();
    let arr_size = n * (prim_type.spec_size() as nat);
    let timestamp = spec_read_timestamp(timestamp_offset, table).unwrap();
    let offset = entry.data_col_offset as nat;
    lemma_padding_for(prim_type.spec_alignment() as nat, b.data_len);
    assert(ids.len() * n * (prim_type.spec_size() as nat) >= 0) by (nonlinear_arith);
    lemma_column_reads(b, component_id, prim_type, shape, ids, timestamp_offset, rest);
    assert(vdata =~= padded(b.vtable.data, 8) + encode_all(shape + entity_words(ids)) + rest);
    lemma_column_cells_held(entry, shape, ids, timestamp, table, held, held);
    let done = entry.spec_cells(shape, arr_size, ids, timestamp, table, held);
    let next = entry.spec_cells(shape, arr_size, ids, timestamp, table, held + 1);
    assert((held + 1) * arr_size == held * arr_size + arr_size) by (nonlinear_arith);
    assert(held * arr_size >= 0) by (nonlinear_arith);
    assert(tail(table, (held * arr_size + offset) as int).len() < arr_size);
    assert(entry.spec_cell(shape, arr_size, ids, timestamp, table, held as int) == Err::<Cell, Error>(
        Error::BufferUnderflow,
    ));
    assert(next == (Decoded { cells: done.cells, error: Some(Error::BufferUnderflow) }));
    entry.lemma_cells_prefix(shape, arr_size, ids, timestamp, table, held + 1, ids.len());
}

} // verus!
