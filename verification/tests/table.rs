use std::collections::HashMap;

use impeller2::buf::ArrayBuf;
use impeller2::com_de::{CellLog, Decomponentize, OwnedData};
use impeller2::error::Error;
use impeller2::registry::VTableRegistry;
use impeller2::table::{
    arr_len, deliver_cell, read_timestamp, BufEntry, ColumnEntry, Entry, MetadataEntry, RowEntry,
    ShapeEntry, VTable, VTableBuilder,
};
use impeller2::types::{ComponentId, ComponentView, EntityId, PrimType, Timestamp};

#[derive(Default)]
struct TestSink {
    f32_entities: HashMap<(ComponentId, EntityId), (Vec<u64>, Vec<f32>)>,
    f64_entities: HashMap<(ComponentId, EntityId), (Vec<u64>, Vec<f64>)>,
    calls: Vec<(ComponentId, EntityId)>,
}

impl Decomponentize for TestSink {
    type State = ();

    fn apply_value(
        &mut self,
        component_id: ComponentId,
        entity_id: EntityId,
        value: ComponentView<'_>,
        _timestamp: Option<Timestamp>,
    ) {
        self.calls.push((component_id, entity_id));
        match value {
            ComponentView::F32(view) => {
                let elems = view.buf().iter().map(|bits| f32::from_bits(*bits)).collect();
                self.f32_entities.insert((component_id, entity_id), (view.shape().to_vec(), elems));
            }
            ComponentView::F64(view) => {
                let elems = view.buf().iter().map(|bits| f64::from_bits(*bits)).collect();
                self.f64_entities.insert((component_id, entity_id), (view.shape().to_vec(), elems));
            }
            _ => {}
        }
    }
}

fn f32_bytes(values: &[f32]) -> Vec<u8> {
    values.iter().flat_map(|v| v.to_le_bytes()).collect()
}

fn f64_bytes(values: &[f64]) -> Vec<u8> {
    values.iter().flat_map(|v| v.to_le_bytes()).collect()
}

fn u64_bytes(values: &[u64]) -> Vec<u8> {
    values.iter().flat_map(|v| v.to_le_bytes()).collect()
}

type Builder = VTableBuilder<Vec<Entry>, Vec<u8>>;

#[test]
fn test_parse_col_entry() {
    let mut vtable: Builder = VTableBuilder::default();
    vtable
        .column(ComponentId::new("foo"), PrimType::F32, &[2, 2], &[EntityId(1), EntityId(2)])
        .unwrap();
    let vtable: VTable<Vec<Entry>, Vec<u8>> = vtable.build();

    let table = f32_bytes(&[1f32, 0.0, 5.0, 5.0, 4.0, 4.0, 1.0, 1.0]);
    let mut sink = TestSink::default();
    vtable.parse_table(&table, &mut sink).unwrap();
    assert_eq!(
        *sink.f32_entities.get(&(ComponentId::new("foo"), EntityId(1))).unwrap(),
        (vec![2, 2], vec![1.0f32, 0.0, 5.0, 5.0])
    );

    assert_eq!(
        *sink.f32_entities.get(&(ComponentId::new("foo"), EntityId(2))).unwrap(),
        (vec![2, 2], vec![4.0f32, 4.0, 1.0, 1.0])
    );
}

#[test]
fn test_parse_row_entry() {
    let mut vtable: Builder = VTableBuilder::default();
    vtable
        .entity(
            EntityId(0),
            &[
                (ComponentId::new("foo"), PrimType::F32, &[2, 2]),
                (ComponentId::new("bar"), PrimType::F64, &[3]),
            ],
        )
        .unwrap();
    let vtable: VTable<Vec<Entry>, Vec<u8>> = vtable.build();

    let mut table = vec![];
    table.extend_from_slice(&f32_bytes(&[1f32, 0.0, 5.0, 5.0]));
    table.extend_from_slice(&f64_bytes(&[1.0, 2.0, 3.0f64]));
    let mut sink = TestSink::default();
    vtable.parse_table(&table, &mut sink).unwrap();
    assert_eq!(
        *sink.f32_entities.get(&(ComponentId::new("foo"), EntityId(0))).unwrap(),
        (vec![2, 2], vec![1.0f32, 0.0, 5.0, 5.0])
    );

    assert_eq!(
        *sink.f64_entities.get(&(ComponentId::new("bar"), EntityId(0))).unwrap(),
        (vec![3], vec![1., 2., 3.0f64])
    );
}

#[test]
fn row_cells_arrive_in_the_order_of_the_components() {
    let mut vtable: Builder = VTableBuilder::default();
    vtable
        .entity(
            EntityId(9),
            &[(ComponentId(1), PrimType::U16, &[2]), (ComponentId(2), PrimType::I8, &[3])],
        )
        .unwrap();
    let vtable = vtable.build();
    let table = vec![0x34, 0x12, 0xff, 0xff, 0xff, 0x00, 0x7f];
    let mut log = CellLog::new();
    vtable.parse_table(&table, &mut log).unwrap();
    assert_eq!(log.cells.len(), 2);
    assert_eq!(log.cells[0].component_id, ComponentId(1));
    assert_eq!(log.cells[0].entity_id, EntityId(9));
    assert_eq!(log.cells[0].shape, vec![2]);
    assert_eq!(log.cells[0].data, OwnedData::U16(vec![0x1234, 0xffff]));
    assert_eq!(log.cells[1].component_id, ComponentId(2));
    assert_eq!(log.cells[1].entity_id, EntityId(9));
    assert_eq!(log.cells[1].shape, vec![3]);
    assert_eq!(log.cells[1].data, OwnedData::I8(vec![-1, 0, 127]));
}

#[test]
fn column_round_trip_gives_one_cell_for_each_entity() {
    let mut vtable: Builder = VTableBuilder::default();
    let ids = [EntityId(10), EntityId(20), EntityId(30)];
    vtable.column(ComponentId(5), PrimType::U32, &[2], &ids).unwrap();
    let vtable = vtable.build();
    let mut table = Vec::new();
    for v in [1u32, 2, 3, 4, 5, 0xdead_beef] {
        table.extend_from_slice(&v.to_le_bytes());
    }
    let mut log = CellLog::new();
    vtable.parse_table(&table, &mut log).unwrap();
    assert_eq!(log.cells.len(), 3);
    for (i, cell) in log.cells.iter().enumerate() {
        assert_eq!(cell.component_id, ComponentId(5));
        assert_eq!(cell.entity_id, ids[i]);
        assert_eq!(cell.shape, vec![2]);
        assert_eq!(cell.timestamp, None);
    }
    assert_eq!(log.cells[0].data, OwnedData::U32(vec![1, 2]));
    assert_eq!(log.cells[1].data, OwnedData::U32(vec![3, 4]));
    assert_eq!(log.cells[2].data, OwnedData::U32(vec![5, 0xdead_beef]));
}

#[test]
fn signed_and_wide_elements_are_little_endian() {
    let mut vtable: Builder = VTableBuilder::default();
    vtable.column(ComponentId(1), PrimType::I64, &[], &[EntityId(1)]).unwrap();
    vtable.column(ComponentId(2), PrimType::I32, &[], &[EntityId(1)]).unwrap();
    vtable.column(ComponentId(3), PrimType::I16, &[], &[EntityId(1)]).unwrap();
    vtable.column(ComponentId(4), PrimType::U8, &[], &[EntityId(1)]).unwrap();
    vtable.column(ComponentId(5), PrimType::U64, &[], &[EntityId(1)]).unwrap();
    let vtable = vtable.build();
    let mut table = Vec::new();
    table.extend_from_slice(&(-2i64).to_le_bytes());
    table.extend_from_slice(&(-3i32).to_le_bytes());
    table.extend_from_slice(&(-4i16).to_le_bytes());
    table.push(200);
    table.push(0);
    table.extend_from_slice(&0x0102_0304_0506_0708u64.to_le_bytes());
    let mut log = CellLog::new();
    vtable.parse_table(&table, &mut log).unwrap();
    assert_eq!(log.cells[0].data, OwnedData::I64(vec![-2]));
    assert_eq!(log.cells[1].data, OwnedData::I32(vec![-3]));
    assert_eq!(log.cells[2].data, OwnedData::I16(vec![-4]));
    assert_eq!(log.cells[3].data, OwnedData::U8(vec![200]));
    assert_eq!(log.cells[4].data, OwnedData::U64(vec![0x0102_0304_0506_0708]));
}

#[test]
fn builder_writes_shape_and_ids_as_little_endian_words() {
    let mut vtable: Builder = VTableBuilder::default();
    vtable.column(ComponentId(7), PrimType::U8, &[2, 3], &[EntityId(0x0102), EntityId(5)]).unwrap();
    assert_eq!(vtable.data_len(), 12);
    let vtable = vtable.build();
    assert_eq!(vtable.data(), &u64_bytes(&[2, 3, 0x0102, 5])[..]);
    assert_eq!(vtable.data()[16], 0x02);
    assert_eq!(vtable.data()[17], 0x01);
    assert_eq!(
        vtable.entries(),
        &[Entry::Column(ColumnEntry {
            len: 2,
            component_id: ComponentId(7),
            entity_ids_entry: BufEntry { offset: 16, phantom_data: Default::default() },
            data_col_offset: 0,
            shape_entry: ShapeEntry { prim_type: PrimType::U8, rank: 2, shape_offset: 0 },
            timestamp_offset: None,
        })][..]
    );
}

#[test]
fn builder_lays_a_row_out_as_ids_records_dims() {
    let mut vtable: Builder = VTableBuilder::default();
    vtable
        .entity(
            EntityId(3),
            &[(ComponentId(11), PrimType::F32, &[2, 2]), (ComponentId(12), PrimType::F64, &[3])],
        )
        .unwrap();
    assert_eq!(vtable.data_len(), 16 + 24);
    let vtable = vtable.build();
    // two ids, one word of padding up to a multiple of 24, two records, three dims
    let words = [11, 12, 0, 9, 2, 72, 10, 1, 88, 2, 2, 3];
    assert_eq!(vtable.data(), &u64_bytes(&words)[..]);
    match vtable.entries()[0] {
        Entry::Entity(row) => {
            assert_eq!(row.len, 2);
            assert_eq!(row.entity_id, EntityId(3));
            assert_eq!(row.component_ids_entry.offset, 0);
            assert_eq!(row.shapes_entry.offset, 24);
            assert_eq!(row.shapes_entry.offset % 24, 0);
            assert_eq!(row.data_col_offset, 0);
            assert_eq!(row.timestamp_offset, None);
        }
        _ => panic!("a row entry was built"),
    }
}

#[test]
fn column_offsets_are_aligned_for_every_type() {
    let types = [
        PrimType::U8,
        PrimType::U16,
        PrimType::U32,
        PrimType::U64,
        PrimType::I8,
        PrimType::I16,
        PrimType::I32,
        PrimType::I64,
        PrimType::Bool,
        PrimType::F32,
        PrimType::F64,
    ];
    for first in types {
        for second in types {
            let mut vtable: Builder = VTableBuilder::default();
            vtable.column(ComponentId(1), PrimType::U8, &[3], &[EntityId(1)]).unwrap();
            vtable.column(ComponentId(2), first, &[1], &[EntityId(1), EntityId(2)]).unwrap();
            let stamp = vtable.timestamp().unwrap();
            assert_eq!(stamp % 8, 0);
            vtable.column(ComponentId(3), PrimType::U8, &[1], &[EntityId(1)]).unwrap();
            vtable.column(ComponentId(4), second, &[5], &[EntityId(1), EntityId(2)]).unwrap();
            let vtable = vtable.build();
            for entry in vtable.entries() {
                match entry {
                    Entry::Column(col) => {
                        let align = col.shape_entry.prim_type.alignment() as u64;
                        assert_eq!(col.data_col_offset % align, 0);
                    }
                    _ => panic!("only columns were built"),
                }
            }
        }
    }
}

#[test]
fn padding_and_sizes_of_primitive_types() {
    assert_eq!(PrimType::U8.size(), 1);
    assert_eq!(PrimType::Bool.size(), 1);
    assert_eq!(PrimType::I16.size(), 2);
    assert_eq!(PrimType::F32.size(), 4);
    assert_eq!(PrimType::F64.size(), 8);
    assert_eq!(PrimType::U64.alignment(), 8);
    assert_eq!(PrimType::U32.padding(0), 0);
    assert_eq!(PrimType::U32.padding(1), 3);
    assert_eq!(PrimType::U32.padding(4), 0);
    assert_eq!(PrimType::F64.padding(9), 7);
    assert_eq!(PrimType::U8.padding(13), 0);
    for tag in 0..11u64 {
        assert_eq!(PrimType::from_tag(tag).unwrap().tag(), tag);
    }
    assert_eq!(PrimType::from_tag(11), None);
    assert_eq!(PrimType::F64.tag(), 10);
}

#[test]
fn a_row_behind_a_byte_column_is_packed_without_padding() {
    let mut vtable: Builder = VTableBuilder::default();
    vtable.column(ComponentId(1), PrimType::U8, &[], &[EntityId(1)]).unwrap();
    vtable.entity(EntityId(2), &[(ComponentId(2), PrimType::U8, &[2])]).unwrap();
    let vtable = vtable.build();
    match vtable.entries()[1] {
        Entry::Entity(row) => assert_eq!(row.data_col_offset, 1),
        _ => panic!("a row entry was built"),
    }
    let mut log = CellLog::new();
    vtable.parse_table(&[7, 8, 9], &mut log).unwrap();
    assert_eq!(log.cells.len(), 2);
    assert_eq!(log.cells[0].data, OwnedData::U8(vec![7]));
    assert_eq!(log.cells[1].data, OwnedData::U8(vec![8, 9]));
}

#[test]
fn zero_entities_and_zero_components_parse_to_nothing() {
    let mut vtable: Builder = VTableBuilder::default();
    vtable.column(ComponentId(1), PrimType::F64, &[4, 4], &[]).unwrap();
    vtable.entity(EntityId(1), &[]).unwrap();
    let vtable = vtable.build();
    let mut log = CellLog::new();
    assert_eq!(vtable.parse_table(&[], &mut log), Ok(()));
    assert_eq!(log.cells.len(), 0);
}

#[test]
fn a_scalar_has_one_element() {
    assert_eq!(arr_len(&[]), Ok(1));
    assert_eq!(arr_len(&[2, 3, 4]), Ok(24));
    assert_eq!(arr_len(&[5, 0, 7]), Ok(0));
    let mut vtable: Builder = VTableBuilder::default();
    vtable.column(ComponentId(1), PrimType::U16, &[], &[EntityId(4)]).unwrap();
    let vtable = vtable.build();
    let mut log = CellLog::new();
    vtable.parse_table(&[0x01, 0x02], &mut log).unwrap();
    assert_eq!(log.cells.len(), 1);
    assert_eq!(log.cells[0].shape, Vec::<u64>::new());
    assert_eq!(log.cells[0].data, OwnedData::U16(vec![0x0201]));
}

#[test]
fn overflowing_shapes_are_offset_overflows() {
    assert_eq!(arr_len(&[u64::MAX, 2]), Err(Error::OffsetOverflow));
    assert_eq!(arr_len(&[u64::MAX, 2, 0]), Err(Error::OffsetOverflow));
    let mut vtable: Builder = VTableBuilder::default();
    let r = vtable.column(ComponentId(1), PrimType::U8, &[u64::MAX, 2], &[EntityId(1)]).err();
    assert_eq!(r, Some(Error::OffsetOverflow));
    let r = vtable.column(ComponentId(1), PrimType::U64, &[u64::MAX / 4], &[EntityId(1)]).err();
    assert_eq!(r, Some(Error::OffsetOverflow));
    let r = vtable.entity(EntityId(1), &[(ComponentId(1), PrimType::U16, &[u64::MAX])]).err();
    assert_eq!(r, Some(Error::OffsetOverflow));
    // a refused call changes nothing
    assert_eq!(vtable.data_len(), 0);
    let vtable = vtable.build();
    assert_eq!(vtable.entries().len(), 0);
    assert_eq!(vtable.data().len(), 0);
}

#[test]
fn bounded_buffers_overflow() {
    let mut vtable: VTableBuilder<ArrayBuf<Entry, 1>, ArrayBuf<u8, 32>> = VTableBuilder::default();
    // 40 bytes of auxiliary data do not fit into 32
    let r = vtable.column(ComponentId(1), PrimType::U8, &[1, 2, 3], &[EntityId(1), EntityId(2)]).err();
    assert_eq!(r, Some(Error::BufferOverflow));
    assert_eq!(vtable.data_len(), 0);
    // 32 bytes do
    vtable.column(ComponentId(1), PrimType::U8, &[1, 2], &[EntityId(1), EntityId(2)]).unwrap();
    assert_eq!(vtable.data_len(), 4);
    // but there is room for one entry only
    let r = vtable.column(ComponentId(2), PrimType::U8, &[], &[]).err();
    assert_eq!(r, Some(Error::BufferOverflow));
    let r = vtable.entity(EntityId(1), &[]).err();
    assert_eq!(r, Some(Error::BufferOverflow));
    let vtable = vtable.build();
    assert_eq!(vtable.entries().len(), 1);
    assert_eq!(vtable.data().len(), 32);
}

#[test]
fn missing_payload_is_an_underflow() {
    let mut vtable: Builder = VTableBuilder::default();
    vtable.column(ComponentId(7), PrimType::U8, &[3], &[EntityId(1), EntityId(2)]).unwrap();
    let vtable = vtable.build();
    let mut log = CellLog::new();
    let table = vec![1u8, 2, 3, 4, 5];
    assert_eq!(vtable.parse_table(&table, &mut log), Err(Error::BufferUnderflow));
    // the first array was complete and stays delivered
    assert_eq!(log.cells.len(), 1);
    assert_eq!(log.cells[0].data, OwnedData::U8(vec![1, 2, 3]));
}

#[test]
fn offsets_outside_the_auxiliary_data_are_underflows() {
    let entry = ColumnEntry {
        len: 1,
        component_id: ComponentId(1),
        entity_ids_entry: BufEntry { offset: 0, phantom_data: Default::default() },
        data_col_offset: 0,
        shape_entry: ShapeEntry { prim_type: PrimType::U8, rank: 1, shape_offset: 64 },
        timestamp_offset: None,
    };
    let vtable = VTable::from_parts(vec![Entry::Column(entry)], u64_bytes(&[1, 1]));
    let mut log = CellLog::new();
    assert_eq!(vtable.parse_table(&[0], &mut log), Err(Error::BufferUnderflow));
    assert_eq!(log.cells.len(), 0);
    let shape = ShapeEntry { prim_type: PrimType::U8, rank: 3, shape_offset: 0 };
    assert_eq!(shape.parse_shape(&u64_bytes(&[1, 2])), Err(Error::BufferUnderflow));
    let ids: BufEntry<EntityId> = BufEntry { offset: 1, phantom_data: Default::default() };
    assert_eq!(ids.parse(&[], 0), Err(Error::BufferUnderflow));
}

#[test]
fn a_boolean_must_be_zero_or_one() {
    let mut vtable: Builder = VTableBuilder::default();
    vtable.column(ComponentId(1), PrimType::Bool, &[3], &[EntityId(1)]).unwrap();
    let vtable = vtable.build();
    let mut log = CellLog::new();
    vtable.parse_table(&[1, 0, 1], &mut log).unwrap();
    assert_eq!(log.cells[0].data, OwnedData::Bool(vec![true, false, true]));
    let mut log = CellLog::new();
    assert_eq!(vtable.parse_table(&[1, 2, 1], &mut log), Err(Error::InvalidComponentData));
    assert_eq!(log.cells.len(), 0);
}

#[test]
fn an_unknown_type_tag_is_invalid_component_data() {
    let shapes: BufEntry<ShapeEntry> = BufEntry { offset: 0, phantom_data: Default::default() };
    let vdata = u64_bytes(&[3, 1, 24, 4]);
    assert_eq!(
        shapes.parse(&vdata, 1),
        Ok(vec![ShapeEntry { prim_type: PrimType::U64, rank: 1, shape_offset: 24 }])
    );
    let vdata = u64_bytes(&[11, 1, 24, 4]);
    assert_eq!(shapes.parse(&vdata, 1), Err(Error::InvalidComponentData));
}

#[test]
fn misaligned_memory_is_an_alignment_error() {
    let mut vtable: Builder = VTableBuilder::default();
    vtable.column(ComponentId(1), PrimType::U64, &[], &[EntityId(1)]).unwrap();
    let vtable = vtable.build();
    let backing = vec![0u8; 16];
    // of two neighbouring addresses at most one is a multiple of eight
    let mut misaligned: u32 = 0;
    for start in 0..2usize {
        let mut log = CellLog::new();
        match vtable.parse_table(&backing[start..start + 8], &mut log) {
            Ok(()) => assert_eq!(log.cells.len(), 1),
            Err(e) => {
                assert_eq!(e, Error::Alignment);
                assert_eq!(log.cells.len(), 0);
                misaligned += 1;
            }
        }
    }
    assert!(misaligned >= 1);
}

#[test]
fn parse_shape_reads_the_dimensions() {
    let vdata = u64_bytes(&[9, 2, 3, 4]);
    let shape = ShapeEntry { prim_type: PrimType::F32, rank: 3, shape_offset: 8 };
    assert_eq!(shape.parse_shape(&vdata), Ok(&[2u64, 3, 4][..]));
    let ids: BufEntry<EntityId> = BufEntry { offset: 16, phantom_data: Default::default() };
    assert_eq!(ids.parse(&vdata, 2), Ok(vec![EntityId(3), EntityId(4)]));
    let ids: BufEntry<ComponentId> = BufEntry { offset: 0, phantom_data: Default::default() };
    assert_eq!(ids.parse(&vdata, 1), Ok(vec![ComponentId(9)]));
}

#[test]
fn timestamps_are_read_from_the_payload() {
    let mut vtable: Builder = VTableBuilder::default();
    vtable.column(ComponentId(1), PrimType::U8, &[], &[EntityId(1)]).unwrap();
    let stamp = vtable.timestamp().unwrap();
    assert_eq!(stamp, 8);
    assert_eq!(vtable.data_len(), 16);
    vtable
        .column_with_timestamp(ComponentId(2), PrimType::U16, &[], &[EntityId(1)], Some(stamp))
        .unwrap();
    vtable
        .entity_with_timestamp(EntityId(5), &[(ComponentId(3), PrimType::U8, &[])], Some(stamp))
        .unwrap();
    let vtable = vtable.build();
    let mut table = vec![42u8, 0, 0, 0, 0, 0, 0, 0];
    table.extend_from_slice(&(-1234567890123i64).to_le_bytes());
    table.extend_from_slice(&[0x11, 0x22, 0x33]);
    let mut log = CellLog::new();
    vtable.parse_table(&table, &mut log).unwrap();
    assert_eq!(log.cells.len(), 3);
    assert_eq!(log.cells[0].timestamp, None);
    assert_eq!(log.cells[1].timestamp, Some(Timestamp(-1234567890123)));
    assert_eq!(log.cells[1].data, OwnedData::U16(vec![0x2211]));
    assert_eq!(log.cells[2].timestamp, Some(Timestamp(-1234567890123)));
    assert_eq!(log.cells[2].data, OwnedData::U8(vec![0x33]));
    assert_eq!(read_timestamp(Some(8), &table), Ok(Some(Timestamp(-1234567890123))));
    assert_eq!(read_timestamp(None, &table), Ok(None));
    assert_eq!(read_timestamp(Some(12), &table), Err(Error::BufferUnderflow));
    assert_eq!(read_timestamp(Some(u64::MAX), &table), Err(Error::OffsetOverflow));
}

#[test]
fn metadata_entries_are_skipped_by_parse_table() {
    let entries = vec![
        Entry::Metadata(MetadataEntry { id: 1, len: 2, offset: 1 }),
        Entry::Metadata(MetadataEntry { id: 2, len: 9, offset: 1 }),
        Entry::Metadata(MetadataEntry { id: 3, len: 0, offset: 4 }),
        Entry::Metadata(MetadataEntry { id: 4, len: u64::MAX, offset: u64::MAX }),
    ];
    let vtable = VTable::from_parts(entries, Vec::new());
    let table = [10u8, 11, 12, 13];
    let mut log = CellLog::new();
    assert_eq!(vtable.parse_table(&table, &mut log), Ok(()));
    assert_eq!(log.cells.len(), 0);
    let metadata = vtable.parse_metadata(&table);
    assert_eq!(metadata, vec![(1u64, &table[1..3]), (3u64, &table[4..4])]);
}

#[test]
fn column_iter_lists_columns_then_rows() {
    let mut vtable: Builder = VTableBuilder::default();
    vtable.entity(EntityId(7), &[(ComponentId(1), PrimType::F32, &[3]), (ComponentId(2), PrimType::Bool, &[])])
        .unwrap();
    vtable.column(ComponentId(3), PrimType::I16, &[2, 2], &[EntityId(8), EntityId(9)]).unwrap();
    let vtable = vtable.build();
    let cells = vtable.column_iter();
    assert_eq!(
        cells,
        vec![
            (EntityId(8), ComponentId(3), PrimType::I16, &[2u64, 2][..]),
            (EntityId(9), ComponentId(3), PrimType::I16, &[2u64, 2][..]),
            (EntityId(7), ComponentId(1), PrimType::F32, &[3u64][..]),
            (EntityId(7), ComponentId(2), PrimType::Bool, &[][..]),
        ]
    );
}

#[test]
fn column_iter_leaves_out_what_cannot_be_read() {
    let broken = ColumnEntry {
        len: 1,
        component_id: ComponentId(1),
        entity_ids_entry: BufEntry { offset: 800, phantom_data: Default::default() },
        data_col_offset: 0,
        shape_entry: ShapeEntry { prim_type: PrimType::U8, rank: 0, shape_offset: 0 },
        timestamp_offset: None,
    };
    let good = ColumnEntry {
        len: 1,
        component_id: ComponentId(2),
        entity_ids_entry: BufEntry { offset: 0, phantom_data: Default::default() },
        data_col_offset: 0,
        shape_entry: ShapeEntry { prim_type: PrimType::U8, rank: 0, shape_offset: 0 },
        timestamp_offset: None,
    };
    let vtable =
        VTable::from_parts(vec![Entry::Column(broken), Entry::Column(good)], u64_bytes(&[77]));
    assert_eq!(
        vtable.column_iter(),
        vec![(EntityId(77), ComponentId(2), PrimType::U8, &[][..])]
    );
}

#[test]
fn a_table_without_its_vtable_is_not_found() {
    let mut registry = VTableRegistry::new();
    let mut vtable: Builder = VTableBuilder::default();
    vtable.column(ComponentId(1), PrimType::U8, &[], &[EntityId(1)]).unwrap();
    registry.insert([1, 0], vtable.build());
    let mut log = CellLog::new();
    assert_eq!(registry.parse_table([2, 0], &[5], &mut log), Err(Error::VTableNotFound));
    assert_eq!(registry.parse_table([0, 1], &[5], &mut log), Err(Error::VTableNotFound));
    assert_eq!(log.cells.len(), 0);
    assert!(registry.get([2, 0]).is_none());
    assert_eq!(registry.parse_table([1, 0], &[5], &mut log), Ok(()));
    assert_eq!(log.cells.len(), 1);
    // a later descriptor for the same id takes the place of the earlier one
    let mut vtable: Builder = VTableBuilder::default();
    vtable.column(ComponentId(2), PrimType::U8, &[2], &[EntityId(1)]).unwrap();
    registry.insert([1, 0], vtable.build());
    assert_eq!(registry.parse_table([1, 0], &[5], &mut log), Err(Error::BufferUnderflow));
    assert_eq!(registry.get([1, 0]).unwrap().entries().len(), 1);
}

#[test]
fn component_id_is_fnv1a_of_the_name() {
    assert_eq!(ComponentId::new("").0, 0xcbf29ce484222325);
    assert_eq!(ComponentId::new("a").0, 0xaf63dc4c8601ec8c);
    assert_eq!(ComponentId::new("foobar").0, 0x85944171f73967e8);
}

#[test]
fn column_iter_lists_one_item_for_each_entity_of_a_column() {
    let mut vtable: Builder = VTableBuilder::default();
    vtable
        .column(ComponentId::new("foo"), PrimType::F32, &[2, 2], &[EntityId(1), EntityId(2)])
        .unwrap();
    let vtable = vtable.build();
    assert_eq!(
        vtable.column_iter(),
        vec![
            (EntityId(1), ComponentId::new("foo"), PrimType::F32, &[2u64, 2][..]),
            (EntityId(2), ComponentId::new("foo"), PrimType::F32, &[2u64, 2][..]),
        ]
    );
}

#[test]
fn column_iter_lists_one_item_for_each_component_of_a_row() {
    let mut vtable: Builder = VTableBuilder::default();
    vtable
        .entity(
            EntityId(0),
            &[
                (ComponentId::new("foo"), PrimType::F32, &[2, 2]),
                (ComponentId::new("bar"), PrimType::F64, &[3]),
            ],
        )
        .unwrap();
    let vtable = vtable.build();
    assert_eq!(
        vtable.column_iter(),
        vec![
            (EntityId(0), ComponentId::new("foo"), PrimType::F32, &[2u64, 2][..]),
            (EntityId(0), ComponentId::new("bar"), PrimType::F64, &[3u64][..]),
        ]
    );
}

#[test]
fn column_iter_lists_what_parse_table_delivers() {
    let mut vtable: Builder = VTableBuilder::default();
    vtable.entity(EntityId(7), &[(ComponentId(1), PrimType::U8, &[3]), (ComponentId(2), PrimType::Bool, &[])])
        .unwrap();
    vtable.column(ComponentId(3), PrimType::I16, &[2], &[EntityId(8), EntityId(9)]).unwrap();
    vtable.entity(EntityId(6), &[(ComponentId(4), PrimType::U16, &[1])]).unwrap();
    let vtable = vtable.build();
    let table = [1u8, 2, 3, 1, 5, 0, 6, 0, 7, 0, 8, 0, 9, 0];
    let mut log = CellLog::new();
    vtable.parse_table(&table, &mut log).unwrap();
    let mut delivered: Vec<(EntityId, ComponentId, PrimType, Vec<u64>)> = log
        .cells
        .iter()
        .map(|cell| {
            let prim_type = match cell.data {
                OwnedData::U8(_) => PrimType::U8,
                OwnedData::Bool(_) => PrimType::Bool,
                OwnedData::I16(_) => PrimType::I16,
                OwnedData::U16(_) => PrimType::U16,
                _ => panic!("no such type was built"),
            };
            (cell.entity_id, cell.component_id, prim_type, cell.shape.clone())
        })
        .collect();
    let mut listed: Vec<(EntityId, ComponentId, PrimType, Vec<u64>)> = vtable
        .column_iter()
        .into_iter()
        .map(|(e, c, p, shape)| (e, c, p, shape.to_vec()))
        .collect();
    assert_eq!(listed.len(), 5);
    delivered.sort_by_key(|cell| (cell.0, cell.1));
    listed.sort_by_key(|cell| (cell.0, cell.1));
    assert_eq!(delivered, listed);
}

#[test]
fn a_descriptor_of_metadata_only_decodes_to_nothing() {
    let entries = vec![Entry::Metadata(MetadataEntry { id: 1, len: 2, offset: 1 })];
    let vtable = VTable::from_parts(entries, Vec::new());
    let mut log = CellLog::new();
    assert_eq!(vtable.parse_table(&[1, 2, 3], &mut log), Ok(()));
    assert_eq!(log.cells.len(), 0);
    let none: VTable<Vec<Entry>, Vec<u8>> = VTable::from_parts(Vec::new(), Vec::new());
    assert_eq!(none.parse_table(&[], &mut log), Ok(()));
    assert_eq!(none.column_iter(), vec![]);
    assert_eq!(vtable.column_iter(), vec![]);
}

#[test]
fn a_cell_is_delivered_or_its_error_returned() {
    let shape = [2u64];
    let bytes = [1u8, 2, 3];
    let mut log = CellLog::new();
    let cast = ComponentView::try_from_bytes_shape(&bytes, &shape, PrimType::U8);
    let r = deliver_cell(ComponentId(1), EntityId(2), Some(Timestamp(3)), cast, &mut log);
    assert_eq!(r, Ok(()));
    assert_eq!(log.cells.len(), 1);
    assert_eq!(log.cells[0].component_id, ComponentId(1));
    assert_eq!(log.cells[0].entity_id, EntityId(2));
    assert_eq!(log.cells[0].timestamp, Some(Timestamp(3)));
    assert_eq!(log.cells[0].data, OwnedData::U8(vec![1, 2]));
    let r = deliver_cell(ComponentId(1), EntityId(2), None, Err(Error::BufferUnderflow), &mut log);
    assert_eq!(r, Err(Error::BufferUnderflow));
    let r = deliver_cell(ComponentId(1), EntityId(2), None, Err(Error::Alignment), &mut log);
    assert_eq!(r, Err(Error::Alignment));
    assert_eq!(log.cells.len(), 1);
}

#[test]
fn cells_are_listed_from_the_outcomes_of_the_casts() {
    let col = ColumnEntry {
        len: 2,
        component_id: ComponentId(5),
        entity_ids_entry: BufEntry { offset: 0, phantom_data: Default::default() },
        data_col_offset: 0,
        shape_entry: ShapeEntry { prim_type: PrimType::I32, rank: 1, shape_offset: 0 },
        timestamp_offset: None,
    };
    let shape = [4u64];
    assert_eq!(
        col.column_cells_of(Ok(&shape), Ok(vec![EntityId(1), EntityId(2)])),
        Some(vec![
            (EntityId(1), ComponentId(5), PrimType::I32, &shape[..]),
            (EntityId(2), ComponentId(5), PrimType::I32, &shape[..]),
        ])
    );
    assert_eq!(col.column_cells_of(Ok(&shape), Ok(vec![])), Some(vec![]));
    assert_eq!(col.column_cells_of(Err(Error::Alignment), Ok(vec![EntityId(1)])), None);
    assert_eq!(col.column_cells_of(Ok(&shape), Err(Error::BufferUnderflow)), None);

    let row = RowEntry {
        len: 2,
        entity_id: EntityId(9),
        component_ids_entry: BufEntry { offset: 0, phantom_data: Default::default() },
        shapes_entry: BufEntry { offset: 0, phantom_data: Default::default() },
        data_col_offset: 0,
        timestamp_offset: None,
    };
    let ids = vec![ComponentId(1), ComponentId(2)];
    let records = vec![
        ShapeEntry { prim_type: PrimType::U8, rank: 1, shape_offset: 0 },
        ShapeEntry { prim_type: PrimType::F64, rank: 0, shape_offset: 8 },
    ];
    let none: [u64; 0] = [];
    assert_eq!(
        row.row_cells_of(Ok(ids.clone()), Ok(records.clone()), &vec![Ok(&shape[..]), Ok(&none[..])]),
        Some(vec![
            (EntityId(9), ComponentId(1), PrimType::U8, &shape[..]),
            (EntityId(9), ComponentId(2), PrimType::F64, &none[..]),
        ])
    );
    assert_eq!(
        row.row_cells_of(Ok(ids.clone()), Ok(records.clone()), &vec![Ok(&shape[..]), Err(Error::Alignment)]),
        None
    );
    assert_eq!(row.row_cells_of(Ok(ids.clone()), Ok(records.clone()), &vec![Ok(&shape[..])]), None);
    assert_eq!(
        row.row_cells_of(Err(Error::BufferUnderflow), Ok(records.clone()), &vec![Ok(&shape[..]), Ok(&none[..])]),
        None
    );
    assert_eq!(
        row.row_cells_of(Ok(ids), Err(Error::InvalidComponentData), &vec![]),
        None
    );
}

#[test]
fn builder_calls_can_be_chained() {
    let mut vtable: Builder = VTableBuilder::default();
    vtable
        .column(ComponentId(1), PrimType::U8, &[], &[EntityId(1)])
        .unwrap()
        .column(ComponentId(2), PrimType::U32, &[], &[EntityId(1)])
        .unwrap()
        .entity(EntityId(2), &[(ComponentId(3), PrimType::U8, &[])])
        .unwrap();
    assert_eq!(vtable.data_len(), 9);
    let vtable = vtable.build();
    assert_eq!(vtable.entries().len(), 3);
    match vtable.entries()[1] {
        Entry::Column(col) => assert_eq!(col.data_col_offset, 4),
        _ => panic!("a column entry was built"),
    }
}
