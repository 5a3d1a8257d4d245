use std::collections::HashMap;

use impeller2::buf::{
    extend_aligned, extend_from_slice, pad_for_alignment, push_aligned, ArrayBuf, Buf,
};
use impeller2::com_de::{
    AsComponentView, CellLog, Componentize, Decomponentize, FromComponentView, OwnedCell, OwnedData,
};
use impeller2::error::Error;
use impeller2::msgs::{
    packet_id, ErrorResponse, FixedRateBehavior, GetSchema, InitialTimestamp, Msg, SetAsset,
    SetComponentMetadata, SetDbSettings, SetEntityMetadata, SetStreamState, StreamBehavior,
    StreamFilter, VTableMsg,
};
use impeller2::schema::{DimElem, Schema};
use impeller2::types::{ArrayView, ComponentId, ComponentView, EntityId, PrimType, Timestamp};

#[test]
fn a_vec_takes_every_push() {
    let mut buf: Vec<u8> = Buf::new();
    assert_eq!(Buf::len(&buf), 0);
    assert_eq!(Buf::push(&mut buf, 7), Ok(()));
    assert_eq!(Buf::as_slice(&buf), &[7]);
    assert_eq!(Buf::spare(&buf), usize::MAX - 1);
}

#[test]
fn an_array_buf_refuses_what_does_not_fit() {
    let mut buf: ArrayBuf<u8, 2> = Buf::new();
    assert_eq!(buf.spare(), 2);
    assert_eq!(buf.push(1), Ok(()));
    assert_eq!(buf.push(2), Ok(()));
    assert_eq!(buf.push(3), Err(Error::BufferOverflow));
    assert_eq!(buf.as_slice(), &[1, 2]);
    assert_eq!(buf.len(), 2);
    assert_eq!(buf.spare(), 0);
}

#[test]
fn aligned_writes_pad_with_zeros() {
    let mut buf: Vec<u8> = vec![9];
    assert_eq!(push_aligned(&mut buf, 0x0102_0304_0506_0708), Ok(8));
    assert_eq!(buf, vec![9, 0, 0, 0, 0, 0, 0, 0, 8, 7, 6, 5, 4, 3, 2, 1]);
    assert_eq!(extend_aligned(&mut buf, &[1, 2]), Ok(16));
    assert_eq!(buf.len(), 32);
    assert_eq!(&buf[16..], &[1, 0, 0, 0, 0, 0, 0, 0, 2, 0, 0, 0, 0, 0, 0, 0]);
    assert_eq!(extend_from_slice(&mut buf, &[5, 6, 7]), Ok(()));
    assert_eq!(pad_for_alignment(&mut buf, 4), Ok(()));
    assert_eq!(buf.len(), 36);
    assert_eq!(&buf[32..], &[5, 6, 7, 0]);
    assert_eq!(pad_for_alignment(&mut buf, 4), Ok(()));
    assert_eq!(buf.len(), 36);
}

#[test]
fn aligned_writes_are_all_or_nothing() {
    let mut buf: ArrayBuf<u8, 15> = Buf::new();
    assert_eq!(buf.push(1), Ok(()));
    assert_eq!(push_aligned(&mut buf, 5), Err(Error::BufferOverflow));
    assert_eq!(extend_aligned(&mut buf, &[5]), Err(Error::BufferOverflow));
    assert_eq!(buf.as_slice(), &[1]);
    assert_eq!(extend_aligned(&mut buf, &[]), Ok(8));
    assert_eq!(buf.len(), 8);
    assert_eq!(extend_from_slice(&mut buf, &[0; 8]), Err(Error::BufferOverflow));
    assert_eq!(buf.len(), 8);
    assert_eq!(extend_from_slice(&mut buf, &[3; 7]), Ok(()));
    assert_eq!(pad_for_alignment(&mut buf, 8), Err(Error::BufferOverflow));
    assert_eq!(buf.len(), 15);
}

#[test]
fn a_schema_keeps_id_type_and_shape() {
    let schema: Schema<Vec<u64>> =
        Schema::new(ComponentId::new("pos"), PrimType::F64, &[3usize, 4]).unwrap();
    assert_eq!(schema.component_id(), ComponentId::new("pos"));
    assert_eq!(schema.prim_type(), PrimType::F64);
    assert_eq!(schema.shape(), &[3, 4]);
    let dims = [7u64, 8];
    let refs: Vec<&u64> = dims.iter().collect();
    let schema: Schema<Vec<u64>> = Schema::new(ComponentId(1), PrimType::U8, &refs).unwrap();
    assert_eq!(schema.shape(), &[7, 8]);
    let bounded: Result<Schema<ArrayBuf<u64, 1>>, Error> =
        Schema::new(ComponentId(1), PrimType::U8, &[1u64, 2]);
    assert!(matches!(bounded, Err(Error::BufferOverflow)));
    assert_eq!(5usize.into_u64(), 5);
    assert_eq!((&6u64).into_u64(), 6);
}

#[test]
fn composite_sinks_forward_to_each_child_in_order() {
    let value = 0x1234u16;
    let mut pair = (CellLog::new(), (CellLog::new(), ()));
    pair.apply_value(ComponentId(1), EntityId(2), value.as_component_view(), Some(Timestamp(3)));
    pair.apply_value(ComponentId(4), EntityId(5), true.as_component_view(), None);
    assert_eq!(pair.0.cells, (pair.1).0.cells);
    assert_eq!(pair.0.cells.len(), 2);
    assert_eq!(pair.0.cells[0].component_id, ComponentId(1));
    assert_eq!(pair.0.cells[0].data, OwnedData::U16(vec![0x1234]));
    assert_eq!(pair.0.cells[0].timestamp, Some(Timestamp(3)));
    assert_eq!(pair.0.cells[1].data, OwnedData::Bool(vec![true]));

    let mut many = vec![CellLog::new(), CellLog::new(), CellLog::new()];
    many.apply_value(ComponentId(1), EntityId(2), 9i8.as_component_view(), None);
    for log in &many {
        assert_eq!(log.cells.len(), 1);
        assert_eq!(log.cells[0].data, OwnedData::I8(vec![9]));
    }
    let mut triple = (CellLog::new(), CellLog::new(), (CellLog::new(),));
    triple.apply_value(ComponentId(1), EntityId(2), 9u64.as_component_view(), None);
    assert_eq!(triple.0.cells.len(), 1);
    assert_eq!(triple.1.cells.len(), 1);
    assert_eq!((triple.2).0.cells.len(), 1);
}

#[test]
fn sources_emit_their_values_in_order() {
    let first = OwnedCell {
        component_id: ComponentId(1),
        entity_id: EntityId(1),
        shape: vec![2],
        data: OwnedData::U8(vec![1, 2]),
        timestamp: None,
    };
    let second = OwnedCell {
        component_id: ComponentId(2),
        entity_id: EntityId(1),
        shape: vec![],
        data: OwnedData::F32(vec![1.5f32.to_bits()]),
        timestamp: Some(Timestamp(8)),
    };
    let mut log = CellLog::new();
    (first.clone(), ((), second.clone())).sink_columns(&mut log);
    assert_eq!(log.cells, vec![first.clone(), second.clone()]);
    let mut copy = CellLog::new();
    (log.clone(), (first.clone(),), ()).sink_columns(&mut copy);
    assert_eq!(copy.cells, vec![first.clone(), second.clone(), first.clone()]);
    let mut none = CellLog::new();
    ().sink_columns(&mut none);
    assert_eq!(none.cells.len(), 0);
}

#[test]
fn scalars_go_through_views() {
    let view = 77u32.as_component_view();
    assert_eq!(view.prim_type(), PrimType::U32);
    assert_eq!(view.shape(), &[] as &[u64]);
    assert_eq!(u32::from_component_view(view), Ok(77));
    assert_eq!(u64::from_component_view(view), Err(Error::InvalidComponentData));
    assert_eq!(i64::from_component_view((-5i64).as_component_view()), Ok(-5));
    assert_eq!(bool::from_component_view(false.as_component_view()), Ok(false));
    assert_eq!(u8::from_component_view(200u8.as_component_view()), Ok(200));
    assert_eq!(i16::from_component_view((-2i16).as_component_view()), Ok(-2));
    assert_eq!(i32::from_component_view(3i32.as_component_view()), Ok(3));
    assert_eq!(u16::from_component_view(4u16.as_component_view()), Ok(4));
    assert_eq!(i8::from_component_view((-6i8).as_component_view()), Ok(-6));
    assert_eq!(u64::from_component_view(u64::MAX.as_component_view()), Ok(u64::MAX));
    let empty = ComponentView::U16(ArrayView::from_buf_shape_unchecked(&[], &[0]));
    assert_eq!(u16::from_component_view(empty), Err(Error::BufferUnderflow));
}

#[test]
fn views_are_read_with_the_given_shape() {
    let bytes = [1u8, 2, 3, 4, 5, 6, 7];
    let shape = [2u64, 3];
    let view = ComponentView::try_from_bytes_shape(&bytes, &shape, PrimType::U8).unwrap();
    assert_eq!(view, ComponentView::U8(ArrayView { buf: &[1, 2, 3, 4, 5, 6], shape: &[2, 3] }));
    assert_eq!(view.shape(), &[2, 3]);
    assert_eq!(
        ComponentView::try_from_bytes_shape(&bytes, &[2, 4], PrimType::U8),
        Err(Error::BufferUnderflow)
    );
    assert_eq!(
        ComponentView::try_from_bytes_shape(&bytes, &[u64::MAX, 4], PrimType::U8),
        Err(Error::OffsetOverflow)
    );
    assert_eq!(
        ComponentView::try_from_bytes_shape(&bytes, &[1], PrimType::Bool),
        Ok(ComponentView::Bool(ArrayView { buf: &[true], shape: &[1] }))
    );
    assert_eq!(
        ComponentView::try_from_bytes_shape(&bytes, &[2], PrimType::Bool),
        Err(Error::InvalidComponentData)
    );
}

#[test]
fn messages_have_their_packet_ids() {
    assert_eq!(VTableMsg::id(), [224, 0]);
    assert_eq!(SetStreamState::id(), [224, 2]);
    assert_eq!(GetSchema::id(), [224, 5]);
    assert_eq!(SetAsset::id(), [224, 12]);
    assert_eq!(ErrorResponse::id(), [224, 29]);
    assert_eq!(impeller2::msgs::NewConnection::id(), [225, 1]);
    assert_eq!(packet_id(3, 4), [3, 4]);
}

#[test]
fn message_builders_set_their_fields() {
    let msg = SetStreamState::rewind(4, Timestamp(99));
    assert_eq!(msg.id, 4);
    assert_eq!(msg.timestamp, Some(Timestamp(99)));
    assert_eq!(msg.playing, None);
    assert_eq!(msg.time_step, None);
    assert_eq!(msg.frequency, None);

    let mut metadata = HashMap::new();
    metadata.insert("unit".to_string(), "m".to_string());
    let msg = SetComponentMetadata::new(ComponentId(3), "pos");
    assert_eq!(msg.0.component_id, ComponentId(3));
    assert_eq!(msg.0.name, "pos");
    assert!(msg.0.metadata.is_empty());
    assert!(!msg.0.asset);
    let msg = msg.metadata(metadata.clone()).asset(true);
    assert_eq!(msg.0.metadata, metadata);
    assert!(msg.0.asset);
    assert_eq!(msg.0.name, "pos");

    let msg = SetEntityMetadata::new(EntityId(8), "ball").metadata(metadata.clone());
    assert_eq!(msg.0.entity_id, EntityId(8));
    assert_eq!(msg.0.name, "ball");
    assert_eq!(msg.0.metadata, metadata);

    let msg = SetAsset::new(5, vec![1, 2]);
    assert_eq!(msg.id, 5);
    assert_eq!(msg.buf, vec![1, 2]);
}

#[test]
fn errors_have_messages() {
    assert_eq!(Error::BufferUnderflow.message(), "buffer underflow");
    assert_eq!(Error::BufferOverflow.message(), "buffer overflow");
    assert_eq!(Error::OffsetOverflow.message(), "offset overflow");
    assert_eq!(Error::Alignment.message(), "incorrect aligned input");
    assert_eq!(Error::InvalidComponentData.message(), "incorrect component data");
    assert_eq!(Error::VTableNotFound.message(), "vtable not found");
    assert_eq!(Error::InvalidPacket.message(), "invalid packet");
    assert_eq!(
        Error::Postcard("Found a bool that wasn't 0 or 1".to_string()).message(),
        "postcard Found a bool that wasn't 0 or 1"
    );
    assert_eq!(impeller2::error::StoreError::TimeTravel.message(), "time travel");
    assert_eq!(impeller2::error::StoreError::LogOverflow.message(), "log overflow");
    assert_eq!(impeller2::error::StoreError::Truncated.message(), "truncated log");
}

#[test]
fn defaults_of_messages_and_descriptors() {
    assert!(matches!(InitialTimestamp::default(), InitialTimestamp::Earliest));
    assert!(matches!(StreamBehavior::default(), StreamBehavior::RealTime));
    let behavior = FixedRateBehavior::default();
    assert!(matches!(behavior.initial_timestamp, InitialTimestamp::Earliest));
    assert_eq!(behavior.timestep, None);
    assert_eq!(behavior.frequency, None);
    let filter = StreamFilter::default();
    assert_eq!(filter.component_id, None);
    assert_eq!(filter.entity_id, None);
    let settings = SetDbSettings::default();
    assert_eq!(settings.recording, None);
    assert_eq!(settings.time_step, None);
    let vtable: impeller2::table::VTable<Vec<impeller2::table::Entry>, Vec<u8>> = Default::default();
    assert_eq!(vtable.entries().len(), 0);
    assert_eq!(vtable.data().len(), 0);
    let copy = vtable.clone();
    assert_eq!(copy.entries().len(), 0);
}

#[test]
fn the_size_bound_of_a_tuple_is_the_sum_of_its_members() {
    assert_eq!(<() as Componentize>::MAX_SIZE, 0);
    assert_eq!(<((),) as Componentize>::MAX_SIZE, 0);
    assert_eq!(<((), ((), (), ())) as Componentize>::MAX_SIZE, 0);
    assert_eq!(<CellLog as Componentize>::MAX_SIZE, usize::MAX);
    assert_eq!(<(CellLog, ()) as Componentize>::MAX_SIZE, usize::MAX);
    assert_eq!(<OwnedCell as Componentize>::MAX_SIZE, usize::MAX);
}
