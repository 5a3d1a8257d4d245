use impeller2::com_de::{AsComponentView, CellLog, Decomponentize};
use impeller2::series_sink::SeriesSink;
use impeller2::table::{Entry, VTableBuilder};
use impeller2::time_series::TimeSeries;
use impeller2::types::{ArrayView, ComponentId, ComponentView, EntityId, PrimType, Timestamp};

fn payload(stamp: i64, values: &[u16]) -> Vec<u8> {
    let mut table = stamp.to_le_bytes().to_vec();
    for v in values {
        table.extend_from_slice(&v.to_le_bytes());
    }
    table
}

#[test]
fn decoded_values_are_stored_and_found() {
    let mut vtable: VTableBuilder<Vec<Entry>, Vec<u8>> = VTableBuilder::default();
    let stamp = vtable.timestamp().unwrap();
    let ids = [EntityId(1), EntityId(2)];
    vtable
        .column_with_timestamp(ComponentId(9), PrimType::U16, &[2], &ids, Some(stamp))
        .unwrap();
    let vtable = vtable.build();

    let writer = TimeSeries::create(Timestamp(0), 4);
    let mut sinks = (SeriesSink::new(ComponentId(9), EntityId(2), writer), CellLog::new());
    vtable.parse_table(&payload(10, &[1, 2, 3, 4]), &mut sinks).unwrap();
    vtable.parse_table(&payload(20, &[5, 6, 7, 8]), &mut sinks).unwrap();
    // a table from the past is decoded, and its value refused by the series
    vtable.parse_table(&payload(15, &[9, 9, 9, 9]), &mut sinks).unwrap();

    let (sink, log) = sinks;
    assert_eq!(log.cells.len(), 6);
    assert_eq!(sink.refused(), 1);
    let series = sink.series();
    assert_eq!(series.len(), 2);
    assert_eq!(series.get(Timestamp(10)), Some(&[3u8, 0, 4, 0][..]));
    assert_eq!(series.get(Timestamp(20)), Some(&[7u8, 0, 8, 0][..]));
    assert_eq!(series.get(Timestamp(15)), None);
    assert_eq!(series.latest(), Some((Timestamp(20), &[7u8, 0, 8, 0][..])));
    assert_eq!(
        series.get_range(Timestamp(0)..Timestamp(100)),
        Some((vec![Timestamp(10), Timestamp(20)], &[3u8, 0, 4, 0, 7, 0, 8, 0][..]))
    );
    let writer = sink.into_writer();
    assert_eq!(writer.series().len(), 2);
}

#[test]
fn values_without_a_timestamp_are_stored_at_the_sinks_time() {
    let writer = TimeSeries::create(Timestamp(100), 8);
    let mut sink = SeriesSink::new(ComponentId(1), EntityId(1), writer);
    sink.apply_value(ComponentId(1), EntityId(1), 7u64.as_component_view(), None);
    sink.set_time(Timestamp(105));
    sink.apply_value(ComponentId(1), EntityId(1), 8u64.as_component_view(), None);
    sink.apply_value(ComponentId(2), EntityId(1), 9u64.as_component_view(), None);
    sink.apply_value(ComponentId(1), EntityId(3), 9u64.as_component_view(), None);
    let series = sink.series();
    assert_eq!(series.timestamps(), vec![Timestamp(100), Timestamp(105)]);
    assert_eq!(series.get(Timestamp(100)), Some(&7u64.to_le_bytes()[..]));
    assert_eq!(series.get(Timestamp(105)), Some(&8u64.to_le_bytes()[..]));
    assert_eq!(sink.refused(), 0);
}

#[test]
fn views_give_their_elements_as_bytes() {
    let shape = [3u64];
    let view = ComponentView::I16(ArrayView { buf: &[-1, 2, 0x0102], shape: &shape });
    assert_eq!(view.as_bytes(), &[0xff, 0xff, 2, 0, 2, 1]);
    let view = ComponentView::Bool(ArrayView { buf: &[true, false], shape: &shape });
    assert_eq!(view.as_bytes(), &[1, 0]);
    let view = ComponentView::F64(ArrayView { buf: &[1.5f64.to_bits()], shape: &shape });
    assert_eq!(view.as_bytes(), &1.5f64.to_le_bytes()[..]);
    assert_eq!(0xdead_beefu32.as_component_view().as_bytes(), &[0xef, 0xbe, 0xad, 0xde]);
}
