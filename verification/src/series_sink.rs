//! The storage role of a sink: the values of one component of one entity
//! are appended to a time series.

use vstd::prelude::*;
use crate::com_de::{Cell, Decomponentize};
use crate::error::StoreError;
use crate::time_series::{
    lemma_woken_after_commit, sorted, SeriesView, TimeSeries, TimeSeriesWriter,
};
use crate::types::{ComponentId, ComponentView, EntityId, Timestamp};

verus! {

/// A sink that stores the values of one component of one entity in a time
/// series and lets every other value pass.
///
/// A value is pushed with its own timestamp, or with the sink's present
/// time if it has none. A push that the series refuses changes nothing but
/// the count of refusals: the sink goes on with the next value.
pub struct SeriesSink {
    component_id: ComponentId,
    entity_id: EntityId,
    now: Timestamp,
    writer: TimeSeriesWriter,
    refused: u64,
}

/// What a [`SeriesSink`] holds.
pub struct SeriesSinkView {
    /// The component whose values are stored.
    pub component_id: ComponentId,
    /// The entity whose values are stored.
    pub entity_id: EntityId,
    /// The time at which values without a timestamp are stored.
    pub now: Timestamp,
    /// The series.
    pub series: SeriesView,
    /// The number of pushes that the series has refused; it stops at its
    /// greatest value.
    pub refused: u64,
}

impl SeriesSinkView {
    /// Whether the sink stores `cell`.
    pub open spec fn takes(self, cell: Cell) -> bool {
        cell.component_id == self.component_id && cell.entity_id == self.entity_id
    }

    /// The time at which `cell` is stored.
    pub open spec fn time_of(self, cell: Cell) -> Timestamp {
        match cell.timestamp {
            Some(t) => t,
            None => self.now,
        }
    }

    /// The sink after `cell` has arrived.
    pub open spec fn stored(self, cell: Cell) -> SeriesSinkView {
        if self.takes(cell) {
            match self.series.spec_push(self.time_of(cell), cell.value.data.bytes()) {
                Ok(series) => SeriesSinkView { series, ..self },
                Err(_) => SeriesSinkView {
                    refused: if self.refused < u64::MAX {
                        (self.refused + 1) as u64
                    } else {
                        self.refused
                    },
                    ..self
                },
            }
        } else {
            self
        }
    }
}

impl View for SeriesSink {
    type V = SeriesSinkView;

    closed spec fn view(&self) -> SeriesSinkView {
        SeriesSinkView {
            component_id: self.component_id,
            entity_id: self.entity_id,
            now: self.now,
            series: self.writer@,
            refused: self.refused,
        }
    }
}

impl SeriesSink {
    #[verifier::type_invariant]
    spec fn inv(&self) -> bool {
        self.writer.wf()
    }

    /// A sink that stores the values of `component_id` of `entity_id` in the
    /// series of `writer`; its time is the start of the series.
    pub fn new(component_id: ComponentId, entity_id: EntityId, writer: TimeSeriesWriter) -> (sink: Self)
        requires
            writer.wf(),
        ensures
            sink@ == (SeriesSinkView {
                component_id,
                entity_id,
                now: writer@.start_timestamp,
                series: writer@,
                refused: 0,
            }),
    {
        let now = writer.series().start_timestamp();
        SeriesSink { component_id, entity_id, now, writer, refused: 0 }
    }

    /// Sets the time at which values without a timestamp are stored.
    pub fn set_time(&mut self, now: Timestamp)
        ensures
            final(self)@ == (SeriesSinkView { now, ..old(self)@ }),
    {
        proof {
            use_type_invariant(&*self);
        }
        self.now = now;
    }

    /// The series as readers see it.
    pub fn series(&self) -> (series: TimeSeries<'_>)
        ensures
            series.wf(),
            series@ == self@.series,
    {
        proof {
            use_type_invariant(self);
        }
        self.writer.series()
    }

    /// The number of pushes that the series has refused.
    pub fn refused(&self) -> (n: u64)
        ensures
            n == self@.refused,
    {
        self.refused
    }

    /// Gives the writer of the series back.
    pub fn into_writer(self) -> (writer: TimeSeriesWriter)
        ensures
            writer.wf(),
            writer@ == self@.series,
    {
        proof {
            use_type_invariant(&self);
        }
        self.writer
    }
}

impl Decomponentize for SeriesSink {
    type State = SeriesSinkView;

    open spec fn state(&self) -> SeriesSinkView {
        self@
    }

    open spec fn accept(state: SeriesSinkView, cell: Cell) -> SeriesSinkView {
        state.stored(cell)
    }

    fn apply_value(
        &mut self,
        component_id: ComponentId,
        entity_id: EntityId,
        value: ComponentView<'_>,
        timestamp: Option<Timestamp>,
    ) {
        proof {
            use_type_invariant(&*self);
        }
        if component_id == self.component_id && entity_id == self.entity_id {
            let time = match timestamp {
                Some(t) => t,
                None => self.now,
            };
            let mut writer = TimeSeries::create(Timestamp(0), 0);
            core::mem::swap(&mut self.writer, &mut writer);
            let pushed = writer.push_with_buf(time, value.as_bytes());
            core::mem::swap(&mut self.writer, &mut writer);
            match pushed {
                Ok(()) => {},
                Err(_) => {
                    if self.refused < u64::MAX {
                        self.refused = self.refused + 1;
                    }
                },
            }
        }
    }
}

/// What is stored is found: where a sink takes a cell whose element has the
/// size of the series' elements, and the series is whole and accepts the
/// push, the series then yields the bytes of the cell under the time of the
/// cell and as its latest entry.
pub proof fn lemma_stored_value_is_found(sink: SeriesSinkView, cell: Cell)
    requires
        sink.takes(cell),
        sorted(sink.series.timestamps),
        sink.series.correlated(),
        cell.value.data.bytes().len() == sink.series.element_size,
        sink.series.spec_push(sink.time_of(cell), cell.value.data.bytes()) is Ok,
    ensures
        sink.stored(cell).refused == sink.refused,
        sink.stored(cell).series.spec_get(sink.time_of(cell)) == Some(cell.value.data.bytes()),
        sink.stored(cell).series.spec_latest() == Some(
            (sink.time_of(cell), cell.value.data.bytes()),
        ),
{
    lemma_woken_after_commit(sink.series, sink.time_of(cell), cell.value.data.bytes());
}

/// What the sink does not take passes without a trace.
pub proof fn lemma_other_values_pass(sink: SeriesSinkView, cell: Cell)
    requires
        !sink.takes(cell),
    ensures
        sink.stored(cell) == sink,
{
}

} // verus!
