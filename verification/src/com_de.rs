//! The seam between the wire layer and its consumers: a sink accepts
//! decoded values, a source emits them.

use vstd::prelude::*;
use vstd::slice::slice_to_vec;
use crate::error::Error;
use crate::types::{
    ArrayView, ComponentData, ComponentId, ComponentValue, ComponentView, EntityId, Timestamp,
};

verus! {

/// One decoded value with what it is a value of.
pub struct Cell {
    pub component_id: ComponentId,
    pub entity_id: EntityId,
    pub value: ComponentValue,
    pub timestamp: Option<Timestamp>,
}

/// A sink of decoded values.
///
/// What a sink has taken in is summed up by its `state`; `accept` says how
/// one more value changes it. An implementation owes `apply_value` exactly
/// that change, which is what lets a parser's contract speak of a sink it
/// knows nothing else about.
pub trait Decomponentize: Sized {
    /// What the sink remembers of the values it has accepted.
    type State;

    /// The sink's present state.
    open spec fn state(&self) -> Self::State {
        arbitrary()
    }

    /// The state that follows `state` once `cell` has been accepted.
    open spec fn accept(state: Self::State, cell: Cell) -> Self::State {
        arbitrary()
    }

    /// Accepts one decoded value.
    fn apply_value(
        &mut self,
        component_id: ComponentId,
        entity_id: EntityId,
        value: ComponentView<'_>,
        timestamp: Option<Timestamp>,
    )
        ensures
            final(self).state() == Self::accept(
                old(self).state(),
                Cell { component_id, entity_id, value: value@, timestamp },
            ),
    ;
}

/// The state of a sink of type `S` that was in `state` and has then accepted
/// `cells`, first to last.
pub open spec fn deliver<S: Decomponentize>(state: S::State, cells: Seq<Cell>) -> S::State
    decreases cells.len(),
{
    if cells.len() == 0 {
        state
    } else {
        S::accept(deliver::<S>(state, cells.drop_last()), cells.last())
    }
}

/// Delivering one more cell is accepting it after the others.
pub proof fn lemma_deliver_push<S: Decomponentize>(state: S::State, cells: Seq<Cell>, cell: Cell)
    ensures
        deliver::<S>(state, cells.push(cell)) == S::accept(deliver::<S>(state, cells), cell),
{
    assert(cells.push(cell).drop_last() == cells);
}

/// Delivering two runs of cells one after the other is delivering their
/// concatenation.
pub proof fn lemma_deliver_concat<S: Decomponentize>(state: S::State, a: Seq<Cell>, b: Seq<Cell>)
    ensures
        deliver::<S>(state, a + b) == deliver::<S>(deliver::<S>(state, a), b),
    decreases b.len(),
{
    if b.len() == 0 {
        assert(a + b == a);
    } else {
        lemma_deliver_concat::<S>(state, a, b.drop_last());
        assert((a + b).drop_last() == a + b.drop_last());
    }
}

/// The sink that drops every value.
impl Decomponentize for () {
    type State = ();

    open spec fn state(&self) -> () {
        ()
    }

    open spec fn accept(state: (), cell: Cell) -> () {
        ()
    }

    fn apply_value(
        &mut self,
        component_id: ComponentId,
        entity_id: EntityId,
        value: ComponentView<'_>,
        timestamp: Option<Timestamp>,
    ) {
    }
}

impl<T1: Decomponentize> Decomponentize for (T1,) {
    type State = T1::State;

    open spec fn state(&self) -> T1::State {
        self.0.state()
    }

    open spec fn accept(state: T1::State, cell: Cell) -> T1::State {
        T1::accept(state, cell)
    }

    fn apply_value(
        &mut self,
        component_id: ComponentId,
        entity_id: EntityId,
        value: ComponentView<'_>,
        timestamp: Option<Timestamp>,
    ) {
        self.0.apply_value(component_id, entity_id, value, timestamp);
    }
}

/// Two sinks as one: every value goes to the first, then to the second.
impl<T1: Decomponentize, T2: Decomponentize> Decomponentize for (T1, T2) {
    type State = (T1::State, T2::State);

    open spec fn state(&self) -> (T1::State, T2::State) {
        (self.0.state(), self.1.state())
    }

    open spec fn accept(state: (T1::State, T2::State), cell: Cell) -> (T1::State, T2::State) {
        (T1::accept(state.0, cell), T2::accept(state.1, cell))
    }

    fn apply_value(
        &mut self,
        component_id: ComponentId,
        entity_id: EntityId,
        value: ComponentView<'_>,
        timestamp: Option<Timestamp>,
    ) {
        self.0.apply_value(component_id, entity_id, value, timestamp);
        self.1.apply_value(component_id, entity_id, value, timestamp);
    }
}

/// Three sinks as one: every value goes to each, in order.
impl<T1: Decomponentize, T2: Decomponentize, T3: Decomponentize> Decomponentize for (T1, T2, T3) {
    type State = (T1::State, T2::State, T3::State);

    open spec fn state(&self) -> (T1::State, T2::State, T3::State) {
        (self.0.state(), self.1.state(), self.2.state())
    }

    open spec fn accept(state: (T1::State, T2::State, T3::State), cell: Cell) -> (
        T1::State,
        T2::State,
        T3::State,
    ) {
        (T1::accept(state.0, cell), T2::accept(state.1, cell), T3::accept(state.2, cell))
    }

    fn apply_value(
        &mut self,
        component_id: ComponentId,
        entity_id: EntityId,
        value: ComponentView<'_>,
        timestamp: Option<Timestamp>,
    ) {
        self.0.apply_value(component_id, entity_id, value, timestamp);
        self.1.apply_value(component_id, entity_id, value, timestamp);
        self.2.apply_value(component_id, entity_id, value, timestamp);
    }
}

/// The elements of a component value, owned.
#[derive(Clone, Debug, PartialEq, Eq)]
pub enum OwnedData {
    U8(Vec<u8>),
    U16(Vec<u16>),
    U32(Vec<u32>),
    U64(Vec<u64>),
    I8(Vec<i8>),
    I16(Vec<i16>),
    I32(Vec<i32>),
    I64(Vec<i64>),
    Bool(Vec<bool>),
    F32(Vec<u32>),
    F64(Vec<u64>),
}

impl View for OwnedData {
    type V = ComponentData;

    open spec fn view(&self) -> ComponentData {
        match self {
            OwnedData::U8(v) => ComponentData::U8(v@),
            OwnedData::U16(v) => ComponentData::U16(v@),
            OwnedData::U32(v) => ComponentData::U32(v@),
            OwnedData::U64(v) => ComponentData::U64(v@),
            OwnedData::I8(v) => ComponentData::I8(v@),
            OwnedData::I16(v) => ComponentData::I16(v@),
            OwnedData::I32(v) => ComponentData::I32(v@),
            OwnedData::I64(v) => ComponentData::I64(v@),
            OwnedData::Bool(v) => ComponentData::Bool(v@),
            OwnedData::F32(v) => ComponentData::F32(v@),
            OwnedData::F64(v) => ComponentData::F64(v@),
        }
    }
}

/// One decoded value, owned, with what it is a value of.
#[derive(Clone, Debug, PartialEq, Eq)]
pub struct OwnedCell {
    pub component_id: ComponentId,
    pub entity_id: EntityId,
    pub shape: Vec<u64>,
    pub data: OwnedData,
    pub timestamp: Option<Timestamp>,
}

impl View for OwnedCell {
    type V = Cell;

    open spec fn view(&self) -> Cell {
        Cell {
            component_id: self.component_id,
            entity_id: self.entity_id,
            value: ComponentValue { shape: self.shape@, data: self.data@ },
            timestamp: self.timestamp,
        }
    }
}

impl OwnedCell {
    /// A copy of what `value` shows, with what it is a value of.
    pub fn new(
        component_id: ComponentId,
        entity_id: EntityId,
        value: ComponentView<'_>,
        timestamp: Option<Timestamp>,
    ) -> (cell: OwnedCell)
        ensures
            cell@ == (Cell { component_id, entity_id, value: value@, timestamp }),
    {
        let shape = slice_to_vec(value.shape());
        let data = match value {
            ComponentView::U8(a) => OwnedData::U8(slice_to_vec(a.buf)),
            ComponentView::U16(a) => OwnedData::U16(slice_to_vec(a.buf)),
            ComponentView::U32(a) => OwnedData::U32(slice_to_vec(a.buf)),
            ComponentView::U64(a) => OwnedData::U64(slice_to_vec(a.buf)),
            ComponentView::I8(a) => OwnedData::I8(slice_to_vec(a.buf)),
            ComponentView::I16(a) => OwnedData::I16(slice_to_vec(a.buf)),
            ComponentView::I32(a) => OwnedData::I32(slice_to_vec(a.buf)),
            ComponentView::I64(a) => OwnedData::I64(slice_to_vec(a.buf)),
            ComponentView::Bool(a) => OwnedData::Bool(slice_to_vec(a.buf)),
            ComponentView::F32(a) => OwnedData::F32(slice_to_vec(a.buf)),
            ComponentView::F64(a) => OwnedData::F64(slice_to_vec(a.buf)),
        };
        OwnedCell { component_id, entity_id, shape, data, timestamp }
    }
}

/// The cells that `cells` hold.
pub open spec fn cells_of(cells: Seq<OwnedCell>) -> Seq<Cell> {
    Seq::new(cells.len(), |i: int| cells[i]@)
}

/// The sink that keeps a copy of every value, in the order of arrival.
#[derive(Clone, Debug, PartialEq, Eq)]
pub struct CellLog {
    pub cells: Vec<OwnedCell>,
}

impl CellLog {
    /// A log without cells.
    pub fn new() -> (log: CellLog)
        ensures
            log.state() == Seq::<Cell>::empty(),
    {
        let log = CellLog { cells: Vec::new() };
        assert(cells_of(log.cells@) =~= Seq::<Cell>::empty());
        log
    }
}

impl Decomponentize for CellLog {
    type State = Seq<Cell>;

    open spec fn state(&self) -> Seq<Cell> {
        cells_of(self.cells@)
    }

    open spec fn accept(state: Seq<Cell>, cell: Cell) -> Seq<Cell> {
        state.push(cell)
    }

    fn apply_value(
        &mut self,
        component_id: ComponentId,
        entity_id: EntityId,
        value: ComponentView<'_>,
        timestamp: Option<Timestamp>,
    ) {
        let cell = OwnedCell::new(component_id, entity_id, value, timestamp);
        self.cells.push(cell);
        assert(cells_of(self.cells@) =~= cells_of(old(self).cells@).push(cell@));
    }
}

/// A log that was in `state` and has then accepted `cells` holds `state`
/// followed by `cells`.
pub proof fn lemma_deliver_to_log(state: Seq<Cell>, cells: Seq<Cell>)
    ensures
        deliver::<CellLog>(state, cells) == state + cells,
    decreases cells.len(),
{
    if cells.len() == 0 {
        assert(state + cells == state);
    } else {
        lemma_deliver_to_log(state, cells.drop_last());
        assert(state + cells == (state + cells.drop_last()).push(cells.last()));
    }
}

/// Any number of sinks of one type as one: every value goes to each, first
/// to last.
impl<S: Decomponentize> Decomponentize for Vec<S> {
    type State = Seq<S::State>;

    open spec fn state(&self) -> Seq<S::State> {
        Seq::new(self@.len(), |i: int| self@[i].state())
    }

    open spec fn accept(state: Seq<S::State>, cell: Cell) -> Seq<S::State> {
        Seq::new(state.len(), |i: int| S::accept(state[i], cell))
    }

    fn apply_value(
        &mut self,
        component_id: ComponentId,
        entity_id: EntityId,
        value: ComponentView<'_>,
        timestamp: Option<Timestamp>,
    ) {
        let ghost cell = Cell { component_id, entity_id, value: value@, timestamp };
        let n: usize = self.len();
        let mut i: usize = 0;
        while i < n
            invariant
                i <= n,
                n == self@.len(),
                n == old(self)@.len(),
                cell == (Cell { component_id, entity_id, value: value@, timestamp }),
                forall|j: int| 0 <= j < i ==> (#[trigger] self@[j]).state() == S::accept(old(self)@[j].state(), cell),
                forall|j: int| i <= j < n ==> (#[trigger] self@[j]).state() == old(self)@[j].state(),
            decreases n - i,
        {
            self[i].apply_value(component_id, entity_id, value, timestamp);
            i += 1;
        }
        assert(self.state() =~= Self::accept(old(self).state(), cell));
    }
}

/// A source of decoded values.
pub trait Componentize {
    /// A bound on the number of bytes that the values of one source of
    /// this type take; the greatest number there is where none is known.
    /// The bound of a tuple is the sum of the bounds of its members.
    const MAX_SIZE: usize = usize::MAX;

    /// The values that the source emits, in order.
    open spec fn cells(&self) -> Seq<Cell> {
        arbitrary()
    }

    /// Hands every value of the source to `output`, in order.
    fn sink_columns<D: Decomponentize>(&self, output: &mut D)
        ensures
            final(output).state() == deliver::<D>(old(output).state(), self.cells()),
    ;
}

/// The source that emits nothing.
impl Componentize for () {
    const MAX_SIZE: usize = 0;

    open spec fn cells(&self) -> Seq<Cell> {
        Seq::empty()
    }

    fn sink_columns<D: Decomponentize>(&self, output: &mut D) {
    }
}

impl<T1: Componentize> Componentize for (T1,) {
    const MAX_SIZE: usize = T1::MAX_SIZE;

    open spec fn cells(&self) -> Seq<Cell> {
        self.0.cells()
    }

    fn sink_columns<D: Decomponentize>(&self, output: &mut D) {
        self.0.sink_columns(output);
    }
}

/// Two sources as one: the values of the first, then those of the second.
impl<T1: Componentize, T2: Componentize> Componentize for (T1, T2) {
    const MAX_SIZE: usize = 0 + T1::MAX_SIZE + T2::MAX_SIZE;

    open spec fn cells(&self) -> Seq<Cell> {
        self.0.cells() + self.1.cells()
    }

    fn sink_columns<D: Decomponentize>(&self, output: &mut D) {
        self.0.sink_columns(output);
        self.1.sink_columns(output);
        proof {
            lemma_deliver_concat::<D>(old(output).state(), self.0.cells(), self.1.cells());
        }
    }
}

/// Three sources as one: the values of each, in order.
impl<T1: Componentize, T2: Componentize, T3: Componentize> Componentize for (T1, T2, T3) {
    const MAX_SIZE: usize = 0 + T1::MAX_SIZE + T2::MAX_SIZE + T3::MAX_SIZE;

    open spec fn cells(&self) -> Seq<Cell> {
        self.0.cells() + self.1.cells() + self.2.cells()
    }

    fn sink_columns<D: Decomponentize>(&self, output: &mut D) {
        self.0.sink_columns(output);
        self.1.sink_columns(output);
        self.2.sink_columns(output);
        proof {
            lemma_deliver_concat::<D>(old(output).state(), self.0.cells(), self.1.cells());
            lemma_deliver_concat::<D>(
                old(output).state(),
                self.0.cells() + self.1.cells(),
                self.2.cells(),
            );
        }
    }
}

impl OwnedData {
    /// A view of the elements with the dimensions `shape`.
    pub fn as_view<'a>(&'a self, shape: &'a [u64]) -> (view: ComponentView<'a>)
        ensures
            view@ == (ComponentValue { shape: shape@, data: self@ }),
    {
        match self {
            OwnedData::U8(v) => ComponentView::U8(ArrayView { buf: v.as_slice(), shape }),
            OwnedData::U16(v) => ComponentView::U16(ArrayView { buf: v.as_slice(), shape }),
            OwnedData::U32(v) => ComponentView::U32(ArrayView { buf: v.as_slice(), shape }),
            OwnedData::U64(v) => ComponentView::U64(ArrayView { buf: v.as_slice(), shape }),
            OwnedData::I8(v) => ComponentView::I8(ArrayView { buf: v.as_slice(), shape }),
            OwnedData::I16(v) => ComponentView::I16(ArrayView { buf: v.as_slice(), shape }),
            OwnedData::I32(v) => ComponentView::I32(ArrayView { buf: v.as_slice(), shape }),
            OwnedData::I64(v) => ComponentView::I64(ArrayView { buf: v.as_slice(), shape }),
            OwnedData::Bool(v) => ComponentView::Bool(ArrayView { buf: v.as_slice(), shape }),
            OwnedData::F32(v) => ComponentView::F32(ArrayView { buf: v.as_slice(), shape }),
            OwnedData::F64(v) => ComponentView::F64(ArrayView { buf: v.as_slice(), shape }),
        }
    }
}

/// A cell is a source of its one value.
impl Componentize for OwnedCell {
    open spec fn cells(&self) -> Seq<Cell> {
        seq![self@]
    }

    fn sink_columns<D: Decomponentize>(&self, output: &mut D) {
        output.apply_value(
            self.component_id,
            self.entity_id,
            self.data.as_view(self.shape.as_slice()),
            self.timestamp,
        );
        proof {
            lemma_deliver_push::<D>(old(output).state(), Seq::empty(), self@);
            assert(Seq::<Cell>::empty().push(self@) == seq![self@]);
        }
    }
}

/// A log is a source of the values it has kept, in the order of arrival.
impl Componentize for CellLog {
    open spec fn cells(&self) -> Seq<Cell> {
        cells_of(self.cells@)
    }

    fn sink_columns<D: Decomponentize>(&self, output: &mut D) {
        let ghost all = cells_of(self.cells@);
        let mut i: usize = 0;
        while i < self.cells.len()
            invariant
                i <= self.cells@.len(),
                all == cells_of(self.cells@),
                output.state() == deliver::<D>(old(output).state(), all.take(i as int)),
            decreases self.cells@.len() - i,
        {
            let cell = &self.cells[i];
            output.apply_value(
                cell.component_id,
                cell.entity_id,
                cell.data.as_view(cell.shape.as_slice()),
                cell.timestamp,
            );
            proof {
                lemma_deliver_push::<D>(old(output).state(), all.take(i as int), all[i as int]);
                assert(all.take(i + 1) == all.take(i as int).push(all[i as int]));
            }
            i += 1;
        }
        assert(all.take(self.cells@.len() as int) == all);
    }
}

/// `core::slice::from_ref`: the slice of length one that holds `value`.
#[verifier::external_body]
fn slice_from_ref<T>(value: &T) -> (s: &[T])
    ensures
        s@ == seq![*value],
{
    core::slice::from_ref(value)
}

/// The slice without elements.
fn no_dims<'a>() -> (shape: &'a [u64])
    ensures
        shape@ == Seq::<u64>::empty(),
{
    let shape: &[u64] = &[];
    assert(shape@ =~= Seq::<u64>::empty());
    shape
}

/// A value that can be read from a component view.
pub trait FromComponentView: Sized {
    /// The value that a view of `value` yields.
    open spec fn spec_from_component_view(value: ComponentValue) -> Result<Self, Error> {
        arbitrary()
    }

    /// Reads the value from `view`.
    fn from_component_view(view: ComponentView<'_>) -> (r: Result<Self, Error>)
        ensures
            r == Self::spec_from_component_view(view@),
    ;
}

/// A value that can be shown as a component view.
pub trait AsComponentView {
    /// What the view of `self` shows.
    open spec fn spec_as_component_view(&self) -> ComponentValue {
        arbitrary()
    }

    /// A view of `self`.
    fn as_component_view(&self) -> (view: ComponentView<'_>)
        ensures
            view@ == self.spec_as_component_view(),
    ;
}

/// A scalar is read from the first element of a view of its own type. A
/// view without elements gives [`Error::BufferUnderflow`], a view of
/// another type [`Error::InvalidComponentData`].
impl FromComponentView for u64 {
    open spec fn spec_from_component_view(value: ComponentValue) -> Result<u64, Error> {
        match value.data {
            ComponentData::U64(elems) => if elems.len() > 0 {
                Ok(elems[0])
            } else {
                Err(Error::BufferUnderflow)
            },
            _ => Err(Error::InvalidComponentData),
        }
    }

    fn from_component_view(view: ComponentView<'_>) -> (r: Result<u64, Error>) {
        match view {
            ComponentView::U64(array) => {
                let buf = array.buf;
                if buf.len() > 0 {
                    Ok(buf[0])
                } else {
                    Err(Error::BufferUnderflow)
                }
            },
            _ => Err(Error::InvalidComponentData),
        }
    }
}

/// A scalar is shown as an array without dimensions that holds it.
impl AsComponentView for u64 {
    open spec fn spec_as_component_view(&self) -> ComponentValue {
        ComponentValue { shape: Seq::empty(), data: ComponentData::U64(seq![*self]) }
    }

    fn as_component_view(&self) -> (view: ComponentView<'_>) {
        ComponentView::U64(ArrayView::from_buf_shape_unchecked(slice_from_ref(self), no_dims()))
    }
}

/// A scalar is read from the first element of a view of its own type. A
/// view without elements gives [`Error::BufferUnderflow`], a view of
/// another type [`Error::InvalidComponentData`].
impl FromComponentView for u32 {
    open spec fn spec_from_component_view(value: ComponentValue) -> Result<u32, Error> {
        match value.data {
            ComponentData::U32(elems) => if elems.len() > 0 {
                Ok(elems[0])
            } else {
                Err(Error::BufferUnderflow)
            },
            _ => Err(Error::InvalidComponentData),
        }
    }

    fn from_component_view(view: ComponentView<'_>) -> (r: Result<u32, Error>) {
        match view {
            ComponentView::U32(array) => {
                let buf = array.buf;
                if buf.len() > 0 {
                    Ok(buf[0])
                } else {
                    Err(Error::BufferUnderflow)
                }
            },
            _ => Err(Error::InvalidComponentData),
        }
    }
}

/// A scalar is shown as an array without dimensions that holds it.
impl AsComponentView for u32 {
    open spec fn spec_as_component_view(&self) -> ComponentValue {
        ComponentValue { shape: Seq::empty(), data: ComponentData::U32(seq![*self]) }
    }

    fn as_component_view(&self) -> (view: ComponentView<'_>) {
        ComponentView::U32(ArrayView::from_buf_shape_unchecked(slice_from_ref(self), no_dims()))
    }
}

/// A scalar is read from the first element of a view of its own type. A
/// view without elements gives [`Error::BufferUnderflow`], a view of
/// another type [`Error::InvalidComponentData`].
impl FromComponentView for u16 {
    open spec fn spec_from_component_view(value: ComponentValue) -> Result<u16, Error> {
        match value.data {
            ComponentData::U16(elems) => if elems.len() > 0 {
                Ok(elems[0])
            } else {
                Err(Error::BufferUnderflow)
            },
            _ => Err(Error::InvalidComponentData),
        }
    }

    fn from_component_view(view: ComponentView<'_>) -> (r: Result<u16, Error>) {
        match view {
            ComponentView::U16(array) => {
                let buf = array.buf;
                if buf.len() > 0 {
                    Ok(buf[0])
                } else {
                    Err(Error::BufferUnderflow)
                }
            },
            _ => Err(Error::InvalidComponentData),
        }
    }
}

/// A scalar is shown as an array without dimensions that holds it.
impl AsComponentView for u16 {
    open spec fn spec_as_component_view(&self) -> ComponentValue {
        ComponentValue { shape: Seq::empty(), data: ComponentData::U16(seq![*self]) }
    }

    fn as_component_view(&self) -> (view: ComponentView<'_>) {
        ComponentView::U16(ArrayView::from_buf_shape_unchecked(slice_from_ref(self), no_dims()))
    }
}

/// A scalar is read from the first element of a view of its own type. A
/// view without elements gives [`Error::BufferUnderflow`], a view of
/// another type [`Error::InvalidComponentData`].
impl FromComponentView for u8 {
    open spec fn spec_from_component_view(value: ComponentValue) -> Result<u8, Error> {
        match value.data {
            ComponentData::U8(elems) => if elems.len() > 0 {
                Ok(elems[0])
            } else {
                Err(Error::BufferUnderflow)
            },
            _ => Err(Error::InvalidComponentData),
        }
    }

    fn from_component_view(view: ComponentView<'_>) -> (r: Result<u8, Error>) {
        match view {
            ComponentView::U8(array) => {
                let buf = array.buf;
                if buf.len() > 0 {
                    Ok(buf[0])
                } else {
                    Err(Error::BufferUnderflow)
                }
            },
            _ => Err(Error::InvalidComponentData),
        }
    }
}

/// A scalar is shown as an array without dimensions that holds it.
impl AsComponentView for u8 {
    open spec fn spec_as_component_view(&self) -> ComponentValue {
        ComponentValue { shape: Seq::empty(), data: ComponentData::U8(seq![*self]) }
    }

    fn as_component_view(&self) -> (view: ComponentView<'_>) {
        ComponentView::U8(ArrayView::from_buf_shape_unchecked(slice_from_ref(self), no_dims()))
    }
}

/// A scalar is read from the first element of a view of its own type. A
/// view without elements gives [`Error::BufferUnderflow`], a view of
/// another type [`Error::InvalidComponentData`].
impl FromComponentView for i64 {
    open spec fn spec_from_component_view(value: ComponentValue) -> Result<i64, Error> {
        match value.data {
            ComponentData::I64(elems) => if elems.len() > 0 {
                Ok(elems[0])
            } else {
                Err(Error::BufferUnderflow)
            },
            _ => Err(Error::InvalidComponentData),
        }
    }

    fn from_component_view(view: ComponentView<'_>) -> (r: Result<i64, Error>) {
        match view {
            ComponentView::I64(array) => {
                let buf = array.buf;
                if buf.len() > 0 {
                    Ok(buf[0])
                } else {
                    Err(Error::BufferUnderflow)
                }
            },
            _ => Err(Error::InvalidComponentData),
        }
    }
}

/// A scalar is shown as an array without dimensions that holds it.
impl AsComponentView for i64 {
    open spec fn spec_as_component_view(&self) -> ComponentValue {
        ComponentValue { shape: Seq::empty(), data: ComponentData::I64(seq![*self]) }
    }

    fn as_component_view(&self) -> (view: ComponentView<'_>) {
        ComponentView::I64(ArrayView::from_buf_shape_unchecked(slice_from_ref(self), no_dims()))
    }
}

/// A scalar is read from the first element of a view of its own type. A
/// view without elements gives [`Error::BufferUnderflow`], a view of
/// another type [`Error::InvalidComponentData`].
impl FromComponentView for i32 {
    open spec fn spec_from_component_view(value: ComponentValue) -> Result<i32, Error> {
        match value.data {
            ComponentData::I32(elems) => if elems.len() > 0 {
                Ok(elems[0])
            } else {
                Err(Error::BufferUnderflow)
            },
            _ => Err(Error::InvalidComponentData),
        }
    }

    fn from_component_view(view: ComponentView<'_>) -> (r: Result<i32, Error>) {
        match view {
            ComponentView::I32(array) => {
                let buf = array.buf;
                if buf.len() > 0 {
                    Ok(buf[0])
                } else {
                    Err(Error::BufferUnderflow)
                }
            },
            _ => Err(Error::InvalidComponentData),
        }
    }
}

/// A scalar is shown as an array without dimensions that holds it.
impl AsComponentView for i32 {
    open spec fn spec_as_component_view(&self) -> ComponentValue {
        ComponentValue { shape: Seq::empty(), data: ComponentData::I32(seq![*self]) }
    }

    fn as_component_view(&self) -> (view: ComponentView<'_>) {
        ComponentView::I32(ArrayView::from_buf_shape_unchecked(slice_from_ref(self), no_dims()))
    }
}

/// A scalar is read from the first element of a view of its own type. A
/// view without elements gives [`Error::BufferUnderflow`], a view of
/// another type [`Error::InvalidComponentData`].
impl FromComponentView for i16 {
    open spec fn spec_from_component_view(value: ComponentValue) -> Result<i16, Error> {
        match value.data {
            ComponentData::I16(elems) => if elems.len() > 0 {
                Ok(elems[0])
            } else {
                Err(Error::BufferUnderflow)
            },
            _ => Err(Error::InvalidComponentData),
        }
    }

    fn from_component_view(view: ComponentView<'_>) -> (r: Result<i16, Error>) {
        match view {
            ComponentView::I16(array) => {
                let buf = array.buf;
                if buf.len() > 0 {
                    Ok(buf[0])
                } else {
                    Err(Error::BufferUnderflow)
                }
            },
            _ => Err(Error::InvalidComponentData),
        }
    }
}

/// A scalar is shown as an array without dimensions that holds it.
impl AsComponentView for i16 {
    open spec fn spec_as_component_view(&self) -> ComponentValue {
        ComponentValue { shape: Seq::empty(), data: ComponentData::I16(seq![*self]) }
    }

    fn as_component_view(&self) -> (view: ComponentView<'_>) {
        ComponentView::I16(ArrayView::from_buf_shape_unchecked(slice_from_ref(self), no_dims()))
    }
}

/// A scalar is read from the first element of a view of its own type. A
/// view without elements gives [`Error::BufferUnderflow`], a view of
/// another type [`Error::InvalidComponentData`].
impl FromComponentView for i8 {
    open spec fn spec_from_component_view(value: ComponentValue) -> Result<i8, Error> {
        match value.data {
            ComponentData::I8(elems) => if elems.len() > 0 {
                Ok(elems[0])
            } else {
                Err(Error::BufferUnderflow)
            },
            _ => Err(Error::InvalidComponentData),
        }
    }

    fn from_component_view(view: ComponentView<'_>) -> (r: Result<i8, Error>) {
        match view {
            ComponentView::I8(array) => {
                let buf = array.buf;
                if buf.len() > 0 {
                    Ok(buf[0])
                } else {
                    Err(Error::BufferUnderflow)
                }
            },
            _ => Err(Error::InvalidComponentData),
        }
    }
}

/// A scalar is shown as an array without dimensions that holds it.
impl AsComponentView for i8 {
    open spec fn spec_as_component_view(&self) -> ComponentValue {
        ComponentValue { shape: Seq::empty(), data: ComponentData::I8(seq![*self]) }
    }

    fn as_component_view(&self) -> (view: ComponentView<'_>) {
        ComponentView::I8(ArrayView::from_buf_shape_unchecked(slice_from_ref(self), no_dims()))
    }
}

/// A scalar is read from the first element of a view of its own type. A
/// view without elements gives [`Error::BufferUnderflow`], a view of
/// another type [`Error::InvalidComponentData`].
impl FromComponentView for bool {
    open spec fn spec_from_component_view(value: ComponentValue) -> Result<bool, Error> {
        match value.data {
            ComponentData::Bool(elems) => if elems.len() > 0 {
                Ok(elems[0])
            } else {
                Err(Error::BufferUnderflow)
            },
            _ => Err(Error::InvalidComponentData),
        }
    }

    fn from_component_view(view: ComponentView<'_>) -> (r: Result<bool, Error>) {
        match view {
            ComponentView::Bool(array) => {
                let buf = array.buf;
                if buf.len() > 0 {
                    Ok(buf[0])
                } else {
                    Err(Error::BufferUnderflow)
                }
            },
            _ => Err(Error::InvalidComponentData),
        }
    }
}

/// A scalar is shown as an array without dimensions that holds it.
impl AsComponentView for bool {
    open spec fn spec_as_component_view(&self) -> ComponentValue {
        ComponentValue { shape: Seq::empty(), data: ComponentData::Bool(seq![*self]) }
    }

    fn as_component_view(&self) -> (view: ComponentView<'_>) {
        ComponentView::Bool(ArrayView::from_buf_shape_unchecked(slice_from_ref(self), no_dims()))
    }
}

} // verus!
