//! The schema of a component: its id, the type of its elements and its
//! dimensions.

use vstd::prelude::*;
use crate::buf::Buf;
use crate::error::Error;
use crate::types::{ComponentId, PrimType};

verus! {

/// A number that can stand for a dimension.
pub trait DimElem: Copy {
    /// The dimension as a 64-bit number.
    open spec fn spec_into_u64(self) -> u64 {
        arbitrary()
    }

    /// The dimension as a 64-bit number.
    fn into_u64(self) -> (d: u64)
        ensures
            d == self.spec_into_u64(),
    ;
}

impl DimElem for u64 {
    open spec fn spec_into_u64(self) -> u64 {
        self
    }

    fn into_u64(self) -> (d: u64) {
        self
    }
}

impl DimElem for usize {
    open spec fn spec_into_u64(self) -> u64 {
        self as u64
    }

    fn into_u64(self) -> (d: u64) {
        self as u64
    }
}

impl<T: DimElem + Copy> DimElem for &T {
    open spec fn spec_into_u64(self) -> u64 {
        (*self).spec_into_u64()
    }

    fn into_u64(self) -> (d: u64) {
        (*self).into_u64()
    }
}

/// The dimensions that `shape` stands for.
pub open spec fn dims_of<T: DimElem>(shape: Seq<T>) -> Seq<u64> {
    Seq::new(shape.len(), |i: int| shape[i].spec_into_u64())
}

/// The schema of a component.
pub struct Schema<S: Buf<u64>> {
    component_id: ComponentId,
    prim_type: PrimType,
    shape: S,
}

/// What a [`Schema`] holds.
pub struct SchemaView {
    pub component_id: ComponentId,
    pub prim_type: PrimType,
    pub shape: Seq<u64>,
}

impl<S: Buf<u64>> View for Schema<S> {
    type V = SchemaView;

    closed spec fn view(&self) -> SchemaView {
        SchemaView {
            component_id: self.component_id,
            prim_type: self.prim_type,
            shape: self.shape.elems(),
        }
    }
}

impl<D: Buf<u64>> Schema<D> {
    /// The schema of the component `component_id` with elements of
    /// `prim_type` and the dimensions `shape`. Fails with
    /// [`Error::BufferOverflow`] exactly if the buffer type cannot hold that
    /// many dimensions.
    pub fn new<T: DimElem>(component_id: ComponentId, prim_type: PrimType, shape: &[T]) -> (r: Result<
        Self,
        Error,
    >)
        ensures
            match r {
                Ok(schema) => {
                    &&& shape@.len() <= D::limit()
                    &&& schema@ == (SchemaView { component_id, prim_type, shape: dims_of(shape@) })
                },
                Err(e) => e == Error::BufferOverflow && shape@.len() > D::limit(),
            },
    {
        let mut data = D::new();
        if shape.len() > data.spare() {
            return Err(Error::BufferOverflow);
        }
        let mut i: usize = 0;
        while i < shape.len()
            invariant
                i <= shape@.len(),
                shape@.len() <= D::limit(),
                data.elems() == dims_of(shape@.take(i as int)),
            decreases shape@.len() - i,
        {
            match data.push(shape[i].into_u64()) {
                Ok(()) => {},
                Err(e) => {
                    return Err(e);
                },
            }
            assert(dims_of(shape@.take(i + 1)) == dims_of(shape@.take(i as int)).push(
                shape@[i as int].spec_into_u64(),
            ));
            i += 1;
        }
        assert(shape@.take(shape@.len() as int) == shape@);
        Ok(Schema { component_id, shape: data, prim_type })
    }

    /// The id of the component.
    pub fn component_id(&self) -> (id: ComponentId)
        ensures
            id == self@.component_id,
    {
        self.component_id
    }

    /// The type of the elements.
    pub fn prim_type(&self) -> (prim_type: PrimType)
        ensures
            prim_type == self@.prim_type,
    {
        self.prim_type
    }

    /// The dimensions.
    pub fn shape(&self) -> (shape: &[u64])
        ensures
            shape@ == self@.shape,
    {
        self.shape.as_slice()
    }
}

} // verus!
