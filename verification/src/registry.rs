//! The descriptors a receiver knows, by the packet id under which their
//! tables arrive.

use vstd::prelude::*;
use crate::com_de::{Cell, Decomponentize};
use crate::error::Error;
use crate::table::{metadata_only, sink_outcome, Entry, VTable, VTableView};
use crate::types::PacketId;

verus! {

/// A packet id as a pair of bytes.
pub open spec fn key_of(id: PacketId) -> (u8, u8) {
    (id[0], id[1])
}

/// The index of the first of `ids` that equals `key`, if there is one.
pub open spec fn position(ids: Seq<PacketId>, key: (u8, u8)) -> Option<int>
    decreases ids.len(),
{
    if ids.len() == 0 {
        None
    } else {
        match position(ids.drop_last(), key) {
            Some(i) => Some(i),
            None => if key_of(ids.last()) == key {
                Some(ids.len() - 1)
            } else {
                None
            },
        }
    }
}

/// What `position` finds is a place of `key`, and it finds one if there is
/// one.
pub proof fn lemma_position(ids: Seq<PacketId>, key: (u8, u8))
    ensures
        match position(ids, key) {
            Some(i) => 0 <= i < ids.len() && key_of(ids[i]) == key,
            None => forall|i: int| 0 <= i < ids.len() ==> key_of(#[trigger] ids[i]) != key,
        },
    decreases ids.len(),
{
    if ids.len() > 0 {
        lemma_position(ids.drop_last(), key);
        if position(ids.drop_last(), key) is None && key_of(ids.last()) != key {
            assert forall|i: int| 0 <= i < ids.len() implies key_of(#[trigger] ids[i]) != key by {
                if i < ids.len() - 1 {
                    assert(ids.drop_last()[i] == ids[i]);
                }
            }
        }
    }
}

/// The descriptors a receiver has been sent, by packet id. A table can be
/// decoded only after the descriptor for its packet id has arrived.
pub struct VTableRegistry {
    known: Vec<(PacketId, VTable<Vec<Entry>, Vec<u8>>)>,
}

/// The packet ids of `known`, in order.
pub open spec fn ids_of(known: Seq<(PacketId, VTable<Vec<Entry>, Vec<u8>>)>) -> Seq<PacketId> {
    Seq::new(known.len(), |i: int| known[i].0)
}

impl VTableRegistry {
    /// The descriptor registered for `id`, if there is one.
    pub closed spec fn spec_get(&self, id: PacketId) -> Option<VTableView> {
        match position(ids_of(self.known@), key_of(id)) {
            Some(i) => Some(self.known@[i].1@),
            None => None,
        }
    }

    /// A registry without descriptors.
    pub fn new() -> (registry: Self)
        ensures
            forall|id: PacketId| registry.spec_get(id) is None,
    {
        let registry = VTableRegistry { known: Vec::new() };
        assert(ids_of(registry.known@) =~= Seq::<PacketId>::empty());
        registry
    }

    /// The place of `id` among the registered ids.
    fn find(&self, id: PacketId) -> (r: Option<usize>)
        ensures
            match r {
                Some(i) => position(ids_of(self.known@), key_of(id)) == Some(i as int) && i
                    < self.known@.len(),
                None => position(ids_of(self.known@), key_of(id)) is None,
            },
    {
        let ghost ids = ids_of(self.known@);
        let mut i: usize = 0;
        while i < self.known.len()
            invariant
                i <= self.known@.len(),
                ids == ids_of(self.known@),
                position(ids.take(i as int), key_of(id)) is None,
            decreases self.known@.len() - i,
        {
            let known = self.known[i].0;
            proof {
                assert(ids.take(i + 1).drop_last() == ids.take(i as int));
                assert(ids[i as int] == known);
            }
            if known[0] == id[0] && known[1] == id[1] {
                proof {
                    lemma_position_prefix(ids, key_of(id), i + 1);
                }
                return Some(i);
            }
            i += 1;
        }
        assert(ids.take(i as int) == ids);
        None
    }

    /// Registers `vtable` for `id`, in place of the descriptor that was
    /// registered for `id` before, if there was one.
    pub fn insert(&mut self, id: PacketId, vtable: VTable<Vec<Entry>, Vec<u8>>)
        ensures
            final(self).spec_get(id) == Some(vtable@),
            forall|other: PacketId|
                key_of(other) != key_of(id) ==> final(self).spec_get(other) == old(self).spec_get(
                    other,
                ),
    {
        let ghost before = ids_of(self.known@);
        match self.find(id) {
            Some(i) => {
                self.known[i] = (id, vtable);
                proof {
                    let after = ids_of(self.known@);
                    lemma_position(before, key_of(id));
                    assert forall|j: int| 0 <= j < after.len() implies key_of(#[trigger] after[j])
                        == key_of(before[j]) by {}
                    lemma_position_same_keys(before, after, key_of(id));
                    assert forall|other: PacketId| key_of(other) != key_of(id) implies final(self).spec_get(
                        other,
                    ) == old(self).spec_get(other) by {
                        lemma_position_same_keys(before, after, key_of(other));
                        lemma_position(before, key_of(other));
                    }
                }
            },
            None => {
                self.known.push((id, vtable));
                proof {
                    let after = ids_of(self.known@);
                    assert(after.drop_last() =~= before);
                    assert forall|other: PacketId| key_of(other) != key_of(id) implies final(self).spec_get(
                        other,
                    ) == old(self).spec_get(other) by {
                        lemma_position(before, key_of(other));
                    }
                }
            },
        }
    }

    /// The descriptor registered for `id`, if there is one.
    pub fn get(&self, id: PacketId) -> (r: Option<&VTable<Vec<Entry>, Vec<u8>>>)
        ensures
            match r {
                Some(vtable) => self.spec_get(id) == Some(vtable@),
                None => self.spec_get(id) is None,
            },
    {
        match self.find(id) {
            Some(i) => Some(&self.known[i].1),
            None => None,
        }
    }

    /// Decodes the table `table` that arrived under `id` and hands its
    /// values to `sink`.
    ///
    /// If no descriptor is registered for `id`, the call fails with
    /// [`Error::VTableNotFound`] and the sink accepts nothing; no other
    /// failure gives that error.
    pub fn parse_table<S: Decomponentize>(&self, id: PacketId, table: &[u8], sink: &mut S) -> (r: Result<
        (),
        Error,
    >)
        ensures
            match self.spec_get(id) {
                Some(vtable) => {
                    &&& sink_outcome::<S>(
                        old(sink).state(),
                        final(sink).state(),
                        vtable.spec_parse_table(table@),
                        r,
                    )
                    &&& r != Err::<(), Error>(Error::VTableNotFound)
                    &&& r == Err::<(), Error>(Error::Alignment) ==> exists|i: int|
                        0 <= i < vtable.entries.len() && (#[trigger] vtable.entries[i]).reaches_cast(
                            vtable.data,
                        )
                    &&& metadata_only(vtable.entries) ==> r is Ok && final(sink).state() == old(sink).state()
                },
                None => r == Err::<(), Error>(Error::VTableNotFound) && final(sink).state() == old(sink).state(),
            },
    {
        match self.get(id) {
            Some(vtable) => {
                proof {
                    crate::table::lemma_decode_never_not_found(
                        vtable@.entries,
                        vtable@.data,
                        table@,
                        vtable@.entries.len(),
                    );
                }
                vtable.parse_table(table, sink)
            },
            None => Err(Error::VTableNotFound),
        }
    }
}

/// Sequences of ids with the same keys at the same places have `key` at
/// the same place.
pub proof fn lemma_position_same_keys(a: Seq<PacketId>, b: Seq<PacketId>, key: (u8, u8))
    requires
        a.len() == b.len(),
        forall|j: int| 0 <= j < a.len() ==> key_of(#[trigger] b[j]) == key_of(a[j]),
    ensures
        position(a, key) == position(b, key),
    decreases a.len(),
{
    if a.len() > 0 {
        assert forall|j: int| 0 <= j < a.drop_last().len() implies key_of(#[trigger] b.drop_last()[j])
            == key_of(a.drop_last()[j]) by {
            assert(b.drop_last()[j] == b[j]);
            assert(a.drop_last()[j] == a[j]);
        }
        lemma_position_same_keys(a.drop_last(), b.drop_last(), key);
        assert(key_of(b[b.len() - 1]) == key_of(a[a.len() - 1]));
    }
}

/// A place found in a prefix of the ids is the place found in all of them.
pub proof fn lemma_position_prefix(ids: Seq<PacketId>, key: (u8, u8), k: int)
    requires
        0 <= k <= ids.len(),
        position(ids.take(k), key) is Some,
    ensures
        position(ids, key) == position(ids.take(k), key),
    decreases ids.len() - k,
{
    if k < ids.len() {
        assert(ids.take(k + 1).drop_last() == ids.take(k));
        lemma_position_prefix(ids, key, k + 1);
    } else {
        assert(ids.take(k) == ids);
    }
}

} // verus!
