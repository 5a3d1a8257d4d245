//! A time series: an index log of timestamps and a data log of elements,
//! appended to together and searched by timestamp.

use vstd::prelude::*;
use vstd::slice::{slice_subrange, slice_to_vec};
use core::ops::Range;
use crate::append_log::{AppendLog, AppendLogWriter};
use crate::cast::{read_i64, Element};
use crate::error::StoreError;
use crate::types::Timestamp;

verus! {

/// The timestamps that the bytes of an index log hold, eight bytes each in
/// little-endian order.
pub open spec fn timestamps_of(index: Seq<u8>) -> Seq<Timestamp> {
    Seq::new(
        index.len() / 8,
        |i: int| Timestamp(<i64 as Element>::decode(index.subrange(8 * i, 8 * i + 8))),
    )
}

/// Whether `ts` never decreases.
pub open spec fn sorted(ts: Seq<Timestamp>) -> bool {
    forall|i: int, j: int| 0 <= i <= j < ts.len() ==> ts[i].0 <= ts[j].0
}

/// The number of timestamps of `ts` that lie before `t`: the index at which
/// `t` would be inserted in front of its equals.
pub open spec fn lower_bound(ts: Seq<Timestamp>, t: Timestamp) -> nat
    decreases ts.len(),
{
    if ts.len() == 0 {
        0
    } else if ts.last().0 < t.0 {
        ts.len()
    } else {
        lower_bound(ts.drop_last(), t)
    }
}

/// The number of timestamps of `ts` that do not lie after `t`: one more
/// than the index of the last entry at or before `t`.
pub open spec fn upper_bound(ts: Seq<Timestamp>, t: Timestamp) -> nat
    decreases ts.len(),
{
    if ts.len() == 0 {
        0
    } else if ts.last().0 <= t.0 {
        ts.len()
    } else {
        upper_bound(ts.drop_last(), t)
    }
}

/// The index of the last entry at or before `t`, or of the first entry if
/// `t` lies before all of them.
pub open spec fn floor_index(ts: Seq<Timestamp>, t: Timestamp) -> nat {
    if upper_bound(ts, t) == 0 {
        0
    } else {
        (upper_bound(ts, t) - 1) as nat
    }
}

/// In a sorted sequence the lower bound of `t` is the one index that has
/// only earlier timestamps before it and none from it on.
pub proof fn lemma_lower_bound(ts: Seq<Timestamp>, t: Timestamp, k: int)
    requires
        sorted(ts),
        0 <= k <= ts.len(),
        forall|i: int| 0 <= i < k ==> ts[i].0 < t.0,
        forall|i: int| k <= i < ts.len() ==> ts[i].0 >= t.0,
    ensures
        lower_bound(ts, t) == k,
    decreases ts.len(),
{
    if ts.len() > 0 {
        if ts.last().0 < t.0 {
        } else {
            let front = ts.drop_last();
            assert(sorted(front)) by {
                assert forall|i: int, j: int| 0 <= i <= j < front.len() implies front[i].0 <= front[j].0 by {
                    assert(ts[i].0 <= ts[j].0);
                }
            }
            assert(k < ts.len()) by {
                if k == ts.len() {
                    assert(ts[ts.len() - 1].0 < t.0);
                }
            }
            lemma_lower_bound(front, t, k);
        }
    }
}

/// In a sorted sequence the upper bound of `t` is the one index that has
/// no later timestamps before it and only later ones from it on.
pub proof fn lemma_upper_bound(ts: Seq<Timestamp>, t: Timestamp, k: int)
    requires
        sorted(ts),
        0 <= k <= ts.len(),
        forall|i: int| 0 <= i < k ==> ts[i].0 <= t.0,
        forall|i: int| k <= i < ts.len() ==> ts[i].0 > t.0,
    ensures
        upper_bound(ts, t) == k,
    decreases ts.len(),
{
    if ts.len() > 0 {
        if ts.last().0 <= t.0 {
        } else {
            let front = ts.drop_last();
            assert(sorted(front)) by {
                assert forall|i: int, j: int| 0 <= i <= j < front.len() implies front[i].0 <= front[j].0 by {
                    assert(ts[i].0 <= ts[j].0);
                }
            }
            assert(k < ts.len()) by {
                if k == ts.len() {
                    assert(ts[ts.len() - 1].0 <= t.0);
                }
            }
            lemma_upper_bound(front, t, k);
        }
    }
}

/// What the bounds say of a sorted sequence: every entry before the lower
/// bound lies before `t`, every entry from it on does not; every entry
/// before the upper bound does not lie after `t`, every entry from it on
/// does.
pub proof fn lemma_bounds(ts: Seq<Timestamp>, t: Timestamp)
    requires
        sorted(ts),
    ensures
        lower_bound(ts, t) <= upper_bound(ts, t) <= ts.len(),
        forall|i: int| 0 <= i < lower_bound(ts, t) ==> ts[i].0 < t.0,
        forall|i: int| lower_bound(ts, t) <= i < ts.len() ==> ts[i].0 >= t.0,
        forall|i: int| 0 <= i < upper_bound(ts, t) ==> ts[i].0 <= t.0,
        forall|i: int| upper_bound(ts, t) <= i < ts.len() ==> ts[i].0 > t.0,
    decreases ts.len(),
{
    if ts.len() > 0 {
        let front = ts.drop_last();
        assert(sorted(front)) by {
            assert forall|i: int, j: int| 0 <= i <= j < front.len() implies front[i].0 <= front[j].0 by {
                assert(ts[i].0 <= ts[j].0);
            }
        }
        lemma_bounds(front, t);
        assert forall|i: int| 0 <= i < ts.len() implies ts[i].0 <= ts.last().0 by {
            assert(ts[i].0 <= ts[ts.len() - 1].0);
        }
        assert forall|i: int| 0 <= i < front.len() implies front[i] == ts[i] by {}
    }
}

/// Wakes those who wait for a push, all at once. It counts the wake-ups:
/// whoever remembers the count can tell later whether one has happened.
pub struct WaitQueue {
    generation: u64,
}

/// The memory of a [`WaitQueue`]'s count at one moment.
#[derive(Clone, Copy, Debug, PartialEq, Eq)]
pub struct Waiter {
    seen: u64,
}

impl WaitQueue {
    /// The number of wake-ups so far, modulo 2^64.
    pub closed spec fn spec_generation(&self) -> u64 {
        self.generation
    }

    /// A queue on which nobody was woken yet.
    pub fn new() -> (queue: Self)
        ensures
            queue.spec_generation() == 0,
    {
        WaitQueue { generation: 0 }
    }

    /// The number of wake-ups so far, modulo 2^64.
    #[verifier::when_used_as_spec(spec_generation)]
    pub fn generation(&self) -> (g: u64)
        ensures
            g == self.spec_generation(),
    {
        self.generation
    }

    /// Wakes everyone who waits.
    pub fn wake_all(&mut self)
        ensures
            final(self).spec_generation() == old(self).spec_generation().wrapping_add(1),
    {
        self.generation = self.generation.wrapping_add(1);
    }

    /// Remembers the present count.
    pub fn waiter(&self) -> (waiter: Waiter)
        ensures
            waiter.spec_seen() == self.spec_generation(),
    {
        Waiter { seen: self.generation }
    }
}

impl Waiter {
    /// The count that was remembered.
    pub closed spec fn spec_seen(&self) -> u64 {
        self.seen
    }

    /// Whether `queue` has woken its waiters since this waiter was made.
    pub fn is_woken(&self, queue: &WaitQueue) -> (woken: bool)
        ensures
            woken == (queue.spec_generation() != self.spec_seen()),
    {
        queue.generation != self.seen
    }
}

/// What a time series holds.
pub struct SeriesView {
    /// The header value of the index log.
    pub start_timestamp: Timestamp,
    /// The header value of the data log: the size of one element in bytes.
    pub element_size: u64,
    /// The committed timestamps, in the order in which they were pushed.
    pub timestamps: Seq<Timestamp>,
    /// The committed bytes of the data log.
    pub data: Seq<u8>,
    /// The number of wake-ups so far, modulo 2^64.
    pub generation: u64,
}

impl SeriesView {
    /// The `i`-th element of the data log, if the log holds all of it.
    pub open spec fn element(self, i: int) -> Option<Seq<u8>> {
        if 0 <= i && (i + 1) * self.element_size <= self.data.len() {
            Some(self.data.subrange(i * self.element_size, (i + 1) * self.element_size))
        } else {
            None
        }
    }

    /// Whether the two logs hold the same number of entries: one element of
    /// `element_size` bytes for each timestamp.
    pub open spec fn correlated(self) -> bool {
        self.data.len() == self.timestamps.len() * self.element_size
    }

    /// The element of the last entry whose timestamp is `t`.
    pub open spec fn spec_get(self, t: Timestamp) -> Option<Seq<u8>> {
        let u = upper_bound(self.timestamps, t);
        if u > 0 && self.timestamps[u - 1] == t {
            self.element(u - 1)
        } else {
            None
        }
    }

    /// The last entry at or before `t`, or the first entry if `t` lies
    /// before all of them.
    pub open spec fn spec_get_nearest(self, t: Timestamp) -> Option<(Timestamp, Seq<u8>)> {
        if self.timestamps.len() == 0 {
            None
        } else {
            let i = floor_index(self.timestamps, t) as int;
            match self.element(i) {
                Some(bytes) => Some((self.timestamps[i], bytes)),
                None => None,
            }
        }
    }

    /// The entries whose timestamps lie from `start` up to and including
    /// `end`: their timestamps and their elements, in stored order. Nothing
    /// if no entry lies at or before `end`, if an entry lies between `end`
    /// and `start`, or if the data log does not hold the elements.
    pub open spec fn spec_get_range(self, start: Timestamp, end: Timestamp) -> Option<
        (Seq<Timestamp>, Seq<u8>),
    > {
        let s = lower_bound(self.timestamps, start) as int;
        let u = upper_bound(self.timestamps, end) as int;
        if u == 0 || s > u || u * self.element_size > self.data.len() {
            None
        } else {
            Some(
                (
                    self.timestamps.subrange(s, u),
                    self.data.subrange(s * self.element_size, u * self.element_size),
                ),
            )
        }
    }

    /// The entry that was pushed last.
    pub open spec fn spec_latest(self) -> Option<(Timestamp, Seq<u8>)> {
        if self.timestamps.len() == 0 {
            None
        } else {
            match self.element(self.timestamps.len() - 1) {
                Some(bytes) => Some((self.timestamps.last(), bytes)),
                None => None,
            }
        }
    }

    /// Whether a push of `t` would travel back in time: `t` lies before
    /// the last committed timestamp.
    pub open spec fn time_travel(self, t: Timestamp) -> bool {
        self.timestamps.len() > 0 && t.0 < self.timestamps.last().0
    }

    /// Whether the logs cannot grow by one timestamp and `len` bytes of
    /// data.
    pub open spec fn overflows(self, len: nat) -> bool {
        8 * self.timestamps.len() + 8 > usize::MAX || self.data.len() + len > usize::MAX
    }

    /// What a push of `t` and `bytes` does: it is refused if it would
    /// travel back in time, else if the logs cannot grow; otherwise the
    /// entry is appended and the waiters are woken.
    pub open spec fn spec_push(self, t: Timestamp, bytes: Seq<u8>) -> Result<SeriesView, StoreError> {
        if self.time_travel(t) {
            Err(StoreError::TimeTravel)
        } else if self.overflows(bytes.len()) {
            Err(StoreError::LogOverflow)
        } else {
            Ok(self.pushed(t, bytes))
        }
    }

    /// The series after `t` and `bytes` have been pushed and the waiters
    /// woken.
    pub open spec fn pushed(self, t: Timestamp, bytes: Seq<u8>) -> SeriesView {
        SeriesView {
            start_timestamp: self.start_timestamp,
            element_size: self.element_size,
            timestamps: self.timestamps.push(t),
            data: self.data + bytes,
            generation: self.generation.wrapping_add(1),
        }
    }
}

/// One more timestamp at the end of an index log is one more timestamp read
/// from it.
pub proof fn lemma_timestamps_push(index: Seq<u8>, t: Timestamp)
    requires
        index.len() % 8 == 0,
    ensures
        timestamps_of(index + t.0.encode()) == timestamps_of(index).push(t),
{
    <i64 as Element>::lemma_round_trip(t.0);
    let longer = index + t.0.encode();
    let n = index.len() / 8;
    assert(longer.len() / 8 == n + 1);
    assert forall|i: int| 0 <= i < n + 1 implies timestamps_of(longer)[i] == timestamps_of(index).push(
        t,
    )[i] by {
        if i < n {
            assert(longer.subrange(8 * i, 8 * i + 8) =~= index.subrange(8 * i, 8 * i + 8));
        } else {
            assert(longer.subrange(8 * i, 8 * i + 8) =~= t.0.encode());
        }
    }
    assert(timestamps_of(longer) =~= timestamps_of(index).push(t));
}

/// The reading side of a time series: a view of the two logs that the
/// writer lends out.
#[derive(Clone, Copy)]
pub struct TimeSeries<'a> {
    index: &'a AppendLog<Timestamp>,
    data: &'a AppendLog<u64>,
    data_waker: &'a WaitQueue,
}

/// The writing side of a time series. There is one writer for a series; it
/// owns both logs.
pub struct TimeSeriesWriter {
    index_writer: AppendLogWriter<Timestamp>,
    data_writer: AppendLogWriter<u64>,
    data_waker: WaitQueue,
}

impl<'a> View for TimeSeries<'a> {
    type V = SeriesView;

    closed spec fn view(&self) -> SeriesView {
        SeriesView {
            start_timestamp: self.index@.extra,
            element_size: self.data@.extra,
            timestamps: timestamps_of(self.index@.committed),
            data: self.data@.committed,
            generation: self.data_waker.spec_generation(),
        }
    }
}

impl View for TimeSeriesWriter {
    type V = SeriesView;

    closed spec fn view(&self) -> SeriesView {
        SeriesView {
            start_timestamp: self.index_writer@.log.extra,
            element_size: self.data_writer@.log.extra,
            timestamps: timestamps_of(self.index_writer@.log.committed),
            data: self.data_writer@.log.committed,
            generation: self.data_waker.spec_generation(),
        }
    }
}

impl<'a> TimeSeries<'a> {
    /// Whether the index log holds whole timestamps that never decrease.
    pub closed spec fn wf(&self) -> bool {
        &&& self.index@.committed.len() % 8 == 0
        &&& sorted(timestamps_of(self.index@.committed))
    }

    /// The timestamps of a series never decrease.
    pub proof fn lemma_sorted(&self)
        requires
            self.wf(),
        ensures
            sorted(self@.timestamps),
    {
    }

    /// The writer of a new, empty series whose index log has the header
    /// `start_timestamp` and whose data log has the header `element_size`.
    pub fn create(start_timestamp: Timestamp, element_size: u64) -> (writer: TimeSeriesWriter)
        ensures
            writer.wf(),
            writer@ == (SeriesView {
                start_timestamp,
                element_size,
                timestamps: Seq::empty(),
                data: Seq::empty(),
                generation: 0,
            }),
    {
        let writer = TimeSeriesWriter {
            index_writer: AppendLog::create(start_timestamp),
            data_writer: AppendLog::create(element_size),
            data_waker: WaitQueue::new(),
        };
        assert(writer@.timestamps =~= Seq::<Timestamp>::empty());
        writer
    }

    /// The header value of the index log.
    pub fn start_timestamp(&self) -> (t: Timestamp)
        ensures
            t == self@.start_timestamp,
    {
        *self.index.extra()
    }

    /// The size of one element in bytes: the header value of the data log.
    pub fn element_size(&self) -> (n: u64)
        ensures
            n == self@.element_size,
    {
        *self.data.extra()
    }

    /// The number of entries.
    pub fn len(&self) -> (n: usize)
        requires
            self.wf(),
        ensures
            n == self@.timestamps.len(),
    {
        self.index.len() / 8
    }

    /// The timestamp of the `i`-th entry.
    pub fn timestamp_at(&self, i: usize) -> (t: Timestamp)
        requires
            self.wf(),
            i < self@.timestamps.len(),
        ensures
            t == self@.timestamps[i as int],
    {
        let bytes = self.index.as_slice();
        let len: usize = bytes.len();
        assert(8 * i + 8 <= len);
        match read_i64(slice_subrange(bytes, 8 * i, 8 * i + 8)) {
            Ok(t) => Timestamp(t),
            Err(_) => Timestamp(0),
        }
    }

    /// The timestamps of all entries, in the order in which they were
    /// pushed.
    pub fn timestamps(&self) -> (ts: Vec<Timestamp>)
        requires
            self.wf(),
        ensures
            ts@ == self@.timestamps,
    {
        let len: usize = self.len();
        let mut ts: Vec<Timestamp> = Vec::new();
        let mut i: usize = 0;
        while i < len
            invariant
                self.wf(),
                i <= len,
                len == self@.timestamps.len(),
                ts@ == self@.timestamps.take(i as int),
            decreases len - i,
        {
            ts.push(self.timestamp_at(i));
            assert(self@.timestamps.take(i + 1) == self@.timestamps.take(i as int).push(
                self@.timestamps[i as int],
            ));
            i += 1;
        }
        assert(self@.timestamps.take(len as int) == self@.timestamps);
        ts
    }

    /// The bytes of the entries `from` up to `to`, if the data log holds
    /// all of them.
    fn elements(&self, from: usize, to: usize) -> (r: Option<&'a [u8]>)
        requires
            from <= to,
        ensures
            match r {
                Some(bytes) => {
                    &&& to * self@.element_size <= self@.data.len()
                    &&& bytes@ == self@.data.subrange(
                        from * self@.element_size,
                        to * self@.element_size,
                    )
                },
                None => to * self@.element_size > self@.data.len(),
            },
    {
        let size: u64 = *self.data.extra();
        let len: usize = self.data.len();
        if to == 0 {
            assert(self@.data.subrange(0, 0) =~= Seq::<u8>::empty());
            return self.data.get(0..0);
        }
        if size > usize::MAX as u64 {
            assert(to * size > len) by (nonlinear_arith)
                requires
                    to >= 1,
                    size > usize::MAX,
                    len <= usize::MAX,
            ;
            return None;
        }
        let size: usize = size as usize;
        match to.checked_mul(size) {
            Some(end) => {
                assert(from * size <= to * size) by (nonlinear_arith)
                    requires
                        from <= to,
                        size >= 0,
                ;
                self.data.get(from * size..end)
            },
            None => None,
        }
    }

    /// The number of entries that do not lie after `t`.
    fn upper(&self, t: Timestamp) -> (k: usize)
        requires
            self.wf(),
        ensures
            k == upper_bound(self@.timestamps, t),
            k <= self@.timestamps.len(),
    {
        let mut lo: usize = 0;
        let mut hi: usize = self.len();
        while lo < hi
            invariant
                self.wf(),
                lo <= hi <= self@.timestamps.len(),
                forall|i: int| 0 <= i < lo ==> self@.timestamps[i].0 <= t.0,
                forall|i: int| hi <= i < self@.timestamps.len() ==> self@.timestamps[i].0 > t.0,
            decreases hi - lo,
        {
            let mid: usize = lo + (hi - lo) / 2;
            if self.timestamp_at(mid).0 <= t.0 {
                lo = mid + 1;
            } else {
                hi = mid;
            }
        }
        proof {
            lemma_upper_bound(self@.timestamps, t, lo as int);
        }
        lo
    }

    /// The number of entries that lie before `t`.
    fn lower(&self, t: Timestamp) -> (k: usize)
        requires
            self.wf(),
        ensures
            k == lower_bound(self@.timestamps, t),
            k <= self@.timestamps.len(),
    {
        let mut lo: usize = 0;
        let mut hi: usize = self.len();
        while lo < hi
            invariant
                self.wf(),
                lo <= hi <= self@.timestamps.len(),
                forall|i: int| 0 <= i < lo ==> self@.timestamps[i].0 < t.0,
                forall|i: int| hi <= i < self@.timestamps.len() ==> self@.timestamps[i].0 >= t.0,
            decreases hi - lo,
        {
            let mid: usize = lo + (hi - lo) / 2;
            if self.timestamp_at(mid).0 < t.0 {
                lo = mid + 1;
            } else {
                hi = mid;
            }
        }
        proof {
            lemma_lower_bound(self@.timestamps, t, lo as int);
        }
        lo
    }

    /// The element that was pushed with exactly `timestamp`, found by
    /// binary search; if several entries have that timestamp, the last of
    /// them. Nothing if there is no such entry.
    pub fn get(&self, timestamp: Timestamp) -> (r: Option<&'a [u8]>)
        requires
            self.wf(),
        ensures
            match r {
                Some(bytes) => self@.spec_get(timestamp) == Some(bytes@),
                None => self@.spec_get(timestamp) is None,
            },
    {
        let upper: usize = self.upper(timestamp);
        if upper == 0 {
            return None;
        }
        if self.timestamp_at(upper - 1).0 != timestamp.0 {
            return None;
        }
        self.elements(upper - 1, upper)
    }

    /// The entry at or immediately before `timestamp`, found by binary
    /// search; the first entry if `timestamp` lies before all of them.
    /// Nothing if the series is empty.
    pub fn get_nearest(&self, timestamp: Timestamp) -> (r: Option<(Timestamp, &'a [u8])>)
        requires
            self.wf(),
        ensures
            match r {
                Some((t, bytes)) => self@.spec_get_nearest(timestamp) == Some((t, bytes@)),
                None => self@.spec_get_nearest(timestamp) is None,
            },
    {
        if self.len() == 0 {
            return None;
        }
        let upper: usize = self.upper(timestamp);
        let index: usize = upper.saturating_sub(1);
        let found = self.timestamp_at(index);
        match self.elements(index, index + 1) {
            Some(bytes) => Some((found, bytes)),
            None => None,
        }
    }

    /// The entries whose timestamps lie from `range.start` up to and
    /// including `range.end`: their timestamps, and their elements as one
    /// block, both found by binary search. Nothing if no entry lies at or
    /// before `range.end`, if the range is inverted around an entry, or if
    /// the data log does not hold the elements.
    pub fn get_range(&self, range: Range<Timestamp>) -> (r: Option<(Vec<Timestamp>, &'a [u8])>)
        requires
            self.wf(),
        ensures
            match r {
                Some((ts, bytes)) => self@.spec_get_range(range.start, range.end) == Some(
                    (ts@, bytes@),
                ),
                None => self@.spec_get_range(range.start, range.end) is None,
            },
    {
        let start_index: usize = self.lower(range.start);
        let end: usize = self.upper(range.end);
        if end == 0 || start_index > end {
            return None;
        }
        let bytes = match self.elements(start_index, end) {
            Some(bytes) => bytes,
            None => {
                return None;
            },
        };
        let mut timestamps: Vec<Timestamp> = Vec::new();
        let mut i: usize = start_index;
        while i < end
            invariant
                self.wf(),
                start_index <= i <= end <= self@.timestamps.len(),
                timestamps@ == self@.timestamps.subrange(start_index as int, i as int),
            decreases end - i,
        {
            timestamps.push(self.timestamp_at(i));
            assert(self@.timestamps.subrange(start_index as int, i + 1) == self@.timestamps.subrange(
                start_index as int,
                i as int,
            ).push(self@.timestamps[i as int]));
            i += 1;
        }
        Some((timestamps, bytes))
    }

    /// The entry that was pushed last, if there is one.
    pub fn latest(&self) -> (r: Option<(Timestamp, &'a [u8])>)
        requires
            self.wf(),
        ensures
            match r {
                Some((t, bytes)) => self@.spec_latest() == Some((t, bytes@)),
                None => self@.spec_latest() is None,
            },
    {
        let len: usize = self.len();
        if len == 0 {
            return None;
        }
        let last = self.timestamp_at(len - 1);
        match self.elements(len - 1, len) {
            Some(bytes) => Some((last, bytes)),
            None => None,
        }
    }

    /// A waiter that the next push wakes.
    pub fn waiter(&self) -> (waiter: Waiter)
        ensures
            waiter.spec_seen() == self@.generation,
    {
        self.data_waker.waiter()
    }

    /// Whether a push has happened since `waiter` was made.
    pub fn is_woken(&self, waiter: &Waiter) -> (woken: bool)
        ensures
            woken == (self@.generation != waiter.spec_seen()),
    {
        waiter.is_woken(self.data_waker)
    }
}

impl TimeSeriesWriter {
    /// Whether the index log holds whole timestamps that never decrease,
    /// and nothing is reserved behind the end of either log: between two
    /// pushes a writer holds committed bytes only.
    pub closed spec fn wf(&self) -> bool {
        &&& self.index_writer@.log.committed.len() % 8 == 0
        &&& sorted(timestamps_of(self.index_writer@.log.committed))
        &&& self.reserved() == (Seq::<u8>::empty(), Seq::<u8>::empty())
    }

    /// The bytes that are reserved and not committed, of the index log and
    /// of the data log. The view of the writer does not show them: readers
    /// never see them.
    pub closed spec fn reserved(&self) -> (Seq<u8>, Seq<u8>) {
        (self.index_writer@.head, self.data_writer@.head)
    }

    /// The timestamps of a series never decrease, and its writer has
    /// nothing reserved: what the view shows is all that the writer holds.
    pub proof fn lemma_wf(&self)
        requires
            self.wf(),
        ensures
            sorted(self@.timestamps),
            self.reserved() == (Seq::<u8>::empty(), Seq::<u8>::empty()),
    {
    }

    /// The series as readers see it.
    pub fn series(&self) -> (series: TimeSeries<'_>)
        requires
            self.wf(),
        ensures
            series.wf(),
            series@ == self@,
    {
        TimeSeries {
            index: self.index_writer.inner(),
            data: self.data_writer.inner(),
            data_waker: &self.data_waker,
        }
    }

    /// Appends one entry: `buf` to the data log, then `timestamp` to the
    /// index log, then wakes the waiters.
    ///
    /// A timestamp before the last committed one is refused with
    /// [`StoreError::TimeTravel`], logs that cannot grow with
    /// [`StoreError::LogOverflow`]; a refused push changes nothing. The
    /// index entry is committed only after the element is, so whoever sees
    /// `n` timestamps finds `n` elements.
    #[verifier::rlimit(30)]
    pub fn push_with_buf(&mut self, timestamp: Timestamp, buf: &[u8]) -> (r: Result<(), StoreError>)
        requires
            old(self).wf(),
        ensures
            final(self).wf(),
            final(self).reserved() == old(self).reserved(),
            match old(self)@.spec_push(timestamp, buf@) {
                Ok(after) => r is Ok && final(self)@ == after,
                Err(e) => r == Err::<(), StoreError>(e) && final(self)@ == old(self)@,
            },
            r is Ok && old(self)@.correlated() && buf@.len() == old(self)@.element_size
                ==> final(self)@.correlated(),
    {
        let ghost before = self@;
        let ghost index_before = self.index_writer@.log.committed;
        let index = self.index_writer.inner().as_slice();
        let index_len: usize = index.len();
        let ghost len = timestamps_of(index_before).len();
        if index_len >= 8 {
            let last = vstd::bytes::u64_from_le_bytes(slice_subrange(index, index_len - 8, index_len));
            let last_timestamp = Timestamp(#[verifier::truncate] (last as i64));
            assert(last_timestamp == timestamps_of(index_before)[len - 1]) by {
                assert(index_before.subrange(8 * (len - 1), 8 * (len - 1) + 8) =~= index@.subrange(
                    index_len - 8,
                    index_len as int,
                ));
            }
            if last_timestamp.0 > timestamp.0 {
                return Err(StoreError::TimeTravel);
            }
        }
        if self.index_writer.inner().len() > usize::MAX - 8 || buf.len() > usize::MAX
            - self.data_writer.inner().len() {
            return Err(StoreError::LogOverflow);
        }
        // the element first
        match self.data_writer.write(buf) {
            Ok(()) => {},
            Err(e) => {
                return Err(e);
            },
        }
        // the index entry last, so that readers never find a timestamp
        // without its element
        let word = vstd::bytes::u64_to_le_bytes(#[verifier::truncate] (timestamp.0 as u64));
        proof {
            <i64 as Element>::lemma_round_trip(timestamp.0);
        }
        assert(self.index_writer@.log.committed == index_before);
        match self.index_writer.write(word.as_slice()) {
            Ok(()) => {},
            Err(e) => {
                return Err(e);
            },
        }
        self.data_waker.wake_all();
        proof {
            lemma_timestamps_push(index_before, timestamp);
            <i64 as Element>::lemma_round_trip(timestamp.0);
            let ts = timestamps_of(index_before).push(timestamp);
            assert forall|i: int, j: int| 0 <= i <= j < ts.len() implies ts[i].0 <= ts[j].0 by {
                if j == ts.len() - 1 && i < j {
                    assert(ts[i].0 <= timestamps_of(index_before)[len - 1].0);
                }
            }
            if before.correlated() && buf@.len() == before.element_size {
                assert((before.timestamps.len() + 1) * before.element_size == before.timestamps.len()
                    * before.element_size + before.element_size) by (nonlinear_arith);
            }
        }
        Ok(())
    }
}

/// Whether no timestamp of `ts` is followed by an earlier one.
pub open spec fn steps_sorted(ts: Seq<Timestamp>, k: int) -> bool {
    forall|i: int| 0 <= i < k - 1 ==> (#[trigger] ts[i]).0 <= ts[i + 1].0
}

/// A sequence in which no timestamp is followed by an earlier one never
/// decreases.
pub proof fn lemma_steps_sorted(ts: Seq<Timestamp>, i: int, j: int)
    requires
        steps_sorted(ts, ts.len() as int),
        0 <= i <= j < ts.len(),
    ensures
        ts[i].0 <= ts[j].0,
    decreases j - i,
{
    if i < j {
        lemma_steps_sorted(ts, i, j - 1);
        assert(ts[j - 1].0 <= ts[j - 1 + 1].0);
    }
}

/// The bytes of a stored log behind its header.
pub open spec fn image_body(image: Seq<u8>) -> Seq<u8> {
    image.subrange(8, image.len() as int)
}

/// The series that the stored images of an index log and of a data log
/// hold. Each image starts with the eight bytes of the log's header value;
/// the committed bytes follow.
pub open spec fn spec_open(index_image: Seq<u8>, data_image: Seq<u8>) -> Result<SeriesView, StoreError> {
    if index_image.len() < 8 || data_image.len() < 8 || (index_image.len() - 8) % 8 != 0 {
        Err(StoreError::Truncated)
    } else if !sorted(timestamps_of(image_body(index_image))) {
        Err(StoreError::TimeTravel)
    } else {
        Ok(
            SeriesView {
                start_timestamp: Timestamp(<i64 as Element>::decode(index_image.subrange(0, 8))),
                element_size: <u64 as Element>::decode(data_image.subrange(0, 8)),
                timestamps: timestamps_of(image_body(index_image)),
                data: image_body(data_image),
                generation: 0,
            },
        )
    }
}

impl<'a> TimeSeries<'a> {
    /// The writer of the series that the stored images of its two logs
    /// hold.
    ///
    /// Fails with [`StoreError::Truncated`] if an image is shorter than its
    /// header or the index does not hold whole timestamps, and with
    /// [`StoreError::TimeTravel`] if the stored timestamps decrease
    /// somewhere.
    #[verifier::rlimit(30)]
    pub fn open(index_image: &[u8], data_image: &[u8]) -> (r: Result<TimeSeriesWriter, StoreError>)
        ensures
            match r {
                Ok(writer) => writer.wf() && spec_open(index_image@, data_image@) == Ok::<
                    SeriesView,
                    StoreError,
                >(writer@),
                Err(e) => spec_open(index_image@, data_image@) == Err::<SeriesView, StoreError>(e),
            },
    {
        if index_image.len() < 8 || data_image.len() < 8 || (index_image.len() - 8) % 8 != 0 {
            return Err(StoreError::Truncated);
        }
        let start = Timestamp(
            #[verifier::truncate] (vstd::bytes::u64_from_le_bytes(slice_subrange(index_image, 0, 8))
                as i64),
        );
        let element_size: u64 = vstd::bytes::u64_from_le_bytes(slice_subrange(data_image, 0, 8));
        let index = slice_to_vec(slice_subrange(index_image, 8, index_image.len()));
        let data = slice_to_vec(slice_subrange(data_image, 8, data_image.len()));
        let writer = TimeSeriesWriter {
            index_writer: AppendLog::open(start, index),
            data_writer: AppendLog::open(element_size, data),
            data_waker: WaitQueue::new(),
        };
        let ghost ts = timestamps_of(image_body(index_image@));
        let count: usize = (index_image.len() - 8) / 8;
        let mut i: usize = 1;
        while i < count
            invariant
                1 <= i,
                count == ts.len(),
                ts == timestamps_of(image_body(index_image@)),
                writer.index_writer@.log.committed == image_body(index_image@),
                writer.index_writer@.log.committed.len() == 8 * count,
                index_image@.len() >= 8,
                data_image@.len() >= 8,
                (index_image@.len() - 8) % 8 == 0,
                steps_sorted(ts, i as int),
            decreases count - i,
        {
            let index_bytes = writer.index_writer.inner().as_slice();
            let index_len: usize = index_bytes.len();
            assert(8 * i + 8 <= index_len);
            let earlier = match read_i64(slice_subrange(index_bytes, 8 * (i - 1), 8 * (i - 1) + 8)) {
                Ok(t) => t,
                Err(_) => 0,
            };
            let later = match read_i64(slice_subrange(index_bytes, 8 * i, 8 * i + 8)) {
                Ok(t) => t,
                Err(_) => 0,
            };
            assert(earlier == ts[i - 1].0 && later == ts[i as int].0);
            if earlier > later {
                assert(!sorted(ts));
                return Err(StoreError::TimeTravel);
            }
            i += 1;
        }
        proof {
            if count > 0 {
                assert forall|i: int, j: int| 0 <= i <= j < ts.len() implies ts[i].0 <= ts[j].0 by {
                    lemma_steps_sorted(ts, i, j);
                }
            }
        }
        Ok(writer)
    }
}

impl TimeSeriesWriter {
    /// The image of the index log as it is stored: the start timestamp,
    /// then the committed timestamps, eight bytes each.
    pub fn index_image(&self) -> (image: Vec<u8>)
        requires
            self.wf(),
        ensures
            image@.len() == 8 + 8 * self@.timestamps.len(),
            image@.subrange(0, 8) == self@.start_timestamp.0.encode(),
            timestamps_of(image_body(image@)) == self@.timestamps,
    {
        let start: i64 = self.index_writer.inner().extra().0;
        proof {
            <i64 as Element>::lemma_round_trip(start);
        }
        let mut image = vstd::bytes::u64_to_le_bytes(#[verifier::truncate] (start as u64));
        let ghost header = image@;
        let committed = self.index_writer.inner().as_slice();
        let mut i: usize = 0;
        while i < committed.len()
            invariant
                i <= committed@.len(),
                header.len() == 8,
                image@ == header + committed@.take(i as int),
            decreases committed@.len() - i,
        {
            image.push(committed[i]);
            assert(committed@.take(i + 1) == committed@.take(i as int).push(committed@[i as int]));
            i += 1;
        }
        assert(committed@.take(committed@.len() as int) == committed@);
        assert(image_body(image@) =~= committed@);
        assert(image@.subrange(0, 8) =~= header);
        image
    }

    /// The image of the data log as it is stored: the element size, then
    /// the committed bytes.
    pub fn data_image(&self) -> (image: Vec<u8>)
        ensures
            image@ == self@.element_size.encode() + self@.data,
    {
        let mut image = vstd::bytes::u64_to_le_bytes(*self.data_writer.inner().extra());
        let ghost header = image@;
        let committed = self.data_writer.inner().as_slice();
        let mut i: usize = 0;
        while i < committed.len()
            invariant
                i <= committed@.len(),
                image@ == header + committed@.take(i as int),
            decreases committed@.len() - i,
        {
            image.push(committed[i]);
            assert(committed@.take(i + 1) == committed@.take(i as int).push(committed@[i as int]));
            i += 1;
        }
        assert(committed@.take(committed@.len() as int) == committed@);
        image
    }
}

/// Storing a series and opening what was stored gives the series back,
/// with no wake-up counted yet.
pub proof fn lemma_open_stored(series: SeriesView, index_image: Seq<u8>, data_image: Seq<u8>)
    requires
        sorted(series.timestamps),
        index_image.len() == 8 + 8 * series.timestamps.len(),
        index_image.subrange(0, 8) == series.start_timestamp.0.encode(),
        timestamps_of(image_body(index_image)) == series.timestamps,
        data_image == series.element_size.encode() + series.data,
    ensures
        spec_open(index_image, data_image) == Ok::<SeriesView, StoreError>(
            SeriesView { generation: 0, ..series },
        ),
{
    <i64 as Element>::lemma_round_trip(series.start_timestamp.0);
    <u64 as Element>::lemma_round_trip(series.element_size);
    assert(data_image.subrange(0, 8) =~= series.element_size.encode());
    assert(image_body(data_image) =~= series.data);
}

/// The series after the first `k` of `entries` have been pushed, one after
/// the other, or the error that refused one of them.
pub open spec fn spec_push_all(series: SeriesView, entries: Seq<(Timestamp, Seq<u8>)>, k: nat) -> Result<
    SeriesView,
    StoreError,
>
    decreases k,
{
    if k == 0 {
        Ok(series)
    } else {
        match spec_push_all(series, entries, (k - 1) as nat) {
            Ok(before) => before.spec_push(entries[k - 1].0, entries[k - 1].1),
            Err(e) => Err(e),
        }
    }
}

/// The timestamps of `entries`.
pub open spec fn entry_timestamps(entries: Seq<(Timestamp, Seq<u8>)>) -> Seq<Timestamp> {
    Seq::new(entries.len(), |i: int| entries[i].0)
}

/// The number of bytes of the first `k` of `entries`.
pub open spec fn entry_bytes(entries: Seq<(Timestamp, Seq<u8>)>, k: nat) -> nat
    decreases k,
{
    if k == 0 {
        0
    } else {
        entry_bytes(entries, (k - 1) as nat) + entries[k - 1].1.len()
    }
}

/// Monotone pushes succeed: entries whose timestamps never decrease are all
/// accepted by an empty series, as long as the logs can hold them, and the
/// series then holds exactly their timestamps, in their order.
pub proof fn lemma_monotone_pushes(series: SeriesView, entries: Seq<(Timestamp, Seq<u8>)>, k: nat)
    requires
        series.timestamps.len() == 0,
        series.data.len() == 0,
        sorted(entry_timestamps(entries)),
        k <= entries.len(),
        8 * k <= usize::MAX,
        entry_bytes(entries, k) <= usize::MAX,
    ensures
        spec_push_all(series, entries, k) matches Ok(after) && after.timestamps == entry_timestamps(
            entries,
        ).take(k as int) && after.data.len() == entry_bytes(entries, k),
    decreases k,
{
    let ts = entry_timestamps(entries);
    if k == 0 {
        assert(ts.take(0) =~= series.timestamps);
    } else {
        lemma_monotone_pushes(series, entries, (k - 1) as nat);
        let before = spec_push_all(series, entries, (k - 1) as nat)->Ok_0;
        let t = entries[k - 1].0;
        if k >= 2 {
            assert(before.timestamps.last() == ts[k - 2]);
            assert(ts[k - 2].0 <= ts[k - 1].0);
        }
        assert(ts.take(k as int) =~= ts.take(k - 1).push(t));
    }
}

/// Monotone pushes of one size: entries whose timestamps never decrease
/// and whose elements all have the size of the series' elements are all
/// accepted by an empty series, as long as the logs can hold them; after
/// `k` of them the index holds exactly their `k` timestamps and the data
/// exactly `k` elements.
pub proof fn lemma_monotone_pushes_of_one_size(
    series: SeriesView,
    entries: Seq<(Timestamp, Seq<u8>)>,
    k: nat,
)
    requires
        series.timestamps.len() == 0,
        series.data.len() == 0,
        sorted(entry_timestamps(entries)),
        k <= entries.len(),
        forall|i: int| 0 <= i < k ==> (#[trigger] entries[i]).1.len() == series.element_size,
        8 * k <= usize::MAX,
        k * series.element_size <= usize::MAX,
    ensures
        spec_push_all(series, entries, k) matches Ok(after) && after.timestamps
            == entry_timestamps(entries).take(k as int) && after.data.len() == k
            * series.element_size && after.element_size == series.element_size
            && after.correlated(),
    decreases k,
{
    let size = series.element_size as int;
    assert(entry_bytes(entries, k) == k * size) by {
        lemma_entry_bytes_of_one_size(entries, series.element_size as nat, k);
    }
    lemma_monotone_pushes(series, entries, k);
    lemma_push_all_keeps_size(series, entries, k);
}

/// Entries of one size take that size each.
proof fn lemma_entry_bytes_of_one_size(entries: Seq<(Timestamp, Seq<u8>)>, size: nat, k: nat)
    requires
        k <= entries.len(),
        forall|i: int| 0 <= i < k ==> (#[trigger] entries[i]).1.len() == size,
    ensures
        entry_bytes(entries, k) == k * size,
    decreases k,
{
    if k > 0 {
        lemma_entry_bytes_of_one_size(entries, size, (k - 1) as nat);
        assert(entries[k - 1].1.len() == size);
        let before = (k - 1) as nat;
        assert(before * size + size == k * size) by (nonlinear_arith)
            requires
                before + 1 == k,
        ;
    } else {
        assert(k * size == 0) by (nonlinear_arith)
            requires
                k == 0,
        ;
    }
}

/// Pushes leave the headers of a series as they are.
proof fn lemma_push_all_keeps_size(series: SeriesView, entries: Seq<(Timestamp, Seq<u8>)>, k: nat)
    ensures
        spec_push_all(series, entries, k) matches Ok(after) ==> after.element_size
            == series.element_size && after.start_timestamp == series.start_timestamp,
    decreases k,
{
    if k > 0 {
        lemma_push_all_keeps_size(series, entries, (k - 1) as nat);
    }
}

/// A push into the past is refused, whatever the series holds: the error
/// is [`StoreError::TimeTravel`].
pub proof fn lemma_time_travel_refused(series: SeriesView, t: Timestamp, bytes: Seq<u8>)
    requires
        series.timestamps.len() > 0,
        t.0 < series.timestamps.last().0,
    ensures
        series.spec_push(t, bytes) == Err::<SeriesView, StoreError>(StoreError::TimeTravel),
{
}

/// Wake ordering: the push that wakes a waiter has committed its entry.
/// Whoever remembered the count before a push finds it changed after the
/// push, and then finds the pushed entry as the latest one and under its
/// timestamp.
pub proof fn lemma_woken_after_commit(before: SeriesView, t: Timestamp, bytes: Seq<u8>)
    requires
        sorted(before.timestamps),
        before.correlated(),
        bytes.len() == before.element_size,
        before.spec_push(t, bytes) is Ok,
    ensures
        ({
            let after = before.spec_push(t, bytes)->Ok_0;
            &&& after.generation != before.generation
            &&& sorted(after.timestamps)
            &&& after.spec_latest() == Some((t, bytes))
            &&& after.spec_get(t) == Some(bytes)
        }),
{
    let after = before.pushed(t, bytes);
    let n = before.timestamps.len() as int;
    let size = before.element_size as int;
    assert(before.generation.wrapping_add(1) != before.generation);
    assert forall|i: int, j: int| 0 <= i <= j < after.timestamps.len() implies after.timestamps[i].0
        <= after.timestamps[j].0 by {
        if j == n && i < n {
            assert(before.timestamps[i].0 <= before.timestamps[n - 1].0);
        }
    }
    assert((n + 1) * size == n * size + size) by (nonlinear_arith);
    assert(after.data.subrange(n * size, (n + 1) * size) =~= bytes);
    lemma_upper_bound(after.timestamps, t, n + 1);
}

/// What a range query yields: the timestamps it returns are a run of the
/// stored ones, in stored order; each of them lies in the range; every
/// stored timestamp that lies in the range is among them; and the data
/// hold one element for each, the element that was pushed with it. A range
/// that holds no entry yields no timestamps and no data, or nothing.
pub proof fn lemma_range_query(series: SeriesView, start: Timestamp, end: Timestamp)
    requires
        sorted(series.timestamps),
    ensures
        match series.spec_get_range(start, end) {
            Some((ts, data)) => {
                let s = lower_bound(series.timestamps, start) as int;
                let u = upper_bound(series.timestamps, end) as int;
                &&& 0 <= s <= u <= series.timestamps.len()
                &&& ts == series.timestamps.subrange(s, u)
                &&& forall|k: int| 0 <= k < ts.len() ==> start.0 <= (#[trigger] ts[k]).0 <= end.0
                &&& forall|i: int|
                    0 <= i < series.timestamps.len() && start.0 <= (
                    #[trigger] series.timestamps[i]).0 <= end.0 ==> s <= i < u
                &&& data.len() == ts.len() * series.element_size
                &&& forall|k: int|
                    0 <= k < ts.len() ==> series.element(s + k) == Some(
                        #[trigger] data.subrange(
                            k * series.element_size,
                            (k + 1) * series.element_size,
                        ),
                    )
            },
            None => true,
        },
        (forall|i: int|
            0 <= i < series.timestamps.len() ==> !(start.0 <= (#[trigger] series.timestamps[i]).0
                <= end.0)) ==> (series.spec_get_range(start, end) matches Some((ts, data))
            ==> ts.len() == 0 && data.len() == 0),
{
    lemma_bounds(series.timestamps, start);
    lemma_bounds(series.timestamps, end);
    let s = lower_bound(series.timestamps, start) as int;
    let u = upper_bound(series.timestamps, end) as int;
    let size = series.element_size as int;
    if series.spec_get_range(start, end) is Some {
        let (ts, data) = series.spec_get_range(start, end)->Some_0;
        assert(u * size - s * size == (u - s) * size) by (nonlinear_arith);
        assert(s * size <= u * size) by (nonlinear_arith)
            requires
                s <= u,
                size >= 0,
        ;
        assert forall|k: int| 0 <= k < ts.len() implies series.element(s + k) == Some(
            #[trigger] data.subrange(k * size, (k + 1) * size),
        ) by {
            assert((s + k + 1) * size <= u * size) by (nonlinear_arith)
                requires
                    s + k + 1 <= u,
                    size >= 0,
            ;
            assert((s + k) * size == s * size + k * size) by (nonlinear_arith);
            assert((s + k + 1) * size == s * size + (k + 1) * size) by (nonlinear_arith);
            assert(0 <= k * size <= (k + 1) * size) by (nonlinear_arith)
                requires
                    k >= 0,
                    size >= 0,
            ;
            assert((k + 1) * size <= (u - s) * size) by (nonlinear_arith)
                requires
                    k + 1 <= u - s,
                    size >= 0,
            ;
            assert(data.subrange(k * size, (k + 1) * size) =~= series.data.subrange(
                (s + k) * size,
                (s + k + 1) * size,
            ));
        }
        if forall|i: int|
            0 <= i < series.timestamps.len() ==> !(start.0 <= (#[trigger] series.timestamps[i]).0
                <= end.0) {
            if s < u {
                assert(start.0 <= series.timestamps[s].0 <= end.0);
            }
            assert((u - s) * size == 0) by (nonlinear_arith)
                requires
                    u == s,
            ;
        }
    }
}

} // verus!
