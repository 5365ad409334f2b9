//! One shard ("epoch"): its ordered index, the length of its data log, and
//! the decisions of inserting, reading and persisting. The caller does the
//! file work that each decision names.
use vstd::prelude::*;
use crate::codec::{frame_bytes, parse_frame, lemma_frame_round_trip};
use crate::extent::{packed, lemma_pack_unpack, FrameExtent, OFFSET_LIMIT};
use crate::frame::{decode_frame, encode_frame, tick_bytes, Frame};
use crate::index::{has_key, insert_sorted, lemma_insert_sorted, lookup, sorted_keys, FrameIndex};
use crate::snapshot::{
    decode_index, encode_index, flat_entries, index_of_snapshot, index_snapshot, inflated,
    lemma_index_snapshot_round_trip, list_bytes,
};

verus! {

/// The largest record, in bytes, that an extent can describe.
pub const MAX_FRAME_SIZE: u64 = 65535;

#[derive(Clone, Copy, Debug, PartialEq, Eq, Structural)]
pub enum EpochError {
    /// A backing file could not be opened.
    BackingFileFailure,
    /// The index snapshot could not be written.
    IndexFileFailure,
    /// The data log could not be written.
    WriteFailure,
    /// The data log could not be read.
    ReadFailure,
    /// Bytes read from the data log are not a stored frame.
    DecodeFailure,
    /// The index already holds a frame with this time.
    FrameConflict,
    /// The stored frame is longer than an extent can describe.
    FrameTooBig,
    /// The frame has no payload.
    FrameEmpty,
    /// The data log would grow past the offsets an extent can hold.
    OffsetOverflow,
}

/// What a shard holds, as plain values.
pub struct EpochView {
    pub id: u64,
    /// Time and packed extent of each stored frame, times ascending.
    pub entries: Seq<(u64, u64)>,
    /// Length of the data log, in bytes.
    pub data_len: u64,
    /// The index changed since it was last persisted.
    pub tainted: bool,
}

/// The index entries that a shard opened with `snapshot` starts from: those
/// the snapshot holds, or none when it is missing or unreadable.
pub open spec fn restored(snapshot: Option<Seq<u8>>) -> Seq<(u64, u64)> {
    match snapshot {
        Some(b) => match index_of_snapshot(b) {
            Some(p) => p,
            None => Seq::empty(),
        },
        None => Seq::empty(),
    }
}

/// What the first step of inserting a frame stamped `time` with payload
/// `tick` gives: the bytes to append, or why the frame is refused.
pub open spec fn plan_outcome(v: EpochView, time: u64, tick: Option<Seq<u8>>) -> Result<
    Seq<u8>,
    EpochError,
> {
    if has_key(v.entries, time) {
        Err(EpochError::FrameConflict)
    } else if tick is None {
        Err(EpochError::FrameEmpty)
    } else {
        Ok(frame_bytes(time, tick))
    }
}

/// What the second step of an insert gives once `written` bytes were
/// appended: the frame's extent, or why it is refused.
pub open spec fn commit_outcome(v: EpochView, time: u64, written: u64) -> Result<
    FrameExtent,
    EpochError,
> {
    if written > MAX_FRAME_SIZE {
        Err(EpochError::FrameTooBig)
    } else if has_key(v.entries, time) {
        Err(EpochError::FrameConflict)
    } else if v.data_len + written > OFFSET_LIMIT {
        Err(EpochError::OffsetOverflow)
    } else {
        Ok(FrameExtent { size: written as u16, offset: v.data_len })
    }
}

/// The shard after the second step of an insert: unchanged when refused;
/// else the index maps `time` to the packed extent, the data log has grown
/// by `written` bytes, and the index has changes to persist.
pub open spec fn committed(v: EpochView, time: u64, written: u64) -> EpochView {
    if commit_outcome(v, time, written) is Ok {
        EpochView {
            id: v.id,
            entries: insert_sorted(v.entries, time, packed(v.data_len, written as u16) as u64),
            data_len: (v.data_len + written) as u64,
            tainted: true,
        }
    } else {
        v
    }
}

pub struct Epoch {
    epoch: u64,
    frame_index: FrameIndex,
    data_len: u64,
    tainted: bool,
}

impl View for Epoch {
    type V = EpochView;

    closed spec fn view(&self) -> EpochView {
        EpochView {
            id: self.epoch,
            entries: self.frame_index@,
            data_len: self.data_len,
            tainted: self.tainted,
        }
    }
}

impl Epoch {
    pub closed spec fn wf(&self) -> bool {
        self.frame_index.wf()
    }

    /// Opens shard `epoch` over a data log of `data_len` bytes, restoring its
    /// index from the snapshot bytes, if any could be read.
    pub fn new(epoch: u64, snapshot: Option<&[u8]>, data_len: u64) -> (r: Epoch)
        ensures
            r.wf(),
            r@.id == epoch,
            r@.entries == restored(
                match snapshot {
                    Some(b) => Some(b@),
                    None => None,
                },
            ),
            r@.data_len == data_len,
            !r@.tainted,
    {
        let frame_index = match snapshot {
            Some(b) => match decode_index(b) {
                Ok(index) => index,
                Err(_) => FrameIndex::new(),
            },
            None => FrameIndex::new(),
        };
        Epoch { epoch, frame_index, data_len, tainted: false }
    }

    pub fn epoch(&self) -> (r: u64)
        ensures
            r == self@.id,
    {
        self.epoch
    }

    /// Length of the data log as this shard knows it; after a failed insert
    /// the log is cut back to it.
    pub fn data_len(&self) -> (r: u64)
        ensures
            r == self@.data_len,
    {
        self.data_len
    }

    pub fn is_tainted(&self) -> (r: bool)
        ensures
            r == self@.tainted,
    {
        self.tainted
    }

    /// The ordered index, for traversal in time order.
    pub fn frames(&self) -> (r: &FrameIndex)
        requires
            self.wf(),
        ensures
            r.wf(),
            r@ == self@.entries,
    {
        &self.frame_index
    }

    /// First step of an insert: the bytes to append to the data log.
    pub fn plan_insert(&self, frame: &Frame<Vec<u8>>) -> (r: Result<Vec<u8>, EpochError>)
        requires
            self.wf(),
        ensures
            r is Ok <==> plan_outcome(self@, frame.time, tick_bytes(frame.tick)) is Ok,
            r is Ok ==> r->Ok_0@ == plan_outcome(self@, frame.time, tick_bytes(frame.tick))->Ok_0,
            r is Err ==> r->Err_0 == plan_outcome(self@, frame.time, tick_bytes(frame.tick))->Err_0,
    {
        if self.frame_index.get(frame.time).is_some() {
            return Err(EpochError::FrameConflict);
        }
        if frame.tick.is_none() {
            return Err(EpochError::FrameEmpty);
        }
        Ok(encode_frame(frame))
    }

    /// Second step of an insert, once `written` bytes were appended at the
    /// end of the data log: records the frame's extent. On an error nothing
    /// changes, and the data log is to be cut back to `data_len()`.
    pub fn commit_insert(&mut self, time: u64, written: u64) -> (r: Result<FrameExtent, EpochError>)
        requires
            old(self).wf(),
        ensures
            final(self).wf(),
            r == commit_outcome(old(self)@, time, written),
            final(self)@ == committed(old(self)@, time, written),
            r is Ok ==> forall|q: u64| #[trigger]
                lookup(final(self)@.entries, q) == if q == time {
                    Some(packed(old(self)@.data_len, written as u16) as u64)
                } else {
                    lookup(old(self)@.entries, q)
                },
    {
        if written > MAX_FRAME_SIZE {
            return Err(EpochError::FrameTooBig);
        }
        if self.frame_index.get(time).is_some() {
            return Err(EpochError::FrameConflict);
        }
        if self.data_len > OFFSET_LIMIT || written > OFFSET_LIMIT - self.data_len {
            return Err(EpochError::OffsetOverflow);
        }
        let extent = FrameExtent { size: written as u16, offset: self.data_len };
        let word = extent.pack();
        self.frame_index.insert(time, word);
        self.data_len = self.data_len + written;
        self.tainted = true;
        Ok(extent)
    }

    /// Where the frame stamped `time` lies in the data log.
    pub fn extent_of(&self, time: u64) -> (r: Option<FrameExtent>)
        requires
            self.wf(),
        ensures
            r is Some <==> lookup(self@.entries, time) is Some,
            r is Some ==> r->Some_0.size as int == lookup(self@.entries, time)->Some_0 as int
                / OFFSET_LIMIT as int && r->Some_0.offset as int == lookup(
                self@.entries,
                time,
            )->Some_0 as int % OFFSET_LIMIT as int,
    {
        match self.frame_index.get(time) {
            Some(word) => Some(FrameExtent::unpack(word)),
            None => None,
        }
    }

    /// Time and extent of the earliest frame.
    pub fn oldest(&self) -> (r: Option<(u64, FrameExtent)>)
        requires
            self.wf(),
        ensures
            r is None <==> self@.entries.len() == 0,
            r is Some ==> r->Some_0.0 == self@.entries[0].0 && r->Some_0.1.size as int
                == self@.entries[0].1 as int / OFFSET_LIMIT as int && r->Some_0.1.offset as int
                == self@.entries[0].1 as int % OFFSET_LIMIT as int,
    {
        match self.frame_index.first() {
            Some((time, word)) => Some((time, FrameExtent::unpack(word))),
            None => None,
        }
    }

    /// Time and extent of the latest frame.
    pub fn newest(&self) -> (r: Option<(u64, FrameExtent)>)
        requires
            self.wf(),
        ensures
            r is None <==> self@.entries.len() == 0,
            r is Some ==> r->Some_0.0 == self@.entries.last().0 && r->Some_0.1.size as int
                == self@.entries.last().1 as int / OFFSET_LIMIT as int && r->Some_0.1.offset as int
                == self@.entries.last().1 as int % OFFSET_LIMIT as int,
    {
        match self.frame_index.last() {
            Some((time, word)) => Some((time, FrameExtent::unpack(word))),
            None => None,
        }
    }

    /// The snapshot bytes to write, if the index changed since the last
    /// time; the shard then counts as persisted.
    pub fn persist(&mut self) -> (r: Option<Vec<u8>>)
        requires
            old(self).wf(),
        ensures
            final(self).wf(),
            !final(self)@.tainted,
            final(self)@.id == old(self)@.id,
            final(self)@.entries == old(self)@.entries,
            final(self)@.data_len == old(self)@.data_len,
            r is Some <==> old(self)@.tainted,
            r is Some ==> r->Some_0@ == index_snapshot(old(self)@.entries) && inflated(
                r->Some_0@,
            ) == Some(list_bytes(flat_entries(old(self)@.entries))),
    {
        if !self.tainted {
            return None;
        }
        let bytes = encode_index(&self.frame_index);
        self.tainted = false;
        Some(bytes)
    }
}

/// Reads back the frame stored in `bytes`, the contents of one extent.
pub fn read_frame(bytes: &[u8]) -> (r: Result<Frame<Vec<u8>>, EpochError>)
    ensures
        r is Err <==> parse_frame(bytes@) is None,
        r is Err ==> r == Err::<Frame<Vec<u8>>, EpochError>(EpochError::DecodeFailure),
        r is Ok ==> parse_frame(bytes@) == Some((r->Ok_0.time, tick_bytes(r->Ok_0.tick))),
{
    match decode_frame(bytes) {
        Some(frame) => Ok(frame),
        None => Err(EpochError::DecodeFailure),
    }
}

/// Once a frame stamped `time` is stored, a second frame with that time is
/// refused as a conflict by either step of an insert, the shard stays as it
/// is, and `time` keeps the extent of the first frame.
pub proof fn lemma_conflict_keeps_first(
    v: EpochView,
    time: u64,
    written: u64,
    tick: Option<Seq<u8>>,
    written2: u64,
)
    requires
        sorted_keys(v.entries),
        commit_outcome(v, time, written) is Ok,
    ensures
        ({
            let v1 = committed(v, time, written);
            &&& lookup(v1.entries, time) == Some(packed(v.data_len, written as u16) as u64)
            &&& plan_outcome(v1, time, tick) == Err::<Seq<u8>, EpochError>(
                EpochError::FrameConflict,
            )
            &&& written2 <= MAX_FRAME_SIZE ==> commit_outcome(v1, time, written2) == Err::<
                FrameExtent,
                EpochError,
            >(EpochError::FrameConflict)
            &&& committed(v1, time, written2) == v1
        }),
{
    lemma_insert_sorted(v.entries, time, packed(v.data_len, written as u16) as u64);
}

/// A frame too big for an extent is refused, and the shard stays as it
/// was: the data log keeps its length and the frame's time gets no entry.
pub proof fn lemma_oversized_rollback(v: EpochView, time: u64, written: u64)
    requires
        written > MAX_FRAME_SIZE,
        !has_key(v.entries, time),
    ensures
        commit_outcome(v, time, written) == Err::<FrameExtent, EpochError>(
            EpochError::FrameTooBig,
        ),
        committed(v, time, written) == v,
        committed(v, time, written).data_len == v.data_len,
        !has_key(committed(v, time, written).entries, time),
{
}

/// A shard's index, persisted and reopened, holds the same entries in the
/// same order: the bytes that `persist` hands out inflate to the list form
/// of the entries, and `new` restores exactly those.
pub proof fn lemma_persist_reopen(entries: Seq<(u64, u64)>, b: Seq<u8>)
    requires
        sorted_keys(entries),
        entries.len() <= u64::MAX / 2,
        inflated(b) == Some(list_bytes(flat_entries(entries))),
    ensures
        restored(Some(b)) == entries,
{
    lemma_index_snapshot_round_trip(entries, b);
}

/// A frame inserted at `offset` reads back, through the extent that its
/// index entry packs, as the same time and payload.
pub proof fn lemma_insert_read_round_trip(time: u64, payload: Seq<u8>, offset: u64)
    requires
        offset < OFFSET_LIMIT,
        frame_bytes(time, Some(payload)).len() <= MAX_FRAME_SIZE,
    ensures
        ({
            let b = frame_bytes(time, Some(payload));
            let word = packed(offset, b.len() as u16);
            &&& word / OFFSET_LIMIT as int == b.len()
            &&& word % OFFSET_LIMIT as int == offset
            &&& parse_frame(b) == Some((time, Some(payload)))
        }),
{
    let b = frame_bytes(time, Some(payload));
    lemma_pack_unpack(offset, b.len() as u16);
    lemma_frame_round_trip(time, Some(payload));
}

} // verus!
