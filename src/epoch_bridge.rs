//! The router: the durable, sorted list of epoch ids, and the one shard
//! held open ("hot") that records are routed to.
use vstd::prelude::*;
use crate::epoch::{commit_outcome, committed, plan_outcome, Epoch, EpochError, EpochView};
use crate::extent::FrameExtent;
use crate::frame::{tick_bytes, Frame};
use crate::snapshot::{
    decode_list, encode_list, flat_entries, index_snapshot, inflated, lemma_list_round_trip, list_bytes, list_of_snapshot,
    list_snapshot,
};

verus! {

#[derive(Clone, Copy, Debug, PartialEq, Eq, Structural)]
pub enum QuotickError {
    /// The shard refused the operation.
    Epoch(EpochError),
    /// The epoch index file could not be opened or written.
    BackingFileFailure,
    /// The frame has no payload to derive an epoch from.
    BadFrameEpoch,
    /// No shard is hot.
    BadFrameTick,
    /// The hot shard is not the one the record belongs to.
    Inconsistency,
}

impl From<EpochError> for QuotickError {
    fn from(err: EpochError) -> (r: QuotickError)
        ensures
            r == QuotickError::Epoch(err),
    {
        QuotickError::Epoch(err)
    }
}

impl vstd::std_specs::convert::FromSpecImpl<EpochError> for QuotickError {
    open spec fn obeys_from_spec() -> bool {
        true
    }

    open spec fn from_spec(err: EpochError) -> QuotickError {
        QuotickError::Epoch(err)
    }
}

/// Ids strictly ascend along `s`.
pub open spec fn sorted_ids(s: Seq<u64>) -> bool {
    forall|i: int, j: int| 0 <= i < j < s.len() ==> s[i] < s[j]
}

/// The epoch ids that a router opened with `snapshot` starts from: those the
/// snapshot holds, or none when it is missing, unreadable or out of order.
pub open spec fn restored_ids(snapshot: Option<Seq<u8>>) -> Seq<u64> {
    match snapshot {
        Some(b) => match list_of_snapshot(b) {
            Some(s) => if sorted_ids(s) {
                s
            } else {
                Seq::empty()
            },
            None => Seq::empty(),
        },
        None => Seq::empty(),
    }
}

/// What a router holds, as plain values.
pub struct EpochBridgeView {
    /// Every epoch id that was routed to, ascending.
    pub epochs: Seq<u64>,
    /// The hot shard.
    pub hot: Option<EpochView>,
}

/// Whether a record of epoch `epoch` needs another shard than the hot one.
pub open spec fn needs_update(hot: Option<EpochView>, epoch: u64) -> bool {
    !(hot matches Some(h) && h.id == epoch)
}

/// The hot shard once a record of epoch `epoch` is routed: the hot one if
/// it already has that id, else `opened`, the shard opened for the record.
pub open spec fn routed_hot(hot: Option<EpochView>, epoch: u64, opened: EpochView) -> Option<
    EpochView,
> {
    if needs_update(hot, epoch) {
        Some(opened)
    } else {
        hot
    }
}

/// Routing is deterministic: whichever shard was hot before, and whatever
/// was inserted in between, a record of epoch `epoch` finds the shard with
/// id `epoch` hot, so records with equal ids land in one shard's data log.
pub proof fn lemma_routing_deterministic(
    hot1: Option<EpochView>,
    hot2: Option<EpochView>,
    epoch: u64,
    opened1: EpochView,
    opened2: EpochView,
)
    requires
        opened1.id == epoch,
        opened2.id == epoch,
    ensures
        routed_hot(hot1, epoch, opened1) is Some,
        routed_hot(hot1, epoch, opened1)->Some_0.id == epoch,
        routed_hot(hot1, epoch, opened1)->Some_0.id == routed_hot(hot2, epoch, opened2)->Some_0.id,
{
}

/// The epoch index, persisted and reopened, lists the same ids in the same
/// order: the bytes that `persist` hands out inflate to the list form of the
/// ids, and `new` restores exactly those.
pub proof fn lemma_epochs_reopen(ids: Seq<u64>, b: Seq<u8>)
    requires
        sorted_ids(ids),
        ids.len() <= u64::MAX,
        inflated(b) == Some(list_bytes(ids)),
    ensures
        restored_ids(Some(b)) == ids,
{
    lemma_list_round_trip(ids);
}

pub struct EpochBridge {
    epoch_index: Vec<u64>,
    curr_epoch: Option<Epoch>,
}

impl View for EpochBridge {
    type V = EpochBridgeView;

    closed spec fn view(&self) -> EpochBridgeView {
        EpochBridgeView {
            epochs: self.epoch_index@,
            hot: match self.curr_epoch {
                Some(e) => Some(e@),
                None => None,
            },
        }
    }
}

impl EpochBridge {
    pub closed spec fn wf(&self) -> bool {
        &&& sorted_ids(self.epoch_index@)
        &&& self.curr_epoch matches Some(e) ==> e.wf() && self.epoch_index@.contains(e@.id)
    }

    /// Opens a router over the epoch index snapshot, if one could be read.
    pub fn new(snapshot: Option<&[u8]>) -> (r: EpochBridge)
        ensures
            r.wf(),
            r@.epochs == restored_ids(
                match snapshot {
                    Some(b) => Some(b@),
                    None => None,
                },
            ),
            r@.hot is None,
    {
        let epoch_index = match snapshot {
            Some(b) => match decode_list(b) {
                Ok(ids) => if is_sorted(&ids) {
                    ids
                } else {
                    Vec::new()
                },
                Err(_) => Vec::new(),
            },
            None => Vec::new(),
        };
        EpochBridge { epoch_index, curr_epoch: None }
    }

    /// Every epoch id routed to so far, ascending.
    pub fn epochs(&self) -> (r: &[u64])
        ensures
            r@ == self@.epochs,
    {
        self.epoch_index.as_slice()
    }

    /// The hot shard.
    pub fn hot(&self) -> (r: Option<&Epoch>)
        requires
            self.wf(),
        ensures
            r is Some <==> self@.hot is Some,
            r is Some ==> r->Some_0.wf() && r->Some_0@ == self@.hot->Some_0,
    {
        match &self.curr_epoch {
            Some(e) => Some(e),
            None => None,
        }
    }

    /// A record of epoch `epoch` needs another shard than the hot one.
    pub fn needs_epoch_update(&self, epoch: u64) -> (r: bool)
        ensures
            r == needs_update(self@.hot, epoch),
    {
        match &self.curr_epoch {
            Some(e) => e.epoch() != epoch,
            None => true,
        }
    }

    /// Makes `shard` the hot one and records its id. Returns the id and
    /// snapshot bytes of the shard it replaces, if that one had changes to
    /// persist: the caller writes them before dropping it.
    pub fn load_epoch(&mut self, shard: Epoch) -> (r: Option<(u64, Vec<u8>)>)
        requires
            old(self).wf(),
            shard.wf(),
        ensures
            final(self).wf(),
            final(self)@.hot == Some(shard@),
            final(self)@.epochs.contains(shard@.id),
            old(self)@.epochs.contains(shard@.id) ==> final(self)@.epochs == old(self)@.epochs,
            !old(self)@.epochs.contains(shard@.id) ==> exists|p: int|
                0 <= p <= old(self)@.epochs.len() && final(self)@.epochs == #[trigger] old(
                    self,
                )@.epochs.insert(p, shard@.id),
            r is Some <==> (old(self)@.hot matches Some(h) && h.tainted),
            r is Some ==> r->Some_0.0 == old(self)@.hot->Some_0.id && r->Some_0.1@
                == index_snapshot(old(self)@.hot->Some_0.entries) && inflated(r->Some_0.1@)
                == Some(list_bytes(flat_entries(old(self)@.hot->Some_0.entries))),
    {
        let flushed = match &mut self.curr_epoch {
            Some(e) => {
                let id = e.epoch();
                match e.persist() {
                    Some(bytes) => Some((id, bytes)),
                    None => None,
                }
            },
            None => None,
        };
        let id = shard.epoch();
        self.insert_epoch(id);
        self.curr_epoch = Some(shard);
        flushed
    }

    /// Records `epoch` in the epoch index, keeping it sorted.
    pub fn insert_epoch(&mut self, epoch: u64)
        requires
            old(self).wf(),
        ensures
            final(self).wf(),
            final(self)@.hot == old(self)@.hot,
            final(self)@.epochs.contains(epoch),
            old(self)@.epochs.contains(epoch) ==> final(self)@.epochs == old(self)@.epochs,
            !old(self)@.epochs.contains(epoch) ==> exists|p: int|
                0 <= p <= old(self)@.epochs.len() && final(self)@.epochs == #[trigger] old(
                    self,
                )@.epochs.insert(p, epoch),
    {
        let ghost s = self.epoch_index@;
        let mut lo: usize = 0;
        let mut hi: usize = self.epoch_index.len();
        while lo < hi
            invariant
                lo <= hi <= s.len(),
                self.epoch_index@ == s,
                self.wf(),
                self@.hot == old(self)@.hot,
                sorted_ids(s),
                forall|j: int| 0 <= j < lo ==> #[trigger] s[j] < epoch,
                forall|j: int| hi <= j < s.len() ==> #[trigger] s[j] > epoch,
            decreases hi - lo,
        {
            let mid = lo + (hi - lo) / 2;
            let id = self.epoch_index[mid];
            if id == epoch {
                assert(s.contains(epoch)) by {
                    assert(s[mid as int] == epoch);
                }
                return;
            } else if id < epoch {
                lo = mid + 1;
            } else {
                hi = mid;
            }
        }
        assert(!s.contains(epoch)) by {
            if s.contains(epoch) {
                let j = choose|j: int| 0 <= j < s.len() && s[j] == epoch;
                if j < lo {
                    assert(s[j] < epoch);
                } else {
                    assert(s[j] > epoch);
                }
            }
        }
        self.epoch_index.insert(lo, epoch);
        let ghost t = self.epoch_index@;
        assert(t == s.insert(lo as int, epoch));
        assert(t[lo as int] == epoch);
        assert(sorted_ids(t)) by {
            assert forall|a: int, b: int| 0 <= a < b < t.len() implies t[a] < t[b] by {
                if b < lo {
                    assert(s[a] < s[b]);
                } else if b == lo {
                    assert(s[a] < epoch);
                } else if a < lo {
                    assert(s[b - 1] > epoch);
                } else if a == lo {
                    assert(s[b - 1] > epoch);
                } else {
                    assert(s[a - 1] < s[b - 1]);
                }
            }
        }
        assert forall|x: u64| #[trigger] s.contains(x) implies t.contains(x) by {
            let j = choose|j: int| 0 <= j < s.len() && s[j] == x;
            if j < lo {
                assert(t[j] == x);
            } else {
                assert(t[j + 1] == x);
            }
        }
    }

    /// First step of inserting a record of epoch `epoch`: the bytes to
    /// append to the hot shard's data log.
    pub fn plan_insert(&self, epoch: u64, frame: &Frame<Vec<u8>>) -> (r: Result<Vec<u8>, QuotickError>)
        requires
            self.wf(),
        ensures
            self@.hot is None ==> r == Err::<Vec<u8>, QuotickError>(QuotickError::BadFrameTick),
            self@.hot matches Some(h) && h.id != epoch ==> r == Err::<Vec<u8>, QuotickError>(
                QuotickError::Inconsistency,
            ),
            self@.hot matches Some(h) ==> h.id == epoch ==> {
                &&& r is Ok <==> plan_outcome(h, frame.time, tick_bytes(frame.tick)) is Ok
                &&& r is Ok ==> r->Ok_0@ == plan_outcome(h, frame.time, tick_bytes(frame.tick))->Ok_0
                &&& r is Err ==> r->Err_0 == QuotickError::Epoch(
                    plan_outcome(h, frame.time, tick_bytes(frame.tick))->Err_0,
                )
            },
    {
        match &self.curr_epoch {
            None => Err(QuotickError::BadFrameTick),
            Some(e) => {
                if e.epoch() != epoch {
                    return Err(QuotickError::Inconsistency);
                }
                match e.plan_insert(frame) {
                    Ok(bytes) => Ok(bytes),
                    Err(err) => Err(QuotickError::Epoch(err)),
                }
            },
        }
    }

    /// Second step of inserting a record of epoch `epoch`, once `written`
    /// bytes were appended to the hot shard's data log. On an error nothing
    /// changes, and that log is to be cut back to the hot shard's
    /// `data_len()`.
    pub fn commit_insert(&mut self, epoch: u64, time: u64, written: u64) -> (r: Result<FrameExtent, QuotickError>)
        requires
            old(self).wf(),
        ensures
            final(self).wf(),
            final(self)@.epochs == old(self)@.epochs,
            old(self)@.hot is None ==> r == Err::<FrameExtent, QuotickError>(
                QuotickError::BadFrameTick,
            ),
            old(self)@.hot matches Some(h) && h.id != epoch ==> r == Err::<
                FrameExtent,
                QuotickError,
            >(QuotickError::Inconsistency),
            r is Err ==> final(self)@ == old(self)@,
            old(self)@.hot matches Some(h) ==> h.id == epoch ==> {
                &&& final(self)@.hot == Some(committed(h, time, written))
                &&& r is Ok <==> commit_outcome(h, time, written) is Ok
                &&& r is Ok ==> r->Ok_0 == commit_outcome(h, time, written)->Ok_0
                &&& r is Err ==> r->Err_0 == QuotickError::Epoch(
                    commit_outcome(h, time, written)->Err_0,
                )
            },
    {
        match &mut self.curr_epoch {
            None => Err(QuotickError::BadFrameTick),
            Some(e) => {
                if e.epoch() != epoch {
                    return Err(QuotickError::Inconsistency);
                }
                match e.commit_insert(time, written) {
                    Ok(extent) => Ok(extent),
                    Err(err) => Err(QuotickError::Epoch(err)),
                }
            },
        }
    }

    /// The bytes to persist: the epoch index snapshot, and the id and
    /// snapshot of the hot shard if it has changes.
    pub fn persist(&mut self) -> (r: (Vec<u8>, Option<(u64, Vec<u8>)>))
        requires
            old(self).wf(),
        ensures
            final(self).wf(),
            final(self)@.epochs == old(self)@.epochs,
            r.0@ == list_snapshot(old(self)@.epochs),
            inflated(r.0@) == Some(list_bytes(old(self)@.epochs)),
            old(self)@.hot is None ==> final(self)@.hot is None && r.1 is None,
            old(self)@.hot matches Some(h) ==> {
                &&& final(self)@.hot matches Some(g) && !g.tainted && g.id == h.id && g.entries
                    == h.entries && g.data_len == h.data_len
                &&& r.1 is Some <==> h.tainted
                &&& r.1 is Some ==> r.1->Some_0.0 == h.id && r.1->Some_0.1@ == index_snapshot(
                    h.entries,
                ) && inflated(r.1->Some_0.1@) == Some(list_bytes(flat_entries(h.entries)))
            },
    {
        let index_bytes = encode_list(&self.epoch_index);
        let shard = match &mut self.curr_epoch {
            Some(e) => {
                let id = e.epoch();
                match e.persist() {
                    Some(bytes) => Some((id, bytes)),
                    None => None,
                }
            },
            None => None,
        };
        (index_bytes, shard)
    }
}

/// The ids ascend strictly.
pub fn is_sorted(ids: &Vec<u64>) -> (r: bool)
    ensures
        r == sorted_ids(ids@),
{
    let n = ids.len();
    let mut i: usize = 1;
    if n == 0 {
        return true;
    }
    while i < n
        invariant
            1 <= i <= n,
            n == ids@.len(),
            forall|a: int, b: int| 0 <= a < b < i ==> ids@[a] < ids@[b],
        decreases n - i,
    {
        if ids[i - 1] >= ids[i] {
            return false;
        }
        assert forall|a: int, b: int| 0 <= a < b < i + 1 implies ids@[a] < ids@[b] by {
            if b == i && a < i - 1 {
                assert(ids@[a] < ids@[i - 1]);
            }
        }
        i = i + 1;
    }
    true
}

} // verus!
