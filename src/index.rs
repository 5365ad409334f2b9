//! The ordered index of a shard: time to packed extent, keys unique and
//! kept in ascending order.
use vstd::prelude::*;

verus! {

/// Keys strictly ascend along `s`.
pub open spec fn sorted_keys(s: Seq<(u64, u64)>) -> bool {
    forall|i: int, j: int| 0 <= i < j < s.len() ==> s[i].0 < s[j].0
}

/// Some entry of `s` has key `k`.
pub open spec fn has_key(s: Seq<(u64, u64)>, k: u64) -> bool {
    exists|i: int| 0 <= i < s.len() && s[i].0 == k
}

/// The value that `s` maps `k` to.
pub open spec fn lookup(s: Seq<(u64, u64)>, k: u64) -> Option<u64> {
    if has_key(s, k) {
        Some(s[choose|i: int| 0 <= i < s.len() && s[i].0 == k].1)
    } else {
        None
    }
}

/// `s` with `k` mapped to `v`: the entry with key `k` replaced, or a new
/// one placed where the keys stay ascending.
pub open spec fn insert_sorted(s: Seq<(u64, u64)>, k: u64, v: u64) -> Seq<(u64, u64)>
    decreases s.len(),
{
    if s.len() == 0 {
        seq![(k, v)]
    } else if s[0].0 < k {
        seq![s[0]] + insert_sorted(s.drop_first(), k, v)
    } else if s[0].0 == k {
        seq![(k, v)] + s.drop_first()
    } else {
        seq![(k, v)] + s
    }
}

/// Placing `(k, v)` at `p`, between the smaller and the greater keys, is
/// `insert_sorted`.
proof fn lemma_insert_at_is_insert_sorted(s: Seq<(u64, u64)>, p: int, k: u64, v: u64)
    requires
        0 <= p <= s.len(),
        forall|j: int| 0 <= j < p ==> #[trigger] s[j].0 < k,
        forall|j: int| p <= j < s.len() ==> #[trigger] s[j].0 > k,
    ensures
        s.insert(p, (k, v)) == insert_sorted(s, k, v),
    decreases s.len(),
{
    if s.len() == 0 {
        assert(s.insert(p, (k, v)) =~= seq![(k, v)]);
    } else if p == 0 {
        assert(s[0].0 > k);
        assert(s.insert(p, (k, v)) =~= seq![(k, v)] + s);
    } else {
        let t = s.drop_first();
        assert forall|j: int| 0 <= j < p - 1 implies #[trigger] t[j].0 < k by {
            assert(s[j + 1].0 < k);
        }
        assert forall|j: int| p - 1 <= j < t.len() implies #[trigger] t[j].0 > k by {
            assert(s[j + 1].0 > k);
        }
        lemma_insert_at_is_insert_sorted(t, p - 1, k, v);
        assert(s.insert(p, (k, v)) =~= seq![s[0]] + t.insert(p - 1, (k, v)));
    }
}

/// Replacing the value at `i`, where the key is `k`, is `insert_sorted`.
proof fn lemma_update_is_insert_sorted(s: Seq<(u64, u64)>, i: int, v: u64)
    requires
        sorted_keys(s),
        0 <= i < s.len(),
    ensures
        s.update(i, (s[i].0, v)) == insert_sorted(s, s[i].0, v),
    decreases s.len(),
{
    let k = s[i].0;
    if i == 0 {
        assert(s.update(i, (k, v)) =~= seq![(k, v)] + s.drop_first());
    } else {
        let t = s.drop_first();
        assert(s[0].0 < s[i].0);
        assert(t[i - 1] == s[i]);
        lemma_update_is_insert_sorted(t, i - 1, v);
        assert(s.update(i, (k, v)) =~= seq![s[0]] + t.update(i - 1, (k, v)));
    }
}

/// `insert_sorted` keeps keys ascending, holds `(k, v)`, and every other
/// key it holds was a key of `s`.
pub proof fn lemma_insert_sorted(s: Seq<(u64, u64)>, k: u64, v: u64)
    requires
        sorted_keys(s),
    ensures
        sorted_keys(insert_sorted(s, k, v)),
        lookup(insert_sorted(s, k, v), k) == Some(v),
        has_key(insert_sorted(s, k, v), k),
        forall|j: int|
            0 <= j < insert_sorted(s, k, v).len() ==> #[trigger] insert_sorted(s, k, v)[j].0 == k
                || has_key(s, insert_sorted(s, k, v)[j].0),
    decreases s.len(),
{
    let r = insert_sorted(s, k, v);
    if s.len() == 0 {
        lemma_lookup_at(r, 0);
    } else if s[0].0 < k {
        let t = s.drop_first();
        assert(sorted_keys(t)) by {
            assert forall|a: int, b: int| 0 <= a < b < t.len() implies t[a].0 < t[b].0 by {
                assert(s[a + 1].0 < s[b + 1].0);
            }
        }
        lemma_insert_sorted(t, k, v);
        let rt = insert_sorted(t, k, v);
        assert(r == seq![s[0]] + rt);
        assert forall|j: int| 0 <= j < r.len() implies #[trigger] r[j].0 == k || has_key(
            s,
            r[j].0,
        ) by {
            if j == 0 {
                assert(s[0].0 == r[0].0);
            } else {
                assert(r[j] == rt[j - 1]);
                if rt[j - 1].0 != k {
                    let m = choose|m: int| 0 <= m < t.len() && t[m].0 == rt[j - 1].0;
                    assert(s[m + 1].0 == r[j].0);
                }
            }
        }
        assert(sorted_keys(r)) by {
            assert forall|a: int, b: int| 0 <= a < b < r.len() implies r[a].0 < r[b].0 by {
                if a == 0 {
                    assert(r[b] == rt[b - 1]);
                    if rt[b - 1].0 != k {
                        let m = choose|m: int| 0 <= m < t.len() && t[m].0 == rt[b - 1].0;
                        assert(s[0].0 < s[m + 1].0);
                    }
                } else {
                    assert(rt[a - 1].0 < rt[b - 1].0);
                }
            }
        }
        let i = choose|i: int| 0 <= i < rt.len() && rt[i].0 == k;
        lemma_lookup_at(rt, i);
        assert(rt[i] == (k, v)) by {
            let c = choose|c: int| 0 <= c < rt.len() && rt[c].0 == k;
            if c != i {
                assert(rt[c].0 != rt[i].0);
            }
        }
        assert(r[i + 1] == (k, v));
        lemma_lookup_at(r, i + 1);
    } else if s[0].0 == k {
        assert(sorted_keys(r)) by {
            assert forall|a: int, b: int| 0 <= a < b < r.len() implies r[a].0 < r[b].0 by {
                assert(s[a].0 < s[b].0);
            }
        }
        assert forall|j: int| 0 <= j < r.len() implies #[trigger] r[j].0 == k || has_key(
            s,
            r[j].0,
        ) by {
            assert(s[j].0 == r[j].0);
        }
        lemma_lookup_at(r, 0);
    } else {
        assert(sorted_keys(r)) by {
            assert forall|a: int, b: int| 0 <= a < b < r.len() implies r[a].0 < r[b].0 by {
                if a == 0 {
                    assert(s[0].0 <= s[b - 1].0);
                } else {
                    assert(s[a - 1].0 < s[b - 1].0);
                }
            }
        }
        assert forall|j: int| 0 <= j < r.len() implies #[trigger] r[j].0 == k || has_key(
            s,
            r[j].0,
        ) by {
            if j > 0 {
                assert(s[j - 1].0 == r[j].0);
            }
        }
        lemma_lookup_at(r, 0);
    }
}

/// In a sorted sequence the entry at `i` is the one `lookup` finds.
pub proof fn lemma_lookup_at(s: Seq<(u64, u64)>, i: int)
    requires
        sorted_keys(s),
        0 <= i < s.len(),
    ensures
        lookup(s, s[i].0) == Some(s[i].1),
{
    let k = s[i].0;
    assert(has_key(s, k));
    let j = choose|j: int| 0 <= j < s.len() && s[j].0 == k;
    if j != i {
        assert(s[j].0 != s[i].0);
    }
}

/// An ordered mapping from time to packed extent.
pub struct FrameIndex {
    entries: Vec<(u64, u64)>,
}

impl View for FrameIndex {
    type V = Seq<(u64, u64)>;

    closed spec fn view(&self) -> Seq<(u64, u64)> {
        self.entries@
    }
}

impl FrameIndex {
    /// Keys ascend.
    pub open spec fn wf(&self) -> bool {
        sorted_keys(self@)
    }

    pub fn new() -> (r: FrameIndex)
        ensures
            r.wf(),
            r@ == Seq::<(u64, u64)>::empty(),
    {
        FrameIndex { entries: Vec::new() }
    }

    /// An index holding `entries`, if their keys ascend.
    pub fn from_entries(entries: Vec<(u64, u64)>) -> (r: Option<FrameIndex>)
        ensures
            r is Some <==> sorted_keys(entries@),
            r is Some ==> r->Some_0@ == entries@,
    {
        let n = entries.len();
        let mut i: usize = 1;
        if n == 0 {
            return Some(FrameIndex { entries });
        }
        while i < n
            invariant
                1 <= i <= n,
                n == entries@.len(),
                forall|a: int, b: int| 0 <= a < b < i ==> entries@[a].0 < entries@[b].0,
            decreases n - i,
        {
            if entries[i - 1].0 >= entries[i].0 {
                return None;
            }
            assert forall|a: int, b: int| 0 <= a < b < i + 1 implies entries@[a].0
                < entries@[b].0 by {
                if b == i && a < i - 1 {
                    assert(entries@[a].0 < entries@[i - 1].0);
                }
            }
            i = i + 1;
        }
        Some(FrameIndex { entries })
    }

    /// The entries in ascending key order.
    pub fn as_slice(&self) -> (r: &[(u64, u64)])
        ensures
            r@ == self@,
    {
        self.entries.as_slice()
    }

    pub fn len(&self) -> (r: usize)
        ensures
            r == self@.len(),
    {
        self.entries.len()
    }

    /// Where `k` is, or where it would go.
    fn find(&self, k: u64) -> (r: Result<usize, usize>)
        requires
            self.wf(),
        ensures
            r matches Ok(i) ==> i < self@.len() && self@[i as int].0 == k,
            r matches Err(p) ==> p <= self@.len() && (forall|j: int|
                0 <= j < p ==> #[trigger] self@[j].0 < k) && (forall|j: int|
                p <= j < self@.len() ==> #[trigger] self@[j].0 > k),
    {
        let mut lo: usize = 0;
        let mut hi: usize = self.entries.len();
        while lo < hi
            invariant
                lo <= hi <= self@.len(),
                self.wf(),
                forall|j: int| 0 <= j < lo ==> #[trigger] self@[j].0 < k,
                forall|j: int| hi <= j < self@.len() ==> #[trigger] self@[j].0 > k,
            decreases hi - lo,
        {
            let mid = lo + (hi - lo) / 2;
            let key = self.entries[mid].0;
            if key == k {
                return Ok(mid);
            } else if key < k {
                lo = mid + 1;
            } else {
                hi = mid;
            }
        }
        Err(lo)
    }

    /// The extent stored for time `k`.
    pub fn get(&self, k: u64) -> (r: Option<u64>)
        requires
            self.wf(),
        ensures
            r == lookup(self@, k),
    {
        match self.find(k) {
            Ok(i) => {
                proof {
                    lemma_lookup_at(self@, i as int);
                }
                Some(self.entries[i].1)
            },
            Err(p) => {
                assert(!has_key(self@, k)) by {
                    if has_key(self@, k) {
                        let j = choose|j: int| 0 <= j < self@.len() && self@[j].0 == k;
                        if j < p {
                            assert(self@[j].0 < k);
                        } else {
                            assert(self@[j].0 > k);
                        }
                    }
                }
                None
            },
        }
    }

    /// Maps `k` to `v`, replacing what `k` mapped to.
    pub fn insert(&mut self, k: u64, v: u64)
        requires
            old(self).wf(),
        ensures
            final(self).wf(),
            final(self)@ == insert_sorted(old(self)@, k, v),
            forall|q: u64| #[trigger]
                lookup(final(self)@, q) == if q == k {
                    Some(v)
                } else {
                    lookup(old(self)@, q)
                },
    {
        let ghost s = self@;
        match self.find(k) {
            Ok(i) => {
                self.entries.set(i, (k, v));
                let ghost t = self@;
                proof {
                    lemma_update_is_insert_sorted(s, i as int, v);
                }
                assert(t == s.update(i as int, (k, v)));
                assert(sorted_keys(t)) by {
                    assert forall|a: int, b: int| 0 <= a < b < t.len() implies t[a].0
                        < t[b].0 by {
                        assert(s[a].0 < s[b].0);
                    }
                }
                assert forall|q: u64| #[trigger]
                    lookup(t, q) == if q == k {
                        Some(v)
                    } else {
                        lookup(s, q)
                    } by {
                    lemma_lookup_update(s, i as int, v, q);
                }
            },
            Err(p) => {
                self.entries.insert(p, (k, v));
                let ghost t = self@;
                proof {
                    lemma_insert_at_is_insert_sorted(s, p as int, k, v);
                }
                assert(t == s.insert(p as int, (k, v)));
                assert(sorted_keys(t)) by {
                    assert forall|a: int, b: int| 0 <= a < b < t.len() implies t[a].0
                        < t[b].0 by {
                        if b < p {
                            assert(s[a].0 < s[b].0);
                        } else if b == p {
                            assert(s[a].0 < k);
                        } else if a < p {
                            assert(s[b - 1].0 > k);
                        } else if a == p {
                            assert(s[b - 1].0 > k);
                        } else {
                            assert(s[a - 1].0 < s[b - 1].0);
                        }
                    }
                }
                assert(!has_key(s, k)) by {
                    if has_key(s, k) {
                        let j = choose|j: int| 0 <= j < s.len() && s[j].0 == k;
                        if j < p {
                            assert(s[j].0 < k);
                        } else {
                            assert(s[j].0 > k);
                        }
                    }
                }
                assert forall|q: u64| #[trigger]
                    lookup(t, q) == if q == k {
                        Some(v)
                    } else {
                        lookup(s, q)
                    } by {
                    lemma_lookup_insert(s, p as int, k, v, q);
                }
            },
        }
    }

    /// The entry with the least key.
    pub fn first(&self) -> (r: Option<(u64, u64)>)
        ensures
            r == if self@.len() == 0 {
                None
            } else {
                Some(self@[0])
            },
    {
        if self.entries.len() == 0 {
            None
        } else {
            Some(self.entries[0])
        }
    }

    /// The entry with the greatest key.
    pub fn last(&self) -> (r: Option<(u64, u64)>)
        ensures
            r == if self@.len() == 0 {
                None
            } else {
                Some(self@.last())
            },
    {
        let n = self.entries.len();
        if n == 0 {
            None
        } else {
            Some(self.entries[n - 1])
        }
    }
}

/// A cursor over an index's entries in ascending key order; `next` hands
/// them out one at a time, and a new cursor starts over.
pub struct FrameSetIndexIter<'a> {
    entries: &'a [(u64, u64)],
    pos: usize,
}

impl<'a> FrameSetIndexIter<'a> {
    /// The entries not yet handed out.
    pub closed spec fn remaining(&self) -> Seq<(u64, u64)> {
        self.entries@.subrange(self.pos as int, self.entries@.len() as int)
    }

    pub closed spec fn wf(&self) -> bool {
        self.pos <= self.entries@.len()
    }

    pub fn new(index: &'a FrameIndex) -> (r: FrameSetIndexIter<'a>)
        ensures
            r.wf(),
            r.remaining() == index@,
    {
        let entries = index.as_slice();
        assert(entries@.subrange(0, entries@.len() as int) =~= entries@);
        FrameSetIndexIter { entries, pos: 0 }
    }

    /// The next entry, if any is left.
    pub fn next(&mut self) -> (r: Option<(u64, u64)>)
        requires
            old(self).wf(),
        ensures
            final(self).wf(),
            old(self).remaining().len() == 0 ==> r is None && final(self).remaining()
                == old(self).remaining(),
            old(self).remaining().len() > 0 ==> r == Some(old(self).remaining()[0])
                && final(self).remaining() == old(self).remaining().drop_first(),
    {
        if self.pos < self.entries.len() {
            let e = self.entries[self.pos];
            self.pos = self.pos + 1;
            assert(self.remaining() =~= old(self).remaining().drop_first());
            Some(e)
        } else {
            None
        }
    }
}

proof fn lemma_lookup_update(s: Seq<(u64, u64)>, i: int, v: u64, q: u64)
    requires
        sorted_keys(s),
        0 <= i < s.len(),
        sorted_keys(s.update(i, (s[i].0, v))),
    ensures
        lookup(s.update(i, (s[i].0, v)), q) == if q == s[i].0 {
            Some(v)
        } else {
            lookup(s, q)
        },
{
    let t = s.update(i, (s[i].0, v));
    if q == s[i].0 {
        lemma_lookup_at(t, i);
    } else if has_key(s, q) {
        let j = choose|j: int| 0 <= j < s.len() && s[j].0 == q;
        lemma_lookup_at(s, j);
        lemma_lookup_at(t, j);
    } else {
        if has_key(t, q) {
            let j = choose|j: int| 0 <= j < t.len() && t[j].0 == q;
            assert(s[j].0 == q);
        }
    }
}

proof fn lemma_lookup_insert(s: Seq<(u64, u64)>, p: int, k: u64, v: u64, q: u64)
    requires
        sorted_keys(s),
        0 <= p <= s.len(),
        !has_key(s, k),
        sorted_keys(s.insert(p, (k, v))),
    ensures
        lookup(s.insert(p, (k, v)), q) == if q == k {
            Some(v)
        } else {
            lookup(s, q)
        },
{
    let t = s.insert(p, (k, v));
    if q == k {
        lemma_lookup_at(t, p);
    } else if has_key(s, q) {
        let j = choose|j: int| 0 <= j < s.len() && s[j].0 == q;
        lemma_lookup_at(s, j);
        if j < p {
            lemma_lookup_at(t, j);
        } else {
            assert(t[j + 1] == s[j]);
            lemma_lookup_at(t, j + 1);
        }
    } else {
        if has_key(t, q) {
            let j = choose|j: int| 0 <= j < t.len() && t[j].0 == q;
            if j < p {
                assert(s[j].0 == q);
            } else if j > p {
                assert(s[j - 1].0 == q);
            }
        }
    }
}

} // verus!
