//! The staging buffer: the per-source holding area for rows accepted
//! by ingestion but not yet durable in the store. Rows enter in
//! batches, leave when their batch is confirmed stored, and every read
//! path merges the matching slice into its result through
//! [`FlushBuffer::merge_for_query`].

use vstd::prelude::*;

use vstd::multiset::Multiset;
use vstd::seq_lib::lemma_multiset_commutative;

use crate::schema::RowModel;
use crate::schema::StructuredMessage;
use crate::schema::row_views;
use crate::text::str_eq;
use crate::web::LogsParams;

verus! {

/// Rows ordered by timestamp, ascending or descending.
pub open spec fn sorted_models(s: Seq<RowModel>, reverse: bool) -> bool {
    forall|i: int, j: int|
        0 <= i < j < s.len() ==> (if reverse {
            #[trigger] s[i].timestamp >= #[trigger] s[j].timestamp
        } else {
            s[i].timestamp <= s[j].timestamp
        })
}

/// Whether a row belongs to a query's scope and time range.
pub open spec fn row_in_scope(
    m: RowModel,
    channel_id: Seq<char>,
    user_id: Option<Seq<char>>,
    from: u64,
    to: u64,
) -> bool {
    m.channel_id == channel_id && (match user_id {
        Some(u) => m.user_id == u,
        None => true,
    }) && from <= m.timestamp < to
}

/// The buffered rows matching a query, in buffer (timestamp) order.
pub open spec fn matching_rows(
    s: Seq<(u64, StructuredMessage)>,
    channel_id: Seq<char>,
    user_id: Option<Seq<char>>,
    from: u64,
    to: u64,
) -> Seq<RowModel>
    decreases s.len(),
{
    if s.len() == 0 {
        Seq::empty()
    } else {
        matching_rows(s.drop_last(), channel_id, user_id, from, to) + (if row_in_scope(
            s.last().1@,
            channel_id,
            user_id,
            from,
            to,
        ) {
            seq![s.last().1@]
        } else {
            Seq::empty()
        })
    }
}

/// The entries that survive the eviction of one batch, in order.
pub open spec fn keep_entries(s: Seq<(u64, StructuredMessage)>, batch: u64) -> Seq<
    (u64, StructuredMessage),
>
    decreases s.len(),
{
    if s.len() == 0 {
        s
    } else {
        keep_entries(s.drop_last(), batch) + (if s.last().0 == batch {
            Seq::empty()
        } else {
            seq![s.last()]
        })
    }
}

/// Inserting anywhere adds one occurrence and keeps the rest.
proof fn lemma_to_multiset_insert<T>(s: Seq<T>, i: int, v: T)
    requires
        0 <= i <= s.len(),
    ensures
        s.insert(i, v).to_multiset() == s.to_multiset().insert(v),
{
    broadcast use vstd::seq_lib::group_to_multiset_ensures;
    broadcast use vstd::multiset::group_multiset_axioms;

    assert(s.insert(i, v) =~= s.take(i) + (seq![v] + s.skip(i)));
    lemma_multiset_commutative(s.take(i), seq![v] + s.skip(i));
    lemma_multiset_commutative(seq![v], s.skip(i));
    assert(s =~= s.take(i) + s.skip(i));
    lemma_multiset_commutative(s.take(i), s.skip(i));
    assert(seq![v] =~= Seq::<T>::empty().push(v));
    assert(seq![v].to_multiset() =~= Multiset::<T>::empty().insert(v));
    assert(s.insert(i, v).to_multiset() =~= s.to_multiset().insert(v));
}

/// The slice of the staging buffer one query merges in: the matching
/// rows, ordered as the query asks, and the caller's paging, which the
/// store query takes over only when the slice is empty.
pub struct BufferSlice {
    pub rows: Vec<StructuredMessage>,
    pub limit: Option<u64>,
    pub offset: Option<u64>,
}

impl BufferSlice {
    /// The slice of a read that never merges the buffer.
    pub fn empty(params: LogsParams) -> (r: BufferSlice)
        ensures
            r.rows@.len() == 0,
            r.limit == params.limit,
            r.offset == params.offset,
    {
        BufferSlice { rows: Vec::new(), limit: params.limit, offset: params.offset }
    }

    /// The limit to push into the store query: the caller's, unless the
    /// slice holds rows, which the stream consumer must trim instead.
    pub fn normalized_limit(&self) -> (r: Option<u64>)
        ensures
            r == (if self.rows@.len() == 0 {
                self.limit
            } else {
                None::<u64>
            }),
    {
        if self.rows.len() == 0 {
            self.limit
        } else {
            None
        }
    }

    /// The offset to push into the store query, under the same rule.
    pub fn normalized_offset(&self) -> (r: Option<u64>)
        ensures
            r == (if self.rows@.len() == 0 {
                self.offset
            } else {
                None::<u64>
            }),
    {
        if self.rows.len() == 0 {
            self.offset
        } else {
            None
        }
    }
}

/// Whether the entry at `idx` is no newer than `ts`.
fn entry_ts_at_most(entries: &Vec<(u64, StructuredMessage)>, idx: usize, ts: u64) -> (r: bool)
    requires
        idx < entries@.len(),
    ensures
        r == (entries@[idx as int].1.timestamp <= ts),
{
    entries[idx].1.timestamp <= ts
}

/// Every matched row's timestamp occurs among the scanned entries.
proof fn lemma_matching_member_ts(
    s: Seq<(u64, StructuredMessage)>,
    channel_id: Seq<char>,
    user_id: Option<Seq<char>>,
    from: u64,
    to: u64,
    k: int,
)
    requires
        0 <= k < matching_rows(s, channel_id, user_id, from, to).len(),
    ensures
        exists|j: int|
            0 <= j < s.len() && matching_rows(s, channel_id, user_id, from, to)[k].timestamp
                == s[j].1.timestamp,
    decreases s.len(),
{
    let m = matching_rows(s, channel_id, user_id, from, to);
    let prev = matching_rows(s.drop_last(), channel_id, user_id, from, to);
    if k < prev.len() {
        lemma_matching_member_ts(s.drop_last(), channel_id, user_id, from, to, k);
        let j = choose|j: int|
            0 <= j < s.drop_last().len() && prev[k].timestamp == s.drop_last()[j].1.timestamp;
        assert(s.drop_last()[j] == s[j]);
        assert(m[k] == prev[k]);
    } else {
        assert(m[k] == s.last().1@);
        assert(s.last() == s[s.len() - 1]);
    }
}

/// The matching slice of a timestamp-sorted buffer is itself sorted.
proof fn lemma_matching_rows_sorted(
    s: Seq<(u64, StructuredMessage)>,
    channel_id: Seq<char>,
    user_id: Option<Seq<char>>,
    from: u64,
    to: u64,
)
    requires
        forall|i: int, j: int|
            0 <= i < j < s.len() ==> #[trigger] s[i].1.timestamp <= #[trigger] s[j].1.timestamp,
    ensures
        sorted_models(matching_rows(s, channel_id, user_id, from, to), false),
    decreases s.len(),
{
    if s.len() > 0 {
        let sp = s.drop_last();
        assert forall|i: int, j: int| 0 <= i < j < sp.len() implies #[trigger] sp[i].1.timestamp
            <= #[trigger] sp[j].1.timestamp by {
            assert(sp[i] == s[i]);
            assert(sp[j] == s[j]);
        }
        lemma_matching_rows_sorted(sp, channel_id, user_id, from, to);
        let m = matching_rows(s, channel_id, user_id, from, to);
        let prev = matching_rows(sp, channel_id, user_id, from, to);
        assert forall|i: int, j: int| 0 <= i < j < m.len() implies #[trigger] m[i].timestamp
            <= #[trigger] m[j].timestamp by {
            if j < prev.len() {
                assert(m[i] == prev[i]);
                assert(m[j] == prev[j]);
            } else if i < prev.len() {
                assert(m[i] == prev[i]);
                assert(m[j] == s.last().1@);
                lemma_matching_member_ts(sp, channel_id, user_id, from, to, i);
                let w = choose|w: int|
                    0 <= w < sp.len() && prev[i].timestamp == sp[w].1.timestamp;
                assert(sp[w] == s[w]);
                assert(s[w].1.timestamp <= s[s.len() - 1].1.timestamp);
            }
        }
    }
}

/// Reversing an ascending sequence yields a descending one.
proof fn lemma_reverse_sorted(x: Seq<RowModel>)
    requires
        sorted_models(x, false),
    ensures
        sorted_models(x.reverse(), true),
{
    assert forall|i: int, j: int|
        0 <= i < j < x.reverse().len() implies #[trigger] x.reverse()[i].timestamp
        >= #[trigger] x.reverse()[j].timestamp by {
        assert(x.reverse()[i] == x[x.len() - 1 - i]);
        assert(x.reverse()[j] == x[x.len() - 1 - j]);
    }
}


/// The staging buffer. Entries are held sorted by timestamp and carry
/// the batch they arrived in; a batch is evicted as one unit once the
/// store confirms it, so a reader sees either the pre-eviction or the
/// post-eviction state, never a partial batch. The process shares one
/// buffer behind a lock; no method of it blocks.
pub struct FlushBuffer {
    entries: Vec<(u64, StructuredMessage)>,
    next_batch: u64,
}

impl View for FlushBuffer {
    type V = Seq<(u64, StructuredMessage)>;

    closed spec fn view(&self) -> Seq<(u64, StructuredMessage)> {
        self.entries@
    }
}

impl FlushBuffer {
    /// The batch identifier the next acceptance will use.
    pub closed spec fn next_batch_id(&self) -> u64 {
        self.next_batch
    }

    /// The buffer invariant: entries sorted by timestamp, ascending.
    pub open spec fn wf(&self) -> bool {
        forall|i: int, j: int|
            0 <= i < j < self@.len() ==> #[trigger] self@[i].1.timestamp
                <= #[trigger] self@[j].1.timestamp
    }

    /// An empty buffer.
    pub fn new() -> (r: FlushBuffer)
        ensures
            r@.len() == 0,
            r.next_batch_id() == 0,
            r.wf(),
    {
        FlushBuffer { entries: Vec::new(), next_batch: 0 }
    }

    /// Inserts one row at its sorted position.
    fn insert_sorted(&mut self, batch: u64, row: StructuredMessage)
        requires
            old(self).wf(),
        ensures
            final(self).wf(),
            final(self)@.to_multiset() == old(self)@.to_multiset().insert((batch, row)),
            final(self).next_batch_id() == old(self).next_batch_id(),
            final(self)@.len() == old(self)@.len() + 1,
    {
        let mut idx: usize = 0;
        while idx < self.entries.len() && entry_ts_at_most(&self.entries, idx, row.timestamp)
            invariant
                idx <= self.entries@.len(),
                forall|j: int| 0 <= j < idx ==> #[trigger] self.entries@[j].1.timestamp
                    <= row.timestamp,
            decreases self.entries@.len() - idx,
        {
            idx = idx + 1;
        }
        proof {
            lemma_to_multiset_insert(self.entries@, idx as int, (batch, row));
        }
        let ghost pre = self.entries@;
        self.entries.insert(idx, (batch, row));
        proof {
            assert forall|i: int, j: int| 0 <= i < j < self.entries@.len() implies #[trigger] self
                .entries@[i].1.timestamp <= #[trigger] self.entries@[j].1.timestamp by {
                if j < idx {
                } else if i < idx && j == idx {
                } else if i == idx && j > idx {
                    assert(pre[j - 1].1.timestamp >= pre[idx as int].1.timestamp);
                } else if i > idx || (i < idx && j > idx) {
                }
            }
        }
    }

    /// Accepts one batch of rows: every row enters the buffer under a
    /// fresh batch identifier, which is returned for the later
    /// eviction.
    pub fn accept(&mut self, rows: Vec<StructuredMessage>) -> (batch: u64)
        requires
            old(self).wf(),
            old(self).next_batch_id() < u64::MAX,
        ensures
            final(self).wf(),
            batch == old(self).next_batch_id(),
            final(self).next_batch_id() == batch + 1,
            final(self)@.to_multiset() == old(self)@.to_multiset().add(
                rows@.map_values(|r: StructuredMessage| (batch, r)).to_multiset(),
            ),
    {
        broadcast use vstd::seq_lib::group_to_multiset_ensures;
        broadcast use vstd::multiset::group_multiset_axioms;

        let batch = self.next_batch;
        self.next_batch = self.next_batch + 1;
        let mut rows = rows;
        let ghost all = rows@;
        proof {
            assert(all.take(all.len() as int) =~= all);
            assert(all.skip(all.len() as int) =~= Seq::<StructuredMessage>::empty());
            assert(all.skip(all.len() as int).map_values(|r: StructuredMessage| (batch, r))
                =~= Seq::<(u64, StructuredMessage)>::empty());
            assert(Seq::<(u64, StructuredMessage)>::empty().to_multiset() =~= Multiset::<
                (u64, StructuredMessage),
            >::empty());
            assert(self@.to_multiset() =~= old(self)@.to_multiset().add(Multiset::<
                (u64, StructuredMessage),
            >::empty()));
        }
        while rows.len() > 0
            invariant
                self.wf(),
                self.next_batch_id() == batch + 1,
                self@.to_multiset() == old(self)@.to_multiset().add(
                    all.skip(rows@.len() as int).map_values(
                        |r: StructuredMessage| (batch, r),
                    ).to_multiset(),
                ),
                rows@ == all.take(rows@.len() as int),
                rows@.len() <= all.len(),
            decreases rows@.len(),
        {
            let ghost k = rows@.len() as int;
            let popped = rows.pop();
            let row = popped.unwrap();
            proof {
                broadcast use vstd::seq_lib::group_to_multiset_ensures;
                broadcast use vstd::multiset::group_multiset_axioms;

                assert(row == all[k - 1]);
                assert(rows@ =~= all.take(k - 1));
                let tail_pre = all.skip(k).map_values(|r: StructuredMessage| (batch, r));
                let tail_post = all.skip(k - 1).map_values(|r: StructuredMessage| (batch, r));
                assert(all.skip(k - 1) =~= seq![all[k - 1]] + all.skip(k));
                assert(tail_post =~= seq![(batch, all[k - 1])] + tail_pre);
                lemma_multiset_commutative(seq![(batch, all[k - 1])], tail_pre);
                assert(seq![(batch, all[k - 1])] =~= Seq::<(u64, StructuredMessage)>::empty().push(
                    (batch, all[k - 1]),
                ));
            }
            self.insert_sorted(batch, row);
            proof {
                broadcast use vstd::seq_lib::group_to_multiset_ensures;
                broadcast use vstd::multiset::group_multiset_axioms;

                assert(self@.to_multiset() =~= old(self)@.to_multiset().add(
                    all.skip(rows@.len() as int).map_values(
                        |r: StructuredMessage| (batch, r),
                    ).to_multiset(),
                ));
            }
        }
        proof {
            assert(all.skip(0) =~= all);
        }
        batch
    }

    /// Evicts one confirmed batch: exactly its entries leave, in one
    /// step, and everything else stays in order.
    pub fn evict(&mut self, batch: u64)
        requires
            old(self).wf(),
        ensures
            final(self).wf(),
            final(self)@ == keep_entries(old(self)@, batch),
            final(self).next_batch_id() == old(self).next_batch_id(),
    {
        let ghost orig = self.entries@;
        let mut i: usize = 0;
        let mut gk: Ghost<int> = Ghost(0);
        while i < self.entries.len()
            invariant
                0 <= gk@ <= orig.len(),
                i <= self.entries@.len(),
                self.entries@ =~= self.entries@.take(i as int) + orig.skip(gk@),
                self.entries@.take(i as int) == keep_entries(orig.take(gk@), batch),
                forall|j: int| 0 <= j < i ==> #[trigger] self.entries@[j].0 != batch,
                self.wf(),
                self.next_batch_id() == old(self).next_batch_id(),
            decreases orig.len() - gk@,
        {
            let ghost pre = self.entries@;
            proof {
                assert(pre[i as int] == orig.skip(gk@)[0]);
                assert(orig.skip(gk@)[0] == orig[gk@]);
                assert(orig.take(gk@ + 1).drop_last() =~= orig.take(gk@));
                assert(orig.take(gk@ + 1).last() == orig[gk@]);
            }
            if self.entries[i].0 == batch {
                self.entries.remove(i);
                proof {
                    assert(self.entries@ =~= pre.take(i as int) + orig.skip(gk@ + 1));
                    assert(self.entries@.take(i as int) =~= pre.take(i as int));
                    assert(keep_entries(orig.take(gk@ + 1), batch) == keep_entries(
                        orig.take(gk@),
                        batch,
                    ));
                }
            } else {
                proof {
                    assert(keep_entries(orig.take(gk@ + 1), batch) == keep_entries(
                        orig.take(gk@),
                        batch,
                    ) + seq![orig[gk@]]);
                    assert(pre.take(i + 1) =~= pre.take(i as int) + seq![orig[gk@]]);
                    assert(pre =~= pre.take(i + 1) + orig.skip(gk@ + 1));
                }
                i = i + 1;
            }
            proof {
                gk@ = gk@ + 1;
            }
        }
        proof {
            assert(orig.take(gk@) =~= orig);
            assert(self.entries@.take(i as int) =~= self.entries@);
        }
    }

    /// The matching slice for one query: exactly the buffered rows in
    /// the query's scope and range, ordered as the query asks, with the
    /// caller's paging carried alongside.
    pub fn merge_for_query(
        &self,
        channel_id: &str,
        user_id: Option<&str>,
        from: u64,
        to: u64,
        params: LogsParams,
    ) -> (slice: BufferSlice)
        requires
            self.wf(),
        ensures
            slice.limit == params.limit,
            slice.offset == params.offset,
            sorted_models(row_views(slice.rows@), params.reverse),
            row_views(slice.rows@) == (if params.reverse {
                matching_rows(
                    self@,
                    channel_id@,
                    match user_id {
                        Some(u) => Some(u@),
                        None => None,
                    },
                    from,
                    to,
                ).reverse()
            } else {
                matching_rows(
                    self@,
                    channel_id@,
                    match user_id {
                        Some(u) => Some(u@),
                        None => None,
                    },
                    from,
                    to,
                )
            }),
    {
        let ghost uid: Option<Seq<char>> = match user_id {
            Some(u) => Some(u@),
            None => None,
        };
        let mut forward: Vec<StructuredMessage> = Vec::new();
        let mut i: usize = 0;
        proof {
            assert(self@.take(0) =~= Seq::<(u64, StructuredMessage)>::empty());
            assert(row_views(forward@) =~= matching_rows(self@.take(0), channel_id@, uid, from, to));
        }
        while i < self.entries.len()
            invariant
                i <= self.entries@.len(),
                self@ == self.entries@,
                uid == (match user_id {
                    Some(u) => Some(u@),
                    None => None::<Seq<char>>,
                }),
                row_views(forward@) == matching_rows(self@.take(i as int), channel_id@, uid, from, to),
            decreases self.entries@.len() - i,
        {
            proof {
                assert(self@.take(i + 1).drop_last() =~= self@.take(i as int));
                assert(self@.take(i + 1).last() == self@[i as int]);
            }
            let m = &self.entries[i].1;
            proof {
                assert(*m == self@[i as int].1);
                assert(m@ == self@[i as int].1@);
            }
            let user_ok: bool = match user_id {
                Some(u) => {
                    let b = str_eq(m.user_id.as_str(), u);
                    proof {
                        assert(user_id == Some(u));
                        assert(uid == Some(u@));
                        assert(b == (match uid {
                            Some(us) => m@.user_id == us,
                            None => true,
                        }));
                    }
                    b
                },
                None => true,
            };
            let scope_ok = str_eq(m.channel_id.as_str(), channel_id) && user_ok;
            if scope_ok && from <= m.timestamp && m.timestamp < to {
                let ghost pre = forward@;
                proof {
                    assert(m@.channel_id == channel_id@);
                    assert(match uid {
                        Some(u) => m@.user_id == u,
                        None => true,
                    });
                    assert(from <= m@.timestamp < to);
                    assert(row_in_scope(self@[i as int].1@, channel_id@, uid, from, to));
                }
                forward.push(m.duplicate());
                proof {
                    assert(row_views(forward@) =~= row_views(pre).push(self@[i as int].1@));
                    assert(row_views(forward@) =~= matching_rows(
                        self@.take(i + 1),
                        channel_id@,
                        uid,
                        from,
                        to,
                    ));
                }
            } else {
                proof {
                    assert(!row_in_scope(self@[i as int].1@, channel_id@, uid, from, to));
                    assert(row_views(forward@) =~= matching_rows(
                        self@.take(i + 1),
                        channel_id@,
                        uid,
                        from,
                        to,
                    ));
                }
            }
            i = i + 1;
        }
        proof {
            assert(self@.take(self@.len() as int) =~= self@);
        }
        proof {
            lemma_matching_rows_sorted(self@, channel_id@, uid, from, to);
            lemma_reverse_sorted(matching_rows(self@, channel_id@, uid, from, to));
        }
        let rows = if params.reverse {
            let mut rev: Vec<StructuredMessage> = Vec::new();
            let mut j: usize = forward.len();
            while j > 0
                invariant
                    j <= forward@.len(),
                    row_views(rev@) == row_views(forward@).skip(j as int).reverse(),
                decreases j,
            {
                j = j - 1;
                let ghost pre = rev@;
                rev.push(forward[j].duplicate());
                proof {
                    assert(row_views(rev@) =~= row_views(pre).push(row_views(forward@)[j as int]));
                    assert(row_views(rev@) =~= row_views(forward@).skip(j as int).reverse());
                }
            }
            proof {
                assert(row_views(forward@).skip(0) =~= row_views(forward@));
            }
            rev
        } else {
            forward
        };
        BufferSlice { rows, limit: params.limit, offset: params.offset }
    }
}

} // verus!

