//! Decision core of the liveness-reconciliation loop: one pass
//! paginates the active-sources listing, diffs each page against the
//! previous pass's snapshot, forwards only newly seen sources, and
//! stops paginating early on a long tail of low-signal sources or on
//! cancellation. The timer and the listing calls live outside; this
//! module holds every decision, verified.

use vstd::prelude::*;

use crate::text::str_eq;

verus! {

/// The durable record written for one newly observed live session.
#[derive(Debug, Clone, PartialEq, Eq)]
pub struct Stream {
    pub channel_id: String,
    pub stream_id: String,
    pub started_at: u32,
}

/// The mathematical view of a stream record.
pub struct StreamModel {
    pub channel_id: Seq<char>,
    pub stream_id: Seq<char>,
    pub started_at: u32,
}

impl View for Stream {
    type V = StreamModel;

    open spec fn view(&self) -> StreamModel {
        StreamModel {
            channel_id: self.channel_id@,
            stream_id: self.stream_id@,
            started_at: self.started_at,
        }
    }
}

/// Views of a vector of stream records.
pub open spec fn stream_views(v: Seq<Stream>) -> Seq<StreamModel> {
    v.map_values(|s: Stream| s@)
}

/// One item of the active-sources listing, reduced to the plain values
/// the decisions read.
#[derive(Debug, Clone, PartialEq, Eq)]
pub struct LiveSource {
    pub id: String,
    pub channel_id: String,
    pub started_at: u32,
    pub viewer_count: u64,
}

/// A source counts as low-signal below this activity level.
pub const LOW_SIGNAL_VIEWERS: u64 = 2;

/// Pagination stops once a page holds more than this many low-signal
/// sources.
pub const LOW_SIGNAL_CUTOFF: u64 = 50;

/// The two snapshots a pass works with: the identifiers seen in the
/// previous completed pass, and those seen so far in this one.
pub struct PassState {
    pub last: Vec<String>,
    pub current: Vec<String>,
}

/// Whether a sequence of owned strings contains `x`.
pub open spec fn seq_contains_str(s: Seq<String>, x: Seq<char>) -> bool {
    exists|i: int| 0 <= i < s.len() && s[i]@ == x
}

/// Membership scan.
pub fn vec_contains_str(v: &Vec<String>, x: &str) -> (r: bool)
    ensures
        r == seq_contains_str(v@, x@),
{
    let mut i: usize = 0;
    while i < v.len()
        invariant
            i <= v@.len(),
            forall|j: int| 0 <= j < i ==> v@[j]@ != x@,
        decreases v@.len() - i,
    {
        if str_eq(v[i].as_str(), x) {
            return true;
        }
        i = i + 1;
    }
    false
}

/// How many items of the page are low-signal.
pub open spec fn low_signal_count(items: Seq<LiveSource>) -> int
    decreases items.len(),
{
    if items.len() == 0 {
        0
    } else {
        low_signal_count(items.drop_last()) + (if items.last().viewer_count < LOW_SIGNAL_VIEWERS {
            1int
        } else {
            0int
        })
    }
}

/// The batch one page contributes: every item whose identifier was not
/// seen in the previous pass, in page order, as a durable record.
pub open spec fn new_streams_of(items: Seq<LiveSource>, last: Seq<String>) -> Seq<StreamModel>
    decreases items.len(),
{
    if items.len() == 0 {
        Seq::empty()
    } else {
        new_streams_of(items.drop_last(), last) + (if !seq_contains_str(last, items.last().id@) {
            seq![
                StreamModel {
                    channel_id: items.last().channel_id@,
                    stream_id: items.last().id@,
                    started_at: items.last().started_at,
                },
            ]
        } else {
            Seq::empty()
        })
    }
}

/// The current-pass snapshot after one page: each identifier inserted
/// once, in first-seen order.
pub open spec fn insert_ids(current: Seq<String>, items: Seq<LiveSource>) -> Seq<Seq<char>>
    decreases items.len(),
{
    if items.len() == 0 {
        current.map_values(|s: String| s@)
    } else {
        let prev = insert_ids(current, items.drop_last());
        if prev.contains(items.last().id@) {
            prev
        } else {
            prev.push(items.last().id@)
        }
    }
}

/// Views of the identifiers of a snapshot.
pub open spec fn ids_view(v: Seq<String>) -> Seq<Seq<char>> {
    v.map_values(|s: String| s@)
}

/// Processes one page of the listing: records every identifier in the
/// current snapshot, counts the page's low-signal items, and converts
/// each source unseen in the previous pass into a durable record. The
/// second result says whether pagination must stop: no next page, the
/// page's low-signal count above the cutoff, or cancellation.
pub fn process_page(state: &mut PassState, items: &Vec<LiveSource>, has_next: bool, cancelled: bool)
    -> (r: (Vec<Stream>, bool))
    ensures
        final(state).last == old(state).last,
        ids_view(final(state).current@) == insert_ids(old(state).current@, items@),
        stream_views(r.0@) == new_streams_of(items@, old(state).last@),
        r.1 == (!has_next || low_signal_count(items@) > LOW_SIGNAL_CUTOFF || cancelled),
{
    let mut batch: Vec<Stream> = Vec::new();
    let mut small: u64 = 0;
    let mut i: usize = 0;
    proof {
        assert(items@.take(0) =~= Seq::<LiveSource>::empty());
        assert(stream_views(batch@) =~= new_streams_of(items@.take(0), old(state).last@));
        assert(ids_view(state.current@) =~= insert_ids(old(state).current@, items@.take(0)));
    }
    while i < items.len()
        invariant
            i <= items@.len(),
            small <= i,
            state.last == old(state).last,
            ids_view(state.current@) == insert_ids(old(state).current@, items@.take(i as int)),
            stream_views(batch@) == new_streams_of(items@.take(i as int), old(state).last@),
            small == low_signal_count(items@.take(i as int)),
        decreases items@.len() - i,
    {
        let ghost pre_current = state.current@;
        let ghost pre_batch = batch@;
        proof {
            assert(items@.take(i + 1).drop_last() =~= items@.take(i as int));
            assert(items@.take(i + 1).last() == items@[i as int]);
        }
        let item = &items[i];
        if !vec_contains_str(&state.current, item.id.as_str()) {
            proof {
                assert forall|k: int| 0 <= k < ids_view(pre_current).len() implies ids_view(
                    pre_current,
                )[k] != item.id@ by {
                    assert(ids_view(pre_current)[k] == pre_current[k]@);
                }
            }
            state.current.push(item.id.clone());
            proof {
                assert(ids_view(state.current@) =~= ids_view(pre_current).push(item.id@));
            }
        } else {
            proof {
                let w = choose|k: int| 0 <= k < pre_current.len() && pre_current[k]@ == item.id@;
                assert(ids_view(pre_current)[w] == item.id@);
                assert(ids_view(pre_current).contains(item.id@));
            }
        }
        if item.viewer_count < LOW_SIGNAL_VIEWERS {
            small = small + 1;
        }
        if !vec_contains_str(&state.last, item.id.as_str()) {
            batch.push(
                Stream {
                    channel_id: item.channel_id.clone(),
                    stream_id: item.id.clone(),
                    started_at: item.started_at,
                },
            );
            proof {
                assert(stream_views(batch@) =~= stream_views(pre_batch).push(
                    StreamModel {
                        channel_id: item.channel_id@,
                        stream_id: item.id@,
                        started_at: item.started_at,
                    },
                ));
                assert(stream_views(batch@) =~= new_streams_of(
                    items@.take(i + 1),
                    old(state).last@,
                ));
            }
        } else {
            proof {
                assert(stream_views(batch@) =~= new_streams_of(
                    items@.take(i + 1),
                    old(state).last@,
                ));
            }
        }
        i = i + 1;
    }
    proof {
        assert(items@.take(items@.len() as int) =~= items@);
    }
    let stop = !has_next || small > LOW_SIGNAL_CUTOFF || cancelled;
    (batch, stop)
}

/// Ends one pass: the current snapshot becomes the previous one and a
/// fresh, empty current snapshot begins, however the pass ended.
pub fn finish_pass(state: &mut PassState)
    ensures
        final(state).last@ == old(state).current@,
        final(state).current@.len() == 0,
{
    let mut cur: Vec<String> = Vec::new();
    core::mem::swap(&mut state.current, &mut cur);
    state.last = cur;
}

/// The next wait before polling again: the configured interval after a
/// successful pass, three times that after a failed one.
pub fn next_poll_delay(request_interval: u64, success: bool) -> (r: u64)
    requires
        request_interval <= u64::MAX / 3,
    ensures
        success ==> r == request_interval,
        !success ==> r == 3 * request_interval,
{
    if success {
        request_interval
    } else {
        request_interval * 3
    }
}

} // verus!
