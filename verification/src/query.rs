//! The query engine: turns a read request into one or more bounded
//! store queries and stitches store rows and the staging-buffer slice
//! into one ordered sequence. Ranges longer than one window become a
//! probe plus one query per 14-day window; point reads draw one
//! uniform offset; search reads never merge the buffer.

use vstd::prelude::*;

use vstd::seq_lib::lemma_multiset_commutative;

use crate::Error;
use crate::buffer::BufferSlice;
use crate::buffer::sorted_models;
use crate::schema::RowModel;
use crate::schema::StructuredMessage;
use crate::schema::row_views;
use crate::text::dec_digits;
use crate::text::push_dec;
use crate::text::str_eq;
use crate::web::ChannelLogsStats;
use crate::web::LogsParams;
use crate::web::UserHasLogs;
use crate::web::UserLogsStats;

verus! {

/// One window is fourteen days, in milliseconds.
pub const WINDOW_MS: u64 = 14 * 24 * 60 * 60 * 1000;

/// One bounded store query: a scope, a half-open time range, an
/// ordering, and the paging pushed into the query text.
pub struct StoreQuery {
    pub channel_id: String,
    pub user_id: Option<String>,
    pub from_ms: u64,
    pub to_ms: u64,
    pub reverse: bool,
    pub limit: Option<u64>,
    pub offset: Option<u64>,
}

/// The plan of a channel read: one query for a short range, or a
/// cheap existence probe plus one query per window for a long one.
pub enum ChannelReadPlan {
    Single(StoreQuery),
    Multi { probe_from: u64, probe_to: u64, windows: Vec<StoreQuery> },
}

/// The consecutive windows covering `[from, to)`: full-length windows,
/// the last one cut at `to`.
pub open spec fn window_bounds_spec(from: u64, to: u64) -> Seq<(u64, u64)>
    decreases to - from when from < to
{
    if to - from <= WINDOW_MS {
        seq![(from, to)]
    } else {
        seq![(from, (from + WINDOW_MS) as u64)] + window_bounds_spec((from + WINDOW_MS) as u64, to)
    }
}

/// Splits `[from, to)` into its windows.
pub fn partition_windows(from: u64, to: u64) -> (w: Vec<(u64, u64)>)
    requires
        from < to,
    ensures
        w@ == window_bounds_spec(from, to),
    decreases to - from,
{
    if to - from <= WINDOW_MS {
        let mut w: Vec<(u64, u64)> = Vec::new();
        w.push((from, to));
        proof {
            assert(w@ =~= window_bounds_spec(from, to));
        }
        w
    } else {
        let mut w = partition_windows(from + WINDOW_MS, to);
        w.insert(0, (from, from + WINDOW_MS));
        proof {
            assert(w@ =~= window_bounds_spec(from, to));
        }
        w
    }
}

/// The window partition covers `[from, to)` exactly: `ceil(L / W)`
/// windows, consecutive and non-overlapping, every window non-empty
/// and at most one window long, all but the last exactly one window
/// long, the first starting at `from` and the last ending at `to`.
pub proof fn lemma_window_partition(from: u64, to: u64)
    requires
        from < to,
    ensures
        window_bounds_spec(from, to).len() == ((to - from - 1) / (WINDOW_MS as int)) + 1,
        window_bounds_spec(from, to)[0].0 == from,
        window_bounds_spec(from, to).last().1 == to,
        forall|i: int|
            0 <= i < window_bounds_spec(from, to).len() - 1 ==> (#[trigger] window_bounds_spec(
                from,
                to,
            )[i]).1 == window_bounds_spec(from, to)[i + 1].0,
        forall|i: int|
            0 <= i < window_bounds_spec(from, to).len() ==> (#[trigger] window_bounds_spec(
                from,
                to,
            )[i]).0 < window_bounds_spec(from, to)[i].1 && window_bounds_spec(from, to)[i].1
                - window_bounds_spec(from, to)[i].0 <= WINDOW_MS,
        forall|i: int|
            0 <= i < window_bounds_spec(from, to).len() - 1 ==> (#[trigger] window_bounds_spec(
                from,
                to,
            )[i]).1 - window_bounds_spec(from, to)[i].0 == WINDOW_MS,
    decreases to - from,
{
    let w = window_bounds_spec(from, to);
    if to - from <= WINDOW_MS {
        assert(w.len() == 1);
        assert((to - from - 1) / (WINDOW_MS as int) == 0) by (nonlinear_arith)
            requires
                0 <= to - from - 1 < WINDOW_MS,
        ;
    } else {
        lemma_window_partition((from + WINDOW_MS) as u64, to);
        let rest = window_bounds_spec((from + WINDOW_MS) as u64, to);
        assert(w =~= seq![(from, (from + WINDOW_MS) as u64)] + rest);
        assert((to - from - 1) / (WINDOW_MS as int) == (to - from - WINDOW_MS - 1) / (
        WINDOW_MS as int) + 1) by (nonlinear_arith)
            requires
                to - from - 1 >= WINDOW_MS,
                WINDOW_MS > 0,
        ;
        assert forall|i: int| 0 <= i < w.len() - 1 implies (#[trigger] w[i]).1 == w[i + 1].0 by {
            if i > 0 {
                assert(w[i] == rest[i - 1]);
                assert(w[i + 1] == rest[i]);
            } else {
                assert(w[1] == rest[0]);
            }
        }
        assert forall|i: int| 0 <= i < w.len() implies (#[trigger] w[i]).0 < w[i].1 && w[i].1
            - w[i].0 <= WINDOW_MS by {
            if i > 0 {
                assert(w[i] == rest[i - 1]);
            }
        }
        assert forall|i: int| 0 <= i < w.len() - 1 implies (#[trigger] w[i]).1 - w[i].0
            == WINDOW_MS by {
            if i > 0 {
                assert(w[i] == rest[i - 1]);
            }
        }
    }
}

/// The time bounds of a list of store queries.
pub open spec fn query_bounds(qs: Seq<StoreQuery>) -> Seq<(u64, u64)> {
    qs.map_values(|q: StoreQuery| (q.from_ms, q.to_ms))
}

/// Every query of a window list shares the read's scope and ordering
/// and pushes no paging.
pub open spec fn window_queries_wf(qs: Seq<StoreQuery>, channel_id: Seq<char>, reverse: bool) -> bool {
    forall|i: int|
        0 <= i < qs.len() ==> (#[trigger] qs[i]).channel_id@ == channel_id && qs[i].user_id is None
            && qs[i].reverse == reverse && qs[i].limit is None && qs[i].offset is None
}

/// Plans a channel read. A range of at most one window becomes one
/// store query carrying the scope, the range, the ordering and the
/// paging (pushed to the store only when the buffer slice is empty).
/// A longer range becomes an existence probe over the whole range plus
/// one paging-free query per window — in window order for ascending
/// reads, newest window first for descending ones.
pub fn plan_channel_read(
    channel_id: &str,
    params: LogsParams,
    from: u64,
    to: u64,
    slice: &BufferSlice,
) -> (r: ChannelReadPlan)
    requires
        from < to,
    ensures
        (to - from > WINDOW_MS) <==> (r is Multi),
        r matches ChannelReadPlan::Single(q) ==> q.channel_id@ == channel_id@ && q.user_id is None
            && q.from_ms == from && q.to_ms == to && q.reverse == params.reverse && q.limit == (
        if slice.rows@.len() == 0 {
            slice.limit
        } else {
            None::<u64>
        }) && q.offset == (if slice.rows@.len() == 0 {
            slice.offset
        } else {
            None::<u64>
        }),
        r matches ChannelReadPlan::Multi { probe_from, probe_to, windows } ==> probe_from == from
            && probe_to == to && query_bounds(windows@) == (if params.reverse {
            window_bounds_spec(from, to).reverse()
        } else {
            window_bounds_spec(from, to)
        }) && window_queries_wf(windows@, channel_id@, params.reverse),
{
    if to - from > WINDOW_MS {
        let bounds = partition_windows(from, to);
        let mut windows: Vec<StoreQuery> = Vec::new();
        if params.reverse {
            let mut j: usize = bounds.len();
            while j > 0
                invariant
                    j <= bounds@.len(),
                    bounds@ == window_bounds_spec(from, to),
                    query_bounds(windows@) == bounds@.skip(j as int).reverse(),
                    window_queries_wf(windows@, channel_id@, params.reverse),
                    params.reverse,
                decreases j,
            {
                j = j - 1;
                let ghost pre = windows@;
                windows.push(
                    StoreQuery {
                        channel_id: String::from_str(channel_id),
                        user_id: None,
                        from_ms: bounds[j].0,
                        to_ms: bounds[j].1,
                        reverse: params.reverse,
                        limit: None,
                        offset: None,
                    },
                );
                proof {
                    assert(query_bounds(windows@) =~= query_bounds(pre).push(
                        (bounds@[j as int].0, bounds@[j as int].1),
                    ));
                    assert(bounds@[j as int] == (bounds@[j as int].0, bounds@[j as int].1));
                    assert(query_bounds(windows@) =~= bounds@.skip(j as int).reverse());
                }
            }
            proof {
                assert(bounds@.skip(0) =~= bounds@);
            }
        } else {
            let mut j: usize = 0;
            while j < bounds.len()
                invariant
                    j <= bounds@.len(),
                    bounds@ == window_bounds_spec(from, to),
                    query_bounds(windows@) == bounds@.take(j as int),
                    window_queries_wf(windows@, channel_id@, params.reverse),
                decreases bounds@.len() - j,
            {
                let ghost pre = windows@;
                windows.push(
                    StoreQuery {
                        channel_id: String::from_str(channel_id),
                        user_id: None,
                        from_ms: bounds[j].0,
                        to_ms: bounds[j].1,
                        reverse: params.reverse,
                        limit: None,
                        offset: None,
                    },
                );
                j = j + 1;
                proof {
                    assert(query_bounds(windows@) =~= query_bounds(pre).push(
                        (bounds@[j - 1].0, bounds@[j - 1].1),
                    ));
                    assert(bounds@[j - 1] == (bounds@[j - 1].0, bounds@[j - 1].1));
                    assert(query_bounds(windows@) =~= bounds@.take(j as int));
                }
            }
            proof {
                assert(bounds@.take(bounds@.len() as int) =~= bounds@);
            }
        }
        ChannelReadPlan::Multi { probe_from: from, probe_to: to, windows }
    } else {
        ChannelReadPlan::Single(
            StoreQuery {
                channel_id: String::from_str(channel_id),
                user_id: None,
                from_ms: from,
                to_ms: to,
                reverse: params.reverse,
                limit: slice.normalized_limit(),
                offset: slice.normalized_offset(),
            },
        )
    }
}

/// Plans a user-scoped read: always a single bounded query.
pub fn plan_user_read(
    channel_id: &str,
    user_id: &str,
    params: LogsParams,
    from: u64,
    to: u64,
    slice: &BufferSlice,
) -> (q: StoreQuery)
    requires
        from < to,
    ensures
        q.channel_id@ == channel_id@,
        q.user_id matches Some(u) && u@ == user_id@,
        q.from_ms == from,
        q.to_ms == to,
        q.reverse == params.reverse,
        q.limit == (if slice.rows@.len() == 0 {
            slice.limit
        } else {
            None::<u64>
        }),
        q.offset == (if slice.rows@.len() == 0 {
            slice.offset
        } else {
            None::<u64>
        }),
{
    StoreQuery {
        channel_id: String::from_str(channel_id),
        user_id: Some(String::from_str(user_id)),
        from_ms: from,
        to_ms: to,
        reverse: params.reverse,
        limit: slice.normalized_limit(),
        offset: slice.normalized_offset(),
    }
}

/// A full-text search query: scope, case-insensitive needle, ordering
/// and paging. Search reads never merge the staging buffer: they are
/// defined over durable history only.
pub struct SearchQuery {
    pub channel_id: String,
    pub user_id: String,
    pub text: String,
    pub reverse: bool,
    pub limit: Option<u64>,
    pub offset: Option<u64>,
}

/// Plans a search read. The paging is always pushed to the store,
/// since no buffer slice takes part.
pub fn plan_search_read(channel_id: &str, user_id: &str, search: &str, params: LogsParams) -> (q:
    SearchQuery)
    ensures
        q.channel_id@ == channel_id@,
        q.user_id@ == user_id@,
        q.text@ == search@,
        q.reverse == params.reverse,
        q.limit == params.limit,
        q.offset == params.offset,
{
    SearchQuery {
        channel_id: String::from_str(channel_id),
        user_id: String::from_str(user_id),
        text: String::from_str(search),
        reverse: params.reverse,
        limit: params.limit,
        offset: params.offset,
    }
}

/// Whether a long-range read may open its window cursors: a scope with
/// no row at all fails immediately instead.
pub fn probe_result(count: u64) -> (r: Result<(), Error>)
    ensures
        count == 0 <==> r is Err,
        r is Err ==> r == Err::<(), Error>(Error::NotFound),
{
    if count == 0 {
        Err(Error::NotFound)
    } else {
        Ok(())
    }
}

/// Relies on `rand::random_range` over `0..count`: a uniform draw,
/// defined whenever the range is non-empty.
#[verifier::external_body]
fn draw_offset(count: u64) -> (r: u64)
    requires
        count > 0,
    ensures
        r < count,
{
    rand::random_range(0..count)
}

/// Plans a point read over a scope holding `count` rows: an empty
/// scope is `NotFound`, never a default row; otherwise one uniformly
/// drawn offset below the count.
pub fn plan_random_read(count: u64) -> (r: Result<u64, Error>)
    ensures
        count == 0 <==> r is Err,
        r is Err ==> r == Err::<u64, Error>(Error::NotFound),
        r matches Ok(o) ==> o < count,
{
    if count == 0 {
        return Err(Error::NotFound);
    }
    Ok(draw_offset(count))
}

/// The concatenation of the per-window row lists, window order kept.
pub open spec fn concat_vecs(parts: Seq<Vec<StructuredMessage>>) -> Seq<StructuredMessage>
    decreases parts.len(),
{
    if parts.len() == 0 {
        Seq::empty()
    } else {
        parts[0]@ + concat_vecs(parts.drop_first())
    }
}

/// Concatenates the per-window row lists.
pub fn concat_parts(parts: Vec<Vec<StructuredMessage>>) -> (out: Vec<StructuredMessage>)
    ensures
        out@ == concat_vecs(parts@),
{
    let mut parts = parts;
    let ghost all = parts@;
    let mut out: Vec<StructuredMessage> = Vec::new();
    proof {
        assert(concat_vecs(all) =~= out@ + concat_vecs(parts@));
    }
    while parts.len() > 0
        invariant
            concat_vecs(all) == out@ + concat_vecs(parts@),
        decreases parts@.len(),
    {
        let ghost pre = parts@;
        let ghost out_pre = out@;
        let mut first = parts.remove(0);
        proof {
            assert(parts@ =~= pre.drop_first());
        }
        out.append(&mut first);
        proof {
            assert(out@ =~= out_pre + pre[0]@);
            assert(concat_vecs(pre) == pre[0]@ + concat_vecs(pre.drop_first()));
            assert(concat_vecs(all) =~= out@ + concat_vecs(parts@));
        }
    }
    proof {
        assert(out@ =~= concat_vecs(all));
    }
    out
}

/// The combined sequence a read yields before trimming: for a
/// descending read the buffered (newest) rows come first, for an
/// ascending one they come last.
pub open spec fn merged_models(store: Seq<RowModel>, slice: Seq<RowModel>, reverse: bool) -> Seq<
    RowModel,
> {
    if reverse {
        slice + store
    } else {
        store + slice
    }
}

/// Splices the buffer slice onto the store rows, per the ordering.
pub fn merge_buffer(store_rows: Vec<StructuredMessage>, slice: BufferSlice, reverse: bool) -> (out:
    Vec<StructuredMessage>)
    ensures
        row_views(out@) == merged_models(row_views(store_rows@), row_views(slice.rows@), reverse),
{
    let mut store_rows = store_rows;
    let mut slice_rows = slice.rows;
    if reverse {
        let ghost a = slice_rows@;
        let ghost b = store_rows@;
        slice_rows.append(&mut store_rows);
        proof {
            assert(row_views(slice_rows@) =~= row_views(a) + row_views(b));
        }
        slice_rows
    } else {
        let ghost a = store_rows@;
        let ghost b = slice_rows@;
        store_rows.append(&mut slice_rows);
        proof {
            assert(row_views(store_rows@) =~= row_views(a) + row_views(b));
        }
        store_rows
    }
}

/// What an offset and a limit leave of a sequence: skip up to `offset`
/// rows, then keep at most `limit`.
pub open spec fn trim_spec<T>(s: Seq<T>, offset: Option<u64>, limit: Option<u64>) -> Seq<T> {
    let o: int = match offset {
        Some(o) => if o as int <= s.len() {
            o as int
        } else {
            s.len() as int
        },
        None => 0,
    };
    let rest = s.skip(o);
    match limit {
        Some(l) => if (l as int) <= rest.len() {
            rest.take(l as int)
        } else {
            rest
        },
        None => rest,
    }
}

/// Applies an offset and a limit to an assembled row sequence.
pub fn trim_rows(rows: Vec<StructuredMessage>, offset: Option<u64>, limit: Option<u64>) -> (out:
    Vec<StructuredMessage>)
    ensures
        out@ == trim_spec(rows@, offset, limit),
{
    let mut v = rows;
    let ghost orig = v@;
    match offset {
        Some(o) => {
            let at: usize = if o <= v.len() as u64 {
                o as usize
            } else {
                v.len()
            };
            let tail = v.split_off(at);
            v = tail;
        },
        None => {},
    }
    proof {
        assert(v@ =~= orig.skip(
            match offset {
                Some(o) => if o as int <= orig.len() {
                    o as int
                } else {
                    orig.len() as int
                },
                None => 0,
            },
        ));
    }
    let ghost rest = v@;
    match limit {
        Some(l) => {
            if l < v.len() as u64 {
                v.truncate(l as usize);
                proof {
                    assert(v@ =~= rest.take(l as int));
                }
            }
        },
        None => {},
    }
    proof {
        assert(v@ =~= trim_spec(orig, offset, limit));
    }
    v
}

/// Assembles a single-window read: the store rows (already trimmed by
/// the store when the slice was empty) spliced with the buffer slice,
/// trimmed here exactly when the slice took part.
pub fn assemble_single(store_rows: Vec<StructuredMessage>, slice: BufferSlice, reverse: bool) -> (
    out: Vec<StructuredMessage>)
    ensures
        row_views(out@) == (if slice.rows@.len() == 0 {
            merged_models(row_views(store_rows@), row_views(slice.rows@), reverse)
        } else {
            trim_spec(
                merged_models(row_views(store_rows@), row_views(slice.rows@), reverse),
                slice.offset,
                slice.limit,
            )
        }),
{
    let trim_here = slice.rows.len() > 0;
    let offset = slice.offset;
    let limit = slice.limit;
    let merged = merge_buffer(store_rows, slice, reverse);
    if trim_here {
        let ghost m = merged@;
        let out = trim_rows(merged, offset, limit);
        proof {
            lemma_row_views_trim(m, offset, limit);
        }
        out
    } else {
        merged
    }
}

/// Assembles a multi-window read: the window row lists concatenated in
/// plan order, spliced with the buffer slice, and always trimmed here,
/// since window queries carry no paging.
pub fn assemble_multi(parts: Vec<Vec<StructuredMessage>>, slice: BufferSlice, reverse: bool) -> (
    out: Vec<StructuredMessage>)
    ensures
        row_views(out@) == trim_spec(
            merged_models(
                row_views(concat_vecs(parts@)),
                row_views(slice.rows@),
                reverse,
            ),
            slice.offset,
            slice.limit,
        ),
{
    let offset = slice.offset;
    let limit = slice.limit;
    let store_rows = concat_parts(parts);
    let merged = merge_buffer(store_rows, slice, reverse);
    let ghost m = merged@;
    let out = trim_rows(merged, offset, limit);
    proof {
        lemma_row_views_trim(m, offset, limit);
    }
    out
}

/// Trimming commutes with taking row views.
proof fn lemma_row_views_trim(s: Seq<StructuredMessage>, offset: Option<u64>, limit: Option<u64>)
    ensures
        row_views(trim_spec(s, offset, limit)) == trim_spec(row_views(s), offset, limit),
{
    assert(row_views(trim_spec(s, offset, limit)) =~= trim_spec(row_views(s), offset, limit));
}

/// The concatenation of per-window model sequences.
pub open spec fn concat_models(parts: Seq<Seq<RowModel>>) -> Seq<RowModel>
    decreases parts.len(),
{
    if parts.len() == 0 {
        Seq::empty()
    } else {
        parts[0] + concat_models(parts.drop_first())
    }
}

/// Every row of a concatenation comes from one of its parts.
proof fn lemma_concat_models_index(parts: Seq<Seq<RowModel>>, n: int)
    requires
        0 <= n < concat_models(parts).len(),
    ensures
        exists|k: int, j: int|
            0 <= k < parts.len() && 0 <= j < parts[k].len() && concat_models(parts)[n]
                == parts[k][j],
    decreases parts.len(),
{
    if parts.len() > 0 {
        if n < parts[0].len() {
            assert(concat_models(parts)[n] == parts[0][n]);
        } else {
            lemma_concat_models_index(parts.drop_first(), n - parts[0].len());
            let (k0, j0) = choose|k0: int, j0: int|
                0 <= k0 < parts.drop_first().len() && 0 <= j0 < parts.drop_first()[k0].len()
                    && concat_models(parts.drop_first())[n - parts[0].len()]
                    == parts.drop_first()[k0][j0];
            assert(parts.drop_first()[k0] == parts[k0 + 1]);
            assert(concat_models(parts)[n] == parts[k0 + 1][j0]);
        }
    }
}

/// Order preservation of the window concatenation: when every window's
/// rows are ordered the requested way and the windows themselves come
/// in that order (for a descending read, newest window first with all
/// its timestamps no older than any later window's), plain
/// concatenation yields one globally ordered sequence — no merge sort
/// is needed across windows.
pub proof fn lemma_window_concat_order(parts: Seq<Seq<RowModel>>, reverse: bool)
    requires
        forall|k: int| 0 <= k < parts.len() ==> sorted_models(#[trigger] parts[k], reverse),
        forall|k1: int, k2: int, i1: int, i2: int|
            0 <= k1 < k2 < parts.len() && 0 <= i1 < parts[k1].len() && 0 <= i2 < parts[k2].len()
                ==> (if reverse {
                (#[trigger] parts[k1][i1]).timestamp >= (#[trigger] parts[k2][i2]).timestamp
            } else {
                parts[k1][i1].timestamp <= parts[k2][i2].timestamp
            }),
    ensures
        sorted_models(concat_models(parts), reverse),
    decreases parts.len(),
{
    if parts.len() > 0 {
        let head = parts[0];
        let rest = parts.drop_first();
        assert forall|k: int| 0 <= k < rest.len() implies sorted_models(
            #[trigger] rest[k],
            reverse,
        ) by {
            assert(rest[k] == parts[k + 1]);
        }
        assert forall|k1: int, k2: int, i1: int, i2: int|
            0 <= k1 < k2 < rest.len() && 0 <= i1 < rest[k1].len() && 0 <= i2
                < rest[k2].len() implies (if reverse {
            (#[trigger] rest[k1][i1]).timestamp >= (#[trigger] rest[k2][i2]).timestamp
        } else {
            rest[k1][i1].timestamp <= rest[k2][i2].timestamp
        }) by {
            assert(rest[k1] == parts[k1 + 1]);
            assert(rest[k2] == parts[k2 + 1]);
            assert(parts[k1 + 1][i1].timestamp == rest[k1][i1].timestamp);
        }
        lemma_window_concat_order(rest, reverse);
        let whole = concat_models(parts);
        assert forall|i: int, j: int| 0 <= i < j < whole.len() implies (if reverse {
            #[trigger] whole[i].timestamp >= #[trigger] whole[j].timestamp
        } else {
            whole[i].timestamp <= whole[j].timestamp
        }) by {
            if j < head.len() {
                assert(whole[i] == head[i]);
                assert(whole[j] == head[j]);
            } else if i >= head.len() {
                assert(whole[i] == concat_models(rest)[i - head.len()]);
                assert(whole[j] == concat_models(rest)[j - head.len()]);
            } else {
                assert(whole[i] == head[i]);
                assert(whole[j] == concat_models(rest)[j - head.len()]);
                lemma_concat_models_index(rest, j - head.len());
                let (k0, j0) = choose|k0: int, j0: int|
                    0 <= k0 < rest.len() && 0 <= j0 < rest[k0].len() && concat_models(rest)[j
                        - head.len()] == rest[k0][j0];
                assert(rest[k0] == parts[k0 + 1]);
                assert(parts[0][i].timestamp == head[i].timestamp);
            }
        }
    }
}

/// The merge adds no duplicate: a row held once by the staging buffer
/// and not returned by the store appears exactly once in the combined
/// sequence — deduplication is the flush/eviction contract's job, not
/// the engine's.
pub proof fn lemma_merge_no_duplicate(
    store: Seq<RowModel>,
    slice: Seq<RowModel>,
    reverse: bool,
    x: RowModel,
)
    requires
        slice.to_multiset().count(x) == 1,
        store.to_multiset().count(x) == 0,
    ensures
        merged_models(store, slice, reverse).to_multiset().count(x) == 1,
{
    broadcast use vstd::multiset::group_multiset_axioms;

    if reverse {
        lemma_multiset_commutative(slice, store);
    } else {
        lemma_multiset_commutative(store, slice);
    }
}

/// What the limit clause appends to a query text.
pub open spec fn limit_clause(slice_len: int, limit: Option<u64>) -> Seq<char> {
    match limit {
        Some(l) => if slice_len == 0 {
            " LIMIT "@ + dec_digits(l as nat)
        } else {
            Seq::empty()
        },
        None => Seq::empty(),
    }
}

/// What the offset clause appends to a query text.
pub open spec fn offset_clause(slice_len: int, offset: Option<u64>) -> Seq<char> {
    match offset {
        Some(o) => if slice_len == 0 {
            " OFFSET "@ + dec_digits(o as nat)
        } else {
            Seq::empty()
        },
        None => Seq::empty(),
    }
}

/// Appends the paging the store is to apply to a query text: the
/// caller's limit and offset, but only when the buffer slice is empty,
/// since otherwise the stream consumer trims the combined sequence.
pub fn apply_limit_offset(query: &mut String, buffer_response: &BufferSlice)
    ensures
        final(query)@ == old(query)@ + limit_clause(
            buffer_response.rows@.len() as int,
            buffer_response.limit,
        ) + offset_clause(buffer_response.rows@.len() as int, buffer_response.offset),
{
    let ghost mid = old(query)@ + limit_clause(
        buffer_response.rows@.len() as int,
        buffer_response.limit,
    );
    match buffer_response.normalized_limit() {
        Some(l) => {
            query.append(" LIMIT ");
            push_dec(query, l);
            proof {
                assert(query@ =~= mid);
            }
        },
        None => {
            proof {
                assert(query@ =~= mid);
            }
        },
    }
    match buffer_response.normalized_offset() {
        Some(o) => {
            query.append(" OFFSET ");
            push_dec(query, o);
            proof {
                assert(query@ =~= mid + offset_clause(
                    buffer_response.rows@.len() as int,
                    buffer_response.offset,
                ));
            }
        },
        None => {
            proof {
                assert(query@ =~= mid + offset_clause(
                    buffer_response.rows@.len() as int,
                    buffer_response.offset,
                ));
            }
        },
    }
}

/// The views of a user-existence answer.
pub open spec fn user_flag_views(v: Seq<UserHasLogs>) -> Seq<(Seq<char>, bool)> {
    v.map_values(|u: UserHasLogs| (u.user@, u.has_logs))
}

/// Whether a sequence of owned strings contains `x`.
pub open spec fn found_contains(found: Seq<String>, x: Seq<char>) -> bool {
    exists|i: int| 0 <= i < found.len() && found[i]@ == x
}

/// The existence answer: one entry per distinct requested identifier,
/// first occurrence order, marked by membership in the found set.
pub open spec fn mark_users_spec(ids: Seq<String>, found: Seq<String>) -> Seq<(Seq<char>, bool)>
    decreases ids.len(),
{
    if ids.len() == 0 {
        Seq::empty()
    } else {
        let prev = mark_users_spec(ids.drop_last(), found);
        if exists|i: int| 0 <= i < prev.len() && prev[i].0 == ids.last()@ {
            prev
        } else {
            prev.push((ids.last()@, found_contains(found, ids.last()@)))
        }
    }
}

/// Marks each requested user with whether the store returned rows for
/// it: one entry per distinct identifier, in first-seen order.
pub fn mark_users_with_logs(user_ids: &Vec<String>, found: &Vec<String>) -> (r: Vec<UserHasLogs>)
    ensures
        user_flag_views(r@) == mark_users_spec(user_ids@, found@),
{
    let mut r: Vec<UserHasLogs> = Vec::new();
    let mut i: usize = 0;
    proof {
        assert(user_ids@.take(0) =~= Seq::<String>::empty());
        assert(user_flag_views(r@) =~= mark_users_spec(user_ids@.take(0), found@));
    }
    while i < user_ids.len()
        invariant
            i <= user_ids@.len(),
            user_flag_views(r@) == mark_users_spec(user_ids@.take(i as int), found@),
        decreases user_ids@.len() - i,
    {
        proof {
            assert(user_ids@.take(i + 1).drop_last() =~= user_ids@.take(i as int));
            assert(user_ids@.take(i + 1).last() == user_ids@[i as int]);
        }
        let mut seen = false;
        let mut j: usize = 0;
        while j < r.len()
            invariant
                j <= r@.len(),
                seen == exists|k: int|
                    0 <= k < j && user_flag_views(r@)[k].0 == user_ids@[i as int]@,
                i < user_ids@.len(),
            decreases r@.len() - j,
        {
            if str_eq(r[j].user.as_str(), user_ids[i].as_str()) {
                proof {
                    assert(user_flag_views(r@)[j as int].0 == user_ids@[i as int]@);
                }
                seen = true;
            }
            j = j + 1;
        }
        if !seen {
            let ghost pre = r@;
            let has = crate::live::vec_contains_str(found, user_ids[i].as_str());
            r.push(UserHasLogs { user: user_ids[i].clone(), has_logs: has });
            proof {
                assert(user_flag_views(r@) =~= user_flag_views(pre).push(
                    (user_ids@[i as int]@, has),
                ));
                assert(has == found_contains(found@, user_ids@[i as int]@));
                assert(!(exists|k: int|
                    0 <= k < user_flag_views(pre).len() && user_flag_views(pre)[k].0
                        == user_ids@[i as int]@));
                assert(user_flag_views(r@) =~= mark_users_spec(user_ids@.take(i + 1), found@));
            }
        } else {
            proof {
                let k = choose|k: int|
                    0 <= k < r@.len() && user_flag_views(r@)[k].0 == user_ids@[i as int]@;
                assert(user_flag_views(r@) =~= mark_users_spec(user_ids@.take(i + 1), found@));
            }
        }
        i = i + 1;
    }
    proof {
        assert(user_ids@.take(user_ids@.len() as int) =~= user_ids@);
    }
    r
}

/// Shapes the channel statistics out of the store's two answers: the
/// total row count and the per-user counts of the top chatters.
pub fn build_channel_stats(total: u64, top: Vec<(u64, String)>) -> (r: ChannelLogsStats)
    ensures
        r.message_count == total,
        r.top_chatters@.len() == top@.len(),
        forall|i: int|
            0 <= i < top@.len() ==> (#[trigger] r.top_chatters@[i]).user_id@ == top@[i].1@
                && r.top_chatters@[i].message_count == top@[i].0,
{
    let mut top_chatters: Vec<UserLogsStats> = Vec::new();
    let mut i: usize = 0;
    while i < top.len()
        invariant
            i <= top@.len(),
            top_chatters@.len() == i,
            forall|k: int|
                0 <= k < i ==> (#[trigger] top_chatters@[k]).user_id@ == top@[k].1@
                    && top_chatters@[k].message_count == top@[k].0,
        decreases top@.len() - i,
    {
        top_chatters.push(UserLogsStats { user_id: top[i].1.clone(), message_count: top[i].0 });
        i = i + 1;
    }
    ChannelLogsStats { message_count: total, top_chatters }
}

/// Shapes the user statistics out of the store's count.
pub fn build_user_stats(user_id: &str, count: u64) -> (r: UserLogsStats)
    ensures
        r.user_id@ == user_id@,
        r.message_count == count,
{
    UserLogsStats { user_id: String::from_str(user_id), message_count: count }
}

/// Ninety days, in seconds.
pub const STREAMS_LOOKBACK_SECS: u64 = 90 * 24 * 60 * 60;

/// The oldest start time the stream listing still shows: ninety days
/// before now, clamped at the epoch.
pub fn streams_cutoff(now_secs: u64) -> (r: u64)
    ensures
        now_secs >= STREAMS_LOOKBACK_SECS ==> r == now_secs - STREAMS_LOOKBACK_SECS,
        now_secs < STREAMS_LOOKBACK_SECS ==> r == 0,
{
    if now_secs >= STREAMS_LOOKBACK_SECS {
        now_secs - STREAMS_LOOKBACK_SECS
    } else {
        0
    }
}

} // verus!
