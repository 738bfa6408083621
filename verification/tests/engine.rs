use rustlog::Error;
use rustlog::buffer::BufferSlice;
use rustlog::buffer::FlushBuffer;
use rustlog::dates::civil_from_days;
use rustlog::dates::civil_to_days;
use rustlog::dates::day_range_ms;
use rustlog::dates::month_range_ms;
use rustlog::live::LiveSource;
use rustlog::live::PassState;
use rustlog::live::finish_pass;
use rustlog::live::next_poll_delay;
use rustlog::live::process_page;
use rustlog::query::ChannelReadPlan;
use rustlog::query::WINDOW_MS;
use rustlog::query::apply_limit_offset;
use rustlog::query::assemble_multi;
use rustlog::query::assemble_single;
use rustlog::query::build_channel_stats;
use rustlog::query::build_user_stats;
use rustlog::query::mark_users_with_logs;
use rustlog::query::partition_windows;
use rustlog::query::plan_channel_read;
use rustlog::query::plan_random_read;
use rustlog::query::plan_search_read;
use rustlog::query::plan_user_read;
use rustlog::query::probe_result;
use rustlog::query::streams_cutoff;
use rustlog::schema::MessageFlags;
use rustlog::schema::MessageType;
use rustlog::schema::StructuredMessage;
use rustlog::web::AvailableLogDate;
use rustlog::web::JsonResponseType;
use rustlog::web::LogsParams;
use rustlog::web::LogsResponseType;
use rustlog::live::Stream;
use rustlog::web::UserParam;
use rustlog::web::build_streams;
use rustlog::web::build_user_logins;
use rustlog::web::check_logs_auth;

fn params() -> LogsParams {
    LogsParams {
        json: false,
        json_basic: false,
        raw: false,
        reverse: false,
        ndjson: false,
        limit: None,
        offset: None,
    }
}

fn row(channel: &str, user: &str, ts: u64, text: &str) -> StructuredMessage {
    StructuredMessage {
        channel_id: channel.into(),
        channel_login: "".into(),
        timestamp: ts,
        id: 0,
        message_type: MessageType::PrivMsg,
        user_id: user.into(),
        user_login: "".into(),
        display_name: "".into(),
        color: None,
        user_type: "".into(),
        badges: vec![],
        badge_info: "".into(),
        client_nonce: "".into(),
        emotes: "".into(),
        automod_flags: "".into(),
        text: text.into(),
        message_flags: MessageFlags { bits: 0 },
        extra_tags: vec![],
    }
}

const DAY: u64 = 86_400_000;

#[test]
fn window_partition_forty_days() {
    let from = 0u64;
    let to = 40 * DAY;
    let w = partition_windows(from, to);
    assert_eq!(w.len(), 3);
    assert_eq!(w[0], (0, 14 * DAY));
    assert_eq!(w[1], (14 * DAY, 28 * DAY));
    assert_eq!(w[2], (28 * DAY, 40 * DAY));
    assert_eq!(WINDOW_MS, 14 * DAY);
}

#[test]
fn window_partition_exact_multiple() {
    let w = partition_windows(0, 28 * DAY);
    assert_eq!(w.len(), 2);
    assert_eq!(w[1].1, 28 * DAY);
    let single = partition_windows(5, 6);
    assert_eq!(single, vec![(5, 6)]);
}

#[test]
fn channel_plan_short_range() {
    let slice = BufferSlice::empty(LogsParams { limit: Some(7), offset: Some(2), ..params() });
    let plan = plan_channel_read("chan", LogsParams { limit: Some(7), offset: Some(2), ..params() }, 100, 200, &slice);
    match plan {
        ChannelReadPlan::Single(q) => {
            assert_eq!(q.channel_id.as_str(), "chan");
            assert_eq!(q.user_id, None);
            assert_eq!((q.from_ms, q.to_ms), (100, 200));
            assert!(!q.reverse);
            assert_eq!(q.limit, Some(7));
            assert_eq!(q.offset, Some(2));
        },
        ChannelReadPlan::Multi { .. } => panic!("short range must stay single"),
    }
}

#[test]
fn channel_plan_long_range_reversed() {
    let slice = BufferSlice::empty(params());
    let p = LogsParams { reverse: true, ..params() };
    let plan = plan_channel_read("chan", p, 0, 40 * DAY, &slice);
    match plan {
        ChannelReadPlan::Multi { probe_from, probe_to, windows } => {
            assert_eq!((probe_from, probe_to), (0, 40 * DAY));
            assert_eq!(windows.len(), 3);
            // newest window first, no paging pushed per window
            assert_eq!((windows[0].from_ms, windows[0].to_ms), (28 * DAY, 40 * DAY));
            assert_eq!((windows[2].from_ms, windows[2].to_ms), (0, 14 * DAY));
            assert!(windows.iter().all(|q| q.reverse && q.limit.is_none() && q.offset.is_none()));
        },
        ChannelReadPlan::Single(_) => panic!("long range must go multi"),
    }
}

#[test]
fn user_and_search_plans() {
    let slice = BufferSlice::empty(params());
    let q = plan_user_read("c", "u", params(), 1, 2, &slice);
    assert_eq!(q.user_id.as_deref(), Some("u"));
    let s = plan_search_read("c", "u", "needle", LogsParams { limit: Some(3), ..params() });
    assert_eq!(s.text.as_str(), "needle");
    assert_eq!(s.limit, Some(3));
}

#[test]
fn point_read_emptiness() {
    assert_eq!(plan_random_read(0), Err(Error::NotFound));
    match plan_random_read(5) {
        Ok(o) => assert!(o < 5),
        Err(_) => panic!("non-empty scope must yield an offset"),
    }
    assert_eq!(probe_result(0), Err(Error::NotFound));
    assert_eq!(probe_result(3), Ok(()));
}

#[test]
fn buffer_merge_no_duplicate() {
    let mut buffer = FlushBuffer::new();
    let pending = row("c", "u", 150, "pending");
    let batch = buffer.accept(vec![pending.clone()]);
    // the store does not return the unflushed row, even though the
    // range covers it
    let store_rows = vec![row("c", "u", 50, "stored")];
    let slice = buffer.merge_for_query("c", None, 0, 1000, params());
    let combined = assemble_single(store_rows, slice, false);
    let occurrences = combined.iter().filter(|m| **m == pending).count();
    assert_eq!(occurrences, 1);
    assert_eq!(combined.len(), 2);
    assert_eq!(combined[0].text.as_str(), "stored");
    assert_eq!(combined[1].text.as_str(), "pending");

    // once the batch is confirmed durable, the buffer no longer serves it
    buffer.evict(batch);
    let slice = buffer.merge_for_query("c", None, 0, 1000, params());
    assert!(slice.rows.is_empty());
}

#[test]
fn buffer_merge_filters_and_orders() {
    let mut buffer = FlushBuffer::new();
    buffer.accept(vec![
        row("c", "u1", 300, "late"),
        row("c", "u2", 100, "early"),
        row("other", "u1", 200, "elsewhere"),
        row("c", "u1", 5000, "outside range"),
    ]);
    let slice = buffer.merge_for_query("c", None, 0, 1000, params());
    let texts: Vec<&str> = slice.rows.iter().map(|m| m.text.as_str()).collect();
    assert_eq!(texts, vec!["early", "late"]);

    let rev = buffer.merge_for_query("c", None, 0, 1000, LogsParams { reverse: true, ..params() });
    let texts: Vec<&str> = rev.rows.iter().map(|m| m.text.as_str()).collect();
    assert_eq!(texts, vec!["late", "early"]);

    let scoped = buffer.merge_for_query("c", Some("u2"), 0, 1000, params());
    assert_eq!(scoped.rows.len(), 1);
    assert_eq!(scoped.rows[0].text.as_str(), "early");
}

#[test]
fn multi_window_descending_order() {
    // three descending windows with distinct timestamp bands: plain
    // concatenation, newest window first, is globally non-increasing
    let parts = vec![
        vec![row("c", "u", 2000, "a"), row("c", "u", 1900, "b")],
        vec![row("c", "u", 1500, "c"), row("c", "u", 1400, "d")],
        vec![row("c", "u", 900, "e"), row("c", "u", 800, "f")],
    ];
    let slice = BufferSlice::empty(LogsParams { reverse: true, ..params() });
    let out = assemble_multi(parts, slice, true);
    let ts: Vec<u64> = out.iter().map(|m| m.timestamp).collect();
    assert_eq!(ts, vec![2000, 1900, 1500, 1400, 900, 800]);
    for pair in ts.windows(2) {
        assert!(pair[0] >= pair[1]);
    }
}

#[test]
fn multi_window_trims_at_consumer() {
    let parts = vec![
        vec![row("c", "u", 100, "a"), row("c", "u", 200, "b")],
        vec![row("c", "u", 300, "c"), row("c", "u", 400, "d")],
    ];
    let slice = BufferSlice {
        rows: vec![],
        limit: Some(2),
        offset: Some(1),
    };
    let out = assemble_multi(parts, slice, false);
    let texts: Vec<&str> = out.iter().map(|m| m.text.as_str()).collect();
    assert_eq!(texts, vec!["b", "c"]);
}

#[test]
fn query_text_paging() {
    let mut query = String::from("SELECT 1");
    let slice = BufferSlice { rows: vec![], limit: Some(10), offset: Some(5) };
    apply_limit_offset(&mut query, &slice);
    assert_eq!(query, "SELECT 1 LIMIT 10 OFFSET 5");

    let mut query = String::from("SELECT 1");
    let busy = BufferSlice { rows: vec![row("c", "u", 1, "x")], limit: Some(10), offset: Some(5) };
    apply_limit_offset(&mut query, &busy);
    assert_eq!(query, "SELECT 1");
}

#[test]
fn users_existence_marking() {
    let ids = vec!["a".to_string(), "b".to_string(), "a".to_string()];
    let found = vec!["b".to_string()];
    let marked = mark_users_with_logs(&ids, &found);
    assert_eq!(marked.len(), 2);
    assert_eq!((marked[0].user.as_str(), marked[0].has_logs), ("a", false));
    assert_eq!((marked[1].user.as_str(), marked[1].has_logs), ("b", true));
}

#[test]
fn stats_shaping() {
    let stats = build_channel_stats(12, vec![(7, "u1".to_string()), (5, "u2".to_string())]);
    assert_eq!(stats.message_count, 12);
    assert_eq!(stats.top_chatters.len(), 2);
    assert_eq!(stats.top_chatters[0].user_id.as_str(), "u1");
    assert_eq!(stats.top_chatters[0].message_count, 7);
    let user = build_user_stats("u9", 3);
    assert_eq!((user.user_id.as_str(), user.message_count), ("u9", 3));
    assert_eq!(streams_cutoff(8_000_000), 8_000_000 - 7_776_000);
    assert_eq!(streams_cutoff(100), 0);
}

#[test]
fn low_signal_cutoff() {
    // a single 120-item page whose first 51 items are low-signal stops
    // pagination even though a next-page cursor exists
    let mut items: Vec<LiveSource> = Vec::new();
    for i in 0..120u64 {
        items.push(LiveSource {
            id: format!("s{}", i),
            channel_id: format!("c{}", i),
            started_at: 1000 + i as u32,
            viewer_count: if i < 51 { 1 } else { 100 },
        });
    }
    let mut state = PassState { last: vec!["s0".to_string()], current: vec![] };
    let (batch, stop) = process_page(&mut state, &items, true, false);
    assert!(stop, "pagination must stop after the low-signal page");
    // every source but the one already seen last pass is forwarded
    assert_eq!(batch.len(), 119);
    assert_eq!(state.current.len(), 120);
}

#[test]
fn reconciliation_pass_diff() {
    let items = vec![
        LiveSource { id: "a".into(), channel_id: "ca".into(), started_at: 1, viewer_count: 50 },
        LiveSource { id: "b".into(), channel_id: "cb".into(), started_at: 2, viewer_count: 50 },
        LiveSource { id: "a".into(), channel_id: "ca".into(), started_at: 1, viewer_count: 50 },
    ];
    let mut state = PassState { last: vec!["b".to_string()], current: vec![] };
    let (batch, stop) = process_page(&mut state, &items, true, false);
    assert!(!stop);
    // only sources unseen in the previous pass are forwarded
    let ids: Vec<&str> = batch.iter().map(|s| s.stream_id.as_str()).collect();
    assert_eq!(ids, vec!["a", "a"]);
    // the current snapshot holds each identifier once
    assert_eq!(state.current, vec!["a".to_string(), "b".to_string()]);

    finish_pass(&mut state);
    assert_eq!(state.last, vec!["a".to_string(), "b".to_string()]);
    assert!(state.current.is_empty());

    let (_, stop) = process_page(&mut state, &items, false, false);
    assert!(stop, "no next cursor must stop pagination");
    let mut state2 = PassState { last: vec![], current: vec![] };
    let (_, stop) = process_page(&mut state2, &items, true, true);
    assert!(stop, "cancellation must stop pagination");

    assert_eq!(next_poll_delay(30, true), 30);
    assert_eq!(next_poll_delay(30, false), 90);
}

#[test]
fn calendar_conversions() {
    assert_eq!(civil_to_days(1970, 1, 1), Some(0));
    assert_eq!(civil_to_days(2024, 2, 29), Some(19782));
    assert_eq!(civil_to_days(2023, 2, 29), None);
    assert_eq!(civil_to_days(2024, 13, 1), None);
    assert_eq!(civil_from_days(0), (1970, 1, 1));
    assert_eq!(civil_from_days(19782), (2024, 2, 29));
    assert_eq!(civil_from_days(19783), (2024, 3, 1));

    assert_eq!(day_range_ms(2024, 2, 29), Ok((19782 * DAY, 19783 * DAY)));
    assert_eq!(day_range_ms(2023, 2, 29), Err(Error::InvalidParam));
    let feb = month_range_ms(2024, 2).unwrap();
    assert_eq!(feb, (19754 * DAY, 19783 * DAY));
    assert_eq!(month_range_ms(9999, 12), Err(Error::InvalidParam));
}

#[test]
fn response_type_priorities() {
    let p = params();
    assert_eq!(p.response_type(), LogsResponseType::Text);
    assert_eq!(
        LogsParams { raw: true, json: true, ..params() }.response_type(),
        LogsResponseType::Raw
    );
    assert_eq!(
        LogsParams { json_basic: true, json: true, ..params() }.response_type(),
        LogsResponseType::Json(JsonResponseType::Basic)
    );
    assert_eq!(
        LogsParams { json: true, ndjson: true, ..params() }.response_type(),
        LogsResponseType::Json(JsonResponseType::Full)
    );
    assert_eq!(
        LogsParams { ndjson: true, ..params() }.response_type(),
        LogsResponseType::NdJson
    );
}

#[test]
fn auth_decision() {
    assert_eq!(check_logs_auth(Some("gofishgame"), None, None), Ok(()));
    assert_eq!(check_logs_auth(Some("951349582"), None, None), Ok(()));
    assert_eq!(check_logs_auth(Some("someone"), Some("k"), Some("k")), Ok(()));
    assert_eq!(check_logs_auth(None, Some("k"), Some("k")), Ok(()));
    assert_eq!(check_logs_auth(None, Some("wrong"), Some("k")), Err(Error::InvalidAuthKey));
    assert_eq!(check_logs_auth(Some("someone"), None, Some("k")), Err(Error::InvalidAuthKey));
    assert_eq!(check_logs_auth(None, Some("k"), None), Err(Error::InvalidAuthKey));
}

#[test]
fn lookup_shapes() {
    assert!(matches!(build_user_logins("".into(), vec![]), Err(Error::NotFound)));
    let logins = build_user_logins("9".into(), vec!["old".into(), "new".into()]).unwrap();
    assert_eq!(logins.id, "9");
    assert_eq!(logins.logins, vec!["old".to_string(), "new".to_string()]);

    let listing = build_streams(
        "c",
        2,
        vec![
            Stream { channel_id: "c".into(), stream_id: "s1".into(), started_at: 11 },
            Stream { channel_id: "c".into(), stream_id: "s2".into(), started_at: 22 },
        ],
    );
    assert_eq!(listing.channel_id, "c");
    assert_eq!(listing.total, 2);
    assert_eq!(listing.streams.len(), 2);
    assert_eq!((listing.streams[0].id.as_str(), listing.streams[0].started_at), ("s1", 11));
    assert_eq!((listing.streams[1].id.as_str(), listing.streams[1].started_at), ("s2", 22));
}

#[test]
fn web_shapes() {
    let date = AvailableLogDate { year: "2024".into(), month: "2".into(), day: Some("29".into()) };
    assert_eq!(date.to_path(), "2024/2/29");
    let month = AvailableLogDate { year: "2024".into(), month: "2".into(), day: None };
    assert_eq!(month.to_path(), "2024/2");
    assert_eq!(UserParam::User("name".into()).as_str(), "name");
    assert_eq!(UserParam::UserId("123".into()).as_str(), "123");
}
