//! Request and response schema of the serving layer: the query
//! parameters every read takes, the response-shape selection, and the
//! authorization decision for protected log reads.

use vstd::prelude::*;

use crate::Error;
use crate::live::Stream;
use crate::text::push_char;
use crate::text::str_eq;

verus! {

/// The list of archived channels.
pub struct ChannelsList {
    pub channels: Vec<Channel>,
}

pub struct Channel {
    pub name: String,
    pub user_id: String,
}

/// Whether a path names a channel by login or by identifier.
#[derive(Debug, Clone, Copy, PartialEq, Eq, Structural)]
pub enum ChannelIdType {
    Name,
    Id,
}

/// Whether a path names a user by login or by identifier.
#[derive(Debug, Clone, Copy, PartialEq, Eq, Structural)]
pub enum UserIdType {
    Name,
    Id,
}

pub struct UserLogsDatePath {
    pub year: String,
    pub month: String,
}

pub struct ChannelLogsByDatePath {
    pub channel_info: LogsPathChannel,
    pub date: LogsPathDate,
}

pub struct LogsPathDate {
    pub year: String,
    pub month: String,
    pub day: String,
}

pub struct LogsPathChannel {
    pub channel_id_type: ChannelIdType,
    pub channel: String,
}

/// The query parameters of a log read: response shape, ordering, and
/// paging.
#[derive(Debug, Clone, Copy, PartialEq, Eq)]
pub struct LogsParams {
    pub json: bool,
    pub json_basic: bool,
    pub raw: bool,
    pub reverse: bool,
    pub ndjson: bool,
    pub limit: Option<u64>,
    pub offset: Option<u64>,
}

/// The JSON flavours a response can take.
#[derive(Debug, Clone, Copy, PartialEq, Eq, Structural)]
pub enum JsonResponseType {
    Basic,
    Full,
}

/// The response shapes a log read can render to.
#[derive(Debug, Clone, Copy, PartialEq, Eq, Structural)]
pub enum LogsResponseType {
    Raw,
    Json(JsonResponseType),
    NdJson,
    Text,
}

/// The shape the parameters select: raw wins, then basic JSON, then
/// full JSON, then newline-delimited JSON, then plain text.
pub open spec fn response_type_spec(p: LogsParams) -> LogsResponseType {
    if p.raw {
        LogsResponseType::Raw
    } else if p.json_basic {
        LogsResponseType::Json(JsonResponseType::Basic)
    } else if p.json {
        LogsResponseType::Json(JsonResponseType::Full)
    } else if p.ndjson {
        LogsResponseType::NdJson
    } else {
        LogsResponseType::Text
    }
}

impl LogsParams {
    /// The response shape these parameters ask for.
    pub fn response_type(&self) -> (r: LogsResponseType)
        ensures
            r == response_type_spec(*self),
    {
        if self.raw {
            LogsResponseType::Raw
        } else if self.json_basic {
            LogsResponseType::Json(JsonResponseType::Basic)
        } else if self.json {
            LogsResponseType::Json(JsonResponseType::Full)
        } else if self.ndjson {
            LogsResponseType::NdJson
        } else {
            LogsResponseType::Text
        }
    }
}

/// A full-text search request.
pub struct SearchParams {
    pub q: String,
}

pub struct AvailableLogs {
    pub available_logs: Vec<AvailableLogDate>,
}

/// One day (or month) for which the archive holds rows.
#[derive(Debug, Clone, PartialEq, Eq)]
pub struct AvailableLogDate {
    pub year: String,
    pub month: String,
    pub day: Option<String>,
}

impl AvailableLogDate {
    /// The path segment of this date: `year/month`, with `/day` when a
    /// day is present.
    pub fn to_path(&self) -> (r: String)
        ensures
            r@ == self.year@ + seq!['/'] + self.month@ + (match self.day {
                Some(d) => seq!['/'] + d@,
                None => Seq::<char>::empty(),
            }),
    {
        let mut s = self.year.clone();
        push_char(&mut s, '/');
        s.append(self.month.as_str());
        match &self.day {
            Some(d) => {
                push_char(&mut s, '/');
                s.append(d.as_str());
                proof {
                    assert(s@ =~= self.year@ + seq!['/'] + self.month@ + (seq!['/'] + d@));
                }
            },
            None => {
                proof {
                    assert(s@ =~= self.year@ + seq!['/'] + self.month@ + Seq::<char>::empty());
                }
            },
        }
        s
    }
}

/// Whether one user has rows in a channel.
#[derive(Debug, Clone, PartialEq, Eq)]
pub struct UserHasLogs {
    pub user: String,
    pub has_logs: bool,
}

/// One known live session of a channel.
#[derive(Debug, Clone, PartialEq, Eq)]
pub struct AssignedStream {
    pub id: String,
    pub started_at: u32,
}

impl AssignedStream {
    /// The serving-layer shape of one stored stream record.
    pub fn from_stream(stream: Stream) -> (r: AssignedStream)
        ensures
            r.id == stream.stream_id,
            r.started_at == stream.started_at,
    {
        AssignedStream { id: stream.stream_id, started_at: stream.started_at }
    }
}

/// The known streams of a channel.
pub struct Streams {
    pub channel_id: String,
    pub total: u64,
    pub streams: Vec<AssignedStream>,
}

/// The logins one user identifier has used.
pub struct UserLogins {
    pub id: String,
    pub logins: Vec<String>,
}

pub struct AvailableLogsParams {
    pub channel: ChannelParam,
    pub user: Option<UserParam>,
}

/// A user named by login or by identifier.
#[derive(Debug, Clone, PartialEq, Eq)]
pub enum UserParam {
    User(String),
    UserId(String),
}

impl UserParam {
    /// The carried name or identifier.
    pub fn as_str(&self) -> (r: &str)
        ensures
            r@ == (match self {
                UserParam::User(u) => u@,
                UserParam::UserId(u) => u@,
            }),
    {
        match self {
            UserParam::User(user) => user.as_str(),
            UserParam::UserId(user_id) => user_id.as_str(),
        }
    }
}

/// A channel named by login or by identifier.
#[derive(Debug, Clone, PartialEq, Eq)]
pub enum ChannelParam {
    Channel(String),
    ChannelId(String),
}

pub struct UserLogPathParams {
    pub channel_id_type: ChannelIdType,
    pub channel: String,
    pub user_id_type: UserIdType,
    pub user: String,
}

pub struct ChannelLogsStats {
    pub message_count: u64,
    pub top_chatters: Vec<UserLogsStats>,
}

#[derive(Debug, Clone, PartialEq, Eq)]
pub struct UserLogsStats {
    pub user_id: String,
    pub message_count: u64,
}

pub struct UserNameHistoryParam {
    pub user_id: String,
}

/// One earlier login of a user, with the first and last time it was
/// seen, as millisecond timestamps.
pub struct PreviousName {
    pub user_login: String,
    pub last_timestamp: u64,
    pub first_timestamp: u64,
}

/// A request to add or remove channels.
pub struct ChannelsRequest {
    pub channels: Vec<String>,
}

/// A request to check which users have rows in a channel.
pub struct UsersRequest {
    pub channel: String,
    pub users: Vec<String>,
}

pub struct UserLoginsRequest {
    pub user: UserParam,
}

pub struct StreamsRequest {
    pub channel: ChannelParam,
    pub offset: Option<u64>,
}

/// Shapes the logins answer of a user lookup: an empty identifier is
/// the user-visible no-data outcome.
pub fn build_user_logins(id: String, logins: Vec<String>) -> (r: Result<UserLogins, Error>)
    ensures
        id@.len() == 0 <==> r is Err,
        r is Err ==> r == Err::<UserLogins, Error>(Error::NotFound),
        r matches Ok(u) ==> u.id == id && u.logins == logins,
{
    if id.as_str().is_empty() {
        Err(Error::NotFound)
    } else {
        Ok(UserLogins { id, logins })
    }
}

/// Shapes the stream listing of a channel out of the stored records.
pub fn build_streams(channel_id: &str, total: u64, list: Vec<Stream>) -> (r: Streams)
    ensures
        r.channel_id@ == channel_id@,
        r.total == total,
        r.streams@.len() == list@.len(),
        forall|i: int|
            0 <= i < list@.len() ==> (#[trigger] r.streams@[i]).id == list@[i].stream_id
                && r.streams@[i].started_at == list@[i].started_at,
{
    let mut streams: Vec<AssignedStream> = Vec::new();
    let mut list = list;
    let ghost all = list@;
    while list.len() > 0
        invariant
            streams@.len() + list@.len() == all.len(),
            list@ == all.skip(streams@.len() as int),
            forall|k: int|
                0 <= k < streams@.len() ==> (#[trigger] streams@[k]).id == all[k].stream_id
                    && streams@[k].started_at == all[k].started_at,
        decreases list@.len(),
    {
        let ghost i = streams@.len() as int;
        let first = list.remove(0);
        proof {
            assert(first == all[i]);
            assert(list@ =~= all.skip(i + 1));
        }
        streams.push(AssignedStream::from_stream(first));
    }
    Streams { channel_id: String::from_str(channel_id), total, streams }
}

/// Whether a log read may proceed: a small set of always-open users, or
/// a matching admin key.
pub open spec fn logs_auth_allowed(
    user: Option<Seq<char>>,
    provided_key: Option<Seq<char>>,
    admin_key: Option<Seq<char>>,
) -> bool {
    (match user {
        Some(u) => u == "gofishgame"@ || u == "951349582"@,
        None => false,
    }) || (match (admin_key, provided_key) {
        (Some(k), Some(p)) => p == k,
        _ => false,
    })
}

/// The authorization check of the protected log reads: `Ok` exactly
/// when the request names an always-open user or carries the configured
/// admin key.
pub fn check_logs_auth(user: Option<&str>, provided_key: Option<&str>, admin_key: Option<&str>) -> (
    r: Result<(), Error>)
    ensures
        r is Ok <==> logs_auth_allowed(
            match user {
                Some(u) => Some(u@),
                None => None,
            },
            match provided_key {
                Some(p) => Some(p@),
                None => None,
            },
            match admin_key {
                Some(k) => Some(k@),
                None => None,
            },
        ),
        r is Err ==> r == Err::<(), Error>(Error::InvalidAuthKey),
{
    let user_ok = match user {
        Some(u) => str_eq(u, "gofishgame") || str_eq(u, "951349582"),
        None => false,
    };
    if user_ok {
        return Ok(());
    }
    let key_ok = match (admin_key, provided_key) {
        (Some(k), Some(p)) => str_eq(p, k),
        _ => false,
    };
    if key_ok {
        Ok(())
    } else {
        Err(Error::InvalidAuthKey)
    }
}

} // verus!
