//! The message codec: a raw tagged line decodes into a typed row
//! ([`StructuredMessage::from_unstructured`]) and a typed row encodes
//! back into the protocol's tag set ([`StructuredMessage::all_tags`]).
//! Both directions are specified by one model each (`decode_spec`,
//! `encode_tags`) and the executable code is proved to match it.

use vstd::prelude::*;

use crate::Error;
use crate::irc::LineParts;
use crate::irc::extract_message_text;
use crate::irc::extract_text_spec;
use crate::irc::line_view;
use crate::irc::parse_irc_line;
use crate::irc::parse_line_spec;
use crate::irc::tag_views;
use crate::irc::unescape;
use crate::irc::unescape_spec;
use crate::text::color_digits;
use crate::text::dec_digits;
use crate::text::hex_fixed;
use crate::text::hex_u32_of;
use crate::text::is_hex_digit;
use crate::text::join_commas_spec;
use crate::text::parse_hex_u32;
use crate::text::split_commas;
use crate::text::split_commas_spec;
use crate::text::str_eq;
use crate::text::str_to_chars;
use crate::text::str_views;
use crate::text::trim_line;
use crate::text::trim_line_vec;
use crate::text::vec_slice_string;

verus! {

/// The closed set of message kinds.
#[derive(Debug, Clone, Copy, PartialEq, Eq, Structural)]
pub enum MessageType {
    Whisper,
    PrivMsg,
    ClearChat,
    RoomState,
    UserNotice,
    UserState,
    Notice,
    Join,
    Part,
    Reconnect,
    Names,
    Ping,
    Pong,
    ClearMsg,
    GlobalUserState,
}

/// The storage code of each message kind.
pub open spec fn message_type_code(t: MessageType) -> u8 {
    match t {
        MessageType::Whisper => 0,
        MessageType::PrivMsg => 1,
        MessageType::ClearChat => 2,
        MessageType::RoomState => 3,
        MessageType::UserNotice => 4,
        MessageType::UserState => 5,
        MessageType::Notice => 6,
        MessageType::Join => 7,
        MessageType::Part => 8,
        MessageType::Reconnect => 9,
        MessageType::Names => 10,
        MessageType::Ping => 11,
        MessageType::Pong => 12,
        MessageType::ClearMsg => 13,
        MessageType::GlobalUserState => 14,
    }
}

/// The kind a command word maps to; `None` for every other command.
pub open spec fn kind_of_command(cmd: Seq<char>) -> Option<MessageType> {
    if cmd == "PING"@ { Some(MessageType::Ping) }
    else if cmd == "PONG"@ { Some(MessageType::Pong) }
    else if cmd == "JOIN"@ { Some(MessageType::Join) }
    else if cmd == "PART"@ { Some(MessageType::Part) }
    else if cmd == "PRIVMSG"@ { Some(MessageType::PrivMsg) }
    else if cmd == "WHISPER"@ { Some(MessageType::Whisper) }
    else if cmd == "CLEARCHAT"@ { Some(MessageType::ClearChat) }
    else if cmd == "CLEARMSG"@ { Some(MessageType::ClearMsg) }
    else if cmd == "GLOBALUSERSTATE"@ { Some(MessageType::GlobalUserState) }
    else if cmd == "NOTICE"@ { Some(MessageType::Notice) }
    else if cmd == "RECONNECT"@ { Some(MessageType::Reconnect) }
    else if cmd == "ROOMSTATE"@ { Some(MessageType::RoomState) }
    else if cmd == "USERNOTICE"@ { Some(MessageType::UserNotice) }
    else if cmd == "USERSTATE"@ { Some(MessageType::UserState) }
    else { None }
}

impl MessageType {
    /// The kind for one command word.
    pub fn from_command(cmd: &str) -> (r: Option<MessageType>)
        ensures
            r == kind_of_command(cmd@),
    {
        if str_eq(cmd, "PING") { Some(MessageType::Ping) }
        else if str_eq(cmd, "PONG") { Some(MessageType::Pong) }
        else if str_eq(cmd, "JOIN") { Some(MessageType::Join) }
        else if str_eq(cmd, "PART") { Some(MessageType::Part) }
        else if str_eq(cmd, "PRIVMSG") { Some(MessageType::PrivMsg) }
        else if str_eq(cmd, "WHISPER") { Some(MessageType::Whisper) }
        else if str_eq(cmd, "CLEARCHAT") { Some(MessageType::ClearChat) }
        else if str_eq(cmd, "CLEARMSG") { Some(MessageType::ClearMsg) }
        else if str_eq(cmd, "GLOBALUSERSTATE") { Some(MessageType::GlobalUserState) }
        else if str_eq(cmd, "NOTICE") { Some(MessageType::Notice) }
        else if str_eq(cmd, "RECONNECT") { Some(MessageType::Reconnect) }
        else if str_eq(cmd, "ROOMSTATE") { Some(MessageType::RoomState) }
        else if str_eq(cmd, "USERNOTICE") { Some(MessageType::UserNotice) }
        else if str_eq(cmd, "USERSTATE") { Some(MessageType::UserState) }
        else { None }
    }

    /// The storage code of this kind.
    pub fn as_u8(&self) -> (r: u8)
        ensures
            r == message_type_code(*self),
    {
        match self {
            MessageType::Whisper => 0,
            MessageType::PrivMsg => 1,
            MessageType::ClearChat => 2,
            MessageType::RoomState => 3,
            MessageType::UserNotice => 4,
            MessageType::UserState => 5,
            MessageType::Notice => 6,
            MessageType::Join => 7,
            MessageType::Part => 8,
            MessageType::Reconnect => 9,
            MessageType::Names => 10,
            MessageType::Ping => 11,
            MessageType::Pong => 12,
            MessageType::ClearMsg => 13,
            MessageType::GlobalUserState => 14,
        }
    }
}

pub const FLAG_SUBSCRIBER: u16 = 1;
pub const FLAG_VIP: u16 = 2;
pub const FLAG_MOD: u16 = 4;
pub const FLAG_TURBO: u16 = 8;
pub const FLAG_FIRST_MSG: u16 = 16;
pub const FLAG_RETURNING_CHATTER: u16 = 32;
pub const FLAG_EMOTE_ONLY: u16 = 64;
pub const FLAG_R9K: u16 = 128;
pub const FLAG_SUBS_ONLY: u16 = 256;
pub const FLAG_SLOW_MODE: u16 = 512;

/// The fixed-width flag bitset of a row: ten independent boolean bits,
/// each fed by one protocol tag that carries `"1"` when set.
#[derive(Debug, Clone, Copy, PartialEq, Eq, Structural, Default)]
pub struct MessageFlags {
    pub bits: u16,
}

/// The bit a tag name feeds, `None` for every other tag.
pub open spec fn flag_of_tag(name: Seq<char>) -> Option<u16> {
    if name == "subscriber"@ { Some(FLAG_SUBSCRIBER) }
    else if name == "vip"@ { Some(FLAG_VIP) }
    else if name == "mod"@ { Some(FLAG_MOD) }
    else if name == "turbo"@ { Some(FLAG_TURBO) }
    else if name == "first-msg"@ { Some(FLAG_FIRST_MSG) }
    else if name == "returning-chatter"@ { Some(FLAG_RETURNING_CHATTER) }
    else if name == "emote-only"@ { Some(FLAG_EMOTE_ONLY) }
    else if name == "r9k"@ { Some(FLAG_R9K) }
    else if name == "subs-only"@ { Some(FLAG_SUBS_ONLY) }
    else if name == "slow"@ { Some(FLAG_SLOW_MODE) }
    else { None }
}

/// The one tag the encoder emits for a set bit.
pub open spec fn flag_entry(bits: u16, bit: u16, name: Seq<char>) -> Seq<(Seq<char>, Seq<char>)> {
    if bits & bit != 0 {
        seq![(name, "1"@)]
    } else {
        Seq::empty()
    }
}

/// Every tag the encoder emits for a bitset, in the fixed order.
pub open spec fn flags_tags(bits: u16) -> Seq<(Seq<char>, Seq<char>)> {
    flag_entry(bits, FLAG_SUBSCRIBER, "subscriber"@) + flag_entry(bits, FLAG_VIP, "vip"@)
        + flag_entry(bits, FLAG_MOD, "mod"@) + flag_entry(bits, FLAG_TURBO, "turbo"@)
        + flag_entry(bits, FLAG_FIRST_MSG, "first-msg"@) + flag_entry(
        bits,
        FLAG_RETURNING_CHATTER,
        "returning-chatter"@,
    ) + flag_entry(bits, FLAG_EMOTE_ONLY, "emote-only"@) + flag_entry(bits, FLAG_R9K, "r9k"@)
        + flag_entry(bits, FLAG_SUBS_ONLY, "subs-only"@) + flag_entry(
        bits,
        FLAG_SLOW_MODE,
        "slow"@,
    )
}

impl MessageFlags {
    /// The single-bit set a tag name stands for.
    pub fn from_tag(tag: &str) -> (r: Option<MessageFlags>)
        ensures
            match flag_of_tag(tag@) {
                Some(bit) => r == Some(MessageFlags { bits: bit }),
                None => r is None,
            },
    {
        if str_eq(tag, "subscriber") { Some(MessageFlags { bits: FLAG_SUBSCRIBER }) }
        else if str_eq(tag, "vip") { Some(MessageFlags { bits: FLAG_VIP }) }
        else if str_eq(tag, "mod") { Some(MessageFlags { bits: FLAG_MOD }) }
        else if str_eq(tag, "turbo") { Some(MessageFlags { bits: FLAG_TURBO }) }
        else if str_eq(tag, "first-msg") { Some(MessageFlags { bits: FLAG_FIRST_MSG }) }
        else if str_eq(tag, "returning-chatter") {
            Some(MessageFlags { bits: FLAG_RETURNING_CHATTER })
        }
        else if str_eq(tag, "emote-only") { Some(MessageFlags { bits: FLAG_EMOTE_ONLY }) }
        else if str_eq(tag, "r9k") { Some(MessageFlags { bits: FLAG_R9K }) }
        else if str_eq(tag, "subs-only") { Some(MessageFlags { bits: FLAG_SUBS_ONLY }) }
        else if str_eq(tag, "slow") { Some(MessageFlags { bits: FLAG_SLOW_MODE }) }
        else { None }
    }

    /// The tags the encoder writes for this bitset: one `name=1` per set
    /// bit, in the fixed order, nothing for clear bits.
    pub fn as_tags(&self) -> (r: Vec<(String, String)>)
        ensures
            tag_views(r@) == flags_tags(self.bits),
    {
        let mut out: Vec<(String, String)> = Vec::new();
        push_flag(&mut out, self.bits, FLAG_SUBSCRIBER, "subscriber");
        push_flag(&mut out, self.bits, FLAG_VIP, "vip");
        push_flag(&mut out, self.bits, FLAG_MOD, "mod");
        push_flag(&mut out, self.bits, FLAG_TURBO, "turbo");
        push_flag(&mut out, self.bits, FLAG_FIRST_MSG, "first-msg");
        push_flag(&mut out, self.bits, FLAG_RETURNING_CHATTER, "returning-chatter");
        push_flag(&mut out, self.bits, FLAG_EMOTE_ONLY, "emote-only");
        push_flag(&mut out, self.bits, FLAG_R9K, "r9k");
        push_flag(&mut out, self.bits, FLAG_SUBS_ONLY, "subs-only");
        push_flag(&mut out, self.bits, FLAG_SLOW_MODE, "slow");
        proof {
            assert(tag_views(out@) =~= flags_tags(self.bits));
        }
        out
    }

    /// Whether every bit of `other` is set here.
    pub fn contains(&self, other: MessageFlags) -> (r: bool)
        ensures
            r == (self.bits & other.bits == other.bits),
    {
        self.bits & other.bits == other.bits
    }
}

/// Appends `name=1` when the bit is set.
fn push_flag(out: &mut Vec<(String, String)>, bits: u16, bit: u16, name: &str)
    ensures
        tag_views(final(out)@) == tag_views(old(out)@) + flag_entry(bits, bit, name@),
{
    if bits & bit != 0 {
        out.push((String::from_str(name), String::from_str("1")));
        proof {
            assert(tag_views(out@) =~= tag_views(old(out)@) + flag_entry(bits, bit, name@));
        }
    } else {
        proof {
            assert(tag_views(out@) =~= tag_views(old(out)@) + flag_entry(bits, bit, name@));
        }
    }
}

/// A name for what `uuid::Uuid::parse_str(s).ok()` returns, as a 128-bit
/// value: the result depends on the characters alone.
pub uninterp spec fn uuid_of(s: Seq<char>) -> Option<u128>;

/// The canonical hyphenated rendering of a 128-bit identifier:
/// 8-4-4-4-12 lowercase hexadecimal digits.
pub open spec fn uuid_hyph(u: u128) -> Seq<char> {
    hex_fixed((u as nat) / 0x1000000000000000000000000, 8, false) + seq!['-'] + hex_fixed(
        ((u as nat) / 0x100000000000000000000) % 0x10000,
        4,
        false,
    ) + seq!['-'] + hex_fixed(((u as nat) / 0x10000000000000000) % 0x10000, 4, false) + seq!['-']
        + hex_fixed(((u as nat) / 0x1000000000000) % 0x10000, 4, false) + seq!['-'] + hex_fixed(
        (u as nat) % 0x1000000000000,
        12,
        false,
    )
}

/// Relies on `uuid::Uuid::parse_str`: accepts a string of hexadecimal
/// digits with optional hyphens (simple, hyphenated, urn or braced
/// form); in particular the canonical hyphenated rendering of `u`
/// parses back to `u`.
#[verifier::external_body]
fn parse_uuid(s: &str) -> (r: Option<u128>)
    ensures
        r == uuid_of(s@),
        forall|u: u128| s@ == uuid_hyph(u) ==> r == Some(u),
{
    uuid::Uuid::parse_str(s).ok().map(|u| u.as_u128())
}

/// The hyphenated rendering, as `uuid::Uuid::hyphenated` writes it.
pub fn uuid_to_string(u: u128) -> (r: String)
    ensures
        r@ == uuid_hyph(u),
{
    let mut s = String::new();
    crate::text::push_hex_fixed(&mut s, u / 0x1000000000000000000000000, 8, false);
    crate::text::push_char(&mut s, '-');
    crate::text::push_hex_fixed(&mut s, (u / 0x100000000000000000000) % 0x10000, 4, false);
    crate::text::push_char(&mut s, '-');
    crate::text::push_hex_fixed(&mut s, (u / 0x10000000000000000) % 0x10000, 4, false);
    crate::text::push_char(&mut s, '-');
    crate::text::push_hex_fixed(&mut s, (u / 0x1000000000000) % 0x10000, 4, false);
    crate::text::push_char(&mut s, '-');
    crate::text::push_hex_fixed(&mut s, u % 0x1000000000000, 12, false);
    proof {
        assert(s@ =~= uuid_hyph(u));
    }
    s
}

/// One received line before decoding: where it came from, who sent it,
/// when it arrived, and the raw text.
#[derive(Debug, Clone, PartialEq, Eq)]
pub struct UnstructuredMessage {
    pub channel_id: String,
    pub user_id: String,
    pub timestamp: u64,
    pub raw: String,
}

/// The canonical structured record of one chat event.
#[derive(Debug, Clone, PartialEq, Eq)]
pub struct StructuredMessage {
    pub channel_id: String,
    pub channel_login: String,
    pub timestamp: u64,
    pub id: u128,
    pub message_type: MessageType,
    pub user_id: String,
    pub user_login: String,
    pub display_name: String,
    pub color: Option<u32>,
    pub user_type: String,
    pub badges: Vec<String>,
    pub badge_info: String,
    pub client_nonce: String,
    pub emotes: String,
    pub automod_flags: String,
    pub text: String,
    pub message_flags: MessageFlags,
    pub extra_tags: Vec<(String, String)>,
}

/// The mathematical view of a row.
pub struct RowModel {
    pub channel_id: Seq<char>,
    pub channel_login: Seq<char>,
    pub timestamp: u64,
    pub id: u128,
    pub message_type: MessageType,
    pub user_id: Seq<char>,
    pub user_login: Seq<char>,
    pub display_name: Seq<char>,
    pub color: Option<u32>,
    pub user_type: Seq<char>,
    pub badges: Seq<Seq<char>>,
    pub badge_info: Seq<char>,
    pub client_nonce: Seq<char>,
    pub emotes: Seq<char>,
    pub automod_flags: Seq<char>,
    pub text: Seq<char>,
    pub message_flags: u16,
    pub extra_tags: Seq<(Seq<char>, Seq<char>)>,
}

impl View for StructuredMessage {
    type V = RowModel;

    /// The view of this row.
    open spec fn view(&self) -> RowModel {
        RowModel {
            channel_id: self.channel_id@,
            channel_login: self.channel_login@,
            timestamp: self.timestamp,
            id: self.id,
            message_type: self.message_type,
            user_id: self.user_id@,
            user_login: self.user_login@,
            display_name: self.display_name@,
            color: self.color,
            user_type: self.user_type@,
            badges: str_views(self.badges@),
            badge_info: self.badge_info@,
            client_nonce: self.client_nonce@,
            emotes: self.emotes@,
            automod_flags: self.automod_flags@,
            text: self.text@,
            message_flags: self.message_flags.bits,
            extra_tags: tag_views(self.extra_tags@),
        }
    }
}

/// Number of leading `'#'` characters.
pub open spec fn leading_hashes(s: Seq<char>) -> int
    decreases s.len(),
{
    if s.len() > 0 && s[0] == '#' {
        1 + leading_hashes(s.drop_first())
    } else {
        0
    }
}

/// `str::trim_start_matches('#')`.
pub open spec fn strip_hashes(s: Seq<char>) -> Seq<char> {
    s.skip(leading_hashes(s))
}

proof fn lemma_leading_hashes_bounds(s: Seq<char>)
    ensures
        0 <= leading_hashes(s) <= s.len(),
    decreases s.len(),
{
    if s.len() > 0 && s[0] == '#' {
        lemma_leading_hashes_bounds(s.drop_first());
    }
}

/// `str::trim_start_matches('#')`, executable.
fn strip_hashes_exec(v: &Vec<char>, i: usize) -> (r: String)
    requires
        i <= v@.len(),
    ensures
        r@ == v@.skip(i as int).skip(leading_hashes(v@.skip(i as int))),
    decreases v@.len() - i,
{
    proof {
        lemma_leading_hashes_bounds(v@.skip(i as int));
    }
    if i < v.len() && v[i] == '#' {
        let r = strip_hashes_exec(v, i + 1);
        proof {
            assert(v@.skip(i as int).drop_first() =~= v@.skip(i as int + 1));
            assert(v@.skip(i as int)[0] == v@[i as int]);
            assert(leading_hashes(v@.skip(i as int)) == 1 + leading_hashes(v@.skip(i as int + 1)));
            lemma_leading_hashes_bounds(v@.skip(i as int + 1));
            assert(v@.skip(i as int).skip(leading_hashes(v@.skip(i as int))) =~= v@.skip(
                i as int + 1,
            ).skip(leading_hashes(v@.skip(i as int + 1))));
        }
        r
    } else {
        let r = vec_slice_string(v, i, v.len());
        proof {
            assert(leading_hashes(v@.skip(i as int)) == 0);
            assert(r@ =~= v@.skip(i as int).skip(0));
        }
        r
    }
}

/// The empty sequence for a missing part.
pub open spec fn seq_or_empty(o: Option<Seq<char>>) -> Seq<char> {
    match o {
        Some(s) => s,
        None => Seq::empty(),
    }
}

/// Value of the first tag named `k`, the lookup used for mandatory and
/// auxiliary tags.
pub open spec fn first_tag(tags: Seq<(Seq<char>, Seq<char>)>, k: Seq<char>) -> Option<Seq<char>>
    decreases tags.len(),
{
    if tags.len() == 0 {
        None
    } else if tags[0].0 == k {
        Some(tags[0].1)
    } else {
        first_tag(tags.drop_first(), k)
    }
}

/// First lookup of a tag in an owned pair list, executable.
fn first_tag_exec(tags: &Vec<(String, String)>, i: usize, k: &str) -> (r: Option<String>)
    requires
        i <= tags@.len(),
    ensures
        match r {
            Some(v) => first_tag(tag_views(tags@).skip(i as int), k@) == Some(v@),
            None => first_tag(tag_views(tags@).skip(i as int), k@) is None,
        },
    decreases tags@.len() - i,
{
    if i == tags.len() {
        return None;
    }
    if str_eq(tags[i].0.as_str(), k) {
        let v = tags[i].1.clone();
        proof {
            assert(tag_views(tags@).skip(i as int)[0] == (tags@[i as int].0@, tags@[i as int].1@));
        }
        Some(v)
    } else {
        let r = first_tag_exec(tags, i + 1, k);
        proof {
            assert(tag_views(tags@).skip(i as int)[0] == (tags@[i as int].0@, tags@[i as int].1@));
            assert(tag_views(tags@).skip(i as int).drop_first() =~= tag_views(tags@).skip(
                i as int + 1,
            ));
        }
        r
    }
}

/// The typed-field accumulator of the decode tag walk.
pub struct FieldsAcc {
    pub id: u128,
    pub user_login: Seq<char>,
    pub display_name: Seq<char>,
    pub color: Option<u32>,
    pub user_type: Seq<char>,
    pub badges: Seq<Seq<char>>,
    pub badge_info: Seq<char>,
    pub emotes: Seq<char>,
    pub client_nonce: Seq<char>,
    pub automod_flags: Seq<char>,
    pub flags_bits: u16,
    pub extra: Seq<(Seq<char>, Seq<char>)>,
}

/// The accumulator before any tag is read: everything empty, the login
/// carried in from the prefix (or the clear-chat target).
pub open spec fn init_acc(login: Seq<char>) -> FieldsAcc {
    FieldsAcc {
        id: 0,
        user_login: login,
        display_name: Seq::empty(),
        color: None,
        user_type: Seq::empty(),
        badges: Seq::empty(),
        badge_info: Seq::empty(),
        emotes: Seq::empty(),
        client_nonce: Seq::empty(),
        automod_flags: Seq::empty(),
        flags_bits: 0,
        extra: Seq::empty(),
    }
}

/// One step of the tag walk: the fixed tag-to-field table. A recognized
/// tag lands in exactly one typed field or one flag bit; the four
/// identity tags are dropped; everything else is kept verbatim in order.
pub open spec fn apply_tag(acc: FieldsAcc, k: Seq<char>, v: Seq<char>) -> FieldsAcc {
    if k == "id"@ {
        match uuid_of(v) {
            Some(u) => FieldsAcc { id: u, ..acc },
            None => FieldsAcc { extra: acc.extra.push((k, v)), ..acc },
        }
    } else if k == "login"@ {
        FieldsAcc { user_login: v, ..acc }
    } else if k == "display-name"@ {
        FieldsAcc { display_name: v, ..acc }
    } else if k == "color"@ {
        FieldsAcc { color: hex_u32_of(strip_hashes(v)), ..acc }
    } else if k == "user-type"@ {
        FieldsAcc { user_type: v, ..acc }
    } else if k == "badges"@ {
        FieldsAcc { badges: split_commas_spec(v), ..acc }
    } else if k == "badge-info"@ {
        FieldsAcc { badge_info: v, ..acc }
    } else if k == "emotes"@ {
        FieldsAcc { emotes: v, ..acc }
    } else if k == "client-nonce"@ {
        FieldsAcc { client_nonce: v, ..acc }
    } else if k == "flags"@ {
        FieldsAcc { automod_flags: v, ..acc }
    } else if k == "room-id"@ || k == "user-id"@ || k == "tmi-sent-ts"@ || k == "sent-ts"@ {
        acc
    } else {
        match flag_of_tag(k) {
            Some(bit) => if v == "1"@ {
                FieldsAcc { flags_bits: acc.flags_bits | bit, ..acc }
            } else {
                acc
            },
            None => FieldsAcc { extra: acc.extra.push((k, v)), ..acc },
        }
    }
}

/// The whole tag walk, first tag first.
pub open spec fn fold_tags(acc: FieldsAcc, tags: Seq<(Seq<char>, Seq<char>)>) -> FieldsAcc
    decreases tags.len(),
{
    if tags.len() == 0 {
        acc
    } else {
        fold_tags(apply_tag(acc, tags[0].0, tags[0].1), tags.drop_first())
    }
}

/// The synthesized text body and the pre-walk login of a message.
/// `None` stands for the one mandatory-tag failure: a user-notice
/// without its system message.
pub open spec fn text_and_login(
    kind: MessageType,
    line: LineParts,
    nick: Seq<char>,
) -> Option<(Seq<char>, Seq<char>)> {
    if kind is PrivMsg {
        Some(
            (
                match line.params {
                    Some(p) => extract_text_spec(p),
                    None => Seq::empty(),
                },
                nick,
            ),
        )
    } else if kind is ClearChat {
        match line.params {
            Some(p) => {
                let target = extract_text_spec(p);
                let text = match first_tag(line.tags, "ban-duration"@) {
                    Some(d) => target + " has been timed out for "@ + d + " seconds"@,
                    None => target + " has been banned"@,
                };
                Some((text, target))
            },
            None => Some(("Chat has been cleared"@, nick)),
        }
    } else if kind is UserNotice {
        match first_tag(line.tags, "system-msg"@) {
            None => None,
            Some(sm) => {
                let sys = unescape_spec(sm);
                match line.params {
                    Some(p) => Some((sys + " "@ + extract_text_spec(p), nick)),
                    None => Some((sys, nick)),
                }
            },
        }
    } else {
        Some((Seq::empty(), nick))
    }
}

/// The full decode model: what `from_unstructured` returns for every
/// input, including each error and the input it comes on.
pub open spec fn decode_spec(
    channel_id: Seq<char>,
    user_id: Seq<char>,
    timestamp: u64,
    raw: Seq<char>,
) -> Result<RowModel, Error> {
    let s = trim_line(raw);
    match parse_line_spec(s) {
        None => Err(Error::ParseError),
        Some(line) => match kind_of_command(line.command) {
            None => Err(Error::UnknownMessageKind),
            Some(kind) => match text_and_login(kind, line, seq_or_empty(line.nick)) {
                None => Err(Error::MissingRequiredTag),
                Some(tl) => {
                    let acc = fold_tags(init_acc(tl.1), line.tags);
                    Ok(
                        RowModel {
                            channel_id: channel_id,
                            channel_login: strip_hashes(seq_or_empty(line.channel)),
                            timestamp: timestamp,
                            id: acc.id,
                            message_type: kind,
                            user_id: user_id,
                            user_login: acc.user_login,
                            display_name: acc.display_name,
                            color: acc.color,
                            user_type: acc.user_type,
                            badges: acc.badges,
                            badge_info: acc.badge_info,
                            client_nonce: acc.client_nonce,
                            emotes: acc.emotes,
                            automod_flags: acc.automod_flags,
                            text: tl.0,
                            message_flags: acc.flags_bits,
                            extra_tags: acc.extra,
                        },
                    )
                },
            },
        },
    }
}

/// The tag walk takes its tags one at a time, from the left.
proof fn lemma_fold_push(acc: FieldsAcc, tags: Seq<(Seq<char>, Seq<char>)>, x: (Seq<char>, Seq<char>))
    ensures
        fold_tags(acc, tags.push(x)) == apply_tag(fold_tags(acc, tags), x.0, x.1),
    decreases tags.len(),
{
    if tags.len() == 0 {
        assert(tags.push(x)[0] == x);
        assert(tags.push(x).drop_first() =~= Seq::<(Seq<char>, Seq<char>)>::empty());
        assert(fold_tags(acc, tags) == acc);
        assert(fold_tags(acc, tags.push(x)) == fold_tags(
            apply_tag(acc, x.0, x.1),
            Seq::<(Seq<char>, Seq<char>)>::empty(),
        ));
        assert(fold_tags(apply_tag(acc, x.0, x.1), Seq::<(Seq<char>, Seq<char>)>::empty())
            == apply_tag(acc, x.0, x.1));
    } else {
        assert(tags.push(x)[0] == tags[0]);
        assert(tags.push(x).drop_first() =~= tags.drop_first().push(x));
        assert(fold_tags(acc, tags) == fold_tags(
            apply_tag(acc, tags[0].0, tags[0].1),
            tags.drop_first(),
        ));
        assert(fold_tags(acc, tags.push(x)) == fold_tags(
            apply_tag(acc, tags[0].0, tags[0].1),
            tags.drop_first().push(x),
        ));
        lemma_fold_push(apply_tag(acc, tags[0].0, tags[0].1), tags.drop_first(), x);
    }
}

/// Whether an executable decode result agrees with the model's.
pub open spec fn decode_matches(r: Result<StructuredMessage, Error>, model: Result<RowModel, Error>) -> bool {
    match r {
        Ok(m) => model == Ok::<RowModel, Error>(m@),
        Err(e) => model == Err::<RowModel, Error>(e),
    }
}

impl StructuredMessage {
    /// Decodes one received line into a typed row, exactly as
    /// [`decode_spec`] says: a line without a command is a
    /// `ParseError`, an unmapped command an `UnknownMessageKind`, a
    /// user-notice without its system message a `MissingRequiredTag`;
    /// on every other input the typed row is returned.
    pub fn from_unstructured(message: &UnstructuredMessage) -> (r: Result<StructuredMessage, Error>)
        ensures
            decode_matches(
                r,
                decode_spec(message.channel_id@, message.user_id@, message.timestamp, message.raw@),
            ),
    {
        let ghost model = decode_spec(
            message.channel_id@,
            message.user_id@,
            message.timestamp,
            message.raw@,
        );
        let chars = str_to_chars(message.raw.as_str());
        let trimmed = trim_line_vec(&chars);
        let parsed = match parse_irc_line(&trimmed) {
            Some(p) => p,
            None => {
                return Err(Error::ParseError);
            },
        };
        let ghost line = line_view(parsed);
        let kind = match MessageType::from_command(parsed.command.as_str()) {
            Some(k) => k,
            None => {
                return Err(Error::UnknownMessageKind);
            },
        };
        let channel_login: String = match &parsed.channel {
            Some(c) => {
                let cv = str_to_chars(c.as_str());
                let r = strip_hashes_exec(&cv, 0);
                proof {
                    assert(cv@.skip(0) =~= c@);
                    assert(r@ == strip_hashes(seq_or_empty(line.channel)));
                }
                r
            },
            None => {
                let r = String::new();
                proof {
                    assert(leading_hashes(Seq::<char>::empty()) == 0);
                    assert(strip_hashes(seq_or_empty(line.channel)) =~= Seq::<char>::empty());
                }
                r
            },
        };
        let nick_login: String = match &parsed.nick {
            Some(n) => n.clone(),
            None => String::new(),
        };
        proof {
            assert(nick_login@ == seq_or_empty(line.nick));
        }
        let ghost spec_tl = text_and_login(kind, line, seq_or_empty(line.nick));
        let mut user_login = nick_login;
        let text: String = if matches!(kind, MessageType::PrivMsg) {
            match &parsed.params {
                Some(p) => String::from_str(extract_message_text(p.as_str())),
                None => String::new(),
            }
        } else if matches!(kind, MessageType::ClearChat) {
            match &parsed.params {
                Some(p) => {
                    let target = extract_message_text(p.as_str());
                    user_login = String::from_str(target);
                    match first_tag_exec(&parsed.tags, 0, "ban-duration") {
                        Some(d) => {
                            let mut t = String::from_str(target);
                            t.append(" has been timed out for ");
                            t.append(d.as_str());
                            t.append(" seconds");
                            proof {
                                assert(tag_views(parsed.tags@).skip(0) =~= line.tags);
                                assert(t@ =~= target@ + " has been timed out for "@ + d@
                                    + " seconds"@);
                            }
                            t
                        },
                        None => {
                            let mut t = String::from_str(target);
                            t.append(" has been banned");
                            proof {
                                assert(tag_views(parsed.tags@).skip(0) =~= line.tags);
                                assert(t@ =~= target@ + " has been banned"@);
                            }
                            t
                        },
                    }
                },
                None => String::from_str("Chat has been cleared"),
            }
        } else if matches!(kind, MessageType::UserNotice) {
            match first_tag_exec(&parsed.tags, 0, "system-msg") {
                None => {
                    proof {
                        assert(tag_views(parsed.tags@).skip(0) =~= line.tags);
                        assert(model == Err::<RowModel, Error>(Error::MissingRequiredTag));
                    }
                    return Err(Error::MissingRequiredTag);
                },
                Some(sm) => {
                    let sys = unescape(sm.as_str());
                    proof {
                        assert(tag_views(parsed.tags@).skip(0) =~= line.tags);
                    }
                    match &parsed.params {
                        Some(p) => {
                            let mut t = sys;
                            t.append(" ");
                            t.append(extract_message_text(p.as_str()));
                            proof {
                                assert(t@ =~= unescape_spec(sm@) + " "@ + extract_text_spec(p@));
                            }
                            t
                        },
                        None => sys,
                    }
                },
            }
        } else {
            String::new()
        };
        proof {
            assert(spec_tl == Some((text@, user_login@)));
        }
        // the tag walk
        let mut id: u128 = 0;
        let mut display_name = String::new();
        let mut color: Option<u32> = None;
        let mut user_type = String::new();
        let mut badges: Vec<String> = Vec::new();
        let mut badge_info = String::new();
        let mut emotes = String::new();
        let mut client_nonce = String::new();
        let mut automod = String::new();
        let mut bits: u16 = 0;
        let mut extra: Vec<(String, String)> = Vec::new();
        let ghost acc0 = init_acc(user_login@);
        proof {
            assert(fold_tags(acc0, line.tags.take(0)) == acc0) by {
                assert(line.tags.take(0) =~= Seq::<(Seq<char>, Seq<char>)>::empty());
            }
            assert(str_views(badges@) =~= acc0.badges);
            assert(tag_views(extra@) =~= acc0.extra);
        }
        let mut i: usize = 0;
        let n = parsed.tags.len();
        while i < n
            invariant
                i <= n,
                n == parsed.tags@.len(),
                line == line_view(parsed),
                id == fold_tags(acc0, line.tags.take(i as int)).id,
                user_login@ == fold_tags(acc0, line.tags.take(i as int)).user_login,
                display_name@ == fold_tags(acc0, line.tags.take(i as int)).display_name,
                color == fold_tags(acc0, line.tags.take(i as int)).color,
                user_type@ == fold_tags(acc0, line.tags.take(i as int)).user_type,
                str_views(badges@) == fold_tags(acc0, line.tags.take(i as int)).badges,
                badge_info@ == fold_tags(acc0, line.tags.take(i as int)).badge_info,
                emotes@ == fold_tags(acc0, line.tags.take(i as int)).emotes,
                client_nonce@ == fold_tags(acc0, line.tags.take(i as int)).client_nonce,
                automod@ == fold_tags(acc0, line.tags.take(i as int)).automod_flags,
                bits == fold_tags(acc0, line.tags.take(i as int)).flags_bits,
                tag_views(extra@) == fold_tags(acc0, line.tags.take(i as int)).extra,
            decreases n - i,
        {
            let ghost acc_pre = fold_tags(acc0, line.tags.take(i as int));
            let ghost k = line.tags[i as int].0;
            let ghost v = line.tags[i as int].1;
            proof {
                assert(line.tags.take(i + 1) =~= line.tags.take(i as int).push(line.tags[i as int]));
                lemma_fold_push(acc0, line.tags.take(i as int), line.tags[i as int]);
                assert(fold_tags(acc0, line.tags.take(i + 1)) == apply_tag(acc_pre, k, v));
                assert(k == parsed.tags@[i as int].0@);
                assert(v == parsed.tags@[i as int].1@);
            }
            let key = parsed.tags[i].0.as_str();
            if str_eq(key, "id") {
                match parse_uuid(parsed.tags[i].1.as_str()) {
                    Some(u) => {
                        id = u;
                    },
                    None => {
                        let pair = (parsed.tags[i].0.clone(), parsed.tags[i].1.clone());
                        extra.push(pair);
                        proof {
                            assert(tag_views(extra@) =~= acc_pre.extra.push((k, v)));
                        }
                    },
                }
            } else if str_eq(key, "login") {
                user_login = parsed.tags[i].1.clone();
            } else if str_eq(key, "display-name") {
                display_name = parsed.tags[i].1.clone();
            } else if str_eq(key, "color") {
                let cv = str_to_chars(parsed.tags[i].1.as_str());
                let stripped = strip_hashes_exec(&cv, 0);
                proof {
                    assert(cv@.skip(0) =~= cv@);
                    assert(stripped@ == strip_hashes(v));
                }
                color = parse_hex_u32(stripped.as_str());
            } else if str_eq(key, "user-type") {
                user_type = parsed.tags[i].1.clone();
            } else if str_eq(key, "badges") {
                badges = split_commas(parsed.tags[i].1.as_str());
            } else if str_eq(key, "badge-info") {
                badge_info = parsed.tags[i].1.clone();
            } else if str_eq(key, "emotes") {
                emotes = parsed.tags[i].1.clone();
            } else if str_eq(key, "client-nonce") {
                client_nonce = parsed.tags[i].1.clone();
            } else if str_eq(key, "flags") {
                automod = parsed.tags[i].1.clone();
            } else if str_eq(key, "room-id") || str_eq(key, "user-id") || str_eq(key, "tmi-sent-ts")
                || str_eq(key, "sent-ts") {
            } else {
                match MessageFlags::from_tag(key) {
                    Some(f) => {
                        if str_eq(parsed.tags[i].1.as_str(), "1") {
                            bits = bits | f.bits;
                        }
                    },
                    None => {
                        let pair = (parsed.tags[i].0.clone(), parsed.tags[i].1.clone());
                        extra.push(pair);
                        proof {
                            assert(tag_views(extra@) =~= acc_pre.extra.push((k, v)));
                        }
                    },
                }
            }
            i = i + 1;
        }
        proof {
            assert(line.tags.take(n as int) =~= line.tags);
        }
        let row = StructuredMessage {
            channel_id: message.channel_id.clone(),
            channel_login,
            timestamp: message.timestamp,
            id,
            message_type: kind,
            user_id: message.user_id.clone(),
            user_login,
            display_name,
            color,
            user_type,
            badges,
            badge_info,
            client_nonce,
            emotes,
            automod_flags: automod,
            text,
            message_flags: MessageFlags { bits },
            extra_tags: extra,
        };
        proof {
            assert(model == Ok::<RowModel, Error>(row@));
        }
        Ok(row)
    }
}

/// Views of a vector of rows.
pub open spec fn row_views(v: Seq<StructuredMessage>) -> Seq<RowModel> {
    v.map_values(|m: StructuredMessage| m@)
}

/// An element-wise copy of a vector of owned strings.
pub fn copy_strings(v: &Vec<String>) -> (r: Vec<String>)
    ensures
        r@ == v@,
{
    let mut r: Vec<String> = Vec::new();
    let mut i: usize = 0;
    while i < v.len()
        invariant
            i <= v@.len(),
            r@ == v@.take(i as int),
        decreases v@.len() - i,
    {
        r.push(v[i].clone());
        i = i + 1;
        proof {
            assert(r@ =~= v@.take(i as int));
        }
    }
    proof {
        assert(v@.take(v@.len() as int) =~= v@);
    }
    r
}

/// An element-wise copy of a vector of tag pairs.
pub fn copy_pairs(v: &Vec<(String, String)>) -> (r: Vec<(String, String)>)
    ensures
        r@ == v@,
{
    let mut r: Vec<(String, String)> = Vec::new();
    let mut i: usize = 0;
    while i < v.len()
        invariant
            i <= v@.len(),
            r@ == v@.take(i as int),
        decreases v@.len() - i,
    {
        r.push((v[i].0.clone(), v[i].1.clone()));
        i = i + 1;
        proof {
            assert(v@[i - 1] == (v@[i - 1].0, v@[i - 1].1));
            assert(r@ =~= v@.take(i as int));
        }
    }
    proof {
        assert(v@.take(v@.len() as int) =~= v@);
    }
    r
}

impl StructuredMessage {
    /// A field-wise copy of this row.
    pub fn duplicate(&self) -> (r: StructuredMessage)
        ensures
            r@ == self@,
    {
        StructuredMessage {
            channel_id: self.channel_id.clone(),
            channel_login: self.channel_login.clone(),
            timestamp: self.timestamp,
            id: self.id,
            message_type: self.message_type,
            user_id: self.user_id.clone(),
            user_login: self.user_login.clone(),
            display_name: self.display_name.clone(),
            color: self.color,
            user_type: self.user_type.clone(),
            badges: copy_strings(&self.badges),
            badge_info: self.badge_info.clone(),
            client_nonce: self.client_nonce.clone(),
            emotes: self.emotes.clone(),
            automod_flags: self.automod_flags.clone(),
            text: self.text.clone(),
            message_flags: self.message_flags,
            extra_tags: copy_pairs(&self.extra_tags),
        }
    }
}

/// A tag emitted only under a condition (a non-empty field).
pub open spec fn cond_tag(cond: bool, k: Seq<char>, v: Seq<char>) -> Seq<(Seq<char>, Seq<char>)> {
    if cond {
        seq![(k, v)]
    } else {
        Seq::empty()
    }
}

/// The full tag set the encoder writes for a row, in order: the sent
/// timestamp always and first; one tag per set flag bit; identifier,
/// source and actor tags only when non-empty; badges and badge-info
/// always, even empty; the color when present; the three verbatim
/// fields always; the extra tags verbatim, in stored order.
pub open spec fn encode_tags(m: RowModel) -> Seq<(Seq<char>, Seq<char>)> {
    seq![("tmi-sent-ts"@, dec_digits(m.timestamp as nat))] + flags_tags(m.message_flags)
        + cond_tag(m.id != 0, "id"@, uuid_hyph(m.id)) + cond_tag(
        m.channel_id.len() > 0,
        "room-id"@,
        m.channel_id,
    ) + cond_tag(m.user_id.len() > 0, "user-id"@, m.user_id) + cond_tag(
        m.user_login.len() > 0,
        "login"@,
        m.user_login,
    ) + cond_tag(m.client_nonce.len() > 0, "client-nonce"@, m.client_nonce) + cond_tag(
        m.display_name.len() > 0,
        "display-name"@,
        m.display_name,
    ) + seq![("badges"@, join_commas_spec(m.badges)), ("badge-info"@, m.badge_info)] + (
    match m.color {
        Some(c) => seq![("color"@, seq!['#'] + color_digits(c as nat))],
        None => Seq::empty(),
    }) + seq![("flags"@, m.automod_flags), ("user-type"@, m.user_type), ("emotes"@, m.emotes)]
        + m.extra_tags
}

/// Appends clones of every pair of `extra` to `tags`.
fn push_all_pairs(tags: &mut Vec<(String, String)>, extra: &Vec<(String, String)>)
    ensures
        tag_views(final(tags)@) == tag_views(old(tags)@) + tag_views(extra@),
{
    let mut i: usize = 0;
    while i < extra.len()
        invariant
            i <= extra@.len(),
            tag_views(tags@) == tag_views(old(tags)@) + tag_views(extra@).take(i as int),
        decreases extra@.len() - i,
    {
        let pair = (extra[i].0.clone(), extra[i].1.clone());
        let ghost prev = tags@;
        tags.push(pair);
        i = i + 1;
        proof {
            assert(tag_views(tags@) =~= tag_views(prev).push(
                (extra@[i - 1].0@, extra@[i - 1].1@),
            ));
            assert(tag_views(extra@).take(i as int) =~= tag_views(extra@).take(i - 1).push(
                (extra@[i - 1].0@, extra@[i - 1].1@),
            ));
            assert(tag_views(tags@) =~= tag_views(old(tags)@) + tag_views(extra@).take(i as int));
        }
    }
    proof {
        assert(tag_views(extra@).take(extra@.len() as int) =~= tag_views(extra@));
    }
}

/// Appends `(k, v)` when `cond` holds.
fn push_cond(tags: &mut Vec<(String, String)>, cond: bool, k: &str, v: String)
    ensures
        tag_views(final(tags)@) == tag_views(old(tags)@) + cond_tag(cond, k@, v@),
{
    if cond {
        tags.push((String::from_str(k), v));
        proof {
            assert(tag_views(tags@) =~= tag_views(old(tags)@) + cond_tag(cond, k@, v@));
        }
    } else {
        proof {
            assert(tag_views(tags@) =~= tag_views(old(tags)@) + cond_tag(cond, k@, v@));
        }
    }
}

impl StructuredMessage {
    /// Encodes this row back into the protocol's tag set, exactly as
    /// [`encode_tags`] says.
    #[verifier::rlimit(100)]
    pub fn all_tags(&self) -> (r: Vec<(String, String)>)
        ensures
            tag_views(r@) == encode_tags(self@),
    {
        let mut tags: Vec<(String, String)> = Vec::new();
        tags.push((String::from_str("tmi-sent-ts"), crate::text::u64_to_string(self.timestamp)));
        let mut fl = self.message_flags.as_tags();
        tags.append(&mut fl);
        proof {
            assert(tag_views(tags@) =~= seq![("tmi-sent-ts"@, dec_digits(self.timestamp as nat))]
                + flags_tags(self.message_flags.bits));
        }
        push_cond(&mut tags, self.id != 0, "id", uuid_to_string(self.id));
        push_cond(
            &mut tags,
            !self.channel_id.as_str().is_empty(),
            "room-id",
            self.channel_id.clone(),
        );
        push_cond(&mut tags, !self.user_id.as_str().is_empty(), "user-id", self.user_id.clone());
        push_cond(
            &mut tags,
            !self.user_login.as_str().is_empty(),
            "login",
            self.user_login.clone(),
        );
        push_cond(
            &mut tags,
            !self.client_nonce.as_str().is_empty(),
            "client-nonce",
            self.client_nonce.clone(),
        );
        push_cond(
            &mut tags,
            !self.display_name.as_str().is_empty(),
            "display-name",
            self.display_name.clone(),
        );
        tags.push((String::from_str("badges"), crate::text::join_commas(&self.badges)));
        tags.push((String::from_str("badge-info"), self.badge_info.clone()));
        let ghost mid = tag_views(tags@);
        match self.color {
            Some(c) => {
                tags.push((String::from_str("color"), crate::text::color_to_string(c)));
                proof {
                    assert(tag_views(tags@) =~= mid + seq![
                        ("color"@, seq!['#'] + color_digits(c as nat)),
                    ]);
                }
            },
            None => {},
        }
        tags.push((String::from_str("flags"), self.automod_flags.clone()));
        tags.push((String::from_str("user-type"), self.user_type.clone()));
        tags.push((String::from_str("emotes"), self.emotes.clone()));
        push_all_pairs(&mut tags, &self.extra_tags);
        proof {
            assert(tag_views(tags@) =~= encode_tags(self@));
        }
        tags
    }
}


// ------------------------------------------------------------------
// The round-trip law: a tag of the wire line with a non-default,
// canonically rendered value reappears, with the same value, in the
// tag set the encoder writes for the decoded row; a boolean flag tag
// explicitly valued "0" is dropped by design.
// ------------------------------------------------------------------
/// Whether no two tags of a line share a key.
pub open spec fn distinct_keys(tags: Seq<(Seq<char>, Seq<char>)>) -> bool {
    forall|i: int, j: int|
        0 <= i < j < tags.len() ==> (#[trigger] tags[i]).0 != (#[trigger] tags[j]).0
}

/// The keys the tag walk maps to typed fields or drops.
pub open spec fn is_typed_key(k: Seq<char>) -> bool {
    k == "id"@ || k == "login"@ || k == "display-name"@ || k == "color"@ || k == "user-type"@
        || k == "badges"@ || k == "badge-info"@ || k == "emotes"@ || k == "client-nonce"@ || k
        == "flags"@ || k == "room-id"@ || k == "user-id"@ || k == "tmi-sent-ts"@ || k == "sent-ts"@
}

/// The keys kept verbatim as extra tags.
pub open spec fn is_extra_key(k: Seq<char>) -> bool {
    !is_typed_key(k) && flag_of_tag(k) is None
}

/// The ten flag bits.
pub open spec fn is_flag_bit(b: u16) -> bool {
    b == 1 || b == 2 || b == 4 || b == 8 || b == 16 || b == 32 || b == 64 || b == 128 || b == 256
        || b == 512
}

proof fn lemma_flag_bit_of_tag(k: Seq<char>)
    requires
        flag_of_tag(k) is Some,
    ensures
        is_flag_bit(flag_of_tag(k).unwrap()),
{
}

proof fn lemma_bit_set(x: u16, b: u16)
    requires
        is_flag_bit(b),
    ensures
        (x | b) & b != 0,
{
    assert((x | b) & b != 0) by (bit_vector)
        requires
            b == 1 || b == 2 || b == 4 || b == 8 || b == 16 || b == 32 || b == 64 || b == 128
                || b == 256 || b == 512,
    ;
}

proof fn lemma_bit_other(x: u16, b1: u16, b2: u16)
    requires
        is_flag_bit(b1),
        is_flag_bit(b2),
        b1 != b2,
    ensures
        (x | b2) & b1 == x & b1,
{
    assert((x | b2) & b1 == x & b1) by (bit_vector)
        requires
            (b1 == 1 || b1 == 2 || b1 == 4 || b1 == 8 || b1 == 16 || b1 == 32 || b1 == 64 || b1
                == 128 || b1 == 256 || b1 == 512) && (b2 == 1 || b2 == 2 || b2 == 4 || b2 == 8
                || b2 == 16 || b2 == 32 || b2 == 64 || b2 == 128 || b2 == 256 || b2 == 512) && b1
                != b2,
    ;
}

/// Fields whose key never occurs in the walked tags keep their value,
/// and nothing already kept verbatim is lost.
proof fn lemma_fold_untouched(acc: FieldsAcc, tags: Seq<(Seq<char>, Seq<char>)>)
    ensures
        (forall|j: int| 0 <= j < tags.len() ==> (#[trigger] tags[j]).0 != "id"@) ==> fold_tags(
            acc,
            tags,
        ).id == acc.id,
        (forall|j: int| 0 <= j < tags.len() ==> (#[trigger] tags[j]).0 != "login"@) ==> fold_tags(
            acc,
            tags,
        ).user_login == acc.user_login,
        (forall|j: int|
            0 <= j < tags.len() ==> (#[trigger] tags[j]).0 != "display-name"@) ==> fold_tags(
            acc,
            tags,
        ).display_name == acc.display_name,
        (forall|j: int| 0 <= j < tags.len() ==> (#[trigger] tags[j]).0 != "color"@) ==> fold_tags(
            acc,
            tags,
        ).color == acc.color,
        (forall|j: int|
            0 <= j < tags.len() ==> (#[trigger] tags[j]).0 != "user-type"@) ==> fold_tags(
            acc,
            tags,
        ).user_type == acc.user_type,
        (forall|j: int| 0 <= j < tags.len() ==> (#[trigger] tags[j]).0 != "badges"@) ==> fold_tags(
            acc,
            tags,
        ).badges == acc.badges,
        (forall|j: int|
            0 <= j < tags.len() ==> (#[trigger] tags[j]).0 != "badge-info"@) ==> fold_tags(
            acc,
            tags,
        ).badge_info == acc.badge_info,
        (forall|j: int| 0 <= j < tags.len() ==> (#[trigger] tags[j]).0 != "emotes"@) ==> fold_tags(
            acc,
            tags,
        ).emotes == acc.emotes,
        (forall|j: int|
            0 <= j < tags.len() ==> (#[trigger] tags[j]).0 != "client-nonce"@) ==> fold_tags(
            acc,
            tags,
        ).client_nonce == acc.client_nonce,
        (forall|j: int| 0 <= j < tags.len() ==> (#[trigger] tags[j]).0 != "flags"@) ==> fold_tags(
            acc,
            tags,
        ).automod_flags == acc.automod_flags,
        forall|p: (Seq<char>, Seq<char>)|
            acc.extra.contains(p) ==> #[trigger] fold_tags(acc, tags).extra.contains(p),
    decreases tags.len(),
{
    if tags.len() > 0 {
        let t0 = tags[0];
        let acc1 = apply_tag(acc, t0.0, t0.1);
        let rest = tags.drop_first();
        lemma_fold_untouched(acc1, rest);
        assert forall|p: (Seq<char>, Seq<char>)| acc.extra.contains(p) implies acc1.extra.contains(
            p,
        ) by {
            if acc1.extra != acc.extra {
                let w = choose|w: int| 0 <= w < acc.extra.len() && acc.extra[w] == p;
                assert(acc1.extra[w] == p);
            }
        }
        assert(forall|j: int| 0 <= j < rest.len() ==> (#[trigger] rest[j]) == tags[j + 1]);
    }
}

/// A flag bit no walked tag sets with value `"1"` keeps its state.
proof fn lemma_fold_flag_unset(acc: FieldsAcc, tags: Seq<(Seq<char>, Seq<char>)>, k: Seq<char>)
    requires
        flag_of_tag(k) is Some,
        forall|j: int|
            0 <= j < tags.len() ==> ((#[trigger] tags[j]).0 == k ==> tags[j].1 != "1"@),
    ensures
        fold_tags(acc, tags).flags_bits & flag_of_tag(k).unwrap() == acc.flags_bits & flag_of_tag(
            k,
        ).unwrap(),
    decreases tags.len(),
{
    let b = flag_of_tag(k).unwrap();
    lemma_flag_bit_of_tag(k);
    if tags.len() > 0 {
        let t0 = tags[0];
        let acc1 = apply_tag(acc, t0.0, t0.1);
        let rest = tags.drop_first();
        assert forall|j: int|
            0 <= j < rest.len() implies ((#[trigger] rest[j]).0 == k ==> rest[j].1 != "1"@) by {
            assert(rest[j] == tags[j + 1]);
        }
        lemma_fold_flag_unset(acc1, rest, k);
        if acc1.flags_bits != acc.flags_bits {
            let b2 = flag_of_tag(t0.0).unwrap();
            lemma_flag_bit_of_tag(t0.0);
            if t0.0 == k {
                assert(t0.1 != "1"@);
                assert(false);
            }
            assert(b2 != b);
            lemma_bit_other(acc.flags_bits, b, b2);
        }
    }
}

/// What the tag walk leaves in the field a tag feeds, when no later
/// tag shares its key.
#[verifier::rlimit(100)]
#[verifier::spinoff_prover]
proof fn lemma_fold_lookup(acc: FieldsAcc, tags: Seq<(Seq<char>, Seq<char>)>, i: int)
    requires
        0 <= i < tags.len(),
        forall|j: int| i < j < tags.len() ==> (#[trigger] tags[j]).0 != tags[i].0,
    ensures
        tags[i].0 == "id"@ && uuid_of(tags[i].1) is Some ==> fold_tags(acc, tags).id == uuid_of(
            tags[i].1,
        ).unwrap(),
        tags[i].0 == "id"@ && uuid_of(tags[i].1) is None ==> fold_tags(acc, tags).extra.contains(
            tags[i],
        ),
        tags[i].0 == "login"@ ==> fold_tags(acc, tags).user_login == tags[i].1,
        tags[i].0 == "display-name"@ ==> fold_tags(acc, tags).display_name == tags[i].1,
        tags[i].0 == "color"@ ==> fold_tags(acc, tags).color == hex_u32_of(
            strip_hashes(tags[i].1),
        ),
        tags[i].0 == "user-type"@ ==> fold_tags(acc, tags).user_type == tags[i].1,
        tags[i].0 == "badges"@ ==> fold_tags(acc, tags).badges == split_commas_spec(tags[i].1),
        tags[i].0 == "badge-info"@ ==> fold_tags(acc, tags).badge_info == tags[i].1,
        tags[i].0 == "emotes"@ ==> fold_tags(acc, tags).emotes == tags[i].1,
        tags[i].0 == "client-nonce"@ ==> fold_tags(acc, tags).client_nonce == tags[i].1,
        tags[i].0 == "flags"@ ==> fold_tags(acc, tags).automod_flags == tags[i].1,
        flag_of_tag(tags[i].0) is Some && tags[i].1 == "1"@ ==> fold_tags(acc, tags).flags_bits
            & flag_of_tag(tags[i].0).unwrap() != 0,
        is_extra_key(tags[i].0) ==> fold_tags(acc, tags).extra.contains(tags[i]),
    decreases i,
{
    // the walk dispatches on the key: reveal every table key, with a
    // length and one character each, so distinct keys are known to be
    // distinct character sequences
    reveal_strlit("id");
    reveal_strlit("login");
    reveal_strlit("display-name");
    reveal_strlit("color");
    reveal_strlit("user-type");
    reveal_strlit("badges");
    reveal_strlit("badge-info");
    reveal_strlit("emotes");
    reveal_strlit("client-nonce");
    reveal_strlit("flags");
    reveal_strlit("room-id");
    reveal_strlit("user-id");
    reveal_strlit("tmi-sent-ts");
    reveal_strlit("sent-ts");
    reveal_strlit("subscriber");
    reveal_strlit("vip");
    reveal_strlit("mod");
    reveal_strlit("turbo");
    reveal_strlit("first-msg");
    reveal_strlit("returning-chatter");
    reveal_strlit("emote-only");
    reveal_strlit("r9k");
    reveal_strlit("subs-only");
    reveal_strlit("slow");
    reveal_strlit("1");
    assert("id"@.len() == 2);
    assert("login"@.len() == 5);
    assert("display-name"@.len() == 12);
    assert("color"@.len() == 5);
    assert("user-type"@.len() == 9);
    assert("badges"@.len() == 6);
    assert("badge-info"@.len() == 10);
    assert("emotes"@.len() == 6);
    assert("client-nonce"@.len() == 12);
    assert("flags"@.len() == 5);
    assert("room-id"@.len() == 7);
    assert("user-id"@.len() == 7);
    assert("tmi-sent-ts"@.len() == 11);
    assert("sent-ts"@.len() == 7);
    assert("subscriber"@.len() == 10);
    assert("vip"@.len() == 3);
    assert("mod"@.len() == 3);
    assert("turbo"@.len() == 5);
    assert("first-msg"@.len() == 9);
    assert("returning-chatter"@.len() == 17);
    assert("emote-only"@.len() == 10);
    assert("r9k"@.len() == 3);
    assert("subs-only"@.len() == 9);
    assert("slow"@.len() == 4);
    assert("1"@.len() == 1);
    assert("id"@[0] == 'i');
    assert("login"@[0] == 'l');
    assert("display-name"@[0] == 'd');
    assert("color"@[0] == 'c');
    assert("user-type"@[0] == 'u');
    assert("user-type"@[4] == '-');
    assert("badges"@[0] == 'b');
    assert("badge-info"@[0] == 'b');
    assert("badge-info"@[5] == '-');
    assert("emotes"@[0] == 'e');
    assert("client-nonce"@[0] == 'c');
    assert("flags"@[0] == 'f');
    assert("room-id"@[0] == 'r');
    assert("user-id"@[0] == 'u');
    assert("user-id"@[4] == '-');
    assert("tmi-sent-ts"@[0] == 't');
    assert("sent-ts"@[0] == 's');
    assert("subscriber"@[0] == 's');
    assert("vip"@[0] == 'v');
    assert("mod"@[0] == 'm');
    assert("turbo"@[0] == 't');
    assert("first-msg"@[0] == 'f');
    assert("returning-chatter"@[0] == 'r');
    assert("emote-only"@[0] == 'e');
    assert("emote-only"@[5] == '-');
    assert("r9k"@[0] == 'r');
    assert("subs-only"@[0] == 's');
    assert("slow"@[0] == 's');
    assert("1"@[0] == '1');
    let t0 = tags[0];
    let acc1 = apply_tag(acc, t0.0, t0.1);
    let rest = tags.drop_first();
    if i == 0 {
        let k = t0.0;
        let v = t0.1;
        assert forall|j: int| 0 <= j < rest.len() implies (#[trigger] rest[j]).0 != k by {
            assert(rest[j] == tags[j + 1]);
        }
        lemma_fold_untouched(acc1, rest);
        if flag_of_tag(k) is Some && v == "1"@ {
            lemma_flag_bit_of_tag(k);
            assert(!is_typed_key(k));
            assert(acc1.flags_bits == acc.flags_bits | flag_of_tag(k).unwrap());
            lemma_bit_set(acc.flags_bits, flag_of_tag(k).unwrap());
            assert forall|j: int|
                0 <= j < rest.len() implies ((#[trigger] rest[j]).0 == k ==> rest[j].1
                != "1"@) by {
                assert(rest[j] == tags[j + 1]);
            }
            lemma_fold_flag_unset(acc1, rest, k);
        }
        if k == "id"@ && uuid_of(v) is None {
            assert(acc1.extra.last() == (k, v));
            assert(acc1.extra.contains((k, v)));
            assert(tags[i] == (k, v));
        }
        if is_extra_key(k) {
            assert(acc1.extra.last() == (k, v));
            assert(acc1.extra.contains((k, v)));
            assert(tags[i] == (k, v));
        }
    } else {
        assert forall|j: int|
            i - 1 < j < rest.len() implies (#[trigger] rest[j]).0 != rest[i - 1].0 by {
            assert(rest[j] == tags[j + 1]);
            assert(rest[i - 1] == tags[i]);
        }
        lemma_fold_lookup(acc1, rest, i - 1);
        assert(rest[i - 1] == tags[i]);
    }
}

/// A witness in either half is a witness in the concatenation.
proof fn lemma_contains_concat<T>(a: Seq<T>, b: Seq<T>, x: T)
    requires
        a.contains(x) || b.contains(x),
    ensures
        (a + b).contains(x),
{
    if a.contains(x) {
        let i = choose|i: int| 0 <= i < a.len() && a[i] == x;
        assert((a + b)[i] == x);
    } else {
        let i = choose|i: int| 0 <= i < b.len() && b[i] == x;
        assert((a + b)[a.len() + i] == x);
    }
}


/// A witness in a concatenation lies in one of the halves.
proof fn lemma_concat_contains_split<T>(a: Seq<T>, b: Seq<T>, x: T)
    requires
        (a + b).contains(x),
    ensures
        a.contains(x) || b.contains(x),
{
    let i = choose|i: int| 0 <= i < (a + b).len() && (a + b)[i] == x;
    if i < a.len() {
        assert(a[i] == x);
    } else {
        assert(b[i - a.len()] == x);
    }
}

/// A set flag bit's tag stands in the encoder's flag tags.
proof fn lemma_flags_contains(bits: u16, k: Seq<char>)
    requires
        flag_of_tag(k) is Some,
        bits & flag_of_tag(k).unwrap() != 0,
    ensures
        flags_tags(bits).contains((k, "1"@)),
{
    let e1 = flag_entry(bits, FLAG_SUBSCRIBER, "subscriber"@);
    let e2 = flag_entry(bits, FLAG_VIP, "vip"@);
    let e3 = flag_entry(bits, FLAG_MOD, "mod"@);
    let e4 = flag_entry(bits, FLAG_TURBO, "turbo"@);
    let e5 = flag_entry(bits, FLAG_FIRST_MSG, "first-msg"@);
    let e6 = flag_entry(bits, FLAG_RETURNING_CHATTER, "returning-chatter"@);
    let e7 = flag_entry(bits, FLAG_EMOTE_ONLY, "emote-only"@);
    let e8 = flag_entry(bits, FLAG_R9K, "r9k"@);
    let e9 = flag_entry(bits, FLAG_SUBS_ONLY, "subs-only"@);
    let e10 = flag_entry(bits, FLAG_SLOW_MODE, "slow"@);
    let x = (k, "1"@);
    assert(e1.contains(x) || e2.contains(x) || e3.contains(x) || e4.contains(x) || e5.contains(x)
        || e6.contains(x) || e7.contains(x) || e8.contains(x) || e9.contains(x) || e10.contains(
        x,
    )) by {
        let b = flag_of_tag(k).unwrap();
        if b == FLAG_SUBSCRIBER {
            assert(e1 == seq![(k, "1"@)]);
            assert(e1[0] == x);
        } else if b == FLAG_VIP {
            assert(e2[0] == x);
        } else if b == FLAG_MOD {
            assert(e3[0] == x);
        } else if b == FLAG_TURBO {
            assert(e4[0] == x);
        } else if b == FLAG_FIRST_MSG {
            assert(e5[0] == x);
        } else if b == FLAG_RETURNING_CHATTER {
            assert(e6[0] == x);
        } else if b == FLAG_EMOTE_ONLY {
            assert(e7[0] == x);
        } else if b == FLAG_R9K {
            assert(e8[0] == x);
        } else if b == FLAG_SUBS_ONLY {
            assert(e9[0] == x);
        } else {
            assert(e10[0] == x);
        }
    }
    let t2 = e1 + e2;
    if e1.contains(x) || e2.contains(x) {
        lemma_contains_concat(e1, e2, x);
    }
    let t3 = t2 + e3;
    if t2.contains(x) || e3.contains(x) {
        lemma_contains_concat(t2, e3, x);
    }
    let t4 = t3 + e4;
    if t3.contains(x) || e4.contains(x) {
        lemma_contains_concat(t3, e4, x);
    }
    let t5 = t4 + e5;
    if t4.contains(x) || e5.contains(x) {
        lemma_contains_concat(t4, e5, x);
    }
    let t6 = t5 + e6;
    if t5.contains(x) || e6.contains(x) {
        lemma_contains_concat(t5, e6, x);
    }
    let t7 = t6 + e7;
    if t6.contains(x) || e7.contains(x) {
        lemma_contains_concat(t6, e7, x);
    }
    let t8 = t7 + e8;
    if t7.contains(x) || e8.contains(x) {
        lemma_contains_concat(t7, e8, x);
    }
    let t9 = t8 + e9;
    if t8.contains(x) || e9.contains(x) {
        lemma_contains_concat(t8, e9, x);
    }
    let t10 = t9 + e10;
    if t9.contains(x) || e10.contains(x) {
        lemma_contains_concat(t9, e10, x);
    }
    assert(flags_tags(bits) == t10);
}

/// A pair in any component of the encoder's output is in the output.
proof fn lemma_encode_contains(m: RowModel, x: (Seq<char>, Seq<char>))
    requires
        seq![("tmi-sent-ts"@, dec_digits(m.timestamp as nat))].contains(x) || flags_tags(
            m.message_flags,
        ).contains(x) || cond_tag(m.id != 0, "id"@, uuid_hyph(m.id)).contains(x) || cond_tag(
            m.channel_id.len() > 0,
            "room-id"@,
            m.channel_id,
        ).contains(x) || cond_tag(m.user_id.len() > 0, "user-id"@, m.user_id).contains(x)
            || cond_tag(m.user_login.len() > 0, "login"@, m.user_login).contains(x) || cond_tag(
            m.client_nonce.len() > 0,
            "client-nonce"@,
            m.client_nonce,
        ).contains(x) || cond_tag(m.display_name.len() > 0, "display-name"@, m.display_name
        ).contains(x) || seq![
            ("badges"@, join_commas_spec(m.badges)),
            ("badge-info"@, m.badge_info),
        ].contains(x) || (match m.color {
            Some(c) => seq![("color"@, seq!['#'] + color_digits(c as nat))],
            None => Seq::<(Seq<char>, Seq<char>)>::empty(),
        }).contains(x) || seq![
            ("flags"@, m.automod_flags),
            ("user-type"@, m.user_type),
            ("emotes"@, m.emotes),
        ].contains(x) || m.extra_tags.contains(x),
    ensures
        encode_tags(m).contains(x),
{
    let p1 = seq![("tmi-sent-ts"@, dec_digits(m.timestamp as nat))];
    let p2 = flags_tags(m.message_flags);
    let p3 = cond_tag(m.id != 0, "id"@, uuid_hyph(m.id));
    let p4 = cond_tag(m.channel_id.len() > 0, "room-id"@, m.channel_id);
    let p5 = cond_tag(m.user_id.len() > 0, "user-id"@, m.user_id);
    let p6 = cond_tag(m.user_login.len() > 0, "login"@, m.user_login);
    let p7 = cond_tag(m.client_nonce.len() > 0, "client-nonce"@, m.client_nonce);
    let p8 = cond_tag(m.display_name.len() > 0, "display-name"@, m.display_name);
    let p9 = seq![("badges"@, join_commas_spec(m.badges)), ("badge-info"@, m.badge_info)];
    let p10 = match m.color {
        Some(c) => seq![("color"@, seq!['#'] + color_digits(c as nat))],
        None => Seq::<(Seq<char>, Seq<char>)>::empty(),
    };
    let p11 = seq![("flags"@, m.automod_flags), ("user-type"@, m.user_type), ("emotes"@, m.emotes)];
    let p12 = m.extra_tags;
    let t2 = p1 + p2;
    if p1.contains(x) || p2.contains(x) {
        lemma_contains_concat(p1, p2, x);
    }
    let t3 = t2 + p3;
    if t2.contains(x) || p3.contains(x) {
        lemma_contains_concat(t2, p3, x);
    }
    let t4 = t3 + p4;
    if t3.contains(x) || p4.contains(x) {
        lemma_contains_concat(t3, p4, x);
    }
    let t5 = t4 + p5;
    if t4.contains(x) || p5.contains(x) {
        lemma_contains_concat(t4, p5, x);
    }
    let t6 = t5 + p6;
    if t5.contains(x) || p6.contains(x) {
        lemma_contains_concat(t5, p6, x);
    }
    let t7 = t6 + p7;
    if t6.contains(x) || p7.contains(x) {
        lemma_contains_concat(t6, p7, x);
    }
    let t8 = t7 + p8;
    if t7.contains(x) || p8.contains(x) {
        lemma_contains_concat(t7, p8, x);
    }
    let t9 = t8 + p9;
    if t8.contains(x) || p9.contains(x) {
        lemma_contains_concat(t8, p9, x);
    }
    let t10 = t9 + p10;
    if t9.contains(x) || p10.contains(x) {
        lemma_contains_concat(t9, p10, x);
    }
    let t11 = t10 + p11;
    if t10.contains(x) || p11.contains(x) {
        lemma_contains_concat(t10, p11, x);
    }
    let t12 = t11 + p12;
    if t11.contains(x) || p12.contains(x) {
        lemma_contains_concat(t11, p12, x);
    }
    assert(encode_tags(m) == t12);
}

/// A canonically rendered color value parses back to its stored value.
pub proof fn lemma_color_round_trip(c: u32)
    ensures
        hex_u32_of(strip_hashes(seq!['#'] + color_digits(c as nat))) == Some(c),
{
    let digits = color_digits(c as nat);
    crate::text::lemma_color_digits_value(c);
    let s = seq!['#'] + digits;
    assert(s[0] == '#');
    assert(s.drop_first() =~= digits);
    assert(is_hex_digit(digits[0]));
    assert(digits[0] != '#');
    assert(leading_hashes(digits) == 0);
    assert(leading_hashes(s) == 1 + leading_hashes(digits));
    assert(strip_hashes(s) =~= digits);
    crate::text::lemma_hex_parse_digits(digits);
}

/// The tags of the wire line a row was decoded from.
pub open spec fn wire_tags(raw: Seq<char>) -> Seq<(Seq<char>, Seq<char>)> {
    match parse_line_spec(trim_line(raw)) {
        Some(l) => l.tags,
        None => Seq::empty(),
    }
}

/// The side conditions under which one wire tag is reproduced: its
/// value is non-default (non-empty, `"1"` for a flag) and canonically
/// rendered (hyphenated lower-case identifier, `#`-prefixed up-cased
/// color, decimal timestamp), and the identity tags agree with the
/// record around the line. The sent-ts tag is never written back.
pub open spec fn reproducible(
    k: Seq<char>,
    v: Seq<char>,
    channel_id: Seq<char>,
    user_id: Seq<char>,
    timestamp: u64,
) -> bool {
    if k == "id"@ {
        uuid_of(v) is None || (exists|u: u128|
            u != 0 && #[trigger] uuid_hyph(u) == v && uuid_of(v) == Some(u))
    } else if k == "login"@ || k == "display-name"@ || k == "client-nonce"@ {
        v.len() > 0
    } else if k == "color"@ {
        exists|c: u32| v == seq!['#'] + #[trigger] color_digits(c as nat)
    } else if k == "room-id"@ {
        v == channel_id && v.len() > 0
    } else if k == "user-id"@ {
        v == user_id && v.len() > 0
    } else if k == "tmi-sent-ts"@ {
        v == dec_digits(timestamp as nat)
    } else if k == "sent-ts"@ {
        false
    } else if flag_of_tag(k) is Some {
        v == "1"@
    } else {
        true
    }
}

/// Round trip of the codec: every tag of a decoded line whose value is
/// non-default and canonically rendered reappears, with the same
/// value, in the tag set the encoder writes for the row.
#[verifier::rlimit(100)]
#[verifier::spinoff_prover]
pub proof fn lemma_round_trip(
    channel_id: Seq<char>,
    user_id: Seq<char>,
    timestamp: u64,
    raw: Seq<char>,
    m: RowModel,
    i: int,
)
    requires
        decode_spec(channel_id, user_id, timestamp, raw) == Ok::<RowModel, Error>(m),
        distinct_keys(wire_tags(raw)),
        0 <= i < wire_tags(raw).len(),
        reproducible(wire_tags(raw)[i].0, wire_tags(raw)[i].1, channel_id, user_id, timestamp),
    ensures
        encode_tags(m).contains(wire_tags(raw)[i]),
{
    // reveal the table keys, as in the tag-walk lemmas
    reveal_strlit("id");
    reveal_strlit("login");
    reveal_strlit("display-name");
    reveal_strlit("color");
    reveal_strlit("user-type");
    reveal_strlit("badges");
    reveal_strlit("badge-info");
    reveal_strlit("emotes");
    reveal_strlit("client-nonce");
    reveal_strlit("flags");
    reveal_strlit("room-id");
    reveal_strlit("user-id");
    reveal_strlit("tmi-sent-ts");
    reveal_strlit("sent-ts");
    reveal_strlit("subscriber");
    reveal_strlit("vip");
    reveal_strlit("mod");
    reveal_strlit("turbo");
    reveal_strlit("first-msg");
    reveal_strlit("returning-chatter");
    reveal_strlit("emote-only");
    reveal_strlit("r9k");
    reveal_strlit("subs-only");
    reveal_strlit("slow");
    reveal_strlit("1");
    assert("id"@.len() == 2);
    assert("login"@.len() == 5);
    assert("display-name"@.len() == 12);
    assert("color"@.len() == 5);
    assert("user-type"@.len() == 9);
    assert("badges"@.len() == 6);
    assert("badge-info"@.len() == 10);
    assert("emotes"@.len() == 6);
    assert("client-nonce"@.len() == 12);
    assert("flags"@.len() == 5);
    assert("room-id"@.len() == 7);
    assert("user-id"@.len() == 7);
    assert("tmi-sent-ts"@.len() == 11);
    assert("sent-ts"@.len() == 7);
    assert("subscriber"@.len() == 10);
    assert("vip"@.len() == 3);
    assert("mod"@.len() == 3);
    assert("turbo"@.len() == 5);
    assert("first-msg"@.len() == 9);
    assert("returning-chatter"@.len() == 17);
    assert("emote-only"@.len() == 10);
    assert("r9k"@.len() == 3);
    assert("subs-only"@.len() == 9);
    assert("slow"@.len() == 4);
    assert("1"@.len() == 1);
    assert("id"@[0] == 'i');
    assert("login"@[0] == 'l');
    assert("display-name"@[0] == 'd');
    assert("color"@[0] == 'c');
    assert("user-type"@[0] == 'u');
    assert("badges"@[0] == 'b');
    assert("badge-info"@[0] == 'b');
    assert("badge-info"@[5] == '-');
    assert("emotes"@[0] == 'e');
    assert("client-nonce"@[0] == 'c');
    assert("flags"@[0] == 'f');
    assert("room-id"@[0] == 'r');
    assert("user-id"@[0] == 'u');
    assert("user-id"@[4] == '-');
    assert("user-type"@[4] == '-');
    assert("tmi-sent-ts"@[0] == 't');
    assert("sent-ts"@[0] == 's');
    assert("subscriber"@[0] == 's');
    assert("vip"@[0] == 'v');
    assert("mod"@[0] == 'm');
    assert("turbo"@[0] == 't');
    assert("first-msg"@[0] == 'f');
    assert("returning-chatter"@[0] == 'r');
    assert("emote-only"@[0] == 'e');
    assert("emote-only"@[5] == '-');
    assert("r9k"@[0] == 'r');
    assert("subs-only"@[0] == 's');
    assert("slow"@[0] == 's');
    assert("1"@[0] == '1');
    let s = trim_line(raw);
    let line = parse_line_spec(s).unwrap();
    let tags = line.tags;
    let kind = kind_of_command(line.command).unwrap();
    let tl = text_and_login(kind, line, seq_or_empty(line.nick)).unwrap();
    let acc = fold_tags(init_acc(tl.1), tags);
    assert(m.id == acc.id && m.user_login == acc.user_login && m.display_name == acc.display_name
        && m.color == acc.color && m.user_type == acc.user_type && m.badges == acc.badges
        && m.badge_info == acc.badge_info && m.client_nonce == acc.client_nonce && m.emotes
        == acc.emotes && m.automod_flags == acc.automod_flags && m.message_flags == acc.flags_bits
        && m.extra_tags == acc.extra && m.channel_id == channel_id && m.user_id == user_id
        && m.timestamp == timestamp);
    assert forall|j: int| i < j < tags.len() implies (#[trigger] tags[j]).0 != tags[i].0 by {}
    lemma_fold_lookup(init_acc(tl.1), tags, i);
    let k = tags[i].0;
    let v = tags[i].1;
    let x = (k, v);
    if k == "tmi-sent-ts"@ {
        let p1 = seq![("tmi-sent-ts"@, dec_digits(m.timestamp as nat))];
        assert(p1[0] == x);
        lemma_encode_contains(m, x);
    } else if k == "id"@ {
        if uuid_of(v) is None {
            assert(m.extra_tags.contains(x));
            lemma_encode_contains(m, x);
        } else {
            let u = choose|u: u128|
                u != 0 && #[trigger] uuid_hyph(u) == v && uuid_of(v) == Some(u);
            assert(m.id == u);
            let p3 = cond_tag(m.id != 0, "id"@, uuid_hyph(m.id));
            assert(p3[0] == x);
            lemma_encode_contains(m, x);
        }
    } else if k == "login"@ {
        let p6 = cond_tag(m.user_login.len() > 0, "login"@, m.user_login);
        assert(p6[0] == x);
        lemma_encode_contains(m, x);
    } else if k == "display-name"@ {
        let p8 = cond_tag(m.display_name.len() > 0, "display-name"@, m.display_name);
        assert(p8[0] == x);
        lemma_encode_contains(m, x);
    } else if k == "client-nonce"@ {
        let p7 = cond_tag(m.client_nonce.len() > 0, "client-nonce"@, m.client_nonce);
        assert(p7[0] == x);
        lemma_encode_contains(m, x);
    } else if k == "color"@ {
        let c = choose|c: u32| v == seq!['#'] + #[trigger] color_digits(c as nat);
        lemma_color_round_trip(c);
        assert(m.color == Some(c));
        let p10 = seq![("color"@, seq!['#'] + color_digits(c as nat))];
        assert(p10[0] == x);
        lemma_encode_contains(m, x);
    } else if k == "room-id"@ {
        let p4 = cond_tag(m.channel_id.len() > 0, "room-id"@, m.channel_id);
        assert(p4[0] == x);
        lemma_encode_contains(m, x);
    } else if k == "user-id"@ {
        let p5 = cond_tag(m.user_id.len() > 0, "user-id"@, m.user_id);
        assert(p5[0] == x);
        lemma_encode_contains(m, x);
    } else if k == "badges"@ {
        crate::text::lemma_join_split(v);
        assert(join_commas_spec(m.badges) == v);
        let p9 = seq![("badges"@, join_commas_spec(m.badges)), ("badge-info"@, m.badge_info)];
        assert(p9[0] == x);
        lemma_encode_contains(m, x);
    } else if k == "badge-info"@ {
        let p9 = seq![("badges"@, join_commas_spec(m.badges)), ("badge-info"@, m.badge_info)];
        assert(p9[1] == x);
        lemma_encode_contains(m, x);
    } else if k == "flags"@ {
        let p11 = seq![
            ("flags"@, m.automod_flags),
            ("user-type"@, m.user_type),
            ("emotes"@, m.emotes),
        ];
        assert(p11[0] == x);
        lemma_encode_contains(m, x);
    } else if k == "user-type"@ {
        let p11 = seq![
            ("flags"@, m.automod_flags),
            ("user-type"@, m.user_type),
            ("emotes"@, m.emotes),
        ];
        assert(p11[1] == x);
        lemma_encode_contains(m, x);
    } else if k == "emotes"@ {
        let p11 = seq![
            ("flags"@, m.automod_flags),
            ("user-type"@, m.user_type),
            ("emotes"@, m.emotes),
        ];
        assert(p11[2] == x);
        lemma_encode_contains(m, x);
    } else if flag_of_tag(k) is Some {
        assert(v == "1"@);
        lemma_flags_contains(m.message_flags, k);
        lemma_encode_contains(m, x);
    } else {
        assert(is_extra_key(k));
        assert(m.extra_tags.contains(x));
        lemma_encode_contains(m, x);
    }
}

/// The documented asymmetry of the round trip: a boolean flag tag
/// explicitly valued `"0"` (or any value other than `"1"`) leaves its
/// bit clear, and the encoder writes no tag for it.
pub proof fn lemma_flag_zero_dropped(
    channel_id: Seq<char>,
    user_id: Seq<char>,
    timestamp: u64,
    raw: Seq<char>,
    m: RowModel,
    i: int,
)
    requires
        decode_spec(channel_id, user_id, timestamp, raw) == Ok::<RowModel, Error>(m),
        distinct_keys(wire_tags(raw)),
        0 <= i < wire_tags(raw).len(),
        flag_of_tag(wire_tags(raw)[i].0) is Some,
        wire_tags(raw)[i].1 != "1"@,
    ensures
        m.message_flags & flag_of_tag(wire_tags(raw)[i].0).unwrap() == 0,
        !flags_tags(m.message_flags).contains((wire_tags(raw)[i].0, "1"@)),
{
    let s = trim_line(raw);
    let line = parse_line_spec(s).unwrap();
    let tags = line.tags;
    let kind = kind_of_command(line.command).unwrap();
    let tl = text_and_login(kind, line, seq_or_empty(line.nick)).unwrap();
    let k = tags[i].0;
    let b = flag_of_tag(k).unwrap();
    assert forall|j: int|
        0 <= j < tags.len() implies ((#[trigger] tags[j]).0 == k ==> tags[j].1 != "1"@) by {
        if j != i && tags[j].0 == k {
            if j < i {
                assert(tags[j].0 != tags[i].0);
            }
        }
    }
    lemma_fold_flag_unset(init_acc(tl.1), tags, k);
    assert(init_acc(tl.1).flags_bits == 0);
    lemma_flag_bit_of_tag(k);
    assert(0u16 & b == 0) by (bit_vector);
    assert(m.message_flags & b == 0);
    let bits = m.message_flags;
    if flags_tags(bits).contains((k, "1"@)) {
        reveal_strlit("subscriber");
        reveal_strlit("vip");
        reveal_strlit("mod");
        reveal_strlit("turbo");
        reveal_strlit("first-msg");
        reveal_strlit("returning-chatter");
        reveal_strlit("emote-only");
        reveal_strlit("r9k");
        reveal_strlit("subs-only");
        reveal_strlit("slow");
        reveal_strlit("1");
        assert("subscriber"@.len() == 10);
        assert("vip"@.len() == 3);
        assert("mod"@.len() == 3);
        assert("turbo"@.len() == 5);
        assert("first-msg"@.len() == 9);
        assert("returning-chatter"@.len() == 17);
        assert("emote-only"@.len() == 10);
        assert("r9k"@.len() == 3);
        assert("subs-only"@.len() == 9);
        assert("slow"@.len() == 4);
        assert("subscriber"@[0] == 's');
        assert("vip"@[0] == 'v');
        assert("mod"@[0] == 'm');
        assert("turbo"@[0] == 't');
        assert("first-msg"@[0] == 'f');
        assert("returning-chatter"@[0] == 'r');
        assert("emote-only"@[0] == 'e');
        assert("r9k"@[0] == 'r');
        assert("subs-only"@[0] == 's');
        assert("slow"@[0] == 's');
        assert("emote-only"@[5] == '-');
        let e1 = flag_entry(bits, FLAG_SUBSCRIBER, "subscriber"@);
        let e2 = flag_entry(bits, FLAG_VIP, "vip"@);
        let e3 = flag_entry(bits, FLAG_MOD, "mod"@);
        let e4 = flag_entry(bits, FLAG_TURBO, "turbo"@);
        let e5 = flag_entry(bits, FLAG_FIRST_MSG, "first-msg"@);
        let e6 = flag_entry(bits, FLAG_RETURNING_CHATTER, "returning-chatter"@);
        let e7 = flag_entry(bits, FLAG_EMOTE_ONLY, "emote-only"@);
        let e8 = flag_entry(bits, FLAG_R9K, "r9k"@);
        let e9 = flag_entry(bits, FLAG_SUBS_ONLY, "subs-only"@);
        let e10 = flag_entry(bits, FLAG_SLOW_MODE, "slow"@);
        let x = (k, "1"@);
        let c2 = e1 + e2;
        let c3 = c2 + e3;
        let c4 = c3 + e4;
        let c5 = c4 + e5;
        let c6 = c5 + e6;
        let c7 = c6 + e7;
        let c8 = c7 + e8;
        let c9 = c8 + e9;
        assert(flags_tags(bits) == c9 + e10);
        lemma_concat_contains_split(c9, e10, x);
        if !e10.contains(x) {
            lemma_concat_contains_split(c8, e9, x);
            if !e9.contains(x) {
                lemma_concat_contains_split(c7, e8, x);
                if !e8.contains(x) {
                    lemma_concat_contains_split(c6, e7, x);
                    if !e7.contains(x) {
                        lemma_concat_contains_split(c5, e6, x);
                        if !e6.contains(x) {
                            lemma_concat_contains_split(c4, e5, x);
                            if !e5.contains(x) {
                                lemma_concat_contains_split(c3, e4, x);
                                if !e4.contains(x) {
                                    lemma_concat_contains_split(c2, e3, x);
                                    if !e3.contains(x) {
                                        lemma_concat_contains_split(e1, e2, x);
                                    }
                                }
                            }
                        }
                    }
                }
            }
        }
        assert(false);
    }
}

} // verus!
