use rustlog::Error;
use rustlog::irc::extract_message_text;
use rustlog::irc::unescape;
use rustlog::schema::FLAG_SUBSCRIBER;
use rustlog::schema::FLAG_VIP;
use rustlog::schema::MessageFlags;
use rustlog::schema::MessageType;
use rustlog::schema::StructuredMessage;
use rustlog::schema::UnstructuredMessage;
use rustlog::schema::uuid_to_string;
use rustlog::text::color_to_string;
use rustlog::text::parse_hex_u32;
use rustlog::text::split_commas;
use rustlog::text::u64_to_string;

#[test]
fn from_unstructured_privmsg() {
    let raw = "@returning-chatter=0;user-id=68136884;user-type=;badges=vip/1,subscriber/60;mod=0;display-name=Supibot;room-id=22484632;flags=;emotes=;first-msg=0;vip=1;tmi-sent-ts=1709251274940;id=272e342c-5864-4c59-b730-25908cdb7f57;subscriber=1;turbo=0;color=#1E90FF;badge-info=subscriber/65 :supibot!supibot@supibot.tmi.twitch.tv PRIVMSG #forsen :+join \u{e0000}";
    let unstructured = UnstructuredMessage {
        channel_id: "22484632".into(),
        user_id: "68136884".into(),
        timestamp: 1709251274940,
        raw: raw.into(),
    };

    let message = StructuredMessage::from_unstructured(&unstructured).unwrap();

    let expected_message = StructuredMessage {
        channel_id: "22484632".into(),
        channel_login: "forsen".into(),
        timestamp: 1709251274940,
        user_id: "68136884".into(),
        id: uuid::Uuid::parse_str("272e342c-5864-4c59-b730-25908cdb7f57").unwrap().as_u128(),
        message_type: MessageType::PrivMsg,
        user_login: "supibot".into(),
        display_name: "Supibot".into(),
        message_flags: MessageFlags { bits: FLAG_VIP | FLAG_SUBSCRIBER },
        color: Some(0x1E90FF),
        user_type: "".into(),
        badges: vec!["vip/1".into(), "subscriber/60".into()],
        badge_info: "subscriber/65".into(),
        client_nonce: "".into(),
        emotes: "".into(),
        automod_flags: "".into(),
        text: "+join \u{e0000}".into(),
        extra_tags: vec![],
    };

    assert_eq!(expected_message, message);
}

#[test]
fn roundtrip_tags() {
    let raw = "@returning-chatter=0;user-id=68136884;user-type=;badges=vip/1,subscriber/60;mod=0;display-name=Supibot;room-id=22484632;flags=;emotes=;first-msg=0;vip=1;tmi-sent-ts=1709251274940;id=272e342c-5864-4c59-b730-25908cdb7f57;subscriber=1;turbo=0;color=#1E90FF;badge-info=subscriber/65 :supibot!supibot@supibot.tmi.twitch.tv PRIVMSG #forsen :+join \u{e0000}";
    let unstructured = UnstructuredMessage {
        channel_id: "22484632".into(),
        user_id: "68136884".into(),
        timestamp: 1709251274940,
        raw: raw.into(),
    };

    let message = StructuredMessage::from_unstructured(&unstructured).unwrap();
    let tags = message.all_tags();

    let irc_msg = tmi::IrcMessageRef::parse(raw).unwrap();

    for (original_tag, original_value) in irc_msg.tags() {
        if MessageFlags::from_tag(original_tag).is_some() && original_value == "0" {
            continue;
        }

        let value = tags
            .iter()
            .find(|(tag, _)| tag.as_str() == original_tag)
            .map(|(_, value)| value)
            .unwrap_or_else(|| panic!("Could not find tag {}", original_tag));
        assert_eq!(original_value, value.as_str());
    }
}

#[test]
fn decode_concrete_privmsg() {
    let raw = "@subscriber=1;display-name=Foo;color=#1E90FF;id=272e342c-5864-4c59-b730-25908cdb7f57 :foo!foo@foo PRIVMSG #bar :hello";
    let unstructured = UnstructuredMessage {
        channel_id: "42".into(),
        user_id: "7".into(),
        timestamp: 1000,
        raw: raw.into(),
    };
    let message = StructuredMessage::from_unstructured(&unstructured).unwrap();
    assert_eq!(message.message_type, MessageType::PrivMsg);
    assert!(message.message_flags.contains(MessageFlags { bits: FLAG_SUBSCRIBER }));
    assert_eq!(message.display_name.as_str(), "Foo");
    assert_eq!(message.color, Some(0x1E90FF));
    assert_eq!(message.text.as_str(), "hello");
    assert_eq!(message.channel_login.as_str(), "bar");
    assert_eq!(message.user_login.as_str(), "foo");

    let tags = message.all_tags();
    assert!(tags.iter().any(|(k, v)| k == "subscriber" && v == "1"));
    assert!(tags.iter().any(|(k, v)| k == "display-name" && v == "Foo"));
    assert!(tags.iter().any(|(k, v)| k == "color" && v == "#1E90FF"));
    assert!(
        tags.iter().any(|(k, v)| k == "id" && v == "272e342c-5864-4c59-b730-25908cdb7f57")
    );
}

#[test]
fn decode_error_cases() {
    let empty = UnstructuredMessage {
        channel_id: "1".into(),
        user_id: "2".into(),
        timestamp: 0,
        raw: "   \0 ".into(),
    };
    assert_eq!(StructuredMessage::from_unstructured(&empty), Err(Error::ParseError));

    let unknown = UnstructuredMessage {
        channel_id: "1".into(),
        user_id: "2".into(),
        timestamp: 0,
        raw: "FROBNICATE #chan :hi".into(),
    };
    assert_eq!(StructuredMessage::from_unstructured(&unknown), Err(Error::UnknownMessageKind));

    let notice = UnstructuredMessage {
        channel_id: "1".into(),
        user_id: "2".into(),
        timestamp: 0,
        raw: "@msg-id=sub USERNOTICE #chan :hi".into(),
    };
    assert_eq!(StructuredMessage::from_unstructured(&notice), Err(Error::MissingRequiredTag));
}

#[test]
fn decode_clear_chat() {
    let timed = UnstructuredMessage {
        channel_id: "1".into(),
        user_id: "2".into(),
        timestamp: 0,
        raw: "@ban-duration=600 CLEARCHAT #chan :baduser".into(),
    };
    let m = StructuredMessage::from_unstructured(&timed).unwrap();
    assert_eq!(m.message_type, MessageType::ClearChat);
    assert_eq!(m.text.as_str(), "baduser has been timed out for 600 seconds");
    assert_eq!(m.user_login.as_str(), "baduser");

    let permanent = UnstructuredMessage {
        channel_id: "1".into(),
        user_id: "2".into(),
        timestamp: 0,
        raw: "CLEARCHAT #chan :baduser".into(),
    };
    let m = StructuredMessage::from_unstructured(&permanent).unwrap();
    assert_eq!(m.text.as_str(), "baduser has been banned");

    let cleared = UnstructuredMessage {
        channel_id: "1".into(),
        user_id: "2".into(),
        timestamp: 0,
        raw: "CLEARCHAT #chan".into(),
    };
    let m = StructuredMessage::from_unstructured(&cleared).unwrap();
    assert_eq!(m.text.as_str(), "Chat has been cleared");
}

#[test]
fn decode_user_notice() {
    let sub = UnstructuredMessage {
        channel_id: "1".into(),
        user_id: "2".into(),
        timestamp: 0,
        raw: "@system-msg=User\\ssubscribed USERNOTICE #chan :many thanks".into(),
    };
    let m = StructuredMessage::from_unstructured(&sub).unwrap();
    assert_eq!(m.message_type, MessageType::UserNotice);
    assert_eq!(m.text.as_str(), "User subscribed many thanks");
}

#[test]
fn unknown_tags_kept_verbatim() {
    let msg = UnstructuredMessage {
        channel_id: "1".into(),
        user_id: "2".into(),
        timestamp: 0,
        raw: "@msg-id=highlighted-message;custom-reward-id=abc PRIVMSG #chan :hi".into(),
    };
    let m = StructuredMessage::from_unstructured(&msg).unwrap();
    assert_eq!(
        m.extra_tags,
        vec![
            ("msg-id".to_string(), "highlighted-message".to_string()),
            ("custom-reward-id".to_string(), "abc".to_string()),
        ]
    );
    let tags = m.all_tags();
    assert!(tags.iter().any(|(k, v)| k == "msg-id" && v == "highlighted-message"));
}

#[test]
fn unescape_wire_values() {
    assert_eq!(unescape("a\\sb"), "a b");
    assert_eq!(unescape("semi\\:colon"), "semi;colon");
    assert_eq!(unescape("back\\\\slash"), "back\\slash");
    assert_eq!(unescape("line\\nbreak\\rret"), "line\nbreak\rret");
    assert_eq!(unescape("orn\u{2e1d}ament"), "orn,ament");
    assert_eq!(unescape("trailing\\"), "trailing");
}

#[test]
fn extract_text_forms() {
    assert_eq!(extract_message_text(":hello there"), "hello there");
    assert_eq!(extract_message_text("   padded"), "padded");
    assert_eq!(extract_message_text(":\u{1}ACTION waves\u{1}"), "waves");
    assert_eq!(extract_message_text("plain"), "plain");
}

#[test]
fn message_type_mapping() {
    assert_eq!(MessageType::from_command("PRIVMSG"), Some(MessageType::PrivMsg));
    assert_eq!(MessageType::from_command("CLEARCHAT"), Some(MessageType::ClearChat));
    assert_eq!(MessageType::from_command("USERNOTICE"), Some(MessageType::UserNotice));
    assert_eq!(MessageType::from_command("353"), None);
    assert_eq!(MessageType::from_command("CAP"), None);
    assert_eq!(MessageType::PrivMsg.as_u8(), 1);
    assert_eq!(MessageType::GlobalUserState.as_u8(), 14);
}

#[test]
fn flag_tags_round() {
    assert_eq!(MessageFlags::from_tag("subscriber"), Some(MessageFlags { bits: 1 }));
    assert_eq!(MessageFlags::from_tag("slow"), Some(MessageFlags { bits: 512 }));
    assert_eq!(MessageFlags::from_tag("badges"), None);
    let flags = MessageFlags { bits: FLAG_VIP | FLAG_SUBSCRIBER };
    let tags = flags.as_tags();
    assert_eq!(
        tags,
        vec![
            ("subscriber".to_string(), "1".to_string()),
            ("vip".to_string(), "1".to_string()),
        ]
    );
}

#[test]
fn numeric_renderings() {
    assert_eq!(u64_to_string(0), "0");
    assert_eq!(u64_to_string(1709251274940), "1709251274940");
    assert_eq!(color_to_string(0x1E90FF), "#1E90FF");
    assert_eq!(color_to_string(0xFF), "#00FF");
    assert_eq!(parse_hex_u32("1E90FF"), Some(0x1E90FF));
    assert_eq!(parse_hex_u32("1e90ff"), Some(0x1E90FF));
    assert_eq!(parse_hex_u32("+1A"), Some(0x1A));
    assert_eq!(parse_hex_u32(""), None);
    assert_eq!(parse_hex_u32("xyz"), None);
    assert_eq!(parse_hex_u32("1FFFFFFFF"), None);
    assert_eq!(
        uuid_to_string(
            uuid::Uuid::parse_str("272e342c-5864-4c59-b730-25908cdb7f57").unwrap().as_u128()
        ),
        "272e342c-5864-4c59-b730-25908cdb7f57"
    );
}

#[test]
fn split_badges() {
    assert_eq!(split_commas("vip/1,subscriber/60"), vec!["vip/1", "subscriber/60"]);
    assert_eq!(split_commas(""), vec![""]);
    assert_eq!(split_commas("a,,b"), vec!["a", "", "b"]);
}

#[test]
fn color_and_id_fallbacks() {
    // an unparsable color is dropped silently, not an error
    let msg = UnstructuredMessage {
        channel_id: "1".into(),
        user_id: "2".into(),
        timestamp: 0,
        raw: "@color=zzz PRIVMSG #c :x".into(),
    };
    let m = StructuredMessage::from_unstructured(&msg).unwrap();
    assert_eq!(m.color, None);

    // an unparsable identifier is kept verbatim as an extra tag
    let msg = UnstructuredMessage {
        channel_id: "1".into(),
        user_id: "2".into(),
        timestamp: 0,
        raw: "@id=nope PRIVMSG #c :x".into(),
    };
    let m = StructuredMessage::from_unstructured(&msg).unwrap();
    assert_eq!(m.id, 0);
    assert_eq!(m.extra_tags, vec![("id".to_string(), "nope".to_string())]);
    let tags = m.all_tags();
    assert!(tags.iter().any(|(k, v)| k == "id" && v == "nope"));
}

#[test]
fn login_tag_overrides_prefix() {
    let msg = UnstructuredMessage {
        channel_id: "1".into(),
        user_id: "2".into(),
        timestamp: 0,
        raw: "@login=real :pref!pref@pref.example PRIVMSG #c :x".into(),
    };
    let m = StructuredMessage::from_unstructured(&msg).unwrap();
    assert_eq!(m.user_login.as_str(), "real");

    // a flag tag valued "0" sets nothing and is not written back
    let msg = UnstructuredMessage {
        channel_id: "1".into(),
        user_id: "2".into(),
        timestamp: 0,
        raw: "@subscriber=0 PRIVMSG #c :x".into(),
    };
    let m = StructuredMessage::from_unstructured(&msg).unwrap();
    assert_eq!(m.message_flags.bits, 0);
    assert!(!m.all_tags().iter().any(|(k, _)| k == "subscriber"));
}
