use darktide_plugin_rtc::{
    check_connect, peer_text, Callbacks, ChannelHub, ConnectError, LuaType, Recipient, SendError,
    TickReport, SIGNALING_BASE,
};

const P: u128 = 0x550e8400_e29b_41d4_a716_446655440000;
const P_TEXT: &str = "550e8400-e29b-41d4-a716-446655440000";
const Q: u128 = 0x6fa459ea_ee8a_3ca4_894e_db77e160355e;
const R: u128 = 0x00000000_0000_0000_0000_000000000001;

fn callbacks() -> Callbacks {
    Callbacks { on_peer_joined: 11, on_message: 12, on_peer_left: 13 }
}

fn call_list(report: &TickReport) -> Vec<(i32, Vec<String>)> {
    report.calls.iter().map(|c| (c.callback, c.args.clone())).collect()
}

fn send_list(report: &TickReport) -> Vec<(u128, String)> {
    report.sends.iter().map(|d| (d.peer, d.payload.clone())).collect()
}

#[test]
fn lobby_scenario() {
    let mut hub = ChannelHub::new();
    let url = hub.connect("lobby", callbacks());
    assert_eq!(url, format!("{SIGNALING_BASE}lobby"));

    let first = hub.tick_channel("lobby", vec![], vec![]);
    assert!(first.calls.is_empty());
    assert!(hub.is_live("lobby"));

    let joined = hub.tick_channel("lobby", vec![P], vec![]);
    assert_eq!(call_list(&joined), vec![(11, vec![P_TEXT.to_string()])]);

    let again = hub.tick_channel("lobby", vec![P], vec![]);
    assert!(again.calls.is_empty());

    assert_eq!(hub.send("lobby", "all", "hi".to_string()), Ok(()));
    let sent = hub.tick_channel("lobby", vec![P], vec![]);
    assert_eq!(send_list(&sent), vec![(P, "hi".to_string())]);
    assert!(sent.unreachable.is_empty());

    assert!(hub.disconnect("lobby"));
    let closed = hub.process_disconnects();
    assert_eq!(closed, vec!["lobby".to_string()]);
    assert!(!hub.is_live("lobby"));
    assert!(!hub.accepts_messages("lobby"));

    assert_eq!(hub.send("lobby", "all", "late".to_string()), Ok(()));
    assert_eq!(hub.queued("lobby"), 1);
    assert!(!hub.is_live("lobby"));
}

#[test]
fn connect_then_disconnect_leaves_no_connection() {
    let mut hub = ChannelHub::new();
    hub.connect("room", callbacks());
    hub.tick_channel("room", vec![P], vec![]);
    assert!(hub.is_live("room"));
    assert!(hub.disconnect("room"));
    assert!(hub.is_live("room"));
    hub.process_disconnects();
    assert!(!hub.is_live("room"));
    assert!(!hub.accepts_messages("room"));
    assert_eq!(hub.queued("room"), 0);
}

#[test]
fn broadcast_sends_once_to_each_peer() {
    let mut hub = ChannelHub::new();
    hub.connect("room", callbacks());
    assert_eq!(hub.send("room", "all", "hello".to_string()), Ok(()));
    let report = hub.tick_channel("room", vec![P, Q, R], vec![]);
    assert_eq!(
        send_list(&report),
        vec![(P, "hello".to_string()), (Q, "hello".to_string()), (R, "hello".to_string())]
    );
    assert_eq!(hub.queued("room"), 0);
}

#[test]
fn broadcast_without_peers_sends_nothing() {
    let mut hub = ChannelHub::new();
    assert_eq!(hub.send("room", "all", "hello".to_string()), Ok(()));
    let report = hub.tick_channel("room", vec![], vec![]);
    assert!(report.sends.is_empty());
    assert!(report.unreachable.is_empty());
    assert_eq!(hub.queued("room"), 0);
}

#[test]
fn addressed_send_to_absent_peer_is_unreachable() {
    let mut hub = ChannelHub::new();
    hub.connect("room", callbacks());
    assert_eq!(hub.send("room", P_TEXT, "psst".to_string()), Ok(()));
    let report = hub.tick_channel("room", vec![Q], vec![]);
    assert!(report.sends.is_empty());
    assert_eq!(report.unreachable, vec![P]);
}

#[test]
fn addressed_send_to_connected_peer_is_delivered() {
    let mut hub = ChannelHub::new();
    assert_eq!(hub.send("room", "550E8400E29B41D4A716446655440000", "psst".to_string()), Ok(()));
    assert_eq!(hub.send("room", "all", "loud".to_string()), Ok(()));
    let report = hub.tick_channel("room", vec![Q, P], vec![]);
    assert_eq!(
        send_list(&report),
        vec![(P, "psst".to_string()), (Q, "loud".to_string()), (P, "loud".to_string())]
    );
}

#[test]
fn malformed_recipient_is_refused() {
    let mut hub = ChannelHub::new();
    assert_eq!(hub.send("room", "everyone", "x".to_string()), Err(SendError::InvalidRecipient));
    assert_eq!(hub.send("room", "ALL", "x".to_string()), Err(SendError::InvalidRecipient));
    assert_eq!(hub.send("room", "550e8400-e29b-41d4-a716", "x".to_string()), Err(SendError::InvalidRecipient));
    assert_eq!(hub.queued("room"), 0);
    let report = hub.tick_channel("room", vec![P], vec![]);
    assert!(report.sends.is_empty());
}

#[test]
fn empty_channel_is_refused() {
    let mut hub = ChannelHub::new();
    assert_eq!(hub.send("", "all", "x".to_string()), Err(SendError::MissingChannel));
    assert!(!hub.disconnect(""));
    assert!(hub.process_disconnects().is_empty());
}

#[test]
fn peer_events_fire_once_per_transition() {
    let mut hub = ChannelHub::new();
    hub.connect("room", callbacks());
    let a = hub.tick_channel("room", vec![P, Q], vec![]);
    assert_eq!(
        call_list(&a),
        vec![(11, vec![peer_text(P)]), (11, vec![peer_text(Q)])]
    );
    let b = hub.tick_channel("room", vec![Q, P], vec![]);
    assert!(b.calls.is_empty());
    let c = hub.tick_channel("room", vec![Q, R], vec![]);
    assert_eq!(call_list(&c), vec![(11, vec![peer_text(R)]), (13, vec![peer_text(P)])]);
    let d = hub.tick_channel("room", vec![Q, R], vec![]);
    assert!(d.calls.is_empty());
}

#[test]
fn peer_events_need_callbacks() {
    let mut hub = ChannelHub::new();
    let report = hub.tick_channel("room", vec![P], vec![(P, b"hi".to_vec())]);
    assert!(report.calls.is_empty());
    assert!(hub.is_live("room"));
}

#[test]
fn disconnect_discards_queued_messages() {
    let mut hub = ChannelHub::new();
    hub.connect("room", callbacks());
    hub.tick_channel("room", vec![P], vec![]);
    assert_eq!(hub.send("room", "all", "never".to_string()), Ok(()));
    assert!(hub.disconnect("room"));
    hub.process_disconnects();
    assert_eq!(hub.queued("room"), 0);
    let report = hub.tick_channel("room", vec![P], vec![]);
    assert!(report.sends.is_empty());
}

#[test]
fn disconnect_keeps_other_channels() {
    let mut hub = ChannelHub::new();
    hub.connect("a", callbacks());
    hub.connect("b", callbacks());
    hub.tick_channel("a", vec![], vec![]);
    hub.tick_channel("b", vec![], vec![]);
    assert_eq!(hub.send("b", "all", "stay".to_string()), Ok(()));
    assert!(hub.disconnect("a"));
    assert!(hub.disconnect("a"));
    assert_eq!(hub.process_disconnects(), vec!["a".to_string(), "a".to_string()]);
    assert!(!hub.is_live("a"));
    assert!(hub.is_live("b"));
    assert!(hub.accepts_messages("b"));
    assert_eq!(hub.queued("b"), 1);
}

#[test]
fn inbound_messages_reach_message_callback() {
    let mut hub = ChannelHub::new();
    hub.connect("room", callbacks());
    let report = hub.tick_channel(
        "room",
        vec![P],
        vec![(P, b"first".to_vec()), (Q, vec![b'o', 0xff, b'k'])],
    );
    assert_eq!(
        call_list(&report),
        vec![
            (11, vec![P_TEXT.to_string()]),
            (12, vec!["first".to_string(), P_TEXT.to_string()]),
            (12, vec!["o\u{FFFD}k".to_string(), peer_text(Q)]),
        ]
    );
}

#[test]
fn reconnect_replaces_callbacks() {
    let mut hub = ChannelHub::new();
    hub.connect("room", callbacks());
    hub.connect("room", Callbacks { on_peer_joined: 21, on_message: 22, on_peer_left: 23 });
    let report = hub.tick_channel("room", vec![P], vec![]);
    assert_eq!(call_list(&report), vec![(21, vec![P_TEXT.to_string()])]);
}

#[test]
fn connect_arguments_are_checked() {
    let f = LuaType::Function;
    assert_eq!(check_connect("lobby", f, f, f), Ok(()));
    assert_eq!(
        check_connect("lobby", LuaType::Number, f, f),
        Err(ConnectError::JoinedNotFunction(LuaType::Number))
    );
    assert_eq!(
        check_connect("lobby", f, LuaType::Nil, f),
        Err(ConnectError::MessageNotFunction(LuaType::Nil))
    );
    assert_eq!(
        check_connect("lobby", f, f, LuaType::Table),
        Err(ConnectError::LeftNotFunction(LuaType::Table))
    );
    assert_eq!(
        check_connect("", LuaType::String, f, f),
        Err(ConnectError::JoinedNotFunction(LuaType::String))
    );
    assert_eq!(check_connect("", f, f, f), Err(ConnectError::MissingChannel));
}

#[test]
fn peer_text_is_hyphenated_lower_case() {
    assert_eq!(peer_text(P), P_TEXT);
    assert_eq!(peer_text(R), "00000000-0000-0000-0000-000000000001");
    assert_eq!(peer_text(u128::MAX), "ffffffff-ffff-ffff-ffff-ffffffffffff");
}

#[test]
fn recipients_parse() {
    assert_eq!(Recipient::parse("all"), Some(Recipient::All));
    assert_eq!(Recipient::parse(P_TEXT), Some(Recipient::Peer(P)));
    assert_eq!(Recipient::parse("{550e8400-e29b-41d4-a716-446655440000}"), Some(Recipient::Peer(P)));
    assert_eq!(Recipient::parse(""), None);
    assert_eq!(Recipient::parse("all "), None);
}

#[test]
fn lua_types_from_numbers() {
    assert_eq!(LuaType::from(-1), LuaType::Absent);
    assert_eq!(LuaType::from(0), LuaType::Nil);
    assert_eq!(LuaType::from(1), LuaType::Boolean);
    assert_eq!(LuaType::from(2), LuaType::LightUserdata);
    assert_eq!(LuaType::from(3), LuaType::Number);
    assert_eq!(LuaType::from(4), LuaType::String);
    assert_eq!(LuaType::from(5), LuaType::Table);
    assert_eq!(LuaType::from(6), LuaType::Function);
    assert_eq!(LuaType::from(7), LuaType::Userdata);
    assert_eq!(LuaType::from(8), LuaType::Thread);
    assert_eq!(LuaType::from(9), LuaType::Unknown(9));
    assert_eq!(LuaType::from(-2), LuaType::Unknown(-2));
}

#[test]
fn lua_type_names() {
    assert_eq!(LuaType::Absent.name(), "None");
    assert_eq!(LuaType::Function.name(), "Function");
    assert_eq!(LuaType::String.name(), "String");
    assert_eq!(LuaType::Unknown(42).name(), "Unknown(42)");
    assert_eq!(LuaType::Unknown(-12).name(), "Unknown(-12)");
    assert_eq!(LuaType::Unknown(0).name(), "Unknown(0)");
}

#[test]
fn enqueue_appends_in_order() {
    let mut hub = ChannelHub::new();
    hub.enqueue("room", Recipient::Peer(P), "one".to_string());
    hub.enqueue("room", Recipient::All, "two".to_string());
    assert_eq!(hub.queued("room"), 2);
    assert_eq!(hub.queued("other"), 0);
    let report = hub.tick_channel("room", vec![P], vec![]);
    assert_eq!(send_list(&report), vec![(P, "one".to_string()), (P, "two".to_string())]);
}
