use darktide_plugin_rtc::{
    peer_transitions, peers_absent_from, route, Outgoing, PeerEvent, Recipient,
};

#[test]
fn absent_peers_keep_order() {
    assert_eq!(peers_absent_from(&vec![5, 1, 4, 2], &vec![4, 9]), vec![5, 1, 2]);
    assert_eq!(peers_absent_from(&vec![], &vec![4, 9]), Vec::<u128>::new());
    assert_eq!(peers_absent_from(&vec![4], &vec![4]), Vec::<u128>::new());
}

#[test]
fn transitions_between_peer_sets() {
    assert_eq!(
        peer_transitions(&vec![1, 2, 3], &vec![3, 4, 1]),
        vec![PeerEvent::Joined(4), PeerEvent::Left(2)]
    );
    assert_eq!(peer_transitions(&vec![1, 2], &vec![2, 1]), Vec::<PeerEvent>::new());
    assert_eq!(
        peer_transitions(&vec![], &vec![7]),
        vec![PeerEvent::Joined(7)]
    );
    assert_eq!(
        peer_transitions(&vec![7], &vec![]),
        vec![PeerEvent::Left(7)]
    );
}

#[test]
fn route_keeps_queue_order() {
    let queue = vec![
        Outgoing { recipient: Recipient::Peer(2), message: "a".to_string() },
        Outgoing { recipient: Recipient::All, message: "b".to_string() },
        Outgoing { recipient: Recipient::Peer(9), message: "c".to_string() },
        Outgoing { recipient: Recipient::Peer(1), message: "d".to_string() },
    ];
    let routed = route(&queue, &vec![1, 2]);
    let sends: Vec<(u128, String)> =
        routed.sends.iter().map(|d| (d.peer, d.payload.clone())).collect();
    assert_eq!(
        sends,
        vec![
            (2, "a".to_string()),
            (1, "b".to_string()),
            (2, "b".to_string()),
            (1, "d".to_string()),
        ]
    );
    assert_eq!(routed.unreachable, vec![9]);
}
