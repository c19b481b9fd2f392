use crate::hub::{
    connect_verdict, after_connect, after_disconnect, after_disconnects, after_send, after_tick, queue_of,
    tick_calls, tick_sends, Callbacks, HubModel,
};
use crate::lua_type::LuaType;
use crate::peer::Recipient;
use crate::routing::{
    absent_from, lemma_absent_from_contains, lemma_absent_from_covered, lemma_absent_from_unique,
    route_sends, route_unreachable, transitions, PeerEvent,
};
use vstd::prelude::*;

verus! {

/// A channel that is connected and then asked to disconnect has no live
/// connection, no callbacks and no queue once the next tick's disconnect
/// phase has run.
pub proof fn lemma_disconnect_after_connect(m: HubModel, ch: Seq<char>, cbs: Callbacks)
    ensures
        ({
            let done = after_disconnects(after_disconnect(after_connect(m, ch, cbs), ch));
            &&& !done.peers.contains_key(ch)
            &&& !done.callbacks.contains_key(ch)
            &&& !done.outbox.contains_key(ch)
        }),
{
    let p = after_disconnect(after_connect(m, ch, cbs), ch).pending;
    assert(p[p.len() - 1] == ch);
    assert(p.to_set().contains(ch));
}

/// A `connect` whose second, third or fourth argument is not callable is
/// refused before any callback is registered.
pub proof fn lemma_uncallable_connect_refused(
    channel: Seq<char>,
    joined: LuaType,
    message: LuaType,
    left: LuaType,
)
    requires
        joined != LuaType::Function || message != LuaType::Function || left
            != LuaType::Function,
    ensures
        connect_verdict(channel, joined, message, left) is Err,
{
}

/// A broadcast adds one delivery of its payload for each connected peer to
/// what the channel's next tick hands to the transport.
pub proof fn lemma_broadcast_reaches_every_peer(
    m: HubModel,
    ch: Seq<char>,
    msg: Seq<char>,
    connected: Seq<u128>,
)
    ensures
        tick_sends(after_send(m, ch, Recipient::All, msg), ch, connected) == tick_sends(
            m,
            ch,
            connected,
        ) + connected.map_values(|p: u128| (p, msg)),
        connected.map_values(|p: u128| (p, msg)).len() == connected.len(),
{
    let q = queue_of(m, ch).push((Recipient::All, msg));
    assert(q.drop_last() =~= queue_of(m, ch));
    assert(queue_of(after_send(m, ch, Recipient::All, msg), ch) == q);
}

/// A message addressed to a peer that is not connected adds no delivery to
/// the channel's next tick, and one unreachable recipient.
pub proof fn lemma_unconnected_recipient_gets_nothing(
    m: HubModel,
    ch: Seq<char>,
    peer: u128,
    msg: Seq<char>,
    connected: Seq<u128>,
)
    requires
        !connected.contains(peer),
    ensures
        tick_sends(after_send(m, ch, Recipient::Peer(peer), msg), ch, connected) == tick_sends(
            m,
            ch,
            connected,
        ),
        route_unreachable(queue_of(after_send(m, ch, Recipient::Peer(peer), msg), ch), connected)
            == route_unreachable(queue_of(m, ch), connected).push(peer),
{
    let q = queue_of(m, ch).push((Recipient::Peer(peer), msg));
    assert(q.drop_last() =~= queue_of(m, ch));
    assert(queue_of(after_send(m, ch, Recipient::Peer(peer), msg), ch) == q);
    assert(route_sends(q, connected) =~= route_sends(queue_of(m, ch), connected));
    assert(route_unreachable(q, connected) =~= route_unreachable(queue_of(m, ch), connected).push(
        peer,
    ));
}

/// Between two peer sets without repeats, each peer that arrived gives one
/// join, each that went gives one leave, and nothing else is reported.
pub proof fn lemma_peer_events_exactly_once(previous: Seq<u128>, current: Seq<u128>)
    requires
        previous.no_duplicates(),
        current.no_duplicates(),
    ensures
        transitions(previous, current).no_duplicates(),
        forall|p: u128|
            transitions(previous, current).contains(PeerEvent::Joined(p)) <==> (current.contains(p)
                && !previous.contains(p)),
        forall|p: u128|
            transitions(previous, current).contains(PeerEvent::Left(p)) <==> (previous.contains(p)
                && !current.contains(p)),
{
    let joined = absent_from(current, previous);
    let left = absent_from(previous, current);
    lemma_absent_from_unique(current, previous);
    lemma_absent_from_unique(previous, current);
    let js = joined.map_values(|p: u128| PeerEvent::Joined(p));
    let ls = left.map_values(|p: u128| PeerEvent::Left(p));
    let t = transitions(previous, current);
    assert(t == js + ls);
    assert forall|i: int, j: int| 0 <= i < j < t.len() implies t[i] != t[j] by {
        if j < js.len() {
            assert(joined[i] != joined[j]);
        } else if i >= js.len() {
            assert(left[i - js.len()] != left[j - js.len()]);
        }
    }
    assert forall|p: u128| t.contains(PeerEvent::Joined(p)) <==> (current.contains(p)
        && !previous.contains(p)) by {
        lemma_absent_from_contains(current, previous, p);
        if t.contains(PeerEvent::Joined(p)) {
            let i = choose|i: int| 0 <= i < t.len() && t[i] == PeerEvent::Joined(p);
            assert(i < js.len());
            assert(joined[i] == p);
        }
        if joined.contains(p) {
            let i = choose|i: int| 0 <= i < joined.len() && joined[i] == p;
            assert(t[i] == PeerEvent::Joined(p));
        }
    }
    assert forall|p: u128| t.contains(PeerEvent::Left(p)) <==> (previous.contains(p)
        && !current.contains(p)) by {
        lemma_absent_from_contains(previous, current, p);
        if t.contains(PeerEvent::Left(p)) {
            let i = choose|i: int| 0 <= i < t.len() && t[i] == PeerEvent::Left(p);
            assert(i >= js.len());
            assert(left[i - js.len()] == p);
        }
        if left.contains(p) {
            let i = choose|i: int| 0 <= i < left.len() && left[i] == p;
            assert(t[i + js.len()] == PeerEvent::Left(p));
        }
    }
}

/// A second tick that reports the same peers as the one before, with no
/// message received, invokes no callback.
pub proof fn lemma_repeated_tick_is_quiet(m: HubModel, ch: Seq<char>, connected: Seq<u128>)
    ensures
        tick_calls(after_tick(m, ch, connected), ch, connected, Seq::empty()) == Seq::<
            (i32, Seq<Seq<char>>),
        >::empty(),
{
    assert forall|i: int| 0 <= i < connected.len() implies connected.contains(
        #[trigger] connected[i],
    ) by {}
    lemma_absent_from_covered(connected, connected);
    let m2 = after_tick(m, ch, connected);
    if m2.callbacks.contains_key(ch) {
        assert(transitions(connected, connected) =~= Seq::<PeerEvent>::empty());
        assert(tick_calls(m2, ch, connected, Seq::empty()) =~= Seq::<
            (i32, Seq<Seq<char>>),
        >::empty());
    }
}

/// A message queued before its channel is asked to disconnect is gone once
/// the disconnect phase has run: a later tick of that channel hands nothing
/// to the transport.
pub proof fn lemma_disconnect_discards_queue(
    m: HubModel,
    ch: Seq<char>,
    to: Recipient,
    msg: Seq<char>,
    connected: Seq<u128>,
)
    ensures
        ({
            let done = after_disconnects(after_disconnect(after_send(m, ch, to, msg), ch));
            &&& queue_of(done, ch) == Seq::<(Recipient, Seq<char>)>::empty()
            &&& tick_sends(done, ch, connected) == Seq::<(u128, Seq<char>)>::empty()
        }),
{
    let p = after_disconnect(after_send(m, ch, to, msg), ch).pending;
    assert(p[p.len() - 1] == ch);
    assert(p.to_set().contains(ch));
}

} // verus!
