use crate::channel_map::ChannelMap;
use crate::lua_type::LuaType;
use crate::peer::{hyphenated, peer_text, recipient_of, Recipient};
use crate::routing::{
    peer_transitions, queue_view, route, route_sends, route_unreachable, sends_view, transitions,
    Delivery, Outgoing, PeerEvent,
};
use vstd::prelude::*;

verus! {

/// The signalling service that a channel's connection URL starts with.
pub const SIGNALING_BASE: &'static str = "wss://rtc-darkti-de.onrender.com/";

/// What `String::from_utf8_lossy` makes of a payload: its text, with each
/// invalid sequence replaced.
pub uninterp spec fn utf8_lossy(b: Seq<u8>) -> Seq<char>;

/// Relies on `String::from_utf8_lossy` to decode a payload; the owned copy
/// holds the same text.
#[verifier::external_body]
fn decode_lossy(b: &[u8]) -> (r: String)
    ensures
        r@ == utf8_lossy(b@),
{
    String::from_utf8_lossy(b).into_owned()
}

/// The three script callbacks of a channel, as handles into the script
/// engine's registry.
#[derive(Clone, Copy, Debug, PartialEq, Eq, Structural)]
pub struct Callbacks {
    pub on_peer_joined: i32,
    pub on_message: i32,
    pub on_peer_left: i32,
}

/// Why a `connect` call is refused.
#[derive(Clone, Copy, Debug, PartialEq, Eq, Structural)]
pub enum ConnectError {
    /// The peer-joined argument is not callable; its type is given.
    JoinedNotFunction(LuaType),
    /// The message argument is not callable.
    MessageNotFunction(LuaType),
    /// The peer-left argument is not callable.
    LeftNotFunction(LuaType),
    /// The channel name is missing or empty.
    MissingChannel,
}

/// Why a `send` call is refused.
#[derive(Clone, Copy, Debug, PartialEq, Eq, Structural)]
pub enum SendError {
    /// The channel name is missing or empty.
    MissingChannel,
    /// The recipient is neither the broadcast word nor a peer identifier.
    InvalidRecipient,
}

/// The verdict on the arguments of a `connect` call: the callback
/// arguments are checked in order, then the channel name.
pub open spec fn connect_verdict(
    channel: Seq<char>,
    joined: LuaType,
    message: LuaType,
    left: LuaType,
) -> Result<(), ConnectError> {
    if joined != LuaType::Function {
        Err(ConnectError::JoinedNotFunction(joined))
    } else if message != LuaType::Function {
        Err(ConnectError::MessageNotFunction(message))
    } else if left != LuaType::Function {
        Err(ConnectError::LeftNotFunction(left))
    } else if channel.len() == 0 {
        Err(ConnectError::MissingChannel)
    } else {
        Ok(())
    }
}

/// Checks the arguments of a `connect` call before anything is registered.
pub fn check_connect(channel: &str, joined: LuaType, message: LuaType, left: LuaType) -> (r:
    Result<(), ConnectError>)
    ensures
        r == connect_verdict(channel@, joined, message, left),
{
    if joined != LuaType::Function {
        Err(ConnectError::JoinedNotFunction(joined))
    } else if message != LuaType::Function {
        Err(ConnectError::MessageNotFunction(message))
    } else if left != LuaType::Function {
        Err(ConnectError::LeftNotFunction(left))
    } else if channel.unicode_len() == 0 {
        Err(ConnectError::MissingChannel)
    } else {
        Ok(())
    }
}

/// A call of a script callback with text arguments.
pub struct ScriptCall {
    pub callback: i32,
    pub args: Vec<String>,
}

impl View for ScriptCall {
    type V = (i32, Seq<Seq<char>>);

    open spec fn view(&self) -> (i32, Seq<Seq<char>>) {
        (self.callback, self.args@.map_values(|s: String| s@))
    }
}

/// What one tick of a live channel hands back: the callbacks to invoke in
/// order, the payloads for the transport, and the addressed recipients that
/// were not connected.
pub struct TickReport {
    pub calls: Vec<ScriptCall>,
    pub sends: Vec<Delivery>,
    pub unreachable: Vec<u128>,
}

/// The state of every channel, as plain values.
pub struct HubModel {
    /// Registered callbacks by channel.
    pub callbacks: Map<Seq<char>, Callbacks>,
    /// Queued outgoing messages by channel, oldest first.
    pub outbox: Map<Seq<char>, Seq<(Recipient, Seq<char>)>>,
    /// Channels asked to disconnect since the last tick, in order.
    pub pending: Seq<Seq<char>>,
    /// For each live channel, the peers it reported at its last tick.
    pub peers: Map<Seq<char>, Seq<u128>>,
}

pub open spec fn queue_of(m: HubModel, ch: Seq<char>) -> Seq<(Recipient, Seq<char>)> {
    if m.outbox.contains_key(ch) {
        m.outbox[ch]
    } else {
        Seq::empty()
    }
}

pub open spec fn previous_peers(m: HubModel, ch: Seq<char>) -> Seq<u128> {
    if m.peers.contains_key(ch) {
        m.peers[ch]
    } else {
        Seq::empty()
    }
}

/// `connect`: the callbacks replace any earlier ones of the channel.
pub open spec fn after_connect(m: HubModel, ch: Seq<char>, cbs: Callbacks) -> HubModel {
    HubModel { callbacks: m.callbacks.insert(ch, cbs), ..m }
}

/// `send`: the message joins the end of the channel's queue.
pub open spec fn after_send(m: HubModel, ch: Seq<char>, r: Recipient, msg: Seq<char>) -> HubModel {
    HubModel { outbox: m.outbox.insert(ch, queue_of(m, ch).push((r, msg))), ..m }
}

/// `disconnect`: the channel joins the pending list.
pub open spec fn after_disconnect(m: HubModel, ch: Seq<char>) -> HubModel {
    HubModel { pending: m.pending.push(ch), ..m }
}

/// The disconnect phase: every pending channel loses its peers, queue and
/// callbacks, and the pending list empties.
pub open spec fn after_disconnects(m: HubModel) -> HubModel {
    let gone = m.pending.to_set();
    HubModel {
        callbacks: m.callbacks.remove_keys(gone),
        outbox: m.outbox.remove_keys(gone),
        pending: Seq::empty(),
        peers: m.peers.remove_keys(gone),
    }
}

/// A live channel's tick: its peers become those reported now, and its
/// queue is drained.
pub open spec fn after_tick(m: HubModel, ch: Seq<char>, connected: Seq<u128>) -> HubModel {
    HubModel { peers: m.peers.insert(ch, connected), outbox: m.outbox.remove(ch), ..m }
}

pub open spec fn event_call(e: PeerEvent, c: Callbacks) -> (i32, Seq<Seq<char>>) {
    match e {
        PeerEvent::Joined(p) => (c.on_peer_joined, seq![hyphenated(p)]),
        PeerEvent::Left(p) => (c.on_peer_left, seq![hyphenated(p)]),
    }
}

pub open spec fn message_call(msg: (u128, Seq<u8>), c: Callbacks) -> (i32, Seq<Seq<char>>) {
    (c.on_message, seq![utf8_lossy(msg.1), hyphenated(msg.0)])
}

/// The callbacks a live channel's tick invokes: one per peer transition,
/// then one per inbound message in arrival order; none without callbacks.
pub open spec fn tick_calls(
    m: HubModel,
    ch: Seq<char>,
    connected: Seq<u128>,
    inbound: Seq<(u128, Seq<u8>)>,
) -> Seq<(i32, Seq<Seq<char>>)> {
    if m.callbacks.contains_key(ch) {
        let c = m.callbacks[ch];
        transitions(previous_peers(m, ch), connected).map_values(|e: PeerEvent| event_call(e, c))
            + inbound.map_values(|x: (u128, Seq<u8>)| message_call(x, c))
    } else {
        Seq::empty()
    }
}

/// The payloads a live channel's tick hands to the transport.
pub open spec fn tick_sends(m: HubModel, ch: Seq<char>, connected: Seq<u128>) -> Seq<
    (u128, Seq<char>),
> {
    route_sends(queue_of(m, ch), connected)
}

pub open spec fn inbound_view(v: Seq<(u128, Vec<u8>)>) -> Seq<(u128, Seq<u8>)> {
    v.map_values(|x: (u128, Vec<u8>)| (x.0, x.1@))
}

pub open spec fn calls_view(v: Seq<ScriptCall>) -> Seq<(i32, Seq<Seq<char>>)> {
    v.map_values(|c: ScriptCall| c@)
}

fn event_script_call(e: PeerEvent, c: Callbacks) -> (r: ScriptCall)
    ensures
        r@ == event_call(e, c),
{
    let (callback, peer) = match e {
        PeerEvent::Joined(p) => (c.on_peer_joined, p),
        PeerEvent::Left(p) => (c.on_peer_left, p),
    };
    let args = vec![peer_text(peer)];
    assert(args@.map_values(|s: String| s@) =~= seq![hyphenated(peer)]);
    ScriptCall { callback, args }
}

fn message_script_call(msg: &(u128, Vec<u8>), c: Callbacks) -> (r: ScriptCall)
    ensures
        r@ == message_call((msg.0, msg.1@), c),
{
    let args = vec![decode_lossy(msg.1.as_slice()), peer_text(msg.0)];
    assert(args@.map_values(|s: String| s@) =~= seq![utf8_lossy(msg.1@), hyphenated(msg.0)]);
    ScriptCall { callback: c.on_message, args }
}

/// The channels' callbacks, queues, disconnect requests and peer registries.
pub struct ChannelHub {
    callbacks: ChannelMap<Callbacks>,
    outbox: ChannelMap<Vec<Outgoing>>,
    pending: Vec<String>,
    peers: ChannelMap<Vec<u128>>,
}

impl View for ChannelHub {
    type V = HubModel;

    closed spec fn view(&self) -> HubModel {
        HubModel {
            callbacks: self.callbacks@,
            outbox: self.outbox@.map_values(|v: Vec<Outgoing>| queue_view(v@)),
            pending: self.pending@.map_values(|s: String| s@),
            peers: self.peers@.map_values(|v: Vec<u128>| v@),
        }
    }
}

impl ChannelHub {
    pub closed spec fn wf(&self) -> bool {
        self.callbacks.wf() && self.outbox.wf() && self.peers.wf()
    }

    /// A hub with no channels.
    pub fn new() -> (r: Self)
        ensures
            r.wf(),
            r@.callbacks == Map::<Seq<char>, Callbacks>::empty(),
            r@.outbox == Map::<Seq<char>, Seq<(Recipient, Seq<char>)>>::empty(),
            r@.pending == Seq::<Seq<char>>::empty(),
            r@.peers == Map::<Seq<char>, Seq<u128>>::empty(),
    {
        let r = ChannelHub {
            callbacks: ChannelMap::new(),
            outbox: ChannelMap::new(),
            pending: Vec::new(),
            peers: ChannelMap::new(),
        };
        assert(r@.outbox =~= Map::<Seq<char>, Seq<(Recipient, Seq<char>)>>::empty());
        assert(r@.pending =~= Seq::<Seq<char>>::empty());
        assert(r@.peers =~= Map::<Seq<char>, Seq<u128>>::empty());
        r
    }

    /// Registers a channel's callbacks, replacing earlier ones, and gives
    /// the URL that its connection is opened on.
    pub fn connect(&mut self, channel: &str, callbacks: Callbacks) -> (url: String)
        requires
            old(self).wf(),
            channel@.len() > 0,
        ensures
            final(self).wf(),
            final(self)@ == after_connect(old(self)@, channel@, callbacks),
            url@ == SIGNALING_BASE@ + channel@,
    {
        self.callbacks.insert(channel, callbacks);
        let mut url = String::from_str(SIGNALING_BASE);
        url.append(channel);
        url
    }

    /// Appends a message for a recipient to a channel's queue, making the
    /// queue where the channel has none.
    pub fn enqueue(&mut self, channel: &str, to: Recipient, message: String)
        requires
            old(self).wf(),
        ensures
            final(self).wf(),
            final(self)@ == after_send(old(self)@, channel@, to, message@),
    {
        let ghost m = self@;
        let ghost msg = message@;
        let mut queue = match self.outbox.remove(channel) {
            Some(q) => q,
            None => Vec::new(),
        };
        assert(queue_view(queue@) == queue_of(m, channel@));
        queue.push(Outgoing { recipient: to, message });
        assert(queue_view(queue@) =~= queue_of(m, channel@).push((to, msg)));
        self.outbox.insert(channel, queue);
        assert(self@.outbox =~= m.outbox.insert(channel@, queue_of(m, channel@).push((to, msg))));
    }

    /// Queues a message for a channel. The recipient is the broadcast word
    /// or a peer identifier; the queue is made where the channel has none.
    pub fn send(&mut self, channel: &str, recipient: &str, message: String) -> (r: Result<
        (),
        SendError,
    >)
        requires
            old(self).wf(),
        ensures
            final(self).wf(),
            channel@.len() == 0 ==> r == Err::<(), SendError>(SendError::MissingChannel),
            channel@.len() > 0 && recipient_of(recipient@) is None ==> r == Err::<(), SendError>(
                SendError::InvalidRecipient,
            ),
            r is Err ==> final(self)@ == old(self)@,
            channel@.len() > 0 && recipient_of(recipient@) is Some ==> {
                &&& r is Ok
                &&& final(self)@ == after_send(
                    old(self)@,
                    channel@,
                    recipient_of(recipient@)->0,
                    message@,
                )
            },
    {
        if channel.unicode_len() == 0 {
            return Err(SendError::MissingChannel);
        }
        let to = match Recipient::parse(recipient) {
            Some(to) => to,
            None => {
                return Err(SendError::InvalidRecipient);
            },
        };
        self.enqueue(channel, to, message);
        Ok(())
    }

    /// Asks for a channel to be torn down at the next tick. Refused, with
    /// nothing asked, where the name is empty.
    pub fn disconnect(&mut self, channel: &str) -> (r: bool)
        requires
            old(self).wf(),
        ensures
            final(self).wf(),
            r == (channel@.len() > 0),
            r ==> final(self)@ == after_disconnect(old(self)@, channel@),
            !r ==> final(self)@ == old(self)@,
    {
        if channel.unicode_len() == 0 {
            return false;
        }
        let ghost m = self@;
        self.pending.push(String::from_str(channel));
        assert(self@.pending =~= m.pending.push(channel@));
        true
    }

    /// The disconnect phase of a tick: each channel asked to disconnect,
    /// in order, loses its peers, queued messages and callbacks. Gives the
    /// channels whose connections are to be closed.
    pub fn process_disconnects(&mut self) -> (closed: Vec<String>)
        requires
            old(self).wf(),
        ensures
            final(self).wf(),
            final(self)@ == after_disconnects(old(self)@),
            closed@.map_values(|s: String| s@) == old(self)@.pending,
    {
        let ghost m = self@;
        let mut drained: Vec<String> = Vec::new();
        std::mem::swap(&mut drained, &mut self.pending);
        let mut i: usize = 0;
        while i < drained.len()
            invariant
                self.wf(),
                i <= drained@.len(),
                drained@.map_values(|s: String| s@) == m.pending,
                self@.pending == Seq::<Seq<char>>::empty(),
                self@.callbacks == m.callbacks.remove_keys(m.pending.take(i as int).to_set()),
                self@.outbox == m.outbox.remove_keys(m.pending.take(i as int).to_set()),
                self@.peers == m.peers.remove_keys(m.pending.take(i as int).to_set()),
            decreases drained@.len() - i,
        {
            let ghost before = self@;
            let ch = drained[i].as_str();
            assert(m.pending[i as int] == ch@);
            assert(m.pending.take(i + 1) =~= m.pending.take(i as int).push(ch@));
            proof {
                m.pending.take(i as int).lemma_push_to_set_commute(ch@);
            }
            let _ = self.peers.remove(ch);
            let _ = self.outbox.remove(ch);
            let _ = self.callbacks.remove(ch);
            assert(self@.outbox =~= before.outbox.remove(ch@));
            assert(self@.peers =~= before.peers.remove(ch@));
            assert(self@.callbacks =~= m.callbacks.remove_keys(m.pending.take(i + 1).to_set()));
            assert(self@.outbox =~= m.outbox.remove_keys(m.pending.take(i + 1).to_set()));
            assert(self@.peers =~= m.peers.remove_keys(m.pending.take(i + 1).to_set()));
            i = i + 1;
        }
        assert(m.pending.take(m.pending.len() as int) =~= m.pending);
        assert(self@ == after_disconnects(m));
        drained
    }

    /// Whether a channel has callbacks registered, so that its inbound
    /// messages have somewhere to go.
    pub fn accepts_messages(&self, channel: &str) -> (r: bool)
        requires
            self.wf(),
        ensures
            r == self@.callbacks.contains_key(channel@),
    {
        self.callbacks.contains(channel)
    }

    /// Whether a channel has a live connection that a tick has seen.
    pub fn is_live(&self, channel: &str) -> (r: bool)
        requires
            self.wf(),
        ensures
            r == self@.peers.contains_key(channel@),
    {
        self.peers.contains(channel)
    }

    /// How many messages wait in a channel's queue.
    pub fn queued(&self, channel: &str) -> (r: usize)
        requires
            self.wf(),
        ensures
            r == queue_of(self@, channel@).len(),
    {
        match self.outbox.get(channel) {
            Some(q) => q.len(),
            None => 0,
        }
    }

    /// One tick of a channel with a live connection, given the peers that
    /// its transport reports connected now and the messages it received:
    /// the peer transitions and messages become callback calls, and the
    /// channel's queue is drained towards the connected peers.
    pub fn tick_channel(
        &mut self,
        channel: &str,
        connected: Vec<u128>,
        inbound: Vec<(u128, Vec<u8>)>,
    ) -> (r: TickReport)
        requires
            old(self).wf(),
        ensures
            final(self).wf(),
            final(self)@ == after_tick(old(self)@, channel@, connected@),
            calls_view(r.calls@) == tick_calls(
                old(self)@,
                channel@,
                connected@,
                inbound_view(inbound@),
            ),
            sends_view(r.sends@) == tick_sends(old(self)@, channel@, connected@),
            r.unreachable@ == route_unreachable(queue_of(old(self)@, channel@), connected@),
    {
        let ghost m = self@;
        let previous = match self.peers.remove(channel) {
            Some(p) => p,
            None => Vec::new(),
        };
        assert(previous@ == previous_peers(m, channel@));
        let events = peer_transitions(&previous, &connected);
        let mut calls: Vec<ScriptCall> = Vec::new();
        match self.callbacks.get(channel) {
            Some(cb) => {
                let c = *cb;
                let mut i: usize = 0;
                while i < events.len()
                    invariant
                        i <= events@.len(),
                        calls_view(calls@) =~= events@.take(i as int).map_values(
                            |e: PeerEvent| event_call(e, c),
                        ),
                    decreases events@.len() - i,
                {
                    let ghost c0 = calls@;
                    calls.push(event_script_call(events[i], c));
                    assert(calls_view(calls@) =~= calls_view(c0).push(event_call(events@[i as int], c)));
                    assert(events@.take(i + 1).map_values(|e: PeerEvent| event_call(e, c))
                        =~= events@.take(i as int).map_values(|e: PeerEvent| event_call(e, c)).push(
                        event_call(events@[i as int], c),
                    ));
                    i = i + 1;
                }
                assert(events@.take(events@.len() as int) =~= events@);
                let ghost first = calls_view(calls@);
                let mut j: usize = 0;
                while j < inbound.len()
                    invariant
                        j <= inbound@.len(),
                        calls_view(calls@) =~= first + inbound_view(inbound@).take(j as int).map_values(
                            |x: (u128, Seq<u8>)| message_call(x, c),
                        ),
                    decreases inbound@.len() - j,
                {
                    let ghost c0 = calls@;
                    calls.push(message_script_call(&inbound[j], c));
                    let ghost x = (inbound@[j as int].0, inbound@[j as int].1@);
                    assert(calls_view(calls@) =~= calls_view(c0).push(message_call(x, c)));
                    assert(inbound_view(inbound@).take(j + 1).map_values(
                        |x: (u128, Seq<u8>)| message_call(x, c),
                    ) =~= inbound_view(inbound@).take(j as int).map_values(
                        |x: (u128, Seq<u8>)| message_call(x, c),
                    ).push(message_call(x, c)));
                    j = j + 1;
                }
                assert(inbound_view(inbound@).take(inbound@.len() as int) =~= inbound_view(inbound@));
            },
            None => {
                assert(calls_view(calls@) =~= Seq::<(i32, Seq<Seq<char>>)>::empty());
            },
        }
        let queue = match self.outbox.remove(channel) {
            Some(q) => q,
            None => Vec::new(),
        };
        assert(queue_view(queue@) =~= queue_of(m, channel@));
        let routed = route(&queue, &connected);
        self.peers.insert(channel, connected);
        assert(self@.peers =~= m.peers.insert(channel@, connected@));
        assert(self@.outbox =~= m.outbox.remove(channel@));
        TickReport { calls, sends: routed.sends, unreachable: routed.unreachable }
    }
}

} // verus!
