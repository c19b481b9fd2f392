use crate::peer::Recipient;
use vstd::prelude::*;

verus! {

/// A change in a channel's set of connected peers.
#[derive(Clone, Copy, Debug, PartialEq, Eq, Structural)]
pub enum PeerEvent {
    Joined(u128),
    Left(u128),
}

/// The peers of `s`, in order, that do not occur in `other`.
pub open spec fn absent_from(s: Seq<u128>, other: Seq<u128>) -> Seq<u128>
    decreases s.len(),
{
    if s.len() == 0 {
        Seq::empty()
    } else {
        let rest = absent_from(s.drop_last(), other);
        if other.contains(s.last()) {
            rest
        } else {
            rest.push(s.last())
        }
    }
}

/// The events that lead from the peers of one tick to those of the next:
/// one join for each newly present peer, then one leave for each newly
/// absent peer.
pub open spec fn transitions(previous: Seq<u128>, current: Seq<u128>) -> Seq<PeerEvent> {
    absent_from(current, previous).map_values(|p: u128| PeerEvent::Joined(p)) + absent_from(
        previous,
        current,
    ).map_values(|p: u128| PeerEvent::Left(p))
}

/// A peer of `absent_from(s, other)` is one of `s` missing from `other`.
pub proof fn lemma_absent_from_contains(s: Seq<u128>, other: Seq<u128>, p: u128)
    ensures
        absent_from(s, other).contains(p) <==> (s.contains(p) && !other.contains(p)),
    decreases s.len(),
{
    if s.len() > 0 {
        lemma_absent_from_contains(s.drop_last(), other, p);
        let rest = absent_from(s.drop_last(), other);
        if s.contains(p) && p != s.last() {
            let i = choose|i: int| 0 <= i < s.len() && s[i] == p;
            assert(s.drop_last()[i] == p);
        }
        if s.drop_last().contains(p) {
            let i = choose|i: int| 0 <= i < s.drop_last().len() && s.drop_last()[i] == p;
            assert(s[i] == p);
        }
        if !other.contains(s.last()) {
            assert(rest.push(s.last()).last() == s.last());
            if rest.push(s.last()).contains(p) && p != s.last() {
                let i = choose|i: int| 0 <= i < rest.len() + 1 && rest.push(s.last())[i] == p;
                assert(rest[i] == p);
            }
            if rest.contains(p) {
                let i = choose|i: int| 0 <= i < rest.len() && rest[i] == p;
                assert(rest.push(s.last())[i] == p);
            }
        }
        assert(s[s.len() - 1] == s.last());
    }
}

/// Without repeats in `s`, `absent_from(s, other)` has none either.
pub proof fn lemma_absent_from_unique(s: Seq<u128>, other: Seq<u128>)
    requires
        s.no_duplicates(),
    ensures
        absent_from(s, other).no_duplicates(),
    decreases s.len(),
{
    if s.len() > 0 {
        let init = s.drop_last();
        assert(init.no_duplicates());
        lemma_absent_from_unique(init, other);
        lemma_absent_from_contains(init, other, s.last());
        if init.contains(s.last()) {
            let i = choose|i: int| 0 <= i < init.len() && init[i] == s.last();
            assert(s[i] == s[s.len() - 1]);
        }
    }
}

/// Where every peer of `s` occurs in `other`, nothing is absent.
pub proof fn lemma_absent_from_covered(s: Seq<u128>, other: Seq<u128>)
    requires
        forall|i: int| 0 <= i < s.len() ==> other.contains(#[trigger] s[i]),
    ensures
        absent_from(s, other) == Seq::<u128>::empty(),
    decreases s.len(),
{
    if s.len() > 0 {
        let init = s.drop_last();
        assert forall|i: int| 0 <= i < init.len() implies other.contains(#[trigger] init[i]) by {
            assert(init[i] == s[i]);
        }
        lemma_absent_from_covered(init, other);
        assert(other.contains(s[s.len() - 1]));
    }
}

/// Whether a peer occurs in a list.
fn list_contains(list: &Vec<u128>, p: u128) -> (r: bool)
    ensures
        r == list@.contains(p),
{
    let mut i: usize = 0;
    while i < list.len()
        invariant
            i <= list@.len(),
            forall|j: int| 0 <= j < i ==> list@[j] != p,
        decreases list@.len() - i,
    {
        if list[i] == p {
            return true;
        }
        i = i + 1;
    }
    false
}

/// The peers of `s`, in order, that do not occur in `other`.
pub fn peers_absent_from(s: &Vec<u128>, other: &Vec<u128>) -> (r: Vec<u128>)
    ensures
        r@ == absent_from(s@, other@),
{
    let mut out: Vec<u128> = Vec::new();
    let mut i: usize = 0;
    while i < s.len()
        invariant
            i <= s@.len(),
            out@ == absent_from(s@.take(i as int), other@),
        decreases s@.len() - i,
    {
        let p = s[i];
        assert(s@.take(i + 1).drop_last() =~= s@.take(i as int));
        assert(s@.take(i + 1).last() == p);
        if !list_contains(other, p) {
            out.push(p);
        }
        i = i + 1;
    }
    assert(s@.take(s@.len() as int) =~= s@);
    out
}

/// The join and leave events between two reports of a channel's peers.
pub fn peer_transitions(previous: &Vec<u128>, current: &Vec<u128>) -> (r: Vec<PeerEvent>)
    ensures
        r@ == transitions(previous@, current@),
{
    let joined = peers_absent_from(current, previous);
    let left = peers_absent_from(previous, current);
    let mut out: Vec<PeerEvent> = Vec::new();
    let mut i: usize = 0;
    while i < joined.len()
        invariant
            i <= joined@.len(),
            out@ =~= joined@.take(i as int).map_values(|p: u128| PeerEvent::Joined(p)),
        decreases joined@.len() - i,
    {
        out.push(PeerEvent::Joined(joined[i]));
        i = i + 1;
    }
    assert(joined@.take(joined@.len() as int) =~= joined@);
    let ghost first = out@;
    let mut j: usize = 0;
    while j < left.len()
        invariant
            j <= left@.len(),
            out@ =~= first + left@.take(j as int).map_values(|p: u128| PeerEvent::Left(p)),
        decreases left@.len() - j,
    {
        out.push(PeerEvent::Left(left[j]));
        j = j + 1;
    }
    assert(left@.take(left@.len() as int) =~= left@);
    out
}

/// A message queued on a channel.
pub struct Outgoing {
    pub recipient: Recipient,
    pub message: String,
}

impl View for Outgoing {
    type V = (Recipient, Seq<char>);

    open spec fn view(&self) -> (Recipient, Seq<char>) {
        (self.recipient, self.message@)
    }
}

/// A payload handed to the transport for one peer.
pub struct Delivery {
    pub peer: u128,
    pub payload: String,
}

impl View for Delivery {
    type V = (u128, Seq<char>);

    open spec fn view(&self) -> (u128, Seq<char>) {
        (self.peer, self.payload@)
    }
}

/// The deliveries that one queued message makes, given the connected peers:
/// one per peer for a broadcast; one for an addressed peer that is
/// connected; none for one that is not.
pub open spec fn sends_for(o: (Recipient, Seq<char>), connected: Seq<u128>) -> Seq<(u128, Seq<char>)> {
    match o.0 {
        Recipient::All => connected.map_values(|p: u128| (p, o.1)),
        Recipient::Peer(p) => if connected.contains(p) {
            seq![(p, o.1)]
        } else {
            Seq::empty()
        },
    }
}

/// The addressed peer of a queued message that cannot be reached, if any.
pub open spec fn unreachable_for(o: (Recipient, Seq<char>), connected: Seq<u128>) -> Seq<u128> {
    match o.0 {
        Recipient::Peer(p) => if connected.contains(p) {
            Seq::empty()
        } else {
            seq![p]
        },
        Recipient::All => Seq::empty(),
    }
}

/// The deliveries of a whole queue, in queue order.
pub open spec fn route_sends(q: Seq<(Recipient, Seq<char>)>, connected: Seq<u128>) -> Seq<(u128, Seq<char>)>
    decreases q.len(),
{
    if q.len() == 0 {
        Seq::empty()
    } else {
        route_sends(q.drop_last(), connected) + sends_for(q.last(), connected)
    }
}

/// The unreachable recipients of a whole queue, in queue order.
pub open spec fn route_unreachable(q: Seq<(Recipient, Seq<char>)>, connected: Seq<u128>) -> Seq<u128>
    decreases q.len(),
{
    if q.len() == 0 {
        Seq::empty()
    } else {
        route_unreachable(q.drop_last(), connected) + unreachable_for(q.last(), connected)
    }
}

/// What draining a queue towards the connected peers gives: the
/// deliveries, and the addressed recipients that are not connected.
pub struct Routed {
    pub sends: Vec<Delivery>,
    pub unreachable: Vec<u128>,
}

pub open spec fn sends_view(v: Seq<Delivery>) -> Seq<(u128, Seq<char>)> {
    v.map_values(|d: Delivery| d@)
}

pub open spec fn queue_view(v: Seq<Outgoing>) -> Seq<(Recipient, Seq<char>)> {
    v.map_values(|o: Outgoing| o@)
}

/// Drains a queue, in order, towards the peers that are connected now.
pub fn route(queue: &Vec<Outgoing>, connected: &Vec<u128>) -> (r: Routed)
    ensures
        sends_view(r.sends@) == route_sends(queue_view(queue@), connected@),
        r.unreachable@ == route_unreachable(queue_view(queue@), connected@),
{
    let mut sends: Vec<Delivery> = Vec::new();
    let mut unreachable: Vec<u128> = Vec::new();
    let mut i: usize = 0;
    while i < queue.len()
        invariant
            i <= queue@.len(),
            sends_view(sends@) == route_sends(queue_view(queue@.take(i as int)), connected@),
            unreachable@ == route_unreachable(queue_view(queue@.take(i as int)), connected@),
        decreases queue@.len() - i,
    {
        let ghost before = sends_view(sends@);
        let o = &queue[i];
        assert(queue_view(queue@.take(i + 1)).drop_last() =~= queue_view(queue@.take(i as int)));
        assert(queue_view(queue@.take(i + 1)).last() == o@);
        match o.recipient {
            Recipient::All => {
                let mut k: usize = 0;
                while k < connected.len()
                    invariant
                        k <= connected@.len(),
                        i < queue@.len(),
                        o == &queue@[i as int],
                        sends_view(sends@) =~= before + connected@.take(k as int).map_values(
                            |p: u128| (p, o.message@),
                        ),
                    decreases connected@.len() - k,
                {
                    let ghost s0 = sends@;
                    let d = Delivery { peer: connected[k], payload: o.message.clone() };
                    sends.push(d);
                    assert(sends_view(sends@) =~= sends_view(s0).push((connected@[k as int], o.message@)));
                    assert(connected@.take(k + 1).map_values(|p: u128| (p, o.message@))
                        =~= connected@.take(k as int).map_values(|p: u128| (p, o.message@)).push(
                        (connected@[k as int], o.message@),
                    ));
                    k = k + 1;
                }
                assert(connected@.take(connected@.len() as int) =~= connected@);
                assert(unreachable@ =~= unreachable@ + Seq::<u128>::empty());
            },
            Recipient::Peer(p) => {
                if list_contains(connected, p) {
                    sends.push(Delivery { peer: p, payload: o.message.clone() });
                    assert(sends_view(sends@) =~= before + seq![(p, o.message@)]);
                    assert(unreachable@ =~= unreachable@ + Seq::<u128>::empty());
                } else {
                    let ghost u0 = unreachable@;
                    unreachable.push(p);
                    assert(unreachable@ =~= u0 + seq![p]);
                    assert(sends_view(sends@) =~= before + Seq::<(u128, Seq<char>)>::empty());
                }
            },
        }
        i = i + 1;
    }
    assert(queue@.take(queue@.len() as int) =~= queue@);
    Routed { sends, unreachable }
}

} // verus!
