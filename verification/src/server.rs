//! The relay: who is connected, and what each datagram causes to be sent.
//!
//! The relay does no input or output of its own. Its caller hands it every
//! datagram that arrives, with the sender's address and the reading of a
//! monotonic clock in whole seconds, and sends what the relay returns.

use crate::peer::PeerAddr;
use crate::wire::{decode_message, decode_spec, encode_message, encode_spec, is_known};
use crate::wire::{Message, MessageType, MessageView};
use vstd::prelude::*;
use vstd::utf8::*;

verus! {

/// A liveness sweep runs on every datagram that brings the count since the
/// last sweep to this number.
pub const SWEEP_INTERVAL: u32 = 100;

/// A peer that has been silent for this many seconds is evicted by the next
/// sweep.
pub const PEER_TIMEOUT_SECS: u64 = 500;

/// One connected peer and when it was last heard.
#[derive(Debug, PartialEq, Eq)]
pub struct ClientInfo {
    pub addr: PeerAddr,
    pub last_active: u64,
}

pub struct ClientInfoView {
    pub addr: Seq<char>,
    pub last_active: u64,
}

impl View for ClientInfo {
    type V = ClientInfoView;

    open spec fn view(&self) -> ClientInfoView {
        ClientInfoView { addr: self.addr@, last_active: self.last_active }
    }
}

/// One datagram for the caller to send.
#[derive(Debug, PartialEq, Eq)]
pub struct Packet {
    pub to: PeerAddr,
    pub bytes: Vec<u8>,
}

pub struct PacketView {
    pub to: Seq<char>,
    pub bytes: Seq<u8>,
}

impl View for Packet {
    type V = PacketView;

    open spec fn view(&self) -> PacketView {
        PacketView { to: self.to@, bytes: self.bytes@ }
    }
}

/// The registry that a list of entries stands for.
pub open spec fn registry(clients: Seq<ClientInfo>) -> Seq<ClientInfoView> {
    clients.map_values(|c: ClientInfo| c@)
}

/// The datagrams that a list of packets stands for.
pub open spec fn packets(out: Seq<Packet>) -> Seq<PacketView> {
    out.map_values(|p: Packet| p@)
}

/// Whether `addr` is registered.
pub open spec fn knows(peers: Seq<ClientInfoView>, addr: Seq<char>) -> bool {
    exists|i: int| 0 <= i < peers.len() && (#[trigger] peers[i]).addr == addr
}

/// No two entries share an address.
pub open spec fn distinct(peers: Seq<ClientInfoView>) -> bool {
    forall|i: int, j: int|
        0 <= i < j < peers.len() ==> (#[trigger] peers[i]).addr != (#[trigger] peers[j]).addr
}

/// The entry of `peer` once it has been heard at `now`, and any other entry
/// as it was.
pub open spec fn refreshed(peer: ClientInfoView, addr: Seq<char>, now: u64) -> ClientInfoView {
    if peer.addr == addr {
        ClientInfoView { addr: peer.addr, last_active: now }
    } else {
        peer
    }
}

/// The registry after a datagram from `addr` at `now`: a known sender is
/// refreshed in place, a new one joins at the end.
pub open spec fn touched(peers: Seq<ClientInfoView>, addr: Seq<char>, now: u64) -> Seq<
    ClientInfoView,
> {
    if knows(peers, addr) {
        peers.map_values(|p: ClientInfoView| refreshed(p, addr, now))
    } else {
        peers.push(ClientInfoView { addr, last_active: now })
    }
}

/// Everyone but `addr`, in registry order.
pub open spec fn others(peers: Seq<ClientInfoView>, addr: Seq<char>) -> Seq<ClientInfoView> {
    peers.filter(|p: ClientInfoView| p.addr != addr)
}

/// The datagram `bytes`, once for each of `peers`.
pub open spec fn copies_for(peers: Seq<ClientInfoView>, bytes: Seq<u8>) -> Seq<PacketView> {
    peers.map_values(|p: ClientInfoView| PacketView { to: p.addr, bytes })
}

/// The acknowledgement that a departing peer gets.
pub open spec fn bye_packet(to: Seq<char>) -> PacketView {
    PacketView { to, bytes: encode_spec(MessageType::Bye, Seq::empty()) }
}

/// Tells `to` that `gone` has left.
pub open spec fn delete_notice(to: Seq<char>, gone: Seq<char>) -> PacketView {
    PacketView { to, bytes: encode_spec(MessageType::DeleteClient, encode_utf8(gone)) }
}

/// Tells `to` that `joined` is connected.
pub open spec fn new_notice(to: Seq<char>, joined: Seq<char>) -> PacketView {
    PacketView { to, bytes: encode_spec(MessageType::NewClient, encode_utf8(joined)) }
}

/// What the removal of `addr` sends: nothing if it was not registered, else
/// the acknowledgement to it and a notice to each peer that stays.
pub open spec fn removal_packets(peers: Seq<ClientInfoView>, addr: Seq<char>) -> Seq<PacketView> {
    if knows(peers, addr) {
        seq![bye_packet(addr)] + copies_for(
            others(peers, addr),
            encode_spec(MessageType::DeleteClient, encode_utf8(addr)),
        )
    } else {
        Seq::empty()
    }
}

/// Whether `peer` has been silent long enough at `now` to be evicted.
pub open spec fn is_stale(peer: ClientInfoView, now: u64) -> bool {
    now - peer.last_active >= PEER_TIMEOUT_SECS
}

/// The addresses that a sweep at `now` evicts, in registry order.
pub open spec fn stale_addrs(peers: Seq<ClientInfoView>, now: u64) -> Seq<Seq<char>> {
    peers.filter(|p: ClientInfoView| is_stale(p, now)).map_values(|p: ClientInfoView| p.addr)
}

/// The registry and the traffic after `gone` have been removed one after
/// the other, each as a departure of its own.
pub open spec fn evicted(peers: Seq<ClientInfoView>, gone: Seq<Seq<char>>) -> (
    Seq<ClientInfoView>,
    Seq<PacketView>,
)
    decreases gone.len(),
{
    if gone.len() == 0 {
        (peers, Seq::empty())
    } else {
        let before = evicted(peers, gone.drop_last());
        (others(before.0, gone.last()), before.1 + removal_packets(before.0, gone.last()))
    }
}

/// What a `Hello` from `newcomer` sends besides the acknowledgement: for
/// each peer already there, a notice to it about the newcomer and a notice
/// to the newcomer about it.
pub open spec fn introductions(existing: Seq<ClientInfoView>, newcomer: Seq<char>) -> Seq<
    PacketView,
>
    decreases existing.len(),
{
    if existing.len() == 0 {
        Seq::empty()
    } else {
        introductions(existing.drop_last(), newcomer) + seq![
            new_notice(existing.last().addr, newcomer),
            new_notice(newcomer, existing.last().addr),
        ]
    }
}

/// The relay between two datagrams.
pub struct RelayView {
    /// The registered peers, oldest registration first.
    pub peers: Seq<ClientInfoView>,
    /// Datagrams handled since the last sweep.
    pub pending: nat,
}

/// What the relay does with a datagram once it has taken note of the
/// sender and the sweep, if one was due, has run.
pub open spec fn dispatched(peers: Seq<ClientInfoView>, from: Seq<char>, datagram: Seq<u8>) -> (
    Seq<ClientInfoView>,
    Seq<PacketView>,
) {
    match decode_spec(datagram) {
        MessageView::Audio(_) => (peers, copies_for(others(peers, from), datagram)),
        MessageView::Hello(text) => (
            peers,
            seq![PacketView { to: from, bytes: encode_spec(MessageType::Hello, encode_utf8(text)) }]
                + introductions(others(peers, from), from),
        ),
        MessageView::Bye => (others(peers, from), removal_packets(peers, from)),
        _ => (peers, Seq::empty()),
    }
}

/// The registry once the relay has taken note of who sent a datagram. A
/// datagram of a known kind is a sign of life: its sender is registered or
/// refreshed. A datagram of unknown kind, or an empty one, is none: the
/// registry stays as it was.
pub open spec fn noted(
    peers: Seq<ClientInfoView>,
    from: Seq<char>,
    datagram: Seq<u8>,
    now: u64,
) -> Seq<ClientInfoView> {
    if decode_spec(datagram) is Unknown {
        peers
    } else {
        touched(peers, from, now)
    }
}

/// One step of the relay. Every datagram counts towards the next sweep. The
/// sender of a datagram of a known kind is registered or refreshed, the sweep
/// runs if this is the datagram it is due on, and then the datagram is acted
/// on. The traffic is in the order in which it is to be sent.
pub open spec fn relay_step(
    before: RelayView,
    from: Seq<char>,
    datagram: Seq<u8>,
    now: u64,
) -> (RelayView, Seq<PacketView>) {
    let heard = noted(before.peers, from, datagram, now);
    let due = before.pending + 1 >= SWEEP_INTERVAL;
    let swept = if due {
        evicted(heard, stale_addrs(heard, now))
    } else {
        (heard, Seq::empty())
    };
    let acted = dispatched(swept.0, from, datagram);
    (
        RelayView { peers: acted.0, pending: if due { 0 } else { before.pending + 1 } },
        swept.1 + acted.1,
    )
}


/// Filtering out `addr` goes entry by entry.
proof fn lemma_others_push(peers: Seq<ClientInfoView>, peer: ClientInfoView, addr: Seq<char>)
    ensures
        others(peers.push(peer), addr) == if peer.addr != addr {
            others(peers, addr).push(peer)
        } else {
            others(peers, addr)
        },
{
    peers.lemma_filter_push(peer, |p: ClientInfoView| p.addr != addr);
}

/// An entry shows that its address is registered.
pub proof fn lemma_knows_at(peers: Seq<ClientInfoView>, i: int)
    requires
        0 <= i < peers.len(),
    ensures
        knows(peers, peers[i].addr),
{
}

/// Registration, entry by entry.
pub proof fn lemma_knows_push(peers: Seq<ClientInfoView>, peer: ClientInfoView, a: Seq<char>)
    ensures
        knows(peers.push(peer), a) <==> (knows(peers, a) || peer.addr == a),
{
    let all = peers.push(peer);
    if knows(all, a) {
        let i = choose|i: int| 0 <= i < all.len() && (#[trigger] all[i]).addr == a;
        if i < peers.len() {
            lemma_knows_at(peers, i);
        }
    }
    if knows(peers, a) {
        let i = choose|i: int| 0 <= i < peers.len() && (#[trigger] peers[i]).addr == a;
        lemma_knows_at(all, i);
    }
    if peer.addr == a {
        lemma_knows_at(all, all.len() - 1);
    }
}

/// A removal leaves every other address as it was: registered or not.
pub proof fn lemma_others_knows(peers: Seq<ClientInfoView>, addr: Seq<char>, a: Seq<char>)
    ensures
        knows(others(peers, addr), a) <==> (a != addr && knows(peers, a)),
    decreases peers.len(),
{
    if peers.len() == 0 {
        reveal(Seq::filter);
        assert(others(peers, addr) =~= peers);
    } else {
        let front = peers.drop_last();
        let last = peers.last();
        assert(peers =~= front.push(last));
        lemma_others_knows(front, addr, a);
        lemma_others_push(front, last, addr);
        lemma_knows_push(front, last, a);
        lemma_knows_push(others(front, addr), last, a);
    }
}

/// A removal shortens the registry exactly when the address was registered,
/// and keeps addresses distinct.
pub proof fn lemma_others(peers: Seq<ClientInfoView>, addr: Seq<char>)
    ensures
        others(peers, addr).len() <= peers.len(),
        knows(peers, addr) <==> others(peers, addr).len() < peers.len(),
        !knows(peers, addr) ==> others(peers, addr) == peers,
        distinct(peers) ==> distinct(others(peers, addr)),
    decreases peers.len(),
{
    if peers.len() == 0 {
        reveal(Seq::filter);
        assert(others(peers, addr) =~= peers);
    } else {
        let front = peers.drop_last();
        let last = peers.last();
        lemma_others(front, addr);
        assert(peers =~= front.push(last));
        lemma_others_push(front, last, addr);
        lemma_knows_push(front, last, addr);
        let kept = others(front, addr);
        let all = others(peers, addr);
        if !knows(peers, addr) {
            assert(all =~= peers);
        }
        if distinct(peers) {
            assert forall|i: int, j: int| 0 <= i < j < front.len() implies (#[trigger] front[i]).addr
                != (#[trigger] front[j]).addr by {
                assert(peers[i].addr != peers[j].addr);
            }
            assert forall|i: int, j: int| 0 <= i < j < all.len() implies (#[trigger] all[i]).addr
                != (#[trigger] all[j]).addr by {
                if j < kept.len() {
                    assert(kept[i].addr != kept[j].addr);
                } else {
                    lemma_knows_at(kept, i);
                    lemma_others_knows(front, addr, kept[i].addr);
                    if kept[i].addr == last.addr {
                        let k = choose|k: int|
                            0 <= k < front.len() && (#[trigger] front[k]).addr == last.addr;
                        assert(peers[k].addr != peers[peers.len() - 1].addr);
                    }
                }
            }
        }
    }
}

/// Taking one more entry of a list adds that entry's view to the registry.
proof fn lemma_registry_take(clients: Seq<ClientInfo>, i: int)
    requires
        0 <= i < clients.len(),
    ensures
        registry(clients.take(i + 1)) == registry(clients.take(i)).push(clients[i]@),
        registry(clients.take(clients.len() as int)) == registry(clients),
{
    assert(registry(clients.take(i + 1)) =~= registry(clients.take(i)).push(clients[i]@));
    assert(clients.take(clients.len() as int) =~= clients);
}

fn copy_entry(entry: &ClientInfo) -> (copy: ClientInfo)
    ensures
        copy@ == entry@,
{
    ClientInfo { addr: entry.addr.clone(), last_active: entry.last_active }
}

fn copy_bytes(bytes: &Vec<u8>) -> (copy: Vec<u8>)
    ensures
        copy@ == bytes@,
{
    vstd::slice::slice_to_vec(bytes.as_slice())
}

/// Takes `addr` out of the registry and returns what is to be sent on that
/// account: the acknowledgement to `addr`, then a notice to every peer that
/// stays. An address that is not registered changes nothing and sends
/// nothing.
pub fn remove_client(clients: &mut Vec<ClientInfo>, addr: &PeerAddr) -> (out: Vec<Packet>)
    ensures
        registry(final(clients)@) == others(registry(old(clients)@), addr@),
        packets(out@) == removal_packets(registry(old(clients)@), addr@),
        distinct(registry(old(clients)@)) ==> distinct(registry(final(clients)@)),
{
    let ghost before = clients@;
    let mut kept: Vec<ClientInfo> = Vec::new();
    let mut i: usize = 0;
    while i < clients.len()
        invariant
            clients@ == before,
            i <= clients.len(),
            registry(kept@) == others(registry(before.take(i as int)), addr@),
        decreases clients.len() - i,
    {
        proof {
            lemma_registry_take(before, i as int);
            lemma_others_push(registry(before.take(i as int)), before[i as int]@, addr@);
        }
        if !clients[i].addr.same(addr) {
            let ghost so_far = kept@;
            kept.push(copy_entry(&clients[i]));
            assert(registry(kept@) =~= registry(so_far).push(before[i as int]@));
        }
        i += 1;
    }
    proof {
        assert(before.take(i as int) =~= before);
        lemma_others(registry(before), addr@);
    }
    let mut out: Vec<Packet> = Vec::new();
    if kept.len() < clients.len() {
        let nothing: Vec<u8> = Vec::new();
        out.push(Packet { to: addr.clone(), bytes: encode_message(MessageType::Bye, nothing.as_slice()) });
        let notice = encode_message(MessageType::DeleteClient, addr.as_bytes());
        let mut j: usize = 0;
        while j < kept.len()
            invariant
                j <= kept.len(),
                notice@ == encode_spec(MessageType::DeleteClient, encode_utf8(addr@)),
                packets(out@) == seq![bye_packet(addr@)] + copies_for(
                    registry(kept@.take(j as int)),
                    notice@,
                ),
            decreases kept.len() - j,
        {
            let ghost sent = out@;
            out.push(Packet { to: kept[j].addr.clone(), bytes: copy_bytes(&notice) });
            proof {
                lemma_registry_take(kept@, j as int);
                assert(packets(out@) =~= packets(sent).push(
                    PacketView { to: kept@[j as int]@.addr, bytes: notice@ },
                ));
                assert(packets(out@) =~= seq![bye_packet(addr@)] + copies_for(
                    registry(kept@.take(j as int + 1)),
                    notice@,
                ));
            }
            j += 1;
        }
        assert(kept@.take(j as int) =~= kept@);
    } else {
        assert(packets(out@) =~= Seq::<PacketView>::empty());
    }
    *clients = kept;
    out
}


/// The texts of a list of addresses.
pub open spec fn texts(addrs: Seq<PeerAddr>) -> Seq<Seq<char>> {
    addrs.map_values(|a: PeerAddr| a@)
}

/// Staleness is judged entry by entry.
proof fn lemma_stale_push(peers: Seq<ClientInfoView>, peer: ClientInfoView, now: u64)
    ensures
        stale_addrs(peers.push(peer), now) == if is_stale(peer, now) {
            stale_addrs(peers, now).push(peer.addr)
        } else {
            stale_addrs(peers, now)
        },
{
    peers.lemma_filter_push(peer, |p: ClientInfoView| is_stale(p, now));
    if is_stale(peer, now) {
        assert(stale_addrs(peers.push(peer), now) =~= stale_addrs(peers, now).push(peer.addr));
    }
}

/// Registers the sender of a datagram that arrived at `now`, or refreshes
/// its entry if it is registered already.
pub fn touch(clients: &mut Vec<ClientInfo>, from: &PeerAddr, now: u64)
    ensures
        registry(final(clients)@) == touched(registry(old(clients)@), from@, now),
        distinct(registry(old(clients)@)) ==> distinct(registry(final(clients)@)),
{
    let ghost before = registry(clients@);
    let mut known = false;
    let mut i: usize = 0;
    while i < clients.len()
        invariant
            i <= clients.len(),
            clients@.len() == before.len(),
            forall|j: int| 0 <= j < i ==> (#[trigger] clients@[j])@ == refreshed(before[j], from@, now),
            forall|j: int| i <= j < before.len() ==> (#[trigger] clients@[j])@ == before[j],
            known <==> knows(before.take(i as int), from@),
        decreases clients.len() - i,
    {
        proof {
            assert(before.take(i as int + 1) =~= before.take(i as int).push(before[i as int]));
            lemma_knows_push(before.take(i as int), before[i as int], from@);
        }
        if clients[i].addr.same(from) {
            clients.set(i, ClientInfo { addr: from.clone(), last_active: now });
            known = true;
        }
        i += 1;
    }
    assert(before.take(i as int) =~= before);
    if !known {
        clients.push(ClientInfo { addr: from.clone(), last_active: now });
    }
    proof {
        let after = registry(clients@);
        assert(after =~= touched(before, from@, now));
        if distinct(before) {
            assert forall|a: int, b: int| 0 <= a < b < after.len() implies (#[trigger] after[a]).addr
                != (#[trigger] after[b]).addr by {
                if b < before.len() {
                    assert(before[a].addr != before[b].addr);
                } else {
                    lemma_knows_at(before, a);
                }
            }
        }
    }
}

/// Evicts every peer that has been silent for the timeout or longer at
/// `now`, each as a departure of its own, in registry order.
pub fn sweep(clients: &mut Vec<ClientInfo>, now: u64) -> (out: Vec<Packet>)
    ensures
        registry(final(clients)@) == evicted(
            registry(old(clients)@),
            stale_addrs(registry(old(clients)@), now),
        ).0,
        packets(out@) == evicted(
            registry(old(clients)@),
            stale_addrs(registry(old(clients)@), now),
        ).1,
        distinct(registry(old(clients)@)) ==> distinct(registry(final(clients)@)),
{
    let ghost before = clients@;
    let mut gone: Vec<PeerAddr> = Vec::new();
    let mut i: usize = 0;
    while i < clients.len()
        invariant
            clients@ == before,
            i <= clients.len(),
            texts(gone@) == stale_addrs(registry(before.take(i as int)), now),
        decreases clients.len() - i,
    {
        proof {
            lemma_registry_take(before, i as int);
            lemma_stale_push(registry(before.take(i as int)), before[i as int]@, now);
        }
        let last_active = clients[i].last_active;
        if now >= last_active && now - last_active >= PEER_TIMEOUT_SECS {
            let ghost so_far = gone@;
            gone.push(clients[i].addr.clone());
            assert(texts(gone@) =~= texts(so_far).push(before[i as int]@.addr));
        }
        i += 1;
    }
    assert(before.take(i as int) =~= before);
    let mut out: Vec<Packet> = Vec::new();
    let mut k: usize = 0;
    assert(packets(out@) =~= Seq::<PacketView>::empty());
    while k < gone.len()
        invariant
            k <= gone.len(),
            registry(clients@) == evicted(registry(before), texts(gone@).take(k as int)).0,
            packets(out@) == evicted(registry(before), texts(gone@).take(k as int)).1,
            distinct(registry(before)) ==> distinct(registry(clients@)),
        decreases gone.len() - k,
    {
        let ghost sent = out@;
        let ghost done = texts(gone@).take(k as int);
        let mut more = remove_client(clients, &gone[k]);
        let ghost added = more@;
        out.append(&mut more);
        proof {
            let next = texts(gone@).take(k as int + 1);
            assert(next.drop_last() =~= done);
            assert(next.last() == gone@[k as int]@);
            assert(packets(out@) =~= packets(sent) + packets(added));
        }
        k += 1;
    }
    assert(texts(gone@).take(k as int) =~= texts(gone@));
    out
}

/// Acts on a datagram: audio goes to everyone else as it came, a `Hello`
/// is acknowledged and introduces the sender and everyone else to each
/// other, a `Bye` removes the sender. Nothing else has an effect.
pub fn dispatch(clients: &mut Vec<ClientInfo>, from: &PeerAddr, datagram: &[u8]) -> (out: Vec<
    Packet,
>)
    ensures
        registry(final(clients)@) == dispatched(registry(old(clients)@), from@, datagram@).0,
        packets(out@) == dispatched(registry(old(clients)@), from@, datagram@).1,
        distinct(registry(old(clients)@)) ==> distinct(registry(final(clients)@)),
{
    let ghost before = clients@;
    let mut out: Vec<Packet> = Vec::new();
    match decode_message(datagram) {
        Message::Audio(_) => {
            let mut i: usize = 0;
            assert(packets(out@) =~= Seq::<PacketView>::empty());
            while i < clients.len()
                invariant
                    clients@ == before,
                    i <= clients.len(),
                    packets(out@) == copies_for(
                        others(registry(before.take(i as int)), from@),
                        datagram@,
                    ),
                decreases clients.len() - i,
            {
                proof {
                    lemma_registry_take(before, i as int);
                    lemma_others_push(registry(before.take(i as int)), before[i as int]@, from@);
                }
                if !clients[i].addr.same(from) {
                    let ghost sent = out@;
                    out.push(
                        Packet {
                            to: clients[i].addr.clone(),
                            bytes: vstd::slice::slice_to_vec(datagram),
                        },
                    );
                    assert(packets(out@) =~= packets(sent).push(
                        PacketView { to: before[i as int]@.addr, bytes: datagram@ },
                    ));
                    assert(packets(out@) =~= copies_for(
                        others(registry(before.take(i as int + 1)), from@),
                        datagram@,
                    ));
                }
                i += 1;
            }
            assert(before.take(i as int) =~= before);
        },
        Message::Hello(text) => {
            out.push(
                Packet {
                    to: from.clone(),
                    bytes: encode_message(MessageType::Hello, text.as_str().as_bytes()),
                },
            );
            let ghost ack = PacketView {
                to: from@,
                bytes: encode_spec(MessageType::Hello, encode_utf8(text@)),
            };
            assert(packets(out@) =~= seq![ack]);
            let mut i: usize = 0;
            while i < clients.len()
                invariant
                    clients@ == before,
                    i <= clients.len(),
                    packets(out@) == seq![ack] + introductions(
                        others(registry(before.take(i as int)), from@),
                        from@,
                    ),
                decreases clients.len() - i,
            {
                proof {
                    lemma_registry_take(before, i as int);
                    lemma_others_push(registry(before.take(i as int)), before[i as int]@, from@);
                }
                if !clients[i].addr.same(from) {
                    let ghost sent = out@;
                    let ghost met = others(registry(before.take(i as int)), from@);
                    let ghost peer = before[i as int]@;
                    out.push(
                        Packet {
                            to: clients[i].addr.clone(),
                            bytes: encode_message(MessageType::NewClient, from.as_bytes()),
                        },
                    );
                    out.push(
                        Packet {
                            to: from.clone(),
                            bytes: encode_message(MessageType::NewClient, clients[i].addr.as_bytes()),
                        },
                    );
                    proof {
                        assert(met.push(peer).drop_last() =~= met);
                        assert(packets(out@) =~= packets(sent) + seq![
                            new_notice(peer.addr, from@),
                            new_notice(from@, peer.addr),
                        ]);
                        assert(packets(out@) =~= seq![ack] + introductions(met.push(peer), from@));
                    }
                }
                i += 1;
            }
            assert(before.take(i as int) =~= before);
        },
        Message::Bye => {
            out = remove_client(clients, from);
        },
        _ => {
            assert(packets(out@) =~= Seq::<PacketView>::empty());
        },
    }
    out
}

impl RelayView {
    /// What holds of the relay between any two datagrams.
    pub open spec fn wf(self) -> bool {
        distinct(self.peers) && self.pending < SWEEP_INTERVAL
    }
}

/// The relay's state: the registry and the count towards the next sweep.
pub struct Relay {
    clients: Vec<ClientInfo>,
    check_counter: u32,
}

impl View for Relay {
    type V = RelayView;

    closed spec fn view(&self) -> RelayView {
        RelayView { peers: registry(self.clients@), pending: self.check_counter as nat }
    }
}

impl Relay {
    #[verifier::type_invariant]
    spec fn inv(&self) -> bool {
        self@.wf()
    }

    /// A relay that knows nobody.
    pub fn new() -> (relay: Relay)
        ensures
            relay@.peers == Seq::<ClientInfoView>::empty(),
            relay@.pending == 0,
    {
        let relay = Relay { clients: Vec::new(), check_counter: 0 };
        assert(relay@.peers =~= Seq::<ClientInfoView>::empty());
        relay
    }

    /// The registered peers, oldest registration first.
    pub fn clients(&self) -> (clients: &Vec<ClientInfo>)
        ensures
            registry(clients@) == self@.peers,
            distinct(self@.peers),
    {
        proof {
            use_type_invariant(self);
        }
        &self.clients
    }

    /// Datagrams handled since the last sweep.
    pub fn pending(&self) -> (pending: u32)
        ensures
            pending == self@.pending,
            pending < SWEEP_INTERVAL,
    {
        proof {
            use_type_invariant(self);
        }
        self.check_counter
    }

    /// Whether `addr` is registered.
    pub fn is_active(&self, addr: &PeerAddr) -> (active: bool)
        ensures
            active == knows(self@.peers, addr@),
    {
        let mut i: usize = 0;
        while i < self.clients.len()
            invariant
                i <= self.clients.len(),
                !knows(registry(self.clients@.take(i as int)), addr@),
            decreases self.clients.len() - i,
        {
            proof {
                lemma_registry_take(self.clients@, i as int);
                lemma_knows_push(
                    registry(self.clients@.take(i as int)),
                    self.clients@[i as int]@,
                    addr@,
                );
            }
            if self.clients[i].addr.same(addr) {
                proof {
                    lemma_knows_at(registry(self.clients@), i as int);
                }
                return true;
            }
            i += 1;
        }
        assert(self.clients@.take(i as int) =~= self.clients@);
        false
    }

    /// Handles one datagram that arrived from `from` at `now`, and returns
    /// what is to be sent, in order. A datagram of unknown kind only counts
    /// towards the next sweep: it neither registers nor refreshes its
    /// sender.
    pub fn on_datagram(&mut self, from: &PeerAddr, datagram: &[u8], now: u64) -> (out: Vec<Packet>)
        ensures
            final(self)@.peers == relay_step(old(self)@, from@, datagram@, now).0.peers,
            final(self)@.pending == relay_step(old(self)@, from@, datagram@, now).0.pending,
            packets(out@) == relay_step(old(self)@, from@, datagram@, now).1,
            old(self)@.wf(),
            final(self)@.wf(),
    {
        proof {
            use_type_invariant(&*self);
        }
        let mut clients: Vec<ClientInfo> = Vec::new();
        std::mem::swap(&mut self.clients, &mut clients);
        if is_known(datagram) {
            touch(&mut clients, from, now);
        }
        let mut out: Vec<Packet> = Vec::new();
        let count = self.check_counter + 1;
        if count >= SWEEP_INTERVAL {
            out = sweep(&mut clients, now);
            self.check_counter = 0;
        } else {
            self.check_counter = count;
            assert(packets(out@) =~= Seq::<PacketView>::empty());
        }
        let ghost swept = out@;
        let mut acted = dispatch(&mut clients, from, datagram);
        let ghost added = acted@;
        self.clients = clients;
        out.append(&mut acted);
        assert(packets(out@) =~= packets(swept) + packets(added));
        out
    }
}

} // verus!
