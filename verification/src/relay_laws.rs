//! What follows from the relay's step function: who receives what, and how
//! often.

use crate::peer::lemma_text_bytes_injective;
use crate::server::{
    bye_packet, copies_for, delete_notice, dispatched, distinct, evicted, introductions, is_stale,
    knows, new_notice, noted, others, refreshed, relay_step, removal_packets, stale_addrs,
    touched,
};
use crate::server::{lemma_knows_at, lemma_knows_push, lemma_others, lemma_others_knows};
use crate::server::{ClientInfoView, PacketView, RelayView, SWEEP_INTERVAL};
use crate::wire::{decode_spec, encode_spec, MessageType, MessageView};
use vstd::prelude::*;
use vstd::utf8::*;

verus! {

/// How many times `packet` occurs in `out`.
pub open spec fn count(out: Seq<PacketView>, packet: PacketView) -> nat
    decreases out.len(),
{
    if out.len() == 0 {
        0
    } else {
        count(out.drop_last(), packet) + if out.last() == packet {
            1nat
        } else {
            0nat
        }
    }
}

proof fn lemma_count_push(out: Seq<PacketView>, last: PacketView, packet: PacketView)
    ensures
        count(out.push(last), packet) == count(out, packet) + if last == packet {
            1nat
        } else {
            0nat
        },
{
    assert(out.push(last).drop_last() =~= out);
}

proof fn lemma_count_add(a: Seq<PacketView>, b: Seq<PacketView>, packet: PacketView)
    ensures
        count(a + b, packet) == count(a, packet) + count(b, packet),
    decreases b.len(),
{
    if b.len() == 0 {
        assert(a + b =~= a);
    } else {
        lemma_count_add(a, b.drop_last(), packet);
        assert(a + b =~= (a + b.drop_last()).push(b.last()));
        lemma_count_push(a + b.drop_last(), b.last(), packet);
    }
}

proof fn lemma_count_absent(out: Seq<PacketView>, packet: PacketView)
    requires
        forall|i: int| 0 <= i < out.len() ==> out[i] != packet,
    ensures
        count(out, packet) == 0,
    decreases out.len(),
{
    if out.len() > 0 {
        lemma_count_absent(out.drop_last(), packet);
    }
}

/// Two payloads framed under one kind are the same datagram only if they
/// are the same payload.
proof fn lemma_encode_injective(kind: MessageType, a: Seq<u8>, b: Seq<u8>)
    requires
        encode_spec(kind, a) == encode_spec(kind, b),
    ensures
        a == b,
{
    let x = encode_spec(kind, a);
    let y = encode_spec(kind, b);
    assert(x.subrange(1, x.len() as int) =~= a);
    assert(y.subrange(1, y.len() as int) =~= b);
}

proof fn lemma_distinct_front(peers: Seq<ClientInfoView>)
    requires
        distinct(peers),
        peers.len() > 0,
    ensures
        distinct(peers.drop_last()),
        !knows(peers.drop_last(), peers.last().addr),
{
    let front = peers.drop_last();
    assert forall|i: int, j: int| 0 <= i < j < front.len() implies (#[trigger] front[i]).addr != (
    #[trigger] front[j]).addr by {
        assert(peers[i].addr != peers[j].addr);
    }
    if knows(front, peers.last().addr) {
        let i = choose|i: int|
            0 <= i < front.len() && (#[trigger] front[i]).addr == peers.last().addr;
        assert(peers[i].addr != peers[peers.len() - 1].addr);
    }
}

/// Among distinct peers, each registered address gets exactly one of the
/// copies and nobody else gets any.
proof fn lemma_count_copies(peers: Seq<ClientInfoView>, bytes: Seq<u8>, to: Seq<char>)
    requires
        distinct(peers),
    ensures
        count(copies_for(peers, bytes), PacketView { to, bytes }) == if knows(peers, to) {
            1nat
        } else {
            0nat
        },
    decreases peers.len(),
{
    if peers.len() == 0 {
    } else {
        let front = peers.drop_last();
        let last = peers.last();
        lemma_distinct_front(peers);
        lemma_count_copies(front, bytes, to);
        assert(peers =~= front.push(last));
        lemma_knows_push(front, last, to);
        assert(copies_for(peers, bytes) =~= copies_for(front, bytes).push(
            PacketView { to: last.addr, bytes },
        ));
        lemma_count_push(
            copies_for(front, bytes),
            PacketView { to: last.addr, bytes },
            PacketView { to, bytes },
        );
    }
}

/// Registering or refreshing a sender keeps addresses distinct, adds at
/// most the sender, and leaves every other entry as it was.
pub proof fn lemma_touched(peers: Seq<ClientInfoView>, from: Seq<char>, now: u64)
    ensures
        distinct(peers) ==> distinct(touched(peers, from, now)),
        knows(touched(peers, from, now), from),
        forall|a: Seq<char>|
            knows(touched(peers, from, now), a) <==> (#[trigger] knows(peers, a) || a == from),
        forall|i: int|
            0 <= i < peers.len() ==> #[trigger] touched(peers, from, now)[i] == refreshed(
                peers[i],
                from,
                now,
            ),
        forall|i: int|
            0 <= i < touched(peers, from, now).len() && (#[trigger] touched(
                peers,
                from,
                now,
            )[i]).addr == from ==> touched(peers, from, now)[i].last_active == now,
{
    let after = touched(peers, from, now);
    if knows(peers, from) {
        let w = choose|i: int| 0 <= i < peers.len() && (#[trigger] peers[i]).addr == from;
        lemma_knows_at(after, w);
        assert forall|a: Seq<char>| knows(after, a) <==> (#[trigger] knows(peers, a) || a
            == from) by {
            if knows(after, a) {
                let i = choose|i: int| 0 <= i < after.len() && (#[trigger] after[i]).addr == a;
                lemma_knows_at(peers, i);
            }
            if knows(peers, a) {
                let i = choose|i: int| 0 <= i < peers.len() && (#[trigger] peers[i]).addr == a;
                lemma_knows_at(after, i);
            }
        }
        if distinct(peers) {
            assert forall|i: int, j: int| 0 <= i < j < after.len() implies (#[trigger] after[i]).addr
                != (#[trigger] after[j]).addr by {
                assert(peers[i].addr != peers[j].addr);
            }
        }
    } else {
        let entry = ClientInfoView { addr: from, last_active: now };
        lemma_knows_at(after, after.len() - 1);
        assert forall|a: Seq<char>| knows(after, a) <==> (#[trigger] knows(peers, a) || a
            == from) by {
            lemma_knows_push(peers, entry, a);
        }
        assert forall|i: int| 0 <= i < peers.len() implies #[trigger] after[i] == refreshed(
            peers[i],
            from,
            now,
        ) by {
            lemma_knows_at(peers, i);
        }
        if distinct(peers) {
            assert forall|i: int, j: int| 0 <= i < j < after.len() implies (#[trigger] after[i]).addr
                != (#[trigger] after[j]).addr by {
                if j < peers.len() {
                    assert(peers[i].addr != peers[j].addr);
                } else {
                    lemma_knows_at(peers, i);
                }
            }
        }
        assert forall|i: int|
            0 <= i < after.len() && (#[trigger] after[i]).addr == from implies after[i].last_active
            == now by {
            if i < peers.len() {
                lemma_knows_at(peers, i);
            }
        }
    }
}

/// A sweep evicts an address exactly when one of its entries is stale.
pub proof fn lemma_stale_addrs(peers: Seq<ClientInfoView>, now: u64)
    ensures
        forall|a: Seq<char>| #[trigger]
            stale_addrs(peers, now).contains(a) <==> exists|i: int|
                0 <= i < peers.len() && (#[trigger] peers[i]).addr == a && is_stale(peers[i], now),
        distinct(peers) ==> stale_addrs(peers, now).no_duplicates(),
    decreases peers.len(),
{
    let gone = stale_addrs(peers, now);
    if peers.len() == 0 {
        reveal(Seq::filter);
        assert(gone =~= Seq::<Seq<char>>::empty());
    } else {
        let front = peers.drop_last();
        let last = peers.last();
        let before = stale_addrs(front, now);
        lemma_stale_addrs(front, now);
        assert(peers =~= front.push(last));
        front.lemma_filter_push(last, |p: ClientInfoView| is_stale(p, now));
        if is_stale(last, now) {
            assert(gone =~= before.push(last.addr));
        } else {
            assert(gone =~= before);
        }
        assert forall|a: Seq<char>| #[trigger]
            gone.contains(a) <==> exists|i: int|
                0 <= i < peers.len() && (#[trigger] peers[i]).addr == a && is_stale(
                    peers[i],
                    now,
                ) by {
            if gone.contains(a) {
                let k = choose|k: int| 0 <= k < gone.len() && gone[k] == a;
                if k < before.len() {
                    assert(before[k] == a);
                    assert(before.contains(a));
                    let i = choose|i: int|
                        0 <= i < front.len() && (#[trigger] front[i]).addr == a && is_stale(
                            front[i],
                            now,
                        );
                    assert(peers[i].addr == a && is_stale(peers[i], now));
                } else {
                    assert(peers[peers.len() - 1].addr == a && is_stale(
                        peers[peers.len() - 1],
                        now,
                    ));
                }
            }
            if exists|i: int|
                0 <= i < peers.len() && (#[trigger] peers[i]).addr == a && is_stale(peers[i], now) {
                let i = choose|i: int|
                    0 <= i < peers.len() && (#[trigger] peers[i]).addr == a && is_stale(
                        peers[i],
                        now,
                    );
                if i < front.len() {
                    assert(front[i].addr == a && is_stale(front[i], now));
                    assert(before.contains(a));
                    let k = choose|k: int| 0 <= k < before.len() && before[k] == a;
                    assert(gone[k] == a);
                } else {
                    assert(gone[gone.len() - 1] == a);
                }
            }
        }
        if distinct(peers) {
            lemma_distinct_front(peers);
            assert forall|i: int, j: int| 0 <= i < gone.len() && 0 <= j < gone.len() && i
                != j implies gone[i] != gone[j] by {
                if i < before.len() && j < before.len() {
                } else {
                    let low = if i < j {
                        i
                    } else {
                        j
                    };
                    assert(before[low] == gone[low]);
                    assert(before.contains(gone[low]));
                    if gone[low] == last.addr {
                        let w = choose|w: int|
                            0 <= w < front.len() && (#[trigger] front[w]).addr == last.addr
                                && is_stale(front[w], now);
                        lemma_knows_at(front, w);
                    }
                }
            }
        }
    }
}

/// After a series of evictions exactly the evicted addresses are gone.
pub proof fn lemma_evicted_knows(peers: Seq<ClientInfoView>, gone: Seq<Seq<char>>, a: Seq<char>)
    ensures
        knows(evicted(peers, gone).0, a) <==> (knows(peers, a) && !gone.contains(a)),
        distinct(peers) ==> distinct(evicted(peers, gone).0),
    decreases gone.len(),
{
    if gone.len() == 0 {
    } else {
        let front = gone.drop_last();
        let last = gone.last();
        lemma_evicted_knows(peers, front, a);
        let before = evicted(peers, front);
        lemma_others_knows(before.0, last, a);
        lemma_others(before.0, last);
        assert(gone =~= front.push(last));
        if front.contains(a) {
            let k = choose|k: int| 0 <= k < front.len() && front[k] == a;
            assert(gone[k] == a);
        }
        if gone.contains(a) && a != last {
            let k = choose|k: int| 0 <= k < gone.len() && gone[k] == a;
            assert(front[k] == a);
        }
        if a == last {
            assert(gone[gone.len() - 1] == a);
        }
    }
}

/// Whether `packet` is part of what the departure of `gone` sends.
pub open spec fn farewell_for(packet: PacketView, gone: Seq<char>) -> bool {
    packet == bye_packet(gone) || packet.bytes == encode_spec(
        MessageType::DeleteClient,
        encode_utf8(gone),
    )
}

proof fn lemma_removal_traffic(peers: Seq<ClientInfoView>, gone: Seq<char>, i: int)
    requires
        0 <= i < removal_packets(peers, gone).len(),
    ensures
        farewell_for(removal_packets(peers, gone)[i], gone),
{
}

/// Everything that a series of evictions sends is part of the departure of
/// one of the evicted.
proof fn lemma_evicted_traffic(peers: Seq<ClientInfoView>, gone: Seq<Seq<char>>, i: int)
    requires
        0 <= i < evicted(peers, gone).1.len(),
    ensures
        exists|k: int| 0 <= k < gone.len() && farewell_for(evicted(peers, gone).1[i], #[trigger] gone[k]),
    decreases gone.len(),
{
    if gone.len() > 0 {
        let front = gone.drop_last();
        let before = evicted(peers, front);
        if i < before.1.len() {
            lemma_evicted_traffic(peers, front, i);
            let k = choose|k: int|
                0 <= k < front.len() && farewell_for(before.1[i], #[trigger] front[k]);
            assert(farewell_for(evicted(peers, gone).1[i], gone[k]));
        } else {
            lemma_removal_traffic(before.0, gone.last(), i - before.1.len());
            assert(farewell_for(evicted(peers, gone).1[i], gone[gone.len() - 1]));
        }
    }
}

/// A farewell is never audio, a greeting or a notice of arrival.
proof fn lemma_farewell_kind(packet: PacketView, gone: Seq<char>)
    requires
        farewell_for(packet, gone),
    ensures
        packet.bytes.len() > 0,
        packet.bytes[0] == MessageType::Bye.spec_code() || packet.bytes[0]
            == MessageType::DeleteClient.spec_code(),
{
}

/// The notice that `gone` has left is part of no other departure.
proof fn lemma_farewell_about(to: Seq<char>, gone: Seq<char>, other: Seq<char>)
    requires
        farewell_for(delete_notice(to, gone), other),
    ensures
        other == gone,
{
    let notice = delete_notice(to, gone);
    assert(notice.bytes[0] == MessageType::DeleteClient.spec_code());
    assert(bye_packet(other).bytes[0] == MessageType::Bye.spec_code());
    lemma_encode_injective(MessageType::DeleteClient, encode_utf8(gone), encode_utf8(other));
    lemma_text_bytes_injective(gone, other);
}

/// The departure of `gone` tells everyone who stays, once.
proof fn lemma_removal_count(
    peers: Seq<ClientInfoView>,
    gone: Seq<char>,
    to: Seq<char>,
    about: Seq<char>,
)
    requires
        distinct(peers),
    ensures
        count(removal_packets(peers, gone), delete_notice(to, about)) == if about == gone && to
            != gone && knows(peers, gone) && knows(peers, to) {
            1nat
        } else {
            0nat
        },
{
    let out = removal_packets(peers, gone);
    let notice = delete_notice(to, about);
    if about != gone {
        assert forall|i: int| 0 <= i < out.len() implies out[i] != notice by {
            lemma_removal_traffic(peers, gone, i);
            if out[i] == notice {
                lemma_farewell_about(to, about, gone);
            }
        }
        lemma_count_absent(out, notice);
    } else if knows(peers, gone) {
        let bytes = encode_spec(MessageType::DeleteClient, encode_utf8(gone));
        let head = seq![bye_packet(gone)];
        lemma_count_add(head, copies_for(others(peers, gone), bytes), notice);
        assert(head[0].bytes[0] != notice.bytes[0]);
        lemma_count_absent(head, notice);
        lemma_others(peers, gone);
        lemma_others_knows(peers, gone, to);
        lemma_count_copies(others(peers, gone), bytes, to);
    }
}

/// After a series of evictions, everyone who is still registered has been
/// told of each of them exactly once.
proof fn lemma_evicted_count(
    peers: Seq<ClientInfoView>,
    gone: Seq<Seq<char>>,
    to: Seq<char>,
    about: Seq<char>,
)
    requires
        distinct(peers),
        gone.no_duplicates(),
        forall|k: int| 0 <= k < gone.len() ==> knows(peers, #[trigger] gone[k]),
        knows(evicted(peers, gone).0, to),
    ensures
        count(evicted(peers, gone).1, delete_notice(to, about)) == if gone.contains(about) {
            1nat
        } else {
            0nat
        },
    decreases gone.len(),
{
    let notice = delete_notice(to, about);
    if gone.len() == 0 {
    } else {
        let front = gone.drop_last();
        let last = gone.last();
        let before = evicted(peers, front);
        assert(gone =~= front.push(last));
        assert(forall|k: int| 0 <= k < front.len() ==> front[k] == gone[k]);
        lemma_evicted_knows(peers, front, to);
        lemma_evicted_knows(peers, front, last);
        lemma_others_knows(before.0, last, to);
        lemma_evicted_count(peers, front, to, about);
        lemma_count_add(before.1, removal_packets(before.0, last), notice);
        lemma_removal_count(before.0, last, to, about);
        assert(!front.contains(last)) by {
            if front.contains(last) {
                let k = choose|k: int| 0 <= k < front.len() && front[k] == last;
                assert(gone[k] == gone[gone.len() - 1]);
            }
        }
        assert(knows(peers, gone[gone.len() - 1]));
        if about == last {
            assert(gone[gone.len() - 1] == about);
        } else {
            if gone.contains(about) {
                let k = choose|k: int| 0 <= k < gone.len() && gone[k] == about;
                assert(front[k] == about);
            }
            if front.contains(about) {
                let k = choose|k: int| 0 <= k < front.len() && front[k] == about;
                assert(gone[k] == about);
            }
        }
    }
}

/// What a sweep sends holds no copy of a packet that is not a farewell.
proof fn lemma_swept_count(peers: Seq<ClientInfoView>, gone: Seq<Seq<char>>, packet: PacketView)
    requires
        packet.bytes.len() == 0 || (packet.bytes[0] != MessageType::Bye.spec_code()
            && packet.bytes[0] != MessageType::DeleteClient.spec_code()),
    ensures
        count(evicted(peers, gone).1, packet) == 0,
{
    let out = evicted(peers, gone).1;
    assert forall|i: int| 0 <= i < out.len() implies out[i] != packet by {
        lemma_evicted_traffic(peers, gone, i);
        let k = choose|k: int| 0 <= k < gone.len() && farewell_for(out[i], #[trigger] gone[k]);
        lemma_farewell_kind(out[i], gone[k]);
    }
    lemma_count_absent(out, packet);
}

/// The registry as the sweep of one step leaves it, before the datagram is
/// acted on.
pub open spec fn swept(before: RelayView, from: Seq<char>, datagram: Seq<u8>, now: u64) -> (
    Seq<ClientInfoView>,
    Seq<PacketView>,
) {
    let heard = noted(before.peers, from, datagram, now);
    if before.pending + 1 >= SWEEP_INTERVAL {
        evicted(heard, stale_addrs(heard, now))
    } else {
        (heard, Seq::empty())
    }
}

proof fn lemma_swept(before: RelayView, from: Seq<char>, datagram: Seq<u8>, now: u64)
    requires
        before.wf(),
    ensures
        distinct(swept(before, from, datagram, now).0),
        !(decode_spec(datagram) is Unknown) ==> knows(swept(before, from, datagram, now).0, from),
{
    let heard = noted(before.peers, from, datagram, now);
    lemma_touched(before.peers, from, now);
    if before.pending + 1 >= SWEEP_INTERVAL {
        let gone = stale_addrs(heard, now);
        lemma_evicted_knows(heard, gone, from);
        lemma_stale_addrs(heard, now);
        if !(decode_spec(datagram) is Unknown) && gone.contains(from) {
            let i = choose|i: int|
                0 <= i < heard.len() && (#[trigger] heard[i]).addr == from && is_stale(
                    heard[i],
                    now,
                );
            assert(heard[i].last_active == now);
        }
    }
}

/// Audio from a peer goes, as it came, to every other registered peer
/// exactly once, and to nobody else: not back to its sender, and not to an
/// address that is not registered.
pub proof fn lemma_audio_fan_out(
    before: RelayView,
    from: Seq<char>,
    datagram: Seq<u8>,
    now: u64,
    peer: Seq<char>,
)
    requires
        before.wf(),
        decode_spec(datagram) is Audio,
    ensures
        ({
            let (after, out) = relay_step(before, from, datagram, now);
            count(out, PacketView { to: peer, bytes: datagram }) == if peer != from && knows(
                after.peers,
                peer,
            ) {
                1nat
            } else {
                0nat
            }
        }),
{
    let sw = swept(before, from, datagram, now);
    let packet = PacketView { to: peer, bytes: datagram };
    let fan = copies_for(others(sw.0, from), datagram);
    lemma_swept(before, from, datagram, now);
    if before.pending + 1 >= SWEEP_INTERVAL {
        let heard = noted(before.peers, from, datagram, now);
        lemma_swept_count(heard, stale_addrs(heard, now), packet);
    }
    lemma_count_add(sw.1, fan, packet);
    lemma_others(sw.0, from);
    lemma_others_knows(sw.0, from, peer);
    lemma_count_copies(others(sw.0, from), datagram, peer);
}

proof fn lemma_count_introductions(
    existing: Seq<ClientInfoView>,
    newcomer: Seq<char>,
    peer: Seq<char>,
)
    requires
        distinct(existing),
        !knows(existing, newcomer),
        peer != newcomer,
    ensures
        count(introductions(existing, newcomer), new_notice(peer, newcomer)) == if knows(
            existing,
            peer,
        ) {
            1nat
        } else {
            0nat
        },
        count(introductions(existing, newcomer), new_notice(newcomer, peer)) == if knows(
            existing,
            peer,
        ) {
            1nat
        } else {
            0nat
        },
    decreases existing.len(),
{
    if existing.len() > 0 {
        let front = existing.drop_last();
        let last = existing.last();
        lemma_distinct_front(existing);
        assert(existing =~= front.push(last));
        lemma_knows_push(front, last, peer);
        lemma_knows_push(front, last, newcomer);
        lemma_count_introductions(front, newcomer, peer);
        let told = new_notice(last.addr, newcomer);
        let tells = new_notice(newcomer, last.addr);
        let so_far = introductions(front, newcomer);
        assert(introductions(existing, newcomer) =~= so_far.push(told).push(tells));
        lemma_count_push(so_far, told, new_notice(peer, newcomer));
        lemma_count_push(so_far.push(told), tells, new_notice(peer, newcomer));
        lemma_count_push(so_far, told, new_notice(newcomer, peer));
        lemma_count_push(so_far.push(told), tells, new_notice(newcomer, peer));
        if tells == new_notice(newcomer, peer) {
            lemma_encode_injective(
                MessageType::NewClient,
                encode_utf8(last.addr),
                encode_utf8(peer),
            );
            lemma_text_bytes_injective(last.addr, peer);
        }
    }
}

/// When a peer says `Hello`, every other registered peer is told of it
/// exactly once, and it is told of every other registered peer exactly once.
pub proof fn lemma_hello_introduces(
    before: RelayView,
    from: Seq<char>,
    datagram: Seq<u8>,
    now: u64,
    peer: Seq<char>,
)
    requires
        before.wf(),
        decode_spec(datagram) is Hello,
        peer != from,
    ensures
        ({
            let (after, out) = relay_step(before, from, datagram, now);
            let times = if knows(after.peers, peer) {
                1nat
            } else {
                0nat
            };
            &&& count(out, new_notice(peer, from)) == times
            &&& count(out, new_notice(from, peer)) == times
        }),
{
    let sw = swept(before, from, datagram, now);
    let text = decode_spec(datagram)->Hello_0;
    let ack = seq![
        PacketView { to: from, bytes: encode_spec(MessageType::Hello, encode_utf8(text)) },
    ];
    let met = introductions(others(sw.0, from), from);
    let told = new_notice(peer, from);
    let tells = new_notice(from, peer);
    lemma_swept(before, from, datagram, now);
    if before.pending + 1 >= SWEEP_INTERVAL {
        let heard = noted(before.peers, from, datagram, now);
        lemma_swept_count(heard, stale_addrs(heard, now), told);
        lemma_swept_count(heard, stale_addrs(heard, now), tells);
    }
    lemma_count_add(sw.1, ack + met, told);
    lemma_count_add(sw.1, ack + met, tells);
    lemma_count_add(ack, met, told);
    lemma_count_add(ack, met, tells);
    assert(ack[0].bytes[0] != told.bytes[0]);
    assert(ack[0].bytes[0] != tells.bytes[0]);
    lemma_count_absent(ack, told);
    lemma_count_absent(ack, tells);
    lemma_others(sw.0, from);
    lemma_others_knows(sw.0, from, peer);
    lemma_others_knows(sw.0, from, from);
    lemma_count_introductions(others(sw.0, from), from, peer);
}

/// On the datagram that brings the count since the last sweep to the sweep
/// interval, a peer that has been silent for the timeout or longer is
/// removed, and everyone who is registered afterwards has been told so
/// exactly once. The one peer that such a datagram spares is its own sender,
/// if the datagram is of a known kind and so a sign of life.
pub proof fn lemma_sweep_evicts(
    before: RelayView,
    from: Seq<char>,
    datagram: Seq<u8>,
    now: u64,
    idle: ClientInfoView,
    peer: Seq<char>,
)
    requires
        before.wf(),
        before.pending + 1 == SWEEP_INTERVAL,
        before.peers.contains(idle),
        is_stale(idle, now),
        idle.addr != from || decode_spec(datagram) is Unknown,
    ensures
        ({
            let (after, out) = relay_step(before, from, datagram, now);
            &&& after.pending == 0
            &&& !knows(after.peers, idle.addr)
            &&& knows(after.peers, peer) ==> count(out, delete_notice(peer, idle.addr)) == 1
        }),
{
    let heard = noted(before.peers, from, datagram, now);
    let gone = stale_addrs(heard, now);
    let sw = evicted(heard, gone);
    let acted = dispatched(sw.0, from, datagram);
    let notice = delete_notice(peer, idle.addr);
    lemma_touched(before.peers, from, now);
    lemma_stale_addrs(heard, now);
    let w = choose|i: int| 0 <= i < before.peers.len() && before.peers[i] == idle;
    if !(decode_spec(datagram) is Unknown) {
        assert(heard[w] == refreshed(before.peers[w], from, now));
    }
    assert(heard[w].addr == idle.addr && is_stale(heard[w], now));
    assert(gone.contains(idle.addr));
    lemma_evicted_knows(heard, gone, idle.addr);
    lemma_evicted_knows(heard, gone, peer);
    lemma_others_knows(sw.0, from, idle.addr);
    lemma_others_knows(sw.0, from, peer);
    assert(!knows(acted.0, idle.addr));
    if knows(acted.0, peer) {
        assert(knows(sw.0, peer));
        assert forall|k: int| 0 <= k < gone.len() implies knows(heard, #[trigger] gone[k]) by {
            assert(gone.contains(gone[k]));
            let i = choose|i: int|
                0 <= i < heard.len() && (#[trigger] heard[i]).addr == gone[k] && is_stale(
                    heard[i],
                    now,
                );
            lemma_knows_at(heard, i);
        }
        lemma_evicted_count(heard, gone, peer, idle.addr);
        lemma_count_add(sw.1, acted.1, notice);
        match decode_spec(datagram) {
            MessageView::Audio(_) => {
                assert forall|i: int| 0 <= i < acted.1.len() implies acted.1[i] != notice by {
                    assert(acted.1[i].bytes[0] == MessageType::Audio.spec_code());
                }
                lemma_count_absent(acted.1, notice);
            },
            MessageView::Hello(text) => {
                let ack = seq![
                    PacketView {
                        to: from,
                        bytes: encode_spec(MessageType::Hello, encode_utf8(text)),
                    },
                ];
                let met = introductions(others(sw.0, from), from);
                lemma_count_add(ack, met, notice);
                assert(ack[0].bytes[0] != notice.bytes[0]);
                lemma_count_absent(ack, notice);
                lemma_introductions_kind(others(sw.0, from), from, notice);
            },
            MessageView::Bye => {
                lemma_removal_count(sw.0, from, peer, idle.addr);
            },
            _ => {},
        }
    }
}

/// Introductions hold nothing but notices of arrival.
proof fn lemma_introductions_kind(
    existing: Seq<ClientInfoView>,
    newcomer: Seq<char>,
    packet: PacketView,
)
    requires
        packet.bytes.len() == 0 || packet.bytes[0] != MessageType::NewClient.spec_code(),
    ensures
        count(introductions(existing, newcomer), packet) == 0,
    decreases existing.len(),
{
    if existing.len() > 0 {
        let front = existing.drop_last();
        let last = existing.last();
        lemma_introductions_kind(front, newcomer, packet);
        let told = new_notice(last.addr, newcomer);
        let tells = new_notice(newcomer, last.addr);
        let so_far = introductions(front, newcomer);
        assert(introductions(existing, newcomer) =~= so_far.push(told).push(tells));
        lemma_count_push(so_far, told, packet);
        lemma_count_push(so_far.push(told), tells, packet);
        assert(told.bytes[0] == MessageType::NewClient.spec_code());
        assert(tells.bytes[0] == MessageType::NewClient.spec_code());
    }
}


/// Filtering twice is filtering once by both conditions.
proof fn lemma_filter_twice(
    peers: Seq<ClientInfoView>,
    first: spec_fn(ClientInfoView) -> bool,
    second: spec_fn(ClientInfoView) -> bool,
    both: spec_fn(ClientInfoView) -> bool,
)
    requires
        forall|p: ClientInfoView| #[trigger] both(p) == (first(p) && second(p)),
    ensures
        peers.filter(first).filter(second) == peers.filter(both),
    decreases peers.len(),
{
    if peers.len() == 0 {
        reveal(Seq::filter);
        assert(peers.filter(first) =~= peers);
        assert(peers.filter(both) =~= peers);
    } else {
        let front = peers.drop_last();
        let last = peers.last();
        assert(peers =~= front.push(last));
        lemma_filter_twice(front, first, second, both);
        front.lemma_filter_push(last, first);
        front.lemma_filter_push(last, both);
        front.filter(first).lemma_filter_push(last, second);
    }
}

/// Two conditions that agree on every entry keep the same entries.
proof fn lemma_filter_agree(
    peers: Seq<ClientInfoView>,
    one: spec_fn(ClientInfoView) -> bool,
    other: spec_fn(ClientInfoView) -> bool,
)
    requires
        forall|i: int| 0 <= i < peers.len() ==> one(#[trigger] peers[i]) == other(peers[i]),
    ensures
        peers.filter(one) == peers.filter(other),
    decreases peers.len(),
{
    if peers.len() == 0 {
        reveal(Seq::filter);
    } else {
        let front = peers.drop_last();
        let last = peers.last();
        assert(peers =~= front.push(last));
        assert forall|i: int| 0 <= i < front.len() implies one(#[trigger] front[i]) == other(
            front[i],
        ) by {
            assert(front[i] == peers[i]);
        }
        lemma_filter_agree(front, one, other);
        front.lemma_filter_push(last, one);
        front.lemma_filter_push(last, other);
        assert(one(peers[peers.len() - 1]) == other(peers[peers.len() - 1]));
    }
}

/// A series of evictions leaves the entries whose address is not among the
/// evicted, in registry order.
proof fn lemma_evicted_registry(peers: Seq<ClientInfoView>, gone: Seq<Seq<char>>)
    ensures
        evicted(peers, gone).0 == peers.filter(|p: ClientInfoView| !gone.contains(p.addr)),
    decreases gone.len(),
{
    let stays = |p: ClientInfoView| !gone.contains(p.addr);
    if gone.len() == 0 {
        lemma_filter_agree(peers, stays, |p: ClientInfoView| true);
        lemma_filter_all(peers);
    } else {
        let front = gone.drop_last();
        let last = gone.last();
        let stayed = |p: ClientInfoView| !front.contains(p.addr);
        let not_last = |p: ClientInfoView| p.addr != last;
        lemma_evicted_registry(peers, front);
        assert(gone =~= front.push(last));
        assert forall|p: ClientInfoView| #[trigger] stays(p) == (stayed(p) && not_last(p)) by {
            if front.contains(p.addr) {
                let k = choose|k: int| 0 <= k < front.len() && front[k] == p.addr;
                assert(gone[k] == p.addr);
            }
            if p.addr == last {
                assert(gone[gone.len() - 1] == p.addr);
            }
            if gone.contains(p.addr) && p.addr != last {
                let k = choose|k: int| 0 <= k < gone.len() && gone[k] == p.addr;
                assert(front[k] == p.addr);
            }
        }
        lemma_filter_twice(peers, stayed, not_last, stays);
    }
}

/// A condition that holds of everything keeps everything.
proof fn lemma_filter_all(peers: Seq<ClientInfoView>)
    ensures
        peers.filter(|p: ClientInfoView| true) == peers,
    decreases peers.len(),
{
    if peers.len() == 0 {
        reveal(Seq::filter);
    } else {
        let front = peers.drop_last();
        assert(peers =~= front.push(peers.last()));
        lemma_filter_all(front);
        front.lemma_filter_push(peers.last(), |p: ClientInfoView| true);
    }
}

/// The peers that a sweep at `now` does not evict, in registry order.
pub open spec fn fresh(peers: Seq<ClientInfoView>, now: u64) -> Seq<ClientInfoView> {
    peers.filter(|p: ClientInfoView| !is_stale(p, now))
}

/// A sweep leaves exactly the peers that have not been silent for the
/// timeout, each as it was and in the order in which they were registered.
pub proof fn lemma_sweep_keeps_fresh(peers: Seq<ClientInfoView>, now: u64)
    requires
        distinct(peers),
    ensures
        evicted(peers, stale_addrs(peers, now)).0 == fresh(peers, now),
{
    let gone = stale_addrs(peers, now);
    lemma_evicted_registry(peers, gone);
    lemma_stale_addrs(peers, now);
    assert forall|i: int| 0 <= i < peers.len() implies !gone.contains((#[trigger] peers[i]).addr)
        == !is_stale(peers[i], now) by {
        if gone.contains(peers[i].addr) {
            let j = choose|j: int|
                0 <= j < peers.len() && (#[trigger] peers[j]).addr == peers[i].addr && is_stale(
                    peers[j],
                    now,
                );
            if j < i {
                assert(peers[j].addr != peers[i].addr);
            }
            if i < j {
                assert(peers[i].addr != peers[j].addr);
            }
        }
    }
    lemma_filter_agree(
        peers,
        |p: ClientInfoView| !gone.contains(p.addr),
        |p: ClientInfoView| !is_stale(p, now),
    );
}

/// A step keeps what holds of the relay between datagrams: no two entries
/// share an address, and the count towards the next sweep stays below the
/// sweep interval.
pub proof fn lemma_step_keeps_wf(before: RelayView, from: Seq<char>, datagram: Seq<u8>, now: u64)
    requires
        before.wf(),
    ensures
        relay_step(before, from, datagram, now).0.wf(),
{
    lemma_swept(before, from, datagram, now);
    lemma_others(swept(before, from, datagram, now).0, from);
}


/// Whoever sends a datagram of a known kind is registered afterwards,
/// unless the datagram was its goodbye.
pub proof fn lemma_sender_registered(
    before: RelayView,
    from: Seq<char>,
    datagram: Seq<u8>,
    now: u64,
)
    requires
        before.wf(),
        !(decode_spec(datagram) is Unknown),
    ensures
        knows(relay_step(before, from, datagram, now).0.peers, from) == !(decode_spec(
            datagram,
        ) is Bye),
{
    lemma_swept(before, from, datagram, now);
    lemma_others_knows(swept(before, from, datagram, now).0, from, from);
}

/// A registered peer stays registered through a step, unless it says
/// goodbye in it, or a sweep is due in it and finds the peer silent for the
/// timeout or longer.
pub proof fn lemma_stays_registered(
    before: RelayView,
    from: Seq<char>,
    datagram: Seq<u8>,
    now: u64,
    peer: ClientInfoView,
)
    requires
        before.wf(),
        before.peers.contains(peer),
        peer.addr != from,
        before.pending + 1 < SWEEP_INTERVAL || !is_stale(peer, now),
    ensures
        knows(relay_step(before, from, datagram, now).0.peers, peer.addr),
{
    let heard = noted(before.peers, from, datagram, now);
    let sw = swept(before, from, datagram, now);
    lemma_touched(before.peers, from, now);
    let w = choose|i: int| 0 <= i < before.peers.len() && before.peers[i] == peer;
    lemma_knows_at(before.peers, w);
    assert(heard[w] == peer) by {
        if !(decode_spec(datagram) is Unknown) {
            assert(heard[w] == refreshed(before.peers[w], from, now));
        }
    }
    lemma_knows_at(heard, w);
    if before.pending + 1 >= SWEEP_INTERVAL {
        let gone = stale_addrs(heard, now);
        lemma_stale_addrs(heard, now);
        lemma_evicted_knows(heard, gone, peer.addr);
        if gone.contains(peer.addr) {
            let i = choose|i: int|
                0 <= i < heard.len() && (#[trigger] heard[i]).addr == peer.addr && is_stale(
                    heard[i],
                    now,
                );
            if i < w {
                assert(heard[i].addr != heard[w].addr);
            }
            if w < i {
                assert(heard[w].addr != heard[i].addr);
            }
        }
    }
    lemma_others_knows(sw.0, from, peer.addr);
}


/// A datagram that is neither audio nor a greeting nor a goodbye is not
/// acted on: it sends nothing and leaves the registry as registration and
/// sweep left it. This holds of every kind that is not assigned.
pub proof fn lemma_ignored_kinds(peers: Seq<ClientInfoView>, from: Seq<char>, datagram: Seq<u8>)
    requires
        !(decode_spec(datagram) is Audio),
        !(decode_spec(datagram) is Hello),
        !(decode_spec(datagram) is Bye),
    ensures
        dispatched(peers, from, datagram) == (peers, Seq::<PacketView>::empty()),
        decode_spec(datagram) is Unknown || decode_spec(datagram) is Ping || decode_spec(
            datagram,
        ) is NewClient || decode_spec(datagram) is DeleteClient,
{
}


/// A datagram of unknown kind, or an empty one, is no sign of life and
/// asks for nothing: whoever sent it, the registry keeps its members and
/// every time of last activity, and nothing is sent. It only counts towards
/// the next sweep.
pub proof fn lemma_unknown_changes_nothing(
    before: RelayView,
    from: Seq<char>,
    datagram: Seq<u8>,
    now: u64,
)
    requires
        decode_spec(datagram) is Unknown,
        before.pending + 1 < SWEEP_INTERVAL,
    ensures
        relay_step(before, from, datagram, now).0.peers == before.peers,
        relay_step(before, from, datagram, now).0.pending == before.pending + 1,
        relay_step(before, from, datagram, now).1 == Seq::<PacketView>::empty(),
{
    assert(relay_step(before, from, datagram, now).1 =~= Seq::<PacketView>::empty());
}

/// Where a sweep falls on a datagram of unknown kind, the sweep is all
/// that happens: the sender is not refreshed first, and what is left are the
/// peers that were not silent for the timeout, as they were.
pub proof fn lemma_unknown_on_sweep(
    before: RelayView,
    from: Seq<char>,
    datagram: Seq<u8>,
    now: u64,
)
    requires
        before.wf(),
        decode_spec(datagram) is Unknown,
        before.pending + 1 >= SWEEP_INTERVAL,
    ensures
        relay_step(before, from, datagram, now).0.peers == fresh(before.peers, now),
        relay_step(before, from, datagram, now).0.pending == 0,
        relay_step(before, from, datagram, now).1 == evicted(
            before.peers,
            stale_addrs(before.peers, now),
        ).1,
{
    lemma_sweep_keeps_fresh(before.peers, now);
    let sw = evicted(before.peers, stale_addrs(before.peers, now));
    assert(sw.1 + Seq::<PacketView>::empty() =~= sw.1);
}

} // verus!
