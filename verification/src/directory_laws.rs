//! What a directory, its peers and its gossip come to, call by call.

use crate::addr::SocketAddr;
use crate::crypto;
use crate::descriptor;
use crate::descriptor::{
    HiddenServiceDescriptor, PeerInfo, PeerView, RelayDescriptor, RelayView,
};
use crate::directory;
use crate::directory::{Directory, PeerStore};
use crate::gossip;
use crate::gossip::Knowledge;
use crate::identity::VerifyingKey;
use crate::relay;
use crate::wire;
use crate::wire::MessageView;
use vstd::prelude::*;

verus! {

/// A connection is pinned to the certificate of a relay whose address is the one that is dialed, with
/// its port, and to none where no relay with a certificate has exactly that address.
pub proof fn law_pins_are_for_the_exact_address(
    d: &Directory,
    addr: SocketAddr,
    r: Option<Vec<u8>>,
)
    requires
        call_ensures(Directory::pinned_certificate, (d, addr), r),
    ensures
        match r {
            Some(cert) => exists|k: Seq<u8>|
                d@.relays.dom().contains(k) && (#[trigger] d@.relays[k]).external_address == addr
                    && d@.relays[k].tls_public_key == cert@ && cert@.len() > 0,
            None => forall|k: Seq<u8>|
                d@.relays.dom().contains(k) && (#[trigger] d@.relays[k]).external_address == addr
                    ==> d@.relays[k].tls_public_key.len() == 0,
        },
{
}

/// Where every address belongs to one relay, the certificate for the address of a relay is that
/// relay's own.
pub proof fn law_relays_are_pinned_to_their_own_certificate(
    d: &Directory,
    k: Seq<u8>,
    r: Option<Vec<u8>>,
)
    requires
        d@.relays.dom().contains(k),
        d@.relays[k].tls_public_key.len() > 0,
        forall|j: Seq<u8>|
            d@.relays.dom().contains(j) && (#[trigger] d@.relays[j]).external_address
                == d@.relays[k].external_address ==> j == k,
        call_ensures(Directory::pinned_certificate, (d, d@.relays[k].external_address), r),
    ensures
        r matches Some(cert) && cert@ == d@.relays[k].tls_public_key,
{
    law_pins_are_for_the_exact_address(d, d@.relays[k].external_address, r);
}

/// A descriptor is taken where it is signed by the key that it names and is newer than what is known
/// of that relay. It then stands under its key, and nothing else has changed; one that is not taken
/// changes nothing.
pub proof fn law_newer_signed_descriptors_are_taken(
    d: &mut Directory,
    x: RelayDescriptor,
    r: bool,
)
    requires
        call_ensures(Directory::add_relay, (d, x), r),
    ensures
        r == (crypto::ed25519_verifies(x@.id, descriptor::relay_message(x@), x@.signature) && !(old(d)@.relays.dom().contains(x@.id) && old(d)@.relays[x@.id].last_updated
            >= x@.last_updated)),
        r ==> final(d)@.relays.dom().contains(x@.id) && final(d)@.relays[x@.id] == x@,
        forall|k: Seq<u8>|
            k != x@.id ==> final(d)@.relays.dom().contains(k) == #[trigger] old(d)@.relays.dom().contains(k) && final(d)@.relays[k] == old(d)@.relays[k],
        !r ==> final(d)@.relays == old(d)@.relays,
        final(d)@.services == old(d)@.services,
{
}

/// A service's descriptor is taken where it is signed by the key that it names, in place of an earlier
/// one, and is then found under that key as it is. Other services and all relays stay as they were.
pub proof fn law_signed_services_are_found(
    d: &mut Directory,
    x: HiddenServiceDescriptor,
    r: bool,
)
    requires
        call_ensures(Directory::publish_hidden_service, (d, x), r),
    ensures
        r == crypto::ed25519_verifies(
            x@.identity_key,
            descriptor::service_message(x@),
            x@.signature,
        ),
        r ==> final(d)@.services.dom().contains(x@.identity_key)
            && final(d)@.services[x@.identity_key] == x@,
        forall|k: Seq<u8>|
            k != x@.identity_key ==> final(d)@.services.dom().contains(k) == #[trigger] old(d)@.services.dom().contains(k) && final(d)@.services[k] == old(d)@.services[k],
        !r ==> final(d)@.services == old(d)@.services,
        final(d)@.relays == old(d)@.relays,
{
}

/// What is found under a key is the descriptor that stands there, and names that key.
pub proof fn law_services_are_found_under_their_key(
    d: &Directory,
    key: &VerifyingKey,
    r: Option<HiddenServiceDescriptor>,
)
    requires
        call_ensures(Directory::get_hidden_service, (d, key), r),
    ensures
        r is Some == d@.services.dom().contains(key@),
        r matches Some(x) ==> x@ == d@.services[key@] && x@.identity_key == key@,
{
}

/// All relays are listed, each once and nothing else; and as many addresses, each that of a relay.
pub proof fn law_every_relay_is_listed_once(
    d: &Directory,
    list: Vec<RelayDescriptor>,
    order: Vec<SocketAddr>,
)
    requires
        call_ensures(Directory::get_all_relays, (d,), list),
        call_ensures(Directory::relay_addresses, (d,), order),
    ensures
        forall|k: Seq<u8>| #[trigger]
            d@.relays.dom().contains(k) ==> exists|i: int|
                0 <= i < list@.len() && (#[trigger] list@[i])@ == d@.relays[k],
        forall|i: int|
            0 <= i < list@.len() ==> d@.relays.dom().contains((#[trigger] list@[i])@.id)
                && d@.relays[list@[i]@.id] == list@[i]@,
        forall|i: int, j: int|
            0 <= i < j < list@.len() ==> (#[trigger] list@[i])@.id != (#[trigger] list@[j])@.id,
        order@.len() == list@.len(),
        forall|k: Seq<u8>| #[trigger]
            d@.relays.dom().contains(k) ==> order@.contains(d@.relays[k].external_address),
        forall|a: SocketAddr| #[trigger]
            order@.contains(a) ==> exists|k: Seq<u8>|
                d@.relays.dom().contains(k) && (#[trigger] d@.relays[k]).external_address == a,
{
    let views = wire::relay_views(list@);
    assert forall|k: Seq<u8>| #[trigger] d@.relays.dom().contains(k) implies exists|i: int|
        0 <= i < list@.len() && (#[trigger] list@[i])@ == d@.relays[k] by {
        let i = choose|i: int| 0 <= i < views.len() && (#[trigger] views[i]).id == k;
        assert(list@[i]@ == views[i]);
    }
    assert forall|i: int| 0 <= i < list@.len() implies d@.relays.dom().contains(
        (#[trigger] list@[i])@.id,
    ) && d@.relays[list@[i]@.id] == list@[i]@ by {
        assert(list@[i]@ == views[i]);
    }
    assert forall|i: int, j: int| 0 <= i < j < list@.len() implies (#[trigger] list@[i])@.id != (
    #[trigger] list@[j])@.id by {
        assert(list@[i]@ == views[i] && list@[j]@ == views[j]);
        assert(views[i].id != views[j].id);
    }
    directory::lemma_relay_order(d@.relays, order@, views);
}

/// A peer stands under the address of its descriptor, in place of an earlier one, and the others stay.
pub proof fn law_peers_stand_under_their_address(p: &mut PeerStore, x: PeerInfo)
    requires
        call_ensures(PeerStore::add_peer, (p, x), ()),
    ensures
        final(p)@.dom().contains(x@.descriptor.external_address),
        final(p)@[x@.descriptor.external_address] == x@,
        forall|a: SocketAddr|
            a != x@.descriptor.external_address ==> final(p)@.dom().contains(a) == #[trigger] old(p)@.dom().contains(a) && final(p)@[a] == old(p)@[a],
{
}

/// Whether a packet is an update that holds every one of these relays.
pub open spec fn updates_with(sent: Seq<u8>, relays: Map<Seq<u8>, RelayView>) -> bool {
    exists|list: Seq<RelayView>|
        sent == #[trigger] wire::message_packet(MessageView::Gossip(list)) && (forall|k: Seq<u8>|
            #[trigger] relays.dom().contains(k) ==> list.contains(relays[k])) && forall|i: int|
            0 <= i < list.len() ==> relays.dom().contains((#[trigger] list[i]).id)
                && relays[list[i].id] == list[i]
}

pub proof fn lemma_updates_with(sent: Seq<u8>, list: Seq<RelayView>, relays: Map<Seq<u8>, RelayView>)
    requires
        directory::lists_relays(list, relays),
        sent == wire::message_packet(MessageView::Gossip(list)),
    ensures
        updates_with(sent, relays),
{
    assert forall|k: Seq<u8>| #[trigger] relays.dom().contains(k) implies list.contains(
        relays[k],
    ) by {
        let i = choose|i: int| 0 <= i < list.len() && (#[trigger] list[i]).id == k;
        assert(list[i] == relays[k]);
    }
}

/// Gossip is answered with all that is known once it has been taken in: what the sender knew and this
/// node did not is already among it.
pub proof fn law_gossip_is_answered_with_everything(
    d: &mut Directory,
    list: Vec<RelayDescriptor>,
    r: Vec<u8>,
)
    requires
        call_ensures(relay::handle_gossip, (d, list), r),
    ensures
        updates_with(r@, final(d)@.relays),
        final(d)@.services == old(d)@.services,
        final(d)@.relays == directory::with_relays(old(d)@.relays, wire::relay_views(list@)),
{
    let answer = choose|answer: Seq<RelayView>| #[trigger]
        directory::lists_relays(answer, final(d)@.relays) && r@ == wire::message_packet(
            MessageView::Gossip(answer),
        );
    lemma_updates_with(r@, answer, final(d)@.relays);
}

/// Of the descriptors that come with gossip, each that is signed is known afterwards, or a newer one of
/// the same relay is; nothing that was known is lost or grows older.
pub proof fn law_gossip_is_taken_in(
    relays: Map<Seq<u8>, RelayView>,
    list: Seq<RelayView>,
)
    requires
        forall|k: Seq<u8>| #[trigger] relays.dom().contains(k) ==> relays[k].id == k,
    ensures
        ({
            let after = directory::with_relays(relays, list);
            &&& forall|k: Seq<u8>| #[trigger]
                relays.dom().contains(k) ==> after.dom().contains(k) && after[k].last_updated
                    >= relays[k].last_updated
            &&& forall|i: int|
                0 <= i < list.len() && crypto::ed25519_verifies(
                    (#[trigger] list[i]).id,
                    descriptor::relay_message(list[i]),
                    list[i].signature,
                ) ==> after.dom().contains(list[i].id) && after[list[i].id].last_updated
                    >= list[i].last_updated
            &&& forall|k: Seq<u8>| #[trigger]
                after.dom().contains(k) ==> after[k].id == k && ((relays.dom().contains(k)
                    && after[k] == relays[k]) || list.contains(after[k]))
        }),
    decreases list.len(),
{
    if list.len() > 0 {
        let head = list.drop_last();
        let x = list.last();
        law_gossip_is_taken_in(relays, head);
        let mid = directory::with_relays(relays, head);
        let after = directory::with_relays(relays, list);
        assert(after == directory::with_relay(mid, x));
        assert(list[list.len() - 1] == x);
        assert forall|i: int|
            0 <= i < list.len() && crypto::ed25519_verifies(
                (#[trigger] list[i]).id,
                descriptor::relay_message(list[i]),
                list[i].signature,
            ) implies after.dom().contains(list[i].id) && after[list[i].id].last_updated
            >= list[i].last_updated by {
            if i < head.len() {
                assert(head[i] == list[i]);
            }
        }
        assert forall|k: Seq<u8>| #[trigger] after.dom().contains(k) implies after[k].id == k && ((
        relays.dom().contains(k) && after[k] == relays[k]) || list.contains(after[k])) by {
            if after[k] != x {
                assert(mid.dom().contains(k) && after[k] == mid[k]);
                if head.contains(after[k]) {
                    let i = choose|i: int| 0 <= i < head.len() && head[i] == after[k];
                    assert(list[i] == after[k]);
                }
            }
        }
    }
}

/// A round begins with the node's own descriptor, and sends all that is then known: its own is among
/// it, if it is signed and newer than what was known of the node.
pub proof fn law_rounds_send_everything(
    d: &mut Directory,
    own: Option<&RelayDescriptor>,
    r: Vec<u8>,
)
    requires
        call_ensures(gossip::start_round, (d, own), r),
    ensures
        updates_with(r@, final(d)@.relays),
        own is None ==> final(d)@.relays == old(d)@.relays,
        own matches Some(x) ==> descriptor::relay_verifies(x@) && !old(d)@.relays.dom().contains(
            x@.id,
        ) ==> final(d)@.relays == old(d)@.relays.insert(x@.id, x@),
        forall|k: Seq<u8>| #[trigger]
            old(d)@.relays.dom().contains(k) ==> final(d)@.relays.dom().contains(k),
{
    let list = choose|list: Seq<RelayView>| #[trigger]
        directory::lists_relays(list, final(d)@.relays) && r@ == wire::message_packet(
            MessageView::Gossip(list),
        );
    lemma_updates_with(r@, list, final(d)@.relays);
}

/// The pieces of a text put together again with a comma between each two.
pub open spec fn joined(pieces: Seq<Seq<char>>) -> Seq<char>
    decreases pieces.len(),
{
    if pieces.len() == 0 {
        Seq::empty()
    } else if pieces.len() == 1 {
        pieces[0]
    } else {
        pieces[0] + seq![','] + joined(pieces.drop_first())
    }
}

proof fn lemma_pieces(s: Seq<char>, i: nat)
    requires
        i <= s.len(),
    ensures
        gossip::comma_pieces(s, i).len() > 0,
        joined(gossip::comma_pieces(s, i)) == s.skip(i as int),
        forall|j: int, k: int|
            0 <= j < gossip::comma_pieces(s, i).len() && 0 <= k < gossip::comma_pieces(
                s,
                i,
            )[j].len() ==> #[trigger] gossip::comma_pieces(s, i)[j][k] != ',',
    decreases s.len() - i,
{
    crate::text::lemma_find_from(s, ',', i as int);
    let end = crate::text::find_from(s, ',', i as int);
    let rest = gossip::comma_pieces(s, (end + 1) as nat);
    let all = gossip::comma_pieces(s, i);
    assert(all[0] == s.subrange(i as int, end));
    assert(all.drop_first() =~= rest);
    if end < s.len() {
        lemma_pieces(s, (end + 1) as nat);
        assert(s.skip(i as int) =~= s.subrange(i as int, end) + seq![','] + s.skip(end + 1));
    } else {
        assert(rest =~= Seq::empty());
        assert(s.skip(i as int) =~= s.subrange(i as int, end));
    }
    assert forall|j: int, k: int|
        0 <= j < all.len() && 0 <= k < all[j].len() implies #[trigger] all[j][k] != ',' by {
        if j == 0 {
            assert(all[0][k] == s[i + k]);
        } else {
            assert(all[j] == rest[j - 1]);
            assert(rest[j - 1][k] != ',');
        }
    }
}

/// The seeds of a setting are what stands between its commas: put together again with commas they are
/// the setting, and none of them holds one.
pub proof fn law_seeds_are_split_at_commas(setting: &str, r: Vec<String>)
    requires
        call_ensures(gossip::bootstrap_entries, (Some(setting),), r),
    ensures
        r@.len() > 0,
        joined(gossip::string_views(r@)) == setting@,
        forall|j: int, k: int|
            0 <= j < r@.len() && 0 <= k < r@[j]@.len() ==> #[trigger] r@[j]@[k] != ',',
{
    lemma_pieces(setting@, 0);
    assert(setting@.skip(0) =~= setting@);
    let views = gossip::string_views(r@);
    assert forall|j: int, k: int| 0 <= j < r@.len() && 0 <= k < r@[j]@.len() implies #[trigger] r@[j]@[k]
        != ',' by {
        assert(views[j] == r@[j]@);
        assert(views[j][k] != ',');
    }
}

/// Of every seed the first address counts, and a seed without one is left out; the seeds keep their
/// order.
pub proof fn law_first_addresses_count(a: Seq<Seq<SocketAddr>>, b: Seq<Seq<SocketAddr>>, one: Seq<SocketAddr>)
    ensures
        gossip::first_addresses(a + b) == gossip::first_addresses(a) + gossip::first_addresses(b),
        gossip::first_addresses(seq![one]) == if one.len() > 0 {
            seq![one[0]]
        } else {
            Seq::empty()
        },
    decreases b.len(),
{
    let s = seq![one];
    assert(s.drop_last() =~= Seq::empty());
    assert(gossip::first_addresses(s.drop_last()) =~= Seq::empty());
    assert(one.len() > 0 ==> gossip::first_addresses(s) =~= seq![one[0]]);
    if b.len() == 0 {
        assert(a + b =~= a);
        assert(gossip::first_addresses(a) + gossip::first_addresses(b) =~= gossip::first_addresses(
            a,
        ));
    } else {
        law_first_addresses_count(a, b.drop_last(), one);
        assert((a + b).drop_last() =~= a + b.drop_last());
        assert((a + b).last() == b.last());
        assert(gossip::first_addresses(a + b) =~= gossip::first_addresses(a)
            + gossip::first_addresses(b));
    }
}

/// A round gossips with the chosen peers and then with every seed but the node itself, in order and as
/// often as it stands there.
pub proof fn law_every_other_seed_is_a_target(
    chosen: Vec<SocketAddr>,
    seeds: &[SocketAddr],
    own: Option<SocketAddr>,
    r: Vec<SocketAddr>,
)
    requires
        call_ensures(gossip::round_targets, (chosen, seeds, own), r),
    ensures
        r@.len() >= chosen@.len(),
        r@.take(chosen@.len() as int) == chosen@,
        own is None ==> r@ == chosen@ + seeds@,
        own matches Some(a) ==> forall|x: SocketAddr|
            #[trigger] r@.skip(chosen@.len() as int).to_multiset().count(x) == if x == a {
                0
            } else {
                seeds@.to_multiset().count(x)
            },
{
    let n = chosen@.len() as int;
    let rest = gossip::others(seeds@, own);
    assert(r@.take(n) =~= chosen@);
    assert(r@.skip(n) =~= rest);
    match own {
        Some(a) => {
            assert forall|x: SocketAddr| #[trigger] rest.to_multiset().count(x) == if x == a {
                0
            } else {
                seeds@.to_multiset().count(x)
            } by {
                lemma_others_count(seeds@, a, x);
            }
        },
        None => {},
    }
}

proof fn lemma_others_count(seeds: Seq<SocketAddr>, own: SocketAddr, x: SocketAddr)
    ensures
        gossip::others(seeds, Some(own)).to_multiset().count(x) == if x == own {
            0
        } else {
            seeds.to_multiset().count(x)
        },
    decreases seeds.len(),
{
    broadcast use vstd::seq_lib::group_to_multiset_ensures;

    reveal(Seq::filter);
    let rest = gossip::others(seeds, Some(own));
    if seeds.len() == 0 {
        assert(rest =~= Seq::empty());
        assert(seeds =~= Seq::empty());
        seeds.to_multiset_ensures();
        assert(Seq::<SocketAddr>::empty().to_multiset().count(x) == 0) by {
            if Seq::<SocketAddr>::empty().to_multiset().count(x) > 0 {
                assert(Seq::<SocketAddr>::empty().contains(x));
            }
        }
    } else {
        let head = seeds.drop_last();
        let last = seeds.last();
        lemma_others_count(head, own, x);
        assert(seeds =~= head.push(last));
        assert(head.push(last).to_multiset() =~= head.to_multiset().insert(last));
        let before = gossip::others(head, Some(own));
        if last != own {
            assert(rest =~= before.push(last));
            assert(before.push(last).to_multiset() =~= before.to_multiset().insert(last));
        } else {
            assert(rest =~= before);
        }
    }
}

/// A round gossips with three known peers, or with all where there are fewer, each once, before the
/// seeds.
pub proof fn law_three_peers_are_targets(
    peers: &PeerStore,
    seeds: &[SocketAddr],
    own: Option<SocketAddr>,
    r: Vec<SocketAddr>,
)
    requires
        call_ensures(gossip::gossip_targets, (peers, seeds, own), r),
    ensures
        exists|n: int|
            {
                &&& 0 <= n <= 3
                &&& n <= r@.len()
                &&& #[trigger] r@.take(n).no_duplicates()
                &&& forall|i: int| 0 <= i < n ==> peers@.dom().contains(#[trigger] r@[i])
                &&& n < 3 ==> forall|a: SocketAddr| #[trigger]
                    peers@.dom().contains(a) ==> r@.take(n).contains(a)
                &&& own is None ==> r@.skip(n) == seeds@
            },
{
    let chosen = choose|chosen: Seq<SocketAddr>| #[trigger]
        gossip::is_peer_choice(chosen, peers@) && r@ == chosen + gossip::others(seeds@, own);
    let n = chosen.len() as int;
    assert(r@.take(n) =~= chosen);
    assert(r@.skip(n) =~= gossip::others(seeds@, own));
    assert forall|i: int| 0 <= i < n implies peers@.dom().contains(#[trigger] r@[i]) by {
        assert(r@[i] == chosen[i]);
    }
}

/// A relay whose descriptor is taken from a reply becomes a peer: it stands under its address with the
/// time of the reply. Without a clock, or where the descriptor is not taken, the peers stay as they are.
pub proof fn law_new_relays_become_peers(k: Knowledge, x: RelayView, now: Option<u64>)
    ensures
        ({
            let after = gossip::learned(k, seq![x], now);
            let taken = after.relays != k.relays;
            &&& taken ==> after.relays == k.relays.insert(x.id, x)
            &&& taken && now is Some ==> after.peers == k.peers.insert(
                x.external_address,
                PeerView { descriptor: x, last_seen: now.unwrap() },
            )
            &&& now is None ==> after.peers == k.peers
            &&& !directory::accepts_relay(k.relays, x) ==> after == k
            &&& directory::accepts_relay(k.relays, x) ==> after.relays.dom().contains(x.id)
                && after.relays[x.id] == x && (now is Some ==> after.peers.dom().contains(
                x.external_address,
            ))
        }),
{
    let one = seq![x];
    assert(one.drop_last() =~= Seq::empty());
    assert(gossip::learned(k, one.drop_last(), now) == k);
    assert(one.last() == x);
}

/// A reply is taken in descriptor by descriptor, in order.
pub proof fn law_replies_are_taken_in_order(
    k: Knowledge,
    a: Seq<RelayView>,
    b: Seq<RelayView>,
    now: Option<u64>,
)
    ensures
        gossip::learned(k, a + b, now) == gossip::learned(gossip::learned(k, a, now), b, now),
    decreases b.len(),
{
    if b.len() == 0 {
        assert(a + b =~= a);
    } else {
        law_replies_are_taken_in_order(k, a, b.drop_last(), now);
        assert((a + b).drop_last() =~= a + b.drop_last());
        assert((a + b).last() == b.last());
    }
}

} // verus!
