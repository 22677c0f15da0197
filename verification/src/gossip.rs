//! Gossip: how the directories of the nodes come to agree.

use crate::addr::SocketAddr;
use crate::descriptor::{PeerInfo, PeerView, RelayDescriptor, RelayView};
use crate::directory;
use crate::directory::{Directory, PeerStore};
use crate::random;
use crate::text;
use crate::wire;
use crate::wire::{GossipMessage, Message, MessageView};
use vstd::prelude::*;

verus! {

/// The seeds of a node that is given none.
pub open spec fn default_bootstrap() -> Seq<char> {
    "127.0.0.1:8444,127.0.0.1:8445"@
}

/// The pieces between the commas of `s`, from position `i` on.
pub open spec fn comma_pieces(s: Seq<char>, i: nat) -> Seq<Seq<char>>
    decreases s.len() + 1 - i,
{
    if i > s.len() {
        Seq::empty()
    } else {
        proof {
            text::lemma_find_from(s, ',', i as int);
        }
        let end = text::find_from(s, ',', i as int);
        seq![s.subrange(i as int, end)] + comma_pieces(s, (end + 1) as nat)
    }
}

pub open spec fn string_views(list: Seq<String>) -> Seq<Seq<char>> {
    list.map_values(|s: String| s@)
}

/// The seeds to resolve, out of the value of `BOOTSTRAP_NODES` if it is set.
pub fn bootstrap_entries(setting: Option<&str>) -> (r: Vec<String>)
    ensures
        string_views(r@) == comma_pieces(
            match setting {
                Some(s) => s@,
                None => default_bootstrap(),
            },
            0,
        ),
{
    let value = match setting {
        Some(s) => s,
        None => "127.0.0.1:8444,127.0.0.1:8445",
    };
    let chars = text::chars_of(value);
    let s = chars.as_slice();
    let n: usize = s.len();
    let mut out: Vec<String> = Vec::new();
    let mut i: usize = 0;
    assert(string_views(out@) + comma_pieces(s@, 0) =~= comma_pieces(s@, 0));
    loop
        invariant_except_break
            n == s@.len(),
            i <= n,
            string_views(out@) + comma_pieces(s@, i as nat) == comma_pieces(s@, 0),
        ensures
            string_views(out@) == comma_pieces(s@, 0),
        decreases n - i,
    {
        let end: usize = text::position_from(s, ',', i);
        let piece = text::string_of(vstd::slice::slice_subrange(s, i, end));
        let ghost before = out@;
        out.push(piece);
        proof {
            let rest = comma_pieces(s@, (end + 1) as nat);
            assert(string_views(out@) =~= string_views(before).push(piece@));
            assert(string_views(out@) + rest =~= string_views(before) + (seq![piece@] + rest));
        }
        if end == n {
            assert(comma_pieces(s@, (end + 1) as nat) =~= Seq::empty());
            assert(string_views(out@) =~= string_views(out@) + comma_pieces(s@, (end + 1) as nat));
            break;
        }
        i = end + 1;
    }
    out
}

/// The first address of each seed that has one.
pub open spec fn first_addresses(resolved: Seq<Seq<SocketAddr>>) -> Seq<SocketAddr>
    decreases resolved.len(),
{
    if resolved.len() == 0 {
        Seq::empty()
    } else {
        let before = first_addresses(resolved.drop_last());
        let last = resolved.last();
        if last.len() > 0 {
            before.push(last[0])
        } else {
            before
        }
    }
}

pub open spec fn addr_lists(list: Seq<Vec<SocketAddr>>) -> Seq<Seq<SocketAddr>> {
    list.map_values(|v: Vec<SocketAddr>| v@)
}

/// The seeds to dial, out of what each entry resolved to.
pub fn get_bootstrap_nodes(resolved: &[Vec<SocketAddr>]) -> (r: Vec<SocketAddr>)
    ensures
        r@ == first_addresses(addr_lists(resolved@)),
{
    let n: usize = resolved.len();
    let ghost lists = addr_lists(resolved@);
    let mut out: Vec<SocketAddr> = Vec::new();
    let mut i: usize = 0;
    while i < n
        invariant
            n == resolved@.len(),
            lists == addr_lists(resolved@),
            i <= n,
            out@ == first_addresses(lists.take(i as int)),
        decreases n - i,
    {
        let addrs = &resolved[i];
        assert(lists[i as int] == addrs@);
        if addrs.len() > 0 {
            out.push(addrs[0]);
        }
        i = i + 1;
        assert(lists.take(i as int).drop_last() =~= lists.take(i - 1));
        assert(lists.take(i as int).last() == addrs@);
    }
    assert(lists.take(n as int) =~= lists);
    out
}

/// The seeds other than this node itself.
pub open spec fn others(seeds: Seq<SocketAddr>, own: Option<SocketAddr>) -> Seq<SocketAddr> {
    match own {
        Some(a) => seeds.filter(|s: SocketAddr| s != a),
        None => seeds,
    }
}

/// Whom to gossip with in a round: the chosen peers, then every seed but this node itself.
pub fn round_targets(
    chosen: Vec<SocketAddr>,
    seeds: &[SocketAddr],
    own: Option<SocketAddr>,
) -> (r: Vec<SocketAddr>)
    ensures
        r@ == chosen@ + others(seeds@, own),
{
    let mut out = chosen;
    let n: usize = seeds.len();
    let mut i: usize = 0;
    proof {
        reveal(Seq::filter);
        assert(seeds@.take(0) =~= Seq::empty());
        assert(out@ =~= chosen@ + others(seeds@.take(0), own));
    }
    while i < n
        invariant
            n == seeds@.len(),
            i <= n,
            out@ == chosen@ + others(seeds@.take(i as int), own),
        decreases n - i,
    {
        let seed = seeds[i];
        let is_own = match own {
            Some(a) => a == seed,
            None => false,
        };
        if !is_own {
            out.push(seed);
        }
        i = i + 1;
        proof {
            reveal(Seq::filter);
            let t = seeds@.take(i as int);
            assert(t.drop_last() =~= seeds@.take(i - 1));
            assert(t.last() == seed);
            assert(out@ =~= chosen@ + others(t, own));
        }
    }
    assert(seeds@.take(n as int) =~= seeds@);
    out
}

/// How many peers a round gossips with, besides the seeds.
pub const GOSSIP_FANOUT: usize = 3;

/// Whether a list is a choice out of the known peers: each at most once, and as many as a round
/// gossips with, or all.
pub open spec fn is_peer_choice(
    chosen: Seq<SocketAddr>,
    peers: Map<SocketAddr, PeerView>,
) -> bool {
    &&& chosen.no_duplicates()
    &&& forall|i: int| 0 <= i < chosen.len() ==> peers.dom().contains(#[trigger] chosen[i])
    &&& chosen.len() == GOSSIP_FANOUT || (chosen.len() < GOSSIP_FANOUT && forall|a: SocketAddr|
        #[trigger] peers.dom().contains(a) ==> chosen.contains(a))
}

fn peer_addresses(peers: &PeerStore) -> (r: Vec<SocketAddr>)
    ensures
        r@.no_duplicates(),
        forall|a: SocketAddr| peers@.dom().contains(a) <==> r@.contains(a),
{
    let list = peers.get_all_peers();
    let ghost views = directory::peer_views(list@);
    let n: usize = list.len();
    let mut out: Vec<SocketAddr> = Vec::new();
    let mut i: usize = 0;
    while i < n
        invariant
            n == list@.len(),
            views == directory::peer_views(list@),
            i <= n,
            out@.len() == i,
            forall|j: int|
                0 <= j < i ==> #[trigger] out@[j] == views[j].descriptor.external_address,
        decreases n - i,
    {
        assert(views[i as int] == list@[i as int]@);
        out.push(list[i].descriptor.external_address);
        i = i + 1;
    }
    assert forall|a: SocketAddr| peers@.dom().contains(a) <==> out@.contains(a) by {
        if peers@.dom().contains(a) {
            let i = choose|i: int|
                0 <= i < views.len() && (#[trigger] views[i]).descriptor.external_address == a;
            assert(out@[i] == a);
        }
        if out@.contains(a) {
            let i = choose|i: int| 0 <= i < out@.len() && out@[i] == a;
            assert(views[i].descriptor.external_address == a);
        }
    }
    assert forall|i: int, j: int| 0 <= i < out@.len() && 0 <= j < out@.len() && i != j implies out@[i]
        != out@[j] by {
        assert(out@[i] == views[i].descriptor.external_address);
        assert(out@[j] == views[j].descriptor.external_address);
        if i < j {
            assert(views[i].descriptor.external_address != views[j].descriptor.external_address);
        } else {
            assert(views[j].descriptor.external_address != views[i].descriptor.external_address);
        }
    }
    out
}

/// Whom to gossip with in this round.
pub fn gossip_targets(
    peers: &PeerStore,
    seeds: &[SocketAddr],
    own: Option<SocketAddr>,
) -> (r: Vec<SocketAddr>)
    ensures
        exists|chosen: Seq<SocketAddr>| #[trigger]
            is_peer_choice(chosen, peers@) && r@ == chosen + others(seeds@, own),
{
    let known = peer_addresses(peers);
    let chosen = random::choose_multiple(known.as_slice(), GOSSIP_FANOUT);
    proof {
        random::lemma_chosen(known@, chosen@);
        if chosen@.len() < GOSSIP_FANOUT {
            lemma_all_chosen(known@, chosen@);
        }
        assert(is_peer_choice(chosen@, peers@));
    }
    round_targets(chosen, seeds, own)
}

/// A choice of all places of a list holds all of the list.
proof fn lemma_all_chosen(list: Seq<SocketAddr>, chosen: Seq<SocketAddr>)
    requires
        chosen.to_multiset().subset_of(list.to_multiset()),
        chosen.len() == list.len(),
    ensures
        forall|a: SocketAddr| list.contains(a) ==> chosen.contains(a),
{
    broadcast use vstd::seq_lib::group_to_multiset_ensures;
    broadcast use vstd::multiset::group_multiset_axioms;

    let a = list.to_multiset();
    let b = chosen.to_multiset();
    assert(a.sub(b).len() == 0);
    assert forall|x: SocketAddr| list.contains(x) implies chosen.contains(x) by {
        assert(a.count(x) > 0);
        if b.count(x) == 0 {
            assert(a.sub(b).count(x) > 0);
            assert(a.sub(b).insert(x).remove(x) =~= a.sub(b));
            assert(a.sub(b).remove(x).len() == a.sub(b).len() - 1);
        }
    }
}

/// What a node sends in a round and answers to a peer: every relay that it knows.
pub fn update_packet(directory: &Directory) -> (r: Vec<u8>)
    ensures
        exists|list: Seq<RelayView>| #[trigger]
            directory::lists_relays(list, directory@.relays) && r@ == wire::message_packet(
                MessageView::Gossip(list),
            ),
{
    let relays = directory.get_all_relays();
    let message = Message::Gossip(GossipMessage::Update(relays));
    message.packet()
}

/// The beginning of a round: the node puts its own descriptor into its directory, and the packet of
/// the round holds every relay that it then knows.
pub fn start_round(directory: &mut Directory, own: Option<&RelayDescriptor>) -> (r: Vec<u8>)
    ensures
        final(directory)@.relays == match own {
            Some(d) => directory::with_relay(old(directory)@.relays, d@),
            None => old(directory)@.relays,
        },
        final(directory)@.services == old(directory)@.services,
        exists|list: Seq<RelayView>| #[trigger]
            directory::lists_relays(list, final(directory)@.relays) && r@ == wire::message_packet(
                MessageView::Gossip(list),
            ),
{
    match own {
        Some(d) => {
            let _ = directory.add_relay(d.clone());
        },
        None => {},
    }
    update_packet(directory)
}

/// What a node knows: its directory's relays and its peers.
pub ghost struct Knowledge {
    pub relays: Map<Seq<u8>, RelayView>,
    pub peers: Map<SocketAddr, PeerView>,
}

/// What a node knows after one more descriptor of a reply: where the directory takes the
/// descriptor, the relay becomes a peer, if the time is known.
pub open spec fn learned_one(k: Knowledge, d: RelayView, now: Option<u64>) -> Knowledge {
    if directory::accepts_relay(k.relays, d) {
        Knowledge {
            relays: k.relays.insert(d.id, d),
            peers: match now {
                Some(t) => k.peers.insert(
                    d.external_address,
                    PeerView { descriptor: d, last_seen: t },
                ),
                None => k.peers,
            },
        }
    } else {
        k
    }
}

/// What a node knows after the descriptors of a reply.
pub open spec fn learned(k: Knowledge, list: Seq<RelayView>, now: Option<u64>) -> Knowledge
    decreases list.len(),
{
    if list.len() == 0 {
        k
    } else {
        learned_one(learned(k, list.drop_last(), now), list.last(), now)
    }
}

/// Takes the descriptors of a reply.
pub fn merge_reply(
    directory: &mut Directory,
    peers: &mut PeerStore,
    list: Vec<RelayDescriptor>,
    now: Option<u64>,
)
    ensures
        (Knowledge { relays: final(directory)@.relays, peers: final(peers)@ }) == learned(
            Knowledge { relays: old(directory)@.relays, peers: old(peers)@ },
            wire::relay_views(list@),
            now,
        ),
        final(directory)@.services == old(directory)@.services,
{
    let ghost k0 = Knowledge { relays: old(directory)@.relays, peers: old(peers)@ };
    let ghost views = wire::relay_views(list@);
    let n: usize = list.len();
    let mut i: usize = 0;
    assert(views.take(0) =~= Seq::empty());
    while i < n
        invariant
            n == list@.len(),
            i <= n,
            views == wire::relay_views(list@),
            (Knowledge { relays: directory@.relays, peers: peers@ }) == learned(
                k0,
                views.take(i as int),
                now,
            ),
            directory@.services == old(directory)@.services,
        decreases n - i,
    {
        let d = list[i].clone();
        let ghost v = d@;
        assert(v == views[i as int]);
        let taken = directory.add_relay(d.clone());
        if taken {
            match now {
                Some(t) => {
                    peers.add_peer(PeerInfo::new(d, t));
                },
                None => {},
            }
        }
        i = i + 1;
        assert(views.take(i as int).drop_last() =~= views.take(i - 1));
        assert(views.take(i as int).last() == v);
    }
    assert(views.take(n as int) =~= views);
}

/// Takes the payload of a reply: an update is merged, and anything else changes nothing.
pub fn handle_reply(
    directory: &mut Directory,
    peers: &mut PeerStore,
    payload: &[u8],
    now: Option<u64>,
)
    ensures
        (Knowledge { relays: final(directory)@.relays, peers: final(peers)@ }) == match wire::get_message(
            payload@,
        ) {
            Some(MessageView::Gossip(list)) => learned(
                Knowledge { relays: old(directory)@.relays, peers: old(peers)@ },
                list,
                now,
            ),
            _ => (Knowledge { relays: old(directory)@.relays, peers: old(peers)@ }),
        },
        final(directory)@.services == old(directory)@.services,
{
    match Message::decode(payload) {
        Some(Message::Gossip(GossipMessage::Update(list))) => {
            merge_reply(directory, peers, list, now);
        },
        _ => {},
    }
}

/// A reply changes the directory as offering its descriptors one by one does.
pub proof fn law_reply_is_offered(k: Knowledge, list: Seq<RelayView>, now: Option<u64>)
    ensures
        learned(k, list, now).relays == directory::with_relays(k.relays, list),
    decreases list.len(),
{
    if list.len() > 0 {
        law_reply_is_offered(k, list.drop_last(), now);
    }
}

/// A node never gossips with itself by its seeds.
pub proof fn law_own_seed_is_skipped(seeds: Seq<SocketAddr>, own: SocketAddr)
    ensures
        !others(seeds, Some(own)).contains(own),
        forall|a: SocketAddr| a != own && seeds.contains(a) ==> others(seeds, Some(own)).contains(a),
{
    let f = |s: SocketAddr| s != own;
    let rest = others(seeds, Some(own));
    broadcast use vstd::seq_lib::group_filter_ensures;

    if rest.contains(own) {
        let i = choose|i: int| 0 <= i < rest.len() && rest[i] == own;
        assert(f(rest[i]));
    }
    assert forall|a: SocketAddr| a != own && seeds.contains(a) implies rest.contains(a) by {
        let i = choose|i: int| 0 <= i < seeds.len() && seeds[i] == a;
        assert(f(seeds[i]));
    }
}

} // verus!
