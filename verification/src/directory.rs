//! The directory of signed descriptors that a node knows, and the peers it has gossiped with.

use crate::addr::SocketAddr;
use crate::bytes;
use crate::descriptor;
use crate::descriptor::{
    HiddenServiceDescriptor, PeerInfo, PeerView, RelayDescriptor, RelayView, ServiceView,
};
use crate::identity::VerifyingKey;
use crate::table::{Table, TableKey};
use vstd::prelude::*;

verus! {

impl TableKey for VerifyingKey {
    fn same(&self, other: &VerifyingKey) -> (r: bool) {
        VerifyingKey::same(self, other)
    }
}

impl View for SocketAddr {
    type V = SocketAddr;

    open spec fn view(&self) -> SocketAddr {
        *self
    }
}

impl TableKey for SocketAddr {
    fn same(&self, other: &SocketAddr) -> (r: bool) {
        *self == *other
    }
}

/// The relays and hidden services that a node knows. Every descriptor in it is signed by the key
/// under which it stands.
pub struct Directory {
    relays: Table<VerifyingKey, RelayDescriptor>,
    hidden_services: Table<VerifyingKey, HiddenServiceDescriptor>,
}

/// A `Directory` as a mathematical value.
pub ghost struct DirectoryView {
    pub relays: Map<Seq<u8>, RelayView>,
    pub services: Map<Seq<u8>, ServiceView>,
}

/// What every directory keeps to: a descriptor stands under its own key and is signed by it.
pub open spec fn sound(v: DirectoryView) -> bool {
    &&& forall|k: Seq<u8>| #[trigger]
        v.relays.dom().contains(k) ==> v.relays[k].id == k && descriptor::relay_verifies(
            v.relays[k],
        )
    &&& forall|k: Seq<u8>| #[trigger]
        v.services.dom().contains(k) ==> v.services[k].identity_key == k
            && descriptor::service_verifies(v.services[k])
}

impl View for Directory {
    type V = DirectoryView;

    closed spec fn view(&self) -> DirectoryView {
        DirectoryView {
            relays: self.relays@.map_values(|d: RelayDescriptor| d@),
            services: self.hidden_services@.map_values(|d: HiddenServiceDescriptor| d@),
        }
    }
}

/// Whether a directory takes a relay's descriptor: it is signed, and newer than the one that may be
/// there.
pub open spec fn accepts_relay(relays: Map<Seq<u8>, RelayView>, v: RelayView) -> bool {
    descriptor::relay_verifies(v) && (relays.dom().contains(v.id) ==> relays[v.id].last_updated
        < v.last_updated)
}

/// The relays after a descriptor was offered.
pub open spec fn with_relay(relays: Map<Seq<u8>, RelayView>, v: RelayView) -> Map<
    Seq<u8>,
    RelayView,
> {
    if accepts_relay(relays, v) {
        relays.insert(v.id, v)
    } else {
        relays
    }
}

/// The relays after a list of descriptors was offered, first one first.
pub open spec fn with_relays(relays: Map<Seq<u8>, RelayView>, list: Seq<RelayView>) -> Map<
    Seq<u8>,
    RelayView,
>
    decreases list.len(),
{
    if list.len() == 0 {
        relays
    } else {
        with_relay(with_relays(relays, list.drop_last()), list.last())
    }
}

/// Whether a list holds every relay once, in some order.
pub open spec fn lists_relays(list: Seq<RelayView>, relays: Map<Seq<u8>, RelayView>) -> bool {
    &&& forall|i: int|
        0 <= i < list.len() ==> relays.dom().contains((#[trigger] list[i]).id)
            && relays[list[i].id] == list[i]
    &&& forall|i: int, j: int|
        0 <= i < j < list.len() ==> (#[trigger] list[i]).id != (#[trigger] list[j]).id
    &&& forall|k: Seq<u8>| #[trigger]
        relays.dom().contains(k) ==> exists|i: int| 0 <= i < list.len() && (#[trigger] list[i]).id == k
}

pub open spec fn addresses(list: Seq<RelayView>) -> Seq<SocketAddr> {
    list.map_values(|v: RelayView| v.external_address)
}

/// Whether a list is the addresses of all relays, in some order.
pub open spec fn is_relay_order(relays: Map<Seq<u8>, RelayView>, order: Seq<SocketAddr>) -> bool {
    exists|list: Seq<RelayView>| #[trigger]
        lists_relays(list, relays) && order.to_multiset() == addresses(list).to_multiset()
}

/// Whether connections to `addr` can be pinned to this relay's certificate.
pub open spec fn pins(v: RelayView, addr: SocketAddr) -> bool {
    v.external_address == addr && v.tls_public_key.len() > 0
}

impl Directory {
    #[verifier::type_invariant]
    spec fn well_formed(self) -> bool {
        sound(self@)
    }

    pub fn new() -> (r: Directory)
        ensures
            r@.relays == Map::<Seq<u8>, RelayView>::empty(),
            r@.services == Map::<Seq<u8>, ServiceView>::empty(),
    {
        let relays: Table<VerifyingKey, RelayDescriptor> = Table::new();
        let hidden_services: Table<VerifyingKey, HiddenServiceDescriptor> = Table::new();
        let r = Directory { relays, hidden_services };
        assert(r@.relays =~= Map::empty());
        assert(r@.services =~= Map::empty());
        r
    }

    /// Offers a descriptor; the result says whether it was taken.
    pub fn add_relay(&mut self, descriptor: RelayDescriptor) -> (r: bool)
        ensures
            r == accepts_relay(old(self)@.relays, descriptor@),
            final(self)@.relays == with_relay(old(self)@.relays, descriptor@),
            final(self)@.services == old(self)@.services,
            sound(final(self)@),
    {
        proof {
            use_type_invariant(&*self);
        }
        if descriptor.verify().is_err() {
            return false;
        }
        let known = self.relays.get(&descriptor.id);
        match known {
            Some(existing) => {
                if descriptor.last_updated <= existing.last_updated {
                    return false;
                }
            },
            None => {},
        }
        let mut relays: Table<VerifyingKey, RelayDescriptor> = Table::new();
        let ghost before = self@;
        proof {
            use_type_invariant(&*self);
        }
        assert(before.relays == old(self)@.relays && before.services == old(self)@.services);
        std::mem::swap(&mut self.relays, &mut relays);
        let id = descriptor.id;
        relays.insert(id, descriptor);
        assert(relays@.map_values(|d: RelayDescriptor| d@) =~= before.relays.insert(
            descriptor@.id,
            descriptor@,
        ));
        self.relays = relays;
        true
    }

    /// Offers descriptors one after the other.
    pub fn add_relays(&mut self, list: Vec<RelayDescriptor>)
        ensures
            final(self)@.relays == with_relays(
                old(self)@.relays,
                crate::wire::relay_views(list@),
            ),
            final(self)@.services == old(self)@.services,
    {
        let ghost views = crate::wire::relay_views(list@);
        let n: usize = list.len();
        let mut i: usize = 0;
        assert(views.take(0) =~= Seq::empty());
        while i < n
            invariant
                n == list@.len(),
                i <= n,
                views == crate::wire::relay_views(list@),
                self@.relays == with_relays(old(self)@.relays, views.take(i as int)),
                self@.services == old(self)@.services,
            decreases n - i,
        {
            let d = list[i].clone();
            let _ = self.add_relay(d);
            i = i + 1;
            assert(views.take(i as int).drop_last() =~= views.take(i - 1));
        }
        assert(views.take(n as int) =~= views);
    }

    /// Every relay once, in some order.
    pub fn get_all_relays(&self) -> (r: Vec<RelayDescriptor>)
        ensures
            lists_relays(crate::wire::relay_views(r@), self@.relays),
    {
        proof {
            use_type_invariant(self);
        }
        let mut list: Vec<RelayDescriptor> = Vec::new();
        let n: usize = self.relays.len();
        let ghost order = self.relays.order();
        let mut i: usize = 0;
        while i < n
            invariant
                n == order.len(),
                order == self.relays.order(),
                sound(self@),
                i <= n,
                list@.len() == i,
                forall|j: int| #![trigger list@[j]]
                    0 <= j < i ==> list@[j]@.id == order[j] && self@.relays.dom().contains(order[j])
                        && self@.relays[order[j]] == list@[j]@,
            decreases n - i,
        {
            let d = self.relays.nth(i);
            assert(self@.relays.dom().contains(order[i as int]));
            list.push(d.clone());
            i = i + 1;
        }
        let ghost views = crate::wire::relay_views(list@);
        assert forall|k: Seq<u8>| #[trigger] self@.relays.dom().contains(k) implies exists|i: int|
            0 <= i < views.len() && (#[trigger] views[i]).id == k by {
            assert(self.relays@.dom().contains(k));
            assert(order.contains(k));
            let i = choose|i: int| 0 <= i < order.len() && order[i] == k;
            assert(views[i] == list@[i]@);
        }
        list
    }

    /// The address of every relay, in some order.
    pub fn relay_addresses(&self) -> (r: Vec<SocketAddr>)
        ensures
            is_relay_order(self@.relays, r@),
    {
        let list = self.get_all_relays();
        let ghost views = crate::wire::relay_views(list@);
        let n: usize = list.len();
        let mut out: Vec<SocketAddr> = Vec::new();
        let mut i: usize = 0;
        while i < n
            invariant
                n == list@.len(),
                views == crate::wire::relay_views(list@),
                i <= n,
                out@.len() == i,
                forall|j: int| 0 <= j < i ==> #[trigger] out@[j] == views[j].external_address,
            decreases n - i,
        {
            assert(views[i as int] == list@[i as int]@);
            out.push(list[i].external_address);
            i = i + 1;
        }
        assert(out@ =~= addresses(views));
        out
    }

    /// Takes a hidden service's descriptor if it is signed; the result says whether it was taken.
    pub fn publish_hidden_service(&mut self, descriptor: HiddenServiceDescriptor) -> (r: bool)
        ensures
            r == descriptor::service_verifies(descriptor@),
            final(self)@.relays == old(self)@.relays,
            final(self)@.services == if r {
                old(self)@.services.insert(descriptor@.identity_key, descriptor@)
            } else {
                old(self)@.services
            },
            sound(final(self)@),
    {
        proof {
            use_type_invariant(&*self);
        }
        if descriptor.verify().is_err() {
            return false;
        }
        let mut services: Table<VerifyingKey, HiddenServiceDescriptor> = Table::new();
        let ghost before = self@;
        std::mem::swap(&mut self.hidden_services, &mut services);
        let key = descriptor.identity_key;
        services.insert(key, descriptor);
        assert(services@.map_values(|d: HiddenServiceDescriptor| d@) =~= before.services.insert(
            descriptor@.identity_key,
            descriptor@,
        ));
        self.hidden_services = services;
        true
    }

    /// The descriptor of a hidden service, if it is known.
    pub fn get_hidden_service(&self, key: &VerifyingKey) -> (r: Option<HiddenServiceDescriptor>)
        ensures
            match r {
                Some(d) => self@.services.dom().contains(key@) && d@ == self@.services[key@]
                    && d@.identity_key == key@ && descriptor::service_verifies(d@),
                None => !self@.services.dom().contains(key@),
            },
    {
        proof {
            use_type_invariant(self);
        }
        match self.hidden_services.get(key) {
            Some(d) => {
                assert(self@.services.dom().contains(key@));
                Some(d.clone())
            },
            None => None,
        }
    }

    /// The certificate to which a connection to `addr` is pinned: that of a relay with this address,
    /// if one is known that has a certificate.
    pub fn pinned_certificate(&self, addr: SocketAddr) -> (r: Option<Vec<u8>>)
        ensures
            match r {
                Some(cert) => exists|k: Seq<u8>| #[trigger]
                    self@.relays.dom().contains(k) && pins(self@.relays[k], addr) && cert@
                        == self@.relays[k].tls_public_key && descriptor::relay_verifies(
                        self@.relays[k],
                    ),
                None => forall|k: Seq<u8>| #[trigger]
                    self@.relays.dom().contains(k) ==> !pins(self@.relays[k], addr),
            },
    {
        proof {
            use_type_invariant(self);
        }
        let n: usize = self.relays.len();
        let ghost order = self.relays.order();
        let mut i: usize = 0;
        while i < n
            invariant
                n == order.len(),
                order == self.relays.order(),
                sound(self@),
                i <= n,
                forall|j: int| #![trigger order[j]]
                    0 <= j < i ==> !pins(self@.relays[order[j]], addr),
            decreases n - i,
        {
            let d = self.relays.nth(i);
            assert(self@.relays.dom().contains(order[i as int]));
            assert(self@.relays[order[i as int]] == d@);
            if d.external_address == addr && d.tls_public_key.len() > 0 {
                let cert = d.tls_public_key.clone();
                assert(cert@ =~= d.tls_public_key@);
                return Some(cert);
            }
            i = i + 1;
        }
        assert forall|k: Seq<u8>| #[trigger] self@.relays.dom().contains(k) implies !pins(
            self@.relays[k],
            addr,
        ) by {
            assert(self.relays@.dom().contains(k));
            assert(order.contains(k));
            let i = choose|i: int| 0 <= i < order.len() && order[i] == k;
            assert(order[i] == k);
        }
        None
    }
}

/// Whether a presented certificate is the pinned one: byte for byte the same.
pub fn certificate_matches(expected: &[u8], presented: &[u8]) -> (r: bool)
    ensures
        r == (expected@ == presented@),
{
    bytes::bytes_equal(expected, presented)
}

/// The relays that this node has gossiped with, by their address.
pub struct PeerStore {
    peers: Table<SocketAddr, PeerInfo>,
}

impl View for PeerStore {
    type V = Map<SocketAddr, PeerView>;

    closed spec fn view(&self) -> Map<SocketAddr, PeerView> {
        self.peers@.map_values(|p: PeerInfo| p@)
    }
}

pub open spec fn peer_views(list: Seq<PeerInfo>) -> Seq<PeerView> {
    list.map_values(|p: PeerInfo| p@)
}

/// Whether a list holds every peer once, in some order.
pub open spec fn lists_peers(list: Seq<PeerView>, peers: Map<SocketAddr, PeerView>) -> bool {
    &&& forall|i: int|
        0 <= i < list.len() ==> peers.dom().contains(
            (#[trigger] list[i]).descriptor.external_address,
        ) && peers[list[i].descriptor.external_address] == list[i]
    &&& forall|i: int, j: int|
        0 <= i < j < list.len() ==> (#[trigger] list[i]).descriptor.external_address != (
        #[trigger] list[j]).descriptor.external_address
    &&& forall|a: SocketAddr| #[trigger]
        peers.dom().contains(a) ==> exists|i: int|
            0 <= i < list.len() && (#[trigger] list[i]).descriptor.external_address == a
}

impl PeerStore {
    #[verifier::type_invariant]
    spec fn well_formed(self) -> bool {
        forall|a: SocketAddr| #[trigger]
            self@.dom().contains(a) ==> self@[a].descriptor.external_address == a
    }

    pub fn new() -> (r: PeerStore)
        ensures
            r@ == Map::<SocketAddr, PeerView>::empty(),
    {
        let peers: Table<SocketAddr, PeerInfo> = Table::new();
        let r = PeerStore { peers };
        assert(r@ =~= Map::empty());
        r
    }

    /// Puts a peer under its address, in place of the one that may be there.
    pub fn add_peer(&mut self, peer_info: PeerInfo)
        ensures
            final(self)@ == old(self)@.insert(
                peer_info@.descriptor.external_address,
                peer_info@,
            ),
    {
        proof {
            use_type_invariant(&*self);
        }
        let mut peers: Table<SocketAddr, PeerInfo> = Table::new();
        let ghost before = self@;
        std::mem::swap(&mut self.peers, &mut peers);
        let addr = peer_info.descriptor.external_address;
        peers.insert(addr, peer_info);
        assert(peers@.map_values(|p: PeerInfo| p@) =~= before.insert(
            peer_info@.descriptor.external_address,
            peer_info@,
        ));
        self.peers = peers;
    }

    /// Every peer once, in some order.
    pub fn get_all_peers(&self) -> (r: Vec<PeerInfo>)
        ensures
            lists_peers(peer_views(r@), self@),
    {
        proof {
            use_type_invariant(self);
        }
        let mut list: Vec<PeerInfo> = Vec::new();
        let n: usize = self.peers.len();
        let ghost order = self.peers.order();
        let mut i: usize = 0;
        while i < n
            invariant
                n == order.len(),
                order == self.peers.order(),
                forall|a: SocketAddr| #[trigger]
                    self@.dom().contains(a) ==> self@[a].descriptor.external_address == a,
                i <= n,
                list@.len() == i,
                forall|j: int| #![trigger list@[j]]
                    0 <= j < i ==> list@[j]@.descriptor.external_address == order[j]
                        && self@.dom().contains(order[j]) && self@[order[j]] == list@[j]@,
            decreases n - i,
        {
            let p = self.peers.nth(i);
            assert(self@.dom().contains(order[i as int]));
            list.push(p.clone());
            i = i + 1;
        }
        let ghost views = peer_views(list@);
        assert forall|a: SocketAddr| #[trigger] self@.dom().contains(a) implies exists|i: int|
            0 <= i < views.len() && (#[trigger] views[i]).descriptor.external_address == a by {
            assert(self.peers@.dom().contains(a));
            assert(order.contains(a));
            let i = choose|i: int| 0 <= i < order.len() && order[i] == a;
            assert(views[i] == list@[i]@);
        }
        list
    }
}

/// Offering a descriptor keeps a directory sound, whatever the descriptor holds.
pub proof fn law_only_signed_relays(v: DirectoryView, d: RelayView)
    requires
        sound(v),
    ensures
        sound(DirectoryView { relays: with_relay(v.relays, d), ..v }),
{
}

/// A descriptor that was taken is not taken again.
pub proof fn law_duplicates_are_refused(relays: Map<Seq<u8>, RelayView>, d: RelayView)
    ensures
        !accepts_relay(with_relay(relays, d), d),
{
}

/// No relay is forgotten, and no entry is replaced by an older one.
pub proof fn law_entries_never_age(relays: Map<Seq<u8>, RelayView>, d: RelayView, k: Seq<u8>)
    requires
        relays.dom().contains(k),
        forall|x: Seq<u8>| #[trigger] relays.dom().contains(x) ==> relays[x].id == x,
    ensures
        with_relay(relays, d).dom().contains(k),
        with_relay(relays, d)[k].last_updated >= relays[k].last_updated,
        with_relay(relays, d)[k] != relays[k] ==> with_relay(relays, d)[k].last_updated
            > relays[k].last_updated,
{
}

/// In which order two descriptors arrive does not matter, unless they name the same relay at the
/// same time.
pub proof fn law_arrival_order_is_irrelevant(
    relays: Map<Seq<u8>, RelayView>,
    a: RelayView,
    b: RelayView,
)
    requires
        a.id != b.id || a.last_updated != b.last_updated,
    ensures
        with_relay(with_relay(relays, a), b) == with_relay(with_relay(relays, b), a),
{
    assert(with_relay(with_relay(relays, a), b) =~= with_relay(with_relay(relays, b), a));
}

/// What becomes of the entries of a directory, and of those of a list that is offered to it.
proof fn lemma_with_relays(relays: Map<Seq<u8>, RelayView>, list: Seq<RelayView>)
    requires
        forall|i: int| 0 <= i < list.len() ==> descriptor::relay_verifies(#[trigger] list[i]),
        forall|k: Seq<u8>| #[trigger] relays.dom().contains(k) ==> relays[k].id == k,
    ensures
        forall|k: Seq<u8>| #[trigger]
            relays.dom().contains(k) ==> with_relays(relays, list).dom().contains(k)
                && with_relays(relays, list)[k].last_updated >= relays[k].last_updated,
        forall|i: int|
            0 <= i < list.len() ==> with_relays(relays, list).dom().contains(
                (#[trigger] list[i]).id,
            ) && with_relays(relays, list)[list[i].id].last_updated >= list[i].last_updated,
        forall|k: Seq<u8>| #[trigger]
            with_relays(relays, list).dom().contains(k) ==> with_relays(relays, list)[k].id == k && ((
            relays.dom().contains(k) && with_relays(relays, list)[k] == relays[k]) || exists|i: int|
                0 <= i < list.len() && #[trigger] list[i] == with_relays(relays, list)[k]),
    decreases list.len(),
{
    if list.len() > 0 {
        let head = list.drop_last();
        let d = list.last();
        assert forall|i: int| 0 <= i < head.len() implies descriptor::relay_verifies(
            #[trigger] head[i],
        ) by {
            assert(head[i] == list[i]);
        }
        lemma_with_relays(relays, head);
        let mid = with_relays(relays, head);
        let end = with_relays(relays, list);
        assert(end == with_relay(mid, d));
        assert forall|i: int| 0 <= i < list.len() implies end.dom().contains(
            (#[trigger] list[i]).id,
        ) && end[list[i].id].last_updated >= list[i].last_updated by {
            if i < head.len() {
                assert(head[i] == list[i]);
            }
        }
        assert forall|k: Seq<u8>| #[trigger] end.dom().contains(k) implies end[k].id == k && ((
        relays.dom().contains(k) && end[k] == relays[k]) || exists|i: int|
            0 <= i < list.len() && #[trigger] list[i] == end[k]) by {
            if accepts_relay(mid, d) && k == d.id {
                assert(list[list.len() - 1] == end[k]);
            } else {
                assert(mid.dom().contains(k) && end[k] == mid[k]);
                if !(relays.dom().contains(k) && end[k] == relays[k]) {
                    let i = choose|i: int| 0 <= i < head.len() && #[trigger] head[i] == mid[k];
                    assert(list[i] == end[k]);
                }
            }
        }
    }
}

/// Offering a directory what it already holds changes nothing.
pub proof fn law_own_entries_change_nothing(relays: Map<Seq<u8>, RelayView>, list: Seq<RelayView>)
    requires
        forall|i: int|
            0 <= i < list.len() ==> relays.dom().contains((#[trigger] list[i]).id)
                && relays[list[i].id] == list[i],
    ensures
        with_relays(relays, list) == relays,
    decreases list.len(),
{
    if list.len() > 0 {
        let head = list.drop_last();
        assert forall|i: int| 0 <= i < head.len() implies relays.dom().contains(
            (#[trigger] head[i]).id,
        ) && relays[head[i].id] == head[i] by {
            assert(head[i] == list[i]);
        }
        law_own_entries_change_nothing(relays, head);
        let d = list[list.len() - 1];
        assert(relays[d.id] == d);
    }
}

/// One exchange of gossip brings two nodes to the same view: the second takes what the first sends,
/// the first takes what the second answers, and then both know the same relays, each at the same
/// time.
pub proof fn law_exchange_converges(
    a: Map<Seq<u8>, RelayView>,
    b: Map<Seq<u8>, RelayView>,
    sent: Seq<RelayView>,
    answer: Seq<RelayView>,
)
    requires
        sound(DirectoryView { relays: a, services: Map::empty() }),
        sound(DirectoryView { relays: b, services: Map::empty() }),
        lists_relays(sent, a),
        lists_relays(answer, with_relays(b, sent)),
    ensures
        with_relays(a, answer).dom() == with_relays(b, sent).dom(),
        forall|k: Seq<u8>| #[trigger]
            with_relays(b, sent).dom().contains(k) ==> with_relays(a, answer)[k].last_updated
                == with_relays(b, sent)[k].last_updated,
{
    assert forall|i: int| 0 <= i < sent.len() implies descriptor::relay_verifies(
        #[trigger] sent[i],
    ) by {
        assert(a.dom().contains(sent[i].id));
    }
    lemma_with_relays(b, sent);
    let b1 = with_relays(b, sent);
    assert forall|i: int| 0 <= i < answer.len() implies descriptor::relay_verifies(
        #[trigger] answer[i],
    ) by {
        let k = answer[i].id;
        assert(b1.dom().contains(k));
        if !(b.dom().contains(k) && b1[k] == b[k]) {
            let j = choose|j: int| 0 <= j < sent.len() && #[trigger] sent[j] == b1[k];
            assert(descriptor::relay_verifies(sent[j]));
        }
    }
    lemma_with_relays(a, answer);
    let a1 = with_relays(a, answer);
    assert forall|k: Seq<u8>| #[trigger] a1.dom().contains(k) implies b1.dom().contains(k)
        && a1[k].last_updated <= b1[k].last_updated by {
        if a.dom().contains(k) && a1[k] == a[k] {
            let i = choose|i: int| 0 <= i < sent.len() && (#[trigger] sent[i]).id == k;
            assert(sent[i].id == k);
        } else {
            let i = choose|i: int| 0 <= i < answer.len() && #[trigger] answer[i] == a1[k];
            assert(b1.dom().contains(answer[i].id));
        }
    }
    assert forall|k: Seq<u8>| #[trigger] b1.dom().contains(k) implies a1.dom().contains(k)
        && a1[k].last_updated >= b1[k].last_updated by {
        let i = choose|i: int| 0 <= i < answer.len() && (#[trigger] answer[i]).id == k;
        assert(answer[i].id == k);
    }
    assert(a1.dom() =~= b1.dom());
}

/// After one exchange of gossip two nodes hold the same descriptors, unless they began with two
/// descriptors of one relay for the same time.
pub proof fn law_exchange_makes_equal(
    a: Map<Seq<u8>, RelayView>,
    b: Map<Seq<u8>, RelayView>,
    sent: Seq<RelayView>,
    answer: Seq<RelayView>,
)
    requires
        sound(DirectoryView { relays: a, services: Map::empty() }),
        sound(DirectoryView { relays: b, services: Map::empty() }),
        lists_relays(sent, a),
        lists_relays(answer, with_relays(b, sent)),
        forall|k: Seq<u8>|
            #![trigger a.dom().contains(k)]
            #![trigger b.dom().contains(k)]
            a.dom().contains(k) && b.dom().contains(k) && a[k].last_updated == b[k].last_updated
                ==> a[k] == b[k],
    ensures
        with_relays(a, answer) == with_relays(b, sent),
{
    law_exchange_converges(a, b, sent, answer);
    let a1 = with_relays(a, answer);
    let b1 = with_relays(b, sent);
    assert forall|i: int| 0 <= i < sent.len() implies descriptor::relay_verifies(
        #[trigger] sent[i],
    ) by {
        assert(a.dom().contains(sent[i].id));
    }
    lemma_with_relays(b, sent);
    assert forall|i: int| 0 <= i < answer.len() implies descriptor::relay_verifies(
        #[trigger] answer[i],
    ) by {
        let k = answer[i].id;
        assert(b1.dom().contains(k));
        if !(b.dom().contains(k) && b1[k] == b[k]) {
            let j = choose|j: int| 0 <= j < sent.len() && #[trigger] sent[j] == b1[k];
            assert(descriptor::relay_verifies(sent[j]));
        }
    }
    lemma_with_relays(a, answer);
    assert forall|k: Seq<u8>| #[trigger] b1.dom().contains(k) implies a1[k] == b1[k] by {
        assert(a1.dom().contains(k));
        if a.dom().contains(k) && a1[k] == a[k] {
            if !(b.dom().contains(k) && b1[k] == b[k]) {
                let j = choose|j: int| 0 <= j < sent.len() && #[trigger] sent[j] == b1[k];
                assert(a.dom().contains(sent[j].id) && a[sent[j].id] == sent[j]);
            }
        } else {
            let i = choose|i: int| 0 <= i < answer.len() && #[trigger] answer[i] == a1[k];
            assert(b1.dom().contains(answer[i].id) && b1[answer[i].id] == answer[i]);
        }
    }
    assert(a1 =~= b1);
}

/// Two lists of the same relays are equally long.
proof fn lemma_lists_are_equally_long(
    a: Seq<RelayView>,
    b: Seq<RelayView>,
    relays: Map<Seq<u8>, RelayView>,
)
    requires
        lists_relays(a, relays),
        lists_relays(b, relays),
    ensures
        a.len() == b.len(),
{
    let x = a.map_values(|v: RelayView| v.id);
    let y = b.map_values(|v: RelayView| v.id);
    assert forall|i: int, j: int| 0 <= i < x.len() && 0 <= j < x.len() && i != j implies x[i]
        != x[j] by {
        if i < j {
            assert(a[i].id != a[j].id);
        } else {
            assert(a[j].id != a[i].id);
        }
    }
    assert forall|i: int, j: int| 0 <= i < y.len() && 0 <= j < y.len() && i != j implies y[i]
        != y[j] by {
        if i < j {
            assert(b[i].id != b[j].id);
        } else {
            assert(b[j].id != b[i].id);
        }
    }
    assert forall|k: Seq<u8>| x.to_set().contains(k) == y.to_set().contains(k) by {
        if x.contains(k) {
            let i = choose|i: int| 0 <= i < x.len() && x[i] == k;
            assert(relays.dom().contains(a[i].id));
            let j = choose|j: int| 0 <= j < b.len() && (#[trigger] b[j]).id == k;
            assert(y[j] == k);
        }
        if y.contains(k) {
            let j = choose|j: int| 0 <= j < y.len() && y[j] == k;
            assert(relays.dom().contains(b[j].id));
            let i = choose|i: int| 0 <= i < a.len() && (#[trigger] a[i]).id == k;
            assert(x[i] == k);
        }
    }
    assert(x.to_set() =~= y.to_set());
    x.unique_seq_to_set();
    y.unique_seq_to_set();
}

/// An order of the addresses of all relays holds as many addresses as there are relays, and none but
/// theirs.
pub proof fn lemma_relay_order(
    relays: Map<Seq<u8>, RelayView>,
    order: Seq<SocketAddr>,
    list: Seq<RelayView>,
)
    requires
        is_relay_order(relays, order),
        lists_relays(list, relays),
    ensures
        order.len() == list.len(),
        forall|a: SocketAddr| #[trigger]
            order.contains(a) ==> exists|k: Seq<u8>|
                relays.dom().contains(k) && (#[trigger] relays[k]).external_address == a,
        forall|k: Seq<u8>| #[trigger]
            relays.dom().contains(k) ==> order.contains(relays[k].external_address),
{
    broadcast use vstd::seq_lib::group_to_multiset_ensures;

    let own = choose|own: Seq<RelayView>| #[trigger]
        lists_relays(own, relays) && order.to_multiset() == addresses(own).to_multiset();
    lemma_lists_are_equally_long(own, list, relays);
    let addrs = addresses(own);
    assert(order.len() == order.to_multiset().len());
    assert(addrs.len() == addrs.to_multiset().len());
    assert forall|a: SocketAddr| #[trigger] order.contains(a) implies exists|k: Seq<u8>|
        relays.dom().contains(k) && (#[trigger] relays[k]).external_address == a by {
        assert(order.to_multiset().count(a) > 0);
        assert(addrs.to_multiset().count(a) > 0);
        assert(addrs.contains(a));
        let i = choose|i: int| 0 <= i < addrs.len() && addrs[i] == a;
        assert(relays.dom().contains(own[i].id) && relays[own[i].id] == own[i]);
    }
    assert forall|k: Seq<u8>| #[trigger] relays.dom().contains(k) implies order.contains(
        relays[k].external_address,
    ) by {
        let i = choose|i: int| 0 <= i < own.len() && (#[trigger] own[i]).id == k;
        let a = relays[k].external_address;
        assert(addrs[i] == a);
        assert(addrs.contains(a));
        assert(addrs.to_multiset().count(a) > 0);
        assert(order.to_multiset().count(a) > 0);
    }
}

} // verus!
