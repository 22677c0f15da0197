//! What identities and hidden services come to, call by call.

use crate::addr;
use crate::addr::{Ipv4Addr, SocketAddr};
use crate::client;
use crate::crypto;
use crate::descriptor;
use crate::descriptor::HiddenServiceDescriptor;
use crate::directory;
use crate::directory::Directory;
use crate::encoding;
use crate::hidden_service;
use crate::hidden_service::{HiddenService, Introduction};
use crate::identity;
use crate::identity::{CorruptKeyFile, DomainError, SigningKey, VerifyingKey};
use crate::link;
use crate::link::{Link, ReceiveError};
use crate::metrics::{BandwidthManager, Metrics};
use crate::socks;
use crate::text;
use crate::wire::{RelayCellView, RelayCommand};
use vstd::prelude::*;

verus! {

/// Of an order of relays the first three are asked to introduce the service, or all where there are
/// fewer.
pub proof fn law_three_points_are_asked(order: Vec<SocketAddr>, r: Vec<SocketAddr>)
    requires
        call_ensures(hidden_service::take_points, (order,), r),
    ensures
        r@.len() == if order@.len() < 3 {
            order@.len()
        } else {
            3
        },
        forall|i: int| 0 <= i < r@.len() ==> #[trigger] r@[i] == order@[i],
{
}

/// A service that has no introduction point asks relays that its directory knows: three of them, or
/// all where fewer are known. One that has any asks none.
pub proof fn law_services_ask_while_they_have_no_point(
    service: &HiddenService,
    d: &Directory,
    r: Vec<SocketAddr>,
    list: Seq<crate::descriptor::RelayView>,
)
    requires
        call_ensures(HiddenService::points_to_ask, (service, d), r),
        directory::lists_relays(list, d@.relays),
    ensures
        service.introduction_points@.len() > 0 ==> r@.len() == 0,
        service.introduction_points@.len() == 0 ==> r@.len() == if list.len() < 3 {
            list.len()
        } else {
            3
        },
        forall|i: int|
            0 <= i < r@.len() ==> exists|k: Seq<u8>|
                d@.relays.dom().contains(k) && (#[trigger] d@.relays[k]).external_address
                    == #[trigger] r@[i],
{
    if service.introduction_points@.len() == 0 {
        let order = choose|order: Seq<SocketAddr>| #[trigger]
            directory::is_relay_order(d@.relays, order) && r@ == hidden_service::first_points(order);
        directory::lemma_relay_order(d@.relays, order, list);
        assert forall|i: int| 0 <= i < r@.len() implies exists|k: Seq<u8>|
            d@.relays.dom().contains(k) && (#[trigger] d@.relays[k]).external_address
                == #[trigger] r@[i] by {
            assert(r@[i] == order[i]);
            assert(order.contains(order[i]));
        }
    }
}

/// What a service sends to a relay that it asks is its own public key, in an `EstablishIntro` cell to
/// the last hop.
pub proof fn law_services_ask_with_their_key(
    service: &HiddenService,
    l: &mut Link,
    r: Option<Vec<u8>>,
    cell: RelayCellView,
)
    requires
        call_ensures(HiddenService::establish_intro, (service, l), r),
        cell.stream_id == 0,
        cell.recognized == 0,
        cell.digest == 0,
        cell.command == RelayCommand::EstablishIntro,
        cell.data == crypto::ed25519_public(service.signing_key@),
        old(l)@.can_send(cell),
    ensures
        r matches Some(sent) && sent@ == link::onion_packet(old(l)@.circ_id, old(l)@.forward, cell),
        final(l)@.backward == old(l)@.backward,
{
    assert(cell == crate::circuit::plain_relay_cell(0, RelayCommand::EstablishIntro, cell.data));
}

/// A relay becomes an introduction point where it answers `IntroEstablished`, and on nothing else. The
/// points before it stay.
pub proof fn law_points_have_confirmed(
    service: &mut HiddenService,
    addr: SocketAddr,
    l: &mut Link,
    payload: &[u8],
    r: bool,
)
    requires
        call_ensures(HiddenService::intro_answered, (service, addr, l, payload), r),
    ensures
        r ==> (link::received(old(l)@.backward, payload@) matches Ok(rc) && rc.command
            == RelayCommand::IntroEstablished),
        !r ==> (link::received(old(l)@.backward, payload@) matches Ok(rc) ==> rc.command
            != RelayCommand::IntroEstablished),
        final(service).introduction_points@ == old(service).introduction_points@ + if r {
            seq![addr]
        } else {
            Seq::empty()
        },
        final(service).signing_key@ == old(service).signing_key@,
{
    assert(r ==> old(service).introduction_points@ + seq![addr] =~= old(service).introduction_points@.push(addr));
    assert(old(service).introduction_points@ + Seq::<SocketAddr>::empty() =~= old(service).introduction_points@);
}

/// What a service publishes names its own key and its introduction points, all of them in order, and
/// is signed by that key.
pub proof fn law_services_publish_their_points(service: &HiddenService, r: HiddenServiceDescriptor)
    requires
        call_ensures(HiddenService::descriptor, (service,), r),
    ensures
        r@.identity_key == crypto::ed25519_public(service.signing_key@),
        r@.introduction_points == service.introduction_points@,
        crypto::ed25519_verifies(r@.identity_key, descriptor::service_message(r@), r@.signature),
{
}

/// A service goes to a rendezvous where an `Introduce2` cell asks it to, and on nothing else: to the
/// address in bytes 32 to 37 of the data, with the cookie in bytes 38 to 57, whatever follows.
pub proof fn law_services_go_where_they_are_asked(
    l: &mut Link,
    payload: &[u8],
    r: Introduction,
    rc: RelayCellView,
)
    requires
        call_ensures(hidden_service::handle_introduce2, (l, payload), r),
        link::received(old(l)@.backward, payload@) == Ok::<_, ReceiveError>(rc),
    ensures
        rc.command == RelayCommand::Introduce2 && rc.data.len() >= 58 ==> match r {
            Introduction::Rendezvous { addr, cookie } => {
                &&& addr matches SocketAddr::V4 { ip, port } && ip.a == rc.data[32] && ip.b
                    == rc.data[33] && ip.c == rc.data[34] && ip.d == rc.data[35] && port
                    == 256 * rc.data[36] + rc.data[37]
                &&& cookie@ == rc.data.subrange(38, 58)
            },
            _ => false,
        },
        rc.command != RelayCommand::Introduce2 || rc.data.len() < 58 ==> r is Skip,
{
}

/// A service comes to a rendezvous with the cookie, and 32 zero bytes, in a `Rendezvous1` cell to the
/// last hop.
pub proof fn law_services_come_with_the_cookie(
    l: &mut Link,
    cookie: &[u8; 20],
    r: Option<Vec<u8>>,
    cell: RelayCellView,
)
    requires
        call_ensures(hidden_service::rendezvous_packet, (l, cookie), r),
        cell.stream_id == 0,
        cell.recognized == 0,
        cell.digest == 0,
        cell.command == RelayCommand::Rendezvous1,
        cell.data.len() == 52,
        cell.data.take(20) == cookie@,
        forall|i: int| 20 <= i < 52 ==> #[trigger] cell.data[i] == 0,
        old(l)@.can_send(cell),
    ensures
        r matches Some(sent) && sent@ == link::onion_packet(old(l)@.circ_id, old(l)@.forward, cell),
        final(l)@.backward == old(l)@.backward,
{
    assert(cell.data =~= cookie@ + cell.data.skip(20));
    assert(cell.data =~= hidden_service::rendezvous_data(cookie@));
    assert(cell == crate::circuit::plain_relay_cell(
        0,
        RelayCommand::Rendezvous1,
        hidden_service::rendezvous_data(cookie@),
    ));
}

/// What a client writes into an introduction stands where a service reads it: the key in the first 32
/// bytes, then the four octets, the port with its high byte first, and the cookie.
pub proof fn law_introductions_are_laid_out(
    key: &VerifyingKey,
    ip: Ipv4Addr,
    port: u16,
    cookie: &[u8; 20],
    r: Vec<u8>,
)
    requires
        key@.len() == 32,
        call_ensures(socks::make_introduce_data, (key, ip, port, cookie), r),
    ensures
        r@.len() == 58,
        r@.take(32) == key@,
        r@[32] == ip.a,
        r@[33] == ip.b,
        r@[34] == ip.c,
        r@[35] == ip.d,
        256 * r@[36] + r@[37] == port,
        r@.skip(38) == cookie@,
{
    let s = r@;
    assert(s.take(32) =~= key@);
    assert(s[36] == (port / 256) as u8);
    assert(s[37] == (port % 256) as u8);
    assert(port as int == (port as int / 256) * 256 + port as int % 256);
    assert(s.skip(38) =~= cookie@);
}

/// A name is resolved to a key only where it ends in `.root`, and the address of a key is resolved to
/// that key.
pub proof fn law_names_are_resolved(
    domain: &str,
    r: Result<VerifyingKey, DomainError>,
    key: &VerifyingKey,
)
    requires
        identity::valid_key(key@),
        call_ensures(identity::resolve_root_domain, (domain,), r),
    ensures
        r == Err::<VerifyingKey, _>(DomainError::NotRoot) <==> !text::ends_with(domain@, ".root"@),
        r matches Ok(k) ==> k@.len() == 32,
        domain@ == identity::root_address(key@) ==> (r matches Ok(k) && k@ == key@),
{
    if domain@ == identity::root_address(key@) {
        identity::law_address_round_trip(key@);
    }
}

/// Of several `.root` at the end of a name all are taken off: one more changes nothing.
pub proof fn law_repeated_endings_are_one(s: Seq<char>)
    requires
        text::ends_with(s, ".root"@),
    ensures
        identity::resolved(s + ".root"@) == identity::resolved(s),
{
    reveal_strlit(".root");
    let t = s + ".root"@;
    assert(t.skip(t.len() - 5) =~= ".root"@);
    assert(t.take(t.len() - 5) =~= s);
    assert(identity::without_root(t) == identity::without_root(s));
}

/// In front of a single `.root` a name is the base32 text of its key: whatever bytes it decodes to are
/// the key, if they are one, and otherwise the reason why there is none.
pub proof fn law_names_are_base32_of_the_key(name: Seq<char>, data: Seq<u8>)
    requires
        !text::ends_with(name, ".root"@),
        encoding::base32_decoded(name) == Some(data),
    ensures
        identity::valid_key(data) ==> identity::resolved(name + ".root"@) == Ok::<_, DomainError>(
            data,
        ),
        data.len() != 32 ==> identity::resolved(name + ".root"@) == Err::<Seq<u8>, _>(
            DomainError::InvalidKey(identity::KeyError::Length),
        ),
        data.len() == 32 && !identity::valid_key(data) ==> identity::resolved(name + ".root"@)
            == Err::<Seq<u8>, _>(DomainError::InvalidKey(identity::KeyError::Point)),
{
    reveal_strlit(".root");
    let t = name + ".root"@;
    assert(t.skip(t.len() - 5) =~= ".root"@);
    assert(t.take(t.len() - 5) =~= name);
    assert(identity::without_root(t) == identity::without_root(name));
    assert(identity::without_root(name) == name);
}

/// The identity of a node is the 32 bytes of its key file, as they are; a file of any other length is
/// an error that names the length, and no new key takes its place. Without a file there is a new key.
pub proof fn law_identities_come_from_their_file(
    contents: Option<&[u8]>,
    r: Result<(SigningKey, bool), CorruptKeyFile>,
)
    requires
        call_ensures(identity::load_or_create_signing_key, (contents,), r),
    ensures
        match (contents, r) {
            (Some(data), Ok((key, new))) => data@.len() == 32 && key@ == data@ && !new,
            (Some(data), Err(e)) => data@.len() != 32 && e.length == data@.len(),
            (None, Ok((key, new))) => new && key@.len() == 32,
            (None, Err(_)) => false,
        },
{
}

/// A wanted beginning of an address is taken in small letters if every one of its characters can stand
/// in an address; otherwise the first that cannot is reported as it was written.
pub proof fn law_wanted_beginnings_are_checked(prefix: &str, r: Result<Vec<char>, char>)
    requires
        call_ensures(identity::vanity_prefix, (prefix,), r),
    ensures
        match r {
            Ok(p) => {
                &&& p@.len() == prefix@.len()
                &&& forall|i: int|
                    0 <= i < p@.len() ==> (#[trigger] p@[i]) == text::lower_char(prefix@[i]) && ((
                    'a' <= p@[i] && p@[i] <= 'z') || ('2' <= p@[i] && p@[i] <= '7'))
            },
            Err(c) => exists|i: int|
                {
                    &&& 0 <= i < prefix@.len()
                    &&& #[trigger] prefix@[i] == c
                    &&& !in_an_address(text::lower_char(c))
                    &&& forall|j: int|
                        0 <= j < i ==> in_an_address(text::lower_char(#[trigger] prefix@[j]))
                },
        },
{
    lemma_bad_char(prefix@, 0);
    match r {
        Ok(p) => {
            assert forall|i: int| 0 <= i < p@.len() implies (#[trigger] p@[i]) == text::lower_char(
                prefix@[i],
            ) && (('a' <= p@[i] && p@[i] <= 'z') || ('2' <= p@[i] && p@[i] <= '7')) by {
                assert(identity::is_address_char(text::lower_char(prefix@[i])));
            }
        },
        Err(c) => {
            let i = identity::bad_address_char(prefix@, 0);
            assert(prefix@[i] == c);
        },
    }
}

proof fn lemma_bad_char(s: Seq<char>, i: int)
    requires
        0 <= i <= s.len(),
    ensures
        i <= identity::bad_address_char(s, i) <= s.len(),
        identity::bad_address_char(s, i) < s.len() ==> !identity::is_address_char(
            text::lower_char(s[identity::bad_address_char(s, i)]),
        ),
        forall|j: int|
            i <= j < identity::bad_address_char(s, i) ==> identity::is_address_char(
                text::lower_char(#[trigger] s[j]),
            ),
    decreases s.len() - i,
{
    if i < s.len() && identity::is_address_char(text::lower_char(s[i])) {
        lemma_bad_char(s, i + 1);
    }
}

/// A key has a wanted beginning where its address begins with it, character by character.
pub proof fn law_wanted_addresses_begin_so(key: &SigningKey, prefix: &[char], r: bool)
    requires
        call_ensures(identity::has_vanity_prefix, (key, prefix), r),
    ensures
        r <==> prefix@.len() <= identity::root_address(crypto::ed25519_public(key@)).len() && forall|
            i: int,
        |
            0 <= i < prefix@.len() ==> #[trigger] prefix@[i] == identity::root_address(
                crypto::ed25519_public(key@),
            )[i],
{
    let address = identity::root_address(crypto::ed25519_public(key@));
    let n = prefix@.len() as int;
    if n <= address.len() {
        if address.take(n) == prefix@ {
            assert forall|i: int| 0 <= i < n implies #[trigger] prefix@[i] == address[i] by {
                assert(address.take(n)[i] == address[i]);
            }
        }
        if forall|i: int| 0 <= i < n ==> #[trigger] prefix@[i] == address[i] {
            assert(address.take(n) =~= prefix@);
        }
    }
}

/// The address of a key is its base32 text in small letters, with `.root` behind it.
pub proof fn law_addresses_are_base32(key: &VerifyingKey, r: String)
    requires
        key@.len() == 32,
        call_ensures(identity::address_of, (key,), r),
    ensures
        r@.len() == 57,
        text::ends_with(r@, ".root"@),
        encoding::base32_decoded(r@.take(52)) == Some(key@),
        forall|i: int| 0 <= i < 52 ==> identity::is_address_char(#[trigger] r@[i]),
{
    identity::law_address_form(key@);
    encoding::law_base32_round_trip(key@);
    reveal_strlit(".root");
    assert(r@.take(52) =~= text::lower(encoding::base32_encoded(key@)));
}

/// The host that is named in a handshake is the address up to its first colon: it holds none, and what
/// follows it begins with one, or there is nothing.
pub proof fn law_hosts_end_at_the_first_colon(address: &str, r: String)
    requires
        call_ensures(client::server_host, (address,), r),
    ensures
        !r@.contains(':'),
        exists|rest: Seq<char>|
            address@ == #[trigger] (r@ + rest) && (rest.len() > 0 ==> rest[0] == ':'),
{
    text::lemma_find_from(address@, ':', 0);
    let i = text::find_from(address@, ':', 0);
    let rest = address@.skip(i);
    assert(address@ =~= r@ + rest);
    if r@.contains(':') {
        let k = choose|k: int| 0 <= k < r@.len() && r@[k] == ':';
        assert(address@[k] == ':');
    }
}

/// Addresses that begin with an unspecified one cannot be dialed, whatever follows; one that begins
/// with another digit or with a letter can.
pub proof fn law_unspecified_addresses_are_told(s: Seq<char>, rest: Seq<char>)
    ensures
        addr::undialable("0.0.0.0"@ + rest),
        addr::undialable("[::]"@ + rest),
        addr::undialable("::"@ + rest),
        s.len() > 0 && s[0] != '0' && s[0] != '[' && s[0] != ':' ==> !addr::undialable(s),
        s.len() == 0 ==> !addr::undialable(s),
{
    reveal_strlit("0.0.0.0");
    reveal_strlit("[::]");
    reveal_strlit("::");
    assert(("0.0.0.0"@ + rest).take(7) =~= "0.0.0.0"@);
    assert(("[::]"@ + rest).take(4) =~= "[::]"@);
    assert(("::"@ + rest).take(2) =~= "::"@);
    if s.len() > 0 {
        if text::starts_with(s, "0.0.0.0"@) {
            assert(s.take(7)[0] == s[0]);
        }
        if text::starts_with(s, "[::]"@) {
            assert(s.take(4)[0] == s[0]);
        }
        if text::starts_with(s, "::"@) {
            assert(s.take(2)[0] == s[0]);
        }
    }
}

/// A packet counts with its payload and the four bytes of its header, and a connection counts once.
pub proof fn law_counters_add_up(m: &mut Metrics, n: &mut Metrics, payload: usize)
    requires
        payload <= u64::MAX - 4,
        call_ensures(Metrics::packet_received, (m, payload), ()),
        call_ensures(Metrics::connection_opened, (n,), ()),
    ensures
        old(m).bytes_received + payload + 4 <= u64::MAX ==> final(m).bytes_received == old(m).bytes_received + payload + 4,
        final(m).active_connections == old(m).active_connections,
        old(n).active_connections < u64::MAX ==> final(n).active_connections == old(n).active_connections + 1,
        final(n).bytes_received == old(n).bytes_received,
{
}

/// The characters of an address are those of base32 in small letters: a to z, and 2 to 7.
pub open spec fn in_an_address(c: char) -> bool {
    97 <= c as u32 <= 122 || 50 <= c as u32 <= 55
}

/// As many permits are waited for as bytes pass, counted in 32 bits, and the rate is the one that was
/// asked for.
pub proof fn law_rates_are_kept(
    rate: u32,
    made: BandwidthManager,
    b: &BandwidthManager,
    bytes: usize,
    r: Option<u32>,
    more: usize,
    again: Option<u32>,
)
    requires
        call_ensures(BandwidthManager::new, (rate,), made),
        call_ensures(BandwidthManager::check, (b, bytes), r),
        call_ensures(BandwidthManager::check, (b, more), again),
    ensures
        rate > 0 ==> made@ == rate,
        rate == 0 ==> made@ == 10 * 1024 * 1024,
        0 < bytes <= u32::MAX ==> r == Some(bytes as u32),
        bytes == 0 ==> r is None,
        more == bytes + 0x1_0000_0000 ==> again == r,
{
}

/// A name that is no base32 text has no key.
pub proof fn law_other_texts_name_no_key(name: Seq<char>)
    requires
        !text::ends_with(name, ".root"@),
        encoding::base32_decoded(name) is None,
    ensures
        identity::resolved(name + ".root"@) == Err::<Seq<u8>, _>(DomainError::InvalidBase32),
{
    reveal_strlit(".root");
    let t = name + ".root"@;
    assert(t.skip(t.len() - 5) =~= ".root"@);
    assert(t.take(t.len() - 5) =~= name);
    assert(identity::without_root(t) == identity::without_root(name));
    assert(identity::without_root(name) == name);
}

/// A descriptor holds what it was made of, and its signature is the signer's over what it signs.
pub proof fn law_descriptors_hold_what_they_are_made_of(
    id: VerifyingKey,
    address: SocketAddr,
    certificate: Vec<u8>,
    time: u64,
    key: &SigningKey,
    r: crate::descriptor::RelayDescriptor,
)
    requires
        call_ensures(
            crate::descriptor::RelayDescriptor::new,
            (id, address, certificate, time, key),
            r,
        ),
    ensures
        r@.id == id@,
        r@.external_address == address,
        r@.tls_public_key == certificate@,
        r@.last_updated == time,
        r@.signature == crypto::ed25519_signature(key@, descriptor::relay_message(r@)),
        id@ == crypto::ed25519_public(key@) ==> crypto::ed25519_verifies(
            id@,
            descriptor::relay_message(r@),
            r@.signature,
        ),
{
}

/// A service's descriptor likewise.
pub proof fn law_service_descriptors_hold_what_they_are_made_of(
    id: VerifyingKey,
    points: Vec<SocketAddr>,
    key: &SigningKey,
    r: HiddenServiceDescriptor,
)
    requires
        call_ensures(HiddenServiceDescriptor::new, (id, points, key), r),
    ensures
        r@.identity_key == id@,
        r@.introduction_points == points@,
        r@.signature == crypto::ed25519_signature(key@, descriptor::service_message(r@)),
        id@ == crypto::ed25519_public(key@) ==> crypto::ed25519_verifies(
            id@,
            descriptor::service_message(r@),
            r@.signature,
        ),
{
}

/// Verifying is asking whether the signature is good under the key that the descriptor names, for what
/// the descriptor says.
pub proof fn law_descriptors_are_verified_under_their_own_key(
    d: &crate::descriptor::RelayDescriptor,
    r: Result<(), crate::descriptor::BadSignature>,
    h: &HiddenServiceDescriptor,
    q: Result<(), crate::descriptor::BadSignature>,
)
    requires
        call_ensures(crate::descriptor::RelayDescriptor::verify, (d,), r),
        call_ensures(HiddenServiceDescriptor::verify, (h,), q),
    ensures
        r is Ok <==> crypto::ed25519_verifies(
            d@.id,
            descriptor::relay_message(d@),
            d@.signature,
        ),
        q is Ok <==> crypto::ed25519_verifies(
            h@.identity_key,
            descriptor::service_message(h@),
            h@.signature,
        ),
{
}

/// A service waits no longer at a relay that sends what is no relay cell.
pub proof fn law_services_leave_points_that_fail(l: &mut Link, payload: &[u8], r: Introduction)
    requires
        call_ensures(hidden_service::handle_introduce2, (l, payload), r),
    ensures
        r is Stop <==> link::received(old(l)@.backward, payload@) is Err,
        final(l)@ == old(l)@.after_receive(payload@),
{
}

/// A name whose text is base32 of something else than a key names none, and it is told whether the
/// length is wrong or the point.
pub proof fn law_other_bytes_are_no_key(name: Seq<char>, data: Seq<u8>)
    requires
        !text::ends_with(name, ".root"@),
        encoding::base32_decoded(name) == Some(data),
    ensures
        ({
            let r = identity::resolved(name + ".root"@);
            &&& r is Ok ==> r == Ok::<_, DomainError>(data)
            &&& data.len() != 32 ==> r == Err::<Seq<u8>, _>(
                DomainError::InvalidKey(identity::KeyError::Length),
            )
            &&& data.len() == 32 && r is Err ==> r == Err::<Seq<u8>, _>(
                DomainError::InvalidKey(identity::KeyError::Point),
            ) && !identity::valid_key(data)
        }),
{
    reveal_strlit(".root");
    let t = name + ".root"@;
    assert(t.skip(t.len() - 5) =~= ".root"@);
    assert(t.take(t.len() - 5) =~= name);
    assert(identity::without_root(t) == identity::without_root(name));
    assert(identity::without_root(name) == name);
}

/// In which words it is told that a name has no key.
pub proof fn law_words_for_bad_names(e: DomainError, r: String)
    requires
        call_ensures(DomainError::message, (&e,), r),
    ensures
        e == DomainError::NotRoot ==> r@ == "Not a .root domain"@,
        e == DomainError::InvalidBase32 ==> r@ == "Invalid base32 encoding"@,
        e == DomainError::InvalidKey(identity::KeyError::Length) ==> r@
            == "Invalid key: signature error: VerifyingKey must be 32 bytes in length"@,
        e == DomainError::InvalidKey(identity::KeyError::Point) ==> r@
            == "Invalid key: signature error: Cannot decompress Edwards point"@,
{
}

/// What a text begins and ends with.
pub proof fn law_texts_begin_and_end(s: Seq<char>, part: Seq<char>, other: Seq<char>)
    ensures
        text::starts_with(part + s, part),
        text::ends_with(s + part, part),
        other.len() == part.len() && other != part ==> !text::starts_with(part + s, other)
            && !text::ends_with(s + part, other),
        part.len() > s.len() ==> !text::starts_with(s, part) && !text::ends_with(s, part),
{
    assert((part + s).take(part.len() as int) =~= part);
    assert((s + part).skip(s.len() as int) =~= part);
}

} // verus!
