//! What a SOCKS5 session makes of the bytes of a request, hop by hop and cell by cell.

use crate::addr;
use crate::addr::{Ipv4Addr, SocketAddr};
use crate::circuit;
use crate::directory;
use crate::directory::{Directory, DirectoryView};
use crate::encoding;
use crate::hidden_service;
use crate::identity;
use crate::link;
use crate::link::LinkView;
use crate::socks;
use crate::socks::{ChoicesView, Event, EventView, Leg, NextView, Session, SocksStep, StateView};
use crate::text;
use crate::wire::{RelayCellView, RelayCommand};
use vstd::prelude::*;

verus! {

/// The target of a request for an IPv4 address is the address with dots, a colon, and the port in
/// decimal, which is 256 times its first byte and its second.
pub proof fn law_ipv4_targets_read_back(
    data: &[u8],
    r: Vec<char>,
    ip: Ipv4Addr,
    high: u8,
    low: u8,
)
    requires
        data@ == seq![ip.a, ip.b, ip.c, ip.d, high, low],
        call_ensures(socks::make_ipv4_target, (data,), r),
    ensures
        r@ == addr::ipv4_text(ip) + seq![':'] + text::decimal((256 * high + low) as nat),
        addr::parse_ipv4(socks::target_host(r@)) == Some(ip),
{
    let port = (256 * high + low) as nat;
    assert(data@[0] == ip.a && data@[1] == ip.b && data@[2] == ip.c && data@[3] == ip.d);
    assert(data@[4] == high && data@[5] == low);
    assert(r@ =~= addr::ipv4_text(ip) + seq![':'] + text::decimal(port));
    lemma_host(addr::ipv4_text(ip), port);
    addr::law_ipv4_text_round_trip(ip);
}

/// The host of a target is the name in front of its port.
proof fn lemma_host(name: Seq<char>, port: nat)
    ensures
        socks::target_host(name + seq![':'] + text::decimal(port)) == name,
{
    let target = name + seq![':'] + text::decimal(port);
    text::lemma_decimal_value_of_decimal(port);
    let k = name.len() as int;
    assert(target[k] == ':');
    assert forall|j: int| k < j < target.len() implies target[j] != ':' by {
        assert(text::is_digit(text::decimal(port)[j - k - 1]));
    }
    text::lemma_find_back(target, ':', k, target.len() as int);
    assert(target.take(k) =~= name);
}

/// The target of a request for a name is the name, a colon, and the port in decimal, for every name
/// and every port.
pub proof fn law_domain_targets_read_back(
    data: &[u8],
    r: Vec<char>,
    name: Seq<char>,
    high: u8,
    low: u8,
)
    requires
        vstd::utf8::encode_utf8(name).len() <= 255,
        data@ == vstd::utf8::encode_utf8(name) + seq![high, low],
        call_ensures(socks::make_domain_target, (data,), r),
    ensures
        r@ == name + seq![':'] + text::decimal((256 * high + low) as nat),
        socks::target_host(r@) == name,
{
    let raw = vstd::utf8::encode_utf8(name);
    assert(data@.take(data@.len() - 2) =~= raw);
    assert(data@[data@.len() - 2] == high && data@[data@.len() - 1] == low);
    encoding::law_text_round_trip(name);
    lemma_host(name, (256 * high + low) as nat);
}

/// How a session goes through the bytes of a request: two bytes of greeting, as many methods as it
/// announces, four bytes of request, and then, by its address type, six bytes of address and port, or
/// one byte of length and a name of that length with its port. Nothing is written but the choice of no
/// authentication.
pub proof fn law_requests_are_read_in_order(
    d: DirectoryView,
    c: ChoicesView,
    complete: bool,
    methods: u8,
    list: Seq<u8>,
    first: u8,
    third: u8,
    length: u8,
)
    ensures
        socks::session_step(
            StateView::Greeting,
            d,
            EventView::Bytes { complete: true, data: seq![5u8, methods] },
            c,
        ) == socks::reads(StateView::Methods, Seq::empty(), methods as nat),
        socks::session_step(
            StateView::Methods,
            d,
            EventView::Bytes { complete, data: list },
            c,
        ) == socks::reads(StateView::Request, seq![5u8, 0u8], 4),
        socks::session_step(
            StateView::Request,
            d,
            EventView::Bytes { complete: true, data: seq![first, 1u8, third, 1u8] },
            c,
        ) == socks::reads(StateView::Ipv4, Seq::empty(), 6),
        socks::session_step(
            StateView::Request,
            d,
            EventView::Bytes { complete: true, data: seq![first, 1u8, third, 3u8] },
            c,
        ) == socks::reads(StateView::DomainLength, Seq::empty(), 1),
        socks::session_step(
            StateView::DomainLength,
            d,
            EventView::Bytes { complete, data: seq![length] },
            c,
        ) == socks::reads(StateView::Domain, Seq::empty(), length as nat + 2),
{
}

/// A session goes on only with version 5, with `CONNECT`, and with an IPv4 address or a name. For any
/// other type of address the application is told so; for the rest it is not answered.
pub proof fn law_other_requests_end_the_session(
    d: DirectoryView,
    c: ChoicesView,
    version: u8,
    methods: u8,
    first: u8,
    command: u8,
    third: u8,
    kind: u8,
)
    ensures
        version != 5 ==> socks::session_step(
            StateView::Greeting,
            d,
            EventView::Bytes { complete: true, data: seq![version, methods] },
            c,
        ) == socks::closed(Seq::empty()),
        command != 1 ==> socks::session_step(
            StateView::Request,
            d,
            EventView::Bytes { complete: true, data: seq![first, command, third, kind] },
            c,
        ) == socks::closed(Seq::empty()),
        kind != 1 && kind != 3 ==> socks::session_step(
            StateView::Request,
            d,
            EventView::Bytes { complete: true, data: seq![first, 1u8, third, kind] },
            c,
        ) == socks::closed(seq![5u8, 8u8, 0u8, 1u8, 0u8, 0u8, 0u8, 0u8, 0u8, 0u8]),
{
}

/// Whether a path is for browsing: over the first three relays of an order, or over all where there
/// are fewer, in that order.
pub open spec fn is_browsing_path(path: Seq<SocketAddr>, order: Seq<SocketAddr>) -> bool {
    &&& path.len() == if order.len() < 3 {
        order.len()
    } else {
        3
    }
    &&& forall|i: int| 0 <= i < path.len() ==> #[trigger] path[i] == order[i]
}

/// Whether a path leads to the first relay of an order as a rendezvous point: over as many hops as for
/// browsing, and in front of it over the relays that follow it in the order.
pub open spec fn is_rendezvous_path(path: Seq<SocketAddr>, order: Seq<SocketAddr>) -> bool {
    &&& order.len() > 0
    &&& path.len() == if order.len() < 3 {
        order.len()
    } else {
        3
    }
    &&& path[path.len() - 1] == order[0]
    &&& forall|i: int| 0 <= i < path.len() - 1 ==> #[trigger] path[i] == order[i + 1]
}

/// The path to a rendezvous point has three hops where three relays are known, and otherwise one for
/// every relay: it ends at the first relay of the order, and the hops in front of it are the next ones.
pub proof fn law_rendezvous_paths_are_full(order: &[SocketAddr], r: Vec<SocketAddr>)
    requires
        order@.len() > 0,
        call_ensures(socks::make_rendezvous_path, (order,), r),
    ensures
        is_rendezvous_path(r@, order@),
        order@.no_duplicates() ==> r@.no_duplicates(),
{
}

/// A request for an IPv4 address builds a circuit over the first relays of the order, for the address
/// and port that the request named.
pub proof fn law_ipv4_requests_build_a_circuit(
    d: DirectoryView,
    c: ChoicesView,
    complete: bool,
    ip: Ipv4Addr,
    high: u8,
    low: u8,
)
    requires
        c.order.len() > 0,
    ensures
        ({
            let data = seq![ip.a, ip.b, ip.c, ip.d, high, low];
            let (after, step) = socks::session_step(
                StateView::Ipv4,
                d,
                EventView::Bytes { complete, data },
                c,
            );
            &&& after == (StateView::Building {
                circ_id: c.circ_id,
                target: addr::ipv4_text(ip) + seq![':'] + text::decimal((256 * high + low) as nat),
            })
            &&& step.write == Seq::<u8>::empty()
            &&& step.next matches NextView::Build { leg, circ_id, path } && leg == Leg::Main
                && circ_id == c.circ_id && is_browsing_path(path, c.order)
        }),
{
    let data = seq![ip.a, ip.b, ip.c, ip.d, high, low];
    let port = (256 * high + low) as nat;
    let host = addr::ipv4_text(ip);
    let target = host + seq![':'] + text::decimal(port);
    assert(socks::ipv4_target(data) =~= target);
    lemma_host(host, port);
    lemma_ipv4_is_no_root(ip);
}

proof fn lemma_ipv4_is_no_root(ip: Ipv4Addr)
    ensures
        !text::ends_with(addr::ipv4_text(ip), ".root"@),
{
    let s = addr::ipv4_text(ip);
    let d = text::decimal(ip.d as nat);
    text::lemma_decimal_value_of_decimal(ip.d as nat);
    reveal_strlit(".root");
    assert(s[s.len() - 1] == d[d.len() - 1]);
    assert(text::is_digit(d[d.len() - 1]));
    if text::ends_with(s, ".root"@) {
        assert(s.skip(s.len() - 5)[4] == ".root"@[4]);
    }
}

/// A request for a name that does not end in `.root` builds a circuit likewise, for the very name and
/// port.
pub proof fn law_name_requests_build_a_circuit(
    d: DirectoryView,
    c: ChoicesView,
    complete: bool,
    name: Seq<char>,
    high: u8,
    low: u8,
)
    requires
        c.order.len() > 0,
        vstd::utf8::encode_utf8(name).len() <= 255,
        !text::ends_with(name, ".root"@),
    ensures
        ({
            let data = vstd::utf8::encode_utf8(name) + seq![high, low];
            let (after, step) = socks::session_step(
                StateView::Domain,
                d,
                EventView::Bytes { complete, data },
                c,
            );
            &&& after == (StateView::Building {
                circ_id: c.circ_id,
                target: name + seq![':'] + text::decimal((256 * high + low) as nat),
            })
            &&& step.write == Seq::<u8>::empty()
            &&& step.next matches NextView::Build { leg, circ_id, path } && leg == Leg::Main
                && circ_id == c.circ_id && is_browsing_path(path, c.order)
        }),
{
    let raw = vstd::utf8::encode_utf8(name);
    let data = raw + seq![high, low];
    let port = (256 * high + low) as nat;
    assert(data.take(data.len() - 2) =~= raw);
    assert(data[data.len() - 2] == high && data[data.len() - 1] == low);
    encoding::law_text_round_trip(name);
    assert(socks::domain_target(data) =~= name + seq![':'] + text::decimal(port));
    lemma_host(name, port);
}

/// A request for the address of a service that the directory holds builds a circuit to a rendezvous
/// point, and keeps the key and the introduction points of that service.
pub proof fn law_service_requests_build_a_circuit(
    d: DirectoryView,
    c: ChoicesView,
    complete: bool,
    key: Seq<u8>,
    high: u8,
    low: u8,
)
    requires
        c.order.len() > 0,
        identity::valid_key(key),
        d.services.dom().contains(key),
        d.services[key].introduction_points.len() > 0,
        vstd::utf8::encode_utf8(identity::root_address(key)).len() <= 255,
    ensures
        ({
            let data = vstd::utf8::encode_utf8(identity::root_address(key)) + seq![high, low];
            let (after, step) = socks::session_step(
                StateView::Domain,
                d,
                EventView::Bytes { complete, data },
                c,
            );
            &&& after == (StateView::RpBuilding {
                circ_id: c.circ_id,
                key,
                introduction_points: d.services[key].introduction_points,
                rp: c.order[0],
            })
            &&& step.write == Seq::<u8>::empty()
            &&& step.next matches NextView::Build { leg, circ_id, path } && leg == Leg::Main
                && circ_id == c.circ_id && is_rendezvous_path(path, c.order)
        }),
{
    let name = identity::root_address(key);
    let raw = vstd::utf8::encode_utf8(name);
    let data = raw + seq![high, low];
    let port = (256 * high + low) as nat;
    assert(data.take(data.len() - 2) =~= raw);
    assert(data[data.len() - 2] == high && data[data.len() - 1] == low);
    encoding::law_text_round_trip(name);
    assert(socks::domain_target(data) =~= name + seq![':'] + text::decimal(port));
    lemma_host(name, port);
    identity::law_address_form(key);
    identity::law_address_round_trip(key);
}

/// Whether a step sends one cell, under all layers of a link, on one of the circuits.
pub open spec fn sends_cell(
    step: socks::SocksStepView,
    leg: Leg,
    circ_id: crate::wire::CircuitId,
    l: LinkView,
    cell: RelayCellView,
    seconds: Option<u64>,
) -> bool {
    &&& step.write == Seq::<u8>::empty()
    &&& step.next == NextView::Exchange {
        leg,
        packet: link::onion_packet(circ_id, l.forward, cell),
        seconds,
    }
}

/// Once the circuit to an exit is built, the one cell that is sent asks the last hop to connect to the
/// target, on the data stream, and the answer is awaited without a limit.
pub proof fn law_begin_carries_the_target(
    d: DirectoryView,
    c: ChoicesView,
    circ_id: crate::wire::CircuitId,
    target: Seq<char>,
    l: LinkView,
    cell: RelayCellView,
)
    requires
        cell.stream_id == 1,
        cell.recognized == 0,
        cell.digest == 0,
        cell.command == RelayCommand::Begin,
        encoding::lossy_text(cell.data) == target,
        cell.data == vstd::utf8::encode_utf8(target),
        l.can_send(cell),
    ensures
        ({
            let (after, step) = socks::session_step(
                StateView::Building { circ_id, target },
                d,
                EventView::Built(Some(l)),
                c,
            );
            &&& sends_cell(step, Leg::Main, circ_id, l, cell, None)
            &&& after matches StateView::Connecting { link } && link.circ_id == circ_id
                && link.backward == l.backward && link.windows == l.windows
        }),
{
    let sent = circuit::plain_relay_cell(1, RelayCommand::Begin, vstd::utf8::encode_utf8(target));
    assert(sent == cell);
}

/// Once the circuit to a rendezvous point is built, the cookie is left there.
pub proof fn law_the_cookie_is_left_at_the_rendezvous_point(
    d: DirectoryView,
    c: ChoicesView,
    circ_id: crate::wire::CircuitId,
    key: Seq<u8>,
    introduction_points: Seq<SocketAddr>,
    rp: SocketAddr,
    l: LinkView,
    cell: RelayCellView,
)
    requires
        cell.stream_id == 0,
        cell.recognized == 0,
        cell.digest == 0,
        cell.command == RelayCommand::EstablishRendezvous,
        cell.data == c.cookie,
        l.can_send(cell),
    ensures
        ({
            let (after, step) = socks::session_step(
                StateView::RpBuilding { circ_id, key, introduction_points, rp },
                d,
                EventView::Built(Some(l)),
                c,
            );
            &&& sends_cell(step, Leg::Main, circ_id, l, cell, None)
            &&& after matches StateView::RpEstablishing {
                link,
                key: k,
                introduction_points: points,
                rp: point,
                cookie,
            } && link.circ_id == circ_id && link.backward == l.backward && k == key && points
                == introduction_points && point == rp && cookie == c.cookie
        }),
{
    let sent = circuit::plain_relay_cell(0, RelayCommand::EstablishRendezvous, c.cookie);
    assert(sent == cell);
}

/// Once the rendezvous point has confirmed, a circuit of one hop is built to the introduction point
/// that comes first in the order, and what is known of the rendezvous is kept.
pub proof fn law_one_introduction_point_is_asked(
    d: DirectoryView,
    c: ChoicesView,
    l: LinkView,
    key: Seq<u8>,
    introduction_points: Seq<SocketAddr>,
    rp: SocketAddr,
    cookie: Seq<u8>,
    payload: Seq<u8>,
    rc: RelayCellView,
)
    requires
        c.order.len() > 0,
        link::received(l.backward, payload) == Ok::<_, link::ReceiveError>(rc),
        rc.command == RelayCommand::RendezvousEstablished,
    ensures
        ({
            let (after, step) = socks::session_step(
                StateView::RpEstablishing { link: l, key, introduction_points, rp, cookie },
                d,
                EventView::Exchanged { sent: true, payload: Some(payload) },
                c,
            );
            &&& step.write == Seq::<u8>::empty()
            &&& step.next matches NextView::Build { leg, circ_id, path } && leg == Leg::Intro
                && circ_id == c.circ_id && path == seq![c.order[0]]
            &&& after == (StateView::IntroBuilding {
                link: l.after_receive(payload),
                key,
                rp,
                cookie,
                intro_circ_id: c.circ_id,
            })
        }),
{
}

/// Once the circuit to an introduction point is built, the one cell that is sent on it names the
/// service, and the service reads from it the rendezvous point and the cookie. The service is awaited
/// on the circuit to the rendezvous point for thirty seconds.
pub proof fn law_introductions_carry_the_rendezvous(
    d: DirectoryView,
    c: ChoicesView,
    main: LinkView,
    key: Seq<u8>,
    rp: SocketAddr,
    cookie: Seq<u8>,
    intro_circ_id: crate::wire::CircuitId,
    l: LinkView,
    cell: RelayCellView,
)
    requires
        rp is V4,
        key.len() == 32,
        cookie.len() == 20,
        cell.stream_id == 0,
        cell.recognized == 0,
        cell.digest == 0,
        cell.command == RelayCommand::Introduce1,
        cell.data.len() == 58,
        cell.data.take(32) == key,
        hidden_service::introduction(cell.data) == Some((rp, cookie)),
        l.can_send(cell),
    ensures
        ({
            let (after, step) = socks::session_step(
                StateView::IntroBuilding { link: main, key, rp, cookie, intro_circ_id },
                d,
                EventView::Built(Some(l)),
                c,
            );
            &&& sends_cell(step, Leg::Intro, intro_circ_id, l, cell, Some(30))
            &&& after == (StateView::Waiting { link: main })
        }),
{
    match rp {
        SocketAddr::V4 { ip, port } => {
            let data = socks::introduce_data(key, ip, port, cookie);
            hidden_service::law_introduction_round_trip(key, ip, port, cookie);
            lemma_introduction_unique(cell.data, data);
            assert(circuit::plain_relay_cell(0, RelayCommand::Introduce1, data) == cell);
        },
        SocketAddr::V6 { .. } => {},
    }
}

/// What an introduction carries is fixed by what is read from it.
proof fn lemma_introduction_unique(a: Seq<u8>, b: Seq<u8>)
    requires
        a.len() == 58,
        b.len() == 58,
        a.take(32) == b.take(32),
        hidden_service::introduction(a) == hidden_service::introduction(b),
    ensures
        a == b,
{
    let c = a.subrange(38, 58);
    let d = b.subrange(38, 58);
    assert(c == d);
    let x = crate::relay::addr_at(a, 32);
    let y = crate::relay::addr_at(b, 32);
    assert(x == y);
    assert(x->ip == y->ip);
    assert(a[32] == b[32] && a[33] == b[33] && a[34] == b[34] && a[35] == b[35]);
    assert forall|i: int| 0 <= i < 58 implies a[i] == b[i] by {
        if i < 32 {
            assert(a[i] == a.take(32)[i]);
            assert(b[i] == b.take(32)[i]);
        } else if i >= 38 {
            assert(a[i] == c[i - 38]);
            assert(b[i] == d[i - 38]);
        } else if i >= 36 {
            let x = a[36] as nat * 256 + a[37] as nat;
            let y = b[36] as nat * 256 + b[37] as nat;
            assert(x as u16 == y as u16);
            assert(x == y);
            assert(a[36] == b[36] && a[37] == b[37]);
            assert(i == 36 || i == 37);
        } else {
            assert(i == 32 || i == 33 || i == 34 || i == 35);
        }
    }
    assert(a =~= b);
}

/// How each failure is told: a circuit that cannot be built, or a packet that cannot be sent, is a
/// general failure; an exit that does not connect is a refusal; a service that does not come is
/// unreachable.
pub proof fn law_failures_are_told(
    s: StateView,
    d: DirectoryView,
    c: ChoicesView,
    payload: Option<Seq<u8>>,
)
    ensures
        s is Building || s is RpBuilding || s is IntroBuilding ==> socks::session_step(
            s,
            d,
            EventView::Built(None),
            c,
        ) == told(1),
        s is Connecting || s is RpEstablishing || s is Waiting ==> socks::session_step(
            s,
            d,
            EventView::Exchanged { sent: false, payload },
            c,
        ) == told(1),
        s matches StateView::Connecting { link } ==> socks::received_command(link, payload) != Some(
            RelayCommand::Connected,
        ) ==> socks::session_step(s, d, EventView::Exchanged { sent: true, payload }, c) == told(5),
        s matches StateView::Waiting { link } ==> socks::received_command(link, payload) != Some(
            RelayCommand::Rendezvous2,
        ) ==> socks::session_step(s, d, EventView::Exchanged { sent: true, payload }, c) == told(4),
        s matches StateView::RpEstablishing { link, .. } ==> socks::received_command(link, payload)
            != Some(RelayCommand::RendezvousEstablished) ==> socks::session_step(
            s,
            d,
            EventView::Exchanged { sent: true, payload },
            c,
        ) == told(1),
{
}

/// The end of a session with a reply code.
pub open spec fn told(code: u8) -> (StateView, socks::SocksStepView) {
    socks::closed(seq![5u8, code, 0u8, 1u8, 0u8, 0u8, 0u8, 0u8, 0u8, 0u8])
}

/// A circuit for a request goes over relays that the directory knows, each of them at most as often as
/// it stands there, and over three where so many are known.
pub proof fn law_requests_go_over_known_relays(
    s: &mut Session,
    d: &Directory,
    event: Event,
    r: SocksStep,
    list: Seq<crate::descriptor::RelayView>,
)
    requires
        call_ensures(Session::step, (s, d, event), r),
        old(s).state@ is Ipv4 || old(s).state@ is Domain,
        directory::lists_relays(list, d@.relays),
    ensures
        r@.next matches NextView::Build { path, .. } ==> {
            &&& path.len() == if list.len() < 3 {
                list.len()
            } else {
                3
            }
            &&& forall|i: int|
                0 <= i < path.len() ==> exists|k: Seq<u8>|
                    d@.relays.dom().contains(k) && (#[trigger] d@.relays[k]).external_address
                        == #[trigger] path[i]
        },
{
    let choices = choose|choices: ChoicesView|
        socks::is_order(old(s).state@, d@, choices.order) && choices.cookie.len() == 20 && (final(s).state@, r@) == #[trigger] socks::session_step(old(s).state@, d@, event@, choices);
    let order = choices.order;
    directory::lemma_relay_order(d@.relays, order, list);
    match r@.next {
        NextView::Build { path, .. } => {
            assert forall|i: int| 0 <= i < path.len() implies order.contains(#[trigger] path[i]) by {
                lemma_path_in_order(old(s).state@, d@, event@, choices, path, i);
            }
        },
        _ => {},
    }
}

proof fn lemma_path_in_order(
    s: StateView,
    d: DirectoryView,
    event: EventView,
    choices: ChoicesView,
    path: Seq<SocketAddr>,
    i: int,
)
    requires
        s is Ipv4 || s is Domain,
        0 <= i < path.len(),
        socks::session_step(s, d, event, choices).1.next matches NextView::Build { path: p, .. }
            && p == path,
    ensures
        choices.order.contains(path[i]),
        path.len() == if choices.order.len() < 3 {
            choices.order.len()
        } else {
            3
        },
{
    let order = choices.order;
    if path == socks::rendezvous_path(order) && order.len() > 0 {
        if i < path.len() - 1 {
            assert(path[i] == order[i + 1]);
        } else {
            assert(path[i] == order[0]);
        }
    } else {
        assert(path[i] == order[i]);
    }
}

/// A session begins by reading the two bytes of a greeting, and writes nothing before.
pub proof fn law_sessions_begin_with_a_greeting(r: (Session, SocksStep))
    requires
        call_ensures(Session::start, (), r),
    ensures
        r.0.state@ is Greeting,
        r.1@.write.len() == 0,
        r.1@.next matches NextView::Read(n) && n == 2,
{
}

/// What cannot be asked for is told apart: a service that is not known, or whose name is none, or that
/// has no introduction point, is unreachable; without a relay there is a general failure.
pub proof fn law_requests_that_lead_nowhere(
    d: DirectoryView,
    c: ChoicesView,
    name: Seq<char>,
    port: u16,
)
    ensures
        ({
            let target = name + seq![':'] + text::decimal(port as nat);
            let key = identity::resolved(name).unwrap();
            let known = identity::resolved(name) is Ok && d.services.dom().contains(key);
            &&& text::ends_with(name, ".root"@) && !known ==> socks::target_step(target, d, c)
                == told(4)
            &&& text::ends_with(name, ".root"@) && known
                && d.services[key].introduction_points.len() == 0 ==> socks::target_step(
                target,
                d,
                c,
            ) == told(4)
            &&& text::ends_with(name, ".root"@) && known
                && d.services[key].introduction_points.len() > 0 && c.order.len() == 0
                ==> socks::target_step(target, d, c) == told(1)
            &&& !text::ends_with(name, ".root"@) && c.order.len() == 0 ==> socks::target_step(
                target,
                d,
                c,
            ) == told(1)
        }),
{
    lemma_host(name, port as nat);
}

/// The introduction point that is asked is one of those that the service has published.
pub proof fn law_published_points_are_asked(
    s: &mut Session,
    d: &Directory,
    event: Event,
    r: SocksStep,
    points: Seq<SocketAddr>,
)
    requires
        call_ensures(Session::step, (s, d, event), r),
        old(s).state@ matches StateView::RpEstablishing { introduction_points, .. }
            && introduction_points == points,
    ensures
        r@.next matches NextView::Build { leg, path, .. } ==> leg == Leg::Intro && path.len() == 1
            && points.contains(path[0]),
{
    broadcast use vstd::seq_lib::group_to_multiset_ensures;

    let choices = choose|choices: ChoicesView|
        socks::is_order(old(s).state@, d@, choices.order) && choices.cookie.len() == 20 && (final(
            s).state@, r@) == #[trigger] socks::session_step(old(s).state@, d@, event@, choices);
    let order = choices.order;
    match r@.next {
        NextView::Build { path, .. } => {
            assert(path[0] == order[0]);
            assert(order.contains(order[0]));
            assert(order.to_multiset().count(order[0]) > 0);
            assert(points.to_multiset().count(order[0]) > 0);
        },
        _ => {},
    }
}

/// Once the far side has confirmed, the application is told of success, and data flows on the link as
/// it then is: an exit that is connected, or a service that has come.
pub proof fn law_confirmed_requests_flow(
    d: DirectoryView,
    c: ChoicesView,
    l: LinkView,
    payload: Seq<u8>,
    rc: RelayCellView,
)
    requires
        link::received(l.backward, payload) == Ok::<_, link::ReceiveError>(rc),
    ensures
        ({
            let event = EventView::Exchanged { sent: true, payload: Some(payload) };
            let (a, x) = socks::session_step(StateView::Connecting { link: l }, d, event, c);
            let (b, y) = socks::session_step(StateView::Waiting { link: l }, d, event, c);
            let success = seq![5u8, 0u8, 0u8, 1u8, 0u8, 0u8, 0u8, 0u8, 0u8, 0u8];
            &&& rc.command == RelayCommand::Connected ==> a == (StateView::Flowing {
                link: l.after_receive(payload),
            }) && x.write == success && x.next is Flow
            &&& rc.command == RelayCommand::Rendezvous2 ==> b == (StateView::Flowing {
                link: l.after_receive(payload),
            }) && y.write == success && y.next is Flow
        }),
{
}

/// A rendezvous point that has no IPv4 address cannot be named, and without an introduction point
/// there is nobody to ask: either is a general failure.
pub proof fn law_requests_that_cannot_go_on(
    d: DirectoryView,
    c: ChoicesView,
    l: LinkView,
    built: LinkView,
    key: Seq<u8>,
    points: Seq<SocketAddr>,
    rp: SocketAddr,
    cookie: Seq<u8>,
    intro_circ_id: crate::wire::CircuitId,
    payload: Option<Seq<u8>>,
)
    ensures
        rp is V6 ==> socks::session_step(
            StateView::IntroBuilding { link: l, key, rp, cookie, intro_circ_id },
            d,
            EventView::Built(Some(built)),
            c,
        ) == told(1),
        c.order.len() == 0 ==> socks::session_step(
            StateView::RpEstablishing { link: l, key, introduction_points: points, rp, cookie },
            d,
            EventView::Exchanged { sent: true, payload },
            c,
        ) == told(1),
{
}

/// A session that was told its end is over: the connection is closed, and no event changes that. An
/// answer has the command of the relay cell in it, and no other.
pub proof fn law_sessions_end_with_a_reply(
    d: DirectoryView,
    c: ChoicesView,
    code: u8,
    event: EventView,
    l: LinkView,
    payload: Seq<u8>,
)
    ensures
        told(code).0 is Closed,
        told(code).1.next is Close,
        told(code).1.write.len() == 10,
        socks::session_step(StateView::Closed, d, event, c).0 is Closed,
        socks::session_step(StateView::Closed, d, event, c).1.write == Seq::<u8>::empty(),
        socks::received_command(l, None) is None,
        match link::received(l.backward, payload) {
            Ok(rc) => socks::received_command(l, Some(payload)) == Some(rc.command),
            Err(_) => socks::received_command(l, Some(payload)) is None,
        },
{
}

} // verus!
