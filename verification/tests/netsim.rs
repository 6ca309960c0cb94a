use nearhand::net::Address;
use nearhand::server::netsim::{private, public, NatKind, Net};

const NAT: u8 = 1;

/// A socket behind a NAT of `kind`, a public host, and a second public host
/// that the inside socket has not talked to.
fn setup(kind: NatKind) -> (Net, Address, Address, Address) {
    let mut net = Net::new();
    let nat_ip = public(NAT, 0).ip;
    net.add_nat(nat_ip, kind);
    let inside = private(1, 2, 5000);
    let a = public(10, 443);
    let b = public(11, 443);
    for (address, behind) in [(inside, Some(nat_ip)), (a, None), (b, None)] {
        net.socket(address, behind);
    }
    (net, inside, a, b)
}

fn received(net: &mut Net, at: Address) -> Vec<Address> {
    net.received(at).into_iter().map(|p| p.from).collect()
}

#[test]
fn nats_rewrite_the_source_and_filter_by_kind() {
    for (kind, same_port_for_b, b_gets_in) in [
        (NatKind::FullCone, true, true),
        (NatKind::AddressRestricted, true, false),
        (NatKind::PortRestricted, true, false),
        (NatKind::Symmetric, false, false),
    ] {
        let (mut net, inside, a, b) = setup(kind);
        net.send(inside, a, b"hi");
        let [seen] = received(&mut net, a)[..] else {
            panic!("{kind:?}: nothing arrived at a");
        };
        assert_eq!(seen.ip, public(NAT, 0).ip, "{kind:?}");

        net.send(a, seen, b"back");
        assert_eq!(received(&mut net, inside), [a], "{kind:?}: a's reply");

        // b has not been sent to: only a full cone lets it in.
        net.send(b, seen, b"stranger");
        assert_eq!(
            !received(&mut net, inside).is_empty(),
            b_gets_in,
            "{kind:?}"
        );

        // Sending to b: does b see the port a saw?
        net.send(inside, b, b"hi");
        assert_eq!(
            received(&mut net, b)[0] == seen,
            same_port_for_b,
            "{kind:?}"
        );
    }
}

#[test]
fn address_restricted_nats_take_any_port_of_a_known_host() {
    let (mut net, inside, a, _) = setup(NatKind::AddressRestricted);
    net.send(inside, a, b"hi");
    let seen = received(&mut net, a)[0];
    let other_port = Address::new(a.ip, 9999);
    net.socket(other_port, None);
    net.send(other_port, seen, b"from elsewhere");
    assert_eq!(received(&mut net, inside), [other_port]);
}

#[test]
fn private_networks_are_private() {
    let (mut net, inside, a, _) = setup(NatKind::FullCone);
    let neighbour = private(1, 3, 5000);
    net.socket(neighbour, Some(public(NAT, 0).ip));
    net.send(neighbour, inside, b"lan");
    assert_eq!(
        received(&mut net, inside),
        [neighbour],
        "same network, direct"
    );

    net.send(a, inside, b"not routed");
    assert!(received(&mut net, inside).is_empty());

    // Hairpin: to the NAT's own public address from inside.
    net.send(inside, a, b"map");
    let seen = received(&mut net, a)[0];
    net.send(neighbour, seen, b"hairpin");
    assert!(received(&mut net, inside).is_empty());
}

#[test]
fn a_nat_that_forgot_maps_anew() {
    let (mut net, inside, a, _) = setup(NatKind::PortRestricted);
    net.send(inside, a, b"one");
    let before = received(&mut net, a)[0];
    net.forget_mappings(public(NAT, 0).ip);
    net.send(a, before, b"too late");
    assert!(received(&mut net, inside).is_empty());
    net.send(inside, a, b"two");
    let packets = net.received(a);
    assert_ne!(packets[0].from, before);
    assert_eq!(packets[0].bytes, b"two");
}
