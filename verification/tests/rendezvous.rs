use nearhand::net::{Address, Ip};
use nearhand::protocol::{DeviceId, FromServer, Refusal, Role, ToServer};
use nearhand::server::accounts::{Refused, User};
use nearhand::server::grants::Reachable;
use nearhand::server::netsim::{private, public, NatKind, Net};
use nearhand::server::rendezvous::{
    candidates, claim, first_message, granted, introduction, AgentSays, Asked, Claim, Registry,
    ATTEMPTS, ATTEMPT_WINDOW, MAX_ADDRESSES,
};
use nearhand::transport::fingerprint::Fingerprint;
use nearhand::transport::grant::SignedGrant;
use nearhand::transport::relay::tag;
use nearhand::transport::rendezvous::{
    enrolled, fetch_limit, no_way, offered, own_address, path_of, race_lost, registered,
    viewer_coming, Attempt, Backoff, Choice, Failure, Introduction, Met, Path, Ways,
    RECONNECT_FIRST, RECONNECT_MAX,
};

const NOW: i64 = 1_700_000_000;

fn address(text: &str) -> Address {
    let chars: Vec<char> = text.chars().collect();
    Address::parse(&chars).expect("address")
}

fn key(n: u8) -> Fingerprint {
    Fingerprint::from_bytes([n; 32])
}

fn id(n: u64) -> DeviceId {
    DeviceId::new(1_000_000_000 + n).expect("ten digits")
}

fn user() -> User {
    User {
        id: 7,
        name: "bob".to_owned(),
        admin: false,
        totp: false,
        disabled: false,
    }
}

#[test]
fn candidates_drop_nonsense_and_repeats_and_add_the_observed() {
    let lan = address("192.168.1.20:5000");
    let observed = address("203.0.113.7:6000");
    let junk = address("0.0.0.0:5000");
    let no_port = address("192.168.1.21:0");
    assert_eq!(
        candidates(&[lan, junk, lan, no_port], observed),
        [lan, observed]
    );
    let many: Vec<Address> = (1..=20)
        .map(|i| Address::new(Ip::v4(10, 0, 0, i), 5000))
        .collect();
    assert_eq!(candidates(&many, observed).len(), MAX_ADDRESSES + 1);
}

#[test]
fn a_managed_device_outranks_a_stranger_for_its_id() {
    let device = key(1);
    let stranger = key(2);
    assert_eq!(claim(None, &stranger, false), Claim::Take);
    assert_eq!(claim(Some((&device, true)), &device, true), Claim::Take);
    assert_eq!(
        claim(Some((&device, false)), &stranger, false),
        Claim::Refuse
    );
    assert_eq!(
        claim(Some((&stranger, false)), &device, true),
        Claim::Displace
    );
    assert_eq!(
        claim(Some((&device, true)), &stranger, false),
        Claim::Refuse,
        "a stranger never displaces a managed device"
    );
    assert_eq!(
        claim(Some((&device, true)), &stranger, true),
        Claim::Refuse,
        "nor one managed device another: first come keeps it"
    );
}

#[test]
fn attempts_are_limited_per_address() {
    let mut registry = Registry::new(true, true);
    let a = Ip::v4(198, 51, 100, 1);
    let b = Ip::v4(198, 51, 100, 2);
    for _ in 0..ATTEMPTS {
        assert!(registry.attempt(a, 1_000));
    }
    assert!(!registry.attempt(a, 1_000));
    assert!(registry.attempt(b, 1_000), "others are unaffected");
    assert!(registry.agent(id(1)).is_none());
    assert!(
        registry.attempt(a, 1_000 + ATTEMPT_WINDOW),
        "and after a minute it may try again"
    );
}

#[test]
fn a_first_message_says_what_a_client_wants() {
    assert!(matches!(
        first_message(Some(ToServer::Register { addresses: vec![] })),
        Asked::Register { .. }
    ));
    assert!(matches!(
        first_message(Some(ToServer::ConnectAs {
            id: id(1),
            addresses: vec![],
            token: "nht_x".to_owned()
        })),
        Asked::Introduce { token: Some(token), .. } if token == "nht_x"
    ));
    assert!(matches!(
        first_message(Some(ToServer::Ready { session: 1 })),
        Asked::Refuse(Refusal::Protocol)
    ));
}

#[test]
fn agents_register_and_a_newer_registration_is_not_taken_away() {
    let mut registry = Registry::new(true, true);
    let seen = address("203.0.113.7:6000");
    assert_eq!(
        registry
            .register(None, id(1), vec![], seen, false)
            .map(|r| r.registration),
        Err(Refusal::NoCertificate)
    );
    let first = registry
        .register(Some(key(1)), id(1), vec![], seen, false)
        .expect("registers");
    assert_eq!(registry.online(id(1), &key(1)), Some(seen));
    assert_eq!(registry.online(id(1), &key(2)), None, "another key");
    assert_eq!(
        registry
            .register(Some(key(2)), id(1), vec![], seen, false)
            .map(|r| r.registration),
        Err(Refusal::IdTaken)
    );
    let second = registry
        .register(Some(key(1)), id(1), vec![], seen, false)
        .expect("again");
    assert!(
        !registry.remove(id(1), first.registration),
        "the old one's end is not the new one's"
    );
    assert!(registry.online(id(1), &key(1)).is_some());
    let elsewhere = address("203.0.113.8:7000");
    registry.moved(id(1), second.registration, elsewhere);
    assert_eq!(registry.online(id(1), &key(1)), Some(elsewhere));
    let managed = registry
        .register(Some(key(3)), id(1), vec![], seen, true)
        .expect("a managed device takes its number");
    assert_eq!(managed.displaced, Some(second.registration));
    assert!(registry.remove(id(1), managed.registration));
    assert_eq!(registry.online(id(1), &key(3)), None);
}

#[test]
fn an_introduction_invites_waits_and_relays() {
    let mut registry = Registry::new(true, true);
    let seen = address("203.0.113.7:6000");
    let viewer = address("198.51.100.9:7000");
    assert!(matches!(
        registry.invite(id(1), &[], viewer),
        Err(Refusal::Offline)
    ));
    let agent = registry
        .register(Some(key(1)), id(1), vec![address("10.0.0.2:5000")], seen, true)
        .expect("registers");
    let invitation = registry.invite(id(1), &[], viewer).expect("online");
    assert_eq!(invitation.registration, agent.registration);
    match &invitation.message {
        FromServer::Incoming { session, addresses } => {
            assert_eq!(*session, invitation.session);
            assert_eq!(*addresses, [viewer]);
        }
        other => panic!("{other:?}"),
    }
    assert_eq!(
        registry.agent_says(
            agent.registration + 99,
            &ToServer::Ready {
                session: invitation.session
            }
        ),
        AgentSays::Nobody,
        "not another agent's to answer"
    );
    assert_eq!(
        registry.agent_says(
            agent.registration,
            &ToServer::Ready {
                session: invitation.session
            }
        ),
        AgentSays::Tell {
            session: invitation.session,
            ready: true
        }
    );
    assert_eq!(registry.answered(&invitation, Some(true)), Ok(()));
    let datagram = tag(invitation.session, b"quic");
    assert_eq!(
        registry.relayed(agent.registration, &datagram),
        Some((invitation.session, b"quic".to_vec()))
    );
    assert_eq!(registry.relayed(agent.registration + 1, &datagram), None);
    registry.relay_ended(invitation.session);
    assert_eq!(registry.relayed(agent.registration, &datagram), None);

    let messages = introduction(registry.agent(id(1)).expect("online"), None);
    assert!(matches!(
        &messages[..],
        [FromServer::Peer { addresses, .. }] if addresses.len() == 2
    ));
    let late = registry.invite(id(1), &[], viewer).expect("online");
    assert_eq!(registry.answered(&late, None), Err(Refusal::Declined));
    assert_eq!(
        registry.agent_says(
            agent.registration,
            &ToServer::Decline {
                session: late.session
            }
        ),
        AgentSays::Nobody,
        "too late"
    );
    assert_eq!(
        registry.agent_says(agent.registration, &ToServer::Fetch),
        AgentSays::Unexpected
    );
}

#[test]
fn grants_are_for_devices_a_user_may_reach() {
    let mut registry = Registry::new(true, true);
    let seen = address("203.0.113.7:6000");
    registry
        .register(Some(key(1)), id(1), vec![], seen, true)
        .expect("registers");
    let reachable = [Reachable {
        id: 1,
        fingerprint: key(1),
        number: id(1),
        role: Role::Control,
    }];
    let bob = user();
    let from = Ip::v4(192, 0, 2, 1);

    let refused = registry
        .authorize(None, Some(&reachable), id(1), from, NOW, 300)
        .expect_err("nobody");
    assert_eq!(refused.refusal, Refusal::NotSignedIn);
    let refused = registry
        .authorize(Some(&bob), Some(&reachable), id(2), from, NOW, 300)
        .expect_err("another device");
    assert_eq!(refused.refusal, Refusal::NotAllowed);
    let event = refused.event.expect("recorded");
    assert_eq!(event.action, "session.refuse");
    assert_eq!(event.detail.as_deref(), Some("no grant"));

    let allowed = registry
        .authorize(Some(&bob), Some(&reachable), id(1), from, NOW, 300)
        .expect("allowed");
    assert_eq!(allowed.grant.user, "bob");
    assert_eq!(allowed.grant.device, [1; 32]);
    assert_eq!(allowed.grant.role, Role::Control);
    let drawn = registry
        .authorize_with(
            Some(&bob),
            Some(&reachable),
            id(1),
            from,
            Some(vec![9; 16]),
            NOW,
            300,
        )
        .expect("allowed");
    assert_eq!(drawn.grant.nonce, [9; 16]);
    assert_eq!(drawn.grant.expires_at, drawn.grant.issued_at + 300);
    assert_ne!(allowed.grant.nonce, drawn.grant.nonce);
    let refused = registry
        .authorize_with(Some(&bob), Some(&reachable), id(1), from, None, NOW, 300)
        .expect_err("nothing drawn");
    assert_eq!(refused.refusal, Refusal::NotAllowed);
    let signed = SignedGrant {
        grant: vec![1],
        signature: vec![2],
        server_certificate: vec![3],
    };
    let (grant, event) = granted(&allowed, Some(signed), id(1), from).expect("signed");
    assert_eq!(grant.grant, [1]);
    assert_eq!(event.action, "session.grant");
    assert_eq!(event.detail.as_deref(), Some("control"));
    assert!(matches!(
        granted(&allowed, None, id(1), from),
        Err(Refusal::NotAllowed)
    ));
}

#[test]
fn tries_to_enroll_are_counted_for_each_address_alone() {
    let mut registry = Registry::new(true, true);
    let (here, there) = (Ip::v4(192, 0, 2, 1), Ip::v4(192, 0, 2, 2));
    let mut allowed = 0;
    while registry.may_enroll(Some(&key(1)), here, 0).is_ok() {
        allowed += 1;
        assert!(allowed < 1_000, "tries run out");
    }
    assert!(allowed > 0);
    assert_eq!(
        registry.may_enroll(Some(&key(1)), here, 0),
        Err(Refusal::TooManyAttempts)
    );
    assert_eq!(registry.may_enroll(Some(&key(1)), there, 0), Ok(()));
}

#[test]
fn enrolling_is_recorded_and_makes_a_device_managed() {
    let mut registry = Registry::new(true, true);
    let from = Ip::v4(192, 0, 2, 1);
    assert_eq!(
        registry.may_enroll(None, from, 0),
        Err(Refusal::NoCertificate)
    );
    assert_eq!(registry.may_enroll(Some(&key(1)), from, 0), Ok(()));
    let (answer, event) = registry.enrolled(
        id(1),
        &key(1),
        &Err(Refused::Forbidden),
        "PC-1",
        from,
    );
    assert!(matches!(answer, FromServer::Refused(Refusal::Enrollment)));
    let event = event.expect("recorded");
    assert_eq!(event.action, "device.enroll_fail");
    assert_eq!(event.target.as_deref(), Some("PC-1"));
    assert_eq!(event.detail.as_deref(), Some("not allowed"));

    registry
        .register(Some(key(1)), id(1), vec![], address("203.0.113.7:6000"), false)
        .expect("registers");
    assert!(!registry.agent(id(1)).expect("here").enrolled);
    registry.now_managed(id(1), &key(2));
    assert!(!registry.agent(id(1)).expect("here").enrolled, "not its key");
    registry.now_managed(id(1), &key(1));
    assert!(registry.agent(id(1)).expect("here").enrolled);

    let mut unmanaged = Registry::new(false, false);
    assert_eq!(
        unmanaged.may_enroll(Some(&key(1)), from, 0),
        Err(Refusal::Enrollment)
    );
}

#[test]
fn a_punch_opens_the_way_through_a_nat() {
    let mut net = Net::new();
    let nat = public(1, 0).ip;
    net.add_nat(nat, NatKind::PortRestricted);
    let agent = private(1, 2, 5000);
    let server = public(9, 443);
    let viewer = public(20, 6000);
    net.socket(agent, Some(nat));
    net.socket(server, None);
    net.socket(viewer, None);
    net.send(agent, server, b"register");
    let seen = net.received(server)[0].from;
    net.send(viewer, seen, b"hello");
    assert!(net.received(agent).is_empty());
    // The punch opens the way.
    net.send(agent, viewer, b"punch");
    net.send(viewer, seen, b"hello");
    assert_eq!(net.received(agent).len(), 1);
}

// --- The clients' side -------------------------------------------------------

#[test]
fn an_agent_waits_longer_each_time_it_is_lost() {
    let mut backoff = Backoff::new();
    assert_eq!(backoff.lost(false), RECONNECT_FIRST);
    assert_eq!(backoff.lost(false), 2 * RECONNECT_FIRST);
    for _ in 0..10 {
        backoff.lost(false);
    }
    assert_eq!(backoff.lost(false), RECONNECT_MAX);
    assert_eq!(backoff.lost(true), RECONNECT_FIRST, "it was registered");
}

#[test]
fn answers_are_what_was_asked_for_or_a_failure() {
    let observed = address("203.0.113.7:6000");
    assert!(matches!(
        registered(Some(FromServer::Registered { id: id(1), observed })),
        Ok((found, seen)) if found == id(1) && seen == observed
    ));
    assert!(matches!(
        registered(Some(FromServer::Refused(Refusal::IdTaken))),
        Err(Failure::Refused(Refusal::IdTaken))
    ));
    assert!(matches!(registered(None), Err(Failure::Unexpected)));
    assert!(matches!(
        enrolled(Some(FromServer::Enrolled { id: id(2) })),
        Ok(found) if found == id(2)
    ));
    assert!(matches!(enrolled(None), Err(Failure::Unexpected)));
    assert!(matches!(
        offered(Some(FromServer::Offered(None))),
        Ok(None)
    ));
    assert!(matches!(
        offered(Some(FromServer::Refused(Refusal::Busy))),
        Err(Failure::Refused(Refusal::Busy))
    ));
    assert!(viewer_coming(FromServer::Enrolled { id: id(1) }).is_none());
    assert!(matches!(
        viewer_coming(FromServer::Incoming {
            session: 3,
            addresses: vec![observed]
        }),
        Some((3, addresses)) if addresses == [observed]
    ));
    assert!(fetch_limit(100) >= 100);
}

#[test]
fn an_introduction_takes_the_key_the_id_is_of() {
    let mut meeting = Introduction::new(id(1));
    let peer = || FromServer::Peer {
        fingerprint: key(1),
        addresses: vec![],
    };
    assert!(matches!(
        meeting.next(Some(peer()), id(2)),
        Met::WrongKey
    ));
    assert!(matches!(
        meeting.next(Some(peer()), id(1)),
        Met::Peer { .. }
    ));
    assert!(matches!(
        meeting.next(Some(FromServer::Refused(Refusal::Offline)), id(1)),
        Met::Refused(Refusal::Offline)
    ));
    assert!(matches!(meeting.next(None, id(1)), Met::Unexpected));
    assert!(meeting.granted().is_err());
}

#[test]
fn a_direct_way_is_preferred_while_there_is_hope_of_one() {
    let mut ways = Ways::new();
    assert_eq!(ways.prefer_direct(Attempt::RelayMade), Choice::StartGrace);
    assert_eq!(
        ways.prefer_direct(Attempt::DirectMade),
        Choice::TakeDirect {
            close_relayed: true
        }
    );
    let mut ways = Ways::new();
    assert_eq!(ways.prefer_direct(Attempt::RelayMade), Choice::StartGrace);
    assert_eq!(ways.prefer_direct(Attempt::GraceOver), Choice::TakeRelayed);
    let mut ways = Ways::new();
    assert_eq!(ways.prefer_direct(Attempt::DirectFailed), Choice::Wait);
    assert_eq!(ways.prefer_direct(Attempt::RelayMade), Choice::TakeRelayed);
    let mut ways = Ways::new();
    assert_eq!(ways.prefer_direct(Attempt::DirectFailed), Choice::Wait);
    assert_eq!(ways.prefer_direct(Attempt::RelayFailed), Choice::Fail);
    assert!(no_way("a", "b").contains('a'));
    assert!(race_lost(&["x".to_owned(), "y".to_owned()]).contains("x"));
}

#[test]
fn a_path_is_told_by_its_far_end() {
    assert_eq!(path_of(address("192.168.1.20:5000")), Path::Local);
    assert_eq!(path_of(address("203.0.113.7:443")), Path::Internet);
    assert_eq!(
        path_of(nearhand::transport::relay::relayed_address(7)),
        Path::Relayed
    );
    let local = address("0.0.0.0:5000");
    let outward = Ip::v4(192, 168, 1, 20);
    assert_eq!(
        own_address(Some(local), Some(outward)),
        Some(Address::new(outward, 5000))
    );
    assert_eq!(own_address(None, Some(outward)), None);
}
