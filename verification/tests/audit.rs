use nearhand::net::Ip;
use nearhand::server::accounts::{Accounts, Login, SetupToken};
use nearhand::server::audit::{Audit, Entry, Event};
use nearhand::server::housekeeping::{sweep, Swept};

const DAY: i64 = 24 * 3600;
const NOW: i64 = 1_800_000_000;

#[test]
fn entries_come_back_newest_first_a_page_at_a_time() {
    let mut audit = Audit::new();
    for n in 0..5 {
        assert!(audit.record(
            &Event {
                actor: Some("ada".to_owned()),
                // 192.0.2.1
                address: Some(Ip::V4(0xC000_0201)),
                action: "user.create".to_owned(),
                target: Some(format!("user{n}")),
                detail: None,
            },
            NOW,
        ));
    }
    let first = audit.entries(None, 2);
    let targets: Vec<_> = first.iter().map(|e| e.target.as_deref()).collect();
    assert_eq!(targets, [Some("user4"), Some("user3")]);
    assert_eq!(first[0].address.as_deref(), Some("192.0.2.1"));
    let next = audit.entries(Some(first[1].id), 10);
    assert_eq!(next.len(), 3);
    assert_eq!(next[0].target.as_deref(), Some("user2"));
}

#[test]
fn the_server_itself_can_be_the_actor() {
    let mut audit = Audit::new();
    audit.record(
        &Event {
            actor: None,
            address: None,
            action: "device.enroll".to_owned(),
            target: Some("PC-1".to_owned()),
            detail: None,
        },
        NOW,
    );
    let entries = audit.entries(None, 10);
    assert_eq!(entries[0].actor, None);
    assert_eq!(entries[0].action, "device.enroll");
}

#[test]
fn a_page_has_what_was_asked_for_and_at_most_five_hundred() {
    let mut audit = Audit::new();
    for _ in 0..600 {
        audit.record(
            &Event {
                actor: None,
                address: None,
                action: "tick".to_owned(),
                target: None,
                detail: None,
            },
            NOW,
        );
    }
    assert_eq!(audit.entries(None, 0).len(), 0);
    assert_eq!(audit.entries(None, 1).len(), 1);
    assert_eq!(audit.entries(None, 1000).len(), 500);
}

#[test]
fn an_address_in_ipv6_clothes_is_written_plainly() {
    let mut audit = Audit::new();
    audit.record(
        &Event {
            actor: None,
            // ::ffff:192.0.2.1
            address: Some(Ip::V6(0xffff_c000_0201)),
            action: "login.fail".to_owned(),
            target: None,
            detail: None,
        },
        NOW,
    );
    assert_eq!(
        audit.entries(None, 1)[0].address.as_deref(),
        Some("192.0.2.1")
    );
}

fn filled() -> (Accounts, Audit) {
    let mut audit = Audit::new();
    for (i, (at, action)) in [
        (NOW - 400 * DAY, "long ago"),
        (NOW - 366 * DAY, "a year and a day ago"),
        (NOW - 300 * DAY, "within the year"),
        (NOW - DAY, "yesterday"),
    ]
    .into_iter()
    .enumerate()
    {
        audit.entries.push(Entry {
            id: i as i64 + 1,
            at,
            actor: None,
            address: None,
            action: action.to_owned(),
            target: None,
            detail: None,
        });
    }
    let mut accounts = Accounts::new();
    for (hash, expires_at) in [(b"expired", NOW - 60), (b"current", NOW + 60)] {
        accounts.logins.push(Login {
            token_hash: hash.to_vec(),
            user: 1,
            created_at: 0,
            expires_at,
        });
    }
    for (hash, expires_at) in [(b"stale", NOW - 1), (b"fresh", NOW + DAY)] {
        accounts.setup_tokens.push(SetupToken {
            token_hash: hash.to_vec(),
            expires_at,
        });
    }
    (accounts, audit)
}

#[test]
fn what_is_past_its_time_goes_and_the_rest_stays() {
    let (mut accounts, mut audit) = filled();
    let swept = sweep(&mut accounts, &mut audit, 365, NOW);
    assert_eq!(
        swept,
        Swept {
            audit_entries: 2,
            sessions: 1,
            setup_tokens: 1,
        }
    );
    assert_eq!(audit.entries.len(), 2, "the year that is kept");
    assert_eq!(accounts.logins.len(), 1, "the session in use");
    assert_eq!(accounts.setup_tokens.len(), 1, "the link still good");

    // Again on the same day: there is nothing left to take.
    let swept = sweep(&mut accounts, &mut audit, 365, NOW);
    assert!(swept.nothing(), "{swept:?}");
}

#[test]
fn zero_days_keeps_the_audit_log_whole() {
    let (mut accounts, mut audit) = filled();
    let swept = sweep(&mut accounts, &mut audit, 0, NOW);
    assert_eq!(swept.audit_entries, 0);
    assert_eq!(audit.entries.len(), 4);
    // Sessions and setup tokens still go: nothing reads them again.
    assert_eq!(swept.sessions, 1);
    assert_eq!(swept.setup_tokens, 1);
}

#[test]
fn a_short_retention_leaves_only_what_is_recent() {
    let (mut accounts, mut audit) = filled();
    let swept = sweep(&mut accounts, &mut audit, 7, NOW);
    assert_eq!(swept.audit_entries, 3);
    assert_eq!(audit.entries.len(), 1, "yesterday's");
}
