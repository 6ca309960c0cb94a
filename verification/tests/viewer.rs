use nearhand::input::{denormalise, Input};
use nearhand::net::Address;
use nearhand::protocol::{DeviceId, Role};
use nearhand::transport::fingerprint::Fingerprint;
use nearhand::transport::rendezvous::Route;
use nearhand::viewer::devices::{pick, table, Listed};
use nearhand::viewer::fit::{fit_scale, fit_uniform, normalise, Fit, Ratio};
use nearhand::viewer::frames::{can_grow, slot_size, FrameReady, Plan, Ring};
use nearhand::viewer::keys::{hid_usage, Forwarder, KeyCode, MouseButton};
use nearhand::viewer::known::{judge, parse, Continuity, Judgement, Known};
use nearhand::viewer::latency::{percentile, Latency};
use nearhand::viewer::options::{
    connect_token, forgotten, frame_rate, monitor_line, name_needs_token, route, Target,
};
use nearhand::viewer::overlay::{losses_text, monitors_text, Losses};
use nearhand::viewer::pace::{
    coalesce, repair_timing, repair_wait, LossSimulator, Pace, Stats, KEYFRAME_REQUEST_INTERVAL,
};
use nearhand::viewer::reconnect::{
    ended, explain, gave_up, trying_again, Attempt, CloseCodes, Closed, Ending, Next, Reconnect,
    RECONNECT_FIRST, RECONNECT_FOR,
};
use nearhand::viewer::running::{Happening, Reaction, Running};
use nearhand::viewer::screen::{Fresh, Screen};
use nearhand::viewer::session::{next_monitor, Monitor, Opening, Reply, Required, Step, Wanted};
use nearhand::viewer::streams::{
    clipboard, cursor, opened, Broken, Change, Opened, Read, StreamKind, Taken,
};
use nearhand::viewer::window::{
    shortcut, waiting, Clock, Draw, Key, Modifiers, Shortcut, Waiting, CONNECT_TIMEOUT,
    IDLE_REFRESH, REPORT_EVERY,
};

fn id(value: u64) -> DeviceId {
    DeviceId::new(value).expect("a ten-digit id")
}

fn fingerprint(byte: u8) -> Fingerprint {
    Fingerprint::from_bytes([byte; 32])
}

fn address(text: &str) -> Address {
    let chars: Vec<char> = text.chars().collect();
    Address::parse(&chars).expect("address")
}

// --- Devices by name ---------------------------------------------------------

fn listed(number: u64, name: &str, online: bool) -> Listed {
    Listed {
        id: id(number),
        name: name.to_owned(),
        online,
        role: Role::Control,
    }
}

#[test]
fn devices_are_listed_online_first_with_what_was_left_out() {
    let out = table(
        &[
            listed(1_111_111_111, "ARCHIVE", false),
            listed(2_222_222_222, "RECEPTION-PC", true),
        ],
        3,
    );
    let lines: Vec<&str> = out.lines().collect();
    assert!(lines[0].starts_with("ID"), "{out}");
    assert!(
        lines[1].starts_with("222 222 2222  yes      control  RECEPTION-PC"),
        "{out}"
    );
    assert!(lines[2].starts_with("111 111 1111  no"), "{out}");
    assert!(lines[3].contains("3 more"), "{out}");
}

#[test]
fn a_device_is_picked_by_its_name_whatever_the_case() {
    let devices = [
        listed(1_111_111_111, "ARCHIVE", false),
        listed(2_222_222_222, "RECEPTION-PC", true),
        listed(3_333_333_333, "Reception-Laptop", true),
    ];
    assert_eq!(
        pick(&devices, 0, "reception-pc").expect("found"),
        id(2_222_222_222)
    );
    let missed = pick(&devices, 0, "reception").expect_err("no such name");
    assert!(missed.contains("RECEPTION-PC (222 222 2222)"), "{missed}");
    assert!(missed.contains("Reception-Laptop"), "{missed}");
    let unknown = pick(&devices, 4, "kitchen").expect_err("none");
    assert!(unknown.contains("among the 3"), "{unknown}");
    assert!(unknown.contains("4 more"), "{unknown}");
}

#[test]
fn names_are_told_apart_as_unicode_has_it() {
    let devices = [listed(1_111_111_111, "KÜCHE", true)];
    assert_eq!(pick(&devices, 0, " küche ").expect("found"), id(1_111_111_111));
}

#[test]
fn two_devices_with_one_name_are_not_guessed_between() {
    let devices = [
        listed(1_111_111_111, "PC", true),
        listed(2_222_222_222, "pc", false),
    ];
    let error = pick(&devices, 0, "PC").expect_err("ambiguous");
    assert!(
        error.contains("111 111 1111") && error.contains("222 222 2222"),
        "{error}"
    );
}

#[test]
fn no_devices_says_why() {
    let said = table(&[], 0);
    assert!(said.contains("no grants"), "{said}");
    assert!(
        !said.contains("  ") && said.lines().count() == 1,
        "one tidy line: {said}"
    );
}

// --- Known devices -----------------------------------------------------------

#[test]
fn a_device_is_new_once_and_the_same_after() {
    let mut known = Known::new();
    assert!(matches!(
        known.check(id(1), fingerprint(7)),
        Continuity::First
    ));
    known.remember(id(1), fingerprint(7));
    assert!(matches!(
        known.check(id(1), fingerprint(7)),
        Continuity::Same
    ));
    assert!(matches!(
        known.check(id(1), fingerprint(8)),
        Continuity::Changed { known } if known == fingerprint(7)
    ));
    // Another device is its own story.
    assert!(matches!(
        known.check(id(2), fingerprint(7)),
        Continuity::First
    ));
}

#[test]
fn what_is_written_reads_back() {
    let mut known = Known::new();
    known.remember(id(1_234_567_890), fingerprint(3));
    known.remember(id(42), fingerprint(4));
    let text = known.to_text();
    assert!(text.contains("1234567890 "), "{text}");
    // Ten digits, leading zeros and all, as a device shows its ID.
    assert!(text.contains("\n0000000042 "), "{text}");
    assert_eq!(parse(&text).devices(), known.devices());
}

#[test]
fn a_forgotten_device_is_new_again_and_the_file_says_so() {
    let mut known = Known::new();
    known.remember(id(1), fingerprint(7));
    known.remember(id(2), fingerprint(8));

    assert_eq!(known.forget(id(1)), Some(fingerprint(7)));
    assert!(matches!(
        known.check(id(1), fingerprint(9)),
        Continuity::First
    ));
    assert_eq!(known.forget(id(1)), None, "nothing left to forget");

    let read = parse(&known.to_text());
    assert_eq!(read.devices(), [(id(2), fingerprint(8))]);
}

#[test]
fn lines_that_make_no_sense_are_skipped_not_fatal() {
    let text = "# a comment\n\nnonsense\n12 not-a-fingerprint\n0000000007 ".to_owned()
        + &fingerprint(9).text()
        + "\n";
    let devices = parse(&text).devices();
    assert_eq!(devices.len(), 1);
    assert_eq!(devices[0], (id(7), fingerprint(9)));
}

#[test]
fn another_key_than_last_time_stops_a_session_unless_trusted() {
    let changed = || Continuity::Changed {
        known: fingerprint(7),
    };
    match judge(changed(), id(1), fingerprint(8), false) {
        Judgement::Stop(why) => {
            assert!(why.contains("answered with another key than last time"), "{why}");
            assert!(why.contains(&fingerprint(7).text()));
            assert!(why.contains(&fingerprint(8).text()));
        }
        other => panic!("{other:?}"),
    }
    assert!(matches!(
        judge(changed(), id(1), fingerprint(8), true),
        Judgement::WriteDown(_)
    ));
    assert!(matches!(
        judge(Continuity::Same, id(1), fingerprint(8), false),
        Judgement::GoOn
    ));
}

// --- Keys and pointer --------------------------------------------------------

#[test]
fn every_mapped_key_has_its_own_usage() {
    let mut seen = std::collections::HashSet::new();
    for code in [
        KeyCode::KeyA,
        KeyCode::KeyZ,
        KeyCode::Digit0,
        KeyCode::Enter,
        KeyCode::F12,
        KeyCode::F13,
        KeyCode::NumLock,
        KeyCode::IntlBackslash,
        KeyCode::ControlLeft,
        KeyCode::SuperRight,
    ] {
        let usage = hid_usage(code).expect("mapped");
        assert!(seen.insert(usage), "{code:?} reuses {usage:#04x}");
    }
}

#[test]
fn losing_focus_lets_go_of_what_is_held() {
    let mut forwarder = Forwarder::new();
    assert!(matches!(
        forwarder.key(KeyCode::KeyA, true, None),
        Some(Input::Key {
            scancode: 0x04,
            down: true
        })
    ));
    forwarder.button(MouseButton::Left, true);
    let events = forwarder.focus(false);
    assert_eq!(events.len(), 2);
    assert!(events.iter().all(|e| matches!(
        e,
        Input::Key { down: false, .. } | Input::MouseButton { down: false, .. }
    )));
    assert!(
        forwarder.cursor((1, 1), (10, 10), (10, 10)).is_none(),
        "not this window's pointer"
    );
    assert!(matches!(
        forwarder.secure_attention(),
        Input::SecureAttention
    ));
    assert!(forwarder.wheel(0, 0).is_none());
    assert!(forwarder.button(MouseButton::Other, true).is_none());
}

#[test]
fn next_monitor_cycles_in_id_order() {
    let monitors = |ids: &[u8]| -> Vec<Monitor> {
        ids.iter()
            .map(|&id| Monitor {
                id,
                width: 1920,
                height: 1080,
                x: 0,
                y: 0,
                primary: id == 0,
            })
            .collect()
    };
    assert_eq!(next_monitor(&monitors(&[0, 1, 2]), 0), Some(1));
    assert_eq!(next_monitor(&monitors(&[2, 0, 1]), 2), Some(0));
    assert_eq!(next_monitor(&monitors(&[0]), 0), None);
    assert_eq!(next_monitor(&[], 0), None);
}

#[test]
fn stale_pointer_positions_are_not_sent() {
    let moved = |x| Input::MouseMove { x, y: 0 };
    let batch = [
        moved(1),
        moved(2),
        Input::Key {
            scancode: 4,
            down: true,
        },
        moved(3),
        moved(4),
    ];
    assert_eq!(coalesce(&batch), [1, 2, 4]);
}

#[test]
fn some_keys_are_the_windows_own() {
    let control_shift = Modifiers {
        control: true,
        shift: true,
        alt: false,
        logo: false,
    };
    let control_alt = Modifiers {
        control: true,
        shift: false,
        alt: true,
        logo: false,
    };
    assert_eq!(
        shortcut(Key::F1, true, false, false, control_shift),
        Shortcut::Overlay
    );
    assert_eq!(
        shortcut(Key::F2, true, false, false, control_shift),
        Shortcut::NextMonitor
    );
    assert_eq!(
        shortcut(Key::F3, true, false, false, control_shift),
        Shortcut::TypeClipboard
    );
    assert_eq!(
        shortcut(Key::End, true, false, false, control_alt),
        Shortcut::SecureAttention
    );
    assert_eq!(
        shortcut(Key::F1, false, false, false, control_shift),
        Shortcut::Forward,
        "let go of"
    );
    assert_eq!(
        shortcut(Key::F1, true, false, false, control_alt),
        Shortcut::Forward
    );
    assert_eq!(
        shortcut(Key::Other, true, false, true, control_alt),
        Shortcut::Ignore
    );
}

// --- Frames and numbers ------------------------------------------------------

fn ready(capture: u64, received: u64, decoded: u64) -> FrameReady {
    FrameReady {
        slot: 0,
        fence_value: 1,
        capture_ts_us: capture,
        received_us: received,
        decoded_us: decoded,
        skipped: 0,
        size: (1920, 1080),
    }
}

#[test]
fn splits_latency_into_stages() {
    let mut latency = Latency::new();
    latency.record(
        &ready(1_010_000, 22_000, 23_500),
        26_000,
        Some(1_000_000),
        0,
    );
    let s = latency.summary();
    assert_eq!(s.total_p50, Some(16_000));
    assert_eq!(s.network_p50, Some(12_000));
    assert_eq!(s.decode_p50, 1_500);
    assert_eq!(s.render_p50, 2_500);
}

#[test]
fn totals_wait_for_the_clock_offset() {
    let mut latency = Latency::new();
    latency.record(&ready(5_000, 6_000, 7_000), 8_000, None, 0);
    let s = latency.summary();
    assert_eq!(s.total_p50, None);
    assert_eq!(s.render_p50, 1_000);
}

#[test]
fn percentiles_pick_from_sorted_samples() {
    assert_eq!(percentile(&[3, 1, 2], 1, 2), Some(2));
    assert_eq!(percentile(&[], 1, 2), None);
}

#[test]
fn a_slot_being_drawn_is_not_overwritten() {
    let mut ring = Ring::new();
    let size = (1920, 1080);
    for value in 1..=3u64 {
        assert!(matches!(
            ring.place(1, Some(size), size, 0),
            Plan::Show { value: v, .. } if v == value
        ));
    }
    assert!(matches!(ring.place(1, Some(size), size, 0), Plan::Behind));
    assert!(matches!(
        ring.place(1, Some(size), size, 1),
        Plan::Show { slot: 0, value: 4, skipped: 1 }
    ));
    assert!(matches!(ring.place(1, None, size, 1), Plan::Nothing));
    assert!(matches!(
        ring.place(1, Some((3840, 2160)), size, 1),
        Plan::TooLarge
    ));
}

#[test]
fn slots_are_big_enough_for_any_monitor() {
    let tall = Monitor {
        id: 1,
        width: 1080,
        height: 1920,
        x: 0,
        y: 0,
        primary: false,
    };
    assert_eq!(slot_size((1920, 1080), &[tall]), (1920, 1920));
    assert!(can_grow((4096, 2160), 16_384).is_ok());
    let refused = can_grow((20_000, 2160), 16_384).expect_err("too large");
    assert!(refused.contains("20000x2160"), "{refused}");
}

#[test]
fn repairs_are_asked_for_at_the_pace_of_the_round_trip() {
    let timing = repair_timing(40_000);
    assert_eq!(timing.quiet_us, 45_000);
    assert_eq!(timing.retry_us, 70_000);
    assert_eq!(timing.give_up_us, 180_000);
    assert_eq!(repair_wait(5_000, 4_900), 1_000);
    assert_eq!(repair_wait(50_000, 10_000), 40_000);
}

#[test]
fn keyframes_are_asked_for_now_and_then() {
    let mut pace = Pace::new(0, Some(10_000_000));
    assert!(pace.keyframe(0, true));
    assert!(!pace.keyframe(1_000, true), "too soon");
    assert!(
        pace.keyframe(KEYFRAME_REQUEST_INTERVAL, false),
        "still needed"
    );
    assert!(!pace.keyframe(10 * KEYFRAME_REQUEST_INTERVAL, false));
    let tick = pace.tick(10_000_000, false);
    assert!(tick.finish);
}

#[test]
fn what_arrives_is_counted() {
    let mut stats = Stats::new();
    assert!(stats.datagram(1200, false, true));
    assert!(!stats.datagram(1200, true, true), "lost on purpose");
    assert!(!stats.datagram(1200, false, false));
    stats.frame(true);
    stats.frame(false);
    assert_eq!(stats.datagrams, 3);
    assert_eq!(stats.simulated_drops, 1);
    assert_eq!(stats.undecodable, 1);
    assert_eq!(stats.keyframes, 1);
    let (frames, bytes) = stats.window();
    assert_eq!((frames, bytes), (2, 3600));
    assert_eq!(stats.window(), (0, 0));
}

#[test]
fn simulated_loss_is_none_or_all_at_the_ends() {
    let mut none = LossSimulator::new(0, 99);
    let mut all = LossSimulator::new(200, 99);
    for _ in 0..100 {
        assert!(!none.drop_this());
        assert!(all.drop_this());
    }
}

#[test]
fn the_window_draws_what_is_fresh_or_now_and_then() {
    let mut clock = Clock::new(0, Some(5_000_000));
    assert_eq!(clock.turn(10, true).draw, Draw::Fresh);
    assert_eq!(clock.turn(10, false).draw, Draw::Nothing);
    assert_eq!(clock.turn(IDLE_REFRESH, false).draw, Draw::Again);
    clock.drawn(IDLE_REFRESH);
    assert_eq!(clock.turn(IDLE_REFRESH + 1, false).draw, Draw::Nothing);
    assert!(clock.turn(REPORT_EVERY, false).report);
    assert!(!clock.turn(REPORT_EVERY + 1, false).report);
    assert!(clock.turn(5_000_000, false).exit);
    assert_eq!(waiting(Some((2, 3)), true, 0), Waiting::Open(2, 3));
    assert_eq!(waiting(None, true, 0), Waiting::Ended);
    assert_eq!(waiting(None, false, CONNECT_TIMEOUT), Waiting::Wait);
    assert_eq!(waiting(None, false, CONNECT_TIMEOUT + 1), Waiting::TimedOut);
}

// --- Sessions ----------------------------------------------------------------

fn hello(version: u32) -> Reply {
    Reply::Hello {
        version,
        h264: true,
        codecs: "[H264]".to_owned(),
    }
}

fn one_monitor() -> Reply {
    Reply::MonitorList(vec![Monitor {
        id: 0,
        width: 1920,
        height: 1080,
        x: 0,
        y: 0,
        primary: true,
    }])
}

fn required(takes_grants: bool, has_secret: bool, after: bool, enough: bool) -> Reply {
    Reply::AuthRequired(Required {
        takes_grants,
        has_secret,
        password_after_grant: after,
        password_is_enough: enough,
    })
}

#[test]
fn a_session_opens_with_a_hello_and_a_monitor() {
    let mut opening = Opening::new(3, 0, false);
    assert!(matches!(opening.next(hello(3)), Step::Wait));
    assert!(!opening.has_reached());
    assert!(matches!(
        opening.next(one_monitor()),
        Step::Watch {
            width: 1920,
            height: 1080
        }
    ));
    assert!(opening.has_reached());
}

#[test]
fn a_password_is_proved_before_the_picture() {
    let mut opening = Opening::new(3, 0, false);
    opening.next(hello(3));
    assert!(matches!(
        opening.next(required(false, true, false, true)),
        Step::Prove
    ));
    assert!(matches!(opening.next(Reply::AuthAnswer), Step::SendProof));
    assert!(matches!(opening.next(Reply::AuthProved), Step::CheckProof));
    assert!(matches!(
        opening.next(Reply::AwaitingApproval),
        Step::Announce
    ));
    assert!(matches!(opening.next(one_monitor()), Step::Watch { .. }));
}

#[test]
fn what_does_not_fit_is_refused() {
    let mut opening = Opening::new(3, 0, false);
    assert!(matches!(
        opening.next(hello(4)),
        Step::Refuse(why) if why == "the agent speaks protocol 4, this viewer 3"
    ));
    let mut opening = Opening::new(3, 5, false);
    opening.next(hello(3));
    assert!(matches!(
        opening.next(one_monitor()),
        Step::Refuse(why) if why == "the agent has no monitor 5; it has 1"
    ));
    let mut granted = Opening::new(3, 0, true);
    granted.next(hello(3));
    assert!(matches!(
        granted.next(required(false, true, false, true)),
        Step::Refuse(why) if why == "this device takes a password, not a grant from a server"
    ));
    let mut plain = Opening::new(3, 0, false);
    plain.next(hello(3));
    assert!(matches!(
        plain.next(required(true, true, true, false)),
        Step::Refuse(why)
            if why == "this device needs a grant from its server as well as its password; sign in to it first"
    ));
    let mut odd = Opening::new(3, 0, false);
    assert!(matches!(
        odd.next(Reply::Other),
        Step::Unexpected(Wanted::Hello)
    ));
    assert_eq!(Wanted::Hello.message(), "expected Hello");
}

#[test]
fn a_grant_is_presented_and_a_password_follows_where_both_are_asked_for() {
    let mut opening = Opening::new(3, 0, true);
    opening.next(hello(3));
    assert!(matches!(
        opening.next(required(true, false, false, false)),
        Step::Present
    ));
    let mut both = Opening::new(3, 0, true);
    both.next(hello(3));
    assert!(matches!(
        both.next(required(true, true, true, false)),
        Step::PresentAndProve
    ));
}

const CODES: CloseCodes = CloseCodes {
    normal: 0,
    going_away: 5,
};

#[test]
fn a_viewer_comes_back_to_what_went_away_and_not_to_a_refusal() {
    let mut run = Reconnect::new();
    assert_eq!(run.after(Attempt::Lost, false, 0), Next::Fail, "never got in");
    let mut run = Reconnect::new();
    assert_eq!(
        run.after(Attempt::Lost, true, 0),
        Next::Retry {
            wait: RECONNECT_FIRST
        }
    );
    assert!(run.waited(RECONNECT_FIRST, None));
    assert_eq!(
        run.after(Attempt::Lost, false, RECONNECT_FIRST),
        Next::Retry {
            wait: 2 * RECONNECT_FIRST
        }
    );
    assert_eq!(
        run.after(Attempt::Lost, false, RECONNECT_FOR),
        Next::GiveUp
    );
    let mut run = Reconnect::new();
    assert_eq!(run.after(Attempt::Refused, true, 0), Next::Fail);
    let mut run = Reconnect::new();
    assert_eq!(run.after(Attempt::Ended, true, 0), Next::Finish);
    assert!(gave_up("123 456 7890").contains("123 456 7890"));
    assert!(trying_again("x", "gone", RECONNECT_FIRST).contains("gone"));
}

#[test]
fn the_end_of_a_connection_is_explained() {
    let closed = |code: u64| Closed::ByAgent {
        code,
        reason: "ended at the host".to_owned(),
    };
    assert!(matches!(ended(&closed(0), CODES), Ending::Over(Some(_))));
    assert!(matches!(
        explain(&closed(3), CODES),
        Ending::Refused(why) if why == "agent closed the connection: ended at the host (code 3)"
    ));
    assert!(matches!(explain(&closed(5), CODES), Ending::Lost(_)));
    assert!(matches!(ended(&Closed::Locally, CODES), Ending::Over(None)));
    assert!(matches!(
        explain(&Closed::Lost("timed out".to_owned()), CODES),
        Ending::Lost(why) if why == "connection lost: timed out"
    ));
    assert!(matches!(
        explain(&Closed::NotClosed, CODES),
        Ending::Unexplained
    ));
}

#[test]
fn streams_are_what_they_claim_or_end_the_connection() {
    assert_eq!(
        opened(Read::Message(StreamKind::Cursor)),
        Opened::ReadCursor
    );
    assert_eq!(
        opened(Read::Message(StreamKind::Clipboard)),
        Opened::ReadClipboard
    );
    assert_eq!(opened(Read::End), Opened::Ignore);
    assert_eq!(opened(Read::Message(StreamKind::Input)), Opened::Close);
    assert_eq!(
        clipboard(Read::Message(11), 10, true, false),
        Taken::Close(Broken::ClipboardTooLarge)
    );
    assert_eq!(clipboard(Read::Message(10), 10, true, false), Taken::Apply);
    assert_eq!(clipboard(Read::Message(10), 10, false, false), Taken::Skip);
    assert_eq!(clipboard(Read::Malformed, 10, true, true), Taken::Stop);
    assert_eq!(
        clipboard(Read::Malformed, 10, true, false),
        Taken::Close(Broken::MalformedClipboard)
    );
    assert_eq!(
        cursor(Read::Message(Change::Shape { valid: false }), true, false),
        Taken::Close(Broken::InvalidShape)
    );
    assert_eq!(
        cursor(Read::Message(Change::Shape { valid: true }), true, false),
        Taken::Apply
    );
    assert_eq!(cursor(Read::End, true, false), Taken::Stop);
    assert_eq!(
        cursor(Read::Malformed, true, false),
        Taken::Close(Broken::MalformedCursor)
    );
    assert_eq!(Broken::UnexpectedStream.reason(), "unexpected stream");
}

// --- What the viewer is asked ------------------------------------------------

#[test]
fn a_password_leaves_the_environments_token_alone() {
    let env = || Some("nht_env".to_owned());
    assert_eq!(
        connect_token(Some("nht_given".to_owned()), env(), true).as_deref(),
        Some("nht_given")
    );
    assert_eq!(
        connect_token(None, env(), false).as_deref(),
        Some("nht_env")
    );
    assert_eq!(connect_token(None, env(), true), None);
    assert_eq!(connect_token(None, Some(String::new()), false), None);
    assert!(name_needs_token("PC").starts_with("\"PC\" is not a device ID"));
    assert_eq!(frame_rate(0), 1);
    assert_eq!(frame_rate(60), 60);
    assert_eq!(route(true), Route::RelayOnly);
    assert_eq!(route(false), Route::Best);
}

#[test]
fn targets_and_monitors_are_written_for_people() {
    let direct = Target::Direct {
        address: address("192.168.1.20:4433"),
        fingerprint: fingerprint(1),
    };
    assert_eq!(direct.text(), "192.168.1.20:4433");
    let server = Target::Server {
        server: address("203.0.113.10:443"),
        server_fingerprint: fingerprint(1),
        id: id(1_234_567_890),
        route: Route::Best,
        token: None,
    };
    assert_eq!(server.text(), "123 456 7890");
    let monitor = Monitor {
        id: 0,
        width: 1920,
        height: 1080,
        x: -1920,
        y: 0,
        primary: true,
    };
    assert_eq!(
        monitor_line(&monitor, 0),
        " ▶ [0] 1920x1080 at -1920,0 (primary)"
    );
    assert!(forgotten(id(7), None).ends_with("there is nothing to forget."));
    assert!(forgotten(id(7), Some(fingerprint(2))).contains(&"02".repeat(32)));
}

// --- While the picture runs ---------------------------------------------------

fn monitor(id: u8) -> Monitor {
    Monitor {
        id,
        width: 1920,
        height: 1080,
        x: 0,
        y: 0,
        primary: id == 0,
    }
}

fn running(percent: u8) -> Running {
    Running::new(
        0,
        Some(5_000_000),
        LossSimulator::new(percent, 7),
        vec![monitor(0), monitor(1)],
        0,
    )
}

#[test]
fn what_happens_while_the_picture_runs() {
    let mut session = running(0);
    let datagram = |decodes| Happening::Datagram { bytes: 100, decodes };
    assert_eq!(session.on(datagram(true), 1), Reaction::Reassemble);
    assert_eq!(session.on(datagram(false), 1), Reaction::Drop);
    assert_eq!(session.stats.datagrams, 2);
    assert_eq!(session.stats.bytes, 200);
    assert_eq!(session.stats.undecodable, 1);
    assert_eq!(session.on(Happening::Pong, 1), Reaction::Synchronize);
    assert_eq!(session.on(Happening::Message, 1), Reaction::Carry);
    assert_eq!(session.on(Happening::RepairDue, 1), Reaction::Repair);
    assert_eq!(session.on(Happening::Closed, 1), Reaction::Leave);
    assert_eq!(session.on(Happening::Stop, 1), Reaction::Leave);
    assert_eq!(session.on(Happening::WindowClosed, 1), Reaction::Leave);
    assert_eq!(session.on(Happening::Lost, 1), Reaction::LeaveLost);
    session.delivered(true);
    assert_eq!((session.stats.frames, session.stats.keyframes), (1, 1));
}

#[test]
fn all_is_dropped_on_purpose_where_everything_is_to_be_lost() {
    let mut session = running(100);
    let came = Happening::Datagram {
        bytes: 1,
        decodes: true,
    };
    assert_eq!(session.on(came, 1), Reaction::Drop);
    assert_eq!(session.stats.simulated_drops, 1);
    assert_eq!(session.stats.undecodable, 0);
}

#[test]
fn only_monitors_there_are_can_be_watched() {
    let mut session = running(0);
    assert_eq!(session.on(Happening::Switch(1), 1), Reaction::Watch(1));
    assert_eq!(session.watching, 1);
    assert_eq!(session.on(Happening::Switch(2), 1), Reaction::Carry);
    assert_eq!(session.watching, 1);
    let more = vec![monitor(0), monitor(1), monitor(2)];
    assert_eq!(session.on(Happening::Monitors(more), 1), Reaction::Carry);
    assert_eq!(session.on(Happening::Switch(2), 1), Reaction::Watch(2));
}

#[test]
fn a_session_probes_reports_and_ends_on_time() {
    let mut session = running(0);
    let tick = |decoder_lost| Happening::Tick { decoder_lost };
    let beat = |ping, report, finish| Reaction::Beat {
        ping,
        report,
        finish,
    };
    assert_eq!(session.on(tick(false), 10), beat(true, false, false));
    assert_eq!(session.on(tick(false), 50_000), beat(false, false, false));
    assert_eq!(session.on(tick(true), 1_000_000), beat(true, true, false));
    assert!(session.asks(false, 1_000_000), "the decoder needs it");
    assert!(!session.asks(true, 1_000_001), "too soon");
    assert!(session.asks(false, 1_000_000 + KEYFRAME_REQUEST_INTERVAL));
    assert_eq!(session.stats.keyframe_requests, 2);
    assert_eq!(session.on(tick(false), 5_000_000), beat(true, true, true));
}

// --- The picture in the window ------------------------------------------------

fn float(ratio: Ratio) -> f32 {
    ratio.over as f32 / ratio.under as f32
}

fn floats(fit: Fit) -> Vec<f32> {
    [
        fit.scale.0,
        fit.scale.1,
        fit.part.0,
        fit.part.1,
        fit.limit.0,
        fit.limit.1,
    ]
    .iter()
    .map(|&r| float(r))
    .collect()
}

#[test]
fn a_smaller_picture_samples_only_its_corner_of_the_slot() {
    let f = floats(fit_uniform((1920, 1080), (1920, 1080), (2560, 1440)));
    assert_eq!(&f[0..2], &[1.0, 1.0]);
    assert_eq!(&f[2..4], &[0.75, 0.75]);
    assert!((f[4] - 1919.5 / 2560.0).abs() < 1e-6);
    assert!((f[5] - 1079.5 / 1440.0).abs() < 1e-6);
}

#[test]
fn a_full_size_picture_samples_the_whole_slot() {
    let f = floats(fit_uniform((2560, 1440), (1280, 720), (2560, 1440)));
    assert_eq!(&f[0..4], &[1.0, 1.0, 1.0, 1.0]);
}

fn scale(video: (u32, u32), window: (u32, u32)) -> (f32, f32) {
    let (x, y) = fit_scale(video, window);
    (float(x), float(y))
}

#[test]
fn same_aspect_fills_the_window() {
    assert_eq!(scale((2560, 1440), (1280, 720)), (1.0, 1.0));
}

#[test]
fn wider_window_letterboxes_the_sides() {
    let (x, y) = scale((1920, 1080), (2560, 1080));
    assert_eq!(y, 1.0);
    assert!((x - 0.75).abs() < 1e-6);
}

#[test]
fn taller_window_letterboxes_top_and_bottom() {
    let (x, y) = scale((1920, 1080), (1920, 1440));
    assert_eq!(x, 1.0);
    assert!((y - 0.75).abs() < 1e-6);
}

#[test]
fn no_size_at_all_is_taken_for_one_pixel() {
    let f = floats(fit_uniform((0, 0), (0, 0), (0, 0)));
    assert_eq!(&f[..], &[1.0, 1.0, 0.0, 0.0, 0.5, 0.5]);
}

fn at(x: f64, y: f64) -> (i64, i64) {
    ((x * 65536.0).floor() as i64, (y * 65536.0).floor() as i64)
}

#[test]
fn corners_of_a_filled_window_reach_the_corners_of_the_video() {
    let (window, video) = ((1280, 720), (2560, 1440));
    assert_eq!(normalise(at(0.0, 0.0), window, video), (0, 0));
    assert_eq!(normalise(at(1279.9, 719.9), window, video), (65535, 65535));
}

#[test]
fn letterbox_bars_clamp_to_the_edge() {
    // 16:9 video in a wider window: bars left and right.
    let (window, video) = ((2000, 720), (1280, 720));
    assert_eq!(normalise(at(10.0, 360.0), window, video).0, 0);
    assert_eq!(normalise(at(1990.0, 360.0), window, video).0, 65535);
    // The picture starts at x = 360.
    assert_eq!(normalise(at(360.0, 0.0), window, video).0, 0);
    assert_eq!(normalise(at(361.0, 0.0), window, video).0, 65535 / 1279);
}

#[test]
fn the_pointer_lands_within_a_pixel() {
    let (window, video) = ((1920, 1080), (1920, 1080));
    for pixel in 0..1920u16 {
        let (x, _) = normalise(at(f64::from(pixel) + 0.5, 0.0), window, video);
        let there = denormalise(x, 1920);
        assert!((there - i32::from(pixel)).abs() <= 1, "{pixel}: {there}");
    }
}

#[test]
fn the_wheel_keeps_what_is_too_little_to_send() {
    let mut forwarder = Forwarder::new();
    // A two-hundred-and-fortieth of a notch: half of what can be sent.
    let half = 65536 / 240;
    assert!(forwarder.wheel(0, half).is_none());
    assert!(forwarder.wheel(0, half).is_none());
    assert!(matches!(
        forwarder.wheel(0, half),
        Some(Input::Wheel { dx: 0, dy: 1 })
    ));
    // Left is negative on the way out.
    assert!(matches!(
        forwarder.wheel(65536, 0),
        Some(Input::Wheel { dx: -120, dy: 0 })
    ));
    assert!(matches!(
        forwarder.wheel(0, i64::MAX),
        Some(Input::Wheel { dx: 0, dy: i16::MAX })
    ));
}

// --- The screen, and the panel over it ---------------------------------------------

fn in_slot(slot: usize, fence_value: u64, size: (u32, u32)) -> FrameReady {
    FrameReady {
        slot,
        fence_value,
        capture_ts_us: 0,
        received_us: 0,
        decoded_us: 0,
        skipped: 0,
        size,
    }
}

#[test]
fn every_frame_gives_its_slot_back() {
    let mut screen = Screen::new((1920, 1080));
    let drawing = screen.draw(None, true);
    assert_eq!((drawing.slot, drawing.release), (None, None));

    screen.came(Fresh { frame: in_slot(0, 1, (1920, 1080)), ring: 0 });
    screen.came(Fresh { frame: in_slot(1, 2, (1280, 720)), ring: 0 });
    let fresh = screen.take_up();
    assert_eq!(fresh.map(|f| f.frame.fence_value), Some(2));
    assert!(screen.take_up().is_none());
    let drawing = screen.draw(fresh, true);
    assert_eq!(drawing.wait, Some(2));
    assert_eq!(drawing.slot, Some(1));
    assert_eq!(drawing.release, Some(2));
    assert!(drawing.measure);
    assert_eq!(screen.size, (1280, 720));

    // Nothing to draw into: the slot comes back all the same.
    let hidden = Fresh { frame: in_slot(2, 3, (1920, 1080)), ring: 0 };
    let drawing = screen.draw(Some(hidden), false);
    assert_eq!((drawing.wait, drawing.slot, drawing.release), (None, None, Some(3)));
    assert!(!drawing.measure);
    assert_eq!(screen.size, (1280, 720));
    assert_eq!(screen.draw(None, true).slot, Some(2));

    // The slots were replaced: what was in the old ones is not drawn.
    screen.grew();
    let late = Fresh { frame: in_slot(0, 4, (1920, 1080)), ring: 0 };
    let drawing = screen.draw(Some(late), true);
    assert_eq!((drawing.wait, drawing.slot, drawing.release), (None, None, Some(4)));
    let next = Fresh { frame: in_slot(1, 5, (1920, 1080)), ring: 1 };
    assert_eq!(screen.draw(Some(next), true).slot, Some(1));
}

fn monitor_called(id: u8) -> Monitor {
    Monitor {
        id,
        width: 1920,
        height: 1080,
        x: 0,
        y: 0,
        primary: id == 0,
    }
}

#[test]
fn the_panel_lists_monitors_where_there_are_several() {
    let several = [monitor_called(0), monitor_called(1), monitor_called(2)];
    assert_eq!(
        monitors_text(&several, 1).as_deref(),
        Some("monitor 0 ▶1 2   Ctrl+Shift+F2 next")
    );
    assert_eq!(monitors_text(&several[..1], 0), None);
    assert_eq!(monitors_text(&[], 0), None);
}

#[test]
fn the_panel_counts_losses() {
    let losses = Losses {
        repaired: 12,
        incomplete: 3,
        dropped_waiting_for_keyframe: 0,
        keyframe_requests: 1,
    };
    assert_eq!(
        losses_text(losses),
        "loss: 12 repaired  3 incomplete  0 awaiting keyframe  1 kf requests"
    );
}
