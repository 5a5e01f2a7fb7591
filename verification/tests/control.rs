use cirrove_service::control::{
    accepts_connection, assemble_status, check_private, recover_socket, refusal, reply_fits, route,
    socket_is_foreign, socket_location, split_request, state_directory, totals, write_request,
    Asked, Capabilities, DirectoryError, LineStep, PinReply, PinRequest, PrivacyError, Probe,
    RequestLine, SocketRecovery, EVENT_PROTOCOL_VERSION, REPLY_LIMIT, REQUEST_LIMIT, REQUEST_SLOTS,
    STATUS_PROTOCOL_VERSION, SUBSCRIPTION_SLOTS,
};
use cirrove_service::manager::{AccountStatus, FeedHealth};
use cirrove_service::refresh::{Refresh, RefreshError, RefreshStep};
use cirrove_service::stream::{
    answer, take_slot, Arrival, FirstLine, NextLine, OpenError, Reading, Subscription, Written,
};

fn account(label: &str, mounted: bool, feeds: u64, items: u64) -> AccountStatus {
    AccountStatus {
        label: label.into(),
        account: "a@example.test".into(),
        tenant: "t".into(),
        drive: "Files".into(),
        mount_path: format!("/mnt/{label}"),
        mounted,
        state: "ready".into(),
        feeds: vec![FeedHealth {
            state: "ready".into(),
        }],
        indexed_feeds: feeds,
        indexed_items: items,
    }
}

fn line_of(text: &[u8]) -> (RequestLine, LineStep) {
    let mut line = RequestLine::new();
    let mut step = LineStep::More;
    for byte in text {
        step = line.push(*byte);
        if step != LineStep::More {
            break;
        }
    }
    (line, step)
}

fn written(all: Option<Vec<Written<&'static str>>>) -> Vec<String> {
    match all {
        None => vec!["end".to_string()],
        Some(all) => all
            .into_iter()
            .map(|one| match one {
                Written::Event(event) => event.to_string(),
                Written::Lagged(dropped) => format!("lagged {dropped}"),
                Written::Ready => "ready".to_string(),
            })
            .collect(),
    }
}

#[test]
fn service_answers_status_with_idle_client_and_cleans_socket() {
    let (line, step) = line_of(b"status\n");
    assert_eq!(step, LineStep::Done);
    let text = line.text().unwrap();
    let (verb, body) = split_request(&text);
    assert_eq!((verb.as_str(), body.as_str()), ("status", ""));
    assert!(matches!(route(&verb, false), Asked::Status));
    let reply = assemble_status("1.2.3".into(), (0, 0), None, 0, 0, 0);
    assert_eq!(reply.active_mounts, 0);
    assert_eq!(reply.indexed_items, 0);
    assert_eq!(reply.milestone, "readonly-preview");
    assert_eq!(reply.version, "1.2.3");
}

#[test]
fn capabilities_names_the_event_stream_without_moving_the_status_version() {
    assert!(matches!(route("capabilities", false), Asked::Capabilities));
    let current = Capabilities::current();
    assert_eq!(current.events(), Some(EVENT_PROTOCOL_VERSION));
    assert_eq!(current.capabilities.len(), 1);
    assert_eq!(current.capabilities[0].0, "events");
    assert_eq!(STATUS_PROTOCOL_VERSION, 1);
}

#[test]
fn an_unknown_verb_carries_no_capabilities_key() {
    assert!(matches!(
        route("nonsense", false),
        Asked::Refuse(reason) if reason == "this daemon manages no accounts"
    ));
    assert!(matches!(
        route("non\"sense", true),
        Asked::Refuse(reason) if reason == "unknown control request \"non\\\"sense\""
    ));
    assert_eq!(Capabilities::default().events(), None);
}

#[test]
fn a_subscriber_is_primed_with_current_state_before_anything_changes() {
    let told = written(answer(
        Arrival::Attached,
        vec!["account work", "mount work true"],
    ));
    assert_eq!(told, ["account work", "mount work true", "ready"]);
}

#[test]
fn a_daemon_with_no_accounts_still_establishes_a_subscription() {
    assert!(matches!(route("subscribe", true), Asked::Subscribe));
    assert_eq!(written(answer(Arrival::Attached, vec![])), ["ready"]);
}

#[test]
fn a_gap_is_told_and_followed_by_the_current_state() {
    assert_eq!(
        written(answer(Arrival::Missed(7), vec!["account work"])),
        ["lagged 7", "account work", "ready"]
    );
    assert_eq!(
        written(answer(Arrival::Change("mount work false"), vec!["account work"])),
        ["mount work false"]
    );
    assert_eq!(written(answer(Arrival::Closed, vec!["account work"])), ["end"]);
}

#[test]
fn the_client_subscription_yields_priming_then_changes() {
    let mut subscription = Subscription::open(FirstLine::Event("account work")).unwrap();
    assert!(matches!(subscription.next(), Reading::Give(Some("account work"))));
    assert!(matches!(subscription.next(), Reading::Again));
    assert!(matches!(
        Subscription::read(NextLine::Event("mount work true")),
        Reading::Give(Some("mount work true"))
    ));
}

#[test]
fn an_event_from_a_newer_daemon_is_skipped_rather_than_ending_the_stream() {
    let mut subscription = Subscription::open(FirstLine::Event("ready")).unwrap();
    assert!(matches!(subscription.next(), Reading::Give(Some("ready"))));
    let lines = vec![
        NextLine::Unknown,
        NextLine::Unknown,
        NextLine::Event("account_removed"),
    ];
    let mut given = None;
    for line in lines {
        if let Reading::Give(event) = Subscription::read(line) {
            given = event;
        }
    }
    assert_eq!(given, Some("account_removed"));
    assert!(matches!(
        Subscription::<&str>::read(NextLine::Closed),
        Reading::Give(None)
    ));
}

#[test]
fn a_client_is_told_when_the_service_cannot_stream() {
    let Asked::Refuse(reason) = route("subscribe", false) else {
        panic!("a daemon without accounts refuses");
    };
    let reply: PinReply = refusal(reason);
    assert!(!reply.accepted);
    match Subscription::<u8>::open(FirstLine::Refusal(reply.refusal)) {
        Err(OpenError::Refused(error)) => assert!(error.contains("manages no accounts"), "{error}"),
        _ => panic!("the refusal is reported"),
    }
    assert!(matches!(
        Subscription::<u8>::open(FirstLine::Refusal(None)),
        Err(OpenError::Refused(error)) if error == "this Cirrove service cannot stream changes"
    ));
    assert!(matches!(
        Subscription::<u8>::open(FirstLine::Unreadable),
        Err(OpenError::Unreadable)
    ));
}

#[test]
fn subscriptions_are_refused_with_a_reply_and_cannot_starve_status() {
    for held in 0..SUBSCRIPTION_SLOTS {
        assert!(take_slot(held).is_ok());
    }
    let refused = take_slot(SUBSCRIPTION_SLOTS).unwrap_err();
    assert!(refused.contains("too many"), "{refused}");
    for requests in 0..REQUEST_SLOTS {
        assert!(accepts_connection(SUBSCRIPTION_SLOTS + requests));
    }
    assert!(!accepts_connection(SUBSCRIPTION_SLOTS + REQUEST_SLOTS));
    assert!(matches!(route("status", true), Asked::Status));
}

#[test]
fn socket_recovery_preserves_live_sockets_files_and_symlinks() {
    assert!(!socket_is_foreign(true, 1000, 1000));
    assert!(socket_is_foreign(false, 1000, 1000));
    assert!(socket_is_foreign(true, 0, 1000));
    assert_eq!(recover_socket(Probe::Uncertain, true), SocketRecovery::Active);
    assert_eq!(recover_socket(Probe::Refused, true), SocketRecovery::Remove);
    assert_eq!(recover_socket(Probe::Refused, false), SocketRecovery::Changed);
    assert_eq!(recover_socket(Probe::Gone, true), SocketRecovery::Nothing);
}

#[test]
fn coordinator_failure_preserves_resume_cursor_and_visible_index() {
    let mut refresh = Refresh::new(None);
    assert_eq!(refresh.check(false, "resume-here"), Ok(()));
    assert_eq!(
        refresh.staged(false, "resume-here".into(), false),
        Ok(RefreshStep::Next)
    );
    assert_eq!(refresh.cursor.as_deref(), Some("resume-here"));
    assert_eq!(refresh.check(false, "resume-here"), Err(RefreshError::Repeated));
    assert_eq!(refresh.check(true, "resume-here"), Ok(()));
    assert_eq!(
        refresh.staged(false, "later".into(), true),
        Err(RefreshError::Cancelled)
    );
    assert_eq!(refresh.cursor.as_deref(), Some("resume-here"));
    assert_eq!(refresh.staged(true, "end".into(), true), Ok(RefreshStep::Done(3)));
}

#[test]
fn request_lines_are_bounded_and_must_be_text() {
    let mut line = RequestLine::new();
    for _ in 0..REQUEST_LIMIT {
        assert_eq!(line.push(b'x'), LineStep::More);
    }
    assert_eq!(line.push(b'x'), LineStep::Oversized);
    let (line, step) = line_of(b"pin \xff\n");
    assert_eq!(step, LineStep::Done);
    assert_eq!(line.text(), None);
    let (line, _) = line_of("pin \u{e9}\n".as_bytes());
    assert_eq!(line.text().as_deref(), Some("pin \u{e9}"));
    assert!(reply_fits(REPLY_LIMIT));
    assert!(!reply_fits(REPLY_LIMIT + 1));
}

#[test]
fn requests_carry_a_verb_and_a_trimmed_body() {
    assert_eq!(write_request("status", None), "status\n");
    assert_eq!(write_request("pin", Some("{}")), "pin {}\n");
    let halves = split_request("pin   {\"label\": \"\"}\t\r");
    assert_eq!(halves.0, "pin");
    assert_eq!(halves.1, "{\"label\": \"\"}");
    assert!(matches!(route("pin", true), Asked::Pin));
    assert!(matches!(route("unpin", true), Asked::Unpin));
    let request = PinRequest::default();
    assert_eq!(request.label, "");
    assert!(request.item.is_none() && request.path.is_none() && request.bytes.is_none());
}

#[test]
fn a_managing_daemon_reports_the_sums_of_its_accounts() {
    let accounts = vec![account("work", true, 2, 30), account("home", false, 1, 12)];
    assert_eq!(totals(&accounts), (3, 42, 1));
    let status = assemble_status("9".into(), (100, 100), Some(accounts), 4, 5, 6);
    assert_eq!((status.indexed_feeds, status.indexed_items), (3, 42));
    assert_eq!(status.active_mounts, 1);
    assert_eq!(status.accounts.len(), 2);
    assert_eq!(
        (status.allocator_trims, status.free_arena_bytes, status.retained_bytes),
        (4, 5, 6)
    );
    let alone = assemble_status("9".into(), (7, 8), None, 0, 0, 0);
    assert_eq!((alone.indexed_feeds, alone.indexed_items), (7, 8));
    assert_eq!(alone.protocol_version, STATUS_PROTOCOL_VERSION);
}

#[test]
fn standard_directories_must_be_named_and_absolute() {
    let bytes = |text: &str| Some(text.as_bytes().to_vec());
    assert_eq!(
        state_directory(bytes("/var/state"), None),
        Ok(b"/var/state/cirrove".to_vec())
    );
    assert_eq!(
        state_directory(bytes(""), bytes("/home/u")),
        Ok(b"/home/u/.local/state/cirrove".to_vec())
    );
    assert_eq!(
        state_directory(bytes("relative"), None),
        Err(DirectoryError::Relative)
    );
    assert_eq!(state_directory(None, None), Err(DirectoryError::Unset));
    assert_eq!(
        socket_location(bytes("/run/user/1/")),
        Ok(b"/run/user/1/cirrove/control.sock".to_vec())
    );
    assert_eq!(socket_location(None), Err(DirectoryError::Unset));
    assert_eq!(socket_location(bytes("run")), Err(DirectoryError::Relative));
}

#[test]
fn a_private_directory_is_real_closed_and_owned() {
    assert_eq!(check_private(true, false, 0o40700, 5, 5), Ok(()));
    assert_eq!(check_private(true, false, 0o40750, 5, 5), Err(PrivacyError::Open));
    assert_eq!(check_private(true, true, 0o40700, 5, 5), Err(PrivacyError::Open));
    assert_eq!(check_private(false, false, 0o40700, 5, 5), Err(PrivacyError::Open));
    assert_eq!(check_private(true, false, 0o40700, 0, 5), Err(PrivacyError::Owner));
}
