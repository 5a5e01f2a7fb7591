use cirrove_service::manager::{
    account_state, component_step, idle_state, is_normalized, left_mount, mount_step, must_launch,
    report, settle_mount, to_stop, AccountDetails, ComponentStep, Configured, FeedHealth, Found,
    LeftMount, MountStep, Observation, MOUNT_ERROR, OBSERVATION_ERROR,
};

fn feeds(states: &[&str]) -> Vec<FeedHealth> {
    states
        .iter()
        .map(|state| FeedHealth {
            state: state.to_string(),
        })
        .collect()
}

fn configured(id: &str, encoded: &str, enabled: bool) -> Configured {
    Configured {
        id: id.into(),
        encoded: encoded.into(),
        enabled,
    }
}

fn ours() -> Option<(String, String)> {
    Some(("fuse.cirrove".into(), "cirrove:a".into()))
}

#[test]
fn the_worst_feed_names_the_state_of_an_account() {
    assert_eq!(account_state(&None, &feeds(&[])), "starting");
    assert_eq!(account_state(&None, &feeds(&["ready", "ready"])), "ready");
    assert_eq!(
        account_state(&None, &feeds(&["ready", "offline"])),
        "updating_or_offline"
    );
    assert_eq!(
        account_state(&None, &feeds(&["offline", "sign_in_required"])),
        "sign_in_required"
    );
    assert_eq!(
        account_state(&Some(MOUNT_ERROR.into()), &feeds(&["ready"])),
        MOUNT_ERROR
    );
    assert_eq!(idle_state(true, true), "account_start_failed");
    assert_eq!(idle_state(false, true), "starting");
    assert_eq!(idle_state(false, false), "disabled");
}

#[test]
fn an_observation_failure_keeps_the_session() {
    let step = mount_step(false, true, &None, "a", &None, false);
    assert_eq!(step, MountStep::Wait);
    assert_eq!(
        settle_mount(step, true, false, None),
        (true, Some(OBSERVATION_ERROR.to_string()))
    );
    let back = mount_step(true, true, &ours(), "a", &Some(OBSERVATION_ERROR.into()), false);
    assert_eq!(back, MountStep::Keep { clear: true });
    assert_eq!(
        settle_mount(back, true, false, Some(OBSERVATION_ERROR.into())),
        (true, None)
    );
}

#[test]
fn only_the_matching_source_counts_as_mounted() {
    let other = Some(("fuse.cirrove".to_string(), "cirrove:b".to_string()));
    let step = mount_step(true, true, &other, "a", &None, false);
    assert_eq!(step, MountStep::Remount);
    assert_eq!(settle_mount(step, true, true, Some("x".into())), (true, None));
    assert_eq!(
        settle_mount(step, true, false, None),
        (false, Some(MOUNT_ERROR.to_string()))
    );
    let stopping = mount_step(true, true, &None, "a", &None, true);
    assert_eq!(stopping, MountStep::Leave);
    assert_eq!(
        settle_mount(stopping, true, false, Some("x".into())),
        (false, Some("x".to_string()))
    );
    assert_eq!(left_mount(&None, "a"), LeftMount::Nothing);
    assert_eq!(left_mount(&other, "a"), LeftMount::Foreign);
    assert_eq!(left_mount(&ours(), "a"), LeftMount::Ours);
}

#[test]
fn changed_and_disabled_accounts_are_stopped() {
    let running = vec![
        configured("a", "{1}", true),
        configured("b", "{1}", true),
        configured("c", "{1}", true),
        configured("d", "{1}", true),
    ];
    let desired = vec![
        configured("a", "{1}", true),
        configured("b", "{2}", true),
        configured("c", "{1}", false),
        configured("e", "{1}", true),
    ];
    assert_eq!(to_stop(&running, &desired), [1, 2, 3]);
    assert!(!must_launch(&desired[0], &running));
    assert!(!must_launch(&configured("z", "{1}", false), &running));
    assert!(must_launch(&desired[3], &running));
}

#[test]
fn a_report_says_what_was_observed() {
    let details = || AccountDetails {
        label: "Work".into(),
        account: "u".into(),
        tenant: "t".into(),
        drive: "d".into(),
        mount_path: "/mnt/w".into(),
        enabled: true,
    };
    let idle = report(details(), Observation::Idle { launch_failed: true });
    assert_eq!(idle.state, "account_start_failed");
    assert!(!idle.mounted && idle.feeds.is_empty());
    let running = report(
        details(),
        Observation::Running {
            mounted: true,
            mount_error: None,
            feeds: feeds(&["ready"]),
            counts: Some((3, 9)),
        },
    );
    assert_eq!(running.state, "ready");
    assert_eq!((running.indexed_feeds, running.indexed_items), (3, 9));
    assert_eq!(running.label, "Work");
    let uncounted = report(
        details(),
        Observation::Running {
            mounted: false,
            mount_error: Some(MOUNT_ERROR.into()),
            feeds: feeds(&["ready"]),
            counts: None,
        },
    );
    assert_eq!(uncounted.state, MOUNT_ERROR);
    assert_eq!(uncounted.indexed_items, 0);
}

#[test]
fn mount_paths_are_absolute_real_and_outside_other_mounts() {
    assert!(is_normalized(&b"/mnt/cloud..drive".to_vec()));
    assert!(!is_normalized(&b"/mnt/../etc".to_vec()));
    assert!(!is_normalized(&b"/mnt/..".to_vec()));
    assert!(!is_normalized(&b"mnt".to_vec()));
    let fuse = Some("fuse.rclone".to_string());
    assert_eq!(
        component_step(false, &fuse, Found::Directory),
        ComponentStep::InsideMount
    );
    assert_eq!(component_step(true, &fuse, Found::Directory), ComponentStep::Pass);
    assert_eq!(
        component_step(false, &Some("ext4".to_string()), Found::Other),
        ComponentStep::NotDirectory
    );
    assert_eq!(component_step(false, &None, Found::Missing), ComponentStep::Create);
}
