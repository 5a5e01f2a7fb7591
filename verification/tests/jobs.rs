use cirrove_service::jobs::{Ended, JobKind, JobState, Jobs, Stopped, RETAINED, RETAIN_FOR};

fn failed(issue: Option<&str>) -> Option<Ended> {
    Some(Ended {
        state: JobState::Failed,
        issue: issue.map(|text| text.to_string()),
    })
}

#[test]
fn a_running_job_reports_where_it_has_got_to() {
    let mut jobs = Jobs::new();
    let id = jobs.start(JobKind::KeepOffline, "Photos".into(), 3, 300);
    jobs.advance(&id, 1, 100);
    let listed = jobs.list(0);
    assert_eq!(listed.len(), 1);
    assert_eq!(listed[0].name, "Photos");
    assert_eq!((listed[0].files_done, listed[0].bytes_done), (1, 100));
    assert_eq!((listed[0].files_total, listed[0].bytes_total), (3, 300));
    assert!(listed[0].running());
    jobs.end(&id, 0, None);
    assert!(jobs.list(0).is_empty());
}

#[test]
fn stopping_cancels_the_token_the_work_is_watching() {
    let mut jobs = Jobs::new();
    let id = jobs.start(JobKind::KeepOffline, "Photos".into(), 1, 1);
    assert!(!jobs.asked_to_stop(&id));
    assert_eq!(jobs.stop(&id), Stopped::Asked);
    assert!(jobs.asked_to_stop(&id));
    assert_eq!(jobs.list(0)[0].state, JobState::Stopping);
    jobs.end(
        &id,
        0,
        Some(Ended {
            state: JobState::Stopped,
            issue: None,
        }),
    );
    assert_eq!(jobs.list(0)[0].state, JobState::Stopped);
    assert_eq!(jobs.stop(&id), Stopped::Dismissed);
    assert!(jobs.list(0).is_empty());
    assert_eq!(jobs.stop(&id), Stopped::Unknown);
}

#[test]
fn stopping_one_job_leaves_the_account_alone() {
    let mut jobs = Jobs::new();
    let first = jobs.start(JobKind::KeepOffline, "Photos".into(), 1, 1);
    let second = jobs.start(JobKind::KeepOffline, "Music".into(), 1, 1);
    assert_ne!(first, second);
    jobs.stop(&first);
    assert!(!jobs.asked_to_stop(&second));
    assert_eq!(jobs.running(), 2);
}

#[test]
fn a_failure_stays_visible_and_says_why() {
    let mut jobs = Jobs::new();
    let id = jobs.start(JobKind::KeepOffline, "Photos".into(), 9, 900);
    jobs.advance(&id, 4, 400);
    jobs.end(&id, 0, failed(Some("the cloud was unreachable")));
    let listed = jobs.list(0);
    assert_eq!(listed.len(), 1);
    assert_eq!(listed[0].state, JobState::Failed);
    assert_eq!(listed[0].issue.as_deref(), Some("the cloud was unreachable"));
    assert_eq!((listed[0].files_done, listed[0].files_total), (4, 9));
}

#[test]
fn only_the_last_few_failures_are_kept() {
    let mut jobs = Jobs::new();
    for i in 0..RETAINED + 2 {
        let id = jobs.start(JobKind::KeepOffline, format!("f{i}"), 1, 1);
        jobs.end(&id, 0, failed(None));
    }
    let listed = jobs.list(0);
    assert_eq!(listed.len(), RETAINED);
    assert_eq!(listed[0].name, "f2");
}

#[test]
fn waiting_returns_when_the_job_ends() {
    let mut jobs = Jobs::new();
    let id = jobs.start(JobKind::KeepOffline, "Photos".into(), 1, 1);
    assert!(jobs.find(&id).is_some_and(|job| job.running()));
    jobs.end(&id, 0, failed(Some("no")));
    assert_eq!(jobs.find(&id).map(|job| job.state), Some(JobState::Failed));
}

#[test]
fn waiting_for_a_job_that_already_finished_returns_at_once() {
    let jobs = Jobs::new();
    assert!(jobs.find("nothing").is_none());
}

#[test]
fn a_dropped_handle_is_not_reported_as_a_failure() {
    let mut jobs = Jobs::new();
    let id = jobs.start(JobKind::KeepOffline, "Photos".into(), 1, 1);
    jobs.end(&id, 0, None);
    assert!(jobs.list(0).is_empty());
}

#[test]
fn a_second_ending_changes_nothing() {
    let mut jobs = Jobs::new();
    let id = jobs.start(JobKind::KeepOffline, "Photos".into(), 1, 1);
    jobs.end(&id, 0, failed(Some("first")));
    jobs.end(&id, 0, failed(Some("second")));
    let listed = jobs.list(0);
    assert_eq!(listed.len(), 1);
    assert_eq!(listed[0].issue.as_deref(), Some("first"));
}

#[test]
fn an_old_record_is_no_longer_listed() {
    let mut jobs = Jobs::new();
    let id = jobs.start(JobKind::KeepOffline, "Photos".into(), 1, 1);
    jobs.end(&id, 5, failed(None));
    assert_eq!(jobs.list(5 + RETAIN_FOR - 1).len(), 1);
    assert!(jobs.list(5 + RETAIN_FOR).is_empty());
    assert!(jobs.find(&id).is_none());
}
