use cirrove_service::recent::{now_unix, RecentChanges, RemoteChange, CAPACITY};

fn change(n: u64) -> RemoteChange {
    RemoteChange {
        at_unix: n,
        id: format!("item-{n}"),
        parent_id: None,
        name: format!("file-{n}"),
        kind: "file".into(),
        size: n,
        removed: false,
    }
}

#[test]
fn the_ring_keeps_the_latest_and_lists_them_latest_first() {
    let mut recent = RecentChanges::default();
    for n in 0..(CAPACITY as u64 + 5) {
        recent.record(change(n));
    }
    assert_eq!(recent.len(), CAPACITY, "bounded");
    let listed = recent.list(3);
    assert_eq!(
        listed.iter().map(|c| c.at_unix).collect::<Vec<_>>(),
        vec![
            CAPACITY as u64 + 4,
            CAPACITY as u64 + 3,
            CAPACITY as u64 + 2
        ],
        "latest first, limited"
    );
    assert_eq!(recent.list(1000).len(), CAPACITY);
    assert_eq!(
        recent.list(1000).last().unwrap().at_unix,
        5,
        "the oldest five fell off the front"
    );
}

#[test]
fn an_empty_ring_says_so() {
    let mut recent = RecentChanges::default();
    assert!(recent.is_empty());
    assert!(recent.list(10).is_empty());
    recent.record(change(1));
    assert!(!recent.is_empty());
    assert!(recent.list(0).is_empty());
}

#[test]
fn the_clock_is_past_this_century() {
    assert!(now_unix() > 1_600_000_000);
}
