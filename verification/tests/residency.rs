use cirrove_service::filesystem::charge::{charge, chunk, shared_text, total_cost, Reference};
use cirrove_service::filesystem::diagnostics::{CeilingMetrics, ViewDiagnostics};
use cirrove_service::filesystem::following::{
    dropped_from, FollowAction, FollowEvent, FollowStage, Follower, InvalidationMetrics,
};
use cirrove_service::filesystem::invalidation::{
    configured_ceiling, ChangeKind, InvalidationCursor, MetadataChange, DEFAULT_CEILING,
};
use cirrove_service::filesystem::projection::WriteError;
use cirrove_service::filesystem::residency::ViewError;
use cirrove_service::filesystem::views::{NamespaceViews, ResolvedView, ENTRIES};
use cirrove_service::model::{Node, NodeKind, RemoteRef, Scope};

fn view(inode: u64, kind: NodeKind) -> ResolvedView {
    ResolvedView {
        inode,
        parent: 1,
        scope: Scope {
            account: "account".into(),
            provider: "fixture".into(),
            collection: "drive".into(),
        },
        node: Node {
            id: format!("item-{inode}"),
            parent_id: Some("root".into()),
            name: format!("item-{inode}"),
            kind,
            size: 0,
            modified_unix: 0,
            etag: Some("version".into()),
            content_version: None,
            target: None,
        },
        name: format!("item-{inode}"),
        alias: vec![],
        reference: false,
        entry: None,
        ancestry: vec![],
    }
}

fn cache() -> NamespaceViews {
    NamespaceViews::new(view(1, NodeKind::Folder))
}

/// Inserts a view and gives the copy back at once.
fn place(cache: &mut NamespaceViews, inode: u64, parent: u64, kind: NodeKind) {
    child(cache, inode, parent, kind);
    cache.release(inode, parent);
}

/// Inserts a view and keeps the copy.
fn child(cache: &mut NamespaceViews, inode: u64, parent: u64, kind: NodeKind) {
    let mut node = view(inode, kind);
    node.parent = parent;
    cache.insert(node).unwrap();
}

#[test]
fn equal_alias_payloads_share_without_reusing_versions_accounts_or_lifetimes() {
    let mut cache = cache();
    let first = view(2, NodeKind::File);
    cache.insert(view(2, NodeKind::File)).unwrap();
    let mut alias = view(3, NodeKind::File);
    alias.node = view(2, NodeKind::File).node;
    alias.name = first.name.clone();
    alias.alias = vec![("drive".into(), "second-link".into())];
    assert_eq!(cache.donor(&alias.scope, &alias.node), Some(2));
    cache.insert(alias).unwrap();
    let mut changed = view(4, NodeKind::File);
    changed.node = first.node.clone();
    changed.node.etag = Some("new-version".into());
    assert_eq!(cache.donor(&changed.scope, &changed.node), None);
    cache.insert(changed).unwrap();
    assert_eq!(cache.get(2).unwrap().node.etag.as_deref(), Some("version"));
    let mut other = view(5, NodeKind::File);
    other.node = first.node.clone();
    other.scope.account = "other-account".into();
    assert_eq!(cache.donor(&other.scope, &other.node), None);
    cache.insert(other).unwrap();
    for inode in 2..=5 {
        cache.release(inode, 1);
    }
    cache.collect(128);
    assert_eq!(cache.len(), 1);
}

#[test]
fn kernel_references_and_cloned_views_both_protect_residency() {
    let mut cache = cache();
    child(&mut cache, 2, 1, NodeKind::File);
    cache.acquire_lookup(2).unwrap();
    cache.acquire_lookup(2).unwrap();
    assert!(cache.forget(2, 1));
    assert_eq!(cache.collect(128), 0);
    assert!(cache.forget(2, 1));
    assert_eq!(
        cache.collect(128),
        0,
        "open/operation clone must survive FORGET"
    );
    cache.hold(2, 1);
    cache.release(2, 1);
    assert_eq!(cache.collect(128), 0);
    cache.release(2, 1);
    assert_eq!(cache.collect(128), 1);
    assert!(cache.get(2).is_none());
    assert!(cache.get(1).is_some());
}

#[test]
fn published_path_change_reuses_the_old_open_views_residency() {
    let mut cache = cache();
    cache.insert(view(2, NodeKind::File)).unwrap();
    let mut moved = view(2, NodeKind::File);
    moved.name = "new-name".into();
    cache.insert(moved).unwrap();
    cache.release(2, 1);
    assert_eq!(cache.collect(128), 0);
    assert_eq!(cache.get(2).unwrap().name, "new-name");
    cache.release(2, 1);
    assert_eq!(cache.collect(128), 1);
}

#[test]
fn stale_candidate_cannot_reclaim_a_new_generation_of_the_inode() {
    let mut cache = cache();
    place(&mut cache, 2, 1, NodeKind::File);
    cache.acquire_lookup(2).unwrap();
    assert!(cache.forget(2, 1));
    assert!(cache.get(2).is_none());
    place(&mut cache, 2, 1, NodeKind::File);
    cache.acquire_lookup(2).unwrap();
    assert_eq!(cache.collect(128), 0);
    assert!(cache.get(2).is_some());
    assert!(cache.forget(2, 1));
    assert!(cache.get(2).is_none());
}

#[test]
fn reference_underflow_and_overflow_preserve_affected_entries() {
    let mut cache = cache();
    place(&mut cache, 2, 1, NodeKind::File);
    cache.acquire_lookup(2).unwrap();
    assert!(!cache.forget(2, 2));
    assert!(cache.forget(2, 1));
    assert_eq!(cache.collect(128), 0);
    assert!(cache.get(2).is_some());
    assert!(!cache.forget(99, 1));
    child(&mut cache, 3, 1, NodeKind::File);
    let mut full = cache.residency.get(3).unwrap();
    full.kernel = u64::MAX;
    cache.residency.entries.put(3, full);
    assert_eq!(cache.acquire_lookup(3), Err(ViewError::References));
    let mut none = cache.residency.get(3).unwrap();
    assert!(none.quarantine);
    none.kernel = 0;
    cache.residency.entries.put(3, none);
    cache.release(3, 1);
    assert_eq!(cache.collect(128), 0);
}

#[test]
fn collection_work_is_bounded_and_preserves_a_held_directory() {
    let mut cache = cache();
    for inode in 2..8 {
        place(&mut cache, inode, 1, NodeKind::File);
    }
    child(&mut cache, 8, 1, NodeKind::Folder);
    cache.acquire_lookup(8).unwrap();
    assert!(cache.forget(8, 1));
    assert_eq!(cache.collect(2), 2);
    assert_eq!(cache.len(), 6);
    assert_eq!(cache.collect(2), 2);
    assert_eq!(cache.collect(2), 2);
    assert_eq!(cache.len(), 2);
    assert!(cache.get(8).is_some());
    cache.release(8, 1);
    assert_eq!(cache.collect(2), 1);
    assert!(cache.get(8).is_none());
    assert!(cache.forget(1, u64::MAX));
    assert!(cache.get(1).is_some());
}

#[test]
fn child_and_queued_operation_leases_keep_the_whole_ancestor_chain() {
    let mut cache = cache();
    place(&mut cache, 2, 1, NodeKind::Folder);
    place(&mut cache, 3, 2, NodeKind::Folder);
    child(&mut cache, 4, 3, NodeKind::File);
    for id in 2..=4 {
        cache.acquire_lookup(id).unwrap();
    }
    for id in 2..=4 {
        assert!(cache.forget(id, 1));
    }
    assert_eq!(cache.collect(100), 0);
    assert!(cache.get(2).is_some() && cache.get(3).is_some());
    // A queued operation already owns its copy even if it has not run.
    assert_eq!(cache.get(4).unwrap().parent, 3);
    cache.release(4, 3);
    for _ in 0..3 {
        cache.collect(100);
    }
    assert_eq!(cache.len(), 1);
}

#[test]
fn one_pass_retires_a_whole_ancestor_chain_within_its_budget() {
    let mut cache = cache();
    for inode in 2..=9 {
        place(&mut cache, inode, inode - 1, NodeKind::Folder);
    }
    for inode in 2..=9 {
        cache.acquire_lookup(inode).unwrap();
    }
    // Released deepest last, so every ancestor is looked at before the leaf that
    // holds it is removed.
    for inode in 2..=9 {
        assert!(cache.forget(inode, 1));
    }
    assert_eq!(cache.len(), 8);
    assert_eq!(cache.collect(100), 7);
    assert_eq!(cache.len(), 1);
}

#[test]
fn collect_still_honours_its_limit_when_a_removal_restarts_the_count() {
    let mut cache = cache();
    for inode in 2..=9 {
        place(&mut cache, inode, inode - 1, NodeKind::Folder);
    }
    for inode in 2..=9 {
        cache.acquire_lookup(inode).unwrap();
    }
    for inode in 2..=9 {
        assert!(cache.forget(inode, 1));
    }
    assert_eq!(cache.collect(3), 0);
    assert_eq!(cache.len(), 8);
    assert_eq!(cache.collect(100), 7);
    assert_eq!(cache.len(), 1);
}

#[test]
fn listing_only_projection_protects_parent_without_acquiring_kernel_references() {
    let mut cache = cache();
    child(&mut cache, 2, 1, NodeKind::Folder);
    // A listing projects its entries below the directory without resolving them.
    cache.protect(2);
    cache.release(2, 1);
    assert_eq!(cache.collect(100), 0);
    assert_eq!(cache.len(), 2);
    cache.unprotect(2);
    assert_eq!(cache.collect(100), 1);
    assert_eq!(cache.len(), 1);
}

#[test]
fn moving_a_view_preserves_old_and_new_parent_leases_until_their_users_close() {
    let mut cache = cache();
    place(&mut cache, 2, 1, NodeKind::Folder);
    place(&mut cache, 3, 1, NodeKind::Folder);
    child(&mut cache, 4, 2, NodeKind::File);
    child(&mut cache, 4, 3, NodeKind::File);
    assert_eq!(cache.residency.get(4).unwrap().leases, 2);
    assert_eq!(cache.collect(100), 0);
    cache.release(4, 2);
    cache.collect(100);
    assert!(cache.get(2).is_none());
    assert!(cache.get(3).is_some());
    cache.release(4, 3);
    for _ in 0..2 {
        cache.collect(100);
    }
    assert_eq!(cache.len(), 1);
}

#[test]
fn ancestor_cycles_and_missing_parents_are_rejected_without_changing_live_views() {
    let mut cache = cache();
    place(&mut cache, 2, 1, NodeKind::Folder);
    place(&mut cache, 3, 2, NodeKind::Folder);
    let mut cycle = view(2, NodeKind::Folder);
    cycle.parent = 3;
    assert_eq!(cache.insert(cycle), Err(ViewError::Cycle));
    assert_eq!(cache.get(2).unwrap().parent, 1);
    let mut missing = view(4, NodeKind::File);
    missing.parent = 99;
    assert_eq!(cache.insert(missing), Err(ViewError::NotFound));
    assert!(cache.get(4).is_none());
    assert_eq!(
        cache.insert(view(1, NodeKind::Folder)),
        Err(ViewError::Reserved)
    );
    for _ in 0..2 {
        cache.collect(100);
    }
    assert_eq!(cache.len(), 1);
}

#[test]
fn a_file_is_no_parent_and_generations_run_out() {
    let mut cache = cache();
    child(&mut cache, 2, 1, NodeKind::File);
    let mut below = view(3, NodeKind::File);
    below.parent = 2;
    assert_eq!(cache.insert(below), Err(ViewError::NotDirectory));
    cache.residency.generation = u64::MAX;
    assert_eq!(
        cache.insert(view(4, NodeKind::File)),
        Err(ViewError::Generations)
    );
    assert_eq!(cache.acquire_lookup(4), Err(ViewError::NotFound));
}

#[test]
fn ancestors_are_captured_from_the_root_down() {
    let mut cache = cache();
    place(&mut cache, 2, 1, NodeKind::Folder);
    let mut link = view(3, NodeKind::Folder);
    link.parent = 2;
    link.scope.collection = "shared".into();
    link.alias = vec![("drive".into(), "link".into())];
    let mut entry = view(3, NodeKind::Shortcut).node;
    entry.id = "link".into();
    link.entry = Some(entry);
    cache.insert(link).unwrap();
    child(&mut cache, 4, 3, NodeKind::File);
    let mut leaf = view(4, NodeKind::File);
    leaf.parent = 3;
    let captured = cache.captured_ancestors(&leaf).unwrap();
    assert_eq!(captured.len(), 2);
    assert_eq!(captured[0].1.id, "item-2");
    assert_eq!(captured[0].0.collection, "drive");
    assert_eq!(captured[1].1.id, "link");
    assert_eq!(captured[1].1.parent_id.as_deref(), Some("item-2"));
    assert_eq!(captured[1].0.collection, "drive");
    assert_eq!(cache.ancestor_chain(4, 3).unwrap(), vec![3, 2, 1]);
    assert_eq!(cache.ancestor_chain(9, 99), Err(WriteError::Stale));
}

fn change(view: &ResolvedView, kind: ChangeKind) -> MetadataChange {
    MetadataChange {
        scope: view.scope.clone(),
        kind,
        identity: view.node.id.clone(),
    }
}

fn selected(cache: &NamespaceViews, change: Option<&MetadataChange>) -> Vec<u64> {
    let mut cursor = InvalidationCursor::new();
    let mut ids = Vec::new();
    loop {
        let batch = cache.invalidation_batch(change, cursor);
        assert!(batch.entries.len() <= ENTRIES);
        ids.extend(batch.entries.iter().map(|e| e.inode));
        cursor = batch.next;
        if batch.complete {
            break;
        }
    }
    ids
}

#[test]
fn identity_selection_preserves_aliases_versions_and_account_boundaries() {
    let mut cache = cache();
    let make = || {
        let mut first = view(2, NodeKind::File);
        first.node.id = "target".into();
        first
    };
    let target = change(&make(), ChangeKind::Item);
    cache.insert(make()).unwrap();
    let mut version = make();
    version.inode = 3;
    version.node.etag = Some("new".into());
    cache.insert(version).unwrap();
    let linked = || {
        let mut link = make();
        link.inode = 4;
        link.alias = vec![("source-drive".into(), "shortcut".into())];
        let mut entry = link.node.clone();
        entry.id = "shortcut".into();
        link.entry = Some(entry);
        link
    };
    cache.insert(linked()).unwrap();
    let mut other = make();
    other.inode = 5;
    other.scope.account = "another-account".into();
    cache.insert(other).unwrap();
    assert_eq!(selected(&cache, Some(&target)), vec![2, 3, 4]);
    let mut source = change(&make(), ChangeKind::Item);
    source.scope.collection = "source-drive".into();
    source.identity = "shortcut".into();
    assert_eq!(selected(&cache, Some(&source)), vec![4]);
    let mut moved = linked();
    moved.alias = vec![("another-source".into(), "shortcut".into())];
    cache.insert(moved).unwrap();
    cache.release(4, 1);
    assert!(selected(&cache, Some(&source)).is_empty());
    for inode in 2..=5 {
        cache.release(inode, 1);
    }
    cache.collect(128);
    assert_eq!(cache.len(), 1);
    assert!(cache.index.keys.iter().all(|k| k.inode == 1));
}

#[test]
fn full_and_scope_sweeps_page_live_entries_and_tolerate_retirement_between_pages() {
    let mut cache = cache();
    for inode in 2..1002 {
        cache.insert(view(inode, NodeKind::File)).unwrap();
    }
    let mut scope = change(&view(2, NodeKind::File), ChangeKind::Scope);
    scope.identity.clear();
    assert_eq!(selected(&cache, Some(&scope)).len(), 1000);
    assert_eq!(selected(&cache, None).len(), 1000);
    let first = cache.invalidation_batch(None, InvalidationCursor::new());
    assert!(!first.complete);
    for inode in 2..1002 {
        cache.release(inode, 1);
    }
    cache.collect(4096);
    let next = cache.invalidation_batch(None, first.next);
    assert!(next.complete);
    assert!(next.entries.is_empty());
    assert_eq!(cache.views.len(), 1);
}

#[test]
fn a_directory_change_concerns_directories_alone() {
    let mut cache = cache();
    let mut folder = view(2, NodeKind::Folder);
    folder.node.id = "target".into();
    let mut file = view(3, NodeKind::File);
    file.node.id = "target".into();
    let about = change(&folder, ChangeKind::Directory);
    cache.insert(folder).unwrap();
    cache.insert(file).unwrap();
    let batch = cache.invalidation_batch(Some(&about), InvalidationCursor::new());
    assert!(batch.complete);
    assert_eq!(batch.entries.len(), 1);
    assert_eq!(batch.entries[0].inode, 2);
    assert!(batch.entries[0].directory && !batch.entries[0].entry);
    assert_eq!(batch.entries[0].name, "item-2");
}

#[test]
fn long_names_end_a_batch_early() {
    let mut cache = cache();
    for inode in 2..5 {
        let mut long = view(inode, NodeKind::File);
        long.name = "x".repeat(40_000);
        cache.insert(long).unwrap();
    }
    let first = cache.invalidation_batch(None, InvalidationCursor::new());
    assert_eq!(first.entries.len(), 1);
    assert!(!first.complete);
    assert_eq!(first.next.inode, Some(2));
    assert_eq!(selected(&cache, None), vec![2, 3, 4]);
}

fn follow(
    follower: Follower<u32>,
    event: FollowEvent<u32>,
    action: FollowAction,
) -> Follower<u32> {
    let (next, taken) = follower.step(event);
    assert_eq!(taken, action);
    next
}

#[test]
fn sweeps_follow_changes_only_where_nothing_can_be_missed() {
    let (follower, first) = Follower::<u32>::start(4, false);
    assert_eq!(first, FollowAction::Poll);
    let follower = follow(follower, FollowEvent::Woken(Some(4)), FollowAction::TakePosition);
    let follower = follow(follower, FollowEvent::Positioned(Some(10)), FollowAction::Sweep);
    assert_eq!(follower.position, None);
    let follower = follow(follower, FollowEvent::Told(true), FollowAction::Wait);
    assert_eq!(follower.position, Some(10));
    let follower = follow(follower, FollowEvent::Woken(Some(4)), FollowAction::ReadChanges);
    let follower = follow(
        follower,
        FollowEvent::Page(Some((2, 12, false))),
        FollowAction::Tell(0),
    );
    let follower = follow(follower, FollowEvent::Told(true), FollowAction::Tell(1));
    assert_eq!(follower.position, Some(10));
    let follower = follow(follower, FollowEvent::Told(true), FollowAction::ReadChanges);
    assert_eq!(follower.position, Some(12));
    let follower = follow(follower, FollowEvent::Page(Some((0, 13, true))), FollowAction::Wait);
    assert_eq!(follower.position, Some(13));
    let follower = follow(follower, FollowEvent::Woken(Some(5)), FollowAction::TakePosition);
    let follower = follow(follower, FollowEvent::Positioned(Some(14)), FollowAction::Sweep);
    let follower = follow(follower, FollowEvent::Told(true), FollowAction::Wait);
    assert_eq!((follower.position, follower.seen), (Some(14), 5));
    let follower = follow(follower, FollowEvent::Woken(None), FollowAction::Stop);
    assert!(matches!(follower.stage, FollowStage::Stopped));
}

#[test]
fn a_lost_stream_is_swept_again() {
    let (follower, _) = Follower::<u32>::start(0, false);
    let follower = follow(follower, FollowEvent::Woken(Some(0)), FollowAction::TakePosition);
    let follower = follow(follower, FollowEvent::Positioned(None), FollowAction::Rest);
    let follower = follow(follower, FollowEvent::Rested, FollowAction::Poll);
    let follower = follow(follower, FollowEvent::Woken(Some(0)), FollowAction::TakePosition);
    let follower = follow(follower, FollowEvent::Positioned(Some(1)), FollowAction::Sweep);
    let follower = follow(follower, FollowEvent::Told(true), FollowAction::Wait);
    let follower = follow(follower, FollowEvent::Woken(Some(0)), FollowAction::ReadChanges);
    let follower = follow(follower, FollowEvent::Page(None), FollowAction::Rest);
    assert_eq!(follower.position, None);
    let follower = follow(follower, FollowEvent::Rested, FollowAction::Poll);
    let follower = follow(follower, FollowEvent::Woken(Some(0)), FollowAction::TakePosition);
    let follower = follow(follower, FollowEvent::Positioned(Some(2)), FollowAction::Sweep);
    let follower = follow(follower, FollowEvent::Told(false), FollowAction::Rest);
    follow(follower, FollowEvent::Cancelled, FollowAction::Stop);
    let (writable, _) = Follower::<u32>::start(0, true);
    let writable = follow(writable, FollowEvent::Woken(Some(0)), FollowAction::TakePosition);
    let writable = follow(writable, FollowEvent::Positioned(Some(1)), FollowAction::Sweep);
    let writable = follow(writable, FollowEvent::Told(true), FollowAction::Wait);
    follow(writable, FollowEvent::Woken(Some(0)), FollowAction::TakePosition);
}

#[test]
fn what_is_told_is_counted() {
    let mut metrics = InvalidationMetrics::new();
    metrics.count_batch(128);
    metrics.count_batch(3);
    metrics.count_marks(2);
    assert_eq!(
        metrics,
        InvalidationMetrics { batches: 2, entries: 131, marks: 2, max_batch: 128 }
    );
    assert_eq!(dropped_from(true), 0);
    assert_eq!(dropped_from(false), -1);
}

#[test]
fn ceilings_are_read_from_their_setting() {
    assert_eq!(configured_ceiling(Some("0")), 0);
    assert_eq!(configured_ceiling(Some("5000000000")), 5_000_000_000);
    assert_eq!(configured_ceiling(Some("many")), DEFAULT_CEILING);
    assert_eq!(configured_ceiling(None), 200_000);
}

fn references(cache: &NamespaceViews) -> Vec<Reference> {
    // Each view refers to its own counters, its parent's counters and its scope; all
    // views of one collection share the scope.
    let mut found = Vec::new();
    for id in cache.views.ids() {
        let view = cache.views.get(id).unwrap();
        found.push(Reference {
            address: 1000 + view.inode,
            cost: chunk(32),
        });
        found.push(Reference {
            address: 1000 + view.parent,
            cost: chunk(32),
        });
        found.push(Reference {
            address: 1,
            cost: total_cost(&vec![88, view.scope.account.len()]).unwrap(),
        });
    }
    found
}

#[test]
fn a_shared_payload_is_charged_once_however_many_views_can_see_it() {
    let mut cache = cache();
    cache.insert(view(2, NodeKind::File)).unwrap();
    cache.insert(view(3, NodeKind::File)).unwrap();
    let found = references(&cache);
    let charged = charge(&found, cache.len() as u64, 8);
    assert_eq!(cache.len(), 3);
    assert!(charged.examined > charged.allocations);
    assert!(charged.undeduplicated > charged.evictable);
    assert!(charged.evictable > 0);
    assert_eq!(charged.examined, 9);
    assert_eq!(charged.allocations, 4);
    assert_eq!(charged.inline, 24);
}

#[test]
fn a_retired_view_stops_being_charged() {
    let mut cache = cache();
    cache.insert(view(2, NodeKind::File)).unwrap();
    let charged = charge(&references(&cache), 2, 8).evictable;
    assert_eq!(cache.len(), 2);
    cache.release(2, 1);
    cache.collect(128);
    assert_eq!(cache.len(), 1);
    let after = charge(&references(&cache), 1, 8).evictable;
    assert!(after < charged);
}

#[test]
fn an_arc_str_is_charged_for_its_counters_and_a_string_for_its_capacity() {
    // Sixteen bytes of counters live in the same allocation as the bytes.
    assert_eq!(shared_text("0123456789abcdef".len()), chunk(16 + 16));
    // A String that grew and shrank still owns what it reserved.
    let mut grown = String::with_capacity(200);
    grown.push('x');
    assert_eq!(chunk(grown.capacity()), chunk(200));
    assert_ne!(chunk(grown.capacity()), chunk(1));
    assert_eq!(total_cost(&vec![0, 1, 25]), Some(80));
}

#[test]
fn a_target_is_part_of_what_is_shared() {
    let mut cache = cache();
    let mut link = view(2, NodeKind::Shortcut);
    link.node.target = Some(RemoteRef {
        collection: "shared".into(),
        item: "target".into(),
        kind: Some(NodeKind::Folder),
    });
    let mut elsewhere = link.node.clone();
    elsewhere.target.as_mut().unwrap().item = "other".into();
    let scope = link.scope.clone();
    let same = link.node.clone();
    cache.insert(link).unwrap();
    assert_eq!(cache.donor(&scope, &same), Some(2));
    assert_eq!(cache.donor(&scope, &elsewhere), None);
}

#[test]
fn a_mount_reports_its_views() {
    let mut cache = cache();
    place(&mut cache, 2, 1, NodeKind::Folder);
    child(&mut cache, 3, 2, NodeKind::File);
    cache.acquire_lookup(3).unwrap();
    cache.forget(2, 1);
    let report = cache.diagnostics();
    assert_eq!(
        report,
        ViewDiagnostics {
            views: 3,
            kernel_referenced: 1,
            lease_protected: 3,
            quarantined: 1,
            candidates: report.candidates,
            identities: 3,
        }
    );
    let mut metrics = CeilingMetrics::new();
    metrics.observe(7);
    metrics.observe(3);
    metrics.count(512);
    metrics.count(2);
    assert_eq!(metrics, CeilingMetrics { asked: 514, max_over: 7 });
}

#[test]
fn a_whole_pass_leaves_exactly_what_is_still_referred_to() {
    let mut cache = cache();
    for inode in 2..=7 {
        place(&mut cache, inode, 1 + (inode - 2) / 2, NodeKind::Folder);
    }
    cache.acquire_lookup(5).unwrap();
    cache.acquire_lookup(7).unwrap();
    assert!(cache.forget(7, 1));
    cache.collect(usize::MAX);
    let left: Vec<u64> = (1..=7).filter(|inode| cache.get(*inode).is_some()).collect();
    assert_eq!(left, [1, 2, 5]);
    assert_eq!(cache.collect(usize::MAX), 0);
    assert!(cache.forget(5, 1));
    cache.collect(1000);
    assert_eq!(cache.len(), 1);
}

#[test]
fn views_hang_only_below_a_folder() {
    let mut below_a_folder = cache();
    let mut node = view(2, NodeKind::File);
    node.parent = 1;
    assert!(below_a_folder.insert(node).is_ok());
    assert!(!below_a_folder.forget(2, 1));
    let mut below_a_file = NamespaceViews::new(view(1, NodeKind::File));
    let mut node = view(2, NodeKind::File);
    node.parent = 1;
    assert!(below_a_file.insert(node).is_err());
    assert_eq!(below_a_file.len(), 1);
}
