use cirrove_service::filesystem::hydration::{
    HydrateAction, HydrateEvent, Hydration, SourceAction, SourceEvent, SourcePreparation,
};
use cirrove_service::filesystem::lifecycle::{path_names, EditAdmission, PathWalk, WalkAction};
use cirrove_service::filesystem::maintenance::{Action, Candidate, Event, Maintenance};
use cirrove_service::filesystem::preservation::{
    Preservation, PreserveAction, PreserveEvent, Removal, Removed,
};
use cirrove_service::filesystem::projection::{answer_for, WriteError};
use cirrove_service::filesystem::views::ResolvedView;
use cirrove_service::filesystem::writeback::{
    backoff_seconds, check_replace, check_unlink, may_write, next_range, preserves_readers,
    replacement_needs_readers, write_position, RefreshReply, Retries, StreamUser, VisibleFiles,
};
use cirrove_service::journal::records::{
    JournalError, NamespaceNames, NamespaceObject, WorkingFile,
};
use cirrove_service::model::{Node, NodeKind, RemoteRef, Scope, UploadIntent};

fn scope() -> Scope {
    Scope {
        account: "a".into(),
        provider: "fixture".into(),
        collection: "d".into(),
    }
}

fn file(id: &str, name: &str, size: u64, version: &str) -> Node {
    Node {
        id: id.into(),
        parent_id: Some("root".into()),
        name: name.into(),
        kind: NodeKind::File,
        size,
        modified_unix: 1,
        etag: Some(format!("e-{version}")),
        content_version: Some(version.into()),
        target: None,
    }
}

fn folder(id: &str, name: &str) -> Node {
    Node {
        kind: NodeKind::Folder,
        ..file(id, name, 0, "1")
    }
}

fn object(id: u128, node: Node) -> NamespaceObject {
    NamespaceObject {
        id,
        scope: scope(),
        names: NamespaceNames::Sensitive,
        remote: Some(node.clone()),
        node,
        remote_owned: true,
        remote_sequence: 0,
        working_file: None,
        latest: None,
        revision: 1,
        follows_remote: false,
        unlinked: false,
    }
}

fn stream(id: u128, node: Node, generation: u64, dirty: bool) -> WorkingFile {
    WorkingFile {
        id,
        scope: scope(),
        intent: UploadIntent::Replace {
            item: node.id.clone(),
            expected_etag: "e".into(),
        },
        node,
        latest: None,
        dirty,
        generation,
        initial_remote: None,
        unlinked: false,
    }
}

fn view(node: Node, reference: bool) -> ResolvedView {
    ResolvedView {
        inode: 7,
        parent: 1,
        scope: scope(),
        name: node.name.clone(),
        node,
        alias: vec![],
        reference,
        entry: None,
        ancestry: vec![],
    }
}

fn candidate(id: u128, clean: bool) -> Candidate {
    Candidate {
        id,
        clean,
        remote: Some(file("r", "x", 5, "1")),
    }
}

#[test]
fn frozen_admission_waits_for_the_last_accepted_edit() {
    let mut gate = EditAdmission::new();
    gate.enter().unwrap();
    gate.enter().unwrap();
    gate.close();
    assert_eq!(gate.enter(), Err(WriteError::NoDevice));
    gate.leave();
    assert!(!gate.is_drained());
    assert_eq!(gate.pending(), 1);
    gate.leave();
    assert!(gate.is_drained());
    assert_eq!(gate.enter(), Err(WriteError::NoDevice));
}

#[test]
fn idle_passes_do_not_reset_a_failed_objects_provider_backoff() {
    let mut retries = Retries::new();
    let ask = |retries: &mut Retries, now: u64| {
        let (mut pass, action) = Maintenance::start(vec![candidate(1, true)]);
        assert_eq!(action, Action::Merge(1));
        let next = pass.step(retries, now, Event::Merged(Ok(())));
        if next != Action::Probe(1) {
            return next;
        }
        assert_eq!(pass.step(retries, now, Event::Idle(true)), Action::Look(1));
        assert_eq!(
            pass.step(retries, now, Event::Cached(Ok(None))),
            Action::Ask(1)
        );
        pass.step(
            retries,
            now,
            Event::Replied(RefreshReply::Failed(WriteError::Failure)),
        )
    };
    assert_eq!(
        ask(&mut retries, 100),
        Action::Finish(Err(WriteError::Failure))
    );
    // Passes while it waits neither ask nor shorten the wait.
    assert_eq!(ask(&mut retries, 101), Action::Finish(Ok(false)));
    assert!(retries.waits(1, 101));
    assert_eq!(
        ask(&mut retries, 102),
        Action::Finish(Err(WriteError::Failure))
    );
    assert!(retries.waits(1, 105));
    assert!(!retries.waits(1, 106));
    let (mut empty, action) = Maintenance::start(vec![]);
    assert_eq!(action, Action::Finish(Ok(false)));
    assert_eq!(empty.cursor, None);
    empty.target = None;
    assert!(retries.waits(1, 105));
}

#[test]
fn a_new_access_and_save_during_handoff_io_stays_responsive_and_invalidates_detach() {
    let mut retries = Retries::new();
    let (mut pass, _) = Maintenance::start(vec![candidate(1, true)]);
    pass.step(&mut retries, 0, Event::Merged(Ok(())));
    pass.step(&mut retries, 0, Event::Idle(true));
    pass.step(&mut retries, 0, Event::Cached(Ok(None)));
    assert_eq!(
        pass.step(
            &mut retries,
            0,
            Event::Replied(RefreshReply::Found(file("r", "x", 6, "2")))
        ),
        Action::Claim(1)
    );
    // Somebody opened the file meanwhile.
    assert_eq!(
        pass.step(&mut retries, 0, Event::Idle(false)),
        Action::Finish(Ok(true))
    );

    let (mut pass, _) = Maintenance::start(vec![candidate(1, true)]);
    pass.step(&mut retries, 0, Event::Merged(Ok(())));
    pass.step(&mut retries, 0, Event::Idle(true));
    assert_eq!(
        pass.step(
            &mut retries,
            0,
            Event::Cached(Ok(Some(file("r", "x", 5, "1"))))
        ),
        Action::Claim(1)
    );
    assert_eq!(pass.step(&mut retries, 0, Event::Idle(true)), Action::Detach(1));
    assert_eq!(pass.target.as_ref().unwrap().id, "r");
    // It was saved meanwhile.
    assert_eq!(
        pass.step(&mut retries, 0, Event::Detached(Err(WriteError::Stale))),
        Action::Finish(Ok(true))
    );
}

#[test]
fn cancellation_abandons_stalled_metadata_without_detaching_clean_bytes() {
    let mut retries = Retries::new();
    let (mut pass, _) = Maintenance::start(vec![candidate(1, true)]);
    pass.step(&mut retries, 0, Event::Merged(Ok(())));
    pass.step(&mut retries, 0, Event::Idle(true));
    pass.step(&mut retries, 0, Event::Cached(Ok(None)));
    assert_eq!(
        pass.step(&mut retries, 0, Event::Cancelled),
        Action::Finish(Ok(false))
    );
    assert!(!retries.waits(1, 0));
}

#[test]
fn failed_durable_handoff_keeps_the_old_projection_and_retries_from_the_journal() {
    let mut retries = Retries::new();
    let (mut pass, _) = Maintenance::start(vec![candidate(1, true)]);
    pass.step(&mut retries, 0, Event::Merged(Ok(())));
    pass.step(&mut retries, 0, Event::Idle(true));
    pass.step(&mut retries, 0, Event::Cached(Ok(None)));
    pass.step(&mut retries, 0, Event::Replied(RefreshReply::Missing));
    assert_eq!(pass.target.as_ref().unwrap().size, 5);
    pass.step(&mut retries, 0, Event::Idle(true));
    assert_eq!(
        pass.step(&mut retries, 0, Event::Detached(Err(WriteError::Failure))),
        Action::Finish(Err(WriteError::Failure))
    );
    let (mut again, _) = Maintenance::start(vec![candidate(1, true)]);
    assert_eq!(
        again.step(&mut retries, 0, Event::Merged(Ok(()))),
        Action::Probe(1)
    );
}

#[test]
fn pending_and_open_objects_yield_to_others() {
    let mut retries = Retries::new();
    let (mut pass, action) =
        Maintenance::start(vec![candidate(1, false), candidate(2, true), candidate(3, true)]);
    assert_eq!(action, Action::Merge(1));
    assert_eq!(pass.step(&mut retries, 0, Event::Merged(Ok(()))), Action::Merge(2));
    assert_eq!(pass.cursor, Some(2));
    assert_eq!(pass.step(&mut retries, 0, Event::Merged(Ok(()))), Action::Probe(2));
    assert_eq!(pass.step(&mut retries, 0, Event::Idle(false)), Action::Merge(3));
    assert_eq!(pass.step(&mut retries, 0, Event::Merged(Ok(()))), Action::Probe(3));
    assert_eq!(pass.step(&mut retries, 0, Event::Idle(true)), Action::Look(3));
    assert_eq!(
        pass.step(&mut retries, 0, Event::Cached(Ok(None))),
        Action::Ask(3)
    );
    assert_eq!(
        pass.step(&mut retries, 0, Event::Replied(RefreshReply::Silent)),
        Action::Finish(Err(WriteError::TimedOut))
    );
    assert!(retries.waits(3, 1));
}

#[test]
fn readers_of_a_removed_file_get_local_bytes_first() {
    let mut retries = Retries::new();
    let removal = Removal {
        sequence: 4,
        operation: 40,
    };
    let removed = |streamed| Removed {
        object: 9,
        streamed,
        remote: Some(file("r", "x", 5, "1")),
    };
    let (mut pass, action) = Preservation::start(vec![removal]);
    assert_eq!(action, PreserveAction::Load(40));
    assert_eq!(pass.cursor, 4);
    assert_eq!(
        pass.step(&mut retries, 0, PreserveEvent::Loaded(Ok(removed(false)))),
        PreserveAction::List(9)
    );
    assert_eq!(
        pass.step(
            &mut retries,
            0,
            PreserveEvent::Readers(vec![file("r", "x", 5, "1")])
        ),
        PreserveAction::Fetch(9)
    );
    assert_eq!(
        pass.step(&mut retries, 0, PreserveEvent::Fetched(Ok(()))),
        PreserveAction::Recheck(9)
    );
    assert_eq!(
        pass.step(
            &mut retries,
            0,
            PreserveEvent::Rechecked {
                used: true,
                streamed: true
            }
        ),
        PreserveAction::Wait(9)
    );
    assert_eq!(
        pass.step(&mut retries, 0, PreserveEvent::Waited(Ok(()))),
        PreserveAction::Release(40)
    );
    assert_eq!(
        pass.step(&mut retries, 0, PreserveEvent::Released(Ok(()))),
        PreserveAction::Finish(Ok(true))
    );

    let (mut pass, _) = Preservation::start(vec![removal]);
    pass.step(&mut retries, 0, PreserveEvent::Loaded(Ok(removed(false))));
    assert_eq!(
        pass.step(
            &mut retries,
            0,
            PreserveEvent::Readers(vec![file("r", "x", 5, "0")])
        ),
        PreserveAction::Finish(Err(WriteError::Stale))
    );
    assert!(retries.waits(9, 1));
    let other = Removal {
        sequence: 5,
        operation: 50,
    };
    let (mut pass, _) = Preservation::start(vec![removal, other]);
    assert_eq!(
        pass.step(&mut retries, 1, PreserveEvent::Loaded(Ok(removed(false)))),
        PreserveAction::Load(50)
    );
    assert_eq!(pass.cursor, 5);
    let (mut pass, _) = Preservation::start(vec![removal]);
    pass.step(&mut retries, 100, PreserveEvent::Loaded(Ok(removed(true))));
    assert_eq!(
        pass.step(&mut retries, 100, PreserveEvent::Readers(vec![])),
        PreserveAction::Recheck(9)
    );
    assert_eq!(
        pass.step(
            &mut retries,
            100,
            PreserveEvent::Rechecked {
                used: true,
                streamed: false
            }
        ),
        PreserveAction::Finish(Err(WriteError::Again))
    );
}

#[test]
fn streams_are_filled_before_they_are_published() {
    let (mut opening, action) = Hydration::start(&view(file("r", "x", 10, "1"), false), false, false, 4);
    assert_eq!(action, HydrateAction::Reserve(10));
    assert_eq!(
        opening.step(HydrateEvent::Done(Ok(()))),
        HydrateAction::Fetch(0, 4)
    );
    assert_eq!(opening.step(HydrateEvent::Bytes(4)), HydrateAction::Fetch(4, 4));
    assert_eq!(opening.step(HydrateEvent::Bytes(3)), HydrateAction::Fetch(7, 3));
    assert_eq!(opening.step(HydrateEvent::Bytes(3)), HydrateAction::Publish);
    assert_eq!(
        opening.step(HydrateEvent::Done(Ok(()))),
        HydrateAction::Finish(Ok(()))
    );
    let (mut cut, action) = Hydration::start(&view(file("r", "x", 10, "1"), false), false, true, 4);
    assert_eq!(action, HydrateAction::Reserve(0));
    assert_eq!(cut.step(HydrateEvent::Done(Ok(()))), HydrateAction::Publish);
    assert_eq!(cut.step(HydrateEvent::Done(Ok(()))), HydrateAction::Truncate);
    let (_, action) = Hydration::start(&view(file("r", "x", 10, "1"), false), true, true, 4);
    assert_eq!(action, HydrateAction::Truncate);
    let (_, action) = Hydration::start(&view(file("r", "x", 10, "1"), true), false, false, 4);
    assert_eq!(action, HydrateAction::Finish(Err(WriteError::NotSupported)));
    let (mut dry, _) = Hydration::start(&view(file("r", "x", 10, "1"), false), false, false, 4);
    dry.step(HydrateEvent::Done(Ok(())));
    assert_eq!(
        dry.step(HydrateEvent::Bytes(0)),
        HydrateAction::Finish(Err(WriteError::Failure))
    );
}

#[test]
fn a_failed_capture_is_deferred_and_a_committed_one_is_not() {
    let (mut source, action) = SourcePreparation::start(Some(6), 3, 4);
    assert_eq!(action, SourceAction::Resume);
    assert_eq!(
        source.step(SourceEvent::Resumed(Ok(false))),
        SourceAction::Reserve
    );
    assert_eq!(
        source.step(SourceEvent::Done(Ok(()))),
        SourceAction::Fetch(0, 4)
    );
    assert_eq!(source.step(SourceEvent::Bytes(4)), SourceAction::Fetch(4, 2));
    assert_eq!(source.step(SourceEvent::Bytes(2)), SourceAction::Complete);
    assert_eq!(source.step(SourceEvent::Done(Ok(()))), SourceAction::Refresh);
    assert_eq!(
        source.step(SourceEvent::Done(Err(WriteError::Failure))),
        SourceAction::Finish(Err(WriteError::Failure))
    );
    let (mut source, _) = SourcePreparation::start(Some(6), 3, 4);
    source.step(SourceEvent::Resumed(Ok(false)));
    assert_eq!(
        source.step(SourceEvent::Done(Err(WriteError::Stale))),
        SourceAction::Defer(true, 8)
    );
    assert_eq!(
        source.step(SourceEvent::Done(Ok(()))),
        SourceAction::Finish(Err(WriteError::Stale))
    );
    let (mut source, _) = SourcePreparation::start(None, 9, 4);
    assert_eq!(
        source.step(SourceEvent::Resumed(Ok(false))),
        SourceAction::Defer(false, 32)
    );
    let (mut source, _) = SourcePreparation::start(None, 9, 4);
    assert_eq!(
        source.step(SourceEvent::Resumed(Err(WriteError::NoDevice))),
        SourceAction::Defer(false, 0)
    );
    let (mut source, _) = SourcePreparation::start(None, 9, 4);
    assert_eq!(
        source.step(SourceEvent::Resumed(Ok(true))),
        SourceAction::Refresh
    );
}

#[test]
fn a_later_state_of_a_stream_stays_shown() {
    let mut visible = VisibleFiles::new();
    visible.publish(stream(1, file("r", "x", 5, "1"), 2, true));
    let shown = visible.publish(stream(1, file("r", "x", 4, "1"), 1, true));
    assert_eq!((shown.generation, shown.node.size), (2, 5));
    let sealed = visible.publish(stream(1, file("r", "x", 5, "1"), 2, false));
    assert!(!sealed.dirty);
    let kept = visible.publish(stream(1, file("r", "x", 5, "1"), 2, true));
    assert!(!kept.dirty);
    assert_eq!(visible.working(&scope(), &"r".to_string()).unwrap().generation, 2);
    assert!(visible.working(&scope(), &"other".to_string()).is_none());
    let listing = visible.overlay(
        &scope(),
        "root",
        vec![file("r", "old", 1, "1"), file("q", "X", 1, "1"), file("z", "z", 1, "1")],
    );
    let names: Vec<&str> = listing.iter().map(|n| n.name.as_str()).collect();
    assert_eq!(names, ["z", "x"]);
}

#[test]
fn small_decisions_of_a_writable_mount() {
    assert!(may_write(true, false));
    assert!(!may_write(true, true));
    assert!(!may_write(false, false));
    assert_eq!(next_range(8, 10, 4), Some(2));
    assert_eq!(next_range(10, 10, 4), None);
    assert_eq!(write_position(true, 3, 9), 9);
    assert_eq!(write_position(false, 3, 9), 3);
    let waits: Vec<u64> = (0..7).map(backoff_seconds).collect();
    assert_eq!(waits, [1, 2, 4, 8, 16, 32, 60]);
    let reading = StreamUser { reading: true };
    let quiet = StreamUser { reading: false };
    assert!(!preserves_readers(true, &vec![quiet]));
    assert!(preserves_readers(true, &vec![quiet, reading]));
    assert!(preserves_readers(false, &vec![quiet]));
    assert!(!preserves_readers(false, &vec![]));
    assert!(replacement_needs_readers(false, &vec![], true, &vec![]));
    assert!(!replacement_needs_readers(true, &vec![quiet], true, &vec![quiet]));
    assert!(replacement_needs_readers(true, &vec![], false, &vec![quiet]));
    assert_eq!(answer_for(JournalError::Quota), WriteError::NoSpace);
    assert_eq!(answer_for(JournalError::Missing), WriteError::NotFound);
    assert_eq!(answer_for(JournalError::Account), WriteError::Access);
    assert_eq!(answer_for(JournalError::Intent), WriteError::Invalid);
    assert_eq!(answer_for(JournalError::Stale), WriteError::Stale);
    assert_eq!(answer_for(JournalError::Corrupt), WriteError::Failure);
}

#[test]
fn a_file_that_moved_away_is_neither_removed_nor_replaced() {
    let seen = file("r", "x", 5, "1");
    let there = object(1, seen.clone());
    assert_eq!(check_unlink(&there, &seen), Ok(()));
    assert_eq!(
        check_unlink(&there, &file("r", "y", 5, "1")),
        Err(WriteError::Stale)
    );
    let rootless = Node {
        parent_id: None,
        ..seen.clone()
    };
    assert_eq!(check_unlink(&there, &rootless), Err(WriteError::Invalid));
    let gone = NamespaceObject {
        unlinked: true,
        ..object(1, seen.clone())
    };
    assert_eq!(check_unlink(&gone, &seen), Err(WriteError::NotFound));
    assert_eq!(check_replace(&there, &seen, &there, &seen), Ok(()));
    assert_eq!(
        check_replace(&there, &seen, &there, &rootless),
        Err(WriteError::Stale)
    );
}

#[test]
fn a_path_is_walked_through_shortcuts() {
    assert_eq!(path_names("/Shared//report.txt/"), ["Shared", "report.txt"]);
    let mut walk = PathWalk::start(scope(), folder("root", ""), "Shared/report.txt");
    assert!(matches!(walk.action(), WalkAction::List { parent } if parent == "root"));
    let shortcut = Node {
        kind: NodeKind::Shortcut,
        target: Some(RemoteRef {
            collection: "d2".into(),
            item: "t".into(),
            kind: Some(NodeKind::Folder),
        }),
        ..folder("s", "Shared")
    };
    assert_eq!(walk.descend(&vec![file("q", "other", 1, "1")]), Err(WriteError::NotFound));
    walk.descend(&vec![shortcut]).unwrap();
    assert!(matches!(
        walk.action(),
        WalkAction::Follow { collection, item } if collection == "d2" && item == "t"
    ));
    let there = Scope {
        collection: "d2".into(),
        ..scope()
    };
    walk.arrive(there, folder("t", "Target"));
    assert!(matches!(walk.action(), WalkAction::List { parent } if parent == "t"));
    walk.descend(&vec![file("f", "report.txt", 5, "1")]).unwrap();
    assert!(matches!(walk.action(), WalkAction::Finish));
    assert_eq!(walk.scope.collection, "d2");
    assert_eq!(walk.node.id, "f");
}
