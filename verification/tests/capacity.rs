use cirrove_service::filesystem::capacity::{
    file_name_of, keeps_settling, mapping_node, memory_verdict, numbered, still_stable,
    FixtureError, GeneratedLibrary, Provider, Tree, MAPPED_SIZE, MEMORY_BUDGET_KIB,
};
use cirrove_service::filesystem::workload::{
    content_requests, memory_value, Phase, Round, Sample, SampleVerdict, Samples, Workload,
};
use cirrove_service::model::{NodeKind, Scope};

fn library() -> GeneratedLibrary {
    GeneratedLibrary {
        files: 5,
        per_directory: 2,
        revision: 3,
    }
}

fn scope(collection: &str) -> Scope {
    Scope {
        account: "a".into(),
        provider: "fixture".into(),
        collection: collection.into(),
    }
}

#[test]
fn numbers_are_padded() {
    assert_eq!(numbered("file-", 42, 8), "file-00000042");
    assert_eq!(numbered("level-", 123, 2), "level-123");
    assert_eq!(numbered("n", 0, 0), "n0");
    assert_eq!(file_name_of(7), "Projektunterlagen – Übersicht 00000007.txt");
}

#[test]
fn a_generated_library_numbers_its_items() {
    let library = library();
    assert_eq!(library.directories(), 3);
    assert_eq!(library.total(), 9);
    let root = library.node_at(0);
    assert_eq!((root.id.as_str(), root.name.as_str()), ("root", "Capacity fixture"));
    assert_eq!(root.parent_id, None);
    let directory = library.node_at(3);
    assert_eq!(directory.id, "directory-000002");
    assert_eq!(directory.kind, NodeKind::Folder);
    let last = library.node_at(8);
    assert_eq!(last.id, "synthetic-file-identity-00000004");
    assert_eq!(last.parent_id.as_deref(), Some("directory-000002"));
    assert_eq!(last.kind, NodeKind::File);
    assert_eq!(library.page(0), (9, true));
}

#[test]
fn a_tree_renames_and_changes_files_by_round() {
    let tree = Tree {
        files: 2000,
        per_directory: 100,
        mappings: false,
    };
    assert_eq!(tree.groups(), 20);
    assert_eq!(Tree::name(1500, 2), "renamed-leaf-00000002");
    assert_eq!(Tree::name(1500, 0), file_name_of(1500));
    let held = tree.file(3, 5);
    assert_eq!(held.parent_id.as_deref(), Some("group-000000"));
    let still = tree.file(1501, 5);
    assert_eq!(still.parent_id.as_deref(), Some("group-000015"));
    assert_eq!(held.etag.as_deref(), Some("revision-5"));
    assert_eq!(still.etag.as_deref(), Some("revision-0"));
}

#[test]
fn a_mapped_file_answers_only_for_its_revision() {
    let mut provider = Provider::new(library());
    assert_eq!(
        provider.check(&scope("elsewhere"), false),
        Err(FixtureError::NotFound)
    );
    assert_eq!(
        provider.check(&scope("shared"), true),
        Err(FixtureError::Cancelled)
    );
    let node = provider.node(&scope("shared"), false).unwrap();
    assert_eq!(node.size, MAPPED_SIZE);
    assert_eq!(provider.node_requests, 1);
    let bytes = provider
        .read_range(&scope("shared"), &node, MAPPED_SIZE - 3, 10, false)
        .unwrap();
    assert_eq!(bytes.len(), 3);
    provider.revision = 1;
    assert_eq!(
        provider.read_range(&scope("shared"), &node, 0, 10, false),
        Err(FixtureError::VersionChanged)
    );
    assert!(provider
        .read_range(&scope("shared"), &mapping_node(1), 0, 10, false)
        .is_ok());
    provider.offline = true;
    assert_eq!(
        provider.node(&scope("shared"), false).map(|n| n.id),
        Err(FixtureError::Unavailable)
    );
    assert_eq!(provider.content_requests, 3);
}

#[test]
fn memory_is_judged_only_at_scale_and_against_a_baseline() {
    assert_eq!(memory_verdict(10, Some(5), 99_999), None);
    assert_eq!(memory_verdict(10, None, 100_000), None);
    assert_eq!(memory_verdict(10, Some(50), 100_000), Some((0, true)));
    assert_eq!(
        memory_verdict(MEMORY_BUDGET_KIB + 1, Some(0), 100_000),
        Some((MEMORY_BUDGET_KIB + 1, false))
    );
    assert!(keeps_settling(7, 5));
    assert!(!keeps_settling(8, 2));
    assert!(keeps_settling(8, 1));
    assert!(!keeps_settling(25, 0));
    assert_eq!(still_stable(5, 5, 1), 2);
    assert_eq!(still_stable(4, 5, 1), 0);
}

fn workload() -> Workload {
    Workload {
        files: 8000,
        per_directory: 2000,
        seconds: 100,
        full_every: 2,
        stat_workers: 8,
        mappings: true,
    }
}

fn sample(anonymous_kib: u64) -> Sample {
    Sample {
        quarantined_views: 0,
        open_files: 24,
        open_directories: 3,
        largest_batch: 128,
        anonymous_kib,
    }
}

#[test]
fn workloads_are_bounded() {
    assert!(workload().check());
    assert!(!Workload { files: 3998, ..workload() }.check());
    assert!(!Workload { files: 8001, ..workload() }.check());
    assert!(!Workload { files: 500_002, ..workload() }.check());
    assert!(!Workload { per_directory: 4001, ..workload() }.check());
    assert!(!Workload { per_directory: 1999, ..workload() }.check());
    assert!(!Workload { seconds: 86_401, ..workload() }.check());
    assert!(!Workload { stat_workers: 0, ..workload() }.check());
    assert!(!Workload { stat_workers: 17, ..workload() }.check());
    assert_eq!(workload().charged(), 12_000);
    assert_eq!(
        workload().tree(),
        Tree { files: 4000, per_directory: 2000, mappings: true }
    );
}

#[test]
fn rounds_are_full_or_partial() {
    let full = Round { full: true, visits: 12_000, settled: false };
    for number in 1..=3 {
        assert_eq!(workload().round(number), full);
    }
    assert_eq!(
        workload().round(4),
        Round { full: false, visits: 6000, settled: false }
    );
    assert_eq!(
        workload().round(5),
        Round { full: true, visits: 12_000, settled: true }
    );
    let never = Workload { full_every: 0, ..workload() };
    assert!(never.round(3).full);
    assert!(!never.round(5).full);
    assert_eq!(workload().rest(0), 30);
    assert_eq!(workload().rest(90), 10);
    assert_eq!(workload().rest(101), 0);
    assert_eq!(content_requests(4), 10);
}

#[test]
fn a_round_changes_what_is_held_and_renamed() {
    let tree = workload().tree();
    assert_eq!(tree.total(true), 1 + 12 + 2 + 4000 + 2 + 1);
    assert_eq!(tree.total(false), 1 + 12 + 2 + 4000 + 1);
    assert_eq!(tree.page(0, true), (1000, false));
    assert_eq!(tree.page(4000, true), (4018, true));
    let changes = tree.changes(5);
    assert_eq!(changes.len(), 10);
    assert_eq!(changes[3].id, "file-00000003");
    assert_eq!(changes[3].etag.as_deref(), Some("revision-5"));
    assert_eq!(changes[8].name, "renamed-leaf-00000005");
    assert_eq!(changes[9].etag.as_deref(), Some("mapping-content-5"));
    let route = Tree::route(Some(1));
    assert_eq!(route.len(), 13);
    assert_eq!((route[0].as_str(), route[12].as_str()), ("Shared 1", "level-11"));
    assert_eq!(Tree::route(None)[0], "level-00");
}

#[test]
fn samples_are_judged_against_the_first() {
    let mut samples = Samples::new(100_000);
    assert_eq!(samples.take(sample(1000), Phase::IndexedBaseline), SampleVerdict::Sound);
    assert_eq!(samples.baseline, Some(1000));
    assert_eq!(samples.take(sample(500), Phase::IndexedBaseline), SampleVerdict::Sound);
    assert_eq!(samples.baseline, Some(1000));
    let limit = 1000 + MEMORY_BUDGET_KIB;
    assert_eq!(samples.take(sample(limit), Phase::Released), SampleVerdict::Sound);
    assert_eq!(
        samples.take(sample(limit + 1), Phase::Released),
        SampleVerdict::OverBudget { over: MEMORY_BUDGET_KIB + 1 }
    );
    assert_eq!(
        samples.take(sample(limit + 1), Phase::TraversedWithOldFiles),
        SampleVerdict::OverBudget { over: MEMORY_BUDGET_KIB + 1 }
    );
    assert_eq!(
        samples.take(sample(limit + 1), Phase::HeldBeforeUpdate),
        SampleVerdict::Sound
    );
    assert_eq!(
        samples.take(Sample { quarantined_views: 1, ..sample(0) }, Phase::Released),
        SampleVerdict::Quarantined
    );
    assert_eq!(
        samples.take(Sample { open_files: 33, ..sample(0) }, Phase::Released),
        SampleVerdict::TooManyFiles
    );
    assert_eq!(
        samples.take(Sample { open_directories: 9, ..sample(0) }, Phase::OfflineRemount),
        SampleVerdict::TooManyDirectories
    );
    assert_eq!(
        samples.take(Sample { largest_batch: 129, ..sample(0) }, Phase::Released),
        SampleVerdict::BatchTooLarge
    );
    let mut small = Samples::new(99_999);
    small.take(sample(0), Phase::IndexedBaseline);
    assert_eq!(small.take(sample(limit * 2), Phase::Released), SampleVerdict::Sound);
}

#[test]
fn memory_is_read_from_the_kernels_account() {
    let account = "Name:\tcirroved\nVmHWM:\t  2048 kB\nVmRSS:\t  1024 kB\nPss:\n";
    assert_eq!(memory_value(account, "VmRSS:"), Some(1024));
    assert_eq!(memory_value(account, "VmHWM:"), Some(2048));
    assert_eq!(memory_value(account, "Name:"), None);
    assert_eq!(memory_value(account, "Pss:"), None);
    assert_eq!(memory_value(account, "VmSwap:"), None);
}
