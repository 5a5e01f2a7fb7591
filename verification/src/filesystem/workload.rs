//! A workload that churns a generated tree: what it accepts, what each of its rounds
//! changes and visits, and what every sample of it must show.
use crate::filesystem::capacity::{
    changed_in, is_item, is_mapping, is_plain, mapping_node, memory_verdict,
    numbered, padded, tree_file_name, Tree, DEPTH, HELD_PER_ROUTE, MEMORY_BUDGET_KIB,
    MEMORY_GATE_MINIMUM_FILES, PAGE, RENAME_FILE,
};
use crate::model::{Node, NodeKind};
use crate::text::characters;
use crate::words::{
    begins, begins_with, lines, number_within, parse_within, split_lines, split_words, views, words,
};
use vstd::prelude::*;

verus! {

/// How many rounds open a run, all of them full.
pub const OPENING_ROUNDS: u64 = 3;

/// How many files may be open at a sample.
pub const OPEN_FILES: u64 = 32;

/// How many directories may be open at a sample.
pub const OPEN_DIRECTORIES: u64 = 8;

/// How many views one batch of invalidations may name.
pub const BATCH: u64 = 128;

/// The longest rest between two sustained rounds, in seconds.
pub const REST: u64 = 30;

/// What a run is asked for.
#[derive(Debug, Clone, Copy, PartialEq, Eq, Structural)]
pub struct Workload {
    /// The files of both collections.
    pub files: usize,
    pub per_directory: usize,
    /// For how long rounds follow the opening ones.
    pub seconds: u64,
    /// How often a sustained round is full; never, where it is zero.
    pub full_every: u64,
    pub stat_workers: usize,
    pub mappings: bool,
}

/// One round of a run.
#[derive(Debug, Clone, Copy, PartialEq, Eq, Structural)]
pub struct Round {
    /// Whether every group is traversed and the views are let go afterwards.
    pub full: bool,
    /// How many entries the traversal visits over the three routes.
    pub visits: usize,
    /// Whether what is held at its end is a point of the plateau.
    pub settled: bool,
}

impl Workload {
    /// The run can be made.
    pub open spec fn accepted(&self) -> bool {
        &&& 4000 <= self.files <= 500_000
        &&& self.files % 2 == 0
        &&& 2000 <= self.per_directory <= self.files / 2
        &&& self.seconds <= 86_400
        &&& 1 <= self.stat_workers <= 16
    }

    /// The tree of the run: half of the files lie in each collection.
    pub open spec fn planted(&self) -> Tree {
        Tree {
            files: (self.files / 2) as usize,
            per_directory: self.per_directory,
            mappings: self.mappings,
        }
    }

    /// Whether a round is full.
    pub open spec fn is_full(&self, number: int) -> bool {
        number <= OPENING_ROUNDS || self.full_every > 0 && (number - OPENING_ROUNDS) % (
        self.full_every as int) == 0
    }

    /// Whether the run can be made.
    pub fn check(&self) -> (ok: bool)
        ensures
            ok == self.accepted(),
    {
        4000 <= self.files && self.files <= 500_000 && self.files % 2 == 0 && 2000
            <= self.per_directory && self.per_directory <= self.files / 2 && self.seconds <= 86_400
            && 1 <= self.stat_workers && self.stat_workers <= 16
    }

    /// The tree of the run.
    pub fn tree(&self) -> (tree: Tree)
        requires
            self.accepted(),
        ensures
            tree == self.planted(),
            tree.wf(),
    {
        proof {
            lemma_planted(*self);
        }
        Tree {
            files: self.files / 2,
            per_directory: self.per_directory,
            mappings: self.mappings,
        }
    }

    /// How many views the charge of the run is walked over: one and a half for each file.
    pub fn charged(&self) -> (views: usize)
        requires
            self.accepted(),
        ensures
            views == self.files * 3 / 2,
    {
        self.files * 3 / 2
    }

    /// What a round of the run does.
    pub fn round(&self, number: u64) -> (round: Round)
        requires
            self.accepted(),
        ensures
            round.full == self.is_full(number as int),
            round.visits == visited(self.planted(), round.full),
            round.settled == (round.full && number > OPENING_ROUNDS),
    {
        let full = number <= OPENING_ROUNDS || self.full_every > 0 && (number - OPENING_ROUNDS)
            % self.full_every == 0;
        let tree = self.tree();
        let entries: usize = if full || tree.files < tree.per_directory {
            tree.files
        } else {
            tree.per_directory
        };
        Round { full, visits: 3 * entries, settled: full && number > OPENING_ROUNDS }
    }

    /// How long the run rests after a sustained round.
    pub fn rest(&self, elapsed: u64) -> (seconds: u64)
        ensures
            seconds == (if elapsed >= self.seconds {
                0
            } else if self.seconds - elapsed < REST {
                self.seconds - elapsed
            } else {
                REST as int
            }),
    {
        if elapsed >= self.seconds {
            0
        } else if self.seconds - elapsed < REST {
            self.seconds - elapsed
        } else {
            REST
        }
    }
}

proof fn lemma_planted(workload: Workload)
    requires
        workload.accepted(),
    ensures
        workload.planted().wf(),
{
    let files = (workload.files / 2) as int;
    let per = workload.per_directory as int;
    assert((files + per - 1) / per <= files && 1 <= (files + per - 1) / per) by (nonlinear_arith)
        requires
            2000 <= per <= files,
    ;
}

/// How many entries a traversal visits over the three routes: all files of the tree, or
/// those of its first group.
pub open spec fn visited(tree: Tree, full: bool) -> int {
    3 * (if full || tree.files < tree.per_directory {
        tree.files as int
    } else {
        tree.per_directory as int
    })
}

/// How often content has been asked for after a round: twice for every version that the
/// mapped file has had.
pub fn content_requests(number: u64) -> (count: u64)
    requires
        2 * (number + 1) <= u64::MAX,
    ensures
        count == 2 * (number + 1),
{
    2 * (number + 1)
}

impl Tree {
    /// How many items a collection of the tree has.
    pub fn total(&self, primary: bool) -> (count: usize)
        requires
            self.wf(),
        ensures
            count == self.item_count(primary),
    {
        let mut count: usize = 1 + DEPTH + self.groups() + self.files;
        if primary {
            count = count + 2;
        }
        if self.mappings {
            count = count + 1;
        }
        count
    }

    /// The end of the page of changes that starts here, and whether it is the last.
    pub fn page(&self, start: usize, primary: bool) -> (page: (usize, bool))
        requires
            self.wf(),
            start < self.item_count(primary),
        ensures
            page.0 == (if start + PAGE < self.item_count(primary) {
                start + PAGE
            } else {
                self.item_count(primary)
            }),
            page.1 == (page.0 == self.item_count(primary)),
    {
        let total = self.total(primary);
        let end: usize = if total - start > PAGE {
            start + PAGE
        } else {
            total
        };
        (end, end == total)
    }

    /// The node is a file of the tree in a round.
    pub open spec fn is_file(&self, node: Node, file: nat, round: nat) -> bool {
        &&& is_plain(node, "revision-"@ + padded(changed_in(file, round), 0))
        &&& is_item(
            node,
            "file-"@ + padded(file, 8),
            Some("group-"@ + padded((file as int / self.per_directory as int) as nat, 6)),
            tree_file_name(file, round),
            NodeKind::File,
        )
    }

    /// What a round changes in each collection: the files that are held open, the file
    /// that is renamed, and the file that is mapped where there is one.
    pub fn changes(&self, round: u64) -> (nodes: Vec<Node>)
        requires
            self.wf(),
        ensures
            nodes@.len() == HELD_PER_ROUTE + 1 + (if self.mappings {
                1int
            } else {
                0int
            }),
            forall|i: int|
                0 <= i < HELD_PER_ROUTE ==> self.is_file(
                    #[trigger] nodes@[i],
                    i as nat,
                    round as nat,
                ),
            self.is_file(nodes@[HELD_PER_ROUTE as int], RENAME_FILE as nat, round as nat),
            self.mappings ==> is_mapping(nodes@[HELD_PER_ROUTE + 1], round as nat),
    {
        let mut nodes: Vec<Node> = Vec::new();
        let mut file: u64 = 0;
        while file < HELD_PER_ROUTE
            invariant
                self.wf(),
                file <= HELD_PER_ROUTE,
                nodes@.len() == file,
                forall|i: int|
                    0 <= i < file ==> self.is_file(#[trigger] nodes@[i], i as nat, round as nat),
            decreases HELD_PER_ROUTE - file,
        {
            nodes.push(self.file(file, round));
            file = file + 1;
        }
        nodes.push(self.file(RENAME_FILE, round));
        if self.mappings {
            nodes.push(mapping_node(round));
        }
        nodes
    }

    /// The names on the way from the mount to the groups: by the root, or by one of the
    /// two shortcuts.
    pub fn route(shortcut: Option<u64>) -> (names: Vec<String>)
        ensures
            names@.len() == DEPTH + (if shortcut is Some {
                1int
            } else {
                0int
            }),
            shortcut is Some ==> names@[0]@ == "Shared "@ + padded(shortcut->0 as nat, 0),
            forall|n: int|
                0 <= n < DEPTH ==> (#[trigger] names@[n + names@.len() - DEPTH])@ == "level-"@
                    + padded(n as nat, 2),
    {
        let mut names: Vec<String> = Vec::new();
        if let Some(alias) = shortcut {
            names.push(numbered("Shared ", alias, 0));
        }
        let ghost before = names@.len() as int;
        let mut level: usize = 0;
        while level < DEPTH
            invariant
                level <= DEPTH,
                0 <= before <= 1,
                before == (if shortcut is Some {
                    1int
                } else {
                    0int
                }),
                names@.len() == before + level,
                shortcut is Some ==> names@[0]@ == "Shared "@ + padded(shortcut->0 as nat, 0),
                forall|i: int|
                    before <= i < before + level ==> (#[trigger] names@[i])@ == "level-"@ + padded(
                        (i - before) as nat,
                        2,
                    ),
            decreases DEPTH - level,
        {
            names.push(numbered("level-", level as u64, 2));
            level = level + 1;
        }
        names
    }
}

/// When a sample is taken.
#[derive(Debug, Clone, Copy, PartialEq, Eq, Structural)]
pub enum Phase {
    IndexedBaseline,
    HeldBeforeUpdate,
    TraversedWithOldFiles,
    Released,
    OfflineRemount,
}

/// What a sample counts.
#[derive(Debug, Clone, Copy, PartialEq, Eq, Structural)]
pub struct Sample {
    pub quarantined_views: u64,
    pub open_files: u64,
    pub open_directories: u64,
    pub largest_batch: u64,
    pub anonymous_kib: u64,
}

/// What a sample shows.
#[derive(Debug, Clone, Copy, PartialEq, Eq, Structural)]
pub enum SampleVerdict {
    /// A view is quarantined.
    Quarantined,
    TooManyFiles,
    TooManyDirectories,
    BatchTooLarge,
    /// What is held over the baseline is more than the budget.
    OverBudget { over: u64 },
    Sound,
}

/// Whether the memory of a phase is judged: where views are held, and where they have
/// been let go.
pub open spec fn judged(phase: Phase) -> bool {
    phase is Released || phase is TraversedWithOldFiles
}

/// What is held over a baseline.
pub open spec fn held_over(observed: u64, baseline: u64) -> u64 {
    if observed > baseline {
        (observed - baseline) as u64
    } else {
        0
    }
}

/// What a sample shows.
pub open spec fn sample_shows(
    sample: Sample,
    phase: Phase,
    baseline: Option<u64>,
    files: usize,
) -> SampleVerdict {
    if sample.quarantined_views != 0 {
        SampleVerdict::Quarantined
    } else if sample.open_files > OPEN_FILES {
        SampleVerdict::TooManyFiles
    } else if sample.open_directories > OPEN_DIRECTORIES {
        SampleVerdict::TooManyDirectories
    } else if sample.largest_batch > BATCH {
        SampleVerdict::BatchTooLarge
    } else if judged(phase) && files >= MEMORY_GATE_MINIMUM_FILES && baseline is Some && held_over(
        sample.anonymous_kib,
        baseline->0,
    ) > MEMORY_BUDGET_KIB {
        SampleVerdict::OverBudget { over: held_over(sample.anonymous_kib, baseline->0) }
    } else {
        SampleVerdict::Sound
    }
}

/// The samples of a run: the first indexed one is the baseline of the others.
#[derive(Debug, Clone, Copy, PartialEq, Eq, Structural)]
pub struct Samples {
    pub files: usize,
    pub baseline: Option<u64>,
}

impl Samples {
    /// No samples yet.
    pub fn new(files: usize) -> (samples: Self)
        ensures
            samples.files == files,
            samples.baseline is None,
    {
        Samples { files, baseline: None }
    }

    /// Takes a sample.
    pub fn take(&mut self, sample: Sample, phase: Phase) -> (verdict: SampleVerdict)
        ensures
            final(self).files == old(self).files,
            verdict == sample_shows(sample, phase, final(self).baseline, old(self).files),
            final(self).baseline == (if phase is IndexedBaseline && old(self).baseline is None && !(
            verdict is Quarantined || verdict is TooManyFiles || verdict is TooManyDirectories
                || verdict is BatchTooLarge) {
                Some(sample.anonymous_kib)
            } else {
                old(self).baseline
            }),
    {
        if sample.quarantined_views != 0 {
            return SampleVerdict::Quarantined;
        }
        if sample.open_files > OPEN_FILES {
            return SampleVerdict::TooManyFiles;
        }
        if sample.open_directories > OPEN_DIRECTORIES {
            return SampleVerdict::TooManyDirectories;
        }
        if sample.largest_batch > BATCH {
            return SampleVerdict::BatchTooLarge;
        }
        match phase {
            Phase::IndexedBaseline => {
                if self.baseline.is_none() {
                    self.baseline = Some(sample.anonymous_kib);
                }
                SampleVerdict::Sound
            },
            Phase::Released | Phase::TraversedWithOldFiles => match memory_verdict(
                sample.anonymous_kib,
                self.baseline,
                self.files,
            ) {
                Some((over, false)) => SampleVerdict::OverBudget { over },
                _ => SampleVerdict::Sound,
            },
            _ => SampleVerdict::Sound,
        }
    }
}

/// The number that stands behind a key, on the first line that begins with the key.
pub open spec fn value_behind(all: Seq<Seq<char>>, key: Seq<char>) -> Option<u64>
    decreases all.len(),
{
    if all.len() == 0 {
        None
    } else if begins(all[0], key) {
        if words(all[0]).len() > 1 {
            number_within(words(all[0])[1], u64::MAX)
        } else {
            None
        }
    } else {
        value_behind(all.drop_first(), key)
    }
}

/// The number that the kernel's account of a process has behind a key, such as its
/// resident memory in KiB.
pub fn memory_value(account: &str, key: &str) -> (value: Option<u64>)
    ensures
        value == value_behind(lines(account@), key@),
{
    let all = split_lines(&characters(account));
    let start = characters(key);
    let ghost seen = views(all@);
    let mut i: usize = 0;
    proof {
        assert(seen.subrange(0, seen.len() as int) =~= seen);
    }
    while i < all.len()
        invariant
            i <= all@.len(),
            seen == views(all@),
            seen == lines(account@),
            start@ == key@,
            value_behind(lines(account@), key@) == value_behind(
                seen.subrange(i as int, seen.len() as int),
                key@,
            ),
        decreases all@.len() - i,
    {
        proof {
            let rest = seen.subrange(i as int, seen.len() as int);
            assert(rest[0] == all@[i as int]@);
            assert(rest.drop_first() =~= seen.subrange(i + 1, seen.len() as int));
        }
        if begins_with(&all[i], &start) {
            let fields = split_words(&all[i]);
            if fields.len() > 1 {
                proof {
                    assert(views(fields@)[1] == fields@[1]@);
                }
                return parse_within(&fields[1], u64::MAX);
            }
            return None;
        }
        i = i + 1;
    }
    None
}

/// The opening rounds are full; and where a sustained round is never full, none of them is
/// a point of the plateau.
pub proof fn only_full_rounds_settle(workload: Workload, number: int)
    requires
        workload.accepted(),
    ensures
        number <= OPENING_ROUNDS ==> workload.is_full(number),
        number > OPENING_ROUNDS && workload.full_every == 0 ==> !workload.is_full(number),
{
}

/// A run has enough files for both collections to fill a directory, and the limits that it can
/// be made with.
pub proof fn runs_are_made_within_limits(workload: Workload)
    ensures
        workload.accepted() ==> {
            &&& workload.planted().files * 2 == workload.files
            &&& 2000 <= workload.planted().per_directory <= workload.planted().files
            &&& 4000 <= workload.files <= 500_000
            &&& workload.seconds <= 86_400
            &&& 1 <= workload.stat_workers <= 16
        },
        workload.full_every > 0 ==> workload.is_full(3 + workload.full_every as int),
        visited(workload.planted(), true) == 3 * workload.planted().files,
        visited(workload.planted(), false) <= visited(workload.planted(), true),
        workload.accepted() ==> visited(workload.planted(), false) == 3 * workload.per_directory,
{
}

/// A sample is sound only where nothing is quarantined, few files and directories are open, no
/// batch was too large, and what is held where it is judged is within the budget.
pub proof fn sound_samples_stay_within_their_limits(
    sample: Sample,
    phase: Phase,
    baseline: Option<u64>,
    files: usize,
)
    ensures
        sample_shows(sample, phase, baseline, files) is Sound <==> {
            &&& sample.quarantined_views == 0
            &&& sample.open_files <= 32
            &&& sample.open_directories <= 8
            &&& sample.largest_batch <= 128
            &&& (phase is Released || phase is TraversedWithOldFiles) && files >= 100_000
                && baseline is Some ==> sample.anonymous_kib <= baseline->0 + 262_144
        },
        sample.quarantined_views > 0 ==> sample_shows(sample, phase, baseline, files)
            is Quarantined,
        sample_shows(sample, phase, baseline, files) matches SampleVerdict::OverBudget { over }
            ==> over == sample.anonymous_kib - baseline->0,
{
}

} // verus!
