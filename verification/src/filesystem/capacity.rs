//! Generated libraries of any size, for measuring a mount without a provider: every
//! item follows from its index, so that nothing has to be kept.
use crate::model::{Node, NodeKind, RemoteRef, Scope};
use crate::text::{append, push_char, same_text};
use crate::words::{all_digits, decimal, is_digit};
use vstd::prelude::*;

verus! {

/// The character of a digit.
pub open spec fn digit(value: nat) -> char {
    if value == 0 {
        '0'
    } else if value == 1 {
        '1'
    } else if value == 2 {
        '2'
    } else if value == 3 {
        '3'
    } else if value == 4 {
        '4'
    } else if value == 5 {
        '5'
    } else if value == 6 {
        '6'
    } else if value == 7 {
        '7'
    } else if value == 8 {
        '8'
    } else {
        '9'
    }
}

/// A number in decimal digits.
pub open spec fn digits(value: nat) -> Seq<char>
    decreases value,
{
    if value < 10 {
        seq![digit(value)]
    } else {
        digits(value / 10).push(digit(value % 10))
    }
}

/// A number in decimal digits, with zeros before it up to a width.
pub open spec fn padded(value: nat, width: nat) -> Seq<char> {
    if digits(value).len() >= width {
        digits(value)
    } else {
        Seq::new((width - digits(value).len()) as nat, |i: int| '0') + digits(value)
    }
}

/// The character of a digit.
fn digit_char(value: u64) -> (c: char)
    requires
        value < 10,
    ensures
        c == digit(value as nat),
{
    match value {
        0 => '0',
        1 => '1',
        2 => '2',
        3 => '3',
        4 => '4',
        5 => '5',
        6 => '6',
        7 => '7',
        8 => '8',
        _ => '9',
    }
}

/// How many digits a number has.
fn digit_count(value: u64) -> (count: usize)
    ensures
        count == digits(value as nat).len(),
        count <= 20,
{
    let mut rest: u64 = value;
    let mut count: usize = 1;
    let ghost mut limit: nat = 1;
    proof {
        assert(digits(value as nat).len() >= 1);
    }
    while rest >= 10
        invariant
            1 <= count <= 20,
            count + digits(rest as nat).len() == 1 + digits(value as nat).len(),
            limit >= 1,
            rest * limit <= value,
            count == 1 ==> limit == 1,
            count == 2 ==> limit == 10,
            count == 3 ==> limit == 100,
            count == 4 ==> limit == 1000,
            count == 5 ==> limit == 10_000,
            count == 6 ==> limit == 100_000,
            count == 7 ==> limit == 1_000_000,
            count == 8 ==> limit == 10_000_000,
            count == 9 ==> limit == 100_000_000,
            count == 10 ==> limit == 1_000_000_000,
            count == 11 ==> limit == 10_000_000_000,
            count == 12 ==> limit == 100_000_000_000,
            count == 13 ==> limit == 1_000_000_000_000,
            count == 14 ==> limit == 10_000_000_000_000,
            count == 15 ==> limit == 100_000_000_000_000,
            count == 16 ==> limit == 1_000_000_000_000_000,
            count == 17 ==> limit == 10_000_000_000_000_000,
            count == 18 ==> limit == 100_000_000_000_000_000,
            count == 19 ==> limit == 1_000_000_000_000_000_000,
            count == 20 ==> limit == 10_000_000_000_000_000_000,
        decreases rest,
    {
        proof {
            assert((rest / 10) * (limit * 10) <= rest * limit) by (nonlinear_arith)
                requires
                    limit >= 1,
            ;
            if count == 20 {
                assert(rest * limit >= 10 * limit) by (nonlinear_arith)
                    requires
                        rest >= 10,
                        limit >= 1,
                ;
            }
            limit = limit * 10;
        }
        rest = rest / 10;
        count = count + 1;
    }
    count
}

/// Puts a number in decimal digits behind a text.
fn push_digits(text: &mut String, value: u64)
    ensures
        final(text)@ == old(text)@ + digits(value as nat),
    decreases value,
{
    let ghost start = text@;
    if value >= 10 {
        push_digits(text, value / 10);
        push_char(text, digit_char(value % 10));
        proof {
            assert((start + digits((value / 10) as nat)).push(digit((value % 10) as nat))
                =~= start + digits(value as nat));
        }
    } else {
        push_char(text, digit_char(value));
        proof {
            assert(start.push(digit(value as nat)) =~= start + digits(value as nat));
        }
    }
}

/// A text with a padded number behind it.
pub fn numbered(prefix: &str, value: u64, width: usize) -> (text: String)
    ensures
        text@ == prefix@ + padded(value as nat, width as nat),
{
    let mut text = prefix.to_owned();
    let count = digit_count(value);
    let mut zeros: usize = if count >= width {
        0
    } else {
        width - count
    };
    let ghost all = zeros;
    let ghost start = prefix@;
    proof {
        assert(start + Seq::new(0, |i: int| '0') =~= start);
    }
    while zeros > 0
        invariant
            zeros <= all,
            text@ == start + Seq::new((all - zeros) as nat, |i: int| '0'),
        decreases zeros,
    {
        push_char(&mut text, '0');
        zeros = zeros - 1;
        proof {
            assert((start + Seq::new((all - zeros - 1) as nat, |i: int| '0')).push('0') =~= start
                + Seq::new((all - zeros) as nat, |i: int| '0'));
        }
    }
    let ghost before = text@;
    push_digits(&mut text, value);
    proof {
        if count >= width {
            assert(before =~= start);
        } else {
            assert(before + digits(value as nat) =~= start + (Seq::new(
                all as nat,
                |i: int| '0',
            ) + digits(value as nat)));
        }
    }
    text
}

/// How many items one page of changes has.
pub const PAGE: usize = 1000;

/// When every generated item was changed.
pub const MODIFIED: u64 = 1_700_000_000;

/// A library of files in equal directories below the root.
#[derive(Debug)]
pub struct GeneratedLibrary {
    pub files: usize,
    pub per_directory: usize,
    pub revision: u64,
}

/// What a generated item is.
pub enum GeneratedItem {
    Root,
    Directory(int),
    File(int),
}

/// The number of directories that hold so many files.
pub open spec fn directory_count(files: int, per_directory: int) -> int {
    (files + per_directory - 1) / per_directory
}

/// What the item at this index is: the root, then the directories, then the files.
pub open spec fn item_at(files: int, per_directory: int, index: int) -> GeneratedItem {
    if index == 0 {
        GeneratedItem::Root
    } else if index <= directory_count(files, per_directory) {
        GeneratedItem::Directory(index - 1)
    } else {
        GeneratedItem::File(index - directory_count(files, per_directory) - 1)
    }
}

/// The node has this identity, place, name and kind.
pub open spec fn is_item(
    node: Node,
    id: Seq<char>,
    parent: Option<Seq<char>>,
    name: Seq<char>,
    kind: NodeKind,
) -> bool {
    &&& node@.id == id
    &&& node@.parent_id == parent
    &&& node@.name == name
    &&& node@.kind == kind
}

/// The node is empty, has no content version and leads nowhere.
pub open spec fn is_plain(node: Node, etag: Seq<char>) -> bool {
    &&& node@.size == 0
    &&& node@.modified_unix == MODIFIED
    &&& node@.etag == Some(etag)
    &&& node@.content_version is None
    &&& node@.target is None
}

/// An empty node.
fn plain(id: String, parent_id: Option<String>, name: String, kind: NodeKind, etag: String) -> (node:
    Node)
    ensures
        is_item(node, id@, crate::text::optional_view(parent_id), name@, kind),
        is_plain(node, etag@),
{
    Node {
        id,
        parent_id,
        name,
        kind,
        size: 0,
        modified_unix: MODIFIED,
        etag: Some(etag),
        content_version: None,
        target: None,
    }
}

/// The name of a generated file.
pub open spec fn file_name(file: nat) -> Seq<char> {
    "Projektunterlagen – Übersicht "@ + padded(file, 8) + ".txt"@
}

/// The name of a generated file.
pub fn file_name_of(file: u64) -> (name: String)
    ensures
        name@ == file_name(file as nat),
{
    let mut name = numbered("Projektunterlagen – Übersicht ", file, 8);
    append(&mut name, ".txt");
    name
}

/// How many directories the files need.
fn count_directories(files: usize, per_directory: usize) -> (count: usize)
    requires
        per_directory > 0,
    ensures
        count == directory_count(files as int, per_directory as int),
        count <= files,
{
    proof {
        lemma_directories(files as int, per_directory as int);
        lemma_whole_directories(files as int, per_directory as int);
    }
    let whole: usize = files / per_directory;
    if files % per_directory > 0 {
        whole + 1
    } else {
        whole
    }
}

proof fn lemma_whole_directories(files: int, per_directory: int)
    by (nonlinear_arith)
    requires
        per_directory > 0,
        files >= 0,
    ensures
        (files + per_directory - 1) / per_directory == files / per_directory + (if files
            % per_directory > 0 {
            1int
        } else {
            0int
        }),
{
}

impl GeneratedLibrary {
    /// The library can be counted.
    pub open spec fn wf(&self) -> bool {
        &&& 0 < self.per_directory
        &&& self.files + directory_count(self.files as int, self.per_directory as int) + 1
            <= usize::MAX
    }

    /// How many directories there are.
    pub fn directories(&self) -> (count: usize)
        requires
            self.wf(),
        ensures
            count == directory_count(self.files as int, self.per_directory as int),
            count <= self.files,
    {
        count_directories(self.files, self.per_directory)
    }

    /// How many items there are.
    pub fn total(&self) -> (count: usize)
        requires
            self.wf(),
        ensures
            count == self.files + directory_count(
                self.files as int,
                self.per_directory as int,
            ) + 1,
    {
        self.files + self.directories() + 1
    }

    /// The item at this index.
    pub fn node_at(&self, index: usize) -> (node: Node)
        requires
            self.wf(),
            index < self.files + directory_count(
                self.files as int,
                self.per_directory as int,
            ) + 1,
        ensures
            is_plain(node, "revision-"@ + padded(self.revision as nat, 0)),
            match item_at(self.files as int, self.per_directory as int, index as int) {
                GeneratedItem::Root => is_item(
                    node,
                    "root"@,
                    None,
                    "Capacity fixture"@,
                    NodeKind::Folder,
                ),
                GeneratedItem::Directory(n) => is_item(
                    node,
                    "directory-"@ + padded(n as nat, 6),
                    Some("root"@),
                    "directory-"@ + padded(n as nat, 6),
                    NodeKind::Folder,
                ),
                GeneratedItem::File(n) => is_item(
                    node,
                    "synthetic-file-identity-"@ + padded(n as nat, 8),
                    Some("directory-"@ + padded((n / self.per_directory as int) as nat, 6)),
                    file_name(n as nat),
                    NodeKind::File,
                ),
            },
    {
        let etag = numbered("revision-", self.revision, 0);
        let directories = self.directories();
        if index == 0 {
            return plain(
                "root".to_owned(),
                None,
                "Capacity fixture".to_owned(),
                NodeKind::Folder,
                etag,
            );
        }
        if index <= directories {
            let name = numbered("directory-", (index - 1) as u64, 6);
            let id = name.clone();
            return plain(id, Some("root".to_owned()), name, NodeKind::Folder, etag);
        }
        let file: usize = index - directories - 1;
        plain(
            numbered("synthetic-file-identity-", file as u64, 8),
            Some(numbered("directory-", (file / self.per_directory) as u64, 6)),
            file_name_of(file as u64),
            NodeKind::File,
            etag,
        )
    }

    /// The end of the page of changes that starts here, and whether it is the last.
    pub fn page(&self, start: usize) -> (page: (usize, bool))
        requires
            self.wf(),
            start + PAGE <= usize::MAX,
        ensures
            ({
                let total = self.files + directory_count(
                    self.files as int,
                    self.per_directory as int,
                ) + 1;
                let end = if start + PAGE < total {
                    start + PAGE
                } else {
                    total
                };
                page.0 == end && page.1 == (end == total)
            }),
    {
        let total = self.total();
        let end: usize = if start + PAGE < total {
            start + PAGE
        } else {
            total
        };
        (end, end == total)
    }
}

proof fn lemma_directories(files: int, per_directory: int)
    by (nonlinear_arith)
    requires
        per_directory > 0,
        files >= 0,
    ensures
        0 <= (files + per_directory - 1) / per_directory <= files,
        files > 0 ==> (files - 1) / per_directory < (files + per_directory - 1) / per_directory,
{
}

/// Every file lies in one of the directories.
pub proof fn every_file_has_a_directory(library: GeneratedLibrary, file: int)
    requires
        library.wf(),
        0 <= file < library.files,
    ensures
        0 <= file / (library.per_directory as int),
        (file / (library.per_directory as int)) < directory_count(
            library.files as int,
            library.per_directory as int,
        ),
{
    lemma_directories(library.files as int, library.per_directory as int);
    let per = library.per_directory as int;
    let last = library.files - 1;
    assert(file / per <= last / per) by (nonlinear_arith)
        requires
            0 <= file <= last,
            per > 0,
    ;
    assert(0 <= file / per) by (nonlinear_arith)
        requires
            0 <= file,
            per > 0,
    ;
}

/// How deep the groups of a churned tree lie.
pub const DEPTH: usize = 12;

/// The file that is renamed in every round.
pub const RENAME_FILE: u64 = 1500;

/// How many files of each route stay open.
pub const HELD_PER_ROUTE: u64 = 8;

/// A deep tree of groups that is reached by a root and by two shortcuts, and whose
/// files change from round to round.
#[derive(Debug, Clone, Copy, PartialEq, Eq, Structural)]
pub struct Tree {
    pub files: usize,
    pub per_directory: usize,
    pub mappings: bool,
}

/// The name of a file of the tree in a round.
pub open spec fn tree_file_name(file: nat, round: nat) -> Seq<char> {
    if file == RENAME_FILE && round > 0 {
        "renamed-leaf-"@ + padded(round, 8)
    } else {
        file_name(file)
    }
}

/// The round in which a file last changed.
pub open spec fn changed_in(file: nat, round: nat) -> nat {
    if file < HELD_PER_ROUTE || file == RENAME_FILE {
        round
    } else {
        0
    }
}

/// What the item at an index of the tree is.
pub enum TreeItem {
    Root,
    Level(int),
    Group(int),
    File(int),
    Shortcut(int),
    Mapping,
}

impl Tree {
    /// The tree can be counted.
    pub open spec fn wf(&self) -> bool {
        &&& 0 < self.per_directory
        &&& self.item_count(true) <= usize::MAX
    }

    /// How many groups the files need.
    pub open spec fn group_count(&self) -> int {
        directory_count(self.files as int, self.per_directory as int)
    }

    /// How many items the tree has in one of its two collections.
    pub open spec fn item_count(&self, primary: bool) -> int {
        1 + DEPTH + self.group_count() + self.files + (if primary {
            2int
        } else {
            0int
        }) + (if self.mappings {
            1int
        } else {
            0int
        })
    }

    /// What the item at this index is.
    pub open spec fn item(&self, index: int, primary: bool) -> TreeItem {
        let before = DEPTH + self.group_count() + self.files;
        if self.mappings && index == 1 + before + (if primary {
            2int
        } else {
            0int
        }) {
            TreeItem::Mapping
        } else if index == 0 {
            TreeItem::Root
        } else if index <= DEPTH {
            TreeItem::Level(index - 1)
        } else if index <= DEPTH + self.group_count() {
            TreeItem::Group(index - DEPTH - 1)
        } else if index <= before {
            TreeItem::File(index - DEPTH - self.group_count() - 1)
        } else {
            TreeItem::Shortcut(index - before - 1)
        }
    }

    /// How many groups the files need.
    pub fn groups(&self) -> (count: usize)
        requires
            self.wf(),
        ensures
            count == self.group_count(),
            count <= self.files,
    {
        count_directories(self.files, self.per_directory)
    }

    /// The name of a file in a round.
    pub fn name(file: u64, round: u64) -> (name: String)
        ensures
            name@ == tree_file_name(file as nat, round as nat),
    {
        if file == RENAME_FILE && round > 0 {
            return numbered("renamed-leaf-", round, 8);
        }
        file_name_of(file)
    }

    /// A file in a round.
    pub fn file(&self, file: u64, round: u64) -> (node: Node)
        requires
            self.wf(),
        ensures
            is_plain(node, "revision-"@ + padded(changed_in(file as nat, round as nat), 0)),
            is_item(
                node,
                "file-"@ + padded(file as nat, 8),
                Some("group-"@ + padded((file as int / self.per_directory as int) as nat, 6)),
                tree_file_name(file as nat, round as nat),
                NodeKind::File,
            ),
    {
        let revision: u64 = if file < HELD_PER_ROUTE || file == RENAME_FILE {
            round
        } else {
            0
        };
        plain(
            numbered("file-", file, 8),
            Some(numbered("group-", file / (self.per_directory as u64), 6)),
            Self::name(file, round),
            NodeKind::File,
            numbered("revision-", revision, 0),
        )
    }

    /// The item at this index of a collection, before any round.
    pub fn node(&self, index: usize, primary: bool) -> (node: Node)
        requires
            self.wf(),
            index < self.item_count(primary),
        ensures
            match self.item(index as int, primary) {
                TreeItem::Mapping => is_mapping(node, 0),
                TreeItem::Root => is_plain(node, "revision-"@ + padded(0, 0)) && is_item(
                    node,
                    root_name(primary),
                    None,
                    root_name(primary),
                    NodeKind::Folder,
                ),
                TreeItem::Level(n) => is_plain(node, "revision-"@ + padded(0, 0)) && is_item(
                    node,
                    "level-"@ + padded(n as nat, 2),
                    Some(
                        if n == 0 {
                            root_name(primary)
                        } else {
                            "level-"@ + padded((n - 1) as nat, 2)
                        },
                    ),
                    "level-"@ + padded(n as nat, 2),
                    NodeKind::Folder,
                ),
                TreeItem::Group(n) => is_plain(node, "revision-"@ + padded(0, 0)) && is_item(
                    node,
                    "group-"@ + padded(n as nat, 6),
                    Some("level-"@ + padded((DEPTH - 1) as nat, 2)),
                    "group-"@ + padded(n as nat, 6),
                    NodeKind::Folder,
                ),
                TreeItem::File(n) => is_plain(node, "revision-"@ + padded(0, 0)) && is_item(
                    node,
                    "file-"@ + padded(n as nat, 8),
                    Some("group-"@ + padded((n / self.per_directory as int) as nat, 6)),
                    tree_file_name(n as nat, 0),
                    NodeKind::File,
                ),
                TreeItem::Shortcut(n) => is_item(
                    node,
                    "shortcut-"@ + padded(n as nat, 0),
                    Some("root"@),
                    "Shared "@ + padded(n as nat, 0),
                    NodeKind::Shortcut,
                ) && node@.target is Some && node@.target->0.collection == "shared"@
                    && node@.target->0.item == "shared-root"@ && node@.target->0.kind == Some(
                    NodeKind::Folder,
                ),
            },
    {
        let groups = self.groups();
        let before: usize = DEPTH + groups + self.files;
        let extra: usize = if primary {
            2
        } else {
            0
        };
        if self.mappings && index == 1 + before + extra {
            return mapping_node(0);
        }
        let etag = numbered("revision-", 0, 0);
        let root = if primary {
            "root"
        } else {
            "shared-root"
        };
        if index == 0 {
            return plain(root.to_owned(), None, root.to_owned(), NodeKind::Folder, etag);
        }
        if index <= DEPTH {
            let level: u64 = (index - 1) as u64;
            let parent = if level == 0 {
                root.to_owned()
            } else {
                numbered("level-", level - 1, 2)
            };
            let name = numbered("level-", level, 2);
            let id = name.clone();
            return plain(id, Some(parent), name, NodeKind::Folder, etag);
        }
        if index <= DEPTH + groups {
            let name = numbered("group-", (index - DEPTH - 1) as u64, 6);
            let id = name.clone();
            let parent = numbered("level-", (DEPTH - 1) as u64, 2);
            return plain(id, Some(parent), name, NodeKind::Folder, etag);
        }
        if index <= before {
            return self.file((index - DEPTH - groups - 1) as u64, 0);
        }
        let alias: u64 = (index - before - 1) as u64;
        let mut node = plain(
            numbered("shortcut-", alias, 0),
            Some("root".to_owned()),
            numbered("Shared ", alias, 0),
            NodeKind::Shortcut,
            etag,
        );
        node.target = Some(
            RemoteRef {
                collection: "shared".to_owned(),
                item: "shared-root".to_owned(),
                kind: Some(NodeKind::Folder),
            },
        );
        node
    }
}

/// The root of a collection of the tree.
pub open spec fn root_name(primary: bool) -> Seq<char> {
    if primary {
        "root"@
    } else {
        "shared-root"@
    }
}

/// The size of the file that is mapped.
pub const MAPPED_SIZE: u64 = 8192;

/// The file that is mapped, in a revision.
pub open spec fn is_mapping(node: Node, revision: nat) -> bool {
    &&& is_item(
        node,
        "mapping-probe"@,
        Some("level-"@ + padded((DEPTH - 1) as nat, 2)),
        "mapped-content.bin"@,
        NodeKind::File,
    )
    &&& node@.size == MAPPED_SIZE
    &&& node@.modified_unix == MODIFIED
    &&& node@.etag == Some("mapping-content-"@ + padded(revision, 0))
    &&& node@.content_version is None
    &&& node@.target is None
}

/// The file that is mapped, in a revision.
pub fn mapping_node(revision: u64) -> (node: Node)
    ensures
        is_mapping(node, revision as nat),
{
    let mut node = plain(
        "mapping-probe".to_owned(),
        Some(numbered("level-", (DEPTH - 1) as u64, 2)),
        "mapped-content.bin".to_owned(),
        NodeKind::File,
        numbered("mapping-content-", revision, 0),
    );
    node.size = MAPPED_SIZE;
    node
}

/// Why a generated provider does not answer.
#[derive(Debug, Clone, Copy, PartialEq, Eq, Structural)]
pub enum FixtureError {
    Cancelled,
    Unavailable,
    NotFound,
    VersionChanged,
}

/// A provider of the mapped file, next to a generated library.
#[derive(Debug)]
pub struct Provider {
    pub generated: GeneratedLibrary,
    pub revision: u64,
    pub offline: bool,
    pub node_requests: u64,
    pub content_requests: u64,
}

/// What is added to every byte of the shared collection.
pub open spec fn bias(collection: Seq<char>) -> int {
    if collection == "shared"@ {
        71
    } else {
        0
    }
}

/// One byte of the mapped file.
pub open spec fn mapped_byte(index: int, revision: int, bias: int) -> u8 {
    ((index + 17 * (revision % 251) + bias) % 251) as u8
}

/// The bytes of a range of the mapped file.
pub open spec fn mapped_range(offset: int, length: int, revision: int, bias: int) -> Seq<u8> {
    let start = if offset < MAPPED_SIZE {
        offset
    } else {
        MAPPED_SIZE as int
    };
    let end = if offset + length < MAPPED_SIZE {
        offset + length
    } else {
        MAPPED_SIZE as int
    };
    if end <= start {
        Seq::empty()
    } else {
        Seq::new((end - start) as nat, |i: int| mapped_byte(start + i, revision, bias))
    }
}

impl Provider {
    /// A provider that is there, in its first revision.
    pub fn new(generated: GeneratedLibrary) -> (provider: Self)
        ensures
            provider == (Provider {
                generated,
                revision: 0,
                offline: false,
                node_requests: 0,
                content_requests: 0,
            }),
    {
        Provider { generated, revision: 0, offline: false, node_requests: 0, content_requests: 0 }
    }

    /// Why a request is not answered.
    pub open spec fn refusal(&self, collection: Seq<char>, cancelled: bool) -> Option<FixtureError> {
        if cancelled {
            Some(FixtureError::Cancelled)
        } else if self.offline {
            Some(FixtureError::Unavailable)
        } else if collection != "capacity-drive"@ && collection != "shared"@ {
            Some(FixtureError::NotFound)
        } else {
            None
        }
    }

    /// Refuses what it cannot answer.
    pub fn check(&self, scope: &Scope, cancelled: bool) -> (result: Result<(), FixtureError>)
        ensures
            match self.refusal(scope@.collection, cancelled) {
                Some(error) => result == Err::<(), FixtureError>(error),
                None => result is Ok,
            },
    {
        if cancelled {
            return Err(FixtureError::Cancelled);
        }
        if self.offline {
            return Err(FixtureError::Unavailable);
        }
        let collection = scope.collection.as_str();
        if !same_text(collection, "capacity-drive") && !same_text(collection, "shared") {
            return Err(FixtureError::NotFound);
        }
        Ok(())
    }

    /// The mapped file.
    pub fn node(&mut self, scope: &Scope, cancelled: bool) -> (result: Result<Node, FixtureError>)
        requires
            old(self).node_requests < u64::MAX,
        ensures
            *final(self) == (Provider {
                node_requests: (old(self).node_requests + 1) as u64,
                ..*old(self)
            }),
            match old(self).refusal(scope@.collection, cancelled) {
                Some(error) => result == Err::<Node, FixtureError>(error),
                None => result is Ok && is_mapping(result->Ok_0, old(self).revision as nat),
            },
    {
        self.node_requests = self.node_requests + 1;
        match self.check(scope, cancelled) {
            Ok(_) => Ok(mapping_node(self.revision)),
            Err(error) => Err(error),
        }
    }

    /// Bytes of the mapped file. What was asked for must be its current revision.
    pub fn read_range(
        &mut self,
        scope: &Scope,
        requested: &Node,
        offset: u64,
        length: u32,
        cancelled: bool,
    ) -> (result: Result<Vec<u8>, FixtureError>)
        requires
            old(self).content_requests < u64::MAX,
        ensures
            *final(self) == (Provider {
                content_requests: (old(self).content_requests + 1) as u64,
                ..*old(self)
            }),
            match old(self).refusal(scope@.collection, cancelled) {
                Some(error) => result == Err::<Vec<u8>, FixtureError>(error),
                None => if is_mapping(*requested, old(self).revision as nat) {
                    result is Ok && result->Ok_0@ == mapped_range(
                        offset as int,
                        length as int,
                        old(self).revision as int,
                        bias(scope@.collection),
                    )
                } else {
                    result == Err::<Vec<u8>, FixtureError>(FixtureError::VersionChanged)
                },
            },
    {
        self.content_requests = self.content_requests + 1;
        if let Err(error) = self.check(scope, cancelled) {
            return Err(error);
        }
        if !requested.same(&mapping_node(self.revision)) {
            return Err(FixtureError::VersionChanged);
        }
        let bias: u64 = if same_text(scope.collection.as_str(), "shared") {
            71
        } else {
            0
        };
        let start: u64 = if offset < MAPPED_SIZE {
            offset
        } else {
            MAPPED_SIZE
        };
        let end: u64 = if offset >= MAPPED_SIZE || length as u64 >= MAPPED_SIZE - offset {
            MAPPED_SIZE
        } else {
            offset + length as u64
        };
        let mut bytes: Vec<u8> = Vec::new();
        let mut i: u64 = start;
        while i < end
            invariant
                start <= i,
                start <= end ==> i <= end,
                end <= MAPPED_SIZE,
                bias <= 71,
                bytes@.len() == i - start,
                forall|j: int|
                    0 <= j < bytes@.len() ==> #[trigger] bytes@[j] == mapped_byte(
                        start + j,
                        self.revision as int,
                        bias as int,
                    ),
            decreases end - i,
        {
            let value: u64 = (i + 17 * (self.revision % 251) + bias) % 251;
            bytes.push(value as u8);
            i = i + 1;
        }
        proof {
            assert(bytes@ =~= mapped_range(
                offset as int,
                length as int,
                self.revision as int,
                bias as int,
            ));
        }
        Ok(bytes)
    }
}

/// What a mount may hold over its indexed baseline, in KiB.
pub const MEMORY_BUDGET_KIB: u64 = 262_144;

/// Below this many files memory is dominated by fixed costs and is not judged.
pub const MEMORY_GATE_MINIMUM_FILES: usize = 100_000;

/// What a mount holds over its baseline, and whether that is within the budget; nothing
/// where it is not judged.
pub fn memory_verdict(observed: u64, baseline: Option<u64>, files: usize) -> (verdict: Option<
    (u64, bool),
>)
    ensures
        verdict == (if files < MEMORY_GATE_MINIMUM_FILES || baseline is None {
            None::<(u64, bool)>
        } else {
            let over = if observed > baseline->0 {
                (observed - baseline->0) as u64
            } else {
                0
            };
            Some((over, over <= MEMORY_BUDGET_KIB))
        }),
{
    if files < MEMORY_GATE_MINIMUM_FILES {
        return None;
    }
    match baseline {
        None => None,
        Some(base) => {
            let over: u64 = if observed > base {
                observed - base
            } else {
                0
            };
            Some((over, over <= MEMORY_BUDGET_KIB))
        },
    }
}

/// Whether waiting for memory to settle goes on: until a deadline, for as long as the
/// first window lasts or memory still falls.
pub fn keeps_settling(elapsed: u64, stable: u32) -> (more: bool)
    ensures
        more == (elapsed < 25 && (elapsed < 8 || stable < 2)),
{
    elapsed < 25 && (elapsed < 8 || stable < 2)
}

/// How many samples in a row did not fall.
pub fn still_stable(current: u64, previous: u64, stable: u32) -> (next: u32)
    requires
        stable < u32::MAX,
    ensures
        next == (if current >= previous {
            (stable + 1) as u32
        } else {
            0
        }),
{
    if current >= previous {
        stable + 1
    } else {
        0
    }
}

/// A number is written in decimal digits that state it, without a leading zero but for the
/// padding that it is given.
pub proof fn numbers_are_written_in_decimal(value: nat)
    ensures
        all_digits(digits(value)),
        decimal(digits(value)) == value,
        digits(value).len() > 0,
        value > 0 ==> digits(value)[0] != '0',
    decreases value,
{
    if value >= 10 {
        numbers_are_written_in_decimal(value / 10);
        let front = digits(value / 10);
        assert(digits(value).drop_last() =~= front);
        assert(digits(value).last() == digit(value % 10));
        assert(digits(value)[0] == front[0]);
        assert forall|i: int| 0 <= i < digits(value).len() implies is_digit(
            #[trigger] digits(value)[i],
        ) by {
            if i < front.len() {
                assert(digits(value)[i] == front[i]);
            }
        }
    } else {
        assert(digits(value).drop_last().len() == 0);
        assert(decimal(digits(value).drop_last()) == 0);
        assert(digits(value).last() == digit(value));
    }
}

/// A padded number is as wide as was asked for, ends with its digits and has zeros before
/// them.
pub proof fn padding_puts_zeros_before(value: nat, width: nat, i: int)
    ensures
        padded(value, width).len() == (if digits(value).len() < width {
            width
        } else {
            digits(value).len()
        }),
        0 <= i < padded(value, width).len() - digits(value).len() ==> padded(value, width)[i] == '0',
        padded(value, width).skip(padded(value, width).len() - digits(value).len()) == digits(value),
{
    assert(padded(value, width).skip(padded(value, width).len() - digits(value).len()) =~= digits(
        value,
    ));
}

/// Every index of a generated library is one item: the root, a directory or a file, and every
/// directory and file has its index.
pub proof fn every_index_is_one_item(files: int, per_directory: int, n: int)
    requires
        per_directory > 0,
        files >= 0,
    ensures
        item_at(files, per_directory, 0) is Root,
        0 <= n < directory_count(files, per_directory) ==> item_at(files, per_directory, n + 1)
            == GeneratedItem::Directory(n),
        0 <= n < files ==> item_at(
            files,
            per_directory,
            n + 1 + directory_count(files, per_directory),
        ) == GeneratedItem::File(n),
        0 < files ==> (directory_count(files, per_directory) - 1) * per_directory < files
            <= directory_count(files, per_directory) * per_directory,
{
    lemma_directories(files, per_directory);
    let count = directory_count(files, per_directory);
    assert(0 < files ==> (count - 1) * per_directory < files <= count * per_directory)
        by (nonlinear_arith)
        requires
            per_directory > 0,
            files >= 0,
            count == (files + per_directory - 1) / per_directory,
    ;
}

/// A range of the mapped file is that part of the whole file, cut at its end, and another
/// revision or collection has other bytes.
pub proof fn ranges_are_parts_of_the_file(
    offset: int,
    length: int,
    revision: int,
    bias: int,
    i: int,
)
    requires
        0 <= offset,
        0 <= length,
    ensures
        ({
            let range = mapped_range(offset, length, revision, bias);
            let whole = mapped_range(0, 8192, revision, bias);
            &&& whole.len() == 8192
            &&& offset + length <= 8192 ==> range.len() == length
            &&& offset <= 8192 < offset + length ==> range.len() == 8192 - offset
            &&& offset >= 8192 ==> range.len() == 0
            &&& 0 <= i < range.len() ==> range[i] == whole[offset + i]
            &&& 0 <= i < 8192 ==> whole[i] == (i + 17 * (revision % 251) + bias) % 251
        }),
{
}

} // verus!
