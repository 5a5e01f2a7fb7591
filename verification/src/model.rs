//! Provider-neutral values: scopes, nodes, upload and namespace intents.
//! Views hold the same fields as character sequences, so that two values are
//! compared by content.
use crate::text::{copy_optional, optional_view, same_optional};
use vstd::prelude::*;

verus! {

/// Identity of an operation, an object, a working stream or an attempt: the
/// 128-bit value of a UUID.
pub type Id = u128;

/// One collection of one account at one provider.
#[derive(Debug)]
pub struct Scope {
    pub account: String,
    pub provider: String,
    pub collection: String,
}

/// The content of a scope.
pub struct ScopeView {
    pub account: Seq<char>,
    pub provider: Seq<char>,
    pub collection: Seq<char>,
}

impl View for Scope {
    type V = ScopeView;

    open spec fn view(&self) -> ScopeView {
        ScopeView {
            account: self.account@,
            provider: self.provider@,
            collection: self.collection@,
        }
    }
}

impl Clone for Scope {
    fn clone(&self) -> (copy: Self)
        ensures
            copy == *self,
    {
        Scope {
            account: self.account.clone(),
            provider: self.provider.clone(),
            collection: self.collection.clone(),
        }
    }
}

impl Scope {
    /// Equality by content.
    pub fn same(&self, other: &Scope) -> (same: bool)
        ensures
            same == (self@ == other@),
    {
        self.account == other.account && self.provider == other.provider && self.collection
            == other.collection
    }
}

/// What a node is.
#[derive(Clone, Copy, Debug, PartialEq, Eq, Structural)]
pub enum NodeKind {
    File,
    Folder,
    Shortcut,
}

/// Where a shortcut leads.
#[derive(Debug)]
pub struct RemoteRef {
    pub collection: String,
    pub item: String,
    pub kind: Option<NodeKind>,
}

/// The content of a remote reference.
pub struct RemoteRefView {
    pub collection: Seq<char>,
    pub item: Seq<char>,
    pub kind: Option<NodeKind>,
}

impl View for RemoteRef {
    type V = RemoteRefView;

    open spec fn view(&self) -> RemoteRefView {
        RemoteRefView { collection: self.collection@, item: self.item@, kind: self.kind }
    }
}

impl Clone for RemoteRef {
    fn clone(&self) -> (copy: Self)
        ensures
            copy == *self,
    {
        RemoteRef {
            collection: self.collection.clone(),
            item: self.item.clone(),
            kind: self.kind,
        }
    }
}

/// Two optional node kinds are equal.
pub fn same_kind(a: Option<NodeKind>, b: Option<NodeKind>) -> (same: bool)
    ensures
        same == (a == b),
{
    match (a, b) {
        (None, None) => true,
        (Some(x), Some(y)) => x == y,
        _ => false,
    }
}

impl RemoteRef {
    /// Equality by content.
    pub fn same(&self, other: &RemoteRef) -> (same: bool)
        ensures
            same == (self@ == other@),
    {
        self.collection == other.collection && self.item == other.item && same_kind(
            self.kind,
            other.kind,
        )
    }
}

/// One file, folder or shortcut, as a provider or the local namespace sees it.
#[derive(Debug)]
pub struct Node {
    pub id: String,
    pub parent_id: Option<String>,
    pub name: String,
    pub kind: NodeKind,
    pub size: u64,
    pub modified_unix: u64,
    pub etag: Option<String>,
    pub content_version: Option<String>,
    pub target: Option<RemoteRef>,
}

/// The content of a node.
pub struct NodeView {
    pub id: Seq<char>,
    pub parent_id: Option<Seq<char>>,
    pub name: Seq<char>,
    pub kind: NodeKind,
    pub size: u64,
    pub modified_unix: u64,
    pub etag: Option<Seq<char>>,
    pub content_version: Option<Seq<char>>,
    pub target: Option<RemoteRefView>,
}

/// The content of an optional remote reference.
pub open spec fn target_view(target: Option<RemoteRef>) -> Option<RemoteRefView> {
    match target {
        Some(value) => Some(value@),
        None => None,
    }
}

impl View for Node {
    type V = NodeView;

    open spec fn view(&self) -> NodeView {
        NodeView {
            id: self.id@,
            parent_id: optional_view(self.parent_id),
            name: self.name@,
            kind: self.kind,
            size: self.size,
            modified_unix: self.modified_unix,
            etag: optional_view(self.etag),
            content_version: optional_view(self.content_version),
            target: target_view(self.target),
        }
    }
}

/// A copy of an optional remote reference.
pub fn copy_target(target: &Option<RemoteRef>) -> (copy: Option<RemoteRef>)
    ensures
        copy == *target,
{
    match target {
        Some(value) => Some(value.clone()),
        None => None,
    }
}

impl Clone for Node {
    fn clone(&self) -> (copy: Self)
        ensures
            copy == *self,
    {
        Node {
            id: self.id.clone(),
            parent_id: copy_optional(&self.parent_id),
            name: self.name.clone(),
            kind: self.kind,
            size: self.size,
            modified_unix: self.modified_unix,
            etag: copy_optional(&self.etag),
            content_version: copy_optional(&self.content_version),
            target: copy_target(&self.target),
        }
    }
}

/// What fixes the bytes of a node: its content version, or else its entity tag.
/// An empty text fixes nothing.
pub open spec fn content_revision(node: NodeView) -> Option<(bool, Seq<char>)> {
    match node.content_version {
        Some(version) if version.len() > 0 => Some((true, version)),
        _ => match node.etag {
            Some(tag) if tag.len() > 0 => Some((false, tag)),
            _ => None,
        },
    }
}

impl Node {
    /// Equality by content.
    pub fn same(&self, other: &Node) -> (same: bool)
        ensures
            same == (self@ == other@),
    {
        let target = match (&self.target, &other.target) {
            (None, None) => true,
            (Some(a), Some(b)) => a.same(b),
            _ => false,
        };
        self.id == other.id && same_optional(&self.parent_id, &other.parent_id) && self.name
            == other.name && self.kind == other.kind && self.size == other.size
            && self.modified_unix == other.modified_unix && same_optional(&self.etag, &other.etag)
            && same_optional(&self.content_version, &other.content_version) && target
    }

    /// Whether the node carries anything that fixes its bytes.
    pub fn has_content_revision(&self) -> (has: bool)
        ensures
            has == (content_revision(self@) is Some),
    {
        if let Some(version) = &self.content_version {
            if !version.as_str().is_empty() {
                return true;
            }
        }
        if let Some(tag) = &self.etag {
            if !tag.as_str().is_empty() {
                return true;
            }
        }
        false
    }

    /// Whether both nodes name the same bytes.
    pub fn same_content_revision(&self, other: &Node) -> (same: bool)
        ensures
            same == (content_revision(self@) == content_revision(other@)),
    {
        let left = self.content_text();
        let right = other.content_text();
        match (left, right) {
            (None, None) => true,
            (Some(a), Some(b)) => a.0 == b.0 && *a.1 == *b.1,
            _ => false,
        }
    }

    /// The text that fixes the bytes; `true` marks a content version.
    pub fn content_text(&self) -> (found: Option<(bool, &String)>)
        ensures
            match found {
                Some(pair) => content_revision(self@) == Some((pair.0, pair.1@)),
                None => content_revision(self@) is None,
            },
    {
        if let Some(version) = &self.content_version {
            if !version.as_str().is_empty() {
                return Some((true, version));
            }
        }
        if let Some(tag) = &self.etag {
            if !tag.as_str().is_empty() {
                return Some((false, tag));
            }
        }
        None
    }
}

/// The content of an optional node.
pub open spec fn node_view(node: Option<Node>) -> Option<NodeView> {
    match node {
        Some(value) => Some(value@),
        None => None,
    }
}

/// A copy of an optional node.
pub fn copy_node(node: &Option<Node>) -> (copy: Option<Node>)
    ensures
        copy == *node,
{
    match node {
        Some(value) => Some(value.clone()),
        None => None,
    }
}

/// Two optional nodes are both absent or equal by content.
pub fn same_node(a: &Option<Node>, b: &Option<Node>) -> (same: bool)
    ensures
        same == (node_view(*a) == node_view(*b)),
{
    match (a, b) {
        (None, None) => true,
        (Some(x), Some(y)) => x.same(y),
        _ => false,
    }
}

/// What an upload does at the provider.
#[derive(Debug)]
pub enum UploadIntent {
    Create { parent: String, name: String },
    Replace { item: String, expected_etag: String },
}

impl Clone for UploadIntent {
    fn clone(&self) -> (copy: Self)
        ensures
            copy == *self,
    {
        match self {
            UploadIntent::Create { parent, name } => UploadIntent::Create {
                parent: parent.clone(),
                name: name.clone(),
            },
            UploadIntent::Replace { item, expected_etag } => UploadIntent::Replace {
                item: item.clone(),
                expected_etag: expected_etag.clone(),
            },
        }
    }
}

/// A namespace change at the provider.
#[derive(Debug)]
pub enum MutationIntent {
    CreateFolder { parent: String, name: String },
    Relocate { before: Node, parent: String, name: String },
    RemoveFile { before: Node },
    RemoveFolder { before: Node },
}

impl Clone for MutationIntent {
    fn clone(&self) -> (copy: Self)
        ensures
            copy == *self,
    {
        match self {
            MutationIntent::CreateFolder { parent, name } => MutationIntent::CreateFolder {
                parent: parent.clone(),
                name: name.clone(),
            },
            MutationIntent::Relocate { before, parent, name } => MutationIntent::Relocate {
                before: before.clone(),
                parent: parent.clone(),
                name: name.clone(),
            },
            MutationIntent::RemoveFile { before } => MutationIntent::RemoveFile {
                before: before.clone(),
            },
            MutationIntent::RemoveFolder { before } => MutationIntent::RemoveFolder {
                before: before.clone(),
            },
        }
    }
}

/// The node that a change starts from, where it has one.
pub open spec fn intent_before(intent: MutationIntent) -> Option<Node> {
    match intent {
        MutationIntent::CreateFolder { .. } => None,
        MutationIntent::Relocate { before, .. } => Some(before),
        MutationIntent::RemoveFile { before } => Some(before),
        MutationIntent::RemoveFolder { before } => Some(before),
    }
}

/// The parent and name that a change leads to, where it has them.
pub open spec fn intent_destination(intent: MutationIntent) -> Option<(String, String)> {
    match intent {
        MutationIntent::CreateFolder { parent, name } => Some((parent, name)),
        MutationIntent::Relocate { parent, name, .. } => Some((parent, name)),
        _ => None,
    }
}

/// The change takes a name away.
pub open spec fn is_removal(intent: MutationIntent) -> bool {
    intent is RemoveFile || intent is RemoveFolder
}

impl MutationIntent {
    /// The node that the change starts from.
    pub fn before(&self) -> (before: Option<&Node>)
        ensures
            before == (match intent_before(*self) {
                Some(node) => Some(&node),
                None => None,
            }),
    {
        match self {
            MutationIntent::CreateFolder { .. } => None,
            MutationIntent::Relocate { before, .. } => Some(before),
            MutationIntent::RemoveFile { before } => Some(before),
            MutationIntent::RemoveFolder { before } => Some(before),
        }
    }

    /// The destination parent and name.
    pub fn destination(&self) -> (found: Option<(&String, &String)>)
        ensures
            found == (match intent_destination(*self) {
                Some(pair) => Some((&pair.0, &pair.1)),
                None => None,
            }),
    {
        match self {
            MutationIntent::CreateFolder { parent, name } => Some((parent, name)),
            MutationIntent::Relocate { parent, name, .. } => Some((parent, name)),
            _ => None,
        }
    }

    /// Whether the change takes a name away.
    pub fn removes(&self) -> (removes: bool)
        ensures
            removes == is_removal(*self),
    {
        match self {
            MutationIntent::RemoveFile { .. } => true,
            MutationIntent::RemoveFolder { .. } => true,
            _ => false,
        }
    }
}

/// A namespace change within one scope.
#[derive(Debug)]
pub struct MutationRequest {
    pub scope: Scope,
    pub intent: MutationIntent,
}

impl Clone for MutationRequest {
    fn clone(&self) -> (copy: Self)
        ensures
            copy == *self,
    {
        MutationRequest { scope: self.scope.clone(), intent: self.intent.clone() }
    }
}

/// What the provider confirmed.
#[derive(Debug)]
pub enum MutationReceipt {
    /// The node as it is after the change.
    Upsert(Node),
    /// The item with this identity is gone.
    Removed(String),
}

impl Clone for MutationReceipt {
    fn clone(&self) -> (copy: Self)
        ensures
            copy == *self,
    {
        match self {
            MutationReceipt::Upsert(node) => MutationReceipt::Upsert(node.clone()),
            MutationReceipt::Removed(item) => MutationReceipt::Removed(item.clone()),
        }
    }
}

/// The bytes of a node are fixed by its content version where it has one, and else by its
/// entity tag; an empty text fixes nothing, and a version and a tag are never taken for each
/// other.
pub proof fn versions_fix_the_bytes(a: NodeView, b: NodeView)
    ensures
        ({
            let versioned = a.content_version is Some && a.content_version->0.len() > 0;
            let tagged = a.etag is Some && a.etag->0.len() > 0;
            &&& content_revision(a) is None <==> !versioned && !tagged
            &&& versioned ==> content_revision(a) == Some((true, a.content_version->0))
            &&& !versioned && tagged ==> content_revision(a) == Some((false, a.etag->0))
            &&& versioned && b.content_version == a.content_version ==> content_revision(a)
                == content_revision(b)
        }),
{
}

/// What a change starts from and where it leads: a new folder starts from nothing, a removal
/// leads nowhere and takes a name away, and a move does both.
pub proof fn changes_lead_somewhere(intent: MutationIntent)
    ensures
        intent_before(intent) is None <==> intent is CreateFolder,
        intent_destination(intent) is None <==> intent is RemoveFile || intent is RemoveFolder,
        is_removal(intent) <==> intent is RemoveFile || intent is RemoveFolder,
        intent matches MutationIntent::Relocate { before, parent, name } ==> intent_before(intent)
            == Some(before) && intent_destination(intent) == Some((parent, name)),
        intent matches MutationIntent::CreateFolder { parent, name } ==> intent_destination(intent)
            == Some((parent, name)),
        intent matches MutationIntent::RemoveFile { before } ==> intent_before(intent) == Some(
            before,
        ),
        intent matches MutationIntent::RemoveFolder { before } ==> intent_before(intent) == Some(
            before,
        ),
{
}

} // verus!
