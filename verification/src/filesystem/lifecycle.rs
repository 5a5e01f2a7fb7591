//! When edits are let in, and how a visible path is resolved.
use crate::filesystem::projection::WriteError;
use crate::filesystem::writeback::node_views;
use crate::model::{Node, NodeView, Scope};
use crate::text::{characters, text_from};
use vstd::prelude::*;

verus! {

/// Lets edits in until it is closed, and counts those inside.
#[derive(Debug)]
pub struct EditAdmission {
    pub open: bool,
    pub inside: u64,
}

impl EditAdmission {
    /// Open, with nobody inside.
    pub fn new() -> (admission: Self)
        ensures
            admission == (EditAdmission { open: true, inside: 0 }),
    {
        EditAdmission { open: true, inside: 0 }
    }

    /// Lets an edit in.
    pub fn enter(&mut self) -> (result: Result<(), WriteError>)
        requires
            old(self).inside < u64::MAX,
        ensures
            if old(self).open {
                result is Ok && *final(self) == (EditAdmission {
                    inside: (old(self).inside + 1) as u64,
                    ..*old(self)
                })
            } else {
                result == Err::<(), WriteError>(WriteError::NoDevice) && *final(self) == *old(self)
            },
    {
        if !self.open {
            return Err(WriteError::NoDevice);
        }
        self.inside = self.inside + 1;
        Ok(())
    }

    /// An edit is done.
    pub fn leave(&mut self)
        requires
            old(self).inside > 0,
        ensures
            *final(self) == (EditAdmission {
                inside: (old(self).inside - 1) as u64,
                ..*old(self)
            }),
    {
        self.inside = self.inside - 1;
    }

    /// Lets nobody in any more.
    pub fn close(&mut self)
        ensures
            *final(self) == (EditAdmission { open: false, ..*old(self) }),
    {
        self.open = false;
    }

    /// How many edits are inside.
    pub fn pending(&self) -> (pending: u64)
        ensures
            pending == self.inside,
    {
        self.inside
    }

    /// Whether nobody is let in any more and everybody has left.
    pub fn is_drained(&self) -> (drained: bool)
        ensures
            drained == (!self.open && self.inside == 0),
    {
        !self.open && self.inside == 0
    }
}

/// The names of a path, without the empty ones.
pub open spec fn names_of(path: Seq<char>, name: Seq<char>) -> Seq<Seq<char>>
    decreases path.len(),
{
    if path.len() == 0 {
        if name.len() == 0 {
            Seq::empty()
        } else {
            seq![name]
        }
    } else if path[0] == '/' {
        if name.len() == 0 {
            names_of(path.drop_first(), Seq::empty())
        } else {
            seq![name] + names_of(path.drop_first(), Seq::empty())
        }
    } else {
        names_of(path.drop_first(), name.push(path[0]))
    }
}

/// The contents of some texts.
pub open spec fn text_views(texts: Seq<String>) -> Seq<Seq<char>> {
    Seq::new(texts.len(), |i: int| texts[i]@)
}

/// The names of a path, without the empty ones.
pub fn path_names(path: &str) -> (names: Vec<String>)
    ensures
        text_views(names@) == names_of(path@, Seq::empty()),
{
    let chars = characters(path);
    let mut names: Vec<String> = Vec::new();
    let mut name: Vec<char> = Vec::new();
    let ghost whole = names_of(path@, Seq::empty());
    let mut i: usize = 0;
    proof {
        assert(path@.skip(0) =~= path@);
        assert(text_views(names@) + whole =~= whole);
        assert(name@ =~= Seq::<char>::empty());
    }
    while i < chars.len()
        invariant
            i <= chars@.len(),
            chars@ == path@,
            whole == text_views(names@) + names_of(path@.skip(i as int), name@),
        decreases chars@.len() - i,
    {
        let c = chars[i];
        let ghost rest = path@.skip(i as int);
        proof {
            assert(rest.drop_first() =~= path@.skip(i + 1));
            assert(rest[0] == c);
        }
        if c == '/' {
            if name.len() > 0 {
                let ghost before = text_views(names@);
                let text = text_from(&name);
                names.push(text);
                proof {
                    assert(text_views(names@) =~= before.push(name@));
                    let tail = names_of(path@.skip(i + 1), Seq::empty());
                    assert(before + (seq![name@] + tail) =~= before.push(name@) + tail);
                }
                name = Vec::new();
                proof {
                    assert(name@ =~= Seq::<char>::empty());
                }
            } else {
                proof {
                    assert(name@ =~= Seq::<char>::empty());
                }
            }
        } else {
            name.push(c);
        }
        i = i + 1;
    }
    proof {
        assert(path@.skip(i as int) =~= Seq::<char>::empty());
    }
    if name.len() > 0 {
        let ghost before = text_views(names@);
        let text = text_from(&name);
        names.push(text);
        proof {
            assert(text_views(names@) =~= before.push(name@));
            assert(before + seq![name@] =~= before.push(name@));
        }
    } else {
        proof {
            assert(text_views(names@) + Seq::<Seq<char>>::empty() =~= text_views(names@));
        }
    }
    names
}

/// What a walk along a path needs next.
#[derive(Debug)]
pub enum WalkAction {
    /// The item that a shortcut leads to.
    Follow { collection: String, item: String },
    /// The directory below this node, as the mount presents it.
    List { parent: String },
    /// Nothing: the node at the end of the path is reached.
    Finish,
}

/// A walk along a path, as far as it has come.
#[derive(Debug)]
pub struct PathWalk {
    pub scope: Scope,
    pub node: Node,
    /// The node is what a shortcut led to, and is not followed again.
    pub followed: bool,
    pub names: Vec<String>,
    pub next: usize,
}

impl PathWalk {
    /// A walk from the root.
    pub fn start(scope: Scope, root: Node, path: &str) -> (walk: Self)
        ensures
            walk.scope == scope,
            walk.node == root,
            !walk.followed,
            walk.next == 0,
            text_views(walk.names@) == names_of(path@, Seq::empty()),
    {
        PathWalk { scope, node: root, followed: false, names: path_names(path), next: 0 }
    }

    /// What the walk needs next. A shortcut is followed once, before the walk goes on
    /// below it or ends at it.
    pub fn action(&self) -> (action: WalkAction)
        ensures
            match action {
                WalkAction::Follow { collection, item } => !self.followed && self.node.target is Some
                    && collection == self.node.target->0.collection && item
                    == self.node.target->0.item,
                WalkAction::List { parent } => (self.followed || self.node.target is None)
                    && self.next < self.names@.len() && parent == self.node.id,
                WalkAction::Finish => (self.followed || self.node.target is None) && self.next
                    >= self.names@.len(),
            },
    {
        if !self.followed {
            if let Some(target) = &self.node.target {
                return WalkAction::Follow {
                    collection: target.collection.clone(),
                    item: target.item.clone(),
                };
            }
        }
        if self.next < self.names.len() {
            return WalkAction::List { parent: self.node.id.clone() };
        }
        WalkAction::Finish
    }

    /// The item that the shortcut leads to.
    pub fn arrive(&mut self, scope: Scope, node: Node)
        ensures
            final(self).scope == scope,
            final(self).node == node,
            final(self).followed,
            final(self).names == old(self).names,
            final(self).next == old(self).next,
    {
        self.scope = scope;
        self.node = node;
        self.followed = true;
    }

    /// Goes down to the child with the next name: the first one of the listing.
    pub fn descend(&mut self, children: &Vec<Node>) -> (result: Result<(), WriteError>)
        requires
            old(self).next < old(self).names@.len(),
        ensures
            final(self).scope == old(self).scope,
            final(self).names == old(self).names,
            match result {
                Ok(_) => exists|i: int| #[trigger]
                    is_first_named(
                        node_views(children@),
                        old(self).names@[old(self).next as int]@,
                        i,
                    ) && final(self).node == children@[i] && !final(self).followed
                        && final(self).next == old(self).next + 1,
                Err(error) => error == WriteError::NotFound && *final(self) == *old(self)
                    && forall|i: int|
                    0 <= i < children@.len() ==> (#[trigger] children@[i]).name@
                        != old(self).names@[old(self).next as int]@,
            },
    {
        let total = self.names.len();
        let mut i: usize = 0;
        while i < children.len()
            invariant
                i <= children@.len(),
                total == self.names@.len(),
                *self == *old(self),
                self.next < self.names@.len(),
                forall|j: int|
                    0 <= j < i ==> (#[trigger] children@[j]).name@
                        != self.names@[self.next as int]@,
            decreases children@.len() - i,
        {
            if children[i].name == self.names[self.next] {
                proof {
                    let all = node_views(children@);
                    assert forall|j: int| 0 <= j < i implies (#[trigger] all[j]).name
                        != self.names@[self.next as int]@ by {
                        assert(all[j] == children@[j]@);
                    }
                    assert(is_first_named(all, self.names@[self.next as int]@, i as int));
                }
                self.node = children[i].clone();
                self.followed = false;
                self.next = self.next + 1;
                return Ok(());
            }
            i = i + 1;
        }
        Err(WriteError::NotFound)
    }
}

/// The first node with this name.
pub open spec fn is_first_named(nodes: Seq<NodeView>, name: Seq<char>, i: int) -> bool {
    &&& 0 <= i < nodes.len()
    &&& nodes[i].name == name
    &&& forall|j: int| 0 <= j < i ==> (#[trigger] nodes[j]).name != name
}

/// The names of a path are its parts between slashes: none is empty and none holds a slash,
/// and leading, trailing and repeated slashes make no difference.
pub proof fn paths_are_split_at_slashes(path: Seq<char>, name: Seq<char>, i: int)
    requires
        forall|k: int| 0 <= k < name.len() ==> name[k] != '/',
    ensures
        0 <= i < names_of(path, name).len() ==> names_of(path, name)[i].len() > 0
            && !names_of(path, name)[i].contains('/'),
        names_of(seq!['/'] + path, Seq::empty()) == names_of(path, Seq::empty()),
        path.len() == 0 && name.len() > 0 ==> names_of(path, name) == seq![name],
        path.len() == 0 && name.len() == 0 ==> names_of(path, name).len() == 0,
    decreases path.len(),
{
    assert((seq!['/'] + path).drop_first() =~= path);
    assert((seq!['/'] + path)[0] == '/');
    if path.len() > 0 {
        if path[0] == '/' {
            paths_are_split_at_slashes(path.drop_first(), Seq::empty(), i);
            paths_are_split_at_slashes(path.drop_first(), Seq::empty(), i - 1);
        } else {
            paths_are_split_at_slashes(path.drop_first(), name.push(path[0]), i);
        }
    }
}

/// A name and what follows it behind a slash are the first name and the names of the rest.
pub proof fn names_come_in_order(name: Seq<char>, given: Seq<char>, rest: Seq<char>)
    requires
        name.len() + given.len() > 0,
        !given.contains('/'),
    ensures
        names_of(given + seq!['/'] + rest, name) == seq![name + given] + names_of(
            rest,
            Seq::empty(),
        ),
        names_of(given, name) == seq![name + given],
    decreases given.len(),
{
    let path = given + seq!['/'] + rest;
    if given.len() == 0 {
        assert(path.drop_first() =~= rest);
        assert(path[0] == '/');
        assert(name + given =~= name);
    } else {
        assert(given.contains(given[0]));
        assert(path[0] == given[0]);
        assert(path.drop_first() =~= given.drop_first() + seq!['/'] + rest);
        assert(name.push(given[0]) + given.drop_first() =~= name + given);
        assert forall|c: char| given.drop_first().contains(c) implies given.contains(c) by {
            let k = choose|k: int| 0 <= k < given.drop_first().len() && given.drop_first()[k] == c;
            assert(given[k + 1] == c);
        }
        names_come_in_order(name.push(given[0]), given.drop_first(), rest);
    }
}

/// Edits are let in until the admission is closed, and each one that is let in counts until it
/// leaves. Once it is closed nobody gets in, and it is drained when the last one has left.
pub proof fn closed_admissions_let_nobody_in(
    admission: &mut EditAdmission,
    result: Result<(), WriteError>,
)
    requires
        old(admission).inside < u64::MAX,
        call_ensures(EditAdmission::enter, (admission,), result),
    ensures
        result is Ok <==> old(admission).open,
        result is Err ==> result->Err_0 == WriteError::NoDevice,
        final(admission).open == old(admission).open,
        final(admission).inside == old(admission).inside + (if old(admission).open {
            1int
        } else {
            0int
        }),
{
}

/// Leaving undoes one entry, closing keeps those inside, and an admission is drained exactly
/// where it is closed and empty.
pub proof fn drained_admissions_are_empty(
    left: &mut EditAdmission,
    closed: &mut EditAdmission,
    admission: EditAdmission,
    drained: bool,
)
    requires
        old(left).inside > 0,
        call_ensures(EditAdmission::leave, (left,), ()),
        call_ensures(EditAdmission::close, (closed,), ()),
        call_ensures(EditAdmission::is_drained, (&admission,), drained),
    ensures
        final(left).inside == old(left).inside - 1,
        final(left).open == old(left).open,
        !final(closed).open,
        final(closed).inside == old(closed).inside,
        drained <==> !admission.open && admission.inside == 0,
{
}

/// A walk follows a shortcut once, before anything else, goes down while names are left, and
/// ends only where none is.
pub proof fn walks_follow_shortcuts_once(walk: PathWalk, action: WalkAction)
    requires
        call_ensures(PathWalk::action, (&walk,), action),
    ensures
        action is Follow <==> !walk.followed && walk.node.target is Some,
        action is List <==> (walk.followed || walk.node.target is None) && walk.next
            < walk.names@.len(),
        action is Finish <==> (walk.followed || walk.node.target is None) && walk.next
            >= walk.names@.len(),
        action matches WalkAction::Follow { collection, item } ==> collection@
            == walk.node.target->0.collection@ && item@ == walk.node.target->0.item@,
        action matches WalkAction::List { parent } ==> parent@ == walk.node.id@,
{
}

/// A walk goes down to a child with the next name wherever the directory has one, and to no
/// other.
pub proof fn walks_go_down_by_name(
    walk: &mut PathWalk,
    children: Vec<Node>,
    result: Result<(), WriteError>,
    i: int,
)
    requires
        old(walk).next < old(walk).names@.len(),
        call_ensures(PathWalk::descend, (walk, &children), result),
    ensures
        0 <= i < children@.len() && children@[i].name@ == old(walk).names@[old(walk).next as int]@ ==> result is Ok,
        result is Ok ==> {
            &&& final(walk).node.name@ == old(walk).names@[old(walk).next as int]@
            &&& children@.contains(final(walk).node)
            &&& final(walk).next == old(walk).next + 1
            &&& !final(walk).followed
        },
        result is Err ==> result->Err_0 == WriteError::NotFound && final(walk).next == old(walk).next,
{
    if result is Ok {
        let k = choose|k: int| #[trigger]
            is_first_named(
                node_views(children@),
                old(walk).names@[old(walk).next as int]@,
                k,
            ) && final(walk).node == children@[k];
        assert(node_views(children@)[k] == children@[k]@);
    }
}

} // verus!
