//! The kernel's table of mounts: whether a path is one of them, and which
//! connection serves it.
use crate::text::{characters, text_from};
use crate::words::{
    begins, begins_with, lines, number, parse_number, part, same_chars, split_at_first,
    split_lines, split_once, split_words, trim, trimmed_end, trimmed_start, views, words,
};
use vstd::prelude::*;

verus! {

/// How the table writes a character of a path.
pub open spec fn escaped_char(c: char) -> Seq<char> {
    if c == '\\' {
        seq!['\\', '1', '3', '4']
    } else if c == ' ' {
        seq!['\\', '0', '4', '0']
    } else if c == '\t' {
        seq!['\\', '0', '1', '1']
    } else if c == '\n' {
        seq!['\\', '0', '1', '2']
    } else {
        seq![c]
    }
}

/// How the table writes a path.
pub open spec fn escaped(path: Seq<char>) -> Seq<char>
    decreases path.len(),
{
    if path.len() == 0 {
        Seq::empty()
    } else {
        escaped(path.drop_last()) + escaped_char(path.last())
    }
}

/// How the table writes a path.
fn escape(path: &str) -> (written: Vec<char>)
    ensures
        written@ == escaped(path@),
{
    let chars = characters(path);
    let mut written: Vec<char> = Vec::new();
    let mut i: usize = 0;
    proof {
        assert(chars@.subrange(0, 0) =~= Seq::<char>::empty());
    }
    while i < chars.len()
        invariant
            i <= chars@.len(),
            written@ == escaped(chars@.subrange(0, i as int)),
        decreases chars@.len() - i,
    {
        let c = chars[i];
        let ghost before = written@;
        proof {
            let more = chars@.subrange(0, i + 1);
            assert(more.drop_last() =~= chars@.subrange(0, i as int));
            assert(more.last() == c);
        }
        if c == '\\' {
            written.push('\\');
            written.push('1');
            written.push('3');
            written.push('4');
        } else if c == ' ' {
            written.push('\\');
            written.push('0');
            written.push('4');
            written.push('0');
        } else if c == '\t' {
            written.push('\\');
            written.push('0');
            written.push('1');
            written.push('1');
        } else if c == '\n' {
            written.push('\\');
            written.push('0');
            written.push('1');
            written.push('2');
        } else {
            written.push(c);
        }
        proof {
            assert(written@ =~= before + escaped_char(c));
        }
        i = i + 1;
    }
    proof {
        assert(chars@.subrange(0, i as int) =~= chars@);
    }
    written
}

/// The type and source of a line's filesystem, where its mount point is this path.
pub open spec fn record_of(line: Seq<char>, path: Seq<char>) -> Option<(Seq<char>, Seq<char>)> {
    match split_at_first(line, " - "@) {
        None => None,
        Some(halves) => {
            let fields = words(halves.0);
            let parts = words(halves.1);
            if fields.len() > 4 && fields[4] == path && parts.len() > 1 {
                Some((parts[0], parts[1]))
            } else {
                None
            }
        },
    }
}

/// The record of the first line that has one.
pub open spec fn first_record(all: Seq<Seq<char>>, path: Seq<char>) -> Option<(Seq<char>, Seq<char>)>
    decreases all.len(),
{
    if all.len() == 0 {
        None
    } else {
        match record_of(all[0], path) {
            Some(record) => Some(record),
            None => first_record(all.drop_first(), path),
        }
    }
}

/// The type and source of the filesystem mounted at a path.
pub open spec fn mounted_at(mounts: Seq<char>, path: Seq<char>) -> Option<(Seq<char>, Seq<char>)> {
    first_record(lines(mounts), escaped(path))
}

/// The type and source of a line's filesystem, where its mount point is this path.
fn record_in(line: &Vec<char>, path: &Vec<char>) -> (found: Option<(Vec<char>, Vec<char>)>)
    ensures
        match found {
            Some(pair) => record_of(line@, path@) == Some((pair.0@, pair.1@)),
            None => record_of(line@, path@) is None,
        },
{
    let separator = characters(" - ");
    match split_once(line, &separator) {
        None => None,
        Some((fields, filesystem)) => {
            let fields = split_words(&fields);
            let parts = split_words(&filesystem);
            let ghost seen = views(fields@);
            if fields.len() > 4 && same_chars(&fields[4], path) && parts.len() > 1 {
                proof {
                    assert(seen[4] == fields@[4]@);
                    assert(views(parts@)[0] == parts@[0]@);
                    assert(views(parts@)[1] == parts@[1]@);
                }
                Some((crate::words::part(&parts[0], 0, parts[0].len()), crate::words::part(
                    &parts[1],
                    0,
                    parts[1].len(),
                )))
            } else {
                proof {
                    if fields@.len() > 4 {
                        assert(seen[4] == fields@[4]@);
                    }
                }
                None
            }
        },
    }
}

/// The type and source of the filesystem mounted at a path.
pub fn mount_record_at(mounts: &str, path: &str) -> (found: Option<(String, String)>)
    ensures
        match found {
            Some(pair) => mounted_at(mounts@, path@) == Some((pair.0@, pair.1@)),
            None => mounted_at(mounts@, path@) is None,
        },
{
    let all = split_lines(&characters(mounts));
    let wanted = escape(path);
    let ghost seen = views(all@);
    let mut i: usize = 0;
    proof {
        assert(seen.subrange(0, seen.len() as int) =~= seen);
    }
    while i < all.len()
        invariant
            i <= all@.len(),
            seen == views(all@),
            seen == lines(mounts@),
            wanted@ == escaped(path@),
            mounted_at(mounts@, path@) == first_record(
                seen.subrange(i as int, seen.len() as int),
                wanted@,
            ),
        decreases all@.len() - i,
    {
        proof {
            let rest = seen.subrange(i as int, seen.len() as int);
            assert(rest[0] == all@[i as int]@);
            assert(rest.drop_first() =~= seen.subrange(i + 1, seen.len() as int));
        }
        if let Some((kind, source)) = record_in(&all[i], &wanted) {
            return Some((text_from(&kind), text_from(&source)));
        }
        i = i + 1;
    }
    None
}

/// The type of the filesystem mounted at a path.
pub fn mount_at(mounts: &str, path: &str) -> (found: Option<String>)
    ensures
        match found {
            Some(kind) => match mounted_at(mounts@, path@) {
                Some(record) => record.0 == kind@,
                None => false,
            },
            None => mounted_at(mounts@, path@) is None,
        },
{
    match mount_record_at(mounts, path) {
        Some((kind, _)) => Some(kind),
        None => None,
    }
}

/// What one line of the table says of a path.
pub enum Sighting {
    /// The line has no separator.
    Broken,
    /// The line is about another path.
    Elsewhere,
    /// The path is mounted, but not as ours.
    Foreign,
    /// The path is our mount, served by this connection.
    Ours(u32),
}

/// The connection that a device number states: the minor number of an anonymous
/// device.
pub open spec fn connection_of(device: Seq<char>) -> Option<u32> {
    match split_at_first(device, ":"@) {
        Some(halves) => if halves.0 == "0"@ {
            number(halves.1)
        } else {
            None
        },
        None => None,
    }
}

/// What one line of the table says of a path.
pub open spec fn sighted(line: Seq<char>, path: Seq<char>, source: Seq<char>) -> Sighting {
    match split_at_first(line, " - "@) {
        None => Sighting::Broken,
        Some(halves) => {
            let fields = words(halves.0);
            let parts = words(halves.1);
            if fields.len() <= 4 || fields[4] != path {
                Sighting::Elsewhere
            } else if parts.len() < 2 || parts[0] != "fuse.cirrove"@ || parts[1] != source {
                Sighting::Foreign
            } else {
                match connection_of(fields[2]) {
                    Some(id) => Sighting::Ours(id),
                    None => Sighting::Foreign,
                }
            }
        },
    }
}

/// The connection of the one mount of ours, after some lines gave `found`. A second
/// line about the path, a foreign one or a broken line leave nothing.
pub open spec fn connection_in(
    all: Seq<Seq<char>>,
    path: Seq<char>,
    source: Seq<char>,
    found: Option<u32>,
) -> Option<u32>
    decreases all.len(),
{
    if all.len() == 0 {
        found
    } else {
        match sighted(all[0], path, source) {
            Sighting::Broken => None,
            Sighting::Elsewhere => connection_in(all.drop_first(), path, source, found),
            Sighting::Foreign => None,
            Sighting::Ours(id) => if found is Some {
                None
            } else {
                connection_in(all.drop_first(), path, source, Some(id))
            },
        }
    }
}

/// The connection that a device number states.
fn connection_number(device: &Vec<char>) -> (found: Option<u32>)
    ensures
        found == connection_of(device@),
{
    let colon = characters(":");
    match split_once(device, &colon) {
        Some((major, minor)) => {
            if same_chars(&major, &characters("0")) {
                parse_number(&minor)
            } else {
                None
            }
        },
        None => None,
    }
}

/// What one line of the table says of a path.
fn sight(line: &Vec<char>, path: &Vec<char>, source: &Vec<char>) -> (seen: Sighting)
    ensures
        seen == sighted(line@, path@, source@),
{
    let separator = characters(" - ");
    match split_once(line, &separator) {
        None => Sighting::Broken,
        Some((fields, filesystem)) => {
            let fields = split_words(&fields);
            let parts = split_words(&filesystem);
            proof {
                assert(fields@.len() > 4 ==> views(fields@)[4] == fields@[4]@);
                assert(fields@.len() > 4 ==> views(fields@)[2] == fields@[2]@);
                assert(parts@.len() >= 2 ==> views(parts@)[0] == parts@[0]@);
                assert(parts@.len() >= 2 ==> views(parts@)[1] == parts@[1]@);
            }
            if fields.len() <= 4 || !same_chars(&fields[4], path) {
                return Sighting::Elsewhere;
            }
            if parts.len() < 2 || !same_chars(&parts[0], &characters("fuse.cirrove"))
                || !same_chars(&parts[1], source) {
                return Sighting::Foreign;
            }
            match connection_number(&fields[2]) {
                Some(id) => Sighting::Ours(id),
                None => Sighting::Foreign,
            }
        },
    }
}

/// The connection that serves a path, where exactly one line is about it and the
/// mount is ours.
pub fn mount_connection(mounts: &str, path: &str, source: &str) -> (found: Option<u32>)
    ensures
        found == connection_in(lines(mounts@), escaped(path@), source@, None),
{
    let all = split_lines(&characters(mounts));
    let wanted = escape(path);
    let owner = characters(source);
    let ghost seen = views(all@);
    let mut found: Option<u32> = None;
    let mut i: usize = 0;
    proof {
        assert(seen.subrange(0, seen.len() as int) =~= seen);
    }
    while i < all.len()
        invariant
            i <= all@.len(),
            seen == views(all@),
            wanted@ == escaped(path@),
            owner@ == source@,
            connection_in(lines(mounts@), wanted@, owner@, None) == connection_in(
                seen.subrange(i as int, seen.len() as int),
                wanted@,
                owner@,
                found,
            ),
        decreases all@.len() - i,
    {
        proof {
            let rest = seen.subrange(i as int, seen.len() as int);
            assert(rest[0] == all@[i as int]@);
            assert(rest.drop_first() =~= seen.subrange(i + 1, seen.len() as int));
        }
        match sight(&all[i], &wanted, &owner) {
            Sighting::Broken => {
                return None;
            },
            Sighting::Elsewhere => {},
            Sighting::Foreign => {
                return None;
            },
            Sighting::Ours(id) => {
                if found.is_some() {
                    return None;
                }
                found = Some(id);
            },
        }
        i = i + 1;
    }
    proof {
        assert(seen.subrange(i as int, seen.len() as int) =~= Seq::<Seq<char>>::empty());
    }
    found
}

/// Where the kernel shows the connections of mounts.
pub const CONNECTIONS: &'static str = "/sys/fs/fuse/connections";

/// How many bytes of a descriptor's description are read.
pub const DESCRIPTION_LIMIT: usize = 65_536;

/// The line is about the directory that shows the connections of mounts.
pub open spec fn shows_connections(line: Seq<char>) -> bool {
    &&& words(line).len() > 4
    &&& words(line)[4] == CONNECTIONS@
    &&& match split_at_first(line, " - "@) {
        Some(halves) => begins(halves.1, "fusectl "@),
        None => false,
    }
}

/// The connections of mounts are shown.
pub open spec fn connections_shown(all: Seq<Seq<char>>) -> bool {
    exists|i: int| 0 <= i < all.len() && shows_connections(#[trigger] all[i])
}

/// Whether a line is about the directory that shows the connections of mounts.
fn is_control_line(line: &Vec<char>) -> (shows: bool)
    ensures
        shows == shows_connections(line@),
{
    let fields = split_words(line);
    proof {
        assert(fields@.len() > 4 ==> views(fields@)[4] == fields@[4]@);
    }
    if fields.len() <= 4 || !same_chars(&fields[4], &characters(CONNECTIONS)) {
        return false;
    }
    match split_once(line, &characters(" - ")) {
        Some((_, filesystem)) => begins_with(&filesystem, &characters("fusectl ")),
        None => false,
    }
}

/// Whether the connections of mounts are shown.
pub fn has_connections(mounts: &str) -> (shown: bool)
    ensures
        shown == connections_shown(lines(mounts@)),
{
    let all = split_lines(&characters(mounts));
    let mut i: usize = 0;
    while i < all.len()
        invariant
            i <= all@.len(),
            views(all@) == lines(mounts@),
            forall|j: int| 0 <= j < i ==> !shows_connections(#[trigger] lines(mounts@)[j]),
        decreases all@.len() - i,
    {
        proof {
            assert(views(all@)[i as int] == all@[i as int]@);
        }
        if is_control_line(&all[i]) {
            return true;
        }
        i = i + 1;
    }
    false
}

/// What the first line that states a connection says of it.
pub open spec fn stated_connection(all: Seq<Seq<char>>) -> Option<Seq<char>>
    decreases all.len(),
{
    if all.len() == 0 {
        None
    } else if begins(all[0], "fuse_connection:"@) {
        Some(all[0].skip("fuse_connection:"@.len() as int))
    } else {
        stated_connection(all.drop_first())
    }
}

/// The connection that the description of a session's descriptor states; or, where an
/// older kernel states none, the one that the table of mounts shows for its path.
pub open spec fn connection_for(
    mounts: Seq<char>,
    description: Seq<char>,
    path: Seq<char>,
    source: Seq<char>,
) -> Option<u32> {
    let id = match stated_connection(lines(description)) {
        Some(stated) => number(trimmed_end(trimmed_start(stated))),
        None => connection_in(lines(mounts), escaped(path), source, None),
    };
    if connections_shown(lines(mounts)) && id is Some && id->0 != 0 {
        id
    } else {
        None
    }
}

/// What the first line that states a connection says of it.
fn find_connection(description: &str) -> (found: Option<Vec<char>>)
    ensures
        match found {
            Some(stated) => stated_connection(lines(description@)) == Some(stated@),
            None => stated_connection(lines(description@)) is None,
        },
{
    let all = split_lines(&characters(description));
    let start = characters("fuse_connection:");
    let ghost seen = views(all@);
    let mut i: usize = 0;
    proof {
        assert(seen.subrange(0, seen.len() as int) =~= seen);
    }
    while i < all.len()
        invariant
            i <= all@.len(),
            seen == views(all@),
            seen == lines(description@),
            start@ == "fuse_connection:"@,
            stated_connection(lines(description@)) == stated_connection(
                seen.subrange(i as int, seen.len() as int),
            ),
        decreases all@.len() - i,
    {
        proof {
            let rest = seen.subrange(i as int, seen.len() as int);
            assert(rest[0] == all@[i as int]@);
            assert(rest.drop_first() =~= seen.subrange(i + 1, seen.len() as int));
        }
        if begins_with(&all[i], &start) {
            let stated = part(&all[i], start.len(), all[i].len());
            proof {
                assert(stated@ =~= all@[i as int]@.skip(start@.len() as int));
            }
            return Some(stated);
        }
        i = i + 1;
    }
    None
}

/// The connection of a session, where it can be told: from the description of its
/// descriptor, of so many bytes, or from the table of mounts.
pub fn session_connection(
    mounts: &str,
    description: &str,
    length: usize,
    path: &str,
    source: &str,
) -> (found: Option<u32>)
    ensures
        found == (if length > DESCRIPTION_LIMIT {
            None
        } else {
            connection_for(mounts@, description@, path@, source@)
        }),
{
    if length > DESCRIPTION_LIMIT || !has_connections(mounts) {
        return None;
    }
    let id = match find_connection(description) {
        Some(stated) => parse_number(&trim(&stated)),
        None => mount_connection(mounts, path, source),
    };
    match id {
        Some(id) if id != 0 => Some(id),
        _ => None,
    }
}

/// Whether the file that ends a connection may be used: a regular one of ours, on the
/// filesystem that shows the connections.
pub fn is_own_control(regular: bool, owner: u32, user: u32, device: u64, root: u64) -> (own: bool)
    ensures
        own == (regular && owner == user && device == root),
{
    regular && owner == user && device == root
}

/// The table writes a path without blanks: its spaces, tabs, line ends and backslashes as
/// three octal digits behind a backslash, and everything else as it is.
pub proof fn paths_are_written_without_blanks(path: Seq<char>, i: int)
    requires
        0 <= i < escaped(path).len(),
    ensures
        escaped(path)[i] != ' ' && escaped(path)[i] != '\t' && escaped(path)[i] != '\n',
        path.len() <= escaped(path).len() <= 4 * path.len(),
    decreases path.len(),
{
    if path.len() > 0 {
        let front = escaped(path.drop_last());
        if front.len() > 0 {
            paths_are_written_without_blanks(path.drop_last(), if i < front.len() {
                i
            } else {
                0
            });
        }
    }
}

/// A path that needs no escapes is written as it is, and a path is written piece by piece.
pub proof fn plain_paths_are_written_as_they_are(path: Seq<char>, next: char)
    ensures
        (forall|i: int|
            0 <= i < path.len() ==> path[i] != '\\' && path[i] != ' ' && path[i] != '\t' && path[i]
                != '\n') ==> escaped(path) == path,
        escaped(path.push(next)) == escaped(path) + (if next == '\\' {
            seq!['\\', '1', '3', '4']
        } else if next == ' ' {
            seq!['\\', '0', '4', '0']
        } else if next == '\t' {
            seq!['\\', '0', '1', '1']
        } else if next == '\n' {
            seq!['\\', '0', '1', '2']
        } else {
            seq![next]
        }),
    decreases path.len(),
{
    assert(path.push(next).drop_last() =~= path);
    if path.len() > 0 {
        plain_paths_are_written_as_they_are(path.drop_last(), next);
        if forall|i: int|
            0 <= i < path.len() ==> path[i] != '\\' && path[i] != ' ' && path[i] != '\t' && path[i]
                != '\n' {
            assert forall|i: int| 0 <= i < path.drop_last().len() implies path.drop_last()[i]
                != '\\' && path.drop_last()[i] != ' ' && path.drop_last()[i] != '\t'
                && path.drop_last()[i] != '\n' by {
                assert(path.drop_last()[i] == path[i]);
            }
            assert(path.last() == path[path.len() - 1]);
            assert(path.drop_last() + seq![path.last()] =~= path);
        }
    } else {
        assert(escaped(path) =~= path);
    }
}

/// The record of a path is that of the first line about it, and there is none where no line
/// is about it.
pub proof fn the_first_record_counts(all: Seq<Seq<char>>, path: Seq<char>, i: int)
    ensures
        0 <= i < all.len() && record_of(all[i], path) is Some && (forall|j: int|
            0 <= j < i ==> record_of(#[trigger] all[j], path) is None) ==> first_record(all, path)
            == record_of(all[i], path),
        (forall|j: int| 0 <= j < all.len() ==> record_of(#[trigger] all[j], path) is None)
            ==> first_record(all, path) is None,
    decreases all.len(),
{
    if all.len() > 0 {
        let rest = all.drop_first();
        the_first_record_counts(rest, path, i - 1);
        assert forall|j: int| 0 <= j < rest.len() implies rest[j] == all[j + 1] by {}
        if forall|j: int| 0 <= j < all.len() ==> record_of(#[trigger] all[j], path) is None {
            assert(record_of(all[0], path) is None);
            assert forall|j: int| 0 <= j < rest.len() implies record_of(
                #[trigger] rest[j],
                path,
            ) is None by {
                assert(record_of(all[j + 1], path) is None);
            }
        }
        if 0 < i < all.len() && record_of(all[i], path) is Some && (forall|j: int|
            0 <= j < i ==> record_of(#[trigger] all[j], path) is None) {
            assert(record_of(all[0], path) is None);
            assert(rest[i - 1] == all[i]);
            assert forall|j: int| 0 <= j < i - 1 implies record_of(#[trigger] rest[j], path) is None by {
                assert(record_of(all[j + 1], path) is None);
            }
        }
    }
}

/// A line is about our mount only where it has the path as its mount point and our
/// filesystem and source, on an anonymous device.
pub proof fn own_mounts_are_told_apart(line: Seq<char>, path: Seq<char>, source: Seq<char>)
    ensures
        sighted(line, path, source) matches Sighting::Ours(id) ==> {
            let halves = split_at_first(line, " - "@)->0;
            &&& split_at_first(line, " - "@) is Some
            &&& words(halves.0).len() > 4 && words(halves.0)[4] == path
            &&& words(halves.1).len() >= 2
            &&& words(halves.1)[0] == "fuse.cirrove"@
            &&& words(halves.1)[1] == source
            &&& connection_of(words(halves.0)[2]) == Some(id)
        },
        sighted(line, path, source) is Broken <==> split_at_first(line, " - "@) is None,
        sighted(line, path, source) is Elsewhere <==> split_at_first(line, " - "@) is Some && {
            let halves = split_at_first(line, " - "@)->0;
            words(halves.0).len() <= 4 || words(halves.0)[4] != path
        },
{
}

/// A connection is found exactly where one line is about our mount and every other line is
/// about another path; what is found is what that line states.
pub proof fn the_only_mount_is_found(
    all: Seq<Seq<char>>,
    path: Seq<char>,
    source: Seq<char>,
    at: int,
    id: u32,
)
    ensures
        0 <= at < all.len() && sighted(all[at], path, source) == Sighting::Ours(id) && (forall|
            j: int,
        |
            0 <= j < all.len() && j != at ==> sighted(#[trigger] all[j], path, source) is Elsewhere)
            ==> connection_in(all, path, source, None) == Some(id),
        (forall|j: int|
            0 <= j < all.len() ==> sighted(#[trigger] all[j], path, source) is Elsewhere)
            ==> connection_in(all, path, source, None) is None && connection_in(
            all,
            path,
            source,
            Some(id),
        ) == Some(id),
        0 <= at < all.len() && (sighted(all[at], path, source) is Broken || sighted(
            all[at],
            path,
            source,
        ) is Foreign) ==> connection_in(all, path, source, None) is None && connection_in(
            all,
            path,
            source,
            Some(id),
        ) is None,
        0 <= at < all.len() && sighted(all[at], path, source) is Ours ==> connection_in(
            all,
            path,
            source,
            Some(id),
        ) is None,
    decreases all.len(),
{
    if all.len() > 0 {
        let rest = all.drop_first();
        assert forall|j: int| 0 <= j < rest.len() implies rest[j] == all[j + 1] by {}
        the_only_mount_is_found(rest, path, source, at - 1, id);
        if let Sighting::Ours(first) = sighted(all[0], path, source) {
            the_only_mount_is_found(rest, path, source, at - 1, first);
        }
        if 0 < at < all.len() {
            assert(rest[at - 1] == all[at]);
        }
        if forall|j: int|
            0 <= j < all.len() && j != at ==> sighted(#[trigger] all[j], path, source) is Elsewhere {
            assert forall|j: int| 0 <= j < rest.len() && j != at - 1 implies sighted(
                #[trigger] rest[j],
                path,
                source,
            ) is Elsewhere by {
                assert(sighted(all[j + 1], path, source) is Elsewhere);
            }
            if at != 0 {
                assert(sighted(all[0], path, source) is Elsewhere);
            }
        }
        if forall|j: int|
            0 <= j < all.len() ==> sighted(#[trigger] all[j], path, source) is Elsewhere {
            assert(sighted(all[0], path, source) is Elsewhere);
            assert forall|j: int| 0 <= j < rest.len() implies sighted(
                #[trigger] rest[j],
                path,
                source,
            ) is Elsewhere by {
                assert(sighted(all[j + 1], path, source) is Elsewhere);
            }
        }
    }
}

/// A session has a connection only where connections are shown, and never the number zero.
/// What its descriptor states counts, and only where it states nothing does the table.
pub proof fn stated_connections_count(
    mounts: Seq<char>,
    description: Seq<char>,
    path: Seq<char>,
    source: Seq<char>,
)
    ensures
        connection_for(mounts, description, path, source) matches Some(id) ==> {
            &&& id != 0
            &&& connections_shown(lines(mounts))
            &&& stated_connection(lines(description)) matches Some(stated) ==> number(
                trimmed_end(trimmed_start(stated)),
            ) == Some(id)
            &&& stated_connection(lines(description)) is None ==> connection_in(
                lines(mounts),
                escaped(path),
                source,
                None,
            ) == Some(id)
        },
        ({
            let stated = stated_connection(lines(description));
            let told = number(trimmed_end(trimmed_start(stated->0)));
            let found = connection_in(lines(mounts), escaped(path), source, None);
            &&& connections_shown(lines(mounts)) && stated is Some && told is Some && told->0 != 0
                ==> connection_for(mounts, description, path, source) == told
            &&& connections_shown(lines(mounts)) && stated is None && found is Some && found->0 != 0
                ==> connection_for(mounts, description, path, source) == found
        }),
{
}

} // verus!
