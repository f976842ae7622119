//! A model of the file system: what lies where, where links lead, and what the operations on
//! files do.
//!
//! The model holds the repository, the home directory of git-warp, and whatever links lead to
//! elsewhere. Files are kept by the place where they really are; a path is followed to such a
//! place through every link on its way. An operation fails only for what lies in its way: the
//! model has no permissions, and one file system.

use crate::symlink_manager::{Found, Place};
use vstd::prelude::*;

verus! {

// ── Files ────────────────────────────────────────────────────────────────────────────────
/// What can lie at a place.
pub enum Node {
    File(Seq<u8>),
    Directory,
    Link(Place),
}

/// The directory that a place lies in.
pub open spec fn parent(p: Place) -> Place {
    Place { base: p.base, parts: p.parts.drop_last() }
}

/// Something in a directory.
pub open spec fn child(d: Place, name: Seq<char>) -> Place {
    Place { base: d.base, parts: d.parts.push(name) }
}

/// Whether a place is another one, or lies below it.
pub open spec fn within(p: Place, top: Place) -> bool {
    &&& p.base == top.base
    &&& top.parts.len() <= p.parts.len()
    &&& p.parts.take(top.parts.len() as int) == top.parts
}

/// Whether a directory lies at a place.
pub open spec fn directory_at(files: Map<Place, Node>, p: Place) -> bool {
    files.contains_key(p) && files[p] is Directory
}

/// Whether there is a file or nothing at a place.
pub open spec fn file_or_nothing(files: Map<Place, Node>, p: Place) -> bool {
    files.contains_key(p) ==> files[p] is File
}

/// Whether everything lies in a directory, up to where paths begin.
pub open spec fn well_formed(files: Map<Place, Node>) -> bool {
    forall|p: Place| #[trigger]
        files.contains_key(p) && p.parts.len() > 0 ==> directory_at(files, parent(p))
}

/// Whether two states of the files agree on a place.
pub open spec fn same_at(a: Map<Place, Node>, b: Map<Place, Node>, p: Place) -> bool {
    a.contains_key(p) == b.contains_key(p) && (a.contains_key(p) ==> a[p] == b[p])
}

// ── Paths ────────────────────────────────────────────────────────────────────────────────
/// Where a path ends once every link on it is followed: nowhere, or at a place, with so many
/// links left that may be followed. The place is no link; there may be nothing at it.
pub enum Reached {
    Nothing,
    At(Place, nat),
}

/// Follows a path and every link on it, as long as there are no more than `limit` links.
pub open spec fn reach(files: Map<Place, Node>, p: Place, limit: nat) -> Reached
    decreases limit, p.parts.len(),
{
    if p.parts.len() == 0 {
        Reached::At(p, limit)
    } else {
        match reach(files, parent(p), limit) {
            Reached::Nothing => Reached::Nothing,
            Reached::At(d, left) => {
                let q = child(d, p.parts.last());
                if files.contains_key(q) && files[q] is Link {
                    if 0 < left <= limit {
                        reach(files, files[q]->Link_0, (left - 1) as nat)
                    } else {
                        Reached::Nothing
                    }
                } else {
                    Reached::At(q, left)
                }
            },
        }
    }
}

/// The place that a path leads to, through at most the 40 links that the system follows.
pub open spec fn place_of(files: Map<Place, Node>, p: Place) -> Option<Place> {
    match reach(files, p, 40) {
        Reached::Nothing => None,
        Reached::At(q, _) => Some(q),
    }
}

/// The place that a path names: links on the way are followed, but not one at its end.
pub open spec fn spot(files: Map<Place, Node>, p: Place) -> Option<Place> {
    if p.parts.len() == 0 {
        Some(p)
    } else {
        match place_of(files, parent(p)) {
            Some(d) => Some(child(d, p.parts.last())),
            None => None,
        }
    }
}

/// What is found at the end of a path once every link is followed.
pub open spec fn followed(files: Map<Place, Node>, p: Place) -> Option<Node> {
    match place_of(files, p) {
        Some(q) => if files.contains_key(q) {
            Some(files[q])
        } else {
            None
        },
        None => None,
    }
}

/// What is found at the end of a path, without following a link there, and whether such a link
/// leads to the target.
pub open spec fn found(files: Map<Place, Node>, p: Place, target: Place) -> Found {
    match spot(files, p) {
        Some(q) => if !files.contains_key(q) {
            Found::Nothing
        } else {
            match files[q] {
                Node::Link(to) => Found::Link { to_target: to == target },
                Node::Directory => Found::Directory,
                Node::File(_) => Found::Other,
            }
        },
        None => Found::Nothing,
    }
}

/// Whether every place that a path leads over is one of the given places, its end included.
pub open spec fn leads_over(
    files: Map<Place, Node>,
    places: spec_fn(Place) -> bool,
    p: Place,
    limit: nat,
) -> bool
    decreases limit, p.parts.len(),
{
    if p.parts.len() == 0 {
        places(p)
    } else {
        &&& leads_over(files, places, parent(p), limit)
        &&& reach(files, parent(p), limit) matches Reached::At(d, left) ==> {
            let q = child(d, p.parts.last());
            &&& places(q)
            &&& files.contains_key(q) && files[q] is Link && 0 < left <= limit ==> leads_over(
                files,
                places,
                files[q]->Link_0,
                (left - 1) as nat,
            )
        }
    }
}

// ── Operations ───────────────────────────────────────────────────────────────────────────
/// The files without a place and everything below it.
pub open spec fn cleared(files: Map<Place, Node>, top: Place) -> Map<Place, Node> {
    files.remove_keys(Set::new(|p: Place| within(p, top)))
}

/// Whether a file can be written at a place: it lies in a directory, unless paths begin there,
/// and there is nothing or another file.
pub open spec fn writable(files: Map<Place, Node>, q: Place) -> bool {
    &&& q.parts.len() > 0 ==> directory_at(files, parent(q))
    &&& file_or_nothing(files, q)
}

/// The files after a file was written, if it can be: where the path leads to.
pub open spec fn written(files: Map<Place, Node>, p: Place, bytes: Seq<u8>) -> Option<
    Map<Place, Node>,
> {
    match place_of(files, p) {
        Some(q) => if writable(files, q) {
            Some(files.insert(q, Node::File(bytes)))
        } else {
            None
        },
        None => None,
    }
}

/// Whether something new can be put at a place: it lies in a directory, and there is nothing.
pub open spec fn vacant(files: Map<Place, Node>, q: Place) -> bool {
    q.parts.len() > 0 && directory_at(files, parent(q)) && !files.contains_key(q)
}

/// The files after a link was created, if it can be.
pub open spec fn link_made(files: Map<Place, Node>, p: Place, target: Place) -> Option<
    Map<Place, Node>,
> {
    match spot(files, p) {
        Some(q) => if vacant(files, q) {
            Some(files.insert(q, Node::Link(target)))
        } else {
            None
        },
        None => None,
    }
}

/// The files after a link was removed, if there is one.
pub open spec fn link_removed(files: Map<Place, Node>, p: Place) -> Option<Map<Place, Node>> {
    match spot(files, p) {
        Some(q) => if files.contains_key(q) && files[q] is Link {
            Some(files.remove(q))
        } else {
            None
        },
        None => None,
    }
}

/// The files after a directory was removed with everything in it, if there is one.
pub open spec fn tree_removed(files: Map<Place, Node>, p: Place) -> Option<Map<Place, Node>> {
    match spot(files, p) {
        Some(q) => if directory_at(files, q) {
            Some(cleared(files, q))
        } else {
            None
        },
        None => None,
    }
}

/// The files after a directory was created, and those above it that were missing, and whether
/// all could be.
pub open spec fn with_directories(files: Map<Place, Node>, p: Place) -> (Map<Place, Node>, bool)
    decreases p.parts.len(),
{
    if followed(files, p) == Some(Node::Directory) {
        (files, true)
    } else if p.parts.len() == 0 {
        if files.contains_key(p) {
            (files, false)
        } else {
            (files.insert(p, Node::Directory), true)
        }
    } else {
        let (above, made) = with_directories(files, parent(p));
        match spot(above, p) {
            Some(q) => if made && vacant(above, q) {
                (above.insert(q, Node::Directory), true)
            } else {
                (above, false)
            },
            None => (above, false),
        }
    }
}

/// The place below `from` that a place below `to` came from when `from` was moved to `to`.
pub open spec fn origin(p: Place, from: Place, to: Place) -> Place {
    Place { base: from.base, parts: from.parts + p.parts.skip(to.parts.len() as int) }
}

/// The files after `from` was moved to `to`, with everything below it.
pub open spec fn moved(files: Map<Place, Node>, from: Place, to: Place) -> Map<Place, Node> {
    Map::new(
        |p: Place|
            if within(p, to) {
                files.contains_key(origin(p, from, to))
            } else {
                files.contains_key(p) && !within(p, from)
            },
        |p: Place|
            if within(p, to) {
                files[origin(p, from, to)]
            } else {
                files[p]
            },
    )
}

/// The files after a directory was moved to where nothing was, if it can be.
pub open spec fn renamed(files: Map<Place, Node>, from: Place, to: Place) -> Option<
    Map<Place, Node>,
> {
    match (spot(files, from), spot(files, to)) {
        (Some(f), Some(t)) => if files.contains_key(f) && vacant(files, t) && !within(t, f) {
            Some(moved(files, f, t))
        } else {
            None
        },
        _ => None,
    }
}

// ── Facts about paths ────────────────────────────────────────────────────────────────────
/// What is no link is found at its own place.
pub proof fn lemma_reach_plain(files: Map<Place, Node>, p: Place, limit: nat)
    requires
        well_formed(files),
        files.contains_key(p),
        !(files[p] is Link),
    ensures
        reach(files, p, limit) == Reached::At(p, limit),
    decreases p.parts.len(),
{
    if p.parts.len() > 0 {
        assert(directory_at(files, parent(p)));
        lemma_reach_plain(files, parent(p), limit);
        assert(child(parent(p), p.parts.last()).parts =~= p.parts);
    }
}

/// Where the links are the same, every path ends at the same place.
pub proof fn lemma_reach_same_links(
    a: Map<Place, Node>,
    b: Map<Place, Node>,
    p: Place,
    limit: nat,
)
    requires
        forall|q: Place|
            #![trigger a.contains_key(q)]
            #![trigger b.contains_key(q)]
            (a.contains_key(q) && a[q] is Link || b.contains_key(q) && b[q] is Link) ==> same_at(
                a,
                b,
                q,
            ),
    ensures
        reach(a, p, limit) == reach(b, p, limit),
    decreases limit, p.parts.len(),
{
    if p.parts.len() > 0 {
        lemma_reach_same_links(a, b, parent(p), limit);
        if let Reached::At(d, left) = reach(a, parent(p), limit) {
            let q = child(d, p.parts.last());
            if a.contains_key(q) && a[q] is Link && 0 < left <= limit {
                lemma_reach_same_links(a, b, a[q]->Link_0, (left - 1) as nat);
            }
        }
    }
}

/// A path ends at no link.
pub proof fn lemma_reach_no_link(files: Map<Place, Node>, p: Place, limit: nat)
    ensures
        reach(files, p, limit) matches Reached::At(q, _) ==> q.parts.len() > 0
            ==> files.contains_key(q) ==> !(files[q] is Link),
    decreases limit, p.parts.len(),
{
    if p.parts.len() > 0 {
        if let Reached::At(d, left) = reach(files, parent(p), limit) {
            let q = child(d, p.parts.last());
            if files.contains_key(q) && files[q] is Link && 0 < left <= limit {
                lemma_reach_no_link(files, files[q]->Link_0, (left - 1) as nat);
            }
        }
    }
}

/// A path ends at the same place, and there is the same at it, where the files agree on every
/// place that it leads over.
pub proof fn lemma_leads_over(
    a: Map<Place, Node>,
    b: Map<Place, Node>,
    places: spec_fn(Place) -> bool,
    p: Place,
    limit: nat,
)
    requires
        leads_over(a, places, p, limit),
        forall|q: Place| #[trigger] places(q) ==> same_at(a, b, q),
    ensures
        reach(a, p, limit) == reach(b, p, limit),
        reach(a, p, limit) matches Reached::At(q, _) ==> same_at(a, b, q),
    decreases limit, p.parts.len(),
{
    if p.parts.len() > 0 {
        lemma_leads_over(a, b, places, parent(p), limit);
        if let Reached::At(d, left) = reach(a, parent(p), limit) {
            let q = child(d, p.parts.last());
            assert(places(q));
            if a.contains_key(q) && a[q] is Link && 0 < left <= limit {
                lemma_leads_over(a, b, places, a[q]->Link_0, (left - 1) as nat);
            }
        }
    }
}

/// Writing a file leaves every path where it led.
pub proof fn lemma_reach_past_file(
    files: Map<Place, Node>,
    q: Place,
    bytes: Seq<u8>,
    p: Place,
    limit: nat,
)
    requires
        file_or_nothing(files, q),
    ensures
        reach(files.insert(q, Node::File(bytes)), p, limit) == reach(files, p, limit),
{
    lemma_reach_same_links(files, files.insert(q, Node::File(bytes)), p, limit);
}

/// A path that ends at something does not lead through a place where nothing is, and so not
/// elsewhere once something is put there.
pub proof fn lemma_reach_past_nothing(
    files: Map<Place, Node>,
    at: Place,
    node: Node,
    p: Place,
    limit: nat,
)
    requires
        well_formed(files),
        !files.contains_key(at),
        reach(files, p, limit) matches Reached::At(q, _) && files.contains_key(q),
    ensures
        reach(files.insert(at, node), p, limit) == reach(files, p, limit),
    decreases limit, p.parts.len(),
{
    if p.parts.len() > 0 {
        if let Reached::At(d, left) = reach(files, parent(p), limit) {
            let q = child(d, p.parts.last());
            assert(parent(q).parts =~= d.parts);
            assert(files.contains_key(q));
            assert(directory_at(files, parent(q)));
            lemma_reach_past_nothing(files, at, node, parent(p), limit);
            if files[q] is Link && 0 < left <= limit {
                lemma_reach_past_nothing(files, at, node, files[q]->Link_0, (left - 1) as nat);
            }
        }
    }
}

/// Where nothing is, nothing is below.
pub proof fn lemma_nothing_below(files: Map<Place, Node>, top: Place, p: Place)
    requires
        well_formed(files),
        !files.contains_key(top),
        within(p, top),
    ensures
        !files.contains_key(p),
    decreases p.parts.len(),
{
    if p.parts.len() == top.parts.len() {
        assert(p.parts.take(top.parts.len() as int) =~= p.parts);
    } else {
        let q = parent(p);
        assert(q.parts.take(top.parts.len() as int) =~= p.parts.take(top.parts.len() as int));
        lemma_nothing_below(files, top, q);
    }
}

/// What lies in a directory below a place lies below that place too.
pub proof fn lemma_parent_within(p: Place, top: Place)
    requires
        p.parts.len() > 0,
        within(parent(p), top),
    ensures
        within(p, top),
{
    let n = top.parts.len() as int;
    assert(p.parts.take(n) =~= parent(p).parts.take(n));
}

/// Of two places that something lies below, one lies below the other.
pub proof fn lemma_within_both(p: Place, a: Place, b: Place)
    requires
        within(p, a),
        within(p, b),
    ensures
        within(a, b) || within(b, a),
{
    if a.parts.len() <= b.parts.len() {
        assert(b.parts.take(a.parts.len() as int) =~= p.parts.take(a.parts.len() as int));
    } else {
        assert(a.parts.take(b.parts.len() as int) =~= p.parts.take(b.parts.len() as int));
    }
}

/// What lies below something that lies below a place lies below that place.
pub proof fn lemma_within_step(p: Place, a: Place, b: Place)
    requires
        within(p, a),
        within(a, b),
    ensures
        within(p, b),
{
    assert(p.parts.take(b.parts.len() as int) =~= p.parts.take(a.parts.len() as int).take(
        b.parts.len() as int,
    ));
}

/// A place lies within itself, and what is in a directory lies within that directory.
pub proof fn lemma_within_child(d: Place, name: Seq<char>)
    ensures
        within(d, d),
        within(child(d, name), d),
        parent(child(d, name)) == d,
{
    let q = child(d, name);
    assert(d.parts.take(d.parts.len() as int) =~= d.parts);
    assert(q.parts.take(d.parts.len() as int) =~= d.parts);
    assert(parent(q).parts =~= d.parts);
}

/// A path that ended at something when `from` was moved to `to` still ends there, or it led
/// through `from` and now ends below it, where nothing is any more.
pub proof fn lemma_reach_after_move(
    files: Map<Place, Node>,
    from: Place,
    to: Place,
    p: Place,
    limit: nat,
)
    requires
        well_formed(files),
        from.parts.len() > 0,
        files.contains_key(from),
        !files.contains_key(to),
        !within(to, from),
        reach(files, p, limit) matches Reached::At(x, _) && files.contains_key(x),
    ensures
        reach(moved(files, from, to), p, limit) matches Reached::At(y, left) && {
            ||| within(y, from)
            ||| reach(files, p, limit) == Reached::At(y, left) && !within(y, from)
        },
    decreases limit, p.parts.len(),
{
    let after = moved(files, from, to);
    if within(from, to) {
        lemma_nothing_below(files, to, from);
    }
    if p.parts.len() > 0 {
        if let Reached::At(d, left) = reach(files, parent(p), limit) {
            let q = child(d, p.parts.last());
            assert(parent(q).parts =~= d.parts);
            assert(files.contains_key(q));
            assert(directory_at(files, parent(q)));
            lemma_reach_after_move(files, from, to, parent(p), limit);
            if let Reached::At(y, left2) = reach(after, parent(p), limit) {
                let c = child(y, p.parts.last());
                assert(parent(c).parts =~= y.parts);
                if within(y, from) {
                    lemma_parent_within(c, from);
                    if within(c, to) {
                        lemma_within_both(c, from, to);
                    }
                    assert(!after.contains_key(c));
                } else {
                    assert(c == q);
                    if within(q, to) {
                        lemma_nothing_below(files, to, q);
                    }
                    if !within(q, from) && files[q] is Link && 0 < left <= limit {
                        lemma_reach_after_move(
                            files,
                            from,
                            to,
                            files[q]->Link_0,
                            (left - 1) as nat,
                        );
                    }
                }
            }
        }
    }
}

// ── Every operation keeps the files in order ─────────────────────────────────────────────
/// Something new in a directory, where no directory was, keeps the files in order.
pub proof fn lemma_insert_keeps_order(files: Map<Place, Node>, at: Place, node: Node)
    requires
        well_formed(files),
        at.parts.len() > 0 ==> directory_at(files, parent(at)),
        !directory_at(files, at),
    ensures
        well_formed(files.insert(at, node)),
{
    let after = files.insert(at, node);
    assert forall|p: Place| #[trigger] after.contains_key(p) && p.parts.len() > 0 implies
        directory_at(after, parent(p)) by {
        assert(parent(p).parts.len() < p.parts.len());
        if p != at {
            assert(files.contains_key(p));
        }
        assert(directory_at(files, parent(p)));
        assert(parent(p) != at);
    }
}

/// Taking away what is no directory keeps the files in order.
pub proof fn lemma_remove_keeps_order(files: Map<Place, Node>, at: Place)
    requires
        well_formed(files),
        !directory_at(files, at),
    ensures
        well_formed(files.remove(at)),
{
    let after = files.remove(at);
    assert forall|p: Place| #[trigger] after.contains_key(p) && p.parts.len() > 0 implies
        directory_at(after, parent(p)) by {
        assert(files.contains_key(p));
        assert(directory_at(files, parent(p)));
        assert(parent(p) != at);
    }
}

/// Taking away a directory with everything in it keeps the files in order.
pub proof fn lemma_clear_keeps_order(files: Map<Place, Node>, top: Place)
    requires
        well_formed(files),
    ensures
        well_formed(cleared(files, top)),
{
    let after = cleared(files, top);
    assert forall|p: Place| #[trigger] after.contains_key(p) && p.parts.len() > 0 implies
        directory_at(after, parent(p)) by {
        assert(files.contains_key(p));
        if within(parent(p), top) {
            lemma_parent_within(p, top);
        }
    }
}

/// Moving a directory to a place where nothing is keeps the files in order.
pub proof fn lemma_move_keeps_order(files: Map<Place, Node>, from: Place, to: Place)
    requires
        well_formed(files),
        vacant(files, to),
        !within(to, from),
    ensures
        well_formed(moved(files, from, to)),
{
    let after = moved(files, from, to);
    assert forall|p: Place| #[trigger] after.contains_key(p) && p.parts.len() > 0 implies
        directory_at(after, parent(p)) by {
        let q = parent(p);
        if within(p, to) {
            if p.parts.len() == to.parts.len() {
                assert(p.parts.take(to.parts.len() as int) =~= p.parts);
                assert(q == parent(to));
                if within(q, to) {
                    assert(q.parts.len() < to.parts.len());
                }
                if within(q, from) {
                    lemma_parent_within(to, from);
                }
            } else {
                let n = to.parts.len() as int;
                assert(q.parts.take(n) =~= p.parts.take(n));
                assert(within(q, to));
                let o = origin(p, from, to);
                assert(files.contains_key(o));
                assert(parent(o).parts =~= origin(q, from, to).parts);
                assert(directory_at(files, parent(o)));
            }
        } else {
            assert(files.contains_key(p));
            if within(q, to) {
                lemma_parent_within(p, to);
            }
            if within(q, from) {
                lemma_parent_within(p, from);
            }
        }
    }
}

/// Creating directories keeps the files in order and everything that was there, adds nothing but
/// directories, and where it succeeds the path leads to a directory, and every new directory is
/// that one or above it.
pub proof fn lemma_with_directories(files: Map<Place, Node>, p: Place)
    requires
        well_formed(files),
    ensures
        ({
            let (after, made) = with_directories(files, p);
            &&& well_formed(after)
            &&& forall|q: Place| #[trigger]
                files.contains_key(q) ==> after.contains_key(q) && after[q] == files[q]
            &&& forall|q: Place| #[trigger]
                after.contains_key(q) && !files.contains_key(q) ==> after[q] is Directory
            &&& made ==> followed(after, p) == Some(Node::Directory)
            &&& made ==> forall|q: Place| #[trigger]
                after.contains_key(q) && !files.contains_key(q) ==> within(
                    place_of(after, p)->0,
                    q,
                )
        }),
    decreases p.parts.len(),
{
    if followed(files, p) == Some(Node::Directory) {
    } else if p.parts.len() == 0 {
        if !files.contains_key(p) {
            lemma_insert_keeps_order(files, p, Node::Directory);
            lemma_within_child(p, Seq::empty());
        }
    } else {
        lemma_with_directories(files, parent(p));
        let (above, made) = with_directories(files, parent(p));
        if let Some(q) = spot(above, p) {
            if made && vacant(above, q) {
                lemma_insert_keeps_order(above, q, Node::Directory);
                lemma_reach_past_nothing(above, q, Node::Directory, parent(p), 40);
                let after = above.insert(q, Node::Directory);
                let d = place_of(above, parent(p))->0;
                lemma_within_child(d, p.parts.last());
                lemma_within_child(q, Seq::empty());
                assert(place_of(after, p) == Some(q));
                assert forall|n: Place| #[trigger]
                    after.contains_key(n) && !files.contains_key(n) implies within(q, n) by {
                    if n != q {
                        assert(above.contains_key(n));
                        lemma_within_step(q, d, n);
                    }
                }
            }
        }
    }
}

/// Whether nothing but directories is at a place and above it.
pub open spec fn clear_way(files: Map<Place, Node>, p: Place) -> bool {
    forall|q: Place| #[trigger] files.contains_key(q) && within(p, q) ==> files[q] is Directory
}

/// Where nothing but directories is in the way, the missing directories are created, in the
/// place that the path spells.
pub proof fn lemma_clear_way(files: Map<Place, Node>, p: Place)
    requires
        well_formed(files),
        clear_way(files, p),
    ensures
        reach(files, p, 40) == Reached::At(p, 40),
        ({
            let (after, made) = with_directories(files, p);
            &&& made
            &&& directory_at(after, p)
            &&& forall|q: Place| #[trigger]
                after.contains_key(q) && !files.contains_key(q) ==> within(p, q)
        }),
    decreases p.parts.len(),
{
    lemma_within_child(p, Seq::empty());
    if p.parts.len() > 0 {
        let d = parent(p);
        assert(child(d, p.parts.last()).parts =~= p.parts);
        lemma_within_child(d, p.parts.last());
        assert forall|q: Place| #[trigger] files.contains_key(q) && within(d, q) implies files[q]
            is Directory by {
            lemma_within_step(p, d, q);
        }
        lemma_clear_way(files, d);
        let (above, made) = with_directories(files, d);
        lemma_with_directories(files, d);
        lemma_reach_plain(above, d, 40);
        if !files.contains_key(p) {
            assert(!above.contains_key(p)) by {
                assert(!within(d, p));
            }
            let after = above.insert(p, Node::Directory);
            assert(with_directories(files, p) == (after, true));
            assert forall|q: Place| #[trigger]
                after.contains_key(q) && !files.contains_key(q) implies within(p, q) by {
                if q != p {
                    assert(above.contains_key(q));
                    lemma_within_step(p, d, q);
                }
            }
        }
    }
}

} // verus!
