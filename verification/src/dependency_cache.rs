//! What the dependency cache promises, on a model of the file system.
//!
//! The model ([`file_model`]) says what each action of a job does to the files; the laws say what
//! a whole job does. Any directory on the way to a cache entry, the entry itself, and what is in
//! it may be links.

use crate::file_model;
use crate::file_model::Node;
use crate::gc;
use crate::hashing;
use crate::symlink_manager;
use crate::symlink_manager::{
    ActionView, Base, EventView, Fault, Found, JobView, Operation, Place, ResultView,
};
use crate::timestamp::Timestamp;
use vstd::prelude::*;

verus! {

// ── What an action does ──────────────────────────────────────────────────────────────────
/// The answer to a question, which changes nothing.
pub open spec fn answered(files: Map<Place, Node>, yes: bool) -> (Map<Place, Node>, EventView) {
    (files, EventView::Answer(yes))
}

/// A change that is made where it can be, and fails otherwise.
pub open spec fn changed(files: Map<Place, Node>, after: Option<Map<Place, Node>>) -> (
    Map<Place, Node>,
    EventView,
) {
    match after {
        Some(after) => (after, EventView::Succeeded),
        None => (files, EventView::Failed),
    }
}

/// What an action does to the files, and how it goes. `mark` is what marks a cache entry as
/// used now.
pub open spec fn performed(files: Map<Place, Node>, mark: Seq<u8>, action: ActionView) -> (
    Map<Place, Node>,
    EventView,
) {
    match action {
        ActionView::IsFile(p) => answered(
            files,
            file_model::followed(files, p) matches Some(Node::File(_)),
        ),
        ActionView::ReadFile(p) => match file_model::followed(files, p) {
            Some(Node::File(bytes)) => (files, EventView::Contents(bytes)),
            _ => (files, EventView::Failed),
        },
        ActionView::Inspect { at, target } => (
            files,
            EventView::Found(file_model::found(files, at, target)),
        ),
        ActionView::MarkUsed(e) => changed(
            files,
            file_model::written(files, file_model::child(e, ".last_used"@), mark),
        ),
        ActionView::RemoveLink(p) => changed(files, file_model::link_removed(files, p)),
        ActionView::RemoveTree(p) => changed(files, file_model::tree_removed(files, p)),
        ActionView::IsDirectory(p) => answered(
            files,
            file_model::followed(files, p) == Some(Node::Directory),
        ),
        ActionView::Exists(p) => answered(files, file_model::followed(files, p) is Some),
        ActionView::CreateDirectory(p) => {
            let (after, made) = file_model::with_directories(files, p);
            if made {
                (after, EventView::Succeeded)
            } else {
                (after, EventView::Failed)
            }
        },
        ActionView::Rename { from, to } => changed(files, file_model::renamed(files, from, to)),
        ActionView::WriteText { at, contents } => changed(
            files,
            file_model::written(files, at, vstd::utf8::encode_utf8(contents)),
        ),
        ActionView::MakeLink { at, target } => changed(
            files,
            file_model::link_made(files, at, target),
        ),
        _ => (files, EventView::Failed),
    }
}

/// Whether an action is the last one of a job.
pub open spec fn last_action(action: ActionView) -> bool {
    action is Swapped || action is Stashed || action is Fail
}

/// The files after a job did what it asked for, and its last action. `limit` bounds the number
/// of actions.
pub open spec fn driven(
    files: Map<Place, Node>,
    mark: Seq<u8>,
    job: JobView,
    action: ActionView,
    limit: nat,
) -> (Map<Place, Node>, ActionView)
    decreases limit,
{
    if last_action(action) || limit == 0 {
        (files, action)
    } else {
        let (after, event) = performed(files, mark, action);
        let (job, next) = symlink_manager::job_step(job, event);
        driven(after, mark, job, next, (limit - 1) as nat)
    }
}

/// The files after a swap, and its last action.
pub open spec fn swapped(files: Map<Place, Node>, mark: Seq<u8>) -> (Map<Place, Node>, ActionView) {
    let (job, action) = symlink_manager::job_begins(Operation::Swap);
    driven(files, mark, job, action, 14)
}

/// The files after a stash, and its last action.
pub open spec fn stashed(files: Map<Place, Node>, mark: Seq<u8>) -> (Map<Place, Node>, ActionView) {
    let (job, action) = symlink_manager::job_begins(Operation::Stash);
    driven(files, mark, job, action, 14)
}

// ── The lockfile ─────────────────────────────────────────────────────────────────────────
/// The first of the lockfiles from the `i`-th on that is there: its name and its contents.
pub open spec fn lockfile_from(files: Map<Place, Node>, i: int) -> Option<(Seq<char>, Seq<u8>)>
    decreases symlink_manager::lockfiles().len() - i,
{
    let names = symlink_manager::lockfiles();
    if i < 0 || i >= names.len() {
        None
    } else {
        match file_model::followed(files, symlink_manager::in_repo(names[i])) {
            Some(Node::File(bytes)) => Some((names[i], bytes)),
            _ => lockfile_from(files, i + 1),
        }
    }
}

/// The lockfile of the repository: its name and its contents.
pub open spec fn lockfile(files: Map<Place, Node>) -> Option<(Seq<char>, Seq<u8>)> {
    lockfile_from(files, 0)
}

/// The key of the cache entry that the lockfile asks for.
pub open spec fn wanted(files: Map<Place, Node>) -> Option<Seq<char>> {
    match lockfile(files) {
        Some((_, bytes)) => Some(hashing::content_key(bytes)),
        None => None,
    }
}

/// The path of the mark of a cache entry.
pub open spec fn mark_path(key: Seq<char>) -> Place {
    symlink_manager::in_entry(key, ".last_used"@)
}

/// The mark of a cache entry lies in it.
proof fn lemma_mark(key: Seq<char>)
    ensures
        file_model::child(symlink_manager::entry(key), ".last_used"@) == mark_path(key),
{
    assert(file_model::child(symlink_manager::entry(key), ".last_used"@).parts =~= mark_path(
        key,
    ).parts);
}

/// A lockfile that was found is there.
proof fn lemma_lockfile(files: Map<Place, Node>, i: int)
    ensures
        lockfile_from(files, i) matches Some((name, bytes)) ==> file_model::followed(
            files,
            symlink_manager::in_repo(name),
        ) == Some(Node::File(bytes)),
    decreases symlink_manager::lockfiles().len() - i,
{
    if 0 <= i < symlink_manager::lockfiles().len() {
        lemma_lockfile(files, i + 1);
    }
}

/// The root of the repository.
pub open spec fn repo_root() -> Place {
    Place { base: Base::Repo, parts: Seq::empty() }
}

/// Where there is a lockfile, the repository is a directory.
proof fn lemma_repo_is_there(files: Map<Place, Node>)
    requires
        file_model::well_formed(files),
        lockfile(files) is Some,
    ensures
        file_model::directory_at(files, repo_root()),
{
    reveal_with_fuel(file_model::reach, 3);
    lemma_lockfile(files, 0);
    let (name, _) = lockfile(files)->0;
    let p = symlink_manager::in_repo(name);
    assert(file_model::parent(p).parts =~= Seq::empty());
    assert(file_model::child(file_model::parent(p), name).parts =~= p.parts);
    assert(files.contains_key(p));
}

/// No link is on the way to `node_modules`.
proof fn lemma_dep_dir(files: Map<Place, Node>)
    ensures
        file_model::parent(symlink_manager::dep_dir()) == repo_root(),
        file_model::spot(files, symlink_manager::dep_dir()) == Some(symlink_manager::dep_dir()),
        file_model::within(symlink_manager::dep_dir(), symlink_manager::dep_dir()),
        !file_model::within(repo_root(), symlink_manager::dep_dir()),
{
    let at = symlink_manager::dep_dir();
    assert(file_model::parent(at).parts =~= Seq::empty());
    assert(file_model::child(repo_root(), "node_modules"@).parts =~= at.parts);
    assert(at.parts.take(1) =~= at.parts);
}

/// Looking for lockfiles ends with the first that is there.
proof fn lemma_probing(files: Map<Place, Node>, mark: Seq<u8>, operation: Operation)
    ensures
        ({
            let (job, action) = symlink_manager::job_begins(operation);
            match lockfile(files) {
                Some((name, bytes)) => exists|limit: nat|
                    10 <= limit <= 14 && driven(files, mark, job, action, 14) == #[trigger] driven(
                        files,
                        mark,
                        JobView { step: symlink_manager::Step::Read, name, ..job },
                        ActionView::ReadFile(symlink_manager::in_repo(name)),
                        limit,
                    ),
                None => driven(files, mark, job, action, 14) == (
                    files,
                    if operation == Operation::Swap {
                        ActionView::Swapped(ResultView::NoLockfile)
                    } else {
                        ActionView::Fail(Fault::NoLockfile)
                    },
                ),
            }
        }),
{
    reveal_with_fuel(driven, 6);
    reveal_with_fuel(lockfile_from, 6);
    let (job, action) = symlink_manager::job_begins(operation);
    let names = symlink_manager::lockfiles();
    if let Some((name, bytes)) = lockfile(files) {
        let job = JobView { step: symlink_manager::Step::Read, name, ..job };
        let action = ActionView::ReadFile(symlink_manager::in_repo(name));
        let found_at = |i: int|
            file_model::followed(files, symlink_manager::in_repo(names[i])) matches Some(
                Node::File(_),
            );
        // Name the number of actions that are left, as the witness of the claim.
        if found_at(0) {
            assert(driven(files, mark, job, action, 13) == driven(files, mark, job, action, 13));
        } else if found_at(1) {
            assert(driven(files, mark, job, action, 12) == driven(files, mark, job, action, 12));
        } else if found_at(2) {
            assert(driven(files, mark, job, action, 11) == driven(files, mark, job, action, 11));
        } else {
            assert(driven(files, mark, job, action, 10) == driven(files, mark, job, action, 10));
        }
    }
}

// ── What a swap does ─────────────────────────────────────────────────────────────────────
/// The end of a job that marks a cache entry as used: it fails where the mark cannot be written.
pub open spec fn marked(
    files: Map<Place, Node>,
    mark: Seq<u8>,
    key: Seq<char>,
    action: ActionView,
) -> (Map<Place, Node>, ActionView) {
    match file_model::written(files, mark_path(key), mark) {
        Some(after) => (after, action),
        None => (files, ActionView::Fail(Fault::MarkUsed)),
    }
}

/// The end of a swap once nothing is at the place of `node_modules`: a link to the cached
/// dependencies where there are any.
pub open spec fn linked(
    files: Map<Place, Node>,
    mark: Seq<u8>,
    name: Seq<char>,
    key: Seq<char>,
) -> (Map<Place, Node>, ActionView) {
    let target = symlink_manager::cached_deps(key);
    if file_model::followed(files, target) == Some(Node::Directory) {
        marked(
            files.insert(symlink_manager::dep_dir(), Node::Link(target)),
            mark,
            key,
            ActionView::Swapped(
                ResultView::Swapped { hash: key, cache_path: symlink_manager::entry(key) },
            ),
        )
    } else {
        (files, ActionView::Swapped(ResultView::CacheMiss { hash: key, lockfile: name }))
    }
}

/// What a swap does, in one go.
pub open spec fn swap_outcome(files: Map<Place, Node>, mark: Seq<u8>) -> (
    Map<Place, Node>,
    ActionView,
) {
    match lockfile(files) {
        None => (files, ActionView::Swapped(ResultView::NoLockfile)),
        Some((name, bytes)) => {
            let key = hashing::content_key(bytes);
            let at = symlink_manager::dep_dir();
            let target = symlink_manager::cached_deps(key);
            match file_model::found(files, at, target) {
                Found::Link { to_target: true } => if file_model::followed(files, target) == Some(
                    Node::Directory,
                ) {
                    marked(
                        files,
                        mark,
                        key,
                        ActionView::Swapped(ResultView::AlreadyCurrent { hash: key }),
                    )
                } else {
                    (
                        files.remove(at),
                        ActionView::Swapped(
                            ResultView::CacheMiss { hash: key, lockfile: name },
                        ),
                    )
                },
                Found::Link { to_target: false } => linked(files.remove(at), mark, name, key),
                Found::Nothing => linked(files, mark, name, key),
                Found::Directory => linked(file_model::cleared(files, at), mark, name, key),
                Found::Other => (files, ActionView::Fail(Fault::RemoveTree)),
            }
        },
    }
}

/// A swap, driven action by action, does what [`swap_outcome`] says in one go.
pub proof fn law_swap_in_one_go(files: Map<Place, Node>, mark: Seq<u8>)
    requires
        file_model::well_formed(files),
    ensures
        swapped(files, mark) == swap_outcome(files, mark),
{
    lemma_probing(files, mark, Operation::Swap);
    let (begun, first) = symlink_manager::job_begins(Operation::Swap);
    if let Some((name, bytes)) = lockfile(files) {
        let job = JobView { step: symlink_manager::Step::Read, name, ..begun };
        let action = ActionView::ReadFile(symlink_manager::in_repo(name));
        let limit = choose|limit: nat|
            10 <= limit <= 14 && driven(files, mark, begun, first, 14) == #[trigger] driven(
                files,
                mark,
                job,
                action,
                limit,
            );
        lemma_lockfile(files, 0);
        lemma_swapping(files, mark, job, name, bytes, limit);
    }
}

/// A swap from the question whether the dependencies are cached on.
proof fn lemma_linking(files: Map<Place, Node>, mark: Seq<u8>, job: JobView, limit: nat)
    requires
        !files.contains_key(symlink_manager::dep_dir()),
        file_model::directory_at(files, repo_root()),
        job.operation == Operation::Swap,
        limit >= 4,
    ensures
        ({
            let (waiting, action) = symlink_manager::probes_cache(job);
            driven(files, mark, waiting, action, limit) == linked(
                files,
                mark,
                job.name,
                job.key(),
            )
        }),
{
    reveal_with_fuel(driven, 5);
    let at = symlink_manager::dep_dir();
    let key = job.key();
    let target = symlink_manager::cached_deps(key);
    let (waiting, action) = symlink_manager::probes_cache(job);
    lemma_dep_dir(files);
    lemma_mark(key);
    assert(waiting.key() == key);
    if file_model::followed(files, target) == Some(Node::Directory) {
        let job2 = JobView { step: symlink_manager::Step::Link, ..job };
        let action2 = ActionView::MakeLink { at, target };
        assert(driven(files, mark, waiting, action, limit) == driven(
            files,
            mark,
            job2,
            action2,
            (limit - 1) as nat,
        ));
        let files3 = files.insert(at, Node::Link(target));
        let job3 = JobView { step: symlink_manager::Step::MarkSwapped, ..job };
        let action3 = ActionView::MarkUsed(symlink_manager::entry(key));
        assert(job2.key() == key && job3.key() == key);
        assert(driven(files, mark, job2, action2, (limit - 1) as nat) == driven(
            files3,
            mark,
            job3,
            action3,
            (limit - 2) as nat,
        ));
    }
}

/// A swap from the reading of the lockfile on.
#[verifier::rlimit(40)]
proof fn lemma_swapping(
    files: Map<Place, Node>,
    mark: Seq<u8>,
    job: JobView,
    name: Seq<char>,
    bytes: Seq<u8>,
    limit: nat,
)
    requires
        file_model::well_formed(files),
        lockfile(files) == Some((name, bytes)),
        file_model::followed(files, symlink_manager::in_repo(name)) == Some(Node::File(bytes)),
        job.operation == Operation::Swap,
        job.step == symlink_manager::Step::Read,
        job.name == name,
        limit >= 10,
    ensures
        driven(
            files,
            mark,
            job,
            ActionView::ReadFile(symlink_manager::in_repo(name)),
            limit,
        ) == swap_outcome(files, mark),
{
    reveal_with_fuel(driven, 4);
    let key = hashing::content_key(bytes);
    let at = symlink_manager::dep_dir();
    let target = symlink_manager::cached_deps(key);
    lemma_repo_is_there(files);
    lemma_dep_dir(files);
    lemma_mark(key);
    let job2 = JobView {
        step: symlink_manager::Step::Inspect,
        hash: hashing::content_hash(bytes),
        ..job
    };
    assert(job2.key() == key);
    let read = ActionView::ReadFile(symlink_manager::in_repo(name));
    let inspect = ActionView::Inspect { at, target };
    assert(driven(files, mark, job, read, limit) == driven(
        files,
        mark,
        job2,
        inspect,
        (limit - 1) as nat,
    ));
    match file_model::found(files, at, target) {
        Found::Nothing => {
            lemma_linking(files, mark, job2, (limit - 2) as nat);
        },
        Found::Link { to_target: true } => {
            let job3 = JobView { step: symlink_manager::Step::ProbeCurrent, ..job2 };
            let probe = ActionView::IsDirectory(target);
            assert(job3.key() == key);
            assert(driven(files, mark, job2, inspect, (limit - 1) as nat) == driven(
                files,
                mark,
                job3,
                probe,
                (limit - 2) as nat,
            ));
            if file_model::followed(files, target) == Some(Node::Directory) {
                let job4 = JobView { step: symlink_manager::Step::MarkCurrent, ..job2 };
                assert(job4.key() == key);
                assert(driven(files, mark, job3, probe, (limit - 2) as nat) == driven(
                    files,
                    mark,
                    job4,
                    ActionView::MarkUsed(symlink_manager::entry(key)),
                    (limit - 3) as nat,
                ));
            } else {
                let job4 = JobView { step: symlink_manager::Step::RemoveDangling, ..job2 };
                assert(job4.key() == key);
                assert(driven(files, mark, job3, probe, (limit - 2) as nat) == driven(
                    files,
                    mark,
                    job4,
                    ActionView::RemoveLink(at),
                    (limit - 3) as nat,
                ));
            }
        },
        Found::Link { to_target: false } => {
            let job3 = JobView { step: symlink_manager::Step::RemoveLink, ..job2 };
            assert(job3.key() == key);
            assert(driven(files, mark, job2, inspect, (limit - 1) as nat) == driven(
                files,
                mark,
                job3,
                ActionView::RemoveLink(at),
                (limit - 2) as nat,
            ));
            lemma_linking(files.remove(at), mark, job3, (limit - 3) as nat);
        },
        _ => {
            let job3 = JobView { step: symlink_manager::Step::RemoveTree, ..job2 };
            assert(job3.key() == key);
            assert(driven(files, mark, job2, inspect, (limit - 1) as nat) == driven(
                files,
                mark,
                job3,
                ActionView::RemoveTree(at),
                (limit - 2) as nat,
            ));
            if file_model::directory_at(files, at) {
                lemma_linking(
                    file_model::cleared(files, at),
                    mark,
                    job3,
                    (limit - 3) as nat,
                );
            }
        },
    }
}

// ── What a stash does ────────────────────────────────────────────────────────────────────
/// The end of a stash once `node_modules` was moved: the metadata of the cache entry, and a link
/// to the moved dependencies.
pub open spec fn described(
    files: Map<Place, Node>,
    mark: Seq<u8>,
    name: Seq<char>,
    bytes: Seq<u8>,
) -> (Map<Place, Node>, ActionView) {
    let key = hashing::content_key(bytes);
    match file_model::written(
        files,
        symlink_manager::in_entry(key, ".lockfile_hash"@),
        vstd::utf8::encode_utf8(hashing::content_hash(bytes)),
    ) {
        None => (files, ActionView::Fail(Fault::WriteMetadata)),
        Some(files) => match file_model::written(
            files,
            symlink_manager::in_entry(key, ".lockfile_name"@),
            vstd::utf8::encode_utf8(name),
        ) {
            None => (files, ActionView::Fail(Fault::WriteMetadata)),
            Some(files) => match file_model::written(files, mark_path(key), mark) {
                None => (files, ActionView::Fail(Fault::MarkUsed)),
                Some(files) => match file_model::link_made(
                    files,
                    symlink_manager::dep_dir(),
                    symlink_manager::cached_deps(key),
                ) {
                    None => (files, ActionView::Fail(Fault::MakeLink)),
                    Some(files) => (files, ActionView::Stashed(key)),
                },
            },
        },
    }
}

/// What a stash does, in one go.
pub open spec fn stash_outcome(files: Map<Place, Node>, mark: Seq<u8>) -> (
    Map<Place, Node>,
    ActionView,
) {
    match lockfile(files) {
        None => (files, ActionView::Fail(Fault::NoLockfile)),
        Some((name, bytes)) => {
            let key = hashing::content_key(bytes);
            let at = symlink_manager::dep_dir();
            let target = symlink_manager::cached_deps(key);
            if !file_model::directory_at(files, at) {
                (files, ActionView::Fail(Fault::NothingToStash))
            } else if file_model::followed(files, target) is Some {
                (files, ActionView::Stashed(key))
            } else {
                let (created, made) = file_model::with_directories(
                    files,
                    symlink_manager::entry(key),
                );
                if !made {
                    (created, ActionView::Fail(Fault::CreateEntry))
                } else {
                    match file_model::renamed(created, at, target) {
                        None => (created, ActionView::Fail(Fault::Move)),
                        Some(files) => described(files, mark, name, bytes),
                    }
                }
            }
        },
    }
}

/// A stash, driven action by action, does what [`stash_outcome`] says in one go: it fails where
/// there is no lockfile or no real `node_modules`, changes nothing where the cache has the
/// dependencies already, and moves them there otherwise, or fails at what is in its way.
pub proof fn law_stash_in_one_go(files: Map<Place, Node>, mark: Seq<u8>)
    ensures
        stashed(files, mark) == stash_outcome(files, mark),
        stashed(files, mark).1 is Stashed || stashed(files, mark).1 is Fail,
{
    lemma_probing(files, mark, Operation::Stash);
    let (begun, first) = symlink_manager::job_begins(Operation::Stash);
    if let Some((name, bytes)) = lockfile(files) {
        let job = JobView { step: symlink_manager::Step::Read, name, ..begun };
        let action = ActionView::ReadFile(symlink_manager::in_repo(name));
        let limit = choose|limit: nat|
            10 <= limit <= 14 && driven(files, mark, begun, first, 14) == #[trigger] driven(
                files,
                mark,
                job,
                action,
                limit,
            );
        lemma_lockfile(files, 0);
        lemma_stashing(files, mark, job, name, bytes, limit);
    }
}

/// A stash from the reading of the lockfile on.
proof fn lemma_stashing(
    files: Map<Place, Node>,
    mark: Seq<u8>,
    job: JobView,
    name: Seq<char>,
    bytes: Seq<u8>,
    limit: nat,
)
    requires
        lockfile(files) == Some((name, bytes)),
        file_model::followed(files, symlink_manager::in_repo(name)) == Some(Node::File(bytes)),
        job.operation == Operation::Stash,
        job.step == symlink_manager::Step::Read,
        job.name == name,
        limit >= 10,
    ensures
        driven(
            files,
            mark,
            job,
            ActionView::ReadFile(symlink_manager::in_repo(name)),
            limit,
        ) == stash_outcome(files, mark),
{
    reveal_with_fuel(driven, 3);
    let key = hashing::content_key(bytes);
    let at = symlink_manager::dep_dir();
    let target = symlink_manager::cached_deps(key);
    let e = symlink_manager::entry(key);
    lemma_dep_dir(files);
    let job2 = JobView {
        step: symlink_manager::Step::Inspect,
        hash: hashing::content_hash(bytes),
        ..job
    };
    assert(job2.key() == key);
    let read = ActionView::ReadFile(symlink_manager::in_repo(name));
    let inspect = ActionView::Inspect { at, target };
    assert(driven(files, mark, job, read, limit) == driven(
        files,
        mark,
        job2,
        inspect,
        (limit - 1) as nat,
    ));
    if file_model::directory_at(files, at) {
        let job3 = JobView { step: symlink_manager::Step::ProbeStash, ..job2 };
        let exists_action = ActionView::Exists(target);
        assert(job3.key() == key);
        assert(driven(files, mark, job2, inspect, (limit - 1) as nat) == driven(
            files,
            mark,
            job3,
            exists_action,
            (limit - 2) as nat,
        ));
        if file_model::followed(files, target) is None {
            let job4 = JobView { step: symlink_manager::Step::CreateEntry, ..job2 };
            let create = ActionView::CreateDirectory(e);
            assert(job4.key() == key);
            assert(driven(files, mark, job3, exists_action, (limit - 2) as nat) == driven(
                files,
                mark,
                job4,
                create,
                (limit - 3) as nat,
            ));
            let (created, made) = file_model::with_directories(files, e);
            if made {
                let job5 = JobView { step: symlink_manager::Step::Move, ..job2 };
                let rename = ActionView::Rename { from: at, to: target };
                assert(job5.key() == key);
                assert(driven(files, mark, job4, create, (limit - 3) as nat) == driven(
                    created,
                    mark,
                    job5,
                    rename,
                    (limit - 4) as nat,
                ));
                if let Some(files6) = file_model::renamed(created, at, target) {
                    let job6 = JobView { step: symlink_manager::Step::WriteHash, ..job2 };
                    let write = ActionView::WriteText {
                        at: symlink_manager::in_entry(key, ".lockfile_hash"@),
                        contents: job6.hash,
                    };
                    assert(driven(created, mark, job5, rename, (limit - 4) as nat) == driven(
                        files6,
                        mark,
                        job6,
                        write,
                        (limit - 5) as nat,
                    ));
                    lemma_describing(files6, mark, job6, bytes, (limit - 5) as nat);
                }
            }
        }
    }
}

/// A stash from the writing of the metadata on.
#[verifier::rlimit(40)]
proof fn lemma_describing(
    files: Map<Place, Node>,
    mark: Seq<u8>,
    job: JobView,
    bytes: Seq<u8>,
    limit: nat,
)
    requires
        job.operation == Operation::Stash,
        job.step == symlink_manager::Step::WriteHash,
        job.hash == hashing::content_hash(bytes),
        limit >= 5,
    ensures
        driven(
            files,
            mark,
            job,
            ActionView::WriteText {
                at: symlink_manager::in_entry(hashing::content_key(bytes), ".lockfile_hash"@),
                contents: job.hash,
            },
            limit,
        ) == described(files, mark, job.name, bytes),
{
    reveal_with_fuel(driven, 3);
    let key = hashing::content_key(bytes);
    let at = symlink_manager::dep_dir();
    let target = symlink_manager::cached_deps(key);
    let e = symlink_manager::entry(key);
    let hash_at = symlink_manager::in_entry(key, ".lockfile_hash"@);
    let name_at = symlink_manager::in_entry(key, ".lockfile_name"@);
    let write = ActionView::WriteText { at: hash_at, contents: job.hash };
    lemma_mark(key);
    assert(job.key() == key);
    if let Some(files2) = file_model::written(
        files,
        hash_at,
        vstd::utf8::encode_utf8(job.hash),
    ) {
        let job2 = JobView { step: symlink_manager::Step::WriteName, ..job };
        let write2 = ActionView::WriteText { at: name_at, contents: job.name };
        assert(job2.key() == key);
        assert(driven(files, mark, job, write, limit) == driven(
            files2,
            mark,
            job2,
            write2,
            (limit - 1) as nat,
        ));
        if let Some(files3) = file_model::written(
            files2,
            name_at,
            vstd::utf8::encode_utf8(job.name),
        ) {
            let job3 = JobView { step: symlink_manager::Step::MarkStashed, ..job };
            let mark3 = ActionView::MarkUsed(e);
            assert(job3.key() == key);
            assert(driven(files2, mark, job2, write2, (limit - 1) as nat) == driven(
                files3,
                mark,
                job3,
                mark3,
                (limit - 2) as nat,
            ));
            if let Some(files4) = file_model::written(files3, mark_path(key), mark) {
                let job4 = JobView { step: symlink_manager::Step::LinkBack, ..job };
                let link = ActionView::MakeLink { at, target };
                assert(job4.key() == key);
                assert(driven(files3, mark, job3, mark3, (limit - 2) as nat) == driven(
                    files4,
                    mark,
                    job4,
                    link,
                    (limit - 3) as nat,
                ));
            }
        }
    }
}

// ── Every job keeps the files in order ───────────────────────────────────────────────────
proof fn lemma_write_keeps_order(files: Map<Place, Node>, p: Place, bytes: Seq<u8>)
    requires
        file_model::well_formed(files),
    ensures
        file_model::written(files, p, bytes) matches Some(after) ==> file_model::well_formed(after),
{
    if file_model::written(files, p, bytes) is Some {
        file_model::lemma_insert_keeps_order(
            files,
            file_model::place_of(files, p)->0,
            Node::File(bytes),
        );
    }
}

/// The files once nothing is in the place of `node_modules` but a link to the target.
pub open spec fn made_way(files: Map<Place, Node>, target: Place) -> Map<Place, Node> {
    let at = symlink_manager::dep_dir();
    match file_model::found(files, at, target) {
        Found::Link { to_target: false } => files.remove(at),
        Found::Directory => file_model::cleared(files, at),
        _ => files,
    }
}

/// Making way for a link to the target keeps the files in order, and everything that is not in
/// `node_modules`.
proof fn lemma_made_way(files: Map<Place, Node>, target: Place)
    requires
        file_model::well_formed(files),
    ensures
        ({
            let at = symlink_manager::dep_dir();
            let way = made_way(files, target);
            &&& file_model::well_formed(way)
            &&& file_model::directory_at(files, repo_root()) ==> file_model::directory_at(
                way,
                repo_root(),
            )
            &&& way.contains_key(at) ==> file_model::found(files, at, target) == (Found::Link {
                to_target: true,
            }) || file_model::found(files, at, target) == Found::Other
            &&& forall|p: Place|
                !file_model::within(p, at) ==> #[trigger] file_model::same_at(files, way, p)
        }),
{
    let at = symlink_manager::dep_dir();
    lemma_dep_dir(files);
    match file_model::found(files, at, target) {
        Found::Link { to_target: false } => file_model::lemma_remove_keeps_order(files, at),
        Found::Directory => file_model::lemma_clear_keeps_order(files, at),
        _ => {},
    }
}

/// Whatever a swap does, everything still lies in a directory afterwards.
pub proof fn law_swap_keeps_order(files: Map<Place, Node>, mark: Seq<u8>)
    requires
        file_model::well_formed(files),
    ensures
        file_model::well_formed(swapped(files, mark).0),
{
    law_swap_in_one_go(files, mark);
    if let Some(key) = wanted(files) {
        let at = symlink_manager::dep_dir();
        let target = symlink_manager::cached_deps(key);
        let way = made_way(files, target);
        lemma_repo_is_there(files);
        lemma_dep_dir(files);
        lemma_made_way(files, target);
        lemma_write_keeps_order(files, mark_path(key), mark);
        match file_model::found(files, at, target) {
            Found::Link { to_target: true } => {
                file_model::lemma_remove_keeps_order(files, at);
            },
            Found::Other => {},
            _ => {
                file_model::lemma_insert_keeps_order(way, at, Node::Link(target));
                lemma_write_keeps_order(
                    way.insert(at, Node::Link(target)),
                    mark_path(key),
                    mark,
                );
            },
        }
    }
}

/// Whatever a stash does, everything still lies in a directory afterwards, also where it fails
/// half-way.
pub proof fn law_stash_keeps_order(files: Map<Place, Node>, mark: Seq<u8>)
    requires
        file_model::well_formed(files),
    ensures
        file_model::well_formed(stashed(files, mark).0),
{
    law_stash_in_one_go(files, mark);
    if let Some((name, bytes)) = lockfile(files) {
        let key = hashing::content_key(bytes);
        let at = symlink_manager::dep_dir();
        let target = symlink_manager::cached_deps(key);
        let e = symlink_manager::entry(key);
        file_model::lemma_with_directories(files, e);
        let (created, made) = file_model::with_directories(files, e);
        if let Some(files3) = file_model::renamed(created, at, target) {
            lemma_dep_dir(created);
            let to = file_model::spot(created, target)->0;
            file_model::lemma_move_keeps_order(created, at, to);
            let hash_at = symlink_manager::in_entry(key, ".lockfile_hash"@);
            let hash = vstd::utf8::encode_utf8(hashing::content_hash(bytes));
            lemma_write_keeps_order(files3, hash_at, hash);
            if let Some(files4) = file_model::written(files3, hash_at, hash) {
                let name_at = symlink_manager::in_entry(key, ".lockfile_name"@);
                let name_bytes = vstd::utf8::encode_utf8(name);
                lemma_write_keeps_order(files4, name_at, name_bytes);
                if let Some(files5) = file_model::written(files4, name_at, name_bytes) {
                    lemma_write_keeps_order(files5, mark_path(key), mark);
                    if let Some(files6) = file_model::written(files5, mark_path(key), mark) {
                        lemma_dep_dir(files6);
                        if file_model::link_made(files6, at, target) is Some {
                            file_model::lemma_insert_keeps_order(files6, at, Node::Link(target));
                        }
                    }
                }
            }
        }
    }
}

// ── What a swap promises ─────────────────────────────────────────────────────────────────
/// Once a file was written, its path leads where it led, and to what was written.
proof fn lemma_written(files: Map<Place, Node>, p: Place, bytes: Seq<u8>)
    requires
        file_model::written(files, p, bytes) is Some,
    ensures
        ({
            let after = file_model::written(files, p, bytes)->0;
            &&& file_model::place_of(after, p) == file_model::place_of(files, p)
            &&& file_model::place_of(files, p) is Some
            &&& file_model::writable(after, file_model::place_of(files, p)->0)
            &&& file_model::followed(after, p) == Some(Node::File(bytes))
        }),
{
    let q = file_model::place_of(files, p)->0;
    file_model::lemma_reach_past_file(files, q, bytes, p, 40);
    if q.parts.len() > 0 {
        assert(file_model::parent(q).parts.len() < q.parts.len());
    }
}

/// Writing a file leaves what other paths lead to, where that is no file.
proof fn lemma_followed_past_write(files: Map<Place, Node>, p: Place, bytes: Seq<u8>, other: Place)
    requires
        file_model::written(files, p, bytes) is Some,
        file_model::followed(files, other) == Some(Node::Directory),
    ensures
        ({
            let after = file_model::written(files, p, bytes)->0;
            &&& file_model::followed(after, other) == Some(Node::Directory)
            &&& file_model::place_of(after, other) == file_model::place_of(files, other)
        }),
{
    let q = file_model::place_of(files, p)->0;
    file_model::lemma_reach_past_file(files, q, bytes, other, 40);
}

/// After a swap that finds the dependencies, `node_modules` is a link to them, they are a
/// directory, at the place where they were, and the path of the mark leads to the mark.
proof fn lemma_found(files: Map<Place, Node>, mark: Seq<u8>)
    requires
        file_model::well_formed(files),
        swapped(files, mark).1 matches ActionView::Swapped(r) && (r is Swapped || r
            is AlreadyCurrent),
    ensures
        wanted(files) matches Some(key) && {
            let after = swapped(files, mark).0;
            let at = symlink_manager::dep_dir();
            let target = symlink_manager::cached_deps(key);
            &&& file_model::well_formed(after)
            &&& after.contains_key(at) && after[at] == Node::Link(target)
            &&& file_model::followed(after, target) == Some(Node::Directory)
            &&& file_model::place_of(after, target) == file_model::place_of(
                made_way(files, target),
                target,
            )
            &&& file_model::place_of(after, mark_path(key)) matches Some(q)
                && file_model::writable(after, q)
            &&& file_model::followed(after, mark_path(key)) == Some(Node::File(mark))
        },
{
    law_swap_in_one_go(files, mark);
    law_swap_keeps_order(files, mark);
    let key = wanted(files)->0;
    let at = symlink_manager::dep_dir();
    let target = symlink_manager::cached_deps(key);
    let way = made_way(files, target);
    lemma_dep_dir(files);
    lemma_made_way(files, target);
    let there = way.insert(at, Node::Link(target));
    if file_model::found(files, at, target) == (Found::Link { to_target: true }) {
        assert(there =~= files);
    } else {
        file_model::lemma_reach_past_nothing(way, at, Node::Link(target), target, 40);
    }
    assert(file_model::followed(there, target) == Some(Node::Directory));
    lemma_written(there, mark_path(key), mark);
    lemma_followed_past_write(there, mark_path(key), mark, target);
    file_model::lemma_reach_no_link(there, mark_path(key), 40);
}

/// A swap changes nothing but `node_modules` in the repository and the mark of the cache entry
/// that the lockfile asks for.
pub proof fn law_swap_changes_little(files: Map<Place, Node>, mark: Seq<u8>, p: Place)
    requires
        file_model::well_formed(files),
        !file_model::within(p, symlink_manager::dep_dir()),
        wanted(files) matches Some(key) ==> file_model::place_of(
            swapped(files, mark).0,
            mark_path(key),
        ) != Some(p),
    ensures
        file_model::same_at(files, swapped(files, mark).0, p),
{
    law_swap_in_one_go(files, mark);
    if let Some(key) = wanted(files) {
        let at = symlink_manager::dep_dir();
        let target = symlink_manager::cached_deps(key);
        let way = made_way(files, target);
        let there = way.insert(at, Node::Link(target));
        lemma_dep_dir(files);
        lemma_made_way(files, target);
        assert(file_model::same_at(files, way, p));
        if file_model::found(files, at, target) == (Found::Link { to_target: true }) {
            assert(there =~= files);
        }
        if file_model::written(there, mark_path(key), mark) is Some {
            lemma_written(there, mark_path(key), mark);
        }
    }
}

/// A swap never changes a dependency tree in the cache: what was removed from the repository
/// is not put there, and what is there is not removed. The tree may be reached through links, as
/// long as they do not lead into `node_modules` in the repository, and the mark does not lead
/// into the tree.
pub proof fn law_swap_keeps_cached_trees(
    files: Map<Place, Node>,
    mark: Seq<u8>,
    key: Seq<char>,
    tree: Place,
    p: Place,
)
    requires
        file_model::well_formed(files),
        file_model::place_of(files, symlink_manager::cached_deps(key)) == Some(tree),
        !file_model::within(tree, symlink_manager::dep_dir()),
        !file_model::within(symlink_manager::dep_dir(), tree),
        wanted(files) matches Some(key) ==> (file_model::place_of(
            swapped(files, mark).0,
            mark_path(key),
        ) matches Some(q) ==> !file_model::within(q, tree)),
        file_model::within(p, tree),
    ensures
        file_model::same_at(files, swapped(files, mark).0, p),
{
    if file_model::within(p, symlink_manager::dep_dir()) {
        file_model::lemma_within_both(p, tree, symlink_manager::dep_dir());
    }
    law_swap_changes_little(files, mark, p);
}

/// After a miss there is nothing where `node_modules` was: a tree of unknown origin does not
/// stay.
pub proof fn law_miss_leaves_no_dependencies(files: Map<Place, Node>, mark: Seq<u8>, p: Place)
    requires
        file_model::well_formed(files),
        swapped(files, mark).1 matches ActionView::Swapped(ResultView::CacheMiss { .. }),
        file_model::within(p, symlink_manager::dep_dir()),
    ensures
        !swapped(files, mark).0.contains_key(p),
{
    law_swap_in_one_go(files, mark);
    law_swap_keeps_order(files, mark);
    let at = symlink_manager::dep_dir();
    lemma_dep_dir(files);
    assert(!swapped(files, mark).0.contains_key(at));
    file_model::lemma_nothing_below(swapped(files, mark).0, at, p);
}

/// A link to the right cache entry whose dependencies are gone is a miss: the link is removed,
/// and nothing else changes.
pub proof fn law_dangling_link_is_a_miss(
    files: Map<Place, Node>,
    mark: Seq<u8>,
    name: Seq<char>,
    bytes: Seq<u8>,
)
    requires
        file_model::well_formed(files),
        lockfile(files) == Some((name, bytes)),
        files.contains_key(symlink_manager::dep_dir()),
        files[symlink_manager::dep_dir()] == Node::Link(
            symlink_manager::cached_deps(hashing::content_key(bytes)),
        ),
        file_model::followed(files, symlink_manager::cached_deps(hashing::content_key(bytes)))
            != Some(Node::Directory),
    ensures
        swapped(files, mark) == (
            files.remove(symlink_manager::dep_dir()),
            ActionView::Swapped(
                ResultView::CacheMiss { hash: hashing::content_key(bytes), lockfile: name },
            ),
        ),
{
    law_swap_in_one_go(files, mark);
    lemma_dep_dir(files);
}

/// The cache entry that the outcome of a swap speaks of.
pub open spec fn entry_named(action: ActionView) -> Option<Seq<char>> {
    match action {
        ActionView::Swapped(ResultView::Swapped { hash, .. }) => Some(hash),
        ActionView::Swapped(ResultView::CacheMiss { hash, .. }) => Some(hash),
        ActionView::Swapped(ResultView::AlreadyCurrent { hash }) => Some(hash),
        _ => None,
    }
}

/// The contents of the lockfile alone decide the cache entry, so branches with the same
/// lockfile share one.
pub proof fn law_contents_decide_the_entry(
    files: Map<Place, Node>,
    name: Seq<char>,
    bytes: Seq<u8>,
    mark: Seq<u8>,
)
    requires
        file_model::well_formed(files),
        lockfile(files) == Some((name, bytes)),
    ensures
        swapped(files, mark).1 is Fail || entry_named(swapped(files, mark).1) == Some(
            hashing::content_key(bytes),
        ),
{
    law_swap_in_one_go(files, mark);
}

/// A swap that finds the dependencies marks their cache entry as used.
pub proof fn law_swap_marks_the_entry(files: Map<Place, Node>, mark: Seq<u8>)
    requires
        file_model::well_formed(files),
        swapped(files, mark).1 matches ActionView::Swapped(r) && (r is Swapped || r
            is AlreadyCurrent),
    ensures
        wanted(files) matches Some(key) && file_model::followed(
            swapped(files, mark).0,
            mark_path(key),
        ) == Some(Node::File(mark)),
{
    lemma_found(files, mark);
}

/// The cache entry that a swap put in place is in use: `node_modules` links into it, so the
/// garbage collector keeps it, whatever its age.
pub proof fn law_entry_in_place_is_not_collected(
    files: Map<Place, Node>,
    mark: Seq<u8>,
    last_used: Option<Timestamp>,
    cutoff: Timestamp,
    dry_run: bool,
)
    requires
        file_model::well_formed(files),
        swapped(files, mark).1 matches ActionView::Swapped(r) && (r is Swapped || r
            is AlreadyCurrent),
    ensures
        wanted(files) matches Some(key) && {
            let in_use = file_model::found(
                swapped(files, mark).0,
                symlink_manager::dep_dir(),
                symlink_manager::cached_deps(key),
            ) == (Found::Link { to_target: true });
            &&& in_use
            &&& !(gc::entry_step(last_used, in_use, cutoff, dry_run) is Evict)
        },
{
    lemma_found(files, mark);
    lemma_dep_dir(swapped(files, mark).0);
}

/// Whether nothing is in the place of the mark of a cache entry, or something that leads to a
/// file.
pub open spec fn mark_has_room(files: Map<Place, Node>, key: Seq<char>) -> bool {
    file_model::spot(files, mark_path(key)) matches Some(q) ==> {
        ||| !files.contains_key(q)
        ||| file_model::followed(files, mark_path(key)) matches Some(Node::File(_))
    }
}

/// Where dependencies are found in a cache entry, the entry is a directory.
proof fn lemma_entry_is_there(files: Map<Place, Node>, key: Seq<char>)
    requires
        file_model::well_formed(files),
        file_model::followed(files, symlink_manager::cached_deps(key)) is Some,
    ensures
        file_model::followed(files, symlink_manager::entry(key)) == Some(Node::Directory),
{
    let target = symlink_manager::cached_deps(key);
    let e = symlink_manager::entry(key);
    assert(file_model::parent(target).parts =~= e.parts);
    assert(target.parts.last() == "node_modules"@);
    let d = file_model::place_of(files, e)->0;
    file_model::lemma_within_child(d, "node_modules"@);
    assert(files.contains_key(file_model::child(d, "node_modules"@)));
}

/// Where dependencies are found in a cache entry, its mark can be written if it has room.
proof fn lemma_mark_can_be_written(files: Map<Place, Node>, key: Seq<char>, mark: Seq<u8>)
    requires
        file_model::well_formed(files),
        file_model::followed(files, symlink_manager::cached_deps(key)) is Some,
        mark_has_room(files, key),
    ensures
        file_model::written(files, mark_path(key), mark) is Some,
{
    let e = symlink_manager::entry(key);
    let m = mark_path(key);
    lemma_entry_is_there(files, key);
    assert(file_model::parent(m).parts =~= e.parts);
    assert(m.parts.last() == ".last_used"@);
    let d = file_model::place_of(files, e)->0;
    let q = file_model::child(d, ".last_used"@);
    file_model::lemma_within_child(d, ".last_used"@);
    assert(file_model::spot(files, m) == Some(q));
    if files.contains_key(q) {
        let r = file_model::place_of(files, m)->0;
        if r.parts.len() > 0 {
            assert(file_model::directory_at(files, file_model::parent(r)));
        }
    }
}

/// The three files of metadata are not called like the dependencies.
proof fn lemma_metadata_names()
    ensures
        ".lockfile_hash"@ != "node_modules"@,
        ".lockfile_name"@ != "node_modules"@,
        ".last_used"@ != "node_modules"@,
{
    reveal_strlit(".lockfile_hash");
    reveal_strlit(".lockfile_name");
    reveal_strlit(".last_used");
    reveal_strlit("node_modules");
    assert(".lockfile_hash"@.len() == 14);
    assert(".lockfile_name"@.len() == 14);
    assert(".last_used"@.len() == 10);
    assert("node_modules"@.len() == 12);
}

/// What is found at the end of a path is still found there once something is put where nothing
/// was.
proof fn lemma_followed_past_nothing(files: Map<Place, Node>, at: Place, node: Node, p: Place)
    requires
        file_model::well_formed(files),
        !files.contains_key(at),
        file_model::followed(files, p) is Some,
    ensures
        file_model::followed(files.insert(at, node), p) == file_model::followed(files, p),
        file_model::place_of(files.insert(at, node), p) == file_model::place_of(files, p),
{
    file_model::lemma_reach_past_nothing(files, at, node, p, 40);
}

/// A swap fails only where something else than a directory or a link is in the place of
/// `node_modules`, or something in the place of the mark that leads to no file.
pub proof fn law_swap_succeeds(files: Map<Place, Node>, mark: Seq<u8>)
    requires
        file_model::well_formed(files),
        wanted(files) matches Some(key) ==> {
            let target = symlink_manager::cached_deps(key);
            &&& file_model::found(files, symlink_manager::dep_dir(), target) != Found::Other
            &&& mark_has_room(made_way(files, target), key)
        },
    ensures
        swapped(files, mark).1 is Swapped,
{
    law_swap_in_one_go(files, mark);
    if let Some(key) = wanted(files) {
        let at = symlink_manager::dep_dir();
        let target = symlink_manager::cached_deps(key);
        let way = made_way(files, target);
        lemma_made_way(files, target);
        if file_model::followed(way, target) == Some(Node::Directory) {
            lemma_mark_can_be_written(way, key, mark);
            if !way.contains_key(at) {
                let there = way.insert(at, Node::Link(target));
                let m = mark_path(key);
                let e = symlink_manager::entry(key);
                lemma_repo_is_there(files);
                lemma_dep_dir(way);
                lemma_metadata_names();
                file_model::lemma_insert_keeps_order(way, at, Node::Link(target));
                lemma_followed_past_nothing(way, at, Node::Link(target), target);
                lemma_entry_is_there(way, key);
                lemma_followed_past_nothing(way, at, Node::Link(target), e);
                assert(file_model::parent(m).parts =~= e.parts);
                let q = file_model::spot(way, m)->0;
                assert(q.parts.last() == ".last_used"@ && at.parts.last() == "node_modules"@);
                if way.contains_key(q) {
                    lemma_followed_past_nothing(way, at, Node::Link(target), m);
                }
                lemma_mark_can_be_written(there, key, mark);
            }
        }
    }
}

// ── What a stash promises ────────────────────────────────────────────────────────────────
/// Whether a stash succeeds and moves the dependencies, as the cache does not have them yet.
pub open spec fn stash_moves(files: Map<Place, Node>, mark: Seq<u8>) -> bool {
    &&& stashed(files, mark).1 is Stashed
    &&& wanted(files) matches Some(key) && file_model::followed(
        files,
        symlink_manager::cached_deps(key),
    ) is None
}

/// Whether one of the three files of metadata of a cache entry is at a place.
pub open spec fn metadata_at(files: Map<Place, Node>, key: Seq<char>, p: Place) -> bool {
    ||| file_model::place_of(files, symlink_manager::in_entry(key, ".lockfile_hash"@)) == Some(p)
    ||| file_model::place_of(files, symlink_manager::in_entry(key, ".lockfile_name"@)) == Some(p)
    ||| file_model::place_of(files, mark_path(key)) == Some(p)
}

/// The files of a stash once the cache entry is there.
spec fn entry_made(files: Map<Place, Node>) -> Map<Place, Node> {
    file_model::with_directories(files, symlink_manager::entry(wanted(files)->0)).0
}

/// Where a stash moves the dependencies to.
spec fn new_home(files: Map<Place, Node>) -> Place {
    file_model::spot(entry_made(files), symlink_manager::cached_deps(wanted(files)->0))->0
}

/// The files of a stash once the dependencies were moved.
spec fn moved_in(files: Map<Place, Node>) -> Map<Place, Node> {
    file_model::moved(entry_made(files), symlink_manager::dep_dir(), new_home(files))
}

/// What the files are once a stash created the cache entry and can move the dependencies.
#[verifier::rlimit(40)]
proof fn lemma_entry_made(files: Map<Place, Node>, mark: Seq<u8>)
    requires
        file_model::well_formed(files),
        stash_moves(files, mark),
    ensures
        ({
            let key = wanted(files)->0;
            let at = symlink_manager::dep_dir();
            let e = symlink_manager::entry(key);
            let to = new_home(files);
            let created = entry_made(files);
            &&& file_model::directory_at(files, at)
            &&& file_model::well_formed(created)
            &&& file_model::followed(created, e) == Some(Node::Directory)
            &&& to == file_model::child(file_model::place_of(created, e)->0, "node_modules"@)
            &&& file_model::vacant(created, to)
            &&& !file_model::within(to, at)
            &&& !file_model::within(at, to)
            &&& file_model::renamed(created, at, symlink_manager::cached_deps(key)) == Some(
                moved_in(files),
            )
            &&& forall|p: Place| #[trigger]
                created.contains_key(p) && !files.contains_key(p) ==> file_model::within(to, p)
                    && !file_model::within(p, at)
            &&& forall|p: Place| #[trigger]
                files.contains_key(p) ==> created.contains_key(p) && created[p] == files[p]
        }),
{
    law_stash_in_one_go(files, mark);
    let key = wanted(files)->0;
    let at = symlink_manager::dep_dir();
    let e = symlink_manager::entry(key);
    let target = symlink_manager::cached_deps(key);
    let created = entry_made(files);
    let to = new_home(files);
    file_model::lemma_with_directories(files, e);
    lemma_dep_dir(created);
    assert(file_model::parent(target).parts =~= e.parts);
    assert(target.parts.last() == "node_modules"@);
    let d = file_model::place_of(created, e)->0;
    assert(to == file_model::child(d, "node_modules"@));
    file_model::lemma_within_child(d, "node_modules"@);
    if file_model::within(at, to) {
        file_model::lemma_nothing_below(created, to, at);
    }
    // The new directories are above the moved tree, and so not in the old one.
    assert forall|p: Place| #[trigger]
        created.contains_key(p) && !files.contains_key(p) implies file_model::within(to, p)
        && !file_model::within(p, at) by {
        file_model::lemma_within_step(to, d, p);
        if file_model::within(p, at) {
            file_model::lemma_within_step(to, p, at);
        }
    }
}

/// Once a directory was moved, it is in its new place, and nothing is left in the old one.
proof fn lemma_moved_away(files: Map<Place, Node>, from: Place, to: Place)
    requires
        file_model::directory_at(files, from),
        !file_model::within(to, from),
        !file_model::within(from, to),
    ensures
        file_model::directory_at(file_model::moved(files, from, to), to),
        forall|p: Place|
            file_model::within(p, from) ==> !#[trigger] file_model::moved(
                files,
                from,
                to,
            ).contains_key(p),
{
    file_model::lemma_within_child(to, Seq::empty());
    assert(file_model::origin(to, from, to).parts =~= from.parts);
    assert forall|p: Place| file_model::within(p, from) implies !#[trigger] file_model::moved(
        files,
        from,
        to,
    ).contains_key(p) by {
        if file_model::within(p, to) {
            file_model::lemma_within_both(p, to, from);
        }
    }
}

/// What the files are once a stash moved the dependencies and could go on: the path of the
/// cached dependencies leads to them.
proof fn lemma_moved_in(files: Map<Place, Node>, mark: Seq<u8>)
    requires
        file_model::well_formed(files),
        stash_moves(files, mark),
    ensures
        ({
            let key = wanted(files)->0;
            let to = new_home(files);
            let after = moved_in(files);
            &&& file_model::well_formed(after)
            &&& file_model::directory_at(after, to)
            &&& file_model::place_of(after, symlink_manager::cached_deps(key)) == Some(to)
            &&& forall|p: Place|
                file_model::within(p, symlink_manager::dep_dir()) ==> !#[trigger] after.contains_key(
                    p,
                )
        }),
{
    lemma_entry_made(files, mark);
    let (name, bytes) = lockfile(files)->0;
    let key = wanted(files)->0;
    let at = symlink_manager::dep_dir();
    let e = symlink_manager::entry(key);
    let target = symlink_manager::cached_deps(key);
    let created = entry_made(files);
    let to = new_home(files);
    let after = moved_in(files);
    file_model::lemma_move_keeps_order(created, at, to);
    lemma_moved_away(created, at, to);
    // The path to the entry still leads to it, as the metadata could be written.
    file_model::lemma_reach_after_move(created, at, to, e, 40);
    let hash_at = symlink_manager::in_entry(key, ".lockfile_hash"@);
    assert(file_model::parent(hash_at).parts =~= e.parts);
    assert(hash_at.parts.last() == ".lockfile_hash"@);
    assert(file_model::written(
        after,
        hash_at,
        vstd::utf8::encode_utf8(hashing::content_hash(bytes)),
    ) is Some) by {
        law_stash_in_one_go(files, mark);
    }
    let y = file_model::place_of(after, e)->0;
    if file_model::within(y, at) {
        let q = file_model::child(y, ".lockfile_hash"@);
        file_model::lemma_within_child(y, ".lockfile_hash"@);
        file_model::lemma_within_step(q, y, at);
        assert(!after.contains_key(q) && !after.contains_key(y));
        assert(file_model::place_of(after, hash_at) == Some(q));
    }
    assert(file_model::parent(target).parts =~= e.parts);
    assert(target.parts.last() == "node_modules"@);
}

/// Whether a cache entry records the full hash and the name of a lockfile with these contents,
/// each as far as its path does not lead to another file of metadata.
pub open spec fn recorded(files: Map<Place, Node>, name: Seq<char>, bytes: Seq<u8>) -> bool {
    let key = hashing::content_key(bytes);
    let hash_at = symlink_manager::in_entry(key, ".lockfile_hash"@);
    let name_at = symlink_manager::in_entry(key, ".lockfile_name"@);
    let hash_place = file_model::place_of(files, hash_at);
    let name_place = file_model::place_of(files, name_at);
    let mark_place = file_model::place_of(files, mark_path(key));
    &&& hash_place != name_place && hash_place != mark_place ==> file_model::followed(
        files,
        hash_at,
    ) == Some(Node::File(vstd::utf8::encode_utf8(hashing::content_hash(bytes))))
    &&& name_place != mark_place ==> file_model::followed(files, name_at) == Some(
        Node::File(vstd::utf8::encode_utf8(name)),
    )
}

/// What the files are after a stash that moved the dependencies.
proof fn lemma_stashed(files: Map<Place, Node>, mark: Seq<u8>)
    requires
        file_model::well_formed(files),
        stash_moves(files, mark),
    ensures
        ({
            let key = wanted(files)->0;
            let at = symlink_manager::dep_dir();
            let target = symlink_manager::cached_deps(key);
            let to = new_home(files);
            let after = stashed(files, mark).0;
            &&& file_model::well_formed(after)
            &&& after.contains_key(at) && after[at] == Node::Link(target)
            &&& file_model::place_of(after, target) == Some(to)
            &&& file_model::directory_at(after, to)
            &&& file_model::followed(after, mark_path(key)) == Some(Node::File(mark))
            &&& file_model::place_of(after, mark_path(key)) matches Some(q)
                && file_model::writable(after, q)
            &&& lockfile(files) matches Some((name, bytes)) && recorded(after, name, bytes)
            &&& forall|p: Place|
                p != at && !metadata_at(after, key, p) ==> #[trigger] file_model::same_at(
                    moved_in(files),
                    after,
                    p,
                )
        }),
{
    law_stash_in_one_go(files, mark);
    law_stash_keeps_order(files, mark);
    lemma_entry_made(files, mark);
    lemma_moved_in(files, mark);
    let (name, bytes) = lockfile(files)->0;
    let key = wanted(files)->0;
    let at = symlink_manager::dep_dir();
    let target = symlink_manager::cached_deps(key);
    let to = new_home(files);
    let after = stashed(files, mark).0;
    let link = Node::Link(target);
    let hash_at = symlink_manager::in_entry(key, ".lockfile_hash"@);
    let name_at = symlink_manager::in_entry(key, ".lockfile_name"@);
    let mark_at = mark_path(key);
    let hash_bytes = vstd::utf8::encode_utf8(hashing::content_hash(bytes));
    let name_bytes = vstd::utf8::encode_utf8(name);
    let files3 = moved_in(files);
    let files4 = file_model::written(files3, hash_at, hash_bytes)->0;
    let files5 = file_model::written(files4, name_at, name_bytes)->0;
    let files6 = file_model::written(files5, mark_at, mark)->0;
    lemma_write_keeps_order(files3, hash_at, hash_bytes);
    lemma_write_keeps_order(files4, name_at, name_bytes);
    lemma_write_keeps_order(files5, mark_at, mark);
    lemma_written(files3, hash_at, hash_bytes);
    lemma_written(files4, name_at, name_bytes);
    lemma_written(files5, mark_at, mark);
    let q1 = file_model::place_of(files3, hash_at)->0;
    let q2 = file_model::place_of(files4, name_at)->0;
    let q3 = file_model::place_of(files5, mark_at)->0;
    lemma_dep_dir(files6);
    assert(after == files6.insert(at, link) && !files6.contains_key(at));
    // Where the dependencies are.
    lemma_followed_past_write(files3, hash_at, hash_bytes, target);
    lemma_followed_past_write(files4, name_at, name_bytes, target);
    lemma_followed_past_write(files5, mark_at, mark, target);
    lemma_followed_past_nothing(files6, at, link, target);
    // Where the metadata is.
    file_model::lemma_reach_past_file(files4, q2, name_bytes, hash_at, 40);
    file_model::lemma_reach_past_file(files5, q3, mark, hash_at, 40);
    file_model::lemma_reach_past_file(files5, q3, mark, name_at, 40);
    lemma_followed_past_nothing(files6, at, link, hash_at);
    lemma_followed_past_nothing(files6, at, link, name_at);
    lemma_followed_past_nothing(files6, at, link, mark_at);
    assert(metadata_at(after, key, q1) && metadata_at(after, key, q2) && metadata_at(
        after,
        key,
        q3,
    ));
    if q3.parts.len() > 0 {
        assert(file_model::directory_at(after, file_model::parent(q3)));
    }
    assert(file_model::place_of(after, hash_at) == Some(q1));
    assert(file_model::place_of(after, name_at) == Some(q2));
    assert(q1 != at && q2 != at);
    assert(recorded(after, name, bytes));
}

/// Whether a stash under this key finds nothing in its way: nothing where the dependencies go,
/// directories where directories go, and files where the metadata goes.
pub open spec fn stashable(files: Map<Place, Node>, key: Seq<char>) -> bool {
    &&& !files.contains_key(symlink_manager::cached_deps(key))
    &&& file_model::clear_way(files, symlink_manager::entry(key))
    &&& file_model::file_or_nothing(files, symlink_manager::in_entry(key, ".lockfile_hash"@))
    &&& file_model::file_or_nothing(files, symlink_manager::in_entry(key, ".lockfile_name"@))
    &&& file_model::file_or_nothing(files, mark_path(key))
}

/// What is in a cache entry beside the dependencies can be written where it can be in a
/// directory.
proof fn lemma_beside(files: Map<Place, Node>, key: Seq<char>, name: Seq<char>, bytes: Seq<u8>)
    requires
        file_model::well_formed(files),
        file_model::directory_at(files, symlink_manager::entry(key)),
        file_model::file_or_nothing(files, symlink_manager::in_entry(key, name)),
    ensures
        file_model::written(files, symlink_manager::in_entry(key, name), bytes) == Some(
            files.insert(symlink_manager::in_entry(key, name), Node::File(bytes)),
        ),
{
    let e = symlink_manager::entry(key);
    let p = symlink_manager::in_entry(key, name);
    assert(file_model::parent(p).parts =~= e.parts);
    assert(file_model::child(e, name).parts =~= p.parts);
    file_model::lemma_reach_plain(files, e, 40);
}

/// A stash that finds nothing in its way moves the dependencies, to the place that the path of
/// the cached dependencies spells.
pub proof fn law_stash_succeeds(files: Map<Place, Node>, mark: Seq<u8>, key: Seq<char>)
    requires
        file_model::well_formed(files),
        wanted(files) == Some(key),
        file_model::directory_at(files, symlink_manager::dep_dir()),
        stashable(files, key),
    ensures
        stash_moves(files, mark),
        stashed(files, mark).1 == ActionView::Stashed(key),
        file_model::place_of(stashed(files, mark).0, symlink_manager::cached_deps(key)) == Some(
            symlink_manager::cached_deps(key),
        ),
{
    law_stash_in_one_go(files, mark);
    let (name, bytes) = lockfile(files)->0;
    let at = symlink_manager::dep_dir();
    let target = symlink_manager::cached_deps(key);
    let e = symlink_manager::entry(key);
    let hash_at = symlink_manager::in_entry(key, ".lockfile_hash"@);
    let name_at = symlink_manager::in_entry(key, ".lockfile_name"@);
    let mark_at = mark_path(key);
    let hash_bytes = vstd::utf8::encode_utf8(hashing::content_hash(bytes));
    let name_bytes = vstd::utf8::encode_utf8(name);
    let (created, made) = file_model::with_directories(files, e);
    file_model::lemma_clear_way(files, e);
    file_model::lemma_with_directories(files, e);
    file_model::lemma_reach_plain(created, e, 40);
    lemma_dep_dir(created);
    assert(file_model::parent(target).parts =~= e.parts);
    assert(file_model::child(e, "node_modules"@).parts =~= target.parts);
    assert(file_model::place_of(files, target) == Some(target));
    assert(!file_model::within(e, target) && !file_model::within(e, at));
    assert(!created.contains_key(target));
    assert(file_model::renamed(created, at, target) == Some(
        file_model::moved(created, at, target),
    ));
    let files3 = file_model::moved(created, at, target);
    file_model::lemma_move_keeps_order(created, at, target);
    assert(file_model::directory_at(files3, e));
    // The metadata lies beside the dependencies.
    lemma_metadata_names();
    assert forall|n: Seq<char>|
        n != "node_modules"@ && file_model::file_or_nothing(
            files,
            symlink_manager::in_entry(key, n),
        ) implies file_model::file_or_nothing(
        files3,
        #[trigger] symlink_manager::in_entry(key, n),
    ) by {
        let p = symlink_manager::in_entry(key, n);
        assert(p.parts.take(3)[2] == n && target.parts[2] == "node_modules"@);
        assert(!file_model::within(p, target) && !file_model::within(e, p));
    }
    assert(hash_at.parts.len() == 3 && name_at.parts.len() == 3 && e.parts.len() == 2);
    lemma_beside(files3, key, ".lockfile_hash"@, hash_bytes);
    let files4 = files3.insert(hash_at, Node::File(hash_bytes));
    lemma_write_keeps_order(files3, hash_at, hash_bytes);
    lemma_beside(files4, key, ".lockfile_name"@, name_bytes);
    let files5 = files4.insert(name_at, Node::File(name_bytes));
    lemma_write_keeps_order(files4, name_at, name_bytes);
    lemma_beside(files5, key, ".last_used"@, mark);
    let files6 = files5.insert(mark_at, Node::File(mark));
    lemma_dep_dir(files6);
    assert(file_model::directory_at(files, repo_root()));
    assert(!files3.contains_key(at) && file_model::directory_at(files3, repo_root()));
    assert(stash_moves(files, mark));
    lemma_stashed(files, mark);
    assert(new_home(files) == target);
}

/// A stash that moves the dependencies moves the whole tree: what lay below `node_modules` in
/// the repository lies below `node_modules` in the cache entry, and nothing else does, up to
/// metadata that leads into the tree.
pub proof fn law_stash_moves_the_tree(files: Map<Place, Node>, mark: Seq<u8>, p: Place)
    requires
        file_model::well_formed(files),
        stash_moves(files, mark),
    ensures
        ({
            let key = wanted(files)->0;
            let after = stashed(files, mark).0;
            file_model::place_of(after, symlink_manager::cached_deps(key)) matches Some(to) && {
                let from = file_model::origin(p, symlink_manager::dep_dir(), to);
                file_model::within(p, to) && !metadata_at(after, key, p) ==> {
                    &&& after.contains_key(p) == files.contains_key(from)
                    &&& after.contains_key(p) ==> after[p] == files[from]
                }
            }
        }),
{
    lemma_entry_made(files, mark);
    lemma_stashed(files, mark);
    let key = wanted(files)->0;
    let at = symlink_manager::dep_dir();
    let to = new_home(files);
    let after = stashed(files, mark).0;
    let from = file_model::origin(p, at, to);
    if file_model::within(p, to) && !metadata_at(after, key, p) {
        assert(file_model::same_at(moved_in(files), after, p));
        assert(from.parts.take(1) =~= at.parts);
        assert(file_model::within(from, at));
    }
}

/// Whether a stash that leads to these files leaves a place as it was: it is not in
/// `node_modules`, neither in the repository nor in the cache entry, it holds no metadata of
/// the entry, and there was something at it or it is not above the entry.
pub open spec fn untouched(
    files: Map<Place, Node>,
    after: Map<Place, Node>,
    key: Seq<char>,
    p: Place,
) -> bool {
    &&& !file_model::within(p, symlink_manager::dep_dir())
    &&& !metadata_at(after, key, p)
    &&& file_model::place_of(after, symlink_manager::cached_deps(key)) matches Some(to) ==> {
        &&& !file_model::within(p, to)
        &&& files.contains_key(p) || !file_model::within(to, p)
    }
}

/// A stash that succeeds changes nothing but `node_modules` in the repository and in the cache
/// entry, the metadata of the entry, and the missing directories that they lie in.
pub proof fn law_stash_changes_little(files: Map<Place, Node>, mark: Seq<u8>, p: Place)
    requires
        file_model::well_formed(files),
        stashed(files, mark).1 is Stashed,
        wanted(files) matches Some(key) && untouched(files, stashed(files, mark).0, key, p),
    ensures
        file_model::same_at(files, stashed(files, mark).0, p),
{
    law_stash_in_one_go(files, mark);
    if stash_moves(files, mark) {
        lemma_entry_made(files, mark);
        lemma_stashed(files, mark);
        lemma_dep_dir(files);
        assert(file_model::same_at(moved_in(files), stashed(files, mark).0, p));
    }
}

// ── The lockfile stays ───────────────────────────────────────────────────────────────────
/// Whether the paths of all lockfiles lead over the given places only.
pub open spec fn lockfiles_lead_over(
    files: Map<Place, Node>,
    places: spec_fn(Place) -> bool,
) -> bool {
    forall|i: int|
        0 <= i < symlink_manager::lockfiles().len() ==> file_model::leads_over(
            files,
            places,
            symlink_manager::in_repo(#[trigger] symlink_manager::lockfiles()[i]),
            40,
        )
}

/// Where two states of the files agree on all that the lockfiles lead over, they have the same
/// lockfile.
proof fn lemma_same_lockfile(
    a: Map<Place, Node>,
    b: Map<Place, Node>,
    places: spec_fn(Place) -> bool,
    i: int,
)
    requires
        lockfiles_lead_over(a, places),
        forall|q: Place| #[trigger] places(q) ==> file_model::same_at(a, b, q),
    ensures
        lockfile_from(a, i) == lockfile_from(b, i),
    decreases symlink_manager::lockfiles().len() - i,
{
    if 0 <= i < symlink_manager::lockfiles().len() {
        let p = symlink_manager::in_repo(symlink_manager::lockfiles()[i]);
        assert(file_model::leads_over(a, places, p, 40));
        file_model::lemma_leads_over(a, b, places, p, 40);
        lemma_same_lockfile(a, b, places, i + 1);
    }
}

/// A swap does not change which lockfile there is, nor its contents, where no lockfile leads
/// over `node_modules` or the mark of the cache entry.
pub proof fn law_swap_keeps_lockfile(files: Map<Place, Node>, mark: Seq<u8>)
    requires
        file_model::well_formed(files),
        wanted(files) matches Some(key) ==> lockfiles_lead_over(
            files,
            |q: Place|
                !file_model::within(q, symlink_manager::dep_dir()) && file_model::place_of(
                    swapped(files, mark).0,
                    mark_path(key),
                ) != Some(q),
        ),
    ensures
        lockfile(swapped(files, mark).0) == lockfile(files),
{
    let after = swapped(files, mark).0;
    law_swap_in_one_go(files, mark);
    if let Some(key) = wanted(files) {
        let places = |q: Place|
            !file_model::within(q, symlink_manager::dep_dir()) && file_model::place_of(
                swapped(files, mark).0,
                mark_path(key),
            ) != Some(q);
        assert forall|q: Place| #[trigger] places(q) implies file_model::same_at(
            files,
            after,
            q,
        ) by {
            law_swap_changes_little(files, mark, q);
        }
        lemma_same_lockfile(files, after, places, 0);
    }
}

/// A stash that succeeds does not change which lockfile there is, nor its contents, where the
/// lockfiles lead over nothing that the stash changes.
pub proof fn law_stash_keeps_lockfile(files: Map<Place, Node>, mark: Seq<u8>)
    requires
        file_model::well_formed(files),
        stashed(files, mark).1 is Stashed,
        wanted(files) matches Some(key) ==> lockfiles_lead_over(
            files,
            |q: Place| untouched(files, stashed(files, mark).0, key, q),
        ),
    ensures
        lockfile(stashed(files, mark).0) == lockfile(files),
{
    law_stash_in_one_go(files, mark);
    let after = stashed(files, mark).0;
    let key = wanted(files)->0;
    let places = |q: Place| untouched(files, stashed(files, mark).0, key, q);
    assert forall|q: Place| #[trigger] places(q) implies file_model::same_at(files, after, q) by {
        law_stash_changes_little(files, mark, q);
    }
    lemma_same_lockfile(files, after, places, 0);
}

// ── Going back and forth ─────────────────────────────────────────────────────────────────
/// A swap that finds `node_modules` linked to the dependencies that the lockfile asks for
/// changes nothing but the mark.
proof fn lemma_current(files: Map<Place, Node>, later: Seq<u8>, key: Seq<char>)
    requires
        file_model::well_formed(files),
        wanted(files) == Some(key),
        files.contains_key(symlink_manager::dep_dir()),
        files[symlink_manager::dep_dir()] == Node::Link(symlink_manager::cached_deps(key)),
        file_model::followed(files, symlink_manager::cached_deps(key)) == Some(Node::Directory),
        file_model::place_of(files, mark_path(key)) matches Some(q) && file_model::writable(
            files,
            q,
        ),
    ensures
        file_model::written(files, mark_path(key), later) matches Some(twice) && swapped(
            files,
            later,
        ) == (twice, ActionView::Swapped(ResultView::AlreadyCurrent { hash: key })),
{
    law_swap_in_one_go(files, later);
    lemma_dep_dir(files);
}

/// Once a swap found the dependencies, another swap finds them in place, and changes nothing
/// but the mark, as long as the lockfile asks for the same cache entry.
pub proof fn law_second_swap_is_current(files: Map<Place, Node>, mark: Seq<u8>, later: Seq<u8>)
    requires
        file_model::well_formed(files),
        swapped(files, mark).1 matches ActionView::Swapped(r) && (r is Swapped || r
            is AlreadyCurrent),
        wanted(swapped(files, mark).0) == wanted(files),
    ensures
        wanted(files) matches Some(key) && {
            let once = swapped(files, mark).0;
            file_model::written(once, mark_path(key), later) matches Some(twice) && swapped(
                once,
                later,
            ) == (twice, ActionView::Swapped(ResultView::AlreadyCurrent { hash: key }))
        },
{
    lemma_found(files, mark);
    lemma_current(swapped(files, mark).0, later, wanted(files)->0);
}

/// A swap right after a stash that moved the dependencies finds them in place, and changes
/// nothing but the mark, as long as the lockfile asks for the same cache entry.
pub proof fn law_swap_after_stash_is_current(
    files: Map<Place, Node>,
    mark: Seq<u8>,
    later: Seq<u8>,
)
    requires
        file_model::well_formed(files),
        stash_moves(files, mark),
        wanted(stashed(files, mark).0) == wanted(files),
    ensures
        wanted(files) matches Some(key) && {
            let once = stashed(files, mark).0;
            file_model::written(once, mark_path(key), later) matches Some(twice) && swapped(
                once,
                later,
            ) == (twice, ActionView::Swapped(ResultView::AlreadyCurrent { hash: key }))
        },
{
    lemma_stashed(files, mark);
    lemma_current(stashed(files, mark).0, later, wanted(files)->0);
}

/// Dependencies that were stashed come back. Whatever happens to the files in the meantime, as
/// long as the path of the stashed tree leads to it and the tree stays what it was: once the
/// repository has a lockfile that asks for the same cache entry again, a swap links
/// `node_modules` to the stashed tree, and that tree is the one that lay in the repository
/// before the stash, up to metadata that leads into the tree.
pub proof fn law_stashed_dependencies_come_back(
    files: Map<Place, Node>,
    mark: Seq<u8>,
    now: Map<Place, Node>,
    later: Seq<u8>,
    p: Place,
)
    requires
        file_model::well_formed(files),
        stash_moves(files, mark),
        file_model::well_formed(now),
        wanted(now) == wanted(files),
        ({
            let key = wanted(files)->0;
            let target = symlink_manager::cached_deps(key);
            let way = made_way(now, target);
            let to = file_model::place_of(stashed(files, mark).0, target);
            &&& file_model::found(now, symlink_manager::dep_dir(), target) != Found::Other
            &&& file_model::place_of(way, target) == to
            &&& mark_has_room(way, key)
            &&& forall|q: Place|
                file_model::within(q, to->0) ==> #[trigger] file_model::same_at(
                    stashed(files, mark).0,
                    now,
                    q,
                )
        }),
    ensures
        ({
            let key = wanted(files)->0;
            let target = symlink_manager::cached_deps(key);
            let at = symlink_manager::dep_dir();
            let (after, action) = swapped(now, later);
            &&& action == ActionView::Swapped(
                ResultView::Swapped { hash: key, cache_path: symlink_manager::entry(key) },
            ) || action == ActionView::Swapped(ResultView::AlreadyCurrent { hash: key })
            &&& after.contains_key(at) && after[at] == Node::Link(target)
            &&& file_model::place_of(after, target) matches Some(to) && {
                let from = file_model::origin(p, at, to);
                file_model::within(p, to) && !metadata_at(stashed(files, mark).0, key, p)
                    && file_model::place_of(after, mark_path(key)) != Some(p) ==> {
                    &&& after.contains_key(p) == files.contains_key(from)
                    &&& after.contains_key(p) ==> after[p] == files[from]
                }
            }
        }),
{
    let key = wanted(files)->0;
    let target = symlink_manager::cached_deps(key);
    let at = symlink_manager::dep_dir();
    let to = new_home(files);
    let stash = stashed(files, mark).0;
    let way = made_way(now, target);
    lemma_entry_made(files, mark);
    lemma_stashed(files, mark);
    lemma_dep_dir(now);
    lemma_made_way(now, target);
    // The tree is there.
    assert(file_model::within(to, to)) by {
        assert(to.parts.take(to.parts.len() as int) =~= to.parts);
    }
    assert(file_model::same_at(stash, now, to));
    assert(file_model::same_at(now, way, to));
    assert(file_model::followed(way, target) == Some(Node::Directory));
    law_swap_in_one_go(now, later);
    law_swap_succeeds(now, later);
    lemma_found(now, later);
    // It is what it was.
    let after = swapped(now, later).0;
    if file_model::within(p, to) && !metadata_at(stash, key, p) && file_model::place_of(
        after,
        mark_path(key),
    ) != Some(p) {
        if file_model::within(p, at) {
            file_model::lemma_within_both(p, to, at);
        }
        assert(file_model::same_at(stash, now, p));
        law_stash_moves_the_tree(files, mark, p);
        law_swap_changes_little(now, later, p);
    }
}

// ── What comes of a swap and a stash ─────────────────────────────────────────────────────
/// The lockfile is the first of the four that is there, through whatever links, and the cache
/// entry that is asked for is named by the first 16 characters of its hash.
pub proof fn law_lockfile_is_the_first(
    files: Map<Place, Node>,
    names: Seq<Seq<char>>,
    i: int,
    bytes: Seq<u8>,
)
    requires
        names == seq!["package-lock.json"@, "yarn.lock"@, "pnpm-lock.yaml"@, "bun.lockb"@],
        0 <= i <= 4,
        forall|j: int|
            0 <= j < i ==> !(file_model::followed(
                files,
                Place { base: Base::Repo, parts: seq![#[trigger] names[j]] },
            ) matches Some(Node::File(_))),
        i < 4 ==> file_model::followed(
            files,
            Place { base: Base::Repo, parts: seq![names[i]] },
        ) == Some(Node::File(bytes)),
    ensures
        i == 4 ==> lockfile(files) is None && wanted(files) is None,
        i < 4 ==> lockfile(files) == Some((names[i], bytes)) && wanted(files) == Some(
            hashing::content_hash(bytes).take(16),
        ),
{
    reveal_with_fuel(lockfile_from, 6);
    assert(symlink_manager::lockfiles() == names);
    let there = |j: int|
        file_model::followed(files, Place { base: Base::Repo, parts: seq![names[j]] }) matches Some(
            Node::File(_),
        );
    assert(0 < i ==> !there(0));
    assert(1 < i ==> !there(1));
    assert(2 < i ==> !there(2));
    assert(3 < i ==> !there(3));
}

/// Without a lockfile a swap changes nothing, and says so, and a stash fails.
pub proof fn law_without_a_lockfile(files: Map<Place, Node>, mark: Seq<u8>)
    requires
        file_model::well_formed(files),
        lockfile(files) is None,
    ensures
        swapped(files, mark) == (files, ActionView::Swapped(ResultView::NoLockfile)),
        stashed(files, mark) == (files, ActionView::Fail(Fault::NoLockfile)),
{
    law_swap_in_one_go(files, mark);
    law_stash_in_one_go(files, mark);
}

/// Where the cache has the dependencies that the lockfile asks for, a swap puts them in place:
/// `node_modules` is a link to them afterwards. They are current if it was that link before, and
/// swapped in otherwise.
pub proof fn law_cached_dependencies_are_put_in_place(
    files: Map<Place, Node>,
    mark: Seq<u8>,
    key: Seq<char>,
)
    requires
        file_model::well_formed(files),
        wanted(files) == Some(key),
        ({
            let target = symlink_manager::cached_deps(key);
            let way = made_way(files, target);
            &&& file_model::found(files, symlink_manager::dep_dir(), target) != Found::Other
            &&& file_model::followed(way, target) == Some(Node::Directory)
            &&& mark_has_room(way, key)
        }),
    ensures
        ({
            let at = symlink_manager::dep_dir();
            let link = Node::Link(symlink_manager::cached_deps(key));
            let (after, action) = swapped(files, mark);
            let was_there = files.contains_key(at) && files[at] == link;
            &&& after.contains_key(at) && after[at] == link
            &&& was_there ==> action == ActionView::Swapped(
                ResultView::AlreadyCurrent { hash: key },
            )
            &&& !was_there ==> action == ActionView::Swapped(
                ResultView::Swapped { hash: key, cache_path: symlink_manager::entry(key) },
            )
            &&& file_model::followed(after, mark_path(key)) == Some(Node::File(mark))
        }),
{
    let at = symlink_manager::dep_dir();
    let target = symlink_manager::cached_deps(key);
    lemma_dep_dir(files);
    law_swap_in_one_go(files, mark);
    law_swap_succeeds(files, mark);
    lemma_made_way(files, target);
    lemma_found(files, mark);
}

/// Where the cache does not have the dependencies, a swap says which entry is missing and for
/// which lockfile, leaves nothing in the place of `node_modules`, and changes nothing else.
pub proof fn law_missing_dependencies_are_told(
    files: Map<Place, Node>,
    mark: Seq<u8>,
    name: Seq<char>,
    bytes: Seq<u8>,
    p: Place,
)
    requires
        file_model::well_formed(files),
        lockfile(files) == Some((name, bytes)),
        ({
            let target = symlink_manager::cached_deps(hashing::content_key(bytes));
            &&& file_model::found(files, symlink_manager::dep_dir(), target) != Found::Other
            &&& file_model::followed(made_way(files, target), target) != Some(Node::Directory)
        }),
    ensures
        ({
            let (after, action) = swapped(files, mark);
            &&& action == ActionView::Swapped(
                ResultView::CacheMiss { hash: hashing::content_key(bytes), lockfile: name },
            )
            &&& file_model::within(p, symlink_manager::dep_dir()) ==> !after.contains_key(p)
            &&& !file_model::within(p, symlink_manager::dep_dir()) ==> file_model::same_at(
                files,
                after,
                p,
            )
        }),
{
    let at = symlink_manager::dep_dir();
    let target = symlink_manager::cached_deps(hashing::content_key(bytes));
    lemma_dep_dir(files);
    law_swap_in_one_go(files, mark);
    lemma_made_way(files, target);
    if file_model::within(p, at) {
        law_miss_leaves_no_dependencies(files, mark, p);
    } else {
        assert(file_model::same_at(files, made_way(files, target), p));
    }
}

/// What is neither a link nor a directory is not taken away by a swap, which fails at it.
pub proof fn law_swap_fails_at_a_file(files: Map<Place, Node>, mark: Seq<u8>, key: Seq<char>)
    requires
        file_model::well_formed(files),
        wanted(files) == Some(key),
        files.contains_key(symlink_manager::dep_dir()),
        files[symlink_manager::dep_dir()] is File,
    ensures
        swapped(files, mark) == (files, ActionView::Fail(Fault::RemoveTree)),
{
    lemma_dep_dir(files);
    law_swap_in_one_go(files, mark);
}

/// Only a real directory is stashed, and only where the cache has nothing under the key yet.
pub proof fn law_stash_leaves_what_is_there(
    files: Map<Place, Node>,
    mark: Seq<u8>,
    key: Seq<char>,
)
    requires
        wanted(files) == Some(key),
    ensures
        !file_model::directory_at(files, symlink_manager::dep_dir()) ==> stashed(files, mark) == (
            files,
            ActionView::Fail(Fault::NothingToStash),
        ),
        file_model::directory_at(files, symlink_manager::dep_dir()) && file_model::followed(
            files,
            symlink_manager::cached_deps(key),
        ) is Some ==> stashed(files, mark) == (files, ActionView::Stashed(key)),
{
    law_stash_in_one_go(files, mark);
}

/// A stash that moves the dependencies leaves a link to them in their place, records the full
/// hash and the name of the lockfile, marks the entry as used, and names the key of the entry.
pub proof fn law_stash_describes_the_entry(files: Map<Place, Node>, mark: Seq<u8>)
    requires
        file_model::well_formed(files),
        stash_moves(files, mark),
    ensures
        lockfile(files) matches Some((name, bytes)) && {
            let key = hashing::content_key(bytes);
            let at = symlink_manager::dep_dir();
            let hash_at = symlink_manager::in_entry(key, ".lockfile_hash"@);
            let name_at = symlink_manager::in_entry(key, ".lockfile_name"@);
            let (after, action) = stashed(files, mark);
            let hash_place = file_model::place_of(after, hash_at);
            let name_place = file_model::place_of(after, name_at);
            let mark_place = file_model::place_of(after, mark_path(key));
            &&& action == ActionView::Stashed(key)
            &&& after.contains_key(at) && after[at] == Node::Link(symlink_manager::cached_deps(key))
            &&& file_model::followed(after, mark_path(key)) == Some(Node::File(mark))
            &&& hash_place != name_place && hash_place != mark_place ==> file_model::followed(
                after,
                hash_at,
            ) == Some(Node::File(vstd::utf8::encode_utf8(hashing::content_hash(bytes))))
            &&& name_place != mark_place ==> file_model::followed(after, name_at) == Some(
                Node::File(vstd::utf8::encode_utf8(name)),
            )
        },
{
    law_stash_in_one_go(files, mark);
    lemma_stashed(files, mark);
}

/// Lockfiles whose digests differ in their first eight bytes never share dependencies: after a
/// swap for one of them, a swap for the other is not already current.
pub proof fn law_lockfiles_do_not_share_dependencies(
    files: Map<Place, Node>,
    mark: Seq<u8>,
    name: Seq<char>,
    bytes: Seq<u8>,
    other: Seq<u8>,
)
    requires
        file_model::well_formed(files),
        lockfile(files) == Some((name, bytes)),
        files.contains_key(symlink_manager::dep_dir()),
        files[symlink_manager::dep_dir()] == Node::Link(
            symlink_manager::cached_deps(hashing::content_key(other)),
        ),
        hashing::sha256(bytes).len() == 32,
        hashing::sha256(other).len() == 32,
        hashing::sha256(bytes).take(8) != hashing::sha256(other).take(8),
    ensures
        ({
            let (after, action) = swapped(files, mark);
            let at = symlink_manager::dep_dir();
            &&& !(action matches ActionView::Swapped(ResultView::AlreadyCurrent { .. }))
            &&& after.contains_key(at) ==> after[at] != files[at]
        }),
{
    let at = symlink_manager::dep_dir();
    let target = symlink_manager::cached_deps(hashing::content_key(bytes));
    let old = symlink_manager::cached_deps(hashing::content_key(other));
    hashing::law_key_begins_the_hash(bytes, other);
    assert(target.parts[1] == hashing::content_key(bytes));
    assert(old.parts[1] == hashing::content_key(other));
    lemma_dep_dir(files);
    law_swap_in_one_go(files, mark);
    let there = files.remove(at).insert(at, Node::Link(target));
    file_model::lemma_reach_no_link(there, mark_path(hashing::content_key(bytes)), 40);
}

// ── What the actions do ──────────────────────────────────────────────────────────────────
/// The answers to questions are what is there, and asking changes nothing.
pub proof fn law_questions(files: Map<Place, Node>, mark: Seq<u8>, p: Place, target: Place)
    ensures
        performed(files, mark, ActionView::IsFile(p)) == (
            files,
            EventView::Answer(file_model::followed(files, p) matches Some(Node::File(_))),
        ),
        performed(files, mark, ActionView::IsDirectory(p)) == (
            files,
            EventView::Answer(file_model::followed(files, p) matches Some(Node::Directory)),
        ),
        performed(files, mark, ActionView::Exists(p)) == (
            files,
            EventView::Answer(file_model::followed(files, p) is Some),
        ),
        performed(files, mark, ActionView::ReadFile(p)).0 == files,
        file_model::followed(files, p) matches Some(Node::File(bytes)) ==> performed(
            files,
            mark,
            ActionView::ReadFile(p),
        ).1 == EventView::Contents(bytes),
        performed(files, mark, ActionView::Inspect { at: p, target }).0 == files,
        file_model::spot(files, p) matches Some(q) ==> files.contains_key(q) ==> performed(
            files,
            mark,
            ActionView::Inspect { at: p, target },
        ).1 == EventView::Found(
            match files[q] {
                Node::Link(to) => Found::Link { to_target: to == target },
                Node::Directory => Found::Directory,
                Node::File(_) => Found::Other,
            },
        ),
{
}

/// What was written is read back: a text by its bytes, and the mark of an entry.
pub proof fn law_writing(
    files: Map<Place, Node>,
    mark: Seq<u8>,
    p: Place,
    contents: Seq<char>,
)
    ensures
        ({
            let (after, event) = performed(files, mark, ActionView::WriteText { at: p, contents });
            event is Succeeded ==> file_model::followed(after, p) == Some(
                Node::File(vstd::utf8::encode_utf8(contents)),
            )
        }),
        ({
            let (after, event) = performed(files, mark, ActionView::MarkUsed(p));
            event is Succeeded ==> file_model::followed(
                after,
                file_model::child(p, ".last_used"@),
            ) == Some(Node::File(mark))
        }),
{
    let bytes = vstd::utf8::encode_utf8(contents);
    if file_model::written(files, p, bytes) is Some {
        lemma_written(files, p, bytes);
    }
    let m = file_model::child(p, ".last_used"@);
    if file_model::written(files, m, mark) is Some {
        lemma_written(files, m, mark);
    }
}

} // verus!
