//! Branch-scoped volumes for docker-compose.
//!
//! A compose file names host directories and Docker volumes. Rewriting appends
//! `--warp--<branch>` to each of them, so that every branch works on data of its own.

use crate::yaml::{Table, Yaml, YamlView};
use crate::{branch, hashing, text, yaml};
use vstd::prelude::*;

verus! {

// ── What rewriting means ─────────────────────────────────────────────────────────────────
/// What scoping appends to a name: the delimiter and the branch.
pub open spec fn suffix(branch: Seq<char>) -> Seq<char> {
    "--warp--"@ + branch
}

/// Whether a name is already scoped to a branch.
pub open spec fn scoped(name: Seq<char>) -> bool {
    text::contains(name, "--warp--"@)
}

/// A name scoped to a branch. One that is already scoped stays as it is.
pub open spec fn scoped_to(name: Seq<char>, branch: Seq<char>) -> Seq<char> {
    if scoped(name) {
        name
    } else {
        name + suffix(branch)
    }
}

/// The host part of a short-form volume: what stands before the first colon.
pub open spec fn host_part(volume: Seq<char>) -> Seq<char> {
    volume.take(text::first_index(volume, ':') as int)
}

/// Whether a host part is a path, and not the name of a volume.
pub open spec fn bind_mount_path(host: Seq<char>) -> bool {
    ||| text::starts_with(host, "./"@)
    ||| text::starts_with(host, "../"@)
    ||| text::starts_with(host, "/"@)
    ||| text::starts_with(host, "~/"@)
}

/// A short-form volume `host:container[:mode]` with its host part scoped. `None` where there
/// is no host part, or where it is already scoped.
pub open spec fn short_rewritten(volume: Seq<char>, branch: Seq<char>) -> Option<Seq<char>> {
    let k = text::first_index(volume, ':') as int;
    if k < volume.len() && !scoped(host_part(volume)) {
        Some(host_part(volume) + suffix(branch) + volume.skip(k))
    } else {
        None
    }
}

/// A long-form volume with its `source` scoped. `None` where there is no `source` that is a
/// plain string, or where it is already scoped.
pub open spec fn long_rewritten(
    entries: Seq<(YamlView, YamlView)>,
    branch: Seq<char>,
) -> Option<Seq<(YamlView, YamlView)>> {
    match yaml::key_index(entries, "source"@) {
        Some(i) => match entries[i].1 {
            YamlView::Text(s) => if scoped(s) {
                None
            } else {
                Some(entries.update(i, (entries[i].0, YamlView::Text(s + suffix(branch)))))
            },
            _ => None,
        },
        None => None,
    }
}

/// One volume of a service, rewritten.
pub open spec fn volume_rewritten(v: YamlView, branch: Seq<char>) -> YamlView {
    match v {
        YamlView::Text(s) => match short_rewritten(s, branch) {
            Some(t) => YamlView::Text(t),
            None => v,
        },
        YamlView::Table(entries) => match long_rewritten(entries, branch) {
            Some(e) => YamlView::Table(e),
            None => v,
        },
        _ => v,
    }
}

/// Whether rewriting a volume counts as a bind mount: a long-form volume, or a short-form one
/// whose host part is a path.
pub open spec fn counts_as_bind_mount(v: YamlView, branch: Seq<char>) -> bool {
    match v {
        YamlView::Text(s) => short_rewritten(s, branch) is Some && bind_mount_path(host_part(s)),
        YamlView::Table(entries) => long_rewritten(entries, branch) is Some,
        _ => false,
    }
}

/// Whether rewriting a volume counts as a named volume: a short-form volume whose host part is
/// no path.
pub open spec fn counts_as_named_volume(v: YamlView, branch: Seq<char>) -> bool {
    match v {
        YamlView::Text(s) => short_rewritten(s, branch) is Some && !bind_mount_path(host_part(s)),
        _ => false,
    }
}

/// How many of the volumes count as bind mounts.
pub open spec fn bind_mounts_in(items: Seq<YamlView>, branch: Seq<char>) -> nat
    decreases items.len(),
{
    if items.len() == 0 {
        0
    } else {
        bind_mounts_in(items.drop_last(), branch) + (if counts_as_bind_mount(items.last(), branch) {
            1nat
        } else {
            0nat
        })
    }
}

/// How many of the volumes count as named volumes.
pub open spec fn named_volumes_in(items: Seq<YamlView>, branch: Seq<char>) -> nat
    decreases items.len(),
{
    if items.len() == 0 {
        0
    } else {
        named_volumes_in(items.drop_last(), branch) + (if counts_as_named_volume(
            items.last(),
            branch,
        ) {
            1nat
        } else {
            0nat
        })
    }
}

/// The list of volumes of a service, rewritten item by item.
pub open spec fn list_rewritten(v: YamlView, branch: Seq<char>) -> YamlView
    decreases v,
{
    match v {
        YamlView::Tagged(t, inner) => YamlView::Tagged(t, Box::new(list_rewritten(*inner, branch))),
        YamlView::List(items) => YamlView::List(items.map_values(|x| volume_rewritten(x, branch))),
        _ => v,
    }
}

/// The items of a list, behind any tags.
pub open spec fn list_items(v: YamlView) -> Seq<YamlView> {
    match yaml::untagged(v) {
        YamlView::List(items) => items,
        _ => Seq::empty(),
    }
}

/// A service definition with its volumes rewritten.
pub open spec fn service_rewritten(v: YamlView, branch: Seq<char>) -> YamlView
    decreases v,
{
    match v {
        YamlView::Tagged(t, inner) => YamlView::Tagged(
            t,
            Box::new(service_rewritten(*inner, branch)),
        ),
        YamlView::Table(entries) => match yaml::key_index(entries, "volumes"@) {
            Some(i) => YamlView::Table(
                entries.update(i, (entries[i].0, list_rewritten(entries[i].1, branch))),
            ),
            None => v,
        },
        _ => v,
    }
}

/// The volumes of a service.
pub open spec fn service_volumes(v: YamlView) -> Seq<YamlView> {
    match yaml::lookup(v, "volumes"@) {
        Some(list) => list_items(list),
        None => Seq::empty(),
    }
}

/// The services, each with its volumes rewritten.
pub open spec fn services_rewritten(v: YamlView, branch: Seq<char>) -> YamlView
    decreases v,
{
    match v {
        YamlView::Tagged(t, inner) => YamlView::Tagged(
            t,
            Box::new(services_rewritten(*inner, branch)),
        ),
        YamlView::Table(entries) => YamlView::Table(
            entries.map_values(|e: (YamlView, YamlView)| (e.0, service_rewritten(e.1, branch))),
        ),
        _ => v,
    }
}

/// The volumes of all these services, in order.
pub open spec fn all_volumes(services: Seq<(YamlView, YamlView)>) -> Seq<YamlView>
    decreases services.len(),
{
    if services.len() == 0 {
        Seq::empty()
    } else {
        all_volumes(services.drop_last()) + service_volumes(services.last().1)
    }
}

/// A table after a value was put under a string key: in place where the key is there, and at
/// the end where it is not.
pub open spec fn with_entry(
    entries: Seq<(YamlView, YamlView)>,
    key: Seq<char>,
    value: YamlView,
) -> Seq<(YamlView, YamlView)> {
    match yaml::key_index(entries, key) {
        Some(i) => entries.update(i, (entries[i].0, value)),
        None => entries.push((YamlView::Text(key), value)),
    }
}

/// The definitions of named volumes, each under its scoped name. A key that is already scoped
/// stays as it is, and so does one that is no string. Where two definitions come to the same
/// name, the later one stands in the place of the earlier.
pub open spec fn definitions_renamed(
    entries: Seq<(YamlView, YamlView)>,
    branch: Seq<char>,
) -> Seq<(YamlView, YamlView)>
    decreases entries.len(),
{
    if entries.len() == 0 {
        entries
    } else {
        let before = definitions_renamed(entries.drop_last(), branch);
        let (key, value) = entries.last();
        match yaml::text_of(key) {
            Some(name) => if scoped(name) && !(key is Text) {
                before.push((key, value))
            } else {
                with_entry(before, scoped_to(name, branch), value)
            },
            None => before.push((key, value)),
        }
    }
}

/// Whether a definition is renamed: its key is a string that is not scoped yet.
pub open spec fn is_renamed(key: YamlView) -> bool {
    match yaml::text_of(key) {
        Some(name) => !scoped(name),
        None => false,
    }
}

/// How many definitions are renamed.
pub open spec fn named_definitions(entries: Seq<(YamlView, YamlView)>) -> nat
    decreases entries.len(),
{
    if entries.len() == 0 {
        0
    } else {
        named_definitions(entries.drop_last()) + (if is_renamed(entries.last().0) {
            1nat
        } else {
            0nat
        })
    }
}

/// The top-level `volumes` section, rewritten. A tag on the section is dropped.
pub open spec fn definitions_rewritten(v: YamlView, branch: Seq<char>) -> YamlView {
    match yaml::untagged(v) {
        YamlView::Table(entries) => YamlView::Table(definitions_renamed(entries, branch)),
        _ => v,
    }
}

/// The entries of a table, behind any tags.
pub open spec fn table_entries(v: YamlView) -> Seq<(YamlView, YamlView)> {
    match yaml::untagged(v) {
        YamlView::Table(entries) => entries,
        _ => Seq::empty(),
    }
}

/// The entries of the table under a top-level key.
pub open spec fn section(doc: YamlView, key: Seq<char>) -> Seq<(YamlView, YamlView)> {
    match yaml::lookup(doc, key) {
        Some(v) => table_entries(v),
        None => Seq::empty(),
    }
}

/// The top-level entries with the `services` section rewritten.
pub open spec fn services_section_rewritten(
    entries: Seq<(YamlView, YamlView)>,
    branch: Seq<char>,
) -> Seq<(YamlView, YamlView)> {
    match yaml::key_index(entries, "services"@) {
        Some(i) => entries.update(i, (entries[i].0, services_rewritten(entries[i].1, branch))),
        None => entries,
    }
}

/// The top-level entries with the `volumes` section rewritten.
pub open spec fn volumes_section_rewritten(
    entries: Seq<(YamlView, YamlView)>,
    branch: Seq<char>,
) -> Seq<(YamlView, YamlView)> {
    match yaml::key_index(entries, "volumes"@) {
        Some(i) => entries.update(i, (entries[i].0, definitions_rewritten(entries[i].1, branch))),
        None => entries,
    }
}

/// A compose document with every volume scoped to the branch.
pub open spec fn document_rewritten(doc: YamlView, branch: Seq<char>) -> YamlView
    decreases doc,
{
    match doc {
        YamlView::Tagged(t, inner) => YamlView::Tagged(
            t,
            Box::new(document_rewritten(*inner, branch)),
        ),
        YamlView::Table(entries) => YamlView::Table(
            volumes_section_rewritten(services_section_rewritten(entries, branch), branch),
        ),
        _ => doc,
    }
}

/// How many bind mounts rewriting a document changes.
pub open spec fn bind_mount_count(doc: YamlView, branch: Seq<char>) -> nat {
    bind_mounts_in(all_volumes(section(doc, "services"@)), branch)
}

/// How many named volumes of services rewriting a document changes.
pub open spec fn named_volume_count(doc: YamlView, branch: Seq<char>) -> nat {
    named_volumes_in(all_volumes(section(doc, "services"@)), branch)
}

/// How many top-level volume definitions rewriting a document renames.
pub open spec fn top_level_volume_count(doc: YamlView) -> nat {
    named_definitions(section(doc, "volumes"@))
}

// ── Counting ─────────────────────────────────────────────────────────────────────────────
/// What a rewrite changed.
#[derive(Debug, Clone, Copy, PartialEq, Eq)]
pub struct RewriteStats {
    pub bind_mounts: usize,
    pub named_volumes: usize,
    pub top_level_volumes: usize,
}

/// More volumes than a `usize` can count.
#[derive(Debug, Clone, Copy, PartialEq, Eq)]
pub struct TooManyVolumes;

/// A count that stays right beyond the largest `usize`.
struct Counter {
    value: Option<usize>,
    total: Ghost<nat>,
}

impl Counter {
    spec fn wf(self) -> bool {
        match self.value {
            Some(c) => c == self.total@,
            None => self.total@ > usize::MAX,
        }
    }

    fn new() -> (r: Counter)
        ensures
            r.wf(),
            r.total@ == 0,
    {
        Counter { value: Some(0), total: Ghost(0nat) }
    }

    fn bump(&mut self)
        requires
            old(self).wf(),
        ensures
            final(self).wf(),
            final(self).total@ == old(self).total@ + 1,
    {
        self.value = match self.value {
            Some(c) => if c < usize::MAX {
                Some(c + 1)
            } else {
                None
            },
            None => None,
        };
        self.total = Ghost(self.total@ + 1);
    }
}

/// The three counts of a rewrite.
struct Tally {
    bind: Counter,
    named: Counter,
    top: Counter,
}

impl Tally {
    spec fn wf(self) -> bool {
        self.bind.wf() && self.named.wf() && self.top.wf()
    }

    /// Whether `self` is `before` with so many more of each.
    spec fn grew(self, before: Tally, bind: nat, named: nat, top: nat) -> bool {
        &&& self.wf()
        &&& self.bind.total@ == before.bind.total@ + bind
        &&& self.named.total@ == before.named.total@ + named
        &&& self.top.total@ == before.top.total@ + top
    }
}

// ── Rewriting ────────────────────────────────────────────────────────────────────────────
/// Whether a volume host path is a bind mount, and not a named volume.
///
/// Bind mounts start with `./`, `../`, `/` or `~/`.
pub fn is_bind_mount_path(host: &str) -> (r: bool)
    ensures
        r == bind_mount_path(host@),
{
    text::strip_prefix(host, "./").is_some() || text::strip_prefix(host, "../").is_some()
        || text::strip_prefix(host, "/").is_some() || text::strip_prefix(host, "~/").is_some()
}

/// Rewrites a short-form volume string.
///
/// `./data:/var/lib/data:rw` becomes `./data--warp--main:/var/lib/data:rw`. Returns `None`
/// where the volume should not be rewritten.
pub fn rewrite_short_volume(volume_str: &str, branch: &str) -> (r: Option<String>)
    ensures
        match r {
            Some(s) => short_rewritten(volume_str@, branch@) == Some(s@),
            None => short_rewritten(volume_str@, branch@) is None,
        },
{
    let v = text::chars_of(volume_str);
    assert(v@.skip(0) =~= v@);
    let k = text::find_from(&v, 0, ':');
    let host = text::string_of(&v, 0, k);
    assert(host@ =~= host_part(volume_str@));
    if k == v.len() || text::has_text(host.as_str(), "--warp--") {
        return None;
    }
    let rest = text::string_of(&v, k, v.len());
    assert(rest@ =~= v@.skip(k as int));
    let mut result = host;
    result.append("--warp--");
    result.append(branch);
    result.append(rest.as_str());
    assert(result@ =~= host_part(volume_str@) + suffix(branch@) + v@.skip(k as int));
    Some(result)
}

/// Rewrites the `source` of a long-form volume. Returns whether it did.
pub fn rewrite_long_volume(mapping: &mut Table, branch: &str) -> (r: bool)
    ensures
        match long_rewritten(old(mapping)@, branch@) {
            Some(e) => r && final(mapping)@ == e,
            None => !r && final(mapping)@ == old(mapping)@,
        },
{
    let found = mapping.find("source");
    match found {
        None => false,
        Some(i) => {
            let done = match &mut mapping.entries[i].1 {
                Yaml::Text(source) => {
                    if text::has_text(source.as_str(), "--warp--") {
                        false
                    } else {
                        source.append("--warp--");
                        source.append(branch);
                        true
                    }
                },
                _ => false,
            };
            proof {
                let before = old(mapping)@;
                if done {
                    let s = before[i as int].1->Text_0;
                    assert(s + "--warp--"@ + branch@ =~= s + suffix(branch@));
                    assert(mapping@ =~= before.update(
                        i as int,
                        (before[i as int].0, YamlView::Text(s + suffix(branch@))),
                    ));
                } else {
                    assert(mapping@ =~= before);
                }
            }
            done
        },
    }
}

/// Rewrites one volume of a service.
fn rewrite_volume(v: &mut Yaml, branch: &str, tally: &mut Tally)
    requires
        old(tally).wf(),
    ensures
        final(v)@ == volume_rewritten(old(v)@, branch@),
        final(tally).grew(
            *old(tally),
            if counts_as_bind_mount(old(v)@, branch@) {
                1
            } else {
                0
            },
            if counts_as_named_volume(old(v)@, branch@) {
                1
            } else {
                0
            },
            0,
        ),
{
    broadcast use yaml::lemma_yaml_of_parts;

    match v {
        Yaml::Text(s) => {
            if let Some(rewritten) = rewrite_short_volume(s.as_str(), branch) {
                let chars = text::chars_of(s.as_str());
                assert(chars@.skip(0) =~= chars@);
                let k = text::find_from(&chars, 0, ':');
                let host = text::string_of(&chars, 0, k);
                assert(host@ =~= host_part(s@));
                if is_bind_mount_path(host.as_str()) {
                    tally.bind.bump();
                } else {
                    tally.named.bump();
                }
                *s = rewritten;
            }
        },
        Yaml::Table(m) => {
            if rewrite_long_volume(m, branch) {
                tally.bind.bump();
            }
        },
        _ => {},
    }
}

/// Rewrites the volumes of a service.
fn rewrite_items(items: &mut Vec<Yaml>, branch: &str, tally: &mut Tally)
    requires
        old(tally).wf(),
    ensures
        yaml::items_of(final(items)@) == yaml::items_of(old(items)@).map_values(
            |x| volume_rewritten(x, branch@),
        ),
        final(tally).grew(
            *old(tally),
            bind_mounts_in(yaml::items_of(old(items)@), branch@),
            named_volumes_in(yaml::items_of(old(items)@), branch@),
            0,
        ),
{
    let ghost parts = yaml::items_of(old(items)@);
    let mut i: usize = 0;
    while i < items.len()
        invariant
            i <= items@.len(),
            items@.len() == old(items)@.len(),
            parts == yaml::items_of(old(items)@),
            tally.grew(
                *old(tally),
                bind_mounts_in(parts.take(i as int), branch@),
                named_volumes_in(parts.take(i as int), branch@),
                0,
            ),
            forall|j: int|
                0 <= j < i ==> (#[trigger] items@[j])@ == volume_rewritten(parts[j], branch@),
            forall|j: int| i <= j < items@.len() ==> (#[trigger] items@[j])@ == parts[j],
        decreases items@.len() - i,
    {
        assert(items@[i as int]@ == parts[i as int]);
        assert(parts.take(i + 1).drop_last() =~= parts.take(i as int));
        rewrite_volume(&mut items[i], branch, tally);
        i = i + 1;
    }
    assert(parts.take(i as int) =~= parts);
    assert(yaml::items_of(items@) =~= parts.map_values(|x| volume_rewritten(x, branch@)));
}

/// Rewrites the `volumes` of a service where they are a list.
fn rewrite_list(v: &mut Yaml, branch: &str, tally: &mut Tally)
    requires
        old(tally).wf(),
    ensures
        final(v)@ == list_rewritten(old(v)@, branch@),
        final(tally).grew(
            *old(tally),
            bind_mounts_in(list_items(old(v)@), branch@),
            named_volumes_in(list_items(old(v)@), branch@),
            0,
        ),
    decreases *old(v),
{
    broadcast use yaml::lemma_yaml_of_parts;

    match v {
        Yaml::Tagged(t) => rewrite_list(&mut t.value, branch, tally),
        Yaml::List(items) => rewrite_items(items, branch, tally),
        _ => {},
    }
}

/// Rewrites the volumes of one service.
fn rewrite_service(v: &mut Yaml, branch: &str, tally: &mut Tally)
    requires
        old(tally).wf(),
    ensures
        final(v)@ == service_rewritten(old(v)@, branch@),
        final(tally).grew(
            *old(tally),
            bind_mounts_in(service_volumes(old(v)@), branch@),
            named_volumes_in(service_volumes(old(v)@), branch@),
            0,
        ),
    decreases *old(v),
{
    broadcast use yaml::lemma_yaml_of_parts;

    match v {
        Yaml::Tagged(t) => rewrite_service(&mut t.value, branch, tally),
        Yaml::Table(t) => {
            let ghost before = t@;
            if let Some(i) = t.find("volumes") {
                rewrite_list(&mut t.entries[i].1, branch, tally);
                assert(t@ =~= before.update(
                    i as int,
                    (before[i as int].0, list_rewritten(before[i as int].1, branch@)),
                ));
            }
        },
        _ => {},
    }
}

proof fn lemma_counts_add(a: Seq<YamlView>, b: Seq<YamlView>, branch: Seq<char>)
    ensures
        bind_mounts_in(a + b, branch) == bind_mounts_in(a, branch) + bind_mounts_in(b, branch),
        named_volumes_in(a + b, branch) == named_volumes_in(a, branch) + named_volumes_in(
            b,
            branch,
        ),
    decreases b.len(),
{
    if b.len() == 0 {
        assert(a + b =~= a);
    } else {
        lemma_counts_add(a, b.drop_last(), branch);
        assert((a + b).drop_last() =~= a + b.drop_last());
    }
}

/// Rewrites the volumes of each service.
fn rewrite_service_entries(entries: &mut Vec<(Yaml, Yaml)>, branch: &str, tally: &mut Tally)
    requires
        old(tally).wf(),
    ensures
        yaml::entries_of(final(entries)@) == yaml::entries_of(old(entries)@).map_values(
            |e: (YamlView, YamlView)| (e.0, service_rewritten(e.1, branch@)),
        ),
        final(tally).grew(
            *old(tally),
            bind_mounts_in(all_volumes(yaml::entries_of(old(entries)@)), branch@),
            named_volumes_in(all_volumes(yaml::entries_of(old(entries)@)), branch@),
            0,
        ),
{
    let ghost parts = yaml::entries_of(old(entries)@);
    let mut i: usize = 0;
    while i < entries.len()
        invariant
            i <= entries@.len(),
            entries@.len() == old(entries)@.len(),
            parts == yaml::entries_of(old(entries)@),
            tally.grew(
                *old(tally),
                bind_mounts_in(all_volumes(parts.take(i as int)), branch@),
                named_volumes_in(all_volumes(parts.take(i as int)), branch@),
                0,
            ),
            forall|j: int|
                0 <= j < i ==> (#[trigger] entries@[j]).0@ == parts[j].0 && entries@[j].1@
                    == service_rewritten(parts[j].1, branch@),
            forall|j: int|
                i <= j < entries@.len() ==> (#[trigger] entries@[j]).0@ == parts[j].0
                    && entries@[j].1@ == parts[j].1,
        decreases entries@.len() - i,
    {
        assert(entries@[i as int].1@ == parts[i as int].1);
        assert(parts.take(i + 1).drop_last() =~= parts.take(i as int));
        proof {
            lemma_counts_add(
                all_volumes(parts.take(i as int)),
                service_volumes(parts[i as int].1),
                branch@,
            );
        }
        rewrite_service(&mut entries[i].1, branch, tally);
        i = i + 1;
    }
    assert(parts.take(i as int) =~= parts);
    assert(yaml::entries_of(entries@) =~= parts.map_values(
        |e: (YamlView, YamlView)| (e.0, service_rewritten(e.1, branch@)),
    ));
}

/// Rewrites the volumes of each service in the `services` section.
fn rewrite_services(v: &mut Yaml, branch: &str, tally: &mut Tally)
    requires
        old(tally).wf(),
    ensures
        final(v)@ == services_rewritten(old(v)@, branch@),
        final(tally).grew(
            *old(tally),
            bind_mounts_in(all_volumes(table_entries(old(v)@)), branch@),
            named_volumes_in(all_volumes(table_entries(old(v)@)), branch@),
            0,
        ),
    decreases *old(v),
{
    broadcast use yaml::lemma_yaml_of_parts;

    match v {
        Yaml::Tagged(t) => rewrite_services(&mut t.value, branch, tally),
        Yaml::Table(t) => rewrite_service_entries(&mut t.entries, branch, tally),
        _ => {},
    }
}

/// Puts a value under a string key.
fn put_entry(entries: &mut Table, key: String, value: Yaml)
    ensures
        final(entries)@ == with_entry(old(entries)@, key@, value@),
{
    let ghost before = entries@;
    match entries.find(key.as_str()) {
        Some(i) => {
            entries.entries[i].1 = value;
            assert(entries@ =~= before.update(i as int, (before[i as int].0, value@)));
        },
        None => {
            entries.entries.push((Yaml::Text(key), value));
            assert(entries@ =~= before.push((YamlView::Text(key@), value@)));
        },
    }
}

/// Renames the definitions of named volumes.
fn rename_definitions(entries: Vec<(Yaml, Yaml)>, branch: &str, tally: &mut Tally) -> (r: Table)
    requires
        old(tally).wf(),
    ensures
        r@ == definitions_renamed(yaml::entries_of(entries@), branch@),
        final(tally).grew(
            *old(tally),
            0,
            0,
            named_definitions(yaml::entries_of(entries@)),
        ),
{
    let ghost parts = yaml::entries_of(entries@);
    let mut out = Table { entries: Vec::new() };
    assert(out@ =~= definitions_renamed(parts.take(0), branch@));
    for e in it: entries
        invariant
            parts == yaml::entries_of(it.seq()),
            out@ == definitions_renamed(parts.take(it.index() as int), branch@),
            tally.grew(*old(tally), 0, 0, named_definitions(parts.take(it.index() as int))),
    {
        let ghost i = it.index() as int;
        assert(parts[i] == (e.0@, e.1@));
        assert(parts.take(i + 1).drop_last() =~= parts.take(i));
        let ghost before = out@;
        let (key, value) = e;
        let name = match key.as_str() {
            Some(s) => Some(s.to_owned()),
            None => None,
        };
        match name {
            Some(name) => {
                if text::has_text(name.as_str(), "--warp--") {
                    if let Yaml::Text(_) = &key {
                        put_entry(&mut out, name, value);
                    } else {
                        out.entries.push((key, value));
                        assert(out@ =~= before.push((key@, value@)));
                    }
                } else {
                    let mut new_name = name;
                    new_name.append("--warp--");
                    new_name.append(branch);
                    assert(new_name@ =~= yaml::text_of(key@)->0 + suffix(branch@));
                    put_entry(&mut out, new_name, value);
                    tally.top.bump();
                }
            },
            None => {
                out.entries.push((key, value));
                assert(out@ =~= before.push((key@, value@)));
            },
        }
    }
    assert(parts.take(parts.len() as int) =~= parts);
    out
}

/// Takes the entries out of a table, behind any tags.
fn take_entries(v: Yaml) -> (r: Result<Vec<(Yaml, Yaml)>, Yaml>)
    ensures
        match r {
            Ok(entries) => yaml::untagged(v@) == YamlView::Table(yaml::entries_of(entries@)),
            Err(w) => w@ == v@ && !(yaml::untagged(v@) is Table),
        },
    decreases v,
{
    broadcast use yaml::lemma_yaml_of_parts;

    match v {
        Yaml::Tagged(t) => {
            let yaml::TaggedYaml { tag, value } = *t;
            match take_entries(value) {
                Ok(entries) => Ok(entries),
                Err(value) => Err(Yaml::Tagged(Box::new(yaml::TaggedYaml { tag, value }))),
            }
        },
        Yaml::Table(t) => Ok(t.entries),
        other => Err(other),
    }
}

/// Rewrites the top-level `volumes` section.
fn rewrite_definitions(v: &mut Yaml, branch: &str, tally: &mut Tally)
    requires
        old(tally).wf(),
    ensures
        final(v)@ == definitions_rewritten(old(v)@, branch@),
        final(tally).grew(*old(tally), 0, 0, named_definitions(table_entries(old(v)@))),
{
    broadcast use yaml::lemma_yaml_of_parts;

    let mut taken = Yaml::Null;
    std::mem::swap(v, &mut taken);
    match take_entries(taken) {
        Ok(entries) => {
            *v = Yaml::Table(rename_definitions(entries, branch, tally));
        },
        Err(whole) => {
            *v = whole;
        },
    }
}

/// Rewrites the two sections of a document that name volumes.
fn rewrite_sections(doc: &mut Yaml, branch: &str, tally: &mut Tally)
    requires
        old(tally).wf(),
    ensures
        final(doc)@ == document_rewritten(old(doc)@, branch@),
        final(tally).grew(
            *old(tally),
            bind_mount_count(old(doc)@, branch@),
            named_volume_count(old(doc)@, branch@),
            top_level_volume_count(old(doc)@),
        ),
    decreases *old(doc),
{
    broadcast use yaml::lemma_yaml_of_parts;

    match doc {
        Yaml::Tagged(t) => rewrite_sections(&mut t.value, branch, tally),
        Yaml::Table(t) => {
            let ghost before = t@;
            if let Some(i) = t.find("services") {
                rewrite_services(&mut t.entries[i].1, branch, tally);
                assert(t@ =~= before.update(
                    i as int,
                    (before[i as int].0, services_rewritten(before[i as int].1, branch@)),
                ));
            }
            let ghost middle = t@;
            assert(middle == services_section_rewritten(before, branch@));
            proof {
                lemma_volumes_section_untouched(before, branch@);
            }
            if let Some(i) = t.find("volumes") {
                rewrite_definitions(&mut t.entries[i].1, branch, tally);
                assert(t@ =~= middle.update(
                    i as int,
                    (middle[i as int].0, definitions_rewritten(middle[i as int].1, branch@)),
                ));
            }
        },
        _ => {},
    }
}

/// Rewriting the services leaves the `volumes` section where and what it was.
proof fn lemma_volumes_section_untouched(entries: Seq<(YamlView, YamlView)>, branch: Seq<char>)
    ensures
        ({
            let after = services_section_rewritten(entries, branch);
            &&& yaml::key_index(after, "volumes"@) == yaml::key_index(entries, "volumes"@)
            &&& yaml::key_index(entries, "volumes"@) matches Some(i) ==> after[i] == entries[i]
        }),
{
    yaml::lemma_key_index_found(entries, "services"@);
    yaml::lemma_key_index_found(entries, "volumes"@);
    reveal_strlit("services");
    reveal_strlit("volumes");
    assert("services"@.len() != "volumes"@.len());
    if let Some(i) = yaml::key_index(entries, "services"@) {
        yaml::lemma_key_index_after_update(
            entries,
            i,
            services_rewritten(entries[i].1, branch),
            "volumes"@,
        );
    }
}

// ── Rewriting keeps a document writable ──────────────────────────────────────────────────
proof fn lemma_update_is_sound(entries: Seq<(YamlView, YamlView)>, i: int, value: YamlView)
    requires
        yaml::sound(YamlView::Table(entries)),
        0 <= i < entries.len(),
        yaml::sound(value),
    ensures
        yaml::sound(YamlView::Table(entries.update(i, (entries[i].0, value)))),
{
    let after = entries.update(i, (entries[i].0, value));
    assert(forall|j: int| 0 <= j < after.len() ==> (#[trigger] after[j]).0 == entries[j].0);
}

proof fn lemma_volume_is_sound(v: YamlView, branch: Seq<char>)
    requires
        yaml::sound(v),
    ensures
        yaml::sound(volume_rewritten(v, branch)),
{
    if let YamlView::Table(entries) = v {
        yaml::lemma_key_index_found(entries, "source"@);
        if let Some(i) = yaml::key_index(entries, "source"@) {
            if let YamlView::Text(s) = entries[i].1 {
                lemma_update_is_sound(entries, i, YamlView::Text(s + suffix(branch)));
            }
        }
    }
}

proof fn lemma_list_is_sound(v: YamlView, branch: Seq<char>)
    requires
        yaml::sound(v),
    ensures
        yaml::sound(list_rewritten(v, branch)),
    decreases v,
{
    match v {
        YamlView::Tagged(_, inner) => lemma_list_is_sound(*inner, branch),
        YamlView::List(items) => {
            let after = items.map_values(|x| volume_rewritten(x, branch));
            assert forall|j: int| 0 <= j < after.len() implies yaml::sound(#[trigger] after[j]) by {
                lemma_volume_is_sound(items[j], branch);
            }
        },
        _ => {},
    }
}

proof fn lemma_service_is_sound(v: YamlView, branch: Seq<char>)
    requires
        yaml::sound(v),
    ensures
        yaml::sound(service_rewritten(v, branch)),
    decreases v,
{
    match v {
        YamlView::Tagged(_, inner) => lemma_service_is_sound(*inner, branch),
        YamlView::Table(entries) => {
            yaml::lemma_key_index_found(entries, "volumes"@);
            if let Some(i) = yaml::key_index(entries, "volumes"@) {
                lemma_list_is_sound(entries[i].1, branch);
                lemma_update_is_sound(entries, i, list_rewritten(entries[i].1, branch));
            }
        },
        _ => {},
    }
}

proof fn lemma_services_are_sound(v: YamlView, branch: Seq<char>)
    requires
        yaml::sound(v),
    ensures
        yaml::sound(services_rewritten(v, branch)),
    decreases v,
{
    match v {
        YamlView::Tagged(_, inner) => lemma_services_are_sound(*inner, branch),
        YamlView::Table(entries) => {
            let after = entries.map_values(
                |e: (YamlView, YamlView)| (e.0, service_rewritten(e.1, branch)),
            );
            assert forall|j: int| 0 <= j < after.len() implies yaml::sound((#[trigger] after[j]).0)
                && yaml::sound(after[j].1) by {
                lemma_service_is_sound(entries[j].1, branch);
            }
            assert(forall|j: int| 0 <= j < after.len() ==> (#[trigger] after[j]).0 == entries[j].0);
        },
        _ => {},
    }
}

/// The keys of renamed definitions are strings, or keys that were there before.
pub open spec fn from_definitions(
    after: Seq<(YamlView, YamlView)>,
    entries: Seq<(YamlView, YamlView)>,
) -> bool {
    forall|j: int|
        0 <= j < after.len() ==> (#[trigger] after[j]).0 is Text || exists|k: int|
            0 <= k < entries.len() && (#[trigger] entries[k]).0 == after[j].0
}

/// Renaming definitions keeps a table writable, and adds no key but strings.
pub proof fn lemma_definitions_are_sound(entries: Seq<(YamlView, YamlView)>, branch: Seq<char>)
    requires
        yaml::sound(YamlView::Table(entries)),
    ensures
        yaml::sound(YamlView::Table(definitions_renamed(entries, branch))),
        from_definitions(definitions_renamed(entries, branch), entries),
    decreases entries.len(),
{
    if entries.len() > 0 {
        let front = entries.drop_last();
        let before = definitions_renamed(front, branch);
        let (key, value) = entries.last();
        assert(forall|j: int| 0 <= j < front.len() ==> #[trigger] front[j] == entries[j]);
        assert(yaml::sound(entries.last().0) && yaml::sound(entries.last().1));
        lemma_definitions_are_sound(front, branch);
        let after = definitions_renamed(entries, branch);
        match yaml::text_of(key) {
            Some(name) if !scoped(name) || key is Text => {
                let new_name = scoped_to(name, branch);
                yaml::lemma_key_index_found(before, new_name);
                match yaml::key_index(before, new_name) {
                    Some(i) => lemma_update_is_sound(before, i, value),
                    None => {
                        assert(after == before.push((YamlView::Text(new_name), value)));
                        assert(yaml::sound(YamlView::Text(new_name)));
                        assert(yaml::distinct_keys(after));
                    },
                }
            },
            _ => {
                assert(after == before.push((key, value)));
                assert forall|i: int, j: int| 0 <= i < j < after.len() implies yaml::keys_differ(
                    (#[trigger] after[i]).0,
                    (#[trigger] after[j]).0,
                ) by {
                    if j == before.len() && !(before[i].0 is Text) {
                        let k = choose|k: int|
                            0 <= k < front.len() && (#[trigger] front[k]).0 == before[i].0;
                        assert(yaml::keys_differ(entries[k].0, entries[front.len() as int].0));
                    }
                }
            },
        }
        assert forall|j: int| 0 <= j < after.len() implies (#[trigger] after[j]).0 is Text
            || exists|k: int| 0 <= k < entries.len() && (#[trigger] entries[k]).0 == after[j].0 by {
            if j < before.len() {
                assert(after[j].0 == before[j].0);
                if !(before[j].0 is Text) {
                    let k = choose|k: int|
                        0 <= k < front.len() && (#[trigger] front[k]).0 == before[j].0;
                    assert(entries[k].0 == after[j].0);
                }
            } else if !(after[j].0 is Text) {
                assert(entries[front.len() as int].0 == after[j].0);
            }
        }
    }
}

/// What is behind the tags of a writable document is writable.
pub proof fn lemma_untagged_is_sound(v: YamlView)
    requires
        yaml::sound(v),
    ensures
        yaml::sound(yaml::untagged(v)),
    decreases v,
{
    if let YamlView::Tagged(_, inner) = v {
        lemma_untagged_is_sound(*inner);
    }
}

proof fn lemma_document_is_sound(doc: YamlView, branch: Seq<char>)
    requires
        yaml::sound(doc),
    ensures
        yaml::sound(document_rewritten(doc, branch)),
    decreases doc,
{
    match doc {
        YamlView::Tagged(_, inner) => lemma_document_is_sound(*inner, branch),
        YamlView::Table(entries) => {
            yaml::lemma_key_index_found(entries, "services"@);
            if let Some(i) = yaml::key_index(entries, "services"@) {
                lemma_services_are_sound(entries[i].1, branch);
                lemma_update_is_sound(entries, i, services_rewritten(entries[i].1, branch));
            }
            let middle = services_section_rewritten(entries, branch);
            yaml::lemma_key_index_found(middle, "volumes"@);
            if let Some(i) = yaml::key_index(middle, "volumes"@) {
                let v = middle[i].1;
                lemma_untagged_is_sound(v);
                if let YamlView::Table(definitions) = yaml::untagged(v) {
                    lemma_definitions_are_sound(definitions, branch);
                }
                lemma_update_is_sound(middle, i, definitions_rewritten(v, branch));
            }
        },
        _ => {},
    }
}

// ── The proxy ────────────────────────────────────────────────────────────────────────────
/// Rewrites every volume of a compose document to be scoped to the branch, and counts what it
/// changed.
///
/// The document is rewritten in any case. The counts are an error only where one of them is
/// beyond the largest `usize`.
pub fn rewrite_volumes(doc: &mut Yaml, branch: &str) -> (r: Result<RewriteStats, TooManyVolumes>)
    ensures
        final(doc)@ == document_rewritten(old(doc)@, branch@),
        yaml::sound(old(doc)@) ==> yaml::sound(final(doc)@),
        match r {
            Ok(stats) => {
                &&& stats.bind_mounts == bind_mount_count(old(doc)@, branch@)
                &&& stats.named_volumes == named_volume_count(old(doc)@, branch@)
                &&& stats.top_level_volumes == top_level_volume_count(old(doc)@)
            },
            Err(_) => {
                ||| bind_mount_count(old(doc)@, branch@) > usize::MAX
                ||| named_volume_count(old(doc)@, branch@) > usize::MAX
                ||| top_level_volume_count(old(doc)@) > usize::MAX
            },
        },
{
    let mut tally = Tally { bind: Counter::new(), named: Counter::new(), top: Counter::new() };
    proof {
        if yaml::sound(old(doc)@) {
            lemma_document_is_sound(old(doc)@, branch@);
        }
    }
    rewrite_sections(doc, branch, &mut tally);
    match (tally.bind.value, tally.named.value, tally.top.value) {
        (Some(bind_mounts), Some(named_volumes), Some(top_level_volumes)) => Ok(
            RewriteStats { bind_mounts, named_volumes, top_level_volumes },
        ),
        _ => Err(TooManyVolumes),
    }
}

/// The name of the file that a rewritten compose file is stored under: the branch, and eight
/// digits of a hash of the path of the compose file, so that two compose files of one repository
/// do not collide.
pub open spec fn compose_file_name(branch: Seq<char>, compose_path: Seq<char>) -> Seq<char> {
    "docker-compose--"@ + branch + "--"@ + hashing::content_hash(
        vstd::utf8::encode_utf8(compose_path),
    ).take(8) + ".yml"@
}

/// The name of the file that a rewritten compose file is stored under.
pub fn rewritten_file_name(branch: &str, compose_path: &str) -> (r: String)
    ensures
        r@ == compose_file_name(branch@, compose_path@),
{
    let hash = hashing::hash_file(compose_path.as_bytes());
    let digits = text::chars_of(hash.as_str());
    let short = text::string_of(&digits, 0, 8);
    assert(short@ =~= hash@.take(8));
    let mut name = "docker-compose--".to_owned();
    name.append(branch);
    name.append("--");
    name.append(short.as_str());
    name.append(".yml");
    name
}

/// Why a compose file could not be rewritten.
#[derive(Debug)]
pub enum ComposeError {
    /// The file is no YAML.
    Parse(serde_yaml::Error),
    /// The rewritten document cannot be written.
    Emit(serde_yaml::Error),
    /// More volumes than can be counted.
    TooManyVolumes,
}

/// A rewritten compose file.
#[derive(Debug)]
pub struct RewrittenCompose {
    /// The name of the file to store it under.
    pub file_name: String,
    /// The text of the file.
    pub text: String,
    /// What was rewritten.
    pub stats: RewriteStats,
}

/// Rewrites the text of a compose file for a branch.
///
/// `compose_path` is the path of the file; it only goes into the name of the rewritten file.
pub fn rewrite_compose(raw_yaml: &str, branch: &str, compose_path: &str) -> (r: Result<
    RewrittenCompose,
    ComposeError,
>)
    ensures
        ({
            let name = branch::sanitized(branch@);
            match yaml::yaml_parsed(raw_yaml@) {
                None => r matches Err(ComposeError::Parse(_)),
                Some(doc) => {
                    let counted = bind_mount_count(doc, name) <= usize::MAX && named_volume_count(
                        doc,
                        name,
                    ) <= usize::MAX && top_level_volume_count(doc) <= usize::MAX;
                    if !counted {
                        r matches Err(ComposeError::TooManyVolumes)
                    } else {
                        match yaml::yaml_text(document_rewritten(doc, name)) {
                            None => r matches Err(ComposeError::Emit(_)),
                            Some(text) => {
                                &&& r matches Ok(c)
                                &&& c.text@ == text
                                &&& c.file_name@ == compose_file_name(name, compose_path@)
                                &&& c.stats.bind_mounts == bind_mount_count(doc, name)
                                &&& c.stats.named_volumes == named_volume_count(doc, name)
                                &&& c.stats.top_level_volumes == top_level_volume_count(doc)
                            },
                        }
                    }
                },
            }
        }),
{
    let mut doc = match Yaml::parse(raw_yaml) {
        Ok(doc) => doc,
        Err(e) => return Err(ComposeError::Parse(e)),
    };
    let name = branch::sanitize_branch_name(branch);
    let stats = match rewrite_volumes(&mut doc, name.as_str()) {
        Ok(stats) => stats,
        Err(_) => return Err(ComposeError::TooManyVolumes),
    };
    let file_name = rewritten_file_name(name.as_str(), compose_path);
    match doc.emit() {
        Ok(text) => Ok(RewrittenCompose { file_name, text, stats }),
        Err(e) => Err(ComposeError::Emit(e)),
    }
}

/// The two programs that can run a compose file.
#[derive(Debug, Clone, Copy, PartialEq, Eq, Structural)]
pub enum ComposeTool {
    /// `docker compose`, the plugin.
    Plugin,
    /// `docker-compose`, the standalone program.
    Standalone,
}

/// One argument of a command line.
#[derive(Debug, PartialEq, Eq)]
pub enum Argument {
    /// These characters.
    Literal(String),
    /// The path of the rewritten compose file.
    ComposeFile,
}

/// What an argument is: its characters, or `None` for the path of the compose file.
pub open spec fn argument_text(a: Argument) -> Option<Seq<char>> {
    match a {
        Argument::Literal(s) => Some(s@),
        Argument::ComposeFile => None,
    }
}

/// A command line: a program and its arguments.
#[derive(Debug, PartialEq, Eq)]
pub struct CommandLine {
    pub program: String,
    pub arguments: Vec<Argument>,
}

/// The program of a tool.
pub open spec fn tool_program(tool: ComposeTool) -> Seq<char> {
    match tool {
        ComposeTool::Plugin => "docker"@,
        ComposeTool::Standalone => "docker-compose"@,
    }
}

/// The arguments of a tool: its own, the path of the compose file, then those of the user.
pub open spec fn tool_arguments(tool: ComposeTool, user_args: Seq<String>) -> Seq<
    Option<Seq<char>>,
> {
    (match tool {
        ComposeTool::Plugin => seq![Some("compose"@), Some("-f"@)],
        ComposeTool::Standalone => seq![Some("-f"@)],
    }) + seq![None] + user_args.map_values(|s: String| Some(s@))
}

/// The command line that runs a compose file with a tool.
pub fn compose_command(tool: ComposeTool, user_args: &Vec<String>) -> (r: CommandLine)
    ensures
        r.program@ == tool_program(tool),
        r.arguments@.map_values(|a: Argument| argument_text(a)) == tool_arguments(tool, user_args@),
{
    let mut arguments: Vec<Argument> = Vec::new();
    let program = match tool {
        ComposeTool::Plugin => {
            arguments.push(Argument::Literal("compose".to_owned()));
            "docker".to_owned()
        },
        ComposeTool::Standalone => "docker-compose".to_owned(),
    };
    arguments.push(Argument::Literal("-f".to_owned()));
    arguments.push(Argument::ComposeFile);
    let ghost own = tool_arguments(tool, Seq::empty());
    assert(arguments@.map_values(|a: Argument| argument_text(a)) =~= own);
    let mut i: usize = 0;
    while i < user_args.len()
        invariant
            i <= user_args@.len(),
            arguments@.map_values(|a: Argument| argument_text(a)) == own + user_args@.take(
                i as int,
            ).map_values(|s: String| Some(s@)),
        decreases user_args@.len() - i,
    {
        let ghost before = arguments@;
        arguments.push(Argument::Literal(user_args[i].clone()));
        assert(arguments@.map_values(|a: Argument| argument_text(a)) =~= before.map_values(
            |a: Argument| argument_text(a),
        ).push(Some(user_args@[i as int]@)));
        i = i + 1;
        assert(user_args@.take(i as int).map_values(|s: String| Some(s@)) =~= user_args@.take(
            i - 1,
        ).map_values(|s: String| Some(s@)).push(Some(user_args@[i - 1]@)));
    }
    assert(user_args@.take(i as int) =~= user_args@);
    assert(own + user_args@.map_values(|s: String| Some(s@)) =~= tool_arguments(tool, user_args@));
    CommandLine { program, arguments }
}

/// The command line that tells whether the plugin is there.
pub open spec fn probe_arguments() -> Seq<Option<Seq<char>>> {
    seq![Some("compose"@), Some("version"@)]
}

/// The command line that tells whether the plugin is there: it succeeds only where `docker`
/// knows `compose`.
pub fn probe_command() -> (r: CommandLine)
    ensures
        r.program@ == "docker"@,
        r.arguments@.map_values(|a: Argument| argument_text(a)) == probe_arguments(),
{
    let mut arguments: Vec<Argument> = Vec::new();
    arguments.push(Argument::Literal("compose".to_owned()));
    arguments.push(Argument::Literal("version".to_owned()));
    assert(arguments@.map_values(|a: Argument| argument_text(a)) =~= probe_arguments());
    CommandLine { program: "docker".to_owned(), arguments }
}

/// How an attempt to run a program ended.
#[derive(Debug, Clone, Copy, PartialEq, Eq, Structural)]
pub enum Attempt {
    /// The program could not be executed.
    NotExecuted,
    /// The program ended, with this exit code if it had one.
    Exited(Option<i32>),
}

/// What to do to run a compose file.
#[derive(Debug, Clone, Copy, PartialEq, Eq, Structural)]
pub enum LaunchStep {
    /// Find out whether the plugin is there.
    Probe,
    /// Run this tool.
    Run(ComposeTool),
    /// End with this exit code.
    Exit(i32),
    /// Neither tool could be executed.
    Failed,
}

/// The exit code to end with: that of the program, or 1 where it had none.
pub open spec fn exit_code(code: Option<i32>) -> i32 {
    match code {
        Some(code) => code,
        None => 1,
    }
}

/// What follows an attempt. The plugin is run where the question for it succeeded, and the
/// standalone program otherwise, or where the plugin could not be executed after all. Whatever
/// a tool exits with is the end.
pub open spec fn launch_continues(step: LaunchStep, outcome: Attempt) -> LaunchStep {
    match step {
        LaunchStep::Probe => if outcome == Attempt::Exited(Some(0)) {
            LaunchStep::Run(ComposeTool::Plugin)
        } else {
            LaunchStep::Run(ComposeTool::Standalone)
        },
        LaunchStep::Run(tool) => match outcome {
            Attempt::Exited(code) => LaunchStep::Exit(exit_code(code)),
            Attempt::NotExecuted => match tool {
                ComposeTool::Plugin => LaunchStep::Run(ComposeTool::Standalone),
                ComposeTool::Standalone => LaunchStep::Failed,
            },
        },
        _ => step,
    }
}

/// The first thing to do to run a compose file.
pub fn first_launch() -> (r: LaunchStep)
    ensures
        r == LaunchStep::Probe,
{
    LaunchStep::Probe
}

/// What to do after an attempt.
pub fn next_launch(step: LaunchStep, outcome: Attempt) -> (r: LaunchStep)
    ensures
        r == launch_continues(step, outcome),
{
    match step {
        LaunchStep::Probe => match outcome {
            Attempt::Exited(Some(0)) => LaunchStep::Run(ComposeTool::Plugin),
            _ => LaunchStep::Run(ComposeTool::Standalone),
        },
        LaunchStep::Run(tool) => match outcome {
            Attempt::Exited(Some(code)) => LaunchStep::Exit(code),
            Attempt::Exited(None) => LaunchStep::Exit(1),
            Attempt::NotExecuted => match tool {
                ComposeTool::Plugin => LaunchStep::Run(ComposeTool::Standalone),
                ComposeTool::Standalone => LaunchStep::Failed,
            },
        },
        _ => step,
    }
}

/// Where the programs on a machine take a launch: `plugin` and `standalone` are what running
/// each tool gives, `None` for one that is not found, and `probe` is how the question for the
/// plugin ends.
pub open spec fn launched(
    step: LaunchStep,
    probe: Attempt,
    plugin: Option<Option<i32>>,
    standalone: Option<Option<i32>>,
    limit: nat,
) -> LaunchStep
    decreases limit,
{
    if limit == 0 {
        step
    } else {
        let found = match step {
            LaunchStep::Run(ComposeTool::Plugin) => plugin,
            _ => standalone,
        };
        let outcome = match (step, found) {
            (LaunchStep::Probe, _) => probe,
            (_, Some(code)) => Attempt::Exited(code),
            (_, None) => Attempt::NotExecuted,
        };
        launched(
            launch_continues(step, outcome),
            probe,
            plugin,
            standalone,
            (limit - 1) as nat,
        )
    }
}

/// Where the plugin is found, its exit code is the end, zero or not. Where it is not found, be
/// it that there is no `docker` or that `docker` does not know `compose`, the exit code of the
/// standalone program is. The launch fails if and only if neither is found.
pub proof fn law_standalone_stands_in_for_plugin(
    probe: Attempt,
    plugin: Option<Option<i32>>,
    standalone: Option<Option<i32>>,
)
    requires
        probe == Attempt::Exited(Some(0)) <==> plugin is Some,
    ensures
        launched(LaunchStep::Probe, probe, plugin, standalone, 3) == match (plugin, standalone) {
            (Some(code), _) => LaunchStep::Exit(exit_code(code)),
            (None, Some(code)) => LaunchStep::Exit(exit_code(code)),
            (None, None) => LaunchStep::Failed,
        },
{
    reveal_with_fuel(launched, 4);
}

// ── What a command line promises ─────────────────────────────────────────────────────────
/// The user's arguments are passed on in full and in their order, behind the compose file.
pub proof fn law_user_arguments_are_passed_on(
    tool: ComposeTool,
    user_args: Seq<String>,
    i: int,
)
    ensures
        ({
            let args = tool_arguments(tool, user_args);
            let n: int = if tool == ComposeTool::Plugin {
                3
            } else {
                2
            };
            &&& args.len() == n + user_args.len()
            &&& args[n - 1] is None
            &&& args[n - 2] == Some("-f"@)
            &&& tool == ComposeTool::Plugin ==> args[0] == Some("compose"@)
            &&& 0 <= i < user_args.len() ==> args[n + i] == Some(user_args[i]@)
        }),
        tool_program(ComposeTool::Plugin) == "docker"@,
        tool_program(ComposeTool::Standalone) == "docker-compose"@,
{
}

/// An argument is its characters, or stands for the compose file.
pub proof fn law_argument_text(s: String)
    ensures
        argument_text(Argument::Literal(s)) == Some(s@),
        argument_text(Argument::ComposeFile) is None,
{
}

/// The plugin is asked for its version, with the argument that running it begins with.
pub proof fn law_probe_asks_the_plugin(user_args: Seq<String>)
    ensures
        probe_arguments().len() == 2,
        probe_arguments()[0] == tool_arguments(ComposeTool::Plugin, user_args)[0],
        probe_arguments()[1] == Some("version"@),
{
}

/// The exit code of the program that ran is passed on, whichever it is, and 1 stands for a
/// program without one. Only a program that could not be executed is replaced: the plugin by the
/// standalone program, and that by nothing. The plugin is run if and only if the question for it
/// ended with zero. The end stays the end.
pub proof fn law_launch(tool: ComposeTool, code: i32, outcome: Attempt)
    ensures
        launch_continues(LaunchStep::Run(tool), Attempt::Exited(Some(code))) == LaunchStep::Exit(
            code,
        ),
        launch_continues(LaunchStep::Run(tool), Attempt::Exited(None)) == LaunchStep::Exit(1),
        launch_continues(LaunchStep::Run(ComposeTool::Plugin), Attempt::NotExecuted)
            == LaunchStep::Run(ComposeTool::Standalone),
        launch_continues(LaunchStep::Run(ComposeTool::Standalone), Attempt::NotExecuted)
            == LaunchStep::Failed,
        launch_continues(LaunchStep::Probe, outcome) == LaunchStep::Run(ComposeTool::Plugin)
            <==> outcome == Attempt::Exited(Some(0)),
        launch_continues(LaunchStep::Probe, outcome) == LaunchStep::Run(ComposeTool::Standalone)
            <==> outcome != Attempt::Exited(Some(0)),
        launch_continues(LaunchStep::Exit(code), outcome) == LaunchStep::Exit(code),
        launch_continues(LaunchStep::Failed, outcome) == LaunchStep::Failed,
{
}

/// A rewritten compose file is named by the branch, and by the first four bytes of the digest of
/// the path of the compose file, as eight hexadecimal digits.
pub proof fn law_compose_file_name(branch: Seq<char>, path: Seq<char>, i: int)
    requires
        hashing::sha256(vstd::utf8::encode_utf8(path)).len() == 32,
        0 <= i < 4,
    ensures
        ({
            let name = compose_file_name(branch, path);
            let digest = hashing::sha256(vstd::utf8::encode_utf8(path));
            let head = "docker-compose--"@ + branch + "--"@;
            &&& name.len() == head.len() + 12
            &&& name.take(head.len() as int) == head
            &&& name[head.len() + 2 * i] == "0123456789abcdef"@[digest[i] as int / 16]
            &&& name[head.len() + 2 * i + 1] == "0123456789abcdef"@[digest[i] as int % 16]
            &&& name.skip(head.len() as int + 8) == ".yml"@
        }),
{
    reveal_strlit(".yml");
    let bytes = vstd::utf8::encode_utf8(path);
    let head = "docker-compose--"@ + branch + "--"@;
    let digits = hashing::content_hash(bytes).take(8);
    hashing::law_hash_writes_the_digest(bytes, i);
    let name = compose_file_name(branch, path);
    assert(name == head + digits + ".yml"@);
    assert(name.take(head.len() as int) =~= head);
    assert(name[head.len() + 2 * i] == digits[2 * i]);
    assert(name[head.len() + 2 * i + 1] == digits[2 * i + 1]);
    assert(name.skip(head.len() as int + 8) =~= ".yml"@);
}

} // verus!
