//! What branch-scoped volumes promise: branches do not share data, a reference finds its
//! definition, nothing is scoped twice, and nothing else in a compose file changes.

use crate::docker_proxy;
use crate::yaml::YamlView;
use crate::{branch, gc, hashing, text, yaml};
use vstd::prelude::*;

verus! {

/// A branch that was sanitized holds no colon.
proof fn lemma_no_colon(name: Seq<char>)
    requires
        branch::clean(name),
    ensures
        forall|j: int| 0 <= j < name.len() ==> name[j] != ':',
{
    assert forall|j: int| 0 <= j < name.len() implies name[j] != ':' by {
        assert(branch::allowed(name[j]));
    }
}

/// The delimiter, wherever it is put, makes a name scoped.
proof fn lemma_delimited(before: Seq<char>, after: Seq<char>)
    ensures
        docker_proxy::scoped(before + "--warp--"@ + after),
{
    let s = before + "--warp--"@ + after;
    let d = "--warp--"@;
    assert(s.subrange(before.len() as int, (before.len() + d.len()) as int) =~= d);
    assert(text::occurs_at(s, d, before.len() as int));
}

/// A short-form volume keeps everything from its first colon on, and its host part becomes
/// the host part with the delimiter and the branch behind it.
pub proof fn law_only_the_host_part_changes(volume: Seq<char>, name: Seq<char>)
    requires
        branch::clean(name),
        docker_proxy::short_rewritten(volume, name) is Some,
    ensures
        ({
            let after = docker_proxy::short_rewritten(volume, name)->0;
            let host = docker_proxy::host_part(volume);
            &&& docker_proxy::host_part(after) == host + docker_proxy::suffix(name)
            &&& after.skip(docker_proxy::host_part(after).len() as int) == volume.skip(
                host.len() as int,
            )
        }),
{
    reveal_strlit("--warp--");
    lemma_no_colon(name);
    text::lemma_first_index_found(volume, ':');
    let k = text::first_index(volume, ':') as int;
    let host = docker_proxy::host_part(volume);
    let head = host + docker_proxy::suffix(name);
    let after = docker_proxy::short_rewritten(volume, name)->0;
    assert(after == head + volume.skip(k));
    assert(after[head.len() as int] == volume.skip(k)[0]);
    assert forall|j: int| 0 <= j < head.len() implies after[j] != ':' by {
        if j < host.len() {
            assert(after[j] == volume[j]);
        } else if j < host.len() + 8 {
            assert(after[j] == "--warp--"@[j - host.len()]);
        } else {
            assert(after[j] == name[j - host.len() - 8]);
        }
    }
    text::lemma_first_index(after, ':', head.len() as int);
    assert(docker_proxy::host_part(after) =~= head);
    assert(after.skip(head.len() as int) =~= volume.skip(k));
}

/// Two branches with different names never get the same host directory or volume out of
/// volumes of a compose file, whichever two volumes these are.
pub proof fn law_branches_are_isolated(
    volume_a: Seq<char>,
    volume_b: Seq<char>,
    name_a: Seq<char>,
    name_b: Seq<char>,
)
    requires
        branch::clean(name_a),
        branch::clean(name_b),
        name_a != name_b,
        docker_proxy::short_rewritten(volume_a, name_a) is Some,
        docker_proxy::short_rewritten(volume_b, name_b) is Some,
    ensures
        docker_proxy::host_part(docker_proxy::short_rewritten(volume_a, name_a)->0)
            != docker_proxy::host_part(docker_proxy::short_rewritten(volume_b, name_b)->0),
{
    law_only_the_host_part_changes(volume_a, name_a);
    law_only_the_host_part_changes(volume_b, name_b);
    law_scoped_names_differ(
        docker_proxy::host_part(volume_a),
        docker_proxy::host_part(volume_b),
        name_a,
        name_b,
    );
}

/// A scoped name tells its branch: names scoped to different branches are different, whatever
/// was scoped.
pub proof fn law_scoped_names_differ(
    a: Seq<char>,
    b: Seq<char>,
    name_a: Seq<char>,
    name_b: Seq<char>,
)
    requires
        branch::clean(name_a),
        branch::clean(name_b),
        name_a != name_b,
    ensures
        a + docker_proxy::suffix(name_a) != b + docker_proxy::suffix(name_b),
{
    reveal_strlit("--warp--");
    let x = a + docker_proxy::suffix(name_a);
    let y = b + docker_proxy::suffix(name_b);
    if name_a.len() < name_b.len() {
        lemma_lengths_decide(a, b, name_a, name_b);
    } else if name_b.len() < name_a.len() {
        lemma_lengths_decide(b, a, name_b, name_a);
    } else {
        assert(name_a =~= x.skip(x.len() - name_a.len()));
        assert(name_b =~= y.skip(y.len() - name_b.len()));
    }
}

/// Branch names of different lengths make different scoped names.
proof fn lemma_lengths_decide(a: Seq<char>, b: Seq<char>, short: Seq<char>, long: Seq<char>)
    requires
        branch::clean(long),
        short.len() < long.len(),
    ensures
        a + docker_proxy::suffix(short) != b + docker_proxy::suffix(long),
{
    reveal_strlit("--warp--");
    let x = a + docker_proxy::suffix(short);
    let y = b + docker_proxy::suffix(long);
    if x == y {
        let from = b.len() as int + 8;
        let dash = a.len() as int + 7;
        assert(x[dash] == "--warp--"@[7]);
        assert(x[dash - 1] == "--warp--"@[6]);
        assert(x.len() == a.len() + 8 + short.len() && y.len() == b.len() + 8 + long.len());
        assert(dash - from == long.len() - short.len() - 1);
        assert(y[dash] == long[dash - from]);
        if dash - from == 0 {
            assert(long[0] != '-');
        } else {
            assert(y[dash - 1] == long[dash - from - 1]);
            assert(long[dash - from - 1] != '-' || long[dash - from] != '-');
        }
    }
}

/// Two branches with different names never get the same source out of long-form volumes.
pub proof fn law_long_volumes_are_isolated(
    a: Seq<(YamlView, YamlView)>,
    b: Seq<(YamlView, YamlView)>,
    name_a: Seq<char>,
    name_b: Seq<char>,
)
    requires
        branch::clean(name_a),
        branch::clean(name_b),
        name_a != name_b,
        docker_proxy::long_rewritten(a, name_a) is Some,
        docker_proxy::long_rewritten(b, name_b) is Some,
    ensures
        yaml::lookup(YamlView::Table(docker_proxy::long_rewritten(a, name_a)->0), "source"@)
            != yaml::lookup(YamlView::Table(docker_proxy::long_rewritten(b, name_b)->0), "source"@),
{
    lemma_source_is_scoped(a, name_a);
    lemma_source_is_scoped(b, name_b);
    let i = yaml::key_index(a, "source"@)->0;
    let j = yaml::key_index(b, "source"@)->0;
    law_scoped_names_differ(a[i].1->Text_0, b[j].1->Text_0, name_a, name_b);
}

/// The source of a long-form volume after rewriting.
proof fn lemma_source_is_scoped(entries: Seq<(YamlView, YamlView)>, name: Seq<char>)
    requires
        docker_proxy::long_rewritten(entries, name) is Some,
    ensures
        yaml::key_index(entries, "source"@) matches Some(i) && yaml::lookup(
            YamlView::Table(docker_proxy::long_rewritten(entries, name)->0),
            "source"@,
        ) == Some(YamlView::Text(entries[i].1->Text_0 + docker_proxy::suffix(name))),
{
    yaml::lemma_key_index_found(entries, "source"@);
    let i = yaml::key_index(entries, "source"@)->0;
    let value = YamlView::Text(entries[i].1->Text_0 + docker_proxy::suffix(name));
    yaml::lemma_key_index_after_update(entries, i, value, "source"@);
}

/// Whether no string among the keys is scoped yet.
pub open spec fn unscoped_keys(entries: Seq<(YamlView, YamlView)>) -> bool {
    forall|i: int|
        0 <= i < entries.len() ==> {
            yaml::text_of((#[trigger] entries[i]).0) matches Some(key) ==> !docker_proxy::scoped(
                key,
            )
        }
}

/// Two branches with different names never define a named volume of the same name, unless the
/// compose file scoped one by hand.
pub proof fn law_definitions_are_isolated(
    a: Seq<(YamlView, YamlView)>,
    b: Seq<(YamlView, YamlView)>,
    name_a: Seq<char>,
    name_b: Seq<char>,
    i: int,
    j: int,
)
    requires
        branch::clean(name_a),
        branch::clean(name_b),
        name_a != name_b,
        unscoped_keys(a),
        unscoped_keys(b),
        0 <= i < docker_proxy::definitions_renamed(a, name_a).len(),
        0 <= j < docker_proxy::definitions_renamed(b, name_b).len(),
        docker_proxy::definitions_renamed(a, name_a)[i].0 is Text,
        docker_proxy::definitions_renamed(b, name_b)[j].0 is Text,
    ensures
        docker_proxy::definitions_renamed(a, name_a)[i].0
            != docker_proxy::definitions_renamed(b, name_b)[j].0,
{
    lemma_defined_names(a, name_a, i);
    lemma_defined_names(b, name_b, j);
    let key_a = docker_proxy::definitions_renamed(a, name_a)[i].0->Text_0;
    let key_b = docker_proxy::definitions_renamed(b, name_b)[j].0->Text_0;
    let x = choose|x: Seq<char>| key_a == #[trigger] (x + docker_proxy::suffix(name_a));
    let y = choose|y: Seq<char>| key_b == #[trigger] (y + docker_proxy::suffix(name_b));
    law_scoped_names_differ(x, y, name_a, name_b);
}

/// Every string among the keys of renamed definitions is a scoped name.
proof fn lemma_defined_names(entries: Seq<(YamlView, YamlView)>, name: Seq<char>, i: int)
    requires
        unscoped_keys(entries),
        0 <= i < docker_proxy::definitions_renamed(entries, name).len(),
    ensures
        docker_proxy::definitions_renamed(entries, name)[i].0 matches YamlView::Text(key)
            ==> exists|x: Seq<char>| key == #[trigger] (x + docker_proxy::suffix(name)),
    decreases entries.len(),
{
    let front = entries.drop_last();
    let before = docker_proxy::definitions_renamed(front, name);
    let (key, value) = entries.last();
    assert(forall|k: int| 0 <= k < front.len() ==> #[trigger] front[k] == entries[k]);
    assert(entries[entries.len() - 1].0 == key);
    match yaml::text_of(key) {
        Some(n) => {
            let new_name = n + docker_proxy::suffix(name);
            yaml::lemma_key_index_found(before, new_name);
            if i < before.len() {
                lemma_defined_names(front, name, i);
            }
        },
        None => {
            if i < before.len() {
                lemma_defined_names(front, name, i);
            }
        },
    }
}

/// A scoped name is never a name that holds no delimiter, so it does not collide with a volume
/// that someone named by hand.
pub proof fn law_scoped_name_is_no_plain_name(a: Seq<char>, name: Seq<char>, plain: Seq<char>)
    requires
        !docker_proxy::scoped(plain),
    ensures
        docker_proxy::scoped(a + docker_proxy::suffix(name)),
        a + docker_proxy::suffix(name) != plain,
{
    lemma_delimited(a, name);
    assert(a + docker_proxy::suffix(name) =~= a + "--warp--"@ + name);
}

/// A volume that was scoped is not scoped again, for no branch.
pub proof fn law_short_volume_is_scoped_once(volume: Seq<char>, name: Seq<char>, other: Seq<char>)
    requires
        docker_proxy::short_rewritten(volume, name) is Some,
    ensures
        docker_proxy::short_rewritten(docker_proxy::short_rewritten(volume, name)->0, other)
            is None,
{
    reveal_strlit("--warp--");
    text::lemma_first_index_found(volume, ':');
    let k = text::first_index(volume, ':') as int;
    let host = docker_proxy::host_part(volume);
    let after = docker_proxy::short_rewritten(volume, name)->0;
    assert(after == host + docker_proxy::suffix(name) + volume.skip(k));
    text::lemma_first_index_found(after, ':');
    let m = text::first_index(after, ':') as int;
    let n = host.len() + 8;
    if m < n {
        if m < host.len() {
            assert(after[m] == volume[m]);
        } else {
            assert(after[m] == "--warp--"@[m - host.len()]);
        }
    }
    assert(docker_proxy::host_part(after) =~= host + "--warp--"@ + after.subrange(n as int, m));
    lemma_delimited(host, after.subrange(n as int, m));
}

/// A volume of a service that was rewritten is not rewritten again, for no branch.
pub proof fn law_volume_is_rewritten_once(v: YamlView, name: Seq<char>, other: Seq<char>)
    ensures
        docker_proxy::volume_rewritten(v, name) != v ==> docker_proxy::volume_rewritten(
            docker_proxy::volume_rewritten(v, name),
            other,
        ) == docker_proxy::volume_rewritten(v, name),
{
    match v {
        YamlView::Text(s) => {
            if docker_proxy::short_rewritten(s, name) is Some {
                law_short_volume_is_scoped_once(s, name, other);
            }
        },
        YamlView::Table(entries) => {
            yaml::lemma_key_index_found(entries, "source"@);
            if let Some(i) = yaml::key_index(entries, "source"@) {
                if let YamlView::Text(s) = entries[i].1 {
                    let t = s + docker_proxy::suffix(name);
                    assert(t =~= s + "--warp--"@ + name);
                    lemma_delimited(s, name);
                    yaml::lemma_key_index_after_update(entries, i, YamlView::Text(t), "source"@);
                }
            }
        },
        _ => {},
    }
}

/// A volume of a service that rewriting leaves alone is left alone for every branch.
proof fn lemma_left_alone(v: YamlView, name: Seq<char>, other: Seq<char>)
    requires
        docker_proxy::volume_rewritten(v, name) == v,
    ensures
        docker_proxy::volume_rewritten(v, other) == v,
{
    reveal_strlit("--warp--");
    match v {
        YamlView::Text(s) => {
            text::lemma_first_index_found(s, ':');
            if let Some(t) = docker_proxy::short_rewritten(s, name) {
                assert(t.len() == s.len() + 8 + name.len());
            }
        },
        YamlView::Table(entries) => {
            yaml::lemma_key_index_found(entries, "source"@);
            if let Some(i) = yaml::key_index(entries, "source"@) {
                if let YamlView::Text(s) = entries[i].1 {
                    let t = s + docker_proxy::suffix(name);
                    assert(t.len() > s.len());
                    let after = entries.update(i, (entries[i].0, YamlView::Text(t)));
                    assert(after[i].1 != entries[i].1);
                }
            }
        },
        _ => {},
    }
}

/// Once a volume is rewritten for a branch, rewriting it for any branch leaves it alone.
proof fn lemma_volume_settles(v: YamlView, name: Seq<char>, other: Seq<char>)
    ensures
        docker_proxy::volume_rewritten(docker_proxy::volume_rewritten(v, name), other)
            == docker_proxy::volume_rewritten(v, name),
{
    law_volume_is_rewritten_once(v, name, other);
    if docker_proxy::volume_rewritten(v, name) == v {
        lemma_left_alone(v, name, other);
    }
}

proof fn lemma_list_settles(v: YamlView, name: Seq<char>, other: Seq<char>)
    ensures
        docker_proxy::list_rewritten(docker_proxy::list_rewritten(v, name), other)
            == docker_proxy::list_rewritten(v, name),
    decreases v,
{
    match v {
        YamlView::Tagged(_, inner) => lemma_list_settles(*inner, name, other),
        YamlView::List(items) => {
            let once = docker_proxy::list_rewritten(v, name)->List_0;
            let twice = docker_proxy::list_rewritten(YamlView::List(once), other)->List_0;
            assert forall|j: int| 0 <= j < items.len() implies once[j] == twice[j] by {
                lemma_volume_settles(items[j], name, other);
            }
            assert(once =~= twice);
        },
        _ => {},
    }
}

proof fn lemma_service_settles(v: YamlView, name: Seq<char>, other: Seq<char>)
    ensures
        docker_proxy::service_rewritten(docker_proxy::service_rewritten(v, name), other)
            == docker_proxy::service_rewritten(v, name),
    decreases v,
{
    match v {
        YamlView::Tagged(_, inner) => lemma_service_settles(*inner, name, other),
        YamlView::Table(entries) => {
            yaml::lemma_key_index_found(entries, "volumes"@);
            if let Some(i) = yaml::key_index(entries, "volumes"@) {
                let list = docker_proxy::list_rewritten(entries[i].1, name);
                yaml::lemma_key_index_after_update(entries, i, list, "volumes"@);
                lemma_list_settles(entries[i].1, name, other);
                let once = entries.update(i, (entries[i].0, list));
                assert(once.update(i, (once[i].0, list)) =~= once);
            }
        },
        _ => {},
    }
}

/// Rewriting services that were rewritten before changes nothing, whichever branch it is for.
pub proof fn law_services_are_rewritten_once(v: YamlView, name: Seq<char>, other: Seq<char>)
    ensures
        docker_proxy::services_rewritten(docker_proxy::services_rewritten(v, name), other)
            == docker_proxy::services_rewritten(v, name),
    decreases v,
{
    match v {
        YamlView::Tagged(_, inner) => law_services_are_rewritten_once(*inner, name, other),
        YamlView::Table(entries) => {
            let once = docker_proxy::services_rewritten(v, name)->Table_0;
            let twice = docker_proxy::services_rewritten(YamlView::Table(once), other)->Table_0;
            assert forall|j: int| 0 <= j < entries.len() implies once[j] == twice[j] by {
                lemma_service_settles(entries[j].1, name, other);
            }
            assert(once =~= twice);
        },
        _ => {},
    }
}

/// A short-form volume after rewriting, be it changed or not.
pub open spec fn volume_after(volume: Seq<char>, name: Seq<char>) -> Seq<char> {
    match docker_proxy::short_rewritten(volume, name) {
        Some(after) => after,
        None => volume,
    }
}

/// The definition of a named volume is found under the name that a reference to it has after
/// rewriting, whether the two were scoped before or not.
pub proof fn law_reference_finds_definition(
    entries: Seq<(YamlView, YamlView)>,
    volume: Seq<char>,
    name: Seq<char>,
    i: int,
)
    requires
        branch::clean(name),
        text::first_index(volume, ':') < volume.len(),
        0 <= i < entries.len(),
        entries[i].0 == YamlView::Text(docker_proxy::host_part(volume)),
    ensures
        yaml::key_index(
            docker_proxy::definitions_renamed(entries, name),
            docker_proxy::host_part(volume_after(volume, name)),
        ) is Some,
{
    if docker_proxy::short_rewritten(volume, name) is Some {
        law_only_the_host_part_changes(volume, name);
    }
    lemma_definition_is_renamed(entries, docker_proxy::host_part(volume), name, i);
}

/// The same holds of the `source` of a long-form volume.
pub proof fn law_source_finds_definition(
    entries: Seq<(YamlView, YamlView)>,
    volume: Seq<(YamlView, YamlView)>,
    source: Seq<char>,
    name: Seq<char>,
    i: int,
)
    requires
        yaml::lookup(YamlView::Table(volume), "source"@) == Some(YamlView::Text(source)),
        0 <= i < entries.len(),
        entries[i].0 == YamlView::Text(source),
    ensures
        yaml::lookup(
            docker_proxy::volume_rewritten(YamlView::Table(volume), name),
            "source"@,
        ) matches Some(YamlView::Text(after)) && yaml::key_index(
            docker_proxy::definitions_renamed(entries, name),
            after,
        ) is Some,
{
    if docker_proxy::long_rewritten(volume, name) is Some {
        lemma_source_is_scoped(volume, name);
    }
    lemma_definition_is_renamed(entries, source, name, i);
}

proof fn lemma_definition_is_renamed(
    entries: Seq<(YamlView, YamlView)>,
    defined: Seq<char>,
    name: Seq<char>,
    i: int,
)
    requires
        0 <= i < entries.len(),
        entries[i].0 == YamlView::Text(defined),
    ensures
        yaml::key_index(
            docker_proxy::definitions_renamed(entries, name),
            docker_proxy::scoped_to(defined, name),
        ) is Some,
    decreases entries.len(),
{
    let key = docker_proxy::scoped_to(defined, name);
    let front = entries.drop_last();
    let before = docker_proxy::definitions_renamed(front, name);
    let after = docker_proxy::definitions_renamed(entries, name);
    let (last_key, last_value) = entries.last();
    if i < front.len() {
        lemma_definition_is_renamed(front, defined, name, i);
        yaml::lemma_key_index_found(before, key);
        let k = yaml::key_index(before, key)->0;
        if let Some(last_name) = yaml::text_of(last_key) {
            yaml::lemma_key_index_found(before, docker_proxy::scoped_to(last_name, name));
        }
        assert(after[k].0 == YamlView::Text(key));
    } else {
        yaml::lemma_key_index_found(before, key);
        let k = match yaml::key_index(before, key) {
            Some(k) => k,
            None => before.len() as int,
        };
        assert(after[k].0 == YamlView::Text(key));
    }
    yaml::lemma_key_index_found(after, key);
}

/// Where every definition has a string for its key, and no two come to the same name, renaming
/// keeps their number, their order and what they define, and scopes each key.
pub proof fn law_definitions_keep_their_place(entries: Seq<(YamlView, YamlView)>, name: Seq<char>)
    requires
        forall|i: int| 0 <= i < entries.len() ==> (#[trigger] entries[i]).0 is Text,
        forall|i: int, j: int|
            0 <= i < j < entries.len() ==> docker_proxy::scoped_to(
                (#[trigger] entries[i]).0->Text_0,
                name,
            ) != docker_proxy::scoped_to((#[trigger] entries[j]).0->Text_0, name),
    ensures
        docker_proxy::definitions_renamed(entries, name) == entries.map_values(
            |e: (YamlView, YamlView)|
                (YamlView::Text(docker_proxy::scoped_to(e.0->Text_0, name)), e.1),
        ),
    decreases entries.len(),
{
    let renamed = entries.map_values(
        |e: (YamlView, YamlView)|
            (YamlView::Text(docker_proxy::scoped_to(e.0->Text_0, name)), e.1),
    );
    if entries.len() == 0 {
        assert(entries =~= renamed);
    } else {
        let front = entries.drop_last();
        assert(forall|i: int| 0 <= i < front.len() ==> #[trigger] front[i] == entries[i]);
        law_definitions_keep_their_place(front, name);
        let before = docker_proxy::definitions_renamed(front, name);
        let last = entries.last().0->Text_0;
        let key = docker_proxy::scoped_to(last, name);
        assert(entries[entries.len() - 1].0 == YamlView::Text(last));
        assert(yaml::text_of(entries.last().0) == Some(last));
        assert forall|j: int| 0 <= j < before.len() implies (#[trigger] before[j]).0
            != YamlView::Text(key) by {
            assert(front[j] == entries[j]);
            assert(before[j].0 == YamlView::Text(
                docker_proxy::scoped_to(entries[j].0->Text_0, name),
            ));
        }
        yaml::lemma_key_index(before, key, before.len() as int);
        assert(docker_proxy::definitions_renamed(entries, name) =~= renamed);
    }
}

/// Whether renaming has nothing to do with these definitions: every string among their keys is
/// scoped.
spec fn settled(entries: Seq<(YamlView, YamlView)>) -> bool {
    forall|i: int|
        0 <= i < entries.len() ==> !docker_proxy::is_renamed((#[trigger] entries[i]).0)
}

proof fn lemma_renamed_is_settled(entries: Seq<(YamlView, YamlView)>, name: Seq<char>)
    ensures
        settled(docker_proxy::definitions_renamed(entries, name)),
    decreases entries.len(),
{
    if entries.len() > 0 {
        let before = docker_proxy::definitions_renamed(entries.drop_last(), name);
        lemma_renamed_is_settled(entries.drop_last(), name);
        if let Some(last) = yaml::text_of(entries.last().0) {
            let key = docker_proxy::scoped_to(last, name);
            yaml::lemma_key_index_found(before, key);
            assert(docker_proxy::scoped(key)) by {
                lemma_delimited(last, name);
                assert(last + docker_proxy::suffix(name) =~= last + "--warp--"@ + name);
            }
            assert(yaml::text_of(YamlView::Text(key)) == Some(key));
        }
    }
}

proof fn lemma_settled_stays(entries: Seq<(YamlView, YamlView)>, name: Seq<char>)
    requires
        settled(entries),
        yaml::distinct_keys(entries),
    ensures
        docker_proxy::definitions_renamed(entries, name) == entries,
    decreases entries.len(),
{
    if entries.len() > 0 {
        let front = entries.drop_last();
        assert(forall|i: int| 0 <= i < front.len() ==> #[trigger] front[i] == entries[i]);
        lemma_settled_stays(front, name);
        let (key, value) = entries.last();
        assert(!docker_proxy::is_renamed(entries[entries.len() - 1].0));
        if let YamlView::Text(last) = key {
            assert forall|j: int| 0 <= j < front.len() implies (#[trigger] front[j]).0
                != YamlView::Text(last) by {
                assert(yaml::keys_differ(entries[j].0, entries[entries.len() - 1].0));
            }
            yaml::lemma_key_index(front, last, front.len() as int);
        }
        assert(front.push((key, value)) =~= entries);
    }
}

/// Definitions that were renamed are not renamed again, whichever branch it is for.
pub proof fn law_definitions_are_renamed_once(
    entries: Seq<(YamlView, YamlView)>,
    name: Seq<char>,
    other: Seq<char>,
)
    requires
        yaml::sound(YamlView::Table(entries)),
    ensures
        docker_proxy::definitions_renamed(docker_proxy::definitions_renamed(entries, name), other)
            == docker_proxy::definitions_renamed(entries, name),
        docker_proxy::named_definitions(docker_proxy::definitions_renamed(entries, name)) == 0,
{
    docker_proxy::lemma_definitions_are_sound(entries, name);
    lemma_renamed_is_settled(entries, name);
    lemma_settled_stays(docker_proxy::definitions_renamed(entries, name), other);
    lemma_settled_counts(docker_proxy::definitions_renamed(entries, name));
}

proof fn lemma_settled_counts(entries: Seq<(YamlView, YamlView)>)
    requires
        settled(entries),
    ensures
        docker_proxy::named_definitions(entries) == 0,
    decreases entries.len(),
{
    if entries.len() > 0 {
        let front = entries.drop_last();
        assert(forall|i: int| 0 <= i < front.len() ==> #[trigger] front[i] == entries[i]);
        lemma_settled_counts(front);
        assert(!docker_proxy::is_renamed(entries[entries.len() - 1].0));
    }
}

/// A compose file that was rewritten is not changed by rewriting it again, whichever branch it
/// is for.
pub proof fn law_document_is_rewritten_once(doc: YamlView, name: Seq<char>, other: Seq<char>)
    requires
        yaml::sound(doc),
    ensures
        docker_proxy::document_rewritten(docker_proxy::document_rewritten(doc, name), other)
            == docker_proxy::document_rewritten(doc, name),
    decreases doc,
{
    match doc {
        YamlView::Tagged(_, inner) => law_document_is_rewritten_once(*inner, name, other),
        YamlView::Table(entries) => lemma_sections_settle(entries, name, other),
        _ => {},
    }
}

proof fn lemma_sections_settle(
    entries: Seq<(YamlView, YamlView)>,
    name: Seq<char>,
    other: Seq<char>,
)
    requires
        yaml::sound(YamlView::Table(entries)),
    ensures
        ({
            let once = docker_proxy::volumes_section_rewritten(
                docker_proxy::services_section_rewritten(entries, name),
                name,
            );
            &&& docker_proxy::services_section_rewritten(once, other) == once
            &&& docker_proxy::volumes_section_rewritten(once, other) == once
        }),
{
    reveal_strlit("services");
    reveal_strlit("volumes");
    assert("services"@.len() != "volumes"@.len());
    let middle = docker_proxy::services_section_rewritten(entries, name);
    let once = docker_proxy::volumes_section_rewritten(middle, name);
    yaml::lemma_key_index_found(entries, "services"@);
    yaml::lemma_key_index_found(entries, "volumes"@);
    if let Some(i) = yaml::key_index(entries, "services"@) {
        let value = docker_proxy::services_rewritten(entries[i].1, name);
        yaml::lemma_key_index_after_update(entries, i, value, "services"@);
        yaml::lemma_key_index_after_update(entries, i, value, "volumes"@);
        law_services_are_rewritten_once(entries[i].1, name, other);
    }
    yaml::lemma_key_index_found(middle, "services"@);
    yaml::lemma_key_index_found(middle, "volumes"@);
    if let Some(j) = yaml::key_index(middle, "volumes"@) {
        let v = middle[j].1;
        assert(v == entries[j].1);
        let value = docker_proxy::definitions_rewritten(v, name);
        yaml::lemma_key_index_after_update(middle, j, value, "services"@);
        yaml::lemma_key_index_after_update(middle, j, value, "volumes"@);
        assert(yaml::sound(entries[j].1));
        docker_proxy::lemma_untagged_is_sound(v);
        if let YamlView::Table(definitions) = yaml::untagged(v) {
            law_definitions_are_renamed_once(definitions, name, other);
        }
        assert(docker_proxy::definitions_rewritten(value, other) == value);
        assert(once[j] == (middle[j].0, value));
        assert(once.update(j, (once[j].0, value)) =~= once);
    }
    if let Some(i) = yaml::key_index(entries, "services"@) {
        let value = docker_proxy::services_rewritten(entries[i].1, name);
        assert(once[i] == (entries[i].0, value));
        assert(once.update(i, (once[i].0, value)) =~= once);
    }
}

/// Whatever a compose file holds under another top-level key than `services` and `volumes`
/// stays as it was.
pub proof fn law_other_sections_are_kept(doc: YamlView, name: Seq<char>, key: Seq<char>)
    requires
        key != "services"@,
        key != "volumes"@,
    ensures
        yaml::lookup(docker_proxy::document_rewritten(doc, name), key) == yaml::lookup(doc, key),
    decreases doc,
{
    match doc {
        YamlView::Tagged(_, inner) => law_other_sections_are_kept(*inner, name, key),
        YamlView::Table(entries) => {
            let middle = docker_proxy::services_section_rewritten(entries, name);
            yaml::lemma_key_index_found(entries, "services"@);
            yaml::lemma_key_index_found(entries, key);
            if let Some(i) = yaml::key_index(entries, "services"@) {
                yaml::lemma_key_index_after_update(
                    entries,
                    i,
                    docker_proxy::services_rewritten(entries[i].1, name),
                    key,
                );
            }
            yaml::lemma_key_index_found(middle, "volumes"@);
            yaml::lemma_key_index_found(middle, key);
            if let Some(i) = yaml::key_index(middle, "volumes"@) {
                yaml::lemma_key_index_after_update(
                    middle,
                    i,
                    docker_proxy::definitions_rewritten(middle[i].1, name),
                    key,
                );
            }
        },
        _ => {},
    }
}

/// The rewritten compose files of two branches never get the same name, whatever the compose
/// files are.
pub proof fn law_compose_files_are_apart(
    path_a: Seq<char>,
    path_b: Seq<char>,
    name_a: Seq<char>,
    name_b: Seq<char>,
)
    requires
        name_a != name_b,
        hashing::sha256(vstd::utf8::encode_utf8(path_a)).len() == 32,
        hashing::sha256(vstd::utf8::encode_utf8(path_b)).len() == 32,
    ensures
        docker_proxy::compose_file_name(name_a, path_a) != docker_proxy::compose_file_name(
            name_b,
            path_b,
        ),
{
    reveal_strlit("docker-compose--");
    let a = docker_proxy::compose_file_name(name_a, path_a);
    let b = docker_proxy::compose_file_name(name_b, path_b);
    let n = "docker-compose--"@.len() as int;
    if a == b {
        assert(a.len() == n + name_a.len() + "--"@.len() + 8 + ".yml"@.len());
        assert(b.len() == n + name_b.len() + "--"@.len() + 8 + ".yml"@.len());
        assert(a.subrange(n, n + name_a.len()) =~= name_a);
        assert(b.subrange(n, n + name_b.len()) =~= name_b);
    }
}

// ── Every volume is scoped ───────────────────────────────────────────────────────────────
/// Scoping puts the delimiter and the branch behind a name, unless the name holds the delimiter
/// already, with whatever around it.
pub proof fn law_scoping(name: Seq<char>, scope: Seq<char>)
    ensures
        docker_proxy::suffix(scope) == "--warp--"@ + scope,
        docker_proxy::scoped(name) <==> exists|a: Seq<char>, b: Seq<char>|
            name == #[trigger] (a + "--warp--"@ + b),
        docker_proxy::scoped(name) ==> docker_proxy::scoped_to(name, scope) == name,
        !docker_proxy::scoped(name) ==> docker_proxy::scoped_to(name, scope) == name + "--warp--"@
            + scope,
{
    text::law_contains(name, "--warp--"@);
    assert(name + docker_proxy::suffix(scope) =~= name + "--warp--"@ + scope);
}

/// A short-form volume is cut at its first colon.
proof fn lemma_cut(host: Seq<char>, rest: Seq<char>)
    requires
        forall|i: int| 0 <= i < host.len() ==> host[i] != ':',
    ensures
        ({
            let s = host + seq![':'] + rest;
            &&& text::first_index(s, ':') == host.len()
            &&& docker_proxy::host_part(s) == host
            &&& s.skip(host.len() as int) == seq![':'] + rest
        }),
{
    let s = host + seq![':'] + rest;
    assert forall|j: int| 0 <= j < host.len() implies s[j] != ':' by {
        assert(s[j] == host[j]);
    }
    text::lemma_first_index(s, ':', host.len() as int);
    assert(docker_proxy::host_part(s) =~= host);
    assert(s.skip(host.len() as int) =~= seq![':'] + rest);
}

/// Every short-form volume with a colon has its host part scoped to the branch, be it a path or a
/// name, unless it is scoped already, and everything from the first colon on stays. One without
/// a colon stays as it is.
pub proof fn law_short_volume_is_scoped(
    host: Seq<char>,
    rest: Seq<char>,
    scope: Seq<char>,
)
    requires
        forall|i: int| 0 <= i < host.len() ==> host[i] != ':',
    ensures
        ({
            let before = host + seq![':'] + rest;
            let after = host + "--warp--"@ + scope + seq![':'] + rest;
            &&& docker_proxy::host_part(before) == host
            &&& !docker_proxy::scoped(host) ==> {
                &&& docker_proxy::short_rewritten(before, scope) == Some(after)
                &&& docker_proxy::volume_rewritten(YamlView::Text(before), scope)
                    == YamlView::Text(after)
            }
            &&& docker_proxy::scoped(host) ==> {
                &&& docker_proxy::short_rewritten(before, scope) is None
                &&& docker_proxy::volume_rewritten(YamlView::Text(before), scope)
                    == YamlView::Text(before)
            }
            &&& docker_proxy::short_rewritten(host, scope) is None
            &&& docker_proxy::volume_rewritten(YamlView::Text(host), scope) == YamlView::Text(host)
        }),
{
    lemma_cut(host, rest);
    let after = host + "--warp--"@ + scope + seq![':'] + rest;
    assert(host + docker_proxy::suffix(scope) + (seq![':'] + rest) =~= after);
    text::lemma_first_index(host, ':', host.len() as int);
}

/// Every long-form volume whose first `source` is a string has it scoped to the branch, unless it
/// is scoped already, and nothing else of it changes. Without such a source it stays as it is.
pub proof fn law_long_volume_is_scoped(
    entries: Seq<(YamlView, YamlView)>,
    i: int,
    scope: Seq<char>,
)
    requires
        0 <= i <= entries.len(),
        forall|j: int| 0 <= j < i ==> (#[trigger] entries[j]).0 != YamlView::Text("source"@),
        i < entries.len() ==> entries[i].0 == YamlView::Text("source"@),
    ensures
        ({
            let changes = i < entries.len() && entries[i].1 is Text && !docker_proxy::scoped(
                entries[i].1->Text_0,
            );
            let v = docker_proxy::volume_rewritten(YamlView::Table(entries), scope);
            &&& docker_proxy::long_rewritten(entries, scope) is Some <==> changes
            &&& !changes ==> v == YamlView::Table(entries)
            &&& changes ==> {
                &&& v matches YamlView::Table(after)
                &&& docker_proxy::long_rewritten(entries, scope) == Some(after)
                &&& after.len() == entries.len()
                &&& after[i].0 == entries[i].0
                &&& after[i].1 == YamlView::Text(entries[i].1->Text_0 + "--warp--"@ + scope)
                &&& forall|j: int|
                    0 <= j < entries.len() && j != i ==> #[trigger] after[j] == entries[j]
            }
        }),
{
    yaml::lemma_key_index(entries, "source"@, i);
    if i < entries.len() {
        if let YamlView::Text(s) = entries[i].1 {
            assert(s + docker_proxy::suffix(scope) =~= s + "--warp--"@ + scope);
        }
    }
}

/// What is neither a short-form nor a long-form volume stays as it is.
pub proof fn law_no_volume_is_kept(v: YamlView, scope: Seq<char>)
    requires
        !(v is Text),
        !(v is Table),
    ensures
        docker_proxy::volume_rewritten(v, scope) == v,
{
}

/// Each item of a list of volumes is rewritten, in its place. A tag stays, and what is no list
/// stays as it is.
pub proof fn law_list_is_rewritten(
    items: Seq<YamlView>,
    i: int,
    tag: serde_yaml::value::Tag,
    v: YamlView,
    scope: Seq<char>,
)
    ensures
        docker_proxy::list_rewritten(YamlView::List(items), scope) matches YamlView::List(after)
            && after.len() == items.len() && (0 <= i < items.len() ==> after[i]
            == docker_proxy::volume_rewritten(items[i], scope)),
        docker_proxy::list_rewritten(YamlView::Tagged(tag, Box::new(v)), scope)
            == YamlView::Tagged(tag, Box::new(docker_proxy::list_rewritten(v, scope))),
        !(v is List) && !(v is Tagged) ==> docker_proxy::list_rewritten(v, scope) == v,
{
}

/// Of a service the list under its first key `volumes` is rewritten, and nothing else. A tag
/// stays, and what is no table stays as it is.
pub proof fn law_service_is_rewritten(
    fields: Seq<(YamlView, YamlView)>,
    k: int,
    i: int,
    tag: serde_yaml::value::Tag,
    v: YamlView,
    scope: Seq<char>,
)
    requires
        0 <= k <= fields.len(),
        forall|j: int| 0 <= j < k ==> (#[trigger] fields[j]).0 != YamlView::Text("volumes"@),
        k < fields.len() ==> fields[k].0 == YamlView::Text("volumes"@),
    ensures
        docker_proxy::service_rewritten(YamlView::Table(fields), scope) matches YamlView::Table(
            after,
        ) && after.len() == fields.len() && (0 <= i < fields.len() ==> after[i].0 == fields[i].0
            && after[i].1 == if i == k {
            docker_proxy::list_rewritten(fields[i].1, scope)
        } else {
            fields[i].1
        }),
        docker_proxy::service_rewritten(YamlView::Tagged(tag, Box::new(v)), scope)
            == YamlView::Tagged(tag, Box::new(docker_proxy::service_rewritten(v, scope))),
        !(v is Table) && !(v is Tagged) ==> docker_proxy::service_rewritten(v, scope) == v,
{
    yaml::lemma_key_index(fields, "volumes"@, k);
}

/// Each service is rewritten, under its name. A tag stays, and what is no table stays as it is.
pub proof fn law_services_are_rewritten(
    services: Seq<(YamlView, YamlView)>,
    i: int,
    tag: serde_yaml::value::Tag,
    v: YamlView,
    scope: Seq<char>,
)
    ensures
        docker_proxy::services_rewritten(YamlView::Table(services), scope) matches YamlView::Table(
            after,
        ) && after.len() == services.len() && (0 <= i < services.len() ==> after[i] == (
            services[i].0,
            docker_proxy::service_rewritten(services[i].1, scope),
        )),
        docker_proxy::services_rewritten(YamlView::Tagged(tag, Box::new(v)), scope)
            == YamlView::Tagged(tag, Box::new(docker_proxy::services_rewritten(v, scope))),
        !(v is Table) && !(v is Tagged) ==> docker_proxy::services_rewritten(v, scope) == v,
{
}

/// Of a document what is under its first keys `services` and `volumes` is rewritten, and nothing
/// else. A tag stays, and what is no table stays as it is.
pub proof fn law_document_is_rewritten(
    entries: Seq<(YamlView, YamlView)>,
    s: int,
    d: int,
    i: int,
    tag: serde_yaml::value::Tag,
    v: YamlView,
    scope: Seq<char>,
)
    requires
        0 <= s <= entries.len(),
        forall|j: int| 0 <= j < s ==> (#[trigger] entries[j]).0 != YamlView::Text("services"@),
        s < entries.len() ==> entries[s].0 == YamlView::Text("services"@),
        0 <= d <= entries.len(),
        forall|j: int| 0 <= j < d ==> (#[trigger] entries[j]).0 != YamlView::Text("volumes"@),
        d < entries.len() ==> entries[d].0 == YamlView::Text("volumes"@),
    ensures
        docker_proxy::document_rewritten(YamlView::Table(entries), scope) matches YamlView::Table(
            after,
        ) && after.len() == entries.len() && (0 <= i < entries.len() ==> after[i].0 == entries[i].0
            && after[i].1 == if i == s {
            docker_proxy::services_rewritten(entries[i].1, scope)
        } else if i == d {
            docker_proxy::definitions_rewritten(entries[i].1, scope)
        } else {
            entries[i].1
        }),
        docker_proxy::document_rewritten(YamlView::Tagged(tag, Box::new(v)), scope)
            == YamlView::Tagged(tag, Box::new(docker_proxy::document_rewritten(v, scope))),
        !(v is Table) && !(v is Tagged) ==> docker_proxy::document_rewritten(v, scope) == v,
{
    reveal_strlit("services");
    reveal_strlit("volumes");
    assert("services"@.len() != "volumes"@.len());
    yaml::lemma_key_index(entries, "services"@, s);
    yaml::lemma_key_index(entries, "volumes"@, d);
    let middle = docker_proxy::services_section_rewritten(entries, scope);
    if s < entries.len() {
        yaml::lemma_key_index_after_update(
            entries,
            s,
            docker_proxy::services_rewritten(entries[s].1, scope),
            "volumes"@,
        );
    }
    assert(yaml::key_index(middle, "volumes"@) == yaml::key_index(entries, "volumes"@));
}

/// Every short-form volume of every service of a compose file is scoped to the branch, in its
/// place, whether its host part is a path or a name.
pub proof fn law_every_volume_of_a_service_is_scoped(
    entries: Seq<(YamlView, YamlView)>,
    s: int,
    services: Seq<(YamlView, YamlView)>,
    j: int,
    fields: Seq<(YamlView, YamlView)>,
    k: int,
    items: Seq<YamlView>,
    m: int,
    host: Seq<char>,
    rest: Seq<char>,
    scope: Seq<char>,
)
    requires
        yaml::key_index(entries, "services"@) == Some(s),
        entries[s].1 == YamlView::Table(services),
        0 <= j < services.len(),
        services[j].1 == YamlView::Table(fields),
        yaml::key_index(fields, "volumes"@) == Some(k),
        fields[k].1 == YamlView::List(items),
        0 <= m < items.len(),
        items[m] == YamlView::Text(host + seq![':'] + rest),
        forall|i: int| 0 <= i < host.len() ==> host[i] != ':',
        forall|a: Seq<char>, b: Seq<char>| host != #[trigger] (a + "--warp--"@ + b),
    ensures
        ({
            &&& docker_proxy::document_rewritten(
                YamlView::Table(entries),
                scope,
            ) matches YamlView::Table(after)
            &&& after[s].1 matches YamlView::Table(services_after)
            &&& services_after[j].0 == services[j].0
            &&& services_after[j].1 matches YamlView::Table(fields_after)
            &&& fields_after[k].1 matches YamlView::List(items_after)
            &&& items_after.len() == items.len()
            &&& items_after[m] == YamlView::Text(host + "--warp--"@ + scope + seq![':'] + rest)
        }),
{
    yaml::lemma_key_index_found(entries, "services"@);
    yaml::lemma_key_index_found(entries, "volumes"@);
    yaml::lemma_key_index_found(fields, "volumes"@);
    let d = match yaml::key_index(entries, "volumes"@) {
        Some(d) => d,
        None => entries.len() as int,
    };
    let tag: serde_yaml::value::Tag = arbitrary();
    law_scoping(host, scope);
    law_document_is_rewritten(entries, s, d, s, tag, YamlView::Null, scope);
    law_services_are_rewritten(services, j, tag, YamlView::Null, scope);
    law_service_is_rewritten(fields, k, k, tag, YamlView::Null, scope);
    law_list_is_rewritten(items, m, tag, YamlView::Null, scope);
    law_short_volume_is_scoped(host, rest, scope);
}

/// Every long-form volume of every service of a compose file has its source scoped to the branch.
pub proof fn law_every_source_of_a_service_is_scoped(
    entries: Seq<(YamlView, YamlView)>,
    s: int,
    services: Seq<(YamlView, YamlView)>,
    j: int,
    fields: Seq<(YamlView, YamlView)>,
    k: int,
    items: Seq<YamlView>,
    m: int,
    volume: Seq<(YamlView, YamlView)>,
    n: int,
    source: Seq<char>,
    scope: Seq<char>,
)
    requires
        yaml::key_index(entries, "services"@) == Some(s),
        entries[s].1 == YamlView::Table(services),
        0 <= j < services.len(),
        services[j].1 == YamlView::Table(fields),
        yaml::key_index(fields, "volumes"@) == Some(k),
        fields[k].1 == YamlView::List(items),
        0 <= m < items.len(),
        items[m] == YamlView::Table(volume),
        yaml::key_index(volume, "source"@) == Some(n),
        volume[n].1 == YamlView::Text(source),
        forall|a: Seq<char>, b: Seq<char>| source != #[trigger] (a + "--warp--"@ + b),
    ensures
        ({
            &&& docker_proxy::document_rewritten(
                YamlView::Table(entries),
                scope,
            ) matches YamlView::Table(after)
            &&& after[s].1 matches YamlView::Table(services_after)
            &&& services_after[j].0 == services[j].0
            &&& services_after[j].1 matches YamlView::Table(fields_after)
            &&& fields_after[k].1 matches YamlView::List(items_after)
            &&& items_after.len() == items.len()
            &&& items_after[m] matches YamlView::Table(volume_after)
            &&& volume_after.len() == volume.len()
            &&& volume_after[n].1 == YamlView::Text(source + "--warp--"@ + scope)
        }),
{
    yaml::lemma_key_index_found(entries, "services"@);
    yaml::lemma_key_index_found(entries, "volumes"@);
    yaml::lemma_key_index_found(fields, "volumes"@);
    yaml::lemma_key_index_found(volume, "source"@);
    let d = match yaml::key_index(entries, "volumes"@) {
        Some(d) => d,
        None => entries.len() as int,
    };
    let tag: serde_yaml::value::Tag = arbitrary();
    law_scoping(source, scope);
    law_document_is_rewritten(entries, s, d, s, tag, YamlView::Null, scope);
    law_services_are_rewritten(services, j, tag, YamlView::Null, scope);
    law_service_is_rewritten(fields, k, k, tag, YamlView::Null, scope);
    law_list_is_rewritten(items, m, tag, YamlView::Null, scope);
    law_long_volume_is_scoped(volume, n, scope);
}

/// One more definition comes under its scoped name: in the place of the definition that is there
/// under this name, or else at the end. One whose key is no string, or a scoped one behind a tag,
/// comes at the end as it is.
pub proof fn law_definition_is_renamed(
    entries: Seq<(YamlView, YamlView)>,
    key: YamlView,
    value: YamlView,
    scope: Seq<char>,
    i: int,
)
    ensures
        ({
            let before = docker_proxy::definitions_renamed(entries, scope);
            let after = docker_proxy::definitions_renamed(entries.push((key, value)), scope);
            match yaml::text_of(key) {
                Some(name) if !docker_proxy::scoped(name) || key is Text => {
                    let new_name = if docker_proxy::scoped(name) {
                        name
                    } else {
                        name + "--warp--"@ + scope
                    };
                    let there = YamlView::Text(new_name);
                    &&& (forall|j: int| 0 <= j < before.len() ==> (#[trigger] before[j]).0 != there)
                        ==> after == before.push((there, value))
                    &&& 0 <= i < before.len() && before[i].0 == there && (forall|j: int|
                        0 <= j < i ==> (#[trigger] before[j]).0 != there) ==> after
                        == before.update(i, (there, value))
                },
                _ => after == before.push((key, value)),
            }
        }),
        docker_proxy::definitions_renamed(Seq::empty(), scope).len() == 0,
{
    assert(entries.push((key, value)).drop_last() =~= entries);
    let before = docker_proxy::definitions_renamed(entries, scope);
    if let Some(name) = yaml::text_of(key) {
        let new_name = docker_proxy::scoped_to(name, scope);
        law_scoping(name, scope);
        if forall|j: int| 0 <= j < before.len() ==> (#[trigger] before[j]).0 != YamlView::Text(
            new_name,
        ) {
            yaml::lemma_key_index(before, new_name, before.len() as int);
        }
        if 0 <= i < before.len() && before[i].0 == YamlView::Text(new_name) && (forall|j: int|
            0 <= j < i ==> (#[trigger] before[j]).0 != YamlView::Text(new_name)) {
            yaml::lemma_key_index(before, new_name, i);
        }
    }
}

/// The definitions behind any tags are renamed, and what is no table of definitions stays.
pub proof fn law_definitions_section(
    definitions: Seq<(YamlView, YamlView)>,
    v: YamlView,
    scope: Seq<char>,
)
    ensures
        yaml::untagged(v) == YamlView::Table(definitions) ==> docker_proxy::definitions_rewritten(
            v,
            scope,
        ) == YamlView::Table(docker_proxy::definitions_renamed(definitions, scope)),
        !(yaml::untagged(v) is Table) ==> docker_proxy::definitions_rewritten(v, scope) == v,
{
}

/// Every named volume that a compose file defines is defined under its scoped name afterwards,
/// with the same definition, unless another key comes to the same name.
pub proof fn law_every_definition_is_scoped(
    entries: Seq<(YamlView, YamlView)>,
    d: int,
    definitions: Seq<(YamlView, YamlView)>,
    i: int,
    name: Seq<char>,
    scope: Seq<char>,
)
    requires
        yaml::key_index(entries, "volumes"@) == Some(d),
        entries[d].1 == YamlView::Table(definitions),
        0 <= i < definitions.len(),
        definitions[i].0 == YamlView::Text(name),
        forall|a: Seq<char>, b: Seq<char>| name != #[trigger] (a + "--warp--"@ + b),
        forall|j: int|
            i < j < definitions.len() ==> {
                yaml::text_of((#[trigger] definitions[j]).0) matches Some(other) ==> other != name
                    && other != name + "--warp--"@ + scope
            },
    ensures
        docker_proxy::document_rewritten(YamlView::Table(entries), scope) matches YamlView::Table(
            after,
        ) && yaml::lookup(after[d].1, name + "--warp--"@ + scope) == Some(definitions[i].1),
{
    yaml::lemma_key_index_found(entries, "services"@);
    yaml::lemma_key_index_found(entries, "volumes"@);
    let s = match yaml::key_index(entries, "services"@) {
        Some(s) => s,
        None => entries.len() as int,
    };
    reveal_strlit("services");
    reveal_strlit("volumes");
    assert("services"@.len() != "volumes"@.len());
    let tag: serde_yaml::value::Tag = arbitrary();
    law_document_is_rewritten(entries, s, d, d, tag, YamlView::Null, scope);
    law_scoping(name, scope);
    lemma_definition_stays(definitions, i, name, scope);
}

/// A definition that no later one replaces is there under its scoped name.
proof fn lemma_definition_stays(
    definitions: Seq<(YamlView, YamlView)>,
    i: int,
    name: Seq<char>,
    scope: Seq<char>,
)
    requires
        0 <= i < definitions.len(),
        definitions[i].0 == YamlView::Text(name),
        !docker_proxy::scoped(name),
        forall|j: int|
            i < j < definitions.len() ==> {
                yaml::text_of((#[trigger] definitions[j]).0) matches Some(other) ==> other != name
                    && other != name + "--warp--"@ + scope
            },
    ensures
        ({
            let after = docker_proxy::definitions_renamed(definitions, scope);
            yaml::key_index(after, name + "--warp--"@ + scope) matches Some(k) && after[k].1
                == definitions[i].1
        }),
    decreases definitions.len(),
{
    let new_name = name + "--warp--"@ + scope;
    let front = definitions.drop_last();
    let before = docker_proxy::definitions_renamed(front, scope);
    let after = docker_proxy::definitions_renamed(definitions, scope);
    let (key, value) = definitions.last();
    law_scoping(name, scope);
    yaml::lemma_key_index_found(before, new_name);
    if i == definitions.len() - 1 {
        match yaml::key_index(before, new_name) {
            Some(k) => {
                yaml::lemma_key_index(after, new_name, k);
            },
            None => {
                yaml::lemma_key_index(after, new_name, before.len() as int);
            },
        }
    } else {
        assert(forall|j: int| 0 <= j < front.len() ==> #[trigger] front[j] == definitions[j]);
        lemma_definition_stays(front, i, name, scope);
        let k = yaml::key_index(before, new_name)->0;
        assert(definitions[definitions.len() - 1].0 == key);
        if let Some(other) = yaml::text_of(key) {
            let other_name = docker_proxy::scoped_to(other, scope);
            law_scoping(other, scope);
            yaml::lemma_key_index_found(before, other_name);
            if other_name == new_name {
                let d = "--warp--"@ + scope;
                if !docker_proxy::scoped(other) {
                    assert((other + d).len() == (name + d).len());
                    assert(other =~= (other + "--warp--"@ + scope).take(other.len() as int));
                    assert(name =~= (name + "--warp--"@ + scope).take(name.len() as int));
                }
            }
        }
        assert forall|j: int| 0 <= j < k implies (#[trigger] after[j]).0 != YamlView::Text(
            new_name,
        ) by {
            assert(after[j].0 == before[j].0);
        }
        yaml::lemma_key_index(after, new_name, k);
    }
}

// ── The counts of a rewrite ──────────────────────────────────────────────────────────────
/// A host part is a path if and only if it begins with `./`, `../`, `/` or `~/`.
pub proof fn law_bind_mount_path(host: Seq<char>)
    ensures
        docker_proxy::bind_mount_path(host) <==> exists|rest: Seq<char>|
            {
                ||| host == #[trigger] ("./"@ + rest)
                ||| host == "../"@ + rest
                ||| host == "/"@ + rest
                ||| host == "~/"@ + rest
            },
{
    text::law_stripped(host, "./"@, host.skip("./"@.len() as int));
    text::law_stripped(host, "../"@, host.skip("../"@.len() as int));
    text::law_stripped(host, "/"@, host.skip("/"@.len() as int));
    text::law_stripped(host, "~/"@, host.skip("~/"@.len() as int));
    if text::starts_with(host, "./"@) {
        assert(host == "./"@ + host.skip("./"@.len() as int));
    } else if text::starts_with(host, "../"@) {
        let rest = host.skip("../"@.len() as int);
        assert(("./"@ + rest).len() >= 0 && host == "../"@ + rest);
    } else if text::starts_with(host, "/"@) {
        let rest = host.skip("/"@.len() as int);
        assert(("./"@ + rest).len() >= 0 && host == "/"@ + rest);
    } else if text::starts_with(host, "~/"@) {
        let rest = host.skip("~/"@.len() as int);
        assert(("./"@ + rest).len() >= 0 && host == "~/"@ + rest);
    }
    assert forall|rest: Seq<char>|
        (host == #[trigger] ("./"@ + rest) || host == "../"@ + rest || host == "/"@ + rest || host
            == "~/"@ + rest) implies docker_proxy::bind_mount_path(host) by {
        text::law_stripped(host, "./"@, rest);
        text::law_stripped(host, "../"@, rest);
        text::law_stripped(host, "/"@, rest);
        text::law_stripped(host, "~/"@, rest);
    }
}

/// A volume counts once if and only if rewriting changes it: as a named volume where it is of
/// the short form and its host part is no path, and as a bind mount otherwise.
pub proof fn law_changed_volume_counts_once(v: YamlView, scope: Seq<char>)
    ensures
        ({
            let changed = docker_proxy::volume_rewritten(v, scope) != v;
            let named = v matches YamlView::Text(s) && !docker_proxy::bind_mount_path(
                docker_proxy::host_part(s),
            );
            &&& docker_proxy::bind_mounts_in(seq![v], scope) == (if changed && !named {
                1nat
            } else {
                0
            })
            &&& docker_proxy::named_volumes_in(seq![v], scope) == (if changed && named {
                1nat
            } else {
                0
            })
        }),
{
    reveal_with_fuel(docker_proxy::bind_mounts_in, 2);
    reveal_with_fuel(docker_proxy::named_volumes_in, 2);
    reveal_strlit("--warp--");
    assert(seq![v].drop_last() =~= Seq::empty());
    match v {
        YamlView::Text(s) => {
            text::lemma_first_index_found(s, ':');
            if let Some(t) = docker_proxy::short_rewritten(s, scope) {
                assert(t.len() == s.len() + 8 + scope.len());
            }
        },
        YamlView::Table(entries) => {
            yaml::lemma_key_index_found(entries, "source"@);
            if let Some(i) = yaml::key_index(entries, "source"@) {
                if let YamlView::Text(s) = entries[i].1 {
                    let t = s + docker_proxy::suffix(scope);
                    assert(t.len() > s.len());
                    let after = entries.update(i, (entries[i].0, YamlView::Text(t)));
                    assert(after[i].1 != entries[i].1);
                }
            }
        },
        _ => {},
    }
}

/// The counts of some volumes are those of each of them together.
pub proof fn law_volume_counts_add(a: Seq<YamlView>, b: Seq<YamlView>, scope: Seq<char>)
    ensures
        docker_proxy::bind_mounts_in(a + b, scope) == docker_proxy::bind_mounts_in(a, scope)
            + docker_proxy::bind_mounts_in(b, scope),
        docker_proxy::named_volumes_in(a + b, scope) == docker_proxy::named_volumes_in(a, scope)
            + docker_proxy::named_volumes_in(b, scope),
        docker_proxy::bind_mounts_in(Seq::empty(), scope) == 0,
        docker_proxy::named_volumes_in(Seq::empty(), scope) == 0,
    decreases b.len(),
{
    if b.len() == 0 {
        assert(a + b =~= a);
    } else {
        law_volume_counts_add(a, b.drop_last(), scope);
        assert((a + b).drop_last() =~= a + b.drop_last());
        assert((a + b).last() == b.last());
    }
}

/// The volumes that are counted are those of all services, service by service.
pub proof fn law_all_volumes(
    a: Seq<(YamlView, YamlView)>,
    b: Seq<(YamlView, YamlView)>,
    name: YamlView,
    service: YamlView,
)
    ensures
        docker_proxy::all_volumes(a + b) == docker_proxy::all_volumes(a)
            + docker_proxy::all_volumes(b),
        docker_proxy::all_volumes(seq![(name, service)]) == docker_proxy::service_volumes(service),
        docker_proxy::all_volumes(Seq::empty()).len() == 0,
    decreases b.len(),
{
    reveal_with_fuel(docker_proxy::all_volumes, 2);
    let none = Seq::<(YamlView, YamlView)>::empty();
    assert(docker_proxy::all_volumes(none) =~= Seq::empty());
    assert(seq![(name, service)].drop_last() =~= none);
    assert(docker_proxy::all_volumes(seq![(name, service)]) =~= docker_proxy::service_volumes(
        service,
    ));
    if b.len() == 0 {
        assert(a + b =~= a);
        assert(docker_proxy::all_volumes(a) + docker_proxy::all_volumes(b)
            =~= docker_proxy::all_volumes(a));
    } else {
        law_all_volumes(a, b.drop_last(), name, service);
        assert((a + b).drop_last() =~= a + b.drop_last());
        assert((a + b).last() == b.last());
        assert(docker_proxy::all_volumes(a + b) =~= docker_proxy::all_volumes(a)
            + docker_proxy::all_volumes(b));
    }
}

/// The volumes of a service are the items of the list under its key `volumes`, behind any tags,
/// and a service without such a list has none.
pub proof fn law_service_volumes(service: YamlView, items: Seq<YamlView>)
    ensures
        yaml::lookup(service, "volumes"@) matches Some(list) ==> {
            &&& yaml::untagged(list) == YamlView::List(items) ==> docker_proxy::service_volumes(
                service,
            ) == items
            &&& !(yaml::untagged(list) is List) ==> docker_proxy::service_volumes(service).len()
                == 0
        },
        yaml::lookup(service, "volumes"@) is None ==> docker_proxy::service_volumes(service).len()
            == 0,
{
}

/// What is counted of a document: the volumes of its services, and its definitions that are
/// renamed.
pub proof fn law_document_counts(doc: YamlView, parts: Seq<(YamlView, YamlView)>, scope: Seq<char>)
    ensures
        yaml::lookup(doc, "services"@) matches Some(v) ==> {
            &&& yaml::untagged(v) == YamlView::Table(parts) ==> {
                &&& docker_proxy::bind_mount_count(doc, scope) == docker_proxy::bind_mounts_in(
                    docker_proxy::all_volumes(parts),
                    scope,
                )
                &&& docker_proxy::named_volume_count(doc, scope) == docker_proxy::named_volumes_in(
                    docker_proxy::all_volumes(parts),
                    scope,
                )
            }
            &&& !(yaml::untagged(v) is Table) ==> docker_proxy::bind_mount_count(doc, scope) == 0
                && docker_proxy::named_volume_count(doc, scope) == 0
        },
        yaml::lookup(doc, "services"@) is None ==> docker_proxy::bind_mount_count(doc, scope) == 0
            && docker_proxy::named_volume_count(doc, scope) == 0,
        yaml::lookup(doc, "volumes"@) matches Some(v) ==> {
            &&& yaml::untagged(v) == YamlView::Table(parts)
                ==> docker_proxy::top_level_volume_count(doc) == docker_proxy::named_definitions(
                parts,
            )
            &&& !(yaml::untagged(v) is Table) ==> docker_proxy::top_level_volume_count(doc) == 0
        },
        yaml::lookup(doc, "volumes"@) is None ==> docker_proxy::top_level_volume_count(doc) == 0,
{
}

/// A definition counts if and only if its key is a string without the delimiter.
pub proof fn law_definition_counts_once(
    entries: Seq<(YamlView, YamlView)>,
    key: YamlView,
    value: YamlView,
)
    ensures
        ({
            let counts = yaml::text_of(key) matches Some(name) && !docker_proxy::scoped(name);
            docker_proxy::named_definitions(entries.push((key, value)))
                == docker_proxy::named_definitions(entries) + (if counts {
                1nat
            } else {
                0nat
            })
        }),
        docker_proxy::named_definitions(Seq::empty()) == 0,
{
    assert(entries.push((key, value)).drop_last() =~= entries);
}

/// The collector recognizes every rewritten compose file by its name.
pub proof fn law_collector_knows_compose_files(scope: Seq<char>, path: Seq<char>)
    ensures
        gc::compose_name(docker_proxy::compose_file_name(scope, path)),
{
    reveal_strlit(".yml");
    reveal_strlit("docker-compose--");
    let name = docker_proxy::compose_file_name(scope, path);
    assert(name.len() > 4);
    assert(name.skip(name.len() - 4) =~= ".yml"@);
}

} // verus!
