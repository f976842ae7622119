//! Branch names: reading one from `.git/HEAD`, and making one fit for volume names and paths.

use crate::text;
use vstd::prelude::*;

verus! {

/// The characters that a sanitized branch name may hold: ASCII letters and digits, `.`, `_`
/// and `-`.
pub open spec fn allowed(c: char) -> bool {
    let u = c as u32;
    ||| 0x30 <= u <= 0x39
    ||| 0x41 <= u <= 0x5a
    ||| 0x61 <= u <= 0x7a
    ||| c == '.'
    ||| c == '_'
    ||| c == '-'
}

/// What stands for one character: `/` and the space become `-`, an allowed character stays,
/// and any other character is removed.
pub open spec fn replaced(c: char) -> Option<char> {
    if c == '/' || c == ' ' {
        Some('-')
    } else if allowed(c) {
        Some(c)
    } else {
        None
    }
}

/// `s` with every character replaced or removed.
pub open spec fn replaced_all(s: Seq<char>) -> Seq<char>
    decreases s.len(),
{
    if s.len() == 0 {
        s
    } else {
        match replaced(s.last()) {
            Some(c) => replaced_all(s.drop_last()).push(c),
            None => replaced_all(s.drop_last()),
        }
    }
}

/// `s` with every run of dashes reduced to one.
pub open spec fn collapsed(s: Seq<char>) -> Seq<char>
    decreases s.len(),
{
    if s.len() == 0 {
        s
    } else if s.last() == '-' && s.len() > 1 && s[s.len() - 2] == '-' {
        collapsed(s.drop_last())
    } else {
        collapsed(s.drop_last()).push(s.last())
    }
}

/// `s` without the dashes at its start.
pub open spec fn undashed_start(s: Seq<char>) -> Seq<char>
    decreases s.len(),
{
    if s.len() > 0 && s[0] == '-' {
        undashed_start(s.drop_first())
    } else {
        s
    }
}

/// `s` without the dashes at its end.
pub open spec fn undashed_end(s: Seq<char>) -> Seq<char>
    decreases s.len(),
{
    if s.len() > 0 && s.last() == '-' {
        undashed_end(s.drop_last())
    } else {
        s
    }
}

/// The name that stands for a branch in volume names and paths.
pub open spec fn sanitized(branch: Seq<char>) -> Seq<char> {
    undashed_end(undashed_start(collapsed(replaced_all(branch))))
}

/// Whether no two dashes stand side by side.
pub open spec fn single_dashes(s: Seq<char>) -> bool {
    forall|i: int, j: int|
        0 <= i && j == i + 1 && j < s.len() ==> #[trigger] s[i] != '-' || #[trigger] s[j] != '-'
}

/// What every sanitized name is: only allowed characters, no two dashes side by side, and no
/// dash at either end.
pub open spec fn clean(s: Seq<char>) -> bool {
    &&& forall|i: int| 0 <= i < s.len() ==> allowed(#[trigger] s[i])
    &&& single_dashes(s)
    &&& s.len() > 0 ==> s[0] != '-' && s.last() != '-'
}

/// The branch that the contents of `.git/HEAD` name, and `detached` where they name none.
pub open spec fn branch_of_head(content: Seq<char>) -> Seq<char> {
    match text::stripped(text::trimmed(content), "ref: refs/heads/"@) {
        Some(name) => name,
        None => "detached"@,
    }
}

/// Reads the branch to scope volumes to from the contents of `.git/HEAD`.
pub fn detect_branch(head_content: &str) -> (r: String)
    ensures
        r@ == branch_of_head(head_content@),
{
    let trimmed = text::trim(head_content);
    match text::strip_prefix(trimmed.as_str(), "ref: refs/heads/") {
        Some(name) => name,
        None => "detached".to_owned(),
    }
}

fn replace_char(c: char) -> (r: Option<char>)
    ensures
        r == replaced(c),
{
    let u: u32 = c as u32;
    if c == '/' || c == ' ' {
        Some('-')
    } else if (0x30 <= u && u <= 0x39) || (0x41 <= u && u <= 0x5a) || (0x61 <= u && u <= 0x7a) || c
        == '.' || c == '_' || c == '-' {
        Some(c)
    } else {
        None
    }
}

/// Sanitizes a git branch name for use in Docker volume names and paths.
///
/// `/` and the space are replaced by `-`, characters outside `[a-zA-Z0-9._-]` are removed,
/// consecutive dashes are collapsed, and leading and trailing dashes are trimmed.
pub fn sanitize_branch_name(branch: &str) -> (r: String)
    ensures
        r@ == sanitized(branch@),
{
    let v = text::chars_of(branch);
    let mut kept: Vec<char> = Vec::new();
    let mut i: usize = 0;
    while i < v.len()
        invariant
            i <= v@.len(),
            kept@ == replaced_all(v@.take(i as int)),
        decreases v@.len() - i,
    {
        assert(v@.take(i + 1).drop_last() =~= v@.take(i as int));
        match replace_char(v[i]) {
            Some(c) => kept.push(c),
            None => {},
        }
        i = i + 1;
    }
    assert(v@.take(i as int) =~= v@);

    let mut out: Vec<char> = Vec::new();
    let mut k: usize = 0;
    while k < kept.len()
        invariant
            k <= kept@.len(),
            out@ == collapsed(kept@.take(k as int)),
        decreases kept@.len() - k,
    {
        assert(kept@.take(k + 1).drop_last() =~= kept@.take(k as int));
        if !(kept[k] == '-' && k > 0 && kept[k - 1] == '-') {
            out.push(kept[k]);
        }
        k = k + 1;
    }
    assert(kept@.take(k as int) =~= kept@);

    let mut from: usize = 0;
    assert(out@.skip(0) =~= out@);
    while from < out.len() && out[from] == '-'
        invariant
            from <= out@.len(),
            undashed_start(out@) == undashed_start(out@.skip(from as int)),
        decreases out@.len() - from,
    {
        assert(out@.skip(from as int).drop_first() =~= out@.skip(from + 1));
        from = from + 1;
    }
    let ghost rest = out@.skip(from as int);
    let mut to: usize = out.len();
    assert(out@.subrange(from as int, to as int) =~= rest);
    while to > from && out[to - 1] == '-'
        invariant
            from <= to <= out@.len(),
            undashed_end(rest) == undashed_end(out@.subrange(from as int, to as int)),
        decreases to,
    {
        assert(out@.subrange(from as int, to as int).drop_last() =~= out@.subrange(
            from as int,
            to - 1,
        ));
        to = to - 1;
    }
    text::string_of(&out, from, to)
}

proof fn lemma_replaced_all(s: Seq<char>)
    ensures
        forall|i: int| 0 <= i < replaced_all(s).len() ==> allowed(#[trigger] replaced_all(s)[i]),
        (forall|i: int| 0 <= i < s.len() ==> allowed(#[trigger] s[i])) ==> replaced_all(s) == s,
    decreases s.len(),
{
    if s.len() > 0 {
        lemma_replaced_all(s.drop_last());
        let p = replaced_all(s.drop_last());
        assert forall|i: int| 0 <= i < replaced_all(s).len() implies allowed(
            #[trigger] replaced_all(s)[i],
        ) by {
            if i < p.len() {
                assert(replaced_all(s)[i] == p[i]);
            }
        }
        if forall|i: int| 0 <= i < s.len() ==> allowed(#[trigger] s[i]) {
            assert(allowed(s.last()));
            assert(forall|i: int|
                0 <= i < s.drop_last().len() ==> allowed(#[trigger] s.drop_last()[i]));
            assert(replaced_all(s) =~= s);
        }
    }
}

proof fn lemma_collapsed(s: Seq<char>)
    requires
        forall|i: int| 0 <= i < s.len() ==> allowed(#[trigger] s[i]),
    ensures
        forall|i: int| 0 <= i < collapsed(s).len() ==> allowed(#[trigger] collapsed(s)[i]),
        single_dashes(collapsed(s)),
        s.len() > 0 ==> collapsed(s).len() > 0 && collapsed(s).last() == s.last(),
        single_dashes(s) ==> collapsed(s) == s,
    decreases s.len(),
{
    if s.len() > 0 {
        let t = s.drop_last();
        lemma_collapsed(t);
        if single_dashes(s) {
            assert(forall|i: int, j: int|
                0 <= i && j == i + 1 && j < t.len() ==> #[trigger] t[i] == s[i] && #[trigger] t[j]
                    == s[j]);
            assert(single_dashes(t));
            if s.len() > 1 {
                assert(s[s.len() - 2] != '-' || s[s.len() - 1] != '-');
            }
            assert(collapsed(s) =~= s);
        }
    }
}

proof fn lemma_undashed_start(s: Seq<char>)
    requires
        forall|i: int| 0 <= i < s.len() ==> allowed(#[trigger] s[i]),
        single_dashes(s),
    ensures
        forall|i: int|
            0 <= i < undashed_start(s).len() ==> allowed(#[trigger] undashed_start(s)[i]),
        single_dashes(undashed_start(s)),
        undashed_start(s).len() > 0 ==> undashed_start(s)[0] != '-',
        (s.len() > 0 ==> s[0] != '-') ==> undashed_start(s) == s,
    decreases s.len(),
{
    if s.len() > 0 && s[0] == '-' {
        let t = s.drop_first();
        assert(forall|i: int| 0 <= i < t.len() ==> #[trigger] t[i] == s[i + 1]);
        lemma_undashed_start(t);
    }
}

proof fn lemma_undashed_end(s: Seq<char>)
    requires
        forall|i: int| 0 <= i < s.len() ==> allowed(#[trigger] s[i]),
        single_dashes(s),
        s.len() > 0 ==> s[0] != '-',
    ensures
        clean(undashed_end(s)),
        (s.len() > 0 ==> s.last() != '-') ==> undashed_end(s) == s,
    decreases s.len(),
{
    if s.len() > 0 && s.last() == '-' {
        lemma_undashed_end(s.drop_last());
    }
}

/// A sanitized name holds only allowed characters, no two dashes side by side, and no dash at
/// either end.
pub proof fn law_sanitized_is_clean(branch: Seq<char>)
    ensures
        clean(sanitized(branch)),
{
    let a = replaced_all(branch);
    lemma_replaced_all(branch);
    lemma_collapsed(a);
    lemma_undashed_start(collapsed(a));
    lemma_undashed_end(undashed_start(collapsed(a)));
}

/// A name that is already clean stays as it is.
pub proof fn law_clean_name_is_kept(name: Seq<char>)
    requires
        clean(name),
    ensures
        sanitized(name) == name,
{
    lemma_replaced_all(name);
    lemma_collapsed(name);
    lemma_undashed_start(name);
    lemma_undashed_end(name);
}

/// Sanitizing twice is sanitizing once.
pub proof fn law_sanitizing_is_idempotent(branch: Seq<char>)
    ensures
        sanitized(sanitized(branch)) == sanitized(branch),
{
    law_sanitized_is_clean(branch);
    law_clean_name_is_kept(sanitized(branch));
}

/// A sanitized name never holds the delimiter `--warp--`, so the delimiter in a scoped name
/// is the one that scoping put there.
pub proof fn law_sanitized_has_no_delimiter(branch: Seq<char>)
    ensures
        !text::contains(sanitized(branch), "--warp--"@),
{
    law_sanitized_is_clean(branch);
    reveal_strlit("--warp--");
    let s = sanitized(branch);
    let d = "--warp--"@;
    if text::contains(s, d) {
        let i = choose|i: int| text::occurs_at(s, d, i);
        assert(s.subrange(i, i + d.len())[0] == '-');
        assert(s.subrange(i, i + d.len())[1] == '-');
        assert(s[i] == '-' && s[i + 1] == '-');
    }
}

// ── What a sanitized name keeps ──────────────────────────────────────────────────────────
/// The characters of a sanitized name are ASCII letters and digits, the dot, the underscore and
/// the dash.
pub proof fn law_allowed(c: char)
    ensures
        allowed(c) <==> {
            ||| 'a' <= c <= 'z'
            ||| 'A' <= c <= 'Z'
            ||| '0' <= c <= '9'
            ||| c == '.'
            ||| c == '_'
            ||| c == '-'
        },
{
}

/// A clean name holds only such characters, no two dashes side by side, and no dash at either
/// end.
pub proof fn law_clean(s: Seq<char>)
    ensures
        clean(s) <==> {
            &&& forall|i: int| 0 <= i < s.len() ==> allowed(#[trigger] s[i])
            &&& !exists|i: int| 0 <= i < s.len() - 1 && #[trigger] s[i] == '-' && s[i + 1] == '-'
            &&& s.len() > 0 ==> s[0] != '-' && s[s.len() - 1] != '-'
        },
{
    if clean(s) {
        assert forall|i: int| 0 <= i < s.len() - 1 implies !(#[trigger] s[i] == '-' && s[i + 1]
            == '-') by {
            assert(s[i] != '-' || s[i + 1] != '-');
        }
    }
}

proof fn lemma_replaced_all_adds(a: Seq<char>, b: Seq<char>)
    ensures
        replaced_all(a + b) == replaced_all(a) + replaced_all(b),
    decreases b.len(),
{
    if b.len() > 0 {
        assert((a + b).drop_last() =~= a + b.drop_last());
        assert((a + b).last() == b.last());
        lemma_replaced_all_adds(a, b.drop_last());
        assert(replaced_all(a + b) =~= replaced_all(a) + replaced_all(b));
    } else {
        assert(a + b =~= a);
        assert(replaced_all(a) + replaced_all(b) =~= replaced_all(a));
    }
}

proof fn lemma_replaced_one(c: char)
    ensures
        replaced_all(seq![c]) == match replaced(c) {
            Some(d) => seq![d],
            None => Seq::empty(),
        },
{
    reveal_with_fuel(replaced_all, 2);
    assert(seq![c].drop_last() =~= Seq::empty());
    assert(replaced_all(seq![c]) =~= match replaced(c) {
        Some(d) => seq![d],
        None => Seq::empty(),
    });
}

/// A character that is neither allowed nor a slash nor a space leaves no trace.
pub proof fn law_other_characters_are_removed(a: Seq<char>, c: char, b: Seq<char>)
    requires
        !('a' <= c <= 'z' || 'A' <= c <= 'Z' || '0' <= c <= '9'),
        c != '.' && c != '_' && c != '-' && c != '/' && c != ' ',
    ensures
        sanitized(a + seq![c] + b) == sanitized(a + b),
{
    lemma_replaced_all_adds(a + seq![c], b);
    lemma_replaced_all_adds(a, seq![c]);
    lemma_replaced_all_adds(a, b);
    lemma_replaced_one(c);
    assert(replaced_all(a + seq![c] + b) =~= replaced_all(a + b));
}

/// A slash or a space counts as a dash.
pub proof fn law_slash_and_space_are_dashes(a: Seq<char>, b: Seq<char>)
    ensures
        sanitized(a + seq!['/'] + b) == sanitized(a + seq!['-'] + b),
        sanitized(a + seq![' '] + b) == sanitized(a + seq!['-'] + b),
{
    lemma_replaced_all_adds(a + seq!['/'], b);
    lemma_replaced_all_adds(a + seq![' '], b);
    lemma_replaced_all_adds(a + seq!['-'], b);
    lemma_replaced_all_adds(a, seq!['/']);
    lemma_replaced_all_adds(a, seq![' ']);
    lemma_replaced_all_adds(a, seq!['-']);
    lemma_replaced_one('/');
    lemma_replaced_one(' ');
    lemma_replaced_one('-');
}

proof fn lemma_two_dashes(a: Seq<char>, b: Seq<char>)
    ensures
        collapsed(a + seq!['-', '-'] + b) == collapsed(a + seq!['-'] + b),
    decreases b.len(),
{
    let x = a + seq!['-', '-'] + b;
    let y = a + seq!['-'] + b;
    if b.len() == 0 {
        assert(x.drop_last() =~= y);
        assert(x[x.len() - 2] == '-' && x.last() == '-');
    } else {
        assert(x.drop_last() =~= a + seq!['-', '-'] + b.drop_last());
        assert(y.drop_last() =~= a + seq!['-'] + b.drop_last());
        assert(x.last() == b.last() && y.last() == b.last());
        lemma_two_dashes(a, b.drop_last());
        assert(x[x.len() - 2] == y[y.len() - 2]);
    }
}

/// Two dashes side by side count as one.
pub proof fn law_two_dashes_are_one(a: Seq<char>, b: Seq<char>)
    ensures
        sanitized(a + seq!['-', '-'] + b) == sanitized(a + seq!['-'] + b),
{
    let x = replaced_all(a);
    let y = replaced_all(b);
    assert(seq!['-', '-'] =~= seq!['-'] + seq!['-']);
    lemma_replaced_all_adds(a + seq!['-', '-'], b);
    lemma_replaced_all_adds(a, seq!['-', '-']);
    lemma_replaced_all_adds(seq!['-'], seq!['-']);
    lemma_replaced_all_adds(a + seq!['-'], b);
    lemma_replaced_all_adds(a, seq!['-']);
    lemma_replaced_one('-');
    lemma_two_dashes(x, y);
}

proof fn lemma_dash_before(s: Seq<char>)
    requires
        s.len() > 0 ==> s[0] != '-',
    ensures
        collapsed(seq!['-'] + s) == seq!['-'] + collapsed(s),
    decreases s.len(),
{
    let x = seq!['-'] + s;
    if s.len() == 0 {
        assert(x.drop_last() =~= Seq::empty());
        assert(collapsed(x.drop_last()) =~= Seq::empty());
        assert(collapsed(x) =~= seq!['-'] + collapsed(s));
    } else {
        assert(x.drop_last() =~= seq!['-'] + s.drop_last());
        assert(x.last() == s.last());
        lemma_dash_before(s.drop_last());
        if s.len() > 1 {
            assert(x[x.len() - 2] == s[s.len() - 2]);
        }
        assert(collapsed(x) =~= seq!['-'] + collapsed(s));
    }
}

proof fn lemma_dash_at_start(s: Seq<char>)
    ensures
        undashed_start(collapsed(seq!['-'] + s)) == undashed_start(collapsed(s)),
{
    if s.len() > 0 && s[0] == '-' {
        let rest = s.drop_first();
        lemma_two_dashes(Seq::empty(), rest);
        assert(Seq::<char>::empty() + seq!['-', '-'] + rest =~= seq!['-'] + s);
        assert(Seq::<char>::empty() + seq!['-'] + rest =~= s);
    } else {
        lemma_dash_before(s);
        let c = seq!['-'] + collapsed(s);
        assert(c.drop_first() =~= collapsed(s));
    }
}

proof fn lemma_dash_at_end(c: Seq<char>)
    ensures
        undashed_end(undashed_start(c.push('-'))) == undashed_end(undashed_start(c)),
    decreases c.len(),
{
    let x = c.push('-');
    if c.len() == 0 {
        assert(x.drop_first() =~= c);
    } else if c[0] == '-' {
        assert(x.drop_first() =~= c.drop_first().push('-'));
        lemma_dash_at_end(c.drop_first());
    } else {
        assert(x.drop_last() =~= c);
    }
}

/// Dashes at the ends leave no trace.
pub proof fn law_outer_dashes_are_removed(s: Seq<char>)
    ensures
        sanitized(seq!['-'] + s) == sanitized(s),
        sanitized(s + seq!['-']) == sanitized(s),
{
    let r = replaced_all(s);
    lemma_replaced_all_adds(seq!['-'], s);
    lemma_replaced_all_adds(s, seq!['-']);
    lemma_replaced_one('-');
    lemma_dash_at_start(r);
    let x = r + seq!['-'];
    assert(x =~= r.push('-'));
    assert(x.drop_last() =~= r);
    if r.len() > 0 {
        assert(x[x.len() - 2] == r.last());
    }
    lemma_dash_at_end(collapsed(r));
}

/// A name of allowed characters, without dashes side by side or at its ends, stays as it is.
pub proof fn law_plain_name_is_kept(name: Seq<char>)
    requires
        forall|i: int|
            0 <= i < name.len() ==> {
                let c = #[trigger] name[i];
                ||| 'a' <= c <= 'z'
                ||| 'A' <= c <= 'Z'
                ||| '0' <= c <= '9'
                ||| c == '.'
                ||| c == '_'
                ||| c == '-'
            },
        forall|i: int| 0 <= i < name.len() - 1 && #[trigger] name[i] == '-' ==> name[i + 1] != '-',
        name.len() > 0 ==> name[0] != '-' && name.last() != '-',
    ensures
        sanitized(name) == name,
{
    assert forall|i: int| 0 <= i < name.len() implies allowed(#[trigger] name[i]) by {
        law_allowed(name[i]);
    }
    law_clean_name_is_kept(name);
}

/// Contents of `.git/HEAD` that refer to a branch give its name, whatever the name and the white
/// space around.
pub proof fn law_branch_is_read_in_full(a: Seq<char>, name: Seq<char>, b: Seq<char>)
    requires
        forall|i: int| 0 <= i < a.len() ==> text::white_space(#[trigger] a[i]),
        forall|i: int| 0 <= i < b.len() ==> text::white_space(#[trigger] b[i]),
        name.len() > 0 ==> !text::white_space(name.last()),
    ensures
        branch_of_head(a + ("ref: refs/heads/"@ + name) + b) == name,
{
    reveal_strlit("ref: refs/heads/");
    let t = "ref: refs/heads/"@ + name;
    assert(t[0] == 'r');
    assert(t.last() == if name.len() > 0 {
        name.last()
    } else {
        '/'
    });
    text::law_trimmed(a, t, b);
    text::law_stripped(t, "ref: refs/heads/"@, name);
}

/// Contents of `.git/HEAD` that refer to no branch count as detached.
pub proof fn law_no_branch_is_detached(content: Seq<char>)
    requires
        forall|name: Seq<char>| text::trimmed(content) != #[trigger] ("ref: refs/heads/"@ + name),
    ensures
        branch_of_head(content) == "detached"@,
{
    let t = text::trimmed(content);
    if let Some(name) = text::stripped(t, "ref: refs/heads/"@) {
        text::law_stripped(t, "ref: refs/heads/"@, name);
    }
}

} // verus!
