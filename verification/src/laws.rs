//! Laws of the package manager that relate several of its operations.

use vstd::prelude::*;

use vstd::relations::injective_on;
use vstd::set_lib::{lemma_int_range, lemma_map_size, lemma_subset_equality, set_int_range};

use crate::install::{is_perm, lock_sort_key, stably_sorted};
use crate::models::{InstallOptions, LockPackageView};
use crate::actions::{spec_download_action, spec_lock_install_action, spec_resolved_install_action, InstallActionView};
use crate::models::ResolvedPackageView;
use crate::error::EspmErrorView;
use crate::publisher::{spec_publish_plan, spec_registry_package_name, PublishPlanView};
use crate::versions::{select_spec, spec_req_matches, spec_req_valid, spec_version_order, spec_version_req, spec_version_valid};
use crate::import_map::{removal_map, spec_plan_update, spec_removal_names, spec_removal_source, UpdateStepView};
use crate::paths::{spec_join, spec_package_id, spec_package_install_path, spec_package_key, spec_parse_lock_package_id};
use crate::specifier::{spec_parse_specifier, spec_requested_specifier, split_package_name, split_version, SpecifierView};
use crate::text::{lemma_find_char, lemma_seq_lt_trichotomy, seq_le, find_char, has_prefix, has_suffix, is_white_space, rfind_char, strip_leading, trim_end_ws, trim_start_ws, trim_ws};

verus! {

proof fn lemma_rfind_after(a: Seq<char>, b: Seq<char>, c: char)
    requires
        !b.contains(c),
    ensures
        rfind_char(a.push(c) + b, c) == a.len(),
    decreases b.len(),
{
    let s = a.push(c) + b;
    if b.len() == 0 {
        assert(s =~= a.push(c));
    } else {
        assert(s.last() == b.last());
        assert(b.contains(b.last()) ==> b.last() != c);
        assert(b[b.len() - 1] == b.last());
        assert(s.drop_last() =~= a.push(c) + b.drop_last());
        assert forall|x: char| b.drop_last().contains(x) implies b.contains(x) by {
            let i = choose|i: int| 0 <= i < b.drop_last().len() && b.drop_last()[i] == x;
            assert(b[i] == x);
        }
        lemma_rfind_after(a, b.drop_last(), c);
    }
}

proof fn lemma_find_before(a: Seq<char>, b: Seq<char>, c: char)
    requires
        !a.contains(c),
    ensures
        find_char(a.push(c) + b, c) == a.len(),
    decreases a.len(),
{
    let s = a.push(c) + b;
    if a.len() == 0 {
        assert(s[0] == c);
    } else {
        assert(s[0] == a[0]);
        assert(a[0] != c);
        assert(s.drop_first() =~= a.drop_first().push(c) + b);
        assert forall|x: char| a.drop_first().contains(x) implies a.contains(x) by {
            let i = choose|i: int| 0 <= i < a.drop_first().len() && a.drop_first()[i] == x;
            assert(a[i + 1] == x);
        }
        lemma_find_before(a.drop_first(), b, c);
    }
}

proof fn lemma_trim_noop(s: Seq<char>)
    requires
        s.len() > 0,
        !is_white_space(s[0]),
        !is_white_space(s.last()),
    ensures
        trim_ws(s) == s,
{
    assert(trim_start_ws(s) == s);
    assert(trim_end_ws(s) == s);
}

/// A version text that a specifier carries intact: non-empty, without `/`
/// or `@`, not ending in white space.
pub open spec fn plain_version(version: Seq<char>) -> bool {
    &&& version.len() > 0
    &&& !version.contains('/')
    &&& !version.contains('@')
    &&& !is_white_space(version.last())
}

/// A scope and name that a specifier carries intact: a non-empty scope
/// without `/` and a non-empty name, or, without scope, a non-empty name
/// without `/` that does not start with `@`.
pub open spec fn plain_package(scope: Option<Seq<char>>, name: Seq<char>) -> bool {
    &&& name.len() > 0
    &&& match scope {
        Some(s) => s.len() > 0 && !s.contains('/'),
        None => !name.contains('/') && name[0] != '@',
    }
}

/// Law: the specifier that `update` writes for a registry package parses
/// back to the same kind, scope, name and version.
pub proof fn lemma_requested_specifier_roundtrip(
    kind: Seq<char>,
    scope: Option<Seq<char>>,
    name: Seq<char>,
    version: Seq<char>,
)
    requires
        kind == "npm"@ || (kind == "jsr"@ && scope is Some),
        plain_package(scope, name),
        plain_version(version),
    ensures
        spec_parse_specifier(spec_requested_specifier(kind, scope, name, version)) == Ok::<SpecifierView, crate::error::EspmErrorView>(
            SpecifierView {
                source: spec_requested_specifier(kind, scope, name, version),
                kind,
                scope,
                name: Some(name),
                version: Some(version),
                path: None,
            },
        ),
{
    reveal_strlit("jsr");
    reveal_strlit("npm");
    reveal_strlit("jsr:");
    reveal_strlit("npm:");
    reveal_strlit("jsr:@");
    reveal_strlit("npm:@");
    reveal_strlit("/");
    reveal_strlit("@");
    let s = spec_requested_specifier(kind, scope, name, version);
    assert("jsr"@[0] == 'j' && "npm"@[0] == 'n');
    assert("jsr:"@[0] == 'j' && "npm:"@[0] == 'n');
    let is_npm = kind == "npm"@;
    if is_npm {
        assert(kind[0] == 'n');
        assert(kind != "jsr"@);
    }
    let head: Seq<char> = if kind == "jsr"@ { "jsr:"@ } else { "npm:"@ };
    let a: Seq<char> = match scope {
        Some(sc) => seq!['@'] + sc + seq!['/'] + name,
        None => name,
    };
    let rest = a.push('@') + version;
    match scope {
        Some(sc) => {
            let lit: Seq<char> = if kind == "jsr"@ { "jsr:@"@ } else { "npm:@"@ };
            assert(s == lit + sc + "/"@ + name + "@"@ + version);
            assert(lit =~= head + seq!['@']);
        },
        None => {
            assert(s == "npm:"@ + name + "@"@ + version);
        },
    }
    assert(s =~= head + rest);
    assert(s.subrange(0, 4) =~= head);
    assert(s.subrange(4, s.len() as int) =~= rest);
    assert(has_prefix(s, head));
    assert(s[0] == head[0]);
    assert(s.last() == version.last());
    lemma_trim_noop(s);
    lemma_rfind_after(a, version, '@');
    assert(rest.subrange(a.len() as int + 1, rest.len() as int) =~= version);
    assert(rest.subrange(0, a.len() as int) =~= a);
    assert(a.len() > 0);
    match scope {
        Some(sc) => {
            assert(a[0] == '@');
            assert(a.drop_first() =~= sc.push('/') + name);
            lemma_find_before(sc, name, '/');
            assert((sc.push('/') + name).subrange(0, sc.len() as int) =~= sc);
            assert((sc.push('/') + name).subrange(sc.len() as int + 1, (sc.push('/') + name).len() as int) =~= name);
        },
        None => {},
    }
    if is_npm {
        assert(head == "npm:"@);
        assert(s.subrange(0, 4)[0] == 'n');
        assert(s.subrange(0, 4) != "jsr:"@);
        assert(!has_prefix(s, "jsr:"@));
    }
}

/// Law: the id under which a package is locked parses back into its kind,
/// its scope (without leading `@`s) and its name.
pub proof fn lemma_lock_id_roundtrip(kind: Seq<char>, scope: Option<Seq<char>>, name: Seq<char>)
    requires
        !kind.contains(':'),
        plain_package(
            match scope {
                Some(s) => Some(strip_leading(s, '@')),
                None => None,
            },
            name,
        ),
    ensures
        spec_parse_lock_package_id(spec_package_id(kind, scope, name)) == Ok::<
            (Seq<char>, Option<Seq<char>>, Seq<char>),
            crate::error::EspmErrorView,
        >(
            (
                kind,
                match scope {
                    Some(s) => Some(strip_leading(s, '@')),
                    None => None,
                },
                name,
            ),
        ),
{
    reveal_strlit(":");
    reveal_strlit("@");
    reveal_strlit("/");
    let key = spec_package_key(scope, name);
    let id = spec_package_id(kind, scope, name);
    assert(id =~= kind.push(':') + key);
    lemma_find_before(kind, key, ':');
    assert(id.subrange(kind.len() as int + 1, id.len() as int) =~= key);
    assert(id.subrange(0, kind.len() as int) =~= kind);
    match scope {
        Some(s) => {
            let st = strip_leading(s, '@');
            assert(key =~= seq!['@'] + st.push('/') + name);
            assert(key.drop_first() =~= st.push('/') + name);
            lemma_find_before(st, name, '/');
            assert((st.push('/') + name).subrange(0, st.len() as int) =~= st);
            assert((st.push('/') + name).subrange(st.len() as int + 1, (st.push('/') + name).len() as int) =~= name);
        },
        None => {},
    }
}

/// Law: adding a dependency under a key that is no specifier and then
/// removing that key leaves the map as it was, without the key.
pub proof fn lemma_add_then_remove(m: Map<Seq<char>, Seq<char>>, key: Seq<char>, value: Seq<char>)
    requires
        spec_parse_specifier(key) is Err,
    ensures
        removal_map(m.insert(key, value), spec_removal_names(key), spec_removal_source(key)) == m.remove(key),
{
    let r = removal_map(m.insert(key, value), spec_removal_names(key), spec_removal_source(key));
    assert(spec_removal_names(key) =~= seq![key]);
    assert forall|k: Seq<char>| r.dom().contains(k) <==> m.remove(key).dom().contains(k) by {
        if k != key {
            assert(!seq![key].contains(k)) by {
                if seq![key].contains(k) {
                    let i = choose|i: int| 0 <= i < 1 && seq![key][i] == k;
                }
            }
        } else {
            assert(seq![key][0] == key);
        }
    }
    assert(r =~= m.remove(key));
}

/// Law: `update` leaves `file:` and `http(s)://` dependencies alone.
pub proof fn lemma_update_skips_local_and_remote(source: Seq<char>)
    requires
        spec_parse_specifier(source) matches Ok(p) && (p.kind == "file"@ || p.kind == "http"@ || p.kind
            == "https"@),
    ensures
        spec_plan_update(source) matches Ok(UpdateStepView::Skip { kind }) && kind == spec_parse_specifier(
            source,
        )->Ok_0.kind,
{
    reveal_strlit("file");
    reveal_strlit("http");
    reveal_strlit("https");
    reveal_strlit("jsr");
    reveal_strlit("npm");
    let p = spec_parse_specifier(source)->Ok_0;
    assert(p.kind != "jsr"@ && p.kind != "npm"@) by {
        if p.kind == "file"@ {
            assert(p.kind[0] == 'f');
        } else {
            assert(p.kind[0] == 'h');
        }
    }
}

/// Law: the directory into which a scoped or unscoped package is installed
/// is the directory that `remove` deletes for its package key.
pub proof fn lemma_install_dir_is_key_dir(scope: Option<Seq<char>>, name: Seq<char>)
    requires
        scope matches Some(s) ==> s.len() > 0 && !s.contains('/'),
        !has_prefix(name, "/"@),
    ensures
        spec_package_install_path(scope, name) == spec_join("./node_modules"@, spec_package_key(scope, name)),
{
    reveal_strlit("./node_modules");
    reveal_strlit("/");
    reveal_strlit("@");
    let nm = "./node_modules"@;
    assert(nm.len() == 14);
    assert(!has_suffix(nm, "/"@)) by {
        assert(nm.subrange(13, 14)[0] == 's');
    }
    match scope {
        Some(s) => {
            let dir = "@"@ + strip_leading(s, '@');
            assert(!has_prefix(dir, "/"@)) by {
                assert(dir.subrange(0, 1)[0] == '@');
            }
            let key = spec_package_key(scope, name);
            assert(!has_prefix(key, "/"@)) by {
                assert(key.subrange(0, 1)[0] == '@');
            }
            let d1 = spec_join(nm, dir);
            assert(d1 =~= nm + "/"@ + dir);
            assert(!has_suffix(d1, "/"@)) by {
                if dir.len() == 1 {
                    assert(d1.subrange(d1.len() - 1, d1.len() as int)[0] == '@');
                } else {
                    let st = strip_leading(s, '@');
                    assert(d1.last() == st.last());
                    assert(d1.subrange(d1.len() - 1, d1.len() as int)[0] == d1.last());
                    lemma_strip_leading_last(s);
                    assert(s[s.len() - 1] == s.last());
                }
            }
            assert(spec_join(d1, name) =~= nm + "/"@ + key);
        },
        None => {},
    }
}

proof fn lemma_strip_leading_last(s: Seq<char>)
    requires
        strip_leading(s, '@').len() > 0,
    ensures
        strip_leading(s, '@').last() != '/' || s.last() == '/',
        strip_leading(s, '@').last() == s.last(),
    decreases s.len(),
{
    if s.len() > 0 && s[0] == '@' {
        lemma_strip_leading_last(s.drop_first());
    }
}


/// Some of the first `n` positions of `idx` holds `t`.
spec fn reaches(idx: Seq<int>, n: int, t: int) -> bool {
    exists|a: int| 0 <= a < n && #[trigger] idx[a] == t
}

/// An injective map of `n` positions into `n` positions reaches every position.
proof fn lemma_perm_onto(idx: Seq<int>, n: int)
    requires
        n >= 0,
        is_perm(idx, n),
    ensures
        forall|t: int| 0 <= t < n ==> #[trigger] reaches(idx, n, t),
{
    let dom = set_int_range(0, n);
    let f = |a: int| idx[a];
    let img = dom.map(f);
    lemma_int_range(0, n);
    assert(injective_on(f, dom)) by {
        assert forall|x1: int, x2: int| dom.contains(x1) && dom.contains(x2) && #[trigger] f(x1) == #[trigger] f(
            x2,
        ) implies x1 == x2 by {
            if x1 != x2 {
                assert(idx[x1] != idx[x2]);
            }
        }
    }
    lemma_map_size(dom, img, f);
    assert(img.subset_of(dom)) by {
        assert forall|t: int| img.contains(t) implies dom.contains(t) by {
            let a = choose|a: int| dom.contains(a) && f(a) == t;
            assert(0 <= idx[a] < n);
        }
    }
    lemma_subset_equality(img, dom);
    assert forall|t: int| 0 <= t < n implies #[trigger] reaches(idx, n, t) by {
        assert(dom.contains(t));
        assert(img.contains(t));
        let a = choose|a: int| dom.contains(a) && f(a) == t;
        assert(idx[a] == t);
    }
}

/// `b` holds the entries of `a`, each once, in some order.
pub open spec fn rearranges(b: Seq<LockPackageView>, a: Seq<LockPackageView>) -> bool {
    exists|p: Seq<int>|
        #![trigger is_perm(p, a.len() as int)]
        is_perm(p, a.len() as int) && b.len() == a.len() && forall|k: int| 0 <= k < b.len() ==> #[trigger] b[k] == a[p[k]]
}

/// No two entries share their `id@resolved_version`.
pub open spec fn distinct_lock_keys(a: Seq<LockPackageView>) -> bool {
    forall|i: int, j: int|
        0 <= i < a.len() && 0 <= j < a.len() && i != j ==> lock_sort_key(#[trigger] a[i], false) != lock_sort_key(
            #[trigger] a[j],
            false,
        )
}

/// `x` is an entry of `t`.
pub open spec fn occurs(x: LockPackageView, t: Seq<LockPackageView>) -> bool {
    exists|j: int| 0 <= j < t.len() && t[j] == x
}

/// Every entry of `s` is an entry of `t`.
pub open spec fn entries_within(s: Seq<LockPackageView>, t: Seq<LockPackageView>) -> bool {
    forall|i: int| 0 <= i < s.len() ==> occurs(#[trigger] s[i], t)
}

/// Sorted by `id@resolved_version`, no key twice.
pub open spec fn strictly_sorted(s: Seq<LockPackageView>) -> bool {
    &&& distinct_lock_keys(s)
    &&& forall|i: int, j: int|
        0 <= i < j < s.len() ==> seq_le(lock_sort_key(#[trigger] s[i], false), lock_sort_key(#[trigger] s[j], false))
}

proof fn lemma_rearranged_facts(b: Seq<LockPackageView>, a: Seq<LockPackageView>, p: Seq<int>)
    requires
        is_perm(p, a.len() as int),
        b.len() == a.len(),
        forall|k: int| 0 <= k < b.len() ==> #[trigger] b[k] == a[p[k]],
        distinct_lock_keys(a),
    ensures
        entries_within(b, a),
        entries_within(a, b),
        distinct_lock_keys(b),
{
    lemma_perm_onto(p, a.len() as int);
    assert forall|i: int| 0 <= i < b.len() implies occurs(#[trigger] b[i], a) by {
        assert(a[p[i]] == b[i]);
    }
    assert forall|i: int| 0 <= i < a.len() implies occurs(#[trigger] a[i], b) by {
        assert(reaches(p, a.len() as int, i));
        let k = choose|k: int| 0 <= k < a.len() && #[trigger] p[k] == i;
        assert(b[k] == a[i]);
    }
    assert forall|i: int, j: int| 0 <= i < b.len() && 0 <= j < b.len() && i != j implies lock_sort_key(
        #[trigger] b[i],
        false,
    ) != lock_sort_key(#[trigger] b[j], false) by {
        assert(b[i] == a[p[i]]);
        assert(b[j] == a[p[j]]);
        assert(p[i] != p[j]);
    }
}

proof fn lemma_sorted_output(out: Seq<LockPackageView>, inp: Seq<LockPackageView>)
    requires
        stably_sorted(out, inp, false),
        distinct_lock_keys(inp),
    ensures
        strictly_sorted(out),
        entries_within(out, inp),
        entries_within(inp, out),
{
    let idx = choose|idx: Seq<int>|
        #![trigger is_perm(idx, inp.len() as int)]
        is_perm(idx, inp.len() as int) && out.len() == inp.len() && (forall|a: int|
            0 <= a < out.len() ==> #[trigger] out[a] == inp[idx[a]]) && (forall|a: int, b: int|
            0 <= a < b < out.len() ==> seq_le(
                lock_sort_key(#[trigger] out[a], false),
                lock_sort_key(#[trigger] out[b], false),
            ) && (lock_sort_key(out[a], false) == lock_sort_key(out[b], false) ==> idx[a] < idx[b]));
    lemma_rearranged_facts(out, inp, idx);
}

proof fn lemma_sorted_same_entries_equal(s: Seq<LockPackageView>, t: Seq<LockPackageView>)
    requires
        s.len() == t.len(),
        strictly_sorted(s),
        strictly_sorted(t),
        entries_within(s, t),
        entries_within(t, s),
    ensures
        s == t,
    decreases s.len(),
{
    if s.len() > 0 {
        let key = |x: LockPackageView| lock_sort_key(x, false);
        let m = choose|j: int| 0 <= j < t.len() && t[j] == #[trigger] s[0];
        let l = choose|j: int| 0 <= j < s.len() && s[j] == #[trigger] t[0];
        assert(seq_le(key(s[0]), key(s[l]))) by {
            if l > 0 {
                assert(seq_le(lock_sort_key(s[0], false), lock_sort_key(s[l], false)));
            }
        }
        assert(seq_le(key(t[0]), key(t[m]))) by {
            if m > 0 {
                assert(seq_le(lock_sort_key(t[0], false), lock_sort_key(t[m], false)));
            }
        }
        lemma_seq_lt_trichotomy(key(s[0]), key(t[0]));
        assert(key(s[0]) == key(t[0]));
        assert(l == 0) by {
            if l != 0 {
                assert(lock_sort_key(s[0], false) != lock_sort_key(s[l], false));
            }
        }
        let s1 = s.drop_first();
        let t1 = t.drop_first();
        assert forall|i: int| 0 <= i < s1.len() implies occurs(#[trigger] s1[i], t1) by {
            assert(s1[i] == s[i + 1]);
            let j = choose|j: int| 0 <= j < t.len() && t[j] == #[trigger] s[i + 1];
            if j == 0 {
                assert(lock_sort_key(s[0], false) != lock_sort_key(s[i + 1], false));
            }
            assert(t1[j - 1] == t[j]);
        }
        assert forall|i: int| 0 <= i < t1.len() implies occurs(#[trigger] t1[i], s1) by {
            assert(t1[i] == t[i + 1]);
            let j = choose|j: int| 0 <= j < s.len() && s[j] == #[trigger] t[i + 1];
            if j == 0 {
                assert(lock_sort_key(t[0], false) != lock_sort_key(t[i + 1], false));
            }
            assert(s1[j - 1] == s[j]);
        }
        assert(strictly_sorted(s1)) by {
            assert forall|i: int, j: int| 0 <= i < s1.len() && 0 <= j < s1.len() && i != j implies lock_sort_key(
                #[trigger] s1[i],
                false,
            ) != lock_sort_key(#[trigger] s1[j], false) by {
                assert(s1[i] == s[i + 1] && s1[j] == s[j + 1]);
            }
            assert forall|i: int, j: int| 0 <= i < j < s1.len() implies seq_le(
                lock_sort_key(#[trigger] s1[i], false),
                lock_sort_key(#[trigger] s1[j], false),
            ) by {
                assert(s1[i] == s[i + 1] && s1[j] == s[j + 1]);
            }
        }
        assert(strictly_sorted(t1)) by {
            assert forall|i: int, j: int| 0 <= i < t1.len() && 0 <= j < t1.len() && i != j implies lock_sort_key(
                #[trigger] t1[i],
                false,
            ) != lock_sort_key(#[trigger] t1[j], false) by {
                assert(t1[i] == t[i + 1] && t1[j] == t[j + 1]);
            }
            assert forall|i: int, j: int| 0 <= i < j < t1.len() implies seq_le(
                lock_sort_key(#[trigger] t1[i], false),
                lock_sort_key(#[trigger] t1[j], false),
            ) by {
                assert(t1[i] == t[i + 1] && t1[j] == t[j + 1]);
            }
        }
        lemma_sorted_same_entries_equal(s1, t1);
        assert(s =~= t) by {
            assert forall|i: int| 0 <= i < s.len() implies s[i] == t[i] by {
                if i > 0 {
                    assert(s[i] == s1[i - 1]);
                    assert(t[i] == t1[i - 1]);
                }
            }
        }
    }
}

/// Law: the lockfile does not depend on the order in which its entries were
/// gathered: two rearrangements of the same entries, no two of which share
/// `id@resolved_version`, are finalized into the same list of packages.
pub proof fn lemma_lockfile_order_independent(
    a: Seq<LockPackageView>,
    b: Seq<LockPackageView>,
    out_a: Seq<LockPackageView>,
    out_b: Seq<LockPackageView>,
)
    requires
        distinct_lock_keys(a),
        rearranges(b, a),
        stably_sorted(out_a, a, false),
        stably_sorted(out_b, b, false),
    ensures
        out_a == out_b,
{
    let p = choose|p: Seq<int>|
        #![trigger is_perm(p, a.len() as int)]
        is_perm(p, a.len() as int) && b.len() == a.len() && forall|k: int| 0 <= k < b.len() ==> #[trigger] b[k] == a[p[k]];
    lemma_rearranged_facts(b, a, p);
    lemma_sorted_output(out_a, a);
    lemma_sorted_output(out_b, b);
    assert(out_a.len() == a.len());
    assert(out_b.len() == b.len());
    assert(entries_within(out_a, out_b)) by {
        assert forall|i: int| 0 <= i < out_a.len() implies occurs(#[trigger] out_a[i], out_b) by {
            let j1 = choose|j: int| 0 <= j < a.len() && a[j] == #[trigger] out_a[i];
            let j2 = choose|j: int| 0 <= j < b.len() && b[j] == #[trigger] a[j1];
            let j3 = choose|j: int| 0 <= j < out_b.len() && out_b[j] == #[trigger] b[j2];
        }
    }
    assert(entries_within(out_b, out_a)) by {
        assert forall|i: int| 0 <= i < out_b.len() implies occurs(#[trigger] out_b[i], out_a) by {
            let j1 = choose|j: int| 0 <= j < b.len() && b[j] == #[trigger] out_b[i];
            let j2 = choose|j: int| 0 <= j < a.len() && a[j] == #[trigger] b[j1];
            let j3 = choose|j: int| 0 <= j < out_a.len() && out_a[j] == #[trigger] a[j2];
        }
    }
    lemma_sorted_same_entries_equal(out_a, out_b);
}


/// A package name split off a specifier or key has the shape that a
/// specifier carries intact.
proof fn lemma_split_name_plain(full: Seq<char>)
    requires
        split_package_name(full) is Some,
    ensures
        ({
            let (scope, name) = split_package_name(full)->Some_0;
            plain_package(scope, name)
        }),
{
    if full.len() > 0 && full[0] == '@' {
        let stripped = full.drop_first();
        lemma_find_char(stripped, '/');
        let slash = find_char(stripped, '/');
        let sc = stripped.subrange(0, slash);
        assert(!sc.contains('/')) by {
            if sc.contains('/') {
                let j = choose|j: int| 0 <= j < sc.len() && sc[j] == '/';
                assert(stripped[j] == '/');
            }
        }
    }
}

/// Law: updating an npm dependency, or a JSR dependency with a scope,
/// resolves the very package its specifier names (kind, scope, name, and the
/// specifier's version as the requirement), and the specifier written for
/// any resolved version parses back to that same kind, scope and name.
pub proof fn lemma_update_keeps_the_package(source: Seq<char>, version: Seq<char>)
    requires
        spec_parse_specifier(source) matches Ok(p) && (p.kind == "npm"@ || (p.kind == "jsr"@ && p.scope is Some)),
        plain_version(version),
    ensures
        ({
            let p = spec_parse_specifier(source)->Ok_0;
            &&& spec_plan_update(source) matches Ok(UpdateStepView::Resolve { kind, scope, name, requirement })
            &&& kind == p.kind && scope == p.scope && Some(name) == p.name && requirement == p.version
            &&& spec_parse_specifier(spec_requested_specifier(kind, scope, name, version)) matches Ok(q)
            &&& q.kind == p.kind && q.scope == p.scope && q.name == p.name && q.version == Some(version)
        }),
{
    reveal_strlit("jsr");
    reveal_strlit("npm");
    reveal_strlit("jsr:");
    reveal_strlit("npm:");
    let p = spec_parse_specifier(source)->Ok_0;
    let s = trim_ws(source);
    let rest = s.subrange(4, s.len() as int);
    assert(has_prefix(s, "jsr:"@) || has_prefix(s, "npm:"@)) by {
        reveal_strlit("file");
        reveal_strlit("http");
        reveal_strlit("https");
        assert("file"@[0] == 'f' && "http"@[0] == 'h' && "https"@[0] == 'h');
        assert("jsr"@[0] == 'j' && "npm"@[0] == 'n');
    }
    let (full, _v) = split_version(rest);
    assert(split_package_name(full) is Some);
    lemma_split_name_plain(full);
    let n = p.name->Some_0;
    assert(plain_package(p.scope, n));
    assert("jsr"@ != "npm"@) by {
        assert("jsr"@[0] != "npm"@[0]);
    }
    lemma_requested_specifier_roundtrip(p.kind, p.scope, n, version);
}

/// Law: removing a specifier with a scope and a name drops the entries keyed
/// by its package key `@scope/name` and by its name, whatever its kind: no
/// such key is left in an import map after the removal.
pub proof fn lemma_remove_drops_the_package_key(package: Seq<char>, m: Map<Seq<char>, Seq<char>>)
    requires
        spec_parse_specifier(package) matches Ok(sp) && sp.scope is Some && sp.name is Some,
    ensures
        ({
            let sp = spec_parse_specifier(package)->Ok_0;
            let key = "@"@ + sp.scope->Some_0 + "/"@ + sp.name->Some_0;
            let after = removal_map(m, spec_removal_names(package), spec_removal_source(package));
            &&& spec_removal_names(package).contains(key)
            &&& spec_removal_names(package).contains(sp.name->Some_0)
            &&& !after.dom().contains(key)
            &&& !after.dom().contains(sp.name->Some_0)
            &&& forall|k: Seq<char>| #[trigger] after.dom().contains(k) ==> m.dom().contains(k) && m[k] != sp.source
                && after[k] == m[k]
        }),
{
    let sp = spec_parse_specifier(package)->Ok_0;
    let key = "@"@ + sp.scope->Some_0 + "/"@ + sp.name->Some_0;
    let names = spec_removal_names(package);
    assert(names =~= seq![key].push(sp.name->Some_0));
    assert(names[0] == key);
    assert(names[1] == sp.name->Some_0);
}

/// Law: a locked registry or remote package that is selected and not
/// already installed at its version is unpacked from its locked tarball into
/// the directory of its package key: the action's scope is the scope of the
/// lock id (empty when there is none) and its name the id's name.
pub proof fn lemma_locked_tarball_goes_to_its_key_directory(
    options: InstallOptions,
    pkg: LockPackageView,
    installed: Option<Seq<char>>,
)
    requires
        options.include_dev || !pkg.dev,
        options.force || installed != Some(pkg.resolved_version),
        spec_parse_lock_package_id(pkg.id) matches Ok((k, sc, n)) && (k == "npm"@ || k == "jsr"@ || k == "http"@
            || k == "https"@) && !has_prefix(n, "/"@),
    ensures
        ({
            let (k, sc, n) = spec_parse_lock_package_id(pkg.id)->Ok_0;
            &&& spec_lock_install_action(options, pkg, installed) matches Ok(
                Some(InstallActionView::Tarball { url, scope, name }),
            )
            &&& url == pkg.tarball
            &&& name == n
            &&& scope == match sc {
                Some(s) => s,
                None => Seq::<char>::empty(),
            }
            &&& spec_package_install_path(if scope.len() == 0 { None } else { Some(scope) }, name) == spec_join(
                "./node_modules"@,
                spec_package_key(sc, n),
            )
        }),
{
    reveal_strlit("./node_modules");
    let (k, sc, n) = spec_parse_lock_package_id(pkg.id)->Ok_0;
    let c = find_char(pkg.id, ':');
    let key = pkg.id.subrange(c + 1, pkg.id.len() as int);
    match sc {
        Some(s) => {
            assert(split_package_name(key) is Some);
            lemma_split_name_plain(key);
            lemma_install_dir_is_key_dir(sc, n);
        },
        None => {},
    }
}

/// Law: a scoped package is published under its package key `@scope/name`
/// on either registry, so the registry does not change the name; an
/// unscoped one goes to npm under its name and is refused by JSR.
pub proof fn lemma_registry_name_is_the_package_key(
    scope: Option<Seq<char>>,
    name: Seq<char>,
    dir: Seq<char>,
    version: Option<Seq<char>>,
)
    ensures
        scope is Some ==> spec_registry_package_name(scope, name, true) == Ok::<Seq<char>, EspmErrorView>(
            spec_package_key(scope, name),
        ),
        scope is Some ==> spec_registry_package_name(scope, name, false) == spec_registry_package_name(scope, name, true),
        scope is None ==> spec_registry_package_name(scope, name, true) == Ok::<Seq<char>, EspmErrorView>(name),
        scope is None ==> spec_registry_package_name(scope, name, false) == Err::<Seq<char>, EspmErrorView>(
            EspmErrorView::JsrScopeRequired(name),
        ),
        scope is Some ==> (spec_publish_plan(dir, scope, name, version, true, false) matches Ok(
            PublishPlanView::Upload { package_name, .. },
        ) && package_name == spec_package_key(scope, name)),
{
}

/// Law: a requirement that semver accepts is used as written (trimmed),
/// unless it is empty or `latest`; and whenever such a requirement is given,
/// the chosen version is one of the offered versions, a valid version,
/// matches it, and no other matching version is above it, whatever the
/// `latest` tag says.
pub proof fn lemma_valid_requirement_is_honoured(
    versions: Seq<Seq<char>>,
    latest_tag: Option<Seq<char>>,
    requirement: Seq<char>,
    chosen: Seq<char>,
)
    requires
        trim_ws(requirement).len() > 0,
        trim_ws(requirement) != "latest"@,
        spec_req_valid(trim_ws(requirement)),
    ensures
        spec_version_req(Some(requirement)) == Some(trim_ws(requirement)),
        select_spec(versions, latest_tag, Some(requirement), Ok::<Seq<char>, EspmErrorView>(chosen)) ==> (
        versions.contains(chosen) && spec_version_valid(chosen) && spec_req_matches(trim_ws(requirement), chosen)),
        select_spec(versions, latest_tag, Some(requirement), Ok::<Seq<char>, EspmErrorView>(chosen)) ==> forall|j: int|
            0 <= j < versions.len() && versions[j] != chosen && spec_version_valid(versions[j]) && spec_req_matches(
                trim_ws(requirement),
                versions[j],
            ) ==> spec_version_order(#[trigger] versions[j], chosen) <= 0,
{
    if select_spec(versions, latest_tag, Some(requirement), Ok::<Seq<char>, EspmErrorView>(chosen)) {
        let t = trim_ws(requirement);
        let p = |v: Seq<char>| spec_version_valid(v) && spec_req_matches(t, v);
        let k = choose|k: int| crate::versions::is_last_max(versions, p, k) && chosen == #[trigger] versions[k];
        assert(p(versions[k]));
        assert(versions[k] == chosen);
        assert forall|j: int|
            0 <= j < versions.len() && versions[j] != chosen && spec_version_valid(versions[j]) && spec_req_matches(
                t,
                versions[j],
            ) implies spec_version_order(#[trigger] versions[j], chosen) <= 0 by {
            assert(p(versions[j]));
        }
    }
}


/// Law: a locked `file:` package that is selected and not already installed
/// at its version is installed from its locked path, under the scope and
/// name of its lock id; a lock id of an unknown kind is skipped as such.
pub proof fn lemma_locked_local_package_keeps_its_identity(
    options: InstallOptions,
    pkg: LockPackageView,
    installed: Option<Seq<char>>,
)
    requires
        options.include_dev || !pkg.dev,
        options.force || installed != Some(pkg.resolved_version),
        spec_parse_lock_package_id(pkg.id) is Ok,
    ensures
        ({
            let (k, sc, n) = spec_parse_lock_package_id(pkg.id)->Ok_0;
            &&& k == "file"@ ==> spec_lock_install_action(options, pkg, installed) == Ok::<
                Option<InstallActionView>,
                EspmErrorView,
            >(Some(InstallActionView::Local { path: pkg.tarball, scope: sc, name: n }))
            &&& !(k == "file"@ || k == "npm"@ || k == "jsr"@ || k == "http"@ || k == "https"@)
                ==> spec_lock_install_action(options, pkg, installed) == Ok::<Option<InstallActionView>, EspmErrorView>(
                Some(InstallActionView::Unsupported { kind: k }),
            )
        }),
{
    reveal_strlit("file");
    reveal_strlit("npm");
    reveal_strlit("jsr");
    reveal_strlit("http");
    reveal_strlit("https");
    assert("file"@[0] == 'f' && "npm"@[0] == 'n' && "jsr"@[0] == 'j' && "http"@[0] == 'h' && "https"@[0] == 'h');
}

/// Law: a resolved package that is not already installed at its version is
/// installed as itself: registry and remote packages from their tarball into
/// the directory of their own scope and name, `file:` packages from their
/// path; any other kind is refused.
pub proof fn lemma_resolved_package_installs_as_itself(
    options: InstallOptions,
    pkg: ResolvedPackageView,
    installed: Option<Seq<char>>,
)
    requires
        options.force || installed != Some(pkg.version),
    ensures
        (pkg.kind == "npm"@ || pkg.kind == "jsr"@ || pkg.kind == "http"@ || pkg.kind == "https"@)
            ==> spec_resolved_install_action(options, pkg, installed) == Ok::<InstallActionView, EspmErrorView>(
            InstallActionView::Tarball {
                url: pkg.tarball,
                scope: match pkg.scope {
                    Some(s) => s,
                    None => Seq::<char>::empty(),
                },
                name: pkg.name,
            },
        ),
        pkg.kind == "file"@ ==> spec_resolved_install_action(options, pkg, installed) == Ok::<
            InstallActionView,
            EspmErrorView,
        >(InstallActionView::Local { path: pkg.tarball, scope: pkg.scope, name: pkg.name }),
        !(pkg.kind == "file"@ || pkg.kind == "npm"@ || pkg.kind == "jsr"@ || pkg.kind == "http"@ || pkg.kind
            == "https"@) ==> spec_resolved_install_action(options, pkg, installed) == Err::<
            InstallActionView,
            EspmErrorView,
        >(EspmErrorView::UnsupportedKind(pkg.kind)),
{
    reveal_strlit("file");
    reveal_strlit("npm");
    reveal_strlit("jsr");
    reveal_strlit("http");
    reveal_strlit("https");
    assert("file"@[0] == 'f' && "npm"@[0] == 'n' && "jsr"@[0] == 'j' && "http"@[0] == 'h' && "https"@[0] == 'h');
}

/// Law: updating an npm package to a version installs the tarball of that
/// very package from the npm registry, into the directory of the scope the
/// specifier names.
pub proof fn lemma_updated_npm_package_downloads_itself(
    source: Seq<char>,
    identity_scope: Option<Seq<char>>,
    identity_name: Seq<char>,
    base_dir: Seq<char>,
)
    requires
        spec_parse_specifier(source) is Ok,
        spec_parse_specifier(source)->Ok_0.kind == "npm"@,
        spec_parse_specifier(source)->Ok_0.version is Some,
        spec_parse_specifier(source)->Ok_0.version->Some_0 != "latest"@,
    ensures
        ({
            let p = spec_parse_specifier(source)->Ok_0;
            let v = p.version->Some_0;
            spec_download_action(p, identity_scope, identity_name, base_dir) == Ok::<InstallActionView, EspmErrorView>(
                InstallActionView::Tarball {
                    url: crate::specifier::spec_npm_tarball_url(p.scope, identity_name, v),
                    scope: match p.scope {
                        Some(s) => s,
                        None => Seq::<char>::empty(),
                    },
                    name: identity_name,
                },
            )
        }),
{
    reveal_strlit("npm");
    reveal_strlit("jsr");
    assert("npm"@[0] == 'n' && "jsr"@[0] == 'j');
    let p = spec_parse_specifier(source)->Ok_0;
    let s = trim_ws(source);
    assert(has_prefix(s, "jsr:"@) || has_prefix(s, "npm:"@)) by {
        reveal_strlit("file");
        reveal_strlit("http");
        reveal_strlit("https");
        assert("file"@[0] == 'f' && "http"@[0] == 'h' && "https"@[0] == 'h');
    }
    let rest = s.subrange(4, s.len() as int);
    assert(split_version(rest).1 == p.version);
    assert(p.version->Some_0.len() > 0);
}

} // verus!
