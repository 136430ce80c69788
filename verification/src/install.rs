//! Planning of installs: the dependency requests of import maps and of
//! packages, the install queue, and the lockfile.

use std::collections::VecDeque;
use vstd::prelude::*;

use crate::error::{EspmError, EspmErrorView};
use crate::import_map::{entry_map, find_key, keys_unique, lemma_entry_map_at, has_key};
use crate::models::{
    pairs_view, DependencyRequest, DependencyRequestView, EspmJson, EspmLock, ImportMap,
    InstallOptions, LockPackage, LockPackageView, ResolvedPackage,
};
use crate::paths::{parse_package_key, spec_parse_package_key};
use crate::specifier::{
    opt_view, parse_npm_dependency_name, requested_specifier_from_parts, spec_parse_specifier,
    spec_requested_specifier, split_package_name, Specifier,
};
use crate::text::{seq_le, seq_lt, str_eq, str_lt, lemma_seq_lt_irreflexive, lemma_seq_lt_transitive, lemma_seq_lt_trichotomy};

verus! {

/// The views of a list of requests.
pub open spec fn requests_view(v: Seq<DependencyRequest>) -> Seq<DependencyRequestView> {
    v.map_values(|r: DependencyRequest| r@)
}

/// The request that the import-map entry `key: value` stands for: registry
/// specifiers carry their scope, name and version requirement; `file:` and
/// `http(s)://` entries take scope and name from the key; no other kind occurs.
pub open spec fn spec_entry_request(key: Seq<char>, value: Seq<char>, dev: bool) -> Result<Option<DependencyRequestView>, EspmErrorView> {
    match spec_parse_specifier(value) {
        Err(e) => Err(e),
        Ok(sp) => if sp.kind == "npm"@ || sp.kind == "jsr"@ {
            match sp.name {
                None => Err(EspmErrorView::MissingPackageName(value)),
                Some(n) => Ok(
                    Some(
                        DependencyRequestView {
                            source: value,
                            kind: sp.kind,
                            scope: sp.scope,
                            name: n,
                            requirement: sp.version,
                            dev,
                        },
                    ),
                ),
            }
        } else if sp.kind == "file"@ || sp.kind == "http"@ || sp.kind == "https"@ {
            match spec_parse_package_key(key) {
                Err(e) => Err(e),
                Ok((scope, name)) => Ok(
                    Some(
                        DependencyRequestView {
                            source: value,
                            kind: sp.kind,
                            scope,
                            name,
                            requirement: None,
                            dev,
                        },
                    ),
                ),
            }
        } else {
            Ok(None)
        },
    }
}

/// The requests of a list of import-map entries, in order; the first
/// failing entry gives the error.
pub open spec fn spec_requests(s: Seq<(Seq<char>, Seq<char>)>, dev: bool) -> Result<Seq<DependencyRequestView>, EspmErrorView>
    decreases s.len(),
{
    if s.len() == 0 {
        Ok(Seq::empty())
    } else {
        match spec_requests(s.drop_last(), dev) {
            Err(e) => Err(e),
            Ok(acc) => match spec_entry_request(s.last().0, s.last().1, dev) {
                Err(e) => Err(e),
                Ok(Some(r)) => Ok(acc.push(r)),
                Ok(None) => Ok(acc),
            },
        }
    }
}

proof fn lemma_requests_err_stays(s: Seq<(Seq<char>, Seq<char>)>, dev: bool, i: int, e: EspmErrorView)
    requires
        0 <= i <= s.len(),
        spec_requests(s.take(i), dev) == Err::<Seq<DependencyRequestView>, EspmErrorView>(e),
    ensures
        spec_requests(s, dev) == Err::<Seq<DependencyRequestView>, EspmErrorView>(e),
    decreases s.len() - i,
{
    if i < s.len() {
        assert(s.take(i + 1).drop_last() =~= s.take(i));
        lemma_requests_err_stays(s, dev, i + 1, e);
    } else {
        assert(s.take(i) =~= s);
    }
}

/// The view of a request list result.
pub open spec fn requests_result_view(r: Result<Vec<DependencyRequest>, EspmError>) -> Result<Seq<DependencyRequestView>, EspmErrorView> {
    match r {
        Ok(v) => Ok(requests_view(v@)),
        Err(e) => Err(e@),
    }
}

fn entry_request(key: &str, value: &str, dev: bool) -> (r: Result<Option<DependencyRequest>, EspmError>)
    ensures
        match r {
            Ok(Some(q)) => spec_entry_request(key@, value@, dev) == Ok::<Option<DependencyRequestView>, EspmErrorView>(Some(q@)),
            Ok(None) => spec_entry_request(key@, value@, dev) == Ok::<Option<DependencyRequestView>, EspmErrorView>(None),
            Err(e) => spec_entry_request(key@, value@, dev) == Err::<Option<DependencyRequestView>, EspmErrorView>(e@),
        },
{
    let sp = match Specifier::from_string(value) {
        Ok(sp) => sp,
        Err(e) => return Err(e),
    };
    if str_eq(sp.kind.as_str(), "npm") || str_eq(sp.kind.as_str(), "jsr") {
        match sp.name {
            None => Err(EspmError::MissingPackageName(value.to_owned())),
            Some(n) => Ok(
                Some(
                    DependencyRequest {
                        source: value.to_owned(),
                        kind: sp.kind,
                        scope: sp.scope,
                        name: n,
                        requirement: sp.version,
                        dev,
                    },
                ),
            ),
        }
    } else if str_eq(sp.kind.as_str(), "file") || str_eq(sp.kind.as_str(), "http") || str_eq(
        sp.kind.as_str(),
        "https",
    ) {
        match parse_package_key(key) {
            Err(e) => Err(e),
            Ok((scope, name)) => Ok(
                Some(
                    DependencyRequest {
                        source: value.to_owned(),
                        kind: sp.kind,
                        scope,
                        name,
                        requirement: None,
                        dev,
                    },
                ),
            ),
        }
    } else {
        Ok(None)
    }
}

/// The dependency requests of the entries of an import map, in entry order.
pub fn requests_from_import_map(import_map: &ImportMap, dev: bool) -> (r: Result<Vec<DependencyRequest>, EspmError>)
    ensures
        requests_result_view(r) == spec_requests(pairs_view(import_map.imports@), dev),
{
    let ghost pv = pairs_view(import_map.imports@);
    let mut out: Vec<DependencyRequest> = Vec::new();
    let mut i: usize = 0;
    assert(pv.take(0) =~= Seq::<(Seq<char>, Seq<char>)>::empty());
    assert(requests_view(out@) =~= Seq::<DependencyRequestView>::empty());
    while i < import_map.imports.len()
        invariant
            pv == pairs_view(import_map.imports@),
            i <= pv.len(),
            spec_requests(pv.take(i as int), dev) == Ok::<Seq<DependencyRequestView>, EspmErrorView>(requests_view(out@)),
        decreases pv.len() - i,
    {
        let ghost old_out = requests_view(out@);
        assert(pv.take(i + 1).drop_last() =~= pv.take(i as int));
        assert(pv.take(i + 1).last() == pv[i as int]);
        assert(pv[i as int] == (import_map.imports@[i as int].0@, import_map.imports@[i as int].1@));
        match entry_request(import_map.imports[i].0.as_str(), import_map.imports[i].1.as_str(), dev) {
            Err(e) => {
                proof { lemma_requests_err_stays(pv, dev, i + 1, e@); }
                return Err(e);
            },
            Ok(Some(q)) => {
                out.push(q);
                assert(requests_view(out@) =~= old_out.push(q@));
            },
            Ok(None) => {},
        }
        i = i + 1;
    }
    assert(pv.take(i as int) =~= pv);
    Ok(out)
}

/// The request for the dependency `name: requirement` of a package, when
/// `name` is a package name: an npm request of that requirement.
pub open spec fn spec_dep_request(name: Seq<char>, requirement: Seq<char>, dev: bool) -> Option<DependencyRequestView> {
    match split_package_name(name) {
        Some((scope, n)) => Some(
            DependencyRequestView {
                source: spec_requested_specifier("npm"@, scope, n, requirement),
                kind: "npm"@,
                scope,
                name: n,
                requirement: Some(requirement),
                dev,
            },
        ),
        None => None,
    }
}

/// The requests of a package's dependencies, in order, skipping entries
/// whose name is no package name.
pub open spec fn spec_dep_requests(deps: Seq<(Seq<char>, Seq<char>)>, dev: bool) -> Seq<DependencyRequestView>
    decreases deps.len(),
{
    if deps.len() == 0 {
        Seq::empty()
    } else {
        let acc = spec_dep_requests(deps.drop_last(), dev);
        match spec_dep_request(deps.last().0, deps.last().1, dev) {
            Some(r) => acc.push(r),
            None => acc,
        }
    }
}

/// The transitive requests of a resolved package: its dependencies, as npm
/// requests that are dev requests when the package is one.
pub fn dependency_requests_from_package(pkg: &ResolvedPackage) -> (r: Vec<DependencyRequest>)
    ensures
        requests_view(r@) == spec_dep_requests(pkg@.dependencies, pkg.dev),
{
    let ghost deps = pkg@.dependencies;
    let mut out: Vec<DependencyRequest> = Vec::new();
    let mut i: usize = 0;
    assert(deps.take(0) =~= Seq::<(Seq<char>, Seq<char>)>::empty());
    assert(requests_view(out@) =~= Seq::<DependencyRequestView>::empty());
    while i < pkg.dependencies.len()
        invariant
            deps == pkg@.dependencies,
            deps == pairs_view(pkg.dependencies@),
            i <= deps.len(),
            spec_dep_requests(deps.take(i as int), pkg.dev) == requests_view(out@),
        decreases deps.len() - i,
    {
        let ghost old_out = requests_view(out@);
        assert(deps.take(i + 1).drop_last() =~= deps.take(i as int));
        assert(deps[i as int] == (pkg.dependencies@[i as int].0@, pkg.dependencies@[i as int].1@));
        let dep_name = pkg.dependencies[i].0.as_str();
        let requirement = pkg.dependencies[i].1.as_str();
        match parse_npm_dependency_name(dep_name) {
            Some((scope, name)) => {
                let scope_ref: Option<&str> = match &scope {
                    Some(s) => Some(s.as_str()),
                    None => None,
                };
                let source = requested_specifier_from_parts("npm", scope_ref, name.as_str(), requirement);
                let q = DependencyRequest {
                    source,
                    kind: "npm".to_owned(),
                    scope,
                    name,
                    requirement: Some(requirement.to_owned()),
                    dev: pkg.dev,
                };
                out.push(q);
                assert(requests_view(out@) =~= old_out.push(q@));
            },
            None => {},
        }
        i = i + 1;
    }
    assert(deps.take(i as int) =~= deps);
    out
}

/// The requests of an optional import map; none when it is absent.
pub open spec fn spec_map_requests(o: Option<ImportMap>, dev: bool) -> Result<Seq<DependencyRequestView>, EspmErrorView> {
    match o {
        Some(m) => spec_requests(pairs_view(m.imports@), dev),
        None => Ok(Seq::empty()),
    }
}

/// The initial install queue: the requests of the import map, then, when
/// dev dependencies are included, those of the dev import map.
pub open spec fn spec_install_queue(espm_json: EspmJson, options: InstallOptions) -> Result<Seq<DependencyRequestView>, EspmErrorView> {
    match spec_map_requests(espm_json.import_map, false) {
        Err(e) => Err(e),
        Ok(main) => if options.include_dev {
            match spec_map_requests(espm_json.import_map_dev, true) {
                Err(e) => Err(e),
                Ok(dev) => Ok(main + dev),
            }
        } else {
            Ok(main)
        },
    }
}

/// Moves all of `items`, in order, to the back of `queue`.
fn push_all(queue: &mut VecDeque<DependencyRequest>, items: Vec<DependencyRequest>)
    ensures
        requests_view(final(queue)@) == requests_view(old(queue)@) + requests_view(items@),
{
    let ghost start = requests_view(queue@);
    let ghost all = requests_view(items@);
    let _total = items.len();
    let mut rest = items;
    let mut moved: usize = 0;
    assert(all.len() == items@.len());
    while rest.len() > 0
        invariant
            all.len() <= usize::MAX,
            moved <= all.len(),
            requests_view(rest@) == all.subrange(moved as int, all.len() as int),
            requests_view(queue@) == start + all.subrange(0, moved as int),
        decreases rest@.len(),
    {
        let ghost before = rest@;
        assert(requests_view(rest@).len() == rest@.len());
        assert(moved < all.len());
        let x = rest.remove(0);
        assert(x@ == all[moved as int]) by {
            assert(before[0] == x);
            assert(requests_view(before)[0] == before[0]@);
            assert(all.subrange(moved as int, all.len() as int)[0] == all[moved as int]);
        }
        let ghost qb = queue@;
        queue.push_back(x);
        assert(requests_view(queue@) =~= requests_view(qb).push(x@));
        assert(requests_view(rest@) =~= requests_view(before).drop_first());
        assert(requests_view(queue@) =~= start + all.subrange(0, moved as int + 1));
        moved = moved + 1;
    }
    assert(all.subrange(0, moved as int) =~= all);
}

/// Builds the queue of requests with which an install starts.
pub fn build_install_queue(espm_json: &EspmJson, options: InstallOptions) -> (r: Result<VecDeque<DependencyRequest>, EspmError>)
    ensures
        match r {
            Ok(q) => spec_install_queue(*espm_json, options) == Ok::<Seq<DependencyRequestView>, EspmErrorView>(requests_view(q@)),
            Err(e) => spec_install_queue(*espm_json, options) == Err::<Seq<DependencyRequestView>, EspmErrorView>(e@),
        },
{
    let mut queue: VecDeque<DependencyRequest> = VecDeque::new();
    assert(requests_view(queue@) =~= Seq::<DependencyRequestView>::empty());
    match &espm_json.import_map {
        Some(m) => {
            match requests_from_import_map(m, false) {
                Ok(v) => {
                    push_all(&mut queue, v);
                    assert(requests_view(queue@) =~= Seq::<DependencyRequestView>::empty() + requests_view(v@));
                },
                Err(e) => return Err(e),
            }
        },
        None => {},
    }
    if options.include_dev {
        match &espm_json.import_map_dev {
            Some(m) => {
                match requests_from_import_map(m, true) {
                    Ok(v) => {
                        push_all(&mut queue, v);
                    },
                    Err(e) => return Err(e),
                }
            },
            None => {
                assert(requests_view(queue@) =~= requests_view(queue@) + Seq::<DependencyRequestView>::empty());
            },
        }
    }
    Ok(queue)
}


/// The views of a list of lock packages.
pub open spec fn locks_view(v: Seq<LockPackage>) -> Seq<LockPackageView> {
    v.map_values(|p: LockPackage| p@)
}

/// The sort key of a lock entry: its id, or `id@resolved_version`.
pub open spec fn lock_sort_key(p: LockPackageView, by_id: bool) -> Seq<char> {
    if by_id {
        p.id
    } else {
        p.id + "@"@ + p.resolved_version
    }
}

/// `idx` lists distinct positions below `n`, `n` of them.
pub open spec fn is_perm(idx: Seq<int>, n: int) -> bool {
    &&& idx.len() == n
    &&& forall|a: int| 0 <= a < n ==> 0 <= #[trigger] idx[a] < n
    &&& forall|a: int, b: int| 0 <= a < n && 0 <= b < n && a != b ==> #[trigger] idx[a] != #[trigger] idx[b]
}

/// `out` is `inp` stably sorted by `lock_sort_key`: a rearrangement of it
/// in non-decreasing key order in which entries of equal key keep their
/// relative order.
pub open spec fn stably_sorted(out: Seq<LockPackageView>, inp: Seq<LockPackageView>, by_id: bool) -> bool {
    exists|idx: Seq<int>|
        #![trigger is_perm(idx, inp.len() as int)]
        is_perm(idx, inp.len() as int) && out.len() == inp.len() && (forall|a: int|
            0 <= a < out.len() ==> #[trigger] out[a] == inp[idx[a]]) && (forall|a: int, b: int|
            0 <= a < b < out.len() ==> seq_le(
                lock_sort_key(#[trigger] out[a], by_id),
                lock_sort_key(#[trigger] out[b], by_id),
            ) && (lock_sort_key(out[a], by_id) == lock_sort_key(out[b], by_id) ==> idx[a] < idx[b]))
}

proof fn lemma_lt_le(a: Seq<char>, b: Seq<char>, c: Seq<char>)
    requires
        seq_lt(a, b),
        seq_le(b, c),
    ensures
        seq_lt(a, c),
{
    if b != c {
        lemma_seq_lt_transitive(a, b, c);
    }
}


fn sort_key_of(p: &LockPackage, by_id: bool) -> (r: String)
    ensures
        r@ == lock_sort_key(p@, by_id),
{
    if by_id {
        p.id.clone()
    } else {
        crate::paths::lock_key_for_sort(p)
    }
}

/// Sorts lock entries by `lock_sort_key`, stably.
pub fn stable_sort_locks(entries: Vec<LockPackage>, by_id: bool) -> (r: Vec<LockPackage>)
    ensures
        stably_sorted(locks_view(r@), locks_view(entries@), by_id),
{
    let ghost inp = locks_view(entries@);
    let ghost n = inp.len() as int;
    let mut src = entries;
    let total = src.len();
    let mut out: Vec<LockPackage> = Vec::new();
    let ghost mut idx: Seq<int> = Seq::empty();
    let mut i: usize = 0;
    assert(locks_view(src@) =~= inp.subrange(0, n));
    while src.len() > 0
        invariant
            n == inp.len(),
            n == total,
            i <= n,
            locks_view(src@) == inp.subrange(i as int, n),
            out@.len() == i,
            idx.len() == i,
            forall|a: int| 0 <= a < i ==> 0 <= #[trigger] idx[a] < i,
            forall|a: int, b: int| 0 <= a < i && 0 <= b < i && a != b ==> #[trigger] idx[a] != #[trigger] idx[b],
            forall|a: int| 0 <= a < i ==> #[trigger] locks_view(out@)[a] == inp[idx[a]],
            forall|a: int, b: int|
                0 <= a < b < i ==> seq_le(
                    lock_sort_key(#[trigger] locks_view(out@)[a], by_id),
                    lock_sort_key(#[trigger] locks_view(out@)[b], by_id),
                ) && (lock_sort_key(locks_view(out@)[a], by_id) == lock_sort_key(locks_view(out@)[b], by_id) ==> idx[a] < idx[b]),
        decreases src@.len(),
    {
        let ghost old_out = locks_view(out@);
        let ghost old_src = locks_view(src@);
        let ghost src_before = src@;
        assert(old_src.len() == n - i);
        let e = src.remove(0);
        let ghost ev = e@;
        assert(e == src_before[0]);
        assert(old_src[0] == src_before[0]@);
        assert(old_src[0] == inp[i as int]);
        assert(src@ =~= src_before.subrange(1, src_before.len() as int));
        assert forall|j: int| 0 <= j < n - i - 1 implies #[trigger] locks_view(src@)[j] == inp[i + 1 + j] by {
            assert(locks_view(src@)[j] == src_before[j + 1]@);
            assert(old_src[j + 1] == src_before[j + 1]@);
        }
        assert(locks_view(src@) =~= inp.subrange(i + 1, n));
        let k = sort_key_of(&e, by_id);
        let mut pos: usize = 0;
        while pos < out.len() && !str_lt(k.as_str(), sort_key_of(&out[pos], by_id).as_str())
            invariant
                pos <= out@.len(),
                old_out == locks_view(out@),
                k@ == lock_sort_key(ev, by_id),
                forall|j: int| 0 <= j < pos ==> !seq_lt(k@, lock_sort_key(#[trigger] old_out[j], by_id)),
            decreases out@.len() - pos,
        {
            pos = pos + 1;
        }
        out.insert(pos, e);
        proof {
            let new_out = locks_view(out@);
            assert(new_out =~= old_out.insert(pos as int, ev));
            let new_idx = idx.insert(pos as int, i as int);
            let kk = lock_sort_key(ev, by_id);
            assert forall|j: int| 0 <= j < pos implies seq_le(lock_sort_key(#[trigger] old_out[j], by_id), kk) by {
                lemma_seq_lt_trichotomy(lock_sort_key(old_out[j], by_id), kk);
            }
            assert forall|a: int, b: int|
                0 <= a < b < i + 1 implies seq_le(
                    lock_sort_key(#[trigger] new_out[a], by_id),
                    lock_sort_key(#[trigger] new_out[b], by_id),
                ) && (lock_sort_key(new_out[a], by_id) == lock_sort_key(new_out[b], by_id) ==> new_idx[a]
                    < new_idx[b]) by {
                if a < pos {
                    if b == pos {
                        assert(new_out[b] == ev);
                        assert(new_out[a] == old_out[a]);
                    } else if b > pos {
                        assert(new_out[a] == old_out[a]);
                        assert(new_out[b] == old_out[b - 1]);
                    } else {
                        assert(new_out[a] == old_out[a]);
                        assert(new_out[b] == old_out[b]);
                    }
                } else if a == pos {
                    assert(new_out[a] == ev);
                    assert(new_out[b] == old_out[b - 1]);
                    let kp = lock_sort_key(old_out[pos as int], by_id);
                    let kb = lock_sort_key(old_out[b - 1], by_id);
                    assert(seq_lt(kk, kp));
                    if b - 1 > pos {
                        assert(seq_le(kp, kb));
                    }
                    lemma_lt_le(kk, kp, kb);
                    lemma_seq_lt_irreflexive(kk);
                } else {
                    assert(new_out[a] == old_out[a - 1]);
                    assert(new_out[b] == old_out[b - 1]);
                }
            }
            assert forall|a: int| 0 <= a < i + 1 implies #[trigger] new_out[a] == inp[new_idx[a]] by {
                if a < pos {
                    assert(new_out[a] == old_out[a]);
                } else if a > pos {
                    assert(new_out[a] == old_out[a - 1]);
                }
            }
            assert forall|a: int, b: int| 0 <= a < i + 1 && 0 <= b < i + 1 && a != b implies #[trigger] new_idx[a]
                != #[trigger] new_idx[b] by {
                if a != pos && b != pos {
                    let a2 = if a < pos { a } else { a - 1 };
                    let b2 = if b < pos { b } else { b - 1 };
                    assert(new_idx[a] == idx[a2]);
                    assert(new_idx[b] == idx[b2]);
                } else if a == pos {
                    let b2 = if b < pos { b } else { b - 1 };
                    assert(new_idx[b] == idx[b2]);
                } else {
                    let a2 = if a < pos { a } else { a - 1 };
                    assert(new_idx[a] == idx[a2]);
                }
            }
            assert forall|a: int| 0 <= a < i + 1 implies 0 <= #[trigger] new_idx[a] < i + 1 by {
                if a < pos {
                    assert(new_idx[a] == idx[a]);
                } else if a > pos {
                    assert(new_idx[a] == idx[a - 1]);
                }
            }
            idx = new_idx;
        }
        i = i + 1;
    }
    proof {
        assert(is_perm(idx, n));
    }
    out
}

/// The lockfile of the given entries: format version 1, entries stably
/// sorted by `id@resolved_version`.
pub fn finalize_lockfile(entries: Vec<LockPackage>) -> (r: EspmLock)
    ensures
        r.version == 1,
        stably_sorted(locks_view(r.packages@), locks_view(entries@), false),
{
    EspmLock { version: 1, packages: stable_sort_locks(entries, false) }
}


/// The lock entry that records a resolved package.
pub open spec fn spec_lock_of(p: crate::models::ResolvedPackageView) -> LockPackageView {
    LockPackageView {
        id: p.key,
        source: p.source,
        resolved_version: p.version,
        tarball: p.tarball,
        requested: p.requested,
        dev: p.dev,
    }
}

/// The lock entry of a resolved package.
pub fn lock_entry_of(p: &ResolvedPackage) -> (r: LockPackage)
    ensures
        r@ == spec_lock_of(p@),
{
    LockPackage {
        id: p.key.clone(),
        source: p.source.clone(),
        resolved_version: p.version.clone(),
        tarball: p.tarball.clone(),
        requested: match &p.requested {
            Some(q) => Some(q.clone()),
            None => None,
        },
        dev: p.dev,
    }
}

/// Whether a resolved package is installed or was installed already.
#[derive(Debug, Clone, PartialEq, Eq)]
pub enum Admission {
    /// Its key is new: install it.
    Install,
    /// A package of the same key is installed at `installed_version`;
    /// `conflict` tells that this is another version.
    Duplicate { installed_version: String, conflict: bool },
}

/// The state of an install run from the configuration: the requests still
/// to resolve, the versions installed per package key, the lock entries in
/// the order of installation, and how many packages were (re)installed.
pub struct InstallSession {
    queue: VecDeque<DependencyRequest>,
    installed: Vec<(String, String)>,
    locks: Vec<LockPackage>,
    installed_count: usize,
}

impl InstallSession {
    /// The requests still to resolve, first in front.
    pub closed spec fn pending(&self) -> Seq<DependencyRequestView> {
        requests_view(self.queue@)
    }

    /// The installed version of each package key.
    pub closed spec fn installed_versions(&self) -> Map<Seq<char>, Seq<char>> {
        entry_map(pairs_view(self.installed@))
    }

    /// The lock entries, in the order in which packages were recorded.
    pub closed spec fn lock_entries(&self) -> Seq<LockPackageView> {
        locks_view(self.locks@)
    }

    /// The number of packages recorded as installed now.
    pub closed spec fn count(&self) -> nat {
        self.installed_count as nat
    }

    /// Each key is installed once, with one lock entry that holds its version.
    pub closed spec fn wf(&self) -> bool {
        &&& keys_unique(pairs_view(self.installed@))
        &&& self.locks@.len() == self.installed@.len()
        &&& forall|i: int|
            0 <= i < self.locks@.len() ==> (#[trigger] self.locks@[i]).id@ == self.installed@[i].0@
                && self.locks@[i].resolved_version@ == self.installed@[i].1@
        &&& self.installed_count <= self.locks@.len()
    }

    /// A session that starts from `queue`.
    pub fn new(queue: VecDeque<DependencyRequest>) -> (r: Self)
        ensures
            r.wf(),
            r.pending() == requests_view(queue@),
            r.installed_versions() == Map::<Seq<char>, Seq<char>>::empty(),
            r.lock_entries() == Seq::<LockPackageView>::empty(),
            r.count() == 0,
    {
        let r = InstallSession { queue, installed: Vec::new(), locks: Vec::new(), installed_count: 0 };
        assert(r.installed_versions() =~= Map::<Seq<char>, Seq<char>>::empty());
        assert(r.lock_entries() =~= Seq::<LockPackageView>::empty());
        r
    }

    /// Takes the next request to resolve, if any.
    pub fn next_request(&mut self) -> (r: Option<DependencyRequest>)
        requires
            old(self).wf(),
        ensures
            final(self).wf(),
            final(self).installed_versions() == old(self).installed_versions(),
            final(self).lock_entries() == old(self).lock_entries(),
            final(self).count() == old(self).count(),
            old(self).pending().len() == 0 ==> r is None && final(self).pending() == old(self).pending(),
            old(self).pending().len() > 0 ==> (r matches Some(q) && q@ == old(self).pending()[0]
                && final(self).pending() == old(self).pending().drop_first()),
    {
        let ghost before = self.queue@;
        let r = self.queue.pop_front();
        if r.is_some() {
            assert(requests_view(self.queue@) =~= requests_view(before).drop_first());
        }
        r
    }

    /// Whether `resolved` is to be installed: only when no package of its
    /// key was installed in this run.
    pub fn admission_of(&self, resolved: &ResolvedPackage) -> (r: Admission)
        requires
            self.wf(),
        ensures
            match r {
                Admission::Install => !self.installed_versions().dom().contains(resolved.key@),
                Admission::Duplicate { installed_version, conflict } => self.installed_versions().dom().contains(
                    resolved.key@,
                ) && installed_version@ == self.installed_versions()[resolved.key@] && conflict == (
                installed_version@ != resolved.version@),
            },
    {
        match find_key(&self.installed, resolved.key.as_str()) {
            Some(i) => {
                proof { lemma_entry_map_at(pairs_view(self.installed@), i as int); }
                let v = self.installed[i].1.clone();
                let conflict = !str_eq(v.as_str(), resolved.version.as_str());
                Admission::Duplicate { installed_version: v, conflict }
            },
            None => Admission::Install,
        }
    }

    /// Records a package that was installed (or found installed, when
    /// `installed_now` is false): its version, its lock entry, and its
    /// dependencies as new requests at the end of the queue.
    pub fn record(&mut self, resolved: &ResolvedPackage, installed_now: bool)
        requires
            old(self).wf(),
            !old(self).installed_versions().dom().contains(resolved.key@),
        ensures
            final(self).wf(),
            final(self).installed_versions() == old(self).installed_versions().insert(resolved.key@, resolved.version@),
            final(self).lock_entries() == old(self).lock_entries().push(spec_lock_of(resolved@)),
            final(self).pending() == old(self).pending() + spec_dep_requests(resolved@.dependencies, resolved.dev),
            final(self).count() == old(self).count() + if installed_now { 1nat } else { 0nat },
    {
        let ghost old_locks = locks_view(self.locks@);
        let ghost old_queue = requests_view(self.queue@);
        let ghost old_installed = pairs_view(self.installed@);
        assert(!has_key(old_installed, resolved.key@));
        let entry = lock_entry_of(resolved);
        self.locks.push(entry);
        let ghost old_inst_raw = self.installed@;
        self.installed.push((resolved.key.clone(), resolved.version.clone()));
        let _n = self.locks.len();
        if installed_now {
            self.installed_count = self.installed_count + 1;
        }
        let more = dependency_requests_from_package(resolved);
        push_all(&mut self.queue, more);
        proof {
            let new_installed = pairs_view(self.installed@);
            assert(new_installed =~= old_installed.push((resolved.key@, resolved.version@)));
            assert forall|a: int, b: int|
                0 <= a < new_installed.len() && 0 <= b < new_installed.len() && #[trigger] new_installed[a].0
                    == #[trigger] new_installed[b].0 implies a == b by {
                if a < old_installed.len() && b == old_installed.len() {
                    assert(old_installed[a].0 == resolved.key@);
                }
                if b < old_installed.len() && a == old_installed.len() {
                    assert(old_installed[b].0 == resolved.key@);
                }
            }
            assert forall|i: int|
                0 <= i < self.locks@.len() implies (#[trigger] self.locks@[i]).id@ == self.installed@[i].0@
                    && self.locks@[i].resolved_version@ == self.installed@[i].1@ by {
                if i < old_installed.len() {
                    assert(self.installed@[i] == old_inst_raw[i]);
                }
            }
            assert forall|k2: Seq<char>| has_key(new_installed, k2) <==> (has_key(old_installed, k2) || k2 == resolved.key@) by {
                if has_key(new_installed, k2) {
                    let j = choose|j: int| 0 <= j < new_installed.len() && #[trigger] new_installed[j].0 == k2;
                    if j < old_installed.len() {
                        assert(old_installed[j].0 == k2);
                    }
                }
                if has_key(old_installed, k2) {
                    let j = choose|j: int| 0 <= j < old_installed.len() && #[trigger] old_installed[j].0 == k2;
                    assert(new_installed[j].0 == k2);
                }
                if k2 == resolved.key@ {
                    assert(new_installed[old_installed.len() as int].0 == k2);
                }
            }
            assert forall|k2: Seq<char>| #[trigger] entry_map(new_installed).dom().contains(k2) implies entry_map(
                new_installed,
            )[k2] == entry_map(old_installed).insert(resolved.key@, resolved.version@)[k2] by {
                let j = choose|j: int| 0 <= j < new_installed.len() && #[trigger] new_installed[j].0 == k2;
                lemma_entry_map_at(new_installed, j);
                if j < old_installed.len() {
                    lemma_entry_map_at(old_installed, j);
                }
            }
            assert(entry_map(new_installed) =~= entry_map(old_installed).insert(resolved.key@, resolved.version@));
            assert(locks_view(self.locks@) =~= old_locks.push(spec_lock_of(resolved@)));
            assert(requests_view(self.queue@) =~= old_queue + spec_dep_requests(resolved@.dependencies, resolved.dev));
        }
    }

    /// How many packages were installed now.
    pub fn installed_count(&self) -> (r: usize)
        ensures
            r == self.count(),
    {
        self.installed_count
    }

    /// The lockfile of the run: the lock entries ordered by id, then
    /// finalized (stably sorted by `id@resolved_version`).
    pub fn finish(self) -> (r: EspmLock)
        ensures
            r.version == 1,
            exists|by_id: Seq<LockPackageView>|
                stably_sorted(by_id, self.lock_entries(), true) && stably_sorted(
                    locks_view(r.packages@),
                    by_id,
                    false,
                ),
    {
        let sorted = stable_sort_locks(self.locks, true);
        let ghost by_id = locks_view(sorted@);
        let r = finalize_lockfile(sorted);
        assert(stably_sorted(by_id, self.lock_entries(), true) && stably_sorted(locks_view(r.packages@), by_id, false));
        r
    }
}

/// Law: during an install run, every package key has exactly one lock
/// entry, and that entry holds the version installed for the key.
pub proof fn lemma_one_lock_entry_per_key(s: &InstallSession)
    requires
        s.wf(),
    ensures
        forall|i: int|
            0 <= i < s.lock_entries().len() ==> s.installed_versions().dom().contains(
                (#[trigger] s.lock_entries()[i]).id,
            ) && s.installed_versions()[s.lock_entries()[i].id] == s.lock_entries()[i].resolved_version,
        forall|i: int, j: int|
            0 <= i < s.lock_entries().len() && 0 <= j < s.lock_entries().len() && #[trigger] s.lock_entries()[i].id
                == #[trigger] s.lock_entries()[j].id ==> i == j,
        forall|k: Seq<char>|
            #[trigger] s.installed_versions().dom().contains(k) ==> exists|i: int|
                0 <= i < s.lock_entries().len() && s.lock_entries()[i].id == k,
{
    let pv = pairs_view(s.installed@);
    assert forall|i: int| 0 <= i < s.lock_entries().len() implies s.installed_versions().dom().contains(
        (#[trigger] s.lock_entries()[i]).id,
    ) && s.installed_versions()[s.lock_entries()[i].id] == s.lock_entries()[i].resolved_version by {
        assert(s.locks@[i].id@ == s.installed@[i].0@);
        lemma_entry_map_at(pv, i);
    }
    assert forall|i: int, j: int|
        0 <= i < s.lock_entries().len() && 0 <= j < s.lock_entries().len() && #[trigger] s.lock_entries()[i].id
            == #[trigger] s.lock_entries()[j].id implies i == j by {
        assert(s.locks@[i].id@ == s.installed@[i].0@);
        assert(s.locks@[j].id@ == s.installed@[j].0@);
        assert(pv[i].0 == pv[j].0);
    }
    assert forall|k: Seq<char>| #[trigger] s.installed_versions().dom().contains(k) implies exists|i: int|
        0 <= i < s.lock_entries().len() && s.lock_entries()[i].id == k by {
        let i = choose|i: int| 0 <= i < pv.len() && #[trigger] pv[i].0 == k;
        assert(s.locks@[i].id@ == s.installed@[i].0@);
        assert(s.lock_entries()[i].id == k);
    }
}

} // verus!
