//! Semantic versions: which texts are versions and requirements (as the
//! `semver` crate decides), and the choice of the version to install.

use vstd::prelude::*;

use crate::error::{EspmError, EspmErrorView};
use crate::import_map::strings_view;
use crate::specifier::opt_str_view;
use crate::text::{str_eq, string_of, trim_chars, trim_ws};

verus! {

/// Whether `semver::Version::parse` accepts `raw`.
pub uninterp spec fn spec_version_valid(raw: Seq<char>) -> bool;

/// Whether `semver::VersionReq::parse` accepts `text`.
pub uninterp spec fn spec_req_valid(text: Seq<char>) -> bool;

/// Whether the requirement `req` matches the version `version`
/// (`semver::VersionReq::matches`).
pub uninterp spec fn spec_req_matches(req: Seq<char>, version: Seq<char>) -> bool;

/// The order of two versions (`Ord for semver::Version`): -1, 0 or 1.
pub uninterp spec fn spec_version_order(a: Seq<char>, b: Seq<char>) -> int;

/// `semver::Version::parse(raw).is_ok()`.
#[verifier::external_body]
fn version_is_valid(raw: &str) -> (r: bool)
    ensures
        r == spec_version_valid(raw@),
{
    semver::Version::parse(raw).is_ok()
}

/// `semver::VersionReq::parse(text).is_ok()`.
#[verifier::external_body]
fn requirement_is_valid(text: &str) -> (r: bool)
    ensures
        r == spec_req_valid(text@),
{
    semver::VersionReq::parse(text).is_ok()
}

/// `semver::VersionReq::matches` on the parsed requirement and version.
#[verifier::external_body]
fn requirement_matches(req: &str, version: &str) -> (r: bool)
    requires
        spec_req_valid(req@),
        spec_version_valid(version@),
    ensures
        r == spec_req_matches(req@, version@),
{
    match (semver::VersionReq::parse(req), semver::Version::parse(version)) {
        (Ok(q), Ok(v)) => q.matches(&v),
        _ => false,
    }
}

/// `Ord::cmp` of the parsed versions, as -1, 0 or 1. `semver::Version`
/// derives `Ord`, a total order: the result is antisymmetric, and a
/// version at or below `b` is at or below `a` when `a` is at or above `b`.
#[verifier::external_body]
fn compare_versions(a: &str, b: &str) -> (r: i8)
    requires
        spec_version_valid(a@),
        spec_version_valid(b@),
    ensures
        r == spec_version_order(a@, b@),
        -1 <= r <= 1,
        spec_version_order(b@, a@) == -r,
        r >= 0 ==> forall|x: Seq<char>|
            #![trigger spec_version_order(x, a@)]
            spec_version_valid(x) && spec_version_order(x, b@) <= 0 ==> spec_version_order(x, a@) <= 0,
{
    match semver::Version::parse(a).unwrap().cmp(&semver::Version::parse(b).unwrap()) {
        core::cmp::Ordering::Less => -1,
        core::cmp::Ordering::Equal => 0,
        core::cmp::Ordering::Greater => 1,
    }
}

/// The requirement text used for `requirement`: none for an absent, empty or
/// `latest` requirement; else the trimmed text when it parses, else the text
/// with `=` in front when that parses, else none.
pub open spec fn spec_version_req(requirement: Option<Seq<char>>) -> Option<Seq<char>> {
    match requirement {
        None => None,
        Some(r) => {
            let t = trim_ws(r);
            if t.len() == 0 || t == "latest"@ {
                None
            } else if spec_req_valid(t) {
                Some(t)
            } else if spec_req_valid("="@ + t) {
                Some("="@ + t)
            } else {
                None
            }
        },
    }
}

/// The requirement that `requirement` stands for, as text that
/// `semver::VersionReq::parse` accepts (an exact version is prefixed with `=`).
pub fn parse_version_req(requirement: Option<&str>) -> (r: Option<String>)
    ensures
        crate::specifier::opt_view(r) == spec_version_req(opt_str_view(requirement)),
        r matches Some(t) ==> spec_req_valid(t@),
{
    let req = match requirement {
        Some(q) => q,
        None => return None,
    };
    let t = string_of(trim_chars(req).as_slice());
    if t.as_str().is_empty() || str_eq(t.as_str(), "latest") {
        return None;
    }
    if requirement_is_valid(t.as_str()) {
        return Some(t);
    }
    let mut exact = "=".to_owned();
    exact.append(t.as_str());
    if requirement_is_valid(exact.as_str()) {
        Some(exact)
    } else {
        None
    }
}

/// `vs[k]` is the last of the greatest versions among those that satisfy `p`:
/// no version satisfying `p` is above it, and none after it is equal to it.
pub open spec fn is_last_max(vs: Seq<Seq<char>>, p: spec_fn(Seq<char>) -> bool, k: int) -> bool {
    &&& 0 <= k < vs.len()
    &&& p(vs[k])
    &&& forall|j: int| 0 <= j < vs.len() && j != k && p(vs[j]) ==> spec_version_order(#[trigger] vs[j], vs[k]) <= 0
    &&& forall|j: int| k < j < vs.len() && p(vs[j]) ==> spec_version_order(#[trigger] vs[j], vs[k]) < 0
}

/// Some version satisfies `p`.
pub open spec fn some_satisfies(vs: Seq<Seq<char>>, p: spec_fn(Seq<char>) -> bool) -> bool {
    exists|i: int| 0 <= i < vs.len() && p(#[trigger] vs[i])
}

/// The view of a string result.
pub open spec fn str_result_view(r: Result<String, EspmError>) -> Result<Seq<char>, EspmErrorView> {
    match r {
        Ok(s) => Ok(s@),
        Err(e) => Err(e@),
    }
}

/// `r` is `Ok` with the last greatest version satisfying `p`.
pub open spec fn picks_last_max(r: Result<Seq<char>, EspmErrorView>, vs: Seq<Seq<char>>, p: spec_fn(Seq<char>) -> bool) -> bool {
    r matches Ok(s) && exists|k: int| is_last_max(vs, p, k) && s == #[trigger] vs[k]
}

/// What choosing among `vs` with `latest_tag` and `requirement` gives (see
/// `select_latest_compatible_version`).
pub open spec fn select_spec(
    vs: Seq<Seq<char>>,
    latest_tag: Option<Seq<char>>,
    requirement: Option<Seq<char>>,
    r: Result<Seq<char>, EspmErrorView>,
) -> bool {
    let valid = |v: Seq<char>| spec_version_valid(v);
    if !some_satisfies(vs, valid) {
        r == Err::<Seq<char>, EspmErrorView>(EspmErrorView::NoValidVersions)
    } else {
        match spec_version_req(requirement) {
            Some(t) => {
                let p = |v: Seq<char>| spec_version_valid(v) && spec_req_matches(t, v);
                if some_satisfies(vs, p) {
                    picks_last_max(r, vs, p)
                } else {
                    r == Err::<Seq<char>, EspmErrorView>(
                        EspmErrorView::NoMatchingVersion(
                            match requirement {
                                Some(q) => q,
                                None => Seq::empty(),
                            },
                        ),
                    )
                }
            },
            None => match latest_tag {
                Some(tag) if spec_version_valid(tag) => r == Ok::<Seq<char>, EspmErrorView>(tag),
                _ => picks_last_max(r, vs, valid),
            },
        }
    }
}

/// Index of the last greatest version among those that satisfy the
/// requirement `req` (all valid ones when `req` is `None`).
fn last_max_index(versions: &Vec<String>, req: &Option<String>) -> (r: Option<usize>)
    requires
        req matches Some(t) ==> spec_req_valid(t@),
    ensures
        ({
            let vs = strings_view(versions@);
            let p = |v: Seq<char>|
                spec_version_valid(v) && match req {
                    Some(t) => spec_req_matches(t@, v),
                    None => true,
                };
            &&& r is None ==> !some_satisfies(vs, p)
            &&& r matches Some(k) ==> is_last_max(vs, p, k as int)
        }),
{
    let ghost vs = strings_view(versions@);
    let ghost p = |v: Seq<char>|
        spec_version_valid(v) && match req {
            Some(t) => spec_req_matches(t@, v),
            None => true,
        };
    let mut best: Option<usize> = None;
    let mut i: usize = 0;
    while i < versions.len()
        invariant
            vs == strings_view(versions@),
            p == (|v: Seq<char>|
                spec_version_valid(v) && match req {
                    Some(t) => spec_req_matches(t@, v),
                    None => true,
                }),
            req matches Some(t) ==> spec_req_valid(t@),
            i <= versions@.len(),
            best is None ==> forall|j: int| 0 <= j < i ==> !p(#[trigger] vs[j]),
            best matches Some(b) ==> {
                &&& b < i
                &&& p(vs[b as int])
                &&& forall|j: int|
                    0 <= j < i && j != b && p(vs[j]) ==> spec_version_order(#[trigger] vs[j], vs[b as int]) <= 0
                &&& forall|j: int| b < j < i && p(vs[j]) ==> spec_version_order(#[trigger] vs[j], vs[b as int]) < 0
            },
        decreases versions@.len() - i,
    {
        let v = versions[i].as_str();
        assert(vs[i as int] == v@);
        let ok = if version_is_valid(v) {
            match req {
                Some(t) => requirement_matches(t.as_str(), v),
                None => true,
            }
        } else {
            false
        };
        assert(ok == p(vs[i as int]));
        if ok {
            match best {
                None => {
                    best = Some(i);
                },
                Some(b) => {
                    let c = compare_versions(v, versions[b].as_str());
                    if c >= 0 {
                        proof {
                            assert forall|j: int| 0 <= j < i + 1 && j != i && p(vs[j]) implies spec_version_order(
                                #[trigger] vs[j],
                                vs[i as int],
                            ) <= 0 by {
                                if j != b {
                                    assert(spec_version_order(vs[j], vs[b as int]) <= 0);
                                }
                            }
                        }
                        best = Some(i);
                    }
                },
            }
        }
        i = i + 1;
    }
    best
}

/// Chooses the version to install among `versions`. Texts that are no
/// semantic version are ignored. With a requirement (see
/// `parse_version_req`) the last greatest matching version is chosen;
/// without one, `latest_tag` when it is a version, else the last greatest
/// version.
pub fn select_latest_compatible_version(
    versions: &Vec<String>,
    latest_tag: Option<&str>,
    requirement: Option<&str>,
) -> (r: Result<String, EspmError>)
    ensures
        select_spec(
            strings_view(versions@),
            opt_str_view(latest_tag),
            opt_str_view(requirement),
            str_result_view(r),
        ),
{
    let ghost vs = strings_view(versions@);
    let ghost valid = |v: Seq<char>| spec_version_valid(v);
    let any = last_max_index(versions, &None);
    if any.is_none() {
        assert(!some_satisfies(vs, valid));
        return Err(EspmError::NoValidVersions);
    }
    let req = parse_version_req(requirement);
    match req {
        Some(t) => {
            let ghost tv = t@;
            let ghost p = |v: Seq<char>| spec_version_valid(v) && spec_req_matches(tv, v);
            let found = last_max_index(versions, &Some(t));
            match found {
                Some(k) => {
                    assert(vs[k as int] == versions@[k as int]@);
                    Ok(versions[k].clone())
                },
                None => {
                    let shown = match requirement {
                        Some(q) => q.to_owned(),
                        None => String::new(),
                    };
                    Err(EspmError::NoMatchingVersion(shown))
                },
            }
        },
        None => {
            match latest_tag {
                Some(tag) => {
                    if version_is_valid(tag) {
                        return Ok(tag.to_owned());
                    }
                },
                None => {},
            }
            let k = any.unwrap();
            assert(vs[k as int] == versions@[k as int]@);
            Ok(versions[k].clone())
        },
    }
}

} // verus!
