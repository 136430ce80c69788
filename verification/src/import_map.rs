//! Operations on import maps: lookup, insertion, filtering and ordering of
//! their entries, and the configuration changes of `add`, `remove` and `update`.

use vstd::prelude::*;

use crate::models::{pairs_view, EspmJson, ImportMap};
use crate::error::{EspmError, EspmErrorView};
use crate::specifier::{opt_view, spec_parse_specifier, spec_requested_specifier, Specifier};
use crate::text::{seq_lt, str_eq, str_lt, lemma_seq_lt_irreflexive, lemma_seq_lt_transitive, lemma_seq_lt_trichotomy};

verus! {

/// No key occurs at two positions.
pub open spec fn keys_unique(s: Seq<(Seq<char>, Seq<char>)>) -> bool {
    forall|i: int, j: int|
        0 <= i < s.len() && 0 <= j < s.len() && #[trigger] s[i].0 == #[trigger] s[j].0 ==> i == j
}

/// The keys are in strictly increasing lexicographic order.
pub open spec fn keys_sorted(s: Seq<(Seq<char>, Seq<char>)>) -> bool {
    forall|i: int, j: int| 0 <= i < j < s.len() ==> seq_lt(#[trigger] s[i].0, #[trigger] s[j].0)
}

/// Some entry has key `k`.
pub open spec fn has_key(s: Seq<(Seq<char>, Seq<char>)>, k: Seq<char>) -> bool {
    exists|i: int| 0 <= i < s.len() && #[trigger] s[i].0 == k
}

/// The map from keys to values that a list of entries denotes.
pub open spec fn entry_map(s: Seq<(Seq<char>, Seq<char>)>) -> Map<Seq<char>, Seq<char>> {
    Map::new(
        |k: Seq<char>| has_key(s, k),
        |k: Seq<char>| s[choose|i: int| 0 <= i < s.len() && #[trigger] s[i].0 == k].1,
    )
}

pub proof fn lemma_entry_map_at(s: Seq<(Seq<char>, Seq<char>)>, i: int)
    requires
        keys_unique(s),
        0 <= i < s.len(),
    ensures
        entry_map(s).dom().contains(s[i].0),
        entry_map(s)[s[i].0] == s[i].1,
{
    assert(has_key(s, s[i].0));
    let j = choose|j: int| 0 <= j < s.len() && #[trigger] s[j].0 == s[i].0;
    assert(s[j].0 == s[i].0);
}

/// Two duplicate-free entry lists with the same entries denote the same map.
pub proof fn lemma_same_entries_same_map(a: Seq<(Seq<char>, Seq<char>)>, b: Seq<(Seq<char>, Seq<char>)>)
    requires
        keys_unique(a),
        keys_unique(b),
        forall|p: (Seq<char>, Seq<char>)| a.contains(p) <==> b.contains(p),
    ensures
        entry_map(a) == entry_map(b),
{
    assert forall|k: Seq<char>| has_key(a, k) implies has_key(b, k) by {
        let i = choose|i: int| 0 <= i < a.len() && #[trigger] a[i].0 == k;
        assert(a.contains(a[i]));
        let j = choose|j: int| 0 <= j < b.len() && b[j] == a[i];
        assert(b[j].0 == k);
    }
    assert forall|k: Seq<char>| has_key(b, k) implies has_key(a, k) by {
        let i = choose|i: int| 0 <= i < b.len() && #[trigger] b[i].0 == k;
        assert(b.contains(b[i]));
        let j = choose|j: int| 0 <= j < a.len() && a[j] == b[i];
        assert(a[j].0 == k);
    }
    assert forall|k: Seq<char>| #[trigger] entry_map(a).dom().contains(k) implies entry_map(a)[k]
        == entry_map(b)[k] by {
        let i = choose|i: int| 0 <= i < a.len() && #[trigger] a[i].0 == k;
        lemma_entry_map_at(a, i);
        assert(a.contains(a[i]));
        let j = choose|j: int| 0 <= j < b.len() && b[j] == a[i];
        lemma_entry_map_at(b, j);
    }
    assert(entry_map(a) =~= entry_map(b));
}

/// Position of the entry with key `key`.
pub fn find_key(entries: &Vec<(String, String)>, key: &str) -> (r: Option<usize>)
    ensures
        match r {
            Some(i) => i < entries@.len() && pairs_view(entries@)[i as int].0 == key@,
            None => !has_key(pairs_view(entries@), key@),
        },
{
    let ghost pv = pairs_view(entries@);
    let mut i: usize = 0;
    while i < entries.len()
        invariant
            pv == pairs_view(entries@),
            i <= entries@.len(),
            forall|j: int| 0 <= j < i ==> pv[j].0 != key@,
        decreases entries@.len() - i,
    {
        if str_eq(entries[i].0.as_str(), key) {
            return Some(i);
        }
        i = i + 1;
    }
    None
}

/// Sets the value of `key`, adding the entry when the key is new.
pub fn map_insert(entries: &mut Vec<(String, String)>, key: String, value: String)
    requires
        keys_unique(pairs_view(old(entries)@)),
    ensures
        keys_unique(pairs_view(final(entries)@)),
        entry_map(pairs_view(final(entries)@)) == entry_map(pairs_view(old(entries)@)).insert(
            key@,
            value@,
        ),
{
    let ghost old_pv = pairs_view(entries@);
    let ghost k = key@;
    let ghost v = value@;
    match find_key(entries, key.as_str()) {
        Some(i) => {
            entries.set(i, (key, value));
            let ghost new_pv = pairs_view(entries@);
            assert(new_pv =~= old_pv.update(i as int, (k, v)));
            assert forall|a: int| 0 <= a < new_pv.len() implies #[trigger] new_pv[a].0 == old_pv[a].0 by {}
            assert forall|k2: Seq<char>| has_key(new_pv, k2) <==> has_key(old_pv, k2) by {
                if has_key(new_pv, k2) {
                    let j = choose|j: int| 0 <= j < new_pv.len() && #[trigger] new_pv[j].0 == k2;
                    assert(old_pv[j].0 == k2);
                }
                if has_key(old_pv, k2) {
                    let j = choose|j: int| 0 <= j < old_pv.len() && #[trigger] old_pv[j].0 == k2;
                    assert(new_pv[j].0 == k2);
                }
            }
            assert forall|k2: Seq<char>| #[trigger] entry_map(new_pv).dom().contains(k2) implies
                entry_map(new_pv)[k2] == entry_map(old_pv).insert(k, v)[k2] by {
                let j = choose|j: int| 0 <= j < new_pv.len() && #[trigger] new_pv[j].0 == k2;
                lemma_entry_map_at(new_pv, j);
                if j != i {
                    lemma_entry_map_at(old_pv, j);
                }
            }
            proof { lemma_entry_map_at(old_pv, i as int); }
            assert(entry_map(new_pv) =~= entry_map(old_pv).insert(k, v));
        },
        None => {
            entries.push((key, value));
            let ghost new_pv = pairs_view(entries@);
            assert(new_pv =~= old_pv.push((k, v)));
            assert forall|k2: Seq<char>| has_key(new_pv, k2) <==> (has_key(old_pv, k2) || k2 == k) by {
                if has_key(new_pv, k2) {
                    let j = choose|j: int| 0 <= j < new_pv.len() && #[trigger] new_pv[j].0 == k2;
                    if j < old_pv.len() {
                        assert(old_pv[j].0 == k2);
                    }
                }
                if has_key(old_pv, k2) {
                    let j = choose|j: int| 0 <= j < old_pv.len() && #[trigger] old_pv[j].0 == k2;
                    assert(new_pv[j].0 == k2);
                }
                if k2 == k {
                    assert(new_pv[old_pv.len() as int].0 == k2);
                }
            }
            assert forall|a: int, b: int|
                0 <= a < new_pv.len() && 0 <= b < new_pv.len() && #[trigger] new_pv[a].0
                    == #[trigger] new_pv[b].0 implies a == b by {
                if a < old_pv.len() && b == old_pv.len() {
                    assert(old_pv[a].0 == k);
                }
                if b < old_pv.len() && a == old_pv.len() {
                    assert(old_pv[b].0 == k);
                }
            }
            assert forall|k2: Seq<char>| #[trigger] entry_map(new_pv).dom().contains(k2) implies
                entry_map(new_pv)[k2] == entry_map(old_pv).insert(k, v)[k2] by {
                let j = choose|j: int| 0 <= j < new_pv.len() && #[trigger] new_pv[j].0 == k2;
                lemma_entry_map_at(new_pv, j);
                if j < old_pv.len() {
                    lemma_entry_map_at(old_pv, j);
                }
            }
            assert(entry_map(new_pv) =~= entry_map(old_pv).insert(k, v));
        },
    }
}


proof fn lemma_insert_sorted(s: Seq<(Seq<char>, Seq<char>)>, pos: int, e: (Seq<char>, Seq<char>))
    requires
        keys_sorted(s),
        0 <= pos <= s.len(),
        forall|j: int| 0 <= j < pos ==> seq_lt(#[trigger] s[j].0, e.0),
        pos < s.len() ==> seq_lt(e.0, s[pos].0),
    ensures
        keys_sorted(s.insert(pos, e)),
{
    let t = s.insert(pos, e);
    assert forall|a: int, b: int| 0 <= a < b < t.len() implies seq_lt(
        #[trigger] t[a].0,
        #[trigger] t[b].0,
    ) by {
        if a < pos {
            if b == pos {
                assert(t[b] == e);
            } else if b > pos {
                assert(t[b] == s[b - 1]);
                assert(seq_lt(s[a].0, s[b - 1].0));
            }
        } else if a == pos {
            assert(t[b] == s[b - 1]);
            if b - 1 > pos {
                assert(seq_lt(s[pos].0, s[b - 1].0));
                lemma_seq_lt_transitive(e.0, s[pos].0, s[b - 1].0);
            }
        } else {
            assert(t[a] == s[a - 1]);
            assert(t[b] == s[b - 1]);
            assert(seq_lt(s[a - 1].0, s[b - 1].0));
        }
    }
}

proof fn lemma_sorted_unique(s: Seq<(Seq<char>, Seq<char>)>)
    requires
        keys_sorted(s),
    ensures
        keys_unique(s),
{
    assert forall|i: int, j: int|
        0 <= i < s.len() && 0 <= j < s.len() && #[trigger] s[i].0 == #[trigger] s[j].0 implies i
        == j by {
        lemma_seq_lt_irreflexive(s[i].0);
        if i < j {
            assert(seq_lt(s[i].0, s[j].0));
        } else if j < i {
            assert(seq_lt(s[j].0, s[i].0));
        }
    }
}

/// Orders the entries by key; the entries themselves stay the same.
pub fn sort_entries(entries: &mut Vec<(String, String)>)
    requires
        keys_unique(pairs_view(old(entries)@)),
    ensures
        keys_sorted(pairs_view(final(entries)@)),
        keys_unique(pairs_view(final(entries)@)),
        final(entries)@.len() == old(entries)@.len(),
        forall|p: (Seq<char>, Seq<char>)|
            pairs_view(final(entries)@).contains(p) <==> pairs_view(old(entries)@).contains(p),
        entry_map(pairs_view(final(entries)@)) == entry_map(pairs_view(old(entries)@)),
{
    let ghost orig = pairs_view(entries@);
    let mut src: Vec<(String, String)> = Vec::new();
    std::mem::swap(entries, &mut src);
    assert(pairs_view(src@) == orig);
    assert(pairs_view(entries@) =~= Seq::<(Seq<char>, Seq<char>)>::empty());
    while src.len() > 0
        invariant
            keys_sorted(pairs_view(entries@)),
            keys_unique(pairs_view(src@)),
            forall|i: int, j: int|
                0 <= i < src@.len() && 0 <= j < entries@.len() ==> #[trigger] pairs_view(
                    src@,
                )[i].0 != #[trigger] pairs_view(entries@)[j].0,
            forall|p: (Seq<char>, Seq<char>)|
                #![trigger orig.contains(p)]
                orig.contains(p) <==> (pairs_view(src@).contains(p) || pairs_view(
                    entries@,
                ).contains(p)),
            src@.len() + entries@.len() == orig.len(),
        decreases src@.len(),
    {
        let ghost old_src = pairs_view(src@);
        let ghost old_ent = pairs_view(entries@);
        let e = src.pop().unwrap();
        let ghost ev = (e.0@, e.1@);
        assert(old_src.last() == ev);
        assert(pairs_view(src@) =~= old_src.drop_last());
        let mut pos: usize = 0;
        while pos < entries.len() && !str_lt(e.0.as_str(), entries[pos].0.as_str())
            invariant
                pos <= entries@.len(),
                old_ent == pairs_view(entries@),
                ev == (e.0@, e.1@),
                forall|j: int| 0 <= j < pos ==> !seq_lt(ev.0, #[trigger] old_ent[j].0),
            decreases entries@.len() - pos,
        {
            pos = pos + 1;
        }
        proof {
            assert forall|j: int| 0 <= j < pos implies seq_lt(#[trigger] old_ent[j].0, ev.0) by {
                assert(old_src[old_src.len() - 1].0 != old_ent[j].0);
                lemma_seq_lt_trichotomy(old_ent[j].0, ev.0);
            }
        }
        entries.insert(pos, e);
        proof {
            let new_ent = pairs_view(entries@);
            assert(new_ent =~= old_ent.insert(pos as int, ev));
            lemma_insert_sorted(old_ent, pos as int, ev);
            let new_src = pairs_view(src@);
            assert forall|i: int, j: int|
                0 <= i < new_src.len() && 0 <= j < new_ent.len() implies #[trigger] new_src[i].0
                != #[trigger] new_ent[j].0 by {
                assert(new_src[i] == old_src[i]);
                if j < pos {
                    assert(new_ent[j] == old_ent[j]);
                } else if j == pos {
                    assert(new_ent[j] == ev);
                    assert(old_src[old_src.len() - 1] == ev);
                } else {
                    assert(new_ent[j] == old_ent[j - 1]);
                }
            }
            assert forall|p: (Seq<char>, Seq<char>)|
                #![trigger orig.contains(p)]
                orig.contains(p) <==> (new_src.contains(p) || new_ent.contains(p)) by {
                if old_src.contains(p) {
                    let i = choose|i: int| 0 <= i < old_src.len() && old_src[i] == p;
                    if i < new_src.len() {
                        assert(new_src[i] == p);
                    } else {
                        assert(new_ent[pos as int] == p);
                    }
                }
                if old_ent.contains(p) {
                    let i = choose|i: int| 0 <= i < old_ent.len() && old_ent[i] == p;
                    if i < pos {
                        assert(new_ent[i] == p);
                    } else {
                        assert(new_ent[i + 1] == p);
                    }
                }
                if new_src.contains(p) {
                    let i = choose|i: int| 0 <= i < new_src.len() && new_src[i] == p;
                    assert(old_src[i] == p);
                }
                if new_ent.contains(p) {
                    let i = choose|i: int| 0 <= i < new_ent.len() && new_ent[i] == p;
                    if i < pos {
                        assert(old_ent[i] == p);
                    } else if i == pos {
                        assert(old_src[old_src.len() - 1] == p);
                    } else {
                        assert(old_ent[i - 1] == p);
                    }
                }
            }
        }
    }
    proof {
        let fin = pairs_view(entries@);
        lemma_sorted_unique(fin);
        assert(pairs_view(src@) =~= Seq::<(Seq<char>, Seq<char>)>::empty());
        assert forall|p: (Seq<char>, Seq<char>)| fin.contains(p) <==> orig.contains(p) by {
            if orig.contains(p) {
            }
        }
        lemma_same_entries_same_map(fin, orig);
    }
}


/// The views of a list of strings.
pub open spec fn strings_view(v: Seq<String>) -> Seq<Seq<char>> {
    v.map_values(|s: String| s@)
}

/// Whether an entry survives the removal of `names` and of the value `source`.
pub open spec fn kept(p: (Seq<char>, Seq<char>), names: Seq<Seq<char>>, source: Option<Seq<char>>) -> bool {
    !names.contains(p.0) && match source {
        Some(s) => p.1 != s,
        None => true,
    }
}

/// `m` without the keys in `names` and, when `source` is given, without
/// the keys whose value is `source`.
pub open spec fn removal_map(
    m: Map<Seq<char>, Seq<char>>,
    names: Seq<Seq<char>>,
    source: Option<Seq<char>>,
) -> Map<Seq<char>, Seq<char>> {
    Map::new(|k: Seq<char>| m.dom().contains(k) && kept((k, m[k]), names, source), |k: Seq<char>| m[k])
}

/// Tests whether `names` holds `key`.
pub fn contains_name(names: &Vec<String>, key: &str) -> (r: bool)
    ensures
        r == strings_view(names@).contains(key@),
{
    let ghost nv = strings_view(names@);
    let mut i: usize = 0;
    while i < names.len()
        invariant
            nv == strings_view(names@),
            i <= names@.len(),
            forall|j: int| 0 <= j < i ==> nv[j] != key@,
        decreases names@.len() - i,
    {
        if str_eq(names[i].as_str(), key) {
            assert(nv[i as int] == key@);
            return true;
        }
        i = i + 1;
    }
    false
}

/// Drops the entries whose key is in `names` or, when `source` is given,
/// whose value is `source`; tells whether any entry was dropped.
pub fn retain_entries(entries: &mut Vec<(String, String)>, names: &Vec<String>, source: Option<&str>) -> (found: bool)
    requires
        keys_unique(pairs_view(old(entries)@)),
    ensures
        keys_unique(pairs_view(final(entries)@)),
        forall|p: (Seq<char>, Seq<char>)|
            pairs_view(final(entries)@).contains(p) <==> (pairs_view(old(entries)@).contains(p)
                && kept(p, strings_view(names@), crate::specifier::opt_str_view(source))),
        found <==> exists|i: int|
            0 <= i < old(entries)@.len() && !kept(
                #[trigger] pairs_view(old(entries)@)[i],
                strings_view(names@),
                crate::specifier::opt_str_view(source),
            ),
        entry_map(pairs_view(final(entries)@)) == removal_map(
            entry_map(pairs_view(old(entries)@)),
            strings_view(names@),
            crate::specifier::opt_str_view(source),
        ),
{
    let ghost orig = pairs_view(entries@);
    let ghost nv = strings_view(names@);
    let ghost sv = crate::specifier::opt_str_view(source);
    let mut src: Vec<(String, String)> = Vec::new();
    std::mem::swap(entries, &mut src);
    assert(pairs_view(src@) == orig);
    let mut found = false;
    let mut i: usize = 0;
    while i < src.len()
        invariant
            orig == pairs_view(src@),
            keys_unique(orig),
            nv == strings_view(names@),
            sv == crate::specifier::opt_str_view(source),
            i <= src@.len(),
            keys_unique(pairs_view(entries@)),
            forall|j: int|
                0 <= j < entries@.len() ==> exists|a: int|
                    0 <= a < i && #[trigger] pairs_view(entries@)[j] == orig[a],
            forall|p: (Seq<char>, Seq<char>)|
                pairs_view(entries@).contains(p) <==> (exists|a: int|
                    0 <= a < i && orig[a] == p) && kept(p, nv, sv),
            found <==> exists|a: int| 0 <= a < i && !kept(#[trigger] orig[a], nv, sv),
        decreases src@.len() - i,
    {
        let ghost before = pairs_view(entries@);
        let in_names = contains_name(names, src[i].0.as_str());
        let same_source = match source {
            Some(s) => str_eq(src[i].1.as_str(), s),
            None => false,
        };
        proof {
            assert(orig[i as int] == (src@[i as int].0@, src@[i as int].1@));
            assert((in_names || same_source) == !kept(orig[i as int], nv, sv));
        }
        let ghost old_found = found;
        if in_names || same_source {
            found = true;
        } else {
            let k = src[i].0.clone();
            let v = src[i].1.clone();
            entries.push((k, v));
            proof {
                let after = pairs_view(entries@);
                assert(after =~= before.push(orig[i as int]));
                assert forall|a: int, b: int|
                    0 <= a < after.len() && 0 <= b < after.len() && #[trigger] after[a].0
                        == #[trigger] after[b].0 implies a == b by {
                    if a < before.len() && b == before.len() {
                        let x = choose|x: int| 0 <= x < i && #[trigger] before[a] == orig[x];
                        assert(orig[x].0 == orig[i as int].0);
                    }
                    if b < before.len() && a == before.len() {
                        let x = choose|x: int| 0 <= x < i && #[trigger] before[b] == orig[x];
                        assert(orig[x].0 == orig[i as int].0);
                    }
                }
                assert forall|j: int| 0 <= j < after.len() implies exists|a: int|
                    0 <= a < i + 1 && #[trigger] after[j] == orig[a] by {
                    if j < before.len() {
                        assert(after[j] == before[j]);
                    } else {
                        assert(after[j] == orig[i as int]);
                    }
                }
            }
        }
        proof {
            let after = pairs_view(entries@);
            assert forall|p: (Seq<char>, Seq<char>)|
                after.contains(p) <==> (exists|a: int| 0 <= a < i + 1 && orig[a] == p) && kept(p, nv, sv) by {
                if after.contains(p) {
                    let j = choose|j: int| 0 <= j < after.len() && after[j] == p;
                    if j < before.len() {
                        assert(before.contains(p));
                    }
                }
                if (exists|a: int| 0 <= a < i + 1 && orig[a] == p) && kept(p, nv, sv) {
                    let a = choose|a: int| 0 <= a < i + 1 && orig[a] == p;
                    if a < i {
                        assert(before.contains(p));
                        let j = choose|j: int| 0 <= j < before.len() && before[j] == p;
                        assert(after[j] == p);
                    } else {
                        assert(after[after.len() - 1] == p);
                    }
                }
            }
            if found && !old_found {
                assert(!kept(orig[i as int], nv, sv));
            }
            if !found {
                assert forall|a: int| 0 <= a < i + 1 implies kept(#[trigger] orig[a], nv, sv) by {}
            }
            assert(found <==> exists|a: int| 0 <= a < i + 1 && !kept(#[trigger] orig[a], nv, sv));
        }
        i = i + 1;
    }
    proof {
        let fin = pairs_view(entries@);
        let m = entry_map(orig);
        let r = removal_map(m, nv, sv);
        assert forall|k: Seq<char>| has_key(fin, k) <==> r.dom().contains(k) by {
            if has_key(fin, k) {
                let j = choose|j: int| 0 <= j < fin.len() && #[trigger] fin[j].0 == k;
                assert(fin.contains(fin[j]));
                let a = choose|a: int| 0 <= a < src@.len() && orig[a] == fin[j];
                lemma_entry_map_at(orig, a);
            }
            if r.dom().contains(k) {
                let a = choose|a: int| 0 <= a < orig.len() && #[trigger] orig[a].0 == k;
                lemma_entry_map_at(orig, a);
                assert(fin.contains(orig[a]));
                let j = choose|j: int| 0 <= j < fin.len() && fin[j] == orig[a];
                assert(fin[j].0 == k);
            }
        }
        assert forall|k: Seq<char>| #[trigger] entry_map(fin).dom().contains(k) implies entry_map(fin)[k]
            == r[k] by {
            let j = choose|j: int| 0 <= j < fin.len() && #[trigger] fin[j].0 == k;
            lemma_entry_map_at(fin, j);
            assert(fin.contains(fin[j]));
            let a = choose|a: int| 0 <= a < src@.len() && orig[a] == fin[j];
            lemma_entry_map_at(orig, a);
        }
        assert(entry_map(fin) =~= r);
    }
    found
}

impl ImportMap {
    /// Each key occurs once.
    pub open spec fn wf(&self) -> bool {
        keys_unique(pairs_view(self.imports@))
    }

    /// The imports as a map from package key to specifier.
    pub open spec fn imports_map(&self) -> Map<Seq<char>, Seq<char>> {
        entry_map(pairs_view(self.imports@))
    }

    /// The imports are in key order.
    pub open spec fn is_sorted(&self) -> bool {
        keys_sorted(pairs_view(self.imports@))
    }
}

impl EspmJson {
    /// Each present import map has each key once.
    pub open spec fn wf(&self) -> bool {
        &&& (self.import_map matches Some(m) ==> m.wf())
        &&& (self.import_map_dev matches Some(m) ==> m.wf())
    }
}

/// Orders the imports by key, keeping every entry.
pub fn sort_imports(import_map: &mut ImportMap)
    requires
        old(import_map).wf(),
    ensures
        final(import_map).wf(),
        final(import_map).is_sorted(),
        final(import_map).imports_map() == old(import_map).imports_map(),
        final(import_map).imports@.len() == old(import_map).imports@.len(),
        final(import_map).scopes == old(import_map).scopes,
{
    sort_entries(&mut import_map.imports);
}


/// The imports of an optional map; none when it is absent.
pub open spec fn map_or_empty(o: Option<ImportMap>) -> Map<Seq<char>, Seq<char>> {
    match o {
        Some(m) => m.imports_map(),
        None => Map::empty(),
    }
}

/// The scopes of an optional map; none when it is absent.
pub open spec fn scopes_of(o: Option<ImportMap>) -> Option<Vec<(String, Vec<(String, String)>)>> {
    match o {
        Some(m) => m.scopes,
        None => None,
    }
}

/// The map that `insert_import` leaves: present, sorted, with `key` set to `value`.
pub open spec fn inserted(old: Option<ImportMap>, new: Option<ImportMap>, key: Seq<char>, value: Seq<char>) -> bool {
    &&& new is Some
    &&& new.unwrap().wf()
    &&& new.unwrap().is_sorted()
    &&& new.unwrap().imports_map() == map_or_empty(old).insert(key, value)
    &&& new.unwrap().scopes == scopes_of(old)
}

fn insert_into(slot: &mut Option<ImportMap>, key: String, value: String)
    requires
        *old(slot) matches Some(m) ==> m.wf(),
    ensures
        inserted(*old(slot), *final(slot), key@, value@),
{
    let ghost k = key@;
    let ghost v = value@;
    let mut m = match slot.take() {
        Some(m) => m,
        None => {
            let m = ImportMap { imports: Vec::new(), scopes: None };
            assert(m.imports_map() =~= Map::<Seq<char>, Seq<char>>::empty());
            m
        },
    };
    map_insert(&mut m.imports, key, value);
    sort_imports(&mut m);
    *slot = Some(m);
}

/// Sets `key` to `value` in the import map (the dev map when `is_dev`),
/// creating that map when absent, and orders its entries.
pub fn insert_import(espm_json: &mut EspmJson, is_dev: bool, key: String, value: String)
    requires
        old(espm_json).wf(),
    ensures
        final(espm_json).wf(),
        final(espm_json).name == old(espm_json).name,
        is_dev ==> final(espm_json).import_map == old(espm_json).import_map,
        is_dev ==> inserted(old(espm_json).import_map_dev, final(espm_json).import_map_dev, key@, value@),
        !is_dev ==> final(espm_json).import_map_dev == old(espm_json).import_map_dev,
        !is_dev ==> inserted(old(espm_json).import_map, final(espm_json).import_map, key@, value@),
{
    if is_dev {
        insert_into(&mut espm_json.import_map_dev, key, value);
    } else {
        insert_into(&mut espm_json.import_map, key, value);
    }
}

/// Records a dependency as `add` does: the package key `@scope/name` (or
/// `name`) is mapped to `source` in the import map or, when `is_dev`, in the
/// dev import map.
pub fn add_dependency(espm_json: &mut EspmJson, is_dev: bool, scope: Option<&str>, name: &str, source: &str)
    requires
        old(espm_json).wf(),
    ensures
        final(espm_json).wf(),
        final(espm_json).name == old(espm_json).name,
        is_dev ==> final(espm_json).import_map == old(espm_json).import_map,
        is_dev ==> inserted(
            old(espm_json).import_map_dev,
            final(espm_json).import_map_dev,
            crate::paths::spec_package_key(crate::specifier::opt_str_view(scope), name@),
            source@,
        ),
        !is_dev ==> final(espm_json).import_map_dev == old(espm_json).import_map_dev,
        !is_dev ==> inserted(
            old(espm_json).import_map,
            final(espm_json).import_map,
            crate::paths::spec_package_key(crate::specifier::opt_str_view(scope), name@),
            source@,
        ),
{
    let key = crate::paths::package_key(scope, name);
    insert_import(espm_json, is_dev, key, source.to_owned());
}

/// The keys that `remove` tries for `package`: for a specifier with scope
/// and name `@scope/name` then `name`, for one with a name only `name`,
/// for one without name none; for text that is no specifier, the text itself.
pub open spec fn spec_removal_names(package: Seq<char>) -> Seq<Seq<char>> {
    match spec_parse_specifier(package) {
        Ok(spec) => {
            let scoped = match (spec.scope, spec.name) {
                (Some(s), Some(n)) => seq!["@"@ + s + "/"@ + n],
                _ => Seq::empty(),
            };
            match spec.name {
                Some(n) => scoped.push(n),
                None => scoped,
            }
        },
        Err(_) => seq![package],
    }
}

/// The specifier whose entries `remove` also drops: the parsed source, if any.
pub open spec fn spec_removal_source(package: Seq<char>) -> Option<Seq<char>> {
    match spec_parse_specifier(package) {
        Ok(spec) => Some(spec.source),
        Err(_) => None,
    }
}

/// Some entry of the optional map would be dropped.
pub open spec fn drops_some(o: Option<ImportMap>, names: Seq<Seq<char>>, source: Option<Seq<char>>) -> bool {
    match o {
        Some(m) => exists|i: int|
            0 <= i < m.imports@.len() && !kept(#[trigger] pairs_view(m.imports@)[i], names, source),
        None => false,
    }
}

/// The optional map after the removal.
pub open spec fn removed_from(old: Option<ImportMap>, new: Option<ImportMap>, names: Seq<Seq<char>>, source: Option<Seq<char>>) -> bool {
    match old {
        Some(m) => new matches Some(n) && n.wf() && n.scopes == m.scopes && n.imports_map()
            == removal_map(m.imports_map(), names, source),
        None => new is None,
    }
}

/// What `remove` did to the configuration: whether an entry was dropped,
/// and the package keys it tried (whose installed directories go too).
#[derive(Debug, Clone, PartialEq, Eq)]
pub struct RemovalOutcome {
    pub found: bool,
    pub names: Vec<String>,
}

fn remove_from(slot: &mut Option<ImportMap>, names: &Vec<String>, source: Option<&str>) -> (found: bool)
    requires
        *old(slot) matches Some(m) ==> m.wf(),
    ensures
        removed_from(*old(slot), *final(slot), strings_view(names@), crate::specifier::opt_str_view(source)),
        found == drops_some(*old(slot), strings_view(names@), crate::specifier::opt_str_view(source)),
{
    match slot.take() {
        Some(mut m) => {
            let found = retain_entries(&mut m.imports, names, source);
            *slot = Some(m);
            found
        },
        None => false,
    }
}

/// Removes a package from both import maps as `remove` does: every entry
/// keyed by one of the names that `package` denotes and, when `package` is
/// a specifier, every entry whose specifier is that specifier.
pub fn remove_package_from_config(espm_json: &mut EspmJson, package: &str) -> (r: RemovalOutcome)
    requires
        old(espm_json).wf(),
    ensures
        final(espm_json).wf(),
        final(espm_json).name == old(espm_json).name,
        strings_view(r.names@) == spec_removal_names(package@),
        removed_from(
            old(espm_json).import_map,
            final(espm_json).import_map,
            spec_removal_names(package@),
            spec_removal_source(package@),
        ),
        removed_from(
            old(espm_json).import_map_dev,
            final(espm_json).import_map_dev,
            spec_removal_names(package@),
            spec_removal_source(package@),
        ),
        r.found == (drops_some(
            old(espm_json).import_map,
            spec_removal_names(package@),
            spec_removal_source(package@),
        ) || drops_some(
            old(espm_json).import_map_dev,
            spec_removal_names(package@),
            spec_removal_source(package@),
        )),
{
    let parsed = Specifier::from_string(package);
    let mut names: Vec<String> = Vec::new();
    let source: Option<String>;
    match parsed {
        Ok(spec) => {
            match (&spec.scope, &spec.name) {
                (Some(s), Some(n)) => {
                    let mut full = "@".to_owned();
                    full.append(s.as_str());
                    full.append("/");
                    full.append(n.as_str());
                    names.push(full);
                },
                _ => {},
            }
            match &spec.name {
                Some(n) => names.push(n.clone()),
                None => {},
            }
            source = Some(spec.source);
        },
        Err(_) => {
            names.push(package.to_owned());
            source = None;
        },
    }
    proof {
        assert(strings_view(names@) =~= spec_removal_names(package@));
    }
    let src_ref: Option<&str> = match &source {
        Some(s) => Some(s.as_str()),
        None => None,
    };
    assert(crate::specifier::opt_str_view(src_ref) == spec_removal_source(package@));
    let found_main = remove_from(&mut espm_json.import_map, &names, src_ref);
    let found_dev = remove_from(&mut espm_json.import_map_dev, &names, src_ref);
    RemovalOutcome { found: found_main || found_dev, names }
}


/// A dependency that `update` looks at: which map holds it, its key and its specifier.
#[derive(Debug, Clone, PartialEq, Eq)]
pub struct UpdateTarget {
    pub is_dev: bool,
    pub key: String,
    pub source: String,
}

/// The entry of `package` in the optional map, as an update target.
pub open spec fn spec_target_in(o: Option<ImportMap>, is_dev: bool, package: Seq<char>) -> Seq<(bool, Seq<char>, Seq<char>)> {
    match o {
        Some(m) => if m.imports_map().dom().contains(package) {
            seq![(is_dev, package, m.imports_map()[package])]
        } else {
            Seq::empty()
        },
        None => Seq::empty(),
    }
}

/// The update targets of `package`: its entry in the import map, then its
/// entry in the dev import map.
pub open spec fn spec_update_targets(espm_json: EspmJson, package: Seq<char>) -> Seq<(bool, Seq<char>, Seq<char>)> {
    spec_target_in(espm_json.import_map, false, package) + spec_target_in(espm_json.import_map_dev, true, package)
}

/// The view of a list of update targets.
pub open spec fn targets_view(v: Seq<UpdateTarget>) -> Seq<(bool, Seq<char>, Seq<char>)> {
    v.map_values(|t: UpdateTarget| (t.is_dev, t.key@, t.source@))
}

fn target_in(o: &Option<ImportMap>, is_dev: bool, package: &str, out: &mut Vec<UpdateTarget>)
    requires
        *o matches Some(m) ==> m.wf(),
    ensures
        targets_view(final(out)@) == targets_view(old(out)@) + spec_target_in(*o, is_dev, package@),
{
    let ghost before = targets_view(out@);
    match o {
        Some(m) => {
            match find_key(&m.imports, package) {
                Some(i) => {
                    proof { lemma_entry_map_at(pairs_view(m.imports@), i as int); }
                    let t = UpdateTarget { is_dev, key: package.to_owned(), source: m.imports[i].1.clone() };
                    out.push(t);
                    assert(targets_view(out@) =~= before + spec_target_in(*o, is_dev, package@));
                },
                None => {
                    assert(targets_view(out@) =~= before + spec_target_in(*o, is_dev, package@));
                },
            }
        },
        None => {
            assert(targets_view(out@) =~= before + spec_target_in(*o, is_dev, package@));
        },
    }
}

/// The dependencies named `package` in the import maps; an error when there is none.
pub fn update_targets(espm_json: &EspmJson, package: &str) -> (r: Result<Vec<UpdateTarget>, EspmError>)
    requires
        espm_json.wf(),
    ensures
        match r {
            Ok(v) => targets_view(v@) == spec_update_targets(*espm_json, package@) && v@.len() > 0,
            Err(e) => spec_update_targets(*espm_json, package@).len() == 0
                && e@ == EspmErrorView::PackageNotFound(package@),
        },
{
    let mut out: Vec<UpdateTarget> = Vec::new();
    assert(targets_view(out@) =~= Seq::<(bool, Seq<char>, Seq<char>)>::empty());
    target_in(&espm_json.import_map, false, package, &mut out);
    target_in(&espm_json.import_map_dev, true, package, &mut out);
    assert(targets_view(out@) =~= spec_update_targets(*espm_json, package@));
    if out.len() == 0 {
        Err(EspmError::PackageNotFound(package.to_owned()))
    } else {
        Ok(out)
    }
}

/// What `update` does with one dependency: look up the newest version that
/// its requirement admits in a registry, or leave it alone.
#[derive(Debug, Clone, PartialEq, Eq)]
pub enum UpdateStep {
    /// Resolve `name` (in `scope`) in the registry of `kind` (`jsr` or `npm`).
    Resolve { kind: String, scope: Option<String>, name: String, requirement: Option<String> },
    /// Dependencies of this kind are not updateable.
    Skip { kind: String },
}

/// The mathematical form of an [`UpdateStep`].
pub enum UpdateStepView {
    Resolve { kind: Seq<char>, scope: Option<Seq<char>>, name: Seq<char>, requirement: Option<Seq<char>> },
    Skip { kind: Seq<char> },
}

impl View for UpdateStep {
    type V = UpdateStepView;

    open spec fn view(&self) -> UpdateStepView {
        match self {
            UpdateStep::Resolve { kind, scope, name, requirement } => UpdateStepView::Resolve {
                kind: kind@,
                scope: opt_view(*scope),
                name: name@,
                requirement: opt_view(*requirement),
            },
            UpdateStep::Skip { kind } => UpdateStepView::Skip { kind: kind@ },
        }
    }
}

/// The step of `update` for a dependency with specifier `source`.
pub open spec fn spec_plan_update(source: Seq<char>) -> Result<UpdateStepView, EspmErrorView> {
    match spec_parse_specifier(source) {
        Err(e) => Err(e),
        Ok(p) => if p.kind == "jsr"@ {
            match (p.scope, p.name) {
                (None, _) => Err(EspmErrorView::MissingJsrScope(p.source)),
                (Some(_), None) => Err(EspmErrorView::MissingPackageName(p.source)),
                (Some(s), Some(n)) => Ok(
                    UpdateStepView::Resolve { kind: p.kind, scope: Some(s), name: n, requirement: p.version },
                ),
            }
        } else if p.kind == "npm"@ {
            match p.name {
                None => Err(EspmErrorView::MissingPackageName(p.source)),
                Some(n) => Ok(
                    UpdateStepView::Resolve { kind: p.kind, scope: p.scope, name: n, requirement: p.version },
                ),
            }
        } else {
            Ok(UpdateStepView::Skip { kind: p.kind })
        },
    }
}

/// Decides what `update` does with a dependency whose specifier is `source`:
/// JSR and npm packages are resolved again, other kinds are skipped.
pub fn plan_update(source: &str) -> (r: Result<UpdateStep, EspmError>)
    ensures
        match r {
            Ok(s) => spec_plan_update(source@) == Ok::<UpdateStepView, EspmErrorView>(s@),
            Err(e) => spec_plan_update(source@) == Err::<UpdateStepView, EspmErrorView>(e@),
        },
{
    let p = match Specifier::from_string(source) {
        Ok(p) => p,
        Err(e) => return Err(e),
    };
    if crate::text::str_eq(p.kind.as_str(), "jsr") {
        match (p.scope, p.name) {
            (None, _) => Err(EspmError::MissingJsrScope(p.source)),
            (Some(_), None) => Err(EspmError::MissingPackageName(p.source)),
            (Some(s), Some(n)) => Ok(UpdateStep::Resolve { kind: p.kind, scope: Some(s), name: n, requirement: p.version }),
        }
    } else if crate::text::str_eq(p.kind.as_str(), "npm") {
        match p.name {
            None => Err(EspmError::MissingPackageName(p.source)),
            Some(n) => Ok(UpdateStep::Resolve { kind: p.kind, scope: p.scope, name: n, requirement: p.version }),
        }
    } else {
        Ok(UpdateStep::Skip { kind: p.kind })
    }
}

/// The specifier that an update to `resolved_version` writes, or `None`
/// when it is the current specifier (the dependency is up to date).
pub fn updated_specifier(current: &str, kind: &str, scope: Option<&str>, name: &str, resolved_version: &str) -> (r: Option<String>)
    ensures
        ({
            let new = spec_requested_specifier(kind@, crate::specifier::opt_str_view(scope), name@, resolved_version@);
            if new == current@ {
                r is None
            } else {
                r matches Some(s) && s@ == new
            }
        }),
{
    let new = crate::specifier::requested_specifier_from_parts(kind, scope, name, resolved_version);
    if crate::text::str_eq(new.as_str(), current) {
        None
    } else {
        Some(new)
    }
}


/// Carries out the update of `target` to `resolved_version` (found for the
/// package `name` in `scope` in the registry of `kind`): when the new
/// specifier differs from the target's, it replaces the target's entry in
/// its import map, the result is that specifier, and `changed` is set;
/// otherwise the configuration and `changed` stay as they are and the result
/// is `None`. The configuration needs writing back exactly when `changed` is set.
pub fn apply_update(
    espm_json: &mut EspmJson,
    changed: &mut bool,
    target: &UpdateTarget,
    kind: &str,
    scope: Option<&str>,
    name: &str,
    resolved_version: &str,
) -> (r: Option<String>)
    requires
        old(espm_json).wf(),
    ensures
        final(espm_json).wf(),
        *final(changed) == (*old(changed) || r is Some),
        ({
            let new = spec_requested_specifier(kind@, crate::specifier::opt_str_view(scope), name@, resolved_version@);
            if new == target.source@ {
                &&& r is None
                &&& *final(espm_json) == *old(espm_json)
            } else {
                &&& r matches Some(s) && s@ == new
                &&& final(espm_json).name == old(espm_json).name
                &&& target.is_dev ==> final(espm_json).import_map == old(espm_json).import_map
                &&& target.is_dev ==> inserted(old(espm_json).import_map_dev, final(espm_json).import_map_dev, target.key@, new)
                &&& !target.is_dev ==> final(espm_json).import_map_dev == old(espm_json).import_map_dev
                &&& !target.is_dev ==> inserted(old(espm_json).import_map, final(espm_json).import_map, target.key@, new)
            }
        }),
{
    match updated_specifier(target.source.as_str(), kind, scope, name, resolved_version) {
        None => None,
        Some(new_source) => {
            insert_import(espm_json, target.is_dev, target.key.clone(), new_source.clone());
            *changed = true;
            Some(new_source)
        },
    }
}

} // verus!
