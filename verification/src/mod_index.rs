//! The index of the mods folder: every mod found there, with its versions.

use vstd::prelude::*;
use crate::naming::{dir_name_parts, split_mod_dir_name};
use crate::text::{
    Order, compare_text, concat3, lemma_text_lt_irreflexive, lemma_text_lt_total,
    lemma_text_lt_transitive, text_lt, views,
};
use crate::version::{newest_first, sort_versions_newest_first};

verus! {

broadcast use vstd::seq_lib::group_to_multiset_ensures;

/// An entry of the mods folder: its file name and whether it is a folder.
pub struct DirEntry {
    pub name: String,
    pub is_dir: bool,
}

/// One mod and its versions, newest first.
pub struct ModVersions {
    pub name: String,
    pub versions: Vec<String>,
}

/// The mods found in the mods folder, by name in ascending order, each with
/// its versions newest first.
pub struct ModIndex {
    mods: Vec<ModVersions>,
}

/// A mod as the index sees it: its name and its versions.
pub open spec fn entry_view(e: ModVersions) -> (Seq<char>, Seq<Seq<char>>) {
    (e.name@, views(e.versions@))
}

/// Mod names strictly ascending (so each name occurs once).
pub open spec fn names_ascending(s: Seq<(Seq<char>, Seq<Seq<char>>)>) -> bool {
    forall|i: int, j: int|
        #![trigger s[i], s[j]]
        0 <= i < j < s.len() ==> text_lt(s[i].0, s[j].0)
}

/// Every mod has at least one version and lists each version once.
pub open spec fn versions_listed_once(s: Seq<(Seq<char>, Seq<Seq<char>>)>) -> bool {
    forall|i: int|
        #![trigger s[i]]
        0 <= i < s.len() ==> s[i].1.len() > 0 && s[i].1.no_duplicates()
}

/// Well-formed index contents: names ascending, versions unique and newest first.
pub open spec fn index_wf(s: Seq<(Seq<char>, Seq<Seq<char>>)>) -> bool {
    &&& names_ascending(s)
    &&& versions_listed_once(s)
    &&& forall|i: int| #![trigger s[i]] 0 <= i < s.len() ==> newest_first(s[i].1)
}

/// The index lists mod `n`.
pub open spec fn lists_mod(s: Seq<(Seq<char>, Seq<Seq<char>>)>, n: Seq<char>) -> bool {
    exists|i: int| #![trigger s[i]] 0 <= i < s.len() && s[i].0 == n
}

/// The index lists version `v` of mod `n`.
pub open spec fn lists_version(
    s: Seq<(Seq<char>, Seq<Seq<char>>)>,
    n: Seq<char>,
    v: Seq<char>,
) -> bool {
    exists|i: int| #![trigger s[i]] 0 <= i < s.len() && s[i].0 == n && s[i].1.contains(v)
}

/// Some folder among `entries` is named for version `v` of mod `n`.
pub open spec fn found_in(entries: Seq<DirEntry>, n: Seq<char>, v: Seq<char>) -> bool {
    exists|k: int|
        #![trigger entries[k]]
        0 <= k < entries.len() && entries[k].is_dir && dir_name_parts(entries[k].name@) == (n, v)
}

/// Some folder among `entries` is named for a version of mod `n`.
pub open spec fn mod_found_in(entries: Seq<DirEntry>, n: Seq<char>) -> bool {
    exists|k: int|
        #![trigger entries[k]]
        0 <= k < entries.len() && entries[k].is_dir && dir_name_parts(entries[k].name@).0 == n
}

/// The versions listed for mod `n` (meaningful when the index lists `n`).
pub open spec fn versions_of(s: Seq<(Seq<char>, Seq<Seq<char>>)>, n: Seq<char>) -> Seq<
    Seq<char>,
> {
    s[mod_position(s, n)].1
}

/// Where mod `n` stands in the index (meaningful when the index lists `n`).
pub open spec fn mod_position(s: Seq<(Seq<char>, Seq<Seq<char>>)>, n: Seq<char>) -> int {
    choose|i: int| #![trigger s[i]] 0 <= i < s.len() && s[i].0 == n
}

/// What a lookup of `version` of mod `name` gives: `latest` names the newest
/// version, any other text names itself, if the index lists it.
pub open spec fn version_lookup(
    s: Seq<(Seq<char>, Seq<Seq<char>>)>,
    name: Seq<char>,
    version: Seq<char>,
) -> Option<Seq<char>> {
    if !lists_mod(s, name) {
        None
    } else if version == "latest"@ {
        Some(versions_of(s, name)[0])
    } else if versions_of(s, name).contains(version) {
        Some(version)
    } else {
        None
    }
}

/// Under a well-formed index, the versions of a listed mod are exactly the
/// versions the index lists for it.
pub proof fn lemma_versions_of_listed(
    s: Seq<(Seq<char>, Seq<Seq<char>>)>,
    n: Seq<char>,
    v: Seq<char>,
)
    requires
        index_wf(s),
    ensures
        lists_version(s, n, v) <==> (lists_mod(s, n) && versions_of(s, n).contains(v)),
{
    if lists_mod(s, n) {
        let c = mod_position(s, n);
        if lists_version(s, n, v) {
            let a = choose|a: int| #![trigger s[a]] 0 <= a < s.len() && s[a].0 == n && s[a].1.contains(v);
            lemma_names_distinct(s, a, c);
        }
        if versions_of(s, n).contains(v) {
            assert(s[c].0 == n && s[c].1.contains(v));
        }
    }
}

/// `latest` resolves to a listed version of the mod that no other listed
/// version of it orders above.
pub proof fn lemma_latest_is_newest(s: Seq<(Seq<char>, Seq<Seq<char>>)>, n: Seq<char>)
    requires
        index_wf(s),
        lists_mod(s, n),
    ensures
        version_lookup(s, n, "latest"@) is Some,
        lists_version(s, n, version_lookup(s, n, "latest"@)->0),
        forall|v: Seq<char>|
            lists_version(s, n, v) ==> !crate::version::version_lt(
                version_lookup(s, n, "latest"@)->0,
                v,
            ),
{
    let c = mod_position(s, n);
    let vs = s[c].1;
    assert(vs.len() > 0);
    lemma_versions_of_listed(s, n, vs[0]);
    assert(vs.contains(vs[0]));
    assert forall|v: Seq<char>| lists_version(s, n, v) implies !crate::version::version_lt(vs[0], v) by {
        lemma_versions_of_listed(s, n, v);
        assert(vs.contains(v));
        let k = choose|k: int| 0 <= k < vs.len() && vs[k] == v;
        if k == 0 {
            crate::version::lemma_version_lt_irreflexive(v);
        } else {
            assert(newest_first(vs));
        }
    }
}

/// Any text but `latest` resolves to itself exactly when the index lists it
/// as a version of the mod, and to nothing otherwise.
pub proof fn lemma_lookup_exact_version(
    s: Seq<(Seq<char>, Seq<Seq<char>>)>,
    n: Seq<char>,
    v: Seq<char>,
)
    requires
        index_wf(s),
        v != "latest"@,
    ensures
        lists_version(s, n, v) ==> version_lookup(s, n, v) == Some(v),
        !lists_version(s, n, v) ==> version_lookup(s, n, v) is None,
{
    lemma_versions_of_listed(s, n, v);
}

proof fn lemma_ascending_unique(a: Seq<Seq<char>>, b: Seq<Seq<char>>)
    requires
        forall|i: int, j: int| 0 <= i < j < a.len() ==> text_lt(#[trigger] a[i], #[trigger] a[j]),
        forall|i: int, j: int| 0 <= i < j < b.len() ==> text_lt(#[trigger] b[i], #[trigger] b[j]),
        forall|x: Seq<char>| a.contains(x) <==> b.contains(x),
    ensures
        a == b,
    decreases a.len(),
{
    if a.len() == 0 {
        if b.len() > 0 {
            assert(b.contains(b[0]));
        }
        assert(a =~= b);
    } else if b.len() == 0 {
        assert(a.contains(a[0]));
    } else {
        assert(a.contains(a[0]));
        assert(b.contains(b[0]));
        let ia = choose|i: int| 0 <= i < a.len() && a[i] == b[0];
        let ib = choose|i: int| 0 <= i < b.len() && b[i] == a[0];
        if a[0] != b[0] {
            // a[0] <= b[0] (a[0] is first in a) and b[0] <= a[0]
            assert(ia != 0);
            assert(ib != 0);
            assert(text_lt(a[0], a[ia]));
            assert(text_lt(b[0], b[ib]));
            lemma_text_lt_transitive(a[0], b[0], a[0]);
            lemma_text_lt_irreflexive(a[0]);
        }
        let a2 = a.drop_first();
        let b2 = b.drop_first();
        assert forall|x: Seq<char>| a2.contains(x) <==> b2.contains(x) by {
            if a2.contains(x) {
                let k = choose|k: int| 0 <= k < a2.len() && a2[k] == x;
                assert(a[k + 1] == x);
                assert(text_lt(a[0], a[k + 1]));
                assert(a.contains(x));
                let m = choose|m: int| 0 <= m < b.len() && b[m] == x;
                if m == 0 {
                    lemma_text_lt_irreflexive(x);
                }
                assert(b2[m - 1] == x);
            }
            if b2.contains(x) {
                let k = choose|k: int| 0 <= k < b2.len() && b2[k] == x;
                assert(b[k + 1] == x);
                assert(text_lt(b[0], b[k + 1]));
                assert(b.contains(x));
                let m = choose|m: int| 0 <= m < a.len() && a[m] == x;
                if m == 0 {
                    lemma_text_lt_irreflexive(x);
                }
                assert(a2[m - 1] == x);
            }
        }
        assert forall|i: int, j: int| 0 <= i < j < a2.len() implies text_lt(#[trigger] a2[i], #[trigger] a2[j]) by {
            assert(a2[i] == a[i + 1] && a2[j] == a[j + 1]);
        }
        assert forall|i: int, j: int| 0 <= i < j < b2.len() implies text_lt(#[trigger] b2[i], #[trigger] b2[j]) by {
            assert(b2[i] == b[i + 1] && b2[j] == b[j + 1]);
        }
        lemma_ascending_unique(a2, b2);
        assert(a =~= seq![a[0]] + a2);
        assert(b =~= seq![b[0]] + b2);
    }
}

/// Two well-formed indexes that list the same versions of the same mods
/// list the same mods in the same order, each with the same versions. So the
/// index of a mods folder depends only on which folders it holds, not on the
/// order they are read in.
pub proof fn lemma_index_determined_by_contents(
    s1: Seq<(Seq<char>, Seq<Seq<char>>)>,
    s2: Seq<(Seq<char>, Seq<Seq<char>>)>,
)
    requires
        index_wf(s1),
        index_wf(s2),
        forall|n: Seq<char>, v: Seq<char>| lists_version(s1, n, v) <==> lists_version(s2, n, v),
    ensures
        s1.len() == s2.len(),
        forall|i: int|
            0 <= i < s1.len() ==> #[trigger] s1[i].0 == s2[i].0 && s1[i].1.to_set() == s2[i].1.to_set(),
{
    let a = s1.map_values(|e: (Seq<char>, Seq<Seq<char>>)| e.0);
    let b = s2.map_values(|e: (Seq<char>, Seq<Seq<char>>)| e.0);
    assert forall|i: int, j: int| 0 <= i < j < a.len() implies text_lt(#[trigger] a[i], #[trigger] a[j]) by {
        assert(text_lt(s1[i].0, s1[j].0));
    }
    assert forall|i: int, j: int| 0 <= i < j < b.len() implies text_lt(#[trigger] b[i], #[trigger] b[j]) by {
        assert(text_lt(s2[i].0, s2[j].0));
    }
    assert forall|x: Seq<char>| a.contains(x) <==> b.contains(x) by {
        if a.contains(x) {
            let i = choose|i: int| 0 <= i < a.len() && a[i] == x;
            let v = s1[i].1[0];
            assert(s1[i].1.contains(v));
            assert(lists_version(s1, x, v));
            let k = choose|k: int| #![trigger s2[k]] 0 <= k < s2.len() && s2[k].0 == x && s2[k].1.contains(v);
            assert(b[k] == x);
        }
        if b.contains(x) {
            let i = choose|i: int| 0 <= i < b.len() && b[i] == x;
            let v = s2[i].1[0];
            assert(s2[i].1.contains(v));
            assert(lists_version(s2, x, v));
            let k = choose|k: int| #![trigger s1[k]] 0 <= k < s1.len() && s1[k].0 == x && s1[k].1.contains(v);
            assert(a[k] == x);
        }
    }
    lemma_ascending_unique(a, b);
    assert(a.len() == b.len());
    assert forall|i: int| 0 <= i < s1.len() implies #[trigger] s1[i].0 == s2[i].0 && s1[i].1.to_set()
        == s2[i].1.to_set() by {
        assert(a[i] == s1[i].0);
        assert(b[i] == s2[i].0);
        let n = s1[i].0;
        assert forall|v: Seq<char>| s1[i].1.to_set().contains(v) <==> s2[i].1.to_set().contains(v) by {
            if s1[i].1.contains(v) {
                assert(lists_version(s1, n, v));
                let k = choose|k: int| #![trigger s2[k]] 0 <= k < s2.len() && s2[k].0 == n && s2[k].1.contains(v);
                lemma_names_distinct(s2, k, i);
            }
            if s2[i].1.contains(v) {
                assert(lists_version(s2, n, v));
                let k = choose|k: int| #![trigger s1[k]] 0 <= k < s1.len() && s1[k].0 == n && s1[k].1.contains(v);
                lemma_names_distinct(s1, k, i);
            }
        }
        assert(s1[i].1.to_set() =~= s2[i].1.to_set());
    }
}

impl View for ModIndex {
    type V = Seq<(Seq<char>, Seq<Seq<char>>)>;

    closed spec fn view(&self) -> Seq<(Seq<char>, Seq<Seq<char>>)> {
        self.mods@.map_values(|e: ModVersions| entry_view(e))
    }
}

proof fn lemma_names_distinct(s: Seq<(Seq<char>, Seq<Seq<char>>)>, i: int, j: int)
    requires
        names_ascending(s),
        0 <= i < s.len(),
        0 <= j < s.len(),
        s[i].0 == s[j].0,
    ensures
        i == j,
{
    if i < j {
        lemma_text_lt_irreflexive(s[i].0);
    } else if j < i {
        lemma_text_lt_irreflexive(s[j].0);
    }
}

/// `x` occurs among `v`.
fn contains_text(v: &Vec<String>, x: &String) -> (r: bool)
    ensures
        r == views(v@).contains(x@),
{
    let mut i: usize = 0;
    while i < v.len()
        invariant
            i <= v.len(),
            forall|j: int| 0 <= j < i ==> v@[j]@ != x@,
        decreases v.len() - i,
    {
        if v[i] == *x {
            assert(views(v@)[i as int] == x@);
            return true;
        }
        i = i + 1;
    }
    assert forall|j: int| 0 <= j < views(v@).len() implies views(v@)[j] != x@ by {
        assert(views(v@)[j] == v@[j]@);
    }
    false
}

proof fn lemma_found_in_step(entries: Seq<DirEntry>, i: int, n: Seq<char>, v: Seq<char>)
    requires
        0 <= i < entries.len(),
    ensures
        found_in(entries.take(i + 1), n, v) <==> (found_in(entries.take(i), n, v) || (
        entries[i].is_dir && dir_name_parts(entries[i].name@) == (n, v))),
{
    let a = entries.take(i);
    let b = entries.take(i + 1);
    if found_in(b, n, v) {
        let k = choose|k: int|
            #![trigger b[k]]
            0 <= k < b.len() && b[k].is_dir && dir_name_parts(b[k].name@) == (n, v);
        if k < i {
            assert(a[k] == b[k]);
        }
    }
    if found_in(a, n, v) {
        let k = choose|k: int|
            #![trigger a[k]]
            0 <= k < a.len() && a[k].is_dir && dir_name_parts(a[k].name@) == (n, v);
        assert(b[k] == a[k]);
    }
    if entries[i].is_dir && dir_name_parts(entries[i].name@) == (n, v) {
        assert(b[i] == entries[i]);
    }
}

impl ModIndex {
    #[verifier::type_invariant]
    closed spec fn well_formed(&self) -> bool {
        index_wf(self@)
    }

    /// An index listing no mod.
    pub fn new() -> (r: ModIndex)
        ensures
            r@ == Seq::<(Seq<char>, Seq<Seq<char>>)>::empty(),
            index_wf(r@),
    {
        let r = ModIndex { mods: Vec::new() };
        assert(r@ =~= Seq::<(Seq<char>, Seq<Seq<char>>)>::empty());
        r
    }

    /// Builds the index from the entries of the mods folder: each folder
    /// named `<name>_<version>` makes `version` a version of mod `name`;
    /// entries that are not folders are skipped.
    pub fn from_dir_entries(entries: &Vec<DirEntry>) -> (r: ModIndex)
        ensures
            index_wf(r@),
            forall|n: Seq<char>, v: Seq<char>|
                lists_version(r@, n, v) <==> found_in(entries@, n, v),
            forall|n: Seq<char>| lists_mod(r@, n) <==> mod_found_in(entries@, n),
    {
        let mut mods: Vec<ModVersions> = Vec::new();
        let mut i: usize = 0;
        while i < entries.len()
            invariant
                i <= entries.len(),
                names_ascending(mods@.map_values(|e: ModVersions| entry_view(e))),
                versions_listed_once(mods@.map_values(|e: ModVersions| entry_view(e))),
                forall|n: Seq<char>, v: Seq<char>|
                    lists_version(mods@.map_values(|e: ModVersions| entry_view(e)), n, v)
                        <==> found_in(entries@.take(i as int), n, v),
            decreases entries.len() - i,
        {
            let ghost cur = mods@.map_values(|e: ModVersions| entry_view(e));
            proof {
                assert forall|n: Seq<char>, v: Seq<char>|
                    found_in(entries@.take(i + 1), n, v) <==> (found_in(
                        entries@.take(i as int),
                        n,
                        v,
                    ) || (entries@[i as int].is_dir && dir_name_parts(entries@[i as int].name@)
                        == (n, v))) by {
                    lemma_found_in_step(entries@, i as int, n, v);
                }
            }
            if !entries[i].is_dir {
                proof {
                    assert forall|n: Seq<char>, v: Seq<char>|
                        lists_version(cur, n, v) <==> found_in(entries@.take(i + 1), n, v) by {
                        lemma_found_in_step(entries@, i as int, n, v);
                    }
                }
                i = i + 1;
                continue;
            }
            let (n, v) = split_mod_dir_name(&entries[i].name);
            assert((n@, v@) == dir_name_parts(entries@[i as int].name@));
            let mut p: usize = 0;
            while p < mods.len() && compare_text(&mods[p].name, &n) == Order::Less
                invariant
                    p <= mods.len(),
                    cur == mods@.map_values(|e: ModVersions| entry_view(e)),
                    forall|q: int| 0 <= q < p ==> text_lt(#[trigger] cur[q].0, n@),
                decreases mods.len() - p,
            {
                assert(cur[p as int] == entry_view(mods@[p as int]));
                p = p + 1;
            }
            let same = p < mods.len() && compare_text(&mods[p].name, &n) == Order::Equal;
            if same {
                assert(cur[p as int] == entry_view(mods@[p as int]));
                let mut e = mods.remove(p);
                let ghost old_vs = views(e.versions@);
                if !contains_text(&e.versions, &v) {
                    e.versions.push(v);
                    assert(views(e.versions@) =~= old_vs.push(v@));
                }
                let ghost new_vs = views(e.versions@);
                assert forall|x: Seq<char>| new_vs.contains(x) <==> (old_vs.contains(x) || x
                    == v@) by {
                    if old_vs.contains(v@) {
                        assert(new_vs == old_vs);
                    } else {
                        if x == v@ {
                            assert(new_vs[old_vs.len() as int] == x);
                        }
                        if old_vs.contains(x) {
                            let k = choose|k: int| 0 <= k < old_vs.len() && old_vs[k] == x;
                            assert(new_vs[k] == x);
                        }
                    }
                }
                mods.insert(p, e);
                proof {
                    let nxt = mods@.map_values(|e: ModVersions| entry_view(e));
                    assert(nxt =~= cur.update(p as int, (n@, new_vs)));
                    assert(new_vs.no_duplicates());
                    assert(names_ascending(nxt)) by {
                        assert forall|a: int, b: int|
                            #![trigger nxt[a], nxt[b]]
                            0 <= a < b < nxt.len() implies text_lt(nxt[a].0, nxt[b].0) by {
                            assert(nxt[a].0 == cur[a].0);
                            assert(nxt[b].0 == cur[b].0);
                            assert(text_lt(cur[a].0, cur[b].0));
                        }
                    }
                    assert(versions_listed_once(nxt)) by {
                        assert forall|a: int| #![trigger nxt[a]] 0 <= a < nxt.len() implies nxt[a].1.len()
                            > 0 && nxt[a].1.no_duplicates() by {
                            if a == p {
                                assert(new_vs.contains(v@));
                            } else {
                                assert(nxt[a] == cur[a]);
                            }
                        }
                    }
                    assert forall|n2: Seq<char>, v2: Seq<char>|
                        #[trigger] lists_version(nxt, n2, v2) <==> (lists_version(cur, n2, v2) || (n2 == n@
                            && v2 == v@)) by {
                        if lists_version(nxt, n2, v2) {
                            let a = choose|a: int|
                                #![trigger nxt[a]]
                                0 <= a < nxt.len() && nxt[a].0 == n2 && nxt[a].1.contains(v2);
                            if a != p {
                                assert(cur[a] == nxt[a]);
                            }
                        }
                        if lists_version(cur, n2, v2) {
                            let a = choose|a: int|
                                #![trigger cur[a]]
                                0 <= a < cur.len() && cur[a].0 == n2 && cur[a].1.contains(v2);
                            if a != p {
                                assert(cur[a] == nxt[a]);
                            } else {
                                assert(nxt[a].1.contains(v2));
                            }
                        }
                        if n2 == n@ && v2 == v@ {
                            assert(nxt[p as int].1.contains(v2));
                        }
                    }
                }
            } else {
                let ghost at_p = if p < mods.len() {
                    cur[p as int].0
                } else {
                    Seq::empty()
                };
                proof {
                    if p < mods.len() {
                        assert(cur[p as int] == entry_view(mods@[p as int]));
                        lemma_text_lt_total(at_p, n@);
                    }
                    assert(!lists_mod(cur, n@)) by {
                        if lists_mod(cur, n@) {
                            let a = choose|a: int| #![trigger cur[a]] 0 <= a < cur.len() && cur[a].0 == n@;
                            if a < p {
                                lemma_text_lt_irreflexive(n@);
                            } else if a == p {
                            } else {
                                assert(text_lt(cur[p as int].0, cur[a].0));
                                lemma_text_lt_transitive(n@, cur[p as int].0, cur[a].0);
                                lemma_text_lt_irreflexive(n@);
                            }
                        }
                    }
                }
                let mut vs: Vec<String> = Vec::new();
                vs.push(v);
                let e = ModVersions { name: n, versions: vs };
                assert(entry_view(e) == (n@, seq![v@])) by {
                    assert(views(e.versions@) =~= seq![v@]);
                }
                mods.insert(p, e);
                proof {
                    let nxt = mods@.map_values(|e: ModVersions| entry_view(e));
                    assert(nxt =~= cur.insert(p as int, (n@, seq![v@])));
                    assert(names_ascending(nxt)) by {
                        assert forall|a: int, b: int|
                            #![trigger nxt[a], nxt[b]]
                            0 <= a < b < nxt.len() implies text_lt(nxt[a].0, nxt[b].0) by {
                            if b < p {
                                assert(text_lt(cur[a].0, cur[b].0));
                            } else if b == p {
                            } else if a < p {
                                assert(text_lt(cur[a].0, cur[b - 1].0));
                            } else if a == p {
                                if b - 1 > p {
                                    assert(text_lt(cur[p as int].0, cur[b - 1].0));
                                    lemma_text_lt_transitive(n@, cur[p as int].0, cur[b - 1].0);
                                }
                            } else {
                                assert(text_lt(cur[a - 1].0, cur[b - 1].0));
                            }
                        }
                    }
                    assert(versions_listed_once(nxt)) by {
                        assert forall|a: int| #![trigger nxt[a]] 0 <= a < nxt.len() implies nxt[a].1.len()
                            > 0 && nxt[a].1.no_duplicates() by {
                            if a < p {
                                assert(nxt[a] == cur[a]);
                            } else if a > p {
                                assert(nxt[a] == cur[a - 1]);
                            }
                        }
                    }
                    assert forall|n2: Seq<char>, v2: Seq<char>|
                        #[trigger] lists_version(nxt, n2, v2) <==> (lists_version(cur, n2, v2) || (n2 == n@
                            && v2 == v@)) by {
                        if lists_version(nxt, n2, v2) {
                            let a = choose|a: int|
                                #![trigger nxt[a]]
                                0 <= a < nxt.len() && nxt[a].0 == n2 && nxt[a].1.contains(v2);
                            if a < p {
                                assert(cur[a] == nxt[a]);
                            } else if a > p {
                                assert(cur[a - 1] == nxt[a]);
                            } else {
                                assert(seq![v@].contains(v2) ==> v2 == v@);
                            }
                        }
                        if lists_version(cur, n2, v2) {
                            let a = choose|a: int|
                                #![trigger cur[a]]
                                0 <= a < cur.len() && cur[a].0 == n2 && cur[a].1.contains(v2);
                            if a < p {
                                assert(cur[a] == nxt[a]);
                            } else {
                                assert(cur[a] == nxt[a + 1]);
                            }
                        }
                        if n2 == n@ && v2 == v@ {
                            assert(nxt[p as int].1[0] == v@);
                        }
                    }
                }
            }
            proof {
                let nxt = mods@.map_values(|e: ModVersions| entry_view(e));
                assert forall|n2: Seq<char>, v2: Seq<char>|
                    lists_version(nxt, n2, v2) <==> found_in(entries@.take(i + 1), n2, v2) by {
                    lemma_found_in_step(entries@, i as int, n2, v2);
                }
            }
            i = i + 1;
        }
        assert(entries@.take(entries.len() as int) =~= entries@);
        let ghost unsorted = mods@.map_values(|e: ModVersions| entry_view(e));
        let mut sorted: Vec<ModVersions> = Vec::new();
        let mut j: usize = 0;
        while j < mods.len()
            invariant
                j <= mods.len(),
                unsorted == mods@.map_values(|e: ModVersions| entry_view(e)),
                sorted.len() == j,
                forall|a: int|
                    #![trigger sorted@[a]]
                    0 <= a < j ==> sorted@[a].name@ == unsorted[a].0 && views(
                        sorted@[a].versions@,
                    ).to_multiset() == unsorted[a].1.to_multiset() && newest_first(
                        views(sorted@[a].versions@),
                    ),
            decreases mods.len() - j,
        {
            assert(unsorted[j as int] == entry_view(mods@[j as int]));
            let name = mods[j].name.clone();
            let versions = sort_versions_newest_first(&mods[j].versions);
            sorted.push(ModVersions { name, versions });
            assert(sorted@[j as int].name@ == unsorted[j as int].0);
            j = j + 1;
        }
        let ghost s = sorted@.map_values(|e: ModVersions| entry_view(e));
        proof {
            assert(s.len() == unsorted.len());
            assert forall|a: int| #![trigger s[a]] 0 <= a < s.len() implies s[a].0 == unsorted[a].0
                && s[a].1.to_multiset() == unsorted[a].1.to_multiset() && newest_first(s[a].1) by {
                assert(s[a] == entry_view(sorted@[a]));
            }
            assert forall|a: int, x: Seq<char>| 0 <= a < s.len() implies s[a].1.contains(x)
                <==> #[trigger] unsorted[a].1.contains(x) by {
                assert(s[a].1.to_multiset() == unsorted[a].1.to_multiset());
                assert(s[a].1.contains(x) <==> s[a].1.to_multiset().count(x) > 0);
                assert(unsorted[a].1.contains(x) <==> unsorted[a].1.to_multiset().count(x) > 0);
            }
            assert(names_ascending(s)) by {
                assert forall|a: int, b: int|
                    #![trigger s[a], s[b]]
                    0 <= a < b < s.len() implies text_lt(s[a].0, s[b].0) by {
                    assert(text_lt(unsorted[a].0, unsorted[b].0));
                }
            }
            assert(versions_listed_once(s)) by {
                assert forall|a: int| #![trigger s[a]] 0 <= a < s.len() implies s[a].1.len() > 0
                    && s[a].1.no_duplicates() by {
                    let u = unsorted[a].1;
                    assert(u.len() > 0 && u.no_duplicates());
                    u.lemma_multiset_has_no_duplicates();
                    assert(s[a].1.to_multiset().len() == s[a].1.len());
                    assert(u.to_multiset().len() == u.len());
                    assert forall|x: Seq<char>| s[a].1.to_multiset().contains(x) implies s[a].1.to_multiset().count(
                        x,
                    ) == 1 by {
                        assert(u.to_multiset().contains(x));
                    }
                    s[a].1.lemma_multiset_has_no_duplicates_conv();
                }
            }
            assert forall|n: Seq<char>, v: Seq<char>|
                lists_version(s, n, v) <==> found_in(entries@, n, v) by {
                if lists_version(s, n, v) {
                    let a = choose|a: int| #![trigger s[a]] 0 <= a < s.len() && s[a].0 == n && s[a].1.contains(v);
                    assert(unsorted[a].1.contains(v));
                    assert(lists_version(unsorted, n, v));
                }
                if lists_version(unsorted, n, v) {
                    let a = choose|a: int|
                        #![trigger unsorted[a]]
                        0 <= a < unsorted.len() && unsorted[a].0 == n && unsorted[a].1.contains(v);
                    assert(s[a].1.contains(v));
                    assert(lists_version(s, n, v));
                }
            }
            assert forall|n: Seq<char>| lists_mod(s, n) <==> mod_found_in(entries@, n) by {
                if lists_mod(s, n) {
                    let a = choose|a: int| #![trigger s[a]] 0 <= a < s.len() && s[a].0 == n;
                    let v = s[a].1[0];
                    assert(s[a].1.contains(v));
                    assert(lists_version(s, n, v));
                    let k = choose|k: int|
                        #![trigger entries@[k]]
                        0 <= k < entries@.len() && entries@[k].is_dir && dir_name_parts(
                            entries@[k].name@,
                        ) == (n, v);
                }
                if mod_found_in(entries@, n) {
                    let k = choose|k: int|
                        #![trigger entries@[k]]
                        0 <= k < entries@.len() && entries@[k].is_dir && dir_name_parts(
                            entries@[k].name@,
                        ).0 == n;
                    let v = dir_name_parts(entries@[k].name@).1;
                    assert(found_in(entries@, n, v));
                    let a = choose|a: int| #![trigger s[a]] 0 <= a < s.len() && s[a].0 == n && s[a].1.contains(v);
                }
            }
        }
        let r = ModIndex { mods: sorted };
        assert(r@ == s);
        r
    }

    /// Position of mod `name` in the index, if listed.
    fn find_mod(&self, name: &str) -> (r: Option<usize>)
        ensures
            match r {
                Some(i) => i < self@.len() && self@[i as int].0 == name@ && versions_of(self@, name@)
                    == self@[i as int].1,
                None => !lists_mod(self@, name@),
            },
    {
        proof {
            use_type_invariant(self);
        }
        let mut i: usize = 0;
        while i < self.mods.len()
            invariant
                i <= self.mods.len(),
                index_wf(self@),
                forall|j: int| 0 <= j < i ==> #[trigger] self@[j].0 != name@,
            decreases self.mods.len() - i,
        {
            assert(self@[i as int] == entry_view(self.mods@[i as int]));
            if compare_text(&self.mods[i].name, name) == Order::Equal {
                proof {
                    let s = self@;
                    let k = choose|k: int| #![trigger s[k]] 0 <= k < s.len() && s[k].0 == name@;
                    lemma_names_distinct(s, k, i as int);
                }
                return Some(i);
            }
            i = i + 1;
        }
        None
    }

    /// The mod names, in ascending order, each once.
    pub fn available_mods(&self) -> (r: Vec<String>)
        ensures
            views(r@) == self@.map_values(|e: (Seq<char>, Seq<Seq<char>>)| e.0),
    {
        let mut r: Vec<String> = Vec::new();
        let mut i: usize = 0;
        while i < self.mods.len()
            invariant
                i <= self.mods.len(),
                self@.len() == self.mods.len(),
                r.len() == i,
                forall|k: int| 0 <= k < i ==> #[trigger] r@[k]@ == self@[k].0,
            decreases self.mods.len() - i,
        {
            assert(self@[i as int] == entry_view(self.mods@[i as int]));
            r.push(self.mods[i].name.clone());
            i = i + 1;
        }
        assert(views(r@) =~= self@.map_values(|e: (Seq<char>, Seq<Seq<char>>)| e.0)) by {
            assert forall|k: int| 0 <= k < r.len() implies views(r@)[k] == self@[k].0 by {
                assert(r@[k]@ == self@[k].0);
            }
        }
        r
    }

    /// The versions of mod `name`, newest first, or the error text the
    /// version list request answers with for an unknown mod.
    pub fn mod_versions(&self, name: &str) -> (r: Result<Vec<String>, String>)
        ensures
            match r {
                Ok(vs) => lists_mod(self@, name@) && views(vs@) == versions_of(self@, name@),
                Err(msg) => !lists_mod(self@, name@) && msg@ == "Unknown mod \""@ + name@ + "\""@,
            },
    {
        match self.find_mod(name) {
            Some(i) => {
                assert(self@[i as int] == entry_view(self.mods@[i as int]));
                Ok(self.mods[i].versions.clone())
            },
            None => Err(concat3("Unknown mod \"", name, "\"")),
        }
    }

    /// Resolves `version` of mod `name`: `latest` is the newest version;
    /// any other text must be one of the listed versions.
    pub fn get_version(&self, name: &str, version: &str) -> (r: Option<String>)
        ensures
            match r {
                Some(v) => version_lookup(self@, name@, version@) == Some(v@),
                None => version_lookup(self@, name@, version@) is None,
            },
    {
        proof {
            use_type_invariant(self);
        }
        match self.find_mod(name) {
            None => None,
            Some(i) => {
                assert(self@[i as int] == entry_view(self.mods@[i as int]));
                let vs = &self.mods[i].versions;
                proof {
                    reveal_strlit("latest");
                }
                if crate::text::compare_text(version, "latest") == Order::Equal {
                    assert(vs.len() > 0);
                    assert(views(vs@)[0] == vs@[0]@);
                    Some(vs[0].clone())
                } else {
                    let mut j: usize = 0;
                    while j < vs.len()
                        invariant
                            j <= vs.len(),
                            forall|k: int| 0 <= k < j ==> vs@[k]@ != version@,
                            views(vs@) == versions_of(self@, name@),
                            lists_mod(self@, name@),
                            version@ != "latest"@,
                        decreases vs.len() - j,
                    {
                        if crate::text::compare_text(&vs[j], version) == Order::Equal {
                            assert(views(vs@)[j as int] == version@);
                            return Some(vs[j].clone());
                        }
                        j = j + 1;
                    }
                    assert forall|k: int| 0 <= k < views(vs@).len() implies views(vs@)[k] != version@ by {
                        assert(views(vs@)[k] == vs@[k]@);
                    }
                    None
                }
            },
        }
    }
}

} // verus!
