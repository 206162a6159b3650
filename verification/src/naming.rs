//! How a mod version's folder is named: `<name>_<version>`.

use vstd::prelude::*;
use crate::text::{chars_of, concat3, string_from_range};

verus! {

/// `i` is the position of the last `c` in `s`.
pub open spec fn is_last_sep(s: Seq<char>, i: int, c: char) -> bool {
    &&& 0 <= i < s.len()
    &&& s[i] == c
    &&& forall|j: int| i < j < s.len() ==> s[j] != c
}

/// The mod name and version read off a folder name: the name is everything
/// before the last `_` and the version everything after it. A folder name
/// without `_` gives an empty name and the whole folder name as version.
pub open spec fn dir_name_parts(s: Seq<char>) -> (Seq<char>, Seq<char>) {
    if exists|i: int| #[trigger] is_last_sep(s, i, '_') {
        let i = choose|i: int| #[trigger] is_last_sep(s, i, '_');
        (s.take(i), s.skip(i + 1))
    } else {
        (Seq::empty(), s)
    }
}

/// The folder name of a mod version.
pub open spec fn dir_name_of(name: Seq<char>, version: Seq<char>) -> Seq<char> {
    name + seq!['_'] + version
}

proof fn lemma_last_sep_unique(s: Seq<char>, i: int, k: int, c: char)
    requires
        is_last_sep(s, i, c),
        is_last_sep(s, k, c),
    ensures
        i == k,
{
}

/// Splits a folder name into mod name and version.
pub fn split_mod_dir_name(dir: &str) -> (r: (String, String))
    ensures
        (r.0@, r.1@) == dir_name_parts(dir@),
{
    let v = chars_of(dir);
    let n = v.len();
    let mut i: usize = n;
    while i > 0
        invariant
            v@ == dir@,
            n == v.len(),
            i <= n,
            forall|j: int| i <= j < n ==> v@[j] != '_',
        decreases i,
    {
        if v[i - 1] == '_' {
            let k = i - 1;
            assert(is_last_sep(dir@, k as int, '_'));
            let name = string_from_range(&v, 0, k);
            let version = string_from_range(&v, k + 1, n);
            proof {
                let j = choose|j: int| #[trigger] is_last_sep(dir@, j, '_');
                lemma_last_sep_unique(dir@, j, k as int, '_');
                assert(dir@.subrange(0, k as int) =~= dir@.take(k as int));
                assert(dir@.subrange(k + 1, n as int) =~= dir@.skip(k + 1));
            }
            return (name, version);
        }
        i = i - 1;
    }
    assert(!exists|j: int| #[trigger] is_last_sep(dir@, j, '_'));
    (String::new(), String::from_str(dir))
}

/// The folder name of a mod version, `format!("{name}_{version}")`.
pub fn mod_dir_name(name: &str, version: &str) -> (r: String)
    ensures
        r@ == dir_name_of(name@, version@),
{
    proof {
        reveal_strlit("_");
    }
    concat3(name, "_", version)
}

/// Naming a version's folder and reading it back gives the name and version
/// again, as long as the version holds no `_`.
pub proof fn lemma_dir_name_round_trip(name: Seq<char>, version: Seq<char>)
    requires
        !version.contains('_'),
    ensures
        dir_name_parts(dir_name_of(name, version)) == (name, version),
{
    let s = dir_name_of(name, version);
    let k = name.len() as int;
    assert(s[k] == '_');
    assert forall|j: int| k < j < s.len() implies s[j] != '_' by {
        assert(s[j] == version[j - k - 1]);
    }
    assert(is_last_sep(s, k, '_'));
    let i = choose|i: int| #[trigger] is_last_sep(s, i, '_');
    lemma_last_sep_unique(s, i, k, '_');
    assert(s.take(k) =~= name);
    assert(s.skip(k + 1) =~= version);
}

proof fn lemma_last_sep_from(s: Seq<char>, k: int, c: char) -> (i: int)
    requires
        0 <= k < s.len(),
        s[k] == c,
    ensures
        is_last_sep(s, i, c),
    decreases s.len() - k,
{
    if exists|j: int| k < j < s.len() && s[j] == c {
        let j = choose|j: int| k < j < s.len() && s[j] == c;
        lemma_last_sep_from(s, j, c)
    } else {
        k
    }
}

/// A folder name that holds a `_` is the folder name of the parts read off it.
pub proof fn lemma_dir_name_rebuild(s: Seq<char>)
    requires
        s.contains('_'),
    ensures
        dir_name_of(dir_name_parts(s).0, dir_name_parts(s).1) == s,
{
    let j0 = choose|j: int| 0 <= j < s.len() && s[j] == '_';
    let k = lemma_last_sep_from(s, j0, '_');
    assert(is_last_sep(s, k, '_'));
    let i = choose|i: int| #[trigger] is_last_sep(s, i, '_');
    lemma_last_sep_unique(s, i, k, '_');
    assert(s.take(k) + seq!['_'] + s.skip(k + 1) =~= s);
}

} // verus!
