//! Addresses and labels the pages are built from.

use vstd::prelude::*;
use crate::encode::{url_encode, url_encoded};
use crate::text::{chars_of, concat2, concat3, has_prefix, push_char, string_from_range, text_starts_with};
use crate::version::{find_from, lemma_pieces, rest_piece};

verus! {

/// The address to come back to after the login: path, then `?query` when
/// there is a query, then the fragment with a `#` in front when it lacks one.
pub open spec fn return_target(path: Seq<char>, query: Seq<char>, hash: Seq<char>) -> Seq<char> {
    path + (if query.len() == 0 {
        Seq::empty()
    } else {
        "?"@ + query
    }) + (if hash.len() == 0 {
        Seq::empty()
    } else if has_prefix(hash, "#"@) {
        hash
    } else {
        "#"@ + hash
    })
}

/// The login page with the current location to come back to.
pub fn login_redirect_target(path: &str, query: &str, hash: &str) -> (r: String)
    ensures
        r@ == "/auth/login?next="@ + url_encoded(return_target(path@, query@, hash@)),
{
    let mut target = String::from_str(path);
    if query.unicode_len() != 0 {
        target.append("?");
        target.append(query);
    }
    if hash.unicode_len() != 0 {
        if !text_starts_with(hash, "#") {
            target.append("#");
        }
        target.append(hash);
    }
    assert(target@ =~= return_target(path@, query@, hash@));
    let encoded = url_encode(target.as_str());
    concat2("/auth/login?next=", encoded.as_str())
}

/// Where the mod selector navigates: `/i/<name>/<version>`, the version
/// `latest` unless one was picked; nowhere for an empty name.
pub fn selector_target(name: &str, selected_version: Option<&str>) -> (r: Option<String>)
    ensures
        name@.len() == 0 ==> r is None,
        name@.len() != 0 ==> (r matches Some(t) && t@ == "/i/"@ + name@ + "/"@ + match selected_version {
            Some(v) => v@,
            None => "latest"@,
        }),
{
    if name.unicode_len() == 0 {
        return None;
    }
    let version = match selected_version {
        Some(v) => v,
        None => "latest",
    };
    let mut t = concat3("/i/", name, "/");
    t.append(version);
    Some(t)
}

/// The newest version of a version list (empty text for an empty list).
pub fn latest_of(versions: &Vec<String>) -> (r: String)
    ensures
        versions.len() > 0 ==> r@ == versions@[0]@,
        versions.len() == 0 ==> r@ == Seq::<char>::empty(),
{
    if versions.len() > 0 {
        versions[0].clone()
    } else {
        String::new()
    }
}

/// The label of the `latest` choice: `latest (<version>)`.
pub fn latest_label(latest: &str) -> (r: String)
    ensures
        r@ == "latest ("@ + latest@ + ")"@,
{
    concat3("latest (", latest, ")")
}

/// The page title of the file tree: the mod name, with the open path.
pub fn tree_title(name: &str, path: &str) -> (r: String)
    ensures
        path@.len() == 0 ==> r@ == name@,
        path@.len() != 0 ==> r@ == name@ + "/"@ + path@,
{
    if path.unicode_len() == 0 {
        return String::from_str(name);
    }
    concat3(name, "/", path)
}

/// `s` without one trailing `/` (`str::strip_suffix('/')`, or `s`).
pub open spec fn without_trailing_slash(s: Seq<char>) -> Seq<char> {
    if s.len() > 0 && s.last() == '/' {
        s.drop_last()
    } else {
        s
    }
}

/// The page path of a folder of the tree.
pub open spec fn folder_page_path(name: Seq<char>, version: Seq<char>, path: Seq<char>) -> Seq<
    char,
> {
    without_trailing_slash("/mod/"@ + name + "/"@ + version + "/"@ + path)
}

/// The page path of a folder of the tree: `/mod/<name>/<version>/<path>`
/// without a trailing `/`.
pub fn dir_page_path(name: &str, version: &str, path: &str) -> (r: String)
    ensures
        r@ == folder_page_path(name@, version@, path@),
{
    let mut s = concat3("/mod/", name, "/");
    s.append(version);
    s.append("/");
    s.append(path);
    let v = chars_of(s.as_str());
    if v.len() > 0 && v[v.len() - 1] == '/' {
        let r = string_from_range(&v, 0, v.len() - 1);
        assert(r@ =~= s@.drop_last());
        r
    } else {
        s
    }
}

/// A folder of the tree starts open when the current page lies inside it.
pub fn dir_starts_open(current_path: &str, dir_path: &str) -> (r: bool)
    ensures
        r == has_prefix(current_path@, dir_path@),
{
    text_starts_with(current_path, dir_path)
}

/// A folder is shown as a link when its entries are still to be read and it
/// is not open.
pub fn dir_shown_as_link(lazy: bool, open: bool) -> (r: bool)
    ensures
        r == (lazy && !open),
{
    lazy && !open
}

/// The file path within the mod of a page path `/mod/<name>/<version>/<path>`:
/// what follows the second `/` after `/mod/` (empty when there is none);
/// `None` for a page outside `/mod/`.
pub open spec fn page_file_path(page: Seq<char>) -> Option<Seq<char>> {
    if !has_prefix(page, "/mod/"@) {
        None
    } else {
        match rest_piece(page.skip(5), '/') {
            None => Some(Seq::empty()),
            Some(r1) => match rest_piece(r1, '/') {
                None => Some(Seq::empty()),
                Some(r2) => Some(r2),
            },
        }
    }
}

/// The file path a page shows (see `page_file_path`).
pub fn active_file_path(page: &str) -> (r: Option<String>)
    ensures
        match r {
            Some(p) => page_file_path(page@) == Some(p@),
            None => page_file_path(page@) is None,
        },
{
    proof {
        reveal_strlit("/mod/");
    }
    if !text_starts_with(page, "/mod/") {
        return None;
    }
    let v = chars_of(page);
    let n = v.len();
    let ghost g = v@;
    let first = find_from(&v, 5, '/');
    proof {
        lemma_pieces(g, 5, first, '/');
    }
    match first {
        None => Some(String::new()),
        Some(i) => {
            let second = find_from(&v, i + 1, '/');
            proof {
                lemma_pieces(g, i + 1, second, '/');
                assert(g.skip(5).skip(i + 1 - 5) =~= g.skip(i + 1));
            }
            match second {
                None => Some(String::new()),
                Some(j) => {
                    let r = string_from_range(&v, j + 1, n);
                    assert(r@ =~= g.skip(j + 1));
                    Some(r)
                },
            }
        },
    }
}

/// A link counts as the current page when the page's file path starts with
/// the link's path.
pub fn is_active_link(page: &str, href: &str) -> (r: bool)
    ensures
        r == has_prefix(
            match page_file_path(page@) {
                Some(p) => p,
                None => Seq::<char>::empty(),
            },
            href@,
        ),
{
    match active_file_path(page) {
        Some(p) => text_starts_with(p.as_str(), href),
        None => {
            let empty = String::new();
            text_starts_with(empty.as_str(), href)
        },
    }
}

/// What the welcome line adds for a logged-in user: `, <username>`.
pub fn greeting_suffix(username: &str) -> (r: String)
    ensures
        r@ == ", "@ + username@,
{
    concat2(", ", username)
}

/// The line numbers shown beside a file of `count` lines: 1 to `count`.
pub fn line_numbers(count: usize) -> (r: Vec<usize>)
    ensures
        r.len() == count,
        forall|i: int| 0 <= i < count ==> #[trigger] r@[i] == i + 1,
{
    let mut r: Vec<usize> = Vec::new();
    let mut i: usize = 0;
    while i < count
        invariant
            i <= count,
            r.len() == i,
            forall|k: int| 0 <= k < i ==> #[trigger] r@[k] == k + 1,
        decreases count - i,
    {
        i = i + 1;
        r.push(i);
    }
    r
}

/// `s` with every newline and space taken out
/// (`str::replace(['\n', ' '], "")`).
pub open spec fn without_spacing(s: Seq<char>) -> Seq<char>
    decreases s.len(),
{
    if s.len() == 0 {
        Seq::empty()
    } else {
        let rest = without_spacing(s.drop_last());
        if s.last() == '\n' || s.last() == ' ' {
            rest
        } else {
            rest.push(s.last())
        }
    }
}

/// `s` with each occurrence of `pat`, from left to right and not
/// overlapping, replaced by `rep` (`str::replace` for a non-empty pattern).
pub open spec fn replaced(s: Seq<char>, pat: Seq<char>, rep: Seq<char>) -> Seq<char>
    decreases s.len(),
{
    if s.len() == 0 {
        Seq::empty()
    } else if pat.len() > 0 && has_prefix(s, pat) {
        rep + replaced(s.skip(pat.len() as int), pat, rep)
    } else {
        seq![s[0]] + replaced(s.drop_first(), pat, rep)
    }
}

/// Takes out every newline and space.
pub fn strip_spacing(s: &str) -> (r: String)
    ensures
        r@ == without_spacing(s@),
{
    let v = chars_of(s);
    let mut r = String::new();
    let mut i: usize = 0;
    while i < v.len()
        invariant
            v@ == s@,
            i <= v.len(),
            r@ == without_spacing(s@.take(i as int)),
        decreases v.len() - i,
    {
        assert(s@.take(i + 1).drop_last() =~= s@.take(i as int));
        if v[i] != '\n' && v[i] != ' ' {
            push_char(&mut r, v[i]);
        }
        i = i + 1;
    }
    assert(s@.take(v.len() as int) =~= s@);
    r
}

fn chars_at(v: &Vec<char>, i: usize, p: &Vec<char>) -> (r: bool)
    requires
        i <= v.len(),
    ensures
        r == has_prefix(v@.skip(i as int), p@),
{
    if p.len() > v.len() - i {
        return false;
    }
    let mut k: usize = 0;
    while k < p.len()
        invariant
            i <= v.len(),
            p.len() <= v.len() - i,
            k <= p.len(),
            forall|j: int| 0 <= j < k ==> v@[i + j] == p@[j],
        decreases p.len() - k,
    {
        if v[i + k] != p[k] {
            assert(v@.skip(i as int).take(p.len() as int)[k as int] != p@[k as int]);
            return false;
        }
        k = k + 1;
    }
    assert(v@.skip(i as int).take(p.len() as int) =~= p@);
    true
}

/// Replaces each occurrence of a non-empty `pat` by `rep`.
pub fn replace_all(s: &str, pat: &str, rep: &str) -> (r: String)
    requires
        pat@.len() > 0,
    ensures
        r@ == replaced(s@, pat@, rep@),
{
    let v = chars_of(s);
    let p = chars_of(pat);
    let n = v.len();
    let mut r = String::new();
    let mut i: usize = 0;
    assert(s@.skip(0) =~= s@);
    while i < n
        invariant
            v@ == s@,
            p@ == pat@,
            p.len() > 0,
            n == v.len(),
            i <= n,
            r@ + replaced(s@.skip(i as int), pat@, rep@) == replaced(s@, pat@, rep@),
        decreases n - i,
    {
        let ghost t = s@.skip(i as int);
        if chars_at(&v, i, &p) {
            assert(t.skip(pat@.len() as int) =~= s@.skip(i + p.len()));
            assert(r@ + rep@ + replaced(t.skip(pat@.len() as int), pat@, rep@) =~= r@ + (rep@ + replaced(t.skip(pat@.len() as int), pat@, rep@)));
            r.append(rep);
            i = i + p.len();
        } else {
            assert(t.drop_first() =~= s@.skip(i + 1));
            assert(t[0] == v@[i as int]);
            assert(r@.push(v@[i as int]) + replaced(t.drop_first(), pat@, rep@) =~= r@ + (seq![t[0]] + replaced(t.drop_first(), pat@, rep@)));
            push_char(&mut r, v[i]);
            i = i + 1;
        }
    }
    assert(replaced(s@.skip(n as int), pat@, rep@) =~= Seq::<char>::empty());
    assert(r@ + Seq::<char>::empty() =~= r@);
    r
}

/// The script of the bookmarklet: on a mod portal page, it opens the same
/// mod or user in the explorer at `[TARGET]`.
pub fn bookmarklet_code() -> (r: &'static str)
    ensures
        r@ == "if (window.location.host == \"mods.factorio.com\") {\n    window.location.href = \"[TARGET]\" + window.location.pathname.match(/\\/(?:mod|user)\\/[^/?#]+/)[0]\n}"@,
{
    "if (window.location.host == \"mods.factorio.com\") {\n    window.location.href = \"[TARGET]\" + window.location.pathname.match(/\\/(?:mod|user)\\/[^/?#]+/)[0]\n}"
}

/// Where the bookmarklet sends the browser.
pub fn bookmarklet_target() -> (r: &'static str)
    ensures
        r@ == "https://mod.tools.bpbin.com"@,
{
    "https://mod.tools.bpbin.com"
}

/// The bookmarklet's `javascript:` address: the script without spacing,
/// with the target filled in, percent-encoded, wrapped in a function call.
pub fn bookmarklet_href(code: &str, target: &str) -> (r: String)
    ensures
        r@ == "javascript:(function(){"@ + url_encoded(
            replaced(without_spacing(code@), "[TARGET]"@, target@),
        ) + "})()"@,
{
    proof {
        reveal_strlit("[TARGET]");
    }
    let compact = strip_spacing(code);
    let filled = replace_all(compact.as_str(), "[TARGET]", target);
    let encoded = url_encode(filled.as_str());
    concat3("javascript:(function(){", encoded.as_str(), "})()")
}

} // verus!
