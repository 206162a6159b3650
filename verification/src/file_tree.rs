//! The file tree of a mod version, and the rules it is built by.

use vstd::prelude::*;
use crate::text::{
    Order, chars_of, compare_text, concat3, lemma_text_lt_irreflexive, lemma_text_lt_transitive, push_char, text_lt,
    views,
};

verus! {

broadcast use vstd::seq_lib::group_to_multiset_ensures;

/// A node of the file tree: a file, or a folder with what is known of its
/// contents.
pub enum FileTreeNode {
    File(String),
    Dir(String, DirData),
}

/// What a folder node holds.
pub enum DirData {
    /// Its entries, read.
    Loaded(Vec<FileTreeNode>),
    /// It has no entries.
    Empty,
    /// The node limit was reached while building the tree, so its entries
    /// are read when the folder is opened.
    Lazy,
}

impl DirData {
    /// Only folders still to be read are shown as links.
    pub fn should_be_link(&self) -> (r: bool)
        ensures
            r == (*self is Lazy),
    {
        match self {
            DirData::Lazy => true,
            _ => false,
        }
    }
}

/// What an entry of a folder is.
#[derive(Clone, Copy, Debug, PartialEq, Eq, Structural)]
pub enum EntryKind {
    File,
    Dir,
    Other,
}

/// Beyond this many nodes, folders are left to be read when opened.
pub open spec fn lazy_threshold() -> int {
    50
}

/// `base/segment`, or `segment` alone when `base` is empty.
pub open spec fn joined_path(base: Seq<char>, segment: Seq<char>) -> Seq<char> {
    if base.len() == 0 {
        segment
    } else {
        base + "/"@ + segment
    }
}

/// Joins a path and a name.
pub fn join_path(base: &str, segment: &str) -> (r: String)
    ensures
        r@ == joined_path(base@, segment@),
{
    if base.unicode_len() == 0 {
        return String::from_str(segment);
    }
    concat3(base, "/", segment)
}

/// A folder is left to be read when it is opened once the tree has reached
/// the node limit; below it, its entries are read at once.
pub fn is_lazy_dir(node_count: usize) -> (r: bool)
    ensures
        r == (node_count >= lazy_threshold()),
{
    node_count >= 50
}

/// The node of a folder whose entries were read.
pub fn dir_node(name: String, children: Vec<FileTreeNode>) -> (r: FileTreeNode)
    ensures
        match r {
            FileTreeNode::Dir(n, d) => n@ == name@ && match d {
                DirData::Empty => children.len() == 0,
                DirData::Loaded(c) => children.len() > 0 && c@ == children@,
                DirData::Lazy => false,
            },
            FileTreeNode::File(_) => false,
        },
{
    if children.len() == 0 {
        FileTreeNode::Dir(name, DirData::Empty)
    } else {
        FileTreeNode::Dir(name, DirData::Loaded(children))
    }
}

/// The answer to a tree request for a folder: `Empty` when it has no
/// entries, else its entries.
pub fn tree_answer(requested_path: String, nodes: Vec<FileTreeNode>) -> (r: FileTreeNode)
    ensures
        match r {
            FileTreeNode::Dir(n, d) => n@ == requested_path@ && match d {
                DirData::Empty => nodes.len() == 0,
                DirData::Loaded(c) => nodes.len() > 0 && c@ == nodes@,
                DirData::Lazy => false,
            },
            FileTreeNode::File(_) => false,
        },
{
    dir_node(requested_path, nodes)
}

/// What `str::to_lowercase` gives (Unicode lower case mapping).
pub uninterp spec fn lowercase(s: Seq<char>) -> Seq<char>;

/// Text of ASCII characters only.
pub open spec fn is_ascii_text(s: Seq<char>) -> bool {
    forall|i: int| 0 <= i < s.len() ==> (#[trigger] s[i] as int) < 128
}

/// `c` with `A`-`Z` mapped to `a`-`z`, every other character unchanged.
pub open spec fn ascii_lower_char(c: char) -> char {
    if 'A' <= c && c <= 'Z' {
        ((c as int) + 32) as char
    } else {
        c
    }
}

/// `s` with `A`-`Z` mapped to `a`-`z`, character by character.
pub open spec fn ascii_lowered(s: Seq<char>) -> Seq<char> {
    s.map_values(|c: char| ascii_lower_char(c))
}

/// `str::to_lowercase`; the Unicode case tables are the standard
/// library's, so the result is named. Text of ASCII characters is lowered
/// character by character, `A`-`Z` to `a`-`z` (the Unicode lower case of
/// an ASCII character is its ASCII lower case).
#[verifier::external_body]
pub(crate) fn to_lowercase(s: &str) -> (r: String)
    ensures
        r@ == lowercase(s@),
        is_ascii_text(s@) ==> r@ == ascii_lowered(s@),
{
    s.to_lowercase()
}

/// `c` with `A`-`Z` mapped to `a`-`z`.
fn lower_ascii_char(c: char) -> (r: char)
    requires
        (c as int) < 128,
    ensures
        r == ascii_lower_char(c),
{
    if 'A' <= c && c <= 'Z' {
        let b = c as u8;
        let l = (b + 32) as char;
        assert(l == ((c as int) + 32) as char);
        l
    } else {
        c
    }
}

/// The lower case of a text, the key names are sorted by. An ASCII text is
/// lowered here, character by character; any other goes through
/// `str::to_lowercase`.
pub fn lower_case(s: &str) -> (r: String)
    ensures
        r@ == lowercase(s@),
        is_ascii_text(s@) ==> r@ == ascii_lowered(s@),
{
    let full = to_lowercase(s);
    let v = chars_of(s);
    let mut out = String::new();
    let mut i: usize = 0;
    while i < v.len()
        invariant
            v@ == s@,
            i <= v.len(),
            forall|j: int| 0 <= j < i ==> (#[trigger] v@[j] as int) < 128,
            out@ == ascii_lowered(v@.take(i as int)),
            full@ == lowercase(s@),
            is_ascii_text(s@) ==> full@ == ascii_lowered(s@),
        decreases v.len() - i,
    {
        let c = v[i];
        if c >= '\u{80}' {
            return full;
        }
        push_char(&mut out, lower_ascii_char(c));
        assert(ascii_lowered(v@.take(i + 1)) =~= ascii_lowered(v@.take(i as int)).push(ascii_lower_char(c)));
        i = i + 1;
    }
    assert(v@.take(v.len() as int) =~= v@);
    out
}

/// For each of the names that is ASCII text, its lower case is its ASCII
/// lower case.
pub open spec fn ascii_lower_known(s: Seq<Seq<char>>) -> bool {
    forall|i: int|
        0 <= i < s.len() && is_ascii_text(#[trigger] s[i]) ==> lowercase(s[i]) == ascii_lowered(s[i])
}

/// Names in ascending order of their lower case.
pub open spec fn sorted_by_lowercase(s: Seq<Seq<char>>) -> bool {
    forall|i: int, j: int|
        0 <= i < j < s.len() ==> !text_lt(lowercase(#[trigger] s[j]), lowercase(#[trigger] s[i]))
}

/// The names whose lower case is `k`.
pub open spec fn lower_is(k: Seq<char>) -> spec_fn(Seq<char>) -> bool {
    |x: Seq<char>| lowercase(x) == k
}

proof fn lemma_filter_none<A>(s: Seq<A>, p: spec_fn(A) -> bool)
    requires
        forall|i: int| 0 <= i < s.len() ==> !p(#[trigger] s[i]),
    ensures
        s.filter(p) == Seq::<A>::empty(),
{
    broadcast use vstd::seq_lib::group_filter_ensures;

    if s.filter(p).len() > 0 {
        let y = s.filter(p)[0];
        assert(p(y));
        assert(s.filter(p).contains(y));
        s.lemma_filter_contains_rev(p, y);
    }
    assert(s.filter(p) =~= Seq::<A>::empty());
}

proof fn lemma_filter_insert_sorted(old: Seq<Seq<char>>, p: int, x: Seq<char>, k: Seq<char>)
    requires
        0 <= p <= old.len(),
        forall|q: int| p <= q < old.len() ==> text_lt(lowercase(x), lowercase(#[trigger] old[q])),
    ensures
        old.insert(p, x).filter(lower_is(k)) == if lowercase(x) == k {
            old.filter(lower_is(k)).push(x)
        } else {
            old.filter(lower_is(k))
        },
{
    let f = lower_is(k);
    let a = old.take(p);
    let b = old.skip(p);
    assert(old =~= a + b);
    assert(old.insert(p, x) =~= a + seq![x] + b);
    Seq::filter_distributes_over_add(a, b, f);
    Seq::filter_distributes_over_add(a + seq![x], b, f);
    Seq::filter_distributes_over_add(a, seq![x], f);
    assert(seq![x] =~= Seq::<Seq<char>>::empty().push(x));
    Seq::<Seq<char>>::empty().lemma_filter_push(x, f);
    lemma_filter_none(Seq::<Seq<char>>::empty(), f);
    if lowercase(x) == k {
        assert forall|q: int| 0 <= q < b.len() implies !f(#[trigger] b[q]) by {
            assert(b[q] == old[p + q]);
            lemma_text_lt_irreflexive(k);
        }
        lemma_filter_none(b, f);
        assert(a.filter(f) + seq![x] + Seq::<Seq<char>>::empty() =~= (a.filter(f) + b.filter(f)).push(x));
    } else {
        assert(a.filter(f) + Seq::<Seq<char>>::empty() + b.filter(f) =~= a.filter(f) + b.filter(f));
    }
}

/// Sorts names by their lower case, keeping the order of names whose lower
/// case is the same.
pub fn sort_by_lowercase(names: Vec<String>) -> (r: Vec<String>)
    ensures
        views(r@).to_multiset() == views(names@).to_multiset(),
        sorted_by_lowercase(views(r@)),
        forall|k: Seq<char>|
            #[trigger] views(r@).filter(lower_is(k)) == views(names@).filter(lower_is(k)),
        ascii_lower_known(views(r@)),
{
    let mut res: Vec<String> = Vec::new();
    let mut keys: Vec<String> = Vec::new();
    let mut i: usize = 0;
    while i < names.len()
        invariant
            i <= names.len(),
            keys.len() == res.len(),
            forall|q: int| 0 <= q < res.len() ==> #[trigger] keys@[q]@ == lowercase(res@[q]@),
            ascii_lower_known(views(res@)),
            views(res@).to_multiset() == views(names@.take(i as int)).to_multiset(),
            sorted_by_lowercase(views(res@)),
            forall|k: Seq<char>|
                #[trigger] views(res@).filter(lower_is(k)) == views(names@.take(i as int)).filter(
                    lower_is(k),
                ),
        decreases names.len() - i,
    {
        let x = names[i].clone();
        let kx = lower_case(x.as_str());
        let mut p: usize = res.len();
        while p > 0 && compare_text(keys[p - 1].as_str(), kx.as_str()) == Order::Greater
            invariant
                p <= res.len(),
                keys.len() == res.len(),
                forall|q: int| 0 <= q < res.len() ==> #[trigger] keys@[q]@ == lowercase(res@[q]@),
                kx@ == lowercase(x@),
                forall|q: int| p <= q < res.len() ==> text_lt(kx@, lowercase(#[trigger] res@[q]@)),
            decreases p,
        {
            proof {
                crate::text::lemma_text_lt_total(keys@[p - 1]@, kx@);
            }
            p = p - 1;
        }
        let ghost old_res = views(res@);
        proof {
            if p > 0 {
                assert(keys@[p - 1]@ == lowercase(res@[p - 1]@));
                assert(old_res[p - 1] == res@[p - 1]@);
                lemma_text_lt_irreflexive(kx@);
                if text_lt(kx@, keys@[p - 1]@) {
                    crate::text::lemma_text_lt_asymmetric(kx@, keys@[p - 1]@);
                }
            }
        }
        res.insert(p, x);
        keys.insert(p, kx);
        proof {
            let nv = views(res@);
            assert(nv =~= old_res.insert(p as int, x@));
            assert forall|q: int|
                0 <= q < nv.len() && is_ascii_text(#[trigger] nv[q]) implies lowercase(nv[q])
                == ascii_lowered(nv[q]) by {
                if q < p {
                    assert(nv[q] == old_res[q]);
                } else if q > p {
                    assert(nv[q] == old_res[q - 1]);
                }
            }
            assert forall|q: int| 0 <= q < res.len() implies #[trigger] keys@[q]@ == lowercase(res@[q]@) by {
                if q < p {
                } else if q == p {
                } else {
                }
            }
            assert(sorted_by_lowercase(nv)) by {
                assert forall|a: int, b: int| 0 <= a < b < nv.len() implies !text_lt(
                    lowercase(#[trigger] nv[b]),
                    lowercase(#[trigger] nv[a]),
                ) by {
                    if b < p {
                    } else if a < p && b == p {
                        let lp = lowercase(old_res[p - 1]);
                        assert(!text_lt(lowercase(x@), lp));
                        if a < p - 1 {
                            assert(!text_lt(lp, lowercase(old_res[a])));
                            crate::text::lemma_text_le_transitive(lowercase(old_res[a]), lp, lowercase(x@));
                        }
                    } else if a < p {
                        assert(nv[b] == old_res[b - 1]);
                    } else if a == p {
                        assert(nv[b] == old_res[b - 1]);
                        assert(text_lt(lowercase(x@), lowercase(old_res[b - 1])));
                        if text_lt(lowercase(old_res[b - 1]), lowercase(x@)) {
                            lemma_text_lt_transitive(lowercase(x@), lowercase(old_res[b - 1]), lowercase(x@));
                            lemma_text_lt_irreflexive(lowercase(x@));
                        }
                    } else {
                        assert(nv[a] == old_res[a - 1]);
                        assert(nv[b] == old_res[b - 1]);
                    }
                }
            }
            assert(views(names@.take(i + 1)) =~= views(names@.take(i as int)).push(x@));
            assert forall|k: Seq<char>|
                #[trigger] nv.filter(lower_is(k)) == views(names@.take(i + 1)).filter(lower_is(k)) by {
                assert forall|q: int| p <= q < old_res.len() implies text_lt(
                    lowercase(x@),
                    lowercase(#[trigger] old_res[q]),
                ) by {
                    assert(old_res[q] == res@[q + 1]@);
                }
                lemma_filter_insert_sorted(old_res, p as int, x@, k);
                views(names@.take(i as int)).lemma_filter_push(x@, lower_is(k));
            }
        }
        i = i + 1;
    }
    assert(names@.take(names.len() as int) =~= names@);
    res
}

/// An entry of a folder as read from disk.
pub struct ListedEntry {
    pub name: String,
    pub kind: EntryKind,
}

/// The names of the entries of one kind, in the order read.
pub open spec fn names_of_kind(e: Seq<ListedEntry>, k: EntryKind) -> Seq<Seq<char>>
    decreases e.len(),
{
    if e.len() == 0 {
        Seq::empty()
    } else {
        let rest = names_of_kind(e.drop_last(), k);
        if e.last().kind == k {
            rest.push(e.last().name@)
        } else {
            rest
        }
    }
}

/// A folder's entries sorted for the tree: sub-folders and files, each by
/// lower case, and the node count with both added.
pub struct Listing {
    pub dirs: Vec<String>,
    pub files: Vec<String>,
    pub node_count: usize,
}

/// Sorts a folder's entries for the tree; entries that are neither files
/// nor folders are left out and not counted.
pub fn classify_entries(entries: Vec<ListedEntry>, node_count: usize) -> (r: Listing)
    requires
        node_count + entries.len() <= usize::MAX,
    ensures
        views(r.dirs@).to_multiset() == names_of_kind(entries@, EntryKind::Dir).to_multiset(),
        views(r.files@).to_multiset() == names_of_kind(entries@, EntryKind::File).to_multiset(),
        sorted_by_lowercase(views(r.dirs@)),
        sorted_by_lowercase(views(r.files@)),
        ascii_lower_known(views(r.dirs@)),
        ascii_lower_known(views(r.files@)),
        forall|k: Seq<char>|
            #[trigger] views(r.dirs@).filter(lower_is(k)) == names_of_kind(entries@, EntryKind::Dir).filter(
                lower_is(k),
            ),
        forall|k: Seq<char>|
            #[trigger] views(r.files@).filter(lower_is(k)) == names_of_kind(entries@, EntryKind::File).filter(
                lower_is(k),
            ),
        r.node_count == node_count + names_of_kind(entries@, EntryKind::Dir).len()
            + names_of_kind(entries@, EntryKind::File).len(),
{
    let mut dirs: Vec<String> = Vec::new();
    let mut files: Vec<String> = Vec::new();
    let mut count = node_count;
    let n = entries.len();
    let mut rest = entries;
    let ghost all = rest@;
    let mut i: usize = 0;
    while i < n
        invariant
            n == all.len(),
            i <= n,
            rest@ == all.skip(i as int),
            node_count + n <= usize::MAX,
            views(dirs@) == names_of_kind(all.take(i as int), EntryKind::Dir),
            views(files@) == names_of_kind(all.take(i as int), EntryKind::File),
            count == node_count + dirs.len() + files.len(),
            dirs.len() + files.len() <= i,
        decreases n - i,
    {
        let e = rest.remove(0);
        assert(e == all[i as int]);
        assert(rest@ =~= all.skip(i + 1));
        let ghost t = all.take(i + 1);
        assert(t.drop_last() =~= all.take(i as int));
        assert(t.last() == e);
        match e.kind {
            EntryKind::Dir => {
                dirs.push(e.name);
                count = count + 1;
                assert(views(dirs@) =~= names_of_kind(t, EntryKind::Dir));
                assert(views(files@) =~= names_of_kind(t, EntryKind::File));
            },
            EntryKind::File => {
                files.push(e.name);
                count = count + 1;
                assert(views(dirs@) =~= names_of_kind(t, EntryKind::Dir));
                assert(views(files@) =~= names_of_kind(t, EntryKind::File));
            },
            EntryKind::Other => {
                assert(views(dirs@) =~= names_of_kind(t, EntryKind::Dir));
                assert(views(files@) =~= names_of_kind(t, EntryKind::File));
            },
        }
        i = i + 1;
    }
    assert(all.take(n as int) =~= all);
    Listing { dirs: sort_by_lowercase(dirs), files: sort_by_lowercase(files), node_count: count }
}

/// A folder's nodes: its sub-folders first, then its files.
pub fn assemble_nodes(dir_nodes: Vec<FileTreeNode>, files: Vec<String>) -> (r: Vec<FileTreeNode>)
    ensures
        r.len() == dir_nodes.len() + files.len(),
        forall|i: int| 0 <= i < dir_nodes.len() ==> #[trigger] r@[i] == dir_nodes@[i],
        forall|j: int|
            0 <= j < files.len() ==> #[trigger] r@[dir_nodes.len() + j] == FileTreeNode::File(
                files@[j],
            ),
{
    let mut r = dir_nodes;
    let ghost d = r@;
    let mut rest = files;
    let ghost f = rest@;
    let n = rest.len();
    let mut j: usize = 0;
    while j < n
        invariant
            n == f.len(),
            j <= n,
            rest@ == f.skip(j as int),
            r.len() == d.len() + j,
            forall|i: int| 0 <= i < d.len() ==> #[trigger] r@[i] == d[i],
            forall|k: int| 0 <= k < j ==> #[trigger] r@[d.len() + k] == FileTreeNode::File(f[k]),
        decreases n - j,
    {
        let name = rest.remove(0);
        assert(name == f[j as int]);
        assert(rest@ =~= f.skip(j + 1));
        r.push(FileTreeNode::File(name));
        j = j + 1;
    }
    r
}

/// The name a node is shown with.
pub open spec fn node_name(n: FileTreeNode) -> Seq<char> {
    match n {
        FileTreeNode::File(name) => name@,
        FileTreeNode::Dir(name, _) => name@,
    }
}

/// The names of a run of nodes.
pub open spec fn node_names(nodes: Seq<FileTreeNode>) -> Seq<Seq<char>> {
    nodes.map_values(|n: FileTreeNode| node_name(n))
}

/// `shown` is `listed` in the order the tree shows names: ascending by
/// lower case, names of equal lower case in the order listed.
pub open spec fn shown_order(shown: Seq<Seq<char>>, listed: Seq<Seq<char>>) -> bool {
    &&& shown.to_multiset() == listed.to_multiset()
    &&& sorted_by_lowercase(shown)
    &&& forall|k: Seq<char>| #[trigger] shown.filter(lower_is(k)) == listed.filter(lower_is(k))
    &&& ascii_lower_known(shown)
}

/// The files and folders of a listing: what it adds to the node count.
pub open spec fn counted_entries(e: Seq<ListedEntry>) -> int {
    (names_of_kind(e, EntryKind::Dir).len() + names_of_kind(e, EntryKind::File).len()) as int
}

/// Reading the folder at `path` gives `nodes`, where `log` holds the
/// listings that reading takes in the order they are taken (the folder's
/// own first, then those of its sub-folders, depth first) with the path each
/// was asked for, `c_in` entries were counted before and `c_out` after.
/// The folder's nodes are its listed folders then its listed files, each in
/// the order shown. Each listed folder is reached with the count as it
/// stands then (`counts`): at or past the node limit it is left lazy; below
/// it, it is read in turn (its listings are those between `cuts`), and is
/// empty when its listing has no files or folders.
pub open spec fn folder_read(
    nodes: Seq<FileTreeNode>,
    path: Seq<char>,
    log: Seq<(Seq<char>, Seq<ListedEntry>)>,
    c_in: int,
    c_out: int,
) -> bool
    decreases nodes,
{
    let e = log[0].1;
    let nd = names_of_kind(e, EntryKind::Dir).len() as int;
    &&& log.len() > 0
    &&& log[0].0 == path
    &&& nodes.len() == counted_entries(e)
    &&& shown_order(node_names(nodes.take(nd)), names_of_kind(e, EntryKind::Dir))
    &&& shown_order(node_names(nodes.skip(nd)), names_of_kind(e, EntryKind::File))
    &&& forall|i: int| nd <= i < nodes.len() ==> #[trigger] nodes[i] is File
    &&& exists|cuts: Seq<int>, counts: Seq<int>|
        #![trigger cuts.len(), counts.len()]
        {
            &&& cuts.len() == nd + 1
            &&& counts.len() == nd + 1
            &&& cuts[0] == 1
            &&& cuts[nd] == log.len()
            &&& counts[0] == c_in + counted_entries(e)
            &&& counts[nd] == c_out
            &&& forall|i: int|
                0 <= i < nd ==> cuts[i] <= cuts[i + 1] && match #[trigger] nodes[i] {
                    FileTreeNode::Dir(name, d) => match d {
                        DirData::Lazy => counts[i] >= lazy_threshold() && cuts[i + 1] == cuts[i]
                            && counts[i + 1] == counts[i],
                        DirData::Empty => counts[i] < lazy_threshold() && cuts[i + 1] == cuts[i]
                            + 1 && log[cuts[i]].0 == joined_path(path, name@) && counted_entries(
                            log[cuts[i]].1,
                        ) == 0 && counts[i + 1] == counts[i],
                        DirData::Loaded(c) => counts[i] < lazy_threshold() && c.len() > 0
                            && folder_read(
                            c@,
                            joined_path(path, name@),
                            log.subrange(cuts[i], cuts[i + 1]),
                            counts[i],
                            counts[i + 1],
                        ),
                    },
                    FileTreeNode::File(_) => false,
                }
        }
}

/// The node of a done sub-folder named `name` of the folder at `path`: its
/// listings are `log[a..b]`, the count was `ca` when it was reached and
/// `cb` after it.
spec fn child_ok(
    n: FileTreeNode,
    name: Seq<char>,
    path: Seq<char>,
    log: Seq<(Seq<char>, Seq<ListedEntry>)>,
    a: int,
    b: int,
    ca: int,
    cb: int,
) -> bool {
    &&& 0 <= a <= b <= log.len()
    &&& match n {
        FileTreeNode::Dir(nm, d) => nm@ == name && match d {
            DirData::Lazy => ca >= lazy_threshold() && b == a && cb == ca,
            DirData::Empty => ca < lazy_threshold() && b == a + 1 && log[a].0 == joined_path(
                path,
                name,
            ) && counted_entries(log[a].1) == 0 && cb == ca,
            DirData::Loaded(c) => ca < lazy_threshold() && c.len() > 0 && folder_read(
                c@,
                joined_path(path, name),
                log.subrange(a, b),
                ca,
                cb,
            ),
        },
        FileTreeNode::File(_) => false,
    }
}

/// A read folder whose sub-folders are being gone through: where it is
/// (relative to the folder the walk started in), its sorted sub-folders and
/// files, the nodes of the sub-folders done so far, and where its listing
/// and those of its done sub-folders stand in the log, with the counts.
struct Frame {
    path: String,
    dirs: Vec<String>,
    files: Vec<String>,
    done: Vec<FileTreeNode>,
    start: Ghost<int>,
    c_in: Ghost<int>,
    cuts: Ghost<Seq<int>>,
    counts: Ghost<Seq<int>>,
}

spec fn frame_ok(f: Frame, log: Seq<(Seq<char>, Seq<ListedEntry>)>) -> bool {
    let e = log[f.start@].1;
    &&& 0 <= f.start@ < log.len()
    &&& log[f.start@].0 == f.path@
    &&& shown_order(views(f.dirs@), names_of_kind(e, EntryKind::Dir))
    &&& shown_order(views(f.files@), names_of_kind(e, EntryKind::File))
    &&& f.done.len() <= f.dirs.len()
    &&& f.cuts@.len() == f.done.len() + 1
    &&& f.counts@.len() == f.done.len() + 1
    &&& f.cuts@[0] == f.start@ + 1
    &&& f.counts@[0] == f.c_in@ + counted_entries(e)
    &&& f.cuts@[f.done.len() as int] <= log.len()
    &&& forall|i: int|
        0 <= i < f.done.len() ==> child_ok(
            #[trigger] f.done@[i],
            f.dirs@[i]@,
            f.path@,
            log,
            f.cuts@[i],
            f.cuts@[i + 1],
            f.counts@[i],
            f.counts@[i + 1],
        )
}

/// Frame `g` reads the next sub-folder of frame `f`.
spec fn frames_linked(f: Frame, g: Frame) -> bool {
    &&& f.done.len() < f.dirs.len()
    &&& g.start@ == f.cuts@[f.done.len() as int]
    &&& g.c_in@ == f.counts@[f.done.len() as int]
    &&& f.counts@[f.done.len() as int] < lazy_threshold()
    &&& g.path@ == joined_path(f.path@, f.dirs@[f.done.len() as int]@)
}

/// The frames of a walk: the outermost is the folder the walk started in,
/// and each next one reads the next sub-folder of the one before.
spec fn frames_shape(frames: Seq<Frame>, log: Seq<(Seq<char>, Seq<ListedEntry>)>) -> bool {
    &&& forall|k: int| 0 <= k < frames.len() ==> frame_ok(#[trigger] frames[k], log)
    &&& forall|k: int| 0 <= k < frames.len() - 1 ==> frames_linked(#[trigger] frames[k], frames[k + 1])
    &&& frames.len() > 0 ==> {
        &&& frames[0].start@ == 0
        &&& frames[0].c_in@ == 0
        &&& frames[0].path@ == Seq::<char>::empty()
    }
}

/// The frames of a walk, the innermost having taken every listing since its
/// own and counted everything counted so far.
spec fn frames_ok(frames: Seq<Frame>, log: Seq<(Seq<char>, Seq<ListedEntry>)>, count: int) -> bool {
    &&& frames_shape(frames, log)
    &&& frames.len() > 0 ==> {
        &&& frames.last().cuts@.last() == log.len()
        &&& frames.last().counts@.last() == count
    }
}

/// What is left to do in the frames: their sub-folders not yet done, and
/// the frames themselves.
spec fn work_left(frames: Seq<Frame>) -> nat
    decreases frames.len(),
{
    if frames.len() == 0 {
        0
    } else {
        work_left(frames.drop_last()) + (frames.last().dirs.len() - frames.last().done.len()) as nat
            + 1
    }
}

/// `p` is a folder listed in one of the listings taken: the path of that
/// listing's folder joined with one of its listed folders.
pub open spec fn asks_listed_folder(log: Seq<(Seq<char>, Seq<ListedEntry>)>, p: Seq<char>) -> bool {
    exists|k: int, j: int|
        0 <= k < log.len() && 0 <= j < names_of_kind(log[k].1, EntryKind::Dir).len() && p
            == joined_path(log[k].0, #[trigger] names_of_kind(log[k].1, EntryKind::Dir)[j])
}

/// What the walk asks for next.
pub enum WalkAction {
    /// List the entries of this folder, given relative to the folder the
    /// walk started in, and hand them to `TreeWalk::received`.
    List(String),
    /// The nodes of the folder the walk started in.
    Done(Vec<FileTreeNode>),
}

/// The reading of a folder into tree nodes, one listing at a time: each
/// listed folder's entries are sorted, sub-folders first; a sub-folder is
/// read in turn while fewer than the node limit of entries were counted,
/// else it is left to be read when opened.
pub struct TreeWalk {
    frames: Vec<Frame>,
    asked: String,
    node_count: usize,
    finished: bool,
    log: Ghost<Seq<(Seq<char>, Seq<ListedEntry>)>>,
}

impl TreeWalk {
    /// The walk is consistent.
    pub closed spec fn wf(&self) -> bool {
        &&& frames_ok(self.frames@, self.log@, self.node_count as int)
        &&& self.finished ==> self.frames.len() == 0
        &&& self.log@.len() <= self.node_count + 1
        &&& !self.finished && self.frames.len() == 0 ==> self.log@.len() == 0 && self.node_count
            == 0 && self.asked@ == Seq::<char>::empty()
        &&& !self.finished && self.frames.len() > 0 ==> {
            &&& self.frames@.last().done.len() < self.frames@.last().dirs.len()
            &&& self.node_count < lazy_threshold()
            &&& self.asked@ == joined_path(
                self.frames@.last().path@,
                self.frames@.last().dirs@[self.frames@.last().done.len() as int]@,
            )
            &&& self.log@.len() + work_left(self.frames@) <= self.node_count + 2
                * self.frames.len()
        }
    }

    /// The walk waits for a listing.
    pub closed spec fn is_walking(&self) -> bool {
        !self.finished
    }

    /// The folder whose listing the walk waits for.
    pub closed spec fn asked(&self) -> Seq<char> {
        self.asked@
    }

    /// The listings taken so far, with the folder each was asked for.
    pub closed spec fn listings(&self) -> Seq<(Seq<char>, Seq<ListedEntry>)> {
        self.log@
    }

    /// The entries counted so far (files and folders of the folders read).
    pub closed spec fn counted(&self) -> nat {
        self.node_count as nat
    }

    /// A walk from a folder: first its own entries are listed.
    pub fn start() -> (r: (TreeWalk, WalkAction))
        ensures
            r.0.wf(),
            r.0.is_walking(),
            r.0.counted() == 0,
            r.0.listings() == Seq::<(Seq<char>, Seq<ListedEntry>)>::empty(),
            r.1 matches WalkAction::List(p) && p@ == Seq::<char>::empty() && r.0.asked() == p@,
    {
        (
            TreeWalk {
                frames: Vec::new(),
                asked: String::new(),
                node_count: 0,
                finished: false,
                log: Ghost(Seq::empty()),
            },
            WalkAction::List(String::new()),
        )
    }

    /// The entries counted so far.
    pub fn node_count(&self) -> (r: usize)
        ensures
            r == self.counted(),
    {
        self.node_count
    }

    /// Takes the listing of the folder last asked for, and says what to do
    /// next. Once the walk is done, its nodes are exactly what reading the
    /// starting folder gives from the listings taken (`folder_read`). A
    /// listing is only asked for while fewer than the node limit of entries
    /// were counted, and there are never more listings than one plus the
    /// entries counted, so a walk takes at most as many listings as the limit.
    pub fn received(&mut self, entries: Vec<ListedEntry>) -> (r: WalkAction)
        requires
            old(self).wf(),
            old(self).is_walking(),
            old(self).counted() + entries.len() <= usize::MAX,
        ensures
            final(self).wf(),
            final(self).listings() == old(self).listings().push((old(self).asked(), entries@)),
            final(self).counted() == old(self).counted() + counted_entries(entries@),
            final(self).listings().len() <= final(self).counted() + 1,
            match r {
                WalkAction::List(p) => final(self).is_walking() && final(self).asked() == p@
                    && final(self).counted() < lazy_threshold() && asks_listed_folder(
                    final(self).listings(),
                    p@,
                ),
                WalkAction::Done(nodes) => !final(self).is_walking() && folder_read(
                    nodes@,
                    Seq::<char>::empty(),
                    final(self).listings(),
                    0,
                    final(self).counted() as int,
                ),
            },
    {
        let ghost old_log = self.log@;
        let ghost e = entries@;
        let ghost c_in = self.node_count as int;
        let ghost old_frames = self.frames@;
        let listing = classify_entries(entries, self.node_count);
        self.node_count = listing.node_count;
        let path = self.asked.clone();
        proof {
            self.log@ = old_log.push((path@, e));
            lemma_frames_append(old_frames, old_log, (path@, e));
        }
        let ghost start = old_log.len() as int;
        let frame = Frame {
            path,
            dirs: listing.dirs,
            files: listing.files,
            done: Vec::new(),
            start: Ghost(start),
            c_in: Ghost(c_in),
            cuts: Ghost(Seq::<int>::empty().push(start + 1)),
            counts: Ghost(Seq::<int>::empty().push(self.node_count as int)),
        };
        self.frames.push(frame);
        proof {
            let fr = self.frames@;
            assert(fr.drop_last() =~= old_frames);
            assert(fr.last() == frame);
            assert(frame_ok(frame, self.log@));
            assert forall|k: int| 0 <= k < fr.len() implies frame_ok(#[trigger] fr[k], self.log@) by {
                if k < fr.len() - 1 {
                    assert(fr[k] == old_frames[k]);
                }
            }
            assert forall|k: int| 0 <= k < fr.len() - 1 implies frames_linked(
                #[trigger] fr[k],
                fr[k + 1],
            ) by {
                assert(fr[k] == old_frames[k]);
                if k < fr.len() - 2 {
                    assert(fr[k + 1] == old_frames[k + 1]);
                }
            }
            assert(frames_ok(fr, self.log@, self.node_count as int));
            assert(views(frame.dirs@).to_multiset().len() == views(frame.dirs@).len());
            assert(names_of_kind(e, EntryKind::Dir).to_multiset().len() == names_of_kind(
                e,
                EntryKind::Dir,
            ).len());
            assert(work_left(fr) == work_left(old_frames) + frame.dirs.len() + 1);
        }
        self.advance()
    }

    fn advance(&mut self) -> (r: WalkAction)
        requires
            frames_ok(old(self).frames@, old(self).log@, old(self).node_count as int),
            !old(self).finished,
            old(self).frames.len() > 0,
            old(self).log@.len() + work_left(old(self).frames@) <= old(self).node_count + 2
                * old(self).frames.len(),
        ensures
            final(self).wf(),
            final(self).node_count == old(self).node_count,
            final(self).log@ == old(self).log@,
            match r {
                WalkAction::List(p) => !final(self).finished && final(self).asked@ == p@
                    && final(self).node_count < lazy_threshold() && asks_listed_folder(
                    final(self).log@,
                    p@,
                ),
                WalkAction::Done(nodes) => final(self).finished && folder_read(
                    nodes@,
                    Seq::<char>::empty(),
                    final(self).log@,
                    0,
                    final(self).node_count as int,
                ),
            },
    {
        loop
            invariant
                frames_ok(self.frames@, self.log@, self.node_count as int),
                !self.finished,
                self.frames.len() > 0,
                self.node_count == old(self).node_count,
                self.log@ == old(self).log@,
                self.log@.len() + work_left(self.frames@) <= self.node_count + 2
                    * self.frames.len(),
            decreases work_left(self.frames@),
        {
            let ghost before = self.frames@;
            let ghost log = self.log@;
            let ghost count = self.node_count as int;
            let mut top = self.frames.pop().unwrap();
            proof {
                assert(before.drop_last() =~= self.frames@);
                assert(frame_ok(before[before.len() - 1], log));
                assert(work_left(before) == work_left(self.frames@) + (top.dirs.len()
                    - top.done.len()) as nat + 1);
            }
            if top.done.len() < top.dirs.len() {
                let name = top.dirs[top.done.len()].clone();
                if is_lazy_dir(self.node_count) {
                    let ghost od = top.done@;
                    let ghost oc = top.cuts@;
                    let ghost on = top.counts@;
                    top.done.push(FileTreeNode::Dir(name, DirData::Lazy));
                    proof {
                        top.cuts@ = oc.push(log.len() as int);
                        top.counts@ = on.push(count);
                        assert forall|i: int| 0 <= i < top.done.len() implies child_ok(
                            #[trigger] top.done@[i],
                            top.dirs@[i]@,
                            top.path@,
                            log,
                            top.cuts@[i],
                            top.cuts@[i + 1],
                            top.counts@[i],
                            top.counts@[i + 1],
                        ) by {
                            if i < od.len() {
                                assert(top.done@[i] == od[i]);
                            }
                        }
                        assert(frame_ok(top, log));
                    }
                    self.frames.push(top);
                    proof {
                        lemma_frames_with_last(before.drop_last(), before.last(), top, log, count);
                        assert(before.drop_last().push(before.last()) =~= before);
                        assert(before.drop_last().push(top) =~= self.frames@);
                        assert(self.frames@.drop_last() =~= before.drop_last());
                        assert(work_left(self.frames@) < work_left(before));
                    }
                } else {
                    let p = join_path(top.path.as_str(), name.as_str());
                    self.frames.push(top);
                    proof {
                        assert(self.frames@ =~= before);
                    }
                    self.asked = p.clone();
                    proof {
                        lemma_work_left_lower(self.frames@);
                        let t = self.frames@.last();
                        let k = t.start@;
                        let e = log[k].1;
                        let nm = t.dirs@[t.done.len() as int]@;
                        assert(views(t.dirs@)[t.done.len() as int] == nm);
                        assert(views(t.dirs@).contains(nm));
                        assert(views(t.dirs@).to_multiset().count(nm) > 0);
                        assert(names_of_kind(e, EntryKind::Dir).to_multiset().count(nm) > 0);
                        assert(names_of_kind(e, EntryKind::Dir).contains(nm));
                        let j = choose|j: int|
                            0 <= j < names_of_kind(e, EntryKind::Dir).len() && names_of_kind(
                                e,
                                EntryKind::Dir,
                            )[j] == nm;
                        assert(p@ == joined_path(log[k].0, names_of_kind(log[k].1, EntryKind::Dir)[j]));
                    }
                    return WalkAction::List(p);
                }
            } else {
                let ghost t = top;
                let nodes = assemble_nodes(top.done, top.files);
                proof {
                    lemma_folder_complete(nodes@, t, log);
                }
                if self.frames.len() == 0 {
                    proof {
                        assert(t.start@ == 0 && t.c_in@ == 0 && t.path@ == Seq::<char>::empty());
                        assert(log.subrange(0, log.len() as int) =~= log);
                    }
                    self.finished = true;
                    return WalkAction::Done(nodes);
                }
                let ghost mid = self.frames@;
                let mut parent = self.frames.pop().unwrap();
                proof {
                    assert(mid.drop_last() =~= self.frames@);
                    assert(before[mid.len() - 1] == parent);
                    assert(before[mid.len() as int] == t);
                    assert(frame_ok(parent, log));
                    assert(frames_linked(parent, t));
                }
                let name = parent.dirs[parent.done.len()].clone();
                let ghost od = parent.done@;
                let ghost oc = parent.cuts@;
                let ghost on = parent.counts@;
                let ghost nv = nodes@;
                let ghost pname = parent.dirs@[od.len() as int]@;
                let node = dir_node(name, nodes);
                proof {
                    lemma_child_complete(node, nv, t, pname, parent.path@, log, count);
                }
                parent.done.push(node);
                proof {
                    parent.cuts@ = oc.push(log.len() as int);
                    parent.counts@ = on.push(count);
                    assert forall|i: int| 0 <= i < parent.done.len() implies child_ok(
                        #[trigger] parent.done@[i],
                        parent.dirs@[i]@,
                        parent.path@,
                        log,
                        parent.cuts@[i],
                        parent.cuts@[i + 1],
                        parent.counts@[i],
                        parent.counts@[i + 1],
                    ) by {
                        if i < od.len() {
                            assert(parent.done@[i] == od[i]);
                        }
                    }
                    assert(frame_ok(parent, log));
                }
                self.frames.push(parent);
                proof {
                    lemma_shape_prefix(before, log);
                    assert(before.drop_last() =~= mid);
                    assert(mid.drop_last().push(mid.last()) =~= mid);
                    lemma_frames_with_last(mid.drop_last(), mid.last(), parent, log, count);
                    assert(mid.drop_last().push(parent) =~= self.frames@);
                    assert(self.frames@.drop_last() =~= mid.drop_last());
                    assert(before.drop_last() =~= mid);
                    assert(work_left(mid) == work_left(mid.drop_last()) + (mid.last().dirs.len()
                        - mid.last().done.len()) as nat + 1);
                    assert(work_left(self.frames@) < work_left(before));
                }
            }
        }
    }
}

/// Taking a listing keeps every frame's facts about the listings before.
proof fn lemma_frames_append(
    frames: Seq<Frame>,
    log: Seq<(Seq<char>, Seq<ListedEntry>)>,
    x: (Seq<char>, Seq<ListedEntry>),
)
    requires
        forall|k: int| 0 <= k < frames.len() ==> frame_ok(#[trigger] frames[k], log),
    ensures
        forall|k: int| 0 <= k < frames.len() ==> frame_ok(#[trigger] frames[k], log.push(x)),
{
    let nl = log.push(x);
    assert forall|k: int| 0 <= k < frames.len() implies frame_ok(#[trigger] frames[k], nl) by {
        let f = frames[k];
        assert(frame_ok(f, log));
        assert(nl[f.start@] == log[f.start@]);
        assert forall|i: int| 0 <= i < f.done.len() implies child_ok(
            #[trigger] f.done@[i],
            f.dirs@[i]@,
            f.path@,
            nl,
            f.cuts@[i],
            f.cuts@[i + 1],
            f.counts@[i],
            f.counts@[i + 1],
        ) by {
            let a = f.cuts@[i];
            let b = f.cuts@[i + 1];
            assert(child_ok(f.done@[i], f.dirs@[i]@, f.path@, log, a, b, f.counts@[i], f.counts@[i + 1]));
            assert(nl.subrange(a, b) =~= log.subrange(a, b));
            if a < log.len() {
                assert(nl[a] == log[a]);
            }
        }
    }
}

/// The frames stay a walk's frames when every frame before the innermost
/// stays a prefix of the frames of a walk.
proof fn lemma_shape_prefix(frames: Seq<Frame>, log: Seq<(Seq<char>, Seq<ListedEntry>)>)
    requires
        frames_shape(frames, log),
        frames.len() > 0,
    ensures
        frames_shape(frames.drop_last(), log),
{
    let p = frames.drop_last();
    assert forall|k: int| 0 <= k < p.len() implies frame_ok(#[trigger] p[k], log) by {
        assert(p[k] == frames[k]);
    }
    assert forall|k: int| 0 <= k < p.len() - 1 implies frames_linked(#[trigger] p[k], p[k + 1]) by {
        assert(p[k] == frames[k]);
        assert(p[k + 1] == frames[k + 1]);
    }
}

/// Replacing the innermost frame by one for the same folder, which has
/// taken every listing and counted everything, keeps the frames a walk's.
proof fn lemma_frames_with_last(
    pre: Seq<Frame>,
    old_last: Frame,
    new_last: Frame,
    log: Seq<(Seq<char>, Seq<ListedEntry>)>,
    count: int,
)
    requires
        frames_shape(pre.push(old_last), log),
        frame_ok(new_last, log),
        new_last.start@ == old_last.start@,
        new_last.c_in@ == old_last.c_in@,
        new_last.path@ == old_last.path@,
        new_last.cuts@.last() == log.len(),
        new_last.counts@.last() == count,
    ensures
        frames_ok(pre.push(new_last), log, count),
{
    let o = pre.push(old_last);
    let n = pre.push(new_last);
    assert forall|k: int| 0 <= k < n.len() implies frame_ok(#[trigger] n[k], log) by {
        if k < pre.len() {
            assert(n[k] == o[k]);
        }
    }
    assert forall|k: int| 0 <= k < n.len() - 1 implies frames_linked(#[trigger] n[k], n[k + 1]) by {
        assert(n[k] == o[k]);
        assert(frames_linked(o[k], o[k + 1]));
        if k + 1 < pre.len() {
            assert(n[k + 1] == o[k + 1]);
        }
    }
    if pre.len() == 0 {
        assert(n[0] == new_last);
        assert(o[0] == old_last);
    } else {
        assert(n[0] == o[0]);
    }
    assert(n.last() == new_last);
}

/// A frame whose sub-folders are all done, with its nodes assembled: they
/// are what reading its folder gives.
proof fn lemma_folder_complete(
    nodes: Seq<FileTreeNode>,
    t: Frame,
    log: Seq<(Seq<char>, Seq<ListedEntry>)>,
)
    requires
        frame_ok(t, log),
        t.done.len() == t.dirs.len(),
        t.cuts@.last() == log.len(),
        nodes.len() == t.done.len() + t.files.len(),
        forall|i: int| 0 <= i < t.done.len() ==> #[trigger] nodes[i] == t.done@[i],
        forall|j: int|
            0 <= j < t.files.len() ==> #[trigger] nodes[t.done.len() + j] == FileTreeNode::File(
                t.files@[j],
            ),
    ensures
        folder_read(nodes, t.path@, log.subrange(t.start@, log.len() as int), t.c_in@, t.counts@.last()),
{
    let st = t.start@;
    let l = log.subrange(st, log.len() as int);
    let e = log[st].1;
    assert(l[0] == log[st]);
    let dirs = t.dirs@;
    let files = t.files@;
    let done = t.done@;
    assert(views(dirs).to_multiset().len() == views(dirs).len());
    assert(names_of_kind(e, EntryKind::Dir).to_multiset().len() == names_of_kind(e, EntryKind::Dir).len());
    assert(views(files).to_multiset().len() == views(files).len());
    assert(names_of_kind(e, EntryKind::File).to_multiset().len() == names_of_kind(e, EntryKind::File).len());
    let nd = dirs.len() as int;
    assert(nd == names_of_kind(e, EntryKind::Dir).len());
    assert(files.len() == names_of_kind(e, EntryKind::File).len());
    assert(node_names(nodes.take(nd)) =~= views(dirs)) by {
        assert forall|i: int| 0 <= i < nd implies #[trigger] node_names(nodes.take(nd))[i]
            == views(dirs)[i] by {
            assert(nodes[i] == done[i]);
            assert(child_ok(done[i], dirs[i]@, t.path@, log, t.cuts@[i], t.cuts@[i + 1], t.counts@[i], t.counts@[i + 1]));
        }
    }
    assert(node_names(nodes.skip(nd)) =~= views(files)) by {
        assert forall|j: int| 0 <= j < files.len() implies #[trigger] node_names(nodes.skip(nd))[j]
            == views(files)[j] by {
            assert(nodes[nd + j] == FileTreeNode::File(files[j]));
        }
    }
    assert forall|i: int| nd <= i < nodes.len() implies #[trigger] nodes[i] is File by {
        assert(nodes[nd + (i - nd)] == FileTreeNode::File(files[i - nd]));
    }
    let cuts = t.cuts@.map_values(|x: int| x - st);
    let counts = t.counts@;
    assert(cuts.len() == nd + 1 && counts.len() == nd + 1);
    assert(cuts[0] == 1);
    assert(cuts[nd] == l.len());
    assert forall|i: int| 0 <= i < nd implies cuts[i] <= cuts[i + 1] && match #[trigger] nodes[i] {
        FileTreeNode::Dir(name, d) => match d {
            DirData::Lazy => counts[i] >= lazy_threshold() && cuts[i + 1] == cuts[i] && counts[i
                + 1] == counts[i],
            DirData::Empty => counts[i] < lazy_threshold() && cuts[i + 1] == cuts[i] + 1
                && l[cuts[i]].0 == joined_path(t.path@, name@) && counted_entries(l[cuts[i]].1) == 0
                && counts[i + 1] == counts[i],
            DirData::Loaded(c) => counts[i] < lazy_threshold() && c.len() > 0 && folder_read(
                c@,
                joined_path(t.path@, name@),
                l.subrange(cuts[i], cuts[i + 1]),
                counts[i],
                counts[i + 1],
            ),
        },
        FileTreeNode::File(_) => false,
    } by {
        let a = t.cuts@[i];
        let b = t.cuts@[i + 1];
        assert(nodes[i] == done[i]);
        assert(child_ok(done[i], dirs[i]@, t.path@, log, a, b, counts[i], counts[i + 1]));
        assert(cuts[i] == a - st && cuts[i + 1] == b - st);
        assert(a >= st + 1) by {
            lemma_cuts_from_start(t, log, i);
        }
        assert(l.subrange(a - st, b - st) =~= log.subrange(a, b));
        if a < log.len() {
            assert(l[a - st] == log[a]);
        }
    }
    assert(folder_read(nodes, t.path@, l, t.c_in@, t.counts@.last()));
}

/// A frame's cuts never fall below the one after its own listing.
proof fn lemma_cuts_from_start(t: Frame, log: Seq<(Seq<char>, Seq<ListedEntry>)>, i: int)
    requires
        frame_ok(t, log),
        0 <= i <= t.done.len(),
    ensures
        t.cuts@[i] >= t.start@ + 1,
    decreases i,
{
    if i > 0 {
        lemma_cuts_from_start(t, log, i - 1);
        assert(child_ok(
            t.done@[i - 1],
            t.dirs@[i - 1]@,
            t.path@,
            log,
            t.cuts@[i - 1],
            t.cuts@[i],
            t.counts@[i - 1],
            t.counts@[i],
        ));
    }
}

/// The node a completed frame gives its parent fits the parent's frame.
proof fn lemma_child_complete(
    node: FileTreeNode,
    nodes: Seq<FileTreeNode>,
    t: Frame,
    name: Seq<char>,
    ppath: Seq<char>,
    log: Seq<(Seq<char>, Seq<ListedEntry>)>,
    count: int,
)
    requires
        frame_ok(t, log),
        t.done.len() == t.dirs.len(),
        t.cuts@.last() == log.len(),
        t.counts@.last() == count,
        t.path@ == joined_path(ppath, name),
        t.c_in@ < lazy_threshold(),
        nodes.len() == t.done.len() + t.files.len(),
        folder_read(nodes, t.path@, log.subrange(t.start@, log.len() as int), t.c_in@, count),
        match node {
            FileTreeNode::Dir(n, d) => n@ == name && match d {
                DirData::Empty => nodes.len() == 0,
                DirData::Loaded(c) => nodes.len() > 0 && c@ == nodes,
                DirData::Lazy => false,
            },
            FileTreeNode::File(_) => false,
        },
    ensures
        child_ok(node, name, ppath, log, t.start@, log.len() as int, t.c_in@, count),
{
    let e = log[t.start@].1;
    assert(views(t.dirs@).to_multiset().len() == views(t.dirs@).len());
    assert(names_of_kind(e, EntryKind::Dir).to_multiset().len() == names_of_kind(e, EntryKind::Dir).len());
    assert(views(t.files@).to_multiset().len() == views(t.files@).len());
    assert(names_of_kind(e, EntryKind::File).to_multiset().len() == names_of_kind(e, EntryKind::File).len());
    if nodes.len() == 0 {
        assert(t.done.len() == 0);
        assert(t.cuts@.last() == t.cuts@[0]);
        assert(t.counts@.last() == t.counts@[0]);
    }
}

/// Frames that all wait for a sub-folder leave at least two steps each.
proof fn lemma_work_left_lower(frames: Seq<Frame>)
    requires
        forall|k: int| 0 <= k < frames.len() - 1 ==> frames_linked(#[trigger] frames[k], frames[k + 1]),
        frames.len() > 0 ==> frames.last().done.len() < frames.last().dirs.len(),
    ensures
        work_left(frames) >= 2 * frames.len(),
    decreases frames.len(),
{
    if frames.len() > 0 {
        let p = frames.drop_last();
        assert forall|k: int| 0 <= k < p.len() - 1 implies frames_linked(#[trigger] p[k], p[k + 1]) by {
            assert(p[k] == frames[k]);
            assert(frames_linked(frames[k], frames[k + 1]));
            assert(p[k + 1] == frames[k + 1]);
        }
        if p.len() > 0 {
            assert(frames_linked(frames[p.len() - 1], frames[p.len() as int]));
            assert(p.last() == frames[p.len() - 1]);
        }
        lemma_work_left_lower(p);
    }
}

/// Names that are ASCII text are shown in case-insensitive character
/// order: `A`-`Z` count as `a`-`z`, and nothing else enters the order.
pub proof fn lemma_ascii_names_case_insensitive(
    shown: Seq<Seq<char>>,
    listed: Seq<Seq<char>>,
    i: int,
    j: int,
)
    requires
        shown_order(shown, listed),
        0 <= i < j < shown.len(),
        is_ascii_text(shown[i]),
        is_ascii_text(shown[j]),
    ensures
        !text_lt(ascii_lowered(shown[j]), ascii_lowered(shown[i])),
{
    assert(lowercase(shown[i]) == ascii_lowered(shown[i]));
    assert(lowercase(shown[j]) == ascii_lowered(shown[j]));
}

/// In a folder the walk read, two of its files, or two of its folders,
/// whose names are ASCII text come in case-insensitive character order.
pub proof fn lemma_tree_level_case_insensitive(
    nodes: Seq<FileTreeNode>,
    path: Seq<char>,
    log: Seq<(Seq<char>, Seq<ListedEntry>)>,
    c_in: int,
    c_out: int,
    i: int,
    j: int,
)
    requires
        folder_read(nodes, path, log, c_in, c_out),
        0 <= i < j < nodes.len(),
        (nodes[i] is File && nodes[j] is File) || (nodes[i] is Dir && nodes[j] is Dir),
        is_ascii_text(node_name(nodes[i])),
        is_ascii_text(node_name(nodes[j])),
    ensures
        !text_lt(ascii_lowered(node_name(nodes[j])), ascii_lowered(node_name(nodes[i]))),
{
    let e = log[0].1;
    let nd = names_of_kind(e, EntryKind::Dir).len() as int;
    let (cuts, counts) = choose|cuts: Seq<int>, counts: Seq<int>|
        #![trigger cuts.len(), counts.len()]
        {
            &&& cuts.len() == nd + 1
            &&& counts.len() == nd + 1
            &&& cuts[0] == 1
            &&& cuts[nd] == log.len()
            &&& counts[0] == c_in + counted_entries(e)
            &&& counts[nd] == c_out
            &&& forall|k: int|
                0 <= k < nd ==> cuts[k] <= cuts[k + 1] && match #[trigger] nodes[k] {
                    FileTreeNode::Dir(name, d) => match d {
                        DirData::Lazy => counts[k] >= lazy_threshold() && cuts[k + 1] == cuts[k]
                            && counts[k + 1] == counts[k],
                        DirData::Empty => counts[k] < lazy_threshold() && cuts[k + 1] == cuts[k]
                            + 1 && log[cuts[k]].0 == joined_path(path, name@) && counted_entries(
                            log[cuts[k]].1,
                        ) == 0 && counts[k + 1] == counts[k],
                        DirData::Loaded(c) => counts[k] < lazy_threshold() && c.len() > 0
                            && folder_read(
                            c@,
                            joined_path(path, name@),
                            log.subrange(cuts[k], cuts[k + 1]),
                            counts[k],
                            counts[k + 1],
                        ),
                    },
                    FileTreeNode::File(_) => false,
                }
        };
    if nodes[i] is File {
        if i < nd {
            assert(match nodes[i] {
                FileTreeNode::File(_) => false,
                _ => true,
            });
        }
        let shown = node_names(nodes.skip(nd));
        assert(shown[i - nd] == node_name(nodes[i]));
        assert(shown[j - nd] == node_name(nodes[j]));
        lemma_ascii_names_case_insensitive(shown, names_of_kind(e, EntryKind::File), i - nd, j - nd);
    } else {
        if j >= nd {
            assert(nodes[j] is File);
        }
        let shown = node_names(nodes.take(nd));
        assert(shown[i] == node_name(nodes[i]));
        assert(shown[j] == node_name(nodes[j]));
        lemma_ascii_names_case_insensitive(shown, names_of_kind(e, EntryKind::Dir), i, j);
    }
}

} // verus!
