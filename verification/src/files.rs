//! The checks in front of the file tree and file viewer requests, and what
//! they compute from a file's text.

use vstd::prelude::*;
use crate::mod_index::{ModIndex, version_lookup};
use crate::naming::{dir_name_of, mod_dir_name};
use crate::text::{Order, chars_of, compare_text, has_prefix, string_from_range, text_starts_with};

verus! {

/// Why a file request is refused.
#[derive(Clone, Copy, Debug, PartialEq, Eq, Structural)]
pub enum RequestRefusal {
    /// The server state is not available.
    MissingState,
    /// No such mod, or no such version of it.
    UnknownModOrVersion,
    /// The license forbids exploring the mod (file tree request).
    LicenseForbidsTree,
    /// The license forbids exploring the mod (file request).
    LicenseForbidsFile,
    /// The path leaves the mod's folder.
    InvalidPath,
    /// No file or folder at the path.
    FileNotFound,
    /// The file is not text.
    NotText,
}

impl RequestRefusal {
    /// The text the refusal is answered with.
    pub open spec fn message_text(self) -> Seq<char> {
        match self {
            RequestRefusal::MissingState => "Missing state"@,
            RequestRefusal::UnknownModOrVersion => "Mod or version not found"@,
            RequestRefusal::LicenseForbidsTree => "Mod license does not allow exploring it via this tool"@,
            RequestRefusal::LicenseForbidsFile => "Mod license does not allow exploring via this tool"@,
            RequestRefusal::InvalidPath => "Invalid path"@,
            RequestRefusal::FileNotFound => "File not found"@,
            RequestRefusal::NotText => "Only text files can be viewed"@,
        }
    }

    /// The text the refusal is answered with.
    pub fn message(&self) -> (r: String)
        ensures
            r@ == self.message_text(),
    {
        match self {
            RequestRefusal::MissingState => String::from_str("Missing state"),
            RequestRefusal::UnknownModOrVersion => String::from_str("Mod or version not found"),
            RequestRefusal::LicenseForbidsTree => String::from_str(
                "Mod license does not allow exploring it via this tool",
            ),
            RequestRefusal::LicenseForbidsFile => String::from_str(
                "Mod license does not allow exploring via this tool",
            ),
            RequestRefusal::InvalidPath => String::from_str("Invalid path"),
            RequestRefusal::FileNotFound => String::from_str("File not found"),
            RequestRefusal::NotText => String::from_str("Only text files can be viewed"),
        }
    }
}

/// `p` has a `..` component: a `..` between separators or the path's ends.
pub open spec fn has_parent_component(p: Seq<char>) -> bool {
    exists|i: int|
        0 <= i && i + 2 <= p.len() && #[trigger] p[i] == '.' && p[i + 1] == '.' && (i == 0 || p[i
            - 1] == '/') && (i + 2 == p.len() || p[i + 2] == '/')
}

/// A path that stays inside the folder it is joined to: not absolute and
/// without `..` components (`Path::components` on Unix has no prefixes).
pub open spec fn stays_inside(p: Seq<char>) -> bool {
    !has_prefix(p, "/"@) && !has_parent_component(p)
}

/// Whether a requested path stays inside the mod's folder.
pub fn is_safe_relative_path(path: &str) -> (r: bool)
    ensures
        r == stays_inside(path@),
{
    if text_starts_with(path, "/") {
        return false;
    }
    let v = chars_of(path);
    let n = v.len();
    let mut i: usize = 0;
    while i < n && n - i >= 2
        invariant
            v@ == path@,
            n == v.len(),
            i <= n,
            forall|j: int|
                0 <= j < i && j + 2 <= path@.len() ==> !(#[trigger] path@[j] == '.' && path@[j
                    + 1] == '.' && (j == 0 || path@[j - 1] == '/') && (j + 2 == path@.len()
                    || path@[j + 2] == '/')),
        decreases n - i,
    {
        if v[i] == '.' && v[i + 1] == '.' && (i == 0 || v[i - 1] == '/') && (i + 2 == n || v[i
            + 2] == '/') {
            return false;
        }
        i = i + 1;
    }
    true
}

/// Resolves the requested version of a mod, or refuses the request.
pub fn resolve_mod_version(index: &ModIndex, name: &str, version: &str) -> (r: Result<
    String,
    RequestRefusal,
>)
    ensures
        match r {
            Ok(v) => version_lookup(index@, name@, version@) == Some(v@),
            Err(e) => version_lookup(index@, name@, version@) is None && e
                == RequestRefusal::UnknownModOrVersion,
        },
{
    match index.get_version(name, version) {
        Some(v) => Ok(v),
        None => Err(RequestRefusal::UnknownModOrVersion),
    }
}

/// Refuses a request for a mod whose license does not allow exploring it.
pub fn check_license(access_allowed: bool, for_file: bool) -> (r: Result<(), RequestRefusal>)
    ensures
        access_allowed ==> r is Ok,
        !access_allowed ==> r == Err::<(), RequestRefusal>(
            if for_file {
                RequestRefusal::LicenseForbidsFile
            } else {
                RequestRefusal::LicenseForbidsTree
            },
        ),
{
    if access_allowed {
        Ok(())
    } else if for_file {
        Err(RequestRefusal::LicenseForbidsFile)
    } else {
        Err(RequestRefusal::LicenseForbidsTree)
    }
}

/// Refuses a path that would leave the mod's folder.
pub fn check_path(path: &str) -> (r: Result<(), RequestRefusal>)
    ensures
        stays_inside(path@) ==> r is Ok,
        !stays_inside(path@) ==> r == Err::<(), RequestRefusal>(RequestRefusal::InvalidPath),
{
    if is_safe_relative_path(path) {
        Ok(())
    } else {
        Err(RequestRefusal::InvalidPath)
    }
}

/// Where a request for a mod's file tree or file stands before anything of
/// the mod is read.
#[derive(Debug, PartialEq, Eq)]
pub enum RequestPlan {
    /// Refused, with the first refusal that applies.
    Refused(RequestRefusal),
    /// The mod version is known; whether its license allows exploring it is
    /// still to be asked.
    NeedsAccess,
    /// Read the requested path inside the mod version's folder `folder`.
    Read { folder: String },
}

/// The checks in front of a file tree request (`for_file` false) or a file
/// request, in their order: the mod version must be known, then its license
/// must allow exploring it (`access`, `None` while not yet asked), then the
/// path must stay inside the mod's folder. The first that fails refuses the
/// request; when all pass, the folder to read is the version's folder.
pub fn plan_request(
    index: &ModIndex,
    name: &str,
    version: &str,
    access: Option<bool>,
    path: &str,
    for_file: bool,
) -> (r: RequestPlan)
    ensures
        match version_lookup(index@, name@, version@) {
            None => r == RequestPlan::Refused(RequestRefusal::UnknownModOrVersion),
            Some(v) => match access {
                None => r == RequestPlan::NeedsAccess,
                Some(false) => r == RequestPlan::Refused(
                    if for_file {
                        RequestRefusal::LicenseForbidsFile
                    } else {
                        RequestRefusal::LicenseForbidsTree
                    },
                ),
                Some(true) => if stays_inside(path@) {
                    r matches RequestPlan::Read { folder } && folder@ == dir_name_of(name@, v)
                } else {
                    r == RequestPlan::Refused(RequestRefusal::InvalidPath)
                },
            },
        },
{
    let v = match resolve_mod_version(index, name, version) {
        Ok(v) => v,
        Err(e) => return RequestPlan::Refused(e),
    };
    let allowed = match access {
        None => return RequestPlan::NeedsAccess,
        Some(a) => a,
    };
    if let Err(e) = check_license(allowed, for_file) {
        return RequestPlan::Refused(e);
    }
    if let Err(e) = check_path(path) {
        return RequestPlan::Refused(e);
    }
    RequestPlan::Read { folder: mod_dir_name(name, v.as_str()) }
}

/// What `mime_guess::from_path(path).first()` gives: the first MIME type
/// guessed from the path's extension, as (type, subtype) text.
pub uninterp spec fn mime_guess_of(path: Seq<char>) -> Option<(Seq<char>, Seq<char>)>;

/// Guesses a file's MIME type from its path (`mime_guess::from_path`,
/// first guess). The table of extensions is the crate's; the result is named.
#[verifier::external_body]
fn guess_mime(path: &str) -> (r: Option<(String, String)>)
    ensures
        match r {
            Some((t, s)) => mime_guess_of(path@) == Some((t@, s@)),
            None => mime_guess_of(path@) is None,
        },
{
    match mime_guess::from_path(path).first() {
        Some(m) => Some((m.type_().as_str().to_string(), m.subtype().as_str().to_string())),
        None => None,
    }
}

/// A file may be shown when its guessed type is text or application (json,
/// scripts), or when no type is guessed.
pub open spec fn viewable_guess(g: Option<(Seq<char>, Seq<char>)>) -> bool {
    match g {
        None => true,
        Some((t, _)) => t == "text"@ || t == "application"@,
    }
}

/// Refuses a file that is not text, going by its path's extension.
pub fn check_viewable(path: &str) -> (r: Result<(), RequestRefusal>)
    ensures
        viewable_guess(mime_guess_of(path@)) ==> r is Ok,
        !viewable_guess(mime_guess_of(path@)) ==> r == Err::<(), RequestRefusal>(
            RequestRefusal::NotText,
        ),
{
    match guess_mime(path) {
        None => Ok(()),
        Some((t, _)) => {
            proof {
                reveal_strlit("text");
                reveal_strlit("application");
            }
            if compare_text(t.as_str(), "text") == Order::Equal || compare_text(
                t.as_str(),
                "application",
            ) == Order::Equal {
                Ok(())
            } else {
                Err(RequestRefusal::NotText)
            }
        },
    }
}

/// Number of `\n` in `s`.
pub open spec fn newline_count(s: Seq<char>) -> nat
    decreases s.len(),
{
    if s.len() == 0 {
        0
    } else {
        newline_count(s.drop_last()) + if s.last() == '\n' {
            1nat
        } else {
            0nat
        }
    }
}

proof fn lemma_newline_count_bound(s: Seq<char>)
    ensures
        newline_count(s) <= s.len(),
    decreases s.len(),
{
    if s.len() > 0 {
        lemma_newline_count_bound(s.drop_last());
    }
}

/// How many lines `str::lines` yields: one per `\n`, plus a last line
/// that does not end in `\n`.
pub open spec fn lines_in(s: Seq<char>) -> nat {
    if s.len() == 0 {
        0
    } else if s.last() == '\n' {
        newline_count(s)
    } else {
        newline_count(s) + 1
    }
}

/// The number of lines of a text (`content.lines().count()`).
pub fn line_count(content: &str) -> (r: usize)
    ensures
        r == lines_in(content@),
{
    let v = chars_of(content);
    let n = v.len();
    let mut count: usize = 0;
    let mut i: usize = 0;
    while i < n
        invariant
            v@ == content@,
            n == v.len(),
            i <= n,
            count == newline_count(content@.take(i as int)),
            count <= i,
        decreases n - i,
    {
        assert(content@.take(i + 1).drop_last() =~= content@.take(i as int));
        if v[i] == '\n' {
            count = count + 1;
        }
        i = i + 1;
    }
    assert(content@.take(n as int) =~= content@);
    if n > 0 && v[n - 1] != '\n' {
        proof {
            lemma_newline_count_bound(content@.drop_last());
        }
        count + 1
    } else {
        count
    }
}

/// The first line as `str::lines` yields it: up to the first `\n`, without
/// a `\r` right before it; empty for empty text.
pub open spec fn first_line_of(s: Seq<char>) -> Seq<char> {
    if exists|i: int| 0 <= i < s.len() && s[i] == '\n' {
        let i = choose|i: int|
            0 <= i < s.len() && s[i] == '\n' && forall|j: int| 0 <= j < i ==> s[j] != '\n';
        if i > 0 && s[i - 1] == '\r' {
            s.take(i - 1)
        } else {
            s.take(i)
        }
    } else {
        s
    }
}

/// The first line of a text (`content.lines().next().unwrap_or_default()`).
pub fn first_line(content: &str) -> (r: String)
    ensures
        r@ == first_line_of(content@),
{
    let v = chars_of(content);
    let n = v.len();
    let mut i: usize = 0;
    while i < n
        invariant
            v@ == content@,
            n == v.len(),
            i <= n,
            forall|j: int| 0 <= j < i ==> content@[j] != '\n',
        decreases n - i,
    {
        if v[i] == '\n' {
            proof {
                let k = choose|k: int|
                    0 <= k < content@.len() && content@[k] == '\n' && forall|j: int|
                        0 <= j < k ==> content@[j] != '\n';
                assert(k == i) by {
                    if k < i {
                    }
                    if i < k {
                    }
                }
            }
            let end = if i > 0 && v[i - 1] == '\r' {
                i - 1
            } else {
                i
            };
            let r = string_from_range(&v, 0, end);
            assert(r@ =~= content@.take(end as int));
            return r;
        }
        i = i + 1;
    }
    String::from_str(content)
}

/// Where a file's highlighting syntax comes from.
#[derive(Clone, Copy, Debug, PartialEq, Eq, Structural)]
pub enum SyntaxSource {
    /// The syntax registered for the file's extension.
    Extension,
    /// The syntax whose first-line pattern matches the file's first line.
    FirstLine,
    /// Plain text.
    PlainText,
}

/// Which syntax highlights a file: the one found by its extension, else the
/// one found by its first line, else plain text. The first-line lookup is
/// only made when the extension found nothing, so `found_by_first_line`
/// counts only then.
pub fn syntax_source(found_by_extension: bool, found_by_first_line: bool) -> (r: SyntaxSource)
    ensures
        r == (if found_by_extension {
            SyntaxSource::Extension
        } else if found_by_first_line {
            SyntaxSource::FirstLine
        } else {
            SyntaxSource::PlainText
        }),
{
    if found_by_extension {
        SyntaxSource::Extension
    } else if found_by_first_line {
        SyntaxSource::FirstLine
    } else {
        SyntaxSource::PlainText
    }
}

} // verus!
