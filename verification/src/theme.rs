//! Which syntax highlighting themes are offered.

use vstd::prelude::*;
use crate::file_tree::{lower_case, lowercase};
use crate::text::{Order, chars_of, compare_text, concat2, views};
use syntect::highlighting::ThemeSet;
use syntect::html::{ClassStyle, css_for_theme_with_class_style};

verus! {

/// The theme shown unless another is picked.
pub open spec fn default_theme_name() -> Seq<char> {
    "base16-eighties.dark"@
}

/// The theme shown unless another is picked.
pub fn default_theme() -> (r: &'static str)
    ensures
        r@ == default_theme_name(),
{
    "base16-eighties.dark"
}

/// `needle` occurs in `hay`.
pub open spec fn occurs_in(hay: Seq<char>, needle: Seq<char>) -> bool {
    exists|i: int| 0 <= i && i + needle.len() <= hay.len() && #[trigger] hay.subrange(i, i + needle.len()) == needle
}

fn occurs_at(h: &Vec<char>, i: usize, n: &Vec<char>) -> (r: bool)
    requires
        i + n.len() <= h.len(),
    ensures
        r == (h@.subrange(i as int, i + n.len()) == n@),
{
    let mut k: usize = 0;
    while k < n.len()
        invariant
            i + n.len() <= h.len(),
            k <= n.len(),
            forall|j: int| 0 <= j < k ==> h@[i + j] == n@[j],
        decreases n.len() - k,
    {
        if h[i + k] != n[k] {
            assert(h@.subrange(i as int, i + n.len())[k as int] != n@[k as int]);
            return false;
        }
        k = k + 1;
    }
    assert(h@.subrange(i as int, i + n.len()) =~= n@);
    true
}

/// Whether `needle` occurs in `hay` (`str::contains`).
pub fn text_contains(hay: &str, needle: &str) -> (r: bool)
    ensures
        r == occurs_in(hay@, needle@),
{
    let h = chars_of(hay);
    let n = chars_of(needle);
    if n.len() > h.len() {
        return false;
    }
    let last = h.len() - n.len();
    let mut i: usize = 0;
    loop
        invariant
            h@ == hay@,
            n@ == needle@,
            n.len() <= h.len(),
            last == h.len() - n.len(),
            i <= last,
            forall|j: int| 0 <= j < i ==> #[trigger] hay@.subrange(j, j + needle@.len()) != needle@,
        decreases last - i,
    {
        if occurs_at(&h, i, &n) {
            return true;
        }
        if i == last {
            return false;
        }
        i = i + 1;
    }
}

/// The themes offered: the default one and those with `dark` in their name.
pub open spec fn theme_offered(name: Seq<char>) -> bool {
    name == default_theme_name() || occurs_in(lowercase(name), "dark"@)
}

/// Whether a theme is offered.
pub fn keep_theme(name: &str) -> (r: bool)
    ensures
        r == theme_offered(name@),
{
    if compare_text(name, default_theme()) == Order::Equal {
        return true;
    }
    let lower = lower_case(name);
    text_contains(lower.as_str(), "dark")
}

/// Whether the default theme is among the themes (the server refuses to
/// start without it).
pub fn offers_default(themes: &Vec<String>) -> (r: bool)
    ensures
        r == views(themes@).contains(default_theme_name()),
{
    let mut i: usize = 0;
    while i < themes.len()
        invariant
            i <= themes.len(),
            forall|j: int| 0 <= j < i ==> themes@[j]@ != default_theme_name(),
        decreases themes.len() - i,
    {
        if compare_text(themes[i].as_str(), default_theme()) == Order::Equal {
            assert(views(themes@)[i as int] == default_theme_name());
            return true;
        }
        i = i + 1;
    }
    assert forall|j: int| 0 <= j < views(themes@).len() implies views(themes@)[j] != default_theme_name() by {
        assert(views(themes@)[j] == themes@[j]@);
    }
    false
}

/// The theme to render: the requested one when it is offered, else the
/// default.
pub fn chosen_theme(offered: &Vec<String>, requested: &str) -> (r: String)
    ensures
        views(offered@).contains(requested@) ==> r@ == requested@,
        !views(offered@).contains(requested@) ==> r@ == default_theme_name(),
{
    let mut i: usize = 0;
    while i < offered.len()
        invariant
            i <= offered.len(),
            forall|j: int| 0 <= j < i ==> offered@[j]@ != requested@,
        decreases offered.len() - i,
    {
        if compare_text(offered[i].as_str(), requested) == Order::Equal {
            assert(views(offered@)[i as int] == requested@);
            return String::from_str(requested);
        }
        i = i + 1;
    }
    assert forall|j: int| 0 <= j < views(offered@).len() implies views(offered@)[j] != requested@ by {
        assert(views(offered@)[j] == offered@[j]@);
    }
    String::from_str(default_theme())
}

/// The CSS (`css_for_theme_with_class_style`, spaced classes) of the
/// bundled theme (`ThemeSet::load_defaults`) named `name`, or the text of
/// the error that stopped it; `None` when no bundled theme has that name.
pub uninterp spec fn theme_css(name: Seq<char>) -> Option<Result<Seq<char>, Seq<char>>>;

/// Looks the theme up among syntect's bundled themes and makes its CSS.
#[verifier::external_body]
fn bundled_theme_css(name: &str) -> (r: Option<Result<String, String>>)
    ensures
        match r {
            None => theme_css(name@) is None,
            Some(Ok(c)) => theme_css(name@) == Some(Ok::<Seq<char>, Seq<char>>(c@)),
            Some(Err(e)) => theme_css(name@) == Some(Err::<Seq<char>, Seq<char>>(e@)),
        },
{
    let set = ThemeSet::load_defaults();
    match set.themes.get(name) {
        Some(theme) => match css_for_theme_with_class_style(theme, ClassStyle::Spaced) {
            Ok(css) => Some(Ok(css)),
            Err(e) => Some(Err(format!("{e}"))),
        },
        None => None,
    }
}

/// The theme whose CSS is sent: the requested one when it is offered, else
/// the default.
pub open spec fn served_theme(offered: Seq<Seq<char>>, requested: Seq<char>) -> Seq<char> {
    if offered.contains(requested) {
        requested
    } else {
        default_theme_name()
    }
}

/// What a failed CSS generation is answered with.
pub open spec fn theme_failure(error: Seq<char>) -> Seq<char> {
    "Failed to generate CSS for theme: "@ + error
}

/// The CSS of the requested theme, or of the default theme when the
/// requested one is not offered; `None` when that theme is not one of the
/// bundled themes.
pub fn theme_css_for(offered: &Vec<String>, requested: &str) -> (r: Option<Result<String, String>>)
    ensures
        ({
            let n = served_theme(views(offered@), requested@);
            match r {
                None => theme_css(n) is None,
                Some(Ok(c)) => theme_css(n) == Some(Ok::<Seq<char>, Seq<char>>(c@)),
                Some(Err(m)) => exists|e: Seq<char>|
                    theme_css(n) == Some(Err::<Seq<char>, Seq<char>>(e)) && m@ == theme_failure(e),
            }
        }),
{
    let name = chosen_theme(offered, requested);
    match bundled_theme_css(name.as_str()) {
        None => None,
        Some(Ok(css)) => Some(Ok(css)),
        Some(Err(e)) => {
            let m = concat2("Failed to generate CSS for theme: ", e.as_str());
            assert(m@ == theme_failure(e@));
            Some(Err(m))
        },
    }
}

/// An entry of the theme picker.
#[derive(Debug, PartialEq, Eq)]
pub struct ThemeOption {
    pub name: String,
    pub selected: bool,
}

/// The theme picker's entries: each listed theme, marked when it is the
/// selected one; while the list is not to be had, the default theme alone,
/// unmarked.
pub fn theme_options(listed: Option<&Vec<String>>, selected: &str) -> (r: Vec<ThemeOption>)
    ensures
        listed is None ==> r.len() == 1 && r@[0].name@ == default_theme_name() && !r@[0].selected,
        listed matches Some(v) ==> r.len() == v.len() && forall|i: int|
            #![trigger r@[i]]
            0 <= i < v.len() ==> r@[i].name@ == v@[i]@ && r@[i].selected == (v@[i]@ == selected@),
{
    match listed {
        None => {
            let mut r: Vec<ThemeOption> = Vec::new();
            r.push(ThemeOption { name: String::from_str(default_theme()), selected: false });
            r
        },
        Some(v) => {
            let mut r: Vec<ThemeOption> = Vec::new();
            let mut i: usize = 0;
            while i < v.len()
                invariant
                    i <= v.len(),
                    r.len() == i,
                    forall|j: int|
                        #![trigger r@[j]]
                        0 <= j < i ==> r@[j].name@ == v@[j]@ && r@[j].selected == (v@[j]@
                            == selected@),
                decreases v.len() - i,
            {
                let same = compare_text(v[i].as_str(), selected) == Order::Equal;
                r.push(ThemeOption { name: v[i].clone(), selected: same });
                i = i + 1;
            }
            r
        },
    }
}

} // verus!
