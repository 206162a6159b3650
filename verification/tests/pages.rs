use mod_explorer::attribution::{
    attribution_unavailable, can_access, mod_page_path, portal_link, user_page_path, AttributionData,
    AttributionDataInternal, AttributionStore, LicenseInfo, PortalLicense, PortalModInfo,
};
use mod_explorer::file_tree::{
    TreeWalk, WalkAction,
    assemble_nodes, classify_entries, dir_node, is_lazy_dir, join_path, sort_by_lowercase,
    tree_answer, DirData, EntryKind, FileTreeNode, ListedEntry,
};
use mod_explorer::files::{
    check_license, check_path, check_viewable, first_line, is_safe_relative_path, line_count,
    plan_request, resolve_mod_version, syntax_source, RequestPlan, RequestRefusal, SyntaxSource,
};
use mod_explorer::highlight::render_file;
use mod_explorer::links::{
    active_file_path, bookmarklet_code, bookmarklet_href, bookmarklet_target, dir_page_path,
    dir_shown_as_link, dir_starts_open, greeting_suffix, is_active_link, latest_label, latest_of,
    line_numbers, login_redirect_target, replace_all, selector_target, strip_spacing, tree_title,
};
use mod_explorer::mod_index::{DirEntry, ModIndex};
use mod_explorer::theme::{
    chosen_theme, default_theme, keep_theme, offers_default, text_contains, theme_css_for,
    theme_options, ThemeOption,
};

fn s(x: &str) -> String {
    x.to_string()
}

#[test]
fn path_safety() {
    assert!(is_safe_relative_path(""));
    assert!(is_safe_relative_path("data/base.lua"));
    assert!(is_safe_relative_path("./a"));
    assert!(is_safe_relative_path("..."));
    assert!(is_safe_relative_path("a..b/c"));
    assert!(!is_safe_relative_path(".."));
    assert!(!is_safe_relative_path("a/.."));
    assert!(!is_safe_relative_path("a/../b"));
    assert!(!is_safe_relative_path("../etc/passwd"));
    assert!(!is_safe_relative_path("/etc/passwd"));
    assert_eq!(check_path("a/../b"), Err(RequestRefusal::InvalidPath));
    assert_eq!(check_path("a/b"), Ok(()));
}

#[test]
fn refusal_messages() {
    assert_eq!(RequestRefusal::MissingState.message(), "Missing state");
    assert_eq!(RequestRefusal::UnknownModOrVersion.message(), "Mod or version not found");
    assert_eq!(
        RequestRefusal::LicenseForbidsTree.message(),
        "Mod license does not allow exploring it via this tool"
    );
    assert_eq!(
        RequestRefusal::LicenseForbidsFile.message(),
        "Mod license does not allow exploring via this tool"
    );
    assert_eq!(RequestRefusal::InvalidPath.message(), "Invalid path");
    assert_eq!(RequestRefusal::FileNotFound.message(), "File not found");
    assert_eq!(RequestRefusal::NotText.message(), "Only text files can be viewed");
}

#[test]
fn license_check() {
    assert_eq!(check_license(true, true), Ok(()));
    assert_eq!(check_license(false, true), Err(RequestRefusal::LicenseForbidsFile));
    assert_eq!(check_license(false, false), Err(RequestRefusal::LicenseForbidsTree));
}

#[test]
fn version_resolution_for_requests() {
    let idx = ModIndex::from_dir_entries(&vec![DirEntry { name: s("m_1.0.0"), is_dir: true }]);
    assert_eq!(resolve_mod_version(&idx, "m", "latest"), Ok(s("1.0.0")));
    assert_eq!(resolve_mod_version(&idx, "m", "2.0.0"), Err(RequestRefusal::UnknownModOrVersion));
}

#[test]
fn viewable_files_by_extension() {
    assert_eq!(check_viewable("data/control.lua"), Ok(()));
    assert_eq!(check_viewable("info.json"), Ok(()));
    assert_eq!(check_viewable("changelog.txt"), Ok(()));
    assert_eq!(check_viewable("LICENSE"), Ok(()));
    assert_eq!(check_viewable("graphics/icon.png"), Err(RequestRefusal::NotText));
    assert_eq!(check_viewable("sound/boom.ogg"), Err(RequestRefusal::NotText));
}

#[test]
fn counting_lines() {
    assert_eq!(line_count(""), 0);
    assert_eq!(line_count("a"), 1);
    assert_eq!(line_count("a\n"), 1);
    assert_eq!(line_count("a\nb"), 2);
    assert_eq!(line_count("\n\n"), 2);
    assert_eq!(line_count("a\r\nb\r\n"), 2);
    for t in ["", "x", "x\n", "x\ny", "\n", "a\r\n\r\nb"] {
        assert_eq!(line_count(t), t.lines().count());
    }
}

#[test]
fn first_lines() {
    assert_eq!(first_line(""), "");
    assert_eq!(first_line("#!/bin/sh\necho"), "#!/bin/sh");
    assert_eq!(first_line("a\r\nb"), "a");
    assert_eq!(first_line("abc\r"), "abc\r");
    assert_eq!(first_line("\nx"), "");
    for t in ["", "x", "x\n", "x\r\ny", "\r\n", "only\r"] {
        assert_eq!(first_line(t), t.lines().next().unwrap_or_default());
    }
}

#[test]
fn tree_paths_and_nodes() {
    assert_eq!(join_path("", "data"), "data");
    assert_eq!(join_path("data", "base.lua"), "data/base.lua");
    assert!(is_lazy_dir(50));
    assert!(is_lazy_dir(51));
    assert!(!is_lazy_dir(49));
    assert!(!is_lazy_dir(0));
    assert!(matches!(dir_node(s("d"), vec![]), FileTreeNode::Dir(n, DirData::Empty) if n == "d"));
    match dir_node(s("d"), vec![FileTreeNode::File(s("f"))]) {
        FileTreeNode::Dir(n, DirData::Loaded(c)) => {
            assert_eq!(n, "d");
            assert_eq!(c.len(), 1);
        }
        _ => panic!("expected a loaded folder"),
    }
    assert!(matches!(tree_answer(s(""), vec![]), FileTreeNode::Dir(n, DirData::Empty) if n.is_empty()));
    assert!(DirData::Lazy.should_be_link());
    assert!(!DirData::Empty.should_be_link());
}

#[test]
fn names_sorted_by_lower_case() {
    assert_eq!(
        sort_by_lowercase(vec![s("b"), s("A"), s("c"), s("B")]),
        vec![s("A"), s("b"), s("B"), s("c")]
    );
}

#[test]
fn entries_classified_and_counted() {
    let entries = vec![
        ListedEntry { name: s("zeta.lua"), kind: EntryKind::File },
        ListedEntry { name: s("Graphics"), kind: EntryKind::Dir },
        ListedEntry { name: s("link"), kind: EntryKind::Other },
        ListedEntry { name: s("alpha.lua"), kind: EntryKind::File },
        ListedEntry { name: s("data"), kind: EntryKind::Dir },
    ];
    let l = classify_entries(entries, 7);
    assert_eq!(l.dirs, vec![s("data"), s("Graphics")]);
    assert_eq!(l.files, vec![s("alpha.lua"), s("zeta.lua")]);
    assert_eq!(l.node_count, 11);
    let nodes = assemble_nodes(vec![FileTreeNode::Dir(s("data"), DirData::Lazy)], l.files);
    assert_eq!(nodes.len(), 3);
    assert!(matches!(&nodes[0], FileTreeNode::Dir(n, DirData::Lazy) if n == "data"));
    assert!(matches!(&nodes[2], FileTreeNode::File(n) if n == "zeta.lua"));
}

#[test]
fn attribution_from_portal_info() {
    let info = |license| PortalModInfo {
        title: s("Cool Mod"),
        owner: s("bob"),
        license_title: s("MIT"),
        license_url: s("https://opensource.org/licenses/MIT"),
        license,
        source_url: Some(s("https://github.com/bob/cool")),
    };
    let a = AttributionDataInternal::from_portal(info(PortalLicense::Listed));
    assert!(a.license.access_allowed);
    assert_eq!(a.title, "Cool Mod");
    assert_eq!(a.source_url, Some(s("https://github.com/bob/cool")));
    let b = AttributionDataInternal::from_portal(info(PortalLicense::Other));
    assert!(!b.license.access_allowed);
    assert!(can_access(&Some(a.duplicate())));
    assert!(!can_access(&Some(b)));
    assert!(!can_access(&None));
    let shown = AttributionData::from_internal(a);
    assert_eq!(shown.license_name, "MIT");
    assert_eq!(shown.owner, "bob");
    assert_eq!(attribution_unavailable(), "Failed to fetch attribution data");
}

fn attribution(title: &str, owner: &str) -> AttributionDataInternal {
    AttributionDataInternal {
        title: s(title),
        owner: s(owner),
        license: LicenseInfo { title: s("L"), url: s("u"), access_allowed: true },
        source_url: None,
    }
}

#[test]
fn attribution_cache_read_after_write() {
    let mut store = AttributionStore::new();
    assert!(store.get("m").is_none());
    let back = store.get_or_store(s("m"), Some(attribution("T", "o"))).unwrap();
    assert_eq!(back.title, "T");
    assert_eq!(store.get("m").unwrap().owner, "o");
    assert!(store.get("n").is_none());
}

#[test]
fn attribution_cache_keeps_first_entry() {
    let mut store = AttributionStore::new();
    store.get_or_store(s("m"), Some(attribution("T", "o")));
    let again = store.get_or_store(s("m"), Some(attribution("U", "p"))).unwrap();
    assert_eq!(again.title, "T");
    assert_eq!(again.owner, "o");
    let without_fetch = store.get_or_store(s("m"), None).unwrap();
    assert_eq!(without_fetch.title, "T");
    assert_eq!(store.get("m").unwrap().title, "T");
}

#[test]
fn attribution_failed_fetch_caches_nothing() {
    let mut store = AttributionStore::new();
    assert!(store.get_or_store(s("m"), None).is_none());
    assert!(store.get("m").is_none());
    store.get_or_store(s("n"), Some(attribution("N", "q")));
    assert!(store.get_or_store(s("m"), None).is_none());
    assert_eq!(store.get("n").unwrap().title, "N");
}

#[test]
fn portal_links() {
    assert_eq!(portal_link(&mod_page_path("base")), "https://mods.factorio.com/mod/base");
    assert_eq!(portal_link(&user_page_path("bob")), "https://mods.factorio.com/user/bob");
}

#[test]
fn login_target_keeps_location() {
    assert_eq!(
        login_redirect_target("/mod/x", "a=1", "sec"),
        "/auth/login?next=%2Fmod%2Fx%3Fa%3D1%23sec"
    );
    assert_eq!(login_redirect_target("/mod/x", "", "#sec"), "/auth/login?next=%2Fmod%2Fx%23sec");
    assert_eq!(login_redirect_target("/mod/x", "", ""), "/auth/login?next=%2Fmod%2Fx");
}

#[test]
fn selector_navigation() {
    assert_eq!(selector_target("", None), None);
    assert_eq!(selector_target("base", None), Some(s("/i/base/latest")));
    assert_eq!(selector_target("base", Some("1.1.0")), Some(s("/i/base/1.1.0")));
    assert_eq!(latest_of(&vec![s("2.0"), s("1.0")]), "2.0");
    assert_eq!(latest_of(&vec![]), "");
    assert_eq!(latest_label("2.0"), "latest (2.0)");
}

#[test]
fn tree_titles_and_paths() {
    assert_eq!(tree_title("base", ""), "base");
    assert_eq!(tree_title("base", "data/x.lua"), "base/data/x.lua");
    assert_eq!(dir_page_path("base", "1.0", ""), "/mod/base/1.0");
    assert_eq!(dir_page_path("base", "1.0", "data"), "/mod/base/1.0/data");
    assert!(dir_starts_open("/mod/base/1.0/data/x.lua", "/mod/base/1.0/data"));
    assert!(!dir_starts_open("/mod/base/1.0/gfx", "/mod/base/1.0/data"));
    assert!(dir_shown_as_link(true, false));
    assert!(!dir_shown_as_link(true, true));
    assert!(!dir_shown_as_link(false, false));
}

#[test]
fn active_paths() {
    assert_eq!(active_file_path("/mod/base/1.0/data/x.lua"), Some(s("data/x.lua")));
    assert_eq!(active_file_path("/mod/base/1.0"), Some(s("")));
    assert_eq!(active_file_path("/mod/base/1.0/"), Some(s("")));
    assert_eq!(active_file_path("/mod/base"), Some(s("")));
    assert_eq!(active_file_path("/other"), None);
    assert!(is_active_link("/mod/base/1.0/data/x.lua", "data"));
    assert!(!is_active_link("/mod/base/1.0/data/x.lua", "gfx"));
    assert!(is_active_link("/other", ""));
}

#[test]
fn bookmarklet() {
    assert_eq!(strip_spacing("a b\nc "), "abc");
    assert_eq!(replace_all("x[T]y[T]", "[T]", "-"), "x-y-");
    assert_eq!(replace_all("aaa", "aa", "b"), "ba");
    assert_eq!(bookmarklet_target(), "https://mod.tools.bpbin.com");
    assert_eq!(
        bookmarklet_href(bookmarklet_code(), bookmarklet_target()),
        "javascript:(function(){if%28window.location.host%3D%3D%22mods.factorio.com%22%29%7Bwindow.location.href%3D%22https%3A%2F%2Fmod.tools.bpbin.com%22%2Bwindow.location.pathname.match%28%2F%5C%2F%28%3F%3Amod%7Cuser%29%5C%2F%5B%5E%2F%3F%23%5D%2B%2F%29%5B0%5D%7D})()"
    );
}

#[test]
fn small_labels() {
    assert_eq!(greeting_suffix("alice"), ", alice");
    assert_eq!(line_numbers(3), vec![1, 2, 3]);
    assert!(line_numbers(0).is_empty());
}

#[test]
fn themes_offered() {
    assert_eq!(default_theme(), "base16-eighties.dark");
    assert!(keep_theme("base16-eighties.dark"));
    assert!(keep_theme("Solarized (dark)"));
    assert!(keep_theme("base16-ocean.DARK"));
    assert!(!keep_theme("InspiredGitHub"));
    assert!(text_contains("abcdark", "dark"));
    assert!(text_contains("x", ""));
    assert!(!text_contains("da", "dark"));
    let offered = vec![s("base16-eighties.dark"), s("Solarized (dark)")];
    assert!(offers_default(&offered));
    assert!(!offers_default(&vec![s("x")]));
    assert_eq!(chosen_theme(&offered, "Solarized (dark)"), "Solarized (dark)");
    assert_eq!(chosen_theme(&offered, "nope"), "base16-eighties.dark");
}

#[test]
fn highlighting_syntax_choice() {
    assert_eq!(syntax_source(true, false), SyntaxSource::Extension);
    assert_eq!(syntax_source(true, true), SyntaxSource::Extension);
    assert_eq!(syntax_source(false, true), SyntaxSource::FirstLine);
    assert_eq!(syntax_source(false, false), SyntaxSource::PlainText);
}

#[test]
fn request_checks_in_order() {
    let idx = ModIndex::from_dir_entries(&vec![DirEntry { name: s("m_1.0.0"), is_dir: true }]);
    // an unknown version is refused before the license is asked or the path looked at
    assert_eq!(
        plan_request(&idx, "m", "9.9.9", None, "../x", true),
        RequestPlan::Refused(RequestRefusal::UnknownModOrVersion)
    );
    assert_eq!(
        plan_request(&idx, "x", "latest", Some(false), "../x", false),
        RequestPlan::Refused(RequestRefusal::UnknownModOrVersion)
    );
    assert_eq!(plan_request(&idx, "m", "latest", None, "../x", true), RequestPlan::NeedsAccess);
    // the license comes before the path
    assert_eq!(
        plan_request(&idx, "m", "latest", Some(false), "../x", true),
        RequestPlan::Refused(RequestRefusal::LicenseForbidsFile)
    );
    assert_eq!(
        plan_request(&idx, "m", "1.0.0", Some(false), "data", false),
        RequestPlan::Refused(RequestRefusal::LicenseForbidsTree)
    );
    assert_eq!(
        plan_request(&idx, "m", "latest", Some(true), "../x", true),
        RequestPlan::Refused(RequestRefusal::InvalidPath)
    );
    assert_eq!(
        plan_request(&idx, "m", "latest", Some(true), "data/base.lua", true),
        RequestPlan::Read { folder: s("m_1.0.0") }
    );
    assert_eq!(
        plan_request(&idx, "m", "1.0.0", Some(true), "", false),
        RequestPlan::Read { folder: s("m_1.0.0") }
    );
}

/// What syntect makes of `content` with the bundled syntax `syntax`.
fn syntect_html(syntax: &syntect::parsing::SyntaxReference, content: &str) -> String {
    let set = syntect::parsing::SyntaxSet::load_defaults_newlines();
    let mut g = syntect::html::ClassedHTMLGenerator::new_with_class_style(
        syntax,
        &set,
        syntect::html::ClassStyle::Spaced,
    );
    for line in syntect::util::LinesWithEndings::from(content) {
        g.parse_html_for_line_which_includes_newline(line).unwrap();
    }
    g.finalize()
}

#[test]
fn bundled_syntaxes_are_named_once_and_have_plain_text() {
    let set = syntect::parsing::SyntaxSet::load_defaults_newlines();
    let mut names: Vec<&str> = set.syntaxes().iter().map(|s| s.name.as_str()).collect();
    let all = names.len();
    names.sort();
    names.dedup();
    assert_eq!(names.len(), all);
    assert!(names.contains(&"Plain Text"));
}

#[test]
fn highlighting_by_extension() {
    let set = syntect::parsing::SyntaxSet::load_defaults_newlines();
    let content = "local x = 1\nreturn x\n";
    let (html, lines) = render_file(content, "lua").unwrap();
    assert_eq!(lines, 2);
    assert_ne!(html, content);
    assert!(html.contains("<span"));
    assert_eq!(html, syntect_html(set.find_syntax_by_extension("lua").unwrap(), content));
}

#[test]
fn highlighting_by_first_line() {
    let set = syntect::parsing::SyntaxSet::load_defaults_newlines();
    let content = "#!/bin/bash\necho hi\n";
    assert!(set.find_syntax_by_extension("nothing-known").is_none());
    let by_line = set.find_syntax_by_first_line("#!/bin/bash").unwrap();
    let (html, lines) = render_file(content, "nothing-known").unwrap();
    assert_eq!(lines, 2);
    assert_eq!(html, syntect_html(by_line, content));
}

#[test]
fn highlighting_plain_text() {
    let set = syntect::parsing::SyntaxSet::load_defaults_newlines();
    let content = "just some words\n";
    assert!(set.find_syntax_by_first_line("just some words").is_none());
    let (html, lines) = render_file(content, "").unwrap();
    assert_eq!(lines, 1);
    assert_eq!(html, syntect_html(set.find_syntax_plain_text(), content));
    let (empty, none) = render_file("", "").unwrap();
    assert_eq!(none, 0);
    assert_eq!(empty, syntect_html(set.find_syntax_plain_text(), ""));
}

fn entry(name: &str, kind: EntryKind) -> ListedEntry {
    ListedEntry { name: s(name), kind }
}

fn listed(action: &WalkAction) -> String {
    match action {
        WalkAction::List(p) => p.clone(),
        WalkAction::Done(_) => panic!("the walk ended early"),
    }
}

fn names(nodes: &[FileTreeNode]) -> Vec<String> {
    nodes
        .iter()
        .map(|n| match n {
            FileTreeNode::File(name) => format!("file {name}"),
            FileTreeNode::Dir(name, DirData::Lazy) => format!("lazy {name}"),
            FileTreeNode::Dir(name, DirData::Empty) => format!("empty {name}"),
            FileTreeNode::Dir(name, DirData::Loaded(c)) => format!("dir {name} {}", c.len()),
        })
        .collect()
}

#[test]
fn tree_walk_reads_folders_depth_first_in_order() {
    let (mut walk, first) = TreeWalk::start();
    assert_eq!(listed(&first), "");
    let next = walk.received(vec![
        entry("b.txt", EntryKind::File),
        entry("Zeta", EntryKind::Dir),
        entry("alpha", EntryKind::Dir),
        entry("A.lua", EntryKind::File),
        entry("link", EntryKind::Other),
    ]);
    assert_eq!(walk.node_count(), 4);
    assert_eq!(listed(&next), "alpha");
    let next = walk.received(vec![entry("beta", EntryKind::Dir), entry("x", EntryKind::File)]);
    assert_eq!(listed(&next), "alpha/beta");
    let next = walk.received(vec![]);
    assert_eq!(listed(&next), "Zeta");
    let done = walk.received(vec![]);
    assert_eq!(walk.node_count(), 6);
    match done {
        WalkAction::Done(nodes) => {
            assert_eq!(names(&nodes), vec!["dir alpha 2", "empty Zeta", "file A.lua", "file b.txt"]);
            match &nodes[0] {
                FileTreeNode::Dir(_, DirData::Loaded(c)) => {
                    assert_eq!(names(c), vec!["empty beta", "file x"])
                }
                _ => panic!("alpha was read"),
            }
        }
        WalkAction::List(p) => panic!("unexpected listing of {p}"),
    }
}

#[test]
fn tree_walk_leaves_folders_lazy_at_the_limit() {
    let (mut walk, _) = TreeWalk::start();
    let mut root: Vec<ListedEntry> = (0..48).map(|i| entry(&format!("f{i:02}"), EntryKind::File)).collect();
    root.push(entry("d1", EntryKind::Dir));
    root.push(entry("d2", EntryKind::Dir));
    // 50 entries counted: no sub-folder is read
    match walk.received(root) {
        WalkAction::Done(nodes) => {
            assert_eq!(nodes.len(), 50);
            assert_eq!(names(&nodes[..2]), vec!["lazy d1", "lazy d2"]);
        }
        WalkAction::List(p) => panic!("unexpected listing of {p}"),
    }

    let (mut walk, _) = TreeWalk::start();
    let mut root: Vec<ListedEntry> = (0..47).map(|i| entry(&format!("f{i:02}"), EntryKind::File)).collect();
    root.push(entry("d1", EntryKind::Dir));
    root.push(entry("d2", EntryKind::Dir));
    // 49 entries: the first sub-folder is read; its entry brings the count to 50
    assert_eq!(listed(&walk.received(root)), "d1");
    match walk.received(vec![entry("inner", EntryKind::File)]) {
        WalkAction::Done(nodes) => {
            assert_eq!(names(&nodes[..2]), vec!["dir d1 1", "lazy d2"]);
        }
        WalkAction::List(p) => panic!("unexpected listing of {p}"),
    }
}

fn bundled_css(name: &str) -> String {
    let set = syntect::highlighting::ThemeSet::load_defaults();
    syntect::html::css_for_theme_with_class_style(&set.themes[name], syntect::html::ClassStyle::Spaced).unwrap()
}

#[test]
fn theme_css_of_requested_or_default() {
    let offered = vec![s("base16-eighties.dark"), s("base16-ocean.dark")];
    let ocean = theme_css_for(&offered, "base16-ocean.dark").unwrap().unwrap();
    assert_eq!(ocean, bundled_css("base16-ocean.dark"));
    assert!(ocean.contains("color"));
    let fallback = theme_css_for(&offered, "InspiredGitHub").unwrap().unwrap();
    assert_eq!(fallback, bundled_css("base16-eighties.dark"));
    assert_ne!(ocean, fallback);
    // an offered name that is no bundled theme
    let odd = vec![s("no-such-theme")];
    assert!(theme_css_for(&odd, "no-such-theme").is_none());
}

#[test]
fn tree_walk_of_a_small_folder() {
    let (mut walk, first) = TreeWalk::start();
    assert_eq!(listed(&first), "");
    let next = walk.received(vec![
        entry("b.txt", EntryKind::File),
        entry("A.lua", EntryKind::File),
        entry("Zeta", EntryKind::Dir),
        entry("lib", EntryKind::Dir),
        entry("link", EntryKind::Other),
    ]);
    assert_eq!(listed(&next), "lib");
    let next = walk.received(vec![entry("x.lua", EntryKind::File)]);
    assert_eq!(listed(&next), "Zeta");
    match walk.received(vec![]) {
        WalkAction::Done(nodes) => {
            assert_eq!(names(&nodes), vec!["dir lib 1", "empty Zeta", "file A.lua", "file b.txt"]);
            match &nodes[0] {
                FileTreeNode::Dir(_, DirData::Loaded(c)) => assert_eq!(names(c), vec!["file x.lua"]),
                _ => panic!("lib was read"),
            }
        }
        WalkAction::List(p) => panic!("unexpected listing of {p}"),
    }
    assert_eq!(walk.node_count(), 5);
}

#[test]
fn theme_picker_entries() {
    assert_eq!(
        theme_options(None, "base16-ocean.dark"),
        vec![ThemeOption { name: s("base16-eighties.dark"), selected: false }]
    );
    let listed = vec![s("a.dark"), s("b.dark")];
    assert_eq!(
        theme_options(Some(&listed), "b.dark"),
        vec![ThemeOption { name: s("a.dark"), selected: false }, ThemeOption { name: s("b.dark"), selected: true }]
    );
    assert!(theme_options(Some(&listed), "c").iter().all(|o| !o.selected));
    assert!(theme_options(Some(&vec![]), "c").is_empty());
}
