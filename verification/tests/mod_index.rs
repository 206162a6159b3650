use mod_explorer::mod_index::{DirEntry, ModIndex};
use mod_explorer::naming::{mod_dir_name, split_mod_dir_name};
use mod_explorer::text::{compare_text, Order};
use mod_explorer::version::{compare_versions, sort_versions_newest_first, version_parts};

fn s(x: &str) -> String {
    x.to_string()
}

fn dir(name: &str) -> DirEntry {
    DirEntry { name: s(name), is_dir: true }
}

fn file(name: &str) -> DirEntry {
    DirEntry { name: s(name), is_dir: false }
}

#[test]
fn split_takes_last_underscore() {
    assert_eq!(split_mod_dir_name("base_1.2.3"), (s("base"), s("1.2.3")));
    assert_eq!(split_mod_dir_name("my_cool_mod_0.1.0"), (s("my_cool_mod"), s("0.1.0")));
    assert_eq!(split_mod_dir_name("nounderscore"), (s(""), s("nounderscore")));
    assert_eq!(split_mod_dir_name("trailing_"), (s("trailing"), s("")));
    assert_eq!(split_mod_dir_name(""), (s(""), s("")));
}

#[test]
fn dir_name_round_trip() {
    let d = mod_dir_name("some_mod", "2.0.1");
    assert_eq!(d, "some_mod_2.0.1");
    assert_eq!(split_mod_dir_name(&d), (s("some_mod"), s("2.0.1")));
}

#[test]
fn text_order_is_str_order() {
    assert_eq!(compare_text("a", "b"), Order::Less);
    assert_eq!(compare_text("b", "a"), Order::Greater);
    assert_eq!(compare_text("ab", "a"), Order::Greater);
    assert_eq!(compare_text("", ""), Order::Equal);
    assert_eq!(compare_text("Z", "a"), Order::Less);
    assert_eq!(compare_text("é", "z"), Order::Greater);
}

#[test]
fn version_parts_take_three_pieces() {
    let chars = |x: &str| x.chars().collect::<Vec<char>>();
    assert_eq!(version_parts("1.2.3"), vec![chars("1"), chars("2"), chars("3")]);
    assert_eq!(version_parts("1.2"), vec![chars("1"), chars("2"), chars("")]);
    assert_eq!(version_parts("7"), vec![chars("7"), chars(""), chars("")]);
    assert_eq!(version_parts("1.2.3.4"), vec![chars("1"), chars("2"), chars("3")]);
}

#[test]
fn versions_compare_part_by_part_as_text() {
    assert_eq!(compare_versions("1.2.3", "1.2.4"), Order::Less);
    assert_eq!(compare_versions("2.0.0", "1.9.9"), Order::Greater);
    // parts are compared as text, so "9" is above "10"
    assert_eq!(compare_versions("1.9.0", "1.10.0"), Order::Greater);
    assert_eq!(compare_versions("1.2.3", "1.2.3.9"), Order::Equal);
}

#[test]
fn versions_sorted_newest_first() {
    let v = vec![s("1.0.0"), s("2.0.0"), s("1.5.0"), s("0.9.1")];
    assert_eq!(sort_versions_newest_first(&v), vec![s("2.0.0"), s("1.5.0"), s("1.0.0"), s("0.9.1")]);
    assert_eq!(sort_versions_newest_first(&vec![]), Vec::<String>::new());
}

fn sample_index() -> ModIndex {
    ModIndex::from_dir_entries(&vec![
        dir("zeta_1.0.0"),
        dir("alpha_0.1.0"),
        dir("alpha_0.3.0"),
        file("notes_1.0.0"),
        dir("alpha_0.2.0"),
        dir("my_mod_2.0.0"),
        dir("alpha_0.3.0"),
    ])
}

#[test]
fn index_lists_folders_only_sorted() {
    let idx = sample_index();
    assert_eq!(idx.available_mods(), vec![s("alpha"), s("my_mod"), s("zeta")]);
}

#[test]
fn index_versions_newest_first_without_duplicates() {
    let idx = sample_index();
    assert_eq!(idx.mod_versions("alpha"), Ok(vec![s("0.3.0"), s("0.2.0"), s("0.1.0")]));
    assert_eq!(idx.mod_versions("my_mod"), Ok(vec![s("2.0.0")]));
}

#[test]
fn unknown_mod_versions_error_text() {
    let idx = sample_index();
    assert_eq!(idx.mod_versions("notes"), Err(s("Unknown mod \"notes\"")));
}

#[test]
fn latest_resolves_to_newest() {
    let idx = sample_index();
    assert_eq!(idx.get_version("alpha", "latest"), Some(s("0.3.0")));
    assert_eq!(idx.get_version("zeta", "latest"), Some(s("1.0.0")));
}

#[test]
fn exact_versions_resolve_to_themselves() {
    let idx = sample_index();
    assert_eq!(idx.get_version("alpha", "0.2.0"), Some(s("0.2.0")));
    assert_eq!(idx.get_version("alpha", "0.4.0"), None);
    assert_eq!(idx.get_version("missing", "latest"), None);
}

#[test]
fn empty_index() {
    let idx = ModIndex::new();
    assert_eq!(idx.available_mods(), Vec::<String>::new());
    assert_eq!(idx.get_version("a", "latest"), None);
}

#[test]
fn version_order_is_strict() {
    for v in ["1.0.0", "2.3", "", "a.b.c"] {
        assert_eq!(compare_versions(v, v), Order::Equal);
    }
    assert_eq!(compare_versions("1.0.0", "2.0.0"), Order::Less);
    assert_eq!(compare_versions("2.0.0", "3.0.0"), Order::Less);
    assert_eq!(compare_versions("1.0.0", "3.0.0"), Order::Less);
}

#[test]
fn equal_versions_come_in_reverse() {
    let v = vec![s("1.0.0"), s("2"), s("1.0.0.1")];
    assert_eq!(sort_versions_newest_first(&v), vec![s("2"), s("1.0.0.1"), s("1.0.0")]);
}

#[test]
fn index_does_not_depend_on_listing_order() {
    let a = ModIndex::from_dir_entries(&vec![dir("b_1.0"), dir("a_2.0"), dir("a_1.0"), file("c_1.0")]);
    let b = ModIndex::from_dir_entries(&vec![file("c_1.0"), dir("a_1.0"), dir("b_1.0"), dir("a_2.0")]);
    assert_eq!(a.available_mods(), b.available_mods());
    assert_eq!(a.mod_versions("a"), b.mod_versions("a"));
    assert_eq!(a.mod_versions("b"), b.mod_versions("b"));
}
