use dicat::components::split_path_to_components;
use dicat::sorted_paths::SortedPaths;

fn strings(items: &[&str]) -> Vec<String> {
    items.iter().map(|s| s.to_string()).collect()
}

#[test]
fn new_sorts_the_paths() {
    let list = SortedPaths::new(strings(&["drive/db/a.txt", "drive/da/b.txt"]));
    assert_eq!(list.into_inner(), strings(&["drive/da/b.txt", "drive/db/a.txt"]));
}

#[test]
fn new_keeps_every_path_also_duplicates() {
    let list = SortedPaths::new(strings(&["b", "a", "b", "", "ab", "a"]));
    assert_eq!(list.len(), 6);
    assert_eq!(list.into_inner(), strings(&["", "a", "a", "ab", "b", "b"]));
}

#[test]
fn order_is_by_character_not_by_component() {
    // '-' comes before '/', so "a-b" sorts before "a/b".
    let list = SortedPaths::new(strings(&["a/b", "a-b", "a"]));
    assert_eq!(list.into_inner(), strings(&["a", "a-b", "a/b"]));
}

#[test]
fn order_compares_code_points() {
    let list = SortedPaths::new(strings(&["\u{e9}", "z", "\u{1f600}", "\u{4e2d}"]));
    assert_eq!(
        list.into_inner(),
        strings(&["z", "\u{e9}", "\u{4e2d}", "\u{1f600}"])
    );
}

#[test]
fn new_sorts_a_long_list() {
    let mut input = Vec::new();
    let mut seed: u32 = 12345;
    for _ in 0..500 {
        seed = seed.wrapping_mul(1103515245).wrapping_add(12345);
        input.push(format!("dir{}/file{}", (seed >> 16) % 7, (seed >> 8) % 1000));
    }
    let mut expected = input.clone();
    expected.sort();
    assert_eq!(SortedPaths::new(input).into_inner(), expected);
}

#[test]
fn render_of_empty_list_is_empty() {
    assert_eq!(SortedPaths::new(Vec::new()).render(), "");
}

#[test]
fn render_nests_shared_directories() {
    let list = SortedPaths::new(strings(&["a/b/1.ext", "a/b/2.ext", "a/c/3.ext"]));
    assert_eq!(
        list.render(),
        "a\n.|__b\n..|__1.ext\n..|__2.ext\n.|__c\n..|__3.ext"
    );
}

#[test]
fn render_of_one_path() {
    let list = SortedPaths::new(strings(&["root/a/b.ext"]));
    assert_eq!(list.render(), "root\n.|__a\n..|__b.ext");
}

#[test]
fn render_of_unrelated_roots() {
    let list = SortedPaths::new(strings(&["b/y", "a/x"]));
    assert_eq!(list.render(), "a\n.|__x\n|__b\n.|__y");
}

#[test]
fn render_writes_a_repeated_path_once() {
    let list = SortedPaths::new(strings(&["a/x", "a/x"]));
    assert_eq!(list.render(), "a\n.|__x");
}

#[test]
fn render_skips_a_path_without_components() {
    let list = SortedPaths::new(strings(&["", "a/x"]));
    assert_eq!(list.render(), "\n|__a\n.|__x");
}

#[test]
fn render_is_the_same_on_every_call() {
    let list = SortedPaths::new(strings(&["a/b/1.ext", "a/c/3.ext"]));
    assert_eq!(list.render(), list.render());
    let again = SortedPaths::new(strings(&["a/c/3.ext", "a/b/1.ext"]));
    assert_eq!(list.render(), again.render());
}

#[test]
fn get_returns_the_path_at_an_index() {
    let list = SortedPaths::new(strings(&["b", "a"]));
    assert_eq!(list.get(0), Some(&"a".to_string()));
    assert_eq!(list.get(1), Some(&"b".to_string()));
    assert_eq!(list.get(2), None);
}

#[test]
fn split_plain_path() {
    assert_eq!(split_path_to_components("root/a/b.ext"), strings(&["root", "a", "b.ext"]));
}

#[test]
fn split_rooted_path() {
    assert_eq!(split_path_to_components("/usr/lib"), strings(&["/", "usr", "lib"]));
    assert_eq!(split_path_to_components("/"), strings(&["/"]));
}

#[test]
fn split_drops_empty_and_dot_segments() {
    assert_eq!(split_path_to_components("a//b/./c/"), strings(&["a", "b", "c"]));
    assert_eq!(split_path_to_components("/./a"), strings(&["/", "a"]));
    assert_eq!(split_path_to_components("a/b/."), strings(&["a", "b"]));
}

#[test]
fn split_keeps_a_leading_dot_and_parent_segments() {
    assert_eq!(split_path_to_components("./a"), strings(&[".", "a"]));
    assert_eq!(split_path_to_components("."), strings(&["."]));
    assert_eq!(split_path_to_components("a/../b"), strings(&["a", "..", "b"]));
    assert_eq!(split_path_to_components(".a/..b"), strings(&[".a", "..b"]));
}

#[test]
fn split_of_empty_path_has_no_components() {
    assert_eq!(split_path_to_components(""), Vec::<String>::new());
}

#[test]
fn split_agrees_with_the_standard_library() {
    for path in [
        "a/b/c", "/a/b", "a//b", "./a/./b/.", "..", "../a", "a/", "/", "//a", "", ".", "./", "/.",
        "caf\u{e9}/\u{4e2d}/x.dcm", "a/.b/c.", ".//.",
    ] {
        let expected: Vec<String> = std::path::Path::new(path)
            .components()
            .map(|c| c.as_os_str().to_string_lossy().into_owned())
            .collect();
        assert_eq!(split_path_to_components(path), expected);
    }
}
