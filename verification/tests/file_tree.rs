use aenyrathia::routes::wiki::{build_file_tree, render_file_tree_html, FileTreeNode};

fn paths(ps: &[&str]) -> Vec<String> {
    ps.iter().map(|p| p.to_string()).collect()
}

fn names(nodes: &[FileTreeNode]) -> Vec<&str> {
    nodes.iter().map(|n| n.name.as_str()).collect()
}

#[test]
fn tree_skips_home_and_nests_directories() {
    let tree = build_file_tree(&paths(&["Home.md", "lore/places.md", "lore.md", "alpha.md", ".md"]), "lore/places");
    assert_eq!(names(&tree), vec!["lore", "alpha"]);
    let lore = &tree[0];
    assert!(lore.is_dir && !lore.is_current && lore.is_current_ancestor);
    assert_eq!(lore.href.as_deref(), Some("/lore"));
    assert_eq!(names(&lore.children), vec!["places"]);
    let places = &lore.children[0];
    assert!(!places.is_dir && places.is_current && !places.is_current_ancestor);
    assert_eq!(places.href.as_deref(), Some("/lore/places"));
    let alpha = &tree[1];
    assert!(!alpha.is_dir && !alpha.is_current && alpha.children.is_empty());
}

#[test]
fn tree_sorts_directories_first_then_by_lowercase_name() {
    let tree = build_file_tree(&paths(&["beta.md", "Alpha.md", "zeta/x.md", "Gamma/y.md", "delta.md"]), "");
    assert_eq!(names(&tree), vec!["Gamma", "zeta", "Alpha", "beta", "delta"]);
    assert!(tree[0].is_dir && tree[0].href.is_none());
}

#[test]
fn tree_merges_duplicate_paths() {
    let tree = build_file_tree(&paths(&["a/b.md", "a/b.md", "a/c.md.md"]), "a/c");
    assert_eq!(names(&tree), vec!["a"]);
    assert_eq!(names(&tree[0].children), vec!["b", "c"]);
    assert!(tree[0].children[1].is_current);
    assert_eq!(tree[0].children[1].href.as_deref(), Some("/a/c"));
}

#[test]
fn tree_html_exact() {
    let tree = build_file_tree(&paths(&["lore/places.md", "lore.md", "alpha.md"]), "lore/places");
    assert_eq!(
        render_file_tree_html(&tree),
        "<ul class=\"file-tree\">\
         <li class=\"file-tree__item\"><details class=\"file-tree__dir\" open><summary class=\"file-tree__summary\">\
         <a href=\"/lore\" class=\"file-tree__link file-tree__link--summary\">lore</a></summary>\
         <ul class=\"file-tree\"><li class=\"file-tree__item\"><a href=\"/lore/places\" class=\"file-tree__link active\">places</a></li></ul>\
         </details></li>\
         <li class=\"file-tree__item\"><a href=\"/alpha\" class=\"file-tree__link\">alpha</a></li>\
         </ul>"
    );
}

#[test]
fn tree_html_escapes_and_uses_spans_for_directories_without_page() {
    let tree = build_file_tree(&paths(&["a&b/c d.md"]), "");
    assert_eq!(
        render_file_tree_html(&tree),
        "<ul class=\"file-tree\">\
         <li class=\"file-tree__item\"><details class=\"file-tree__dir\"><summary class=\"file-tree__summary\">\
         <span class=\"file-tree__link file-tree__link--summary\">a&amp;b</span></summary>\
         <ul class=\"file-tree\"><li class=\"file-tree__item\"><a href=\"/a%26b/c%20d\" class=\"file-tree__link\">c d</a></li></ul>\
         </details></li>\
         </ul>"
    );
}

#[test]
fn current_directory_page_is_open_and_active() {
    let tree = build_file_tree(&paths(&["lore.md", "lore/x.md"]), "lore");
    assert!(tree[0].is_dir && tree[0].is_current && !tree[0].is_current_ancestor);
    assert_eq!(
        render_file_tree_html(&tree),
        "<ul class=\"file-tree\">\
         <li class=\"file-tree__item\"><details class=\"file-tree__dir\" open><summary class=\"file-tree__summary active\">\
         <a href=\"/lore\" class=\"file-tree__link file-tree__link--summary\">lore</a></summary>\
         <ul class=\"file-tree\"><li class=\"file-tree__item\"><a href=\"/lore/x\" class=\"file-tree__link\">x</a></li></ul>\
         </details></li>\
         </ul>"
    );
}

#[test]
fn empty_tree_renders_an_empty_list() {
    let tree = build_file_tree(&[], "Home");
    assert!(tree.is_empty());
    assert_eq!(render_file_tree_html(&tree), "<ul class=\"file-tree\"></ul>");
}
