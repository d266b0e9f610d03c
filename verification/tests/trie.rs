use module_manager::order::name_lt;
use module_manager::trie::{
    android_tree_query, directories_query, get_android_tree, list_directories, Node,
};
use std::collections::BTreeMap;

fn built(paths: &[&str]) -> Node {
    let mut root = Node::new();
    for p in paths {
        root.insert(p);
    }
    root
}

#[test]
fn new_trie_renders_nothing() {
    let root = Node::new();
    assert_eq!(root.render(0), "");
    assert_eq!(root.render(7), "");
}

#[test]
fn insert_makes_one_node_per_segment() {
    let root = built(&["/system/bin/sh"]);
    assert_eq!(root.render(0), "system\n  bin\n    sh\n");
}

#[test]
fn insert_twice_is_insert_once() {
    let once = built(&["/a/b/c"]);
    let twice = built(&["/a/b/c", "/a/b/c"]);
    let often = built(&["/a/b/c", "/a/b/c", "/a/b/c", "/a/b/c"]);
    assert_eq!(once.render(0), "a\n  b\n    c\n");
    assert_eq!(twice.render(0), once.render(0));
    assert_eq!(often.render(0), once.render(0));
}

#[test]
fn insert_order_does_not_matter() {
    let paths = ["/b/x", "/a/y", "/a/z/w", "/c", "/a"];
    let expected = "a\n  y\n  z\n    w\nb\n  x\nc\n";
    let forward = built(&paths);
    assert_eq!(forward.render(0), expected);
    let mut reversed = paths;
    reversed.reverse();
    assert_eq!(built(&reversed).render(0), expected);
    let rotated = ["/a/z/w", "/c", "/a", "/b/x", "/a/y"];
    assert_eq!(built(&rotated).render(0), expected);
}

#[test]
fn children_render_in_name_order() {
    let root = built(&["/b/x", "/a/y"]);
    assert_eq!(root.render(0), "a\n  y\nb\n  x\n");
}

#[test]
fn render_twice_gives_the_same_text() {
    let root = built(&["/data/adb", "/data/app", "/system"]);
    assert_eq!(root.render(0), root.render(0));
    assert_eq!(root.render(0), "data\n  adb\n  app\nsystem\n");
}

#[test]
fn render_indents_by_two_per_level() {
    let root = built(&["/a/b/c"]);
    assert_eq!(root.render(2), "  a\n    b\n      c\n");
    assert_eq!(root.render(1), " a\n   b\n     c\n");
}

#[test]
fn empty_segments_do_not_count() {
    let plain = built(&["/a/b"]);
    assert_eq!(built(&["a/b"]).render(0), plain.render(0));
    assert_eq!(built(&["//a///b//"]).render(0), plain.render(0));
    assert_eq!(built(&["a/b/"]).render(0), plain.render(0));
}

#[test]
fn inserting_nothing_changes_nothing() {
    let mut root = built(&["/a"]);
    root.insert("");
    root.insert("/");
    root.insert("///");
    assert_eq!(root.render(0), "a\n");
}

#[test]
fn lookup_finds_what_was_inserted() {
    let root = built(&["/system/bin/sh", "/system/lib", "/vendor"]);
    assert!(root.get("/system/bin/sh").is_some());
    assert!(root.get("/system/lib").is_some());
    assert!(root.get("/vendor").is_some());
    assert_eq!(root.get("/system").map(|n| n.render(0)), Some("bin\n  sh\nlib\n".to_string()));
    assert_eq!(root.get("/system/bin/sh").map(|n| n.render(0)), Some(String::new()));
}

#[test]
fn lookup_finds_prefixes() {
    let root = built(&["/system/bin/sh"]);
    assert!(root.get("/system").is_some());
    assert!(root.get("/system/bin").is_some());
    assert!(root.get("system/bin/").is_some());
}

#[test]
fn lookup_misses_what_was_never_inserted() {
    let root = built(&["/system/bin/sh", "/vendor"]);
    assert!(root.get("/system/xbin").is_none());
    assert!(root.get("/system/bin/sh/more").is_none());
    assert!(root.get("/data").is_none());
    assert!(root.get("/sys").is_none());
    assert!(root.get("/bin").is_none());
    assert!(Node::new().get("/a").is_none());
}

#[test]
fn lookup_of_the_empty_path_gives_the_root() {
    let root = built(&["/a/b", "/c"]);
    assert_eq!(root.get("").map(|n| n.render(0)), Some(root.render(0)));
    assert_eq!(root.get("/").map(|n| n.render(0)), Some(root.render(0)));
    assert_eq!(root.get("////").map(|n| n.render(0)), Some(root.render(0)));
    assert!(Node::new().get("").is_some());
}

#[test]
fn render_at_shows_the_subtree_one_step_in() {
    let root = built(&["/system/bin/sh", "/system/lib", "/vendor"]);
    assert_eq!(root.render_at("/system"), "  bin\n    sh\n  lib\n");
    assert_eq!(root.render_at(""), "  system\n    bin\n      sh\n    lib\n  vendor\n");
}

#[test]
fn render_at_falls_back_to_the_whole_trie() {
    let root = built(&["/system/bin/sh", "/vendor"]);
    assert_eq!(root.render_at("/nowhere"), "system\n  bin\n    sh\nvendor\n");
    assert_eq!(root.render_at("/nowhere"), root.render(0));
}

#[test]
fn names_are_ordered_as_strings_are() {
    let names = [
        "b", "a", "ab", "", "B", "a0", "z", "\u{e9}", "e", "\u{4e2d}", "~", "\u{1f600}", "aa",
        "a\u{e9}", "\u{7f}", "\u{80}", "\u{7ff}", "\u{800}", "\u{ffff}", "\u{10000}",
    ];
    for a in names {
        for b in names {
            assert_eq!(name_lt(a, b), a < b, "{:?} < {:?}", a, b);
        }
    }
}

#[test]
fn siblings_come_out_as_a_sorted_map_would_give_them() {
    let names = ["zeta", "\u{e9}t\u{e9}", "alpha", "Alpha", "10", "9", "_x", "\u{4e2d}", "beta"];
    let mut root = Node::new();
    let mut map = BTreeMap::new();
    for n in names {
        root.insert(&format!("/{}", n));
        map.insert(n.to_string(), ());
    }
    let mut expected = String::new();
    for (n, _) in &map {
        expected.push_str(n);
        expected.push('\n');
    }
    assert_eq!(root.render(0), expected);
}

#[test]
fn many_siblings_are_found_again() {
    let mut root = Node::new();
    for i in 0..200u32 {
        let k = (i * 37) % 200;
        root.insert(&format!("/dir/f{}", k));
    }
    for i in 0..200u32 {
        assert!(root.get(&format!("/dir/f{}", i)).is_some());
    }
    assert!(root.get("/dir/f200").is_none());
    assert_eq!(root.get("/dir").map(|n| n.render(0).lines().count()), Some(200));
}

#[test]
fn listing_lines_become_paths() {
    let root = Node::from_listing("/\n/system\n/system/bin\n/vendor\n");
    assert_eq!(root.render(0), "system\n  bin\nvendor\n");
}

#[test]
fn listing_takes_carriage_returns_off_line_ends() {
    let root = Node::from_listing("/system\r\n/system/bin\r\n/vendor");
    assert_eq!(root.render(0), "system\n  bin\nvendor\n");
    assert!(root.get("/system/bin").is_some());
}

#[test]
fn listing_in_any_order_gives_the_same_trie() {
    let a = Node::from_listing("/b/x\n/a/y\n/a\n");
    let b = Node::from_listing("/a\n/a/y\n/b/x\n/a/y\n");
    assert_eq!(a.render(0), b.render(0));
    assert_eq!(a.render(0), "a\n  y\nb\n  x\n");
}

#[test]
fn empty_listing_gives_the_empty_trie() {
    assert_eq!(Node::from_listing("").render(0), "");
    assert_eq!(Node::from_listing("\n\n").render(0), "");
}

#[test]
fn both_tree_builders_read_a_listing() {
    let listing = "/data\n/data/adb\n/data/adb/modules\n";
    assert_eq!(get_android_tree(listing).render(0), "data\n  adb\n    modules\n");
    assert_eq!(list_directories(listing).render(0), "data\n  adb\n    modules\n");
}

#[test]
fn listing_queries_stay_on_one_file_system() {
    assert_eq!(android_tree_query(), "find / -xdev");
    assert_eq!(directories_query(), "find / -type d -xdev");
}
