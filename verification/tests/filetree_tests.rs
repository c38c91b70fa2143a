use orbit::filetree::{
    ancestor_paths, child_dirs, node_label, path_components, path_depth, DirEntryInfo, NodeFlags,
    MAX_CHILDREN,
};
use std::path::{Component, Path};

const SAMPLES: &[&str] = &[
    "/", "", ".", "..", "/home/user", "/home//user/", "/a/./b/.", "./a/b", "a/../b", "//", "/..",
    "a", "a/", "./", "/usr/local/share", "x/./", "/.hidden/dir",
];

fn std_components(p: &str) -> Vec<Vec<u8>> {
    Path::new(p)
        .components()
        .map(|c| match c {
            Component::RootDir => b"/".to_vec(),
            Component::CurDir => b".".to_vec(),
            Component::ParentDir => b"..".to_vec(),
            Component::Normal(n) => n.to_str().unwrap().as_bytes().to_vec(),
            Component::Prefix(_) => unreachable!(),
        })
        .collect()
}

#[test]
fn components_agree_with_the_standard_library() {
    for p in SAMPLES {
        assert_eq!(path_components(p.as_bytes()), std_components(p), "{:?}", p);
    }
}

#[test]
fn depth_counts_components_below_the_root() {
    assert_eq!(path_depth(b"/"), 0);
    assert_eq!(path_depth(b"/home"), 1);
    assert_eq!(path_depth(b"/home/user/src"), 3);
    assert_eq!(path_depth(b"/home//user/"), 2);
    assert_eq!(path_depth(b""), 0);
    for p in SAMPLES {
        let expected = (Path::new(p).components().count() as u32).saturating_sub(1);
        assert_eq!(path_depth(p.as_bytes()), expected, "{:?}", p);
    }
}

#[test]
fn labels_name_the_last_entry() {
    assert_eq!(node_label(b"/"), b"/".to_vec());
    assert_eq!(node_label(b"//"), b"/".to_vec());
    assert_eq!(node_label(b"/home/user"), b"user".to_vec());
    assert_eq!(node_label(b"/home/user/"), b"user".to_vec());
    assert_eq!(node_label(b"/a/.."), Vec::<u8>::new());
    for p in SAMPLES {
        let path = Path::new(p);
        let expected = if path == Path::new("/") {
            b"/".to_vec()
        } else {
            path.file_name().map(|n| n.to_str().unwrap().as_bytes().to_vec()).unwrap_or_default()
        };
        assert_eq!(node_label(p.as_bytes()), expected, "{:?}", p);
    }
}

#[test]
fn ancestors_run_from_the_root_down() {
    assert_eq!(
        ancestor_paths(b"/home/user"),
        vec![b"/".to_vec(), b"/home".to_vec(), b"/home/user".to_vec()]
    );
    assert_eq!(ancestor_paths(b"/"), vec![b"/".to_vec()]);
    assert_eq!(ancestor_paths(b"a/b"), vec![b"".to_vec(), b"a".to_vec(), b"a/b".to_vec()]);
    for p in SAMPLES {
        let mut expected: Vec<Vec<Vec<u8>>> = Path::new(p)
            .ancestors()
            .map(|a| std_components(a.to_str().unwrap()))
            .collect();
        expected.reverse();
        let got: Vec<Vec<Vec<u8>>> = ancestor_paths(p.as_bytes())
            .iter()
            .map(|a| std_components(std::str::from_utf8(a).unwrap()))
            .collect();
        assert_eq!(got, expected, "{:?}", p);
    }
}

fn entry(name: &str, is_dir: bool) -> DirEntryInfo {
    DirEntryInfo { name: name.as_bytes().to_vec(), is_dir }
}

#[test]
fn children_are_sorted_directories() {
    let entries = vec![
        entry("src", true),
        entry("README.md", false),
        entry(".git", true),
        entry("Docs", true),
        entry("build", true),
        entry("a.txt", false),
        entry("bin", true),
    ];
    let shown = child_dirs(&entries, false);
    assert_eq!(shown, vec![b"Docs".to_vec(), b"bin".to_vec(), b"build".to_vec(), b"src".to_vec()]);
    let all = child_dirs(&entries, true);
    assert_eq!(
        all,
        vec![b".git".to_vec(), b"Docs".to_vec(), b"bin".to_vec(), b"build".to_vec(), b"src".to_vec()]
    );
    assert_eq!(child_dirs(&vec![], true), Vec::<Vec<u8>>::new());
}

#[test]
fn children_sort_like_paths() {
    let names = ["b", "a", "ab", "a-b", "Z", "aa", "\u{e9}t\u{e9}", "_x", "a0"];
    let entries: Vec<DirEntryInfo> = names.iter().map(|n| entry(n, true)).collect();
    let mut expected: Vec<std::path::PathBuf> = names.iter().map(|n| Path::new("/r").join(n)).collect();
    expected.sort();
    let expected: Vec<Vec<u8>> =
        expected.iter().map(|p| p.file_name().unwrap().to_str().unwrap().as_bytes().to_vec()).collect();
    assert_eq!(child_dirs(&entries, true), expected);
}

#[test]
fn at_most_two_hundred_children() {
    let entries: Vec<DirEntryInfo> = (0..250).rev().map(|k| entry(&format!("d{:03}", k), true)).collect();
    let shown = child_dirs(&entries, false);
    assert_eq!(shown.len(), MAX_CHILDREN);
    assert_eq!(shown[0], b"d000".to_vec());
    assert_eq!(shown[199], b"d199".to_vec());
}

#[test]
fn nodes_read_their_children_once() {
    let mut f = NodeFlags::new();
    assert!(f.expand());
    assert!(!f.expand());
    f.collapse();
    assert!(!f.expanded && f.loaded);
    assert!(!f.toggle());
    assert!(f.expanded);
    assert!(!f.toggle());
    assert!(!f.expanded);
    let mut g = NodeFlags::new();
    assert!(g.toggle());
}

#[test]
fn listing_ignores_the_order_entries_come_in() {
    let names = ["zeta", "alpha", ".cache", "mid", "Alpha"];
    let forward: Vec<DirEntryInfo> = names.iter().map(|n| entry(n, true)).collect();
    let backward: Vec<DirEntryInfo> = names.iter().rev().map(|n| entry(n, true)).collect();
    assert_eq!(child_dirs(&forward, true), child_dirs(&backward, true));
    assert_eq!(child_dirs(&forward, false), child_dirs(&backward, false));
}
