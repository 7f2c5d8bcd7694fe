use neocities_deploy::deploy::Action;
use neocities_deploy::fingerprint::{fingerprint, to_hex};
use neocities_deploy::order::{compare_paths, is_inside, PathOrder};
use neocities_deploy::response::ListEntry;
use neocities_deploy::text::replace_char;
use neocities_deploy::trees::{
    add_walked, ends_with_segment, insert_sorted, is_listing_complete, local_tree, remote_tree,
    Entry, FileInfo, Found, TreeError, Walked, NEOCITIES_IGNORE,
};

const HELLO_SHA1: &str = "943a702d06f34599aee1f8da8ef9f7296031d699";
const GOODBYE_SHA1: &str = "fcb7246c878762b3f752a6e1fc8573f154fffdec";
const ROOT: &str = "/tmp/site";

fn found_file(relative: &str, content: &[u8]) -> Walked {
    Walked::Found(Found {
        relative: Some(relative.to_owned()),
        shown: format!("{:?}", format!("{}/{}", ROOT, relative)),
        local_path: format!("{}/{}", ROOT, relative),
        is_dir: false,
        content: content.to_vec(),
    })
}

fn found_dir(relative: &str) -> Walked {
    Walked::Found(Found {
        relative: Some(relative.to_owned()),
        shown: format!("{:?}", format!("{}/{}", ROOT, relative)),
        local_path: if relative.is_empty() {
            ROOT.to_owned()
        } else {
            format!("{}/{}", ROOT, relative)
        },
        is_dir: true,
        content: Vec::new(),
    })
}

/// What a walk finds in a small site: two files named `hello`, a directory
/// with a file, an empty directory, and the ignore file, which names
/// `ignored`, so that the walk never comes to `subdir/ignored`.
fn create_local_tree() -> Vec<Walked> {
    vec![
        found_dir(""),
        found_file(NEOCITIES_IGNORE, b"ignored"),
        found_dir("subdir"),
        found_file("subdir/goodbye", b"Goodbye, world!"),
        found_file("hello.txt", b"Hello, world!"),
        found_dir("empty"),
        found_file("hello", b"Hello, world!"),
    ]
}

#[test]
fn test_local_tree() {
    let steps = create_local_tree();
    let tree = local_tree(&steps, '/', false).unwrap();
    let paths: Vec<&str> = tree.iter().map(|e| e.path.as_str()).collect();
    assert_eq!(paths, ["empty", "hello", "hello.txt", "subdir", "subdir/goodbye"]);
    let sizes: Vec<Option<u64>> = tree.iter().map(|e| e.info.as_ref().map(|i| i.size)).collect();
    assert_eq!(sizes, [None, Some(13), Some(13), None, Some(15)]);
    let sums: Vec<Option<&str>> =
        tree.iter().map(|e| e.info.as_ref().map(|i| i.sha1_sum.as_str())).collect();
    assert_eq!(
        sums,
        [None, Some(HELLO_SHA1), Some(HELLO_SHA1), None, Some(GOODBYE_SHA1)]
    );
    let local_paths: Vec<String> = tree.iter().map(|e| e.local_path.clone().unwrap()).collect();
    let expected: Vec<String> = ["empty", "hello", "hello.txt", "subdir", "subdir/goodbye"]
        .iter()
        .map(|e| format!("{}/{}", ROOT, e))
        .collect();
    assert_eq!(local_paths, expected);
}

#[test]
fn test_local_tree_free_account() {
    let steps = create_local_tree();
    let tree = local_tree(&steps, '/', true).unwrap();
    let paths: Vec<String> = tree.iter().map(|e| e.path.clone()).collect();
    assert_eq!(paths, ["empty", "hello.txt", "subdir"]);
}

#[test]
fn local_tree_of_nothing_is_empty() {
    assert_eq!(local_tree(&[], '/', false), Ok(vec![]));
    assert_eq!(local_tree(&[found_dir("")], '/', true), Ok(vec![]));
}

#[test]
fn local_tree_normalizes_the_separator() {
    let steps = vec![Walked::Found(Found {
        relative: Some("images\\cats\\tom.png".to_owned()),
        shown: "\"C:\\\\site\\\\images\\\\cats\\\\tom.png\"".to_owned(),
        local_path: "\\\\?\\C:\\site\\images\\cats\\tom.png".to_owned(),
        is_dir: false,
        content: b"Hello, world!".to_vec(),
    })];
    let tree = local_tree(&steps, '\\', false).unwrap();
    assert_eq!(tree.len(), 1);
    assert_eq!(tree[0].path, "images/cats/tom.png");
    assert_eq!(tree[0].local_path.as_deref(), Some("\\\\?\\C:\\site\\images\\cats\\tom.png"));
}

#[test]
fn trees_of_two_systems_are_planned_alike() {
    let unix = vec![found_dir("images"), found_file("images/cat.png", b"Hello, world!")];
    let windows = vec![
        Walked::Found(Found {
            relative: Some("images".to_owned()),
            shown: String::new(),
            local_path: "C:\\site\\images".to_owned(),
            is_dir: true,
            content: Vec::new(),
        }),
        Walked::Found(Found {
            relative: Some("images\\cat.png".to_owned()),
            shown: String::new(),
            local_path: "C:\\site\\images\\cat.png".to_owned(),
            is_dir: false,
            content: b"Hello, world!".to_vec(),
        }),
    ];
    let a = local_tree(&unix, '/', false).unwrap();
    let b = local_tree(&windows, '\\', false).unwrap();
    let paths_a: Vec<&str> = a.iter().map(|e| e.path.as_str()).collect();
    let paths_b: Vec<&str> = b.iter().map(|e| e.path.as_str()).collect();
    assert_eq!(paths_a, paths_b);
    let remote = vec![
        Entry { path: "images".to_owned(), info: None, local_path: None },
        Entry {
            path: "images/cat.png".to_owned(),
            info: Some(FileInfo { size: 13, sha1_sum: HELLO_SHA1.to_owned() }),
            local_path: None,
        },
    ];
    assert_eq!(Action::make_strategy(a, remote.clone()), vec![]);
    assert_eq!(Action::make_strategy(b, remote), vec![]);
}

#[test]
fn separator_is_kept_where_it_is_the_slash() {
    let tree = local_tree(&[found_file("a\\b.txt", b"x")], '/', false).unwrap();
    assert_eq!(tree[0].path, "a\\b.txt");
    assert_eq!(replace_char("a\\b\\c", '\\', '/'), "a/b/c");
    assert_eq!(replace_char("a/b", '/', '/'), "a/b");
    assert_eq!(replace_char("", '\\', '/'), "");
}

#[test]
fn local_tree_reports_the_first_failure() {
    let bad_path = Walked::Found(Found {
        relative: None,
        shown: "\"/tmp/site/caf\\xE9\"".to_owned(),
        local_path: String::new(),
        is_dir: false,
        content: Vec::new(),
    });
    let steps = vec![
        found_file("a.txt", b"a"),
        bad_path,
        Walked::Failed("Permission denied (os error 13)".to_owned()),
    ];
    assert_eq!(
        local_tree(&steps, '/', false),
        Err(TreeError::NonUtf8Path("\"/tmp/site/caf\\xE9\"".to_owned()))
    );
    let steps = vec![
        found_file("a.txt", b"a"),
        Walked::Failed("Permission denied (os error 13)".to_owned()),
        found_file("b.txt", b"b"),
    ];
    assert_eq!(
        local_tree(&steps, '/', false),
        Err(TreeError::Io("Permission denied (os error 13)".to_owned()))
    );
}

#[test]
fn add_walked_builds_the_tree_step_by_step() {
    let mut tree = Vec::new();
    for step in create_local_tree() {
        add_walked(&mut tree, &step, '/', true).unwrap();
    }
    let paths: Vec<&str> = tree.iter().map(|e| e.path.as_str()).collect();
    assert_eq!(paths, ["empty", "hello.txt", "subdir"]);
    let before = tree.clone();
    let failed = Walked::Failed("gone".to_owned());
    assert_eq!(add_walked(&mut tree, &failed, '/', true), Err(TreeError::Io("gone".to_owned())));
    assert_eq!(tree, before);
}

#[test]
fn excluded_extension_is_treated_as_locally_absent() {
    let steps = vec![found_file("tool.exe", b"Hello, world!")];
    let remote = vec![Entry {
        path: "tool.exe".to_owned(),
        info: Some(FileInfo { size: 13, sha1_sum: HELLO_SHA1.to_owned() }),
        local_path: None,
    }];
    let gated = local_tree(&steps, '/', true).unwrap();
    assert_eq!(gated, vec![]);
    assert_eq!(
        Action::make_strategy(gated, remote.clone()),
        vec![Action::DeleteRemote(remote[0].clone())]
    );
    let open = local_tree(&steps, '/', false).unwrap();
    assert_eq!(Action::make_strategy(open, remote), vec![]);
}

#[test]
fn directories_pass_the_extension_gate() {
    let tree = local_tree(&[found_dir("backup.exe")], '/', true).unwrap();
    assert_eq!(tree.len(), 1);
    assert_eq!(tree[0].path, "backup.exe");
    assert!(!tree[0].is_file());
}

#[test]
fn ignore_file_is_dropped_in_every_directory() {
    let steps = vec![
        found_file("docs/.neocitiesignore", b"*.bak"),
        found_file("docs/x.neocitiesignore", b"kept"),
        found_file("docs/index.html", b"<html>"),
    ];
    let tree = local_tree(&steps, '/', false).unwrap();
    let paths: Vec<&str> = tree.iter().map(|e| e.path.as_str()).collect();
    assert_eq!(paths, ["docs/index.html", "docs/x.neocitiesignore"]);
    assert!(ends_with_segment("/a/b/.neocitiesignore", '/', NEOCITIES_IGNORE));
    assert!(ends_with_segment(".neocitiesignore", '/', NEOCITIES_IGNORE));
    assert!(!ends_with_segment("/a/.neocitiesignore/b", '/', NEOCITIES_IGNORE));
    assert!(!ends_with_segment("/a/.neocitiesignore/", '/', NEOCITIES_IGNORE));
    assert!(ends_with_segment("C:\\a\\.neocitiesignore", '\\', NEOCITIES_IGNORE));
}

#[test]
fn fingerprint_is_length_and_sha1() {
    let info = fingerprint(b"Hello, world!");
    assert_eq!(info, FileInfo { size: 13, sha1_sum: HELLO_SHA1.to_owned() });
    let info = fingerprint(b"Goodbye, world!");
    assert_eq!(info, FileInfo { size: 15, sha1_sum: GOODBYE_SHA1.to_owned() });
    let info = fingerprint(b"");
    assert_eq!(info.size, 0);
    assert_eq!(info.sha1_sum, "da39a3ee5e6b4b0d3255bfef95601890afd80709");
    assert_eq!(fingerprint(b"hello world").sha1_sum, "2aae6c35c94fcfb415dbe95f408b9ce91ee846ed");
}

#[test]
fn digests_of_a_local_tree_are_forty_hex_digits() {
    let steps = vec![
        found_file("a.bin", &[0xff; 1000]),
        found_file("b.txt", b""),
        found_dir("c"),
        found_file("c/d.html", b"<html></html>"),
    ];
    let tree = local_tree(&steps, '/', false).unwrap();
    assert_eq!(tree.len(), 4);
    for entry in &tree {
        if let Some(info) = &entry.info {
            assert_eq!(info.sha1_sum.len(), 40);
            assert!(info.sha1_sum.chars().all(|c| matches!(c, '0'..='9' | 'a'..='f')));
        }
    }
    assert_eq!(tree.iter().filter(|e| e.is_file()).count(), 3);
}

#[test]
fn hex_is_lower_case_with_two_digits_a_byte() {
    assert_eq!(to_hex(&[]), "");
    assert_eq!(to_hex(&[0x00, 0x09, 0x0a, 0x10, 0xbe, 0xef, 0xff]), "00090a10beefff");
}

fn record(path: &str, size: Option<u64>, hash: Option<&str>) -> ListEntry {
    ListEntry {
        path: path.to_owned(),
        is_directory: size.is_none(),
        updated_at: "Sat, 13 Feb 2016 03:04:00 -0000".to_owned(),
        size,
        sha1_hash: hash.map(|h| h.to_owned()),
    }
}

#[test]
fn remote_tree_is_sorted_by_path() {
    let list = vec![
        record("index.html", Some(1023), Some("c8aac06f343c962a24a7eb111aad739ff48b7fb1")),
        record("not_found.html", Some(271), Some("cfdf0bda2557c322be78302da23c32fec72ffc0b")),
        record("images", None, None),
        record("images/cat.png", Some(16793), Some("41fe08fc0dd44e79f799d03ece903e62be25dc7d")),
    ];
    assert!(is_listing_complete(&list));
    let tree = remote_tree(&list);
    let paths: Vec<&str> = tree.iter().map(|e| e.path.as_str()).collect();
    assert_eq!(paths, ["images", "images/cat.png", "index.html", "not_found.html"]);
    assert_eq!(tree[0].info, None);
    assert_eq!(
        tree[1].info,
        Some(FileInfo {
            size: 16793,
            sha1_sum: "41fe08fc0dd44e79f799d03ece903e62be25dc7d".to_owned()
        })
    );
    assert!(tree.iter().all(|e| e.local_path.is_none()));
    assert_eq!(remote_tree(&[]), vec![]);
}

#[test]
fn incomplete_listing_is_told_apart() {
    let mut broken = record("a.txt", Some(1), None);
    assert!(!broken.is_complete());
    assert!(!is_listing_complete(&[record("dir", None, None), record("a.txt", Some(1), None)]));
    broken.sha1_hash = Some(HELLO_SHA1.to_owned());
    assert!(broken.is_complete());
    let mut no_size = record("a.txt", Some(1), Some(HELLO_SHA1));
    no_size.size = None;
    assert!(!no_size.is_complete());
}

#[test]
fn entries_of_one_path_keep_their_order() {
    let mut tree = Vec::new();
    for (path, size) in [("b", 1), ("a", 2), ("b", 3), ("a", 4), ("c", 5), ("b", 6)] {
        let entry = Entry {
            path: path.to_owned(),
            info: Some(FileInfo { size, sha1_sum: HELLO_SHA1.to_owned() }),
            local_path: None,
        };
        insert_sorted(&mut tree, entry);
    }
    let order: Vec<(&str, u64)> =
        tree.iter().map(|e| (e.path.as_str(), e.info.as_ref().unwrap().size)).collect();
    assert_eq!(order, [("a", 2), ("a", 4), ("b", 1), ("b", 3), ("b", 6), ("c", 5)]);
}

#[test]
fn paths_are_ordered_by_their_bytes() {
    assert_eq!(compare_paths("a", "b"), PathOrder::Before);
    assert_eq!(compare_paths("b", "a"), PathOrder::After);
    assert_eq!(compare_paths("a", "a"), PathOrder::Same);
    assert_eq!(compare_paths("", ""), PathOrder::Same);
    assert_eq!(compare_paths("", "a"), PathOrder::Before);
    assert_eq!(compare_paths("dir", "dir/x"), PathOrder::Before);
    assert_eq!(compare_paths("dir-b", "dir/a"), PathOrder::Before);
    assert_eq!(compare_paths("dir/a", "dir.txt"), PathOrder::After);
    assert_eq!(compare_paths("Z", "a"), PathOrder::Before);
    assert_eq!(compare_paths("z", "\u{e9}"), PathOrder::Before);
    assert_eq!(compare_paths("\u{ffff}", "\u{10000}"), PathOrder::Before);
    for (a, b) in [("a", "b"), ("dir", "dir/x"), ("caf\u{e9}", "cafe"), ("x", "x")] {
        let expected = match a.cmp(b) {
            std::cmp::Ordering::Less => PathOrder::Before,
            std::cmp::Ordering::Equal => PathOrder::Same,
            std::cmp::Ordering::Greater => PathOrder::After,
        };
        assert_eq!(compare_paths(a, b), expected);
    }
}

#[test]
fn inside_means_behind_the_directory_and_a_slash() {
    assert!(is_inside("dir", "dir/x.txt"));
    assert!(is_inside("dir", "dir/"));
    assert!(is_inside("dir", "dir/sub/x.txt"));
    assert!(is_inside("", "/x"));
    assert!(!is_inside("dir", "dir"));
    assert!(!is_inside("dir", "dir.txt"));
    assert!(!is_inside("dir", "dirA/x"));
    assert!(!is_inside("dir/x", "dir"));
    assert!(!is_inside("dirA", "dirB/x.txt"));
    for (d, p) in [("dir", "dir/x"), ("a", "b/a/"), ("caf\u{e9}", "caf\u{e9}/x")] {
        assert_eq!(is_inside(d, p), p.starts_with(&format!("{}/", d)));
    }
}

#[test]
fn entry_knows_file_from_directory() {
    let file = Entry {
        path: "a".to_owned(),
        info: Some(FileInfo { size: 13, sha1_sum: HELLO_SHA1.to_owned() }),
        local_path: None,
    };
    let same_elsewhere = Entry {
        path: "b".to_owned(),
        info: Some(FileInfo { size: 13, sha1_sum: HELLO_SHA1.to_owned() }),
        local_path: Some("/x/b".to_owned()),
    };
    let other_digest = Entry {
        path: "a".to_owned(),
        info: Some(FileInfo { size: 13, sha1_sum: GOODBYE_SHA1.to_owned() }),
        local_path: None,
    };
    let dir = Entry { path: "a".to_owned(), info: None, local_path: None };
    assert!(file.is_file());
    assert!(!dir.is_file());
    assert!(file.is_same(&same_elsewhere));
    assert!(!file.is_same(&other_digest));
    assert!(!file.is_same(&dir));
    assert!(dir.is_same(&dir.clone()));
}
