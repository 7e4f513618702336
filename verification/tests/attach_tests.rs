use base64::Engine as _;
use jan_core::attach::{
    name_le, push_entry, sort_children, AttachWalk, DirChild, EntryKind, PathInfo, WalkStep,
    MAX_ENTRIES,
};
use jan_core::attach_store::{
    clean_attach_paths, parse_allowed_attach_paths, present_paths, ATTACH_PATHS_FILE,
};
use jan_core::models::AttachFileEntry;
use jan_core::paths::{
    attach_file_bytes, check_attach_read, is_under_any_allowed_root, path_components,
    path_starts_with,
};

fn child(name: &str, kind: EntryKind, len: Option<u64>) -> DirChild {
    DirChild {
        name: name.to_string(),
        name_is_utf8: true,
        name_bytes: name.as_bytes().to_vec(),
        kind,
        len,
    }
}

fn file(name: &str) -> DirChild {
    child(name, EntryKind::File, Some(2))
}

fn dir(name: &str) -> DirChild {
    child(name, EntryKind::Dir, Some(4096))
}

fn root_info(path: &str) -> PathInfo {
    PathInfo {
        file_name: path.rsplit('/').next().filter(|s| !s.is_empty()).map(|s| s.to_string()),
        path: path.to_string(),
        is_dir: true,
        len: Some(4096),
    }
}

/// Drives a walk over an in-memory tree: `listing` answers each directory.
fn walk_tree(
    roots: &[&str],
    cap: usize,
    listing: &dyn Fn(&str) -> Option<Vec<DirChild>>,
) -> Vec<AttachFileEntry> {
    let mut walk = AttachWalk::new(cap);
    for root in roots {
        let mut step = walk.begin_root(root_info(root));
        while let WalkStep::ReadDir(p) = step {
            step = walk.feed_listing(listing(&p));
        }
        if walk.root_done() {
            break;
        }
    }
    walk.into_entries()
}

fn paths(entries: &[AttachFileEntry]) -> Vec<String> {
    entries.iter().map(|e| e.path.clone()).collect()
}

#[test]
fn walk_collects_files_and_dirs_sorted() {
    let listing = |p: &str| -> Option<Vec<DirChild>> {
        match p {
            "/r" => Some(vec![dir("sub"), file("a.txt")]),
            "/r/sub" => Some(vec![file("b.txt")]),
            _ => None,
        }
    };
    let out = walk_tree(&["/r"], MAX_ENTRIES, &listing);
    let paths = paths(&out);
    assert!(paths.iter().any(|p| p.ends_with("a.txt")));
    assert!(paths.iter().any(|p| p.ends_with("b.txt")));
    assert!(paths.iter().any(|p| p.ends_with("sub")));
    let a_idx = paths.iter().position(|p| p.ends_with("a.txt")).unwrap();
    let sub_idx = paths.iter().position(|p| p.ends_with("sub")).unwrap();
    assert!(a_idx < sub_idx, "files should sort before dirs at the same level");
}

#[test]
fn files_sort_before_dirs_at_the_same_level() {
    let listing = |p: &str| -> Option<Vec<DirChild>> {
        match p {
            "/D" => Some(vec![dir("a"), file("b.txt")]),
            "/D/a" => Some(vec![]),
            _ => None,
        }
    };
    let out = walk_tree(&["/D"], MAX_ENTRIES, &listing);
    assert_eq!(paths(&out), vec!["/D", "/D/b.txt", "/D/a"]);
    let sorted: Vec<String> =
        sort_children(vec![dir("a"), file("c"), dir("0"), file("b")]).into_iter().map(|c| c.name).collect();
    assert_eq!(sorted, vec!["b", "c", "0", "a"]);
}

#[test]
fn walk_skips_hidden_and_noise_dirs() {
    let listing = |p: &str| -> Option<Vec<DirChild>> {
        match p {
            "/r" => Some(vec![
                dir(".hidden"),
                dir("node_modules"),
                dir("ok"),
                file(".env"),
            ]),
            "/r/.hidden" => Some(vec![file("leak.txt")]),
            "/r/node_modules" => Some(vec![file("pkg.json")]),
            "/r/ok" => Some(vec![file("y.txt")]),
            _ => None,
        }
    };
    let out = walk_tree(&["/r"], MAX_ENTRIES, &listing);
    let joined = paths(&out).join("\n");
    assert!(!joined.contains(".env"), "hidden files should be skipped");
    assert!(
        !joined.contains("leak.txt"),
        "hidden dirs should not be descended into"
    );
    assert!(
        !joined.contains("pkg.json"),
        "node_modules should be listed but not walked"
    );
    assert!(joined.contains("y.txt"));
    assert!(joined.contains("node_modules"));
}

#[test]
fn walk_respects_max_entries_cap() {
    let cap_backup = MAX_ENTRIES;
    let listing = move |p: &str| -> Option<Vec<DirChild>> {
        if p == "/r" {
            Some((0..(cap_backup + 50)).map(|i| file(&format!("f{i}"))).collect())
        } else {
            None
        }
    };
    let out = walk_tree(&["/r"], MAX_ENTRIES, &listing);
    assert!(out.len() <= cap_backup, "walk must not exceed the cap");
    assert_eq!(out.len(), cap_backup);
}

#[test]
fn walk_does_not_follow_symlinked_dirs_or_files() {
    let listing = |p: &str| -> Option<Vec<DirChild>> {
        match p {
            "/r" => Some(vec![
                child("escape-dir", EntryKind::Symlink, None),
                child("escape-file", EntryKind::Symlink, None),
                file("ok.txt"),
            ]),
            "/r/escape-dir" => Some(vec![file("secret.txt"), dir("sub")]),
            "/outside/sub" => Some(vec![file("deeper.txt")]),
            _ => None,
        }
    };
    let out = walk_tree(&["/r"], MAX_ENTRIES, &listing);
    let joined = paths(&out).join("\n");
    assert!(joined.contains("ok.txt"), "regular files must still be listed");
    assert!(!joined.contains("escape-dir"), "symlinked dirs must not be listed");
    assert!(!joined.contains("escape-file"), "symlinked files must not be listed");
    assert!(
        !joined.contains("secret.txt"),
        "walk must not follow symlinks and leak outside names"
    );
    assert!(
        !joined.contains("deeper.txt"),
        "walk must not recurse into symlinked dirs"
    );
}

#[test]
fn walk_visits_depth_first_in_name_order() {
    let listing = |p: &str| -> Option<Vec<DirChild>> {
        match p {
            "/r" => Some(vec![file("z"), dir("b"), file("a")]),
            "/r/b" => Some(vec![file("y"), file("x")]),
            _ => None,
        }
    };
    let out = walk_tree(&["/r", "/s"], MAX_ENTRIES, &listing);
    assert_eq!(
        paths(&out),
        vec!["/r", "/r/a", "/r/z", "/r/b", "/r/b/x", "/r/b/y", "/s"]
    );
    assert_eq!(out[0].name, "r");
    assert!(out[0].is_dir);
    assert_eq!(out[0].size, 0);
    assert_eq!(out[1].name, "a");
    assert_eq!(out[1].size, 2);
    assert!(out[3].is_dir && out[3].size == 0);
}

#[test]
fn walk_joins_child_paths_onto_the_directory() {
    let listing = |p: &str| -> Option<Vec<DirChild>> {
        match p {
            "/" => Some(vec![dir("etc")]),
            "/etc" => Some(vec![file("hosts")]),
            _ => None,
        }
    };
    let out = walk_tree(&["/"], MAX_ENTRIES, &listing);
    assert_eq!(paths(&out), vec!["/", "/etc", "/etc/hosts"]);
    assert_eq!(out[0].name, "/");
}

#[test]
fn walk_skips_unreadable_and_other_entries() {
    let listing = |p: &str| -> Option<Vec<DirChild>> {
        match p {
            "/r" => Some(vec![
                child("sock", EntryKind::Other, None),
                child("gone", EntryKind::Unreadable, None),
                dir("locked"),
                file("keep"),
            ]),
            _ => None,
        }
    };
    let out = walk_tree(&["/r"], MAX_ENTRIES, &listing);
    // `locked` cannot be read: listed, but nothing below it.
    assert_eq!(paths(&out), vec!["/r", "/r/keep", "/r/locked"]);
}

#[test]
fn walk_stops_at_cap_across_roots() {
    let listing = |p: &str| -> Option<Vec<DirChild>> {
        match p {
            "/a" => Some(vec![file("1"), file("2")]),
            "/b" => Some(vec![file("3")]),
            _ => None,
        }
    };
    let out = walk_tree(&["/a", "/b"], 3, &listing);
    assert_eq!(paths(&out), vec!["/a", "/a/1", "/a/2"]);
}

#[test]
fn non_utf8_dot_names_are_not_hidden() {
    let listing = |p: &str| -> Option<Vec<DirChild>> {
        if p == "/r" {
            let mut c = file(".\u{FFFD}");
            c.name_is_utf8 = false;
            c.name_bytes = vec![b'.', 0xff];
            Some(vec![c, file(".")])
        } else {
            None
        }
    };
    let out = walk_tree(&["/r"], MAX_ENTRIES, &listing);
    assert_eq!(paths(&out), vec!["/r", "/r/.", "/r/.\u{FFFD}"]);
}

#[test]
fn names_order_by_their_bytes_not_their_lossy_form() {
    // 0xfe sorts before 0xff, though both read as U+FFFD; and before 'z'
    // it would not come by character.
    let mut a = file("\u{FFFD}");
    a.name_is_utf8 = false;
    a.name_bytes = vec![0xff];
    let mut b = file("\u{FFFD}");
    b.name_is_utf8 = false;
    b.name_bytes = vec![0xfe];
    let sorted: Vec<Vec<u8>> =
        sort_children(vec![a, file("z"), b]).into_iter().map(|c| c.name_bytes).collect();
    assert_eq!(sorted, vec![b"z".to_vec(), vec![0xfe], vec![0xff]]);
}

#[test]
fn push_entry_names_and_sizes() {
    let mut out = Vec::new();
    push_entry(
        &mut out,
        PathInfo { file_name: None, path: "/".to_string(), is_dir: true, len: Some(9) },
    );
    push_entry(
        &mut out,
        PathInfo { file_name: Some("f".to_string()), path: "/f".to_string(), is_dir: false, len: None },
    );
    push_entry(
        &mut out,
        PathInfo { file_name: Some("g".to_string()), path: "/g".to_string(), is_dir: false, len: Some(12) },
    );
    assert_eq!(out[0].name, "/");
    assert_eq!(out[0].size, 0);
    assert_eq!(out[1].name, "f");
    assert_eq!(out[1].size, 0);
    assert_eq!(out[2].size, 12);
    assert!(!out[2].is_dir);
}

#[test]
fn sort_by_name_orders_by_characters() {
    let names = ["b", "a", "B", "ab", "", "é", "a"];
    let v: Vec<DirChild> = names.iter().map(|n| file(n)).collect();
    let sorted: Vec<String> = sort_children(v).into_iter().map(|c| c.name).collect();
    assert_eq!(sorted, vec!["", "B", "a", "a", "ab", "b", "é"]);
    assert!(name_le(b"a", b"ab"));
    assert!(!name_le(b"ab", b"a"));
    assert!(name_le(b"", b""));
}

#[test]
fn path_outside_all_roots_is_rejected() {
    let roots = vec!["/tmp/t/inside".to_string()];
    assert!(is_under_any_allowed_root("/tmp/t/outside", &roots) == false);
}

#[test]
fn path_inside_a_root_is_accepted() {
    let roots = vec!["/tmp/t/inside".to_string()];
    assert!(is_under_any_allowed_root("/tmp/t/inside/doc.pdf", &roots));
}

#[test]
fn root_containment_is_by_component() {
    assert!(path_starts_with("/a/b/c", "/a/b"));
    assert!(path_starts_with("/a/b", "/a/b/"));
    assert!(path_starts_with("/a//b/./c", "/a/b"));
    assert!(!path_starts_with("/a/bc", "/a/b"));
    assert!(!path_starts_with("a/b", "/a"));
    assert!(path_starts_with("/anything", "/"));
    assert_eq!(path_components("/a//b/./c/"), vec!["/", "a", "b", "c"]);
    assert_eq!(path_components("./x/.."), vec![".", "x", ".."]);
    assert_eq!(path_components(""), Vec::<String>::new());
}

#[test]
fn attach_read_refusal_messages() {
    let roots = vec!["/data".to_string(), "/home/me".to_string()];
    assert_eq!(
        check_attach_read("/etc/passwd", &roots, true),
        Err("attach-paths: path /etc/passwd is outside the configured allowed_attach_paths.json roots".to_string())
    );
    assert_eq!(
        check_attach_read("/home/me/dir", &roots, false),
        Err("attach-paths: not a file: /home/me/dir".to_string())
    );
    assert_eq!(check_attach_read("/home/me/a.txt", &roots, true), Ok(()));
    assert!(check_attach_read("/x", &Vec::new(), true).is_err());
}

#[test]
fn base64_roundtrips_a_file() {
    let bytes = vec![0u8, 1, 2, 3, 250, 251];
    let out = attach_file_bytes(&bytes);
    assert_eq!(out.base64, "AAECA/r7");
    let decoded = base64::engine::general_purpose::STANDARD.decode(&out.base64).unwrap();
    assert_eq!(decoded, bytes);
    assert_eq!(out.size, 6);
}

#[test]
fn base64_pads_short_files() {
    assert_eq!(attach_file_bytes(&[]).base64, "");
    assert_eq!(attach_file_bytes(b"a").base64, "YQ==");
    assert_eq!(attach_file_bytes(b"ab").base64, "YWI=");
    assert_eq!(attach_file_bytes(b"ab").size, 2);
}

fn parse_like_loader(bytes: &[u8]) -> Vec<String> {
    parse_allowed_attach_paths(bytes)
}

#[test]
fn parses_simple_array() {
    let v = parse_like_loader(br#"["/home/me/docs", "/home/me/projects"]"#);
    assert_eq!(v, vec!["/home/me/docs", "/home/me/projects"]);
}

#[test]
fn missing_file_yields_empty() {
    assert!(parse_like_loader(b"").is_empty());
}

#[test]
fn corrupt_json_yields_empty() {
    assert!(parse_like_loader(b"{not json").is_empty());
}

#[test]
fn non_array_top_level_yields_empty() {
    assert!(parse_like_loader(br#"{"path": "/x"}"#).is_empty());
}

#[test]
fn blank_entries_are_filtered() {
    let v = parse_like_loader(br#"["/a", "  ", "", " /b "]"#);
    assert_eq!(v, vec!["/a", "/b"]);
}

#[test]
fn empty_array_is_valid() {
    assert!(parse_like_loader(b"[]").is_empty());
}

#[test]
fn json_path_is_named_allowed_attach_paths_json() {
    assert_eq!(ATTACH_PATHS_FILE, "allowed_attach_paths.json");
}

#[test]
fn null_entries_are_dropped_like_blank_ones() {
    assert_eq!(parse_like_loader(br#"["/a", null]"#), vec!["/a"]);
    assert_eq!(parse_like_loader(br#"[null, " /b ", null]"#), vec!["/b"]);
}

#[test]
fn non_string_items_reject_the_whole_list() {
    assert!(parse_like_loader(br#"["/a", 3]"#).is_empty());
    assert!(parse_like_loader(br#"["/a", ["/b"]]"#).is_empty());
}

#[test]
fn clean_attach_paths_trims_and_drops_blanks() {
    let v = clean_attach_paths(vec![
        "\t/x\n".to_string(),
        "   ".to_string(),
        "/y".to_string(),
    ]);
    assert_eq!(v, vec!["/x", "/y"]);
}

#[test]
fn present_paths_leave_out_nulls() {
    let v = present_paths(vec![Some("/a".to_string()), None, Some(" ".to_string())]);
    assert_eq!(v, vec!["/a", " "]);
}

#[test]
fn every_entry_lies_under_a_walked_root() {
    let listing = |p: &str| -> Option<Vec<DirChild>> {
        match p {
            "/home/u/docs" => Some(vec![dir("sub"), file("a.txt")]),
            "/home/u/docs/sub" => Some(vec![file("b.txt")]),
            "/srv/data" => Some(vec![file("c.csv"), dir(".git")]),
            _ => None,
        }
    };
    let roots = ["/home/u/docs", "/srv/data"];
    let out = walk_tree(&roots, 100, &listing);
    assert_eq!(
        paths(&out),
        vec![
            "/home/u/docs",
            "/home/u/docs/a.txt",
            "/home/u/docs/sub",
            "/home/u/docs/sub/b.txt",
            "/srv/data",
            "/srv/data/c.csv",
        ]
    );
    for e in &out {
        assert!(roots.iter().any(|r| e.path.starts_with(r)));
    }
    // Each root's own entry comes before those below it.
    assert_eq!(out[0].path, "/home/u/docs");
    assert_eq!(out[4].path, "/srv/data");
}
