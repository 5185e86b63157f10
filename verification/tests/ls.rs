use imperium::commands::git::{ReportedStatus, StatusMap, INDEX_NEW, WT_MODIFIED, WT_NEW};
use imperium::commands::ls::{
    extension_icon, extension_of, fixed_icon, path_extension_of, DirChild, DirRead, DirSnapshot,
    FileMeta, Icon, ListError, EXECUTABLE, USER_PERM,
};
use imperium::commands::DEntry;
use imperium::style::RGB;

fn file(mode: u32, size: u64) -> FileMeta {
    FileMeta {
        path: String::new(),
        mode: 0o100000 | mode,
        size,
        is_dir: false,
        is_symlink: false,
        link_target: None,
    }
}

fn dir(mode: u32) -> FileMeta {
    FileMeta {
        path: "/srv/data".to_string(),
        mode: 0o040000 | mode,
        size: 4096,
        is_dir: true,
        is_symlink: false,
        link_target: None,
    }
}

fn at(path: &str, meta: FileMeta) -> FileMeta {
    FileMeta { path: path.to_string(), ..meta }
}

fn link(to: &str, target: FileMeta) -> FileMeta {
    FileMeta { is_symlink: true, link_target: Some(to.to_string()), ..target }
}

fn child(name: &str, meta: FileMeta) -> DirChild {
    let path = format!("/srv/data/{}", name);
    DirChild { name: Some(name.to_string()), meta: Some(at(&path, meta)) }
}

fn listing(snapshot: DirSnapshot) -> Result<Vec<DEntry>, ListError> {
    DEntry::read_path(&DirRead::Listed(snapshot))
}

fn snapshot(children: Vec<DirChild>) -> DirSnapshot {
    DirSnapshot {
        own: Some(dir(0o755)),
        parent: Some(Some(dir(0o755))),
        children,
        statuses: None,
    }
}

fn names(list: &[DEntry]) -> Vec<&str> {
    list.iter().map(|e| e.name.as_str()).collect()
}

fn icon(glyph: char, color: &str) -> Icon {
    Icon { glyph, color: color.to_string() }
}

#[test]
fn mode_masks_are_the_owner_bits() {
    assert_eq!(USER_PERM, 0o700);
    assert_eq!(EXECUTABLE, 0o100);
}

#[test]
fn extension_of_is_what_follows_the_last_dot_in_lower_case() {
    assert_eq!(extension_of("index.js"), "js");
    assert_eq!(extension_of("INDEX.JS"), "js");
    assert_eq!(extension_of("archive.tar.GZ"), "gz");
    assert_eq!(extension_of(".bashrc"), "bashrc");
    assert_eq!(extension_of("Makefile"), "");
    assert_eq!(extension_of("trailing."), "");
    assert_eq!(extension_of(""), "");
    assert_eq!(extension_of(".."), "");
    assert_eq!(extension_of("a.b/c"), "b/c");
}

#[test]
fn path_extension_of_looks_at_the_last_component_only() {
    assert_eq!(path_extension_of("/srv/data/index.js"), "js");
    assert_eq!(path_extension_of("/srv/data/INDEX.Js"), "js");
    assert_eq!(path_extension_of("/srv/data.d/index"), "");
    assert_eq!(path_extension_of("/srv/data.d/"), "d");
    assert_eq!(path_extension_of("/srv/data.d/."), "d");
    assert_eq!(path_extension_of("/srv/data.d/.."), "");
    assert_eq!(path_extension_of("."), "");
    assert_eq!(path_extension_of("index.tar.gz"), "gz");
    assert_eq!(path_extension_of("/srv/.profile"), "profile");
    assert_eq!(path_extension_of("/"), "");
    assert_eq!(path_extension_of(""), "");
}

#[test]
fn fixed_icon_knows_makefiles_and_javascript() {
    assert_eq!(fixed_icon("Makefile", ""), Some(icon('\u{1c323}', "#393552")));
    assert_eq!(fixed_icon("makefile", ""), Some(icon('\u{1c323}', "#393552")));
    assert_eq!(fixed_icon("index.js", "js"), Some(icon('\u{e781}', "#f7df1e")));
    assert_eq!(fixed_icon("index.JS", "JS"), Some(icon('\u{e781}', "#f7df1e")));
    assert_eq!(fixed_icon("MAKEFILE", ""), None);
    assert_eq!(fixed_icon("Makefile.am", "am"), None);
    assert_eq!(fixed_icon("index.jsx", "jsx"), None);
    assert_eq!(fixed_icon("main.rs", "rs"), None);
}

#[test]
fn makefile_icon_wins_over_the_extension() {
    assert_eq!(fixed_icon("Makefile", "js"), Some(icon('\u{1c323}', "#393552")));
    assert_eq!(extension_icon("Makefile", "js", false), icon('\u{1c323}', "#393552"));
    assert_eq!(extension_icon("makefile", "rs", false), icon('\u{1c323}', "#393552"));
}

#[test]
fn javascript_icon_goes_by_the_extension() {
    assert_eq!(extension_icon("index.js", "js", false), icon('\u{e781}', "#f7df1e"));
    assert_eq!(extension_icon("anything", "js", false), icon('\u{e781}', "#f7df1e"));
}

#[test]
fn directories_have_the_directory_icon_whatever_their_name() {
    for name in [".", "..", "src", "Makefile", "index.js", "node_modules", ""] {
        assert_eq!(
            extension_icon(name, extension_of(name).as_str(), true),
            icon('\u{f115}', "#7e8ea8"),
            "{:?}",
            name
        );
    }
}

#[test]
fn other_files_have_the_icon_of_the_database() {
    assert_eq!(extension_icon("notes.txt", "txt", false), icon('\u{f0219}', "#89e051"));
    assert_eq!(extension_icon("LIB.RS", "rs", false), icon('\u{e68b}', "#dea584"));
    let unknown = extension_icon("no-such-kind.zzzz", "zzzz", false);
    assert_eq!(unknown, icon('*', "#7e8ea8"));
}

#[test]
fn database_colours_can_be_read() {
    for name in ["notes.txt", "Cargo.toml", "a.py", "b.C", "LICENSE", ".gitignore", "x", ""] {
        let found = extension_icon(name, extension_of(name).as_str(), false);
        assert!(RGB::hex_to_rgb(found.color.as_str()).is_ok(), "{:?}", name);
        assert_eq!(found.color.len(), 7);
    }
}

#[test]
fn from_path_keeps_the_owner_bits_only() {
    let map = StatusMap::new();
    let entry = DEntry::from_path(&file(0o754, 12), "run.sh", &map);
    assert_eq!(entry.user_perm, 0o700);
    assert_eq!(entry.size, 12);
    assert_eq!(entry.name, "run.sh");
    assert_eq!(entry.symlink, None);
    assert_eq!(entry.git_status, None);
    assert!(!entry.is_dir);
    assert!(entry.is_exec);
    let entry = DEntry::from_path(&file(0o644, 0), "a.txt", &map);
    assert_eq!(entry.user_perm, 0o600);
    assert!(!entry.is_exec);
}

#[test]
fn from_path_takes_the_execute_bit_of_the_owner_alone() {
    let map = StatusMap::new();
    assert!(!DEntry::from_path(&file(0o611, 0), "a", &map).is_exec);
    assert!(!DEntry::from_path(&file(0o677, 0), "a", &map).is_exec);
    assert!(DEntry::from_path(&file(0o100, 0), "a", &map).is_exec);
}

#[test]
fn from_path_keeps_the_target_of_a_link_and_the_kind_of_what_it_leads_to() {
    let map = StatusMap::new();
    let entry = DEntry::from_path(&link("/tmp/target", dir(0o755)), "link", &map);
    assert_eq!(entry.symlink, Some("/tmp/target".to_string()));
    assert!(entry.is_dir);
    assert_eq!(entry.icon, icon('\u{f115}', "#7e8ea8"));
    let entry = DEntry::from_path(&link("a.txt", file(0o644, 3)), "link", &map);
    assert_eq!(entry.symlink, Some("a.txt".to_string()));
    assert!(!entry.is_dir);
}

#[test]
fn from_path_has_no_target_where_the_path_is_no_link() {
    let map = StatusMap::new();
    let meta = FileMeta { link_target: Some("stray".to_string()), ..file(0o644, 1) };
    assert_eq!(DEntry::from_path(&meta, "a", &map).symlink, None);
    let unread = FileMeta { is_symlink: true, link_target: None, ..file(0o644, 1) };
    assert_eq!(DEntry::from_path(&unread, "a", &map).symlink, None);
}

#[test]
fn from_path_looks_the_status_up_by_name() {
    let mut map = StatusMap::new();
    map.insert("a.txt".to_string(), WT_MODIFIED);
    assert_eq!(DEntry::from_path(&file(0o644, 1), "a.txt", &map).git_status, Some(WT_MODIFIED));
    assert_eq!(DEntry::from_path(&file(0o644, 1), "b.txt", &map).git_status, None);
}

#[test]
fn from_path_picks_the_icon_by_name_and_extension() {
    let map = StatusMap::new();
    let icon_of = |path: &str, name: &str| DEntry::from_path(&at(path, file(0o644, 1)), name, &map).icon;
    assert_eq!(icon_of("/srv/Makefile", "Makefile"), icon('\u{1c323}', "#393552"));
    assert_eq!(icon_of("/srv/index.js", "index.js"), icon('\u{e781}', "#f7df1e"));
    assert_eq!(icon_of("/srv/APP.JS", "APP.JS"), icon('\u{e781}', "#f7df1e"));
    assert_eq!(icon_of("/srv/notes.txt", "notes.txt"), icon('\u{f0219}', "#89e051"));
}

#[test]
fn from_path_takes_the_extension_of_the_path() {
    let map = StatusMap::new();
    let icon_of = |path: &str, name: &str| DEntry::from_path(&at(path, file(0o644, 1)), name, &map).icon;
    assert_eq!(icon_of("/srv/\u{fffd}.js", "unknown name"), icon('\u{e781}', "#f7df1e"));
    assert_eq!(icon_of("/srv/plain", "index.js"), icon('\u{e60c}', "#cbcb41"));
    assert_eq!(icon_of("/srv.js/plain", "plain"), icon('*', "#7e8ea8"));
}

#[test]
fn new_lists_a_child_without_a_readable_name_under_a_placeholder() {
    let map = StatusMap::new();
    let nameless = DirChild { name: None, meta: Some(file(0o644, 5)) };
    let entry = DEntry::new(&nameless, &map).unwrap();
    assert_eq!(entry.name, "unknown name");
    assert_eq!(entry.size, 5);
}

#[test]
fn new_fails_without_metadata() {
    let map = StatusMap::new();
    let unread = DirChild { name: Some("a".to_string()), meta: None };
    assert_eq!(DEntry::new(&unread, &map), Err(ListError::Io));
}

#[test]
fn read_path_lists_directories_before_files() {
    let list = listing(snapshot(vec![
        child("a.txt", file(0o644, 12)),
        child("sub", dir(0o755)),
    ]))
    .unwrap();
    assert_eq!(names(&list), vec![".", "..", "sub", "a.txt"]);
    assert_eq!(list[2].user_perm >> 6, 7);
    assert_eq!(list[3].user_perm >> 6, 6);
}

#[test]
fn read_path_keeps_the_given_order_within_each_kind() {
    let list = listing(snapshot(vec![
        child("zeta", file(0o644, 1)),
        child("beta", dir(0o755)),
        child("alpha", file(0o644, 1)),
        child("delta", dir(0o755)),
        child("Alpha", dir(0o700)),
        child("0", file(0o600, 1)),
    ]))
    .unwrap();
    assert_eq!(names(&list), vec![".", "..", "beta", "delta", "Alpha", "zeta", "alpha", "0"]);
}

#[test]
fn read_path_of_an_empty_directory_has_the_two_synthetic_entries() {
    let list = listing(snapshot(vec![])).unwrap();
    assert_eq!(names(&list), vec![".", ".."]);
    assert!(list[0].is_dir && list[1].is_dir);
}

#[test]
fn read_path_builds_the_synthetic_entries_from_their_own_metadata() {
    let mut s = snapshot(vec![child("a", file(0o644, 1))]);
    s.own = Some(FileMeta { size: 111, ..dir(0o700) });
    s.parent = Some(Some(FileMeta { size: 222, ..dir(0o500) }));
    let list = listing(s.clone()).unwrap();
    assert_eq!((list[0].name.as_str(), list[0].size, list[0].user_perm), (".", 111, 0o700));
    assert_eq!((list[1].name.as_str(), list[1].size, list[1].user_perm), ("..", 222, 0o500));
}

#[test]
fn read_path_takes_the_directory_for_a_missing_parent() {
    let mut s = snapshot(vec![]);
    s.own = Some(FileMeta { size: 111, ..dir(0o755) });
    s.parent = None;
    let list = listing(s.clone()).unwrap();
    assert_eq!(names(&list), vec![".", ".."]);
    assert_eq!(list[1].size, 111);
}

#[test]
fn read_path_keeps_files_named_like_the_synthetic_entries_after_them() {
    let list = listing(snapshot(vec![child("..", file(0o644, 1)), child(".", dir(0o755))]))
        .unwrap();
    assert_eq!(names(&list), vec![".", "..", ".", ".."]);
    assert!(list[2].is_dir && !list[3].is_dir);
}

#[test]
fn read_path_fails_as_a_whole_where_metadata_is_missing() {
    let mut s = snapshot(vec![
        child("a", file(0o644, 1)),
        DirChild { name: Some("b".to_string()), meta: None },
        child("c", dir(0o755)),
    ]);
    assert_eq!(listing(s.clone()), Err(ListError::Io));
    s.children.remove(1);
    assert!(listing(s.clone()).is_ok());
    s.own = None;
    assert_eq!(listing(s.clone()), Err(ListError::Io));
    s.own = Some(dir(0o755));
    s.parent = Some(None);
    assert_eq!(listing(s.clone()), Err(ListError::Io));
    s.parent = None;
    assert!(listing(s.clone()).is_ok());
}

#[test]
fn read_path_fails_where_the_directory_was_not_read() {
    assert_eq!(DEntry::read_path(&DirRead::Unresolved), Err(ListError::Path));
    assert_eq!(DEntry::read_path(&DirRead::Unreadable), Err(ListError::Io));
}

#[test]
fn read_path_attaches_statuses_by_name() {
    let mut s = snapshot(vec![
        child("staged.txt", file(0o644, 1)),
        child("modified.txt", file(0o644, 1)),
        child("new.txt", file(0o644, 1)),
        child("clean.txt", file(0o644, 1)),
        child("docs", dir(0o755)),
    ]);
    s.statuses = Some(vec![
        ReportedStatus { path: Some("dir/staged.txt".to_string()), status: INDEX_NEW },
        ReportedStatus { path: Some("dir/modified.txt".to_string()), status: WT_MODIFIED },
        ReportedStatus { path: Some("dir/new.txt".to_string()), status: WT_NEW },
        ReportedStatus { path: Some("dir/docs/".to_string()), status: WT_NEW },
    ]);
    let list = listing(s.clone()).unwrap();
    let status: Vec<(&str, Option<u32>)> =
        list.iter().map(|e| (e.name.as_str(), e.git_status)).collect();
    assert_eq!(
        status,
        vec![
            (".", None),
            ("..", None),
            ("docs", Some(WT_NEW)),
            ("staged.txt", Some(INDEX_NEW)),
            ("modified.txt", Some(WT_MODIFIED)),
            ("new.txt", Some(WT_NEW)),
            ("clean.txt", None),
        ]
    );
}

#[test]
fn read_path_without_a_report_has_no_statuses() {
    let list = listing(snapshot(vec![child("a", file(0o644, 1))])).unwrap();
    assert!(list.iter().all(|e| e.git_status.is_none()));
}
