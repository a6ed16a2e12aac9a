use lanshare::file_service::{DirEntryFacts, EntryMeta, FileService, FileServiceError, PathProbe};
use lanshare::paths::{components_of, file_name, join, path_eq, path_within};

fn probe(base: &str, full: Result<&str, &str>, parent: Option<Result<&str, &str>>) -> PathProbe {
    PathProbe {
        canonical_base: Ok(base.to_string()),
        canonical_full: full.map(|s| s.to_string()).map_err(|e| e.to_string()),
        canonical_parent: parent.map(|p| p.map(|s| s.to_string()).map_err(|e| e.to_string())),
    }
}

fn entry(name: &str, dir: bool, len: u64, modified: Option<u64>) -> DirEntryFacts {
    DirEntryFacts {
        name: name.to_string(),
        sorts_as_dir: dir,
        metadata: Ok(EntryMeta { is_dir: dir, is_file: !dir, len, modified_secs: modified }),
    }
}

#[test]
fn joining_paths() {
    assert_eq!(join("/srv/share", "docs/a.txt"), "/srv/share/docs/a.txt");
    assert_eq!(join("/srv/share/", "a"), "/srv/share/a");
    assert_eq!(join("/srv/share", "/etc/passwd"), "/etc/passwd");
    assert_eq!(join("/srv/share", ""), "/srv/share/");
    assert_eq!(join("", "a"), "a");
}

#[test]
fn components_and_prefixes() {
    let c = components_of("/a//b/./c/");
    let texts: Vec<String> = c.iter().map(|v| v.iter().collect()).collect();
    assert_eq!(texts, vec!["/", "a", "b", "c"]);
    let rel: Vec<String> = components_of("./x/.").iter().map(|v| v.iter().collect()).collect();
    assert_eq!(rel, vec![".", "x"]);
    assert!(path_within("/srv/share/a", "/srv/share"));
    assert!(path_within("/srv/share", "/srv/share/"));
    assert!(!path_within("/srv/shared", "/srv/share"));
    assert!(!path_within("/srv", "/srv/share"));
    assert!(path_eq("/srv//share/", "/srv/share"));
    assert!(!path_eq("/srv/share", "srv/share"));
}

#[test]
fn final_names() {
    assert_eq!(file_name("/srv/share/a.txt"), Some("a.txt".to_string()));
    assert_eq!(file_name("/srv/share/"), Some("share".to_string()));
    assert_eq!(file_name("/"), None);
    assert_eq!(file_name("a/.."), None);
    assert_eq!(file_name(""), None);
    for p in ["/srv/share/a.txt", "/srv/share/", "/", "a/..", "", "x/./", "./"] {
        let expected = std::path::Path::new(p).file_name().map(|n| n.to_string_lossy().to_string());
        assert_eq!(file_name(p), expected, "path {:?}", p);
    }
}

#[test]
fn percent_decoding() {
    let svc = FileService::new("/b".to_string());
    assert_eq!(svc.full_path("docs%2Fa%20b.txt"), "/b/docs/a b.txt");
    assert_eq!(svc.full_path("plain"), "/b/plain");
    assert_eq!(svc.full_path("100%"), "/b/100%");
    assert_eq!(svc.full_path("%E6%96%87"), "/b/文");
    assert_eq!(svc.full_path("%ff"), "/b/\u{fffd}");
}

#[test]
fn full_path_of_request() {
    let svc = FileService::new("/srv/share".to_string());
    assert_eq!(svc.base_dir(), "/srv/share");
    assert_eq!(svc.full_path("docs%2Fa.txt"), "/srv/share/docs/a.txt");
    assert_eq!(svc.full_path("%2Fetc%2Fpasswd"), "/etc/passwd");
}

#[test]
fn sanitize_accepts_paths_inside() {
    let svc = FileService::new("/srv/share".to_string());
    let p = probe("/srv/share", Ok("/srv/share/docs/a.txt"), Some(Ok("/srv/share/docs")));
    assert_eq!(svc.sanitize_path("docs/a.txt", &p), Ok("/srv/share/docs/a.txt".to_string()));
}

#[test]
fn sanitize_refuses_paths_outside() {
    let svc = FileService::new("/srv/share".to_string());
    let p = probe("/srv/share", Ok("/etc/passwd"), Some(Ok("/etc")));
    assert_eq!(
        svc.sanitize_path("../../etc/passwd", &p),
        Err(FileServiceError::PathNotAllowed("/etc/passwd".to_string()))
    );
    let q = probe("/srv/share", Ok("/srv/shared/x"), None);
    assert_eq!(
        svc.sanitize_path("x", &q),
        Err(FileServiceError::PathNotAllowed("/srv/shared/x".to_string()))
    );
}

#[test]
fn sanitize_falls_back_to_the_parent() {
    let svc = FileService::new("/srv/share".to_string());
    let p = probe("/srv/share", Err("No such file or directory (os error 2)"), Some(Ok("/srv/share/docs")));
    assert_eq!(svc.sanitize_path("docs/new.txt", &p), Ok("/srv/share/docs/new.txt".to_string()));
    let q = probe("/srv/share", Err("missing"), Some(Err("parent missing")));
    assert_eq!(svc.sanitize_path("nope/new.txt", &q), Err(FileServiceError::Io("parent missing".to_string())));
    let r = probe("/srv/share", Err("missing"), None);
    assert_eq!(svc.sanitize_path("x", &r), Err(FileServiceError::Io("Invalid path".to_string())));
    let b = PathProbe {
        canonical_base: Err("base gone".to_string()),
        canonical_full: Ok("/srv/share/x".to_string()),
        canonical_parent: None,
    };
    assert_eq!(svc.sanitize_path("x", &b), Err(FileServiceError::Io("base gone".to_string())));
}

#[test]
fn file_and_save_paths() {
    let svc = FileService::new("/srv/share".to_string());
    let p = probe("/srv/share", Ok("/srv/share/a.txt"), Some(Ok("/srv/share")));
    assert_eq!(svc.get_file_path("a.txt", &p, true), Ok("/srv/share/a.txt".to_string()));
    assert_eq!(
        svc.get_file_path("a.txt", &p, false),
        Err(FileServiceError::NotADirectory("Not a file".to_string()))
    );
    assert_eq!(svc.get_save_path("a.txt", &p), Ok("/srv/share/a.txt".to_string()));
}

#[test]
fn error_messages() {
    assert_eq!(FileServiceError::Io("boom".to_string()).message(), "IO error: boom");
    assert_eq!(FileServiceError::PathNotAllowed("/etc".to_string()).message(), "Path not allowed: /etc");
    assert_eq!(FileServiceError::NotADirectory("/a".to_string()).message(), "Not a directory: /a");
}

#[test]
fn listing_orders_directories_first_then_names() {
    let svc = FileService::new("/srv/share".to_string());
    let p = probe("/srv/share", Ok("/srv/share/docs"), Some(Ok("/srv/share")));
    let entries = Ok(vec![
        entry("b.txt", false, 10, Some(0)),
        entry("zeta", true, 0, None),
        entry("a.txt", false, 5, Some(1_700_000_000)),
        entry("alpha", true, 0, None),
    ]);
    let l = svc.list_directory("docs/", &p, true, &entries).unwrap();
    let names: Vec<&str> = l.files.iter().map(|f| f.name.as_str()).collect();
    assert_eq!(names, vec!["alpha", "zeta", "a.txt", "b.txt"]);
    assert_eq!(l.files[0].path, "docs/alpha");
    assert_eq!(l.files[0].size, None);
    assert!(l.files[0].is_dir);
    assert_eq!(l.files[2].size, Some(5));
    assert_eq!(l.files[2].modified, Some("2023-11-14 22:13:20".to_string()));
    assert_eq!(l.files[3].modified, Some("1970-01-01 00:00:00".to_string()));
    assert_eq!(l.current_path, "docs/");
    assert_eq!(l.parent_path, Some("".to_string()));
}

#[test]
fn listing_of_the_root_has_no_parent() {
    let svc = FileService::new("/srv/share".to_string());
    let p = probe("/srv/share", Ok("/srv/share"), Some(Ok("/srv")));
    let l = svc.list_directory("", &p, true, &Ok(vec![entry("x", false, 1, None)])).unwrap();
    assert_eq!(l.parent_path, None);
    assert_eq!(l.files[0].path, "x");
    let l2 = svc.list_directory("/", &p, true, &Ok(vec![entry("x", false, 1, None)])).unwrap();
    assert_eq!(l2.files[0].path, "x");
}

#[test]
fn listing_parent_of_nested_directory() {
    let svc = FileService::new("/srv/share".to_string());
    let p = probe("/srv/share", Ok("/srv/share/a/b"), Some(Ok("/srv/share/a")));
    let l = svc.list_directory("a/b", &p, true, &Ok(vec![])).unwrap();
    assert_eq!(l.parent_path, Some("a".to_string()));
    assert!(l.files.is_empty());
}

#[test]
fn listing_keeps_reading_order_for_equal_names() {
    let svc = FileService::new("/srv/share".to_string());
    let p = probe("/srv/share", Ok("/srv/share"), None);
    let mut first = entry("same", false, 1, None);
    let second = entry("same", false, 2, None);
    first.metadata = Ok(EntryMeta { is_dir: false, is_file: true, len: 1, modified_secs: None });
    let l = svc.list_directory("", &p, true, &Ok(vec![first, second])).unwrap();
    assert_eq!(l.files[0].size, Some(1));
    assert_eq!(l.files[1].size, Some(2));
}

#[test]
fn listing_errors() {
    let svc = FileService::new("/srv/share".to_string());
    let p = probe("/srv/share", Ok("/srv/share/f.txt"), Some(Ok("/srv/share")));
    assert_eq!(
        svc.list_directory("f.txt", &p, false, &Ok(vec![])),
        Err(FileServiceError::NotADirectory("/srv/share/f.txt".to_string()))
    );
    let d = probe("/srv/share", Ok("/srv/share/d"), Some(Ok("/srv/share")));
    assert_eq!(
        svc.list_directory("d", &d, true, &Err("Permission denied".to_string())),
        Err(FileServiceError::Io("Permission denied".to_string()))
    );
    let bad = DirEntryFacts { name: "q".to_string(), sorts_as_dir: false, metadata: Err("stale".to_string()) };
    assert_eq!(
        svc.list_directory("d", &d, true, &Ok(vec![entry("a", false, 1, None), bad])),
        Err(FileServiceError::Io("stale".to_string()))
    );
    let outside = probe("/srv/share", Ok("/etc"), Some(Ok("/")));
    assert_eq!(
        svc.list_directory("../../etc", &outside, true, &Ok(vec![])),
        Err(FileServiceError::PathNotAllowed("/etc".to_string()))
    );
}
