use dialog_storage::percent::percent_decode;
use dialog_storage::{FileSystem, FileSystemError, FileSystemHandle, Target, UrlRecord};

fn handle(text: &str) -> FileSystemHandle {
    FileSystemHandle::try_from(text).unwrap()
}

fn native(handle: &FileSystemHandle) -> String {
    handle.to_path(&Target::current()).unwrap()
}

fn refuses(base: &FileSystemHandle, segment: &str) -> bool {
    matches!(base.resolve(segment), Err(FileSystemError::Containment(_)))
}

#[test]
fn it_refuses_encoded_separators_that_escape() {
    let base = handle("file:///foo/bar");
    for segment in [
        "..%2Fescape",
        "..%2fescape",
        ".%2E%2Fescape",
        "%2e%2e%2Fescape",
        "a/..%2F../..%2Fescape",
        "a%2F..%2F..%2Fescape",
        "x/..%2F..",
        "..%2F",
    ] {
        assert!(refuses(&base, segment), "{segment}");
    }
    assert_eq!(
        base.resolve("..%2Fescape").unwrap_err(),
        FileSystemError::Containment(
            "Path '..%2Fescape' escapes base 'file:///foo/bar/'".to_string()
        )
    );
    assert_eq!(refuses(&base, "..%5Cescape"), Target::current().is_windows());
}

#[test]
fn it_refuses_segments_that_lead_upwards() {
    for text in ["file:///foo/bar", "file:///foo/b%20r/", "file://host/share", "file:///a/b//"] {
        let base = handle(text);
        for segment in ["../x", "../", "../%2e%2Fx", "../y:z/w"] {
            assert!(refuses(&base, segment), "{text} {segment}");
        }
    }
    for segment in ["a/../../x", "%2E%2e/x", ".%2e/../x", "foo/../../../../../../etc/passwd", ".."] {
        assert!(refuses(&handle("file:///foo/bar"), segment), "{segment}");
    }
    let inner = handle("file:///foo/bar").resolve("./a/b/../%2e/c/..").unwrap();
    assert_eq!(inner.path(), "/foo/bar/a/");
    let back = handle("file:///foo/bar").resolve("../bar/x").unwrap();
    assert_eq!(back.path(), "/foo/bar/x");
    assert_eq!(handle("file:///").resolve("../x").unwrap().path(), "/x");
    assert_eq!(handle("file:///C:/").resolve("../x").unwrap().path(), "/C:/x");
}

#[test]
fn it_accepts_encoded_separators_that_stay() {
    let base = handle("file:///foo/bar");
    for (segment, expected) in [
        ("a%2Fb", "/foo/bar/a/b"),
        ("a%2F..%2Fb", "/foo/bar/a/../b"),
        ("..a%2Fb..", "/foo/bar/..a/b.."),
        ("%2Fa", "/foo/bar//a"),
        ("..%2Fbar%2Fx", "/foo/bar/../bar/x"),
    ] {
        let child = base.resolve(segment).unwrap();
        assert_eq!(child.path(), format!("/foo/bar/{segment}"));
        if !Target::current().is_windows() {
            assert_eq!(native(&child), expected);
        }
    }
}

#[test]
fn it_refuses_what_a_dropped_tab_would_let_through() {
    let top = handle("file:///");
    let odd = handle("file:C:\t../");
    assert_eq!(odd.path(), "/C:/../");
    let child = top.resolve("C:\t..").unwrap();
    assert_eq!(child.path(), "/C:/..");
    assert!(refuses(&child, "x"));
    assert!(refuses(&odd, ".."));
    assert!(refuses(&handle("file:///a/"), "..\t/x"));
    assert_eq!(top.resolve("a\tb").unwrap().path(), "/ab");
}

#[test]
fn it_refuses_a_base_that_does_not_keep_its_form() {
    let drive = handle("file:///C|/x/");
    let child = drive.resolve("y").unwrap();
    if child.path().contains('|') {
        assert!(refuses(&child, "z"));
    } else {
        assert_eq!(child.resolve("z").unwrap().path(), "/C:/x/y/z");
    }
    let hidden = handle("file:///").resolve(".//C|/y").unwrap();
    assert_eq!(hidden.path(), "/C|/y");
    assert!(refuses(&hidden, "z"));
}

#[test]
fn it_ignores_a_trailing_slash_of_the_base() {
    for (text, segment) in [
        ("file:///foo/", "bar"),
        ("file:///my%20dir/?q#f", "100%25"),
        ("file://host/share/", "x"),
    ] {
        let file = handle(text).resolve(segment).unwrap();
        let directory = handle(text).resolve(&format!("{segment}/")).unwrap();
        for name in ["a", "a/b", "../x", "..%2Fx", "na\u{ef}ve", ""] {
            match (file.resolve(name), directory.resolve(name)) {
                (Ok(a), Ok(b)) => assert_eq!(a.url().as_str(), b.url().as_str()),
                (Err(a), Err(b)) => assert_eq!(a, b),
                _ => panic!("{name}"),
            }
        }
    }
}

#[test]
fn it_nests_segments() {
    for text in ["file:///", "file:///base", "file:///C:/x", "file://host/a%20b"] {
        let base = handle(text);
        for (a, b, both) in [
            ("a", "b", "a/b"),
            ("a/", "b/c", "a/b/c"),
            ("", "x:y", "x:y"),
            ("did:key:z6Mk", "~", "did:key:z6Mk/~"),
        ] {
            let step = base.resolve(a).unwrap().resolve(b).unwrap();
            assert_eq!(step.url().as_str(), base.resolve(both).unwrap().url().as_str());
            assert_eq!(step.path(), format!("{}{both}", base.path()));
        }
    }
}

#[test]
fn it_keeps_host_query_and_fragment() {
    for (text, expected) in [
        ("file:///a", "file:///a/"),
        ("file:///a?q=1#f", "file:///a/?q=1#f"),
        ("file:///a/#f", "file:///a/#f"),
        ("file://host/a%20b?x", "file://host/a%20b/?x"),
        ("file://localhost/a", "file:///a/"),
    ] {
        let once = handle(text);
        assert_eq!(once.url().as_str(), expected);
        let twice = FileSystemHandle::try_from(once.url().clone()).unwrap();
        assert_eq!(twice.url().as_str(), expected);
        assert_eq!(handle(once.url().as_str()).url().as_str(), expected);
    }
}

#[test]
fn it_names_children_natively() {
    let target = Target::current();
    if target.is_windows() {
        let current = Err("unused".to_string());
        let root = FileSystemHandle::from_path(&target, "C:\\my dir\\100%", &current).unwrap();
        let child = root.resolve("archive/did:key:z6Mk").unwrap();
        assert_eq!(native(&child), "C:\\my dir\\100%25\\archive\\did%3Akey%3Az6Mk");
        let drive = FileSystemHandle::from_path(&target, "C:\\", &current).unwrap();
        assert_eq!(native(&drive), "C:\\");
        assert_eq!(native(&drive.resolve("a/b/c").unwrap()), "C:\\a\\b\\c");
    } else {
        let current = Err("unused".to_string());
        for path in ["/my dir", "/100%", "/%41", "/na\u{ef}ve/\u{1f980}", "/a#b?c", "/C:", "/"] {
            let root = FileSystemHandle::from_path(&target, path, &current).unwrap();
            for segment in ["archive/index/z6", "memory/local/head", "C:", "x"] {
                let child = root.resolve(segment).unwrap();
                let base = path.trim_end_matches('/');
                assert_eq!(native(&child), format!("{base}/{segment}"));
            }
        }
    }
}

#[test]
fn it_names_children_with_any_literal_segment() {
    let target = Target::current();
    if !target.is_windows() {
        let current = Err("unused".to_string());
        for root in ["/my dir", "/"] {
            let base = FileSystemHandle::from_path(&target, root, &current).unwrap();
            for segment in [
                "my file",
                "na\u{ef}ve/\u{1f980}",
                "100%",
                "%zz",
                "<a>|\"b\"",
                "x/C|",
                "a\u{1}b",
                "{^}`[]",
            ] {
                let child = base.resolve(segment).unwrap();
                let parent = root.trim_end_matches('/');
                assert_eq!(native(&child), format!("{parent}/{segment}"));
            }
        }
    }
}

#[test]
fn it_gives_the_root_its_slash() {
    if !Target::current().is_windows() {
        assert_eq!(native(&handle("file:///")), "/");
        assert_eq!(native(&handle("file:///%2F")), "/");
        assert_eq!(native(&handle("file:///%2F%2F/")), "/");
        assert_eq!(native(&handle("file:///a%2F/")), "/a");
    }
}

#[test]
fn it_has_no_native_path_for_a_bare_drive_on_windows() {
    let target = Target::current();
    let drive = handle("file:///").resolve("C:").unwrap();
    if target.is_windows() {
        assert_eq!(
            drive.to_path(&target).unwrap_err(),
            FileSystemError::Io("Failed to convert URL to path".to_string())
        );
    } else {
        assert_eq!(native(&drive), "/C:");
    }
}

#[test]
fn it_decodes_percent_escapes() {
    assert_eq!(percent_decode("a%2Fb%2fc"), b"a/b/c");
    assert_eq!(percent_decode("%FF%00%e2%82%ac"), [0xff, 0, 0xe2, 0x82, 0xac]);
    assert_eq!(percent_decode("%%41%4%G1%+1%"), b"%A%4%G1%+1%");
    assert_eq!(percent_decode("\u{20ac}"), "\u{20ac}".as_bytes());
    assert_eq!(percent_decode(""), b"");
}

#[test]
fn it_opens_spaces_at_directories_only() {
    let directory = handle("file:///a");
    let space = FileSystem::at(directory.clone()).unwrap();
    assert_eq!(space.handle().path(), "/a/");
    assert_eq!(space.resolve("b").unwrap().path(), "/a/b");
    assert!(FileSystem::at(directory.resolve("b").unwrap()).is_none());
}

#[test]
fn it_resolves_on_the_given_target() {
    let base = handle("file:///a/");
    let child = base.resolve_on(&Target::current(), "b").unwrap();
    assert_eq!(child.url().as_str(), base.resolve("b").unwrap().url().as_str());
}

#[test]
fn it_starts_every_file_path_with_one_slash() {
    for text in ["file:", "file:////x", "file:?q", "file:#f", "file:\t//\t//x", "file://h//x"] {
        let url = UrlRecord::parse(text).unwrap();
        assert!(url.path().starts_with('/'), "{text}");
        assert!(!url.path().starts_with("//"), "{text}");
    }
}
