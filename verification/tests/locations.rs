use dialog_storage::handle::{check_containment, normalize_path};
use dialog_storage::{
    Directory, FileSystem, FileSystemError, FileSystemHandle, Location, PlatformDirs, Target,
    UrlRecord,
};

fn dirs() -> PlatformDirs {
    PlatformDirs {
        data: Some("/home/user/.local/share".to_string()),
        current: Ok("/work/project".to_string()),
        temp: "/tmp".to_string(),
    }
}

fn open(directory: Directory, name: &str) -> Result<FileSystem, FileSystemError> {
    FileSystem::open(&Target::current(), &Location::new(directory, name), &dirs())
}

fn test_space(name: &str) -> FileSystem {
    open(Directory::Temp, name).unwrap()
}

fn root(space: &FileSystem) -> String {
    space.handle().to_path(&Target::current()).unwrap()
}

fn io(message: &str) -> FileSystemError {
    FileSystemError::Io(message.to_string())
}

#[test]
fn it_generates_correct_layout() {
    let space = test_space("layout-test");

    let archive = space.resolve("archive").unwrap();
    assert!(archive.path().ends_with("/archive"));

    let catalog = archive.resolve("index").unwrap();
    assert!(catalog.path().ends_with("/archive/index"));

    let cred = space.resolve("credential/key/self").unwrap();
    assert!(cred.path().ends_with("/credential/key/self"));

    let memory = space.resolve("memory").unwrap();
    assert!(memory.path().ends_with("/memory"));

    let cell = memory.resolve("local").unwrap();
    assert!(cell.path().ends_with("/memory/local"));
    assert_eq!(cell.path(), "/tmp/layout-test/memory/local");
    assert_eq!(
        cell.to_path(&Target::current()).unwrap(),
        "/tmp/layout-test/memory/local"
    );
}

#[test]
fn it_allows_nested_paths() {
    let space = test_space("nested-test");

    let memory = space.resolve("memory").unwrap();
    let nested = memory.resolve("foo/bar").unwrap();
    assert!(nested.path().ends_with("/memory/foo/bar"));

    let archive = space.resolve("archive").unwrap();
    let nested = archive.resolve("deep/nested/catalog").unwrap();
    assert!(nested.path().ends_with("/archive/deep/nested/catalog"));
}

#[test]
fn it_prevents_containment_escape_via_dotdot() {
    let space = test_space("escape-test");

    let memory = space.resolve("memory").unwrap();
    let result = memory.resolve("../escape");
    assert!(result.is_err());
    assert!(matches!(result, Err(FileSystemError::Containment(_))));
    assert_eq!(
        result.unwrap_err(),
        FileSystemError::Containment(
            "Path '../escape' escapes base 'file:///tmp/escape-test/memory/'".to_string()
        )
    );
}

#[test]
fn it_prevents_escape_via_encoded_dotdot() {
    let space = test_space("encoded-escape-test");

    let memory = space.resolve("memory").unwrap();
    let result = memory.resolve("%2e%2e/escape");
    assert!(result.is_err());
}

#[test]
fn it_prevents_deep_escape() {
    let space = test_space("deep-escape-test");

    let memory = space.resolve("memory").unwrap();
    let result = memory.resolve("foo/../../../../../../etc/passwd");
    assert!(result.is_err());
    assert!(matches!(result, Err(FileSystemError::Containment(_))));
}

#[test]
fn it_refuses_absolute_segments_under_a_root() {
    let space = open(Directory::At("/tmp/s".to_string()), "").unwrap();
    for segment in ["/etc/passwd", "/", "//host/x", "\\x"] {
        assert_eq!(
            space.resolve(segment).unwrap_err(),
            FileSystemError::Containment(format!(
                "Path '{segment}' escapes base 'file:///tmp/s/'"
            ))
        );
    }
    assert!(space.resolve("etc/passwd").is_ok());
}

#[test]
fn it_takes_a_leading_slash_as_relative() {
    let space = test_space("absolute-test");
    let inside = space.handle().resolve("/etc/passwd").unwrap();
    assert_eq!(inside.path(), "/tmp/absolute-test//etc/passwd");
    let top = FileSystemHandle::try_from("file:///").unwrap();
    assert_eq!(top.resolve("//etc/passwd").unwrap().path(), "/etc/passwd");
}

#[test]
fn it_stays_within_through_several_steps() {
    let space = test_space("steps-test");
    let child = space.resolve("a/b/../c").unwrap();
    assert_eq!(child.path(), "/tmp/steps-test/a/c");
    let grandchild = child.resolve("./d//e/.").unwrap();
    assert_eq!(grandchild.path(), "/tmp/steps-test/a/c/d//e/");
    assert!(grandchild.path().starts_with(space.handle().path()));
}

#[test]
fn it_returns_to_the_base_it_left() {
    let space = test_space("back-test");
    let child = space.resolve("../back-test/x").unwrap();
    assert_eq!(child.path(), "/tmp/back-test/x");
}

#[test]
fn it_does_not_take_a_segment_for_a_url() {
    let space = test_space("did-test");
    let did = space.resolve("did:key:z6Mk").unwrap();
    assert_eq!(did.url().as_str(), "file:///tmp/did-test/did:key:z6Mk");
    assert_eq!(did.url().scheme(), "file");
    let other = space.resolve("http://example.com/x").unwrap();
    assert_eq!(other.path(), "/tmp/did-test/http://example.com/x");
    let drive = FileSystemHandle::try_from("file:///").unwrap().resolve("C:/x").unwrap();
    assert_eq!(drive.path(), "/C:/x");
}

#[test]
fn it_resolves_profile_under_platform_data_dir() {
    let space = open(Directory::Profile, "profile-resolve").unwrap();
    assert_eq!(root(&space), "/home/user/.local/share/dialog/profile-resolve");
}

#[test]
fn it_resolves_current_under_working_directory() {
    let space = open(Directory::Current, "current-resolve").unwrap();
    assert_eq!(root(&space), "/work/project/current-resolve");
}

#[test]
fn it_resolves_temp_under_platform_temp_dir() {
    let space = open(Directory::Temp, "temp-resolve").unwrap();
    assert_eq!(root(&space), "/tmp/temp-resolve");
}

#[test]
fn it_resolves_at_under_explicit_path() {
    let space = open(Directory::At("/tmp/at-base".to_string()), "at-resolve").unwrap();
    assert_eq!(root(&space), "/tmp/at-base/at-resolve");
}

#[test]
fn it_resolves_an_empty_name_to_the_directory() {
    let space = open(Directory::Temp, "").unwrap();
    assert_eq!(root(&space), "/tmp");
    assert_eq!(space.handle().path(), "/tmp/");
}

#[test]
fn it_puts_no_second_separator_behind_a_directory() {
    let target = Target::current();
    if !target.is_windows() {
        for (base, expected) in [("/tmp/", "/tmp/x"), ("/", "/x"), ("/a//", "/a//x")] {
            let location = Location::new(Directory::At(base.to_string()), "x");
            assert_eq!(location.path(&target, &dirs()).unwrap(), expected);
        }
        let space = open(Directory::At("/".to_string()), "").unwrap();
        assert_eq!(root(&space), "/");
        assert_eq!(root(&open(Directory::At("/tmp/".to_string()), "y").unwrap()), "/tmp/y");
    }
}

#[test]
fn it_takes_an_empty_path_for_the_current_directory() {
    let target = Target::current();
    if !target.is_windows() {
        let current = Ok("/work/project".to_string());
        let handle = FileSystemHandle::from_path(&target, "", &current).unwrap();
        assert_eq!(handle.path(), "/work/project/");
    }
}

#[test]
fn it_names_the_way_to_a_location() {
    let names = |directory: Directory, name: &str| Location::new(directory, name).names();
    assert_eq!(names(Directory::Profile, "x"), ["dialog", "x"]);
    assert_eq!(names(Directory::Profile, ""), ["dialog"]);
    assert_eq!(names(Directory::Temp, "x"), ["x"]);
    assert!(names(Directory::Current, "").is_empty());
}

#[test]
fn it_resolves_relative_paths_below_the_current_directory() {
    let space = open(Directory::At("data/x".to_string()), "y").unwrap();
    assert_eq!(root(&space), "/work/project/data/x/y");
    let absolute = open(Directory::Temp, "/elsewhere").unwrap();
    assert_eq!(root(&absolute), "/elsewhere");
}

#[test]
fn it_reports_missing_platform_directories() {
    let target = Target::current();
    let none = PlatformDirs {
        data: None,
        current: Err("no such directory".to_string()),
        temp: "/tmp".to_string(),
    };
    let profile = Location::new(Directory::Profile, "x");
    assert_eq!(
        FileSystem::open(&target, &profile, &none).unwrap_err(),
        io("could not determine platform data directory")
    );
    let current = Location::new(Directory::Current, "x");
    assert_eq!(
        FileSystem::open(&target, &current, &none).unwrap_err(),
        io("no such directory")
    );
    let relative = Location::new(Directory::At("x".to_string()), "");
    assert_eq!(
        FileSystem::open(&target, &relative, &none).unwrap_err(),
        io("no such directory")
    );
    let temp = Location::new(Directory::Temp, "x");
    assert!(FileSystem::open(&target, &temp, &none).is_ok());
    assert_eq!(temp.path(&target, &none).unwrap(), "/tmp/x");
}

#[test]
fn it_rejects_paths_that_stay_relative() {
    let current = Ok("not/absolute".to_string());
    assert_eq!(
        FileSystemHandle::from_path(&Target::current(), "x", &current).unwrap_err(),
        io("Invalid path for URL conversion")
    );
}

#[test]
fn it_round_trips_native_paths() {
    let target = Target::current();
    let current = Err("unused".to_string());
    for path in [
        "/a",
        "/a/b.c",
        "/with space/100%/q?#h",
        "/back\\slash/<>|\"^`{}[]",
        "/%2e%2e/x",
        "/na\u{ef}ve/\u{1f980}",
        "/did:key:z6Mk",
        "/C:",
        "/C:/x",
        "/ab:",
        "/a|b/C|",
        "/tab\tnew\nline\u{0}\u{7f}",
        "/...",
        "/.hidden/a..b",
    ] {
        let handle = FileSystemHandle::from_path(&target, path, &current).unwrap();
        assert!(handle.path().ends_with('/'));
        assert_eq!(handle.to_path(&target).unwrap(), path);
    }
    let top = FileSystemHandle::from_path(&target, "/", &current).unwrap();
    assert_eq!(top.path(), "/");
    assert_eq!(top.to_path(&target).unwrap(), "/");
}

#[test]
fn it_normalizes_native_paths() {
    let target = Target::current();
    let current = Err("unused".to_string());
    for (path, expected) in [
        ("/a/", "/a/"),
        ("/a//b/./c", "/a/b/c/"),
        ("/a/../b", "/b/"),
        ("/a/..", "/"),
        ("/../x", "/x/"),
        ("/C|/x", "/C:/x/"),
    ] {
        let handle = FileSystemHandle::from_path(&target, path, &current).unwrap();
        assert_eq!(handle.path(), expected);
    }
}

#[test]
fn it_accepts_file_urls() {
    let handle = FileSystemHandle::try_from("file:///foo/bar").unwrap();
    assert_eq!(handle.url().as_str(), "file:///foo/bar/");
    assert_eq!(handle.path(), "/foo/bar/");
    let same = FileSystemHandle::try_from("file:///foo/bar/".to_string()).unwrap();
    assert_eq!(same.url().as_str(), handle.url().as_str());
    let url = UrlRecord::parse("FILE:/foo/%7Ebar?q#f").unwrap();
    assert_eq!(url.path(), "/foo/%7Ebar");
    let queried = FileSystemHandle::try_from(url).unwrap();
    assert_eq!(queried.url().as_str(), "file:///foo/%7Ebar/?q#f");
    assert_eq!(queried.resolve("x").unwrap().url().as_str(), "file:///foo/%7Ebar/x");
    assert_eq!(queried.clone().path(), queried.path());
}

#[test]
fn it_rejects_other_urls() {
    assert_eq!(
        FileSystemHandle::try_from("https://example.com/x").unwrap_err(),
        io("Expected file: URL, got https:")
    );
    assert_eq!(
        FileSystemHandle::try_from("not a url").unwrap_err(),
        io("Invalid URL: relative URL without a base")
    );
    assert_eq!(
        FileSystemHandle::try_from("file://[bad/".to_string()).unwrap_err(),
        io("Invalid URL: invalid IPv6 address")
    );
}

#[test]
fn it_normalizes_file_urls() {
    for (text, expected) in [
        ("file:", "/"),
        ("file:a", "/a/"),
        ("file:///a/./b/../c", "/a/c/"),
        ("file:///a/%2e%2E/b", "/b/"),
        ("file:///a/.%2e/%2E/b", "/b/"),
        ("file:////a//b", "/a//b/"),
        ("file:///../../x", "/x/"),
        ("file:\\\\\\a\\b", "/a/b/"),
        ("file:///a/.\t./b", "/b/"),
        ("file:///C:/../x", "/C:/x/"),
    ] {
        let handle = FileSystemHandle::try_from(text).unwrap();
        assert_eq!(handle.path(), expected);
        assert_eq!(
            FileSystemHandle::try_from(handle.url().as_str()).unwrap().path(),
            expected
        );
    }
}

#[test]
fn it_resolves_against_a_file_as_a_directory() {
    let file = FileSystemHandle::try_from("file:///foo/").unwrap().resolve("bar").unwrap();
    assert_eq!(file.path(), "/foo/bar");
    assert_eq!(file.resolve("baz").unwrap().path(), "/foo/bar/baz");
    assert_eq!(file.resolve("").unwrap().path(), "/foo/bar/");
}

#[test]
fn it_keeps_plain_segments() {
    let base = FileSystemHandle::try_from("file:///base").unwrap();
    for segment in ["a", "a/b/", "x:y@z", "a//b", "...", "!$&'()*+,;=~_-", "C:", "a.b..c"] {
        let child = base.resolve(segment).unwrap();
        assert_eq!(child.path(), format!("/base/{segment}"));
        assert_eq!(child.url().as_str(), format!("file:///base/{segment}"));
        let native = format!("/base/{segment}");
        assert_eq!(child.to_path(&Target::current()).unwrap(), native.trim_end_matches('/'));
        assert_eq!(
            child.resolve("z").unwrap().path(),
            format!("/base/{}/z", segment.strip_suffix('/').unwrap_or(segment))
        );
    }
}

#[test]
fn it_rejects_remote_and_non_utf8_locations() {
    let target = Target::current();
    let remote = FileSystemHandle::try_from("file://host/share").unwrap();
    if !target.is_windows() {
        assert_eq!(
            remote.to_path(&target).unwrap_err(),
            io("Failed to convert URL to path")
        );
        let bytes = FileSystemHandle::try_from("file:///a/%FF").unwrap();
        assert_eq!(
            bytes.to_path(&target).unwrap_err(),
            io("Path is not valid UTF-8 and cannot be normalized")
        );
    }
}

#[test]
fn it_strips_trailing_slashes_from_native_paths() {
    let target = Target::current();
    if !target.is_windows() {
        let path = |text: &str| normalize_path(&target, Ok(Some(text.to_string())));
        assert_eq!(path("/a/b/").unwrap(), "/a/b");
        assert_eq!(path("/a/b").unwrap(), "/a/b");
        assert_eq!(path("/a//").unwrap(), "/a");
        assert_eq!(path("/").unwrap(), "/");
        assert_eq!(path("//").unwrap(), "/");
        assert_eq!(path("").unwrap(), "");
    }
}

#[test]
fn it_checks_containment_of_joined_urls() {
    let target = Target::current();
    let base = UrlRecord::parse("file:///a/b/").unwrap();
    let inside = UrlRecord::parse("file:///a/b/c").unwrap();
    let outside = UrlRecord::parse("file:///a/bc").unwrap();
    assert_eq!(check_containment(&target, &base, "c", Ok(inside)).unwrap().path(), "/a/b/c");
    assert_eq!(
        check_containment(&target, &base, "../bc", Ok(outside)).unwrap_err(),
        FileSystemError::Containment("Path '../bc' escapes base 'file:///a/b/'".to_string())
    );
    assert_eq!(
        check_containment(&target, &base, "x", Err("overflow".to_string())).unwrap_err(),
        io("Invalid path segment: overflow")
    );
}

#[test]
fn it_checks_containment_of_decoded_paths() {
    let target = Target::current();
    let base = UrlRecord::parse("file:///a/b/").unwrap();
    for (path, inside) in [
        ("file:///a/b/c%2Fd", true),
        ("file:///a/b/c%2F..%2Fd", true),
        ("file:///a/b/c%2F..", true),
        ("file:///a/b/..%2Fb%2Fc", true),
        ("file:///a/b/..%2F..%2Fa%2Fb", true),
        ("file:///a/b/..%2F..%2F..%2Fa%2Fb%2Fc", true),
        ("file:///a/b/..%2Fbc", false),
        ("file:///a/b/..%2f", false),
        ("file:///a/b/%2F..", false),
        ("file:///a/b/c%2F..%2F..", false),
        ("file:///a/b/..%5Cc", !target.is_windows()),
        ("file:///a/b/...%2F..a%2F.", true),
        ("file:///a/b/%2", true),
    ] {
        let joined = UrlRecord::parse(path).unwrap();
        assert_eq!(check_containment(&target, &base, "x", Ok(joined)).is_ok(), inside);
    }
}

#[test]
fn it_makes_handles_of_given_results() {
    assert_eq!(
        FileSystemHandle::from_file_url(None).unwrap_err(),
        io("Invalid path for URL conversion")
    );
    let url = UrlRecord::parse("file:///a").unwrap();
    assert_eq!(FileSystemHandle::from_file_url(Some(url)).unwrap().path(), "/a/");
    assert_eq!(
        FileSystemHandle::from_parsed(Err("empty host".to_string())).unwrap_err(),
        io("Invalid URL: empty host")
    );
    let other = UrlRecord::parse("ftp://host/a").unwrap();
    assert_eq!(
        FileSystemHandle::from_parsed(Ok(other)).unwrap_err(),
        io("Expected file: URL, got ftp:")
    );
}
