use dialog_storage::replies::{complete, complete_list, complete_read_optional, complete_remove};
use dialog_storage::{encode_reserved, FileSystemError, FileSystemHandle, IoFailure, Target};

fn failure(not_found: bool) -> IoFailure {
    IoFailure {
        not_found,
        message: "went wrong".to_string(),
    }
}

fn error() -> FileSystemError {
    FileSystemError::Io("went wrong".to_string())
}

#[test]
fn it_passes_values_and_failures_on() {
    assert_eq!(complete(Ok(vec![1u8, 2])), Ok(vec![1u8, 2]));
    assert_eq!(complete::<()>(Err(failure(true))), Err(error()));
    assert_eq!(complete::<()>(Err(failure(false))), Err(error()));
}

#[test]
fn it_reads_an_absent_file_as_none() {
    assert_eq!(complete_read_optional(Ok(vec![7])), Ok(Some(vec![7])));
    assert_eq!(complete_read_optional(Err(failure(true))), Ok(None));
    assert_eq!(complete_read_optional(Err(failure(false))), Err(error()));
}

#[test]
fn it_removes_an_absent_file() {
    assert_eq!(complete_remove(Ok(())), Ok(()));
    assert_eq!(complete_remove(Err(failure(true))), Ok(()));
    assert_eq!(complete_remove(Err(failure(false))), Err(error()));
}

#[test]
fn it_lists_names_that_are_text() {
    let target = Target::current();
    assert_eq!(complete_list(&target, Err(failure(true))), Ok(vec![]));
    assert_eq!(complete_list(&target, Err(failure(false))), Err(error()));
    assert_eq!(complete_list(&target, Ok(vec![])), Ok(vec![]));
    let entries = vec![
        Ok(Some("b".to_string())),
        Ok(None),
        Ok(Some("a".to_string())),
    ];
    assert_eq!(
        complete_list(&target, Ok(entries)),
        Ok(vec!["b".to_string(), "a".to_string()])
    );
}

#[test]
fn it_stops_listing_at_a_failure() {
    let target = Target::current();
    let entries = vec![
        Ok(Some("a".to_string())),
        Err(failure(true)),
        Ok(Some("b".to_string())),
    ];
    assert_eq!(complete_list(&target, Ok(entries)), Err(error()));
}

#[test]
fn it_lists_logical_names() {
    let target = Target::current();
    let did = "did:key:z6MkExampleColonSegment";
    let on_disk = if target.is_windows() {
        encode_reserved(did)
    } else {
        did.to_string()
    };
    assert_eq!(
        complete_list(&target, Ok(vec![Ok(Some(on_disk))])),
        Ok(vec![did.to_string()])
    );
}

#[test]
fn it_finds_the_paths_for_writing() {
    let target = Target::current();
    let base = FileSystemHandle::try_from("file:///base").unwrap();
    let paths = base.resolve("a/b").unwrap().write_paths(&target).unwrap();
    assert_eq!(paths.path, "/base/a/b");
    assert_eq!(paths.parent, Some("/base/a".to_string()));
    let top = FileSystemHandle::try_from("file:///").unwrap();
    let paths = top.write_paths(&target).unwrap();
    assert_eq!(paths.path, "/");
    assert_eq!(paths.parent, None);
}

#[test]
fn it_finds_the_paths_for_renaming() {
    let target = Target::current();
    let base = FileSystemHandle::try_from("file:///base").unwrap();
    let from = base.resolve("from").unwrap();
    let to = base.resolve("to").unwrap();
    let remote = FileSystemHandle::try_from("file://host/x").unwrap();
    let bytes = FileSystemHandle::try_from("file:///%FF").unwrap();
    assert_eq!(
        from.rename_paths(&to, &target),
        Ok(("/base/from".to_string(), "/base/to".to_string()))
    );
    let no_path = FileSystemError::Io("Failed to convert URL to path".to_string());
    assert_eq!(from.rename_paths(&remote, &target), Err(FileSystemError::Io("Failed to convert URL to path".to_string())));
    assert_eq!(remote.rename_paths(&bytes, &target), Err(no_path));
    assert!(bytes.write_paths(&target).is_err());
}
