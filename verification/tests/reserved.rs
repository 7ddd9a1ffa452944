use dialog_storage::windows::encode_components;
use dialog_storage::{
    decode_reserved, encode_reserved, encode_windows_path, FileSystemHandle, PathComponent, Target,
};

#[test]
fn it_encodes_and_decodes_reserved_chars_reversibly() {
    let did = "did:key:z6MkExampleColonSegment";
    let encoded = encode_reserved(did);
    assert!(!encoded.contains(':'), "encoded name must not contain ':'");
    assert_eq!(encoded, "did%3Akey%3Az6MkExampleColonSegment");
    assert_eq!(decode_reserved(&encoded), did, "must round-trip");

    // Distinct inputs that a lossy '_' mapping would have collided.
    assert_ne!(encode_reserved("a:b"), encode_reserved("a|b"));
    assert_eq!(decode_reserved(&encode_reserved("a:b")), "a:b");
    // A literal '%' is preserved (encoded so decoding stays unambiguous).
    assert_eq!(decode_reserved(&encode_reserved("a%3Ab")), "a%3Ab");
}

#[test]
fn it_escapes_every_reserved_character() {
    assert_eq!(
        encode_reserved("<>:\"\\|?*%"),
        "%3C%3E%3A%22%5C%7C%3F%2A%25"
    );
    assert_eq!(encode_reserved("\u{0}\t\u{1f} "), "%00%09%1F ");
    assert_eq!(encode_reserved(""), "");
}

#[test]
fn it_keeps_legal_names() {
    for name in ["archive", "z6Mk.hash", "a/b", "\u{7f}", "na\u{ef}ve \u{1f980}"] {
        assert_eq!(encode_reserved(name), name);
        assert_eq!(decode_reserved(name), name);
    }
}

#[test]
fn it_round_trips_every_ascii_and_other_characters() {
    let mut name = String::new();
    for code in 0u8..128 {
        name.push(code as char);
    }
    name.push_str("\u{e9}\u{4e16}\u{1f980}%");
    assert_eq!(decode_reserved(&encode_reserved(&name)), name);
}

#[test]
fn it_decodes_escapes_of_either_case() {
    assert_eq!(decode_reserved("a%3ab%3Ac"), "a:b:c");
    assert_eq!(decode_reserved("%e9"), "\u{e9}");
    assert_eq!(decode_reserved("%+A"), "\n");
}

#[test]
fn it_leaves_what_is_no_escape() {
    for name in ["%", "%3", "100%", "%zz", "%-1", "%3g", "%%", "%\u{e9}"] {
        assert_eq!(decode_reserved(name), name);
    }
    assert_eq!(decode_reserved("%%3A"), "%:");
}

#[test]
fn it_preserves_the_drive_letter_colon() {
    let parts = vec![
        PathComponent::Other("C:".to_string()),
        PathComponent::Other("\\".to_string()),
        PathComponent::Normal("Temp".to_string()),
        PathComponent::Normal("dialog-file-handle.tmp".to_string()),
    ];
    assert_eq!(encode_components(&parts), parts);

    let target = Target::current();
    if target.is_windows() {
        let path = "C:\\Temp\\dialog-file-handle.tmp";
        let current = Err("unused".to_string());
        let handle = FileSystemHandle::from_path(&target, path, &current).unwrap();
        assert_eq!(handle.to_path(&target).unwrap(), path);
    }
}

#[test]
fn it_encodes_names_only() {
    let parts = vec![
        PathComponent::Other("C:".to_string()),
        PathComponent::Other("..".to_string()),
        PathComponent::Normal("did:key:z6Mk".to_string()),
    ];
    let encoded = encode_components(&parts);
    assert_eq!(encoded[0], PathComponent::Other("C:".to_string()));
    assert_eq!(encoded[1], PathComponent::Other("..".to_string()));
    assert_eq!(encoded[2], PathComponent::Normal("did%3Akey%3Az6Mk".to_string()));
    assert_eq!(encoded[2].text(), "did%3Akey%3Az6Mk");
    assert_eq!(encoded.len(), 3);
}

#[test]
fn it_rebuilds_paths_from_encoded_components() {
    let target = Target::current();
    if target.is_windows() {
        assert_eq!(encode_windows_path(&target, "C:\\a\\d:e\\"), "C:\\a\\d%3Ae");
        assert_eq!(encode_windows_path(&target, "C:\\"), "C:\\");
        assert_eq!(encode_windows_path(&target, "\\\\s\\h\\d:e"), "\\\\s\\h\\d%3Ae");
        assert_eq!(encode_windows_path(&target, "a\\d:e"), "a\\d%3Ae");
    } else {
        assert_eq!(encode_windows_path(&target, "/a/d:e/"), "/a/d%3Ae");
        assert_eq!(encode_windows_path(&target, "/a//./b?/../c"), "/a/b%3F/../c");
        assert_eq!(encode_windows_path(&target, "/"), "/");
    }
}
