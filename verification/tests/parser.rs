use cargo_remote::manifest::{
    load_primary, parse_manifest, path_overrides, FatalError, OverrideTarget,
};

fn local(entry: &cargo_remote::manifest::OverrideEntry) -> Option<&[u8]> {
    match &entry.target {
        OverrideTarget::LocalPath(p) => Some(p.as_slice()),
        OverrideTarget::Registry => None,
    }
}

#[test]
fn empty_text_has_no_overrides() {
    let m = parse_manifest(b"");
    assert!(m.ok);
    assert!(m.overrides.is_empty());
    assert!(m.malformed.is_empty());
}

#[test]
fn manifest_without_patch_sections_has_no_overrides() {
    let text = b"[package]\nname = \"demo\"\nversion = \"0.1.0\"\n\n[dependencies]\nserde = \"1\"\nleft = { path = \"../left\" }\n";
    let m = parse_manifest(text);
    assert!(m.ok);
    assert!(m.overrides.is_empty());
    assert!(m.malformed.is_empty());
}

#[test]
fn patch_section_path_override_is_found() {
    let text = b"[patch.crates-io]\nfoo = { path = \"../foo-fork\" }\n";
    let m = parse_manifest(text);
    assert!(m.ok);
    assert_eq!(m.overrides.len(), 1);
    assert_eq!(m.overrides[0].name, b"foo".to_vec());
    assert_eq!(local(&m.overrides[0]), Some(&b"../foo-fork"[..]));
}

#[test]
fn registry_overrides_are_kept_but_not_extracted() {
    let text = b"[patch.crates-io]\nver = \"1.0\"\nrepo = { git = \"https://example.invalid/r\" }\nfork = { path = \"../fork\" }\n";
    let m = parse_manifest(text);
    assert!(m.ok);
    assert_eq!(m.overrides.len(), 3);
    assert!(local(&m.overrides[0]).is_none());
    assert!(local(&m.overrides[1]).is_none());
    let paths = path_overrides(&m);
    assert_eq!(paths.len(), 1);
    assert_eq!(paths[0].name, b"fork".to_vec());
    assert_eq!(local(&paths[0]), Some(&b"../fork"[..]));
}

#[test]
fn quoted_source_header_is_a_patch_section() {
    let text = b"[patch.\"https://example.invalid/index\"]\nfoo = { path = \"../foo\" }\n";
    let m = parse_manifest(text);
    assert!(m.ok);
    assert_eq!(m.overrides.len(), 1);
    assert_eq!(local(&m.overrides[0]), Some(&b"../foo"[..]));
}

#[test]
fn dotted_patch_header_is_skipped_with_warning() {
    let text = b"[patch.crates-io.foo]\npath = \"../foo\"\n";
    let m = parse_manifest(text);
    assert!(m.ok);
    assert!(m.overrides.is_empty());
    assert_eq!(m.malformed.len(), 1);
    assert_eq!(m.malformed[0], b"[patch.crates-io.foo]".to_vec());
}

#[test]
fn malformed_entry_is_skipped_and_rest_kept() {
    let text = b"[patch.crates-io]\nthis line has no equals sign\ngood = { path = \"../good\" }\n";
    let m = parse_manifest(text);
    assert!(m.ok);
    assert_eq!(m.overrides.len(), 1);
    assert_eq!(m.overrides[0].name, b"good".to_vec());
    assert_eq!(m.malformed.len(), 1);
    assert_eq!(m.malformed[0], b"this line has no equals sign".to_vec());
}

#[test]
fn inline_table_with_feature_list_is_read() {
    let text =
        b"[patch.crates-io]\nfoo = { version = \"1\", path = \"../f\", features = [\"a\", \"b\"] }\n";
    let m = parse_manifest(text);
    assert!(m.ok);
    assert_eq!(m.overrides.len(), 1);
    assert_eq!(local(&m.overrides[0]), Some(&b"../f"[..]));
}

#[test]
fn comments_and_blank_lines_are_ignored() {
    let text = b"# top\n\n[patch.crates-io]\n# inside\nfoo = { path = \"../foo\" }\n\n# tail\n";
    let m = parse_manifest(text);
    assert!(m.ok);
    assert_eq!(m.overrides.len(), 1);
    assert!(m.malformed.is_empty());
}

#[test]
fn patch_sections_end_at_next_header() {
    let text = b"[patch.crates-io]\nfoo = { path = \"../foo\" }\n[dependencies]\nbar = { path = \"./vendor/bar\" }\n";
    let m = parse_manifest(text);
    assert!(m.ok);
    assert_eq!(m.overrides.len(), 1);
    assert_eq!(m.overrides[0].name, b"foo".to_vec());
}

#[test]
fn unterminated_header_is_a_parse_failure() {
    let m = parse_manifest(b"[patch.crates-io\nfoo = { path = \"../foo\" }\n");
    assert!(!m.ok);
}

#[test]
fn unterminated_inline_table_is_malformed_entry() {
    let text = b"[patch.crates-io]\nfoo = { path = \"../foo\" # no closing brace\n";
    let m = parse_manifest(text);
    assert!(m.ok);
    assert!(m.overrides.is_empty());
    assert_eq!(m.malformed.len(), 1);
}

#[test]
fn bare_value_is_a_registry_target() {
    let text = b"[patch.crates-io]\nfoo = 1.0\n";
    let m = parse_manifest(text);
    assert!(m.ok);
    assert_eq!(m.overrides.len(), 1);
    assert!(local(&m.overrides[0]).is_none());
}

#[test]
fn absent_primary_manifest_is_fatal() {
    let r = load_primary(b"/proj/Cargo.toml", Err(b"no such file"));
    match r {
        Err(FatalError::PrimaryManifestUnreadable { path, cause }) => {
            assert_eq!(path, b"/proj/Cargo.toml".to_vec());
            assert_eq!(cause, b"no such file".to_vec());
        },
        _ => panic!("expected a fatal unreadable error"),
    }
}

#[test]
fn unparsable_primary_manifest_is_fatal() {
    let r = load_primary(b"/proj/Cargo.toml", Ok(b"[broken\n"));
    match r {
        Err(FatalError::PrimaryManifestMalformed { path }) => {
            assert_eq!(path, b"/proj/Cargo.toml".to_vec());
        },
        _ => panic!("expected a fatal malformed error"),
    }
}

#[test]
fn readable_primary_manifest_loads() {
    let r = load_primary(b"/proj/Cargo.toml", Ok(b"[patch.crates-io]\nf = { path = \"../f\" }\n"));
    let m = r.expect("primary manifest should load");
    assert_eq!(m.overrides.len(), 1);
}
