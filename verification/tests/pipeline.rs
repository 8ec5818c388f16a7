use cargo_remote::commands::RemoteCommands;
use cargo_remote::manifest::{parse_manifest, path_overrides, OverrideTarget};
use cargo_remote::resolve::{is_inside, join_path, Resolver, Warning};

const ROOT: &[u8] = b"/home/user/proj";
const STAGING: &[u8] = b"~/remote-builds/proj/patches";

fn declared_paths(text: &[u8]) -> Vec<(Vec<u8>, Vec<u8>)> {
    let m = parse_manifest(text);
    assert!(m.ok);
    path_overrides(&m)
        .into_iter()
        .map(|e| match e.target {
            OverrideTarget::LocalPath(p) => (e.name, p),
            OverrideTarget::Registry => panic!("extracted entry must be a path"),
        })
        .collect()
}

#[test]
fn no_overrides_means_empty_plan() {
    let m = parse_manifest(b"[package]\nname = \"demo\"\n[dependencies]\na = \"1\"\n");
    assert!(m.ok);
    assert!(path_overrides(&m).is_empty());
    let r = Resolver::new(ROOT.to_vec());
    let plan = r.plan(STAGING);
    assert!(plan.is_empty());
}

#[test]
fn external_override_is_planned() {
    let overrides = declared_paths(b"[patch.crates-io]\nfoo = { path = \"../foo-fork\" }\n");
    assert_eq!(overrides.len(), 1);
    let (name, raw) = overrides.into_iter().next().unwrap();
    let declared = join_path(ROOT, &raw);
    assert_eq!(declared, b"/home/user/proj/../foo-fork".to_vec());
    let mut r = Resolver::new(ROOT.to_vec());
    // the canonical form of the declared path, as the filesystem reports it
    let canon = b"/home/user/foo-fork".to_vec();
    let fresh = r.record_resolution(name, declared, Some(canon.clone()));
    assert!(fresh);
    assert!(r.warnings.is_empty());
    let plan = r.plan(STAGING);
    assert_eq!(plan.len(), 1);
    assert_eq!(plan[0].source, canon);
    assert_eq!(plan[0].dest, b"~/remote-builds/proj/patches/0_foo-fork".to_vec());
}

#[test]
fn planning_twice_gives_identical_plans() {
    let mut r = Resolver::new(ROOT.to_vec());
    r.record_resolution(b"foo".to_vec(), b"/x/foo".to_vec(), Some(b"/x/foo".to_vec()));
    r.record_resolution(b"bar".to_vec(), b"/y/bar".to_vec(), Some(b"/y/bar".to_vec()));
    let plan1 = r.plan(STAGING);
    let plan2 = r.plan(STAGING);
    assert_eq!(plan1, plan2);
}

#[test]
fn inside_override_is_excluded() {
    let overrides = declared_paths(b"[patch.crates-io]\nbar = { path = \"./vendor/bar\" }\n");
    assert_eq!(overrides.len(), 1);
    let (name, raw) = overrides.into_iter().next().unwrap();
    let declared = join_path(ROOT, &raw);
    let mut r = Resolver::new(ROOT.to_vec());
    let fresh = r.record_resolution(name, declared, Some(b"/home/user/proj/vendor/bar".to_vec()));
    assert!(!fresh);
    assert!(r.externals.is_empty());
    assert!(r.warnings.is_empty());
    assert!(r.plan(STAGING).is_empty());
}

#[test]
fn missing_path_warns_and_does_not_abort() {
    let mut r = Resolver::new(ROOT.to_vec());
    let fresh = r.record_resolution(b"ghost".to_vec(), b"/home/user/gone".to_vec(), None);
    assert!(!fresh);
    assert_eq!(r.warnings.len(), 1);
    match &r.warnings[0] {
        Warning::PatchPathMissing { name, path } => {
            assert_eq!(name, &b"ghost".to_vec());
            assert_eq!(path, &b"/home/user/gone".to_vec());
        },
        _ => panic!("expected a missing-path warning"),
    }
    assert!(r.plan(STAGING).is_empty());
}

#[test]
fn equal_canonical_paths_are_deduplicated() {
    let mut r = Resolver::new(ROOT.to_vec());
    let canon = b"/home/user/shared".to_vec();
    let first = r.record_resolution(b"a".to_vec(), b"/p/../shared".to_vec(), Some(canon.clone()));
    let second = r.record_resolution(b"b".to_vec(), b"/q/../shared".to_vec(), Some(canon.clone()));
    assert!(first);
    assert!(!second);
    assert_eq!(r.externals.len(), 1);
    let plan = r.plan(STAGING);
    assert_eq!(plan.len(), 1);
    assert_eq!(plan[0].source, canon);
}

#[test]
fn shared_leaf_names_get_distinct_destinations() {
    let mut r = Resolver::new(ROOT.to_vec());
    r.record_resolution(b"a".to_vec(), b"/one/lib".to_vec(), Some(b"/one/lib".to_vec()));
    r.record_resolution(b"b".to_vec(), b"/two/lib".to_vec(), Some(b"/two/lib".to_vec()));
    let plan = r.plan(STAGING);
    assert_eq!(plan.len(), 2);
    assert_eq!(plan[0].dest, b"~/remote-builds/proj/patches/0_lib".to_vec());
    assert_eq!(plan[1].dest, b"~/remote-builds/proj/patches/1_lib".to_vec());
    assert_ne!(plan[0].dest, plan[1].dest);
}

#[test]
fn malformed_lines_become_warnings() {
    let m = parse_manifest(b"[patch.crates-io]\nno equals here\nfoo = { path = \"../foo\" }\n");
    assert!(m.ok);
    let mut r = Resolver::new(ROOT.to_vec());
    r.note_malformed(b"/home/user/proj/Cargo.toml", &m);
    assert_eq!(r.warnings.len(), 1);
    match &r.warnings[0] {
        Warning::MalformedOverride { manifest, line } => {
            assert_eq!(manifest, &b"/home/user/proj/Cargo.toml".to_vec());
            assert_eq!(line, &b"no equals here".to_vec());
        },
        _ => panic!("expected a malformed-override warning"),
    }
    assert!(r.externals.is_empty());
}

#[test]
fn chained_override_paths_fold_into_one_pass() {
    // a patch tree declares its own override pointing further outward
    let mut r = Resolver::new(ROOT.to_vec());
    let outer = declared_paths(b"[patch.crates-io]\nmid = { path = \"../mid\" }\n");
    let (name, raw) = outer.into_iter().next().unwrap();
    let declared = join_path(ROOT, &raw);
    let fresh = r.record_resolution(name, declared, Some(b"/home/user/mid".to_vec()));
    assert!(fresh);
    // the fresh external's own manifest is read next
    let inner = declared_paths(b"[patch.crates-io]\ndeep = { path = \"../deep\" }\n");
    let (name2, raw2) = inner.into_iter().next().unwrap();
    let declared2 = join_path(b"/home/user/mid", &raw2);
    let fresh2 = r.record_resolution(name2, declared2, Some(b"/home/user/deep".to_vec()));
    assert!(fresh2);
    // a cycle back to an already collected tree is not followed again
    let back = r.record_resolution(
        b"mid-again".to_vec(),
        b"/home/user/deep/../mid".to_vec(),
        Some(b"/home/user/mid".to_vec()),
    );
    assert!(!back);
    let plan = r.plan(STAGING);
    assert_eq!(plan.len(), 2);
    assert_eq!(plan[0].source, b"/home/user/mid".to_vec());
    assert_eq!(plan[1].source, b"/home/user/deep".to_vec());
}

#[test]
fn absolute_declared_paths_are_kept() {
    let joined = join_path(ROOT, b"/opt/fork");
    assert_eq!(joined, b"/opt/fork".to_vec());
}

#[test]
fn inside_test_respects_component_boundaries() {
    assert!(is_inside(ROOT, ROOT));
    assert!(is_inside(ROOT, b"/home/user/proj/vendor"));
    assert!(!is_inside(ROOT, b"/home/user/projects"));
    assert!(!is_inside(ROOT, b"/home/user"));
}

#[test]
fn into_commands_returns_the_raw_tokens() {
    let cmds = RemoteCommands::Commands(vec![
        "build".to_string(),
        "--release".to_string(),
        "--all".to_string(),
    ]);
    assert_eq!(
        cmds.into_commands(),
        vec!["build".to_string(), "--release".to_string(), "--all".to_string()]
    );
}
