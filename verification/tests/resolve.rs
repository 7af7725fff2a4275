use peershare::error::ErrorKind;
use peershare::resolve::resolve_path;

fn root() -> Vec<u8> {
    b"/srv/shared".to_vec()
}

#[test]
fn plain_name_resolves_under_root() {
    let p = resolve_path(&root(), &b"a.txt".to_vec()).unwrap();
    assert_eq!(p, b"/srv/shared/a.txt".to_vec());
}

#[test]
fn nested_name_resolves_in_order() {
    let p = resolve_path(&root(), &b"a/b/c".to_vec()).unwrap();
    assert_eq!(p, b"/srv/shared/a/b/c".to_vec());
}

#[test]
fn empty_name_resolves_to_root() {
    let p = resolve_path(&root(), &b"".to_vec()).unwrap();
    assert_eq!(p, b"/srv/shared".to_vec());
}

#[test]
fn current_directory_components_are_skipped() {
    let p = resolve_path(&root(), &b"./a/./b".to_vec()).unwrap();
    assert_eq!(p, b"/srv/shared/a/b".to_vec());
}

#[test]
fn doubled_and_trailing_separators_are_skipped() {
    let p = resolve_path(&root(), &b"a//b/".to_vec()).unwrap();
    assert_eq!(p, b"/srv/shared/a/b".to_vec());
}

#[test]
fn parent_component_is_rejected() {
    let err = resolve_path(&root(), &b"../secret".to_vec()).unwrap_err();
    assert_eq!(err.kind, ErrorKind::InvalidPath);
}

#[test]
fn inner_parent_component_is_rejected() {
    let err = resolve_path(&root(), &b"a/../secret".to_vec()).unwrap_err();
    assert_eq!(err.kind, ErrorKind::InvalidPath);
}

#[test]
fn trailing_parent_component_is_rejected() {
    let err = resolve_path(&root(), &b"a/..".to_vec()).unwrap_err();
    assert_eq!(err.kind, ErrorKind::InvalidPath);
}

#[test]
fn root_component_is_rejected() {
    let err = resolve_path(&root(), &b"/etc/passwd".to_vec()).unwrap_err();
    assert_eq!(err.kind, ErrorKind::InvalidPath);
}

#[test]
fn dot_prefixed_name_is_a_plain_component() {
    // ".hidden" is a normal single component, not a traversal
    let p = resolve_path(&root(), &b".hidden".to_vec()).unwrap();
    assert_eq!(p, b"/srv/shared/.hidden".to_vec());
}

#[test]
fn resolved_path_always_starts_with_root() {
    for name in [&b"a.txt"[..], b"x/y", b"./ok", b"a..b", b"..."] {
        let p = resolve_path(&root(), &name.to_vec()).unwrap();
        assert!(p.starts_with(&root()));
    }
}
