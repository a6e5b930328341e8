use scaffold::manifest::patch_manifest;

#[test]
fn patches_the_name_line_and_nothing_else() {
    let content = b"[package]\nname = \"template\"\nversion = \"0.1.0\"\n\n# comment\n";
    let out = patch_manifest(content, b"my-app");
    assert_eq!(
        out,
        b"[package]\nname = \"my-app\"\nversion = \"0.1.0\"\n\n# comment".to_vec()
    );
}

#[test]
fn patch_is_idempotent() {
    let content = b"[package]\nname = \"template\"\nversion = \"0.1.0\"\n\n# comment";
    let once = patch_manifest(content, b"my-app");
    let twice = patch_manifest(&once, b"my-app");
    assert_eq!(once, twice);
}

#[test]
fn keeps_a_manifest_without_a_name_line() {
    let content = b"[package]\nversion = \"1\"";
    let out = patch_manifest(content, b"my-app");
    assert_eq!(out, content.to_vec());
}

#[test]
fn strips_carriage_returns_of_terminated_lines() {
    let out = patch_manifest(b"name = \"old\"\r\nrest = 1", b"my-app");
    assert_eq!(out, b"name = \"my-app\"\nrest = 1".to_vec());
}

#[test]
fn rewrites_every_line_with_the_prefix() {
    let content = b"name = \"a\"\nx = 1\nname = \"b\"";
    let out = patch_manifest(content, b"my-app");
    assert_eq!(out, b"name = \"my-app\"\nx = 1\nname = \"my-app\"".to_vec());
}

#[test]
fn leaves_lines_with_other_prefixes_alone() {
    let content = b"names = \"x\"\nrename = \"y\"";
    let out = patch_manifest(content, b"my-app");
    assert_eq!(out, content.to_vec());
}

#[test]
fn empty_content_stays_empty() {
    let out = patch_manifest(b"", b"my-app");
    assert_eq!(out, b"".to_vec());
}

#[test]
fn a_lone_name_line_is_replaced_whole() {
    let out = patch_manifest(b"name = \"template\"", b"my-app");
    assert_eq!(out, b"name = \"my-app\"".to_vec());
}
