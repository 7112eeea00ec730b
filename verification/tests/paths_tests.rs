use splinch::{
    append_extension, check_pair_exists, resolve_output_path, resolve_xor_pair,
    strip_xor_extension, SplinchError,
};

fn b(s: &str) -> Vec<u8> {
    s.as_bytes().to_vec()
}

#[test]
fn append_extension_concatenates() {
    assert_eq!(
        append_extension(&b("dir/file.txt"), &b("xor1")),
        b("dir/file.txt.xor1")
    );
    assert_eq!(append_extension(&b("file"), &b("xor2")), b("file.xor2"));
}

#[test]
fn resolve_xor_pair_from_xor1() {
    let (pad, masked) = resolve_xor_pair(&b("data.bin.xor1")).unwrap();
    assert_eq!(pad, b("data.bin.xor1"));
    assert_eq!(masked, b("data.bin.xor2"));
}

#[test]
fn resolve_xor_pair_from_xor2() {
    let (pad, masked) = resolve_xor_pair(&b("dir/data.xor2")).unwrap();
    assert_eq!(pad, b("dir/data.xor1"));
    assert_eq!(masked, b("dir/data.xor2"));
}

#[test]
fn resolve_xor_pair_rejects_other_extensions() {
    assert_eq!(
        resolve_xor_pair(&b("data.bin")),
        Err(SplinchError::InvalidExtension)
    );
    assert_eq!(
        resolve_xor_pair(&b("data")),
        Err(SplinchError::InvalidExtension)
    );
    assert_eq!(
        resolve_xor_pair(&b("data.xor3")),
        Err(SplinchError::InvalidExtension)
    );
    assert_eq!(
        resolve_xor_pair(&b(".xor1")),
        Err(SplinchError::InvalidExtension)
    );
}

#[test]
fn pair_needs_both_files_present() {
    assert_eq!(check_pair_exists(true, true), Ok(()));
    assert_eq!(
        check_pair_exists(false, true),
        Err(SplinchError::PartnerNotFound)
    );
    assert_eq!(
        check_pair_exists(true, false),
        Err(SplinchError::PartnerNotFound)
    );
    assert_eq!(
        check_pair_exists(false, false),
        Err(SplinchError::PartnerNotFound)
    );
}

#[test]
fn strip_xor_extension_recovers_base() {
    assert_eq!(
        strip_xor_extension(&b("a/b.tar.gz.xor2")).unwrap(),
        b("a/b.tar.gz")
    );
    assert_eq!(strip_xor_extension(&b("name.xor1")).unwrap(), b("name"));
    assert_eq!(
        strip_xor_extension(&b("name.txt")),
        Err(SplinchError::InvalidExtension)
    );
}

#[test]
fn resolve_output_keeps_free_base() {
    let existing: Vec<Vec<u8>> = Vec::new();
    assert_eq!(resolve_output_path(&b("out.txt"), &existing), b("out.txt"));
    let existing = vec![b("other.txt")];
    assert_eq!(resolve_output_path(&b("out.txt"), &existing), b("out.txt"));
}

#[test]
fn resolve_output_inserts_counter_before_extension() {
    let existing = vec![b("dir/name.txt")];
    assert_eq!(
        resolve_output_path(&b("dir/name.txt"), &existing),
        b("dir/name.1.txt")
    );
    let existing = vec![b("dir/name.txt"), b("dir/name.1.txt"), b("dir/name.2.txt")];
    assert_eq!(
        resolve_output_path(&b("dir/name.txt"), &existing),
        b("dir/name.3.txt")
    );
}

#[test]
fn resolve_output_without_extension_appends_counter() {
    let existing = vec![b("name")];
    assert_eq!(resolve_output_path(&b("name"), &existing), b("name.1"));
}

#[test]
fn resolve_output_is_deterministic() {
    let existing = vec![b("x.dat"), b("x.1.dat")];
    let first = resolve_output_path(&b("x.dat"), &existing);
    let second = resolve_output_path(&b("x.dat"), &existing);
    assert_eq!(first, second);
    assert_eq!(first, b("x.2.dat"));
}
