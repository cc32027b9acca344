use abrasive::protocol::file_entry;
use abrasive::rustc_args::{parse_arguments, ParseOutcome};

fn sv(v: &[&str]) -> Vec<String> {
    v.iter().map(|s| s.to_string()).collect()
}

#[test]
fn multiple_inputs_are_named_in_the_reason() {
    let r = parse_arguments(
        &sv(&["huh.rs", "--emit", "link", "foo.rs", "--out-dir", "out", "--crate-name", "foo", "--crate-type", "lib"]),
        ".",
    );
    assert_eq!(
        r,
        ParseOutcome::CannotCache(
            "multiple input files".to_string(),
            Some("prev = Some(\"huh.rs\"), next = Raw(\"foo.rs\")".to_string())
        )
    );
}

#[test]
fn target_with_json_file_beside_it_is_unsure() {
    let dir = tempfile::tempdir().unwrap();
    let _json = tempfile::Builder::new().prefix("custom").suffix(".json").rand_bytes(0).tempfile_in(dir.path()).unwrap();
    let target = dir.path().join("custom").to_string_lossy().into_owned();
    let r = parse_arguments(
        &sv(&["--emit", "link", "foo.rs", "--out-dir", "out", "--crate-name", "foo", "--crate-type", "lib", "--target", &target]),
        ".",
    );
    assert_eq!(r, ParseOutcome::CannotCache("target unsure".to_string(), None));
}

#[test]
fn static_libraries_are_found_on_native_paths() {
    let dir = tempfile::tempdir().unwrap();
    let _lib = tempfile::Builder::new().prefix("libbar").suffix(".a").rand_bytes(0).tempfile_in(dir.path()).unwrap();
    let native = format!("native={}", dir.path().to_string_lossy());
    let r = parse_arguments(
        &sv(&[
            "--emit",
            "link",
            "foo.rs",
            "--out-dir",
            "out",
            "--crate-name",
            "foo",
            "--crate-type",
            "lib",
            "-l",
            "static=bar",
            "-L",
            &native,
        ]),
        "/",
    );
    match r {
        ParseOutcome::Handled(p) => {
            assert_eq!(p.staticlibs, vec![format!("{}/libbar.a", dir.path().to_string_lossy())]);
        }
        other => panic!("{:?}", other),
    }
}

#[test]
fn manifest_entries_hash_contents() {
    let e = file_entry("src/lib.rs".to_string(), b"fn main() {}");
    assert_eq!(e.path, "src/lib.rs");
    assert_eq!(e.hash, *blake3::hash(b"fn main() {}").as_bytes());
}
