use abrasive::auth::hex_encode;
use abrasive::digest::{cache_key_material, delimiters_ascii, hash_rustc_args};
use abrasive::rustc_args::{parse_arguments, ParseOutcome, ParsedArguments};

fn parsed(args: &[&str]) -> ParsedArguments {
    let argv: Vec<String> = args.iter().map(|s| s.to_string()).collect();
    match parse_arguments(&argv, ".") {
        ParseOutcome::Handled(p) => p,
        other => panic!("parse_arguments failed: {:?}\n  argv: {:?}", other, args),
    }
}

fn key(args: &[&str]) -> String {
    let p = parsed(args);
    assert!(delimiters_ascii(&p));
    hash_rustc_args(&p, None).expect("no target JSON is named")
}

const BASE: &[&str] = &[
    "--crate-name",
    "foo",
    "--edition=2021",
    "src/lib.rs",
    "--crate-type",
    "lib",
    "--emit=link,metadata,dep-info",
    "-C",
    "metadata=abc123",
    "-C",
    "extra-filename=-abc123",
    "--out-dir",
    "/tmp/target/debug/deps",
];

fn extend<'a>(extras: &[&'a str]) -> Vec<&'a str> {
    BASE.iter().chain(extras.iter()).copied().collect()
}

fn replaced<'a>(from: &str, to: &'a str) -> Vec<&'a str> {
    BASE.iter().copied().map(|s| if s == from { to } else { s }).collect()
}

#[test]
fn cfg_reorder_is_same() {
    let a = extend(&["--cfg", "feature=\"a\"", "--cfg", "feature=\"b\""]);
    let b = extend(&["--cfg", "feature=\"b\"", "--cfg", "feature=\"a\""]);
    assert_eq!(key(&a), key(&b));
}

#[test]
fn extern_reorder_is_same() {
    let a = extend(&[
        "--extern",
        "x=/tmp/target/debug/deps/libx-h1.rmeta",
        "--extern",
        "y=/tmp/target/debug/deps/liby-h2.rmeta",
    ]);
    let b = extend(&[
        "--extern",
        "y=/tmp/target/debug/deps/liby-h2.rmeta",
        "--extern",
        "x=/tmp/target/debug/deps/libx-h1.rmeta",
    ]);
    assert_eq!(key(&a), key(&b));
}

#[test]
fn check_cfg_reorder_is_same() {
    let a = extend(&["--check-cfg", "cfg(a)", "--check-cfg", "cfg(b)"]);
    let b = extend(&["--check-cfg", "cfg(b)", "--check-cfg", "cfg(a)"]);
    assert_eq!(key(&a), key(&b));
}

#[test]
fn cfg_concatenated_and_separated_are_same() {
    let a = extend(&["--cfg=feature=\"x\""]);
    let b = extend(&["--cfg", "feature=\"x\""]);
    assert_eq!(key(&a), key(&b));
}

#[test]
fn emit_concatenated_and_separated_are_same() {
    let mut a = BASE.to_vec();
    let pos = a.iter().position(|s| s.starts_with("--emit=")).unwrap();
    a.splice(pos..=pos, ["--emit", "link,metadata,dep-info"]);
    let b = BASE.to_vec();
    assert_eq!(key(&a), key(&b));
}

#[test]
fn out_dir_path_does_not_affect_key() {
    let a = replaced("/tmp/target/debug/deps", "/aaa/x");
    let b = replaced("/tmp/target/debug/deps", "/zzz/y");
    assert_eq!(key(&a), key(&b));
}

#[test]
fn extern_path_does_not_affect_key_when_basename_matches() {
    let a = extend(&["--extern", "x=/buildA/target/debug/deps/libx-h1.rmeta"]);
    let b = extend(&["--extern", "x=/buildB/target/debug/deps/libx-h1.rmeta"]);
    assert_eq!(key(&a), key(&b));
}

#[test]
fn dash_l_path_does_not_affect_key() {
    let a = extend(&["-L", "dependency=/aaa/target/debug/deps"]);
    let b = extend(&["-L", "dependency=/zzz/target/debug/deps"]);
    assert_eq!(key(&a), key(&b));
}

#[test]
fn diagnostic_width_does_not_affect_key() {
    let a = extend(&["--diagnostic-width", "80"]);
    let b = extend(&["--diagnostic-width", "120"]);
    assert_eq!(key(&a), key(&b));
}

#[test]
fn extern_basename_change_does_change_key() {
    let a = extend(&["--extern", "x=/tmp/target/debug/deps/libx-h1.rmeta"]);
    let b = extend(&["--extern", "x=/tmp/target/debug/deps/libx-h2.rmeta"]);
    assert_ne!(key(&a), key(&b));
}

#[test]
fn cfg_value_change_does_change_key() {
    let a = extend(&["--cfg", "feature=\"a\""]);
    let b = extend(&["--cfg", "feature=\"b\""]);
    assert_ne!(key(&a), key(&b));
}

#[test]
fn crate_name_change_does_change_key() {
    let a = BASE.to_vec();
    let mut b = BASE.to_vec();
    let pos = b.iter().position(|s| *s == "foo").unwrap();
    b[pos] = "bar";
    assert_ne!(key(&a), key(&b));
}

#[test]
fn metadata_hash_change_does_change_key() {
    let a = BASE.to_vec();
    let b = replaced("metadata=abc123", "metadata=xyz789");
    assert_ne!(key(&a), key(&b));
}

#[test]
fn color_setting_does_not_affect_key() {
    let a = extend(&["--color", "always"]);
    let b = extend(&["--color", "never"]);
    assert_eq!(key(&a), key(&b));
}

#[test]
fn leading_rustc_is_discounted() {
    let mut a = vec!["rustc"];
    a.extend_from_slice(BASE);
    let b = BASE.to_vec();
    assert_eq!(key(&a), key(&b));
}

#[test]
fn crate_type_lib_equals_rlib() {
    let a = replaced("lib", "rlib");
    let b = BASE.to_vec();
    assert_eq!(key(&a), key(&b));
}

#[test]
fn crate_type_value_set_is_order_independent() {
    let a = replaced("lib", "lib,staticlib");
    let b = replaced("lib", "staticlib,lib");
    let c = replaced("lib", "rlib,staticlib");
    let k = key(&a);
    assert_eq!(k, key(&b));
    assert_eq!(k, key(&c));
}

#[test]
fn edition_change_does_change_key() {
    let a = BASE.to_vec();
    let b = replaced("--edition=2021", "--edition=2018");
    assert_ne!(key(&a), key(&b));
}

#[test]
fn key_material_is_argv_then_sorted_names() {
    let p = parsed(&extend(&[
        "--cfg",
        "b",
        "--cfg",
        "a",
        "--extern",
        "y=/d/liby.rlib",
        "--extern",
        "x=/e/libx.rlib",
    ]));
    let m = cache_key_material(&p, None).unwrap();
    assert!(m.ends_with(b"--cfga--cfgblibx.rlib\0liby.rlib\0"), "{}", String::from_utf8_lossy(&m));
    assert!(m.starts_with(b"--crate-namefoo"));
}

#[test]
fn target_json_contents_are_keyed() {
    let p = parsed(&extend(&["--target", "/path/to/custom.json"]));
    let a = hash_rustc_args(&p, Some(b"{\"a\":1}")).unwrap();
    let b = hash_rustc_args(&p, Some(b"{\"a\":2}")).unwrap();
    assert_ne!(a, b);
    let m = cache_key_material(&p, Some(b"XYZ")).unwrap();
    assert!(m.ends_with(b"XYZ"));
}

#[test]
fn unreadable_target_json_gives_no_key() {
    let p = parsed(&extend(&["--target", "/path/to/custom.json"]));
    assert_eq!(hash_rustc_args(&p, None), None);
    assert_eq!(cache_key_material(&p, None), None);
}

#[test]
fn target_json_contents_ignored_without_a_json_target() {
    let p = parsed(BASE);
    assert_eq!(hash_rustc_args(&p, Some(b"XYZ")), hash_rustc_args(&p, None));
}

#[test]
fn key_is_hex_blake3_of_material() {
    let p = parsed(BASE);
    let m = cache_key_material(&p, None).unwrap();
    let k = hash_rustc_args(&p, None).unwrap();
    assert_eq!(k, blake3::hash(&m).to_hex().to_string());
    assert_eq!(k.len(), 64);
}

#[test]
fn hex_encode_writes_two_lowercase_digits_per_byte() {
    assert_eq!(hex_encode(&[0x0f, 0xa0, 0x00, 0xff]), "0fa000ff");
    assert_eq!(hex_encode(&[]), "");
}
