use abrasive::rustc_args::{
    parse_arguments, ArgData, ArgDisposition, ArgTarget, Argument, ColorMode, ParseOutcome, ParsedArguments,
};

fn parse(args: &[&str]) -> ParseOutcome<ParsedArguments> {
    let argv: Vec<String> = args.iter().map(|s| s.to_string()).collect();
    parse_arguments(&argv, ".")
}

fn parses(args: &[&str]) -> ParsedArguments {
    match parse(args) {
        ParseOutcome::Handled(a) => a,
        o => panic!("Got unexpected parse result: {:?}", o),
    }
}

fn fails(args: &[&str]) -> ParseOutcome<ParsedArguments> {
    match parse(args) {
        ParseOutcome::Handled(_) => panic!("Should not have parsed ok: `{:?}`", args),
        o => o,
    }
}

#[test]
fn test_parse_arguments_simple() {
    let h = parses(&["--emit", "link", "foo.rs", "--out-dir", "out", "--crate-name", "foo", "--crate-type", "lib"]);
    assert_eq!(h.output_dir.as_str(), "out");
    assert!(h.dep_info.is_none());
    assert!(h.externs.is_empty());
    let h = parses(&["--emit=link", "foo.rs", "--out-dir", "out", "--crate-name=foo", "--crate-type=lib"]);
    assert_eq!(h.output_dir.as_str(), "out");
    assert!(h.dep_info.is_none());
    let h = parses(&["--emit", "link", "foo.rs", "--out-dir=out", "--crate-name=foo", "--crate-type=lib"]);
    assert_eq!(h.output_dir.as_str(), "out");
    assert_eq!(
        parses(&[
            "--emit",
            "link",
            "-C",
            "opt-level=1",
            "foo.rs",
            "--out-dir",
            "out",
            "--crate-name",
            "foo",
            "--crate-type",
            "lib"
        ]),
        parses(&["--emit=link", "-Copt-level=1", "foo.rs", "--out-dir=out", "--crate-name=foo", "--crate-type=lib"])
    );
    let h = parses(&[
        "--emit",
        "link,dep-info",
        "foo.rs",
        "--out-dir",
        "out",
        "--crate-name",
        "my_crate",
        "--crate-type",
        "lib",
        "-C",
        "extra-filename=-abcxyz",
    ]);
    assert_eq!(h.output_dir.as_str(), "out");
    assert_eq!(h.dep_info.unwrap().as_str(), "my_crate-abcxyz.d");
    fails(&["--emit", "link", "--out-dir", "out", "--crate-name=foo", "--crate-type=lib"]);
    fails(&["--emit", "link", "foo.rs", "--crate-name=foo", "--crate-type=lib"]);
    fails(&["--emit", "asm", "foo.rs", "--out-dir", "out", "--crate-name=foo", "--crate-type=lib"]);
    fails(&["--emit", "asm,link", "foo.rs", "--out-dir", "out", "--crate-name=foo", "--crate-type=lib"]);
    fails(&["--emit", "asm,link,dep-info", "foo.rs", "--out-dir", "out", "--crate-name=foo", "--crate-type=lib"]);
    fails(&["--emit", "link", "foo.rs", "--out-dir", "out", "--crate-name=foo"]);
    fails(&["--emit", "link", "foo.rs", "--out-dir", "out", "--crate-type=lib"]);
    let h = parses(&[
        "--crate-name",
        "foo",
        "src/lib.rs",
        "--crate-type",
        "lib",
        "--emit=dep-info,link",
        "-C",
        "debuginfo=2",
        "-C",
        "metadata=d6ae26f5bcfb7733",
        "-C",
        "extra-filename=-d6ae26f5bcfb7733",
        "--out-dir",
        "/foo/target/debug/deps",
        "-L",
        "dependency=/foo/target/debug/deps",
        "--extern",
        "libc=/foo/target/debug/deps/liblibc-89a24418d48d484a.rlib",
        "--extern",
        "log=/foo/target/debug/deps/liblog-2f7366be74992849.rlib",
    ]);
    assert_eq!(h.output_dir.as_str(), "/foo/target/debug/deps");
    assert_eq!(h.crate_name, "foo");
    assert_eq!(h.dep_info.unwrap().as_str(), "foo-d6ae26f5bcfb7733.d");
    assert_eq!(
        h.externs,
        vec![
            "/foo/target/debug/deps/liblibc-89a24418d48d484a.rlib".to_string(),
            "/foo/target/debug/deps/liblog-2f7366be74992849.rlib".to_string(),
        ]
    );
}

#[test]
fn test_parse_arguments_incremental() {
    parses(&["--emit", "link", "foo.rs", "--out-dir", "out", "--crate-name", "foo", "--crate-type", "lib"]);
    let r = fails(&[
        "--emit",
        "link",
        "foo.rs",
        "--out-dir",
        "out",
        "--crate-name",
        "foo",
        "--crate-type",
        "lib",
        "-C",
        "incremental=/foo",
    ]);
    assert_eq!(r, ParseOutcome::CannotCache("incremental".to_string(), None));
}

#[test]
fn test_parse_arguments_dep_info_no_extra_filename() {
    let h = parses(&[
        "--crate-name",
        "foo",
        "--crate-type",
        "lib",
        "src/lib.rs",
        "--emit=dep-info,link",
        "--out-dir",
        "/out",
    ]);
    assert_eq!(h.dep_info, Some("foo.d".to_string()));
}

#[test]
fn test_parse_arguments_native_libs() {
    parses(&[
        "--crate-name",
        "foo",
        "--crate-type",
        "lib,staticlib",
        "--emit",
        "link",
        "-l",
        "bar",
        "foo.rs",
        "--out-dir",
        "out",
    ]);
    parses(&[
        "--crate-name",
        "foo",
        "--crate-type",
        "lib,staticlib",
        "--emit",
        "link",
        "-l",
        "static=bar",
        "foo.rs",
        "--out-dir",
        "out",
    ]);
    parses(&[
        "--crate-name",
        "foo",
        "--crate-type",
        "lib,staticlib",
        "--emit",
        "link",
        "-l",
        "dylib=bar",
        "foo.rs",
        "--out-dir",
        "out",
    ]);
}

#[test]
fn test_parse_arguments_non_rlib_crate() {
    parses(&["--crate-type", "rlib", "--emit", "link", "foo.rs", "--out-dir", "out", "--crate-name", "foo"]);
    parses(&["--crate-type", "lib", "--emit", "link", "foo.rs", "--out-dir", "out", "--crate-name", "foo"]);
    parses(&["--crate-type", "staticlib", "--emit", "link", "foo.rs", "--out-dir", "out", "--crate-name", "foo"]);
    parses(&["--crate-type", "rlib,staticlib", "--emit", "link", "foo.rs", "--out-dir", "out", "--crate-name", "foo"]);
    fails(&["--crate-type", "bin", "--emit", "link", "foo.rs", "--out-dir", "out", "--crate-name", "foo"]);
    fails(&["--crate-type", "rlib,dylib", "--emit", "link", "foo.rs", "--out-dir", "out", "--crate-name", "foo"]);
}

#[test]
fn test_parse_arguments_color() {
    let base = ["--emit", "link", "foo.rs", "--out-dir", "out", "--crate-name", "foo", "--crate-type", "lib"];
    let h = parses(&base);
    assert_eq!(h.color_mode, ColorMode::Auto);
    let mut a = base.to_vec();
    a.push("--color=always");
    assert_eq!(parses(&a).color_mode, ColorMode::On);
    let mut a = base.to_vec();
    a.push("--color=never");
    assert_eq!(parses(&a).color_mode, ColorMode::Off);
    let mut a = base.to_vec();
    a.push("--color=auto");
    assert_eq!(parses(&a).color_mode, ColorMode::Auto);
}

#[test]
fn test_parse_arguments_multiple_inputs() {
    fails(&["huh.rs", "--emit", "link", "foo.rs", "--out-dir", "out", "--crate-name", "foo", "--crate-type", "lib"]);
    parses(&["rustc", "--emit", "link", "foo.rs", "--out-dir", "out", "--crate-name", "foo", "--crate-type", "lib"]);
}

#[test]
fn test_parse_remap_path_prefix() {
    let h = parses(&[
        "--crate-name",
        "foo",
        "--crate-type",
        "lib",
        "./src/lib.rs",
        "--emit=dep-info,link",
        "--out-dir",
        "/out",
        "--remap-path-prefix",
        "/home/test=~",
        "--remap-path-prefix",
        "/root=~",
    ]);
    assert!(h.arguments.contains(&Argument::WithValue(
        "--remap-path-prefix".to_string(),
        ArgData::PassThrough("/home/test=~".to_string()),
        ArgDisposition::Separated
    )));
    assert!(h.arguments.contains(&Argument::WithValue(
        "--remap-path-prefix".to_string(),
        ArgData::PassThrough("/root=~".to_string()),
        ArgDisposition::Separated
    )));
}

#[test]
fn test_parse_target() {
    let h = parses(&[
        "--crate-name",
        "foo",
        "--crate-type",
        "lib",
        "./src/lib.rs",
        "--emit=dep-info,link",
        "--out-dir",
        "/out",
        "--target",
        "string",
    ]);
    assert!(h.arguments.contains(&Argument::WithValue(
        "--target".to_string(),
        ArgData::Target(ArgTarget::Name("string".to_owned())),
        ArgDisposition::Separated
    )));
    assert!(h.target_json.is_none());
    let h = parses(&[
        "--crate-name",
        "foo",
        "--crate-type",
        "lib",
        "./src/lib.rs",
        "--emit=dep-info,link",
        "--out-dir",
        "/out",
        "--target",
        "/path/to/target.json",
    ]);
    assert!(h.arguments.contains(&Argument::WithValue(
        "--target".to_string(),
        ArgData::Target(ArgTarget::Path("/path/to/target.json".to_string())),
        ArgDisposition::Separated
    )));
    assert_eq!(h.target_json, Some("/path/to/target.json".to_string()));
}
