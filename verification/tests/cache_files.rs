use abrasive::cache_io::{object_step, ObjectStep};
use abrasive::cache_plan::{cache_root, output_file_names, plan_outputs, refine_outputs};
use abrasive::disk_cache::DiskCache;
use abrasive::rustc_args::{parse_arguments, ParseOutcome, ParsedArguments};

fn sv(v: &[&str]) -> Vec<String> {
    v.iter().map(|s| s.to_string()).collect()
}

#[test]
fn metadata_only_drops_binaries_and_adds_rmeta() {
    let r = refine_outputs(&sv(&["dep-info", "metadata"]), sv(&["libfoo-1.rlib", "foo-1.d", "libfoo-1.so"]));
    assert_eq!(r, sv(&["libfoo-1.rmeta"]));
}

#[test]
fn link_and_metadata_keep_rlib_and_add_rmeta() {
    let r = refine_outputs(&sv(&["link", "metadata"]), sv(&["libfoo-1.rlib"]));
    assert_eq!(r, sv(&["libfoo-1.rlib", "libfoo-1.rmeta"]));
    let r = refine_outputs(&sv(&["link", "metadata"]), sv(&["libfoo-1.rlib", "libfoo-1.rmeta"]));
    assert_eq!(r, sv(&["libfoo-1.rlib", "libfoo-1.rmeta"]));
}

#[test]
fn link_only_is_untouched() {
    let r = refine_outputs(&sv(&["link"]), sv(&["libfoo-1.rlib", "libfoo-1.a"]));
    assert_eq!(r, sv(&["libfoo-1.rlib", "libfoo-1.a"]));
}

fn parsed(args: &[&str]) -> ParsedArguments {
    let argv: Vec<String> = args.iter().map(|s| s.to_string()).collect();
    match parse_arguments(&argv, ".") {
        ParseOutcome::Handled(p) => p,
        other => panic!("{:?}", other),
    }
}

#[test]
fn planned_objects() {
    let p = parsed(&[
        "--crate-name",
        "foo",
        "src/lib.rs",
        "--crate-type",
        "lib",
        "--emit=dep-info,link,metadata",
        "-C",
        "extra-filename=-abc",
        "--out-dir",
        "/t/deps",
    ]);
    let objs = plan_outputs(&p, sv(&["libfoo-abc.rlib"]));
    let keys: Vec<&str> = objs.iter().map(|o| o.key.as_str()).collect();
    assert_eq!(keys, vec!["libfoo-abc.rlib", "libfoo-abc.rmeta", "foo-abc.d"]);
    assert_eq!(objs[0].path, "/t/deps/libfoo-abc.rlib");
    assert!(objs.iter().all(|o| !o.optional));
}

#[test]
fn rustc_file_name_output() {
    assert_eq!(output_file_names("a\nb\r\nc"), sv(&["a", "b", "c"]));
    assert_eq!(output_file_names("a\n"), sv(&["a"]));
    assert_eq!(output_file_names(""), Vec::<String>::new());
    assert_eq!(output_file_names("a\n\nb\r"), sv(&["a", "", "b\r"]));
}

#[test]
fn cache_locations() {
    assert_eq!(cache_root(Some("/home/me")), "/home/me/.cache/drop-point");
    assert_eq!(cache_root(None), "/tmp/.cache/drop-point");
    let c = DiskCache::with_root("/c".to_string());
    assert_eq!(c.path_for("abcdef"), "/c/a/b/abcdef");
}

#[test]
fn object_steps() {
    assert_eq!(object_step(true, false), ObjectStep::Keep);
    assert_eq!(object_step(false, true), ObjectStep::Skip);
    assert_eq!(object_step(false, false), ObjectStep::Fail);
}
