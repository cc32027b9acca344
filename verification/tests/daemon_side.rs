use abrasive::auth::{begin_validation, check_not_expired, complete_validation, AuthError, TokenCache, TokenRow, Validation};
use abrasive::daemon::{
    amend_args_with_platform, artifact_name, bearer_token, build_cargo_args, build_dir, needed_files, parse_cargo_artifact,
    plan_build, rewrite_run_as_build, stale_paths, BuildPlan, CargoMessage,
};
use abrasive::protocol::{Abi, Arch, FileEntry, Os, PlatformTriple};
use abrasive::slots::{slot_for_user, FingerprintCache, SlotTable};
use sha2::Digest;

fn sv(v: &[&str]) -> Vec<String> {
    v.iter().map(|s| s.to_string()).collect()
}

fn linux() -> PlatformTriple {
    PlatformTriple { arch: Arch::X86_64, os: Os::Linux, abi: Abi::Gnu }
}

#[test]
fn slot_affinity_is_fnv1a_of_login() {
    assert_eq!(slot_for_user(""), 1);
    assert_eq!(slot_for_user("alice"), 3);
    assert_eq!(slot_for_user("bob"), 0);
    assert_eq!(slot_for_user("octocat"), 2);
}

#[test]
fn acquire_prefers_affinity_then_first_free() {
    let mut t = SlotTable::new();
    let a = t.try_acquire("team", "scope", "alice").unwrap();
    assert_eq!(a.index, 3);
    let b = t.try_acquire("team", "scope", "alice").unwrap();
    assert_eq!(b.index, 0);
    let c = t.try_acquire("team", "scope", "alice").unwrap();
    assert_eq!(c.index, 1);
    let d = t.try_acquire("team", "scope", "bob").unwrap();
    assert_eq!(d.index, 2);
    assert!(t.try_acquire("team", "scope", "octocat").is_none());
    let other = t.try_acquire("team", "other", "alice").unwrap();
    assert_eq!(other.index, 3);
    t.release(&b);
    let e = t.try_acquire("team", "scope", "alice").unwrap();
    assert_eq!(e.index, 0);
    t.release(&a);
    let f = t.try_acquire("team", "scope", "alice").unwrap();
    assert_eq!(f.index, 3);
}

#[test]
fn slot_paths() {
    let mut t = SlotTable::new();
    let g = t.try_acquire("acme", "web", "bob").unwrap();
    assert_eq!(g.workspace("/root", "acme", "web"), "/root/acme_web/slot0");
    assert_eq!(g.tmpfs_target("acme", "web"), "/dev/shm/abrasive-targets/acme_web/slot0");
}

#[test]
fn fingerprint_read_back() {
    let mut t = SlotTable::new();
    let g = t.try_acquire("acme", "web", "bob").unwrap();
    let mut fc = FingerprintCache::new();
    let fp = [7u8; 32];
    assert!(!fc.matches(&g, "acme", "web", &fp));
    fc.insert(&g, "acme", "web", fp);
    assert!(fc.matches(&g, "acme", "web", &fp));
    assert!(!fc.matches(&g, "acme", "api", &fp));
    assert!(!fc.matches(&g, "acme", "web", &[8u8; 32]));
    fc.insert(&g, "acme", "web", [8u8; 32]);
    assert!(!fc.matches(&g, "acme", "web", &fp));
    assert!(fc.matches(&g, "acme", "web", &[8u8; 32]));
}

#[test]
fn run_is_built_and_program_args_dropped() {
    assert_eq!(rewrite_run_as_build(sv(&["run", "--release", "--", "x"])), (sv(&["build", "--release"]), true));
    assert_eq!(rewrite_run_as_build(sv(&["run"])), (sv(&["build"]), true));
    assert_eq!(rewrite_run_as_build(sv(&["test", "--", "x"])), (sv(&["test", "--", "x"]), false));
    assert_eq!(rewrite_run_as_build(sv(&[])), (sv(&[]), false));
}

#[test]
fn target_added_where_accepted_and_missing() {
    assert_eq!(amend_args_with_platform(sv(&["build"]), linux()), sv(&["build", "--target", "x86_64-unknown-linux-gnu"]));
    assert_eq!(amend_args_with_platform(sv(&["build", "--target=x"]), linux()), sv(&["build", "--target=x"]));
    assert_eq!(amend_args_with_platform(sv(&["build", "--target", "x"]), linux()), sv(&["build", "--target", "x"]));
    assert_eq!(amend_args_with_platform(sv(&["fmt"]), linux()), sv(&["fmt"]));
    let mac = PlatformTriple { arch: Arch::Aarch64, os: Os::Mac, abi: Abi::Msvc };
    assert_eq!(amend_args_with_platform(sv(&["doc"]), mac), sv(&["doc", "--target", "aarch64-apple-darwin"]));
}

#[test]
fn cargo_command_for_run() {
    assert_eq!(
        build_cargo_args(sv(&["run", "--bin", "x", "--", "arg"]), linux()),
        (
            sv(&[
                "build",
                "--bin",
                "x",
                "--target",
                "x86_64-unknown-linux-gnu",
                "--message-format=json-render-diagnostics"
            ]),
            true
        )
    );
}

#[test]
fn build_plans() {
    assert_eq!(plan_build(sv(&["nop"]), linux()), BuildPlan::Nop);
    assert_eq!(plan_build(sv(&["clean"]), linux()), BuildPlan::Clean { expunge: false });
    assert_eq!(plan_build(sv(&["clean", "--expunge"]), linux()), BuildPlan::Clean { expunge: true });
    assert_eq!(
        plan_build(sv(&["check"]), linux()),
        BuildPlan::Cargo { args: sv(&["check", "--target", "x86_64-unknown-linux-gnu"]), run_it: false }
    );
}

#[test]
fn build_directory() {
    assert_eq!(build_dir("/w", Some("crates/a")), "/w/crates/a");
    assert_eq!(build_dir("/w", None), "/w");
}

fn entry(p: &str, h: u8) -> FileEntry {
    FileEntry { path: p.to_string(), hash: [h; 32] }
}

#[test]
fn sync_needs_changed_and_missing_files() {
    let client = vec![entry("a", 1), entry("b", 2), entry("c", 3)];
    let local = vec![entry("a", 1), entry("b", 9), entry("old", 4)];
    assert_eq!(needed_files(&client, &local), sv(&["b", "c"]));
    assert_eq!(stale_paths(&local, &client), sv(&["old"]));
    assert_eq!(needed_files(&client, &client), Vec::<String>::new());
}

#[test]
fn cargo_artifact_lines() {
    let m = CargoMessage {
        reason: Some("compiler-artifact".to_string()),
        executable: Some("/t/debug/app".to_string()),
        target_kinds: Some(vec![Some("lib".to_string()), None, Some("bin".to_string())]),
    };
    assert_eq!(parse_cargo_artifact(&m), Some("/t/debug/app".to_string()));
    let lib = CargoMessage { target_kinds: Some(vec![Some("lib".to_string())]), ..m.clone() };
    assert_eq!(parse_cargo_artifact(&lib), None);
    let other = CargoMessage { reason: Some("build-finished".to_string()), ..m.clone() };
    assert_eq!(parse_cargo_artifact(&other), None);
    let no_exe = CargoMessage { executable: None, ..m };
    assert_eq!(parse_cargo_artifact(&no_exe), None);
    assert_eq!(artifact_name("/t/debug/app"), "app");
    assert_eq!(artifact_name("/"), "artifact");
}

#[test]
fn bearer_tokens() {
    assert_eq!(bearer_token(Some("Bearer abc")), Some("abc".to_string()));
    assert_eq!(bearer_token(Some("Bearer ")), None);
    assert_eq!(bearer_token(Some("Basic abc")), None);
    assert_eq!(bearer_token(None), None);
}

#[test]
fn token_validation_flow() {
    let mut cache = TokenCache::new();
    match begin_validation("ghp_123", &cache, 0) {
        Validation::Rejected(e) => assert_eq!(e, AuthError::InvalidTokenFormat),
        other => panic!("{:?}", other),
    }
    let (key, hex) = match begin_validation("abrasive_xyz", &cache, 0) {
        Validation::Lookup { key, hash_hex } => (key, hash_hex),
        other => panic!("{:?}", other),
    };
    assert_eq!(hex.len(), 64);
    let expect: [u8; 32] = sha2::Sha256::digest(b"abrasive_xyz").into();
    assert_eq!(key, expect);
    assert_eq!(complete_validation(&mut cache, key, None, 0, 0), Err(AuthError::UnknownToken));
    let row = TokenRow { user_id: "u1".to_string(), expires_at: Some("2000-01-01T00:00:00Z".to_string()) };
    let now_utc: i128 = 1_700_000_000_000_000_000;
    assert_eq!(complete_validation(&mut cache, key, Some(row), now_utc, 0), Err(AuthError::TokenExpired));
    let row = TokenRow { user_id: "u1".to_string(), expires_at: Some("2999-01-01T00:00:00Z".to_string()) };
    assert_eq!(complete_validation(&mut cache, key, Some(row), now_utc, 1000), Ok("u1".to_string()));
    match begin_validation("abrasive_xyz", &cache, 1000 + 299_999) {
        Validation::Cached(u) => assert_eq!(u, "u1"),
        other => panic!("{:?}", other),
    }
    match begin_validation("abrasive_xyz", &cache, 1000 + 300_000) {
        Validation::Lookup { .. } => {},
        other => panic!("{:?}", other),
    }
}

#[test]
fn expiry_parse_errors() {
    assert_eq!(check_not_expired(None, 0), Ok(()));
    match check_not_expired(Some("not a date"), 0) {
        Err(AuthError::TimestampParse(m)) => assert!(!m.is_empty()),
        other => panic!("{:?}", other),
    }
}

#[test]
fn default_tables_start_empty() {
    let mut t = SlotTable::default();
    let g = t.try_acquire("team", "scope", "alice").unwrap();
    assert_eq!(g.index, slot_for_user("alice"));
    let mut c = FingerprintCache::default();
    assert!(!c.matches(&g, "team", "scope", &[1u8; 32]));
    c.insert(&g, "team", "scope", [1u8; 32]);
    assert!(c.matches(&g, "team", "scope", &[1u8; 32]));
}
