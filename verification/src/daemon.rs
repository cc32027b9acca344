//! The build daemon's decisions: which files a client must send, which local
//! files are stale, how a build request becomes a cargo command line, and
//! what to make of cargo's messages.
use vstd::prelude::*;
use crate::paths::{file_name, join_path, path_file_name, path_join};
use crate::cache_io::{zstd_compress, zstd_frame};
use crate::protocol::{cargo_target, FileEntry, PlatformTriple};
use crate::rustc_args::{contains_text, copy_strings, strings_view};
use crate::text::{chars_equal, chars_of, copy_string, has_prefix, owned, same_text, slice_chars, starts_with, string_of};

verus! {

/// The cargo commands that accept `--target`.
pub open spec fn target_commands() -> Seq<Seq<char>> {
    seq!["build"@, "check"@, "test"@, "bench"@, "clippy"@, "doc"@]
}

/// `cargo run ARGS -- PROGRAM_ARGS` is built as `cargo build ARGS` (the
/// executable is shipped back to be run by the client); other commands are
/// left as they are. The flag says whether the command was `run`.
pub open spec fn run_as_build(args: Seq<Seq<char>>) -> (Seq<Seq<char>>, bool) {
    if args.len() == 0 || args[0] != "run"@ {
        (args, false)
    } else {
        (seq!["build"@] + args.skip(1).take(until_separator(args.skip(1))), true)
    }
}

/// The number of leading elements before the first `--`.
pub open spec fn until_separator(args: Seq<Seq<char>>) -> int
    decreases args.len(),
{
    if args.len() == 0 || args[0] == "--"@ {
        0
    } else {
        1 + until_separator(args.drop_first())
    }
}

/// Rewrite `cargo run` as `cargo build` ([`run_as_build`]).
pub fn rewrite_run_as_build(args: Vec<String>) -> (r: (Vec<String>, bool))
    ensures
        (strings_view(r.0@), r.1) == run_as_build(strings_view(args@)),
{
    let ghost av = strings_view(args@);
    if args.len() == 0 || !same_text(args[0].as_str(), "run") {
        return (args, false);
    }
    let mut out: Vec<String> = Vec::new();
    out.push(owned("build"));
    let ghost rest = av.skip(1);
    let mut i: usize = 1;
    let mut go = i < args.len();
    assert(rest.take(0) =~= Seq::<Seq<char>>::empty());
    assert(strings_view(out@) =~= seq!["build"@] + rest.take(0));
    while go
        invariant
            1 <= i <= args.len(),
            av == strings_view(args@),
            rest == av.skip(1),
            go ==> i < args.len(),
            forall|j: int| 0 <= j < i - 1 ==> rest[j] != "--"@,
            !go ==> (i == args.len() || rest[i - 1] == "--"@),
            strings_view(out@) == seq!["build"@] + rest.take(i - 1),
        decreases args.len() - i + (if go { 1int } else { 0int }),
    {
        assert(rest[i - 1] == args@[i as int]@);
        if same_text(args[i].as_str(), "--") {
            go = false;
        } else {
            let ghost before = strings_view(out@);
            out.push(copy_string(&args[i]));
            assert(strings_view(out@) =~= before.push(args@[i as int]@));
            assert(rest.take(i as int) =~= rest.take(i - 1).push(rest[i - 1]));
            assert(strings_view(out@) =~= seq!["build"@] + rest.take(i as int));
            i = i + 1;
            go = i < args.len();
        }
    }
    proof {
        lemma_until_separator(rest, i - 1);
    }
    (out, true)
}

proof fn lemma_until_separator(args: Seq<Seq<char>>, k: int)
    requires
        0 <= k <= args.len(),
        forall|j: int| 0 <= j < k ==> args[j] != "--"@,
        k == args.len() || args[k] == "--"@,
    ensures
        until_separator(args) == k,
    decreases args.len(),
{
    if k > 0 {
        assert(args[0] != "--"@);
        assert forall|j: int| 0 <= j < k - 1 implies args.drop_first()[j] != "--"@ by {
            assert(args.drop_first()[j] == args[j + 1]);
        }
        lemma_until_separator(args.drop_first(), k - 1);
    }
}

/// `cargo run` is built as `cargo build` with the same cargo arguments: the
/// program's arguments (after `--`) are dropped, and the flag says the
/// executable is to be shipped back. Any other command line is kept as it
/// is, flagged as not run.
pub proof fn law_run_built_as_build(cargo_args: Seq<Seq<char>>, program_args: Seq<Seq<char>>, other: Seq<Seq<char>>)
    requires
        forall|j: int| 0 <= j < cargo_args.len() ==> #[trigger] cargo_args[j] != "--"@,
    ensures
        run_as_build(seq!["run"@] + cargo_args + seq!["--"@] + program_args) == (seq!["build"@] + cargo_args, true),
        run_as_build(seq!["run"@] + cargo_args) == (seq!["build"@] + cargo_args, true),
        other.len() == 0 || other[0] != "run"@ ==> run_as_build(other) == (other, false),
{
    let a = seq!["run"@] + cargo_args + seq!["--"@] + program_args;
    let rest = cargo_args + seq!["--"@] + program_args;
    assert(a.skip(1) =~= rest);
    assert(rest[cargo_args.len() as int] == "--"@);
    lemma_until_separator(rest, cargo_args.len() as int);
    assert(rest.take(cargo_args.len() as int) =~= cargo_args);
    let b = seq!["run"@] + cargo_args;
    assert(b.skip(1) =~= cargo_args);
    lemma_until_separator(cargo_args, cargo_args.len() as int);
    assert(cargo_args.take(cargo_args.len() as int) =~= cargo_args);
}

/// Whether the arguments already choose a target (`--target X` or `--target=X`).
pub open spec fn has_target(args: Seq<Seq<char>>) -> bool {
    exists|i: int| 0 <= i < args.len() && (#[trigger] args[i] == "--target"@ || starts_with(args[i], "--target="@))
}

/// Whether the cargo command accepts `--target`.
pub open spec fn accepts_target(args: Seq<Seq<char>>) -> bool {
    args.len() > 0 && target_commands().contains(args[0])
}

/// The cargo arguments with `--target <host platform>` added when the
/// command accepts a target and none is given.
pub open spec fn with_platform(args: Seq<Seq<char>>, platform: PlatformTriple) -> Seq<Seq<char>> {
    if accepts_target(args) && !has_target(args) {
        args + seq!["--target"@, cargo_target(platform).unwrap()]
    } else {
        args
    }
}

fn is_target_command(cmd: &str) -> (r: bool)
    ensures
        r == target_commands().contains(cmd@),
{
    let r = same_text(cmd, "build") || same_text(cmd, "check") || same_text(cmd, "test") || same_text(cmd, "bench")
        || same_text(cmd, "clippy") || same_text(cmd, "doc");
    proof {
        let tc = target_commands();
        if r {
            if cmd@ == "build"@ { assert(tc[0] == cmd@); }
            if cmd@ == "check"@ { assert(tc[1] == cmd@); }
            if cmd@ == "test"@ { assert(tc[2] == cmd@); }
            if cmd@ == "bench"@ { assert(tc[3] == cmd@); }
            if cmd@ == "clippy"@ { assert(tc[4] == cmd@); }
            if cmd@ == "doc"@ { assert(tc[5] == cmd@); }
        }
    }
    r
}

fn mentions_target(args: &Vec<String>) -> (r: bool)
    ensures
        r == has_target(strings_view(args@)),
{
    let ghost av = strings_view(args@);
    let eq_form = chars_of("--target=");
    let mut i: usize = 0;
    while i < args.len()
        invariant
            0 <= i <= args.len(),
            av == strings_view(args@),
            eq_form@ == "--target="@,
            forall|j: int| 0 <= j < i ==> !(#[trigger] av[j] == "--target"@ || starts_with(av[j], "--target="@)),
        decreases args.len() - i,
    {
        assert(av[i as int] == args@[i as int]@);
        let c = chars_of(args[i].as_str());
        if same_text(args[i].as_str(), "--target") || has_prefix(c.as_slice(), eq_form.as_slice()) {
            return true;
        }
        i = i + 1;
    }
    false
}

/// Add `--target` for the host platform where cargo needs it
/// ([`with_platform`]). The platform must have a cargo target name when one
/// is added.
pub fn amend_args_with_platform(args: Vec<String>, platform: PlatformTriple) -> (r: Vec<String>)
    requires
        accepts_target(strings_view(args@)) && !has_target(strings_view(args@)) ==> cargo_target(platform) is Some,
    ensures
        strings_view(r@) == with_platform(strings_view(args@), platform),
{
    let accepts = args.len() > 0 && is_target_command(args[0].as_str());
    proof {
        if args.len() > 0 {
            assert(strings_view(args@)[0] == args@[0]@);
        }
    }
    if accepts && !mentions_target(&args) {
        let mut args = args;
        let ghost before = strings_view(args@);
        args.push(owned("--target"));
        args.push(platform.as_cargo_target_string());
        assert(strings_view(args@) =~= before + seq!["--target"@, cargo_target(platform).unwrap()]);
        args
    } else {
        args
    }
}

/// The command of a cargo command line is one that compiles the workspace
/// and accepts `--target`: `build`, `check`, `test`, `bench`, `clippy` or
/// `doc`.
pub open spec fn compiling_command(args: Seq<Seq<char>>) -> bool {
    args.len() > 0 && (args[0] == "build"@ || args[0] == "check"@ || args[0] == "test"@ || args[0] == "bench"@
        || args[0] == "clippy"@ || args[0] == "doc"@)
}

/// No argument chooses a target, as `--target X` or `--target=X`.
pub open spec fn no_target_chosen(args: Seq<Seq<char>>) -> bool {
    forall|i: int| 0 <= i < args.len() ==> #[trigger] args[i] != "--target"@ && !starts_with(args[i], "--target="@)
}

/// The host platform is added as target exactly to the compiling commands
/// (`build`, `check`, `test`, `bench`, `clippy`, `doc`) that choose none:
/// such a command line is followed by `--target` and the platform's cargo
/// target name, and every other command line is left as it is.
pub proof fn law_host_target_added(args: Seq<Seq<char>>, platform: PlatformTriple)
    ensures
        compiling_command(args) && no_target_chosen(args) ==> with_platform(args, platform) == args + seq![
            "--target"@,
            cargo_target(platform).unwrap(),
        ],
        !(compiling_command(args) && no_target_chosen(args)) ==> with_platform(args, platform) == args,
{
    let tc = target_commands();
    if args.len() > 0 {
        let c = args[0];
        if c == "build"@ { assert(tc[0] == c); }
        if c == "check"@ { assert(tc[1] == c); }
        if c == "test"@ { assert(tc[2] == c); }
        if c == "bench"@ { assert(tc[3] == c); }
        if c == "clippy"@ { assert(tc[4] == c); }
        if c == "doc"@ { assert(tc[5] == c); }
        if tc.contains(c) {
            let k = choose|k: int| 0 <= k < tc.len() && tc[k] == c;
            assert(k == 0 || k == 1 || k == 2 || k == 3 || k == 4 || k == 5);
        }
    }
    if has_target(args) {
        let i = choose|i: int| 0 <= i < args.len() && (#[trigger] args[i] == "--target"@ || starts_with(args[i], "--target="@));
        assert(!no_target_chosen(args));
    }
}

/// The cargo command line of a build request: `run` built as `build` with
/// JSON messages on stdout (so the executable can be found), and the host
/// platform as target where needed.
pub open spec fn cargo_command(args: Seq<Seq<char>>, platform: PlatformTriple) -> (Seq<Seq<char>>, bool) {
    let (a, run_it) = run_as_build(args);
    let b = with_platform(a, platform);
    if run_it {
        (b.push("--message-format=json-render-diagnostics"@), true)
    } else {
        (b, false)
    }
}

/// The cargo command line of a build request ([`cargo_command`]).
pub fn build_cargo_args(args: Vec<String>, platform: PlatformTriple) -> (r: (Vec<String>, bool))
    requires
        ({
            let a = run_as_build(strings_view(args@)).0;
            accepts_target(a) && !has_target(a) ==> cargo_target(platform) is Some
        }),
    ensures
        (strings_view(r.0@), r.1) == cargo_command(strings_view(args@), platform),
{
    let (a, run_it) = rewrite_run_as_build(args);
    let mut b = amend_args_with_platform(a, platform);
    if run_it {
        let ghost before = strings_view(b@);
        b.push(owned("--message-format=json-render-diagnostics"));
        assert(strings_view(b@) =~= before.push("--message-format=json-render-diagnostics"@));
    }
    (b, run_it)
}

/// The directory cargo runs in: the workspace, or the requested
/// subdirectory of it.
pub fn build_dir(workspace: &str, subdir: Option<&str>) -> (r: String)
    ensures
        r@ == match subdir {
            Some(s) => path_join(workspace@, s@),
            None => workspace@,
        },
{
    match subdir {
        Some(rel) => {
            let w = chars_of(workspace);
            let s = chars_of(rel);
            string_of(join_path(w.as_slice(), s.as_slice()).as_slice())
        },
        None => string_of(chars_of(workspace).as_slice()),
    }
}

/// What the daemon does with a build request.
#[derive(Debug, Clone, PartialEq, Eq)]
pub enum BuildPlan {
    /// `nop`: only the sync was wanted; report success.
    Nop,
    /// `clean`: remove the workspace's target directory, and with
    /// `--expunge` the compilation cache too.
    Clean { expunge: bool },
    /// Run cargo with these arguments; `run_it` when the result is an
    /// executable to ship back.
    Cargo { args: Vec<String>, run_it: bool },
}

/// The plan for a request's cargo arguments, when it is not a cargo run.
pub open spec fn plan_kind(args: Seq<Seq<char>>) -> Option<Option<bool>> {
    if args.len() > 0 && args[0] == "nop"@ {
        Some(None)
    } else if args.len() > 0 && args[0] == "clean"@ {
        Some(Some(args.contains("--expunge"@)))
    } else {
        None
    }
}

/// Decide what a build request asks for: `nop`, `clean` (with or without
/// `--expunge`), or a cargo command line ([`cargo_command`]).
pub fn plan_build(args: Vec<String>, platform: PlatformTriple) -> (r: BuildPlan)
    requires
        plan_kind(strings_view(args@)) is None ==> ({
            let a = run_as_build(strings_view(args@)).0;
            accepts_target(a) && !has_target(a) ==> cargo_target(platform) is Some
        }),
    ensures
        match plan_kind(strings_view(args@)) {
            Some(None) => r == BuildPlan::Nop,
            Some(Some(e)) => r == BuildPlan::Clean { expunge: e },
            None => r matches BuildPlan::Cargo { args: a, run_it } && (strings_view(a@), run_it) == cargo_command(
                strings_view(args@),
                platform,
            ),
        },
{
    proof {
        if args.len() > 0 {
            assert(strings_view(args@)[0] == args@[0]@);
        }
    }
    if args.len() > 0 && same_text(args[0].as_str(), "nop") {
        return BuildPlan::Nop;
    }
    if args.len() > 0 && same_text(args[0].as_str(), "clean") {
        let e = chars_of("--expunge");
        return BuildPlan::Clean { expunge: contains_text(&args, e.as_slice()) };
    }
    let (a, run_it) = build_cargo_args(args, platform);
    BuildPlan::Cargo { args: a, run_it }
}

/// Whether the cargo command line of a request gets the host platform as
/// `--target` (so the platform must have a cargo target name).
pub fn target_needed(args: &Vec<String>) -> (r: bool)
    ensures
        r == (plan_kind(strings_view(args@)) is None && accepts_target(run_as_build(strings_view(args@)).0) && !has_target(
            run_as_build(strings_view(args@)).0,
        )),
{
    proof {
        if args.len() > 0 {
            assert(strings_view(args@)[0] == args@[0]@);
        }
    }
    if args.len() > 0 && (same_text(args[0].as_str(), "nop") || same_text(args[0].as_str(), "clean")) {
        return false;
    }
    let (a, _) = rewrite_run_as_build(copy_strings(args));
    let accepts = a.len() > 0 && is_target_command(a[0].as_str());
    proof {
        if a.len() > 0 {
            assert(strings_view(a@)[0] == a@[0]@);
        }
    }
    accepts && !mentions_target(&a)
}

/// Mathematical view of a manifest entry.
pub open spec fn entry_view(e: FileEntry) -> (Seq<char>, Seq<u8>) {
    (e.path@, e.hash@)
}

/// The hash recorded for `path` in a manifest (its first entry), if any.
pub open spec fn hash_of(entries: Seq<(Seq<char>, Seq<u8>)>, path: Seq<char>) -> Option<Seq<u8>>
    decreases entries.len(),
{
    if entries.len() == 0 {
        None
    } else if entries[0].0 == path {
        Some(entries[0].1)
    } else {
        hash_of(entries.drop_first(), path)
    }
}

/// The paths of the client's files that the daemon lacks or holds with other
/// contents, in the client's order.
pub open spec fn needed_paths(client: Seq<(Seq<char>, Seq<u8>)>, local: Seq<(Seq<char>, Seq<u8>)>) -> Seq<Seq<char>>
    decreases client.len(),
{
    if client.len() == 0 {
        Seq::empty()
    } else {
        let r = needed_paths(client.drop_last(), local);
        let f = client.last();
        if hash_of(local, f.0) == Some(f.1) {
            r
        } else {
            r.push(f.0)
        }
    }
}

/// View of a manifest.
pub open spec fn manifest_view(v: Seq<FileEntry>) -> Seq<(Seq<char>, Seq<u8>)> {
    v.map_values(|e: FileEntry| entry_view(e))
}

fn same_hash(a: &[u8; 32], b: &[u8; 32]) -> (r: bool)
    ensures
        r == (a@ == b@),
{
    let mut j: usize = 0;
    while j < 32
        invariant
            0 <= j <= 32,
            forall|q: int| 0 <= q < j ==> a@[q] == b@[q],
        decreases 32 - j,
    {
        if a[j] != b[j] {
            assert(a@[j as int] != b@[j as int]);
            return false;
        }
        j = j + 1;
    }
    assert(a@ =~= b@);
    true
}

/// The hash recorded for `path` in a manifest.
fn lookup_hash(local: &[FileEntry], path: &str) -> (r: Option<[u8; 32]>)
    ensures
        match r {
            Some(h) => hash_of(manifest_view(local@), path@) == Some(h@),
            None => hash_of(manifest_view(local@), path@) is None,
        },
{
    let ghost lv = manifest_view(local@);
    let mut i: usize = 0;
    assert(lv.skip(0) =~= lv);
    while i < local.len()
        invariant
            0 <= i <= local.len(),
            lv == manifest_view(local@),
            hash_of(lv, path@) == hash_of(lv.skip(i as int), path@),
        decreases local.len() - i,
    {
        assert(lv.skip(i as int)[0] == entry_view(local@[i as int]));
        assert(lv.skip(i as int).drop_first() =~= lv.skip(i + 1));
        if same_text(local[i].path.as_str(), path) {
            return Some(local[i].hash);
        }
        i = i + 1;
    }
    None
}

/// The files the daemon must receive from a client whose manifest is
/// `client`, given what the workspace holds (`local`).
pub fn needed_files(client: &[FileEntry], local: &[FileEntry]) -> (r: Vec<String>)
    ensures
        strings_view(r@) == needed_paths(manifest_view(client@), manifest_view(local@)),
{
    let ghost cv = manifest_view(client@);
    let mut out: Vec<String> = Vec::new();
    let mut i: usize = 0;
    assert(cv.take(0) =~= Seq::<(Seq<char>, Seq<u8>)>::empty());
    assert(strings_view(out@) =~= Seq::<Seq<char>>::empty());
    while i < client.len()
        invariant
            0 <= i <= client.len(),
            cv == manifest_view(client@),
            strings_view(out@) == needed_paths(cv.take(i as int), manifest_view(local@)),
        decreases client.len() - i,
    {
        assert(cv.take(i + 1).drop_last() =~= cv.take(i as int));
        assert(cv.take(i + 1).last() == entry_view(client@[i as int]));
        let f = &client[i];
        let keep = match lookup_hash(local, f.path.as_str()) {
            Some(h) => same_hash(&h, &f.hash),
            None => false,
        };
        if !keep {
            let ghost before = strings_view(out@);
            out.push(copy_string(&f.path));
            assert(strings_view(out@) =~= before.push(f.path@));
        }
        i = i + 1;
    }
    assert(cv.take(client.len() as int) =~= cv);
    out
}

/// The local paths that the client's manifest does not list, in local order.
pub open spec fn stale(local: Seq<(Seq<char>, Seq<u8>)>, client: Seq<(Seq<char>, Seq<u8>)>) -> Seq<Seq<char>>
    decreases local.len(),
{
    if local.len() == 0 {
        Seq::empty()
    } else {
        let r = stale(local.drop_last(), client);
        if hash_of(client, local.last().0) is Some {
            r
        } else {
            r.push(local.last().0)
        }
    }
}

/// The local files to delete because the client no longer has them.
pub fn stale_paths(local: &[FileEntry], client: &[FileEntry]) -> (r: Vec<String>)
    ensures
        strings_view(r@) == stale(manifest_view(local@), manifest_view(client@)),
{
    let ghost lv = manifest_view(local@);
    let mut out: Vec<String> = Vec::new();
    let mut i: usize = 0;
    assert(lv.take(0) =~= Seq::<(Seq<char>, Seq<u8>)>::empty());
    assert(strings_view(out@) =~= Seq::<Seq<char>>::empty());
    while i < local.len()
        invariant
            0 <= i <= local.len(),
            lv == manifest_view(local@),
            strings_view(out@) == stale(lv.take(i as int), manifest_view(client@)),
        decreases local.len() - i,
    {
        assert(lv.take(i + 1).drop_last() =~= lv.take(i as int));
        assert(lv.take(i + 1).last() == entry_view(local@[i as int]));
        let f = &local[i];
        if lookup_hash(client, f.path.as_str()).is_none() {
            let ghost before = strings_view(out@);
            out.push(copy_string(&f.path));
            assert(strings_view(out@) =~= before.push(f.path@));
        }
        i = i + 1;
    }
    assert(lv.take(local.len() as int) =~= lv);
    out
}

/// After a sync, the daemon holds every file of the client's manifest with
/// the client's contents: a file not asked for was already held with the
/// client's hash.
pub proof fn law_unneeded_files_are_current(
    client: Seq<(Seq<char>, Seq<u8>)>,
    local: Seq<(Seq<char>, Seq<u8>)>,
    i: int,
)
    requires
        0 <= i < client.len(),
        !needed_paths(client, local).contains(client[i].0),
    ensures
        hash_of(local, client[i].0) == Some(client[i].1),
    decreases client.len(),
{
    if i < client.len() - 1 {
        assert(client.drop_last()[i] == client[i]);
        let r = needed_paths(client.drop_last(), local);
        if r.contains(client[i].0) {
            let k = choose|k: int| 0 <= k < r.len() && r[k] == client[i].0;
            assert(needed_paths(client, local)[k] == client[i].0);
        }
        law_unneeded_files_are_current(client.drop_last(), local, i);
    } else {
        let r = needed_paths(client.drop_last(), local);
        if hash_of(local, client[i].0) != Some(client[i].1) {
            assert(needed_paths(client, local) == r.push(client[i].0));
            assert(needed_paths(client, local)[r.len() as int] == client[i].0);
        }
    }
}

/// Every path the daemon asks for is one the client lists with contents
/// that the daemon does not hold under that path (it lacks the file or
/// holds other contents).
pub proof fn law_needed_files_are_outdated(
    client: Seq<(Seq<char>, Seq<u8>)>,
    local: Seq<(Seq<char>, Seq<u8>)>,
    p: Seq<char>,
)
    requires
        needed_paths(client, local).contains(p),
    ensures
        exists|i: int| 0 <= i < client.len() && #[trigger] client[i].0 == p && hash_of(local, p) != Some(client[i].1),
    decreases client.len(),
{
    let init = client.drop_last();
    let r = needed_paths(init, local);
    let f = client.last();
    assert(client[client.len() - 1] == f);
    if r.contains(p) {
        law_needed_files_are_outdated(init, local, p);
        let i = choose|i: int| 0 <= i < init.len() && #[trigger] init[i].0 == p && hash_of(local, p) != Some(init[i].1);
        assert(client[i] == init[i]);
    } else {
        if hash_of(local, f.0) != Some(f.1) {
            let k = choose|k: int| 0 <= k < r.push(f.0).len() && r.push(f.0)[k] == p;
            if k < r.len() {
                assert(r[k] == p);
            }
        }
    }
}

/// A manifest records a hash for `path` exactly when one of its entries
/// names it.
proof fn lemma_hash_of_listed(entries: Seq<(Seq<char>, Seq<u8>)>, path: Seq<char>)
    ensures
        hash_of(entries, path) is Some <==> exists|j: int| 0 <= j < entries.len() && #[trigger] entries[j].0 == path,
    decreases entries.len(),
{
    if entries.len() > 0 {
        let rest = entries.drop_first();
        lemma_hash_of_listed(rest, path);
        if exists|j: int| 0 <= j < rest.len() && #[trigger] rest[j].0 == path {
            let j = choose|j: int| 0 <= j < rest.len() && #[trigger] rest[j].0 == path;
            assert(entries[j + 1].0 == path);
        }
        if exists|j: int| 0 <= j < entries.len() && #[trigger] entries[j].0 == path {
            let j = choose|j: int| 0 <= j < entries.len() && #[trigger] entries[j].0 == path;
            if j > 0 {
                assert(rest[j - 1].0 == path);
            }
        }
    }
}

/// The stale paths are exactly the local paths that no entry of the
/// client's manifest names: each local file the client no longer has is
/// deleted, and no file the client still lists is.
pub proof fn law_stale_paths_are_unlisted(
    local: Seq<(Seq<char>, Seq<u8>)>,
    client: Seq<(Seq<char>, Seq<u8>)>,
    p: Seq<char>,
)
    ensures
        stale(local, client).contains(p) <==> (exists|i: int| 0 <= i < local.len() && #[trigger] local[i].0 == p)
            && (forall|j: int| 0 <= j < client.len() ==> #[trigger] client[j].0 != p),
    decreases local.len(),
{
    lemma_hash_of_listed(client, p);
    if local.len() > 0 {
        let init = local.drop_last();
        law_stale_paths_are_unlisted(init, client, p);
        let r = stale(init, client);
        let l = local.last();
        lemma_hash_of_listed(client, l.0);
        assert(local[local.len() - 1] == l);
        if exists|i: int| 0 <= i < init.len() && #[trigger] init[i].0 == p {
            let i = choose|i: int| 0 <= i < init.len() && #[trigger] init[i].0 == p;
            assert(local[i].0 == p);
        }
        if exists|i: int| 0 <= i < local.len() && #[trigger] local[i].0 == p {
            let i = choose|i: int| 0 <= i < local.len() && #[trigger] local[i].0 == p;
            if i < local.len() - 1 {
                assert(init[i].0 == p);
            }
        }
        if hash_of(client, l.0) is None {
            assert(stale(local, client) == r.push(l.0));
            if r.contains(p) {
                let k = choose|k: int| 0 <= k < r.len() && r[k] == p;
                assert(r.push(l.0)[k] == p);
            }
            if l.0 == p {
                assert(r.push(l.0)[r.len() as int] == p);
            }
            if r.push(l.0).contains(p) {
                let k = choose|k: int| 0 <= k < r.push(l.0).len() && r.push(l.0)[k] == p;
                if k < r.len() {
                    assert(r[k] == p);
                }
            }
        }
    }
}

/// What a line of cargo's JSON output says, as far as finding a built
/// executable goes: each field is present only when it has the expected
/// JSON type (`reason` and `executable` strings, `target.kind` an array, whose
/// string elements are kept and others left as `None`).
#[derive(Debug, Clone, PartialEq, Eq)]
pub struct CargoMessage {
    pub reason: Option<String>,
    pub executable: Option<String>,
    pub target_kinds: Option<Vec<Option<String>>>,
}

/// The executable a cargo message reports: a `compiler-artifact` message
/// with an executable, for a target of kind `bin`.
pub open spec fn artifact_of(reason: Option<Seq<char>>, executable: Option<Seq<char>>, kinds: Option<Seq<Option<Seq<char>>>>) -> Option<Seq<char>> {
    match (reason, executable, kinds) {
        (Some(r), Some(e), Some(k)) => if r == "compiler-artifact"@ && k.contains(Some("bin"@)) {
            Some(e)
        } else {
            None
        },
        _ => None,
    }
}

/// View of the kinds of a cargo message.
pub open spec fn kinds_view(k: Seq<Option<String>>) -> Seq<Option<Seq<char>>> {
    k.map_values(|x: Option<String>| match x {
        Some(s) => Some(s@),
        None => None,
    })
}

fn has_bin_kind(kinds: &Vec<Option<String>>) -> (r: bool)
    ensures
        r == kinds_view(kinds@).contains(Some("bin"@)),
{
    let ghost kv = kinds_view(kinds@);
    let mut i: usize = 0;
    while i < kinds.len()
        invariant
            0 <= i <= kinds.len(),
            kv == kinds_view(kinds@),
            forall|j: int| 0 <= j < i ==> kv[j] != Some("bin"@),
        decreases kinds.len() - i,
    {
        match &kinds[i] {
            Some(k) => {
                assert(kv[i as int] == Some(k@));
                if same_text(k.as_str(), "bin") {
                    assert(kv[i as int] == Some("bin"@));
                    return true;
                }
            },
            None => {
                assert(kv[i as int] is None);
            },
        }
        i = i + 1;
    }
    false
}

/// The executable path a cargo message reports, if any ([`artifact_of`]).
pub fn parse_cargo_artifact(m: &CargoMessage) -> (r: Option<String>)
    ensures
        crate::rustc_args::opt_view(r) == artifact_of(
            crate::rustc_args::opt_view(m.reason),
            crate::rustc_args::opt_view(m.executable),
            match m.target_kinds {
                Some(k) => Some(kinds_view(k@)),
                None => None,
            },
        ),
{
    match (&m.reason, &m.executable, &m.target_kinds) {
        (Some(r), Some(e), Some(kinds)) => {
            if !same_text(r.as_str(), "compiler-artifact") {
                return None;
            }
            if has_bin_kind(kinds) {
                Some(copy_string(e))
            } else {
                None
            }
        },
        _ => None,
    }
}

/// The name an executable is shipped under: its file name, or `artifact`.
pub fn artifact_name(path: &str) -> (r: String)
    ensures
        r@ == match file_name(path@) {
            Some(n) => n,
            None => "artifact"@,
        },
{
    let p = chars_of(path);
    match path_file_name(p.as_slice()) {
        Some(n) => string_of(n.as_slice()),
        None => owned("artifact"),
    }
}

/// What a built executable is shipped as: its name (see [`artifact_name`])
/// and its contents compressed as one zstd frame at level 3. The error of
/// the compressor is passed on, but compressing in memory succeeds.
pub fn artifact_payload(path: &str, contents: &[u8]) -> (r: Result<(String, Vec<u8>), std::io::Error>)
    ensures
        r is Ok,
        r matches Ok((n, c)) ==> n@ == (match file_name(path@) {
            Some(x) => x,
            None => "artifact"@,
        }) && c@ == zstd_frame(contents@, 3),
{
    match zstd_compress(contents, 3) {
        Ok(c) => Ok((artifact_name(path), c)),
        Err(e) => Err(e),
    }
}

/// The token of an `Authorization` header value: what follows `Bearer `,
/// when that is not empty.
pub open spec fn bearer_of(header: Seq<char>) -> Option<Seq<char>> {
    if starts_with(header, "Bearer "@) && header.len() > "Bearer "@.len() {
        Some(header.skip("Bearer "@.len() as int))
    } else {
        None
    }
}

/// The bearer token of a request's `Authorization` header (absent when the
/// header is missing or not readable as text).
pub fn bearer_token(authorization: Option<&str>) -> (r: Option<String>)
    ensures
        crate::rustc_args::opt_view(r) == match authorization {
            Some(h) => bearer_of(h@),
            None => None,
        },
{
    match authorization {
        None => None,
        Some(h) => {
            let c = chars_of(h);
            let prefix = chars_of("Bearer ");
            if has_prefix(c.as_slice(), prefix.as_slice()) && c.len() > prefix.len() {
                let t = slice_chars(c.as_slice(), prefix.len(), c.len());
                assert(t@ =~= h@.skip("Bearer "@.len() as int));
                Some(string_of(t.as_slice()))
            } else {
                None
            }
        },
    }
}

} // verus!
