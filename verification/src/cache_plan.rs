//! How the rustc wrapper decides what to do with an invocation: which shape
//! of wrapper chain cargo used, and which output files a cached compilation
//! produces.
use vstd::prelude::*;
use crate::cache_io::FileObjectSource;
use crate::paths::{join_path, path_join};
use crate::rustc_args::{contains_text, copy_strings, opt_view, strings_view, ParsedArguments, ParsedArgumentsV};
use crate::text::{
    chars_equal, chars_of, copy_string, ends_with, has_prefix, has_suffix, owned, replace_first,
    replace_first_chars, same_text, slice_chars, split, split_chars, starts_with, string_of,
};

verus! {

/// Whether cargo invoked the wrapper in the workspace shape
/// (`drop-point drop-point-skip rustc <args>`) or the third-party shape
/// (`drop-point rustc <args>`).
#[derive(Debug, PartialEq, Eq)]
pub enum ChainShape {
    /// `argv[1]` is the workspace wrapper: rustc is run directly, uncached.
    Workspace { rustc: String, rest: Vec<String> },
    /// `argv[1]` is rustc itself: the cache is consulted.
    Cache { rustc: String, rest: Vec<String> },
}

/// Mathematical view of [`ChainShape`].
pub enum ChainShapeV {
    Workspace { rustc: Seq<char>, rest: Seq<Seq<char>> },
    Cache { rustc: Seq<char>, rest: Seq<Seq<char>> },
}

impl View for ChainShape {
    type V = ChainShapeV;

    open spec fn view(&self) -> ChainShapeV {
        match self {
            ChainShape::Workspace { rustc, rest } => ChainShapeV::Workspace { rustc: rustc@, rest: strings_view(rest@) },
            ChainShape::Cache { rustc, rest } => ChainShapeV::Cache { rustc: rustc@, rest: strings_view(rest@) },
        }
    }
}

/// The chain shape of `argv` when the workspace wrapper is `ws`: `None` when
/// nothing follows `argv[0]`, or when the workspace wrapper is not followed
/// by rustc.
pub open spec fn spec_classify_chain(argv: Seq<Seq<char>>, ws: Option<Seq<char>>) -> Option<ChainShapeV> {
    if argv.len() < 2 {
        None
    } else if ws is Some && argv[1] == ws.unwrap() {
        if argv.len() < 3 {
            None
        } else {
            Some(ChainShapeV::Workspace { rustc: argv[2], rest: argv.skip(3) })
        }
    } else {
        Some(ChainShapeV::Cache { rustc: argv[1], rest: argv.skip(2) })
    }
}

/// The elements of `v` from index `from` on.
fn tail_strings(v: &[String], from: usize) -> (r: Vec<String>)
    requires
        from <= v@.len(),
    ensures
        strings_view(r@) == strings_view(v@).skip(from as int),
{
    let mut r: Vec<String> = Vec::new();
    let mut i: usize = from;
    while i < v.len()
        invariant
            from <= i <= v@.len(),
            r@.len() == i - from,
            forall|j: int| 0 <= j < r@.len() ==> #[trigger] r@[j]@ == v@[from + j]@,
        decreases v.len() - i,
    {
        r.push(copy_string(&v[i]));
        i = i + 1;
    }
    assert(strings_view(r@) =~= strings_view(v@).skip(from as int));
    r
}

/// Classify the wrapper chain from `argv` and the value of
/// `RUSTC_WORKSPACE_WRAPPER`.
pub fn classify(argv: &[String], workspace_wrapper: Option<&str>) -> (r: Option<ChainShape>)
    ensures
        match r {
            Some(s) => spec_classify_chain(strings_view(argv@), opt_str_view(workspace_wrapper)) == Some(s@),
            None => spec_classify_chain(strings_view(argv@), opt_str_view(workspace_wrapper)) is None,
        },
{
    if argv.len() < 2 {
        return None;
    }
    let is_ws = match workspace_wrapper {
        Some(ws) => same_text(argv[1].as_str(), ws),
        None => false,
    };
    if is_ws {
        if argv.len() < 3 {
            return None;
        }
        let rustc = copy_string(&argv[2]);
        let rest = tail_strings(argv, 3);
        return Some(ChainShape::Workspace { rustc, rest });
    }
    let rustc = copy_string(&argv[1]);
    let rest = tail_strings(argv, 2);
    Some(ChainShape::Cache { rustc, rest })
}

/// View of an optional string slice.
pub open spec fn opt_str_view(o: Option<&str>) -> Option<Seq<char>> {
    match o {
        Some(s) => Some(s@),
        None => None,
    }
}

/// The `--crate-name` given in `args` (as `--crate-name=NAME` or as
/// `--crate-name NAME`), whichever comes first, or `?` when there is none.
pub open spec fn crate_name_in(args: Seq<Seq<char>>) -> Seq<char>
    decreases args.len(),
{
    if args.len() == 0 {
        "?"@
    } else if starts_with(args[0], "--crate-name="@) {
        args[0].skip("--crate-name="@.len() as int)
    } else if args[0] == "--crate-name"@ && args.len() > 1 {
        args[1]
    } else {
        crate_name_in(args.drop_first())
    }
}

/// Best-effort `--crate-name` lookup, before the arguments are parsed, to
/// name an invocation that is not cached.
pub fn crate_name_from_argv(rest: &[String]) -> (r: String)
    ensures
        r@ == crate_name_in(strings_view(rest@)),
{
    let ghost all = strings_view(rest@);
    let eq_form = chars_of("--crate-name=");
    let bare = chars_of("--crate-name");
    let mut i: usize = 0;
    assert(all.skip(0) =~= all);
    while i < rest.len()
        invariant
            0 <= i <= rest.len(),
            all == strings_view(rest@),
            eq_form@ == "--crate-name="@,
            bare@ == "--crate-name"@,
            crate_name_in(all) == crate_name_in(all.skip(i as int)),
        decreases rest.len() - i,
    {
        let ghost cur = all.skip(i as int);
        assert(cur[0] == rest@[i as int]@);
        let s = chars_of(rest[i].as_str());
        if has_prefix(s.as_slice(), eq_form.as_slice()) {
            let name = slice_chars(s.as_slice(), eq_form.len(), s.len());
            assert(name@ =~= s@.skip("--crate-name="@.len() as int));
            return string_of(name.as_slice());
        }
        if chars_equal(s.as_slice(), bare.as_slice()) && i + 1 < rest.len() {
            assert(cur[1] == rest@[i + 1]@);
            return copy_string(&rest[i + 1]);
        }
        assert(cur.drop_first() =~= all.skip(i + 1));
        i = i + 1;
    }
    proof {
        reveal_strlit("?");
    }
    owned("?")
}

/// Whether an output is an rlib or rmeta file.
pub open spec fn is_library_output(o: Seq<char>) -> bool {
    ends_with(o, ".rlib"@) || ends_with(o, ".rmeta"@)
}

/// The outputs that are rlib or rmeta files, in order.
pub open spec fn library_outputs(outs: Seq<Seq<char>>) -> Seq<Seq<char>>
    decreases outs.len(),
{
    if outs.len() == 0 {
        Seq::empty()
    } else {
        let r = library_outputs(outs.drop_last());
        if is_library_output(outs.last()) {
            r.push(outs.last())
        } else {
            r
        }
    }
}

/// The outputs that are rlib files, in order.
pub open spec fn rlib_outputs(outs: Seq<Seq<char>>) -> Seq<Seq<char>>
    decreases outs.len(),
{
    if outs.len() == 0 {
        Seq::empty()
    } else {
        let r = rlib_outputs(outs.drop_last());
        if ends_with(outs.last(), ".rlib"@) {
            r.push(outs.last())
        } else {
            r
        }
    }
}

/// `outs` without any element equal to `x`.
pub open spec fn without(outs: Seq<Seq<char>>, x: Seq<char>) -> Seq<Seq<char>>
    decreases outs.len(),
{
    if outs.len() == 0 {
        Seq::empty()
    } else {
        let r = without(outs.drop_last(), x);
        if outs.last() == x {
            r
        } else {
            r.push(outs.last())
        }
    }
}

/// The rmeta file name of an rlib file name.
pub open spec fn rmeta_name(lib: Seq<char>) -> Seq<char> {
    replace_first(lib, ".rlib"@, ".rmeta"@)
}

/// For one rlib: add its rmeta name unless present, and without `link` drop
/// the rlib itself.
pub open spec fn add_rmeta(outs: Seq<Seq<char>>, lib: Seq<char>, link: bool) -> Seq<Seq<char>> {
    let rm = rmeta_name(lib);
    let o = if outs.contains(rm) {
        outs
    } else {
        outs.push(rm)
    };
    if link {
        o
    } else {
        without(o, lib)
    }
}

/// [`add_rmeta`] for each of `libs` in turn.
pub open spec fn add_rmetas(outs: Seq<Seq<char>>, libs: Seq<Seq<char>>, link: bool) -> Seq<Seq<char>>
    decreases libs.len(),
{
    if libs.len() == 0 {
        outs
    } else {
        add_rmeta(add_rmetas(outs, libs.drop_last(), link), libs.last(), link)
    }
}

/// Only metadata and dep-info are emitted.
pub open spec fn only_metadata(emit: Seq<Seq<char>>) -> bool {
    emit.len() > 0 && forall|i: int| 0 <= i < emit.len() ==> (#[trigger] emit[i] == "metadata"@ || emit[i] == "dep-info"@)
}

/// rustc's `--print file-names` list made to match what lands on disk: with
/// only metadata emitted the binaries it lists are dropped; with metadata
/// emitted an rmeta name is added for each rlib (and the rlib dropped when it
/// is not linked).
pub open spec fn refined_outputs(emit: Seq<Seq<char>>, outputs: Seq<Seq<char>>) -> Seq<Seq<char>> {
    let o = if only_metadata(emit) {
        library_outputs(outputs)
    } else {
        outputs
    };
    if emit.contains("metadata"@) {
        add_rmetas(o, rlib_outputs(o), emit.contains("link"@))
    } else {
        o
    }
}

fn push_copy(v: &mut Vec<String>, x: &String)
    ensures
        strings_view(final(v)@) == strings_view(old(v)@).push(x@),
{
    let ghost before = strings_view(v@);
    v.push(copy_string(x));
    assert(strings_view(v@) =~= before.push(x@));
}

fn keep_library_outputs(outs: &Vec<String>) -> (r: Vec<String>)
    ensures
        strings_view(r@) == library_outputs(strings_view(outs@)),
{
    let ghost ov = strings_view(outs@);
    let rlib = chars_of(".rlib");
    let rmeta = chars_of(".rmeta");
    let mut r: Vec<String> = Vec::new();
    let mut i: usize = 0;
    assert(ov.take(0) =~= Seq::<Seq<char>>::empty());
    assert(strings_view(r@) =~= Seq::<Seq<char>>::empty());
    while i < outs.len()
        invariant
            0 <= i <= outs.len(),
            ov == strings_view(outs@),
            rlib@ == ".rlib"@,
            rmeta@ == ".rmeta"@,
            strings_view(r@) == library_outputs(ov.take(i as int)),
        decreases outs.len() - i,
    {
        assert(ov.take(i + 1).drop_last() =~= ov.take(i as int));
        assert(ov.take(i + 1).last() == outs@[i as int]@);
        let c = chars_of(outs[i].as_str());
        if has_suffix(c.as_slice(), rlib.as_slice()) || has_suffix(c.as_slice(), rmeta.as_slice()) {
            push_copy(&mut r, &outs[i]);
        }
        i = i + 1;
    }
    assert(ov.take(outs.len() as int) =~= ov);
    r
}

fn rlibs(outs: &Vec<String>) -> (r: Vec<String>)
    ensures
        strings_view(r@) == rlib_outputs(strings_view(outs@)),
{
    let ghost ov = strings_view(outs@);
    let rlib = chars_of(".rlib");
    let mut r: Vec<String> = Vec::new();
    let mut i: usize = 0;
    assert(ov.take(0) =~= Seq::<Seq<char>>::empty());
    assert(strings_view(r@) =~= Seq::<Seq<char>>::empty());
    while i < outs.len()
        invariant
            0 <= i <= outs.len(),
            ov == strings_view(outs@),
            rlib@ == ".rlib"@,
            strings_view(r@) == rlib_outputs(ov.take(i as int)),
        decreases outs.len() - i,
    {
        assert(ov.take(i + 1).drop_last() =~= ov.take(i as int));
        assert(ov.take(i + 1).last() == outs@[i as int]@);
        let c = chars_of(outs[i].as_str());
        if has_suffix(c.as_slice(), rlib.as_slice()) {
            push_copy(&mut r, &outs[i]);
        }
        i = i + 1;
    }
    assert(ov.take(outs.len() as int) =~= ov);
    r
}

fn remove_all(outs: &Vec<String>, x: &[char]) -> (r: Vec<String>)
    ensures
        strings_view(r@) == without(strings_view(outs@), x@),
{
    let ghost ov = strings_view(outs@);
    let mut r: Vec<String> = Vec::new();
    let mut i: usize = 0;
    assert(ov.take(0) =~= Seq::<Seq<char>>::empty());
    assert(strings_view(r@) =~= Seq::<Seq<char>>::empty());
    while i < outs.len()
        invariant
            0 <= i <= outs.len(),
            ov == strings_view(outs@),
            strings_view(r@) == without(ov.take(i as int), x@),
        decreases outs.len() - i,
    {
        assert(ov.take(i + 1).drop_last() =~= ov.take(i as int));
        assert(ov.take(i + 1).last() == outs@[i as int]@);
        let c = chars_of(outs[i].as_str());
        if !chars_equal(c.as_slice(), x) {
            push_copy(&mut r, &outs[i]);
        }
        i = i + 1;
    }
    assert(ov.take(outs.len() as int) =~= ov);
    r
}

/// Patch rustc's `--print file-names` list (`outputs`) to match what the
/// compilation leaves on disk, given the emitted kinds `emit`.
pub fn refine_outputs(emit: &Vec<String>, outputs: Vec<String>) -> (r: Vec<String>)
    ensures
        strings_view(r@) == refined_outputs(strings_view(emit@), strings_view(outputs@)),
{
    let ghost ev = strings_view(emit@);
    let metadata = chars_of("metadata");
    let dep = chars_of("dep-info");
    let link = chars_of("link");
    let mut all_meta = emit.len() > 0;
    let mut k: usize = 0;
    while k < emit.len()
        invariant
            0 <= k <= emit.len(),
            ev == strings_view(emit@),
            metadata@ == "metadata"@,
            dep@ == "dep-info"@,
            all_meta == (emit.len() > 0 && forall|q: int| 0 <= q < k ==> (#[trigger] ev[q] == "metadata"@ || ev[q] == "dep-info"@)),
        decreases emit.len() - k,
    {
        let e = chars_of(emit[k].as_str());
        assert(ev[k as int] == e@);
        if !(chars_equal(e.as_slice(), metadata.as_slice()) || chars_equal(e.as_slice(), dep.as_slice())) {
            all_meta = false;
        }
        k = k + 1;
    }
    let outs = if all_meta {
        keep_library_outputs(&outputs)
    } else {
        outputs
    };
    if !contains_text(emit, metadata.as_slice()) {
        return outs;
    }
    let has_link = contains_text(emit, link.as_slice());
    let libs = rlibs(&outs);
    let ghost o0 = strings_view(outs@);
    let ghost lv = strings_view(libs@);
    let rlib = chars_of(".rlib");
    let rmeta = chars_of(".rmeta");
    let mut cur = outs;
    let mut i: usize = 0;
    assert(lv.take(0) =~= Seq::<Seq<char>>::empty());
    while i < libs.len()
        invariant
            0 <= i <= libs.len(),
            lv == strings_view(libs@),
            rlib@ == ".rlib"@,
            rmeta@ == ".rmeta"@,
            strings_view(cur@) == add_rmetas(o0, lv.take(i as int), has_link),
        decreases libs.len() - i,
    {
        assert(lv.take(i + 1).drop_last() =~= lv.take(i as int));
        assert(lv.take(i + 1).last() == libs@[i as int]@);
        let lib = chars_of(libs[i].as_str());
        proof {
            reveal_strlit(".rlib");
        }
        let rm = replace_first_chars(lib.as_slice(), rlib.as_slice(), rmeta.as_slice());
        if !contains_text(&cur, rm.as_slice()) {
            let ghost before = strings_view(cur@);
            cur.push(string_of(rm.as_slice()));
            assert(strings_view(cur@) =~= before.push(rm@));
        }
        if !has_link {
            cur = remove_all(&cur, lib.as_slice());
        }
        i = i + 1;
    }
    assert(lv.take(libs.len() as int) =~= lv);
    cur
}

/// Every element is an rlib or rmeta file.
pub open spec fn all_library(s: Seq<Seq<char>>) -> bool {
    forall|k: int| 0 <= k < s.len() ==> is_library_output(#[trigger] s[k])
}

proof fn lemma_library_outputs(outs: Seq<Seq<char>>)
    ensures
        all_library(library_outputs(outs)),
    decreases outs.len(),
{
    if outs.len() > 0 {
        lemma_library_outputs(outs.drop_last());
    }
}

proof fn lemma_rlib_outputs(outs: Seq<Seq<char>>)
    ensures
        forall|k: int| 0 <= k < rlib_outputs(outs).len() ==> ends_with(#[trigger] rlib_outputs(outs)[k], ".rlib"@),
    decreases outs.len(),
{
    if outs.len() > 0 {
        lemma_rlib_outputs(outs.drop_last());
        let r = rlib_outputs(outs.drop_last());
        if ends_with(outs.last(), ".rlib"@) {
            assert forall|k: int| 0 <= k < r.push(outs.last()).len() implies ends_with(
                #[trigger] r.push(outs.last())[k],
                ".rlib"@,
            ) by {
                if k < r.len() {
                    assert(r.push(outs.last())[k] == r[k]);
                }
            }
        }
    }
}

proof fn lemma_without(outs: Seq<Seq<char>>, x: Seq<char>)
    requires
        all_library(outs),
    ensures
        all_library(without(outs, x)),
    decreases outs.len(),
{
    if outs.len() > 0 {
        lemma_without(outs.drop_last(), x);
    }
}

/// The rmeta name of an rlib is an rlib or rmeta file name: `.rlib` is
/// replaced where it first occurs, which is either the end (giving `.rmeta`)
/// or early enough to leave the final `.rlib` in place.
proof fn lemma_rmeta_is_library(lib: Seq<char>)
    requires
        ends_with(lib, ".rlib"@),
    ensures
        is_library_output(rmeta_name(lib)),
{
    reveal_strlit(".rlib");
    reveal_strlit(".rmeta");
    let pat = ".rlib"@;
    let n = lib.len() as int;
    assert(pat.len() == 5);
    assert(lib.skip(n - 5) == pat);
    assert(lib.skip(n - 5).take(5) =~= lib.skip(n - 5));
    assert(starts_with(lib.skip(n - 5), pat));
    crate::text::lemma_first_occurrence_facts(lib, pat, n - 5);
    let i = crate::text::first_occurrence(lib, pat);
    assert(lib.skip(n - 5) == pat);
    assert(i <= n - 5);
    let r = rmeta_name(lib);
    assert(r == lib.take(i) + ".rmeta"@ + lib.skip(i + 5));
    if i == n - 5 {
        assert(r.skip(r.len() - 6) =~= ".rmeta"@);
    } else {
        assert(lib.skip(i).take(5) == pat);
        if i > n - 10 {
            let d = n - 5 - i;
            assert(lib[i + d] == lib.skip(i).take(5)[d]);
            assert(lib[n - 5] == lib.skip(n - 5)[0]);
        }
        assert(r.skip(r.len() - 5) =~= lib.skip(n - 5));
    }
}

proof fn lemma_add_rmetas(outs: Seq<Seq<char>>, libs: Seq<Seq<char>>, link: bool)
    requires
        all_library(outs),
        forall|k: int| 0 <= k < libs.len() ==> ends_with(#[trigger] libs[k], ".rlib"@),
    ensures
        all_library(add_rmetas(outs, libs, link)),
    decreases libs.len(),
{
    if libs.len() > 0 {
        lemma_add_rmetas(outs, libs.drop_last(), link);
        let o = add_rmetas(outs, libs.drop_last(), link);
        let lib = libs.last();
        assert(ends_with(libs[libs.len() - 1], ".rlib"@));
        lemma_rmeta_is_library(lib);
        let rm = rmeta_name(lib);
        let o1 = if o.contains(rm) {
            o
        } else {
            o.push(rm)
        };
        assert(all_library(o1));
        if !link {
            lemma_without(o1, lib);
        }
    }
}

/// With only metadata (and dep-info) emitted, no binary is expected: every
/// output kept or added is an rlib or rmeta file.
pub proof fn law_metadata_only_outputs_are_libraries(emit: Seq<Seq<char>>, outputs: Seq<Seq<char>>)
    requires
        only_metadata(emit),
    ensures
        all_library(refined_outputs(emit, outputs)),
{
    let o = library_outputs(outputs);
    lemma_library_outputs(outputs);
    lemma_rlib_outputs(o);
    if emit.contains("metadata"@) {
        lemma_add_rmetas(o, rlib_outputs(o), emit.contains("link"@));
    }
}

/// An optional string as a sequence of zero or one element.
pub open spec fn opt_seq(o: Option<Seq<char>>) -> Seq<Seq<char>> {
    match o {
        Some(x) => seq![x],
        None => Seq::empty(),
    }
}

/// The output files of a cached compilation, relative to its output
/// directory: rustc's list refined, then the dep-info file and the profile,
/// when there are.
pub open spec fn planned_names(p: ParsedArgumentsV, discovered: Seq<Seq<char>>) -> Seq<Seq<char>> {
    refined_outputs(p.emit, discovered) + opt_seq(p.dep_info) + opt_seq(p.profile)
}

/// One cache object per output file that a compilation with arguments
/// `parsed` produces, given the file names rustc reported (`discovered`):
/// keyed by file name, located in the output directory, none optional.
pub fn plan_outputs(parsed: &ParsedArguments, discovered: Vec<String>) -> (r: Vec<FileObjectSource>)
    ensures
        r@.len() == planned_names(parsed@, strings_view(discovered@)).len(),
        forall|i: int|
            0 <= i < r@.len() ==> {
                &&& (#[trigger] r@[i]).key@ == planned_names(parsed@, strings_view(discovered@))[i]
                &&& r@[i].path@ == path_join(parsed.output_dir@, planned_names(parsed@, strings_view(discovered@))[i])
                &&& !r@[i].optional
            },
{
    let mut names = refine_outputs(&parsed.emit, discovered);
    match &parsed.dep_info {
        Some(d) => push_copy(&mut names, d),
        None => {},
    }
    match &parsed.profile {
        Some(p) => push_copy(&mut names, p),
        None => {},
    }
    let ghost nv = strings_view(names@);
    proof {
        let base = refined_outputs(parsed@.emit, strings_view(discovered@));
        assert(nv =~= planned_names(parsed@, strings_view(discovered@)));
    }
    let out_dir = chars_of(parsed.output_dir.as_str());
    let mut r: Vec<FileObjectSource> = Vec::new();
    let mut i: usize = 0;
    while i < names.len()
        invariant
            0 <= i <= names.len(),
            nv == strings_view(names@),
            out_dir@ == parsed.output_dir@,
            nv == planned_names(parsed@, strings_view(discovered@)),
            r@.len() == i,
            forall|j: int|
                0 <= j < i ==> {
                    &&& (#[trigger] r@[j]).key@ == nv[j]
                    &&& r@[j].path@ == path_join(parsed.output_dir@, nv[j])
                    &&& !r@[j].optional
                },
        decreases names.len() - i,
    {
        assert(nv[i as int] == names@[i as int]@);
        let n = chars_of(names[i].as_str());
        let p = join_path(out_dir.as_slice(), n.as_slice());
        r.push(FileObjectSource { path: string_of(p.as_slice()), key: copy_string(&names[i]), optional: false });
        i = i + 1;
    }
    r
}

/// A line without its final carriage return, if it has one.
pub open spec fn strip_cr(l: Seq<char>) -> Seq<char> {
    if l.len() > 0 && l.last() == '\r' {
        l.drop_last()
    } else {
        l
    }
}

/// The lines of a text (`str::lines`): split at `\n`, each line that ended
/// with `\r\n` without its `\r`, and no empty line after a final `\n`.
pub open spec fn text_lines(s: Seq<char>) -> Seq<Seq<char>> {
    let parts = split(s, '\n');
    let init = parts.take(parts.len() - 1).map_values(|l: Seq<char>| strip_cr(l));
    if parts.last().len() == 0 {
        init
    } else {
        init.push(parts.last())
    }
}

/// The file names in the output of `rustc --print file-names`, one per line.
pub fn output_file_names(stdout: &str) -> (r: Vec<String>)
    ensures
        strings_view(r@) == text_lines(stdout@),
{
    let c = chars_of(stdout);
    let parts = split_chars(c.as_slice(), '\n');
    proof {
        crate::text::lemma_split_nonempty(c@, '\n');
    }
    let ghost pv = split(c@, '\n');
    let n = parts.len();
    let mut r: Vec<String> = Vec::new();
    let mut i: usize = 0;
    while i + 1 < n
        invariant
            0 <= i < n,
            n == parts@.len(),
            n == pv.len(),
            forall|j: int| 0 <= j < parts@.len() ==> #[trigger] parts@[j]@ == pv[j],
            strings_view(r@) == pv.take(i as int).map_values(|l: Seq<char>| strip_cr(l)),
        decreases n - i,
    {
        let p = &parts[i];
        let line = if p.len() > 0 && p[p.len() - 1] == '\r' {
            slice_chars(p.as_slice(), 0, p.len() - 1)
        } else {
            slice_chars(p.as_slice(), 0, p.len())
        };
        assert(line@ == strip_cr(pv[i as int]));
        let ghost before = strings_view(r@);
        r.push(string_of(line.as_slice()));
        assert(strings_view(r@) =~= before.push(line@));
        assert(pv.take(i + 1).map_values(|l: Seq<char>| strip_cr(l)) =~= pv.take(i as int).map_values(
            |l: Seq<char>| strip_cr(l),
        ).push(strip_cr(pv[i as int])));
        i = i + 1;
    }
    let last = &parts[n - 1];
    if last.len() > 0 {
        let ghost before = strings_view(r@);
        r.push(string_of(last.as_slice()));
        assert(strings_view(r@) =~= before.push(pv.last()));
    }
    r
}

/// The cache root under a home directory (`/tmp` when there is none):
/// `<home>/.cache/drop-point`.
pub fn cache_root(home: Option<&str>) -> (r: String)
    ensures
        r@ == path_join(
            path_join(
                match home {
                    Some(h) => h@,
                    None => "/tmp"@,
                },
                ".cache"@,
            ),
            "drop-point"@,
        ),
{
    let h = match home {
        Some(h) => chars_of(h),
        None => chars_of("/tmp"),
    };
    let c = chars_of(".cache");
    let d = chars_of("drop-point");
    let p1 = join_path(h.as_slice(), c.as_slice());
    let p2 = join_path(p1.as_slice(), d.as_slice());
    string_of(p2.as_slice())
}

} // verus!
