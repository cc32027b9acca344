//! The cache key of a rustc invocation: which bytes of a parsed command line
//! go into the BLAKE3 digest, and the digest itself.
//!
//! Everything that affects the produced rlib goes in: the command line
//! (without absolute paths and build-environment noise), the file names of
//! the extern crates and static libraries, and the contents of a target JSON
//! file. Only file names are hashed for externs, so two workspaces compiling
//! the same crate from the same registry share keys.
use vstd::prelude::*;
use vstd::string::*;
use vstd::utf8::encode_utf8;
use crate::auth::{hex_encode, hex_text};
use crate::paths::{file_name, path_file_name};
use crate::rustc_args::{
    argument_ascii, arg_strings, arguments_view, strings_view, ArgDataV, ArgDisposition, Argument, ArgumentV, ParsedArguments,
    ParsedArgumentsV,
};
use crate::sorting::{lemma_sort_strings_permutation, lex_lt, sort_stable, sort_strings};
use crate::text::{chars_of, concat, push_chars, same_text, string_of};

verus! {

/// The flag of an argument, if it has one.
pub open spec fn flag_of(a: ArgumentV) -> Option<Seq<char>> {
    match a {
        ArgumentV::Flag(s, _) => Some(s),
        ArgumentV::WithValue(s, _, _) => Some(s),
        _ => None,
    }
}

/// Whether an argument goes into the cache key. Left out: `--extern`, `-L`,
/// `--out-dir` and `--diagnostic-width` (absolute paths and noise; externs
/// are keyed by file name separately), `--check-cfg` (a lint hint), and
/// `--target` when it names a JSON file (whose contents are keyed instead).
pub open spec fn should_hash(a: ArgumentV, target_json_present: bool) -> bool {
    match flag_of(a) {
        None => true,
        Some(f) => !(f == "--extern"@ || f == "-L"@ || f == "--check-cfg"@ || f == "--out-dir"@
            || f == "--diagnostic-width"@) && !(target_json_present && f == "--target"@),
    }
}

/// Whether an argument is a `--cfg`.
pub open spec fn is_cfg(a: ArgumentV) -> bool {
    flag_of(a) == Some("--cfg"@)
}

/// An argument as the characters it is written back as, all elements joined.
pub open spec fn wire_text(a: ArgumentV) -> Seq<char> {
    concat(arg_strings(a))
}

/// The written-back text of the keyed arguments, in order: the `--cfg`
/// arguments (second) apart from the others (first).
pub open spec fn argv_parts(args: Seq<ArgumentV>, target_json_present: bool) -> (Seq<Seq<char>>, Seq<Seq<char>>)
    decreases args.len(),
{
    if args.len() == 0 {
        (Seq::empty(), Seq::empty())
    } else {
        let (rest, cfgs) = argv_parts(args.drop_last(), target_json_present);
        let a = args.last();
        if !should_hash(a, target_json_present) {
            (rest, cfgs)
        } else if is_cfg(a) {
            (rest, cfgs.push(wire_text(a)))
        } else {
            (rest.push(wire_text(a)), cfgs)
        }
    }
}

/// The keyed command line: the other arguments in order, then the `--cfg`
/// arguments sorted (cargo has emitted them in varying order).
pub open spec fn argv_text(args: Seq<ArgumentV>, target_json_present: bool) -> Seq<char> {
    let (rest, cfgs) = argv_parts(args, target_json_present);
    concat(rest) + concat(sort_stable(cfgs, |a: Seq<char>, b: Seq<char>| lex_lt(a, b)))
}

/// The file names of the paths that have one, in order.
pub open spec fn basenames(paths: Seq<Seq<char>>) -> Seq<Seq<char>>
    decreases paths.len(),
{
    if paths.len() == 0 {
        Seq::empty()
    } else {
        let r = basenames(paths.drop_last());
        match file_name(paths.last()) {
            Some(n) => r.push(n),
            None => r,
        }
    }
}

/// Each name as UTF-8 followed by a NUL byte (no file name holds NUL, so
/// adjacent names cannot run together).
pub open spec fn names_bytes(names: Seq<Seq<char>>) -> Seq<u8>
    decreases names.len(),
{
    if names.len() == 0 {
        Seq::empty()
    } else {
        names_bytes(names.drop_last()) + encode_utf8(names.last()) + seq![0u8]
    }
}

/// The bytes that the cache key digests, for parsed arguments `p` and the
/// contents of the target JSON file (used when `p` names one).
pub open spec fn key_material(p: ParsedArgumentsV, target_json: Option<Seq<u8>>) -> Seq<u8> {
    let json = match (p.target_json, target_json) {
        (Some(_), Some(b)) => b,
        _ => Seq::<u8>::empty(),
    };
    encode_utf8(argv_text(p.arguments, p.target_json is Some))
        + names_bytes(sort_stable(basenames(p.externs), |a: Seq<char>, b: Seq<char>| lex_lt(a, b)))
        + names_bytes(sort_stable(basenames(p.staticlibs), |a: Seq<char>, b: Seq<char>| lex_lt(a, b)))
        + json
}

/// What `blake3::hash` returns for the given bytes.
pub uninterp spec fn blake3_digest(data: Seq<u8>) -> Seq<u8>;

/// `blake3::hash`: the 32-byte BLAKE3 digest of `data`. Claimed: the result is
/// a function of `data` alone (named `blake3_digest`), 32 bytes long.
#[verifier::external_body]
pub(crate) fn blake3_hash(data: &[u8]) -> (r: [u8; 32])
    ensures
        r@ == blake3_digest(data@),
        r@.len() == 32,
{
    *blake3::hash(data).as_bytes()
}

/// Appends the UTF-8 encoding of `s`.
fn push_text_bytes(out: &mut Vec<u8>, s: &str)
    ensures
        final(out)@ == old(out)@ + encode_utf8(s@),
{
    let b = s.as_bytes();
    let mut i: usize = 0;
    let ghost start = out@;
    while i < b.len()
        invariant
            0 <= i <= b@.len(),
            b@ == encode_utf8(s@),
            out@ == start + b@.take(i as int),
        decreases b.len() - i,
    {
        out.push(b[i]);
        i = i + 1;
        assert(out@ =~= start + b@.take(i as int));
    }
    assert(b@.take(b@.len() as int) =~= b@);
}

/// Appends the bytes of a slice.
fn push_bytes(out: &mut Vec<u8>, b: &[u8])
    ensures
        final(out)@ == old(out)@ + b@,
{
    let mut i: usize = 0;
    let ghost start = out@;
    while i < b.len()
        invariant
            0 <= i <= b@.len(),
            out@ == start + b@.take(i as int),
        decreases b.len() - i,
    {
        out.push(b[i]);
        i = i + 1;
        assert(out@ =~= start + b@.take(i as int));
    }
    assert(b@.take(b@.len() as int) =~= b@);
}

/// The written-back text of one argument.
fn wire_text_of(a: &Argument) -> (r: Vec<char>)
    requires
        argument_ascii(a@),
    ensures
        r@ == wire_text(a@),
{
    let parts = a.iter_os_strings();
    let ghost pv = strings_view(parts@);
    let mut out: Vec<char> = Vec::new();
    let mut i: usize = 0;
    assert(pv.take(0) =~= Seq::<Seq<char>>::empty());
    while i < parts.len()
        invariant
            0 <= i <= parts.len(),
            pv == strings_view(parts@),
            out@ == concat(pv.take(i as int)),
        decreases parts.len() - i,
    {
        assert(pv.take(i + 1).drop_last() =~= pv.take(i as int));
        assert(pv.take(i + 1).last() == parts@[i as int]@);
        let c = chars_of(parts[i].as_str());
        push_chars(&mut out, c.as_slice());
        i = i + 1;
    }
    assert(pv.take(parts.len() as int) =~= pv);
    out
}

/// Whether an argument goes into the cache key ([`should_hash`]).
fn keyed(a: &Argument, target_json_present: bool) -> (r: bool)
    ensures
        r == should_hash(a@, target_json_present),
{
    match a.flag_str() {
        None => true,
        Some(f) => {
            let f = f.as_str();
            !(same_text(f, "--extern") || same_text(f, "-L") || same_text(f, "--check-cfg") || same_text(
                f,
                "--out-dir",
            ) || same_text(f, "--diagnostic-width")) && !(target_json_present && same_text(f, "--target"))
        },
    }
}

/// Whether an argument is a `--cfg`.
fn cfg_flag(a: &Argument) -> (r: bool)
    ensures
        r == is_cfg(a@),
{
    match a.flag_str() {
        None => false,
        Some(f) => same_text(f.as_str(), "--cfg"),
    }
}

/// The keyed arguments' texts, the `--cfg` ones apart.
fn argv_texts(args: &Vec<Argument>, target_json_present: bool) -> (r: (Vec<Vec<char>>, Vec<Vec<char>>))
    requires
        forall|i: int| 0 <= i < args@.len() ==> argument_ascii(#[trigger] args@[i]@),
    ensures
        (r.0@.map_values(|x: Vec<char>| x@), r.1@.map_values(|x: Vec<char>| x@)) == argv_parts(
            arguments_view(args@),
            target_json_present,
        ),
{
    let ghost av = arguments_view(args@);
    let mut rest: Vec<Vec<char>> = Vec::new();
    let mut cfgs: Vec<Vec<char>> = Vec::new();
    let mut i: usize = 0;
    assert(av.take(0) =~= Seq::<ArgumentV>::empty());
    assert(rest@.map_values(|x: Vec<char>| x@) =~= Seq::<Seq<char>>::empty());
    assert(cfgs@.map_values(|x: Vec<char>| x@) =~= Seq::<Seq<char>>::empty());
    while i < args.len()
        invariant
            0 <= i <= args.len(),
            av == arguments_view(args@),
            forall|j: int| 0 <= j < args@.len() ==> argument_ascii(#[trigger] args@[j]@),
            (rest@.map_values(|x: Vec<char>| x@), cfgs@.map_values(|x: Vec<char>| x@)) == argv_parts(
                av.take(i as int),
                target_json_present,
            ),
        decreases args.len() - i,
    {
        let a = &args[i];
        assert(av.take(i + 1).drop_last() =~= av.take(i as int));
        assert(av.take(i + 1).last() == a@);
        if keyed(a, target_json_present) {
            let t = wire_text_of(a);
            if cfg_flag(a) {
                let ghost before = cfgs@.map_values(|x: Vec<char>| x@);
                cfgs.push(t);
                assert(cfgs@.map_values(|x: Vec<char>| x@) =~= before.push(wire_text(a@)));
            } else {
                let ghost before = rest@.map_values(|x: Vec<char>| x@);
                rest.push(t);
                assert(rest@.map_values(|x: Vec<char>| x@) =~= before.push(wire_text(a@)));
            }
        }
        i = i + 1;
    }
    assert(av.take(args.len() as int) =~= av);
    (rest, cfgs)
}

/// The concatenation of a list of texts.
fn concat_all(parts: &Vec<Vec<char>>, out: &mut Vec<char>)
    ensures
        final(out)@ == old(out)@ + concat(parts@.map_values(|x: Vec<char>| x@)),
{
    let ghost pv = parts@.map_values(|x: Vec<char>| x@);
    let ghost start = out@;
    let mut i: usize = 0;
    assert(pv.take(0) =~= Seq::<Seq<char>>::empty());
    assert(start + concat(pv.take(0)) =~= start);
    while i < parts.len()
        invariant
            0 <= i <= parts.len(),
            pv == parts@.map_values(|x: Vec<char>| x@),
            out@ == start + concat(pv.take(i as int)),
        decreases parts.len() - i,
    {
        assert(pv.take(i + 1).drop_last() =~= pv.take(i as int));
        assert(pv.take(i + 1).last() == parts@[i as int]@);
        push_chars(out, parts[i].as_slice());
        assert(out@ =~= start + concat(pv.take(i + 1)));
        i = i + 1;
    }
    assert(pv.take(parts.len() as int) =~= pv);
}

/// The file names of the paths that have one.
fn basenames_of(paths: &Vec<String>) -> (r: Vec<Vec<char>>)
    ensures
        r@.map_values(|x: Vec<char>| x@) == basenames(strings_view(paths@)),
{
    let ghost pv = strings_view(paths@);
    let mut out: Vec<Vec<char>> = Vec::new();
    let mut i: usize = 0;
    assert(pv.take(0) =~= Seq::<Seq<char>>::empty());
    assert(out@.map_values(|x: Vec<char>| x@) =~= Seq::<Seq<char>>::empty());
    while i < paths.len()
        invariant
            0 <= i <= paths.len(),
            pv == strings_view(paths@),
            out@.map_values(|x: Vec<char>| x@) == basenames(pv.take(i as int)),
        decreases paths.len() - i,
    {
        assert(pv.take(i + 1).drop_last() =~= pv.take(i as int));
        assert(pv.take(i + 1).last() == paths@[i as int]@);
        let c = chars_of(paths[i].as_str());
        match path_file_name(c.as_slice()) {
            Some(n) => {
                let ghost before = out@.map_values(|x: Vec<char>| x@);
                out.push(n);
                assert(out@.map_values(|x: Vec<char>| x@) =~= before.push(file_name(pv[i as int]).unwrap()));
            },
            None => {},
        }
        i = i + 1;
    }
    assert(pv.take(paths.len() as int) =~= pv);
    out
}

/// Appends each name as UTF-8 followed by NUL.
fn push_names(out: &mut Vec<u8>, names: &Vec<Vec<char>>)
    ensures
        final(out)@ == old(out)@ + names_bytes(names@.map_values(|x: Vec<char>| x@)),
{
    let ghost nv = names@.map_values(|x: Vec<char>| x@);
    let ghost start = out@;
    let mut i: usize = 0;
    assert(nv.take(0) =~= Seq::<Seq<char>>::empty());
    assert(start + names_bytes(nv.take(0)) =~= start);
    while i < names.len()
        invariant
            0 <= i <= names.len(),
            nv == names@.map_values(|x: Vec<char>| x@),
            out@ == start + names_bytes(nv.take(i as int)),
        decreases names.len() - i,
    {
        assert(nv.take(i + 1).drop_last() =~= nv.take(i as int));
        assert(nv.take(i + 1).last() == names@[i as int]@);
        let s = string_of(names[i].as_slice());
        push_text_bytes(out, s.as_str());
        out.push(0u8);
        assert(out@ =~= start + names_bytes(nv.take(i + 1)));
        i = i + 1;
    }
    assert(nv.take(names.len() as int) =~= nv);
}

/// Whether every argument's delimiter is an ASCII byte, as the arguments
/// that the parser produces have; the key can be computed only then.
pub fn delimiters_ascii(parsed: &ParsedArguments) -> (r: bool)
    ensures
        r == forall|i: int| 0 <= i < parsed.arguments@.len() ==> argument_ascii(#[trigger] parsed.arguments@[i]@),
{
    let mut i: usize = 0;
    while i < parsed.arguments.len()
        invariant
            0 <= i <= parsed.arguments.len(),
            forall|j: int| 0 <= j < i ==> argument_ascii(#[trigger] parsed.arguments@[j]@),
        decreases parsed.arguments.len() - i,
    {
        if !parsed.arguments[i].delimiter_is_ascii() {
            return false;
        }
        i = i + 1;
    }
    true
}

/// The bytes that the cache key digests ([`key_material`]), given the
/// contents of the target JSON file when the arguments name one. `None`
/// when the arguments name a target JSON file and its contents could not
/// be had (`target_json` is `None`): no key can be computed then.
pub fn cache_key_material(parsed: &ParsedArguments, target_json: Option<&[u8]>) -> (r: Option<Vec<u8>>)
    requires
        forall|i: int| 0 <= i < parsed.arguments@.len() ==> argument_ascii(#[trigger] parsed.arguments@[i]@),
    ensures
        r is None <==> (parsed.target_json is Some && target_json is None),
        r matches Some(m) ==> m@ == key_material(
            parsed@,
            match target_json {
                Some(b) => Some(b@),
                None => None,
            },
        ),
{
    if parsed.target_json.is_some() && target_json.is_none() {
        return None;
    }
    let tj = parsed.target_json.is_some();
    let (rest, mut cfgs) = argv_texts(&parsed.arguments, tj);
    sort_strings(&mut cfgs);
    let mut text: Vec<char> = Vec::new();
    concat_all(&rest, &mut text);
    concat_all(&cfgs, &mut text);
    let mut out: Vec<u8> = Vec::new();
    let ts = string_of(text.as_slice());
    push_text_bytes(&mut out, ts.as_str());
    let mut ext = basenames_of(&parsed.externs);
    sort_strings(&mut ext);
    push_names(&mut out, &ext);
    let mut libs = basenames_of(&parsed.staticlibs);
    sort_strings(&mut libs);
    push_names(&mut out, &libs);
    match (&parsed.target_json, target_json) {
        (Some(_), Some(b)) => push_bytes(&mut out, b),
        _ => {},
    }
    proof {
        assert(Seq::<char>::empty() + concat(rest@.map_values(|x: Vec<char>| x@)) =~= concat(
            rest@.map_values(|x: Vec<char>| x@),
        ));
        assert(Seq::<u8>::empty() + encode_utf8(text@) =~= encode_utf8(text@));
    }
    Some(out)
}

/// The cache key of a parsed rustc invocation: the BLAKE3 digest of its
/// [`key_material`], in lowercase hexadecimal. `None` when the arguments
/// name a target JSON file whose contents could not be had.
pub fn hash_rustc_args(parsed: &ParsedArguments, target_json: Option<&[u8]>) -> (r: Option<String>)
    requires
        forall|i: int| 0 <= i < parsed.arguments@.len() ==> argument_ascii(#[trigger] parsed.arguments@[i]@),
    ensures
        r is None <==> (parsed.target_json is Some && target_json is None),
        r matches Some(k) ==> k@ == hex_text(
            blake3_digest(
                key_material(
                    parsed@,
                    match target_json {
                        Some(b) => Some(b@),
                        None => None,
                    },
                ),
            ),
        ),
{
    match cache_key_material(parsed, target_json) {
        Some(m) => {
            let d = blake3_hash(m.as_slice());
            Some(hex_encode(&d))
        },
        None => None,
    }
}

/// The keyed texts of a concatenation are those of its parts, concatenated.
proof fn lemma_argv_parts_append(x: Seq<ArgumentV>, y: Seq<ArgumentV>, tj: bool)
    ensures
        argv_parts(x + y, tj) == (argv_parts(x, tj).0 + argv_parts(y, tj).0, argv_parts(x, tj).1 + argv_parts(
            y,
            tj,
        ).1),
    decreases y.len(),
{
    if y.len() == 0 {
        assert(x + y =~= x);
        assert(argv_parts(x, tj).0 + argv_parts(y, tj).0 =~= argv_parts(x, tj).0);
        assert(argv_parts(x, tj).1 + argv_parts(y, tj).1 =~= argv_parts(x, tj).1);
    } else {
        lemma_argv_parts_append(x, y.drop_last(), tj);
        assert((x + y).drop_last() =~= x + y.drop_last());
        assert((x + y).last() == y.last());
        let (xr, xc) = argv_parts(x, tj);
        let (yr, yc) = argv_parts(y.drop_last(), tj);
        assert((xr + yr).push(wire_text(y.last())) =~= xr + yr.push(wire_text(y.last())));
        assert((xc + yc).push(wire_text(y.last())) =~= xc + yc.push(wire_text(y.last())));
    }
}

/// `--cfg` arguments are keyed.
proof fn lemma_cfg_keyed(a: ArgumentV, tj: bool)
    requires
        is_cfg(a),
    ensures
        should_hash(a, tj),
{
    reveal_strlit("--cfg");
    reveal_strlit("--extern");
    reveal_strlit("-L");
    reveal_strlit("--check-cfg");
    reveal_strlit("--out-dir");
    reveal_strlit("--diagnostic-width");
    reveal_strlit("--target");
    assert("--cfg"@[2] != "--extern"@[2]);
    assert("--cfg"@.len() != "-L"@.len());
    assert("--cfg"@[3] != "--check-cfg"@[3]);
    assert("--cfg"@[2] != "--out-dir"@[2]);
    assert("--cfg"@[2] != "--diagnostic-width"@[2]);
    assert("--cfg"@[2] != "--target"@[2]);
}

/// The order of `--cfg` arguments does not affect the cache key: swapping two
/// adjacent `--cfg` arguments leaves the key material unchanged.
pub proof fn law_cfg_order_irrelevant(
    p: ParsedArgumentsV,
    pre: Seq<ArgumentV>,
    a: ArgumentV,
    b: ArgumentV,
    post: Seq<ArgumentV>,
    target_json: Option<Seq<u8>>,
)
    requires
        p.arguments == pre + seq![a, b] + post,
        is_cfg(a),
        is_cfg(b),
    ensures
        key_material(p, target_json) == key_material(
            ParsedArgumentsV { arguments: pre + seq![b, a] + post, ..p },
            target_json,
        ),
{
    broadcast use vstd::seq_lib::group_to_multiset_ensures;
    let tj = p.target_json is Some;
    let q = ParsedArgumentsV { arguments: pre + seq![b, a] + post, ..p };
    lemma_argv_parts_append(pre + seq![a, b], post, tj);
    lemma_argv_parts_append(pre, seq![a, b], tj);
    lemma_argv_parts_append(pre + seq![b, a], post, tj);
    lemma_argv_parts_append(pre, seq![b, a], tj);
    assert(seq![a, b].drop_last() =~= seq![a]);
    assert(seq![b, a].drop_last() =~= seq![b]);
    assert(seq![a].drop_last() =~= Seq::<ArgumentV>::empty());
    assert(seq![b].drop_last() =~= Seq::<ArgumentV>::empty());
    let wa = wire_text(a);
    let wb = wire_text(b);
    lemma_cfg_keyed(a, tj);
    lemma_cfg_keyed(b, tj);
    assert(argv_parts(Seq::<ArgumentV>::empty(), tj) == (Seq::<Seq<char>>::empty(), Seq::<Seq<char>>::empty()));
    assert(argv_parts(seq![a], tj) == (Seq::<Seq<char>>::empty(), seq![wa]));
    assert(argv_parts(seq![b], tj) == (Seq::<Seq<char>>::empty(), seq![wb]));
    assert(argv_parts(seq![a, b], tj) == (Seq::<Seq<char>>::empty(), seq![wa, wb]));
    assert(argv_parts(seq![b, a], tj) == (Seq::<Seq<char>>::empty(), seq![wb, wa]));
    let (pr, pc) = argv_parts(pre, tj);
    let (sr, sc) = argv_parts(post, tj);
    let cp = pc + seq![wa, wb] + sc;
    let cq = pc + seq![wb, wa] + sc;
    assert(argv_parts(p.arguments, tj).1 == cp);
    assert(argv_parts(q.arguments, tj).1 == cq);
    assert(argv_parts(p.arguments, tj).0 =~= argv_parts(q.arguments, tj).0);
    assert(cp.to_multiset() =~= cq.to_multiset()) by {
        vstd::seq_lib::lemma_multiset_commutative(pc + seq![wa, wb], sc);
        vstd::seq_lib::lemma_multiset_commutative(pc + seq![wb, wa], sc);
        vstd::seq_lib::lemma_multiset_commutative(pc, seq![wa, wb]);
        vstd::seq_lib::lemma_multiset_commutative(pc, seq![wb, wa]);
        assert(seq![wa, wb] =~= seq![wa].push(wb));
        assert(seq![wb, wa] =~= seq![wb].push(wa));
        assert(seq![wa] =~= Seq::<Seq<char>>::empty().push(wa));
        assert(seq![wb] =~= Seq::<Seq<char>>::empty().push(wb));
    }
    lemma_sort_strings_permutation(cp, cq);
}

/// Arguments that name paths or transient build settings (`--extern`, `-L`,
/// `--check-cfg`, `--out-dir`, `--diagnostic-width`) do not affect the cache
/// key: removing one leaves the key material unchanged.
pub proof fn law_unkeyed_flags_irrelevant(
    p: ParsedArgumentsV,
    pre: Seq<ArgumentV>,
    a: ArgumentV,
    post: Seq<ArgumentV>,
    target_json: Option<Seq<u8>>,
)
    requires
        p.arguments == pre + seq![a] + post,
        flag_of(a) == Some("--extern"@) || flag_of(a) == Some("-L"@) || flag_of(a) == Some("--check-cfg"@)
            || flag_of(a) == Some("--out-dir"@) || flag_of(a) == Some("--diagnostic-width"@),
    ensures
        key_material(p, target_json) == key_material(ParsedArgumentsV { arguments: pre + post, ..p }, target_json),
{
    let tj = p.target_json is Some;
    lemma_argv_parts_append(pre + seq![a], post, tj);
    lemma_argv_parts_append(pre, seq![a], tj);
    lemma_argv_parts_append(pre, post, tj);
    assert(seq![a].drop_last() =~= Seq::<ArgumentV>::empty());
    assert(argv_parts(Seq::<ArgumentV>::empty(), tj) == (Seq::<Seq<char>>::empty(), Seq::<Seq<char>>::empty()));
    assert(!should_hash(a, tj));
    assert(argv_parts(seq![a], tj) == (Seq::<Seq<char>>::empty(), Seq::<Seq<char>>::empty()));
    let (pr, pc) = argv_parts(pre, tj);
    assert(pr + Seq::<Seq<char>>::empty() =~= pr);
    assert(pc + Seq::<Seq<char>>::empty() =~= pc);
}

/// Extern crates and static libraries enter the cache key by file name only,
/// in no particular order: two invocations whose extern and static library
/// paths have the same file names (in any order, under any directories) have
/// the same key material.
pub proof fn law_extern_paths_by_file_name(
    p: ParsedArgumentsV,
    externs: Seq<Seq<char>>,
    staticlibs: Seq<Seq<char>>,
    target_json: Option<Seq<u8>>,
)
    requires
        basenames(externs).to_multiset() == basenames(p.externs).to_multiset(),
        basenames(staticlibs).to_multiset() == basenames(p.staticlibs).to_multiset(),
    ensures
        key_material(p, target_json) == key_material(
            ParsedArgumentsV { externs, staticlibs, ..p },
            target_json,
        ),
{
    lemma_sort_strings_permutation(basenames(externs), basenames(p.externs));
    lemma_sort_strings_permutation(basenames(staticlibs), basenames(p.staticlibs));
}


/// Concatenation of a concatenation of parts.
proof fn lemma_concat_append(x: Seq<Seq<char>>, y: Seq<Seq<char>>)
    ensures
        concat(x + y) == concat(x) + concat(y),
    decreases y.len(),
{
    if y.len() == 0 {
        assert(x + y =~= x);
        assert(concat(x) + concat(y) =~= concat(x));
    } else {
        lemma_concat_append(x, y.drop_last());
        assert((x + y).drop_last() =~= x + y.drop_last());
        assert(concat(x) + concat(y.drop_last()) + y.last() =~= concat(x) + (concat(y.drop_last()) + y.last()));
    }
}

/// A `--target` argument is keyed, apart from the `--cfg` arguments, unless
/// a target JSON file is named.
proof fn lemma_target_keyed(a: ArgumentV)
    requires
        flag_of(a) == Some("--target"@),
    ensures
        should_hash(a, false),
        !is_cfg(a),
{
    reveal_strlit("--cfg");
    reveal_strlit("--extern");
    reveal_strlit("-L");
    reveal_strlit("--check-cfg");
    reveal_strlit("--out-dir");
    reveal_strlit("--diagnostic-width");
    reveal_strlit("--target");
    assert("--target"@[2] != "--extern"@[2]);
    assert("--target"@.len() != "-L"@.len());
    assert("--target"@[2] != "--check-cfg"@[2]);
    assert("--target"@[2] != "--out-dir"@[2]);
    assert("--target"@[2] != "--diagnostic-width"@[2]);
    assert("--target"@[2] != "--cfg"@[2]);
}

/// Without a target JSON file, a built-in target name is part of the cache
/// key: two invocations that differ only in how their `--target` argument
/// is written back (such as `--target x86_64-unknown-linux-gnu` against
/// `--target aarch64-unknown-linux-gnu`) have different key material, so an
/// output built for one target is never served for the other.
pub proof fn law_target_name_keyed(
    p: ParsedArgumentsV,
    pre: Seq<ArgumentV>,
    v1: ArgDataV,
    v2: ArgDataV,
    d: ArgDisposition,
    post: Seq<ArgumentV>,
    target_json: Option<Seq<u8>>,
)
    requires
        p.target_json is None,
        p.arguments == pre + seq![ArgumentV::WithValue("--target"@, v1, d)] + post,
        wire_text(ArgumentV::WithValue("--target"@, v1, d)) != wire_text(ArgumentV::WithValue("--target"@, v2, d)),
    ensures
        key_material(p, target_json) != key_material(
            ParsedArgumentsV { arguments: pre + seq![ArgumentV::WithValue("--target"@, v2, d)] + post, ..p },
            target_json,
        ),
{
    let a1 = ArgumentV::WithValue("--target"@, v1, d);
    let a2 = ArgumentV::WithValue("--target"@, v2, d);
    let q = ParsedArgumentsV { arguments: pre + seq![a2] + post, ..p };
    lemma_target_keyed(a1);
    lemma_target_keyed(a2);
    let w1 = wire_text(a1);
    let w2 = wire_text(a2);
    lemma_argv_parts_append(pre + seq![a1], post, false);
    lemma_argv_parts_append(pre, seq![a1], false);
    lemma_argv_parts_append(pre + seq![a2], post, false);
    lemma_argv_parts_append(pre, seq![a2], false);
    assert(seq![a1].drop_last() =~= Seq::<ArgumentV>::empty());
    assert(seq![a2].drop_last() =~= Seq::<ArgumentV>::empty());
    assert(argv_parts(Seq::<ArgumentV>::empty(), false) == (Seq::<Seq<char>>::empty(), Seq::<Seq<char>>::empty()));
    assert(argv_parts(seq![a1], false) == (seq![w1], Seq::<Seq<char>>::empty()));
    assert(argv_parts(seq![a2], false) == (seq![w2], Seq::<Seq<char>>::empty()));
    let (pr, pc) = argv_parts(pre, false);
    let (sr, sc) = argv_parts(post, false);
    assert(argv_parts(p.arguments, false).0 == pr + seq![w1] + sr);
    assert(argv_parts(q.arguments, false).0 == pr + seq![w2] + sr);
    assert(argv_parts(p.arguments, false).1 =~= argv_parts(q.arguments, false).1);
    let c = concat(sort_stable(argv_parts(p.arguments, false).1, |a: Seq<char>, b: Seq<char>| lex_lt(a, b)));
    lemma_concat_append(pr + seq![w1], sr);
    lemma_concat_append(pr, seq![w1]);
    lemma_concat_append(pr + seq![w2], sr);
    lemma_concat_append(pr, seq![w2]);
    assert(seq![w1].drop_last() =~= Seq::<Seq<char>>::empty());
    assert(seq![w2].drop_last() =~= Seq::<Seq<char>>::empty());
    assert(concat(Seq::<Seq<char>>::empty()) == Seq::<char>::empty());
    assert(Seq::<char>::empty() + w1 =~= w1);
    assert(Seq::<char>::empty() + w2 =~= w2);
    assert(concat(seq![w1]) =~= w1);
    assert(concat(seq![w2]) =~= w2);
    let x = concat(pr);
    let r = concat(sr) + c;
    let t1 = argv_text(p.arguments, false);
    let t2 = argv_text(q.arguments, false);
    assert(t1 =~= x + w1 + r);
    assert(t2 =~= x + w2 + r);
    if key_material(p, target_json) == key_material(q, target_json) {
        let tail = names_bytes(sort_stable(basenames(p.externs), |a: Seq<char>, b: Seq<char>| lex_lt(a, b)))
            + names_bytes(sort_stable(basenames(p.staticlibs), |a: Seq<char>, b: Seq<char>| lex_lt(a, b)))
            + Seq::<u8>::empty();
        assert(key_material(p, target_json) =~= encode_utf8(t1) + tail);
        assert(key_material(q, target_json) =~= encode_utf8(t2) + tail);
        let e1 = encode_utf8(t1);
        let e2 = encode_utf8(t2);
        assert(e1.len() == e2.len());
        assert(e1 =~= (e1 + tail).take(e1.len() as int));
        assert(e2 =~= (e2 + tail).take(e2.len() as int));
        vstd::utf8::encode_utf8_decode_utf8(t1);
        vstd::utf8::encode_utf8_decode_utf8(t2);
        assert(t1 == t2);
        assert(w1.len() == w2.len());
        assert(w1 =~= t1.subrange(x.len() as int, (x.len() + w1.len()) as int));
        assert(w2 =~= t2.subrange(x.len() as int, (x.len() + w2.len()) as int));
    }
}

} // verus!
