//! Parsing of rustc command lines: which invocations can be cached, and the
//! typed view of their arguments that the cache key is built from.
//!
//! Arguments are matched against a sorted table of flag descriptions
//! ([`ArgInfo`]); each flag either stands alone or takes a value, passed as
//! the next argument or glued to the flag (optionally after a delimiter).
use vstd::prelude::*;
use crate::text::{
    debug_quoted, debug_text,
    chars_of, chars_equal, compare_chars, copy_string, first_index, has_prefix, join, lex_order,
    owned, push_char, push_chars, same_text, slice_chars, split, split_chars, split_once,
    split_once_chars, starts_with, string_of, Order,
};
use crate::paths::{extension, join_path, path_extension, path_join};
use crate::sorting::{
    by_code_point, insert_by, insert_position, lemma_insert_by_splice, lemma_insert_position, lemma_insert_strict,
    lemma_lt_at, lemma_lt_transitive, lemma_strict_unique, lex_lt, strictly_sorted,
};

verus! {

/// The byte that joins a flag to its value when they are written as one
/// argument (`Some(b'=')` for `--crate-name=foo`, `None` for `-Lpath`).
pub type Delimiter = Option<u8>;

/// How a value is passed to an argument with a value.
#[derive(PartialEq, Eq, Clone, Copy, Debug, Structural)]
pub enum ArgDisposition {
    /// As "-arg value"
    Separated,
    /// As "-arg value", but "-arg<delimiter>value" would be valid too
    CanBeConcatenated(Delimiter),
    /// As "-arg<delimiter>value", but "-arg value" would be valid too
    CanBeSeparated(Delimiter),
    /// As "-arg<delimiter>value"
    Concatenated(Delimiter),
}

/// Canonical shape that [`Argument::normalize`] collapses a disposition to.
#[derive(Debug, Clone, Copy, PartialEq, Eq, Structural)]
pub enum NormalizedDisposition {
    Separated,
    Concatenated,
}

/// Why a single argument could not be parsed.
#[derive(Debug, Clone, PartialEq, Eq)]
pub enum ArgParseError {
    UnexpectedEndOfArgs,
    InvalidUnicode(String),
    Other(String),
}

/// Mathematical view of [`ArgParseError`].
pub enum ArgParseErrorV {
    UnexpectedEndOfArgs,
    InvalidUnicode(Seq<char>),
    Other(Seq<char>),
}

impl View for ArgParseError {
    type V = ArgParseErrorV;

    open spec fn view(&self) -> ArgParseErrorV {
        match self {
            ArgParseError::UnexpectedEndOfArgs => ArgParseErrorV::UnexpectedEndOfArgs,
            ArgParseError::InvalidUnicode(s) => ArgParseErrorV::InvalidUnicode(s@),
            ArgParseError::Other(s) => ArgParseErrorV::Other(s@),
        }
    }
}

/// The text of an error, as its `Display` writes it.
pub open spec fn error_text(e: ArgParseErrorV) -> Seq<char> {
    match e {
        ArgParseErrorV::UnexpectedEndOfArgs => "Unexpected end of args"@,
        ArgParseErrorV::InvalidUnicode(s) => "String "@ + s + " contained invalid unicode"@,
        ArgParseErrorV::Other(s) => "Arg-specific parsing failed: "@ + s,
    }
}

impl ArgParseError {
    /// Exec form of [`error_text`].
    pub fn message(&self) -> (r: String)
        ensures
            r@ == error_text(self@),
    {
        match self {
            ArgParseError::UnexpectedEndOfArgs => owned("Unexpected end of args"),
            ArgParseError::InvalidUnicode(s) => {
                let mut v = chars_of("String ");
                let sc = chars_of(s.as_str());
                push_chars(&mut v, sc.as_slice());
                let tail = chars_of(" contained invalid unicode");
                push_chars(&mut v, tail.as_slice());
                string_of(v.as_slice())
            },
            ArgParseError::Other(s) => {
                let mut v = chars_of("Arg-specific parsing failed: ");
                let sc = chars_of(s.as_str());
                push_chars(&mut v, sc.as_slice());
                string_of(v.as_slice())
            },
        }
    }

    /// A copy of this error.
    pub fn duplicate(&self) -> (r: Self)
        ensures
            r@ == self@,
    {
        match self {
            ArgParseError::UnexpectedEndOfArgs => ArgParseError::UnexpectedEndOfArgs,
            ArgParseError::InvalidUnicode(s) => ArgParseError::InvalidUnicode(copy_string(s)),
            ArgParseError::Other(s) => ArgParseError::Other(copy_string(s)),
        }
    }
}

/// `-l [kind=]name`.
#[derive(Clone, Debug, PartialEq, Eq)]
pub struct ArgLinkLibrary {
    pub kind: String,
    pub name: String,
}

/// `-L [kind=]path`.
#[derive(Clone, Debug, PartialEq, Eq)]
pub struct ArgLinkPath {
    pub kind: String,
    pub path: String,
}

/// `--extern name=path`.
#[derive(Clone, Debug, PartialEq, Eq)]
pub struct ArgExtern {
    pub name: String,
    pub path: String,
}

/// `-C opt[=value]`.
#[derive(Clone, Debug, PartialEq, Eq)]
pub struct ArgCodegen {
    pub opt: String,
    pub value: Option<String>,
}

/// `-Z opt[=value]`.
#[derive(Clone, Debug, PartialEq, Eq)]
pub struct ArgUnstable {
    pub opt: String,
    pub value: Option<String>,
}

/// `--crate-type a,b,...`: whether `lib`/`rlib` and `staticlib` were named,
/// and the set of the other names, kept sorted by code point and free of
/// duplicates.
#[derive(Clone, Debug, PartialEq, Eq)]
pub struct ArgCrateTypes {
    pub rlib: bool,
    pub staticlib: bool,
    pub others: Vec<String>,
}

/// `--target`: a built-in target name, a path to a target JSON file, or a
/// name next to which a `<name>.json` file exists (ambiguous).
#[derive(Clone, Debug, PartialEq, Eq)]
pub enum ArgTarget {
    Name(String),
    Path(String),
    Unsure(String),
}

/// The typed value of a parsed argument.
#[derive(Clone, Debug, PartialEq, Eq)]
pub enum ArgData {
    TooHardFlag,
    TooHardPath(String),
    NotCompilationFlag,
    NotCompilation(String),
    LinkLibrary(ArgLinkLibrary),
    LinkPath(ArgLinkPath),
    Emit(String),
    Extern(ArgExtern),
    Color(String),
    Json(String),
    CrateName(String),
    CrateType(ArgCrateTypes),
    OutDir(String),
    CodeGen(ArgCodegen),
    PassThrough(String),
    Target(ArgTarget),
    Unstable(ArgUnstable),
}

/// Which [`ArgData`] a flag with a value produces, and so how its value is read.
#[derive(Clone, Copy, Debug, PartialEq, Eq, Structural)]
pub enum ArgKind {
    TooHardPath,
    NotCompilation,
    LinkLibrary,
    LinkPath,
    Emit,
    Extern,
    Color,
    Json,
    CrateName,
    CrateType,
    OutDir,
    CodeGen,
    PassThrough,
    Target,
    Unstable,
}

/// Mathematical view of [`ArgTarget`].
pub enum ArgTargetV {
    Name(Seq<char>),
    Path(Seq<char>),
    Unsure(Seq<char>),
}

/// Mathematical view of [`ArgData`].
pub enum ArgDataV {
    TooHardFlag,
    TooHardPath(Seq<char>),
    NotCompilationFlag,
    NotCompilation(Seq<char>),
    LinkLibrary(Seq<char>, Seq<char>),
    LinkPath(Seq<char>, Seq<char>),
    Emit(Seq<char>),
    Extern(Seq<char>, Seq<char>),
    Color(Seq<char>),
    Json(Seq<char>),
    CrateName(Seq<char>),
    CrateType(bool, bool, Seq<Seq<char>>),
    OutDir(Seq<char>),
    CodeGen(Seq<char>, Option<Seq<char>>),
    PassThrough(Seq<char>),
    Target(ArgTargetV),
    Unstable(Seq<char>, Option<Seq<char>>),
}

/// View of an optional string.
pub open spec fn opt_view(o: Option<String>) -> Option<Seq<char>> {
    match o {
        Some(s) => Some(s@),
        None => None,
    }
}

/// View of a list of strings.
pub open spec fn strings_view(v: Seq<String>) -> Seq<Seq<char>> {
    v.map_values(|s: String| s@)
}

impl View for ArgTarget {
    type V = ArgTargetV;

    open spec fn view(&self) -> ArgTargetV {
        match self {
            ArgTarget::Name(s) => ArgTargetV::Name(s@),
            ArgTarget::Path(s) => ArgTargetV::Path(s@),
            ArgTarget::Unsure(s) => ArgTargetV::Unsure(s@),
        }
    }
}

impl View for ArgData {
    type V = ArgDataV;

    open spec fn view(&self) -> ArgDataV {
        match self {
            ArgData::TooHardFlag => ArgDataV::TooHardFlag,
            ArgData::TooHardPath(s) => ArgDataV::TooHardPath(s@),
            ArgData::NotCompilationFlag => ArgDataV::NotCompilationFlag,
            ArgData::NotCompilation(s) => ArgDataV::NotCompilation(s@),
            ArgData::LinkLibrary(l) => ArgDataV::LinkLibrary(l.kind@, l.name@),
            ArgData::LinkPath(l) => ArgDataV::LinkPath(l.kind@, l.path@),
            ArgData::Emit(s) => ArgDataV::Emit(s@),
            ArgData::Extern(e) => ArgDataV::Extern(e.name@, e.path@),
            ArgData::Color(s) => ArgDataV::Color(s@),
            ArgData::Json(s) => ArgDataV::Json(s@),
            ArgData::CrateName(s) => ArgDataV::CrateName(s@),
            ArgData::CrateType(c) => ArgDataV::CrateType(c.rlib, c.staticlib, strings_view(c.others@)),
            ArgData::OutDir(s) => ArgDataV::OutDir(s@),
            ArgData::CodeGen(c) => ArgDataV::CodeGen(c.opt@, opt_view(c.value)),
            ArgData::PassThrough(s) => ArgDataV::PassThrough(s@),
            ArgData::Target(t) => ArgDataV::Target(t@),
            ArgData::Unstable(u) => ArgDataV::Unstable(u.opt@, opt_view(u.value)),
        }
    }
}

/// A copy of an optional string.
pub fn copy_opt(o: &Option<String>) -> (r: Option<String>)
    ensures
        opt_view(r) == opt_view(*o),
{
    match o {
        Some(s) => Some(copy_string(s)),
        None => None,
    }
}

/// A copy of a list of strings.
pub fn copy_strings(v: &Vec<String>) -> (r: Vec<String>)
    ensures
        strings_view(r@) == strings_view(v@),
{
    let mut r: Vec<String> = Vec::new();
    let mut i: usize = 0;
    while i < v.len()
        invariant
            0 <= i <= v.len(),
            r@.len() == i,
            forall|j: int| 0 <= j < i ==> #[trigger] r@[j]@ == v@[j]@,
        decreases v.len() - i,
    {
        r.push(copy_string(&v[i]));
        i = i + 1;
    }
    assert(strings_view(r@) =~= strings_view(v@));
    r
}

impl ArgData {
    /// A copy of this value.
    pub fn duplicate(&self) -> (r: Self)
        ensures
            r@ == self@,
    {
        match self {
            ArgData::TooHardFlag => ArgData::TooHardFlag,
            ArgData::TooHardPath(s) => ArgData::TooHardPath(copy_string(s)),
            ArgData::NotCompilationFlag => ArgData::NotCompilationFlag,
            ArgData::NotCompilation(s) => ArgData::NotCompilation(copy_string(s)),
            ArgData::LinkLibrary(l) => ArgData::LinkLibrary(
                ArgLinkLibrary { kind: copy_string(&l.kind), name: copy_string(&l.name) },
            ),
            ArgData::LinkPath(l) => ArgData::LinkPath(
                ArgLinkPath { kind: copy_string(&l.kind), path: copy_string(&l.path) },
            ),
            ArgData::Emit(s) => ArgData::Emit(copy_string(s)),
            ArgData::Extern(e) => ArgData::Extern(
                ArgExtern { name: copy_string(&e.name), path: copy_string(&e.path) },
            ),
            ArgData::Color(s) => ArgData::Color(copy_string(s)),
            ArgData::Json(s) => ArgData::Json(copy_string(s)),
            ArgData::CrateName(s) => ArgData::CrateName(copy_string(s)),
            ArgData::CrateType(c) => ArgData::CrateType(
                ArgCrateTypes { rlib: c.rlib, staticlib: c.staticlib, others: copy_strings(&c.others) },
            ),
            ArgData::OutDir(s) => ArgData::OutDir(copy_string(s)),
            ArgData::CodeGen(c) => ArgData::CodeGen(
                ArgCodegen { opt: copy_string(&c.opt), value: copy_opt(&c.value) },
            ),
            ArgData::PassThrough(s) => ArgData::PassThrough(copy_string(s)),
            ArgData::Target(t) => ArgData::Target(
                match t {
                    ArgTarget::Name(s) => ArgTarget::Name(copy_string(s)),
                    ArgTarget::Path(s) => ArgTarget::Path(copy_string(s)),
                    ArgTarget::Unsure(s) => ArgTarget::Unsure(copy_string(s)),
                },
            ),
            ArgData::Unstable(u) => ArgData::Unstable(
                ArgUnstable { opt: copy_string(&u.opt), value: copy_opt(&u.value) },
            ),
        }
    }
}


/// What is known of the file system when arguments are read: the paths that
/// are regular files, and the paths that exist.
#[derive(Clone, Debug, PartialEq, Eq)]
pub struct FileProbe {
    pub files: Vec<String>,
    pub existing: Vec<String>,
}

/// Mathematical view of [`FileProbe`].
pub struct FileProbeV {
    pub files: Seq<Seq<char>>,
    pub existing: Seq<Seq<char>>,
}

impl View for FileProbe {
    type V = FileProbeV;

    open spec fn view(&self) -> FileProbeV {
        FileProbeV { files: strings_view(self.files@), existing: strings_view(self.existing@) }
    }
}

/// Split an argument value at the first `split` character: the text before
/// it and, when there is one, the text after it.
pub fn split_os_string_arg(val: &str, split: char) -> (r: (String, Option<String>))
    ensures
        r.0@ == split_once(val@, split).0,
        opt_view(r.1) == split_once(val@, split).1,
{
    let c = chars_of(val);
    let (a, b) = split_once_chars(c.as_slice(), split);
    let second = match b {
        Some(x) => Some(string_of(x.as_slice())),
        None => None,
    };
    (string_of(a.as_slice()), second)
}

/// Whether a list of strings holds `x`.
pub fn contains_text(v: &Vec<String>, x: &[char]) -> (r: bool)
    ensures
        r == strings_view(v@).contains(x@),
{
    let mut i: usize = 0;
    while i < v.len()
        invariant
            0 <= i <= v.len(),
            forall|j: int| 0 <= j < i ==> v@[j]@ != x@,
        decreases v.len() - i,
    {
        let c = chars_of(v[i].as_str());
        if chars_equal(c.as_slice(), x) {
            assert(strings_view(v@)[i as int] == x@);
            return true;
        }
        i = i + 1;
    }
    proof {
        if strings_view(v@).contains(x@) {
            let j = choose|j: int| 0 <= j < strings_view(v@).len() && strings_view(v@)[j] == x@;
            assert(v@[j]@ == x@);
        }
    }
    false
}

impl FileProbe {
    /// A probe that knows of no file.
    pub fn new() -> (r: Self)
        ensures
            r@.files.len() == 0,
            r@.existing.len() == 0,
    {
        let r = FileProbe { files: Vec::new(), existing: Vec::new() };
        assert(r@.files =~= Seq::<Seq<char>>::empty());
        assert(r@.existing =~= Seq::<Seq<char>>::empty());
        r
    }

    /// Whether `p` is known to be a regular file.
    pub fn is_file(&self, p: &[char]) -> (r: bool)
        ensures
            r == self@.files.contains(p@),
    {
        contains_text(&self.files, p)
    }

    /// Whether `p` is known to exist.
    pub fn path_exists(&self, p: &[char]) -> (r: bool)
        ensures
            r == self@.existing.contains(p@),
    {
        contains_text(&self.existing, p)
    }
}

/// Strict code-point order as a closure, for the sorted sets of names.
pub open spec fn text_lt() -> spec_fn(Seq<char>, Seq<char>) -> bool {
    |a: Seq<char>, b: Seq<char>| lex_lt(a, b)
}

/// `x` added to the sorted, duplicate-free sequence `s`.
pub open spec fn set_insert(s: Seq<Seq<char>>, x: Seq<char>) -> Seq<Seq<char>> {
    if s.contains(x) {
        s
    } else {
        insert_by(s, x, text_lt())
    }
}

/// Adds `x` to the sorted, duplicate-free list `v`.
pub fn insert_unique(v: &mut Vec<String>, x: String)
    ensures
        strings_view(final(v)@) == set_insert(strings_view(old(v)@), x@),
{
    let xc = chars_of(x.as_str());
    if contains_text(v, xc.as_slice()) {
        return;
    }
    let ghost sv = strings_view(v@);
    let mut k: usize = 0;
    let mut go = k < v.len();
    while go
        invariant
            0 <= k <= v.len(),
            xc@ == x@,
            sv == strings_view(v@),
            forall|j: int| 0 <= j < k ==> !lex_lt(x@, #[trigger] sv[j]),
            go ==> k < v.len(),
            !go ==> (k == v.len() || lex_lt(x@, sv[k as int])),
        decreases v.len() - k + (if go { 1int } else { 0int }),
    {
        let yc = chars_of(v[k].as_str());
        if compare_chars(xc.as_slice(), yc.as_slice()) == Order::Less {
            go = false;
        } else {
            k = k + 1;
            go = k < v.len();
        }
    }
    proof {
        lemma_insert_position(sv, x@, text_lt(), k as int);
        lemma_insert_by_splice(sv, x@, text_lt());
    }
    v.insert(k, x);
    assert(strings_view(v@) =~= sv.take(k as int) + seq![x@] + sv.skip(k as int));
}

/// `--crate-type` names folded into (rlib, staticlib, other names).
pub open spec fn crate_types_of(parts: Seq<Seq<char>>) -> (bool, bool, Seq<Seq<char>>)
    decreases parts.len(),
{
    if parts.len() == 0 {
        (false, false, Seq::<Seq<char>>::empty())
    } else {
        let (r, st, o) = crate_types_of(parts.drop_last());
        let t = parts.last();
        if t == "lib"@ || t == "rlib"@ {
            (true, st, o)
        } else if t == "staticlib"@ {
            (r, true, o)
        } else {
            (r, st, set_insert(o, t))
        }
    }
}

/// How `--target <v>` is read.
pub open spec fn target_of(v: Seq<char>, fs: FileProbeV) -> ArgTargetV {
    if extension(v) == Some("json"@) {
        ArgTargetV::Path(v)
    } else if fs.files.contains(v + ".json"@) {
        ArgTargetV::Unsure(v)
    } else {
        ArgTargetV::Name(v)
    }
}

/// The value that a flag of kind `kind` takes from the text `v`.
pub open spec fn spec_create(kind: ArgKind, v: Seq<char>, fs: FileProbeV) -> Result<ArgDataV, ArgParseErrorV> {
    let (a, b) = split_once(v, '=');
    match kind {
        ArgKind::TooHardPath => Ok(ArgDataV::TooHardPath(v)),
        ArgKind::NotCompilation => Ok(ArgDataV::NotCompilation(v)),
        ArgKind::Emit => Ok(ArgDataV::Emit(v)),
        ArgKind::Color => Ok(ArgDataV::Color(v)),
        ArgKind::Json => Ok(ArgDataV::Json(v)),
        ArgKind::CrateName => Ok(ArgDataV::CrateName(v)),
        ArgKind::OutDir => Ok(ArgDataV::OutDir(v)),
        ArgKind::PassThrough => Ok(ArgDataV::PassThrough(v)),
        ArgKind::LinkLibrary => match b {
            Some(n) => Ok(ArgDataV::LinkLibrary(a, n)),
            None => Ok(ArgDataV::LinkLibrary("dylib"@, a)),
        },
        ArgKind::LinkPath => match b {
            Some(p) => Ok(ArgDataV::LinkPath(a, p)),
            None => Ok(ArgDataV::LinkPath("all"@, a)),
        },
        ArgKind::Extern => match b {
            Some(p) => Ok(ArgDataV::Extern(a, p)),
            None => Err(ArgParseErrorV::Other("no path for extern"@)),
        },
        ArgKind::CodeGen => Ok(ArgDataV::CodeGen(a, b)),
        ArgKind::Unstable => Ok(ArgDataV::Unstable(a, b)),
        ArgKind::CrateType => {
            let (r, st, o) = crate_types_of(split(v, ','));
            Ok(ArgDataV::CrateType(r, st, o))
        },
        ArgKind::Target => Ok(ArgDataV::Target(target_of(v, fs))),
    }
}

/// View of a parse result for one value.
pub open spec fn data_result_view(r: Result<ArgData, ArgParseError>) -> Result<ArgDataV, ArgParseErrorV> {
    match r {
        Ok(d) => Ok(d@),
        Err(e) => Err(e@),
    }
}

fn read_crate_types(v: &[char]) -> (r: ArgCrateTypes)
    ensures
        (r.rlib, r.staticlib, strings_view(r.others@)) == crate_types_of(split(v@, ',')),
{
    let parts = split_chars(v, ',');
    let ghost ps = split(v@, ',');
    let lib = chars_of("lib");
    let rlib = chars_of("rlib");
    let staticlib = chars_of("staticlib");
    let mut out = ArgCrateTypes { rlib: false, staticlib: false, others: Vec::new() };
    let mut i: usize = 0;
    assert(strings_view(out.others@) =~= Seq::<Seq<char>>::empty());
    assert(ps.take(0) =~= Seq::<Seq<char>>::empty());
    while i < parts.len()
        invariant
            0 <= i <= parts.len(),
            parts@.len() == ps.len(),
            forall|j: int| 0 <= j < parts@.len() ==> #[trigger] parts@[j]@ == ps[j],
            lib@ == "lib"@,
            rlib@ == "rlib"@,
            staticlib@ == "staticlib"@,
            (out.rlib, out.staticlib, strings_view(out.others@)) == crate_types_of(ps.take(i as int)),
        decreases parts.len() - i,
    {
        let t = parts[i].as_slice();
        proof {
            assert(ps.take(i + 1).drop_last() =~= ps.take(i as int));
            assert(ps.take(i + 1).last() == t@);
        }
        if chars_equal(t, lib.as_slice()) || chars_equal(t, rlib.as_slice()) {
            out.rlib = true;
        } else if chars_equal(t, staticlib.as_slice()) {
            out.staticlib = true;
        } else {
            insert_unique(&mut out.others, string_of(t));
        }
        i = i + 1;
    }
    assert(ps.take(parts.len() as int) =~= ps);
    out
}

fn read_target(v: &[char], fs: &FileProbe) -> (r: ArgTarget)
    ensures
        r@ == target_of(v@, fs@),
{
    let json = chars_of("json");
    let is_json = match path_extension(v) {
        Some(e) => chars_equal(e.as_slice(), json.as_slice()),
        None => false,
    };
    if is_json {
        return ArgTarget::Path(string_of(v));
    }
    let mut with_json = slice_chars(v, 0, v.len());
    let dot_json = chars_of(".json");
    push_chars(&mut with_json, dot_json.as_slice());
    assert(v@.subrange(0, v@.len() as int) =~= v@);
    if fs.is_file(with_json.as_slice()) {
        ArgTarget::Unsure(string_of(v))
    } else {
        ArgTarget::Name(string_of(v))
    }
}

impl ArgKind {
    /// Reads the value of a flag of this kind from `v`.
    pub fn create(self, v: &[char], fs: &FileProbe) -> (r: Result<ArgData, ArgParseError>)
        ensures
            data_result_view(r) == spec_create(self, v@, fs@),
    {
        match self {
            ArgKind::TooHardPath => Ok(ArgData::TooHardPath(string_of(v))),
            ArgKind::NotCompilation => Ok(ArgData::NotCompilation(string_of(v))),
            ArgKind::Emit => Ok(ArgData::Emit(string_of(v))),
            ArgKind::Color => Ok(ArgData::Color(string_of(v))),
            ArgKind::Json => Ok(ArgData::Json(string_of(v))),
            ArgKind::CrateName => Ok(ArgData::CrateName(string_of(v))),
            ArgKind::OutDir => Ok(ArgData::OutDir(string_of(v))),
            ArgKind::PassThrough => Ok(ArgData::PassThrough(string_of(v))),
            ArgKind::CrateType => Ok(ArgData::CrateType(read_crate_types(v))),
            ArgKind::Target => Ok(ArgData::Target(read_target(v, fs))),
            _ => {
                let (a, b) = split_once_chars(v, '=');
                let a = string_of(a.as_slice());
                match self {
                    ArgKind::LinkLibrary => match b {
                        Some(n) => Ok(ArgData::LinkLibrary(ArgLinkLibrary { kind: a, name: string_of(n.as_slice()) })),
                        None => Ok(ArgData::LinkLibrary(ArgLinkLibrary { kind: owned("dylib"), name: a })),
                    },
                    ArgKind::LinkPath => match b {
                        Some(p) => Ok(ArgData::LinkPath(ArgLinkPath { kind: a, path: string_of(p.as_slice()) })),
                        None => Ok(ArgData::LinkPath(ArgLinkPath { kind: owned("all"), path: a })),
                    },
                    ArgKind::Extern => match b {
                        Some(p) => Ok(ArgData::Extern(ArgExtern { name: a, path: string_of(p.as_slice()) })),
                        None => Err(ArgParseError::Other(owned("no path for extern"))),
                    },
                    ArgKind::CodeGen => Ok(ArgData::CodeGen(ArgCodegen {
                        opt: a,
                        value: match b {
                            Some(x) => Some(string_of(x.as_slice())),
                            None => None,
                        },
                    })),
                    _ => Ok(ArgData::Unstable(ArgUnstable {
                        opt: a,
                        value: match b {
                            Some(x) => Some(string_of(x.as_slice())),
                            None => None,
                        },
                    })),
                }
            },
        }
    }
}

/// The `--crate-type` names as written back: the other names plus `rlib` and
/// `staticlib` when set, sorted.
pub open spec fn crate_type_names(rlib: bool, staticlib: bool, others: Seq<Seq<char>>) -> Seq<Seq<char>> {
    let a = if rlib { set_insert(others, "rlib"@) } else { others };
    if staticlib { set_insert(a, "staticlib"@) } else { a }
}

/// `k=v` for a key and a value.
pub open spec fn key_value(k: Seq<char>, v: Seq<char>) -> Seq<char> {
    k + seq!['='] + v
}

/// The text a value is written back as (`IntoArg::into_arg_os_string`).
pub open spec fn arg_text(d: ArgDataV) -> Seq<char> {
    match d {
        ArgDataV::TooHardFlag => Seq::<char>::empty(),
        ArgDataV::NotCompilationFlag => Seq::<char>::empty(),
        ArgDataV::TooHardPath(s) => s,
        ArgDataV::NotCompilation(s) => s,
        ArgDataV::Emit(s) => s,
        ArgDataV::Color(s) => s,
        ArgDataV::Json(s) => s,
        ArgDataV::CrateName(s) => s,
        ArgDataV::OutDir(s) => s,
        ArgDataV::PassThrough(s) => s,
        ArgDataV::LinkLibrary(k, n) => key_value(k, n),
        ArgDataV::LinkPath(k, p) => key_value(k, p),
        ArgDataV::Extern(n, p) => key_value(n, p),
        ArgDataV::CodeGen(o, v) => match v {
            Some(x) => key_value(o, x),
            None => o,
        },
        ArgDataV::Unstable(o, v) => match v {
            Some(x) => key_value(o, x),
            None => o,
        },
        ArgDataV::CrateType(r, st, o) => crate::text::join(crate_type_names(r, st, o), ","@),
        ArgDataV::Target(t) => match t {
            ArgTargetV::Name(s) => s,
            ArgTargetV::Path(s) => s,
            ArgTargetV::Unsure(s) => s,
        },
    }
}

fn key_value_string(k: &String, v: &String) -> (r: String)
    ensures
        r@ == key_value(k@, v@),
{
    let mut c = chars_of(k.as_str());
    c.push('=');
    let vc = chars_of(v.as_str());
    push_chars(&mut c, vc.as_slice());
    string_of(c.as_slice())
}

impl ArgData {
    /// The text this value is written back as.
    pub fn into_arg_os_string(&self) -> (r: String)
        ensures
            r@ == arg_text(self@),
    {
        match self {
            ArgData::TooHardFlag => String::new(),
            ArgData::NotCompilationFlag => String::new(),
            ArgData::TooHardPath(s) => copy_string(s),
            ArgData::NotCompilation(s) => copy_string(s),
            ArgData::Emit(s) => copy_string(s),
            ArgData::Color(s) => copy_string(s),
            ArgData::Json(s) => copy_string(s),
            ArgData::CrateName(s) => copy_string(s),
            ArgData::OutDir(s) => copy_string(s),
            ArgData::PassThrough(s) => copy_string(s),
            ArgData::LinkLibrary(l) => key_value_string(&l.kind, &l.name),
            ArgData::LinkPath(l) => key_value_string(&l.kind, &l.path),
            ArgData::Extern(e) => key_value_string(&e.name, &e.path),
            ArgData::CodeGen(c) => match &c.value {
                Some(x) => key_value_string(&c.opt, x),
                None => copy_string(&c.opt),
            },
            ArgData::Unstable(u) => match &u.value {
                Some(x) => key_value_string(&u.opt, x),
                None => copy_string(&u.opt),
            },
            ArgData::CrateType(c) => {
                let mut names = copy_strings(&c.others);
                if c.rlib {
                    insert_unique(&mut names, owned("rlib"));
                }
                if c.staticlib {
                    insert_unique(&mut names, owned("staticlib"));
                }
                let r = crate::text::join_strings(&names, ",");
                assert(names@.map_values(|p: String| p@) =~= strings_view(names@));
                r
            },
            ArgData::Target(t) => match t {
                ArgTarget::Name(s) => copy_string(s),
                ArgTarget::Path(s) => copy_string(s),
                ArgTarget::Unsure(s) => copy_string(s),
            },
        }
    }
}

/// A parsed argument.
#[derive(Clone, Debug, PartialEq, Eq)]
pub enum Argument {
    /// Unknown non-flag argument; e.g. "foo"
    Raw(String),
    /// Unknown flag argument; e.g. "-foo"
    UnknownFlag(String),
    /// Known flag argument; e.g. "-bar"
    Flag(String, ArgData),
    /// Known argument with a value; e.g. "-qux bar", where the way the
    /// value is passed is described by the ArgDisposition type.
    WithValue(String, ArgData, ArgDisposition),
}

/// Mathematical view of [`Argument`].
pub enum ArgumentV {
    Raw(Seq<char>),
    UnknownFlag(Seq<char>),
    Flag(Seq<char>, ArgDataV),
    WithValue(Seq<char>, ArgDataV, ArgDisposition),
}

impl View for Argument {
    type V = ArgumentV;

    open spec fn view(&self) -> ArgumentV {
        match self {
            Argument::Raw(s) => ArgumentV::Raw(s@),
            Argument::UnknownFlag(s) => ArgumentV::UnknownFlag(s@),
            Argument::Flag(s, d) => ArgumentV::Flag(s@, d@),
            Argument::WithValue(s, d, disp) => ArgumentV::WithValue(s@, d@, *disp),
        }
    }
}

/// An argument with a value that may be written either way, collapsed to
/// the requested shape; every other argument unchanged.
pub open spec fn spec_normalize(a: ArgumentV, nd: NormalizedDisposition) -> ArgumentV {
    match a {
        ArgumentV::WithValue(s, v, disp) => match disp {
            ArgDisposition::CanBeConcatenated(d) => ArgumentV::WithValue(
                s,
                v,
                match nd {
                    NormalizedDisposition::Separated => ArgDisposition::Separated,
                    NormalizedDisposition::Concatenated => ArgDisposition::Concatenated(d),
                },
            ),
            ArgDisposition::CanBeSeparated(d) => ArgumentV::WithValue(
                s,
                v,
                match nd {
                    NormalizedDisposition::Separated => ArgDisposition::Separated,
                    NormalizedDisposition::Concatenated => ArgDisposition::Concatenated(d),
                },
            ),
            _ => a,
        },
        _ => a,
    }
}

/// The delimiter byte as a character.
pub open spec fn delim_char(d: u8) -> char {
    d as char
}

/// Flag, delimiter and value glued into one argument (the delimiter is left
/// out when the value is empty).
pub open spec fn glued(flag: Seq<char>, value: Seq<char>, d: Delimiter) -> Seq<char> {
    match d {
        Some(c) => if value.len() > 0 {
            flag + seq![delim_char(c)] + value
        } else {
            flag + value
        },
        None => flag + value,
    }
}

/// The argv elements an argument is written back as.
pub open spec fn arg_strings(a: ArgumentV) -> Seq<Seq<char>> {
    match a {
        ArgumentV::Raw(s) => seq![s],
        ArgumentV::UnknownFlag(s) => seq![s],
        ArgumentV::Flag(s, _) => seq![s],
        ArgumentV::WithValue(s, v, disp) => match disp {
            ArgDisposition::CanBeSeparated(d) => seq![glued(s, arg_text(v), d)],
            ArgDisposition::Concatenated(d) => seq![glued(s, arg_text(v), d)],
            ArgDisposition::Separated => seq![s, arg_text(v)],
            ArgDisposition::CanBeConcatenated(_) => seq![s, arg_text(v)],
        },
    }
}

/// The delimiter of a disposition, if any.
pub open spec fn disposition_delimiter(d: ArgDisposition) -> Delimiter {
    match d {
        ArgDisposition::Separated => None,
        ArgDisposition::CanBeConcatenated(x) => x,
        ArgDisposition::CanBeSeparated(x) => x,
        ArgDisposition::Concatenated(x) => x,
    }
}

/// The delimiter, if any, is an ASCII byte.
pub open spec fn ascii_delimiter(d: ArgDisposition) -> bool {
    match disposition_delimiter(d) {
        Some(c) => c < 128,
        None => true,
    }
}

/// Every delimiter in the argument is an ASCII byte.
pub open spec fn argument_ascii(a: ArgumentV) -> bool {
    match a {
        ArgumentV::WithValue(_, _, d) => ascii_delimiter(d),
        _ => true,
    }
}

fn glue(flag: &String, value: &String, d: Delimiter) -> (r: String)
    requires
        d matches Some(c) ==> c < 128,
    ensures
        r@ == glued(flag@, value@, d),
{
    let mut c = chars_of(flag.as_str());
    let vc = chars_of(value.as_str());
    match d {
        Some(b) => {
            if vc.len() > 0 {
                c.push(b as char);
            }
        },
        None => {},
    }
    push_chars(&mut c, vc.as_slice());
    string_of(c.as_slice())
}

impl Argument {
    /// Whether the argument's delimiter, if it has one, is an ASCII byte.
    pub fn delimiter_is_ascii(&self) -> (r: bool)
        ensures
            r == argument_ascii(self@),
    {
        match self {
            Argument::WithValue(_, _, d) => match d {
                ArgDisposition::Separated => true,
                ArgDisposition::CanBeConcatenated(x) => match x {
                    Some(c) => *c < 128,
                    None => true,
                },
                ArgDisposition::CanBeSeparated(x) => match x {
                    Some(c) => *c < 128,
                    None => true,
                },
                ArgDisposition::Concatenated(x) => match x {
                    Some(c) => *c < 128,
                    None => true,
                },
            },
            _ => true,
        }
    }

    /// For arguments that allow both a concatenated or separated disposition,
    /// normalize a parsed argument to a preferred disposition.
    pub fn normalize(self, disposition: NormalizedDisposition) -> (r: Self)
        ensures
            r@ == spec_normalize(self@, disposition),
    {
        match self {
            Argument::WithValue(s, v, ArgDisposition::CanBeConcatenated(d)) => Argument::WithValue(
                s,
                v,
                match disposition {
                    NormalizedDisposition::Separated => ArgDisposition::Separated,
                    NormalizedDisposition::Concatenated => ArgDisposition::Concatenated(d),
                },
            ),
            Argument::WithValue(s, v, ArgDisposition::CanBeSeparated(d)) => Argument::WithValue(
                s,
                v,
                match disposition {
                    NormalizedDisposition::Separated => ArgDisposition::Separated,
                    NormalizedDisposition::Concatenated => ArgDisposition::Concatenated(d),
                },
            ),
            a => a,
        }
    }

    /// The argument's own text: the raw text, or the flag.
    pub fn to_os_string(&self) -> (r: String)
        ensures
            r@ == match self@ {
                ArgumentV::Raw(s) => s,
                ArgumentV::UnknownFlag(s) => s,
                ArgumentV::Flag(s, _) => s,
                ArgumentV::WithValue(s, _, _) => s,
            },
    {
        match self {
            Argument::Raw(s) => copy_string(s),
            Argument::UnknownFlag(s) => copy_string(s),
            Argument::Flag(s, _) => copy_string(s),
            Argument::WithValue(s, _, _) => copy_string(s),
        }
    }

    /// The flag of a known argument.
    pub fn flag_str(&self) -> (r: Option<&String>)
        ensures
            match self@ {
                ArgumentV::Flag(s, _) => r is Some && r.unwrap()@ == s,
                ArgumentV::WithValue(s, _, _) => r is Some && r.unwrap()@ == s,
                _ => r is None,
            },
    {
        match self {
            Argument::Flag(s, _) => Some(s),
            Argument::WithValue(s, _, _) => Some(s),
            _ => None,
        }
    }

    /// The value of a known argument.
    pub fn get_data(&self) -> (r: Option<&ArgData>)
        ensures
            match self@ {
                ArgumentV::Flag(_, d) => r is Some && r.unwrap()@ == d,
                ArgumentV::WithValue(_, d, _) => r is Some && r.unwrap()@ == d,
                _ => r is None,
            },
    {
        match self {
            Argument::Flag(_, d) => Some(d),
            Argument::WithValue(_, d, _) => Some(d),
            _ => None,
        }
    }

    /// The argv elements this argument is written back as.
    pub fn iter_os_strings(&self) -> (r: Vec<String>)
        requires
            argument_ascii(self@),
        ensures
            strings_view(r@) == arg_strings(self@),
    {
        let mut r: Vec<String> = Vec::new();
        match self {
            Argument::Raw(s) => r.push(copy_string(s)),
            Argument::UnknownFlag(s) => r.push(copy_string(s)),
            Argument::Flag(s, _) => r.push(copy_string(s)),
            Argument::WithValue(s, v, disp) => match disp {
                ArgDisposition::CanBeSeparated(d) => r.push(glue(s, &v.into_arg_os_string(), *d)),
                ArgDisposition::Concatenated(d) => r.push(glue(s, &v.into_arg_os_string(), *d)),
                _ => {
                    r.push(copy_string(s));
                    r.push(v.into_arg_os_string());
                },
            },
        }
        assert(strings_view(r@) =~= arg_strings(self@));
        r
    }

    /// A copy of this argument.
    pub fn duplicate(&self) -> (r: Self)
        ensures
            r@ == self@,
    {
        match self {
            Argument::Raw(s) => Argument::Raw(copy_string(s)),
            Argument::UnknownFlag(s) => Argument::UnknownFlag(copy_string(s)),
            Argument::Flag(s, d) => Argument::Flag(copy_string(s), d.duplicate()),
            Argument::WithValue(s, d, disp) => Argument::WithValue(copy_string(s), d.duplicate(), *disp),
        }
    }
}

/// The description of how an argument may be parsed.
#[derive(Clone, Debug, PartialEq, Eq)]
pub enum ArgInfo {
    /// A simple flag argument, of the form "-foo".
    Flag(String, ArgData),
    /// An argument with a value; e.g. "-qux bar", where the way the
    /// value is passed is described by the ArgDisposition type, and the
    /// value is read as `ArgKind` says.
    TakeArg(String, ArgKind, ArgDisposition),
}

/// Mathematical view of [`ArgInfo`].
pub enum ArgInfoV {
    Flag(Seq<char>, ArgDataV),
    TakeArg(Seq<char>, ArgKind, ArgDisposition),
}

impl View for ArgInfo {
    type V = ArgInfoV;

    open spec fn view(&self) -> ArgInfoV {
        match self {
            ArgInfo::Flag(s, d) => ArgInfoV::Flag(s@, d@),
            ArgInfo::TakeArg(s, k, d) => ArgInfoV::TakeArg(s@, *k, *d),
        }
    }
}

/// The flag an [`ArgInfo`] describes.
pub open spec fn info_flag(i: ArgInfoV) -> Seq<char> {
    match i {
        ArgInfoV::Flag(s, _) => s,
        ArgInfoV::TakeArg(s, _, _) => s,
    }
}

/// The delimiter of a description that accepts a glued value, if it has one
/// (`Some(None)` for a glued value without delimiter).
pub open spec fn glued_delimiter(i: ArgInfoV) -> Option<Delimiter> {
    match i {
        ArgInfoV::TakeArg(_, _, ArgDisposition::CanBeSeparated(d)) => Some(d),
        ArgInfoV::TakeArg(_, _, ArgDisposition::Concatenated(d)) => Some(d),
        ArgInfoV::TakeArg(_, _, ArgDisposition::CanBeConcatenated(d)) => Some(d),
        _ => None,
    }
}

/// Every delimiter the description names is an ASCII byte.
pub open spec fn info_ascii(i: ArgInfoV) -> bool {
    match i {
        ArgInfoV::TakeArg(_, _, d) => ascii_delimiter(d),
        _ => true,
    }
}

/// Order of a character against a delimiter byte.
pub open spec fn char_vs_delim(c: char, d: u8) -> Order {
    if (c as int) < (d as int) {
        Order::Less
    } else if (c as int) > (d as int) {
        Order::Greater
    } else {
        Order::Equal
    }
}

/// How the argument `arg` compares with the description `i`: `Equal` when
/// `i` matches it (exactly, or as a prefix when a glued value is allowed).
pub open spec fn info_order(i: ArgInfoV, arg: Seq<char>) -> Order {
    let s = info_flag(i);
    match glued_delimiter(i) {
        Some(d) => if starts_with(arg, s) {
            match d {
                None => Order::Equal,
                Some(c) => if arg.len() > s.len() {
                    char_vs_delim(arg[s.len() as int], c)
                } else {
                    lex_order(s, arg)
                },
            }
        } else {
            lex_order(s, arg)
        },
        None => lex_order(s, arg),
    }
}

/// The arguments a description can be applied to: its flag exactly, or, for
/// a glued value, anything that starts with the flag.
pub open spec fn info_accepts(i: ArgInfoV, arg: Seq<char>) -> bool {
    match i {
        ArgInfoV::Flag(s, _) => arg == s,
        ArgInfoV::TakeArg(s, _, ArgDisposition::Separated) => arg == s,
        ArgInfoV::TakeArg(s, _, _) => starts_with(arg, s),
    }
}

/// Map the value of a parse result into an argument.
pub open spec fn with_value(
    s: Seq<char>,
    r: Result<ArgDataV, ArgParseErrorV>,
    d: ArgDisposition,
) -> Result<ArgumentV, ArgParseErrorV> {
    match r {
        Ok(v) => Ok(ArgumentV::WithValue(s, v, d)),
        Err(e) => Err(e),
    }
}

/// Reading a glued value: the delimiter, when present right after the flag,
/// is skipped.
pub open spec fn glued_value(s: Seq<char>, arg: Seq<char>, d: Delimiter) -> Seq<char> {
    let skip = match d {
        Some(c) => arg.len() > s.len() && arg[s.len() as int] == delim_char(c),
        None => false,
    };
    if skip {
        arg.skip(s.len() as int + 1)
    } else {
        arg.skip(s.len() as int)
    }
}

/// `ArgInfo::process`: the parsed argument (or error), and whether the next
/// argv element was taken as the value.
pub open spec fn spec_process(
    i: ArgInfoV,
    arg: Seq<char>,
    next: Option<Seq<char>>,
    fs: FileProbeV,
) -> (Result<ArgumentV, ArgParseErrorV>, bool) {
    match i {
        ArgInfoV::Flag(s, v) => (Ok(ArgumentV::Flag(s, v)), false),
        ArgInfoV::TakeArg(s, kind, disp) => match disp {
            ArgDisposition::Separated => (
                match next {
                    None => Err(ArgParseErrorV::UnexpectedEndOfArgs),
                    Some(n) => with_value(s, spec_create(kind, n, fs), ArgDisposition::Separated),
                },
                true,
            ),
            ArgDisposition::Concatenated(d) => (
                with_value(s, spec_create(kind, glued_value(s, arg, d), fs), ArgDisposition::Concatenated(d)),
                false,
            ),
            ArgDisposition::CanBeSeparated(d) => spec_process_either(s, kind, d, arg, next, fs),
            ArgDisposition::CanBeConcatenated(d) => spec_process_either(s, kind, d, arg, next, fs),
        },
    }
}

/// Reading a value that may be glued or separate.
pub open spec fn spec_process_either(
    s: Seq<char>,
    kind: ArgKind,
    d: Delimiter,
    arg: Seq<char>,
    next: Option<Seq<char>>,
    fs: FileProbeV,
) -> (Result<ArgumentV, ArgParseErrorV>, bool) {
    if arg == s {
        match next {
            Some(n) => (with_value(s, spec_create(kind, n, fs), ArgDisposition::CanBeConcatenated(d)), true),
            None => if d is None {
                (with_value(s, spec_create(kind, Seq::<char>::empty(), fs), ArgDisposition::Concatenated(d)), true)
            } else {
                (Err(ArgParseErrorV::UnexpectedEndOfArgs), true)
            },
        }
    } else {
        (with_value(s, spec_create(kind, glued_value(s, arg, d), fs), ArgDisposition::CanBeSeparated(d)), false)
    }
}

/// View of a parsed-argument result.
pub open spec fn arg_result_view(r: Result<Argument, ArgParseError>) -> Result<ArgumentV, ArgParseErrorV> {
    match r {
        Ok(a) => Ok(a@),
        Err(e) => Err(e@),
    }
}

fn wrap_value(s: &String, r: Result<ArgData, ArgParseError>, d: ArgDisposition) -> (out: Result<Argument, ArgParseError>)
    ensures
        arg_result_view(out) == with_value(s@, data_result_view(r), d),
{
    match r {
        Ok(v) => Ok(Argument::WithValue(copy_string(s), v, d)),
        Err(e) => Err(e),
    }
}

fn read_glued(s: &[char], arg: &[char], d: Delimiter) -> (r: Vec<char>)
    requires
        starts_with(arg@, s@),
    ensures
        r@ == glued_value(s@, arg@, d),
{
    let skip = match d {
        Some(c) => arg.len() > s.len() && arg[s.len()] == (c as char),
        None => false,
    };
    if skip {
        slice_chars(arg, s.len() + 1, arg.len())
    } else {
        slice_chars(arg, s.len(), arg.len())
    }
}

fn from_string_ordering(o: Order) -> (r: std::cmp::Ordering)
    ensures
        r == match o {
            Order::Less => std::cmp::Ordering::Less,
            Order::Equal => std::cmp::Ordering::Equal,
            Order::Greater => std::cmp::Ordering::Greater,
        },
{
    match o {
        Order::Less => std::cmp::Ordering::Less,
        Order::Equal => std::cmp::Ordering::Equal,
        Order::Greater => std::cmp::Ordering::Greater,
    }
}

impl ArgInfo {
    /// The flag this description matches.
    pub fn flag_str(&self) -> (r: &String)
        ensures
            r@ == info_flag(self@),
    {
        match self {
            ArgInfo::Flag(s, _) => s,
            ArgInfo::TakeArg(s, _, _) => s,
        }
    }

    /// Exec form of [`info_order`] over characters.
    pub fn order_against(&self, arg: &[char]) -> (r: Order)
        requires
            info_ascii(self@),
        ensures
            r == info_order(self@, arg@),
    {
        let s = chars_of(self.flag_str().as_str());
        let d = match self {
            ArgInfo::TakeArg(_, _, ArgDisposition::CanBeSeparated(d)) => Some(*d),
            ArgInfo::TakeArg(_, _, ArgDisposition::Concatenated(d)) => Some(*d),
            ArgInfo::TakeArg(_, _, ArgDisposition::CanBeConcatenated(d)) => Some(*d),
            _ => None,
        };
        match d {
            Some(d) => if has_prefix(arg, s.as_slice()) {
                match d {
                    None => Order::Equal,
                    Some(c) => if arg.len() > s.len() {
                        let x = arg[s.len()];
                        let y = c as char;
                        if x < y {
                            Order::Less
                        } else if x > y {
                            Order::Greater
                        } else {
                            Order::Equal
                        }
                    } else {
                        compare_chars(s.as_slice(), arg)
                    },
                }
            } else {
                compare_chars(s.as_slice(), arg)
            },
            None => compare_chars(s.as_slice(), arg),
        }
    }

    /// Returns whether the given string matches the argument description,
    /// and if not, how it differs.
    pub fn cmp(&self, arg: &str) -> (r: std::cmp::Ordering)
        requires
            info_ascii(self@),
        ensures
            r == match info_order(self@, arg@) {
                Order::Less => std::cmp::Ordering::Less,
                Order::Equal => std::cmp::Ordering::Equal,
                Order::Greater => std::cmp::Ordering::Greater,
            },
    {
        let a = chars_of(arg);
        from_string_ordering(self.order_against(a.as_slice()))
    }

    /// Transform an argument description into a parsed argument, given a
    /// string and the argv element that follows it. Also returns whether that
    /// next element was taken as the value.
    pub fn process(&self, arg: &str, next: Option<&str>, fs: &FileProbe) -> (r: (Result<Argument, ArgParseError>, bool))
        requires
            info_ascii(self@),
            info_accepts(self@, arg@),
        ensures
            (arg_result_view(r.0), r.1) == spec_process(
                self@,
                arg@,
                match next {
                    Some(n) => Some(n@),
                    None => None,
                },
                fs@,
            ),
    {
        let a = chars_of(arg);
        match self {
            ArgInfo::Flag(s, v) => (Ok(Argument::Flag(copy_string(s), v.duplicate())), false),
            ArgInfo::TakeArg(s, kind, disp) => {
                let sc = chars_of(s.as_str());
                match disp {
                    ArgDisposition::Separated => match next {
                        None => (Err(ArgParseError::UnexpectedEndOfArgs), true),
                        Some(n) => {
                            let nc = chars_of(n);
                            (wrap_value(s, kind.create(nc.as_slice(), fs), ArgDisposition::Separated), true)
                        },
                    },
                    ArgDisposition::Concatenated(d) => {
                        let v = read_glued(sc.as_slice(), a.as_slice(), *d);
                        (wrap_value(s, kind.create(v.as_slice(), fs), ArgDisposition::Concatenated(*d)), false)
                    },
                    ArgDisposition::CanBeSeparated(d) => process_either(s, sc.as_slice(), *kind, *d, a.as_slice(), next, fs),
                    ArgDisposition::CanBeConcatenated(d) => process_either(s, sc.as_slice(), *kind, *d, a.as_slice(), next, fs),
                }
            },
        }
    }
}

fn process_either(
    s: &String,
    sc: &[char],
    kind: ArgKind,
    d: Delimiter,
    arg: &[char],
    next: Option<&str>,
    fs: &FileProbe,
) -> (r: (Result<Argument, ArgParseError>, bool))
    requires
        sc@ == s@,
        starts_with(arg@, s@),
    ensures
        (arg_result_view(r.0), r.1) == spec_process_either(
            s@,
            kind,
            d,
            arg@,
            match next {
                Some(n) => Some(n@),
                None => None,
            },
            fs@,
        ),
{
    if chars_equal(arg, sc) {
        match next {
            Some(n) => {
                let nc = chars_of(n);
                (wrap_value(s, kind.create(nc.as_slice(), fs), ArgDisposition::CanBeConcatenated(d)), true)
            },
            None => if d.is_none() {
                let empty: Vec<char> = Vec::new();
                assert(empty@ =~= Seq::<char>::empty());
                (wrap_value(s, kind.create(empty.as_slice(), fs), ArgDisposition::Concatenated(d)), true)
            } else {
                (Err(ArgParseError::UnexpectedEndOfArgs), true)
            },
        }
    } else {
        let v = read_glued(sc, arg, d);
        (wrap_value(s, kind.create(v.as_slice(), fs), ArgDisposition::CanBeSeparated(d)), false)
    }
}

/// Binary search over `t[lo..hi]`, tweaked for prefix matching: on a match it
/// keeps looking in the upper half, where a longer match would sort, and
/// returns the last match it meets.
pub open spec fn bsearch_range(t: Seq<ArgInfoV>, key: Seq<char>, lo: int, hi: int) -> Option<int>
    decreases hi - lo,
{
    if lo >= hi || lo < 0 || hi > t.len() {
        None
    } else {
        let mid = lo + (hi - lo) / 2;
        match info_order(t[mid], key) {
            Order::Equal => match bsearch_range(t, key, mid + 1, hi) {
                Some(j) => Some(j),
                None => Some(mid),
            },
            Order::Greater => bsearch_range(t, key, lo, mid),
            Order::Less => bsearch_range(t, key, mid + 1, hi),
        }
    }
}

/// The description that `key` is looked up to in the table `t`.
pub open spec fn spec_search(t: Seq<ArgInfoV>, key: Seq<char>) -> Option<int> {
    bsearch_range(t, key, 0, t.len() as int)
}

/// View of a table of descriptions.
pub open spec fn table_view(t: Seq<ArgInfo>) -> Seq<ArgInfoV> {
    t.map_values(|i: ArgInfo| i@)
}

/// Every description of the table has ASCII delimiters.
pub open spec fn table_ascii(t: Seq<ArgInfoV>) -> bool {
    forall|k: int| 0 <= k < t.len() ==> #[trigger] info_ascii(t[k])
}

/// A search result is always a matching description.
pub proof fn lemma_bsearch_matches(t: Seq<ArgInfoV>, key: Seq<char>, lo: int, hi: int)
    ensures
        bsearch_range(t, key, lo, hi) matches Some(j) ==> lo <= j < hi && 0 <= j < t.len()
            && info_order(t[j], key) == Order::Equal,
    decreases hi - lo,
{
    if !(lo >= hi || lo < 0 || hi > t.len()) {
        let mid = lo + (hi - lo) / 2;
        lemma_bsearch_matches(t, key, mid + 1, hi);
        lemma_bsearch_matches(t, key, lo, mid);
    }
}

/// Exec form of [`spec_search`].
pub fn bsearch(t: &[ArgInfo], key: &[char]) -> (r: Option<usize>)
    requires
        table_ascii(table_view(t@)),
    ensures
        match r {
            Some(j) => spec_search(table_view(t@), key@) == Some(j as int),
            None => spec_search(table_view(t@), key@) is None,
        },
{
    let ghost tv = table_view(t@);
    let mut lo: usize = 0;
    let mut hi: usize = t.len();
    let mut best: Option<usize> = None;
    while lo < hi
        invariant
            0 <= lo <= hi <= t.len(),
            tv == table_view(t@),
            table_ascii(tv),
            spec_search(tv, key@) == match bsearch_range(tv, key@, lo as int, hi as int) {
                Some(j) => Some(j),
                None => match best {
                    Some(b) => Some(b as int),
                    None => None,
                },
            },
        decreases hi - lo,
    {
        let mid = lo + (hi - lo) / 2;
        assert(tv[mid as int] == t@[mid as int]@);
        assert(info_ascii(tv[mid as int]));
        let o = t[mid].order_against(key);
        match o {
            Order::Equal => {
                best = Some(mid);
                lo = mid + 1;
            },
            Order::Greater => {
                hi = mid;
            },
            Order::Less => {
                lo = mid + 1;
            },
        }
    }
    best
}

/// A description that orders equal to an argument accepts it.
pub proof fn lemma_equal_accepts(i: ArgInfoV, arg: Seq<char>)
    requires
        info_order(i, arg) == Order::Equal,
    ensures
        info_accepts(i, arg),
{
    let s = info_flag(i);
    if glued_delimiter(i) is Some && starts_with(arg, s) {
    } else {
        crate::text::lemma_lex_equal(s, arg);
        assert(arg.take(s.len() as int) =~= s);
    }
}

/// How one argv element (with the element after it) is read against the table.
#[verifier::opaque]
pub open spec fn spec_classify(
    t: Seq<ArgInfoV>,
    arg: Seq<char>,
    next: Option<Seq<char>>,
    fs: FileProbeV,
) -> (Result<ArgumentV, ArgParseErrorV>, bool) {
    match spec_search(t, arg) {
        Some(j) => spec_process(t[j], arg, next, fs),
        None => if arg.len() > 0 && arg[0] == '-' {
            (Ok(ArgumentV::UnknownFlag(arg)), false)
        } else {
            (Ok(ArgumentV::Raw(arg)), false)
        },
    }
}

/// The parsed arguments of an argv, in order (the items `ArgsIter` yields).
pub open spec fn spec_tokens(t: Seq<ArgInfoV>, args: Seq<Seq<char>>, fs: FileProbeV) -> Seq<
    Result<ArgumentV, ArgParseErrorV>,
>
    decreases args.len(),
{
    if args.len() == 0 {
        Seq::empty()
    } else {
        let next = if args.len() > 1 {
            Some(args[1])
        } else {
            None
        };
        let (r, used) = spec_classify(t, args[0], next, fs);
        let n: int = if used && args.len() > 1 {
            2
        } else {
            1
        };
        seq![r] + spec_tokens(t, args.skip(n), fs)
    }
}

/// An iterator of parsed arguments over an argv and a table of descriptions.
pub struct ArgsIter {
    pub arguments: Vec<String>,
    pub pos: usize,
    pub arg_info: Vec<ArgInfo>,
    pub fs: FileProbe,
}

impl ArgsIter {
    /// The iterator's position is within its argv and its table has ASCII
    /// delimiters.
    pub open spec fn wf(&self) -> bool {
        &&& self.pos <= self.arguments.len()
        &&& table_ascii(table_view(self.arg_info@))
    }

    /// The argv elements not read yet.
    pub open spec fn remaining(&self) -> Seq<Seq<char>> {
        strings_view(self.arguments@).skip(self.pos as int)
    }

    /// Create an iterator of parsed arguments, given the raw arguments and
    /// argument descriptions, whose flags must strictly increase; no file is
    /// known to exist.
    pub fn new(arguments: Vec<String>, arg_info: Vec<ArgInfo>) -> (r: Self)
        requires
            table_sorted(table_view(arg_info@)),
            table_ascii(table_view(arg_info@)),
        ensures
            r.wf(),
            r.remaining() == strings_view(arguments@),
            r.arg_info@ == arg_info@,
            r.fs@.files.len() == 0,
            r.fs@.existing.len() == 0,
    {
        let r = ArgsIter { arguments, pos: 0, arg_info, fs: FileProbe::new() };
        assert(r.remaining() =~= strings_view(r.arguments@));
        r
    }

    /// As [`ArgsIter::new`], with what is known of the file system.
    pub fn with_probe(arguments: Vec<String>, arg_info: Vec<ArgInfo>, fs: FileProbe) -> (r: Self)
        requires
            table_sorted(table_view(arg_info@)),
            table_ascii(table_view(arg_info@)),
        ensures
            r.wf(),
            r.remaining() == strings_view(arguments@),
            r.arg_info@ == arg_info@,
            r.fs == fs,
            r.arguments@ == arguments@,
            r.pos == 0,
    {
        let r = ArgsIter { arguments, pos: 0, arg_info, fs };
        assert(r.remaining() =~= strings_view(r.arguments@));
        r
    }

    /// The next parsed argument, if any argv element is left.
    pub fn next_arg(&mut self) -> (r: Option<Result<Argument, ArgParseError>>)
        requires
            old(self).wf(),
        ensures
            final(self).wf(),
            final(self).arg_info == old(self).arg_info,
            final(self).fs == old(self).fs,
            final(self).arguments == old(self).arguments,
            r is Some ==> final(self).pos > old(self).pos,
            (r is None) == (old(self).remaining().len() == 0),
            spec_tokens(table_view(old(self).arg_info@), old(self).remaining(), old(self).fs@) == match r {
                Some(x) => seq![arg_result_view(x)],
                None => Seq::empty(),
            } + spec_tokens(table_view(final(self).arg_info@), final(self).remaining(), final(self).fs@),
    {
        let ghost rem = self.remaining();
        let ghost t = table_view(self.arg_info@);
        reveal(spec_classify);
        if self.pos >= self.arguments.len() {
            assert(self.remaining().len() == 0);
            return None;
        }
        let arg = self.arguments[self.pos].as_str();
        let next: Option<&str> = if self.pos + 1 < self.arguments.len() {
            Some(self.arguments[self.pos + 1].as_str())
        } else {
            None
        };
        assert(rem[0] == arg@);
        assert(rem.len() > 1 ==> rem[1] == self.arguments@[self.pos + 1]@);
        let ac = chars_of(arg);
        let found = bsearch(self.arg_info.as_slice(), ac.as_slice());
        let (r, used) = match found {
            Some(j) => {
                proof {
                    lemma_bsearch_matches(t, arg@, 0, t.len() as int);
                    lemma_equal_accepts(t[j as int], arg@);
                    assert(t[j as int] == self.arg_info@[j as int]@);
                }
                self.arg_info[j].process(arg, next, &self.fs)
            },
            None => {
                if ac.len() > 0 && ac[0] == '-' {
                    (Ok(Argument::UnknownFlag(owned(arg))), false)
                } else {
                    (Ok(Argument::Raw(owned(arg))), false)
                }
            },
        };
        let step: usize = if used && self.pos + 1 < self.arguments.len() {
            2
        } else {
            1
        };
        self.pos = self.pos + step;
        assert(rem.skip(step as int) =~= self.remaining());
        Some(r)
    }
}

/// The rustc flags this parser knows, sorted by flag (taken from rustc's
/// `rustc_optgroups()`).
pub open spec fn spec_rustc_table() -> Seq<ArgInfoV> {
    seq![
        ArgInfoV::Flag("-"@, ArgDataV::TooHardFlag),
        ArgInfoV::TakeArg("--allow"@, ArgKind::PassThrough, ArgDisposition::CanBeSeparated(Some(61u8))),
        ArgInfoV::TakeArg("--cap-lints"@, ArgKind::PassThrough, ArgDisposition::CanBeSeparated(Some(61u8))),
        ArgInfoV::TakeArg("--cfg"@, ArgKind::PassThrough, ArgDisposition::CanBeSeparated(Some(61u8))),
        ArgInfoV::TakeArg("--check-cfg"@, ArgKind::PassThrough, ArgDisposition::CanBeSeparated(Some(61u8))),
        ArgInfoV::TakeArg("--codegen"@, ArgKind::CodeGen, ArgDisposition::CanBeSeparated(Some(61u8))),
        ArgInfoV::TakeArg("--color"@, ArgKind::Color, ArgDisposition::CanBeSeparated(Some(61u8))),
        ArgInfoV::TakeArg("--crate-name"@, ArgKind::CrateName, ArgDisposition::CanBeSeparated(Some(61u8))),
        ArgInfoV::TakeArg("--crate-type"@, ArgKind::CrateType, ArgDisposition::CanBeSeparated(Some(61u8))),
        ArgInfoV::TakeArg("--deny"@, ArgKind::PassThrough, ArgDisposition::CanBeSeparated(Some(61u8))),
        ArgInfoV::TakeArg("--diagnostic-width"@, ArgKind::PassThrough, ArgDisposition::CanBeSeparated(Some(61u8))),
        ArgInfoV::TakeArg("--edition"@, ArgKind::PassThrough, ArgDisposition::CanBeSeparated(Some(61u8))),
        ArgInfoV::TakeArg("--emit"@, ArgKind::Emit, ArgDisposition::CanBeSeparated(Some(61u8))),
        ArgInfoV::TakeArg("--env-set"@, ArgKind::PassThrough, ArgDisposition::CanBeSeparated(Some(61u8))),
        ArgInfoV::TakeArg("--error-format"@, ArgKind::PassThrough, ArgDisposition::CanBeSeparated(Some(61u8))),
        ArgInfoV::TakeArg("--explain"@, ArgKind::NotCompilation, ArgDisposition::CanBeSeparated(Some(61u8))),
        ArgInfoV::TakeArg("--extern"@, ArgKind::Extern, ArgDisposition::CanBeSeparated(Some(61u8))),
        ArgInfoV::TakeArg("--forbid"@, ArgKind::PassThrough, ArgDisposition::CanBeSeparated(Some(61u8))),
        ArgInfoV::TakeArg("--force-warn"@, ArgKind::PassThrough, ArgDisposition::CanBeSeparated(Some(61u8))),
        ArgInfoV::Flag("--help"@, ArgDataV::NotCompilationFlag),
        ArgInfoV::TakeArg("--json"@, ArgKind::Json, ArgDisposition::CanBeSeparated(Some(61u8))),
        ArgInfoV::TakeArg("--out-dir"@, ArgKind::OutDir, ArgDisposition::CanBeSeparated(Some(61u8))),
        ArgInfoV::TakeArg("--pretty"@, ArgKind::NotCompilation, ArgDisposition::CanBeSeparated(Some(61u8))),
        ArgInfoV::TakeArg("--print"@, ArgKind::NotCompilation, ArgDisposition::CanBeSeparated(Some(61u8))),
        ArgInfoV::TakeArg("--remap-path-prefix"@, ArgKind::PassThrough, ArgDisposition::CanBeSeparated(Some(61u8))),
        ArgInfoV::TakeArg("--remap-path-scope"@, ArgKind::PassThrough, ArgDisposition::CanBeSeparated(Some(61u8))),
        ArgInfoV::TakeArg("--sysroot"@, ArgKind::TooHardPath, ArgDisposition::CanBeSeparated(Some(61u8))),
        ArgInfoV::TakeArg("--target"@, ArgKind::Target, ArgDisposition::CanBeSeparated(Some(61u8))),
        ArgInfoV::TakeArg("--unpretty"@, ArgKind::NotCompilation, ArgDisposition::CanBeSeparated(Some(61u8))),
        ArgInfoV::Flag("--version"@, ArgDataV::NotCompilationFlag),
        ArgInfoV::TakeArg("--warn"@, ArgKind::PassThrough, ArgDisposition::CanBeSeparated(Some(61u8))),
        ArgInfoV::TakeArg("-A"@, ArgKind::PassThrough, ArgDisposition::CanBeSeparated(None)),
        ArgInfoV::TakeArg("-C"@, ArgKind::CodeGen, ArgDisposition::CanBeSeparated(None)),
        ArgInfoV::TakeArg("-D"@, ArgKind::PassThrough, ArgDisposition::CanBeSeparated(None)),
        ArgInfoV::TakeArg("-F"@, ArgKind::PassThrough, ArgDisposition::CanBeSeparated(None)),
        ArgInfoV::TakeArg("-L"@, ArgKind::LinkPath, ArgDisposition::CanBeSeparated(None)),
        ArgInfoV::Flag("-V"@, ArgDataV::NotCompilationFlag),
        ArgInfoV::TakeArg("-W"@, ArgKind::PassThrough, ArgDisposition::CanBeSeparated(None)),
        ArgInfoV::TakeArg("-Z"@, ArgKind::Unstable, ArgDisposition::CanBeSeparated(None)),
        ArgInfoV::TakeArg("-l"@, ArgKind::LinkLibrary, ArgDisposition::CanBeSeparated(None)),
        ArgInfoV::TakeArg("-o"@, ArgKind::TooHardPath, ArgDisposition::CanBeSeparated(None)),
    ]
}

/// The flags of a table strictly increase: the binary search over it finds
/// what it looks for only then.
pub open spec fn table_sorted(t: Seq<ArgInfoV>) -> bool {
    forall|i: int, j: int| 0 <= i < j < t.len() ==> lex_lt(info_flag(#[trigger] t[i]), info_flag(#[trigger] t[j]))
}

/// The flag at `k` sorts before the next one.
pub open spec fn neighbours_sorted(t: Seq<ArgInfoV>, k: int) -> bool {
    lex_lt(info_flag(t[k]), info_flag(t[k + 1]))
}

/// A table whose neighbouring flags increase is sorted throughout.
proof fn lemma_neighbours_chain(t: Seq<ArgInfoV>, i: int, j: int)
    requires
        0 <= i < j < t.len(),
        forall|k: int| 0 <= k < t.len() - 1 ==> #[trigger] neighbours_sorted(t, k),
    ensures
        lex_lt(info_flag(t[i]), info_flag(t[j])),
    decreases j - i,
{
    assert(neighbours_sorted(t, j - 1));
    if j > i + 1 {
        lemma_neighbours_chain(t, i, j - 1);
        lemma_lt_transitive(info_flag(t[i]), info_flag(t[j - 1]), info_flag(t[j]));
    }
}

/// Neighbouring flags of the rustc table, part 1.
proof fn lemma_rustc_flags_increase_a()
    ensures
        lex_lt("-"@, "--allow"@),
        lex_lt("--allow"@, "--cap-lints"@),
        lex_lt("--cap-lints"@, "--cfg"@),
        lex_lt("--cfg"@, "--check-cfg"@),
        lex_lt("--check-cfg"@, "--codegen"@),
        lex_lt("--codegen"@, "--color"@),
        lex_lt("--color"@, "--crate-name"@),
        lex_lt("--crate-name"@, "--crate-type"@),
        lex_lt("--crate-type"@, "--deny"@),
        lex_lt("--deny"@, "--diagnostic-width"@),
{
    reveal_strlit("-");
    reveal_strlit("--allow");
    reveal_strlit("--cap-lints");
    reveal_strlit("--cfg");
    reveal_strlit("--check-cfg");
    reveal_strlit("--codegen");
    reveal_strlit("--color");
    reveal_strlit("--crate-name");
    reveal_strlit("--crate-type");
    reveal_strlit("--deny");
    reveal_strlit("--diagnostic-width");
    lemma_lt_at("-"@, "--allow"@, 1);
    lemma_lt_at("--allow"@, "--cap-lints"@, 2);
    lemma_lt_at("--cap-lints"@, "--cfg"@, 3);
    lemma_lt_at("--cfg"@, "--check-cfg"@, 3);
    lemma_lt_at("--check-cfg"@, "--codegen"@, 3);
    lemma_lt_at("--codegen"@, "--color"@, 4);
    lemma_lt_at("--color"@, "--crate-name"@, 3);
    lemma_lt_at("--crate-name"@, "--crate-type"@, 8);
    lemma_lt_at("--crate-type"@, "--deny"@, 2);
    lemma_lt_at("--deny"@, "--diagnostic-width"@, 3);
}

/// Neighbouring flags of the rustc table, part 2.
proof fn lemma_rustc_flags_increase_b()
    ensures
        lex_lt("--diagnostic-width"@, "--edition"@),
        lex_lt("--edition"@, "--emit"@),
        lex_lt("--emit"@, "--env-set"@),
        lex_lt("--env-set"@, "--error-format"@),
        lex_lt("--error-format"@, "--explain"@),
        lex_lt("--explain"@, "--extern"@),
        lex_lt("--extern"@, "--forbid"@),
        lex_lt("--forbid"@, "--force-warn"@),
        lex_lt("--force-warn"@, "--help"@),
        lex_lt("--help"@, "--json"@),
{
    reveal_strlit("--diagnostic-width");
    reveal_strlit("--edition");
    reveal_strlit("--emit");
    reveal_strlit("--env-set");
    reveal_strlit("--error-format");
    reveal_strlit("--explain");
    reveal_strlit("--extern");
    reveal_strlit("--forbid");
    reveal_strlit("--force-warn");
    reveal_strlit("--help");
    reveal_strlit("--json");
    lemma_lt_at("--diagnostic-width"@, "--edition"@, 2);
    lemma_lt_at("--edition"@, "--emit"@, 3);
    lemma_lt_at("--emit"@, "--env-set"@, 3);
    lemma_lt_at("--env-set"@, "--error-format"@, 3);
    lemma_lt_at("--error-format"@, "--explain"@, 3);
    lemma_lt_at("--explain"@, "--extern"@, 4);
    lemma_lt_at("--extern"@, "--forbid"@, 2);
    lemma_lt_at("--forbid"@, "--force-warn"@, 5);
    lemma_lt_at("--force-warn"@, "--help"@, 2);
    lemma_lt_at("--help"@, "--json"@, 2);
}

/// Neighbouring flags of the rustc table, part 3.
proof fn lemma_rustc_flags_increase_c()
    ensures
        lex_lt("--json"@, "--out-dir"@),
        lex_lt("--out-dir"@, "--pretty"@),
        lex_lt("--pretty"@, "--print"@),
        lex_lt("--print"@, "--remap-path-prefix"@),
        lex_lt("--remap-path-prefix"@, "--remap-path-scope"@),
        lex_lt("--remap-path-scope"@, "--sysroot"@),
        lex_lt("--sysroot"@, "--target"@),
        lex_lt("--target"@, "--unpretty"@),
        lex_lt("--unpretty"@, "--version"@),
        lex_lt("--version"@, "--warn"@),
{
    reveal_strlit("--json");
    reveal_strlit("--out-dir");
    reveal_strlit("--pretty");
    reveal_strlit("--print");
    reveal_strlit("--remap-path-prefix");
    reveal_strlit("--remap-path-scope");
    reveal_strlit("--sysroot");
    reveal_strlit("--target");
    reveal_strlit("--unpretty");
    reveal_strlit("--version");
    reveal_strlit("--warn");
    lemma_lt_at("--json"@, "--out-dir"@, 2);
    lemma_lt_at("--out-dir"@, "--pretty"@, 2);
    lemma_lt_at("--pretty"@, "--print"@, 4);
    lemma_lt_at("--print"@, "--remap-path-prefix"@, 2);
    lemma_lt_at("--remap-path-prefix"@, "--remap-path-scope"@, 13);
    lemma_lt_at("--remap-path-scope"@, "--sysroot"@, 2);
    lemma_lt_at("--sysroot"@, "--target"@, 2);
    lemma_lt_at("--target"@, "--unpretty"@, 2);
    lemma_lt_at("--unpretty"@, "--version"@, 2);
    lemma_lt_at("--version"@, "--warn"@, 2);
}

/// Neighbouring flags of the rustc table, part 4.
proof fn lemma_rustc_flags_increase_d()
    ensures
        lex_lt("--warn"@, "-A"@),
        lex_lt("-A"@, "-C"@),
        lex_lt("-C"@, "-D"@),
        lex_lt("-D"@, "-F"@),
        lex_lt("-F"@, "-L"@),
        lex_lt("-L"@, "-V"@),
        lex_lt("-V"@, "-W"@),
        lex_lt("-W"@, "-Z"@),
        lex_lt("-Z"@, "-l"@),
        lex_lt("-l"@, "-o"@),
{
    reveal_strlit("--warn");
    reveal_strlit("-A");
    reveal_strlit("-C");
    reveal_strlit("-D");
    reveal_strlit("-F");
    reveal_strlit("-L");
    reveal_strlit("-V");
    reveal_strlit("-W");
    reveal_strlit("-Z");
    reveal_strlit("-l");
    reveal_strlit("-o");
    lemma_lt_at("--warn"@, "-A"@, 1);
    lemma_lt_at("-A"@, "-C"@, 1);
    lemma_lt_at("-C"@, "-D"@, 1);
    lemma_lt_at("-D"@, "-F"@, 1);
    lemma_lt_at("-F"@, "-L"@, 1);
    lemma_lt_at("-L"@, "-V"@, 1);
    lemma_lt_at("-V"@, "-W"@, 1);
    lemma_lt_at("-W"@, "-Z"@, 1);
    lemma_lt_at("-Z"@, "-l"@, 1);
    lemma_lt_at("-l"@, "-o"@, 1);
}

/// The flags of the rustc table strictly increase.
pub proof fn lemma_rustc_table_sorted()
    ensures
        table_sorted(spec_rustc_table()),
{
    lemma_rustc_flags_increase_a();
    lemma_rustc_flags_increase_b();
    lemma_rustc_flags_increase_c();
    lemma_rustc_flags_increase_d();
    let t = spec_rustc_table();
    assert forall|k: int| 0 <= k < t.len() - 1 implies #[trigger] neighbours_sorted(t, k) by {
        if k == 0 {
        } else if k == 1 {
        } else if k == 2 {
        } else if k == 3 {
        } else if k == 4 {
        } else if k == 5 {
        } else if k == 6 {
        } else if k == 7 {
        } else if k == 8 {
        } else if k == 9 {
        } else if k == 10 {
        } else if k == 11 {
        } else if k == 12 {
        } else if k == 13 {
        } else if k == 14 {
        } else if k == 15 {
        } else if k == 16 {
        } else if k == 17 {
        } else if k == 18 {
        } else if k == 19 {
        } else if k == 20 {
        } else if k == 21 {
        } else if k == 22 {
        } else if k == 23 {
        } else if k == 24 {
        } else if k == 25 {
        } else if k == 26 {
        } else if k == 27 {
        } else if k == 28 {
        } else if k == 29 {
        } else if k == 30 {
        } else if k == 31 {
        } else if k == 32 {
        } else if k == 33 {
        } else if k == 34 {
        } else if k == 35 {
        } else if k == 36 {
        } else if k == 37 {
        } else if k == 38 {
        } else if k == 39 {
        }
    }
    assert forall|i: int, j: int| 0 <= i < j < t.len() implies lex_lt(info_flag(t[i]), info_flag(t[j])) by {
        lemma_neighbours_chain(t, i, j);
    }
}

/// Exec form of [`spec_rustc_table`].
pub fn rustc_arg_table() -> (t: Vec<ArgInfo>)
    ensures
        table_view(t@) == spec_rustc_table(),
        table_sorted(table_view(t@)),
        table_ascii(table_view(t@)),
{
    let mut t: Vec<ArgInfo> = Vec::new();
    t.push(ArgInfo::Flag(owned("-"), ArgData::TooHardFlag));
    t.push(ArgInfo::TakeArg(owned("--allow"), ArgKind::PassThrough, ArgDisposition::CanBeSeparated(Some(61u8))));
    t.push(ArgInfo::TakeArg(owned("--cap-lints"), ArgKind::PassThrough, ArgDisposition::CanBeSeparated(Some(61u8))));
    t.push(ArgInfo::TakeArg(owned("--cfg"), ArgKind::PassThrough, ArgDisposition::CanBeSeparated(Some(61u8))));
    t.push(ArgInfo::TakeArg(owned("--check-cfg"), ArgKind::PassThrough, ArgDisposition::CanBeSeparated(Some(61u8))));
    t.push(ArgInfo::TakeArg(owned("--codegen"), ArgKind::CodeGen, ArgDisposition::CanBeSeparated(Some(61u8))));
    t.push(ArgInfo::TakeArg(owned("--color"), ArgKind::Color, ArgDisposition::CanBeSeparated(Some(61u8))));
    t.push(ArgInfo::TakeArg(owned("--crate-name"), ArgKind::CrateName, ArgDisposition::CanBeSeparated(Some(61u8))));
    t.push(ArgInfo::TakeArg(owned("--crate-type"), ArgKind::CrateType, ArgDisposition::CanBeSeparated(Some(61u8))));
    t.push(ArgInfo::TakeArg(owned("--deny"), ArgKind::PassThrough, ArgDisposition::CanBeSeparated(Some(61u8))));
    t.push(ArgInfo::TakeArg(owned("--diagnostic-width"), ArgKind::PassThrough, ArgDisposition::CanBeSeparated(Some(61u8))));
    t.push(ArgInfo::TakeArg(owned("--edition"), ArgKind::PassThrough, ArgDisposition::CanBeSeparated(Some(61u8))));
    t.push(ArgInfo::TakeArg(owned("--emit"), ArgKind::Emit, ArgDisposition::CanBeSeparated(Some(61u8))));
    t.push(ArgInfo::TakeArg(owned("--env-set"), ArgKind::PassThrough, ArgDisposition::CanBeSeparated(Some(61u8))));
    t.push(ArgInfo::TakeArg(owned("--error-format"), ArgKind::PassThrough, ArgDisposition::CanBeSeparated(Some(61u8))));
    t.push(ArgInfo::TakeArg(owned("--explain"), ArgKind::NotCompilation, ArgDisposition::CanBeSeparated(Some(61u8))));
    t.push(ArgInfo::TakeArg(owned("--extern"), ArgKind::Extern, ArgDisposition::CanBeSeparated(Some(61u8))));
    t.push(ArgInfo::TakeArg(owned("--forbid"), ArgKind::PassThrough, ArgDisposition::CanBeSeparated(Some(61u8))));
    t.push(ArgInfo::TakeArg(owned("--force-warn"), ArgKind::PassThrough, ArgDisposition::CanBeSeparated(Some(61u8))));
    t.push(ArgInfo::Flag(owned("--help"), ArgData::NotCompilationFlag));
    t.push(ArgInfo::TakeArg(owned("--json"), ArgKind::Json, ArgDisposition::CanBeSeparated(Some(61u8))));
    t.push(ArgInfo::TakeArg(owned("--out-dir"), ArgKind::OutDir, ArgDisposition::CanBeSeparated(Some(61u8))));
    t.push(ArgInfo::TakeArg(owned("--pretty"), ArgKind::NotCompilation, ArgDisposition::CanBeSeparated(Some(61u8))));
    t.push(ArgInfo::TakeArg(owned("--print"), ArgKind::NotCompilation, ArgDisposition::CanBeSeparated(Some(61u8))));
    t.push(ArgInfo::TakeArg(owned("--remap-path-prefix"), ArgKind::PassThrough, ArgDisposition::CanBeSeparated(Some(61u8))));
    t.push(ArgInfo::TakeArg(owned("--remap-path-scope"), ArgKind::PassThrough, ArgDisposition::CanBeSeparated(Some(61u8))));
    t.push(ArgInfo::TakeArg(owned("--sysroot"), ArgKind::TooHardPath, ArgDisposition::CanBeSeparated(Some(61u8))));
    t.push(ArgInfo::TakeArg(owned("--target"), ArgKind::Target, ArgDisposition::CanBeSeparated(Some(61u8))));
    t.push(ArgInfo::TakeArg(owned("--unpretty"), ArgKind::NotCompilation, ArgDisposition::CanBeSeparated(Some(61u8))));
    t.push(ArgInfo::Flag(owned("--version"), ArgData::NotCompilationFlag));
    t.push(ArgInfo::TakeArg(owned("--warn"), ArgKind::PassThrough, ArgDisposition::CanBeSeparated(Some(61u8))));
    t.push(ArgInfo::TakeArg(owned("-A"), ArgKind::PassThrough, ArgDisposition::CanBeSeparated(None)));
    t.push(ArgInfo::TakeArg(owned("-C"), ArgKind::CodeGen, ArgDisposition::CanBeSeparated(None)));
    t.push(ArgInfo::TakeArg(owned("-D"), ArgKind::PassThrough, ArgDisposition::CanBeSeparated(None)));
    t.push(ArgInfo::TakeArg(owned("-F"), ArgKind::PassThrough, ArgDisposition::CanBeSeparated(None)));
    t.push(ArgInfo::TakeArg(owned("-L"), ArgKind::LinkPath, ArgDisposition::CanBeSeparated(None)));
    t.push(ArgInfo::Flag(owned("-V"), ArgData::NotCompilationFlag));
    t.push(ArgInfo::TakeArg(owned("-W"), ArgKind::PassThrough, ArgDisposition::CanBeSeparated(None)));
    t.push(ArgInfo::TakeArg(owned("-Z"), ArgKind::Unstable, ArgDisposition::CanBeSeparated(None)));
    t.push(ArgInfo::TakeArg(owned("-l"), ArgKind::LinkLibrary, ArgDisposition::CanBeSeparated(None)));
    t.push(ArgInfo::TakeArg(owned("-o"), ArgKind::TooHardPath, ArgDisposition::CanBeSeparated(None)));
    assert(table_view(t@) =~= spec_rustc_table());
    proof {
        lemma_rustc_table_sorted();
    }
    t
}

/// The state of color output requested by `--color`.
#[derive(Clone, Copy, Debug, PartialEq, Eq, Structural)]
pub enum ColorMode {
    Off,
    On,
    Auto,
}

/// Possible results of parsing argv.
#[derive(Debug, PartialEq, Eq)]
pub enum ParseOutcome<T> {
    /// Commandline can be handled.
    Handled(T),
    /// Cannot cache this compilation: the reason, with detail where there is some.
    CannotCache(String, Option<String>),
    /// This commandline is not a compile.
    NotCompilation,
}

/// The selection of crate types for this compilation.
#[derive(Debug, Clone, Copy, PartialEq, Eq, Structural)]
pub struct CrateTypes {
    pub rlib: bool,
    pub staticlib: bool,
}

/// A cacheable rustc invocation, as read from its argv.
#[derive(Debug, Clone, PartialEq, Eq)]
pub struct ParsedArguments {
    /// The full commandline, with all parsed arguments (normalized to the
    /// separated form, `--color` left out).
    pub arguments: Vec<Argument>,
    /// The input source file.
    pub input: String,
    /// The location of compiler outputs.
    pub output_dir: String,
    /// Paths to extern crates used in the compile, sorted by path.
    pub externs: Vec<String>,
    /// The directories searched for rlibs.
    pub crate_link_paths: Vec<String>,
    /// Static libraries linked to in the compile.
    pub staticlibs: Vec<String>,
    /// The crate name passed to --crate-name.
    pub crate_name: String,
    /// The crate types that will be generated.
    pub crate_types: CrateTypes,
    /// If dependency info is being emitted, the name of the dep info file.
    pub dep_info: Option<String>,
    /// If `-C profile-use=PATH` was passed, the path to the profile data file.
    pub profile: Option<String>,
    /// Set of `--emit` modes requested, sorted and without duplicates.
    pub emit: Vec<String>,
    /// The value of any `--color` option passed on the commandline.
    pub color_mode: ColorMode,
    /// Whether `--json` was passed to this invocation.
    pub has_json: bool,
    /// A `--target` parameter that specifies a path to a JSON file.
    pub target_json: Option<String>,
}

/// Mathematical view of [`ParsedArguments`].
pub struct ParsedArgumentsV {
    pub arguments: Seq<ArgumentV>,
    pub input: Seq<char>,
    pub output_dir: Seq<char>,
    pub externs: Seq<Seq<char>>,
    pub crate_link_paths: Seq<Seq<char>>,
    pub staticlibs: Seq<Seq<char>>,
    pub crate_name: Seq<char>,
    pub crate_types: CrateTypes,
    pub dep_info: Option<Seq<char>>,
    pub profile: Option<Seq<char>>,
    pub emit: Seq<Seq<char>>,
    pub color_mode: ColorMode,
    pub has_json: bool,
    pub target_json: Option<Seq<char>>,
}

/// View of a list of arguments.
pub open spec fn arguments_view(v: Seq<Argument>) -> Seq<ArgumentV> {
    v.map_values(|a: Argument| a@)
}

impl View for ParsedArguments {
    type V = ParsedArgumentsV;

    open spec fn view(&self) -> ParsedArgumentsV {
        ParsedArgumentsV {
            arguments: arguments_view(self.arguments@),
            input: self.input@,
            output_dir: self.output_dir@,
            externs: strings_view(self.externs@),
            crate_link_paths: strings_view(self.crate_link_paths@),
            staticlibs: strings_view(self.staticlibs@),
            crate_name: self.crate_name@,
            crate_types: self.crate_types,
            dep_info: opt_view(self.dep_info),
            profile: opt_view(self.profile),
            emit: strings_view(self.emit@),
            color_mode: self.color_mode,
            has_json: self.has_json,
            target_json: opt_view(self.target_json),
        }
    }
}

/// Mathematical view of a parse outcome.
pub enum ParseOutcomeV {
    Handled(ParsedArgumentsV),
    CannotCache(Seq<char>, Option<Seq<char>>),
    NotCompilation,
}

impl View for ParseOutcome<ParsedArguments> {
    type V = ParseOutcomeV;

    open spec fn view(&self) -> ParseOutcomeV {
        match self {
            ParseOutcome::Handled(p) => ParseOutcomeV::Handled(p@),
            ParseOutcome::CannotCache(w, e) => ParseOutcomeV::CannotCache(w@, opt_view(*e)),
            ParseOutcome::NotCompilation => ParseOutcomeV::NotCompilation,
        }
    }
}

/// What has been gathered from the arguments read so far.
pub struct ParseState {
    pub args: Seq<ArgumentV>,
    pub emit: Option<Seq<Seq<char>>>,
    pub input: Option<Seq<char>>,
    pub output_dir: Option<Seq<char>>,
    pub crate_name: Option<Seq<char>>,
    pub rlib: bool,
    pub staticlib: bool,
    pub extra_filename: Option<Seq<char>>,
    pub externs: Seq<Seq<char>>,
    pub crate_link_paths: Seq<Seq<char>>,
    pub static_lib_names: Seq<Seq<char>>,
    pub static_link_paths: Seq<Seq<char>>,
    pub color_mode: ColorMode,
    pub has_json: bool,
    pub profile: Option<Seq<char>>,
    pub target_json: Option<Seq<char>>,
}

/// The state before any argument.
pub open spec fn initial_state() -> ParseState {
    ParseState {
        args: Seq::empty(),
        emit: None,
        input: None,
        output_dir: None,
        crate_name: None,
        rlib: false,
        staticlib: false,
        extra_filename: None,
        externs: Seq::empty(),
        crate_link_paths: Seq::empty(),
        static_lib_names: Seq::empty(),
        static_link_paths: Seq::empty(),
        color_mode: ColorMode::Auto,
        has_json: false,
        profile: None,
        target_json: None,
    }
}

/// Result of reading one argument: go on with a new state, or stop with an outcome.
pub enum Step {
    Go(ParseState),
    Stop(ParseOutcomeV),
}

/// The state with the argument recorded (in its separated form).
pub open spec fn pushed(st: ParseState, a: ArgumentV) -> ParseState {
    ParseState { args: st.args.push(spec_normalize(a, NormalizedDisposition::Separated)), ..st }
}

/// The set of names in a comma-separated list.
pub open spec fn set_of(parts: Seq<Seq<char>>) -> Seq<Seq<char>>
    decreases parts.len(),
{
    if parts.len() == 0 {
        Seq::empty()
    } else {
        set_insert(set_of(parts.drop_last()), parts.last())
    }
}

/// Detail for two input files: how `Debug` shows the first and the second.
pub open spec fn multiple_inputs_text(prev: Seq<char>, next: Seq<char>) -> Seq<char> {
    "prev = Some("@ + debug_text(prev) + "), next = Raw("@ + debug_text(next) + ")"@
}

/// Reading a known flag with value `d`.
pub open spec fn step_data(st: ParseState, a: ArgumentV, f: Seq<char>, d: ArgDataV, cwd: Seq<char>) -> Step {
    match d {
        ArgDataV::TooHardFlag => Step::Stop(ParseOutcomeV::CannotCache(f, None)),
        ArgDataV::TooHardPath(_) => Step::Stop(ParseOutcomeV::CannotCache(f, None)),
        ArgDataV::NotCompilationFlag => Step::Stop(ParseOutcomeV::NotCompilation),
        ArgDataV::NotCompilation(_) => Step::Stop(ParseOutcomeV::NotCompilation),
        ArgDataV::LinkLibrary(kind, name) => Step::Go(
            pushed(
                ParseState {
                    static_lib_names: if kind == "static"@ {
                        st.static_lib_names.push(name)
                    } else {
                        st.static_lib_names
                    },
                    ..st
                },
                a,
            ),
        ),
        ArgDataV::LinkPath(kind, path) => Step::Go(
            pushed(
                ParseState {
                    crate_link_paths: if kind == "crate"@ || kind == "dependency"@ || kind == "all"@ {
                        st.crate_link_paths.push(path_join(cwd, path))
                    } else {
                        st.crate_link_paths
                    },
                    static_link_paths: if kind == "native"@ || kind == "all"@ {
                        st.static_link_paths.push(path_join(cwd, path))
                    } else {
                        st.static_link_paths
                    },
                    ..st
                },
                a,
            ),
        ),
        ArgDataV::Emit(v) => if st.emit is Some {
            Step::Stop(ParseOutcomeV::CannotCache("more than one --emit"@, None))
        } else {
            Step::Go(pushed(ParseState { emit: Some(set_of(split(v, ','))), ..st }, a))
        },
        ArgDataV::CrateType(r, s, o) => if o.len() > 0 {
            Step::Stop(ParseOutcomeV::CannotCache("crate-type"@, Some(crate::text::join(o, ","@))))
        } else {
            Step::Go(pushed(ParseState { rlib: st.rlib || r, staticlib: st.staticlib || s, ..st }, a))
        },
        ArgDataV::CrateName(v) => Step::Go(pushed(ParseState { crate_name: Some(v), ..st }, a)),
        ArgDataV::OutDir(v) => Step::Go(pushed(ParseState { output_dir: Some(v), ..st }, a)),
        ArgDataV::Extern(_, p) => Step::Go(pushed(ParseState { externs: st.externs.push(p), ..st }, a)),
        ArgDataV::CodeGen(opt, val) => if opt == "extra-filename"@ {
            match val {
                Some(v) => Step::Go(pushed(ParseState { extra_filename: Some(v), ..st }, a)),
                None => Step::Stop(ParseOutcomeV::CannotCache("extra-filename"@, None)),
            }
        } else if opt == "profile-use"@ && val is Some {
            Step::Go(pushed(ParseState { profile: val, ..st }, a))
        } else if opt == "incremental"@ {
            Step::Stop(ParseOutcomeV::CannotCache("incremental"@, None))
        } else {
            Step::Go(pushed(st, a))
        },
        ArgDataV::Unstable(_, _) => Step::Go(pushed(st, a)),
        ArgDataV::Color(v) => Step::Go(
            ParseState {
                color_mode: if v == "always"@ {
                    ColorMode::On
                } else if v == "never"@ {
                    ColorMode::Off
                } else {
                    ColorMode::Auto
                },
                ..st
            },
        ),
        ArgDataV::Json(_) => Step::Go(pushed(ParseState { has_json: true, ..st }, a)),
        ArgDataV::PassThrough(_) => Step::Go(pushed(st, a)),
        ArgDataV::Target(t) => match t {
            ArgTargetV::Path(p) => Step::Go(pushed(ParseState { target_json: Some(p), ..st }, a)),
            ArgTargetV::Unsure(_) => Step::Stop(ParseOutcomeV::CannotCache("target unsure"@, None)),
            ArgTargetV::Name(_) => Step::Go(pushed(st, a)),
        },
    }
}

/// Reading the `idx`-th parsed argument.
#[verifier::opaque]
pub open spec fn step(st: ParseState, idx: int, tok: Result<ArgumentV, ArgParseErrorV>, cwd: Seq<char>) -> Step {
    match tok {
        Err(e) => Step::Stop(ParseOutcomeV::CannotCache("argument parse"@, Some(error_text(e)))),
        Ok(a) => match a {
            ArgumentV::Raw(val) => if idx == 0 && val == "rustc"@ {
                Step::Go(st)
            } else if st.input is Some {
                Step::Stop(
                    ParseOutcomeV::CannotCache(
                        "multiple input files"@,
                        Some(multiple_inputs_text(st.input.unwrap(), val)),
                    ),
                )
            } else {
                Step::Go(pushed(ParseState { input: Some(val), ..st }, a))
            },
            ArgumentV::UnknownFlag(_) => Step::Go(pushed(st, a)),
            ArgumentV::Flag(f, d) => step_data(st, a, f, d, cwd),
            ArgumentV::WithValue(f, d, _) => step_data(st, a, f, d, cwd),
        },
    }
}

/// Reading a sequence of parsed arguments, stopping at the first that settles
/// the outcome.
pub open spec fn run(toks: Seq<Result<ArgumentV, ArgParseErrorV>>, cwd: Seq<char>) -> Step
    decreases toks.len(),
{
    if toks.len() == 0 {
        Step::Go(initial_state())
    } else {
        match run(toks.drop_last(), cwd) {
            Step::Stop(o) => Step::Stop(o),
            Step::Go(st) => step(st, toks.len() - 1, toks.last(), cwd),
        }
    }
}

/// The file names a static library `name` may have.
pub open spec fn lib_file_names(name: Seq<char>) -> Seq<Seq<char>> {
    seq!["lib"@ + name + ".a"@, name + ".lib"@, name + ".a"@]
}

/// The first of `files` that exists in `dir`.
pub open spec fn first_existing(dir: Seq<char>, files: Seq<Seq<char>>, fs: FileProbeV) -> Option<Seq<char>>
    decreases files.len(),
{
    if files.len() == 0 {
        None
    } else if fs.existing.contains(path_join(dir, files[0])) {
        Some(path_join(dir, files[0]))
    } else {
        first_existing(dir, files.drop_first(), fs)
    }
}

/// Where the static library `name` is found among `paths`, if anywhere.
pub open spec fn find_lib(paths: Seq<Seq<char>>, name: Seq<char>, fs: FileProbeV) -> Option<Seq<char>>
    decreases paths.len(),
{
    if paths.len() == 0 {
        None
    } else {
        match first_existing(paths[0], lib_file_names(name), fs) {
            Some(p) => Some(p),
            None => find_lib(paths.drop_first(), name, fs),
        }
    }
}

/// The static libraries found, in the order they were named.
pub open spec fn static_libs(names: Seq<Seq<char>>, paths: Seq<Seq<char>>, fs: FileProbeV) -> Seq<Seq<char>>
    decreases names.len(),
{
    if names.len() == 0 {
        Seq::empty()
    } else {
        let r = static_libs(names.drop_last(), paths, fs);
        match find_lib(paths, names.last(), fs) {
            Some(p) => r.push(p),
            None => r,
        }
    }
}

/// The `--emit` modes that can be cached.
pub open spec fn allowed_emit(e: Seq<char>) -> bool {
    e == "link"@ || e == "metadata"@ || e == "dep-info"@
}

/// The outcome once every argument has been read.
#[verifier::opaque]
pub open spec fn spec_finish(st: ParseState, fs: FileProbeV) -> ParseOutcomeV {
    if st.input is None {
        ParseOutcomeV::CannotCache("missing input"@, None)
    } else if st.output_dir is None {
        ParseOutcomeV::CannotCache("missing output_dir"@, None)
    } else if st.emit is None {
        ParseOutcomeV::CannotCache("missing emit"@, None)
    } else if st.crate_name is None {
        ParseOutcomeV::CannotCache("missing crate_name"@, None)
    } else {
        let emit = st.emit.unwrap();
        let name = st.crate_name.unwrap();
        if emit.len() > 0 && !emit.contains("link"@) && !emit.contains("metadata"@) {
            ParseOutcomeV::NotCompilation
        } else if !st.rlib && !st.staticlib {
            ParseOutcomeV::CannotCache("crate-type"@, Some("No crate-type passed"@))
        } else if exists|k: int| 0 <= k < emit.len() && !allowed_emit(#[trigger] emit[k]) {
            ParseOutcomeV::CannotCache("unsupported --emit"@, None)
        } else {
            ParseOutcomeV::Handled(
                ParsedArgumentsV {
                    arguments: st.args,
                    input: st.input.unwrap(),
                    output_dir: st.output_dir.unwrap(),
                    externs: crate::sorting::sort_stable(
                        st.externs,
                        |a: Seq<char>, b: Seq<char>| crate::paths::path_lt(a, b),
                    ),
                    crate_link_paths: st.crate_link_paths,
                    staticlibs: static_libs(st.static_lib_names, st.static_link_paths, fs),
                    crate_name: name,
                    crate_types: CrateTypes { rlib: st.rlib, staticlib: st.staticlib },
                    dep_info: if emit.contains("dep-info"@) {
                        Some(
                            name + match st.extra_filename {
                                Some(x) => x,
                                None => Seq::<char>::empty(),
                            } + ".d"@,
                        )
                    } else {
                        None
                    },
                    profile: if emit.contains("link"@) {
                        st.profile
                    } else {
                        None
                    },
                    emit: emit,
                    color_mode: st.color_mode,
                    has_json: st.has_json,
                    target_json: st.target_json,
                },
            )
        }
    }
}

/// `parse_arguments` over argv `args` in directory `cwd`, where `fs` says
/// which files exist.
pub open spec fn spec_parse(args: Seq<Seq<char>>, cwd: Seq<char>, fs: FileProbeV) -> ParseOutcomeV {
    match run(spec_tokens(spec_rustc_table(), args, fs), cwd) {
        Step::Stop(o) => o,
        Step::Go(st) => spec_finish(st, fs),
    }
}

/// Executable form of [`ParseState`].
struct ParseAcc {
    args: Vec<Argument>,
    emit: Option<Vec<String>>,
    input: Option<String>,
    output_dir: Option<String>,
    crate_name: Option<String>,
    rlib: bool,
    staticlib: bool,
    extra_filename: Option<String>,
    externs: Vec<String>,
    crate_link_paths: Vec<String>,
    static_lib_names: Vec<String>,
    static_link_paths: Vec<String>,
    color_mode: ColorMode,
    has_json: bool,
    profile: Option<String>,
    target_json: Option<String>,
}

impl View for ParseAcc {
    type V = ParseState;

    closed spec fn view(&self) -> ParseState {
        ParseState {
            args: arguments_view(self.args@),
            emit: match self.emit {
                Some(e) => Some(strings_view(e@)),
                None => None,
            },
            input: opt_view(self.input),
            output_dir: opt_view(self.output_dir),
            crate_name: opt_view(self.crate_name),
            rlib: self.rlib,
            staticlib: self.staticlib,
            extra_filename: opt_view(self.extra_filename),
            externs: strings_view(self.externs@),
            crate_link_paths: strings_view(self.crate_link_paths@),
            static_lib_names: strings_view(self.static_lib_names@),
            static_link_paths: strings_view(self.static_link_paths@),
            color_mode: self.color_mode,
            has_json: self.has_json,
            profile: opt_view(self.profile),
            target_json: opt_view(self.target_json),
        }
    }
}

fn initial_acc() -> (r: ParseAcc)
    ensures
        r@ == initial_state(),
{
    let r = ParseAcc {
        args: Vec::new(),
        emit: None,
        input: None,
        output_dir: None,
        crate_name: None,
        rlib: false,
        staticlib: false,
        extra_filename: None,
        externs: Vec::new(),
        crate_link_paths: Vec::new(),
        static_lib_names: Vec::new(),
        static_link_paths: Vec::new(),
        color_mode: ColorMode::Auto,
        has_json: false,
        profile: None,
        target_json: None,
    };
    assert(r@.args =~= Seq::<ArgumentV>::empty());
    assert(r@.externs =~= Seq::<Seq<char>>::empty());
    assert(r@.crate_link_paths =~= Seq::<Seq<char>>::empty());
    assert(r@.static_lib_names =~= Seq::<Seq<char>>::empty());
    assert(r@.static_link_paths =~= Seq::<Seq<char>>::empty());
    r
}

fn push_string(v: &mut Vec<String>, x: String)
    ensures
        strings_view(final(v)@) == strings_view(old(v)@).push(x@),
{
    v.push(x);
    assert(strings_view(v@) =~= strings_view(old(v)@).push(x@));
}

fn push_argument(v: &mut Vec<Argument>, a: Argument)
    ensures
        arguments_view(final(v)@) == arguments_view(old(v)@).push(a@),
{
    v.push(a);
    assert(arguments_view(v@) =~= arguments_view(old(v)@).push(a@));
}

fn emit_set(v: &String) -> (r: Vec<String>)
    ensures
        strings_view(r@) == set_of(split(v@, ',')),
{
    let c = chars_of(v.as_str());
    let parts = split_chars(c.as_slice(), ',');
    let ghost ps = split(v@, ',');
    let mut out: Vec<String> = Vec::new();
    let mut i: usize = 0;
    assert(ps.take(0) =~= Seq::<Seq<char>>::empty());
    assert(strings_view(out@) =~= Seq::<Seq<char>>::empty());
    while i < parts.len()
        invariant
            0 <= i <= parts.len(),
            parts@.len() == ps.len(),
            forall|j: int| 0 <= j < parts@.len() ==> #[trigger] parts@[j]@ == ps[j],
            strings_view(out@) == set_of(ps.take(i as int)),
        decreases parts.len() - i,
    {
        proof {
            assert(ps.take(i + 1).drop_last() =~= ps.take(i as int));
            assert(ps.take(i + 1).last() == parts@[i as int]@);
        }
        insert_unique(&mut out, string_of(parts[i].as_slice()));
        i = i + 1;
    }
    assert(ps.take(parts.len() as int) =~= ps);
    out
}

/// Reads one known flag with its value into the state: `None` to go on,
/// `Some` with the outcome when the flag settles it.
fn apply_data(acc: &mut ParseAcc, a: &Argument, cwd: &[char]) -> (r: Option<ParseOutcome<ParsedArguments>>)
    requires
        a@ is Flag || a@ is WithValue,
    ensures
        match (a@) {
            ArgumentV::Flag(f, d) => match step_data(old(acc)@, a@, f, d, cwd@) {
                Step::Go(st) => r is None && final(acc)@ == st,
                Step::Stop(o) => r is Some && r.unwrap()@ == o,
            },
            ArgumentV::WithValue(f, d, _) => match step_data(old(acc)@, a@, f, d, cwd@) {
                Step::Go(st) => r is None && final(acc)@ == st,
                Step::Stop(o) => r is Some && r.unwrap()@ == o,
            },
            _ => false,
        },
{
    let f = a.flag_str().unwrap();
    let d = a.get_data().unwrap();
    let ghost st0 = acc@;
    let mut push = true;
    match d {
        ArgData::TooHardFlag => return Some(ParseOutcome::CannotCache(copy_string(f), None)),
        ArgData::TooHardPath(_) => return Some(ParseOutcome::CannotCache(copy_string(f), None)),
        ArgData::NotCompilationFlag => return Some(ParseOutcome::NotCompilation),
        ArgData::NotCompilation(_) => return Some(ParseOutcome::NotCompilation),
        ArgData::LinkLibrary(l) => {
            if same_text(l.kind.as_str(), "static") {
                push_string(&mut acc.static_lib_names, copy_string(&l.name));
            }
        },
        ArgData::LinkPath(l) => {
            let kind = l.kind.as_str();
            let pc = chars_of(l.path.as_str());
            if same_text(kind, "crate") || same_text(kind, "dependency") || same_text(kind, "all") {
                let j = join_path(cwd, pc.as_slice());
                push_string(&mut acc.crate_link_paths, string_of(j.as_slice()));
            }
            if same_text(kind, "native") || same_text(kind, "all") {
                let j = join_path(cwd, pc.as_slice());
                push_string(&mut acc.static_link_paths, string_of(j.as_slice()));
            }
        },
        ArgData::Emit(v) => {
            if acc.emit.is_some() {
                return Some(ParseOutcome::CannotCache(owned("more than one --emit"), None));
            }
            acc.emit = Some(emit_set(v));
        },
        ArgData::CrateType(c) => {
            if c.others.len() > 0 {
                let detail = crate::text::join_strings(&c.others, ",");
                assert(c.others@.map_values(|p: String| p@) =~= strings_view(c.others@));
                return Some(ParseOutcome::CannotCache(owned("crate-type"), Some(detail)));
            }
            acc.rlib = acc.rlib || c.rlib;
            acc.staticlib = acc.staticlib || c.staticlib;
        },
        ArgData::CrateName(v) => {
            acc.crate_name = Some(copy_string(v));
        },
        ArgData::OutDir(v) => {
            acc.output_dir = Some(copy_string(v));
        },
        ArgData::Extern(e) => {
            push_string(&mut acc.externs, copy_string(&e.path));
        },
        ArgData::CodeGen(c) => {
            let opt = c.opt.as_str();
            if same_text(opt, "extra-filename") {
                match &c.value {
                    Some(v) => {
                        acc.extra_filename = Some(copy_string(v));
                    },
                    None => return Some(ParseOutcome::CannotCache(owned("extra-filename"), None)),
                }
            } else if same_text(opt, "profile-use") && c.value.is_some() {
                acc.profile = copy_opt(&c.value);
            } else if same_text(opt, "incremental") {
                return Some(ParseOutcome::CannotCache(owned("incremental"), None));
            }
        },
        ArgData::Unstable(_) => {},
        ArgData::Color(v) => {
            acc.color_mode = if same_text(v.as_str(), "always") {
                ColorMode::On
            } else if same_text(v.as_str(), "never") {
                ColorMode::Off
            } else {
                ColorMode::Auto
            };
            push = false;
        },
        ArgData::Json(_) => {
            acc.has_json = true;
        },
        ArgData::PassThrough(_) => {},
        ArgData::Target(t) => match t {
            ArgTarget::Path(p) => {
                acc.target_json = Some(copy_string(p));
            },
            ArgTarget::Unsure(_) => return Some(ParseOutcome::CannotCache(owned("target unsure"), None)),
            ArgTarget::Name(_) => {},
        },
    }
    if push {
        push_argument(&mut acc.args, a.duplicate().normalize(NormalizedDisposition::Separated));
    }
    None
}

/// Reads the `idx`-th parsed argument into the state.
fn apply_token(acc: &mut ParseAcc, idx: usize, tok: Result<Argument, ArgParseError>, cwd: &[char]) -> (r: Option<
    ParseOutcome<ParsedArguments>,
>)
    ensures
        match step(old(acc)@, idx as int, arg_result_view(tok), cwd@) {
            Step::Go(st) => r is None && final(acc)@ == st,
            Step::Stop(o) => r is Some && r.unwrap()@ == o,
        },
{
    reveal(step);
    let a = match tok {
        Err(e) => return Some(ParseOutcome::CannotCache(owned("argument parse"), Some(e.message()))),
        Ok(a) => a,
    };
    match &a {
        Argument::Raw(val) => {
            if idx == 0 && same_text(val.as_str(), "rustc") {
                return None;
            }
            match &acc.input {
                Some(prev) => {
                    let mut m = chars_of("prev = Some(");
                    let p = chars_of(debug_quoted(prev.as_str()).as_str());
                    push_chars(&mut m, p.as_slice());
                    let mid = chars_of("), next = Raw(");
                    push_chars(&mut m, mid.as_slice());
                    let n = chars_of(debug_quoted(val.as_str()).as_str());
                    push_chars(&mut m, n.as_slice());
                    let close = chars_of(")");
                    push_chars(&mut m, close.as_slice());
                    return Some(
                        ParseOutcome::CannotCache(owned("multiple input files"), Some(string_of(m.as_slice()))),
                    );
                },
                None => {},
            }
            acc.input = Some(copy_string(val));
            push_argument(&mut acc.args, a.duplicate().normalize(NormalizedDisposition::Separated));
            None
        },
        Argument::UnknownFlag(_) => {
            push_argument(&mut acc.args, a.duplicate().normalize(NormalizedDisposition::Separated));
            None
        },
        _ => apply_data(acc, &a, cwd),
    }
}

fn lib_names(name: &String) -> (r: Vec<Vec<char>>)
    ensures
        r@.len() == 3,
        forall|k: int| 0 <= k < 3 ==> #[trigger] r@[k]@ == lib_file_names(name@)[k],
{
    let n = chars_of(name.as_str());
    let mut a = chars_of("lib");
    push_chars(&mut a, n.as_slice());
    let dot_a = chars_of(".a");
    push_chars(&mut a, dot_a.as_slice());
    let mut b = slice_chars(n.as_slice(), 0, n.len());
    let dot_lib = chars_of(".lib");
    push_chars(&mut b, dot_lib.as_slice());
    let mut c = slice_chars(n.as_slice(), 0, n.len());
    push_chars(&mut c, dot_a.as_slice());
    assert(n@.subrange(0, n@.len() as int) =~= n@);
    let mut r: Vec<Vec<char>> = Vec::new();
    r.push(a);
    r.push(b);
    r.push(c);
    r
}

fn find_lib_exec(paths: &Vec<String>, name: &String, fs: &FileProbe) -> (r: Option<String>)
    ensures
        opt_view(r) == find_lib(strings_view(paths@), name@, fs@),
{
    let ghost ps = strings_view(paths@);
    let files = lib_names(name);
    let ghost fv = lib_file_names(name@);
    assert(ps.skip(0) =~= ps);
    let mut i: usize = 0;
    while i < paths.len()
        invariant
            0 <= i <= paths.len(),
            ps == strings_view(paths@),
            files@.len() == 3,
            fv == lib_file_names(name@),
            forall|k: int| 0 <= k < 3 ==> #[trigger] files@[k]@ == fv[k],
            find_lib(ps, name@, fs@) == find_lib(ps.skip(i as int), name@, fs@),
        decreases paths.len() - i,
    {
        let dir = chars_of(paths[i].as_str());
        let ghost rest = ps.skip(i as int);
        assert(rest[0] == dir@);
        assert(rest.drop_first() =~= ps.skip(i + 1));
        let mut k: usize = 0;
        assert(fv.skip(0) =~= fv);
        while k < 3
            invariant
                0 <= k <= 3,
                0 <= i < paths.len(),
                ps == strings_view(paths@),
                rest == ps.skip(i as int),
                rest[0] == dir@,
                rest.drop_first() == ps.skip(i + 1),
                find_lib(ps, name@, fs@) == find_lib(rest, name@, fs@),
                files@.len() == 3,
                fv == lib_file_names(name@),
                forall|q: int| 0 <= q < 3 ==> #[trigger] files@[q]@ == fv[q],
                first_existing(dir@, fv, fs@) == first_existing(dir@, fv.skip(k as int), fs@),
            decreases 3 - k,
        {
            let cand = join_path(dir.as_slice(), files[k].as_slice());
            assert(fv.skip(k as int)[0] == fv[k as int]);
            assert(fv.skip(k as int).drop_first() =~= fv.skip(k + 1));
            if fs.path_exists(cand.as_slice()) {
                return Some(string_of(cand.as_slice()));
            }
            k = k + 1;
        }
        assert(fv.skip(3) =~= Seq::<Seq<char>>::empty());
        i = i + 1;
    }
    assert(ps.skip(paths.len() as int) =~= Seq::<Seq<char>>::empty());
    None
}

fn find_static_libs(names: &Vec<String>, paths: &Vec<String>, fs: &FileProbe) -> (r: Vec<String>)
    ensures
        strings_view(r@) == static_libs(strings_view(names@), strings_view(paths@), fs@),
{
    let ghost ns = strings_view(names@);
    let mut out: Vec<String> = Vec::new();
    let mut i: usize = 0;
    assert(ns.take(0) =~= Seq::<Seq<char>>::empty());
    assert(strings_view(out@) =~= Seq::<Seq<char>>::empty());
    while i < names.len()
        invariant
            0 <= i <= names.len(),
            ns == strings_view(names@),
            strings_view(out@) == static_libs(ns.take(i as int), strings_view(paths@), fs@),
        decreases names.len() - i,
    {
        assert(ns.take(i + 1).drop_last() =~= ns.take(i as int));
        assert(ns.take(i + 1).last() == names@[i as int]@);
        match find_lib_exec(paths, &names[i], fs) {
            Some(p) => push_string(&mut out, p),
            None => {},
        }
        i = i + 1;
    }
    assert(ns.take(names.len() as int) =~= ns);
    out
}

fn has_unsupported_emit(emit: &Vec<String>) -> (r: bool)
    ensures
        r == exists|k: int| 0 <= k < emit@.len() && !allowed_emit(#[trigger] strings_view(emit@)[k]),
{
    let ghost ev = strings_view(emit@);
    let link = chars_of("link");
    let metadata = chars_of("metadata");
    let dep = chars_of("dep-info");
    let mut k: usize = 0;
    while k < emit.len()
        invariant
            0 <= k <= emit.len(),
            ev == strings_view(emit@),
            link@ == "link"@,
            metadata@ == "metadata"@,
            dep@ == "dep-info"@,
            forall|q: int| 0 <= q < k ==> allowed_emit(#[trigger] ev[q]),
        decreases emit.len() - k,
    {
        let e = chars_of(emit[k].as_str());
        assert(ev[k as int] == e@);
        if !(chars_equal(e.as_slice(), link.as_slice()) || chars_equal(e.as_slice(), metadata.as_slice())
            || chars_equal(e.as_slice(), dep.as_slice())) {
            assert(!allowed_emit(ev[k as int]));
            return true;
        }
        k = k + 1;
    }
    false
}

fn finish(acc: ParseAcc, fs: &FileProbe) -> (r: ParseOutcome<ParsedArguments>)
    ensures
        r@ == spec_finish(acc@, fs@),
{
    reveal(spec_finish);
    let ghost st = acc@;
    let ParseAcc {
        args,
        emit,
        input,
        output_dir,
        crate_name,
        rlib,
        staticlib,
        extra_filename,
        mut externs,
        crate_link_paths,
        static_lib_names,
        static_link_paths,
        color_mode,
        has_json,
        profile,
        target_json,
    } = acc;
    let input = match input {
        None => return ParseOutcome::CannotCache(owned("missing input"), None),
        Some(x) => x,
    };
    let output_dir = match output_dir {
        None => return ParseOutcome::CannotCache(owned("missing output_dir"), None),
        Some(x) => x,
    };
    let emit = match emit {
        None => return ParseOutcome::CannotCache(owned("missing emit"), None),
        Some(x) => x,
    };
    let crate_name = match crate_name {
        None => return ParseOutcome::CannotCache(owned("missing crate_name"), None),
        Some(x) => x,
    };
    let ghost ev = strings_view(emit@);
    let link = chars_of("link");
    let metadata = chars_of("metadata");
    let dep = chars_of("dep-info");
    let has_link = contains_text(&emit, link.as_slice());
    let has_metadata = contains_text(&emit, metadata.as_slice());
    let has_dep = contains_text(&emit, dep.as_slice());
    if emit.len() > 0 && !has_link && !has_metadata {
        return ParseOutcome::NotCompilation;
    }
    if !rlib && !staticlib {
        return ParseOutcome::CannotCache(owned("crate-type"), Some(owned("No crate-type passed")));
    }
    if has_unsupported_emit(&emit) {
        return ParseOutcome::CannotCache(owned("unsupported --emit"), None);
    }
    let dep_info = if has_dep {
        let mut d = chars_of(crate_name.as_str());
        match &extra_filename {
            Some(x) => {
                let xc = chars_of(x.as_str());
                push_chars(&mut d, xc.as_slice());
            },
            None => {},
        }
        let dot_d = chars_of(".d");
        push_chars(&mut d, dot_d.as_slice());
        proof {
            match extra_filename {
                Some(x) => {},
                None => {
                    assert(crate_name@ + Seq::<char>::empty() =~= crate_name@);
                },
            }
        }
        Some(string_of(d.as_slice()))
    } else {
        None
    };
    let profile = if has_link {
        profile
    } else {
        None
    };
    let staticlibs = find_static_libs(&static_lib_names, &static_link_paths, fs);
    crate::paths::sort_paths(&mut externs);
    let r = ParsedArguments {
        arguments: args,
        input,
        output_dir,
        externs,
        crate_link_paths,
        staticlibs,
        crate_name,
        crate_types: CrateTypes { rlib, staticlib },
        dep_info,
        profile,
        emit,
        color_mode,
        has_json,
        target_json,
    };
    ParseOutcome::Handled(r)
}

/// Once a prefix of the arguments settles the outcome, later arguments do
/// not change it.
pub proof fn lemma_run_stop(
    a: Seq<Result<ArgumentV, ArgParseErrorV>>,
    b: Seq<Result<ArgumentV, ArgParseErrorV>>,
    cwd: Seq<char>,
)
    requires
        run(a, cwd) is Stop,
    ensures
        run(a + b, cwd) == run(a, cwd),
    decreases b.len(),
{
    if b.len() == 0 {
        assert(a + b =~= a);
    } else {
        lemma_run_stop(a, b.drop_last(), cwd);
        assert((a + b).drop_last() =~= a + b.drop_last());
    }
}

fn copy_probe(fs: &FileProbe) -> (r: FileProbe)
    ensures
        r@ == fs@,
{
    FileProbe { files: copy_strings(&fs.files), existing: copy_strings(&fs.existing) }
}

fn copy_args(v: &[String]) -> (r: Vec<String>)
    ensures
        strings_view(r@) == strings_view(v@),
{
    let mut r: Vec<String> = Vec::new();
    let mut i: usize = 0;
    while i < v.len()
        invariant
            0 <= i <= v.len(),
            r@.len() == i,
            forall|j: int| 0 <= j < i ==> #[trigger] r@[j]@ == v@[j]@,
        decreases v.len() - i,
    {
        r.push(copy_string(&v[i]));
        i = i + 1;
    }
    assert(strings_view(r@) =~= strings_view(v@));
    r
}

/// Read the whole argv, stopping at the first argument that settles the
/// outcome; on `Ok` every argument was read and the state is returned.
fn read_all(arguments: &[String], cwd: &str, fs: &FileProbe) -> (r: Result<ParseAcc, ParseOutcome<ParsedArguments>>)
    ensures
        match r {
            Ok(acc) => run(spec_tokens(spec_rustc_table(), strings_view(arguments@), fs@), cwd@) == Step::Go(acc@),
            Err(o) => run(spec_tokens(spec_rustc_table(), strings_view(arguments@), fs@), cwd@) == Step::Stop(o@),
        },
{
    let cwdc = chars_of(cwd);
    let table = rustc_arg_table();
    let ghost t = spec_rustc_table();
    let ghost all = spec_tokens(t, strings_view(arguments@), fs@);
    let mut it = ArgsIter::with_probe(copy_args(arguments), table, copy_probe(fs));
    let mut acc = initial_acc();
    let mut idx: usize = 0;
    let ghost mut done: Seq<Result<ArgumentV, ArgParseErrorV>> = Seq::empty();
    assert(all == done + spec_tokens(t, it.remaining(), fs@));
    loop
        invariant
            it.wf(),
            table_view(it.arg_info@) == t,
            it.fs@ == fs@,
            cwdc@ == cwd@,
            all == spec_tokens(t, strings_view(arguments@), fs@),
            all == done + spec_tokens(t, it.remaining(), fs@),
            done.len() == idx,
            idx <= it.pos,
            it.arguments@.len() == arguments@.len(),
            run(done, cwd@) == Step::Go(acc@),
            t == spec_rustc_table(),
        ensures
            all == spec_tokens(spec_rustc_table(), strings_view(arguments@), fs@),
            run(all, cwd@) == Step::Go(acc@),
        decreases it.arguments@.len() - it.pos,
    {
        let ghost rem = it.remaining();
        match it.next_arg() {
            None => {
                assert(spec_tokens(t, rem, fs@) =~= Seq::<Result<ArgumentV, ArgParseErrorV>>::empty());
                assert(all =~= done);
                break;
            },
            Some(tok) => {
                let ghost tv = arg_result_view(tok);
                proof {
                    assert(all == done.push(tv) + spec_tokens(t, it.remaining(), fs@));
                    assert((done.push(tv)).drop_last() =~= done);
                }
                let ghost acc_before = acc@;
                match apply_token(&mut acc, idx, tok, cwdc.as_slice()) {
                    Some(o) => {
                        proof {
                            assert(run(done.push(tv), cwd@) == step(acc_before, idx as int, tv, cwd@));
                            lemma_run_stop(done.push(tv), spec_tokens(t, it.remaining(), fs@), cwd@);
                        }
                        return Err(o);
                    },
                    None => {},
                }
                proof {
                    done = done.push(tv);
                }
                idx = idx + 1;
            },
        }
    }
    Ok(acc)
}

/// Parse `arguments` as rustc command-line arguments, run from `cwd`, and
/// determine whether the compilation can be cached; `fs` says which files
/// exist (it is consulted for `--target` values and static libraries).
///
/// Only a subset of rustc invocations is covered, those that cargo makes:
/// no compilation from stdin, `--emit` and `--out-dir` are required, only
/// `link`, `metadata` and `dep-info` may be emitted, and `-o` is not supported.
pub fn parse_arguments_with(arguments: &[String], cwd: &str, fs: &FileProbe) -> (r: ParseOutcome<ParsedArguments>)
    ensures
        r@ == spec_parse(strings_view(arguments@), cwd@, fs@),
{
    match read_all(arguments, cwd, fs) {
        Err(o) => o,
        Ok(acc) => finish(acc, fs),
    }
}

/// Reading an argv depends only on which paths are regular files, not on
/// which other paths exist.
proof fn lemma_tokens_files(t: Seq<ArgInfoV>, args: Seq<Seq<char>>, fs1: FileProbeV, fs2: FileProbeV)
    requires
        fs1.files == fs2.files,
    ensures
        spec_tokens(t, args, fs1) == spec_tokens(t, args, fs2),
    decreases args.len(),
{
    if args.len() > 0 {
        reveal(spec_classify);
        let next = if args.len() > 1 {
            Some(args[1])
        } else {
            None
        };
        assert(spec_classify(t, args[0], next, fs1) == spec_classify(t, args[0], next, fs2));
        let (r, used) = spec_classify(t, args[0], next, fs1);
        let n: int = if used && args.len() > 1 {
            2
        } else {
            1
        };
        lemma_tokens_files(t, args.skip(n), fs1, fs2);
    }
}

/// `std::path::Path::is_file`: whether `path` names a regular file on this
/// machine. Nothing is claimed of the result, which depends on the file
/// system at the time of the call.
#[verifier::external_body]
fn is_regular_file(path: &str) -> (r: bool) {
    std::path::Path::new(path).is_file()
}

/// `std::path::Path::exists`: whether anything exists at `path` on this
/// machine. Nothing is claimed of the result, which depends on the file
/// system at the time of the call.
#[verifier::external_body]
fn path_is_present(path: &str) -> (r: bool) {
    std::path::Path::new(path).exists()
}

/// The probe that knows of no file.
spec fn empty_probe() -> FileProbeV {
    FileProbeV { files: Seq::empty(), existing: Seq::empty() }
}

/// The `--target` value of a parsed argument read as a target name, if it is one.
spec fn target_name(tok: Result<ArgumentV, ArgParseErrorV>) -> Option<Seq<char>> {
    match tok {
        Ok(ArgumentV::WithValue(_, ArgDataV::Target(ArgTargetV::Name(v)), _)) => Some(v),
        _ => None,
    }
}

/// Whether `p` is `<v>.json` for a `--target` value `v` that `toks` read as a name.
spec fn target_json_of(toks: Seq<Result<ArgumentV, ArgParseErrorV>>, p: Seq<char>) -> bool {
    exists|q: int| 0 <= q < toks.len() && #[trigger] target_name(toks[q]) is Some && p == target_name(toks[q]).unwrap() + ".json"@
}

/// The `--target` values of an argv that name a JSON file once `.json` is
/// appended, as paths: each path returned is `<v>.json` for a value `v` that
/// the argv, read with no file known to exist, gives to `--target` as a name.
fn target_json_files(arguments: &[String]) -> (r: Vec<String>)
    ensures
        forall|m: int| 0 <= m < r@.len() ==> target_json_of(
            spec_tokens(spec_rustc_table(), strings_view(arguments@), empty_probe()),
            #[trigger] r@[m]@,
        ),
{
    let mut it = ArgsIter::new(copy_args(arguments), rustc_arg_table());
    let ghost t = spec_rustc_table();
    let ghost all = spec_tokens(t, strings_view(arguments@), empty_probe());
    let ghost mut seen: Seq<Result<ArgumentV, ArgParseErrorV>> = Seq::empty();
    assert(it.fs@.files =~= Seq::<Seq<char>>::empty());
    assert(it.fs@.existing =~= Seq::<Seq<char>>::empty());
    assert(it.fs@ == empty_probe());
    assert(all == seen + spec_tokens(t, it.remaining(), it.fs@));
    let mut out: Vec<String> = Vec::new();
    loop
        invariant
            it.wf(),
            table_view(it.arg_info@) == t,
            t == spec_rustc_table(),
            it.fs@ == empty_probe(),
            all == spec_tokens(t, strings_view(arguments@), empty_probe()),
            all == seen + spec_tokens(t, it.remaining(), it.fs@),
            forall|m: int| 0 <= m < out@.len() ==> target_json_of(all, #[trigger] out@[m]@),
        ensures
            forall|m: int| 0 <= m < out@.len() ==> target_json_of(all, #[trigger] out@[m]@),
        decreases it.arguments@.len() - it.pos,
    {
        match it.next_arg() {
            None => break,
            Some(tok) => {
                let ghost tv = arg_result_view(tok);
                let ghost q = seen.len() as int;
                proof {
                    assert(all == seen.push(tv) + spec_tokens(t, it.remaining(), it.fs@));
                    assert(all[q] == tv);
                }
                match &tok {
                    Ok(Argument::WithValue(_, ArgData::Target(ArgTarget::Name(v)), _)) => {
                        assert(target_name(tv) == Some(v@));
                        let mut c = chars_of(v.as_str());
                        let json = chars_of(".json");
                        push_chars(&mut c, json.as_slice());
                        let p = string_of(c.as_slice());
                        if is_regular_file(p.as_str()) {
                            proof {
                                assert(target_json_of(all, p@)) by {
                                    assert(0 <= q < all.len() && target_name(all[q]) is Some);
                                }
                            }
                            let ghost before = out@;
                            out.push(p);
                            assert forall|m: int| 0 <= m < out@.len() implies target_json_of(all, #[trigger] out@[m]@) by {
                                if m < before.len() {
                                    assert(out@[m] == before[m]);
                                }
                            }
                        }
                    },
                    _ => {},
                }
                proof {
                    seen = seen.push(tv);
                }
            },
        }
    }
    out
}

/// Whether `p` is where a static library of one of `names` would be found
/// under one of `paths`.
spec fn lib_candidate(names: Seq<Seq<char>>, paths: Seq<Seq<char>>, p: Seq<char>) -> bool {
    exists|i: int, j: int, k: int|
        #![trigger path_join(paths[i], lib_file_names(names[j])[k])]
        0 <= i < paths.len() && 0 <= j < names.len() && 0 <= k < 3 && p == path_join(paths[i], lib_file_names(names[j])[k])
}

/// The candidate static library files of a read argv that exist: each path
/// returned is one of the file names a library of `names` may have, under
/// one of `paths`.
fn existing_lib_files(names: &Vec<String>, paths: &Vec<String>) -> (r: Vec<String>)
    ensures
        forall|m: int| 0 <= m < r@.len() ==> lib_candidate(strings_view(names@), strings_view(paths@), #[trigger] r@[m]@),
{
    let ghost nv = strings_view(names@);
    let ghost pv = strings_view(paths@);
    let mut out: Vec<String> = Vec::new();
    let mut i: usize = 0;
    while i < paths.len()
        invariant
            0 <= i <= paths.len(),
            nv == strings_view(names@),
            pv == strings_view(paths@),
            forall|m: int| 0 <= m < out@.len() ==> lib_candidate(nv, pv, #[trigger] out@[m]@),
        decreases paths.len() - i,
    {
        let dir = chars_of(paths[i].as_str());
        assert(dir@ == pv[i as int]);
        let mut j: usize = 0;
        while j < names.len()
            invariant
                0 <= i < paths.len(),
                0 <= j <= names.len(),
                nv == strings_view(names@),
                pv == strings_view(paths@),
                dir@ == pv[i as int],
                forall|m: int| 0 <= m < out@.len() ==> lib_candidate(nv, pv, #[trigger] out@[m]@),
            decreases names.len() - j,
        {
            let files = lib_names(&names[j]);
            assert(nv[j as int] == names@[j as int]@);
            let mut k: usize = 0;
            while k < files.len()
                invariant
                    0 <= i < paths.len(),
                    0 <= j < names.len(),
                    0 <= k <= files.len(),
                    files@.len() == 3,
                    forall|x: int| 0 <= x < 3 ==> #[trigger] files@[x]@ == lib_file_names(nv[j as int])[x],
                    nv == strings_view(names@),
                    pv == strings_view(paths@),
                    dir@ == pv[i as int],
                    forall|m: int| 0 <= m < out@.len() ==> lib_candidate(nv, pv, #[trigger] out@[m]@),
                decreases files.len() - k,
            {
                let cand = join_path(dir.as_slice(), files[k].as_slice());
                let cs = string_of(cand.as_slice());
                if path_is_present(cs.as_str()) {
                    assert(files@[k as int]@ == lib_file_names(nv[j as int])[k as int]);
                    assert(lib_candidate(nv, pv, cs@)) by {
                        assert(cs@ == path_join(pv[i as int], lib_file_names(nv[j as int])[k as int]));
                    }
                    let ghost before = out@;
                    out.push(cs);
                    assert forall|m: int| 0 <= m < out@.len() implies lib_candidate(nv, pv, #[trigger] out@[m]@) by {
                        if m < before.len() {
                            assert(out@[m] == before[m]);
                        }
                    }
                }
                k = k + 1;
            }
            j = j + 1;
        }
        i = i + 1;
    }
    out
}

/// Parse `arguments` as rustc command-line arguments, run from `cwd`, and
/// determine whether the compilation can be cached, looking up on this
/// machine the `--target` JSON files and static libraries that the
/// arguments name.
///
/// The outcome is that of [`parse_arguments_with`] for some state of the
/// file system: which files exist is not known before the call.
pub fn parse_arguments(arguments: &[String], cwd: &str) -> (r: ParseOutcome<ParsedArguments>)
    ensures
        exists|fs: FileProbeV| r@ == spec_parse(strings_view(arguments@), cwd@, fs),
{
    let files = target_json_files(arguments);
    let probe = FileProbe { files, existing: Vec::new() };
    match read_all(arguments, cwd, &probe) {
        Err(o) => {
            assert(o@ == spec_parse(strings_view(arguments@), cwd@, probe@));
            o
        },
        Ok(acc) => {
            let existing = existing_lib_files(&acc.static_lib_names, &acc.static_link_paths);
            let ghost p1 = probe@;
            let full = FileProbe { files: probe.files, existing };
            proof {
                lemma_tokens_files(spec_rustc_table(), strings_view(arguments@), p1, full@);
            }
            let r = finish(acc, &full);
            assert(r@ == spec_parse(strings_view(arguments@), cwd@, full@));
            r
        },
    }
}
/// Adding to a sorted, duplicate-free list keeps it so and adds just that name.
proof fn lemma_set_insert(s: Seq<Seq<char>>, x: Seq<char>)
    requires
        strictly_sorted(s),
    ensures
        strictly_sorted(set_insert(s, x)),
        forall|y: Seq<char>| #[trigger] set_insert(s, x).contains(y) <==> (s.contains(y) || y == x),
{
    assert(text_lt() =~= by_code_point());
    if !s.contains(x) {
        lemma_insert_strict(s, x);
    }
}

/// Adding two names to a sorted, duplicate-free list gives the same list in
/// either order.
proof fn lemma_set_insert_commutes(s: Seq<Seq<char>>, x: Seq<char>, y: Seq<char>)
    requires
        strictly_sorted(s),
    ensures
        set_insert(set_insert(s, x), y) == set_insert(set_insert(s, y), x),
{
    lemma_set_insert(s, x);
    lemma_set_insert(set_insert(s, x), y);
    lemma_set_insert(s, y);
    lemma_set_insert(set_insert(s, y), x);
    lemma_strict_unique(set_insert(set_insert(s, x), y), set_insert(set_insert(s, y), x));
}

proof fn lemma_crate_types_sorted(parts: Seq<Seq<char>>)
    ensures
        strictly_sorted(crate_types_of(parts).2),
    decreases parts.len(),
{
    if parts.len() > 0 {
        lemma_crate_types_sorted(parts.drop_last());
        lemma_set_insert(crate_types_of(parts.drop_last()).2, parts.last());
    }
}

proof fn lemma_crate_types_congruent(a: Seq<Seq<char>>, b: Seq<Seq<char>>, post: Seq<Seq<char>>)
    requires
        crate_types_of(a) == crate_types_of(b),
    ensures
        crate_types_of(a + post) == crate_types_of(b + post),
    decreases post.len(),
{
    if post.len() == 0 {
        assert(a + post =~= a);
        assert(b + post =~= b);
    } else {
        lemma_crate_types_congruent(a, b, post.drop_last());
        assert((a + post).drop_last() =~= a + post.drop_last());
        assert((b + post).drop_last() =~= b + post.drop_last());
    }
}

/// The order of the names in `--crate-type a,b,...` does not matter:
/// swapping two adjacent names gives the same reading.
pub proof fn law_crate_type_order(pre: Seq<Seq<char>>, x: Seq<char>, y: Seq<char>, post: Seq<Seq<char>>)
    ensures
        crate_types_of(pre + seq![x, y] + post) == crate_types_of(pre + seq![y, x] + post),
{
    lemma_crate_types_sorted(pre);
    lemma_set_insert_commutes(crate_types_of(pre).2, x, y);
    let a = pre + seq![x, y];
    let b = pre + seq![y, x];
    assert(a.drop_last() =~= pre.push(x));
    assert(b.drop_last() =~= pre.push(y));
    assert(pre.push(x).drop_last() =~= pre);
    assert(pre.push(y).drop_last() =~= pre);
    assert(a.last() == y && b.last() == x && pre.push(x).last() == x && pre.push(y).last() == y);
    let (r0, s0, o0) = crate_types_of(pre);
    let sx = crate_types_of(pre.push(x));
    let sy = crate_types_of(pre.push(y));
    assert(crate_types_of(a) == crate_types_of(b));
    lemma_crate_types_congruent(a, b, post);
}

/// `lib` and `rlib` are read as the same crate type.
pub proof fn law_lib_is_rlib(pre: Seq<Seq<char>>, post: Seq<Seq<char>>)
    ensures
        crate_types_of(pre + seq!["lib"@] + post) == crate_types_of(pre + seq!["rlib"@] + post),
{
    let a = pre + seq!["lib"@];
    let b = pre + seq!["rlib"@];
    assert(a.drop_last() =~= pre);
    assert(b.drop_last() =~= pre);
    lemma_crate_types_congruent(a, b, post);
}

proof fn lemma_set_of_sorted(parts: Seq<Seq<char>>)
    ensures
        strictly_sorted(set_of(parts)),
    decreases parts.len(),
{
    if parts.len() > 0 {
        lemma_set_of_sorted(parts.drop_last());
        lemma_set_insert(set_of(parts.drop_last()), parts.last());
    }
}

proof fn lemma_set_of_congruent(a: Seq<Seq<char>>, b: Seq<Seq<char>>, post: Seq<Seq<char>>)
    requires
        set_of(a) == set_of(b),
    ensures
        set_of(a + post) == set_of(b + post),
    decreases post.len(),
{
    if post.len() == 0 {
        assert(a + post =~= a);
        assert(b + post =~= b);
    } else {
        lemma_set_of_congruent(a, b, post.drop_last());
        assert((a + post).drop_last() =~= a + post.drop_last());
        assert((b + post).drop_last() =~= b + post.drop_last());
    }
}

/// The order of the kinds in `--emit a,b,...` does not matter: swapping two
/// adjacent kinds gives the same set.
pub proof fn law_emit_order(pre: Seq<Seq<char>>, x: Seq<char>, y: Seq<char>, post: Seq<Seq<char>>)
    ensures
        set_of(pre + seq![x, y] + post) == set_of(pre + seq![y, x] + post),
{
    lemma_set_of_sorted(pre);
    lemma_set_insert_commutes(set_of(pre), x, y);
    let a = pre + seq![x, y];
    let b = pre + seq![y, x];
    assert(a.drop_last() =~= pre.push(x));
    assert(b.drop_last() =~= pre.push(y));
    assert(pre.push(x).drop_last() =~= pre);
    assert(pre.push(y).drop_last() =~= pre);
    assert(a.last() == y && b.last() == x && pre.push(x).last() == x && pre.push(y).last() == y);
    assert(set_of(pre.push(x)) == set_insert(set_of(pre), x));
    assert(set_of(pre.push(y)) == set_insert(set_of(pre), y));
    assert(set_of(a) == set_of(b));
    lemma_set_of_congruent(a, b, post);
}

/// A value given glued to its flag (`--cfg=x`) and one given as the next
/// element (`--cfg x`) are kept in the same, separated form.
pub proof fn law_glued_and_separated_agree(s: Seq<char>, v: ArgDataV, d: Delimiter)
    ensures
        spec_normalize(ArgumentV::WithValue(s, v, ArgDisposition::CanBeSeparated(d)), NormalizedDisposition::Separated)
            == spec_normalize(ArgumentV::WithValue(s, v, ArgDisposition::CanBeConcatenated(d)), NormalizedDisposition::Separated),
        spec_normalize(ArgumentV::WithValue(s, v, ArgDisposition::CanBeSeparated(d)), NormalizedDisposition::Separated)
            == ArgumentV::WithValue(s, v, ArgDisposition::Separated),
{
}

/// `--color` sets the color mode and is not kept among the arguments (the
/// host strips colors itself), so it does not reach the cache key.
pub proof fn law_color_not_kept(st: ParseState, a: ArgumentV, f: Seq<char>, v: Seq<char>, cwd: Seq<char>)
    ensures
        step_data(st, a, f, ArgDataV::Color(v), cwd) matches Step::Go(next) && next.args == st.args,
{
}

/// A leading `rustc` (how clippy-driver invokes the wrapper) is skipped.
pub proof fn law_leading_rustc_skipped(st: ParseState, cwd: Seq<char>)
    ensures
        step(st, 0, Ok(ArgumentV::Raw("rustc"@)), cwd) == Step::Go(st),
{
    reveal(step);
}

/// `info_order` is `Greater` where `key` sorts before the description's
/// flag at position `k` (or ends there) and so does not start with it.
proof fn lemma_probe_greater(i: ArgInfoV, key: Seq<char>, k: int)
    requires
        0 <= k <= key.len(),
        k < info_flag(i).len(),
        forall|j: int| 0 <= j < k ==> key[j] == info_flag(i)[j],
        k < key.len() ==> (key[k] as int) < (info_flag(i)[k] as int),
    ensures
        info_order(i, key) == Order::Greater,
{
    let s = info_flag(i);
    lemma_lt_at(key, s, k);
    crate::text::lemma_lex_flip(key, s);
    if starts_with(key, s) {
        assert(key.take(s.len() as int)[k] == key[k]);
    }
}

/// `info_order` is `Less` where the description's flag sorts before `key`
/// at position `k`, or is a prefix of it without taking a glued value.
proof fn lemma_probe_less(i: ArgInfoV, key: Seq<char>, k: int)
    requires
        0 <= k < key.len(),
        k <= info_flag(i).len(),
        forall|j: int| 0 <= j < k ==> info_flag(i)[j] == key[j],
        k < info_flag(i).len() ==> (info_flag(i)[k] as int) < (key[k] as int),
        k == info_flag(i).len() ==> glued_delimiter(i) is None,
    ensures
        info_order(i, key) == Order::Less,
{
    let s = info_flag(i);
    lemma_lt_at(s, key, k);
    if k < s.len() && starts_with(key, s) {
        assert(key.take(s.len() as int)[k] == key[k]);
    }
}

/// `info_order` is `Equal` for the description's own flag.
proof fn lemma_probe_equal(i: ArgInfoV, key: Seq<char>)
    requires
        info_flag(i) == key,
    ensures
        info_order(i, key) == Order::Equal,
{
    crate::text::lemma_lex_equal(key, key);
    assert(key.take(key.len() as int) =~= key);
}

/// `--allow` is looked up to its own entry of the rustc table.
proof fn lemma_search_allow()
    ensures
        spec_search(spec_rustc_table(), "--allow"@) == Some(1int),
{
    reveal_strlit("--allow");
    reveal_strlit("--cap-lints");
    reveal_strlit("--codegen");
    reveal_strlit("--diagnostic-width");
    reveal_strlit("--json");
    let t = spec_rustc_table();
    let key = "--allow"@;
    lemma_probe_equal(t[1], key);
    lemma_probe_greater(t[2], key, 2);
    lemma_probe_greater(t[5], key, 2);
    lemma_probe_greater(t[10], key, 2);
    lemma_probe_greater(t[20], key, 2);
    assert(bsearch_range(t, key, 2, 2) is None);
    assert(bsearch_range(t, key, 0, 2) == Some(1int));
    assert(bsearch_range(t, key, 0, 5) == Some(1int));
    assert(bsearch_range(t, key, 0, 10) == Some(1int));
    assert(bsearch_range(t, key, 0, 20) == Some(1int));
    assert(bsearch_range(t, key, 0, 41) == Some(1int));
}

/// `--cap-lints` is looked up to its own entry of the rustc table.
proof fn lemma_search_cap_lints()
    ensures
        spec_search(spec_rustc_table(), "--cap-lints"@) == Some(2int),
{
    reveal_strlit("--cap-lints");
    reveal_strlit("--cfg");
    reveal_strlit("--check-cfg");
    reveal_strlit("--codegen");
    reveal_strlit("--diagnostic-width");
    reveal_strlit("--json");
    let t = spec_rustc_table();
    let key = "--cap-lints"@;
    lemma_probe_greater(t[3], key, 3);
    lemma_probe_greater(t[4], key, 3);
    lemma_probe_equal(t[2], key);
    lemma_probe_greater(t[5], key, 3);
    lemma_probe_greater(t[10], key, 2);
    lemma_probe_greater(t[20], key, 2);
    assert(bsearch_range(t, key, 3, 3) is None);
    assert(bsearch_range(t, key, 3, 4) is None);
    assert(bsearch_range(t, key, 3, 5) is None);
    assert(bsearch_range(t, key, 0, 5) == Some(2int));
    assert(bsearch_range(t, key, 0, 10) == Some(2int));
    assert(bsearch_range(t, key, 0, 20) == Some(2int));
    assert(bsearch_range(t, key, 0, 41) == Some(2int));
}

/// `--deny` is looked up to its own entry of the rustc table.
proof fn lemma_search_deny()
    ensures
        spec_search(spec_rustc_table(), "--deny"@) == Some(9int),
{
    reveal_strlit("--codegen");
    reveal_strlit("--crate-type");
    reveal_strlit("--deny");
    reveal_strlit("--diagnostic-width");
    reveal_strlit("--json");
    let t = spec_rustc_table();
    let key = "--deny"@;
    lemma_probe_equal(t[9], key);
    lemma_probe_less(t[8], key, 2);
    lemma_probe_less(t[5], key, 2);
    lemma_probe_greater(t[10], key, 3);
    lemma_probe_greater(t[20], key, 2);
    assert(bsearch_range(t, key, 10, 10) is None);
    assert(bsearch_range(t, key, 9, 10) == Some(9int));
    assert(bsearch_range(t, key, 6, 10) == Some(9int));
    assert(bsearch_range(t, key, 0, 10) == Some(9int));
    assert(bsearch_range(t, key, 0, 20) == Some(9int));
    assert(bsearch_range(t, key, 0, 41) == Some(9int));
}

/// `--forbid` is looked up to its own entry of the rustc table.
proof fn lemma_search_forbid()
    ensures
        spec_search(spec_rustc_table(), "--forbid"@) == Some(17int),
{
    reveal_strlit("--diagnostic-width");
    reveal_strlit("--explain");
    reveal_strlit("--forbid");
    reveal_strlit("--force-warn");
    reveal_strlit("--json");
    let t = spec_rustc_table();
    let key = "--forbid"@;
    lemma_probe_equal(t[17], key);
    lemma_probe_greater(t[18], key, 5);
    lemma_probe_less(t[15], key, 2);
    lemma_probe_less(t[10], key, 2);
    lemma_probe_greater(t[20], key, 2);
    assert(bsearch_range(t, key, 18, 18) is None);
    assert(bsearch_range(t, key, 16, 18) == Some(17int));
    assert(bsearch_range(t, key, 16, 20) == Some(17int));
    assert(bsearch_range(t, key, 11, 20) == Some(17int));
    assert(bsearch_range(t, key, 0, 20) == Some(17int));
    assert(bsearch_range(t, key, 0, 41) == Some(17int));
}

/// `--force-warn` is looked up to its own entry of the rustc table.
proof fn lemma_search_force_warn()
    ensures
        spec_search(spec_rustc_table(), "--force-warn"@) == Some(18int),
{
    reveal_strlit("--diagnostic-width");
    reveal_strlit("--explain");
    reveal_strlit("--force-warn");
    reveal_strlit("--help");
    reveal_strlit("--json");
    let t = spec_rustc_table();
    let key = "--force-warn"@;
    lemma_probe_greater(t[19], key, 2);
    lemma_probe_equal(t[18], key);
    lemma_probe_less(t[15], key, 2);
    lemma_probe_less(t[10], key, 2);
    lemma_probe_greater(t[20], key, 2);
    assert(bsearch_range(t, key, 19, 19) is None);
    assert(bsearch_range(t, key, 19, 20) is None);
    assert(bsearch_range(t, key, 16, 20) == Some(18int));
    assert(bsearch_range(t, key, 11, 20) == Some(18int));
    assert(bsearch_range(t, key, 0, 20) == Some(18int));
    assert(bsearch_range(t, key, 0, 41) == Some(18int));
}

/// `--warn` is looked up to its own entry of the rustc table.
proof fn lemma_search_warn()
    ensures
        spec_search(spec_rustc_table(), "--warn"@) == Some(30int),
{
    reveal_strlit("--json");
    reveal_strlit("--sysroot");
    reveal_strlit("--version");
    reveal_strlit("--warn");
    reveal_strlit("-A");
    let t = spec_rustc_table();
    let key = "--warn"@;
    lemma_probe_equal(t[30], key);
    lemma_probe_less(t[29], key, 2);
    lemma_probe_less(t[26], key, 2);
    lemma_probe_greater(t[31], key, 1);
    lemma_probe_less(t[20], key, 2);
    assert(bsearch_range(t, key, 31, 31) is None);
    assert(bsearch_range(t, key, 30, 31) == Some(30int));
    assert(bsearch_range(t, key, 27, 31) == Some(30int));
    assert(bsearch_range(t, key, 21, 31) == Some(30int));
    assert(bsearch_range(t, key, 21, 41) == Some(30int));
    assert(bsearch_range(t, key, 0, 41) == Some(30int));
}

/// `-A` is looked up to its own entry of the rustc table.
proof fn lemma_search_a_short()
    ensures
        spec_search(spec_rustc_table(), "-A"@) == Some(31int),
{
    reveal_strlit("--json");
    reveal_strlit("-A");
    reveal_strlit("-C");
    reveal_strlit("-D");
    reveal_strlit("-F");
    reveal_strlit("-V");
    let t = spec_rustc_table();
    let key = "-A"@;
    lemma_probe_greater(t[32], key, 1);
    lemma_probe_greater(t[33], key, 1);
    lemma_probe_greater(t[34], key, 1);
    lemma_probe_greater(t[36], key, 1);
    lemma_probe_equal(t[31], key);
    lemma_probe_less(t[20], key, 1);
    assert(bsearch_range(t, key, 32, 32) is None);
    assert(bsearch_range(t, key, 32, 33) is None);
    assert(bsearch_range(t, key, 32, 34) is None);
    assert(bsearch_range(t, key, 32, 36) is None);
    assert(bsearch_range(t, key, 32, 41) is None);
    assert(bsearch_range(t, key, 21, 41) == Some(31int));
    assert(bsearch_range(t, key, 0, 41) == Some(31int));
}

/// `-D` is looked up to its own entry of the rustc table.
proof fn lemma_search_d_short()
    ensures
        spec_search(spec_rustc_table(), "-D"@) == Some(33int),
{
    reveal_strlit("--json");
    reveal_strlit("-A");
    reveal_strlit("-D");
    reveal_strlit("-F");
    reveal_strlit("-V");
    let t = spec_rustc_table();
    let key = "-D"@;
    lemma_probe_equal(t[33], key);
    lemma_probe_greater(t[34], key, 1);
    lemma_probe_greater(t[36], key, 1);
    lemma_probe_less(t[31], key, 1);
    lemma_probe_less(t[20], key, 1);
    assert(bsearch_range(t, key, 34, 34) is None);
    assert(bsearch_range(t, key, 32, 34) == Some(33int));
    assert(bsearch_range(t, key, 32, 36) == Some(33int));
    assert(bsearch_range(t, key, 32, 41) == Some(33int));
    assert(bsearch_range(t, key, 21, 41) == Some(33int));
    assert(bsearch_range(t, key, 0, 41) == Some(33int));
}

/// `-F` is looked up to its own entry of the rustc table.
proof fn lemma_search_f_short()
    ensures
        spec_search(spec_rustc_table(), "-F"@) == Some(34int),
{
    reveal_strlit("--json");
    reveal_strlit("-A");
    reveal_strlit("-F");
    reveal_strlit("-L");
    reveal_strlit("-V");
    let t = spec_rustc_table();
    let key = "-F"@;
    lemma_probe_greater(t[35], key, 1);
    lemma_probe_equal(t[34], key);
    lemma_probe_greater(t[36], key, 1);
    lemma_probe_less(t[31], key, 1);
    lemma_probe_less(t[20], key, 1);
    assert(bsearch_range(t, key, 35, 35) is None);
    assert(bsearch_range(t, key, 35, 36) is None);
    assert(bsearch_range(t, key, 32, 36) == Some(34int));
    assert(bsearch_range(t, key, 32, 41) == Some(34int));
    assert(bsearch_range(t, key, 21, 41) == Some(34int));
    assert(bsearch_range(t, key, 0, 41) == Some(34int));
}

/// `-W` is looked up to its own entry of the rustc table.
proof fn lemma_search_w_short()
    ensures
        spec_search(spec_rustc_table(), "-W"@) == Some(37int),
{
    reveal_strlit("--json");
    reveal_strlit("-A");
    reveal_strlit("-V");
    reveal_strlit("-W");
    reveal_strlit("-Z");
    reveal_strlit("-l");
    let t = spec_rustc_table();
    let key = "-W"@;
    lemma_probe_equal(t[37], key);
    lemma_probe_greater(t[38], key, 1);
    lemma_probe_greater(t[39], key, 1);
    lemma_probe_less(t[36], key, 1);
    lemma_probe_less(t[31], key, 1);
    lemma_probe_less(t[20], key, 1);
    assert(bsearch_range(t, key, 38, 38) is None);
    assert(bsearch_range(t, key, 37, 38) == Some(37int));
    assert(bsearch_range(t, key, 37, 39) == Some(37int));
    assert(bsearch_range(t, key, 37, 41) == Some(37int));
    assert(bsearch_range(t, key, 32, 41) == Some(37int));
    assert(bsearch_range(t, key, 21, 41) == Some(37int));
    assert(bsearch_range(t, key, 0, 41) == Some(37int));
}

/// The delimiter of a lint-level flag's glued value: `=` for the long
/// forms, none for the short ones (`-Awarnings`).
pub open spec fn lint_delimiter(flag: Seq<char>) -> Delimiter {
    if flag.len() > 2 {
        Some(61u8)
    } else {
        None
    }
}

/// The lint-level flags (`--allow`, `--cap-lints`, `--deny`, `--forbid`,
/// `--force-warn`, `--warn` and `-A`, `-D`, `-F`, `-W`) take their level as a
/// value that is passed through: `FLAG LEVEL` is read as one argument, which
/// the parse keeps (in separated form) without changing anything else of its
/// state, after whatever arguments came before, so it never makes a
/// compilation uncacheable.
pub proof fn law_lint_levels_pass_through(
    flag: Seq<char>,
    level: Seq<char>,
    fs: FileProbeV,
    st: ParseState,
    idx: int,
    cwd: Seq<char>,
    toks: Seq<Result<ArgumentV, ArgParseErrorV>>,
)
    requires
        flag == "--allow"@ || flag == "--cap-lints"@ || flag == "--deny"@ || flag == "--forbid"@ || flag == "--force-warn"@ || flag == "--warn"@ || flag == "-A"@ || flag == "-D"@ || flag == "-F"@ || flag == "-W"@,
    ensures
        spec_tokens(spec_rustc_table(), seq![flag, level], fs) == seq![
            Ok::<ArgumentV, ArgParseErrorV>(ArgumentV::WithValue(flag, ArgDataV::PassThrough(level), ArgDisposition::CanBeConcatenated(lint_delimiter(flag)))),
        ],
        step(st, idx, Ok(ArgumentV::WithValue(flag, ArgDataV::PassThrough(level), ArgDisposition::CanBeConcatenated(lint_delimiter(flag)))), cwd)
            == Step::Go(ParseState { args: st.args.push(ArgumentV::WithValue(flag, ArgDataV::PassThrough(level), ArgDisposition::Separated)), ..st }),
        run(toks, cwd) matches Step::Go(s0) ==> run(
            toks.push(Ok(ArgumentV::WithValue(flag, ArgDataV::PassThrough(level), ArgDisposition::CanBeConcatenated(lint_delimiter(flag))))),
            cwd,
        ) == Step::Go(ParseState { args: s0.args.push(ArgumentV::WithValue(flag, ArgDataV::PassThrough(level), ArgDisposition::Separated)), ..s0 }),
{
    reveal(spec_classify);
    reveal(step);
    let tok = Ok::<ArgumentV, ArgParseErrorV>(ArgumentV::WithValue(flag, ArgDataV::PassThrough(level), ArgDisposition::CanBeConcatenated(lint_delimiter(flag))));
    assert(toks.push(tok).drop_last() =~= toks);
    reveal_strlit("--allow");
    reveal_strlit("--cap-lints");
    reveal_strlit("--deny");
    reveal_strlit("--forbid");
    reveal_strlit("--force-warn");
    reveal_strlit("--warn");
    reveal_strlit("-A");
    reveal_strlit("-D");
    reveal_strlit("-F");
    reveal_strlit("-W");
    let t = spec_rustc_table();
    if flag == "--allow"@ {
        lemma_search_allow();
        assert(t[1int] == ArgInfoV::TakeArg(flag, ArgKind::PassThrough, ArgDisposition::CanBeSeparated(lint_delimiter(flag))));
    } else if flag == "--cap-lints"@ {
        lemma_search_cap_lints();
        assert(t[2int] == ArgInfoV::TakeArg(flag, ArgKind::PassThrough, ArgDisposition::CanBeSeparated(lint_delimiter(flag))));
    } else if flag == "--deny"@ {
        lemma_search_deny();
        assert(t[9int] == ArgInfoV::TakeArg(flag, ArgKind::PassThrough, ArgDisposition::CanBeSeparated(lint_delimiter(flag))));
    } else if flag == "--forbid"@ {
        lemma_search_forbid();
        assert(t[17int] == ArgInfoV::TakeArg(flag, ArgKind::PassThrough, ArgDisposition::CanBeSeparated(lint_delimiter(flag))));
    } else if flag == "--force-warn"@ {
        lemma_search_force_warn();
        assert(t[18int] == ArgInfoV::TakeArg(flag, ArgKind::PassThrough, ArgDisposition::CanBeSeparated(lint_delimiter(flag))));
    } else if flag == "--warn"@ {
        lemma_search_warn();
        assert(t[30int] == ArgInfoV::TakeArg(flag, ArgKind::PassThrough, ArgDisposition::CanBeSeparated(lint_delimiter(flag))));
    } else if flag == "-A"@ {
        lemma_search_a_short();
        assert(t[31int] == ArgInfoV::TakeArg(flag, ArgKind::PassThrough, ArgDisposition::CanBeSeparated(lint_delimiter(flag))));
    } else if flag == "-D"@ {
        lemma_search_d_short();
        assert(t[33int] == ArgInfoV::TakeArg(flag, ArgKind::PassThrough, ArgDisposition::CanBeSeparated(lint_delimiter(flag))));
    } else if flag == "-F"@ {
        lemma_search_f_short();
        assert(t[34int] == ArgInfoV::TakeArg(flag, ArgKind::PassThrough, ArgDisposition::CanBeSeparated(lint_delimiter(flag))));
    } else if flag == "-W"@ {
        lemma_search_w_short();
        assert(t[37int] == ArgInfoV::TakeArg(flag, ArgKind::PassThrough, ArgDisposition::CanBeSeparated(lint_delimiter(flag))));
    }
    let args = seq![flag, level];
    assert(args.skip(2) =~= Seq::<Seq<char>>::empty());
    assert(spec_tokens(t, args.skip(2), fs) =~= Seq::<Result<ArgumentV, ArgParseErrorV>>::empty());
}

} // verus!
