//! A model of Unix paths as character strings: `PathBuf::push`/`join`,
//! component decomposition, `file_name`, `extension`, and the
//! component-wise order that `PathBuf` uses for `Ord`.
use vstd::prelude::*;
use crate::text::{
    chars_of, compare_chars, lex_order, push_chars, slice_chars, split, split_chars, Order,
    first_index, find_char,
};
use crate::sorting::{insert_by, insert_position, lemma_insert_by_splice, lemma_insert_position, sort_stable};

verus! {

/// One component of a path.
pub enum Comp {
    Root,
    Cur,
    Parent,
    Normal(Seq<char>),
}

/// Executable path component.
#[derive(Debug)]
pub enum PathComponent {
    Root,
    Cur,
    Parent,
    Normal(Vec<char>),
}

impl View for PathComponent {
    type V = Comp;

    open spec fn view(&self) -> Comp {
        match self {
            PathComponent::Root => Comp::Root,
            PathComponent::Cur => Comp::Cur,
            PathComponent::Parent => Comp::Parent,
            PathComponent::Normal(v) => Comp::Normal(v@),
        }
    }
}

/// The component a `/`-separated segment stands for, if any: empty segments
/// and `.` vanish, `..` is the parent.
pub open spec fn segment_component(s: Seq<char>) -> Option<Comp> {
    if s.len() == 0 || s == seq!['.'] {
        None
    } else if s == seq!['.', '.'] {
        Some(Comp::Parent)
    } else {
        Some(Comp::Normal(s))
    }
}

/// Components of a list of segments.
pub open spec fn segment_components(ss: Seq<Seq<char>>) -> Seq<Comp>
    decreases ss.len(),
{
    if ss.len() == 0 {
        Seq::<Comp>::empty()
    } else {
        let r = segment_components(ss.drop_last());
        match segment_component(ss.last()) {
            Some(c) => r.push(c),
            None => r,
        }
    }
}

/// Whether the path starts with `/`.
pub open spec fn is_absolute(p: Seq<char>) -> bool {
    p.len() > 0 && p[0] == '/'
}

/// The leading component, if any: the root, or a leading `.` of a relative path.
pub open spec fn head_components(p: Seq<char>) -> Seq<Comp> {
    if is_absolute(p) {
        seq![Comp::Root]
    } else if p.len() > 0 && p[0] == '.' && (p.len() == 1 || p[1] == '/') {
        seq![Comp::Cur]
    } else {
        Seq::<Comp>::empty()
    }
}

/// `Path::components`.
pub open spec fn components(p: Seq<char>) -> Seq<Comp> {
    head_components(p) + segment_components(split(p, '/'))
}

/// `Path::file_name`: the last component when it is a normal one.
pub open spec fn file_name(p: Seq<char>) -> Option<Seq<char>> {
    let c = components(p);
    if c.len() > 0 {
        match c.last() {
            Comp::Normal(n) => Some(n),
            _ => None,
        }
    } else {
        None
    }
}

/// Index of the last `.` in `s`, or -1.
pub open spec fn last_dot(s: Seq<char>) -> int
    decreases s.len(),
{
    if s.len() == 0 {
        -1
    } else if s.last() == '.' {
        s.len() - 1
    } else {
        last_dot(s.drop_last())
    }
}

/// The extension of a file name (the text after its last `.`), as
/// `Path::extension` computes it: none for `..`, for names without a dot and
/// for names whose only dot leads.
pub open spec fn name_extension(name: Seq<char>) -> Option<Seq<char>> {
    let i = last_dot(name);
    if name == seq!['.', '.'] || i <= 0 {
        None
    } else {
        Some(name.skip(i + 1))
    }
}

/// `Path::extension`.
pub open spec fn extension(p: Seq<char>) -> Option<Seq<char>> {
    match file_name(p) {
        Some(n) => name_extension(n),
        None => None,
    }
}

/// `base.join(p)` for Unix paths.
pub open spec fn path_join(base: Seq<char>, p: Seq<char>) -> Seq<char> {
    if is_absolute(p) {
        p
    } else if base.len() > 0 && base.last() != '/' {
        base + seq!['/'] + p
    } else {
        base + p
    }
}

/// Exec form of [`path_join`].
pub fn join_path(base: &[char], p: &[char]) -> (r: Vec<char>)
    ensures
        r@ == path_join(base@, p@),
{
    if p.len() > 0 && p[0] == '/' {
        return slice_chars(p, 0, p.len());
    }
    let mut r = slice_chars(base, 0, base.len());
    if base.len() > 0 && base[base.len() - 1] != '/' {
        r.push('/');
    }
    push_chars(&mut r, p);
    assert(base@.subrange(0, base@.len() as int) =~= base@);
    r
}

fn component_of_segment(s: &Vec<char>) -> (r: Option<PathComponent>)
    ensures
        match r {
            Some(c) => segment_component(s@) == Some(c@),
            None => segment_component(s@) is None,
        },
{
    if s.len() == 0 || (s.len() == 1 && s[0] == '.') {
        proof {
            if s.len() == 1 {
                assert(s@ =~= seq!['.']);
            }
        }
        None
    } else if s.len() == 2 && s[0] == '.' && s[1] == '.' {
        assert(s@ =~= seq!['.', '.']);
        Some(PathComponent::Parent)
    } else {
        proof {
            if s@ == seq!['.'] {
                assert(s@.len() == 1);
            }
            if s@ == seq!['.', '.'] {
                assert(s@[0] == '.' && s@[1] == '.');
            }
        }
        Some(PathComponent::Normal(s.clone()))
    }
}

/// Exec form of [`components`].
pub fn path_components(p: &[char]) -> (r: Vec<PathComponent>)
    ensures
        r@.map_values(|c: PathComponent| c@) == components(p@),
{
    let mut out: Vec<PathComponent> = Vec::new();
    if p.len() > 0 && p[0] == '/' {
        out.push(PathComponent::Root);
    } else if p.len() > 0 && p[0] == '.' && (p.len() == 1 || p[1] == '/') {
        out.push(PathComponent::Cur);
    }
    let ghost head = out@.map_values(|c: PathComponent| c@);
    assert(head =~= head_components(p@));
    let segs = split_chars(p, '/');
    let ghost ss = split(p@, '/');
    let mut i: usize = 0;
    while i < segs.len()
        invariant
            0 <= i <= segs.len(),
            segs@.len() == ss.len(),
            ss == split(p@, '/'),
            forall|j: int| 0 <= j < segs@.len() ==> #[trigger] segs@[j]@ == ss[j],
            out@.map_values(|c: PathComponent| c@) == head + segment_components(ss.take(i as int)),
        decreases segs.len() - i,
    {
        let c = component_of_segment(&segs[i]);
        proof {
            assert(ss.take(i + 1).drop_last() =~= ss.take(i as int));
            assert(ss.take(i + 1).last() == segs@[i as int]@);
        }
        match c {
            Some(c) => {
                let ghost before = out@.map_values(|x: PathComponent| x@);
                out.push(c);
                assert(out@.map_values(|x: PathComponent| x@) =~= before.push(c@));
            },
            None => {},
        }
        i = i + 1;
    }
    assert(ss.take(segs.len() as int) =~= ss);
    out
}

/// Exec form of [`file_name`].
pub fn path_file_name(p: &[char]) -> (r: Option<Vec<char>>)
    ensures
        r is Some <==> file_name(p@) is Some,
        r is Some ==> r.unwrap()@ == file_name(p@).unwrap(),
{
    let comps = path_components(p);
    if comps.len() == 0 {
        return None;
    }
    let ghost cv = comps@.map_values(|c: PathComponent| c@);
    assert(cv.last() == comps@[comps@.len() - 1]@);
    match &comps[comps.len() - 1] {
        PathComponent::Normal(n) => Some(n.clone()),
        _ => None,
    }
}

fn last_dot_index(s: &[char]) -> (r: Option<usize>)
    ensures
        match r {
            Some(i) => last_dot(s@) == i && i < s.len(),
            None => last_dot(s@) == -1,
        },
{
    let mut i: usize = s.len();
    proof {
        assert(s@.take(s.len() as int) =~= s@);
    }
    while i > 0
        invariant
            0 <= i <= s.len(),
            last_dot(s@) == last_dot(s@.take(i as int)),
        decreases i,
    {
        assert(s@.take(i as int).last() == s@[i - 1]);
        assert(s@.take(i as int).drop_last() =~= s@.take(i - 1));
        if s[i - 1] == '.' {
            return Some(i - 1);
        }
        i = i - 1;
    }
    None
}

/// Exec form of [`extension`].
pub fn path_extension(p: &[char]) -> (r: Option<Vec<char>>)
    ensures
        r is Some <==> extension(p@) is Some,
        r is Some ==> r.unwrap()@ == extension(p@).unwrap(),
{
    match path_file_name(p) {
        None => None,
        Some(n) => {
            let is_dotdot = n.len() == 2 && n[0] == '.' && n[1] == '.';
            proof {
                if is_dotdot {
                    assert(n@ =~= seq!['.', '.']);
                }
                if n@ == seq!['.', '.'] {
                    assert(n@[0] == '.' && n@[1] == '.');
                }
            }
            match last_dot_index(n.as_slice()) {
                Some(i) => {
                    if is_dotdot || i == 0 {
                        None
                    } else {
                        let e = slice_chars(n.as_slice(), i + 1, n.len());
                        assert(e@ =~= n@.skip(i + 1));
                        Some(e)
                    }
                },
                None => None,
            }
        },
    }
}


/// Rank of a component kind in `Component`'s derived order.
pub open spec fn comp_rank(c: Comp) -> int {
    match c {
        Comp::Root => 0,
        Comp::Cur => 1,
        Comp::Parent => 2,
        Comp::Normal(_) => 3,
    }
}

/// Order of two components: by kind, then by name.
pub open spec fn comp_order(a: Comp, b: Comp) -> Order {
    if comp_rank(a) < comp_rank(b) {
        Order::Less
    } else if comp_rank(a) > comp_rank(b) {
        Order::Greater
    } else {
        match (a, b) {
            (Comp::Normal(x), Comp::Normal(y)) => lex_order(x, y),
            _ => Order::Equal,
        }
    }
}

/// Lexicographic order of component sequences.
pub open spec fn comps_order(a: Seq<Comp>, b: Seq<Comp>) -> Order
    decreases a.len(),
{
    if a.len() == 0 {
        if b.len() == 0 {
            Order::Equal
        } else {
            Order::Less
        }
    } else if b.len() == 0 {
        Order::Greater
    } else if comp_order(a[0], b[0]) != Order::Equal {
        comp_order(a[0], b[0])
    } else {
        comps_order(a.drop_first(), b.drop_first())
    }
}

/// `PathBuf`'s order: component-wise.
pub open spec fn path_order(a: Seq<char>, b: Seq<char>) -> Order {
    comps_order(components(a), components(b))
}

/// Strict path order.
pub open spec fn path_lt(a: Seq<char>, b: Seq<char>) -> bool {
    path_order(a, b) == Order::Less
}

fn compare_component(a: &PathComponent, b: &PathComponent) -> (r: Order)
    ensures
        r == comp_order(a@, b@),
{
    let ra: u8 = match a {
        PathComponent::Root => 0,
        PathComponent::Cur => 1,
        PathComponent::Parent => 2,
        PathComponent::Normal(_) => 3,
    };
    let rb: u8 = match b {
        PathComponent::Root => 0,
        PathComponent::Cur => 1,
        PathComponent::Parent => 2,
        PathComponent::Normal(_) => 3,
    };
    assert(ra == comp_rank(a@) && rb == comp_rank(b@));
    if ra < rb {
        Order::Less
    } else if ra > rb {
        Order::Greater
    } else {
        match (a, b) {
            (PathComponent::Normal(x), PathComponent::Normal(y)) => compare_chars(x.as_slice(), y.as_slice()),
            _ => Order::Equal,
        }
    }
}

/// Exec form of [`path_order`].
pub fn compare_paths(a: &[char], b: &[char]) -> (r: Order)
    ensures
        r == path_order(a@, b@),
{
    let ca = path_components(a);
    let cb = path_components(b);
    let ghost va = ca@.map_values(|c: PathComponent| c@);
    let ghost vb = cb@.map_values(|c: PathComponent| c@);
    assert(va =~= components(a@));
    assert(vb =~= components(b@));
    let mut i: usize = 0;
    assert(va.skip(0) =~= va && vb.skip(0) =~= vb);
    while i < ca.len() && i < cb.len()
        invariant
            0 <= i <= ca.len(),
            i <= cb.len(),
            va == ca@.map_values(|c: PathComponent| c@),
            vb == cb@.map_values(|c: PathComponent| c@),
            va == components(a@),
            vb == components(b@),
            comps_order(va, vb) == comps_order(va.skip(i as int), vb.skip(i as int)),
        decreases ca.len() - i,
    {
        let o = compare_component(&ca[i], &cb[i]);
        assert(va.skip(i as int)[0] == ca@[i as int]@ && vb.skip(i as int)[0] == cb@[i as int]@);
        if o != Order::Equal {
            assert(va.skip(i as int).len() > 0 && vb.skip(i as int).len() > 0);
            assert(comps_order(va.skip(i as int), vb.skip(i as int)) == o);
            return o;
        }
        assert(va.skip(i as int).drop_first() =~= va.skip(i + 1));
        assert(vb.skip(i as int).drop_first() =~= vb.skip(i + 1));
        i = i + 1;
    }
    if i < ca.len() {
        Order::Greater
    } else if i < cb.len() {
        Order::Less
    } else {
        Order::Equal
    }
}

/// Sorts `v` by path order, stably (`[PathBuf]::sort`).
pub fn sort_paths(v: &mut Vec<String>)
    ensures
        final(v)@.map_values(|x: String| x@) == sort_stable(
            old(v)@.map_values(|x: String| x@),
            |a: Seq<char>, b: Seq<char>| path_lt(a, b),
        ),
{
    let ghost lt = |a: Seq<char>, b: Seq<char>| path_lt(a, b);
    let ghost orig = v@.map_values(|x: String| x@);
    let mut input: Vec<String> = Vec::new();
    std::mem::swap(&mut input, v);
    let mut out: Vec<String> = Vec::new();
    let mut i: usize = 0;
    while i < input.len()
        invariant
            0 <= i <= input.len(),
            orig == input@.map_values(|x: String| x@),
            lt == (|a: Seq<char>, b: Seq<char>| path_lt(a, b)),
            out@.map_values(|x: String| x@) == sort_stable(orig.take(i as int), lt),
        decreases input.len() - i,
    {
        let x = input[i].clone();
        let xc = chars_of(x.as_str());
        let ghost sorted = out@.map_values(|y: String| y@);
        let mut k: usize = 0;
        let mut go = k < out.len();
        while go
            invariant
                0 <= k <= out.len(),
                xc@ == x@,
                sorted == out@.map_values(|y: String| y@),
                lt == (|a: Seq<char>, b: Seq<char>| path_lt(a, b)),
                forall|j: int| 0 <= j < k ==> !lt(x@, #[trigger] sorted[j]),
                go ==> k < out.len(),
                !go ==> (k == out.len() || lt(x@, sorted[k as int])),
            decreases out.len() - k + (if go { 1int } else { 0int }),
        {
            let yc = chars_of(out[k].as_str());
            if compare_paths(xc.as_slice(), yc.as_slice()) == Order::Less {
                go = false;
            } else {
                k = k + 1;
                go = k < out.len();
            }
        }
        proof {
            lemma_insert_position(sorted, x@, lt, k as int);
            lemma_insert_by_splice(sorted, x@, lt);
            assert(orig.take(i + 1).drop_last() =~= orig.take(i as int));
            assert(orig.take(i + 1).last() == x@);
        }
        out.insert(k, x);
        assert(out@.map_values(|y: String| y@) =~= sorted.take(k as int) + seq![x@] + sorted.skip(k as int));
        i = i + 1;
    }
    assert(orig.take(input.len() as int) =~= orig);
    *v = out;
}
} // verus!
