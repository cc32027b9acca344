//! Stable insertion into sorted sequences, with the matching executable
//! routines for character strings (by code point) and paths (by component).
use vstd::prelude::*;
use crate::text::{compare_chars, lex_le, lex_order, lemma_lex_flip, lemma_lex_le_total_ordering, lemma_lex_le_transitive, Order};
use vstd::relations::sorted_by;

verus! {

/// `x` inserted into `s` after every element that does not sort after it
/// (the insertion step of a stable insertion sort, under the strict order `lt`).
pub open spec fn insert_by<A>(s: Seq<A>, x: A, lt: spec_fn(A, A) -> bool) -> Seq<A>
    decreases s.len(),
{
    if s.len() == 0 {
        seq![x]
    } else if lt(x, s[0]) {
        seq![x] + s
    } else {
        seq![s[0]] + insert_by(s.drop_first(), x, lt)
    }
}

/// Stable sort of `s` under the strict order `lt`: elements that compare equal
/// keep their relative order.
pub open spec fn sort_stable<A>(s: Seq<A>, lt: spec_fn(A, A) -> bool) -> Seq<A>
    decreases s.len(),
{
    if s.len() == 0 {
        Seq::<A>::empty()
    } else {
        insert_by(sort_stable(s.drop_last(), lt), s.last(), lt)
    }
}

/// The position at which [`insert_by`] places `x`.
pub open spec fn insert_position<A>(s: Seq<A>, x: A, lt: spec_fn(A, A) -> bool) -> int
    decreases s.len(),
{
    if s.len() == 0 {
        0
    } else if lt(x, s[0]) {
        0
    } else {
        1 + insert_position(s.drop_first(), x, lt)
    }
}

/// [`insert_by`] splices `x` in at [`insert_position`].
pub proof fn lemma_insert_by_splice<A>(s: Seq<A>, x: A, lt: spec_fn(A, A) -> bool)
    ensures
        0 <= insert_position(s, x, lt) <= s.len(),
        insert_by(s, x, lt) == s.take(insert_position(s, x, lt)) + seq![x] + s.skip(
            insert_position(s, x, lt),
        ),
    decreases s.len(),
{
    if s.len() == 0 {
        assert(s.take(0) + seq![x] + s.skip(0) =~= seq![x]);
    } else if lt(x, s[0]) {
        assert(s.take(0) + seq![x] + s.skip(0) =~= seq![x] + s);
    } else {
        lemma_insert_by_splice(s.drop_first(), x, lt);
        let k = insert_position(s.drop_first(), x, lt);
        assert(seq![s[0]] + (s.drop_first().take(k) + seq![x] + s.drop_first().skip(k)) =~= s.take(
            k + 1,
        ) + seq![x] + s.skip(k + 1));
    }
}

/// Characterises [`insert_position`]: the first index whose element sorts after `x`.
pub proof fn lemma_insert_position<A>(s: Seq<A>, x: A, lt: spec_fn(A, A) -> bool, k: int)
    requires
        0 <= k <= s.len(),
        forall|j: int| 0 <= j < k ==> !lt(x, #[trigger] s[j]),
        k < s.len() ==> lt(x, s[k]),
    ensures
        insert_position(s, x, lt) == k,
    decreases s.len(),
{
    if s.len() > 0 && k > 0 {
        assert(!lt(x, s[0]));
        assert forall|j: int| 0 <= j < k - 1 implies !lt(x, #[trigger] s.drop_first()[j]) by {
            assert(s.drop_first()[j] == s[j + 1]);
        }
        lemma_insert_position(s.drop_first(), x, lt, k - 1);
    }
}

/// Strict code-point order on strings.
pub open spec fn lex_lt(a: Seq<char>, b: Seq<char>) -> bool {
    lex_order(a, b) == Order::Less
}

/// Sorts `v` by code point, stably (`[T]::sort` on strings).
pub fn sort_strings(v: &mut Vec<Vec<char>>)
    ensures
        final(v)@.map_values(|x: Vec<char>| x@) == sort_stable(
            old(v)@.map_values(|x: Vec<char>| x@),
            |a: Seq<char>, b: Seq<char>| lex_lt(a, b),
        ),
{
    let ghost lt = |a: Seq<char>, b: Seq<char>| lex_lt(a, b);
    let ghost orig = v@.map_values(|x: Vec<char>| x@);
    let mut input: Vec<Vec<char>> = Vec::new();
    std::mem::swap(&mut input, v);
    let mut out: Vec<Vec<char>> = Vec::new();
    let mut i: usize = 0;
    while i < input.len()
        invariant
            0 <= i <= input.len(),
            orig == input@.map_values(|x: Vec<char>| x@),
            lt == (|a: Seq<char>, b: Seq<char>| lex_lt(a, b)),
            out@.map_values(|x: Vec<char>| x@) == sort_stable(orig.take(i as int), lt),
        decreases input.len() - i,
    {
        let x = input[i].clone();
        let ghost sorted = out@.map_values(|y: Vec<char>| y@);
        let mut k: usize = 0;
        let mut go = k < out.len();
        while go
            invariant
                0 <= k <= out.len(),
                sorted == out@.map_values(|y: Vec<char>| y@),
                lt == (|a: Seq<char>, b: Seq<char>| lex_lt(a, b)),
                forall|j: int| 0 <= j < k ==> !lt(x@, #[trigger] sorted[j]),
                go ==> k < out.len(),
                !go ==> (k == out.len() || lt(x@, sorted[k as int])),
            decreases out.len() - k + (if go { 1int } else { 0int }),
        {
            if compare_chars(x.as_slice(), out[k].as_slice()) == Order::Less {
                go = false;
            } else {
                k = k + 1;
                go = k < out.len();
            }
        }
        proof {
            lemma_insert_position(sorted, x@, lt, k as int);
            lemma_insert_by_splice(sorted, x@, lt);
            assert(orig.take(i + 1).drop_last() =~= orig.take(i as int));
            assert(orig.take(i + 1).last() == x@);
        }
        out.insert(k, x);
        assert(out@.map_values(|y: Vec<char>| y@) =~= sorted.take(k as int) + seq![x@] + sorted.skip(k as int));
        i = i + 1;
    }
    assert(orig.take(input.len() as int) =~= orig);
    *v = out;
}

/// Inserting into a sorted sequence of strings keeps it sorted and adds one
/// occurrence of the inserted string.
proof fn lemma_insert_lex(s: Seq<Seq<char>>, x: Seq<char>)
    requires
        sorted_by(s, |a: Seq<char>, b: Seq<char>| lex_le(a, b)),
    ensures
        sorted_by(insert_by(s, x, |a: Seq<char>, b: Seq<char>| lex_lt(a, b)), |a: Seq<char>, b: Seq<char>| lex_le(a, b)),
        insert_by(s, x, |a: Seq<char>, b: Seq<char>| lex_lt(a, b)).to_multiset() == s.to_multiset().insert(x),
    decreases s.len(),
{
    broadcast use vstd::seq_lib::group_to_multiset_ensures;
    let lt = |a: Seq<char>, b: Seq<char>| lex_lt(a, b);
    let le = |a: Seq<char>, b: Seq<char>| lex_le(a, b);
    let r = insert_by(s, x, lt);
    if s.len() == 0 {
        assert(r =~= Seq::<Seq<char>>::empty().insert(0, x));
    } else if lt(x, s[0]) {
        assert(r =~= s.insert(0, x));
        assert forall|i: int, j: int| 0 <= i < j < r.len() implies #[trigger] le(r[i], r[j]) by {
            if i == 0 {
                if j > 1 {
                    assert(le(s[0], s[j - 1]));
                    lemma_lex_le_transitive(x, s[0], s[j - 1]);
                }
            } else {
                assert(le(s[i - 1], s[j - 1]));
            }
        }
    } else {
        let rest = s.drop_first();
        assert(sorted_by(rest, le)) by {
            assert forall|i: int, j: int| 0 <= i < j < rest.len() implies #[trigger] le(rest[i], rest[j]) by {
                assert(le(s[i + 1], s[j + 1]));
            }
        }
        lemma_insert_lex(rest, x);
        let r2 = insert_by(rest, x, lt);
        assert(r =~= r2.insert(0, s[0]));
        assert(s =~= rest.insert(0, s[0]));
        lemma_lex_flip(x, s[0]);
        assert(le(s[0], x));
        assert forall|i: int, j: int| 0 <= i < j < r.len() implies #[trigger] le(r[i], r[j]) by {
            if i == 0 {
                let y = r2[j - 1];
                assert(r2.contains(y));
                assert(r2.to_multiset().count(y) > 0);
                if y != x {
                    assert(rest.to_multiset().count(y) > 0);
                    assert(rest.contains(y));
                    let k = choose|k: int| 0 <= k < rest.len() && rest[k] == y;
                    assert(le(s[0], s[k + 1]));
                }
            } else {
                assert(le(r2[i - 1], r2[j - 1]));
            }
        }
    }
}

/// A stable sort of strings is sorted and holds the same strings.
pub proof fn lemma_sort_strings_sorted(s: Seq<Seq<char>>)
    ensures
        sorted_by(sort_stable(s, |a: Seq<char>, b: Seq<char>| lex_lt(a, b)), |a: Seq<char>, b: Seq<char>| lex_le(a, b)),
        sort_stable(s, |a: Seq<char>, b: Seq<char>| lex_lt(a, b)).to_multiset() == s.to_multiset(),
    decreases s.len(),
{
    broadcast use vstd::seq_lib::group_to_multiset_ensures;
    if s.len() > 0 {
        lemma_sort_strings_sorted(s.drop_last());
        lemma_insert_lex(sort_stable(s.drop_last(), |a: Seq<char>, b: Seq<char>| lex_lt(a, b)), s.last());
        assert(s =~= s.drop_last().push(s.last()));
    }
}

/// Sorting strings forgets their order: two sequences holding the same
/// strings, in any order, sort to the same sequence.
pub proof fn lemma_sort_strings_permutation(a: Seq<Seq<char>>, b: Seq<Seq<char>>)
    requires
        a.to_multiset() == b.to_multiset(),
    ensures
        sort_stable(a, |x: Seq<char>, y: Seq<char>| lex_lt(x, y)) == sort_stable(b, |x: Seq<char>, y: Seq<char>| lex_lt(x, y)),
{
    lemma_sort_strings_sorted(a);
    lemma_sort_strings_sorted(b);
    lemma_lex_le_total_ordering();
    vstd::seq_lib::lemma_sorted_unique(
        sort_stable(a, |x: Seq<char>, y: Seq<char>| lex_lt(x, y)),
        sort_stable(b, |x: Seq<char>, y: Seq<char>| lex_lt(x, y)),
        |x: Seq<char>, y: Seq<char>| lex_le(x, y),
    );
}

/// The strict code-point order as a relation.
pub open spec fn by_code_point() -> spec_fn(Seq<char>, Seq<char>) -> bool {
    |a: Seq<char>, b: Seq<char>| lex_lt(a, b)
}

/// Every string sorts strictly before the ones after it (so none repeats).
pub open spec fn strictly_sorted(s: Seq<Seq<char>>) -> bool {
    forall|i: int, j: int| 0 <= i < j < s.len() ==> lex_lt(#[trigger] s[i], #[trigger] s[j])
}

/// The strict order is irreflexive and asymmetric, and two distinct strings
/// are ordered one way or the other.
pub proof fn lemma_lt_facts(a: Seq<char>, b: Seq<char>)
    ensures
        !lex_lt(a, a),
        lex_lt(a, b) ==> !lex_lt(b, a),
        a != b && !lex_lt(a, b) ==> lex_lt(b, a),
{
    crate::text::lemma_lex_equal(a, a);
    crate::text::lemma_lex_equal(a, b);
    lemma_lex_flip(a, b);
    lemma_lex_flip(b, a);
}

/// The strict order is transitive.
pub proof fn lemma_lt_transitive(a: Seq<char>, b: Seq<char>, c: Seq<char>)
    requires
        lex_lt(a, b),
        lex_lt(b, c),
    ensures
        lex_lt(a, c),
{
    lemma_lex_flip(a, b);
    lemma_lex_flip(b, c);
    lemma_lex_le_transitive(a, b, c);
    crate::text::lemma_lex_equal(a, c);
    if a == c {
        lemma_lt_facts(a, b);
    }
}

/// `a` sorts before `b` when the two agree on their first `k` characters
/// and then `a` ends while `b` goes on, or `a`'s next character is smaller.
pub proof fn lemma_lt_at(a: Seq<char>, b: Seq<char>, k: int)
    requires
        0 <= k <= a.len(),
        k < b.len(),
        forall|i: int| 0 <= i < k ==> a[i] == b[i],
        k < a.len() ==> (a[k] as int) < (b[k] as int),
    ensures
        lex_lt(a, b),
    decreases k,
{
    if k > 0 {
        lemma_lt_at(a.drop_first(), b.drop_first(), k - 1);
    }
}

/// Inserting a new string into a strictly sorted sequence keeps it strictly
/// sorted and adds just that string.
pub proof fn lemma_insert_strict(s: Seq<Seq<char>>, x: Seq<char>)
    requires
        strictly_sorted(s),
        !s.contains(x),
    ensures
        strictly_sorted(insert_by(s, x, by_code_point())),
        forall|y: Seq<char>| #[trigger] insert_by(s, x, by_code_point()).contains(y) <==> (s.contains(y) || y == x),
    decreases s.len(),
{
    let lt = by_code_point();
    let r = insert_by(s, x, lt);
    if s.len() == 0 {
        assert(r =~= seq![x]);
        assert forall|y: Seq<char>| #[trigger] r.contains(y) <==> (s.contains(y) || y == x) by {
            if r.contains(y) {
                assert(r[0] == x);
            }
            if y == x {
                assert(r[0] == y);
            }
        }
    } else if lt(x, s[0]) {
        assert(r =~= seq![x] + s);
        assert forall|i: int, j: int| 0 <= i < j < r.len() implies lex_lt(#[trigger] r[i], #[trigger] r[j]) by {
            if i == 0 {
                if j > 1 {
                    lemma_lt_transitive(x, s[0], s[j - 1]);
                }
            } else {
                assert(lex_lt(s[i - 1], s[j - 1]));
            }
        }
        assert forall|y: Seq<char>| #[trigger] r.contains(y) <==> (s.contains(y) || y == x) by {
            if r.contains(y) {
                let k = choose|k: int| 0 <= k < r.len() && r[k] == y;
                if k > 0 {
                    assert(s[k - 1] == y);
                }
            }
            if s.contains(y) {
                let k = choose|k: int| 0 <= k < s.len() && s[k] == y;
                assert(r[k + 1] == y);
            }
            if y == x {
                assert(r[0] == y);
            }
        }
    } else {
        let rest = s.drop_first();
        assert(strictly_sorted(rest)) by {
            assert forall|i: int, j: int| 0 <= i < j < rest.len() implies lex_lt(#[trigger] rest[i], #[trigger] rest[j]) by {
                assert(lex_lt(s[i + 1], s[j + 1]));
            }
        }
        assert(!rest.contains(x)) by {
            if rest.contains(x) {
                let k = choose|k: int| 0 <= k < rest.len() && rest[k] == x;
                assert(s[k + 1] == x);
            }
        }
        lemma_insert_strict(rest, x);
        let r2 = insert_by(rest, x, lt);
        assert(r =~= seq![s[0]] + r2);
        assert(x != s[0]) by {
            assert(s[0] == s[0]);
        }
        lemma_lt_facts(x, s[0]);
        assert(lex_lt(s[0], x));
        assert forall|i: int, j: int| 0 <= i < j < r.len() implies lex_lt(#[trigger] r[i], #[trigger] r[j]) by {
            if i == 0 {
                let y = r2[j - 1];
                assert(r2.contains(y));
                if y != x {
                    assert(rest.contains(y));
                    let k = choose|k: int| 0 <= k < rest.len() && rest[k] == y;
                    assert(lex_lt(s[0], s[k + 1]));
                }
            } else {
                assert(lex_lt(r2[i - 1], r2[j - 1]));
            }
        }
        assert forall|y: Seq<char>| #[trigger] r.contains(y) <==> (s.contains(y) || y == x) by {
            if r.contains(y) {
                let k = choose|k: int| 0 <= k < r.len() && r[k] == y;
                if k > 0 {
                    assert(r2.contains(y));
                    if rest.contains(y) {
                        let m = choose|m: int| 0 <= m < rest.len() && rest[m] == y;
                        assert(s[m + 1] == y);
                    }
                } else {
                    assert(s[0] == y);
                }
            }
            if s.contains(y) {
                let k = choose|k: int| 0 <= k < s.len() && s[k] == y;
                if k > 0 {
                    assert(rest[k - 1] == y);
                    assert(r2.contains(y));
                    let m = choose|m: int| 0 <= m < r2.len() && r2[m] == y;
                    assert(r[m + 1] == y);
                } else {
                    assert(r[0] == y);
                }
            }
            if y == x {
                assert(r2.contains(y));
                let m = choose|m: int| 0 <= m < r2.len() && r2[m] == y;
                assert(r[m + 1] == y);
            }
        }
    }
}

/// Two strictly sorted sequences that hold the same strings are equal.
pub proof fn lemma_strict_unique(a: Seq<Seq<char>>, b: Seq<Seq<char>>)
    requires
        strictly_sorted(a),
        strictly_sorted(b),
        forall|y: Seq<char>| a.contains(y) <==> b.contains(y),
    ensures
        a == b,
    decreases a.len(),
{
    if a.len() == 0 {
        if b.len() > 0 {
            assert(b.contains(b[0]));
        }
        assert(a =~= b);
    } else {
        assert(a.contains(a[0]));
        assert(b.len() > 0);
        assert(b.contains(b[0]));
        let k = choose|k: int| 0 <= k < b.len() && b[k] == a[0];
        let m = choose|m: int| 0 <= m < a.len() && a[m] == b[0];
        if a[0] != b[0] {
            assert(k > 0 && m > 0);
            assert(lex_lt(b[0], b[k]));
            assert(lex_lt(a[0], a[m]));
            lemma_lt_facts(a[0], b[0]);
        }
        let a2 = a.drop_first();
        let b2 = b.drop_first();
        assert(strictly_sorted(a2)) by {
            assert forall|i: int, j: int| 0 <= i < j < a2.len() implies lex_lt(#[trigger] a2[i], #[trigger] a2[j]) by {
                assert(lex_lt(a[i + 1], a[j + 1]));
            }
        }
        assert(strictly_sorted(b2)) by {
            assert forall|i: int, j: int| 0 <= i < j < b2.len() implies lex_lt(#[trigger] b2[i], #[trigger] b2[j]) by {
                assert(lex_lt(b[i + 1], b[j + 1]));
            }
        }
        assert forall|y: Seq<char>| a2.contains(y) <==> b2.contains(y) by {
            if a2.contains(y) {
                let i = choose|i: int| 0 <= i < a2.len() && a2[i] == y;
                assert(a[i + 1] == y);
                assert(lex_lt(a[0], a[i + 1]));
                lemma_lt_facts(a[0], y);
                assert(b.contains(y));
                let j = choose|j: int| 0 <= j < b.len() && b[j] == y;
                assert(j != 0);
                assert(b2[j - 1] == y);
            }
            if b2.contains(y) {
                let i = choose|i: int| 0 <= i < b2.len() && b2[i] == y;
                assert(b[i + 1] == y);
                assert(lex_lt(b[0], b[i + 1]));
                lemma_lt_facts(b[0], y);
                assert(a.contains(y));
                let j = choose|j: int| 0 <= j < a.len() && a[j] == y;
                assert(j != 0);
                assert(a2[j - 1] == y);
            }
        }
        lemma_strict_unique(a2, b2);
        assert(a =~= seq![a[0]] + a2);
        assert(b =~= seq![b[0]] + b2);
    }
}

} // verus!
