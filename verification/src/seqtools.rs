//! Small sequence combinators shared by the data model and the checks:
//! concatenation of message blocks, first-match lookup, order-preserving
//! deduplication, and joining with a separator.
use vstd::prelude::*;

verus! {

/// Concatenation of a sequence of blocks into one flat sequence.
pub open spec fn cat<A>(s: Seq<Seq<A>>) -> Seq<A>
    decreases s.len(),
{
    if s.len() == 0 {
        Seq::empty()
    } else {
        cat(s.drop_last()) + s.last()
    }
}

pub proof fn lemma_cat_push<A>(s: Seq<Seq<A>>, x: Seq<A>)
    ensures
        cat(s.push(x)) == cat(s) + x,
{
    assert(s.push(x).drop_last() =~= s);
    assert(s.push(x).last() == x);
}

pub proof fn lemma_add_empty<A>(s: Seq<A>)
    ensures
        s + Seq::<A>::empty() == s,
{
    assert(s + Seq::<A>::empty() =~= s);
}

/// One step of a loop that appends `f` of each element in turn.
pub proof fn lemma_cat_map_take_step<A, B>(s: Seq<A>, f: spec_fn(A) -> Seq<B>, i: int)
    requires
        0 <= i < s.len(),
    ensures
        cat(s.take(i + 1).map_values(f)) == cat(s.take(i).map_values(f)) + f(s[i]),
{
    assert(s.take(i + 1).map_values(f) =~= s.take(i).map_values(f).push(f(s[i])));
    lemma_cat_push(s.take(i).map_values(f), f(s[i]));
}

pub proof fn lemma_take_all<A>(s: Seq<A>)
    ensures
        s.take(s.len() as int) == s,
{
    assert(s.take(s.len() as int) =~= s);
}

/// The views of a sequence of strings.
pub open spec fn views(s: Seq<String>) -> Seq<Seq<char>> {
    s.map_values(|x: String| x@)
}

pub proof fn lemma_views_push(s: Seq<String>, x: String)
    ensures
        views(s.push(x)) == views(s).push(x@),
{
    assert(views(s.push(x)) =~= views(s).push(x@));
}

/// The first element satisfying `p`, if any.
pub open spec fn find_first<A>(s: Seq<A>, p: spec_fn(A) -> bool) -> Option<A>
    decreases s.len(),
{
    if s.len() == 0 {
        None
    } else if p(s[0]) {
        Some(s[0])
    } else {
        find_first(s.drop_first(), p)
    }
}

pub proof fn lemma_find_first_skip<A>(s: Seq<A>, p: spec_fn(A) -> bool, i: int)
    requires
        0 <= i <= s.len(),
        forall|j: int| 0 <= j < i ==> !p(s[j]),
    ensures
        find_first(s, p) == find_first(s.skip(i), p),
    decreases i,
{
    if i > 0 {
        lemma_find_first_skip(s.drop_first(), p, i - 1);
        assert(s.drop_first().skip(i - 1) =~= s.skip(i));
        assert(s.skip(0) =~= s);
    } else {
        assert(s.skip(0) =~= s);
    }
}

/// At the first index whose element satisfies `p`, the search returns it.
pub proof fn lemma_find_first_at<A>(s: Seq<A>, p: spec_fn(A) -> bool, i: int)
    requires
        0 <= i < s.len(),
        forall|j: int| 0 <= j < i ==> !p(s[j]),
        p(s[i]),
    ensures
        find_first(s, p) == Some(s[i]),
{
    lemma_find_first_skip(s, p, i);
    assert(s.skip(i)[0] == s[i]);
}

/// When no element satisfies `p`, the search comes back empty.
pub proof fn lemma_find_first_none<A>(s: Seq<A>, p: spec_fn(A) -> bool)
    requires
        forall|j: int| 0 <= j < s.len() ==> !p(s[j]),
    ensures
        find_first(s, p) is None,
{
    lemma_find_first_skip(s, p, s.len() as int);
    assert(s.skip(s.len() as int) =~= Seq::<A>::empty());
}

/// A found element satisfies `p` and occurs in the sequence.
pub proof fn lemma_find_first_some<A>(s: Seq<A>, p: spec_fn(A) -> bool)
    requires
        find_first(s, p) is Some,
    ensures
        p(find_first(s, p)->0),
        s.contains(find_first(s, p)->0),
    decreases s.len(),
{
    if s.len() > 0 && !p(s[0]) {
        lemma_find_first_some(s.drop_first(), p);
        let x = find_first(s.drop_first(), p)->0;
        assert(s.drop_first().contains(x));
        let k = choose|k: int| 0 <= k < s.drop_first().len() && s.drop_first()[k] == x;
        assert(s[k + 1] == x);
    }
}

/// If some element satisfies `p`, the search finds one.
pub proof fn lemma_find_first_exists<A>(s: Seq<A>, p: spec_fn(A) -> bool)
    requires
        exists|j: int| 0 <= j < s.len() && p(s[j]),
    ensures
        find_first(s, p) is Some,
    decreases s.len(),
{
    if s.len() > 0 && !p(s[0]) {
        let j = choose|j: int| 0 <= j < s.len() && p(s[j]);
        assert(s.drop_first()[j - 1] == s[j]);
        lemma_find_first_exists(s.drop_first(), p);
    }
}

/// An element is in the concatenation exactly when some block holds it.
pub proof fn lemma_cat_contains_iff<A>(s: Seq<Seq<A>>, x: A)
    ensures
        cat(s).contains(x) <==> exists|i: int| 0 <= i < s.len() && #[trigger] s[i].contains(x),
    decreases s.len(),
{
    if s.len() > 0 {
        lemma_cat_contains_iff(s.drop_last(), x);
        let pre = cat(s.drop_last());
        if cat(s).contains(x) {
            let k = choose|k: int| 0 <= k < cat(s).len() && cat(s)[k] == x;
            if k < pre.len() {
                assert(pre[k] == x);
                assert(pre.contains(x));
                let i = choose|i: int| 0 <= i < s.drop_last().len() && #[trigger] s.drop_last()[i].contains(x);
                assert(s[i].contains(x));
            } else {
                assert(s.last()[k - pre.len()] == x);
                assert(s[s.len() - 1].contains(x));
            }
        }
        if exists|i: int| 0 <= i < s.len() && #[trigger] s[i].contains(x) {
            let i = choose|i: int| 0 <= i < s.len() && #[trigger] s[i].contains(x);
            if i < s.len() - 1 {
                assert(s.drop_last()[i].contains(x));
                assert(pre.contains(x));
                let k = choose|k: int| 0 <= k < pre.len() && pre[k] == x;
                assert(cat(s)[k] == x);
            } else {
                let k = choose|k: int| 0 <= k < s.last().len() && s.last()[k] == x;
                assert(cat(s)[pre.len() + k] == x);
            }
        }
    }
}

/// An element is in a concatenation of two sequences exactly when one of
/// them holds it.
pub proof fn lemma_add_contains<A>(a: Seq<A>, b: Seq<A>, x: A)
    ensures
        (a + b).contains(x) <==> a.contains(x) || b.contains(x),
{
    if (a + b).contains(x) {
        let k = choose|k: int| 0 <= k < (a + b).len() && (a + b)[k] == x;
        if k < a.len() {
            assert(a[k] == x);
        } else {
            assert(b[k - a.len()] == x);
        }
    }
    if a.contains(x) {
        let k = choose|k: int| 0 <= k < a.len() && a[k] == x;
        assert((a + b)[k] == x);
    }
    if b.contains(x) {
        let k = choose|k: int| 0 <= k < b.len() && b[k] == x;
        assert((a + b)[a.len() + k] == x);
    }
}

pub proof fn lemma_map_values_push<A, B>(s: Seq<A>, f: spec_fn(A) -> B, x: A)
    ensures
        s.push(x).map_values(f) == s.map_values(f).push(f(x)),
{
    assert(s.push(x).map_values(f) =~= s.map_values(f).push(f(x)));
}

/// Keeps the first occurrence of each element, in order.
pub open spec fn dedup_first<A>(s: Seq<A>) -> Seq<A>
    decreases s.len(),
{
    if s.len() == 0 {
        s
    } else {
        let rest = dedup_first(s.drop_last());
        if rest.contains(s.last()) {
            rest
        } else {
            rest.push(s.last())
        }
    }
}

pub proof fn lemma_dedup_first_contains<A>(s: Seq<A>, x: A)
    ensures
        dedup_first(s).contains(x) <==> s.contains(x),
    decreases s.len(),
{
    if s.len() > 0 {
        lemma_dedup_first_contains(s.drop_last(), x);
        let rest = dedup_first(s.drop_last());
        if s.contains(x) {
            let k = choose|k: int| 0 <= k < s.len() && s[k] == x;
            if k < s.len() - 1 {
                assert(s.drop_last()[k] == x);
                assert(s.drop_last().contains(x));
                if !rest.contains(s.last())  {
                    assert(rest.contains(x));
                    let m = choose|m: int| 0 <= m < rest.len() && rest[m] == x;
                    assert(rest.push(s.last())[m] == x);
                }
            } else {
                assert(x == s.last());
                if !rest.contains(x) {
                    assert(rest.push(x)[rest.len() as int] == x);
                }
            }
        }
        if dedup_first(s).contains(x) {
            let k = choose|k: int| 0 <= k < dedup_first(s).len() && dedup_first(s)[k] == x;
            if rest.contains(s.last()) {
                assert(rest[k] == x);
            } else {
                if k < rest.len() {
                    assert(rest[k] == x);
                } else {
                    assert(x == s.last());
                    assert(s[s.len() - 1] == x);
                }
            }
            if s.drop_last().contains(x) {
                let m = choose|m: int| 0 <= m < s.drop_last().len() && s.drop_last()[m] == x;
                assert(s[m] == x);
            }
            assert(x == s.last() ==> s[s.len() - 1] == x);
        }
    }
}

pub proof fn lemma_dedup_first_push<A>(s: Seq<A>, x: A)
    ensures
        dedup_first(s.push(x)) == if dedup_first(s).contains(x) {
            dedup_first(s)
        } else {
            dedup_first(s).push(x)
        },
{
    assert(s.push(x).drop_last() =~= s);
    assert(s.push(x).last() == x);
}

pub proof fn lemma_dedup_first_no_duplicates<A>(s: Seq<A>)
    ensures
        dedup_first(s).no_duplicates(),
    decreases s.len(),
{
    if s.len() > 0 {
        lemma_dedup_first_no_duplicates(s.drop_last());
        let rest = dedup_first(s.drop_last());
        if !rest.contains(s.last()) {
            assert forall|i: int, j: int|
                0 <= i < rest.push(s.last()).len() && 0 <= j < rest.push(s.last()).len() && i
                    != j implies rest.push(s.last())[i] != rest.push(s.last())[j] by {
                if i < rest.len() && j < rest.len() {
                } else if i < rest.len() {
                    assert(rest.contains(rest[i]));
                } else if j < rest.len() {
                    assert(rest.contains(rest[j]));
                }
            }
        }
    }
}

/// Joins the pieces with the separator between adjacent pieces.
pub open spec fn join_with(s: Seq<Seq<char>>, sep: Seq<char>) -> Seq<char>
    decreases s.len(),
{
    if s.len() == 0 {
        Seq::empty()
    } else if s.len() == 1 {
        s[0]
    } else {
        join_with(s.drop_last(), sep) + sep + s.last()
    }
}

pub proof fn lemma_join_with_push(s: Seq<Seq<char>>, sep: Seq<char>, x: Seq<char>)
    requires
        s.len() > 0,
    ensures
        join_with(s.push(x), sep) == join_with(s, sep) + sep + x,
{
    assert(s.push(x).drop_last() =~= s);
    assert(s.push(x).last() == x);
}

} // verus!
