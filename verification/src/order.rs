//! Deterministic finalization of a collected message list: sort
//! lexicographically, drop duplicates. The canonical form depends only on
//! the set of collected messages, never on the order they were found in.
use crate::seqtools::dedup_first;
use crate::seqtools::lemma_dedup_first_contains;
use crate::seqtools::lemma_dedup_first_no_duplicates;
use crate::seqtools::lemma_dedup_first_push;
use crate::seqtools::views;
use crate::text::contains_view;
use crate::text::lemma_lex_le_trans;
use crate::text::lemma_lex_total_ordering;
use crate::text::lex_le;
use crate::text::lex_leq;
use crate::text::str_lex_le;
use vstd::prelude::*;
use vstd::multiset::Multiset;
use vstd::relations::sorted_by;
use vstd::seq_lib::lemma_multiset_commutative;
use vstd::seq_lib::lemma_sorted_unique;

verus! {

broadcast use vstd::seq_lib::group_to_multiset_ensures, vstd::set::group_set_axioms;

/// The canonical report for a collection of messages: lexicographically
/// sorted, first occurrence of each message kept.
pub open spec fn normalize(s: Seq<Seq<char>>) -> Seq<Seq<char>> {
    dedup_first(s.sort_by(lex_leq()))
}

/// Deduplication keeps a sorted sequence sorted.
proof fn lemma_dedup_first_sorted(s: Seq<Seq<char>>)
    requires
        sorted_by(s, lex_leq()),
    ensures
        sorted_by(dedup_first(s), lex_leq()),
    decreases s.len(),
{
    if s.len() > 0 {
        assert forall|i: int, j: int|
            0 <= i < s.drop_last().len() && 0 <= j < s.drop_last().len() && i
                < j implies lex_leq()(s.drop_last()[i], s.drop_last()[j]) by {
            assert(s.drop_last()[i] == s[i]);
            assert(s.drop_last()[j] == s[j]);
        }
        lemma_dedup_first_sorted(s.drop_last());
        let rest = dedup_first(s.drop_last());
        if !rest.contains(s.last()) {
            let d = rest.push(s.last());
            assert forall|i: int, j: int| 0 <= i < d.len() && 0 <= j < d.len() && i
                < j implies lex_leq()(d[i], d[j]) by {
                if j < rest.len() {
                } else {
                    assert(rest.contains(rest[i]));
                    lemma_dedup_first_contains(s.drop_last(), rest[i]);
                    let k = choose|k: int|
                        0 <= k < s.drop_last().len() && s.drop_last()[k] == rest[i];
                    assert(s[k] == rest[i]);
                    assert(lex_leq()(s[k], s[s.len() - 1]));
                }
            }
        }
    }
}

/// Inserts one message into its place in a sorted list.
fn insert_sorted(out: &mut Vec<String>, x: String)
    requires
        sorted_by(views(old(out)@), lex_leq()),
    ensures
        sorted_by(views(final(out)@), lex_leq()),
        views(final(out)@).to_multiset() == views(old(out)@).to_multiset().insert(x@),
{
    let n = out.len();
    let mut k: usize = 0;
    loop
        invariant
            k <= n,
            n == out@.len(),
            out == old(out),
            forall|j: int| 0 <= j < k ==> lex_le(views(out@)[j], x@),
        ensures
            k <= n,
            out == old(out),
            forall|j: int| 0 <= j < k ==> lex_le(views(out@)[j], x@),
            k < n ==> !lex_le(views(out@)[k as int], x@),
        decreases n - k,
    {
        if k == n {
            break ;
        }
        let le = str_lex_le(out[k].as_str(), x.as_str());
        proof {
            assert(views(out@)[k as int] == out@[k as int]@);
        }
        if !le {
            break ;
        }
        proof {
            assert(views(out@)[k as int] == out@[k as int]@);
        }
        k = k + 1;
    }
    let ghost pre = views(out@);
    out.insert(k, x);
    proof {
        let post = views(out@);
        assert(post =~= pre.take(k as int) + seq![x@] + pre.skip(k as int));
        lemma_lex_total_ordering();
        assert forall|i: int, j: int| 0 <= i < post.len() && 0 <= j < post.len() && i
            < j implies lex_leq()(post[i], post[j]) by {
            if i < k && j < k {
                assert(post[i] == pre[i] && post[j] == pre[j]);
            } else if i < k && j == k {
                assert(post[i] == pre[i] && post[j] == x@);
            } else if i < k && j > k {
                assert(post[i] == pre[i] && post[j] == pre[j - 1]);
            } else if i == k && j > k {
                assert(post[j] == pre[j - 1]);
                if k < pre.len() {
                    assert(lex_le(x@, pre[k as int])) by {
                        assert(!lex_le(pre[k as int], x@));
                        crate::text::lemma_lex_le_total(x@, pre[k as int]);
                    }
                    if k as int == j - 1 {
                        assert(post[j] == pre[k as int]);
                    } else {
                        assert(lex_leq()(pre[k as int], pre[j - 1]));
                        lemma_lex_le_trans(x@, pre[k as int], pre[j - 1]);
                    }
                }
            } else {
                assert(i > k && j > k);
                assert(post[i] == pre[i - 1] && post[j] == pre[j - 1]);
            }
        }
        assert(post.to_multiset() == pre.to_multiset().insert(x@)) by {
            lemma_multiset_commutative(pre.take(k as int) + seq![x@], pre.skip(k as int));
            lemma_multiset_commutative(pre.take(k as int), seq![x@]);
            assert(seq![x@].to_multiset() =~= Multiset::<Seq<char>>::empty().insert(x@)) by {
                assert(seq![x@] =~= Seq::<Seq<char>>::empty().push(x@));
            }
            lemma_multiset_commutative(pre.take(k as int), pre.skip(k as int));
            assert(pre.take(k as int) + pre.skip(k as int) =~= pre);
            assert(post.to_multiset() =~= pre.to_multiset().insert(x@));
        }
    }
}

/// Sorts the messages lexicographically.
pub fn sort_messages(v: Vec<String>) -> (r: Vec<String>)
    ensures
        sorted_by(views(r@), lex_leq()),
        views(r@).to_multiset() == views(v@).to_multiset(),
{
    let n = v.len();
    let mut out: Vec<String> = Vec::new();
    let mut i: usize = 0;
    proof {
        assert(views(v@.take(0)) =~= Seq::<Seq<char>>::empty());
        assert(views(out@) =~= Seq::<Seq<char>>::empty());
    }
    while i != n
        invariant
            i <= n,
            n == v@.len(),
            sorted_by(views(out@), lex_leq()),
            views(out@).to_multiset() == views(v@.take(i as int)).to_multiset(),
        decreases n - i,
    {
        let x = v[i].clone();
        proof {
            assert(views(v@.take(i + 1)) =~= views(v@.take(i as int)).push(v@[i as int]@));
        }
        insert_sorted(&mut out, x);
        i = i + 1;
    }
    proof {
        assert(v@.take(n as int) =~= v@);
    }
    out
}

/// Drops every repeated message, keeping first occurrences in order.
pub fn dedup_messages(v: &Vec<String>) -> (r: Vec<String>)
    ensures
        views(r@) == dedup_first(views(v@)),
{
    let n = v.len();
    let mut out: Vec<String> = Vec::new();
    let mut i: usize = 0;
    proof {
        assert(views(v@.take(0)) =~= Seq::<Seq<char>>::empty());
        assert(views(out@) =~= dedup_first(views(v@.take(0))));
    }
    while i != n
        invariant
            i <= n,
            n == v@.len(),
            views(out@) == dedup_first(views(v@.take(i as int))),
        decreases n - i,
    {
        proof {
            assert(views(v@.take(i + 1)) =~= views(v@.take(i as int)).push(v@[i as int]@));
            lemma_dedup_first_push(views(v@.take(i as int)), v@[i as int]@);
        }
        let absent = !contains_view(&out, &v[i]);
        if absent {
            let x = v[i].clone();
            out.push(x);
            proof {
                assert(views(out@) =~= dedup_first(views(v@.take(i as int))).push(v@[i as int]@));
            }
        }
        i = i + 1;
    }
    proof {
        assert(v@.take(n as int) =~= v@);
    }
    out
}

/// Sorts and deduplicates: the canonical report of the collected messages.
pub fn normalize_messages(v: Vec<String>) -> (r: Vec<String>)
    ensures
        views(r@) == normalize(views(v@)),
{
    let ghost vs = views(v@);
    let sorted = sort_messages(v);
    proof {
        lemma_lex_total_ordering();
        vs.lemma_sort_by_ensures(lex_leq());
        lemma_sorted_unique(views(sorted@), vs.sort_by(lex_leq()), lex_leq());
    }
    let r = dedup_messages(&sorted);
    r
}

/// What the canonical report is: sorted, duplicate-free, and holding
/// exactly the collected messages.
pub proof fn lemma_normalize_props(s: Seq<Seq<char>>)
    ensures
        sorted_by(normalize(s), lex_leq()),
        normalize(s).no_duplicates(),
        forall|m: Seq<char>| normalize(s).contains(m) <==> s.contains(m),
{
    lemma_lex_total_ordering();
    s.lemma_sort_by_ensures(lex_leq());
    lemma_dedup_first_sorted(s.sort_by(lex_leq()));
    lemma_dedup_first_no_duplicates(s.sort_by(lex_leq()));
    assert forall|m: Seq<char>| normalize(s).contains(m) <==> s.contains(m) by {
        lemma_dedup_first_contains(s.sort_by(lex_leq()), m);
        assert(s.sort_by(lex_leq()).contains(m) <==> s.contains(m)) by {
            assert(s.sort_by(lex_leq()).to_multiset() == s.to_multiset());
            assert(s.contains(m) <==> s.to_multiset().count(m) > 0);
            assert(s.sort_by(lex_leq()).contains(m) <==> s.sort_by(lex_leq()).to_multiset().count(
                m,
            ) > 0);
        }
    }
}

/// Two runs that collect the same set of messages, in whatever order and
/// multiplicity, report the same canonical message list.
pub proof fn lemma_normalize_set_equal(s1: Seq<Seq<char>>, s2: Seq<Seq<char>>)
    requires
        s1.to_set() == s2.to_set(),
    ensures
        normalize(s1) == normalize(s2),
{
    lemma_normalize_props(s1);
    lemma_normalize_props(s2);
    let n1 = normalize(s1);
    let n2 = normalize(s2);
    assert forall|m: Seq<char>| n1.contains(m) <==> n2.contains(m) by {
        assert(s1.contains(m) <==> s1.to_set().contains(m));
        assert(s2.contains(m) <==> s2.to_set().contains(m));
    }
    n1.lemma_multiset_has_no_duplicates();
    n2.lemma_multiset_has_no_duplicates();
    assert(n1.to_multiset() =~= n2.to_multiset()) by {
        assert forall|m: Seq<char>| n1.to_multiset().count(m) == n2.to_multiset().count(m) by {
            assert(n1.contains(m) <==> n1.to_multiset().count(m) > 0);
            assert(n2.contains(m) <==> n2.to_multiset().count(m) > 0);
            if n1.contains(m) {
                assert(n1.to_multiset().count(m) == 1);
                assert(n2.to_multiset().count(m) == 1);
            } else {
                assert(n1.to_multiset().count(m) == 0);
                assert(n2.to_multiset().count(m) == 0);
            }
        }
    }
    lemma_lex_total_ordering();
    lemma_sorted_unique(n1, n2, lex_leq());
}

} // verus!
