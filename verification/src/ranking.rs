//! Ordering pricing rules by priority (a lower number comes first), keeping
//! rules of equal priority in the order they are given.

use vstd::prelude::*;
use crate::types::PricingRule;

verus! {

broadcast use vstd::seq_lib::group_to_multiset_ensures;

/// `sorted` with `x` placed after every element whose priority is at most
/// that of `x` (and before the others).
pub open spec fn insert_by_priority(sorted: Seq<PricingRule>, x: PricingRule) -> Seq<PricingRule>
    decreases sorted.len(),
{
    if sorted.len() == 0 {
        seq![x]
    } else if sorted.last().priority <= x.priority {
        sorted.push(x)
    } else {
        insert_by_priority(sorted.drop_last(), x).push(sorted.last())
    }
}

/// The stable sort of `s` by ascending priority.
pub open spec fn sort_by_priority(s: Seq<PricingRule>) -> Seq<PricingRule>
    decreases s.len(),
{
    if s.len() == 0 {
        seq![]
    } else {
        insert_by_priority(sort_by_priority(s.drop_last()), s.last())
    }
}

/// Priorities never decrease along `s`.
pub open spec fn priorities_ascending(s: Seq<PricingRule>) -> bool {
    forall|i: int, j: int| 0 <= i <= j < s.len() ==> s[i].priority <= s[j].priority
}

/// The rules that a list of references points to.
pub open spec fn rules_of(s: Seq<&PricingRule>) -> Seq<PricingRule> {
    s.map_values(|r: &PricingRule| *r)
}

proof fn lemma_insert_at(s: Seq<PricingRule>, x: PricingRule, pos: int)
    requires
        0 <= pos <= s.len(),
        forall|k: int| pos <= k < s.len() ==> s[k].priority > x.priority,
        pos == 0 || s[pos - 1].priority <= x.priority,
    ensures
        insert_by_priority(s, x) == s.insert(pos, x),
    decreases s.len(),
{
    if s.len() == 0 {
        assert(s.insert(pos, x) =~= seq![x]);
    } else if pos == s.len() {
        assert(s.insert(pos, x) =~= s.push(x));
    } else {
        lemma_insert_at(s.drop_last(), x, pos);
        assert(s.drop_last().insert(pos, x).push(s.last()) =~= s.insert(pos, x));
    }
}

proof fn lemma_insert_keeps_order(s: Seq<PricingRule>, x: PricingRule)
    requires
        priorities_ascending(s),
    ensures
        priorities_ascending(insert_by_priority(s, x)),
        insert_by_priority(s, x).to_multiset() == s.to_multiset().insert(x),
        insert_by_priority(s, x).len() == s.len() + 1,
    decreases s.len(),
{
    if s.len() == 0 {
        assert(seq![x] =~= Seq::<PricingRule>::empty().push(x));
    } else if s.last().priority <= x.priority {
    } else {
        let t = insert_by_priority(s.drop_last(), x);
        lemma_insert_keeps_order(s.drop_last(), x);
        assert(s.drop_last().push(s.last()) =~= s);
        assert forall|i: int, j: int| 0 <= i <= j < t.push(s.last()).len() implies t.push(
            s.last(),
        )[i].priority <= t.push(s.last())[j].priority by {
            if j == t.len() && i < j {
                assert(t.to_multiset().count(t[i]) > 0);
                assert(s.drop_last().to_multiset().insert(x).count(t[i]) > 0);
                if t[i] != x {
                    assert(s.drop_last().to_multiset().count(t[i]) > 0);
                    assert(s.drop_last().contains(t[i]));
                    let k = choose|k: int| 0 <= k < s.drop_last().len() && s.drop_last()[k] == t[i];
                    assert(s[k] == t[i]);
                }
            }
        }
    }
}

/// The stable sort by priority is ordered and holds the same rules.
pub proof fn lemma_sort_by_priority(s: Seq<PricingRule>)
    ensures
        priorities_ascending(sort_by_priority(s)),
        sort_by_priority(s).to_multiset() == s.to_multiset(),
        sort_by_priority(s).len() == s.len(),
    decreases s.len(),
{
    if s.len() == 0 {
    } else {
        lemma_sort_by_priority(s.drop_last());
        lemma_insert_keeps_order(sort_by_priority(s.drop_last()), s.last());
        assert(s.drop_last().push(s.last()) =~= s);
    }
}

/// The rules of priority `p`, in order.
pub open spec fn with_priority(s: Seq<PricingRule>, p: i32) -> Seq<PricingRule> {
    s.filter(|r: PricingRule| r.priority == p)
}

proof fn lemma_insert_keeps_ties(s: Seq<PricingRule>, x: PricingRule, p: i32)
    ensures
        with_priority(insert_by_priority(s, x), p) == with_priority(s.push(x), p),
    decreases s.len(),
{
    let pred = |r: PricingRule| r.priority == p;
    if s.len() == 0 {
        assert(seq![x] =~= s.push(x));
    } else if s.last().priority <= x.priority {
    } else {
        let d = s.drop_last();
        lemma_insert_keeps_ties(d, x, p);
        assert(d.push(s.last()) =~= s);
        insert_by_priority(d, x).lemma_filter_push(s.last(), pred);
        d.lemma_filter_push(x, pred);
        d.lemma_filter_push(s.last(), pred);
        s.lemma_filter_push(x, pred);
        d.push(x).lemma_filter_push(s.last(), pred);
        if x.priority == p {
            assert(s.last().priority != p);
        }
    }
}

/// The sort by priority is stable: for every priority, the rules of that
/// priority come out in the order they were given.
pub proof fn lemma_sort_keeps_ties(s: Seq<PricingRule>, p: i32)
    ensures
        with_priority(sort_by_priority(s), p) == with_priority(s, p),
    decreases s.len(),
{
    if s.len() > 0 {
        let d = s.drop_last();
        lemma_sort_keeps_ties(d, p);
        lemma_insert_keeps_ties(sort_by_priority(d), s.last(), p);
        sort_by_priority(d).lemma_filter_push(s.last(), |r: PricingRule| r.priority == p);
        d.lemma_filter_push(s.last(), |r: PricingRule| r.priority == p);
        assert(d.push(s.last()) =~= s);
    }
}

/// Places `x` in `v` after every rule whose priority is at most that of `x`.
pub fn insert_ranked<'a>(v: &mut Vec<&'a PricingRule>, x: &'a PricingRule)
    ensures
        rules_of(final(v)@) == insert_by_priority(rules_of(old(v)@), *x),
{
    let mut pos: usize = v.len();
    while pos > 0 && v[pos - 1].priority > x.priority
        invariant
            pos <= v@.len(),
            v@ == old(v)@,
            forall|k: int| pos <= k < v@.len() ==> v@[k].priority > x.priority,
        decreases pos,
    {
        pos = pos - 1;
    }
    proof {
        lemma_insert_at(rules_of(v@), *x, pos as int);
    }
    v.insert(pos, x);
    assert(rules_of(v@) =~= rules_of(old(v)@).insert(pos as int, *x));
}

} // verus!
