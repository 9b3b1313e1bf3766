//! Ordered lists of card names used as insertion-ordered sets: membership,
//! distinctness, and difference, all by string contents.

use vstd::prelude::*;

verus! {

/// Whether some entry of `s` spells `n`.
pub open spec fn has_name(s: Seq<String>, n: Seq<char>) -> bool {
    exists|i: int| 0 <= i < s.len() && (#[trigger] s[i])@ == n
}

/// No two entries spell the same name.
pub open spec fn distinct_names(s: Seq<String>) -> bool {
    forall|i: int, j: int| 0 <= i < j < s.len() ==> (#[trigger] s[i])@ != (#[trigger] s[j])@
}

/// Every name of `a` also stands in `b`.
pub open spec fn subset_names(a: Seq<String>, b: Seq<String>) -> bool {
    forall|i: int| 0 <= i < a.len() ==> has_name(b, (#[trigger] a[i])@)
}

/// No name stands in both lists.
pub open spec fn disjoint_names(a: Seq<String>, b: Seq<String>) -> bool {
    forall|i: int| 0 <= i < a.len() ==> !has_name(b, (#[trigger] a[i])@)
}

/// The entries of `a` whose names do not stand in `b`, in order.
pub open spec fn names_minus(a: Seq<String>, b: Seq<String>) -> Seq<String>
    decreases a.len(),
{
    if a.len() == 0 {
        Seq::empty()
    } else {
        let rest = names_minus(a.drop_last(), b);
        if has_name(b, a.last()@) {
            rest
        } else {
            rest.push(a.last())
        }
    }
}

/// What the difference holds: exactly the names of `a` that are not in `b`,
/// each spelled by an entry of `a`; distinctness carries over.
pub proof fn lemma_names_minus(a: Seq<String>, b: Seq<String>)
    ensures
        forall|n: Seq<char>| has_name(names_minus(a, b), n) <==> (has_name(a, n) && !has_name(
            b,
            n,
        )),
        distinct_names(a) ==> distinct_names(names_minus(a, b)),
        subset_names(names_minus(a, b), a),
        disjoint_names(names_minus(a, b), b),
        names_minus(a, b).len() <= a.len(),
    decreases a.len(),
{
    if a.len() == 0 {
        assert forall|n: Seq<char>| has_name(names_minus(a, b), n) implies (has_name(a, n)
            && !has_name(b, n)) by {}
        assert forall|n: Seq<char>| has_name(a, n) && !has_name(b, n) implies has_name(
            names_minus(a, b),
            n,
        ) by {}
    } else {
        let pre = a.drop_last();
        lemma_names_minus(pre, b);
        let r = names_minus(a, b);
        let rp = names_minus(pre, b);
        assert forall|n: Seq<char>| has_name(a, n) && !has_name(b, n) implies has_name(r, n) by {
            let i = choose|i: int| 0 <= i < a.len() && (#[trigger] a[i])@ == n;
            if i < a.len() - 1 {
                assert(pre[i] == a[i]);
                assert(has_name(pre, n));
                let j = choose|j: int| 0 <= j < rp.len() && (#[trigger] rp[j])@ == n;
                if has_name(b, a.last()@) {
                    assert(r[j] == rp[j]);
                } else {
                    assert(r[j] == rp[j]);
                }
            } else {
                assert(a.last() == a[i]);
                assert(!has_name(b, a.last()@));
                assert(r.last()@ == n);
            }
        }
        assert forall|n: Seq<char>| has_name(r, n) implies (has_name(a, n) && !has_name(b, n)) by {
            let j = choose|j: int| 0 <= j < r.len() && (#[trigger] r[j])@ == n;
            if j < rp.len() {
                assert(r[j] == rp[j]);
                assert(has_name(rp, n));
                let i = choose|i: int| 0 <= i < pre.len() && (#[trigger] pre[i])@ == n;
                assert(a[i] == pre[i]);
            } else {
                assert(!has_name(b, a.last()@));
                assert(r[j] == a.last());
                assert(a[a.len() - 1]@ == n);
            }
        }
        assert forall|i: int| 0 <= i < r.len() implies has_name(a, (#[trigger] r[i])@) by {
            if i < rp.len() {
                assert(r[i] == rp[i]);
                assert(has_name(pre, rp[i]@));
                let k = choose|k: int| 0 <= k < pre.len() && (#[trigger] pre[k])@ == rp[i]@;
                assert(a[k] == pre[k]);
            } else {
                assert(r[i] == a.last());
                assert(a[a.len() - 1]@ == r[i]@);
            }
        }
        if distinct_names(a) {
            assert(distinct_names(pre)) by {
                assert forall|i: int, j: int| 0 <= i < j < pre.len() implies (#[trigger] pre[i])@
                    != (#[trigger] pre[j])@ by {
                    assert(pre[i] == a[i] && pre[j] == a[j]);
                }
            }
            assert forall|i: int, j: int| 0 <= i < j < r.len() implies (#[trigger] r[i])@ != (
            #[trigger] r[j])@ by {
                if j < rp.len() {
                    assert(r[i] == rp[i] && r[j] == rp[j]);
                } else if i < rp.len() {
                    assert(r[i] == rp[i]);
                    assert(has_name(pre, rp[i]@));
                    let k = choose|k: int| 0 <= k < pre.len() && (#[trigger] pre[k])@ == rp[i]@;
                    assert(a[k] == pre[k]);
                    assert(a[k]@ != a[a.len() - 1]@);
                }
            }
        }
    }
}

/// Whether the list holds an entry spelling `name`.
pub fn contains_name(v: &Vec<String>, name: &str) -> (r: bool)
    ensures
        r == has_name(v@, name@),
{
    let mut i: usize = 0;
    while i < v.len()
        invariant
            i <= v@.len(),
            forall|j: int| 0 <= j < i ==> (#[trigger] v@[j])@ != name@,
        decreases v@.len() - i,
    {
        if crate::strutil::str_eq(v[i].as_str(), name) {
            return true;
        }
        i = i + 1;
    }
    false
}

/// Appends `name` unless an entry already spells it.
pub fn insert_name(v: &mut Vec<String>, name: &str)
    ensures
        has_name(old(v)@, name@) ==> final(v)@ == old(v)@,
        !has_name(old(v)@, name@) ==> {
            &&& final(v)@.len() == old(v)@.len() + 1
            &&& final(v)@.drop_last() == old(v)@
            &&& final(v)@.last()@ == name@
        },
        has_name(final(v)@, name@),
        forall|n: Seq<char>| has_name(final(v)@, n) <==> (has_name(old(v)@, n) || n == name@),
        distinct_names(old(v)@) ==> distinct_names(final(v)@),
{
    if !contains_name(v, name) {
        let owned = name.to_owned();
        proof {
            assert(owned@ == name@);
        }
        v.push(owned);
        proof {
            assert(final(v)@.drop_last() =~= old(v)@);
            assert forall|n: Seq<char>| has_name(final(v)@, n) implies (has_name(old(v)@, n) || n
                == name@) by {
                let i = choose|i: int| 0 <= i < final(v)@.len() && (#[trigger] final(v)@[i])@ == n;
                if i < old(v)@.len() {
                    assert(old(v)@[i]@ == n);
                }
            }
            assert(final(v)@[final(v)@.len() - 1]@ == name@);
            if distinct_names(old(v)@) {
                assert forall|i: int, j: int| 0 <= i < j < final(v)@.len() implies (
                #[trigger] final(v)@[i])@ != (#[trigger] final(v)@[j])@ by {
                    if j < old(v)@.len() {
                        assert(final(v)@[i] == old(v)@[i] && final(v)@[j] == old(v)@[j]);
                    } else {
                        assert(final(v)@[i] == old(v)@[i]);
                        assert(!has_name(old(v)@, name@));
                        assert(old(v)@[i]@ != name@);
                    }
                }
            }
        }
    }
}

/// Removes the first entry spelling `name`, if any.
pub fn remove_name(v: &mut Vec<String>, name: &str)
    ensures
        !has_name(old(v)@, name@) ==> final(v)@ == old(v)@,
        has_name(old(v)@, name@) ==> exists|i: int|
            {
                &&& 0 <= i < old(v)@.len()
                &&& (#[trigger] old(v)@[i])@ == name@
                &&& final(v)@ == old(v)@.remove(i)
            },
        distinct_names(old(v)@) ==> distinct_names(final(v)@) && !has_name(final(v)@, name@),
        distinct_names(old(v)@) ==> forall|n: Seq<char>|
            has_name(final(v)@, n) <==> (has_name(old(v)@, n) && n != name@),
        final(v)@.len() <= old(v)@.len(),
{
    let mut i: usize = 0;
    while i < v.len()
        invariant
            i <= v@.len(),
            v@ == old(v)@,
            forall|j: int| 0 <= j < i ==> (#[trigger] v@[j])@ != name@,
        decreases v@.len() - i,
    {
        if crate::strutil::str_eq(v[i].as_str(), name) {
            v.remove(i);
            proof {
                let vi = i as int;
                assert(old(v)@[vi]@ == name@);
                assert(final(v)@ == old(v)@.remove(vi));
                if distinct_names(old(v)@) {
                    lemma_remove_keeps(old(v)@, vi, name@);
                }
            }
            return ;
        }
        i = i + 1;
    }
}

/// Removing an entry of a distinct list keeps the other names, their
/// distinctness, and nothing else.
pub proof fn lemma_remove_entry(s: Seq<String>, i: int)
    requires
        distinct_names(s),
        0 <= i < s.len(),
    ensures
        distinct_names(s.remove(i)),
        !has_name(s.remove(i), s[i]@),
        forall|n: Seq<char>| has_name(s.remove(i), n) <==> (has_name(s, n) && n != s[i]@),
{
    lemma_remove_keeps(s, i, s[i]@);
}

/// Appending an entry adds its name and, when it is new, keeps
/// distinctness.
pub proof fn lemma_push_entry(s: Seq<String>, x: String)
    ensures
        forall|n: Seq<char>| has_name(s.push(x), n) <==> (has_name(s, n) || n == x@),
        distinct_names(s) && !has_name(s, x@) ==> distinct_names(s.push(x)),
{
    let r = s.push(x);
    assert forall|n: Seq<char>| has_name(r, n) implies (has_name(s, n) || n == x@) by {
        let i = choose|i: int| 0 <= i < r.len() && (#[trigger] r[i])@ == n;
        if i < s.len() {
            assert(s[i]@ == n);
        }
    }
    assert forall|n: Seq<char>| has_name(s, n) || n == x@ implies has_name(r, n) by {
        if has_name(s, n) {
            let i = choose|i: int| 0 <= i < s.len() && (#[trigger] s[i])@ == n;
            assert(r[i]@ == n);
        } else {
            assert(r[s.len() as int]@ == n);
        }
    }
    if distinct_names(s) && !has_name(s, x@) {
        assert forall|i: int, j: int| 0 <= i < j < r.len() implies (#[trigger] r[i])@ != (
        #[trigger] r[j])@ by {
            if j < s.len() {
                assert(r[i] == s[i] && r[j] == s[j]);
            } else {
                assert(r[i] == s[i]);
            }
        }
    }
}

/// Removing the only entry spelling a name keeps the others, their
/// distinctness, and nothing else.
proof fn lemma_remove_keeps(s: Seq<String>, i: int, name: Seq<char>)
    requires
        distinct_names(s),
        0 <= i < s.len(),
        s[i]@ == name,
    ensures
        distinct_names(s.remove(i)),
        !has_name(s.remove(i), name),
        forall|n: Seq<char>| has_name(s.remove(i), n) <==> (has_name(s, n) && n != name),
{
    let r = s.remove(i);
    assert forall|a: int, b: int| 0 <= a < b < r.len() implies (#[trigger] r[a])@ != (
    #[trigger] r[b])@ by {
        let sa = if a < i {
            a
        } else {
            a + 1
        };
        let sb = if b < i {
            b
        } else {
            b + 1
        };
        assert(r[a] == s[sa] && r[b] == s[sb]);
    }
    assert forall|n: Seq<char>| has_name(r, n) implies (has_name(s, n) && n != name) by {
        let j = choose|j: int| 0 <= j < r.len() && (#[trigger] r[j])@ == n;
        let sj = if j < i {
            j
        } else {
            j + 1
        };
        assert(r[j] == s[sj]);
        assert(s[sj]@ == n);
    }
    assert forall|n: Seq<char>| has_name(s, n) && n != name implies has_name(r, n) by {
        let j = choose|j: int| 0 <= j < s.len() && (#[trigger] s[j])@ == n;
        let rj = if j < i {
            j
        } else {
            j - 1
        };
        assert(r[rj] == s[j]);
    }
}

/// The entries of `a` whose names do not stand in `b`, in order, as a new
/// list.
pub fn names_difference(a: &Vec<String>, b: &Vec<String>) -> (r: Vec<String>)
    ensures
        r@ == names_minus(a@, b@),
{
    let mut r: Vec<String> = Vec::new();
    let mut i: usize = 0;
    while i < a.len()
        invariant
            i <= a@.len(),
            r@ == names_minus(a@.subrange(0, i as int), b@),
        decreases a@.len() - i,
    {
        proof {
            assert(a@.subrange(0, i + 1).drop_last() =~= a@.subrange(0, i as int));
            assert(a@.subrange(0, i + 1).last() == a@[i as int]);
        }
        if !contains_name(b, a[i].as_str()) {
            r.push(a[i].clone());
        }
        i = i + 1;
    }
    proof {
        assert(a@.subrange(0, a@.len() as int) =~= a@);
    }
    r
}

/// A copy of a name list with the same entries.
pub fn clone_names(v: &Vec<String>) -> (r: Vec<String>)
    ensures
        r@ == v@,
{
    let mut r: Vec<String> = Vec::new();
    let mut i: usize = 0;
    while i < v.len()
        invariant
            i <= v@.len(),
            r@ =~= v@.subrange(0, i as int),
        decreases v@.len() - i,
    {
        r.push(v[i].clone());
        proof {
            assert(r@ =~= v@.subrange(0, i + 1));
        }
        i = i + 1;
    }
    proof {
        assert(v@.subrange(0, v@.len() as int) =~= v@);
    }
    r
}

/// The entries of `s` with a repeated name dropped: each name keeps its
/// first entry, in order.
pub open spec fn names_dedup(s: Seq<String>) -> Seq<String>
    decreases s.len(),
{
    if s.len() == 0 {
        Seq::empty()
    } else {
        let rest = names_dedup(s.drop_last());
        if has_name(rest, s.last()@) {
            rest
        } else {
            rest.push(s.last())
        }
    }
}

/// Deduplication keeps exactly the names of `s`, distinctly.
pub proof fn lemma_names_dedup(s: Seq<String>)
    ensures
        distinct_names(names_dedup(s)),
        forall|n: Seq<char>| has_name(names_dedup(s), n) <==> has_name(s, n),
        names_dedup(s).len() <= s.len(),
        subset_names(names_dedup(s), s),
    decreases s.len(),
{
    if s.len() > 0 {
        let pre = s.drop_last();
        lemma_names_dedup(pre);
        let r = names_dedup(s);
        let rp = names_dedup(pre);
        assert forall|n: Seq<char>| has_name(s, n) implies has_name(r, n) by {
            let i = choose|i: int| 0 <= i < s.len() && (#[trigger] s[i])@ == n;
            if i < s.len() - 1 {
                assert(pre[i] == s[i]);
                assert(has_name(pre, n));
                let j = choose|j: int| 0 <= j < rp.len() && (#[trigger] rp[j])@ == n;
                assert(r[j] == rp[j]);
            } else {
                if has_name(rp, n) {
                    let j = choose|j: int| 0 <= j < rp.len() && (#[trigger] rp[j])@ == n;
                    assert(r[j] == rp[j]);
                } else {
                    assert(r.last()@ == n);
                }
            }
        }
        assert forall|n: Seq<char>| has_name(r, n) implies has_name(s, n) by {
            let j = choose|j: int| 0 <= j < r.len() && (#[trigger] r[j])@ == n;
            if j < rp.len() {
                assert(r[j] == rp[j]);
                assert(has_name(pre, n));
                let i = choose|i: int| 0 <= i < pre.len() && (#[trigger] pre[i])@ == n;
                assert(s[i] == pre[i]);
            } else {
                assert(r[j] == s.last());
                assert(s[s.len() - 1]@ == n);
            }
        }
        assert forall|i: int, j: int| 0 <= i < j < r.len() implies (#[trigger] r[i])@ != (
        #[trigger] r[j])@ by {
            if j < rp.len() {
                assert(r[i] == rp[i] && r[j] == rp[j]);
            } else if i < rp.len() {
                assert(r[i] == rp[i]);
                assert(!has_name(rp, s.last()@));
                assert(r[j] == s.last());
            }
        }
        assert forall|i: int| 0 <= i < r.len() implies has_name(s, (#[trigger] r[i])@) by {
            if i < rp.len() {
                assert(r[i] == rp[i]);
                assert(has_name(pre, rp[i]@));
                let k = choose|k: int| 0 <= k < pre.len() && (#[trigger] pre[k])@ == rp[i]@;
                assert(s[k] == pre[k]);
            } else {
                assert(r[i] == s.last());
                assert(s[s.len() - 1]@ == r[i]@);
            }
        }
    }
}

/// Drops repeated names, keeping each name's first entry in order.
pub fn dedup_names(v: &Vec<String>) -> (r: Vec<String>)
    ensures
        r@ == names_dedup(v@),
{
    let mut r: Vec<String> = Vec::new();
    let mut i: usize = 0;
    while i < v.len()
        invariant
            i <= v@.len(),
            r@ == names_dedup(v@.subrange(0, i as int)),
        decreases v@.len() - i,
    {
        proof {
            assert(v@.subrange(0, i + 1).drop_last() =~= v@.subrange(0, i as int));
            assert(v@.subrange(0, i + 1).last() == v@[i as int]);
        }
        if !contains_name(&r, v[i].as_str()) {
            r.push(v[i].clone());
        }
        i = i + 1;
    }
    proof {
        assert(v@.subrange(0, v@.len() as int) =~= v@);
    }
    r
}

} // verus!
