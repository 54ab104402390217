//! Ordered sets of strings, as `BTreeSet<String>` (ordered by code point)
//! and `BTreeSet<PathBuf>` (ordered and compared component by component)
//! hold them: each class of equal keys once, in increasing order, the
//! first key of a class kept.
use vstd::prelude::*;

use crate::paths::{lemma_path_order, lemma_path_trans, path_eq, path_order, path_order_exec};
use crate::text::{lemma_lex_equal, lemma_lex_flip, lemma_lex_ord, lex, lex_str, Order};

verus! {

#[verifier::opaque]
pub open spec fn key_order(by_path: bool, a: Seq<char>, b: Seq<char>) -> Order {
    if by_path {
        path_order(a, b)
    } else {
        lex(a, b)
    }
}

#[verifier::opaque]
pub open spec fn key_eq(by_path: bool, a: Seq<char>, b: Seq<char>) -> bool {
    if by_path {
        path_eq(a, b)
    } else {
        a == b
    }
}

pub proof fn lemma_key_order(by_path: bool, a: Seq<char>, b: Seq<char>)
    ensures
        key_order(by_path, b, a) == key_order(by_path, a, b).flip(),
        (key_order(by_path, a, b) == Order::Equal) <==> key_eq(by_path, a, b),
{
    reveal(key_order);
    reveal(key_eq);
    if by_path {
        lemma_path_order(a, b);
    } else {
        lemma_lex_flip(a, b);
        lemma_lex_equal(a, b);
    }
}

pub proof fn lemma_key_eq_trans(by_path: bool, a: Seq<char>, b: Seq<char>, c: Seq<char>)
    requires
        key_eq(by_path, a, b),
        key_eq(by_path, b, c),
    ensures
        key_eq(by_path, a, c),
{
    reveal(key_eq);
}

pub fn key_order_exec(by_path: bool, a: &str, b: &str) -> (res: Order)
    ensures
        res == key_order(by_path, a@, b@),
{
    reveal(key_order);
    if by_path {
        path_order_exec(a, b)
    } else {
        lex_str(a, b)
    }
}

pub open spec fn views(s: Seq<String>) -> Seq<Seq<char>> {
    s.map_values(|x: String| x@)
}

/// Adjacent keys strictly increase.
pub open spec fn sorted_strict(by_path: bool, s: Seq<Seq<char>>) -> bool {
    forall|i: int, j: int|
        #![trigger s[i], s[j]]
        0 <= i && j == i + 1 && j < s.len() ==> key_order(by_path, s[i], s[j]) == Order::Less
}

/// In a strictly sorted sequence every key is below every later key.
pub proof fn lemma_sorted_pairwise(by_path: bool, s: Seq<Seq<char>>, i: int, j: int)
    requires
        sorted_strict(by_path, s),
        0 <= i < j < s.len(),
    ensures
        key_order(by_path, s[i], s[j]) == Order::Less,
    decreases j - i,
{
    if j > i + 1 {
        lemma_sorted_pairwise(by_path, s, i, j - 1);
        assert(key_order(by_path, s[j - 1], s[j]) == Order::Less);
        reveal(key_order);
        if by_path {
            lemma_path_trans(s[i], s[j - 1], s[j]);
        } else {
            lemma_lex_ord(s[i], s[j - 1], s[j]);
        }
    }
}

/// The first key of its class among `items`.
pub open spec fn first_of_class(by_path: bool, items: Seq<Seq<char>>, j: int) -> bool {
    0 <= j < items.len() && forall|k: int| 0 <= k < j ==> !key_eq(by_path, #[trigger] items[k], items[j])
}

/// `res` is the ordered set of `items`: sorted, one key for each class of
/// `items`, that key being the class's first in `items`.
pub open spec fn set_of(by_path: bool, res: Seq<Seq<char>>, items: Seq<Seq<char>>) -> bool {
    &&& sorted_strict(by_path, res)
    &&& covers(by_path, res, items, items.len() as int)
    &&& from_firsts(by_path, res, items, items.len() as int)
}

/// Every key of `iv` before `p` has an equal key in `set`.
#[verifier::opaque]
pub open spec fn covers(by_path: bool, set: Seq<Seq<char>>, iv: Seq<Seq<char>>, p: int) -> bool {
    forall|j: int| 0 <= j < p ==> exists|i: int| 0 <= i < set.len() && key_eq(by_path, #[trigger] set[i], #[trigger] iv[j])
}

/// Every key of `set` is the first of its class among the keys of `iv`
/// before `p`.
#[verifier::opaque]
pub open spec fn from_firsts(by_path: bool, set: Seq<Seq<char>>, iv: Seq<Seq<char>>, p: int) -> bool {
    forall|i: int| 0 <= i < set.len() ==> exists|j: int| 0 <= j < p && first_of_class(by_path, iv, j) && #[trigger] set[i] == #[trigger] iv[j]
}

proof fn lemma_insert_sorted(by_path: bool, before: Seq<String>, x: String, k: int)
    requires
        0 <= k <= before.len(),
        sorted_strict(by_path, views(before)),
        forall|m: int| 0 <= m < k ==> key_order(by_path, #[trigger] before[m]@, x@) == Order::Less,
        k < before.len() ==> key_order(by_path, x@, before[k]@) == Order::Less,
    ensures
        sorted_strict(by_path, views(before.insert(k, x))),
{
    let v = views(before.insert(k, x));
    let bv = views(before);
    assert forall|i: int, j: int| #![trigger v[i], v[j]] 0 <= i && j == i + 1 && j < v.len() implies key_order(by_path, v[i], v[j]) == Order::Less by {
        if i < k - 1 {
            assert(v[i] == bv[i]);
            assert(v[i + 1] == bv[i + 1]);
        } else if i == k - 1 {
            assert(v[i] == before[i]@);
            assert(v[i + 1] == x@);
        } else if i == k {
            assert(v[i] == x@);
            assert(v[i + 1] == before[i]@);
        } else {
            assert(v[i] == bv[i - 1]);
            assert(v[i + 1] == bv[i]);
        }
    }
}

/// Inserts a key into an ordered set unless an equal key is there.
pub fn set_insert(set: &mut Vec<String>, x: String, by_path: bool) -> (added: bool)
    requires
        sorted_strict(by_path, views(old(set)@)),
    ensures
        sorted_strict(by_path, views(final(set)@)),
        added <==> forall|i: int| 0 <= i < old(set)@.len() ==> !key_eq(by_path, #[trigger] old(set)@[i]@, x@),
        !added ==> final(set)@ == old(set)@,
        added ==> exists|k: int| 0 <= k <= old(set)@.len() && final(set)@ == old(set)@.insert(k, x),
{
    let n = set.len();
    let mut i: usize = 0;
    while i < n
        invariant
            i <= n == set@.len(),
            set@ == old(set)@,
            forall|m: int| 0 <= m < i ==> !key_eq(by_path, #[trigger] set@[m]@, x@),
        decreases n - i,
    {
        let o = key_order_exec(by_path, set[i].as_str(), x.as_str());
        proof {
            lemma_key_order(by_path, set@[i as int]@, x@);
        }
        if o == Order::Equal {
            return false;
        }
        i = i + 1;
    }
    let mut k: usize = 0;
    while k < n && key_order_exec(by_path, x.as_str(), set[k].as_str()) != Order::Less
        invariant
            k <= n == set@.len(),
            set@ == old(set)@,
            forall|m: int| 0 <= m < n ==> !key_eq(by_path, #[trigger] set@[m]@, x@),
            forall|m: int| 0 <= m < k ==> key_order(by_path, #[trigger] set@[m]@, x@) == Order::Less,
        decreases n - k,
    {
        proof {
            lemma_key_order(by_path, x@, set@[k as int]@);
            lemma_key_order(by_path, set@[k as int]@, x@);
        }
        k = k + 1;
    }
    let ghost before = set@;
    set.insert(k, x);
    proof {
        lemma_insert_sorted(by_path, before, x, k as int);
    }
    true
}

#[verifier::spinoff_prover]
proof fn lemma_set_step(by_path: bool, before: Seq<String>, after: Seq<String>, iv: Seq<Seq<char>>, p: int, added: bool, x: String)
    requires
        0 <= p < iv.len(),
        iv[p] == x@,
        covers(by_path, views(before), iv, p),
        from_firsts(by_path, views(before), iv, p),
        added <==> forall|i: int| 0 <= i < before.len() ==> !key_eq(by_path, #[trigger] before[i]@, x@),
        !added ==> after == before,
        added ==> exists|k: int| 0 <= k <= before.len() && after == before.insert(k, x),
    ensures
        covers(by_path, views(after), iv, p + 1),
        from_firsts(by_path, views(after), iv, p + 1),
{
    reveal(covers);
    reveal(from_firsts);
    let bv = views(before);
    let sv = views(after);
    if added {
        let k = choose|k: int| 0 <= k <= before.len() && after == before.insert(k, x);
        assert(sv.len() == bv.len() + 1);
        assert(first_of_class(by_path, iv, p)) by {
            assert forall|m: int| 0 <= m < p implies !key_eq(by_path, #[trigger] iv[m], iv[p]) by {
                let i = choose|i: int| 0 <= i < bv.len() && key_eq(by_path, #[trigger] bv[i], #[trigger] iv[m]);
                assert(bv[i] == before[i]@);
                if key_eq(by_path, iv[m], iv[p]) {
                    lemma_key_eq_trans(by_path, bv[i], iv[m], iv[p]);
                }
            }
        }
        assert forall|j: int| 0 <= j < p + 1 implies exists|i: int| 0 <= i < sv.len() && key_eq(by_path, #[trigger] sv[i], #[trigger] iv[j]) by {
            if j == p {
                assert(sv[k] == x@);
                reveal(key_eq);
                assert(key_eq(by_path, sv[k], iv[j]));
            } else {
                let i = choose|i: int| 0 <= i < bv.len() && key_eq(by_path, #[trigger] bv[i], #[trigger] iv[j]);
                let i2 = if i < k { i } else { i + 1 };
                assert(sv[i2] == bv[i]);
                assert(key_eq(by_path, sv[i2], iv[j]));
            }
        }
        assert forall|i: int| 0 <= i < sv.len() implies exists|j: int| 0 <= j < p + 1 && first_of_class(by_path, iv, j) && #[trigger] sv[i] == #[trigger] iv[j] by {
            if i == k {
                assert(sv[i] == iv[p]);
            } else {
                let i0 = if i < k { i } else { i - 1 };
                assert(sv[i] == bv[i0]);
                let j = choose|j: int| 0 <= j < p && first_of_class(by_path, iv, j) && #[trigger] bv[i0] == #[trigger] iv[j];
                assert(sv[i] == iv[j]);
            }
        }
    } else {
        assert(sv == bv);
        assert forall|j: int| 0 <= j < p + 1 implies exists|i: int| 0 <= i < sv.len() && key_eq(by_path, #[trigger] sv[i], #[trigger] iv[j]) by {
            if j == p {
                assert(!(forall|i: int| 0 <= i < before.len() ==> !key_eq(by_path, #[trigger] before[i]@, x@)));
                let i = choose|i: int| 0 <= i < before.len() && key_eq(by_path, #[trigger] before[i]@, x@);
                assert(sv[i] == before[i]@);
                assert(key_eq(by_path, sv[i], iv[j]));
            } else {
                let i = choose|i: int| 0 <= i < bv.len() && key_eq(by_path, #[trigger] bv[i], #[trigger] iv[j]);
                assert(key_eq(by_path, sv[i], iv[j]));
            }
        }
    }
}

/// The ordered set of a list of keys.
pub fn sorted_set(items: &Vec<String>, by_path: bool) -> (res: Vec<String>)
    ensures
        set_of(by_path, views(res@), views(items@)),
{
    let mut set: Vec<String> = Vec::new();
    let mut p: usize = 0;
    let ghost iv = views(items@);
    proof {
        reveal(covers);
        reveal(from_firsts);
    }
    while p < items.len()
        invariant
            p <= items@.len(),
            iv == views(items@),
            sorted_strict(by_path, views(set@)),
            covers(by_path, views(set@), iv, p as int),
            from_firsts(by_path, views(set@), iv, p as int),
        decreases items@.len() - p,
    {
        let ghost before = set@;
        let x = items[p].clone();
        let added = set_insert(&mut set, x, by_path);
        proof {
            lemma_set_step(by_path, before, set@, iv, p as int, added, x);
        }
        p = p + 1;
    }
    set
}

} // verus!

verus! {

/// `res` is `items` sorted by path, as a stable sort leaves them: `res[i]`
/// is `items[perm[i]]`, each item once, paths never decrease, and equal
/// paths keep their order in `items`.
#[verifier::opaque]
pub open spec fn path_sorted_from(res: Seq<Seq<char>>, items: Seq<Seq<char>>, perm: Seq<int>) -> bool {
    &&& res.len() == items.len()
    &&& perm.len() == res.len()
    &&& forall|i: int| 0 <= i < perm.len() ==> 0 <= #[trigger] perm[i] < items.len() && res[i] == items[perm[i]]
    &&& forall|i: int, j: int| 0 <= i < j < perm.len() ==> #[trigger] perm[i] != #[trigger] perm[j]
    &&& forall|i: int, j: int|
        0 <= i < j < res.len() ==> path_order(#[trigger] res[i], #[trigger] res[j]) != Order::Greater
    &&& forall|i: int, j: int|
        0 <= i < j < res.len() && path_order(#[trigger] res[i], #[trigger] res[j]) == Order::Equal ==> perm[i] < perm[j]
}

proof fn lemma_path_insert(before: Seq<Seq<char>>, items: Seq<Seq<char>>, perm: Seq<int>, k: int)
    requires
        0 < items.len(),
        path_sorted_from(before, items.drop_last(), perm),
        0 <= k <= before.len(),
        forall|m: int| 0 <= m < k ==> path_order(#[trigger] before[m], items.last()) != Order::Greater,
        k < before.len() ==> path_order(items.last(), before[k]) == Order::Less,
    ensures
        path_sorted_from(before.insert(k, items.last()), items, perm.insert(k, items.len() - 1)),
{
    reveal(path_sorted_from);
    let x = items.last();
    let n = items.len() - 1;
    let after = before.insert(k, x);
    let p2 = perm.insert(k, n);
    assert forall|i: int| 0 <= i < p2.len() implies 0 <= #[trigger] p2[i] < items.len() && after[i] == items[p2[i]] by {
        if i < k {
            assert(p2[i] == perm[i] && after[i] == before[i]);
        } else if i > k {
            assert(p2[i] == perm[i - 1] && after[i] == before[i - 1]);
        }
    }
    assert forall|i: int, j: int| 0 <= i < j < p2.len() implies #[trigger] p2[i] != #[trigger] p2[j] by {
        if i < k && j < k {
            assert(p2[i] == perm[i] && p2[j] == perm[j]);
        } else if i < k && j == k {
            assert(p2[i] == perm[i]);
        } else if i < k {
            assert(p2[i] == perm[i] && p2[j] == perm[j - 1]);
        } else if i == k {
            assert(p2[j] == perm[j - 1]);
        } else {
            assert(p2[i] == perm[i - 1] && p2[j] == perm[j - 1]);
        }
    }
    assert forall|i: int, j: int| 0 <= i < j < after.len() implies path_order(#[trigger] after[i], #[trigger] after[j])
        != Order::Greater && (path_order(after[i], after[j]) == Order::Equal ==> p2[i] < p2[j]) by {
        if j < k {
            assert(after[i] == before[i] && after[j] == before[j] && p2[i] == perm[i] && p2[j] == perm[j]);
        } else if j == k {
            assert(after[i] == before[i] && p2[i] == perm[i]);
        } else if i == k {
            assert(after[j] == before[j - 1]);
            if j - 1 > k {
                assert(path_order(before[k], before[j - 1]) != Order::Greater);
                lemma_path_trans(x, before[k], before[j - 1]);
            }
        } else if i < k {
            assert(after[i] == before[i] && after[j] == before[j - 1] && p2[i] == perm[i] && p2[j] == perm[j - 1]);
            if path_order(before[i], before[j - 1]) == Order::Equal {
                assert(perm[i] < perm[j - 1]);
            }
        } else {
            assert(after[i] == before[i - 1] && after[j] == before[j - 1] && p2[i] == perm[i - 1] && p2[j] == perm[j - 1]);
        }
    }
}

/// The paths sorted by components, equal paths in their given order.
pub fn sort_paths(items: &Vec<String>) -> (res: Vec<String>)
    ensures
        exists|perm: Seq<int>| path_sorted_from(views(res@), views(items@), perm),
{
    let ghost iv = views(items@);
    let mut res: Vec<String> = Vec::new();
    let ghost mut perm: Seq<int> = Seq::empty();
    proof {
        reveal(path_sorted_from);
    }
    let mut i: usize = 0;
    while i < items.len()
        invariant
            i <= items.len(),
            iv == views(items@),
            path_sorted_from(views(res@), iv.take(i as int), perm),
        decreases items.len() - i,
    {
        let x = items[i].clone();
        let mut k: usize = 0;
        while k < res.len() && path_order_exec(x.as_str(), res[k].as_str()) != Order::Less
            invariant
                k <= res.len() == i,
                x@ == iv[i as int],
                forall|m: int| 0 <= m < k ==> path_order(#[trigger] views(res@)[m], x@) != Order::Greater,
            decreases res.len() - k,
        {
            proof {
                lemma_path_order(x@, res@[k as int]@);
                assert(views(res@)[k as int] == res@[k as int]@);
            }
            k = k + 1;
        }
        proof {
            assert(iv.take(i + 1).drop_last() =~= iv.take(i as int));
            assert(iv.take(i + 1).last() == x@);
            if k < res.len() {
                assert(views(res@)[k as int] == res@[k as int]@);
            }
            lemma_path_insert(views(res@), iv.take(i + 1), perm, k as int);
        }
        let ghost before = res@;
        res.insert(k, x);
        proof {
            assert(views(res@) =~= views(before).insert(k as int, x@));
            perm = perm.insert(k as int, i as int);
        }
        i = i + 1;
    }
    proof {
        assert(iv.take(i as int) =~= iv);
    }
    res
}

} // verus!
