//! Reads of a session's cookies: when two of them hold the same cookies.
use vstd::prelude::*;

use crate::cookie::Cookie;
use crate::cookie::CookieView;

verus! {

/// What each cookie of a read holds, in order.
pub open spec fn views(cookies: Seq<Cookie>) -> Seq<CookieView> {
    cookies.map_values(|c: Cookie| c@)
}

/// Whether two sequences hold equal cookies position by position.
pub open spec fn pairwise_same(a: Seq<CookieView>, b: Seq<CookieView>) -> bool {
    &&& a.len() == b.len()
    &&& forall|i: int| 0 <= i < a.len() ==> (#[trigger] a[i]).same(b[i])
}

/// Whether one read holds the cookies of the other in some order.
pub open spec fn reordered(a: Seq<CookieView>, b: Seq<CookieView>) -> bool {
    a.to_multiset() == b.to_multiset()
}

/// Whether two reads agree: the cookies of the second, put in some order, equal those of the first
/// one by one.
pub open spec fn settled(previous: Seq<CookieView>, current: Seq<CookieView>) -> bool {
    exists|lined: Seq<CookieView>| #[trigger]
        reordered(lined, current) && pairwise_same(previous, lined)
}

// --- Taking one pair of equal cookies out of two reads. ---------------------------------------

proof fn lemma_reordered_len(a: Seq<CookieView>, b: Seq<CookieView>)
    requires
        reordered(a, b),
    ensures
        a.len() == b.len(),
{
    vstd::seq_lib::to_multiset_len(a);
    vstd::seq_lib::to_multiset_len(b);
}

/// Where a cookie of one order of a read stands in the other order.
proof fn lemma_reordered_place(a: Seq<CookieView>, b: Seq<CookieView>, j: int) -> (k: int)
    requires
        reordered(a, b),
        0 <= j < b.len(),
    ensures
        0 <= k < a.len(),
        a[k] == b[j],
{
    vstd::seq_lib::to_multiset_contains(a, b[j]);
    vstd::seq_lib::to_multiset_contains(b, b[j]);
    assert(b.contains(b[j]));
    choose|k: int| 0 <= k < a.len() && a[k] == b[j]
}

proof fn lemma_remove_reordered(a: Seq<CookieView>, k: int, b: Seq<CookieView>, j: int)
    requires
        reordered(a, b),
        0 <= k < a.len(),
        0 <= j < b.len(),
        a[k] == b[j],
    ensures
        reordered(a.remove(k), b.remove(j)),
{
    vstd::seq_lib::to_multiset_remove(a, k);
    vstd::seq_lib::to_multiset_remove(b, j);
}

proof fn lemma_insert_reordered(
    a: Seq<CookieView>,
    k: int,
    b: Seq<CookieView>,
    j: int,
    cookie: CookieView,
)
    requires
        reordered(a, b),
        0 <= k <= a.len(),
        0 <= j <= b.len(),
    ensures
        reordered(a.insert(k, cookie), b.insert(j, cookie)),
{
    vstd::seq_lib::to_multiset_insert(a, k, cookie);
    vstd::seq_lib::to_multiset_insert(b, j, cookie);
}

/// Two reads that agree still do once a pair of equal cookies is taken out of them.
proof fn lemma_pair_out(a: Seq<CookieView>, i: int, b: Seq<CookieView>, j: int)
    requires
        settled(a, b),
        0 <= i < a.len(),
        0 <= j < b.len(),
        a[i].same(b[j]),
    ensures
        settled(a.remove(i), b.remove(j)),
{
    let lined = choose|lined: Seq<CookieView>| #[trigger]
        reordered(lined, b) && pairwise_same(a, lined);
    let k = lemma_reordered_place(lined, b, j);
    let shifted = lined.update(k, lined[i]);
    let swapped = shifted.update(i, b[j]);
    vstd::seq_lib::to_multiset_update(lined, k, lined[i]);
    vstd::seq_lib::to_multiset_update(shifted, i, b[j]);
    assert(reordered(swapped, b)) by {
        broadcast use vstd::multiset::group_multiset_axioms;

        vstd::seq_lib::to_multiset_contains(lined, lined[i]);
        vstd::seq_lib::to_multiset_contains(lined, lined[k]);
        assert(lined.contains(lined[i]));
        assert(lined.contains(lined[k]));
        assert(swapped.to_multiset() =~= lined.to_multiset());
    }
    assert forall|n: int| 0 <= n < a.len() implies (#[trigger] a[n]).same(swapped[n]) by {
        assert(a[i].same(lined[i]));
        assert(a[k].same(lined[k]));
        assert(a[n].same(lined[n]));
    }
    lemma_remove_reordered(swapped, i, b, j);
    assert forall|n: int| 0 <= n < a.remove(i).len() implies (#[trigger] a.remove(i)[n]).same(
        swapped.remove(i)[n],
    ) by {
        if n < i {
            assert(a[n].same(swapped[n]));
        } else {
            assert(a[n + 1].same(swapped[n + 1]));
        }
    }
    assert(reordered(swapped.remove(i), b.remove(j)) && pairwise_same(
        a.remove(i),
        swapped.remove(i),
    ));
}

/// Two reads that agree still do once a pair of equal cookies is put into them.
proof fn lemma_pair_in(a: Seq<CookieView>, i: int, b: Seq<CookieView>, j: int)
    requires
        0 <= i < a.len(),
        0 <= j < b.len(),
        a[i].same(b[j]),
        settled(a.remove(i), b.remove(j)),
    ensures
        settled(a, b),
{
    let lined = choose|lined: Seq<CookieView>| #[trigger]
        reordered(lined, b.remove(j)) && pairwise_same(a.remove(i), lined);
    let grown = lined.insert(i, b[j]);
    lemma_insert_reordered(lined, i, b.remove(j), j, b[j]);
    assert(b.remove(j).insert(j, b[j]) =~= b);
    assert forall|n: int| 0 <= n < a.len() implies (#[trigger] a[n]).same(grown[n]) by {
        if n < i {
            assert(a.remove(i)[n].same(lined[n]));
        } else if n > i {
            assert(a.remove(i)[n - 1].same(lined[n - 1]));
        }
    }
    assert(reordered(grown, b) && pairwise_same(a, grown));
}

/// Where two reads agree, a cookie of the first has its equal in the second.
proof fn lemma_partner(a: Seq<CookieView>, b: Seq<CookieView>, i: int) -> (j: int)
    requires
        settled(a, b),
        0 <= i < a.len(),
    ensures
        a.len() == b.len(),
        0 <= j < b.len(),
        a[i].same(b[j]),
{
    let lined = choose|lined: Seq<CookieView>| #[trigger]
        reordered(lined, b) && pairwise_same(a, lined);
    lemma_reordered_len(lined, b);
    assert(a[i].same(lined[i]));
    lemma_reordered_place(b, lined, i)
}

// --- Comparing two reads. ---------------------------------------------------------------------

spec fn ref_views(cookies: Seq<&Cookie>) -> Seq<CookieView> {
    cookies.map_values(|c: &Cookie| c@)
}

/// The place of the first cookie equal to `cookie`.
fn position(cookies: &Vec<&Cookie>, cookie: &Cookie) -> (r: Option<usize>)
    ensures
        match r {
            Some(j) => j < cookies@.len() && cookie@.same(ref_views(cookies@)[j as int]),
            None => !has_same(ref_views(cookies@), cookie@),
        },
{
    let mut j: usize = 0;
    while j < cookies.len()
        invariant
            j <= cookies.len(),
            forall|k: int| 0 <= k < j ==> !cookie@.same(#[trigger] ref_views(cookies@)[k]),
        decreases cookies.len() - j,
    {
        if *cookie == *cookies[j] {
            return Some(j);
        }
        j += 1;
    }
    None
}

/// Order-insensitive equality of two reads: the protocols do not give the cookies in a stable
/// order, so each cookie of one read is matched with an equal one of the other wherever it stands.
pub fn cookies_stable(previous: &[Cookie], current: &[Cookie]) -> (r: bool)
    ensures
        r == settled(views(previous@), views(current@)),
{
    let ghost a = views(previous@);
    let ghost b = views(current@);
    if previous.len() != current.len() {
        proof {
            if settled(a, b) {
                let lined = choose|lined: Seq<CookieView>| #[trigger]
                    reordered(lined, b) && pairwise_same(a, lined);
                lemma_reordered_len(lined, b);
            }
        }
        return false;
    }
    let mut rest: Vec<&Cookie> = Vec::new();
    let mut n: usize = 0;
    while n < current.len()
        invariant
            n <= current.len(),
            b == views(current@),
            ref_views(rest@) =~= b.take(n as int),
        decreases current.len() - n,
    {
        let ghost before = rest@;
        rest.push(&current[n]);
        n += 1;
        proof {
            assert(ref_views(rest@) =~= ref_views(before).push(current@[n - 1]@));
            assert(b.take(n as int) =~= b.take(n - 1).push(b[n - 1]));
        }
    }
    let mut i: usize = 0;
    proof {
        assert(b.take(n as int) =~= b);
        assert(a.skip(0) =~= a);
    }
    while i < previous.len()
        invariant
            i <= previous.len(),
            a == views(previous@),
            b == views(current@),
            rest@.len() == previous@.len() - i,
            settled(a, b) == settled(a.skip(i as int), ref_views(rest@)),
        decreases previous.len() - i,
    {
        let ghost left = a.skip(i as int);
        let ghost right = ref_views(rest@);
        match position(&rest, &previous[i]) {
            None => {
                proof {
                    assert(left[0] == previous@[i as int]@);
                    if settled(left, right) {
                        let j = lemma_partner(left, right, 0);
                        assert(has_same(right, left[0]));
                    }
                }
                return false;
            },
            Some(j) => {
                let _ = rest.remove(j);
                proof {
                    assert(left[0] == previous@[i as int]@);
                    assert(left.remove(0) =~= a.skip(i + 1));
                    assert(right.remove(j as int) =~= ref_views(rest@));
                    if settled(left, right) {
                        lemma_pair_out(left, 0, right, j as int);
                    }
                    if settled(left.remove(0), right.remove(j as int)) {
                        lemma_pair_in(left, 0, right, j as int);
                    }
                }
                i += 1;
            },
        }
    }
    proof {
        let none = ref_views(rest@);
        assert(reordered(none, none) && pairwise_same(a.skip(i as int), none));
    }
    true
}

// --- Laws of agreeing reads. ------------------------------------------------------------------

/// A read holds a cookie equal to `cookie`.
pub open spec fn has_same(cookies: Seq<CookieView>, cookie: CookieView) -> bool {
    exists|j: int| 0 <= j < cookies.len() && cookie.same(#[trigger] cookies[j])
}

/// No two cookies of a read share a key.
pub open spec fn distinct_keys(cookies: Seq<CookieView>) -> bool {
    forall|i: int, j: int|
        0 <= i < j < cookies.len() ==> (#[trigger] cookies[i]).key() != (
        #[trigger] cookies[j]).key()
}

/// The order in which the cookies are read does not matter: any reordering of either read leaves
/// the answer as it is.
pub proof fn lemma_settled_ignores_order(
    a: Seq<CookieView>,
    b: Seq<CookieView>,
    reordered_a: Seq<CookieView>,
    reordered_b: Seq<CookieView>,
)
    requires
        reordered(reordered_a, a),
        reordered(reordered_b, b),
    ensures
        settled(reordered_a, reordered_b) == settled(a, b),
{
    if settled(a, b) {
        lemma_reorder_first(a, reordered_a, b);
        lemma_reorder_second(reordered_a, b, reordered_b);
    }
    if settled(reordered_a, reordered_b) {
        lemma_reorder_first(reordered_a, a, reordered_b);
        lemma_reorder_second(a, reordered_b, b);
    }
}

proof fn lemma_reorder_first(a: Seq<CookieView>, moved: Seq<CookieView>, b: Seq<CookieView>)
    requires
        reordered(moved, a),
        settled(a, b),
    ensures
        settled(moved, b),
    decreases a.len(),
{
    lemma_reordered_len(moved, a);
    if a.len() == 0 {
        assert(moved =~= a);
    } else {
        let k = lemma_reordered_place(a, moved, 0);
        let j = lemma_partner(a, b, k);
        lemma_pair_out(a, k, b, j);
        lemma_remove_reordered(moved, 0, a, k);
        lemma_reorder_first(a.remove(k), moved.remove(0), b.remove(j));
        lemma_pair_in(moved, 0, b, j);
    }
}

proof fn lemma_reorder_second(a: Seq<CookieView>, b: Seq<CookieView>, moved: Seq<CookieView>)
    requires
        reordered(moved, b),
        settled(a, b),
    ensures
        settled(a, moved),
{
    let lined = choose|lined: Seq<CookieView>| #[trigger]
        reordered(lined, b) && pairwise_same(a, lined);
    assert(reordered(lined, moved) && pairwise_same(a, lined));
}

/// A read always agrees with itself, where no expiry is a not-a-number.
pub proof fn lemma_settled_reflexive(cookies: Seq<CookieView>)
    requires
        forall|i: int| 0 <= i < cookies.len() ==> !(#[trigger] cookies[i]).expires.is_nan(),
    ensures
        settled(cookies, cookies),
{
    assert(reordered(cookies, cookies) && pairwise_same(cookies, cookies));
}

/// Agreement does not depend on which read came first.
pub proof fn lemma_settled_symmetric(a: Seq<CookieView>, b: Seq<CookieView>)
    ensures
        settled(a, b) == settled(b, a),
{
    if settled(a, b) {
        lemma_settled_flip(a, b);
    }
    if settled(b, a) {
        lemma_settled_flip(b, a);
    }
}

proof fn lemma_settled_flip(a: Seq<CookieView>, b: Seq<CookieView>)
    requires
        settled(a, b),
    ensures
        settled(b, a),
    decreases a.len(),
{
    if a.len() == 0 {
        let lined = choose|lined: Seq<CookieView>| #[trigger]
            reordered(lined, b) && pairwise_same(a, lined);
        lemma_reordered_len(lined, b);
        assert(reordered(a, a) && pairwise_same(b, a));
    } else {
        let j = lemma_partner(a, b, 0);
        lemma_pair_out(a, 0, b, j);
        lemma_settled_flip(a.remove(0), b.remove(j));
        lemma_pair_in(b, j, a, 0);
    }
}

/// Reads that agree with a third one agree with each other.
pub proof fn lemma_settled_transitive(
    a: Seq<CookieView>,
    b: Seq<CookieView>,
    c: Seq<CookieView>,
)
    requires
        settled(a, b),
        settled(b, c),
    ensures
        settled(a, c),
{
    let middle = choose|lined: Seq<CookieView>| #[trigger]
        reordered(lined, b) && pairwise_same(a, lined);
    lemma_reorder_first(b, middle, c);
    let lined = choose|lined: Seq<CookieView>| #[trigger]
        reordered(lined, c) && pairwise_same(middle, lined);
    assert forall|i: int| 0 <= i < a.len() implies (#[trigger] a[i]).same(lined[i]) by {
        assert(a[i].same(middle[i]));
        assert(middle[i].same(lined[i]));
    }
    assert(reordered(lined, c) && pairwise_same(a, lined));
}

/// Where two reads agree, each cookie of one has its equal in the other: no cookie appeared, went
/// away or changed in between.
pub proof fn lemma_settled_same_cookies(a: Seq<CookieView>, b: Seq<CookieView>)
    requires
        settled(a, b),
    ensures
        a.len() == b.len(),
        forall|i: int| 0 <= i < a.len() ==> has_same(b, #[trigger] a[i]),
        forall|i: int| 0 <= i < b.len() ==> has_same(a, #[trigger] b[i]),
{
    let lined = choose|lined: Seq<CookieView>| #[trigger]
        reordered(lined, b) && pairwise_same(a, lined);
    lemma_reordered_len(lined, b);
    lemma_settled_flip(a, b);
    assert forall|i: int| 0 <= i < a.len() implies has_same(b, #[trigger] a[i]) by {
        let j = lemma_partner(a, b, i);
    }
    assert forall|i: int| 0 <= i < b.len() implies has_same(a, #[trigger] b[i]) by {
        let j = lemma_partner(b, a, i);
    }
}

/// Reads without two cookies of one key agree exactly where they are equal as sets keyed by name,
/// domain and path.
pub proof fn lemma_settled_as_sets(a: Seq<CookieView>, b: Seq<CookieView>)
    requires
        distinct_keys(a),
    ensures
        settled(a, b) <==> a.len() == b.len() && forall|i: int|
            0 <= i < a.len() ==> has_same(b, #[trigger] a[i]),
    decreases a.len(),
{
    if settled(a, b) {
        lemma_settled_same_cookies(a, b);
    }
    if a.len() == b.len() && forall|i: int| 0 <= i < a.len() ==> has_same(b, #[trigger] a[i]) {
        if a.len() == 0 {
            assert(reordered(b, b) && pairwise_same(a, b));
        } else {
            assert(has_same(b, a[0]));
            let j = choose|j: int| 0 <= j < b.len() && a[0].same(#[trigger] b[j]);
            let rest_a = a.remove(0);
            let rest_b = b.remove(j);
            assert(distinct_keys(rest_a)) by {
                assert forall|m: int, n: int| 0 <= m < n < rest_a.len() implies (
                #[trigger] rest_a[m]).key() != (#[trigger] rest_a[n]).key() by {
                    assert(a[m + 1].key() != a[n + 1].key());
                }
            }
            assert forall|i: int| 0 <= i < rest_a.len() implies has_same(
                rest_b,
                #[trigger] rest_a[i],
            ) by {
                assert(rest_a[i] == a[i + 1]);
                assert(has_same(b, a[i + 1]));
                let k = choose|k: int| 0 <= k < b.len() && a[i + 1].same(#[trigger] b[k]);
                assert(a[0].key() != a[i + 1].key());
                assert(k != j);
                let at = if k < j {
                    k
                } else {
                    k - 1
                };
                assert(rest_b[at] == b[k]);
            }
            lemma_settled_as_sets(rest_a, rest_b);
            lemma_pair_in(a, 0, b, j);
        }
    }
}

/// The cookies of a read that equal `cookie`.
pub open spec fn equals_of(cookies: Seq<CookieView>, cookie: CookieView) -> Seq<CookieView> {
    cookies.filter(|c: CookieView| cookie.same(c))
}

/// Where two reads agree, each cookie is there equally often in both.
pub proof fn lemma_settled_keeps_counts(
    a: Seq<CookieView>,
    b: Seq<CookieView>,
    cookie: CookieView,
)
    requires
        settled(a, b),
    ensures
        equals_of(a, cookie).len() == equals_of(b, cookie).len(),
{
    let lined = choose|lined: Seq<CookieView>| #[trigger]
        reordered(lined, b) && pairwise_same(a, lined);
    lemma_pairwise_counts(a, lined, cookie);
    lemma_reordered_counts(lined, b, cookie);
}

proof fn lemma_pairwise_counts(a: Seq<CookieView>, b: Seq<CookieView>, cookie: CookieView)
    requires
        pairwise_same(a, b),
    ensures
        equals_of(a, cookie).len() == equals_of(b, cookie).len(),
    decreases a.len(),
{
    reveal(Seq::filter);
    if a.len() > 0 {
        assert(a[a.len() - 1].same(b[b.len() - 1]));
        assert forall|i: int| 0 <= i < a.drop_last().len() implies (
        #[trigger] a.drop_last()[i]).same(b.drop_last()[i]) by {
            assert(a[i].same(b[i]));
        }
        lemma_pairwise_counts(a.drop_last(), b.drop_last(), cookie);
    }
}

proof fn lemma_reordered_counts(a: Seq<CookieView>, b: Seq<CookieView>, cookie: CookieView)
    requires
        reordered(a, b),
    ensures
        equals_of(a, cookie).len() == equals_of(b, cookie).len(),
    decreases a.len(),
{
    lemma_reordered_len(a, b);
    reveal(Seq::filter);
    if a.len() > 0 {
        let last = a.len() - 1;
        let j = lemma_reordered_place(b, a, last);
        lemma_remove_reordered(a, last, b, j);
        lemma_reordered_counts(a.remove(last), b.remove(j), cookie);
        assert(a.remove(last) =~= a.drop_last());
        lemma_count_without(b, j, cookie);
    }
}

proof fn lemma_count_without(a: Seq<CookieView>, j: int, cookie: CookieView)
    requires
        0 <= j < a.len(),
    ensures
        equals_of(a, cookie).len() == equals_of(a.remove(j), cookie).len() + if cookie.same(a[j]) {
            1nat
        } else {
            0nat
        },
    decreases a.len(),
{
    reveal(Seq::filter);
    let last = a.len() - 1;
    if j == last {
        assert(a.remove(j) =~= a.drop_last());
    } else {
        lemma_count_without(a.drop_last(), j, cookie);
        assert(a.remove(j).drop_last() =~= a.drop_last().remove(j));
        assert(a.remove(j).last() == a.last());
    }
}

} // verus!
