//! Stable ordering of texts by a key, as `sort_by_key` with a `String` key does.

use vstd::prelude::*;
use vstd::set_lib::{lemma_int_range, lemma_subset_equality, set_int_range};

use crate::search::as_strs;
use crate::text::{lowercase, lowercase_chars, starts_with};

verus! {

/// Lexicographic order on texts by character (code point). UTF-8 keeps the order of
/// code points, so this is the order of `String`'s `Ord`.
pub open spec fn text_le(a: Seq<char>, b: Seq<char>) -> bool
    decreases a.len(),
{
    if a.len() == 0 {
        true
    } else if b.len() == 0 {
        false
    } else if a[0] != b[0] {
        a[0] < b[0]
    } else {
        text_le(a.drop_first(), b.drop_first())
    }
}

/// Strictly before in the text order.
pub open spec fn text_lt(a: Seq<char>, b: Seq<char>) -> bool {
    text_le(a, b) && a != b
}

/// Position `i` comes before position `j` in a stable sort by `keys`: a smaller key,
/// or an equal key and an earlier position.
pub open spec fn sorts_before(keys: Seq<Seq<char>>, i: int, j: int) -> bool {
    ||| text_lt(keys[i], keys[j])
    ||| (keys[i] == keys[j] && i < j)
}

/// `order` lists the positions of `keys` in the order of a stable sort by key:
/// each position once, smaller keys first, equal keys in their first order.
pub open spec fn is_sort_order(keys: Seq<Seq<char>>, order: Seq<usize>) -> bool {
    &&& order.len() == keys.len()
    &&& forall|i: int| 0 <= i < order.len() ==> #[trigger] order[i] < keys.len()
    &&& forall|i: int, j: int|
        0 <= i < j < order.len() ==> sorts_before(keys, #[trigger] order[i] as int, #[trigger] order[j] as int)
}

pub proof fn lemma_text_le_total(a: Seq<char>, b: Seq<char>)
    ensures
        text_le(a, b) || text_le(b, a),
    decreases a.len(),
{
    if a.len() > 0 && b.len() > 0 && a[0] == b[0] {
        lemma_text_le_total(a.drop_first(), b.drop_first());
    }
}

pub proof fn lemma_text_le_antisymmetric(a: Seq<char>, b: Seq<char>)
    requires
        text_le(a, b),
        text_le(b, a),
    ensures
        a == b,
    decreases a.len(),
{
    if a.len() > 0 && b.len() > 0 {
        if a[0] == b[0] {
            lemma_text_le_antisymmetric(a.drop_first(), b.drop_first());
            assert(a =~= seq![a[0]] + a.drop_first());
            assert(b =~= seq![b[0]] + b.drop_first());
        }
    } else {
        assert(a.len() == 0 && b.len() == 0);
        assert(a =~= b);
    }
}

pub proof fn lemma_text_le_transitive(a: Seq<char>, b: Seq<char>, c: Seq<char>)
    requires
        text_le(a, b),
        text_le(b, c),
    ensures
        text_le(a, c),
    decreases a.len(),
{
    if a.len() > 0 && b.len() > 0 && c.len() > 0 && a[0] == b[0] && b[0] == c[0] {
        lemma_text_le_transitive(a.drop_first(), b.drop_first(), c.drop_first());
    }
}

pub proof fn lemma_text_lt_le_transitive(a: Seq<char>, b: Seq<char>, c: Seq<char>)
    requires
        text_lt(a, b),
        text_le(b, c),
    ensures
        text_lt(a, c),
{
    lemma_text_le_transitive(a, b, c);
    if a == c {
        lemma_text_le_antisymmetric(a, b);
    }
}

/// Whether `a` is strictly before `b` in the text order.
pub fn chars_lt(a: &Vec<char>, b: &Vec<char>) -> (r: bool)
    ensures
        r == text_lt(a@, b@),
{
    let n = a.len();
    let m = b.len();
    let mut i: usize = 0;
    assert(a@.skip(0) =~= a@);
    assert(b@.skip(0) =~= b@);
    while i < n && i < m
        invariant
            n == a@.len(),
            m == b@.len(),
            i <= n,
            i <= m,
            a@.subrange(0, i as int) == b@.subrange(0, i as int),
            text_le(a@, b@) == text_le(a@.skip(i as int), b@.skip(i as int)),
        decreases n - i,
    {
        if a[i] != b[i] {
            let r = a[i] < b[i];
            assert(a@.skip(i as int)[0] == a@[i as int]);
            assert(b@.skip(i as int)[0] == b@[i as int]);
            assert(a@[i as int] != b@[i as int]);
            return r;
        }
        assert(a@.skip(i as int).drop_first() =~= a@.skip(i + 1));
        assert(b@.skip(i as int).drop_first() =~= b@.skip(i + 1));
        assert(a@.subrange(0, i + 1) =~= a@.subrange(0, i as int).push(a@[i as int]));
        assert(b@.subrange(0, i + 1) =~= b@.subrange(0, i as int).push(b@[i as int]));
        i = i + 1;
    }
    if i == n {
        // `a` is a prefix of `b`
        assert(a@ =~= a@.subrange(0, n as int));
        if n == m {
            assert(b@ =~= b@.subrange(0, m as int));
            assert(a@ == b@);
            false
        } else {
            assert(a@.skip(i as int).len() == 0);
            assert(a@ != b@) by {
                assert(a@.len() != b@.len());
            }
            true
        }
    } else {
        assert(b@.skip(i as int).len() == 0);
        assert(a@.skip(i as int).len() > 0);
        false
    }
}

/// The positions of `keys` in the order of a stable sort by key.
pub fn sort_order(keys: &Vec<Vec<char>>) -> (order: Vec<usize>)
    ensures
        is_sort_order(keys.deep_view(), order@),
{
    let ghost ks = keys.deep_view();
    let n = keys.len();
    let mut order: Vec<usize> = Vec::new();
    let mut m: usize = 0;
    while m < n
        invariant
            n == keys.len(),
            ks == keys.deep_view(),
            ks.len() == n,
            m <= n,
            order.len() == m,
            forall|i: int| 0 <= i < order.len() ==> #[trigger] order@[i] < m,
            forall|i: int, j: int|
                0 <= i < j < order.len() ==> sorts_before(ks, #[trigger] order@[i] as int, #[trigger] order@[j] as int),
        decreases n - m,
    {
        let mut p: usize = 0;
        while p < order.len() && !chars_lt(&keys[m], &keys[order[p]])
            invariant
                n == keys.len(),
                ks == keys.deep_view(),
                ks.len() == n,
                m < n,
                order.len() == m,
                p <= order.len(),
                forall|i: int| 0 <= i < order.len() ==> #[trigger] order@[i] < m,
                forall|q: int| 0 <= q < p ==> !text_lt(ks[m as int], ks[#[trigger] order@[q] as int]),
            decreases order.len() - p,
        {
            assert(keys@[m as int]@ == ks[m as int]);
            assert(keys@[order@[p as int] as int]@ == ks[order@[p as int] as int]);
            p = p + 1;
        }
        proof {
            if p < order.len() {
                assert(keys@[m as int]@ == ks[m as int]);
                assert(keys@[order@[p as int] as int]@ == ks[order@[p as int] as int]);
                assert(text_lt(ks[m as int], ks[order@[p as int] as int]));
            }
        }
        let ghost old_order = order@;
        order.insert(p, m);
        proof {
            assert(order@ == old_order.insert(p as int, m));
            assert forall|i: int, j: int|
                0 <= i < j < order.len() implies sorts_before(ks, #[trigger] order@[i] as int, #[trigger] order@[j] as int) by {
                if i < p && j < p {
                    assert(order@[i] == old_order[i] && order@[j] == old_order[j]);
                } else if i > p && j > p {
                    assert(order@[i] == old_order[i - 1] && order@[j] == old_order[j - 1]);
                } else if i < p && j == p {
                    let a = old_order[i] as int;
                    assert(order@[i] == old_order[i]);
                    assert(!text_lt(ks[m as int], ks[a]));
                    lemma_text_le_total(ks[m as int], ks[a]);
                    assert(text_le(ks[a], ks[m as int]));
                } else if i < p && j > p {
                    assert(order@[i] == old_order[i] && order@[j] == old_order[j - 1]);
                    assert(sorts_before(ks, old_order[i] as int, old_order[j - 1] as int));
                } else {
                    // i == p, j > p: the new position sorts before every later one
                    let b = old_order[j - 1] as int;
                    let c = old_order[p as int] as int;
                    assert(order@[j] == old_order[j - 1]);
                    assert(text_lt(ks[m as int], ks[c]));
                    if j - 1 > p {
                        assert(sorts_before(ks, c, b));
                        if text_lt(ks[c], ks[b]) {
                            lemma_text_lt_le_transitive(ks[m as int], ks[c], ks[b]);
                        } else {
                            assert(ks[c] == ks[b]);
                        }
                    }
                }
            }
        }
        m = m + 1;
    }
    order
}

/// The sort keys of texts: each one in lower case.
pub open spec fn lowercase_keys(s: Seq<Seq<char>>) -> Seq<Seq<char>> {
    s.map_values(|t: Seq<char>| lowercase(t))
}

/// `r` is `s` stably sorted by the lower-case form of each text, as
/// `sort_by_key(|t| t.to_lowercase())` sorts.
pub open spec fn is_sorted_by_lowercase(s: Seq<Seq<char>>, r: Seq<Seq<char>>) -> bool {
    exists|order: Seq<usize>|
        #![trigger is_sort_order(lowercase_keys(s), order)]
        is_sort_order(lowercase_keys(s), order) && r == order.map_values(|i: usize| s[i as int])
}

/// The lower-case key of each text of `items`.
fn lowercase_key_list(items: &Vec<&str>) -> (keys: Vec<Vec<char>>)
    ensures
        keys.deep_view() == lowercase_keys(items.deep_view()),
{
    let n = items.len();
    let mut keys: Vec<Vec<char>> = Vec::new();
    let mut i: usize = 0;
    while i < n
        invariant
            n == items.len(),
            i <= n,
            keys.deep_view() == lowercase_keys(items.deep_view()).subrange(0, i as int),
        decreases n - i,
    {
        let k = lowercase_chars(items[i]);
        let ghost old_keys = keys.deep_view();
        proof {
            assert(k.deep_view() =~= k@);
        }
        keys.push(k);
        assert(keys.deep_view() =~= old_keys.push(k@));
        assert(keys.deep_view() =~= lowercase_keys(items.deep_view()).subrange(0, i + 1));
        i = i + 1;
    }
    assert(keys.deep_view() =~= lowercase_keys(items.deep_view()));
    keys
}

/// The positions of `items` in the order of a stable sort by lower-case form.
pub fn lowercase_sort_order(items: &Vec<&str>) -> (order: Vec<usize>)
    ensures
        is_sort_order(lowercase_keys(items.deep_view()), order@),
{
    let keys = lowercase_key_list(items);
    sort_order(&keys)
}

/// `items` stably sorted by the lower-case form of each text.
pub fn sort_strs_by_lowercase<'a>(items: &Vec<&'a str>) -> (r: Vec<&'a str>)
    ensures
        is_sorted_by_lowercase(items.deep_view(), r.deep_view()),
{
    let order = lowercase_sort_order(items);
    let ghost s = items.deep_view();
    let n = order.len();
    let mut r: Vec<&'a str> = Vec::new();
    let mut i: usize = 0;
    while i < n
        invariant
            n == order.len(),
            s == items.deep_view(),
            is_sort_order(lowercase_keys(s), order@),
            i <= n,
            r.deep_view() == order@.map_values(|j: usize| s[j as int]).subrange(0, i as int),
        decreases n - i,
    {
        let ghost old_r = r.deep_view();
        r.push(items[order[i]]);
        assert(r.deep_view() =~= old_r.push(s[order@[i as int] as int]));
        assert(r.deep_view() =~= order@.map_values(|j: usize| s[j as int]).subrange(0, i + 1));
        i = i + 1;
    }
    assert(r.deep_view() =~= order@.map_values(|j: usize| s[j as int]));
    r
}

/// `items` stably sorted by the lower-case form of each text.
pub fn sort_by_lowercase(items: &Vec<String>) -> (r: Vec<String>)
    ensures
        is_sorted_by_lowercase(items.deep_view(), r.deep_view()),
{
    let refs = as_strs(items);
    let order = lowercase_sort_order(&refs);
    let ghost s = items.deep_view();
    let n = order.len();
    let mut r: Vec<String> = Vec::new();
    let mut i: usize = 0;
    while i < n
        invariant
            n == order.len(),
            s == items.deep_view(),
            is_sort_order(lowercase_keys(s), order@),
            i <= n,
            r.deep_view() == order@.map_values(|j: usize| s[j as int]).subrange(0, i as int),
        decreases n - i,
    {
        let t = items[order[i]].clone();
        let ghost old_r = r.deep_view();
        r.push(t);
        assert(r.deep_view() =~= old_r.push(s[order@[i as int] as int]));
        assert(r.deep_view() =~= order@.map_values(|j: usize| s[j as int]).subrange(0, i + 1));
        i = i + 1;
    }
    assert(r.deep_view() =~= order@.map_values(|j: usize| s[j as int]));
    r
}

proof fn lemma_sorts_before_asymmetric(keys: Seq<Seq<char>>, a: int, b: int)
    requires
        sorts_before(keys, a, b),
    ensures
        !sorts_before(keys, b, a),
        a != b,
{
    if text_lt(keys[b], keys[a]) {
        lemma_text_le_antisymmetric(keys[a], keys[b]);
    }
}

/// The positions of a sort order as integers.
spec fn positions(o: Seq<usize>) -> Seq<int> {
    o.map_values(|x: usize| x as int)
}

/// A sort order lists every position of the keys.
proof fn lemma_sort_order_covers(keys: Seq<Seq<char>>, o: Seq<usize>)
    requires
        is_sort_order(keys, o),
    ensures
        forall|k: int| 0 <= k < keys.len() ==> #[trigger] positions(o).contains(k),
{
    let n = keys.len() as int;
    let p = positions(o);
    assert forall|i: int, j: int| 0 <= i < p.len() && 0 <= j < p.len() && i != j implies p[i] != p[j] by {
        if i < j {
            lemma_sorts_before_asymmetric(keys, o[i] as int, o[j] as int);
        } else {
            lemma_sorts_before_asymmetric(keys, o[j] as int, o[i] as int);
        }
    }
    assert(p.no_duplicates());
    p.unique_seq_to_set();
    lemma_int_range(0, n);
    assert(p.to_set().subset_of(set_int_range(0, n))) by {
        assert forall|x: int| p.to_set().contains(x) implies set_int_range(0, n).contains(x) by {
            let i = choose|i: int| 0 <= i < p.len() && p[i] == x;
            assert(o[i] < keys.len());
        }
    }
    lemma_subset_equality(p.to_set(), set_int_range(0, n));
    assert forall|k: int| 0 <= k < keys.len() implies #[trigger] positions(o).contains(k) by {
        assert(set_int_range(0, n).contains(k));
        assert(p.to_set().contains(k));
    }
}

/// In a sort order, the positions listed before the `i`th are exactly those that
/// sort before it, so there are `i` of them.
proof fn lemma_count_before(keys: Seq<Seq<char>>, o: Seq<usize>, i: int)
    requires
        is_sort_order(keys, o),
        0 <= i < o.len(),
    ensures
        positions(o).take(i).to_set() == Set::new(
            |y: int| 0 <= y < keys.len() && sorts_before(keys, y, o[i] as int),
        ),
        positions(o).take(i).to_set().len() == i,
{
    let p = positions(o);
    let x = o[i] as int;
    let before = p.take(i);
    let preds = Set::new(|y: int| 0 <= y < keys.len() && sorts_before(keys, y, x));
    lemma_sort_order_covers(keys, o);
    assert forall|y: int| before.to_set().contains(y) implies preds.contains(y) by {
        let q = choose|q: int| 0 <= q < before.len() && before[q] == y;
        assert(p[q] == o[q] as int);
    }
    assert forall|y: int| preds.contains(y) implies before.to_set().contains(y) by {
        assert(p.contains(y));
        let q = choose|q: int| 0 <= q < p.len() && p[q] == y;
        if q == i {
            lemma_sorts_before_asymmetric(keys, y, x);
        } else if q > i {
            lemma_sorts_before_asymmetric(keys, x, y);
        } else {
            assert(before[q] == y);
        }
    }
    assert(before.to_set() =~= preds);
    assert forall|a: int, b: int| 0 <= a < before.len() && 0 <= b < before.len() && a != b implies before[a] != before[b] by {
        if a < b {
            lemma_sorts_before_asymmetric(keys, o[a] as int, o[b] as int);
        } else {
            lemma_sorts_before_asymmetric(keys, o[b] as int, o[a] as int);
        }
    }
    assert(before.no_duplicates());
    before.unique_seq_to_set();
}

/// There is only one sort order for given keys.
pub proof fn lemma_sort_order_unique(keys: Seq<Seq<char>>, o1: Seq<usize>, o2: Seq<usize>)
    requires
        is_sort_order(keys, o1),
        is_sort_order(keys, o2),
    ensures
        o1 == o2,
{
    assert forall|i: int| 0 <= i < o1.len() implies o1[i] == o2[i] by {
        let x = o1[i] as int;
        lemma_sort_order_covers(keys, o2);
        assert(positions(o2).contains(x));
        let j = choose|j: int| 0 <= j < positions(o2).len() && positions(o2)[j] == x;
        lemma_count_before(keys, o1, i);
        lemma_count_before(keys, o2, j);
        assert(o2[j] as int == x);
        assert(i == j);
    }
    assert(o1 =~= o2);
}

/// A stable sort by lower-case form has one result: two results of sorting the
/// same texts are equal.
pub proof fn lemma_sorted_by_lowercase_unique(s: Seq<Seq<char>>, r1: Seq<Seq<char>>, r2: Seq<Seq<char>>)
    requires
        is_sorted_by_lowercase(s, r1),
        is_sorted_by_lowercase(s, r2),
    ensures
        r1 == r2,
{
    let o1 = choose|o: Seq<usize>| #![trigger is_sort_order(lowercase_keys(s), o)]
        is_sort_order(lowercase_keys(s), o) && r1 == o.map_values(|i: usize| s[i as int]);
    let o2 = choose|o: Seq<usize>| #![trigger is_sort_order(lowercase_keys(s), o)]
        is_sort_order(lowercase_keys(s), o) && r2 == o.map_values(|i: usize| s[i as int]);
    lemma_sort_order_unique(lowercase_keys(s), o1, o2);
}

/// Sorting texts that are already sorted changes nothing: sorting twice gives
/// what sorting once gives.
pub proof fn lemma_sort_twice(s: Seq<Seq<char>>, r: Seq<Seq<char>>, r2: Seq<Seq<char>>)
    requires
        is_sorted_by_lowercase(s, r),
        is_sorted_by_lowercase(r, r2),
    ensures
        r2 == r,
{
    let ks = lowercase_keys(s);
    let o = choose|o: Seq<usize>| #![trigger is_sort_order(lowercase_keys(s), o)]
        is_sort_order(lowercase_keys(s), o) && r == o.map_values(|i: usize| s[i as int]);
    let n = r.len();
    if n > 0 {
        lemma_sort_order_covers(ks, o);
        assert(positions(o).contains(n - 1));
    }
    let id = Seq::new(n, |i: int| i as usize);
    let kr = lowercase_keys(r);
    assert forall|i: int| 0 <= i < n implies kr[i] == ks[o[i] as int] by {}
    assert forall|i: int, j: int| 0 <= i < j < id.len() implies sorts_before(kr, #[trigger] id[i] as int, #[trigger] id[j] as int) by {
        assert(sorts_before(ks, o[i] as int, o[j] as int));
        assert(id[i] as int == i && id[j] as int == j);
    }
    assert(is_sort_order(kr, id));
    assert(r =~= id.map_values(|i: usize| r[i as int]));
    assert(is_sorted_by_lowercase(r, r));
    lemma_sorted_by_lowercase_unique(r, r, r2);
}

/// `a` and `b` agree before position `k`, and there `a` has the smaller character.
pub open spec fn first_smaller_at(a: Seq<char>, b: Seq<char>, k: int) -> bool {
    &&& 0 <= k < a.len()
    &&& k < b.len()
    &&& a.take(k) == b.take(k)
    &&& a[k] < b[k]
}

/// The text order is the lexicographic order: `a` comes at or before `b` exactly
/// when `a` is a prefix of `b` (the empty text included) or, at the first position
/// where they differ, `a` has the smaller character.
pub proof fn lemma_text_le_lexicographic(a: Seq<char>, b: Seq<char>)
    ensures
        text_le(a, b) <==> (starts_with(b, a) || exists|k: int| #[trigger] first_smaller_at(a, b, k)),
    decreases a.len(),
{
    if a.len() == 0 {
        assert(b.subrange(0, 0) =~= a);
    } else if b.len() == 0 {
        assert forall|k: int| !#[trigger] first_smaller_at(a, b, k) by {}
    } else if a[0] != b[0] {
        assert(!starts_with(b, a)) by {
            if starts_with(b, a) {
                assert(b.subrange(0, a.len() as int)[0] == a[0]);
            }
        }
        assert forall|k: int| #[trigger] first_smaller_at(a, b, k) implies k == 0 by {
            if k > 0 {
                assert(a.take(k)[0] == b.take(k)[0]);
            }
        }
        if a[0] < b[0] {
            assert(a.take(0) =~= b.take(0));
            assert(first_smaller_at(a, b, 0));
        }
    } else {
        let a1 = a.drop_first();
        let b1 = b.drop_first();
        lemma_text_le_lexicographic(a1, b1);
        // prefixes correspond
        if starts_with(b1, a1) {
            assert(b.subrange(0, a.len() as int) =~= a) by {
                assert forall|i: int| 0 <= i < a.len() implies b.subrange(0, a.len() as int)[i] == a[i] by {
                    if i > 0 {
                        assert(b1.subrange(0, a1.len() as int)[i - 1] == a1[i - 1]);
                    }
                }
            }
        }
        if starts_with(b, a) {
            assert(b1.subrange(0, a1.len() as int) =~= a1) by {
                assert forall|i: int| 0 <= i < a1.len() implies b1.subrange(0, a1.len() as int)[i] == a1[i] by {
                    assert(b.subrange(0, a.len() as int)[i + 1] == a[i + 1]);
                }
            }
        }
        // divergence points correspond, shifted by one
        assert forall|k: int| #[trigger] first_smaller_at(a1, b1, k) implies first_smaller_at(a, b, k + 1) by {
            assert(a.take(k + 1) =~= seq![a[0]] + a1.take(k));
            assert(b.take(k + 1) =~= seq![b[0]] + b1.take(k));
        }
        assert forall|k: int| #[trigger] first_smaller_at(a, b, k) implies k >= 1 && first_smaller_at(a1, b1, k - 1) by {
            assert(k != 0);
            assert(a1.take(k - 1) =~= a.take(k).drop_first());
            assert(b1.take(k - 1) =~= b.take(k).drop_first());
        }
        if exists|k: int| #[trigger] first_smaller_at(a1, b1, k) {
            let k = choose|k: int| #[trigger] first_smaller_at(a1, b1, k);
            assert(first_smaller_at(a, b, k + 1));
        }
        if exists|k: int| #[trigger] first_smaller_at(a, b, k) {
            let k = choose|k: int| #[trigger] first_smaller_at(a, b, k);
            assert(first_smaller_at(a1, b1, k - 1));
        }
    }
}

/// A proper prefix comes strictly before every text that extends it, as in
/// `String`'s order.
pub proof fn lemma_proper_prefix_first(a: Seq<char>, b: Seq<char>)
    requires
        b.len() > 0,
    ensures
        text_lt(a, a + b),
        !text_le(a + b, a),
{
    lemma_text_le_lexicographic(a, a + b);
    assert((a + b).subrange(0, a.len() as int) =~= a);
    assert(a != a + b) by {
        assert((a + b).len() != a.len());
    }
    if text_le(a + b, a) {
        lemma_text_le_antisymmetric(a, a + b);
    }
}

/// A stable sort keeps the texts: the result has as many texts as the input and
/// holds exactly the texts of the input, no others.
pub proof fn lemma_sorted_same_texts(s: Seq<Seq<char>>, r: Seq<Seq<char>>)
    requires
        is_sorted_by_lowercase(s, r),
    ensures
        r.len() == s.len(),
        forall|x: Seq<char>| #[trigger] r.contains(x) <==> s.contains(x),
{
    let o = choose|o: Seq<usize>| #![trigger is_sort_order(lowercase_keys(s), o)]
        is_sort_order(lowercase_keys(s), o) && r == o.map_values(|i: usize| s[i as int]);
    lemma_sort_order_covers(lowercase_keys(s), o);
    assert forall|x: Seq<char>| #[trigger] r.contains(x) <==> s.contains(x) by {
        if r.contains(x) {
            let i = choose|i: int| 0 <= i < r.len() && r[i] == x;
            assert(s[o[i] as int] == x);
        }
        if s.contains(x) {
            let j = choose|j: int| 0 <= j < s.len() && s[j] == x;
            assert(positions(o).contains(j));
            let i = choose|i: int| 0 <= i < positions(o).len() && positions(o)[i] == j;
            assert(r[i] == x);
        }
    }
}

} // verus!
