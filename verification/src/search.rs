//! Finding the first text of a list that matches a name.

use vstd::prelude::*;

use crate::text::{eq_ignore_ascii_case, str_eq, str_eq_ignore_ascii_case};

verus! {

/// The position of the first text of `s` that equals `name` when ASCII letters
/// are compared without case, if there is one.
pub open spec fn first_ignore_case(s: Seq<Seq<char>>, name: Seq<char>) -> Option<int>
    decreases s.len(),
{
    if s.len() == 0 {
        None
    } else if eq_ignore_ascii_case(s[0], name) {
        Some(0)
    } else {
        match first_ignore_case(s.drop_first(), name) {
            Some(i) => Some(i + 1),
            None => None,
        }
    }
}

/// The position of the first text of `s` that equals `name`, if there is one.
pub open spec fn first_equal(s: Seq<Seq<char>>, name: Seq<char>) -> Option<int>
    decreases s.len(),
{
    if s.len() == 0 {
        None
    } else if s[0] == name {
        Some(0)
    } else {
        match first_equal(s.drop_first(), name) {
            Some(i) => Some(i + 1),
            None => None,
        }
    }
}

/// `first_ignore_case` is the smallest matching position, or `None` when no text matches.
pub proof fn lemma_first_ignore_case(s: Seq<Seq<char>>, name: Seq<char>)
    ensures
        match first_ignore_case(s, name) {
            Some(i) => 0 <= i < s.len() && eq_ignore_ascii_case(s[i], name) && forall|j: int|
                0 <= j < i ==> !eq_ignore_ascii_case(#[trigger] s[j], name),
            None => forall|j: int| 0 <= j < s.len() ==> !eq_ignore_ascii_case(#[trigger] s[j], name),
        },
    decreases s.len(),
{
    if s.len() > 0 && !eq_ignore_ascii_case(s[0], name) {
        let t = s.drop_first();
        lemma_first_ignore_case(t, name);
        assert forall|j: int| 1 <= j < s.len() implies s[j] == t[j - 1] by {}
        match first_ignore_case(t, name) {
            Some(i) => {
                assert forall|j: int| 0 <= j < i + 1 implies !eq_ignore_ascii_case(#[trigger] s[j], name) by {
                    if j > 0 {
                        assert(s[j] == t[j - 1]);
                    }
                }
            },
            None => {
                assert forall|j: int| 0 <= j < s.len() implies !eq_ignore_ascii_case(#[trigger] s[j], name) by {
                    if j > 0 {
                        assert(s[j] == t[j - 1]);
                    }
                }
            },
        }
    }
}

/// `first_equal` is the smallest position holding `name`, or `None` when no text is `name`.
pub proof fn lemma_first_equal(s: Seq<Seq<char>>, name: Seq<char>)
    ensures
        match first_equal(s, name) {
            Some(i) => 0 <= i < s.len() && s[i] == name && forall|j: int| 0 <= j < i ==> #[trigger] s[j] != name,
            None => forall|j: int| 0 <= j < s.len() ==> #[trigger] s[j] != name,
        },
    decreases s.len(),
{
    if s.len() > 0 && s[0] != name {
        let t = s.drop_first();
        lemma_first_equal(t, name);
        match first_equal(t, name) {
            Some(i) => {
                assert forall|j: int| 0 <= j < i + 1 implies #[trigger] s[j] != name by {
                    if j > 0 {
                        assert(s[j] == t[j - 1]);
                    }
                }
            },
            None => {
                assert forall|j: int| 0 <= j < s.len() implies #[trigger] s[j] != name by {
                    if j > 0 {
                        assert(s[j] == t[j - 1]);
                    }
                }
            },
        }
    }
}

/// An `Option<usize>` position as an `Option<int>`.
pub open spec fn opt_pos(r: Option<usize>) -> Option<int> {
    match r {
        Some(i) => Some(i as int),
        None => None,
    }
}

/// The position of the first text of `items` that equals `name` when ASCII
/// letters are compared without case.
pub fn find_ignore_case(items: &Vec<&str>, name: &str) -> (r: Option<usize>)
    ensures
        opt_pos(r) == first_ignore_case(items.deep_view(), name@),
        r matches Some(i) ==> i < items@.len(),
{
    let ghost s = items.deep_view();
    let n = items.len();
    let mut i: usize = 0;
    while i < n
        invariant
            n == items.len(),
            s == items.deep_view(),
            i <= n,
            forall|j: int| 0 <= j < i ==> !eq_ignore_ascii_case(#[trigger] s[j], name@),
        decreases n - i,
    {
        if str_eq_ignore_ascii_case(items[i], name) {
            proof {
                lemma_first_ignore_case(s, name@);
                assert(s[i as int] == items@[i as int]@);
            }
            return Some(i);
        }
        i = i + 1;
    }
    proof {
        lemma_first_ignore_case(s, name@);
    }
    None
}

/// The position of the first text of `items` that equals `name`.
pub fn find_equal(items: &Vec<&str>, name: &str) -> (r: Option<usize>)
    ensures
        opt_pos(r) == first_equal(items.deep_view(), name@),
        r matches Some(i) ==> i < items@.len(),
{
    let ghost s = items.deep_view();
    let n = items.len();
    let mut i: usize = 0;
    while i < n
        invariant
            n == items.len(),
            s == items.deep_view(),
            i <= n,
            forall|j: int| 0 <= j < i ==> #[trigger] s[j] != name@,
        decreases n - i,
    {
        if str_eq(items[i], name) {
            proof {
                lemma_first_equal(s, name@);
                assert(s[i as int] == items@[i as int]@);
            }
            return Some(i);
        }
        i = i + 1;
    }
    proof {
        lemma_first_equal(s, name@);
    }
    None
}

/// Borrowed views of a list of texts, in order.
pub fn as_strs(v: &Vec<String>) -> (r: Vec<&str>)
    ensures
        r.deep_view() == v.deep_view(),
{
    let n = v.len();
    let mut r: Vec<&str> = Vec::new();
    let mut i: usize = 0;
    while i < n
        invariant
            n == v.len(),
            i <= n,
            r.deep_view() == v.deep_view().subrange(0, i as int),
        decreases n - i,
    {
        let ghost pre = r.deep_view();
        r.push(v[i].as_str());
        assert(r.deep_view() =~= pre.push(v.deep_view()[i as int]));
        assert(r.deep_view() =~= v.deep_view().subrange(0, i + 1));
        i = i + 1;
    }
    assert(r.deep_view() =~= v.deep_view());
    r
}

} // verus!
