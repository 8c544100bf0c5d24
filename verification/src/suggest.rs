//! Completion candidates for what the user has typed so far.

use vstd::prelude::*;

use crate::sorting::lowercase_keys;
use crate::text::{
    concat2, contains_text, lowercase, starts_with, str_starts_with, to_lowercase,
};

verus! {

/// The candidates that start with `p`, in order.
pub open spec fn prefix_filter(cands: Seq<Seq<char>>, p: Seq<char>) -> Seq<Seq<char>>
    decreases cands.len(),
{
    if cands.len() == 0 {
        seq![]
    } else if starts_with(cands.last(), p) {
        prefix_filter(cands.drop_last(), p).push(cands.last())
    } else {
        prefix_filter(cands.drop_last(), p)
    }
}

/// The candidates whose lower-case form starts with `q`, in order.
pub open spec fn lower_prefix_filter(cands: Seq<Seq<char>>, q: Seq<char>) -> Seq<Seq<char>>
    decreases cands.len(),
{
    if cands.len() == 0 {
        seq![]
    } else if starts_with(lowercase(cands.last()), q) {
        lower_prefix_filter(cands.drop_last(), q).push(cands.last())
    } else {
        lower_prefix_filter(cands.drop_last(), q)
    }
}

/// The texts of `s`, each kept only where no earlier text has the same
/// lower-case form.
pub open spec fn dedup_lower(s: Seq<Seq<char>>) -> Seq<Seq<char>>
    decreases s.len(),
{
    if s.len() == 0 {
        seq![]
    } else if lowercase_keys(s.drop_last()).contains(lowercase(s.last())) {
        dedup_lower(s.drop_last())
    } else {
        dedup_lower(s.drop_last()).push(s.last())
    }
}

/// `"/open "` followed by each name whose lower-case form starts with `q`.
pub open spec fn open_commands(names: Seq<Seq<char>>, q: Seq<char>) -> Seq<Seq<char>>
    decreases names.len(),
{
    if names.len() == 0 {
        seq![]
    } else if starts_with(lowercase(names.last()), q) {
        open_commands(names.drop_last(), q).push("/open "@ + names.last())
    } else {
        open_commands(names.drop_last(), q)
    }
}

/// The candidates that start with `p`, as new texts.
pub fn filter_prefix(cands: &Vec<&str>, p: &str) -> (r: Vec<String>)
    ensures
        r.deep_view() == prefix_filter(cands.deep_view(), p@),
{
    let ghost s = cands.deep_view();
    let n = cands.len();
    let mut r: Vec<String> = Vec::new();
    let mut i: usize = 0;
    while i < n
        invariant
            n == cands.len(),
            s == cands.deep_view(),
            i <= n,
            r.deep_view() == prefix_filter(s.subrange(0, i as int), p@),
        decreases n - i,
    {
        let ghost pre = r.deep_view();
        assert(s.subrange(0, i + 1).drop_last() =~= s.subrange(0, i as int));
        assert(s[i as int] == cands@[i as int]@);
        if str_starts_with(cands[i], p) {
            r.push(String::from_str(cands[i]));
            assert(r.deep_view() =~= pre.push(s[i as int]));
        }
        i = i + 1;
    }
    assert(s.subrange(0, n as int) =~= s);
    r
}

/// The candidates whose lower-case form starts with `q`, as new texts.
pub fn filter_lower_prefix(cands: &Vec<&str>, q: &str) -> (r: Vec<String>)
    ensures
        r.deep_view() == lower_prefix_filter(cands.deep_view(), q@),
{
    let ghost s = cands.deep_view();
    let n = cands.len();
    let mut r: Vec<String> = Vec::new();
    let mut i: usize = 0;
    while i < n
        invariant
            n == cands.len(),
            s == cands.deep_view(),
            i <= n,
            r.deep_view() == lower_prefix_filter(s.subrange(0, i as int), q@),
        decreases n - i,
    {
        let ghost pre = r.deep_view();
        assert(s.subrange(0, i + 1).drop_last() =~= s.subrange(0, i as int));
        assert(s[i as int] == cands@[i as int]@);
        let low = to_lowercase(cands[i]);
        if str_starts_with(low.as_str(), q) {
            r.push(String::from_str(cands[i]));
            assert(r.deep_view() =~= pre.push(s[i as int]));
        }
        i = i + 1;
    }
    assert(s.subrange(0, n as int) =~= s);
    r
}

/// The candidates whose lower-case form starts with `q`, each kept only where no
/// earlier one of them has the same lower-case form.
pub fn filter_lower_prefix_dedup(cands: &Vec<&str>, q: &str) -> (r: Vec<String>)
    ensures
        r.deep_view() == dedup_lower(lower_prefix_filter(cands.deep_view(), q@)),
{
    let ghost s = cands.deep_view();
    let n = cands.len();
    let mut r: Vec<String> = Vec::new();
    let mut seen: Vec<String> = Vec::new();
    let ghost mut matched: Seq<Seq<char>> = seq![];
    let mut i: usize = 0;
    while i < n
        invariant
            n == cands.len(),
            s == cands.deep_view(),
            i <= n,
            matched == lower_prefix_filter(s.subrange(0, i as int), q@),
            r.deep_view() == dedup_lower(matched),
            forall|k: Seq<char>| #[trigger] seen.deep_view().contains(k) <==> lowercase_keys(matched).contains(k),
        decreases n - i,
    {
        let ghost pre = r.deep_view();
        assert(s.subrange(0, i + 1).drop_last() =~= s.subrange(0, i as int));
        assert(s[i as int] == cands@[i as int]@);
        let low = to_lowercase(cands[i]);
        if str_starts_with(low.as_str(), q) {
            let ghost next = matched.push(s[i as int]);
            assert(next.drop_last() =~= matched);
            assert(lowercase_keys(next) =~= lowercase_keys(matched).push(low@));
            if !contains_text(&seen, low.as_str()) {
                r.push(String::from_str(cands[i]));
                assert(r.deep_view() =~= pre.push(s[i as int]));
                let ghost seen_pre = seen.deep_view();
                seen.push(low);
                assert(seen.deep_view() =~= seen_pre.push(lowercase(s[i as int])));
                assert forall|k: Seq<char>| #[trigger] seen.deep_view().contains(k) <==> lowercase_keys(next).contains(k) by {
                    if seen.deep_view().contains(k) {
                        let j = choose|j: int| 0 <= j < seen.deep_view().len() && seen.deep_view()[j] == k;
                        if j < seen_pre.len() {
                            assert(seen_pre[j] == k);
                            assert(seen_pre.contains(k));
                            let m = choose|m: int| 0 <= m < lowercase_keys(matched).len() && lowercase_keys(matched)[m] == k;
                            assert(lowercase_keys(next)[m] == k);
                        } else {
                            assert(lowercase_keys(next)[matched.len() as int] == k);
                        }
                    }
                    if lowercase_keys(next).contains(k) {
                        let m = choose|m: int| 0 <= m < lowercase_keys(next).len() && lowercase_keys(next)[m] == k;
                        if m < matched.len() {
                            assert(lowercase_keys(matched)[m] == k);
                            assert(lowercase_keys(matched).contains(k));
                            assert(seen_pre.contains(k));
                            let j = choose|j: int| 0 <= j < seen_pre.len() && seen_pre[j] == k;
                            assert(seen.deep_view()[j] == k);
                        } else {
                            assert(seen.deep_view()[seen_pre.len() as int] == k);
                        }
                    }
                }
            } else {
                assert forall|k: Seq<char>| #[trigger] seen.deep_view().contains(k) <==> lowercase_keys(next).contains(k) by {
                    if lowercase_keys(next).contains(k) {
                        let m = choose|m: int| 0 <= m < lowercase_keys(next).len() && lowercase_keys(next)[m] == k;
                        if m < matched.len() {
                            assert(lowercase_keys(matched)[m] == k);
                            assert(lowercase_keys(matched).contains(k));
                        }
                    }
                    if seen.deep_view().contains(k) {
                        assert(lowercase_keys(matched).contains(k));
                        let m = choose|m: int| 0 <= m < lowercase_keys(matched).len() && lowercase_keys(matched)[m] == k;
                        assert(lowercase_keys(next)[m] == k);
                    }
                }
            }
            proof {
                matched = next;
            }
        }
        i = i + 1;
    }
    assert(s.subrange(0, n as int) =~= s);
    r
}

/// `"/open "` followed by each name whose lower-case form starts with `q`.
pub fn open_command_list(names: &Vec<&str>, q: &str) -> (r: Vec<String>)
    ensures
        r.deep_view() == open_commands(names.deep_view(), q@),
{
    let ghost s = names.deep_view();
    let n = names.len();
    let mut r: Vec<String> = Vec::new();
    let mut i: usize = 0;
    while i < n
        invariant
            n == names.len(),
            s == names.deep_view(),
            i <= n,
            r.deep_view() == open_commands(s.subrange(0, i as int), q@),
        decreases n - i,
    {
        let ghost pre = r.deep_view();
        assert(s.subrange(0, i + 1).drop_last() =~= s.subrange(0, i as int));
        assert(s[i as int] == names@[i as int]@);
        let low = to_lowercase(names[i]);
        if str_starts_with(low.as_str(), q) {
            r.push(concat2("/open ", names[i]));
            assert(r.deep_view() =~= pre.push("/open "@ + s[i as int]));
        }
        i = i + 1;
    }
    assert(s.subrange(0, n as int) =~= s);
    r
}

/// The prefix filter keeps exactly the candidates that start with `p`.
pub proof fn lemma_prefix_filter_members(cands: Seq<Seq<char>>, p: Seq<char>)
    ensures
        forall|x: Seq<char>|
            #[trigger] prefix_filter(cands, p).contains(x) <==> (cands.contains(x) && starts_with(x, p)),
    decreases cands.len(),
{
    if cands.len() > 0 {
        let init = cands.drop_last();
        lemma_prefix_filter_members(init, p);
        assert forall|x: Seq<char>|
            #[trigger] prefix_filter(cands, p).contains(x) <==> (cands.contains(x) && starts_with(x, p)) by {
            let r = prefix_filter(cands, p);
            let ri = prefix_filter(init, p);
            if r.contains(x) {
                let k = choose|k: int| 0 <= k < r.len() && r[k] == x;
                if k < ri.len() {
                    assert(ri[k] == x);
                    assert(ri.contains(x));
                    let m = choose|m: int| 0 <= m < init.len() && init[m] == x;
                    assert(cands[m] == x);
                } else {
                    assert(cands[cands.len() - 1] == x);
                }
            }
            if cands.contains(x) && starts_with(x, p) {
                let m = choose|m: int| 0 <= m < cands.len() && cands[m] == x;
                if m < cands.len() - 1 {
                    assert(init[m] == x);
                    assert(ri.contains(x));
                    let k = choose|k: int| 0 <= k < ri.len() && ri[k] == x;
                    assert(r[k] == x);
                } else {
                    assert(r[r.len() - 1] == x);
                }
            }
        }
    }
}

/// The open commands are exactly `"/open "` followed by a name whose lower-case
/// form starts with `q`.
pub proof fn lemma_open_commands_members(names: Seq<Seq<char>>, q: Seq<char>)
    ensures
        forall|x: Seq<char>|
            #[trigger] open_commands(names, q).contains(x) <==> exists|k: int|
                0 <= k < names.len() && x == "/open "@ + #[trigger] names[k] && starts_with(lowercase(names[k]), q),
    decreases names.len(),
{
    if names.len() > 0 {
        let init = names.drop_last();
        let n = names.len() - 1;
        lemma_open_commands_members(init, q);
        assert forall|x: Seq<char>|
            #[trigger] open_commands(names, q).contains(x) <==> exists|k: int|
                0 <= k < names.len() && x == "/open "@ + #[trigger] names[k] && starts_with(lowercase(names[k]), q) by {
            let r = open_commands(names, q);
            let ri = open_commands(init, q);
            if r.contains(x) {
                let i = choose|i: int| 0 <= i < r.len() && r[i] == x;
                if i < ri.len() {
                    assert(ri[i] == x);
                    assert(ri.contains(x));
                    let k = choose|k: int|
                        0 <= k < init.len() && x == "/open "@ + #[trigger] init[k] && starts_with(lowercase(init[k]), q);
                    assert(names[k] == init[k]);
                } else {
                    assert(names[n] == names.last());
                }
            }
            if exists|k: int| 0 <= k < names.len() && x == "/open "@ + #[trigger] names[k] && starts_with(lowercase(names[k]), q) {
                let k = choose|k: int|
                    0 <= k < names.len() && x == "/open "@ + #[trigger] names[k] && starts_with(lowercase(names[k]), q);
                if k < n {
                    assert(init[k] == names[k]);
                    assert(ri.contains(x));
                    let i = choose|i: int| 0 <= i < ri.len() && ri[i] == x;
                    assert(r[i] == x);
                } else {
                    assert(r[r.len() - 1] == x);
                }
            }
        }
    }
}

} // verus!
