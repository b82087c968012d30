//! Loose matching of names against a typed query.
use crate::names::views;
use crate::search::lower_case;
use crate::text::chars_of;
use vstd::prelude::*;

verus! {

/// Whether the characters of `a` stand in `b` in the same order, with anything
/// in between.
pub open spec fn is_subsequence(a: Seq<char>, b: Seq<char>) -> bool
    decreases b.len(),
{
    if a.len() == 0 {
        true
    } else if b.len() == 0 {
        false
    } else if a.last() == b.last() {
        is_subsequence(a.drop_last(), b.drop_last())
    } else {
        is_subsequence(a, b.drop_last())
    }
}

/// Whether a name matches a query: its letters in order, whatever their case.
/// The empty query matches everything.
pub open spec fn matches_query(query: Seq<char>, name: Seq<char>) -> bool {
    query.len() == 0 || is_subsequence(lower_case(query), lower_case(name))
}

/// The names that match a query, in their order.
pub open spec fn matching(query: Seq<char>, names: Seq<Seq<char>>) -> Seq<Seq<char>>
    decreases names.len(),
{
    if names.len() == 0 {
        Seq::empty()
    } else if matches_query(query, names.last()) {
        matching(query, names.drop_last()).push(names.last())
    } else {
        matching(query, names.drop_last())
    }
}

/// Whether a name matches a query.
pub fn fuzzy_matches(query: &str, name: &str) -> (r: bool)
    ensures
        r == matches_query(query@, name@),
{
    if query.is_empty() {
        return true;
    }
    let a = chars_of(query.to_lowercase().as_str());
    let b = chars_of(name.to_lowercase().as_str());
    let mut i: usize = a.len();
    let mut j: usize = b.len();
    assert(a@.take(i as int) =~= a@ && b@.take(j as int) =~= b@);
    while i > 0 && j > 0
        invariant
            i <= a@.len(),
            j <= b@.len(),
            is_subsequence(a@.take(i as int), b@.take(j as int)) == is_subsequence(a@, b@),
        decreases j,
    {
        proof {
            assert(a@.take(i as int).drop_last() =~= a@.take(i - 1));
            assert(b@.take(j as int).drop_last() =~= b@.take(j - 1));
            assert(a@.take(i as int).last() == a@[i - 1]);
            assert(b@.take(j as int).last() == b@[j - 1]);
        }
        if a[i - 1] == b[j - 1] {
            i -= 1;
        }
        j -= 1;
    }
    i == 0
}

/// The names that match a query, in their order.
pub fn fuzzy_match(query: &str, names: &Vec<String>) -> (r: Vec<String>)
    ensures
        views(r@) == matching(query@, views(names@)),
{
    let mut out: Vec<String> = Vec::new();
    let mut i: usize = 0;
    let ghost all = views(names@);
    proof {
        assert(all.take(0) =~= Seq::<Seq<char>>::empty());
        assert(views(out@) =~= Seq::<Seq<char>>::empty());
    }
    while i < names.len()
        invariant
            i <= names@.len(),
            all == views(names@),
            views(out@) == matching(query@, all.take(i as int)),
        decreases names@.len() - i,
    {
        proof {
            assert(all.take(i + 1).drop_last() =~= all.take(i as int));
            assert(all.take(i + 1).last() == names@[i as int]@);
        }
        if fuzzy_matches(query, names[i].as_str()) {
            let ghost before = out@;
            let name = names[i].clone();
            out.push(name);
            assert(views(out@) =~= views(before).push(name@));
        }
        i += 1;
    }
    assert(all.take(names@.len() as int) =~= all);
    out
}

/// Whether these are the places in `b`, from left to right, at which the
/// characters of `a` stand.
pub open spec fn are_places(at: Seq<int>, a: Seq<char>, b: Seq<char>) -> bool {
    &&& at.len() == a.len()
    &&& forall|i: int| 0 <= i < at.len() ==> 0 <= #[trigger] at[i] < b.len() && b[at[i]] == a[i]
    &&& forall|i: int, j: int| 0 <= i < j < at.len() ==> #[trigger] at[i] < #[trigger] at[j]
}

proof fn lemma_has_places(a: Seq<char>, b: Seq<char>)
    requires
        is_subsequence(a, b),
    ensures
        exists|at: Seq<int>| are_places(at, a, b),
    decreases b.len(),
{
    if a.len() == 0 {
        assert(are_places(Seq::empty(), a, b));
    } else if a.last() == b.last() {
        let front = b.drop_last();
        lemma_has_places(a.drop_last(), front);
        let before = choose|at: Seq<int>| are_places(at, a.drop_last(), front);
        let at = before.push(b.len() - 1);
        assert forall|i: int| 0 <= i < at.len() implies 0 <= #[trigger] at[i] < b.len() && b[at[i]]
            == a[i] by {
            if i < before.len() {
                assert(before[i] == at[i]);
                assert(front[before[i]] == a.drop_last()[i]);
            }
        }
        assert forall|i: int, j: int| 0 <= i < j < at.len() implies #[trigger] at[i]
            < #[trigger] at[j] by {
            assert(before[i] == at[i]);
            if j < before.len() {
                assert(before[j] == at[j]);
            }
        }
        assert(are_places(at, a, b));
    } else {
        let front = b.drop_last();
        lemma_has_places(a, front);
        let at = choose|at: Seq<int>| are_places(at, a, front);
        assert forall|i: int| 0 <= i < at.len() implies 0 <= #[trigger] at[i] < b.len() && b[at[i]]
            == a[i] by {
            assert(front[at[i]] == a[i]);
        }
        assert(are_places(at, a, b));
    }
}

proof fn lemma_from_places(a: Seq<char>, b: Seq<char>, at: Seq<int>)
    requires
        are_places(at, a, b),
    ensures
        is_subsequence(a, b),
    decreases b.len(),
{
    if a.len() > 0 {
        let n = a.len() - 1;
        assert(0 <= at[n] < b.len());
        let front = b.drop_last();
        if a.last() == b.last() {
            let rest = at.drop_last();
            assert forall|i: int| 0 <= i < rest.len() implies 0 <= #[trigger] rest[i] < front.len()
                && front[rest[i]] == a.drop_last()[i] by {
                assert(at[i] == rest[i]);
                assert(at[i] < at[n]);
            }
            assert forall|i: int, j: int| 0 <= i < j < rest.len() implies #[trigger] rest[i]
                < #[trigger] rest[j] by {
                assert(at[i] == rest[i] && at[j] == rest[j]);
            }
            assert(are_places(rest, a.drop_last(), front));
            lemma_from_places(a.drop_last(), front, rest);
        } else {
            assert forall|i: int| 0 <= i < at.len() implies 0 <= #[trigger] at[i] < front.len()
                && front[at[i]] == a[i] by {
                assert(b[at[n]] == a[n]);
                assert(at[n] != b.len() - 1);
                if i < n {
                    assert(at[i] < at[n]);
                }
            }
            assert(are_places(at, a, front));
            lemma_from_places(a, front, at);
        }
    }
}

/// A query finds a name when its characters stand in the name in their order,
/// whatever stands between them and whatever their case; the empty query finds
/// every name.
pub proof fn a_query_finds_its_letters_in_order(query: Seq<char>, name: Seq<char>)
    ensures
        matches_query(query, name) <==> query.len() == 0 || exists|at: Seq<int>|
            are_places(at, lower_case(query), lower_case(name)),
        query.len() == 0 ==> matches_query(query, name),
{
    let a = lower_case(query);
    let b = lower_case(name);
    if is_subsequence(a, b) {
        lemma_has_places(a, b);
    }
    if exists|at: Seq<int>| are_places(at, a, b) {
        let at = choose|at: Seq<int>| are_places(at, a, b);
        lemma_from_places(a, b, at);
    }
}

/// What a query leaves of a list is exactly what it finds.
pub proof fn a_query_keeps_what_it_finds(query: Seq<char>, names: Seq<Seq<char>>, name: Seq<char>)
    ensures
        matching(query, names).contains(name) <==> names.contains(name) && matches_query(
            query,
            name,
        ),
        matching(query, names).len() <= names.len(),
    decreases names.len(),
{
    if names.len() > 0 {
        let front = names.drop_last();
        let kept = matching(query, names);
        let before = matching(query, front);
        a_query_keeps_what_it_finds(query, front, name);
        if kept.contains(name) {
            let i = choose|i: int| 0 <= i < kept.len() && kept[i] == name;
            if i < before.len() {
                assert(before[i] == name);
                let k = choose|k: int| 0 <= k < front.len() && front[k] == name;
                assert(names[k] == name);
            } else {
                assert(names[names.len() - 1] == name);
            }
        }
        if names.contains(name) && matches_query(query, name) {
            let k = choose|k: int| 0 <= k < names.len() && names[k] == name;
            if k < front.len() {
                assert(front[k] == name);
                let i = choose|i: int| 0 <= i < before.len() && before[i] == name;
                assert(kept[i] == name);
            } else {
                assert(kept.last() == name);
            }
        }
    }
}

} // verus!
