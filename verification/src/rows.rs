//! The order of a status table's rows.
//!
//! A table sorts by state when it opens, what needs attention first, and then
//! holds still: acting on a row changes its state, and the row must not move
//! out from under the cursor that acted on it. Rows that the captured order
//! does not know come after all that it does.
use crate::names::{position_of, views};
use crate::text::{
    comes_before, lemma_text_order_total, lemma_text_order_transitive, text_before,
};
use vstd::prelude::*;

verus! {

/// What decides a row's place.
pub struct RowRank {
    /// Where the captured order has it.
    pub place: Option<int>,
    /// How urgent its state is; less is more urgent.
    pub bucket: int,
    pub name: Seq<char>,
}

/// Whether one row comes before another.
pub open spec fn ranks_before(a: RowRank, b: RowRank) -> bool {
    match (a.place, b.place) {
        (Some(x), Some(y)) => x < y,
        (Some(_), None) => true,
        (None, Some(_)) => false,
        (None, None) => a.bucket < b.bucket || (a.bucket == b.bucket && text_before(
            a.name,
            b.name,
        )),
    }
}

/// The first place a name has in a captured order.
pub open spec fn place_in(order: Seq<Seq<char>>, name: Seq<char>) -> Option<int>
    decreases order.len(),
{
    if order.len() == 0 {
        None
    } else {
        match place_in(order.drop_last(), name) {
            Some(i) => Some(i),
            None => if order.last() == name {
                Some(order.len() - 1)
            } else {
                None
            },
        }
    }
}

/// What decides the place of the row for a name.
pub open spec fn rank_of(
    order: Seq<Seq<char>>,
    buckets: Map<Seq<char>, int>,
    name: Seq<char>,
) -> RowRank {
    RowRank { place: place_in(order, name), bucket: buckets[name], name }
}

/// Whether `names` are the rows of a table over the set `of`, each once and in
/// order.
pub open spec fn is_table(
    names: Seq<Seq<char>>,
    of: Set<Seq<char>>,
    order: Seq<Seq<char>>,
    buckets: Map<Seq<char>, int>,
) -> bool {
    &&& names.to_set() == of
    &&& in_rank_order(names, order, buckets)
}

/// Whether names stand in the order of their ranks.
pub open spec fn in_rank_order(
    names: Seq<Seq<char>>,
    order: Seq<Seq<char>>,
    buckets: Map<Seq<char>, int>,
) -> bool {
    forall|i: int, j: int|
        0 <= i < j < names.len() ==> ranks_before(
            rank_of(order, buckets, #[trigger] names[i]),
            rank_of(order, buckets, #[trigger] names[j]),
        )
}

proof fn lemma_place(order: Seq<Seq<char>>, name: Seq<char>)
    ensures
        match place_in(order, name) {
            Some(i) => 0 <= i < order.len() && order[i] == name && !order.take(i).contains(name),
            None => !order.contains(name),
        },
    decreases order.len(),
{
    if order.len() > 0 {
        let rest = order.drop_last();
        lemma_place(rest, name);
        match place_in(rest, name) {
            Some(i) => {
                assert(rest.take(i) =~= order.take(i));
            },
            None => {
                assert(rest =~= order.take(order.len() - 1));
                if order.last() != name && order.contains(name) {
                    let j = order.index_of(name);
                    assert(rest[j] == name);
                }
            },
        }
    }
}

/// A name's place is where it first stands.
pub proof fn lemma_place_is_first(order: Seq<Seq<char>>, name: Seq<char>, at: int)
    requires
        0 <= at < order.len(),
        order[at] == name,
        !order.take(at).contains(name),
    ensures
        place_in(order, name) == Some(at),
{
    lemma_place(order, name);
    assert(order.contains(name));
    let i = place_in(order, name)->0;
    if i < at {
        assert(order.take(at)[i] == name);
    }
    if at < i {
        assert(order.take(i)[at] == name);
    }
}

proof fn lemma_rank_total(
    order: Seq<Seq<char>>,
    buckets: Map<Seq<char>, int>,
    a: Seq<char>,
    b: Seq<char>,
)
    ensures
        a != b ==> ranks_before(rank_of(order, buckets, a), rank_of(order, buckets, b))
            || ranks_before(rank_of(order, buckets, b), rank_of(order, buckets, a)),
        ranks_before(rank_of(order, buckets, a), rank_of(order, buckets, b)) ==> !ranks_before(
            rank_of(order, buckets, b),
            rank_of(order, buckets, a),
        ),
        !ranks_before(rank_of(order, buckets, a), rank_of(order, buckets, a)),
{
    lemma_place(order, a);
    lemma_place(order, b);
    lemma_text_order_total(a, b);
    lemma_text_order_total(a, a);
}

proof fn lemma_rank_transitive(
    order: Seq<Seq<char>>,
    buckets: Map<Seq<char>, int>,
    a: Seq<char>,
    b: Seq<char>,
    c: Seq<char>,
)
    requires
        ranks_before(rank_of(order, buckets, a), rank_of(order, buckets, b)),
        ranks_before(rank_of(order, buckets, b), rank_of(order, buckets, c)),
    ensures
        ranks_before(rank_of(order, buckets, a), rank_of(order, buckets, c)),
{
    if text_before(a, b) && text_before(b, c) {
        lemma_text_order_transitive(a, b, c);
    }
}

/// In a table no name stands twice.
pub proof fn lemma_table_distinct(
    names: Seq<Seq<char>>,
    order: Seq<Seq<char>>,
    buckets: Map<Seq<char>, int>,
)
    requires
        in_rank_order(names, order, buckets),
    ensures
        names.no_duplicates(),
{
    assert forall|i: int, j: int|
        0 <= i < names.len() && 0 <= j < names.len() && i != j implies names[i] != names[j] by {
        lemma_rank_total(order, buckets, names[i], names[j]);
    }
}

/// A row being put in its place.
pub struct RankedRow {
    pub name: String,
    pub place: Option<usize>,
    pub bucket: u8,
}

/// The names of a list of rows.
pub open spec fn row_names(rows: Seq<RankedRow>) -> Seq<Seq<char>> {
    Seq::new(rows.len(), |i: int| rows[i].name@)
}

/// Whether a row knows its rank.
pub open spec fn knows_rank(
    row: RankedRow,
    order: Seq<Seq<char>>,
    buckets: Map<Seq<char>, int>,
) -> bool {
    &&& match row.place {
        Some(at) => place_in(order, row.name@) == Some(at as int),
        None => place_in(order, row.name@) is None,
    }
    &&& row.bucket as int == buckets[row.name@]
}

/// The first place a name has in a captured order.
pub fn find_place(order: &Vec<String>, name: &str) -> (r: Option<usize>)
    ensures
        match r {
            Some(at) => place_in(views(order@), name@) == Some(at as int),
            None => place_in(views(order@), name@) is None,
        },
{
    let r = position_of(order, name);
    proof {
        match r {
            Some(at) => {
                assert(views(order@).take(at as int) =~= views(order@.take(at as int)));
                lemma_place_is_first(views(order@), name@, at as int);
            },
            None => {
                lemma_place(views(order@), name@);
            },
        }
    }
    r
}

fn precedes(a: &RankedRow, b: &RankedRow) -> (r: bool)
    ensures
        r == ranks_before(
            RowRank {
                place: match a.place {
                    Some(x) => Some(x as int),
                    None => None,
                },
                bucket: a.bucket as int,
                name: a.name@,
            },
            RowRank {
                place: match b.place {
                    Some(x) => Some(x as int),
                    None => None,
                },
                bucket: b.bucket as int,
                name: b.name@,
            },
        ),
{
    match (a.place, b.place) {
        (Some(x), Some(y)) => x < y,
        (Some(_), None) => true,
        (None, Some(_)) => false,
        (None, None) => a.bucket < b.bucket || (a.bucket == b.bucket && comes_before(
            a.name.as_str(),
            b.name.as_str(),
        )),
    }
}

/// Puts a row in its place among rows that are in theirs.
pub(crate) fn place_row(
    rows: &mut Vec<RankedRow>,
    row: RankedRow,
    Ghost(order): Ghost<Seq<Seq<char>>>,
    Ghost(buckets): Ghost<Map<Seq<char>, int>>,
)
    requires
        forall|i: int| 0 <= i < old(rows)@.len() ==> knows_rank(#[trigger] old(rows)@[i], order, buckets),
        knows_rank(row, order, buckets),
        in_rank_order(row_names(old(rows)@), order, buckets),
        !row_names(old(rows)@).contains(row.name@),
    ensures
        forall|i: int| 0 <= i < final(rows)@.len() ==> knows_rank(#[trigger] final(rows)@[i], order, buckets),
        in_rank_order(row_names(final(rows)@), order, buckets),
        row_names(final(rows)@).to_set() == row_names(old(rows)@).to_set().insert(row.name@),
{
    let mut at: usize = 0;
    while at < rows.len() && precedes(&rows[at], &row)
        invariant
            at <= rows@.len(),
            rows@ == old(rows)@,
            knows_rank(row, order, buckets),
            forall|i: int| 0 <= i < rows@.len() ==> knows_rank(#[trigger] rows@[i], order, buckets),
            forall|i: int|
                0 <= i < at ==> ranks_before(
                    rank_of(order, buckets, (#[trigger] rows@[i]).name@),
                    rank_of(order, buckets, row.name@),
                ),
        ensures
            at <= rows@.len(),
            rows@ == old(rows)@,
            forall|i: int|
                0 <= i < at ==> ranks_before(
                    rank_of(order, buckets, (#[trigger] rows@[i]).name@),
                    rank_of(order, buckets, row.name@),
                ),
            at < rows@.len() ==> !ranks_before(
                rank_of(order, buckets, rows@[at as int].name@),
                rank_of(order, buckets, row.name@),
            ),
        decreases rows@.len() - at,
    {
        assert(knows_rank(rows@[at as int], order, buckets));
        at += 1;
    }
    let ghost before = rows@;
    let ghost name = row.name@;
    let ghost new_row = row;
    rows.insert(at, row);
    proof {
        let names = row_names(before);
        let after = row_names(rows@);
        assert(rows@ =~= before.insert(at as int, new_row));
        assert forall|i: int| 0 <= i < rows@.len() implies knows_rank(
            #[trigger] rows@[i],
            order,
            buckets,
        ) by {
            if i < at {
                assert(rows@[i] == before[i]);
            } else if i > at {
                assert(rows@[i] == before[i - 1]);
            }
        }
        assert forall|i: int| at <= i < before.len() implies ranks_before(
            rank_of(order, buckets, name),
            rank_of(order, buckets, #[trigger] names[i]),
        ) by {
            assert(names[at as int] != name);
            lemma_rank_total(order, buckets, names[at as int], name);
            assert(names[at as int] == before[at as int].name@);
            if i > at {
                lemma_rank_transitive(order, buckets, name, names[at as int], names[i]);
            }
        }
        assert forall|i: int, j: int| 0 <= i < j < after.len() implies ranks_before(
            rank_of(order, buckets, #[trigger] after[i]),
            rank_of(order, buckets, #[trigger] after[j]),
        ) by {
            let back = |k: int| if k < at {
                k
            } else {
                k - 1
            };
            if i != at {
                assert(after[i] == names[back(i)]);
                assert(names[back(i)] == before[back(i)].name@);
            }
            if j != at {
                assert(after[j] == names[back(j)]);
                assert(names[back(j)] == before[back(j)].name@);
            }
        }
        assert forall|n: Seq<char>| after.contains(n) <==> names.contains(n) || n == name by {
            if after.contains(n) {
                let i = after.index_of(n);
                if i < at {
                    assert(names[i] == n);
                } else if i > at {
                    assert(names[i - 1] == n);
                }
            }
            if names.contains(n) {
                let i = names.index_of(n);
                if i < at {
                    assert(after[i] == n);
                } else {
                    assert(after[i + 1] == n);
                }
            }
            assert(after[at as int] == name);
        }
        assert(after.to_set() =~= names.to_set().insert(name));
    }
}

/// A set has one table.
pub proof fn a_table_is_unique(
    a: Seq<Seq<char>>,
    b: Seq<Seq<char>>,
    of: Set<Seq<char>>,
    order: Seq<Seq<char>>,
    buckets: Map<Seq<char>, int>,
)
    requires
        is_table(a, of, order, buckets),
        is_table(b, of, order, buckets),
    ensures
        a == b,
    decreases a.len(),
{
    lemma_table_distinct(a, order, buckets);
    lemma_table_distinct(b, order, buckets);
    a.unique_seq_to_set();
    b.unique_seq_to_set();
    if a.len() > 0 {
        let last = a.last();
        assert(a[a.len() - 1] == last);
        assert(a.to_set().contains(last));
        assert(b.to_set().contains(last));
        let i = b.index_of(last);
        let other = b.last();
        assert(b[b.len() - 1] == other);
        assert(b.to_set().contains(other));
        assert(a.to_set().contains(other));
        let k = a.index_of(other);
        if other != last {
            assert(ranks_before(rank_of(order, buckets, b[i]), rank_of(order, buckets, b[b.len() - 1])));
            assert(ranks_before(rank_of(order, buckets, a[k]), rank_of(order, buckets, a[a.len() - 1])));
            lemma_rank_total(order, buckets, last, other);
        }
        let x = a.drop_last();
        let y = b.drop_last();
        let smaller = of.remove(last);
        assert forall|n: Seq<char>| x.contains(n) <==> of.contains(n) && n != last by {
            if x.contains(n) {
                let j = x.index_of(n);
                assert(a[j] == n);
                assert(a.to_set().contains(n));
            }
            if of.contains(n) && n != last {
                assert(a.to_set().contains(n));
                let j = a.index_of(n);
                assert(x[j] == n);
            }
        }
        assert forall|n: Seq<char>| y.contains(n) <==> of.contains(n) && n != last by {
            if y.contains(n) {
                let j = y.index_of(n);
                assert(b[j] == n);
                assert(b.to_set().contains(n));
            }
            if of.contains(n) && n != last {
                assert(b.to_set().contains(n));
                let j = b.index_of(n);
                assert(y[j] == n);
            }
        }
        assert(x.to_set() =~= smaller);
        assert(y.to_set() =~= smaller);
        assert(in_rank_order(x, order, buckets)) by {
            assert forall|i: int, j: int| 0 <= i < j < x.len() implies ranks_before(
                rank_of(order, buckets, #[trigger] x[i]),
                rank_of(order, buckets, #[trigger] x[j]),
            ) by {
                assert(x[i] == a[i] && x[j] == a[j]);
            }
        }
        assert(in_rank_order(y, order, buckets)) by {
            assert forall|i: int, j: int| 0 <= i < j < y.len() implies ranks_before(
                rank_of(order, buckets, #[trigger] y[i]),
                rank_of(order, buckets, #[trigger] y[j]),
            ) by {
                assert(y[i] == b[i] && y[j] == b[j]);
            }
        }
        a_table_is_unique(x, y, smaller, order, buckets);
        assert(a =~= x.push(last));
        assert(b =~= y.push(last));
    } else {
        assert(a.to_set() =~= Set::<Seq<char>>::empty());
        if b.len() > 0 {
            assert(b.to_set().contains(b[0]));
        }
    }
}

/// A table holds the order it opened with: whatever has become of the states,
/// the rows of the captured order stay where they were, and rows that came
/// later follow them.
pub proof fn captured_rows_hold_still(
    now: Seq<Seq<char>>,
    of: Set<Seq<char>>,
    captured: Seq<Seq<char>>,
    buckets: Map<Seq<char>, int>,
)
    requires
        captured.no_duplicates(),
        captured.to_set().subset_of(of),
        is_table(now, of, captured, buckets),
    ensures
        now.len() >= captured.len(),
        now.take(captured.len() as int) == captured,
{
    lemma_table_distinct(now, captured, buckets);
    lemma_held(now, of, captured, buckets, captured.len() as int);
    assert(now.take(captured.len() as int) =~= captured);
}

proof fn lemma_held(
    now: Seq<Seq<char>>,
    of: Set<Seq<char>>,
    captured: Seq<Seq<char>>,
    buckets: Map<Seq<char>, int>,
    n: int,
)
    requires
        captured.no_duplicates(),
        captured.to_set().subset_of(of),
        is_table(now, of, captured, buckets),
        now.no_duplicates(),
        0 <= n <= captured.len(),
    ensures
        n <= now.len(),
        forall|i: int| 0 <= i < n ==> #[trigger] now[i] == captured[i],
    decreases n,
{
    if n > 0 {
        lemma_held(now, of, captured, buckets, n - 1);
        let at = n - 1;
        let name = captured[at];
        assert(captured.contains(name));
        assert(captured.to_set().contains(name));
        assert(of.contains(name));
        assert(now.to_set().contains(name));
        let k = now.index_of(name);
        assert(now[k] == name);
        if k < at {
            assert(now[k] == captured[k]);
            assert(captured[k] != captured[at]);
        }
        assert(!captured.take(at).contains(name)) by {
            if captured.take(at).contains(name) {
                let j = captured.take(at).index_of(name);
                assert(captured[j] == captured[at]);
            }
        }
        lemma_place_is_first(captured, name, at);
        if k > at {
            let early = now[at];
            assert(ranks_before(
                rank_of(captured, buckets, now[at]),
                rank_of(captured, buckets, now[k]),
            ));
            lemma_place(captured, early);
            let p = place_in(captured, early)->0;
            assert(p < at);
            assert(captured[p] == early);
            assert(now[p] == captured[p]);
            assert(now[p] == now[at]);
        }
        assert(k == at);
    }
}

} // verus!
