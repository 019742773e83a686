//! Facts about filtered sequences and about rows ordered by their ids.
use vstd::prelude::*;

verus! {

/// Something stored under an id.
pub trait Keyed {
    /// The id of the row.
    spec fn key(&self) -> nat;
}

/// The first element, if there is one.
pub open spec fn first_of<A>(s: Seq<A>) -> Option<A> {
    if s.len() > 0 {
        Some(s[0])
    } else {
        None
    }
}

/// The ids grow strictly along the rows and lie between `low` and `high`.
pub open spec fn ascending<A: Keyed>(rows: Seq<A>, low: nat, high: nat) -> bool {
    &&& forall|i: int| 0 <= i < rows.len() ==> low <= (#[trigger] rows[i]).key() <= high
    &&& forall|i: int, j: int|
        0 <= i < j < rows.len() ==> (#[trigger] rows[i]).key() < (#[trigger] rows[j]).key()
}

/// The id of the last row, or `floor` where there is no row.
pub open spec fn last_key<A: Keyed>(rows: Seq<A>, floor: nat) -> nat {
    if rows.len() > 0 {
        rows.last().key()
    } else {
        floor
    }
}

/// The ids of the rows, one for each row.
pub open spec fn keys<A: Keyed>(rows: Seq<A>) -> Seq<nat> {
    rows.map_values(|r: A| r.key())
}

/// The ids grow strictly and none lies under `low`.
pub open spec fn in_order(ids: Seq<nat>, low: nat) -> bool {
    &&& forall|i: int| 0 <= i < ids.len() ==> low <= #[trigger] ids[i]
    &&& forall|i: int, j: int| 0 <= i < j < ids.len() ==> #[trigger] ids[i] < #[trigger] ids[j]
}

/// Rows whose ids are in order are ascending up to the id of the last row,
/// and the other way round.
pub proof fn lemma_in_order_ascending<A: Keyed>(rows: Seq<A>, low: nat, floor: nat)
    ensures
        in_order(keys(rows), low) <==> ascending(rows, low, last_key(rows, floor)),
{
    let ids = keys(rows);
    if in_order(ids, low) {
        assert forall|i: int| 0 <= i < rows.len() implies low <= (#[trigger] rows[i]).key()
            <= last_key(rows, floor) by {
            assert(ids[i] == rows[i].key());
            if i < rows.len() - 1 {
                assert(ids[i] < ids[rows.len() - 1]);
            }
        }
        assert forall|i: int, j: int| 0 <= i < j < rows.len() implies (#[trigger] rows[i]).key() < (
        #[trigger] rows[j]).key() by {
            assert(ids[i] < ids[j]);
        }
    }
    if ascending(rows, low, last_key(rows, floor)) {
        assert forall|i: int| 0 <= i < ids.len() implies low <= #[trigger] ids[i] by {
            assert(low <= rows[i].key());
        }
        assert forall|i: int, j: int| 0 <= i < j < ids.len() implies #[trigger] ids[i]
            < #[trigger] ids[j] by {
            assert(rows[i].key() < rows[j].key());
        }
    }
}

/// The test that a row is stored under `id`.
pub open spec fn has_key<A: Keyed>(id: nat) -> spec_fn(A) -> bool {
    |r: A| r.key() == id
}

/// The test that a row is stored under another id than `id`.
pub open spec fn lacks_key<A: Keyed>(id: nat) -> spec_fn(A) -> bool {
    |r: A| r.key() != id
}

/// The rows but the one stored under `id`.
pub open spec fn without<A: Keyed>(rows: Seq<A>, id: nat) -> Seq<A> {
    rows.filter(lacks_key(id))
}

/// The row stored under `id`, if there is one.
pub open spec fn lookup<A: Keyed>(rows: Seq<A>, id: nat) -> Option<A> {
    first_of(rows.filter(has_key(id)))
}

/// One more element of the sequence has been looked at.
pub proof fn lemma_filter_step<A>(s: Seq<A>, i: int, pred: spec_fn(A) -> bool)
    requires
        0 <= i < s.len(),
    ensures
        s.take(i + 1).filter(pred) == if pred(s[i]) {
            s.take(i).filter(pred).push(s[i])
        } else {
            s.take(i).filter(pred)
        },
{
    assert(s.take(i + 1) =~= s.take(i).push(s[i]));
    s.take(i).lemma_filter_push(s[i], pred);
}

/// A filter that every element passes keeps the sequence.
pub proof fn lemma_filter_all<A>(s: Seq<A>, pred: spec_fn(A) -> bool)
    requires
        forall|i: int| 0 <= i < s.len() ==> pred(#[trigger] s[i]),
    ensures
        s.filter(pred) == s,
    decreases s.len(),
{
    if s.len() == 0 {
        reveal(Seq::filter);
    } else {
        let front = s.drop_last();
        assert forall|i: int| 0 <= i < front.len() implies pred(#[trigger] front[i]) by {
            assert(front[i] == s[i]);
        }
        lemma_filter_all(front, pred);
        front.lemma_filter_push(s.last(), pred);
        assert(front.push(s.last()) =~= s);
    }
}

/// A filter that no element passes leaves nothing.
pub proof fn lemma_filter_none<A>(s: Seq<A>, pred: spec_fn(A) -> bool)
    requires
        forall|i: int| 0 <= i < s.len() ==> !pred(#[trigger] s[i]),
    ensures
        s.filter(pred) == Seq::<A>::empty(),
    decreases s.len(),
{
    if s.len() == 0 {
        reveal(Seq::filter);
    } else {
        let front = s.drop_last();
        assert forall|i: int| 0 <= i < front.len() implies !pred(#[trigger] front[i]) by {
            assert(front[i] == s[i]);
        }
        lemma_filter_none(front, pred);
        front.lemma_filter_push(s.last(), pred);
        assert(front.push(s.last()) =~= s);
    }
}

/// What passes a filter is an element of the sequence that meets the test,
/// and the other way round.
pub proof fn lemma_filter_member<A>(s: Seq<A>, pred: spec_fn(A) -> bool, x: A)
    ensures
        s.filter(pred).contains(x) <==> s.contains(x) && pred(x),
    decreases s.len(),
{
    if s.len() == 0 {
        reveal(Seq::filter);
    } else {
        let front = s.drop_last();
        lemma_filter_member(front, pred, x);
        front.lemma_filter_push(s.last(), pred);
        assert(front.push(s.last()) =~= s);
        let kept = front.filter(pred);
        if s.contains(x) && pred(x) {
            let i = choose|i: int| 0 <= i < s.len() && s[i] == x;
            if i == s.len() - 1 {
                assert(kept.push(x)[kept.len() as int] == x);
            } else {
                assert(front[i] == x);
                let j = choose|j: int| 0 <= j < kept.len() && kept[j] == x;
                assert(s.filter(pred)[j] == x);
            }
        }
        if s.filter(pred).contains(x) {
            let j = choose|j: int| 0 <= j < s.filter(pred).len() && s.filter(pred)[j] == x;
            if j < kept.len() {
                assert(kept[j] == x);
                let i = choose|i: int| 0 <= i < front.len() && front[i] == x;
                assert(s[i] == x);
            } else {
                assert(s[s.len() - 1] == x);
            }
        }
    }
}

/// The test that both tests pass.
pub open spec fn both<A>(p: spec_fn(A) -> bool, q: spec_fn(A) -> bool) -> spec_fn(A) -> bool {
    |x: A| p(x) && q(x)
}

/// The test that an element is none of `others`.
pub open spec fn not_among<A>(others: Seq<A>) -> spec_fn(A) -> bool {
    |x: A| !others.contains(x)
}

/// Two filters in a row are one filter on both tests.
pub proof fn lemma_filter_twice<A>(s: Seq<A>, p: spec_fn(A) -> bool, q: spec_fn(A) -> bool)
    ensures
        s.filter(p).filter(q) == s.filter(both(p, q)),
    decreases s.len(),
{
    let both = both(p, q);
    if s.len() == 0 {
        reveal(Seq::filter);
    } else {
        let front = s.drop_last();
        lemma_filter_twice(front, p, q);
        front.lemma_filter_push(s.last(), p);
        front.lemma_filter_push(s.last(), both);
        front.filter(p).lemma_filter_push(s.last(), q);
        assert(front.push(s.last()) =~= s);
    }
}

/// Filters whose tests agree on every element of the sequence agree.
pub proof fn lemma_filter_same<A>(s: Seq<A>, p: spec_fn(A) -> bool, q: spec_fn(A) -> bool)
    requires
        forall|i: int| 0 <= i < s.len() ==> p(#[trigger] s[i]) == q(s[i]),
    ensures
        s.filter(p) == s.filter(q),
    decreases s.len(),
{
    if s.len() == 0 {
        reveal(Seq::filter);
    } else {
        let front = s.drop_last();
        assert forall|i: int| 0 <= i < front.len() implies p(#[trigger] front[i]) == q(
            front[i],
        ) by {
            assert(front[i] == s[i]);
        }
        lemma_filter_same(front, p, q);
        front.lemma_filter_push(s.last(), p);
        front.lemma_filter_push(s.last(), q);
        assert(front.push(s.last()) =~= s);
    }
}

/// The first element that meets the test is the first that the filter keeps.
pub proof fn lemma_filter_first<A>(s: Seq<A>, i: int, pred: spec_fn(A) -> bool)
    requires
        0 <= i < s.len(),
        pred(s[i]),
        forall|j: int| 0 <= j < i ==> !pred(#[trigger] s[j]),
    ensures
        first_of(s.filter(pred)) == Some(s[i]),
{
    let head = s.take(i);
    let tail = s.skip(i + 1);
    assert(s =~= head.push(s[i]) + tail);
    assert forall|j: int| 0 <= j < head.len() implies !pred(#[trigger] head[j]) by {
        assert(head[j] == s[j]);
    }
    lemma_filter_none(head, pred);
    head.lemma_filter_push(s[i], pred);
    Seq::filter_distributes_over_add(head.push(s[i]), tail, pred);
    assert(head.push(s[i]).filter(pred) == Seq::<A>::empty().push(s[i]));
}

/// What a filter keeps stands in the order in which it stood before.
pub proof fn lemma_filter_keeps_order<A>(s: Seq<A>, pred: spec_fn(A) -> bool, a: int, b: int)
    requires
        0 <= a < b < s.filter(pred).len(),
    ensures
        exists|x: int, y: int|
            0 <= x < y < s.len() && #[trigger] s[x] == s.filter(pred)[a] && #[trigger] s[y]
                == s.filter(pred)[b],
    decreases s.len(),
{
    if s.len() == 0 {
        reveal(Seq::filter);
    } else {
        let front = s.drop_last();
        let kept = front.filter(pred);
        front.lemma_filter_push(s.last(), pred);
        assert(front.push(s.last()) =~= s);
        if b < kept.len() {
            lemma_filter_keeps_order(front, pred, a, b);
            let (x, y) = choose|x: int, y: int|
                0 <= x < y < front.len() && #[trigger] front[x] == kept[a] && #[trigger] front[y]
                    == kept[b];
            assert(s[x] == s.filter(pred)[a] && s[y] == s.filter(pred)[b]);
        } else {
            assert(kept.contains(kept[a]));
            lemma_filter_member(front, pred, kept[a]);
            let x = choose|x: int| 0 <= x < front.len() && front[x] == kept[a];
            let y = s.len() - 1;
            assert(s[x] == s.filter(pred)[a] && s[y] == s.filter(pred)[b]);
        }
    }
}

/// Filtering keeps the rows in order and their ids in range.
pub proof fn lemma_filter_ascending<A: Keyed>(
    rows: Seq<A>,
    pred: spec_fn(A) -> bool,
    low: nat,
    high: nat,
)
    requires
        ascending(rows, low, high),
    ensures
        ascending(rows.filter(pred), low, high),
    decreases rows.len(),
{
    if rows.len() == 0 {
        reveal(Seq::filter);
    } else {
        let front = rows.drop_last();
        let last = rows.last();
        assert forall|i: int| 0 <= i < front.len() implies low <= (#[trigger] front[i]).key()
            <= high by {
            assert(front[i] == rows[i]);
        }
        assert forall|i: int, j: int| 0 <= i < j < front.len() implies (#[trigger] front[i]).key()
            < (#[trigger] front[j]).key() by {
            assert(front[i] == rows[i] && front[j] == rows[j]);
        }
        lemma_filter_ascending(front, pred, low, high);
        front.lemma_filter_push(last, pred);
        assert(front.push(last) =~= rows);
        let kept = front.filter(pred);
        assert forall|i: int| 0 <= i < kept.len() implies (#[trigger] kept[i]).key()
            < last.key() by {
            lemma_filter_member(front, pred, kept[i]);
            assert(kept.contains(kept[i]));
            let k = choose|k: int| 0 <= k < front.len() && front[k] == kept[i];
            assert(rows[k] == kept[i]);
            assert(rows[k].key() < rows[rows.len() - 1].key());
        }
    }
}

/// Under ascending ids, taking out the row at an index is taking out the row
/// with that id.
pub proof fn lemma_remove_is_without<A: Keyed>(rows: Seq<A>, i: int, low: nat, high: nat)
    requires
        ascending(rows, low, high),
        0 <= i < rows.len(),
    ensures
        rows.remove(i) == without(rows, rows[i].key()),
{
    let id = rows[i].key();
    let pred = lacks_key::<A>(id);
    let head = rows.take(i);
    let tail = rows.skip(i + 1);
    assert(rows =~= head.push(rows[i]) + tail);
    assert forall|j: int| 0 <= j < head.len() implies pred(#[trigger] head[j]) by {
        assert(head[j] == rows[j]);
    }
    assert forall|j: int| 0 <= j < tail.len() implies pred(#[trigger] tail[j]) by {
        assert(tail[j] == rows[i + 1 + j]);
    }
    lemma_filter_all(head, pred);
    lemma_filter_all(tail, pred);
    head.lemma_filter_push(rows[i], pred);
    Seq::filter_distributes_over_add(head.push(rows[i]), tail, pred);
    assert(rows.remove(i) =~= head + tail);
}

/// Taking the next of the rows `gone` out of what is left leaves the rows
/// that are none of `gone` so far.
pub proof fn lemma_take_out<A: Keyed>(rows: Seq<A>, gone: Seq<A>, i: int, low: nat, high: nat)
    requires
        ascending(rows, low, high),
        0 <= i < gone.len(),
        rows.contains(gone[i]),
    ensures
        without(rows.filter(not_among(gone.take(i))), gone[i].key()) == rows.filter(
            not_among(gone.take(i + 1)),
        ),
{
    let p = not_among(gone.take(i));
    let q = lacks_key::<A>(gone[i].key());
    let longer = gone.take(i + 1);
    let goal = not_among(longer);
    lemma_filter_twice(rows, p, q);
    let m = choose|m: int| 0 <= m < rows.len() && rows[m] == gone[i];
    assert(longer =~= gone.take(i).push(gone[i]));
    assert forall|k: int| 0 <= k < rows.len() implies both(p, q)(#[trigger] rows[k]) == goal(
        rows[k],
    ) by {
        let e = rows[k];
        if e.key() == gone[i].key() {
            if k < m {
                assert(rows[k].key() < rows[m].key());
            } else if m < k {
                assert(rows[m].key() < rows[k].key());
            }
            assert(e == gone[i]);
            assert(longer[i] == e);
        } else {
            if gone.take(i).contains(e) {
                let n = choose|n: int| 0 <= n < gone.take(i).len() && gone.take(i)[n] == e;
                assert(longer[n] == e);
            }
            if longer.contains(e) {
                let n = choose|n: int| 0 <= n < longer.len() && longer[n] == e;
                assert(n < i);
                assert(gone.take(i)[n] == e);
            }
        }
    }
    lemma_filter_same(rows, both(p, q), goal);
}

/// The test that a test fails.
pub open spec fn negation<A>(p: spec_fn(A) -> bool) -> spec_fn(A) -> bool {
    |x: A| !p(x)
}

/// The rows that are none of the rows that meet a test are the rows that
/// fail it.
pub proof fn lemma_none_of_filter<A>(rows: Seq<A>, p: spec_fn(A) -> bool)
    ensures
        rows.filter(not_among(rows.filter(p))) == rows.filter(negation(p)),
        forall|x: A| rows.filter(p).contains(x) ==> rows.contains(x),
{
    let met = rows.filter(p);
    assert forall|x: A| met.contains(x) implies rows.contains(x) by {
        lemma_filter_member(rows, p, x);
    }
    assert forall|k: int| 0 <= k < rows.len() implies not_among(met)(#[trigger] rows[k])
        == negation(p)(rows[k]) by {
        assert(rows.contains(rows[k]));
        lemma_filter_member(rows, p, rows[k]);
    }
    lemma_filter_same(rows, not_among(met), negation(p));
}

/// Nothing that fails a test is left among what meets it.
pub proof fn lemma_filter_apart<A>(rows: Seq<A>, p: spec_fn(A) -> bool, q: spec_fn(A) -> bool)
    requires
        forall|i: int| 0 <= i < rows.len() && p(#[trigger] rows[i]) ==> !q(rows[i]),
    ensures
        rows.filter(p).filter(q) == Seq::<A>::empty(),
{
    let met = rows.filter(p);
    assert forall|i: int| 0 <= i < met.len() implies !q(#[trigger] met[i]) by {
        assert(met.contains(met[i]));
        lemma_filter_member(rows, p, met[i]);
        let k = choose|k: int| 0 <= k < rows.len() && rows[k] == met[i];
        assert(p(rows[k]));
    }
    lemma_filter_none(met, q);
}

/// Taking out an id that no row has changes nothing.
pub proof fn lemma_without_absent<A: Keyed>(rows: Seq<A>, id: nat)
    requires
        forall|i: int| 0 <= i < rows.len() ==> (#[trigger] rows[i]).key() != id,
    ensures
        without(rows, id) == rows,
{
    lemma_filter_all(rows, lacks_key::<A>(id));
}

/// Under ascending ids the row at an index is the one found under its id.
pub proof fn lemma_lookup_present<A: Keyed>(rows: Seq<A>, i: int, low: nat, high: nat)
    requires
        ascending(rows, low, high),
        0 <= i < rows.len(),
    ensures
        lookup(rows, rows[i].key()) == Some(rows[i]),
{
    let id = rows[i].key();
    lemma_filter_first(rows, i, has_key::<A>(id));
}

/// No row is found under an id that no row has.
pub proof fn lemma_lookup_absent<A: Keyed>(rows: Seq<A>, id: nat)
    requires
        forall|i: int| 0 <= i < rows.len() ==> (#[trigger] rows[i]).key() != id,
    ensures
        lookup(rows, id) is None,
{
    lemma_filter_none(rows, has_key::<A>(id));
}

/// A row found under an id is a row of the sequence with that id.
pub proof fn lemma_lookup_found<A: Keyed>(rows: Seq<A>, id: nat)
    requires
        lookup(rows, id) is Some,
    ensures
        rows.contains(lookup(rows, id)->0),
        lookup(rows, id)->0.key() == id,
{
    let pred = has_key::<A>(id);
    let row = rows.filter(pred)[0];
    assert(rows.filter(pred).contains(row));
    lemma_filter_member(rows, pred, row);
}

} // verus!
