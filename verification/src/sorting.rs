//! Stable sorting of task lists by an integer rank, as the queues need it
//! when they are rebuilt from stored rows.

use vstd::prelude::*;

use crate::queue_model::{
    count_key, first_index, lemma_count_insert, lemma_count_push, lemma_first_index,
    lemma_first_index_is, TaskRecord,
};

verus! {

/// The predicate "ranks strictly above `r`".
pub open spec fn ranks_above<A>(rank: spec_fn(A) -> int, r: int) -> spec_fn(A) -> bool {
    |a: A| rank(a) > r
}

/// The predicate "has rank `r`".
pub open spec fn ranks_at<A>(rank: spec_fn(A) -> int, r: int) -> spec_fn(A) -> bool {
    |a: A| rank(a) == r
}

/// Whether `s` is in ascending order of rank.
pub open spec fn ascending<A>(s: Seq<A>, rank: spec_fn(A) -> int) -> bool {
    forall|i: int, j: int| 0 <= i < j < s.len() ==> rank(#[trigger] s[i]) <= rank(#[trigger] s[j])
}

/// `x` put into the ascending sequence `s` behind every element that does
/// not rank above it.
pub open spec fn placed<A>(s: Seq<A>, x: A, rank: spec_fn(A) -> int) -> Seq<A> {
    s.insert(first_index(s, ranks_above(rank, rank(x))), x)
}

/// `s` in ascending order of rank; elements of equal rank keep the order
/// they had in `s`.
pub open spec fn sorted_by_rank<A>(s: Seq<A>, rank: spec_fn(A) -> int) -> Seq<A>
    decreases s.len(),
{
    if s.len() == 0 {
        s
    } else {
        placed(sorted_by_rank(s.drop_last(), rank), s.last(), rank)
    }
}

/// Placing an element keeps the order ascending.
pub proof fn lemma_placed_ascending<A>(s: Seq<A>, x: A, rank: spec_fn(A) -> int)
    requires
        ascending(s, rank),
    ensures
        ascending(placed(s, x, rank), rank),
        placed(s, x, rank).len() == s.len() + 1,
{
    let above = ranks_above(rank, rank(x));
    let at = first_index(s, above);
    lemma_first_index(s, above);
    let r = placed(s, x, rank);
    assert forall|i: int, j: int| 0 <= i < j < r.len() implies rank(#[trigger] r[i]) <= rank(
        #[trigger] r[j],
    ) by {
        if i < at {
            assert(r[i] == s[i]);
            assert(!above(s[i]));
        }
        if i > at {
            assert(r[i] == s[i - 1]);
        }
        if j > at {
            assert(r[j] == s[j - 1]);
            if at < s.len() {
                assert(above(s[at]));
                if at < j - 1 {
                    assert(rank(s[at]) <= rank(s[j - 1]));
                }
            }
        }
        if j < at {
            assert(r[j] == s[j]);
        }
    }
}

/// The sorted sequence is ascending and as long as the unsorted one.
pub proof fn lemma_sorted_ascending<A>(s: Seq<A>, rank: spec_fn(A) -> int)
    ensures
        ascending(sorted_by_rank(s, rank), rank),
        sorted_by_rank(s, rank).len() == s.len(),
    decreases s.len(),
{
    if s.len() > 0 {
        lemma_sorted_ascending(s.drop_last(), rank);
        lemma_placed_ascending(sorted_by_rank(s.drop_last(), rank), s.last(), rank);
    }
}

/// Sorting rearranges: the sorted sequence holds the same elements, each
/// as often as the unsorted one.
pub proof fn lemma_sorted_permutes<A>(s: Seq<A>, rank: spec_fn(A) -> int)
    ensures
        sorted_by_rank(s, rank).to_multiset() == s.to_multiset(),
    decreases s.len(),
{
    broadcast use vstd::seq_lib::group_to_multiset_ensures;

    if s.len() > 0 {
        let rest = s.drop_last();
        let sorted = sorted_by_rank(rest, rank);
        lemma_sorted_permutes(rest, rank);
        lemma_first_index(sorted, ranks_above(rank, rank(s.last())));
        assert(rest.push(s.last()) =~= s);
        assert(sorted_by_rank(s, rank).to_multiset() =~= s.to_multiset());
    }
}

/// Sorting is stable: among the elements of one rank the given order
/// stands.
pub proof fn lemma_sorted_stable<A>(s: Seq<A>, rank: spec_fn(A) -> int, r: int)
    ensures
        sorted_by_rank(s, rank).filter(ranks_at(rank, r)) == s.filter(ranks_at(rank, r)),
    decreases s.len(),
{
    reveal_with_fuel(Seq::filter, 1);
    if s.len() > 0 {
        let rest = s.drop_last();
        let x = s.last();
        let sorted = sorted_by_rank(rest, rank);
        let p = ranks_at(rank, r);
        let above = ranks_above(rank, rank(x));
        let at = first_index(sorted, above);
        lemma_sorted_stable(rest, rank, r);
        lemma_sorted_ascending(rest, rank);
        lemma_first_index(sorted, above);
        let front = sorted.take(at);
        let back = sorted.skip(at);
        assert(sorted =~= front + back);
        assert(placed(sorted, x, rank) =~= front + seq![x] + back);
        Seq::filter_distributes_over_add(front, back, p);
        Seq::filter_distributes_over_add(front + seq![x], back, p);
        Seq::filter_distributes_over_add(front, seq![x], p);
        assert(seq![x].drop_last() =~= Seq::<A>::empty());
        reveal_with_fuel(Seq::filter, 2);
        if p(x) {
            assert(seq![x].filter(p) =~= seq![x]);
            assert forall|i: int| 0 <= i < back.len() implies !p(#[trigger] back[i]) by {
                assert(back[i] == sorted[at + i]);
                assert(above(sorted[at]));
                if i > 0 {
                    assert(rank(sorted[at]) <= rank(sorted[at + i]));
                }
            }
            crate::queue_model::lemma_filter_all_false(back, p);
            assert(front.filter(p) + seq![x] + Seq::<A>::empty() =~= (front.filter(p)
                + Seq::<A>::empty()).push(x));
        } else {
            assert(seq![x].filter(p) =~= Seq::<A>::empty());
            assert(front.filter(p) + Seq::<A>::empty() + back.filter(p) =~= front.filter(p)
                + back.filter(p));
        }
    }
}

/// Every element of the sorted sequence is an element of the unsorted one.
pub proof fn lemma_sorted_elements<A>(s: Seq<A>, rank: spec_fn(A) -> int)
    ensures
        forall|i: int|
            0 <= i < sorted_by_rank(s, rank).len() ==> s.contains(
                #[trigger] sorted_by_rank(s, rank)[i],
            ),
    decreases s.len(),
{
    if s.len() > 0 {
        let rest = s.drop_last();
        let sorted = sorted_by_rank(rest, rank);
        let at = first_index(sorted, ranks_above(rank, rank(s.last())));
        lemma_sorted_elements(rest, rank);
        lemma_first_index(sorted, ranks_above(rank, rank(s.last())));
        let r = sorted_by_rank(s, rank);
        assert forall|i: int| 0 <= i < r.len() implies s.contains(#[trigger] r[i]) by {
            if i == at {
                assert(r[i] == s[s.len() - 1]);
            } else {
                let t = if i < at { sorted[i] } else { sorted[i - 1] };
                assert(r[i] == t);
                assert(rest.contains(t));
                let j = choose|j: int| 0 <= j < rest.len() && rest[j] == t;
                assert(s[j] == t);
            }
        }
    }
}

/// Sorting changes no count of a key.
pub proof fn lemma_sorted_count<T: TaskRecord>(s: Seq<T>, rank: spec_fn(T) -> int, k: Seq<char>)
    ensures
        count_key(sorted_by_rank(s, rank), k) == count_key(s, k),
    decreases s.len(),
{
    if s.len() > 0 {
        let rest = s.drop_last();
        let sorted = sorted_by_rank(rest, rank);
        lemma_sorted_count(rest, rank, k);
        lemma_first_index(sorted, ranks_above(rank, rank(s.last())));
        let at = first_index(sorted, ranks_above(rank, rank(s.last())));
        lemma_count_insert(sorted, at, s.last(), k);
        assert(rest.push(s.last()) =~= s);
        lemma_count_push(rest, s.last(), k);
    }
}

/// How a list of tasks is to be ordered.
#[derive(Clone, Copy, Debug, PartialEq, Eq, Structural)]
pub enum SortKey {
    /// Oldest start first.
    Started,
    /// Most recent completion first; tasks without a completion time last.
    Finished,
}

/// The rank of a task without completion time when sorting by completion.
pub open spec fn unfinished_rank() -> int {
    0x8000_0000_0000_0001
}

/// Rank of a task that started at `started_at` and finished at
/// `completed_at`, under the given sort key.
pub open spec fn rank_value(how: SortKey, started_at: i64, completed_at: Option<i64>) -> int {
    match how {
        SortKey::Started => started_at as int,
        SortKey::Finished => match completed_at {
            Some(at) => -(at as int),
            None => unfinished_rank(),
        },
    }
}

/// Computes [`rank_value`].
pub fn rank_of(how: SortKey, started_at: i64, completed_at: Option<i64>) -> (r: i128)
    ensures
        r == rank_value(how, started_at, completed_at),
{
    match how {
        SortKey::Started => started_at as i128,
        SortKey::Finished => match completed_at {
            Some(at) => -(at as i128),
            None => 0x8000_0000_0000_0001i128,
        },
    }
}

/// An executable task that can be ranked for sorting.
pub trait Ranked: DeepView + Sized {
    /// The rank of a task view under a sort key.
    spec fn rank(how: SortKey) -> spec_fn(Self::V) -> int;

    /// The rank of the receiver under a sort key.
    fn rank_under(&self, how: SortKey) -> (r: i128)
        ensures
            r == Self::rank(how)(self.deep_view()),
    ;
}

/// Sorts `tasks` in place into ascending order of rank; tasks of equal
/// rank keep their order.
pub fn sort_by_rank<T: Ranked>(tasks: &mut Vec<T>, how: SortKey)
    ensures
        final(tasks).deep_view() == sorted_by_rank(old(tasks).deep_view(), T::rank(how)),
{
    let ghost orig = tasks.deep_view();
    let ghost rank = T::rank(how);
    let mut i: usize = 0;
    proof {
        assert(orig.take(0) =~= Seq::<T::V>::empty());
        assert(tasks.deep_view().skip(0) =~= tasks.deep_view());
    }
    while i < tasks.len()
        invariant
            i <= tasks.len(),
            tasks.len() == orig.len(),
            rank == T::rank(how),
            tasks.deep_view().take(i as int) == sorted_by_rank(orig.take(i as int), rank),
            tasks.deep_view().skip(i as int) == orig.skip(i as int),
        decreases tasks.len() - i,
    {
        let ghost before = tasks.deep_view();
        let ghost prefix = before.take(i as int);
        let task = tasks.remove(i);
        let own = task.rank_under(how);
        let ghost above = ranks_above(rank, own as int);
        let mut at: usize = 0;
        proof {
            assert(task.deep_view() == before[i as int]);
            assert(before[i as int] == before.skip(i as int)[0]);
            assert(task.deep_view() == orig[i as int]);
        }
        while at < i && tasks[at].rank_under(how) <= own
            invariant
                at <= i,
                i < before.len(),
                tasks.len() == before.len() - 1,
                tasks.deep_view() == before.remove(i as int),
                prefix == before.take(i as int),
                above == ranks_above(rank, own as int),
                rank == T::rank(how),
                forall|j: int| 0 <= j < at ==> !above(#[trigger] prefix[j]),
            decreases i - at,
        {
            proof {
                assert(tasks.deep_view()[at as int] == prefix[at as int]);
            }
            at += 1;
        }
        proof {
            if at < i {
                assert(tasks.deep_view()[at as int] == prefix[at as int]);
                assert(above(prefix[at as int]));
            }
            lemma_first_index_is(prefix, above, at as int);
        }
        tasks.insert(at, task);
        proof {
            let now = tasks.deep_view();
            let x = orig[i as int];
            assert(now.take(i + 1) =~= prefix.insert(at as int, x));
            assert(now.skip(i + 1) =~= orig.skip(i + 1)) by {
                assert forall|j: int| 0 <= j < now.skip(i + 1).len() implies #[trigger] now.skip(
                    i + 1,
                )[j] == orig.skip(i + 1)[j] by {
                    assert(now[i + 1 + j] == before[i + 1 + j]);
                    assert(before[i + 1 + j] == before.skip(i as int)[j + 1]);
                }
            }
            assert(orig.take(i + 1).drop_last() =~= orig.take(i as int));
            assert(orig.take(i + 1).last() == x);
        }
        i += 1;
    }
    proof {
        assert(tasks.deep_view().take(i as int) =~= tasks.deep_view());
        assert(orig.take(i as int) =~= orig);
    }
}

} // verus!
