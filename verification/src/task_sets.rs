//! Looking tasks up by key, and what it means for two sequences to hold
//! the same tasks.

use vstd::prelude::*;

use crate::models::QueueView;
use crate::queue_model::{
    count_key, first_index, first_occurrences, key_is, key_is_not, lemma_count_add,
    lemma_count_filter, lemma_count_positive, lemma_count_push, lemma_count_remove,
    lemma_count_three_parts, lemma_count_update, lemma_count_without, lemma_filter_elements,
    lemma_first_index, lemma_first_index_is, three_way, without_key, TaskRecord,
};
use crate::sorting::{lemma_sorted_count, lemma_sorted_permutes, sorted_by_rank};

verus! {

/// The first task of `s` with key `k`.
pub open spec fn find<T: TaskRecord>(s: Seq<T>, k: Seq<char>) -> Option<T> {
    let i = first_index(s, key_is::<T>(k));
    if i < s.len() {
        Some(s[i])
    } else {
        None
    }
}

/// Two sequences hold the same tasks when every key leads to the same task
/// in both. For sequences without repeated keys that is equality as sets.
pub open spec fn same_tasks<T: TaskRecord>(a: Seq<T>, b: Seq<T>) -> bool {
    forall|k: Seq<char>| #[trigger] find(a, k) == find(b, k)
}

/// No key occurs twice in `s`.
pub open spec fn unique_keys<T: TaskRecord>(s: Seq<T>) -> bool {
    forall|k: Seq<char>| #[trigger] count_key(s, k) <= 1
}

/// `f` applied to what was found, if anything was.
pub open spec fn found_then<T>(found: Option<T>, f: spec_fn(T) -> T) -> Option<T> {
    match found {
        Some(t) => Some(f(t)),
        None => None,
    }
}

/// In a sequence that holds a key at most once, the task found under the
/// key is the one task that carries it.
pub proof fn lemma_find_unique<T: TaskRecord>(s: Seq<T>, x: T)
    requires
        count_key(s, x.key()) <= 1,
        s.contains(x),
    ensures
        find(s, x.key()) == Some(x),
{
    let k = x.key();
    let p = key_is::<T>(k);
    lemma_first_index(s, p);
    let f = first_index(s, p);
    let j = choose|j: int| 0 <= j < s.len() && s[j] == x;
    if f > j {
        assert(!p(s[j]));
    }
    if f < j {
        lemma_count_remove(s, f, k);
        let rest = s.remove(f);
        assert(rest[j - 1] == x);
        lemma_count_positive(rest, k);
    }
}

/// A key that does not occur leads to nothing, and the other way round.
pub proof fn lemma_find_none<T: TaskRecord>(s: Seq<T>, k: Seq<char>)
    ensures
        find(s, k) is None <==> count_key(s, k) == 0,
        find(s, k) is Some ==> s.contains(find(s, k)->0) && find(s, k)->0.key() == k,
{
    lemma_count_positive(s, k);
    lemma_first_index(s, key_is::<T>(k));
}

/// Looking up commutes with a function that keeps keys.
pub proof fn lemma_find_map<T: TaskRecord>(s: Seq<T>, f: spec_fn(T) -> T, k: Seq<char>)
    requires
        forall|t: T| (#[trigger] f(t)).key() == t.key(),
    ensures
        find(s.map_values(f), k) == found_then(find(s, k), f),
{
    let p = key_is::<T>(k);
    let m = s.map_values(f);
    lemma_first_index(s, p);
    let i = first_index(s, p);
    assert forall|j: int| 0 <= j < i implies !p(#[trigger] m[j]) by {
        assert(!p(s[j]));
    }
    if i < s.len() {
        assert(p(m[i]));
    }
    lemma_first_index_is(m, p, i);
}

/// An element of a sequence that passes a predicate is an element of the
/// filtered sequence.
pub proof fn lemma_filter_keeps<T>(s: Seq<T>, p: spec_fn(T) -> bool, x: T)
    requires
        s.contains(x),
        p(x),
    ensures
        s.filter(p).contains(x),
    decreases s.len(),
{
    reveal_with_fuel(Seq::filter, 1);
    let j = choose|j: int| 0 <= j < s.len() && s[j] == x;
    let rest = s.drop_last();
    if j == s.len() - 1 {
        let kept = s.filter(p);
        assert(kept[kept.len() - 1] == x);
    } else {
        assert(rest[j] == x);
        lemma_filter_keeps(rest, p, x);
        let i = choose|i: int| 0 <= i < rest.filter(p).len() && rest.filter(p)[i] == x;
        assert(s.filter(p)[i] == x);
    }
}

/// An element of a sequence is an element of the sorted sequence.
pub proof fn lemma_sorted_keeps<T>(s: Seq<T>, rank: spec_fn(T) -> int, x: T)
    requires
        s.contains(x),
    ensures
        sorted_by_rank(s, rank).contains(x),
{
    broadcast use vstd::seq_lib::group_to_multiset_ensures;

    lemma_sorted_permutes(s, rank);
    assert(s.to_multiset().count(x) > 0);
    assert(sorted_by_rank(s, rank).to_multiset().count(x) > 0);
}

/// Parting a sequence in three by predicates of which every task passes
/// exactly one, sorting each part and laying the parts end to end, leaves
/// every key leading to the task it led to before, as long as the key
/// occurs at most once.
pub proof fn lemma_find_in_parts<T: TaskRecord>(
    all: Seq<T>,
    a: spec_fn(T) -> bool,
    b: spec_fn(T) -> bool,
    c: spec_fn(T) -> bool,
    rank_a: spec_fn(T) -> int,
    rank_b: spec_fn(T) -> int,
    rank_c: spec_fn(T) -> int,
    k: Seq<char>,
)
    requires
        three_way(a, b, c),
        count_key(all, k) <= 1,
    ensures
        find(
            sorted_by_rank(all.filter(a), rank_a) + sorted_by_rank(all.filter(b), rank_b)
                + sorted_by_rank(all.filter(c), rank_c),
            k,
        ) == find(all, k),
{
    let pa = sorted_by_rank(all.filter(a), rank_a);
    let pb = sorted_by_rank(all.filter(b), rank_b);
    let pc = sorted_by_rank(all.filter(c), rank_c);
    let laid = pa + pb + pc;
    lemma_count_three_parts(all, a, b, c, k);
    lemma_sorted_count(all.filter(a), rank_a, k);
    lemma_sorted_count(all.filter(b), rank_b, k);
    lemma_sorted_count(all.filter(c), rank_c, k);
    lemma_count_add(pa + pb, pc, k);
    lemma_count_add(pa, pb, k);
    lemma_find_none(all, k);
    lemma_find_none(laid, k);
    if find(all, k) is Some {
        let x = find(all, k)->0;
        assert(if a(x) {
            !b(x) && !c(x)
        } else {
            b(x) != c(x)
        });
        if a(x) {
            lemma_filter_keeps(all, a, x);
            lemma_sorted_keeps(all.filter(a), rank_a, x);
            let i = choose|i: int| 0 <= i < pa.len() && pa[i] == x;
            assert(laid[i] == x);
        } else if b(x) {
            lemma_filter_keeps(all, b, x);
            lemma_sorted_keeps(all.filter(b), rank_b, x);
            let i = choose|i: int| 0 <= i < pb.len() && pb[i] == x;
            assert(laid[pa.len() + i] == x);
        } else {
            lemma_filter_keeps(all, c, x);
            lemma_sorted_keeps(all.filter(c), rank_c, x);
            let i = choose|i: int| 0 <= i < pc.len() && pc[i] == x;
            assert(laid[pa.len() + pb.len() + i] == x);
        }
        lemma_find_unique(laid, x);
    }
}

/// What a filter does to a lookup in a sequence without repeated keys: the
/// task is found as before if it passes, and not at all otherwise.
pub proof fn lemma_find_filter<T: TaskRecord>(s: Seq<T>, p: spec_fn(T) -> bool, k: Seq<char>)
    requires
        count_key(s, k) <= 1,
    ensures
        find(s.filter(p), k) == match find(s, k) {
            Some(t) => if p(t) {
                Some(t)
            } else {
                None
            },
            None => None,
        },
{
    let kept = s.filter(p);
    lemma_count_filter(s, p, k);
    lemma_find_none(s, k);
    lemma_find_none(kept, k);
    lemma_filter_elements(s, p);
    match find(s, k) {
        Some(t) => {
            if p(t) {
                lemma_filter_keeps(s, p, t);
                lemma_find_unique(kept, t);
            } else {
                if find(kept, k) is Some {
                    let u = find(kept, k)->0;
                    let i = choose|i: int| 0 <= i < kept.len() && kept[i] == u;
                    assert(p(kept[i]));
                    assert(s.contains(kept[i]));
                    lemma_find_unique(s, u);
                }
            }
        },
        None => {},
    }
}

/// Looking up in a concatenation: the first part is searched first.
pub proof fn lemma_find_add<T: TaskRecord>(a: Seq<T>, b: Seq<T>, k: Seq<char>)
    ensures
        find(a + b, k) == if find(a, k) is Some {
            find(a, k)
        } else {
            find(b, k)
        },
{
    let p = key_is::<T>(k);
    let s = a + b;
    lemma_first_index(a, p);
    lemma_first_index(b, p);
    let i = first_index(a, p);
    if i < a.len() {
        assert(s[i] == a[i]);
        assert forall|j: int| 0 <= j < i implies !p(#[trigger] s[j]) by {
            assert(s[j] == a[j]);
        }
        lemma_first_index_is(s, p, i);
    } else {
        let j = first_index(b, p);
        assert forall|m: int| 0 <= m < a.len() + j implies !p(#[trigger] s[m]) by {
            if m < a.len() {
                assert(s[m] == a[m]);
            } else {
                assert(s[m] == b[m - a.len()]);
            }
        }
        if j < b.len() {
            assert(s[a.len() + j] == b[j]);
        }
        lemma_first_index_is(s, p, a.len() + j);
    }
}

/// Looking up after a task was appended.
pub proof fn lemma_find_push<T: TaskRecord>(s: Seq<T>, t: T, k: Seq<char>)
    ensures
        find(s.push(t), k) == if find(s, k) is Some {
            find(s, k)
        } else if t.key() == k {
            Some(t)
        } else {
            None
        },
{
    assert(s.push(t) =~= s + seq![t]);
    lemma_find_add(s, seq![t], k);
    let p = key_is::<T>(k);
    let one = seq![t];
    lemma_first_index(one, p);
    if t.key() == k {
        assert(p(one[0]));
        lemma_first_index_is(one, p, 0);
    } else {
        assert(!p(one[0]));
        lemma_first_index_is(one, p, 1);
    }
}

/// Looking up after a task was replaced by one with the same key.
pub proof fn lemma_find_update<T: TaskRecord>(s: Seq<T>, i: int, t: T, k: Seq<char>)
    requires
        0 <= i < s.len(),
        s[i].key() == t.key(),
        i == first_index(s, key_is::<T>(t.key())),
    ensures
        find(s.update(i, t), k) == if k == t.key() {
            Some(t)
        } else {
            find(s, k)
        },
{
    let p = key_is::<T>(k);
    let u = s.update(i, t);
    lemma_first_index(s, p);
    let f = first_index(s, p);
    assert forall|j: int| 0 <= j < f implies !p(#[trigger] u[j]) by {
        assert(!p(s[j]));
    }
    if f < s.len() {
        assert(p(u[f]));
    }
    lemma_first_index_is(u, p, f);
}

/// Under every key, the first occurrences of a sequence hold what the
/// sequence holds first.
pub proof fn lemma_find_first_occurrences<T: TaskRecord>(s: Seq<T>, k: Seq<char>)
    ensures
        find(first_occurrences(s), k) == find(s, k),
    decreases s.len(),
{
    if s.len() > 0 {
        let rest = s.drop_last();
        let x = s.last();
        let kept = first_occurrences(rest);
        lemma_find_first_occurrences(rest, k);
        lemma_find_first_occurrences(rest, x.key());
        assert(rest.push(x) =~= s);
        lemma_find_push(rest, x, k);
        lemma_find_push(kept, x, k);
    }
}

/// `s` with `t` in the place of the first element of its key, or at the
/// end when there is none.
pub open spec fn placed<T: TaskRecord>(s: Seq<T>, t: T) -> Seq<T> {
    let pos = first_index(s, key_is::<T>(t.key()));
    if pos < s.len() {
        s.update(pos, t)
    } else {
        s.push(t)
    }
}

/// `s` with `t` at the end, in place of all elements of its key.
pub open spec fn renewed<T: TaskRecord>(s: Seq<T>, t: T) -> Seq<T> {
    without_key(s, t.key()).push(t)
}

/// Placing an element keeps the keys unique.
pub proof fn lemma_placed_unique<T: TaskRecord>(s: Seq<T>, t: T)
    requires
        unique_keys(s),
    ensures
        unique_keys(placed(s, t)),
{
    let pos = first_index(s, key_is::<T>(t.key()));
    lemma_first_index(s, key_is::<T>(t.key()));
    assert forall|k: Seq<char>| #[trigger] count_key(placed(s, t), k) <= 1 by {
        assert(count_key(s, k) <= 1);
        if pos < s.len() {
            lemma_count_update(s, pos, t, k);
        } else {
            lemma_count_push(s, t, k);
            lemma_count_positive(s, t.key());
        }
    }
}

/// Renewing an element keeps the keys unique, and so does dropping a key
/// or keeping a part.
pub proof fn lemma_renewed_unique<T: TaskRecord>(s: Seq<T>, t: T, p: spec_fn(T) -> bool)
    requires
        unique_keys(s),
    ensures
        unique_keys(renewed(s, t)),
        unique_keys(without_key(s, t.key())),
        unique_keys(s.filter(p)),
{
    assert forall|k: Seq<char>| #[trigger] count_key(renewed(s, t), k) <= 1 by {
        assert(count_key(s, k) <= 1);
        lemma_count_without(s, t.key(), k);
        lemma_count_push(without_key(s, t.key()), t, k);
    }
    assert forall|k: Seq<char>| #[trigger] count_key(without_key(s, t.key()), k) <= 1 by {
        assert(count_key(s, k) <= 1);
        lemma_count_without(s, t.key(), k);
    }
    assert forall|k: Seq<char>| #[trigger] count_key(s.filter(p), k) <= 1 by {
        assert(count_key(s, k) <= 1);
        lemma_count_filter(s, p, k);
    }
}

/// Under the key of an element that was placed, the element is found;
/// under every other key, what was found before.
pub proof fn lemma_find_placed<T: TaskRecord>(s: Seq<T>, t: T, k: Seq<char>)
    ensures
        find(placed(s, t), k) == if k == t.key() {
            Some(t)
        } else {
            find(s, k)
        },
{
    let pos = first_index(s, key_is::<T>(t.key()));
    lemma_first_index(s, key_is::<T>(t.key()));
    if pos < s.len() {
        lemma_find_update(s, pos, t, k);
    } else {
        lemma_find_push(s, t, k);
    }
}

/// `s` without the elements under any of `keys`, dropped key by key.
pub open spec fn without_keys<T: TaskRecord>(s: Seq<T>, keys: Seq<Seq<char>>) -> Seq<T>
    decreases keys.len(),
{
    if keys.len() == 0 {
        s
    } else {
        without_key(without_keys(s, keys.drop_last()), keys.last())
    }
}

/// Dropping keys from a sequence without repeated keys leaves, under every
/// key that was not dropped, what was there before, and nothing under the
/// others.
pub proof fn lemma_find_without_keys<T: TaskRecord>(s: Seq<T>, keys: Seq<Seq<char>>, k: Seq<char>)
    requires
        unique_keys(s),
    ensures
        unique_keys(without_keys(s, keys)),
        find(without_keys(s, keys), k) == if keys.contains(k) {
            None
        } else {
            find(s, k)
        },
    decreases keys.len(),
{
    if keys.len() > 0 {
        let rest = keys.drop_last();
        let last = keys.last();
        let before = without_keys(s, rest);
        lemma_find_without_keys(s, rest, k);
        assert forall|j: Seq<char>| #[trigger] count_key(without_keys(s, keys), j) <= 1 by {
            assert(count_key(before, j) <= 1);
            lemma_count_without(before, last, j);
        }
        assert(count_key(before, k) <= 1);
        lemma_find_filter(before, key_is_not::<T>(last), k);
        lemma_find_none(before, k);
        assert(rest.push(last) =~= keys);
        if rest.contains(k) {
            let i = choose|i: int| 0 <= i < rest.len() && rest[i] == k;
            assert(keys[i] == k);
        }
        if k == last {
            assert(keys[keys.len() - 1] == k);
        }
        if keys.contains(k) && k != last {
            let i = choose|i: int| 0 <= i < keys.len() && keys[i] == k;
            assert(rest[i] == k);
        }
    }
}

/// Taking out the one element under a key leaves nothing under that key,
/// and under every other key what was there before.
pub proof fn lemma_find_remove<T: TaskRecord>(s: Seq<T>, i: int, k: Seq<char>)
    requires
        0 <= i < s.len(),
        count_key(s, s[i].key()) <= 1,
    ensures
        find(s.remove(i), k) == if k == s[i].key() {
            None
        } else {
            find(s, k)
        },
{
    let p = key_is::<T>(k);
    let r = s.remove(i);
    lemma_count_remove(s, i, k);
    lemma_find_none(r, k);
    lemma_first_index(s, p);
    let f = first_index(s, p);
    if k != s[i].key() {
        if f < i {
            assert(r[f] == s[f]);
            assert forall|j: int| 0 <= j < f implies !p(#[trigger] r[j]) by {
                assert(r[j] == s[j]);
            }
            lemma_first_index_is(r, p, f);
        } else if f < s.len() {
            assert(f > i);
            assert(r[f - 1] == s[f]);
            assert forall|j: int| 0 <= j < f - 1 implies !p(#[trigger] r[j]) by {
                if j < i {
                    assert(r[j] == s[j]);
                } else {
                    assert(r[j] == s[j + 1]);
                }
            }
            lemma_first_index_is(r, p, f - 1);
        } else {
            assert forall|j: int| 0 <= j < r.len() implies !p(#[trigger] r[j]) by {
                if j < i {
                    assert(r[j] == s[j]);
                } else {
                    assert(r[j] == s[j + 1]);
                }
            }
            lemma_first_index_is(r, p, r.len() as int);
        }
    }
}

/// Under the key of an element put in front, the element is found; under
/// every other key, what was found before.
pub proof fn lemma_find_insert_front<T: TaskRecord>(s: Seq<T>, t: T, k: Seq<char>)
    ensures
        find(s.insert(0, t), k) == if k == t.key() {
            Some(t)
        } else {
            find(s, k)
        },
{
    let p = key_is::<T>(k);
    let one = seq![t];
    assert(s.insert(0, t) =~= one + s);
    lemma_find_add(one, s, k);
    if p(t) {
        lemma_first_index_is(one, p, 0);
    } else {
        lemma_first_index_is(one, p, 1);
    }
}

/// What is found in a queue is what is found among its running tasks, or
/// else among its completed tasks, or else among its failed tasks.
pub proof fn lemma_find_in_queue<T: TaskRecord>(q: QueueView<T>, k: Seq<char>)
    ensures
        find(q.all(), k) == if find(q.active, k) is Some {
            find(q.active, k)
        } else if find(q.completed, k) is Some {
            find(q.completed, k)
        } else {
            find(q.failed, k)
        },
{
    lemma_find_add(q.active + q.completed, q.failed, k);
    lemma_find_add(q.active, q.completed, k);
}

} // verus!
