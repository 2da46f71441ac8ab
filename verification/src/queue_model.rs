//! The mathematical model that both transfer queues share: tasks carry a
//! key, a queue is three sequences of tasks, and a well-formed queue holds
//! every key at most once.

use vstd::prelude::*;

use crate::models::QueueView;
use crate::text::owned;

verus! {

/// A task as the queue model sees it: something with a key.
pub trait TaskRecord: Sized {
    /// The identity under which the queue files the task.
    spec fn key(self) -> Seq<char>;
}

/// The predicate "has key `k`".
pub open spec fn key_is<T: TaskRecord>(k: Seq<char>) -> spec_fn(T) -> bool {
    |t: T| t.key() == k
}

/// The predicate "has a key other than `k`".
pub open spec fn key_is_not<T: TaskRecord>(k: Seq<char>) -> spec_fn(T) -> bool {
    |t: T| t.key() != k
}

/// Index of the first element of `s` that satisfies `p`, or `s.len()` when
/// there is none.
pub open spec fn first_index<T>(s: Seq<T>, p: spec_fn(T) -> bool) -> int
    decreases s.len(),
{
    if s.len() == 0 {
        0
    } else if p(s[0]) {
        0
    } else {
        1 + first_index(s.drop_first(), p)
    }
}

/// Number of elements of `s` with key `k`.
pub open spec fn count_key<T: TaskRecord>(s: Seq<T>, k: Seq<char>) -> nat {
    s.filter(key_is::<T>(k)).len()
}

/// Whether some element of `s` has key `k`.
pub open spec fn has_key<T: TaskRecord>(s: Seq<T>, k: Seq<char>) -> bool {
    first_index(s, key_is::<T>(k)) < s.len()
}

/// The keys of the elements of `s`, in order.
pub open spec fn keys_of<T: TaskRecord>(s: Seq<T>) -> Seq<Seq<char>> {
    Seq::new(s.len(), |i: int| s[i].key())
}

/// `s` without the elements whose key is `k`.
pub open spec fn without_key<T: TaskRecord>(s: Seq<T>, k: Seq<char>) -> Seq<T> {
    s.filter(key_is_not::<T>(k))
}

impl<T: TaskRecord> QueueView<T> {
    /// How often key `k` occurs in the three sequences together.
    pub open spec fn occurrences(self, k: Seq<char>) -> nat {
        count_key(self.active, k) + count_key(self.completed, k) + count_key(self.failed, k)
    }

    /// No key occurs twice, neither within a sequence nor across them.
    pub open spec fn keys_unique(self) -> bool {
        forall|k: Seq<char>| #[trigger] self.occurrences(k) <= 1
    }

    /// The three sequences laid end to end.
    pub open spec fn all(self) -> Seq<T> {
        self.active + self.completed + self.failed
    }

    /// The keys of all tasks, in the order of [`Self::all`].
    pub open spec fn all_keys(self) -> Seq<Seq<char>> {
        keys_of(self.all())
    }
}

/// What `first_index` returns: a position within bounds or the length, the
/// element there satisfies `p`, and no earlier one does.
pub proof fn lemma_first_index<T>(s: Seq<T>, p: spec_fn(T) -> bool)
    ensures
        0 <= first_index(s, p) <= s.len(),
        first_index(s, p) < s.len() ==> p(s[first_index(s, p)]),
        forall|j: int| 0 <= j < first_index(s, p) ==> !p(#[trigger] s[j]),
    decreases s.len(),
{
    if s.len() > 0 && !p(s[0]) {
        let rest = s.drop_first();
        lemma_first_index(rest, p);
        assert forall|j: int| 0 <= j < first_index(s, p) implies !p(#[trigger] s[j]) by {
            if j > 0 {
                assert(s[j] == rest[j - 1]);
            }
        }
    }
}

/// A position whose element satisfies `p`, with no earlier such element, is
/// the first index.
pub proof fn lemma_first_index_is<T>(s: Seq<T>, p: spec_fn(T) -> bool, i: int)
    requires
        0 <= i <= s.len(),
        i < s.len() ==> p(s[i]),
        forall|j: int| 0 <= j < i ==> !p(#[trigger] s[j]),
    ensures
        first_index(s, p) == i,
{
    lemma_first_index(s, p);
    let f = first_index(s, p);
    if f < i {
        assert(!p(s[f]));
    } else if f > i {
        assert(!p(s[i]));
    }
}

/// Filtering the tail that starts at `i` either keeps or drops `s[i]` and
/// then filters the tail that starts at `i + 1`.
pub proof fn lemma_filter_skip_step<T>(s: Seq<T>, p: spec_fn(T) -> bool, i: int)
    requires
        0 <= i < s.len(),
    ensures
        s.skip(i).filter(p) == if p(s[i]) {
            seq![s[i]] + s.skip(i + 1).filter(p)
        } else {
            s.skip(i + 1).filter(p)
        },
{
    let head = seq![s[i]];
    let tail = s.skip(i + 1);
    assert(s.skip(i) =~= head + tail);
    Seq::filter_distributes_over_add(head, tail, p);
    assert(head.drop_last() =~= Seq::<T>::empty());
    reveal_with_fuel(Seq::filter, 2);
    if p(s[i]) {
        assert(head.filter(p) =~= head);
    } else {
        assert(head.filter(p) =~= Seq::<T>::empty());
        assert(Seq::<T>::empty() + tail.filter(p) =~= tail.filter(p));
    }
}

/// Filtering a whole sequence, seen from its first element.
pub proof fn lemma_filter_all_true<T>(s: Seq<T>, p: spec_fn(T) -> bool)
    requires
        forall|i: int| 0 <= i < s.len() ==> p(#[trigger] s[i]),
    ensures
        s.filter(p) == s,
    decreases s.len(),
{
    reveal_with_fuel(Seq::filter, 1);
    if s.len() > 0 {
        let rest = s.drop_last();
        assert forall|i: int| 0 <= i < rest.len() implies p(#[trigger] rest[i]) by {
            assert(rest[i] == s[i]);
        }
        lemma_filter_all_true(rest, p);
        assert(rest.push(s.last()) =~= s);
    }
}

/// Filtering a sequence none of whose elements passes leaves nothing.
pub proof fn lemma_filter_all_false<T>(s: Seq<T>, p: spec_fn(T) -> bool)
    requires
        forall|i: int| 0 <= i < s.len() ==> !p(#[trigger] s[i]),
    ensures
        s.filter(p) == Seq::<T>::empty(),
    decreases s.len(),
{
    reveal_with_fuel(Seq::filter, 1);
    if s.len() > 0 {
        let rest = s.drop_last();
        assert forall|i: int| 0 <= i < rest.len() implies !p(#[trigger] rest[i]) by {
            assert(rest[i] == s[i]);
        }
        lemma_filter_all_false(rest, p);
    }
}

/// Every element that survives a filter satisfies the predicate and stems
/// from the unfiltered sequence.
pub proof fn lemma_filter_elements<T>(s: Seq<T>, p: spec_fn(T) -> bool)
    ensures
        forall|i: int| 0 <= i < s.filter(p).len() ==> p(#[trigger] s.filter(p)[i]),
        forall|i: int| 0 <= i < s.filter(p).len() ==> s.contains(#[trigger] s.filter(p)[i]),
        s.filter(p).len() <= s.len(),
    decreases s.len(),
{
    reveal_with_fuel(Seq::filter, 1);
    if s.len() > 0 {
        let rest = s.drop_last();
        let kept = rest.filter(p);
        lemma_filter_elements(rest, p);
        assert forall|i: int| 0 <= i < s.filter(p).len() implies p(#[trigger] s.filter(p)[i])
            && s.contains(s.filter(p)[i]) by {
            if i < kept.len() {
                assert(s.filter(p)[i] == kept[i]);
                assert(rest.contains(kept[i]));
                let j = choose|j: int| 0 <= j < rest.len() && rest[j] == kept[i];
                assert(s[j] == kept[i]);
            } else {
                assert(s.filter(p)[i] == s[s.len() - 1]);
            }
        }
    }
}

/// An empty sequence holds no key.
pub proof fn lemma_count_empty<T: TaskRecord>(k: Seq<char>)
    ensures
        count_key(Seq::<T>::empty(), k) == 0,
{
    reveal_with_fuel(Seq::filter, 1);
}

/// Counting over a concatenation adds up.
pub proof fn lemma_count_add<T: TaskRecord>(a: Seq<T>, b: Seq<T>, k: Seq<char>)
    ensures
        count_key(a + b, k) == count_key(a, k) + count_key(b, k),
{
    Seq::filter_distributes_over_add(a, b, key_is::<T>(k));
}

/// A one-element sequence holds its element's key once and no other.
pub proof fn lemma_count_single<T: TaskRecord>(t: T, k: Seq<char>)
    ensures
        count_key(seq![t], k) == if t.key() == k { 1nat } else { 0nat },
{
    let s = seq![t];
    let p = key_is::<T>(k);
    if p(t) {
        assert(s[0] == t);
        lemma_filter_all_true(s, p);
    } else {
        assert(s[0] == t);
        lemma_filter_all_false(s, p);
    }
}

/// Appending a task raises the count of its key by one.
pub proof fn lemma_count_push<T: TaskRecord>(s: Seq<T>, t: T, k: Seq<char>)
    ensures
        count_key(s.push(t), k) == count_key(s, k) + if t.key() == k { 1nat } else { 0nat },
{
    assert(s.push(t) =~= s + seq![t]);
    lemma_count_add(s, seq![t], k);
    lemma_count_single(t, k);
}

/// Putting a task in front raises the count of its key by one.
pub proof fn lemma_count_insert_front<T: TaskRecord>(s: Seq<T>, t: T, k: Seq<char>)
    ensures
        count_key(s.insert(0, t), k) == count_key(s, k) + if t.key() == k { 1nat } else { 0nat },
{
    assert(s.insert(0, t) =~= seq![t] + s);
    lemma_count_add(seq![t], s, k);
    lemma_count_single(t, k);
}

/// Taking the element at `i` out lowers the count of its key by one.
pub proof fn lemma_count_remove<T: TaskRecord>(s: Seq<T>, i: int, k: Seq<char>)
    requires
        0 <= i < s.len(),
    ensures
        count_key(s, k) == count_key(s.remove(i), k) + if s[i].key() == k { 1nat } else { 0nat },
{
    let a = s.take(i);
    let b = s.skip(i + 1);
    assert(s =~= a + seq![s[i]] + b);
    assert(s.remove(i) =~= a + b);
    lemma_count_add(a + seq![s[i]], b, k);
    lemma_count_add(a, seq![s[i]], k);
    lemma_count_add(a, b, k);
    lemma_count_single(s[i], k);
}

/// Replacing an element by one with the same key changes no count.
pub proof fn lemma_count_update<T: TaskRecord>(s: Seq<T>, i: int, t: T, k: Seq<char>)
    requires
        0 <= i < s.len(),
        t.key() == s[i].key(),
    ensures
        count_key(s.update(i, t), k) == count_key(s, k),
{
    let u = s.update(i, t);
    lemma_count_remove(s, i, k);
    lemma_count_remove(u, i, k);
    assert(u.remove(i) =~= s.remove(i));
}

/// A filter never raises a count.
pub proof fn lemma_count_filter<T: TaskRecord>(s: Seq<T>, p: spec_fn(T) -> bool, k: Seq<char>)
    ensures
        count_key(s.filter(p), k) <= count_key(s, k),
    decreases s.len(),
{
    reveal_with_fuel(Seq::filter, 1);
    if s.len() > 0 {
        let rest = s.drop_last();
        lemma_count_filter(rest, p, k);
        assert(rest.push(s.last()) =~= s);
        lemma_count_push(rest, s.last(), k);
        if p(s.last()) {
            lemma_count_push(rest.filter(p), s.last(), k);
        }
    }
}

/// After the tasks with key `gone` are dropped, that key no longer occurs
/// and every other key occurs as often as before.
pub proof fn lemma_count_without<T: TaskRecord>(s: Seq<T>, gone: Seq<char>, k: Seq<char>)
    ensures
        count_key(without_key(s, gone), k) == if k == gone { 0nat } else { count_key(s, k) },
    decreases s.len(),
{
    reveal_with_fuel(Seq::filter, 1);
    let p = key_is_not::<T>(gone);
    if s.len() > 0 {
        let rest = s.drop_last();
        lemma_count_without(rest, gone, k);
        assert(rest.push(s.last()) =~= s);
        lemma_count_push(rest, s.last(), k);
        if p(s.last()) {
            lemma_count_push(rest.filter(p), s.last(), k);
        }
    }
}

/// A key occurs in a sequence exactly when some element carries it.
pub proof fn lemma_count_positive<T: TaskRecord>(s: Seq<T>, k: Seq<char>)
    ensures
        count_key(s, k) > 0 <==> has_key(s, k),
        has_key(s, k) <==> exists|i: int| 0 <= i < s.len() && (#[trigger] s[i]).key() == k,
{
    let p = key_is::<T>(k);
    lemma_first_index(s, p);
    let f = first_index(s, p);
    if f < s.len() {
        assert(s[f].key() == k);
        lemma_count_remove(s, f, k);
    } else {
        assert forall|i: int| 0 <= i < s.len() implies !p(#[trigger] s[i]) by {}
        lemma_filter_all_false(s, p);
        assert forall|i: int| 0 <= i < s.len() implies (#[trigger] s[i]).key() != k by {
            assert(!p(s[i]));
        }
    }
}

/// The elements of `s` that are the first to carry their key, in order.
pub open spec fn first_occurrences<T: TaskRecord>(s: Seq<T>) -> Seq<T>
    decreases s.len(),
{
    if s.len() == 0 {
        s
    } else {
        let kept = first_occurrences(s.drop_last());
        if has_key(kept, s.last().key()) {
            kept
        } else {
            kept.push(s.last())
        }
    }
}

/// Putting a task anywhere raises the count of its key by one.
pub proof fn lemma_count_insert<T: TaskRecord>(s: Seq<T>, i: int, t: T, k: Seq<char>)
    requires
        0 <= i <= s.len(),
    ensures
        count_key(s.insert(i, t), k) == count_key(s, k) + if t.key() == k { 1nat } else { 0nat },
{
    let r = s.insert(i, t);
    lemma_count_remove(r, i, k);
    assert(r.remove(i) =~= s);
}

/// Filtering after appending.
pub proof fn lemma_filter_push_step<T>(s: Seq<T>, x: T, p: spec_fn(T) -> bool)
    ensures
        s.push(x).filter(p) == if p(x) { s.filter(p).push(x) } else { s.filter(p) },
{
    reveal_with_fuel(Seq::filter, 1);
    assert(s.push(x).drop_last() =~= s);
}

/// The first occurrences hold every key at most once, and hold exactly
/// the keys of the whole sequence.
pub proof fn lemma_first_occurrences<T: TaskRecord>(s: Seq<T>, k: Seq<char>)
    ensures
        count_key(first_occurrences(s), k) <= 1,
        has_key(first_occurrences(s), k) <==> has_key(s, k),
        count_key(first_occurrences(s), k) <= count_key(s, k),
        first_occurrences(s).len() <= s.len(),
    decreases s.len(),
{
    if s.len() == 0 {
        lemma_count_empty::<T>(k);
    } else {
        let rest = s.drop_last();
        let kept = first_occurrences(rest);
        let x = s.last();
        lemma_first_occurrences(rest, k);
        lemma_first_occurrences(rest, x.key());
        assert(rest.push(x) =~= s);
        lemma_count_push(rest, x, k);
        lemma_count_push(kept, x, k);
        lemma_count_positive(kept, k);
        lemma_count_positive(kept, x.key());
        lemma_count_positive(rest, k);
        lemma_count_positive(s, k);
        lemma_count_positive(first_occurrences(s), k);
    }
}

/// The elements of the first occurrences stem from the whole sequence.
pub proof fn lemma_first_occurrences_elements<T: TaskRecord>(s: Seq<T>)
    ensures
        forall|i: int|
            0 <= i < first_occurrences(s).len() ==> s.contains(#[trigger] first_occurrences(s)[i]),
    decreases s.len(),
{
    if s.len() > 0 {
        let rest = s.drop_last();
        let kept = first_occurrences(rest);
        lemma_first_occurrences_elements(rest);
        let r = first_occurrences(s);
        assert forall|i: int| 0 <= i < r.len() implies s.contains(#[trigger] r[i]) by {
            if i < kept.len() {
                assert(r[i] == kept[i]);
                assert(rest.contains(kept[i]));
                let j = choose|j: int| 0 <= j < rest.len() && rest[j] == kept[i];
                assert(s[j] == kept[i]);
            } else {
                assert(r[i] == s[s.len() - 1]);
            }
        }
    }
}

/// Applying a function that keeps keys to every element changes no count.
pub proof fn lemma_count_map<T: TaskRecord>(s: Seq<T>, f: spec_fn(T) -> T, k: Seq<char>)
    requires
        forall|t: T| (#[trigger] f(t)).key() == t.key(),
    ensures
        count_key(s.map_values(f), k) == count_key(s, k),
    decreases s.len(),
{
    if s.len() == 0 {
        assert(s.map_values(f) =~= s);
    } else {
        let rest = s.drop_last();
        lemma_count_map(rest, f, k);
        assert(rest.push(s.last()) =~= s);
        assert(s.map_values(f) =~= rest.map_values(f).push(f(s.last())));
        lemma_count_push(rest, s.last(), k);
        lemma_count_push(rest.map_values(f), f(s.last()), k);
    }
}

/// Every value passes exactly one of the three predicates.
pub open spec fn three_way<T>(a: spec_fn(T) -> bool, b: spec_fn(T) -> bool, c: spec_fn(T) -> bool)
    -> bool {
    forall|t: T|
        if #[trigger] a(t) {
            !b(t) && !c(t)
        } else {
            b(t) != c(t)
        }
}

/// When every element passes exactly one of three predicates, the three
/// filtered parts together hold each key as often as the whole.
pub proof fn lemma_count_three_parts<T: TaskRecord>(
    s: Seq<T>,
    a: spec_fn(T) -> bool,
    b: spec_fn(T) -> bool,
    c: spec_fn(T) -> bool,
    k: Seq<char>,
)
    requires
        three_way(a, b, c),
    ensures
        count_key(s, k) == count_key(s.filter(a), k) + count_key(s.filter(b), k) + count_key(
            s.filter(c),
            k,
        ),
    decreases s.len(),
{
    reveal_with_fuel(Seq::filter, 1);
    if s.len() > 0 {
        let rest = s.drop_last();
        let x = s.last();
        lemma_count_three_parts(rest, a, b, c, k);
        assert(rest.push(x) =~= s);
        lemma_count_push(rest, x, k);
        lemma_filter_push_step(rest, x, a);
        lemma_filter_push_step(rest, x, b);
        lemma_filter_push_step(rest, x, c);
        lemma_count_push(rest.filter(a), x, k);
        lemma_count_push(rest.filter(b), x, k);
        lemma_count_push(rest.filter(c), x, k);
        assert(if a(x) {
            !b(x) && !c(x)
        } else {
            b(x) != c(x)
        });
    }
}

/// A key that sits at two places of a sequence occurs at least twice.
pub proof fn lemma_two_places<T: TaskRecord>(s: Seq<T>, i: int, j: int)
    requires
        0 <= i < j < s.len(),
        s[i].key() == s[j].key(),
    ensures
        count_key(s, s[i].key()) >= 2,
{
    let k = s[i].key();
    lemma_count_remove(s, i, k);
    let rest = s.remove(i);
    assert(rest[j - 1] == s[j]);
    lemma_count_positive(rest, k);
}

/// In a queue whose keys are unique, the three sequences laid end to end
/// hold no key twice: the tasks of the queue form a set.
pub proof fn lemma_keys_form_a_set<T: TaskRecord>(q: QueueView<T>)
    requires
        q.keys_unique(),
    ensures
        q.all_keys().no_duplicates(),
        forall|k: Seq<char>| #[trigger] count_key(q.all(), k) <= 1,
{
    let all = q.all();
    assert forall|k: Seq<char>| #[trigger] count_key(all, k) <= 1 by {
        lemma_count_add(q.active + q.completed, q.failed, k);
        lemma_count_add(q.active, q.completed, k);
        assert(q.occurrences(k) <= 1);
    }
    assert forall|i: int, j: int|
        0 <= i < q.all_keys().len() && 0 <= j < q.all_keys().len() && i != j implies q.all_keys()[i]
        != q.all_keys()[j] by {
        if all[i].key() == all[j].key() {
            if i < j {
                lemma_two_places(all, i, j);
            } else {
                lemma_two_places(all, j, i);
            }
            assert(count_key(all, all[i].key()) <= 1);
        }
    }
}

/// What a store is asked to do: write the row of a task, delete the row
/// under a key, or delete the rows of all finished tasks.
pub ghost enum StoreRequest<T> {
    Upsert(T),
    Remove(Seq<char>),
    ClearHistory,
}

/// A request to a store, as a value that can be handed on.
#[derive(Debug, Clone)]
pub enum StoreCall<T> {
    /// Write the row of the task given.
    Upsert(T),
    /// Delete the row under this key.
    Remove(String),
    /// Delete the rows of all finished tasks.
    ClearHistory,
}

impl<T: DeepView> DeepView for StoreCall<T> {
    type V = StoreRequest<T::V>;

    open spec fn deep_view(&self) -> StoreRequest<T::V> {
        match self {
            StoreCall::Upsert(task) => StoreRequest::Upsert(task.deep_view()),
            StoreCall::Remove(key) => StoreRequest::Remove(key@),
            StoreCall::ClearHistory => StoreRequest::ClearHistory,
        }
    }
}

/// The requests to write each of `tasks`, in order.
pub open spec fn upserts<T>(tasks: Seq<T>) -> Seq<StoreRequest<T>> {
    Seq::new(tasks.len(), |i: int| StoreRequest::Upsert(tasks[i]))
}

/// The requests to delete the row under each of `keys`, in order.
pub open spec fn removals<T>(keys: Seq<Seq<char>>) -> Seq<StoreRequest<T>> {
    Seq::new(keys.len(), |i: int| StoreRequest::Remove(keys[i]))
}

/// No request at all.
pub fn no_calls<T: DeepView>() -> (calls: Vec<StoreCall<T>>)
    ensures
        calls.deep_view() == Seq::<StoreRequest<T::V>>::empty(),
{
    let calls: Vec<StoreCall<T>> = Vec::new();
    proof {
        assert(calls.deep_view() =~= Seq::<StoreRequest<T::V>>::empty());
    }
    calls
}

/// One request.
pub fn one_call<T: DeepView>(call: StoreCall<T>) -> (calls: Vec<StoreCall<T>>)
    ensures
        calls.deep_view() == seq![call.deep_view()],
{
    let mut calls: Vec<StoreCall<T>> = Vec::new();
    calls.push(call);
    proof {
        assert(calls.deep_view() =~= seq![call.deep_view()]);
    }
    calls
}

/// Adds to `calls` the requests to delete the row under each of `keys`.
pub fn push_removals<T: DeepView>(calls: &mut Vec<StoreCall<T>>, keys: &Vec<String>)
    ensures
        final(calls).deep_view() == old(calls).deep_view() + removals::<T::V>(keys.deep_view()),
{
    let ghost start = calls.deep_view();
    let ghost gone = keys.deep_view();
    let mut i: usize = 0;
    proof {
        assert(start + removals::<T::V>(gone.take(0)) =~= start);
    }
    while i < keys.len()
        invariant
            i <= keys.len(),
            gone == keys.deep_view(),
            calls.deep_view() == start + removals::<T::V>(gone.take(i as int)),
        decreases keys.len() - i,
    {
        let ghost before = calls.deep_view();
        let key = owned(keys[i].as_str());
        calls.push(StoreCall::Remove(key));
        proof {
            assert(gone[i as int] == keys@[i as int]@);
            assert(calls.deep_view() =~= before.push(StoreRequest::Remove(gone[i as int])));
            assert(start + removals::<T::V>(gone.take(i + 1)) =~= before.push(
                StoreRequest::Remove(gone[i as int]),
            ));
        }
        i += 1;
    }
    proof {
        assert(gone.take(i as int) =~= gone);
    }
}

} // verus!
