use vstd::prelude::*;

verus! {

/// No two elements of the sequence share a key.
pub open spec fn distinct_keys<A>(s: Seq<A>, key: spec_fn(A) -> Seq<char>) -> bool {
    forall|i: int, j: int| 0 <= i < j < s.len() ==> key(s[i]) != key(s[j])
}

/// A sequence of ids with no duplicates.
pub open spec fn distinct_ids(ids: Seq<Seq<char>>) -> bool {
    forall|i: int, j: int| 0 <= i < j < ids.len() ==> ids[i] != ids[j]
}

/// Keeps every id other than `id`; the shape every id-removal shares.
pub open spec fn not_id(id: Seq<char>) -> spec_fn(Seq<char>) -> bool {
    |s: Seq<char>| s != id
}

/// `distinct_ids` is `no_duplicates`, stated for the order-free form.
pub proof fn lemma_distinct_ids_no_duplicates(ids: Seq<Seq<char>>)
    requires
        distinct_ids(ids),
    ensures
        ids.no_duplicates(),
{
    assert forall|i: int, j: int|
        0 <= i < ids.len() && 0 <= j < ids.len() && i != j implies ids[i] != ids[j] by {
        if i < j {
            assert(ids[i] != ids[j]);
        } else {
            assert(ids[j] != ids[i]);
        }
    }
}

/// Filtering a sequence with pairwise-distinct keys keeps the keys
/// pairwise distinct.
pub proof fn lemma_filter_distinct_keys<A>(
    s: Seq<A>,
    pred: spec_fn(A) -> bool,
    key: spec_fn(A) -> Seq<char>,
)
    requires
        distinct_keys(s, key),
    ensures
        distinct_keys(s.filter(pred), key),
    decreases s.len(),
{
    if s.len() > 0 {
        let init = s.drop_last();
        assert(distinct_keys(init, key)) by {
            assert(forall|i: int, j: int|
                0 <= i < j < init.len() ==> init[i] == s[i] && init[j] == s[j]);
        }
        lemma_filter_distinct_keys(init, pred, key);
        assert(s =~= init.push(s.last()));
        init.lemma_filter_push(s.last(), pred);
        if pred(s.last()) {
            assert forall|k: int| 0 <= k < init.filter(pred).len() implies key(
                init.filter(pred)[k],
            ) != key(s.last()) by {
                let e = init.filter(pred)[k];
                assert(init.filter(pred).contains(e));
                init.lemma_filter_contains_rev(pred, e);
                let w = choose|w: int| 0 <= w < init.len() && init[w] == e;
                assert(s[w] == init[w] && s[s.len() - 1] == s.last());
            }
            let f = init.filter(pred).push(s.last());
            assert forall|i: int, j: int| 0 <= i < j < f.len() implies key(f[i]) != key(
                f[j],
            ) by {
                if j < f.len() - 1 {
                    assert(f[i] == init.filter(pred)[i] && f[j] == init.filter(pred)[j]);
                }
            }
        }
    }
}

/// Index of the first element whose key is `id`, or -1 where none has it.
pub open spec fn key_index<A>(s: Seq<A>, key: spec_fn(A) -> Seq<char>, id: Seq<char>) -> int
    decreases s.len(),
{
    if s.len() == 0 {
        -1
    } else if key(s[0]) == id {
        0
    } else {
        let r = key_index(s.drop_first(), key, id);
        if r < 0 {
            -1
        } else {
            r + 1
        }
    }
}

/// `key_index` stays inside the sequence and really lands on the key.
pub proof fn lemma_key_index_bounds<A>(s: Seq<A>, key: spec_fn(A) -> Seq<char>, id: Seq<char>)
    ensures
        -1 <= key_index(s, key, id) < s.len(),
        key_index(s, key, id) >= 0 ==> key(s[key_index(s, key, id)]) == id,
        key_index(s, key, id) == -1 ==> forall|k: int| 0 <= k < s.len() ==> key(s[k]) != id,
    decreases s.len(),
{
    if s.len() > 0 && key(s[0]) != id {
        lemma_key_index_bounds(s.drop_first(), key, id);
        if key_index(s.drop_first(), key, id) == -1 {
            assert forall|k: int| 0 <= k < s.len() implies key(s[k]) != id by {
                if k > 0 {
                    assert(s[k] == s.drop_first()[k - 1]);
                    assert(key(s.drop_first()[k - 1]) != id);
                }
            }
        }
    }
}

/// Where no element carries the key, `key_index` reports -1.
pub proof fn lemma_key_index_none<A>(s: Seq<A>, key: spec_fn(A) -> Seq<char>, id: Seq<char>)
    requires
        forall|k: int| 0 <= k < s.len() ==> key(s[k]) != id,
    ensures
        key_index(s, key, id) == -1,
    decreases s.len(),
{
    if s.len() > 0 {
        assert(forall|k: int| 0 <= k < s.drop_first().len() ==> s.drop_first()[k] == s[k + 1]);
        lemma_key_index_none(s.drop_first(), key, id);
    }
}

/// The first position carrying the key is what `key_index` reports.
pub proof fn lemma_key_index_at<A>(s: Seq<A>, key: spec_fn(A) -> Seq<char>, id: Seq<char>, i: int)
    requires
        0 <= i < s.len(),
        key(s[i]) == id,
        forall|k: int| 0 <= k < i ==> key(s[k]) != id,
    ensures
        key_index(s, key, id) == i,
    decreases i,
{
    if i > 0 {
        assert(forall|k: int| 0 <= k < s.drop_first().len() ==> s.drop_first()[k] == s[k + 1]);
        lemma_key_index_at(s.drop_first(), key, id, i - 1);
    }
}

/// Filtering with a predicate every element satisfies changes nothing.
pub proof fn lemma_filter_all_true<A>(s: Seq<A>, pred: spec_fn(A) -> bool)
    requires
        forall|k: int| 0 <= k < s.len() ==> pred(s[k]),
    ensures
        s.filter(pred) == s,
    decreases s.len(),
{
    if s.len() > 0 {
        let init = s.drop_last();
        assert(forall|k: int| 0 <= k < init.len() ==> init[k] == s[k]);
        lemma_filter_all_true(init, pred);
        assert(s =~= init.push(s.last()));
        init.lemma_filter_push(s.last(), pred);
        assert(s.filter(pred) =~= s);
    }
}

/// On a sequence with pairwise-distinct keys, dropping one key filters out
/// exactly the one element that carries it.
pub proof fn lemma_filter_removes_key<A>(
    s: Seq<A>,
    key: spec_fn(A) -> Seq<char>,
    id: Seq<char>,
    i: int,
    pred: spec_fn(A) -> bool,
)
    requires
        distinct_keys(s, key),
        0 <= i < s.len(),
        key(s[i]) == id,
        forall|e: A| #[trigger] pred(e) <==> key(e) != id,
    ensures
        s.filter(pred) == s.remove(i),
{
    let front = s.subrange(0, i);
    let middle = s.subrange(i, i + 1);
    let back = s.subrange(i + 1, s.len() as int);
    assert(s =~= front + middle + back);
    Seq::<A>::filter_distributes_over_add(front + middle, back, pred);
    Seq::<A>::filter_distributes_over_add(front, middle, pred);
    assert(forall|k: int| 0 <= k < front.len() ==> front[k] == s[k]);
    assert(forall|k: int| 0 <= k < back.len() ==> back[k] == s[k + i + 1]);
    lemma_filter_all_true(front, pred);
    lemma_filter_all_true(back, pred);
    assert(middle =~= Seq::<A>::empty().push(s[i]));
    Seq::<A>::empty().lemma_filter_push(s[i], pred);
    assert(Seq::<A>::empty().filter(pred) =~= Seq::<A>::empty()) by {
        Seq::<A>::empty().lemma_filter_len(pred);
    }
    assert(s.filter(pred) =~= s.remove(i));
}

/// Filtering a duplicate-free sequence keeps it duplicate-free.
pub proof fn lemma_ids_filter_distinct(s: Seq<Seq<char>>, pred: spec_fn(Seq<char>) -> bool)
    requires
        distinct_ids(s),
    ensures
        distinct_ids(s.filter(pred)),
    decreases s.len(),
{
    if s.len() > 0 {
        let init = s.drop_last();
        assert(distinct_ids(init)) by {
            assert(forall|i: int, j: int|
                0 <= i < j < init.len() ==> init[i] == s[i] && init[j] == s[j]);
        }
        lemma_ids_filter_distinct(init, pred);
        assert(s =~= init.push(s.last()));
        init.lemma_filter_push(s.last(), pred);
        if pred(s.last()) {
            assert forall|k: int| 0 <= k < init.filter(pred).len() implies init.filter(pred)[k]
                != s.last() by {
                let e = init.filter(pred)[k];
                assert(init.filter(pred).contains(e));
                init.lemma_filter_contains_rev(pred, e);
                let w = choose|w: int| 0 <= w < init.len() && init[w] == e;
                assert(s[w] == init[w] && s[s.len() - 1] == s.last());
            }
            let f = init.filter(pred).push(s.last());
            assert forall|i: int, j: int| 0 <= i < j < f.len() implies f[i] != f[j] by {
                if j < f.len() - 1 {
                    assert(f[i] == init.filter(pred)[i] && f[j] == init.filter(pred)[j]);
                }
            }
        }
    }
}

} // verus!
