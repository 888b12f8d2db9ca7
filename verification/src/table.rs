//! Tables keyed by text: entries in insertion order, each key at most once,
//! and inserting under a key that is already there replaces its value in place.
use vstd::prelude::*;

verus! {

/// No key occurs twice.
pub open spec fn distinct_keys<V>(s: Seq<(Seq<char>, V)>) -> bool {
    forall|i: int, j: int| 0 <= i < j < s.len() ==> s[i].0 != s[j].0
}

/// `k` is one of the keys.
pub open spec fn has_key<V>(s: Seq<(Seq<char>, V)>, k: Seq<char>) -> bool {
    exists|i: int| 0 <= i < s.len() && s[i].0 == k
}

/// The position of the entry with key `k`, where there is one.
pub open spec fn key_index<V>(s: Seq<(Seq<char>, V)>, k: Seq<char>) -> int {
    choose|i: int| 0 <= i < s.len() && s[i].0 == k
}

/// The table after inserting `v` under `k`: the entry with that key gets the
/// new value where there is one, else the pair goes at the end.
pub open spec fn upsert<V>(s: Seq<(Seq<char>, V)>, k: Seq<char>, v: V) -> Seq<(Seq<char>, V)> {
    if has_key(s, k) {
        s.update(key_index(s, k), (k, v))
    } else {
        s.push((k, v))
    }
}

/// Where the keys are distinct, the entry with key `k` is at position `i`
/// exactly when `i` is the key's index; inserting keeps the keys distinct.
pub proof fn lemma_upsert<V>(s: Seq<(Seq<char>, V)>, k: Seq<char>, v: V, i: int)
    requires
        distinct_keys(s),
    ensures
        0 <= i < s.len() && s[i].0 == k ==> key_index(s, k) == i,
        distinct_keys(upsert(s, k, v)),
{
    if 0 <= i < s.len() && s[i].0 == k {
        let j = key_index(s, k);
        assert(0 <= j < s.len() && s[j].0 == k);
        if i < j {
            assert(s[i].0 != s[j].0);
        } else if j < i {
            assert(s[j].0 != s[i].0);
        }
    }
    if has_key(s, k) {
        let j = key_index(s, k);
        let t = upsert(s, k, v);
        assert forall|a: int, b: int| 0 <= a < b < t.len() implies t[a].0 != t[b].0 by {
            if a == j {
                assert(s[b].0 != s[j].0);
            } else if b == j {
                assert(s[a].0 != s[j].0);
            } else {
                assert(s[a].0 != s[b].0);
            }
        }
    } else {
        let t = upsert(s, k, v);
        assert forall|a: int, b: int| 0 <= a < b < t.len() implies t[a].0 != t[b].0 by {
            if b == s.len() {
                assert(!(0 <= a < s.len() && s[a].0 == k));
            } else {
                assert(s[a].0 != s[b].0);
            }
        }
    }
}

/// `(k, v)` is one of the entries.
pub open spec fn has_entry<V>(s: Seq<(Seq<char>, V)>, k: Seq<char>, v: V) -> bool {
    exists|i: int| 0 <= i < s.len() && s[i] == (k, v)
}

/// Inserting makes `(k, v)` an entry and keeps the entries of other keys.
pub proof fn lemma_upsert_entries<V>(s: Seq<(Seq<char>, V)>, k: Seq<char>, v: V)
    requires
        distinct_keys(s),
    ensures
        has_entry(upsert(s, k, v), k, v),
        forall|k2: Seq<char>, v2: V| k2 != k && #[trigger] has_entry(s, k2, v2) ==> has_entry(upsert(s, k, v), k2, v2),
{
    let t = upsert(s, k, v);
    if has_key(s, k) {
        let j = key_index(s, k);
        assert(t[j] == (k, v));
    } else {
        assert(t[s.len() as int] == (k, v));
    }
    assert forall|k2: Seq<char>, v2: V| k2 != k && #[trigger] has_entry(s, k2, v2) implies has_entry(t, k2, v2) by {
        let m = choose|m: int| 0 <= m < s.len() && s[m] == (k2, v2);
        if has_key(s, k) {
            let j = key_index(s, k);
            assert(m != j);
        }
        assert(t[m] == (k2, v2));
    }
}

/// Inserting an entry that is already there changes nothing.
pub proof fn lemma_upsert_present<V>(s: Seq<(Seq<char>, V)>, k: Seq<char>, v: V)
    requires
        distinct_keys(s),
        has_entry(s, k, v),
    ensures
        upsert(s, k, v) == s,
{
    let m = choose|m: int| 0 <= m < s.len() && s[m] == (k, v);
    lemma_upsert(s, k, v, m);
    assert(s.update(m, (k, v)) =~= s);
}

/// Inserting the present values of `entries` in order.
pub open spec fn upsert_present<V>(s: Seq<(Seq<char>, V)>, entries: Seq<(Seq<char>, Option<V>)>) -> Seq<(Seq<char>, V)>
    decreases entries.len(),
{
    if entries.len() == 0 {
        s
    } else {
        let before = upsert_present(s, entries.drop_last());
        match entries.last().1 {
            Some(v) => upsert(before, entries.last().0, v),
            None => before,
        }
    }
}

/// No key occurs twice among `entries`.
pub open spec fn distinct_entry_keys<V>(entries: Seq<(Seq<char>, Option<V>)>) -> bool {
    forall|i: int, j: int| 0 <= i < j < entries.len() ==> entries[i].0 != entries[j].0
}

/// After inserting entries with distinct keys, each present value is there
/// under its key, and the keys are still distinct.
pub proof fn lemma_upsert_present_entries<V>(s: Seq<(Seq<char>, V)>, entries: Seq<(Seq<char>, Option<V>)>)
    requires
        distinct_keys(s),
        distinct_entry_keys(entries),
    ensures
        distinct_keys(upsert_present(s, entries)),
        forall|j: int|
            0 <= j < entries.len() && entries[j].1 is Some ==> has_entry(
                upsert_present(s, entries),
                entries[j].0,
                #[trigger] entries[j].1->0,
            ),
    decreases entries.len(),
{
    if entries.len() > 0 {
        let init = entries.drop_last();
        assert forall|i: int, j: int| 0 <= i < j < init.len() implies init[i].0 != init[j].0 by {
            assert(init[i] == entries[i] && init[j] == entries[j]);
        }
        lemma_upsert_present_entries(s, init);
        let before = upsert_present(s, init);
        let last = entries.last();
        if let Some(v) = last.1 {
            lemma_upsert(before, last.0, v, 0);
            lemma_upsert_entries(before, last.0, v);
        }
        assert forall|j: int|
            0 <= j < entries.len() && entries[j].1 is Some implies has_entry(
            upsert_present(s, entries),
            entries[j].0,
            #[trigger] entries[j].1->0,
        ) by {
            if j < entries.len() - 1 {
                assert(init[j] == entries[j]);
                assert(has_entry(before, entries[j].0, entries[j].1->0));
                assert(entries[j].0 != last.0);
            }
        }
    }
}

/// Inserting entries that are all there already changes nothing.
pub proof fn lemma_upsert_present_noop<V>(s: Seq<(Seq<char>, V)>, entries: Seq<(Seq<char>, Option<V>)>)
    requires
        distinct_keys(s),
        forall|j: int| 0 <= j < entries.len() && entries[j].1 is Some ==> has_entry(s, entries[j].0, #[trigger] entries[j].1->0),
    ensures
        upsert_present(s, entries) == s,
    decreases entries.len(),
{
    if entries.len() > 0 {
        let init = entries.drop_last();
        assert forall|j: int| 0 <= j < init.len() && init[j].1 is Some implies has_entry(s, init[j].0, #[trigger] init[j].1->0) by {
            assert(init[j] == entries[j]);
        }
        lemma_upsert_present_noop(s, init);
        let last = entries.last();
        if let Some(v) = last.1 {
            assert(entries[entries.len() - 1].1 is Some);
            lemma_upsert_present(s, last.0, v);
        }
    }
}

/// Inserting the same entries with distinct keys a second time changes nothing.
pub proof fn lemma_upsert_present_idempotent<V>(s: Seq<(Seq<char>, V)>, entries: Seq<(Seq<char>, Option<V>)>)
    requires
        distinct_keys(s),
        distinct_entry_keys(entries),
    ensures
        upsert_present(upsert_present(s, entries), entries) == upsert_present(s, entries),
{
    lemma_upsert_present_entries(s, entries);
    lemma_upsert_present_noop(upsert_present(s, entries), entries);
}

/// Inserting two runs of entries one after the other is inserting them joined.
pub proof fn lemma_upsert_present_concat<V>(
    s: Seq<(Seq<char>, V)>,
    a: Seq<(Seq<char>, Option<V>)>,
    b: Seq<(Seq<char>, Option<V>)>,
)
    ensures
        upsert_present(s, a + b) == upsert_present(upsert_present(s, a), b),
    decreases b.len(),
{
    if b.len() == 0 {
        assert(a + b =~= a);
    } else {
        lemma_upsert_present_concat(s, a, b.drop_last());
        assert((a + b).drop_last() =~= a + b.drop_last());
        assert((a + b).last() == b.last());
    }
}

/// Entries without values change nothing.
pub proof fn lemma_upsert_present_absent<V>(s: Seq<(Seq<char>, V)>, entries: Seq<(Seq<char>, Option<V>)>)
    requires
        forall|j: int| 0 <= j < entries.len() ==> (#[trigger] entries[j]).1 is None,
    ensures
        upsert_present(s, entries) == s,
    decreases entries.len(),
{
    if entries.len() > 0 {
        let init = entries.drop_last();
        assert forall|j: int| 0 <= j < init.len() implies (#[trigger] init[j]).1 is None by {
            assert(init[j] == entries[j]);
        }
        lemma_upsert_present_absent(s, init);
        assert(entries[entries.len() - 1].1 is None);
    }
}

} // verus!
