//! The ordered variable table.
//!
//! The table itself is an `indexmap::IndexMap`: an ordered mapping with
//! unique keys, insertion order preserved, and last-write-wins values.  Its
//! contents are modelled as a sequence of `(key, variable)` pairs, and the
//! handful of methods the library calls are wrapped with contracts that
//! state what `indexmap`'s documentation promises of them.
use crate::{Value, ValueV, Variable, VariableV};
use indexmap::IndexMap;
use vstd::prelude::*;

verus! {

#[verifier::external_type_specification]
#[verifier::external_body]
#[verifier::reject_recursive_types(K)]
#[verifier::reject_recursive_types(V)]
#[verifier::reject_recursive_types(S)]
pub struct ExIndexMap<K, V, S>(IndexMap<K, V, S>);

/// The contents of a variable table: its (key, variable content) pairs in
/// insertion order.
pub uninterp spec fn table_model(m: IndexMap<String, Variable>) -> Seq<(Seq<char>, VariableV)>;

/// The contents of a value snapshot: its (key, optional value content)
/// pairs in insertion order.
pub uninterp spec fn snapshot_model(m: IndexMap<String, Option<Value>>) -> Seq<
    (Seq<char>, Option<ValueV>),
>;

/// The contents of a variable table, as a sequence of pairs.
pub type TableV = Seq<(Seq<char>, VariableV)>;

/// Whether some pair of `t` bears the key `k`.
pub open spec fn tbl_has<T>(t: Seq<(Seq<char>, T)>, k: Seq<char>) -> bool {
    exists|i: int| 0 <= i < t.len() && t[i].0 == k
}

/// The first position of `t` whose pair bears the key `k`; `t.len()` if
/// none does.
pub open spec fn tbl_index_of<T>(t: Seq<(Seq<char>, T)>, k: Seq<char>) -> int
    decreases t.len(),
{
    if t.len() == 0 {
        0
    } else if t[0].0 == k {
        0
    } else {
        1 + tbl_index_of(t.drop_first(), k)
    }
}

/// `tbl_index_of` finds the first pair bearing the key, if any.
pub proof fn lemma_tbl_index_of<T>(t: Seq<(Seq<char>, T)>, k: Seq<char>)
    ensures
        0 <= tbl_index_of(t, k) <= t.len(),
        tbl_index_of(t, k) < t.len() ==> t[tbl_index_of(t, k)].0 == k,
        forall|j: int| 0 <= j < tbl_index_of(t, k) ==> t[j].0 != k,
        tbl_has(t, k) <==> tbl_index_of(t, k) < t.len(),
    decreases t.len(),
{
    if t.len() > 0 && t[0].0 != k {
        lemma_tbl_index_of(t.drop_first(), k);
        if tbl_has(t, k) {
            let w = choose|i: int| 0 <= i < t.len() && t[i].0 == k;
            assert(t.drop_first()[w - 1].0 == k);
        }
        if tbl_index_of(t, k) < t.len() {
            assert(t[tbl_index_of(t, k)].0 == t.drop_first()[tbl_index_of(t.drop_first(), k)].0);
        }
        assert forall|j: int| 0 <= j < tbl_index_of(t, k) implies t[j].0 != k by {
            if j > 0 {
                assert(t.drop_first()[j - 1].0 != k);
            }
        }
    }
}

/// Insertion in the style of `IndexMap::insert`: an existing key keeps its
/// place and gets the new value; a new key is appended last.
pub open spec fn tbl_insert<T>(t: Seq<(Seq<char>, T)>, k: Seq<char>, v: T) -> Seq<
    (Seq<char>, T),
> {
    if tbl_has(t, k) {
        t.update(tbl_index_of(t, k), (k, v))
    } else {
        t.push((k, v))
    }
}

/// The value stored under `k`, if any pair bears that key.
pub open spec fn tbl_get<T>(t: Seq<(Seq<char>, T)>, k: Seq<char>) -> Option<T> {
    if tbl_has(t, k) {
        Some(t[tbl_index_of(t, k)].1)
    } else {
        None
    }
}

/// Merge in the style of the `source` operation: every pair of `b`, in
/// order, inserted into `a`.
pub open spec fn tbl_merge<T>(a: Seq<(Seq<char>, T)>, b: Seq<(Seq<char>, T)>) -> Seq<
    (Seq<char>, T),
>
    decreases b.len(),
{
    if b.len() == 0 {
        a
    } else {
        tbl_merge(tbl_insert(a, b[0].0, b[0].1), b.drop_first())
    }
}

/// No two pairs of `t` bear the same key.
pub open spec fn tbl_unique<T>(t: Seq<(Seq<char>, T)>) -> bool {
    forall|i: int, j: int| 0 <= i < j < t.len() ==> t[i].0 != t[j].0
}

/// Every pair's key is the name of the variable it holds.
pub open spec fn tbl_named(t: TableV) -> bool {
    forall|i: int| 0 <= i < t.len() ==> #[trigger] t[i].0 == t[i].1.name
}

/// Tables with pointwise-equal keys have equal first positions for every
/// key.
pub proof fn lemma_tbl_index_of_pointwise<T>(
    a: Seq<(Seq<char>, T)>,
    b: Seq<(Seq<char>, T)>,
    k: Seq<char>,
)
    requires
        a.len() == b.len(),
        forall|x: int| 0 <= x < a.len() ==> a[x].0 == b[x].0,
    ensures
        tbl_index_of(a, k) == tbl_index_of(b, k),
    decreases a.len(),
{
    if a.len() > 0 && a[0].0 != k {
        assert forall|x: int| 0 <= x < a.drop_first().len() implies a.drop_first()[x].0
            == b.drop_first()[x].0 by {
            assert(a[x + 1].0 == b[x + 1].0);
        }
        lemma_tbl_index_of_pointwise(a.drop_first(), b.drop_first(), k);
    }
}

/// Inserting under `k` stores exactly `v` under `k`.
pub proof fn lemma_tbl_insert_get_same<T>(t: Seq<(Seq<char>, T)>, k: Seq<char>, v: T)
    ensures
        tbl_get(tbl_insert(t, k, v), k) == Some(v),
{
    lemma_tbl_index_of(t, k);
    let r = tbl_insert(t, k, v);
    lemma_tbl_index_of(r, k);
    if tbl_has(t, k) {
        let idx = tbl_index_of(t, k);
        assert(r[idx].0 == k);
        assert(tbl_has(r, k));
        let idx2 = tbl_index_of(r, k);
        if idx2 < idx {
            assert(t[idx2].0 == r[idx2].0);
            assert(false);
        }
        assert(idx2 == idx);
    } else {
        assert(r[t.len() as int].0 == k);
        assert(tbl_has(r, k));
        let idx2 = tbl_index_of(r, k);
        if idx2 < t.len() {
            assert(t[idx2].0 == r[idx2].0);
            assert(tbl_has(t, k));
            assert(false);
        }
    }
}

/// Inserting under one key leaves what is stored under every other key
/// alone.
pub proof fn lemma_tbl_insert_get_other<T>(
    t: Seq<(Seq<char>, T)>,
    k2: Seq<char>,
    v: T,
    k: Seq<char>,
)
    requires
        k2 != k,
    ensures
        tbl_get(tbl_insert(t, k2, v), k) == tbl_get(t, k),
{
    lemma_tbl_index_of(t, k);
    lemma_tbl_index_of(t, k2);
    let r = tbl_insert(t, k2, v);
    lemma_tbl_index_of(r, k);
    if tbl_has(t, k2) {
        let idx = tbl_index_of(t, k2);
        assert forall|x: int| 0 <= x < r.len() implies r[x].0 == t[x].0 by {
            if x == idx {
                assert(t[idx].0 == k2);
            }
        }
        lemma_tbl_index_of_pointwise(r, t, k);
        if tbl_has(t, k) {
            let i = tbl_index_of(t, k);
            assert(r[i].0 == k);
            assert(tbl_has(r, k));
            assert(i != idx);
            assert(r[i].1 == t[i].1);
        } else {
            if tbl_has(r, k) {
                let w = choose|i: int| 0 <= i < r.len() && r[i].0 == k;
                assert(t[w].0 == k);
                assert(false);
            }
        }
    } else {
        if tbl_has(t, k) {
            let i = tbl_index_of(t, k);
            assert(r[i].0 == k);
            assert(tbl_has(r, k));
            lemma_tbl_index_of_pointwise(r.take(t.len() as int), t, k);
            assert(r.take(t.len() as int) =~= r.subrange(0, t.len() as int));
            let i2 = tbl_index_of(r, k);
            if i2 < i {
                assert(t[i2].0 == r[i2].0);
                assert(false);
            }
            if i2 > i {
                assert(r[i].0 == k);
                assert(false);
            }
            assert(r[i2].1 == t[i].1);
        } else {
            if tbl_has(r, k) {
                let w = choose|i: int| 0 <= i < r.len() && r[i].0 == k;
                if w < t.len() {
                    assert(t[w].0 == k);
                } else {
                    assert(r[w].0 == k2);
                }
                assert(false);
            }
        }
    }
}

/// Merging a table that does not hold `k` leaves what is stored under
/// `k` alone.
pub proof fn lemma_tbl_merge_absent<T>(a: Seq<(Seq<char>, T)>, b: Seq<(Seq<char>, T)>, k: Seq<char>)
    requires
        !tbl_has(b, k),
    ensures
        tbl_get(tbl_merge(a, b), k) == tbl_get(a, k),
    decreases b.len(),
{
    if b.len() > 0 {
        assert(b[0].0 != k);
        lemma_tbl_insert_get_other(a, b[0].0, b[0].1, k);
        assert forall|j: int| 0 <= j < b.drop_first().len() implies b.drop_first()[j].0 != k by {
            assert(b[j + 1].0 == b.drop_first()[j].0);
        }
        lemma_tbl_merge_absent(tbl_insert(a, b[0].0, b[0].1), b.drop_first(), k);
    }
}

/// Merging two tables with no name in common is their union: exactly the
/// pairs of the first, then exactly the pairs of the second, in order.
pub proof fn lemma_tbl_merge_disjoint<T>(a: Seq<(Seq<char>, T)>, b: Seq<(Seq<char>, T)>)
    requires
        tbl_unique(b),
        forall|j: int| 0 <= j < b.len() ==> !tbl_has(a, #[trigger] b[j].0),
    ensures
        tbl_merge(a, b) == a + b,
    decreases b.len(),
{
    if b.len() == 0 {
        assert(tbl_merge(a, b) =~= a + b);
    } else {
        assert(!tbl_has(a, b[0].0));
        let a1 = tbl_insert(a, b[0].0, b[0].1);
        assert(a1 =~= a.push((b[0].0, b[0].1)));
        let b1 = b.drop_first();
        assert forall|i: int, j: int| 0 <= i < j < b1.len() implies b1[i].0 != b1[j].0 by {
            assert(b[i + 1].0 != b[j + 1].0);
        }
        assert forall|j: int| 0 <= j < b1.len() implies !tbl_has(a1, #[trigger] b1[j].0) by {
            assert(b1[j].0 == b[j + 1].0);
            assert(b[0].0 != b[j + 1].0);
            if tbl_has(a1, b1[j].0) {
                let w = choose|i: int| 0 <= i < a1.len() && a1[i].0 == b1[j].0;
                if w < a.len() {
                    assert(a[w].0 == b1[j].0);
                    assert(tbl_has(a, b[j + 1].0));
                } else {
                    assert(a1[w].0 == b[0].0);
                }
                assert(false);
            }
        }
        lemma_tbl_merge_disjoint(a1, b1);
        assert(a.push((b[0].0, b[0].1)) + b1 =~= a + b);
    }
}

/// Merging is last-write-wins: a name that the second table defines is
/// stored with the second table's definition, whatever the first held.
/// Instantiated with the two tables in either order, this shows that the
/// later merge wins for every shared name.
pub proof fn lemma_tbl_merge_last_wins<T>(
    a: Seq<(Seq<char>, T)>,
    b: Seq<(Seq<char>, T)>,
    k: Seq<char>,
)
    requires
        tbl_unique(b),
        tbl_has(b, k),
    ensures
        tbl_get(tbl_merge(a, b), k) == tbl_get(b, k),
    decreases b.len(),
{
    lemma_tbl_index_of(b, k);
    let a1 = tbl_insert(a, b[0].0, b[0].1);
    let b1 = b.drop_first();
    lemma_tbl_index_of(b1, k);
    if b[0].0 == k {
        lemma_tbl_insert_get_same(a, k, b[0].1);
        assert forall|j: int| 0 <= j < b1.len() implies b1[j].0 != k by {
            assert(b[0].0 != b[j + 1].0);
            assert(b1[j].0 == b[j + 1].0);
        }
        lemma_tbl_merge_absent(a1, b1, k);
        assert(tbl_index_of(b, k) == 0);
    } else {
        assert forall|i: int, j: int| 0 <= i < j < b1.len() implies b1[i].0 != b1[j].0 by {
            assert(b[i + 1].0 != b[j + 1].0);
        }
        let w = choose|i: int| 0 <= i < b.len() && b[i].0 == k;
        assert(b1[w - 1].0 == k);
        assert(tbl_has(b1, k));
        lemma_tbl_merge_last_wins(a1, b1, k);
        let i = tbl_index_of(b, k);
        assert(b[i].0 == k);
        assert(b1[i - 1].0 == k);
        let i1 = tbl_index_of(b1, k);
        if i1 < i - 1 {
            assert(b[i1 + 1].0 == b1[i1].0);
            assert(false);
        }
        if i1 > i - 1 {
            assert(b1[i - 1].0 == k);
            assert(false);
        }
        assert(tbl_get(b1, k) == Some(b1[i - 1].1));
        assert(tbl_get(b, k) == Some(b[i].1));
    }
}

/// Inserting a variable under its own name keeps the table invariant:
/// keys stay unique and keep naming the variable they hold.
pub proof fn lemma_tbl_insert_wf(t: TableV, k: Seq<char>, v: VariableV)
    requires
        tbl_unique(t),
        tbl_named(t),
        k == v.name,
    ensures
        tbl_unique(tbl_insert(t, k, v)),
        tbl_named(tbl_insert(t, k, v)),
{
    lemma_tbl_index_of(t, k);
    let r = tbl_insert(t, k, v);
    if tbl_has(t, k) {
        let idx = tbl_index_of(t, k);
        assert forall|x: int| 0 <= x < r.len() implies r[x].0 == t[x].0 by {
            if x == idx {
                assert(t[idx].0 == k);
            }
        }
        assert forall|i: int, j: int| 0 <= i < j < r.len() implies r[i].0 != r[j].0 by {
            assert(t[i].0 != t[j].0);
        }
        assert forall|i: int| 0 <= i < r.len() implies #[trigger] r[i].0 == r[i].1.name by {
            if i != idx {
                assert(t[i].0 == t[i].1.name);
            }
        }
    } else {
        assert forall|i: int| 0 <= i < r.len() implies #[trigger] r[i].0 == r[i].1.name by {
            if i < t.len() {
                assert(t[i].0 == t[i].1.name);
            }
        }
        assert forall|i: int, j: int| 0 <= i < j < r.len() implies r[i].0 != r[j].0 by {
            if j < t.len() {
                assert(t[i].0 != t[j].0);
            } else {
                assert(!(exists|x: int| 0 <= x < t.len() && t[x].0 == k));
                assert(t[i].0 != k);
            }
        }
    }
}

/// Merging a table whose keys name their variables into a well-formed
/// table yields a well-formed table.
pub proof fn lemma_tbl_merge_wf(a: TableV, b: TableV)
    requires
        tbl_unique(a),
        tbl_named(a),
        tbl_named(b),
    ensures
        tbl_unique(tbl_merge(a, b)),
        tbl_named(tbl_merge(a, b)),
    decreases b.len(),
{
    if b.len() > 0 {
        assert(b[0].0 == b[0].1.name);
        lemma_tbl_insert_wf(a, b[0].0, b[0].1);
        assert forall|i: int| 0 <= i < b.drop_first().len() implies #[trigger] b.drop_first()[i].0
            == b.drop_first()[i].1.name by {
            assert(b[i + 1].0 == b[i + 1].1.name);
        }
        lemma_tbl_merge_wf(tbl_insert(a, b[0].0, b[0].1), b.drop_first());
    }
}

/// Relies on `IndexMap::new`: creates an empty map.
#[verifier::external_body]
pub(crate) fn table_new() -> (m: IndexMap<String, Variable>)
    ensures
        table_model(m) == Seq::<(Seq<char>, VariableV)>::empty(),
{
    IndexMap::new()
}

/// Relies on `IndexMap::insert`: if an equivalent key already exists it
/// keeps its place in the order and its value is updated; otherwise the
/// pair is appended last.
#[verifier::external_body]
pub(crate) fn table_insert(m: &mut IndexMap<String, Variable>, k: String, v: Variable)
    ensures
        table_model(*final(m)) == tbl_insert(table_model(*old(m)), k@, v@),
{
    m.insert(k, v);
}

/// Relies on `IndexMap::len`: the number of pairs in the map.
#[verifier::external_body]
pub(crate) fn table_len(m: &IndexMap<String, Variable>) -> (n: usize)
    ensures
        n == table_model(*m).len(),
{
    m.len()
}

/// Relies on `IndexMap::get`: the value stored under the key, if present.
#[verifier::external_body]
pub(crate) fn table_get<'a>(m: &'a IndexMap<String, Variable>, k: &str) -> (r: Option<&'a Variable>)
    ensures
        match r {
            Some(v) => tbl_get(table_model(*m), k@) == Some(v@),
            None => tbl_get(table_model(*m), k@) is None,
        },
{
    m.get(k)
}

/// Relies on `IndexMap::get_index`: the pair at the given position of the
/// order, for positions below the length.
#[verifier::external_body]
pub(crate) fn table_get_index<'a>(m: &'a IndexMap<String, Variable>, i: usize) -> (r: Option<
    (&'a String, &'a Variable),
>)
    ensures
        match r {
            Some(p) => i < table_model(*m).len() && table_model(*m)[i as int] == (p.0@, p.1@),
            None => i >= table_model(*m).len(),
        },
{
    m.get_index(i)
}

/// Insert every pair of `src`, in order, into `dst`.
pub(crate) fn table_merge_into(dst: &mut IndexMap<String, Variable>, src: IndexMap<String, Variable>)
    ensures
        table_model(*final(dst)) == tbl_merge(table_model(*old(dst)), table_model(src)),
{
    let ghost a0 = table_model(*dst);
    let ghost b = table_model(src);
    proof {
        assert(b.skip(0) =~= b);
    }
    let n = table_len(&src);
    let mut i: usize = 0;
    while i < n
        invariant
            n == b.len(),
            0 <= i <= n,
            table_model(src) == b,
            tbl_merge(a0, b) == tbl_merge(table_model(*dst), b.skip(i as int)),
        decreases n - i,
    {
        let p = table_get_index(&src, i).unwrap();
        let k = p.0.clone();
        let v = crate::dup_variable(p.1);
        proof {
            assert(b.skip(i as int)[0] == b[i as int]);
            assert(b.skip(i as int).drop_first() =~= b.skip(i as int + 1));
        }
        table_insert(dst, k, v);
        i = i + 1;
    }
    proof {
        assert(b.skip(n as int) =~= Seq::<(Seq<char>, VariableV)>::empty());
    }
}

/// Relies on `IndexMap::new`: creates an empty map.
#[verifier::external_body]
pub(crate) fn snapshot_new() -> (m: IndexMap<String, Option<Value>>)
    ensures
        snapshot_model(m) == Seq::<(Seq<char>, Option<ValueV>)>::empty(),
{
    IndexMap::new()
}

/// Relies on `IndexMap::insert`: if an equivalent key already exists it
/// keeps its place in the order and its value is updated; otherwise the
/// pair is appended last.
#[verifier::external_body]
pub(crate) fn snapshot_insert(m: &mut IndexMap<String, Option<Value>>, k: String, v: Option<Value>)
    ensures
        snapshot_model(*final(m)) == tbl_insert(
            snapshot_model(*old(m)),
            k@,
            crate::opt_value_view(v),
        ),
{
    m.insert(k, v);
}

} // verus!
