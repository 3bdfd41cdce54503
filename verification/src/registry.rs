use vstd::prelude::*;

use crate::utils::AgentId;

verus! {

// The registry is modelled as a sequence of id/agent pairs held in strictly
// ascending id order. The spec functions below are generic in the agent type
// so that the same vocabulary serves both the executable entries and their
// deep views.

/// Whether some entry carries the given key.
pub open spec fn id_in<K, T>(s: Seq<(K, T)>, id: K) -> bool {
    exists|i: int| 0 <= i < s.len() && (#[trigger] s[i]).0 == id
}

/// Whether `p` is the position of the first entry carrying the given key.
pub open spec fn is_first_match<K, T>(s: Seq<(K, T)>, id: K, p: int) -> bool {
    &&& 0 <= p < s.len()
    &&& s[p].0 == id
    &&& forall|j: int| 0 <= j < p ==> (#[trigger] s[j]).0 != id
}

/// The position of the first entry carrying the given key.
pub open spec fn first_match<K, T>(s: Seq<(K, T)>, id: K) -> int {
    choose|p: int| is_first_match(s, id, p)
}

/// The agent stored under `id`: the first entry carrying that id.
pub open spec fn value_of<K, T>(s: Seq<(K, T)>, id: K) -> T
    recommends
        id_in(s, id),
{
    s[first_match(s, id)].1
}

/// Entries are in strictly ascending id order; in particular no id occurs
/// twice.
pub open spec fn entries_wf<T>(s: Seq<(AgentId, T)>) -> bool {
    forall|i: int, j: int|
        0 <= i < j < s.len() ==> (#[trigger] s[i]).0.0 < (#[trigger] s[j]).0.0
}

/// Whether `p` is the position at which an entry with id `id` belongs: every
/// earlier id is smaller, and the entry at `p`, if any, has an id at least as
/// large.
pub open spec fn is_insert_pos<T>(s: Seq<(AgentId, T)>, id: AgentId, p: int) -> bool {
    &&& 0 <= p <= s.len()
    &&& forall|j: int| 0 <= j < p ==> (#[trigger] s[j]).0.0 < id.0
    &&& p < s.len() ==> s[p].0.0 >= id.0
}

/// The position at which an entry with id `id` belongs.
pub open spec fn insert_pos<T>(s: Seq<(AgentId, T)>, id: AgentId) -> int {
    choose|p: int| is_insert_pos(s, id, p)
}

/// The entries after storing `v` under `id`: an existing entry with that id
/// is replaced in place, otherwise the new entry enters at its ordered
/// position.
pub open spec fn insert_entry<T>(s: Seq<(AgentId, T)>, id: AgentId, v: T) -> Seq<(AgentId, T)> {
    let p = insert_pos(s, id);
    if p < s.len() && s[p].0 == id {
        s.update(p, (id, v))
    } else {
        s.insert(p, (id, v))
    }
}

/// The entries after removing the first entry carrying `id`; without such an
/// entry nothing changes.
pub open spec fn remove_entry<K, T>(s: Seq<(K, T)>, id: K) -> Seq<(K, T)> {
    if id_in(s, id) {
        s.remove(first_match(s, id))
    } else {
        s
    }
}

/// If some entry carries `id`, a first such entry exists.
pub proof fn lemma_first_match<K, T>(s: Seq<(K, T)>, id: K)
    requires
        id_in(s, id),
    ensures
        is_first_match(s, id, first_match(s, id)),
    decreases s.len(),
{
    if s.len() > 0 {
        if s[0].0 == id {
            assert(is_first_match(s, id, 0));
        } else {
            let t = s.skip(1);
            let i = choose|i: int| 0 <= i < s.len() && (#[trigger] s[i]).0 == id;
            assert(t[i - 1] == s[i]);
            assert(id_in(t, id));
            lemma_first_match(t, id);
            let p = first_match(t, id);
            assert(is_first_match(t, id, p));
            assert(s[p + 1] == t[p]);
            assert forall|j: int| 0 <= j < p + 1 implies (#[trigger] s[j]).0 != id by {
                if j > 0 {
                    assert(s[j] == t[j - 1]);
                    assert(t[j - 1].0 != id);
                }
            }
            assert(is_first_match(s, id, p + 1));
        }
    }
    let q = choose|p: int| is_first_match(s, id, p);
    assert(is_first_match(s, id, q));
}

/// The first match is unique, so a position known to be the first match is
/// the one `first_match` denotes.
pub proof fn lemma_first_match_is<K, T>(s: Seq<(K, T)>, id: K, p: int)
    requires
        is_first_match(s, id, p),
    ensures
        first_match(s, id) == p,
        id_in(s, id),
{
    assert(id_in(s, id));
    lemma_first_match(s, id);
    let q = first_match(s, id);
    if q < p {
        assert((s[q]).0 != id);
    }
    if p < q {
        assert((s[p]).0 != id);
    }
}

/// An ordered position for `id` always exists.
pub proof fn lemma_insert_pos<T>(s: Seq<(AgentId, T)>, id: AgentId)
    ensures
        is_insert_pos(s, id, insert_pos(s, id)),
    decreases s.len(),
{
    if s.len() == 0 {
        assert(is_insert_pos(s, id, 0));
    } else if s[0].0.0 >= id.0 {
        assert(is_insert_pos(s, id, 0));
    } else {
        let t = s.skip(1);
        lemma_insert_pos(t, id);
        let p = insert_pos(t, id);
        assert(is_insert_pos(t, id, p));
        assert forall|j: int| 0 <= j < p + 1 implies (#[trigger] s[j]).0.0 < id.0 by {
            if j > 0 {
                assert(s[j] == t[j - 1]);
                assert(t[j - 1].0.0 < id.0);
            }
        }
        if p + 1 < s.len() {
            assert(s[p + 1] == t[p]);
        }
        assert(is_insert_pos(s, id, p + 1));
    }
    let q = choose|p: int| is_insert_pos(s, id, p);
    assert(is_insert_pos(s, id, q));
}

/// The ordered position is unique, so a position known to fit is the one
/// `insert_pos` denotes.
pub proof fn lemma_insert_pos_is<T>(s: Seq<(AgentId, T)>, id: AgentId, p: int)
    requires
        is_insert_pos(s, id, p),
    ensures
        insert_pos(s, id) == p,
{
    lemma_insert_pos(s, id);
    let q = insert_pos(s, id);
    if q < p {
        assert((s[q]).0.0 < id.0);
        assert((s[q]).0.0 >= id.0);
    }
    if p < q {
        assert((s[p]).0.0 < id.0);
        assert((s[p]).0.0 >= id.0);
    }
}

/// In well-formed entries, ids identify their position.
pub proof fn lemma_wf_match_unique<T>(s: Seq<(AgentId, T)>, i: int, j: int)
    requires
        entries_wf(s),
        0 <= i < s.len(),
        0 <= j < s.len(),
        s[i].0 == s[j].0,
    ensures
        i == j,
{
    if i < j {
        assert(s[i].0.0 < s[j].0.0);
    }
    if j < i {
        assert(s[j].0.0 < s[i].0.0);
    }
}

/// What storing an entry does to well-formed entries: order is kept, the id
/// is present carrying the new agent, every other entry is untouched, and the
/// length grows exactly when the id was absent.
pub proof fn lemma_insert_entry_props<T>(s: Seq<(AgentId, T)>, id: AgentId, v: T)
    requires
        entries_wf(s),
    ensures
        entries_wf(insert_entry(s, id, v)),
        id_in(insert_entry(s, id, v), id),
        value_of(insert_entry(s, id, v), id) == v,
        forall|id2: AgentId|
            id2 != id ==> #[trigger] id_in(insert_entry(s, id, v), id2) == id_in(s, id2),
        forall|id2: AgentId|
            id2 != id && id_in(s, id2) ==> #[trigger] value_of(insert_entry(s, id, v), id2)
                == value_of(s, id2),
        insert_entry(s, id, v).len() == if id_in(s, id) {
            s.len()
        } else {
            s.len() + 1
        },
{
    lemma_insert_pos(s, id);
    let p = insert_pos(s, id);
    let r = insert_entry(s, id, v);
    if p < s.len() && s[p].0 == id {
        // replacement in place
        assert(r == s.update(p, (id, v)));
        assert(r.len() == s.len());
        assert(forall|k: int| 0 <= k < r.len() && k != p ==> r[k] == (#[trigger] s[k]));
        assert(r[p] == (id, v));
        assert(entries_wf(r));
        assert(is_first_match(r, id, p)) by {
            assert(forall|j: int| 0 <= j < p ==> (#[trigger] r[j]).0 == s[j].0);
        }
        lemma_first_match_is(r, id, p);
        assert(id_in(s, id));
        assert(forall|k: int| 0 <= k < r.len() ==> (#[trigger] r[k]).0 == s[k].0);
        assert forall|id2: AgentId| id2 != id implies #[trigger] id_in(r, id2) == id_in(
            s,
            id2,
        ) by {
            if id_in(s, id2) {
                let i = choose|i: int| 0 <= i < s.len() && (#[trigger] s[i]).0 == id2;
                assert(r[i].0 == id2);
            }
            if id_in(r, id2) {
                let i = choose|i: int| 0 <= i < r.len() && (#[trigger] r[i]).0 == id2;
                assert(s[i].0 == id2);
            }
        }
        assert forall|id2: AgentId| id2 != id && id_in(s, id2) implies #[trigger] value_of(
            r,
            id2,
        ) == value_of(s, id2) by {
            lemma_first_match(s, id2);
            let q = first_match(s, id2);
            assert(q != p);
            assert(is_first_match(r, id2, q)) by {
                assert(forall|j: int| 0 <= j < q ==> (#[trigger] r[j]).0 == s[j].0);
            }
            lemma_first_match_is(r, id2, q);
        }
    } else {
        // a fresh entry enters at its ordered position
        assert(r == s.insert(p, (id, v)));
        s.insert_ensures(p, (id, v));
        assert(r.len() == s.len() + 1);
        assert(forall|k: int| 0 <= k < p ==> r[k] == (#[trigger] s[k]));
        assert(forall|k: int| p < k < r.len() ==> r[k] == (#[trigger] s[k - 1]));
        assert(r[p] == (id, v));
        assert(!id_in(s, id)) by {
            if id_in(s, id) {
                lemma_first_match(s, id);
                let q = first_match(s, id);
                if q < p {
                    assert(s[q].0.0 < id.0);
                } else {
                    assert(p < s.len());
                    assert(s[p].0.0 >= id.0);
                    if q > p {
                        assert(s[p].0.0 < s[q].0.0);
                    }
                }
            }
        }
        assert(entries_wf(r)) by {
            assert(p < s.len() ==> s[p].0.0 > id.0);
            assert forall|i: int, j: int| 0 <= i < j < r.len() implies (#[trigger] r[i]).0.0 < (
            #[trigger] r[j]).0.0 by {
                if i < p && j < p {
                } else if i == p && j > p {
                    assert(r[j] == s[j - 1]);
                    assert(j - 1 >= p);
                    if j - 1 == p {
                    } else {
                        assert(s[p].0.0 < s[j - 1].0.0);
                    }
                } else if i < p && j == p {
                } else if i < p && j > p {
                    assert(r[j] == s[j - 1]);
                } else {
                }
            }
        }
        assert(is_first_match(r, id, p)) by {
            assert(forall|j: int| 0 <= j < p ==> (#[trigger] r[j]).0 == s[j].0);
        }
        lemma_first_match_is(r, id, p);
        assert forall|id2: AgentId| id2 != id implies #[trigger] id_in(r, id2) == id_in(
            s,
            id2,
        ) by {
            if id_in(s, id2) {
                let i = choose|i: int| 0 <= i < s.len() && (#[trigger] s[i]).0 == id2;
                if i < p {
                    assert(r[i].0 == id2);
                } else {
                    assert(r[i + 1].0 == id2);
                }
            }
            if id_in(r, id2) {
                let i = choose|i: int| 0 <= i < r.len() && (#[trigger] r[i]).0 == id2;
                if i < p {
                    assert(s[i].0 == id2);
                } else {
                    assert(i != p);
                    assert(s[i - 1].0 == id2);
                }
            }
        }
        assert forall|id2: AgentId| id2 != id && id_in(s, id2) implies #[trigger] value_of(
            r,
            id2,
        ) == value_of(s, id2) by {
            lemma_first_match(s, id2);
            let q = first_match(s, id2);
            if q < p {
                assert(is_first_match(r, id2, q)) by {
                    assert(forall|j: int| 0 <= j < q ==> (#[trigger] r[j]).0 == s[j].0);
                }
                lemma_first_match_is(r, id2, q);
            } else {
                assert(r[q + 1] == s[q]);
                assert(is_first_match(r, id2, q + 1)) by {
                    assert forall|j: int| 0 <= j < q + 1 implies (#[trigger] r[j]).0 != id2 by {
                        if j < p {
                            assert(r[j] == s[j]);
                        } else if j == p {
                        } else {
                            assert(r[j] == s[j - 1]);
                        }
                    }
                }
                lemma_first_match_is(r, id2, q + 1);
            }
        }
    }
}

/// What removing an id does to well-formed entries: order is kept, the id is
/// gone, every other entry is untouched, and the length shrinks exactly when
/// the id was present.
pub proof fn lemma_remove_entry_props<T>(s: Seq<(AgentId, T)>, id: AgentId)
    requires
        entries_wf(s),
    ensures
        entries_wf(remove_entry(s, id)),
        !id_in(remove_entry(s, id), id),
        forall|id2: AgentId|
            id2 != id ==> #[trigger] id_in(remove_entry(s, id), id2) == id_in(s, id2),
        forall|id2: AgentId|
            id2 != id && id_in(s, id2) ==> #[trigger] value_of(remove_entry(s, id), id2)
                == value_of(s, id2),
        remove_entry(s, id).len() == if id_in(s, id) {
            s.len() - 1
        } else {
            s.len() as int
        },
{
    if !id_in(s, id) {
        assert(remove_entry(s, id) == s);
    } else {
        lemma_first_match(s, id);
        let p = first_match(s, id);
        let r = s.remove(p);
        s.remove_ensures(p);
        assert(remove_entry(s, id) == r);
        assert(forall|k: int| 0 <= k < p ==> r[k] == (#[trigger] s[k]));
        assert(forall|k: int| p <= k < r.len() ==> r[k] == (#[trigger] s[k + 1]));
        assert(entries_wf(r)) by {
            assert forall|i: int, j: int| 0 <= i < j < r.len() implies (#[trigger] r[i]).0.0 < (
            #[trigger] r[j]).0.0 by {
                if i < p && j < p {
                } else if i < p {
                    assert(r[j] == s[j + 1]);
                } else {
                    assert(r[i] == s[i + 1]);
                    assert(r[j] == s[j + 1]);
                }
            }
        }
        assert(!id_in(r, id)) by {
            if id_in(r, id) {
                let i = choose|i: int| 0 <= i < r.len() && (#[trigger] r[i]).0 == id;
                if i < p {
                    lemma_wf_match_unique(s, i, p);
                } else {
                    lemma_wf_match_unique(s, i + 1, p);
                }
            }
        }
        assert forall|id2: AgentId| id2 != id implies #[trigger] id_in(r, id2) == id_in(
            s,
            id2,
        ) by {
            if id_in(s, id2) {
                let i = choose|i: int| 0 <= i < s.len() && (#[trigger] s[i]).0 == id2;
                assert(i != p);
                if i < p {
                    assert(r[i].0 == id2);
                } else {
                    assert(r[i - 1].0 == id2);
                }
            }
            if id_in(r, id2) {
                let i = choose|i: int| 0 <= i < r.len() && (#[trigger] r[i]).0 == id2;
                if i < p {
                    assert(s[i].0 == id2);
                } else {
                    assert(s[i + 1].0 == id2);
                }
            }
        }
        assert forall|id2: AgentId| id2 != id && id_in(s, id2) implies #[trigger] value_of(
            r,
            id2,
        ) == value_of(s, id2) by {
            lemma_first_match(s, id2);
            let q = first_match(s, id2);
            assert(q != p);
            if q < p {
                assert(is_first_match(r, id2, q)) by {
                    assert(forall|j: int| 0 <= j < q ==> (#[trigger] r[j]).0 == s[j].0);
                }
                lemma_first_match_is(r, id2, q);
            } else {
                assert(r[q - 1] == s[q]);
                assert(is_first_match(r, id2, q - 1)) by {
                    assert forall|j: int| 0 <= j < q - 1 implies (#[trigger] r[j]).0 != id2 by {
                        if j < p {
                            assert(r[j] == s[j]);
                        } else {
                            assert(r[j] == s[j + 1]);
                        }
                    }
                }
                lemma_first_match_is(r, id2, q - 1);
            }
        }
    }
}

/// The authoritative mapping from agent id to agent: entries held in strictly
/// ascending id order, mutated only by the scheduler's commit phase.
pub struct Registry<V> {
    pub entries: Vec<(AgentId, V)>,
}

impl<V: DeepView> DeepView for Registry<V> {
    type V = Seq<(AgentId, <V as DeepView>::V)>;

    open spec fn deep_view(&self) -> Seq<(AgentId, <V as DeepView>::V)> {
        deep_entries(self.entries@)
    }
}

/// The deep view of a sequence of entries: each key and each agent replaced
/// by its model.
pub open spec fn deep_entries<K: DeepView, T: DeepView>(s: Seq<(K, T)>) -> Seq<(K::V, T::V)> {
    s.map_values(|e: (K, T)| (e.0.deep_view(), e.1.deep_view()))
}

/// The deep view commutes with removing an entry by position.
pub proof fn lemma_deep_entries_remove<K: DeepView, T: DeepView>(s: Seq<(K, T)>, i: int)
    requires
        0 <= i < s.len(),
    ensures
        deep_entries(s.remove(i)) == deep_entries(s).remove(i),
{
    s.remove_ensures(i);
    assert(deep_entries(s.remove(i)) =~= deep_entries(s).remove(i));
}

/// The deep view commutes with inserting an entry at a position.
pub proof fn lemma_deep_entries_insert<K: DeepView, T: DeepView>(s: Seq<(K, T)>, i: int, e: (K, T))
    requires
        0 <= i <= s.len(),
    ensures
        deep_entries(s.insert(i, e)) == deep_entries(s).insert(
            i,
            (e.0.deep_view(), e.1.deep_view()),
        ),
{
    s.insert_ensures(i, e);
    assert(deep_entries(s.insert(i, e)) =~= deep_entries(s).insert(
        i,
        (e.0.deep_view(), e.1.deep_view()),
    ));
}

/// The deep view commutes with replacing an entry at a position.
pub proof fn lemma_deep_entries_update<K: DeepView, T: DeepView>(s: Seq<(K, T)>, i: int, e: (K, T))
    requires
        0 <= i < s.len(),
    ensures
        deep_entries(s.update(i, e)) == deep_entries(s).update(
            i,
            (e.0.deep_view(), e.1.deep_view()),
        ),
{
    assert(deep_entries(s.update(i, e)) =~= deep_entries(s).update(
        i,
        (e.0.deep_view(), e.1.deep_view()),
    ));
}

/// For id-keyed entries the deep view keeps every id in place, so order,
/// membership and lookups carry over to the models.
pub proof fn lemma_deep_entries_id<V: DeepView>(s: Seq<(AgentId, V)>)
    ensures
        deep_entries(s).len() == s.len(),
        forall|i: int| 0 <= i < s.len() ==> (#[trigger] deep_entries(s)[i]).0 == s[i].0,
        forall|i: int|
            0 <= i < s.len() ==> (#[trigger] deep_entries(s)[i]).1 == s[i].1.deep_view(),
        entries_wf(deep_entries(s)) == entries_wf(s),
        forall|id: AgentId| #[trigger] id_in(deep_entries(s), id) == id_in(s, id),
{
    let d = deep_entries(s);
    assert(entries_wf(d) == entries_wf(s)) by {
        if entries_wf(s) {
            assert forall|i: int, j: int| 0 <= i < j < d.len() implies (#[trigger] d[i]).0.0 < (
            #[trigger] d[j]).0.0 by {
                assert(s[i].0.0 < s[j].0.0);
            }
        }
        if entries_wf(d) {
            assert forall|i: int, j: int| 0 <= i < j < s.len() implies (#[trigger] s[i]).0.0 < (
            #[trigger] s[j]).0.0 by {
                assert(d[i].0.0 < d[j].0.0);
            }
        }
    }
    assert forall|id: AgentId| #[trigger] id_in(d, id) == id_in(s, id) by {
        if id_in(s, id) {
            let i = choose|i: int| 0 <= i < s.len() && (#[trigger] s[i]).0 == id;
            assert(d[i].0 == id);
        }
        if id_in(d, id) {
            let i = choose|i: int| 0 <= i < d.len() && (#[trigger] d[i]).0 == id;
            assert(s[i].0 == id);
        }
    }
}

/// Looking an id up commutes with taking the deep view.
pub proof fn lemma_value_of_deep<V: DeepView>(s: Seq<(AgentId, V)>, id: AgentId)
    requires
        id_in(s, id),
    ensures
        first_match(deep_entries(s), id) == first_match(s, id),
        value_of(deep_entries(s), id) == value_of(s, id).deep_view(),
{
    lemma_deep_entries_id(s);
    lemma_first_match(s, id);
    let p = first_match(s, id);
    let d = deep_entries(s);
    assert(is_first_match(d, id, p)) by {
        assert(forall|j: int| 0 <= j < p ==> (#[trigger] d[j]).0 == s[j].0);
    }
    lemma_first_match_is(d, id, p);
}

/// Storing an entry commutes with taking the deep view.
pub proof fn lemma_insert_entry_deep<V: DeepView>(s: Seq<(AgentId, V)>, id: AgentId, v: V)
    ensures
        deep_entries(insert_entry(s, id, v)) == insert_entry(deep_entries(s), id, v.deep_view()),
{
    lemma_deep_entries_id(s);
    lemma_insert_pos(s, id);
    let p = insert_pos(s, id);
    let d = deep_entries(s);
    assert(is_insert_pos(d, id, p)) by {
        assert(forall|j: int| 0 <= j < p ==> (#[trigger] d[j]).0 == s[j].0);
    }
    lemma_insert_pos_is(d, id, p);
    if p < s.len() && s[p].0 == id {
        lemma_deep_entries_update(s, p, (id, v));
    } else {
        lemma_deep_entries_insert(s, p, (id, v));
    }
}

/// Removing an id commutes with taking the deep view.
pub proof fn lemma_remove_entry_deep<V: DeepView>(s: Seq<(AgentId, V)>, id: AgentId)
    ensures
        deep_entries(remove_entry(s, id)) == remove_entry(deep_entries(s), id),
{
    lemma_deep_entries_id(s);
    let d = deep_entries(s);
    if id_in(s, id) {
        lemma_value_of_deep(s, id);
        lemma_first_match(s, id);
        lemma_deep_entries_remove(s, first_match(s, id));
    }
}

impl<V: DeepView> Registry<V> {
    /// The entries stand in strictly ascending id order.
    pub open spec fn wf(&self) -> bool {
        entries_wf(self.entries@)
    }

    /// An empty registry.
    pub fn new() -> (r: Self)
        ensures
            r.entries@ == Seq::<(AgentId, V)>::empty(),
            r.wf(),
    {
        Registry { entries: Vec::new() }
    }

    /// How many agents are registered.
    pub fn len(&self) -> (n: usize)
        ensures
            n == self.entries@.len(),
    {
        self.entries.len()
    }

    /// Whether an agent with the given id is registered.
    pub fn contains(&self, id: AgentId) -> (r: bool)
        ensures
            r == id_in(self.entries@, id),
    {
        let mut i: usize = 0;
        while i < self.entries.len()
            invariant
                0 <= i <= self.entries@.len(),
                forall|j: int| 0 <= j < i ==> (#[trigger] self.entries@[j]).0 != id,
            decreases self.entries@.len() - i,
        {
            if self.entries[i].0 == id {
                return true;
            }
            i += 1;
        }
        false
    }

    /// Look the agent with the given id up.
    pub fn get(&self, id: AgentId) -> (r: Option<&V>)
        ensures
            match r {
                Some(v) => id_in(self.entries@, id) && *v == value_of(self.entries@, id),
                None => !id_in(self.entries@, id),
            },
    {
        let mut i: usize = 0;
        while i < self.entries.len()
            invariant
                0 <= i <= self.entries@.len(),
                forall|j: int| 0 <= j < i ==> (#[trigger] self.entries@[j]).0 != id,
            decreases self.entries@.len() - i,
        {
            if self.entries[i].0 == id {
                proof {
                    lemma_first_match_is(self.entries@, id, i as int);
                }
                return Some(&self.entries[i].1);
            }
            i += 1;
        }
        None
    }

    /// Store an agent under the given id: an existing entry with that id is
    /// replaced, otherwise the entry enters at its ordered position.
    pub fn insert(&mut self, id: AgentId, value: V)
        ensures
            final(self).entries@ == insert_entry(old(self).entries@, id, value),
            old(self).wf() ==> final(self).wf(),
    {
        let ghost s = self.entries@;
        let mut p: usize = 0;
        while p < self.entries.len() && self.entries[p].0.0 < id.0
            invariant
                0 <= p <= s.len(),
                self.entries@ == s,
                forall|j: int| 0 <= j < p ==> (#[trigger] s[j]).0.0 < id.0,
            decreases s.len() - p,
        {
            p += 1;
        }
        proof {
            assert(is_insert_pos(s, id, p as int));
            lemma_insert_pos_is(s, id, p as int);
        }
        if p < self.entries.len() && self.entries[p].0.0 == id.0 {
            proof {
                assert(s[p as int].0 == id);
            }
            self.entries.remove(p);
            self.entries.insert(p, (id, value));
            proof {
                assert(self.entries@ =~= s.update(p as int, (id, value)));
            }
        } else {
            self.entries.insert(p, (id, value));
        }
        proof {
            if entries_wf(s) {
                lemma_insert_entry_props(s, id, value);
            }
        }
    }

    /// An id no live agent carries: one past the largest registered id, or
    /// the smallest id on an empty registry. Creating an agent under it
    /// cannot collide.
    pub fn fresh_id(&self) -> (r: AgentId)
        requires
            self.wf(),
            self.entries@.len() > 0 ==> self.entries@.last().0.0 < u64::MAX,
        ensures
            !id_in(self.entries@, r),
            r.0 == if self.entries@.len() == 0 {
                0
            } else {
                self.entries@.last().0.0 + 1
            },
    {
        if self.entries.len() == 0 {
            AgentId(0)
        } else {
            let last = self.entries[self.entries.len() - 1].0;
            proof {
                assert forall|i: int| 0 <= i < self.entries@.len() implies (
                #[trigger] self.entries@[i]).0.0 <= last.0 by {
                    if i < self.entries@.len() - 1 {
                        assert(self.entries@[i].0.0 < self.entries@[self.entries@.len() - 1].0.0);
                    }
                }
            }
            AgentId(last.0 + 1)
        }
    }

    /// Take the agent with the given id out of the registry; without one the
    /// registry is left as it is.
    pub fn remove(&mut self, id: AgentId) -> (r: Option<V>)
        ensures
            final(self).entries@ == remove_entry(old(self).entries@, id),
            old(self).wf() ==> final(self).wf(),
            match r {
                Some(v) => id_in(old(self).entries@, id) && v == value_of(old(self).entries@, id),
                None => !id_in(old(self).entries@, id) && final(self).entries@ == old(
                    self,
                ).entries@,
            },
    {
        let ghost s = self.entries@;
        let mut i: usize = 0;
        while i < self.entries.len()
            invariant
                0 <= i <= s.len(),
                self.entries@ == s,
                old(self).entries@ == s,
                forall|j: int| 0 <= j < i ==> (#[trigger] s[j]).0 != id,
            decreases s.len() - i,
        {
            if self.entries[i].0 == id {
                proof {
                    lemma_first_match_is(s, id, i as int);
                }
                let pair = self.entries.remove(i);
                proof {
                    if entries_wf(s) {
                        lemma_remove_entry_props(s, id);
                    }
                }
                return Some(pair.1);
            }
            i += 1;
        }
        None
    }
}

} // verus!
