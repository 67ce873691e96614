use vstd::prelude::*;

use crate::type_identity::{TypeIdentity, TypeKey};

verus! {

/// `r` is what `m` held for `t`, if anything.
pub open spec fn replaced<V>(m: Map<TypeIdentity, V>, t: TypeIdentity, r: Option<V>) -> bool {
    match r {
        Some(v) => m.contains_key(t) && v == m[t],
        None => !m.contains_key(t),
    }
}

/// Storing `v1` and then `v2` for one identity: the second store hands back
/// `v1`, and the map then holds `v2` for it.
pub proof fn lemma_insert_twice<V>(
    m0: Map<TypeIdentity, V>,
    t: TypeIdentity,
    v1: V,
    v2: V,
    r2: Option<V>,
)
    requires
        replaced(m0.insert(t, v1), t, r2),
    ensures
        r2 == Some(v1),
        m0.insert(t, v1).insert(t, v2).contains_key(t),
        m0.insert(t, v1).insert(t, v2)[t] == v2,
{
}

/// No identity occurs twice among `es`.
spec fn keys_distinct<V>(es: Seq<(TypeIdentity, V)>) -> bool {
    forall|i: int, j: int| 0 <= i < j < es.len() ==> #[trigger] es[i].0 != #[trigger] es[j].0
}

/// The value each identity of `es` has there.
spec fn map_of<V>(es: Seq<(TypeIdentity, V)>) -> Map<TypeIdentity, V> {
    Map::new(
        |k: TypeIdentity| exists|i: int| 0 <= i < es.len() && #[trigger] es[i].0 == k,
        |k: TypeIdentity| es[choose|i: int| 0 <= i < es.len() && #[trigger] es[i].0 == k].1,
    )
}

/// Changing the value of one entry changes that identity's value alone.
proof fn lemma_update_value<V>(es: Seq<(TypeIdentity, V)>, i: int, v: V)
    requires
        keys_distinct(es),
        0 <= i < es.len(),
    ensures
        keys_distinct(es.update(i, (es[i].0, v))),
        map_of(es.update(i, (es[i].0, v))) == map_of(es).insert(es[i].0, v),
{
    let t = es[i].0;
    let f = es.update(i, (t, v));
    assert forall|a: int, b: int| 0 <= a < b < f.len() implies #[trigger] f[a].0 != #[trigger] f[b].0 by {
        assert(es[a].0 != es[b].0);
    }
    assert forall|k: TypeIdentity| #[trigger] map_of(f).contains_key(k) <==> map_of(es).insert(t, v).contains_key(k) by {
        if map_of(es).contains_key(k) {
            let j = choose|j: int| 0 <= j < es.len() && #[trigger] es[j].0 == k;
            assert(f[j].0 == k);
        }
        if k == t {
            assert(f[i].0 == k);
        }
        if map_of(f).contains_key(k) {
            let j = choose|j: int| 0 <= j < f.len() && #[trigger] f[j].0 == k;
            assert(es[j].0 == k);
        }
    }
    assert forall|k: TypeIdentity| #[trigger] map_of(f).contains_key(k) implies map_of(f)[k] == map_of(es).insert(t, v)[k] by {
        let j = choose|j: int| 0 <= j < f.len() && #[trigger] f[j].0 == k;
        if j != i {
            assert(es[j].0 == k);
            let j2 = choose|j2: int| 0 <= j2 < es.len() && #[trigger] es[j2].0 == k;
            if j2 < j {
                assert(es[j2].0 != es[j].0);
            } else if j < j2 {
                assert(es[j].0 != es[j2].0);
            }
            if i < j {
                assert(es[i].0 != es[j].0);
            } else {
                assert(es[j].0 != es[i].0);
            }
        } else {
            assert(k == t);
        }
        let jf = choose|jf: int| 0 <= jf < f.len() && #[trigger] f[jf].0 == k;
        if jf < j {
            assert(f[jf].0 != f[j].0);
        } else if j < jf {
            assert(f[j].0 != f[jf].0);
        }
    }
    assert(map_of(f) =~= map_of(es).insert(t, v));
}

fn value_at_mut<V>(es: &mut Vec<(TypeIdentity, V)>, i: usize) -> (v: &mut V)
    requires
        i < old(es).len(),
    ensures
        *v == old(es)@[i as int].1,
        final(es)@ == old(es)@.update(i as int, (old(es)@[i as int].0, *final(v))),
{
    let e = &mut es[i];
    &mut e.1
}

/// A map from type identity to one value per identity.
pub struct TypeMap<V> {
    entries: Vec<(TypeIdentity, V)>,
}

impl<V> TypeMap<V> {
    /// No identity occurs twice among the entries.
    pub closed spec fn wf(&self) -> bool {
        keys_distinct(self.entries@)
    }

    pub closed spec fn view(&self) -> Map<TypeIdentity, V> {
        map_of(self.entries@)
    }

    proof fn lemma_view_at(&self, i: int)
        requires
            self.wf(),
            0 <= i < self.entries.len(),
        ensures
            self@.contains_key(self.entries@[i].0),
            self@[self.entries@[i].0] == self.entries@[i].1,
    {
        let k = self.entries@[i].0;
        assert(exists|j: int| 0 <= j < self.entries.len() && #[trigger] self.entries@[j].0 == k);
        let j = choose|j: int| 0 <= j < self.entries.len() && #[trigger] self.entries@[j].0 == k;
        if i < j {
            assert(self.entries@[i].0 != self.entries@[j].0);
        } else if j < i {
            assert(self.entries@[j].0 != self.entries@[i].0);
        }
    }

    proof fn lemma_view_len(&self)
        requires
            self.wf(),
        ensures
            self@.dom().finite(),
            self@.dom().len() == self.entries.len(),
        decreases self.entries.len(),
    {
        let keys = self.entries@.map_values(|e: (TypeIdentity, V)| e.0);
        assert forall|t: TypeIdentity| self@.dom().contains(t) <==> keys.to_set().contains(t) by {
            if self@.dom().contains(t) {
                let j = choose|j: int| 0 <= j < self.entries.len() && #[trigger] self.entries@[j].0 == t;
                assert(keys[j] == t);
            }
            if keys.contains(t) {
                let j = choose|j: int| 0 <= j < keys.len() && keys[j] == t;
                assert(self.entries@[j].0 == t);
            }
        }
        assert(self@.dom() =~= keys.to_set());
        assert(keys.no_duplicates()) by {
            assert forall|i: int, j: int| 0 <= i < keys.len() && 0 <= j < keys.len() && i != j
                implies keys[i] != keys[j] by {
                if i < j {
                    assert(self.entries@[i].0 != self.entries@[j].0);
                } else {
                    assert(self.entries@[j].0 != self.entries@[i].0);
                }
            }
        }
        keys.unique_seq_to_set();
    }

    fn find(&self, ty: TypeIdentity) -> (r: Option<usize>)
        requires
            self.wf(),
        ensures
            match r {
                Some(i) => i < self.entries.len() && self.entries@[i as int].0 == ty,
                None => !self@.contains_key(ty),
            },
    {
        let mut i: usize = 0;
        while i < self.entries.len()
            invariant
                i <= self.entries.len(),
                forall|k: int| 0 <= k < i ==> self.entries@[k].0 != ty,
            decreases self.entries.len() - i,
        {
            if self.entries[i].0 == ty {
                return Some(i);
            }
            i += 1;
        }
        None
    }

    pub fn new() -> (r: Self)
        ensures
            r.wf(),
            r@ == Map::<TypeIdentity, V>::empty(),
    {
        let r = TypeMap { entries: Vec::new() };
        assert(r@ =~= Map::<TypeIdentity, V>::empty());
        r
    }

    /// The value stored for `ty`, if any.
    pub fn get_raw(&self, ty: TypeIdentity) -> (r: Option<&V>)
        requires
            self.wf(),
        ensures
            match r {
                Some(v) => self@.contains_key(ty) && *v == self@[ty],
                None => !self@.contains_key(ty),
            },
    {
        match self.find(ty) {
            Some(i) => {
                proof {
                    self.lemma_view_at(i as int);
                }
                Some(&self.entries[i].1)
            },
            None => None,
        }
    }

    /// The value stored for `K`'s identity, if any.
    pub fn get<K: TypeKey>(&self) -> (r: Option<&V>)
        requires
            self.wf(),
        ensures
            match r {
                Some(v) => self@.contains_key(K::spec_identity()) && *v == self@[K::spec_identity()],
                None => !self@.contains_key(K::spec_identity()),
            },
    {
        self.get_raw(K::identity())
    }

    /// The value stored for `ty`, if any, to change in place.
    pub fn get_raw_mut(&mut self, ty: TypeIdentity) -> (r: Option<&mut V>)
        requires
            old(self).wf(),
        ensures
            final(self).wf(),
            match r {
                Some(v) => old(self)@.contains_key(ty) && *v == old(self)@[ty] && final(self)@
                    == old(self)@.insert(ty, *final(v)),
                None => !old(self)@.contains_key(ty) && final(self)@ == old(self)@,
            },
    {
        match self.find(ty) {
            Some(i) => {
                proof {
                    self.lemma_view_at(i as int);
                    assert forall|v: V| {
                        &&& #[trigger] keys_distinct(self.entries@.update(i as int, (ty, v)))
                        &&& map_of(self.entries@.update(i as int, (ty, v))) == map_of(self.entries@).insert(ty, v)
                    } by {
                        lemma_update_value(self.entries@, i as int, v);
                    }
                    assert forall|v: V| #[trigger] map_of(self.entries@.update(i as int, (ty, v)))
                        == map_of(self.entries@).insert(ty, v) by {
                        lemma_update_value(self.entries@, i as int, v);
                    }
                }
                Some(value_at_mut(&mut self.entries, i))
            },
            None => None,
        }
    }

    /// The value stored for `K`'s identity, if any, to change in place.
    pub fn get_mut<K: TypeKey>(&mut self) -> (r: Option<&mut V>)
        requires
            old(self).wf(),
        ensures
            final(self).wf(),
            match r {
                Some(v) => old(self)@.contains_key(K::spec_identity()) && *v == old(self)@[K::spec_identity()]
                    && final(self)@ == old(self)@.insert(K::spec_identity(), *final(v)),
                None => !old(self)@.contains_key(K::spec_identity()) && final(self)@ == old(self)@,
            },
    {
        self.get_raw_mut(K::identity())
    }

    /// Stores `value` for `ty` and returns the value it replaces, if any.
    pub fn insert_raw(&mut self, ty: TypeIdentity, value: V) -> (r: Option<V>)
        requires
            old(self).wf(),
        ensures
            final(self).wf(),
            final(self)@ == old(self)@.insert(ty, value),
            replaced(old(self)@, ty, r),
    {
        match self.find(ty) {
            Some(i) => {
                proof {
                    self.lemma_view_at(i as int);
                }
                let (k, prev) = self.entries.remove(i);
                self.entries.insert(i, (k, value));
                proof {
                    assert forall|a: int, b: int|
                        0 <= a < b < self.entries.len() implies #[trigger] self.entries@[a].0
                        != #[trigger] self.entries@[b].0 by {
                        assert(old(self).entries@[a].0 != old(self).entries@[b].0);
                    }
                    assert forall|j: int| 0 <= j < self.entries.len() implies #[trigger] self.entries@[j].0
                        == old(self).entries@[j].0 by {}
                    assert forall|t: TypeIdentity| #[trigger] self@.contains_key(t) <==> old(self)@.insert(ty, value).contains_key(t) by {
                        if old(self)@.contains_key(t) {
                            let j = choose|j: int| 0 <= j < old(self).entries.len() && #[trigger] old(self).entries@[j].0 == t;
                            assert(self.entries@[j].0 == t);
                        }
                        if self@.contains_key(t) {
                            let j = choose|j: int| 0 <= j < self.entries.len() && #[trigger] self.entries@[j].0 == t;
                            assert(old(self).entries@[j].0 == t);
                        }
                    }
                    assert forall|t: TypeIdentity| #[trigger] self@.contains_key(t) implies self@[t] == old(self)@.insert(ty, value)[t] by {
                        let j = choose|j: int| 0 <= j < self.entries.len() && #[trigger] self.entries@[j].0 == t;
                        self.lemma_view_at(j);
                        if j != i {
                            old(self).lemma_view_at(j);
                        }
                    }
                    assert(self@ =~= old(self)@.insert(ty, value));
                }
                Some(prev)
            },
            None => {
                self.entries.push((ty, value));
                proof {
                    let n = old(self).entries.len() as int;
                    assert forall|a: int, b: int|
                        0 <= a < b < self.entries.len() implies #[trigger] self.entries@[a].0
                        != #[trigger] self.entries@[b].0 by {
                        if b < n {
                            assert(old(self).entries@[a].0 != old(self).entries@[b].0);
                        } else {
                            assert(old(self).entries@[a].0 == self.entries@[a].0);
                        }
                    }
                    assert forall|t: TypeIdentity| #[trigger] self@.contains_key(t) <==> old(self)@.insert(ty, value).contains_key(t) by {
                        if old(self)@.contains_key(t) {
                            let j = choose|j: int| 0 <= j < old(self).entries.len() && #[trigger] old(self).entries@[j].0 == t;
                            assert(self.entries@[j].0 == t);
                        }
                        if t == ty {
                            assert(self.entries@[n].0 == t);
                        }
                        if self@.contains_key(t) {
                            let j = choose|j: int| 0 <= j < self.entries.len() && #[trigger] self.entries@[j].0 == t;
                            if j < n {
                                assert(old(self).entries@[j].0 == t);
                            }
                        }
                    }
                    assert forall|t: TypeIdentity| #[trigger] self@.contains_key(t) implies self@[t] == old(self)@.insert(ty, value)[t] by {
                        let j = choose|j: int| 0 <= j < self.entries.len() && #[trigger] self.entries@[j].0 == t;
                        self.lemma_view_at(j);
                        if j < n {
                            old(self).lemma_view_at(j);
                        }
                    }
                    assert(self@ =~= old(self)@.insert(ty, value));
                }
                None
            },
        }
    }

    /// Stores `value` for `K`'s identity and returns the value it replaces,
    /// if any.
    pub fn insert<K: TypeKey>(&mut self, value: V) -> (r: Option<V>)
        requires
            old(self).wf(),
        ensures
            final(self).wf(),
            final(self)@ == old(self)@.insert(K::spec_identity(), value),
            replaced(old(self)@, K::spec_identity(), r),
    {
        self.insert_raw(K::identity(), value)
    }

    /// Drops the value stored for `ty` and returns it, if any.
    pub fn remove_raw(&mut self, ty: TypeIdentity) -> (r: Option<V>)
        requires
            old(self).wf(),
        ensures
            final(self).wf(),
            final(self)@ == old(self)@.remove(ty),
            replaced(old(self)@, ty, r),
    {
        match self.find(ty) {
            Some(i) => {
                proof {
                    self.lemma_view_at(i as int);
                }
                let (_k, prev) = self.entries.remove(i);
                proof {
                    let o = old(self).entries@;
                    assert forall|j: int| 0 <= j < self.entries.len() implies #[trigger] self.entries@[j]
                        == (if j < i { o[j] } else { o[j + 1] }) by {}
                    assert forall|a: int, b: int|
                        0 <= a < b < self.entries.len() implies #[trigger] self.entries@[a].0
                        != #[trigger] self.entries@[b].0 by {
                        let a2 = if a < i { a } else { a + 1 };
                        let b2 = if b < i { b } else { b + 1 };
                        assert(o[a2].0 != o[b2].0);
                    }
                    assert forall|t: TypeIdentity| #[trigger] self@.contains_key(t) <==> old(self)@.remove(ty).contains_key(t) by {
                        if old(self)@.contains_key(t) && t != ty {
                            let j = choose|j: int| 0 <= j < o.len() && #[trigger] o[j].0 == t;
                            if j < i {
                                assert(self.entries@[j].0 == t);
                            } else if j > i {
                                assert(self.entries@[j - 1].0 == t);
                            }
                        }
                        if self@.contains_key(t) {
                            let j = choose|j: int| 0 <= j < self.entries.len() && #[trigger] self.entries@[j].0 == t;
                            let j2 = if j < i { j } else { j + 1 };
                            assert(o[j2].0 == t);
                            if j2 < i as int {
                                assert(o[j2].0 != o[i as int].0);
                            } else {
                                assert(o[i as int].0 != o[j2].0);
                            }
                        }
                    }
                    assert forall|t: TypeIdentity| #[trigger] self@.contains_key(t) implies self@[t] == old(self)@.remove(ty)[t] by {
                        let j = choose|j: int| 0 <= j < self.entries.len() && #[trigger] self.entries@[j].0 == t;
                        self.lemma_view_at(j);
                        let j2 = if j < i { j } else { j + 1 };
                        old(self).lemma_view_at(j2);
                    }
                    assert(self@ =~= old(self)@.remove(ty));
                }
                Some(prev)
            },
            None => {
                assert(self@ =~= old(self)@.remove(ty));
                None
            },
        }
    }

    /// Drops the value stored for `K`'s identity and returns it, if any.
    pub fn remove<K: TypeKey>(&mut self) -> (r: Option<V>)
        requires
            old(self).wf(),
        ensures
            final(self).wf(),
            final(self)@ == old(self)@.remove(K::spec_identity()),
            replaced(old(self)@, K::spec_identity(), r),
    {
        self.remove_raw(K::identity())
    }

    /// Drops every value.
    pub fn clear(&mut self)
        ensures
            final(self).wf(),
            final(self)@ == Map::<TypeIdentity, V>::empty(),
    {
        self.entries.clear();
        assert(self@ =~= Map::<TypeIdentity, V>::empty());
    }

    /// The number of identities with a value.
    pub fn len(&self) -> (r: usize)
        requires
            self.wf(),
        ensures
            r == self@.len(),
    {
        proof {
            self.lemma_view_len();
        }
        self.entries.len()
    }
}

} // verus!
