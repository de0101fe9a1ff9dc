//! An ordered map from display names to field identifiers.
//!
//! The cache holds two of these per project: display name to wire key, and
//! display name to JQL clause token.  The map keeps its entries in insertion
//! order, with unique keys; inserting an existing key replaces its value in
//! place.

use vstd::prelude::*;

verus! {

/// First value bound to `k` in `ps`, if any.
pub open spec fn lookup(ps: Seq<(Seq<char>, Seq<char>)>, k: Seq<char>) -> Option<Seq<char>>
    decreases ps.len(),
{
    if ps.len() == 0 {
        None
    } else if ps[0].0 == k {
        Some(ps[0].1)
    } else {
        lookup(ps.drop_first(), k)
    }
}

/// Whether some entry of `ps` has the key `k`.
pub open spec fn has_key(ps: Seq<(Seq<char>, Seq<char>)>, k: Seq<char>) -> bool {
    exists|i: int| 0 <= i < ps.len() && ps[i].0 == k
}

/// The position of the key `k` in `ps`.
pub open spec fn key_index(ps: Seq<(Seq<char>, Seq<char>)>, k: Seq<char>) -> int {
    choose|i: int| 0 <= i < ps.len() && ps[i].0 == k
}

/// No two entries share a key.
pub open spec fn unique_keys(ps: Seq<(Seq<char>, Seq<char>)>) -> bool {
    forall|i: int, j: int| 0 <= i < j < ps.len() ==> ps[i].0 != ps[j].0
}

/// One insertion: replace the value of an existing key in place, or append
/// a new entry.
pub open spec fn spec_insert(
    ps: Seq<(Seq<char>, Seq<char>)>,
    k: Seq<char>,
    v: Seq<char>,
) -> Seq<(Seq<char>, Seq<char>)> {
    if has_key(ps, k) {
        ps.update(key_index(ps, k), (k, v))
    } else {
        ps.push((k, v))
    }
}

/// The map built by inserting the entries of `ps` in order into an empty
/// map.
pub open spec fn from_pairs(ps: Seq<(Seq<char>, Seq<char>)>) -> Seq<(Seq<char>, Seq<char>)>
    decreases ps.len(),
{
    if ps.len() == 0 {
        Seq::empty()
    } else {
        spec_insert(from_pairs(ps.drop_last()), ps.last().0, ps.last().1)
    }
}

/// Two distinct positions of a uniquely keyed sequence hold distinct keys.
pub proof fn lemma_unique_at(ps: Seq<(Seq<char>, Seq<char>)>, a: int, b: int)
    requires
        unique_keys(ps),
        0 <= a < ps.len(),
        0 <= b < ps.len(),
        a != b,
    ensures
        ps[a].0 != ps[b].0,
{
}

/// An ordered association of display names with field identifiers.
#[derive(Debug)]
pub struct FieldMap {
    pairs: Vec<(String, String)>,
}

impl View for FieldMap {
    type V = Seq<(Seq<char>, Seq<char>)>;

    closed spec fn view(&self) -> Seq<(Seq<char>, Seq<char>)> {
        Seq::new(self.pairs@.len(), |i: int| (self.pairs@[i].0@, self.pairs@[i].1@))
    }
}

impl FieldMap {
    /// Unique keys: the map's single invariant.
    pub open spec fn wf(&self) -> bool {
        unique_keys(self@)
    }

    /// An empty map.
    pub fn new() -> (r: FieldMap)
        ensures
            r@ == Seq::<(Seq<char>, Seq<char>)>::empty(),
            r.wf(),
    {
        let r = FieldMap { pairs: Vec::new() };
        proof {
            assert(r@ =~= Seq::<(Seq<char>, Seq<char>)>::empty());
        }
        r
    }

    /// How many entries the map holds.
    pub fn len(&self) -> (r: usize)
        ensures
            r == self@.len(),
    {
        self.pairs.len()
    }

    /// The entry at a position, key then value.
    pub fn entry_at(&self, i: usize) -> (r: (String, String))
        requires
            i < self@.len(),
        ensures
            r.0@ == self@[i as int].0,
            r.1@ == self@[i as int].1,
    {
        let p = &self.pairs[i];
        (p.0.clone(), p.1.clone())
    }

    /// The value bound to `name`, if any.
    pub fn get(&self, name: &str) -> (r: Option<String>)
        ensures
            match r {
                Some(v) => lookup(self@, name@) == Some(v@),
                None => lookup(self@, name@) is None,
            },
    {
        let key: String = name.to_owned();
        let n = self.pairs.len();
        let mut i: usize = 0;
        proof {
            assert(self@.skip(0) =~= self@);
        }
        while i < n
            invariant
                n == self@.len(),
                i <= n,
                key@ == name@,
                lookup(self@, name@) == lookup(self@.skip(i as int), name@),
            decreases n - i,
        {
            if self.pairs[i].0 == key {
                proof {
                    assert(self@.skip(i as int)[0] == self@[i as int]);
                }
                return Some(self.pairs[i].1.clone());
            }
            proof {
                assert(self@.skip(i as int)[0] == self@[i as int]);
                assert(self@.skip(i as int).drop_first() =~= self@.skip(i + 1int));
            }
            i = i + 1;
        }
        proof {
            assert(self@.skip(n as int) =~= Seq::<(Seq<char>, Seq<char>)>::empty());
        }
        None
    }

    /// Inserts a binding: replaces the value of an existing name in place,
    /// or appends a new entry.
    pub fn insert(&mut self, name: String, value: String)
        requires
            old(self).wf(),
        ensures
            final(self)@ == spec_insert(old(self)@, name@, value@),
            final(self).wf(),
    {
        let n = self.pairs.len();
        let mut i: usize = 0;
        while i < n
            invariant
                n == self@.len(),
                i <= n,
                self == old(self),
                old(self).wf(),
                forall|j: int| 0 <= j < i ==> self@[j].0 != name@,
            decreases n - i,
        {
            if self.pairs[i].0 == name {
                proof {
                    assert(self@[i as int].0 == name@);
                    assert(has_key(self@, name@));
                    let kix = key_index(self@, name@);
                    assert(0 <= kix < self@.len() && self@[kix].0 == name@);
                    if kix != i as int {
                        lemma_unique_at(old(self)@, kix, i as int);
                        assert(false);
                    }
                }
                self.pairs.set(i, (name, value));
                proof {
                    assert(final(self)@ =~= spec_insert(old(self)@, name@, value@));
                    assert(self@.len() == old(self)@.len());
                    assert forall|a: int, b: int|
                        0 <= a < b < self@.len() implies self@[a].0 != self@[b].0 by {
                        lemma_unique_at(old(self)@, a, b);
                        assert(self@[a].0 == if a == i as int {
                            name@
                        } else {
                            old(self)@[a].0
                        });
                        assert(self@[b].0 == if b == i as int {
                            name@
                        } else {
                            old(self)@[b].0
                        });
                    }
                }
                return ;
            }
            i = i + 1;
        }
        proof {
            assert(!has_key(self@, name@));
        }
        self.pairs.push((name, value));
        proof {
            assert(final(self)@ =~= spec_insert(old(self)@, name@, value@));
            assert(self@.len() == old(self)@.len() + 1);
            assert forall|a: int, b: int|
                0 <= a < b < self@.len() implies self@[a].0 != self@[b].0 by {
                if b < self@.len() - 1 {
                    lemma_unique_at(old(self)@, a, b);
                    assert(self@[a].0 == old(self)@[a].0);
                    assert(self@[b].0 == old(self)@[b].0);
                } else {
                    assert(old(self)@[a].0 != name@);
                    assert(self@[a].0 == old(self)@[a].0);
                    assert(self@[b].0 == name@);
                }
            }
        }
    }
}

/// Rebuilding a uniquely keyed entry sequence by inserting its entries in
/// order reproduces it exactly.
pub proof fn lemma_from_pairs_identity(ps: Seq<(Seq<char>, Seq<char>)>)
    requires
        unique_keys(ps),
    ensures
        from_pairs(ps) == ps,
    decreases ps.len(),
{
    if ps.len() > 0 {
        let front = ps.drop_last();
        assert(unique_keys(front)) by {
            assert forall|i: int, j: int|
                0 <= i < j < front.len() implies front[i].0 != front[j].0 by {
                assert(ps[i].0 != ps[j].0);
            }
        }
        lemma_from_pairs_identity(front);
        assert(!has_key(front, ps.last().0)) by {
            if has_key(front, ps.last().0) {
                let i = choose|i: int| 0 <= i < front.len() && front[i].0 == ps.last().0;
                assert(ps[i].0 == ps[ps.len() - 1].0);
                assert(false);
            }
        }
        assert(from_pairs(ps) =~= ps);
    }
}

/// Looking up in a map extended by a fresh binding: the new key finds the
/// new value, other keys are unaffected.
proof fn lemma_lookup_push(ps: Seq<(Seq<char>, Seq<char>)>, k: Seq<char>, v: Seq<char>, x: Seq<char>)
    requires
        !has_key(ps, k),
    ensures
        lookup(ps.push((k, v)), x) == if x == k {
            Some(v)
        } else {
            lookup(ps, x)
        },
    decreases ps.len(),
{
    if ps.len() == 0 {
        assert(ps.push((k, v))[0] == (k, v));
        assert(ps.push((k, v)).drop_first() =~= Seq::<(Seq<char>, Seq<char>)>::empty());
    } else {
        assert(ps.push((k, v))[0] == ps[0]);
        assert(ps.push((k, v)).drop_first() =~= ps.drop_first().push((k, v)));
        assert(!has_key(ps.drop_first(), k)) by {
            if has_key(ps.drop_first(), k) {
                let i = choose|i: int|
                    0 <= i < ps.drop_first().len() && ps.drop_first()[i].0 == k;
                assert(ps[i + 1].0 == k);
            }
        }
        lemma_lookup_push(ps.drop_first(), k, v, x);
    }
}

/// Looking up in a map whose binding at the key's position was replaced:
/// that key finds the new value, other keys are unaffected.
proof fn lemma_lookup_update(
    ps: Seq<(Seq<char>, Seq<char>)>,
    i: int,
    k: Seq<char>,
    v: Seq<char>,
    x: Seq<char>,
)
    requires
        unique_keys(ps),
        0 <= i < ps.len(),
        ps[i].0 == k,
    ensures
        lookup(ps.update(i, (k, v)), x) == if x == k {
            Some(v)
        } else {
            lookup(ps, x)
        },
    decreases ps.len(),
{
    let up = ps.update(i, (k, v));
    if i == 0 {
        assert(up[0] == (k, v));
        assert(up.drop_first() =~= ps.drop_first());
        if x != k {
            assert(ps[0].0 == k);
        }
    } else {
        assert(up[0] == ps[0]);
        assert(up.drop_first() =~= ps.drop_first().update(i - 1, (k, v)));
        assert(unique_keys(ps.drop_first())) by {
            assert forall|a: int, b: int|
                0 <= a < b < ps.drop_first().len() implies ps.drop_first()[a].0
                != ps.drop_first()[b].0 by {
                assert(ps[a + 1] == ps.drop_first()[a]);
                assert(ps[b + 1] == ps.drop_first()[b]);
                lemma_unique_at(ps, a + 1, b + 1);
            }
        }
        assert(ps.drop_first()[i - 1].0 == k);
        lemma_lookup_update(ps.drop_first(), i - 1, k, v, x);
        lemma_unique_at(ps, 0, i);
        assert(ps[0].0 != k);
    }
}

/// Looking up after one insertion: the inserted key finds the inserted
/// value, every other key is unaffected, and uniqueness is preserved.
pub proof fn lemma_insert_lookup(
    ps: Seq<(Seq<char>, Seq<char>)>,
    k: Seq<char>,
    v: Seq<char>,
    x: Seq<char>,
)
    requires
        unique_keys(ps),
    ensures
        lookup(spec_insert(ps, k, v), x) == if x == k {
            Some(v)
        } else {
            lookup(ps, x)
        },
        unique_keys(spec_insert(ps, k, v)),
        has_key(spec_insert(ps, k, v), x) <==> (x == k || has_key(ps, x)),
{
    let nw = spec_insert(ps, k, v);
    if has_key(ps, k) {
        let i = key_index(ps, k);
        assert(0 <= i < ps.len() && ps[i].0 == k);
        lemma_lookup_update(ps, i, k, v, x);
        assert(unique_keys(nw)) by {
            assert forall|a: int, b: int| 0 <= a < b < nw.len() implies nw[a].0 != nw[b].0 by {
                lemma_unique_at(ps, a, b);
            }
        }
        assert(has_key(nw, x) <==> (x == k || has_key(ps, x))) by {
            if has_key(nw, x) {
                let j = choose|j: int| 0 <= j < nw.len() && nw[j].0 == x;
                if j != i {
                    assert(ps[j].0 == x);
                }
            }
            if x == k {
                assert(nw[i].0 == x);
            }
            if has_key(ps, x) && x != k {
                let j = choose|j: int| 0 <= j < ps.len() && ps[j].0 == x;
                assert(j != i);
                assert(nw[j].0 == x);
            }
        }
    } else {
        lemma_lookup_push(ps, k, v, x);
        assert(unique_keys(nw)) by {
            assert forall|a: int, b: int| 0 <= a < b < nw.len() implies nw[a].0 != nw[b].0 by {
                if b < nw.len() - 1 {
                    lemma_unique_at(ps, a, b);
                } else {
                    assert(ps[a].0 != k) by {
                        if ps[a].0 == k {
                            assert(has_key(ps, k));
                        }
                    }
                }
            }
        }
        assert(has_key(nw, x) <==> (x == k || has_key(ps, x))) by {
            if has_key(nw, x) {
                let j = choose|j: int| 0 <= j < nw.len() && nw[j].0 == x;
                if j < nw.len() - 1 {
                    assert(ps[j].0 == x);
                }
            }
            if x == k {
                assert(nw[nw.len() - 1].0 == x);
            }
            if has_key(ps, x) {
                let j = choose|j: int| 0 <= j < ps.len() && ps[j].0 == x;
                assert(nw[j].0 == x);
            }
        }
    }
}

} // verus!
