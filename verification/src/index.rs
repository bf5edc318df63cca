//! Indexing a record list by its title-identifier key.
//!
//! [`index_of`] is the mathematical index: the map built by inserting each
//! key/value pair in list order, so that a later pair with the same key
//! overwrites an earlier one. [`TitleIndex`] realizes that map for lookup.
//! The proof functions state the index's laws: where no keys collide, the
//! index does not depend on the order of the list; where keys collide, the
//! last pair in list order wins.

use vstd::prelude::*;
use vstd::seq_lib::group_seq_properties;
use crate::scan::chars_eq;

verus! {

/// The map built from key/value pairs in list order, later pairs
/// overwriting earlier ones with the same key.
pub open spec fn index_of<V>(pairs: Seq<(Seq<char>, V)>) -> Map<Seq<char>, V>
    decreases pairs.len(),
{
    if pairs.len() == 0 {
        Map::<Seq<char>, V>::empty()
    } else {
        index_of(pairs.drop_last()).insert(pairs.last().0, pairs.last().1)
    }
}

/// No two pairs share a key.
pub open spec fn distinct_keys<V>(pairs: Seq<(Seq<char>, V)>) -> bool {
    forall|i: int, j: int| 0 <= i < j < pairs.len() ==> pairs[i].0 != pairs[j].0
}

/// The index's domain is exactly the set of keys that occur in the list.
pub proof fn lemma_index_domain<V>(pairs: Seq<(Seq<char>, V)>, k: Seq<char>)
    ensures
        index_of(pairs).contains_key(k) <==> exists|i: int|
            0 <= i < pairs.len() && pairs[i].0 == k,
    decreases pairs.len(),
{
    if pairs.len() > 0 {
        lemma_index_domain(pairs.drop_last(), k);
        if index_of(pairs).contains_key(k) {
            if pairs.last().0 != k {
                let i = choose|i: int|
                    0 <= i < pairs.drop_last().len() && pairs.drop_last()[i].0 == k;
                assert(pairs[i].0 == k);
            }
        }
        if exists|i: int| 0 <= i < pairs.len() && pairs[i].0 == k {
            let i = choose|i: int| 0 <= i < pairs.len() && pairs[i].0 == k;
            if i < pairs.len() - 1 {
                assert(pairs.drop_last()[i].0 == k);
            }
        }
    }
}

/// The pair whose key has no later occurrence decides that key's value:
/// with colliding keys, the last pair in list order wins.
pub proof fn lemma_index_last_wins<V>(pairs: Seq<(Seq<char>, V)>, j: int)
    requires
        0 <= j < pairs.len(),
        forall|l: int| j < l < pairs.len() ==> pairs[l].0 != pairs[j].0,
    ensures
        index_of(pairs).contains_key(pairs[j].0),
        index_of(pairs)[pairs[j].0] == pairs[j].1,
    decreases pairs.len(),
{
    if j == pairs.len() - 1 {
    } else {
        assert forall|l: int| j < l < pairs.drop_last().len() implies pairs.drop_last()[l].0
            != pairs.drop_last()[j].0 by {
            assert(pairs.drop_last()[l] == pairs[l]);
        }
        lemma_index_last_wins(pairs.drop_last(), j);
        assert(pairs.last().0 != pairs[j].0);
    }
}

/// With no colliding keys at all, every pair decides its key.
pub proof fn lemma_index_characterize<V>(pairs: Seq<(Seq<char>, V)>)
    requires
        distinct_keys(pairs),
    ensures
        forall|i: int|
            0 <= i < pairs.len() ==> index_of(pairs).contains_key((#[trigger] pairs[i]).0)
                && index_of(pairs)[pairs[i].0] == pairs[i].1,
{
    assert forall|i: int|
        0 <= i < pairs.len() implies index_of(pairs).contains_key((#[trigger] pairs[i]).0)
        && index_of(pairs)[pairs[i].0] == pairs[i].1 by {
        lemma_index_last_wins(pairs, i);
    }
}

/// Reordering a list whose keys do not collide leaves the index unchanged:
/// any two lists holding the same pairs, with each key occurring once,
/// build the same map.
pub proof fn lemma_index_reorder<V>(p1: Seq<(Seq<char>, V)>, p2: Seq<(Seq<char>, V)>)
    requires
        p1.to_multiset() == p2.to_multiset(),
        distinct_keys(p1),
    ensures
        index_of(p1) == index_of(p2),
{
    broadcast use vstd::seq_lib::group_to_multiset_ensures;
    broadcast use vstd::multiset::group_multiset_axioms;

    // The pairs of p1 are pairwise distinct, so each occurs once in the
    // shared multiset, so p2 has no duplicate pairs either.
    assert(p1.no_duplicates()) by {
        assert forall|i: int, j: int|
            0 <= i < p1.len() && 0 <= j < p1.len() && i != j implies p1[i] != p1[j] by {
            if i < j {
                assert(p1[i].0 != p1[j].0);
            } else {
                assert(p1[j].0 != p1[i].0);
            }
        }
    }
    p1.lemma_multiset_has_no_duplicates();
    p2.lemma_multiset_has_no_duplicates_conv();

    // Keys do not collide in p2 either: two p2 pairs with one key would be
    // two distinct pairs of p1 with one key.
    assert(distinct_keys(p2)) by {
        assert forall|i: int, j: int| 0 <= i < j < p2.len() implies p2[i].0 != p2[j].0 by {
            if p2[i].0 == p2[j].0 {
                assert(p2[i] != p2[j]);
                assert(p2.contains(p2[i]) && p2.contains(p2[j]));
                assert(p2.to_multiset().count(p2[i]) > 0 && p2.to_multiset().count(p2[j]) > 0);
                assert(p1.to_multiset().count(p2[i]) > 0 && p1.to_multiset().count(p2[j]) > 0);
                assert(p1.contains(p2[i]) && p1.contains(p2[j]));
                let a = choose|a: int| 0 <= a < p1.len() && p1[a] == p2[i];
                let b = choose|b: int| 0 <= b < p1.len() && p1[b] == p2[j];
                if a < b {
                    assert(p1[a].0 != p1[b].0);
                } else if b < a {
                    assert(p1[b].0 != p1[a].0);
                } else {
                    assert(p2[i] == p2[j]);
                }
            }
        }
    }
    lemma_index_characterize(p1);
    lemma_index_characterize(p2);
    let m1 = index_of(p1);
    let m2 = index_of(p2);
    assert forall|k: Seq<char>| #[trigger] m1.dom().contains(k) implies m2.dom().contains(k)
        && m1[k] == m2[k] by {
        lemma_index_domain(p1, k);
        let i = choose|i: int| 0 <= i < p1.len() && p1[i].0 == k;
        assert(p1.contains(p1[i]));
        assert(p1.to_multiset().count(p1[i]) > 0);
        assert(p2.to_multiset().count(p1[i]) > 0);
        assert(p2.contains(p1[i]));
        let j = choose|j: int| 0 <= j < p2.len() && p2[j] == p1[i];
        assert(m2.contains_key(p2[j].0) && m2[p2[j].0] == p2[j].1);
    }
    assert forall|k: Seq<char>| #[trigger] m2.dom().contains(k) implies m1.dom().contains(
        k,
    ) by {
        lemma_index_domain(p2, k);
        let j = choose|j: int| 0 <= j < p2.len() && p2[j].0 == k;
        assert(p2.contains(p2[j]));
        assert(p2.to_multiset().count(p2[j]) > 0);
        assert(p1.to_multiset().count(p2[j]) > 0);
        assert(p1.contains(p2[j]));
        let i = choose|i: int| 0 <= i < p1.len() && p1[i] == p2[j];
        assert(m1.contains_key(p1[i].0));
    }
    assert(m1.dom() =~= m2.dom());
    assert(m1 =~= m2);
}

/// The keyed pairs of an index's backing lists.
pub open spec fn zip_pairs<V>(keys: Seq<String>, vals: Seq<V>) -> Seq<(Seq<char>, V)> {
    Seq::new(keys.len(), |i: int| (keys[i]@, vals[i]))
}

/// A lookup table from title identifier to record, built from a pair list
/// in list order with last-write-wins on colliding keys.
pub struct TitleIndex<V> {
    keys: Vec<String>,
    vals: Vec<V>,
}

impl<V> TitleIndex<V> {
    /// The backing lists pair up and hold each key once.
    pub closed spec fn wf(&self) -> bool {
        &&& self.keys@.len() == self.vals@.len()
        &&& forall|i: int, j: int|
            0 <= i < j < self.keys@.len() ==> self.keys@[i]@ != self.keys@[j]@
    }

    /// The map this index realizes.
    pub closed spec fn view(&self) -> Map<Seq<char>, V> {
        index_of(zip_pairs(self.keys@, self.vals@))
    }

    /// How many distinct keys the index holds.
    pub fn len(&self) -> (r: usize)
        requires
            self.wf(),
        ensures
            r == self@.dom().len(),
    {
        proof {
            self.lemma_dom_len();
        }
        self.keys.len()
    }

    /// The backing pair list's keys do not collide.
    proof fn lemma_distinct(&self)
        requires
            self.wf(),
        ensures
            distinct_keys(zip_pairs(self.keys@, self.vals@)),
    {
    }

    /// The index's domain has one key per backing entry.
    proof fn lemma_dom_len(&self)
        requires
            self.wf(),
        ensures
            self@.dom().len() == self.keys@.len(),
    {
        lemma_zip_dom_len(self.keys@, self.vals@);
    }

    /// Looks a title identifier up, returning exactly the mapped record.
    pub fn get(&self, key: &String) -> (r: Option<&V>)
        requires
            self.wf(),
        ensures
            (r is Some) == self@.contains_key(key@),
            r matches Some(v) ==> self@.contains_key(key@) && *v == self@[key@],
    {
        let ghost pairs = zip_pairs(self.keys@, self.vals@);
        proof {
            self.lemma_distinct();
            lemma_index_characterize(pairs);
            lemma_index_domain(pairs, key@);
        }
        let mut i: usize = 0;
        while i < self.keys.len()
            invariant
                self.wf(),
                pairs == zip_pairs(self.keys@, self.vals@),
                i <= self.keys@.len(),
                forall|j: int| 0 <= j < i ==> self.keys@[j]@ != key@,
                forall|l: int| 0 <= l < pairs.len() ==> #[trigger] index_of(
                    pairs,
                ).contains_key(pairs[l].0) && index_of(pairs)[pairs[l].0] == pairs[l].1,
                index_of(pairs).contains_key(key@) <==> exists|l: int|
                    0 <= l < pairs.len() && pairs[l].0 == key@,
                self@ == index_of(pairs),
            decreases self.keys@.len() - i,
        {
            let mut kc = crate::scan::chars_of(self.keys[i].as_str());
            if chars_eq(&kc, key.as_str()) {
                proof {
                    assert(pairs[i as int].0 == key@);
                }
                return Some(&self.vals[i]);
            }
            i = i + 1;
        }
        proof {
            if self@.contains_key(key@) {
                let l = choose|l: int| 0 <= l < pairs.len() && pairs[l].0 == key@;
                assert(self.keys@[l]@ == key@);
            }
        }
        None
    }

    /// Builds the index from a pair list: each pair inserted in list order,
    /// a later pair with the same key overwriting the earlier one.
    pub fn build(pairs: Vec<(String, V)>) -> (r: TitleIndex<V>)
        ensures
            r.wf(),
            r@ == index_of(
                pairs@.map_values(|p: (String, V)| (p.0@, p.1)),
            ),
    {
        let ghost pv = pairs@.map_values(|p: (String, V)| (p.0@, p.1));
        let total: usize = pairs.len();
        let mut keys: Vec<String> = Vec::new();
        let mut vals: Vec<V> = Vec::new();
        let mut rest = pairs;
        let mut n: usize = 0;
        proof {
            assert(pv.subrange(0, 0) =~= Seq::<(Seq<char>, V)>::empty());
            assert(zip_pairs(keys@, vals@) =~= Seq::<(Seq<char>, V)>::empty());
            assert(index_of(zip_pairs(keys@, vals@)) =~= index_of(pv.subrange(0, 0)));
        }
        while rest.len() > 0
            invariant
                pv == pairs@.map_values(|p: (String, V)| (p.0@, p.1)),
                total == pairs@.len(),
                n + rest@.len() == pairs@.len(),
                rest@ == pairs@.skip(n as int),
                keys@.len() == vals@.len(),
                forall|i: int, j: int| 0 <= i < j < keys@.len() ==> keys@[i]@ != keys@[j]@,
                index_of(zip_pairs(keys@, vals@)) == index_of(pv.subrange(0, n as int)),
            decreases rest@.len(),
        {
            let (k, v) = rest.remove(0);
            proof {
                assert(rest@ =~= pairs@.skip(n as int + 1));
                assert(pairs@.skip(n as int)[0] == pairs@[n as int]);
                assert(pv[n as int] == (pairs@[n as int].0@, pairs@[n as int].1));
            }
            let ghost old_keys = keys@;
            let ghost old_vals = vals@;
            let found = find_key(&keys, &k);
            match found {
                Some(fi) => {
                    vals[fi] = v;
                    proof {
                        lemma_index_overwrite(old_keys, old_vals, vals@, fi as int, k@);
                        assert(pv.subrange(0, n as int + 1).drop_last() =~= pv.subrange(
                            0,
                            n as int,
                        ));
                        assert(pv.subrange(0, n as int + 1).last() == pv[n as int]);
                    }
                },
                None => {
                    keys.push(k);
                    vals.push(v);
                    proof {
                        assert(zip_pairs(keys@, vals@).drop_last() =~= zip_pairs(
                            old_keys,
                            old_vals,
                        ));
                        assert(zip_pairs(keys@, vals@).last() == (k@, v));
                        assert(pv.subrange(0, n as int + 1).drop_last() =~= pv.subrange(
                            0,
                            n as int,
                        ));
                        assert(pv.subrange(0, n as int + 1).last() == pv[n as int]);
                    }
                },
            }
            n = n + 1;
        }
        proof {
            assert(pv.subrange(0, pairs@.len() as int) =~= pv);
        }
        TitleIndex { keys, vals }
    }
}

/// The position of `k` among the backing keys, if it occurs.
fn find_key(keys: &Vec<String>, k: &String) -> (r: Option<usize>)
    ensures
        r matches Some(fi) ==> fi < keys@.len() && keys@[fi as int]@ == k@,
        r is None ==> forall|j: int| 0 <= j < keys@.len() ==> keys@[j]@ != k@,
{
    let kc = crate::scan::chars_of(k.as_str());
    let mut i: usize = 0;
    while i < keys.len()
        invariant
            kc@ == k@,
            i <= keys@.len(),
            forall|j: int| 0 <= j < i ==> keys@[j]@ != k@,
        decreases keys@.len() - i,
    {
        if chars_eq(&kc, keys[i].as_str()) {
            return Some(i);
        }
        i = i + 1;
    }
    None
}

/// With distinct backing keys, the index has one map entry per entry.
proof fn lemma_zip_dom_len<V>(keys: Seq<String>, vals: Seq<V>)
    requires
        keys.len() == vals.len(),
        forall|i: int, j: int| 0 <= i < j < keys.len() ==> keys[i]@ != keys[j]@,
    ensures
        index_of(zip_pairs(keys, vals)).dom().finite(),
        index_of(zip_pairs(keys, vals)).dom().len() == keys.len(),
    decreases keys.len(),
{
    broadcast use group_seq_properties;
    broadcast use vstd::set::group_set_axioms;

    if keys.len() > 0 {
        let pairs = zip_pairs(keys, vals);
        let shorter = zip_pairs(keys.drop_last(), vals.drop_last());
        assert(pairs.drop_last() =~= shorter);
        lemma_zip_dom_len(keys.drop_last(), vals.drop_last());
        lemma_index_domain(shorter, pairs.last().0);
        if index_of(shorter).contains_key(pairs.last().0) {
            let i = choose|i: int| 0 <= i < shorter.len() && shorter[i].0 == pairs.last().0;
            assert(keys[i]@ == keys[keys.len() - 1]@);
            assert(false);
        }
        assert(index_of(pairs).dom() =~= index_of(shorter).dom().insert(pairs.last().0));
    } else {
        assert(zip_pairs(keys, vals) =~= Seq::<(Seq<char>, V)>::empty());
        assert(index_of(zip_pairs(keys, vals)).dom() =~= Set::<Seq<char>>::empty());
    }
}

/// Overwriting the value at an existing key builds the same map as
/// appending a pair with that key.
proof fn lemma_index_overwrite<V>(
    keys: Seq<String>,
    old_vals: Seq<V>,
    new_vals: Seq<V>,
    fi: int,
    k: Seq<char>,
)
    requires
        keys.len() == old_vals.len(),
        new_vals == old_vals.update(fi, new_vals[fi]),
        old_vals.len() == new_vals.len(),
        0 <= fi < keys.len(),
        keys[fi]@ == k,
        forall|i: int, j: int| 0 <= i < j < keys.len() ==> keys[i]@ != keys[j]@,
    ensures
        index_of(zip_pairs(keys, new_vals)) == index_of(zip_pairs(keys, old_vals)).insert(
            k,
            new_vals[fi],
        ),
{
    let po = zip_pairs(keys, old_vals);
    let pn = zip_pairs(keys, new_vals);
    lemma_index_characterize(po);
    lemma_index_characterize(pn);
    let mo = index_of(po).insert(k, new_vals[fi]);
    let mn = index_of(pn);
    assert forall|key: Seq<char>| #[trigger] mn.dom().contains(key) implies mo.dom().contains(
        key,
    ) && mn[key] == mo[key] by {
        lemma_index_domain(pn, key);
        let i = choose|i: int| 0 <= i < pn.len() && pn[i].0 == key;
        lemma_index_domain(po, key);
        assert(po[i].0 == key);
        if i == fi {
            assert(mn[key] == new_vals[fi]);
        } else {
            if i < fi {
                assert(keys[i]@ != keys[fi]@);
            } else {
                assert(keys[fi]@ != keys[i]@);
            }
            assert(key != k);
            assert(pn[i] == (keys[i]@, new_vals[i]));
            assert(po[i] == (keys[i]@, old_vals[i]));
            assert(new_vals[i] == old_vals[i]);
            assert(mn[key] == new_vals[i]);
            assert(index_of(po)[po[i].0] == po[i].1);
            assert(mo[key] == index_of(po)[key]);
        }
    }
    assert forall|key: Seq<char>| #[trigger] mo.dom().contains(key) implies mn.dom().contains(
        key,
    ) by {
        if key == k {
            assert(pn[fi].0 == key);
        } else {
            lemma_index_domain(po, key);
            assert(index_of(po).dom().contains(key));
            let i = choose|i: int| 0 <= i < po.len() && po[i].0 == key;
            assert(pn[i].0 == key);
        }
        lemma_index_domain(pn, key);
    }
    assert(mn.dom() =~= mo.dom());
    assert(mn =~= mo);
}

} // verus!
