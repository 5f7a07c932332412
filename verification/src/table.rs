//! A table from chunk coordinates to values, kept in a hash map whose keys
//! are the coordinates packed into one number each.

use vstd::prelude::*;
use std::collections::HashMap;
use vstd::arithmetic::div_mod::{lemma_fundamental_div_mod, lemma_fundamental_div_mod_converse};
use vstd::relations::injective_on;
use vstd::set_lib::{lemma_map_size, lemma_set_empty_equivalency_len};
use vstd::std_specs::iter::IteratorSpec;
use vstd::std_specs::hash::{
    axiom_spec_keys_iter, axiom_spec_values_iter, spec_keys_iter, spec_values_iter,
};
use crate::coords::IVec3;

verus! {

broadcast use vstd::std_specs::hash::group_hash_axioms;

/// The coordinate as one number: its three parts, each moved into the range
/// of `u32`, side by side.
pub open spec fn pack(p: IVec3) -> u128 {
    ((p.x + 0x8000_0000) * 0x1_0000_0000_0000_0000 + (p.y + 0x8000_0000) * 0x1_0000_0000 + (p.z
        + 0x8000_0000)) as u128
}

/// The coordinate that a number stands for.
pub open spec fn unpack(k: u128) -> IVec3 {
    IVec3 {
        x: (k / 0x1_0000_0000_0000_0000 - 0x8000_0000) as i32,
        y: ((k / 0x1_0000_0000) % 0x1_0000_0000 - 0x8000_0000) as i32,
        z: (k % 0x1_0000_0000 - 0x8000_0000) as i32,
    }
}

/// Packing loses nothing: the coordinate is found again in the number.
pub proof fn lemma_unpack_pack(p: IVec3)
    ensures
        unpack(pack(p)) == p,
        pack(p) < 0x1_0000_0000_0000_0000_0000_0000,
{
    let a = p.x + 0x8000_0000;
    let b = p.y + 0x8000_0000;
    let c = p.z + 0x8000_0000;
    let k = a * 0x1_0000_0000_0000_0000 + b * 0x1_0000_0000 + c;
    assert(pack(p) == k);
    lemma_fundamental_div_mod_converse(k, 0x1_0000_0000_0000_0000, a, b * 0x1_0000_0000 + c);
    lemma_fundamental_div_mod_converse(k, 0x1_0000_0000, a * 0x1_0000_0000 + b, c);
    lemma_fundamental_div_mod_converse(a * 0x1_0000_0000 + b, 0x1_0000_0000, a, b);
}

/// Two coordinates with the same number are the same coordinate.
pub proof fn lemma_pack_injective(p: IVec3, q: IVec3)
    ensures
        pack(p) == pack(q) <==> p == q,
{
    lemma_unpack_pack(p);
    lemma_unpack_pack(q);
}

/// Every number below 2 to the 96 is the number of its coordinate.
pub proof fn lemma_pack_unpack(k: u128)
    requires
        k < 0x1_0000_0000_0000_0000_0000_0000,
    ensures
        pack(unpack(k)) == k,
{
    let hi = k / 0x1_0000_0000;
    lemma_fundamental_div_mod(k as int, 0x1_0000_0000);
    lemma_fundamental_div_mod(hi as int, 0x1_0000_0000);
    let a = hi / 0x1_0000_0000;
    let b = hi % 0x1_0000_0000;
    let c = k % 0x1_0000_0000;
    assert(k == a * 0x1_0000_0000_0000_0000 + b * 0x1_0000_0000 + c);
    lemma_fundamental_div_mod_converse(
        k as int,
        0x1_0000_0000_0000_0000,
        a as int,
        b * 0x1_0000_0000 + c,
    );
}

fn pack_key(p: IVec3) -> (k: u128)
    ensures
        k == pack(p),
{
    let x: u128 = (p.x as i64 + 0x8000_0000) as u128;
    let y: u128 = (p.y as i64 + 0x8000_0000) as u128;
    let z: u128 = (p.z as i64 + 0x8000_0000) as u128;
    x * 0x1_0000_0000_0000_0000 + y * 0x1_0000_0000 + z
}

fn unpack_key(k: u128) -> (p: IVec3)
    requires
        k < 0x1_0000_0000_0000_0000_0000_0000,
    ensures
        p == unpack(k),
{
    let x: i64 = (k / 0x1_0000_0000_0000_0000) as i64 - 0x8000_0000;
    let y: i64 = ((k / 0x1_0000_0000) % 0x1_0000_0000) as i64 - 0x8000_0000;
    let z: i64 = (k % 0x1_0000_0000) as i64 - 0x8000_0000;
    IVec3 { x: x as i32, y: y as i32, z: z as i32 }
}

/// A table from chunk coordinates to values.
pub struct ChunkTable<V> {
    map: HashMap<u128, V>,
}

impl<V> ChunkTable<V> {
    #[verifier::type_invariant]
    spec fn keys_packed(self) -> bool {
        forall|k: u128| #[trigger] self.map@.contains_key(k) ==> k < 0x1_0000_0000_0000_0000_0000_0000
    }

    /// What the table holds, as a map from coordinates to values.
    pub closed spec fn view(&self) -> Map<IVec3, V> {
        Map::new(|p: IVec3| self.map@.contains_key(pack(p)), |p: IVec3| self.map@[pack(p)])
    }

    /// An empty table.
    pub fn new() -> (table: Self)
        ensures
            table@ == Map::<IVec3, V>::empty(),
    {
        let table = ChunkTable { map: HashMap::new() };
        assert(table@ =~= Map::<IVec3, V>::empty());
        table
    }

    /// Whether the table holds a value at a coordinate.
    pub fn contains_key(&self, p: IVec3) -> (r: bool)
        ensures
            r == self@.contains_key(p),
    {
        let k = pack_key(p);
        self.map.contains_key(&k)
    }

    /// The value at a coordinate, if the table holds one.
    pub fn get(&self, p: IVec3) -> (r: Option<&V>)
        ensures
            r.is_some() == self@.contains_key(p),
            r.is_some() ==> *r.unwrap() == self@[p],
    {
        let k = pack_key(p);
        self.map.get(&k)
    }

    /// Whether the table holds nothing.
    pub fn is_empty(&self) -> (r: bool)
        ensures
            r == (self@.dom() == Set::<IVec3>::empty()),
    {
        proof {
            use_type_invariant(self);
            lemma_set_empty_equivalency_len(self.map@.dom());
            if self.map@.len() == 0 {
                assert(self@.dom() =~= Set::<IVec3>::empty());
            } else {
                let k = choose|k: u128| self.map@.dom().contains(k);
                lemma_pack_unpack(k);
                assert(self@.contains_key(unpack(k)));
            }
        }
        self.map.is_empty()
    }

    /// The coordinates at which the table holds a value, each once, in no
    /// order that could be told beforehand.
    pub fn keys(&self) -> (keys: Vec<IVec3>)
        ensures
            keys@.no_duplicates(),
            forall|p: IVec3| keys@.contains(p) <==> self@.contains_key(p),
    {
        let mut out: Vec<IVec3> = Vec::new();
        proof {
            use_type_invariant(self);
        }
        let ghost all = spec_keys_iter(&self.map).remaining();
        proof {
            axiom_spec_keys_iter(&self.map);
        }
        for k in it: self.map.keys()
            invariant
                it.seq() == all,
                all.unref().to_set() == self.map@.dom(),
                all.no_duplicates(),
                forall|k: u128| #[trigger]
                    self.map@.contains_key(k) ==> k < 0x1_0000_0000_0000_0000_0000_0000,
                out@.len() == it.index(),
                forall|j: int| 0 <= j < out@.len() ==> #[trigger] out@[j] == unpack(*all[j]),
        {
            proof {
                assert(all.unref()[it.index()] == *k);
                assert(all.unref().to_set().contains(*k));
            }
            out.push(unpack_key(*k));
        }
        proof {
            assert forall|i: int, j: int| 0 <= i < j < out@.len() implies out@[i] != out@[j] by {
                assert(all.unref()[i] == *all[i]);
                assert(all.unref()[j] == *all[j]);
                assert(all.unref().to_set().contains(*all[i]));
                assert(all.unref().to_set().contains(*all[j]));
                lemma_pack_unpack(*all[i]);
                lemma_pack_unpack(*all[j]);
            }
            assert forall|p: IVec3| out@.contains(p) <==> self@.contains_key(p) by {
                if out@.contains(p) {
                    let j = choose|j: int| 0 <= j < out@.len() && out@[j] == p;
                    assert(all.unref()[j] == *all[j]);
                    assert(all.unref().to_set().contains(*all[j]));
                    lemma_pack_unpack(*all[j]);
                }
                if self@.contains_key(p) {
                    assert(all.unref().to_set().contains(pack(p)));
                    let j = choose|j: int| 0 <= j < all.len() && all.unref()[j] == pack(p);
                    lemma_unpack_pack(p);
                    assert(out@[j] == p);
                }
            }
        }
        out
    }

    /// The values that the table holds, in no order that could be told
    /// beforehand: as many as there are coordinates with a value, each of
    /// them the value at some coordinate, and none left out.
    pub fn values(&self) -> (values: Vec<&V>)
        ensures
            values@.len() == self@.dom().len(),
            forall|i: int| 0 <= i < values@.len() ==> self@.values().contains(*#[trigger] values@[i]),
            forall|p: IVec3| #[trigger]
                self@.contains_key(p) ==> exists|i: int|
                    0 <= i < values@.len() && *#[trigger] values@[i] == self@[p],
    {
        let mut out: Vec<&V> = Vec::new();
        proof {
            use_type_invariant(self);
        }
        let ghost all = spec_values_iter(&self.map).remaining();
        proof {
            axiom_spec_values_iter(&self.map);
            self.lemma_view_len();
        }
        for v in it: self.map.values()
            invariant
                it.seq() == all,
                out@.len() == it.index(),
                forall|j: int| 0 <= j < out@.len() ==> *#[trigger] out@[j] == *all[j],
        {
            out.push(v);
        }
        proof {
            assert(out@.len() == all.len());
            assert forall|i: int| 0 <= i < out@.len() implies self@.values().contains(
                *#[trigger] out@[i],
            ) by {
                assert(all.unref()[i] == *all[i]);
                assert(all.unref().to_set().contains(*all[i]));
                assert(self.map@.values().contains(*all[i]));
                let k = choose|k: u128| self.map@.contains_key(k) && self.map@[k] == *all[i];
                lemma_pack_unpack(k);
                assert(self@.contains_key(unpack(k)));
            }
            assert forall|p: IVec3| #[trigger] self@.contains_key(p) implies exists|i: int|
                0 <= i < out@.len() && *#[trigger] out@[i] == self@[p] by {
                assert(self.map@.values().contains(self.map@[pack(p)]));
                assert(all.unref().to_set().contains(self@[p]));
                let i = choose|i: int| 0 <= i < all.unref().len() && all.unref()[i] == self@[p];
                assert(*out@[i] == self@[p]);
            }
        }
        out
    }

    /// The table holds as many values as its map has coordinates.
    proof fn lemma_view_len(self)
        requires
            self.keys_packed(),
        ensures
            self@.dom().finite(),
            self@.dom().len() == self.map@.dom().len(),
    {
        let keys = self.map@.dom();
        let coords = self@.dom();
        let f = |k: u128| unpack(k);
        assert forall|k1: u128, k2: u128|
            keys.contains(k1) && keys.contains(k2) && #[trigger] f(k1) == #[trigger] f(
                k2,
            ) implies k1 == k2 by {
            lemma_pack_unpack(k1);
            lemma_pack_unpack(k2);
        }
        assert(injective_on(f, keys));
        assert forall|p: IVec3| coords.contains(p) <==> keys.map(f).contains(p) by {
            if coords.contains(p) {
                lemma_unpack_pack(p);
                assert(keys.contains(pack(p)) && f(pack(p)) == p);
            }
            if keys.map(f).contains(p) {
                let k = choose|k: u128| keys.contains(k) && f(k) == p;
                lemma_pack_unpack(k);
            }
        }
        assert(keys.map(f) =~= coords);
        lemma_map_size(keys, coords, f);
    }

    /// Puts a value at a coordinate and gives back the value that was there.
    pub fn insert(&mut self, p: IVec3, value: V) -> (r: Option<V>)
        ensures
            final(self)@ == old(self)@.insert(p, value),
            r.is_some() == old(self)@.contains_key(p),
            r.is_some() ==> r.unwrap() == old(self)@[p],
    {
        let k = pack_key(p);
        proof {
            use_type_invariant(&*self);
            lemma_unpack_pack(p);
        }
        // The map leaves the table while it changes, so that the table is
        // sound at every step.
        let mut map: HashMap<u128, V> = HashMap::new();
        std::mem::swap(&mut self.map, &mut map);
        let r = map.insert(k, value);
        std::mem::swap(&mut self.map, &mut map);
        proof {
            assert forall|q: IVec3| true implies (pack(q) == pack(p) <==> q == p) by {
                lemma_pack_injective(q, p);
            }
            assert(self@ =~= old(self)@.insert(p, value));
        }
        r
    }

    /// Takes the value at a coordinate out of the table.
    pub fn remove(&mut self, p: IVec3) -> (r: Option<V>)
        ensures
            final(self)@ == old(self)@.remove(p),
            r.is_some() == old(self)@.contains_key(p),
            r.is_some() ==> r.unwrap() == old(self)@[p],
    {
        let k = pack_key(p);
        proof {
            use_type_invariant(&*self);
        }
        let mut map: HashMap<u128, V> = HashMap::new();
        std::mem::swap(&mut self.map, &mut map);
        let r = map.remove(&k);
        std::mem::swap(&mut self.map, &mut map);
        proof {
            assert forall|q: IVec3| true implies (pack(q) == pack(p) <==> q == p) by {
                lemma_pack_injective(q, p);
            }
            assert(self@ =~= old(self)@.remove(p));
        }
        r
    }
}

} // verus!
