//! The metadata model: per-source records, the two derived reverse maps, and
//! the container types that back them.
//!
//! Maps and sets are association vectors with distinct keys; their views are
//! `Map<Seq<char>, _>` and `Set<Seq<char>>`, so contracts are stated over the
//! mathematical contents, never over entry order.

use vstd::prelude::*;

verus! {

/// A set of strings, stored in first-insertion order.
#[derive(Debug)]
pub struct StrSet {
    pub items: Vec<String>,
}

/// The set of character sequences held by `items`.
pub open spec fn strs_set(items: Seq<String>) -> Set<Seq<char>>
    decreases items.len(),
{
    if items.len() == 0 {
        Set::empty()
    } else {
        strs_set(items.drop_last()).insert(items.last()@)
    }
}

/// No two entries hold the same characters.
pub open spec fn distinct_strs(items: Seq<String>) -> bool {
    forall|i: int, j: int| 0 <= i < j < items.len() ==> items[i]@ != items[j]@
}

pub proof fn lemma_strs_set_contains(items: Seq<String>, x: Seq<char>)
    ensures
        strs_set(items).contains(x) <==> exists|i: int| 0 <= i < items.len() && items[i]@ == x,
    decreases items.len(),
{
    if items.len() > 0 {
        lemma_strs_set_contains(items.drop_last(), x);
        if strs_set(items).contains(x) {
            if items.last()@ == x {
                assert(items[items.len() - 1]@ == x);
            } else {
                let i = choose|i: int|
                    0 <= i < items.drop_last().len() && items.drop_last()[i]@ == x;
                assert(items[i]@ == x);
            }
        }
        if exists|i: int| 0 <= i < items.len() && items[i]@ == x {
            let i = choose|i: int| 0 <= i < items.len() && items[i]@ == x;
            if i < items.len() - 1 {
                assert(items.drop_last()[i]@ == x);
            }
        }
    }
}

pub proof fn lemma_strs_set_finite(items: Seq<String>)
    ensures
        strs_set(items).finite(),
    decreases items.len(),
{
    if items.len() > 0 {
        lemma_strs_set_finite(items.drop_last());
    }
}

pub proof fn lemma_strs_set_push(items: Seq<String>, s: String)
    ensures
        strs_set(items.push(s)) == strs_set(items).insert(s@),
{
    assert(items.push(s).drop_last() =~= items);
    assert(items.push(s).last() == s);
}

pub proof fn lemma_strs_set_len(items: Seq<String>)
    requires
        distinct_strs(items),
    ensures
        strs_set(items).finite(),
        strs_set(items).len() == items.len(),
    decreases items.len(),
{
    lemma_strs_set_finite(items);
    if items.len() > 0 {
        assert(distinct_strs(items.drop_last()));
        lemma_strs_set_len(items.drop_last());
        lemma_strs_set_contains(items.drop_last(), items.last()@);
        assert(!strs_set(items.drop_last()).contains(items.last()@));
    }
}

impl View for StrSet {
    type V = Set<Seq<char>>;

    open spec fn view(&self) -> Set<Seq<char>> {
        strs_set(self.items@)
    }
}

impl StrSet {
    pub open spec fn wf(&self) -> bool {
        distinct_strs(self.items@)
    }

    /// The members in insertion order; its set of elements is the view.
    pub open spec fn seq_view(&self) -> Seq<Seq<char>> {
        self.items@.map_values(|s: String| s@)
    }

    pub fn new() -> (r: StrSet)
        ensures
            r@ == Set::<Seq<char>>::empty(),
            r.wf(),
            r.items@.len() == 0,
    {
        StrSet { items: Vec::new() }
    }

    pub fn contains(&self, x: &str) -> (r: bool)
        ensures
            r == self@.contains(x@),
    {
        proof {
            lemma_strs_set_contains(self.items@, x@);
        }
        let n = self.items.len();
        let mut i: usize = 0;
        while i < n
            invariant
                n == self.items@.len(),
                forall|t: int| 0 <= t < i ==> self.items@[t]@ != x@,
            decreases n - i,
        {
            if crate::strutil::str_eq(self.items[i].as_str(), x) {
                proof {
                    lemma_strs_set_contains(self.items@, x@);
                    let t = i as int;
                    assert(0 <= t < self.items@.len() && self.items@[t]@ == x@);
                }
                return true;
            }
            i = i + 1;
        }
        false
    }

    pub fn insert(&mut self, x: String)
        requires
            old(self).wf(),
        ensures
            final(self).wf(),
            final(self)@ == old(self)@.insert(x@),
    {
        proof {
            lemma_strs_set_contains(self.items@, x@);
        }
        if self.contains(x.as_str()) {
            proof {
                assert(self@.insert(x@) =~= self@);
            }
            return ;
        }
        proof {
            lemma_strs_set_push(self.items@, x);
        }
        self.items.push(x);
    }

    /// Union the members of `other` into `self`.
    pub fn extend_with(&mut self, other: &StrSet)
        requires
            old(self).wf(),
        ensures
            final(self).wf(),
            final(self)@ == old(self)@ + other@,
    {
        let n = other.items.len();
        let mut i: usize = 0;
        while i < n
            invariant
                n == other.items@.len(),
                self.wf(),
                i <= n,
                self@ == old(self)@ + strs_set(other.items@.take(i as int)),
            decreases n - i,
        {
            let x = clone_string(&other.items[i]);
            self.insert(x);
            proof {
                assert(other.items@.take(i + 1).drop_last() =~= other.items@.take(i as int));
                assert(other.items@.take(i + 1).last() == other.items@[i as int]);
                assert(self@ =~= old(self)@ + strs_set(other.items@.take(i + 1)));
            }
            i = i + 1;
        }
        proof {
            assert(other.items@.take(n as int) =~= other.items@);
        }
    }

    pub fn len(&self) -> (r: usize)
        requires
            self.wf(),
        ensures
            r == self@.len(),
            self@.finite(),
    {
        proof {
            lemma_strs_set_len(self.items@);
        }
        self.items.len()
    }

    pub fn is_empty(&self) -> (r: bool)
        requires
            self.wf(),
        ensures
            r == (self@ =~= Set::<Seq<char>>::empty()),
    {
        proof {
            lemma_strs_set_len(self.items@);
            if self.items@.len() > 0 {
                lemma_strs_set_contains(self.items@, self.items@[0]@);
                assert(self@.contains(self.items@[0]@));
            }
        }
        self.items.len() == 0
    }

    /// The member at position `i` of the insertion order.
    pub fn item_at(&self, i: usize) -> (r: &String)
        requires
            i < self.items@.len(),
        ensures
            r@ == self.seq_view()[i as int],
            self@.contains(r@),
    {
        proof {
            lemma_strs_set_contains(self.items@, self.items@[i as int]@);
        }
        &self.items[i]
    }

    pub fn item_count(&self) -> (r: usize)
        ensures
            r == self.items@.len(),
            r == self.seq_view().len(),
    {
        self.items.len()
    }
}

/// Clone of a string, pinned to hold the same characters.
pub fn clone_string(s: &String) -> (r: String)
    ensures
        r@ == s@,
{
    s.clone()
}

/// A map from strings to values, stored as parallel vectors with distinct keys.
#[derive(Debug)]
pub struct StrMap<V> {
    pub keys: Vec<String>,
    pub vals: Vec<V>,
}

/// The map held by the parallel vectors, later entries winning.
pub open spec fn kv_map<V: View>(keys: Seq<String>, vals: Seq<V>) -> Map<Seq<char>, V::V>
    decreases keys.len(),
{
    if keys.len() == 0 || vals.len() != keys.len() {
        Map::empty()
    } else {
        kv_map(keys.drop_last(), vals.drop_last()).insert(keys.last()@, vals.last()@)
    }
}

pub proof fn lemma_kv_contains<V: View>(keys: Seq<String>, vals: Seq<V>, k: Seq<char>)
    requires
        keys.len() == vals.len(),
    ensures
        kv_map(keys, vals).contains_key(k) <==> exists|i: int| 0 <= i < keys.len() && keys[i]@
            == k,
    decreases keys.len(),
{
    if keys.len() > 0 {
        lemma_kv_contains(keys.drop_last(), vals.drop_last(), k);
        if kv_map(keys, vals).contains_key(k) {
            if keys.last()@ == k {
                assert(keys[keys.len() - 1]@ == k);
            } else {
                let i = choose|i: int| 0 <= i < keys.len() - 1 && keys.drop_last()[i]@ == k;
                assert(keys[i]@ == k);
            }
        }
        if exists|i: int| 0 <= i < keys.len() && keys[i]@ == k {
            let i = choose|i: int| 0 <= i < keys.len() && keys[i]@ == k;
            if i < keys.len() - 1 {
                assert(keys.drop_last()[i]@ == k);
            }
        }
    }
}

pub proof fn lemma_kv_index<V: View>(keys: Seq<String>, vals: Seq<V>, i: int)
    requires
        keys.len() == vals.len(),
        distinct_strs(keys),
        0 <= i < keys.len(),
    ensures
        kv_map(keys, vals).contains_key(keys[i]@),
        kv_map(keys, vals)[keys[i]@] == vals[i]@,
    decreases keys.len(),
{
    if i == keys.len() - 1 {
    } else {
        assert(distinct_strs(keys.drop_last()));
        assert(keys.drop_last()[i]@ == keys[i]@);
        lemma_kv_index(keys.drop_last(), vals.drop_last(), i);
        assert(keys[i]@ != keys.last()@);
    }
}

pub proof fn lemma_kv_push<V: View>(keys: Seq<String>, vals: Seq<V>, k: String, v: V)
    requires
        keys.len() == vals.len(),
    ensures
        kv_map(keys.push(k), vals.push(v)) == kv_map(keys, vals).insert(k@, v@),
{
    assert(keys.push(k).drop_last() =~= keys);
    assert(vals.push(v).drop_last() =~= vals);
}

pub proof fn lemma_kv_update<V: View>(keys: Seq<String>, vals: Seq<V>, i: int, v: V)
    requires
        keys.len() == vals.len(),
        distinct_strs(keys),
        0 <= i < keys.len(),
    ensures
        kv_map(keys, vals.update(i, v)) == kv_map(keys, vals).insert(keys[i]@, v@),
    decreases keys.len(),
{
    let n = keys.len() as int;
    if i == n - 1 {
        assert(vals.update(i, v).drop_last() =~= vals.drop_last());
        assert(vals.update(i, v).last() == v);
        assert(kv_map(keys.drop_last(), vals.drop_last()).insert(keys.last()@, v@) =~= kv_map(
            keys,
            vals,
        ).insert(keys[i]@, v@));
    } else {
        assert(distinct_strs(keys.drop_last()));
        assert(vals.update(i, v).drop_last() =~= vals.drop_last().update(i, v));
        assert(vals.update(i, v).last() == vals.last());
        lemma_kv_update(keys.drop_last(), vals.drop_last(), i, v);
        assert(keys.drop_last()[i]@ == keys[i]@);
        assert(keys[i]@ != keys.last()@);
        assert(kv_map(keys.drop_last(), vals.drop_last()).insert(keys[i]@, v@).insert(
            keys.last()@,
            vals.last()@,
        ) =~= kv_map(keys.drop_last(), vals.drop_last()).insert(keys.last()@, vals.last()@).insert(
            keys[i]@,
            v@,
        ));
    }
}

impl<V: View> View for StrMap<V> {
    type V = Map<Seq<char>, V::V>;

    open spec fn view(&self) -> Map<Seq<char>, V::V> {
        kv_map(self.keys@, self.vals@)
    }
}

impl<V: View> StrMap<V> {
    pub open spec fn map_wf(&self) -> bool {
        self.keys@.len() == self.vals@.len() && distinct_strs(self.keys@)
    }

    /// The key at each position; entry order is an implementation detail.
    pub open spec fn key_seq(&self) -> Seq<Seq<char>> {
        self.keys@.map_values(|s: String| s@)
    }

    pub fn new() -> (r: StrMap<V>)
        ensures
            r.map_wf(),
            r@ == Map::<Seq<char>, V::V>::empty(),
            r.keys@.len() == 0,
    {
        StrMap { keys: Vec::new(), vals: Vec::new() }
    }

    pub fn find_key(&self, k: &str) -> (r: Option<usize>)
        requires
            self.map_wf(),
        ensures
            match r {
                Some(i) => i < self.keys@.len() && self.keys@[i as int]@ == k@
                    && self@.contains_key(k@),
                None => !self@.contains_key(k@),
            },
    {
        proof {
            lemma_kv_contains(self.keys@, self.vals@, k@);
        }
        let n = self.keys.len();
        let mut i: usize = 0;
        while i < n
            invariant
                self.map_wf(),
                n == self.keys@.len(),
                forall|t: int| 0 <= t < i ==> self.keys@[t]@ != k@,
            decreases n - i,
        {
            if crate::strutil::str_eq(self.keys[i].as_str(), k) {
                proof {
                    lemma_kv_contains(self.keys@, self.vals@, k@);
                    let t = i as int;
                    assert(0 <= t < self.keys@.len() && self.keys@[t]@ == k@);
                }
                return Some(i);
            }
            i = i + 1;
        }
        None
    }

    pub fn contains_key(&self, k: &str) -> (r: bool)
        requires
            self.map_wf(),
        ensures
            r == self@.contains_key(k@),
    {
        self.find_key(k).is_some()
    }

    pub fn get(&self, k: &str) -> (r: Option<&V>)
        requires
            self.map_wf(),
        ensures
            match r {
                Some(v) => self@.contains_key(k@) && v@ == self@[k@] && exists|i: int|
                    0 <= i < self.vals@.len() && *v == self.vals@[i] && self.keys@[i]@ == k@,
                None => !self@.contains_key(k@),
            },
    {
        match self.find_key(k) {
            Some(i) => {
                proof {
                    lemma_kv_index(self.keys@, self.vals@, i as int);
                    assert(0 <= i < self.vals@.len() && self.vals@[i as int] == self.vals@[i as int]
                        && self.keys@[i as int]@ == k@);
                }
                Some(&self.vals[i])
            },
            None => None,
        }
    }

    pub fn insert(&mut self, k: String, v: V)
        requires
            old(self).map_wf(),
        ensures
            final(self).map_wf(),
            final(self)@ == old(self)@.insert(k@, v@),
            old(self)@.contains_key(k@) ==> final(self).keys@ == old(self).keys@ && (exists|i: int|
                0 <= i < old(self).vals@.len() && old(self).keys@[i]@ == k@ && final(self).vals@
                    == old(self).vals@.update(i, v)),
            !old(self)@.contains_key(k@) ==> final(self).keys@ == old(self).keys@.push(k)
                && final(self).vals@ == old(self).vals@.push(v),
    {
        match self.find_key(k.as_str()) {
            Some(i) => {
                proof {
                    lemma_kv_update(self.keys@, self.vals@, i as int, v);
                }
                self.vals[i] = v;
            },
            None => {
                proof {
                    lemma_kv_push(self.keys@, self.vals@, k, v);
                    lemma_kv_contains(self.keys@, self.vals@, k@);
                }
                self.keys.push(k);
                self.vals.push(v);
            },
        }
    }

    /// Number of entries; equals the size of the view's domain.
    pub fn len(&self) -> (r: usize)
        requires
            self.map_wf(),
        ensures
            r == self.keys@.len(),
            r == self@.dom().len(),
            self@.dom().finite(),
    {
        proof {
            lemma_kv_dom_len(self.keys@, self.vals@);
        }
        self.keys.len()
    }

    /// The key at position `i` of the entry order.
    pub fn key_at(&self, i: usize) -> (r: &String)
        requires
            self.map_wf(),
            i < self.keys@.len(),
        ensures
            r@ == self.key_seq()[i as int],
            self@.contains_key(r@),
    {
        proof {
            lemma_kv_contains(self.keys@, self.vals@, self.keys@[i as int]@);
        }
        &self.keys[i]
    }

    /// The value at position `i` of the entry order.
    pub fn val_at(&self, i: usize) -> (r: &V)
        requires
            self.map_wf(),
            i < self.keys@.len(),
        ensures
            *r == self.vals@[i as int],
            r@ == self@[self.key_seq()[i as int]],
            self@.contains_key(self.key_seq()[i as int]),
    {
        proof {
            lemma_kv_index(self.keys@, self.vals@, i as int);
        }
        &self.vals[i]
    }

    /// Remove the entry under `k`, when present.
    pub fn remove(&mut self, k: &str)
        requires
            old(self).map_wf(),
        ensures
            final(self).map_wf(),
            final(self)@ == old(self)@.remove(k@),
    {
        match self.find_key(k) {
            Some(i) => {
                proof {
                    lemma_kv_remove(self.keys@, self.vals@, i as int);
                }
                self.keys.remove(i);
                self.vals.remove(i);
            },
            None => {
                proof {
                    assert(self@.remove(k@) =~= self@);
                }
            },
        }
    }

    /// Mutable access to the entry under `k`, inserting `default_val` first
    /// when the key is absent.
    pub fn entry_mut(&mut self, k: &str, default_val: V) -> (r: &mut V)
        requires
            old(self).map_wf(),
        ensures
            (*r)@ == if old(self)@.contains_key(k@) {
                old(self)@[k@]
            } else {
                default_val@
            },
            !old(self)@.contains_key(k@) ==> *r == default_val,
            final(self).map_wf(),
            final(self)@ == old(self)@.insert(k@, (*final(r))@),
            old(self)@.contains_key(k@) ==> final(self).keys@ == old(self).keys@ && (exists|i: int|
                0 <= i < old(self).vals@.len() && *r == old(self).vals@[i] && final(self).vals@
                    == old(self).vals@.update(i, *final(r))),
            !old(self)@.contains_key(k@) ==> final(self).vals@ == old(self).vals@.push(*final(r)),
    {
        let idx = self.find_key(k);
        match idx {
            Some(i) => {
                proof {
                    lemma_kv_index(self.keys@, self.vals@, i as int);
                    lemma_entry_update(self.keys@, self.vals@, i as int);
                }
                &mut self.vals[i]
            },
            None => {
                let ks = k.to_owned();
                proof {
                    lemma_kv_contains(self.keys@, self.vals@, k@);
                    lemma_entry_push(self.keys@, self.vals@, ks, default_val);
                }
                self.keys.push(ks);
                self.vals.push(default_val);
                let n = self.vals.len() - 1;
                &mut self.vals[n]
            },
        }
    }
}

pub proof fn lemma_entry_update<V: View>(keys: Seq<String>, vals: Seq<V>, i: int)
    requires
        keys.len() == vals.len(),
        distinct_strs(keys),
        0 <= i < keys.len(),
    ensures
        forall|v: V| #[trigger]
            kv_map(keys, vals.update(i, v)) == kv_map(keys, vals).insert(keys[i]@, v@),
{
    assert forall|v: V| #[trigger]
        kv_map(keys, vals.update(i, v)) == kv_map(keys, vals).insert(keys[i]@, v@) by {
        lemma_kv_update(keys, vals, i, v);
    }
}

pub proof fn lemma_entry_push<V: View>(keys: Seq<String>, vals: Seq<V>, kstr: String, dv: V)
    requires
        keys.len() == vals.len(),
        forall|t: int| 0 <= t < keys.len() ==> keys[t]@ != kstr@,
        distinct_strs(keys),
    ensures
        distinct_strs(keys.push(kstr)),
        forall|v: V| #[trigger]
            kv_map(keys.push(kstr), vals.push(dv).update(keys.len() as int, v)) == kv_map(
            keys,
            vals,
        ).insert(kstr@, v@),
{
    assert forall|v: V| #[trigger]
        kv_map(keys.push(kstr), vals.push(dv).update(keys.len() as int, v)) == kv_map(
        keys,
        vals,
    ).insert(kstr@, v@) by {
        assert(vals.push(dv).update(keys.len() as int, v) =~= vals.push(v));
        lemma_kv_push(keys, vals, kstr, v);
    }
}

pub proof fn lemma_kv_remove<V: View>(keys: Seq<String>, vals: Seq<V>, i: int)
    requires
        keys.len() == vals.len(),
        distinct_strs(keys),
        0 <= i < keys.len(),
    ensures
        kv_map(keys.remove(i), vals.remove(i)) == kv_map(keys, vals).remove(keys[i]@),
    decreases keys.len(),
{
    let n = keys.len() as int;
    lemma_kv_contains(keys.drop_last(), vals.drop_last(), keys[i]@);
    if i == n - 1 {
        assert(keys.remove(i) =~= keys.drop_last());
        assert(vals.remove(i) =~= vals.drop_last());
        assert(!kv_map(keys.drop_last(), vals.drop_last()).contains_key(keys[i]@));
        assert(kv_map(keys.drop_last(), vals.drop_last()) =~= kv_map(keys, vals).remove(keys[i]@));
    } else {
        assert(distinct_strs(keys.drop_last()));
        assert(keys.remove(i).drop_last() =~= keys.drop_last().remove(i));
        assert(vals.remove(i).drop_last() =~= vals.drop_last().remove(i));
        assert(keys.remove(i).last() == keys.last());
        assert(vals.remove(i).last() == vals.last());
        assert(keys.drop_last()[i]@ == keys[i]@);
        lemma_kv_remove(keys.drop_last(), vals.drop_last(), i);
        assert(keys.remove(i).len() == n - 1);
        assert(kv_map(keys.remove(i), vals.remove(i)) == kv_map(
            keys.drop_last().remove(i),
            vals.drop_last().remove(i),
        ).insert(keys.last()@, vals.last()@));
        assert(keys[i]@ != keys.last()@);
        assert(kv_map(keys.drop_last(), vals.drop_last()).remove(keys[i]@).insert(
            keys.last()@,
            vals.last()@,
        ) =~= kv_map(keys, vals).remove(keys[i]@));
    }
}

pub proof fn lemma_kv_dom_len<V: View>(keys: Seq<String>, vals: Seq<V>)
    requires
        keys.len() == vals.len(),
        distinct_strs(keys),
    ensures
        kv_map(keys, vals).dom().finite(),
        kv_map(keys, vals).dom().len() == keys.len(),
    decreases keys.len(),
{
    if keys.len() > 0 {
        assert(distinct_strs(keys.drop_last()));
        lemma_kv_dom_len(keys.drop_last(), vals.drop_last());
        lemma_kv_contains(keys.drop_last(), vals.drop_last(), keys.last()@);
        assert(!kv_map(keys.drop_last(), vals.drop_last()).contains_key(keys.last()@));
        assert(kv_map(keys, vals).dom() =~= kv_map(keys.drop_last(), vals.drop_last()).dom().insert(
            keys.last()@,
        ));
    }
}

/// The views of a sequence of strings, in order.
pub open spec fn strs_seq(items: Seq<String>) -> Seq<Seq<char>> {
    items.map_values(|s: String| s@)
}

/// One module parameter: its type text, permission bits and description.
#[derive(Debug)]
pub struct ParamData {
    pub type_: String,
    pub perm: u16,
    pub description: String,
}

pub ghost struct ParamDataV {
    pub type_: Seq<char>,
    pub perm: u16,
    pub description: Seq<char>,
}

impl View for ParamData {
    type V = ParamDataV;

    open spec fn view(&self) -> ParamDataV {
        ParamDataV { type_: self.type_@, perm: self.perm, description: self.description@ }
    }
}

impl ParamData {
    pub open spec fn default_v() -> ParamDataV {
        ParamDataV { type_: Seq::empty(), perm: 0, description: Seq::empty() }
    }
}

impl Default for ParamData {
    fn default() -> (r: Self)
        ensures
            r@ == ParamData::default_v(),
    {
        ParamData { type_: String::new(), perm: 0, description: String::new() }
    }
}

/// Module metadata gathered from `MODULE_*` annotations and `module_param*`
/// declarations.
#[derive(Debug)]
pub struct ModuleData {
    pub authors: Vec<String>,
    pub description: String,
    pub license: String,
    pub aliases: Vec<String>,
    pub params: StrMap<ParamData>,
}

pub ghost struct ModuleDataV {
    pub authors: Seq<Seq<char>>,
    pub description: Seq<char>,
    pub license: Seq<char>,
    pub aliases: Seq<Seq<char>>,
    pub params: Map<Seq<char>, ParamDataV>,
}

impl View for ModuleData {
    type V = ModuleDataV;

    open spec fn view(&self) -> ModuleDataV {
        ModuleDataV {
            authors: strs_seq(self.authors@),
            description: self.description@,
            license: self.license@,
            aliases: strs_seq(self.aliases@),
            params: self.params@,
        }
    }
}

impl ModuleData {
    pub open spec fn wf(&self) -> bool {
        self.params.map_wf()
    }

    pub open spec fn default_v() -> ModuleDataV {
        ModuleDataV {
            authors: Seq::empty(),
            description: Seq::empty(),
            license: Seq::empty(),
            aliases: Seq::empty(),
            params: Map::empty(),
        }
    }

    /// Whether no annotation has touched this record yet.
    pub fn is_empty(&self) -> (r: bool)
        requires
            self.wf(),
        ensures
            r == (self@ == ModuleData::default_v()),
    {
        proof {
            if self.params.keys@.len() > 0 {
                lemma_kv_contains(self.params.keys@, self.params.vals@, self.params.keys@.last()@);
                assert(self.params@.contains_key(self.params.keys@.last()@));
            }
            if self.authors@.len() > 0 {
                assert(strs_seq(self.authors@).len() > 0);
            }
            if self.aliases@.len() > 0 {
                assert(strs_seq(self.aliases@).len() > 0);
            }
            assert(strs_seq(Seq::<String>::empty()) =~= Seq::<Seq<char>>::empty());
            if self.authors@.len() == 0 && self.description@.len() == 0 && self.license@.len() == 0
                && self.aliases@.len() == 0 && self.params.keys@.len() == 0 {
                assert(self@.authors =~= ModuleData::default_v().authors);
                assert(self@.aliases =~= ModuleData::default_v().aliases);
                assert(self@.description =~= ModuleData::default_v().description);
                assert(self@.license =~= ModuleData::default_v().license);
                assert(self@.params =~= ModuleData::default_v().params);
            }
        }
        self.authors.len() == 0 && self.description.as_str().unicode_len() == 0
            && self.license.as_str().unicode_len() == 0 && self.aliases.len() == 0
            && self.params.keys.len() == 0
    }
}

impl Default for ModuleData {
    fn default() -> (r: Self)
        ensures
            r@ == ModuleData::default_v(),
            r.wf(),
    {
        let r = ModuleData {
            authors: Vec::new(),
            description: String::new(),
            license: String::new(),
            aliases: Vec::new(),
            params: StrMap::new(),
        };
        proof {
            assert(r@.authors =~= ModuleData::default_v().authors);
            assert(r@.aliases =~= ModuleData::default_v().aliases);
        }
        r
    }
}

/// Everything recorded about one C source file.
#[derive(Debug)]
pub struct SourceData {
    pub config_opts: StrSet,
    pub compat_strs: StrSet,
    pub module: Option<ModuleData>,
}

pub ghost struct SourceDataV {
    pub config_opts: Set<Seq<char>>,
    pub compat_strs: Set<Seq<char>>,
    pub module: Option<ModuleDataV>,
}

impl View for SourceData {
    type V = SourceDataV;

    open spec fn view(&self) -> SourceDataV {
        SourceDataV {
            config_opts: self.config_opts@,
            compat_strs: self.compat_strs@,
            module: match self.module {
                Some(m) => Some(m@),
                None => None,
            },
        }
    }
}

impl SourceData {
    pub open spec fn wf(&self) -> bool {
        self.config_opts.wf() && self.compat_strs.wf() && match self.module {
            Some(m) => m.wf(),
            None => true,
        }
    }

    pub open spec fn default_v() -> SourceDataV {
        SourceDataV { config_opts: Set::empty(), compat_strs: Set::empty(), module: None }
    }

    /// Union the given option names into this record.
    pub fn add_config_opts(&mut self, config_opts: &StrSet)
        requires
            old(self).wf(),
        ensures
            final(self).wf(),
            final(self)@.config_opts == old(self)@.config_opts + config_opts@,
            final(self)@.compat_strs == old(self)@.compat_strs,
            final(self)@.module == old(self)@.module,
    {
        self.config_opts.extend_with(config_opts);
    }

    /// Union the given compatible strings into this record.
    pub fn add_compat_strs(&mut self, compat_strs: &StrSet)
        requires
            old(self).wf(),
        ensures
            final(self).wf(),
            final(self)@.compat_strs == old(self)@.compat_strs + compat_strs@,
            final(self)@.config_opts == old(self)@.config_opts,
            final(self)@.module == old(self)@.module,
    {
        self.compat_strs.extend_with(compat_strs);
    }
}

impl Default for SourceData {
    fn default() -> (r: Self)
        ensures
            r@ == SourceData::default_v(),
            r.wf(),
    {
        SourceData { config_opts: StrSet::new(), compat_strs: StrSet::new(), module: None }
    }
}

/// The set of source paths that mention one configuration option.
#[derive(Debug)]
pub struct ConfigOptData {
    pub sources: StrSet,
}

impl View for ConfigOptData {
    type V = Set<Seq<char>>;

    open spec fn view(&self) -> Set<Seq<char>> {
        self.sources@
    }
}

impl ConfigOptData {
    pub open spec fn wf(&self) -> bool {
        self.sources.wf()
    }

    /// Add one source path.
    pub fn add_source(&mut self, source: String)
        requires
            old(self).wf(),
        ensures
            final(self).wf(),
            final(self)@ == old(self)@.insert(source@),
    {
        self.sources.insert(source);
    }
}

impl Default for ConfigOptData {
    fn default() -> (r: Self)
        ensures
            r@ == Set::<Seq<char>>::empty(),
            r.wf(),
    {
        ConfigOptData { sources: StrSet::new() }
    }
}

/// The source path that claims one compatible string; the last writer wins.
#[derive(Debug)]
pub struct CompatStrData {
    pub source: String,
}

impl View for CompatStrData {
    type V = Seq<char>;

    open spec fn view(&self) -> Seq<char> {
        self.source@
    }
}

impl CompatStrData {
    /// Replace the associated source path.
    pub fn set_source(&mut self, source: String)
        ensures
            final(self)@ == source@,
    {
        self.source = source;
    }
}

impl Default for CompatStrData {
    fn default() -> (r: Self)
        ensures
            r@ == Seq::<char>::empty(),
    {
        CompatStrData { source: String::new() }
    }
}

/// The whole index: the authoritative per-source map and the two reverse maps
/// derived from it.
#[derive(Debug)]
pub struct MetaData {
    pub sources: StrMap<SourceData>,
    pub config_opts: StrMap<ConfigOptData>,
    pub compat_strs: StrMap<CompatStrData>,
}

pub ghost struct MetaDataV {
    pub sources: Map<Seq<char>, SourceDataV>,
    pub config_opts: Map<Seq<char>, Set<Seq<char>>>,
    pub compat_strs: Map<Seq<char>, Seq<char>>,
}

impl View for MetaData {
    type V = MetaDataV;

    open spec fn view(&self) -> MetaDataV {
        MetaDataV {
            sources: self.sources@,
            config_opts: self.config_opts@,
            compat_strs: self.compat_strs@,
        }
    }
}

/// The reverse option map links `opt` to `src`.
pub open spec fn opt_link(m: MetaDataV, opt: Seq<char>, src: Seq<char>) -> bool {
    m.config_opts.contains_key(opt) && m.config_opts[opt].contains(src)
}

/// The record of `src` mentions `opt`.
pub open spec fn src_has_opt(m: MetaDataV, opt: Seq<char>, src: Seq<char>) -> bool {
    m.sources.contains_key(src) && m.sources[src].config_opts.contains(opt)
}

/// The record of `src` claims `cs`.
pub open spec fn src_has_compat(m: MetaDataV, cs: Seq<char>, src: Seq<char>) -> bool {
    m.sources.contains_key(src) && m.sources[src].compat_strs.contains(cs)
}

/// The compat entry for `cs` points at a source whose record claims `cs`.
pub open spec fn compat_entry_ok(m: MetaDataV, cs: Seq<char>) -> bool {
    m.sources.contains_key(m.compat_strs[cs]) && m.sources[m.compat_strs[cs]].compat_strs.contains(
        cs,
    )
}

/// The two reverse maps agree exactly with the authoritative source map:
/// an option links to a source if and only if that source's record mentions
/// the option, an option has an entry only when some record mentions it,
/// every compat entry points at a source claiming the string, and every
/// claimed string has an entry.
pub open spec fn derived_consistent(m: MetaDataV) -> bool {
    &&& forall|opt: Seq<char>, src: Seq<char>|
        #![trigger opt_link(m, opt, src)]
        #![trigger src_has_opt(m, opt, src)]
        opt_link(m, opt, src) <==> src_has_opt(m, opt, src)
    &&& forall|opt: Seq<char>| #[trigger]
        m.config_opts.contains_key(opt) ==> exists|src: Seq<char>| src_has_opt(m, opt, src)
    &&& forall|cs: Seq<char>| #[trigger]
        m.compat_strs.contains_key(cs) ==> compat_entry_ok(m, cs)
    &&& forall|cs: Seq<char>, src: Seq<char>| #[trigger]
        src_has_compat(m, cs, src) ==> m.compat_strs.contains_key(cs)
}

impl MetaData {
    pub open spec fn wf(&self) -> bool {
        &&& self.sources.map_wf()
        &&& self.config_opts.map_wf()
        &&& self.compat_strs.map_wf()
        &&& forall|i: int|
            0 <= i < self.sources.vals@.len() ==> (#[trigger] self.sources.vals@[i]).wf()
        &&& forall|i: int|
            0 <= i < self.config_opts.vals@.len() ==> (#[trigger] self.config_opts.vals@[i]).wf()
    }

    /// The record of a source path, when one exists.
    pub fn source(&self, source: &str) -> (r: Option<&SourceData>)
        requires
            self.wf(),
        ensures
            match r {
                Some(v) => self@.sources.contains_key(source@) && v@ == self@.sources[source@]
                    && v.wf(),
                None => !self@.sources.contains_key(source@),
            },
    {
        let r = self.sources.get(source);
        match r {
            Some(v) => {
                proof {
                    let i = choose|i: int|
                        0 <= i < self.sources.vals@.len() && *v == self.sources.vals@[i]
                            && self.sources.keys@[i]@ == source@;
                    assert(self.sources.vals@[i].wf());
                }
                Some(v)
            },
            None => None,
        }
    }

    /// Mutable record of a source path, default-inserting when absent.
    pub fn source_mut(&mut self, source: &str) -> (r: &mut SourceData)
        requires
            old(self).wf(),
        ensures
            (*r)@ == if old(self)@.sources.contains_key(source@) {
                old(self)@.sources[source@]
            } else {
                SourceData::default_v()
            },
            (*r).wf(),
            final(self)@.sources == old(self)@.sources.insert(source@, (*final(r))@),
            final(self)@.config_opts == old(self)@.config_opts,
            final(self)@.compat_strs == old(self)@.compat_strs,
            (*final(r)).wf() ==> final(self).wf(),
    {
        let r = self.sources.entry_mut(source, SourceData::default());
        r
    }

    /// The data of a configuration option, when one exists.
    pub fn config_opt(&self, config_opt: &str) -> (r: Option<&ConfigOptData>)
        requires
            self.wf(),
        ensures
            match r {
                Some(v) => self@.config_opts.contains_key(config_opt@) && v@
                    == self@.config_opts[config_opt@] && v.wf(),
                None => !self@.config_opts.contains_key(config_opt@),
            },
    {
        let r = self.config_opts.get(config_opt);
        match r {
            Some(v) => {
                proof {
                    let i = choose|i: int|
                        0 <= i < self.config_opts.vals@.len() && *v == self.config_opts.vals@[i]
                            && self.config_opts.keys@[i]@ == config_opt@;
                    assert(self.config_opts.vals@[i].wf());
                }
                Some(v)
            },
            None => None,
        }
    }

    /// Mutable data of a configuration option, default-inserting when absent.
    pub fn config_opt_mut(&mut self, config_opt: &str) -> (r: &mut ConfigOptData)
        requires
            old(self).wf(),
        ensures
            (*r)@ == if old(self)@.config_opts.contains_key(config_opt@) {
                old(self)@.config_opts[config_opt@]
            } else {
                Set::<Seq<char>>::empty()
            },
            (*r).wf(),
            final(self)@.config_opts == old(self)@.config_opts.insert(config_opt@, (*final(r))@),
            final(self)@.sources == old(self)@.sources,
            final(self)@.compat_strs == old(self)@.compat_strs,
            (*final(r)).wf() ==> final(self).wf(),
    {
        self.config_opts.entry_mut(config_opt, ConfigOptData::default())
    }

    /// The data of a compatible string, when one exists.
    pub fn compat_str(&self, compat_str: &str) -> (r: Option<&CompatStrData>)
        requires
            self.wf(),
        ensures
            match r {
                Some(v) => self@.compat_strs.contains_key(compat_str@) && v@
                    == self@.compat_strs[compat_str@],
                None => !self@.compat_strs.contains_key(compat_str@),
            },
    {
        self.compat_strs.get(compat_str)
    }

    /// Mutable data of a compatible string, default-inserting when absent.
    pub fn compat_str_mut(&mut self, compat_str: &str) -> (r: &mut CompatStrData)
        requires
            old(self).wf(),
        ensures
            (*r)@ == if old(self)@.compat_strs.contains_key(compat_str@) {
                old(self)@.compat_strs[compat_str@]
            } else {
                Seq::<char>::empty()
            },
            final(self)@.compat_strs == old(self)@.compat_strs.insert(compat_str@, (*final(r))@),
            final(self)@.sources == old(self)@.sources,
            final(self)@.config_opts == old(self)@.config_opts,
            final(self).wf(),
    {
        self.compat_strs.entry_mut(compat_str, CompatStrData::default())
    }
}

impl Default for MetaData {
    fn default() -> (r: Self)
        ensures
            r@.sources == Map::<Seq<char>, SourceDataV>::empty(),
            r@.config_opts == Map::<Seq<char>, Set<Seq<char>>>::empty(),
            r@.compat_strs == Map::<Seq<char>, Seq<char>>::empty(),
            r.wf(),
    {
        MetaData { sources: StrMap::new(), config_opts: StrMap::new(), compat_strs: StrMap::new() }
    }
}

/// The reverse option map `om` links `opt` to `src`.
pub open spec fn omap_link(om: Map<Seq<char>, Set<Seq<char>>>, opt: Seq<char>, src: Seq<char>) -> bool {
    om.contains_key(opt) && om[opt].contains(src)
}

/// Some source among the first `bound` entries is `src` and mentions `opt`.
pub open spec fn prefix_has_opt(
    keys: Seq<String>,
    vals: Seq<SourceData>,
    bound: int,
    opt: Seq<char>,
    src: Seq<char>,
) -> bool {
    exists|t: int| 0 <= t < bound && keys[t]@ == src && vals[t]@.config_opts.contains(opt)
}

/// Some source among the first `bound` entries claims `cs`.
pub open spec fn prefix_has_compat(
    keys: Seq<String>,
    vals: Seq<SourceData>,
    bound: int,
    cs: Seq<char>,
) -> bool {
    exists|t: int| 0 <= t < bound && vals[t]@.compat_strs.contains(cs)
}

/// `stored` is a source among the first `bound` entries whose record claims `cs`.
pub open spec fn prefix_compat_entry(
    keys: Seq<String>,
    vals: Seq<SourceData>,
    bound: int,
    cs: Seq<char>,
    stored: Seq<char>,
) -> bool {
    exists|t: int| 0 <= t < bound && keys[t]@ == stored && vals[t]@.compat_strs.contains(cs)
}

/// One of the first `j` items equals `x`.
pub open spec fn items_prefix_has(items: Seq<String>, j: int, x: Seq<char>) -> bool {
    exists|u: int| 0 <= u < j && items[u]@ == x
}

/// The path of the last source among the first `bound` entries whose record
/// claims `cs`; empty when none does.
pub open spec fn last_claimant(
    keys: Seq<String>,
    vals: Seq<SourceData>,
    bound: int,
    cs: Seq<char>,
) -> Seq<char>
    decreases bound,
{
    if !(0 < bound && bound <= keys.len() && vals.len() == keys.len()) {
        Seq::empty()
    } else if vals[bound - 1]@.compat_strs.contains(cs) {
        keys[bound - 1]@
    } else {
        last_claimant(keys, vals, bound - 1, cs)
    }
}

/// The derived maps are a function of the source map: any two stores that
/// satisfy the derivation contract over the same sources — with compat
/// entries pinned to the same entry order — hold identical reverse maps.
/// With it, re-deriving over an unchanged source map provably changes
/// nothing, and two runs over equal stores agree.
pub proof fn lemma_derived_maps_unique(
    m1: MetaDataV,
    m2: MetaDataV,
    keys: Seq<String>,
    vals: Seq<SourceData>,
)
    requires
        derived_consistent(m1),
        derived_consistent(m2),
        m1.sources == m2.sources,
        forall|cs: Seq<char>| #[trigger]
            m1.compat_strs.contains_key(cs) ==> m1.compat_strs[cs] == last_claimant(
                keys,
                vals,
                keys.len() as int,
                cs,
            ),
        forall|cs: Seq<char>| #[trigger]
            m2.compat_strs.contains_key(cs) ==> m2.compat_strs[cs] == last_claimant(
                keys,
                vals,
                keys.len() as int,
                cs,
            ),
    ensures
        m1.config_opts == m2.config_opts,
        m1.compat_strs == m2.compat_strs,
{
    assert forall|opt: Seq<char>|
        m1.config_opts.contains_key(opt) == m2.config_opts.contains_key(opt) by {
        if m1.config_opts.contains_key(opt) {
            let src = choose|src: Seq<char>| src_has_opt(m1, opt, src);
            assert(src_has_opt(m2, opt, src));
            assert(opt_link(m2, opt, src));
        }
        if m2.config_opts.contains_key(opt) {
            let src = choose|src: Seq<char>| src_has_opt(m2, opt, src);
            assert(src_has_opt(m1, opt, src));
            assert(opt_link(m1, opt, src));
        }
    }
    assert forall|opt: Seq<char>|
        m1.config_opts.contains_key(opt) implies m1.config_opts[opt] == m2.config_opts[opt] by {
        assert forall|src: Seq<char>|
            m1.config_opts[opt].contains(src) == m2.config_opts[opt].contains(src) by {
            assert(m1.config_opts[opt].contains(src) == opt_link(m1, opt, src));
            assert(m2.config_opts[opt].contains(src) == opt_link(m2, opt, src));
            assert(opt_link(m1, opt, src) == src_has_opt(m1, opt, src));
            assert(opt_link(m2, opt, src) == src_has_opt(m2, opt, src));
        }
        assert(m1.config_opts[opt] =~= m2.config_opts[opt]);
    }
    assert(m1.config_opts =~= m2.config_opts);
    assert forall|cs: Seq<char>|
        m1.compat_strs.contains_key(cs) == m2.compat_strs.contains_key(cs) by {
        if m1.compat_strs.contains_key(cs) {
            assert(compat_entry_ok(m1, cs));
            assert(src_has_compat(m2, cs, m1.compat_strs[cs]));
        }
        if m2.compat_strs.contains_key(cs) {
            assert(compat_entry_ok(m2, cs));
            assert(src_has_compat(m1, cs, m2.compat_strs[cs]));
        }
    }
    assert(m1.compat_strs =~= m2.compat_strs);
}

impl MetaData {
    /// Rebuild the two reverse maps from the authoritative source map.
    ///
    /// Afterwards an option links to a source exactly when that source's
    /// record mentions the option, every compatible string claimed by a
    /// record has an entry, and each entry stores the last source in entry
    /// order that claims the string — the deterministic form of the
    /// last-writer-wins limitation.
    pub fn sync_with_sources(&mut self)
        requires
            old(self).wf(),
        ensures
            final(self).wf(),
            final(self)@.sources == old(self)@.sources,
            derived_consistent(final(self)@),
            forall|cs: Seq<char>| #[trigger]
                final(self)@.compat_strs.contains_key(cs) ==> final(self)@.compat_strs[cs]
                    == last_claimant(
                    old(self).sources.keys@,
                    old(self).sources.vals@,
                    old(self).sources.keys@.len() as int,
                    cs,
                ),
    {
        let ghost keys = self.sources.keys@;
        let ghost vals = self.sources.vals@;
        let mut opts: StrMap<ConfigOptData> = StrMap::new();
        let mut compats: StrMap<CompatStrData> = StrMap::new();
        let n = self.sources.len();
        let mut i: usize = 0;
        while i < n
            invariant
                *self == *old(self),
                self.wf(),
                keys == self.sources.keys@,
                vals == self.sources.vals@,
                n == keys.len(),
                i <= n,
                opts.map_wf(),
                compats.map_wf(),
                forall|t: int| 0 <= t < opts.vals@.len() ==> (#[trigger] opts.vals@[t]).wf(),
                forall|opt: Seq<char>, src: Seq<char>|
                    #![trigger omap_link(opts@, opt, src)]
                    #![trigger prefix_has_opt(keys, vals, i as int, opt, src)]
                    omap_link(opts@, opt, src) <==> prefix_has_opt(keys, vals, i as int, opt, src),
                forall|opt: Seq<char>| #[trigger]
                    opts@.contains_key(opt) ==> exists|src: Seq<char>| omap_link(opts@, opt, src),
                forall|cs: Seq<char>|
                    #![trigger compats@.contains_key(cs)]
                    #![trigger prefix_has_compat(keys, vals, i as int, cs)]
                    compats@.contains_key(cs) <==> prefix_has_compat(keys, vals, i as int, cs),
                forall|cs: Seq<char>| #[trigger]
                    compats@.contains_key(cs) ==> prefix_compat_entry(
                        keys,
                        vals,
                        i as int,
                        cs,
                        compats@[cs],
                    ),
                forall|cs: Seq<char>| #[trigger]
                    compats@.contains_key(cs) ==> compats@[cs] == last_claimant(
                        keys,
                        vals,
                        i as int,
                        cs,
                    ),
            decreases n - i,
        {
            let path = clone_string(self.sources.key_at(i));
            let m1 = self.sources.val_at(i).config_opts.item_count();
            let mut j: usize = 0;
            while j < m1
                invariant
                    *self == *old(self),
                    self.wf(),
                    keys == self.sources.keys@,
                    vals == self.sources.vals@,
                    n == keys.len(),
                    i < n,
                    path@ == keys[i as int]@,
                    m1 == vals[i as int].config_opts.items@.len(),
                    j <= m1,
                    opts.map_wf(),
                    compats.map_wf(),
                    forall|t: int| 0 <= t < opts.vals@.len() ==> (#[trigger] opts.vals@[t]).wf(),
                    forall|opt: Seq<char>, src: Seq<char>|
                        #![trigger omap_link(opts@, opt, src)]
                        #![trigger prefix_has_opt(keys, vals, i as int, opt, src)]
                        omap_link(opts@, opt, src) <==> (prefix_has_opt(
                            keys,
                            vals,
                            i as int,
                            opt,
                            src,
                        ) || (src == keys[i as int]@ && items_prefix_has(
                            vals[i as int].config_opts.items@,
                            j as int,
                            opt,
                        ))),
                    forall|opt: Seq<char>| #[trigger]
                        opts@.contains_key(opt) ==> exists|src: Seq<char>| omap_link(
                            opts@,
                            opt,
                            src,
                        ),
                    forall|cs: Seq<char>|
                        #![trigger compats@.contains_key(cs)]
                        #![trigger prefix_has_compat(keys, vals, i as int, cs)]
                        compats@.contains_key(cs) <==> prefix_has_compat(keys, vals, i as int, cs),
                    forall|cs: Seq<char>| #[trigger]
                        compats@.contains_key(cs) ==> prefix_compat_entry(
                            keys,
                            vals,
                            i as int,
                            cs,
                            compats@[cs],
                        ),
                    forall|cs: Seq<char>| #[trigger]
                        compats@.contains_key(cs) ==> compats@[cs] == last_claimant(
                            keys,
                            vals,
                            i as int,
                            cs,
                        ),
                decreases m1 - j,
            {
                let ghost items = vals[i as int].config_opts.items@;
                let ghost opts_before = opts@;
                let opt_name = clone_string(self.sources.val_at(i).config_opts.item_at(j));
                let e = opts.entry_mut(opt_name.as_str(), ConfigOptData::default());
                e.add_source(clone_string(&path));
                proof {
                    assert(opts@ == opts_before.insert(
                        opt_name@,
                        (if opts_before.contains_key(opt_name@) {
                            opts_before[opt_name@]
                        } else {
                            Set::<Seq<char>>::empty()
                        }).insert(path@),
                    ));
                    assert forall|opt: Seq<char>, src: Seq<char>|
                        omap_link(opts@, opt, src) <==> (omap_link(opts_before, opt, src) || (opt
                            == opt_name@ && src == path@)) by {
                        if opt == opt_name@ {
                            assert(opts@[opt] == (if opts_before.contains_key(opt_name@) {
                                opts_before[opt_name@]
                            } else {
                                Set::<Seq<char>>::empty()
                            }).insert(path@));
                        } else {
                            assert(opts@.contains_key(opt) == opts_before.contains_key(opt));
                            if opts_before.contains_key(opt) {
                                assert(opts@[opt] == opts_before[opt]);
                            }
                        }
                    }
                    assert(opt_name@ == items[j as int]@);
                    assert forall|opt: Seq<char>, src: Seq<char>|
                        omap_link(opts@, opt, src) <==> (prefix_has_opt(
                            keys,
                            vals,
                            i as int,
                            opt,
                            src,
                        ) || (src == keys[i as int]@ && items_prefix_has(
                            items,
                            j + 1,
                            opt,
                        ))) by {
                        if omap_link(opts@, opt, src) {
                            if omap_link(opts_before, opt, src) {
                                if !prefix_has_opt(keys, vals, i as int, opt, src) {
                                    let u = choose|u: int|
                                        0 <= u < j && items[u]@ == opt;
                                    assert(0 <= u < j + 1 && items[u]@ == opt);
                                }
                            } else {
                                assert(opt == opt_name@ && src == path@);
                                assert(0 <= j < j + 1 && items[j as int]@ == opt);
                            }
                        }
                        if prefix_has_opt(keys, vals, i as int, opt, src) {
                            assert(omap_link(opts_before, opt, src));
                        }
                        if src == keys[i as int]@ && items_prefix_has(items, j + 1, opt) {
                            let u = choose|u: int| 0 <= u < j + 1 && items[u]@ == opt;
                            if u < j {
                                assert(items_prefix_has(items, j as int, opt));
                                assert(omap_link(opts_before, opt, src));
                            } else {
                                assert(opt == opt_name@ && src == path@);
                            }
                        }
                    }
                    assert forall|opt_x: Seq<char>|
                        opts@.contains_key(opt_x) implies exists|src_x: Seq<char>| omap_link(
                        opts@,
                        opt_x,
                        src_x,
                    ) by {
                        if opt_x == opt_name@ {
                            assert(omap_link(opts@, opt_x, path@));
                        } else {
                            assert(opts_before.contains_key(opt_x));
                            let src_b = choose|src_b: Seq<char>|
                                omap_link(opts_before, opt_x, src_b);
                            assert(opts@[opt_x] == opts_before[opt_x]);
                            assert(omap_link(opts@, opt_x, src_b));
                        }
                    }
                }
                j = j + 1;
            }
            proof {
                assert forall|opt: Seq<char>, src: Seq<char>|
                    omap_link(opts@, opt, src) <==> (prefix_has_opt(keys, vals, i as int, opt, src)
                        || (src == keys[i as int]@ && vals[i as int]@.config_opts.contains(
                        opt,
                    ))) by {
                    lemma_strs_set_contains(vals[i as int].config_opts.items@, opt);
                }
            }
            let m2 = self.sources.val_at(i).compat_strs.item_count();
            let mut j2: usize = 0;
            while j2 < m2
                invariant
                    *self == *old(self),
                    self.wf(),
                    keys == self.sources.keys@,
                    vals == self.sources.vals@,
                    n == keys.len(),
                    i < n,
                    path@ == keys[i as int]@,
                    m2 == vals[i as int].compat_strs.items@.len(),
                    j2 <= m2,
                    opts.map_wf(),
                    compats.map_wf(),
                    forall|t: int| 0 <= t < opts.vals@.len() ==> (#[trigger] opts.vals@[t]).wf(),
                    forall|opt: Seq<char>, src: Seq<char>|
                        #![trigger omap_link(opts@, opt, src)]
                        #![trigger prefix_has_opt(keys, vals, i as int, opt, src)]
                        omap_link(opts@, opt, src) <==> (prefix_has_opt(
                            keys,
                            vals,
                            i as int,
                            opt,
                            src,
                        ) || (src == keys[i as int]@ && vals[i as int]@.config_opts.contains(opt))),
                    forall|opt: Seq<char>| #[trigger]
                        opts@.contains_key(opt) ==> exists|src: Seq<char>| omap_link(
                            opts@,
                            opt,
                            src,
                        ),
                    forall|cs: Seq<char>|
                        #![trigger compats@.contains_key(cs)]
                        #![trigger prefix_has_compat(keys, vals, i as int, cs)]
                        compats@.contains_key(cs) <==> (prefix_has_compat(keys, vals, i as int, cs)
                            || items_prefix_has(vals[i as int].compat_strs.items@, j2 as int, cs)),
                    forall|cs: Seq<char>| #[trigger]
                        compats@.contains_key(cs) ==> (prefix_compat_entry(
                            keys,
                            vals,
                            i as int,
                            cs,
                            compats@[cs],
                        ) || (compats@[cs] == keys[i as int]@
                            && vals[i as int]@.compat_strs.contains(cs))),
                    forall|cs: Seq<char>| #[trigger]
                        compats@.contains_key(cs) ==> compats@[cs] == (if items_prefix_has(
                            vals[i as int].compat_strs.items@,
                            j2 as int,
                            cs,
                        ) {
                            keys[i as int]@
                        } else {
                            last_claimant(keys, vals, i as int, cs)
                        }),
                decreases m2 - j2,
            {
                let ghost items = vals[i as int].compat_strs.items@;
                let ghost compats_before = compats@;
                let cs_name = clone_string(self.sources.val_at(i).compat_strs.item_at(j2));
                let entry = CompatStrData { source: clone_string(&path) };
                compats.insert(clone_string(&cs_name), entry);
                proof {
                    assert(compats@ == compats_before.insert(cs_name@, path@));
                    assert(cs_name@ == items[j2 as int]@);
                    lemma_strs_set_contains(items, cs_name@);
                    assert(vals[i as int]@.compat_strs.contains(cs_name@));
                    assert forall|cs: Seq<char>|
                        compats@.contains_key(cs) <==> (prefix_has_compat(
                            keys,
                            vals,
                            i as int,
                            cs,
                        ) || items_prefix_has(items, j2 + 1, cs)) by {
                        if compats@.contains_key(cs) {
                            if cs == cs_name@ {
                                assert(0 <= j2 < j2 + 1 && items[j2 as int]@ == cs);
                            } else {
                                assert(compats_before.contains_key(cs));
                                if !prefix_has_compat(keys, vals, i as int, cs) {
                                    let u = choose|u: int| 0 <= u < j2 && items[u]@ == cs;
                                    assert(0 <= u < j2 + 1 && items[u]@ == cs);
                                }
                            }
                        }
                        if prefix_has_compat(keys, vals, i as int, cs) {
                            assert(compats_before.contains_key(cs));
                        }
                        if items_prefix_has(items, j2 + 1, cs) {
                            let u = choose|u: int| 0 <= u < j2 + 1 && items[u]@ == cs;
                            if u < j2 {
                                assert(items_prefix_has(items, j2 as int, cs));
                                assert(compats_before.contains_key(cs));
                            } else {
                                assert(cs == cs_name@);
                            }
                        }
                    }
                    assert forall|cs: Seq<char>|
                        compats@.contains_key(cs) implies (prefix_compat_entry(
                            keys,
                            vals,
                            i as int,
                            cs,
                            compats@[cs],
                        ) || (compats@[cs] == keys[i as int]@
                            && vals[i as int]@.compat_strs.contains(cs))) by {
                        if cs == cs_name@ {
                            assert(compats@[cs] == path@);
                        } else {
                            assert(compats_before.contains_key(cs));
                            assert(compats@[cs] == compats_before[cs]);
                        }
                    }
                    assert forall|cs: Seq<char>|
                        compats@.contains_key(cs) implies compats@[cs] == (if items_prefix_has(
                        items,
                        j2 + 1,
                        cs,
                    ) {
                        keys[i as int]@
                    } else {
                        last_claimant(keys, vals, i as int, cs)
                    }) by {
                        if cs == cs_name@ {
                            assert(compats@[cs] == path@);
                            assert(0 <= j2 < j2 + 1 && items[j2 as int]@ == cs);
                            assert(items_prefix_has(items, j2 + 1, cs));
                        } else {
                            assert(compats_before.contains_key(cs));
                            assert(compats@[cs] == compats_before[cs]);
                            if items_prefix_has(items, j2 + 1, cs) {
                                let u = choose|u: int| 0 <= u < j2 + 1 && items[u]@ == cs;
                                assert(u < j2);
                                assert(items_prefix_has(items, j2 as int, cs));
                            }
                            if items_prefix_has(items, j2 as int, cs) {
                                let u = choose|u: int| 0 <= u < j2 && items[u]@ == cs;
                                assert(0 <= u < j2 + 1 && items[u]@ == cs);
                            }
                        }
                    }
                }
                j2 = j2 + 1;
            }
            proof {
                let ghost oitems = vals[i as int].config_opts.items@;
                let ghost citems = vals[i as int].compat_strs.items@;
                assert forall|opt: Seq<char>, src: Seq<char>|
                    omap_link(opts@, opt, src) <==> prefix_has_opt(
                        keys,
                        vals,
                        i + 1,
                        opt,
                        src,
                    ) by {
                    if omap_link(opts@, opt, src) {
                        if prefix_has_opt(keys, vals, i as int, opt, src) {
                            let t = choose|t: int|
                                0 <= t < i && keys[t]@ == src && vals[t]@.config_opts.contains(
                                    opt,
                                );
                            assert(0 <= t < i + 1 && keys[t]@ == src
                                && vals[t]@.config_opts.contains(opt));
                        } else {
                            assert(0 <= i < i + 1 && keys[i as int]@ == src
                                && vals[i as int]@.config_opts.contains(opt));
                        }
                    }
                    if prefix_has_opt(keys, vals, i + 1, opt, src) {
                        let t = choose|t: int|
                            0 <= t < i + 1 && keys[t]@ == src && vals[t]@.config_opts.contains(
                                opt,
                            );
                        if t < i {
                            assert(prefix_has_opt(keys, vals, i as int, opt, src));
                        } else {
                            assert(src == keys[i as int]@ && vals[i as int]@.config_opts.contains(
                                opt,
                            ));
                        }
                    }
                }
                assert forall|cs: Seq<char>|
                    compats@.contains_key(cs) <==> prefix_has_compat(keys, vals, i + 1, cs) by {
                    lemma_strs_set_contains(citems, cs);
                    if compats@.contains_key(cs) {
                        if prefix_has_compat(keys, vals, i as int, cs) {
                            let t = choose|t: int|
                                0 <= t < i && vals[t]@.compat_strs.contains(cs);
                            assert(0 <= t < i + 1 && vals[t]@.compat_strs.contains(cs));
                        } else {
                            assert(0 <= i < i + 1 && vals[i as int]@.compat_strs.contains(cs));
                        }
                    }
                    if prefix_has_compat(keys, vals, i + 1, cs) {
                        let t = choose|t: int| 0 <= t < i + 1 && vals[t]@.compat_strs.contains(cs);
                        if t < i {
                            assert(prefix_has_compat(keys, vals, i as int, cs));
                        }
                    }
                }
                assert forall|cs: Seq<char>|
                    compats@.contains_key(cs) implies compats@[cs] == last_claimant(
                    keys,
                    vals,
                    i + 1,
                    cs,
                ) by {
                    lemma_strs_set_contains(citems, cs);
                    if vals[i as int]@.compat_strs.contains(cs) {
                        let u = choose|u: int| 0 <= u < citems.len() && citems[u]@ == cs;
                        assert(items_prefix_has(citems, citems.len() as int, cs));
                        assert(compats@[cs] == keys[i as int]@);
                        assert(last_claimant(keys, vals, i + 1, cs) == keys[i as int]@);
                    } else {
                        if items_prefix_has(citems, citems.len() as int, cs) {
                            let u = choose|u: int|
                                0 <= u < citems.len() && citems[u]@ == cs;
                            assert(vals[i as int]@.compat_strs.contains(cs));
                        }
                        assert(compats@[cs] == last_claimant(keys, vals, i as int, cs));
                        assert(last_claimant(keys, vals, i + 1, cs) == last_claimant(
                            keys,
                            vals,
                            i as int,
                            cs,
                        ));
                    }
                }
                assert forall|cs: Seq<char>|
                    compats@.contains_key(cs) implies prefix_compat_entry(
                        keys,
                        vals,
                        i + 1,
                        cs,
                        compats@[cs],
                    ) by {
                    if prefix_compat_entry(keys, vals, i as int, cs, compats@[cs]) {
                        let t = choose|t: int|
                            0 <= t < i && keys[t]@ == compats@[cs] && vals[t]@.compat_strs.contains(
                                cs,
                            );
                        assert(0 <= t < i + 1 && keys[t]@ == compats@[cs]
                            && vals[t]@.compat_strs.contains(cs));
                    } else {
                        assert(0 <= i < i + 1 && keys[i as int]@ == compats@[cs]
                            && vals[i as int]@.compat_strs.contains(cs));
                    }
                }
            }
            i = i + 1;
        }
        proof {
            assert forall|opt: Seq<char>, src: Seq<char>|
                omap_link(opts@, opt, src) <==> (self.sources@.contains_key(src)
                    && self.sources@[src].config_opts.contains(opt)) by {
                lemma_kv_contains(keys, vals, src);
                if omap_link(opts@, opt, src) {
                    let t = choose|t: int|
                        0 <= t < n && keys[t]@ == src && vals[t]@.config_opts.contains(opt);
                    lemma_kv_index(keys, vals, t);
                }
                if self.sources@.contains_key(src) && self.sources@[src].config_opts.contains(
                    opt,
                ) {
                    let t = choose|t: int| 0 <= t < keys.len() && keys[t]@ == src;
                    lemma_kv_index(keys, vals, t);
                    assert(0 <= t < n && keys[t]@ == src && vals[t]@.config_opts.contains(opt));
                }
            }
            assert forall|cs: Seq<char>|
                compats@.contains_key(cs) implies (self.sources@.contains_key(compats@[cs])
                    && self.sources@[compats@[cs]].compat_strs.contains(cs)) by {
                let stored = compats@[cs];
                let t = choose|t: int|
                    0 <= t < n && keys[t]@ == stored && vals[t]@.compat_strs.contains(cs);
                lemma_kv_contains(keys, vals, stored);
                lemma_kv_index(keys, vals, t);
            }
            assert forall|cs: Seq<char>, src: Seq<char>|
                (self.sources@.contains_key(src) && self.sources@[src].compat_strs.contains(
                    cs,
                )) implies compats@.contains_key(cs) by {
                lemma_kv_contains(keys, vals, src);
                let t = choose|t: int| 0 <= t < keys.len() && keys[t]@ == src;
                lemma_kv_index(keys, vals, t);
                assert(0 <= t < n && vals[t]@.compat_strs.contains(cs));
            }
        }
        self.config_opts = opts;
        self.compat_strs = compats;
        proof {
            assert forall|opt: Seq<char>, src: Seq<char>|
                opt_link(self@, opt, src) <==> src_has_opt(self@, opt, src) by {
                assert(opt_link(self@, opt, src) == omap_link(self@.config_opts, opt, src));
            }
            assert forall|opt: Seq<char>|
                self@.config_opts.contains_key(opt) implies exists|src: Seq<char>| src_has_opt(
                self@,
                opt,
                src,
            ) by {
                let src_w = choose|src_w: Seq<char>| omap_link(self@.config_opts, opt, src_w);
                assert(omap_link(self@.config_opts, opt, src_w));
                assert(opt_link(self@, opt, src_w));
                assert(src_has_opt(self@, opt, src_w));
            }
            assert forall|cs: Seq<char>| #[trigger]
                self@.compat_strs.contains_key(cs) implies compat_entry_ok(self@, cs) by {}
            assert forall|cs: Seq<char>, src: Seq<char>| #[trigger]
                src_has_compat(self@, cs, src) implies self@.compat_strs.contains_key(cs) by {}
        }
    }
}

} // verus!
