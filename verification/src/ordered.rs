//! A map from names to values, kept in the order of the names.
use crate::text::{
    name_before, name_lt, name_lt_irreflexive, name_lt_total, name_lt_transitive, same_text,
};
use vstd::prelude::*;
use vstd::string::*;

verus! {

/// Whether names stand in strictly increasing order.
pub open spec fn strictly_sorted(names: Seq<Seq<char>>) -> bool {
    forall|i: int, j: int| 0 <= i < j < names.len() ==> name_lt(#[trigger] names[i], #[trigger] names[j])
}

/// In a sorted sequence a name stands once.
pub proof fn sorted_names_are_distinct(names: Seq<Seq<char>>)
    requires
        strictly_sorted(names),
    ensures
        names.no_duplicates(),
{
    assert forall|i: int, j: int| 0 <= i < names.len() && 0 <= j < names.len() && i != j implies
        names[i] != names[j] by {
        name_lt_irreflexive(names[i]);
        if i < j {
            assert(name_lt(names[i], names[j]));
        } else {
            assert(name_lt(names[j], names[i]));
        }
    }
}

/// A sorted sequence is determined by the names it holds.
pub proof fn sorted_names_are_unique(a: Seq<Seq<char>>, b: Seq<Seq<char>>)
    requires
        strictly_sorted(a),
        strictly_sorted(b),
        a.to_set() == b.to_set(),
    ensures
        a == b,
    decreases a.len(),
{
    if a.len() == 0 {
        if b.len() > 0 {
            assert(b.to_set().contains(b[0]));
            assert(!a.to_set().contains(b[0]));
        }
        assert(a =~= b);
    } else {
        assert(a.to_set().contains(a[0]));
        assert(b.contains(a[0]));
        assert(b.to_set().contains(b[0]));
        assert(a.contains(b[0]));
        let i = choose|i: int| 0 <= i < b.len() && b[i] == a[0];
        let j = choose|j: int| 0 <= j < a.len() && a[j] == b[0];
        if i > 0 && j > 0 {
            assert(name_lt(b[0], b[i]));
            assert(name_lt(a[0], a[j]));
            name_lt_transitive(a[0], b[0], a[0]);
            name_lt_irreflexive(a[0]);
        }
        assert(a[0] == b[0]);
        let x = a.skip(1);
        let y = b.skip(1);
        assert(strictly_sorted(x)) by {
            assert forall|p: int, q: int| 0 <= p < q < x.len() implies name_lt(
                #[trigger] x[p],
                #[trigger] x[q],
            ) by {
                assert(name_lt(a[p + 1], a[q + 1]));
            }
        }
        assert(strictly_sorted(y)) by {
            assert forall|p: int, q: int| 0 <= p < q < y.len() implies name_lt(
                #[trigger] y[p],
                #[trigger] y[q],
            ) by {
                assert(name_lt(b[p + 1], b[q + 1]));
            }
        }
        sorted_names_are_distinct(a);
        sorted_names_are_distinct(b);
        assert forall|n: Seq<char>| x.to_set().contains(n) == y.to_set().contains(n) by {
            if x.contains(n) {
                let p = choose|p: int| 0 <= p < x.len() && x[p] == n;
                assert(a[p + 1] == n);
                assert(a.to_set().contains(n));
                assert(b.contains(n));
                let q = choose|q: int| 0 <= q < b.len() && b[q] == n;
                assert(q != 0);
                assert(y[q - 1] == n);
            }
            if y.contains(n) {
                let p = choose|p: int| 0 <= p < y.len() && y[p] == n;
                assert(b[p + 1] == n);
                assert(b.to_set().contains(n));
                assert(a.contains(n));
                let q = choose|q: int| 0 <= q < a.len() && a[q] == n;
                assert(q != 0);
                assert(x[q - 1] == n);
            }
        }
        assert(x.to_set() =~= y.to_set());
        sorted_names_are_unique(x, y);
        assert(a =~= seq![a[0]] + x);
        assert(b =~= seq![b[0]] + y);
    }
}

/// The names of a set, in order.
pub open spec fn in_order(names: Set<Seq<char>>) -> Seq<Seq<char>> {
    choose|s: Seq<Seq<char>>| strictly_sorted(s) && s.to_set() == names
}

/// A sorted sequence is its own order.
pub proof fn sorted_is_in_order(s: Seq<Seq<char>>)
    requires
        strictly_sorted(s),
    ensures
        in_order(s.to_set()) == s,
{
    let t = in_order(s.to_set());
    assert(strictly_sorted(t) && t.to_set() == s.to_set());
    sorted_names_are_unique(s, t);
}

/// A sorted sequence with one more name at its place.
spec fn with_name(names: Seq<Seq<char>>, name: Seq<char>) -> Seq<Seq<char>>
    decreases names.len(),
{
    if names.len() == 0 || name_lt(names.last(), name) {
        names.push(name)
    } else {
        with_name(names.drop_last(), name).push(names.last())
    }
}

proof fn with_name_is_sorted(names: Seq<Seq<char>>, name: Seq<char>)
    requires
        strictly_sorted(names),
        !names.contains(name),
    ensures
        strictly_sorted(with_name(names, name)),
        with_name(names, name).to_set() == names.to_set().insert(name),
    decreases names.len(),
{
    let r = with_name(names, name);
    if names.len() == 0 || name_lt(names.last(), name) {
        assert forall|i: int, j: int| 0 <= i < j < r.len() implies name_lt(
            #[trigger] r[i],
            #[trigger] r[j],
        ) by {
            if j == names.len() && i < names.len() - 1 {
                assert(name_lt(names[i], names.last()));
                name_lt_transitive(names[i], names.last(), name);
            }
        }
        assert forall|n: Seq<char>| r.to_set().contains(n) == names.to_set().insert(name).contains(
            n,
        ) by {
            if names.contains(n) {
                let k = choose|k: int| 0 <= k < names.len() && names[k] == n;
                assert(r[k] == n);
            }
            if n == name {
                assert(r[names.len() as int] == n);
            }
            if r.contains(n) && n != name {
                let k = choose|k: int| 0 <= k < r.len() && r[k] == n;
                assert(names[k] == n);
            }
        }
    } else {
        let front = names.drop_last();
        let last = names.last();
        assert(names.contains(last));
        name_lt_total(last, name);
        assert forall|i: int, j: int| 0 <= i < j < front.len() implies name_lt(
            #[trigger] front[i],
            #[trigger] front[j],
        ) by {
            assert(name_lt(names[i], names[j]));
        }
        assert(!front.contains(name)) by {
            if front.contains(name) {
                let k = choose|k: int| 0 <= k < front.len() && front[k] == name;
                assert(names[k] == name);
            }
        }
        with_name_is_sorted(front, name);
        let w = with_name(front, name);
        assert forall|i: int, j: int| 0 <= i < j < r.len() implies name_lt(
            #[trigger] r[i],
            #[trigger] r[j],
        ) by {
            if j == w.len() {
                assert(w.contains(w[i]));
                assert(w.to_set().contains(w[i]));
                if w[i] != name {
                    assert(front.contains(w[i]));
                    let k = choose|k: int| 0 <= k < front.len() && front[k] == w[i];
                    assert(name_lt(names[k], names[names.len() - 1]));
                }
            }
        }
        assert forall|n: Seq<char>| r.to_set().contains(n) == names.to_set().insert(name).contains(
            n,
        ) by {
            if r.contains(n) {
                let k = choose|k: int| 0 <= k < r.len() && r[k] == n;
                if k < w.len() {
                    assert(w.to_set().contains(n));
                    if n != name {
                        let q = choose|q: int| 0 <= q < front.len() && front[q] == n;
                        assert(names[q] == n);
                    }
                }
            }
            if names.contains(n) {
                let k = choose|k: int| 0 <= k < names.len() && names[k] == n;
                if k < front.len() {
                    assert(front[k] == n);
                    assert(w.to_set().contains(n));
                    let q = choose|q: int| 0 <= q < w.len() && w[q] == n;
                    assert(r[q] == n);
                } else {
                    assert(r[w.len() as int] == n);
                }
            }
            if n == name {
                assert(w.to_set().contains(n));
                let q = choose|q: int| 0 <= q < w.len() && w[q] == n;
                assert(r[q] == n);
            }
        }
    }
    assert(r.to_set() =~= names.to_set().insert(name));
}

/// Every finite set of names has an order: its names, sorted, each once.
pub proof fn order_exists(names: Set<Seq<char>>)
    requires
        names.finite(),
    ensures
        strictly_sorted(in_order(names)),
        in_order(names).to_set() == names,
        in_order(names).no_duplicates(),
        in_order(names).len() == names.len(),
    decreases names.len(),
{
    if names.len() == 0 {
        let s = Seq::<Seq<char>>::empty();
        assert(names =~= Set::empty());
        assert(s.to_set() =~= names);
        assert(strictly_sorted(s) && s.to_set() == names);
    } else {
        let name = names.choose();
        let rest = names.remove(name);
        order_exists(rest);
        let s = in_order(rest);
        assert(!s.contains(name)) by {
            if s.contains(name) {
                assert(s.to_set().contains(name));
            }
        }
        with_name_is_sorted(s, name);
        let t = with_name(s, name);
        assert(rest.insert(name) =~= names);
        assert(strictly_sorted(t) && t.to_set() == names);
    }
    let chosen = in_order(names);
    assert(strictly_sorted(chosen) && chosen.to_set() == names);
    sorted_names_are_distinct(chosen);
    chosen.unique_seq_to_set();
}

/// The characters of each string of a sequence.
pub open spec fn name_seq(v: Seq<String>) -> Seq<Seq<char>> {
    Seq::new(v.len(), |i: int| v[i]@)
}

/// The map that gives each name the value at its position.
pub open spec fn paired<V>(names: Seq<Seq<char>>, values: Seq<V>) -> Map<Seq<char>, V> {
    Map::new(|n: Seq<char>| names.contains(n), |n: Seq<char>| values[names.index_of(n)])
}

/// The keys of sorted names paired with values.
proof fn paired_keys<V>(names: Seq<Seq<char>>, values: Seq<V>)
    requires
        strictly_sorted(names),
    ensures
        names.no_duplicates(),
        names.to_set() == paired(names, values).dom(),
        paired(names, values).dom().finite(),
        paired(names, values).dom().len() == names.len(),
        forall|i: int|
            0 <= i < names.len() ==> paired(names, values).contains_key(#[trigger] names[i])
                && paired(names, values)[names[i]] == values[i],
{
    sorted_names_are_distinct(names);
    assert(names.to_set() =~= paired(names, values).dom());
    names.unique_seq_to_set();
    assert forall|i: int| 0 <= i < names.len() implies paired(names, values).contains_key(
        #[trigger] names[i],
    ) && paired(names, values)[names[i]] == values[i] by {
        assert(names.contains(names[i]));
        assert(names.index_of(names[i]) == i);
    }
}

/// A map from names to values that lists its names in order.
#[derive(Debug, PartialEq, Eq)]
pub struct NameMap<V> {
    names: Vec<String>,
    values: Vec<V>,
}

impl<V> NameMap<V> {
    /// Names and values correspond, and the names are sorted.
    #[verifier::type_invariant]
    closed spec fn well_formed(self) -> bool {
        self.names@.len() == self.values@.len() && strictly_sorted(name_seq(self.names@))
    }

    /// The names, in order.
    pub closed spec fn order(self) -> Seq<Seq<char>> {
        name_seq(self.names@)
    }
}

impl<V> View for NameMap<V> {
    type V = Map<Seq<char>, V>;

    closed spec fn view(&self) -> Map<Seq<char>, V> {
        paired(self.order(), self.values@)
    }
}

impl<V> NameMap<V> {
    /// A map that holds nothing.
    pub fn new() -> (r: Self)
        ensures
            r@ == Map::<Seq<char>, V>::empty(),
    {
        let r = NameMap { names: Vec::new(), values: Vec::new() };
        assert(r@ =~= Map::empty());
        r
    }

    /// The number of names.
    pub fn len(&self) -> (n: usize)
        ensures
            n == self.order().len(),
            n == self@.dom().len(),
            self@.dom().finite(),
            strictly_sorted(self.order()),
            self.order().no_duplicates(),
            self.order().to_set() == self@.dom(),
            self.order() == in_order(self@.dom()),
    {
        proof {
            use_type_invariant(self);
            paired_keys(self.order(), self.values@);
            sorted_is_in_order(self.order());
        }
        self.names.len()
    }

    /// The name at position `i`.
    pub fn name_at(&self, i: usize) -> (r: &String)
        requires
            i < self.order().len(),
        ensures
            r@ == self.order()[i as int],
            self@.contains_key(r@),
    {
        proof {
            use_type_invariant(self);
            paired_keys(self.order(), self.values@);
        }
        &self.names[i]
    }

    /// The value at position `i`.
    pub fn value_at(&self, i: usize) -> (r: &V)
        requires
            i < self.order().len(),
        ensures
            *r == self@[self.order()[i as int]],
    {
        proof {
            use_type_invariant(self);
            paired_keys(self.order(), self.values@);
        }
        &self.values[i]
    }

    /// The first position whose name does not come before `name`.
    fn position(&self, name: &str) -> (i: usize)
        ensures
            i <= self.order().len(),
            forall|k: int| 0 <= k < i ==> name_lt(#[trigger] self.order()[k], name@),
            i < self.order().len() ==> !name_lt(self.order()[i as int], name@),
    {
        let mut i: usize = 0;
        while i < self.names.len() && name_before(self.names[i].as_str(), name)
            invariant
                i <= self.order().len(),
                self.order() == name_seq(self.names@),
                forall|k: int| 0 <= k < i ==> name_lt(#[trigger] self.order()[k], name@),
            decreases self.order().len() - i,
        {
            i += 1;
        }
        i
    }

    /// The value of `name`, if it has one.
    pub fn get(&self, name: &str) -> (r: Option<&V>)
        ensures
            match r {
                Some(v) => self@.contains_key(name@) && *v == self@[name@],
                None => !self@.contains_key(name@),
            },
    {
        proof {
            use_type_invariant(self);
            paired_keys(self.order(), self.values@);
        }
        let i: usize = self.position(name);
        if i < self.names.len() && same_text(self.names[i].as_str(), name) {
            return Some(&self.values[i]);
        }
        proof {
            if self.order().contains(name@) {
                let k = choose|k: int| 0 <= k < self.order().len() && self.order()[k] == name@;
                name_lt_irreflexive(name@);
                assert(k >= i);
                if k > i {
                    assert(name_lt(self.order()[i as int], self.order()[k]));
                }
            }
        }
        None
    }

    /// Whether `name` has a value.
    pub fn contains_key(&self, name: &str) -> (b: bool)
        ensures
            b == self@.contains_key(name@),
    {
        match self.get(name) {
            Some(_) => true,
            None => false,
        }
    }

    /// Gives `name` the value `value`.
    pub fn insert(&mut self, name: String, value: V)
        ensures
            final(self)@ == old(self)@.insert(name@, value),
    {
        proof {
            use_type_invariant(&*self);
            paired_keys(self.order(), self.values@);
        }
        let ghost names = self.order();
        let ghost values = self.values@;
        let ghost before = self@;
        let i: usize = self.position(name.as_str());
        let ghost key = name@;
        let len: usize = self.names.len();
        let mut taken = NameMap::new();
        std::mem::swap(self, &mut taken);
        let NameMap { names: mut new_names, values: mut new_values } = taken;
        if i < len && same_text(new_names[i].as_str(), name.as_str()) {
            new_values.set(i, value);
            let r = NameMap { names: new_names, values: new_values };
            *self = r;
            proof {
                assert(self.order() =~= names);
                paired_keys(names, self.values@);
                assert(names[i as int] == key);
                assert forall|n: Seq<char>| #[trigger] self@.contains_key(n) implies self@[n]
                    == before.insert(key, value)[n] by {
                    let k = choose|k: int| 0 <= k < names.len() && names[k] == n;
                    assert(self@[names[k]] == self.values@[k]);
                    assert(before[names[k]] == values[k]);
                }
                assert(self@ =~= before.insert(key, value));
            }
        } else {
            new_names.insert(i, name);
            new_values.insert(i, value);
            proof {
                let order = name_seq(new_names@);
                assert(order =~= names.insert(i as int, key));
                assert forall|k: int| i <= k < names.len() implies name_lt(
                    key,
                    #[trigger] names[k],
                ) by {
                    name_lt_total(names[i as int], key);
                    if k > i {
                        name_lt_transitive(key, names[i as int], names[k]);
                    }
                }
                assert(strictly_sorted(order));
            }
            let r = NameMap { names: new_names, values: new_values };
            *self = r;
            proof {
                let order = self.order();
                assert(order =~= names.insert(i as int, key));
                paired_keys(order, self.values@);
                assert forall|k: int| 0 <= k < order.len() implies self@[#[trigger] order[k]]
                    == before.insert(key, value)[order[k]] && before.insert(
                    key,
                    value,
                ).contains_key(order[k]) by {
                    if k != i {
                        let old_k = if k < i {
                            k
                        } else {
                            k - 1
                        };
                        assert(names[old_k] == order[k]);
                        assert(names.contains(names[old_k]));
                        assert(names.index_of(names[old_k]) == old_k);
                        assert(order[i as int] == key);
                        assert(order[k] != key);
                    }
                }
                assert forall|n: Seq<char>| before.insert(key, value).contains_key(n) implies
                    self@.contains_key(n) by {
                    if n == key {
                        assert(order[i as int] == key);
                    } else {
                        let k = choose|k: int| 0 <= k < names.len() && names[k] == n;
                        if k < i {
                            assert(order[k] == n);
                        } else {
                            assert(order[k + 1] == n);
                        }
                    }
                }
                assert forall|n: Seq<char>| #[trigger] self@.contains_key(n) implies self@[n]
                    == before.insert(key, value)[n] && before.insert(key, value).contains_key(
                    n,
                ) by {
                    let k = choose|k: int| 0 <= k < order.len() && order[k] == n;
                    assert(self@[order[k]] == before.insert(key, value)[order[k]]);
                }
                assert(self@ =~= before.insert(key, value));
            }
        }
    }
}

impl<V: Clone> Clone for NameMap<V> {
    fn clone(&self) -> (r: Self)
        ensures
            r.order() == self.order(),
            r@.dom() == self@.dom(),
            forall|n: Seq<char>| #[trigger]
                self@.contains_key(n) ==> cloned(self@[n], r@[n]),
    {
        proof {
            use_type_invariant(self);
            paired_keys(self.order(), self.values@);
        }
        let names = self.names.clone();
        let values = self.values.clone();
        assert(name_seq(names@) =~= name_seq(self.names@));
        let r = NameMap { names, values };
        assert(r@.dom() =~= self@.dom());
        assert forall|n: Seq<char>| #[trigger] self@.contains_key(n) implies cloned(
            self@[n],
            r@[n],
        ) by {
            let i = self.order().index_of(n);
            assert(cloned(self.values@[i], r.values@[i]));
        }
        r
    }
}

impl NameMap<bool> {
    /// A copy of the map.
    pub fn duplicate(&self) -> (r: Self)
        ensures
            r@ == self@,
            r.order() == self.order(),
    {
        proof {
            use_type_invariant(self);
        }
        let names = self.names.clone();
        let values = self.values.clone();
        assert(name_seq(names@) =~= name_seq(self.names@));
        assert(values@ =~= self.values@);
        NameMap { names, values }
    }
}

impl<V> Default for NameMap<V> {
    fn default() -> (r: Self)
        ensures
            r@ == Map::<Seq<char>, V>::empty(),
    {
        NameMap::new()
    }
}

/// Whether two maps give the same names the same values.
pub fn same_values(a: &NameMap<bool>, b: &NameMap<bool>) -> (r: bool)
    ensures
        r == (a@ == b@),
{
    if a.len() != b.len() {
        return false;
    }
    let mut i: usize = 0;
    while i < a.len()
        invariant
            i <= a.order().len(),
            forall|k: int|
                0 <= k < i ==> b@.contains_key(#[trigger] a.order()[k]) && b@[a.order()[k]]
                    == a@[a.order()[k]],
        decreases a.order().len() - i,
    {
        let name = a.name_at(i);
        match b.get(name.as_str()) {
            Some(v) => if *v != *a.value_at(i) {
                return false;
            },
            None => return false,
        }
        i += 1;
    }
    proof {
        assert(a@.dom().subset_of(b@.dom())) by {
            assert forall|n: Seq<char>| a@.dom().contains(n) implies b@.dom().contains(n) by {
                assert(a.order().to_set().contains(n));
                let k = choose|k: int| 0 <= k < a.order().len() && a.order()[k] == n;
                assert(b@.contains_key(a.order()[k]));
            }
        }
        vstd::set_lib::lemma_subset_equality(a@.dom(), b@.dom());
        assert forall|n: Seq<char>| a@.contains_key(n) implies a@[n] == b@[n] by {
            assert(a.order().to_set().contains(n));
            let k = choose|k: int| 0 <= k < a.order().len() && a.order()[k] == n;
            assert(b@.contains_key(a.order()[k]));
        }
        assert(a@ =~= b@);
    }
    true
}

} // verus!
