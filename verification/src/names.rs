//! Names and collections keyed by name.
//!
//! Names are ordered as strings are: lexicographically by their UTF-8
//! bytes. [`NameMap`] keeps its entries in that order with no name twice,
//! so walking it visits the names in sorted order.

use vstd::prelude::*;
use vstd::utf8::encode_utf8;
use vstd::utf8::encode_utf8_decode_utf8;

verus! {

/// `a` and `b` agree on their first `k` bytes, and at position `k` either
/// `a` has ended while `b` goes on, or `a` holds the smaller byte.
pub open spec fn less_at(a: Seq<u8>, b: Seq<u8>, k: int) -> bool {
    &&& 0 <= k <= a.len()
    &&& k < b.len()
    &&& forall|i: int| 0 <= i < k ==> a[i] == b[i]
    &&& k < a.len() ==> a[k] < b[k]
}

/// Lexicographic order on byte strings.
pub open spec fn bytes_lt(a: Seq<u8>, b: Seq<u8>) -> bool {
    exists|k: int| less_at(a, b, k)
}

/// The order of names: that of their UTF-8 encodings.
pub open spec fn name_lt(a: Seq<char>, b: Seq<char>) -> bool {
    bytes_lt(encode_utf8(a), encode_utf8(b))
}

/// Each name is below every later one.
pub open spec fn sorted(names: Seq<Seq<char>>) -> bool {
    forall|i: int, j: int| 0 <= i < j < names.len() ==> name_lt(names[i], names[j])
}

/// The byte order is transitive.
pub proof fn lemma_bytes_lt_transitive(a: Seq<u8>, b: Seq<u8>, c: Seq<u8>)
    requires
        bytes_lt(a, b),
        bytes_lt(b, c),
    ensures
        bytes_lt(a, c),
{
    let k1 = choose|k: int| less_at(a, b, k);
    let k2 = choose|k: int| less_at(b, c, k);
    let k = if k1 <= k2 { k1 } else { k2 };
    assert(less_at(a, c, k));
}

/// Of two byte strings one is below the other, or they are equal.
pub proof fn lemma_bytes_lt_total(a: Seq<u8>, b: Seq<u8>)
    ensures
        bytes_lt(a, b) || bytes_lt(b, a) || a == b,
    decreases a.len(),
{
    if a =~= b {
    } else {
        lemma_first_difference(a, b, 0);
    }
}

/// Two different byte strings that agree on their first `k` bytes are in
/// order one way or the other.
proof fn lemma_first_difference(a: Seq<u8>, b: Seq<u8>, k: int)
    requires
        0 <= k <= a.len(),
        k <= b.len(),
        forall|i: int| 0 <= i < k ==> a[i] == b[i],
        a != b,
    ensures
        bytes_lt(a, b) || bytes_lt(b, a),
    decreases a.len() - k,
{
    if k == a.len() {
        if k == b.len() {
            assert(a =~= b);
        } else {
            assert(less_at(a, b, k));
        }
    } else if k == b.len() {
        assert(less_at(b, a, k));
    } else if a[k] < b[k] {
        assert(less_at(a, b, k));
    } else if b[k] < a[k] {
        assert(less_at(b, a, k));
    } else {
        lemma_first_difference(a, b, k + 1);
    }
}

/// A name is never below itself, so two names in order differ.
pub proof fn lemma_name_lt_irreflexive(a: Seq<char>)
    ensures
        !name_lt(a, a),
{
}

/// Of two names in order the second is not below the first, and they differ.
pub proof fn lemma_name_lt_asymmetric(a: Seq<char>, b: Seq<char>)
    requires
        name_lt(a, b),
    ensures
        !name_lt(b, a),
        a != b,
{
    if name_lt(b, a) {
        lemma_bytes_lt_transitive(encode_utf8(a), encode_utf8(b), encode_utf8(a));
    }
}

/// The order of names is transitive.
pub proof fn lemma_name_lt_transitive(a: Seq<char>, b: Seq<char>, c: Seq<char>)
    requires
        name_lt(a, b),
        name_lt(b, c),
    ensures
        name_lt(a, c),
{
    lemma_bytes_lt_transitive(encode_utf8(a), encode_utf8(b), encode_utf8(c));
}

/// Two different names are in order one way or the other.
pub proof fn lemma_name_lt_total(a: Seq<char>, b: Seq<char>)
    ensures
        name_lt(a, b) || name_lt(b, a) || a == b,
{
    lemma_bytes_lt_total(encode_utf8(a), encode_utf8(b));
    if encode_utf8(a) == encode_utf8(b) {
        encode_utf8_decode_utf8(a);
        encode_utf8_decode_utf8(b);
    }
}

/// A sorted sequence of names holds no name twice.
pub proof fn lemma_sorted_distinct(names: Seq<Seq<char>>)
    requires
        sorted(names),
    ensures
        forall|i: int, j: int| 0 <= i < names.len() && 0 <= j < names.len() && i != j ==> names[i] != names[j],
{
    assert forall|i: int, j: int| 0 <= i < names.len() && 0 <= j < names.len() && i != j implies names[i] != names[j] by {
        if i < j {
            assert(name_lt(names[i], names[j]));
        } else {
            assert(name_lt(names[j], names[i]));
        }
    }
}

/// How two names stand to each other.
#[derive(Clone, Copy, Debug, PartialEq, Eq, Structural)]
pub enum NameOrder {
    Before,
    Same,
    After,
}

/// Compares two names byte by byte.
pub fn name_order(a: &str, b: &str) -> (r: NameOrder)
    ensures
        r == NameOrder::Before <==> name_lt(a@, b@),
        r == NameOrder::Same <==> a@ == b@,
        r == NameOrder::After <==> name_lt(b@, a@),
{
    let x = a.as_bytes();
    let y = b.as_bytes();
    let ghost xs = encode_utf8(a@);
    let ghost ys = encode_utf8(b@);
    let mut i: usize = 0;
    while i < x.len() && i < y.len()
        invariant
            x@ == xs,
            y@ == ys,
            xs == encode_utf8(a@),
            ys == encode_utf8(b@),
            i <= xs.len(),
            i <= ys.len(),
            forall|k: int| 0 <= k < i ==> xs[k] == ys[k],
        decreases xs.len() - i,
    {
        if x[i] < y[i] {
            proof {
                assert(less_at(xs, ys, i as int));
                lemma_name_lt_asymmetric(a@, b@);
            }
            return NameOrder::Before;
        }
        if y[i] < x[i] {
            proof {
                assert(less_at(ys, xs, i as int));
                lemma_name_lt_asymmetric(b@, a@);
            }
            return NameOrder::After;
        }
        i += 1;
    }
    if i < y.len() {
        proof {
            assert(less_at(xs, ys, i as int));
            lemma_name_lt_asymmetric(a@, b@);
        }
        NameOrder::Before
    } else if i < x.len() {
        proof {
            assert(less_at(ys, xs, i as int));
            lemma_name_lt_asymmetric(b@, a@);
        }
        NameOrder::After
    } else {
        proof {
            assert(xs =~= ys);
            encode_utf8_decode_utf8(a@);
            encode_utf8_decode_utf8(b@);
            lemma_name_lt_irreflexive(a@);
        }
        NameOrder::Same
    }
}

/// One entry of a [`NameMap`].
#[derive(Debug, PartialEq)]
pub struct Entry<V> {
    pub name: String,
    pub value: V,
}

/// A map from names to values, kept sorted by name.
#[derive(Debug, PartialEq)]
pub struct NameMap<V> {
    pub(crate) entries: Vec<Entry<V>>,
}

impl<V> NameMap<V> {
    /// The names are sorted, so none occurs twice.
    #[verifier::type_invariant]
    pub open(crate) spec fn well_formed(&self) -> bool {
        sorted(self.names())
    }

    /// The names, in order.
    pub open(crate) spec fn names(&self) -> Seq<Seq<char>> {
        Seq::new(self.entries@.len(), |i: int| self.entries@[i].name@)
    }

    /// The values, in the order of their names.
    pub open(crate) spec fn values(&self) -> Seq<V> {
        Seq::new(self.entries@.len(), |i: int| self.entries@[i].value)
    }

    /// Where `name` stands among the names, if it is there.
    pub open spec fn spec_find(&self, name: Seq<char>) -> Option<int> {
        if self.names().contains(name) {
            Some(self.names().index_of(name))
        } else {
            None
        }
    }

    /// The value under `name`, if there is one.
    pub open spec fn spec_get(&self, name: Seq<char>) -> Option<V> {
        lookup(self.names(), self.values(), name)
    }

    /// The empty map.
    pub fn new() -> (m: Self)
        ensures
            m.names() == Seq::<Seq<char>>::empty(),
            m.values() == Seq::<V>::empty(),
    {
        let m = NameMap { entries: Vec::new() };
        assert(m.names() =~= Seq::<Seq<char>>::empty());
        assert(m.values() =~= Seq::<V>::empty());
        m
    }

    /// The number of entries.
    pub fn len(&self) -> (n: usize)
        ensures
            n == self.names().len(),
            n == self.values().len(),
            sorted(self.names()),
    {
        proof {
            use_type_invariant(self);
        }
        self.entries.len()
    }

    /// The name of entry `i`.
    pub fn name_at(&self, i: usize) -> (name: &String)
        requires
            i < self.names().len(),
        ensures
            name@ == self.names()[i as int],
    {
        &self.entries[i].name
    }

    /// The value of entry `i`.
    pub fn value_at(&self, i: usize) -> (value: &V)
        requires
            i < self.values().len(),
        ensures
            *value == self.values()[i as int],
    {
        &self.entries[i].value
    }

    /// The index of the first entry whose name is not below `name`, and
    /// whether that entry's name is `name` itself. Found by halving the
    /// range in which the index can lie.
    fn lower_bound(&self, name: &str) -> (r: (usize, bool))
        ensures
            r.0 <= self.names().len(),
            forall|k: int| 0 <= k < r.0 ==> name_lt(self.names()[k], name@),
            r.1 ==> r.0 < self.names().len() && self.names()[r.0 as int] == name@,
            !r.1 ==> forall|k: int| r.0 <= k < self.names().len() ==> name_lt(name@, self.names()[k]),
    {
        proof {
            use_type_invariant(self);
        }
        let mut low: usize = 0;
        let mut high: usize = self.entries.len();
        while low < high
            invariant
                low <= high <= self.entries@.len(),
                sorted(self.names()),
                forall|k: int| 0 <= k < low ==> name_lt(self.names()[k], name@),
                forall|k: int| high <= k < self.names().len() ==> name_lt(name@, self.names()[k]),
            decreases high - low,
        {
            let middle: usize = low + (high - low) / 2;
            match name_order(self.entries[middle].name.as_str(), name) {
                NameOrder::Before => {
                    assert forall|k: int| 0 <= k < middle + 1 implies name_lt(self.names()[k], name@) by {
                        if k < middle {
                            lemma_name_lt_transitive(self.names()[k], self.names()[middle as int], name@);
                        }
                    }
                    low = middle + 1;
                },
                NameOrder::Same => {
                    assert forall|k: int| 0 <= k < middle implies name_lt(self.names()[k], name@) by {
                        assert(name_lt(self.names()[k], self.names()[middle as int]));
                    }
                    return (middle, true);
                },
                NameOrder::After => {
                    assert forall|k: int| middle <= k < self.names().len() implies name_lt(
                        name@,
                        self.names()[k],
                    ) by {
                        if k > middle {
                            lemma_name_lt_transitive(name@, self.names()[middle as int], self.names()[k]);
                        }
                    }
                    high = middle;
                },
            }
        }
        (low, false)
    }

    /// Looks a name up.
    pub fn find(&self, name: &str) -> (r: Option<usize>)
        ensures
            r matches Some(i) ==> i < self.names().len() && self.names()[i as int] == name@,
            r is None ==> !self.names().contains(name@),
            self.spec_find(name@) == (match r {
                Some(i) => Some(i as int),
                None => None,
            }),
    {
        let (i, found) = self.lower_bound(name);
        proof {
            use_type_invariant(self);
            lemma_sorted_distinct(self.names());
            if !found {
                assert forall|k: int| 0 <= k < self.names().len() implies self.names()[k] != name@ by {
                    lemma_name_lt_irreflexive(name@);
                }
            }
        }
        if found {
            Some(i)
        } else {
            None
        }
    }

    /// The value under `name`, if there is one.
    pub fn get(&self, name: &str) -> (r: Option<&V>)
        ensures
            r == (match self.spec_get(name@) {
                Some(v) => Some(&v),
                None => None,
            }),
    {
        match self.find(name) {
            Some(i) => Some(&self.entries[i].value),
            None => None,
        }
    }

    /// Adds an entry whose name is above all names in the map.
    pub(crate) fn append(&mut self, name: String, value: V)
        requires
            forall|k: int| 0 <= k < old(self).names().len() ==> name_lt(old(self).names()[k], name@),
        ensures
            final(self).names() == old(self).names().push(name@),
            final(self).values() == old(self).values().push(value),
    {
        proof {
            use_type_invariant(&*self);
        }
        let ghost before = *self;
        let ghost n = name@;
        let mut taken: NameMap<V> = NameMap::new();
        core::mem::swap(self, &mut taken);
        let mut entries = taken.entries;
        entries.push(Entry { name, value });
        let ghost after = NameMap { entries };
        proof {
            assert(after.names() =~= before.names().push(n));
            assert(after.values() =~= before.values().push(value));
        }
        *self = NameMap { entries };
    }

    /// Puts `value` under `name`, in place of what was there, if anything.
    pub fn insert(&mut self, name: String, value: V)
        ensures
            final(self).names() == inserted_names(old(self).names(), name@),
            final(self).values() == inserted_values(old(self).names(), old(self).values(), name@, value),
            forall|q: Seq<char>|
                #[trigger] final(self).spec_get(q) == (if q == name@ {
                    Some(value)
                } else {
                    old(self).spec_get(q)
                }),
    {
        let (i, found) = self.lower_bound(name.as_str());
        proof {
            use_type_invariant(&*self);
            lemma_sorted_distinct(self.names());
            lemma_insert_position(self.names(), name@, i as int, found);
        }
        let ghost before = *self;
        let ghost n = name@;
        let mut taken: NameMap<V> = NameMap::new();
        core::mem::swap(self, &mut taken);
        let mut entries = taken.entries;
        if found {
            entries[i] = Entry { name, value };
        } else {
            entries.insert(i, Entry { name, value });
        }
        let ghost after = NameMap { entries };
        proof {
            if found {
                assert(after.names() =~= before.names());
                assert(after.values() =~= before.values().update(i as int, value));
            } else {
                assert(after.names() =~= before.names().insert(i as int, n));
                assert(after.values() =~= before.values().insert(i as int, value));
                lemma_insert_sorted(before.names(), n, i as int);
            }
            lemma_lookup_inserted(before.names(), before.values(), n, value);
        }
        *self = NameMap { entries };
    }
}

/// The value that stands under `name`, if the names hold it.
pub open spec fn lookup<V>(names: Seq<Seq<char>>, values: Seq<V>, name: Seq<char>) -> Option<V> {
    if names.contains(name) {
        Some(values[names.index_of(name)])
    } else {
        None
    }
}

/// In a sorted sequence a name stands at one place only.
pub proof fn lemma_index_of(names: Seq<Seq<char>>, name: Seq<char>, k: int)
    requires
        sorted(names),
        0 <= k < names.len(),
        names[k] == name,
    ensures
        names.contains(name),
        names.index_of(name) == k,
{
    lemma_sorted_distinct(names);
    assert(names.contains(name));
    let j = names.index_of(name);
    assert(0 <= j < names.len() && names[j] == name);
}

/// After `value` is put under `name`, `name` gives `value` and every
/// other name gives what it gave before.
pub proof fn lemma_lookup_inserted<V>(names: Seq<Seq<char>>, values: Seq<V>, name: Seq<char>, value: V)
    requires
        sorted(names),
        names.len() == values.len(),
    ensures
        forall|q: Seq<char>|
            #[trigger] lookup(inserted_names(names, name), inserted_values(names, values, name, value), q) == (if q
                == name {
                Some(value)
            } else {
                lookup(names, values, q)
            }),
{
    let new_names = inserted_names(names, name);
    let new_values = inserted_values(names, values, name, value);
    lemma_sorted_distinct(names);
    assert forall|q: Seq<char>|
        #[trigger] lookup(new_names, new_values, q) == (if q == name {
            Some(value)
        } else {
            lookup(names, values, q)
        }) by {
        if names.contains(name) {
            let i = names.index_of(name);
            if names.contains(q) {
                let j = names.index_of(q);
                assert(0 <= j < names.len() && names[j] == q);
            }
        } else {
            let i = rank(names, name);
            lemma_rank_bounds(names, name);
            lemma_rank_splits(names, name);
            lemma_insert_sorted(names, name, i);
            assert(new_names[i] == name);
            if q == name {
                lemma_index_of(new_names, q, i);
            } else if names.contains(q) {
                let j = names.index_of(q);
                assert(0 <= j < names.len() && names[j] == q);
                if j < i {
                    assert(new_names[j] == q);
                    lemma_index_of(new_names, q, j);
                } else {
                    assert(new_names[j + 1] == q);
                    lemma_index_of(new_names, q, j + 1);
                }
            } else {
                if new_names.contains(q) {
                    let j = new_names.index_of(q);
                    assert(0 <= j < new_names.len() && new_names[j] == q);
                    if j < i {
                        assert(names[j] == q);
                    } else {
                        assert(names[j - 1] == q);
                    }
                }
            }
        }
    }
}

/// The rank of a name lies within the sequence.
pub proof fn lemma_rank_bounds(names: Seq<Seq<char>>, name: Seq<char>)
    ensures
        0 <= rank(names, name) <= names.len(),
    decreases names.len(),
{
    if names.len() > 0 {
        lemma_rank_bounds(names.drop_last(), name);
    }
}

/// In a sorted sequence that lacks `name`, the names before its rank are
/// below it and the others above it.
pub proof fn lemma_rank_splits(names: Seq<Seq<char>>, name: Seq<char>)
    requires
        sorted(names),
        !names.contains(name),
    ensures
        forall|k: int| 0 <= k < rank(names, name) ==> name_lt(#[trigger] names[k], name),
        forall|k: int| rank(names, name) <= k < names.len() ==> name_lt(name, #[trigger] names[k]),
    decreases names.len(),
{
    lemma_rank_bounds(names, name);
    if names.len() > 0 {
        let rest = names.drop_last();
        let last = names.last();
        assert forall|i: int, j: int| 0 <= i < j < rest.len() implies name_lt(rest[i], rest[j]) by {
            assert(rest[i] == names[i] && rest[j] == names[j]);
        }
        if rest.contains(name) {
            let j = rest.index_of(name);
            assert(names[j] == name);
        }
        lemma_rank_splits(rest, name);
        lemma_rank_bounds(rest, name);
        assert(names[names.len() - 1] == last);
        lemma_name_lt_total(last, name);
        if name_lt(last, name) {
            if rank(rest, name) < rest.len() {
                let k = rank(rest, name);
                assert(name_lt(name, rest[k]));
                assert(rest[k] == names[k]);
                lemma_name_lt_transitive(name, names[k], last);
                lemma_name_lt_asymmetric(name, last);
            }
            assert forall|k: int| 0 <= k < rank(names, name) implies name_lt(#[trigger] names[k], name) by {
                if k < names.len() - 1 {
                    lemma_name_lt_transitive(names[k], last, name);
                }
            }
        } else {
            assert(name_lt(name, last));
            lemma_name_lt_asymmetric(name, last);
            assert forall|k: int| rank(names, name) <= k < names.len() implies name_lt(name, #[trigger] names[k]) by {
                if k < names.len() - 1 {
                    assert(rest[k] == names[k]);
                }
            }
            assert forall|k: int| 0 <= k < rank(names, name) implies name_lt(#[trigger] names[k], name) by {
                assert(rest[k] == names[k]);
            }
        }
    }
}

/// How many of the names are below `name`.
pub open spec fn rank(names: Seq<Seq<char>>, name: Seq<char>) -> int
    decreases names.len(),
{
    if names.len() == 0 {
        0
    } else {
        rank(names.drop_last(), name) + if name_lt(names.last(), name) {
            1int
        } else {
            0int
        }
    }
}

/// The names after `name` is put in: unchanged if it is there already,
/// else with `name` at its sorted place.
pub open spec fn inserted_names(names: Seq<Seq<char>>, name: Seq<char>) -> Seq<Seq<char>> {
    if names.contains(name) {
        names
    } else {
        names.insert(rank(names, name), name)
    }
}

/// The values after `value` is put under `name`.
pub open spec fn inserted_values<V>(names: Seq<Seq<char>>, values: Seq<V>, name: Seq<char>, value: V) -> Seq<V> {
    if names.contains(name) {
        values.update(names.index_of(name), value)
    } else {
        values.insert(rank(names, name), value)
    }
}

/// In a sorted sequence the names below `name` are exactly the first
/// `rank` ones.
pub proof fn lemma_rank_of_sorted(names: Seq<Seq<char>>, name: Seq<char>, i: int)
    requires
        sorted(names),
        0 <= i <= names.len(),
        forall|k: int| 0 <= k < i ==> name_lt(names[k], name),
        forall|k: int| i <= k < names.len() ==> !name_lt(names[k], name),
    ensures
        rank(names, name) == i,
    decreases names.len(),
{
    if names.len() == 0 {
    } else {
        let rest = names.drop_last();
        if i == names.len() {
            lemma_rank_of_sorted(rest, name, i - 1);
        } else {
            lemma_rank_of_sorted(rest, name, i);
        }
    }
}

/// Where the lower bound of `name` lies, `name` stands if it is there, and
/// else exactly the names before that place are below it.
proof fn lemma_insert_position(names: Seq<Seq<char>>, name: Seq<char>, i: int, found: bool)
    requires
        sorted(names),
        0 <= i <= names.len(),
        forall|k: int| 0 <= k < i ==> name_lt(names[k], name),
        found ==> i < names.len() && names[i] == name,
        !found ==> forall|k: int| i <= k < names.len() ==> name_lt(name, names[k]),
    ensures
        found ==> names.contains(name) && names.index_of(name) == i,
        !found ==> !names.contains(name) && rank(names, name) == i,
{
    lemma_sorted_distinct(names);
    lemma_name_lt_irreflexive(name);
    if found {
        assert(names.contains(name));
    } else {
        assert forall|k: int| 0 <= k < names.len() implies names[k] != name by {}
        assert forall|k: int| i <= k < names.len() implies !name_lt(names[k], name) by {
            if name_lt(names[k], name) {
                lemma_name_lt_transitive(name, names[k], name);
            }
        }
        lemma_rank_of_sorted(names, name, i);
    }
}

/// A name put between the names below it and the names above it leaves
/// the sequence sorted.
proof fn lemma_insert_sorted(names: Seq<Seq<char>>, name: Seq<char>, i: int)
    requires
        sorted(names),
        0 <= i <= names.len(),
        forall|k: int| 0 <= k < i ==> name_lt(names[k], name),
        forall|k: int| i <= k < names.len() ==> name_lt(name, names[k]),
    ensures
        sorted(names.insert(i, name)),
{
    let out = names.insert(i, name);
    assert forall|a: int, b: int| 0 <= a < b < out.len() implies name_lt(out[a], out[b]) by {
        if a < i && b > i {
            assert(out[a] == names[a]);
            assert(out[b] == names[b - 1]);
        } else if a > i {
            assert(out[a] == names[a - 1]);
            assert(out[b] == names[b - 1]);
        }
    }
}

} // verus!
