//! Maps and sets keyed by text, kept in the order of their keys.
use crate::text;
use vstd::prelude::*;
use vstd::string::*;

verus! {

/// Whether `a` stands before `b` in the order of text: by the first character in which they
/// differ, a beginning of a text before the text itself.
pub open spec fn precedes(a: Seq<char>, b: Seq<char>) -> bool
    decreases a.len(),
{
    if b.len() == 0 {
        false
    } else if a.len() == 0 {
        true
    } else if a[0] != b[0] {
        a[0] < b[0]
    } else {
        precedes(a.drop_first(), b.drop_first())
    }
}

pub proof fn lemma_precedes_irreflexive(a: Seq<char>)
    ensures
        !precedes(a, a),
    decreases a.len(),
{
    if a.len() > 0 {
        lemma_precedes_irreflexive(a.drop_first());
    }
}

pub proof fn lemma_precedes_transitive(a: Seq<char>, b: Seq<char>, c: Seq<char>)
    requires
        precedes(a, b),
        precedes(b, c),
    ensures
        precedes(a, c),
    decreases a.len(),
{
    if a.len() > 0 && a[0] == b[0] && b[0] == c[0] {
        lemma_precedes_transitive(a.drop_first(), b.drop_first(), c.drop_first());
    }
}

pub proof fn lemma_precedes_total(a: Seq<char>, b: Seq<char>)
    ensures
        a == b || precedes(a, b) || precedes(b, a),
    decreases a.len(),
{
    if a.len() == 0 || b.len() == 0 {
        if a.len() == 0 && b.len() == 0 {
            assert(a =~= b);
        }
    } else if a[0] == b[0] {
        lemma_precedes_total(a.drop_first(), b.drop_first());
        if a.drop_first() == b.drop_first() {
            assert(a =~= seq![a[0]] + a.drop_first());
            assert(b =~= seq![b[0]] + b.drop_first());
        }
    }
}

/// Texts that agree in their first `k` characters are ordered by the rest of them.
proof fn lemma_precedes_skip(a: Seq<char>, b: Seq<char>, k: int)
    requires
        0 <= k <= a.len(),
        k <= b.len(),
        forall|i: int| 0 <= i < k ==> a[i] == b[i],
    ensures
        precedes(a, b) == precedes(a.skip(k), b.skip(k)),
    decreases k,
{
    if k == 0 {
        assert(a.skip(0) =~= a);
        assert(b.skip(0) =~= b);
    } else {
        let x = a.drop_first();
        let y = b.drop_first();
        assert forall|i: int| 0 <= i < k - 1 implies x[i] == y[i] by {
            assert(x[i] == a[i + 1] && y[i] == b[i + 1]);
        }
        lemma_precedes_skip(x, y, k - 1);
        assert(x.skip(k - 1) =~= a.skip(k));
        assert(y.skip(k - 1) =~= b.skip(k));
    }
}

pub fn before(a: &str, b: &str) -> (r: bool)
    ensures
        r == precedes(a@, b@),
{
    let left = text::chars_of(a);
    let right = text::chars_of(b);
    let mut k: usize = 0;
    while k < left.len() && k < right.len() && left[k] == right[k]
        invariant
            left@ == a@,
            right@ == b@,
            k <= left.len(),
            k <= right.len(),
            forall|i: int| 0 <= i < k ==> left@[i] == right@[i],
        decreases left.len() - k,
    {
        k = k + 1;
    }
    proof {
        lemma_precedes_skip(a@, b@, k as int);
    }
    if k == right.len() {
        false
    } else if k == left.len() {
        true
    } else {
        left[k] < right[k]
    }
}

/// Whether each text stands before the next ones.
pub open spec fn in_order(names: Seq<Seq<char>>) -> bool {
    forall|i: int, j: int| 0 <= i < j < names.len() ==> precedes(names[i], names[j])
}

/// A set of texts has one order only.
pub proof fn lemma_order_unique(a: Seq<Seq<char>>, b: Seq<Seq<char>>)
    requires
        in_order(a),
        in_order(b),
        a.to_set() == b.to_set(),
    ensures
        a == b,
    decreases a.len(),
{
    if a.len() == 0 {
        if b.len() > 0 {
            assert(b.to_set().contains(b[0]));
            assert(a.to_set().contains(b[0]));
        }
        assert(a =~= b);
    } else if b.len() == 0 {
        assert(a.to_set().contains(a[0]));
        assert(b.to_set().contains(a[0]));
    } else {
        assert(a.to_set().contains(a.last()));
        assert(b.to_set().contains(b.last()));
        assert(b.to_set().contains(a.last()));
        assert(a.to_set().contains(b.last()));
        let i = choose|i: int| 0 <= i < b.len() && b[i] == a.last();
        let j = choose|j: int| 0 <= j < a.len() && a[j] == b.last();
        if a.last() != b.last() {
            assert(precedes(b[i], b.last()));
            assert(precedes(a[j], a.last()));
            lemma_precedes_transitive(a.last(), b.last(), a.last());
            lemma_precedes_irreflexive(a.last());
        }
        let x = a.drop_last();
        let y = b.drop_last();
        assert(x.to_set() =~= y.to_set()) by {
            assert forall|k: Seq<char>| x.to_set().contains(k) implies y.to_set().contains(k) by {
                let p = choose|p: int| 0 <= p < x.len() && x[p] == k;
                assert(a[p] == k);
                assert(precedes(a[p], a.last()));
                lemma_precedes_irreflexive(k);
                assert(a.to_set().contains(k));
                assert(b.to_set().contains(k));
                let q = choose|q: int| 0 <= q < b.len() && b[q] == k;
                assert(y[q] == k);
            }
            assert forall|k: Seq<char>| y.to_set().contains(k) implies x.to_set().contains(k) by {
                let p = choose|p: int| 0 <= p < y.len() && y[p] == k;
                assert(b[p] == k);
                assert(precedes(b[p], b.last()));
                lemma_precedes_irreflexive(k);
                assert(b.to_set().contains(k));
                assert(a.to_set().contains(k));
                let q = choose|q: int| 0 <= q < a.len() && a[q] == k;
                assert(x[q] == k);
            }
        }
        assert(in_order(x));
        assert(in_order(y));
        lemma_order_unique(x, y);
        assert(a =~= x.push(a.last()));
        assert(b =~= y.push(b.last()));
    }
}

/// A map from texts to values, its entries in the order of their keys.
#[derive(Debug)]
pub struct TextMap<V> {
    entries: Vec<(String, V)>,
}

spec fn keys_of<V>(entries: Seq<(String, V)>) -> Seq<Seq<char>> {
    Seq::new(entries.len(), |i: int| entries[i].0@)
}

impl<V: View> View for TextMap<V> {
    type V = Map<Seq<char>, V::V>;

    closed spec fn view(&self) -> Map<Seq<char>, V::V> {
        let keys = keys_of(self.entries@);
        Map::new(|k: Seq<char>| keys.contains(k), |k: Seq<char>| self.entries@[keys.index_of(k)].1@)
    }
}

impl<V> TextMap<V> {
    #[verifier::type_invariant]
    spec fn ordered(self) -> bool {
        in_order(keys_of(self.entries@))
    }
}

impl<V: View> TextMap<V> {
    /// The keys in their order.
    pub closed spec fn names(self) -> Seq<Seq<char>> {
        keys_of(self.entries@)
    }

    proof fn lemma_at(entries: Seq<(String, V)>, i: int)
        requires
            in_order(keys_of(entries)),
            0 <= i < entries.len(),
        ensures
            keys_of(entries).contains(entries[i].0@),
            keys_of(entries).index_of(entries[i].0@) == i,
    {
        let keys = keys_of(entries);
        assert(keys[i] == entries[i].0@);
        let k = keys.index_of(keys[i]);
        if k < i {
            lemma_precedes_irreflexive(keys[i]);
        } else if i < k {
            lemma_precedes_irreflexive(keys[i]);
        }
    }

    pub fn new() -> (r: Self)
        ensures
            r@ == Map::<Seq<char>, V::V>::empty(),
    {
        let r = TextMap { entries: Vec::new() };
        assert(r@ =~= Map::<Seq<char>, V::V>::empty());
        r
    }

    /// The number of entries.
    pub fn len(&self) -> (r: usize)
        ensures
            r == self.names().len(),
            in_order(self.names()),
            self.names().to_set() == self@.dom(),
    {
        proof {
            use_type_invariant(self);
            assert(self.names().to_set() =~= self@.dom());
        }
        self.entries.len()
    }

    /// The key at a place in the order.
    pub fn key_at(&self, i: usize) -> (r: &str)
        requires
            i < self.names().len(),
        ensures
            r@ == self.names()[i as int],
            self@.contains_key(r@),
    {
        assert(keys_of(self.entries@).contains(keys_of(self.entries@)[i as int]));
        self.entries[i].0.as_str()
    }

    /// The value at a place in the order.
    pub fn value_at(&self, i: usize) -> (r: &V)
        requires
            i < self.names().len(),
        ensures
            self@.contains_key(self.names()[i as int]),
            r@ == self@[self.names()[i as int]],
    {
        proof {
            use_type_invariant(self);
            Self::lemma_at(self.entries@, i as int);
        }
        &self.entries[i].1
    }

    /// The place of the key: the first entry whose key does not stand before it.
    fn place(entries: &Vec<(String, V)>, key: &str) -> (r: usize)
        requires
            in_order(keys_of(entries@)),
        ensures
            r <= entries.len(),
            forall|i: int| 0 <= i < r ==> precedes(entries@[i].0@, key@),
            r < entries.len() ==> !precedes(entries@[r as int].0@, key@),
    {
        let mut at: usize = 0;
        while at < entries.len() && before(entries[at].0.as_str(), key)
            invariant
                at <= entries.len(),
                forall|i: int| 0 <= i < at ==> precedes(entries@[i].0@, key@),
            decreases entries.len() - at,
        {
            at = at + 1;
        }
        at
    }

    /// The place that `place` finds holds the key, if any does.
    proof fn lemma_place(entries: Seq<(String, V)>, key: Seq<char>, at: int)
        requires
            in_order(keys_of(entries)),
            0 <= at <= entries.len(),
            forall|i: int| 0 <= i < at ==> precedes(entries[i].0@, key),
            at < entries.len() ==> !precedes(entries[at].0@, key),
        ensures
            keys_of(entries).contains(key) <==> at < entries.len() && entries[at].0@ == key,
    {
        let keys = keys_of(entries);
        if keys.contains(key) {
            let i = choose|i: int| 0 <= i < keys.len() && keys[i] == key;
            lemma_precedes_irreflexive(key);
            assert(i >= at);
            if i > at {
                assert(precedes(keys[at], keys[i]));
            }
        } else if at < entries.len() {
            assert(keys[at] == entries[at].0@);
        }
    }

    pub fn get(&self, key: &str) -> (r: Option<&V>)
        ensures
            match r {
                Some(value) => self@.contains_key(key@) && value@ == self@[key@],
                None => !self@.contains_key(key@),
            },
    {
        proof {
            use_type_invariant(self);
        }
        let at = Self::place(&self.entries, key);
        proof {
            Self::lemma_place(self.entries@, key@, at as int);
        }
        if at < self.entries.len() && text::same_text(self.entries[at].0.as_str(), key) {
            proof {
                Self::lemma_at(self.entries@, at as int);
            }
            Some(&self.entries[at].1)
        } else {
            None
        }
    }

    pub fn contains_key(&self, key: &str) -> (r: bool)
        ensures
            r == self@.contains_key(key@),
    {
        self.get(key).is_some()
    }

    pub fn insert(&mut self, key: String, value: V)
        ensures
            final(self)@ == old(self)@.insert(key@, value@),
    {
        proof {
            use_type_invariant(&*self);
        }
        let ghost before_map = self@;
        let mut entries: Vec<(String, V)> = Vec::new();
        std::mem::swap(&mut entries, &mut self.entries);
        let ghost start = entries@;
        let ghost name = key@;
        let ghost held = value@;
        let at = Self::place(&entries, key.as_str());
        proof {
            Self::lemma_place(start, name, at as int);
        }
        if at < entries.len() && text::same_text(entries[at].0.as_str(), key.as_str()) {
            let _ = entries.remove(at);
        }
        entries.insert(at, (key, value));
        proof {
            let end = entries@;
            let shift: int = if start.len() == end.len() {
                0
            } else {
                1
            };
            assert(end.len() == start.len() + shift);
            assert forall|i: int| 0 <= i < at implies end[i] == start[i] by {}
            assert forall|i: int| at < i < end.len() implies end[i] == start[i - shift] by {}
            assert(end[at as int].0@ == name);
            let keys = keys_of(end);
            let old_keys = keys_of(start);
            assert forall|i: int, j: int| 0 <= i < j < keys.len() implies precedes(
                keys[i],
                keys[j],
            ) by {
                if j < at {
                    assert(precedes(old_keys[i], old_keys[j]));
                } else if j == at {
                    assert(precedes(start[i].0@, name));
                } else {
                    let q = j - shift;
                    if i == at {
                        // The entry that stood at the place, or the one behind it, is not before.
                        if shift == 1 {
                            lemma_precedes_total(start[at as int].0@, name);
                            if q > at {
                                assert(precedes(old_keys[at as int], old_keys[q]));
                                lemma_precedes_transitive(name, old_keys[at as int], old_keys[q]);
                            }
                        } else {
                            assert(precedes(old_keys[at as int], old_keys[q]));
                        }
                    } else if i < at {
                        assert(precedes(old_keys[i], old_keys[q]));
                    } else {
                        assert(precedes(old_keys[i - shift], old_keys[q]));
                    }
                }
            }
            assert(in_order(keys));
        }
        let ghost end = entries@;
        self.entries = entries;
        proof {
            let keys = keys_of(end);
            let old_keys = keys_of(start);
            let wanted = before_map.insert(name, held);
            let shift: int = end.len() - start.len();
            assert forall|k: Seq<char>| #[trigger] self@.contains_key(k) <==> wanted.contains_key(
                k,
            ) by {
                if self@.contains_key(k) {
                    let i = choose|i: int| 0 <= i < keys.len() && keys[i] == k;
                    if i < at {
                        assert(old_keys[i] == k);
                    } else if i > at {
                        assert(old_keys[i - shift] == k);
                    }
                }
                if wanted.contains_key(k) {
                    if k == name {
                        assert(keys[at as int] == k);
                    } else {
                        let i = choose|i: int| 0 <= i < old_keys.len() && old_keys[i] == k;
                        if i < at {
                            assert(keys[i] == k);
                        } else {
                            assert(keys[i + shift] == k);
                        }
                    }
                }
            }
            assert forall|k: Seq<char>| self@.contains_key(k) implies #[trigger] self@[k]
                == wanted[k] by {
                let i = choose|i: int| 0 <= i < keys.len() && keys[i] == k;
                Self::lemma_at(end, i);
                if i < at {
                    Self::lemma_at(start, i);
                    Self::lemma_at(end, at as int);
                } else if i > at {
                    Self::lemma_at(start, i - shift);
                    Self::lemma_at(end, at as int);
                }
            }
            assert(self@ =~= wanted);
        }
    }

    pub fn remove(&mut self, key: &str) -> (r: Option<V>)
        ensures
            final(self)@ == old(self)@.remove(key@),
            match r {
                Some(value) => old(self)@.contains_key(key@) && value@ == old(self)@[key@],
                None => !old(self)@.contains_key(key@),
            },
    {
        proof {
            use_type_invariant(&*self);
        }
        let ghost before_map = self@;
        let mut entries: Vec<(String, V)> = Vec::new();
        std::mem::swap(&mut entries, &mut self.entries);
        let ghost start = entries@;
        let at = Self::place(&entries, key);
        proof {
            Self::lemma_place(start, key@, at as int);
        }
        let mut taken: Option<V> = None;
        if at < entries.len() && text::same_text(entries[at].0.as_str(), key) {
            let (_, value) = entries.remove(at);
            taken = Some(value);
            proof {
                Self::lemma_at(start, at as int);
                let keys = keys_of(entries@);
                let old_keys = keys_of(start);
                assert forall|i: int, j: int| 0 <= i < j < keys.len() implies precedes(
                    keys[i],
                    keys[j],
                ) by {
                    let p = if i < at {
                        i
                    } else {
                        i + 1
                    };
                    let q = if j < at {
                        j
                    } else {
                        j + 1
                    };
                    assert(precedes(old_keys[p], old_keys[q]));
                }
            }
        }
        let ghost end = entries@;
        self.entries = entries;
        proof {
            let keys = keys_of(end);
            let old_keys = keys_of(start);
            let wanted = before_map.remove(key@);
            let shift: int = start.len() - end.len();
            assert forall|k: Seq<char>| #[trigger] self@.contains_key(k) <==> wanted.contains_key(
                k,
            ) by {
                if self@.contains_key(k) {
                    let i = choose|i: int| 0 <= i < keys.len() && keys[i] == k;
                    if i < at {
                        assert(old_keys[i] == k);
                        Self::lemma_at(start, i);
                        if at < start.len() {
                            Self::lemma_at(start, at as int);
                        }
                    } else {
                        assert(old_keys[i + shift] == k);
                        Self::lemma_at(start, i + shift);
                        if at < start.len() {
                            Self::lemma_at(start, at as int);
                        }
                    }
                }
                if wanted.contains_key(k) {
                    let i = choose|i: int| 0 <= i < old_keys.len() && old_keys[i] == k;
                    if i < at {
                        assert(keys[i] == k);
                    } else {
                        assert(keys[i - shift] == k);
                    }
                }
            }
            assert forall|k: Seq<char>| self@.contains_key(k) implies #[trigger] self@[k]
                == wanted[k] by {
                let i = choose|i: int| 0 <= i < keys.len() && keys[i] == k;
                Self::lemma_at(end, i);
                if i < at {
                    Self::lemma_at(start, i);
                } else {
                    Self::lemma_at(start, i + shift);
                }
            }
            assert(self@ =~= wanted);
        }
        taken
    }
}

impl TextMap<String> {
    /// The same map again.
    pub fn copy(&self) -> (r: TextMap<String>)
        ensures
            r@ == self@,
    {
        let n = self.len();
        let mut out: TextMap<String> = TextMap::new();
        let mut i: usize = 0;
        while i < n
            invariant
                i <= n,
                n == self.names().len(),
                in_order(self.names()),
                self.names().to_set() == self@.dom(),
                out@ == self@.restrict(self.names().take(i as int).to_set()),
            decreases n - i,
        {
            let ghost name = self.names()[i as int];
            let ghost done = out@;
            out.insert(self.key_at(i).to_string(), self.value_at(i).clone());
            proof {
                let now = self.names().take(i as int);
                let next = self.names().take(i + 1);
                assert(next =~= now.push(name));
                assert(next.to_set() =~= now.to_set().insert(name)) by {
                    assert forall|k: Seq<char>| now.to_set().insert(name).contains(k) implies next
                        .to_set()
                        .contains(k) by {
                        if k == name {
                            assert(next[i as int] == name);
                        } else {
                            let j = choose|j: int| 0 <= j < now.len() && now[j] == k;
                            assert(next[j] == k);
                        }
                    }
                }
                assert(out@ =~= self@.restrict(next.to_set()));
            }
            i = i + 1;
        }
        proof {
            assert(self.names().take(i as int) =~= self.names());
            assert(out@ =~= self@);
        }
        out
    }
}

/// Texts are ordered by the first character in which they differ, and a beginning of a text stands
/// before it.
pub proof fn the_first_difference_decides(
    same: Seq<char>,
    a: char,
    b: char,
    x: Seq<char>,
    y: Seq<char>,
)
    ensures
        a < b ==> precedes(same + seq![a] + x, same + seq![b] + y),
        a > b ==> !precedes(same + seq![a] + x, same + seq![b] + y),
        precedes(same, same + seq![a] + x),
        !precedes(same + seq![a] + x, same),
        !precedes(same, same),
{
    let n = same.len() as int;
    let one = same + seq![a] + x;
    let other = same + seq![b] + y;
    lemma_precedes_skip(one, other, n);
    lemma_precedes_skip(same, one, n);
    lemma_precedes_skip(one, same, n);
    lemma_precedes_irreflexive(same);
    assert(one.skip(n)[0] == a);
    assert(other.skip(n)[0] == b);
    assert(same.skip(n) =~= seq![]);
}

} // verus!
