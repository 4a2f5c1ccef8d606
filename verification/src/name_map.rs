//! A map from names to values that keeps its entries in ascending order of
//! the names, compared byte by byte in their UTF-8 encoding.
//!
//! The ordered map of the standard library is specified for keys whose
//! order the verifier knows. It knows none for texts, so that nothing could
//! be proved of such a map; this one states the order itself.
use vstd::prelude::*;
use vstd::utf8::{encode_utf8, encode_utf8_decode_utf8};

verus! {

/// Whether `a` comes before `b` in the lexicographic order of bytes.
pub open spec fn bytes_lt(a: Seq<u8>, b: Seq<u8>) -> bool
    decreases a.len(),
{
    if b.len() == 0 {
        false
    } else if a.len() == 0 {
        true
    } else if a[0] != b[0] {
        a[0] < b[0]
    } else {
        bytes_lt(a.drop_first(), b.drop_first())
    }
}

/// Whether the name `a` comes before the name `b`.
pub open spec fn name_lt(a: Seq<char>, b: Seq<char>) -> bool {
    bytes_lt(encode_utf8(a), encode_utf8(b))
}

/// Whether the names of `m` ascend strictly: no name occurs twice.
pub open spec fn names_ascend<V>(m: Seq<(Seq<char>, V)>) -> bool {
    forall|i: int, j: int| 0 <= i < j < m.len() ==> name_lt(#[trigger] m[i].0, #[trigger] m[j].0)
}

/// The number of entries of an ascending `m` whose name comes before `name`:
/// the position at which `name` stands or would be inserted.
pub open spec fn rank<V>(m: Seq<(Seq<char>, V)>, name: Seq<char>) -> int
    decreases m.len(),
{
    if m.len() == 0 {
        0
    } else if name_lt(m.last().0, name) {
        m.len() as int
    } else {
        rank(m.drop_last(), name)
    }
}

/// The value that `m` holds under `name`, if any.
pub open spec fn lookup<V>(m: Seq<(Seq<char>, V)>, name: Seq<char>) -> Option<V> {
    let at = rank(m, name);
    if at < m.len() && m[at].0 == name {
        Some(m[at].1)
    } else {
        None
    }
}

/// `m` with `value` under `name`: in place of the old value, or as a new
/// entry at the position that keeps the names ascending.
pub open spec fn put<V>(m: Seq<(Seq<char>, V)>, name: Seq<char>, value: V) -> Seq<(Seq<char>, V)> {
    let at = rank(m, name);
    if at < m.len() && m[at].0 == name {
        m.update(at, (name, value))
    } else {
        m.insert(at, (name, value))
    }
}

/// `m` without the entry of `name`.
pub open spec fn without<V>(m: Seq<(Seq<char>, V)>, name: Seq<char>) -> Seq<(Seq<char>, V)> {
    let at = rank(m, name);
    if at < m.len() && m[at].0 == name {
        m.remove(at)
    } else {
        m
    }
}

/// The map that results from putting the `pairs` one after the other, so
/// that of two pairs with the same name the later one stays.
pub open spec fn collected<V>(pairs: Seq<(Seq<char>, V)>) -> Seq<(Seq<char>, V)>
    decreases pairs.len(),
{
    if pairs.len() == 0 {
        Seq::empty()
    } else {
        put(collected(pairs.drop_last()), pairs.last().0, pairs.last().1)
    }
}

/// No byte string comes before itself.
pub proof fn lemma_bytes_lt_irreflexive(a: Seq<u8>)
    ensures
        !bytes_lt(a, a),
    decreases a.len(),
{
    if a.len() > 0 {
        lemma_bytes_lt_irreflexive(a.drop_first());
    }
}

/// The order of byte strings is transitive.
pub proof fn lemma_bytes_lt_transitive(a: Seq<u8>, b: Seq<u8>, c: Seq<u8>)
    requires
        bytes_lt(a, b),
        bytes_lt(b, c),
    ensures
        bytes_lt(a, c),
    decreases a.len(),
{
    if a.len() > 0 && b.len() > 0 && c.len() > 0 && a[0] == b[0] && b[0] == c[0] {
        lemma_bytes_lt_transitive(a.drop_first(), b.drop_first(), c.drop_first());
    }
}

/// Of two different byte strings one comes before the other.
pub proof fn lemma_bytes_lt_total(a: Seq<u8>, b: Seq<u8>)
    requires
        a != b,
    ensures
        bytes_lt(a, b) || bytes_lt(b, a),
    decreases a.len(),
{
    if a.len() > 0 && b.len() > 0 && a[0] == b[0] {
        if a.drop_first() == b.drop_first() {
            assert(a =~= seq![a[0]] + a.drop_first());
            assert(b =~= seq![b[0]] + b.drop_first());
        }
        lemma_bytes_lt_total(a.drop_first(), b.drop_first());
    } else if a.len() == 0 && b.len() == 0 {
        assert(a =~= b);
    }
}

/// Byte strings that agree on their first `i` bytes compare as what follows.
pub proof fn lemma_bytes_lt_skip(a: Seq<u8>, b: Seq<u8>, i: int)
    requires
        0 <= i <= a.len(),
        i <= b.len(),
        forall|j: int| 0 <= j < i ==> a[j] == b[j],
    ensures
        bytes_lt(a, b) == bytes_lt(a.skip(i), b.skip(i)),
    decreases i,
{
    if i == 0 {
        assert(a.skip(0) =~= a);
        assert(b.skip(0) =~= b);
    } else {
        lemma_bytes_lt_skip(a.drop_first(), b.drop_first(), i - 1);
        assert(a.drop_first().skip(i - 1) =~= a.skip(i));
        assert(b.drop_first().skip(i - 1) =~= b.skip(i));
    }
}

/// No name comes before itself, the order of names is transitive, and of two
/// different names one comes before the other.
pub proof fn lemma_name_order(a: Seq<char>, b: Seq<char>, c: Seq<char>)
    ensures
        !name_lt(a, a),
        name_lt(a, b) && name_lt(b, c) ==> name_lt(a, c),
        a != b ==> name_lt(a, b) || name_lt(b, a),
        !(name_lt(a, b) && name_lt(b, a)),
{
    lemma_bytes_lt_irreflexive(encode_utf8(a));
    if name_lt(a, b) && name_lt(b, c) {
        lemma_bytes_lt_transitive(encode_utf8(a), encode_utf8(b), encode_utf8(c));
    }
    if name_lt(a, b) && name_lt(b, a) {
        lemma_bytes_lt_transitive(encode_utf8(a), encode_utf8(b), encode_utf8(a));
    }
    if a != b {
        encode_utf8_decode_utf8(a);
        encode_utf8_decode_utf8(b);
        lemma_bytes_lt_total(encode_utf8(a), encode_utf8(b));
    }
}

/// In an ascending `m` the position `at` is the rank of `name` if the names
/// before it come before `name` and the name at it, if there is one, does not.
pub proof fn lemma_rank_is<V>(m: Seq<(Seq<char>, V)>, name: Seq<char>, at: int)
    requires
        names_ascend(m),
        0 <= at <= m.len(),
        forall|j: int| 0 <= j < at ==> name_lt(#[trigger] m[j].0, name),
        at < m.len() ==> !name_lt(m[at].0, name),
    ensures
        rank(m, name) == at,
    decreases m.len(),
{
    if m.len() > 0 {
        let last = m.len() - 1;
        if name_lt(m.last().0, name) {
            if at < last {
                lemma_name_order(m[at].0, m[last].0, name);
            }
        } else {
            lemma_rank_is(m.drop_last(), name, at);
        }
    }
}

/// A rank is a position in the map or the one behind its last entry.
pub proof fn lemma_rank_bounds<V>(m: Seq<(Seq<char>, V)>, name: Seq<char>)
    ensures
        0 <= rank(m, name) <= m.len(),
    decreases m.len(),
{
    if m.len() > 0 {
        lemma_rank_bounds(m.drop_last(), name);
    }
}

/// The rank of `name` in an ascending `m` splits it: the names before the
/// rank come before `name`, those from the rank on do not.
pub proof fn lemma_rank_splits<V>(m: Seq<(Seq<char>, V)>, name: Seq<char>)
    requires
        names_ascend(m),
    ensures
        0 <= rank(m, name) <= m.len(),
        forall|j: int| 0 <= j < rank(m, name) ==> name_lt(#[trigger] m[j].0, name),
        forall|j: int| rank(m, name) <= j < m.len() ==> !name_lt(#[trigger] m[j].0, name),
    decreases m.len(),
{
    if m.len() > 0 {
        let last = m.len() - 1;
        if name_lt(m.last().0, name) {
            assert forall|j: int| 0 <= j < m.len() implies name_lt(#[trigger] m[j].0, name) by {
                if j < last {
                    lemma_name_order(m[j].0, m[last].0, name);
                }
            }
        } else {
            lemma_rank_splits(m.drop_last(), name);
            assert forall|j: int| rank(m, name) <= j < m.len() implies !name_lt(
                #[trigger] m[j].0,
                name,
            ) by {
                if j < last {
                    assert(m.drop_last()[j] == m[j]);
                }
            }
            assert forall|j: int| 0 <= j < rank(m, name) implies name_lt(
                #[trigger] m[j].0,
                name,
            ) by {
                assert(m.drop_last()[j] == m[j]);
            }
        }
    }
}

/// Putting a value into an ascending map keeps it ascending, makes `name`
/// lead to `value` and leaves every other name as it was.
pub proof fn lemma_put<V>(m: Seq<(Seq<char>, V)>, name: Seq<char>, value: V, other: Seq<char>)
    requires
        names_ascend(m),
    ensures
        names_ascend(put(m, name, value)),
        lookup(put(m, name, value), name) == Some(value),
        other != name ==> lookup(put(m, name, value), other) == lookup(m, other),
{
    let at = rank(m, name);
    let after = put(m, name, value);
    lemma_rank_splits(m, name);
    lemma_rank_splits(m, other);
    let replaced = at < m.len() && m[at].0 == name;
    assert forall|i: int, j: int| 0 <= i < j < after.len() implies name_lt(
        #[trigger] after[i].0,
        #[trigger] after[j].0,
    ) by {
        if !replaced && i == at {
            lemma_name_order(name, m[j - 1].0, name);
        }
    }
    if at < m.len() {
        lemma_name_order(name, m[at].0, name);
    }
    assert(rank(after, name) == at) by {
        lemma_name_order(name, name, name);
        lemma_rank_is(after, name, at);
    }
    if other != name {
        let oat = rank(m, other);
        lemma_name_order(other, name, other);
        if replaced {
            lemma_rank_is(after, other, oat);
        } else if name_lt(other, name) {
            // `other` stands before the new entry
            if oat > at {
                lemma_name_order(m[at].0, other, name);
            }
            lemma_name_order(name, other, name);
            lemma_rank_is(after, other, oat);
        } else {
            // `name` comes before `other`: the entries from `at` on moved by one
            if oat < at {
                lemma_name_order(m[oat].0, name, other);
            }
            lemma_rank_is(after, other, oat + 1);
        }
    }
}

/// Taking `name` out of an ascending map keeps it ascending, leaves `name`
/// without a value and every other name as it was.
pub proof fn lemma_without<V>(m: Seq<(Seq<char>, V)>, name: Seq<char>, other: Seq<char>)
    requires
        names_ascend(m),
    ensures
        names_ascend(without(m, name)),
        lookup(without(m, name), name) is None,
        other != name ==> lookup(without(m, name), other) == lookup(m, other),
{
    let at = rank(m, name);
    let after = without(m, name);
    lemma_rank_splits(m, name);
    lemma_rank_splits(m, other);
    if at < m.len() && m[at].0 == name {
        assert(names_ascend(after));
        if at < after.len() {
            lemma_name_order(name, m[at + 1].0, name);
        }
        lemma_rank_is(after, name, at);
        if other != name {
            let oat = rank(m, other);
            lemma_name_order(other, name, other);
            if name_lt(other, name) {
                if at < after.len() {
                    lemma_name_order(other, name, m[at + 1].0);
                    lemma_name_order(other, m[at + 1].0, other);
                }
                lemma_rank_is(after, other, oat);
            } else {
                lemma_rank_is(after, other, oat - 1);
            }
        }
    }
}

/// Collecting pairs whose names ascend gives the pairs themselves.
pub proof fn lemma_collected_ascending<V>(pairs: Seq<(Seq<char>, V)>)
    requires
        names_ascend(pairs),
    ensures
        collected(pairs) == pairs,
    decreases pairs.len(),
{
    if pairs.len() > 0 {
        lemma_collected_ascending(pairs.drop_last());
    }
}

/// How one name stands to another.
#[derive(Clone, Copy, Debug, PartialEq, Eq)]
pub enum Placement {
    Before,
    Same,
    After,
}

/// Compares two byte strings in the lexicographic order.
pub fn compare_bytes(x: &[u8], y: &[u8]) -> (r: Placement)
    ensures
        r is Before <==> bytes_lt(x@, y@),
        r is Same <==> x@ == y@,
        r is After <==> bytes_lt(y@, x@),
{
    let ghost xs = x@;
    let ghost ys = y@;
    let mut i: usize = 0;
    while i < x.len() && i < y.len()
        invariant
            x@ == xs,
            y@ == ys,
            i <= xs.len(),
            i <= ys.len(),
            forall|j: int| 0 <= j < i ==> xs[j] == ys[j],
        decreases xs.len() - i,
    {
        if x[i] != y[i] {
            proof {
                lemma_bytes_lt_skip(xs, ys, i as int);
                lemma_bytes_lt_skip(ys, xs, i as int);
            }
            return if x[i] < y[i] {
                Placement::Before
            } else {
                Placement::After
            };
        }
        i = i + 1;
    }
    proof {
        lemma_bytes_lt_skip(xs, ys, i as int);
        lemma_bytes_lt_skip(ys, xs, i as int);
        if xs.len() == ys.len() {
            assert(xs =~= ys);
            lemma_bytes_lt_irreflexive(xs);
        }
    }
    if x.len() < y.len() {
        Placement::Before
    } else if x.len() > y.len() {
        Placement::After
    } else {
        Placement::Same
    }
}

/// Compares two names byte by byte in their UTF-8 encoding.
pub fn place(a: &str, b: &str) -> (r: Placement)
    ensures
        r is Before <==> name_lt(a@, b@),
        r is Same <==> a@ == b@,
        r is After <==> name_lt(b@, a@),
{
    proof {
        encode_utf8_decode_utf8(a@);
        encode_utf8_decode_utf8(b@);
    }
    compare_bytes(a.as_bytes(), b.as_bytes())
}

/// A map from names to values of type `V`.
///
/// The entries are kept in ascending order of their names, so that every
/// name occurs once and the entries are written down in one order only.
#[derive(Debug, PartialEq, Eq)]
pub struct NameMap<V> {
    items: Vec<(String, V)>,
}

impl<V> NameMap<V> {
    #[verifier::type_invariant]
    spec fn ordered(&self) -> bool {
        names_ascend(self.entries())
    }

    /// The entries, each a name with its value, in ascending order of the names.
    pub closed spec fn entries(&self) -> Seq<(Seq<char>, V)> {
        Seq::new(self.items@.len(), |i: int| (self.items@[i].0@, self.items@[i].1))
    }

    /// Whether `name` has a value.
    pub open spec fn has(&self, name: Seq<char>) -> bool {
        lookup(self.entries(), name) is Some
    }

    /// The value of `name`, where it has one.
    pub open spec fn value(&self, name: Seq<char>) -> V {
        lookup(self.entries(), name)->Some_0
    }

    /// The names, in ascending order.
    pub open spec fn names(&self) -> Seq<Seq<char>> {
        Seq::new(self.entries().len(), |i: int| self.entries()[i].0)
    }

    /// An empty map.
    pub fn new() -> (r: NameMap<V>)
        ensures
            r.entries() == Seq::<(Seq<char>, V)>::empty(),
    {
        let r = NameMap { items: Vec::new() };
        r
    }

    /// The number of entries.
    pub fn len(&self) -> (r: usize)
        ensures
            r == self.entries().len(),
            names_ascend(self.entries()),
    {
        proof {
            use_type_invariant(self);
        }
        self.items.len()
    }

    /// Whether the map has no entry.
    pub fn is_empty(&self) -> (r: bool)
        ensures
            r == (self.entries().len() == 0),
    {
        self.items.len() == 0
    }

    /// The name and the value of the entry at position `i`.
    pub fn entry_at(&self, i: usize) -> (r: (&String, &V))
        requires
            i < self.entries().len(),
        ensures
            r.0@ == self.entries()[i as int].0,
            *r.1 == self.entries()[i as int].1,
    {
        let item = &self.items[i];
        (&item.0, &item.1)
    }

    /// The position of `name`, or the one at which it would be inserted.
    fn position(&self, name: &str) -> (r: (usize, bool))
        ensures
            r.0 == rank(self.entries(), name@),
            r.0 <= self.entries().len(),
            r.1 == (r.0 < self.entries().len() && self.entries()[r.0 as int].0 == name@),
            names_ascend(self.entries()),
    {
        proof {
            use_type_invariant(self);
        }
        let ghost m = self.entries();
        let len: usize = self.items.len();
        let mut i: usize = 0;
        while i < len
            invariant
                i <= len,
                len == m.len(),
                m == self.entries(),
                names_ascend(m),
                forall|j: int| 0 <= j < i ==> name_lt(#[trigger] m[j].0, name@),
            decreases len - i,
        {
            let here: Placement = place(self.items[i].0.as_str(), name);
            match here {
                Placement::Before => {
                    i = i + 1;
                },
                Placement::Same => {
                    proof {
                        lemma_name_order(name@, name@, name@);
                        lemma_rank_is(m, name@, i as int);
                    }
                    return (i, true);
                },
                Placement::After => {
                    proof {
                        lemma_name_order(name@, m[i as int].0, name@);
                        lemma_rank_is(m, name@, i as int);
                    }
                    return (i, false);
                },
            }
        }
        proof {
            lemma_rank_is(m, name@, i as int);
        }
        (i, false)
    }

    /// Whether `name` has a value.
    pub fn contains_key(&self, name: &str) -> (r: bool)
        ensures
            r == self.has(name@),
    {
        let (_, found) = self.position(name);
        found
    }

    /// The value of `name`, if it has one.
    pub fn get(&self, name: &str) -> (r: Option<&V>)
        ensures
            match r {
                Some(v) => self.has(name@) && *v == self.value(name@),
                None => !self.has(name@),
            },
    {
        let (at, found) = self.position(name);
        if found {
            Some(&self.items[at].1)
        } else {
            None
        }
    }

    /// Puts `value` under `name` and returns the value that it replaces, if any.
    pub fn insert(&mut self, name: String, value: V) -> (r: Option<V>)
        ensures
            final(self).entries() == put(old(self).entries(), name@, value),
            final(self).has(name@) && final(self).value(name@) == value,
            forall|other: Seq<char>|
                other != name@ ==> lookup(final(self).entries(), other) == lookup(
                    old(self).entries(),
                    other,
                ),
            r == lookup(old(self).entries(), name@),
    {
        let (at, found) = self.position(name.as_str());
        let ghost before = self.entries();
        let ghost after = put(before, name@, value);
        proof {
            lemma_put(before, name@, value, name@);
            assert forall|other: Seq<char>| other != name@ implies lookup(after, other) == lookup(
                before,
                other,
            ) by {
                lemma_put(before, name@, value, other);
            }
        }
        let mut items: Vec<(String, V)> = Vec::new();
        std::mem::swap(&mut self.items, &mut items);
        let replaced: Option<V> = if found {
            let mut item: (String, V) = (name, value);
            std::mem::swap(&mut items[at], &mut item);
            Some(item.1)
        } else {
            items.insert(at, (name, value));
            None
        };
        assert(Seq::new(items@.len(), |i: int| (items@[i].0@, items@[i].1)) =~= after);
        std::mem::swap(&mut self.items, &mut items);
        replaced
    }

    /// Takes the entry of `name` out and returns its value, if it had one.
    pub fn remove(&mut self, name: &str) -> (r: Option<V>)
        ensures
            final(self).entries() == without(old(self).entries(), name@),
            !final(self).has(name@),
            forall|other: Seq<char>|
                other != name@ ==> lookup(final(self).entries(), other) == lookup(
                    old(self).entries(),
                    other,
                ),
            r == lookup(old(self).entries(), name@),
            r is None ==> final(self).entries() == old(self).entries(),
    {
        let (at, found) = self.position(name);
        let ghost before = self.entries();
        let ghost after = without(before, name@);
        proof {
            lemma_without(before, name@, name@);
            assert forall|other: Seq<char>| other != name@ implies lookup(after, other) == lookup(
                before,
                other,
            ) by {
                lemma_without(before, name@, other);
            }
        }
        if found {
            let mut items: Vec<(String, V)> = Vec::new();
            std::mem::swap(&mut self.items, &mut items);
            let item: (String, V) = items.remove(at);
            assert(Seq::new(items@.len(), |i: int| (items@[i].0@, items@[i].1)) =~= after);
            std::mem::swap(&mut self.items, &mut items);
            Some(item.1)
        } else {
            None
        }
    }
}

impl<V: Clone> Clone for NameMap<V> {
    /// A map with the same names, each with a clone of its value.
    fn clone(&self) -> (r: NameMap<V>)
        ensures
            r.names() == self.names(),
    {
        proof {
            use_type_invariant(self);
        }
        let mut items: Vec<(String, V)> = Vec::new();
        let len: usize = self.items.len();
        let mut i: usize = 0;
        while i < len
            invariant
                i <= len,
                len == self.items@.len(),
                items@.len() == i,
                forall|j: int| 0 <= j < i ==> (#[trigger] items@[j]).0@ == self.items@[j].0@,
            decreases len - i,
        {
            let name: String = self.items[i].0.clone();
            let value: V = self.items[i].1.clone();
            items.push((name, value));
            i = i + 1;
        }
        assert(names_ascend(Seq::new(items@.len(), |j: int| (items@[j].0@, items@[j].1)))) by {
            let copy = Seq::new(items@.len(), |j: int| (items@[j].0@, items@[j].1));
            assert forall|a: int, b: int| 0 <= a < b < copy.len() implies name_lt(
                #[trigger] copy[a].0,
                #[trigger] copy[b].0,
            ) by {
                assert(copy[a].0 == self.entries()[a].0);
                assert(copy[b].0 == self.entries()[b].0);
            }
        }
        let r = NameMap { items };
        r
    }
}

impl<V> Default for NameMap<V> {
    fn default() -> (r: NameMap<V>)
        ensures
            r.entries() == Seq::<(Seq<char>, V)>::empty(),
    {
        NameMap::new()
    }
}

} // verus!
