//! Layouts of the building blocks: lengths, fixed arrays, pairs, sequences
//! and maps from names.
use vstd::prelude::*;
use crate::codec::{read_u64, u64_layout, u64_parsed, write_u64, lemma_u64_parsed_layout, PlainBytes};
use crate::name_map::{collected, names_ascend, put, rank, lemma_collected_ascending, NameMap};

verus! {

impl PlainBytes for usize {
    type Plain = usize;

    open spec fn plain(&self) -> usize {
        *self
    }

    open spec fn canonical(value: usize) -> bool {
        true
    }

    open spec fn layout(value: usize) -> Seq<u8> {
        u64_layout(value as u64)
    }

    open spec fn parsed(bytes: Seq<u8>) -> Option<(usize, int)> {
        match u64_parsed(bytes) {
            Some((n, used)) => if n <= usize::MAX {
                Some((n as usize, used))
            } else {
                None
            },
            None => None,
        }
    }

    proof fn lemma_parsed_layout(value: usize, rest: Seq<u8>) {
        lemma_u64_parsed_layout(value as u64, rest);
    }

    proof fn lemma_parsed_bounds(bytes: Seq<u8>) {
    }

    fn write_plain(&self, out: &mut Vec<u8>) {
        write_u64(*self as u64, out);
    }

    fn read_plain(bytes: &[u8], start: usize) -> (r: Option<(Self, usize)>) {
        match read_u64(bytes, start) {
            Some((n, end)) => if n <= usize::MAX as u64 {
                Some((n as usize, end))
            } else {
                None
            },
            None => None,
        }
    }
}

impl<const N: usize> PlainBytes for [u8; N] {
    type Plain = Seq<u8>;

    open spec fn plain(&self) -> Seq<u8> {
        self@
    }

    open spec fn canonical(value: Seq<u8>) -> bool {
        value.len() == N
    }

    open spec fn layout(value: Seq<u8>) -> Seq<u8> {
        value
    }

    open spec fn parsed(bytes: Seq<u8>) -> Option<(Seq<u8>, int)> {
        if bytes.len() < N {
            None
        } else {
            Some((bytes.take(N as int), N as int))
        }
    }

    proof fn lemma_parsed_layout(value: Seq<u8>, rest: Seq<u8>) {
        assert((value + rest).take(N as int) =~= value);
    }

    proof fn lemma_parsed_bounds(bytes: Seq<u8>) {
    }

    fn write_plain(&self, out: &mut Vec<u8>) {
        out.extend_from_slice(self.as_slice());
        assert(out@ =~= old(out)@ + self@);
    }

    fn read_plain(bytes: &[u8], start: usize) -> (r: Option<(Self, usize)>) {
        if bytes.len() - start < N {
            return None;
        }
        let mut field: [u8; N] = [0u8; N];
        let mut i: usize = 0;
        while i < N
            invariant
                i <= N,
                start + N <= bytes@.len(),
                bytes@.len() <= usize::MAX,
                forall|j: int| 0 <= j < i ==> field@[j] == bytes@[start + j],
            decreases N - i,
        {
            field[i] = bytes[start + i];
            i = i + 1;
        }
        assert(field@ =~= bytes@.skip(start as int).take(N as int));
        Some((field, start + N))
    }
}

impl<A: PlainBytes, B: PlainBytes> PlainBytes for (A, B) {
    type Plain = (A::Plain, B::Plain);

    open spec fn plain(&self) -> (A::Plain, B::Plain) {
        (self.0.plain(), self.1.plain())
    }

    open spec fn canonical(value: (A::Plain, B::Plain)) -> bool {
        A::canonical(value.0) && B::canonical(value.1)
    }

    open spec fn layout(value: (A::Plain, B::Plain)) -> Seq<u8> {
        A::layout(value.0) + B::layout(value.1)
    }

    open spec fn parsed(bytes: Seq<u8>) -> Option<((A::Plain, B::Plain), int)> {
        match A::parsed(bytes) {
            Some((a, used)) => match B::parsed(bytes.skip(used)) {
                Some((b, more)) => Some(((a, b), used + more)),
                None => None,
            },
            None => None,
        }
    }

    proof fn lemma_parsed_layout(value: (A::Plain, B::Plain), rest: Seq<u8>) {
        let first = A::layout(value.0);
        let second = B::layout(value.1);
        A::lemma_parsed_layout(value.0, second + rest);
        B::lemma_parsed_layout(value.1, rest);
        assert((first + second) + rest =~= first + (second + rest));
        assert((first + (second + rest)).skip(first.len() as int) =~= second + rest);
    }

    proof fn lemma_parsed_bounds(bytes: Seq<u8>) {
        A::lemma_parsed_bounds(bytes);
        if let Some((_, used)) = A::parsed(bytes) {
            B::lemma_parsed_bounds(bytes.skip(used));
        }
    }

    fn write_plain(&self, out: &mut Vec<u8>) {
        self.0.write_plain(out);
        self.1.write_plain(out);
        assert(out@ =~= old(out)@ + Self::layout(self.plain()));
    }

    fn read_plain(bytes: &[u8], start: usize) -> (r: Option<(Self, usize)>) {
        proof {
            A::lemma_parsed_bounds(bytes@.skip(start as int));
        }
        match A::read_plain(bytes, start) {
            None => None,
            Some((a, middle)) => {
                assert(bytes@.skip(middle as int) =~= bytes@.skip(start as int).skip(
                    middle - start,
                ));
                match B::read_plain(bytes, middle) {
                    None => None,
                    Some((b, end)) => Some(((a, b), end)),
                }
            },
        }
    }
}

/// The values of the items of a sequence.
pub open spec fn plain_items<T: PlainBytes>(items: Seq<T>) -> Seq<T::Plain> {
    Seq::new(items.len(), |i: int| items[i].plain())
}

/// The layouts of `items`, one after the other.
pub open spec fn items_layout<T: PlainBytes>(items: Seq<T::Plain>) -> Seq<u8>
    decreases items.len(),
{
    if items.len() == 0 {
        Seq::empty()
    } else {
        items_layout::<T>(items.drop_last()) + T::layout(items.last())
    }
}

/// The first `count` values at the front of `bytes`, with the bytes they take.
pub open spec fn items_parsed<T: PlainBytes>(bytes: Seq<u8>, count: nat) -> Option<
    (Seq<T::Plain>, int),
>
    decreases count,
{
    if count == 0 {
        Some((Seq::empty(), 0))
    } else {
        match items_parsed::<T>(bytes, (count - 1) as nat) {
            Some((front, used)) => match T::parsed(bytes.skip(used)) {
                Some((item, more)) => Some((front.push(item), used + more)),
                None => None,
            },
            None => None,
        }
    }
}

/// Whether every item is canonical and their number fits the length field.
pub open spec fn items_canonical<T: PlainBytes>(items: Seq<T::Plain>) -> bool {
    &&& items.len() <= u64::MAX
    &&& forall|i: int| 0 <= i < items.len() ==> T::canonical(#[trigger] items[i])
}

/// Parsing items consumes no more than it is given and yields `count` of them.
pub proof fn lemma_items_parsed_bounds<T: PlainBytes>(bytes: Seq<u8>, count: nat)
    ensures
        items_parsed::<T>(bytes, count) matches Some((items, used)) ==> 0 <= used <= bytes.len()
            && items.len() == count,
    decreases count,
{
    if count > 0 {
        lemma_items_parsed_bounds::<T>(bytes, (count - 1) as nat);
        if let Some((_, used)) = items_parsed::<T>(bytes, (count - 1) as nat) {
            T::lemma_parsed_bounds(bytes.skip(used));
        }
    }
}

/// Where fewer items can be parsed, more cannot.
pub proof fn lemma_items_parsed_fails<T: PlainBytes>(bytes: Seq<u8>, few: nat, count: nat)
    requires
        few <= count,
        items_parsed::<T>(bytes, few) is None,
    ensures
        items_parsed::<T>(bytes, count) is None,
    decreases count,
{
    if few < count {
        lemma_items_parsed_fails::<T>(bytes, few, (count - 1) as nat);
    }
}

/// Parsing the layouts of items gives the items back.
pub proof fn lemma_items_parsed_layout<T: PlainBytes>(items: Seq<T::Plain>, rest: Seq<u8>)
    requires
        items_canonical::<T>(items),
    ensures
        items_parsed::<T>(items_layout::<T>(items) + rest, items.len()) == Some(
            (items, items_layout::<T>(items).len() as int),
        ),
    decreases items.len(),
{
    if items.len() == 0 {
        assert(items =~= Seq::empty());
    } else {
        let front = items.drop_last();
        let tail = T::layout(items.last());
        lemma_items_parsed_layout::<T>(front, tail + rest);
        T::lemma_parsed_layout(items.last(), rest);
        let whole = items_layout::<T>(items) + rest;
        assert(whole =~= items_layout::<T>(front) + (tail + rest));
        assert(whole.skip(items_layout::<T>(front).len() as int) =~= tail + rest);
        assert(front.push(items.last()) =~= items);
    }
}

impl<T: PlainBytes> PlainBytes for Vec<T> {
    type Plain = Seq<T::Plain>;

    open spec fn plain(&self) -> Seq<T::Plain> {
        plain_items(self@)
    }

    open spec fn canonical(value: Seq<T::Plain>) -> bool {
        items_canonical::<T>(value)
    }

    open spec fn layout(value: Seq<T::Plain>) -> Seq<u8> {
        u64_layout(value.len() as u64) + items_layout::<T>(value)
    }

    open spec fn parsed(bytes: Seq<u8>) -> Option<(Seq<T::Plain>, int)> {
        match u64_parsed(bytes) {
            Some((count, _)) => match items_parsed::<T>(bytes.skip(8), count as nat) {
                Some((items, used)) => Some((items, 8 + used)),
                None => None,
            },
            None => None,
        }
    }

    proof fn lemma_parsed_layout(value: Seq<T::Plain>, rest: Seq<u8>) {
        let body = items_layout::<T>(value);
        lemma_u64_parsed_layout(value.len() as u64, body + rest);
        lemma_items_parsed_layout::<T>(value, rest);
        let whole = Self::layout(value) + rest;
        assert(whole =~= u64_layout(value.len() as u64) + (body + rest));
        assert(whole.skip(8) =~= body + rest);
    }

    proof fn lemma_parsed_bounds(bytes: Seq<u8>) {
        if let Some((count, _)) = u64_parsed(bytes) {
            lemma_items_parsed_bounds::<T>(bytes.skip(8), count as nat);
        }
    }

    fn write_plain(&self, out: &mut Vec<u8>) {
        let len: usize = self.len();
        write_u64(len as u64, out);
        let ghost items = self.plain();
        let mut i: usize = 0;
        assert(items.take(0) =~= Seq::<T::Plain>::empty());
        while i < len
            invariant
                i <= len,
                len == self@.len(),
                items == plain_items(self@),
                out@ == old(out)@ + u64_layout(len as u64) + items_layout::<T>(items.take(i as int)),
                forall|j: int| 0 <= j < i ==> T::canonical(#[trigger] items[j]),
            decreases len - i,
        {
            self[i].write_plain(out);
            proof {
                let longer = items.take(i as int + 1);
                assert(longer.drop_last() =~= items.take(i as int));
                assert(longer.last() == self@[i as int].plain());
                assert(out@ =~= old(out)@ + u64_layout(len as u64) + items_layout::<T>(longer));
            }
            i = i + 1;
        }
        assert(items.take(len as int) =~= items);
        assert(out@ =~= old(out)@ + Self::layout(self.plain()));
    }

    fn read_plain(bytes: &[u8], start: usize) -> (r: Option<(Self, usize)>) {
        match read_u64(bytes, start) {
            None => None,
            Some((count, first)) => {
                let ghost body = bytes@.skip(start as int).skip(8);
                assert(body =~= bytes@.skip(first as int));
                let mut items: Vec<T> = Vec::new();
                let mut at: usize = first;
                let mut i: u64 = 0;
                assert(plain_items(items@) =~= Seq::<T::Plain>::empty());
                while i < count
                    invariant
                        i <= count,
                        first <= at <= bytes@.len(),
                        first == start + 8,
                        body == bytes@.skip(first as int),
                        body == bytes@.skip(start as int).skip(8),
                        u64_parsed(bytes@.skip(start as int)) == Some((count, 8int)),
                        items_parsed::<T>(body, i as nat) == Some(
                            (plain_items(items@), at - first),
                        ),
                    decreases count - i,
                {
                    assert(bytes@.skip(at as int) =~= body.skip(at - first));
                    proof {
                        T::lemma_parsed_bounds(bytes@.skip(at as int));
                    }
                    match T::read_plain(bytes, at) {
                        None => {
                            proof {
                                assert(items_parsed::<T>(body, (i + 1) as nat) is None);
                                lemma_items_parsed_fails::<T>(body, (i + 1) as nat, count as nat);
                            }
                            return None;
                        },
                        Some((item, end)) => {
                            let ghost before = plain_items(items@);
                            items.push(item);
                            assert(plain_items(items@) =~= before.push(item.plain()));
                            at = end;
                            i = i + 1;
                        },
                    }
                }
                Some((items, at))
            },
        }
    }
}

/// The values of the entries of a map, under their names.
pub open spec fn plain_entries<V: PlainBytes>(m: Seq<(Seq<char>, V)>) -> Seq<
    (Seq<char>, V::Plain),
> {
    Seq::new(m.len(), |i: int| (m[i].0, m[i].1.plain()))
}

/// The rank of a name depends on the names alone.
pub proof fn lemma_rank_of_names<V, W>(m: Seq<(Seq<char>, V)>, n: Seq<(Seq<char>, W)>, name: Seq<char>)
    requires
        m.len() == n.len(),
        forall|i: int| 0 <= i < m.len() ==> (#[trigger] m[i]).0 == (#[trigger] n[i]).0,
    ensures
        rank(m, name) == rank(n, name),
    decreases m.len(),
{
    if m.len() > 0 {
        assert(m.last().0 == m[m.len() - 1].0);
        assert(n.last().0 == n[n.len() - 1].0);
        assert(m[m.len() - 1].0 == n[m.len() - 1].0);
        assert forall|i: int| 0 <= i < m.drop_last().len() implies (#[trigger] m.drop_last()[i]).0
            == (#[trigger] n.drop_last()[i]).0 by {
            assert(m.drop_last()[i] == m[i]);
            assert(n.drop_last()[i] == n[i]);
        }
        lemma_rank_of_names(m.drop_last(), n.drop_last(), name);
    }
}

/// Putting a value and taking the values of the entries can be swapped.
pub proof fn lemma_plain_put<V: PlainBytes>(m: Seq<(Seq<char>, V)>, name: Seq<char>, value: V)
    ensures
        plain_entries(put(m, name, value)) == put(plain_entries(m), name, value.plain()),
{
    assert forall|i: int| 0 <= i < m.len() implies (#[trigger] m[i]).0 == (
    #[trigger] plain_entries(m)[i]).0 by {}
    lemma_rank_of_names(m, plain_entries(m), name);
    crate::name_map::lemma_rank_bounds(m, name);
    assert(plain_entries(put(m, name, value)) =~= put(plain_entries(m), name, value.plain()));
}

impl<V: PlainBytes> PlainBytes for NameMap<V> {
    type Plain = Seq<(Seq<char>, V::Plain)>;

    open spec fn plain(&self) -> Seq<(Seq<char>, V::Plain)> {
        plain_entries(self.entries())
    }

    open spec fn canonical(value: Seq<(Seq<char>, V::Plain)>) -> bool {
        names_ascend(value) && items_canonical::<(String, V)>(value)
    }

    open spec fn layout(value: Seq<(Seq<char>, V::Plain)>) -> Seq<u8> {
        <Vec<(String, V)> as PlainBytes>::layout(value)
    }

    open spec fn parsed(bytes: Seq<u8>) -> Option<(Seq<(Seq<char>, V::Plain)>, int)> {
        match <Vec<(String, V)> as PlainBytes>::parsed(bytes) {
            Some((pairs, used)) => Some((collected(pairs), used)),
            None => None,
        }
    }

    proof fn lemma_parsed_layout(value: Seq<(Seq<char>, V::Plain)>, rest: Seq<u8>) {
        <Vec<(String, V)> as PlainBytes>::lemma_parsed_layout(value, rest);
        lemma_collected_ascending(value);
    }

    proof fn lemma_parsed_bounds(bytes: Seq<u8>) {
        <Vec<(String, V)> as PlainBytes>::lemma_parsed_bounds(bytes);
    }

    fn write_plain(&self, out: &mut Vec<u8>) {
        let len: usize = self.len();
        write_u64(len as u64, out);
        let ghost items = self.plain();
        assert(names_ascend(items)) by {
            assert forall|a: int, b: int| 0 <= a < b < items.len() implies crate::name_map::name_lt(
                #[trigger] items[a].0,
                #[trigger] items[b].0,
            ) by {
                assert(items[a].0 == self.entries()[a].0);
                assert(items[b].0 == self.entries()[b].0);
            }
        }
        let mut i: usize = 0;
        assert(items.take(0) =~= Seq::<(Seq<char>, V::Plain)>::empty());
        while i < len
            invariant
                i <= len,
                len == self.entries().len(),
                items == plain_entries(self.entries()),
                out@ == old(out)@ + u64_layout(len as u64) + items_layout::<(String, V)>(
                    items.take(i as int),
                ),
                forall|j: int| 0 <= j < i ==> <(String, V) as PlainBytes>::canonical(#[trigger] items[j]),
            decreases len - i,
        {
            let (name, value) = self.entry_at(i);
            let ghost mid = out@;
            name.write_plain(out);
            value.write_plain(out);
            proof {
                let longer = items.take(i as int + 1);
                assert(longer.drop_last() =~= items.take(i as int));
                assert(longer.last() == (name@, value.plain()));
                assert(out@ =~= mid + <(String, V) as PlainBytes>::layout(longer.last()));
                assert(out@ =~= old(out)@ + u64_layout(len as u64) + items_layout::<(String, V)>(
                    longer,
                ));
            }
            i = i + 1;
        }
        assert(items.take(len as int) =~= items);
        assert(out@ =~= old(out)@ + Self::layout(self.plain()));
    }

    fn read_plain(bytes: &[u8], start: usize) -> (r: Option<(Self, usize)>) {
        match <Vec<(String, V)> as PlainBytes>::read_plain(bytes, start) {
            None => None,
            Some((pairs, end)) => {
                let ghost all = pairs.plain();
                let mut rest: Vec<(String, V)> = pairs;
                let mut map: NameMap<V> = NameMap::new();
                let ghost mut done: int = 0;
                assert(map.plain() =~= collected(all.take(0))) by {
                    assert(all.take(0) =~= Seq::<(Seq<char>, V::Plain)>::empty());
                }
                while rest.len() > 0
                    invariant
                        0 <= done <= all.len(),
                        rest@.len() == all.len() - done,
                        plain_items(rest@) == all.skip(done),
                        map.plain() == collected(all.take(done)),
                    decreases rest@.len(),
                {
                    let ghost before = map.entries();
                    let ghost left = plain_items(rest@);
                    let item: (String, V) = rest.remove(0);
                    proof {
                        assert(item.plain() == left[0]);
                        assert(left[0] == all[done]);
                        assert forall|k: int| 0 <= k < rest@.len() implies plain_items(rest@)[k]
                            == all.skip(done + 1)[k] by {
                            assert(left[k + 1] == all.skip(done)[k + 1]);
                        }
                        assert(plain_items(rest@) =~= all.skip(done + 1));
                        lemma_plain_put(before, item.0@, item.1);
                        let longer = all.take(done + 1);
                        assert(longer.drop_last() =~= all.take(done));
                        assert(longer.last() == all[done]);
                    }
                    map.insert(item.0, item.1);
                    proof {
                        done = done + 1;
                    }
                }
                assert(all.take(done) =~= all);
                Some((map, end))
            },
        }
    }
}

} // verus!
