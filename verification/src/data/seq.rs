//! A sequence of buffers.
use vstd::prelude::*;
use vstd::std_specs::iter::IteratorSpec;
use super::buffer::Data;
use crate::codec::PlainBytes;
use crate::errors::Error;

verus! {

/// A sequence of buffers, with the count of them that is written beside it.
#[derive(Clone, Debug, PartialEq, PartialOrd, Eq, Ord, Hash)]
pub struct DataSeq {
    seq: Vec<Data>,
    length: usize,
}

/// The contents of buffers.
pub open spec fn contents(items: Seq<Data>) -> Seq<Seq<u8>> {
    Seq::new(items.len(), |i: int| items[i]@)
}

impl DataSeq {
    /// The contents of the buffers, in their order.
    pub closed spec fn items(&self) -> Seq<Seq<u8>> {
        contents(self.seq@)
    }

    /// The count that is written beside the buffers.
    pub closed spec fn counted(&self) -> usize {
        self.length
    }

    /// The empty sequence.
    pub fn new() -> (r: DataSeq)
        ensures
            r.items() == Seq::<Seq<u8>>::empty(),
            r.counted() == 0,
    {
        let r = DataSeq { seq: Vec::new(), length: 0 };
        assert(r.items() =~= Seq::<Seq<u8>>::empty());
        r
    }

    /// Copies of the buffers.
    pub fn to_vec(&self) -> (r: Vec<Data>)
        ensures
            contents(r@) == self.items(),
    {
        let mut out: Vec<Data> = Vec::new();
        let len: usize = self.seq.len();
        let mut i: usize = 0;
        while i < len
            invariant
                i <= len,
                len == self.seq@.len(),
                out@.len() == i,
                forall|j: int| 0 <= j < i ==> (#[trigger] out@[j])@ == self.seq@[j]@,
            decreases len - i,
        {
            out.push(Data::new(self.seq[i].to_vec()));
            i = i + 1;
        }
        assert(contents(out@) =~= self.items());
        out
    }

    /// The layout of the sequence, as a buffer.
    pub fn to_data(&self) -> (r: Result<Data, Error>)
        ensures
            r matches Ok(d) && d@ == Self::layout(self.plain()),
            Self::canonical(self.plain()),
    {
        Ok(Data::new(self.to_plain_bytes()))
    }

    /// The sequence whose layout `data` holds. Fails with
    /// `DeserializationError` where `data` starts with no such layout.
    pub fn from_data(data: &Data) -> (r: Result<DataSeq, Error>)
        ensures
            match Self::parsed(data@) {
                Some((value, _)) => r matches Ok(x) && x.plain() == value,
                None => r matches Err(e) && e is DeserializationError,
            },
    {
        DataSeq::from_plain_bytes(data.bytes.as_slice())
    }

    /// An iterator over a copy of the sequence.
    pub fn iter(&self) -> (r: DataSeqIterator)
        ensures
            r.remaining() == self.items(),
    {
        DataSeqIterator::new(self)
    }

    /// A copy of the buffer at `index`, if there is one. The sequence is
    /// left as it was.
    pub fn get(&mut self, index: usize) -> (r: Option<Data>)
        ensures
            final(self).items() == old(self).items(),
            final(self).counted() == old(self).counted(),
            match r {
                Some(d) => index < old(self).items().len() && d@ == old(self).items()[index as int],
                None => index >= old(self).items().len(),
            },
    {
        if index < self.seq.len() {
            Some(Data::new(self.seq[index].to_vec()))
        } else {
            None
        }
    }

    /// Appends `byte`; the count becomes the number of buffers.
    pub fn push(&mut self, byte: Data)
        ensures
            final(self).items() == old(self).items().push(byte@),
            final(self).counted() == final(self).items().len(),
    {
        self.seq.push(byte);
        self.length = self.seq.len();
        assert(self.items() =~= old(self).items().push(byte@));
    }

    /// Removes the last buffer and returns it; `None` on an empty sequence,
    /// which is left as it was. The count becomes the number of buffers.
    pub fn pop(&mut self) -> (r: Option<Data>)
        ensures
            match r {
                Some(d) => old(self).items().len() > 0 && d@ == old(self).items().last()
                    && final(self).items() == old(self).items().drop_last()
                    && final(self).counted() == final(self).items().len(),
                None => old(self).items().len() == 0 && final(self).items() == old(self).items()
                    && final(self).counted() == old(self).counted(),
            },
    {
        match self.seq.pop() {
            Some(data) => {
                self.length = self.seq.len();
                assert(self.items() =~= old(self).items().drop_last());
                Some(data)
            },
            None => None,
        }
    }

    /// The number of buffers.
    pub fn len(&self) -> (r: usize)
        ensures
            r == self.items().len(),
    {
        self.seq.len()
    }

    /// Whether the sequence holds no buffer.
    pub fn is_empty(&self) -> (r: bool)
        ensures
            r == (self.items().len() == 0),
    {
        self.seq.is_empty()
    }

    /// Appends every buffer that `iter` yields; the count becomes the number
    /// of buffers.
    pub fn extend<T: Iterator<Item = Data>>(&mut self, iter: T)
        requires
            iter.obeys_prophetic_iter_laws(),
            iter.decrease() is Some,
        ensures
            final(self).items() == old(self).items() + contents(iter.remaining()),
            final(self).counted() == final(self).items().len(),
    {
        let mut rest = iter;
        loop
            invariant
                rest.obeys_prophetic_iter_laws(),
                rest.decrease() is Some,
                self.items() + contents(rest.remaining()) == old(self).items() + contents(
                    iter.remaining(),
                ),
            decreases rest.decrease()->0,
        {
            let ghost before = rest.remaining();
            let ghost held = self.items();
            match rest.next() {
                Some(data) => {
                    self.seq.push(data);
                    assert(self.items() + contents(rest.remaining()) =~= held + contents(before));
                },
                None => {
                    self.length = self.seq.len();
                    assert(self.items() =~= old(self).items() + contents(iter.remaining()));
                    return ;
                },
            }
        }
    }

    /// A copy of the sequence with every buffer that `iter` yields appended.
    pub fn extended<T: Iterator<Item = Data>>(&self, iter: T) -> (r: DataSeq)
        requires
            iter.obeys_prophetic_iter_laws(),
            iter.decrease() is Some,
        ensures
            r.items() == self.items() + contents(iter.remaining()),
            r.counted() == r.items().len(),
    {
        let mut data = DataSeq { seq: self.to_vec(), length: self.length };
        assert(data.items() =~= self.items());
        data.extend(iter);
        data
    }

    /// The buffer at `index`.
    pub fn index(&self, index: usize) -> (r: &Data)
        requires
            index < self.items().len(),
        ensures
            r@ == self.items()[index as int],
    {
        &self.seq[index]
    }
}

impl PlainBytes for DataSeq {
    /// The contents of the buffers and the count beside them.
    type Plain = (Seq<Seq<u8>>, usize);

    closed spec fn plain(&self) -> (Seq<Seq<u8>>, usize) {
        (self.seq.plain(), self.length)
    }

    open spec fn canonical(value: (Seq<Seq<u8>>, usize)) -> bool {
        <(Vec<Data>, usize) as PlainBytes>::canonical(value)
    }

    open spec fn layout(value: (Seq<Seq<u8>>, usize)) -> Seq<u8> {
        <(Vec<Data>, usize) as PlainBytes>::layout(value)
    }

    open spec fn parsed(bytes: Seq<u8>) -> Option<((Seq<Seq<u8>>, usize), int)> {
        <(Vec<Data>, usize) as PlainBytes>::parsed(bytes)
    }

    proof fn lemma_parsed_layout(value: (Seq<Seq<u8>>, usize), rest: Seq<u8>) {
        <(Vec<Data>, usize) as PlainBytes>::lemma_parsed_layout(value, rest);
    }

    proof fn lemma_parsed_bounds(bytes: Seq<u8>) {
        <(Vec<Data>, usize) as PlainBytes>::lemma_parsed_bounds(bytes);
    }

    fn write_plain(&self, out: &mut Vec<u8>) {
        self.seq.write_plain(out);
        self.length.write_plain(out);
        assert(out@ =~= old(out)@ + Self::layout(self.plain()));
    }

    fn read_plain(bytes: &[u8], start: usize) -> (r: Option<(Self, usize)>) {
        match <(Vec<Data>, usize) as PlainBytes>::read_plain(bytes, start) {
            Some(((seq, length), end)) => Some((DataSeq { seq, length }, end)),
            None => None,
        }
    }
}

impl DataSeq {
    /// The value of a sequence is the contents of its buffers with its count.
    pub proof fn lemma_plain(&self)
        ensures
            self.plain() == (self.items(), self.counted()),
    {
        assert(self.seq.plain() =~= self.items());
    }
}

/// Walks over a copy of a sequence of buffers.
#[derive(Clone, Debug, PartialEq, PartialOrd, Eq, Ord, Hash)]
pub struct DataSeqIterator {
    seq: DataSeq,
    pos: usize,
}

impl DataSeqIterator {
    /// The contents of the buffers that are still to come.
    pub closed spec fn remaining(&self) -> Seq<Seq<u8>> {
        if self.pos <= self.seq.items().len() {
            self.seq.items().skip(self.pos as int)
        } else {
            Seq::empty()
        }
    }

    /// An iterator at the start of a copy of `seq`.
    pub fn new(seq: &DataSeq) -> (r: DataSeqIterator)
        ensures
            r.remaining() == seq.items(),
    {
        let copy = DataSeq { seq: seq.to_vec(), length: seq.length };
        assert(copy.items() =~= seq.items());
        let r = DataSeqIterator { seq: copy, pos: 0 };
        assert(r.seq.items().skip(0) =~= seq.items());
        r
    }

    /// A copy of the next buffer, or `None` when all have been handed out.
    pub fn next(&mut self) -> (r: Option<Data>)
        ensures
            match r {
                Some(d) => old(self).remaining().len() > 0 && d@ == old(self).remaining()[0]
                    && final(self).remaining() == old(self).remaining().drop_first(),
                None => old(self).remaining().len() == 0 && final(self).remaining() == old(
                    self,
                ).remaining(),
            },
    {
        if self.pos < self.seq.seq.len() {
            let item: Data = Data::new(self.seq.seq[self.pos].to_vec());
            self.pos = self.pos + 1;
            assert(self.seq.items().skip(self.pos as int) =~= old(self).seq.items().skip(
                old(self).pos as int,
            ).drop_first());
            Some(item)
        } else {
            None
        }
    }
}

} // verus!
