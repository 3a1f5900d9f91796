//! The source from which topology and weight bytes are pulled, in order.

use vstd::prelude::*;

verus! {

/// What a reader is: the bytes of its source and how many of them have been
/// read.
pub struct DataReaderView {
    pub bytes: Seq<u8>,
    pub position: nat,
}

impl DataReaderView {
    /// Bytes not yet read.
    pub open spec fn remaining(self) -> nat {
        (self.bytes.len() - self.position) as nat
    }

    /// The bytes that a read of up to `count` bytes hands out.
    pub open spec fn next(self, count: nat) -> Seq<u8> {
        self.bytes.subrange(
            self.position as int,
            self.position + vstd::math::min(count as int, self.remaining() as int),
        )
    }
}

/// Reading in two steps hands out what reading in one step does: nothing is
/// skipped and nothing is read twice.
pub proof fn lemma_reads_join(reader: DataReaderView, first: nat, second: nat)
    requires
        reader.position <= reader.bytes.len(),
    ensures
        ({
            let head = reader.next(first);
            let rest = DataReaderView { position: reader.position + head.len(), ..reader };
            head + rest.next(second) == reader.next(first + second)
        }),
{
    let head = reader.next(first);
    let rest = DataReaderView { position: reader.position + head.len(), ..reader };
    assert(head + rest.next(second) =~= reader.next(first + second));
}

/// A byte source that is read front to back. What has been read cannot be
/// read again: there is no way back.
#[derive(Debug)]
pub struct DataReader {
    bytes: Vec<u8>,
    position: usize,
}

impl View for DataReader {
    type V = DataReaderView;

    closed spec fn view(&self) -> DataReaderView {
        DataReaderView { bytes: self.bytes@, position: self.position as nat }
    }
}

impl DataReader {
    /// The position lies within the source.
    pub open spec fn wf(&self) -> bool {
        self@.position <= self@.bytes.len()
    }

    /// A reader at the start of `bytes`.
    pub fn from_memory(bytes: Vec<u8>) -> (reader: Self)
        ensures
            reader@ == (DataReaderView { bytes: bytes@, position: 0 }),
            reader.wf(),
    {
        DataReader { bytes, position: 0 }
    }

    /// Bytes not yet read.
    pub fn remaining(&self) -> (n: usize)
        requires
            self.wf(),
        ensures
            n == self@.remaining(),
    {
        self.bytes.len() - self.position
    }

    /// Reads the next `count` bytes, or as many as are left where they are
    /// fewer.
    pub fn read(&mut self, count: usize) -> (out: Vec<u8>)
        requires
            old(self).wf(),
        ensures
            out@ == old(self)@.next(count as nat),
            final(self)@ == (DataReaderView {
                position: old(self)@.position + out@.len(),
                ..old(self)@
            }),
            final(self).wf(),
    {
        let len: usize = self.bytes.len();
        let left: usize = len - self.position;
        let take: usize = if count < left {
            count
        } else {
            left
        };
        let mut out: Vec<u8> = Vec::new();
        let start: usize = self.position;
        let mut i: usize = 0;
        while i < take
            invariant
                i <= take,
                start + take <= len,
                len == self.bytes@.len(),
                self.bytes@ == old(self).bytes@,
                self.position == start,
                out@ == self.bytes@.subrange(start as int, start + i),
            decreases take - i,
        {
            out.push(self.bytes[start + i]);
            i = i + 1;
            assert(out@ =~= self.bytes@.subrange(start as int, start + i));
        }
        self.position = start + take;
        out
    }
}

} // verus!
