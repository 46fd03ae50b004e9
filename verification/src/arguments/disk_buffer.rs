//! The window of bytes that the stream keeps of its file.
//!
//! The buffer never reads. Its owner reads the file, at most as many bytes as
//! the buffer has room for, and hands over what came as a [`DiskRead`].

use vstd::prelude::*;

verus! {

/// The number of bytes that the window holds.
pub const BUFFER_SIZE: usize = 8192;

/// What one attempt on the file gave.
#[derive(Debug, PartialEq, Eq)]
pub enum DiskRead {
    /// The file could not be opened, for this cause.
    Unopened(String),
    /// The read failed, for this cause.
    Failed(String),
    /// The read gave these bytes, the next of the file; none at its end.
    Bytes(Vec<u8>),
}

/// A fixed array of `BUFFER_SIZE` bytes, of which a prefix is filled, and the
/// path of the file that the bytes come from.
pub struct DiskBuffer {
    path: String,
    data: Vec<u8>,
    capacity: usize,
}

impl View for DiskBuffer {
    type V = Seq<u8>;

    /// The filled bytes. What lies behind them in the array is undefined.
    closed spec fn view(&self) -> Seq<u8> {
        self.data@.subrange(0, self.capacity as int)
    }
}

impl DiskBuffer {
    /// The array has its size and the filled prefix lies within it.
    pub closed spec fn wf(&self) -> bool {
        &&& self.data@.len() == BUFFER_SIZE
        &&& self.capacity <= BUFFER_SIZE
    }

    /// The path of the file.
    pub closed spec fn path(&self) -> Seq<char> {
        self.path@
    }

    /// The number of bytes that the array holds, filled or not.
    pub closed spec fn size(&self) -> nat {
        self.data@.len()
    }

    /// A well-formed buffer holds `BUFFER_SIZE` bytes, of which at most all
    /// are filled.
    pub proof fn lemma_bounded(&self)
        requires
            self.wf(),
        ensures
            self@.len() <= BUFFER_SIZE,
            self.size() == BUFFER_SIZE,
    {
    }

    /// An empty buffer for the file at `path`.
    pub fn new(path: &str) -> (buffer: DiskBuffer)
        ensures
            buffer.wf(),
            buffer@ == Seq::<u8>::empty(),
            buffer.path() == path@,
    {
        DiskBuffer { path: path.to_owned(), data: vec![0u8; BUFFER_SIZE], capacity: 0 }
    }

    /// The number of filled bytes.
    pub fn len(&self) -> (len: usize)
        requires
            self.wf(),
        ensures
            len == self@.len(),
            len <= BUFFER_SIZE,
    {
        self.capacity
    }

    /// The path of the file.
    pub fn path_name(&self) -> (path: String)
        ensures
            path@ == self.path(),
    {
        self.path.clone()
    }

    /// The filled bytes from `start` up to `end`.
    pub fn slice(&self, start: usize, end: usize) -> (bytes: &[u8])
        requires
            self.wf(),
            start <= end <= self@.len(),
        ensures
            bytes@ == self@.subrange(start as int, end as int),
    {
        let bytes = vstd::slice::slice_subrange(self.data.as_slice(), start, end);
        assert(bytes@ =~= self@.subrange(start as int, end as int));
        bytes
    }

    /// The filled byte at `index`.
    pub fn get(&self, index: usize) -> (byte: u8)
        requires
            self.wf(),
            index < self@.len(),
        ensures
            byte == self@[index as int],
    {
        self.data[index]
    }

    /// Drops the filled bytes before `from` and moves the rest to the front.
    pub fn shift(&mut self, from: usize)
        requires
            old(self).wf(),
            from <= old(self)@.len(),
        ensures
            final(self).wf(),
            final(self)@ == old(self)@.skip(from as int),
            final(self).path() == old(self).path(),
    {
        let kept = self.capacity - from;
        let mut i: usize = 0;
        while i < kept
            invariant
                self.wf(),
                self.capacity == old(self).capacity,
                self.path == old(self).path,
                kept == self.capacity - from,
                i <= kept,
                forall|j: int| 0 <= j < i ==> self.data@[j] == old(self).data@[j + from],
                forall|j: int| i + from <= j < self.capacity ==> self.data@[j] == old(self).data@[j],
            decreases kept - i,
        {
            let byte = self.data[i + from];
            self.data.set(i, byte);
            i += 1;
        }
        self.capacity = kept;
        assert(self@ =~= old(self)@.skip(from as int));
    }

    /// Refills the buffer: keeps the first `preserve` filled bytes where they
    /// are and puts the bytes of `incoming` behind them.
    pub fn buffer(&mut self, preserve: usize, incoming: &Vec<u8>)
        requires
            old(self).wf(),
            preserve <= old(self)@.len(),
            preserve + incoming@.len() <= BUFFER_SIZE,
        ensures
            final(self).wf(),
            final(self)@ == old(self)@.take(preserve as int) + incoming@,
            final(self).path() == old(self).path(),
    {
        let count = incoming.len();
        let mut i: usize = 0;
        while i < count
            invariant
                self.wf(),
                self.capacity == old(self).capacity,
                self.path == old(self).path,
                count == incoming@.len(),
                preserve + count <= BUFFER_SIZE,
                i <= count,
                forall|j: int| 0 <= j < preserve ==> self.data@[j] == old(self).data@[j],
                forall|j: int| 0 <= j < i ==> self.data@[preserve + j] == incoming@[j],
            decreases count - i,
        {
            self.data.set(preserve + i, incoming[i]);
            i += 1;
        }
        self.capacity = preserve + count;
        assert(self@ =~= old(self)@.take(preserve as int) + incoming@);
    }

    /// Drops the filled bytes from `len` on.
    pub fn truncate(&mut self, len: usize)
        requires
            old(self).wf(),
            len <= old(self)@.len(),
        ensures
            final(self).wf(),
            final(self)@ == old(self)@.take(len as int),
            final(self).path() == old(self).path(),
    {
        self.capacity = len;
        assert(self@ =~= old(self)@.take(len as int));
    }
}

} // verus!
