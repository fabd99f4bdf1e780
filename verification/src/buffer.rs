use vstd::prelude::*;

verus! {

/// A growable byte buffer; its view is the sequence of bytes it holds.
pub struct Buffer {
    data: Vec<u8>,
}

impl View for Buffer {
    type V = Seq<u8>;

    closed spec fn view(&self) -> Seq<u8> {
        self.data@
    }
}

impl Buffer {
    pub fn new() -> (r: Self)
        ensures
            r@ == Seq::<u8>::empty(),
    {
        Buffer { data: Vec::new() }
    }

    /// An empty buffer with room for `cap` bytes reserved (a capacity beyond `isize::MAX`
    /// bytes cannot be allocated).
    pub fn with_capacity(cap: usize) -> (r: Self)
        requires
            cap <= isize::MAX,
        ensures
            r@ == Seq::<u8>::empty(),
    {
        Buffer { data: Vec::with_capacity(cap) }
    }

    pub fn from(data: Vec<u8>) -> (r: Self)
        ensures
            r@ == data@,
    {
        Buffer { data }
    }

    pub fn as_slice(&self) -> (r: &[u8])
        ensures
            r@ == self@,
    {
        self.data.as_slice()
    }

    /// The bytes, writable in place; the buffer ends up holding what the slice holds.
    pub fn as_mut_slice(&mut self) -> (r: &mut [u8])
        ensures
            r@ == old(self)@,
            final(self)@ == final(r)@,
    {
        self.data.as_mut_slice()
    }

    pub fn len(&self) -> (r: usize)
        ensures
            r == self@.len(),
    {
        self.data.len()
    }

    pub fn is_empty(&self) -> (r: bool)
        ensures
            r == (self@.len() == 0),
    {
        self.data.len() == 0
    }

    pub fn clear(&mut self)
        ensures
            final(self)@ == Seq::<u8>::empty(),
    {
        self.data.clear();
    }

    pub fn append(&mut self, other: &[u8])
        ensures
            final(self)@ == old(self)@ + other@,
    {
        self.data.extend_from_slice(other);
        assert(self.data@ =~= old(self)@ + other@);
    }

    pub fn append_byte(&mut self, byte: u8)
        ensures
            final(self)@ == old(self)@.push(byte),
    {
        self.data.push(byte);
    }

    /// Puts `other` in front of the byte at `pos`.
    pub fn insert(&mut self, pos: usize, other: &[u8])
        requires
            pos <= old(self)@.len(),
        ensures
            final(self)@ == old(self)@.subrange(0, pos as int) + other@ + old(self)@.subrange(
                pos as int,
                old(self)@.len() as int,
            ),
    {
        let tail = self.data.split_off(pos);
        self.data.extend_from_slice(other);
        self.data.extend_from_slice(tail.as_slice());
        assert(self.data@ =~= old(self)@.subrange(0, pos as int) + other@ + old(self)@.subrange(
            pos as int,
            old(self)@.len() as int,
        ));
    }

    /// Drops the first `len` bytes (all of them when `len` reaches the length).
    pub fn shorten(&mut self, len: usize)
        ensures
            len >= old(self)@.len() ==> final(self)@ == Seq::<u8>::empty(),
            len < old(self)@.len() ==> final(self)@ == old(self)@.subrange(
                len as int,
                old(self)@.len() as int,
            ),
    {
        if len >= self.data.len() {
            self.data.clear();
        } else {
            let rest = self.data.split_off(len);
            self.data = rest;
        }
    }

    /// Keeps the first `at` bytes and hands back the rest.
    pub fn split_off(&mut self, at: usize) -> (rest: Vec<u8>)
        requires
            at <= old(self)@.len(),
        ensures
            final(self)@ == old(self)@.subrange(0, at as int),
            rest@ == old(self)@.subrange(at as int, old(self)@.len() as int),
    {
        self.data.split_off(at)
    }

    pub fn into_inner(self) -> (r: Vec<u8>)
        ensures
            r@ == self@,
    {
        self.data
    }
}

impl Default for Buffer {
    fn default() -> (r: Self)
        ensures
            r@ == Seq::<u8>::empty(),
    {
        Buffer::new()
    }
}

impl From<Vec<u8>> for Buffer {
    fn from(data: Vec<u8>) -> (r: Self)
        ensures
            r@ == data@,
    {
        Buffer { data }
    }
}

impl AsRef<[u8]> for Buffer {
    fn as_ref(&self) -> (r: &[u8])
        ensures
            r@ == self@,
    {
        self.data.as_slice()
    }
}

impl vstd::std_specs::convert::FromSpecImpl<Vec<u8>> for Buffer {
    open spec fn obeys_from_spec() -> bool {
        true
    }

    closed spec fn from_spec(v: Vec<u8>) -> Buffer {
        Buffer { data: v }
    }
}

} // verus!
