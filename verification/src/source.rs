use vstd::prelude::*;

verus! {

/// An abstract sequential byte source: "read up to `max` bytes, hand back
/// what was obtained". An empty result signals exhaustion.
///
/// `remaining` is the source's model: the bytes it has yet to deliver. A
/// read hands out a prefix of those bytes, in order — possibly fewer than
/// asked for at any call — and comes back empty only when nothing was asked
/// for or the source is exhausted.
///
/// Implementors outside this crate stand in for files, pipes or network
/// streams; unverified ones inherit the default (empty) model, and nothing
/// is proved about readers running over them.
pub trait ByteSource {
    /// The bytes the source has yet to deliver.
    open spec fn remaining(&self) -> Seq<u8> {
        Seq::empty()
    }

    /// Read up to `max` bytes; an empty result means the source is done.
    fn read_up_to(&mut self, max: usize) -> (r: Vec<u8>)
        ensures
            r@.len() <= max,
            r@.len() <= old(self).remaining().len(),
            r@ == old(self).remaining().take(r@.len() as int),
            final(self).remaining() == old(self).remaining().skip(r@.len() as int),
            r@.len() == 0 ==> max == 0 || old(self).remaining().len() == 0,
    ;
}

/// A source over an in-memory byte string, delivering at most `chunk` bytes
/// per read. A small `chunk` exercises callers against partial reads.
pub struct SliceSource {
    data: Vec<u8>,
    pos: usize,
    chunk: usize,
}

impl SliceSource {
    /// The most bytes a single read will deliver.
    pub closed spec fn chunk_limit(&self) -> nat {
        if self.chunk == 0 {
            usize::MAX as nat
        } else {
            self.chunk as nat
        }
    }

    /// A source that serves `data` in reads as large as callers ask for.
    pub fn new(data: Vec<u8>) -> (r: SliceSource)
        ensures
            r.remaining() == data@,
            r.chunk_limit() == usize::MAX,
    {
        let ghost d = data@;
        let r = SliceSource { data, pos: 0, chunk: usize::MAX };
        proof {
            assert(r.remaining() =~= d);
        }
        r
    }

    /// A source that serves `data` at most `chunk` bytes at a time.
    pub fn with_chunk(data: Vec<u8>, chunk: usize) -> (r: SliceSource)
        requires
            chunk >= 1,
        ensures
            r.remaining() == data@,
            r.chunk_limit() == chunk,
    {
        let ghost d = data@;
        let r = SliceSource { data, pos: 0, chunk };
        proof {
            assert(r.remaining() =~= d);
        }
        r
    }
}

impl ByteSource for SliceSource {
    /// The bytes from the cursor to the end of the string.
    closed spec fn remaining(&self) -> Seq<u8> {
        if self.pos <= self.data@.len() {
            self.data@.subrange(self.pos as int, self.data@.len() as int)
        } else {
            Seq::empty()
        }
    }

    /// Delivers the next `min(max, chunk_limit, remaining)` bytes of the
    /// string, in order.
    fn read_up_to(&mut self, max: usize) -> (r: Vec<u8>)
        ensures
            final(self).chunk_limit() == old(self).chunk_limit(),
            r@.len() <= old(self).chunk_limit(),
            r@.len() == max || r@.len() == old(self).chunk_limit() || r@.len() == old(
                self,
            ).remaining().len(),
    {
        let avail: usize = if self.pos <= self.data.len() {
            self.data.len() - self.pos
        } else {
            0
        };
        let limit: usize = if self.chunk == 0 {
            usize::MAX
        } else {
            self.chunk
        };
        let mut n: usize = if max < avail {
            max
        } else {
            avail
        };
        if limit < n {
            n = limit;
        }
        if n == 0 {
            proof {
                assert(self.remaining().take(0) =~= Seq::<u8>::empty());
                assert(self.remaining().skip(0) =~= self.remaining());
            }
            return Vec::new();
        }
        let mut r: Vec<u8> = Vec::new();
        let mut i: usize = 0;
        proof {
            assert(Seq::<u8>::empty() =~= self.data@.subrange(
                self.pos as int,
                self.pos as int,
            ));
        }
        while i < n
            invariant
                i <= n,
                self.data@.len() <= usize::MAX,
                self.pos + n <= self.data@.len(),
                r@ == self.data@.subrange(self.pos as int, self.pos + i),
            decreases n - i,
        {
            r.push(self.data[self.pos + i]);
            proof {
                assert(self.data@.subrange(self.pos as int, self.pos + i + 1)
                    =~= self.data@.subrange(self.pos as int, self.pos + i).push(
                    self.data@[self.pos + i],
                ));
            }
            i = i + 1;
        }
        proof {
            assert(r@ =~= old(self).remaining().take(n as int));
        }
        self.pos = self.pos + n;
        proof {
            assert(self.remaining() =~= old(self).remaining().skip(n as int));
        }
        r
    }
}

} // verus!
