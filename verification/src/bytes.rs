//! Peek-and-push access to a byte stream.
use vstd::prelude::*;
use crate::error::Error;
use vstd::slice::slice_to_vec;

verus! {

/// Bytes provides the ability to read bytes from a byte stream and push them
/// back if they are not needed, i.e., Peek-and-push.
///
/// The stream is the byte sequence given to [Bytes::new]. Bytes pushed back are
/// kept in a cache and taken again, by [Bytes::next] and [Bytes::fill], in the
/// order they were pushed: the original order of the bytes is preserved.
pub struct Bytes {
    source: Vec<u8>,
    // position of the next byte of `source` not yet taken from the stream
    pos: usize,
    num_read: usize,
    cache: Vec<u8>,
}

impl Bytes {
    /// Well-formedness: successful reads never exceed the stream position.
    pub closed spec fn wf(&self) -> bool {
        self.num_read <= self.pos <= self.source@.len()
    }

    pub proof fn lemma_wf(&self)
        requires
            self.wf(),
        ensures
            0 <= self.num_read_view() <= self.pos_view() <= self.source_view().len(),
    {
    }

    /// The whole underlying byte stream.
    pub closed spec fn source_view(&self) -> Seq<u8> {
        self.source@
    }

    /// Number of bytes of the stream taken so far, including those a failed
    /// fill consumed.
    pub closed spec fn pos_view(&self) -> int {
        self.pos as int
    }

    /// Number of stream bytes read by successful reads.
    pub closed spec fn num_read_view(&self) -> int {
        self.num_read as int
    }

    /// The bytes pushed back and not yet taken again.
    pub closed spec fn cache_view(&self) -> Seq<u8> {
        self.cache@
    }

    /// Stream bytes not yet taken.
    pub open spec fn remaining(&self) -> Seq<u8> {
        self.source_view().subrange(self.pos_view(), self.source_view().len() as int)
    }

    /// The bytes that [Bytes::next] would take, in order: the pushed-back bytes,
    /// in the order they were pushed, then the rest of the stream.
    pub open spec fn stream(&self) -> Seq<u8> {
        self.cache_view() + self.remaining()
    }

    /// Bytes taken minus bytes pushed back; what [Bytes::offset] returns.
    pub open spec fn taken(&self) -> int {
        self.num_read_view() - self.cache_view().len()
    }

    pub fn new(reader: Vec<u8>) -> (b: Self)
        ensures
            b.wf(),
            b.source_view() == reader@,
            b.pos_view() == 0,
            b.num_read_view() == 0,
            b.cache_view() == Seq::<u8>::empty(),
    {
        Bytes { source: reader, pos: 0, num_read: 0, cache: Vec::new() }
    }

    /// Number of bytes read from the stream by successful reads.
    pub fn num_read(&self) -> (n: usize)
        ensures
            n == self.num_read_view(),
    {
        self.num_read
    }

    /// The bytes currently pushed back.
    pub fn cache(&self) -> (c: &[u8])
        ensures
            c@ == self.cache_view(),
    {
        self.cache.as_slice()
    }

    /// Take the next byte: the first pushed-back byte if any, else the next byte of
    /// the stream.
    ///
    /// # Errors
    /// [Error::UnexpectedEof] if there is no pushed byte and the stream is done.
    pub fn next(&mut self) -> (res: Result<u8, Error>)
        requires
            old(self).wf(),
        ensures
            final(self).wf(),
            final(self).source_view() == old(self).source_view(),
            old(self).cache_view().len() > 0 ==> {
                &&& res == Ok::<u8, Error>(old(self).cache_view()[0])
                &&& final(self).cache_view() == old(self).cache_view().drop_first()
                &&& final(self).pos_view() == old(self).pos_view()
                &&& final(self).num_read_view() == old(self).num_read_view()
            },
            old(self).cache_view().len() == 0 && old(self).remaining().len() > 0 ==> {
                &&& res == Ok::<u8, Error>(old(self).remaining()[0])
                &&& final(self).cache_view() == old(self).cache_view()
                &&& final(self).pos_view() == old(self).pos_view() + 1
                &&& final(self).num_read_view() == old(self).num_read_view() + 1
            },
            res is Ok <==> old(self).stream().len() > 0,
            res is Ok ==> {
                &&& res == Ok::<u8, Error>(old(self).stream()[0])
                &&& final(self).stream() == old(self).stream().drop_first()
                &&& final(self).taken() == old(self).taken() + 1
            },
            old(self).cache_view().len() == 0 && old(self).remaining().len() == 0 ==> {
                &&& res matches Err(Error::UnexpectedEof)
                &&& final(self).cache_view() == old(self).cache_view()
                &&& final(self).pos_view() == old(self).pos_view()
                &&& final(self).num_read_view() == old(self).num_read_view()
            },
    {
        let ghost c = self.cache@;
        let ghost r = self.remaining();
        if self.cache.len() > 0 {
            let b = self.cache.remove(0);
            assert(self.cache@ =~= c.drop_first());
            assert(self.cache@ + r =~= (c + r).drop_first());
            Ok(b)
        } else {
            {
                if self.pos >= self.source.len() {
                    return Err(Error::UnexpectedEof);
                }
                let b = self.source[self.pos];
                self.pos = self.pos + 1;
                self.num_read = self.num_read + 1;
                assert(c =~= Seq::<u8>::empty());
                assert(self.stream() =~= old(self).stream().drop_first());
                Ok(b)
            }
        }
    }

    /// Fill `buf`, first with the pushed-back bytes in the order they were pushed,
    /// then with stream bytes.
    ///
    /// Returns `Ok(false)` if there are no pushed-back bytes and the stream ends
    /// before `buf` is full; the rest of the stream is then consumed and `buf` left
    /// unchanged.
    ///
    /// # Errors
    /// [Error::UnexpectedEof] if there are some, but too few, pushed-back bytes and
    /// the stream ends before `buf` is full; the rest of the stream is then consumed.
    pub fn fill(&mut self, buf: &mut [u8]) -> (res: Result<bool, Error>)
        requires
            old(self).wf(),
        ensures
            final(self).wf(),
            final(self).source_view() == old(self).source_view(),
            final(buf)@.len() == old(buf)@.len(),
            old(self).cache_view().len() <= 1 ==> {
                let n = old(buf)@.len();
                &&& (old(self).stream().len() >= n ==> {
                    &&& res == Ok::<bool, Error>(true)
                    &&& final(buf)@ == old(self).stream().subrange(0, n as int)
                    &&& final(self).stream() == old(self).stream().subrange(
                        n as int,
                        old(self).stream().len() as int,
                    )
                    &&& (n > 0 ==> final(self).cache_view().len() == 0)
                    &&& final(self).cache_view().len() <= old(self).cache_view().len()
                    &&& final(self).taken() == old(self).taken() + n
                })
                &&& (old(self).stream().len() < n ==> res != Ok::<bool, Error>(true))
            },
            ({
                let c = old(self).cache_view();
                let n = old(buf)@.len();
                let rem = old(self).remaining();
                if c.len() == 0 {
                    if rem.len() >= n {
                        &&& res == Ok::<bool, Error>(true)
                        &&& final(buf)@ == rem.subrange(0, n as int)
                        &&& final(self).pos_view() == old(self).pos_view() + n
                        &&& final(self).num_read_view() == old(self).num_read_view() + n
                        &&& final(self).cache_view() == c
                    } else {
                        &&& res == Ok::<bool, Error>(false)
                        &&& final(buf)@ == old(buf)@
                        &&& final(self).pos_view() == old(self).source_view().len()
                        &&& final(self).num_read_view() == old(self).num_read_view()
                        &&& final(self).cache_view() == c
                    }
                } else if c.len() < n {
                    if rem.len() >= n - c.len() {
                        &&& res == Ok::<bool, Error>(true)
                        &&& final(buf)@ == c + rem.subrange(0, n - c.len())
                        &&& final(self).pos_view() == old(self).pos_view() + n - c.len()
                        &&& final(self).num_read_view() == old(self).num_read_view() + n
                            - c.len()
                        &&& final(self).cache_view() == Seq::<u8>::empty()
                    } else {
                        &&& res matches Err(Error::UnexpectedEof)
                        &&& final(buf)@.subrange(0, c.len() as int) == c
                        &&& final(self).pos_view() == old(self).source_view().len()
                        &&& final(self).num_read_view() == old(self).num_read_view()
                        &&& final(self).cache_view() == c
                    }
                } else {
                    &&& res == Ok::<bool, Error>(true)
                    &&& final(buf)@ == c.subrange(0, n as int)
                    &&& final(self).cache_view() == c.subrange(n as int, c.len() as int)
                    &&& final(self).pos_view() == old(self).pos_view()
                    &&& final(self).num_read_view() == old(self).num_read_view()
                }
            }),
    {
        let n = buf.len();
        let c = self.cache.len();
        let slen = self.source.len();
        let avail = slen - self.pos;
        if c == 0 {
            if avail < n {
                self.pos = self.source.len();
                return Ok(false);
            }
            let mut i: usize = 0;
            while i < n
                invariant
                    i <= n,
                    n == buf@.len(),
                    self.pos + n <= self.source@.len(),
                    self.source@.len() == slen,
                    forall|j: int| 0 <= j < i ==> buf@[j] == self.source@[self.pos + j],
                decreases n - i,
            {
                buf[i] = self.source[self.pos + i];
                i = i + 1;
            }
            assert(buf@ =~= old(self).remaining().subrange(0, n as int));
            self.pos = self.pos + n;
            self.num_read = self.num_read + n;
            return Ok(true);
        }
        if c < n {
            let mut i: usize = 0;
            while i < c
                invariant
                    i <= c < n,
                    n == buf@.len(),
                    c == self.cache@.len(),
                    forall|j: int| 0 <= j < i ==> buf@[j] == self.cache@[j],
                decreases c - i,
            {
                buf[i] = self.cache[i];
                i = i + 1;
            }
            if avail < n - c {
                self.pos = self.source.len();
                return Err(Error::UnexpectedEof);
            }
            let ghost prefix = buf@.subrange(0, c as int);
            while i < n
                invariant
                    c <= i <= n,
                    n == buf@.len(),
                    c == self.cache@.len(),
                    self.pos + (n - c) <= self.source@.len(),
                    self.source@.len() == slen,
                    forall|j: int| 0 <= j < c ==> buf@[j] == self.cache@[j],
                    forall|j: int| c <= j < i ==> buf@[j] == self.source@[self.pos + j - c],
                decreases n - i,
            {
                buf[i] = self.source[self.pos + (i - c)];
                i = i + 1;
            }
            assert(buf@ =~= old(self).cache_view() + old(self).remaining().subrange(
                0,
                n - c,
            ));
            self.pos = self.pos + (n - c);
            self.num_read = self.num_read + (n - c);
            self.cache.clear();
            return Ok(true);
        }
        let mut i: usize = 0;
        while i < n
            invariant
                i <= n <= c,
                n == buf@.len(),
                c == self.cache@.len(),
                forall|j: int| 0 <= j < i ==> buf@[j] == self.cache@[j],
            decreases n - i,
        {
            buf[i] = self.cache[i];
            i = i + 1;
        }
        assert(buf@ =~= old(self).cache_view().subrange(0, n as int));
        let tail = self.cache.split_off(n);
        self.cache = tail;
        proof {
            let c0 = old(self).cache_view();
            if c0.len() <= 1 {
                assert(c0.reverse() =~= c0);
                assert(self.cache@.reverse() =~= self.cache@);
                assert(buf@ =~= old(self).stream().subrange(0, n as int));
                assert(self.stream() =~= old(self).stream().subrange(
                    n as int,
                    old(self).stream().len() as int,
                ));
            }
        }
        Ok(true)
    }

    /// Push bytes back; they are taken again, in their order, before the bytes
    /// pushed back earlier and before any further stream bytes.
    pub fn push(&mut self, dat: &[u8])
        requires
            old(self).wf(),
        ensures
            final(self).wf(),
            final(self).cache_view() == dat@ + old(self).cache_view(),
            final(self).stream() == dat@ + old(self).stream(),
            final(self).taken() == old(self).taken() - dat@.len(),
            final(self).source_view() == old(self).source_view(),
            final(self).pos_view() == old(self).pos_view(),
            final(self).num_read_view() == old(self).num_read_view(),
    {
        let mut cache = slice_to_vec(dat);
        cache.append(&mut self.cache);
        self.cache = cache;
        assert(self.stream() =~= dat@ + old(self).stream());
    }

    /// The stream offset of the next byte [Bytes::next] would take: bytes read minus
    /// bytes pushed back.
    pub fn offset(&self) -> (r: usize)
        requires
            self.cache_view().len() <= self.num_read_view(),
        ensures
            r == self.num_read_view() - self.cache_view().len(),
    {
        self.num_read - self.cache.len()
    }
}

} // verus!
