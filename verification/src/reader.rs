use vstd::prelude::*;
use vstd::arithmetic::div_mod::lemma_div_plus_one;
use vstd::arithmetic::div_mod::lemma_div_pos_is_pos;
use vstd::arithmetic::div_mod::lemma_remainder;
use crate::error::TarError;
use crate::header::InnerHeader;
use crate::size::spec_decode_size;
use crate::source::ByteSource;

verus! {

/// Number of 512-byte blocks that cover a body of `n` bytes: none for an
/// empty body, else the count rounded up.
pub open spec fn spec_blocks(n: nat) -> nat {
    if n == 0 {
        0
    } else {
        ((n + 511) / 512) as nat
    }
}

/// The ceiling contract of `spec_blocks`: for a non-empty body the covered
/// span reaches at least `n` bytes and overshoots by less than one block.
pub proof fn lemma_blocks_ceil(n: nat)
    ensures
        spec_blocks(0) == 0,
        n > 0 ==> spec_blocks(n) * 512 >= n,
        n > 0 ==> spec_blocks(n) * 512 < n + 512,
{
    if n > 0 {
        lemma_div_pos_is_pos(n + 511 as int, 512);
        lemma_remainder(n + 511 as int, 512);
    }
}

/// Blocks needed to cover a body of `size` bytes.
pub fn blocks(size: usize) -> (r: usize)
    ensures
        r as nat == spec_blocks(size as nat),
{
    if size == 0 {
        0
    } else {
        proof {
            lemma_div_plus_one(size - 1, 512);
            lemma_div_pos_is_pos(size - 1, 512);
        }
        (size - 1) / 512 + 1
    }
}

/// Interpret one full header block.
///
/// A block whose first name byte is NUL is the end-of-archive sentinel and
/// yields `None`, with nothing else validated and no second zero block
/// demanded. Any other block yields its record together with its decoded
/// body size; `MalformedSizeField` comes exactly when the size field decodes
/// under neither scheme, `OversizedField` exactly when it decodes to a value
/// too large for this machine's byte counters.
pub fn interpret_block(block: &Vec<u8>) -> (r: Result<Option<(InnerHeader, u64)>, TarError>)
    requires
        block@.len() == 512,
    ensures
        (block@[0] == 0) <==> (r is Ok && r->Ok_0 is None),
        match r {
            Ok(opt) => match opt {
                None => true,
                Some(p) => {
                    &&& p.0.wf()
                    &&& p.0@.name == block@.subrange(0, 100)
                    &&& p.0@.size == block@.subrange(124, 136)
                    &&& p.0@.typeflag == block@[156]
                    &&& p.0@.magic == block@.subrange(257, 263)
                    &&& p.0@.version == block@.subrange(263, 265)
                    &&& p.0@.prefix == block@.subrange(345, 500)
                    &&& spec_decode_size(p.0@.size) == Some(p.1 as int)
                    &&& p.1 as int <= usize::MAX - 511
                },
            },
            Err(e) => {
                &&& block@[0] != 0
                &&& (e == TarError::MalformedSizeField || e == TarError::OversizedField)
                &&& (e == TarError::MalformedSizeField <==> spec_decode_size(
                    block@.subrange(124, 136),
                ) is None)
                &&& (e == TarError::OversizedField <==> (spec_decode_size(
                    block@.subrange(124, 136),
                ) is Some && spec_decode_size(block@.subrange(124, 136))->Some_0 > usize::MAX
                    - 511))
            },
        },
{
    let header = InnerHeader::from_block(block);
    if header.name_first() == 0x00 {
        return Ok(None);
    }
    match header.size() {
        Ok(sz) => {
            if sz > (usize::MAX as u64) - 511 {
                Err(TarError::OversizedField)
            } else {
                Ok(Some((header, sz)))
            }
        },
        Err(e) => Err(e),
    }
}

proof fn lemma_skip_of_skip(s: Seq<u8>, a: int, b: int)
    requires
        0 <= a,
        0 <= b,
        a + b <= s.len(),
    ensures
        s.skip(a).skip(b) == s.skip(a + b),
{
    assert(s.skip(a).skip(b) =~= s.skip(a + b));
}

/// Streaming reader over a byte source.
///
/// `next_header` counts the bytes left until the next header block begins
/// (the unread body of the current entry plus its block padding);
/// `data_left` counts the bytes of the current entry's body that are still
/// legal to read. Both only decrease between header decodes.
pub struct TarReader<R: ByteSource> {
    tar: R,
    next_header: usize,
    data_left: usize,
}

impl<R: ByteSource> TarReader<R> {
    /// Bytes left until the next header block begins.
    pub closed spec fn pending_skip(&self) -> nat {
        self.next_header as nat
    }

    /// Bytes of the current entry's body still legal to read.
    pub closed spec fn body_left(&self) -> nat {
        self.data_left as nat
    }

    /// The bytes the underlying source has yet to deliver.
    pub closed spec fn source_remaining(&self) -> Seq<u8> {
        self.tar.remaining()
    }

    /// The counter invariant: a body read never reaches past the 512-byte
    /// boundary the current entry owns.
    pub open spec fn wf(&self) -> bool {
        self.body_left() <= self.pending_skip()
    }

    /// A reader positioned before the first header of `tar`.
    pub fn new(tar: R) -> (r: TarReader<R>)
        ensures
            r.pending_skip() == 0,
            r.body_left() == 0,
            r.wf(),
            r.source_remaining() == tar.remaining(),
    {
        TarReader { tar, next_header: 0, data_left: 0 }
    }

    /// Skip the rest of the current entry and decode the next header.
    ///
    /// The outcome is a function of the counters and of the bytes the source
    /// has left (`src` below, with `skip` the bytes owed before the next
    /// header):
    /// - `Ok(None)`, a clean end of archive: the source was exhausted exactly
    ///   at the header boundary, or the header block's first name byte was
    ///   NUL (the end-of-archive sentinel, accepted without demanding a
    ///   second zero block);
    /// - `Ok(Some(h))`: `h` is decoded from the 512-byte block right after
    ///   the skipped bytes, and the counters are reset for its body; exactly
    ///   `skip + 512` source bytes have been consumed;
    /// - `Err(UnexpectedEndOfArchive)` exactly when the source ends mid-skip
    ///   or mid-header; `Err(MalformedSizeField)` exactly when the block's
    ///   size field decodes under neither scheme; `Err(OversizedField)`
    ///   exactly when it decodes to a value too large for this machine's
    ///   byte counters.
    #[verifier::loop_isolation(false)]
    pub fn next(&mut self) -> (r: Result<Option<InnerHeader>, TarError>)
        requires
            old(self).wf(),
        ensures
            final(self).wf(),
            ({
                let src = old(self).source_remaining();
                let skip = old(self).pending_skip() as int;
                match r {
                    Ok(opt) => match opt {
                        None => {
                            &&& (src.len() == skip || (src.len() >= skip + 512 && src[skip]
                                == 0))
                            &&& final(self).pending_skip() == 0
                            &&& final(self).body_left() == 0
                            &&& final(self).source_remaining() == (if src.len() == skip {
                                src.skip(skip)
                            } else {
                                src.skip(skip + 512)
                            })
                        },
                        Some(h) => {
                            let block = src.subrange(skip, skip + 512);
                            &&& src.len() >= skip + 512
                            &&& block[0] != 0
                            &&& h.wf()
                            &&& h@.name == block.subrange(0, 100)
                            &&& h@.size == block.subrange(124, 136)
                            &&& h@.typeflag == block[156]
                            &&& h@.magic == block.subrange(257, 263)
                            &&& h@.version == block.subrange(263, 265)
                            &&& h@.prefix == block.subrange(345, 500)
                            &&& spec_decode_size(h@.size) is Some
                            &&& final(self).body_left() as int == spec_decode_size(
                                h@.size,
                            )->Some_0
                            &&& final(self).pending_skip() == spec_blocks(
                                final(self).body_left(),
                            ) * 512
                            &&& final(self).source_remaining() == src.skip(skip + 512)
                        },
                    },
                    Err(e) => {
                        &&& final(self).body_left() == 0
                        &&& (e == TarError::UnexpectedEndOfArchive <==> (src.len() != skip
                            && src.len() < skip + 512))
                        &&& (e == TarError::UnexpectedEndOfArchive
                            ==> final(self).source_remaining().len() == 0
                            && final(self).pending_skip() == (if src.len() < skip {
                            skip - src.len()
                        } else {
                            0
                        }))
                        &&& (e == TarError::MalformedSizeField <==> (src.len() >= skip + 512
                            && src[skip] != 0 && spec_decode_size(
                            src.subrange(skip + 124, skip + 136),
                        ) is None))
                        &&& (e == TarError::OversizedField <==> (src.len() >= skip + 512
                            && src[skip] != 0 && spec_decode_size(
                            src.subrange(skip + 124, skip + 136),
                        ) is Some && spec_decode_size(
                            src.subrange(skip + 124, skip + 136),
                        )->Some_0 > usize::MAX - 511))
                        &&& ((e == TarError::MalformedSizeField || e
                            == TarError::OversizedField) ==> final(self).source_remaining()
                            == src.skip(skip + 512) && final(self).pending_skip() == 0)
                    },
                }
            }),
    {
        let ghost src = self.source_remaining();
        let ghost skip0 = self.next_header as int;
        proof {
            assert(src.skip(0) =~= src);
        }
        // The body of the previous entry is abandoned from here on.
        self.data_left = 0;
        while self.next_header != 0
            invariant
                self.data_left == 0,
                self.next_header as int <= skip0,
                skip0 - self.next_header as int <= src.len(),
                self.source_remaining() == src.skip(skip0 - self.next_header as int),
            decreases self.next_header,
        {
            // Throw away bytes until the next header boundary.
            let want: usize = if self.next_header < 512 {
                self.next_header
            } else {
                512
            };
            let ghost consumed = skip0 - self.next_header as int;
            let got = self.tar.read_up_to(want);
            if got.len() == 0 {
                // The source is exhausted with skip bytes still owed.
                proof {
                    assert(src.skip(consumed).len() == 0);
                    assert(src.len() == consumed);
                }
                return Err(TarError::UnexpectedEndOfArchive);
            }
            proof {
                lemma_skip_of_skip(src, consumed, got@.len() as int);
            }
            self.next_header = self.next_header - got.len();
        }
        let mut block = self.tar.read_up_to(512);
        proof {
            lemma_skip_of_skip(src, skip0, block@.len() as int);
        }
        if block.len() == 0 {
            // Archives are supposed to end with two zero blocks, but ending
            // exactly at a header boundary is accepted as a clean end too.
            proof {
                assert(src.skip(skip0).len() == 0);
                assert(src.len() == skip0);
            }
            return Ok(None);
        }
        while block.len() < 512
            invariant
                1 <= block@.len() <= 512,
                self.next_header == 0,
                self.data_left == 0,
                skip0 + block@.len() <= src.len(),
                block@ == src.skip(skip0).take(block@.len() as int),
                self.source_remaining() == src.skip(skip0 + block@.len()),
            decreases 512 - block@.len(),
        {
            let ghost have = block@.len() as int;
            let mut chunk = self.tar.read_up_to(512 - block.len());
            if chunk.len() == 0 {
                // Some header bytes arrived, then the source ended.
                proof {
                    assert(src.skip(skip0 + have).len() == 0);
                    assert(src.len() == skip0 + have);
                }
                return Err(TarError::UnexpectedEndOfArchive);
            }
            proof {
                lemma_skip_of_skip(src, skip0 + have, chunk@.len() as int);
                assert(src.skip(skip0).take(have) + src.skip(skip0 + have).take(
                    chunk@.len() as int,
                ) =~= src.skip(skip0).take(have + chunk@.len()));
            }
            block.append(&mut chunk);
        }
        proof {
            assert(block@ =~= src.subrange(skip0, skip0 + 512));
            assert(block@.subrange(124, 136) =~= src.subrange(skip0 + 124, skip0 + 136));
        }
        let (header, size_u64) = match interpret_block(&block) {
            Ok(Some(p)) => p,
            Ok(None) => {
                // End-of-archive sentinel.
                return Ok(None);
            },
            Err(e) => { return Err(e) },
        };
        let size_us: usize = size_u64 as usize;
        let nblocks: usize = blocks(size_us);
        proof {
            lemma_blocks_ceil(size_us as nat);
        }
        self.next_header = nblocks * 512;
        self.data_left = size_us;
        Ok(Some(header))
    }

    /// Read up to `max_len` bytes of the current entry's body, with one read
    /// of the underlying source. At most `min(body_left, max_len)` bytes come
    /// back — possibly fewer, matching a single partial read — and they are
    /// exactly the source's next bytes, so a read never consumes alignment
    /// padding or bytes of the next header. Both counters drop by exactly
    /// the count obtained. Once the body is exhausted the result is empty
    /// and the source is not touched.
    pub fn read_body(&mut self, max_len: usize) -> (r: Vec<u8>)
        requires
            old(self).wf(),
        ensures
            final(self).wf(),
            r@.len() <= max_len,
            r@.len() <= old(self).body_left(),
            final(self).body_left() == old(self).body_left() - r@.len(),
            final(self).pending_skip() == old(self).pending_skip() - r@.len(),
            r@ == old(self).source_remaining().take(r@.len() as int),
            final(self).source_remaining() == old(self).source_remaining().skip(r@.len() as int),
            old(self).body_left() == 0 ==> r@.len() == 0 && final(self).source_remaining() == old(
                self,
            ).source_remaining(),
            (old(self).body_left() > 0 && max_len > 0 && old(self).source_remaining().len() > 0)
                ==> r@.len() > 0,
    {
        if self.data_left == 0 {
            proof {
                assert(self.source_remaining().take(0) =~= Seq::<u8>::empty());
                assert(self.source_remaining().skip(0) =~= self.source_remaining());
            }
            return Vec::new();
        }
        let want: usize = if self.data_left < max_len {
            self.data_left
        } else {
            max_len
        };
        let got = self.tar.read_up_to(want);
        self.data_left = self.data_left - got.len();
        self.next_header = self.next_header - got.len();
        got
    }
}

/// Total of a sequence of per-call read counts.
pub open spec fn total_read(reads: Seq<nat>) -> nat
    decreases reads.len(),
{
    if reads.len() == 0 {
        0
    } else {
        reads[0] + total_read(reads.subrange(1, reads.len() as int))
    }
}

/// Each read in turn returned no more than the body bytes then remaining,
/// which `read_body` ensures of every call.
pub open spec fn reads_bounded(body: nat, reads: Seq<nat>) -> bool
    decreases reads.len(),
{
    if reads.len() == 0 {
        true
    } else {
        reads[0] <= body && reads_bounded(
            (body - reads[0]) as nat,
            reads.subrange(1, reads.len() as int),
        )
    }
}

/// Successive reads of an entry's body never return, in aggregate, more than
/// the body size the counters started from.
pub proof fn lemma_body_reads_bounded(body: nat, reads: Seq<nat>)
    requires
        reads_bounded(body, reads),
    ensures
        total_read(reads) <= body,
    decreases reads.len(),
{
    if reads.len() > 0 {
        lemma_body_reads_bounded((body - reads[0]) as nat, reads.subrange(1, reads.len() as int));
    }
}

} // verus!
