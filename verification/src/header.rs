use vstd::prelude::*;
use vstd::slice::slice_index_get;
use vstd::slice::slice_subrange;
use crate::error::TarError;
use crate::flags::TypeFlag;
use crate::size::decode_size;
use crate::size::spec_decode_size;

verus! {

// A ustar header block is 512 bytes in a fixed layout. Only the fields below
// carry meaning for this decoder; the rest (mode, owner, timestamps, link
// name, device numbers, padding) are skipped over by their widths:
//   name @ 0 (100), size @ 124 (12), typeflag @ 156 (1),
//   magic @ 257 (6), version @ 263 (2), prefix @ 345 (155).

/// The semantic fields of a header record, as mathematical byte strings.
pub ghost struct HeaderView {
    pub name: Seq<u8>,
    pub size: Seq<u8>,
    pub typeflag: u8,
    pub magic: Seq<u8>,
    pub version: Seq<u8>,
    pub prefix: Seq<u8>,
}

/// The semantic fields of one 512-byte ustar header block.
///
/// A record is only ever built by [`InnerHeader::from_block`], which slices
/// the fields out of a block at their fixed offsets.
#[derive(Debug)]
pub struct InnerHeader {
    name: Vec<u8>,
    size: Vec<u8>,
    typeflag: u8,
    magic: Vec<u8>,
    version: Vec<u8>,
    prefix: Vec<u8>,
}

impl View for InnerHeader {
    type V = HeaderView;

    closed spec fn view(&self) -> HeaderView {
        HeaderView {
            name: self.name@,
            size: self.size@,
            typeflag: self.typeflag,
            magic: self.magic@,
            version: self.version@,
            prefix: self.prefix@,
        }
    }
}

/// Index of the first NUL byte of `s`, or `s.len()` if it holds none.
pub open spec fn nul_pos(s: Seq<u8>) -> int
    decreases s.len(),
{
    if s.len() == 0 {
        0
    } else if s[0] == 0 {
        0
    } else {
        1 + nul_pos(s.subrange(1, s.len() as int))
    }
}

/// `s` cut at its first NUL byte.
pub open spec fn spec_trim(s: Seq<u8>) -> Seq<u8> {
    s.take(nul_pos(s))
}

proof fn lemma_nul_pos_at(s: Seq<u8>, p: int)
    requires
        0 <= p <= s.len(),
        forall|j: int| 0 <= j < p ==> s[j] != 0,
        p == s.len() || s[p] == 0,
    ensures
        nul_pos(s) == p,
    decreases s.len(),
{
    if s.len() == 0 {
    } else if s[0] == 0 {
        assert(p == 0);
    } else {
        assert(p >= 1);
        let t = s.subrange(1, s.len() as int);
        assert(forall|j: int| 0 <= j < p - 1 ==> t[j] == s[j + 1] && t[j] != 0);
        assert(p - 1 == t.len() || t[p - 1] == 0);
        lemma_nul_pos_at(t, p - 1);
    }
}

/// The longest NUL-free prefix of `x`: its bytes before the first NUL, or all
/// of `x` if it holds none.
pub fn trim_slice(x: &[u8]) -> (r: &[u8])
    ensures
        r@ == spec_trim(x@),
{
    let n: usize = x.len();
    let mut i: usize = 0;
    while i < n
        invariant
            i <= n,
            n == x@.len(),
            forall|j: int| 0 <= j < i ==> x@[j] != 0,
        decreases n - i,
    {
        if *slice_index_get(x, i) == 0 {
            proof {
                lemma_nul_pos_at(x@, i as int);
                assert(x@.subrange(0, i as int) =~= x@.take(i as int));
            }
            return slice_subrange(x, 0, i);
        }
        i = i + 1;
    }
    proof {
        lemma_nul_pos_at(x@, n as int);
        assert(x@.subrange(0, n as int) =~= x@.take(n as int));
    }
    slice_subrange(x, 0, n)
}

fn copy_range(src: &Vec<u8>, start: usize, end: usize) -> (r: Vec<u8>)
    requires
        start <= end,
        end <= src@.len(),
    ensures
        r@ == src@.subrange(start as int, end as int),
{
    let mut r: Vec<u8> = Vec::new();
    let mut i: usize = start;
    while i < end
        invariant
            start <= i <= end,
            end <= src@.len(),
            r@ == src@.subrange(start as int, i as int),
        decreases end - i,
    {
        r.push(src[i]);
        proof {
            assert(src@.subrange(start as int, i + 1) =~= src@.subrange(start as int, i as int)
                .push(src@[i as int]));
        }
        i = i + 1;
    }
    r
}

/// The path bytes denoted by a record: the trimmed prefix, a slash and the
/// trimmed name when a prefix is present; the trimmed name alone when not.
pub open spec fn spec_path(h: HeaderView) -> Seq<u8> {
    if h.prefix[0] == 0 {
        spec_trim(h.name)
    } else {
        spec_trim(h.prefix) + seq![0x2Fu8] + spec_trim(h.name)
    }
}

impl InnerHeader {
    /// The fixed field widths of the layout.
    pub open spec fn wf(&self) -> bool {
        &&& self@.name.len() == 100
        &&& self@.size.len() == 12
        &&& self@.magic.len() == 6
        &&& self@.version.len() == 2
        &&& self@.prefix.len() == 155
    }

    /// The POSIX ustar magic bytes, `"ustar\0"`.
    pub open spec fn spec_magic() -> Seq<u8> {
        seq![0x75u8, 0x73, 0x74, 0x61, 0x72, 0x00]
    }

    /// The POSIX ustar version bytes, `"00"`.
    pub open spec fn spec_version() -> Seq<u8> {
        seq![0x30u8, 0x30]
    }

    /// Slice the semantic fields out of one 512-byte block at their fixed
    /// offsets.
    pub fn from_block(block: &Vec<u8>) -> (h: InnerHeader)
        requires
            block@.len() == 512,
        ensures
            h.wf(),
            h@.name == block@.subrange(0, 100),
            h@.size == block@.subrange(124, 136),
            h@.typeflag == block@[156],
            h@.magic == block@.subrange(257, 263),
            h@.version == block@.subrange(263, 265),
            h@.prefix == block@.subrange(345, 500),
    {
        InnerHeader {
            name: copy_range(block, 0, 100),
            size: copy_range(block, 124, 136),
            typeflag: block[156],
            magic: copy_range(block, 257, 263),
            version: copy_range(block, 263, 265),
            prefix: copy_range(block, 345, 500),
        }
    }

    /// True iff the record carries the POSIX ustar magic and version.
    pub fn is_posix(&self) -> (r: bool)
        requires
            self.wf(),
        ensures
            r == (self@.magic == Self::spec_magic() && self@.version == Self::spec_version()),
    {
        let r = self.magic[0] == 0x75 && self.magic[1] == 0x73 && self.magic[2] == 0x74
            && self.magic[3] == 0x61 && self.magic[4] == 0x72 && self.magic[5] == 0x00
            && self.version[0] == 0x30 && self.version[1] == 0x30;
        proof {
            if r {
                assert(self@.magic =~= Self::spec_magic());
                assert(self@.version =~= Self::spec_version());
            }
        }
        r
    }

    /// Decode the entry-type byte. Total: unknown bytes map to `Other`.
    pub fn typeflag(&self) -> (r: TypeFlag)
        ensures
            r == TypeFlag::spec_from_u8(self@.typeflag),
    {
        TypeFlag::from_u8(self.typeflag)
    }

    fn full_name(&self) -> (r: Vec<u8>)
        requires
            self.wf(),
        ensures
            r@ == spec_trim(self@.prefix) + seq![0x2Fu8] + spec_trim(self@.name),
    {
        let mut w: Vec<u8> = Vec::new();
        w.extend_from_slice(trim_slice(self.prefix.as_slice()));
        w.push(0x2F);
        w.extend_from_slice(trim_slice(self.name.as_slice()));
        proof {
            assert(w@ =~= spec_trim(self@.prefix) + seq![0x2Fu8] + spec_trim(self@.name));
        }
        w
    }

    /// The entry's path bytes, per [`spec_path`]. No text encoding is
    /// validated here; callers wanting a text path attempt their own UTF-8
    /// conversion.
    pub fn path(&self) -> (r: Vec<u8>)
        requires
            self.wf(),
        ensures
            r@ == spec_path(self@),
    {
        if self.prefix[0] == 0x00 {
            let mut r: Vec<u8> = Vec::new();
            r.extend_from_slice(trim_slice(self.name.as_slice()));
            r
        } else {
            self.full_name()
        }
    }

    /// Decode the 12-byte size field under the scheme its first byte selects:
    /// the result is exactly what [`spec_decode_size`] accepts, and
    /// `MalformedSizeField` comes exactly when it accepts nothing.
    pub fn size(&self) -> (r: Result<u64, TarError>)
        requires
            self.wf(),
        ensures
            spec_decode_size(self@.size) is Some ==> (r is Ok && r->Ok_0 as int
                == spec_decode_size(self@.size)->Some_0),
            spec_decode_size(self@.size) is None ==> (r is Err && r->Err_0
                == TarError::MalformedSizeField),
    {
        decode_size(&self.size)
    }

    /// First byte of the name field; NUL marks the end-of-archive sentinel.
    pub fn name_first(&self) -> (r: u8)
        requires
            self.wf(),
        ensures
            r == self@.name[0],
    {
        self.name[0]
    }
}

} // verus!
