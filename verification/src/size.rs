use vstd::prelude::*;
use vstd::arithmetic::div_mod::lemma_fundamental_div_mod;
use vstd::arithmetic::div_mod::lemma_multiply_divide_lt;
use crate::error::TarError;

verus! {

// A tar size field is 12 bytes in one of two mutually exclusive encodings,
// told apart by the high bit of byte 0:
//   - octal: 11 ASCII octal digits, most significant first, then one space;
//   - restricted binary: byte 0 is exactly 0x80, bytes 1..=3 are zero, and
//     bytes 4..=11 hold the value as a little-endian 64-bit integer.

/// 8 raised to `k`.
pub open spec fn pow8(k: nat) -> int
    decreases k,
{
    if k == 0 {
        1
    } else {
        8 * pow8((k - 1) as nat)
    }
}

/// 256 raised to `k`.
pub open spec fn pow256(k: nat) -> int
    decreases k,
{
    if k == 0 {
        1
    } else {
        256 * pow256((k - 1) as nat)
    }
}

proof fn lemma_pow8_concrete()
    ensures
        pow8(10) == 0x4000_0000,
        pow8(11) == 0x2_0000_0000,
{
    assert(pow8(0) == 1);
    assert(pow8(1) == 8);
    assert(pow8(2) == 0x40);
    assert(pow8(3) == 0x200);
    assert(pow8(4) == 0x1000);
    assert(pow8(5) == 0x8000);
    assert(pow8(6) == 0x4_0000);
    assert(pow8(7) == 0x20_0000);
    assert(pow8(8) == 0x100_0000);
    assert(pow8(9) == 0x800_0000);
    assert(pow8(10) == 0x4000_0000);
    assert(pow8(11) == 0x2_0000_0000);
}

proof fn lemma_pow8_le(a: nat, b: nat)
    requires
        a <= b,
    ensures
        pow8(a) <= pow8(b),
    decreases b,
{
    if a < b {
        lemma_pow8_le(a, (b - 1) as nat);
        lemma_pow8_pos((b - 1) as nat);
    }
}

proof fn lemma_pow8_pos(k: nat)
    ensures
        pow8(k) >= 1,
    decreases k,
{
    if k > 0 {
        lemma_pow8_pos((k - 1) as nat);
    }
}

proof fn lemma_pow256_concrete()
    ensures
        pow256(7) == 0x100_0000_0000_0000,
        pow256(8) == 0x1_0000_0000_0000_0000,
{
    assert(pow256(0) == 1);
    assert(pow256(1) == 0x100);
    assert(pow256(2) == 0x1_0000);
    assert(pow256(3) == 0x100_0000);
    assert(pow256(4) == 0x1_0000_0000);
    assert(pow256(5) == 0x100_0000_0000);
    assert(pow256(6) == 0x1_0000_0000_0000);
    assert(pow256(7) == 0x100_0000_0000_0000);
    assert(pow256(8) == 0x1_0000_0000_0000_0000);
}

proof fn lemma_pow256_le(a: nat, b: nat)
    requires
        a <= b,
    ensures
        pow256(a) <= pow256(b),
    decreases b,
{
    if a < b {
        lemma_pow256_le(a, (b - 1) as nat);
        lemma_pow256_pos((b - 1) as nat);
    }
}

proof fn lemma_pow256_pos(k: nat)
    ensures
        pow256(k) >= 1,
    decreases k,
{
    if k > 0 {
        lemma_pow256_pos((k - 1) as nat);
    }
}

/// An ASCII octal digit, `'0'` through `'7'`.
pub open spec fn is_octal_digit(b: u8) -> bool {
    0x30 <= b && b <= 0x37
}

/// Value of a big-endian string of octal digits.
pub open spec fn octal_value(s: Seq<u8>) -> int
    decreases s.len(),
{
    if s.len() == 0 {
        0
    } else {
        octal_value(s.drop_last()) * 8 + (s.last() - 0x30)
    }
}

/// The octal scheme accepts the field: 11 octal digits and a space.
pub open spec fn octal_field_ok(f: Seq<u8>) -> bool {
    f[11] == 0x20 && (forall|i: int| 0 <= i < 11 ==> is_octal_digit(f[i]))
}

/// Value of a little-endian string of bytes.
pub open spec fn le_value(s: Seq<u8>) -> int
    decreases s.len(),
{
    if s.len() == 0 {
        0
    } else {
        s[0] + 256 * le_value(s.subrange(1, s.len() as int))
    }
}

/// The restricted binary scheme accepts the field: exact marker byte and
/// zero reserved bytes. Any other high-bit-set pattern is malformed.
pub open spec fn binary_field_ok(f: Seq<u8>) -> bool {
    f[0] == 0x80 && f[1] == 0x00 && f[2] == 0x00 && f[3] == 0x00
}

/// What a 12-byte size field denotes: `Some(n)` when one of the two schemes
/// accepts it, `None` when it is malformed. Byte 0's high bit selects the
/// scheme.
pub open spec fn spec_decode_size(f: Seq<u8>) -> Option<int> {
    if f[0] >= 0x80 {
        if binary_field_ok(f) {
            Some(le_value(f.subrange(4, 12)))
        } else {
            None
        }
    } else {
        if octal_field_ok(f) {
            Some(octal_value(f.subrange(0, 11)))
        } else {
            None
        }
    }
}

proof fn lemma_octal_value_bound(s: Seq<u8>)
    requires
        forall|i: int| 0 <= i < s.len() ==> is_octal_digit(s[i]),
    ensures
        0 <= octal_value(s) < pow8(s.len()),
    decreases s.len(),
{
    if s.len() > 0 {
        assert(forall|i: int| 0 <= i < s.drop_last().len() ==> is_octal_digit(s.drop_last()[i]));
        lemma_octal_value_bound(s.drop_last());
        assert(pow8(s.len()) == 8 * pow8((s.len() - 1) as nat));
    }
}

proof fn lemma_le_value_bound(s: Seq<u8>)
    ensures
        0 <= le_value(s) < pow256(s.len()),
    decreases s.len(),
{
    if s.len() > 0 {
        lemma_le_value_bound(s.subrange(1, s.len() as int));
        assert(pow256(s.len()) == 256 * pow256((s.len() - 1) as nat));
    }
}

fn decode_octal(f: &Vec<u8>) -> (r: Result<u64, TarError>)
    requires
        f@.len() == 12,
        f@[0] < 0x80,
    ensures
        spec_decode_size(f@) is Some ==> (r is Ok && r->Ok_0 as int == spec_decode_size(
            f@,
        )->Some_0),
        spec_decode_size(f@) is None ==> (r is Err && r->Err_0 == TarError::MalformedSizeField),
{
    if f[11] != 0x20 {
        return Err(TarError::MalformedSizeField);
    }
    let mut acc: u64 = 0;
    let mut i: usize = 0;
    while i < 11
        invariant
            i <= 11,
            f@.len() == 12,
            f@[0] < 0x80,
            forall|k: int| 0 <= k < i ==> is_octal_digit(f@[k]),
            acc as int == octal_value(f@.subrange(0, i as int)),
        decreases 11 - i,
    {
        let b: u8 = f[i];
        if b < 0x30 || b > 0x37 {
            proof {
                assert(!is_octal_digit(f@[i as int]));
                assert(!octal_field_ok(f@));
            }
            return Err(TarError::MalformedSizeField);
        }
        proof {
            lemma_octal_value_bound(f@.subrange(0, i as int));
            lemma_pow8_le(i as nat, 10);
            lemma_pow8_concrete();
            assert(f@.subrange(0, i + 1).drop_last() =~= f@.subrange(0, i as int));
        }
        acc = acc * 8 + ((b - 0x30) as u64);
        i = i + 1;
    }
    Ok(acc)
}

fn decode_binary(f: &Vec<u8>) -> (r: Result<u64, TarError>)
    requires
        f@.len() == 12,
        f@[0] >= 0x80,
    ensures
        spec_decode_size(f@) is Some ==> (r is Ok && r->Ok_0 as int == spec_decode_size(
            f@,
        )->Some_0),
        spec_decode_size(f@) is None ==> (r is Err && r->Err_0 == TarError::MalformedSizeField),
{
    if !(f[0] == 0x80 && f[1] == 0x00 && f[2] == 0x00 && f[3] == 0x00) {
        return Err(TarError::MalformedSizeField);
    }
    let mut acc: u64 = 0;
    let mut i: usize = 8;
    while i > 0
        invariant
            i <= 8,
            f@.len() == 12,
            acc as int == le_value(f@.subrange(4 + i as int, 12)),
        decreases i,
    {
        proof {
            lemma_le_value_bound(f@.subrange(4 + i as int, 12));
            lemma_pow256_le((8 - i) as nat, 7);
            lemma_pow256_concrete();
        }
        let j: usize = i - 1;
        let b: u8 = f[4 + j];
        proof {
            assert(f@.subrange(4 + j as int, 12).subrange(1, (8 - j) as int) =~= f@.subrange(
                5 + j as int,
                12,
            ));
        }
        acc = (b as u64) + acc * 256;
        i = j;
    }
    Ok(acc)
}

/// Decode a 12-byte size field under the scheme its first byte selects.
///
/// Returns the denoted value exactly when [`spec_decode_size`] accepts the
/// field, and `MalformedSizeField` exactly when it does not. Every value the
/// wire format can denote fits in a `u64`.
pub fn decode_size(f: &Vec<u8>) -> (r: Result<u64, TarError>)
    requires
        f@.len() == 12,
    ensures
        spec_decode_size(f@) is Some ==> (r is Ok && r->Ok_0 as int == spec_decode_size(
            f@,
        )->Some_0),
        spec_decode_size(f@) is None ==> (r is Err && r->Err_0 == TarError::MalformedSizeField),
{
    if f[0] >= 0x80 {
        decode_binary(f)
    } else {
        decode_octal(f)
    }
}

/// The octal encoding of `n` as `k` digits, most significant first.
pub open spec fn octal_digits_of(n: int, k: nat) -> Seq<u8>
    decreases k,
{
    if k == 0 {
        Seq::empty()
    } else {
        octal_digits_of(n / 8, (k - 1) as nat).push((0x30 + n % 8) as u8)
    }
}

/// The full 12-byte octal size field for `n`: 11 digits and a space.
pub open spec fn octal_field_of(n: int) -> Seq<u8> {
    octal_digits_of(n, 11).push(0x20)
}

/// The little-endian encoding of `n` as `k` bytes.
pub open spec fn le_bytes_of(n: int, k: nat) -> Seq<u8>
    decreases k,
{
    if k == 0 {
        Seq::empty()
    } else {
        seq![(n % 256) as u8] + le_bytes_of(n / 256, (k - 1) as nat)
    }
}

/// The full 12-byte restricted binary size field for `n`.
pub open spec fn binary_field_of(n: u64) -> Seq<u8> {
    seq![0x80u8, 0x00, 0x00, 0x00] + le_bytes_of(n as int, 8)
}

proof fn lemma_octal_digits_of(n: int, k: nat)
    requires
        0 <= n < pow8(k),
    ensures
        octal_digits_of(n, k).len() == k,
        forall|i: int| 0 <= i < k ==> is_octal_digit(#[trigger] octal_digits_of(n, k)[i]),
        octal_value(octal_digits_of(n, k)) == n,
    decreases k,
{
    if k > 0 {
        assert(pow8(k) == 8 * pow8((k - 1) as nat));
        lemma_multiply_divide_lt(n, 8, pow8((k - 1) as nat));
        lemma_fundamental_div_mod(n, 8);
        lemma_octal_digits_of(n / 8, (k - 1) as nat);
        let d = octal_digits_of(n, k);
        assert(d.drop_last() =~= octal_digits_of(n / 8, (k - 1) as nat));
        assert(d.last() == (0x30 + n % 8) as u8);
    }
}

/// Round trip of the octal scheme: decoding the octal field written for any
/// representable value yields exactly that value.
pub proof fn lemma_octal_round_trip(n: int)
    requires
        0 <= n < pow8(11),
    ensures
        octal_field_of(n).len() == 12,
        spec_decode_size(octal_field_of(n)) == Some(n),
{
    lemma_octal_digits_of(n, 11);
    let f = octal_field_of(n);
    let d = octal_digits_of(n, 11);
    assert(f[0] == d[0]);
    assert(f[11] == 0x20);
    assert(f.subrange(0, 11) =~= d);
}

proof fn lemma_le_bytes_of(n: int, k: nat)
    requires
        0 <= n < pow256(k),
    ensures
        le_bytes_of(n, k).len() == k,
        le_value(le_bytes_of(n, k)) == n,
    decreases k,
{
    if k > 0 {
        assert(pow256(k) == 256 * pow256((k - 1) as nat));
        lemma_multiply_divide_lt(n, 256, pow256((k - 1) as nat));
        lemma_fundamental_div_mod(n, 256);
        lemma_le_bytes_of(n / 256, (k - 1) as nat);
        let s = le_bytes_of(n, k);
        assert(s.subrange(1, s.len() as int) =~= le_bytes_of(n / 256, (k - 1) as nat));
        assert(s[0] == (n % 256) as u8);
    }
}

/// Round trip of the restricted binary scheme: decoding the binary field
/// written for any `u64` yields exactly that value.
pub proof fn lemma_binary_round_trip(n: u64)
    ensures
        binary_field_of(n).len() == 12,
        spec_decode_size(binary_field_of(n)) == Some(n as int),
{
    lemma_pow256_concrete();
    lemma_le_bytes_of(n as int, 8);
    let f = binary_field_of(n);
    assert(f[0] == 0x80);
    assert(f[1] == 0x00);
    assert(f[2] == 0x00);
    assert(f[3] == 0x00);
    assert(f.subrange(4, 12) =~= le_bytes_of(n as int, 8));
}

} // verus!
