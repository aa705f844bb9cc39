//! Little-endian integers as byte sequences.

use vstd::prelude::*;

verus! {

/// The low `width` bytes of `n`, least significant first.
pub open spec fn le_bytes(n: nat, width: nat) -> Seq<u8>
    decreases width,
{
    if width == 0 {
        Seq::empty()
    } else {
        seq![(n % 256) as u8] + le_bytes(n / 256, (width - 1) as nat)
    }
}

/// The number that the bytes `s` write down, least significant first.
pub open spec fn le_value(s: Seq<u8>) -> nat
    decreases s.len(),
{
    if s.len() == 0 {
        0
    } else {
        s[0] as nat + 256 * le_value(s.drop_first())
    }
}

/// `256` to the power of `width`: the count of numbers that `width` bytes can write down.
pub open spec fn byte_range(width: nat) -> nat
    decreases width,
{
    if width == 0 {
        1
    } else {
        256 * byte_range((width - 1) as nat)
    }
}

/// `le_bytes` yields as many bytes as it is asked for.
pub broadcast proof fn lemma_le_bytes_len(n: nat, width: nat)
    ensures
        #[trigger] le_bytes(n, width).len() == width,
    decreases width,
{
    if width > 0 {
        lemma_le_bytes_len(n / 256, (width - 1) as nat);
    }
}

/// A number that fits in `width` bytes is read back from its bytes.
pub proof fn lemma_value_of_bytes(n: nat, width: nat)
    requires
        n < byte_range(width),
    ensures
        le_value(le_bytes(n, width)) == n,
    decreases width,
{
    if width > 0 {
        let low = seq![(n % 256) as u8];
        let high = le_bytes(n / 256, (width - 1) as nat);
        lemma_value_of_bytes(n / 256, (width - 1) as nat);
        assert((low + high).drop_first() =~= high);
    }
}

/// A byte sequence is written again from the number that it stands for.
pub proof fn lemma_bytes_of_value(s: Seq<u8>)
    ensures
        le_bytes(le_value(s), s.len()) == s,
        le_value(s) < byte_range(s.len()),
    decreases s.len(),
{
    if s.len() > 0 {
        let rest = s.drop_first();
        lemma_bytes_of_value(rest);
        let n = le_value(s);
        assert(n % 256 == s[0] as nat && n / 256 == le_value(rest));
        assert(seq![s[0]] + rest =~= s);
    } else {
        assert(le_bytes(le_value(s), 0) =~= s);
    }
}

/// Four bytes hold every `u32` and eight every `u64`.
pub proof fn lemma_byte_ranges()
    ensures
        byte_range(4) == 0x1_0000_0000,
        byte_range(8) == 0x1_0000_0000_0000_0000,
{
    reveal_with_fuel(byte_range, 9);
}

/// Different `u32` values have different bytes.
pub proof fn lemma_u32_bytes_distinct(a: u32, b: u32)
    requires
        le_bytes(a as nat, 4) == le_bytes(b as nat, 4),
    ensures
        a == b,
{
    lemma_byte_ranges();
    lemma_value_of_bytes(a as nat, 4);
    lemma_value_of_bytes(b as nat, 4);
}

/// Different `u64` values have different bytes.
pub proof fn lemma_u64_bytes_distinct(a: u64, b: u64)
    requires
        le_bytes(a as nat, 8) == le_bytes(b as nat, 8),
    ensures
        a == b,
{
    lemma_byte_ranges();
    lemma_value_of_bytes(a as nat, 8);
    lemma_value_of_bytes(b as nat, 8);
}

/// The low four bytes of `n`, least significant first.
pub fn to_le_bytes(n: usize) -> (r: [u8; 4])
    ensures
        r@ == le_bytes(n as nat, 4),
{
    let b0: u8 = (n % 256) as u8;
    let b1: u8 = (n / 256 % 256) as u8;
    let b2: u8 = (n / 65536 % 256) as u8;
    let b3: u8 = (n / 16777216 % 256) as u8;
    let r = [b0, b1, b2, b3];
    proof {
        reveal_with_fuel(le_bytes, 5);
        let m = n as nat;
        assert(m / 256 / 256 == m / 65536 && m / 256 / 256 / 256 == m / 16777216);
        assert(r@ =~= le_bytes(m, 4));
    }
    r
}

/// The number that four bytes write down, least significant first.
pub fn from_le_bytes(b: [u8; 4]) -> (r: u32)
    ensures
        r == le_value(b@),
{
    let r: u32 = b[0] as u32 + 256 * b[1] as u32 + 65536 * b[2] as u32 + 16777216 * b[3] as u32;
    proof {
        reveal_with_fuel(le_value, 5);
        let s1 = b@.drop_first();
        let s2 = s1.drop_first();
        let s3 = s2.drop_first();
        assert(s1[0] == b[1] && s2[0] == b[2] && s3[0] == b[3]);
        assert(s3.drop_first().len() == 0);
    }
    r
}

/// No bytes stand for zero, one byte for itself, and of two series of bytes the second counts
/// as often as the first can tell numbers apart: 256 times for each of its bytes.
pub proof fn law_value_grows_by_places(byte: u8, a: Seq<u8>, b: Seq<u8>)
    ensures
        le_value(Seq::empty()) == 0,
        le_value(seq![byte]) == byte,
        le_value(a + b) == le_value(a) + byte_range(a.len()) * le_value(b),
        byte_range(a.len() + 1) == 256 * byte_range(a.len()),
        byte_range(0) == 1,
    decreases a.len(),
{
    reveal_with_fuel(le_value, 2);
    if a.len() == 0 {
        assert(a + b =~= b);
        let one = byte_range(0);
        let v = le_value(b);
        assert(one * v == v) by (nonlinear_arith)
            requires
                one == 1,
        ;
    } else {
        let rest = a.drop_first();
        law_value_grows_by_places(byte, rest, b);
        assert((a + b).drop_first() =~= rest + b);
        let r = byte_range(rest.len());
        let v = le_value(b);
        assert(256 * (r * v) == (256 * r) * v) by (nonlinear_arith);
        assert(byte_range(a.len()) == 256 * r);
        assert((a + b)[0] == a[0]);
        assert(le_value(a + b) == a[0] as nat + 256 * le_value(rest + b));
        assert(le_value(a) == a[0] as nat + 256 * le_value(rest));
    }
}

/// The four bytes of a number, least significant first.
pub proof fn law_four_bytes_of_a_number(n: nat)
    requires
        n < 0x1_0000_0000,
    ensures
        ({
            let s = le_bytes(n, 4);
            &&& s.len() == 4
            &&& n == s[0] + 0x100 * s[1] + 0x1_0000 * s[2] + 0x100_0000 * s[3]
        }),
{
    lemma_byte_ranges();
    lemma_le_bytes_len(n, 4);
    lemma_value_of_bytes(n, 4);
    law_value_of_four_bytes(le_bytes(n, 4));
}

/// What four bytes stand for, least significant first.
pub proof fn law_value_of_four_bytes(s: Seq<u8>)
    requires
        s.len() == 4,
    ensures
        le_value(s) == s[0] + 0x100 * s[1] + 0x1_0000 * s[2] + 0x100_0000 * s[3],
{
    reveal_with_fuel(le_value, 5);
    let s1 = s.drop_first();
    let s2 = s1.drop_first();
    let s3 = s2.drop_first();
    assert(s1[0] == s[1] && s2[0] == s[2] && s3[0] == s[3]);
    assert(s3.drop_first().len() == 0);
}

} // verus!
