//! Big-endian and little-endian integers as byte sequences.

use vstd::prelude::*;

verus! {

/// The number that `s` denotes when read as a big-endian unsigned integer.
pub open spec fn be_value(s: Seq<u8>) -> nat
    decreases s.len(),
{
    if s.len() == 0 {
        0
    } else {
        be_value(s.drop_last()) * 256 + s.last() as nat
    }
}

/// The lowest `width` bytes of `n`, least significant first.
pub open spec fn le_bytes(n: nat, width: nat) -> Seq<u8>
    decreases width,
{
    if width == 0 {
        Seq::empty()
    } else {
        seq![(n % 256) as u8] + le_bytes(n / 256, (width - 1) as nat)
    }
}

/// The lowest `width` bytes of `n`, most significant first.
pub open spec fn be_bytes(n: nat, width: nat) -> Seq<u8>
    decreases width,
{
    if width == 0 {
        Seq::empty()
    } else {
        be_bytes(n / 256, (width - 1) as nat).push((n % 256) as u8)
    }
}

/// 256 to the power `width`: the count of numbers that `width` bytes can hold.
pub open spec fn byte_range(width: nat) -> nat
    decreases width,
{
    if width == 0 {
        1
    } else {
        256 * byte_range((width - 1) as nat)
    }
}

/// A big-endian number is below the range of its bytes.
pub proof fn lemma_be_value_bound(s: Seq<u8>)
    ensures
        be_value(s) < byte_range(s.len()),
    decreases s.len(),
{
    if s.len() > 0 {
        lemma_be_value_bound(s.drop_last());
    }
}

/// Reading back the big-endian bytes of a number gives the number.
pub proof fn lemma_be_round_trip(n: nat, width: nat)
    requires
        n < byte_range(width),
    ensures
        be_bytes(n, width).len() == width,
        be_value(be_bytes(n, width)) == n,
    decreases width,
{
    if width > 0 {
        lemma_be_round_trip(n / 256, (width - 1) as nat);
        assert(be_bytes(n, width).drop_last() =~= be_bytes(n / 256, (width - 1) as nat));
    }
}

/// The two bytes at `at`, read as a big-endian integer.
pub fn be16(buf: &[u8], at: usize) -> (r: u16)
    requires
        at + 2 <= buf@.len(),
    ensures
        r == be_value(buf@.subrange(at as int, at + 2)),
{
    proof {
        reveal_with_fuel(be_value, 3);
    }
    buf[at] as u16 * 256 + buf[at + 1] as u16
}

/// The four bytes at `at`, read as a big-endian integer.
pub fn be32(buf: &[u8], at: usize) -> (r: u32)
    requires
        at + 4 <= buf@.len(),
    ensures
        r == be_value(buf@.subrange(at as int, at + 4)),
{
    let ghost s = buf@.subrange(at as int, at + 4);
    proof {
        reveal_with_fuel(be_value, 5);
        assert(s.drop_last().last() == buf@[at + 2]);
        assert(s.drop_last().drop_last().last() == buf@[at + 1]);
        assert(s.drop_last().drop_last().drop_last().last() == buf@[at as int]);
    }
    buf[at] as u32 * 0x100_0000 + buf[at + 1] as u32 * 0x1_0000 + buf[at + 2] as u32 * 0x100
        + buf[at + 3] as u32
}

/// The big-endian value of `value`, keeping its lowest 64 bits.
pub fn be_low64(value: &[u8]) -> (r: u64)
    ensures
        r == be_value(value@) % 0x1_0000_0000_0000_0000,
{
    let mut acc: u64 = 0;
    let mut i: usize = 0;
    while i < value.len()
        invariant
            i <= value@.len(),
            acc == be_value(value@.take(i as int)) % 0x1_0000_0000_0000_0000,
        decreases value@.len() - i,
    {
        let byte: u8 = value[i];
        let next: u64 = (acc << 8) | (byte as u64);
        proof {
            let head = value@.take(i as int);
            let whole = value@.take(i + 1);
            assert(whole.drop_last() =~= head);
            assert(whole.last() == byte);
            assert(((acc << 8) | (byte as u64)) == (acc * 256 + byte) % 0x1_0000_0000_0000_0000)
                by (bit_vector);
            lemma_mod_step(be_value(head) as int, acc as int, byte as int);
        }
        acc = next;
        i += 1;
    }
    proof {
        assert(value@.take(i as int) =~= value@);
    }
    acc
}

/// Appending a byte to a number known modulo 2^64.
proof fn lemma_mod_step(n: int, acc: int, byte: int)
    requires
        acc == n % 0x1_0000_0000_0000_0000,
    ensures
        (acc * 256 + byte) % 0x1_0000_0000_0000_0000 == (n * 256 + byte)
            % 0x1_0000_0000_0000_0000,
{
}

/// Appends the two little-endian bytes of `x` to `out`.
pub fn push_le16(out: &mut Vec<u8>, x: u16)
    ensures
        final(out)@ == old(out)@ + le_bytes(x as nat, 2),
{
    proof {
        reveal_with_fuel(le_bytes, 3);
    }
    out.push((x % 256) as u8);
    out.push((x / 256) as u8);
}

/// Appends the four little-endian bytes of `x` to `out`.
pub fn push_le32(out: &mut Vec<u8>, x: u32)
    ensures
        final(out)@ == old(out)@ + le_bytes(x as nat, 4),
{
    proof {
        reveal_with_fuel(le_bytes, 5);
    }
    out.push((x % 256) as u8);
    out.push((x / 256 % 256) as u8);
    out.push((x / 0x1_0000 % 256) as u8);
    out.push((x / 0x100_0000) as u8);
}

/// A number is built of its bytes, most significant first: a byte by itself is
/// its own value, and bytes put behind others shift those up by 256 for each.
pub proof fn law_be_value_is_positional(a: Seq<u8>, b: Seq<u8>, byte: u8)
    ensures
        be_value(Seq::empty()) == 0,
        be_value(seq![byte]) == byte,
        be_value(a + b) == be_value(a) * vstd::arithmetic::power::pow(256, b.len()) + be_value(b),
    decreases b.len(),
{
    reveal(vstd::arithmetic::power::pow);
    reveal_with_fuel(be_value, 2);
    assert(seq![byte].drop_last() =~= Seq::empty());
    if b.len() == 0 {
        assert(a + b =~= a);
    } else {
        let head = b.drop_last();
        law_be_value_is_positional(a, head, byte);
        assert((a + b).drop_last() =~= a + head);
        let p = vstd::arithmetic::power::pow(256, head.len());
        assert(vstd::arithmetic::power::pow(256, b.len()) == 256 * p);
        let x = be_value(a) as int;
        assert((x * p) * 256 == x * (256 * p)) by (nonlinear_arith);
    }
}

/// Dividing by 256 and then by a power of it is dividing by the next power.
proof fn lemma_shift_down(n: nat, i: nat)
    ensures
        (n / 256) as int / vstd::arithmetic::power::pow(256, i) == n as int
            / vstd::arithmetic::power::pow(256, i + 1),
{
    reveal(vstd::arithmetic::power::pow);
    vstd::arithmetic::power::lemma_pow_positive(256, i);
    vstd::arithmetic::div_mod::lemma_div_denominator(
        n as int,
        256,
        vstd::arithmetic::power::pow(256, i),
    );
}

/// Byte `i` of the little-endian form of a number is its digit of 256 to the
/// power `i`.
pub proof fn law_le_bytes_are_digits(n: nat, width: nat)
    ensures
        le_bytes(n, width).len() == width,
        forall|i: int|
            0 <= i < width ==> #[trigger] le_bytes(n, width)[i] == n as int
                / vstd::arithmetic::power::pow(256, i as nat) % 256,
    decreases width,
{
    if width > 0 {
        let rest = (width - 1) as nat;
        law_le_bytes_are_digits(n / 256, rest);
        assert forall|i: int| 0 <= i < width implies #[trigger] le_bytes(n, width)[i] == n as int
            / vstd::arithmetic::power::pow(256, i as nat) % 256 by {
            if i == 0 {
                vstd::arithmetic::power::lemma_pow0(256);
            } else {
                assert(le_bytes(n, width)[i] == le_bytes(n / 256, rest)[i - 1]);
                lemma_shift_down(n, (i - 1) as nat);
            }
        }
    }
}

/// Byte `i` of the big-endian form of a number is its digit of 256 to the power
/// that counts the bytes behind it.
pub proof fn law_be_bytes_are_digits(n: nat, width: nat)
    ensures
        be_bytes(n, width).len() == width,
        forall|i: int|
            0 <= i < width ==> #[trigger] be_bytes(n, width)[i] == n as int
                / vstd::arithmetic::power::pow(256, (width - 1 - i) as nat) % 256,
    decreases width,
{
    if width > 0 {
        let rest = (width - 1) as nat;
        law_be_bytes_are_digits(n / 256, rest);
        assert forall|i: int| 0 <= i < width implies #[trigger] be_bytes(n, width)[i] == n as int
            / vstd::arithmetic::power::pow(256, (width - 1 - i) as nat) % 256 by {
            if i == width - 1 {
                vstd::arithmetic::power::lemma_pow0(256);
            } else {
                assert(be_bytes(n, width)[i] == be_bytes(n / 256, rest)[i]);
                lemma_shift_down(n, (rest - 1 - i) as nat);
            }
        }
    }
}

/// Writing a number of as many bytes as it was read from gives the bytes again.
pub proof fn law_be_bytes_undo_be_value(s: Seq<u8>)
    ensures
        be_bytes(be_value(s), s.len()) == s,
    decreases s.len(),
{
    if s.len() > 0 {
        law_be_bytes_undo_be_value(s.drop_last());
        assert(be_value(s) / 256 == be_value(s.drop_last()));
        assert(be_value(s) % 256 == s.last());
        assert(be_bytes(be_value(s), s.len()) =~= s);
    } else {
        assert(be_bytes(be_value(s), s.len()) =~= s);
    }
}

} // verus!
