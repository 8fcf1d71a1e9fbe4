//! The byte formats of the protocol's primitive values, stated as spec functions, with
//! the facts about them that the codecs rely on.
use vstd::prelude::*;

verus! {

/// `128` to the power `n`.
pub open spec fn pow128(n: nat) -> nat
    decreases n,
{
    if n == 0 {
        1
    } else {
        128 * pow128((n - 1) as nat)
    }
}

/// Unsigned LEB128 bytes of `u`: groups of seven bits, least significant group first,
/// with the high bit set on every byte but the last.
pub open spec fn leb128(u: nat) -> Seq<u8>
    decreases u,
{
    if u < 128 {
        seq![u as u8]
    } else {
        seq![(u % 128 + 128) as u8] + leb128(u / 128)
    }
}

/// Zigzag mapping of a signed 32-bit value onto the naturals: `0, -1, 1, -2, ...` map to
/// `0, 1, 2, 3, ...`.
pub open spec fn zigzag(v: i32) -> nat {
    if v >= 0 {
        (2 * v) as nat
    } else {
        (-2 * v - 1) as nat
    }
}

/// The inverse of [`zigzag`] on values below `2^32`.
pub open spec fn unzigzag(u: nat) -> i32 {
    if u % 2 == 0 {
        (u / 2) as i32
    } else {
        (-((u / 2) as int) - 1) as i32
    }
}

/// The bytes of a signed 32-bit varint: the zigzag value in LEB128.
pub open spec fn varint_i32(v: i32) -> Seq<u8> {
    leb128(zigzag(v))
}

/// Length of the varint at the head of `s` when its last byte (high bit clear) lies
/// within the first `budget` bytes; `None` when no such byte does.
pub open spec fn varint_span(s: Seq<u8>, budget: nat) -> Option<nat>
    decreases budget,
{
    if budget == 0 || s.len() == 0 {
        None
    } else if s[0] < 128 {
        Some(1)
    } else {
        match varint_span(s.drop_first(), (budget - 1) as nat) {
            Some(k) => Some(k + 1),
            None => None,
        }
    }
}

/// Sum of the seven-bit groups of the first `n` bytes of `s`, least significant first.
pub open spec fn leb_value(s: Seq<u8>, n: nat) -> nat
    decreases n,
{
    if n == 0 || s.len() == 0 {
        0
    } else {
        (s[0] % 128) as nat + 128 * leb_value(s.drop_first(), (n - 1) as nat)
    }
}

/// What reading a signed 32-bit varint from the head of `s` gives: the value and the
/// number of bytes it took, or `None` when the input ends before the varint does.
pub open spec fn varint_read(s: Seq<u8>) -> Option<(i32, nat)> {
    match varint_span(s, 5) {
        Some(n) => Some((unzigzag(leb_value(s, n) % 0x1_0000_0000), n)),
        None => None,
    }
}

/// The head of `s` is a varint that goes on past five bytes, with a sixth byte present:
/// a reader of 32-bit varints shifts past the width of its value there.
pub open spec fn varint_overlong(s: Seq<u8>) -> bool {
    varint_span(s, 5) is None && s.len() > 5
}

/// Big-endian bytes of the low `n` bytes of `v`.
pub open spec fn be_bytes(v: nat, n: nat) -> Seq<u8>
    decreases n,
{
    if n == 0 {
        seq![]
    } else {
        be_bytes(v / 256, (n - 1) as nat).push((v % 256) as u8)
    }
}

/// The number that the bytes of `s` spell in big-endian order.
pub open spec fn be_value(s: Seq<u8>) -> nat
    decreases s.len(),
{
    if s.len() == 0 {
        0
    } else {
        be_value(s.drop_last()) * 256 + s.last() as nat
    }
}

/// `256` to the power `n`.
pub open spec fn pow256(n: nat) -> nat
    decreases n,
{
    if n == 0 {
        1
    } else {
        256 * pow256((n - 1) as nat)
    }
}

proof fn lemma_leb128_head(u: nat, rest: Seq<u8>, budget: nat)
    requires
        u < pow128(budget),
        budget > 0,
    ensures
        varint_span(leb128(u) + rest, budget) == Some(leb128(u).len()),
        leb_value(leb128(u) + rest, leb128(u).len()) == u,
        1 <= leb128(u).len() <= budget,
    decreases u,
{
    let s = leb128(u) + rest;
    if u < 128 {
        assert(s[0] == u as u8);
        assert(s.drop_first() == rest);
        reveal_with_fuel(leb_value, 2);
    } else {
        assert(budget >= 2) by {
            if budget < 2 {
                if budget == 0 {
                } else {
                    assert(pow128(1) == 128 * pow128(0));
                }
            }
        }
        let b1 = (budget - 1) as nat;
        assert(pow128(budget) == 128 * pow128(b1));
        assert(u / 128 < pow128(b1));
        lemma_leb128_head(u / 128, rest, b1);
        let t = leb128(u / 128);
        assert(leb128(u) == seq![(u % 128 + 128) as u8] + t);
        assert(s.drop_first() == t + rest);
        assert(s[0] == (u % 128 + 128) as u8);
        assert(s[0] >= 128);
        assert(s[0] % 128 == u % 128);
    }
}

proof fn lemma_pow128_5()
    ensures
        pow128(5) == 0x8_0000_0000,
{
    reveal_with_fuel(pow128, 6);
}

/// Zigzag values of 32-bit integers are below `2^32`, and [`unzigzag`] gives the integer back.
pub proof fn lemma_zigzag(v: i32)
    ensures
        zigzag(v) < 0x1_0000_0000,
        unzigzag(zigzag(v)) == v,
{
}

/// A varint's length is at least one byte and at most what the input holds.
pub proof fn lemma_varint_span_len(s: Seq<u8>, budget: nat)
    ensures
        varint_span(s, budget) matches Some(n) ==> 1 <= n <= s.len() && n <= budget,
    decreases budget,
{
    if budget > 0 && s.len() > 0 && s[0] >= 128 {
        lemma_varint_span_len(s.drop_first(), (budget - 1) as nat);
    }
}

/// No byte with the high bit clear within the first `budget` bytes is what makes
/// [`varint_span`] find no end.
pub proof fn lemma_varint_span_none(s: Seq<u8>, budget: nat)
    ensures
        varint_span(s, budget) is None <==> (forall|j: int|
            0 <= j < s.len() && j < budget ==> #[trigger] s[j] >= 128),
    decreases budget,
{
    if budget > 0 && s.len() > 0 {
        let t = s.drop_first();
        lemma_varint_span_none(t, (budget - 1) as nat);
        if s[0] >= 128 {
            if varint_span(s, budget) is None {
                assert forall|j: int| 0 <= j < s.len() && j < budget implies #[trigger] s[j] >= 128 by {
                    if j > 0 {
                        assert(s[j] == t[j - 1]);
                    }
                }
            } else {
                let j = choose|j: int| 0 <= j < t.len() && j < budget - 1 && !(#[trigger] t[j] >= 128);
                assert(s[j + 1] == t[j]);
            }
        }
    }
}

/// A reader of varints gives back the value that [`varint_i32`] encodes, whatever follows
/// it, and uses exactly its bytes.
pub proof fn lemma_varint_roundtrip(v: i32, rest: Seq<u8>)
    ensures
        varint_read(varint_i32(v) + rest) == Some((v, varint_i32(v).len())),
        !varint_overlong(varint_i32(v) + rest),
        1 <= varint_i32(v).len() <= 5,
{
    lemma_zigzag(v);
    lemma_pow128_5();
    lemma_leb128_head(zigzag(v), rest, 5);
}

/// [`be_value`] reads back the number that [`be_bytes`] writes, when it fits in `n` bytes.
pub proof fn lemma_be_roundtrip(v: nat, n: nat)
    requires
        v < pow256(n),
    ensures
        be_bytes(v, n).len() == n,
        be_value(be_bytes(v, n)) == v,
    decreases n,
{
    if n == 0 {
    } else {
        let n1 = (n - 1) as nat;
        assert(pow256(n) == 256 * pow256(n1));
        assert(v / 256 < pow256(n1));
        lemma_be_roundtrip(v / 256, n1);
        let b = be_bytes(v, n);
        assert(b.drop_last() == be_bytes(v / 256, n1));
    }
}

/// The first `n` bytes of `be_bytes(v, n) + rest` are `be_bytes(v, n)`.
pub proof fn lemma_be_prefix(v: nat, n: nat, rest: Seq<u8>)
    ensures
        be_bytes(v, n).len() == n,
        (be_bytes(v, n) + rest).take(n as int) == be_bytes(v, n),
        (be_bytes(v, n) + rest).skip(n as int) == rest,
    decreases n,
{
    if n > 0 {
        lemma_be_prefix(v / 256, (n - 1) as nat, rest);
    }
    assert((be_bytes(v, n) + rest).take(n as int) =~= be_bytes(v, n));
    assert((be_bytes(v, n) + rest).skip(n as int) =~= rest);
}

/// `256^2`, `256^8` and `256^16`.
pub proof fn lemma_pow256_values()
    ensures
        pow256(2) == 0x1_0000,
        pow256(8) == 0x1_0000_0000_0000_0000,
        pow256(16) == 0x1_0000_0000_0000_0000_0000_0000_0000_0000,
{
    reveal_with_fuel(pow256, 17);
}

} // verus!
