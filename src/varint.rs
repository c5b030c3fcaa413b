use vstd::prelude::*;

use crate::error::ProtocolError;

verus! {

/// Largest number of bytes a varint may occupy.
pub const MAX_VARINT_BYTES: usize = 5;

/// 128 to the power `k`.
pub open spec fn pow128(k: nat) -> nat
    decreases k,
{
    if k == 0 {
        1
    } else {
        128 * pow128((k - 1) as nat)
    }
}

/// The number represented by the 7-bit groups of `s`, least significant first.
pub open spec fn groups(s: Seq<u8>) -> nat
    decreases s.len(),
{
    if s.len() == 0 {
        0
    } else {
        (s[0] % 128) as nat + 128 * groups(s.drop_first())
    }
}

/// Length of the varint at the front of `s` when it is searched from index `i`:
/// one past the first byte under 0x80 among the first five, or 0 when there is none.
pub open spec fn varint_len_from(s: Seq<u8>, i: nat) -> nat
    decreases 5 - i,
{
    if i >= 5 || i >= s.len() {
        0
    } else if s[i as int] < 128 {
        i + 1
    } else {
        varint_len_from(s, i + 1)
    }
}

/// Length of the varint at the front of `s`; 0 when `s` holds no complete varint.
pub open spec fn varint_len(s: Seq<u8>) -> nat {
    varint_len_from(s, 0)
}

/// `s` holds no complete varint only because it ends too early.
pub open spec fn varint_short(s: Seq<u8>) -> bool {
    varint_len(s) == 0 && s.len() < 5
}

/// The 32-bit signed integer whose two's-complement bit pattern is `u` (taken modulo 2^32).
pub open spec fn signed_of(u: nat) -> int {
    let w = u % 0x1_0000_0000;
    if w < 0x8000_0000 {
        w as int
    } else {
        w - 0x1_0000_0000
    }
}

/// The two's-complement bit pattern of a 32-bit signed integer, as a number.
pub open spec fn unsigned_of(v: int) -> nat {
    if v < 0 {
        (v + 0x1_0000_0000) as nat
    } else {
        v as nat
    }
}

/// Value of the varint at the front of `s` (meaningful when `varint_len(s) > 0`).
pub open spec fn varint_value(s: Seq<u8>) -> int {
    signed_of(groups(s.take(varint_len(s) as int)))
}

/// The 7-bit groups of `u`, least significant first, continuation bit on all but the last.
pub open spec fn varint_bytes(u: nat) -> Seq<u8>
    decreases u,
{
    if u < 128 {
        seq![u as u8]
    } else {
        seq![(u % 128 + 128) as u8] + varint_bytes(u / 128)
    }
}

/// The encoding of a 32-bit signed integer.
pub open spec fn encode_spec(v: int) -> Seq<u8> {
    varint_bytes(unsigned_of(v))
}

/// Length of the varint at index `pos` of `s`.
pub open spec fn varint_len_at(s: Seq<u8>, pos: int) -> nat {
    varint_len(s.subrange(pos, s.len() as int))
}

/// Value of the varint at index `pos` of `s`.
pub open spec fn varint_value_at(s: Seq<u8>, pos: int) -> int {
    varint_value(s.subrange(pos, s.len() as int))
}

/// The varint at index `pos` of `s` is incomplete only because `s` ends too early.
pub open spec fn varint_short_at(s: Seq<u8>, pos: int) -> bool {
    varint_short(s.subrange(pos, s.len() as int))
}

proof fn lemma_groups_push(t: Seq<u8>, b: u8)
    ensures
        groups(t.push(b)) == groups(t) + (b % 128) as nat * pow128(t.len()),
    decreases t.len(),
{
    if t.len() == 0 {
        assert(t.push(b).drop_first() =~= Seq::<u8>::empty());
        assert(groups(Seq::<u8>::empty()) == 0);
    } else {
        assert(t.push(b).drop_first() =~= t.drop_first().push(b));
        lemma_groups_push(t.drop_first(), b);
        assert(t.push(b)[0] == t[0]);
        assert(pow128(t.len()) == 128 * pow128((t.len() - 1) as nat));
        let x = (b % 128) as nat;
        let p = pow128((t.len() - 1) as nat);
        assert(128 * (groups(t.drop_first()) + x * p) == 128 * groups(t.drop_first()) + x * (128
            * p)) by (nonlinear_arith);
    }
}

/// A varint found in `s` lies within `s` and within five bytes.
pub proof fn lemma_len_bound(s: Seq<u8>, i: nat)
    ensures
        varint_len_from(s, i) <= s.len(),
        varint_len_from(s, i) <= 5,
    decreases 5 - i,
{
    if i < 5 && i < s.len() && s[i as int] >= 128 {
        lemma_len_bound(s, i + 1);
    }
}

/// A varint of length `n` stands at the front of `s`: the search from any `i < n` finds it.
proof fn lemma_len_from(s: Seq<u8>, n: nat, i: nat)
    requires
        1 <= n <= 5,
        n <= s.len(),
        s[n - 1] < 128,
        forall|j: int| 0 <= j < n - 1 ==> s[j] >= 128,
        i < n,
    ensures
        varint_len_from(s, i) == n,
    decreases n - i,
{
    if i + 1 < n {
        lemma_len_from(s, n, i + 1);
    }
}

/// Shape of an encoding: every byte but the last carries the continuation bit.
proof fn lemma_bytes_shape(u: nat, k: nat)
    requires
        u < pow128(k),
        k >= 1,
    ensures
        1 <= varint_bytes(u).len() <= k,
        varint_bytes(u)[varint_bytes(u).len() - 1] < 128,
        forall|j: int| 0 <= j < varint_bytes(u).len() - 1 ==> varint_bytes(u)[j] >= 128,
        groups(varint_bytes(u)) == u,
    decreases u,
{
    let e = varint_bytes(u);
    if u < 128 {
        assert(e.drop_first() =~= Seq::<u8>::empty());
        assert(groups(Seq::<u8>::empty()) == 0);
    } else {
        let k1 = (k - 1) as nat;
        assert(u / 128 < pow128(k1)) by (nonlinear_arith)
            requires
                u < 128 * pow128(k1),
        ;
        assert(k1 >= 1) by {
            if k1 == 0 {
                assert(pow128(0) == 1);
            }
        }
        lemma_bytes_shape(u / 128, k1);
        let t = varint_bytes(u / 128);
        assert(e.drop_first() =~= t);
        assert forall|j: int| 0 <= j < e.len() - 1 implies e[j] >= 128 by {
            if j > 0 {
                assert(e[j] == t[j - 1]);
            }
        }
    }
}

proof fn lemma_pow128_5()
    ensures
        pow128(5) == 0x8_0000_0000,
{
    reveal_with_fuel(pow128, 6);
}

proof fn lemma_pow128_small(i: nat)
    requires
        i <= 4,
    ensures
        pow128(i) <= 0x1000_0000,
{
    reveal_with_fuel(pow128, 6);
    if i == 0 {
    } else if i == 1 {
    } else if i == 2 {
    } else if i == 3 {
    } else {
    }
}

/// Decoding the encoding of `v`, followed by anything, finds exactly that encoding and `v`.
pub proof fn lemma_decode_encode(v: i32, rest: Seq<u8>)
    ensures
        varint_len(encode_spec(v as int) + rest) == encode_spec(v as int).len(),
        varint_value(encode_spec(v as int) + rest) == v,
        1 <= encode_spec(v as int).len() <= 5,
{
    let u = unsigned_of(v as int);
    let e = varint_bytes(u);
    let s = e + rest;
    lemma_pow128_5();
    lemma_bytes_shape(u, 5);
    assert forall|j: int| 0 <= j < e.len() - 1 implies s[j] >= 128 by {
        assert(s[j] == e[j]);
    }
    assert(s[e.len() - 1] == e[e.len() - 1]);
    lemma_len_from(s, e.len(), 0);
    assert(s.take(e.len() as int) =~= e);
}

/// Zero is encoded as a single zero byte.
pub proof fn lemma_encode_zero()
    ensures
        encode_spec(0) == seq![0u8],
{
    reveal_with_fuel(varint_bytes, 2);
}

/// Five bytes that all carry the continuation bit are rejected, whatever follows them.
pub proof fn lemma_overlong_rejected(s: Seq<u8>)
    requires
        s.len() >= 5,
        forall|j: int| 0 <= j < 5 ==> s[j] >= 128,
    ensures
        varint_len(s) == 0,
        !varint_short(s),
{
    reveal_with_fuel(varint_len_from, 6);
}

/// Appends the varint encoding of `val` to `buf`.
pub fn write_varint(buf: &mut Vec<u8>, val: i32)
    ensures
        final(buf)@ == old(buf)@ + encode_spec(val as int),
{
    let mut u: u32 = if val >= 0 {
        val as u32
    } else {
        (val as i64 + 0x1_0000_0000) as u32
    };
    let ghost start = old(buf)@;
    let ghost whole = unsigned_of(val as int);
    while u >= 128
        invariant
            start + varint_bytes(whole) == buf@ + varint_bytes(u as nat),
        decreases u,
    {
        let b: u8 = (u % 128 + 128) as u8;
        proof {
            assert(varint_bytes(u as nat) == seq![b] + varint_bytes((u / 128) as nat));
            assert(buf@ + varint_bytes(u as nat) =~= buf@.push(b) + varint_bytes((u / 128) as nat));
        }
        buf.push(b);
        u = u / 128;
    }
    proof {
        assert(varint_bytes(u as nat) == seq![u as u8]);
        assert(buf@ + varint_bytes(u as nat) =~= buf@.push(u as u8));
    }
    buf.push(u as u8);
}

/// Reads the varint that starts at index `pos` of `data`: its length in bytes and its value.
/// Fails with `Malformed` where no byte under 0x80 stands among the (at most five) bytes from `pos`.
pub fn read_varint_at(data: &[u8], pos: usize) -> (r: Result<(u32, i32), ProtocolError>)
    requires
        pos <= data@.len(),
    ensures
        match r {
            Ok((n, v)) => varint_len_at(data@, pos as int) > 0 && n as nat == varint_len_at(
                data@,
                pos as int,
            ) && n <= data@.len() - pos && v as int == varint_value_at(data@, pos as int),
            Err(e) => varint_len_at(data@, pos as int) == 0 && e == ProtocolError::Malformed,
        },
{
    let ghost s = data@.subrange(pos as int, data@.len() as int);
    proof {
        lemma_len_bound(s, 0);
    }
    let total: usize = data.len();
    let avail: usize = total - pos;
    let mut i: usize = 0;
    let mut acc: u64 = 0;
    let mut mult: u64 = 1;
    while i < MAX_VARINT_BYTES
        invariant
            i <= 5,
            pos <= data@.len(),
            avail == data@.len() - pos,
            total == data@.len(),
            s == data@.subrange(pos as int, data@.len() as int),
            forall|j: int| 0 <= j < i ==> s[j] >= 128,
            i <= s.len(),
            varint_len(s) == varint_len_from(s, i as nat),
            mult as nat == pow128(i as nat),
            acc as nat == groups(s.take(i as int)),
            acc < mult,
        decreases 5 - i,
    {
        proof {
            lemma_pow128_small(i as nat);
        }
        if i >= avail {
            return Err(ProtocolError::Malformed);
        }
        assert(pos + i < total);
        let b = data[pos + i];
        assert(s[i as int] == b);
        proof {
            assert(s.take(i as int).push(b) =~= s.take(i as int + 1));
            lemma_groups_push(s.take(i as int), b);
            let x = (b % 128) as nat;
            assert(acc + x * mult < 128 * mult) by (nonlinear_arith)
                requires
                    acc < mult,
                    x < 128,
            ;
            assert(pow128(i as nat + 1) == 128 * pow128(i as nat));
        }
        acc = acc + (b % 128) as u64 * mult;
        if b < 128 {
            assert(s.take(i as int + 1) =~= s.take(varint_len(s) as int));
            let u: u64 = acc % 0x1_0000_0000;
            let v: i32 = if u < 0x8000_0000 {
                u as i32
            } else {
                (u as i64 - 0x1_0000_0000) as i32
            };
            return Ok(((i + 1) as u32, v));
        }
        mult = mult * 128;
        i = i + 1;
    }
    Err(ProtocolError::Malformed)
}

/// Reads the varint at the front of `data`: its length in bytes and its value.
pub fn read_varint_len(data: &[u8]) -> (r: Result<(u32, i32), ProtocolError>)
    ensures
        match r {
            Ok((n, v)) => varint_len(data@) > 0 && n as nat == varint_len(data@) && n
                <= data@.len() && v as int == varint_value(data@),
            Err(e) => varint_len(data@) == 0 && e == ProtocolError::Malformed,
        },
{
    assert(data@.subrange(0, data@.len() as int) =~= data@);
    read_varint_at(data, 0)
}

} // verus!
