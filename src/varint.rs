use vstd::prelude::*;

use crate::error::ProtocolError;

verus! {

/// Most bytes a VarInt may take on the wire.
pub const MAX_VAR_INT_BYTES: usize = 5;

/// `128` to the power `n`.
pub open spec fn pow128(n: nat) -> nat
    decreases n,
{
    if n == 0 {
        1
    } else {
        128 * pow128((n - 1) as nat)
    }
}

/// Reads the VarInt at the front of `s`, with at most `budget` bytes:
/// its unsigned value (7 bits per byte, least significant group first)
/// and the number of bytes it takes.
pub open spec fn var_int_parse(s: Seq<u8>, budget: nat) -> Result<(nat, nat), ProtocolError>
    decreases budget,
{
    if budget == 0 {
        Err(ProtocolError::VarIntTooLarge)
    } else if s.len() == 0 {
        Err(ProtocolError::UnexpectedEnd)
    } else if s[0] < 128 {
        Ok((s[0] as nat, 1))
    } else {
        match var_int_parse(s.drop_first(), (budget - 1) as nat) {
            Ok((v, n)) => Ok((((s[0] - 128) + 128 * v) as nat, n + 1)),
            Err(e) => Err(e),
        }
    }
}

/// The VarInt at the front of `s` as a signed 32-bit value (the low 32 bits
/// of what was read), with the number of bytes it takes.
pub open spec fn decode_var_int(s: Seq<u8>) -> Result<(i32, nat), ProtocolError> {
    match var_int_parse(s, MAX_VAR_INT_BYTES as nat) {
        Ok((v, n)) => Ok(((v as u32) as i32, n)),
        Err(e) => Err(e),
    }
}

/// The VarInt at position `pos` of `s`, with the position after it.
pub open spec fn var_int_at(s: Seq<u8>, pos: int) -> Result<(i32, int), ProtocolError> {
    match decode_var_int(s.skip(pos)) {
        Ok((v, n)) => Ok((v, pos + n)),
        Err(e) => Err(e),
    }
}

/// The wire bytes of an unsigned 32-bit value: low 7 bits first, the high
/// bit set on every byte but the last.
pub open spec fn encode_u32(u: u32) -> Seq<u8>
    decreases u,
{
    if u < 128 {
        seq![u as u8]
    } else {
        seq![(u % 128 + 128) as u8] + encode_u32(u / 128)
    }
}

/// The wire bytes of a signed 32-bit value: those of its two's complement bits.
pub open spec fn encode_var_int(v: i32) -> Seq<u8> {
    encode_u32(v as u32)
}

proof fn lemma_pow128_monotone(a: nat, b: nat)
    requires
        a <= b,
    ensures
        pow128(a) <= pow128(b),
    decreases b,
{
    if a < b {
        lemma_pow128_monotone(a, (b - 1) as nat);
    }
}

proof fn lemma_parse_encoded(u: u32, rest: Seq<u8>, budget: nat)
    requires
        u < pow128(budget),
        budget >= 1,
    ensures
        var_int_parse(encode_u32(u) + rest, budget) == Ok::<(nat, nat), ProtocolError>(
            (u as nat, encode_u32(u).len()),
        ),
        encode_u32(u).len() <= budget,
    decreases u,
{
    let s = encode_u32(u) + rest;
    if u < 128 {
        assert(budget != 0);
        assert(s[0] == u as u8);
    } else {
        assert(budget != 0);
        let b = (budget - 1) as nat;
        assert(pow128(budget) == 128 * pow128(b));
        if b == 0 {
            assert(pow128(0) == 1);
        }
        assert(u / 128 < pow128(b)) by (nonlinear_arith)
            requires
                u < 128 * pow128(b),
        ;
        lemma_parse_encoded(u / 128, rest, b);
        assert(s.drop_first() =~= encode_u32(u / 128) + rest);
        assert(s[0] == (u % 128 + 128) as u8);
        assert(((u % 128 + 128) - 128) + 128 * (u / 128) == u);
    }
}

/// Decoding what `write_var_int` emits for `v` gives `v` back, whatever bytes
/// follow it, and the encoding never takes more than five bytes.
pub proof fn lemma_var_int_round_trip(v: i32, rest: Seq<u8>)
    ensures
        decode_var_int(encode_var_int(v) + rest) == Ok::<(i32, nat), ProtocolError>(
            (v, encode_var_int(v).len()),
        ),
        1 <= encode_var_int(v).len() <= MAX_VAR_INT_BYTES,
{
    let u = v as u32;
    assert(pow128(5) == 34359738368) by {
        reveal_with_fuel(pow128, 6);
    }
    lemma_parse_encoded(u, rest, 5);
    assert((u as nat) as u32 == u);
    assert((u as i32) == v) by (bit_vector)
        requires
            u == v as u32,
    ;
    reveal_with_fuel(encode_u32, 2);
}

/// Every run of five or more bytes that all carry the continuation bit is
/// rejected as too large, whatever follows.
pub proof fn lemma_var_int_too_large(s: Seq<u8>)
    requires
        s.len() >= MAX_VAR_INT_BYTES,
        forall|i: int| 0 <= i < MAX_VAR_INT_BYTES ==> s[i] >= 128,
    ensures
        decode_var_int(s) == Err::<(i32, nat), ProtocolError>(ProtocolError::VarIntTooLarge),
{
    let s1 = s.drop_first();
    let s2 = s1.drop_first();
    let s3 = s2.drop_first();
    let s4 = s3.drop_first();
    let s5 = s4.drop_first();
    assert(s1[0] == s[1] && s2[0] == s[2] && s3[0] == s[3] && s4[0] == s[4]);
    assert(var_int_parse(s5, 0) == Err::<(nat, nat), ProtocolError>(ProtocolError::VarIntTooLarge));
    assert(var_int_parse(s4, 1) == Err::<(nat, nat), ProtocolError>(ProtocolError::VarIntTooLarge));
    assert(var_int_parse(s3, 2) == Err::<(nat, nat), ProtocolError>(ProtocolError::VarIntTooLarge));
    assert(var_int_parse(s2, 3) == Err::<(nat, nat), ProtocolError>(ProtocolError::VarIntTooLarge));
    assert(var_int_parse(s1, 4) == Err::<(nat, nat), ProtocolError>(ProtocolError::VarIntTooLarge));
}

fn parse_groups(buf: &[u8], pos: usize, budget: usize) -> (r: Result<(u64, usize), ProtocolError>)
    requires
        pos <= buf@.len(),
        budget <= MAX_VAR_INT_BYTES,
    ensures
        match r {
            Ok((v, n)) => var_int_parse(buf@.skip(pos as int), budget as nat) == Ok::<
                (nat, nat),
                ProtocolError,
            >((v as nat, n as nat)) && v < pow128(budget as nat) && 1 <= n <= budget && pos + n
                <= buf@.len(),
            Err(e) => var_int_parse(buf@.skip(pos as int), budget as nat) == Err::<
                (nat, nat),
                ProtocolError,
            >(e),
        },
    decreases budget,
{
    let ghost s = buf@.skip(pos as int);
    if budget == 0 {
        return Err(ProtocolError::VarIntTooLarge);
    }
    if pos == buf.len() {
        return Err(ProtocolError::UnexpectedEnd);
    }
    let b = buf[pos];
    assert(s[0] == b);
    if b < 128 {
        proof {
            lemma_pow128_monotone(0, (budget - 1) as nat);
        }
        return Ok((b as u64, 1));
    }
    assert(s.drop_first() =~= buf@.skip(pos + 1));
    match parse_groups(buf, pos + 1, budget - 1) {
        Ok((v, n)) => {
            let ghost p = pow128((budget - 1) as nat);
            proof {
                lemma_pow128_monotone((budget - 1) as nat, 4);
                reveal_with_fuel(pow128, 5);
                assert((b - 128) + 128 * v < 128 * p) by (nonlinear_arith)
                    requires
                        v < p,
                        b < 256,
                        b >= 128,
                ;
            }
            Ok(((b as u64 - 128) + 128 * v, n + 1))
        },
        Err(e) => Err(e),
    }
}

/// Reads the VarInt that starts at `pos` of `buf`; gives its value and the
/// position just after it.
pub fn read_var_int(buf: &[u8], pos: usize) -> (r: Result<(i32, usize), ProtocolError>)
    requires
        pos <= buf@.len(),
    ensures
        match r {
            Ok((v, next)) => var_int_at(buf@, pos as int) == Ok::<(i32, int), ProtocolError>(
                (v, next as int),
            ) && pos < next <= buf@.len(),
            Err(e) => var_int_at(buf@, pos as int) == Err::<(i32, int), ProtocolError>(e),
        },
{
    let total = buf.len();
    match parse_groups(buf, pos, MAX_VAR_INT_BYTES) {
        Ok((v, n)) => {
            let low: u32 = #[verifier::truncate] (v as u32);
            let signed: i32 = #[verifier::truncate] (low as i32);
            assert(pos + n <= total);
            Ok((signed, pos + n))
        },
        Err(e) => Err(e),
    }
}

/// Appends the wire bytes of `value` to `out`.
pub fn write_var_int(out: &mut Vec<u8>, value: i32)
    ensures
        final(out)@ == old(out)@ + encode_var_int(value),
{
    let mut rest: u32 = value as u32;
    while rest >= 128
        invariant
            out@ + encode_u32(rest) == old(out)@ + encode_var_int(value),
        decreases rest,
    {
        let ghost before = out@;
        out.push((rest % 128 + 128) as u8);
        assert(out@ + encode_u32(rest / 128) =~= before + encode_u32(rest));
        rest = rest / 128;
    }
    out.push(rest as u8);
    reveal_with_fuel(encode_u32, 1);
    assert(out@ =~= old(out)@ + encode_var_int(value));
}

} // verus!
