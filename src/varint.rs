use vstd::prelude::*;

use crate::codec::{CodecError, Decode, Encode, Reader};
use crate::primitives::{to_signed, to_unsigned};

verus! {

/// A signed 32-bit integer written in 1 to 5 bytes, seven bits per byte, low group first;
/// the high bit of each byte says whether another byte follows.
#[derive(Clone, Copy, Debug, PartialEq, Eq, Structural)]
pub struct VarInt(pub i32);

impl DeepView for VarInt {
    type V = VarInt;

    open spec fn deep_view(&self) -> VarInt {
        *self
    }
}

/// 128 to the power `n`.
pub open spec fn pow128(n: nat) -> nat
    decreases n,
{
    if n == 0 {
        1
    } else {
        128 * pow128((n - 1) as nat)
    }
}

/// The seven-bit groups of `u`, low group first, each but the last with its high bit set.
pub open spec fn varint_bytes(u: nat) -> Seq<u8>
    decreases u,
{
    if u < 128 {
        seq![u as u8]
    } else {
        seq![(u % 128 + 128) as u8] + varint_bytes(u / 128)
    }
}

/// Reading seven-bit groups of `s` from index `i` on: the weighted sum of the groups and the
/// index just past the last one. A sixth byte is never read.
pub open spec fn varint_scan(s: Seq<u8>, i: nat) -> Result<(nat, nat), CodecError>
    decreases 5 - i,
{
    if i >= 5 {
        Err(CodecError::Malformed)
    } else if s.len() <= i {
        Err(CodecError::Truncated)
    } else if s[i as int] < 128 {
        Ok((s[i as int] as nat * pow128(i), i + 1))
    } else {
        match varint_scan(s, i + 1) {
            Ok((v, n)) => Ok((v + ((s[i as int] - 128) * pow128(i)) as nat, n)),
            Err(e) => Err(e),
        }
    }
}

/// `r` with `a` added to its value.
pub open spec fn scan_plus(r: Result<(nat, nat), CodecError>, a: nat) -> Result<(nat, nat), CodecError> {
    match r {
        Ok((v, n)) => Ok((v + a, n)),
        Err(e) => Err(e),
    }
}

proof fn lemma_pow128_values()
    ensures
        pow128(0) == 1,
        pow128(1) == 0x80,
        pow128(2) == 0x4000,
        pow128(3) == 0x20_0000,
        pow128(4) == 0x1000_0000,
        pow128(5) == 0x8_0000_0000,
{
    reveal_with_fuel(pow128, 6);
}

impl Encode for VarInt {
    open spec fn spec_encode(v: VarInt) -> Result<Seq<u8>, CodecError> {
        Ok(varint_bytes(to_unsigned(v.0 as int, 0x1_0000_0000)))
    }

    fn encode(&self, w: &mut Vec<u8>) -> (res: Result<(), CodecError>) {
        let mut u: u32 = if self.0 < 0 {
            (self.0 as i64 + 0x1_0000_0000) as u32
        } else {
            self.0 as u32
        };
        let ghost u0 = u as nat;
        assert(old(w)@ + varint_bytes(u0) =~= w@ + varint_bytes(u as nat));
        while u >= 128
            invariant
                old(w)@ + varint_bytes(u0) == w@ + varint_bytes(u as nat),
            decreases u,
        {
            let ghost pre = w@;
            w.push((u % 128 + 128) as u8);
            assert(pre + varint_bytes(u as nat) =~= w@ + varint_bytes((u / 128) as nat));
            u = u / 128;
        }
        w.push(u as u8);
        assert(w@ =~= old(w)@ + varint_bytes(u0));
        Ok(())
    }
}

impl Decode for VarInt {
    /// The groups are summed and the sum taken modulo 2^32 as a two's complement number.
    open spec fn spec_decode(s: Seq<u8>) -> Result<(VarInt, nat), CodecError> {
        match varint_scan(s, 0) {
            Ok((v, n)) => Ok((VarInt(to_signed(v % 0x1_0000_0000, 0x1_0000_0000) as i32), n)),
            Err(e) => Err(e),
        }
    }

    fn decode(r: &mut Reader) -> (res: Result<VarInt, CodecError>) {
        let ghost s = r@;
        let mut acc: u64 = 0;
        let mut pow: u64 = 1;
        let mut i: usize = 0;
        proof {
            lemma_pow128_values();
            assert(s.skip(0) =~= s);
        }
        while i < 5
            invariant
                r.wf(),
                s == old(r)@,
                i <= 5,
                r@ == s.skip(i as int),
                i <= s.len(),
                pow == pow128(i as nat),
                acc < pow,
                pow128(5) == 0x8_0000_0000,
                pow128(0) == 1,
                varint_scan(s, 0) == scan_plus(varint_scan(s, i as nat), acc as nat),
            decreases 5 - i,
        {
            proof {
                reveal_with_fuel(pow128, 2);
                lemma_pow128_mono((i + 1) as nat, 5);
            }
            if r.remaining() == 0 {
                assert(varint_scan(s, i as nat) == Err::<(nat, nat), CodecError>(
                    CodecError::Truncated,
                ));
                return Err(CodecError::Truncated);
            }
            let b = r.read_u8()?;
            assert(b == s[i as int]);
            assert(r@ =~= s.skip(i + 1));
            if b < 128 {
                assert(acc + b * pow < 0x8_0000_0000) by (nonlinear_arith)
                    requires
                        acc < pow,
                        b < 128,
                        128 * pow <= 0x8_0000_0000,
                ;
                assert(varint_scan(s, i as nat) == Ok::<(nat, nat), CodecError>(
                    ((b * pow) as nat, (i + 1) as nat),
                ));
                acc = acc + b as u64 * pow;
                let val: u32 = (acc % 0x1_0000_0000) as u32;
                let v: i32 = if val >= 0x8000_0000 {
                    (val as i64 - 0x1_0000_0000) as i32
                } else {
                    val as i32
                };
                return Ok(VarInt(v));
            }
            assert(acc + (b - 128) * pow < 128 * pow) by (nonlinear_arith)
                requires
                    acc < pow,
                    b < 256,
                    b >= 128,
            ;
            assert(varint_scan(s, i as nat) == scan_plus(
                varint_scan(s, (i + 1) as nat),
                ((b - 128) * pow) as nat,
            ));
            acc = acc + (b as u64 - 128) * pow;
            pow = pow * 128;
            i = i + 1;
        }
        Err(CodecError::Malformed)
    }
}

proof fn lemma_pow128_mono(i: nat, j: nat)
    requires
        i <= j,
    ensures
        1 <= pow128(i) <= pow128(j),
    decreases j,
{
    if j > 0 {
        if i == j {
            lemma_pow128_mono(0, (j - 1) as nat);
        } else {
            lemma_pow128_mono(i, (j - 1) as nat);
        }
    }
}

proof fn lemma_varint_scan(p: Seq<u8>, u: nat, rest: Seq<u8>)
    requires
        p.len() < 5,
        u < pow128((5 - p.len()) as nat),
    ensures
        varint_scan(p + varint_bytes(u) + rest, p.len()) == Ok::<(nat, nat), CodecError>(
            (u * pow128(p.len()), p.len() + varint_bytes(u).len()),
        ),
    decreases u,
{
    let i = p.len();
    let s = p + varint_bytes(u) + rest;
    if u < 128 {
        assert(s[i as int] == u as u8);
    } else {
        let b = (u % 128 + 128) as u8;
        let longer = p + seq![b];
        assert(s[i as int] == b);
        assert(s =~= longer + varint_bytes(u / 128) + rest);
        if i == 4 {
            reveal_with_fuel(pow128, 2);
        }
        let q = pow128((4 - i) as nat);
        assert(pow128((5 - i) as nat) == 128 * q);
        assert(u / 128 < q) by (nonlinear_arith)
            requires
                u < 128 * q,
        ;
        lemma_varint_scan(longer, u / 128, rest);
        let w = pow128(i as nat);
        assert(pow128((i + 1) as nat) == 128 * w);
        assert((u / 128) * (128 * w) + (u % 128) * w == u * w) by (nonlinear_arith)
            requires
                u == 128 * (u / 128) + u % 128,
        ;
    }
}

/// Decoding the bytes of a VarInt gives it back, whatever follows them, and takes 1 to 5
/// bytes.
pub proof fn varint_round_trip(v: VarInt, rest: Seq<u8>)
    ensures
        VarInt::spec_encode(v) is Ok,
        1 <= VarInt::spec_encode(v)->Ok_0.len() <= 5,
        VarInt::spec_decode(VarInt::spec_encode(v)->Ok_0 + rest) == Ok::<(VarInt, nat), CodecError>(
            (v, VarInt::spec_encode(v)->Ok_0.len()),
        ),
{
    let u = to_unsigned(v.0 as int, 0x1_0000_0000);
    lemma_pow128_values();
    lemma_varint_scan(Seq::empty(), u, rest);
    assert(Seq::<u8>::empty() + varint_bytes(u) + rest =~= varint_bytes(u) + rest);
    lemma_varint_bytes_len(u, 5);
    assert(u * pow128(0) == u);
    assert(u < 0x1_0000_0000);
    assert(u % 0x1_0000_0000 == u);
    assert(to_signed(u, 0x1_0000_0000) == v.0 as int);
    assert(VarInt(to_signed(u, 0x1_0000_0000) as i32) == v);
}

proof fn lemma_varint_bytes_len(u: nat, k: nat)
    requires
        1 <= k,
        u < pow128(k),
    ensures
        1 <= varint_bytes(u).len() <= k,
    decreases u,
{
    if u >= 128 {
        if k == 1 {
            reveal_with_fuel(pow128, 2);
        }
        let q = pow128((k - 1) as nat);
        assert(u / 128 < q) by (nonlinear_arith)
            requires
                u < 128 * q,
        ;
        lemma_varint_bytes_len(u / 128, (k - 1) as nat);
    }
}

} // verus!
