use vstd::prelude::*;

use crate::codec::{CodecError, Decode, Encode, Reader};

verus! {

/// 256 to the power `n`.
pub open spec fn pow256(n: nat) -> nat
    decreases n,
{
    if n == 0 {
        1
    } else {
        256 * pow256((n - 1) as nat)
    }
}

/// The `n` low bytes of `v`, most significant first.
pub open spec fn be_bytes(v: nat, n: nat) -> Seq<u8>
    decreases n,
{
    if n == 0 {
        Seq::empty()
    } else {
        be_bytes(v / 256, (n - 1) as nat).push((v % 256) as u8)
    }
}

/// The number that `b` spells in big-endian order.
pub open spec fn be_value(b: Seq<u8>) -> nat
    decreases b.len(),
{
    if b.len() == 0 {
        0
    } else {
        be_value(b.drop_last()) * 256 + b.last() as nat
    }
}

/// Two's complement of `v` in a width whose unsigned range has `m` values.
pub open spec fn to_unsigned(v: int, m: nat) -> nat {
    if v < 0 {
        (v + m) as nat
    } else {
        v as nat
    }
}

/// The signed number whose two's complement in a width of `m` values is `u`.
pub open spec fn to_signed(u: nat, m: nat) -> int {
    if u >= m / 2 {
        u - m
    } else {
        u as int
    }
}

/// Decoding result of a fixed-width unsigned integer of `n` bytes.
pub open spec fn spec_decode_be(s: Seq<u8>, n: nat) -> Result<(nat, nat), CodecError> {
    if s.len() < n {
        Err(CodecError::Truncated)
    } else {
        Ok((be_value(s.take(n as int)), n))
    }
}

pub proof fn lemma_pow256_mono(i: nat, j: nat)
    requires
        i <= j,
    ensures
        1 <= pow256(i) <= pow256(j),
    decreases j,
{
    if j > 0 {
        if i == j {
            lemma_pow256_mono(0, (j - 1) as nat);
        } else {
            lemma_pow256_mono(i, (j - 1) as nat);
        }
    }
}

pub proof fn lemma_pow256_values()
    ensures
        pow256(1) == 0x100,
        pow256(2) == 0x1_0000,
        pow256(4) == 0x1_0000_0000,
        pow256(8) == 0x1_0000_0000_0000_0000,
        pow256(16) == 0x1_0000_0000_0000_0000_0000_0000_0000_0000,
{
    reveal_with_fuel(pow256, 17);
}

pub proof fn lemma_be_bytes_len(v: nat, n: nat)
    ensures
        be_bytes(v, n).len() == n,
    decreases n,
{
    if n > 0 {
        lemma_be_bytes_len(v / 256, (n - 1) as nat);
    }
}

pub proof fn lemma_be_value_bound(b: Seq<u8>)
    ensures
        be_value(b) < pow256(b.len()),
    decreases b.len(),
{
    if b.len() > 0 {
        let p = b.drop_last();
        lemma_be_value_bound(p);
        let x = be_value(p);
        let q = pow256(p.len());
        let l = b.last() as nat;
        assert(x * 256 + l < 256 * q) by (nonlinear_arith)
            requires
                x < q,
                l < 256,
        ;
    }
}

/// Reading back the `n` bytes written for `v` gives `v`, whatever follows them.
pub proof fn lemma_be_round_trip(v: nat, n: nat, rest: Seq<u8>)
    requires
        v < pow256(n),
    ensures
        be_value(be_bytes(v, n)) == v,
        spec_decode_be(be_bytes(v, n) + rest, n) == Ok::<(nat, nat), CodecError>((v, n)),
    decreases n,
{
    lemma_be_bytes_len(v, n);
    if n > 0 {
        let q = pow256((n - 1) as nat);
        assert(v / 256 < q) by (nonlinear_arith)
            requires
                v < 256 * q,
        ;
        lemma_be_round_trip(v / 256, (n - 1) as nat, rest);
        assert(be_bytes(v, n).drop_last() == be_bytes(v / 256, (n - 1) as nat));
    }
    assert((be_bytes(v, n) + rest).take(n as int) =~= be_bytes(v, n));
}

/// Appends the `n` low bytes of `v`, most significant first.
fn write_be(w: &mut Vec<u8>, v: u128, n: usize)
    ensures
        final(w)@ == old(w)@ + be_bytes(v as nat, n as nat),
    decreases n,
{
    if n == 0 {
        assert(old(w)@ + be_bytes(v as nat, 0) =~= old(w)@);
    } else {
        write_be(w, v / 256, n - 1);
        w.push((v % 256) as u8);
        assert(final(w)@ =~= old(w)@ + be_bytes(v as nat, n as nat));
    }
}

/// Consumes `n` bytes and reads them as a big-endian unsigned number.
fn read_be(r: &mut Reader, n: usize) -> (res: Result<u128, CodecError>)
    requires
        old(r).wf(),
        n <= 16,
    ensures
        final(r).wf(),
        match spec_decode_be(old(r)@, n as nat) {
            Ok((v, k)) => res == Ok::<u128, CodecError>(v as u128) && v < pow256(n as nat)
                && final(r)@ == old(r)@.skip(k as int) && k == n,
            Err(e) => res == Err::<u128, CodecError>(e),
        },
{
    let bytes = r.read_bytes(n)?;
    let mut acc: u128 = 0;
    let mut i: usize = 0;
    proof {
        lemma_pow256_values();
        lemma_pow256_mono(n as nat, 16);
    }
    while i < n
        invariant
            i <= n,
            n <= 16,
            bytes@.len() == n,
            pow256(16) == 0x1_0000_0000_0000_0000_0000_0000_0000_0000,
            acc == be_value(bytes@.take(i as int)),
        decreases n - i,
    {
        proof {
            lemma_be_value_bound(bytes@.take(i as int));
            lemma_pow256_mono((i + 1) as nat, 16);
            let q = pow256(i as nat);
            let x = acc as nat;
            assert(x * 256 + 255 < 256 * q) by (nonlinear_arith)
                requires
                    x < q,
            ;
        }
        acc = acc * 256 + bytes[i] as u128;
        assert(bytes@.take(i + 1).drop_last() =~= bytes@.take(i as int));
        i = i + 1;
    }
    proof {
        assert(bytes@.take(n as int) =~= bytes@);
        lemma_be_value_bound(bytes@);
    }
    Ok(acc)
}

impl Encode for () {
    open spec fn spec_encode(v: ()) -> Result<Seq<u8>, CodecError> {
        Ok(Seq::empty())
    }

    fn encode(&self, w: &mut Vec<u8>) -> (res: Result<(), CodecError>) {
        assert(old(w)@ + Seq::<u8>::empty() =~= old(w)@);
        Ok(())
    }
}

impl Decode for () {
    open spec fn spec_decode(s: Seq<u8>) -> Result<((), nat), CodecError> {
        Ok(((), 0))
    }

    fn decode(r: &mut Reader) -> (res: Result<(), CodecError>) {
        assert(old(r)@.skip(0) =~= old(r)@);
        Ok(())
    }
}

impl Encode for bool {
    open spec fn spec_encode(v: bool) -> Result<Seq<u8>, CodecError> {
        Ok(seq![if v { 1u8 } else { 0u8 }])
    }

    fn encode(&self, w: &mut Vec<u8>) -> (res: Result<(), CodecError>) {
        w.push(if *self { 1u8 } else { 0u8 });
        assert(final(w)@ =~= old(w)@ + bool::spec_encode(*self)->Ok_0);
        Ok(())
    }
}

impl Decode for bool {
    /// Only the bytes 0 and 1 are booleans.
    open spec fn spec_decode(s: Seq<u8>) -> Result<(bool, nat), CodecError> {
        if s.len() == 0 {
            Err(CodecError::Truncated)
        } else if s[0] >= 2 {
            Err(CodecError::Malformed)
        } else {
            Ok((s[0] == 1, 1))
        }
    }

    fn decode(r: &mut Reader) -> (res: Result<bool, CodecError>) {
        let n = r.read_u8()?;
        if n >= 2 {
            return Err(CodecError::Malformed);
        }
        Ok(n == 1)
    }
}

impl Encode for u8 {
    open spec fn spec_encode(v: u8) -> Result<Seq<u8>, CodecError> {
        Ok(be_bytes(v as nat, 1))
    }

    fn encode(&self, w: &mut Vec<u8>) -> (res: Result<(), CodecError>) {
        write_be(w, *self as u128, 1);
        Ok(())
    }
}

impl Decode for u8 {
    open spec fn spec_decode(s: Seq<u8>) -> Result<(u8, nat), CodecError> {
        match spec_decode_be(s, 1) {
            Ok((v, n)) => Ok((v as u8, n)),
            Err(e) => Err(e),
        }
    }

    fn decode(r: &mut Reader) -> (res: Result<u8, CodecError>) {
        let v = read_be(r, 1)?;
        proof {
            lemma_pow256_values();
        }
        Ok(v as u8)
    }
}

impl Encode for u16 {
    open spec fn spec_encode(v: u16) -> Result<Seq<u8>, CodecError> {
        Ok(be_bytes(v as nat, 2))
    }

    fn encode(&self, w: &mut Vec<u8>) -> (res: Result<(), CodecError>) {
        write_be(w, *self as u128, 2);
        Ok(())
    }
}

impl Decode for u16 {
    open spec fn spec_decode(s: Seq<u8>) -> Result<(u16, nat), CodecError> {
        match spec_decode_be(s, 2) {
            Ok((v, n)) => Ok((v as u16, n)),
            Err(e) => Err(e),
        }
    }

    fn decode(r: &mut Reader) -> (res: Result<u16, CodecError>) {
        let v = read_be(r, 2)?;
        proof {
            lemma_pow256_values();
        }
        Ok(v as u16)
    }
}

impl Encode for u32 {
    open spec fn spec_encode(v: u32) -> Result<Seq<u8>, CodecError> {
        Ok(be_bytes(v as nat, 4))
    }

    fn encode(&self, w: &mut Vec<u8>) -> (res: Result<(), CodecError>) {
        write_be(w, *self as u128, 4);
        Ok(())
    }
}

impl Decode for u32 {
    open spec fn spec_decode(s: Seq<u8>) -> Result<(u32, nat), CodecError> {
        match spec_decode_be(s, 4) {
            Ok((v, n)) => Ok((v as u32, n)),
            Err(e) => Err(e),
        }
    }

    fn decode(r: &mut Reader) -> (res: Result<u32, CodecError>) {
        let v = read_be(r, 4)?;
        proof {
            lemma_pow256_values();
        }
        Ok(v as u32)
    }
}

impl Encode for u64 {
    open spec fn spec_encode(v: u64) -> Result<Seq<u8>, CodecError> {
        Ok(be_bytes(v as nat, 8))
    }

    fn encode(&self, w: &mut Vec<u8>) -> (res: Result<(), CodecError>) {
        write_be(w, *self as u128, 8);
        Ok(())
    }
}

impl Decode for u64 {
    open spec fn spec_decode(s: Seq<u8>) -> Result<(u64, nat), CodecError> {
        match spec_decode_be(s, 8) {
            Ok((v, n)) => Ok((v as u64, n)),
            Err(e) => Err(e),
        }
    }

    fn decode(r: &mut Reader) -> (res: Result<u64, CodecError>) {
        let v = read_be(r, 8)?;
        proof {
            lemma_pow256_values();
        }
        Ok(v as u64)
    }
}

impl Encode for u128 {
    open spec fn spec_encode(v: u128) -> Result<Seq<u8>, CodecError> {
        Ok(be_bytes(v as nat, 16))
    }

    fn encode(&self, w: &mut Vec<u8>) -> (res: Result<(), CodecError>) {
        write_be(w, *self, 16);
        Ok(())
    }
}

impl Decode for u128 {
    open spec fn spec_decode(s: Seq<u8>) -> Result<(u128, nat), CodecError> {
        match spec_decode_be(s, 16) {
            Ok((v, n)) => Ok((v as u128, n)),
            Err(e) => Err(e),
        }
    }

    fn decode(r: &mut Reader) -> (res: Result<u128, CodecError>) {
        read_be(r, 16)
    }
}

impl Encode for i8 {
    open spec fn spec_encode(v: i8) -> Result<Seq<u8>, CodecError> {
        Ok(be_bytes(to_unsigned(v as int, pow256(1)), 1))
    }

    fn encode(&self, w: &mut Vec<u8>) -> (res: Result<(), CodecError>) {
        proof {
            lemma_pow256_values();
        }
        let u: u128 = if *self < 0 {
            (*self as i128 + 0x100) as u128
        } else {
            *self as u128
        };
        write_be(w, u, 1);
        Ok(())
    }
}

impl Decode for i8 {
    open spec fn spec_decode(s: Seq<u8>) -> Result<(i8, nat), CodecError> {
        match spec_decode_be(s, 1) {
            Ok((u, n)) => Ok((to_signed(u, pow256(1)) as i8, n)),
            Err(e) => Err(e),
        }
    }

    fn decode(r: &mut Reader) -> (res: Result<i8, CodecError>) {
        let u = read_be(r, 1)?;
        proof {
            lemma_pow256_values();
        }
        if u >= 0x80 {
            Ok((u as i128 - 0x100) as i8)
        } else {
            Ok(u as i8)
        }
    }
}

impl Encode for i16 {
    open spec fn spec_encode(v: i16) -> Result<Seq<u8>, CodecError> {
        Ok(be_bytes(to_unsigned(v as int, pow256(2)), 2))
    }

    fn encode(&self, w: &mut Vec<u8>) -> (res: Result<(), CodecError>) {
        proof {
            lemma_pow256_values();
        }
        let u: u128 = if *self < 0 {
            (*self as i128 + 0x1_0000) as u128
        } else {
            *self as u128
        };
        write_be(w, u, 2);
        Ok(())
    }
}

impl Decode for i16 {
    open spec fn spec_decode(s: Seq<u8>) -> Result<(i16, nat), CodecError> {
        match spec_decode_be(s, 2) {
            Ok((u, n)) => Ok((to_signed(u, pow256(2)) as i16, n)),
            Err(e) => Err(e),
        }
    }

    fn decode(r: &mut Reader) -> (res: Result<i16, CodecError>) {
        let u = read_be(r, 2)?;
        proof {
            lemma_pow256_values();
        }
        if u >= 0x8000 {
            Ok((u as i128 - 0x1_0000) as i16)
        } else {
            Ok(u as i16)
        }
    }
}

impl Encode for i32 {
    open spec fn spec_encode(v: i32) -> Result<Seq<u8>, CodecError> {
        Ok(be_bytes(to_unsigned(v as int, pow256(4)), 4))
    }

    fn encode(&self, w: &mut Vec<u8>) -> (res: Result<(), CodecError>) {
        proof {
            lemma_pow256_values();
        }
        let u: u128 = if *self < 0 {
            (*self as i128 + 0x1_0000_0000) as u128
        } else {
            *self as u128
        };
        write_be(w, u, 4);
        Ok(())
    }
}

impl Decode for i32 {
    open spec fn spec_decode(s: Seq<u8>) -> Result<(i32, nat), CodecError> {
        match spec_decode_be(s, 4) {
            Ok((u, n)) => Ok((to_signed(u, pow256(4)) as i32, n)),
            Err(e) => Err(e),
        }
    }

    fn decode(r: &mut Reader) -> (res: Result<i32, CodecError>) {
        let u = read_be(r, 4)?;
        proof {
            lemma_pow256_values();
        }
        if u >= 0x8000_0000 {
            Ok((u as i128 - 0x1_0000_0000) as i32)
        } else {
            Ok(u as i32)
        }
    }
}

impl Encode for i64 {
    open spec fn spec_encode(v: i64) -> Result<Seq<u8>, CodecError> {
        Ok(be_bytes(to_unsigned(v as int, pow256(8)), 8))
    }

    fn encode(&self, w: &mut Vec<u8>) -> (res: Result<(), CodecError>) {
        proof {
            lemma_pow256_values();
        }
        let u: u128 = if *self < 0 {
            (*self as i128 + 0x1_0000_0000_0000_0000) as u128
        } else {
            *self as u128
        };
        write_be(w, u, 8);
        Ok(())
    }
}

impl Decode for i64 {
    open spec fn spec_decode(s: Seq<u8>) -> Result<(i64, nat), CodecError> {
        match spec_decode_be(s, 8) {
            Ok((u, n)) => Ok((to_signed(u, pow256(8)) as i64, n)),
            Err(e) => Err(e),
        }
    }

    fn decode(r: &mut Reader) -> (res: Result<i64, CodecError>) {
        let u = read_be(r, 8)?;
        proof {
            lemma_pow256_values();
        }
        if u >= 0x8000_0000_0000_0000 {
            Ok((u as i128 - 0x1_0000_0000_0000_0000) as i64)
        } else {
            Ok(u as i64)
        }
    }
}

impl<T: Encode> Encode for Option<T> {
    /// A presence flag, then the payload when there is one.
    open spec fn spec_encode(v: Option<T::V>) -> Result<Seq<u8>, CodecError> {
        match v {
            Some(t) => match T::spec_encode(t) {
                Ok(b) => Ok(seq![1u8] + b),
                Err(e) => Err(e),
            },
            None => Ok(seq![0u8]),
        }
    }

    fn encode(&self, w: &mut Vec<u8>) -> (res: Result<(), CodecError>) {
        match self {
            Some(t) => {
                let start = w.len();
                true.encode(w)?;
                if let Err(e) = t.encode(w) {
                    w.truncate(start);
                    assert(w@ =~= old(w)@);
                    return Err(e);
                }
                assert(w@ =~= old(w)@ + Self::spec_encode(self.deep_view())->Ok_0);
                Ok(())
            },
            None => {
                false.encode(w)?;
                Ok(())
            },
        }
    }
}

impl<T: Decode> Decode for Option<T> {
    open spec fn spec_decode(s: Seq<u8>) -> Result<(Option<T::V>, nat), CodecError> {
        match bool::spec_decode(s) {
            Err(e) => Err(e),
            Ok((false, n)) => Ok((None, n)),
            Ok((true, n)) => match T::spec_decode(s.skip(n as int)) {
                Ok((v, m)) => Ok((Some(v), n + m)),
                Err(e) => Err(e),
            },
        }
    }

    fn decode(r: &mut Reader) -> (res: Result<Option<T>, CodecError>) {
        let ghost s = r@;
        if bool::decode(r)? {
            let ghost mid = r@;
            let v = T::decode(r)?;
            assert(r@ =~= s.skip(1 + (mid.len() - r@.len())));
            Ok(Some(v))
        } else {
            Ok(None)
        }
    }
}

/// Whether the 32-bit IEEE-754 pattern `b` is a finite number: its exponent is not all ones.
pub open spec fn is_finite_f32_bits(b: u32) -> bool {
    (b as nat / 0x80_0000) % 0x100 != 0xff
}

/// Whether the 64-bit IEEE-754 pattern `b` is a finite number: its exponent is not all ones.
pub open spec fn is_finite_f64_bits(b: u64) -> bool {
    (b as nat / 0x10_0000_0000_0000) % 0x800 != 0x7ff
}

/// Wire form of a 4-byte float given by its bit pattern; non-finite values have none.
pub open spec fn spec_encode_f32_bits(b: u32) -> Result<Seq<u8>, CodecError> {
    if is_finite_f32_bits(b) {
        u32::spec_encode(b)
    } else {
        Err(CodecError::Malformed)
    }
}

/// Wire form of an 8-byte float given by its bit pattern; non-finite values have none.
pub open spec fn spec_encode_f64_bits(b: u64) -> Result<Seq<u8>, CodecError> {
    if is_finite_f64_bits(b) {
        u64::spec_encode(b)
    } else {
        Err(CodecError::Malformed)
    }
}

/// Decoding result of a 4-byte float, as its bit pattern; non-finite values are refused.
pub open spec fn spec_decode_f32_bits(s: Seq<u8>) -> Result<(u32, nat), CodecError> {
    match u32::spec_decode(s) {
        Ok((b, n)) => if is_finite_f32_bits(b) {
            Ok((b, n))
        } else {
            Err(CodecError::Malformed)
        },
        Err(e) => Err(e),
    }
}

/// Decoding result of an 8-byte float, as its bit pattern; non-finite values are refused.
pub open spec fn spec_decode_f64_bits(s: Seq<u8>) -> Result<(u64, nat), CodecError> {
    match u64::spec_decode(s) {
        Ok((b, n)) => if is_finite_f64_bits(b) {
            Ok((b, n))
        } else {
            Err(CodecError::Malformed)
        },
        Err(e) => Err(e),
    }
}

/// Appends a 4-byte float given by its IEEE-754 bit pattern, refusing infinities and NaN.
pub fn encode_f32_bits(bits: u32, w: &mut Vec<u8>) -> (res: Result<(), CodecError>)
    ensures
        match spec_encode_f32_bits(bits) {
            Ok(b) => res is Ok && final(w)@ == old(w)@ + b,
            Err(e) => res == Err::<(), CodecError>(e) && final(w)@ == old(w)@,
        },
{
    if (bits / 0x80_0000) % 0x100 == 0xff {
        return Err(CodecError::Malformed);
    }
    bits.encode(w)
}

/// Appends an 8-byte float given by its IEEE-754 bit pattern, refusing infinities and NaN.
pub fn encode_f64_bits(bits: u64, w: &mut Vec<u8>) -> (res: Result<(), CodecError>)
    ensures
        match spec_encode_f64_bits(bits) {
            Ok(b) => res is Ok && final(w)@ == old(w)@ + b,
            Err(e) => res == Err::<(), CodecError>(e) && final(w)@ == old(w)@,
        },
{
    if (bits / 0x10_0000_0000_0000) % 0x800 == 0x7ff {
        return Err(CodecError::Malformed);
    }
    bits.encode(w)
}

/// Consumes a 4-byte float and returns its IEEE-754 bit pattern, refusing infinities and NaN.
pub fn decode_f32_bits(r: &mut Reader) -> (res: Result<u32, CodecError>)
    requires
        old(r).wf(),
    ensures
        final(r).wf(),
        match spec_decode_f32_bits(old(r)@) {
            Ok((b, n)) => res == Ok::<u32, CodecError>(b) && n <= old(r)@.len() && final(r)@
                == old(r)@.skip(n as int),
            Err(e) => res == Err::<u32, CodecError>(e),
        },
{
    let bits = u32::decode(r)?;
    if (bits / 0x80_0000) % 0x100 == 0xff {
        return Err(CodecError::Malformed);
    }
    Ok(bits)
}

/// Consumes an 8-byte float and returns its IEEE-754 bit pattern, refusing infinities and NaN.
pub fn decode_f64_bits(r: &mut Reader) -> (res: Result<u64, CodecError>)
    requires
        old(r).wf(),
    ensures
        final(r).wf(),
        match spec_decode_f64_bits(old(r)@) {
            Ok((b, n)) => res == Ok::<u64, CodecError>(b) && n <= old(r)@.len() && final(r)@
                == old(r)@.skip(n as int),
            Err(e) => res == Err::<u64, CodecError>(e),
        },
{
    let bits = u64::decode(r)?;
    if (bits / 0x10_0000_0000_0000) % 0x800 == 0x7ff {
        return Err(CodecError::Malformed);
    }
    Ok(bits)
}

} // verus!
