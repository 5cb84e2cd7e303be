use vstd::prelude::*;

use crate::bounded::{spec_decode_bounded_int, BoundedInt, WideInt};
use crate::codec::{CodecError, Decode, Encode};
use crate::collection::{round_trips, spec_decode_elems};
use crate::primitives::{
    is_finite_f32_bits, is_finite_f64_bits, lemma_be_bytes_len, lemma_be_round_trip, lemma_pow256_values,
    spec_decode_f32_bits, spec_decode_f64_bits, spec_encode_f32_bits, spec_encode_f64_bits,
};
use crate::strings::{lemma_decode_bytes, lemma_encode_bytes};

verus! {

/// Decoding the bytes of a boolean gives it back, whatever follows them.
pub proof fn bool_round_trip(v: bool, rest: Seq<u8>)
    ensures
        bool::spec_encode(v) is Ok,
        bool::spec_decode(bool::spec_encode(v)->Ok_0 + rest) == Ok::<(bool, nat), CodecError>(
            (v, 1),
        ),
{
}

/// The unit value takes no bytes and decodes from none.
pub proof fn unit_round_trip(rest: Seq<u8>)
    ensures
        <() as Encode>::spec_encode(()) == Ok::<Seq<u8>, CodecError>(Seq::empty()),
        <() as Decode>::spec_decode(rest) == Ok::<((), nat), CodecError>(((), 0)),
{
}

/// Decoding the 1 big-endian bytes of a `u8` gives it back, whatever follows them.
pub proof fn u8_round_trip(v: u8, rest: Seq<u8>)
    ensures
        u8::spec_encode(v) is Ok,
        u8::spec_encode(v)->Ok_0.len() == 1,
        u8::spec_decode(u8::spec_encode(v)->Ok_0 + rest) == Ok::<(u8, nat), CodecError>(
            (v, 1),
        ),
{
    lemma_pow256_values();
    lemma_be_round_trip(v as nat, 1, rest);
    lemma_be_bytes_len(v as nat, 1);
}

/// Decoding the 2 big-endian bytes of a `u16` gives it back, whatever follows them.
pub proof fn u16_round_trip(v: u16, rest: Seq<u8>)
    ensures
        u16::spec_encode(v) is Ok,
        u16::spec_encode(v)->Ok_0.len() == 2,
        u16::spec_decode(u16::spec_encode(v)->Ok_0 + rest) == Ok::<(u16, nat), CodecError>(
            (v, 2),
        ),
{
    lemma_pow256_values();
    lemma_be_round_trip(v as nat, 2, rest);
    lemma_be_bytes_len(v as nat, 2);
}

/// Decoding the 4 big-endian bytes of a `u32` gives it back, whatever follows them.
pub proof fn u32_round_trip(v: u32, rest: Seq<u8>)
    ensures
        u32::spec_encode(v) is Ok,
        u32::spec_encode(v)->Ok_0.len() == 4,
        u32::spec_decode(u32::spec_encode(v)->Ok_0 + rest) == Ok::<(u32, nat), CodecError>(
            (v, 4),
        ),
{
    lemma_pow256_values();
    lemma_be_round_trip(v as nat, 4, rest);
    lemma_be_bytes_len(v as nat, 4);
}

/// Decoding the 8 big-endian bytes of a `u64` gives it back, whatever follows them.
pub proof fn u64_round_trip(v: u64, rest: Seq<u8>)
    ensures
        u64::spec_encode(v) is Ok,
        u64::spec_encode(v)->Ok_0.len() == 8,
        u64::spec_decode(u64::spec_encode(v)->Ok_0 + rest) == Ok::<(u64, nat), CodecError>(
            (v, 8),
        ),
{
    lemma_pow256_values();
    lemma_be_round_trip(v as nat, 8, rest);
    lemma_be_bytes_len(v as nat, 8);
}

/// Decoding the 16 big-endian bytes of a `u128` gives it back, whatever follows them.
pub proof fn u128_round_trip(v: u128, rest: Seq<u8>)
    ensures
        u128::spec_encode(v) is Ok,
        u128::spec_encode(v)->Ok_0.len() == 16,
        u128::spec_decode(u128::spec_encode(v)->Ok_0 + rest) == Ok::<(u128, nat), CodecError>(
            (v, 16),
        ),
{
    lemma_pow256_values();
    lemma_be_round_trip(v as nat, 16, rest);
    lemma_be_bytes_len(v as nat, 16);
}

/// Decoding the 1 big-endian two's complement bytes of an `i8` gives it back, whatever
/// follows them.
pub proof fn i8_round_trip(v: i8, rest: Seq<u8>)
    ensures
        i8::spec_encode(v) is Ok,
        i8::spec_encode(v)->Ok_0.len() == 1,
        i8::spec_decode(i8::spec_encode(v)->Ok_0 + rest) == Ok::<(i8, nat), CodecError>(
            (v, 1),
        ),
{
    lemma_pow256_values();
    let u = crate::primitives::to_unsigned(v as int, crate::primitives::pow256(1));
    lemma_be_round_trip(u, 1, rest);
    lemma_be_bytes_len(u, 1);
}

/// Decoding the 2 big-endian two's complement bytes of an `i16` gives it back, whatever
/// follows them.
pub proof fn i16_round_trip(v: i16, rest: Seq<u8>)
    ensures
        i16::spec_encode(v) is Ok,
        i16::spec_encode(v)->Ok_0.len() == 2,
        i16::spec_decode(i16::spec_encode(v)->Ok_0 + rest) == Ok::<(i16, nat), CodecError>(
            (v, 2),
        ),
{
    lemma_pow256_values();
    let u = crate::primitives::to_unsigned(v as int, crate::primitives::pow256(2));
    lemma_be_round_trip(u, 2, rest);
    lemma_be_bytes_len(u, 2);
}

/// Decoding the 4 big-endian two's complement bytes of an `i32` gives it back, whatever
/// follows them.
pub proof fn i32_round_trip(v: i32, rest: Seq<u8>)
    ensures
        i32::spec_encode(v) is Ok,
        i32::spec_encode(v)->Ok_0.len() == 4,
        i32::spec_decode(i32::spec_encode(v)->Ok_0 + rest) == Ok::<(i32, nat), CodecError>(
            (v, 4),
        ),
{
    lemma_pow256_values();
    let u = crate::primitives::to_unsigned(v as int, crate::primitives::pow256(4));
    lemma_be_round_trip(u, 4, rest);
    lemma_be_bytes_len(u, 4);
}

/// Decoding the 8 big-endian two's complement bytes of an `i64` gives it back, whatever
/// follows them.
pub proof fn i64_round_trip(v: i64, rest: Seq<u8>)
    ensures
        i64::spec_encode(v) is Ok,
        i64::spec_encode(v)->Ok_0.len() == 8,
        i64::spec_decode(i64::spec_encode(v)->Ok_0 + rest) == Ok::<(i64, nat), CodecError>(
            (v, 8),
        ),
{
    lemma_pow256_values();
    let u = crate::primitives::to_unsigned(v as int, crate::primitives::pow256(8));
    lemma_be_round_trip(u, 8, rest);
    lemma_be_bytes_len(u, 8);
}

/// An optional value round-trips whenever its payload does.
pub proof fn option_round_trip<T: Encode + Decode>(
    t: <T as DeepView>::V,
    b: Seq<u8>,
    rest: Seq<u8>,
)
    requires
        <T as Encode>::spec_encode(t) == Ok::<Seq<u8>, CodecError>(b),
        <T as Decode>::spec_decode(b + rest) == Ok::<(<T as DeepView>::V, nat), CodecError>(
            (t, b.len()),
        ),
    ensures
        Option::<T>::spec_encode(Some(t)) == Ok::<Seq<u8>, CodecError>(seq![1u8] + b),
        Option::<T>::spec_decode(seq![1u8] + b + rest) == Ok::<
            (Option<<T as DeepView>::V>, nat),
            CodecError,
        >((Some(t), b.len() + 1)),
        Option::<T>::spec_encode(None) == Ok::<Seq<u8>, CodecError>(seq![0u8]),
        Option::<T>::spec_decode(seq![0u8] + rest) == Ok::<
            (Option<<T as DeepView>::V>, nat),
            CodecError,
        >((None, 1)),
{
    assert((seq![1u8] + b + rest).skip(1) =~= b + rest);
    assert((seq![1u8] + b + rest)[0] == 1u8);
    assert((seq![0u8] + rest)[0] == 0u8);
}

/// An absent optional value is exactly one byte; a present one of a payload that takes no
/// bytes, such as the unit value, is exactly its one flag byte.
pub proof fn option_sizes()
    ensures
        Option::<()>::spec_encode(None) == Ok::<Seq<u8>, CodecError>(seq![0u8]),
        Option::<()>::spec_encode(Some(())) == Ok::<Seq<u8>, CodecError>(seq![1u8]),
{
    assert(seq![1u8] + Seq::<u8>::empty() =~= seq![1u8]);
}

/// A boolean is read strictly: 0 is false, 1 is true, and any other byte is malformed.
pub proof fn bool_strictness(b: u8, rest: Seq<u8>)
    ensures
        b == 0 ==> bool::spec_decode(seq![b] + rest) == Ok::<(bool, nat), CodecError>(
            (false, 1),
        ),
        b == 1 ==> bool::spec_decode(seq![b] + rest) == Ok::<(bool, nat), CodecError>((true, 1)),
        b >= 2 ==> bool::spec_decode(seq![b] + rest) == Err::<(bool, nat), CodecError>(
            CodecError::Malformed,
        ),
{
    assert((seq![b] + rest)[0] == b);
}

/// A bounded integer is written only when its value lies in its range, and read only when
/// the value read lies in the range; both ends of the range are accepted.
pub proof fn bounded_int_bounds<T: WideInt>(v: <T as DeepView>::V, min: i64, max: i64, s: Seq<u8>)
    ensures
        BoundedInt::<T>::spec_encode((v, min, max)) == if min <= T::wide(v) <= max {
            <T as Encode>::spec_encode(v)
        } else {
            Err(CodecError::OutOfBounds)
        },
        match <T as Decode>::spec_decode(s) {
            Ok((d, n)) => spec_decode_bounded_int::<T>(s, min as int, max as int) == if min
                <= T::wide(d) <= max {
                Ok::<(<T as DeepView>::V, nat), CodecError>((d, n))
            } else {
                Err(CodecError::OutOfBounds)
            },
            Err(e) => spec_decode_bounded_int::<T>(s, min as int, max as int) == Err::<
                (<T as DeepView>::V, nat),
                CodecError,
            >(e),
        },
{
}

/// Floats are finite on the wire: a non-finite bit pattern is never written, and decoding
/// never yields one.
pub proof fn floats_are_finite(b32: u32, b64: u64, s: Seq<u8>)
    ensures
        !is_finite_f32_bits(b32) ==> spec_encode_f32_bits(b32) == Err::<Seq<u8>, CodecError>(
            CodecError::Malformed,
        ),
        !is_finite_f64_bits(b64) ==> spec_encode_f64_bits(b64) == Err::<Seq<u8>, CodecError>(
            CodecError::Malformed,
        ),
        spec_decode_f32_bits(s) is Ok ==> is_finite_f32_bits(spec_decode_f32_bits(s)->Ok_0.0),
        spec_decode_f64_bits(s) is Ok ==> is_finite_f64_bits(spec_decode_f64_bits(s)->Ok_0.0),
{
}

/// A finite float's bit pattern round-trips, whatever follows it.
pub proof fn float_bits_round_trip(b32: u32, b64: u64, rest: Seq<u8>)
    ensures
        is_finite_f32_bits(b32) ==> spec_encode_f32_bits(b32) is Ok && spec_decode_f32_bits(
            spec_encode_f32_bits(b32)->Ok_0 + rest,
        ) == Ok::<(u32, nat), CodecError>((b32, 4)),
        is_finite_f64_bits(b64) ==> spec_encode_f64_bits(b64) is Ok && spec_decode_f64_bits(
            spec_encode_f64_bits(b64)->Ok_0 + rest,
        ) == Ok::<(u64, nat), CodecError>((b64, 8)),
{
    u32_round_trip(b32, rest);
    u64_round_trip(b64, rest);
}

/// A fixed-size byte array is written as its bytes alone, and read back by taking exactly
/// that many bytes: no length prefix on either side.
pub proof fn fixed_byte_array_has_no_prefix<const N: usize>(v: Seq<u8>, s: Seq<u8>)
    requires
        v.len() == N,
    ensures
        <[u8; N] as Encode>::spec_encode(v) == Ok::<Seq<u8>, CodecError>(v),
        N <= s.len() ==> spec_decode_elems::<u8>(s, N as nat) == Ok::<(Seq<u8>, nat), CodecError>(
            (s.take(N as int), N as nat),
        ),
        N > s.len() ==> spec_decode_elems::<u8>(s, N as nat) == Err::<(Seq<u8>, nat), CodecError>(
            CodecError::Truncated,
        ),
{
    lemma_encode_bytes(v);
    lemma_decode_bytes(s, N as nat);
}

/// A bounded integer whose value lies in its range is written as its integer alone, and
/// reading those bytes back within the same range gives the value again, whatever follows.
pub proof fn bounded_int_round_trip<T: WideInt>(
    v: <T as DeepView>::V,
    min: i64,
    max: i64,
    rest: Seq<u8>,
)
    requires
        round_trips::<T>(v),
        min <= T::wide(v) <= max,
    ensures
        BoundedInt::<T>::spec_encode((v, min, max)) == <T as Encode>::spec_encode(v),
        spec_decode_bounded_int::<T>(
            BoundedInt::<T>::spec_encode((v, min, max))->Ok_0 + rest,
            min as int,
            max as int,
        ) == Ok::<(<T as DeepView>::V, nat), CodecError>(
            (v, <T as Encode>::spec_encode(v)->Ok_0.len()),
        ),
{
    let b = <T as Encode>::spec_encode(v)->Ok_0;
    assert(<T as Decode>::spec_decode(b + rest) == Ok::<(<T as DeepView>::V, nat), CodecError>(
        (v, b.len()),
    ));
}

} // verus!
