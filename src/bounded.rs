use vstd::prelude::*;

use crate::codec::{CodecError, Decode, Encode, Reader};
use crate::collection::{
    decode_array_bounded, encode_array_bounded, spec_decode_array_bounded,
    spec_encode_array_bounded,
};

verus! {

/// An integer type whose every value widens to `i64` without loss.
pub trait WideInt: Encode + Decode + Copy {
    /// The number a value with view `v` stands for.
    spec fn wide(v: Self::V) -> int;

    fn to_i64(&self) -> (r: i64)
        ensures
            r as int == Self::wide(self.deep_view()),
    ;
}

impl WideInt for u8 {
    open spec fn wide(v: u8) -> int {
        v as int
    }

    fn to_i64(&self) -> (r: i64) {
        *self as i64
    }
}

impl WideInt for i8 {
    open spec fn wide(v: i8) -> int {
        v as int
    }

    fn to_i64(&self) -> (r: i64) {
        *self as i64
    }
}

impl WideInt for u16 {
    open spec fn wide(v: u16) -> int {
        v as int
    }

    fn to_i64(&self) -> (r: i64) {
        *self as i64
    }
}

impl WideInt for i16 {
    open spec fn wide(v: i16) -> int {
        v as int
    }

    fn to_i64(&self) -> (r: i64) {
        *self as i64
    }
}

impl WideInt for u32 {
    open spec fn wide(v: u32) -> int {
        v as int
    }

    fn to_i64(&self) -> (r: i64) {
        *self as i64
    }
}

impl WideInt for i32 {
    open spec fn wide(v: i32) -> int {
        v as int
    }

    fn to_i64(&self) -> (r: i64) {
        *self as i64
    }
}

impl WideInt for i64 {
    open spec fn wide(v: i64) -> int {
        v as int
    }

    fn to_i64(&self) -> (r: i64) {
        *self
    }
}

/// An integer that must lie in the inclusive range `[min, max]`. Encoding refuses a value
/// outside it, and decoding refuses bytes that spell one; nothing is clamped.
#[derive(Clone, Copy, Debug)]
pub struct BoundedInt<T> {
    pub value: T,
    pub min: i64,
    pub max: i64,
}

impl<T: WideInt> DeepView for BoundedInt<T> {
    type V = (T::V, i64, i64);

    open spec fn deep_view(&self) -> (T::V, i64, i64) {
        (self.value.deep_view(), self.min, self.max)
    }
}

/// Decoding result of an integer of type `T` that must lie in `[min, max]`.
pub open spec fn spec_decode_bounded_int<T: WideInt>(s: Seq<u8>, min: int, max: int) -> Result<
    (T::V, nat),
    CodecError,
> {
    match T::spec_decode(s) {
        Ok((v, n)) => if T::wide(v) < min || T::wide(v) > max {
            Err(CodecError::OutOfBounds)
        } else {
            Ok((v, n))
        },
        Err(e) => Err(e),
    }
}

impl<T: WideInt> BoundedInt<T> {
    /// Wraps `value` with its range. A range with `min > max` is a caller's mistake and is not
    /// accepted; whether the value lies in the range is checked when it is encoded.
    pub fn new(value: T, min: i64, max: i64) -> (r: Self)
        requires
            min <= max,
        ensures
            r.value == value,
            r.min == min,
            r.max == max,
    {
        BoundedInt { value, min, max }
    }

    /// Consumes an integer of type `T` and checks that it lies in `[min, max]`.
    pub fn decode_in(min: i64, max: i64, r: &mut Reader) -> (res: Result<Self, CodecError>)
        requires
            old(r).wf(),
            min <= max,
        ensures
            final(r).wf(),
            match spec_decode_bounded_int::<T>(old(r)@, min as int, max as int) {
                Ok((v, n)) => res is Ok && res->Ok_0.value.deep_view() == v && res->Ok_0.min
                    == min && res->Ok_0.max == max && n <= old(r)@.len() && final(r)@
                    == old(r)@.skip(n as int),
                Err(e) => res == Err::<Self, CodecError>(e),
            },
    {
        let value = T::decode(r)?;
        let val = value.to_i64();
        if val < min || val > max {
            return Err(CodecError::OutOfBounds);
        }
        Ok(BoundedInt { value, min, max })
    }
}

impl<T: WideInt> Encode for BoundedInt<T> {
    /// The wire form of the value, which must lie in its range.
    open spec fn spec_encode(v: (T::V, i64, i64)) -> Result<Seq<u8>, CodecError> {
        if T::wide(v.0) < v.1 || T::wide(v.0) > v.2 {
            Err(CodecError::OutOfBounds)
        } else {
            T::spec_encode(v.0)
        }
    }

    fn encode(&self, w: &mut Vec<u8>) -> (res: Result<(), CodecError>) {
        let val = self.value.to_i64();
        if val < self.min || val > self.max {
            return Err(CodecError::OutOfBounds);
        }
        self.value.encode(w)
    }
}

/// A sequence whose element count must lie in `[MIN, MAX]`; on the wire it is prefixed by
/// its count as a VarInt. A type declared with `MIN > MAX` admits no count: its encode and
/// decode refuse every input, before writing or reading anything.
#[derive(Clone, Debug, PartialEq, Eq, Hash, PartialOrd, Ord, Default)]
pub struct BoundedArray<T, const MIN: usize, const MAX: usize>(pub Vec<T>);

impl<T: DeepView, const MIN: usize, const MAX: usize> DeepView for BoundedArray<T, MIN, MAX> {
    type V = Seq<T::V>;

    open spec fn deep_view(&self) -> Seq<T::V> {
        self.0.deep_view()
    }
}

impl<T, const MIN: usize, const MAX: usize> From<Vec<T>> for BoundedArray<T, MIN, MAX> {
    fn from(v: Vec<T>) -> (r: Self) {
        BoundedArray(v)
    }
}

impl<T, const MIN: usize, const MAX: usize> vstd::std_specs::convert::FromSpecImpl<Vec<T>> for BoundedArray<T, MIN, MAX> {
    open spec fn obeys_from_spec() -> bool {
        true
    }

    open spec fn from_spec(v: Vec<T>) -> Self {
        BoundedArray(v)
    }
}

impl<T: Encode, const MIN: usize, const MAX: usize> Encode for BoundedArray<T, MIN, MAX> {
    open spec fn spec_encode(v: Seq<T::V>) -> Result<Seq<u8>, CodecError> {
        spec_encode_array_bounded::<T>(v, MIN as nat, MAX as nat)
    }

    fn encode(&self, w: &mut Vec<u8>) -> (res: Result<(), CodecError>) {
        if MIN > MAX {
            return Err(CodecError::OutOfBounds);
        }
        let s = self.0.as_slice();
        assert(s.deep_view() =~= self.deep_view());
        encode_array_bounded(s, MIN, MAX, w)
    }
}

impl<T: Decode, const MIN: usize, const MAX: usize> Decode for BoundedArray<T, MIN, MAX> {
    open spec fn spec_decode(s: Seq<u8>) -> Result<(Seq<T::V>, nat), CodecError> {
        if MIN > MAX {
            Err(CodecError::OutOfBounds)
        } else {
            spec_decode_array_bounded::<T>(s, MIN as nat, MAX as nat)
        }
    }

    fn decode(r: &mut Reader) -> (res: Result<BoundedArray<T, MIN, MAX>, CodecError>) {
        if MIN > MAX {
            return Err(CodecError::OutOfBounds);
        }
        let v = decode_array_bounded(MIN, MAX, r)?;
        Ok(BoundedArray(v))
    }
}

} // verus!
