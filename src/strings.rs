use vstd::prelude::*;
use vstd::string::StrSliceExecFns;
use vstd::utf8::{
    decode_utf8, encode_scalar, encode_utf8, encode_utf8_decode_utf8, encode_utf8_valid_utf8,
    valid_utf8,
};

use crate::codec::{CodecError, Decode, Encode, Reader};
use crate::collection::{
    decode_array_bounded, encode_array_bounded, spec_decode_elems, spec_encode_elems,
    MAX_PREFIX_LEN,
};
use crate::primitives::be_value;
use crate::varint::{varint_bytes, varint_round_trip, VarInt};

verus! {

/// The most characters an unbounded string may hold.
pub const MAX_STRING_CHARS: usize = 32767;

/// The most bytes that `max` characters can take in UTF-8, four per character, capped at
/// `usize::MAX`.
pub open spec fn max_utf8_bytes(max: nat) -> nat {
    if max * 4 > usize::MAX {
        usize::MAX as nat
    } else {
        max * 4
    }
}

/// Wire form of text whose character count must lie in `[min, max]`: its UTF-8 byte count as
/// a VarInt, then the bytes.
pub open spec fn spec_encode_string_bounded(cs: Seq<char>, min: nat, max: nat) -> Result<
    Seq<u8>,
    CodecError,
> {
    let b = encode_utf8(cs);
    if cs.len() < min || cs.len() > max {
        Err(CodecError::OutOfBounds)
    } else if b.len() > MAX_PREFIX_LEN {
        Err(CodecError::Overflow)
    } else {
        Ok(varint_bytes(b.len()) + b)
    }
}

/// Decoding result of text whose character count must lie in `[min, max]`. The byte count is
/// checked against `[min, 4 * max]` before any byte is read, and the character count after
/// the bytes are read as UTF-8.
pub open spec fn spec_decode_string_bounded(s: Seq<u8>, min: nat, max: nat) -> Result<
    (Seq<char>, nat),
    CodecError,
> {
    match VarInt::spec_decode(s) {
        Err(e) => Err(e),
        Ok((len, n)) => if len.0 < 0 || len.0 < min || len.0 > max_utf8_bytes(max) {
            Err(CodecError::OutOfBounds)
        } else if s.len() < n + len.0 {
            Err(CodecError::Truncated)
        } else {
            let b = s.subrange(n as int, n + len.0);
            if !valid_utf8(b) {
                Err(CodecError::Malformed)
            } else if decode_utf8(b).len() < min || decode_utf8(b).len() > max {
                Err(CodecError::OutOfBounds)
            } else {
                Ok((decode_utf8(b), (n + len.0) as nat))
            }
        },
    }
}

/// Relies on `String::from_utf8`: it succeeds exactly when the bytes are valid UTF-8, and the
/// string then holds the characters they encode.
#[verifier::external_body]
fn string_from_utf8(bytes: Vec<u8>) -> (r: Option<String>)
    ensures
        match r {
            Some(t) => valid_utf8(bytes@) && t@ == decode_utf8(bytes@),
            None => !valid_utf8(bytes@),
        },
{
    String::from_utf8(bytes).ok()
}

pub proof fn lemma_encode_bytes(b: Seq<u8>)
    ensures
        spec_encode_elems::<u8>(b) == Ok::<Seq<u8>, CodecError>(b),
    decreases b.len(),
{
    if b.len() > 0 {
        lemma_encode_bytes(b.drop_last());
        let x = b.last();
        reveal_with_fuel(crate::primitives::be_bytes, 2);
        assert(crate::primitives::be_bytes(x as nat, 1) =~= seq![x]);
        assert(b.drop_last() + seq![x] =~= b);
        assert(<u8 as Encode>::spec_encode(x) == Ok::<Seq<u8>, CodecError>(seq![x]));
    } else {
        assert(b =~= Seq::<u8>::empty());
    }
}

pub proof fn lemma_decode_bytes(s: Seq<u8>, k: nat)
    ensures
        k <= s.len() ==> spec_decode_elems::<u8>(s, k) == Ok::<(Seq<u8>, nat), CodecError>(
            (s.take(k as int), k),
        ),
        k > s.len() ==> spec_decode_elems::<u8>(s, k) == Err::<(Seq<u8>, nat), CodecError>(
            CodecError::Truncated,
        ),
    decreases k,
{
    if k > 0 {
        lemma_decode_bytes(s, (k - 1) as nat);
        if k <= s.len() {
            let t = s.skip(k - 1).take(1);
            assert(t.drop_last() =~= Seq::<u8>::empty());
            reveal_with_fuel(be_value, 2);
            assert(t[0] == s[k - 1]);
            assert(be_value(t) == s[k - 1]);
            assert(s.take(k - 1).push(s[k - 1]) =~= s.take(k as int));
        }
    } else {
        assert(s.take(0) =~= Seq::<u8>::empty());
    }
}

/// Appends `s` as a VarInt byte count and its UTF-8 bytes; its character count (not its byte
/// count) must lie in `[min, max]`. On any error `w` is left as it was. Bounds with
/// `min > max` are a caller's mistake and are not accepted.
pub fn encode_string_bounded(s: &str, min: usize, max: usize, w: &mut Vec<u8>) -> (res: Result<
    (),
    CodecError,
>)
    requires
        min <= max,
    ensures
        match spec_encode_string_bounded(s@, min as nat, max as nat) {
            Ok(b) => res is Ok && final(w)@ == old(w)@ + b,
            Err(e) => res == Err::<(), CodecError>(e) && final(w)@ == old(w)@,
        },
{
    let char_count = s.unicode_len();
    if char_count < min || char_count > max {
        return Err(CodecError::OutOfBounds);
    }
    let bytes = s.as_bytes();
    // Taking the length tells the prover that the byte count fits in `usize`.
    let _ = bytes.len();
    proof {
        assert(bytes.deep_view() =~= bytes@);
        lemma_encode_bytes(bytes@);
    }
    encode_array_bounded(bytes, 0, usize::MAX, w)
}

/// Consumes a VarInt byte count and that many bytes of UTF-8 text whose character count must
/// lie in `[min, max]`. Bounds with `min > max` are a caller's mistake and are not accepted.
pub fn decode_string_bounded(min: usize, max: usize, r: &mut Reader) -> (res: Result<
    String,
    CodecError,
>)
    requires
        old(r).wf(),
        min <= max,
    ensures
        final(r).wf(),
        match spec_decode_string_bounded(old(r)@, min as nat, max as nat) {
            Ok((cs, n)) => res is Ok && res->Ok_0@ == cs && n <= old(r)@.len() && final(r)@
                == old(r)@.skip(n as int),
            Err(e) => res == Err::<String, CodecError>(e),
        },
{
    let ghost s = r@;
    let byte_max: usize = if max > usize::MAX / 4 {
        usize::MAX
    } else {
        max * 4
    };
    assert(byte_max == max_utf8_bytes(max as nat));
    proof {
        match VarInt::spec_decode(s) {
            Ok((len, n)) => {
                if len.0 >= 0 {
                    lemma_decode_bytes(s.skip(n as int), len.0 as nat);
                    if n + len.0 <= s.len() {
                        assert(s.skip(n as int).take(len.0 as int) =~= s.subrange(
                            n as int,
                            n + len.0,
                        ));
                    }
                }
            },
            Err(_) => {},
        }
    }
    let bytes: Vec<u8> = decode_array_bounded(min, byte_max, r)?;
    assert(bytes.deep_view() =~= bytes@);
    let string = match string_from_utf8(bytes) {
        Some(t) => t,
        None => return Err(CodecError::Malformed),
    };
    let char_count = string.as_str().unicode_len();
    if char_count < min || char_count > max {
        return Err(CodecError::OutOfBounds);
    }
    Ok(string)
}

impl Encode for String {
    open spec fn spec_encode(v: Seq<char>) -> Result<Seq<u8>, CodecError> {
        spec_encode_string_bounded(v, 0, MAX_STRING_CHARS as nat)
    }

    fn encode(&self, w: &mut Vec<u8>) -> (res: Result<(), CodecError>) {
        encode_string_bounded(self.as_str(), 0, MAX_STRING_CHARS, w)
    }
}

impl Decode for String {
    open spec fn spec_decode(s: Seq<u8>) -> Result<(Seq<char>, nat), CodecError> {
        spec_decode_string_bounded(s, 0, MAX_STRING_CHARS as nat)
    }

    fn decode(r: &mut Reader) -> (res: Result<String, CodecError>) {
        decode_string_bounded(0, MAX_STRING_CHARS, r)
    }
}

/// Text whose character count must lie in `[MIN, MAX]`; the bounds are checked on every
/// encode and decode. On the wire it is prefixed by its UTF-8 byte count. A type declared
/// with `MIN > MAX` admits no text: its encode and decode refuse every input, before writing
/// or reading anything.
#[derive(Clone, Debug, PartialEq, Eq, Hash, PartialOrd, Ord, Default)]
pub struct BoundedString<const MIN: usize, const MAX: usize>(pub String);

impl<const MIN: usize, const MAX: usize> DeepView for BoundedString<MIN, MAX> {
    type V = Seq<char>;

    open spec fn deep_view(&self) -> Seq<char> {
        self.0@
    }
}

impl<const MIN: usize, const MAX: usize> From<String> for BoundedString<MIN, MAX> {
    fn from(s: String) -> (r: Self) {
        BoundedString(s)
    }
}

impl<const MIN: usize, const MAX: usize> vstd::std_specs::convert::FromSpecImpl<String> for BoundedString<MIN, MAX> {
    open spec fn obeys_from_spec() -> bool {
        true
    }

    open spec fn from_spec(v: String) -> Self {
        BoundedString(v)
    }
}

impl<const MIN: usize, const MAX: usize> Encode for BoundedString<MIN, MAX> {
    open spec fn spec_encode(v: Seq<char>) -> Result<Seq<u8>, CodecError> {
        spec_encode_string_bounded(v, MIN as nat, MAX as nat)
    }

    fn encode(&self, w: &mut Vec<u8>) -> (res: Result<(), CodecError>) {
        if MIN > MAX {
            return Err(CodecError::OutOfBounds);
        }
        encode_string_bounded(self.0.as_str(), MIN, MAX, w)
    }
}

impl<const MIN: usize, const MAX: usize> Decode for BoundedString<MIN, MAX> {
    open spec fn spec_decode(s: Seq<u8>) -> Result<(Seq<char>, nat), CodecError> {
        if MIN > MAX {
            Err(CodecError::OutOfBounds)
        } else {
            spec_decode_string_bounded(s, MIN as nat, MAX as nat)
        }
    }

    fn decode(r: &mut Reader) -> (res: Result<BoundedString<MIN, MAX>, CodecError>) {
        if MIN > MAX {
            return Err(CodecError::OutOfBounds);
        }
        let s = decode_string_bounded(MIN, MAX, r)?;
        Ok(BoundedString(s))
    }
}

/// Each character takes one to four bytes in UTF-8.
pub proof fn lemma_utf8_len(cs: Seq<char>)
    ensures
        cs.len() <= encode_utf8(cs).len() <= 4 * cs.len(),
    decreases cs.len(),
{
    if cs.len() > 0 {
        lemma_utf8_len(cs.drop_first());
        let e = encode_scalar(cs[0] as u32);
        assert(1 <= e.len() <= 4);
    }
}

/// Text whose character count lies in `[min, max]` and whose byte count fits the length
/// prefix is written, and decoding its bytes gives it back, whatever follows them. Text
/// outside the bounds is refused.
pub proof fn string_round_trip(cs: Seq<char>, min: nat, max: nat, rest: Seq<u8>)
    requires
        max <= usize::MAX,
    ensures
        cs.len() < min || cs.len() > max ==> spec_encode_string_bounded(cs, min, max) == Err::<
            Seq<u8>,
            CodecError,
        >(CodecError::OutOfBounds),
        min <= cs.len() <= max && encode_utf8(cs).len() <= MAX_PREFIX_LEN ==> {
            &&& spec_encode_string_bounded(cs, min, max) is Ok
            &&& spec_decode_string_bounded(
                spec_encode_string_bounded(cs, min, max)->Ok_0 + rest,
                min,
                max,
            ) == Ok::<(Seq<char>, nat), CodecError>(
                (cs, spec_encode_string_bounded(cs, min, max)->Ok_0.len()),
            )
        },
{
    let b = encode_utf8(cs);
    if min <= cs.len() <= max && b.len() <= MAX_PREFIX_LEN {
        lemma_utf8_len(cs);
        encode_utf8_valid_utf8(cs);
        encode_utf8_decode_utf8(cs);
        let v = VarInt(b.len() as i32);
        varint_round_trip(v, b + rest);
        let p = varint_bytes(b.len());
        assert(VarInt::spec_encode(v)->Ok_0 == p);
        let s = p + b + rest;
        assert(s =~= p + (b + rest));
        assert(s.subrange(p.len() as int, (p.len() + b.len()) as int) =~= b);
    }
}

} // verus!
