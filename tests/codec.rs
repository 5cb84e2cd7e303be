use valence_protocol::bounded::{BoundedArray, BoundedInt};
use valence_protocol::codec::{CodecError, Decode, Encode, Reader};
use valence_protocol::collection::{decode_array_exact, encode_array_bounded, prealloc_capacity};
use valence_protocol::game_mode::GameMode;
use valence_protocol::primitives::{decode_f32_bits, decode_f64_bits, encode_f32_bits, encode_f64_bits};
use valence_protocol::raw::ReadToEnd;
use valence_protocol::strings::{decode_string_bounded, encode_string_bounded, BoundedString};
use valence_protocol::varint::VarInt;

fn enc<T: Encode>(v: &T) -> Result<Vec<u8>, CodecError> {
    let mut w = Vec::new();
    v.encode(&mut w).map(|_| w)
}

fn dec<T: Decode>(bytes: &[u8]) -> (Result<T, CodecError>, usize) {
    let mut r = Reader::new(bytes.to_vec());
    let res = T::decode(&mut r);
    (res, r.remaining())
}

#[test]
fn integers_are_big_endian() {
    assert_eq!(enc(&0x1234u16).unwrap(), vec![0x12, 0x34]);
    assert_eq!(enc(&0x0102_0304u32).unwrap(), vec![1, 2, 3, 4]);
    assert_eq!(enc(&-2i16).unwrap(), vec![0xff, 0xfe]);
    assert_eq!(enc(&-1i64).unwrap(), vec![0xff; 8]);
    assert_eq!(enc(&i32::MIN).unwrap(), vec![0x80, 0, 0, 0]);
    assert_eq!(enc(&7u8).unwrap(), vec![7]);
    assert_eq!(enc(&-128i8).unwrap(), vec![0x80]);
    assert_eq!(enc(&1u128).unwrap(), {
        let mut v = vec![0u8; 15];
        v.push(1);
        v
    });
}

#[test]
fn primitives_round_trip() {
    for v in [0u16, 1, 0x1234, u16::MAX] {
        assert_eq!(dec::<u16>(&enc(&v).unwrap()), (Ok(v), 0));
    }
    for v in [i64::MIN, -1, 0, 1, i64::MAX] {
        assert_eq!(dec::<i64>(&enc(&v).unwrap()), (Ok(v), 0));
    }
    for v in [i32::MIN, -300, 0, 300, i32::MAX] {
        assert_eq!(dec::<i32>(&enc(&v).unwrap()), (Ok(v), 0));
    }
    for v in [i8::MIN, -1, 0, i8::MAX] {
        assert_eq!(dec::<i8>(&enc(&v).unwrap()), (Ok(v), 0));
    }
    for v in [i16::MIN, 0, i16::MAX] {
        assert_eq!(dec::<i16>(&enc(&v).unwrap()), (Ok(v), 0));
    }
    for v in [0u32, u32::MAX] {
        assert_eq!(dec::<u32>(&enc(&v).unwrap()), (Ok(v), 0));
    }
    for v in [0u64, u64::MAX] {
        assert_eq!(dec::<u64>(&enc(&v).unwrap()), (Ok(v), 0));
    }
    let big = 0x0011_2233_4455_6677_8899_aabb_ccdd_eeffu128;
    assert_eq!(dec::<u128>(&enc(&big).unwrap()), (Ok(big), 0));
    for v in [true, false] {
        assert_eq!(dec::<bool>(&enc(&v).unwrap()), (Ok(v), 0));
    }
    assert_eq!(enc(&()).unwrap(), Vec::<u8>::new());
    assert_eq!(dec::<()>(&[9]), (Ok(()), 1));
}

#[test]
fn decoding_consumes_only_its_bytes() {
    assert_eq!(dec::<u16>(&[0, 5, 9, 9]), (Ok(5), 2));
}

#[test]
fn truncated_input_fails() {
    assert_eq!(dec::<u32>(&[1, 2, 3]).0, Err(CodecError::Truncated));
    assert_eq!(dec::<bool>(&[]).0, Err(CodecError::Truncated));
}

#[test]
fn bool_strictness() {
    assert_eq!(dec::<bool>(&[0x02]).0, Err(CodecError::Malformed));
    assert_eq!(dec::<bool>(&[0x00]).0, Ok(false));
    assert_eq!(dec::<bool>(&[0x01]).0, Ok(true));
}

#[test]
fn option_sizes() {
    assert_eq!(enc(&None::<()>).unwrap(), vec![0]);
    // The flag is the only byte: a payload of no bytes adds nothing.
    assert_eq!(enc(&Some(())).unwrap(), vec![1]);
    assert_eq!(enc(&Some(0x0102u16)).unwrap(), vec![1, 1, 2]);
    assert_eq!(dec::<Option<u16>>(&[1, 1, 2]), (Ok(Some(0x0102)), 0));
    assert_eq!(dec::<Option<u16>>(&[0, 1, 2]), (Ok(None), 2));
    assert_eq!(dec::<Option<u16>>(&[3]).0, Err(CodecError::Malformed));
}

#[test]
fn varint_encodings() {
    assert_eq!(enc(&VarInt(0)).unwrap(), vec![0]);
    assert_eq!(enc(&VarInt(127)).unwrap(), vec![0x7f]);
    assert_eq!(enc(&VarInt(128)).unwrap(), vec![0x80, 0x01]);
    assert_eq!(enc(&VarInt(255)).unwrap(), vec![0xff, 0x01]);
    assert_eq!(enc(&VarInt(2097151)).unwrap(), vec![0xff, 0xff, 0x7f]);
    assert_eq!(enc(&VarInt(i32::MAX)).unwrap(), vec![0xff, 0xff, 0xff, 0xff, 0x07]);
    assert_eq!(enc(&VarInt(-1)).unwrap(), vec![0xff, 0xff, 0xff, 0xff, 0x0f]);
    for v in [0, 1, 127, 128, 300, 2097151, i32::MAX, -1, i32::MIN] {
        assert_eq!(dec::<VarInt>(&enc(&VarInt(v)).unwrap()), (Ok(VarInt(v)), 0));
    }
}

#[test]
fn varint_too_long_is_malformed() {
    assert_eq!(dec::<VarInt>(&[0x80, 0x80, 0x80, 0x80, 0x80, 0x01]).0, Err(CodecError::Malformed));
    assert_eq!(dec::<VarInt>(&[0x80, 0x80]).0, Err(CodecError::Truncated));
}

#[test]
fn bounded_int_bounds() {
    assert_eq!(enc(&BoundedInt::new(5i32, 0, 4)), Err(CodecError::OutOfBounds));
    assert_eq!(enc(&BoundedInt::new(-1i32, 0, 4)), Err(CodecError::OutOfBounds));
    assert_eq!(enc(&BoundedInt::new(0i32, 0, 4)).unwrap(), vec![0, 0, 0, 0]);
    assert_eq!(enc(&BoundedInt::new(4i32, 0, 4)).unwrap(), vec![0, 0, 0, 4]);
    let mut r = Reader::new(vec![0, 10]);
    assert_eq!(BoundedInt::<u16>::decode_in(0, 9, &mut r).err(), Some(CodecError::OutOfBounds));
    let mut r = Reader::new(vec![0, 9]);
    assert_eq!(BoundedInt::<u16>::decode_in(0, 9, &mut r).unwrap().value, 9);
    let mut r = Reader::new(vec![0xff]);
    assert_eq!(BoundedInt::<i8>::decode_in(-1, 1, &mut r).unwrap().value, -1);
}

#[test]
fn string_char_vs_byte_bounds() {
    let s: BoundedString<0, 3> = BoundedString(String::from("\u{20ac}\u{20ac}\u{20ac}"));
    let bytes = enc(&s).unwrap();
    assert_eq!(bytes.len(), 10);
    assert_eq!(bytes[0], 9);
    let (back, left) = dec::<BoundedString<0, 3>>(&bytes);
    assert_eq!(back.unwrap().0, "\u{20ac}\u{20ac}\u{20ac}");
    assert_eq!(left, 0);
    let long: BoundedString<0, 3> = BoundedString(String::from("abcd"));
    assert_eq!(enc(&long), Err(CodecError::OutOfBounds));
}

#[test]
fn string_decode_checks() {
    assert_eq!(dec::<String>(&[2, b'h', b'i']), (Ok(String::from("hi")), 0));
    assert_eq!(dec::<String>(&[2, 0xff, 0xfe]).0, Err(CodecError::Malformed));
    // Four bytes are within the byte bound of [0, 3] characters, but four characters are not.
    assert_eq!(dec::<BoundedString<0, 3>>(&[4, b'a', b'b', b'c', b'd']).0, Err(CodecError::OutOfBounds));
    // Thirteen bytes exceed four bytes per character.
    let mut bytes = vec![13u8];
    bytes.extend(std::iter::repeat(b'a').take(13));
    assert_eq!(dec::<BoundedString<0, 3>>(&bytes).0, Err(CodecError::OutOfBounds));
    let mut w = Vec::new();
    assert_eq!(encode_string_bounded("abc", 4, 10, &mut w), Err(CodecError::OutOfBounds));
    let mut r = Reader::new(vec![3, b'a', b'b', b'c']);
    assert_eq!(decode_string_bounded(0, 5, &mut r).unwrap(), "abc");
}

#[test]
fn collection_bounds() {
    let empty: BoundedArray<u8, 1, 5> = BoundedArray(vec![]);
    assert_eq!(enc(&empty), Err(CodecError::OutOfBounds));
    let five: BoundedArray<u32, 0, 5> = BoundedArray(vec![1, 2, 3, 4, 5]);
    let bytes = enc(&five).unwrap();
    assert_eq!(bytes.len(), 21);
    assert_eq!(bytes[0], 5);
    let (back, left) = dec::<BoundedArray<u32, 0, 5>>(&bytes);
    assert_eq!(back.unwrap().0, vec![1, 2, 3, 4, 5]);
    assert_eq!(left, 0);
    assert_eq!(dec::<BoundedArray<u8, 0, 2>>(&[3, 1, 2, 3]).0.err(), Some(CodecError::OutOfBounds));
}

#[test]
fn fixed_array_has_no_prefix() {
    assert_eq!(enc(&[9u8, 8, 7, 6]).unwrap(), vec![9, 8, 7, 6]);
    let mut r = Reader::new(vec![9, 8, 7, 6, 5]);
    assert_eq!(decode_array_exact::<u8>(4, &mut r).unwrap(), vec![9, 8, 7, 6]);
    assert_eq!(r.remaining(), 1);
}

#[test]
fn allocation_guard_on_huge_length() {
    let mut bytes = enc(&VarInt(10_000_000)).unwrap();
    bytes.extend([0u8; 10]);
    assert_eq!(dec::<Vec<u64>>(&bytes).0, Err(CodecError::Truncated));
    assert_eq!(prealloc_capacity(10_000_000, 8), 262143);
    assert_eq!(prealloc_capacity(10, 8), 10);
    assert_eq!(prealloc_capacity(10_000_000, 0), 2097151);
}

#[test]
fn negative_length_is_out_of_bounds() {
    assert_eq!(dec::<Vec<u8>>(&[0xff, 0xff, 0xff, 0xff, 0x0f]).0, Err(CodecError::OutOfBounds));
}

#[test]
fn vec_round_trip() {
    let v: Vec<i16> = vec![-1, 2, -3];
    let bytes = enc(&v).unwrap();
    assert_eq!(bytes, vec![3, 0xff, 0xff, 0, 2, 0xff, 0xfd]);
    assert_eq!(dec::<Vec<i16>>(&bytes), (Ok(v), 0));
}

#[test]
fn count_too_large_for_prefix() {
    let units: Vec<()> = vec![(); 1usize << 31];
    let mut w = Vec::new();
    assert_eq!(encode_array_bounded(units.as_slice(), 0, usize::MAX, &mut w), Err(CodecError::Overflow));
}

#[test]
fn non_finite_floats_rejected() {
    let mut w = Vec::new();
    assert_eq!(encode_f32_bits(f32::INFINITY.to_bits(), &mut w), Err(CodecError::Malformed));
    assert_eq!(encode_f32_bits(f32::NAN.to_bits(), &mut w), Err(CodecError::Malformed));
    assert_eq!(encode_f64_bits(f64::INFINITY.to_bits(), &mut w), Err(CodecError::Malformed));
    assert_eq!(encode_f64_bits(f64::NAN.to_bits(), &mut w), Err(CodecError::Malformed));
    assert!(w.is_empty());
    let mut r = Reader::new(vec![0x7f, 0x80, 0, 0]);
    assert_eq!(decode_f32_bits(&mut r), Err(CodecError::Malformed));
    let mut r = Reader::new(f64::NEG_INFINITY.to_bits().to_be_bytes().to_vec());
    assert_eq!(decode_f64_bits(&mut r), Err(CodecError::Malformed));
}

#[test]
fn finite_floats_round_trip() {
    let mut w = Vec::new();
    encode_f32_bits(1.5f32.to_bits(), &mut w).unwrap();
    assert_eq!(w, vec![0x3f, 0xc0, 0, 0]);
    let mut r = Reader::new(w);
    assert_eq!(f32::from_bits(decode_f32_bits(&mut r).unwrap()), 1.5);
    let mut w = Vec::new();
    encode_f64_bits((-0.25f64).to_bits(), &mut w).unwrap();
    let mut r = Reader::new(w);
    assert_eq!(f64::from_bits(decode_f64_bits(&mut r).unwrap()), -0.25);
}

#[test]
fn read_to_end_takes_everything() {
    let (res, left) = dec::<ReadToEnd>(&[1, 2, 3]);
    assert_eq!(res.unwrap().0, vec![1, 2, 3]);
    assert_eq!(left, 0);
    assert_eq!(enc(&ReadToEnd(vec![4, 5])).unwrap(), vec![4, 5]);
}

#[test]
fn game_mode_codec() {
    assert_eq!(GameMode::Survival.to_index(), 0);
    assert_eq!(GameMode::Spectator.to_index(), 3);
    assert_eq!(enc(&GameMode::Adventure).unwrap(), vec![2]);
    assert_eq!(dec::<GameMode>(&[1]).0, Ok(GameMode::Creative));
    assert_eq!(dec::<GameMode>(&[4]).0, Err(CodecError::Malformed));
}

#[test]
fn boxed_slice_and_reference() {
    let b: Box<[u16]> = vec![1u16, 0x0203].into_boxed_slice();
    let bytes = enc(&b).unwrap();
    assert_eq!(bytes, vec![2, 0, 1, 2, 3]);
    let (back, left) = dec::<Box<[u16]>>(&bytes);
    assert_eq!(&*back.unwrap(), &[1u16, 0x0203][..]);
    assert_eq!(left, 0);
    let x = 0x0a0bu16;
    assert_eq!(enc(&&x).unwrap(), vec![0x0a, 0x0b]);
}

#[test]
fn reader_unread_keeps_bytes() {
    let mut r = Reader::new(vec![1, 2, 3]);
    assert_eq!(r.read_u8(), Ok(1));
    assert_eq!(r.unread(), vec![2, 3]);
    assert_eq!(r.remaining(), 2);
    assert_eq!(r.read_bytes(3).err(), Some(CodecError::Truncated));
    assert_eq!(r.read_to_end(), vec![2, 3]);
}

#[test]
fn failed_encode_writes_nothing() {
    let start = vec![0xaau8, 0xbb];
    let mut w = start.clone();
    assert_eq!(BoundedInt::new(11u8, 1, 10).encode(&mut w), Err(CodecError::OutOfBounds));
    assert_eq!(BoundedInt::new(0u8, 1, 10).encode(&mut w), Err(CodecError::OutOfBounds));
    assert_eq!(BoundedString::<0, 3>(String::from("abcd")).encode(&mut w), Err(CodecError::OutOfBounds));
    assert_eq!(BoundedArray::<u8, 1, 5>(vec![]).encode(&mut w), Err(CodecError::OutOfBounds));
    assert_eq!(encode_f32_bits(f32::INFINITY.to_bits(), &mut w), Err(CodecError::Malformed));
    assert_eq!(encode_f64_bits(f64::NAN.to_bits(), &mut w), Err(CodecError::Malformed));
    assert_eq!("a".repeat(32768).encode(&mut w), Err(CodecError::OutOfBounds));
    assert_eq!(w, start);
    let mut ok = Vec::new();
    "a".repeat(32767).encode(&mut ok).unwrap();
    assert_eq!(&ok[..3], &[0xff, 0xff, 0x01]);
    assert_eq!(ok.len(), 3 + 32767);
}

#[test]
fn failed_element_rolls_back() {
    let start = vec![7u8];
    let mut w = start.clone();
    let items = vec![BoundedInt::new(1u8, 0, 5), BoundedInt::new(2u8, 0, 5), BoundedInt::new(9u8, 0, 5)];
    assert_eq!(items.encode(&mut w), Err(CodecError::OutOfBounds));
    assert_eq!(w, start);
    assert_eq!(Some(BoundedInt::new(9u8, 0, 5)).encode(&mut w), Err(CodecError::OutOfBounds));
    assert_eq!(w, start);
    assert_eq!([BoundedInt::new(1u8, 0, 5), BoundedInt::new(6u8, 0, 5)].encode(&mut w), Err(CodecError::OutOfBounds));
    assert_eq!(w, start);
}

#[test]
fn fixed_array_decode() {
    assert_eq!(dec::<[u16; 2]>(&[0, 1, 2, 3, 9]), (Ok([1u16, 0x0203]), 1));
    assert_eq!(dec::<[u8; 4]>(&[1, 2, 3]).0, Err(CodecError::Truncated));
    assert_eq!(dec::<[u8; 0]>(&[1]), (Ok([]), 1));
}

#[test]
fn reversed_bounds_admit_nothing() {
    let mut w = Vec::new();
    assert_eq!(BoundedArray::<u8, 3, 1>(vec![1, 2]).encode(&mut w), Err(CodecError::OutOfBounds));
    assert_eq!(BoundedString::<3, 1>(String::from("ab")).encode(&mut w), Err(CodecError::OutOfBounds));
    assert!(w.is_empty());
    assert_eq!(dec::<BoundedArray<u8, 3, 1>>(&[2, 1, 2]), (Err(CodecError::OutOfBounds), 3));
    assert_eq!(dec::<BoundedString<3, 1>>(&[2, b'a', b'b']), (Err(CodecError::OutOfBounds), 3));
}
