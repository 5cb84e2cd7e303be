use vstd::prelude::*;

use crate::codec::{CodecError, Decode, Encode, Reader, MAX_PACKET_SIZE};
use crate::varint::{varint_bytes, varint_round_trip, VarInt};

verus! {

/// The largest element count a length prefix can carry.
pub const MAX_PREFIX_LEN: usize = 2147483647;

/// The wire forms of the elements of `s` back to back, or the error of the first element
/// that has none.
pub open spec fn spec_encode_elems<T: Encode>(s: Seq<T::V>) -> Result<Seq<u8>, CodecError>
    decreases s.len(),
{
    if s.len() == 0 {
        Ok(Seq::empty())
    } else {
        match spec_encode_elems::<T>(s.drop_last()) {
            Ok(b) => match T::spec_encode(s.last()) {
                Ok(c) => Ok(b + c),
                Err(e) => Err(e),
            },
            Err(e) => Err(e),
        }
    }
}

/// `count` elements read one after another from the front of `s`, and the bytes they take,
/// or the error of the first element that cannot be read.
pub open spec fn spec_decode_elems<T: Decode>(s: Seq<u8>, count: nat) -> Result<
    (Seq<T::V>, nat),
    CodecError,
>
    decreases count,
{
    if count == 0 {
        Ok((Seq::empty(), 0))
    } else {
        match spec_decode_elems::<T>(s, (count - 1) as nat) {
            Ok((vs, m)) => match T::spec_decode(s.skip(m as int)) {
                Ok((v, n)) => Ok((vs.push(v), m + n)),
                Err(e) => Err(e),
            },
            Err(e) => Err(e),
        }
    }
}

/// Wire form of a sequence whose element count must lie in `[min, max]`: the count as a
/// VarInt, then the elements.
pub open spec fn spec_encode_array_bounded<T: Encode>(s: Seq<T::V>, min: nat, max: nat) -> Result<
    Seq<u8>,
    CodecError,
> {
    if s.len() < min || s.len() > max {
        Err(CodecError::OutOfBounds)
    } else if s.len() > MAX_PREFIX_LEN {
        Err(CodecError::Overflow)
    } else {
        match spec_encode_elems::<T>(s) {
            Ok(b) => Ok(varint_bytes(s.len()) + b),
            Err(e) => Err(e),
        }
    }
}

/// Decoding result of a VarInt count that must lie in `[min, max]`, followed by that many
/// elements.
pub open spec fn spec_decode_array_bounded<T: Decode>(s: Seq<u8>, min: nat, max: nat) -> Result<
    (Seq<T::V>, nat),
    CodecError,
> {
    match VarInt::spec_decode(s) {
        Err(e) => Err(e),
        Ok((len, n)) => if len.0 < 0 || len.0 < min || len.0 > max {
            Err(CodecError::OutOfBounds)
        } else {
            match spec_decode_elems::<T>(s.skip(n as int), len.0 as nat) {
                Ok((vs, m)) => Ok((vs, n + m)),
                Err(e) => Err(e),
            }
        },
    }
}

/// How many elements to reserve room for before decoding `len` of them, each `elem_size`
/// bytes in memory: never more than a packet could hold.
pub open spec fn spec_prealloc_capacity(len: nat, elem_size: nat) -> nat {
    let per_packet = MAX_PACKET_SIZE as nat / if elem_size == 0 {
        1
    } else {
        elem_size
    };
    if len < per_packet {
        len
    } else {
        per_packet
    }
}

/// Capacity to reserve for `len` announced elements of `elem_size` bytes. The announced
/// length comes from the input, so the reservation is capped at what fits in one packet.
pub fn prealloc_capacity(len: usize, elem_size: usize) -> (cap: usize)
    ensures
        cap == spec_prealloc_capacity(len as nat, elem_size as nat),
        cap <= len,
        cap * (if elem_size == 0 {
            1
        } else {
            elem_size as int
        }) <= MAX_PACKET_SIZE,
{
    let size: usize = if elem_size == 0 {
        1
    } else {
        elem_size
    };
    let per_packet: usize = MAX_PACKET_SIZE as usize / size;
    assert(per_packet * size <= MAX_PACKET_SIZE) by (nonlinear_arith)
        requires
            per_packet == MAX_PACKET_SIZE as usize / size,
            size > 0,
    ;
    if len < per_packet {
        assert(len * size <= per_packet * size) by (nonlinear_arith)
            requires
                len < per_packet,
                size > 0,
        ;
        len
    } else {
        per_packet
    }
}

proof fn lemma_encode_elems_err<T: Encode>(s: Seq<T::V>, k: nat)
    requires
        k <= s.len(),
        spec_encode_elems::<T>(s.take(k as int)) is Err,
    ensures
        spec_encode_elems::<T>(s) == spec_encode_elems::<T>(s.take(k as int)),
    decreases s.len() - k,
{
    if k < s.len() {
        assert(s.take(k + 1int).drop_last() =~= s.take(k as int));
        lemma_encode_elems_err::<T>(s, k + 1);
    } else {
        assert(s.take(k as int) =~= s);
    }
}

proof fn lemma_decode_elems_err<T: Decode>(s: Seq<u8>, k: nat, c: nat)
    requires
        k <= c,
        spec_decode_elems::<T>(s, k) is Err,
    ensures
        spec_decode_elems::<T>(s, c) == spec_decode_elems::<T>(s, k),
    decreases c - k,
{
    if k < c {
        lemma_decode_elems_err::<T>(s, k, (c - 1) as nat);
    }
}

/// Appends the elements of `s` one after another, with no length prefix. When an element
/// cannot be written, what the earlier ones wrote is taken back and `w` is left as it was.
pub fn encode_elems<T: Encode>(s: &[T], w: &mut Vec<u8>) -> (res: Result<(), CodecError>)
    ensures
        match spec_encode_elems::<T>(s.deep_view()) {
            Ok(b) => res is Ok && final(w)@ == old(w)@ + b,
            Err(e) => res == Err::<(), CodecError>(e) && final(w)@ == old(w)@,
        },
{
    let start = w.len();
    let ghost dv = s.deep_view();
    let ghost mut acc: Seq<u8> = Seq::empty();
    let mut i: usize = 0;
    proof {
        assert(dv.take(0) =~= Seq::<T::V>::empty());
        assert(w@ =~= old(w)@ + acc);
    }
    while i < s.len()
        invariant
            dv == s.deep_view(),
            dv.len() == s@.len(),
            i <= s.len(),
            w@ == old(w)@ + acc,
            start == old(w)@.len(),
            spec_encode_elems::<T>(dv.take(i as int)) == Ok::<Seq<u8>, CodecError>(acc),
        decreases s.len() - i,
    {
        assert(dv.take(i + 1).drop_last() =~= dv.take(i as int));
        assert(dv[i as int] == s@[i as int].deep_view());
        match s[i].encode(w) {
            Ok(()) => {},
            Err(e) => {
                w.truncate(start);
                proof {
                    assert(w@ =~= old(w)@);
                    lemma_encode_elems_err::<T>(dv, (i + 1) as nat);
                }
                return Err(e);
            },
        }
        proof {
            let c = T::spec_encode(dv[i as int])->Ok_0;
            assert(w@ =~= old(w)@ + (acc + c));
            acc = acc + c;
        }
        i = i + 1;
    }
    assert(dv.take(i as int) =~= dv);
    Ok(())
}

/// Consumes exactly `count` elements, with no length prefix. Room is reserved only as far
/// as the allocation guard allows; the vector grows as elements actually arrive.
pub fn decode_array_exact<T: Decode>(count: usize, r: &mut Reader) -> (res: Result<
    Vec<T>,
    CodecError,
>)
    requires
        old(r).wf(),
    ensures
        final(r).wf(),
        match spec_decode_elems::<T>(old(r)@, count as nat) {
            Ok((vs, n)) => res is Ok && res->Ok_0.deep_view() == vs && n <= old(r)@.len()
                && final(r)@ == old(r)@.skip(n as int),
            Err(e) => res == Err::<Vec<T>, CodecError>(e),
        },
{
    let ghost s = r@;
    let cap = prealloc_capacity(count, core::mem::size_of::<T>());
    let mut res: Vec<T> = Vec::with_capacity(cap);
    let ghost mut consumed: nat = 0;
    let mut i: usize = 0;
    proof {
        assert(s.skip(0) =~= s);
        assert(res.deep_view() =~= Seq::<T::V>::empty());
    }
    while i < count
        invariant
            r.wf(),
            s == old(r)@,
            i <= count,
            consumed <= s.len(),
            r@ == s.skip(consumed as int),
            spec_decode_elems::<T>(s, i as nat) == Ok::<(Seq<T::V>, nat), CodecError>(
                (res.deep_view(), consumed),
            ),
        decreases count - i,
    {
        let ghost before = r@;
        match T::decode(r) {
            Ok(v) => {
                let ghost n = before.len() - r@.len();
                proof {
                    assert(r@ =~= s.skip(consumed + n));
                }
                let ghost old_res = res.deep_view();
                res.push(v);
                proof {
                    assert(res.deep_view() =~= old_res.push(v.deep_view()));
                    consumed = consumed + n as nat;
                }
                i = i + 1;
            },
            Err(e) => {
                proof {
                    lemma_decode_elems_err::<T>(s, (i + 1) as nat, count as nat);
                }
                return Err(e);
            },
        }
    }
    Ok(res)
}

/// Appends the count of `s` as a VarInt, then its elements; the count must lie in
/// `[min, max]` and fit the prefix. On any error `w` is left as it was. Bounds with
/// `min > max` are a caller's mistake, not a property of the data, and are not accepted.
pub fn encode_array_bounded<T: Encode>(s: &[T], min: usize, max: usize, w: &mut Vec<u8>) -> (res:
    Result<(), CodecError>)
    requires
        min <= max,
    ensures
        match spec_encode_array_bounded::<T>(s.deep_view(), min as nat, max as nat) {
            Ok(b) => res is Ok && final(w)@ == old(w)@ + b,
            Err(e) => res == Err::<(), CodecError>(e) && final(w)@ == old(w)@,
        },
{
    let len = s.len();
    assert(s.deep_view().len() == len);
    if len < min || len > max {
        return Err(CodecError::OutOfBounds);
    }
    if len > MAX_PREFIX_LEN {
        return Err(CodecError::Overflow);
    }
    let start = w.len();
    VarInt(len as i32).encode(w)?;
    if let Err(e) = encode_elems(s, w) {
        w.truncate(start);
        assert(w@ =~= old(w)@);
        return Err(e);
    }
    assert(w@ =~= old(w)@ + (varint_bytes(len as nat) + spec_encode_elems::<T>(
        s.deep_view(),
    )->Ok_0));
    Ok(())
}

/// Consumes a VarInt count, which must lie in `[min, max]`, then that many elements. Bounds
/// with `min > max` are a caller's mistake and are not accepted.
pub fn decode_array_bounded<T: Decode>(min: usize, max: usize, r: &mut Reader) -> (res: Result<
    Vec<T>,
    CodecError,
>)
    requires
        old(r).wf(),
        min <= max,
    ensures
        final(r).wf(),
        match spec_decode_array_bounded::<T>(old(r)@, min as nat, max as nat) {
            Ok((vs, n)) => res is Ok && res->Ok_0.deep_view() == vs && n <= old(r)@.len()
                && final(r)@ == old(r)@.skip(n as int),
            Err(e) => res == Err::<Vec<T>, CodecError>(e),
        },
{
    let ghost s = r@;
    let len = VarInt::decode(r)?.0;
    if len < 0 || (len as usize) < min || (len as usize) > max {
        return Err(CodecError::OutOfBounds);
    }
    let ghost mid = r@;
    let res = decode_array_exact::<T>(len as usize, r);
    proof {
        let n = (s.len() - mid.len()) as nat;
        assert(mid == s.skip(n as int));
        if res is Ok {
            let m = (mid.len() - r@.len()) as nat;
            assert(r@ =~= s.skip((n + m) as int));
        }
    }
    res
}

impl<T: Encode> Encode for Vec<T> {
    open spec fn spec_encode(v: Seq<T::V>) -> Result<Seq<u8>, CodecError> {
        spec_encode_array_bounded::<T>(v, 0, usize::MAX as nat)
    }

    fn encode(&self, w: &mut Vec<u8>) -> (res: Result<(), CodecError>) {
        let s = self.as_slice();
        assert(s.deep_view() =~= self.deep_view());
        encode_array_bounded(s, 0, usize::MAX, w)
    }
}

impl<T: Decode> Decode for Vec<T> {
    open spec fn spec_decode(s: Seq<u8>) -> Result<(Seq<T::V>, nat), CodecError> {
        spec_decode_array_bounded::<T>(s, 0, usize::MAX as nat)
    }

    fn decode(r: &mut Reader) -> (res: Result<Vec<T>, CodecError>) {
        decode_array_bounded(0, usize::MAX, r)
    }
}

/// A fixed-size array is written as its elements alone: its length is known to both sides.
impl<T: Encode, const N: usize> Encode for [T; N] {
    open spec fn spec_encode(v: Seq<T::V>) -> Result<Seq<u8>, CodecError> {
        spec_encode_elems::<T>(v)
    }

    fn encode(&self, w: &mut Vec<u8>) -> (res: Result<(), CodecError>) {
        let s = self.as_slice();
        assert(s.deep_view() =~= self.deep_view());
        encode_elems(s, w)
    }
}

/// A reference is written as the value it points to.
impl<'a, T: Encode> Encode for &'a T {
    open spec fn spec_encode(v: <T as DeepView>::V) -> Result<Seq<u8>, CodecError> {
        T::spec_encode(v)
    }

    fn encode(&self, w: &mut Vec<u8>) -> (res: Result<(), CodecError>) {
        (**self).encode(w)
    }
}

impl<T: Encode> Encode for Box<[T]> {
    open spec fn spec_encode(v: Seq<<T as DeepView>::V>) -> Result<Seq<u8>, CodecError> {
        spec_encode_array_bounded::<T>(v, 0, usize::MAX as nat)
    }

    fn encode(&self, w: &mut Vec<u8>) -> (res: Result<(), CodecError>) {
        let s: &[T] = &**self;
        encode_array_bounded(s, 0, usize::MAX, w)
    }
}

/// Relies on `Vec::into_boxed_slice`: the boxed slice holds the same elements in the same
/// order.
#[verifier::external_body]
fn into_boxed<T>(v: Vec<T>) -> (r: Box<[T]>)
    ensures
        r@ == v@,
{
    v.into_boxed_slice()
}

impl<T: Decode> Decode for Box<[T]> {
    open spec fn spec_decode(s: Seq<u8>) -> Result<(Seq<<T as DeepView>::V>, nat), CodecError> {
        spec_decode_array_bounded::<T>(s, 0, usize::MAX as nat)
    }

    fn decode(r: &mut Reader) -> (res: Result<Box<[T]>, CodecError>) {
        let v = decode_array_bounded::<T>(0, usize::MAX, r)?;
        let b = into_boxed(v);
        assert(b.deep_view() =~= v.deep_view());
        Ok(b)
    }
}

/// `v` can be written, and reading its bytes back gives `v` whatever follows them.
pub open spec fn round_trips<T: Encode + Decode>(v: <T as DeepView>::V) -> bool {
    &&& <T as Encode>::spec_encode(v) is Ok
    &&& forall|rest: Seq<u8>|
        #[trigger] <T as Decode>::spec_decode(<T as Encode>::spec_encode(v)->Ok_0 + rest) == Ok::<
            (<T as DeepView>::V, nat),
            CodecError,
        >((v, <T as Encode>::spec_encode(v)->Ok_0.len()))
}

proof fn lemma_elems_round_trip<T: Encode + Decode>(vs: Seq<<T as DeepView>::V>, rest: Seq<u8>)
    requires
        forall|i: int| 0 <= i < vs.len() ==> round_trips::<T>(#[trigger] vs[i]),
    ensures
        spec_encode_elems::<T>(vs) is Ok,
        spec_decode_elems::<T>(spec_encode_elems::<T>(vs)->Ok_0 + rest, vs.len()) == Ok::<
            (Seq<<T as DeepView>::V>, nat),
            CodecError,
        >((vs, spec_encode_elems::<T>(vs)->Ok_0.len())),
    decreases vs.len(),
{
    if vs.len() == 0 {
        assert(vs =~= Seq::<<T as DeepView>::V>::empty());
    } else {
        let init = vs.drop_last();
        let x = vs.last();
        assert(round_trips::<T>(vs[vs.len() - 1]));
        let c = <T as Encode>::spec_encode(x)->Ok_0;
        assert(forall|i: int| 0 <= i < init.len() ==> init[i] == vs[i]);
        lemma_elems_round_trip::<T>(init, c + rest);
        let e0 = spec_encode_elems::<T>(init)->Ok_0;
        let s = spec_encode_elems::<T>(vs)->Ok_0 + rest;
        assert(s =~= e0 + (c + rest));
        assert(s.skip(e0.len() as int) =~= c + rest);
        assert(<T as Decode>::spec_decode(c + rest) == Ok::<(<T as DeepView>::V, nat), CodecError>(
            (x, c.len()),
        ));
        assert(init.push(x) =~= vs);
    }
}

/// A sequence whose elements all round-trip, and whose count lies in `[min, max]` and fits
/// the length prefix, is written, and reading its bytes back gives it again, whatever follows
/// them. A count outside `[min, max]` is refused.
pub proof fn array_round_trip<T: Encode + Decode>(
    vs: Seq<<T as DeepView>::V>,
    min: nat,
    max: nat,
    rest: Seq<u8>,
)
    requires
        forall|i: int| 0 <= i < vs.len() ==> round_trips::<T>(#[trigger] vs[i]),
    ensures
        vs.len() < min || vs.len() > max ==> spec_encode_array_bounded::<T>(vs, min, max) == Err::<
            Seq<u8>,
            CodecError,
        >(CodecError::OutOfBounds),
        min <= vs.len() <= max && vs.len() <= MAX_PREFIX_LEN ==> {
            &&& spec_encode_array_bounded::<T>(vs, min, max) is Ok
            &&& spec_decode_array_bounded::<T>(
                spec_encode_array_bounded::<T>(vs, min, max)->Ok_0 + rest,
                min,
                max,
            ) == Ok::<(Seq<<T as DeepView>::V>, nat), CodecError>(
                (vs, spec_encode_array_bounded::<T>(vs, min, max)->Ok_0.len()),
            )
        },
{
    if min <= vs.len() <= max && vs.len() <= MAX_PREFIX_LEN {
        lemma_elems_round_trip::<T>(vs, rest);
        let e = spec_encode_elems::<T>(vs)->Ok_0;
        let v = VarInt(vs.len() as i32);
        varint_round_trip(v, e + rest);
        let p = varint_bytes(vs.len());
        assert(VarInt::spec_encode(v)->Ok_0 == p);
        let s = p + e + rest;
        assert(s =~= p + (e + rest));
        assert(s.skip(p.len() as int) =~= e + rest);
    }
}

proof fn lemma_decode_elems_len<T: Decode>(s: Seq<u8>, count: nat)
    ensures
        spec_decode_elems::<T>(s, count) is Ok ==> spec_decode_elems::<T>(s, count)->Ok_0.0.len()
            == count,
    decreases count,
{
    if count > 0 {
        lemma_decode_elems_len::<T>(s, (count - 1) as nat);
    }
}

/// Relies on `TryFrom<Vec<T>> for [T; N]`: it succeeds exactly when the vector holds `N`
/// elements, and the array then holds them in the same order.
#[verifier::external_body]
fn vec_into_array<T, const N: usize>(v: Vec<T>) -> (r: Option<[T; N]>)
    ensures
        v@.len() == N ==> r is Some && r->Some_0@ == v@,
        v@.len() != N ==> r is None,
{
    let a: Result<[T; N], Vec<T>> = v.try_into();
    a.ok()
}

/// A fixed-size array is read as exactly `N` elements, with no length prefix.
impl<T: Decode, const N: usize> Decode for [T; N] {
    open spec fn spec_decode(s: Seq<u8>) -> Result<(Seq<<T as DeepView>::V>, nat), CodecError> {
        spec_decode_elems::<T>(s, N as nat)
    }

    fn decode(r: &mut Reader) -> (res: Result<[T; N], CodecError>) {
        proof {
            lemma_decode_elems_len::<T>(r@, N as nat);
        }
        let v = decode_array_exact::<T>(N, r)?;
        match vec_into_array::<T, N>(v) {
            Some(a) => {
                assert(a.deep_view() =~= v.deep_view());
                Ok(a)
            },
            None => Err(CodecError::Malformed),
        }
    }
}

} // verus!
