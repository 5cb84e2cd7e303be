use vstd::prelude::*;

verus! {

/// Why an encode or decode operation could not complete.
#[derive(Clone, Copy, Debug, PartialEq, Eq, Structural)]
pub enum CodecError {
    /// The input ended before all bytes of a value were available.
    Truncated,
    /// The bytes present are not a valid encoding of the target type.
    Malformed,
    /// A magnitude, character count or element count lies outside its declared range.
    OutOfBounds,
    /// An element count is too large for the length prefix.
    Overflow,
}

/// The largest number of bytes in one packet; bounds speculative allocation while decoding.
pub const MAX_PACKET_SIZE: i32 = 2097151;

/// A byte source that decoding consumes from the front.
pub struct Reader {
    data: Vec<u8>,
    pos: usize,
}

impl View for Reader {
    type V = Seq<u8>;

    /// The bytes not yet consumed.
    closed spec fn view(&self) -> Seq<u8> {
        self.data@.subrange(self.pos as int, self.data@.len() as int)
    }
}

impl Reader {
    pub closed spec fn wf(&self) -> bool {
        self.pos <= self.data.len()
    }

    pub fn new(data: Vec<u8>) -> (r: Reader)
        ensures
            r.wf(),
            r@ == data@,
    {
        let r = Reader { data, pos: 0 };
        assert(r@ =~= r.data@);
        r
    }

    /// Number of bytes not yet consumed.
    pub fn remaining(&self) -> (n: usize)
        requires
            self.wf(),
        ensures
            n == self@.len(),
    {
        self.data.len() - self.pos
    }

    /// A copy of the bytes not yet consumed, leaving them in place.
    pub fn unread(&self) -> (res: Vec<u8>)
        requires
            self.wf(),
        ensures
            res@ == self@,
    {
        let mut out: Vec<u8> = Vec::new();
        let mut i: usize = self.pos;
        while i < self.data.len()
            invariant
                self.wf(),
                self.pos <= i <= self.data.len(),
                out@ == self.data@.subrange(self.pos as int, i as int),
            decreases self.data.len() - i,
        {
            out.push(self.data[i]);
            i = i + 1;
            assert(out@ =~= self.data@.subrange(self.pos as int, i as int));
        }
        out
    }

    /// Consumes one byte.
    pub fn read_u8(&mut self) -> (res: Result<u8, CodecError>)
        requires
            old(self).wf(),
        ensures
            final(self).wf(),
            old(self)@.len() == 0 ==> res == Err::<u8, CodecError>(CodecError::Truncated)
                && final(self)@ == old(self)@,
            old(self)@.len() > 0 ==> res == Ok::<u8, CodecError>(old(self)@[0]) && final(self)@
                == old(self)@.skip(1),
    {
        if self.pos >= self.data.len() {
            return Err(CodecError::Truncated);
        }
        let b = self.data[self.pos];
        self.pos = self.pos + 1;
        assert(self@ =~= old(self)@.skip(1));
        Ok(b)
    }

    /// Consumes exactly `n` bytes, or none when fewer than `n` remain.
    pub fn read_bytes(&mut self, n: usize) -> (res: Result<Vec<u8>, CodecError>)
        requires
            old(self).wf(),
        ensures
            final(self).wf(),
            n > old(self)@.len() ==> res == Err::<Vec<u8>, CodecError>(CodecError::Truncated)
                && final(self)@ == old(self)@,
            n <= old(self)@.len() ==> res is Ok && res->Ok_0@ == old(self)@.take(n as int)
                && final(self)@ == old(self)@.skip(n as int),
    {
        if n > self.data.len() - self.pos {
            return Err(CodecError::Truncated);
        }
        let mut out: Vec<u8> = Vec::new();
        let mut i: usize = 0;
        while i < n
            invariant
                self.wf(),
                self.data@ == old(self).data@,
                self.pos == old(self).pos,
                i <= n,
                n <= self.data.len() - self.pos,
                out@ == self.data@.subrange(self.pos as int, self.pos + i),
            decreases n - i,
        {
            out.push(self.data[self.pos + i]);
            i = i + 1;
            assert(out@ =~= self.data@.subrange(self.pos as int, self.pos + i));
        }
        self.pos = self.pos + n;
        assert(out@ =~= old(self)@.take(n as int));
        assert(self@ =~= old(self)@.skip(n as int));
        Ok(out)
    }

    /// Consumes every remaining byte.
    pub fn read_to_end(&mut self) -> (res: Vec<u8>)
        requires
            old(self).wf(),
        ensures
            final(self).wf(),
            res@ == old(self)@,
            final(self)@.len() == 0,
    {
        let n = self.data.len() - self.pos;
        let res = self.read_bytes(n);
        match res {
            Ok(v) => {
                assert(old(self)@.take(n as int) =~= old(self)@);
                v
            },
            Err(_) => Vec::new(),
        }
    }
}

/// A value that can be written in wire form.
pub trait Encode: DeepView {
    /// The bytes a value with view `v` is written as, or why it cannot be written.
    spec fn spec_encode(v: Self::V) -> Result<Seq<u8>, CodecError>;

    /// Appends the wire form of `self` to `w`; when the value cannot be written, `w` is left
    /// as it was.
    fn encode(&self, w: &mut Vec<u8>) -> (res: Result<(), CodecError>)
        ensures
            match Self::spec_encode(self.deep_view()) {
                Ok(b) => res is Ok && final(w)@ == old(w)@ + b,
                Err(e) => res == Err::<(), CodecError>(e) && final(w)@ == old(w)@,
            },
    ;
}

/// A value that can be read from wire form.
pub trait Decode: Sized + DeepView {
    /// The view of the value at the front of `s` and how many bytes it takes, or why there
    /// is none.
    spec fn spec_decode(s: Seq<u8>) -> Result<(Self::V, nat), CodecError>;

    /// Consumes the bytes of one value from the front of `r`.
    fn decode(r: &mut Reader) -> (res: Result<Self, CodecError>)
        requires
            old(r).wf(),
        ensures
            final(r).wf(),
            match Self::spec_decode(old(r)@) {
                Ok((v, n)) => res is Ok && res->Ok_0.deep_view() == v && n <= old(r)@.len()
                    && final(r)@ == old(r)@.skip(n as int),
                Err(e) => res == Err::<Self, CodecError>(e),
            },
    ;
}

} // verus!
