use vstd::prelude::*;

use crate::codec::{CodecError, Decode, Encode, Reader};

verus! {

/// Every byte left in the enclosing packet, with no length prefix: decoding takes all that
/// remains, and encoding writes the bytes as they are.
#[derive(Clone, Debug)]
pub struct ReadToEnd(pub Vec<u8>);

impl DeepView for ReadToEnd {
    type V = Seq<u8>;

    open spec fn deep_view(&self) -> Seq<u8> {
        self.0@
    }
}

impl Decode for ReadToEnd {
    open spec fn spec_decode(s: Seq<u8>) -> Result<(Seq<u8>, nat), CodecError> {
        Ok((s, s.len()))
    }

    fn decode(r: &mut Reader) -> (res: Result<ReadToEnd, CodecError>) {
        let buf = r.read_to_end();
        assert(old(r)@.skip(old(r)@.len() as int) =~= r@);
        Ok(ReadToEnd(buf))
    }
}

impl Encode for ReadToEnd {
    open spec fn spec_encode(v: Seq<u8>) -> Result<Seq<u8>, CodecError> {
        Ok(v)
    }

    fn encode(&self, w: &mut Vec<u8>) -> (res: Result<(), CodecError>) {
        let mut i: usize = 0;
        while i < self.0.len()
            invariant
                i <= self.0@.len(),
                w@ == old(w)@ + self.0@.take(i as int),
            decreases self.0@.len() - i,
        {
            w.push(self.0[i]);
            i = i + 1;
            assert(w@ =~= old(w)@ + self.0@.take(i as int));
        }
        assert(self.0@.take(i as int) =~= self.0@);
        Ok(())
    }
}

} // verus!
