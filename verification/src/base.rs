//! Opaque byte payloads with a length prefix.

use vstd::prelude::*;
use crate::codec::{Codec, extend_bytes, spec_enc_u8, encode_u8, read_u8};
use crate::reader::Reader;

verus! {

/// An opaque byte sequence carried on the wire with an 8-bit length prefix;
/// it can hold at most 255 bytes.
#[derive(Debug, PartialEq, Eq, Clone)]
pub struct PayloadU8(pub Vec<u8>);

impl View for PayloadU8 {
    type V = Seq<u8>;

    open spec fn view(&self) -> Seq<u8> {
        self.0@
    }
}

impl Codec for PayloadU8 {
    open spec fn spec_wf(v: Seq<u8>) -> bool {
        v.len() <= 255
    }

    open spec fn spec_enc(v: Seq<u8>) -> Seq<u8> {
        spec_enc_u8(v.len() as u8) + v
    }

    open spec fn spec_parse(s: Seq<u8>) -> Option<(Seq<u8>, int)> {
        if s.len() >= 1 {
            let len = s[0] as int;
            if s.len() >= 1 + len {
                Some((s.subrange(1, 1 + len), 1 + len))
            } else {
                None
            }
        } else {
            None
        }
    }

    proof fn lemma_parse_sound(s: Seq<u8>) {
        if s.len() >= 1 {
            let len = s[0] as int;
            if s.len() >= 1 + len {
                assert(Self::spec_enc(s.subrange(1, 1 + len)) =~= s.subrange(0, 1 + len));
            }
        }
    }

    proof fn lemma_parse_enc(v: Seq<u8>, rest: Seq<u8>) {
        let s = Self::spec_enc(v) + rest;
        assert(s[0] == v.len() as u8);
        assert(s.subrange(1, 1 + v.len() as int) =~= v);
    }

    fn encode(&self, bytes: &mut Vec<u8>) {
        encode_u8(bytes, self.0.len() as u8);
        extend_bytes(bytes, self.0.as_slice());
        proof {
            assert(bytes@ =~= old(bytes)@ + Self::spec_enc(self@));
        }
    }

    fn read(r: &mut Reader) -> (res: Option<Self>) {
        let ghost orem = old(r).remaining();
        let len = match read_u8(r) {
            Some(l) => l,
            None => {
                return None;
            },
        };
        match r.take(len as usize) {
            Some(s) => {
                proof {
                    assert(s@ =~= orem.subrange(1, 1 + len as int));
                }
                Some(PayloadU8(vstd::slice::slice_to_vec(s)))
            },
            None => None,
        }
    }
}

} // verus!
