//! The encode/decode contract implemented by every wire-representable type,
//! the fixed-width big-endian integer primitives, and the generic
//! length-prefixed vector codec.

use vstd::prelude::*;
use crate::reader::Reader;

verus! {

// ---------------------------------------------------------------------------
// Fixed-width big-endian integer primitives.
// ---------------------------------------------------------------------------

/// The one-byte encoding of `v`.
pub open spec fn spec_enc_u8(v: u8) -> Seq<u8> {
    seq![v]
}

/// The two-byte big-endian encoding of `v`.
pub open spec fn spec_enc_u16(v: u16) -> Seq<u8> {
    seq![(v / 256) as u8, (v % 256) as u8]
}

/// The three-byte big-endian encoding of `v`; meaningful for `v < 2^24`.
pub open spec fn spec_enc_u24(v: u32) -> Seq<u8> {
    seq![(v / 65536) as u8, ((v / 256) % 256) as u8, (v % 256) as u8]
}

/// What a one-byte read yields from the front of `s`.
pub open spec fn spec_parse_u8(s: Seq<u8>) -> Option<(u8, int)> {
    if s.len() >= 1 {
        Some((s[0], 1int))
    } else {
        None
    }
}

/// What a two-byte big-endian read yields from the front of `s`.
pub open spec fn spec_parse_u16(s: Seq<u8>) -> Option<(u16, int)> {
    if s.len() >= 2 {
        Some((((s[0] as int) * 256 + (s[1] as int)) as u16, 2int))
    } else {
        None
    }
}

/// What a three-byte big-endian read yields from the front of `s`.
pub open spec fn spec_parse_u24(s: Seq<u8>) -> Option<(u32, int)> {
    if s.len() >= 3 {
        Some((((s[0] as int) * 65536 + (s[1] as int) * 256 + (s[2] as int)) as u32, 3int))
    } else {
        None
    }
}

/// Reading two big-endian bytes inverts the two-byte encoding.
pub proof fn lemma_parse_enc_u16(v: u16, rest: Seq<u8>)
    ensures
        spec_parse_u16(spec_enc_u16(v) + rest) == Some((v, 2int)),
{
    let s = spec_enc_u16(v) + rest;
    assert(s[0] == (v / 256) as u8 && s[1] == (v % 256) as u8);
    assert((s[0] as int) * 256 + (s[1] as int) == v as int);
}

/// Reading three big-endian bytes inverts the three-byte encoding.
pub proof fn lemma_parse_enc_u24(v: u32, rest: Seq<u8>)
    requires
        v < 0x1000000,
    ensures
        spec_parse_u24(spec_enc_u24(v) + rest) == Some((v, 3int)),
{
    let s = spec_enc_u24(v) + rest;
    assert(s[0] == (v / 65536) as u8 && s[1] == ((v / 256) % 256) as u8 && s[2] == (v % 256) as u8);
    assert((s[0] as int) * 65536 + (s[1] as int) * 256 + (s[2] as int) == v as int) by {
        assert(v as int == 65536 * ((v as int) / 65536) + 256 * (((v as int) / 256) % 256) + (v as int) % 256) by (nonlinear_arith);
    };
}

/// A successful two-byte read consumed exactly the encoding of its result.
pub proof fn lemma_parse_u16_sound(s: Seq<u8>)
    ensures
        spec_parse_u16(s) matches Some(p) ==> spec_enc_u16(p.0) == s.subrange(0, 2),
{
    if s.len() >= 2 {
        let v = ((s[0] as int) * 256 + (s[1] as int)) as u16;
        assert(v as int == (s[0] as int) * 256 + (s[1] as int));
        assert(v / 256 == s[0] as u16 && v % 256 == s[1] as u16) by (nonlinear_arith)
            requires v as int == (s[0] as int) * 256 + (s[1] as int), s[0] < 256, s[1] < 256;
        assert(spec_enc_u16(v) =~= s.subrange(0, 2));
    }
}

/// A successful three-byte read consumed exactly the encoding of its result,
/// and the value read fits in 24 bits.
pub proof fn lemma_parse_u24_sound(s: Seq<u8>)
    ensures
        spec_parse_u24(s) matches Some(p) ==> p.0 < 0x1000000 && spec_enc_u24(p.0) == s.subrange(0, 3),
{
    if s.len() >= 3 {
        let v = ((s[0] as int) * 65536 + (s[1] as int) * 256 + (s[2] as int)) as u32;
        assert(v as int == (s[0] as int) * 65536 + (s[1] as int) * 256 + (s[2] as int));
        assert(v / 65536 == s[0] as u32 && (v / 256) % 256 == s[1] as u32 && v % 256 == s[2] as u32)
            by (nonlinear_arith)
            requires
                v as int == (s[0] as int) * 65536 + (s[1] as int) * 256 + (s[2] as int),
                s[0] < 256, s[1] < 256, s[2] < 256;
        assert(spec_enc_u24(v) =~= s.subrange(0, 3));
    }
}

/// Appends the one-byte encoding of `v`.
pub fn encode_u8(bytes: &mut Vec<u8>, v: u8)
    ensures
        final(bytes)@ == old(bytes)@ + spec_enc_u8(v),
{
    bytes.push(v);
    proof {
        assert(bytes@ =~= old(bytes)@ + spec_enc_u8(v));
    }
}

/// Appends the two-byte big-endian encoding of `v`.
pub fn encode_u16(bytes: &mut Vec<u8>, v: u16)
    ensures
        final(bytes)@ == old(bytes)@ + spec_enc_u16(v),
{
    bytes.push((v / 256) as u8);
    bytes.push((v % 256) as u8);
    proof {
        assert(bytes@ =~= old(bytes)@ + spec_enc_u16(v));
    }
}

/// Appends the three-byte big-endian encoding of `v`.
pub fn encode_u24(bytes: &mut Vec<u8>, v: u32)
    requires
        v < 0x1000000,
    ensures
        final(bytes)@ == old(bytes)@ + spec_enc_u24(v),
{
    bytes.push((v / 65536) as u8);
    bytes.push(((v / 256) % 256) as u8);
    bytes.push((v % 256) as u8);
    proof {
        assert(bytes@ =~= old(bytes)@ + spec_enc_u24(v));
    }
}

/// Appends every byte of `src` to `bytes`.
pub fn extend_bytes(bytes: &mut Vec<u8>, src: &[u8])
    ensures
        final(bytes)@ == old(bytes)@ + src@,
{
    proof {
        assert(bytes@ =~= old(bytes)@ + src@.subrange(0, 0));
    }
    let mut i: usize = 0;
    while i < src.len()
        invariant
            i <= src@.len(),
            bytes@ == old(bytes)@ + src@.subrange(0, i as int),
        decreases src@.len() - i,
    {
        bytes.push(*vstd::slice::slice_index_get(src, i));
        proof {
            assert(old(bytes)@ + src@.subrange(0, i as int) + seq![src@[i as int]]
                =~= old(bytes)@ + src@.subrange(0, i as int + 1));
        }
        i = i + 1;
    }
    proof {
        assert(src@.subrange(0, src@.len() as int) =~= src@);
    }
}

// ---------------------------------------------------------------------------
// The Codec contract.
// ---------------------------------------------------------------------------

/// The encode/decode contract implemented by every wire-representable type.
///
/// A type's abstract model is its view; the contract relates the wire bytes
/// to that model. `spec_enc` gives the exact encoding of a valid model,
/// `spec_parse` gives what decoding yields from the front of a byte
/// sequence — the parsed model together with the number of bytes consumed —
/// and the two proof obligations state that the pair are inverses: a parse
/// consumes exactly the encoding of its result, and parsing an encoding
/// (followed by anything) yields the encoded value back.
pub trait Codec: View + Sized {
    /// Validity of an abstract value: exactly those values `spec_enc`
    /// encodes faithfully.
    spec fn spec_wf(v: Self::V) -> bool;

    /// The exact wire bytes of a valid abstract value.
    spec fn spec_enc(v: Self::V) -> Seq<u8>;

    /// What decoding yields from the front of `s`: the parsed abstract
    /// value and the count of bytes consumed, or nothing on failure.
    spec fn spec_parse(s: Seq<u8>) -> Option<(Self::V, int)>;

    /// A successful parse yields a valid value, consumes at least one and
    /// at most all of the bytes, and consumed exactly the encoding of its
    /// result.
    proof fn lemma_parse_sound(s: Seq<u8>)
        ensures
            Self::spec_parse(s) matches Some(p) ==> {
                &&& Self::spec_wf(p.0)
                &&& 1 <= p.1 <= s.len()
                &&& Self::spec_enc(p.0) == s.subrange(0, p.1)
            },
    ;

    /// Parsing the encoding of a valid value, whatever follows it, yields
    /// that value and consumes exactly the encoding.
    proof fn lemma_parse_enc(v: Self::V, rest: Seq<u8>)
        requires
            Self::spec_wf(v),
        ensures
            Self::spec_parse(Self::spec_enc(v) + rest) == Some((v, Self::spec_enc(v).len() as int)),
    ;

    /// Appends the value's exact wire bytes to `bytes`.
    fn encode(&self, bytes: &mut Vec<u8>)
        requires
            Self::spec_wf(self@),
        ensures
            final(bytes)@ == old(bytes)@ + Self::spec_enc(self@),
    ;

    /// Consumes one value from the reader; fails, consuming nothing more
    /// than the attempt needed, whenever the spec-level parse fails.
    fn read(r: &mut Reader) -> (res: Option<Self>)
        requires
            old(r).wf(),
        ensures
            final(r).wf(),
            final(r).data() == old(r).data(),
            old(r).pos() <= final(r).pos(),
            match Self::spec_parse(old(r).remaining()) {
                Some(p) => res matches Some(v) && v@ == p.0 && final(r).pos() == old(r).pos() + p.1,
                None => res is None,
            },
    ;

    /// The value's encoding as a fresh buffer.
    fn get_encoding(&self) -> (bytes: Vec<u8>)
        requires
            Self::spec_wf(self@),
        ensures
            bytes@ == Self::spec_enc(self@),
    {
        let mut bytes: Vec<u8> = Vec::new();
        self.encode(&mut bytes);
        bytes
    }
}

// ---------------------------------------------------------------------------
// Generic length-prefixed vector codec.
// ---------------------------------------------------------------------------

/// The abstract models of a sequence of values.
pub open spec fn views_of<T: View>(s: Seq<T>) -> Seq<T::V> {
    s.map_values(|t: T| t@)
}

/// Validity of every element of a sequence.
pub open spec fn spec_wf_elems<T: Codec>(items: Seq<T::V>) -> bool {
    forall|i: int| 0 <= i < items.len() ==> T::spec_wf(#[trigger] items[i])
}

/// The concatenated encodings of a sequence of elements.
pub open spec fn spec_enc_elems<T: Codec>(items: Seq<T::V>) -> Seq<u8>
    decreases items.len(),
{
    if items.len() == 0 {
        Seq::empty()
    } else {
        T::spec_enc(items[0]) + spec_enc_elems::<T>(items.drop_first())
    }
}

/// What decoding elements repeatedly, until exactly the whole of `s` is
/// consumed, yields: the element sequence, or nothing as soon as one
/// element fails to parse. Partial sequences are never produced.
pub open spec fn spec_parse_elems<T: Codec>(s: Seq<u8>) -> Option<Seq<T::V>>
    decreases s.len(),
{
    if s.len() == 0 {
        Some(Seq::empty())
    } else {
        match T::spec_parse(s) {
            Some(p) => if 1 <= p.1 <= s.len() {
                match spec_parse_elems::<T>(s.subrange(p.1, s.len() as int)) {
                    Some(tail) => Some(seq![p.0] + tail),
                    None => None,
                }
            } else {
                None
            },
            None => None,
        }
    }
}

/// The encoding of a 16-bit-length-prefixed vector: the byte length of the
/// concatenated element encodings, as a two-byte big-endian integer, then
/// those encodings; meaningful when that byte length is at most 65535.
pub open spec fn spec_enc_vec_u16<T: Codec>(items: Seq<T::V>) -> Seq<u8> {
    spec_enc_u16(spec_enc_elems::<T>(items).len() as u16) + spec_enc_elems::<T>(items)
}

/// Validity of a 16-bit-length-prefixed vector: valid elements whose
/// concatenated encodings fit the two-byte count field.
pub open spec fn spec_wf_vec_u16<T: Codec>(items: Seq<T::V>) -> bool {
    &&& spec_wf_elems::<T>(items)
    &&& spec_enc_elems::<T>(items).len() <= 65535
}

/// What decoding a 16-bit-length-prefixed vector yields from the front of
/// `s`: the declared count of bytes is carved out exactly, and the elements
/// must consume all of it.
pub open spec fn spec_parse_vec_u16<T: Codec>(s: Seq<u8>) -> Option<(Seq<T::V>, int)> {
    match spec_parse_u16(s) {
        Some(p) => {
            let len = p.0 as int;
            if s.len() >= 2 + len {
                match spec_parse_elems::<T>(s.subrange(2, 2 + len)) {
                    Some(items) => Some((items, 2 + len)),
                    None => None,
                }
            } else {
                None
            }
        },
        None => None,
    }
}

/// Element encodings concatenate: the encoding of `a + b` is the encoding
/// of `a` followed by the encoding of `b`.
pub proof fn lemma_enc_elems_append<T: Codec>(a: Seq<T::V>, b: Seq<T::V>)
    ensures
        spec_enc_elems::<T>(a + b) == spec_enc_elems::<T>(a) + spec_enc_elems::<T>(b),
    decreases a.len(),
{
    if a.len() == 0 {
        assert(a + b =~= b);
        assert(spec_enc_elems::<T>(a) + spec_enc_elems::<T>(b) =~= spec_enc_elems::<T>(b));
    } else {
        assert((a + b).drop_first() =~= a.drop_first() + b);
        lemma_enc_elems_append::<T>(a.drop_first(), b);
        assert(spec_enc_elems::<T>(a + b) =~= spec_enc_elems::<T>(a) + spec_enc_elems::<T>(b));
    }
}

/// Parsing the concatenated encodings of valid elements, and nothing more,
/// yields exactly those elements.
pub proof fn lemma_parse_elems_enc<T: Codec>(items: Seq<T::V>)
    requires
        spec_wf_elems::<T>(items),
    ensures
        spec_parse_elems::<T>(spec_enc_elems::<T>(items)) == Some(items),
    decreases items.len(),
{
    if items.len() == 0 {
        assert(spec_enc_elems::<T>(items).len() == 0);
        assert(Seq::<T::V>::empty() =~= items);
    } else {
        let head = items[0];
        let tail = items.drop_first();
        let s = spec_enc_elems::<T>(items);
        T::lemma_parse_enc(head, spec_enc_elems::<T>(tail));
        let n = T::spec_enc(head).len() as int;
        T::lemma_parse_sound(s);
        if n == 0 {
            // A successful parse consumes at least one byte, so the head's
            // encoding cannot be empty.
            assert(T::spec_parse(s) matches Some(p) && p.1 >= 1);
            assert(false);
        }
        assert(s.subrange(n, s.len() as int) =~= spec_enc_elems::<T>(tail));
        lemma_parse_elems_enc::<T>(tail);
        assert(seq![head] + tail =~= items);
    }
}

/// A successful element-sequence parse yields valid elements whose
/// concatenated encodings are exactly the bytes parsed.
pub proof fn lemma_parse_elems_sound<T: Codec>(s: Seq<u8>)
    ensures
        spec_parse_elems::<T>(s) matches Some(items) ==> {
            &&& spec_wf_elems::<T>(items)
            &&& spec_enc_elems::<T>(items) == s
        },
    decreases s.len(),
{
    if s.len() == 0 {
        match spec_parse_elems::<T>(s) {
            Some(items) => {
                assert(spec_enc_elems::<T>(items) =~= s);
            },
            None => {},
        }
    } else {
        match T::spec_parse(s) {
            Some(p) => {
                if 1 <= p.1 <= s.len() {
                    let rest = s.subrange(p.1, s.len() as int);
                    lemma_parse_elems_sound::<T>(rest);
                    T::lemma_parse_sound(s);
                    match spec_parse_elems::<T>(rest) {
                        Some(tail) => {
                            let items = seq![p.0] + tail;
                            assert(items.drop_first() =~= tail);
                            assert(spec_enc_elems::<T>(items) =~= s) by {
                                assert(T::spec_enc(p.0) == s.subrange(0, p.1));
                                assert(s.subrange(0, p.1) + rest =~= s);
                            };
                            assert(spec_wf_elems::<T>(items)) by {
                                assert(forall|i: int| 1 <= i < items.len() ==> items[i]
                                    == tail[i - 1]);
                            };
                        },
                        None => {},
                    }
                }
            },
            None => {},
        }
    }
}

/// Appends the encoding of a 16-bit-length-prefixed vector: each element in
/// order, prefixed by the byte length of the element encodings.
pub fn encode_vec_u16<T: Codec>(bytes: &mut Vec<u8>, items: &Vec<T>)
    requires
        spec_wf_vec_u16::<T>(views_of(items@)),
    ensures
        final(bytes)@ == old(bytes)@ + spec_enc_vec_u16::<T>(views_of(items@)),
{
    let ghost models = views_of(items@);
    let mut sub: Vec<u8> = Vec::new();
    let mut i: usize = 0;
    while i < items.len()
        invariant
            i <= items.len(),
            models == views_of(items@),
            spec_wf_vec_u16::<T>(models),
            sub@ == spec_enc_elems::<T>(models.take(i as int)),
        decreases items.len() - i,
    {
        proof {
            lemma_enc_elems_append::<T>(models.take(i as int), seq![models[i as int]]);
            assert(models.take(i as int) + seq![models[i as int]] =~= models.take(i as int + 1));
            assert(seq![models[i as int]].drop_first() =~= Seq::<T::V>::empty());
            assert(spec_enc_elems::<T>(Seq::<T::V>::empty()) == Seq::<u8>::empty());
            assert(seq![models[i as int]][0] == models[i as int]);
            assert(spec_enc_elems::<T>(seq![models[i as int]]) =~= T::spec_enc(models[i as int]));
            // The whole vector's element bytes fit the count field, so this
            // prefix of them does too.
            lemma_enc_elems_append::<T>(models.take(i as int + 1), models.skip(i as int + 1));
            assert(models.take(i as int + 1) + models.skip(i as int + 1) =~= models);
        }
        let item = &items[i];
        assert(item@ == models[i as int]);
        item.encode(&mut sub);
        i = i + 1;
    }
    proof {
        assert(models.take(items.len() as int) =~= models);
    }
    encode_u16(bytes, sub.len() as u16);
    let mut tail = sub;
    bytes.append(&mut tail);
    proof {
        assert(bytes@ =~= old(bytes)@ + spec_enc_vec_u16::<T>(models));
    }
}

/// Consumes a 16-bit-length-prefixed vector: the declared count of bytes is
/// carved out as a bounded sub-reader and elements are decoded until it is
/// exhausted. Fails when an element fails to decode, or when bytes remain
/// that do not form a whole element.
pub fn read_vec_u16<T: Codec>(r: &mut Reader) -> (res: Option<Vec<T>>)
    requires
        old(r).wf(),
    ensures
        final(r).wf(),
        final(r).data() == old(r).data(),
        old(r).pos() <= final(r).pos(),
        match spec_parse_vec_u16::<T>(old(r).remaining()) {
            Some(p) => res matches Some(v) && views_of(v@) == p.0
                && final(r).pos() == old(r).pos() + p.1,
            None => res is None,
        },
{
    let len = match read_u16(r) {
        Some(l) => l,
        None => {
            return None;
        },
    };
    let mut sub = match r.sub(len as usize) {
        Some(s) => s,
        None => {
            return None;
        },
    };
    let ghost region = sub.data();
    let mut items: Vec<T> = Vec::new();
    proof {
        assert(sub.remaining() =~= region);
        assert(views_of(items@) =~= Seq::<T::V>::empty());
        match spec_parse_elems::<T>(region) {
            Some(t) => {
                assert(Seq::<T::V>::empty() + t =~= t);
            },
            None => {},
        }
        assert(old(r).remaining().subrange(2, 2 + len as int) =~= region);
    }
    while sub.any_left()
        invariant
            sub.wf(),
            sub.data() == region,
            r.wf(),
            r.data() == old(r).data(),
            r.pos() == old(r).pos() + 2 + len as int,
            spec_parse_u16(old(r).remaining()) == Some((len, 2int)),
            old(r).remaining().len() >= 2 + len as int,
            old(r).remaining().subrange(2, 2 + len as int) == region,
            match spec_parse_elems::<T>(sub.remaining()) {
                Some(tail) => spec_parse_elems::<T>(region) == Some(views_of(items@) + tail),
                None => spec_parse_elems::<T>(region) is None,
            },
        decreases region.len() - sub.pos(),
    {
        let ghost rem = sub.remaining();
        proof {
            T::lemma_parse_sound(rem);
        }
        match T::read(&mut sub) {
            Some(item) => {
                proof {
                    let p = T::spec_parse(rem)->Some_0;
                    assert(sub.remaining() =~= rem.subrange(p.1, rem.len() as int));
                    match spec_parse_elems::<T>(sub.remaining()) {
                        Some(tail) => {
                            assert(spec_parse_elems::<T>(rem) == Some(seq![p.0] + tail));
                            assert(views_of(items@.push(item)) =~= views_of(items@) + seq![p.0]);
                            assert(views_of(items@) + seq![p.0] + tail
                                =~= views_of(items@) + (seq![p.0] + tail));
                        },
                        None => {},
                    }
                }
                items.push(item);
            },
            None => {
                return None;
            },
        }
    }
    proof {
        assert(sub.remaining() =~= Seq::<u8>::empty());
        assert(views_of(items@) + Seq::<T::V>::empty() =~= views_of(items@));
        assert(old(r).remaining().subrange(2, 2 + len as int) =~= region);
    }
    Some(items)
}

/// Parsing the encoding of a valid 16-bit-length-prefixed vector, whatever
/// follows it, yields that vector back.
pub proof fn lemma_parse_vec_u16_enc<T: Codec>(items: Seq<T::V>, rest: Seq<u8>)
    requires
        spec_wf_vec_u16::<T>(items),
    ensures
        spec_parse_vec_u16::<T>(spec_enc_vec_u16::<T>(items) + rest)
            == Some((items, spec_enc_vec_u16::<T>(items).len() as int)),
{
    let body = spec_enc_elems::<T>(items);
    let s = spec_enc_vec_u16::<T>(items) + rest;
    assert(s =~= spec_enc_u16(body.len() as u16) + (body + rest));
    lemma_parse_enc_u16(body.len() as u16, body + rest);
    assert(s.subrange(2, 2 + body.len() as int) =~= body);
    lemma_parse_elems_enc::<T>(items);
}

/// A successful vector parse yields a valid vector whose encoding is
/// exactly the bytes consumed.
pub proof fn lemma_parse_vec_u16_sound<T: Codec>(s: Seq<u8>)
    ensures
        spec_parse_vec_u16::<T>(s) matches Some(p) ==> {
            &&& spec_wf_vec_u16::<T>(p.0)
            &&& 2 <= p.1 <= s.len()
            &&& spec_enc_vec_u16::<T>(p.0) == s.subrange(0, p.1)
        },
{
    match spec_parse_vec_u16::<T>(s) {
        Some(p) => {
            let len = spec_parse_u16(s)->Some_0.0 as int;
            let region = s.subrange(2, 2 + len);
            lemma_parse_elems_sound::<T>(region);
            lemma_parse_u16_sound(s);
            assert(spec_enc_elems::<T>(p.0) == region);
            assert(spec_enc_vec_u16::<T>(p.0) =~= s.subrange(0, p.1)) by {
                assert(spec_enc_u16(len as u16) == s.subrange(0, 2));
            };
        },
        None => {},
    }
}

/// Consumes one byte; fails when none remains.
pub fn read_u8(r: &mut Reader) -> (res: Option<u8>)
    requires
        old(r).wf(),
    ensures
        final(r).wf(),
        final(r).data() == old(r).data(),
        match spec_parse_u8(old(r).remaining()) {
            Some(p) => res == Some(p.0) && final(r).pos() == old(r).pos() + p.1,
            None => res is None && final(r).pos() == old(r).pos(),
        },
{
    match r.take(1) {
        Some(s) => Some(*vstd::slice::slice_index_get(s, 0)),
        None => None,
    }
}

/// Consumes two bytes as a big-endian integer; fails when fewer remain.
pub fn read_u16(r: &mut Reader) -> (res: Option<u16>)
    requires
        old(r).wf(),
    ensures
        final(r).wf(),
        final(r).data() == old(r).data(),
        match spec_parse_u16(old(r).remaining()) {
            Some(p) => res == Some(p.0) && final(r).pos() == old(r).pos() + p.1,
            None => res is None && final(r).pos() == old(r).pos(),
        },
{
    match r.take(2) {
        Some(s) => {
            let b0 = *vstd::slice::slice_index_get(s, 0);
            let b1 = *vstd::slice::slice_index_get(s, 1);
            Some((b0 as u16) * 256 + (b1 as u16))
        },
        None => None,
    }
}

/// Consumes three bytes as a big-endian integer; fails when fewer remain.
pub fn read_u24(r: &mut Reader) -> (res: Option<u32>)
    requires
        old(r).wf(),
    ensures
        final(r).wf(),
        final(r).data() == old(r).data(),
        match spec_parse_u24(old(r).remaining()) {
            Some(p) => res == Some(p.0) && final(r).pos() == old(r).pos() + p.1,
            None => res is None && final(r).pos() == old(r).pos(),
        },
{
    match r.take(3) {
        Some(s) => {
            let b0 = *vstd::slice::slice_index_get(s, 0);
            let b1 = *vstd::slice::slice_index_get(s, 1);
            let b2 = *vstd::slice::slice_index_get(s, 2);
            Some((b0 as u32) * 65536 + (b1 as u32) * 256 + (b2 as u32))
        },
        None => None,
    }
}

} // verus!
