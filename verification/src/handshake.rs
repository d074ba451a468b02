//! The handshake message types: the fixed-size random nonce, the enumerated
//! code vectors, the ClientHello payload, and the type-tagged,
//! length-framed message envelope.

use vstd::prelude::*;
use crate::base::PayloadU8;
use crate::codec::{
    Codec, extend_bytes, views_of, spec_enc_u8, spec_enc_u24, spec_parse_u24, spec_parse_elems,
    spec_enc_vec_u16, spec_parse_vec_u16, spec_wf_vec_u16, spec_parse_u16,
    encode_u24, encode_vec_u16, read_u24, read_vec_u16, lemma_parse_enc_u24, lemma_parse_u24_sound,
    lemma_parse_vec_u16_enc, lemma_parse_vec_u16_sound,
};
use crate::enums::{CipherSuite, HandshakeType, NamedGroup, CLIENT_HELLO_CODE};
use crate::reader::Reader;

verus! {

/// The byte length of the handshake random nonce on the wire.
pub const RANDOM_LEN: usize = 6;

// ---------------------------------------------------------------------------
// Random
// ---------------------------------------------------------------------------

/// A fixed-size opaque nonce: exactly [`RANDOM_LEN`] bytes on the wire, with
/// no length prefix.
#[derive(Debug, PartialEq, Eq, Clone)]
pub struct Random(Vec<u8>);

impl View for Random {
    type V = Seq<u8>;

    closed spec fn view(&self) -> Seq<u8> {
        self.0@
    }
}

impl Codec for Random {
    open spec fn spec_wf(v: Seq<u8>) -> bool {
        v.len() == RANDOM_LEN
    }

    open spec fn spec_enc(v: Seq<u8>) -> Seq<u8> {
        v
    }

    open spec fn spec_parse(s: Seq<u8>) -> Option<(Seq<u8>, int)> {
        if s.len() >= RANDOM_LEN {
            Some((s.subrange(0, RANDOM_LEN as int), RANDOM_LEN as int))
        } else {
            None
        }
    }

    proof fn lemma_parse_sound(s: Seq<u8>) {
    }

    proof fn lemma_parse_enc(v: Seq<u8>, rest: Seq<u8>) {
        assert((v + rest).subrange(0, RANDOM_LEN as int) =~= v);
    }

    fn encode(&self, bytes: &mut Vec<u8>) {
        extend_bytes(bytes, self.0.as_slice());
    }

    /// A failed nonce read is atomic, as the one `take` it makes is: the
    /// cursor stays where it was.
    fn read(r: &mut Reader) -> (res: Option<Self>)
        ensures
            res is None ==> final(r).pos() == old(r).pos(),
    {
        match r.take(RANDOM_LEN) {
            Some(s) => Some(Random(vstd::slice::slice_to_vec(s))),
            None => None,
        }
    }
}

impl Random {
    /// Decodes a nonce from the front of a slice, which must hold at least
    /// [`RANDOM_LEN`] bytes.
    pub fn from_slice(bytes: &[u8]) -> (r: Random)
        requires
            bytes@.len() >= RANDOM_LEN,
        ensures
            r@ == bytes@.subrange(0, RANDOM_LEN as int),
    {
        let mut rd = Reader::init(bytes);
        proof {
            assert(rd.remaining() =~= bytes@);
        }
        match Random::read(&mut rd) {
            Some(r) => r,
            None => unreached(),
        }
    }

    /// Writes the nonce over the first [`RANDOM_LEN`] bytes of a slice,
    /// which must be at least that long; the rest of the slice is untouched.
    pub fn write_slice(&self, bytes: &mut [u8])
        requires
            self@.len() == RANDOM_LEN,
            old(bytes)@.len() >= RANDOM_LEN,
        ensures
            final(bytes)@.len() == old(bytes)@.len(),
            final(bytes)@.subrange(0, RANDOM_LEN as int) == self@,
            final(bytes)@.subrange(RANDOM_LEN as int, final(bytes)@.len() as int)
                == old(bytes)@.subrange(RANDOM_LEN as int, old(bytes)@.len() as int),
    {
        let buf = self.get_encoding();
        let mut i: usize = 0;
        while i < RANDOM_LEN
            invariant
                i <= RANDOM_LEN,
                buf@ == self@,
                self@.len() == RANDOM_LEN,
                bytes@.len() == old(bytes)@.len(),
                old(bytes)@.len() >= RANDOM_LEN,
                forall|j: int| 0 <= j < i ==> bytes@[j] == self@[j],
                forall|j: int| i <= j < bytes@.len() ==> bytes@[j] == old(bytes)@[j],
            decreases RANDOM_LEN - i,
        {
            let b = buf[i];
            bytes[i] = b;
            i = i + 1;
        }
        proof {
            assert(bytes@.subrange(0, RANDOM_LEN as int) =~= self@);
            assert(bytes@.subrange(RANDOM_LEN as int, bytes@.len() as int)
                =~= old(bytes)@.subrange(RANDOM_LEN as int, old(bytes)@.len() as int));
        }
    }
}

// ---------------------------------------------------------------------------
// CipherSuites and NamedGroups
// ---------------------------------------------------------------------------

/// The client's cipher suites, in stated preference order, carried as a
/// 16-bit-byte-count-prefixed vector of two-byte codes.
pub type CipherSuites = Vec<CipherSuite>;

/// The client's named groups, in stated preference order, carried as a
/// 16-bit-byte-count-prefixed vector of two-byte codes.
pub type NamedGroups = Vec<NamedGroup>;

impl Codec for Vec<CipherSuite> {
    open spec fn spec_wf(v: Seq<CipherSuite>) -> bool {
        spec_wf_vec_u16::<CipherSuite>(v)
    }

    open spec fn spec_enc(v: Seq<CipherSuite>) -> Seq<u8> {
        spec_enc_vec_u16::<CipherSuite>(v)
    }

    open spec fn spec_parse(s: Seq<u8>) -> Option<(Seq<CipherSuite>, int)> {
        spec_parse_vec_u16::<CipherSuite>(s)
    }

    proof fn lemma_parse_sound(s: Seq<u8>) {
        lemma_parse_vec_u16_sound::<CipherSuite>(s);
    }

    proof fn lemma_parse_enc(v: Seq<CipherSuite>, rest: Seq<u8>) {
        lemma_parse_vec_u16_enc::<CipherSuite>(v, rest);
    }

    fn encode(&self, bytes: &mut Vec<u8>) {
        proof {
            assert(views_of(self@) =~= self@);
        }
        encode_vec_u16(bytes, self);
    }

    fn read(r: &mut Reader) -> (res: Option<Self>) {
        let res = read_vec_u16::<CipherSuite>(r);
        proof {
            match res {
                Some(ref v) => {
                    assert(views_of(v@) =~= v@);
                },
                None => {},
            }
        }
        res
    }
}

impl Codec for Vec<NamedGroup> {
    open spec fn spec_wf(v: Seq<NamedGroup>) -> bool {
        spec_wf_vec_u16::<NamedGroup>(v)
    }

    open spec fn spec_enc(v: Seq<NamedGroup>) -> Seq<u8> {
        spec_enc_vec_u16::<NamedGroup>(v)
    }

    open spec fn spec_parse(s: Seq<u8>) -> Option<(Seq<NamedGroup>, int)> {
        spec_parse_vec_u16::<NamedGroup>(s)
    }

    proof fn lemma_parse_sound(s: Seq<u8>) {
        lemma_parse_vec_u16_sound::<NamedGroup>(s);
    }

    proof fn lemma_parse_enc(v: Seq<NamedGroup>, rest: Seq<u8>) {
        lemma_parse_vec_u16_enc::<NamedGroup>(v, rest);
    }

    fn encode(&self, bytes: &mut Vec<u8>) {
        proof {
            assert(views_of(self@) =~= self@);
        }
        encode_vec_u16(bytes, self);
    }

    fn read(r: &mut Reader) -> (res: Option<Self>) {
        let res = read_vec_u16::<NamedGroup>(r);
        proof {
            match res {
                Some(ref v) => {
                    assert(views_of(v@) =~= v@);
                },
                None => {},
            }
        }
        res
    }
}

// ---------------------------------------------------------------------------
// ClientHelloPayload
// ---------------------------------------------------------------------------

/// The ClientHello payload: its fields encode and decode in exactly this
/// order, each under its own framing and nothing more.
#[derive(Debug, PartialEq, Eq, Clone)]
pub struct ClientHelloPayload {
    pub random: Random,
    pub cipher_suites: CipherSuites,
    pub name_groups: NamedGroups,
    pub pwd_name: PayloadU8,
}

/// The abstract model of a [`ClientHelloPayload`].
pub struct ClientHelloPayloadV {
    pub random: Seq<u8>,
    pub cipher_suites: Seq<CipherSuite>,
    pub name_groups: Seq<NamedGroup>,
    pub pwd_name: Seq<u8>,
}

impl View for ClientHelloPayload {
    type V = ClientHelloPayloadV;

    open spec fn view(&self) -> ClientHelloPayloadV {
        ClientHelloPayloadV {
            random: self.random@,
            cipher_suites: self.cipher_suites@,
            name_groups: self.name_groups@,
            pwd_name: self.pwd_name@,
        }
    }
}

impl Codec for ClientHelloPayload {
    open spec fn spec_wf(v: ClientHelloPayloadV) -> bool {
        &&& <Random as Codec>::spec_wf(v.random)
        &&& <Vec<CipherSuite> as Codec>::spec_wf(v.cipher_suites)
        &&& <Vec<NamedGroup> as Codec>::spec_wf(v.name_groups)
        &&& <PayloadU8 as Codec>::spec_wf(v.pwd_name)
    }

    open spec fn spec_enc(v: ClientHelloPayloadV) -> Seq<u8> {
        <Random as Codec>::spec_enc(v.random) + <Vec<CipherSuite> as Codec>::spec_enc(
            v.cipher_suites,
        ) + <Vec<NamedGroup> as Codec>::spec_enc(v.name_groups) + <PayloadU8 as Codec>::spec_enc(
            v.pwd_name,
        )
    }

    open spec fn spec_parse(s: Seq<u8>) -> Option<(ClientHelloPayloadV, int)> {
        match <Random as Codec>::spec_parse(s) {
            Some(p1) => match <Vec<CipherSuite> as Codec>::spec_parse(
                s.subrange(p1.1, s.len() as int),
            ) {
                Some(p2) => match <Vec<NamedGroup> as Codec>::spec_parse(
                    s.subrange(p1.1 + p2.1, s.len() as int),
                ) {
                    Some(p3) => match <PayloadU8 as Codec>::spec_parse(
                        s.subrange(p1.1 + p2.1 + p3.1, s.len() as int),
                    ) {
                        Some(p4) => Some(
                            (
                                ClientHelloPayloadV {
                                    random: p1.0,
                                    cipher_suites: p2.0,
                                    name_groups: p3.0,
                                    pwd_name: p4.0,
                                },
                                p1.1 + p2.1 + p3.1 + p4.1,
                            ),
                        ),
                        None => None,
                    },
                    None => None,
                },
                None => None,
            },
            None => None,
        }
    }

    proof fn lemma_parse_sound(s: Seq<u8>) {
        match <Random as Codec>::spec_parse(s) {
            Some(p1) => {
                <Random as Codec>::lemma_parse_sound(s);
                let s2 = s.subrange(p1.1, s.len() as int);
                match <Vec<CipherSuite> as Codec>::spec_parse(s2) {
                    Some(p2) => {
                        <Vec<CipherSuite> as Codec>::lemma_parse_sound(s2);
                        let s3 = s.subrange(p1.1 + p2.1, s.len() as int);
                        assert(s3 =~= s2.subrange(p2.1, s2.len() as int));
                        match <Vec<NamedGroup> as Codec>::spec_parse(s3) {
                            Some(p3) => {
                                <Vec<NamedGroup> as Codec>::lemma_parse_sound(s3);
                                let s4 = s.subrange(p1.1 + p2.1 + p3.1, s.len() as int);
                                assert(s4 =~= s3.subrange(p3.1, s3.len() as int));
                                match <PayloadU8 as Codec>::spec_parse(s4) {
                                    Some(p4) => {
                                        <PayloadU8 as Codec>::lemma_parse_sound(s4);
                                        let n = p1.1 + p2.1 + p3.1 + p4.1;
                                        let v = ClientHelloPayloadV {
                                            random: p1.0,
                                            cipher_suites: p2.0,
                                            name_groups: p3.0,
                                            pwd_name: p4.0,
                                        };
                                        assert(Self::spec_enc(v) =~= s.subrange(0, n)) by {
                                            assert(<Random as Codec>::spec_enc(p1.0)
                                                == s.subrange(0, p1.1));
                                            assert(<Vec<CipherSuite> as Codec>::spec_enc(p2.0)
                                                == s2.subrange(0, p2.1));
                                            assert(<Vec<NamedGroup> as Codec>::spec_enc(p3.0)
                                                == s3.subrange(0, p3.1));
                                            assert(<PayloadU8 as Codec>::spec_enc(p4.0)
                                                == s4.subrange(0, p4.1));
                                        };
                                    },
                                    None => {},
                                }
                            },
                            None => {},
                        }
                    },
                    None => {},
                }
            },
            None => {},
        }
    }

    proof fn lemma_parse_enc(v: ClientHelloPayloadV, rest: Seq<u8>) {
        let e1 = <Random as Codec>::spec_enc(v.random);
        let e2 = <Vec<CipherSuite> as Codec>::spec_enc(v.cipher_suites);
        let e3 = <Vec<NamedGroup> as Codec>::spec_enc(v.name_groups);
        let e4 = <PayloadU8 as Codec>::spec_enc(v.pwd_name);
        let s = Self::spec_enc(v) + rest;
        assert(s =~= e1 + (e2 + e3 + e4 + rest));
        <Random as Codec>::lemma_parse_enc(v.random, e2 + e3 + e4 + rest);
        let n1 = e1.len() as int;
        assert(s.subrange(n1, s.len() as int) =~= e2 + (e3 + e4 + rest));
        <Vec<CipherSuite> as Codec>::lemma_parse_enc(v.cipher_suites, e3 + e4 + rest);
        let n2 = e2.len() as int;
        assert(s.subrange(n1 + n2, s.len() as int) =~= e3 + (e4 + rest));
        <Vec<NamedGroup> as Codec>::lemma_parse_enc(v.name_groups, e4 + rest);
        let n3 = e3.len() as int;
        assert(s.subrange(n1 + n2 + n3, s.len() as int) =~= e4 + rest);
        <PayloadU8 as Codec>::lemma_parse_enc(v.pwd_name, rest);
    }

    fn encode(&self, bytes: &mut Vec<u8>) {
        self.random.encode(bytes);
        self.cipher_suites.encode(bytes);
        self.name_groups.encode(bytes);
        self.pwd_name.encode(bytes);
        proof {
            assert(bytes@ =~= old(bytes)@ + Self::spec_enc(self@));
        }
    }

    fn read(r: &mut Reader) -> (res: Option<Self>) {
        let ghost orem = old(r).remaining();
        let random = match Random::read(r) {
            Some(x) => x,
            None => {
                return None;
            },
        };
        let ghost n1 = <Random as Codec>::spec_parse(orem)->Some_0.1;
        proof {
            assert(r.remaining() =~= orem.subrange(n1, orem.len() as int));
        }
        let cipher_suites = match <Vec<CipherSuite> as Codec>::read(r) {
            Some(x) => x,
            None => {
                return None;
            },
        };
        let ghost n2 = <Vec<CipherSuite> as Codec>::spec_parse(
            orem.subrange(n1, orem.len() as int),
        )->Some_0.1;
        proof {
            assert(r.remaining() =~= orem.subrange(n1 + n2, orem.len() as int));
        }
        let name_groups = match <Vec<NamedGroup> as Codec>::read(r) {
            Some(x) => x,
            None => {
                return None;
            },
        };
        let ghost n3 = <Vec<NamedGroup> as Codec>::spec_parse(
            orem.subrange(n1 + n2, orem.len() as int),
        )->Some_0.1;
        proof {
            assert(r.remaining() =~= orem.subrange(n1 + n2 + n3, orem.len() as int));
        }
        let pwd_name = match PayloadU8::read(r) {
            Some(x) => x,
            None => {
                return None;
            },
        };
        Some(ClientHelloPayload { random, cipher_suites, name_groups, pwd_name })
    }
}

// ---------------------------------------------------------------------------
// HandshakePayload
// ---------------------------------------------------------------------------

/// A handshake payload without its type tag and length framing: a closed
/// sum over the payload shapes; today exactly ClientHello.
#[derive(Debug, PartialEq, Eq, Clone)]
pub enum HandshakePayload {
    ClientHello(ClientHelloPayload),
}

/// The abstract model of a [`HandshakePayload`].
pub enum HandshakePayloadV {
    ClientHello(ClientHelloPayloadV),
}

impl View for HandshakePayload {
    type V = HandshakePayloadV;

    open spec fn view(&self) -> HandshakePayloadV {
        match self {
            HandshakePayload::ClientHello(x) => HandshakePayloadV::ClientHello(x@),
        }
    }
}

impl HandshakePayload {
    /// Validity of the payload's abstract model.
    pub open spec fn spec_wf(v: HandshakePayloadV) -> bool {
        match v {
            HandshakePayloadV::ClientHello(ch) => <ClientHelloPayload as Codec>::spec_wf(ch),
        }
    }

    /// The payload's exact wire bytes, without tag or length framing.
    pub open spec fn spec_enc(v: HandshakePayloadV) -> Seq<u8> {
        match v {
            HandshakePayloadV::ClientHello(ch) => <ClientHelloPayload as Codec>::spec_enc(ch),
        }
    }

    /// The handshake type tag that names this payload's shape on the wire.
    pub open spec fn spec_typ(v: HandshakePayloadV) -> HandshakeType {
        match v {
            HandshakePayloadV::ClientHello(_) => HandshakeType::ClientHello,
        }
    }

    /// Appends the payload's exact wire bytes to `bytes`.
    pub fn encode(&self, bytes: &mut Vec<u8>)
        requires
            HandshakePayload::spec_wf(self@),
        ensures
            final(bytes)@ == old(bytes)@ + HandshakePayload::spec_enc(self@),
    {
        match self {
            HandshakePayload::ClientHello(x) => x.encode(bytes),
        }
    }
}

// ---------------------------------------------------------------------------
// HandshakeMessagePayload
// ---------------------------------------------------------------------------

/// A complete handshake frame: a type tag, a 24-bit big-endian length, and
/// exactly that many payload bytes. Decoding carves a sub-reader bounded to
/// the declared length, dispatches on the tag — failing for any tag with no
/// known payload shape — and fails unless the payload consumes the declared
/// length exactly.
#[derive(Debug, PartialEq, Eq, Clone)]
pub struct HandshakeMessagePayload {
    pub typ: HandshakeType,
    pub payload: HandshakePayload,
}

/// The abstract model of a [`HandshakeMessagePayload`].
pub struct HandshakeMessagePayloadV {
    pub typ: HandshakeType,
    pub payload: HandshakePayloadV,
}

impl View for HandshakeMessagePayload {
    type V = HandshakeMessagePayloadV;

    open spec fn view(&self) -> HandshakeMessagePayloadV {
        HandshakeMessagePayloadV { typ: self.typ, payload: self.payload@ }
    }
}

impl Codec for HandshakeMessagePayload {
    /// A valid message carries the tag of its payload's shape, a valid
    /// payload, and a payload short enough for the 24-bit length field.
    open spec fn spec_wf(v: HandshakeMessagePayloadV) -> bool {
        &&& v.typ == HandshakePayload::spec_typ(v.payload)
        &&& HandshakePayload::spec_wf(v.payload)
        &&& HandshakePayload::spec_enc(v.payload).len() < 0x1000000
    }

    open spec fn spec_enc(v: HandshakeMessagePayloadV) -> Seq<u8> {
        spec_enc_u8(v.typ.spec_code()) + spec_enc_u24(
            HandshakePayload::spec_enc(v.payload).len() as u32,
        ) + HandshakePayload::spec_enc(v.payload)
    }

    open spec fn spec_parse(s: Seq<u8>) -> Option<(HandshakeMessagePayloadV, int)> {
        match <HandshakeType as Codec>::spec_parse(s) {
            Some(pt) => match spec_parse_u24(s.subrange(1, s.len() as int)) {
                Some(pl) => {
                    let len = pl.0 as int;
                    if s.len() >= 4 + len {
                        if pt.0 == HandshakeType::ClientHello {
                            match <ClientHelloPayload as Codec>::spec_parse(
                                s.subrange(4, 4 + len),
                            ) {
                                Some(pp) => if pp.1 == len {
                                    Some(
                                        (
                                            HandshakeMessagePayloadV {
                                                typ: pt.0,
                                                payload: HandshakePayloadV::ClientHello(pp.0),
                                            },
                                            4 + len,
                                        ),
                                    )
                                } else {
                                    None
                                },
                                None => None,
                            }
                        } else {
                            None
                        }
                    } else {
                        None
                    }
                },
                None => None,
            },
            None => None,
        }
    }

    #[verifier::rlimit(50)]
    proof fn lemma_parse_sound(s: Seq<u8>) {
        if s.len() >= 1 {
            let s1 = s.subrange(1, s.len() as int);
            match spec_parse_u24(s1) {
                Some(pl) => {
                    let len = pl.0 as int;
                    lemma_parse_u24_sound(s1);
                    if s.len() >= 4 + len && HandshakeType::spec_from_code(s[0])
                        == HandshakeType::ClientHello {
                        let region = s.subrange(4, 4 + len);
                        match <ClientHelloPayload as Codec>::spec_parse(region) {
                            Some(pp) => {
                                if pp.1 == len {
                                    <ClientHelloPayload as Codec>::lemma_parse_sound(region);
                                    let v = HandshakeMessagePayloadV {
                                        typ: HandshakeType::ClientHello,
                                        payload: HandshakePayloadV::ClientHello(pp.0),
                                    };
                                    assert(HandshakePayload::spec_enc(v.payload)
                                        =~= region);
                                    assert(Self::spec_enc(v) =~= s.subrange(0, 4 + len)) by {
                                        assert(spec_enc_u24(pl.0) == s1.subrange(0, 3));
                                    };
                                }
                            },
                            None => {},
                        }
                    }
                },
                None => {},
            }
        }
    }

    proof fn lemma_parse_enc(v: HandshakeMessagePayloadV, rest: Seq<u8>) {
        let body = HandshakePayload::spec_enc(v.payload);
        let len = body.len() as int;
        let s = Self::spec_enc(v) + rest;
        assert(s[0] == v.typ.spec_code());
        assert(v.typ == HandshakeType::ClientHello);
        assert(HandshakeType::spec_from_code(s[0]) == HandshakeType::ClientHello);
        let s1 = s.subrange(1, s.len() as int);
        assert(s1 =~= spec_enc_u24(len as u32) + (body + rest));
        lemma_parse_enc_u24(len as u32, body + rest);
        assert(s.len() >= 4 + len);
        let region = s.subrange(4, 4 + len);
        assert(region =~= body);
        match v.payload {
            HandshakePayloadV::ClientHello(ch) => {
                <ClientHelloPayload as Codec>::lemma_parse_enc(ch, Seq::empty());
                assert(body + Seq::<u8>::empty() =~= body);
            },
        }
    }

    /// The length is learned by a first encoding pass over the payload into
    /// a scratch buffer, then tag, length and scratch bytes are emitted.
    fn encode(&self, bytes: &mut Vec<u8>) {
        let mut sub: Vec<u8> = Vec::new();
        self.payload.encode(&mut sub);
        self.typ.encode(bytes);
        encode_u24(bytes, sub.len() as u32);
        extend_bytes(bytes, sub.as_slice());
        proof {
            assert(bytes@ =~= old(bytes)@ + Self::spec_enc(self@));
        }
    }

    fn read(r: &mut Reader) -> (res: Option<Self>) {
        let ghost orem = old(r).remaining();
        let typ = match HandshakeType::read(r) {
            Some(t) => t,
            None => {
                return None;
            },
        };
        proof {
            assert(r.remaining() =~= orem.subrange(1, orem.len() as int));
        }
        let len32 = match read_u24(r) {
            Some(l) => l,
            None => {
                return None;
            },
        };
        let len = len32 as usize;
        let mut sub = match r.sub(len) {
            Some(s) => s,
            None => {
                return None;
            },
        };
        proof {
            assert(sub.data() =~= orem.subrange(4, 4 + len as int));
            assert(sub.remaining() =~= sub.data());
        }
        let payload = match typ {
            HandshakeType::ClientHello => {
                match ClientHelloPayload::read(&mut sub) {
                    Some(ch) => HandshakePayload::ClientHello(ch),
                    None => {
                        return None;
                    },
                }
            },
            HandshakeType::Unknown(_) => {
                return None;
            },
        };
        if sub.any_left() {
            None
        } else {
            Some(HandshakeMessagePayload { typ, payload })
        }
    }
}

impl HandshakeMessagePayload {
    /// The total byte length of this message on the wire, learned by an
    /// encoding pass.
    pub fn length(&self) -> (n: usize)
        requires
            <HandshakeMessagePayload as Codec>::spec_wf(self@),
        ensures
            n == <HandshakeMessagePayload as Codec>::spec_enc(self@).len(),
    {
        let mut buf: Vec<u8> = Vec::new();
        self.encode(&mut buf);
        buf.len()
    }
}

// ---------------------------------------------------------------------------
// Laws of the codec.
// ---------------------------------------------------------------------------

/// Law: decoding the encoding of a valid message yields the message itself,
/// field for field, consuming exactly the encoding. Encoding is a function
/// of the message alone, so it is deterministic.
pub proof fn lemma_round_trip(v: HandshakeMessagePayloadV)
    requires
        <HandshakeMessagePayload as Codec>::spec_wf(v),
    ensures
        <HandshakeMessagePayload as Codec>::spec_parse(
            <HandshakeMessagePayload as Codec>::spec_enc(v),
        ) == Some((v, <HandshakeMessagePayload as Codec>::spec_enc(v).len() as int)),
{
    <HandshakeMessagePayload as Codec>::lemma_parse_enc(v, Seq::empty());
    assert(<HandshakeMessagePayload as Codec>::spec_enc(v) + Seq::<u8>::empty()
        =~= <HandshakeMessagePayload as Codec>::spec_enc(v));
}

/// Law: in any encoded message the 24-bit length field equals the length of
/// the whole encoding less the four bytes of tag and length field.
pub proof fn lemma_length_field_consistent(v: HandshakeMessagePayloadV)
    requires
        <HandshakeMessagePayload as Codec>::spec_wf(v),
    ensures
        <HandshakeMessagePayload as Codec>::spec_enc(v).len() >= 4,
        <HandshakeMessagePayload as Codec>::spec_enc(v).subrange(1, 4) == spec_enc_u24(
            (<HandshakeMessagePayload as Codec>::spec_enc(v).len() - 4) as u32,
        ),
{
    let enc = <HandshakeMessagePayload as Codec>::spec_enc(v);
    let body = HandshakePayload::spec_enc(v.payload);
    assert(enc.len() == 4 + body.len());
    assert(enc.subrange(1, 4) =~= spec_enc_u24(body.len() as u32));
}

/// Law: decoding any proper prefix of a valid encoded message fails
/// cleanly; only the whole encoding decodes.
pub proof fn lemma_truncation_fails(v: HandshakeMessagePayloadV, k: int)
    requires
        <HandshakeMessagePayload as Codec>::spec_wf(v),
        0 <= k < <HandshakeMessagePayload as Codec>::spec_enc(v).len(),
    ensures
        <HandshakeMessagePayload as Codec>::spec_parse(
            <HandshakeMessagePayload as Codec>::spec_enc(v).subrange(0, k),
        ) is None,
{
    let enc = <HandshakeMessagePayload as Codec>::spec_enc(v);
    let body = HandshakePayload::spec_enc(v.payload);
    let len = body.len() as int;
    let t = enc.subrange(0, k);
    if k >= 4 {
        let t1 = t.subrange(1, k);
        assert(t1 =~= spec_enc_u24(len as u32) + body.subrange(0, k - 4));
        lemma_parse_enc_u24(len as u32, body.subrange(0, k - 4));
        assert(spec_parse_u24(t1) == Some((len as u32, 3int)));
        assert(t.len() < 4 + len);
    }
}

/// Law: a frame whose length field exceeds the payload's true size, padded
/// to the declared length with any non-empty filler, fails to decode: the
/// payload decoder leaves the filler unconsumed and the leftover is fatal.
pub proof fn lemma_trailing_garbage_fails(ch: ClientHelloPayloadV, pad: Seq<u8>)
    requires
        <ClientHelloPayload as Codec>::spec_wf(ch),
        pad.len() >= 1,
        <ClientHelloPayload as Codec>::spec_enc(ch).len() + pad.len() < 0x1000000,
    ensures
        <HandshakeMessagePayload as Codec>::spec_parse(
            spec_enc_u8(CLIENT_HELLO_CODE) + spec_enc_u24(
                (<ClientHelloPayload as Codec>::spec_enc(ch).len() + pad.len()) as u32,
            ) + <ClientHelloPayload as Codec>::spec_enc(ch) + pad,
        ) is None,
{
    let body = <ClientHelloPayload as Codec>::spec_enc(ch);
    let len = (body.len() + pad.len()) as int;
    let s = spec_enc_u8(CLIENT_HELLO_CODE) + spec_enc_u24(len as u32) + body + pad;
    assert(s[0] == CLIENT_HELLO_CODE);
    let s1 = s.subrange(1, s.len() as int);
    assert(s1 =~= spec_enc_u24(len as u32) + (body + pad));
    lemma_parse_enc_u24(len as u32, body + pad);
    assert(s.len() == 4 + len);
    let region = s.subrange(4, 4 + len);
    assert(region =~= body + pad);
    <ClientHelloPayload as Codec>::lemma_parse_enc(ch, pad);
    assert(<ClientHelloPayload as Codec>::spec_parse(region)
        == Some((ch, body.len() as int)));
    assert(body.len() as int != len);
}

/// Law: a message whose type byte is not ClientHello's code fails to
/// decode, since no payload shape is known for any other tag.
pub proof fn lemma_unknown_tag_fails(s: Seq<u8>)
    requires
        s.len() >= 1,
        s[0] != CLIENT_HELLO_CODE,
    ensures
        <HandshakeMessagePayload as Codec>::spec_parse(s) is None,
{
    assert(HandshakeType::spec_from_code(s[0]) != HandshakeType::ClientHello);
}

/// Law: a cipher-suite vector whose declared byte count is zero decodes to
/// the empty sequence, consuming only the count field.
pub proof fn lemma_empty_vector_decodes(s: Seq<u8>)
    requires
        s.len() >= 2,
        s[0] == 0,
        s[1] == 0,
    ensures
        spec_parse_vec_u16::<CipherSuite>(s) == Some((Seq::<CipherSuite>::empty(), 2int)),
{
    assert(spec_parse_u16(s) == Some((0u16, 2int)));
    assert(s.subrange(2, 2) =~= Seq::<u8>::empty());
}

/// A region of bytes of odd length cannot be split into whole two-byte
/// cipher-suite codes, so decoding its elements fails.
pub proof fn lemma_odd_element_region_fails(s: Seq<u8>)
    requires
        s.len() % 2 == 1,
    ensures
        spec_parse_elems::<CipherSuite>(s) is None,
    decreases s.len(),
{
    if s.len() >= 2 {
        lemma_odd_element_region_fails(s.subrange(2, s.len() as int));
    }
}

/// Law: a cipher-suite vector whose declared byte count is not a multiple
/// of the two-byte element size fails to decode.
pub proof fn lemma_odd_count_fails(s: Seq<u8>)
    requires
        match spec_parse_u16(s) {
            Some(p) => p.0 % 2 == 1,
            None => false,
        },
    ensures
        spec_parse_vec_u16::<CipherSuite>(s) is None,
{
    let len = spec_parse_u16(s)->Some_0.0 as int;
    if s.len() >= 2 + len {
        lemma_odd_element_region_fails(s.subrange(2, 2 + len));
    }
}

} // verus!
