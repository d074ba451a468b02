//! The enumerated protocol codes: handshake message types, cipher suites
//! and named groups.
//!
//! Leaf enumerations (cipher suites, named groups, and the handshake type
//! itself) decode any code: a code with no known variant becomes an explicit
//! `Unknown` sentinel rather than a failure, so that unrecognized sibling
//! values stay forward-compatible. Only the top-level message dispatch
//! rejects an unrecognized handshake type, since no payload shape is known
//! for it.

use vstd::prelude::*;
use crate::codec::{
    Codec, spec_enc_u8, spec_enc_u16, spec_parse_u8, spec_parse_u16, encode_u8, encode_u16,
    read_u8, read_u16,
};
use crate::reader::Reader;

verus! {

/// The wire code of the ClientHello handshake message type.
pub const CLIENT_HELLO_CODE: u8 = 1;

/// An 8-bit handshake message type.
#[derive(Debug, PartialEq, Eq, Clone, Copy)]
pub enum HandshakeType {
    ClientHello,
    Unknown(u8),
}

impl HandshakeType {
    /// The wire code of this type.
    pub open spec fn spec_code(self) -> u8 {
        match self {
            HandshakeType::ClientHello => CLIENT_HELLO_CODE,
            HandshakeType::Unknown(c) => c,
        }
    }

    /// The type a wire code decodes to.
    pub open spec fn spec_from_code(c: u8) -> HandshakeType {
        if c == CLIENT_HELLO_CODE {
            HandshakeType::ClientHello
        } else {
            HandshakeType::Unknown(c)
        }
    }

    pub fn code(&self) -> (c: u8)
        ensures
            c == self.spec_code(),
    {
        match *self {
            HandshakeType::ClientHello => CLIENT_HELLO_CODE,
            HandshakeType::Unknown(c) => c,
        }
    }

    pub fn from_code(c: u8) -> (t: HandshakeType)
        ensures
            t == HandshakeType::spec_from_code(c),
    {
        if c == CLIENT_HELLO_CODE {
            HandshakeType::ClientHello
        } else {
            HandshakeType::Unknown(c)
        }
    }
}

impl View for HandshakeType {
    type V = HandshakeType;

    open spec fn view(&self) -> HandshakeType {
        *self
    }
}

impl Codec for HandshakeType {
    /// An `Unknown` sentinel never carries a code that has a variant of its
    /// own, so distinct values have distinct codes.
    open spec fn spec_wf(v: HandshakeType) -> bool {
        match v {
            HandshakeType::Unknown(c) => c != CLIENT_HELLO_CODE,
            _ => true,
        }
    }

    open spec fn spec_enc(v: HandshakeType) -> Seq<u8> {
        spec_enc_u8(v.spec_code())
    }

    open spec fn spec_parse(s: Seq<u8>) -> Option<(HandshakeType, int)> {
        match spec_parse_u8(s) {
            Some(p) => Some((HandshakeType::spec_from_code(p.0), 1int)),
            None => None,
        }
    }

    proof fn lemma_parse_sound(s: Seq<u8>) {
        if s.len() >= 1 {
            assert(Self::spec_enc(HandshakeType::spec_from_code(s[0])) =~= s.subrange(0, 1));
        }
    }

    proof fn lemma_parse_enc(v: HandshakeType, rest: Seq<u8>) {
        assert((Self::spec_enc(v) + rest)[0] == v.spec_code());
    }

    fn encode(&self, bytes: &mut Vec<u8>) {
        encode_u8(bytes, self.code());
    }

    fn read(r: &mut Reader) -> (res: Option<Self>) {
        match read_u8(r) {
            Some(c) => Some(HandshakeType::from_code(c)),
            None => None,
        }
    }
}

/// A 16-bit cipher suite code.
#[derive(Debug, PartialEq, Eq, Clone, Copy)]
pub enum CipherSuite {
    TlsAes128GcmSha256,
    TlsAes256GcmSha384,
    TlsChacha20Poly1305Sha256,
    Unknown(u16),
}

impl CipherSuite {
    /// The wire code of this suite.
    pub open spec fn spec_code(self) -> u16 {
        match self {
            CipherSuite::TlsAes128GcmSha256 => 0x1301,
            CipherSuite::TlsAes256GcmSha384 => 0x1302,
            CipherSuite::TlsChacha20Poly1305Sha256 => 0x1303,
            CipherSuite::Unknown(c) => c,
        }
    }

    /// The suite a wire code decodes to.
    pub open spec fn spec_from_code(c: u16) -> CipherSuite {
        if c == 0x1301 {
            CipherSuite::TlsAes128GcmSha256
        } else if c == 0x1302 {
            CipherSuite::TlsAes256GcmSha384
        } else if c == 0x1303 {
            CipherSuite::TlsChacha20Poly1305Sha256
        } else {
            CipherSuite::Unknown(c)
        }
    }

    pub fn code(&self) -> (c: u16)
        ensures
            c == self.spec_code(),
    {
        match *self {
            CipherSuite::TlsAes128GcmSha256 => 0x1301,
            CipherSuite::TlsAes256GcmSha384 => 0x1302,
            CipherSuite::TlsChacha20Poly1305Sha256 => 0x1303,
            CipherSuite::Unknown(c) => c,
        }
    }

    pub fn from_code(c: u16) -> (s: CipherSuite)
        ensures
            s == CipherSuite::spec_from_code(c),
    {
        if c == 0x1301 {
            CipherSuite::TlsAes128GcmSha256
        } else if c == 0x1302 {
            CipherSuite::TlsAes256GcmSha384
        } else if c == 0x1303 {
            CipherSuite::TlsChacha20Poly1305Sha256
        } else {
            CipherSuite::Unknown(c)
        }
    }
}

impl View for CipherSuite {
    type V = CipherSuite;

    open spec fn view(&self) -> CipherSuite {
        *self
    }
}

impl Codec for CipherSuite {
    /// An `Unknown` sentinel never carries a code that has a variant of its
    /// own, so distinct values have distinct codes.
    open spec fn spec_wf(v: CipherSuite) -> bool {
        match v {
            CipherSuite::Unknown(c) => c != 0x1301 && c != 0x1302 && c != 0x1303,
            _ => true,
        }
    }

    open spec fn spec_enc(v: CipherSuite) -> Seq<u8> {
        spec_enc_u16(v.spec_code())
    }

    open spec fn spec_parse(s: Seq<u8>) -> Option<(CipherSuite, int)> {
        match spec_parse_u16(s) {
            Some(p) => Some((CipherSuite::spec_from_code(p.0), 2int)),
            None => None,
        }
    }

    proof fn lemma_parse_sound(s: Seq<u8>) {
        if s.len() >= 2 {
            let c = spec_parse_u16(s)->Some_0.0;
            crate::codec::lemma_parse_u16_sound(s);
            assert(CipherSuite::spec_from_code(c).spec_code() == c);
        }
    }

    proof fn lemma_parse_enc(v: CipherSuite, rest: Seq<u8>) {
        crate::codec::lemma_parse_enc_u16(v.spec_code(), rest);
        assert(Self::spec_enc(v) + rest =~= spec_enc_u16(v.spec_code()) + rest);
    }

    fn encode(&self, bytes: &mut Vec<u8>) {
        encode_u16(bytes, self.code());
    }

    fn read(r: &mut Reader) -> (res: Option<Self>) {
        match read_u16(r) {
            Some(c) => Some(CipherSuite::from_code(c)),
            None => None,
        }
    }
}

/// A 16-bit named (key-exchange) group code.
#[derive(Debug, PartialEq, Eq, Clone, Copy)]
pub enum NamedGroup {
    Secp256r1,
    X25519,
    Unknown(u16),
}

impl NamedGroup {
    /// The wire code of this group.
    pub open spec fn spec_code(self) -> u16 {
        match self {
            NamedGroup::Secp256r1 => 0x0017,
            NamedGroup::X25519 => 0x001D,
            NamedGroup::Unknown(c) => c,
        }
    }

    /// The group a wire code decodes to.
    pub open spec fn spec_from_code(c: u16) -> NamedGroup {
        if c == 0x0017 {
            NamedGroup::Secp256r1
        } else if c == 0x001D {
            NamedGroup::X25519
        } else {
            NamedGroup::Unknown(c)
        }
    }

    pub fn code(&self) -> (c: u16)
        ensures
            c == self.spec_code(),
    {
        match *self {
            NamedGroup::Secp256r1 => 0x0017,
            NamedGroup::X25519 => 0x001D,
            NamedGroup::Unknown(c) => c,
        }
    }

    pub fn from_code(c: u16) -> (g: NamedGroup)
        ensures
            g == NamedGroup::spec_from_code(c),
    {
        if c == 0x0017 {
            NamedGroup::Secp256r1
        } else if c == 0x001D {
            NamedGroup::X25519
        } else {
            NamedGroup::Unknown(c)
        }
    }
}

impl View for NamedGroup {
    type V = NamedGroup;

    open spec fn view(&self) -> NamedGroup {
        *self
    }
}

impl Codec for NamedGroup {
    /// An `Unknown` sentinel never carries a code that has a variant of its
    /// own, so distinct values have distinct codes.
    open spec fn spec_wf(v: NamedGroup) -> bool {
        match v {
            NamedGroup::Unknown(c) => c != 0x0017 && c != 0x001D,
            _ => true,
        }
    }

    open spec fn spec_enc(v: NamedGroup) -> Seq<u8> {
        spec_enc_u16(v.spec_code())
    }

    open spec fn spec_parse(s: Seq<u8>) -> Option<(NamedGroup, int)> {
        match spec_parse_u16(s) {
            Some(p) => Some((NamedGroup::spec_from_code(p.0), 2int)),
            None => None,
        }
    }

    proof fn lemma_parse_sound(s: Seq<u8>) {
        if s.len() >= 2 {
            let c = spec_parse_u16(s)->Some_0.0;
            crate::codec::lemma_parse_u16_sound(s);
            assert(NamedGroup::spec_from_code(c).spec_code() == c);
        }
    }

    proof fn lemma_parse_enc(v: NamedGroup, rest: Seq<u8>) {
        crate::codec::lemma_parse_enc_u16(v.spec_code(), rest);
        assert(Self::spec_enc(v) + rest =~= spec_enc_u16(v.spec_code()) + rest);
    }

    fn encode(&self, bytes: &mut Vec<u8>) {
        encode_u16(bytes, self.code());
    }

    fn read(r: &mut Reader) -> (res: Option<Self>) {
        match read_u16(r) {
            Some(c) => Some(NamedGroup::from_code(c)),
            None => None,
        }
    }
}

} // verus!
