//! A packet of the session: one byte that says whether it is encrypted, one byte
//! for its type, and the payload.

use vstd::prelude::*;

use crate::crypto;
use crate::crypto::{CipherState, CryptoError, CryptoHandler};
use crate::proto::wire;

verus! {

/// The number of bytes before the payload.
pub const HEADER_LEN: usize = 2;

/// Why a packet could not be read, encrypted or decrypted.
#[derive(Debug, Clone, Copy, PartialEq, Eq, Structural)]
pub enum PacketError {
    /// There are fewer bytes than a packet has.
    TooShort,
    /// A packet is not encrypted twice.
    AlreadyEncrypted,
    /// A packet that is not encrypted is not decrypted.
    NotEncrypted,
    /// The cipher turned the payload down.
    Crypto(CryptoError),
}

#[derive(Debug)]
pub struct Packet {
    encrypted: bool,
    header: u8,
    payload: Vec<u8>,
}

#[verifier::ext_equal]
pub struct PacketView {
    pub encrypted: bool,
    pub header: u8,
    pub payload: Seq<u8>,
}

impl View for Packet {
    type V = PacketView;

    closed spec fn view(&self) -> PacketView {
        PacketView { encrypted: self.encrypted, header: self.header, payload: self.payload@ }
    }
}

impl Clone for Packet {
    fn clone(&self) -> (r: Self)
        ensures
            r@ == self@,
    {
        let r = Packet {
            encrypted: self.encrypted,
            header: self.header,
            payload: self.payload.clone(),
        };
        assert(r@.payload =~= self@.payload);
        r
    }
}

impl PacketView {
    /// The bytes of a packet.
    pub open spec fn serialized(self) -> Seq<u8> {
        seq![if self.encrypted { 1u8 } else { 0u8 }, self.header] + self.payload
    }

    /// The number of bytes of a packet.
    pub open spec fn length(self) -> nat {
        HEADER_LEN as nat + self.payload.len()
    }

    /// A packet once its payload has been encrypted as the next message.
    pub open spec fn sealed(self, c: CipherState) -> PacketView {
        PacketView {
            encrypted: true,
            header: self.header,
            payload: c.seal_next(self.payload),
        }
    }
}

/// The packet that `data` stands for: any first byte but zero means that it is
/// encrypted.
pub open spec fn deserialized(data: Seq<u8>) -> Result<PacketView, PacketError> {
    if data.len() < HEADER_LEN {
        Err(PacketError::TooShort)
    } else {
        Ok(
            PacketView {
                encrypted: data[0] != 0,
                header: data[1],
                payload: data.skip(HEADER_LEN as int),
            },
        )
    }
}

/// A packet once its payload has been decrypted as the next message.
pub open spec fn opened(p: PacketView, c: CipherState) -> Result<PacketView, PacketError> {
    if !p.encrypted {
        Err(PacketError::NotEncrypted)
    } else {
        match c.open_next(p.payload) {
            Some(payload) => Ok(PacketView { encrypted: false, header: p.header, payload }),
            None => Err(PacketError::Crypto(CryptoError::Forged)),
        }
    }
}

impl Packet {
    /// A packet that is not encrypted.
    pub fn new(header: u8, payload: Vec<u8>) -> (r: Packet)
        ensures
            r@ == (PacketView { encrypted: false, header, payload: payload@ }),
    {
        Packet { encrypted: false, header, payload }
    }

    pub fn from_serialized(data: &[u8]) -> (r: Result<Packet, PacketError>)
        ensures
            match r {
                Ok(p) => deserialized(data@) == Ok::<PacketView, PacketError>(p@),
                Err(e) => deserialized(data@) == Err::<PacketView, PacketError>(e),
            },
    {
        if data.len() < HEADER_LEN {
            return Err(PacketError::TooShort);
        }
        let payload = vstd::slice::slice_to_vec(
            vstd::slice::slice_subrange(data, HEADER_LEN, data.len()),
        );
        assert(payload@ =~= data@.skip(HEADER_LEN as int));
        Ok(Packet { encrypted: data[0] != 0, header: data[1], payload })
    }

    pub fn header(&self) -> (r: u8)
        ensures
            r == self@.header,
    {
        self.header
    }

    pub fn payload(&self) -> (r: &[u8])
        ensures
            r@ == self@.payload,
    {
        self.payload.as_slice()
    }

    /// The number of bytes of the packet, which must fit in a `usize`.
    pub fn length(&self) -> (r: usize)
        requires
            self@.length() <= usize::MAX,
        ensures
            r == self@.length(),
    {
        HEADER_LEN + self.payload.len()
    }

    pub fn serialize(&self) -> (r: Vec<u8>)
        ensures
            r@ == self@.serialized(),
    {
        let mut s: Vec<u8> = Vec::new();
        s.push(if self.encrypted { 1 } else { 0 });
        s.push(self.header);
        wire::put_slice(&mut s, self.payload.as_slice());
        assert(s@ =~= self@.serialized());
        s
    }

    /// Encrypts the payload as the next message of `crypto`. A packet that is
    /// turned down stays as it is, and does not count.
    pub fn encrypt(&mut self, crypto: &mut CryptoHandler) -> (r: Result<(), PacketError>)
        ensures
            match r {
                Ok(_) => {
                    &&& !old(self)@.encrypted && !crypto::too_long(old(self)@.payload.len())
                    &&& final(self)@ == old(self)@.sealed(old(crypto)@)
                    &&& final(self)@.payload.len() == old(self)@.payload.len() + crypto::MAC_LEN
                    &&& final(crypto)@ == old(crypto)@.after(1)
                    &&& opened(final(self)@, old(crypto)@) == Ok::<PacketView, PacketError>(
                        old(self)@,
                    )
                },
                Err(e) => {
                    &&& final(self)@ == old(self)@
                    &&& final(crypto)@ == old(crypto)@
                    &&& if old(self)@.encrypted {
                        e == PacketError::AlreadyEncrypted
                    } else {
                        crypto::too_long(old(self)@.payload.len()) && e == PacketError::Crypto(
                            CryptoError::MessageTooLong,
                        )
                    }
                },
            },
    {
        if self.encrypted {
            return Err(PacketError::AlreadyEncrypted);
        }
        match crypto.encrypt(self.payload.as_slice()) {
            Ok(b) => {
                self.payload = b;
                self.encrypted = true;
                Ok(())
            },
            Err(e) => Err(PacketError::Crypto(e)),
        }
    }

    /// Decrypts the payload as the next message of `crypto`. A packet that is
    /// turned down stays as it is; it counts unless it was not encrypted.
    pub fn decrypt(&mut self, crypto: &mut CryptoHandler) -> (r: Result<(), PacketError>)
        ensures
            final(crypto)@ == (if old(self)@.encrypted {
                old(crypto)@.after(1)
            } else {
                old(crypto)@
            }),
            match r {
                Ok(_) => opened(old(self)@, old(crypto)@) == Ok::<PacketView, PacketError>(
                    final(self)@,
                ),
                Err(e) => opened(old(self)@, old(crypto)@) == Err::<PacketView, PacketError>(e)
                    && final(self)@ == old(self)@,
            },
    {
        if !self.encrypted {
            return Err(PacketError::NotEncrypted);
        }
        match crypto.decrypt(self.payload.as_slice()) {
            Ok(b) => {
                self.payload = b;
                self.encrypted = false;
                Ok(())
            },
            Err(e) => Err(PacketError::Crypto(e)),
        }
    }
}

/// A packet that was serialized reads back unchanged.
pub proof fn serialization_round_trip(p: PacketView)
    ensures
        deserialized(p.serialized()) == Ok::<PacketView, PacketError>(p),
        p.serialized().len() == p.length(),
{
    assert(p.serialized().skip(HEADER_LEN as int) =~= p.payload);
}

/// The bytes of a packet: 1 where it is encrypted and 0 where it is not, the type, and the
/// payload.
pub proof fn bytes_of_a_packet(p: PacketView)
    ensures
        p.length() == 2 + p.payload.len(),
        p.serialized().len() == 2 + p.payload.len(),
        p.serialized()[0] == (if p.encrypted {
            1u8
        } else {
            0u8
        }),
        p.serialized()[1] == p.header,
        p.serialized().skip(2) == p.payload,
{
    assert(p.serialized().skip(2) =~= p.payload);
}

/// Any two bytes and more are a packet, which is encrypted unless the first byte is zero.
pub proof fn packets_in_bytes(data: Seq<u8>)
    ensures
        data.len() < 2 ==> deserialized(data) == Err::<PacketView, PacketError>(
            PacketError::TooShort,
        ),
        data.len() >= 2 ==> (deserialized(data) matches Ok(p) && p.encrypted == (data[0] != 0)
            && p.header == data[1] && p.payload == data.skip(2)),
{
}

/// Encrypting and decrypting change the payload, as the next message of the cipher, and
/// the mark of it. They leave the type alone. What is not marked is not decrypted.
pub proof fn encryption_keeps_the_type(p: PacketView, c: CipherState)
    ensures
        p.sealed(c).encrypted,
        p.sealed(c).header == p.header,
        p.sealed(c).payload == c.seal_next(p.payload),
        !p.encrypted ==> opened(p, c) == Err::<PacketView, PacketError>(PacketError::NotEncrypted),
        p.encrypted ==> match c.open_next(p.payload) {
            Some(payload) => opened(p, c) matches Ok(q) && !q.encrypted && q.header == p.header
                && q.payload == payload,
            None => opened(p, c) == Err::<PacketView, PacketError>(
                PacketError::Crypto(CryptoError::Forged),
            ),
        },
{
}

} // verus!
