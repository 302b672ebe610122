//! Encryption of packet payloads: XSalsa20-Poly1305 (`crypto_secretbox`) under a
//! key of 32 bytes, with a nonce that counts the messages of one direction.

use crypto_secretbox::aead::Aead;
use crypto_secretbox::{Key, KeyInit, Nonce, XSalsa20Poly1305};
use vstd::prelude::*;

use crate::byte_order;

verus! {

/// The number of bytes of a key.
pub const KEY_LEN: usize = 32;

/// The number of bytes of a nonce.
pub const NONCE_LEN: usize = 24;

/// The number of bytes by which a ciphertext is longer than its plaintext.
pub const MAC_LEN: usize = 16;

/// The most significant nonce byte of what the client sends.
pub const CLIENT_SERVER_NONCE_MSB: u8 = 0;

/// The most significant nonce byte of what the server sends.
pub const SERVER_CLIENT_NONCE_MSB: u8 = 1;

/// Why a key, a plaintext or a ciphertext was turned down.
#[derive(Debug, Clone, Copy, PartialEq, Eq, Structural)]
pub enum CryptoError {
    /// The key does not have [`KEY_LEN`] bytes.
    InvalidKeyLength,
    /// The ciphertext would be longer than any byte string can be.
    MessageTooLong,
    /// The ciphertext was not made with this key and nonce.
    Forged,
}

/// The ciphertext of `plaintext`.
pub uninterp spec fn secretbox_seal(key: Seq<u8>, nonce: Seq<u8>, plaintext: Seq<u8>) -> Seq<u8>;

/// The plaintext of `ciphertext`; `None` where it fails authentication.
pub uninterp spec fn secretbox_open(key: Seq<u8>, nonce: Seq<u8>, ciphertext: Seq<u8>) -> Option<
    Seq<u8>,
>;

/// Encrypts and authenticates `plaintext`.
///
/// Calls `Aead::encrypt` of `crypto_secretbox::XSalsa20Poly1305` without
/// associated data. The claims are that the result depends on the three
/// arguments alone, that it is longer than the plaintext by the tag, and that
/// opening it under the same key and nonce gives the plaintext back.
#[verifier::external_body]
fn seal(key: &[u8; 32], nonce: &[u8; 24], plaintext: &[u8]) -> (r: Vec<u8>)
    requires
        plaintext@.len() + MAC_LEN <= isize::MAX,
    ensures
        r@ == secretbox_seal(key@, nonce@, plaintext@),
        r@.len() == plaintext@.len() + MAC_LEN,
        secretbox_open(key@, nonce@, r@) == Some(plaintext@),
{
    XSalsa20Poly1305::new(Key::from_slice(key))
        .encrypt(Nonce::from_slice(nonce), plaintext)
        .expect("encryption without associated data")
}

/// Authenticates and decrypts `ciphertext`.
///
/// Calls `Aead::decrypt` of `crypto_secretbox::XSalsa20Poly1305` without
/// associated data. The claims are that the result depends on the three
/// arguments alone, and that a plaintext is shorter than its ciphertext by the
/// tag.
#[verifier::external_body]
fn open(key: &[u8; 32], nonce: &[u8; 24], ciphertext: &[u8]) -> (r: Option<Vec<u8>>)
    ensures
        match r {
            Some(plaintext) => secretbox_open(key@, nonce@, ciphertext@) == Some(plaintext@)
                && plaintext@.len() + MAC_LEN == ciphertext@.len(),
            None => secretbox_open(key@, nonce@, ciphertext@) is None,
        },
{
    XSalsa20Poly1305::new(Key::from_slice(key))
        .decrypt(Nonce::from_slice(nonce), ciphertext)
        .ok()
}

/// A key, and the nonce of the last message that went through it.
pub struct CipherState {
    pub key: Seq<u8>,
    pub nonce: Seq<u8>,
}

/// The nonce `count` messages after `nonce`: it counts up as a little-endian
/// number, and wraps around.
pub open spec fn nonce_after(nonce: Seq<u8>, count: nat) -> Seq<u8> {
    byte_order::le_bytes(byte_order::le_value(nonce) + count, nonce.len())
}

/// The nonce before the first message of a direction.
pub open spec fn first_nonce(msb: u8) -> Seq<u8> {
    Seq::new(NONCE_LEN as nat, |i: int| if i == NONCE_LEN - 1 { msb } else { 0 })
}

impl CipherState {
    /// The state before the first message.
    pub open spec fn fresh(key: Seq<u8>, msb: u8) -> CipherState {
        CipherState { key, nonce: first_nonce(msb) }
    }

    /// The state `count` messages later.
    pub open spec fn after(self, count: nat) -> CipherState {
        CipherState { key: self.key, nonce: nonce_after(self.nonce, count) }
    }

    /// The ciphertext of the next message.
    pub open spec fn seal_next(self, plaintext: Seq<u8>) -> Seq<u8> {
        secretbox_seal(self.key, nonce_after(self.nonce, 1), plaintext)
    }

    /// The plaintext of the next message.
    pub open spec fn open_next(self, ciphertext: Seq<u8>) -> Option<Seq<u8>> {
        secretbox_open(self.key, nonce_after(self.nonce, 1), ciphertext)
    }
}

/// Whether a plaintext is too long to be encrypted.
pub open spec fn too_long(len: nat) -> bool {
    len + MAC_LEN > isize::MAX
}

/// Encrypts or decrypts the messages of one direction.
pub struct CryptoHandler {
    key: [u8; 32],
    nonce: [u8; 24],
}

impl View for CryptoHandler {
    type V = CipherState;

    closed spec fn view(&self) -> CipherState {
        CipherState { key: self.key@, nonce: self.nonce@ }
    }
}

/// Counting up by one byte by byte, with carry.
proof fn lemma_count_up(s: Seq<u8>)
    ensures
        s.len() > 0 ==> byte_order::le_bytes(byte_order::le_value(s) + 1, s.len()) == (if s[0]
            == 255 {
            seq![0u8] + byte_order::le_bytes(
                byte_order::le_value(s.skip(1)) + 1,
                (s.len() - 1) as nat,
            )
        } else {
            seq![(s[0] + 1) as u8] + s.skip(1)
        }),
        byte_order::le_bytes(byte_order::le_value(s), s.len()) == s,
    decreases s.len(),
{
    if s.len() > 0 {
        lemma_count_up(s.skip(1));
        let r = byte_order::le_value(s.skip(1));
        let v = s[0] as nat + 256 * r;
        assert(v % 256 == s[0] && v / 256 == r);
        assert(s =~= seq![s[0]] + s.skip(1));
        if s[0] == 255 {
            assert((v + 1) % 256 == 0 && (v + 1) / 256 == r + 1);
        } else {
            assert((v + 1) % 256 == s[0] + 1 && (v + 1) / 256 == r);
        }
    } else {
        assert(byte_order::le_bytes(byte_order::le_value(s), s.len()) =~= s);
    }
}

proof fn lemma_le_mod(a: nat, n: nat, count: nat)
    ensures
        byte_order::le_bytes(byte_order::le_value(byte_order::le_bytes(a, n)) + count, n)
            == byte_order::le_bytes(a + count, n),
    decreases n,
{
    if n > 0 {
        let s = byte_order::le_bytes(a, n);
        let rest = byte_order::le_bytes(a / 256, (n - 1) as nat);
        assert(s.skip(1) =~= rest);
        let r = byte_order::le_value(rest);
        let low = a % 256;
        let carry = (low + count) / 256;
        let v = low + 256 * r + count;
        assert(s[0] == low);
        assert(byte_order::le_value(s) == low + 256 * r);
        assert(v % 256 == (low + count) % 256 && v / 256 == r + carry);
        assert((a + count) % 256 == (low + count) % 256 && (a + count) / 256 == a / 256 + carry);
        lemma_le_mod(a / 256, (n - 1) as nat, carry);
    }
}

/// Counting is additive: `a` messages and then `b` more are `a + b` messages.
pub proof fn counting_adds_up(c: CipherState, a: nat, b: nat)
    ensures
        c.after(a).after(b) == c.after(a + b),
        c.nonce.len() == c.after(a).nonce.len(),
{
    byte_order::lemma_le_len(byte_order::le_value(c.nonce) + a, c.nonce.len());
    lemma_le_mod(byte_order::le_value(c.nonce) + a, c.nonce.len(), b);
}

/// No message leaves the state unchanged.
pub proof fn counting_none(c: CipherState)
    ensures
        c.after(0) == c,
{
    lemma_count_up(c.nonce);
}

impl CryptoHandler {
    /// A handler for the direction that `nonce_msb` stands for.
    pub fn new(key: &[u8], nonce_msb: u8) -> (r: Result<CryptoHandler, CryptoError>)
        ensures
            match r {
                Ok(c) => key@.len() == KEY_LEN && c@ == CipherState::fresh(key@, nonce_msb),
                Err(e) => key@.len() != KEY_LEN && e == CryptoError::InvalidKeyLength,
            },
    {
        if key.len() != KEY_LEN {
            return Err(CryptoError::InvalidKeyLength);
        }
        let mut k: [u8; 32] = [0u8; 32];
        let mut i: usize = 0;
        while i < KEY_LEN
            invariant
                i <= KEY_LEN,
                key@.len() == KEY_LEN,
                forall|j: int| 0 <= j < i ==> k@[j] == key@[j],
            decreases KEY_LEN - i,
        {
            k[i] = key[i];
            i += 1;
        }
        let mut nonce: [u8; 24] = [0u8; 24];
        nonce[23] = nonce_msb;
        assert(k@ =~= key@);
        assert(nonce@ =~= first_nonce(nonce_msb));
        Ok(CryptoHandler { key: k, nonce })
    }

    fn increment_nonce(&mut self)
        ensures
            final(self)@ == old(self)@.after(1),
    {
        let ghost before = self.nonce@;
        let ghost goal = nonce_after(before, 1);
        let mut i: usize = 0;
        let mut carry: bool = true;
        assert(before.skip(0) =~= before);
        assert(goal =~= before.take(0) + goal);
        while i < NONCE_LEN && carry
            invariant
                i <= NONCE_LEN,
                before.len() == NONCE_LEN,
                self.key@ == old(self).key@,
                goal == nonce_after(before, 1),
                self.nonce@.skip(i as int) == before.skip(i as int),
                goal == self.nonce@.take(i as int) + (if carry {
                    byte_order::le_bytes(
                        byte_order::le_value(before.skip(i as int)) + 1,
                        (NONCE_LEN - i) as nat,
                    )
                } else {
                    before.skip(i as int)
                }),
            decreases NONCE_LEN - i,
        {
            let ghost tail = before.skip(i as int);
            let ghost done = self.nonce@.take(i as int);
            proof {
                lemma_count_up(tail);
                assert(tail[0] == before[i as int]);
                assert(self.nonce@.skip(i as int)[0] == tail[0]);
                assert(tail.skip(1) =~= before.skip(i + 1));
            }
            let ghost unchanged = self.nonce@.skip(i as int);
            let b: u8 = self.nonce[i];
            if b == 255 {
                self.nonce[i] = 0;
            } else {
                self.nonce[i] = b + 1;
                carry = false;
            }
            assert(self.nonce@.take(i + 1) =~= done.push(self.nonce@[i as int]));
            assert(self.nonce@.skip(i + 1) =~= unchanged.skip(1));
            assert(goal =~= self.nonce@.take(i + 1) + (if carry {
                byte_order::le_bytes(
                    byte_order::le_value(before.skip(i + 1)) + 1,
                    (NONCE_LEN - i - 1) as nat,
                )
            } else {
                before.skip(i + 1)
            }));
            i += 1;
        }
        assert(self.nonce@ =~= self.nonce@.take(i as int) + self.nonce@.skip(i as int));
        assert(self.nonce@ =~= goal);
    }

    /// Encrypts the next message. A message that is too long is turned down, and
    /// does not count.
    pub fn encrypt(&mut self, plaintext: &[u8]) -> (r: Result<Vec<u8>, CryptoError>)
        ensures
            match r {
                Ok(b) => !too_long(plaintext@.len()) && b@ == old(self)@.seal_next(plaintext@)
                    && b@.len() == plaintext@.len() + MAC_LEN && old(self)@.open_next(b@) == Some(
                    plaintext@,
                ) && final(self)@ == old(self)@.after(1),
                Err(e) => too_long(plaintext@.len()) && e == CryptoError::MessageTooLong
                    && final(self)@ == old(self)@,
            },
    {
        let longest: usize = isize::MAX as usize - MAC_LEN;
        if plaintext.len() > longest {
            return Err(CryptoError::MessageTooLong);
        }
        self.increment_nonce();
        Ok(seal(&self.key, &self.nonce, plaintext))
    }

    /// Decrypts the next message, which counts even where it is turned down.
    pub fn decrypt(&mut self, ciphertext: &[u8]) -> (r: Result<Vec<u8>, CryptoError>)
        ensures
            final(self)@ == old(self)@.after(1),
            match r {
                Ok(b) => old(self)@.open_next(ciphertext@) == Some(b@) && b@.len() + MAC_LEN
                    == ciphertext@.len(),
                Err(e) => old(self)@.open_next(ciphertext@) is None && e == CryptoError::Forged,
            },
    {
        self.increment_nonce();
        match open(&self.key, &self.nonce, ciphertext) {
            Some(b) => Ok(b),
            None => Err(CryptoError::Forged),
        }
    }
}

/// Each message counts the nonce up by one, as a number of 24 bytes, the lowest first; the
/// key stays.
pub proof fn nonces_count_messages(c: CipherState, count: nat)
    ensures
        c.after(count).key == c.key,
        c.after(count).nonce.len() == c.nonce.len(),
        byte_order::le_value(c.after(count).nonce) == (byte_order::le_value(c.nonce) + count)
            % byte_order::byte_range(c.nonce.len()),
{
    counting_adds_up(c, count, 0);
    lemma_value_of_low_bytes(byte_order::le_value(c.nonce) + count, c.nonce.len());
}

proof fn lemma_value_of_low_bytes(v: nat, n: nat)
    ensures
        byte_order::byte_range(n) > 0,
        byte_order::le_value(byte_order::le_bytes(v, n)) == v % byte_order::byte_range(n),
    decreases n,
{
    if n == 0 {
        assert(v % 1 == 0);
    } else {
        let m = (n - 1) as nat;
        let s = byte_order::le_bytes(v, n);
        lemma_value_of_low_bytes(v / 256, m);
        assert(s.skip(1) =~= byte_order::le_bytes(v / 256, m));
        let r = byte_order::byte_range(m) as int;
        vstd::arithmetic::div_mod::lemma_mod_breakdown(v as int, 256, r);
    }
}

/// The nonces of two messages of one direction differ, unless as many messages lie between
/// them as there are nonces.
pub proof fn nonces_are_used_once(c: CipherState, a: nat, b: nat)
    requires
        c.nonce.len() == 24,
        a < b < byte_order::byte_range(24),
    ensures
        c.after(a).nonce != c.after(b).nonce,
{
    nonces_count_messages(c, a);
    nonces_count_messages(c, b);
    let v = byte_order::le_value(c.nonce) as int;
    let r = byte_order::byte_range(24) as int;
    if (v + a) % r == (v + b) % r {
        vstd::arithmetic::div_mod::lemma_mod_equivalence(v + b, v + a, r);
        vstd::arithmetic::div_mod::lemma_small_mod((b - a) as nat, r as nat);
    }
}

/// A direction starts from a nonce that is zero but for its last byte, and the next
/// message goes under the nonce that follows.
pub proof fn messages_go_under_the_next_nonce(c: CipherState, key: Seq<u8>, msb: u8, text: Seq<u8>)
    ensures
        CipherState::fresh(key, msb).key == key,
        CipherState::fresh(key, msb).nonce == seq![0u8, 0, 0, 0, 0, 0, 0, 0, 0, 0, 0, 0, 0, 0, 0,
            0, 0, 0, 0, 0, 0, 0, 0, msb],
        c.seal_next(text) == secretbox_seal(c.key, c.after(1).nonce, text),
        c.open_next(text) == secretbox_open(c.key, c.after(1).nonce, text),
        forall|len: nat| #[trigger] too_long(len) <==> len + 16 > isize::MAX,
{
    assert(CipherState::fresh(key, msb).nonce =~= seq![0u8, 0, 0, 0, 0, 0, 0, 0, 0, 0, 0, 0, 0, 0,
        0, 0, 0, 0, 0, 0, 0, 0, 0, msb]);
}

} // verus!
